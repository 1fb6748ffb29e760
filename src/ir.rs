use vstd::prelude::*;

verus! {

/// One named value of an enumeration.
#[derive(Clone, Debug, PartialEq, Eq)]
pub struct EnumVariant {
    pub name: String,
    pub value: u64,
    pub description: Option<String>,
}

/// A closed set of named integer values, `bit_size` bits wide.
#[derive(Clone, Debug, PartialEq, Eq)]
pub struct Enum {
    pub name: String,
    pub bit_size: u64,
    pub variants: Vec<EnumVariant>,
    pub description: Option<String>,
}

/// A bit range of a field set, optionally typed by an enum (named, not owned).
#[derive(Clone, Debug, PartialEq, Eq)]
pub struct Field {
    pub name: String,
    pub bit_offset: u64,
    pub bit_size: u64,
    pub enumm: Option<String>,
    pub description: Option<String>,
}

/// A named bit layout: its fields in declaration order.
#[derive(Clone, Debug, PartialEq, Eq)]
pub struct FieldSet {
    pub name: String,
    pub bit_size: u64,
    pub fields: Vec<Field>,
    pub description: Option<String>,
}

/// What a block item stands for: a register laid out by a field set, or a nested block.
#[derive(Clone, Debug, PartialEq, Eq)]
pub enum ItemTarget {
    Register(Option<String>),
    Block(String),
}

/// An addressable item of a block, covering `[byte_offset, byte_offset + byte_size)`.
#[derive(Clone, Debug, PartialEq, Eq)]
pub struct BlockItem {
    pub name: String,
    pub byte_offset: u64,
    pub byte_size: u64,
    pub target: ItemTarget,
    pub description: Option<String>,
}

/// A named group of addressable items.
#[derive(Clone, Debug, PartialEq, Eq)]
pub struct Block {
    pub name: String,
    pub items: Vec<BlockItem>,
    pub description: Option<String>,
}

/// The description of one peripheral: blocks, field sets and enums, each keyed by its name.
#[derive(Clone, Debug, PartialEq, Eq)]
pub struct IR {
    pub blocks: Vec<Block>,
    pub fieldsets: Vec<FieldSet>,
    pub enums: Vec<Enum>,
}

/// Whether an optional name is present and equal to `n`.
pub open spec fn names(r: Option<String>, n: Seq<char>) -> bool {
    match r {
        Some(s) => s@ == n,
        None => false,
    }
}

pub open spec fn enum_names_unique(s: Seq<Enum>) -> bool {
    forall|i: int, j: int| 0 <= i < j < s.len() ==> s[i].name@ != s[j].name@
}

pub open spec fn fieldset_names_unique(s: Seq<FieldSet>) -> bool {
    forall|i: int, j: int| 0 <= i < j < s.len() ==> s[i].name@ != s[j].name@
}

pub open spec fn block_names_unique(s: Seq<Block>) -> bool {
    forall|i: int, j: int| 0 <= i < j < s.len() ==> s[i].name@ != s[j].name@
}

/// Field `f` of field set `s` refers to the enum named `n`.
pub open spec fn field_refers(fs: Seq<FieldSet>, s: int, f: int, n: Seq<char>) -> bool {
    0 <= s < fs.len() && 0 <= f < fs[s].fields@.len() && names(fs[s].fields@[f].enumm, n)
}

/// Some field anywhere in `fs` refers to the enum named `n`.
pub open spec fn enum_used(fs: Seq<FieldSet>, n: Seq<char>) -> bool {
    exists|s: int, f: int| #[trigger] field_refers(fs, s, f, n)
}

/// Item `k` of block `b` is a register laid out by the field set named `n`.
pub open spec fn item_refers(bs: Seq<Block>, b: int, k: int, n: Seq<char>) -> bool {
    0 <= b < bs.len() && 0 <= k < bs[b].items@.len() && match bs[b].items@[k].target {
        ItemTarget::Register(r) => names(r, n),
        ItemTarget::Block(_) => false,
    }
}

/// Some block item anywhere in `bs` refers to the field set named `n`.
pub open spec fn fieldset_used(bs: Seq<Block>, n: Seq<char>) -> bool {
    exists|b: int, k: int| #[trigger] item_refers(bs, b, k, n)
}

impl IR {
    /// Keys are unique in each of the three maps.
    pub open spec fn wf(&self) -> bool {
        &&& block_names_unique(self.blocks@)
        &&& fieldset_names_unique(self.fieldsets@)
        &&& enum_names_unique(self.enums@)
    }

    /// An IR with nothing in it.
    pub fn new() -> (r: IR)
        ensures
            r.wf(),
            r.blocks@.len() == 0,
            r.fieldsets@.len() == 0,
            r.enums@.len() == 0,
    {
        IR { blocks: Vec::new(), fieldsets: Vec::new(), enums: Vec::new() }
    }

    /// The position of the enum named `name`, if there is one.
    pub fn enum_index(&self, name: &String) -> (r: Option<usize>)
        requires
            self.wf(),
        ensures
            match r {
                Some(i) => i < self.enums@.len() && self.enums@[i as int].name@ == name@,
                None => forall|i: int| 0 <= i < self.enums@.len() ==> self.enums@[i].name@ != name@,
            },
    {
        let mut i: usize = 0;
        while i < self.enums.len()
            invariant
                i <= self.enums@.len(),
                forall|k: int| 0 <= k < i ==> self.enums@[k].name@ != name@,
            decreases self.enums@.len() - i,
        {
            if self.enums[i].name == *name {
                return Some(i);
            }
            i = i + 1;
        }
        None
    }

    /// Whether the keys are unique in each of the three maps.
    pub fn is_wf(&self) -> (r: bool)
        ensures
            r == self.wf(),
    {
        let mut i: usize = 0;
        while i < self.blocks.len()
            invariant
                i <= self.blocks@.len(),
                forall|a: int, b: int| 0 <= a < b < self.blocks@.len() && a < i ==> self.blocks@[a].name@ != self.blocks@[b].name@,
            decreases self.blocks@.len() - i,
        {
            let mut j: usize = i + 1;
            while j < self.blocks.len()
                invariant
                    i < j <= self.blocks@.len(),
                    forall|a: int, b: int| 0 <= a < b < self.blocks@.len() && a < i ==> self.blocks@[a].name@ != self.blocks@[b].name@,
                    forall|b: int| i < b < j ==> self.blocks@[i as int].name@ != self.blocks@[b].name@,
                decreases self.blocks@.len() - j,
            {
                if self.blocks[i].name == self.blocks[j].name {
                    return false;
                }
                j = j + 1;
            }
            i = i + 1;
        }
        let mut i: usize = 0;
        while i < self.fieldsets.len()
            invariant
                block_names_unique(self.blocks@),
                i <= self.fieldsets@.len(),
                forall|a: int, b: int| 0 <= a < b < self.fieldsets@.len() && a < i ==> self.fieldsets@[a].name@ != self.fieldsets@[b].name@,
            decreases self.fieldsets@.len() - i,
        {
            let mut j: usize = i + 1;
            while j < self.fieldsets.len()
                invariant
                    i < j <= self.fieldsets@.len(),
                    forall|a: int, b: int| 0 <= a < b < self.fieldsets@.len() && a < i ==> self.fieldsets@[a].name@ != self.fieldsets@[b].name@,
                    forall|b: int| i < b < j ==> self.fieldsets@[i as int].name@ != self.fieldsets@[b].name@,
                decreases self.fieldsets@.len() - j,
            {
                if self.fieldsets[i].name == self.fieldsets[j].name {
                    return false;
                }
                j = j + 1;
            }
            i = i + 1;
        }
        let mut i: usize = 0;
        while i < self.enums.len()
            invariant
                block_names_unique(self.blocks@),
                fieldset_names_unique(self.fieldsets@),
                i <= self.enums@.len(),
                forall|a: int, b: int| 0 <= a < b < self.enums@.len() && a < i ==> self.enums@[a].name@ != self.enums@[b].name@,
            decreases self.enums@.len() - i,
        {
            let mut j: usize = i + 1;
            while j < self.enums.len()
                invariant
                    i < j <= self.enums@.len(),
                    forall|a: int, b: int| 0 <= a < b < self.enums@.len() && a < i ==> self.enums@[a].name@ != self.enums@[b].name@,
                    forall|b: int| i < b < j ==> self.enums@[i as int].name@ != self.enums@[b].name@,
                decreases self.enums@.len() - j,
            {
                if self.enums[i].name == self.enums[j].name {
                    return false;
                }
                j = j + 1;
            }
            i = i + 1;
        }
        true
    }
}

} // verus!
