use vstd::prelude::*;

use crate::ir::{Block, BlockItem, Enum, EnumVariant, Field, FieldSet, IR};
use crate::pattern::{pattern_replace_all, Pattern};

verus! {

/// `new` is the description `old` with every match of `src` replaced by `rep`.
pub open spec fn desc_mapped(old: Option<String>, new: Option<String>, src: Seq<char>, rep: Seq<char>) -> bool {
    match old {
        Some(d) => new matches Some(e) && e@ == pattern_replace_all(src, d@, rep),
        None => new is None,
    }
}

pub open spec fn variant_mapped(a: EnumVariant, b: EnumVariant, src: Seq<char>, rep: Seq<char>) -> bool {
    b.name == a.name && b.value == a.value && desc_mapped(a.description, b.description, src, rep)
}

pub open spec fn field_mapped(a: Field, b: Field, src: Seq<char>, rep: Seq<char>) -> bool {
    &&& b.name == a.name
    &&& b.bit_offset == a.bit_offset
    &&& b.bit_size == a.bit_size
    &&& b.enumm == a.enumm
    &&& desc_mapped(a.description, b.description, src, rep)
}

pub open spec fn item_mapped(a: BlockItem, b: BlockItem, src: Seq<char>, rep: Seq<char>) -> bool {
    &&& b.name == a.name
    &&& b.byte_offset == a.byte_offset
    &&& b.byte_size == a.byte_size
    &&& b.target == a.target
    &&& desc_mapped(a.description, b.description, src, rep)
}

pub open spec fn enum_mapped(a: Enum, b: Enum, src: Seq<char>, rep: Seq<char>) -> bool {
    &&& b.name == a.name
    &&& b.bit_size == a.bit_size
    &&& desc_mapped(a.description, b.description, src, rep)
    &&& b.variants@.len() == a.variants@.len()
    &&& forall|j: int| 0 <= j < a.variants@.len() ==> #[trigger] variant_mapped(a.variants@[j], b.variants@[j], src, rep)
}

pub open spec fn fieldset_mapped(a: FieldSet, b: FieldSet, src: Seq<char>, rep: Seq<char>) -> bool {
    &&& b.name == a.name
    &&& b.bit_size == a.bit_size
    &&& desc_mapped(a.description, b.description, src, rep)
    &&& b.fields@.len() == a.fields@.len()
    &&& forall|j: int| 0 <= j < a.fields@.len() ==> #[trigger] field_mapped(a.fields@[j], b.fields@[j], src, rep)
}

pub open spec fn block_mapped(a: Block, b: Block, src: Seq<char>, rep: Seq<char>) -> bool {
    &&& b.name == a.name
    &&& desc_mapped(a.description, b.description, src, rep)
    &&& b.items@.len() == a.items@.len()
    &&& forall|j: int| 0 <= j < a.items@.len() ==> #[trigger] item_mapped(a.items@[j], b.items@[j], src, rep)
}

/// `new` is `old` with every description rewritten: every match of `src` replaced by `rep`.
pub open spec fn descriptions_mapped(old: IR, new: IR, src: Seq<char>, rep: Seq<char>) -> bool {
    &&& new.blocks@.len() == old.blocks@.len()
    &&& new.fieldsets@.len() == old.fieldsets@.len()
    &&& new.enums@.len() == old.enums@.len()
    &&& forall|j: int| 0 <= j < old.blocks@.len() ==> #[trigger] block_mapped(old.blocks@[j], new.blocks@[j], src, rep)
    &&& forall|j: int| 0 <= j < old.fieldsets@.len() ==> #[trigger] fieldset_mapped(old.fieldsets@[j], new.fieldsets@[j], src, rep)
    &&& forall|j: int| 0 <= j < old.enums@.len() ==> #[trigger] enum_mapped(old.enums@[j], new.enums@[j], src, rep)
}

fn map_desc(d: &mut Option<String>, p: &Pattern, rep: &String)
    ensures
        desc_mapped(*old(d), *final(d), p.source(), rep@),
{
    let n = match &*d {
        Some(x) => Some(p.replace_all(x, rep)),
        None => None,
    };
    *d = n;
}

fn map_variant(v: &mut EnumVariant, p: &Pattern, rep: &String)
    ensures
        variant_mapped(*old(v), *final(v), p.source(), rep@),
{
    map_desc(&mut v.description, p, rep);
}

fn map_field(f: &mut Field, p: &Pattern, rep: &String)
    ensures
        field_mapped(*old(f), *final(f), p.source(), rep@),
{
    map_desc(&mut f.description, p, rep);
}

fn map_item(i: &mut BlockItem, p: &Pattern, rep: &String)
    ensures
        item_mapped(*old(i), *final(i), p.source(), rep@),
{
    map_desc(&mut i.description, p, rep);
}

fn map_enum(e: &mut Enum, p: &Pattern, rep: &String)
    ensures
        enum_mapped(*old(e), *final(e), p.source(), rep@),
{
    map_desc(&mut e.description, p, rep);
    let mut k: usize = 0;
    while k < e.variants.len()
        invariant
            k <= e.variants@.len(),
            e.variants@.len() == old(e).variants@.len(),
            e.name == old(e).name,
            e.bit_size == old(e).bit_size,
            desc_mapped(old(e).description, e.description, p.source(), rep@),
            forall|j: int| 0 <= j < k ==> #[trigger] variant_mapped(old(e).variants@[j], e.variants@[j], p.source(), rep@),
            forall|j: int| k <= j < e.variants@.len() ==> #[trigger] e.variants@[j] == old(e).variants@[j],
        decreases e.variants@.len() - k,
    {
        map_variant(&mut e.variants[k], p, rep);
        k = k + 1;
    }
}

fn map_fieldset(f: &mut FieldSet, p: &Pattern, rep: &String)
    ensures
        fieldset_mapped(*old(f), *final(f), p.source(), rep@),
{
    map_desc(&mut f.description, p, rep);
    let mut k: usize = 0;
    while k < f.fields.len()
        invariant
            k <= f.fields@.len(),
            f.fields@.len() == old(f).fields@.len(),
            f.name == old(f).name,
            f.bit_size == old(f).bit_size,
            desc_mapped(old(f).description, f.description, p.source(), rep@),
            forall|j: int| 0 <= j < k ==> #[trigger] field_mapped(old(f).fields@[j], f.fields@[j], p.source(), rep@),
            forall|j: int| k <= j < f.fields@.len() ==> #[trigger] f.fields@[j] == old(f).fields@[j],
        decreases f.fields@.len() - k,
    {
        map_field(&mut f.fields[k], p, rep);
        k = k + 1;
    }
}

fn map_block(b: &mut Block, p: &Pattern, rep: &String)
    ensures
        block_mapped(*old(b), *final(b), p.source(), rep@),
{
    map_desc(&mut b.description, p, rep);
    let mut k: usize = 0;
    while k < b.items.len()
        invariant
            k <= b.items@.len(),
            b.items@.len() == old(b).items@.len(),
            b.name == old(b).name,
            desc_mapped(old(b).description, b.description, p.source(), rep@),
            forall|j: int| 0 <= j < k ==> #[trigger] item_mapped(old(b).items@[j], b.items@[j], p.source(), rep@),
            forall|j: int| k <= j < b.items@.len() ==> #[trigger] b.items@[j] == old(b).items@[j],
        decreases b.items@.len() - k,
    {
        map_item(&mut b.items[k], p, rep);
        k = k + 1;
    }
}

/// Rewrites every description of `ir`: each match of `p` is replaced by `rep`.
pub fn map_descriptions(ir: &mut IR, p: &Pattern, rep: &String)
    ensures
        descriptions_mapped(*old(ir), *final(ir), p.source(), rep@),
{
    let mut k: usize = 0;
    while k < ir.blocks.len()
        invariant
            k <= ir.blocks@.len(),
            ir.blocks@.len() == old(ir).blocks@.len(),
            ir.fieldsets == old(ir).fieldsets,
            ir.enums == old(ir).enums,
            forall|j: int| 0 <= j < k ==> #[trigger] block_mapped(old(ir).blocks@[j], ir.blocks@[j], p.source(), rep@),
            forall|j: int| k <= j < ir.blocks@.len() ==> #[trigger] ir.blocks@[j] == old(ir).blocks@[j],
        decreases ir.blocks@.len() - k,
    {
        map_block(&mut ir.blocks[k], p, rep);
        k = k + 1;
    }
    let mut k: usize = 0;
    while k < ir.fieldsets.len()
        invariant
            k <= ir.fieldsets@.len(),
            ir.fieldsets@.len() == old(ir).fieldsets@.len(),
            ir.enums == old(ir).enums,
            ir.blocks@.len() == old(ir).blocks@.len(),
            forall|j: int| 0 <= j < ir.blocks@.len() ==> #[trigger] block_mapped(old(ir).blocks@[j], ir.blocks@[j], p.source(), rep@),
            forall|j: int| 0 <= j < k ==> #[trigger] fieldset_mapped(old(ir).fieldsets@[j], ir.fieldsets@[j], p.source(), rep@),
            forall|j: int| k <= j < ir.fieldsets@.len() ==> #[trigger] ir.fieldsets@[j] == old(ir).fieldsets@[j],
        decreases ir.fieldsets@.len() - k,
    {
        map_fieldset(&mut ir.fieldsets[k], p, rep);
        k = k + 1;
    }
    let mut k: usize = 0;
    while k < ir.enums.len()
        invariant
            k <= ir.enums@.len(),
            ir.enums@.len() == old(ir).enums@.len(),
            ir.blocks@.len() == old(ir).blocks@.len(),
            ir.fieldsets@.len() == old(ir).fieldsets@.len(),
            forall|j: int| 0 <= j < ir.blocks@.len() ==> #[trigger] block_mapped(old(ir).blocks@[j], ir.blocks@[j], p.source(), rep@),
            forall|j: int| 0 <= j < ir.fieldsets@.len() ==> #[trigger] fieldset_mapped(old(ir).fieldsets@[j], ir.fieldsets@[j], p.source(), rep@),
            forall|j: int| 0 <= j < k ==> #[trigger] enum_mapped(old(ir).enums@[j], ir.enums@[j], p.source(), rep@),
            forall|j: int| k <= j < ir.enums@.len() ==> #[trigger] ir.enums@[j] == old(ir).enums@[j],
        decreases ir.enums@.len() - k,
    {
        map_enum(&mut ir.enums[k], p, rep);
        k = k + 1;
    }
}

} // verus!
