use vstd::prelude::*;

use vstd::utf8::encode_utf8;

use crate::ir::{Block, BlockItem, Enum, EnumVariant, Field, FieldSet, IR};

verus! {

broadcast use {
    vstd::seq_lib::to_multiset_remove,
    vstd::seq_lib::to_multiset_insert,
    vstd::seq_lib::to_multiset_contains,
};

/// Byte-wise lexicographic order, the order of `str`.
pub open spec fn bytes_lt(a: Seq<u8>, b: Seq<u8>) -> bool
    decreases a.len(),
{
    if b.len() == 0 {
        false
    } else if a.len() == 0 {
        true
    } else if a[0] != b[0] {
        a[0] < b[0]
    } else {
        bytes_lt(a.drop_first(), b.drop_first())
    }
}

proof fn lemma_bytes_lt_asym(a: Seq<u8>, b: Seq<u8>)
    ensures
        bytes_lt(a, b) ==> !bytes_lt(b, a),
    decreases a.len(),
{
    if a.len() > 0 && b.len() > 0 && a[0] == b[0] {
        lemma_bytes_lt_asym(a.drop_first(), b.drop_first());
    }
}

proof fn lemma_bytes_not_lt_trans(a: Seq<u8>, b: Seq<u8>, c: Seq<u8>)
    ensures
        !bytes_lt(a, b) && !bytes_lt(b, c) ==> !bytes_lt(a, c),
    decreases a.len(),
{
    if a.len() > 0 && b.len() > 0 && c.len() > 0 {
        lemma_bytes_not_lt_trans(a.drop_first(), b.drop_first(), c.drop_first());
    }
}

/// The order of names: the byte order of their UTF-8 encodings.
pub open spec fn name_lt(a: Seq<char>, b: Seq<char>) -> bool {
    bytes_lt(encode_utf8(a), encode_utf8(b))
}

fn is_name_lt(a: &String, b: &String) -> (r: bool)
    ensures
        r == name_lt(a@, b@),
{
    let x = a.as_str().as_bytes();
    let y = b.as_str().as_bytes();
    let mut i: usize = 0;
    assert(x@.skip(0) =~= x@);
    assert(y@.skip(0) =~= y@);
    while i < x.len() && i < y.len()
        invariant
            x@ == encode_utf8(a@),
            y@ == encode_utf8(b@),
            i <= x@.len(),
            i <= y@.len(),
            bytes_lt(x@, y@) == bytes_lt(x@.skip(i as int), y@.skip(i as int)),
        decreases x@.len() - i,
    {
        if x[i] != y[i] {
            return x[i] < y[i];
        }
        assert(x@.skip(i as int).drop_first() =~= x@.skip(i + 1));
        assert(y@.skip(i as int).drop_first() =~= y@.skip(i + 1));
        i = i + 1;
    }
    i < y.len()
}

/// Entries that have a canonical place in a list: `precedes` is a strict weak order.
pub trait Keyed: Sized {
    spec fn precedes(&self, o: &Self) -> bool;

    fn is_before(&self, o: &Self) -> (r: bool)
        ensures
            r == self.precedes(o),
    ;

    proof fn lemma_asym(a: &Self, b: &Self)
        ensures
            a.precedes(b) ==> !b.precedes(a),
    ;

    proof fn lemma_not_trans(a: &Self, b: &Self, c: &Self)
        ensures
            !a.precedes(b) && !b.precedes(c) ==> !a.precedes(c),
    ;
}

/// No entry of `s` precedes an entry before it.
pub open spec fn in_order<T: Keyed>(s: Seq<T>) -> bool {
    forall|i: int, j: int| 0 <= i < j < s.len() ==> !s[j].precedes(&s[i])
}

/// Sorts `v` by `precedes`, keeping the order of entries that neither precedes; a `v`
/// already in order is left as it is.
pub fn sort_stable<T: Keyed>(v: &mut Vec<T>)
    ensures
        in_order(final(v)@),
        final(v)@.len() == old(v)@.len(),
        final(v)@.to_multiset() == old(v)@.to_multiset(),
        in_order(old(v)@) ==> final(v)@ == old(v)@,
{
    let mut i: usize = 0;
    while i < v.len()
        invariant
            i <= v@.len(),
            v@.len() == old(v)@.len(),
            in_order(v@.take(i as int)),
            v@.to_multiset() == old(v)@.to_multiset(),
            in_order(old(v)@) ==> v@ == old(v)@,
        decreases v@.len() - i,
    {
        let mut pos: usize = i;
        while pos > 0 && v[i].is_before(&v[pos - 1])
            invariant
                i < v@.len(),
                pos <= i,
                forall|k: int| pos <= k < i ==> v@[i as int].precedes(&v@[k]),
            decreases pos,
        {
            pos = pos - 1;
        }
        let ghost s = v@;
        proof {
            if in_order(old(v)@) && pos < i {
                assert(!s[i as int].precedes(&s[i - 1]));
            }
        }
        if pos < i {
            let x = v.remove(i);
            v.insert(pos, x);
            proof {
                assert(s.contains(s[i as int]));
                assert(v@.to_multiset() =~= s.to_multiset());
            }
        }
        proof {
            let t = v@.take(i + 1);
            let p = s.take(i as int);
            let e = s[i as int];
            assert(t =~= p.insert(pos as int, e));
            assert forall|a: int, b: int| 0 <= a < b < t.len() implies !t[b].precedes(&t[a]) by {
                if b < pos {
                    assert(t[a] == p[a] && t[b] == p[b]);
                } else if a > pos {
                    assert(t[a] == p[a - 1] && t[b] == p[b - 1]);
                } else if a < pos && b > pos {
                    assert(t[a] == p[a] && t[b] == p[b - 1]);
                } else if a == pos {
                    assert(t[a] == e && t[b] == p[b - 1]);
                    T::lemma_asym(&e, &p[b - 1]);
                } else {
                    assert(b == pos && t[b] == e && t[a] == p[a]);
                    assert(!e.precedes(&p[pos - 1]));
                    if a < pos - 1 {
                        assert(!p[pos - 1].precedes(&p[a]));
                        T::lemma_not_trans(&e, &p[pos - 1], &p[a]);
                    }
                }
            }
        }
        i = i + 1;
    }
    assert(v@.take(i as int) =~= v@);
}

impl Keyed for EnumVariant {
    open spec fn precedes(&self, o: &Self) -> bool {
        self.value < o.value
    }

    fn is_before(&self, o: &Self) -> (r: bool) {
        self.value < o.value
    }

    proof fn lemma_asym(a: &Self, b: &Self) {
    }

    proof fn lemma_not_trans(a: &Self, b: &Self, c: &Self) {
    }
}

impl Keyed for Field {
    open spec fn precedes(&self, o: &Self) -> bool {
        self.bit_offset < o.bit_offset
    }

    fn is_before(&self, o: &Self) -> (r: bool) {
        self.bit_offset < o.bit_offset
    }

    proof fn lemma_asym(a: &Self, b: &Self) {
    }

    proof fn lemma_not_trans(a: &Self, b: &Self, c: &Self) {
    }
}

impl Keyed for BlockItem {
    open spec fn precedes(&self, o: &Self) -> bool {
        self.byte_offset < o.byte_offset
    }

    fn is_before(&self, o: &Self) -> (r: bool) {
        self.byte_offset < o.byte_offset
    }

    proof fn lemma_asym(a: &Self, b: &Self) {
    }

    proof fn lemma_not_trans(a: &Self, b: &Self, c: &Self) {
    }
}

impl Keyed for Block {
    open spec fn precedes(&self, o: &Self) -> bool {
        name_lt(self.name@, o.name@)
    }

    fn is_before(&self, o: &Self) -> (r: bool) {
        is_name_lt(&self.name, &o.name)
    }

    proof fn lemma_asym(a: &Self, b: &Self) {
        lemma_bytes_lt_asym(encode_utf8(a.name@), encode_utf8(b.name@));
    }

    proof fn lemma_not_trans(a: &Self, b: &Self, c: &Self) {
        lemma_bytes_not_lt_trans(encode_utf8(a.name@), encode_utf8(b.name@), encode_utf8(c.name@));
    }
}

impl Keyed for FieldSet {
    open spec fn precedes(&self, o: &Self) -> bool {
        name_lt(self.name@, o.name@)
    }

    fn is_before(&self, o: &Self) -> (r: bool) {
        is_name_lt(&self.name, &o.name)
    }

    proof fn lemma_asym(a: &Self, b: &Self) {
        lemma_bytes_lt_asym(encode_utf8(a.name@), encode_utf8(b.name@));
    }

    proof fn lemma_not_trans(a: &Self, b: &Self, c: &Self) {
        lemma_bytes_not_lt_trans(encode_utf8(a.name@), encode_utf8(b.name@), encode_utf8(c.name@));
    }
}

impl Keyed for String {
    open spec fn precedes(&self, o: &Self) -> bool {
        name_lt(self@, o@)
    }

    fn is_before(&self, o: &Self) -> (r: bool) {
        is_name_lt(self, o)
    }

    proof fn lemma_asym(a: &Self, b: &Self) {
        lemma_bytes_lt_asym(encode_utf8(a@), encode_utf8(b@));
    }

    proof fn lemma_not_trans(a: &Self, b: &Self, c: &Self) {
        lemma_bytes_not_lt_trans(encode_utf8(a@), encode_utf8(b@), encode_utf8(c@));
    }
}

impl Keyed for Enum {
    open spec fn precedes(&self, o: &Self) -> bool {
        name_lt(self.name@, o.name@)
    }

    fn is_before(&self, o: &Self) -> (r: bool) {
        is_name_lt(&self.name, &o.name)
    }

    proof fn lemma_asym(a: &Self, b: &Self) {
        lemma_bytes_lt_asym(encode_utf8(a.name@), encode_utf8(b.name@));
    }

    proof fn lemma_not_trans(a: &Self, b: &Self, c: &Self) {
        lemma_bytes_not_lt_trans(encode_utf8(a.name@), encode_utf8(b.name@), encode_utf8(c.name@));
    }
}

/// Every list of `ir` is in canonical order: blocks, field sets and enums by name, block items
/// by byte offset, fields by bit offset, variants by value; entries with equal keys keep their
/// declaration order.
pub open spec fn canonical(ir: IR) -> bool {
    &&& in_order(ir.blocks@)
    &&& in_order(ir.fieldsets@)
    &&& in_order(ir.enums@)
    &&& forall|i: int| 0 <= i < ir.blocks@.len() ==> in_order(#[trigger] ir.blocks@[i].items@)
    &&& forall|i: int| 0 <= i < ir.fieldsets@.len() ==> in_order(#[trigger] ir.fieldsets@[i].fields@)
    &&& forall|i: int| 0 <= i < ir.enums@.len() ==> in_order(#[trigger] ir.enums@[i].variants@)
}

/// Whether no entry of `v` precedes an entry before it.
pub fn is_in_order<T: Keyed>(v: &Vec<T>) -> (r: bool)
    ensures
        r == in_order(v@),
{
    let mut i: usize = 1;
    if v.len() == 0 {
        return true;
    }
    while i < v.len()
        invariant
            1 <= i <= v@.len(),
            in_order(v@.take(i as int)),
        decreases v@.len() - i,
    {
        if v[i].is_before(&v[i - 1]) {
            assert(!in_order(v@)) by {
                assert(v@[i as int].precedes(&v@[i - 1]));
            }
            return false;
        }
        proof {
            let t = v@.take(i + 1);
            assert forall|a: int, b: int| 0 <= a < b < t.len() implies !t[b].precedes(&t[a]) by {
                if b == i && a < i - 1 {
                    assert(v@.take(i as int)[i - 1] == v@[i - 1] && v@.take(i as int)[a] == v@[a]);
                    assert(!v@[i - 1].precedes(&v@[a]));
                    T::lemma_not_trans(&v@[i as int], &v@[i - 1], &v@[a]);
                }
                if b < i {
                    assert(t[a] == v@.take(i as int)[a] && t[b] == v@.take(i as int)[b]);
                }
            }
        }
        i = i + 1;
    }
    assert(v@.take(i as int) =~= v@);
    true
}

/// Whether every list of `ir` is in canonical order.
pub fn is_canonical(ir: &IR) -> (r: bool)
    ensures
        r == canonical(*ir),
{
    if !is_in_order(&ir.blocks) || !is_in_order(&ir.fieldsets) || !is_in_order(&ir.enums) {
        return false;
    }
    let mut i: usize = 0;
    while i < ir.blocks.len()
        invariant
            i <= ir.blocks@.len(),
            forall|k: int| 0 <= k < i ==> in_order(#[trigger] ir.blocks@[k].items@),
        decreases ir.blocks@.len() - i,
    {
        if !is_in_order(&ir.blocks[i].items) {
            return false;
        }
        i = i + 1;
    }
    let mut i: usize = 0;
    while i < ir.fieldsets.len()
        invariant
            i <= ir.fieldsets@.len(),
            forall|k: int| 0 <= k < i ==> in_order(#[trigger] ir.fieldsets@[k].fields@),
        decreases ir.fieldsets@.len() - i,
    {
        if !is_in_order(&ir.fieldsets[i].fields) {
            return false;
        }
        i = i + 1;
    }
    let mut i: usize = 0;
    while i < ir.enums.len()
        invariant
            i <= ir.enums@.len(),
            forall|k: int| 0 <= k < i ==> in_order(#[trigger] ir.enums@[k].variants@),
        decreases ir.enums@.len() - i,
    {
        if !is_in_order(&ir.enums[i].variants) {
            return false;
        }
        i = i + 1;
    }
    true
}

/// `b` is `a` with its items possibly reordered.
pub open spec fn block_reordered(a: Block, b: Block) -> bool {
    b.name == a.name && b.description == a.description && b.items@.to_multiset()
        == a.items@.to_multiset()
}

/// `b` is `a` with its fields possibly reordered.
pub open spec fn fieldset_reordered(a: FieldSet, b: FieldSet) -> bool {
    b.name == a.name && b.bit_size == a.bit_size && b.description == a.description
        && b.fields@.to_multiset() == a.fields@.to_multiset()
}

/// `b` is `a` with its variants possibly reordered.
pub open spec fn enum_reordered(a: Enum, b: Enum) -> bool {
    b.name == a.name && b.bit_size == a.bit_size && b.description == a.description
        && b.variants@.to_multiset() == a.variants@.to_multiset()
}

/// `b` is some block of `s` with its items possibly reordered.
pub open spec fn block_from(s: Seq<Block>, b: Block) -> bool {
    exists|j: int| 0 <= j < s.len() && #[trigger] block_reordered(s[j], b)
}

/// `b` is some field set of `s` with its fields possibly reordered.
pub open spec fn fieldset_from(s: Seq<FieldSet>, b: FieldSet) -> bool {
    exists|j: int| 0 <= j < s.len() && #[trigger] fieldset_reordered(s[j], b)
}

/// `b` is some enum of `s` with its variants possibly reordered.
pub open spec fn enum_from(s: Seq<Enum>, b: Enum) -> bool {
    exists|j: int| 0 <= j < s.len() && #[trigger] enum_reordered(s[j], b)
}

/// Every entry of `new` is an entry of `old` whose lists may have been reordered.
pub open spec fn entries_kept(old: IR, new: IR) -> bool {
    &&& new.blocks@.len() == old.blocks@.len()
    &&& new.fieldsets@.len() == old.fieldsets@.len()
    &&& new.enums@.len() == old.enums@.len()
    &&& forall|i: int| 0 <= i < new.blocks@.len() ==> block_from(old.blocks@, #[trigger] new.blocks@[i])
    &&& forall|i: int|
        0 <= i < new.fieldsets@.len() ==> fieldset_from(old.fieldsets@, #[trigger] new.fieldsets@[i])
    &&& forall|i: int| 0 <= i < new.enums@.len() ==> enum_from(old.enums@, #[trigger] new.enums@[i])
}

/// Puts every list of `ir` in canonical order. On an IR already in that order it changes nothing.
pub fn canonicalize(ir: &mut IR)
    ensures
        canonical(*final(ir)),
        canonical(*old(ir)) ==> *final(ir) == *old(ir),
        entries_kept(*old(ir), *final(ir)),
{
    if is_canonical(ir) {
        proof {
            assert forall|i: int| 0 <= i < ir.blocks@.len() implies block_from(old(ir).blocks@, #[trigger] ir.blocks@[i]) by {
                assert(block_reordered(old(ir).blocks@[i], ir.blocks@[i]));
            }
            assert forall|i: int| 0 <= i < ir.fieldsets@.len() implies fieldset_from(old(ir).fieldsets@, #[trigger] ir.fieldsets@[i]) by {
                assert(fieldset_reordered(old(ir).fieldsets@[i], ir.fieldsets@[i]));
            }
            assert forall|i: int| 0 <= i < ir.enums@.len() implies enum_from(old(ir).enums@, #[trigger] ir.enums@[i]) by {
                assert(enum_reordered(old(ir).enums@[i], ir.enums@[i]));
            }
        }
        return;
    }
    let mut i: usize = 0;
    while i < ir.blocks.len()
        invariant
            i <= ir.blocks@.len(),
            ir.blocks@.len() == old(ir).blocks@.len(),
            ir.fieldsets == old(ir).fieldsets,
            ir.enums == old(ir).enums,
            forall|k: int| 0 <= k < i ==> in_order(#[trigger] ir.blocks@[k].items@),
            forall|k: int| 0 <= k < i ==> block_reordered(old(ir).blocks@[k], #[trigger] ir.blocks@[k]),
            forall|k: int| i <= k < ir.blocks@.len() ==> #[trigger] ir.blocks@[k] == old(ir).blocks@[k],
        decreases ir.blocks@.len() - i,
    {
        sort_stable(&mut ir.blocks[i].items);
        i = i + 1;
    }
    let mut i: usize = 0;
    while i < ir.fieldsets.len()
        invariant
            i <= ir.fieldsets@.len(),
            ir.blocks@.len() == old(ir).blocks@.len(),
            ir.fieldsets@.len() == old(ir).fieldsets@.len(),
            ir.enums == old(ir).enums,
            forall|k: int| 0 <= k < ir.blocks@.len() ==> in_order(#[trigger] ir.blocks@[k].items@),
            forall|k: int| 0 <= k < ir.blocks@.len() ==> block_reordered(old(ir).blocks@[k], #[trigger] ir.blocks@[k]),
            forall|k: int| 0 <= k < i ==> in_order(#[trigger] ir.fieldsets@[k].fields@),
            forall|k: int| 0 <= k < i ==> fieldset_reordered(old(ir).fieldsets@[k], #[trigger] ir.fieldsets@[k]),
            forall|k: int| i <= k < ir.fieldsets@.len() ==> #[trigger] ir.fieldsets@[k] == old(ir).fieldsets@[k],
        decreases ir.fieldsets@.len() - i,
    {
        sort_stable(&mut ir.fieldsets[i].fields);
        i = i + 1;
    }
    let mut i: usize = 0;
    while i < ir.enums.len()
        invariant
            i <= ir.enums@.len(),
            ir.blocks@.len() == old(ir).blocks@.len(),
            ir.fieldsets@.len() == old(ir).fieldsets@.len(),
            ir.enums@.len() == old(ir).enums@.len(),
            forall|k: int| 0 <= k < ir.blocks@.len() ==> in_order(#[trigger] ir.blocks@[k].items@),
            forall|k: int| 0 <= k < ir.blocks@.len() ==> block_reordered(old(ir).blocks@[k], #[trigger] ir.blocks@[k]),
            forall|k: int| 0 <= k < ir.fieldsets@.len() ==> in_order(#[trigger] ir.fieldsets@[k].fields@),
            forall|k: int| 0 <= k < ir.fieldsets@.len() ==> fieldset_reordered(old(ir).fieldsets@[k], #[trigger] ir.fieldsets@[k]),
            forall|k: int| 0 <= k < i ==> in_order(#[trigger] ir.enums@[k].variants@),
            forall|k: int| 0 <= k < i ==> enum_reordered(old(ir).enums@[k], #[trigger] ir.enums@[k]),
            forall|k: int| i <= k < ir.enums@.len() ==> #[trigger] ir.enums@[k] == old(ir).enums@[k],
        decreases ir.enums@.len() - i,
    {
        sort_stable(&mut ir.enums[i].variants);
        i = i + 1;
    }
    let ghost inner = *ir;
    sort_stable(&mut ir.blocks);
    let ghost blocks = ir.blocks@;
    sort_stable(&mut ir.fieldsets);
    let ghost fieldsets = ir.fieldsets@;
    sort_stable(&mut ir.enums);
    assert(ir.blocks@ == blocks && ir.fieldsets@ == fieldsets);
    proof {
        assert forall|k: int|
            #![trigger ir.blocks@[k]]
            0 <= k < ir.blocks@.len() implies in_order(ir.blocks@[k].items@)
            && block_from(old(ir).blocks@, ir.blocks@[k]) by {
            let x = ir.blocks@[k];
            assert(blocks.contains(x));
            assert(blocks.to_multiset().count(x) > 0);
            assert(inner.blocks@.to_multiset().count(x) > 0);
            assert(inner.blocks@.contains(x));
            let j = choose|j: int| 0 <= j < inner.blocks@.len() && inner.blocks@[j] == x;
            assert(block_reordered(old(ir).blocks@[j], inner.blocks@[j]));
        }
        assert forall|k: int|
            #![trigger ir.fieldsets@[k]]
            0 <= k < ir.fieldsets@.len() implies in_order(ir.fieldsets@[k].fields@)
            && fieldset_from(old(ir).fieldsets@, ir.fieldsets@[k]) by {
            let x = ir.fieldsets@[k];
            assert(fieldsets.contains(x));
            assert(fieldsets.to_multiset().count(x) > 0);
            assert(inner.fieldsets@.to_multiset().count(x) > 0);
            assert(inner.fieldsets@.contains(x));
            let j = choose|j: int| 0 <= j < inner.fieldsets@.len() && inner.fieldsets@[j] == x;
            assert(fieldset_reordered(old(ir).fieldsets@[j], inner.fieldsets@[j]));
        }
        assert forall|k: int|
            #![trigger ir.enums@[k]]
            0 <= k < ir.enums@.len() implies in_order(ir.enums@[k].variants@)
            && enum_from(old(ir).enums@, ir.enums@[k]) by {
            let x = ir.enums@[k];
            assert(ir.enums@.contains(x));
            assert(ir.enums@.to_multiset().count(x) > 0);
            assert(inner.enums@.to_multiset().count(x) > 0);
            assert(inner.enums@.contains(x));
            let j = choose|j: int| 0 <= j < inner.enums@.len() && inner.enums@[j] == x;
            assert(enum_reordered(old(ir).enums@[j], inner.enums@[j]));
        }
    }
}

} // verus!
