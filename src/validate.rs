use vstd::prelude::*;

use crate::ir::{
    enum_used, field_refers, fieldset_used, item_refers, Block, BlockItem, Enum, EnumVariant, Field,
    FieldSet, ItemTarget, IR,
};

verus! {

/// A structural defect of an IR. Entities are given by their positions in the IR.
#[derive(Clone, Copy, Debug, PartialEq, Eq, Structural)]
pub enum Violation {
    /// Items `first` and `second` of block `block` cover a common address.
    ItemOverlap { block: usize, first: usize, second: usize },
    /// Fields `first` and `second` of field set `fieldset` cover a common bit.
    FieldOverlap { fieldset: usize, first: usize, second: usize },
    /// Variants `first` and `second` of enum `enumm` have the same value.
    DuplicateValue { enumm: usize, first: usize, second: usize },
    /// No field refers to enum `enumm`.
    UnusedEnum { enumm: usize },
    /// No block item refers to field set `fieldset`.
    UnusedFieldSet { fieldset: usize },
}

/// Which defects are allowed, and so not reported.
#[derive(Clone, Copy, Debug, Default, PartialEq, Eq, Structural)]
pub struct Options {
    pub allow_register_overlap: bool,
    pub allow_field_overlap: bool,
    pub allow_enum_dup_value: bool,
    pub allow_unused_enums: bool,
    pub allow_unused_fieldsets: bool,
}

/// `[a, a + la)` and `[b, b + lb)` have a common element.
pub open spec fn ranges_overlap(a: (u64, u64), b: (u64, u64)) -> bool {
    a.0 < b.0 + b.1 && b.0 < a.0 + a.1
}

/// The pairs `(i, k)` with `i < k < j` for which `p(i, k)` holds, by ascending `k`.
pub open spec fn pair_row(p: spec_fn(int, int) -> bool, i: int, j: int) -> Seq<(int, int)>
    decreases j - i,
{
    if j <= i + 1 {
        Seq::empty()
    } else {
        pair_row(p, i, j - 1) + if p(i, j - 1) {
            seq![(i, j - 1)]
        } else {
            Seq::empty()
        }
    }
}

/// The pairs `(i, k)` with `i < k < n` and `i < m` for which `p(i, k)` holds, in lexicographic order.
pub open spec fn pair_table(p: spec_fn(int, int) -> bool, n: int, m: int) -> Seq<(int, int)>
    decreases m,
{
    if m <= 0 {
        Seq::empty()
    } else {
        pair_table(p, n, m - 1) + pair_row(p, m - 1, n)
    }
}

pub open spec fn overlap_pred(r: Seq<(u64, u64)>) -> spec_fn(int, int) -> bool {
    |i: int, k: int| ranges_overlap(r[i], r[k])
}

pub open spec fn equal_pred(v: Seq<u64>) -> spec_fn(int, int) -> bool {
    |i: int, k: int| v[i] == v[k]
}

/// Every pair of ranges of `r` that overlap, in lexicographic order.
pub open spec fn overlapping_pairs(r: Seq<(u64, u64)>) -> Seq<(int, int)> {
    pair_table(overlap_pred(r), r.len() as int, r.len() as int)
}

/// Every pair of positions of `v` that hold the same value, in lexicographic order.
pub open spec fn equal_pairs(v: Seq<u64>) -> Seq<(int, int)> {
    pair_table(equal_pred(v), v.len() as int, v.len() as int)
}

pub open spec fn pairs_view(s: Seq<(usize, usize)>) -> Seq<(int, int)> {
    s.map_values(|p: (usize, usize)| (p.0 as int, p.1 as int))
}

fn overlaps(a: (u64, u64), b: (u64, u64)) -> (r: bool)
    ensures
        r == ranges_overlap(a, b),
{
    if a.0 <= b.0 {
        b.0 - a.0 < a.1 && (a.0 < b.0 || b.1 > 0)
    } else {
        a.0 - b.0 < b.1
    }
}

/// Lists every pair of ranges in `r` that have an element in common.
pub fn find_overlaps(r: &Vec<(u64, u64)>) -> (out: Vec<(usize, usize)>)
    ensures
        pairs_view(out@) == overlapping_pairs(r@),
{
    let ghost p = overlap_pred(r@);
    let n = r.len();
    let mut out: Vec<(usize, usize)> = Vec::new();
    let mut i: usize = 0;
    while i < n
        invariant
            n == r@.len(),
            i <= n,
            p == overlap_pred(r@),
            pairs_view(out@) == pair_table(p, n as int, i as int),
        decreases n - i,
    {
        let mut j: usize = i + 1;
        assert(pair_row(p, i as int, j as int) =~= Seq::empty());
        assert(pairs_view(out@) =~= pair_table(p, n as int, i as int) + pair_row(p, i as int, j as int));
        while j < n
            invariant
                n == r@.len(),
                i < n,
                i < j <= n,
                p == overlap_pred(r@),
                pairs_view(out@) == pair_table(p, n as int, i as int) + pair_row(p, i as int, j as int),
            decreases n - j,
        {
            let ghost before = out@;
            assert(p(i as int, j as int) == ranges_overlap(r@[i as int], r@[j as int]));
            assert(pair_row(p, i as int, j + 1) == pair_row(p, i as int, j as int) + if p(i as int, j as int) {
                seq![(i as int, j as int)]
            } else {
                Seq::empty()
            });
            if overlaps(r[i], r[j]) {
                out.push((i, j));
                assert(pairs_view(out@) =~= pairs_view(before).push((i as int, j as int)));
            }
            assert(pairs_view(out@) =~= pair_table(p, n as int, i as int) + pair_row(p, i as int, j + 1));
            j = j + 1;
        }
        i = i + 1;
    }
    out
}

/// Lists every pair of positions in `v` that hold the same value.
pub fn find_duplicates(v: &Vec<u64>) -> (out: Vec<(usize, usize)>)
    ensures
        pairs_view(out@) == equal_pairs(v@),
{
    let ghost p = equal_pred(v@);
    let n = v.len();
    let mut out: Vec<(usize, usize)> = Vec::new();
    let mut i: usize = 0;
    while i < n
        invariant
            n == v@.len(),
            i <= n,
            p == equal_pred(v@),
            pairs_view(out@) == pair_table(p, n as int, i as int),
        decreases n - i,
    {
        let mut j: usize = i + 1;
        assert(pair_row(p, i as int, j as int) =~= Seq::empty());
        assert(pairs_view(out@) =~= pair_table(p, n as int, i as int) + pair_row(p, i as int, j as int));
        while j < n
            invariant
                n == v@.len(),
                i < n,
                i < j <= n,
                p == equal_pred(v@),
                pairs_view(out@) == pair_table(p, n as int, i as int) + pair_row(p, i as int, j as int),
            decreases n - j,
        {
            let ghost before = out@;
            assert(p(i as int, j as int) == (v@[i as int] == v@[j as int]));
            assert(pair_row(p, i as int, j + 1) == pair_row(p, i as int, j as int) + if p(i as int, j as int) {
                seq![(i as int, j as int)]
            } else {
                Seq::empty()
            });
            if v[i] == v[j] {
                out.push((i, j));
                assert(pairs_view(out@) =~= pairs_view(before).push((i as int, j as int)));
            }
            assert(pairs_view(out@) =~= pair_table(p, n as int, i as int) + pair_row(p, i as int, j + 1));
            j = j + 1;
        }
        i = i + 1;
    }
    out
}

/// The kind of a defect that concerns a pair of entries of one entity.
#[derive(Clone, Copy, PartialEq, Eq, Structural)]
pub enum PairKind {
    Items,
    Fields,
    Values,
}

pub open spec fn pair_violation(kind: PairKind, idx: int, p: (int, int)) -> Violation {
    match kind {
        PairKind::Items => Violation::ItemOverlap {
            block: idx as usize,
            first: p.0 as usize,
            second: p.1 as usize,
        },
        PairKind::Fields => Violation::FieldOverlap {
            fieldset: idx as usize,
            first: p.0 as usize,
            second: p.1 as usize,
        },
        PairKind::Values => Violation::DuplicateValue {
            enumm: idx as usize,
            first: p.0 as usize,
            second: p.1 as usize,
        },
    }
}

pub open spec fn tagged(kind: PairKind, idx: int, ps: Seq<(int, int)>) -> Seq<Violation> {
    ps.map_values(|p: (int, int)| pair_violation(kind, idx, p))
}

fn push_pairs(out: &mut Vec<Violation>, pairs: &Vec<(usize, usize)>, kind: PairKind, idx: usize)
    ensures
        final(out)@ == old(out)@ + tagged(kind, idx as int, pairs_view(pairs@)),
{
    let mut k: usize = 0;
    while k < pairs.len()
        invariant
            k <= pairs@.len(),
            out@ == old(out)@ + tagged(kind, idx as int, pairs_view(pairs@.take(k as int))),
        decreases pairs@.len() - k,
    {
        let (a, b) = pairs[k];
        let v = match kind {
            PairKind::Items => Violation::ItemOverlap { block: idx, first: a, second: b },
            PairKind::Fields => Violation::FieldOverlap { fieldset: idx, first: a, second: b },
            PairKind::Values => Violation::DuplicateValue { enumm: idx, first: a, second: b },
        };
        out.push(v);
        assert(pairs@.take(k + 1) =~= pairs@.take(k as int).push(pairs@[k as int]));
        assert(out@ =~= old(out)@ + tagged(kind, idx as int, pairs_view(pairs@.take(k + 1))));
        k = k + 1;
    }
    assert(pairs@.take(k as int) =~= pairs@);
}

pub open spec fn item_ranges(b: Block) -> Seq<(u64, u64)> {
    b.items@.map_values(|it: BlockItem| (it.byte_offset, it.byte_size))
}

pub open spec fn field_ranges(f: FieldSet) -> Seq<(u64, u64)> {
    f.fields@.map_values(|x: Field| (x.bit_offset, x.bit_size))
}

pub open spec fn variant_values(e: Enum) -> Seq<u64> {
    e.variants@.map_values(|v: EnumVariant| v.value)
}

/// Overlapping items of the first `k` blocks.
pub open spec fn item_report(bs: Seq<Block>, k: int) -> Seq<Violation>
    decreases k,
{
    if k <= 0 {
        Seq::empty()
    } else {
        item_report(bs, k - 1) + tagged(PairKind::Items, k - 1, overlapping_pairs(item_ranges(bs[k - 1])))
    }
}

/// Overlapping fields of the first `k` field sets.
pub open spec fn field_report(fs: Seq<FieldSet>, k: int) -> Seq<Violation>
    decreases k,
{
    if k <= 0 {
        Seq::empty()
    } else {
        field_report(fs, k - 1) + tagged(PairKind::Fields, k - 1, overlapping_pairs(field_ranges(fs[k - 1])))
    }
}

/// Variants with equal values in the first `k` enums.
pub open spec fn value_report(es: Seq<Enum>, k: int) -> Seq<Violation>
    decreases k,
{
    if k <= 0 {
        Seq::empty()
    } else {
        value_report(es, k - 1) + tagged(PairKind::Values, k - 1, equal_pairs(variant_values(es[k - 1])))
    }
}

/// The first `k` enums that no field refers to.
pub open spec fn unused_enum_report(ir: IR, k: int) -> Seq<Violation>
    decreases k,
{
    if k <= 0 {
        Seq::empty()
    } else {
        unused_enum_report(ir, k - 1) + if enum_used(ir.fieldsets@, ir.enums@[k - 1].name@) {
            Seq::empty()
        } else {
            seq![Violation::UnusedEnum { enumm: (k - 1) as usize }]
        }
    }
}

/// The first `k` field sets that no block item refers to.
pub open spec fn unused_fieldset_report(ir: IR, k: int) -> Seq<Violation>
    decreases k,
{
    if k <= 0 {
        Seq::empty()
    } else {
        unused_fieldset_report(ir, k - 1) + if fieldset_used(ir.blocks@, ir.fieldsets@[k - 1].name@) {
            Seq::empty()
        } else {
            seq![Violation::UnusedFieldSet { fieldset: (k - 1) as usize }]
        }
    }
}

/// Every defect of `ir` that `o` does not allow: overlapping items, overlapping fields,
/// duplicate values, unused enums, unused field sets, in this order.
pub open spec fn report(ir: IR, o: Options) -> Seq<Violation> {
    (if o.allow_register_overlap {
        Seq::empty()
    } else {
        item_report(ir.blocks@, ir.blocks@.len() as int)
    }) + (if o.allow_field_overlap {
        Seq::empty()
    } else {
        field_report(ir.fieldsets@, ir.fieldsets@.len() as int)
    }) + (if o.allow_enum_dup_value {
        Seq::empty()
    } else {
        value_report(ir.enums@, ir.enums@.len() as int)
    }) + (if o.allow_unused_enums {
        Seq::empty()
    } else {
        unused_enum_report(ir, ir.enums@.len() as int)
    }) + (if o.allow_unused_fieldsets {
        Seq::empty()
    } else {
        unused_fieldset_report(ir, ir.fieldsets@.len() as int)
    })
}

/// Whether some field of `fs` refers to the enum named `n`.
pub fn is_enum_used(fs: &Vec<FieldSet>, n: &String) -> (r: bool)
    ensures
        r == enum_used(fs@, n@),
{
    let mut s: usize = 0;
    while s < fs.len()
        invariant
            s <= fs@.len(),
            forall|t: int, f: int| 0 <= t < s ==> !#[trigger] field_refers(fs@, t, f, n@),
        decreases fs@.len() - s,
    {
        let mut f: usize = 0;
        while f < fs[s].fields.len()
            invariant
                s < fs@.len(),
                f <= fs@[s as int].fields@.len(),
                forall|t: int, g: int| 0 <= t < s ==> !#[trigger] field_refers(fs@, t, g, n@),
                forall|g: int| 0 <= g < f ==> !#[trigger] field_refers(fs@, s as int, g, n@),
            decreases fs@[s as int].fields@.len() - f,
        {
            let hit = match &fs[s].fields[f].enumm {
                Some(m) => *m == *n,
                None => false,
            };
            if hit {
                assert(field_refers(fs@, s as int, f as int, n@));
                return true;
            }
            f = f + 1;
        }
        s = s + 1;
    }
    false
}

/// Whether some block item of `bs` is a register laid out by the field set named `n`.
pub fn is_fieldset_used(bs: &Vec<Block>, n: &String) -> (r: bool)
    ensures
        r == fieldset_used(bs@, n@),
{
    let mut b: usize = 0;
    while b < bs.len()
        invariant
            b <= bs@.len(),
            forall|t: int, k: int| 0 <= t < b ==> !#[trigger] item_refers(bs@, t, k, n@),
        decreases bs@.len() - b,
    {
        let mut k: usize = 0;
        while k < bs[b].items.len()
            invariant
                b < bs@.len(),
                k <= bs@[b as int].items@.len(),
                forall|t: int, g: int| 0 <= t < b ==> !#[trigger] item_refers(bs@, t, g, n@),
                forall|g: int| 0 <= g < k ==> !#[trigger] item_refers(bs@, b as int, g, n@),
            decreases bs@[b as int].items@.len() - k,
        {
            let hit = match &bs[b].items[k].target {
                ItemTarget::Register(Some(m)) => *m == *n,
                _ => false,
            };
            if hit {
                assert(item_refers(bs@, b as int, k as int, n@));
                return true;
            }
            k = k + 1;
        }
        b = b + 1;
    }
    false
}

fn item_ranges_of(x: &Block) -> (r: Vec<(u64, u64)>)
    ensures
        r@ == item_ranges(*x),
{
    let mut r: Vec<(u64, u64)> = Vec::new();
    let mut k: usize = 0;
    while k < x.items.len()
        invariant
            k <= x.items@.len(),
            r@ == item_ranges(*x).take(k as int),
        decreases x.items@.len() - k,
    {
        let it = &x.items[k];
        r.push((it.byte_offset, it.byte_size));
        assert(item_ranges(*x).take(k + 1) =~= item_ranges(*x).take(k as int).push(item_ranges(*x)[k as int]));
        k = k + 1;
    }
    assert(item_ranges(*x).take(k as int) =~= item_ranges(*x));
    r
}

fn field_ranges_of(x: &FieldSet) -> (r: Vec<(u64, u64)>)
    ensures
        r@ == field_ranges(*x),
{
    let mut r: Vec<(u64, u64)> = Vec::new();
    let mut k: usize = 0;
    while k < x.fields.len()
        invariant
            k <= x.fields@.len(),
            r@ == field_ranges(*x).take(k as int),
        decreases x.fields@.len() - k,
    {
        let f = &x.fields[k];
        r.push((f.bit_offset, f.bit_size));
        assert(field_ranges(*x).take(k + 1) =~= field_ranges(*x).take(k as int).push(field_ranges(*x)[k as int]));
        k = k + 1;
    }
    assert(field_ranges(*x).take(k as int) =~= field_ranges(*x));
    r
}

fn variant_values_of(x: &Enum) -> (r: Vec<u64>)
    ensures
        r@ == variant_values(*x),
{
    let mut r: Vec<u64> = Vec::new();
    let mut k: usize = 0;
    while k < x.variants.len()
        invariant
            k <= x.variants@.len(),
            r@ == variant_values(*x).take(k as int),
        decreases x.variants@.len() - k,
    {
        let v = &x.variants[k];
        r.push(v.value);
        assert(variant_values(*x).take(k + 1) =~= variant_values(*x).take(k as int).push(variant_values(*x)[k as int]));
        k = k + 1;
    }
    assert(variant_values(*x).take(k as int) =~= variant_values(*x));
    r
}

/// Appends every pair of overlapping items, block by block.
pub fn check_item_overlaps(ir: &IR, out: &mut Vec<Violation>)
    ensures
        final(out)@ == old(out)@ + item_report(ir.blocks@, ir.blocks@.len() as int),
{
    let mut i: usize = 0;
    while i < ir.blocks.len()
        invariant
            i <= ir.blocks@.len(),
            out@ == old(out)@ + item_report(ir.blocks@, i as int),
        decreases ir.blocks@.len() - i,
    {
        let r = item_ranges_of(&ir.blocks[i]);
        let pairs = find_overlaps(&r);
        push_pairs(out, &pairs, PairKind::Items, i);
        i = i + 1;
    }
}

/// Appends every pair of overlapping fields, field set by field set.
pub fn check_field_overlaps(ir: &IR, out: &mut Vec<Violation>)
    ensures
        final(out)@ == old(out)@ + field_report(ir.fieldsets@, ir.fieldsets@.len() as int),
{
    let mut i: usize = 0;
    while i < ir.fieldsets.len()
        invariant
            i <= ir.fieldsets@.len(),
            out@ == old(out)@ + field_report(ir.fieldsets@, i as int),
        decreases ir.fieldsets@.len() - i,
    {
        let r = field_ranges_of(&ir.fieldsets[i]);
        let pairs = find_overlaps(&r);
        push_pairs(out, &pairs, PairKind::Fields, i);
        i = i + 1;
    }
}

/// Appends every pair of variants with equal values, enum by enum.
pub fn check_duplicate_values(ir: &IR, out: &mut Vec<Violation>)
    ensures
        final(out)@ == old(out)@ + value_report(ir.enums@, ir.enums@.len() as int),
{
    let mut i: usize = 0;
    while i < ir.enums.len()
        invariant
            i <= ir.enums@.len(),
            out@ == old(out)@ + value_report(ir.enums@, i as int),
        decreases ir.enums@.len() - i,
    {
        let r = variant_values_of(&ir.enums[i]);
        let pairs = find_duplicates(&r);
        push_pairs(out, &pairs, PairKind::Values, i);
        i = i + 1;
    }
}

/// Appends every enum that no field refers to.
pub fn check_unused_enums(ir: &IR, out: &mut Vec<Violation>)
    ensures
        final(out)@ == old(out)@ + unused_enum_report(*ir, ir.enums@.len() as int),
{
    let mut i: usize = 0;
    while i < ir.enums.len()
        invariant
            i <= ir.enums@.len(),
            out@ == old(out)@ + unused_enum_report(*ir, i as int),
        decreases ir.enums@.len() - i,
    {
        if !is_enum_used(&ir.fieldsets, &ir.enums[i].name) {
            out.push(Violation::UnusedEnum { enumm: i });
        }
        assert(out@ =~= old(out)@ + unused_enum_report(*ir, i + 1));
        i = i + 1;
    }
}

/// Appends every field set that no block item refers to.
pub fn check_unused_fieldsets(ir: &IR, out: &mut Vec<Violation>)
    ensures
        final(out)@ == old(out)@ + unused_fieldset_report(*ir, ir.fieldsets@.len() as int),
{
    let mut i: usize = 0;
    while i < ir.fieldsets.len()
        invariant
            i <= ir.fieldsets@.len(),
            out@ == old(out)@ + unused_fieldset_report(*ir, i as int),
        decreases ir.fieldsets@.len() - i,
    {
        if !is_fieldset_used(&ir.blocks, &ir.fieldsets[i].name) {
            out.push(Violation::UnusedFieldSet { fieldset: i });
        }
        assert(out@ =~= old(out)@ + unused_fieldset_report(*ir, i + 1));
        i = i + 1;
    }
}

/// Lists every defect of `ir` that `o` does not allow. The IR is not changed.
pub fn validate(ir: &IR, o: Options) -> (r: Vec<Violation>)
    ensures
        r@ == report(*ir, o),
{
    let mut r: Vec<Violation> = Vec::new();
    if !o.allow_register_overlap {
        check_item_overlaps(ir, &mut r);
    }
    if !o.allow_field_overlap {
        check_field_overlaps(ir, &mut r);
    }
    if !o.allow_enum_dup_value {
        check_duplicate_values(ir, &mut r);
    }
    if !o.allow_unused_enums {
        check_unused_enums(ir, &mut r);
    }
    if !o.allow_unused_fieldsets {
        check_unused_fieldsets(ir, &mut r);
    }
    assert(r@ =~= report(*ir, o));
    r
}

proof fn lemma_concat_contains(a: Seq<Violation>, b: Seq<Violation>, x: Violation)
    ensures
        (a + b).contains(x) <==> a.contains(x) || b.contains(x),
{
    if (a + b).contains(x) {
        let i = choose|i: int| 0 <= i < (a + b).len() && (a + b)[i] == x;
        if i >= a.len() {
            assert(b[i - a.len()] == x);
        }
    }
    if a.contains(x) {
        let i = choose|i: int| 0 <= i < a.len() && a[i] == x;
        assert((a + b)[i] == x);
    }
    if b.contains(x) {
        let i = choose|i: int| 0 <= i < b.len() && b[i] == x;
        assert((a + b)[a.len() + i] == x);
    }
}

proof fn lemma_tagged_no_unused(kind: PairKind, idx: int, ps: Seq<(int, int)>, e: usize)
    ensures
        !tagged(kind, idx, ps).contains(Violation::UnusedEnum { enumm: e }),
{
    if tagged(kind, idx, ps).contains(Violation::UnusedEnum { enumm: e }) {
        let i = choose|i: int|
            0 <= i < tagged(kind, idx, ps).len() && tagged(kind, idx, ps)[i] == Violation::UnusedEnum {
                enumm: e,
            };
        assert(tagged(kind, idx, ps)[i] == pair_violation(kind, idx, ps[i]));
    }
}

proof fn lemma_pair_reports_no_unused(ir: IR, k: int, e: usize)
    ensures
        !item_report(ir.blocks@, k).contains(Violation::UnusedEnum { enumm: e }),
        !field_report(ir.fieldsets@, k).contains(Violation::UnusedEnum { enumm: e }),
        !value_report(ir.enums@, k).contains(Violation::UnusedEnum { enumm: e }),
        !unused_fieldset_report(ir, k).contains(Violation::UnusedEnum { enumm: e }),
    decreases k,
{
    let x = Violation::UnusedEnum { enumm: e };
    if k > 0 {
        lemma_pair_reports_no_unused(ir, k - 1, e);
        lemma_tagged_no_unused(PairKind::Items, k - 1, overlapping_pairs(item_ranges(ir.blocks@[k - 1])), e);
        lemma_tagged_no_unused(PairKind::Fields, k - 1, overlapping_pairs(field_ranges(ir.fieldsets@[k - 1])), e);
        lemma_tagged_no_unused(PairKind::Values, k - 1, equal_pairs(variant_values(ir.enums@[k - 1])), e);
        lemma_concat_contains(item_report(ir.blocks@, k - 1), tagged(PairKind::Items, k - 1, overlapping_pairs(item_ranges(ir.blocks@[k - 1]))), x);
        lemma_concat_contains(field_report(ir.fieldsets@, k - 1), tagged(PairKind::Fields, k - 1, overlapping_pairs(field_ranges(ir.fieldsets@[k - 1]))), x);
        lemma_concat_contains(value_report(ir.enums@, k - 1), tagged(PairKind::Values, k - 1, equal_pairs(variant_values(ir.enums@[k - 1]))), x);
        let tail = if fieldset_used(ir.blocks@, ir.fieldsets@[k - 1].name@) {
            Seq::empty()
        } else {
            seq![Violation::UnusedFieldSet { fieldset: (k - 1) as usize }]
        };
        lemma_concat_contains(unused_fieldset_report(ir, k - 1), tail, x);
        if tail.contains(x) {
            assert(tail[0] == x);
        }
    }
}

proof fn lemma_unused_enum_report(ir: IR, k: int, e: int)
    requires
        0 <= e < k <= ir.enums@.len(),
    ensures
        unused_enum_report(ir, k).contains(Violation::UnusedEnum { enumm: e as usize }) <==> !enum_used(
            ir.fieldsets@,
            ir.enums@[e].name@,
        ),
    decreases k,
{
    assert(ir.enums@.len() <= usize::MAX) by {
        assert(ir.enums@.len() == ir.enums.len());
    }
    let x = Violation::UnusedEnum { enumm: e as usize };
    let tail = if enum_used(ir.fieldsets@, ir.enums@[k - 1].name@) {
        Seq::empty()
    } else {
        seq![Violation::UnusedEnum { enumm: (k - 1) as usize }]
    };
    lemma_concat_contains(unused_enum_report(ir, k - 1), tail, x);
    if e < k - 1 {
        lemma_unused_enum_report(ir, k - 1, e);
        if tail.contains(x) {
            assert(tail[0] == x);
        }
    } else {
        lemma_unused_report_small(ir, k - 1);
        let p = unused_enum_report(ir, k - 1);
        if p.contains(x) {
            let i = choose|i: int| 0 <= i < p.len() && p[i] == x;
            assert(p[i] matches Violation::UnusedEnum { enumm } && enumm < k - 1);
        }
        if !enum_used(ir.fieldsets@, ir.enums@[e].name@) {
            assert(tail[0] == x);
        } else {
            if tail.contains(x) {
                assert(tail.len() == 0);
            }
        }
    }
}

proof fn lemma_unused_report_small(ir: IR, k: int)
    requires
        0 <= k <= ir.enums@.len(),
    ensures
        unused_enum_report(ir, k).len() <= k,
        forall|i: int|
            0 <= i < unused_enum_report(ir, k).len() ==> (#[trigger] unused_enum_report(ir, k)[i]
                matches Violation::UnusedEnum { enumm } && enumm < k),
    decreases k,
{
    if k > 0 {
        lemma_unused_report_small(ir, k - 1);
    }
}

/// An enum that no field refers to is reported exactly when unused enums are not allowed.
pub proof fn unused_enum_reported_unless_allowed(ir: IR, o: Options, e: int)
    requires
        0 <= e < ir.enums@.len(),
        !enum_used(ir.fieldsets@, ir.enums@[e].name@),
    ensures
        report(ir, o).contains(Violation::UnusedEnum { enumm: e as usize }) <==> !o.allow_unused_enums,
{
    let x = Violation::UnusedEnum { enumm: e as usize };
    let n = ir.enums@.len() as int;
    lemma_pair_reports_no_unused(ir, ir.blocks@.len() as int, e as usize);
    lemma_pair_reports_no_unused(ir, ir.fieldsets@.len() as int, e as usize);
    lemma_pair_reports_no_unused(ir, n, e as usize);
    lemma_unused_enum_report(ir, n, e);
    let a = if o.allow_register_overlap {
        Seq::empty()
    } else {
        item_report(ir.blocks@, ir.blocks@.len() as int)
    };
    let b = if o.allow_field_overlap {
        Seq::empty()
    } else {
        field_report(ir.fieldsets@, ir.fieldsets@.len() as int)
    };
    let c = if o.allow_enum_dup_value {
        Seq::empty()
    } else {
        value_report(ir.enums@, n)
    };
    let d = if o.allow_unused_enums {
        Seq::empty()
    } else {
        unused_enum_report(ir, n)
    };
    let f = if o.allow_unused_fieldsets {
        Seq::empty()
    } else {
        unused_fieldset_report(ir, ir.fieldsets@.len() as int)
    };
    lemma_concat_contains(a, b, x);
    lemma_concat_contains(a + b, c, x);
    lemma_concat_contains(a + b + c, d, x);
    lemma_concat_contains(a + b + c + d, f, x);
    assert(report(ir, o) == a + b + c + d + f);
}

/// The enums of `s` that some field of `fs` refers to, in their order.
pub open spec fn used_only(s: Seq<Enum>, fs: Seq<FieldSet>) -> Seq<Enum>
    decreases s.len(),
{
    if s.len() == 0 {
        s
    } else {
        let p = used_only(s.drop_last(), fs);
        if enum_used(fs, s.last().name@) {
            p.push(s.last())
        } else {
            p
        }
    }
}

/// Removes every enum that no field refers to, and keeps the order of the others.
pub fn remove_unused_enums(ir: &mut IR)
    ensures
        final(ir).enums@ == used_only(old(ir).enums@, old(ir).fieldsets@),
        final(ir).blocks == old(ir).blocks,
        final(ir).fieldsets == old(ir).fieldsets,
{
    let ghost before = ir.enums@;
    let ghost mut k: int = 0;
    let mut i: usize = 0;
    assert(before.take(0) =~= Seq::<Enum>::empty());
    assert(before.skip(0) =~= before);
    while i < ir.enums.len()
        invariant
            0 <= k <= before.len(),
            before == old(ir).enums@,
            ir.enums@ == used_only(before.take(k), ir.fieldsets@) + before.skip(k),
            i == used_only(before.take(k), ir.fieldsets@).len(),
            ir.blocks == old(ir).blocks,
            ir.fieldsets == old(ir).fieldsets,
        decreases before.len() - k,
    {
        assert(before.take(k + 1).drop_last() =~= before.take(k));
        assert(ir.enums@[i as int] == before[k]);
        if is_enum_used(&ir.fieldsets, &ir.enums[i].name) {
            assert(used_only(before.take(k + 1), ir.fieldsets@) =~= used_only(before.take(k), ir.fieldsets@).push(before[k]));
            assert(ir.enums@ =~= used_only(before.take(k + 1), ir.fieldsets@) + before.skip(k + 1));
            i = i + 1;
        } else {
            ir.enums.remove(i);
            assert(ir.enums@ =~= used_only(before.take(k + 1), ir.fieldsets@) + before.skip(k + 1));
        }
        proof {
            k = k + 1;
        }
    }
    assert(before.take(k) =~= before);
    assert(ir.enums@ =~= used_only(before, ir.fieldsets@));
}

} // verus!
