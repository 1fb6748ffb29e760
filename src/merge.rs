use vstd::prelude::*;

use crate::ir::{enum_names_unique, field_refers, Enum, EnumVariant, Field, FieldSet, IR};
use crate::canon::{in_order, sort_stable};
use crate::pattern::{
    anchored, group_by_destination, group_view, grouping, groups_view, names_view, pattern_compiles,
    pattern_matches, pattern_rewrite, push_char, push_text, Pattern,
};

verus! {

/// How much two enums must agree to be merged into one.
#[derive(Clone, Copy, Debug, PartialEq, Eq, Structural)]
pub enum CheckLevel {
    /// Any two enums may be merged.
    NoCheck,
    /// Width, variant names and variant values must agree, in order.
    Relaxed,
    /// As `Relaxed`, and the variant descriptions must agree too.
    Strict,
}

/// The first attribute in which two enums differ.
#[derive(Clone, Copy, Debug, PartialEq, Eq, Structural)]
pub enum Mismatch {
    BitSize,
    VariantCount,
    /// The variant at this position differs.
    Variant(usize),
}

/// Why a transform step failed.
#[derive(Clone, Debug, PartialEq, Eq)]
pub enum TransformError {
    /// The enum `second` cannot be merged into `first`.
    Incompatible { first: String, second: String, cause: Mismatch },
    /// The destination name belongs to an enum outside the group.
    DestinationTaken { name: String },
    /// A group member is not an enum of the IR.
    UnknownEnum { name: String },
    /// The pattern is not a valid regular expression.
    BadPattern { pattern: String },
    /// Two blocks, two field sets or two enums of the IR have the same name.
    DuplicateName,
}

pub open spec fn same_text(a: Option<String>, b: Option<String>) -> bool {
    match (a, b) {
        (Some(x), Some(y)) => x@ == y@,
        (None, None) => true,
        _ => false,
    }
}

/// Variant `i` of `a` differs from variant `i` of `b` at level `l`.
pub open spec fn variant_differs(a: Enum, b: Enum, i: int, l: CheckLevel) -> bool {
    let x = a.variants@[i];
    let y = b.variants@[i];
    x.name@ != y.name@ || x.value != y.value || (l == CheckLevel::Strict && !same_text(
        x.description,
        y.description,
    ))
}

/// Whether `b` may be merged into `a` at level `l`.
pub open spec fn mergeable(a: Enum, b: Enum, l: CheckLevel) -> bool {
    l == CheckLevel::NoCheck || (a.bit_size == b.bit_size && a.variants@.len() == b.variants@.len()
        && forall|i: int| 0 <= i < a.variants@.len() ==> !variant_differs(a, b, i, l))
}

fn same_description(a: &Option<String>, b: &Option<String>) -> (r: bool)
    ensures
        r == same_text(*a, *b),
{
    match (a, b) {
        (Some(x), Some(y)) => *x == *y,
        (None, None) => true,
        _ => false,
    }
}

/// The first attribute in which `b` differs from `a` at a level that checks anything.
pub open spec fn first_difference(a: Enum, b: Enum, l: CheckLevel) -> Mismatch {
    if a.bit_size != b.bit_size {
        Mismatch::BitSize
    } else if a.variants@.len() != b.variants@.len() {
        Mismatch::VariantCount
    } else {
        Mismatch::Variant(
            choose|i: usize|
                i < a.variants@.len() && variant_differs(a, b, i as int, l) && forall|k: int|
                    0 <= k < i ==> !variant_differs(a, b, k, l),
        )
    }
}

/// Compares `b` with `a` at level `l`, and names the first attribute in which they differ.
pub fn check_mergeable_enums(a: &Enum, b: &Enum, l: CheckLevel) -> (r: Result<(), Mismatch>)
    ensures
        r is Ok <==> mergeable(*a, *b, l),
        r matches Err(m) ==> m == first_difference(*a, *b, l),
        r == Err::<(), Mismatch>(Mismatch::BitSize) <==> (l != CheckLevel::NoCheck && a.bit_size
            != b.bit_size),
        r == Err::<(), Mismatch>(Mismatch::VariantCount) <==> (l != CheckLevel::NoCheck
            && a.bit_size == b.bit_size && a.variants@.len() != b.variants@.len()),
        forall|i: usize|
            r == Err::<(), Mismatch>(Mismatch::Variant(i)) ==> {
                &&& a.bit_size == b.bit_size
                &&& a.variants@.len() == b.variants@.len()
                &&& i < a.variants@.len()
                &&& variant_differs(*a, *b, i as int, l)
                &&& forall|k: int| 0 <= k < i ==> !variant_differs(*a, *b, k, l)
            },
{
    if l == CheckLevel::NoCheck {
        return Ok(());
    }
    if a.bit_size != b.bit_size {
        return Err(Mismatch::BitSize);
    }
    if a.variants.len() != b.variants.len() {
        return Err(Mismatch::VariantCount);
    }
    let mut i: usize = 0;
    while i < a.variants.len()
        invariant
            l != CheckLevel::NoCheck,
            a.bit_size == b.bit_size,
            a.variants@.len() == b.variants@.len(),
            i <= a.variants@.len(),
            forall|k: int| 0 <= k < i ==> !variant_differs(*a, *b, k, l),
        decreases a.variants@.len() - i,
    {
        let x = &a.variants[i];
        let y = &b.variants[i];
        if x.name != y.name || x.value != y.value || (l == CheckLevel::Strict
            && !same_description(&x.description, &y.description)) {
            assert(variant_differs(*a, *b, i as int, l));
            proof {
                let c = choose|c: usize|
                    c < a.variants@.len() && variant_differs(*a, *b, c as int, l) && forall|k: int|
                        0 <= k < c ==> !variant_differs(*a, *b, k, l);
                assert(i < a.variants@.len() && variant_differs(*a, *b, i as int, l) && forall|k: int|
                    0 <= k < i ==> !variant_differs(*a, *b, k, l));
                if c < i {
                    assert(!variant_differs(*a, *b, c as int, l));
                }
                if c > i {
                    assert(!variant_differs(*a, *b, i as int, l));
                }
            }
            return Err(Mismatch::Variant(i));
        }
        i = i + 1;
    }
    Ok(())
}

/// Whether `n` is one of the names in `ids`.
pub open spec fn listed(ids: Seq<String>, n: Seq<char>) -> bool {
    exists|k: int| 0 <= k < ids.len() && #[trigger] ids[k]@ == n
}

fn is_listed(ids: &Vec<String>, n: &String) -> (r: bool)
    ensures
        r == listed(ids@, n@),
{
    let mut k: usize = 0;
    while k < ids.len()
        invariant
            k <= ids@.len(),
            forall|j: int| 0 <= j < k ==> ids@[j]@ != n@,
        decreases ids@.len() - k,
    {
        if ids[k] == *n {
            return true;
        }
        k = k + 1;
    }
    false
}

/// The enums of `s` whose names are not in `ids`, in their order.
pub open spec fn without(s: Seq<Enum>, ids: Seq<String>) -> Seq<Enum>
    decreases s.len(),
{
    if s.len() == 0 {
        s
    } else {
        let p = without(s.drop_last(), ids);
        if listed(ids, s.last().name@) {
            p
        } else {
            p.push(s.last())
        }
    }
}

/// What an enum reference becomes when the enums in `ids` are merged into `to`.
pub open spec fn redirect(r: Option<String>, ids: Seq<String>, to: String) -> Option<String> {
    match r {
        Some(n) => if listed(ids, n@) {
            Some(to)
        } else {
            r
        },
        None => r,
    }
}

/// The text of an optional description; none reads as empty.
pub open spec fn text_of(d: Option<String>) -> Seq<char> {
    match d {
        Some(x) => x@,
        None => Seq::empty(),
    }
}

/// One line per variant: a line break, the name, a colon and a space, the description.
pub open spec fn variant_notes(vs: Seq<EnumVariant>) -> Seq<char>
    decreases vs.len(),
{
    if vs.len() == 0 {
        Seq::empty()
    } else {
        variant_notes(vs.drop_last()) + seq!['\n'] + vs.last().name@ + seq![':', ' '] + text_of(
            vs.last().description,
        )
    }
}

/// The variant notes of the enum of `s` named `n`.
pub open spec fn member_note(s: Seq<Enum>, n: Seq<char>) -> Seq<char> {
    variant_notes(s[choose|i: int| 0 <= i < s.len() && s[i].name@ == n].variants@)
}

/// Whether a field that refers to `r` gets the notes of that enum: when descriptions are kept,
/// for each member of the group but the first.
pub open spec fn noted(r: Option<String>, ids: Seq<String>, keep: bool) -> bool {
    keep && match r {
        Some(n) => listed(ids, n@) && n@ != ids[0]@,
        None => false,
    }
}

/// Field `b` is field `a` after the group `ids` of the enums `es` was merged into `to`.
pub open spec fn field_redirected(
    a: Field,
    b: Field,
    ids: Seq<String>,
    to: String,
    es: Seq<Enum>,
    keep: bool,
) -> bool {
    &&& b.name == a.name
    &&& b.bit_offset == a.bit_offset
    &&& b.bit_size == a.bit_size
    &&& b.enumm == redirect(a.enumm, ids, to)
    &&& if noted(a.enumm, ids, keep) {
        b.description matches Some(d) && d@ == text_of(a.description) + member_note(
            es,
            a.enumm->Some_0@,
        )
    } else {
        b.description == a.description
    }
}

/// `new` is `old` with every enum reference in `ids` pointed at `to`, and, where `keep` holds,
/// the notes of each member but the first appended to the fields that referred to it.
pub open spec fn redirected(
    old: Seq<FieldSet>,
    new: Seq<FieldSet>,
    ids: Seq<String>,
    to: String,
    es: Seq<Enum>,
    keep: bool,
) -> bool {
    &&& new.len() == old.len()
    &&& forall|s: int|
        #![trigger new[s]]
        0 <= s < old.len() ==> {
            &&& new[s].name == old[s].name
            &&& new[s].bit_size == old[s].bit_size
            &&& new[s].description == old[s].description
            &&& new[s].fields@.len() == old[s].fields@.len()
            &&& forall|f: int|
                #![trigger new[s].fields@[f]]
                0 <= f < old[s].fields@.len() ==> field_redirected(
                    old[s].fields@[f],
                    new[s].fields@[f],
                    ids,
                    to,
                    es,
                    keep,
                )
        }
}

fn push_description(s: &mut String, d: &Option<String>)
    ensures
        final(s)@ == old(s)@ + text_of(*d),
{
    match d {
        Some(t) => push_text(s, t),
        None => {
            assert(old(s)@ + Seq::<char>::empty() =~= old(s)@);
        },
    }
}

/// The notes that keep the variant descriptions of `e` once it has been merged away.
pub fn notes_of(e: &Enum) -> (r: String)
    ensures
        r@ == variant_notes(e.variants@),
{
    let mut r = String::new();
    let mut i: usize = 0;
    while i < e.variants.len()
        invariant
            i <= e.variants@.len(),
            r@ == variant_notes(e.variants@.take(i as int)),
        decreases e.variants@.len() - i,
    {
        let v = &e.variants[i];
        push_char(&mut r, '\n');
        push_text(&mut r, &v.name);
        push_char(&mut r, ':');
        push_char(&mut r, ' ');
        push_description(&mut r, &v.description);
        assert(e.variants@.take(i + 1).drop_last() =~= e.variants@.take(i as int));
        assert(r@ =~= variant_notes(e.variants@.take(i + 1)));
        i = i + 1;
    }
    assert(e.variants@.take(i as int) =~= e.variants@);
    r
}

fn with_note(d: &Option<String>, note: &String) -> (r: Option<String>)
    ensures
        r matches Some(x) && x@ == text_of(*d) + note@,
{
    let mut x = String::new();
    push_description(&mut x, d);
    push_text(&mut x, note);
    Some(x)
}

/// Points every field that refers to an enum in `ids` at `to` instead; where `keep` holds, first
/// appends to it the notes of that enum, unless that enum is the first of the group.
pub fn replace_enum_ids(ir: &mut IR, ids: &Vec<String>, to: &String, keep: bool)
    requires
        old(ir).wf(),
        ids@.len() > 0,
        forall|k: int| 0 <= k < ids@.len() ==> has_enum(old(ir).enums@, #[trigger] ids@[k]@),
    ensures
        redirected(old(ir).fieldsets@, final(ir).fieldsets@, ids@, *to, old(ir).enums@, keep),
        final(ir).blocks == old(ir).blocks,
        final(ir).enums == old(ir).enums,
{
    let ghost es = old(ir).enums@;
    let mut s: usize = 0;
    while s < ir.fieldsets.len()
        invariant
            ir.wf(),
            ids@.len() > 0,
            forall|k: int| 0 <= k < ids@.len() ==> has_enum(ir.enums@, #[trigger] ids@[k]@),
            s <= ir.fieldsets@.len(),
            ir.blocks == old(ir).blocks,
            ir.enums == old(ir).enums,
            es == ir.enums@,
            ir.fieldsets@.len() == old(ir).fieldsets@.len(),
            forall|t: int|
                s <= t < ir.fieldsets@.len() ==> #[trigger] ir.fieldsets@[t] == old(
                    ir,
                ).fieldsets@[t],
            redirected(old(ir).fieldsets@.take(s as int), ir.fieldsets@.take(s as int), ids@, *to, es, keep),
        decreases old(ir).fieldsets@.len() - s,
    {
        let mut f: usize = 0;
        while f < ir.fieldsets[s].fields.len()
            invariant
                ir.wf(),
                ids@.len() > 0,
                forall|k: int| 0 <= k < ids@.len() ==> has_enum(ir.enums@, #[trigger] ids@[k]@),
                s < ir.fieldsets@.len(),
                f <= ir.fieldsets@[s as int].fields@.len(),
                ir.blocks == old(ir).blocks,
                ir.enums == old(ir).enums,
                es == ir.enums@,
                ir.fieldsets@.len() == old(ir).fieldsets@.len(),
                forall|t: int|
                    s < t < ir.fieldsets@.len() ==> #[trigger] ir.fieldsets@[t] == old(
                        ir,
                    ).fieldsets@[t],
                redirected(
                    old(ir).fieldsets@.take(s as int),
                    ir.fieldsets@.take(s as int),
                    ids@,
                    *to,
                    es,
                    keep,
                ),
                ir.fieldsets@[s as int].name == old(ir).fieldsets@[s as int].name,
                ir.fieldsets@[s as int].bit_size == old(ir).fieldsets@[s as int].bit_size,
                ir.fieldsets@[s as int].description == old(ir).fieldsets@[s as int].description,
                ir.fieldsets@[s as int].fields@.len() == old(ir).fieldsets@[s as int].fields@.len(),
                forall|g: int|
                    f <= g < ir.fieldsets@[s as int].fields@.len() ==> #[trigger] ir.fieldsets@[s as int].fields@[g]
                        == old(ir).fieldsets@[s as int].fields@[g],
                forall|g: int|
                    0 <= g < f ==> field_redirected(
                        old(ir).fieldsets@[s as int].fields@[g],
                        #[trigger] ir.fieldsets@[s as int].fields@[g],
                        ids@,
                        *to,
                        es,
                        keep,
                    ),
            decreases old(ir).fieldsets@[s as int].fields@.len() - f,
        {
            let ghost done = ir.fieldsets@.take(s as int);
            let ghost a = ir.fieldsets@[s as int].fields@[f as int];
            let (hit, note) = match &ir.fieldsets[s].fields[f].enumm {
                Some(n) => {
                    if is_listed(ids, n) {
                        if keep && *n != ids[0] {
                            match ir.enum_index(n) {
                                Some(j) => {
                                    proof {
                                        let c = choose|i: int| 0 <= i < es.len() && es[i].name@ == n@;
                                        assert(c == j);
                                    }
                                    (true, Some(notes_of(&ir.enums[j])))
                                },
                                None => {
                                    proof {
                                        let k = choose|k: int| 0 <= k < ids@.len() && #[trigger] ids@[k]@ == n@;
                                        assert(has_enum(ir.enums@, ids@[k]@));
                                    }
                                    (true, None)
                                },
                            }
                        } else {
                            (true, None)
                        }
                    } else {
                        (false, None)
                    }
                },
                None => (false, None),
            };
            match note {
                Some(t) => {
                    let d = with_note(&ir.fieldsets[s].fields[f].description, &t);
                    ir.fieldsets[s].fields[f].description = d;
                },
                None => {},
            }
            if hit {
                ir.fieldsets[s].fields[f].enumm = Some(to.clone());
            }
            assert(ir.fieldsets@.take(s as int) =~= done);
            assert(field_redirected(a, ir.fieldsets@[s as int].fields@[f as int], ids@, *to, es, keep));
            f = f + 1;
        }
        proof {
            assert(redirected(
                old(ir).fieldsets@.take(s as int + 1),
                ir.fieldsets@.take(s as int + 1),
                ids@,
                *to,
                es,
                keep,
            )) by {
                let o = old(ir).fieldsets@.take(s as int + 1);
                let n = ir.fieldsets@.take(s as int + 1);
                assert forall|t: int| 0 <= t < o.len() implies n[t].name == o[t].name by {
                    if t < s {
                        assert(n[t] == ir.fieldsets@.take(s as int)[t]);
                        assert(o[t] == old(ir).fieldsets@.take(s as int)[t]);
                    }
                }
            }
        }
        s = s + 1;
    }
    assert(ir.fieldsets@.take(s as int) =~= ir.fieldsets@);
    assert(old(ir).fieldsets@.take(s as int) =~= old(ir).fieldsets@);
}

/// Some enum of `s` is named `n`.
pub open spec fn has_enum(s: Seq<Enum>, n: Seq<char>) -> bool {
    exists|i: int| 0 <= i < s.len() && #[trigger] s[i].name@ == n
}

/// Every member of the group `ids` may be merged into its first member, at level `l`.
pub open spec fn group_mergeable(s: Seq<Enum>, ids: Seq<String>, l: CheckLevel) -> bool {
    forall|i: int, j: int|
        0 <= i < s.len() && 0 <= j < s.len() && s[i].name@ == ids[0]@ && #[trigger] listed(
            ids,
            s[j].name@,
        ) ==> mergeable(#[trigger] s[i], s[j], l)
}

/// The enum of `s` named `n`.
pub open spec fn enum_named(s: Seq<Enum>, n: Seq<char>) -> Enum {
    s[choose|i: int| 0 <= i < s.len() && s[i].name@ == n]
}

/// Member `k` of `ids` is the first that cannot be merged into the first member.
pub open spec fn first_incompatible(s: Seq<Enum>, ids: Seq<String>, l: CheckLevel, k: int) -> bool {
    &&& 0 <= k < ids.len()
    &&& !mergeable(enum_named(s, ids[0]@), enum_named(s, ids[k]@), l)
    &&& forall|q: int| 0 <= q < k ==> mergeable(enum_named(s, ids[0]@), enum_named(s, #[trigger] ids[q]@), l)
}

/// An enum outside the group `ids` is already named `to`.
pub open spec fn taken(s: Seq<Enum>, ids: Seq<String>, to: Seq<char>) -> bool {
    exists|i: int| 0 <= i < s.len() && #[trigger] s[i].name@ == to && !listed(ids, s[i].name@)
}

/// `new` is `old` after the enums in `ids` were merged into one enum named `to`, which has the
/// content of the first member, and every reference to a member was pointed at it.
pub open spec fn merged(old: IR, new: IR, ids: Seq<String>, to: String, keep: bool) -> bool {
    &&& forall|i: int|
        0 <= i < old.enums@.len() && #[trigger] old.enums@[i].name@ == ids[0]@ ==> new.enums@
            == without(old.enums@, ids).push(
            Enum {
                name: to,
                bit_size: old.enums@[i].bit_size,
                variants: old.enums@[i].variants,
                description: old.enums@[i].description,
            },
        )
    &&& new.blocks == old.blocks
    &&& redirected(old.fieldsets@, new.fieldsets@, ids, to, old.enums@, keep)
}

proof fn lemma_without(s: Seq<Enum>, ids: Seq<String>)
    ensures
        forall|j: int|
            #![trigger without(s, ids)[j]]
            0 <= j < without(s, ids).len() ==> !listed(ids, without(s, ids)[j].name@)
                && s.contains(without(s, ids)[j]),
        enum_names_unique(s) ==> enum_names_unique(without(s, ids)),
    decreases s.len(),
{
    if s.len() > 0 {
        let d = s.drop_last();
        lemma_without(d, ids);
        let p = without(d, ids);
        assert forall|j: int| 0 <= j < p.len() implies s.contains(#[trigger] p[j]) by {
            assert(d.contains(p[j]));
            let i = choose|i: int| 0 <= i < d.len() && d[i] == p[j];
            assert(d[i] == s[i]);
        }
        if !listed(ids, s.last().name@) {
            assert(s[s.len() - 1] == s.last());
        }
        if enum_names_unique(s) {
            assert(enum_names_unique(d));
            if !listed(ids, s.last().name@) {
                assert forall|j: int| 0 <= j < p.len() implies #[trigger] p[j].name@ != s.last().name@ by {
                    assert(d.contains(p[j]));
                    let i = choose|i: int| 0 <= i < d.len() && d[i] == p[j];
                    assert(d[i] == s[i]);
                }
            }
        }
    }
}

fn destination_taken(ir: &IR, ids: &Vec<String>, to: &String) -> (r: bool)
    ensures
        r == taken(ir.enums@, ids@, to@),
{
    let mut i: usize = 0;
    while i < ir.enums.len()
        invariant
            i <= ir.enums@.len(),
            forall|k: int| 0 <= k < i ==> !(#[trigger] ir.enums@[k].name@ == to@ && !listed(ids@, ir.enums@[k].name@)),
        decreases ir.enums@.len() - i,
    {
        if ir.enums[i].name == *to && !is_listed(ids, &ir.enums[i].name) {
            return true;
        }
        i = i + 1;
    }
    false
}

/// The outcome of merging the group `ids` of `a` into `to`, which gives `b` and `r`: a group
/// with a missing member fails, an incompatible group is skipped or fails, a destination that
/// names an enum outside the group fails, and any other group is merged. Failing changes nothing.
pub open spec fn step_ok(
    m: MergeEnums,
    a: IR,
    b: IR,
    ids: Seq<String>,
    to: String,
    r: Result<(), TransformError>,
) -> bool {
    if ids.len() == 0 {
        r is Ok && b == a
    } else if exists|k: int| 0 <= k < ids.len() && !has_enum(a.enums@, #[trigger] ids[k]@) {
        (r matches Err(TransformError::UnknownEnum { .. })) && b == a
    } else if !group_mergeable(a.enums@, ids, m.check) {
        b == a && if m.skip_unmergeable {
            r is Ok
        } else {
            exists|k: int|
                first_incompatible(a.enums@, ids, m.check, k) && r == Err::<(), TransformError>(
                    TransformError::Incompatible {
                        first: ids[0],
                        second: ids[k],
                        cause: first_difference(
                            enum_named(a.enums@, ids[0]@),
                            enum_named(a.enums@, ids[k]@),
                            m.check,
                        ),
                    },
                )
        }
    } else if taken(a.enums@, ids, to@) {
        b == a && r == Err::<(), TransformError>(TransformError::DestinationTaken { name: to })
    } else {
        r is Ok && merged(a, b, ids, to, m.keep_desc == Some(true)) && b.wf()
    }
}

/// Where each name of `ns` goes: `to` expanded with what `src` captured, where `src` matches.
pub open spec fn dest_views(ns: Seq<String>, src: Seq<char>, to: Seq<char>) -> Seq<Option<Seq<char>>> {
    ns.map_values(
        |n: String|
            if pattern_matches(src, n@) {
                Some(pattern_rewrite(src, n@, to))
            } else {
                None
            },
    )
}

/// The merge groups of the names `ns`, in the order of `ns`.
pub open spec fn merge_groups(ns: Seq<String>, src: Seq<char>, to: Seq<char>) -> Seq<
    (Seq<char>, Seq<Seq<char>>),
> {
    grouping(names_view(ns), dest_views(ns, src, to))
}

/// Merging the group `g`, destination and members, takes `a` to `b` with outcome `r`.
pub open spec fn group_applied(
    m: MergeEnums,
    a: IR,
    b: IR,
    g: (Seq<char>, Seq<Seq<char>>),
    r: Result<(), TransformError>,
) -> bool {
    exists|ids: Seq<String>, to: String|
        #[trigger] step_ok(m, a, b, ids, to, r) && names_view(ids) == g.1 && to@ == g.0
}

/// `states` are the IRs before and after each group of `gs` was tried, in turn: every try but
/// the last succeeded; the last failed with `r` where `r` is an error, and otherwise every group
/// was tried.
pub open spec fn merge_chain(
    m: MergeEnums,
    gs: Seq<(Seq<char>, Seq<Seq<char>>)>,
    states: Seq<IR>,
    r: Result<(), TransformError>,
) -> bool {
    &&& 1 <= states.len() <= gs.len() + 1
    &&& r is Ok ==> states.len() == gs.len() + 1
    &&& r is Err ==> states.len() >= 2
    &&& forall|i: int|
        #![trigger states[i + 1]]
        0 <= i < states.len() - 1 ==> group_applied(
            m,
            states[i],
            states[i + 1],
            gs[i],
            if r is Err && i == states.len() - 2 {
                r
            } else {
                Ok(())
            },
        )
}

/// The names of the enums of `s`, in their order.
pub open spec fn enum_names(s: Seq<Enum>) -> Seq<String> {
    s.map_values(|e: Enum| e.name)
}

/// Merges enums whose names match `from` into the enum that `to` names for them.
#[derive(Clone, Debug, PartialEq, Eq)]
pub struct MergeEnums {
    pub from: String,
    pub to: String,
    pub check: CheckLevel,
    pub skip_unmergeable: bool,
    /// Whether the variant descriptions of merged enums are kept on the fields that used them.
    pub keep_desc: Option<bool>,
}

fn copy_names(v: &Vec<String>) -> (r: Vec<String>)
    ensures
        r@ == v@,
{
    let mut r: Vec<String> = Vec::new();
    let mut i: usize = 0;
    while i < v.len()
        invariant
            i <= v@.len(),
            r@ == v@.take(i as int),
        decreases v@.len() - i,
    {
        r.push(v[i].clone());
        assert(r@ =~= v@.take(i + 1));
        i = i + 1;
    }
    assert(v@.take(i as int) =~= v@);
    r
}

impl MergeEnums {
    /// Merges the group `ids` into one enum named `to`: all of it, or nothing.
    /// `step_ok` sums up the outcome.
    pub fn merge_enums(&self, ir: &mut IR, ids: Vec<String>, to: String) -> (r: Result<(), TransformError>)
        requires
            old(ir).wf(),
            ids@.len() > 0,
            forall|k: int| 0 <= k < ids@.len() ==> has_enum(old(ir).enums@, #[trigger] ids@[k]@),
        ensures
            final(ir).wf(),
            final(ir).blocks == old(ir).blocks,
            r is Err ==> *final(ir) == *old(ir),
            !group_mergeable(old(ir).enums@, ids@, self.check) ==> if self.skip_unmergeable {
                r is Ok && *final(ir) == *old(ir)
            } else {
                match r {
                    Err(TransformError::Incompatible { first, second, cause }) => first@ == ids@[0]@
                        && listed(ids@, second@),
                    _ => false,
                }
            },
            group_mergeable(old(ir).enums@, ids@, self.check) && taken(old(ir).enums@, ids@, to@)
                ==> r == Err::<(), TransformError>(TransformError::DestinationTaken { name: to }),
            group_mergeable(old(ir).enums@, ids@, self.check) && !taken(old(ir).enums@, ids@, to@)
                ==> r is Ok && merged(*old(ir), *final(ir), ids@, to, self.keep_desc == Some(true)),
            r matches Err(TransformError::Incompatible { first, second, cause }) ==> exists|k: int|
                first_incompatible(old(ir).enums@, ids@, self.check, k) && first == ids@[0]
                    && second == ids@[k] && cause == first_difference(
                    enum_named(old(ir).enums@, ids@[0]@),
                    enum_named(old(ir).enums@, ids@[k]@),
                    self.check,
                ),
            step_ok(*self, *old(ir), *final(ir), ids@, to, r),
    {
        let ri = match ir.enum_index(&ids[0]) {
            Some(i) => i,
            None => {
                assert(has_enum(ir.enums@, ids@[0]@));
                return Err(TransformError::UnknownEnum { name: ids[0].clone() });
            },
        };
        proof {
            let c = choose|c: int| 0 <= c < ir.enums@.len() && ir.enums@[c].name@ == ids@[0]@;
            assert(ir.enums@[ri as int].name@ == ids@[0]@);
            assert(c == ri);
        }
        let mut k: usize = 0;
        while k < ids.len()
            invariant
                ir.wf(),
                ids@.len() > 0,
                ri < ir.enums@.len(),
                ir.enums@[ri as int].name@ == ids@[0]@,
                k <= ids@.len(),
                forall|q: int| 0 <= q < ids@.len() ==> has_enum(ir.enums@, #[trigger] ids@[q]@),
                forall|q: int, j: int|
                    0 <= q < k && 0 <= j < ir.enums@.len() && #[trigger] ir.enums@[j].name@
                        == #[trigger] ids@[q]@ ==> mergeable(ir.enums@[ri as int], ir.enums@[j], self.check),
                enum_named(ir.enums@, ids@[0]@) == ir.enums@[ri as int],
                forall|q: int| 0 <= q < k ==> mergeable(enum_named(ir.enums@, ids@[0]@), enum_named(ir.enums@, #[trigger] ids@[q]@), self.check),
            decreases ids@.len() - k,
        {
            let j = match ir.enum_index(&ids[k]) {
                Some(j) => j,
                None => {
                    assert(has_enum(ir.enums@, ids@[k as int]@));
                    return Err(TransformError::UnknownEnum { name: ids[k].clone() });
                },
            };
            proof {
                let c = choose|c: int| 0 <= c < ir.enums@.len() && ir.enums@[c].name@ == ids@[k as int]@;
                assert(ir.enums@[j as int].name@ == ids@[k as int]@);
                assert(c == j);
                assert(enum_named(ir.enums@, ids@[k as int]@) == ir.enums@[j as int]);
            }
            match check_mergeable_enums(&ir.enums[ri], &ir.enums[j], self.check) {
                Ok(()) => {},
                Err(cause) => {
                    proof {
                        assert(listed(ids@, ir.enums@[j as int].name@));
                        assert(first_incompatible(ir.enums@, ids@, self.check, k as int));
                    }
                    if self.skip_unmergeable {
                        return Ok(());
                    } else {
                        return Err(TransformError::Incompatible {
                            first: ids[0].clone(),
                            second: ids[k].clone(),
                            cause,
                        });
                    }
                },
            }
            k = k + 1;
        }
        proof {
            assert forall|i: int, j: int|
                0 <= i < ir.enums@.len() && 0 <= j < ir.enums@.len() && ir.enums@[i].name@
                    == ids@[0]@ && #[trigger] listed(ids@, ir.enums@[j].name@) implies mergeable(
                #[trigger] ir.enums@[i],
                ir.enums@[j],
                self.check,
            ) by {
                assert(i == ri);
                let q = choose|q: int| 0 <= q < ids@.len() && #[trigger] ids@[q]@ == ir.enums@[j].name@;
                assert(ir.enums@[j].name@ == ids@[q]@);
            }
        }
        if destination_taken(ir, &ids, &to) {
            return Err(TransformError::DestinationTaken { name: to });
        }
        let keep = match self.keep_desc {
            Some(k) => k,
            None => false,
        };
        replace_enum_ids(ir, &ids, &to, keep);
        let ghost redirected_fieldsets = ir.fieldsets;
        let ghost before = ir.enums@;
        let ghost mut k: int = 0;
        let mut rep: Option<Enum> = None;
        let mut i: usize = 0;
        assert(before.take(0) =~= Seq::<Enum>::empty());
        assert(listed(ids@, before[ri as int].name@)) by {
            assert(ids@[0]@ == before[ri as int].name@);
        }
        assert(before.skip(0) =~= before);
        while i < ir.enums.len()
            invariant
                enum_names_unique(before),
                ids@.len() > 0,
                ri < before.len(),
                listed(ids@, before[ri as int].name@),
                before[ri as int].name@ == ids@[0]@,
                0 <= k <= before.len(),
                ir.enums@ == without(before.take(k), ids@) + before.skip(k),
                i == without(before.take(k), ids@).len(),
                k > ri ==> rep == Some(before[ri as int]),
                k <= ri ==> rep is None,
                ir.blocks == old(ir).blocks,
                ir.fieldsets == redirected_fieldsets,
            decreases before.len() - k,
        {
            assert(before.take(k + 1).drop_last() =~= before.take(k));
            assert(before.take(k + 1).last() == before[k]);
            assert(ir.enums@[i as int] == before[k]);
            if is_listed(&ids, &ir.enums[i].name) {
                let e = ir.enums.remove(i);
                assert(ir.enums@ =~= without(before.take(k + 1), ids@) + before.skip(k + 1));
                if e.name == ids[0] {
                    assert(k == ri);
                    rep = Some(e);
                }
            } else {
                assert(without(before.take(k + 1), ids@) =~= without(before.take(k), ids@).push(before[k]));
                assert(ir.enums@ =~= without(before.take(k + 1), ids@) + before.skip(k + 1));
                i = i + 1;
            }
            proof {
                k = k + 1;
            }
        }
        assert(before.take(k) =~= before);
        assert(ir.enums@ =~= without(before, ids@));
        let mut e = rep.unwrap();
        e.name = to.clone();
        ir.enums.push(e);
        proof {
            lemma_without(before, ids@);
            let w = without(before, ids@);
            assert forall|a: int, b: int| 0 <= a < b < ir.enums@.len() implies ir.enums@[a].name@
                != ir.enums@[b].name@ by {
                if b == w.len() {
                    assert(before.contains(w[a]));
                    let x = choose|x: int| 0 <= x < before.len() && before[x] == w[a];
                    assert(!listed(ids@, w[a].name@));
                    assert(before[x].name@ != to@);
                }
            }
        }
        Ok(())
    }

    /// Merges, group by group, the enums whose names `from` matches into the enum that `to`
    /// names for each of them, and stops at the first group that fails. Names are taken in name
    /// order, so each group's first member is its smallest name, and groups come in the order of
    /// their smallest member.
    pub fn run(&self, ir: &mut IR) -> (r: Result<(), TransformError>)
        requires
            old(ir).wf(),
        ensures
            final(ir).wf(),
            final(ir).blocks == old(ir).blocks,
            !pattern_compiles(anchored(self.from@)) ==> r == Err::<(), TransformError>(
                TransformError::BadPattern { pattern: self.from },
            ) && *final(ir) == *old(ir),
            pattern_compiles(anchored(self.from@)) ==> exists|ns: Seq<String>, states: Seq<IR>|
                #[trigger] merge_chain(
                    *self,
                    merge_groups(ns, anchored(self.from@), self.to@),
                    states,
                    r,
                ) && in_order(ns) && ns.to_multiset() == enum_names(old(ir).enums@).to_multiset()
                    && states[0] == *old(ir) && states.last() == *final(ir),
    {
        let pat = match Pattern::whole_name(&self.from) {
            Some(p) => p,
            None => {
                return Err(TransformError::BadPattern { pattern: self.from.clone() });
            },
        };
        let ghost src = anchored(self.from@);
        let mut names: Vec<String> = Vec::new();
        let mut i: usize = 0;
        while i < ir.enums.len()
            invariant
                i <= ir.enums@.len(),
                names@ == enum_names(ir.enums@).take(i as int),
            decreases ir.enums@.len() - i,
        {
            names.push(ir.enums[i].name.clone());
            assert(names@ =~= enum_names(ir.enums@).take(i + 1));
            i = i + 1;
        }
        assert(names@ =~= enum_names(ir.enums@));
        sort_stable(&mut names);
        let mut dests: Vec<Option<String>> = Vec::new();
        let mut i: usize = 0;
        while i < names.len()
            invariant
                i <= names@.len(),
                src == pat.source(),
                dests@.len() == i,
                crate::pattern::dests_view(dests@) == dest_views(names@, src, self.to@).take(i as int),
            decreases names@.len() - i,
        {
            let d = pat.destination(&names[i], &self.to);
            dests.push(d);
            assert(crate::pattern::dests_view(dests@) =~= dest_views(names@, src, self.to@).take(i + 1));
            i = i + 1;
        }
        assert(crate::pattern::dests_view(dests@) =~= dest_views(names@, src, self.to@));
        let groups = group_by_destination(&names, &dests);
        let ghost gs = merge_groups(names@, src, self.to@);
        let ghost ns = names@;
        let ghost mut states: Seq<IR> = seq![*ir];
        let mut g: usize = 0;
        while g < groups.len()
            invariant
                ir.wf(),
                ir.blocks == old(ir).blocks,
                pattern_compiles(anchored(self.from@)),
                src == anchored(self.from@),
                groups_view(groups@) == gs,
                gs == merge_groups(ns, src, self.to@),
                in_order(ns),
                ns.to_multiset() == enum_names(old(ir).enums@).to_multiset(),
                g <= groups@.len(),
                states.len() == g + 1,
                states[0] == *old(ir),
                states.last() == *ir,
                forall|i: int|
                    #![trigger states[i + 1]]
                    0 <= i < g ==> group_applied(*self, states[i], states[i + 1], gs[i], Ok(())),
            decreases groups@.len() - g,
        {
            let members = copy_names(&groups[g].members);
            let dest = groups[g].dest.clone();
            let ghost before = *ir;
            proof {
                assert(gs[g as int] == group_view(groups@[g as int]));
            }
            let mut k: usize = 0;
            let mut missing: Option<usize> = None;
            while k < members.len() && missing.is_none()
                invariant
                    ir.wf(),
                    k <= members@.len(),
                    missing matches Some(q) ==> q < members@.len() && !has_enum(ir.enums@, members@[q as int]@),
                    missing is None ==> forall|q: int| 0 <= q < k ==> has_enum(ir.enums@, #[trigger] members@[q]@),
                decreases members@.len() - k,
            {
                match ir.enum_index(&members[k]) {
                    Some(j) => {
                        assert(has_enum(ir.enums@, members@[k as int]@)) by {
                            assert(ir.enums@[j as int].name@ == members@[k as int]@);
                        }
                    },
                    None => {
                        missing = Some(k);
                    },
                }
                k = k + 1;
            }
            let res = match missing {
                Some(q) => Err(TransformError::UnknownEnum { name: members[q].clone() }),
                None => if members.len() > 0 {
                    self.merge_enums(ir, members, dest)
                } else {
                    Ok(())
                },
            };
            proof {
                if missing is None && members@.len() > 0 {
                    assert(step_ok(*self, before, *ir, members@, dest, res));
                } else {
                    assert(step_ok(*self, before, *ir, members@, dest, res));
                }
                assert(names_view(members@) == gs[g as int].1);
                assert(group_applied(*self, before, *ir, gs[g as int], res));
                assert(states.last() == before);
                states = states.push(*ir);
            }
            if res.is_err() {
                proof {
                    assert(merge_chain(*self, gs, states, res)) by {
                        assert forall|i: int|
                            #![trigger states[i + 1]]
                            0 <= i < states.len() - 1 implies group_applied(
                            *self,
                            states[i],
                            states[i + 1],
                            gs[i],
                            if res is Err && i == states.len() - 2 {
                                res
                            } else {
                                Ok(())
                            },
                        ) by {
                            if i < g {
                                assert(states[i] == states.drop_last()[i]);
                                assert(states[i + 1] == states.drop_last()[i + 1]);
                            }
                        }
                    }
                }
                return res;
            }
            proof {
                assert forall|i: int|
                    #![trigger states[i + 1]]
                    0 <= i < g + 1 implies group_applied(*self, states[i], states[i + 1], gs[i], Ok(())) by {
                    if i < g {
                        assert(states[i] == states.drop_last()[i]);
                        assert(states[i + 1] == states.drop_last()[i + 1]);
                    } else {
                        assert(states[i] == before);
                        assert(res is Ok);
                        assert(res == Ok::<(), TransformError>(())) by {
                            match res {
                                Ok(u) => {
                                    assert(u == ());
                                },
                                Err(_) => {},
                            }
                        }
                    }
                }
            }
            g = g + 1;
        }
        proof {
            assert(merge_chain(*self, gs, states, Ok(())));
        }
        Ok(())
    }
}

/// After the group `ids` is merged into `to`, a name outside the group: no field refers to a
/// member any more, and every field that referred to a member now refers to `to`.
pub proof fn merge_redirects_every_reference(
    before: IR,
    after: IR,
    ids: Seq<String>,
    to: String,
    keep: bool,
)
    requires
        merged(before, after, ids, to, keep),
        !listed(ids, to@),
    ensures
        forall|s: int, f: int, k: int|
            0 <= k < ids.len() ==> !#[trigger] field_refers(after.fieldsets@, s, f, ids[k]@),
        forall|s: int, f: int, k: int|
            0 <= k < ids.len() && #[trigger] field_refers(before.fieldsets@, s, f, ids[k]@)
                ==> field_refers(after.fieldsets@, s, f, to@),
{
    assert forall|s: int, f: int, k: int|
        0 <= k < ids.len() implies !#[trigger] field_refers(after.fieldsets@, s, f, ids[k]@) by {
        if field_refers(after.fieldsets@, s, f, ids[k]@) {
            let a = before.fieldsets@[s].fields@[f];
            let b = after.fieldsets@[s].fields@[f];
            assert(field_redirected(a, b, ids, to, before.enums@, keep));
            match a.enumm {
                Some(n) => {
                    if !listed(ids, n@) {
                        assert(listed(ids, n@));
                    }
                },
                None => {},
            }
        }
    }
    assert forall|s: int, f: int, k: int|
        0 <= k < ids.len() && #[trigger] field_refers(before.fieldsets@, s, f, ids[k]@)
            implies field_refers(after.fieldsets@, s, f, to@) by {
        let a = before.fieldsets@[s].fields@[f];
        let b = after.fieldsets@[s].fields@[f];
        assert(field_redirected(a, b, ids, to, before.enums@, keep));
        match a.enumm {
            Some(n) => {
                assert(listed(ids, n@));
            },
            None => {},
        }
    }
}

} // verus!
