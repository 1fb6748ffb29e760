use vstd::prelude::*;

use crate::ir::{enum_names_unique, Enum, Field, FieldSet, IR};
use crate::merge::TransformError;
use crate::pattern::{anchored, pattern_compiles, pattern_matches, pattern_rewrite, Pattern};

verus! {

/// The new name of `n`: the template, expanded, where the pattern matches all of `n`;
/// `n` itself elsewhere.
pub open spec fn renamed(src: Seq<char>, template: Seq<char>, n: Seq<char>) -> Seq<char> {
    if pattern_matches(src, n) {
        pattern_rewrite(src, n, template)
    } else {
        n
    }
}

/// The enums of `s` renamed, nothing else changed.
pub open spec fn enums_renamed(s: Seq<Enum>, t: Seq<Enum>, src: Seq<char>, template: Seq<char>) -> bool {
    &&& t.len() == s.len()
    &&& forall|i: int|
        #![trigger t[i]]
        0 <= i < s.len() ==> {
            &&& t[i].name@ == renamed(src, template, s[i].name@)
            &&& t[i].bit_size == s[i].bit_size
            &&& t[i].variants == s[i].variants
            &&& t[i].description == s[i].description
        }
}

/// Field `b` is field `a` with its enum reference renamed.
pub open spec fn field_renamed(a: Field, b: Field, src: Seq<char>, template: Seq<char>) -> bool {
    &&& b.name == a.name
    &&& b.bit_offset == a.bit_offset
    &&& b.bit_size == a.bit_size
    &&& b.description == a.description
    &&& match a.enumm {
        Some(n) => b.enumm matches Some(m) && m@ == renamed(src, template, n@),
        None => b.enumm is None,
    }
}

/// The field sets `t` are `s` with every enum reference renamed.
pub open spec fn references_renamed(
    s: Seq<FieldSet>,
    t: Seq<FieldSet>,
    src: Seq<char>,
    template: Seq<char>,
) -> bool {
    &&& t.len() == s.len()
    &&& forall|k: int|
        #![trigger t[k]]
        0 <= k < s.len() ==> {
            &&& t[k].name == s[k].name
            &&& t[k].bit_size == s[k].bit_size
            &&& t[k].description == s[k].description
            &&& t[k].fields@.len() == s[k].fields@.len()
            &&& forall|f: int|
                0 <= f < s[k].fields@.len() ==> field_renamed(
                    s[k].fields@[f],
                    #[trigger] t[k].fields@[f],
                    src,
                    template,
                )
        }
}

/// The names that the enums of `s` get.
pub open spec fn new_names(s: Seq<Enum>, src: Seq<char>, template: Seq<char>) -> Seq<Seq<char>> {
    s.map_values(|e: Enum| renamed(src, template, e.name@))
}

pub open spec fn all_distinct(s: Seq<Seq<char>>) -> bool {
    forall|i: int, j: int| 0 <= i < j < s.len() ==> s[i] != s[j]
}

fn rename_one(p: &Pattern, n: &String, template: &String) -> (r: String)
    ensures
        r@ == renamed(p.source(), template@, n@),
{
    match p.destination(n, template) {
        Some(d) => d,
        None => n.clone(),
    }
}

fn distinct(v: &Vec<String>) -> (r: bool)
    ensures
        r == all_distinct(v@.map_values(|x: String| x@)),
{
    let ghost s = v@.map_values(|x: String| x@);
    let mut i: usize = 0;
    while i < v.len()
        invariant
            i <= v@.len(),
            s == v@.map_values(|x: String| x@),
            forall|a: int, b: int| 0 <= a < b < v@.len() && a < i ==> s[a] != s[b],
        decreases v@.len() - i,
    {
        let mut j: usize = i + 1;
        while j < v.len()
            invariant
                i < j <= v@.len(),
                s == v@.map_values(|x: String| x@),
                forall|a: int, b: int| 0 <= a < b < v@.len() && a < i ==> s[a] != s[b],
                forall|b: int| i < b < j ==> s[i as int] != s[b],
            decreases v@.len() - j,
        {
            if v[i] == v[j] {
                assert(s[i as int] == s[j as int]);
                return false;
            }
            j = j + 1;
        }
        i = i + 1;
    }
    true
}

/// Renames every enum whose whole name `from` matches to `to`, expanded with the groups that
/// it captured, and points every field at the new names. Fails, and changes nothing, where the
/// pattern is invalid or two enums would end up with one name.
pub fn rename_enums(ir: &mut IR, from: &String, to: &String) -> (r: Result<(), TransformError>)
    ensures
        !pattern_compiles(anchored(from@)) ==> r == Err::<(), TransformError>(
            TransformError::BadPattern { pattern: *from },
        ),
        pattern_compiles(anchored(from@)) ==> (r is Ok <==> all_distinct(
            new_names(old(ir).enums@, anchored(from@), to@),
        )),
        r is Err ==> *final(ir) == *old(ir),
        r is Ok ==> {
            &&& enums_renamed(old(ir).enums@, final(ir).enums@, anchored(from@), to@)
            &&& references_renamed(old(ir).fieldsets@, final(ir).fieldsets@, anchored(from@), to@)
            &&& final(ir).blocks == old(ir).blocks
            &&& enum_names_unique(final(ir).enums@)
        },
{
    let p = match Pattern::whole_name(from) {
        Some(p) => p,
        None => {
            return Err(TransformError::BadPattern { pattern: from.clone() });
        },
    };
    let ghost src = p.source();
    let mut names: Vec<String> = Vec::new();
    let mut i: usize = 0;
    while i < ir.enums.len()
        invariant
            i <= ir.enums@.len(),
            src == p.source(),
            names@.len() == i,
            forall|k: int| 0 <= k < i ==> #[trigger] names@[k]@ == renamed(src, to@, ir.enums@[k].name@),
        decreases ir.enums@.len() - i,
    {
        names.push(rename_one(&p, &ir.enums[i].name, to));
        i = i + 1;
    }
    assert(names@.map_values(|x: String| x@) =~= new_names(ir.enums@, src, to@));
    if !distinct(&names) {
        return Err(TransformError::DuplicateName);
    }
    let mut i: usize = 0;
    while i < ir.enums.len()
        invariant
            i <= ir.enums@.len(),
            names@.len() == ir.enums@.len(),
            ir.enums@.len() == old(ir).enums@.len(),
            ir.blocks == old(ir).blocks,
            ir.fieldsets == old(ir).fieldsets,
            forall|k: int| 0 <= k < names@.len() ==> #[trigger] names@[k]@ == renamed(src, to@, old(ir).enums@[k].name@),
            forall|k: int|
                #![trigger ir.enums@[k]]
                0 <= k < i ==> {
                    &&& ir.enums@[k].name@ == renamed(src, to@, old(ir).enums@[k].name@)
                    &&& ir.enums@[k].bit_size == old(ir).enums@[k].bit_size
                    &&& ir.enums@[k].variants == old(ir).enums@[k].variants
                    &&& ir.enums@[k].description == old(ir).enums@[k].description
                },
            forall|k: int| i <= k < ir.enums@.len() ==> #[trigger] ir.enums@[k] == old(ir).enums@[k],
        decreases ir.enums@.len() - i,
    {
        ir.enums[i].name = names[i].clone();
        i = i + 1;
    }
    assert(enum_names_unique(ir.enums@)) by {
        assert forall|a: int, b: int| 0 <= a < b < ir.enums@.len() implies ir.enums@[a].name@
            != ir.enums@[b].name@ by {
            assert(new_names(old(ir).enums@, src, to@)[a] == ir.enums@[a].name@);
            assert(new_names(old(ir).enums@, src, to@)[b] == ir.enums@[b].name@);
        }
    }
    let ghost renamed_enums = ir.enums;
    let mut s: usize = 0;
    while s < ir.fieldsets.len()
        invariant
            s <= ir.fieldsets@.len(),
            src == p.source(),
            ir.blocks == old(ir).blocks,
            ir.enums == renamed_enums,
            ir.fieldsets@.len() == old(ir).fieldsets@.len(),
            forall|t: int| s <= t < ir.fieldsets@.len() ==> #[trigger] ir.fieldsets@[t] == old(ir).fieldsets@[t],
            references_renamed(old(ir).fieldsets@.take(s as int), ir.fieldsets@.take(s as int), src, to@),
        decreases old(ir).fieldsets@.len() - s,
    {
        let mut f: usize = 0;
        while f < ir.fieldsets[s].fields.len()
            invariant
                s < ir.fieldsets@.len(),
                src == p.source(),
                f <= ir.fieldsets@[s as int].fields@.len(),
                ir.blocks == old(ir).blocks,
                ir.enums == renamed_enums,
                ir.fieldsets@.len() == old(ir).fieldsets@.len(),
                forall|t: int| s < t < ir.fieldsets@.len() ==> #[trigger] ir.fieldsets@[t] == old(ir).fieldsets@[t],
                references_renamed(old(ir).fieldsets@.take(s as int), ir.fieldsets@.take(s as int), src, to@),
                ir.fieldsets@[s as int].name == old(ir).fieldsets@[s as int].name,
                ir.fieldsets@[s as int].bit_size == old(ir).fieldsets@[s as int].bit_size,
                ir.fieldsets@[s as int].description == old(ir).fieldsets@[s as int].description,
                ir.fieldsets@[s as int].fields@.len() == old(ir).fieldsets@[s as int].fields@.len(),
                forall|g: int|
                    f <= g < ir.fieldsets@[s as int].fields@.len() ==> #[trigger] ir.fieldsets@[s as int].fields@[g]
                        == old(ir).fieldsets@[s as int].fields@[g],
                forall|g: int|
                    0 <= g < f ==> field_renamed(
                        old(ir).fieldsets@[s as int].fields@[g],
                        #[trigger] ir.fieldsets@[s as int].fields@[g],
                        src,
                        to@,
                    ),
            decreases old(ir).fieldsets@[s as int].fields@.len() - f,
        {
            let ghost done = ir.fieldsets@.take(s as int);
            let n = match &ir.fieldsets[s].fields[f].enumm {
                Some(n) => Some(rename_one(&p, n, to)),
                None => None,
            };
            ir.fieldsets[s].fields[f].enumm = n;
            assert(ir.fieldsets@.take(s as int) =~= done);
            f = f + 1;
        }
        proof {
            let o = old(ir).fieldsets@.take(s as int + 1);
            let n = ir.fieldsets@.take(s as int + 1);
            assert forall|t: int| #![trigger n[t]] 0 <= t < o.len() implies n[t].name == o[t].name by {
                if t < s {
                    assert(n[t] == ir.fieldsets@.take(s as int)[t]);
                    assert(o[t] == old(ir).fieldsets@.take(s as int)[t]);
                }
            }
            assert(references_renamed(o, n, src, to@));
        }
        s = s + 1;
    }
    assert(ir.fieldsets@.take(s as int) =~= ir.fieldsets@);
    assert(old(ir).fieldsets@.take(s as int) =~= old(ir).fieldsets@);
    Ok(())
}

} // verus!
