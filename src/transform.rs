use vstd::prelude::*;

use crate::canon::{canonical, canonicalize, entries_kept, in_order};
use crate::ir::IR;
use crate::describe::{descriptions_mapped, map_descriptions};
use crate::merge::{enum_names, merge_chain, merge_groups, MergeEnums, TransformError};
use crate::pattern::{anchored, pattern_compiles, Pattern};
use crate::ir::enum_names_unique;
use crate::rename::{all_distinct, enums_renamed, new_names, references_renamed, rename_enums};

verus! {

/// One step of a transform pipeline.
#[derive(Clone, Debug, PartialEq, Eq)]
pub enum Transform {
    /// Merge groups of enums chosen by a name pattern.
    MergeEnums(MergeEnums),
    /// Rename the enums whose whole names `from` matches.
    RenameEnums { from: String, to: String },
    /// Replace, in every description, each match of `from` by `to`.
    MapDescriptions { from: String, to: String },
    /// Put every list in canonical order.
    Sort,
}

/// The failure of a pipeline: the position of the step that failed, and why.
#[derive(Clone, Debug, PartialEq, Eq)]
pub struct PipelineError {
    pub step: usize,
    pub error: TransformError,
}

/// What applying the step `t` to `a` does: it gives `b`, with outcome `r`.
pub open spec fn step_spec(t: Transform, a: IR, b: IR, r: Result<(), TransformError>) -> bool {
    match t {
        Transform::MergeEnums(m) => if !a.wf() {
            r == Err::<(), TransformError>(TransformError::DuplicateName) && b == a
        } else {
            &&& b.wf()
            &&& b.blocks == a.blocks
            &&& !pattern_compiles(anchored(m.from@)) ==> r == Err::<(), TransformError>(
                TransformError::BadPattern { pattern: m.from },
            ) && b == a
            &&& pattern_compiles(anchored(m.from@)) ==> exists|ns: Seq<String>, states: Seq<IR>|
                #[trigger] merge_chain(m, merge_groups(ns, anchored(m.from@), m.to@), states, r)
                    && in_order(ns) && ns.to_multiset() == enum_names(a.enums@).to_multiset()
                    && states[0] == a && states.last() == b
        },
        Transform::RenameEnums { from, to } => {
            &&& !pattern_compiles(anchored(from@)) ==> r == Err::<(), TransformError>(
                TransformError::BadPattern { pattern: from },
            )
            &&& pattern_compiles(anchored(from@)) ==> (r is Ok <==> all_distinct(
                new_names(a.enums@, anchored(from@), to@),
            ))
            &&& r is Err ==> b == a
            &&& r is Ok ==> {
                &&& enums_renamed(a.enums@, b.enums@, anchored(from@), to@)
                &&& references_renamed(a.fieldsets@, b.fieldsets@, anchored(from@), to@)
                &&& b.blocks == a.blocks
                &&& enum_names_unique(b.enums@)
            }
        },
        Transform::MapDescriptions { from, to } => if pattern_compiles(from@) {
            r is Ok && descriptions_mapped(a, b, from@, to@)
        } else {
            r == Err::<(), TransformError>(TransformError::BadPattern { pattern: from }) && b == a
        },
        Transform::Sort => r is Ok && canonical(b) && (canonical(a) ==> b == a) && entries_kept(a, b),
    }
}

/// `states` are the IRs before and after each step of `ts` that ran: all of them when `r` is
/// `Ok`; up to and including the failing one, whose error `r` carries, otherwise.
pub open spec fn pipeline_chain(ts: Seq<Transform>, states: Seq<IR>, r: Result<(), PipelineError>) -> bool {
    match r {
        Ok(()) => states.len() == ts.len() + 1 && forall|i: int|
            #![trigger states[i + 1]]
            0 <= i < ts.len() ==> step_spec(ts[i], states[i], states[i + 1], Ok(())),
        Err(e) => {
            &&& e.step < ts.len()
            &&& states.len() == e.step + 2
            &&& forall|i: int|
                #![trigger states[i + 1]]
                0 <= i < e.step ==> step_spec(ts[i], states[i], states[i + 1], Ok(()))
            &&& step_spec(ts[e.step as int], states[e.step as int], states[e.step + 1], Err(e.error))
        },
    }
}

impl Transform {
    /// Applies this step to `ir`. A merge needs unique names, and fails on an IR without them.
    pub fn run(&self, ir: &mut IR) -> (r: Result<(), TransformError>)
        ensures
            step_spec(*self, *old(ir), *final(ir), r),
    {
        match self {
            Transform::MergeEnums(m) => {
                if !ir.is_wf() {
                    return Err(TransformError::DuplicateName);
                }
                m.run(ir)
            },
            Transform::RenameEnums { from, to } => rename_enums(ir, from, to),
            Transform::MapDescriptions { from, to } => match Pattern::new(from) {
                Some(p) => {
                    map_descriptions(ir, &p, to);
                    Ok(())
                },
                None => Err(TransformError::BadPattern { pattern: from.clone() }),
            },
            Transform::Sort => {
                canonicalize(ir);
                Ok(())
            },
        }
    }
}

/// Applies the steps of `ts` in order, and stops at the first that fails; what the steps before
/// it did stays done.
pub fn run_all(ir: &mut IR, ts: &Vec<Transform>) -> (r: Result<(), PipelineError>)
    ensures
        exists|states: Seq<IR>|
            #[trigger] pipeline_chain(ts@, states, r) && states[0] == *old(ir) && states.last()
                == *final(ir),
{
    let ghost mut states: Seq<IR> = seq![*ir];
    let mut i: usize = 0;
    while i < ts.len()
        invariant
            i <= ts@.len(),
            states.len() == i + 1,
            states[0] == *old(ir),
            states.last() == *ir,
            forall|k: int|
                #![trigger states[k + 1]]
                0 <= k < i ==> step_spec(ts@[k], states[k], states[k + 1], Ok(())),
        decreases ts@.len() - i,
    {
        let ghost before = *ir;
        let res = ts[i].run(ir);
        proof {
            assert(states.last() == before);
            states = states.push(*ir);
            assert forall|k: int|
                #![trigger states[k + 1]]
                0 <= k < i implies step_spec(ts@[k], states[k], states[k + 1], Ok(())) by {
                assert(states[k] == states.drop_last()[k]);
                assert(states[k + 1] == states.drop_last()[k + 1]);
            }
            assert(states[i as int] == before);
        }
        match res {
            Ok(u) => {
                assert(u == ());
                assert(res == Ok::<(), TransformError>(()));
                assert(step_spec(ts@[i as int], before, *ir, res));
                assert(states[i + 1] == *ir);
                assert(step_spec(ts@[i as int], states[i as int], states[i + 1], Ok(())));
            },
            Err(error) => {
                let r = Err(PipelineError { step: i, error });
                assert(pipeline_chain(ts@, states, r));
                return r;
            },
        }
        i = i + 1;
    }
    assert(pipeline_chain(ts@, states, Ok(())));
    Ok(())
}

/// `t` replaces each match of `from` by `to` in every description.
pub open spec fn rewrites(t: Transform, from: &str, to: &str) -> bool {
    t matches Transform::MapDescriptions { from: f, to: g } && f@ == from@ && g@ == to@
}

fn rule(from: &str, to: &str) -> (r: Transform)
    ensures
        rewrites(r, from, to),
{
    Transform::MapDescriptions { from: from.to_owned(), to: to.to_owned() }
}

/// The rewrites that tidy descriptions taken from vendor files: runs of spaces, line breaks,
/// tabs and carriage returns become one space, a double space ends a sentence, and every
/// description ends with one period.
pub fn description_cleanups() -> (r: Vec<Transform>)
    ensures
        r@.len() == 5,
        rewrites(r@[0], "[ \n]+", " "),
        rewrites(r@[1], "[\r\t]+", " "),
        rewrites(r@[2], r"(?<first_sentence>.*?)[\s]{2}(?<next_sentence>.*)", "$first_sentence. $next_sentence"),
        rewrites(r@[3], r"(?<full_description>.*)(?<last_character>[\s'[^\.\s']])$", "$full_description$last_character."),
        rewrites(r@[4], r"(?<full_description>.*)\s\.$", "$full_description."),
{
    let mut r: Vec<Transform> = Vec::new();
    r.push(rule("[ \n]+", " "));
    r.push(rule("[\r\t]+", " "));
    r.push(rule(r"(?<first_sentence>.*?)[\s]{2}(?<next_sentence>.*)", "$first_sentence. $next_sentence"));
    r.push(rule(r"(?<full_description>.*)(?<last_character>[\s'[^\.\s']])$", "$full_description$last_character."));
    r.push(rule(r"(?<full_description>.*)\s\.$", "$full_description."));
    r
}

/// The rewrite that trims white space from both ends of every description.
pub fn description_trim() -> (r: Transform)
    ensures
        rewrites(r, r"^\s+|\s+$", ""),
{
    rule(r"^\s+|\s+$", "")
}

} // verus!
