use vstd::prelude::*;
use vstd::string::StringExecFns;

verus! {

#[verifier::external_type_specification]
#[verifier::external_body]
pub struct ExRegex(regex::Regex);

/// Whether `pattern` is a valid regular expression.
pub uninterp spec fn pattern_compiles(pattern: Seq<char>) -> bool;

/// Whether the regular expression `pattern` matches somewhere in `text`.
pub uninterp spec fn pattern_matches(pattern: Seq<char>, text: Seq<char>) -> bool;

/// `text` with the leftmost match of `pattern` replaced by `template`, whose `$name` and `$1`
/// refer to the groups that the match captured.
pub uninterp spec fn pattern_rewrite(pattern: Seq<char>, text: Seq<char>, template: Seq<char>) -> Seq<char>;

/// `text` with every match of `pattern` replaced by `template`, expanded as for `pattern_rewrite`.
pub uninterp spec fn pattern_replace_all(pattern: Seq<char>, text: Seq<char>, template: Seq<char>) -> Seq<
    char,
>;

/// `pattern` anchored at both ends, so that it must match a whole name.
pub open spec fn anchored(pattern: Seq<char>) -> Seq<char> {
    seq!['^'] + pattern + seq!['$']
}

/// A compiled regular expression, with the text it was compiled from.
pub struct Pattern {
    re: regex::Regex,
    source: String,
}

impl Pattern {
    /// The expression as it was compiled.
    pub closed spec fn source(&self) -> Seq<char> {
        self.source@
    }
}

/// Relies on regex::Regex::new, which accepts exactly the valid expressions.
#[verifier::external_body]
fn compile(pattern: &String) -> (r: Option<Pattern>)
    ensures
        r is Some <==> pattern_compiles(pattern@),
        r matches Some(p) ==> p.source() == pattern@,
{
    match regex::Regex::new(pattern) {
        Ok(re) => Some(Pattern { re, source: pattern.clone() }),
        Err(_) => None,
    }
}

/// Relies on regex::Regex::is_match.
#[verifier::external_body]
fn is_match(p: &Pattern, text: &String) -> (r: bool)
    ensures
        r == pattern_matches(p.source(), text@),
{
    p.re.is_match(text)
}

/// Relies on regex::Regex::replace, which expands the template with the captured groups.
#[verifier::external_body]
fn replace_first(p: &Pattern, text: &String, template: &String) -> (r: String)
    ensures
        r@ == pattern_rewrite(p.source(), text@, template@),
{
    p.re.replace(text, template.as_str()).into_owned()
}

/// Relies on regex::Regex::replace_all, which expands the template with the captured groups.
#[verifier::external_body]
fn replace_every(p: &Pattern, text: &String, template: &String) -> (r: String)
    ensures
        r@ == pattern_replace_all(p.source(), text@, template@),
{
    p.re.replace_all(text, template.as_str()).into_owned()
}

/// Relies on String::push, which appends one character.
#[verifier::external_body]
pub(crate) fn push_char(s: &mut String, c: char)
    ensures
        final(s)@ == old(s)@.push(c),
{
    s.push(c)
}

/// Appends `t` to `s`.
pub(crate) fn push_text(s: &mut String, t: &String)
    ensures
        final(s)@ == old(s)@ + t@,
{
    s.append(t.as_str());
}

impl Pattern {
    /// The expression `pattern`, or `None` where it is not a valid regular expression.
    pub fn new(pattern: &String) -> (r: Option<Pattern>)
        ensures
            r is Some <==> pattern_compiles(pattern@),
            r matches Some(p) ==> p.source() == pattern@,
    {
        compile(pattern)
    }

    /// The expression `^pattern$`, which must match a whole name, or `None` where that is not
    /// a valid regular expression.
    pub fn whole_name(pattern: &String) -> (r: Option<Pattern>)
        ensures
            r is Some <==> pattern_compiles(anchored(pattern@)),
            r matches Some(p) ==> p.source() == anchored(pattern@),
    {
        let mut a = String::new();
        push_char(&mut a, '^');
        push_text(&mut a, pattern);
        push_char(&mut a, '$');
        assert(a@ =~= anchored(pattern@));
        compile(&a)
    }

    /// Where `name` is sent: `template` with the groups that the pattern captured in it, or
    /// `None` where the pattern does not match `name`.
    pub fn destination(&self, name: &String, template: &String) -> (r: Option<String>)
        ensures
            pattern_matches(self.source(), name@) ==> (r matches Some(d) && d@ == pattern_rewrite(
                self.source(),
                name@,
                template@,
            )),
            !pattern_matches(self.source(), name@) ==> r is None,
    {
        if is_match(self, name) {
            Some(replace_first(self, name, template))
        } else {
            None
        }
    }

    /// `text` with every match replaced by `template`.
    pub fn replace_all(&self, text: &String, template: &String) -> (r: String)
        ensures
            r@ == pattern_replace_all(self.source(), text@, template@),
    {
        replace_every(self, text, template)
    }
}

/// A set of names that go to one destination, in the order in which they were given.
#[derive(Clone, Debug, PartialEq, Eq)]
pub struct MergeGroup {
    pub dest: String,
    pub members: Vec<String>,
}

pub open spec fn group_view(g: MergeGroup) -> (Seq<char>, Seq<Seq<char>>) {
    (g.dest@, g.members@.map_values(|s: String| s@))
}

pub open spec fn groups_view(gs: Seq<MergeGroup>) -> Seq<(Seq<char>, Seq<Seq<char>>)> {
    gs.map_values(|g: MergeGroup| group_view(g))
}

/// The first group of `gs` whose destination is `d`, or -1.
pub open spec fn find_dest(gs: Seq<(Seq<char>, Seq<Seq<char>>)>, d: Seq<char>) -> int
    decreases gs.len(),
{
    if gs.len() == 0 {
        -1
    } else {
        let k = find_dest(gs.drop_last(), d);
        if k >= 0 {
            k
        } else if gs.last().0 == d {
            gs.len() - 1
        } else {
            -1
        }
    }
}

/// `gs` with `n` added to the group of `d`, which is opened at the end if there is none.
pub open spec fn add_member(gs: Seq<(Seq<char>, Seq<Seq<char>>)>, d: Seq<char>, n: Seq<char>) -> Seq<
    (Seq<char>, Seq<Seq<char>>),
> {
    let k = find_dest(gs, d);
    if k >= 0 {
        gs.update(k, (d, gs[k].1.push(n)))
    } else {
        gs.push((d, seq![n]))
    }
}

/// The names grouped by destination: groups in the order of their first member, members in
/// the order of `names`; a name without a destination is in no group.
pub open spec fn grouping(names: Seq<Seq<char>>, dests: Seq<Option<Seq<char>>>) -> Seq<
    (Seq<char>, Seq<Seq<char>>),
>
    decreases names.len(),
{
    if names.len() == 0 || dests.len() != names.len() {
        Seq::empty()
    } else {
        let p = grouping(names.drop_last(), dests.drop_last());
        match dests.last() {
            Some(d) => add_member(p, d, names.last()),
            None => p,
        }
    }
}

proof fn lemma_find_dest(gs: Seq<(Seq<char>, Seq<Seq<char>>)>, d: Seq<char>)
    ensures
        -1 <= find_dest(gs, d) < gs.len(),
        find_dest(gs, d) == -1 <==> forall|i: int| 0 <= i < gs.len() ==> gs[i].0 != d,
        find_dest(gs, d) >= 0 ==> gs[find_dest(gs, d)].0 == d && forall|i: int|
            0 <= i < find_dest(gs, d) ==> gs[i].0 != d,
    decreases gs.len(),
{
    if gs.len() > 0 {
        lemma_find_dest(gs.drop_last(), d);
        assert forall|i: int| 0 <= i < gs.len() - 1 implies gs[i] == gs.drop_last()[i] by {}
    }
}

pub open spec fn names_view(s: Seq<String>) -> Seq<Seq<char>> {
    s.map_values(|x: String| x@)
}

pub open spec fn dests_view(s: Seq<Option<String>>) -> Seq<Option<Seq<char>>> {
    s.map_values(
        |x: Option<String>|
            match x {
                Some(d) => Some(d@),
                None => None,
            },
    )
}

/// Groups `names` by their destinations `dests`, given position by position.
pub fn group_by_destination(names: &Vec<String>, dests: &Vec<Option<String>>) -> (r: Vec<MergeGroup>)
    requires
        names@.len() == dests@.len(),
    ensures
        groups_view(r@) == grouping(names_view(names@), dests_view(dests@)),
{
    let mut out: Vec<MergeGroup> = Vec::new();
    let mut i: usize = 0;
    while i < names.len()
        invariant
            names@.len() == dests@.len(),
            i <= names@.len(),
            groups_view(out@) == grouping(
                names_view(names@.take(i as int)),
                dests_view(dests@.take(i as int)),
            ),
        decreases names@.len() - i,
    {
        let ghost before = groups_view(out@);
        assert(names_view(names@.take(i + 1)).drop_last() =~= names_view(names@.take(i as int)));
        assert(dests_view(dests@.take(i + 1)).drop_last() =~= dests_view(dests@.take(i as int)));
        assert(names_view(names@.take(i + 1)).last() == names@[i as int]@);
        match &dests[i] {
            Some(d) => {
                assert(dests_view(dests@.take(i + 1)).last() == Some(d@));
                proof {
                    lemma_find_dest(before, d@);
                }
                let mut k: usize = 0;
                while k < out.len() && out[k].dest != *d
                    invariant
                        k <= out@.len(),
                        before == groups_view(out@),
                        forall|j: int| 0 <= j < k ==> out@[j].dest@ != d@,
                    decreases out@.len() - k,
                {
                    k = k + 1;
                }
                if k < out.len() {
                    assert(find_dest(before, d@) == k) by {
                        assert(before[k as int].0 == d@);
                        if find_dest(before, d@) < k {
                            assert(before[find_dest(before, d@)].0 == out@[find_dest(before, d@)].dest@);
                        }
                    }
                    out[k].members.push(names[i].clone());
                    assert(groups_view(out@) =~= add_member(before, d@, names@[i as int]@)) by {
                        assert(group_view(out@[k as int]) == (d@, before[k as int].1.push(names@[i as int]@))) by {
                            assert(out@[k as int].members@.map_values(|s: String| s@) =~= before[k as int].1.push(names@[i as int]@));
                        }
                    }
                } else {
                    assert(find_dest(before, d@) == -1) by {
                        assert forall|j: int| 0 <= j < before.len() implies before[j].0 != d@ by {
                            assert(before[j].0 == out@[j].dest@);
                        }
                    }
                    let mut m: Vec<String> = Vec::new();
                    m.push(names[i].clone());
                    out.push(MergeGroup { dest: d.clone(), members: m });
                    assert(groups_view(out@) =~= add_member(before, d@, names@[i as int]@)) by {
                        assert(m@.map_values(|s: String| s@) =~= seq![names@[i as int]@]);
                    }
                }
            },
            None => {
                assert(dests_view(dests@.take(i + 1)).last() == None::<Seq<char>>);
            },
        }
        i = i + 1;
    }
    assert(names@.take(i as int) =~= names@);
    assert(dests@.take(i as int) =~= dests@);
    out
}

} // verus!
