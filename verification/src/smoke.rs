use vstd::prelude::*;

use crate::audit::strings_view;
use crate::text::{debug_str, debug_str_spec, push_str};

verus! {

/// Default top-K depth of a retrieval.
pub fn default_top_k() -> (k: u32)
    ensures
        k == 10,
{
    10
}

/// Default actor identity of the smoke battery.
pub fn default_actor() -> (a: String)
    ensures
        a@ == "smoke-test"@,
{
    "smoke-test".to_owned()
}

/// Per-query outcome of running the smoke battery.
#[derive(Debug, Clone)]
pub struct QueryOutcome {
    pub name: String,
    pub pass: bool,
    /// Human-readable single-line explanation rendered after PASS/FAIL.
    pub detail: String,
}

/// Aggregate result of running the full battery.
#[derive(Debug, Clone)]
pub struct SmokeReport {
    pub outcomes: Vec<QueryOutcome>,
}

/// How many outcomes passed (`want` true) or failed (`want` false).
pub open spec fn count_with(outcomes: Seq<QueryOutcome>, want: bool) -> nat
    decreases outcomes.len(),
{
    if outcomes.len() == 0 {
        0
    } else {
        count_with(outcomes.drop_last(), want) + if outcomes.last().pass == want { 1nat } else { 0nat }
    }
}

proof fn lemma_count_bound(outcomes: Seq<QueryOutcome>, want: bool)
    ensures
        count_with(outcomes, want) <= outcomes.len(),
    decreases outcomes.len(),
{
    if outcomes.len() > 0 {
        lemma_count_bound(outcomes.drop_last(), want);
    }
}

impl SmokeReport {
    fn count(&self, want: bool) -> (n: usize)
        ensures
            n == count_with(self.outcomes@, want),
    {
        let mut n: usize = 0;
        let mut i: usize = 0;
        while i < self.outcomes.len()
            invariant
                i <= self.outcomes@.len(),
                n == count_with(self.outcomes@.subrange(0, i as int), want),
            decreases self.outcomes@.len() - i,
        {
            proof {
                assert(self.outcomes@.subrange(0, i + 1).drop_last() =~= self.outcomes@.subrange(0, i as int));
                lemma_count_bound(self.outcomes@.subrange(0, i as int), want);
            }
            if self.outcomes[i].pass == want {
                n = n + 1;
            }
            i = i + 1;
        }
        assert(self.outcomes@.subrange(0, i as int) =~= self.outcomes@);
        n
    }

    pub fn pass_count(&self) -> (n: usize)
        ensures
            n == count_with(self.outcomes@, true),
    {
        self.count(true)
    }

    pub fn fail_count(&self) -> (n: usize)
        ensures
            n == count_with(self.outcomes@, false),
    {
        self.count(false)
    }

    pub fn all_passed(&self) -> (b: bool)
        ensures
            b == (count_with(self.outcomes@, false) == 0),
    {
        self.fail_count() == 0
    }
}

/// Every outcome is counted once, as a pass or as a failure; and none
/// failed exactly when every outcome passed.
pub proof fn law_counts_partition(outcomes: Seq<QueryOutcome>)
    ensures
        count_with(outcomes, true) + count_with(outcomes, false) == outcomes.len(),
        (count_with(outcomes, false) == 0) <==> (forall|i: int| 0 <= i < outcomes.len() ==> (#[trigger] outcomes[i]).pass),
    decreases outcomes.len(),
{
    if outcomes.len() > 0 {
        law_counts_partition(outcomes.drop_last());
        let d = outcomes.drop_last();
        if count_with(outcomes, false) == 0 {
            assert forall|i: int| 0 <= i < outcomes.len() implies (#[trigger] outcomes[i]).pass by {
                if i < outcomes.len() - 1 {
                    assert(d[i] == outcomes[i]);
                }
            }
        }
        if forall|i: int| 0 <= i < outcomes.len() ==> (#[trigger] outcomes[i]).pass {
            assert forall|i: int| 0 <= i < d.len() implies (#[trigger] d[i]).pass by {
                assert(d[i] == outcomes[i]);
            }
            assert(outcomes[outcomes.len() - 1].pass);
        }
    }
}

#[verifier::external_type_specification]
#[verifier::external_body]
pub struct ExGlobSetBuilder(globset::GlobSetBuilder);

#[verifier::external_type_specification]
#[verifier::external_body]
pub struct ExGlobSet(globset::GlobSet);

#[verifier::external_type_specification]
#[verifier::external_body]
pub struct ExGlobError(globset::Error);

#[verifier::external_type_specification]
#[verifier::external_body]
pub struct ExGlob(globset::Glob);

/// Whether `globset::Glob::new` accepts a pattern.
pub uninterp spec fn glob_valid(pattern: Seq<char>) -> bool;

/// Whether `GlobSetBuilder::build` succeeds on the patterns added, in order.
pub uninterp spec fn globset_builds(patterns: Seq<Seq<char>>) -> bool;

/// Whether the glob (with default options) matches a path.
pub uninterp spec fn glob_matches(pattern: Seq<char>, path: Seq<char>) -> bool;

/// The pattern a compiled glob was built from (what `Glob::glob` returns).
pub uninterp spec fn glob_pattern(g: globset::Glob) -> Seq<char>;

/// The patterns added to a builder, in order.
pub uninterp spec fn builder_patterns(b: globset::GlobSetBuilder) -> Seq<Seq<char>>;

/// The patterns a built set holds, in order.
pub uninterp spec fn set_patterns(s: globset::GlobSet) -> Seq<Seq<char>>;

/// Calls `GlobSetBuilder::new`, which starts with no patterns.
#[verifier::external_body]
fn builder_new() -> (b: globset::GlobSetBuilder)
    ensures
        builder_patterns(b) == Seq::<Seq<char>>::empty(),
{
    globset::GlobSetBuilder::new()
}

/// Calls `globset::Glob::new`, which compiles a pattern with default
/// options. The contract claims that it succeeds as `glob_valid` names it,
/// and that the glob remembers the pattern it was built from.
#[verifier::external_body]
fn glob_new(pattern: &str) -> (r: Result<globset::Glob, globset::Error>)
    ensures
        r is Ok == glob_valid(pattern@),
        r matches Ok(g) ==> glob_pattern(g) == pattern@,
{
    globset::Glob::new(pattern)
}

/// Calls `GlobSetBuilder::add`, which appends a glob to the builder's
/// patterns.
#[verifier::external_body]
fn builder_add(b: &mut globset::GlobSetBuilder, g: globset::Glob)
    ensures
        builder_patterns(*final(b)) == builder_patterns(*old(b)).push(glob_pattern(g)),
{
    b.add(g);
}

/// Calls `GlobSetBuilder::build`. The contract claims that it succeeds as
/// `globset_builds` names it for the builder's patterns, and that the set
/// holds those patterns.
#[verifier::external_body]
fn builder_build(b: &globset::GlobSetBuilder) -> (r: Result<globset::GlobSet, globset::Error>)
    ensures
        r is Ok == globset_builds(builder_patterns(*b)),
        r matches Ok(s) ==> set_patterns(s) == builder_patterns(*b),
{
    b.build()
}

/// Whether any pattern of a set matches a path.
pub open spec fn set_matches(s: globset::GlobSet, path: Seq<char>) -> bool {
    exists|i: int| 0 <= i < set_patterns(s).len() && glob_matches(#[trigger] set_patterns(s)[i], path)
}

/// Calls `GlobSet::is_match`, which its documentation describes as true
/// when any glob in the set matches the path.
#[verifier::external_body]
fn set_is_match(s: &globset::GlobSet, path: &str) -> (r: bool)
    ensures
        r == (exists|i: int|
            0 <= i < set_patterns(*s).len() && glob_matches(#[trigger] set_patterns(*s)[i], path@)),
{
    s.is_match(path)
}

/// The position of the first pattern that does not compile.
pub open spec fn first_invalid(patterns: Seq<Seq<char>>) -> int {
    choose|i: int| 0 <= i < patterns.len() && !glob_valid(patterns[i]) && forall|j: int|
        0 <= j < i ==> glob_valid(#[trigger] patterns[j])
}

/// Compile glob patterns into one set. Fails on the first pattern that does
/// not compile (naming it) or when the set cannot be built.
pub fn build_globset(patterns: &[String]) -> (r: Result<globset::GlobSet, String>)
    ensures
        match r {
            Ok(s) => {
                &&& forall|i: int| 0 <= i < patterns@.len() ==> glob_valid(#[trigger] patterns@[i]@)
                &&& globset_builds(strings_view(patterns@))
                &&& set_patterns(s) == strings_view(patterns@)
            },
            Err(m) => if forall|i: int| 0 <= i < patterns@.len() ==> glob_valid(#[trigger] patterns@[i]@) {
                !globset_builds(strings_view(patterns@)) && m@ == "building globset"@
            } else {
                m@ == "compiling glob "@ + debug_str_spec(strings_view(patterns@)[first_invalid(strings_view(patterns@))])
            },
        },
{
    let ghost ps = strings_view(patterns@);
    let mut b = builder_new();
    let mut i: usize = 0;
    while i < patterns.len()
        invariant
            ps == strings_view(patterns@),
            i <= patterns@.len(),
            builder_patterns(b) == ps.subrange(0, i as int),
            forall|j: int| 0 <= j < i ==> glob_valid(#[trigger] patterns@[j]@),
        decreases patterns@.len() - i,
    {
        let p = &patterns[i];
        match glob_new(p.as_str()) {
            Ok(g) => {
                builder_add(&mut b, g);
            },
            Err(_) => {
                proof {
                    assert(!glob_valid(ps[i as int]));
                    assert forall|j: int| 0 <= j < i implies glob_valid(#[trigger] ps[j]) by {
                        assert(ps[j] == patterns@[j]@);
                    }
                    let f = first_invalid(ps);
                    assert(0 <= f < ps.len() && !glob_valid(ps[f]) && forall|j: int| 0 <= j < f ==> glob_valid(#[trigger] ps[j]));
                    if f < i {
                        assert(glob_valid(ps[f]));
                    } else if f > i {
                        assert(glob_valid(ps[i as int]));
                    }
                }
                let mut m = "compiling glob ".to_owned();
                let d = debug_str(p.as_str());
                push_str(&mut m, d.as_str());
                return Err(m);
            },
        }
        i = i + 1;
        assert(ps.subrange(0, i as int) =~= ps.subrange(0, i - 1).push(patterns@[i - 1]@));
    }
    assert(ps.subrange(0, i as int) =~= ps);
    match builder_build(&b) {
        Ok(s) => Ok(s),
        Err(_) => Err("building globset".to_owned()),
    }
}

/// The first position below `limit` whose source id some pattern of the set
/// matches (positions without a source id never match).
pub open spec fn is_first_match(s: globset::GlobSet, sources: Seq<Option<String>>, limit: int, i: int) -> bool {
    &&& 0 <= i < limit
    &&& i < sources.len()
    &&& sources[i] matches Some(x) && set_matches(s, x@)
    &&& forall|j: int| 0 <= j < i ==> !(#[trigger] sources[j] matches Some(y) && set_matches(s, y@))
}

/// Find the first hit, among the first `limit`, whose resolved source id the
/// set matches.
pub fn first_match(s: &globset::GlobSet, sources: &[Option<String>], limit: usize) -> (r: Option<usize>)
    ensures
        match r {
            Some(i) => is_first_match(*s, sources@, limit as int, i as int),
            None => forall|j: int|
                0 <= j < sources@.len() && j < limit ==> !(#[trigger] sources@[j] matches Some(y)
                    && set_matches(*s, y@)),
        },
{
    let mut i: usize = 0;
    while i < sources.len() && i < limit
        invariant
            i <= sources@.len(),
            forall|j: int| 0 <= j < i ==> !(#[trigger] sources@[j] matches Some(y) && set_matches(*s, y@)),
        decreases sources@.len() - i,
    {
        match &sources[i] {
            Some(sid) => {
                if set_is_match(s, sid.as_str()) {
                    return Some(i);
                }
            },
            None => {},
        }
        i = i + 1;
    }
    None
}

/// How the report counts: an empty battery counts nothing, and each outcome
/// adds exactly one to the count of its own kind and nothing to the other;
/// so a count is the number of outcomes of that kind.
pub proof fn law_count_each_outcome(outcomes: Seq<QueryOutcome>, x: QueryOutcome, want: bool)
    ensures
        count_with(Seq::<QueryOutcome>::empty(), want) == 0,
        count_with(outcomes.push(x), want) == count_with(outcomes, want) + (if x.pass == want { 1int } else { 0int }),
        count_with(outcomes, want) == outcomes.filter(|o: QueryOutcome| o.pass == want).len(),
    decreases outcomes.len(),
{
    assert(outcomes.push(x).drop_last() =~= outcomes);
    reveal(Seq::filter);
    if outcomes.len() > 0 {
        law_count_each_outcome(outcomes.drop_last(), outcomes.last(), want);
    }
}

} // verus!
