//! Ranking of all entries of an index against a query.
use vstd::prelude::*;

use crate::fuzzy::{
    fitness_of, get_fuzzy_info, lemma_empty_input_scores_zero, segments_of, string_views, FuzzyInfo,
};
use crate::index::{entry_views, AppIndex, AppIndexView};
use crate::selection::{
    descending_prefix, lemma_passes_keep, lemma_passes_len, lemma_passes_map, passes, sort, Score,
    Scored,
};

verus! {

/// Fitness taken off matches on the generic name and on the command, so that
/// a match on the name is preferred.
pub const FIELD_BIAS: i32 = 10;

/// Fitness added for each kind of extra metadata an entry carries.
pub const QUALITY_BONUS: i32 = 10;

/// One entry of the index with how well it matched the query.
pub struct AppMatch<'a> {
    pub index: &'a AppIndex,
    pub fuzzy_info: FuzzyInfo,
}

pub struct MatchView {
    pub entry: AppIndexView,
    pub fitness: int,
    pub segments: Seq<Seq<char>>,
}

impl<'a> View for AppMatch<'a> {
    type V = MatchView;

    open spec fn view(&self) -> MatchView {
        MatchView {
            entry: self.index@,
            fitness: self.fuzzy_info.fitness as int,
            segments: string_views(self.fuzzy_info.segments@),
        }
    }
}

impl Score for MatchView {
    open spec fn score_of(&self) -> int {
        self.fitness
    }
}

impl<'a> Score for AppMatch<'a> {
    open spec fn score_of(&self) -> int {
        self.fuzzy_info.fitness as int
    }
}

impl<'a> Scored for AppMatch<'a> {
    fn score(&self) -> (r: i64) {
        self.fuzzy_info.fitness as i64
    }
}

impl<'a> AppMatch<'a> {
    pub fn fitness(&self) -> (r: i32)
        ensures
            r == self.fuzzy_info.fitness,
    {
        self.fuzzy_info.fitness
    }
}

pub open spec fn match_views<'a>(v: Seq<AppMatch<'a>>) -> Seq<MatchView> {
    v.map_values(|m: AppMatch<'a>| m@)
}

/// The generic name of an entry, empty where it has none.
pub open spec fn generic_text(e: AppIndexView) -> Seq<char> {
    match e.generic_name {
        Some(g) => g,
        None => seq![],
    }
}

/// Fitness and segments of `query` against one field, less `bias`.
pub open spec fn field_result(query: Seq<char>, field: Seq<char>, bias: int) -> (int, Seq<Seq<char>>) {
    (fitness_of(query, field) - bias, segments_of(query, field))
}

/// The best of the name, generic-name and command results; of equal ones the
/// later wins.
pub open spec fn best_field(query: Seq<char>, e: AppIndexView) -> (int, Seq<Seq<char>>) {
    let a = field_result(query, e.name, 0);
    let b = field_result(query, generic_text(e), FIELD_BIAS as int);
    let c = field_result(query, e.command, FIELD_BIAS as int);
    let ab = if b.0 >= a.0 {
        b
    } else {
        a
    };
    if c.0 >= ab.0 {
        c
    } else {
        ab
    }
}

/// Bonus for entries with actions and for entries with a generic name.
pub open spec fn quality_bonus(e: AppIndexView) -> int {
    (if e.actions.len() > 0 {
        QUALITY_BONUS as int
    } else {
        0
    }) + (if e.generic_name is Some {
        QUALITY_BONUS as int
    } else {
        0
    })
}

/// How entry `e` matches `query`.
pub open spec fn match_of(query: Seq<char>, e: AppIndexView) -> MatchView {
    let best = best_field(query, e);
    MatchView { entry: e, fitness: best.0 + quality_bonus(e), segments: best.1 }
}

pub open spec fn all_matches(query: Seq<char>, entries: Seq<AppIndexView>) -> Seq<MatchView> {
    entries.map_values(|e: AppIndexView| match_of(query, e))
}

pub open spec fn min_nat(a: nat, b: nat) -> nat {
    if a <= b {
        a
    } else {
        b
    }
}

/// The result of a search: the `limit` best matches (or all, if fewer),
/// selected and ordered by passes of the partial selection sort.
pub open spec fn found(query: Seq<char>, entries: Seq<AppIndexView>, limit: nat) -> Seq<MatchView> {
    let k = min_nat(limit, entries.len());
    passes(all_matches(query, entries), k).take(k as int)
}

/// An immutable snapshot of the index.
pub struct Finder {
    cache: Vec<AppIndex>,
}

impl View for Finder {
    type V = Seq<AppIndexView>;

    closed spec fn view(&self) -> Seq<AppIndexView> {
        entry_views(self.cache@)
    }
}

impl Default for Finder {
    fn default() -> (r: Self)
        ensures
            r@ == Seq::<AppIndexView>::empty(),
    {
        let r = Finder { cache: Vec::new() };
        assert(r@ =~= Seq::<AppIndexView>::empty());
        r
    }
}

/// Matches `query` against the fields of `app` and applies the bias and the
/// quality bonuses.
fn match_app<'a>(query: &str, app: &'a AppIndex) -> (r: AppMatch<'a>)
    ensures
        r@ == match_of(query@, app@),
        r.index == app,
{
    let generic_name: String = match &app.generic_name {
        Some(g) => g.clone(),
        None => String::new(),
    };
    let name_match = get_fuzzy_info(query, app.name.as_str());
    let mut generic_name_match = get_fuzzy_info(query, generic_name.as_str());
    let mut exec_match = get_fuzzy_info(query, app.command.as_str());

    generic_name_match.fitness = generic_name_match.fitness - FIELD_BIAS;
    exec_match.fitness = exec_match.fitness - FIELD_BIAS;

    let mut fuzzy_info = if generic_name_match.fitness >= name_match.fitness {
        generic_name_match
    } else {
        name_match
    };
    if exec_match.fitness >= fuzzy_info.fitness {
        fuzzy_info = exec_match;
    }
    if app.actions.len() > 0 {
        fuzzy_info.fitness = fuzzy_info.fitness + QUALITY_BONUS;
    }
    if app.generic_name.is_some() {
        fuzzy_info.fitness = fuzzy_info.fitness + QUALITY_BONUS;
    }
    AppMatch { index: app, fuzzy_info }
}

impl Finder {
    pub fn new(indices: Vec<AppIndex>) -> (r: Self)
        ensures
            r@ == entry_views(indices@),
    {
        Self { cache: indices }
    }

    /// The `limit` entries (or all, if fewer) that match `query` best, best
    /// first.
    pub fn find(&self, query: &str, limit: usize) -> (r: Vec<AppMatch<'_>>)
        ensures
            match_views(r@) == found(query@, self@, limit as nat),
            r@.len() == min_nat(limit as nat, self@.len()),
            descending_prefix(match_views(r@), r@.len() as int),
    {
        let n = self.cache.len();
        let ghost all = all_matches(query@, self@);
        let mut results: Vec<AppMatch<'_>> = Vec::new();
        let mut i: usize = 0;
        while i < n
            invariant
                n == self.cache@.len(),
                all == all_matches(query@, self@),
                i <= n,
                match_views(results@) =~= all.subrange(0, i as int),
            decreases n - i,
        {
            let m = match_app(query, &self.cache[i]);
            let ghost before = results@;
            results.push(m);
            proof {
                assert(self@[i as int] == self.cache@[i as int]@);
                assert(match_views(results@) =~= match_views(before).push(m@));
            }
            i += 1;
        }
        assert(all.subrange(0, n as int) =~= all);
        let k: usize = if limit < n {
            limit
        } else {
            n
        };
        let ghost unsorted = results@;
        sort(&mut results, k);
        proof {
            let f = |m: AppMatch<'_>| m@;
            lemma_passes_map(unsorted, f, k as nat);
            lemma_passes_len(unsorted, k as nat);
            assert(match_views(unsorted) == unsorted.map_values(f));
            assert(match_views(results@) == passes(unsorted, k as nat).map_values(f));
        }
        let ghost sorted = results@;
        results.truncate(k);
        proof {
            assert(match_views(results@) =~= match_views(sorted).take(k as int));
            assert forall|a: int, b: int| 0 <= a < b < k implies #[trigger] match_views(results@)[a].score_of()
                >= #[trigger] match_views(results@)[b].score_of() by {
                assert(results@[a].score_of() >= results@[b].score_of());
            }
        }
        results
    }
}

/// Searching an unchanged index twice with the same query and limit gives the
/// same ordered results.
pub proof fn lemma_find_idempotent(
    index: Seq<AppIndexView>,
    query: Seq<char>,
    limit: nat,
    first: Seq<MatchView>,
    second: Seq<MatchView>,
)
    requires
        first == found(query, index, limit),
        second == found(query, index, limit),
    ensures
        first == second,
{
}

/// With an empty query, entries that have neither actions nor a generic name
/// all score zero: a search returns at most `limit` matches, each of fitness
/// zero.
pub proof fn lemma_empty_query(entries: Seq<AppIndexView>, limit: nat)
    requires
        forall|i: int|
            0 <= i < entries.len() ==> (#[trigger] entries[i]).actions.len() == 0
                && entries[i].generic_name is None,
    ensures
        found(Seq::<char>::empty(), entries, limit).len() <= limit,
        forall|i: int|
            0 <= i < found(Seq::<char>::empty(), entries, limit).len() ==> (#[trigger] found(
                Seq::<char>::empty(),
                entries,
                limit,
            )[i]).fitness == 0,
{
    let q = Seq::<char>::empty();
    let all = all_matches(q, entries);
    let k = min_nat(limit, entries.len());
    let p = |m: MatchView| m.fitness == 0;
    assert forall|i: int| 0 <= i < all.len() implies #[trigger] p(all[i]) by {
        let e = entries[i];
        lemma_empty_input_scores_zero(q, e.name);
        lemma_empty_input_scores_zero(q, generic_text(e));
        lemma_empty_input_scores_zero(q, e.command);
    }
    lemma_passes_keep(all, k, p);
    lemma_passes_len(all, k);
    let r = found(q, entries, limit);
    assert forall|i: int| 0 <= i < r.len() implies (#[trigger] r[i]).fitness == 0 by {
        assert(r[i] == passes(all, k)[i]);
        assert(p(passes(all, k)[i]));
    }
}

} // verus!
