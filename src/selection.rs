//! Partial selection sort: brings the `limit` highest-scoring items to the
//! front, in descending order, without ordering the rest.
use vstd::prelude::*;

verus! {

broadcast use vstd::seq_lib::group_to_multiset_ensures;

/// Values that carry an integer score.
pub trait Score {
    spec fn score_of(&self) -> int;
}

/// Items whose score can be computed.
pub trait Scored: Score {
    fn score(&self) -> (r: i64)
        ensures
            r as int == self.score_of(),
    ;
}

impl Score for i32 {
    open spec fn score_of(&self) -> int {
        *self as int
    }
}

impl Scored for i32 {
    fn score(&self) -> (r: i64) {
        *self as i64
    }
}

/// `m` is the first position in `[from, len)` holding a maximal score.
pub open spec fn is_first_max<T: Score>(s: Seq<T>, from: int, m: int) -> bool {
    &&& from <= m < s.len()
    &&& forall|k: int| from <= k < s.len() ==> s[k].score_of() <= #[trigger] s[m].score_of()
    &&& forall|k: int| from <= k < m ==> #[trigger] s[k].score_of() < s[m].score_of()
}

pub open spec fn first_max<T: Score>(s: Seq<T>, from: int) -> int {
    choose|m: int| is_first_max(s, from, m)
}

pub open spec fn swapped<T>(s: Seq<T>, i: int, j: int) -> Seq<T> {
    s.update(i, s[j]).update(j, s[i])
}

/// The sequence after `k` passes: pass `i` swaps the first maximal item of
/// `[i, len)` into position `i`.
pub open spec fn passes<T: Score>(s: Seq<T>, k: nat) -> Seq<T>
    decreases k,
{
    if k == 0 {
        s
    } else {
        let t = passes(s, (k - 1) as nat);
        swapped(t, k - 1, first_max(t, k - 1))
    }
}

/// The first `k` items are in descending order of score.
pub open spec fn descending_prefix<T: Score>(s: Seq<T>, k: int) -> bool {
    forall|a: int, b: int| 0 <= a < b < k ==> #[trigger] s[a].score_of() >= #[trigger] s[b].score_of()
}

/// Every one of the first `k` items scores at least as much as every later one.
pub open spec fn prefix_dominates<T: Score>(s: Seq<T>, k: int) -> bool {
    forall|a: int, b: int|
        0 <= a < k <= b < s.len() ==> #[trigger] s[a].score_of() >= #[trigger] s[b].score_of()
}

proof fn lemma_first_max_unique<T: Score>(s: Seq<T>, from: int, m: int)
    requires
        is_first_max(s, from, m),
    ensures
        first_max(s, from) == m,
{
    let c = first_max(s, from);
    assert(is_first_max(s, from, c));
    if c < m {
        assert(s[c].score_of() < s[m].score_of());
    } else if m < c {
        assert(s[m].score_of() < s[c].score_of());
    }
}

proof fn lemma_insert_multiset<T>(s: Seq<T>, i: int, x: T)
    requires
        0 <= i <= s.len(),
    ensures
        s.insert(i, x).to_multiset() =~= s.to_multiset().insert(x),
{
    let t = s.insert(i, x);
    assert(t.remove(i) =~= s);
    assert(t[i] == x);
    assert(t.to_multiset().count(x) > 0);
}

proof fn lemma_first_max_exists<T: Score>(s: Seq<T>, from: int)
    requires
        0 <= from < s.len(),
    ensures
        is_first_max(s, from, first_max(s, from)),
    decreases s.len() - from,
{
    if from + 1 < s.len() {
        lemma_first_max_exists(s, from + 1);
        let m = first_max(s, from + 1);
        if s[m].score_of() > s[from].score_of() {
            assert(is_first_max(s, from, m));
        } else {
            assert(is_first_max(s, from, from));
        }
    } else {
        assert(is_first_max(s, from, from));
    }
}

/// Passes keep the length.
pub proof fn lemma_passes_len<T: Score>(s: Seq<T>, k: nat)
    requires
        k <= s.len(),
    ensures
        passes(s, k).len() == s.len(),
    decreases k,
{
    if k > 0 {
        lemma_passes_len(s, (k - 1) as nat);
        lemma_first_max_exists(passes(s, (k - 1) as nat), k - 1);
    }
}

/// Passes only move items around: a property of every item still holds of
/// every item afterwards.
pub proof fn lemma_passes_keep<T: Score>(s: Seq<T>, k: nat, p: spec_fn(T) -> bool)
    requires
        k <= s.len(),
        forall|i: int| 0 <= i < s.len() ==> #[trigger] p(s[i]),
    ensures
        forall|i: int| 0 <= i < passes(s, k).len() ==> #[trigger] p(passes(s, k)[i]),
    decreases k,
{
    lemma_passes_len(s, k);
    if k > 0 {
        let t = passes(s, (k - 1) as nat);
        lemma_passes_keep(s, (k - 1) as nat, p);
        lemma_passes_len(s, (k - 1) as nat);
        lemma_first_max_exists(t, k - 1);
        let m = first_max(t, k - 1);
        let u = swapped(t, k - 1, m);
        assert forall|i: int| 0 <= i < u.len() implies #[trigger] p(u[i]) by {
            if i == k - 1 {
                assert(u[i] == t[m]);
            } else if i == m {
                assert(u[i] == t[k - 1]);
            } else {
                assert(u[i] == t[i]);
            }
        }
    }
}

/// Passes only look at scores, so they commute with any map that keeps them.
pub proof fn lemma_passes_map<T: Score, U: Score>(s: Seq<T>, f: spec_fn(T) -> U, k: nat)
    requires
        k <= s.len(),
        forall|x: T| #[trigger] f(x).score_of() == x.score_of(),
    ensures
        passes(s.map_values(f), k) == passes(s, k).map_values(f),
    decreases k,
{
    if k == 0 {
    } else {
        let i = k - 1;
        lemma_passes_map(s, f, (k - 1) as nat);
        lemma_passes_len(s, (k - 1) as nat);
        let t = passes(s, (k - 1) as nat);
        let tv = passes(s.map_values(f), (k - 1) as nat);
        assert(tv == t.map_values(f));
        lemma_first_max_exists(t, i);
        let m = first_max(t, i);
        assert(is_first_max(tv, i, m)) by {
            assert forall|j: int| i <= j < tv.len() implies tv[j].score_of() <= #[trigger] tv[m].score_of() by {
                assert(f(t[j]).score_of() == t[j].score_of());
                assert(f(t[m]).score_of() == t[m].score_of());
            }
            assert forall|j: int| i <= j < m implies #[trigger] tv[j].score_of() < tv[m].score_of() by {
                assert(f(t[j]).score_of() == t[j].score_of());
                assert(f(t[m]).score_of() == t[m].score_of());
            }
        }
        lemma_first_max_unique(tv, i, m);
        assert(swapped(tv, i, m) =~= swapped(t, i, m).map_values(f));
    }
}

/// Swaps the items at `i` and `j`.
fn swap_items<T>(arr: &mut Vec<T>, i: usize, j: usize)
    requires
        i < j < old(arr)@.len(),
    ensures
        final(arr)@ == swapped(old(arr)@, i as int, j as int),
        final(arr)@.to_multiset() == old(arr)@.to_multiset(),
{
    let ghost s = arr@;
    let b = arr.remove(j);
    let a = arr.remove(i);
    let ghost s1 = s.remove(j as int);
    let ghost s2 = s1.remove(i as int);
    arr.insert(i, b);
    let ghost s3 = s2.insert(i as int, b);
    arr.insert(j, a);
    proof {
        assert(arr@ =~= swapped(s, i as int, j as int));
        lemma_insert_multiset(s2, i as int, b);
        lemma_insert_multiset(s3, j as int, a);
        assert(s1[i as int] == a);
        assert(s.to_multiset() =~= s1.to_multiset().insert(b));
        assert(s1.to_multiset() =~= s2.to_multiset().insert(a));
    }
}

/// The first position in `[from, len)` holding a maximal score.
fn get_max_idx<T: Scored>(arr: &Vec<T>, from: usize) -> (r: usize)
    requires
        from < arr@.len(),
    ensures
        is_first_max(arr@, from as int, r as int),
{
    let n: usize = arr.len();
    let mut max_idx: usize = from;
    let mut max_score: i64 = arr[from].score();
    let mut i: usize = from + 1;
    while i < n
        invariant
            n == arr@.len(),
            from <= max_idx < i <= n,
            max_score as int == arr@[max_idx as int].score_of(),
            forall|k: int| from <= k < i ==> arr@[k].score_of() <= #[trigger] arr@[max_idx as int].score_of(),
            forall|k: int| from <= k < max_idx ==> #[trigger] arr@[k].score_of() < arr@[max_idx as int].score_of(),
        decreases arr.len() - i,
    {
        let s = arr[i].score();
        if max_score < s {
            max_idx = i;
            max_score = s;
        }
        i += 1;
    }
    max_idx
}

/// Brings the `limit` highest-scoring items to the front, highest first, by
/// `limit` passes of selecting the maximum of what is left. The order of the
/// remaining items is unspecified.
pub fn sort<T: Scored>(arr: &mut Vec<T>, limit: usize)
    requires
        limit <= old(arr)@.len(),
    ensures
        final(arr)@ == passes(old(arr)@, limit as nat),
        final(arr)@.to_multiset() == old(arr)@.to_multiset(),
        descending_prefix(final(arr)@, limit as int),
        prefix_dominates(final(arr)@, limit as int),
{
    let ghost s0 = arr@;
    let mut i: usize = 0;
    while i < limit
        invariant
            limit <= arr@.len() == s0.len(),
            i <= limit,
            arr@ == passes(s0, i as nat),
            arr@.to_multiset() == s0.to_multiset(),
            descending_prefix(arr@, i as int),
            prefix_dominates(arr@, i as int),
        decreases limit - i,
    {
        let max_idx = get_max_idx(arr, i);
        let ghost before = arr@;
        proof {
            lemma_first_max_unique(before, i as int, max_idx as int);
        }
        if max_idx != i {
            swap_items(arr, i, max_idx);
        } else {
            assert(swapped(before, i as int, i as int) =~= before);
        }
        proof {
            let after = arr@;
            assert(after =~= swapped(before, i as int, max_idx as int));
            assert forall|b: int| i < b < after.len() implies after[i as int].score_of() >= #[trigger] after[b].score_of() by {
                if b == max_idx {
                    assert(after[b] == before[i as int]);
                } else {
                    assert(after[b] == before[b]);
                }
            }
            assert forall|a: int, b: int| 0 <= a < b < i + 1 implies #[trigger] after[a].score_of() >= #[trigger] after[b].score_of() by {
                if b < i {
                    assert(after[a] == before[a] && after[b] == before[b]);
                } else {
                    assert(after[a] == before[a]);
                    assert(after[b] == before[max_idx as int]);
                }
            }
            assert forall|a: int, b: int| 0 <= a < i + 1 <= b < after.len() implies #[trigger] after[a].score_of() >= #[trigger] after[b].score_of() by {
                if a < i {
                    assert(after[a] == before[a]);
                    if b == max_idx {
                        assert(after[b] == before[i as int]);
                    } else {
                        assert(after[b] == before[b]);
                    }
                }
            }
        }
        i += 1;
    }
}

} // verus!
