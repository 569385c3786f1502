//! Fuzzy matching of a query against one haystack string.
//!
//! The query is first reduced to the characters that occur in the haystack,
//! then matched in order against the haystack from several starting points.
//! Each attempt yields maximal runs of matched characters (segments); the best
//! attempt is scored into a fitness value.
use vstd::prelude::*;
use vstd::string::*;

verus! {

/// Haystacks are cut to this many characters before matching.
pub const MAX_NAME_LENGTH: usize = 127;

/// ASCII case folding of one character, as a code point.
pub open spec fn fold(c: char) -> u32 {
    if 'A' <= c && c <= 'Z' {
        (c as u32 + 32) as u32
    } else {
        c as u32
    }
}

/// Two characters are equal when ASCII case is ignored.
pub open spec fn same_ci(a: char, b: char) -> bool {
    fold(a) == fold(b)
}

/// `c` occurs in `h` when ASCII case is ignored.
pub open spec fn occurs_ci(c: char, h: Seq<char>) -> bool {
    exists|i: int| 0 <= i < h.len() && same_ci(#[trigger] h[i], c)
}

pub open spec fn occurs_in(h: Seq<char>) -> spec_fn(char) -> bool {
    |c: char| occurs_ci(c, h)
}

/// The query without the characters that do not occur in the haystack.
pub open spec fn reduced(query: Seq<char>, haystack: Seq<char>) -> Seq<char> {
    query.filter(occurs_in(haystack))
}

/// The haystack cut to at most `MAX_NAME_LENGTH` characters.
pub open spec fn truncated(h: Seq<char>) -> Seq<char> {
    if h.len() <= MAX_NAME_LENGTH {
        h
    } else {
        h.subrange(0, MAX_NAME_LENGTH as int)
    }
}

/// State of one left-to-right scan: closed segments, the open segment, the
/// haystack position of the first match and the number of mismatches.
pub struct ScanState {
    pub done: Seq<Seq<char>>,
    pub cur: Seq<char>,
    pub first: Option<int>,
    pub mismatches: int,
}

/// The outcome of one scan.
pub struct Segmentation {
    pub segments: Seq<Seq<char>>,
    pub first: Option<int>,
    pub mismatches: int,
}

pub open spec fn empty_scan() -> ScanState {
    ScanState { done: seq![], cur: seq![], first: None, mismatches: 0 }
}

pub open spec fn no_match() -> Segmentation {
    Segmentation { segments: seq![], first: None, mismatches: 0 }
}

/// Walks query position `qi` and haystack position `hi` in lockstep: a match
/// extends the open segment and advances both, a mismatch closes the open
/// segment (if non-empty), counts and advances the haystack only.
pub open spec fn scan_rec(q: Seq<char>, h: Seq<char>, qi: int, hi: int, s: ScanState) -> ScanState
    decreases h.len() - hi,
{
    if qi < 0 || hi < 0 || qi >= q.len() || hi >= h.len() {
        s
    } else if same_ci(q[qi], h[hi]) {
        scan_rec(
            q,
            h,
            qi + 1,
            hi + 1,
            ScanState {
                cur: s.cur.push(h[hi]),
                first: if s.first is None {
                    Some(hi)
                } else {
                    s.first
                },
                ..s
            },
        )
    } else {
        scan_rec(
            q,
            h,
            qi,
            hi + 1,
            ScanState {
                done: if s.cur.len() > 0 {
                    s.done.push(s.cur)
                } else {
                    s.done
                },
                cur: if s.cur.len() > 0 {
                    seq![]
                } else {
                    s.cur
                },
                mismatches: s.mismatches + 1,
                ..s
            },
        )
    }
}

/// Closes the open segment, so that no empty segment is left at the end.
pub open spec fn finish(s: ScanState) -> Segmentation {
    Segmentation {
        segments: if s.cur.len() > 0 {
            s.done.push(s.cur)
        } else {
            s.done
        },
        first: s.first,
        mismatches: s.mismatches,
    }
}

/// The scan of the whole query against the haystack from position `from`.
pub open spec fn scan_from(q: Seq<char>, h: Seq<char>, from: int) -> Segmentation {
    finish(scan_rec(q, h, 0, from, empty_scan()))
}

/// Total number of matched characters.
pub open spec fn total_len(segs: Seq<Seq<char>>) -> int
    decreases segs.len(),
{
    if segs.len() == 0 {
        0
    } else {
        total_len(segs.drop_last()) + segs.last().len()
    }
}

/// Length of the largest segment.
pub open spec fn max_len(segs: Seq<Seq<char>>) -> int
    decreases segs.len(),
{
    if segs.len() == 0 {
        0
    } else {
        let m = max_len(segs.drop_last());
        if segs.last().len() > m {
            segs.last().len() as int
        } else {
            m
        }
    }
}

/// How good a segmentation is when choosing among starting points.
pub open spec fn goodness(segs: Seq<Seq<char>>) -> int {
    2 * max_len(segs) + total_len(segs)
}

/// Tries the scans from `from` onwards, each one starting just past the first
/// match of the previous one, until a scan finds nothing; keeps the first scan
/// of greatest goodness, starting from `best`.
pub open spec fn restart(q: Seq<char>, h: Seq<char>, from: int, best: Segmentation) -> Segmentation
    decreases h.len() - from,
{
    if from < 0 || from > h.len() {
        best
    } else {
        let a = scan_from(q, h, from);
        if a.segments.len() == 0 {
            best
        } else {
            let nb = if goodness(a.segments) > goodness(best.segments) {
                a
            } else {
                best
            };
            if a.first is Some && from <= a.first->0 < h.len() {
                restart(q, h, a.first->0 + 1, nb)
            } else {
                nb
            }
        }
    }
}

/// The chosen segmentation of a (reduced) query against a (truncated) haystack.
pub open spec fn best_segmentation(q: Seq<char>, h: Seq<char>) -> Segmentation {
    restart(q, h, 0, no_match())
}

/// Sum over the segments of `len + (len - 1)`.
pub open spec fn weight(segs: Seq<Seq<char>>) -> int
    decreases segs.len(),
{
    if segs.len() == 0 {
        0
    } else {
        weight(segs.drop_last()) + 2 * segs.last().len() - 1
    }
}

/// Score of a segmentation of a haystack of length `len`.
pub open spec fn score(s: Segmentation, len: int) -> int {
    match s.first {
        None => 0,
        Some(f) => 1000 * weight(s.segments) - 30 * f - 10 * s.mismatches - len,
    }
}

/// The fitness of `query` against `haystack`.
pub open spec fn fitness_of(query: Seq<char>, haystack: Seq<char>) -> int {
    let q = reduced(query, haystack);
    let h = truncated(haystack);
    if q.len() == 0 || h.len() == 0 {
        0
    } else {
        score(best_segmentation(q, h), h.len() as int)
    }
}

/// The matched segments of `query` in `haystack`.
pub open spec fn segments_of(query: Seq<char>, haystack: Seq<char>) -> Seq<Seq<char>> {
    let q = reduced(query, haystack);
    let h = truncated(haystack);
    if q.len() == 0 || h.len() == 0 {
        seq![]
    } else {
        best_segmentation(q, h).segments
    }
}

/// No segment is empty.
pub open spec fn all_nonempty(segs: Seq<Seq<char>>) -> bool {
    forall|i: int| 0 <= i < segs.len() ==> #[trigger] segs[i].len() > 0
}

pub open spec fn char_views(v: Seq<Vec<char>>) -> Seq<Seq<char>> {
    v.map_values(|x: Vec<char>| x@)
}

pub open spec fn string_views(v: Seq<String>) -> Seq<Seq<char>> {
    v.map_values(|x: String| x@)
}

pub open spec fn opt_int(o: Option<usize>) -> Option<int> {
    match o {
        Some(x) => Some(x as int),
        None => None,
    }
}

fn fold_char(c: char) -> (r: u32)
    ensures
        r == fold(c),
{
    if 'A' <= c && c <= 'Z' {
        c as u32 + 32
    } else {
        c as u32
    }
}

/// The characters of `s`, in order.
pub fn chars_of(s: &str) -> (r: Vec<char>)
    ensures
        r@ == s@,
{
    let n = s.unicode_len();
    let mut out: Vec<char> = Vec::new();
    let mut i: usize = 0;
    while i < n
        invariant
            n == s@.len(),
            i <= n,
            out@ == s@.subrange(0, i as int),
        decreases n - i,
    {
        out.push(s.get_char(i));
        i += 1;
    }
    assert(out@ =~= s@);
    out
}

fn contains_ci(h: &Vec<char>, c: char) -> (r: bool)
    ensures
        r == occurs_ci(c, h@),
{
    let fc = fold_char(c);
    let mut i: usize = 0;
    while i < h.len()
        invariant
            i <= h@.len(),
            fc == fold(c),
            forall|j: int| 0 <= j < i ==> !same_ci(#[trigger] h@[j], c),
        decreases h.len() - i,
    {
        if fold_char(h[i]) == fc {
            return true;
        }
        i += 1;
    }
    false
}

/// Removes from `query` every character that does not occur in `name`
/// (ASCII case ignored); also gives how many characters were removed.
///
/// For example `clomium` against `chromium` becomes `comium`, which then
/// matches as `c` and `omium` instead of `c` alone.
fn get_without_uncommon_chars(query: &Vec<char>, name: &Vec<char>) -> (r: (Vec<char>, usize))
    ensures
        r.0@ == reduced(query@, name@),
        r.1 == query@.len() - r.0@.len(),
{
    let mut kept: Vec<char> = Vec::new();
    let mut i: usize = 0;
    while i < query.len()
        invariant
            i <= query@.len(),
            kept@ == query@.subrange(0, i as int).filter(occurs_in(name@)),
        decreases query.len() - i,
    {
        let c = query[i];
        proof {
            let pre = query@.subrange(0, i as int + 1);
            assert(pre.drop_last() =~= query@.subrange(0, i as int));
            assert(pre.last() == c);
            reveal(Seq::filter);
        }
        if contains_ci(name, c) {
            kept.push(c);
        }
        i += 1;
    }
    assert(query@.subrange(0, query@.len() as int) =~= query@);
    proof {
        query@.lemma_filter_len(occurs_in(name@));
    }
    let removed = query.len() - kept.len();
    (kept, removed)
}

/// The first `MAX_NAME_LENGTH` characters of `name`.
fn truncate_name(name: &Vec<char>) -> (r: Vec<char>)
    ensures
        r@ == truncated(name@),
{
    let n = if name.len() <= MAX_NAME_LENGTH {
        name.len()
    } else {
        MAX_NAME_LENGTH
    };
    let mut out: Vec<char> = Vec::new();
    let mut i: usize = 0;
    while i < n
        invariant
            n <= name@.len(),
            n == truncated(name@).len(),
            i <= n,
            out@ == name@.subrange(0, i as int),
        decreases n - i,
    {
        out.push(name[i]);
        i += 1;
    }
    assert(out@ =~= truncated(name@));
    out
}

/// The outcome of one scan, as computed.
struct SegmentsInfo {
    first_match: Option<usize>,
    missmatch_count: usize,
    segments: Vec<Vec<char>>,
}

impl View for SegmentsInfo {
    type V = Segmentation;

    closed spec fn view(&self) -> Segmentation {
        Segmentation {
            segments: char_views(self.segments@),
            first: opt_int(self.first_match),
            mismatches: self.missmatch_count as int,
        }
    }
}

proof fn lemma_char_views_push(v: Seq<Vec<char>>, x: Vec<char>)
    ensures
        char_views(v.push(x)) == char_views(v).push(x@),
{
    assert(char_views(v.push(x)) =~= char_views(v).push(x@));
}

proof fn lemma_total_len_push(segs: Seq<Seq<char>>, x: Seq<char>)
    ensures
        total_len(segs.push(x)) == total_len(segs) + x.len(),
        weight(segs.push(x)) == weight(segs) + 2 * x.len() - 1,
        max_len(segs.push(x)) == if x.len() > max_len(segs) {
            x.len() as int
        } else {
            max_len(segs)
        },
{
    assert(segs.push(x).drop_last() =~= segs);
}

/// Matches `query` against `name` starting at position `from` of `name`.
fn get_matching_segments_from_index(query: &Vec<char>, name: &Vec<char>, from: usize) -> (r:
    SegmentsInfo)
    requires
        from <= name@.len(),
    ensures
        r@ == scan_from(query@, name@, from as int),
        total_len(r@.segments) + r@.mismatches <= name@.len() - from,
        r@.segments.len() > 0 ==> (r@.first is Some && from <= r@.first->0 < name@.len()),
        r@.first is Some ==> r@.segments.len() > 0,
        all_nonempty(r@.segments),
{
    let ghost q = query@;
    let ghost h = name@;
    let mut done: Vec<Vec<char>> = Vec::new();
    let mut cur: Vec<char> = Vec::new();
    let mut first_match: Option<usize> = None;
    let mut missmatch_count: usize = 0;
    let mut qi: usize = 0;
    let mut hi: usize = from;
    assert(char_views(done@) =~= seq![]);
    while qi < query.len() && hi < name.len()
        invariant
            q == query@,
            h == name@,
            from <= hi <= h.len(),
            qi <= q.len(),
            scan_rec(
                q,
                h,
                qi as int,
                hi as int,
                ScanState {
                    done: char_views(done@),
                    cur: cur@,
                    first: opt_int(first_match),
                    mismatches: missmatch_count as int,
                },
            ) == scan_rec(q, h, 0, from as int, empty_scan()),
            total_len(char_views(done@)) + cur@.len() + missmatch_count == hi - from,
            missmatch_count <= hi - from,
            all_nonempty(char_views(done@)),
            first_match is Some ==> from <= first_match->0 < hi,
            (done@.len() > 0 || cur@.len() > 0) <==> first_match is Some,
        decreases h.len() - hi,
    {
        let c = name[hi];
        if fold_char(query[qi]) == fold_char(c) {
            if first_match.is_none() {
                first_match = Some(hi);
            }
            cur.push(c);
            qi += 1;
        } else {
            if cur.len() > 0 {
                proof {
                    lemma_char_views_push(done@, cur);
                    lemma_total_len_push(char_views(done@), cur@);
                }
                done.push(cur);
                cur = Vec::new();
            }
            missmatch_count += 1;
        }
        hi += 1;
    }
    if cur.len() > 0 {
        proof {
            lemma_char_views_push(done@, cur);
            lemma_total_len_push(char_views(done@), cur@);
        }
        done.push(cur);
    }
    SegmentsInfo { first_match, missmatch_count, segments: done }
}


proof fn lemma_sizes(segs: Seq<Seq<char>>)
    requires
        all_nonempty(segs),
    ensures
        0 <= max_len(segs) <= total_len(segs),
        total_len(segs) <= weight(segs) <= 2 * total_len(segs),
    decreases segs.len(),
{
    if segs.len() > 0 {
        let d = segs.drop_last();
        assert forall|i: int| 0 <= i < d.len() implies #[trigger] d[i].len() > 0 by {
            assert(d[i] == segs[i]);
        }
        assert(segs.last().len() > 0);
        lemma_sizes(d);
    }
}

proof fn lemma_prefix_bounds(segs: Seq<Seq<char>>, i: int)
    requires
        0 <= i <= segs.len(),
        all_nonempty(segs),
    ensures
        total_len(segs.subrange(0, i)) <= total_len(segs),
        0 <= max_len(segs.subrange(0, i)) <= total_len(segs.subrange(0, i)),
        total_len(segs.subrange(0, i)) <= weight(segs.subrange(0, i)) <= 2 * total_len(
            segs.subrange(0, i),
        ),
        total_len(segs) <= weight(segs) <= 2 * total_len(segs),
    decreases segs.len() - i,
{
    let p = segs.subrange(0, i);
    assert forall|j: int| 0 <= j < p.len() implies #[trigger] p[j].len() > 0 by {
        assert(p[j] == segs[j]);
    }
    lemma_sizes(p);
    lemma_sizes(segs);
    if i == segs.len() {
        assert(p =~= segs);
    } else {
        lemma_prefix_bounds(segs, i + 1);
        assert(segs.subrange(0, i + 1).drop_last() =~= p);
    }
}

proof fn lemma_weight(segs: Seq<Seq<char>>)
    ensures
        weight(segs) == 2 * total_len(segs) - segs.len(),
    decreases segs.len(),
{
    if segs.len() > 0 {
        lemma_weight(segs.drop_last());
    }
}

/// There are multiple segmentations to choose from, depending on where the
/// matcher started; this gives the value by which they are compared.
fn calculate_goodness(segments: &Vec<Vec<char>>) -> (r: usize)
    requires
        total_len(char_views(segments@)) <= MAX_NAME_LENGTH,
        all_nonempty(char_views(segments@)),
    ensures
        r == goodness(char_views(segments@)),
{
    let ghost cv = char_views(segments@);
    let mut overall_length: usize = 0;
    let mut len_of_biggest_segment: usize = 0;
    let mut i: usize = 0;
    while i < segments.len()
        invariant
            cv == char_views(segments@),
            all_nonempty(cv),
            total_len(cv) <= MAX_NAME_LENGTH,
            i <= segments@.len(),
            overall_length == total_len(cv.subrange(0, i as int)),
            len_of_biggest_segment == max_len(cv.subrange(0, i as int)),
        decreases segments.len() - i,
    {
        proof {
            let p = cv.subrange(0, i as int + 1);
            assert(p.drop_last() =~= cv.subrange(0, i as int));
            assert(p.last() == segments@[i as int]@);
            lemma_prefix_bounds(cv, i as int + 1);
        }
        let len = segments[i].len();
        overall_length += len;
        if len > len_of_biggest_segment {
            len_of_biggest_segment = len;
        }
        i += 1;
    }
    proof {
        assert(cv.subrange(0, i as int) =~= cv);
        lemma_prefix_bounds(cv, i as int);
    }
    len_of_biggest_segment * 2 + overall_length
}

/// Segmentations whose sizes are bounded by a haystack of length `n`.
pub open spec fn bounded_by(s: Segmentation, n: int) -> bool {
    &&& total_len(s.segments) + s.mismatches <= n
    &&& 0 <= s.mismatches
    &&& all_nonempty(s.segments)
    &&& s.first is Some ==> 0 <= s.first->0 < n
    &&& s.first is Some ==> s.segments.len() > 0
}

/// Starts the matcher from several positions and keeps the best segmentation.
///
/// Not every position is tried: a scan already skips the characters before its
/// first match, so the next scan starts just past that first match, until a
/// scan finds no match at all.
fn get_matching_segments(query: &Vec<char>, name: &Vec<char>) -> (r: SegmentsInfo)
    requires
        name@.len() <= MAX_NAME_LENGTH,
    ensures
        r@ == best_segmentation(query@, name@),
        bounded_by(r@, name@.len() as int),
{
    let mut best = SegmentsInfo { first_match: None, missmatch_count: 0, segments: Vec::new() };
    assert(best@.segments =~= seq![]);
    let mut best_goodness: usize = 0;
    let mut from: usize = 0;
    loop
        invariant
            from <= name@.len() <= MAX_NAME_LENGTH,
            restart(query@, name@, from as int, best@) == best_segmentation(query@, name@),
            best_goodness == goodness(best@.segments),
            bounded_by(best@, name@.len() as int),
        decreases name@.len() - from,
    {
        let attempt = get_matching_segments_from_index(query, name, from);
        if attempt.segments.len() == 0 {
            return best;
        }
        let first = attempt.first_match.unwrap();
        let goodness = calculate_goodness(&attempt.segments);
        if goodness > best_goodness {
            best_goodness = goodness;
            best = attempt;
        }
        if first + 1 > name.len() {
            return best;
        }
        from = first + 1;
    }
}

impl SegmentsInfo {
    /// Larger and fewer segments win; a late first match and each mismatch
    /// cost a fixed amount.
    fn get_fitness(&self, name_len: usize) -> (r: i32)
        requires
            name_len <= MAX_NAME_LENGTH,
            bounded_by(self@, name_len as int),
            self@.first is Some,
        ensures
            r == score(self@, name_len as int),
            -5080 - name_len <= r <= 253000 - name_len,
    {
        let ghost cv = self@.segments;
        let mut sum: i32 = 0;
        let mut i: usize = 0;
        proof {
            lemma_prefix_bounds(cv, 0);
        }
        while i < self.segments.len()
            invariant
                cv == self@.segments,
                bounded_by(self@, name_len as int),
                name_len <= MAX_NAME_LENGTH,
                i <= cv.len(),
                sum == weight(cv.subrange(0, i as int)),
            decreases self.segments.len() - i,
        {
            proof {
                let p = cv.subrange(0, i as int + 1);
                assert(p.drop_last() =~= cv.subrange(0, i as int));
                assert(p.last() == self.segments@[i as int]@);
                lemma_prefix_bounds(cv, i as int + 1);
            }
            let len = self.segments[i].len() as i32;
            sum = sum + (len + (len - 1));
            i += 1;
        }
        assert(cv.subrange(0, i as int) =~= cv);
        proof {
            lemma_weight(cv);
            lemma_sizes(cv);
        }
        let first = self.first_match.unwrap() as i32;
        let mut fitness = sum * 1000;
        fitness -= first * 30;
        fitness -= self.missmatch_count as i32 * 10;
        fitness -= name_len as i32;
        fitness
    }
}

/// Collects characters into a string.
///
/// Relies on `String: FromIterator<char>`, which appends the characters in
/// order.
#[verifier::external_body]
pub(crate) fn string_from_chars(cs: &Vec<char>) -> (r: String)
    ensures
        r@ == cs@,
{
    cs.iter().collect()
}

fn segment_strings(segments: &Vec<Vec<char>>) -> (r: Vec<String>)
    ensures
        string_views(r@) == char_views(segments@),
{
    let mut out: Vec<String> = Vec::new();
    let mut i: usize = 0;
    while i < segments.len()
        invariant
            i <= segments@.len(),
            string_views(out@) =~= char_views(segments@).subrange(0, i as int),
        decreases segments.len() - i,
    {
        let s = string_from_chars(&segments[i]);
        let ghost before = out@;
        out.push(s);
        proof {
            assert(string_views(out@) =~= string_views(before).push(segments@[i as int]@));
        }
        i += 1;
    }
    assert(char_views(segments@).subrange(0, i as int) =~= char_views(segments@));
    out
}

/// An empty query or an empty haystack scores zero, with no segments.
pub proof fn lemma_empty_input_scores_zero(query: Seq<char>, haystack: Seq<char>)
    requires
        query.len() == 0 || haystack.len() == 0,
    ensures
        fitness_of(query, haystack) == 0,
        segments_of(query, haystack) == Seq::<Seq<char>>::empty(),
{
    reveal(Seq::filter);
    query.lemma_filter_len(occurs_in(haystack));
}

/// The result of matching a query against one haystack.
#[derive(Debug)]
pub struct FuzzyInfo {
    pub segments: Vec<String>,
    pub fitness: i32,
}

/// Scores `query` against `name`.
///
/// The query is reduced to the characters that occur in `name` (ASCII case
/// ignored), `name` is cut to `MAX_NAME_LENGTH` characters, and the best
/// segmentation over several starting points is scored. For example `clomium`
/// against `chromium` gives the segments `c` and `omium`.
pub fn get_fuzzy_info(query: &str, name: &str) -> (info: FuzzyInfo)
    ensures
        info.fitness as int == fitness_of(query@, name@),
        string_views(info.segments@) == segments_of(query@, name@),
        query@.len() == 0 || name@.len() == 0 ==> info.fitness == 0 && info.segments@.len() == 0,
        -5080 - MAX_NAME_LENGTH <= info.fitness <= 253000,
{
    let query_chars = chars_of(query);
    let name_chars = chars_of(name);
    let (query_chars, _) = get_without_uncommon_chars(&query_chars, &name_chars);
    let name_chars = truncate_name(&name_chars);
    proof {
        reveal(Seq::filter);
        if query@.len() == 0 {
            assert(query@.filter(occurs_in(name@)).len() == 0);
        }
    }
    if query_chars.len() == 0 || name_chars.len() == 0 {
        let info = FuzzyInfo { segments: Vec::new(), fitness: 0 };
        assert(string_views(info.segments@) =~= seq![]);
        return info;
    }
    let segments_info = get_matching_segments(&query_chars, &name_chars);
    let segments = segment_strings(&segments_info.segments);
    if segments_info.first_match.is_none() {
        return FuzzyInfo { segments, fitness: 0 };
    }
    let fitness = segments_info.get_fitness(name_chars.len());
    FuzzyInfo { segments, fitness }
}

} // verus!
