//! Small helpers on text.
use vstd::prelude::*;
use vstd::string::*;

verus! {

/// Whether `a` and `b` hold the same characters.
pub fn same_text(a: &str, b: &str) -> (r: bool)
    ensures
        r == (a@ == b@),
{
    let n = a.unicode_len();
    if n != b.unicode_len() {
        return false;
    }
    let mut i: usize = 0;
    while i < n
        invariant
            n == a@.len() == b@.len(),
            i <= n,
            forall|j: int| 0 <= j < i ==> a@[j] == b@[j],
        decreases n - i,
    {
        if a.get_char(i) != b.get_char(i) {
            return false;
        }
        i += 1;
    }
    assert(a@ =~= b@);
    true
}

/// The characters that Rust's `char::is_whitespace` accepts (Unicode
/// `White_Space`).
pub open spec fn is_ws(c: char) -> bool {
    ('\u{9}' <= c && c <= '\u{d}') || c == ' ' || c == '\u{85}' || c == '\u{a0}' || c
        == '\u{1680}' || ('\u{2000}' <= c && c <= '\u{200a}') || c == '\u{2028}' || c
        == '\u{2029}' || c == '\u{202f}' || c == '\u{205f}' || c == '\u{3000}'
}

pub fn is_whitespace(c: char) -> (r: bool)
    ensures
        r == is_ws(c),
{
    ('\u{9}' <= c && c <= '\u{d}') || c == ' ' || c == '\u{85}' || c == '\u{a0}' || c
        == '\u{1680}' || ('\u{2000}' <= c && c <= '\u{200a}') || c == '\u{2028}' || c
        == '\u{2029}' || c == '\u{202f}' || c == '\u{205f}' || c == '\u{3000}'
}

/// Number of whitespace characters that `s` starts with.
pub open spec fn leading_ws(s: Seq<char>) -> int
    decreases s.len(),
{
    if s.len() == 0 || !is_ws(s[0]) {
        0
    } else {
        1 + leading_ws(s.drop_first())
    }
}

/// Position of the first whitespace character of `s`, or its length.
pub open spec fn first_ws(s: Seq<char>) -> int
    decreases s.len(),
{
    if s.len() == 0 || is_ws(s[0]) {
        0
    } else {
        1 + first_ws(s.drop_first())
    }
}

proof fn lemma_ws_bounds(s: Seq<char>)
    ensures
        0 <= leading_ws(s) <= s.len(),
        0 <= first_ws(s) <= s.len(),
    decreases s.len(),
{
    if s.len() > 0 {
        lemma_ws_bounds(s.drop_first());
    }
}

/// The first whitespace-delimited token of `s` (empty where it has none).
pub open spec fn first_token(s: Seq<char>) -> Seq<char> {
    let t = s.skip(leading_ws(s));
    t.take(first_ws(t))
}

/// Position in `s` where the whitespace (if `ws`) or the non-whitespace (if
/// `!ws`) run starting at `start` ends.
fn run_end(s: &str, start: usize, ws: bool) -> (r: usize)
    requires
        start <= s@.len(),
    ensures
        start <= r <= s@.len(),
        ws ==> r == start + leading_ws(s@.subrange(start as int, s@.len() as int)),
        !ws ==> r == start + first_ws(s@.subrange(start as int, s@.len() as int)),
{
    let ghost t = s@;
    let n = s.unicode_len();
    let ghost rest0 = t.subrange(start as int, n as int);
    let mut end: usize = start;
    while end < n && is_whitespace(s.get_char(end)) == ws
        invariant
            t == s@,
            n == t.len(),
            start <= end <= n,
            rest0 == t.subrange(start as int, n as int),
            ws ==> leading_ws(rest0) == (end - start) + leading_ws(t.subrange(end as int, n as int)),
            !ws ==> first_ws(rest0) == (end - start) + first_ws(t.subrange(end as int, n as int)),
        decreases n - end,
    {
        proof {
            let rest = t.subrange(end as int, n as int);
            assert(rest.drop_first() =~= t.subrange(end as int + 1, n as int));
            assert(rest[0] == t[end as int]);
        }
        end += 1;
    }
    proof {
        let rest = t.subrange(end as int, n as int);
        if end < n {
            assert(rest[0] == t[end as int]);
        }
        lemma_ws_bounds(rest0);
    }
    end
}

/// Bounds `[start, end)` of the first whitespace-delimited token of the part
/// of `s` from `from` on.
pub fn token_bounds(s: &str, from: usize) -> (r: (usize, usize))
    requires
        from <= s@.len(),
    ensures
        from <= r.0 <= r.1 <= s@.len(),
        s@.subrange(r.0 as int, r.1 as int) == first_token(s@.subrange(from as int, s@.len() as int)),
{
    let ghost t = s@.subrange(from as int, s@.len() as int);
    let start = run_end(s, from, true);
    let end = run_end(s, start, false);
    proof {
        let n = s@.len() as int;
        assert(t.skip(leading_ws(t)) =~= s@.subrange(start as int, n));
        assert(s@.subrange(start as int, end as int) =~= s@.subrange(start as int, n).take(
            end - start,
        ));
    }
    (start, end)
}

} // verus!
