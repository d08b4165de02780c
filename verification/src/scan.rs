//! Scanner for IPv4-shaped substrings.
//!
//! A match is four groups of one to three ASCII digits separated by literal
//! dots. Octet values are not bounds-checked and there is no word-boundary
//! requirement, so digits adjacent to a match can produce surprising matches;
//! that approximation is deliberate. Matches are found left to right,
//! greedily, and do not overlap: scanning resumes at the end of each match.
//!
//! Positions are character indices into the line.

use vstd::prelude::*;

verus! {

/// `c` is an ASCII decimal digit.
pub open spec fn is_digit(c: char) -> bool {
    '0' <= c && c <= '9'
}

/// Length of the maximal run of ASCII digits in `s` starting at `i`.
pub open spec fn digit_run_len(s: Seq<char>, i: int) -> int
    decreases s.len() - i when 0 <= i <= s.len()
{
    if i >= s.len() || !is_digit(s[i]) {
        0
    } else {
        1 + digit_run_len(s, i + 1)
    }
}

pub proof fn lemma_digit_run_le(s: Seq<char>, i: int)
    requires
        0 <= i <= s.len(),
    ensures
        0 <= digit_run_len(s, i) <= s.len() - i,
    decreases s.len() - i,
{
    if i < s.len() && is_digit(s[i]) {
        lemma_digit_run_le(s, i + 1);
    }
}

/// A dotted group starts at `p`: one to three digits whose run ends exactly
/// at a literal dot.
pub open spec fn group_ok(s: Seq<char>, p: int) -> bool {
    let r = digit_run_len(s, p);
    1 <= r <= 3 && p + r < s.len() && s[p + r] == '.'
}

/// Length of the IPv4-shaped match that starts exactly at `i`, if any.
///
/// The first three digit groups must each end exactly at a dot (a longer
/// digit run there leaves no way to place the dot); the final group takes
/// up to three digits of the run that starts after the last dot.
pub open spec fn match_len_at(s: Seq<char>, i: int) -> Option<int> {
    if group_ok(s, i) {
        let p2 = i + digit_run_len(s, i) + 1;
        if group_ok(s, p2) {
            let p3 = p2 + digit_run_len(s, p2) + 1;
            if group_ok(s, p3) {
                let p4 = p3 + digit_run_len(s, p3) + 1;
                let r4 = digit_run_len(s, p4);
                if r4 >= 1 {
                    Some(p4 + (if r4 >= 3 { 3int } else { r4 }) - i)
                } else {
                    None
                }
            } else {
                None
            }
        } else {
            None
        }
    } else {
        None
    }
}

pub proof fn lemma_match_len_bounds(s: Seq<char>, i: int)
    requires
        0 <= i <= s.len(),
        match_len_at(s, i) is Some,
    ensures
        7 <= match_len_at(s, i)->Some_0,
        i + match_len_at(s, i)->Some_0 <= s.len(),
{
    let p2 = i + digit_run_len(s, i) + 1;
    let p3 = p2 + digit_run_len(s, p2) + 1;
    let p4 = p3 + digit_run_len(s, p3) + 1;
    lemma_digit_run_le(s, i);
    lemma_digit_run_le(s, p2);
    lemma_digit_run_le(s, p3);
    lemma_digit_run_le(s, p4);
}

/// A span of a detected address: character positions with
/// `start <= i < end` inside the line.
pub ghost struct SpanV {
    pub start: int,
    pub end: int,
}

/// Exec counterpart of [`SpanV`].
#[derive(Clone, Copy, PartialEq, Eq, Structural, Debug)]
pub struct Span {
    pub start: usize,
    pub end: usize,
}

impl DeepView for Span {
    type V = SpanV;

    open spec fn deep_view(&self) -> SpanV {
        SpanV { start: self.start as int, end: self.end as int }
    }
}

/// The leftmost, non-overlapping matches of the pattern in `s` from
/// position `i` on, in ascending order.
pub open spec fn scan_spec(s: Seq<char>, i: int) -> Seq<SpanV>
    decreases s.len() - i when 0 <= i via scan_spec_dec
{
    if i >= s.len() {
        Seq::empty()
    } else {
        match match_len_at(s, i) {
            Some(l) => seq![SpanV { start: i, end: i + l }] + scan_spec(s, i + l),
            None => scan_spec(s, i + 1),
        }
    }
}

#[via_fn]
proof fn scan_spec_dec(s: Seq<char>, i: int) {
    if 0 <= i && i < s.len() {
        if match_len_at(s, i) is Some {
            lemma_match_len_bounds(s, i);
        }
    }
}

/// Spans from `scan_spec` lie inside `[i, s.len())`, are non-empty, and
/// come in ascending order without overlap.
pub proof fn lemma_scan_spec_wf(s: Seq<char>, i: int)
    requires
        0 <= i,
    ensures
        forall|k: int|
            0 <= k < scan_spec(s, i).len() ==> {
                let sp = #[trigger] scan_spec(s, i)[k];
                i <= sp.start && sp.start < sp.end && sp.end <= s.len()
            },
        forall|k: int|
            0 < k < scan_spec(s, i).len() ==> (#[trigger] scan_spec(s, i)[k]).start >= scan_spec(
                s,
                i,
            )[k - 1].end,
    decreases s.len() - i,
{
    if i >= s.len() {
    } else {
        match match_len_at(s, i) {
            Some(l) => {
                lemma_match_len_bounds(s, i);
                lemma_scan_spec_wf(s, i + l);
                let head = SpanV { start: i, end: i + l };
                let tail = scan_spec(s, i + l);
                let spans = scan_spec(s, i);
                assert(spans == seq![head] + tail);
                assert forall|k: int| 0 <= k < spans.len() implies {
                    let sp = #[trigger] spans[k];
                    i <= sp.start && sp.start < sp.end && sp.end <= s.len()
                } by {
                    if k > 0 {
                        assert(spans[k] == tail[k - 1]);
                    }
                }
                assert forall|k: int| 0 < k < spans.len() implies (#[trigger] spans[k]).start
                    >= spans[k - 1].end by {
                    assert(spans[k] == tail[k - 1]);
                    if k > 1 {
                        assert(spans[k - 1] == tail[k - 2]);
                    }
                }
            },
            None => {
                lemma_scan_spec_wf(s, i + 1);
                assert(scan_spec(s, i) == scan_spec(s, i + 1));
            },
        }
    }
}

/// Exec count of the maximal digit run starting at `i`.
fn digit_run(line: &str, n: usize, i: usize) -> (r: usize)
    requires
        n == line@.len(),
        i <= n,
    ensures
        r == digit_run_len(line@, i as int),
{
    let mut j: usize = i;
    loop
        invariant
            i <= j <= n,
            n == line@.len(),
            digit_run_len(line@, i as int) == j - i + digit_run_len(line@, j as int),
        decreases n - j,
    {
        if j >= n {
            return j - i;
        }
        let c = line.get_char(j);
        if !('0' <= c && c <= '9') {
            return j - i;
        }
        proof {
            lemma_digit_run_le(line@, j + 1);
        }
        j = j + 1;
    }
}

/// Exec test for the match starting exactly at `i`.
fn match_at(line: &str, n: usize, i: usize) -> (r: Option<usize>)
    requires
        n == line@.len(),
        i <= n,
    ensures
        match_len_at(line@, i as int) == (match r {
            Some(l) => Some(l as int),
            None => None::<int>,
        }),
{
    proof {
        lemma_digit_run_le(line@, i as int);
    }
    let r1 = digit_run(line, n, i);
    if !(1 <= r1 && r1 <= 3 && i + r1 < n && line.get_char(i + r1) == '.') {
        assert(!group_ok(line@, i as int));
        return None;
    }
    let p2 = i + r1 + 1;
    proof {
        lemma_digit_run_le(line@, p2 as int);
    }
    let r2 = digit_run(line, n, p2);
    if !(1 <= r2 && r2 <= 3 && p2 + r2 < n && line.get_char(p2 + r2) == '.') {
        assert(!group_ok(line@, p2 as int));
        return None;
    }
    let p3 = p2 + r2 + 1;
    proof {
        lemma_digit_run_le(line@, p3 as int);
    }
    let r3 = digit_run(line, n, p3);
    if !(1 <= r3 && r3 <= 3 && p3 + r3 < n && line.get_char(p3 + r3) == '.') {
        assert(!group_ok(line@, p3 as int));
        return None;
    }
    let p4 = p3 + r3 + 1;
    proof {
        lemma_digit_run_le(line@, p4 as int);
    }
    let r4 = digit_run(line, n, p4);
    if r4 == 0 {
        return None;
    }
    let take: usize = if r4 >= 3 {
        3
    } else {
        r4
    };
    Some(p4 + take - i)
}

/// Scan a line for IPv4-shaped substrings: the leftmost, non-overlapping
/// matches, in left-to-right order.
pub fn scan(line: &str) -> (r: Vec<Span>)
    ensures
        r.deep_view() == scan_spec(line@, 0),
{
    let n = line.unicode_len();
    let mut r: Vec<Span> = Vec::new();
    let mut i: usize = 0;
    while i < n
        invariant
            i <= n,
            n == line@.len(),
            scan_spec(line@, 0) == r.deep_view() + scan_spec(line@, i as int),
        decreases n - i,
    {
        let ghost r_old = r.deep_view();
        match match_at(line, n, i) {
            Some(l) => {
                proof {
                    lemma_match_len_bounds(line@, i as int);
                }
                r.push(Span { start: i, end: i + l });
                proof {
                    assert(r.deep_view() =~= r_old + seq![
                        SpanV { start: i as int, end: i + l },
                    ]);
                    assert(scan_spec(line@, 0) =~= r.deep_view() + scan_spec(
                        line@,
                        i + l,
                    ));
                }
                i = i + l;
            },
            None => {
                proof {
                    assert(scan_spec(line@, i as int) == scan_spec(line@, i + 1));
                }
                i = i + 1;
            },
        }
    }
    proof {
        assert(scan_spec(line@, n as int) =~= Seq::<SpanV>::empty());
        assert(r.deep_view() =~= scan_spec(line@, 0));
    }
    r
}

} // verus!
