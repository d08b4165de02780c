//! Library-wide laws relating the scanner, the table, and the renderer.

use vstd::prelude::*;

use crate::scan::SpanV;
use crate::scan::digit_run_len;
use crate::scan::group_ok;
use crate::scan::is_digit;
use crate::scan::lemma_digit_run_le;
use crate::scan::lemma_scan_spec_wf;
use crate::scan::match_len_at;
use crate::scan::scan_spec;
use crate::table::EntryV;
use crate::table::lookup_spec;
use crate::render::SegV;
use crate::render::ann_text;
use crate::render::color_spec;
use crate::render::flatten_plain;
use crate::render::render_spec;
use crate::render::token0;

verus! {

/// `spans` lie in ascending, non-overlapping order inside
/// `[cursor, line_len)`.
pub open spec fn spans_wf(spans: Seq<SpanV>, cursor: int, line_len: int) -> bool {
    &&& (forall|k: int|
        0 <= k < spans.len() ==> {
            let sp = #[trigger] spans[k];
            sp.start < sp.end && sp.end <= line_len
        })
    &&& (spans.len() > 0 ==> cursor <= spans[0].start)
    &&& (forall|k: int|
        0 < k < spans.len() ==> (#[trigger] spans[k]).start >= spans[k - 1].end)
}

/// The spans a scan detects are well formed with respect to the start of
/// the line.
pub proof fn lemma_scan_spans_wf(s: Seq<char>)
    ensures
        spans_wf(scan_spec(s, 0), 0, s.len() as int),
{
    lemma_scan_spec_wf(s, 0);
}

proof fn lemma_spans_wf_skip(spans: Seq<SpanV>, cursor: int, line_len: int)
    requires
        spans_wf(spans, cursor, line_len),
        spans.len() > 0,
    ensures
        spans_wf(spans.skip(1), spans[0].end, line_len),
{
    let tail = spans.skip(1);
    assert forall|k: int| 0 <= k < tail.len() implies {
        let sp = #[trigger] tail[k];
        sp.start < sp.end && sp.end <= line_len
    } by {
        assert(tail[k] == spans[k + 1]);
    }
    if tail.len() > 0 {
        assert(tail[0] == spans[1]);
    }
    assert forall|k: int| 0 < k < tail.len() implies (#[trigger] tail[k]).start >= tail[k
        - 1].end by {
        assert(tail[k] == spans[k + 1]);
        assert(tail[k - 1] == spans[k]);
    }
}

/// Concatenation of the verbatim text segments alone, dropping the
/// annotations.
pub open spec fn concat_texts(segs: Seq<SegV>) -> Seq<char>
    decreases segs.len(),
{
    if segs.len() == 0 {
        Seq::empty()
    } else {
        (match segs[0] {
            SegV::Text(t) => t,
            SegV::Ann(_, _) => Seq::<char>::empty(),
        }) + concat_texts(segs.skip(1))
    }
}

proof fn lemma_round_trip_from(
    line: Seq<char>,
    entries: Seq<EntryV>,
    spans: Seq<SpanV>,
    cursor: int,
)
    requires
        0 <= cursor <= line.len(),
        spans_wf(spans, cursor, line.len() as int),
    ensures
        concat_texts(render_spec(line, entries, spans, cursor)) == line.subrange(
            cursor,
            line.len() as int,
        ),
    decreases spans.len(),
{
    let segs = render_spec(line, entries, spans, cursor);
    if spans.len() == 0 {
        let t = line.subrange(cursor, line.len() as int);
        assert(segs[0] == SegV::Text(t));
        assert(segs.skip(1) =~= Seq::<SegV>::empty());
        assert(concat_texts(Seq::<SegV>::empty()) == Seq::<char>::empty());
        assert(concat_texts(segs) == t + Seq::<char>::empty());
        assert(t + Seq::<char>::empty() =~= t);
    } else {
        let sp = spans[0];
        lemma_spans_wf_skip(spans, cursor, line.len() as int);
        lemma_round_trip_from(line, entries, spans.skip(1), sp.end);
        let rest = render_spec(line, entries, spans.skip(1), sp.end);
        let a = line.subrange(cursor, sp.start);
        let b = line.subrange(sp.start, sp.end);
        match lookup_spec(entries, b) {
            Some(info) => {
                let cseg = SegV::Ann(ann_text(info), color_spec(token0(info)));
                assert(segs =~= seq![SegV::Text(a), SegV::Text(b), cseg] + rest);
                let s1 = segs.skip(1);
                let s2 = s1.skip(1);
                let s3 = s2.skip(1);
                assert(s1 =~= seq![SegV::Text(b), cseg] + rest);
                assert(s2 =~= seq![cseg] + rest);
                assert(s3 =~= rest);
                assert(concat_texts(segs) == a + concat_texts(s1));
                assert(concat_texts(s1) == b + concat_texts(s2));
                assert(concat_texts(s2) == Seq::<char>::empty() + concat_texts(s3));
            },
            None => {
                assert(segs =~= seq![SegV::Text(a), SegV::Text(b)] + rest);
                let s1 = segs.skip(1);
                let s2 = s1.skip(1);
                assert(s1 =~= seq![SegV::Text(b)] + rest);
                assert(s2 =~= rest);
                assert(concat_texts(segs) == a + concat_texts(s1));
                assert(concat_texts(s1) == b + concat_texts(s2));
            },
        }
        assert(concat_texts(segs) =~= line.subrange(cursor, line.len() as int));
    }
}

/// Annotations are pure additions: concatenating the verbatim text
/// segments of a rendered line, in order, reconstructs the line exactly.
pub proof fn lemma_round_trip(line: Seq<char>, entries: Seq<EntryV>)
    ensures
        concat_texts(render_spec(line, entries, scan_spec(line, 0), 0)) == line,
{
    lemma_scan_spans_wf(line);
    lemma_round_trip_from(line, entries, scan_spec(line, 0), 0);
    assert(line.subrange(0, line.len() as int) =~= line);
}

/// No position of `s` holds a digit, a dot, and a digit in a row.
pub open spec fn no_pattern(s: Seq<char>) -> bool {
    forall|i: int|
        0 <= i && i + 2 < s.len() ==> !(is_digit(#[trigger] s[i]) && s[i + 1] == '.'
            && is_digit(s[i + 2]))
}

proof fn lemma_digit_run_digits(s: Seq<char>, i: int)
    requires
        0 <= i <= s.len(),
    ensures
        forall|j: int| i <= j < i + digit_run_len(s, i) ==> is_digit(#[trigger] s[j]),
    decreases s.len() - i,
{
    lemma_digit_run_le(s, i);
    if i < s.len() && is_digit(s[i]) {
        lemma_digit_run_digits(s, i + 1);
    }
}

proof fn lemma_no_pattern_no_scan(s: Seq<char>, i: int)
    requires
        0 <= i,
        no_pattern(s),
    ensures
        scan_spec(s, i) == Seq::<SpanV>::empty(),
    decreases s.len() - i,
{
    if i < s.len() {
        if match_len_at(s, i) is Some {
            let r1 = digit_run_len(s, i);
            let p2 = i + r1 + 1;
            assert(group_ok(s, i));
            assert(group_ok(s, p2));
            lemma_digit_run_le(s, i);
            lemma_digit_run_digits(s, i);
            lemma_digit_run_digits(s, p2);
            assert(is_digit(s[i + r1 - 1]));
            assert(s[i + r1] == '.');
            assert(is_digit(s[p2]));
            assert(false);
        }
        lemma_no_pattern_no_scan(s, i + 1);
        assert(scan_spec(s, i) == scan_spec(s, i + 1));
    }
}

/// A line with no digit-dot-digit pattern has no detected address, so it
/// renders as one verbatim segment and prints as itself (the stream driver
/// adds the line terminator).
pub proof fn lemma_no_pattern_identity(line: Seq<char>, entries: Seq<EntryV>)
    requires
        no_pattern(line),
    ensures
        scan_spec(line, 0) == Seq::<SpanV>::empty(),
        flatten_plain(render_spec(line, entries, scan_spec(line, 0), 0)) == line,
{
    lemma_no_pattern_no_scan(line, 0);
    let segs = render_spec(line, entries, scan_spec(line, 0), 0);
    let t = line.subrange(0, line.len() as int);
    assert(segs == seq![SegV::Text(t)]);
    assert(segs[0] == SegV::Text(t));
    assert(segs.skip(1) =~= Seq::<SegV>::empty());
    assert(flatten_plain(Seq::<SegV>::empty()) == Seq::<char>::empty());
    assert(flatten_plain(segs) == t + Seq::<char>::empty());
    assert(t + Seq::<char>::empty() =~= t);
    assert(t =~= line);
}

proof fn lemma_render_head_text(
    line: Seq<char>,
    entries: Seq<EntryV>,
    spans: Seq<SpanV>,
    cursor: int,
)
    ensures
        render_spec(line, entries, spans, cursor).len() >= 1,
        !(render_spec(line, entries, spans, cursor)[0] is Ann),
{
    if spans.len() == 0 {
    } else {
    }
}

proof fn lemma_unmatched_helper(
    line: Seq<char>,
    entries: Seq<EntryV>,
    spans: Seq<SpanV>,
    cursor: int,
    k: int,
)
    requires
        0 <= k < spans.len(),
        lookup_spec(entries, line.subrange(spans[k].start, spans[k].end)) is None,
    ensures
        ({
            let segs = render_spec(line, entries, spans, cursor);
            let addr = line.subrange(spans[k].start, spans[k].end);
            exists|j: int|
                0 <= j && j + 1 < segs.len() && #[trigger] segs[j] == SegV::Text(addr) && !(segs[j
                    + 1] is Ann)
        }),
    decreases k,
{
    let segs = render_spec(line, entries, spans, cursor);
    let sp0 = spans[0];
    let gap = line.subrange(cursor, sp0.start);
    let addr0 = line.subrange(sp0.start, sp0.end);
    let rest = render_spec(line, entries, spans.skip(1), sp0.end);
    if k == 0 {
        assert(segs =~= seq![SegV::Text(gap), SegV::Text(addr0)] + rest);
        lemma_render_head_text(line, entries, spans.skip(1), sp0.end);
        assert(segs[1] == SegV::Text(addr0));
        assert(segs[2] == rest[0]);
        assert(!(segs[2] is Ann));
        assert(segs.len() >= 3);
    } else {
        assert(spans.skip(1)[k - 1] == spans[k]);
        lemma_unmatched_helper(line, entries, spans.skip(1), sp0.end, k - 1);
        let addr = line.subrange(spans[k].start, spans[k].end);
        let j2 = choose|j2: int|
            0 <= j2 && j2 + 1 < rest.len() && #[trigger] rest[j2] == SegV::Text(addr) && !(rest[j2
                + 1] is Ann);
        match lookup_spec(entries, addr0) {
            Some(info) => {
                let cseg = SegV::Ann(ann_text(info), color_spec(token0(info)));
                assert(segs =~= seq![SegV::Text(gap), SegV::Text(addr0), cseg] + rest);
                assert(segs[j2 + 3] == rest[j2]);
                assert(segs[j2 + 4] == rest[j2 + 1]);
            },
            None => {
                assert(segs =~= seq![SegV::Text(gap), SegV::Text(addr0)] + rest);
                assert(segs[j2 + 2] == rest[j2]);
                assert(segs[j2 + 3] == rest[j2 + 1]);
            },
        }
    }
}

/// A detected address that matches no table prefix appears in the rendered
/// output verbatim, with no annotation segment following it.
pub proof fn lemma_unclassified_verbatim(line: Seq<char>, entries: Seq<EntryV>, k: int)
    requires
        0 <= k < scan_spec(line, 0).len(),
        lookup_spec(
            entries,
            line.subrange(scan_spec(line, 0)[k].start, scan_spec(line, 0)[k].end),
        ) is None,
    ensures
        ({
            let segs = render_spec(line, entries, scan_spec(line, 0), 0);
            let sp = scan_spec(line, 0)[k];
            let addr = line.subrange(sp.start, sp.end);
            exists|j: int|
                0 <= j && j + 1 < segs.len() && #[trigger] segs[j] == SegV::Text(addr) && !(segs[j
                    + 1] is Ann)
        }),
{
    lemma_unmatched_helper(line, entries, scan_spec(line, 0), 0, k);
}

} // verus!
