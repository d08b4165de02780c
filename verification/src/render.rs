//! Rendering of a scanned, classified line as output segments.
//!
//! The renderer walks the line with a cursor: it copies unmatched text and
//! each detected address verbatim, and after every address that has a
//! classification it adds an annotation segment, the provider name in
//! brackets with a color chosen by the ASN code. An output sink prints an
//! annotation as one space, then the bracketed text in bold color, then a
//! style reset; a sink without styling prints the space and the text alone.

use vstd::prelude::*;

use crate::scan::SpanV;
use crate::scan::scan_spec;
use crate::scan::scan;
use crate::scan::lemma_scan_spec_wf;
use crate::table::EntryV;
use crate::table::Table;
use crate::table::lookup_spec;
use crate::table::get_asn;

verus! {

/// `c` is an ASCII whitespace character. Records are split on these; the
/// table's records only ever use plain spaces.
pub open spec fn is_space(c: char) -> bool {
    c == ' ' || c == '\t' || c == '\n' || c == '\r' || c == '\u{b}' || c == '\u{c}'
}

/// Length of the maximal whitespace run in `s` starting at `i`.
pub open spec fn space_run_len(s: Seq<char>, i: int) -> int
    decreases s.len() - i when 0 <= i <= s.len()
{
    if i >= s.len() || !is_space(s[i]) {
        0
    } else {
        1 + space_run_len(s, i + 1)
    }
}

/// Length of the maximal non-whitespace run in `s` starting at `i`.
pub open spec fn word_run_len(s: Seq<char>, i: int) -> int
    decreases s.len() - i when 0 <= i <= s.len()
{
    if i >= s.len() || is_space(s[i]) {
        0
    } else {
        1 + word_run_len(s, i + 1)
    }
}

pub proof fn lemma_space_run_le(s: Seq<char>, i: int)
    requires
        0 <= i <= s.len(),
    ensures
        0 <= space_run_len(s, i) <= s.len() - i,
    decreases s.len() - i,
{
    if i < s.len() && is_space(s[i]) {
        lemma_space_run_le(s, i + 1);
    }
}

pub proof fn lemma_word_run_le(s: Seq<char>, i: int)
    requires
        0 <= i <= s.len(),
    ensures
        0 <= word_run_len(s, i) <= s.len() - i,
    decreases s.len() - i,
{
    if i < s.len() && !is_space(s[i]) {
        lemma_word_run_le(s, i + 1);
    }
}

/// Start of the first token of `s`.
pub open spec fn token0_start(s: Seq<char>) -> int {
    space_run_len(s, 0)
}

/// End of the first token of `s`.
pub open spec fn token0_end(s: Seq<char>) -> int {
    token0_start(s) + word_run_len(s, token0_start(s))
}

/// The first whitespace-separated token of `s`; empty if there is none.
pub open spec fn token0(s: Seq<char>) -> Seq<char> {
    s.subrange(token0_start(s), token0_end(s))
}

/// Start of the second token of `s`.
pub open spec fn token1_start(s: Seq<char>) -> int {
    token0_end(s) + space_run_len(s, token0_end(s))
}

/// End of the second token of `s`.
pub open spec fn token1_end(s: Seq<char>) -> int {
    token1_start(s) + word_run_len(s, token1_start(s))
}

/// The second whitespace-separated token of `s`; empty if there is none.
pub open spec fn token1(s: Seq<char>) -> Seq<char> {
    s.subrange(token1_start(s), token1_end(s))
}

/// Exec scan to the end of the whitespace run starting at `i`.
fn skip_spaces(s: &str, n: usize, i: usize) -> (j: usize)
    requires
        n == s@.len(),
        i <= n,
    ensures
        i <= j <= n,
        j == i + space_run_len(s@, i as int),
{
    proof {
        lemma_space_run_le(s@, i as int);
    }
    let mut j: usize = i;
    loop
        invariant
            i <= j <= n,
            n == s@.len(),
            space_run_len(s@, i as int) == j - i + space_run_len(s@, j as int),
        decreases n - j,
    {
        if j >= n {
            return j;
        }
        let c = s.get_char(j);
        if !(c == ' ' || c == '\t' || c == '\n' || c == '\r' || c == '\u{b}' || c == '\u{c}') {
            return j;
        }
        proof {
            lemma_space_run_le(s@, j + 1);
        }
        j = j + 1;
    }
}

/// Exec scan to the end of the non-whitespace run starting at `i`.
fn skip_word(s: &str, n: usize, i: usize) -> (j: usize)
    requires
        n == s@.len(),
        i <= n,
    ensures
        i <= j <= n,
        j == i + word_run_len(s@, i as int),
{
    proof {
        lemma_word_run_le(s@, i as int);
    }
    let mut j: usize = i;
    loop
        invariant
            i <= j <= n,
            n == s@.len(),
            word_run_len(s@, i as int) == j - i + word_run_len(s@, j as int),
        decreases n - j,
    {
        if j >= n {
            return j;
        }
        let c = s.get_char(j);
        if c == ' ' || c == '\t' || c == '\n' || c == '\r' || c == '\u{b}' || c == '\u{c}' {
            return j;
        }
        proof {
            lemma_word_run_le(s@, j + 1);
        }
        j = j + 1;
    }
}

/// The first two whitespace-separated tokens of a record: the ASN code and
/// the provider name. A missing token is the empty string.
pub fn first_two_tokens(s: &str) -> (r: (String, String))
    ensures
        r.0@ == token0(s@),
        r.1@ == token1(s@),
{
    let n = s.unicode_len();
    let t0s = skip_spaces(s, n, 0);
    let t0e = skip_word(s, n, t0s);
    let t1s = skip_spaces(s, n, t0e);
    let t1e = skip_word(s, n, t1s);
    let tok0 = s.substring_char(t0s, t0e);
    let tok1 = s.substring_char(t1s, t1e);
    (String::from_str(tok0), String::from_str(tok1))
}

/// Character-by-character string equality.
pub fn str_eq(a: &str, b: &str) -> (r: bool)
    ensures
        r == (a@ == b@),
{
    let an = a.unicode_len();
    let bn = b.unicode_len();
    if an != bn {
        return false;
    }
    let mut k: usize = 0;
    while k < an
        invariant
            k <= an,
            an == a@.len(),
            bn == b@.len(),
            an == bn,
            forall|j: int| 0 <= j < k ==> a@[j] == b@[j],
        decreases an - k,
    {
        if a.get_char(k) != b.get_char(k) {
            return false;
        }
        k = k + 1;
    }
    proof {
        assert(a@ =~= b@);
    }
    true
}

/// Annotation color, selected by the record's ASN code.
#[derive(Clone, Copy, PartialEq, Eq, Structural, Debug)]
pub enum Color {
    Yellow,
    Magenta,
    Blue,
    White,
}

/// The color for an ASN code, case-sensitive; unknown codes get white.
pub open spec fn color_spec(code: Seq<char>) -> Color {
    if code == "AS9929"@ {
        Color::Yellow
    } else if code == "AS4809"@ {
        Color::Magenta
    } else if code == "AS58807"@ {
        Color::Blue
    } else {
        Color::White
    }
}

/// Select the annotation color for an ASN code.
pub fn color_for(code: &str) -> (c: Color)
    ensures
        c == color_spec(code@),
{
    if str_eq(code, "AS9929") {
        Color::Yellow
    } else if str_eq(code, "AS4809") {
        Color::Magenta
    } else if str_eq(code, "AS58807") {
        Color::Blue
    } else {
        Color::White
    }
}

/// Spec view of an output segment.
pub ghost enum SegV {
    /// Verbatim text of the line.
    Text(Seq<char>),
    /// A provider annotation: printed as one space, then the bracketed
    /// provider name in bold color, then a style reset.
    Ann(Seq<char>, Color),
}

/// One output segment of a rendered line.
#[derive(PartialEq, Eq, Debug)]
pub enum Segment {
    /// Verbatim text of the line.
    Text(String),
    /// A provider annotation: printed as one space, then the bracketed
    /// provider name in bold color, then a style reset.
    Ann(String, Color),
}

impl DeepView for Segment {
    type V = SegV;

    open spec fn deep_view(&self) -> SegV {
        match self {
            Segment::Text(t) => SegV::Text(t@),
            Segment::Ann(t, c) => SegV::Ann(t@, *c),
        }
    }
}

/// The bracketed annotation text for a record: the provider name, the
/// record's second whitespace-separated token, in square brackets.
pub open spec fn ann_text(info: Seq<char>) -> Seq<char> {
    seq!['['] + token1(info) + seq![']']
}

/// The rendered segments for `line` from `cursor` on, given the detected
/// spans at and after `cursor`: for each span, the gap before it and the
/// address itself verbatim, then an annotation if the table classifies the
/// address; after the last span, the rest of the line verbatim.
pub open spec fn render_spec(
    line: Seq<char>,
    entries: Seq<EntryV>,
    spans: Seq<SpanV>,
    cursor: int,
) -> Seq<SegV>
    decreases spans.len(),
{
    if spans.len() == 0 {
        seq![SegV::Text(line.subrange(cursor, line.len() as int))]
    } else {
        let sp = spans[0];
        let addr = line.subrange(sp.start, sp.end);
        let head = seq![SegV::Text(line.subrange(cursor, sp.start)), SegV::Text(addr)];
        let ann = match lookup_spec(entries, addr) {
            Some(info) => seq![SegV::Ann(ann_text(info), color_spec(token0(info)))],
            None => Seq::<SegV>::empty(),
        };
        head + ann + render_spec(line, entries, spans.skip(1), sp.end)
    }
}

/// Render one line against the table: verbatim text with an annotation
/// segment after each classified address.
pub fn render_line(line: &str, table: &Table) -> (r: Vec<Segment>)
    ensures
        r.deep_view() == render_spec(line@, table.deep_view(), scan_spec(line@, 0), 0),
{
    let spans = scan(line);
    let n = line.unicode_len();
    let m = spans.len();
    let mut segs: Vec<Segment> = Vec::new();
    let mut cursor: usize = 0;
    let mut k: usize = 0;
    proof {
        assert(scan_spec(line@, 0).skip(0) =~= scan_spec(line@, 0));
    }
    while k < m
        invariant
            k <= m,
            m == spans@.len(),
            spans.deep_view() == scan_spec(line@, 0),
            n == line@.len(),
            cursor == if k == 0 {
                0int
            } else {
                spans.deep_view()[k as int - 1].end
            },
            cursor <= n,
            render_spec(line@, table.deep_view(), scan_spec(line@, 0), 0) == segs.deep_view()
                + render_spec(
                line@,
                table.deep_view(),
                scan_spec(line@, 0).skip(k as int),
                cursor as int,
            ),
        decreases m - k,
    {
        let ghost full = scan_spec(line@, 0);
        let ghost tbl = table.deep_view();
        let ghost segs0 = segs.deep_view();
        proof {
            lemma_scan_spec_wf(line@, 0);
            assert(spans.deep_view()[k as int] == spans@[k as int].deep_view());
            if k > 0 {
                assert(spans.deep_view()[k as int - 1] == spans@[k as int - 1].deep_view());
            }
            assert(full.skip(k as int)[0] == full[k as int]);
        }
        let sp = spans[k];
        let gap = line.substring_char(cursor, sp.start);
        segs.push(Segment::Text(String::from_str(gap)));
        let addr = line.substring_char(sp.start, sp.end);
        let addr_owned = String::from_str(addr);
        let ghost segs1 = segs.deep_view();
        proof {
            assert(segs1 =~= segs0 + seq![SegV::Text(gap@)]);
        }
        match get_asn(table, addr) {
            Some(info) => {
                let tokens = first_two_tokens(info.as_str());
                let c = color_for(tokens.0.as_str());
                let mut at = String::from_str("[");
                at.append(tokens.1.as_str());
                at.append("]");
                segs.push(Segment::Text(addr_owned));
                segs.push(Segment::Ann(at, c));
                proof {
                    reveal_strlit("[");
                    reveal_strlit("]");
                    assert(at@ =~= ann_text(info@));
                    assert(segs.deep_view() =~= segs0 + seq![
                        SegV::Text(gap@),
                        SegV::Text(addr@),
                        SegV::Ann(at@, c),
                    ]);
                }
            },
            None => {
                segs.push(Segment::Text(addr_owned));
                proof {
                    assert(segs.deep_view() =~= segs0 + seq![
                        SegV::Text(gap@),
                        SegV::Text(addr@),
                    ]);
                }
            },
        }
        proof {
            let spv = full[k as int];
            assert(full.skip(k as int).skip(1) =~= full.skip(k as int + 1));
            assert(render_spec(line@, tbl, full, 0) =~= segs.deep_view() + render_spec(
                line@,
                tbl,
                full.skip(k as int + 1),
                spv.end,
            ));
        }
        cursor = sp.end;
        k = k + 1;
    }
    let tail = line.substring_char(cursor, n);
    segs.push(Segment::Text(String::from_str(tail)));
    proof {
        assert(scan_spec(line@, 0).skip(m as int) =~= Seq::<SpanV>::empty());
        assert(render_spec(line@, table.deep_view(), scan_spec(line@, 0), 0) =~= segs.deep_view());
    }
    segs
}

/// Plain text of a segment: an annotation contributes its leading space and
/// its bracketed text, without any styling.
pub open spec fn seg_plain(seg: SegV) -> Seq<char> {
    match seg {
        SegV::Text(t) => t,
        SegV::Ann(t, _) => seq![' '] + t,
    }
}

/// Plain text of a segment sequence, in order.
pub open spec fn flatten_plain(segs: Seq<SegV>) -> Seq<char>
    decreases segs.len(),
{
    if segs.len() == 0 {
        Seq::empty()
    } else {
        seg_plain(segs[0]) + flatten_plain(segs.skip(1))
    }
}

/// Render one line to plain text: what an output sink without styling
/// prints for it, including the trailing line terminator.
pub fn render_plain_line(line: &str, table: &Table) -> (r: String)
    ensures
        r@ == flatten_plain(render_spec(line@, table.deep_view(), scan_spec(line@, 0), 0))
            + seq!['\n'],
{
    let segs = render_line(line, table);
    let ghost segv = segs.deep_view();
    let mut out = String::new();
    let mut k: usize = 0;
    let m = segs.len();
    proof {
        assert(segv.skip(0) =~= segv);
    }
    while k < m
        invariant
            k <= m,
            m == segs@.len(),
            segv == segs.deep_view(),
            out@ + flatten_plain(segv.skip(k as int)) == flatten_plain(segv),
        decreases m - k,
    {
        proof {
            reveal_strlit(" ");
            assert(segv[k as int] == segs@[k as int].deep_view());
            assert(segv.skip(k as int)[0] == segv[k as int]);
            assert(segv.skip(k as int).skip(1) =~= segv.skip(k as int + 1));
        }
        let seg = &segs[k];
        match seg {
            Segment::Text(t) => {
                out.append(t.as_str());
            },
            Segment::Ann(t, _) => {
                out.append(" ");
                proof {
                    assert(" "@ =~= seq![' ']);
                }
                out.append(t.as_str());
            },
        }
        k = k + 1;
    }
    proof {
        assert(segv.skip(m as int) =~= Seq::<SegV>::empty());
        assert(out@ =~= flatten_plain(segv));
    }
    out.append("\n");
    proof {
        reveal_strlit("\n");
        assert("\n"@ =~= seq!['\n']);
    }
    out
}

} // verus!
