//! Splitting a document into chapters at its heading lines.
use vstd::prelude::*;
use vstd::string::StringExecFns;
use crate::indexer::{index_chars, lines, spans_of, span_pair, LineSpan};
use crate::matcher::{lemma_unusable_matches_nothing, line_title, pattern_text, regex_compiles, MarkerMatcher, PATTERN_COUNT};
use crate::models::{chapters_view, spans_ordered, Chapter, ChapterView};
use crate::text::{byte_len, byte_offset, chars_of, lemma_byte_offset_monotone, lemma_byte_offset_step, lemma_byte_offset_strict, slice_chars, trim, trim_of};

verus! {

/// A heading line: its character indices, its byte offsets and its title.
#[derive(Debug)]
pub struct Marker {
    pub start: usize,
    pub end: usize,
    pub start_offset: usize,
    pub end_offset: usize,
    pub title: String,
}

/// The mathematical value of a heading line: `(start, end, title)`.
pub open spec fn marker_view(m: Marker) -> (int, int, Seq<char>) {
    (m.start as int, m.end as int, m.title@)
}

pub open spec fn markers_view(v: Seq<Marker>) -> Seq<(int, int, Seq<char>)> {
    v.map_values(|m: Marker| marker_view(m))
}

/// The heading lines among the lines `ls` of `t`, in document order.
pub open spec fn markers_in(t: Seq<char>, ls: Seq<(int, int)>) -> Seq<(int, int, Seq<char>)>
    decreases ls.len(),
{
    if ls.len() == 0 {
        Seq::empty()
    } else {
        let before = markers_in(t, ls.drop_last());
        let (s, e) = ls.last();
        match line_title(t.subrange(s, e)) {
            Some(title) => before.push((s, e, title)),
            None => before,
        }
    }
}

/// The heading lines of `t`.
pub open spec fn markers(t: Seq<char>) -> Seq<(int, int, Seq<char>)> {
    markers_in(t, lines(t))
}

/// Where a chapter's text begins after a heading line that ends at `e`:
/// one line separator, `\n` or `\r\n`, is skipped.
pub open spec fn content_start(t: Seq<char>, e: int) -> int {
    if 0 <= e < t.len() && t[e] == '\n' {
        e + 1
    } else if 0 <= e < t.len() && t[e] == '\r' {
        if e + 1 < t.len() && t[e + 1] == '\n' {
            e + 2
        } else {
            e + 1
        }
    } else {
        e
    }
}

/// Where the text of the chapter of heading `i` ends: at the next heading
/// line, or at the end of the document.
pub open spec fn content_end(t: Seq<char>, ms: Seq<(int, int, Seq<char>)>, i: int) -> int {
    if i + 1 < ms.len() {
        ms[i + 1].0
    } else {
        t.len() as int
    }
}

/// The chapter of heading `i`, unless its trimmed text is empty.
pub open spec fn chapter_for(t: Seq<char>, ms: Seq<(int, int, Seq<char>)>, i: int) -> Option<ChapterView> {
    let cs = content_start(t, ms[i].1);
    let ce = content_end(t, ms, i);
    if ce > cs && trim_of(t.subrange(cs, ce)).len() > 0 {
        Some(
            ChapterView {
                title: ms[i].2,
                content: trim_of(t.subrange(cs, ce)),
                start_pos: byte_offset(t, cs) as int,
                end_pos: byte_offset(t, ce) as int,
            },
        )
    } else {
        None
    }
}

/// The chapters of the first `n` headings.
pub open spec fn chapters_upto(t: Seq<char>, ms: Seq<(int, int, Seq<char>)>, n: int) -> Seq<ChapterView>
    decreases n,
{
    if n <= 0 {
        Seq::empty()
    } else {
        let before = chapters_upto(t, ms, n - 1);
        match chapter_for(t, ms, n - 1) {
            Some(c) => before.push(c),
            None => before,
        }
    }
}

/// The single chapter that holds a whole document.
pub open spec fn whole_document(t: Seq<char>) -> ChapterView {
    ChapterView { title: "Complete Text"@, content: t, start_pos: 0, end_pos: byte_len(t) as int }
}

/// The chapters of `t`: one per heading line whose following text is not
/// blank, or the whole document as one chapter where there is none.
pub open spec fn segment(t: Seq<char>) -> Seq<ChapterView> {
    let ms = markers(t);
    let cs = chapters_upto(t, ms, ms.len() as int);
    if cs.len() == 0 {
        seq![whole_document(t)]
    } else {
        cs
    }
}

fn whole_chapter(text: &str, total: usize) -> (r: Chapter)
    requires
        total == byte_len(text@),
    ensures
        r@ == whole_document(text@),
{
    Chapter { title: String::from_str("Complete Text"), content: String::from_str(text), start_pos: 0, end_pos: total }
}

/// The heading lines among the indexed lines.
fn find_markers(t: &Vec<char>, spans: &Vec<LineSpan>, matcher: &MarkerMatcher) -> (r: Vec<Marker>)
    requires
        matcher.wf(),
        spans_of(t@, spans@),
    ensures
        markers_view(r@) == markers(t@),
        forall|j: int|
            0 <= j < r@.len() ==> (#[trigger] r@[j]).start_offset == byte_offset(t@, r@[j].start as int)
                && r@[j].end_offset == byte_offset(t@, r@[j].end as int),
{
    let ghost ls = lines(t@);
    let mut out: Vec<Marker> = Vec::new();
    let mut j: usize = 0;
    proof {
        crate::indexer::lemma_lines_bounds(t@);
    }
    while j < spans.len()
        invariant
            matcher.wf(),
            spans_of(t@, spans@),
            ls == lines(t@),
            ls.len() == spans@.len(),
            forall|k: int| 0 <= k < ls.len() ==> 0 <= (#[trigger] ls[k]).0 <= ls[k].1 <= t@.len(),
            j <= spans@.len(),
            markers_view(out@) == markers_in(t@, ls.take(j as int)),
            forall|k: int|
                0 <= k < out@.len() ==> (#[trigger] out@[k]).start_offset == byte_offset(
                    t@,
                    out@[k].start as int,
                ) && out@[k].end_offset == byte_offset(t@, out@[k].end as int),
        decreases spans@.len() - j,
    {
        let sp = spans[j];
        assert(span_pair(spans@[j as int]) == ls[j as int]);
        assert(ls.take(j as int + 1).drop_last() =~= ls.take(j as int));
        let line = slice_chars(t, sp.start, sp.end);
        let found = matcher.title_of(line.as_str());
        if let Some(title) = found {
            let ghost before = out@;
            out.push(Marker { start: sp.start, end: sp.end, start_offset: sp.start_byte, end_offset: sp.end_byte, title });
            assert(markers_view(out@) =~= markers_view(before).push(marker_view(out@.last())));
        }
        j = j + 1;
    }
    assert(ls.take(spans@.len() as int) =~= ls);
    out
}

/// The chapter of heading `i`, unless its trimmed text is empty.
fn chapter_at(t: &Vec<char>, ms: &Vec<Marker>, i: usize, total: usize) -> (r: Option<Chapter>)
    requires
        byte_len(t@) <= usize::MAX,
        total == byte_len(t@),
        i < ms@.len(),
        forall|k: int|
            0 <= k < ms@.len() ==> 0 <= (#[trigger] markers_view(ms@)[k]).0
                <= markers_view(ms@)[k].1 <= t@.len(),
        forall|k: int|
            0 <= k < ms@.len() ==> (#[trigger] ms@[k]).start_offset == byte_offset(t@, ms@[k].start as int)
                && ms@[k].end_offset == byte_offset(t@, ms@[k].end as int),
    ensures
        match r {
            Some(c) => chapter_for(t@, markers_view(ms@), i as int) == Some(c@),
            None => chapter_for(t@, markers_view(ms@), i as int) is None,
        },
{
    let ghost msv = markers_view(ms@);
    let n = t.len();
    let m = &ms[i];
    assert(msv[i as int] == marker_view(ms@[i as int]));
    let e = m.end;
    let mut cs = e;
    let mut cs_byte = m.end_offset;
    proof {
        assert(t@.subrange(0, n as int) =~= t@);
        lemma_byte_offset_monotone(t@, e as int, n as int);
    }
    if e < n && (t[e] == '\n' || t[e] == '\r') {
        proof {
            lemma_byte_offset_step(t@, e as int);
            lemma_byte_offset_monotone(t@, e as int + 1, n as int);
        }
        if t[e] == '\r' && e + 1 < n && t[e + 1] == '\n' {
            proof {
                lemma_byte_offset_step(t@, e as int + 1);
                lemma_byte_offset_monotone(t@, e as int + 2, n as int);
            }
            cs = e + 2;
            cs_byte = cs_byte + 2;
        } else {
            cs = e + 1;
            cs_byte = cs_byte + 1;
        }
    }
    assert(cs == content_start(t@, msv[i as int].1));
    let (ce, ce_byte) = if ms.len() - i > 1 {
        assert(msv[i as int + 1] == marker_view(ms@[i as int + 1]));
        (ms[i + 1].start, ms[i + 1].start_offset)
    } else {
        (n, total)
    };
    assert(ce == content_end(t@, msv, i as int));
    if ce > cs {
        let content = trim(slice_chars(t, cs, ce).as_str());
        if !content.as_str().is_empty() {
            return Some(Chapter { title: m.title.clone(), content, start_pos: cs_byte, end_pos: ce_byte });
        }
    }
    None
}

/// Splits `text` into chapters at its heading lines.
///
/// Each heading's chapter is the trimmed text from the line after the
/// heading up to the next heading, or to the end of the document; text
/// before the first heading belongs to no chapter, and chapters whose text
/// is blank are dropped. Where no chapter remains, the whole document is
/// the one chapter, titled `"Complete Text"`; so it is where no heading
/// pattern compiles.
pub fn identify_chapters_by_regex(text: &str) -> (r: Vec<Chapter>)
    requires
        byte_len(text@) <= usize::MAX,
    ensures
        chapters_view(r@) == segment(text@),
{
    let t = chars_of(text);
    let n = t.len();
    let spans = index_chars(&t);
    proof {
        crate::indexer::lemma_lines_bounds(t@);
    }
    let last = spans[spans.len() - 1];
    let total = last.end_byte;
    assert(t@.subrange(0, n as int) =~= t@);
    let matcher = MarkerMatcher::new();
    if matcher.is_unusable() {
        proof {
            lemma_unusable_patterns_whole_document(t@);
        }
        let mut v: Vec<Chapter> = Vec::new();
        v.push(whole_chapter(text, total));
        assert(chapters_view(v@) =~= seq![whole_document(text@)]);
        return v;
    }
    let ms = find_markers(&t, &spans, &matcher);
    let ghost msv = markers_view(ms@);
    proof {
        lemma_markers_bounds(t@, lines(t@));
    }
    let mut out: Vec<Chapter> = Vec::new();
    let mut i: usize = 0;
    while i < ms.len()
        invariant
            t@ == text@,
            n == t@.len(),
            byte_len(t@) <= usize::MAX,
            total == byte_len(t@),
            msv == markers_view(ms@),
            msv == markers(t@),
            forall|k: int| 0 <= k < msv.len() ==> 0 <= (#[trigger] msv[k]).0 <= msv[k].1 <= t@.len(),
            forall|k: int|
                0 <= k < ms@.len() ==> (#[trigger] ms@[k]).start_offset == byte_offset(t@, ms@[k].start as int)
                    && ms@[k].end_offset == byte_offset(t@, ms@[k].end as int),
            i <= ms@.len(),
            chapters_view(out@) == chapters_upto(t@, msv, i as int),
        decreases ms@.len() - i,
    {
        let found = chapter_at(&t, &ms, i, total);
        if let Some(c) = found {
            let ghost before = out@;
            out.push(c);
            assert(chapters_view(out@) =~= chapters_view(before).push(out@.last()@));
        }
        i = i + 1;
    }
    if out.len() == 0 {
        let mut v: Vec<Chapter> = Vec::new();
        v.push(whole_chapter(text, total));
        assert(chapters_view(v@) =~= seq![whole_document(text@)]);
        v
    } else {
        out
    }
}

/// A document in which no line is a heading is one chapter, titled
/// `"Complete Text"`, that spans the whole document.
pub proof fn lemma_no_markers_whole_document(t: Seq<char>)
    requires
        markers(t).len() == 0,
    ensures
        segment(t) == seq![whole_document(t)],
        whole_document(t).start_pos == 0,
        whole_document(t).end_pos == byte_len(t),
        whole_document(t).content == t,
{
}

proof fn lemma_unusable_no_markers(t: Seq<char>, ls: Seq<(int, int)>)
    requires
        forall|j: int| 0 <= j < PATTERN_COUNT ==> !regex_compiles(#[trigger] pattern_text(j)),
    ensures
        markers_in(t, ls).len() == 0,
    decreases ls.len(),
{
    if ls.len() > 0 {
        lemma_unusable_no_markers(t, ls.drop_last());
        let (s, e) = ls.last();
        lemma_unusable_matches_nothing(trim_of(t.subrange(s, e)), 0);
    }
}

/// Where no heading pattern compiles, the whole document is the one
/// chapter.
pub proof fn lemma_unusable_patterns_whole_document(t: Seq<char>)
    requires
        forall|j: int| 0 <= j < PATTERN_COUNT ==> !regex_compiles(#[trigger] pattern_text(j)),
    ensures
        segment(t) == seq![whole_document(t)],
{
    lemma_unusable_no_markers(t, lines(t));
}

/// Lines of a document come in order: each ends before the next starts.
proof fn lemma_lines_ordered(t: Seq<char>)
    ensures
        forall|j: int, k: int| 0 <= j < k < lines(t).len() ==> (#[trigger] lines(t)[j]).1 < (#[trigger] lines(t)[k]).0,
{
    let ls = lines(t);
    crate::indexer::lemma_line_offsets_accumulate(t);
    crate::indexer::lemma_lines_bounds(t);
    assert forall|j: int, k: int| 0 <= j < k < ls.len() implies (#[trigger] ls[j]).1 < (#[trigger] ls[k]).0 by {
        lemma_lines_ordered_from(t, j, k);
    }
}

proof fn lemma_lines_ordered_from(t: Seq<char>, j: int, k: int)
    requires
        0 <= j < k < lines(t).len(),
        forall|i: int| 0 < i < lines(t).len() ==> #[trigger] lines(t)[i].0 == lines(t)[i - 1].1 + 1,
        forall|i: int| 0 <= i < lines(t).len() ==> 0 <= (#[trigger] lines(t)[i]).0 <= lines(t)[i].1 <= t.len(),
    ensures
        lines(t)[j].1 < lines(t)[k].0,
    decreases k - j,
{
    if k > j + 1 {
        lemma_lines_ordered_from(t, j, k - 1);
        assert(lines(t)[k - 1].0 <= lines(t)[k - 1].1);
    }
}

/// Every heading among lines that all end before `x` ends before `x`.
proof fn lemma_markers_below(t: Seq<char>, ls: Seq<(int, int)>, x: int)
    requires
        forall|i: int| 0 <= i < ls.len() ==> (#[trigger] ls[i]).1 < x,
    ensures
        forall|k: int| 0 <= k < markers_in(t, ls).len() ==> (#[trigger] markers_in(t, ls)[k]).1 < x,
    decreases ls.len(),
{
    if ls.len() > 0 {
        assert forall|i: int| 0 <= i < ls.drop_last().len() implies (#[trigger] ls.drop_last()[i]).1 < x by {
            assert(ls.drop_last()[i] == ls[i]);
        }
        lemma_markers_below(t, ls.drop_last(), x);
        assert(ls.last() == ls[ls.len() - 1]);
        let before = markers_in(t, ls.drop_last());
        let (s, e) = ls.last();
        match line_title(t.subrange(s, e)) {
            Some(title) => {
                let m = before.push((s, e, title));
                assert forall|k: int| 0 <= k < m.len() implies (#[trigger] m[k]).1 < x by {
                    if k < before.len() {
                        assert(m[k] == before[k]);
                    }
                }
            },
            None => {},
        }
    }
}

/// Headings come in order, as their lines do.
proof fn lemma_markers_ordered(t: Seq<char>, ls: Seq<(int, int)>)
    requires
        forall|j: int, k: int| 0 <= j < k < ls.len() ==> (#[trigger] ls[j]).1 < (#[trigger] ls[k]).0,
    ensures
        forall|j: int, k: int|
            0 <= j < k < markers_in(t, ls).len() ==> (#[trigger] markers_in(t, ls)[j]).1 < (
            #[trigger] markers_in(t, ls)[k]).0,
    decreases ls.len(),
{
    if ls.len() > 0 {
        let d = ls.drop_last();
        assert forall|j: int, k: int| 0 <= j < k < d.len() implies (#[trigger] d[j]).1 < (#[trigger] d[k]).0 by {
            assert(d[j] == ls[j] && d[k] == ls[k]);
        }
        lemma_markers_ordered(t, d);
        let last = ls[ls.len() - 1];
        assert(ls.last() == last);
        assert forall|i: int| 0 <= i < d.len() implies (#[trigger] d[i]).1 < last.0 by {
            assert(d[i] == ls[i]);
        }
        lemma_markers_below(t, d, last.0);
        let before = markers_in(t, d);
        match line_title(t.subrange(last.0, last.1)) {
            Some(title) => {
                let m = before.push((last.0, last.1, title));
                assert forall|j: int, k: int| 0 <= j < k < m.len() implies (#[trigger] m[j]).1 < (
                #[trigger] m[k]).0 by {
                    assert(m[j] == before[j]);
                    if k < before.len() {
                        assert(m[k] == before[k]);
                    }
                }
            },
            None => {},
        }
    }
}

/// Where chapters of headings up to `n` may end: at the start of heading
/// `n`, or at the end of the document.
pub open spec fn upto_bound(t: Seq<char>, ms: Seq<(int, int, Seq<char>)>, n: int) -> int {
    if n < ms.len() {
        ms[n].0
    } else {
        t.len() as int
    }
}

proof fn lemma_chapters_ordered(t: Seq<char>, ms: Seq<(int, int, Seq<char>)>, n: int)
    requires
        0 <= n <= ms.len(),
        forall|k: int| 0 <= k < ms.len() ==> 0 <= (#[trigger] ms[k]).0 <= ms[k].1 <= t.len(),
        forall|j: int, k: int| 0 <= j < k < ms.len() ==> (#[trigger] ms[j]).1 < (#[trigger] ms[k]).0,
    ensures
        spans_ordered(chapters_upto(t, ms, n)),
        forall|k: int|
            0 <= k < chapters_upto(t, ms, n).len() ==> (#[trigger] chapters_upto(t, ms, n)[k]).end_pos
                <= byte_offset(t, upto_bound(t, ms, n)),
    decreases n,
{
    if n > 0 {
        lemma_chapters_ordered(t, ms, n - 1);
        let before = chapters_upto(t, ms, n - 1);
        let i = n - 1;
        let b0 = upto_bound(t, ms, i);
        let b1 = upto_bound(t, ms, n);
        assert(b0 == ms[i].0);
        if n < ms.len() {
            assert(ms[i].1 < ms[n].0);
        }
        assert(b0 <= b1 <= t.len());
        lemma_byte_offset_monotone(t, b0, b1);
        match chapter_for(t, ms, i) {
            Some(c) => {
                let cs = content_start(t, ms[i].1);
                let ce = content_end(t, ms, i);
                assert(ce == b1);
                assert(ms[i].0 <= cs <= t.len());
                lemma_byte_offset_monotone(t, b0, cs);
                lemma_byte_offset_strict(t, cs, ce);
                let now = before.push(c);
                assert forall|k: int| 0 <= k < now.len() implies (#[trigger] now[k]).end_pos <= byte_offset(t, b1) by {
                    if k < before.len() {
                        assert(now[k] == before[k]);
                    }
                }
                assert forall|k: int| 0 <= k < now.len() implies (#[trigger] now[k]).start_pos < now[k].end_pos
                    && now[k].content.len() > 0 by {
                    if k < before.len() {
                        assert(now[k] == before[k]);
                    }
                }
                assert forall|j: int, k: int| 0 <= j < k < now.len() implies (#[trigger] now[j]).end_pos
                    <= (#[trigger] now[k]).start_pos by {
                    assert(now[j] == before[j]);
                    if k < before.len() {
                        assert(now[k] == before[k]);
                    }
                }
            },
            None => {},
        }
    }
}

/// For every non-empty document, the chapters' spans are ordered and do not
/// overlap, each span is non-empty, and no chapter's content is empty.
pub proof fn lemma_segment_spans_ordered(t: Seq<char>)
    requires
        t.len() > 0,
    ensures
        spans_ordered(segment(t)),
{
    let ls = lines(t);
    crate::indexer::lemma_lines_bounds(t);
    lemma_lines_ordered(t);
    lemma_markers_bounds(t, ls);
    lemma_markers_ordered(t, ls);
    let ms = markers(t);
    lemma_chapters_ordered(t, ms, ms.len() as int);
    if chapters_upto(t, ms, ms.len() as int).len() == 0 {
        lemma_byte_offset_strict(t, 0, t.len() as int);
        assert(t.subrange(0, t.len() as int) =~= t);
        assert(t.subrange(0, 0) =~= Seq::<char>::empty());
        assert(byte_offset(t, 0) == 0);
    }
}

proof fn lemma_markers_bounds(t: Seq<char>, ls: Seq<(int, int)>)
    requires
        forall|k: int| 0 <= k < ls.len() ==> 0 <= (#[trigger] ls[k]).0 <= ls[k].1 <= t.len(),
    ensures
        forall|k: int|
            0 <= k < markers_in(t, ls).len() ==> 0 <= (#[trigger] markers_in(t, ls)[k]).0
                <= markers_in(t, ls)[k].1 <= t.len(),
    decreases ls.len(),
{
    if ls.len() > 0 {
        let before = markers_in(t, ls.drop_last());
        let (s, e) = ls.last();
        assert forall|k: int| 0 <= k < ls.drop_last().len() implies 0 <= (#[trigger] ls.drop_last()[k]).0
            <= ls.drop_last()[k].1 <= t.len() by {
            assert(ls.drop_last()[k] == ls[k]);
        }
        lemma_markers_bounds(t, ls.drop_last());
        assert(ls.last() == ls[ls.len() - 1]);
        assert(0 <= s <= e <= t.len());
        match line_title(t.subrange(s, e)) {
            Some(title) => {
                assert forall|k: int| 0 <= k < before.push((s, e, title)).len() implies 0
                    <= (#[trigger] before.push((s, e, title))[k]).0 <= before.push((s, e, title))[k].1
                    <= t.len() by {
                    if k < before.len() {
                        assert(before.push((s, e, title))[k] == before[k]);
                    }
                }
            },
            None => {},
        }
    }
}

} // verus!
