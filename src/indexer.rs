//! Line offsets of a document, found by accumulation.
//!
//! Each line's offsets follow from the lengths of the lines before it, never
//! from searching the document for the line's text, so a line that repeats
//! elsewhere always gets its own position.
use vstd::prelude::*;
use crate::text::{byte_len, byte_offset, chars_of, lemma_byte_offset_monotone, lemma_byte_offset_step, width_of};

verus! {

/// One line of a document: character indices `start..end` of its text
/// (without the line feed) and the matching byte offsets.
#[derive(Debug, Clone, Copy, PartialEq, Eq, Structural)]
pub struct LineSpan {
    pub start: usize,
    pub end: usize,
    pub start_byte: usize,
    pub end_byte: usize,
}

/// The lines that end before character index `i`, as `(start, end)` pairs,
/// together with the start of the line that is open at `i`.
pub open spec fn scan_lines(t: Seq<char>, i: int) -> (Seq<(int, int)>, int)
    decreases i,
{
    if i <= 0 {
        (Seq::empty(), 0)
    } else {
        let (done, open) = scan_lines(t, i - 1);
        if t[i - 1] == '\n' {
            (done.push((open, i - 1)), i)
        } else {
            (done, open)
        }
    }
}

/// The lines of `t`, split at each line feed, as `(start, end)` character
/// indices. A document always has at least one line, possibly empty.
pub open spec fn lines(t: Seq<char>) -> Seq<(int, int)> {
    let (done, open) = scan_lines(t, t.len() as int);
    done.push((open, t.len() as int))
}

pub open spec fn span_pair(l: LineSpan) -> (int, int) {
    (l.start as int, l.end as int)
}

/// The spans carry the lines of `t` and the byte offsets of their ends.
pub open spec fn spans_of(t: Seq<char>, v: Seq<LineSpan>) -> bool {
    &&& v.map_values(|l: LineSpan| span_pair(l)) == lines(t)
    &&& forall|j: int|
        0 <= j < v.len() ==> (#[trigger] v[j]).start_byte == byte_offset(t, v[j].start as int)
            && v[j].end_byte == byte_offset(t, v[j].end as int)
}

proof fn lemma_scan_bounds(t: Seq<char>, i: int)
    requires
        0 <= i <= t.len(),
    ensures
        0 <= scan_lines(t, i).1 <= i,
        forall|j: int|
            0 <= j < scan_lines(t, i).0.len() ==> {
                let p = #[trigger] scan_lines(t, i).0[j];
                0 <= p.0 <= p.1 < scan_lines(t, i).1
            },
    decreases i,
{
    if i > 0 {
        lemma_scan_bounds(t, i - 1);
    }
}

proof fn lemma_scan_accumulates(t: Seq<char>, i: int)
    requires
        0 <= i <= t.len(),
    ensures
        ({
            let (done, open) = scan_lines(t, i);
            &&& done.len() == 0 ==> open == 0
            &&& done.len() > 0 ==> done[0].0 == 0 && open == done.last().1 + 1
            &&& forall|k: int| 0 < k < done.len() ==> #[trigger] done[k].0 == done[k - 1].1 + 1
            &&& forall|k: int| 0 <= k < done.len() ==> t[#[trigger] done[k].1] == '\n'
            &&& forall|k: int, j: int|
                #![trigger done[k], t[j]]
                0 <= k < done.len() && done[k].0 <= j < done[k].1 ==> t[j] != '\n'
            &&& forall|j: int| open <= j < i ==> #[trigger] t[j] != '\n'
        }),
    decreases i,
{
    if i > 0 {
        lemma_scan_accumulates(t, i - 1);
        lemma_scan_bounds(t, i - 1);
        let (done, open) = scan_lines(t, i - 1);
        if t[i - 1] == '\n' {
            let nd = done.push((open, i - 1));
            assert forall|k: int| 0 < k < nd.len() implies #[trigger] nd[k].0 == nd[k - 1].1 + 1 by {
                if k < done.len() {
                    assert(nd[k] == done[k] && nd[k - 1] == done[k - 1]);
                }
            }
            assert forall|k: int| 0 <= k < nd.len() implies t[#[trigger] nd[k].1] == '\n' by {
                if k < done.len() {
                    assert(nd[k] == done[k]);
                }
            }
            assert forall|k: int, j: int|
                #![trigger nd[k], t[j]]
                0 <= k < nd.len() && nd[k].0 <= j < nd[k].1 implies t[j] != '\n' by {
                if k < done.len() {
                    assert(nd[k] == done[k]);
                }
            }
        }
    }
}

/// The line offsets follow from a running total alone: the first line
/// starts at 0, each later line starts just after the line feed that ends
/// the line before it, no line holds a line feed, and the last line ends
/// with the document. A line whose text repeats elsewhere therefore still
/// gets its own offsets.
pub proof fn lemma_line_offsets_accumulate(t: Seq<char>)
    ensures
        lines(t)[0].0 == 0,
        lines(t).last().1 == t.len(),
        forall|k: int| 0 < k < lines(t).len() ==> #[trigger] lines(t)[k].0 == lines(t)[k - 1].1 + 1,
        forall|k: int| 0 <= k < lines(t).len() - 1 ==> t[#[trigger] lines(t)[k].1] == '\n',
        forall|k: int, j: int|
            #![trigger lines(t)[k], t[j]]
            0 <= k < lines(t).len() && lines(t)[k].0 <= j < lines(t)[k].1 ==> t[j] != '\n',
{
    let n = t.len() as int;
    lemma_scan_accumulates(t, n);
    let (done, open) = scan_lines(t, n);
    let ls = lines(t);
    assert(ls == done.push((open, n)));
    assert forall|k: int| 0 < k < ls.len() implies #[trigger] ls[k].0 == ls[k - 1].1 + 1 by {
        if k < done.len() {
            assert(ls[k] == done[k] && ls[k - 1] == done[k - 1]);
        } else {
            assert(ls[k - 1] == done.last());
        }
    }
    assert forall|k: int| 0 <= k < ls.len() - 1 implies t[#[trigger] ls[k].1] == '\n' by {
        assert(ls[k] == done[k]);
    }
    assert forall|k: int, j: int|
        #![trigger ls[k], t[j]]
        0 <= k < ls.len() && ls[k].0 <= j < ls[k].1 implies t[j] != '\n' by {
        if k < done.len() {
            assert(ls[k] == done[k]);
        }
    }
}

/// Every line lies within the document, and there is at least one.
pub proof fn lemma_lines_bounds(t: Seq<char>)
    ensures
        lines(t).len() >= 1,
        lines(t).last().1 == t.len(),
        forall|k: int|
            0 <= k < lines(t).len() ==> 0 <= (#[trigger] lines(t)[k]).0 <= lines(t)[k].1 <= t.len(),
{
    lemma_scan_bounds(t, t.len() as int);
}

/// The lines of a document, with their character indices and byte offsets.
pub fn index_chars(t: &Vec<char>) -> (r: Vec<LineSpan>)
    requires
        byte_len(t@) <= usize::MAX,
    ensures
        spans_of(t@, r@),
{
    let ghost s = t@;
    let n = t.len();
    let mut out: Vec<LineSpan> = Vec::new();
    let mut open: usize = 0;
    let mut open_byte: usize = 0;
    let mut i: usize = 0;
    let mut i_byte: usize = 0;
    proof {
        assert(s.subrange(0, n as int) =~= s);
    }
    while i < n
        invariant
            s == t@,
            n == s.len(),
            byte_len(s) <= usize::MAX,
            byte_offset(s, n as int) == byte_len(s),
            0 <= open <= i <= n,
            scan_lines(s, i as int) == (out@.map_values(|l: LineSpan| span_pair(l)), open as int),
            open_byte == byte_offset(s, open as int),
            i_byte == byte_offset(s, i as int),
            forall|j: int|
                0 <= j < out@.len() ==> (#[trigger] out@[j]).start_byte == byte_offset(
                    s,
                    out@[j].start as int,
                ) && out@[j].end_byte == byte_offset(s, out@[j].end as int),
        decreases n - i,
    {
        let c = t[i];
        proof {
            lemma_byte_offset_step(s, i as int);
            lemma_byte_offset_monotone(s, i as int + 1, n as int);
        }
        let w = width_of(c);
        if c == '\n' {
            let ghost old_out = out@;
            out.push(LineSpan { start: open, end: i, start_byte: open_byte, end_byte: i_byte });
            assert(out@.map_values(|l: LineSpan| span_pair(l)) =~= old_out.map_values(
                |l: LineSpan| span_pair(l),
            ).push((open as int, i as int)));
            open = i + 1;
            open_byte = i_byte + w;
        }
        i = i + 1;
        i_byte = i_byte + w;
    }
    let ghost before = out@;
    out.push(LineSpan { start: open, end: n, start_byte: open_byte, end_byte: i_byte });
    assert(out@.map_values(|l: LineSpan| span_pair(l)) =~= before.map_values(
        |l: LineSpan| span_pair(l),
    ).push((open as int, n as int)));
    out
}

/// The lines of `text`, with their character indices and byte offsets.
pub fn index_lines(text: &str) -> (r: Vec<LineSpan>)
    requires
        byte_len(text@) <= usize::MAX,
    ensures
        spans_of(text@, r@),
{
    let t = chars_of(text);
    index_chars(&t)
}

} // verus!
