//! Refinement of a chapter list by an outside judge.
//!
//! The judge is consulted once per chapter (it may suggest a better title)
//! and then on adjacent pairs (it may declare their boundary wrong, and the
//! two are merged). The judge's calls happen outside the library: the
//! [`BoundaryRefiner`] says which call comes next and takes its outcome.
use vstd::prelude::*;
use vstd::string::StringExecFns;
use crate::segmenter::{lemma_segment_spans_ordered, segment};
use crate::models::{chapters_view, spans_ordered, Chapter, ChapterView, LLMResponse};

verus! {

/// What the judge said, as far as refinement reads it.
pub struct VerdictView {
    pub is_valid: bool,
    pub suggested_title: Option<Seq<char>>,
}

pub open spec fn verdict_view(o: Option<LLMResponse>) -> Option<VerdictView> {
    match o {
        Some(r) => Some(
            VerdictView {
                is_valid: r.is_valid,
                suggested_title: match r.suggested_title {
                    Some(t) => Some(t@),
                    None => None,
                },
            },
        ),
        None => None,
    }
}

/// The state of refinement: the chapters, the pass (per chapter first, then
/// over adjacent pairs) and the cursor into the chapters.
pub struct RefineState {
    pub chapters: Seq<ChapterView>,
    pub first_pass: bool,
    pub cursor: int,
}

/// The first pass ends when its cursor has passed every chapter; the
/// second pass then starts at the first chapter.
pub open spec fn settle(s: RefineState) -> RefineState {
    if s.first_pass && s.cursor >= s.chapters.len() {
        RefineState { chapters: s.chapters, first_pass: false, cursor: 0 }
    } else {
        s
    }
}

pub open spec fn start_state(chs: Seq<ChapterView>) -> RefineState {
    settle(RefineState { chapters: chs, first_pass: true, cursor: 0 })
}

pub open spec fn state_wf(s: RefineState) -> bool {
    &&& 0 <= s.cursor
    &&& s.first_pass ==> s.cursor < s.chapters.len()
    &&& !s.first_pass ==> (s.cursor < s.chapters.len() || s.chapters.len() == 0)
}

/// Refinement is over: the second pass has no pair left to compare.
pub open spec fn finished(s: RefineState) -> bool {
    !s.first_pass && s.cursor + 1 >= s.chapters.len()
}

/// A chapter after the per-chapter call: where the call reported it valid
/// and offered a title, it takes that title; otherwise, a failed call
/// included, it stays as it was.
pub open spec fn retitle(c: ChapterView, v: Option<VerdictView>) -> ChapterView {
    match v {
        Some(verdict) => if verdict.is_valid && verdict.suggested_title is Some {
            ChapterView { title: verdict.suggested_title.unwrap(), ..c }
        } else {
            c
        },
        None => c,
    }
}

/// Two adjacent chapters made one: the contents joined by a blank line,
/// the span extended to the end of the second.
pub open spec fn merge(a: ChapterView, b: ChapterView) -> ChapterView {
    ChapterView {
        title: a.title,
        content: a.content + "\n\n"@ + b.content,
        start_pos: a.start_pos,
        end_pos: b.end_pos,
    }
}

/// One step of refinement on the judge's verdict for the current call;
/// `None` stands for a call that failed.
pub open spec fn step(s: RefineState, v: Option<VerdictView>) -> RefineState {
    let c = s.cursor;
    if s.first_pass {
        settle(
            RefineState {
                chapters: s.chapters.update(c, retitle(s.chapters[c], v)),
                first_pass: true,
                cursor: c + 1,
            },
        )
    } else if v is Some && !v.unwrap().is_valid {
        RefineState {
            chapters: s.chapters.update(c, merge(s.chapters[c], s.chapters[c + 1])).remove(c + 1),
            first_pass: false,
            cursor: c,
        }
    } else {
        RefineState { chapters: s.chapters, first_pass: false, cursor: c + 1 }
    }
}

/// A bound on the steps that refinement still takes.
pub open spec fn refine_measure(s: RefineState) -> nat {
    if s.first_pass {
        (3 * s.chapters.len() - s.cursor + 1) as nat
    } else {
        (2 * s.chapters.len() - s.cursor) as nat
    }
}

/// Each step keeps the state well formed, brings refinement closer to its
/// end, and never adds a chapter.
pub proof fn lemma_step_progress(s: RefineState, v: Option<VerdictView>)
    requires
        state_wf(s),
        !finished(s),
    ensures
        state_wf(step(s, v)),
        refine_measure(step(s, v)) < refine_measure(s),
        step(s, v).chapters.len() <= s.chapters.len(),
{
}

/// Refinement run to its end, where `judge` gives the verdict of each call
/// from the state in which it is made (`None` for a call that failed).
pub open spec fn refine(s: RefineState, judge: spec_fn(RefineState) -> Option<VerdictView>) -> RefineState
    decreases refine_measure(s),
{
    if !state_wf(s) || finished(s) {
        s
    } else {
        refine(step(s, judge(s)), judge)
    }
}

/// Refinement always ends, whatever the judge says, and its merge sweep
/// never increases the number of chapters.
pub proof fn lemma_refine_terminates_without_growth(
    s: RefineState,
    judge: spec_fn(RefineState) -> Option<VerdictView>,
)
    requires
        state_wf(s),
    ensures
        state_wf(refine(s, judge)),
        finished(refine(s, judge)),
        refine(s, judge).chapters.len() <= s.chapters.len(),
    decreases refine_measure(s),
{
    if !finished(s) {
        lemma_step_progress(s, judge(s));
        lemma_refine_terminates_without_growth(step(s, judge(s)), judge);
    }
}

/// Where every call of the judge fails, refinement changes no chapter.
pub proof fn lemma_fail_open_keeps_chapters(s: RefineState, judge: spec_fn(RefineState) -> Option<VerdictView>)
    requires
        state_wf(s),
        forall|st: RefineState| #[trigger] judge(st) is None,
    ensures
        refine(s, judge).chapters == s.chapters,
    decreases refine_measure(s),
{
    if !finished(s) {
        lemma_step_progress(s, judge(s));
        assert(judge(s) is None);
        if s.first_pass {
            assert(s.chapters.update(s.cursor, retitle(s.chapters[s.cursor], judge(s))) =~= s.chapters);
        }
        lemma_fail_open_keeps_chapters(step(s, judge(s)), judge);
    }
}

/// Where every call of the judge fails, the refined chapters are exactly
/// the chapters that refinement started from.
pub proof fn lemma_fail_open(chs: Seq<ChapterView>, judge: spec_fn(RefineState) -> Option<VerdictView>)
    requires
        forall|st: RefineState| #[trigger] judge(st) is None,
    ensures
        refine(start_state(chs), judge).chapters == chs,
{
    lemma_fail_open_keeps_chapters(start_state(chs), judge);
}

/// A step keeps the chapters' spans ordered and their contents non-empty.
pub proof fn lemma_step_keeps_spans_ordered(s: RefineState, v: Option<VerdictView>)
    requires
        state_wf(s),
        !finished(s),
        spans_ordered(s.chapters),
    ensures
        spans_ordered(step(s, v).chapters),
{
    let cs = s.chapters;
    let c = s.cursor;
    if s.first_pass {
        let ns = cs.update(c, retitle(cs[c], v));
        assert forall|i: int, j: int| 0 <= i < j < ns.len() implies (#[trigger] ns[i]).end_pos
            <= (#[trigger] ns[j]).start_pos by {
            assert(cs[i].end_pos <= cs[j].start_pos);
        }
        assert forall|i: int| 0 <= i < ns.len() implies (#[trigger] ns[i]).start_pos < ns[i].end_pos
            && ns[i].content.len() > 0 by {
            assert(cs[i].start_pos < cs[i].end_pos);
        }
    } else if v is Some && !v.unwrap().is_valid {
        let m = merge(cs[c], cs[c + 1]);
        let ns = cs.update(c, m).remove(c + 1);
        assert(cs[c].end_pos <= cs[c + 1].start_pos);
        assert(cs[c + 1].start_pos < cs[c + 1].end_pos);
        assert forall|i: int| 0 <= i < ns.len() implies (#[trigger] ns[i]).start_pos < ns[i].end_pos
            && ns[i].content.len() > 0 by {
            if i < c {
                assert(ns[i] == cs[i]);
            } else if i == c {
                assert(ns[i] == m);
            } else {
                assert(ns[i] == cs[i + 1]);
            }
        }
        assert forall|i: int, j: int| 0 <= i < j < ns.len() implies (#[trigger] ns[i]).end_pos
            <= (#[trigger] ns[j]).start_pos by {
            let oi = if i <= c { i } else { i + 1 };
            let oj = if j < c { j } else { j + 1 };
            if i == c {
                assert(ns[i].end_pos == cs[c + 1].end_pos);
                assert(cs[c + 1].end_pos <= cs[oj].start_pos);
            } else if j == c {
                assert(ns[j].start_pos == cs[c].start_pos);
                assert(cs[oi].end_pos <= cs[c].start_pos);
            } else {
                assert(ns[i] == cs[oi]);
                assert(ns[j] == cs[oj]);
                assert(cs[oi].end_pos <= cs[oj].start_pos);
            }
        }
    }
}

/// Refinement keeps the chapters' spans ordered, non-overlapping and
/// non-empty.
pub proof fn lemma_refine_keeps_spans_ordered(
    s: RefineState,
    judge: spec_fn(RefineState) -> Option<VerdictView>,
)
    requires
        state_wf(s),
        spans_ordered(s.chapters),
    ensures
        spans_ordered(refine(s, judge).chapters),
    decreases refine_measure(s),
{
    if !finished(s) {
        lemma_step_progress(s, judge(s));
        lemma_step_keeps_spans_ordered(s, judge(s));
        lemma_refine_keeps_spans_ordered(step(s, judge(s)), judge);
    }
}

/// For every non-empty document, the chapters that refinement of its
/// segmentation ends with have ordered, non-overlapping, non-empty spans and
/// non-empty contents, whatever the judge says.
pub proof fn lemma_final_spans_ordered(t: Seq<char>, judge: spec_fn(RefineState) -> Option<VerdictView>)
    requires
        t.len() > 0,
    ensures
        spans_ordered(refine(start_state(segment(t)), judge).chapters),
{
    lemma_segment_spans_ordered(t);
    lemma_refine_keeps_spans_ordered(start_state(segment(t)), judge);
}

/// The next call that refinement needs.
#[derive(Debug, Clone, Copy, PartialEq, Eq, Structural)]
pub enum RefineAction {
    /// Ask the judge about this chapter alone.
    ValidateChapter(usize),
    /// Ask the judge about the boundary between this chapter and the next.
    CompareAdjacent(usize),
    /// Nothing is left to ask.
    Finished,
}

/// The state machine of refinement.
pub struct BoundaryRefiner {
    chapters: Vec<Chapter>,
    first_pass: bool,
    cursor: usize,
}

impl View for BoundaryRefiner {
    type V = RefineState;

    closed spec fn view(&self) -> RefineState {
        RefineState { chapters: chapters_view(self.chapters@), first_pass: self.first_pass, cursor: self.cursor as int }
    }
}

impl BoundaryRefiner {
    pub open spec fn wf(&self) -> bool {
        state_wf(self@)
    }

    /// Starts refinement of `chapters` with the per-chapter pass.
    pub fn new(chapters: Vec<Chapter>) -> (r: BoundaryRefiner)
        ensures
            r.wf(),
            r@ == start_state(chapters_view(chapters@)),
    {
        let first_pass = chapters.len() > 0;
        BoundaryRefiner { chapters, first_pass, cursor: 0 }
    }

    /// The call that refinement needs next.
    pub fn next_action(&self) -> (r: RefineAction)
        requires
            self.wf(),
        ensures
            self@.first_pass ==> r == RefineAction::ValidateChapter(self@.cursor as usize),
            !self@.first_pass && !finished(self@) ==> r == RefineAction::CompareAdjacent(
                self@.cursor as usize,
            ),
            finished(self@) ==> r == RefineAction::Finished,
    {
        if self.first_pass {
            RefineAction::ValidateChapter(self.cursor)
        } else if self.chapters.len() > 0 && self.cursor < self.chapters.len() - 1 {
            RefineAction::CompareAdjacent(self.cursor)
        } else {
            RefineAction::Finished
        }
    }

    /// Whether refinement is over.
    pub fn is_finished(&self) -> (r: bool)
        requires
            self.wf(),
        ensures
            r == finished(self@),
    {
        !self.first_pass && (self.chapters.len() == 0 || self.cursor >= self.chapters.len() - 1)
    }

    /// The chapters as they stand.
    pub fn chapters(&self) -> (r: &Vec<Chapter>)
        ensures
            chapters_view(r@) == self@.chapters,
    {
        &self.chapters
    }

    /// Ends refinement and hands the chapters back.
    pub fn into_chapters(self) -> (r: Vec<Chapter>)
        ensures
            chapters_view(r@) == self@.chapters,
    {
        self.chapters
    }

    /// Takes the outcome of the call that [`Self::next_action`] asked for;
    /// `None` stands for a call that failed.
    pub fn record(&mut self, outcome: Option<LLMResponse>)
        requires
            old(self).wf(),
            !finished(old(self)@),
        ensures
            final(self).wf(),
            final(self)@ == step(old(self)@, verdict_view(outcome)),
    {
        let ghost s = self@;
        assert(s.chapters.len() == self.chapters@.len());
        assert(s.cursor == self.cursor);
        let n = self.chapters.len();
        let c = self.cursor;
        if self.first_pass {
            let mut renamed = false;
            if let Some(r) = outcome {
                if r.is_valid {
                    if let Some(t) = r.suggested_title {
                        let cur = self.chapters.remove(c);
                        self.chapters.insert(
                            c,
                            Chapter { title: t, content: cur.content, start_pos: cur.start_pos, end_pos: cur.end_pos },
                        );
                        renamed = true;
                    }
                }
            }
            assert(chapters_view(self.chapters@) =~= s.chapters.update(
                c as int,
                retitle(s.chapters[c as int], verdict_view(outcome)),
            )) by {
                if !renamed {
                    assert(s.chapters[c as int] == retitle(s.chapters[c as int], verdict_view(outcome)));
                }
            }
            self.cursor = c + 1;
            if self.cursor >= self.chapters.len() {
                self.first_pass = false;
                self.cursor = 0;
            }
        } else {
            let mut merged = false;
            if let Some(r) = &outcome {
                if !r.is_valid {
                    let next = self.chapters.remove(c + 1);
                    let cur = self.chapters.remove(c);
                    let mut content = cur.content;
                    content.append("\n\n");
                    content.append(next.content.as_str());
                    self.chapters.insert(
                        c,
                        Chapter { title: cur.title, content, start_pos: cur.start_pos, end_pos: next.end_pos },
                    );
                    merged = true;
                    assert(chapters_view(self.chapters@) =~= s.chapters.update(
                        c as int,
                        merge(s.chapters[c as int], s.chapters[c + 1]),
                    ).remove(c + 1));
                }
            }
            if !merged {
                self.cursor = c + 1;
            }
        }
    }
}

} // verus!
