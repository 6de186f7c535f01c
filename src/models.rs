use vstd::prelude::*;

verus! {

/// A chapter of a document.
///
/// `start_pos` and `end_pos` are byte offsets into the document that delimit
/// the chapter's text before it was trimmed into `content`.
#[derive(Debug, Clone)]
pub struct Chapter {
    pub title: String,
    pub content: String,
    pub start_pos: usize,
    pub end_pos: usize,
}

/// The mathematical value of a [`Chapter`].
pub struct ChapterView {
    pub title: Seq<char>,
    pub content: Seq<char>,
    pub start_pos: int,
    pub end_pos: int,
}

impl View for Chapter {
    type V = ChapterView;

    open spec fn view(&self) -> ChapterView {
        ChapterView {
            title: self.title@,
            content: self.content@,
            start_pos: self.start_pos as int,
            end_pos: self.end_pos as int,
        }
    }
}

/// The mathematical value of a list of chapters.
pub open spec fn chapters_view(v: Seq<Chapter>) -> Seq<ChapterView> {
    v.map_values(|c: Chapter| c@)
}

/// The chapters' spans are ordered and do not overlap, each span is
/// non-empty, and no chapter's content is empty.
pub open spec fn spans_ordered(cs: Seq<ChapterView>) -> bool {
    &&& forall|i: int|
        0 <= i < cs.len() ==> (#[trigger] cs[i]).start_pos < cs[i].end_pos && cs[i].content.len() > 0
    &&& forall|i: int, j: int|
        0 <= i < j < cs.len() ==> (#[trigger] cs[i]).end_pos <= (#[trigger] cs[j]).start_pos
}

/// The final chapters of a document together with the identifier of the
/// book that was built from them.
#[derive(Debug)]
pub struct ProcessResult {
    pub chapters: Vec<Chapter>,
    pub epub_id: String,
}

/// A verdict of the chapter judge.
#[derive(Debug)]
pub struct LLMResponse {
    pub is_valid: bool,
    pub suggested_title: Option<String>,
    pub has_content_modified: bool,
    pub suggestions: Option<String>,
}

impl LLMResponse {
    /// The verdict used when the judge's answer cannot be read: the boundary
    /// is kept and nothing is renamed.
    pub fn neutral() -> (r: LLMResponse)
        ensures
            r.is_valid,
            r.suggested_title.is_none(),
            !r.has_content_modified,
            r.suggestions.is_none(),
    {
        LLMResponse { is_valid: true, suggested_title: None, has_content_modified: false, suggestions: None }
    }
}

} // verus!
