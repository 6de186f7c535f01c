//! What the library asks of the chapter judge, and how it reads the answer.
use vstd::prelude::*;
use vstd::string::StringExecFns;
use crate::models::LLMResponse;

verus! {

/// The answer format that both questions ask for.
pub open spec fn answer_format() -> Seq<char> {
    "\n\nRespond with JSON: {\"is_valid\": boolean, \"suggested_title\": string or null, \"has_content_modified\": false, \"suggestions\": string or null}"@
}

/// The question whether `content` is a complete chapter.
pub open spec fn single_question(content: Seq<char>) -> Seq<char> {
    "Analyze this text segment in any language (including Chinese) and determine if it represents a complete chapter in a book.\n\nContent: "@
        + content + answer_format()
}

/// The question whether the boundary between `first` and `second` is right.
pub open spec fn pair_question(first: Seq<char>, second: Seq<char>) -> Seq<char> {
    "You are reviewing the boundary between two consecutive text segments in any language (including Chinese) that were automatically segmented as chapters. Determine if the segmentation is appropriate.\n\nFirst segment: "@
        + first + "\n\nSecond segment: "@ + second + answer_format()
}

/// The question put to the judge about one chapter's content.
pub fn single_prompt(content: &str) -> (r: String)
    ensures
        r@ == single_question(content@),
{
    let mut p = String::from_str(
        "Analyze this text segment in any language (including Chinese) and determine if it represents a complete chapter in a book.\n\nContent: ",
    );
    p.append(content);
    p.append(
        "\n\nRespond with JSON: {\"is_valid\": boolean, \"suggested_title\": string or null, \"has_content_modified\": false, \"suggestions\": string or null}",
    );
    p
}

/// The question put to the judge about two adjacent chapters' contents.
pub fn pair_prompt(first: &str, second: &str) -> (r: String)
    ensures
        r@ == pair_question(first@, second@),
{
    let mut p = String::from_str(
        "You are reviewing the boundary between two consecutive text segments in any language (including Chinese) that were automatically segmented as chapters. Determine if the segmentation is appropriate.\n\nFirst segment: ",
    );
    p.append(first);
    p.append("\n\nSecond segment: ");
    p.append(second);
    p.append(
        "\n\nRespond with JSON: {\"is_valid\": boolean, \"suggested_title\": string or null, \"has_content_modified\": false, \"suggestions\": string or null}",
    );
    p
}

impl LLMResponse {
    /// The judge's answer as read: the decoded verdict where the answer had
    /// the expected shape, otherwise the neutral verdict.
    pub fn decoded_or_neutral(decoded: Option<LLMResponse>) -> (r: LLMResponse)
        ensures
            decoded is Some ==> r == decoded.unwrap(),
            decoded is None ==> r.is_valid && r.suggested_title is None && !r.has_content_modified
                && r.suggestions is None,
    {
        match decoded {
            Some(v) => v,
            None => LLMResponse::neutral(),
        }
    }
}

} // verus!
