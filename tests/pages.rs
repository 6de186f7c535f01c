use chapterizer::judge::{pair_prompt, single_prompt};
use chapterizer::xhtml::{chapter_xhtml, paragraphs, render_body};
use chapterizer::LLMResponse;

#[test]
fn paragraphs_split_at_blank_lines() {
    assert_eq!(paragraphs("a\n\nb\n\n\nc"), vec!["a".to_string(), "b".to_string(), "\nc".to_string()]);
    assert_eq!(paragraphs(""), vec!["".to_string()]);
    assert_eq!(paragraphs("x\n\n"), vec!["x".to_string(), "".to_string()]);
}

#[test]
fn body_escapes_and_skips_blank_paragraphs() {
    assert_eq!(render_body(" a < b \n\n\n\n  \n\nTom & Jerry>"), "<p>a &lt; b</p>\n<p>Tom &amp; Jerry&gt;</p>");
    assert_eq!(render_body("  "), "");
}

#[test]
fn page_holds_escaped_title_and_body() {
    let page = chapter_xhtml("A<B", "x\n\ny");
    assert_eq!(
        page,
        "<?xml version=\"1.0\" encoding=\"utf-8\"?>\n<!DOCTYPE html>\n<html xmlns=\"http://www.w3.org/1999/xhtml\">\n<head>\n  <title>A&lt;B</title>\n</head>\n<body>\n  <h1>A&lt;B</h1>\n  <p>x</p>\n<p>y</p>\n</body>\n</html>"
    );
}

#[test]
fn prompts_carry_the_contents() {
    let p = single_prompt("BODY");
    assert!(p.starts_with("Analyze this text segment"));
    assert!(p.contains("\n\nContent: BODY\n\nRespond with JSON: {\"is_valid\": boolean"));
    let q = pair_prompt("ONE", "TWO");
    assert!(q.contains("\n\nFirst segment: ONE\n\nSecond segment: TWO\n\nRespond with JSON"));
}

#[test]
fn unreadable_answer_is_neutral() {
    let r = LLMResponse::decoded_or_neutral(None);
    assert!(r.is_valid);
    assert!(r.suggested_title.is_none());
    let d = LLMResponse {
        is_valid: false,
        suggested_title: Some("T".to_string()),
        has_content_modified: false,
        suggestions: None,
    };
    let r = LLMResponse::decoded_or_neutral(Some(d));
    assert!(!r.is_valid);
    assert_eq!(r.suggested_title, Some("T".to_string()));
}
