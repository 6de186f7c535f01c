use chapterizer::matcher::MarkerMatcher;
use chapterizer::indexer::index_lines;
use chapterizer::segmenter::identify_chapters_by_regex;
use chapterizer::Chapter;

fn summary(chs: &[Chapter]) -> Vec<(String, String, usize, usize)> {
    chs.iter()
        .map(|c| (c.title.clone(), c.content.clone(), c.start_pos, c.end_pos))
        .collect()
}

fn owned(v: &[(&str, &str, usize, usize)]) -> Vec<(String, String, usize, usize)> {
    v.iter()
        .map(|(t, c, s, e)| (t.to_string(), c.to_string(), *s, *e))
        .collect()
}

#[test]
fn two_english_chapters() {
    let text = "Chapter 1\nHello\n\nChapter 2\nWorld\n";
    let chs = identify_chapters_by_regex(text);
    assert_eq!(
        summary(&chs),
        owned(&[("Chapter 1", "Hello", 10, 17), ("Chapter 2", "World", 27, 33)])
    );
}

#[test]
fn two_cjk_chapters() {
    let text = "第一章 开端\n内容一\n第二章 继续\n内容二";
    let chs = identify_chapters_by_regex(text);
    assert_eq!(
        summary(&chs),
        owned(&[("开端", "内容一", 17, 27), ("继续", "内容二", 44, 53)])
    );
    assert_eq!(&text[17..27].trim(), &"内容一");
    assert_eq!(&text[44..53], "内容二");
}

#[test]
fn cjk_heading_without_title_gets_numbered_title() {
    let chs = identify_chapters_by_regex("第12章\n正文");
    assert_eq!(summary(&chs), owned(&[("Chapter 12", "正文", 9, 15)]));
}

#[test]
fn no_markers_gives_whole_document() {
    let text = "just some text\nwith no headings at all\n";
    let chs = identify_chapters_by_regex(text);
    assert_eq!(summary(&chs), owned(&[("Complete Text", text, 0, text.len())]));
}

#[test]
fn empty_document_gives_one_empty_chapter() {
    let chs = identify_chapters_by_regex("");
    assert_eq!(summary(&chs), owned(&[("Complete Text", "", 0, 0)]));
}

#[test]
fn blank_chapters_are_dropped() {
    let chs = identify_chapters_by_regex("Chapter 1\nChapter 2\nText");
    assert_eq!(summary(&chs), owned(&[("Chapter 2", "Text", 20, 24)]));
}

#[test]
fn all_blank_chapters_fall_back_to_whole_document() {
    let text = "Chapter 1\n\nChapter 2\n  \n";
    let chs = identify_chapters_by_regex(text);
    assert_eq!(summary(&chs), owned(&[("Complete Text", text, 0, text.len())]));
}

#[test]
fn text_before_first_heading_is_dropped() {
    let chs = identify_chapters_by_regex("Preface words\nChapter 1\nBody");
    assert_eq!(summary(&chs), owned(&[("Chapter 1", "Body", 24, 28)]));
}

#[test]
fn crlf_separator_is_skipped_as_a_unit() {
    let text = "Chapter 1\r\nHello\r\nChapter 2\r\nBye";
    let chs = identify_chapters_by_regex(text);
    assert_eq!(
        summary(&chs),
        owned(&[("Chapter 1", "Hello", 11, 18), ("Chapter 2", "Bye", 29, 32)])
    );
}

#[test]
fn titled_headings_use_their_title() {
    let chs = identify_chapters_by_regex("Chapter 3 - The End\nx\nchapter 4: Again\ny");
    let titles: Vec<String> = chs.iter().map(|c| c.title.clone()).collect();
    assert_eq!(titles, vec!["The End".to_string(), "Again".to_string()]);
}

#[test]
fn markdown_heading_title_comes_from_its_token() {
    let chs = identify_chapters_by_regex("# Intro\nx\n## Next\ny");
    let titles: Vec<String> = chs.iter().map(|c| c.title.clone()).collect();
    assert_eq!(titles, vec!["Chapter Intro".to_string(), "Chapter Next".to_string()]);
}

#[test]
fn title_before_marker_form() {
    let chs = identify_chapters_by_regex("序幕 第3章\n内容");
    assert_eq!(chs.len(), 1);
    assert_eq!(chs[0].title, "3");
    assert_eq!(chs[0].content, "内容");
}

#[test]
fn repeated_heading_gets_its_own_offsets() {
    let text = "Chapter 1\nA\nChapter 1\nB";
    let chs = identify_chapters_by_regex(text);
    assert_eq!(
        summary(&chs),
        owned(&[("Chapter 1", "A", 10, 12), ("Chapter 1", "B", 22, 23)])
    );
}

#[test]
fn line_offsets_accumulate() {
    let text = "ab\n第一\nab\n";
    let spans = index_lines(text);
    let got: Vec<(usize, usize, usize, usize)> = spans
        .iter()
        .map(|l| (l.start, l.end, l.start_byte, l.end_byte))
        .collect();
    assert_eq!(got, vec![(0, 2, 0, 2), (3, 5, 3, 9), (6, 8, 10, 12), (9, 9, 13, 13)]);
    assert_eq!(index_lines(text), spans);
}

#[test]
fn spans_are_ordered_and_contents_non_empty() {
    let text = "intro\nChapter 1\none\n\nChapter 2\n\nChapter 3\nthree\n第四章 尾声\n终";
    let chs = identify_chapters_by_regex(text);
    assert_eq!(chs.len(), 3);
    for c in &chs {
        assert!(c.start_pos < c.end_pos);
        assert!(!c.content.trim().is_empty());
        assert_eq!(text[c.start_pos..c.end_pos].trim(), c.content);
    }
    for w in chs.windows(2) {
        assert!(w[0].end_pos <= w[1].start_pos);
    }
}

#[test]
fn matcher_titles_by_first_matching_pattern() {
    let m = MarkerMatcher::new();
    assert_eq!(m.title_of("  Chapter 7  "), Some("Chapter 7".to_string()));
    assert_eq!(m.title_of("Section 2"), Some("Chapter 2".to_string()));
    assert_eq!(m.title_of("Part II"), Some("Chapter II".to_string()));
    assert_eq!(m.title_of("1. Intro"), Some("Chapter Intro".to_string()));
    assert_eq!(m.title_of("1.2 Details"), Some("Chapter Details".to_string()));
    assert_eq!(m.title_of("Chapter第5 开始"), Some("开始".to_string()));
    assert_eq!(m.title_of("第 三 节"), Some("Chapter 三".to_string()));
    assert_eq!(m.title_of("plain text here"), None);
    assert_eq!(m.title_of(""), None);
}
