use chapterizer::refiner::{BoundaryRefiner, RefineAction};
use chapterizer::{Chapter, LLMResponse};

fn chapter(title: &str, content: &str, start: usize, end: usize) -> Chapter {
    Chapter { title: title.to_string(), content: content.to_string(), start_pos: start, end_pos: end }
}

fn verdict(valid: bool, title: Option<&str>) -> Option<LLMResponse> {
    Some(LLMResponse {
        is_valid: valid,
        suggested_title: title.map(|t| t.to_string()),
        has_content_modified: false,
        suggestions: None,
    })
}

fn three() -> Vec<Chapter> {
    vec![chapter("A", "one", 0, 5), chapter("B", "two", 5, 10), chapter("C", "three", 10, 20)]
}

fn summary(chs: &[Chapter]) -> Vec<(String, String, usize, usize)> {
    chs.iter()
        .map(|c| (c.title.clone(), c.content.clone(), c.start_pos, c.end_pos))
        .collect()
}

#[test]
fn first_boundary_invalid_merges_then_compares_with_third() {
    let mut r = BoundaryRefiner::new(three());
    for k in 0..3 {
        assert_eq!(r.next_action(), RefineAction::ValidateChapter(k));
        r.record(None);
    }
    assert_eq!(r.next_action(), RefineAction::CompareAdjacent(0));
    r.record(verdict(false, None));
    assert_eq!(r.chapters().len(), 2);
    assert_eq!(r.chapters()[0].content, "one\n\ntwo");
    assert_eq!(r.chapters()[0].end_pos, 10);
    assert_eq!(r.next_action(), RefineAction::CompareAdjacent(0));
    r.record(verdict(true, None));
    assert_eq!(r.next_action(), RefineAction::Finished);
    assert_eq!(
        summary(&r.into_chapters()),
        vec![
            ("A".to_string(), "one\n\ntwo".to_string(), 0, 10),
            ("C".to_string(), "three".to_string(), 10, 20)
        ]
    );
}

#[test]
fn failed_calls_change_nothing() {
    let mut r = BoundaryRefiner::new(three());
    let mut calls = 0;
    while r.next_action() != RefineAction::Finished {
        r.record(None);
        calls += 1;
    }
    assert_eq!(calls, 5);
    assert_eq!(summary(&r.into_chapters()), summary(&three()));
}

#[test]
fn valid_verdict_with_title_renames() {
    let mut r = BoundaryRefiner::new(three());
    r.record(verdict(true, Some("Opening")));
    r.record(verdict(false, Some("Ignored")));
    r.record(verdict(true, None));
    let titles: Vec<String> = r.chapters().iter().map(|c| c.title.clone()).collect();
    assert_eq!(titles, vec!["Opening".to_string(), "B".to_string(), "C".to_string()]);
}

#[test]
fn always_invalid_merges_everything() {
    let mut r = BoundaryRefiner::new(three());
    let mut steps = 0;
    let mut last_len = r.chapters().len();
    while !r.is_finished() {
        r.record(verdict(false, None));
        assert!(r.chapters().len() <= last_len);
        last_len = r.chapters().len();
        steps += 1;
    }
    assert_eq!(steps, 5);
    assert_eq!(summary(&r.into_chapters()), vec![("A".to_string(), "one\n\ntwo\n\nthree".to_string(), 0, 20)]);
}

#[test]
fn empty_and_single_lists_need_no_pair_calls() {
    let r = BoundaryRefiner::new(Vec::new());
    assert_eq!(r.next_action(), RefineAction::Finished);
    let mut r = BoundaryRefiner::new(vec![chapter("A", "x", 0, 1)]);
    assert_eq!(r.next_action(), RefineAction::ValidateChapter(0));
    r.record(None);
    assert_eq!(r.next_action(), RefineAction::Finished);
}
