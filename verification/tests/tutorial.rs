use couchbase_shell::error::CliError;
use couchbase_shell::tutorial::{
    Tutorial, PAGE_CONCLUSION, PAGE_DOC, PAGE_OVERVIEW, PAGE_PIPELINE, PAGE_QUERY, PAGE_START,
};

fn page(name: &str, body: &str) -> String {
    format!("Page {}: {}", name, body)
}

#[test]
fn new_tutorial_starts_on_the_first_page() {
    let t = Tutorial::new();
    assert_eq!(t.current_step(), page("start", PAGE_START));
}

#[test]
fn next_walks_the_pages_in_order_and_wraps() {
    let mut t = Tutorial::new();
    assert_eq!(t.next_tutorial_step(), page("overview", PAGE_OVERVIEW));
    assert_eq!(t.next_tutorial_step(), page("doc", PAGE_DOC));
    assert_eq!(t.next_tutorial_step(), page("pipeline", PAGE_PIPELINE));
    assert_eq!(t.next_tutorial_step(), page("query", PAGE_QUERY));
    assert_eq!(t.next_tutorial_step(), page("conclusion", PAGE_CONCLUSION));
    assert_eq!(t.next_tutorial_step(), page("start", PAGE_START));
    assert_eq!(t.current_step(), page("start", PAGE_START));
}

#[test]
fn prev_from_the_first_page_wraps_to_the_last() {
    let mut t = Tutorial::new();
    assert_eq!(t.prev_tutorial_step(), page("conclusion", PAGE_CONCLUSION));
    assert_eq!(t.prev_tutorial_step(), page("query", PAGE_QUERY));
}

#[test]
fn next_then_prev_returns_to_the_same_page() {
    let mut t = Tutorial::new();
    t.next_tutorial_step();
    t.next_tutorial_step();
    let here = t.current_step();
    t.next_tutorial_step();
    assert_eq!(t.prev_tutorial_step(), here);
}

#[test]
fn goto_a_named_page_lands_there() {
    let mut t = Tutorial::new();
    assert_eq!(t.goto_step("pipeline".to_string()), Ok(page("pipeline", PAGE_PIPELINE)));
    assert_eq!(t.current_step(), page("pipeline", PAGE_PIPELINE));
    assert_eq!(t.next_tutorial_step(), page("query", PAGE_QUERY));
}

#[test]
fn goto_an_unknown_page_is_an_error_and_stays() {
    let mut t = Tutorial::new();
    t.next_tutorial_step();
    assert_eq!(
        t.goto_step("intro".to_string()),
        Err(CliError::Runtime("invalid tutorial step".to_string()))
    );
    assert_eq!(t.current_step(), page("overview", PAGE_OVERVIEW));
}

#[test]
fn step_names_lists_every_page_in_order() {
    let t = Tutorial::new();
    assert_eq!(
        t.step_names(),
        vec!["start", "overview", "doc", "pipeline", "query", "conclusion"]
    );
    let mut t2 = Tutorial::new();
    for name in t.step_names() {
        let shown = t2.goto_step(name.clone()).unwrap();
        assert!(shown.starts_with(&format!("Page {}: ", name)));
    }
}

#[test]
fn start_page_text_is_the_welcome() {
    assert!(PAGE_START.starts_with("\nCouchbase Shell (or cbsh) is a tool"));
    assert!(PAGE_CONCLUSION.contains("http://couchbase.sh/docs/"));
}
