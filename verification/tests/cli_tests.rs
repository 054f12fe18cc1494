use linear_client::cli::{
    claim_issue, current_issue, list_issues, move_issue_to_review, output_single_line,
    print_current_issue_markdown_url, print_current_issue_title, print_current_issue_url,
    CurrentIssueError,
};
use linear_client::config::Config;
use linear_client::issue::Issue;
use linear_client::listing::{list, FetchError, Issues, ListData, ListNode};

fn issue(identifier: &str, title: &str) -> Issue {
    Issue {
        identifier: identifier.to_string(),
        title: title.to_string(),
        url: format!("https://issues.example/{}", identifier),
        description: format!("description of {}", identifier),
    }
}

#[test]
fn title_line_without_description() {
    let out = print_current_issue_title(&issue("ENG-42", "Fix the build"), false);
    assert_eq!(out, "[ENG-42] Fix the build");
}

#[test]
fn title_line_with_description() {
    let out = print_current_issue_title(&issue("ENG-42", "Fix the build"), true);
    assert_eq!(out, "[ENG-42] Fix the build\n\ndescription of ENG-42");
}

#[test]
fn url_output_is_the_url_alone() {
    let out = print_current_issue_url(&issue("ENG-42", "Fix the build"));
    assert_eq!(out, "https://issues.example/ENG-42");
}

#[test]
fn markdown_link_has_text_and_target() {
    let out = print_current_issue_markdown_url(&issue("ENG-42", "Fix the build"));
    assert_eq!(out, "[[ENG-42] Fix the build](https://issues.example/ENG-42)");
}

#[test]
fn current_issue_needs_a_configured_identifier() {
    assert_eq!(current_issue(&None), Err(CurrentIssueError::NoCurrentIssue));
    assert_eq!(current_issue(&Some("ENG-42".to_string())).unwrap(), "ENG-42");
}

#[test]
fn move_issue_to_review_needs_a_configured_identifier() {
    assert_eq!(move_issue_to_review(&None), Err(CurrentIssueError::NoCurrentIssue));
    assert_eq!(move_issue_to_review(&Some("ENG-42".to_string())).unwrap(), "ENG-42");
}

#[test]
fn claim_issue_records_the_new_current_issue() {
    let mut cfg = Config {
        api_key: "k".to_string(),
        team_name: "Engineering".to_string(),
        current_issue: Some("ENG-1".to_string()),
    };
    claim_issue(&mut cfg, "ENG-42");
    assert_eq!(cfg.api_key, "k");
    assert_eq!(cfg.team_name, "Engineering");
    assert_eq!(cfg.current_issue.as_deref(), Some("ENG-42"));
}

fn node(identifier: &str, title: &str) -> ListNode {
    ListNode {
        identifier: identifier.to_string(),
        title: title.to_string(),
        url: format!("https://issues.example/{}", identifier),
    }
}

#[test]
fn listing_keeps_buckets_and_order() {
    // The listing scenario: two in-progress and three todo nodes come
    // back as buckets of length two and three, in input order, with the
    // description defaulted to empty.
    let fetched = ListData {
        in_progress: vec![node("ENG-1", "a"), node("ENG-2", "b")],
        todo: vec![node("ENG-3", "c"), node("ENG-4", "d"), node("ENG-5", "e")],
    };
    let got = list(Some(fetched)).unwrap();
    assert_eq!(got.in_progress.len(), 2);
    assert_eq!(got.todo.len(), 3);
    let in_progress: Vec<&str> =
        got.in_progress.iter().map(|i| i.identifier.as_str()).collect();
    let todo: Vec<&str> = got.todo.iter().map(|i| i.identifier.as_str()).collect();
    assert_eq!(in_progress, ["ENG-1", "ENG-2"]);
    assert_eq!(todo, ["ENG-3", "ENG-4", "ENG-5"]);
    assert_eq!(got.in_progress[0].title, "a");
    assert_eq!(got.in_progress[0].url, "https://issues.example/ENG-1");
    assert_eq!(got.in_progress[0].description, "");
}

#[test]
fn listing_without_data_fails() {
    assert_eq!(list(None).err().unwrap(), FetchError::NoDataError);
}

#[test]
fn listing_text_has_both_sections() {
    let issues = Issues {
        in_progress: vec![issue("ENG-1", "first"), issue("ENG-2", "second")],
        todo: vec![issue("ENG-3", "third")],
    };
    let out = list_issues(&issues);
    assert_eq!(
        out,
        "In Progress\n===========\n[ENG-1] first\n[ENG-2] second\n\n\nTodo\n====\n[ENG-3] third\n"
    );
}

#[test]
fn single_line_output_follows_the_terminal_flag() {
    assert_eq!(output_single_line("a line", true), "a line\n");
    assert_eq!(output_single_line("a line", false), "a line");
}
