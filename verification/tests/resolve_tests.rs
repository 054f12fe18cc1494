use linear_client::mutation::{claim, move_to_review, mutation_outcome, MutationError};
use linear_client::resolve::{
    get_by_identifier, get_move_issue_ids, GetByIdentifierError, GetMoveIssueIdsError, IssueNode,
    MoveIdsData,
};

fn data(issues: &[&str], in_progress: &[&str], blocked: &[&str]) -> MoveIdsData {
    MoveIdsData {
        issue_ids: issues.iter().map(|s| s.to_string()).collect(),
        in_progress_state_ids: in_progress.iter().map(|s| s.to_string()).collect(),
        blocked_by_review_state_ids: blocked.iter().map(|s| s.to_string()).collect(),
        viewer_id: "usr_3".to_string(),
    }
}

#[test]
fn no_data_fails_resolution() {
    let r = get_move_issue_ids(None);
    assert_eq!(r.err().unwrap(), GetMoveIssueIdsError::QueryIdsNoData);
}

#[test]
fn zero_matched_issues_is_issue_not_found() {
    let r = get_move_issue_ids(Some(data(&[], &["st_2"], &["st_9"])));
    assert_eq!(r.err().unwrap(), GetMoveIssueIdsError::IssueNotFound);
}

#[test]
fn one_matched_issue_succeeds() {
    let ids = get_move_issue_ids(Some(data(&["iss_1"], &["st_2"], &["st_9"]))).unwrap();
    assert_eq!(ids.issue_id, "iss_1");
    assert_eq!(ids.in_progress_state_id, "st_2");
    assert_eq!(ids.blocked_by_review_state_id, "st_9");
    assert_eq!(ids.user_id, "usr_3");
}

#[test]
fn two_matched_issues_are_multiple_issues_found() {
    let r = get_move_issue_ids(Some(data(&["iss_1", "iss_2"], &["st_2"], &["st_9"])));
    assert_eq!(r.err().unwrap(), GetMoveIssueIdsError::MultipleIssuesFound);
}

#[test]
fn zero_matched_states_is_state_not_found() {
    let r = get_move_issue_ids(Some(data(&["iss_1"], &[], &["st_9"])));
    assert_eq!(r.err().unwrap(), GetMoveIssueIdsError::StateNotFound);
    let r = get_move_issue_ids(Some(data(&["iss_1"], &["st_2"], &[])));
    assert_eq!(r.err().unwrap(), GetMoveIssueIdsError::StateNotFound);
}

#[test]
fn two_matched_states_are_multiple_states_found() {
    let r = get_move_issue_ids(Some(data(&["iss_1"], &["st_2", "st_3"], &["st_9"])));
    assert_eq!(r.err().unwrap(), GetMoveIssueIdsError::MultipleStatesFound);
    let r = get_move_issue_ids(Some(data(&["iss_1"], &["st_2"], &["st_9", "st_8"])));
    assert_eq!(r.err().unwrap(), GetMoveIssueIdsError::MultipleStatesFound);
}

#[test]
fn resolution_is_idempotent_on_a_fixed_response() {
    // Resolving the same decoded response twice yields identical results,
    // both on success and on each error.
    let samples = [
        (vec!["iss_1"], vec!["st_2"], vec!["st_9"]),
        (vec![], vec!["st_2"], vec!["st_9"]),
        (vec!["iss_1", "iss_2"], vec!["st_2"], vec!["st_9"]),
        (vec!["iss_1"], vec![], vec!["st_9"]),
        (vec!["iss_1"], vec!["st_2", "st_3"], vec![]),
    ];
    for (issues, in_progress, blocked) in samples {
        let first = get_move_issue_ids(Some(data(&issues, &in_progress, &blocked)));
        let second = get_move_issue_ids(Some(data(&issues, &in_progress, &blocked)));
        match (first, second) {
            (Ok(a), Ok(b)) => {
                assert_eq!(a.issue_id, b.issue_id);
                assert_eq!(a.in_progress_state_id, b.in_progress_state_id);
                assert_eq!(a.blocked_by_review_state_id, b.blocked_by_review_state_id);
                assert_eq!(a.user_id, b.user_id);
            }
            (Err(a), Err(b)) => assert_eq!(a, b),
            (a, b) => panic!("one call succeeded, the other failed: {:?} {:?}", a, b),
        }
    }
}

#[test]
fn claim_builds_exactly_the_resolved_variables() {
    // The end-to-end claim scenario: "ENG-42" parses, a response with one
    // issue, one state and the viewer resolves, and the mutation carries
    // exactly those three ids.
    let id = linear_client::identifier::parse_identifier("ENG-42").unwrap();
    assert_eq!(id.prefix, "ENG");
    assert_eq!(id.number_text.parse::<f64>().unwrap(), 42.0);
    let vars = claim(Some(data(&["iss_1"], &["st_2"], &["st_9"]))).unwrap();
    assert_eq!(vars.issue_id, "iss_1");
    assert_eq!(vars.state_id, "st_2");
    assert_eq!(vars.user_id, "usr_3");
}

#[test]
fn claim_propagates_resolution_errors() {
    let r = claim(Some(data(&[], &["st_2"], &["st_9"])));
    assert_eq!(r.err().unwrap(), GetMoveIssueIdsError::IssueNotFound);
    let r = claim(None);
    assert_eq!(r.err().unwrap(), GetMoveIssueIdsError::QueryIdsNoData);
}

#[test]
fn move_to_review_uses_the_blocked_by_review_state() {
    let vars = move_to_review(Some(data(&["iss_1"], &["st_2"], &["st_9"]))).unwrap();
    assert_eq!(vars.issue_id, "iss_1");
    assert_eq!(vars.state_id, "st_9");
}

#[test]
fn mutation_outcome_follows_the_success_flag() {
    assert_eq!(mutation_outcome(None), Err(MutationError::NoData));
    assert_eq!(mutation_outcome(Some(false)), Err(MutationError::MutationNotSuccessful));
    assert_eq!(mutation_outcome(Some(true)), Ok(()));
}

fn node(identifier: &str, description: Option<&str>) -> IssueNode {
    IssueNode {
        identifier: identifier.to_string(),
        title: format!("title of {}", identifier),
        url: format!("https://issues.example/{}", identifier),
        description: description.map(|s| s.to_string()),
    }
}

#[test]
fn lookup_with_no_data_fails() {
    assert_eq!(get_by_identifier(None).err().unwrap(), GetByIdentifierError::NoData);
}

#[test]
fn lookup_needs_exactly_one_match() {
    let r = get_by_identifier(Some(vec![]));
    assert_eq!(r.err().unwrap(), GetByIdentifierError::IssueNotFound);
    let r = get_by_identifier(Some(vec![node("ENG-1", None), node("ENG-2", None)]));
    assert_eq!(r.err().unwrap(), GetByIdentifierError::MultipleIssuesFound);
    let issue = get_by_identifier(Some(vec![node("ENG-1", Some("the text"))])).unwrap();
    assert_eq!(issue.identifier, "ENG-1");
    assert_eq!(issue.title, "title of ENG-1");
    assert_eq!(issue.url, "https://issues.example/ENG-1");
    assert_eq!(issue.description, "the text");
}

#[test]
fn lookup_defaults_a_missing_description_to_empty() {
    let issue = get_by_identifier(Some(vec![node("ENG-1", None)])).unwrap();
    assert_eq!(issue.description, "");
}
