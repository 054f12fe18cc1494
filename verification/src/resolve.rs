use vstd::prelude::*;

use crate::issue::Issue;

verus! {

/// The decoded payload of the id-resolution query: the internal ids of the
/// issues whose number matched, of the workflow states whose names matched
/// ("in progress" and "blocked by review", each scoped to the team), and
/// the id of the authenticated user.
#[derive(Debug)]
pub struct MoveIdsData {
    pub issue_ids: Vec<String>,
    pub in_progress_state_ids: Vec<String>,
    pub blocked_by_review_state_ids: Vec<String>,
    pub viewer_id: String,
}

/// The mathematical value of a [`MoveIdsData`].
pub ghost struct MoveIdsDataView {
    pub issue_ids: Seq<Seq<char>>,
    pub in_progress_state_ids: Seq<Seq<char>>,
    pub blocked_by_review_state_ids: Seq<Seq<char>>,
    pub viewer_id: Seq<char>,
}

impl View for MoveIdsData {
    type V = MoveIdsDataView;

    open spec fn view(&self) -> MoveIdsDataView {
        MoveIdsDataView {
            issue_ids: self.issue_ids.deep_view(),
            in_progress_state_ids: self.in_progress_state_ids.deep_view(),
            blocked_by_review_state_ids: self.blocked_by_review_state_ids.deep_view(),
            viewer_id: self.viewer_id@,
        }
    }
}

/// The three internal ids a mutation needs, valid only as the immediate
/// input to one mutation call.
#[derive(Debug, PartialEq, Eq)]
pub struct MoveIssueIds {
    pub issue_id: String,
    pub in_progress_state_id: String,
    pub blocked_by_review_state_id: String,
    pub user_id: String,
}

/// The mathematical value of a [`MoveIssueIds`].
pub ghost struct MoveIssueIdsView {
    pub issue_id: Seq<char>,
    pub in_progress_state_id: Seq<char>,
    pub blocked_by_review_state_id: Seq<char>,
    pub user_id: Seq<char>,
}

impl View for MoveIssueIds {
    type V = MoveIssueIdsView;

    open spec fn view(&self) -> MoveIssueIdsView {
        MoveIssueIdsView {
            issue_id: self.issue_id@,
            in_progress_state_id: self.in_progress_state_id@,
            blocked_by_review_state_id: self.blocked_by_review_state_id@,
            user_id: self.user_id@,
        }
    }
}

/// How id resolution can fail once a response has arrived.
#[derive(Debug, PartialEq, Eq, Clone, Copy)]
pub enum GetMoveIssueIdsError {
    /// The response envelope carried no data payload.
    QueryIdsNoData,
    /// No issue matched the requested number.
    IssueNotFound,
    /// More than one issue matched the requested number.
    MultipleIssuesFound,
    /// No workflow state matched the requested name.
    StateNotFound,
    /// More than one workflow state matched the requested name.
    MultipleStatesFound,
}

/// Checks that a result set holds exactly one node and hands that node
/// back; an empty set and a set of two or more each fail with the error
/// the caller chose for that case.
pub fn exactly_one<'a, T, E>(nodes: &'a Vec<T>, none_err: E, multi_err: E) -> (r: Result<
    &'a T,
    E,
>)
    ensures
        nodes@.len() == 0 ==> r == Err::<&'a T, E>(none_err),
        nodes@.len() > 1 ==> r == Err::<&'a T, E>(multi_err),
        nodes@.len() == 1 ==> (r matches Ok(v) && *v == nodes@[0]),
{
    if nodes.len() == 0 {
        Err(none_err)
    } else if nodes.len() > 1 {
        Err(multi_err)
    } else {
        Ok(&nodes[0])
    }
}

/// What id resolution returns for each possible decoded response: the
/// exactly-one-match rule applied to the issue set and to each state set,
/// in the order the sets are inspected.
pub open spec fn spec_get_move_issue_ids(data: Option<MoveIdsDataView>) -> Result<
    MoveIssueIdsView,
    GetMoveIssueIdsError,
> {
    match data {
        Option::None => Err(GetMoveIssueIdsError::QueryIdsNoData),
        Option::Some(d) => {
            if d.issue_ids.len() == 0 {
                Err(GetMoveIssueIdsError::IssueNotFound)
            } else if d.issue_ids.len() > 1 {
                Err(GetMoveIssueIdsError::MultipleIssuesFound)
            } else if d.in_progress_state_ids.len() == 0 {
                Err(GetMoveIssueIdsError::StateNotFound)
            } else if d.in_progress_state_ids.len() > 1 {
                Err(GetMoveIssueIdsError::MultipleStatesFound)
            } else if d.blocked_by_review_state_ids.len() == 0 {
                Err(GetMoveIssueIdsError::StateNotFound)
            } else if d.blocked_by_review_state_ids.len() > 1 {
                Err(GetMoveIssueIdsError::MultipleStatesFound)
            } else {
                Ok(MoveIssueIdsView {
                    issue_id: d.issue_ids[0],
                    in_progress_state_id: d.in_progress_state_ids[0],
                    blocked_by_review_state_id: d.blocked_by_review_state_ids[0],
                    user_id: d.viewer_id,
                })
            }
        },
    }
}

/// Maps a resolution result to its mathematical value.
pub open spec fn move_ids_result_view(r: Result<MoveIssueIds, GetMoveIssueIdsError>) -> Result<
    MoveIssueIdsView,
    GetMoveIssueIdsError,
> {
    match r {
        Ok(ids) => Ok(ids@),
        Err(e) => Err(e),
    }
}

/// Maps an optional decoded payload to its mathematical value.
pub open spec fn move_ids_data_view(data: Option<MoveIdsData>) -> Option<MoveIdsDataView> {
    match data {
        Option::Some(d) => Option::Some(d@),
        Option::None => Option::None,
    }
}

/// Validates the decoded payload of the id-resolution query: the matched
/// issue set and each matched state set must hold exactly one node; the
/// single ids and the viewer's id are handed on for the mutation.
pub fn get_move_issue_ids(data: Option<MoveIdsData>) -> (r: Result<
    MoveIssueIds,
    GetMoveIssueIdsError,
>)
    ensures
        move_ids_result_view(r) == spec_get_move_issue_ids(move_ids_data_view(data)),
{
    let d = match data {
        Some(d) => d,
        None => {
            return Err(GetMoveIssueIdsError::QueryIdsNoData);
        },
    };
    let issue_id = match exactly_one(
        &d.issue_ids,
        GetMoveIssueIdsError::IssueNotFound,
        GetMoveIssueIdsError::MultipleIssuesFound,
    ) {
        Ok(id) => id.clone(),
        Err(e) => {
            return Err(e);
        },
    };
    let in_progress_state_id = match exactly_one(
        &d.in_progress_state_ids,
        GetMoveIssueIdsError::StateNotFound,
        GetMoveIssueIdsError::MultipleStatesFound,
    ) {
        Ok(id) => id.clone(),
        Err(e) => {
            return Err(e);
        },
    };
    let blocked_by_review_state_id = match exactly_one(
        &d.blocked_by_review_state_ids,
        GetMoveIssueIdsError::StateNotFound,
        GetMoveIssueIdsError::MultipleStatesFound,
    ) {
        Ok(id) => id.clone(),
        Err(e) => {
            return Err(e);
        },
    };
    Ok(
        MoveIssueIds {
            issue_id,
            in_progress_state_id,
            blocked_by_review_state_id,
            user_id: d.viewer_id,
        },
    )
}

/// One node of the lookup-by-identifier query: the fields of the matched
/// issue as the service reports them, the description possibly absent.
#[derive(Debug)]
pub struct IssueNode {
    pub identifier: String,
    pub title: String,
    pub url: String,
    pub description: Option<String>,
}

/// The mathematical value of an [`IssueNode`].
pub ghost struct IssueNodeView {
    pub identifier: Seq<char>,
    pub title: Seq<char>,
    pub url: Seq<char>,
    pub description: Option<Seq<char>>,
}

impl View for IssueNode {
    type V = IssueNodeView;

    open spec fn view(&self) -> IssueNodeView {
        IssueNodeView {
            identifier: self.identifier@,
            title: self.title@,
            url: self.url@,
            description: match self.description {
                Some(d) => Some(d@),
                None => None,
            },
        }
    }
}

impl DeepView for IssueNode {
    type V = IssueNodeView;

    open spec fn deep_view(&self) -> IssueNodeView {
        self.view()
    }
}

/// How a lookup of a single issue can fail once a response has arrived.
#[derive(Debug, PartialEq, Eq, Clone, Copy)]
pub enum GetByIdentifierError {
    /// The response envelope carried no data payload.
    NoData,
    /// No issue matched the requested number.
    IssueNotFound,
    /// More than one issue matched the requested number.
    MultipleIssuesFound,
}

/// What the lookup of a single issue returns for each possible decoded
/// response: the exactly-one-match rule applied to the matched issue set,
/// and an absent description defaulted to the empty string.
pub open spec fn spec_get_by_identifier(data: Option<Seq<IssueNodeView>>) -> Result<
    crate::issue::IssueView,
    GetByIdentifierError,
> {
    match data {
        Option::None => Err(GetByIdentifierError::NoData),
        Option::Some(nodes) => {
            if nodes.len() == 0 {
                Err(GetByIdentifierError::IssueNotFound)
            } else if nodes.len() > 1 {
                Err(GetByIdentifierError::MultipleIssuesFound)
            } else {
                Ok(crate::issue::IssueView {
                    identifier: nodes[0].identifier,
                    title: nodes[0].title,
                    url: nodes[0].url,
                    description: match nodes[0].description {
                        Some(d) => d,
                        None => Seq::<char>::empty(),
                    },
                })
            }
        },
    }
}

/// Maps an optional decoded node list to its mathematical value.
pub open spec fn issue_nodes_view(data: Option<Vec<IssueNode>>) -> Option<Seq<IssueNodeView>> {
    match data {
        Option::Some(nodes) => Option::Some(nodes.deep_view()),
        Option::None => Option::None,
    }
}

/// Maps a lookup result to its mathematical value.
pub open spec fn issue_result_view(r: Result<Issue, GetByIdentifierError>) -> Result<
    crate::issue::IssueView,
    GetByIdentifierError,
> {
    match r {
        Ok(issue) => Ok(issue@),
        Err(e) => Err(e),
    }
}

/// Validates the decoded payload of the lookup-by-identifier query: the
/// matched issue set must hold exactly one node, whose fields become the
/// issue snapshot; a missing description defaults to the empty string.
pub fn get_by_identifier(data: Option<Vec<IssueNode>>) -> (r: Result<Issue, GetByIdentifierError>)
    ensures
        issue_result_view(r) == spec_get_by_identifier(issue_nodes_view(data)),
{
    let nodes = match data {
        Some(nodes) => nodes,
        None => {
            return Err(GetByIdentifierError::NoData);
        },
    };
    let node = match exactly_one(
        &nodes,
        GetByIdentifierError::IssueNotFound,
        GetByIdentifierError::MultipleIssuesFound,
    ) {
        Ok(node) => node,
        Err(e) => {
            return Err(e);
        },
    };
    let description = match &node.description {
        Some(d) => Some(d.clone()),
        None => None,
    };
    Ok(Issue::from_parts(node.identifier.clone(), node.title.clone(), node.url.clone(), description))
}

/// The validation step of id resolution is deterministic: resolving the
/// same decoded response twice yields identical results or identical
/// errors.
pub proof fn lemma_resolution_idempotent(
    data1: Option<MoveIdsDataView>,
    data2: Option<MoveIdsDataView>,
)
    requires
        data1 == data2,
    ensures
        spec_get_move_issue_ids(data1) == spec_get_move_issue_ids(data2),
{
}

} // verus!
