use vstd::prelude::*;

use crate::resolve::{
    move_ids_data_view, spec_get_move_issue_ids, GetMoveIssueIdsError, MoveIdsData, MoveIssueIds,
};

verus! {

/// The variables of the claim mutation: reassign the issue to the viewer
/// and set its state to "in progress".
#[derive(Debug, PartialEq, Eq)]
pub struct MutationVariables {
    pub issue_id: String,
    pub state_id: String,
    pub user_id: String,
}

/// The mathematical value of a [`MutationVariables`].
pub ghost struct MutationVariablesView {
    pub issue_id: Seq<char>,
    pub state_id: Seq<char>,
    pub user_id: Seq<char>,
}

impl View for MutationVariables {
    type V = MutationVariablesView;

    open spec fn view(&self) -> MutationVariablesView {
        MutationVariablesView {
            issue_id: self.issue_id@,
            state_id: self.state_id@,
            user_id: self.user_id@,
        }
    }
}

/// The variables of the move-to-review mutation: set the issue's state to
/// "blocked by review".
#[derive(Debug, PartialEq, Eq)]
pub struct MoveMutationVariables {
    pub issue_id: String,
    pub state_id: String,
}

/// The mathematical value of a [`MoveMutationVariables`].
pub ghost struct MoveMutationVariablesView {
    pub issue_id: Seq<char>,
    pub state_id: Seq<char>,
}

impl View for MoveMutationVariables {
    type V = MoveMutationVariablesView;

    open spec fn view(&self) -> MoveMutationVariablesView {
        MoveMutationVariablesView { issue_id: self.issue_id@, state_id: self.state_id@ }
    }
}

/// How a mutation can fail once a response has arrived.
#[derive(Debug, PartialEq, Eq, Clone, Copy)]
pub enum MutationError {
    /// The response envelope carried no data payload.
    NoData,
    /// The payload was present but its success flag was false.
    MutationNotSuccessful,
}

/// Builds the claim mutation's variables from resolved ids: the issue, the
/// "in progress" state, and the viewer as the new assignee.
pub fn claim_mutation_variables(ids: &MoveIssueIds) -> (vars: MutationVariables)
    ensures
        vars.issue_id@ == ids.issue_id@,
        vars.state_id@ == ids.in_progress_state_id@,
        vars.user_id@ == ids.user_id@,
{
    MutationVariables {
        issue_id: ids.issue_id.clone(),
        state_id: ids.in_progress_state_id.clone(),
        user_id: ids.user_id.clone(),
    }
}

/// Builds the move-to-review mutation's variables from resolved ids: the
/// issue and the "blocked by review" state.
pub fn move_mutation_variables(ids: &MoveIssueIds) -> (vars: MoveMutationVariables)
    ensures
        vars.issue_id@ == ids.issue_id@,
        vars.state_id@ == ids.blocked_by_review_state_id@,
{
    MoveMutationVariables {
        issue_id: ids.issue_id.clone(),
        state_id: ids.blocked_by_review_state_id.clone(),
    }
}

/// Interprets a mutation response.  The argument is the decoded payload of
/// the envelope: absent when the envelope carried no data, otherwise the
/// success flag the service reported for the update.
pub fn mutation_outcome(data: Option<bool>) -> (r: Result<(), MutationError>)
    ensures
        data is None ==> r == Err::<(), MutationError>(MutationError::NoData),
        data == Some(false) ==> r == Err::<(), MutationError>(MutationError::MutationNotSuccessful),
        data == Some(true) ==> r is Ok,
{
    match data {
        None => Err(MutationError::NoData),
        Some(false) => Err(MutationError::MutationNotSuccessful),
        Some(true) => Ok(()),
    }
}

/// Maps the result of a mutation-building step to its mathematical value.
pub open spec fn claim_step_view(r: Result<MutationVariables, GetMoveIssueIdsError>) -> Result<
    MutationVariablesView,
    GetMoveIssueIdsError,
> {
    match r {
        Ok(vars) => Ok(vars@),
        Err(e) => Err(e),
    }
}

/// The first decision step of the claim operation: from the decoded
/// id-resolution response either the variables of the claim mutation to
/// send, or the resolution error.  The mutation carries exactly the single
/// issue id, the single "in progress" state id, and the viewer's id.
pub fn claim(data: Option<MoveIdsData>) -> (r: Result<MutationVariables, GetMoveIssueIdsError>)
    ensures
        ({
            let resolved = spec_get_move_issue_ids(move_ids_data_view(data));
            match resolved {
                Ok(ids) => r matches Ok(vars) && vars@ == (MutationVariablesView {
                    issue_id: ids.issue_id,
                    state_id: ids.in_progress_state_id,
                    user_id: ids.user_id,
                }),
                Err(e) => r == Err::<MutationVariables, GetMoveIssueIdsError>(e),
            }
        }),
{
    let ids = match crate::resolve::get_move_issue_ids(data) {
        Ok(ids) => ids,
        Err(e) => {
            return Err(e);
        },
    };
    Ok(claim_mutation_variables(&ids))
}

/// The first decision step of the move-to-review operation: from the
/// decoded id-resolution response either the variables of the
/// move-to-review mutation to send, or the resolution error.  The mutation
/// carries exactly the single issue id and the single "blocked by review"
/// state id.
pub fn move_to_review(data: Option<MoveIdsData>) -> (r: Result<
    MoveMutationVariables,
    GetMoveIssueIdsError,
>)
    ensures
        ({
            let resolved = spec_get_move_issue_ids(move_ids_data_view(data));
            match resolved {
                Ok(ids) => r matches Ok(vars) && vars@ == (MoveMutationVariablesView {
                    issue_id: ids.issue_id,
                    state_id: ids.blocked_by_review_state_id,
                }),
                Err(e) => r == Err::<MoveMutationVariables, GetMoveIssueIdsError>(e),
            }
        }),
{
    let ids = match crate::resolve::get_move_issue_ids(data) {
        Ok(ids) => ids,
        Err(e) => {
            return Err(e);
        },
    };
    Ok(move_mutation_variables(&ids))
}

} // verus!
