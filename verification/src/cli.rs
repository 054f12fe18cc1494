use vstd::prelude::*;
use vstd::string::StringExecFns;

use crate::config::Config;
use crate::issue::{Issue, IssueView};
use crate::listing::{Issues, IssuesView};

verus! {

/// A command on the current issue was given, but the configuration holds
/// no current issue identifier.
#[derive(Debug, PartialEq, Eq, Clone, Copy)]
pub enum CurrentIssueError {
    NoCurrentIssue,
}

/// The line shown for one issue: its identifier in brackets, then its
/// title, and where asked for, a blank line and the description.
pub open spec fn spec_title_line(issue: IssueView, with_description: bool) -> Seq<char> {
    if with_description {
        "["@ + issue.identifier + "] "@ + issue.title + "\n\n"@ + issue.description
    } else {
        "["@ + issue.identifier + "] "@ + issue.title
    }
}

/// Formats the line shown for an issue; the shell prints it.
pub fn print_current_issue_title(issue: &Issue, print_description: bool) -> (out: String)
    ensures
        out@ == spec_title_line(issue@, print_description),
{
    let mut out = String::new();
    out.append("[");
    out.append(issue.identifier.as_str());
    out.append("] ");
    out.append(issue.title.as_str());
    if print_description {
        out.append("\n\n");
        out.append(issue.description.as_str());
    }
    proof {
        assert(out@ =~= spec_title_line(issue@, print_description));
    }
    out
}

/// The output of the url command: the issue's url, exactly.
pub fn print_current_issue_url(issue: &Issue) -> (out: String)
    ensures
        out@ == issue.url@,
{
    issue.url.clone()
}

/// The markdown link shown for an issue: the bracketed identifier and
/// title as the link text, the url as the target.
pub open spec fn spec_markdown_link(issue: IssueView) -> Seq<char> {
    "[["@ + issue.identifier + "] "@ + issue.title + "]("@ + issue.url + ")"@
}

/// Formats the markdown link for an issue; the shell prints it.
pub fn print_current_issue_markdown_url(issue: &Issue) -> (out: String)
    ensures
        out@ == spec_markdown_link(issue@),
{
    let mut out = String::new();
    out.append("[[");
    out.append(issue.identifier.as_str());
    out.append("] ");
    out.append(issue.title.as_str());
    out.append("](");
    out.append(issue.url.as_str());
    out.append(")");
    proof {
        assert(out@ =~= spec_markdown_link(issue@));
    }
    out
}

/// The decision step of the show-current command: the identifier to look
/// up, or the error when the configuration holds none.
pub fn current_issue(current_issue_identifier: &Option<String>) -> (r: Result<
    String,
    CurrentIssueError,
>)
    ensures
        current_issue_identifier matches Some(id) ==> (r matches Ok(t) && t@ == id@),
        current_issue_identifier is None ==> r == Err::<String, CurrentIssueError>(
            CurrentIssueError::NoCurrentIssue,
        ),
{
    match current_issue_identifier {
        Some(id) => Ok(id.clone()),
        None => Err(CurrentIssueError::NoCurrentIssue),
    }
}

/// The decision step of the move-to-review command: the identifier of the
/// issue to move, or the error when the configuration holds none.
pub fn move_issue_to_review(current_issue_identifier: &Option<String>) -> (r: Result<
    String,
    CurrentIssueError,
>)
    ensures
        current_issue_identifier matches Some(id) ==> (r matches Ok(t) && t@ == id@),
        current_issue_identifier is None ==> r == Err::<String, CurrentIssueError>(
            CurrentIssueError::NoCurrentIssue,
        ),
{
    match current_issue_identifier {
        Some(id) => Ok(id.clone()),
        None => Err(CurrentIssueError::NoCurrentIssue),
    }
}

/// Records a successfully claimed issue: the claimed identifier becomes
/// the current issue, and the key and team name are kept as they were.
/// The shell calls this only after the remote mutation reported success,
/// and then persists the new record.
pub fn claim_issue(config: &mut Config, identifier: &str)
    ensures
        final (config).api_key@ == old(config).api_key@,
        final (config).team_name@ == old(config).team_name@,
        final (config).current_issue matches Some(id) && id@ == identifier@,
{
    config.current_issue = Some(identifier.to_owned());
}

/// The line for one issue of a listing.
pub open spec fn spec_issue_line(issue: IssueView) -> Seq<char> {
    "["@ + issue.identifier + "] "@ + issue.title + "\n"@
}

/// The lines for a bucket of issues, in order.
pub open spec fn spec_issue_lines(issues: Seq<IssueView>) -> Seq<char>
    decreases issues.len(),
{
    if issues.len() == 0 {
        Seq::<char>::empty()
    } else {
        spec_issue_line(issues[0]) + spec_issue_lines(issues.drop_first())
    }
}

proof fn lemma_issue_lines_push(issues: Seq<IssueView>, issue: IssueView)
    ensures
        spec_issue_lines(issues.push(issue)) == spec_issue_lines(issues) + spec_issue_line(issue),
    decreases issues.len(),
{
    if issues.len() == 0 {
        let l = issues.push(issue);
        assert(spec_issue_lines(issues) == Seq::<char>::empty());
        assert(l[0] == issue);
        assert(l.drop_first() =~= Seq::<IssueView>::empty());
        assert(spec_issue_lines(l.drop_first()) == Seq::<char>::empty());
        assert(spec_issue_lines(l) == spec_issue_line(issue) + Seq::<char>::empty());
        assert(spec_issue_line(issue) + Seq::<char>::empty() =~= Seq::<char>::empty()
            + spec_issue_line(issue));
    } else {
        let l = issues.push(issue);
        assert(l.drop_first() =~= issues.drop_first().push(issue));
        lemma_issue_lines_push(issues.drop_first(), issue);
        assert(l[0] == issues[0]);
        assert(spec_issue_lines(l) == spec_issue_line(issues[0]) + (spec_issue_lines(
            issues.drop_first(),
        ) + spec_issue_line(issue)));
        assert(spec_issue_line(issues[0]) + (spec_issue_lines(issues.drop_first())
            + spec_issue_line(issue)) =~= (spec_issue_line(issues[0]) + spec_issue_lines(
            issues.drop_first(),
        )) + spec_issue_line(issue));
    }
}

/// Appends the lines of one bucket to the text being built.
fn append_issue_lines(out: &mut String, issues: &Vec<Issue>)
    ensures
        final (out)@ == old(out)@ + spec_issue_lines(issues.deep_view()),
{
    let ghost dv = issues.deep_view();
    let mut k: usize = 0;
    while k < issues.len()
        invariant
            0 <= k <= issues.len(),
            dv == issues.deep_view(),
            dv.len() == issues@.len(),
            out@ == old(out)@ + spec_issue_lines(dv.take(k as int)),
        decreases issues.len() - k,
    {
        let issue = &issues[k];
        out.append("[");
        out.append(issue.identifier.as_str());
        out.append("] ");
        out.append(issue.title.as_str());
        out.append("\n");
        proof {
            assert(dv.take(k + 1) =~= dv.take(k as int).push(dv[k as int]));
            lemma_issue_lines_push(dv.take(k as int), dv[k as int]);
            assert(dv[k as int] == issue@);
            assert(out@ =~= old(out)@ + spec_issue_lines(dv.take(k + 1)));
        }
        k += 1;
    }
    proof {
        assert(dv.take(issues@.len() as int) =~= dv);
    }
}

/// The whole text of a listing: the in-progress bucket under its heading,
/// a blank line, then the todo bucket under its heading.
pub open spec fn spec_listing(issues: IssuesView) -> Seq<char> {
    "In Progress\n===========\n"@ + spec_issue_lines(issues.in_progress) + "\n\n"@
        + "Todo\n====\n"@ + spec_issue_lines(issues.todo)
}

/// Formats a fetched listing; the shell prints it.
pub fn list_issues(issues: &Issues) -> (out: String)
    ensures
        out@ == spec_listing(issues@),
{
    let mut out = String::new();
    out.append("In Progress\n===========\n");
    append_issue_lines(&mut out, &issues.in_progress);
    out.append("\n\n");
    out.append("Todo\n====\n");
    append_issue_lines(&mut out, &issues.todo);
    proof {
        assert(out@ =~= spec_listing(issues@));
    }
    out
}

/// The text actually written to standard output: when it is a terminal a
/// trailing newline is added, otherwise the line goes out unchanged so
/// that a shell capture gets no extra whitespace.
pub fn output_single_line(line: &str, is_terminal: bool) -> (out: String)
    ensures
        is_terminal ==> out@ == line@ + "\n"@,
        !is_terminal ==> out@ == line@,
{
    if is_terminal {
        let mut out = line.to_owned();
        out.append("\n");
        out
    } else {
        line.to_owned()
    }
}

} // verus!
