use vstd::prelude::*;

use crate::issue::{Issue, IssueView};

verus! {

/// One node of the listing query: the fields the listing fetches for an
/// issue.  The listing carries no description.
#[derive(Debug)]
pub struct ListNode {
    pub identifier: String,
    pub title: String,
    pub url: String,
}

/// The mathematical value of a [`ListNode`].
pub ghost struct ListNodeView {
    pub identifier: Seq<char>,
    pub title: Seq<char>,
    pub url: Seq<char>,
}

impl View for ListNode {
    type V = ListNodeView;

    open spec fn view(&self) -> ListNodeView {
        ListNodeView { identifier: self.identifier@, title: self.title@, url: self.url@ }
    }
}

impl DeepView for ListNode {
    type V = ListNodeView;

    open spec fn deep_view(&self) -> ListNodeView {
        self.view()
    }
}

/// The decoded payload of the listing query: the nodes of the two
/// buckets, each in the order the service returned them.
#[derive(Debug)]
pub struct ListData {
    pub in_progress: Vec<ListNode>,
    pub todo: Vec<ListNode>,
}

/// The two buckets of a fetched listing.
#[derive(Debug)]
pub struct Issues {
    pub in_progress: Vec<Issue>,
    pub todo: Vec<Issue>,
}

/// The mathematical value of an [`Issues`].
pub ghost struct IssuesView {
    pub in_progress: Seq<IssueView>,
    pub todo: Seq<IssueView>,
}

impl View for Issues {
    type V = IssuesView;

    open spec fn view(&self) -> IssuesView {
        IssuesView {
            in_progress: self.in_progress.deep_view(),
            todo: self.todo.deep_view(),
        }
    }
}

/// How fetching the listing can fail once a response has arrived.
#[derive(Debug, PartialEq, Eq, Clone, Copy)]
pub enum FetchError {
    /// The response envelope carried no data payload.
    NoDataError,
}

/// The issue snapshot a listing node decodes to: the node's fields, the
/// description empty.
pub open spec fn issue_of_node(node: ListNodeView) -> IssueView {
    IssueView {
        identifier: node.identifier,
        title: node.title,
        url: node.url,
        description: Seq::<char>::empty(),
    }
}

/// The issues a bucket's nodes decode to, in the nodes' order.
pub open spec fn issues_of_nodes_view(nodes: Seq<ListNodeView>) -> Seq<IssueView> {
    Seq::new(nodes.len(), |i: int| issue_of_node(nodes[i]))
}

fn issues_of_nodes(nodes: &Vec<ListNode>) -> (r: Vec<Issue>)
    ensures
        r.deep_view() == issues_of_nodes_view(nodes.deep_view()),
{
    let mut out: Vec<Issue> = Vec::new();
    let mut k: usize = 0;
    while k < nodes.len()
        invariant
            0 <= k <= nodes@.len(),
            nodes.deep_view().len() == nodes@.len(),
            out.deep_view() =~= issues_of_nodes_view(nodes.deep_view().take(k as int)),
        decreases nodes@.len() - k,
    {
        let node = &nodes[k];
        let issue = Issue::from_parts(
            node.identifier.clone(),
            node.title.clone(),
            node.url.clone(),
            None,
        );
        proof {
            assert(out.deep_view().len() == out@.len());
            assert(issues_of_nodes_view(nodes.deep_view().take(k as int)).len() == k);
            assert(out.deep_view().len() == k);
        }
        let ghost pre = out.deep_view();
        let ghost prev = out@;
        let ghost new_issue = issue@;
        out.push(issue);
        proof {
            assert(nodes.deep_view()[k as int] == nodes@[k as int]@);
            assert(new_issue == issue_of_node(nodes.deep_view()[k as int]));
            assert(out@ == prev.push(issue));
            assert(prev.len() == k);
            assert forall|i: int| 0 <= i < out@.len() implies out.deep_view()[i]
                == issues_of_nodes_view(nodes.deep_view().take(k + 1))[i] by {
                assert(out.deep_view()[i] == out@[i].deep_view());
                if i < k {
                    assert(out@[i] == prev[i]);
                    assert(pre[i] == prev[i].deep_view());
                    assert(pre[i] == issues_of_nodes_view(nodes.deep_view().take(k as int))[i]);
                } else {
                    assert(out@[i] == issue);
                    assert(out.deep_view()[i] == new_issue);
                }
            }
            assert(out.deep_view() =~= issues_of_nodes_view(nodes.deep_view().take(k + 1)));
        }
        k += 1;
    }
    proof {
        assert(nodes.deep_view().take(nodes@.len() as int) =~= nodes.deep_view());
    }
    out
}

/// Validates the decoded payload of the listing query: an absent payload
/// fails; a present one becomes the two buckets of issue snapshots, the
/// nodes' lengths and order preserved and each description empty.
pub fn list(data: Option<ListData>) -> (r: Result<Issues, FetchError>)
    ensures
        data is None ==> r == Err::<Issues, FetchError>(FetchError::NoDataError),
        data matches Some(d) ==> (r matches Ok(l) && l@.in_progress == issues_of_nodes_view(
            d.in_progress.deep_view(),
        ) && l@.todo == issues_of_nodes_view(d.todo.deep_view())),
{
    match data {
        None => Err(FetchError::NoDataError),
        Some(d) => Ok(
            Issues {
                in_progress: issues_of_nodes(&d.in_progress),
                todo: issues_of_nodes(&d.todo),
            },
        ),
    }
}

} // verus!
