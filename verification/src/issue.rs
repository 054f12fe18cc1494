use vstd::prelude::*;

verus! {

/// An immutable snapshot of an issue as the remote service reports it.
///
/// The remote schema also carries a numeric sort order for listings; the
/// client never reads it (listing order is whatever the service returns),
/// so it is not part of this record.
#[derive(Debug, PartialEq, Eq, Clone)]
pub struct Issue {
    pub identifier: String,
    pub title: String,
    pub url: String,
    pub description: String,
}

/// The mathematical value of an [`Issue`]: its four fields as
/// character sequences.
pub ghost struct IssueView {
    pub identifier: Seq<char>,
    pub title: Seq<char>,
    pub url: Seq<char>,
    pub description: Seq<char>,
}

impl View for Issue {
    type V = IssueView;

    open spec fn view(&self) -> IssueView {
        IssueView {
            identifier: self.identifier@,
            title: self.title@,
            url: self.url@,
            description: self.description@,
        }
    }
}

impl DeepView for Issue {
    type V = IssueView;

    open spec fn deep_view(&self) -> IssueView {
        self.view()
    }
}

impl Issue {
    /// Builds an issue snapshot from the fields of a decoded response node.
    /// A node may omit the description; it then defaults to the empty string.
    pub fn from_parts(
        identifier: String,
        title: String,
        url: String,
        description: Option<String>,
    ) -> (issue: Issue)
        ensures
            issue.identifier@ == identifier@,
            issue.title@ == title@,
            issue.url@ == url@,
            description matches Some(d) ==> issue.description@ == d@,
            description is None ==> issue.description@ == Seq::<char>::empty(),
    {
        let description = match description {
            Some(d) => d,
            None => String::new(),
        };
        Issue { identifier, title, url, description }
    }
}

} // verus!
