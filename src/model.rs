//! The records the assignment logic reads and writes.
use vstd::prelude::*;

verus! {

/// An opaque handle for a person or a team.
#[derive(Debug, Hash)]
pub struct Identifier(pub String);

impl View for Identifier {
    type V = Seq<char>;

    open spec fn view(&self) -> Seq<char> {
        self.0@
    }
}

impl Identifier {
    /// A copy that holds the same text.
    pub fn duplicate(&self) -> (r: Identifier)
        ensures
            r@ == self@,
    {
        Identifier(self.0.clone())
    }

    /// Whether two handles name the same person.
    pub fn same_as(&self, other: &Identifier) -> (r: bool)
        ensures
            r == (self@ == other@),
    {
        self.0 == other.0
    }
}

impl Clone for Identifier {
    fn clone(&self) -> (r: Identifier)
        ensures
            r@ == self@,
    {
        self.duplicate()
    }
}

impl PartialEq for Identifier {
    fn eq(&self, other: &Identifier) -> (r: bool) {
        self.same_as(other)
    }
}

impl vstd::std_specs::cmp::PartialEqSpecImpl for Identifier {
    open spec fn obeys_eq_spec() -> bool {
        true
    }

    open spec fn eq_spec(&self, other: &Identifier) -> bool {
        self@ == other@
    }
}

impl Eq for Identifier {}

/// A member of a team as the directory reports it.
#[derive(Debug)]
pub struct TeamMember {
    pub id: Identifier,
    pub name: String,
    pub is_container: bool,
}

impl TeamMember {
    pub fn duplicate(&self) -> (r: TeamMember)
        ensures
            r.id@ == self.id@,
            r.name@ == self.name@,
            r.is_container == self.is_container,
    {
        TeamMember { id: self.id.duplicate(), name: self.name.clone(), is_container: self.is_container }
    }
}

impl Clone for TeamMember {
    fn clone(&self) -> (r: TeamMember)
        ensures
            r.id@ == self.id@,
            r.name@ == self.name@,
            r.is_container == self.is_container,
    {
        self.duplicate()
    }
}

/// The person who opened a pull request.
#[derive(Debug)]
pub struct PullRequestAuthor {
    pub id: Identifier,
    pub name: String,
}

/// A vote cast on a pull request.
#[derive(PartialEq, Eq, Structural, Debug, Clone, Copy)]
pub enum Vote {
    Rejected,
    WaitingForAuthor,
    NoVote,
    ApprovedWithSuggestions,
    Approved,
}

/// An assignee already on a pull request.
#[derive(Debug)]
pub struct PullRequestReviewer {
    pub id: Identifier,
    pub name: String,
    pub is_required: bool,
    pub vote: Vote,
    pub has_declined: bool,
}

/// The state of a pull request.
#[derive(PartialEq, Eq, Structural, Debug, Clone, Copy)]
pub enum PullRequestStatus {
    Abandoned,
    Active,
    NotSet,
    All,
    Completed,
}

/// A snapshot of a pull request. The link is kept as text and the creation
/// time as seconds since the Unix epoch.
#[derive(Debug)]
pub struct PullRequest {
    pub id: usize,
    pub title: String,
    pub url: String,
    pub created_by: PullRequestAuthor,
    pub creation_date: i64,
    pub reviewers: Vec<PullRequestReviewer>,
    pub status: PullRequestStatus,
}

/// A team of the project.
#[derive(Debug, Clone)]
pub struct Team {
    pub name: String,
}

/// An assignee to be added to a pull request.
#[derive(Debug, Clone, PartialEq, Eq)]
pub struct NewPullRequestReviewer {
    pub id: Identifier,
    pub is_required: bool,
}

impl View for NewPullRequestReviewer {
    type V = (Seq<char>, bool);

    open spec fn view(&self) -> (Seq<char>, bool) {
        (self.id@, self.is_required)
    }
}

/// The identifiers of a list of members, in order.
pub open spec fn member_ids(members: Seq<TeamMember>) -> Seq<Seq<char>> {
    members.map_values(|m: TeamMember| m.id@)
}

/// The identifiers of a list of handles, in order.
pub open spec fn id_views(ids: Seq<Identifier>) -> Seq<Seq<char>> {
    ids.map_values(|i: Identifier| i@)
}

/// The identifiers of the assignees already on a pull request.
pub open spec fn reviewer_ids(reviewers: Seq<PullRequestReviewer>) -> Seq<Seq<char>> {
    reviewers.map_values(|r: PullRequestReviewer| r.id@)
}

/// The tagged entries of an assignment, viewed as (identifier, required).
pub open spec fn assignment_views(entries: Seq<NewPullRequestReviewer>) -> Seq<(Seq<char>, bool)> {
    entries.map_values(|e: NewPullRequestReviewer| e@)
}

} // verus!
