//! Query parameters of the directory's HTTP interface, and which pull
//! requests a reminder shows to whom.
use vstd::prelude::*;
use crate::model::{Identifier, PullRequestReviewer, Vote};

verus! {

/// The interface versions the directory is asked in.
#[derive(Debug, Clone, Copy, PartialEq, Eq, Structural)]
pub enum ApiVersion {
    Six,
    SixPreview3,
}

impl ApiVersion {
    /// The query pair that names the version.
    pub fn query(&self) -> (r: (&'static str, &'static str))
        ensures
            r.0@ == "api-version"@,
            *self == ApiVersion::Six ==> r.1@ == "6.0"@,
            *self == ApiVersion::SixPreview3 ==> r.1@ == "6.0-preview.3"@,
    {
        match self {
            ApiVersion::Six => ("api-version", "6.0"),
            ApiVersion::SixPreview3 => ("api-version", "6.0-preview.3"),
        }
    }
}

/// Whose pull requests to list: those a person is assigned to, or those a person
/// created.
#[derive(Debug, Clone)]
pub enum PullRequestSearchCriteria {
    Reviewer(Identifier),
    Creator(Identifier),
}

impl PullRequestSearchCriteria {
    /// The query pair that selects the pull requests.
    pub fn query(&self) -> (r: (&str, &str))
        ensures
            match self {
                PullRequestSearchCriteria::Reviewer(id) => r.0@ == "searchCriteria.reviewerId"@ && r.1@ == id@,
                PullRequestSearchCriteria::Creator(id) => r.0@ == "searchCriteria.creatorId"@ && r.1@ == id@,
            },
    {
        match self {
            PullRequestSearchCriteria::Reviewer(id) => ("searchCriteria.reviewerId", id.0.as_str()),
            PullRequestSearchCriteria::Creator(id) => ("searchCriteria.creatorId", id.0.as_str()),
        }
    }
}

impl PullRequestReviewer {
    /// A required assignee who has neither declined nor voted, or who waits
    /// for the author, is reminded of the pull request.
    pub open spec fn awaits_review_by(&self, user: Seq<char>) -> bool {
        &&& self.id@ == user
        &&& self.is_required
        &&& !self.has_declined
        &&& (self.vote == Vote::NoVote || self.vote == Vote::WaitingForAuthor)
    }

    /// Whether this entry makes the pull request show up in the reminder of
    /// `user_id` as one to look at.
    pub fn should_be_shown_to_reviewer(&self, user_id: &Identifier) -> (r: bool)
        ensures
            r == self.awaits_review_by(user_id@),
    {
        if !self.id.same_as(user_id) || !self.is_required || self.has_declined {
            return false;
        }
        match self.vote {
            Vote::NoVote | Vote::WaitingForAuthor => true,
            Vote::Rejected | Vote::Approved | Vote::ApprovedWithSuggestions => false,
        }
    }

    /// Whether this entry makes the pull request show up in its author's
    /// reminder: the assignee waits for the author.
    pub fn should_be_shown_to_creator(&self) -> (r: bool)
        ensures
            r == (self.vote == Vote::WaitingForAuthor),
    {
        self.vote == Vote::WaitingForAuthor
    }
}

} // verus!
