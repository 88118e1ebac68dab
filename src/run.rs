//! One assignment run as a sequence of decisions. The caller fetches the full
//! team and the pull request, starts the run, performs each action it returns
//! (fetch a roster, submit, or stop) and hands back what it fetched.
use vstd::prelude::*;
use crate::model::{
    Identifier, TeamMember, PullRequest, PullRequestStatus, NewPullRequestReviewer, member_ids,
    reviewer_ids, id_views, assignment_views,
};
use crate::eligibility::{Eligibility, OutOfOffice};
use crate::assignment::{plan, required_left, required_reviewers_left, plan_reviewers};
use crate::shuffle::{TeamsShuffler, same_members};

verus! {

/// A development team, and the team whose members count as required
/// assignees for its changes, if it has one.
#[derive(Debug, Clone)]
pub struct AzureTeam {
    pub name: String,
    pub required_reviewers_team: Option<String>,
}

/// How many required assignees a pull request should have, and the
/// development teams in the order in which they are searched for its author.
#[derive(Debug, Clone)]
pub struct ReviewersConfig {
    pub required_reviewers_count: usize,
    pub teams: Vec<AzureTeam>,
}

impl ReviewersConfig {
    pub fn new(required_reviewers_count: usize, teams: Vec<AzureTeam>) -> (r: ReviewersConfig)
        ensures
            r.required_reviewers_count == required_reviewers_count,
            r.teams@ == teams@,
    {
        ReviewersConfig { required_reviewers_count, teams }
    }
}

/// What the caller does next.
#[derive(Debug)]
pub enum RunAction {
    /// Fetch the members of this team and hand them to `on_team_members`.
    FetchTeam(Identifier),
    /// Add these assignees to the pull request; the run is over.
    Submit(Vec<NewPullRequestReviewer>),
    /// The pull request is not active: nothing is submitted.
    Stop,
}

pub open spec fn fetches(a: RunAction, team: Seq<char>) -> bool {
    match a {
        RunAction::FetchTeam(id) => id@ == team,
        _ => false,
    }
}

pub open spec fn submits(a: RunAction, entries: Seq<(Seq<char>, bool)>) -> bool {
    match a {
        RunAction::Submit(v) => assignment_views(v@) == entries,
        _ => false,
    }
}

/// Where a run stands.
#[derive(Debug)]
pub enum RunStage {
    /// The roster of the team at this position is being fetched, to see
    /// whether the author is in it.
    SearchingAuthor(usize),
    /// The author's team is known; the roster of its approvers' team
    /// is being fetched.
    AwaitingRequired(Vec<TeamMember>),
    /// The run is over.
    Done,
}

/// The state of one run.
#[derive(Debug)]
pub struct AssignmentRun {
    pub teams: Vec<AzureTeam>,
    pub left: usize,
    pub all_members: Vec<TeamMember>,
    pub rules: Eligibility,
    pub stage: RunStage,
}

/// The rules of a run on this pull request.
pub open spec fn rules_of(rules: Eligibility, pull_request: PullRequest, out_of_office: OutOfOffice) -> bool {
    &&& rules.author@ == pull_request.created_by.id@
    &&& id_views(rules.existing@) == reviewer_ids(pull_request.reviewers@)
    &&& rules.out_of_office == out_of_office
}

/// The rules of a run: the author, the assignees already on the pull
/// request, and who is out of office.
pub fn eligibility_for(pull_request: &PullRequest, out_of_office: OutOfOffice) -> (r: Eligibility)
    ensures
        rules_of(r, *pull_request, out_of_office),
{
    let mut existing: Vec<Identifier> = Vec::new();
    let mut i: usize = 0;
    while i < pull_request.reviewers.len()
        invariant
            i <= pull_request.reviewers.len(),
            id_views(existing@) == reviewer_ids(pull_request.reviewers@.subrange(0, i as int)),
        decreases pull_request.reviewers.len() - i,
    {
        let ghost before = existing@;
        existing.push(pull_request.reviewers[i].id.duplicate());
        assert(id_views(existing@) =~= id_views(before).push(pull_request.reviewers@[i as int].id@));
        assert(reviewer_ids(pull_request.reviewers@.subrange(0, i + 1)) =~= reviewer_ids(
            pull_request.reviewers@.subrange(0, i as int),
        ).push(pull_request.reviewers@[i as int].id@));
        i += 1;
    }
    assert(pull_request.reviewers@.subrange(0, pull_request.reviewers.len() as int) =~= pull_request.reviewers@);
    Eligibility { author: pull_request.created_by.id.duplicate(), existing, out_of_office }
}

/// Whether a roster holds the person.
pub fn roster_contains(members: &Vec<TeamMember>, id: &Identifier) -> (r: bool)
    ensures
        r == member_ids(members@).contains(id@),
{
    let mut i: usize = 0;
    while i < members.len()
        invariant
            i <= members.len(),
            forall|j: int| 0 <= j < i ==> members@[j].id@ != id@,
        decreases members.len() - i,
    {
        if members[i].id.same_as(id) {
            assert(member_ids(members@)[i as int] == id@);
            return true;
        }
        i += 1;
    }
    proof {
        if member_ids(members@).contains(id@) {
            let k = choose|k: int| 0 <= k < member_ids(members@).len() && member_ids(members@)[k] == id@;
            assert(members@[k].id@ == id@);
        }
    }
    false
}

impl AssignmentRun {
    pub open spec fn wf(&self) -> bool {
        match self.stage {
            RunStage::SearchingAuthor(i) => i < self.teams.len(),
            _ => true,
        }
    }

    pub open spec fn is_over(&self) -> bool {
        self.stage is Done
    }

    /// The submission of a run whose pools came out as `peers` and `required`.
    pub open spec fn outcome(&self, peers: Seq<TeamMember>, required: Seq<TeamMember>) -> Seq<(Seq<char>, bool)> {
        plan(self.left as nat, self.all_members@, peers, required, self.rules)
    }

    /// Starts a run on the full team and the pull request. An inactive pull
    /// request ends it at once with nothing to submit. With no required slot
    /// open, or no team to search, the team fills the list. Else the first
    /// team's roster is asked for.
    pub fn start(config: ReviewersConfig, all_members: Vec<TeamMember>, pull_request: &PullRequest, out_of_office: OutOfOffice) -> (r: (AssignmentRun, RunAction))
        ensures
            r.0.wf(),
            r.0.all_members@ == all_members@,
            r.0.teams@ == config.teams@,
            rules_of(r.0.rules, *pull_request, out_of_office),
            pull_request.status != PullRequestStatus::Active ==> r.1 is Stop && r.0.is_over(),
            pull_request.status == PullRequestStatus::Active ==> {
                &&& r.0.left == required_left(pull_request.reviewers@, config.required_reviewers_count as nat)
                &&& (r.0.left == 0 || config.teams.len() == 0) ==> submits(r.1, r.0.outcome(seq![], seq![])) && r.0.is_over()
                &&& (r.0.left > 0 && config.teams.len() > 0) ==> fetches(r.1, config.teams@[0].name@)
                    && r.0.stage == RunStage::SearchingAuthor(0)
            },
    {
        let rules = eligibility_for(pull_request, out_of_office);
        if pull_request.status != PullRequestStatus::Active {
            let run = AssignmentRun { teams: config.teams, left: 0, all_members, rules, stage: RunStage::Done };
            return (run, RunAction::Stop);
        }
        let left = required_reviewers_left(pull_request, config.required_reviewers_count);
        if left == 0 || config.teams.len() == 0 {
            let none: Vec<TeamMember> = Vec::new();
            let plan = plan_reviewers(left, &all_members, &none, &none, &rules);
            let run = AssignmentRun { teams: config.teams, left, all_members, rules, stage: RunStage::Done };
            return (run, RunAction::Submit(plan));
        }
        let first = Identifier(config.teams[0].name.clone());
        let run = AssignmentRun { teams: config.teams, left, all_members, rules, stage: RunStage::SearchingAuthor(0) };
        (run, RunAction::FetchTeam(first))
    }

    /// Shuffles the two pools once, then plans the submission.
    fn finish<S: TeamsShuffler>(&mut self, shuffler: &S, peers: Vec<TeamMember>, required: Vec<TeamMember>) -> (r: RunAction)
        ensures
            final(self).is_over(),
            final(self).teams@ == old(self).teams@,
            final(self).left == old(self).left,
            final(self).all_members@ == old(self).all_members@,
            final(self).rules == old(self).rules,
            exists|p: Seq<TeamMember>, q: Seq<TeamMember>|
                #![trigger same_members(p, peers@), same_members(q, required@)]
                same_members(p, peers@) && same_members(q, required@) && submits(r, old(self).outcome(p, q)),
    {
        let (p, q) = shuffler.shuffle_teams(peers, required);
        let entries = plan_reviewers(self.left, &self.all_members, &p, &q, &self.rules);
        self.stage = RunStage::Done;
        RunAction::Submit(entries)
    }

    /// Takes the roster that the last `FetchTeam` asked for.
    ///
    /// While the author is searched: when the roster holds the author and its
    /// team names an approvers' team, that roster is asked for; when
    /// it names none, the run submits with the roster as peers. When the
    /// roster does not hold the author, the next team is asked for, and after
    /// the last one the run submits with no peers. Once the approvers'
    /// roster is in, the run submits.
    pub fn on_team_members<S: TeamsShuffler>(&mut self, shuffler: &S, members: Vec<TeamMember>) -> (r: RunAction)
        requires
            old(self).wf(),
            !old(self).is_over(),
        ensures
            final(self).wf(),
            final(self).teams@ == old(self).teams@,
            final(self).left == old(self).left,
            final(self).all_members@ == old(self).all_members@,
            final(self).rules == old(self).rules,
            match old(self).stage {
                RunStage::SearchingAuthor(i) => {
                    let team = old(self).teams@[i as int];
                    if member_ids(members@).contains(old(self).rules.author@) {
                        match team.required_reviewers_team {
                            Some(name) => fetches(r, name@) && final(self).stage == RunStage::AwaitingRequired(members),
                            None => final(self).is_over() && exists|p: Seq<TeamMember>, q: Seq<TeamMember>|
                                #![trigger same_members(p, members@), same_members(q, Seq::<TeamMember>::empty())]
                                same_members(p, members@) && same_members(q, Seq::<TeamMember>::empty())
                                    && submits(r, old(self).outcome(p, q)),
                        }
                    } else if i + 1 < old(self).teams.len() {
                        fetches(r, old(self).teams@[i + 1].name@) && final(self).stage == RunStage::SearchingAuthor(
                            (i + 1) as usize,
                        )
                    } else {
                        final(self).is_over() && submits(r, old(self).outcome(seq![], seq![]))
                    }
                },
                RunStage::AwaitingRequired(peers) => final(self).is_over() && exists|
                    p: Seq<TeamMember>,
                    q: Seq<TeamMember>,
                |
                    #![trigger same_members(p, peers@), same_members(q, members@)]
                    same_members(p, peers@) && same_members(q, members@) && submits(r, old(self).outcome(p, q)),
                RunStage::Done => false,
            },
    {
        let mut stage = RunStage::Done;
        std::mem::swap(&mut stage, &mut self.stage);
        match stage {
            RunStage::SearchingAuthor(i) => {
                if roster_contains(&members, &self.rules.author) {
                    match &self.teams[i].required_reviewers_team {
                        Some(name) => {
                            let next = Identifier(name.clone());
                            self.stage = RunStage::AwaitingRequired(members);
                            RunAction::FetchTeam(next)
                        },
                        None => self.finish(shuffler, members, Vec::new()),
                    }
                } else if i + 1 < self.teams.len() {
                    self.stage = RunStage::SearchingAuthor(i + 1);
                    RunAction::FetchTeam(Identifier(self.teams[i + 1].name.clone()))
                } else {
                    let none: Vec<TeamMember> = Vec::new();
                    let entries = plan_reviewers(self.left, &self.all_members, &none, &none, &self.rules);
                    RunAction::Submit(entries)
                }
            },
            RunStage::AwaitingRequired(peers) => self.finish(shuffler, peers, members),
            RunStage::Done => RunAction::Stop,
        }
    }
}

} // verus!
