use reviewporter::eligibility::OutOfOffice;
use reviewporter::model::{
    Identifier, NewPullRequestReviewer, PullRequest, PullRequestAuthor, PullRequestReviewer,
    PullRequestStatus, TeamMember, Vote,
};
use reviewporter::run::{AssignmentRun, AzureTeam, ReviewersConfig, RunAction};
use reviewporter::shuffle::KeepOrder;

const REQUIRED_TEAM: &str = "fake_required_reviewers_team_id";

fn id(value: usize) -> Identifier {
    Identifier(value.to_string())
}

fn member(value: usize) -> TeamMember {
    TeamMember {
        id: id(value),
        name: value.to_string(),
        is_container: false,
    }
}

fn members(values: impl IntoIterator<Item = usize>) -> Vec<TeamMember> {
    values.into_iter().map(member).collect()
}

fn reviewer(value: usize, is_required: bool) -> PullRequestReviewer {
    PullRequestReviewer {
        id: id(value),
        name: value.to_string(),
        is_required,
        vote: Vote::NoVote,
        has_declined: false,
    }
}

fn pull_request(author: usize, reviewers: Vec<PullRequestReviewer>) -> PullRequest {
    PullRequest {
        id: 0,
        title: String::new(),
        url: "http://some.co".to_string(),
        created_by: PullRequestAuthor {
            id: id(author),
            name: String::new(),
        },
        creation_date: 0,
        reviewers,
        status: PullRequestStatus::Active,
    }
}

fn teams() -> Vec<AzureTeam> {
    vec![
        AzureTeam {
            name: "Team_1".to_string(),
            required_reviewers_team: Some(REQUIRED_TEAM.to_string()),
        },
        AzureTeam {
            name: "Team_2".to_string(),
            required_reviewers_team: None,
        },
    ]
}

fn required(values: impl IntoIterator<Item = usize>) -> Vec<NewPullRequestReviewer> {
    values
        .into_iter()
        .map(|v| NewPullRequestReviewer { id: id(v), is_required: true })
        .collect()
}

fn optional(values: impl IntoIterator<Item = usize>) -> Vec<NewPullRequestReviewer> {
    values
        .into_iter()
        .map(|v| NewPullRequestReviewer { id: id(v), is_required: false })
        .collect()
}

/// Drives a run against in-memory rosters; returns what was submitted, if
/// anything, and the teams fetched, in order.
fn drive(
    config: ReviewersConfig,
    all_members: Vec<TeamMember>,
    pr: &PullRequest,
    out_of_office: OutOfOffice,
    rosters: &[(&str, Vec<TeamMember>)],
) -> (Option<Vec<NewPullRequestReviewer>>, Vec<String>) {
    let (mut run, mut action) = AssignmentRun::start(config, all_members, pr, out_of_office);
    let mut fetched = Vec::new();
    loop {
        match action {
            RunAction::FetchTeam(team) => {
                fetched.push(team.0.clone());
                let roster = rosters
                    .iter()
                    .find(|(name, _)| *name == team.0)
                    .map(|(_, m)| m.clone())
                    .unwrap_or_default();
                action = run.on_team_members(&KeepOrder, roster);
            }
            RunAction::Submit(entries) => return (Some(entries), fetched),
            RunAction::Stop => return (None, fetched),
        }
    }
}

/// The shared fixture of the service tests: the whole team is 0..10, the
/// author 0, the target 2, and the approvers' team 3..5.
fn run_fixture(
    existing: Vec<PullRequestReviewer>,
    team_members: std::ops::Range<usize>,
    out_of_office: OutOfOffice,
) -> Vec<NewPullRequestReviewer> {
    let pr = pull_request(0, existing);
    let rosters = [
        ("Team_1", members(team_members)),
        (REQUIRED_TEAM, members(3..5)),
    ];
    let (submitted, fetched) = drive(
        ReviewersConfig::new(2, teams()),
        members(0..10),
        &pr,
        out_of_office,
        &rosters,
    );
    assert_eq!(fetched, vec!["Team_1".to_string(), REQUIRED_TEAM.to_string()]);
    submitted.expect("an active pull request gets a submission")
}

#[test]
fn new_reviewers_added() {
    let mut expected = required([1, 3]);
    expected.extend(optional([2, 4, 5, 6, 7, 8, 9]));
    assert_eq!(run_fixture(vec![], 0..3, OutOfOffice::nobody()), expected);
}

#[test]
fn existing_reviewers_not_added() {
    let existing = [1, 4, 8].into_iter().map(|v| reviewer(v, false)).collect();
    let mut expected = required([2, 3]);
    expected.extend(optional([5, 6, 7, 9]));
    assert_eq!(run_fixture(existing, 0..3, OutOfOffice::nobody()), expected);
}

#[test]
fn existing_required_reviewers_taken_into_account() {
    let existing = [(1, false), (4, false), (9, true)]
        .into_iter()
        .map(|(v, r)| reviewer(v, r))
        .collect();
    let mut expected = required([2]);
    expected.extend(optional([3, 5, 6, 7, 8]));
    assert_eq!(run_fixture(existing, 0..3, OutOfOffice::nobody()), expected);
}

#[test]
fn reviewers_on_vacation_not_required() {
    let away = OutOfOffice::Listed((0..=6).map(|v: usize| v.to_string()).collect());
    let mut expected = required([7, 8]);
    expected.extend(optional(std::iter::once(9).chain(1..=6)));
    assert_eq!(run_fixture(vec![], 0..3, away), expected);
}

#[test]
fn new_reviewers_unique() {
    let mut expected = required([1, 4]);
    expected.extend(optional((2..4).chain(5..10)));
    assert_eq!(run_fixture(vec![], 0..4, OutOfOffice::nobody()), expected);
}

#[test]
fn scenario_identity_shuffle() {
    let pr = pull_request(1, vec![]);
    let rosters = [("Team_1", members(1..=3)), (REQUIRED_TEAM, members(4..=5))];
    let (submitted, _) = drive(
        ReviewersConfig::new(2, teams()),
        members(1..=9),
        &pr,
        OutOfOffice::nobody(),
        &rosters,
    );
    let mut expected = required([2, 4]);
    expected.extend(optional([3, 5, 6, 7, 8, 9]));
    assert_eq!(submitted, Some(expected));
}

#[test]
fn scenario_inactive_pull_request() {
    let mut pr = pull_request(0, vec![]);
    pr.status = PullRequestStatus::Abandoned;
    let rosters = [("Team_1", members(0..3)), (REQUIRED_TEAM, members(3..5))];
    let (submitted, fetched) = drive(
        ReviewersConfig::new(2, teams()),
        members(0..10),
        &pr,
        OutOfOffice::nobody(),
        &rosters,
    );
    assert_eq!(submitted, None);
    assert!(fetched.is_empty());
}

#[test]
fn zero_target_skips_the_team_search() {
    let pr = pull_request(0, vec![]);
    let (submitted, fetched) = drive(
        ReviewersConfig::new(0, teams()),
        members(0..4),
        &pr,
        OutOfOffice::nobody(),
        &[],
    );
    assert!(fetched.is_empty());
    assert_eq!(submitted, Some(optional([1, 2, 3])));
}

#[test]
fn author_in_no_team_fills_from_the_whole_team() {
    let pr = pull_request(7, vec![]);
    let rosters = [("Team_1", members(0..3)), ("Team_2", members(3..5))];
    let (submitted, fetched) = drive(
        ReviewersConfig::new(2, teams()),
        members(5..10),
        &pr,
        OutOfOffice::nobody(),
        &rosters,
    );
    assert_eq!(fetched, vec!["Team_1".to_string(), "Team_2".to_string()]);
    let mut expected = required([5, 6]);
    expected.extend(optional([8, 9]));
    assert_eq!(submitted, Some(expected));
}

#[test]
fn second_team_without_required_team() {
    let pr = pull_request(4, vec![]);
    let rosters = [("Team_1", members(0..3)), ("Team_2", members(3..6))];
    let (submitted, fetched) = drive(
        ReviewersConfig::new(1, teams()),
        members(0..8),
        &pr,
        OutOfOffice::nobody(),
        &rosters,
    );
    assert_eq!(fetched, vec!["Team_1".to_string(), "Team_2".to_string()]);
    let mut expected = required([3]);
    expected.extend(optional([5, 0, 1, 2, 6, 7]));
    assert_eq!(submitted, Some(expected));
}

#[test]
fn nobody_left_to_add_submits_an_empty_list() {
    let existing = (1..4).map(|v| reviewer(v, true)).collect();
    let pr = pull_request(0, existing);
    let (submitted, _) = drive(
        ReviewersConfig::new(2, teams()),
        members(0..4),
        &pr,
        OutOfOffice::nobody(),
        &[],
    );
    assert_eq!(submitted, Some(vec![]));
}

#[test]
fn everyone_out_of_office_but_listed() {
    let pr = pull_request(0, vec![]);
    let away = OutOfOffice::AllExcept(vec!["2".to_string(), "5".to_string()]);
    let (submitted, _) = drive(
        ReviewersConfig::new(0, teams()),
        members(0..6),
        &pr,
        away,
        &[],
    );
    assert_eq!(submitted, Some(optional([2, 5, 1, 3, 4])));
}
