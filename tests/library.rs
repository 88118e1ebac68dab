use reviewporter::assignment::{
    count_required_reviewers, fill_reviewers, plan_reviewers, required_reviewers_left,
    tag_reviewers,
};
use reviewporter::directory::{ApiVersion, PullRequestSearchCriteria};
use reviewporter::eligibility::{contains_id, contains_text, Eligibility, OutOfOffice};
use reviewporter::model::{
    Identifier, NewPullRequestReviewer, PullRequest, PullRequestAuthor, PullRequestReviewer,
    PullRequestStatus, TeamMember, Vote,
};
use reviewporter::run::{eligibility_for, roster_contains};
use reviewporter::selection::{collect_eligible, ids_of, interleave_candidates};
use reviewporter::shuffle::{select_reviewers, KeepOrder, RandomShuffler, TeamsShuffler};
use reviewporter::slack::{available_users, User};

fn id(value: usize) -> Identifier {
    Identifier(value.to_string())
}

fn ids(values: &[usize]) -> Vec<Identifier> {
    values.iter().map(|v| id(*v)).collect()
}

fn member(value: usize) -> TeamMember {
    TeamMember {
        id: id(value),
        name: format!("n{value}"),
        is_container: false,
    }
}

fn members(values: impl IntoIterator<Item = usize>) -> Vec<TeamMember> {
    values.into_iter().map(member).collect()
}

fn reviewer(value: usize, is_required: bool, vote: Vote, has_declined: bool) -> PullRequestReviewer {
    PullRequestReviewer {
        id: id(value),
        name: value.to_string(),
        is_required,
        vote,
        has_declined,
    }
}

fn rules(author: usize, existing: &[usize], away: &[usize]) -> Eligibility {
    Eligibility {
        author: id(author),
        existing: ids(existing),
        out_of_office: OutOfOffice::Listed(away.iter().map(|v| format!("n{v}")).collect()),
    }
}

fn texts(entries: &[NewPullRequestReviewer]) -> Vec<String> {
    entries.iter().map(|e| e.id.0.clone()).collect()
}

fn flags(entries: &[NewPullRequestReviewer]) -> Vec<bool> {
    entries.iter().map(|e| e.is_required).collect()
}

fn strings(values: &[usize]) -> Vec<String> {
    values.iter().map(|v| v.to_string()).collect()
}

#[test]
fn interleave_takes_turns_then_drains_the_longer_pool() {
    let r = interleave_candidates(&members(1..4), &members(4..8), &rules(0, &[], &[]));
    assert_eq!(r, ids(&[1, 4, 2, 5, 3, 6, 7]));
    let r = interleave_candidates(&members(1..5), &members(5..6), &rules(0, &[], &[]));
    assert_eq!(r, ids(&[1, 5, 2, 3, 4]));
}

#[test]
fn interleave_offers_a_peer_once() {
    let peers = members([1, 2]);
    let required = members([2, 4]);
    let r = interleave_candidates(&peers, &required, &rules(0, &[], &[]));
    assert_eq!(r, ids(&[1, 4, 2]));
}

#[test]
fn interleave_filters_both_pools() {
    let r = interleave_candidates(&members(0..4), &members(4..8), &rules(0, &[2, 5], &[3, 6]));
    assert_eq!(r, ids(&[1, 4, 7]));
}

#[test]
fn collect_eligible_skips_listed_ids() {
    let r = collect_eligible(&members(0..5), &rules(9, &[], &[]), &ids(&[1, 3]));
    assert_eq!(r, ids(&[0, 2, 4]));
    assert_eq!(ids_of(&members([3, 1])), ids(&[3, 1]));
}

#[test]
fn random_shuffle_keeps_the_members() {
    let first = members(0..20);
    let second = members(20..25);
    let (a, b) = RandomShuffler.shuffle_teams(first.clone(), second.clone());
    let mut a_ids: Vec<usize> = a.iter().map(|m| m.id.0.parse().unwrap()).collect();
    let mut b_ids: Vec<usize> = b.iter().map(|m| m.id.0.parse().unwrap()).collect();
    a_ids.sort();
    b_ids.sort();
    assert_eq!(a_ids, (0..20).collect::<Vec<_>>());
    assert_eq!(b_ids, (20..25).collect::<Vec<_>>());
}

#[test]
fn random_shuffle_changes_the_order() {
    let unshuffled = ids_of(&members(0..20));
    let moved = (0..5).any(|_| {
        let (a, _) = RandomShuffler.shuffle_teams(members(0..20), vec![]);
        ids_of(&a) != unshuffled
    });
    assert!(moved);
}

#[test]
fn keep_order_keeps_the_order() {
    let (a, b) = KeepOrder.shuffle_teams(members([3, 1, 2]), members([5, 4]));
    assert_eq!(ids_of(&a), ids(&[3, 1, 2]));
    assert_eq!(ids_of(&b), ids(&[5, 4]));
}

#[test]
fn random_selection_offers_every_eligible_candidate_once() {
    let r = select_reviewers(&RandomShuffler, members(0..6), members(4..9), &rules(0, &[7], &[2]));
    let mut got: Vec<usize> = r.iter().map(|i| i.0.parse().unwrap()).collect();
    got.sort();
    assert_eq!(got, vec![1, 3, 4, 5, 6, 8]);
}

#[test]
fn plan_never_holds_the_author() {
    let rules = rules(2, &[], &[]);
    let r = plan_reviewers(3, &members(0..6), &members(1..4), &members(2..5), &rules);
    assert!(r.iter().all(|e| e.id != id(2)));
    assert_eq!(texts(&r), strings(&[1, 4, 3, 0, 5]));
}

#[test]
fn plan_has_no_duplicates_and_no_existing_reviewers() {
    let rules = rules(0, &[3, 5], &[]);
    let r = plan_reviewers(2, &members([1, 2, 3, 2, 4, 5, 6]), &members(0..4), &members(2..7), &rules);
    let got = texts(&r);
    let mut sorted = got.clone();
    sorted.sort();
    sorted.dedup();
    assert_eq!(sorted.len(), got.len());
    assert!(!got.contains(&"3".to_string()) && !got.contains(&"5".to_string()));
    assert_eq!(got, strings(&[1, 4, 2, 6]));
}

#[test]
fn plan_flags_as_many_as_slots_are_open() {
    let rules = rules(0, &[], &[]);
    let r = plan_reviewers(2, &members(0..5), &members(0..3), &members(3..5), &rules);
    assert_eq!(flags(&r), vec![true, true, false, false]);
    let r = plan_reviewers(7, &members(0..4), &members(0..2), &members(2..4), &rules);
    assert_eq!(flags(&r), vec![true, true, true]);
    let r = plan_reviewers(0, &members(0..4), &members(0..2), &members(2..4), &rules);
    assert_eq!(flags(&r), vec![false, false, false]);
}

#[test]
fn plan_puts_required_entries_first() {
    let rules = rules(0, &[], &[1]);
    let r = plan_reviewers(3, &members(0..8), &members(0..3), &members(3..6), &rules);
    let f = flags(&r);
    let first_optional = f.iter().position(|x| !x).unwrap();
    assert!(f[first_optional..].iter().all(|x| !x));
    assert_eq!(first_optional, 3);
}

#[test]
fn rerun_after_saturation_adds_nobody() {
    let first = rules(0, &[6], &[]);
    let r = plan_reviewers(2, &members(0..8), &members(0..3), &members(3..5), &first);
    let mut existing = vec![6];
    existing.extend(r.iter().map(|e| e.id.0.parse::<usize>().unwrap()));
    let again = rules(0, &existing, &[]);
    let r2 = plan_reviewers(2, &members(0..8), &members([2, 1, 0]), &members([4, 3]), &again);
    assert!(r2.is_empty());
}

#[test]
fn fill_puts_present_members_before_absent_ones() {
    let rules = rules(0, &[], &[1, 2]);
    let r = plan_reviewers(0, &members(0..5), &members(0..3), &members(3..5), &rules);
    assert_eq!(texts(&r), strings(&[3, 4, 1, 2]));
}

#[test]
fn fill_skips_ids_already_listed() {
    let rules = rules(0, &[4], &[]);
    let r = fill_reviewers(ids(&[2]), &members([1, 2, 3, 3, 4, 5]), &rules);
    assert_eq!(r, ids(&[2, 1, 3, 5]));
}

#[test]
fn tag_flags_the_first_positions() {
    let r = tag_reviewers(&ids(&[5, 6, 7]), 1);
    assert_eq!(flags(&r), vec![true, false, false]);
    assert_eq!(texts(&r), strings(&[5, 6, 7]));
}

fn pull_request(reviewers: Vec<PullRequestReviewer>) -> PullRequest {
    PullRequest {
        id: 1,
        title: "t".to_string(),
        url: "http://some.co".to_string(),
        created_by: PullRequestAuthor {
            id: id(9),
            name: "author".to_string(),
        },
        creation_date: 0,
        reviewers,
        status: PullRequestStatus::Active,
    }
}

#[test]
fn open_required_slots() {
    let pr = pull_request(vec![
        reviewer(1, true, Vote::NoVote, false),
        reviewer(2, false, Vote::NoVote, false),
        reviewer(3, true, Vote::Approved, false),
    ]);
    assert_eq!(count_required_reviewers(&pr.reviewers), 2);
    assert_eq!(required_reviewers_left(&pr, 5), 3);
    assert_eq!(required_reviewers_left(&pr, 2), 0);
    assert_eq!(required_reviewers_left(&pr, 1), 0);
}

#[test]
fn eligibility_of_a_pull_request() {
    let pr = pull_request(vec![reviewer(1, true, Vote::NoVote, false)]);
    let rules = eligibility_for(&pr, OutOfOffice::nobody());
    assert_eq!(rules.author, id(9));
    assert_eq!(rules.existing, ids(&[1]));
    assert!(!rules.allows(&member(9)));
    assert!(!rules.allows(&member(1)));
    assert!(rules.allows(&member(2)));
}

#[test]
fn out_of_office_forms() {
    let listed = OutOfOffice::Listed(vec!["a".to_string()]);
    assert!(listed.is_out_of_office(&"a".to_string()));
    assert!(!listed.is_out_of_office(&"b".to_string()));
    let all_but = OutOfOffice::AllExcept(vec!["a".to_string()]);
    assert!(!all_but.is_out_of_office(&"a".to_string()));
    assert!(all_but.is_out_of_office(&"b".to_string()));
    assert!(!OutOfOffice::nobody().is_out_of_office(&"a".to_string()));
}

#[test]
fn membership_lookups() {
    assert!(contains_text(&vec!["x".to_string(), "y".to_string()], &"y".to_string()));
    assert!(!contains_text(&vec![], &"y".to_string()));
    assert!(contains_id(&ids(&[1, 2]), &id(2)));
    assert!(!contains_id(&ids(&[1, 2]), &id(3)));
    assert!(roster_contains(&members(0..3), &id(1)));
    assert!(!roster_contains(&members(0..3), &id(3)));
}

#[test]
fn identifiers_compare_by_text() {
    assert_eq!(id(4), Identifier("4".to_string()));
    assert_ne!(id(4), id(5));
    assert!(id(4).same_as(&id(4).duplicate()));
    assert_eq!(member(3).duplicate().name, "n3");
}

#[test]
fn api_version_query() {
    assert_eq!(ApiVersion::Six.query(), ("api-version", "6.0"));
    assert_eq!(ApiVersion::SixPreview3.query(), ("api-version", "6.0-preview.3"));
}

#[test]
fn search_criteria_query() {
    let r = PullRequestSearchCriteria::Reviewer(id(7));
    assert_eq!(r.query(), ("searchCriteria.reviewerId", "7"));
    let c = PullRequestSearchCriteria::Creator(id(8));
    assert_eq!(c.query(), ("searchCriteria.creatorId", "8"));
}

#[test]
fn shown_to_reviewer() {
    let user = id(1);
    assert!(reviewer(1, true, Vote::NoVote, false).should_be_shown_to_reviewer(&user));
    assert!(reviewer(1, true, Vote::WaitingForAuthor, false).should_be_shown_to_reviewer(&user));
    assert!(!reviewer(1, true, Vote::Approved, false).should_be_shown_to_reviewer(&user));
    assert!(!reviewer(1, true, Vote::ApprovedWithSuggestions, false).should_be_shown_to_reviewer(&user));
    assert!(!reviewer(1, true, Vote::Rejected, false).should_be_shown_to_reviewer(&user));
    assert!(!reviewer(1, false, Vote::NoVote, false).should_be_shown_to_reviewer(&user));
    assert!(!reviewer(1, true, Vote::NoVote, true).should_be_shown_to_reviewer(&user));
    assert!(!reviewer(2, true, Vote::NoVote, false).should_be_shown_to_reviewer(&user));
}

#[test]
fn shown_to_creator() {
    assert!(reviewer(1, false, Vote::WaitingForAuthor, false).should_be_shown_to_creator());
    assert!(!reviewer(1, true, Vote::NoVote, false).should_be_shown_to_creator());
    assert!(!reviewer(1, true, Vote::Rejected, false).should_be_shown_to_creator());
}

fn user(id: &str, name: &str, status: &str) -> User {
    User {
        id: id.to_string(),
        name: name.to_string(),
        status_text: status.to_string(),
    }
}

#[test]
fn vacation_status() {
    assert!(user("U1", "Ann", "Vacationing").is_on_vacation());
    assert!(!user("U1", "Ann", "vacationing").is_on_vacation());
    assert!(!user("U1", "Ann", "").is_on_vacation());
}

#[test]
fn available_users_leave_out_vacationers() {
    let users = vec![
        user("U1", "Ann", "Vacationing"),
        user("U2", "Bob", "In a meeting"),
        user("U3", "Cy", ""),
    ];
    assert_eq!(
        available_users(&users),
        vec![
            ("Bob".to_string(), "U2".to_string()),
            ("Cy".to_string(), "U3".to_string())
        ]
    );
}
