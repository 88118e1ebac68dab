//! The assignment plan: how many required slots are open, the candidates of
//! the selection engine, then the rest of the team, present members before
//! absent ones, and the first open slots tagged as required.
use vstd::prelude::*;
use crate::model::{Identifier, TeamMember, PullRequest, PullRequestReviewer, NewPullRequestReviewer, id_views, assignment_views};
use crate::eligibility::{Eligibility, OutOfOffice, contains_id};
use crate::selection::{selection, interleave_candidates};

verus! {

/// How many of the assignees are flagged required.
pub open spec fn count_required(reviewers: Seq<PullRequestReviewer>) -> nat
    decreases reviewers.len(),
{
    if reviewers.len() == 0 {
        0
    } else {
        count_required(reviewers.drop_last()) + if reviewers.last().is_required { 1nat } else { 0nat }
    }
}

/// The required slots still open: the target less the required assignees
/// already on the pull request, and never below zero.
pub open spec fn required_left(reviewers: Seq<PullRequestReviewer>, target: nat) -> nat {
    if target > count_required(reviewers) {
        (target - count_required(reviewers)) as nat
    } else {
        0
    }
}

/// The members whose out-of-office mark equals `away`, in their order.
pub open spec fn with_presence(members: Seq<TeamMember>, out_of_office: OutOfOffice, away: bool) -> Seq<TeamMember>
    decreases members.len(),
{
    if members.len() == 0 {
        seq![]
    } else {
        let rest = with_presence(members.drop_last(), out_of_office, away);
        if out_of_office.marks(members.last().name@) == away {
            rest.push(members.last())
        } else {
            rest
        }
    }
}

/// The members who are in, then those out of office, each in their order.
pub open spec fn present_first(members: Seq<TeamMember>, out_of_office: OutOfOffice) -> Seq<TeamMember> {
    with_presence(members, out_of_office, false) + with_presence(members, out_of_office, true)
}

/// `list`, followed by each candidate that is not the author, not already a
/// assignee and not yet in the list.
pub open spec fn extend_unique(list: Seq<Seq<char>>, candidates: Seq<TeamMember>, rules: Eligibility) -> Seq<Seq<char>>
    decreases candidates.len(),
{
    if candidates.len() == 0 {
        list
    } else {
        let prev = extend_unique(list, candidates.drop_last(), rules);
        let id = candidates.last().id@;
        if id != rules.author@ && !id_views(rules.existing@).contains(id) && !prev.contains(id) {
            prev.push(id)
        } else {
            prev
        }
    }
}

/// Each identifier with its flag: required for the first `left` positions.
pub open spec fn tagged(ids: Seq<Seq<char>>, left: nat) -> Seq<(Seq<char>, bool)> {
    Seq::new(ids.len(), |i: int| (ids[i], i < left))
}

/// The identifiers to add, in order: when required slots are open, the
/// selection from the author's team and its approvers' team; then the
/// whole team, present members first.
pub open spec fn planned_ids(
    left: nat,
    all_members: Seq<TeamMember>,
    peers: Seq<TeamMember>,
    required: Seq<TeamMember>,
    rules: Eligibility,
) -> Seq<Seq<char>> {
    let chosen = if left > 0 { selection(peers, required, rules) } else { seq![] };
    extend_unique(chosen, present_first(all_members, rules.out_of_office), rules)
}

/// The assignees to add, tagged.
pub open spec fn plan(
    left: nat,
    all_members: Seq<TeamMember>,
    peers: Seq<TeamMember>,
    required: Seq<TeamMember>,
    rules: Eligibility,
) -> Seq<(Seq<char>, bool)> {
    tagged(planned_ids(left, all_members, peers, required, rules), left)
}

/// Adding candidates in two runs is adding them all in one.
pub proof fn lemma_extend_unique_concat(list: Seq<Seq<char>>, a: Seq<TeamMember>, b: Seq<TeamMember>, rules: Eligibility)
    ensures
        extend_unique(list, a + b, rules) == extend_unique(extend_unique(list, a, rules), b, rules),
    decreases b.len(),
{
    if b.len() == 0 {
        assert(a + b =~= a);
    } else {
        assert((a + b).drop_last() =~= a + b.drop_last());
        assert((a + b).last() == b.last());
        lemma_extend_unique_concat(list, a, b.drop_last(), rules);
    }
}

/// How many of the assignees are flagged required.
pub fn count_required_reviewers(reviewers: &Vec<PullRequestReviewer>) -> (r: usize)
    ensures
        r == count_required(reviewers@),
{
    let mut n: usize = 0;
    let mut i: usize = 0;
    while i < reviewers.len()
        invariant
            i <= reviewers.len(),
            n == count_required(reviewers@.subrange(0, i as int)),
            n <= i,
        decreases reviewers.len() - i,
    {
        assert(reviewers@.subrange(0, i + 1).drop_last() =~= reviewers@.subrange(0, i as int));
        if reviewers[i].is_required {
            n += 1;
        }
        i += 1;
    }
    assert(reviewers@.subrange(0, reviewers.len() as int) =~= reviewers@);
    n
}

/// The required slots still open on the pull request for a target count.
pub fn required_reviewers_left(pull_request: &PullRequest, required_reviewers_count: usize) -> (r: usize)
    ensures
        r == required_left(pull_request.reviewers@, required_reviewers_count as nat),
{
    let present = count_required_reviewers(&pull_request.reviewers);
    required_reviewers_count.saturating_sub(present)
}

/// Appends to `out` the members whose out-of-office mark equals `away` and
/// that `extend_unique` takes.
fn append_pass(out: &mut Vec<Identifier>, members: &Vec<TeamMember>, rules: &Eligibility, away: bool)
    ensures
        id_views(final(out)@) == extend_unique(
            id_views(old(out)@),
            with_presence(members@, rules.out_of_office, away),
            *rules,
        ),
{
    let ghost start = id_views(out@);
    let mut i: usize = 0;
    while i < members.len()
        invariant
            i <= members.len(),
            id_views(out@) == extend_unique(
                start,
                with_presence(members@.subrange(0, i as int), rules.out_of_office, away),
                *rules,
            ),
        decreases members.len() - i,
    {
        let m = &members[i];
        let ghost prefix = members@.subrange(0, i as int);
        let ghost next = members@.subrange(0, i + 1);
        assert(next.drop_last() =~= prefix);
        assert(next.last() == members@[i as int]);
        if rules.out_of_office.is_out_of_office(&m.name) == away {
            let ghost before = out@;
            assert(with_presence(next, rules.out_of_office, away).drop_last() =~= with_presence(
                prefix,
                rules.out_of_office,
                away,
            ));
            if !m.id.same_as(&rules.author) && !contains_id(&rules.existing, &m.id) && !contains_id(out, &m.id) {
                out.push(m.id.duplicate());
                assert(id_views(out@) =~= id_views(before).push(m.id@));
            }
        } else {
            assert(with_presence(next, rules.out_of_office, away) =~= with_presence(prefix, rules.out_of_office, away));
        }
        i += 1;
    }
    assert(members@.subrange(0, members.len() as int) =~= members@);
}

/// `list`, then each member of the team, present ones first, that is not the
/// author, not already an assignee and not yet in the list.
pub fn fill_reviewers(list: Vec<Identifier>, all_members: &Vec<TeamMember>, rules: &Eligibility) -> (r: Vec<Identifier>)
    ensures
        id_views(r@) == extend_unique(id_views(list@), present_first(all_members@, rules.out_of_office), *rules),
{
    let mut out = list;
    append_pass(&mut out, all_members, rules, false);
    append_pass(&mut out, all_members, rules, true);
    proof {
        lemma_extend_unique_concat(
            id_views(list@),
            with_presence(all_members@, rules.out_of_office, false),
            with_presence(all_members@, rules.out_of_office, true),
            *rules,
        );
    }
    out
}

/// Tags the first `left` identifiers as required and the rest as optional.
pub fn tag_reviewers(ids: &Vec<Identifier>, left: usize) -> (r: Vec<NewPullRequestReviewer>)
    ensures
        assignment_views(r@) == tagged(id_views(ids@), left as nat),
{
    let mut out: Vec<NewPullRequestReviewer> = Vec::new();
    let mut i: usize = 0;
    while i < ids.len()
        invariant
            i <= ids.len(),
            assignment_views(out@) == tagged(id_views(ids@), left as nat).subrange(0, i as int),
        decreases ids.len() - i,
    {
        let ghost before = out@;
        out.push(NewPullRequestReviewer { id: ids[i].duplicate(), is_required: i < left });
        assert(assignment_views(out@) =~= assignment_views(before).push((ids@[i as int]@, i < left)));
        assert(tagged(id_views(ids@), left as nat).subrange(0, i + 1) =~= tagged(id_views(ids@), left as nat).subrange(
            0,
            i as int,
        ).push((ids@[i as int]@, i < left)));
        i += 1;
    }
    assert(tagged(id_views(ids@), left as nat).subrange(0, ids.len() as int) =~= tagged(id_views(ids@), left as nat));
    out
}

/// The assignees to add when `left` required slots are open, for pools
/// already in the order to use.
pub fn plan_reviewers(
    left: usize,
    all_members: &Vec<TeamMember>,
    peers: &Vec<TeamMember>,
    required: &Vec<TeamMember>,
    rules: &Eligibility,
) -> (r: Vec<NewPullRequestReviewer>)
    ensures
        assignment_views(r@) == plan(left as nat, all_members@, peers@, required@, *rules),
{
    let chosen = if left > 0 {
        interleave_candidates(peers, required, rules)
    } else {
        let none: Vec<Identifier> = Vec::new();
        assert(id_views(none@) =~= Seq::<Seq<char>>::empty());
        none
    };
    let ids = fill_reviewers(chosen, all_members, rules);
    tag_reviewers(&ids, left)
}

} // verus!
