//! What holds of every assignment plan.
use vstd::prelude::*;
use crate::model::{TeamMember, PullRequestReviewer, member_ids, id_views, reviewer_ids};
use crate::eligibility::{Eligibility, OutOfOffice};
use crate::selection::{interleave, eligible_ids, selection};
use crate::shuffle::same_members;
use crate::assignment::{
    lemma_extend_unique_concat, extend_unique, with_presence, present_first, tagged, planned_ids, plan,
    required_left, count_required,
};

verus! {

proof fn lemma_push_contains<A>(s: Seq<A>, v: A, x: A)
    ensures
        s.push(v).contains(x) <==> (s.contains(x) || x == v),
{
    if s.contains(x) {
        let k = choose|k: int| 0 <= k < s.len() && s[k] == x;
        assert(s.push(v)[k] == x);
    }
    if x == v {
        assert(s.push(v)[s.len() as int] == x);
    }
    if s.push(v).contains(x) {
        let k = choose|k: int| 0 <= k < s.push(v).len() && s.push(v)[k] == x;
        if k < s.len() {
            assert(s[k] == x);
        }
    }
}

proof fn lemma_push_no_duplicates<A>(s: Seq<A>, v: A)
    requires
        s.no_duplicates(),
        !s.contains(v),
    ensures
        s.push(v).no_duplicates(),
{
    assert forall|i: int, j: int| 0 <= i < s.push(v).len() && 0 <= j < s.push(v).len() && i != j implies s.push(v)[i]
        != s.push(v)[j] by {
        if i < s.len() && j < s.len() {
        } else if i < s.len() {
            assert(s[i] == s.push(v)[i]);
        } else if j < s.len() {
            assert(s[j] == s.push(v)[j]);
        }
    }
}

/// The identifiers a stream offers come from members that the rules admit
/// and that are not skipped; every such member is offered; and a roster
/// without repeated identifiers gives a stream without repeats.
proof fn lemma_eligible_ids(members: Seq<TeamMember>, rules: Eligibility, skip: Seq<Seq<char>>)
    ensures
        forall|x: Seq<char>| #[trigger] eligible_ids(members, rules, skip).contains(x) ==> exists|k: int|
            0 <= k < members.len() && members[k].id@ == x && rules.admits(members[k]) && !skip.contains(x),
        forall|k: int|
            0 <= k < members.len() && rules.admits(members[k]) && !skip.contains(members[k].id@)
                ==> eligible_ids(members, rules, skip).contains(#[trigger] members[k].id@),
        member_ids(members).no_duplicates() ==> eligible_ids(members, rules, skip).no_duplicates(),
    decreases members.len(),
{
    if members.len() > 0 {
        let init = members.drop_last();
        let m = members.last();
        let rest = eligible_ids(init, rules, skip);
        lemma_eligible_ids(init, rules, skip);
        let taken = rules.admits(m) && !skip.contains(m.id@);
        assert forall|x: Seq<char>| #[trigger] eligible_ids(members, rules, skip).contains(x) implies exists|k: int|
            0 <= k < members.len() && members[k].id@ == x && rules.admits(members[k]) && !skip.contains(x) by {
            if taken {
                lemma_push_contains(rest, m.id@, x);
            }
            if rest.contains(x) {
                let k = choose|k: int|
                    0 <= k < init.len() && init[k].id@ == x && rules.admits(init[k]) && !skip.contains(x);
                assert(members[k] == init[k]);
            } else {
                assert(members[members.len() - 1] == m);
            }
        }
        assert forall|k: int|
            0 <= k < members.len() && rules.admits(members[k]) && !skip.contains(members[k].id@)
                implies eligible_ids(members, rules, skip).contains(#[trigger] members[k].id@) by {
            if taken {
                lemma_push_contains(rest, m.id@, members[k].id@);
            }
            if k < init.len() {
                assert(init[k] == members[k]);
            }
        }
        if member_ids(members).no_duplicates() {
            assert(member_ids(init) =~= member_ids(members).drop_last());
            assert(member_ids(init).no_duplicates()) by {
                assert forall|i: int, j: int| 0 <= i < member_ids(init).len() && 0 <= j < member_ids(init).len() && i != j
                    implies member_ids(init)[i] != member_ids(init)[j] by {
                    assert(member_ids(init)[i] == member_ids(members)[i]);
                    assert(member_ids(init)[j] == member_ids(members)[j]);
                }
            }
            if taken {
                if rest.contains(m.id@) {
                    let k = choose|k: int|
                        0 <= k < init.len() && init[k].id@ == m.id@ && rules.admits(init[k]) && !skip.contains(m.id@);
                    assert(member_ids(members)[k] == member_ids(members)[members.len() - 1]);
                }
                lemma_push_no_duplicates(rest, m.id@);
            }
        }
    }
}

/// An interleaving holds exactly the elements of its two inputs, and no
/// repeats when the inputs have none and share none.
proof fn lemma_interleave(a: Seq<Seq<char>>, b: Seq<Seq<char>>)
    ensures
        forall|x: Seq<char>| #[trigger] interleave(a, b).contains(x) <==> (a.contains(x) || b.contains(x)),
        (a.no_duplicates() && b.no_duplicates() && forall|x: Seq<char>| a.contains(x) ==> !b.contains(x))
            ==> interleave(a, b).no_duplicates(),
    decreases a.len() + b.len(),
{
    if a.len() > 0 {
        let tail = a.drop_first();
        lemma_interleave(b, tail);
        let rest = interleave(b, tail);
        assert(interleave(a, b) == seq![a[0]] + rest);
        assert forall|x: Seq<char>| #[trigger] interleave(a, b).contains(x) <==> (a.contains(x) || b.contains(x)) by {
            let s = interleave(a, b);
            if s.contains(x) {
                let k = choose|k: int| 0 <= k < s.len() && s[k] == x;
                if k == 0 {
                    assert(s[0] == a[0]);
                    assert(a.contains(x));
                } else {
                    assert(rest[k - 1] == x);
                    assert(interleave(b, tail).contains(x));
                    if tail.contains(x) {
                        let j = choose|j: int| 0 <= j < tail.len() && tail[j] == x;
                        assert(a[j + 1] == x);
                    }
                }
            }
            if a.contains(x) {
                let k = choose|k: int| 0 <= k < a.len() && a[k] == x;
                if k == 0 {
                    assert(s[0] == x);
                } else {
                    assert(tail[k - 1] == x);
                    assert(tail.contains(x));
                    assert(interleave(b, tail).contains(x));
                    let j = choose|j: int| 0 <= j < rest.len() && rest[j] == x;
                    assert(s[j + 1] == x);
                }
            }
            if b.contains(x) {
                assert(interleave(b, tail).contains(x));
                let j = choose|j: int| 0 <= j < rest.len() && rest[j] == x;
                assert(s[j + 1] == x);
            }
        }
        if a.no_duplicates() && b.no_duplicates() && forall|x: Seq<char>| a.contains(x) ==> !b.contains(x) {
            assert(tail.no_duplicates()) by {
                assert forall|i: int, j: int| 0 <= i < tail.len() && 0 <= j < tail.len() && i != j implies tail[i]
                    != tail[j] by {
                    assert(tail[i] == a[i + 1] && tail[j] == a[j + 1]);
                }
            }
            assert forall|x: Seq<char>| b.contains(x) implies !tail.contains(x) by {
                if tail.contains(x) {
                    let j = choose|j: int| 0 <= j < tail.len() && tail[j] == x;
                    assert(a[j + 1] == x);
                }
            }
            assert(!rest.contains(a[0])) by {
                if tail.contains(a[0]) {
                    let j = choose|j: int| 0 <= j < tail.len() && tail[j] == a[0];
                    assert(a[j + 1] == a[0]);
                }
                assert(a.contains(a[0]));
            }
            let s = interleave(a, b);
            assert forall|i: int, j: int| 0 <= i < s.len() && 0 <= j < s.len() && i != j implies s[i] != s[j] by {
                if i == 0 && j > 0 {
                    assert(s[j] == rest[j - 1]);
                } else if j == 0 && i > 0 {
                    assert(s[i] == rest[i - 1]);
                } else if i > 0 && j > 0 {
                    assert(s[i] == rest[i - 1] && s[j] == rest[j - 1]);
                }
            }
        }
    } else {
        assert(interleave(a, b) == b);
    }
}

proof fn lemma_concat_contains<A>(a: Seq<A>, b: Seq<A>, x: A)
    ensures
        (a + b).contains(x) <==> (a.contains(x) || b.contains(x)),
{
    if (a + b).contains(x) {
        let k = choose|k: int| 0 <= k < (a + b).len() && (a + b)[k] == x;
        if k < a.len() {
            assert(a[k] == x);
        } else {
            assert(b[k - a.len()] == x);
        }
    }
    if a.contains(x) {
        let k = choose|k: int| 0 <= k < a.len() && a[k] == x;
        assert((a + b)[k] == x);
    }
    if b.contains(x) {
        let k = choose|k: int| 0 <= k < b.len() && b[k] == x;
        assert((a + b)[a.len() + k] == x);
    }
}

/// Not the author and not already an assignee.
pub open spec fn newcomer(rules: Eligibility, x: Seq<char>) -> bool {
    x != rules.author@ && !id_views(rules.existing@).contains(x)
}

/// The fill keeps the list as its start, adds only newcomers of the
/// candidates, adds every such one, and adds none twice.
proof fn lemma_extend_unique(list: Seq<Seq<char>>, candidates: Seq<TeamMember>, rules: Eligibility)
    ensures
        extend_unique(list, candidates, rules).len() >= list.len(),
        extend_unique(list, candidates, rules).subrange(0, list.len() as int) == list,
        forall|x: Seq<char>| #[trigger] extend_unique(list, candidates, rules).contains(x) ==> list.contains(x) || (
            newcomer(rules, x) && exists|k: int| 0 <= k < candidates.len() && candidates[k].id@ == x),
        forall|x: Seq<char>| list.contains(x) ==> #[trigger] extend_unique(list, candidates, rules).contains(x),
        forall|k: int| 0 <= k < candidates.len() && newcomer(rules, candidates[k].id@) ==> #[trigger] extend_unique(
            list,
            candidates,
            rules,
        ).contains(candidates[k].id@),
        list.no_duplicates() ==> extend_unique(list, candidates, rules).no_duplicates(),
    decreases candidates.len(),
{
    if candidates.len() > 0 {
        let init = candidates.drop_last();
        let c = candidates.last();
        let prev = extend_unique(list, init, rules);
        lemma_extend_unique(list, init, rules);
        let added = newcomer(rules, c.id@) && !prev.contains(c.id@);
        let out = extend_unique(list, candidates, rules);
        if added {
            assert(out == prev.push(c.id@));
            assert(out.subrange(0, list.len() as int) =~= prev.subrange(0, list.len() as int));
        } else {
            assert(out == prev);
        }
        assert forall|x: Seq<char>| #[trigger] out.contains(x) implies list.contains(x) || (newcomer(rules, x) && exists|
            k: int,
        | 0 <= k < candidates.len() && candidates[k].id@ == x) by {
            if added {
                lemma_push_contains(prev, c.id@, x);
            }
            if prev.contains(x) {
                if !list.contains(x) {
                    let k = choose|k: int| 0 <= k < init.len() && init[k].id@ == x;
                    assert(candidates[k] == init[k]);
                }
            } else {
                assert(candidates[candidates.len() - 1] == c);
            }
        }
        assert forall|x: Seq<char>| list.contains(x) implies #[trigger] out.contains(x) by {
            assert(prev.contains(x));
            if added {
                lemma_push_contains(prev, c.id@, x);
            }
        }
        assert forall|k: int| 0 <= k < candidates.len() && newcomer(rules, candidates[k].id@) implies #[trigger] out.contains(
            candidates[k].id@,
        ) by {
            if added {
                lemma_push_contains(prev, c.id@, candidates[k].id@);
            }
            if k < init.len() {
                assert(init[k] == candidates[k]);
                assert(prev.contains(init[k].id@));
            }
        }
        if list.no_duplicates() && added {
            lemma_push_no_duplicates(prev, c.id@);
        }
    } else {
        assert(list.subrange(0, list.len() as int) =~= list);
    }
}

/// A part holds exactly the members with that out-of-office mark.
proof fn lemma_with_presence(members: Seq<TeamMember>, out_of_office: OutOfOffice, away: bool)
    ensures
        forall|m: TeamMember| #[trigger] with_presence(members, out_of_office, away).contains(m) <==> (members.contains(m)
            && out_of_office.marks(m.name@) == away),
    decreases members.len(),
{
    if members.len() > 0 {
        let init = members.drop_last();
        let last = members.last();
        let rest = with_presence(init, out_of_office, away);
        lemma_with_presence(init, out_of_office, away);
        assert forall|m: TeamMember| #[trigger] with_presence(members, out_of_office, away).contains(m) <==> (members.contains(
            m,
        ) && out_of_office.marks(m.name@) == away) by {
            if out_of_office.marks(last.name@) == away {
                lemma_push_contains(rest, last, m);
            }
            assert(members =~= init.push(last));
            lemma_push_contains(init, last, m);
        }
    }
}

/// The present-first order holds exactly the members of the team.
proof fn lemma_present_first(members: Seq<TeamMember>, out_of_office: OutOfOffice)
    ensures
        forall|m: TeamMember| #[trigger] present_first(members, out_of_office).contains(m) <==> members.contains(m),
{
    lemma_with_presence(members, out_of_office, false);
    lemma_with_presence(members, out_of_office, true);
    assert forall|m: TeamMember| #[trigger] present_first(members, out_of_office).contains(m) <==> members.contains(m) by {
        lemma_concat_contains(
            with_presence(members, out_of_office, false),
            with_presence(members, out_of_office, true),
            m,
        );
    }
}

/// The selection offers only newcomers, each from one of the two rosters, and
/// none twice when neither roster repeats an identifier.
proof fn lemma_selection(peers: Seq<TeamMember>, required: Seq<TeamMember>, rules: Eligibility)
    ensures
        forall|x: Seq<char>| #[trigger] selection(peers, required, rules).contains(x) ==> newcomer(rules, x),
        member_ids(peers).no_duplicates() && member_ids(required).no_duplicates() ==> selection(
            peers,
            required,
            rules,
        ).no_duplicates(),
{
    let none = Seq::<Seq<char>>::empty();
    let a = eligible_ids(peers, rules, none);
    let b = eligible_ids(required, rules, member_ids(peers));
    lemma_eligible_ids(peers, rules, none);
    lemma_eligible_ids(required, rules, member_ids(peers));
    lemma_interleave(a, b);
    assert forall|x: Seq<char>| #[trigger] selection(peers, required, rules).contains(x) implies newcomer(rules, x) by {
        if a.contains(x) {
            let k = choose|k: int| 0 <= k < peers.len() && peers[k].id@ == x && rules.admits(peers[k]) && !none.contains(x);
        } else {
            let k = choose|k: int|
                0 <= k < required.len() && required[k].id@ == x && rules.admits(required[k]) && !member_ids(
                    peers,
                ).contains(x);
        }
    }
    assert forall|x: Seq<char>| a.contains(x) implies !b.contains(x) by {
        let k = choose|k: int| 0 <= k < peers.len() && peers[k].id@ == x && rules.admits(peers[k]) && !none.contains(x);
        assert(member_ids(peers)[k] == x);
        if b.contains(x) {
            let j = choose|j: int|
                0 <= j < required.len() && required[j].id@ == x && rules.admits(required[j]) && !member_ids(
                    peers,
                ).contains(x);
        }
    }
}

/// What the plan holds before tagging: only newcomers, and no repeats when
/// the two rosters repeat no identifier.
proof fn lemma_planned_ids(
    left: nat,
    all_members: Seq<TeamMember>,
    peers: Seq<TeamMember>,
    required: Seq<TeamMember>,
    rules: Eligibility,
)
    ensures
        forall|x: Seq<char>| #[trigger] planned_ids(left, all_members, peers, required, rules).contains(x) ==> newcomer(rules, x),
        member_ids(peers).no_duplicates() && member_ids(required).no_duplicates() ==> planned_ids(
            left,
            all_members,
            peers,
            required,
            rules,
        ).no_duplicates(),
{
    let chosen = if left > 0 { selection(peers, required, rules) } else { seq![] };
    lemma_selection(peers, required, rules);
    lemma_extend_unique(chosen, present_first(all_members, rules.out_of_office), rules);
    assert forall|x: Seq<char>| #[trigger] planned_ids(left, all_members, peers, required, rules).contains(x) implies newcomer(
        rules,
        x,
    ) by {
        if chosen.contains(x) && left > 0 {
            assert(selection(peers, required, rules).contains(x));
        }
    }
}

/// The author is never asked to look at their own pull request.
pub proof fn law_author_never_added(
    left: nat,
    all_members: Seq<TeamMember>,
    peers: Seq<TeamMember>,
    required: Seq<TeamMember>,
    rules: Eligibility,
)
    ensures
        forall|i: int| 0 <= i < plan(left, all_members, peers, required, rules).len()
            ==> #[trigger] plan(left, all_members, peers, required, rules)[i].0 != rules.author@,
{
    let ids = planned_ids(left, all_members, peers, required, rules);
    lemma_planned_ids(left, all_members, peers, required, rules);
    assert forall|i: int| 0 <= i < plan(left, all_members, peers, required, rules).len()
        implies #[trigger] plan(left, all_members, peers, required, rules)[i].0 != rules.author@ by {
        assert(plan(left, all_members, peers, required, rules)[i].0 == ids[i]);
        assert(ids.contains(ids[i]));
    }
}

/// Nobody is added twice, and nobody already on the pull request is added,
/// when neither roster of the selection repeats an identifier.
pub proof fn law_no_duplicates(
    left: nat,
    all_members: Seq<TeamMember>,
    peers: Seq<TeamMember>,
    required: Seq<TeamMember>,
    rules: Eligibility,
)
    requires
        member_ids(peers).no_duplicates(),
        member_ids(required).no_duplicates(),
    ensures
        forall|i: int, j: int|
            0 <= i < j < plan(left, all_members, peers, required, rules).len() ==> #[trigger] plan(
                left,
                all_members,
                peers,
                required,
                rules,
            )[i].0 != #[trigger] plan(left, all_members, peers, required, rules)[j].0,
        forall|i: int| 0 <= i < plan(left, all_members, peers, required, rules).len() ==> !id_views(rules.existing@).contains(
            #[trigger] plan(left, all_members, peers, required, rules)[i].0,
        ),
{
    let ids = planned_ids(left, all_members, peers, required, rules);
    let p = plan(left, all_members, peers, required, rules);
    lemma_planned_ids(left, all_members, peers, required, rules);
    assert forall|i: int, j: int| 0 <= i < j < p.len() implies #[trigger] p[i].0 != #[trigger] p[j].0 by {
        assert(p[i].0 == ids[i] && p[j].0 == ids[j]);
    }
    assert forall|i: int| 0 <= i < p.len() implies !id_views(rules.existing@).contains(#[trigger] p[i].0) by {
        assert(p[i].0 == ids[i]);
        assert(ids.contains(ids[i]));
    }
}

/// How many entries are flagged required.
pub open spec fn count_flagged(entries: Seq<(Seq<char>, bool)>) -> nat
    decreases entries.len(),
{
    if entries.len() == 0 {
        0
    } else {
        count_flagged(entries.drop_last()) + if entries.last().1 { 1nat } else { 0nat }
    }
}

proof fn lemma_count_tagged(ids: Seq<Seq<char>>, left: nat)
    ensures
        count_flagged(tagged(ids, left)) == if left <= ids.len() { left } else { ids.len() },
    decreases ids.len(),
{
    if ids.len() > 0 {
        lemma_count_tagged(ids.drop_last(), left);
        assert(tagged(ids, left).drop_last() =~= tagged(ids.drop_last(), left));
    }
}

/// As many entries are flagged required as slots are open, or all of them
/// when there are fewer; and the open slots are the target less the required
/// assignees already on the pull request, never below zero.
pub proof fn law_required_count(
    reviewers: Seq<PullRequestReviewer>,
    target: nat,
    all_members: Seq<TeamMember>,
    peers: Seq<TeamMember>,
    required: Seq<TeamMember>,
    rules: Eligibility,
)
    ensures
        ({
            let left = required_left(reviewers, target);
            let entries = plan(left, all_members, peers, required, rules);
            count_flagged(entries) == if left <= entries.len() { left } else { entries.len() }
        }),
        required_left(reviewers, target) == if target >= count_required(reviewers) {
            target - count_required(reviewers)
        } else {
            0
        },
{
    let left = required_left(reviewers, target);
    lemma_count_tagged(planned_ids(left, all_members, peers, required, rules), left);
}

/// Every entry flagged required comes before every entry flagged optional.
pub proof fn law_required_first(
    left: nat,
    all_members: Seq<TeamMember>,
    peers: Seq<TeamMember>,
    required: Seq<TeamMember>,
    rules: Eligibility,
)
    ensures
        forall|i: int, j: int|
            0 <= i < j < plan(left, all_members, peers, required, rules).len() && #[trigger] plan(
                left,
                all_members,
                peers,
                required,
                rules,
            )[j].1 ==> #[trigger] plan(left, all_members, peers, required, rules)[i].1,
{
}

proof fn lemma_same_members(a: Seq<TeamMember>, b: Seq<TeamMember>)
    requires
        same_members(a, b),
    ensures
        forall|m: TeamMember| #[trigger] a.contains(m) <==> b.contains(m),
{
    a.to_multiset_ensures();
    b.to_multiset_ensures();
    assert forall|m: TeamMember| #[trigger] a.contains(m) <==> b.contains(m) by {
        assert(a.to_multiset().count(m) == b.to_multiset().count(m));
    }
}

proof fn lemma_member_ids_contains(members: Seq<TeamMember>, k: int)
    requires
        0 <= k < members.len(),
    ensures
        member_ids(members).contains(members[k].id@),
{
    assert(member_ids(members)[k] == members[k].id@);
}

/// Running again on the same team and the same rosters, in whatever order
/// they are shuffled, once everybody the first run proposed has become a
/// assignee of the pull request, proposes nobody.
pub proof fn law_saturation(
    target: nat,
    reviewers: Seq<PullRequestReviewer>,
    later_reviewers: Seq<PullRequestReviewer>,
    all_members: Seq<TeamMember>,
    peers: Seq<TeamMember>,
    required: Seq<TeamMember>,
    later_peers: Seq<TeamMember>,
    later_required: Seq<TeamMember>,
    rules: Eligibility,
    later_rules: Eligibility,
)
    requires
        id_views(rules.existing@) == reviewer_ids(reviewers),
        id_views(later_rules.existing@) == reviewer_ids(later_reviewers),
        later_rules.author@ == rules.author@,
        later_rules.out_of_office == rules.out_of_office,
        forall|x: Seq<char>| #[trigger] reviewer_ids(reviewers).contains(x) ==> reviewer_ids(later_reviewers).contains(x),
        forall|x: Seq<char>| #[trigger]
            planned_ids(required_left(reviewers, target), all_members, peers, required, rules).contains(x)
                ==> reviewer_ids(later_reviewers).contains(x),
        count_required(reviewers) <= count_required(later_reviewers),
        same_members(later_peers, peers),
        same_members(later_required, required),
    ensures
        plan(required_left(later_reviewers, target), all_members, later_peers, later_required, later_rules).len() == 0,
{
    let left = required_left(reviewers, target);
    let later_left = required_left(later_reviewers, target);
    let out = planned_ids(left, all_members, peers, required, rules);
    let later_out = planned_ids(later_left, all_members, later_peers, later_required, later_rules);
    let candidates = present_first(all_members, rules.out_of_office);
    let chosen = if left > 0 { selection(peers, required, rules) } else { seq![] };
    let later_chosen = if later_left > 0 { selection(later_peers, later_required, later_rules) } else { seq![] };
    let none = Seq::<Seq<char>>::empty();
    lemma_extend_unique(chosen, candidates, rules);
    lemma_extend_unique(later_chosen, candidates, later_rules);
    lemma_same_members(later_peers, peers);
    lemma_same_members(later_required, required);
    if later_out.len() > 0 {
        let x = later_out[0];
        assert(later_out.contains(x));
        assert(reviewer_ids(later_reviewers).contains(x) ==> !newcomer(later_rules, x));
        if later_chosen.contains(x) {
            assert(later_left > 0 && left > 0);
            let a = eligible_ids(later_peers, later_rules, none);
            let b = eligible_ids(later_required, later_rules, member_ids(later_peers));
            lemma_interleave(a, b);
            lemma_eligible_ids(later_peers, later_rules, none);
            lemma_eligible_ids(later_required, later_rules, member_ids(later_peers));
            lemma_eligible_ids(peers, rules, none);
            lemma_eligible_ids(required, rules, member_ids(peers));
            lemma_interleave(eligible_ids(peers, rules, none), eligible_ids(required, rules, member_ids(peers)));
            assert(selection(later_peers, later_required, later_rules).contains(x));
            if a.contains(x) {
                let k = choose|k: int|
                    0 <= k < later_peers.len() && later_peers[k].id@ == x && later_rules.admits(later_peers[k])
                        && !none.contains(x);
                let m = later_peers[k];
                assert(later_peers.contains(m));
                let j = choose|j: int| 0 <= j < peers.len() && peers[j] == m;
                assert(rules.admits(peers[j]));
                assert(eligible_ids(peers, rules, none).contains(peers[j].id@));
                assert(selection(peers, required, rules).contains(x));
                assert(out.contains(x));
            } else {
                assert(b.contains(x));
                let k = choose|k: int|
                    0 <= k < later_required.len() && later_required[k].id@ == x && later_rules.admits(later_required[k])
                        && !member_ids(later_peers).contains(x);
                let m = later_required[k];
                assert(later_required.contains(m));
                let j = choose|j: int| 0 <= j < required.len() && required[j] == m;
                assert(rules.admits(required[j]));
                if member_ids(peers).contains(x) {
                    let i = choose|i: int| 0 <= i < member_ids(peers).len() && member_ids(peers)[i] == x;
                    assert(peers[i].id@ == x);
                    assert(later_peers.contains(peers[i]));
                    let i2 = choose|i2: int| 0 <= i2 < later_peers.len() && later_peers[i2] == peers[i];
                    lemma_member_ids_contains(later_peers, i2);
                }
                assert(eligible_ids(required, rules, member_ids(peers)).contains(required[j].id@));
                assert(selection(peers, required, rules).contains(x));
                assert(out.contains(x));
            }
        } else {
            let k = choose|k: int| 0 <= k < candidates.len() && candidates[k].id@ == x;
            assert(newcomer(rules, x));
            assert(out.contains(candidates[k].id@));
        }
    }
}

/// With no required slot open, a member who is in comes before one who is
/// out of office, when neither is the author nor already an assignee and the
/// team repeats no identifier; both are added.
pub proof fn law_present_before_absent(
    all_members: Seq<TeamMember>,
    peers: Seq<TeamMember>,
    required: Seq<TeamMember>,
    rules: Eligibility,
    present: TeamMember,
    absent: TeamMember,
)
    requires
        member_ids(all_members).no_duplicates(),
        all_members.contains(present),
        all_members.contains(absent),
        !rules.out_of_office.marks(present.name@),
        rules.out_of_office.marks(absent.name@),
        newcomer(rules, present.id@),
        newcomer(rules, absent.id@),
    ensures
        ({
            let entries = plan(0, all_members, peers, required, rules);
            &&& exists|j: int| 0 <= j < entries.len() && entries[j].0 == absent.id@
            &&& exists|i: int|
                0 <= i < entries.len() && entries[i].0 == present.id@ && forall|j: int|
                    0 <= j < entries.len() && entries[j].0 == absent.id@ ==> i < j
        }),
{
    let ooo = rules.out_of_office;
    let avail = with_presence(all_members, ooo, false);
    let away = with_presence(all_members, ooo, true);
    let none = Seq::<Seq<char>>::empty();
    let first = extend_unique(none, avail, rules);
    let ids = planned_ids(0, all_members, peers, required, rules);
    let entries = plan(0, all_members, peers, required, rules);
    lemma_extend_unique_concat(none, avail, away, rules);
    assert(ids == extend_unique(first, away, rules));
    lemma_with_presence(all_members, ooo, false);
    lemma_with_presence(all_members, ooo, true);
    lemma_extend_unique(none, avail, rules);
    lemma_extend_unique(first, away, rules);
    assert(avail.contains(present));
    let pk = choose|k: int| 0 <= k < avail.len() && avail[k] == present;
    assert(first.contains(avail[pk].id@));
    assert(away.contains(absent));
    let ak = choose|k: int| 0 <= k < away.len() && away[k] == absent;
    assert(ids.contains(away[ak].id@));
    assert(!first.contains(absent.id@)) by {
        if first.contains(absent.id@) {
            let k = choose|k: int| 0 <= k < avail.len() && avail[k].id@ == absent.id@;
            let c = avail[k];
            assert(avail.contains(c));
            assert(all_members.contains(c));
            let i1 = choose|i: int| 0 <= i < all_members.len() && all_members[i] == c;
            let i2 = choose|i: int| 0 <= i < all_members.len() && all_members[i] == absent;
            assert(member_ids(all_members)[i1] == member_ids(all_members)[i2]);
        }
    }
    let i = choose|i: int| 0 <= i < first.len() && first[i] == present.id@;
    assert(ids.subrange(0, first.len() as int) == first);
    assert(ids[i] == first[i]);
    assert(entries[i].0 == present.id@);
    assert forall|j: int| 0 <= j < entries.len() && entries[j].0 == absent.id@ implies i < j by {
        if j < first.len() {
            assert(ids[j] == first[j]);
            assert(first.contains(absent.id@));
        }
    }
    let j0 = choose|j: int| 0 <= j < ids.len() && ids[j] == absent.id@;
    assert(entries[j0].0 == absent.id@);
}

} // verus!
