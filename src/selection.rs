//! The selection engine: two shuffled pools, filtered, merged by turns.
use vstd::prelude::*;
use itertools::Itertools;
use crate::model::{Identifier, TeamMember, member_ids, id_views};
use crate::eligibility::{Eligibility, contains_id};

verus! {

/// Round-robin merge: the first element of `a`, then the first of `b`, and so
/// on; once one runs out, the rest of the other.
pub open spec fn interleave(a: Seq<Seq<char>>, b: Seq<Seq<char>>) -> Seq<Seq<char>>
    decreases a.len() + b.len(),
{
    if a.len() == 0 {
        b
    } else {
        seq![a[0]] + interleave(b, a.drop_first())
    }
}

/// The identifiers of the members that `rules` admits and that are not in
/// `skip`, in their order.
pub open spec fn eligible_ids(members: Seq<TeamMember>, rules: Eligibility, skip: Seq<Seq<char>>) -> Seq<Seq<char>>
    decreases members.len(),
{
    if members.len() == 0 {
        seq![]
    } else {
        let rest = eligible_ids(members.drop_last(), rules, skip);
        let m = members.last();
        if rules.admits(m) && !skip.contains(m.id@) {
            rest.push(m.id@)
        } else {
            rest
        }
    }
}

/// The candidates drawn from the author's team and its approvers'
/// team: eligible peers by turns with eligible required-team members that are
/// not peers themselves, peers first.
pub open spec fn selection(peers: Seq<TeamMember>, required: Seq<TeamMember>, rules: Eligibility) -> Seq<Seq<char>> {
    interleave(
        eligible_ids(peers, rules, seq![]),
        eligible_ids(required, rules, member_ids(peers)),
    )
}

/// Relies on itertools' `Itertools::interleave`: it yields one item of `a`,
/// then one of `b`, by turns, and the rest of the other once one is exhausted.
#[verifier::external_body]
fn interleave_ids(a: Vec<Identifier>, b: Vec<Identifier>) -> (r: Vec<Identifier>)
    ensures
        id_views(r@) == interleave(id_views(a@), id_views(b@)),
{
    a.into_iter().interleave(b).collect()
}

/// The identifiers of the members.
pub fn ids_of(members: &Vec<TeamMember>) -> (r: Vec<Identifier>)
    ensures
        id_views(r@) == member_ids(members@),
{
    let mut out: Vec<Identifier> = Vec::new();
    let mut i: usize = 0;
    while i < members.len()
        invariant
            i <= members.len(),
            id_views(out@) == member_ids(members@.subrange(0, i as int)),
        decreases members.len() - i,
    {
        let ghost before = out@;
        out.push(members[i].id.duplicate());
        assert(id_views(out@) =~= id_views(before).push(members@[i as int].id@));
        assert(member_ids(members@.subrange(0, i + 1)) =~= member_ids(members@.subrange(0, i as int)).push(
            members@[i as int].id@,
        ));
        i += 1;
    }
    assert(members@.subrange(0, members.len() as int) =~= members@);
    out
}

/// The identifiers of the members that `rules` admits and that are not in
/// `skip`, in order.
pub fn collect_eligible(members: &Vec<TeamMember>, rules: &Eligibility, skip: &Vec<Identifier>) -> (r: Vec<Identifier>)
    ensures
        id_views(r@) == eligible_ids(members@, *rules, id_views(skip@)),
{
    let mut out: Vec<Identifier> = Vec::new();
    let mut i: usize = 0;
    while i < members.len()
        invariant
            i <= members.len(),
            id_views(out@) == eligible_ids(members@.subrange(0, i as int), *rules, id_views(skip@)),
        decreases members.len() - i,
    {
        let ghost before = out@;
        let m = &members[i];
        assert(members@.subrange(0, i + 1).drop_last() =~= members@.subrange(0, i as int));
        assert(members@.subrange(0, i + 1).last() == members@[i as int]);
        if rules.allows(m) && !contains_id(skip, &m.id) {
            out.push(m.id.duplicate());
            assert(id_views(out@) =~= id_views(before).push(m.id@));
        }
        i += 1;
    }
    assert(members@.subrange(0, members.len() as int) =~= members@);
    out
}

/// The candidates of `selection`, for pools already in the order to use.
pub fn interleave_candidates(peers: &Vec<TeamMember>, required: &Vec<TeamMember>, rules: &Eligibility) -> (r: Vec<Identifier>)
    ensures
        id_views(r@) == selection(peers@, required@, *rules),
{
    let none: Vec<Identifier> = Vec::new();
    assert(id_views(none@) =~= Seq::<Seq<char>>::empty());
    let from_peers = collect_eligible(peers, rules, &none);
    let peer_ids = ids_of(peers);
    let from_required = collect_eligible(required, rules, &peer_ids);
    interleave_ids(from_peers, from_required)
}

} // verus!
