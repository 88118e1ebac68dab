//! The shuffle strategy: a random one for real runs, and one that keeps the
//! order, for runs that must come out the same every time.
use vstd::prelude::*;
use rand::seq::SliceRandom;
use crate::model::{Identifier, TeamMember, id_views};
use crate::eligibility::Eligibility;
use crate::selection::{selection, interleave_candidates};

verus! {

/// Two lists hold the same members, each as often.
pub open spec fn same_members(a: Seq<TeamMember>, b: Seq<TeamMember>) -> bool {
    a.to_multiset() == b.to_multiset()
}

/// Puts the two pools of a run in the order in which they are offered.
pub trait TeamsShuffler {
    fn shuffle_teams(&self, first: Vec<TeamMember>, second: Vec<TeamMember>) -> (r: (Vec<TeamMember>, Vec<TeamMember>))
        ensures
            same_members(r.0@, first@),
            same_members(r.1@, second@),
    ;
}

/// Relies on rand's `SliceRandom::shuffle`, drawing from `thread_rng`: it
/// swaps elements in place, so the result is a permutation of the input.
#[verifier::external_body]
fn shuffle_members(members: Vec<TeamMember>) -> (r: Vec<TeamMember>)
    ensures
        same_members(r@, members@),
{
    let mut members = members;
    members.shuffle(&mut rand::thread_rng());
    members
}

/// Each pool in a random order of its own.
#[derive(Debug, Clone, Copy)]
pub struct RandomShuffler;

impl TeamsShuffler for RandomShuffler {
    fn shuffle_teams(&self, first: Vec<TeamMember>, second: Vec<TeamMember>) -> (r: (Vec<TeamMember>, Vec<TeamMember>)) {
        (shuffle_members(first), shuffle_members(second))
    }
}

/// Both pools as they came.
#[derive(Debug, Clone, Copy)]
pub struct KeepOrder;

impl TeamsShuffler for KeepOrder {
    fn shuffle_teams(&self, first: Vec<TeamMember>, second: Vec<TeamMember>) -> (r: (Vec<TeamMember>, Vec<TeamMember>))
        ensures
            r.0@ == first@,
            r.1@ == second@,
    {
        (first, second)
    }
}

/// Shuffles the author's team and its approvers' team once, then
/// offers their eligible members by turns, peers first.
pub fn select_reviewers<S: TeamsShuffler>(
    shuffler: &S,
    peers: Vec<TeamMember>,
    required: Vec<TeamMember>,
    rules: &Eligibility,
) -> (r: Vec<Identifier>)
    ensures
        exists|p: Seq<TeamMember>, q: Seq<TeamMember>|
            #![trigger same_members(p, peers@), same_members(q, required@)]
            same_members(p, peers@) && same_members(q, required@)
                && id_views(r@) == selection(p, q, *rules),
{
    let (peers, required) = shuffler.shuffle_teams(peers, required);
    let r = interleave_candidates(&peers, &required, rules);
    r
}

} // verus!
