//! Who may be asked to look at the change: not the author, not someone already on the
//! pull request, and not someone who is out of office.
use vstd::prelude::*;
use crate::model::{Identifier, TeamMember, id_views};

verus! {

/// The texts of a list of strings, in order.
pub open spec fn texts(v: Seq<String>) -> Seq<Seq<char>> {
    v.map_values(|s: String| s@)
}

/// Which display names are out of office.
#[derive(Debug, Clone)]
pub enum OutOfOffice {
    /// Exactly the listed names are out of office.
    Listed(Vec<String>),
    /// Everybody is out of office but the listed names.
    AllExcept(Vec<String>),
}

impl OutOfOffice {
    pub open spec fn marks(&self, name: Seq<char>) -> bool {
        match self {
            OutOfOffice::Listed(v) => texts(v@).contains(name),
            OutOfOffice::AllExcept(v) => !texts(v@).contains(name),
        }
    }

    /// Nobody is out of office.
    pub fn nobody() -> (r: OutOfOffice)
        ensures
            forall|name: Seq<char>| !r.marks(name),
    {
        OutOfOffice::Listed(Vec::new())
    }

    /// Whether the person with this display name is out of office.
    pub fn is_out_of_office(&self, name: &String) -> (r: bool)
        ensures
            r == self.marks(name@),
    {
        match self {
            OutOfOffice::Listed(v) => contains_text(v, name),
            OutOfOffice::AllExcept(v) => !contains_text(v, name),
        }
    }
}

/// Whether `s` is one of the strings of `v`.
pub fn contains_text(v: &Vec<String>, s: &String) -> (r: bool)
    ensures
        r == texts(v@).contains(s@),
{
    let mut i: usize = 0;
    while i < v.len()
        invariant
            i <= v.len(),
            forall|j: int| 0 <= j < i ==> v@[j]@ != s@,
        decreases v.len() - i,
    {
        if v[i] == *s {
            assert(texts(v@)[i as int] == s@);
            return true;
        }
        i += 1;
    }
    proof {
        if texts(v@).contains(s@) {
            let k = choose|k: int| 0 <= k < texts(v@).len() && texts(v@)[k] == s@;
            assert(v@[k]@ == s@);
        }
    }
    false
}

/// Whether `id` is one of the handles of `ids`.
pub fn contains_id(ids: &Vec<Identifier>, id: &Identifier) -> (r: bool)
    ensures
        r == id_views(ids@).contains(id@),
{
    let mut i: usize = 0;
    while i < ids.len()
        invariant
            i <= ids.len(),
            forall|j: int| 0 <= j < i ==> ids@[j]@ != id@,
        decreases ids.len() - i,
    {
        if ids[i].same_as(id) {
            assert(id_views(ids@)[i as int] == id@);
            return true;
        }
        i += 1;
    }
    proof {
        if id_views(ids@).contains(id@) {
            let k = choose|k: int| 0 <= k < id_views(ids@).len() && id_views(ids@)[k] == id@;
            assert(ids@[k]@ == id@);
        }
    }
    false
}

/// What decides whether a team member may be asked to look at the change.
#[derive(Debug, Clone)]
pub struct Eligibility {
    /// The author of the pull request.
    pub author: Identifier,
    /// The assignees already on the pull request.
    pub existing: Vec<Identifier>,
    /// Who is out of office.
    pub out_of_office: OutOfOffice,
}

impl Eligibility {
    /// Not the author, not already an assignee, not out of office.
    pub open spec fn admits(&self, m: TeamMember) -> bool {
        &&& m.id@ != self.author@
        &&& !id_views(self.existing@).contains(m.id@)
        &&& !self.out_of_office.marks(m.name@)
    }

    /// Whether `m` may be asked to look at the change.
    pub fn allows(&self, m: &TeamMember) -> (r: bool)
        ensures
            r == self.admits(*m),
    {
        !m.id.same_as(&self.author) && !contains_id(&self.existing, &m.id)
            && !self.out_of_office.is_out_of_office(&m.name)
    }
}

} // verus!
