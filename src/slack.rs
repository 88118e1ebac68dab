//! People as the messaging platform knows them.
use vstd::prelude::*;

verus! {

/// A user of the messaging platform.
#[derive(Debug, Clone)]
pub struct User {
    pub id: String,
    pub name: String,
    pub status_text: String,
}

impl User {
    pub open spec fn vacationing(&self) -> bool {
        self.status_text@ == "Vacationing"@
    }

    /// Whether the user's status says they are on vacation.
    pub fn is_on_vacation(&self) -> (r: bool)
        ensures
            r == self.vacationing(),
    {
        let marker = "Vacationing".to_owned();
        self.status_text == marker
    }
}

/// The (name, id) pairs of the users not on vacation, in order.
pub open spec fn present_pairs(users: Seq<User>) -> Seq<(Seq<char>, Seq<char>)>
    decreases users.len(),
{
    if users.len() == 0 {
        seq![]
    } else {
        let rest = present_pairs(users.drop_last());
        let u = users.last();
        if u.vacationing() {
            rest
        } else {
            rest.push((u.name@, u.id@))
        }
    }
}

/// The name and id of each user who is not on vacation.
pub fn available_users(users: &Vec<User>) -> (r: Vec<(String, String)>)
    ensures
        r@.map_values(|p: (String, String)| (p.0@, p.1@)) == present_pairs(users@),
{
    let mut out: Vec<(String, String)> = Vec::new();
    let mut i: usize = 0;
    while i < users.len()
        invariant
            i <= users.len(),
            out@.map_values(|p: (String, String)| (p.0@, p.1@)) == present_pairs(users@.subrange(0, i as int)),
        decreases users.len() - i,
    {
        let ghost before = out@;
        assert(users@.subrange(0, i + 1).drop_last() =~= users@.subrange(0, i as int));
        assert(users@.subrange(0, i + 1).last() == users@[i as int]);
        if !users[i].is_on_vacation() {
            out.push((users[i].name.clone(), users[i].id.clone()));
            assert(out@.map_values(|p: (String, String)| (p.0@, p.1@)) =~= before.map_values(
                |p: (String, String)| (p.0@, p.1@),
            ).push((users@[i as int].name@, users@[i as int].id@)));
        }
        i += 1;
    }
    assert(users@.subrange(0, users.len() as int) =~= users@);
    out
}

} // verus!
