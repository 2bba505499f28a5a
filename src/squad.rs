use vstd::prelude::*;

verus! {

/// A squad as a mathematical value.
pub struct SquadView {
    pub id: usize,
    pub name: Seq<char>,
    pub size: usize,
    pub team_id: usize,
    pub locked: bool,
}

/// A squad, with the team that it belongs to.
#[derive(Clone, Debug)]
pub struct Squad {
    id: usize,
    name: String,
    size: usize,
    team_id: usize,
    locked: bool,
}

impl View for Squad {
    type V = SquadView;

    closed spec fn view(&self) -> SquadView {
        SquadView {
            id: self.id,
            name: self.name@,
            size: self.size,
            team_id: self.team_id,
            locked: self.locked,
        }
    }
}

impl Squad {
    pub fn new(id: usize, name: String, size: usize, team_id: usize, locked: bool) -> (r: Squad)
        ensures
            r@ == (SquadView { id: id, name: name@, size: size, team_id: team_id, locked: locked }),
    {
        Squad { id: id, name: name, size: size, team_id: team_id, locked: locked }
    }

    pub fn id(&self) -> (r: usize)
        ensures
            r == self@.id,
    {
        self.id
    }

    pub fn name(&self) -> (r: &str)
        ensures
            r@ == self@.name,
    {
        self.name.as_str()
    }

    pub fn size(&self) -> (r: usize)
        ensures
            r == self@.size,
    {
        self.size
    }

    pub fn team_id(&self) -> (r: usize)
        ensures
            r == self@.team_id,
    {
        self.team_id
    }

    pub fn locked(&self) -> (r: bool)
        ensures
            r == self@.locked,
    {
        self.locked
    }
}

} // verus!
