use vstd::prelude::*;

verus! {

/// A team as a mathematical value.
pub struct TeamView {
    pub id: usize,
    pub name: Seq<char>,
}

/// A team on the server.
#[derive(Clone, Debug)]
pub struct Team {
    id: usize,
    name: String,
}

impl View for Team {
    type V = TeamView;

    closed spec fn view(&self) -> TeamView {
        TeamView { id: self.id, name: self.name@ }
    }
}

impl Team {
    pub fn new(id: usize, name: String) -> (r: Team)
        ensures
            r@ == (TeamView { id: id, name: name@ }),
    {
        Team { id: id, name: name }
    }

    pub fn id(&self) -> (r: usize)
        ensures
            r == self@.id,
    {
        self.id
    }

    pub fn name(&self) -> (r: &str)
        ensures
            r@ == self@.name,
    {
        self.name.as_str()
    }
}

} // verus!
