use vstd::prelude::*;

verus! {

/// A player as a mathematical value.
pub struct PlayerView {
    pub id: usize,
    pub steam_id: Seq<char>,
    pub name: Seq<char>,
    pub team_id: Option<usize>,
    pub squad_id: Option<usize>,
}

/// A player on the server. No `squad_id` means that the player is in no squad.
#[derive(Clone, Debug)]
pub struct Player {
    id: usize,
    steam_id: String,
    name: String,
    team_id: Option<usize>,
    squad_id: Option<usize>,
}

impl View for Player {
    type V = PlayerView;

    closed spec fn view(&self) -> PlayerView {
        PlayerView {
            id: self.id,
            steam_id: self.steam_id@,
            name: self.name@,
            team_id: self.team_id,
            squad_id: self.squad_id,
        }
    }
}

impl Player {
    pub fn new(
        id: usize,
        steam_id: String,
        name: String,
        team_id: Option<usize>,
        squad_id: Option<usize>,
    ) -> (r: Player)
        ensures
            r@ == (PlayerView {
                id: id,
                steam_id: steam_id@,
                name: name@,
                team_id: team_id,
                squad_id: squad_id,
            }),
    {
        Player { id: id, steam_id: steam_id, name: name, team_id: team_id, squad_id: squad_id }
    }

    pub fn id(&self) -> (r: usize)
        ensures
            r == self@.id,
    {
        self.id
    }

    pub fn steam_id(&self) -> (r: &str)
        ensures
            r@ == self@.steam_id,
    {
        self.steam_id.as_str()
    }

    pub fn name(&self) -> (r: &str)
        ensures
            r@ == self@.name,
    {
        self.name.as_str()
    }

    pub fn team_id(&self) -> (r: Option<usize>)
        ensures
            r == self@.team_id,
    {
        self.team_id
    }

    pub fn squad_id(&self) -> (r: Option<usize>)
        ensures
            r == self@.squad_id,
    {
        self.squad_id
    }
}

} // verus!
