//! Parsers for the replies to the listing commands. A reply is split into
//! lines, and each line is read with one of the grammars of `grammar`.
use crate::error::Error;
use crate::grammar::{
    find_match, first_match, tail_len, Grammar, Marks, NEXT_MAP_SEP, SIZE_SEP, TEAM_ID_SEP,
};
use crate::player::{Player, PlayerView};
use crate::squad::{Squad, SquadView};
use crate::team::{Team, TeamView};
use crate::text::{
    contains_exec, contains_text, has_at_exec, lemma_lines_nonempty, lines, parse_usize,
    slice_text, split_lines, usize_or_default, usize_or_zero, usize_text,
};
use vstd::prelude::*;
use vstd::string::*;

verus! {

/// The line that ends the list of active players.
pub const DISCONNECTED_MARKER: &'static str = "Recently Disconnected Players";

/// The value of the locked field of a locked squad.
pub const LOCKED_TRUE: &'static str = "True";

/// How reading a reply can end.
pub enum Outcome<T> {
    Parsed(T),
    /// A line matched none of the grammars that may stand there.
    NoMatch,
    /// A numeric field that has no default was no number.
    BadNumber,
}

pub open spec fn opt_usize(o: Option<int>) -> Option<usize> {
    match o {
        Some(v) => Some(v as usize),
        None => None,
    }
}

/// A player line: the id and the steam id must be numbers (the steam id is
/// kept as text); a team digit that is no number reads as 0; a squad field
/// that is no number means no squad.
pub open spec fn player_of_line(s: Seq<char>) -> Outcome<PlayerView> {
    match first_match(Grammar::Player, s, 0) {
        None => Outcome::NoMatch,
        Some(m) => match usize_text(s.subrange(m[0], m[1])) {
            None => Outcome::BadNumber,
            Some(id) => if usize_text(s.subrange(m[2], m[3])) is None {
                Outcome::BadNumber
            } else {
                let t = m[5] + TEAM_ID_SEP@.len();
                Outcome::Parsed(
                    PlayerView {
                        id: id as usize,
                        steam_id: s.subrange(m[2], m[3]),
                        name: s.subrange(m[4], m[5]),
                        team_id: Some(usize_or_zero(s.subrange(t, t + 1)) as usize),
                        squad_id: opt_usize(
                            usize_text(s.subrange(m[5] + tail_len(Grammar::Player), s.len() as int)),
                        ),
                    },
                )
            },
        },
    }
}

pub open spec fn cons<T>(x: T, o: Outcome<Seq<T>>) -> Outcome<Seq<T>> {
    match o {
        Outcome::Parsed(xs) => Outcome::Parsed(seq![x] + xs),
        Outcome::NoMatch => Outcome::NoMatch,
        Outcome::BadNumber => Outcome::BadNumber,
    }
}

pub open spec fn prepend<T>(xs: Seq<T>, o: Outcome<Seq<T>>) -> Outcome<Seq<T>> {
    match o {
        Outcome::Parsed(ys) => Outcome::Parsed(xs + ys),
        Outcome::NoMatch => Outcome::NoMatch,
        Outcome::BadNumber => Outcome::BadNumber,
    }
}

/// The players of the lines `ls`, up to the first line that holds the
/// disconnected marker. The first line that is no player line, or whose id
/// is no number, fails the whole list.
pub open spec fn players_in(ls: Seq<Seq<char>>) -> Outcome<Seq<PlayerView>>
    decreases ls.len(),
{
    if ls.len() == 0 {
        Outcome::Parsed(Seq::empty())
    } else if contains_text(ls[0], DISCONNECTED_MARKER@) {
        Outcome::Parsed(Seq::empty())
    } else {
        match player_of_line(ls[0]) {
            Outcome::Parsed(p) => cons(p, players_in(ls.drop_first())),
            Outcome::NoMatch => Outcome::NoMatch,
            Outcome::BadNumber => Outcome::BadNumber,
        }
    }
}

/// The players of a `ListPlayers` reply: every line after the banner.
pub open spec fn players_of(text: Seq<char>) -> Outcome<Seq<PlayerView>> {
    players_in(lines(text).drop_first())
}

pub open spec fn team_of_line(s: Seq<char>, m: Seq<int>) -> TeamView {
    TeamView { id: usize_or_zero(s.subrange(m[0], m[1])) as usize, name: s.subrange(m[2], m[5]) }
}

pub open spec fn squad_of_line(s: Seq<char>, m: Seq<int>, team_id: usize) -> SquadView {
    let z = m[5] + SIZE_SEP@.len();
    SquadView {
        id: usize_or_zero(s.subrange(m[0], m[1])) as usize,
        name: s.subrange(m[2], m[5]),
        size: usize_or_zero(s.subrange(z, z + 1)) as usize,
        team_id: team_id,
        locked: s.subrange(m[5] + tail_len(Grammar::Squad), s.len() as int) == LOCKED_TRUE@,
    }
}

/// The teams and squads of the lines `ls`. A team line makes its id the team
/// of the squad lines after it; `team_id` is that of the squads before the
/// first team line. A line that is neither fails the whole listing.
pub open spec fn squads_in(ls: Seq<Seq<char>>, team_id: usize) -> Outcome<
    (Seq<TeamView>, Seq<SquadView>),
>
    decreases ls.len(),
{
    if ls.len() == 0 {
        Outcome::Parsed((Seq::empty(), Seq::empty()))
    } else {
        match first_match(Grammar::Team, ls[0], 0) {
            Some(m) => {
                let t = team_of_line(ls[0], m);
                match squads_in(ls.drop_first(), t.id) {
                    Outcome::Parsed(r) => Outcome::Parsed((seq![t] + r.0, r.1)),
                    Outcome::NoMatch => Outcome::NoMatch,
                    Outcome::BadNumber => Outcome::BadNumber,
                }
            },
            None => match first_match(Grammar::Squad, ls[0], 0) {
                Some(m) => {
                    let q = squad_of_line(ls[0], m, team_id);
                    match squads_in(ls.drop_first(), team_id) {
                        Outcome::Parsed(r) => Outcome::Parsed((r.0, seq![q] + r.1)),
                        Outcome::NoMatch => Outcome::NoMatch,
                        Outcome::BadNumber => Outcome::BadNumber,
                    }
                },
                None => Outcome::NoMatch,
            },
        }
    }
}

/// The teams and squads of a `ListSquads` reply: every line after the
/// banner, with 0 as the team of squads listed before any team.
pub open spec fn squads_of(text: Seq<char>) -> Outcome<(Seq<TeamView>, Seq<SquadView>)> {
    squads_in(lines(text).drop_first(), 0)
}

/// The current and next map from the first line of `ls` that states them.
pub open spec fn maps_in(ls: Seq<Seq<char>>) -> Option<(Seq<char>, Seq<char>)>
    decreases ls.len(),
{
    if ls.len() == 0 {
        None
    } else {
        match first_match(Grammar::Maps, ls[0], 0) {
            Some(m) => Some(
                (
                    ls[0].subrange(m[0], m[5]),
                    ls[0].subrange(m[5] + NEXT_MAP_SEP@.len(), ls[0].len() as int),
                ),
            ),
            None => maps_in(ls.drop_first()),
        }
    }
}

proof fn lemma_squads_in_bad_line(ls: Seq<Seq<char>>, team_id: usize, j: int)
    requires
        0 <= j < ls.len(),
        first_match(Grammar::Team, ls[j], 0) is None,
        first_match(Grammar::Squad, ls[j], 0) is None,
    ensures
        squads_in(ls, team_id) is NoMatch,
    decreases j,
{
    if j > 0 {
        let rest = ls.drop_first();
        assert(rest[j - 1] == ls[j]);
        match first_match(Grammar::Team, ls[0], 0) {
            Some(m) => lemma_squads_in_bad_line(rest, team_of_line(ls[0], m).id, j - 1),
            None => lemma_squads_in_bad_line(rest, team_id, j - 1),
        }
    }
}

/// A line after the banner of a `ListSquads` reply that is neither a team
/// line nor a squad line fails the whole listing: no partial list is given.
pub proof fn lemma_squads_bad_line(text: Seq<char>, j: int)
    requires
        1 <= j < lines(text).len(),
        first_match(Grammar::Team, lines(text)[j], 0) is None,
        first_match(Grammar::Squad, lines(text)[j], 0) is None,
    ensures
        squads_of(text) is NoMatch,
{
    let ls = lines(text).drop_first();
    assert(ls[j - 1] == lines(text)[j]);
    lemma_squads_in_bad_line(ls, 0, j - 1);
}

pub open spec fn players_view(v: Seq<Player>) -> Seq<PlayerView> {
    v.map_values(|p: Player| p@)
}

pub open spec fn teams_view(v: Seq<Team>) -> Seq<TeamView> {
    v.map_values(|t: Team| t@)
}

pub open spec fn squads_view(v: Seq<Squad>) -> Seq<SquadView> {
    v.map_values(|q: Squad| q@)
}

/// Reads one player line.
pub fn parse_player_line(line: &str) -> (r: Result<Player, Error>)
    ensures
        match player_of_line(line@) {
            Outcome::Parsed(p) => r is Ok && r->Ok_0@ == p,
            Outcome::NoMatch => r matches Err(Error::SquadParsingError),
            Outcome::BadNumber => r matches Err(Error::ParseIntError(_)),
        },
{
    let m: Marks = match find_match(Grammar::Player, line) {
        None => {
            return Err(Error::SquadParsingError);
        },
        Some(m) => m,
    };
    let n = line.unicode_len();
    let id = match parse_usize(line.substring_char(m.a, m.b)) {
        Ok(v) => v,
        Err(e) => {
            return Err(Error::ParseIntError(e));
        },
    };
    if let Err(e) = parse_usize(line.substring_char(m.c, m.d)) {
        return Err(Error::ParseIntError(e));
    }
    let t = m.k + TEAM_ID_SEP.unicode_len();
    let team_id = usize_or_default(line.substring_char(t, t + 1));
    let rest = m.k + TEAM_ID_SEP.unicode_len() + 1 + crate::grammar::SQUAD_ID_SEP.unicode_len();
    let squad_id = match parse_usize(line.substring_char(rest, n)) {
        Ok(v) => Some(v),
        Err(_) => None,
    };
    Ok(Player::new(id, slice_text(line, m.c, m.d), slice_text(line, m.e, m.k), Some(team_id), squad_id))
}

proof fn lemma_prepend_cons<T>(acc: Seq<T>, x: T, o: Outcome<Seq<T>>)
    ensures
        prepend(acc, cons(x, o)) == prepend(acc.push(x), o),
{
    if let Outcome::Parsed(ys) = o {
        assert(acc + (seq![x] + ys) =~= acc.push(x) + ys);
    }
}

/// The players of a `ListPlayers` reply.
pub fn parse_players(text: &str) -> (r: Result<Vec<Player>, Error>)
    ensures
        match players_of(text@) {
            Outcome::Parsed(ps) => r is Ok && players_view(r->Ok_0@) == ps,
            Outcome::NoMatch => r matches Err(Error::SquadParsingError),
            Outcome::BadNumber => r matches Err(Error::ParseIntError(_)),
        },
{
    let ls = split_lines(text);
    let ghost all = lines(text@);
    proof {
        lemma_lines_nonempty(text@);
    }
    let count = ls.len();
    let mut players: Vec<Player> = Vec::new();
    let mut i: usize = 1;
    assert(all.subrange(1, count as int) =~= all.drop_first());
    assert(prepend(players_view(players@), players_in(all.subrange(1, count as int)))
        =~= players_in(all.subrange(1, count as int))) by {
        if let Outcome::Parsed(ys) = players_in(all.subrange(1, count as int)) {
            assert(players_view(players@) + ys =~= ys);
        }
    }
    while i < count
        invariant
            ls@.map_values(|l: String| l@) == all,
            count == all.len(),
            1 <= i <= count,
            players_of(text@) == prepend(
                players_view(players@),
                players_in(all.subrange(i as int, count as int)),
            ),
        decreases count - i,
    {
        let line = ls[i].as_str();
        let ghost rest = all.subrange(i as int, count as int);
        assert(rest[0] == all[i as int]);
        assert(rest.drop_first() =~= all.subrange(i + 1, count as int));
        if contains_exec(line, DISCONNECTED_MARKER) {
            assert(players_view(players@) + Seq::empty() =~= players_view(players@));
            return Ok(players);
        }
        match parse_player_line(line) {
            Ok(p) => {
                let ghost before = players_view(players@);
                proof {
                    lemma_prepend_cons(before, p@, players_in(rest.drop_first()));
                }
                players.push(p);
                assert(players_view(players@) =~= before.push(p@));
            },
            Err(e) => {
                return Err(e);
            },
        }
        i = i + 1;
    }
    assert(all.subrange(i as int, count as int) =~= Seq::<Seq<char>>::empty());
    assert(players_view(players@) + Seq::empty() =~= players_view(players@));
    Ok(players)
}

/// Whether the characters of `s` from `start` to its end are exactly `lit`.
fn rest_is(s: &str, n: usize, start: usize, lit: &str) -> (r: bool)
    requires
        n == s@.len(),
        start <= n,
    ensures
        r == (s@.subrange(start as int, n as int) == lit@),
{
    let m = lit.unicode_len();
    if n - start != m {
        assert(s@.subrange(start as int, n as int).len() != lit@.len());
        return false;
    }
    has_at_exec(s, n, start, lit)
}

pub open spec fn with_team<A, B>(t: A, o: Outcome<(Seq<A>, Seq<B>)>) -> Outcome<(Seq<A>, Seq<B>)> {
    match o {
        Outcome::Parsed(r) => Outcome::Parsed((seq![t] + r.0, r.1)),
        Outcome::NoMatch => Outcome::NoMatch,
        Outcome::BadNumber => Outcome::BadNumber,
    }
}

pub open spec fn with_squad<A, B>(q: B, o: Outcome<(Seq<A>, Seq<B>)>) -> Outcome<(Seq<A>, Seq<B>)> {
    match o {
        Outcome::Parsed(r) => Outcome::Parsed((r.0, seq![q] + r.1)),
        Outcome::NoMatch => Outcome::NoMatch,
        Outcome::BadNumber => Outcome::BadNumber,
    }
}

pub open spec fn prepend2<A, B>(ts: Seq<A>, qs: Seq<B>, o: Outcome<(Seq<A>, Seq<B>)>) -> Outcome<
    (Seq<A>, Seq<B>),
> {
    match o {
        Outcome::Parsed(r) => Outcome::Parsed((ts + r.0, qs + r.1)),
        Outcome::NoMatch => Outcome::NoMatch,
        Outcome::BadNumber => Outcome::BadNumber,
    }
}

/// The teams and the squads of a `ListSquads` reply, each in line order.
pub fn parse_squads(text: &str) -> (r: Result<(Vec<Team>, Vec<Squad>), Error>)
    ensures
        match squads_of(text@) {
            Outcome::Parsed(ts) => r is Ok && teams_view(r->Ok_0.0@) == ts.0 && squads_view(
                r->Ok_0.1@,
            ) == ts.1,
            Outcome::NoMatch => r matches Err(Error::SquadParsingError),
            Outcome::BadNumber => false,
        },
{
    let ls = split_lines(text);
    let ghost all = lines(text@);
    proof {
        lemma_lines_nonempty(text@);
    }
    let count = ls.len();
    let mut teams: Vec<Team> = Vec::new();
    let mut squads: Vec<Squad> = Vec::new();
    let mut current_team: usize = 0;
    let mut i: usize = 1;
    assert(all.subrange(1, count as int) =~= all.drop_first());
    assert(prepend2(teams_view(teams@), squads_view(squads@), squads_in(all.subrange(1, count as int), 0))
        =~= squads_in(all.subrange(1, count as int), 0)) by {
        if let Outcome::Parsed(r) = squads_in(all.subrange(1, count as int), 0) {
            assert(teams_view(teams@) + r.0 =~= r.0);
            assert(squads_view(squads@) + r.1 =~= r.1);
        }
    }
    while i < count
        invariant
            ls@.map_values(|l: String| l@) == all,
            count == all.len(),
            1 <= i <= count,
            squads_of(text@) == prepend2(
                teams_view(teams@),
                squads_view(squads@),
                squads_in(all.subrange(i as int, count as int), current_team),
            ),
        decreases count - i,
    {
        let line = ls[i].as_str();
        let ghost rest = all.subrange(i as int, count as int);
        assert(rest[0] == all[i as int]);
        assert(rest.drop_first() =~= all.subrange(i + 1, count as int));
        let ghost tv = teams_view(teams@);
        let ghost qv = squads_view(squads@);
        match find_match(Grammar::Team, line) {
            Some(m) => {
                let id = usize_or_default(line.substring_char(m.a, m.b));
                let team = Team::new(id, slice_text(line, m.c, m.k));
                let ghost t = team@;
                assert(t == team_of_line(line@, m@));
                teams.push(team);
                current_team = id;
                assert(teams_view(teams@) =~= tv.push(t));
                assert(prepend2(tv, qv, with_team(t, squads_in(rest.drop_first(), current_team)))
                    == prepend2(tv.push(t), qv, squads_in(rest.drop_first(), current_team))) by {
                    if let Outcome::Parsed(r) = squads_in(rest.drop_first(), current_team) {
                        assert(tv + (seq![t] + r.0) =~= tv.push(t) + r.0);
                    }
                }
            },
            None => {
                match find_match(Grammar::Squad, line) {
                    Some(m) => {
                        let n = line.unicode_len();
                        let id = usize_or_default(line.substring_char(m.a, m.b));
                        let z = m.k + SIZE_SEP.unicode_len();
                        let size = usize_or_default(line.substring_char(z, z + 1));
                        let tail = z + 1 + crate::grammar::LOCKED_SEP.unicode_len();
                        let locked = rest_is(line, n, tail, LOCKED_TRUE);
                        let squad = Squad::new(
                            id,
                            slice_text(line, m.c, m.k),
                            size,
                            current_team,
                            locked,
                        );
                        let ghost q = squad@;
                        assert(q == squad_of_line(line@, m@, current_team));
                        squads.push(squad);
                        assert(squads_view(squads@) =~= qv.push(q));
                        assert(prepend2(tv, qv, with_squad(q, squads_in(rest.drop_first(), current_team)))
                            == prepend2(tv, qv.push(q), squads_in(rest.drop_first(), current_team))) by {
                            if let Outcome::Parsed(r) = squads_in(rest.drop_first(), current_team) {
                                assert(qv + (seq![q] + r.1) =~= qv.push(q) + r.1);
                            }
                        }
                    },
                    None => {
                        return Err(Error::SquadParsingError);
                    },
                }
            },
        }
        i = i + 1;
    }
    assert(all.subrange(i as int, count as int) =~= Seq::<Seq<char>>::empty());
    assert(teams_view(teams@) + Seq::empty() =~= teams_view(teams@));
    assert(squads_view(squads@) + Seq::empty() =~= squads_view(squads@));
    Ok((teams, squads))
}

/// The current and the next map from a `ShowNextMap` reply.
pub fn parse_maps(text: &str) -> (r: Result<(String, String), Error>)
    ensures
        match maps_in(lines(text@)) {
            Some((current, next)) => r is Ok && r->Ok_0.0@ == current && r->Ok_0.1@ == next,
            None => r matches Err(Error::SquadParsingError),
        },
{
    let ls = split_lines(text);
    let ghost all = lines(text@);
    let count = ls.len();
    let mut i: usize = 0;
    assert(all.subrange(0, count as int) =~= all);
    while i < count
        invariant
            ls@.map_values(|l: String| l@) == all,
            count == all.len(),
            i <= count,
            all == lines(text@),
            maps_in(all) == maps_in(all.subrange(i as int, count as int)),
        decreases count - i,
    {
        let line = ls[i].as_str();
        let ghost rest = all.subrange(i as int, count as int);
        assert(rest[0] == all[i as int]);
        assert(rest.drop_first() =~= all.subrange(i + 1, count as int));
        match find_match(Grammar::Maps, line) {
            Some(m) => {
                let n = line.unicode_len();
                let current = slice_text(line, m.a, m.k);
                let next = slice_text(line, m.k + NEXT_MAP_SEP.unicode_len(), n);
                assert(line@ == all[i as int]);
                assert(m@[0] == m.a as int && m@[5] == m.k as int);
                return Ok((current, next));
            },
            None => {},
        }
        i = i + 1;
    }
    Err(Error::SquadParsingError)
}

/// The map names of a `ListMaps` reply: its lines, as they are.
pub fn parse_map_list(text: &str) -> (r: Vec<String>)
    ensures
        r@.map_values(|l: String| l@) == lines(text@),
{
    split_lines(text)
}

} // verus!
