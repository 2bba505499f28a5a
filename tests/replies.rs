use squad_rcon::{parse_map_list, parse_maps, parse_player_line, parse_players, parse_squads, Error};

const PLAYERS: &str = "----- Active Players -----\n\
ID: 1 | SteamID: 1111 | Name: Alice | Team ID: 1 | Squad ID: 2\n\
ID: 2 | SteamID: 2222 | Name: Bob | Team ID: 2 | Squad ID: N/A\n\
----- Recently Disconnected Players -----\n\
ID: 3 | SteamID: 3333 | Name: Carl | Team ID: 1 | Squad ID: 1";

#[test]
fn list_players_stops_at_the_disconnected_section() {
    let players = parse_players(PLAYERS).unwrap();
    assert_eq!(players.len(), 2);
    assert_eq!(players[0].id(), 1);
    assert_eq!(players[0].steam_id(), "1111");
    assert_eq!(players[0].name(), "Alice");
    assert_eq!(players[0].team_id(), Some(1));
    assert_eq!(players[0].squad_id(), Some(2));
    assert_eq!(players[1].id(), 2);
    assert_eq!(players[1].name(), "Bob");
    assert_eq!(players[1].team_id(), Some(2));
    assert_eq!(players[1].squad_id(), None);
    assert!(players.iter().all(|p| p.name() != "Carl"));
}

#[test]
fn list_players_fails_whole_on_one_bad_line() {
    let text = "----- Active Players -----\n\
ID: 1 | SteamID: 1111 | Name: Alice | Team ID: 1 | Squad ID: 2\n\
garbage";
    assert!(matches!(parse_players(text), Err(Error::SquadParsingError)));
}

#[test]
fn list_players_fails_on_an_empty_id() {
    let text = "banner\nID:  | SteamID: 1111 | Name: Alice | Team ID: 1 | Squad ID: 2";
    assert!(matches!(parse_players(text), Err(Error::ParseIntError(_))));
}

#[test]
fn list_players_fails_on_an_empty_steam_id() {
    let text = "banner\nID: 1 | SteamID:  | Name: Alice | Team ID: 1 | Squad ID: 2";
    assert!(matches!(parse_players(text), Err(Error::ParseIntError(_))));
}

#[test]
fn list_players_fails_on_an_id_beyond_usize() {
    let text = "banner\nID: 99999999999999999999999 | SteamID: 1 | Name: A | Team ID: 1 | Squad ID: 2";
    assert!(matches!(parse_players(text), Err(Error::ParseIntError(_))));
}

#[test]
fn list_players_of_a_banner_alone_is_empty() {
    assert_eq!(parse_players("----- Active Players -----").unwrap().len(), 0);
    assert_eq!(parse_players("").unwrap().len(), 0);
}

#[test]
fn player_name_reaches_the_last_team_field() {
    let line = "ID: 4 | SteamID: 44 | Name: a | Team ID: 1 | Squad ID: 9 | Team ID: 2 | Squad ID: 7";
    let p = parse_player_line(line).unwrap();
    assert_eq!(p.name(), "a | Team ID: 1 | Squad ID: 9");
    assert_eq!(p.team_id(), Some(2));
    assert_eq!(p.squad_id(), Some(7));
}

#[test]
fn player_line_may_have_a_prefix_and_a_plus_squad() {
    let p = parse_player_line("> ID: 12 | SteamID: 0077 | Name: Zed | Team ID: 0 | Squad ID: +3").unwrap();
    assert_eq!(p.id(), 12);
    assert_eq!(p.steam_id(), "0077");
    assert_eq!(p.team_id(), Some(0));
    assert_eq!(p.squad_id(), Some(3));
}

#[test]
fn player_line_with_two_digit_team_does_not_match() {
    let r = parse_player_line("ID: 1 | SteamID: 1 | Name: A | Team ID: 12 | Squad ID: 1");
    assert!(matches!(r, Err(Error::SquadParsingError)));
}

#[test]
fn list_squads_back_fills_the_team() {
    let text = "----- Active Squads -----\n\
Team ID: 1 (Team Alpha)\n\
ID: 1 | Name: Alpha Squad | Size: 5 | Locked: True";
    let (teams, squads) = parse_squads(text).unwrap();
    assert_eq!(teams.len(), 1);
    assert_eq!(teams[0].id(), 1);
    assert_eq!(teams[0].name(), "Team Alpha");
    assert_eq!(squads.len(), 1);
    assert_eq!(squads[0].id(), 1);
    assert_eq!(squads[0].name(), "Alpha Squad");
    assert_eq!(squads[0].size(), 5);
    assert_eq!(squads[0].team_id(), 1);
    assert!(squads[0].locked());
}

#[test]
fn list_squads_follows_each_team_header() {
    let text = "banner\n\
ID: 7 | Name: Early | Size: 1 | Locked: False\n\
Team ID: 1 (Red (A))\n\
ID: 1 | Name: One | Size: 9 | Locked: True\n\
Team ID: 2 (Blue)\n\
ID: 2 | Name: Two | Size: 3 | Locked: False";
    let (teams, squads) = parse_squads(text).unwrap();
    assert_eq!(teams.len(), 2);
    assert_eq!(teams[0].name(), "Red (A)");
    assert_eq!(teams[1].id(), 2);
    let got: Vec<(usize, usize, bool)> = squads.iter().map(|s| (s.id(), s.team_id(), s.locked())).collect();
    assert_eq!(got, vec![(7, 0, false), (1, 1, true), (2, 2, false)]);
}

#[test]
fn list_squads_fails_whole_on_one_bad_line() {
    let text = "banner\n\
Team ID: 1 (Team Alpha)\n\
ID: 1 | Name: Alpha Squad | Size: 5 | Locked: True\n\
this is not a squad";
    assert!(matches!(parse_squads(text), Err(Error::SquadParsingError)));
}

#[test]
fn list_squads_fails_on_a_trailing_empty_line() {
    let text = "banner\nTeam ID: 1 (A)\n";
    assert!(matches!(parse_squads(text), Err(Error::SquadParsingError)));
}

#[test]
fn show_next_map_gives_both_maps() {
    let (current, next) = parse_maps("Current map is Narva RAAS v1, Next map is Yehorivka AAS v2").unwrap();
    assert_eq!(current, "Narva RAAS v1");
    assert_eq!(next, "Yehorivka AAS v2");
}

#[test]
fn show_next_map_looks_past_other_lines() {
    let (current, next) = parse_maps("header\nCurrent map is A, B, Next map is C\nrest").unwrap();
    assert_eq!(current, "A, B");
    assert_eq!(next, "C");
}

#[test]
fn show_next_map_fails_without_the_pattern() {
    assert!(matches!(parse_maps("no maps here"), Err(Error::SquadParsingError)));
}

#[test]
fn list_maps_keeps_every_line() {
    assert_eq!(parse_map_list("Narva\nYehorivka\n"), vec!["Narva", "Yehorivka", ""]);
    assert_eq!(parse_map_list(""), vec![""]);
}
