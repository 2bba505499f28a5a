use regex::Regex;
use squad_rcon::{parse_player_line, parse_squads, Error};

const LINES: [&str; 8] = [
    "ID: 1 | SteamID: 1111 | Name: Alice | Team ID: 1 | Squad ID: 2",
    "ID: 2 | SteamID: 2222 | Name: Bob | Team ID: 2 | Squad ID: N/A",
    "xx ID: 3 | SteamID: 3 | Name: x | Team ID: 1 | Squad ID: 4 | Team ID: 2 | Squad ID: 5",
    "ID: 4 | SteamID: 4 | Name: ID: 9 | Team ID: 1 | Squad ID: 1",
    "ID: a | ID: 5 | SteamID: 5 | Name: y | Team ID: 1 | Squad ID: 1",
    "ID: 6 | SteamID: 6 | Name: z | Team ID: 12 | Squad ID: 1",
    "ID: 7 | Name: squad | Size: 3 | Locked: True",
    "Team ID: 1 (A (B))",
];

#[test]
fn player_grammar_agrees_with_the_pattern() {
    let re = Regex::new(r"ID: (\d*) \| SteamID: (\d*) \| Name: (.*) \| Team ID: (\d) \| Squad ID: (.*)").unwrap();
    for line in LINES {
        let ours = parse_player_line(line);
        match re.captures(line) {
            None => assert!(matches!(ours, Err(Error::SquadParsingError)), "{}", line),
            Some(c) => {
                let p = ours.unwrap();
                assert_eq!(p.id(), c.get(1).unwrap().as_str().parse::<usize>().unwrap(), "{}", line);
                assert_eq!(p.steam_id(), c.get(2).unwrap().as_str(), "{}", line);
                assert_eq!(p.name(), c.get(3).unwrap().as_str(), "{}", line);
                assert_eq!(p.team_id(), c.get(4).unwrap().as_str().parse().ok(), "{}", line);
                assert_eq!(p.squad_id(), c.get(5).unwrap().as_str().parse().ok(), "{}", line);
            }
        }
    }
}

#[test]
fn squad_grammar_agrees_with_the_patterns() {
    let team = Regex::new(r"Team ID: (\d*) \((.*)\)").unwrap();
    let squad = Regex::new(r"ID: (\d*) \| Name: (.*) \| Size: (\d) \| Locked: (.*)").unwrap();
    for line in LINES {
        let ours = parse_squads(&format!("banner\n{}", line));
        if let Some(c) = team.captures(line) {
            let (teams, squads) = ours.unwrap();
            assert_eq!(squads.len(), 0);
            assert_eq!(teams[0].name(), c.get(2).unwrap().as_str(), "{}", line);
        } else if let Some(c) = squad.captures(line) {
            let (_, squads) = ours.unwrap();
            assert_eq!(squads[0].name(), c.get(2).unwrap().as_str(), "{}", line);
            assert_eq!(squads[0].locked(), c.get(4).unwrap().as_str() == "True", "{}", line);
        } else {
            assert!(matches!(ours, Err(Error::SquadParsingError)), "{}", line);
        }
    }
}
