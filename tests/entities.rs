use squad_rcon::{Chat, Player, Squad, Team};

#[test]
fn player_keeps_its_fields() {
    let p = Player::new(3, "765".to_string(), "Carl".to_string(), Some(1), None);
    assert_eq!((p.id(), p.steam_id(), p.name(), p.team_id(), p.squad_id()), (3, "765", "Carl", Some(1), None));
}

#[test]
fn squad_keeps_its_fields() {
    let s = Squad::new(2, "Armor".to_string(), 4, 1, true);
    assert_eq!((s.id(), s.name(), s.size(), s.team_id(), s.locked()), (2, "Armor", 4, 1, true));
}

#[test]
fn team_keeps_its_fields() {
    let t = Team::new(2, "Blue".to_string());
    assert_eq!((t.id(), t.name()), (2, "Blue"));
}

#[test]
fn chat_keeps_its_fields() {
    let c = Chat::new("ChatAll".to_string(), "765".to_string(), "Ann".to_string(), "gg".to_string());
    assert_eq!((c.channel(), c.steam_id(), c.name(), c.message()), ("ChatAll", "765", "Ann", "gg"));
}
