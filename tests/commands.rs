use squad_rcon::commands::{
    ban_command, broadcast_command, change_map_command, chat_to_admin_command,
    demote_commander_command, disband_squad_command, force_team_change_command, kick_command,
    set_next_map_command, warn_command, END_MATCH, LIST_MAPS, LIST_PLAYERS, LIST_SQUADS,
    SHOW_NEXT_MAP,
};

#[test]
fn listing_commands_are_fixed() {
    assert_eq!(LIST_PLAYERS, "ListPlayers");
    assert_eq!(LIST_SQUADS, "ListSquads");
    assert_eq!(LIST_MAPS, "ListMaps");
    assert_eq!(SHOW_NEXT_MAP, "ShowNextMap");
    assert_eq!(END_MATCH, "AdminEndMatch");
}

#[test]
fn single_argument_commands() {
    assert_eq!(change_map_command("Narva RAAS v1"), "AdminChangeMap Narva RAAS v1");
    assert_eq!(set_next_map_command("Kohat"), "AdminSetNextMap Kohat");
    assert_eq!(force_team_change_command("7656119"), "AdminForceTeamChange 7656119");
    assert_eq!(demote_commander_command("Bob"), "AdminDemoteCommander Bob");
    assert_eq!(broadcast_command("hello all"), "AdminBroadcast hello all");
    assert_eq!(chat_to_admin_command("psst"), "ChatToAdmin psst");
}

#[test]
fn disband_squad_writes_both_ids() {
    assert_eq!(disband_squad_command(1, 12), "AdminDisbandSquad 1 12");
    assert_eq!(disband_squad_command(0, 0), "AdminDisbandSquad 0 0");
}

#[test]
fn names_and_lengths_are_quoted() {
    assert_eq!(warn_command("Big Bob", "no spam"), "AdminWarn \"Big Bob\" no spam");
    assert_eq!(kick_command("Big Bob", "afk"), "AdminKick \"Big Bob\" afk");
    assert_eq!(ban_command("Big Bob", "1d", "cheating"), "AdminBan \"Big Bob\" \"1d\" cheating");
    assert_eq!(ban_command("76561", "0", "for good"), "AdminBan \"76561\" \"0\" for good");
}
