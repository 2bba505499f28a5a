//! The text commands of the server's admin command set. Free-text player
//! names and ban lengths are quoted so that they may hold spaces.
use vstd::prelude::*;
use vstd::string::*;

verus! {

pub const LIST_PLAYERS: &'static str = "ListPlayers";

pub const LIST_SQUADS: &'static str = "ListSquads";

pub const LIST_MAPS: &'static str = "ListMaps";

pub const SHOW_NEXT_MAP: &'static str = "ShowNextMap";

pub const END_MATCH: &'static str = "AdminEndMatch";

pub open spec fn digit_char(d: int) -> char {
    if d == 0 {
        '0'
    } else if d == 1 {
        '1'
    } else if d == 2 {
        '2'
    } else if d == 3 {
        '3'
    } else if d == 4 {
        '4'
    } else if d == 5 {
        '5'
    } else if d == 6 {
        '6'
    } else if d == 7 {
        '7'
    } else if d == 8 {
        '8'
    } else {
        '9'
    }
}

/// `n` in decimal, with no sign and no leading zero.
pub open spec fn decimal(n: nat) -> Seq<char>
    decreases n,
{
    if n < 10 {
        seq![digit_char(n as int)]
    } else {
        decimal(n / 10).push(digit_char((n % 10) as int))
    }
}

/// Relies on `ToString` for `usize`: its decimal digits, no sign, no leading
/// zero.
#[verifier::external_body]
fn usize_to_text(n: usize) -> (r: String)
    ensures
        r@ == decimal(n as nat),
{
    n.to_string()
}

fn prefixed(prefix: &str, arg: &str) -> (r: String)
    ensures
        r@ == prefix@ + arg@,
{
    let mut out = String::from_str(prefix);
    out.append(arg);
    out
}

/// `AdminChangeMap <map>`
pub fn change_map_command(map: &str) -> (r: String)
    ensures
        r@ == "AdminChangeMap "@ + map@,
{
    prefixed("AdminChangeMap ", map)
}

/// `AdminSetNextMap <map>`
pub fn set_next_map_command(map: &str) -> (r: String)
    ensures
        r@ == "AdminSetNextMap "@ + map@,
{
    prefixed("AdminSetNextMap ", map)
}

/// `AdminForceTeamChange <name>`; `name` is a player name or steam id.
pub fn force_team_change_command(name: &str) -> (r: String)
    ensures
        r@ == "AdminForceTeamChange "@ + name@,
{
    prefixed("AdminForceTeamChange ", name)
}

/// `AdminDemoteCommander <name>`; `name` is a player name or steam id.
pub fn demote_commander_command(name: &str) -> (r: String)
    ensures
        r@ == "AdminDemoteCommander "@ + name@,
{
    prefixed("AdminDemoteCommander ", name)
}

/// `AdminBroadcast <message>`
pub fn broadcast_command(message: &str) -> (r: String)
    ensures
        r@ == "AdminBroadcast "@ + message@,
{
    prefixed("AdminBroadcast ", message)
}

/// `ChatToAdmin <message>`
pub fn chat_to_admin_command(message: &str) -> (r: String)
    ensures
        r@ == "ChatToAdmin "@ + message@,
{
    prefixed("ChatToAdmin ", message)
}

/// `AdminDisbandSquad <team_id> <squad_id>`
pub fn disband_squad_command(team_id: usize, squad_id: usize) -> (r: String)
    ensures
        r@ == "AdminDisbandSquad "@ + decimal(team_id as nat) + " "@ + decimal(squad_id as nat),
{
    let mut out = String::from_str("AdminDisbandSquad ");
    let team = usize_to_text(team_id);
    let squad = usize_to_text(squad_id);
    out.append(team.as_str());
    out.append(" ");
    out.append(squad.as_str());
    out
}

/// `AdminWarn "<name>" <reason>`
pub fn warn_command(name: &str, reason: &str) -> (r: String)
    ensures
        r@ == "AdminWarn \""@ + name@ + "\" "@ + reason@,
{
    let mut out = String::from_str("AdminWarn \"");
    out.append(name);
    out.append("\" ");
    out.append(reason);
    out
}

/// `AdminKick "<name>" <reason>`
pub fn kick_command(name: &str, reason: &str) -> (r: String)
    ensures
        r@ == "AdminKick \""@ + name@ + "\" "@ + reason@,
{
    let mut out = String::from_str("AdminKick \"");
    out.append(name);
    out.append("\" ");
    out.append(reason);
    out
}

/// `AdminBan "<name>" "<length>" <reason>`; a length is `<n>d` days, `<n>m`
/// months, or `0` for good.
pub fn ban_command(name: &str, length: &str, reason: &str) -> (r: String)
    ensures
        r@ == "AdminBan \""@ + name@ + "\" \""@ + length@ + "\" "@ + reason@,
{
    let mut out = String::from_str("AdminBan \"");
    out.append(name);
    out.append("\" \"");
    out.append(length);
    out.append("\" ");
    out.append(reason);
    out
}

} // verus!
