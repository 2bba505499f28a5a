//! Client-side logic for the Source RCON protocol as spoken by Squad game
//! servers: the packet codec, the session and command-exchange state
//! machines, the admin commands, and the parsers for the server's text
//! replies. The transport stays with the caller: it sends the packets that
//! these types hand out and feeds back the packets that it reads.

mod chat;
pub mod commands;
mod error;
pub mod grammar;
mod packet;
mod player;
pub mod replies;
mod session;
mod squad;
mod team;
pub mod text;

pub use crate::chat::{Chat, ChatView};
pub use crate::error::Error;
pub use crate::packet::{
    body_bytes, decoded_view, frame_len, frame_size, is_frame_of, is_malformed, le_i32_of,
    lemma_decode_encode, PacketView, RconPacket, MAX_BODY_LEN, SERVERDATA_AUTH,
    SERVERDATA_AUTH_RESPONSE, SERVERDATA_CHAT, SERVERDATA_EXECCOMMAND, SERVERDATA_RESPONSE_VALUE,
};
pub use crate::player::{Player, PlayerView};
pub use crate::replies::{parse_map_list, parse_maps, parse_player_line, parse_players, parse_squads};
pub use crate::session::{
    bodies_with_id, exchange_feed, exchange_step, id_after, lemma_id_wraparound, lemma_reassembly,
    packets_without, AuthPhase, CommandExchange, ExchangeView, RconClient, CHECKPOINT_COMMAND,
    FIRST_ID, LAST_ID,
};
pub use crate::squad::{Squad, SquadView};
pub use crate::team::{Team, TeamView};
