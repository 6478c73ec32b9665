//! Decisions of the per-connection session handler: the role a live
//! connection plays with, which bus frames the outbound relay forwards to
//! the client, and what the inbound loop does with one frame.
//!
//! The handler's two loops run concurrently outside the library; each loop
//! step hands its frame to one of these functions and performs the action
//! it returns.
use vstd::prelude::*;

use crate::game::Game;
use crate::game::SessionId;
use crate::message::lower_of;
use crate::message::spec_read;
use crate::message::GameMessage;
use crate::message::SpecMessage;
use crate::message::SpecParsed;

verus! {

/// The mark a live connection plays with: the slot whose recorded key the
/// session holds, and 0 (an observer) otherwise. The socket path itself
/// never claims a slot; role claiming happens on the page that opens the
/// match.
pub open spec fn spec_connection_player_num(g: Game, session_id: SessionId) -> u8 {
    if g.player1_key == Some(session_id) {
        1u8
    } else if g.player2_key == Some(session_id) {
        2u8
    } else {
        0u8
    }
}

/// The player number of one live connection, from the aggregate as it was
/// read when the connection opened.
pub fn connection_player_num(game: &Game, session_id: SessionId) -> (r: u8)
    ensures
        r == spec_connection_player_num(*game, session_id),
{
    let mut player_num: u8 = 0;
    match &game.player1_key {
        Some(key1) => {
            if *key1 == session_id {
                player_num = 1;
            }
        },
        None => {},
    }
    if player_num == 0 {
        match &game.player2_key {
            Some(key2) => {
                if *key2 == session_id {
                    player_num = 2;
                }
            },
            None => {},
        }
    }
    player_num
}

/// What the inbound loop does with one frame from the client.
#[derive(Clone, Copy, Debug, PartialEq, Eq, Structural)]
pub enum InboundAction {
    /// Not a selection: drop the frame, keep listening.
    Ignore,
    /// A selection from a session holding no player slot: end the loop.
    EndLoop,
    /// A player's selection: run the move pipeline, and when the match is
    /// against the machine, follow with the machine's counter-move.
    Play { row: usize, col: usize, with_ai_reply: bool },
}

/// The inbound loop's decision on one parsed frame: a selection from a
/// player becomes a move, a selection from an observer ends the loop, and
/// every other frame is ignored.
pub fn inbound_action(msg: &GameMessage, player_num: u8, is_against_ai: bool) -> (r: InboundAction)
    ensures
        r == (match msg@ {
            SpecMessage::Selection { row, col } => {
                if player_num == 0 {
                    InboundAction::EndLoop
                } else {
                    InboundAction::Play {
                        row: row as usize,
                        col: col as usize,
                        with_ai_reply: is_against_ai,
                    }
                }
            },
            _ => InboundAction::Ignore,
        }),
{
    match msg {
        GameMessage::Selection { row, col } => {
            if player_num == 0 {
                InboundAction::EndLoop
            } else {
                InboundAction::Play {
                    row: *row as usize,
                    col: *col as usize,
                    with_ai_reply: is_against_ai,
                }
            }
        },
        _ => InboundAction::Ignore,
    }
}

/// The outbound relay's filter: a bus payload that reads as a `Board` or
/// `End` frame is forwarded to the client as its lowered text; every other
/// payload is silently dropped.
pub fn outbound_forward(bus_text: String) -> (r: Option<String>)
    ensures
        (match spec_read(lower_of(bus_text@)) {
            SpecParsed::Msg(SpecMessage::Board { state }) => r matches Some(out) && out@ == state,
            SpecParsed::Msg(SpecMessage::End { ending }) => r matches Some(out) && out@ == ending,
            _ => r is None,
        }),
{
    match GameMessage::read(bus_text) {
        Ok(GameMessage::Board { state_str }) => Some(state_str),
        Ok(GameMessage::End { ending_str }) => Some(ending_str),
        _ => None,
    }
}

} // verus!
