//! The durable game aggregate and player-role resolution.
//!
//! Identifiers are carried as the 128-bit values of the external UUIDs, and
//! timestamps as the external clock's tick count; the storage layer converts
//! at the boundary.
use vstd::prelude::*;

verus! {

/// A session identity: an opaque token, stable for one browsing session.
/// Any two holders of the same value are the same player.
pub type SessionId = u128;

/// The durable state of one match. `player1_key` and `player2_key` are each
/// set at most once; `winner_key` and `ended_at` are set together, exactly
/// once, when a winning move ends the match.
#[derive(Clone, Copy, Debug, PartialEq, Eq)]
pub struct Game {
    pub uuid: u128,
    pub created_at: i64,
    pub is_against_ai: bool,
    pub player1_key: Option<SessionId>,
    pub player2_key: Option<SessionId>,
    pub winner_key: Option<SessionId>,
    pub ended_at: Option<i64>,
}

/// What a requesting session is to a match: one of the two players, or a
/// spectator.
#[derive(Clone, Copy, Debug, PartialEq, Eq, Structural)]
pub enum Role {
    Player1,
    Player2,
    Observer,
}

impl Role {
    /// The mark a role plays with: 1 or 2 for the players, 0 for an
    /// observer, who plays no mark.
    pub fn as_mark(&self) -> (r: u8)
        ensures
            r == (match *self {
                Role::Player1 => 1u8,
                Role::Player2 => 2u8,
                Role::Observer => 0u8,
            }),
    {
        match self {
            Role::Player1 => 1,
            Role::Player2 => 2,
            Role::Observer => 0,
        }
    }
}

impl Game {
    /// The terminal-state invariant: a game has ended exactly when a winner
    /// is recorded.
    pub open spec fn wf(self) -> bool {
        self.ended_at is Some <==> self.winner_key is Some
    }

    /// A fresh aggregate: the creator holds slot 1, slot 2 is open, no
    /// winner, not ended.
    pub fn create(uuid: u128, created_at: i64, creator_key: SessionId, is_against_ai: bool) -> (g:
        Game)
        ensures
            g == (Game {
                uuid,
                created_at,
                is_against_ai,
                player1_key: Some(creator_key),
                player2_key: None,
                winner_key: None,
                ended_at: None,
            }),
            g.wf(),
    {
        Game {
            uuid,
            created_at,
            is_against_ai,
            player1_key: Some(creator_key),
            player2_key: None,
            winner_key: None,
            ended_at: None,
        }
    }

    /// The aggregate after its terminal transition: winner and end time
    /// recorded, everything else kept.
    pub open spec fn spec_mark_ended(self, winner: SessionId, now: i64) -> Game {
        Game { winner_key: Some(winner), ended_at: Some(now), ..self }
    }

    /// Records the winning session and the end time. The one mutation a
    /// game sees after creation besides slot claims.
    pub fn mark_ended(&self, winner: SessionId, now: i64) -> (g: Game)
        ensures
            g == self.spec_mark_ended(winner, now),
            g.wf(),
    {
        Game { winner_key: Some(winner), ended_at: Some(now), ..*self }
    }

    /// The aggregate with `session_id` written into the given player slot.
    pub open spec fn spec_claim_slot(self, slot: u8, session_id: SessionId) -> Game {
        if slot == 1 {
            Game { player1_key: Some(session_id), ..self }
        } else {
            Game { player2_key: Some(session_id), ..self }
        }
    }

    /// Writes `session_id` into player slot 1 or 2 of the aggregate.
    pub fn claim_slot(&self, slot: u8, session_id: SessionId) -> (g: Game)
        requires
            slot == 1 || slot == 2,
        ensures
            g == self.spec_claim_slot(slot, session_id),
            self.wf() ==> g.wf(),
    {
        if slot == 1 {
            Game { player1_key: Some(session_id), ..*self }
        } else {
            Game { player2_key: Some(session_id), ..*self }
        }
    }
}

/// The role `session_id` resolves to on `g`, with the aggregate as it
/// stands afterwards: a returning player keeps their slot; otherwise slot 1,
/// then slot 2, is lazily claimed — except that in a match against the
/// machine slot 2 is never claimed by a human — and anyone else observes.
pub open spec fn spec_resolve_role(g: Game, session_id: SessionId) -> (Role, Game) {
    if g.player1_key == Some(session_id) {
        (Role::Player1, g)
    } else if g.player2_key == Some(session_id) {
        (Role::Player2, g)
    } else if g.player1_key is None {
        (Role::Player1, g.spec_claim_slot(1, session_id))
    } else if g.player2_key is None {
        if g.is_against_ai {
            (Role::Observer, g)
        } else {
            (Role::Player2, g.spec_claim_slot(2, session_id))
        }
    } else {
        (Role::Observer, g)
    }
}

/// Resolves the requester's role on the aggregate, lazily claiming an open
/// player slot when one is owed. Returns the role and the aggregate as it
/// must now be persisted; the aggregate is returned unchanged when no slot
/// was claimed.
pub fn resolve_role(game: &Game, session_id: SessionId) -> (r: (Role, Game))
    ensures
        r == spec_resolve_role(*game, session_id),
        game.wf() ==> r.1.wf(),
{
    if matches_key(&game.player1_key, session_id) {
        (Role::Player1, *game)
    } else if matches_key(&game.player2_key, session_id) {
        (Role::Player2, *game)
    } else if game.player1_key.is_none() {
        (Role::Player1, game.claim_slot(1, session_id))
    } else if game.player2_key.is_none() {
        if game.is_against_ai {
            (Role::Observer, *game)
        } else {
            (Role::Player2, game.claim_slot(2, session_id))
        }
    } else {
        (Role::Observer, *game)
    }
}

/// Whether the slot holds exactly this session id.
fn matches_key(key: &Option<SessionId>, session_id: SessionId) -> (r: bool)
    ensures
        r == (*key == Some(session_id)),
{
    match key {
        Some(k) => *k == session_id,
        None => false,
    }
}

/// Role resolution is idempotent: resolving again with the same session id
/// on the aggregate the first resolution produced yields the same role and
/// leaves the aggregate as it was — no further slot is claimed.
pub proof fn lemma_resolve_role_idempotent(g: Game, session_id: SessionId)
    ensures
        ({
            let (role1, g1) = spec_resolve_role(g, session_id);
            let (role2, g2) = spec_resolve_role(g1, session_id);
            role2 == role1 && g2 == g1
        }),
{
}

/// The mark of the other player: the machine answers a human move with the
/// opposite mark.
pub fn opponent(mark: u8) -> (r: u8)
    requires
        mark == 1 || mark == 2,
    ensures
        r == (if mark == 1 {
            2u8
        } else {
            1u8
        }),
{
    if mark == 1 {
        2
    } else {
        1
    }
}

/// The match-creation request: whether the new match is to be played
/// against the machine opponent.
#[derive(Clone, Copy, Debug, PartialEq, Eq)]
pub struct GameCreationPayload {
    pub is_against_ai: Option<bool>,
}

impl GameCreationPayload {
    /// Machine mode is requested only when the flag is present and true.
    pub fn against_ai(&self) -> (r: bool)
        ensures
            r == (self.is_against_ai == Some(true)),
    {
        match self.is_against_ai {
            Some(b) => b,
            None => false,
        }
    }
}

} // verus!
