//! The process-wide registry of per-game buses: one multicast channel per
//! match, created lazily on first access. A bus fans every published frame
//! out to all current subscribers; a subscriber that falls behind its
//! bounded queue loses the oldest undelivered frames rather than stalling
//! the publisher.
//!
//! The registry itself is a plain map owned by the caller; the server
//! shares one instance behind its own lock and hands it to every
//! connection handler.
use vstd::prelude::*;

use std::collections::HashMap;
use tokio::sync::broadcast::Sender;

verus! {

broadcast use vstd::std_specs::hash::group_hash_axioms;

/// How many pending frames a subscriber's queue holds before the oldest
/// are dropped.
pub const CHANNEL_CAPACITY: usize = 100;

/// Declares tokio's broadcast sender, so bus handles can be held and passed
/// through verified code; a handle's value is opaque here.
#[verifier::external_type_specification]
#[verifier::external_body]
#[verifier::reject_recursive_types(T)]
pub struct ExSender<T>(Sender<T>);

/// Relies on tokio::sync::broadcast::channel: a fresh bus whose subscribers
/// each buffer up to `capacity` pending frames. The call panics on a
/// capacity of zero or above `usize::MAX / 2`, so those are excluded here.
/// The receiving half is dropped: subscribers join through
/// `Sender::subscribe`.
#[verifier::external_body]
fn new_bus(capacity: usize) -> (tx: Sender<String>)
    requires
        1 <= capacity <= usize::MAX / 2,
{
    let (tx, _rx) = tokio::sync::broadcast::channel(capacity);
    tx
}

/// Relies on `<Sender as Clone>::clone`: another handle to the same bus.
#[verifier::external_body]
fn clone_bus(tx: &Sender<String>) -> (r: Sender<String>) {
    tx.clone()
}

/// Relies on Sender::send: queues the frame for every current subscriber
/// and returns whether there was any; a bus with no subscriber returns the
/// frame as an error, reported here as `false`. The send never blocks.
#[verifier::external_body]
pub(crate) fn send_text(tx: &Sender<String>, msg: String) -> (r: bool) {
    tx.send(msg).is_ok()
}

/// The map from game identifier (the UUID's 128-bit value) to the game's
/// bus.
pub struct GameChannels {
    channels: HashMap<u128, Sender<String>>,
}

impl GameChannels {
    /// The set of game identifiers that have a bus.
    pub closed spec fn channel_ids(self) -> Set<u128> {
        self.channels@.dom()
    }

    /// An empty registry.
    pub fn new() -> (r: GameChannels)
        ensures
            r.channel_ids() == Set::<u128>::empty(),
    {
        let r = GameChannels { channels: HashMap::new() };
        proof {
            assert(r.channel_ids() =~= Set::<u128>::empty());
        }
        r
    }

    /// Installs a fresh bus for the game, returning the bus previously
    /// registered under the same identifier, if there was one.
    pub fn insert_channel(&mut self, game_id: u128) -> (r: Option<Sender<String>>)
        ensures
            final(self).channel_ids() == old(self).channel_ids().insert(game_id),
            r is Some <==> old(self).channel_ids().contains(game_id),
    {
        let tx = new_bus(CHANNEL_CAPACITY);
        let prev = self.channels.insert(game_id, tx);
        proof {
            assert(self.channel_ids() =~= old(self).channel_ids().insert(game_id));
        }
        prev
    }

    /// The bus registered for the game, if any: a fresh handle to it.
    pub fn query_channel(&self, game_id: &u128) -> (r: Option<Sender<String>>)
        ensures
            r is Some <==> self.channel_ids().contains(*game_id),
    {
        match self.channels.get(game_id) {
            Some(tx) => Some(clone_bus(tx)),
            None => None,
        }
    }

    /// The bus for the game, created now if the game had none yet.
    pub fn ensure_channel(&mut self, game_id: u128) -> (r: Sender<String>)
        ensures
            final(self).channel_ids() == old(self).channel_ids().insert(game_id),
            old(self).channel_ids().contains(game_id) ==> *final(self) == *old(self),
    {
        match self.query_channel(&game_id) {
            Some(tx) => {
                proof {
                    assert(self.channel_ids() =~= self.channel_ids().insert(game_id));
                }
                tx
            },
            None => {
                self.insert_channel(game_id);
                match self.query_channel(&game_id) {
                    Some(tx) => tx,
                    None => vstd::pervasive::unreached(),
                }
            },
        }
    }
}

} // verus!
