//! The matchmaking queue: strictly FIFO pairing of waiting players.
//!
//! Pairing ignores rating: the rating distance is informational only.

use vstd::prelude::*;
use crate::game::GamePlayer;
use crate::game::GamePhase;
use crate::game::LiarsDiceGame;
use crate::player::QueuedPlayer;

verus! {

/// Does the queue hold an entry with this identity?
pub open spec fn queue_contains_id(s: Seq<QueuedPlayer>, chain_id: u64) -> bool {
    exists|i: int| 0 <= i < s.len() && (#[trigger] s[i]).chain_id == chain_id
}

/// The queue with every entry of the given identity removed, relative
/// order of the rest preserved.
pub open spec fn without_id(s: Seq<QueuedPlayer>, chain_id: u64) -> Seq<QueuedPlayer>
    decreases s.len(),
{
    if s.len() == 0 {
        Seq::empty()
    } else if s.last().chain_id == chain_id {
        without_id(s.drop_last(), chain_id)
    } else {
        without_id(s.drop_last(), chain_id).push(s.last())
    }
}

/// Removing an identity never lengthens the queue.
pub proof fn lemma_without_id_len(s: Seq<QueuedPlayer>, chain_id: u64)
    ensures
        without_id(s, chain_id).len() <= s.len(),
    decreases s.len(),
{
    if s.len() > 0 {
        lemma_without_id_len(s.drop_last(), chain_id);
    }
}

/// A first-in-first-out matchmaking queue for one lobby.
#[derive(Clone, Debug)]
pub struct MatchQueue {
    /// Waiting players, oldest first.
    pub entries: Vec<QueuedPlayer>,
}

impl MatchQueue {
    /// The queue count is reported as a 32-bit number.
    pub open spec fn wf(self) -> bool {
        self.entries@.len() <= u32::MAX
    }

    pub fn new() -> (r: Self)
        ensures
            r.entries@.len() == 0,
            r.wf(),
    {
        MatchQueue { entries: Vec::new() }
    }

    /// How many players are waiting.
    pub fn count(&self) -> (r: u32)
        requires
            self.wf(),
        ensures
            r == self.entries@.len(),
    {
        self.entries.len() as u32
    }

    /// Append a player at the back and report the new queue size.
    pub fn enqueue(&mut self, player: QueuedPlayer) -> (r: u32)
        requires
            old(self).entries@.len() < u32::MAX,
        ensures
            final(self).entries@ == old(self).entries@.push(player),
            r == final(self).entries@.len(),
            final(self).wf(),
    {
        self.entries.push(player);
        self.entries.len() as u32
    }

    /// Pop the two oldest players.  With fewer than two waiting, nothing
    /// is taken: a lone player is never left out of the queue.
    pub fn dequeue_pair(&mut self) -> (r: Option<(QueuedPlayer, QueuedPlayer)>)
        requires
            old(self).wf(),
        ensures
            final(self).wf(),
            old(self).entries@.len() < 2 ==> r is None && *final(self) == *old(self),
            old(self).entries@.len() >= 2 ==> {
                &&& r matches Some(pair) && pair.0 == old(self).entries@[0] && pair.1 == old(
                    self,
                ).entries@[1]
                &&& final(self).entries@ == old(self).entries@.subrange(
                    2,
                    old(self).entries@.len() as int,
                )
            },
    {
        if self.entries.len() < 2 {
            return None;
        }
        let first = self.entries.remove(0);
        let second = self.entries.remove(0);
        proof {
            assert(self.entries@ =~= old(self).entries@.subrange(
                2,
                old(self).entries@.len() as int,
            ));
        }
        Some((first, second))
    }

    /// Remove a specific identity from anywhere in the queue, preserving
    /// the relative order of the remainder.  Returns whether anything was
    /// removed.
    pub fn cancel(&mut self, chain_id: u64) -> (r: bool)
        requires
            old(self).wf(),
        ensures
            final(self).wf(),
            final(self).entries@ == without_id(old(self).entries@, chain_id),
            r == queue_contains_id(old(self).entries@, chain_id),
    {
        proof {
            lemma_without_id_len(self.entries@, chain_id);
        }
        let mut kept: Vec<QueuedPlayer> = Vec::new();
        let mut removed = false;
        let mut i: usize = 0;
        while i < self.entries.len()
            invariant
                0 <= i <= self.entries@.len(),
                kept@ == without_id(self.entries@.subrange(0, i as int), chain_id),
                removed == queue_contains_id(self.entries@.subrange(0, i as int), chain_id),
            decreases self.entries@.len() - i,
        {
            proof {
                let pre = self.entries@.subrange(0, i as int);
                let cur = self.entries@.subrange(0, i + 1);
                assert(cur.drop_last() =~= pre);
                assert(cur.last() == self.entries@[i as int]);
                if queue_contains_id(pre, chain_id) {
                    let w = choose|k: int|
                        0 <= k < pre.len() && (#[trigger] pre[k]).chain_id == chain_id;
                    assert(cur[w].chain_id == chain_id);
                }
            }
            let p = &self.entries[i];
            if p.chain_id == chain_id {
                removed = true;
            } else {
                let q = QueuedPlayer {
                    chain_id: p.chain_id,
                    owner: p.owner,
                    name: p.name.clone(),
                    elo: p.elo,
                    queued_at: p.queued_at,
                };
                proof {
                    assert(q == self.entries@[i as int]);
                }
                kept.push(q);
            }
            i = i + 1;
        }
        proof {
            assert(self.entries@.subrange(0, self.entries@.len() as int) =~= self.entries@);
        }
        self.entries = kept;
        removed
    }
}

/// Assemble the game for a fresh pairing: both players are seated with
/// their matchmaking ratings and the game starts into its first
/// committing round.
pub fn create_match(
    game_id: u64,
    player1: &QueuedPlayer,
    player2: &QueuedPlayer,
    timestamp: u64,
) -> (r: LiarsDiceGame)
    ensures
        r.wf(),
        r.game_id == game_id,
        r.phase == GamePhase::Committing,
        r.round == 1,
        r.started_at == Some(timestamp),
        r.players@.len() == 2,
        r.players@[0].chain_id == Some(player1.chain_id),
        r.players@[0].owner == Some(player1.owner),
        r.players@[0].elo == player1.elo,
        r.players@[0].name == player1.name,
        r.players@[1].chain_id == Some(player2.chain_id),
        r.players@[1].owner == Some(player2.owner),
        r.players@[1].elo == player2.elo,
        r.players@[1].name == player2.name,
        r.players@[0].is_turn,
        r.total_dice == 10,
{
    let mut game = LiarsDiceGame::new(game_id);
    let p1 = GamePlayer::new(player1.chain_id, player1.owner, player1.name.clone(), player1.elo);
    let p2 = GamePlayer::new(player2.chain_id, player2.owner, player2.name.clone(), player2.elo);
    game.add_player(p1);
    game.add_player(p2);
    game.start_game(timestamp);
    game
}

} // verus!
