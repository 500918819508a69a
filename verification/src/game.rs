//! The game-session state machine: bids, phases, reveals, timeouts and
//! round resolution for a liar's-dice game.
//!
//! Players are addressed by a numeric chain identity; the session owns
//! the roster and is mutated exclusively through the operations here.
//! Invalid operations are rejected atomically, leaving the session
//! unchanged.

use vstd::prelude::*;
use crate::crypto::commitment_matches;
use crate::crypto::verify_commitment;
use crate::dice::DiceCommitment;
use crate::dice::DiceReveal;
use crate::dice::DiceValue;
use crate::dice::PlayerDice;
use crate::dice::STARTING_DICE;
use crate::dice::count_matching;
use crate::player::calculate_elo_change;
use crate::player::elo_change_spec;

verus! {

pub type GameId = u64;

/// Most players a session can seat.
pub const MAX_PLAYERS: usize = 6;

/// Fewest players a game can start with.
pub const MIN_PLAYERS: usize = 2;

/// How long players have to reveal after a liar call, in microseconds.
pub const REVEAL_TIMEOUT_MICROS: u64 = 60_000_000;

/// A bid: "I bet there are at least `quantity` dice showing `face`."
#[derive(Clone, Copy, Debug)]
pub struct Bid {
    /// How many dice of the given face.
    pub quantity: u8,
    /// The face value being bid.
    pub face: DiceValue,
    /// Who made this bid.
    pub bidder: Option<u64>,
    /// When the bid was made.
    pub timestamp: Option<u64>,
}

/// Strict bid ordering: higher quantity wins; at equal quantity a higher
/// face wins.  Equal bids are never a valid raise.
pub open spec fn bid_gt(a: Bid, b: Bid) -> bool {
    a.quantity > b.quantity || (a.quantity == b.quantity && a.face.0 > b.face.0)
}

impl Bid {
    pub open spec fn spec_valid_initial(self) -> bool {
        self.quantity >= 1 && self.face.is_valid()
    }

    pub fn new(quantity: u8, face: DiceValue, bidder: u64, timestamp: u64) -> (r: Self)
        ensures
            r.quantity == quantity,
            r.face == face,
            r.bidder == Some(bidder),
            r.timestamp == Some(timestamp),
    {
        Bid { quantity, face, bidder: Some(bidder), timestamp: Some(timestamp) }
    }

    /// Check if this bid is a valid raise over another.
    pub fn is_higher_than(&self, other: &Bid) -> (r: bool)
        ensures
            r == bid_gt(*self, *other),
    {
        if self.quantity > other.quantity {
            return true;
        }
        if self.quantity == other.quantity && self.face.value() > other.face.value() {
            return true;
        }
        false
    }

    /// Check if this is a valid first bid of a round.
    pub fn is_valid_initial(&self) -> (r: bool)
        ensures
            r == self.spec_valid_initial(),
    {
        self.quantity >= 1 && self.face.value() >= 1 && self.face.value() <= 6
    }
}

/// Strictness of the bid order is transitive.
pub proof fn lemma_bid_gt_transitive(a: Bid, b: Bid, c: Bid)
    requires
        bid_gt(a, b),
        bid_gt(b, c),
    ensures
        bid_gt(a, c),
{
}

/// The current phase of the game.
#[derive(Clone, Copy, Debug, PartialEq, Eq, Structural)]
pub enum GamePhase {
    /// Waiting for players to join.
    WaitingForPlayers,
    /// Waiting for all players to commit their dice.
    Committing,
    /// Active bidding phase.
    Bidding,
    /// Someone called liar, waiting for reveals.
    Revealing,
    /// Round ended, determining the loser.  Resolution advances straight
    /// to the next round's committing phase, so a session never rests in
    /// this state.
    RoundEnd,
    /// Game is over (terminal: every further operation is rejected).
    GameOver,
}

/// The result of a game for a player.
#[derive(Clone, Copy, Debug, PartialEq, Eq, Structural)]
pub enum GameResult {
    Pending,
    Won,
    Lost,
    /// Player was caught cheating (invalid reveal).
    Cheater,
    /// Player timed out during reveal.
    TimedOut,
}

/// Information about a player in a game.
#[derive(Clone, Debug)]
#[verifier::ext_equal]
pub struct GamePlayer {
    pub chain_id: Option<u64>,
    pub owner: Option<u64>,
    pub name: String,
    /// Player's ELO rating (preserved from matchmaking).
    pub elo: u32,
    /// Commitment hash (public during the game).
    pub commitment: Option<DiceCommitment>,
    /// Revealed dice (only set after the reveal phase).
    pub revealed_dice: Option<PlayerDice>,
    /// How many dice this player has left (public information).
    pub dice_count: u8,
    pub eliminated: bool,
    pub is_turn: bool,
    pub result: GameResult,
}

impl GamePlayer {
    /// Per-player well-formedness: an identity is always present, dice
    /// counts stay within a hand, elimination coincides with an empty
    /// hand, and a caught cheater is both revealed and eliminated.
    pub open spec fn wf(self) -> bool {
        &&& self.chain_id is Some
        &&& self.dice_count <= STARTING_DICE
        &&& (self.dice_count == 0 <==> self.eliminated)
        &&& (self.commitment matches Some(c) ==> c.wf())
        &&& (self.commitment matches Some(c) && c.cheater ==> self.eliminated)
        &&& (self.revealed_dice matches Some(h) ==> h.wf() && h.count <= STARTING_DICE)
    }

    /// A player who has joined but not yet played.
    pub open spec fn fresh(self) -> bool {
        &&& self.wf()
        &&& !self.eliminated
        &&& !self.is_turn
        &&& self.dice_count == STARTING_DICE
        &&& self.commitment is None
        &&& self.revealed_dice is None
        &&& self.result == GameResult::Pending
    }

    pub fn new(chain_id: u64, owner: u64, name: String, elo: u32) -> (r: Self)
        ensures
            r.fresh(),
            r.chain_id == Some(chain_id),
            r.owner == Some(owner),
            r.name == name,
            r.elo == elo,
    {
        GamePlayer {
            chain_id: Some(chain_id),
            owner: Some(owner),
            name,
            elo,
            commitment: None,
            revealed_dice: None,
            dice_count: STARTING_DICE,
            eliminated: false,
            is_turn: false,
            result: GameResult::Pending,
        }
    }

    pub fn set_commitment(&mut self, commitment: DiceCommitment)
        ensures
            *final(self) == (GamePlayer { commitment: Some(commitment), ..*old(self) }),
    {
        self.commitment = Some(commitment);
    }

    /// Store a revealed hand: the public dice count is taken from the
    /// hand and the commitment is marked revealed.
    pub fn set_revealed(&mut self, dice: PlayerDice)
        ensures
            final(self).revealed_dice == Some(dice),
            final(self).dice_count == dice.count,
            old(self).commitment matches Some(c) ==> final(self).commitment == Some(
                DiceCommitment { revealed: true, ..c },
            ),
            old(self).commitment is None ==> final(self).commitment is None,
            *final(self) == (GamePlayer {
                revealed_dice: Some(dice),
                dice_count: dice.count,
                commitment: final(self).commitment,
                ..*old(self)
            }),
    {
        self.dice_count = dice.count;
        self.revealed_dice = Some(dice);
        if let Some(ref mut c) = self.commitment {
            c.mark_revealed();
        }
    }

    /// One-die penalty; reaching zero dice eliminates the player.
    pub fn lose_die(&mut self)
        ensures
            *final(self) == lose_die_player(*old(self)),
    {
        if self.dice_count > 0 {
            self.dice_count = self.dice_count - 1;
        }
        if self.dice_count == 0 {
            self.eliminated = true;
            self.result = GameResult::Lost;
        }
    }
}

/// The state of a player after a one-die penalty.
pub open spec fn lose_die_player(p: GamePlayer) -> GamePlayer {
    let d = if p.dice_count > 0 {
        (p.dice_count - 1) as u8
    } else {
        0u8
    };
    if d == 0 {
        GamePlayer { dice_count: d, eliminated: true, result: GameResult::Lost, ..p }
    } else {
        GamePlayer { dice_count: d, ..p }
    }
}

/// Number of players not yet eliminated.
pub open spec fn active_count(players: Seq<GamePlayer>) -> nat
    decreases players.len(),
{
    if players.len() == 0 {
        0
    } else {
        active_count(players.drop_last()) + if players.last().eliminated {
            0nat
        } else {
            1nat
        }
    }
}

/// Total dice held across the whole roster.
pub open spec fn sum_dice(players: Seq<GamePlayer>) -> int
    decreases players.len(),
{
    if players.len() == 0 {
        0
    } else {
        sum_dice(players.drop_last()) + players.last().dice_count
    }
}

pub proof fn lemma_active_count_le_len(players: Seq<GamePlayer>)
    ensures
        active_count(players) <= players.len(),
    decreases players.len(),
{
    if players.len() > 0 {
        lemma_active_count_le_len(players.drop_last());
    }
}

/// The roster's total dice stay within a full hand per seat.
pub proof fn lemma_sum_dice_bound(players: Seq<GamePlayer>)
    requires
        forall|i: int| 0 <= i < players.len() ==> (#[trigger] players[i]).dice_count
            <= STARTING_DICE,
    ensures
        0 <= sum_dice(players) <= players.len() * STARTING_DICE,
    decreases players.len(),
{
    if players.len() > 0 {
        lemma_sum_dice_bound(players.drop_last());
        assert((players.len() - 1) * STARTING_DICE + STARTING_DICE == players.len()
            * STARTING_DICE) by (nonlinear_arith);
    }
}

/// Replacing one seat changes the active count exactly by the change at
/// that seat.
pub proof fn lemma_active_count_update(players: Seq<GamePlayer>, i: int, p: GamePlayer)
    requires
        0 <= i < players.len(),
    ensures
        active_count(players.update(i, p)) == active_count(players) + (if p.eliminated {
            0int
        } else {
            1int
        }) - (if players[i].eliminated {
            0int
        } else {
            1int
        }),
    decreases players.len(),
{
    let upd = players.update(i, p);
    if players.len() > 0 {
        if i == players.len() - 1 {
            assert(upd.drop_last() =~= players.drop_last());
            assert(upd.last() == p);
        } else {
            assert(upd.drop_last() =~= players.drop_last().update(i, p));
            assert(upd.last() == players.last());
            lemma_active_count_update(players.drop_last(), i, p);
        }
    }
}

/// Replacing one seat changes the dice total exactly by the change at
/// that seat.
pub proof fn lemma_sum_dice_update(players: Seq<GamePlayer>, i: int, p: GamePlayer)
    requires
        0 <= i < players.len(),
    ensures
        sum_dice(players.update(i, p)) == sum_dice(players) + p.dice_count - players[
            i
        ].dice_count,
    decreases players.len(),
{
    let upd = players.update(i, p);
    if players.len() > 0 {
        if i == players.len() - 1 {
            assert(upd.drop_last() =~= players.drop_last());
            assert(upd.last() == p);
        } else {
            assert(upd.drop_last() =~= players.drop_last().update(i, p));
            assert(upd.last() == players.last());
            lemma_sum_dice_update(players.drop_last(), i, p);
        }
    }
}

/// A positive active count means some seat is active, and conversely.
pub proof fn lemma_active_count_witness(players: Seq<GamePlayer>)
    ensures
        active_count(players) > 0 <==> exists|i: int|
            0 <= i < players.len() && !(#[trigger] players[i]).eliminated,
    decreases players.len(),
{
    if players.len() > 0 {
        lemma_active_count_witness(players.drop_last());
        if active_count(players) > 0 {
            if !players.last().eliminated {
                assert(!players[players.len() - 1].eliminated);
            } else {
                let i = choose|i: int|
                    0 <= i < players.len() - 1 && !(#[trigger] players.drop_last()[i]).eliminated;
                assert(!players[i].eliminated);
            }
        }
        if exists|i: int| 0 <= i < players.len() && !(#[trigger] players[i]).eliminated {
            let i = choose|i: int| 0 <= i < players.len() && !(#[trigger] players[i]).eliminated;
            if i == players.len() - 1 {
            } else {
                assert(!players.drop_last()[i].eliminated);
            }
        }
    }
}

/// `i` is the first seat holding the identity `chain`.
pub open spec fn is_first_player_index(players: Seq<GamePlayer>, chain: u64, i: int) -> bool {
    &&& 0 <= i < players.len()
    &&& players[i].chain_id == Some(chain)
    &&& forall|j: int| 0 <= j < i ==> (#[trigger] players[j]).chain_id != Some(chain)
}

/// Some seat holds the identity `chain`.
pub open spec fn has_player(players: Seq<GamePlayer>, chain: u64) -> bool {
    exists|i: int| 0 <= i < players.len() && (#[trigger] players[i]).chain_id == Some(chain)
}

/// The first seat holding `chain`, meaningful when `has_player`.
pub open spec fn player_index_spec(players: Seq<GamePlayer>, chain: u64) -> int {
    choose|i: int| is_first_player_index(players, chain, i)
}

proof fn lemma_first_from_witness(players: Seq<GamePlayer>, chain: u64, w: int)
    requires
        0 <= w < players.len(),
        players[w].chain_id == Some(chain),
    ensures
        exists|i: int| is_first_player_index(players, chain, i),
    decreases w,
{
    if forall|j: int| 0 <= j < w ==> (#[trigger] players[j]).chain_id != Some(chain) {
        assert(is_first_player_index(players, chain, w));
    } else {
        let j = choose|j: int| 0 <= j < w && (#[trigger] players[j]).chain_id == Some(chain);
        lemma_first_from_witness(players, chain, j);
    }
}

/// When the roster holds the identity, `player_index_spec` is its first
/// seat.
pub proof fn lemma_player_index(players: Seq<GamePlayer>, chain: u64)
    requires
        has_player(players, chain),
    ensures
        is_first_player_index(players, chain, player_index_spec(players, chain)),
{
    let w = choose|i: int|
        0 <= i < players.len() && (#[trigger] players[i]).chain_id == Some(chain);
    lemma_first_from_witness(players, chain, w);
}

/// Seat identities decide membership: a roster that keeps every seat's
/// identity keeps every player.
pub proof fn lemma_has_player_preserved(s1: Seq<GamePlayer>, s2: Seq<GamePlayer>, chain: u64)
    requires
        s1.len() == s2.len(),
        forall|i: int| 0 <= i < s1.len() ==> (#[trigger] s1[i]).chain_id == s2[i].chain_id,
        has_player(s1, chain),
    ensures
        has_player(s2, chain),
{
    let i = choose|i: int| 0 <= i < s1.len() && (#[trigger] s1[i]).chain_id == Some(chain);
    assert(s2[i].chain_id == Some(chain));
}

/// The seated-actor clauses of the invariant survive any mutation that
/// keeps every seat's identity.
pub proof fn lemma_actors_still_seated(
    s1: Seq<GamePlayer>,
    s2: Seq<GamePlayer>,
    current_bid: Option<Bid>,
    liar_caller: Option<u64>,
)
    requires
        s1.len() == s2.len(),
        forall|i: int| 0 <= i < s1.len() ==> (#[trigger] s1[i]).chain_id == s2[i].chain_id,
        current_bid matches Some(b) ==> b.bidder matches Some(c) && has_player(s1, c),
        liar_caller matches Some(c) ==> has_player(s1, c),
    ensures
        current_bid matches Some(b) ==> b.bidder matches Some(c) && has_player(s2, c),
        liar_caller matches Some(c) ==> has_player(s2, c),
{
    match current_bid {
        Some(b) => match b.bidder {
            Some(c) => lemma_has_player_preserved(s1, s2, c),
            None => {},
        },
        None => {},
    }
    match liar_caller {
        Some(c) => lemma_has_player_preserved(s1, s2, c),
        None => {},
    }
}

/// `i` is the first active seat.
pub open spec fn is_first_active_index(players: Seq<GamePlayer>, i: int) -> bool {
    &&& 0 <= i < players.len()
    &&& !players[i].eliminated
    &&& forall|j: int| 0 <= j < i ==> (#[trigger] players[j]).eliminated
}

/// The first active seat, meaningful when some seat is active.
pub open spec fn first_active_index(players: Seq<GamePlayer>) -> int {
    choose|i: int| is_first_active_index(players, i)
}

proof fn lemma_first_active_from_witness(players: Seq<GamePlayer>, w: int)
    requires
        0 <= w < players.len(),
        !players[w].eliminated,
    ensures
        exists|i: int| is_first_active_index(players, i),
    decreases w,
{
    if forall|j: int| 0 <= j < w ==> (#[trigger] players[j]).eliminated {
        assert(is_first_active_index(players, w));
    } else {
        let j = choose|j: int| 0 <= j < w && !(#[trigger] players[j]).eliminated;
        lemma_first_active_from_witness(players, j);
    }
}

/// With at least one active seat, `first_active_index` is the first one.
pub proof fn lemma_first_active(players: Seq<GamePlayer>)
    requires
        active_count(players) > 0,
    ensures
        is_first_active_index(players, first_active_index(players)),
{
    lemma_active_count_witness(players);
    let w = choose|i: int| 0 <= i < players.len() && !(#[trigger] players[i]).eliminated;
    lemma_first_active_from_witness(players, w);
}

/// Every active player has submitted a commitment.
pub open spec fn all_committed_spec(players: Seq<GamePlayer>) -> bool {
    forall|i: int|
        0 <= i < players.len() && !(#[trigger] players[i]).eliminated ==> players[i].commitment
            is Some
}

/// A commitment that has been genuinely revealed (not by force-marking a
/// cheater).
pub open spec fn genuinely_revealed(p: GamePlayer) -> bool {
    p.commitment matches Some(c) && c.revealed && !c.cheater
}

/// Every active player has genuinely revealed.
pub open spec fn all_revealed_spec(players: Seq<GamePlayer>) -> bool {
    forall|i: int|
        0 <= i < players.len() && !(#[trigger] players[i]).eliminated ==> genuinely_revealed(
            players[i],
        )
}

/// Dice an active, revealed player contributes toward a face.
pub open spec fn player_face_count(p: GamePlayer, face: DiceValue, wilds_count: bool) -> nat {
    if !p.eliminated && p.revealed_dice is Some {
        count_matching(p.revealed_dice->0.dice@, face, wilds_count)
    } else {
        0
    }
}

/// Total matching dice across all active revealed hands.
pub open spec fn count_total_spec(players: Seq<GamePlayer>, face: DiceValue, wilds_count: bool) -> nat
    decreases players.len(),
{
    if players.len() == 0 {
        0
    } else {
        count_total_spec(players.drop_last(), face, wilds_count) + player_face_count(
            players.last(),
            face,
            wilds_count,
        )
    }
}

/// The complete state of a liar's-dice game session.
#[derive(Clone, Debug)]
#[verifier::ext_equal]
pub struct LiarsDiceGame {
    pub game_id: GameId,
    /// The roster, in fixed seat order.
    pub players: Vec<GamePlayer>,
    pub phase: GamePhase,
    /// Current round number (1-indexed; 0 before the game starts).
    pub round: u32,
    /// Seat index of the player whose turn it is.
    pub current_turn: u8,
    /// History of bids in the current round.
    pub bid_history: Vec<Bid>,
    /// The current (highest) bid.
    pub current_bid: Option<Bid>,
    /// Who called "Liar!" (if in the reveal phase).
    pub liar_caller: Option<u64>,
    /// Total dice in play (sum of all players' dice counts).
    pub total_dice: u8,
    /// Reveal deadline (for timeout handling), in microseconds.
    pub reveal_deadline: Option<u64>,
    /// Winner of the game.
    pub winner: Option<u64>,
    pub started_at: Option<u64>,
    pub ended_at: Option<u64>,
}

impl LiarsDiceGame {
    /// The session invariant.  Every operation preserves it.
    pub open spec fn wf(self) -> bool {
        let players = self.players@;
        &&& players.len() <= MAX_PLAYERS
        &&& forall|i: int| 0 <= i < players.len() ==> (#[trigger] players[i]).wf()
        &&& self.total_dice == sum_dice(players)
        &&& self.current_turn as int <= players.len()
        &&& forall|i: int|
            0 <= i < players.len() && (#[trigger] players[i]).is_turn ==> i
                == self.current_turn as int
        &&& ((self.phase == GamePhase::Committing || self.phase == GamePhase::Bidding)
            && players.len() > 0 ==> self.current_turn < players.len() && players[self.current_turn
            as int].is_turn && !players[self.current_turn as int].eliminated)
        &&& (self.phase == GamePhase::WaitingForPlayers ==> forall|i: int|
            0 <= i < players.len() ==> (#[trigger] players[i]).fresh())
        &&& (self.phase == GamePhase::Committing || self.phase == GamePhase::Bidding
            ==> active_count(players) >= 1)
        &&& (self.phase == GamePhase::GameOver ==> active_count(players) == 1 && self.winner
            is Some)
        &&& forall|i: int|
            0 <= i < self.bid_history@.len() - 1 ==> bid_gt(
                #[trigger] self.bid_history@[i + 1],
                self.bid_history@[i],
            )
        &&& forall|i: int|
            0 <= i < self.bid_history@.len() ==> (#[trigger] self.bid_history@[i]).quantity >= 1
                && self.bid_history@[i].face.is_valid()
        &&& (self.current_bid matches Some(b) ==> self.bid_history@.len() > 0
            && self.bid_history@.last() == b)
        &&& (self.current_bid matches Some(b) ==> b.bidder matches Some(c) && has_player(
            players,
            c,
        ))
        &&& (self.liar_caller matches Some(c) ==> has_player(players, c))
        &&& (self.current_bid is None ==> self.bid_history@.len() == 0)
        &&& (self.phase == GamePhase::Revealing ==> self.current_bid is Some && self.liar_caller
            is Some && self.reveal_deadline is Some)
        &&& (self.phase == GamePhase::Committing ==> self.current_bid is None)
        &&& (self.phase == GamePhase::WaitingForPlayers ==> self.current_bid is None)
    }

    pub fn new(game_id: GameId) -> (r: Self)
        ensures
            r.wf(),
            r.game_id == game_id,
            r.players@.len() == 0,
            r.phase == GamePhase::WaitingForPlayers,
            r.round == 0,
            r.current_turn == 0,
            r.bid_history@.len() == 0,
            r.current_bid is None,
            r.liar_caller is None,
            r.total_dice == 0,
            r.reveal_deadline is None,
            r.winner is None,
            r.started_at is None,
            r.ended_at is None,
    {
        LiarsDiceGame {
            game_id,
            players: Vec::new(),
            phase: GamePhase::WaitingForPlayers,
            round: 0,
            current_turn: 0,
            bid_history: Vec::new(),
            current_bid: None,
            liar_caller: None,
            total_dice: 0,
            reveal_deadline: None,
            winner: None,
            started_at: None,
            ended_at: None,
        }
    }

    /// Seat a joining player.  Succeeds only while waiting for players
    /// and while the roster has room.
    pub fn add_player(&mut self, player: GamePlayer) -> (r: bool)
        requires
            old(self).wf(),
            player.fresh(),
        ensures
            final(self).wf(),
            r == (old(self).players@.len() < MAX_PLAYERS && old(self).phase
                == GamePhase::WaitingForPlayers),
            r ==> final(self).players@ == old(self).players@.push(player) && final(self).total_dice
                == old(self).total_dice + STARTING_DICE,
            r ==> *final(self) == (LiarsDiceGame {
                players: final(self).players,
                total_dice: final(self).total_dice,
                ..*old(self)
            }),
            !r ==> *final(self) == *old(self),
    {
        if self.players.len() >= MAX_PLAYERS {
            return false;
        }
        if !(self.phase == GamePhase::WaitingForPlayers) {
            return false;
        }
        proof {
            lemma_sum_dice_bound(self.players@);
        }
        self.total_dice = self.total_dice + player.dice_count;
        self.players.push(player);
        proof {
            assert(self.players@.drop_last() =~= old(self).players@);
            assert(sum_dice(self.players@) == sum_dice(old(self).players@) + STARTING_DICE as int);
        }
        true
    }

    pub open spec fn spec_can_start(&self) -> bool {
        self.players@.len() >= MIN_PLAYERS && self.phase == GamePhase::WaitingForPlayers
    }

    #[verifier::when_used_as_spec(spec_can_start)]
    pub fn can_start(&self) -> (r: bool)
        ensures
            r == self.spec_can_start(),
    {
        self.players.len() >= MIN_PLAYERS && self.phase == GamePhase::WaitingForPlayers
    }

    /// Start the game: round 1 begins in the committing phase and the
    /// first seat gets the turn.  A no-op unless the game can start.
    pub fn start_game(&mut self, timestamp: u64)
        requires
            old(self).wf(),
        ensures
            final(self).wf(),
            !old(self).spec_can_start() ==> *final(self) == *old(self),
            old(self).spec_can_start() ==> {
                &&& final(self).phase == GamePhase::Committing
                &&& final(self).round == 1
                &&& final(self).started_at == Some(timestamp)
                &&& final(self).current_turn == 0
                &&& final(self).players@ == old(self).players@.update(
                    0,
                    (GamePlayer { is_turn: true, ..old(self).players@[0] }),
                )
                &&& *final(self) == (LiarsDiceGame {
                    phase: GamePhase::Committing,
                    round: 1,
                    started_at: Some(timestamp),
                    current_turn: 0,
                    players: final(self).players,
                    ..*old(self)
                })
            },
    {
        if self.can_start() {
            self.phase = GamePhase::Committing;
            self.round = 1;
            self.started_at = Some(timestamp);
            self.current_turn = 0;
            self.players[0].is_turn = true;
            proof {
                assert(self.players@ =~= old(self).players@.update(
                    0,
                    (GamePlayer { is_turn: true, ..old(self).players@[0] }),
                ));
                lemma_sum_dice_update(
                    old(self).players@,
                    0,
                    (GamePlayer { is_turn: true, ..old(self).players@[0] }),
                );
                lemma_active_count_update(
                    old(self).players@,
                    0,
                    (GamePlayer { is_turn: true, ..old(self).players@[0] }),
                );
                lemma_actors_still_seated(
                    old(self).players@,
                    self.players@,
                    self.current_bid,
                    self.liar_caller,
                );
            }
        }
    }

    /// Have all active players committed?
    pub fn all_committed(&self) -> (r: bool)
        ensures
            r == all_committed_spec(self.players@),
    {
        let mut i: usize = 0;
        while i < self.players.len()
            invariant
                0 <= i <= self.players@.len(),
                forall|j: int|
                    0 <= j < i && !(#[trigger] self.players@[j]).eliminated ==> self.players@[
                        j
                    ].commitment is Some,
            decreases self.players@.len() - i,
        {
            if !self.players[i].eliminated && self.players[i].commitment.is_none() {
                return false;
            }
            i = i + 1;
        }
        true
    }

    /// Advance from committing to bidding once every active player has
    /// committed.  A no-op otherwise.
    pub fn start_bidding(&mut self)
        requires
            old(self).wf(),
        ensures
            final(self).wf(),
            old(self).phase == GamePhase::Committing && all_committed_spec(old(self).players@)
                ==> *final(self) == (LiarsDiceGame { phase: GamePhase::Bidding, ..*old(self) }),
            !(old(self).phase == GamePhase::Committing && all_committed_spec(old(self).players@))
                ==> *final(self) == *old(self),
    {
        if self.phase == GamePhase::Committing && self.all_committed() {
            self.phase = GamePhase::Bidding;
        }
    }

    /// Have all active players genuinely revealed?
    pub fn all_revealed(&self) -> (r: bool)
        ensures
            r == all_revealed_spec(self.players@),
    {
        let mut i: usize = 0;
        while i < self.players.len()
            invariant
                0 <= i <= self.players@.len(),
                forall|j: int|
                    0 <= j < i && !(#[trigger] self.players@[j]).eliminated ==> genuinely_revealed(
                        self.players@[j],
                    ),
            decreases self.players@.len() - i,
        {
            if !self.players[i].eliminated {
                match &self.players[i].commitment {
                    Some(c) => {
                        if !(c.revealed && !c.cheater) {
                            return false;
                        }
                    },
                    None => {
                        return false;
                    },
                }
            }
            i = i + 1;
        }
        true
    }

    /// The player whose turn it is, if any.
    pub fn get_current_player(&self) -> (r: Option<&GamePlayer>)
        ensures
            (self.current_turn as int) < self.players@.len() ==> r == Some(
                &self.players@[self.current_turn as int],
            ),
            (self.current_turn as int) >= self.players@.len() ==> r is None,
    {
        if (self.current_turn as usize) < self.players.len() {
            Some(&self.players[self.current_turn as usize])
        } else {
            None
        }
    }

    /// The first seat index holding the given identity.
    pub fn player_index_by_chain(&self, chain_id: u64) -> (r: Option<usize>)
        ensures
            r matches Some(i) ==> is_first_player_index(self.players@, chain_id, i as int),
            r is None ==> !has_player(self.players@, chain_id),
    {
        let mut i: usize = 0;
        while i < self.players.len()
            invariant
                0 <= i <= self.players@.len(),
                forall|j: int|
                    0 <= j < i ==> (#[trigger] self.players@[j]).chain_id != Some(chain_id),
            decreases self.players@.len() - i,
        {
            match &self.players[i].chain_id {
                Some(c) => {
                    if *c == chain_id {
                        return Some(i);
                    }
                },
                None => {},
            }
            i = i + 1;
        }
        None
    }

    /// A borrowed view of the player with the given identity.
    pub fn get_player_by_chain(&self, chain_id: u64) -> (r: Option<&GamePlayer>)
        ensures
            r matches Some(p) ==> has_player(self.players@, chain_id) && *p == self.players@[
                player_index_spec(self.players@, chain_id)
            ],
            r is None ==> !has_player(self.players@, chain_id),
    {
        match self.player_index_by_chain(chain_id) {
            Some(i) => {
                proof {
                    assert(has_player(self.players@, chain_id));
                    lemma_player_index(self.players@, chain_id);
                }
                Some(&self.players[i])
            },
            None => None,
        }
    }

    /// Number of players not yet eliminated.
    pub fn active_player_count(&self) -> (r: usize)
        ensures
            r == active_count(self.players@),
    {
        proof {
            lemma_active_count_le_len(self.players@);
        }
        let mut r: usize = 0;
        let mut i: usize = 0;
        while i < self.players.len()
            invariant
                0 <= i <= self.players@.len(),
                r == active_count(self.players@.subrange(0, i as int)),
                r <= i,
            decreases self.players@.len() - i,
        {
            proof {
                assert(self.players@.subrange(0, i + 1).drop_last() =~= self.players@.subrange(
                    0,
                    i as int,
                ));
                assert(self.players@.subrange(0, i + 1).last() == self.players@[i as int]);
                lemma_active_count_le_len(self.players@.subrange(0, i as int));
            }
            if !self.players[i].eliminated {
                r = r + 1;
            }
            i = i + 1;
        }
        proof {
            assert(self.players@.subrange(0, self.players@.len() as int) =~= self.players@);
        }
        r
    }

    /// Count the matching dice for a face across all active revealed
    /// hands.
    pub fn count_total_dice(&self, face: DiceValue, wilds_count: bool) -> (r: u8)
        requires
            self.wf(),
        ensures
            r == count_total_spec(self.players@, face, wilds_count),
    {
        proof {
            lemma_count_total_bound(self.players@);
        }
        let mut r: u8 = 0;
        let mut i: usize = 0;
        while i < self.players.len()
            invariant
                self.wf(),
                0 <= i <= self.players@.len(),
                r == count_total_spec(self.players@.subrange(0, i as int), face, wilds_count),
                r <= i * STARTING_DICE,
                self.players@.len() <= MAX_PLAYERS,
            decreases self.players@.len() - i,
        {
            proof {
                assert(self.players@.subrange(0, i + 1).drop_last() =~= self.players@.subrange(
                    0,
                    i as int,
                ));
                assert(self.players@.subrange(0, i + 1).last() == self.players@[i as int]);
                lemma_count_total_bound(self.players@.subrange(0, i as int));
            }
            let p = &self.players[i];
            if !p.eliminated {
                match &p.revealed_dice {
                    Some(hand) => {
                        let c = hand.count_face(face, wilds_count);
                        proof {
                            crate::dice::lemma_count_matching_le_len(hand.dice@, face, wilds_count);
                            assert((i + 1) * STARTING_DICE == i * STARTING_DICE + STARTING_DICE)
                                by (nonlinear_arith);
                        }
                        r = r + c;
                    },
                    None => {
                        proof {
                            assert((i + 1) * STARTING_DICE >= i * STARTING_DICE)
                                by (nonlinear_arith);
                        }
                    },
                }
            } else {
                proof {
                    assert((i + 1) * STARTING_DICE >= i * STARTING_DICE) by (nonlinear_arith);
                }
            }
            i = i + 1;
        }
        proof {
            assert(self.players@.subrange(0, self.players@.len() as int) =~= self.players@);
        }
        r
    }

    /// Recompute the roster's dice total.
    fn recompute_total_dice(&mut self)
        requires
            forall|i: int| 0 <= i < old(self).players@.len() ==> (#[trigger] old(
                self,
            ).players@[i]).dice_count <= STARTING_DICE,
            old(self).players@.len() <= MAX_PLAYERS,
        ensures
            *final(self) == (LiarsDiceGame { total_dice: final(self).total_dice, ..*old(self) }),
            final(self).total_dice == sum_dice(old(self).players@),
    {
        proof {
            lemma_sum_dice_bound(self.players@);
        }
        let mut total: u8 = 0;
        let mut i: usize = 0;
        while i < self.players.len()
            invariant
                *self == (LiarsDiceGame { total_dice: self.total_dice, ..*old(self) }),
                0 <= i <= self.players@.len() <= MAX_PLAYERS,
                forall|k: int| 0 <= k < self.players@.len() ==> (#[trigger] self.players@[
                    k
                ]).dice_count <= STARTING_DICE,
                total == sum_dice(self.players@.subrange(0, i as int)),
                total <= i * STARTING_DICE,
            decreases self.players@.len() - i,
        {
            proof {
                assert(self.players@.subrange(0, i + 1).drop_last() =~= self.players@.subrange(
                    0,
                    i as int,
                ));
                assert(self.players@.subrange(0, i + 1).last() == self.players@[i as int]);
                assert((i + 1) * STARTING_DICE == i * STARTING_DICE + STARTING_DICE)
                    by (nonlinear_arith);
            }
            total = total + self.players[i].dice_count;
            i = i + 1;
        }
        proof {
            assert(self.players@.subrange(0, self.players@.len() as int) =~= self.players@);
        }
        self.total_dice = total;
    }
}

/// Is `bid` a valid raise in the game's current bidding state?  The
/// first bid of a round must merely be well-formed; later bids must
/// strictly exceed the current bid.
pub open spec fn bid_acceptable(g: LiarsDiceGame, bid: Bid) -> bool {
    match g.current_bid {
        Some(c) => bid_gt(bid, c),
        None => bid.spec_valid_initial(),
    }
}

/// Does the bid come from the player whose turn it is?  A bid is only
/// accepted from the seated player at the current turn.
pub open spec fn bid_from_turn_holder(g: LiarsDiceGame, bid: Bid) -> bool {
    &&& bid.bidder is Some
    &&& bid.bidder == g.players@[g.current_turn as int].chain_id
}

/// Scanning from offset `k`: the seat index of the next active player
/// after `start`, in seat order with wraparound; -1 if none is active.
pub open spec fn next_active_offset(players: Seq<GamePlayer>, start: int, k: int) -> int
    decreases players.len() - k,
{
    if players.len() == 0 || k >= players.len() || k < 0 {
        -1
    } else if !players[(start + 1 + k) % (players.len() as int)].eliminated {
        (start + 1 + k) % (players.len() as int)
    } else {
        next_active_offset(players, start, k + 1)
    }
}

/// The seat that receives the turn after the seat `start`.
pub open spec fn next_turn_index(players: Seq<GamePlayer>, start: int) -> int {
    next_active_offset(players, start, 0)
}

proof fn lemma_mod_shift(x: int, n: int)
    requires
        0 < n,
        0 <= x < 2 * n,
    ensures
        x % n == if x < n {
            x
        } else {
            x - n
        },
{
    if x < n {
        assert(x % n == x) by (nonlinear_arith)
            requires
                0 <= x < n,
        ;
    } else {
        assert(x % n == x - n) by (nonlinear_arith)
            requires
                0 < n <= x < 2 * n,
        ;
    }
}

/// Is the seat reached `1 + j` steps after `start` (with wraparound)
/// active?
pub open spec fn active_at_offset(players: Seq<GamePlayer>, start: int, j: int) -> bool {
    !players[(start + 1 + j) % (players.len() as int)].eliminated
}

proof fn lemma_next_active_found(players: Seq<GamePlayer>, start: int, k: int)
    requires
        0 <= start < players.len(),
        0 <= k < players.len(),
        exists|j: int| k <= j < players.len() && #[trigger] active_at_offset(players, start, j),
    ensures
        0 <= next_active_offset(players, start, k) < players.len(),
        !players[next_active_offset(players, start, k)].eliminated,
    decreases players.len() - k,
{
    let n = players.len() as int;
    if !players[(start + 1 + k) % n].eliminated {
        assert(0 <= (start + 1 + k) % n < n) by (nonlinear_arith)
            requires
                n > 0,
                start + 1 + k >= 0,
        ;
    } else {
        let j = choose|j: int| k <= j < n && #[trigger] active_at_offset(players, start, j);
        assert(j != k);
        assert(k + 1 <= j < n && active_at_offset(players, start, j));
        lemma_next_active_found(players, start, k + 1);
    }
}

/// With an active seat present, the next-turn scan finds an active seat.
pub proof fn lemma_next_turn_exists(players: Seq<GamePlayer>, start: int)
    requires
        0 <= start < players.len(),
        active_count(players) > 0,
    ensures
        0 <= next_turn_index(players, start) < players.len(),
        !players[next_turn_index(players, start)].eliminated,
{
    let n = players.len() as int;
    lemma_active_count_witness(players);
    let i = choose|i: int| 0 <= i < n && !(#[trigger] players[i]).eliminated;
    let j = if i >= start + 1 {
        i - start - 1
    } else {
        i + n - start - 1
    };
    assert(0 <= j < n);
    lemma_mod_shift(start + 1 + j, n);
    assert((start + 1 + j) % n == i);
    assert(active_at_offset(players, start, j));
    lemma_next_active_found(players, start, 0);
}

impl LiarsDiceGame {
    /// The seat that receives the turn next: the first active seat
    /// after the current one, in roster order with wraparound.
    fn next_active_seat(&self) -> (r: usize)
        requires
            0 < self.players@.len() <= MAX_PLAYERS,
            (self.current_turn as int) < self.players@.len(),
            active_count(self.players@) >= 1,
        ensures
            r == next_turn_index(self.players@, self.current_turn as int),
            r < self.players@.len(),
            !self.players@[r as int].eliminated,
    {
        let n = self.players.len();
        let start = self.current_turn as usize;
        proof {
            lemma_next_turn_exists(self.players@, start as int);
        }
        let ghost next_spec = next_turn_index(self.players@, start as int);
        let mut k: usize = 0;
        let mut next: usize = 0;
        let mut found: bool = false;
        while k < n && !found
            invariant
                n == self.players@.len(),
                n <= MAX_PLAYERS,
                0 <= start < n,
                0 <= k <= n,
                !found ==> next_active_offset(self.players@, start as int, k as int) == next_spec,
                found ==> next == next_spec && next < n,
            decreases n - k + if found {
                0int
            } else {
                1int
            },
        {
            let idx = (start + 1 + k) % n;
            proof {
                assert(0 <= (start + 1 + k) as int % (n as int) < n) by (nonlinear_arith)
                    requires
                        n > 0,
                ;
            }
            if !self.players[idx].eliminated {
                next = idx;
                found = true;
            } else {
                k = k + 1;
            }
        }
        if !found {
            proof {
                lemma_next_turn_exists(self.players@, start as int);
                assert(next_active_offset(self.players@, start as int, n as int) == -1);
            }
            assert(false);
        }
        next
    }

    /// Place a bid.  Only valid in the bidding phase, and only from the
    /// seated player whose turn it is: a bid by any other identity is a
    /// protocol violation and is rejected.  The first bid of a round
    /// must be well-formed and later bids must strictly exceed the
    /// current bid.  On acceptance the bid is recorded and the turn
    /// advances to the next active seat in roster order with
    /// wraparound.  A rejected bid leaves the session unchanged.
    pub fn make_bid(&mut self, bid: Bid) -> (r: bool)
        requires
            old(self).wf(),
            bid.face.is_valid(),
        ensures
            final(self).wf(),
            r == (old(self).phase == GamePhase::Bidding && bid_from_turn_holder(*old(self), bid)
                && bid_acceptable(*old(self), bid)),
            !r ==> *final(self) == *old(self),
            r ==> {
                let next = next_turn_index(old(self).players@, old(self).current_turn as int);
                &&& final(self).current_bid == Some(bid)
                &&& final(self).bid_history@ == old(self).bid_history@.push(bid)
                &&& final(self).current_turn == next
                &&& !old(self).players@[next].eliminated
                &&& final(self).players@.len() == old(self).players@.len()
                &&& forall|j: int|
                    0 <= j < old(self).players@.len() ==> #[trigger] final(self).players@[j]
                        == (GamePlayer { is_turn: j == next, ..old(self).players@[j] })
                &&& *final(self) == (LiarsDiceGame {
                    players: final(self).players,
                    bid_history: final(self).bid_history,
                    current_bid: Some(bid),
                    current_turn: final(self).current_turn,
                    ..*old(self)
                })
            },
    {
        if !(self.phase == GamePhase::Bidding) {
            return false;
        }
        let cur = self.current_turn as usize;
        let actor_ok = match (&bid.bidder, &self.players[cur].chain_id) {
            (Some(b), Some(c)) => *b == *c,
            _ => false,
        };
        if !actor_ok {
            return false;
        }
        let acceptable = match &self.current_bid {
            Some(c) => bid.is_higher_than(c),
            None => bid.is_valid_initial(),
        };
        if !acceptable {
            return false;
        }
        let n = self.players.len();
        let start = self.current_turn as usize;
        proof {
            lemma_next_turn_exists(self.players@, start as int);
        }
        let ghost next_spec = next_turn_index(self.players@, start as int);
        let mut k: usize = 0;
        let mut next: usize = 0;
        let mut found: bool = false;
        while k < n && !found
            invariant
                n == self.players@.len(),
                n <= MAX_PLAYERS,
                0 <= start < n,
                0 <= k <= n,
                !found ==> next_active_offset(self.players@, start as int, k as int) == next_spec,
                found ==> next == next_spec && next < n,
            decreases n - k + if found {
                0int
            } else {
                1int
            },
        {
            let idx = (start + 1 + k) % n;
            proof {
                assert(0 <= (start + 1 + k) as int % (n as int) < n) by (nonlinear_arith)
                    requires
                        n > 0,
                ;
            }
            if !self.players[idx].eliminated {
                next = idx;
                found = true;
            } else {
                k = k + 1;
            }
        }
        if !found {
            proof {
                lemma_next_turn_exists(self.players@, start as int);
                assert(next_active_offset(self.players@, start as int, n as int) == -1);
            }
            assert(false);
            return false;
        }
        let cur = self.current_turn as usize;
        self.players[cur].is_turn = false;
        self.bid_history.push(bid);
        self.current_bid = Some(bid);
        self.players[next].is_turn = true;
        self.current_turn = next as u8;
        proof {
            let oldp = old(self).players@;
            let newp = self.players@;
            assert forall|j: int| 0 <= j < oldp.len() implies #[trigger] newp[j] == (GamePlayer {
                is_turn: j == next as int,
                ..oldp[j]
            }) by {
                if j == next as int {
                } else if j == cur as int {
                } else {
                    assert(!oldp[j].is_turn);
                }
            }
            assert(newp =~= oldp.update(cur as int, (GamePlayer { is_turn: false, ..oldp[cur as int] })).update(
                next as int,
                (GamePlayer { is_turn: true, ..oldp[next as int] }),
            ));
            let mid = oldp.update(cur as int, (GamePlayer { is_turn: false, ..oldp[cur as int] }));
            lemma_sum_dice_update(oldp, cur as int, (GamePlayer { is_turn: false, ..oldp[cur as int] }));
            lemma_active_count_update(oldp, cur as int, (GamePlayer { is_turn: false, ..oldp[cur as int] }));
            lemma_sum_dice_update(mid, next as int, (GamePlayer { is_turn: true, ..oldp[next as int] }));
            lemma_active_count_update(mid, next as int, (GamePlayer { is_turn: true, ..oldp[next as int] }));
            assert(self.bid_history@ == old(self).bid_history@.push(bid));
            assert forall|i: int| 0 <= i < self.bid_history@.len() - 1 implies bid_gt(
                #[trigger] self.bid_history@[i + 1],
                self.bid_history@[i],
            ) by {
                if i < old(self).bid_history@.len() - 1 {
                    assert(bid_gt(old(self).bid_history@[i + 1], old(self).bid_history@[i]));
                }
            }
            if old(self).current_bid is Some {
                assert(old(self).bid_history@.last() == old(self).current_bid->0);
                assert(bid.quantity >= 1);
            }
            assert(self.players@[cur as int].chain_id == old(self).players@[cur as int].chain_id);
            assert(has_player(self.players@, bid.bidder->0));
            lemma_actors_still_seated(
                old(self).players@,
                self.players@,
                None,
                old(self).liar_caller,
            );
        }
        true
    }

    /// Is this identity a seated, still-active player, allowed to call
    /// liar?
    pub open spec fn caller_can_call(self, caller: u64) -> bool {
        &&& has_player(self.players@, caller)
        &&& !self.players@[player_index_spec(self.players@, caller)].eliminated
    }

    /// Call "Liar!" on the current bid.  Only valid during bidding with
    /// a bid present, and only from a seated, active player: a call by
    /// any other identity is a protocol violation and is rejected.
    /// Moves the game to the reveal phase and arms the reveal deadline.
    pub fn call_liar(&mut self, caller: u64, timestamp: u64) -> (r: bool)
        requires
            old(self).wf(),
            timestamp <= u64::MAX - REVEAL_TIMEOUT_MICROS,
        ensures
            final(self).wf(),
            r == (old(self).phase == GamePhase::Bidding && old(self).current_bid is Some && old(
                self,
            ).caller_can_call(caller)),
            r ==> *final(self) == (LiarsDiceGame {
                liar_caller: Some(caller),
                phase: GamePhase::Revealing,
                reveal_deadline: Some((timestamp + REVEAL_TIMEOUT_MICROS) as u64),
                ..*old(self)
            }),
            !r ==> *final(self) == *old(self),
    {
        if !(self.phase == GamePhase::Bidding) {
            return false;
        }
        if self.current_bid.is_none() {
            return false;
        }
        let idx = match self.player_index_by_chain(caller) {
            Some(i) => i,
            None => {
                return false;
            },
        };
        proof {
            assert(has_player(self.players@, caller));
            lemma_player_index(self.players@, caller);
            assert(player_index_spec(self.players@, caller) == idx as int);
        }
        if self.players[idx].eliminated {
            return false;
        }
        self.liar_caller = Some(caller);
        self.phase = GamePhase::Revealing;
        self.reveal_deadline = Some(timestamp + REVEAL_TIMEOUT_MICROS);
        true
    }

    /// Store a player's commitment hash.  Only valid in the committing
    /// phase; once every active player has a commitment the session
    /// auto-advances to bidding.
    pub fn submit_commitment(&mut self, player_chain: u64, hash: [u8; 32]) -> (r: bool)
        requires
            old(self).wf(),
        ensures
            final(self).wf(),
            r == (old(self).phase == GamePhase::Committing && has_player(
                old(self).players@,
                player_chain,
            )),
            !r ==> *final(self) == *old(self),
            r ==> forall|i: int|
                is_first_player_index(old(self).players@, player_chain, i) ==> final(self).players@
                    == old(self).players@.update(
                    i,
                    (GamePlayer {
                        commitment: Some(
                            DiceCommitment { hash, revealed: false, cheater: false },
                        ),
                        ..old(self).players@[i]
                    }),
                ),
            r ==> final(self).phase == if all_committed_spec(final(self).players@) {
                GamePhase::Bidding
            } else {
                GamePhase::Committing
            },
            r ==> *final(self) == (LiarsDiceGame {
                players: final(self).players,
                phase: final(self).phase,
                ..*old(self)
            }),
    {
        if !(self.phase == GamePhase::Committing) {
            return false;
        }
        let idx = match self.player_index_by_chain(player_chain) {
            Some(i) => i,
            None => {
                return false;
            },
        };
        self.players[idx].commitment = Some(DiceCommitment::new(hash));
        proof {
            let upd = (GamePlayer {
                commitment: Some(DiceCommitment { hash, revealed: false, cheater: false }),
                ..old(self).players@[idx as int]
            });
            assert(self.players@ =~= old(self).players@.update(idx as int, upd));
            lemma_sum_dice_update(old(self).players@, idx as int, upd);
            lemma_active_count_update(old(self).players@, idx as int, upd);
            assert(has_player(old(self).players@, player_chain));
            lemma_actors_still_seated(
                old(self).players@,
                self.players@,
                self.current_bid,
                self.liar_caller,
            );
        }
        if self.all_committed() {
            self.phase = GamePhase::Bidding;
        }
        true
    }
}

/// Outcome of a reveal attempt.
#[derive(Clone, Copy, Debug, PartialEq, Eq, Structural)]
pub enum RevealOutcome {
    /// The reveal verified against the commitment and was stored.
    Revealed,
    /// The reveal did not match the commitment: the player is marked a
    /// cheater and eliminated.
    CheaterDetected,
    /// The operation was invalid (wrong phase, unknown or eliminated
    /// player, missing or already revealed commitment, wrong hand size);
    /// nothing changed.
    Rejected,
}

/// Outcome of a forfeit.
#[derive(Clone, Copy, Debug, PartialEq, Eq, Structural)]
pub enum ForfeitOutcome {
    /// The forfeit was invalid (game over, unknown or already eliminated
    /// player, or the forfeiter is the last active player).
    Rejected,
    /// The player was eliminated; the game goes on.
    Eliminated,
    /// The player was eliminated and exactly one active player remained:
    /// the game is over.
    Ended,
}

/// Has this player's commitment been (possibly force-)revealed?
pub open spec fn commitment_revealed(p: GamePlayer) -> bool {
    p.commitment matches Some(c) && c.revealed
}

/// A player's state after the timeout sweep: an active player who has
/// not revealed is eliminated with a timed-out result and a force-marked
/// commitment; everyone else is untouched.
pub open spec fn sweep_player(p: GamePlayer) -> GamePlayer {
    if !p.eliminated && !commitment_revealed(p) {
        GamePlayer {
            eliminated: true,
            dice_count: 0,
            result: GameResult::TimedOut,
            commitment: match p.commitment {
                Some(c) => Some(DiceCommitment { revealed: true, ..c }),
                None => None,
            },
            ..p
        }
    } else {
        p
    }
}

/// The sweep is idempotent seat by seat.
pub proof fn lemma_sweep_idempotent(p: GamePlayer)
    ensures
        sweep_player(sweep_player(p)) == sweep_player(p),
{
}

/// A forfeited player's state.
pub open spec fn eliminate_player(p: GamePlayer) -> GamePlayer {
    GamePlayer { eliminated: true, dice_count: 0, result: GameResult::Lost, ..p }
}

/// The sole active player is marked as the winner.
pub open spec fn crown_winner(players: Seq<GamePlayer>) -> Seq<GamePlayer> {
    players.update(
        first_active_index(players),
        (GamePlayer { result: GameResult::Won, ..players[first_active_index(players)] }),
    )
}

/// Who loses the round: the liar caller if the bid stands (the actual
/// count, wilds included, reaches the bid quantity), otherwise the
/// bidder.
pub open spec fn loser_of(g: LiarsDiceGame) -> Option<u64> {
    if count_total_spec(g.players@, g.current_bid->0.face, true) >= g.current_bid->0.quantity {
        g.liar_caller
    } else {
        g.current_bid->0.bidder
    }
}

/// The roster after the round's one-die penalty: if the loser is seated
/// and still active, that seat loses a die; otherwise nothing changes.
pub open spec fn apply_penalty(players: Seq<GamePlayer>, loser: Option<u64>) -> Seq<GamePlayer> {
    match loser {
        Some(lc) => if has_player(players, lc) && !players[player_index_spec(
            players,
            lc,
        )].eliminated {
            players.update(
                player_index_spec(players, lc),
                lose_die_player(players[player_index_spec(players, lc)]),
            )
        } else {
            players
        },
        None => players,
    }
}

/// Is the round's loser a seated, still-active player?
pub open spec fn loser_active(g: LiarsDiceGame) -> bool {
    match loser_of(g) {
        Some(lc) => has_player(g.players@, lc) && !g.players@[player_index_spec(
            g.players@,
            lc,
        )].eliminated,
        None => false,
    }
}

/// Rosters with the same seat-by-seat dice counts and eliminations have
/// the same totals.
pub proof fn lemma_counts_pointwise(s1: Seq<GamePlayer>, s2: Seq<GamePlayer>)
    requires
        s1.len() == s2.len(),
        forall|j: int|
            0 <= j < s1.len() ==> (#[trigger] s1[j]).dice_count == s2[j].dice_count
                && s1[j].eliminated == s2[j].eliminated,
    ensures
        sum_dice(s1) == sum_dice(s2),
        active_count(s1) == active_count(s2),
    decreases s1.len(),
{
    if s1.len() > 0 {
        assert(forall|j: int|
            0 <= j < s1.len() - 1 ==> (#[trigger] s1.drop_last()[j]).dice_count
                == s2.drop_last()[j].dice_count && s1.drop_last()[j].eliminated
                == s2.drop_last()[j].eliminated);
        lemma_counts_pointwise(s1.drop_last(), s2.drop_last());
    }
}

impl LiarsDiceGame {
    /// Can the timeout sweep act: the session is revealing and the
    /// deadline has passed.
    pub open spec fn sweep_armed(self, now: u64) -> bool {
        &&& self.phase == GamePhase::Revealing
        &&& self.reveal_deadline matches Some(d) && now > d
    }

    /// Eliminate every active player who has not revealed, once the
    /// reveal deadline has passed.  A no-op before the deadline, and a
    /// no-op again once every active player is revealed, so repeated
    /// sweeps change nothing.
    pub fn timeout_sweep(&mut self, now: u64) -> (r: bool)
        requires
            old(self).wf(),
        ensures
            final(self).wf(),
            r == old(self).sweep_armed(now),
            !r ==> *final(self) == *old(self),
            r ==> {
                &&& final(self).players@.len() == old(self).players@.len()
                &&& forall|j: int|
                    0 <= j < old(self).players@.len() ==> #[trigger] final(self).players@[j]
                        == sweep_player(old(self).players@[j])
                &&& final(self).total_dice == sum_dice(final(self).players@)
                &&& *final(self) == (LiarsDiceGame {
                    players: final(self).players,
                    total_dice: final(self).total_dice,
                    ..*old(self)
                })
                &&& forall|j: int|
                    0 <= j < final(self).players@.len() && !(#[trigger] final(self).players@[j]).eliminated ==> commitment_revealed(final(self).players@[j])
                &&& forall|j: int|
                    0 <= j < final(self).players@.len() ==> (#[trigger] final(self).players@[j]).dice_count <= old(self).players@[j].dice_count
            },
            r && (forall|j: int|
                0 <= j < old(self).players@.len() && !(#[trigger] old(
                    self,
                ).players@[j]).eliminated ==> commitment_revealed(old(self).players@[j])) ==> final(self).players@ == old(self).players@ && *final(self) == (LiarsDiceGame {
                players: final(self).players,
                ..*old(self)
            }),
    {
        if !(self.phase == GamePhase::Revealing) {
            return false;
        }
        let deadline = match self.reveal_deadline {
            Some(d) => d,
            None => {
                return false;
            },
        };
        if !(now > deadline) {
            return false;
        }
        let n = self.players.len();
        let mut i: usize = 0;
        while i < n
            invariant
                n == self.players@.len() == old(self).players@.len(),
                0 <= i <= n,
                *self == (LiarsDiceGame { players: self.players, ..*old(self) }),
                forall|j: int|
                    0 <= j < i ==> #[trigger] self.players@[j] == sweep_player(
                        old(self).players@[j],
                    ),
                forall|j: int| i <= j < n ==> #[trigger] self.players@[j] == old(self).players@[j],
            decreases n - i,
        {
            let eliminated = self.players[i].eliminated;
            let revealed = match &self.players[i].commitment {
                Some(c) => c.revealed,
                None => false,
            };
            if !eliminated && !revealed {
                match self.players[i].commitment {
                    Some(c) => {
                        self.players[i].commitment = Some(
                            DiceCommitment { revealed: true, ..c },
                        );
                    },
                    None => {},
                }
                self.players[i].eliminated = true;
                self.players[i].dice_count = 0;
                self.players[i].result = GameResult::TimedOut;
            }
            i = i + 1;
        }
        proof {
            assert(forall|j: int|
                0 <= j < n ==> (#[trigger] self.players@[j]).dice_count <= STARTING_DICE);
        }
        self.recompute_total_dice();
        proof {
            assert forall|j: int|
                0 <= j < old(self).players@.len() implies (#[trigger] old(
                self,
            ).players@[j]).chain_id == self.players@[j].chain_id by {
                assert(self.players@[j] == sweep_player(old(self).players@[j]));
            }
            lemma_actors_still_seated(
                old(self).players@,
                self.players@,
                self.current_bid,
                self.liar_caller,
            );
            if forall|j: int|
                0 <= j < old(self).players@.len() && !(#[trigger] old(
                    self,
                ).players@[j]).eliminated ==> commitment_revealed(old(self).players@[j]) {
                assert forall|j: int|
                    0 <= j < old(self).players@.len() implies self.players@[j] == old(
                    self,
                ).players@[j] by {
                    let p = old(self).players@[j];
                    if !p.eliminated {
                        assert(commitment_revealed(p));
                    }
                    assert(sweep_player(p) == p);
                }
                assert(self.players@ =~= old(self).players@);
                lemma_counts_pointwise(self.players@, old(self).players@);
                assert(self.total_dice == old(self).total_dice);
            }
        }
        true
    }

    /// Handle a reveal: verify the hand and salt against the stored
    /// commitment.  A matching reveal is stored; a mismatch marks the
    /// player a cheater and eliminates them.  Invalid attempts (wrong
    /// phase, unknown, eliminated or already revealed player, or a hand
    /// that does not match the player's public dice count) are rejected
    /// with no state change.
    pub fn reveal_dice(&mut self, player_chain: u64, reveal: DiceReveal) -> (r: RevealOutcome)
        requires
            old(self).wf(),
            reveal.dice.wf(),
        ensures
            final(self).wf(),
            r == RevealOutcome::Rejected <==> !old(self).reveal_guard(player_chain, reveal),
            r == RevealOutcome::Rejected ==> *final(self) == *old(self),
            old(self).reveal_guard(player_chain, reveal) ==> {
                let i = player_index_spec(old(self).players@, player_chain);
                let c = old(self).players@[i].commitment->0;
                if commitment_matches(reveal.dice.spec_bytes(), reveal.salt@, c.hash@) {
                    &&& r == RevealOutcome::Revealed
                    &&& final(self).players@ == old(self).players@.update(
                        i,
                        (GamePlayer {
                            commitment: Some(
                                DiceCommitment { hash: c.hash, revealed: true, cheater: false },
                            ),
                            revealed_dice: Some(reveal.dice),
                            ..old(self).players@[i]
                        }),
                    )
                    &&& *final(self) == (LiarsDiceGame {
                        players: final(self).players,
                        ..*old(self)
                    })
                } else {
                    &&& r == RevealOutcome::CheaterDetected
                    &&& final(self).players@ == old(self).players@.update(
                        i,
                        (GamePlayer {
                            commitment: Some(
                                DiceCommitment { hash: c.hash, revealed: true, cheater: true },
                            ),
                            result: GameResult::Cheater,
                            eliminated: true,
                            dice_count: 0,
                            ..old(self).players@[i]
                        }),
                    )
                    &&& final(self).total_dice == sum_dice(final(self).players@)
                    &&& *final(self) == (LiarsDiceGame {
                        players: final(self).players,
                        total_dice: final(self).total_dice,
                        ..*old(self)
                    })
                }
            },
            forall|j: int|
                0 <= j < final(self).players@.len() ==> (#[trigger] final(self).players@[j]).dice_count <= old(self).players@[j].dice_count,
    {
        if !(self.phase == GamePhase::Revealing) {
            return RevealOutcome::Rejected;
        }
        let idx = match self.player_index_by_chain(player_chain) {
            Some(i) => i,
            None => {
                return RevealOutcome::Rejected;
            },
        };
        proof {
            assert(has_player(self.players@, player_chain));
            lemma_player_index(self.players@, player_chain);
            assert(player_index_spec(self.players@, player_chain) == idx as int);
        }
        if self.players[idx].eliminated {
            return RevealOutcome::Rejected;
        }
        let c = match &self.players[idx].commitment {
            Some(c) => *c,
            None => {
                return RevealOutcome::Rejected;
            },
        };
        if c.revealed {
            return RevealOutcome::Rejected;
        }
        if reveal.dice.count != self.players[idx].dice_count {
            return RevealOutcome::Rejected;
        }
        let bytes = reveal.dice.to_bytes();
        let ok = verify_commitment(bytes.as_slice(), &reveal.salt, &c.hash);
        if ok {
            self.players[idx].commitment = Some(
                DiceCommitment { hash: c.hash, revealed: true, cheater: false },
            );
            self.players[idx].revealed_dice = Some(reveal.dice);
            proof {
                let upd = self.players@[idx as int];
                assert(self.players@ =~= old(self).players@.update(idx as int, upd));
                lemma_sum_dice_update(old(self).players@, idx as int, upd);
                lemma_active_count_update(old(self).players@, idx as int, upd);
                lemma_actors_still_seated(
                    old(self).players@,
                    self.players@,
                    self.current_bid,
                    self.liar_caller,
                );
            }
            RevealOutcome::Revealed
        } else {
            self.players[idx].commitment = Some(
                DiceCommitment { hash: c.hash, revealed: true, cheater: true },
            );
            self.players[idx].result = GameResult::Cheater;
            self.players[idx].eliminated = true;
            self.players[idx].dice_count = 0;
            proof {
                let upd = self.players@[idx as int];
                assert(self.players@ =~= old(self).players@.update(idx as int, upd));
            }
            self.recompute_total_dice();
            proof {
                lemma_actors_still_seated(
                    old(self).players@,
                    self.players@,
                    self.current_bid,
                    self.liar_caller,
                );
            }
            RevealOutcome::CheaterDetected
        }
    }

    /// Are the reveal-phase preconditions met for this reveal attempt?
    pub open spec fn reveal_guard(self, player_chain: u64, reveal: DiceReveal) -> bool {
        &&& self.phase == GamePhase::Revealing
        &&& has_player(self.players@, player_chain)
        &&& {
            let i = player_index_spec(self.players@, player_chain);
            &&& !self.players@[i].eliminated
            &&& self.players@[i].commitment matches Some(c) && !c.revealed
            &&& reveal.dice.count == self.players@[i].dice_count
        }
    }

    /// Mark the sole active player the winner and end the game.
    fn crown(&mut self)
        requires
            forall|i: int|
                0 <= i < old(self).players@.len() ==> (#[trigger] old(self).players@[i]).wf(),
            active_count(old(self).players@) == 1,
        ensures
            final(self).players@ == crown_winner(old(self).players@),
            final(self).winner == old(self).players@[first_active_index(
                old(self).players@,
            )].chain_id,
            final(self).winner is Some,
            final(self).phase == GamePhase::GameOver,
            active_count(final(self).players@) == 1,
            sum_dice(final(self).players@) == sum_dice(old(self).players@),
            *final(self) == (LiarsDiceGame {
                players: final(self).players,
                winner: final(self).winner,
                phase: GamePhase::GameOver,
                ..*old(self)
            }),
            forall|j: int|
                0 <= j < final(self).players@.len() ==> (#[trigger] final(self).players@[j]).dice_count == old(self).players@[j].dice_count && final(self).players@[j].eliminated == old(self).players@[j].eliminated,
    {
        proof {
            lemma_first_active(self.players@);
        }
        let n = self.players.len();
        let mut w: usize = 0;
        let mut found: bool = false;
        while w < n && !found
            invariant
                n == self.players@.len(),
                0 <= w <= n,
                !found ==> forall|j: int| 0 <= j < w ==> (#[trigger] self.players@[j]).eliminated,
                found ==> is_first_active_index(self.players@, w as int),
            decreases n - w + if found {
                0int
            } else {
                1int
            },
        {
            if !self.players[w].eliminated {
                found = true;
            } else {
                w = w + 1;
            }
        }
        if !found {
            proof {
                lemma_active_count_witness(self.players@);
                assert(false);
            }
        }
        proof {
            assert(is_first_active_index(self.players@, w as int));
            assert(first_active_index(self.players@) == w as int);
        }
        self.players[w].result = GameResult::Won;
        self.winner = self.players[w].chain_id;
        self.phase = GamePhase::GameOver;
        proof {
            let upd = self.players@[w as int];
            assert(self.players@ =~= old(self).players@.update(w as int, upd));
            lemma_sum_dice_update(old(self).players@, w as int, upd);
            lemma_active_count_update(old(self).players@, w as int, upd);
        }
    }

    /// A forfeit eliminates the player outright, in any phase.  If
    /// exactly one active player remains the game ends at once with that
    /// player as winner, bypassing reveal.
    pub fn forfeit(&mut self, player_chain: u64, timestamp: u64) -> (r: ForfeitOutcome)
        requires
            old(self).wf(),
        ensures
            final(self).wf(),
            r == ForfeitOutcome::Rejected <==> !old(self).forfeit_guard(player_chain),
            r == ForfeitOutcome::Rejected ==> *final(self) == *old(self),
            old(self).forfeit_guard(player_chain) ==> {
                let i = player_index_spec(old(self).players@, player_chain);
                let pen = old(self).players@.update(i, eliminate_player(old(self).players@[i]));
                &&& active_count(pen) == active_count(old(self).players@) - 1
                &&& if active_count(pen) == 1 {
                    &&& r == ForfeitOutcome::Ended
                    &&& final(self).players@ == crown_winner(pen)
                    &&& final(self).winner == pen[first_active_index(pen)].chain_id
                    &&& final(self).phase == GamePhase::GameOver
                    &&& final(self).ended_at == Some(timestamp)
                    &&& final(self).total_dice == sum_dice(pen)
                    &&& *final(self) == (LiarsDiceGame {
                        players: final(self).players,
                        winner: final(self).winner,
                        phase: GamePhase::GameOver,
                        ended_at: Some(timestamp),
                        total_dice: final(self).total_dice,
                        ..*old(self)
                    })
                } else {
                    &&& r == ForfeitOutcome::Eliminated
                    &&& final(self).total_dice == sum_dice(pen)
                    &&& final(self).players@.len() == pen.len()
                    &&& (if old(self).players@[i].is_turn {
                        let next = next_turn_index(pen, old(self).current_turn as int);
                        &&& final(self).current_turn == next
                        &&& !pen[next].eliminated
                        &&& forall|j: int|
                            0 <= j < pen.len() ==> #[trigger] final(self).players@[j]
                                == (GamePlayer { is_turn: j == next, ..pen[j] })
                    } else {
                        &&& final(self).players@ == pen
                        &&& final(self).current_turn == old(self).current_turn
                    })
                    &&& *final(self) == (LiarsDiceGame {
                        players: final(self).players,
                        total_dice: final(self).total_dice,
                        current_turn: final(self).current_turn,
                        ..*old(self)
                    })
                }
            },
            forall|j: int|
                0 <= j < final(self).players@.len() ==> (#[trigger] final(self).players@[j]).dice_count <= old(self).players@[j].dice_count,
    {
        if self.phase == GamePhase::GameOver || self.phase == GamePhase::WaitingForPlayers {
            return ForfeitOutcome::Rejected;
        }
        let idx = match self.player_index_by_chain(player_chain) {
            Some(i) => i,
            None => {
                return ForfeitOutcome::Rejected;
            },
        };
        proof {
            assert(has_player(self.players@, player_chain));
            lemma_player_index(self.players@, player_chain);
            assert(player_index_spec(self.players@, player_chain) == idx as int);
        }
        if self.players[idx].eliminated {
            return ForfeitOutcome::Rejected;
        }
        let active_before = self.active_player_count();
        if active_before < 2 {
            return ForfeitOutcome::Rejected;
        }
        self.players[idx].eliminated = true;
        self.players[idx].dice_count = 0;
        self.players[idx].result = GameResult::Lost;
        let ghost pen = self.players@;
        proof {
            let upd = self.players@[idx as int];
            assert(upd == eliminate_player(old(self).players@[idx as int]));
            assert(self.players@ =~= old(self).players@.update(idx as int, upd));
            assert(pen == old(self).players@.update(
                idx as int,
                eliminate_player(old(self).players@[idx as int]),
            ));
            lemma_active_count_update(old(self).players@, idx as int, upd);
        }
        self.recompute_total_dice();
        let active_now = self.active_player_count();
        if active_now == 1 {
            proof {
                assert(self.players@ == pen);
            }
            self.crown();
            proof {
                lemma_first_active(pen);
                assert(pen.len() == old(self).players@.len());
                assert(self.players@.len() == pen.len());
                assert forall|j: int| 0 <= j < self.players@.len() implies (#[trigger] self.players@[
                    j
                ]).dice_count <= old(self).players@[j].dice_count by {
                    assert(0 <= j < old(self).players@.len());
                    assert(self.players@[j].dice_count == pen[j].dice_count);
                    if j == idx as int {
                        assert(pen[j].dice_count == 0);
                    } else {
                        assert(old(self).players@.update(
                            idx as int,
                            eliminate_player(old(self).players@[idx as int]),
                        )[j] == old(self).players@[j]);
                        assert(pen[j] == old(self).players@[j]);
                    }
                }
            }
            proof {
                lemma_actors_still_seated(
                    old(self).players@,
                    self.players@,
                    self.current_bid,
                    self.liar_caller,
                );
            }
            self.ended_at = Some(timestamp);
            ForfeitOutcome::Ended
        } else {
            if self.players[idx].is_turn {
                // the forfeiter held the turn: pass it to the next active
                // seat so the round can go on
                let next = self.next_active_seat();
                self.players[idx].is_turn = false;
                self.players[next].is_turn = true;
                self.current_turn = next as u8;
                proof {
                    let cur = idx as int;
                    let oldp = pen;
                    let newp = self.players@;
                    assert forall|j: int|
                        0 <= j < oldp.len() implies #[trigger] newp[j] == (GamePlayer {
                        is_turn: j == next as int,
                        ..oldp[j]
                    }) by {
                        if j == next as int {
                        } else if j == cur {
                        } else {
                            assert(!old(self).players@[j].is_turn);
                            assert(oldp[j] == old(self).players@[j]);
                        }
                    }
                    lemma_counts_pointwise(newp, oldp);
                }
            }
            proof {
                lemma_actors_still_seated(
                    old(self).players@,
                    self.players@,
                    self.current_bid,
                    self.liar_caller,
                );
            }
            ForfeitOutcome::Eliminated
        }
    }

    /// Can this forfeit be applied: the game is running (neither waiting
    /// for players nor over), the player is seated and active, and at
    /// least one other active player remains.
    pub open spec fn forfeit_guard(self, player_chain: u64) -> bool {
        &&& self.phase != GamePhase::GameOver
        &&& self.phase != GamePhase::WaitingForPlayers
        &&& has_player(self.players@, player_chain)
        &&& !self.players@[player_index_spec(self.players@, player_chain)].eliminated
        &&& active_count(self.players@) >= 2
    }

    /// Start a new round: bids, commitments and reveals are cleared, the
    /// round number advances, the first active seat gets the turn, and
    /// the session returns to the committing phase.
    pub fn new_round(&mut self)
        requires
            old(self).wf(),
            old(self).phase != GamePhase::GameOver,
            active_count(old(self).players@) >= 1,
            old(self).round < u32::MAX,
        ensures
            final(self).wf(),
            final(self).round == old(self).round + 1,
            final(self).phase == GamePhase::Committing,
            final(self).bid_history@.len() == 0,
            final(self).current_bid is None,
            final(self).liar_caller is None,
            final(self).reveal_deadline is None,
            final(self).current_turn == first_active_index(old(self).players@),
            final(self).players@.len() == old(self).players@.len(),
            forall|j: int|
                0 <= j < old(self).players@.len() ==> #[trigger] final(self).players@[j]
                    == (GamePlayer {
                    commitment: None,
                    revealed_dice: None,
                    is_turn: j == first_active_index(old(self).players@),
                    ..old(self).players@[j]
                }),
            *final(self) == (LiarsDiceGame {
                round: final(self).round,
                phase: GamePhase::Committing,
                bid_history: final(self).bid_history,
                current_bid: None,
                liar_caller: None,
                reveal_deadline: None,
                current_turn: final(self).current_turn,
                players: final(self).players,
                ..*old(self)
            }),
            forall|j: int|
                0 <= j < final(self).players@.len() ==> (#[trigger] final(self).players@[j]).dice_count == old(self).players@[j].dice_count,
    {
        proof {
            lemma_first_active(self.players@);
        }
        self.round = self.round + 1;
        self.bid_history = Vec::new();
        self.current_bid = None;
        self.liar_caller = None;
        self.reveal_deadline = None;
        let n = self.players.len();
        let mut i: usize = 0;
        while i < n
            invariant
                n == self.players@.len() == old(self).players@.len(),
                0 <= i <= n,
                *self == (LiarsDiceGame {
                    round: self.round,
                    bid_history: self.bid_history,
                    current_bid: None,
                    liar_caller: None,
                    reveal_deadline: None,
                    players: self.players,
                    ..*old(self)
                }),
                self.round == old(self).round + 1,
                self.bid_history@.len() == 0,
                forall|j: int|
                    0 <= j < i ==> #[trigger] self.players@[j] == (GamePlayer {
                        commitment: None,
                        revealed_dice: None,
                        is_turn: false,
                        ..old(self).players@[j]
                    }),
                forall|j: int| i <= j < n ==> #[trigger] self.players@[j] == old(self).players@[j],
            decreases n - i,
        {
            self.players[i].revealed_dice = None;
            self.players[i].commitment = None;
            self.players[i].is_turn = false;
            i = i + 1;
        }
        proof {
            lemma_counts_pointwise(self.players@, old(self).players@);
        }
        let mut w: usize = 0;
        let mut found: bool = false;
        while w < n && !found
            invariant
                n == self.players@.len(),
                0 <= w <= n,
                forall|j: int|
                    0 <= j < n ==> (#[trigger] self.players@[j]).eliminated == old(
                        self,
                    ).players@[j].eliminated,
                !found ==> forall|j: int| 0 <= j < w ==> (#[trigger] self.players@[j]).eliminated,
                found ==> w < n && !self.players@[w as int].eliminated && forall|j: int|
                    0 <= j < w ==> (#[trigger] self.players@[j]).eliminated,
            decreases n - w + if found {
                0int
            } else {
                1int
            },
        {
            if !self.players[w].eliminated {
                found = true;
            } else {
                w = w + 1;
            }
        }
        proof {
            lemma_counts_pointwise(self.players@, old(self).players@);
            lemma_active_count_witness(self.players@);
            if !found {
                assert(active_count(self.players@) == 0);
                assert(false);
            }
            assert(!old(self).players@[w as int].eliminated);
            assert forall|j: int| 0 <= j < w implies (#[trigger] old(
                self,
            ).players@[j]).eliminated by {
                assert(self.players@[j].eliminated);
            }
            assert(is_first_active_index(old(self).players@, w as int));
            lemma_first_active(old(self).players@);
            assert(first_active_index(old(self).players@) == w as int);
        }
        self.players[w].is_turn = true;
        self.current_turn = w as u8;
        self.phase = GamePhase::Committing;
        proof {
            lemma_counts_pointwise(self.players@, old(self).players@);
        }
    }

    /// Can the round resolve: the reveal phase is done (every active
    /// player revealed, or was marked by the cheat or timeout paths) and
    /// the penalty leaves at least one active player.
    pub open spec fn resolve_guard(self) -> bool {
        &&& self.phase == GamePhase::Revealing
        &&& all_revealed_spec(self.players@)
        &&& active_count(apply_penalty(self.players@, loser_of(self))) >= 1
    }

    /// Resolve the round after all reveals: count the matching dice for
    /// the current bid (wilds included), penalise the loser one die, and
    /// either end the game (one active player left) or start the next
    /// round.  Returns the identity that lost the round.
    pub fn resolve_round(&mut self) -> (r: Option<u64>)
        requires
            old(self).wf(),
            old(self).round < u32::MAX,
        ensures
            final(self).wf(),
            !old(self).resolve_guard() ==> r is None && *final(self) == *old(self),
            old(self).resolve_guard() ==> {
                let pen = apply_penalty(old(self).players@, loser_of(*old(self)));
                &&& r == loser_of(*old(self))
                &&& r is Some && has_player(old(self).players@, r->0)
                &&& sum_dice(final(self).players@) <= sum_dice(old(self).players@)
                &&& (loser_active(*old(self)) ==> sum_dice(final(self).players@) == sum_dice(
                    old(self).players@,
                ) - 1)
                &&& if active_count(pen) == 1 {
                    &&& final(self).phase == GamePhase::GameOver
                    &&& final(self).players@ == crown_winner(pen)
                    &&& final(self).winner == pen[first_active_index(pen)].chain_id
                    &&& final(self).total_dice == sum_dice(pen)
                    &&& final(self).round == old(self).round
                    &&& *final(self) == (LiarsDiceGame {
                        players: final(self).players,
                        winner: final(self).winner,
                        phase: GamePhase::GameOver,
                        total_dice: final(self).total_dice,
                        ..*old(self)
                    })
                } else {
                    &&& final(self).phase == GamePhase::Committing
                    &&& final(self).round == old(self).round + 1
                    &&& final(self).players@.len() == old(self).players@.len()
                    &&& forall|j: int|
                        0 <= j < old(self).players@.len() ==> #[trigger] final(self).players@[j]
                            == (GamePlayer {
                            commitment: None,
                            revealed_dice: None,
                            is_turn: j == first_active_index(pen),
                            ..pen[j]
                        })
                    &&& final(self).current_turn == first_active_index(pen)
                    &&& final(self).current_bid is None
                    &&& final(self).bid_history@.len() == 0
                    &&& final(self).liar_caller is None
                    &&& final(self).reveal_deadline is None
                    &&& final(self).total_dice == sum_dice(pen)
                }
            },
    {
        if !(self.phase == GamePhase::Revealing) {
            return None;
        }
        if !self.all_revealed() {
            return None;
        }
        let bid = match &self.current_bid {
            Some(b) => *b,
            None => {
                return None;
            },
        };
        let actual = self.count_total_dice(bid.face, true);
        let loser: Option<u64> = if actual >= bid.quantity {
            self.liar_caller
        } else {
            bid.bidder
        };
        proof {
            assert(loser == loser_of(*old(self)));
        }
        let loser_idx: Option<usize> = match loser {
            Some(lc) => self.player_index_by_chain(lc),
            None => None,
        };
        let will_penalize = match loser_idx {
            Some(i) => !self.players[i].eliminated,
            None => false,
        };
        proof {
            match loser {
                Some(lc) => {
                    if loser_idx is Some {
                        assert(has_player(self.players@, lc));
                        lemma_player_index(self.players@, lc);
                        assert(player_index_spec(self.players@, lc) == loser_idx->0 as int);
                    }
                    assert(will_penalize == loser_active(*old(self)));
                },
                None => {},
            }
        }
        let active_before = self.active_player_count();
        let eliminates = match loser_idx {
            Some(i) => will_penalize && self.players[i].dice_count == 1,
            None => false,
        };
        let active_after = if eliminates {
            proof {
                lemma_active_count_witness(self.players@);
            }
            active_before - 1
        } else {
            active_before
        };
        proof {
            let pen = apply_penalty(old(self).players@, loser_of(*old(self)));
            if will_penalize {
                let i = loser_idx->0 as int;
                lemma_active_count_update(old(self).players@, i, lose_die_player(old(self).players@[i]));
            }
            assert(active_after == active_count(pen));
        }
        if active_after == 0 {
            return None;
        }
        if will_penalize {
            let i = match loser_idx {
                Some(i) => i,
                None => {
                    return None;
                },
            };
            self.players[i].dice_count = self.players[i].dice_count - 1;
            if self.players[i].dice_count == 0 {
                self.players[i].eliminated = true;
                self.players[i].result = GameResult::Lost;
            }
            proof {
                let upd = self.players@[i as int];
                assert(self.players@ =~= old(self).players@.update(i as int, upd));
                assert(upd =~= lose_die_player(old(self).players@[i as int]));
                lemma_sum_dice_update(old(self).players@, i as int, upd);
            }
        }
        proof {
            assert(self.players@ =~= apply_penalty(old(self).players@, loser_of(*old(self))));
        }
        let ghost pen = self.players@;
        proof {
            assert forall|j: int| 0 <= j < pen.len() implies (#[trigger] pen[j]).wf() by {
                if will_penalize && j == loser_idx->0 as int {
                    assert(pen[j] == lose_die_player(old(self).players@[j]));
                } else {
                    assert(pen[j] == old(self).players@[j]);
                }
            }
            assert forall|j: int|
                0 <= j < pen.len() implies (#[trigger] pen[j]).is_turn == old(
                self,
            ).players@[j].is_turn && pen[j].dice_count <= old(self).players@[j].dice_count by {
                if will_penalize && j == loser_idx->0 as int {
                    assert(pen[j] == lose_die_player(old(self).players@[j]));
                } else {
                    assert(pen[j] == old(self).players@[j]);
                }
            }
            if will_penalize {
                let i = loser_idx->0 as int;
                assert(sum_dice(pen) == sum_dice(old(self).players@) - 1);
            } else {
                assert(pen =~= old(self).players@);
            }
        }
        self.recompute_total_dice();
        proof {
            lemma_actors_still_seated(
                old(self).players@,
                self.players@,
                self.current_bid,
                self.liar_caller,
            );
        }
        let active_now = self.active_player_count();
        if active_now == 1 {
            self.crown();
            proof {
                lemma_first_active(pen);
                assert forall|j: int| 0 <= j < self.players@.len() implies (#[trigger] self.players@[
                    j
                ]).wf() by {
                    if j == first_active_index(pen) {
                        assert(self.players@[j] == (GamePlayer { result: GameResult::Won, ..pen[j] }));
                    } else {
                        assert(self.players@[j] == pen[j]);
                    }
                }
                lemma_actors_still_seated(
                    pen,
                    self.players@,
                    self.current_bid,
                    self.liar_caller,
                );
            }
        } else {
            self.new_round();
            proof {
                lemma_first_active(pen);
            }
        }
        loser
    }
}

impl LiarsDiceGame {
    /// The rating delta the winner earns over the given loser, once the
    /// game is over: K * (actual - expected) / 1000 for the winner's
    /// actual score of 1000 against the loser's rating.
    pub fn winner_rating_delta(&self, loser_chain: u64) -> (r: Option<i32>)
        requires
            self.wf(),
        ensures
            r is Some <==> (self.phase == GamePhase::GameOver && has_player(
                self.players@,
                self.winner->0,
            ) && has_player(self.players@, loser_chain)),
            r matches Some(delta) ==> delta == elo_change_spec(
                self.players@[player_index_spec(self.players@, self.winner->0)].elo as int,
                self.players@[player_index_spec(self.players@, loser_chain)].elo as int,
                true,
            ),
    {
        if !(self.phase == GamePhase::GameOver) {
            return None;
        }
        let winner_chain = match self.winner {
            Some(w) => w,
            None => {
                return None;
            },
        };
        let wi = match self.player_index_by_chain(winner_chain) {
            Some(i) => i,
            None => {
                return None;
            },
        };
        let li = match self.player_index_by_chain(loser_chain) {
            Some(i) => i,
            None => {
                return None;
            },
        };
        proof {
            lemma_player_index(self.players@, winner_chain);
            lemma_player_index(self.players@, loser_chain);
        }
        Some(calculate_elo_change(self.players[wi].elo, self.players[li].elo, true))
    }
}

/// In a well-formed session the accepted bids strictly increase: every
/// later bid in the round's history exceeds every earlier one under the
/// (quantity, face) ordering.
pub proof fn lemma_bid_history_increasing(g: LiarsDiceGame, i: int, j: int)
    requires
        g.wf(),
        0 <= i < j < g.bid_history@.len(),
    ensures
        bid_gt(g.bid_history@[j], g.bid_history@[i]),
    decreases j - i,
{
    if j == i + 1 {
        assert(bid_gt(g.bid_history@[i + 1], g.bid_history@[i]));
    } else {
        lemma_bid_history_increasing(g, i, j - 1);
        assert(bid_gt(g.bid_history@[(j - 1) + 1], g.bid_history@[j - 1]));
        assert(bid_gt(g.bid_history@[j], g.bid_history@[j - 1]));
        lemma_bid_gt_transitive(g.bid_history@[j], g.bid_history@[j - 1], g.bid_history@[i]);
    }
}

/// A player with no dice left is eliminated, and in the committing and
/// bidding phases the turn is held by the seat the session points at.
pub proof fn lemma_no_dice_means_eliminated(g: LiarsDiceGame, i: int)
    requires
        g.wf(),
        0 <= i < g.players@.len(),
    ensures
        g.players@[i].dice_count == 0 ==> g.players@[i].eliminated,
        g.players@[i].is_turn ==> i == g.current_turn as int,
{
}

/// While committing or bidding, the turn is held by exactly one seat,
/// that seat is active, and no eliminated player holds the turn: a
/// player who ran out of dice never regains it.
pub proof fn lemma_eliminated_never_holds_turn(g: LiarsDiceGame, i: int)
    requires
        g.wf(),
        g.phase == GamePhase::Committing || g.phase == GamePhase::Bidding,
        0 <= i < g.players@.len(),
        g.players@[i].eliminated,
    ensures
        !g.players@[i].is_turn,
        g.players@[g.current_turn as int].is_turn,
        forall|j: int|
            0 <= j < g.players@.len() && j != g.current_turn as int ==> !(#[trigger] g.players@[
                j
            ]).is_turn,
{
    assert(!g.players@[g.current_turn as int].eliminated);
}

/// A finished game has exactly one active player and a winner.
pub proof fn lemma_game_over_single_active(g: LiarsDiceGame)
    requires
        g.wf(),
        g.phase == GamePhase::GameOver,
    ensures
        active_count(g.players@) == 1,
        g.winner is Some,
{
}

/// A reveal-phase session has a definite, seated loser: the liar caller
/// and the bidder both entered through the guarded operations, so
/// whichever of them `loser_of` picks is a seated player.  If that seat
/// is still active the penalty strictly decreases the total dice; if
/// not, the seat was zeroed by the cheat, timeout or forfeit path
/// earlier in the same round, which itself decreased them.
pub proof fn lemma_loser_is_seated(g: LiarsDiceGame)
    requires
        g.wf(),
        g.phase == GamePhase::Revealing,
    ensures
        loser_of(g) is Some,
        has_player(g.players@, loser_of(g)->0),
{
}

/// While the round's loser is still active, the one-die penalty strictly
/// decreases the total dice in play and never adds active players, so
/// repeated resolution runs the game down to its winner.
pub proof fn lemma_penalty_decreases(g: LiarsDiceGame)
    requires
        g.wf(),
        loser_active(g),
    ensures
        sum_dice(apply_penalty(g.players@, loser_of(g))) == sum_dice(g.players@) - 1,
        active_count(apply_penalty(g.players@, loser_of(g))) <= active_count(g.players@),
{
    let lc = loser_of(g)->0;
    let i = player_index_spec(g.players@, lc);
    lemma_player_index(g.players@, lc);
    let p = g.players@[i];
    assert(p.wf());
    assert(p.dice_count >= 1);
    lemma_sum_dice_update(g.players@, i, lose_die_player(p));
    lemma_active_count_update(g.players@, i, lose_die_player(p));
}

/// Matching dice across a roster stay within a full hand per seat.
pub proof fn lemma_count_total_bound(players: Seq<GamePlayer>)
    requires
        forall|i: int|
            0 <= i < players.len() ==> ((#[trigger] players[i]).revealed_dice matches Some(h)
                ==> h.wf() && h.count <= STARTING_DICE),
    ensures
        0 <= count_total_spec(players, arbitrary(), arbitrary()) <= players.len() * STARTING_DICE,
        forall|face: DiceValue, w: bool|
            0 <= #[trigger] count_total_spec(players, face, w) <= players.len() * STARTING_DICE,
    decreases players.len(),
{
    assert forall|face: DiceValue, w: bool|
        0 <= #[trigger] count_total_spec(players, face, w) <= players.len()
            * STARTING_DICE by {
        lemma_count_total_bound_one(players, face, w);
    }
    lemma_count_total_bound_one(players, arbitrary(), arbitrary());
}

proof fn lemma_count_total_bound_one(players: Seq<GamePlayer>, face: DiceValue, w: bool)
    requires
        forall|i: int|
            0 <= i < players.len() ==> ((#[trigger] players[i]).revealed_dice matches Some(h)
                ==> h.wf() && h.count <= STARTING_DICE),
    ensures
        0 <= count_total_spec(players, face, w) <= players.len() * STARTING_DICE,
    decreases players.len(),
{
    if players.len() > 0 {
        lemma_count_total_bound_one(players.drop_last(), face, w);
        let p = players.last();
        if !p.eliminated && p.revealed_dice is Some {
            crate::dice::lemma_count_matching_le_len(p.revealed_dice->0.dice@, face, w);
        }
        assert((players.len() - 1) * STARTING_DICE + STARTING_DICE == players.len()
            * STARTING_DICE) by (nonlinear_arith);
    }
}

} // verus!
