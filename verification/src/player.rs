//! Player profiles, lifetime statistics and the ELO rating engine.
//!
//! The rating engine is pure integer arithmetic: the expected score is a
//! piecewise-linear approximation of the logistic curve, scaled by 1000,
//! so no real-valued exponentiation is needed.

use vstd::prelude::*;
use vstd::arithmetic::div_mod::lemma_div_is_ordered;

verus! {

/// Starting ELO rating for new players.
pub const STARTING_ELO: u32 = 1200;

/// User status in the system.
#[derive(Clone, Copy, Debug, PartialEq, Eq, Structural)]
pub enum UserStatus {
    Idle,
    FindingMatch,
    InQueue,
    InGame { game_chain: u64 },
    SpectatingGame { game_chain: u64 },
}

/// Lifetime statistics for a player.  Token amounts are held as raw
/// minimal units.
#[derive(Clone, Copy, Debug, PartialEq, Eq, Structural)]
pub struct PlayerLifetimeStats {
    pub games_played: u64,
    pub games_won: u64,
    pub rounds_played: u64,
    pub rounds_won: u64,
    pub successful_liar_calls: u64,
    pub failed_liar_calls: u64,
    /// Successful bluffs (opponent called liar incorrectly).
    pub successful_bluffs: u64,
    pub current_win_streak: u64,
    pub best_win_streak: u64,
    pub peak_elo: u32,
    /// Total tokens won.
    pub total_won: u128,
    /// Total tokens lost.
    pub total_lost: u128,
}

impl Default for PlayerLifetimeStats {
    fn default() -> (r: Self)
        ensures
            r == PlayerLifetimeStats::zeroed(),
    {
        PlayerLifetimeStats {
            games_played: 0,
            games_won: 0,
            rounds_played: 0,
            rounds_won: 0,
            successful_liar_calls: 0,
            failed_liar_calls: 0,
            successful_bluffs: 0,
            current_win_streak: 0,
            best_win_streak: 0,
            peak_elo: 0,
            total_won: 0,
            total_lost: 0,
        }
    }
}

/// Win rate in basis points: 10000 means every game won.
pub open spec fn win_rate_bps_spec(games_won: u64, games_played: u64) -> int {
    if games_played == 0 {
        0
    } else {
        (games_won * 10000) / (games_played as int)
    }
}

/// A ratio of two counters in basis points is at most 10000 when the
/// numerator does not exceed the denominator.
pub proof fn lemma_bps_bounded(num: u64, den: u64)
    requires
        num <= den,
        den > 0,
    ensures
        0 <= (num * 10000) / (den as int) <= 10000,
{
    assert(num * 10000 <= den * 10000) by (nonlinear_arith)
        requires
            num <= den,
    ;
    lemma_div_is_ordered(0, num * 10000, den as int);
    lemma_div_is_ordered(num * 10000, den * 10000, den as int);
    assert((den * 10000) / (den as int) == 10000) by (nonlinear_arith)
        requires
            den > 0,
    ;
}

impl PlayerLifetimeStats {
    pub open spec fn zeroed() -> Self {
        PlayerLifetimeStats {
            games_played: 0,
            games_won: 0,
            rounds_played: 0,
            rounds_won: 0,
            successful_liar_calls: 0,
            failed_liar_calls: 0,
            successful_bluffs: 0,
            current_win_streak: 0,
            best_win_streak: 0,
            peak_elo: 0,
            total_won: 0,
            total_lost: 0,
        }
    }

    /// Counters that are ratios of each other stay consistent.
    pub open spec fn wf(self) -> bool {
        self.games_won <= self.games_played
    }

    pub fn record_game(&mut self, won: bool, rounds: u64)
        requires
            old(self).games_played < u64::MAX,
            old(self).rounds_played + rounds <= u64::MAX,
            won ==> old(self).games_won < u64::MAX,
            won ==> old(self).current_win_streak < u64::MAX,
        ensures
            final(self).games_played == old(self).games_played + 1,
            final(self).rounds_played == old(self).rounds_played + rounds,
            won ==> final(self).games_won == old(self).games_won + 1,
            won ==> final(self).current_win_streak == old(self).current_win_streak + 1,
            won ==> final(self).best_win_streak == if old(self).current_win_streak + 1 > old(
                self,
            ).best_win_streak {
                old(self).current_win_streak + 1
            } else {
                old(self).best_win_streak as int
            },
            !won ==> final(self).games_won == old(self).games_won,
            !won ==> final(self).current_win_streak == 0,
            !won ==> final(self).best_win_streak == old(self).best_win_streak,
            final(self).rounds_won == old(self).rounds_won,
            final(self).successful_liar_calls == old(self).successful_liar_calls,
            final(self).failed_liar_calls == old(self).failed_liar_calls,
            final(self).successful_bluffs == old(self).successful_bluffs,
            final(self).peak_elo == old(self).peak_elo,
            final(self).total_won == old(self).total_won,
            final(self).total_lost == old(self).total_lost,
            old(self).wf() ==> final(self).wf(),
    {
        self.games_played = self.games_played + 1;
        self.rounds_played = self.rounds_played + rounds;
        if won {
            self.games_won = self.games_won + 1;
            self.current_win_streak = self.current_win_streak + 1;
            if self.current_win_streak > self.best_win_streak {
                self.best_win_streak = self.current_win_streak;
            }
        } else {
            self.current_win_streak = 0;
        }
    }

    pub fn record_round_win(&mut self)
        requires
            old(self).rounds_won < u64::MAX,
        ensures
            *final(self) == (PlayerLifetimeStats {
                rounds_won: (old(self).rounds_won + 1) as u64,
                ..*old(self)
            }),
    {
        self.rounds_won = self.rounds_won + 1;
    }

    pub fn record_liar_call(&mut self, successful: bool)
        requires
            successful ==> old(self).successful_liar_calls < u64::MAX,
            !successful ==> old(self).failed_liar_calls < u64::MAX,
        ensures
            successful ==> *final(self) == (PlayerLifetimeStats {
                successful_liar_calls: (old(self).successful_liar_calls + 1) as u64,
                ..*old(self)
            }),
            !successful ==> *final(self) == (PlayerLifetimeStats {
                failed_liar_calls: (old(self).failed_liar_calls + 1) as u64,
                ..*old(self)
            }),
    {
        if successful {
            self.successful_liar_calls = self.successful_liar_calls + 1;
        } else {
            self.failed_liar_calls = self.failed_liar_calls + 1;
        }
    }

    pub fn record_bluff(&mut self, successful: bool)
        requires
            successful ==> old(self).successful_bluffs < u64::MAX,
        ensures
            successful ==> *final(self) == (PlayerLifetimeStats {
                successful_bluffs: (old(self).successful_bluffs + 1) as u64,
                ..*old(self)
            }),
            !successful ==> *final(self) == *old(self),
    {
        if successful {
            self.successful_bluffs = self.successful_bluffs + 1;
        }
    }

    pub fn update_peak_elo(&mut self, current_elo: u32)
        ensures
            current_elo > old(self).peak_elo ==> *final(self) == (PlayerLifetimeStats {
                peak_elo: current_elo,
                ..*old(self)
            }),
            current_elo <= old(self).peak_elo ==> *final(self) == *old(self),
            final(self).peak_elo >= current_elo,
            final(self).peak_elo >= old(self).peak_elo,
    {
        if current_elo > self.peak_elo {
            self.peak_elo = current_elo;
        }
    }

    /// Add a settled amount to the winnings or losses, saturating at the
    /// counter's capacity.
    pub fn record_win_loss(&mut self, amount: u128, won: bool)
        ensures
            won ==> final(self).total_won == if old(self).total_won + amount <= u128::MAX {
                old(self).total_won + amount
            } else {
                u128::MAX as int
            },
            won ==> final(self).total_lost == old(self).total_lost,
            !won ==> final(self).total_lost == if old(self).total_lost + amount <= u128::MAX {
                old(self).total_lost + amount
            } else {
                u128::MAX as int
            },
            !won ==> final(self).total_won == old(self).total_won,
            final(self).games_played == old(self).games_played,
            final(self).games_won == old(self).games_won,
            final(self).rounds_played == old(self).rounds_played,
            final(self).rounds_won == old(self).rounds_won,
            final(self).successful_liar_calls == old(self).successful_liar_calls,
            final(self).failed_liar_calls == old(self).failed_liar_calls,
            final(self).successful_bluffs == old(self).successful_bluffs,
            final(self).current_win_streak == old(self).current_win_streak,
            final(self).best_win_streak == old(self).best_win_streak,
            final(self).peak_elo == old(self).peak_elo,
    {
        if won {
            if amount <= u128::MAX - self.total_won {
                self.total_won = self.total_won + amount;
            } else {
                self.total_won = u128::MAX;
            }
        } else {
            if amount <= u128::MAX - self.total_lost {
                self.total_lost = self.total_lost + amount;
            } else {
                self.total_lost = u128::MAX;
            }
        }
    }

    /// Win rate as basis points (10000 = 100%).
    pub fn win_rate_bps(&self) -> (r: u64)
        requires
            self.wf(),
        ensures
            r == win_rate_bps_spec(self.games_won, self.games_played),
            r <= 10000,
    {
        if self.games_played == 0 {
            0
        } else {
            proof {
                lemma_bps_bounded(self.games_won, self.games_played);
            }
            (((self.games_won as u128) * 10000) / (self.games_played as u128)) as u64
        }
    }

    /// Liar-call accuracy as basis points of all liar calls made.
    pub fn liar_call_accuracy_bps(&self) -> (r: u64)
        ensures
            r == liar_call_accuracy_bps_spec(self.successful_liar_calls, self.failed_liar_calls),
            r <= 10000,
    {
        let total: u128 = self.successful_liar_calls as u128 + self.failed_liar_calls as u128;
        if total == 0 {
            0
        } else {
            proof {
                lemma_bps_accuracy_bounded(
                    self.successful_liar_calls,
                    self.failed_liar_calls,
                );
            }
            (((self.successful_liar_calls as u128) * 10000) / total) as u64
        }
    }
}

/// Liar-call accuracy in basis points over all calls made.
pub open spec fn liar_call_accuracy_bps_spec(successful: u64, failed: u64) -> int {
    if successful + failed == 0 {
        0
    } else {
        (successful * 10000) / (successful + failed)
    }
}

proof fn lemma_bps_accuracy_bounded(successful: u64, failed: u64)
    requires
        successful + failed > 0,
    ensures
        0 <= (successful * 10000) / (successful + failed) <= 10000,
{
    let total = successful + failed;
    assert(successful * 10000 <= total * 10000) by (nonlinear_arith)
        requires
            successful <= total,
    ;
    lemma_div_is_ordered(0, successful * 10000, total);
    lemma_div_is_ordered(successful * 10000, total * 10000, total);
    assert((total * 10000) / total == 10000) by (nonlinear_arith)
        requires
            total > 0,
    ;
}

/// Expected score of a player against an opponent, scaled by 1000: a
/// piecewise-linear interpolation of 1/(1 + 10^((opponent-player)/400))
/// over anchors at rating gaps 0, 100, 200, 400 and 800.  The curve is
/// continuous, non-increasing in the gap, and symmetric: the two sides
/// of a pairing always share the 1000 points.
pub open spec fn expected_score_spec(player_elo: int, opponent_elo: int) -> int {
    let diff = opponent_elo - player_elo;
    if diff <= -800 {
        990
    } else if diff <= -400 {
        909 + ((-(diff + 400)) * 81) / 400
    } else if diff <= -200 {
        759 + ((-(diff + 200)) * 150) / 200
    } else if diff <= -100 {
        640 + ((-(diff + 100)) * 119) / 100
    } else if diff <= 0 {
        500 + ((-diff) * 140) / 100
    } else if diff <= 100 {
        500 - (diff * 140) / 100
    } else if diff <= 200 {
        360 - ((diff - 100) * 119) / 100
    } else if diff <= 400 {
        241 - ((diff - 200) * 150) / 200
    } else if diff <= 800 {
        91 - ((diff - 400) * 81) / 400
    } else {
        10
    }
}

/// One linear-interpolation segment: `(m * num) / den` for `m` within the
/// segment's width is bounded by the segment's full rise.
proof fn lemma_segment_bound(m: int, num: int, den: int, width: int)
    requires
        0 <= m <= width,
        0 < num,
        0 < den,
    ensures
        0 <= (m * num) / den <= (width * num) / den,
{
    assert(m * num <= width * num) by (nonlinear_arith)
        requires
            0 <= m <= width,
            0 < num,
    ;
    assert(0 <= m * num) by (nonlinear_arith)
        requires
            0 <= m,
            0 < num,
    ;
    lemma_div_is_ordered(0, m * num, den);
    lemma_div_is_ordered(m * num, width * num, den);
}

/// Calculate the expected score (win probability) scaled by 1000, using
/// the piecewise-linear approximation.
pub fn expected_score_scaled(player_elo: u32, opponent_elo: u32) -> (r: i32)
    ensures
        r == expected_score_spec(player_elo as int, opponent_elo as int),
        10 <= r <= 990,
{
    let diff: i64 = opponent_elo as i64 - player_elo as i64;
    if diff <= -800 {
        990
    } else if diff <= -400 {
        let m: u64 = (-(diff + 400)) as u64;
        proof {
            lemma_segment_bound(m as int, 81, 400, 400);
        }
        (909 + ((m * 81) / 400) as i64) as i32
    } else if diff <= -200 {
        let m: u64 = (-(diff + 200)) as u64;
        proof {
            lemma_segment_bound(m as int, 150, 200, 200);
        }
        (759 + ((m * 150) / 200) as i64) as i32
    } else if diff <= -100 {
        let m: u64 = (-(diff + 100)) as u64;
        proof {
            lemma_segment_bound(m as int, 119, 100, 100);
        }
        (640 + ((m * 119) / 100) as i64) as i32
    } else if diff <= 0 {
        let m: u64 = (-diff) as u64;
        proof {
            lemma_segment_bound(m as int, 140, 100, 100);
        }
        (500 + ((m * 140) / 100) as i64) as i32
    } else if diff <= 100 {
        let m: u64 = diff as u64;
        proof {
            lemma_segment_bound(m as int, 140, 100, 100);
        }
        (500 - ((m * 140) / 100) as i64) as i32
    } else if diff <= 200 {
        let m: u64 = (diff - 100) as u64;
        proof {
            lemma_segment_bound(m as int, 119, 100, 100);
        }
        (360 - ((m * 119) / 100) as i64) as i32
    } else if diff <= 400 {
        let m: u64 = (diff - 200) as u64;
        proof {
            lemma_segment_bound(m as int, 150, 200, 200);
        }
        (241 - ((m * 150) / 200) as i64) as i32
    } else if diff <= 800 {
        let m: u64 = (diff - 400) as u64;
        proof {
            lemma_segment_bound(m as int, 81, 400, 400);
        }
        (91 - ((m * 81) / 400) as i64) as i32
    } else {
        10
    }
}

proof fn lemma_mul_div_mono(m1: int, m2: int, num: int, den: int)
    requires
        0 <= m1 <= m2,
        0 < num,
        0 < den,
    ensures
        (m1 * num) / den <= (m2 * num) / den,
{
    assert(m1 * num <= m2 * num) by (nonlinear_arith)
        requires
            0 <= m1 <= m2,
            0 < num,
    ;
    lemma_div_is_ordered(m1 * num, m2 * num, den);
}

/// The expected score stays within its segment's anchors, segment by
/// segment over the rating gap.
proof fn lemma_expected_bounds(player: int, opponent: int)
    ensures
        ({
            let d = opponent - player;
            let e = expected_score_spec(player, opponent);
            &&& (d <= -800 ==> e == 990)
            &&& (-800 < d <= -400 ==> 909 <= e <= 990)
            &&& (-400 < d <= -200 ==> 759 <= e <= 909)
            &&& (-200 < d <= -100 ==> 640 <= e <= 759)
            &&& (-100 < d <= 0 ==> 500 <= e <= 640)
            &&& (0 < d <= 100 ==> 360 <= e <= 500)
            &&& (100 < d <= 200 ==> 241 <= e <= 360)
            &&& (200 < d <= 400 ==> 91 <= e <= 241)
            &&& (400 < d <= 800 ==> 10 <= e <= 91)
            &&& (800 < d ==> e == 10)
        }),
{
    let d = opponent - player;
    if -800 < d <= -400 {
        lemma_segment_bound(-(d + 400), 81, 400, 400);
    } else if -400 < d <= -200 {
        lemma_segment_bound(-(d + 200), 150, 200, 200);
    } else if -200 < d <= -100 {
        lemma_segment_bound(-(d + 100), 119, 100, 100);
    } else if -100 < d <= 0 {
        lemma_segment_bound(-d, 140, 100, 100);
    } else if 0 < d <= 100 {
        lemma_segment_bound(d, 140, 100, 100);
    } else if 100 < d <= 200 {
        lemma_segment_bound(d - 100, 119, 100, 100);
    } else if 200 < d <= 400 {
        lemma_segment_bound(d - 200, 150, 200, 200);
    } else if 400 < d <= 800 {
        lemma_segment_bound(d - 400, 81, 400, 400);
    }
}

/// The expected score never rises as the rating gap grows: a stronger
/// opponent never improves the player's chances.  Together with the
/// per-segment bounds this pins the interpolation as continuous and
/// monotone.
pub proof fn lemma_expected_score_monotonic(player: int, opp1: int, opp2: int)
    requires
        opp1 <= opp2,
    ensures
        expected_score_spec(player, opp1) >= expected_score_spec(player, opp2),
{
    let d1 = opp1 - player;
    let d2 = opp2 - player;
    lemma_expected_bounds(player, opp1);
    lemma_expected_bounds(player, opp2);
    if d1 <= -800 || 800 < d2 {
        // an end segment bounds the other side
    } else if -800 < d1 <= -400 && -800 < d2 <= -400 {
        lemma_mul_div_mono(-(d2 + 400), -(d1 + 400), 81, 400);
    } else if -400 < d1 <= -200 && -400 < d2 <= -200 {
        lemma_mul_div_mono(-(d2 + 200), -(d1 + 200), 150, 200);
    } else if -200 < d1 <= -100 && -200 < d2 <= -100 {
        lemma_mul_div_mono(-(d2 + 100), -(d1 + 100), 119, 100);
    } else if -100 < d1 <= 0 && -100 < d2 <= 0 {
        lemma_mul_div_mono(-d2, -d1, 140, 100);
    } else if 0 < d1 <= 100 && 0 < d2 <= 100 {
        lemma_mul_div_mono(d1, d2, 140, 100);
    } else if 100 < d1 <= 200 && 100 < d2 <= 200 {
        lemma_mul_div_mono(d1 - 100, d2 - 100, 119, 100);
    } else if 200 < d1 <= 400 && 200 < d2 <= 400 {
        lemma_mul_div_mono(d1 - 200, d2 - 200, 150, 200);
    } else if 400 < d1 <= 800 && 400 < d2 <= 800 {
        lemma_mul_div_mono(d1 - 400, d2 - 400, 81, 400);
    }
}

/// The two sides of a pairing always share the 1000 points: the
/// expected scores of a player and their opponent sum to the whole
/// scale, on every rating gap.
pub proof fn lemma_expected_score_symmetric(a: int, b: int)
    ensures
        expected_score_spec(a, b) + expected_score_spec(b, a) == 1000,
{
}

/// Rating change for a match: K * (actual - expected) / 1000 with K = 32
/// and actual in {0, 1000}.
pub open spec fn elo_change_spec(player_elo: int, opponent_elo: int, won: bool) -> int {
    let expected = expected_score_spec(player_elo, opponent_elo);
    if won {
        (32 * (1000 - expected)) / 1000
    } else {
        -((32 * expected) / 1000)
    }
}

/// Calculate the ELO change for a match, in integer arithmetic.
pub fn calculate_elo_change(player_elo: u32, opponent_elo: u32, won: bool) -> (r: i32)
    ensures
        r == elo_change_spec(player_elo as int, opponent_elo as int, won),
        won ==> 0 <= r <= 32,
        !won ==> -32 <= r <= 0,
{
    let expected = expected_score_scaled(player_elo, opponent_elo);
    if won {
        let num: u64 = (32 * (1000 - expected)) as u64;
        proof {
            lemma_div_is_ordered(0, num as int, 1000);
            lemma_div_is_ordered(num as int, 32000, 1000);
        }
        ((num / 1000) as i32)
    } else {
        let num: u64 = (32 * expected) as u64;
        proof {
            lemma_div_is_ordered(0, num as int, 1000);
            lemma_div_is_ordered(num as int, 32000, 1000);
        }
        -((num / 1000) as i32)
    }
}

/// Player profile with stats and ELO.
#[derive(Clone, Debug)]
pub struct PlayerProfile {
    pub chain_id: Option<u64>,
    pub owner: Option<u64>,
    pub name: String,
    pub avatar_url: Option<String>,
    /// Current ELO rating.
    pub elo: u32,
    /// Lifetime statistics.
    pub stats: PlayerLifetimeStats,
    /// Current status.
    pub status: UserStatus,
    pub created_at: Option<u64>,
    pub last_active: Option<u64>,
}

impl PlayerProfile {
    pub fn new(chain_id: u64, owner: u64, name: String, timestamp: u64) -> (r: Self)
        ensures
            r.chain_id == Some(chain_id),
            r.owner == Some(owner),
            r.name == name,
            r.avatar_url is None,
            r.elo == STARTING_ELO,
            r.stats == PlayerLifetimeStats::zeroed(),
            r.status == UserStatus::Idle,
            r.created_at == Some(timestamp),
            r.last_active == Some(timestamp),
    {
        PlayerProfile {
            chain_id: Some(chain_id),
            owner: Some(owner),
            name,
            avatar_url: None,
            elo: STARTING_ELO,
            stats: PlayerLifetimeStats::default(),
            status: UserStatus::Idle,
            created_at: Some(timestamp),
            last_active: Some(timestamp),
        }
    }

    pub fn update_last_active(&mut self, timestamp: u64)
        ensures
            *final(self) == (PlayerProfile { last_active: Some(timestamp), ..*old(self) }),
    {
        self.last_active = Some(timestamp);
    }

    pub fn set_status(&mut self, status: UserStatus)
        ensures
            *final(self) == (PlayerProfile { status, ..*old(self) }),
    {
        self.status = status;
    }

    /// Update ELO after a match, flooring the rating at 100.  Returns the
    /// ELO change (positive for gain, negative for loss).
    pub fn update_elo_after_match(&mut self, opponent_elo: u32, won: bool) -> (r: i32)
        requires
            old(self).elo <= u32::MAX - 32,
        ensures
            r == elo_change_spec(old(self).elo as int, opponent_elo as int, won),
            final(self).elo == if old(self).elo + r >= 100 {
                old(self).elo + r
            } else {
                100int
            },
            final(self).elo >= 100,
            *final(self) == (PlayerProfile { elo: final(self).elo, ..*old(self) }),
    {
        let change = calculate_elo_change(self.elo, opponent_elo, won);
        let raw: i64 = self.elo as i64 + change as i64;
        if raw >= 100 {
            self.elo = raw as u32;
        } else {
            self.elo = 100;
        }
        change
    }
}

/// Queued player for matchmaking.
#[derive(Clone, Debug)]
pub struct QueuedPlayer {
    pub chain_id: u64,
    pub owner: u64,
    pub name: String,
    pub elo: u32,
    pub queued_at: u64,
}

impl QueuedPlayer {
    pub fn new(chain_id: u64, owner: u64, name: String, elo: u32, timestamp: u64) -> (r: Self)
        ensures
            r.chain_id == chain_id,
            r.owner == owner,
            r.name == name,
            r.elo == elo,
            r.queued_at == timestamp,
    {
        QueuedPlayer { chain_id, owner, name, elo, queued_at: timestamp }
    }

    /// Absolute rating difference to another queued player.
    pub fn elo_distance(&self, other: &QueuedPlayer) -> (r: u32)
        ensures
            r == if self.elo > other.elo {
                self.elo - other.elo
            } else {
                other.elo - self.elo
            },
    {
        if self.elo > other.elo {
            self.elo - other.elo
        } else {
            other.elo - self.elo
        }
    }
}

} // verus!
