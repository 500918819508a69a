//! The leaderboard aggregator: a pure ranking of player records under a
//! selectable metric, and the incremental per-game update of the simple
//! leaderboard.
//!
//! Ranking is a stable descending sort: entries sort strictly descending
//! by metric value with ties broken by input order, ranks are assigned
//! 1-based by position, and an optional limit truncates the tail without
//! reordering the retained prefix.

use vstd::prelude::*;
use vstd::seq_lib::group_to_multiset_ensures;
use crate::player::PlayerLifetimeStats;
use crate::player::lemma_bps_bounded;
use crate::player::liar_call_accuracy_bps_spec;
use crate::player::win_rate_bps_spec;

verus! {

broadcast use group_to_multiset_ensures;

/// Offset that maps signed profit/loss onto an unsigned scale with
/// profits above the midpoint and losses below it, so the ordering is
/// total without signed comparisons.
pub const RANKING_MIDPOINT: u128 = 1u128 << 127;

#[derive(Clone, Copy, Debug, PartialEq, Eq, Structural)]
pub enum RankingMetric {
    /// ELO rating (primary ranking).
    Elo,
    /// Net profit on the midpoint-centred scale.
    NetProfit,
    /// Total winnings.
    TotalWinnings,
    /// Win rate in basis points.
    WinRate,
    /// Total games played.
    GamesPlayed,
    /// Current win streak.
    CurrentStreak,
    /// Successful liar-call rate in basis points.
    LiarCallAccuracy,
}

/// The value a player ranks by under a metric.
pub open spec fn metric_spec(metric: RankingMetric, stats: PlayerLifetimeStats, elo: u32) -> u128 {
    match metric {
        RankingMetric::Elo => elo as u128,
        RankingMetric::NetProfit => if stats.total_won >= stats.total_lost {
            let profit = (stats.total_won - stats.total_lost) as u128;
            if profit <= u128::MAX - RANKING_MIDPOINT {
                (RANKING_MIDPOINT + profit) as u128
            } else {
                u128::MAX
            }
        } else {
            let loss = (stats.total_lost - stats.total_won) as u128;
            if loss <= RANKING_MIDPOINT - 1 {
                (RANKING_MIDPOINT - 1 - loss) as u128
            } else {
                0
            }
        },
        RankingMetric::TotalWinnings => stats.total_won,
        RankingMetric::WinRate => win_rate_bps_spec(stats.games_won, stats.games_played) as u128,
        RankingMetric::GamesPlayed => stats.games_played as u128,
        RankingMetric::CurrentStreak => stats.current_win_streak as u128,
        RankingMetric::LiarCallAccuracy => liar_call_accuracy_bps_spec(
            stats.successful_liar_calls,
            stats.failed_liar_calls,
        ) as u128,
    }
}

impl RankingMetric {
    /// Calculate the metric value for ranking purposes.
    pub fn calculate_value(&self, stats: &PlayerLifetimeStats, elo: u32) -> (r: u128)
        requires
            stats.wf(),
        ensures
            r == metric_spec(*self, *stats, elo),
    {
        match self {
            RankingMetric::Elo => elo as u128,
            RankingMetric::NetProfit => {
                if stats.total_won >= stats.total_lost {
                    let profit = stats.total_won - stats.total_lost;
                    if profit <= u128::MAX - RANKING_MIDPOINT {
                        RANKING_MIDPOINT + profit
                    } else {
                        u128::MAX
                    }
                } else {
                    let loss = stats.total_lost - stats.total_won;
                    proof {
                        assert(RANKING_MIDPOINT >= 1) by {
                            assert(1u128 << 127 >= 1) by (bit_vector);
                        }
                    }
                    if loss <= RANKING_MIDPOINT - 1 {
                        RANKING_MIDPOINT - 1 - loss
                    } else {
                        0
                    }
                }
            },
            RankingMetric::TotalWinnings => stats.total_won,
            RankingMetric::WinRate => stats.win_rate_bps() as u128,
            RankingMetric::GamesPlayed => stats.games_played as u128,
            RankingMetric::CurrentStreak => stats.current_win_streak as u128,
            RankingMetric::LiarCallAccuracy => stats.liar_call_accuracy_bps() as u128,
        }
    }
}

/// A single entry in the full leaderboard.
#[derive(Clone, Debug)]
pub struct LeaderboardEntry {
    pub player_id: Option<u64>,
    pub player_name: String,
    pub rank: u32,
    pub metric_type: RankingMetric,
    pub elo: u32,
    pub peak_elo: u32,
    pub games_played: u64,
    pub games_won: u64,
    /// Basis points (0-10000).
    pub win_rate: u64,
    /// Net profit magnitude with its sign flag.
    pub net_profit_amount: u128,
    pub is_profit: bool,
    pub successful_liar_calls: u64,
    /// Basis points.
    pub liar_call_accuracy: u64,
    pub successful_bluffs: u64,
    pub current_streak: u64,
    pub best_streak: u64,
}

/// One ranking record: identity, display name, rating and lifetime
/// stats.
pub type PlayerRecord = (u64, String, u32, PlayerLifetimeStats);

/// The key a record ranks by.
pub open spec fn record_key(metric: RankingMetric, rec: PlayerRecord) -> u128 {
    metric_spec(metric, rec.3, rec.2)
}

/// The signed net profit of a stats record, as magnitude and sign.
pub open spec fn net_profit_of(stats: PlayerLifetimeStats) -> (u128, bool) {
    if stats.total_won >= stats.total_lost {
        ((stats.total_won - stats.total_lost) as u128, true)
    } else {
        ((stats.total_lost - stats.total_won) as u128, false)
    }
}

/// The leaderboard entry built from a record at a given rank.
pub open spec fn entry_of(rec: PlayerRecord, metric: RankingMetric, rank: u32) -> LeaderboardEntry {
    LeaderboardEntry {
        player_id: Some(rec.0),
        player_name: rec.1,
        rank,
        metric_type: metric,
        elo: rec.2,
        peak_elo: rec.3.peak_elo,
        games_played: rec.3.games_played,
        games_won: rec.3.games_won,
        win_rate: win_rate_bps_spec(rec.3.games_won, rec.3.games_played) as u64,
        net_profit_amount: net_profit_of(rec.3).0,
        is_profit: net_profit_of(rec.3).1,
        successful_liar_calls: rec.3.successful_liar_calls,
        liar_call_accuracy: liar_call_accuracy_bps_spec(
            rec.3.successful_liar_calls,
            rec.3.failed_liar_calls,
        ) as u64,
        successful_bluffs: rec.3.successful_bluffs,
        current_streak: rec.3.current_win_streak,
        best_streak: rec.3.best_win_streak,
    }
}

/// Calculate the net profit tuple from stats.
fn calculate_net_profit_tuple(stats: &PlayerLifetimeStats) -> (r: (u128, bool))
    ensures
        r == net_profit_of(*stats),
{
    if stats.total_won >= stats.total_lost {
        (stats.total_won - stats.total_lost, true)
    } else {
        (stats.total_lost - stats.total_won, false)
    }
}

/// A sortable key: the metric value of the record at input position
/// `pos`.
#[derive(Clone, Copy, Debug)]
pub struct SortKey {
    pub key: u128,
    pub pos: usize,
}

/// The stable descending order: a higher key comes first; equal keys
/// keep input order.
pub open spec fn key_before(a: SortKey, b: SortKey) -> bool {
    a.key > b.key || (a.key == b.key && a.pos < b.pos)
}

fn key_before_exec(a: &SortKey, b: &SortKey) -> (r: bool)
    ensures
        r == key_before(*a, *b),
{
    a.key > b.key || (a.key == b.key && a.pos < b.pos)
}

/// Inserting an element anywhere in a sequence inserts it into the
/// sequence's multiset.
proof fn lemma_insert_to_multiset(s: Seq<SortKey>, i: int, x: SortKey)
    requires
        0 <= i <= s.len(),
    ensures
        s.insert(i, x).to_multiset() =~= s.to_multiset().insert(x),
{
    let t = s.insert(i, x);
    assert(t[i] == x);
    assert(t.remove(i) =~= s);
    assert(t.remove(i).to_multiset() =~= t.to_multiset().remove(t[i]));
    assert(t.contains(x));
    assert(t.to_multiset().count(x) > 0);
    assert forall|y: SortKey| t.to_multiset().count(y) == s.to_multiset().insert(x).count(
        y,
    ) by {
        if y == x {
            assert(s.to_multiset().count(x) == t.to_multiset().remove(x).count(x));
        }
    }
    assert(t.to_multiset() =~= s.to_multiset().insert(x));
}

/// Stable insertion sort over sort keys.  The result is a permutation of
/// the input, strictly ordered by descending key with input position as
/// tie-break.
fn sort_keys(keys: &Vec<SortKey>) -> (r: Vec<SortKey>)
    requires
        forall|i: int| 0 <= i < keys@.len() ==> (#[trigger] keys@[i]).pos == i,
    ensures
        r@.len() == keys@.len(),
        r@.to_multiset() == keys@.to_multiset(),
        forall|a: int, b: int| 0 <= a < b < r@.len() ==> key_before(r@[a], r@[b]),
{
    let n = keys.len();
    let mut out: Vec<SortKey> = Vec::new();
    let mut k: usize = 0;
    while k < n
        invariant
            n == keys@.len(),
            0 <= k <= n,
            forall|i: int| 0 <= i < n ==> (#[trigger] keys@[i]).pos == i,
            out@.len() == k,
            out@.to_multiset() == keys@.subrange(0, k as int).to_multiset(),
            forall|a: int, b: int| 0 <= a < b < out@.len() ==> key_before(out@[a], out@[b]),
            forall|a: int| 0 <= a < out@.len() ==> (#[trigger] out@[a]).pos < k,
        decreases n - k,
    {
        let x = keys[k];
        let mut i: usize = 0;
        let mut stop = false;
        while i < out.len() && !stop
            invariant
                0 <= i <= out@.len(),
                forall|j: int| 0 <= j < i ==> key_before(#[trigger] out@[j], x),
                stop ==> i < out@.len() && !key_before(out@[i as int], x),
            decreases out@.len() - i + if stop {
                0int
            } else {
                1int
            },
        {
            if key_before_exec(&out[i], &x) {
                i = i + 1;
            } else {
                stop = true;
            }
        }
        let ghost pre = out@;
        out.insert(i, x);
        proof {
            lemma_insert_to_multiset(pre, i as int, x);
            assert(keys@.subrange(0, k + 1).drop_last() =~= keys@.subrange(0, k as int));
            assert(keys@.subrange(0, k + 1) =~= keys@.subrange(0, k as int).push(x));
            assert(out@.to_multiset() =~= keys@.subrange(0, k + 1).to_multiset());
            // the inserted element is ordered against its neighbours
            if (i as int) < pre.len() {
                let e = pre[i as int];
                assert(!key_before(e, x));
                assert(e.pos < k == x.pos);
                assert(e.key < x.key || (e.key == x.key && e.pos < x.pos)) by {
                    if e.key > x.key {
                        assert(key_before(e, x));
                    }
                }
                assert(key_before(x, e));
            }
            assert forall|a: int, b: int| 0 <= a < b < out@.len() implies key_before(
                #[trigger] out@[a],
                #[trigger] out@[b],
            ) by {
                if b < i as int {
                    assert(out@[a] == pre[a] && out@[b] == pre[b]);
                } else if b == i as int {
                    assert(out@[a] == pre[a]);
                    assert(key_before(pre[a], x));
                } else if a < i as int {
                    assert(out@[a] == pre[a] && out@[b] == pre[b - 1]);
                    if a == b - 1 {
                        assert(false);
                    }
                } else if a == i as int {
                    assert(out@[b] == pre[b - 1]);
                    assert(key_before(x, pre[i as int]));
                    if b - 1 > i as int {
                        assert(key_before(pre[i as int], pre[b - 1]));
                    }
                } else {
                    assert(out@[a] == pre[a - 1] && out@[b] == pre[b - 1]);
                }
            }
            assert forall|a: int| 0 <= a < out@.len() implies (#[trigger] out@[a]).pos < k
                + 1 by {
                if a < i as int {
                    assert(out@[a] == pre[a]);
                } else if a == i as int {
                    assert(out@[a] == x);
                } else {
                    assert(out@[a] == pre[a - 1]);
                }
            }
        }
        k = k + 1;
    }
    proof {
        assert(keys@.subrange(0, n as int) =~= keys@);
    }
    out
}

/// Each sorted key is the input key for its recorded position.
proof fn lemma_sorted_elements(keys: Seq<SortKey>, sorted: Seq<SortKey>)
    requires
        sorted.to_multiset() == keys.to_multiset(),
        forall|i: int| 0 <= i < keys.len() ==> (#[trigger] keys[i]).pos == i,
    ensures
        forall|a: int|
            0 <= a < sorted.len() ==> 0 <= (#[trigger] sorted[a]).pos < keys.len() && sorted[a]
                == keys[sorted[a].pos as int],
{
    assert forall|a: int|
        0 <= a < sorted.len() implies 0 <= (#[trigger] sorted[a]).pos < keys.len() && sorted[a]
            == keys[sorted[a].pos as int] by {
        assert(sorted.contains(sorted[a]));
        assert(sorted.to_multiset().count(sorted[a]) > 0);
        assert(keys.to_multiset().count(sorted[a]) > 0);
        assert(keys.contains(sorted[a]));
        let i = choose|i: int| 0 <= i < keys.len() && keys[i] == sorted[a];
        assert(keys[i].pos == i);
    }
}

/// How many entries the ranking returns for `n` inputs under a limit
/// (0 = unlimited).
pub open spec fn out_len_of(n: int, limit: int) -> int {
    if limit == 0 || n <= limit {
        n
    } else {
        limit
    }
}

/// `out` is the correct ranking of `data` under `metric` and `limit`
/// along the seat order `order`: `order` enumerates the input indices
/// sorted strictly descending by metric key with ties in input order,
/// and each output entry is built from its record with rank = position
/// + 1.  A strict order and fixed length make the ranking unique.
pub open spec fn order_correct(
    data: Seq<PlayerRecord>,
    metric: RankingMetric,
    order: Seq<int>,
) -> bool {
    &&& order.len() == data.len()
    &&& forall|i: int| 0 <= i < order.len() ==> 0 <= #[trigger] order[i] < data.len()
    &&& forall|a: int, b: int|
        #![trigger order[a], order[b]]
        0 <= a < b < order.len() ==> (record_key(metric, data[order[a]]) > record_key(
            metric,
            data[order[b]],
        ) || (record_key(metric, data[order[a]]) == record_key(metric, data[order[b]]) && order[a]
            < order[b]))
}

pub open spec fn ranking_correct(
    data: Seq<PlayerRecord>,
    metric: RankingMetric,
    limit: int,
    out: Seq<LeaderboardEntry>,
    order: Seq<int>,
) -> bool {
    &&& order_correct(data, metric, order)
    &&& out.len() == out_len_of(data.len() as int, limit)
    &&& forall|i: int|
        0 <= i < out.len() ==> #[trigger] out[i] == entry_of(
            data[order[i]],
            metric,
            (i + 1) as u32,
        )
}

/// A correct order never lists a record twice.
proof fn lemma_order_no_duplicates(data: Seq<PlayerRecord>, metric: RankingMetric, order: Seq<int>)
    requires
        order_correct(data, metric, order),
    ensures
        order.no_duplicates(),
{
    assert forall|i: int, j: int|
        0 <= i < order.len() && 0 <= j < order.len() && i != j implies order[i] != order[
        j
    ] by {
        if i < j {
            assert(record_key(metric, data[order[i]]) > record_key(metric, data[order[j]])
                || (record_key(metric, data[order[i]]) == record_key(metric, data[order[j]])
                && order[i] < order[j]));
        } else {
            assert(record_key(metric, data[order[j]]) > record_key(metric, data[order[i]])
                || (record_key(metric, data[order[j]]) == record_key(metric, data[order[i]])
                && order[j] < order[i]));
        }
    }
}

/// A correct order lists every record: it is a permutation of the input
/// positions.
proof fn lemma_order_surjective(
    data: Seq<PlayerRecord>,
    metric: RankingMetric,
    order: Seq<int>,
    v: int,
)
    requires
        order_correct(data, metric, order),
        0 <= v < data.len(),
    ensures
        order.contains(v),
{
    if !order.contains(v) {
        lemma_order_no_duplicates(data, metric, order);
        order.unique_seq_to_set();
        let range = vstd::set_lib::set_int_range(0, data.len() as int);
        vstd::set_lib::lemma_int_range(0, data.len() as int);
        assert forall|x: int| order.to_set().contains(x) implies range.contains(x) by {
            assert(order.contains(x));
            let i = choose|i: int| 0 <= i < order.len() && order[i] == x;
            assert(0 <= order[i] < data.len());
        }
        assert(order.to_set().subset_of(range));
        assert(!order.to_set().contains(v));
        order.to_set().lemma_subset_not_in_lt(range, v);
        assert(false);
    }
}

proof fn lemma_orders_equal_from(
    data: Seq<PlayerRecord>,
    metric: RankingMetric,
    o1: Seq<int>,
    o2: Seq<int>,
    k: int,
)
    requires
        order_correct(data, metric, o1),
        order_correct(data, metric, o2),
        0 <= k <= data.len(),
        forall|j: int| 0 <= j < k ==> #[trigger] o1[j] == o2[j],
    ensures
        forall|j: int| 0 <= j < data.len() ==> #[trigger] o1[j] == o2[j],
    decreases data.len() - k,
{
    let n = data.len() as int;
    if k < n {
        let a = o1[k];
        let b = o2[k];
        if a != b {
            lemma_order_no_duplicates(data, metric, o1);
            lemma_order_no_duplicates(data, metric, o2);
            assert(0 <= b < n);
            lemma_order_surjective(data, metric, o1, b);
            let p = choose|p: int| 0 <= p < o1.len() && o1[p] == b;
            if p < k {
                assert(o2[p] == o1[p]);
                assert(o2[p] == b && o2[k] == b);
                assert(false);
            }
            assert(p > k);
            assert(0 <= a < n);
            lemma_order_surjective(data, metric, o2, a);
            let q = choose|q: int| 0 <= q < o2.len() && o2[q] == a;
            if q < k {
                assert(o1[q] == o2[q]);
                assert(o1[q] == a && o1[k] == a);
                assert(false);
            }
            assert(q > k);
            // o1 sorted at (k, p) and o2 sorted at (k, q): a precedes b and
            // b precedes a under a strict order, which is impossible
            assert(record_key(metric, data[o1[k]]) > record_key(metric, data[o1[p]])
                || (record_key(metric, data[o1[k]]) == record_key(metric, data[o1[p]]) && o1[k]
                < o1[p]));
            assert(record_key(metric, data[o2[k]]) > record_key(metric, data[o2[q]])
                || (record_key(metric, data[o2[k]]) == record_key(metric, data[o2[q]]) && o2[k]
                < o2[q]));
            assert(false);
        }
        lemma_orders_equal_from(data, metric, o1, o2, k + 1);
    }
}

/// The ranking is unique: any two correct rankings of the same records
/// under the same metric enumerate the records in the same order, so
/// differing limits only shorten the list and truncation never reorders
/// the retained prefix.
pub proof fn lemma_ranking_unique(
    data: Seq<PlayerRecord>,
    metric: RankingMetric,
    limit1: int,
    out1: Seq<LeaderboardEntry>,
    order1: Seq<int>,
    limit2: int,
    out2: Seq<LeaderboardEntry>,
    order2: Seq<int>,
)
    requires
        ranking_correct(data, metric, limit1, out1, order1),
        ranking_correct(data, metric, limit2, out2, order2),
    ensures
        order1 == order2,
        forall|i: int| 0 <= i < out1.len() && i < out2.len() ==> #[trigger] out1[i] == out2[i],
{
    lemma_orders_equal_from(data, metric, order1, order2, 0);
    assert(order1 =~= order2);
}

/// Ranks run contiguously from 1, and the ranking is descending in the
/// metric with ties kept in input order.
pub proof fn lemma_ranking_ranks(
    data: Seq<PlayerRecord>,
    metric: RankingMetric,
    limit: int,
    out: Seq<LeaderboardEntry>,
    order: Seq<int>,
)
    requires
        ranking_correct(data, metric, limit, out, order),
        data.len() <= u32::MAX,
    ensures
        forall|i: int| 0 <= i < out.len() ==> (#[trigger] out[i]).rank == i + 1,
        forall|a: int, b: int|
            #![trigger order[a], order[b]]
            0 <= a < b < order.len() ==> record_key(metric, data[order[a]]) >= record_key(
                metric,
                data[order[b]],
            ),
        forall|a: int, b: int|
            #![trigger order[a], order[b]]
            0 <= a < b < order.len() && record_key(metric, data[order[a]]) == record_key(
                metric,
                data[order[b]],
            ) ==> order[a] < order[b],
{
    assert forall|i: int| 0 <= i < out.len() implies (#[trigger] out[i]).rank == i + 1 by {
        assert(out[i] == entry_of(data[order[i]], metric, (i + 1) as u32));
        assert(out.len() <= data.len());
        assert(i + 1 <= u32::MAX);
    }
}

/// Truncation never reorders: rankings of the same records along the
/// same order are prefixes of one another, whatever the limits.
pub proof fn lemma_truncation_is_prefix(
    data: Seq<PlayerRecord>,
    metric: RankingMetric,
    limit: int,
    full: Seq<LeaderboardEntry>,
    part: Seq<LeaderboardEntry>,
    order: Seq<int>,
)
    requires
        ranking_correct(data, metric, 0, full, order),
        ranking_correct(data, metric, limit, part, order),
    ensures
        part.len() <= full.len(),
        forall|i: int| 0 <= i < part.len() ==> #[trigger] part[i] == full[i],
{
}

/// Calculate a ranked leaderboard from player records.  The result is
/// the unique stable descending ranking under the metric, truncated to
/// `limit` entries (0 = unlimited).
pub fn calculate_ranking(
    player_data: Vec<PlayerRecord>,
    metric: RankingMetric,
    limit: usize,
) -> (r: Vec<LeaderboardEntry>)
    requires
        player_data@.len() <= u32::MAX,
        forall|i: int| 0 <= i < player_data@.len() ==> (#[trigger] player_data@[i]).3.wf(),
    ensures
        exists|order: Seq<int>|
            #[trigger] ranking_correct(player_data@, metric, limit as int, r@, order),
{
    let n = player_data.len();
    let mut keys: Vec<SortKey> = Vec::new();
    let mut i: usize = 0;
    while i < n
        invariant
            n == player_data@.len(),
            0 <= i <= n,
            forall|j: int| 0 <= j < player_data@.len() ==> (#[trigger] player_data@[j]).3.wf(),
            keys@.len() == i,
            forall|j: int|
                0 <= j < i ==> (#[trigger] keys@[j]).pos == j && keys@[j].key == record_key(
                    metric,
                    player_data@[j],
                ),
        decreases n - i,
    {
        let key = metric.calculate_value(&player_data[i].3, player_data[i].2);
        keys.push(SortKey { key, pos: i });
        i = i + 1;
    }
    let sorted = sort_keys(&keys);
    proof {
        lemma_sorted_elements(keys@, sorted@);
    }
    let out_len = if limit == 0 || n <= limit {
        n
    } else {
        limit
    };
    let mut out: Vec<LeaderboardEntry> = Vec::new();
    let mut j: usize = 0;
    while j < out_len
        invariant
            n == player_data@.len() <= u32::MAX,
            forall|t: int| 0 <= t < player_data@.len() ==> (#[trigger] player_data@[t]).3.wf(),
            out_len <= n,
            0 <= j <= out_len,
            sorted@.len() == n,
            forall|a: int|
                0 <= a < sorted@.len() ==> 0 <= (#[trigger] sorted@[a]).pos < n && sorted@[a]
                    == keys@[sorted@[a].pos as int],
            keys@.len() == n,
            forall|t: int|
                0 <= t < n ==> (#[trigger] keys@[t]).pos == t && keys@[t].key == record_key(
                    metric,
                    player_data@[t],
                ),
            out@.len() == j,
            forall|t: int|
                0 <= t < j ==> #[trigger] out@[t] == entry_of(
                    player_data@[sorted@[t].pos as int],
                    metric,
                    (t + 1) as u32,
                ),
        decreases out_len - j,
    {
        let p = sorted[j].pos;
        let rec = &player_data[p];
        let stats = &rec.3;
        let (net_profit_amount, is_profit) = calculate_net_profit_tuple(stats);
        let entry = LeaderboardEntry {
            player_id: Some(rec.0),
            player_name: rec.1.clone(),
            rank: (j + 1) as u32,
            metric_type: metric,
            elo: rec.2,
            peak_elo: stats.peak_elo,
            games_played: stats.games_played,
            games_won: stats.games_won,
            win_rate: stats.win_rate_bps(),
            net_profit_amount,
            is_profit,
            successful_liar_calls: stats.successful_liar_calls,
            liar_call_accuracy: stats.liar_call_accuracy_bps(),
            successful_bluffs: stats.successful_bluffs,
            current_streak: stats.current_win_streak,
            best_streak: stats.best_win_streak,
        };
        proof {
            assert(entry == entry_of(player_data@[p as int], metric, (j + 1) as u32));
        }
        out.push(entry);
        j = j + 1;
    }
    proof {
        let order = Seq::new(sorted@.len(), |a: int| sorted@[a].pos as int);
        assert forall|a: int, b: int|
            #![trigger order[a], order[b]]
            0 <= a < b < order.len() implies (record_key(metric, player_data@[order[a]])
            > record_key(metric, player_data@[order[b]]) || (record_key(
            metric,
            player_data@[order[a]],
        ) == record_key(metric, player_data@[order[b]]) && order[a] < order[b])) by {
            assert(key_before(sorted@[a], sorted@[b]));
            assert(sorted@[a].key == record_key(metric, player_data@[order[a]]));
            assert(sorted@[b].key == record_key(metric, player_data@[order[b]]));
        }
        assert(ranking_correct(player_data@, metric, limit as int, out@, order));
    }
    out
}

/// A lighter-weight leaderboard entry for event updates.
#[derive(Clone, Debug)]
pub struct SimpleLeaderboardEntry {
    pub player_id: Option<u64>,
    pub player_name: String,
    pub rank: u32,
    pub elo: u32,
    pub games_won: u64,
    pub games_played: u64,
    /// Basis points.
    pub win_rate: u64,
}

/// One simple ranking record: identity, name, rating, games won, games
/// played.
pub type SimpleRecord = (u64, String, u32, u64, u64);

/// The simple entry built from a record at a given rank.
pub open spec fn simple_entry_of(rec: SimpleRecord, rank: u32) -> SimpleLeaderboardEntry {
    SimpleLeaderboardEntry {
        player_id: Some(rec.0),
        player_name: rec.1,
        rank,
        elo: rec.2,
        games_won: rec.3,
        games_played: rec.4,
        win_rate: win_rate_bps_spec(rec.3, rec.4) as u64,
    }
}

/// `out` is the correct simple ranking of `data` (descending by rating,
/// stable, ranked 1-based, truncated without reordering).
pub open spec fn simple_ranking_correct(
    data: Seq<SimpleRecord>,
    limit: int,
    out: Seq<SimpleLeaderboardEntry>,
    order: Seq<int>,
) -> bool {
    &&& order.len() == data.len()
    &&& forall|i: int| 0 <= i < order.len() ==> 0 <= #[trigger] order[i] < data.len()
    &&& forall|a: int, b: int|
        #![trigger order[a], order[b]]
        0 <= a < b < order.len() ==> (data[order[a]].2 > data[order[b]].2 || (data[order[a]].2
            == data[order[b]].2 && order[a] < order[b]))
    &&& out.len() == out_len_of(data.len() as int, limit)
    &&& forall|i: int|
        0 <= i < out.len() ==> #[trigger] out[i] == simple_entry_of(
            data[order[i]],
            (i + 1) as u32,
        )
}

/// Calculate a simple leaderboard ranked by rating.
pub fn calculate_simple_ranking(player_data: Vec<SimpleRecord>, limit: usize) -> (r: Vec<
    SimpleLeaderboardEntry,
>)
    requires
        player_data@.len() <= u32::MAX,
        forall|i: int|
            0 <= i < player_data@.len() ==> (#[trigger] player_data@[i]).3 <= player_data@[i].4,
    ensures
        exists|order: Seq<int>|
            #[trigger] simple_ranking_correct(player_data@, limit as int, r@, order),
{
    let n = player_data.len();
    let mut keys: Vec<SortKey> = Vec::new();
    let mut i: usize = 0;
    while i < n
        invariant
            n == player_data@.len(),
            0 <= i <= n,
            keys@.len() == i,
            forall|j: int|
                0 <= j < i ==> (#[trigger] keys@[j]).pos == j && keys@[j].key == player_data@[
                    j
                ].2 as u128,
        decreases n - i,
    {
        keys.push(SortKey { key: player_data[i].2 as u128, pos: i });
        i = i + 1;
    }
    let sorted = sort_keys(&keys);
    proof {
        lemma_sorted_elements(keys@, sorted@);
    }
    let out_len = if limit == 0 || n <= limit {
        n
    } else {
        limit
    };
    let mut out: Vec<SimpleLeaderboardEntry> = Vec::new();
    let mut j: usize = 0;
    while j < out_len
        invariant
            n == player_data@.len() <= u32::MAX,
            forall|t: int|
                0 <= t < player_data@.len() ==> (#[trigger] player_data@[t]).3 <= player_data@[
                    t
                ].4,
            out_len <= n,
            0 <= j <= out_len,
            sorted@.len() == n,
            forall|a: int|
                0 <= a < sorted@.len() ==> 0 <= (#[trigger] sorted@[a]).pos < n && sorted@[a]
                    == keys@[sorted@[a].pos as int],
            keys@.len() == n,
            forall|t: int|
                0 <= t < n ==> (#[trigger] keys@[t]).pos == t && keys@[t].key == player_data@[
                    t
                ].2 as u128,
            out@.len() == j,
            forall|t: int|
                0 <= t < j ==> #[trigger] out@[t] == simple_entry_of(
                    player_data@[sorted@[t].pos as int],
                    (t + 1) as u32,
                ),
        decreases out_len - j,
    {
        let p = sorted[j].pos;
        let rec = &player_data[p];
        let win_rate = compute_win_rate_bps(rec.3, rec.4);
        let entry = SimpleLeaderboardEntry {
            player_id: Some(rec.0),
            player_name: rec.1.clone(),
            rank: (j + 1) as u32,
            elo: rec.2,
            games_won: rec.3,
            games_played: rec.4,
            win_rate,
        };
        proof {
            assert(entry == simple_entry_of(player_data@[p as int], (j + 1) as u32));
        }
        out.push(entry);
        j = j + 1;
    }
    proof {
        let order = Seq::new(sorted@.len(), |a: int| sorted@[a].pos as int);
        assert forall|a: int, b: int|
            #![trigger order[a], order[b]]
            0 <= a < b < order.len() implies (player_data@[order[a]].2 > player_data@[order[b]].2
            || (player_data@[order[a]].2 == player_data@[order[b]].2 && order[a] < order[b])) by {
            assert(key_before(sorted@[a], sorted@[b]));
            assert(sorted@[a].key == player_data@[order[a]].2 as u128);
            assert(sorted@[b].key == player_data@[order[b]].2 as u128);
        }
        assert(simple_ranking_correct(player_data@, limit as int, out@, order));
    }
    out
}

/// Win rate in basis points of two plain counters.
fn compute_win_rate_bps(games_won: u64, games_played: u64) -> (r: u64)
    requires
        games_won <= games_played,
    ensures
        r == win_rate_bps_spec(games_won, games_played),
        r <= 10000,
{
    if games_played == 0 {
        0
    } else {
        proof {
            lemma_bps_bounded(games_won, games_played);
        }
        (((games_won as u128) * 10000) / (games_played as u128)) as u64
    }
}

/// Apply one finished game to a player's simple leaderboard entry:
/// load-or-default, count the game (and the win), overwrite the rating
/// and recompute the win rate.  Each finished game must be applied
/// exactly once; no deduplication happens here.
pub fn apply_game_result(
    entry: Option<SimpleLeaderboardEntry>,
    player_id: u64,
    player_name: String,
    new_elo: u32,
    won: bool,
) -> (r: SimpleLeaderboardEntry)
    requires
        entry matches Some(e) ==> e.games_played < u64::MAX && e.games_won <= e.games_played,
    ensures
        r.player_id == Some(player_id),
        r.player_name == player_name,
        r.elo == new_elo,
        r.games_played == (match entry {
            Some(e) => e.games_played + 1,
            None => 1int,
        }),
        r.games_won == (match entry {
            Some(e) => e.games_won + if won {
                1int
            } else {
                0int
            },
            None => if won {
                1int
            } else {
                0int
            },
        }),
        r.win_rate == win_rate_bps_spec(r.games_won, r.games_played),
        r.rank == (match entry {
            Some(e) => e.rank,
            None => 0u32,
        }),
{
    let (rank, games_won0, games_played0) = match &entry {
        Some(e) => (e.rank, e.games_won, e.games_played),
        None => (0u32, 0u64, 0u64),
    };
    let games_played = games_played0 + 1;
    let games_won = if won {
        games_won0 + 1
    } else {
        games_won0
    };
    let win_rate = compute_win_rate_bps(games_won, games_played);
    SimpleLeaderboardEntry {
        player_id: Some(player_id),
        player_name,
        rank,
        elo: new_elo,
        games_won,
        games_played,
        win_rate,
    }
}

/// `out` lists the same entries as `data`, in ascending rank order with
/// ties kept in input order.
pub open spec fn rank_order_correct(
    data: Seq<SimpleLeaderboardEntry>,
    out: Seq<SimpleLeaderboardEntry>,
    order: Seq<int>,
) -> bool {
    &&& order.len() == data.len()
    &&& forall|i: int| 0 <= i < order.len() ==> 0 <= #[trigger] order[i] < data.len()
    &&& forall|a: int, b: int|
        #![trigger order[a], order[b]]
        0 <= a < b < order.len() ==> (data[order[a]].rank < data[order[b]].rank || (data[
            order[a]
        ].rank == data[order[b]].rank && order[a] < order[b]))
    &&& out.len() == data.len()
    &&& forall|i: int| 0 <= i < out.len() ==> #[trigger] out[i] == data[order[i]]
}

/// Sort leaderboard entries by ascending rank, stably: the read-model
/// view of the stored leaderboard.
pub fn sorted_by_rank(entries: Vec<SimpleLeaderboardEntry>) -> (r: Vec<SimpleLeaderboardEntry>)
    ensures
        exists|order: Seq<int>| #[trigger] rank_order_correct(entries@, r@, order),
{
    let n = entries.len();
    let mut keys: Vec<SortKey> = Vec::new();
    let mut i: usize = 0;
    while i < n
        invariant
            n == entries@.len(),
            0 <= i <= n,
            keys@.len() == i,
            forall|j: int|
                0 <= j < i ==> (#[trigger] keys@[j]).pos == j && keys@[j].key == (u32::MAX
                    - entries@[j].rank) as u128,
        decreases n - i,
    {
        keys.push(SortKey { key: (u32::MAX - entries[i].rank) as u128, pos: i });
        i = i + 1;
    }
    let sorted = sort_keys(&keys);
    proof {
        lemma_sorted_elements(keys@, sorted@);
    }
    let mut out: Vec<SimpleLeaderboardEntry> = Vec::new();
    let mut j: usize = 0;
    while j < n
        invariant
            n == entries@.len(),
            0 <= j <= n,
            sorted@.len() == n,
            keys@.len() == n,
            forall|a: int|
                0 <= a < sorted@.len() ==> 0 <= (#[trigger] sorted@[a]).pos < n && sorted@[a]
                    == keys@[sorted@[a].pos as int],
            forall|t: int|
                0 <= t < n ==> (#[trigger] keys@[t]).pos == t && keys@[t].key == (u32::MAX
                    - entries@[t].rank) as u128,
            out@.len() == j,
            forall|t: int|
                0 <= t < j ==> #[trigger] out@[t] == entries@[sorted@[t].pos as int],
        decreases n - j,
    {
        let p = sorted[j].pos;
        let e = &entries[p];
        let copy = SimpleLeaderboardEntry {
            player_id: e.player_id,
            player_name: e.player_name.clone(),
            rank: e.rank,
            elo: e.elo,
            games_won: e.games_won,
            games_played: e.games_played,
            win_rate: e.win_rate,
        };
        proof {
            assert(copy == entries@[p as int]);
        }
        out.push(copy);
        j = j + 1;
    }
    proof {
        let order = Seq::new(sorted@.len(), |a: int| sorted@[a].pos as int);
        assert forall|a: int, b: int|
            #![trigger order[a], order[b]]
            0 <= a < b < order.len() implies (entries@[order[a]].rank < entries@[order[b]].rank
            || (entries@[order[a]].rank == entries@[order[b]].rank && order[a] < order[b])) by {
            assert(key_before(sorted@[a], sorted@[b]));
            assert(sorted@[a].key == (u32::MAX - entries@[order[a]].rank) as u128);
            assert(sorted@[b].key == (u32::MAX - entries@[order[b]].rank) as u128);
        }
        assert(rank_order_correct(entries@, out@, order));
    }
    out
}

} // verus!
