use liars_dice::leaderboard::apply_game_result;
use liars_dice::leaderboard::calculate_ranking;
use liars_dice::leaderboard::calculate_simple_ranking;
use liars_dice::leaderboard::sorted_by_rank;
use liars_dice::leaderboard::SimpleLeaderboardEntry;
use liars_dice::leaderboard::RankingMetric;
use liars_dice::leaderboard::RANKING_MIDPOINT;
use liars_dice::player::PlayerLifetimeStats;

fn stats_with(games_played: u64, games_won: u64, won_amount: u128, lost_amount: u128) -> PlayerLifetimeStats {
    let mut stats = PlayerLifetimeStats::default();
    stats.games_played = games_played;
    stats.games_won = games_won;
    stats.total_won = won_amount;
    stats.total_lost = lost_amount;
    stats
}

#[test]
fn test_ranking_by_elo_descending() {
    let data = vec![
        (1u64, String::from("low"), 1000u32, stats_with(10, 2, 0, 0)),
        (2u64, String::from("high"), 1500u32, stats_with(10, 9, 0, 0)),
        (3u64, String::from("mid"), 1200u32, stats_with(10, 5, 0, 0)),
    ];
    let ranked = calculate_ranking(data, RankingMetric::Elo, 0);
    assert_eq!(ranked.len(), 3);
    assert_eq!(ranked[0].player_id, Some(2));
    assert_eq!(ranked[1].player_id, Some(3));
    assert_eq!(ranked[2].player_id, Some(1));
    assert_eq!(ranked[0].rank, 1);
    assert_eq!(ranked[1].rank, 2);
    assert_eq!(ranked[2].rank, 3);
    assert_eq!(ranked[1].win_rate, 5000);
}

#[test]
fn test_ranking_ties_keep_input_order() {
    let data = vec![
        (10u64, String::from("first"), 1200u32, stats_with(1, 0, 0, 0)),
        (11u64, String::from("second"), 1200u32, stats_with(1, 0, 0, 0)),
        (12u64, String::from("third"), 1200u32, stats_with(1, 0, 0, 0)),
    ];
    let ranked = calculate_ranking(data, RankingMetric::Elo, 0);
    assert_eq!(ranked[0].player_id, Some(10));
    assert_eq!(ranked[1].player_id, Some(11));
    assert_eq!(ranked[2].player_id, Some(12));
}

#[test]
fn test_ranking_truncation_keeps_prefix() {
    let data = vec![
        (1u64, String::from("a"), 900u32, stats_with(0, 0, 0, 0)),
        (2u64, String::from("b"), 1800u32, stats_with(0, 0, 0, 0)),
        (3u64, String::from("c"), 1500u32, stats_with(0, 0, 0, 0)),
        (4u64, String::from("d"), 1600u32, stats_with(0, 0, 0, 0)),
    ];
    let full = calculate_ranking(data.clone(), RankingMetric::Elo, 0);
    let top2 = calculate_ranking(data, RankingMetric::Elo, 2);
    assert_eq!(top2.len(), 2);
    assert_eq!(top2[0].player_id, full[0].player_id);
    assert_eq!(top2[1].player_id, full[1].player_id);
    assert_eq!(top2[0].player_id, Some(2));
    assert_eq!(top2[1].player_id, Some(4));
}

#[test]
fn test_net_profit_metric_orders_losses_below_profits() {
    let winner = stats_with(4, 4, 1000, 100);
    let loser = stats_with(4, 0, 100, 1000);
    let even = stats_with(2, 1, 500, 500);
    let data = vec![
        (1u64, String::from("loser"), 1200u32, loser),
        (2u64, String::from("even"), 1200u32, even),
        (3u64, String::from("winner"), 1200u32, winner),
    ];
    let ranked = calculate_ranking(data, RankingMetric::NetProfit, 0);
    assert_eq!(ranked[0].player_id, Some(3));
    assert_eq!(ranked[1].player_id, Some(2));
    assert_eq!(ranked[2].player_id, Some(1));
    assert!(ranked[0].is_profit);
    assert_eq!(ranked[0].net_profit_amount, 900);
    assert!(!ranked[2].is_profit);
    assert_eq!(ranked[2].net_profit_amount, 900);
}

#[test]
fn test_net_profit_metric_values() {
    let profit = RankingMetric::NetProfit.calculate_value(&stats_with(0, 0, 700, 200), 0);
    assert_eq!(profit, RANKING_MIDPOINT + 500);
    let loss = RankingMetric::NetProfit.calculate_value(&stats_with(0, 0, 200, 700), 0);
    assert_eq!(loss, RANKING_MIDPOINT - 1 - 500);
    let even = RankingMetric::NetProfit.calculate_value(&stats_with(0, 0, 300, 300), 0);
    assert_eq!(even, RANKING_MIDPOINT);
}

#[test]
fn test_simple_ranking() {
    let data = vec![
        (1u64, String::from("a"), 1100u32, 6u64, 10u64),
        (2u64, String::from("b"), 1400u32, 1u64, 4u64),
        (3u64, String::from("c"), 1400u32, 2u64, 2u64),
    ];
    let ranked = calculate_simple_ranking(data, 0);
    // descending by rating, ties in input order
    assert_eq!(ranked[0].player_id, Some(2));
    assert_eq!(ranked[1].player_id, Some(3));
    assert_eq!(ranked[2].player_id, Some(1));
    assert_eq!(ranked[0].rank, 1);
    assert_eq!(ranked[2].rank, 3);
    assert_eq!(ranked[0].win_rate, 2500);
    assert_eq!(ranked[1].win_rate, 10000);
    assert_eq!(ranked[2].win_rate, 6000);
}

#[test]
fn test_apply_game_result_from_default() {
    let entry = apply_game_result(None, 9, String::from("new"), 1216, true);
    assert_eq!(entry.player_id, Some(9));
    assert_eq!(entry.games_played, 1);
    assert_eq!(entry.games_won, 1);
    assert_eq!(entry.elo, 1216);
    assert_eq!(entry.win_rate, 10000);
}

#[test]
fn test_apply_game_result_accumulates() {
    let first = apply_game_result(None, 9, String::from("p"), 1216, true);
    let second = apply_game_result(Some(first), 9, String::from("p"), 1200, false);
    assert_eq!(second.games_played, 2);
    assert_eq!(second.games_won, 1);
    assert_eq!(second.elo, 1200);
    assert_eq!(second.win_rate, 5000);
    let third = apply_game_result(Some(second), 9, String::from("p"), 1216, true);
    assert_eq!(third.games_played, 3);
    assert_eq!(third.games_won, 2);
    assert_eq!(third.win_rate, 6666);
}

#[test]
fn test_sorted_by_rank_view() {
    let entry = |id: u64, rank: u32| SimpleLeaderboardEntry {
        player_id: Some(id),
        player_name: format!("p{}", id),
        rank,
        elo: 1200,
        games_won: 0,
        games_played: 0,
        win_rate: 0,
    };
    let jumbled = vec![entry(3, 3), entry(1, 1), entry(2, 2), entry(9, 1)];
    let view = sorted_by_rank(jumbled);
    assert_eq!(view.len(), 4);
    assert_eq!(view[0].player_id, Some(1));
    // equal ranks keep input order
    assert_eq!(view[1].player_id, Some(9));
    assert_eq!(view[2].player_id, Some(2));
    assert_eq!(view[3].player_id, Some(3));
}
