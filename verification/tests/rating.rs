use liars_dice::player::calculate_elo_change;
use liars_dice::player::expected_score_scaled;
use liars_dice::player::PlayerLifetimeStats;
use liars_dice::player::PlayerProfile;
use liars_dice::player::UserStatus;

#[test]
fn test_elo_calculation() {
    // Player with 1200 ELO wins against 1200 opponent
    // Using integer approximation: expected=500, actual=1000, change=32*(1000-500)/1000=16
    let change = calculate_elo_change(1200, 1200, true);
    assert_eq!(change, 16); // Should gain ~16 ELO

    // Player with 1200 ELO loses against 1200 opponent
    let change = calculate_elo_change(1200, 1200, false);
    assert_eq!(change, -16); // Should lose ~16 ELO

    // Player with 1200 ELO wins against 1400 opponent (upset)
    // diff = 200, expected ≈ 241, change = 32*(1000-241)/1000 = 24
    let change = calculate_elo_change(1200, 1400, true);
    assert!(change >= 20); // Should gain more for upset

    // Player with 1400 ELO loses against 1200 opponent
    // diff = -200, expected ≈ 759, change = 32*(0-759)/1000 = -24
    let change = calculate_elo_change(1400, 1200, false);
    assert!(change <= -20); // Should lose more for upset loss
}

#[test]
fn test_expected_score_scaled() {
    // Equal ELOs should give 50% (500 scaled)
    assert_eq!(expected_score_scaled(1200, 1200), 500);

    // Higher opponent ELO should give lower expected score
    assert!(expected_score_scaled(1200, 1400) < 500);

    // Lower opponent ELO should give higher expected score
    assert!(expected_score_scaled(1400, 1200) > 500);
}

#[test]
fn test_win_rate() {
    let mut stats = PlayerLifetimeStats::default();
    stats.games_played = 100;
    stats.games_won = 60;

    assert_eq!(stats.win_rate_bps(), 6000); // 60%
}

#[test]
fn test_expected_score_clamps_at_extremes() {
    // gaps beyond 800 points clamp to the anchor scores
    assert_eq!(expected_score_scaled(1200, 2200), 10);
    assert_eq!(expected_score_scaled(2200, 1200), 990);
    // the anchors themselves
    assert_eq!(expected_score_scaled(1200, 2000), 10);
    assert_eq!(expected_score_scaled(2000, 1200), 990);
    assert_eq!(expected_score_scaled(1200, 1600), 91);
    assert_eq!(expected_score_scaled(1600, 1200), 909);
}

#[test]
fn test_rating_never_drops_below_floor() {
    let mut profile = PlayerProfile::new(1, 10, String::from("alice"), 1000);
    profile.elo = 105;
    let change = profile.update_elo_after_match(200, false);
    assert!(change < 0);
    assert_eq!(profile.elo, 100);
    // and it stays there under repeated losses
    profile.update_elo_after_match(200, false);
    assert_eq!(profile.elo, 100);
}

#[test]
fn test_profile_new_defaults() {
    let profile = PlayerProfile::new(7, 70, String::from("bob"), 123456);
    assert_eq!(profile.elo, 1200);
    assert_eq!(profile.stats.games_played, 0);
    assert!(matches!(profile.status, UserStatus::Idle));
    assert_eq!(profile.created_at, Some(123456));
}

#[test]
fn test_win_streak_tracking() {
    let mut stats = PlayerLifetimeStats::default();
    stats.record_game(true, 3);
    stats.record_game(true, 4);
    assert_eq!(stats.current_win_streak, 2);
    assert_eq!(stats.best_win_streak, 2);
    stats.record_game(false, 2);
    assert_eq!(stats.current_win_streak, 0);
    assert_eq!(stats.best_win_streak, 2);
    assert_eq!(stats.games_played, 3);
    assert_eq!(stats.games_won, 2);
    assert_eq!(stats.rounds_played, 9);
}

#[test]
fn test_liar_call_accuracy() {
    let mut stats = PlayerLifetimeStats::default();
    assert_eq!(stats.liar_call_accuracy_bps(), 0);
    stats.record_liar_call(true);
    stats.record_liar_call(true);
    stats.record_liar_call(false);
    stats.record_liar_call(false);
    assert_eq!(stats.liar_call_accuracy_bps(), 5000);
}

#[test]
fn test_win_loss_amounts_saturate() {
    let mut stats = PlayerLifetimeStats::default();
    stats.record_win_loss(500, true);
    stats.record_win_loss(200, false);
    assert_eq!(stats.total_won, 500);
    assert_eq!(stats.total_lost, 200);
    stats.record_win_loss(u128::MAX, true);
    assert_eq!(stats.total_won, u128::MAX);
}

#[test]
fn test_expected_score_interior_points() {
    // the stronger side's expected score rises continuously between the
    // anchors; the two sides of a pairing share the 1000 points
    assert_eq!(expected_score_scaled(1250, 1200), 570);
    assert_eq!(expected_score_scaled(1200, 1250), 430);
    assert_eq!(expected_score_scaled(1350, 1200), 699);
    assert_eq!(expected_score_scaled(1200, 1350), 301);
    assert_eq!(expected_score_scaled(1500, 1200), 834);
    assert_eq!(expected_score_scaled(1200, 1500), 166);
    // monotone in the rating gap across the negative side
    let samples = [0u32, 50, 100, 150, 200, 300, 400, 600, 800, 900];
    let mut last = 0;
    for &lead in samples.iter() {
        let e = expected_score_scaled(1200 + lead, 1200);
        assert!(e >= last, "expected score must not fall as the lead grows");
        last = e;
    }
}

#[test]
fn test_favourite_gains_less_than_even_match() {
    // a 1300 player beating a 1200 opponent is the favourite: the gain
    // must stay below the equal-rating gain of 16
    let favourite_gain = calculate_elo_change(1300, 1200, true);
    assert!(favourite_gain < 16);
    assert!(favourite_gain > 0);
    // and the underdog gains more
    let underdog_gain = calculate_elo_change(1200, 1300, true);
    assert!(underdog_gain > 16);
}
