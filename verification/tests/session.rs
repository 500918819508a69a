use liars_dice::crypto::create_commitment;
use liars_dice::dice::DiceReveal;
use liars_dice::dice::DiceValue;
use liars_dice::dice::PlayerDice;
use liars_dice::game::Bid;
use liars_dice::game::ForfeitOutcome;
use liars_dice::game::GamePhase;
use liars_dice::game::GamePlayer;
use liars_dice::game::GameResult;
use liars_dice::game::LiarsDiceGame;
use liars_dice::game::RevealOutcome;
use liars_dice::game::REVEAL_TIMEOUT_MICROS;

#[test]
fn test_bid_comparison() {
    let bid1 = Bid {
        quantity: 3,
        face: DiceValue::new(4).unwrap(),
        bidder: None,
        timestamp: None,
    };

    let bid2 = Bid {
        quantity: 4,
        face: DiceValue::new(2).unwrap(),
        bidder: None,
        timestamp: None,
    };

    let bid3 = Bid {
        quantity: 3,
        face: DiceValue::new(5).unwrap(),
        bidder: None,
        timestamp: None,
    };

    // Higher quantity wins
    assert!(bid2.is_higher_than(&bid1));
    // Same quantity, higher face wins
    assert!(bid3.is_higher_than(&bid1));
    // Lower in both ways
    assert!(!bid1.is_higher_than(&bid2));
}

fn two_player_game_in_bidding(
    hand1: &[u8],
    salt1: &[u8; 32],
    hand2: &[u8],
    salt2: &[u8; 32],
) -> LiarsDiceGame {
    let mut game = LiarsDiceGame::new(99);
    assert!(game.add_player(GamePlayer::new(1, 11, String::from("p1"), 1200)));
    assert!(game.add_player(GamePlayer::new(2, 22, String::from("p2"), 1300)));
    game.start_game(1_000);
    assert_eq!(game.phase, GamePhase::Committing);
    assert!(game.submit_commitment(1, create_commitment(hand1, salt1)));
    assert_eq!(game.phase, GamePhase::Committing);
    assert!(game.submit_commitment(2, create_commitment(hand2, salt2)));
    assert_eq!(game.phase, GamePhase::Bidding);
    game
}

fn reveal_of(bytes: &[u8], salt: &[u8; 32]) -> DiceReveal {
    DiceReveal::new(PlayerDice::from_bytes(&bytes.to_vec()).unwrap(), *salt)
}

#[test]
fn test_bid_ordering_enforced() {
    let h1 = [4u8, 1, 3, 3, 5];
    let h2 = [4u8, 2, 2, 6, 6];
    let s1 = [1u8; 32];
    let s2 = [2u8; 32];
    let mut game = two_player_game_in_bidding(&h1, &s1, &h2, &s2);

    // first bid must be well-formed
    assert!(!game.make_bid(Bid::new(0, DiceValue::new(4).unwrap(), 1, 1_001)));
    assert!(game.make_bid(Bid::new(2, DiceValue::new(4).unwrap(), 1, 1_001)));

    // an equal bid is never a valid raise and leaves the current bid alone
    let before = game.bid_history.len();
    assert!(!game.make_bid(Bid::new(2, DiceValue::new(4).unwrap(), 2, 1_002)));
    assert_eq!(game.bid_history.len(), before);
    assert_eq!(game.current_bid.as_ref().unwrap().quantity, 2);

    // same quantity, higher face is a valid raise
    assert!(game.make_bid(Bid::new(2, DiceValue::new(6).unwrap(), 2, 1_003)));
    // lower quantity is rejected
    assert!(!game.make_bid(Bid::new(1, DiceValue::new(6).unwrap(), 1, 1_004)));
    // higher quantity with any face is a valid raise
    assert!(game.make_bid(Bid::new(3, DiceValue::new(2).unwrap(), 1, 1_005)));
    assert_eq!(game.bid_history.len(), 3);
}

#[test]
fn test_wild_count_makes_caller_lose() {
    // Bid 3 fours; the revealed hands hold two real fours plus one wild,
    // so the actual count is 3 >= 3 and the liar caller loses a die.
    let h1 = [4u8, 1, 3, 3, 5];
    let h2 = [4u8, 2, 2, 6, 6];
    let s1 = [1u8; 32];
    let s2 = [2u8; 32];
    let mut game = two_player_game_in_bidding(&h1, &s1, &h2, &s2);

    assert!(game.make_bid(Bid::new(3, DiceValue::new(4).unwrap(), 1, 1_001)));
    assert!(game.call_liar(2, 1_002));
    assert_eq!(game.phase, GamePhase::Revealing);

    assert_eq!(game.reveal_dice(1, reveal_of(&h1, &s1)), RevealOutcome::Revealed);
    assert_eq!(game.reveal_dice(2, reveal_of(&h2, &s2)), RevealOutcome::Revealed);

    assert_eq!(game.count_total_dice(DiceValue::new(4).unwrap(), true), 3);
    let loser = game.resolve_round();
    assert_eq!(loser, Some(2));

    // the caller lost one die and the next round begins
    assert_eq!(game.phase, GamePhase::Committing);
    assert_eq!(game.round, 2);
    assert_eq!(game.players[1].dice_count, 4);
    assert_eq!(game.total_dice, 9);
    assert!(game.players[0].commitment.is_none());
    assert!(game.players[0].revealed_dice.is_none());
}

#[test]
fn test_overbid_makes_bidder_lose() {
    let h1 = [2u8, 2, 3, 3, 5];
    let h2 = [6u8, 2, 2, 6, 6];
    let s1 = [3u8; 32];
    let s2 = [4u8; 32];
    let mut game = two_player_game_in_bidding(&h1, &s1, &h2, &s2);

    // there are no fours at all, so five fours is an overbid
    assert!(game.make_bid(Bid::new(5, DiceValue::new(4).unwrap(), 1, 1_001)));
    assert!(game.call_liar(2, 1_002));
    assert_eq!(game.reveal_dice(1, reveal_of(&h1, &s1)), RevealOutcome::Revealed);
    assert_eq!(game.reveal_dice(2, reveal_of(&h2, &s2)), RevealOutcome::Revealed);
    let loser = game.resolve_round();
    assert_eq!(loser, Some(1));
    assert_eq!(game.players[0].dice_count, 4);
}

#[test]
fn test_false_reveal_marks_cheater() {
    let h1 = [4u8, 1, 3, 3, 5];
    let h2 = [4u8, 2, 2, 6, 6];
    let s1 = [1u8; 32];
    let s2 = [2u8; 32];
    let mut game = two_player_game_in_bidding(&h1, &s1, &h2, &s2);
    assert!(game.make_bid(Bid::new(1, DiceValue::new(4).unwrap(), 1, 1_001)));
    assert!(game.call_liar(2, 1_002));

    assert_eq!(game.reveal_dice(1, reveal_of(&h1, &s1)), RevealOutcome::Revealed);
    // p2 tries to reveal different dice than committed
    let fake = [6u8, 6, 6, 6, 6];
    assert_eq!(game.reveal_dice(2, reveal_of(&fake, &s2)), RevealOutcome::CheaterDetected);
    assert!(game.players[1].eliminated);
    assert_eq!(game.players[1].dice_count, 0);
    assert_eq!(game.players[1].result, GameResult::Cheater);

    // with only one active player left, resolution ends the game
    let _ = game.resolve_round();
    assert_eq!(game.phase, GamePhase::GameOver);
    assert_eq!(game.winner, Some(1));
    assert_eq!(game.players[0].result, GameResult::Won);
}

#[test]
fn test_timeout_sweep_behaviour() {
    let h1 = [4u8, 1, 3, 3, 5];
    let h2 = [4u8, 2, 2, 6, 6];
    let s1 = [1u8; 32];
    let s2 = [2u8; 32];
    let mut game = two_player_game_in_bidding(&h1, &s1, &h2, &s2);
    assert!(game.make_bid(Bid::new(2, DiceValue::new(4).unwrap(), 1, 1_001)));
    assert!(game.call_liar(2, 1_002));
    let deadline = 1_002 + REVEAL_TIMEOUT_MICROS;
    assert_eq!(game.reveal_deadline, Some(deadline));

    assert_eq!(game.reveal_dice(1, reveal_of(&h1, &s1)), RevealOutcome::Revealed);

    // a no-op at or before the deadline
    assert!(!game.timeout_sweep(deadline));
    assert!(!game.players[1].eliminated);

    // past the deadline exactly the non-revealed active player goes
    assert!(game.timeout_sweep(deadline + 1));
    assert!(game.players[1].eliminated);
    assert_eq!(game.players[1].result, GameResult::TimedOut);
    assert_eq!(game.players[1].dice_count, 0);
    assert!(!game.players[0].eliminated);
    assert_eq!(game.total_dice, 5);

    // idempotent on repeated invocation
    let snapshot_dice: Vec<u8> = game.players.iter().map(|p| p.dice_count).collect();
    assert!(game.timeout_sweep(deadline + 2));
    let dice_again: Vec<u8> = game.players.iter().map(|p| p.dice_count).collect();
    assert_eq!(snapshot_dice, dice_again);
    assert_eq!(game.players[1].result, GameResult::TimedOut);

    // resolution then crowns the sole revealer
    let _ = game.resolve_round();
    assert_eq!(game.phase, GamePhase::GameOver);
    assert_eq!(game.winner, Some(1));
}

#[test]
fn test_forfeit_ends_two_player_game() {
    let h1 = [4u8, 1, 3, 3, 5];
    let h2 = [4u8, 2, 2, 6, 6];
    let s1 = [1u8; 32];
    let s2 = [2u8; 32];
    let mut game = two_player_game_in_bidding(&h1, &s1, &h2, &s2);

    assert_eq!(game.forfeit(2, 2_000), ForfeitOutcome::Ended);
    assert_eq!(game.phase, GamePhase::GameOver);
    assert_eq!(game.winner, Some(1));
    assert_eq!(game.players[1].result, GameResult::Lost);
    assert_eq!(game.players[0].result, GameResult::Won);
    assert_eq!(game.ended_at, Some(2_000));

    // the game is over: nothing more is accepted
    assert_eq!(game.forfeit(1, 2_001), ForfeitOutcome::Rejected);
    assert!(!game.make_bid(Bid::new(9, DiceValue::new(4).unwrap(), 1, 2_002)));
    assert!(!game.call_liar(1, 2_003));
}

#[test]
fn test_wrong_phase_operations_rejected() {
    let mut game = LiarsDiceGame::new(5);
    assert!(game.add_player(GamePlayer::new(1, 11, String::from("p1"), 1200)));
    // cannot start with fewer than two players
    assert!(!game.can_start());
    game.start_game(1);
    assert_eq!(game.phase, GamePhase::WaitingForPlayers);
    // no bids or liar calls before the game starts
    assert!(!game.make_bid(Bid::new(1, DiceValue::new(2).unwrap(), 1, 2)));
    assert!(!game.call_liar(1, 3));
    assert!(!game.submit_commitment(1, [0u8; 32]));

    assert!(game.add_player(GamePlayer::new(2, 22, String::from("p2"), 1200)));
    game.start_game(4);
    assert_eq!(game.phase, GamePhase::Committing);
    // a seventh player cannot join once the game started
    assert!(!game.add_player(GamePlayer::new(3, 33, String::from("p3"), 1200)));
    // liar cannot be called during committing
    assert!(!game.call_liar(1, 5));
}

#[test]
fn test_turn_rotates_between_active_players() {
    let h1 = [4u8, 1, 3, 3, 5];
    let h2 = [4u8, 2, 2, 6, 6];
    let s1 = [1u8; 32];
    let s2 = [2u8; 32];
    let mut game = two_player_game_in_bidding(&h1, &s1, &h2, &s2);
    assert_eq!(game.current_turn, 0);
    assert!(game.players[0].is_turn);
    assert!(game.make_bid(Bid::new(1, DiceValue::new(2).unwrap(), 1, 1_001)));
    assert_eq!(game.current_turn, 1);
    assert!(game.players[1].is_turn);
    assert!(!game.players[0].is_turn);
    assert!(game.make_bid(Bid::new(2, DiceValue::new(2).unwrap(), 2, 1_002)));
    assert_eq!(game.current_turn, 0);
}

#[test]
fn test_repeated_resolution_reaches_game_over_once() {
    // p1 holds only sixes and always bids one six; p2 holds threes and
    // always calls liar, losing one die per round until elimination.
    let mut game = LiarsDiceGame::new(7);
    assert!(game.add_player(GamePlayer::new(1, 11, String::from("p1"), 1200)));
    assert!(game.add_player(GamePlayer::new(2, 22, String::from("p2"), 1200)));
    game.start_game(0);

    let mut now = 1u64;
    let mut rounds = 0;
    while game.phase != GamePhase::GameOver {
        rounds += 1;
        assert!(rounds <= 5, "the game must end within five rounds");
        assert_eq!(game.phase, GamePhase::Committing);
        assert_eq!(game.round, rounds);

        let h1 = vec![6u8; game.players[0].dice_count as usize];
        let h2 = vec![3u8; game.players[1].dice_count as usize];
        let s1 = [rounds as u8; 32];
        let s2 = [(rounds + 100) as u8; 32];
        assert!(game.submit_commitment(1, create_commitment(&h1, &s1)));
        assert!(game.submit_commitment(2, create_commitment(&h2, &s2)));
        assert_eq!(game.phase, GamePhase::Bidding);

        assert!(game.make_bid(Bid::new(1, DiceValue::new(6).unwrap(), 1, now)));
        assert!(game.call_liar(2, now + 1));
        assert_eq!(game.reveal_dice(1, reveal_of(&h1, &s1)), RevealOutcome::Revealed);
        assert_eq!(game.reveal_dice(2, reveal_of(&h2, &s2)), RevealOutcome::Revealed);
        assert_eq!(game.resolve_round(), Some(2));
        now += 10;
    }

    assert_eq!(rounds, 5);
    assert_eq!(game.winner, Some(1));
    assert_eq!(game.players[1].dice_count, 0);
    assert!(game.players[1].eliminated);
    assert_eq!(game.players[0].result, GameResult::Won);
    // game over is terminal: resolution is rejected from here on
    assert_eq!(game.resolve_round(), None);
    assert_eq!(game.phase, GamePhase::GameOver);
}

#[test]
fn test_reveal_rejections_change_nothing() {
    let h1 = [4u8, 1, 3, 3, 5];
    let h2 = [4u8, 2, 2, 6, 6];
    let s1 = [1u8; 32];
    let s2 = [2u8; 32];
    let mut game = two_player_game_in_bidding(&h1, &s1, &h2, &s2);

    // wrong phase: nobody called liar yet
    assert_eq!(game.reveal_dice(1, reveal_of(&h1, &s1)), RevealOutcome::Rejected);

    assert!(game.make_bid(Bid::new(1, DiceValue::new(4).unwrap(), 1, 1_001)));
    assert!(game.call_liar(2, 1_002));

    // unknown player
    assert_eq!(game.reveal_dice(9, reveal_of(&h1, &s1)), RevealOutcome::Rejected);
    // a hand of the wrong size does not match the public dice count
    let short = [4u8, 1];
    assert_eq!(game.reveal_dice(1, reveal_of(&short, &s1)), RevealOutcome::Rejected);
    assert!(!game.players[0].eliminated);

    // a genuine reveal goes through once, then a second attempt is refused
    assert_eq!(game.reveal_dice(1, reveal_of(&h1, &s1)), RevealOutcome::Revealed);
    assert_eq!(game.reveal_dice(1, reveal_of(&h1, &s1)), RevealOutcome::Rejected);
}

#[test]
fn test_player_lookup() {
    let h1 = [4u8, 1, 3, 3, 5];
    let h2 = [4u8, 2, 2, 6, 6];
    let game = two_player_game_in_bidding(&h1, &[1u8; 32], &h2, &[2u8; 32]);
    let p = game.get_player_by_chain(2).unwrap();
    assert_eq!(p.chain_id, Some(2));
    assert_eq!(p.elo, 1300);
    assert!(game.get_player_by_chain(5).is_none());
    let current = game.get_current_player().unwrap();
    assert_eq!(current.chain_id, Some(1));
    assert_eq!(game.active_player_count(), 2);
}

#[test]
fn test_winner_rating_delta() {
    let h1 = [4u8, 1, 3, 3, 5];
    let h2 = [4u8, 2, 2, 6, 6];
    let mut game = two_player_game_in_bidding(&h1, &[1u8; 32], &h2, &[2u8; 32]);
    // not over yet
    assert!(game.winner_rating_delta(2).is_none());
    assert_eq!(game.forfeit(2, 5_000), ForfeitOutcome::Ended);
    // winner at 1200 beats a 1300 opponent: expected 360, gain 32*640/1000
    assert_eq!(game.winner_rating_delta(2), Some(20));
}

#[test]
fn test_forfeit_passes_the_turn_on() {
    let mut game = LiarsDiceGame::new(3);
    assert!(game.add_player(GamePlayer::new(1, 11, String::from("p1"), 1200)));
    assert!(game.add_player(GamePlayer::new(2, 22, String::from("p2"), 1200)));
    assert!(game.add_player(GamePlayer::new(3, 33, String::from("p3"), 1200)));
    game.start_game(0);
    let hands = [[6u8; 5], [3u8; 5], [2u8; 5]];
    for (i, hand) in hands.iter().enumerate() {
        let salt = [i as u8; 32];
        assert!(game.submit_commitment((i + 1) as u64, create_commitment(hand, &salt)));
    }
    assert_eq!(game.phase, GamePhase::Bidding);
    assert_eq!(game.current_turn, 0);

    // the turn-holder forfeits: the game goes on and the turn moves to
    // the next active seat
    assert_eq!(game.forfeit(1, 50), ForfeitOutcome::Eliminated);
    assert_eq!(game.phase, GamePhase::Bidding);
    assert_eq!(game.current_turn, 1);
    assert!(game.players[1].is_turn);
    assert!(!game.players[0].is_turn);
    assert_eq!(game.active_player_count(), 2);

    // bidding continues between the remaining players
    assert!(game.make_bid(Bid::new(1, DiceValue::new(3).unwrap(), 2, 60)));
    assert_eq!(game.current_turn, 2);
}

#[test]
fn test_roster_capacity() {
    let mut game = LiarsDiceGame::new(8);
    for i in 1..=6u64 {
        assert!(game.add_player(GamePlayer::new(i, i * 10, format!("p{}", i), 1200)));
    }
    // the seventh seat is refused while waiting for players
    assert!(!game.add_player(GamePlayer::new(7, 70, String::from("p7"), 1200)));
    assert_eq!(game.players.len(), 6);
    assert_eq!(game.total_dice, 30);
    assert!(game.can_start());
}

#[test]
fn test_wrong_actor_bid_rejected() {
    let h1 = [4u8, 1, 3, 3, 5];
    let h2 = [4u8, 2, 2, 6, 6];
    let mut game = two_player_game_in_bidding(&h1, &[1u8; 32], &h2, &[2u8; 32]);
    assert_eq!(game.current_turn, 0);

    // a valid raise from the player not holding the turn is rejected
    assert!(!game.make_bid(Bid::new(2, DiceValue::new(4).unwrap(), 2, 1_001)));
    // or from an identity that is not seated at all
    assert!(!game.make_bid(Bid::new(2, DiceValue::new(4).unwrap(), 9, 1_002)));
    // or with no bidder identity
    let anonymous = Bid {
        quantity: 2,
        face: DiceValue::new(4).unwrap(),
        bidder: None,
        timestamp: None,
    };
    assert!(!game.make_bid(anonymous));
    assert!(game.current_bid.is_none());
    assert_eq!(game.bid_history.len(), 0);

    // the turn holder's own bid goes through
    assert!(game.make_bid(Bid::new(2, DiceValue::new(4).unwrap(), 1, 1_003)));
}

#[test]
fn test_wrong_actor_liar_call_rejected() {
    let mut game = LiarsDiceGame::new(4);
    assert!(game.add_player(GamePlayer::new(1, 11, String::from("p1"), 1200)));
    assert!(game.add_player(GamePlayer::new(2, 22, String::from("p2"), 1200)));
    assert!(game.add_player(GamePlayer::new(3, 33, String::from("p3"), 1200)));
    game.start_game(0);
    let hands = [[6u8; 5], [3u8; 5], [2u8; 5]];
    for (i, hand) in hands.iter().enumerate() {
        let salt = [i as u8; 32];
        assert!(game.submit_commitment((i + 1) as u64, create_commitment(hand, &salt)));
    }
    assert!(game.make_bid(Bid::new(1, DiceValue::new(6).unwrap(), 1, 10)));
    // p3 is eliminated by forfeit; neither p3 nor a stranger can call liar
    assert_eq!(game.forfeit(3, 20), ForfeitOutcome::Eliminated);
    assert!(!game.call_liar(3, 30));
    assert!(!game.call_liar(9, 31));
    assert_eq!(game.phase, GamePhase::Bidding);
    assert!(game.liar_caller.is_none());
    // a seated, active player can
    assert!(game.call_liar(2, 32));
    assert_eq!(game.phase, GamePhase::Revealing);
}
