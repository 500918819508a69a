use liars_dice::dice::DiceCommitment;
use liars_dice::dice::DiceValue;
use liars_dice::dice::PlayerDice;

#[test]
fn test_dice_value_creation() {
    assert!(DiceValue::new(0).is_none());
    assert!(DiceValue::new(1).is_some());
    assert!(DiceValue::new(6).is_some());
    assert!(DiceValue::new(7).is_none());
}

#[test]
fn test_count_with_wilds() {
    let dice = PlayerDice::new(vec![
        DiceValue::new(1).unwrap(), // wild
        DiceValue::new(3).unwrap(),
        DiceValue::new(3).unwrap(),
        DiceValue::new(5).unwrap(),
        DiceValue::new(6).unwrap(),
    ]);

    // Count 3s with wilds: two 3s + one wild = 3
    assert_eq!(dice.count_face(DiceValue::new(3).unwrap(), true), 3);
    // Count 3s exact: only two 3s
    assert_eq!(dice.count_exact(DiceValue::new(3).unwrap()), 2);
    // Count 1s (wilds don't count as wilds when counting 1s)
    assert_eq!(dice.count_face(DiceValue::new(1).unwrap(), true), 1);
}

#[test]
fn test_hand_bytes_round_trip() {
    let bytes = vec![2u8, 4, 6, 1, 1];
    let hand = PlayerDice::from_bytes(&bytes).unwrap();
    assert_eq!(hand.count, 5);
    assert_eq!(hand.to_bytes(), bytes);
    // an out-of-range face is rejected
    assert!(PlayerDice::from_bytes(&vec![2u8, 7]).is_none());
    assert!(PlayerDice::from_bytes(&vec![0u8]).is_none());
}

#[test]
fn test_lose_die_eliminates_at_zero() {
    let mut hand = PlayerDice::from_bytes(&vec![5u8, 2]).unwrap();
    assert!(!hand.is_eliminated());
    hand.lose_die();
    assert_eq!(hand.count, 1);
    hand.lose_die();
    assert_eq!(hand.count, 0);
    assert!(hand.is_eliminated());
    // losing a die with none left changes nothing
    hand.lose_die();
    assert_eq!(hand.count, 0);
}

#[test]
fn test_cheater_commitment_is_revealed() {
    let mut c = DiceCommitment::new([9u8; 32]);
    assert!(!c.revealed);
    assert!(!c.cheater);
    c.mark_cheater();
    // a caught cheater is force-revealed so resolution cannot deadlock
    assert!(c.cheater);
    assert!(c.revealed);
}
