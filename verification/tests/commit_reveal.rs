use liars_dice::crypto::generate_salt;
use liars_dice::crypto::create_commitment;
use liars_dice::crypto::hash_to_hex;
use liars_dice::crypto::hex_to_hash;
use liars_dice::crypto::verify_commitment;

#[test]
fn test_commit_reveal() {
    let dice_bytes = vec![1u8, 3, 3, 5, 6];
    let salt = [42u8; 32];

    let commitment = create_commitment(&dice_bytes, &salt);

    // Valid reveal should verify
    assert!(verify_commitment(&dice_bytes, &salt, &commitment));

    // Invalid dice should not verify
    let wrong_dice = vec![2u8, 3, 3, 5, 6];
    assert!(!verify_commitment(&wrong_dice, &salt, &commitment));

    // Invalid salt should not verify
    let wrong_salt = [43u8; 32];
    assert!(!verify_commitment(&dice_bytes, &wrong_salt, &commitment));
}

#[test]
fn test_hex_conversion() {
    let hash = [
        0xab, 0xcd, 0xef, 0x12, 0x34, 0x56, 0x78, 0x90, 0xab, 0xcd, 0xef, 0x12, 0x34, 0x56, 0x78,
        0x90, 0xab, 0xcd, 0xef, 0x12, 0x34, 0x56, 0x78, 0x90, 0xab, 0xcd, 0xef, 0x12, 0x34, 0x56,
        0x78, 0x90,
    ];

    let hex = hash_to_hex(&hash);
    let recovered = hex_to_hash(&hex).unwrap();

    assert_eq!(hash, recovered);
}

#[test]
fn test_hex_of_known_bytes() {
    let hash = [0u8; 32];
    let hex = hash_to_hex(&hash);
    assert_eq!(hex.len(), 64);
    assert!(hex.chars().all(|c| c == '0'));

    let mut hash2 = [0u8; 32];
    hash2[0] = 0x1f;
    hash2[31] = 0xa0;
    let hex2 = hash_to_hex(&hash2);
    assert!(hex2.starts_with("1f"));
    assert!(hex2.ends_with("a0"));
}

#[test]
fn test_hex_parse_rejects_bad_input() {
    // wrong length
    assert!(hex_to_hash("abcd").is_none());
    // right length but a non-hex character
    let mut s = String::new();
    for _ in 0..63 {
        s.push('a');
    }
    s.push('g');
    assert!(hex_to_hash(&s).is_none());
    // upper case digits are accepted
    let mut t = String::new();
    for _ in 0..64 {
        t.push('A');
    }
    let parsed = hex_to_hash(&t).unwrap();
    assert_eq!(parsed, [0xaa; 32]);
}

#[test]
fn test_commitment_depends_on_every_byte() {
    let salt = [7u8; 32];
    let a = create_commitment(&[1, 2, 3], &salt);
    let b = create_commitment(&[1, 2, 4], &salt);
    // if the wrapper returned its input unchanged these would collide
    assert_ne!(a, b);
    assert!(verify_commitment(&[1, 2, 3], &salt, &a));
    assert!(!verify_commitment(&[1, 2, 3], &salt, &b));
}

#[test]
fn test_generate_salt_is_deterministic() {
    let a = generate_salt("blockhash", 1234, "chain-1", 2);
    let b = generate_salt("blockhash", 1234, "chain-1", 2);
    assert_eq!(a, b);
    let c = generate_salt("blockhash", 1234, "chain-1", 3);
    assert_ne!(a, c);
    let d = generate_salt("blockhash", 1235, "chain-1", 2);
    assert_ne!(a, d);
}
