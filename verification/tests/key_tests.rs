use p2p::constants::K;
use p2p::kademlia::key::{HexError, Key, KeyError};
use sha1::{Digest, Sha1};

#[test]
fn test_random_keys_are_not_all_zero() {
    let key = Key::new_random();
    assert_ne!(key.to_bytes(), vec![0u8; K], "Random key should not be zero array");
}

#[test]
fn test_from_hex_str_ok() {
    let hex_len = K * 2;
    let valid_hex = "f".repeat(hex_len);
    let key = Key::from_hex_str(&valid_hex).expect("Should parse fine");
    assert_eq!(key.to_bytes().len(), K);
    assert!(key.to_bytes().iter().all(|&b| b == 0xff));
}

#[test]
fn test_from_hex_str_error_wrong_length() {
    let hex_len = K * 2;
    let invalid_hex = "f".repeat(hex_len - 1);
    let err = Key::from_hex_str(&invalid_hex).unwrap_err();
    match err {
        KeyError::WrongHexStringLength { expected, got } => {
            assert_eq!(expected, hex_len);
            assert_eq!(got, hex_len - 1);
        }
        _ => panic!("Unexpected error type"),
    }
}

#[test]
fn test_from_hex_str_error_decode() {
    let hex_len = K * 2;
    let invalid_hex = "z".repeat(hex_len);
    let err = Key::from_hex_str(&invalid_hex).unwrap_err();
    match err {
        KeyError::DecodeHexError(_) => {}
        _ => panic!("Unexpected error type"),
    }
}

#[test]
fn test_from_input() {
    let input = b"some data";
    let key = Key::from_input(input);
    let mut hasher = Sha1::new();
    hasher.update(input);
    let hash_result = hasher.finalize();
    let expected_hex: String = hash_result.iter().take(K).map(|b| format!("{:02x}", b)).collect();
    assert_eq!(key.to_hex_string(), expected_hex);
}

#[test]
fn test_distance_and_leading_zeros() {
    let zero_hex = "0".repeat(K * 2);
    let max_hex = "f".repeat(K * 2);
    let k1 = Key::from_hex_str(&zero_hex).unwrap();
    let k2 = Key::from_hex_str(&max_hex).unwrap();
    let dist = k1.distance(&k2);
    assert!(dist.iter().all(|&b| b == 0xff), "All bytes in the distance should be 0xFF");
    let lz = k1.leading_zeros(&k2);
    assert_eq!(lz, 0, "Distance of all 0xFF bytes has 0 leading zeros");
}

#[test]
fn test_ordering() {
    let zero_hex = "0".repeat(K * 2);
    let max_hex = "f".repeat(K * 2);
    let smaller = Key::from_hex_str(&zero_hex).unwrap();
    let bigger = Key::from_hex_str(&max_hex).unwrap();
    assert!(smaller < bigger);
    assert!(bigger > smaller);
    assert_eq!(smaller, smaller);
}

#[test]
fn key_hex_roundtrip_and_distance_laws() {
    for _ in 0..50 {
        let a = Key::new_random();
        let b = Key::new_random();
        assert_eq!(Key::from_hex_str(&a.to_hex_string()), Ok(a));
        assert_eq!(a.distance(&b), b.distance(&a));
        assert_eq!(a.leading_zeros(&a), 8 * K);
        if a != b {
            assert!(a.leading_zeros(&b) < 8 * K);
        }
    }
}

#[test]
fn key_hex_errors_report_first_bad_character() {
    let mut s = "0".repeat(K * 2);
    s.replace_range(5..6, "g");
    s.replace_range(9..10, "x");
    assert_eq!(
        Key::from_hex_str(&s),
        Err(KeyError::DecodeHexError(HexError::InvalidHexCharacter { c: 'g', index: 5 }))
    );
    let upper = "AB".repeat(K);
    assert_eq!(Key::from_hex_str(&upper).unwrap().to_bytes(), vec![0xab; K]);
}

#[test]
fn key_leading_zeros_and_closeness() {
    let mut a = [0u8; K];
    let mut b = [0u8; K];
    a[1] = 0b0000_0001;
    b[1] = 0b0001_0000;
    let ka = Key::from_bytes(a);
    let kb = Key::from_bytes(b);
    assert_eq!(ka.leading_zeros(&kb), 8 + 3);
    let target = Key::from_bytes([0u8; K]);
    assert!(ka.is_closer(&kb, &target));
    assert!(!kb.is_closer(&ka, &target));
    assert!(!ka.is_closer(&ka, &target));
}

#[test]
fn hex_text_reads_back_in_lowercase() {
    let text = "ABCDEF0123456789abcdefABCDEF0123456789aB";
    let key = Key::from_hex_str(text).unwrap();
    assert_eq!(key.to_hex_string(), text.to_lowercase());
    let again = Key::from_hex_str(&key.to_hex_string()).unwrap();
    assert_eq!(again, key);
}
