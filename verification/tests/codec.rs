use nonce_guess::codec::compare_guesses;
use nonce_guess::codec::decode_guess;
use nonce_guess::codec::encode_guess;
use nonce_guess::types::Guess;

#[test]
fn test_guess_encode_decode() {
    let orig_guess = Guess {
        player: uuid::Uuid::new_v4().as_u128(),
        nonce: 12345678,
    };
    let encoded_guess = encode_guess(&orig_guess);
    let decoded_guess = decode_guess(&encoded_guess).expect("valid encoding");
    assert_eq!(orig_guess, decoded_guess);
}

#[test]
fn encode_produces_nonce_then_player_bytes() {
    let guess = Guess {
        player: 0x0102_0304_0506_0708_090a_0b0c_0d0e_0f10,
        nonce: 0xDEADBEEF,
    };
    let encoded = encode_guess(&guess);
    assert_eq!(
        encoded,
        vec![
            0xDE, 0xAD, 0xBE, 0xEF, 0x01, 0x02, 0x03, 0x04, 0x05, 0x06, 0x07, 0x08, 0x09, 0x0A,
            0x0B, 0x0C, 0x0D, 0x0E, 0x0F, 0x10,
        ]
    );
}

#[test]
fn encode_decode_boundary_values() {
    for guess in [
        Guess { player: 0, nonce: 0 },
        Guess { player: u128::MAX, nonce: u32::MAX },
        Guess { player: 1, nonce: u32::MAX },
        Guess { player: u128::MAX, nonce: 0 },
    ] {
        let encoded = encode_guess(&guess);
        assert_eq!(encoded.len(), 20);
        assert_eq!(decode_guess(&encoded), Some(guess));
    }
}

#[test]
fn decode_rejects_wrong_length() {
    assert_eq!(decode_guess(&[]), None);
    assert_eq!(decode_guess(&[0u8; 19]), None);
    assert_eq!(decode_guess(&[0u8; 21]), None);
}

#[test]
fn encoding_orders_by_nonce_first() {
    let low = encode_guess(&Guess { player: u128::MAX, nonce: 5 });
    let high = encode_guess(&Guess { player: 0, nonce: 6 });
    assert!(low.as_slice() < high.as_slice());
}

#[test]
fn compare_guesses_orders_by_nonce_only() {
    let a = Guess { player: 7, nonce: 10 };
    let b = Guess { player: 3, nonce: 20 };
    let c = Guess { player: 9, nonce: 10 };
    assert_eq!(compare_guesses(&a, &b), std::cmp::Ordering::Less);
    assert_eq!(compare_guesses(&b, &a), std::cmp::Ordering::Greater);
    assert_eq!(compare_guesses(&a, &c), std::cmp::Ordering::Equal);
}
