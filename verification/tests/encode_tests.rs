use b64_encoder::bytes_to_base64;
use base64::Engine;

#[test]
fn empty_input_gives_empty_string() {
    assert_eq!(bytes_to_base64(&[]), "");
}

#[test]
fn three_bytes_man() {
    assert_eq!(bytes_to_base64(&[0x4D, 0x61, 0x6E]), "TWFu");
}

#[test]
fn two_bytes_ma() {
    assert_eq!(bytes_to_base64(&[0x4D, 0x61]), "TWE=");
}

#[test]
fn one_byte_m() {
    assert_eq!(bytes_to_base64(&[0x4D]), "TQ==");
}

#[test]
fn all_ones_gives_slashes() {
    assert_eq!(bytes_to_base64(&[0xFF, 0xFF, 0xFF]), "////");
}

#[test]
fn longer_ascii_sample() {
    assert_eq!(bytes_to_base64(b"Many hands make light work."), "TWFueSBoYW5kcyBtYWtlIGxpZ2h0IHdvcmsu");
}

#[test]
fn output_length_is_four_times_ceil_of_thirds() {
    for n in 0..32usize {
        let bytes = vec![0xA5u8; n];
        let expected = 4 * ((n + 2) / 3);
        assert_eq!(bytes_to_base64(&bytes).len(), expected);
    }
}

#[test]
fn output_uses_only_alphabet_characters() {
    let bytes: Vec<u8> = (0..=255u8).collect();
    for c in bytes_to_base64(&bytes).chars() {
        let ok = c.is_ascii_uppercase() || c.is_ascii_lowercase() || c.is_ascii_digit() || c == '+'
            || c == '/' || c == '=';
        assert!(ok, "character {c} is outside the alphabet");
    }
}

#[test]
fn padding_count_follows_input_length() {
    for n in 0..31usize {
        let bytes = vec![0x42u8; n];
        let pads = bytes_to_base64(&bytes).chars().filter(|&c| c == '=').count();
        let expected = match n % 3 {
            0 => 0,
            1 => 2,
            _ => 1,
        };
        assert_eq!(pads, expected, "wrong padding for length {n}");
    }
}

#[test]
fn matches_reference_encoder_on_single_bytes() {
    for b in 0..=255u8 {
        let ours = bytes_to_base64(&[b]);
        let reference = base64::engine::general_purpose::STANDARD.encode([b]);
        assert_eq!(ours, reference);
    }
}

#[test]
fn matches_reference_encoder_on_varied_inputs() {
    let mut bytes: Vec<u8> = Vec::new();
    let mut x: u8 = 7;
    for n in 0..200usize {
        let ours = bytes_to_base64(&bytes);
        let reference = base64::engine::general_purpose::STANDARD.encode(&bytes);
        assert_eq!(ours, reference, "mismatch at length {n}");
        x = x.wrapping_mul(31).wrapping_add(17);
        bytes.push(x);
    }
}

#[test]
fn reference_decoder_round_trips() {
    let mut bytes: Vec<u8> = Vec::new();
    let mut x: u8 = 101;
    for n in 0..200usize {
        let encoded = bytes_to_base64(&bytes);
        let decoded = base64::engine::general_purpose::STANDARD.decode(&encoded).unwrap();
        assert_eq!(decoded, bytes, "round trip failed at length {n}");
        x = x.wrapping_mul(131).wrapping_add(7);
        bytes.push(x);
    }
}
