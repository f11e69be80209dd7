use csv2xlsx::codec::{base64_decode, base64_encode};

fn lcg_bytes(seed: u64, len: usize) -> Vec<u8> {
    let mut state = seed;
    let mut out = Vec::with_capacity(len);
    for _ in 0..len {
        state = state.wrapping_mul(6364136223846793005).wrapping_add(1442695040888963407);
        out.push((state >> 33) as u8);
    }
    out
}

#[test]
fn encode_empty_is_empty_string() {
    assert_eq!(base64_encode(&Vec::new()), "");
}

#[test]
fn encode_known_vectors() {
    assert_eq!(base64_encode(&b"f".to_vec()), "Zg==");
    assert_eq!(base64_encode(&b"fo".to_vec()), "Zm8=");
    assert_eq!(base64_encode(&b"foo".to_vec()), "Zm9v");
    assert_eq!(base64_encode(&b"foob".to_vec()), "Zm9vYg==");
    assert_eq!(base64_encode(&b"fooba".to_vec()), "Zm9vYmE=");
    assert_eq!(base64_encode(&b"foobar".to_vec()), "Zm9vYmFy");
}

#[test]
fn encode_binary_bytes() {
    assert_eq!(base64_encode(&vec![0, 0, 0]), "AAAA");
    assert_eq!(base64_encode(&vec![255, 255, 255]), "////");
    assert_eq!(base64_encode(&vec![0]), "AA==");
    assert_eq!(base64_encode(&vec![255]), "/w==");
    assert_eq!(base64_encode(&vec![251, 239]), "++8=");
}

#[test]
fn round_trip_identity_many_lengths() {
    for len in 0..=60 {
        let bytes = lcg_bytes(7 + len as u64, len);
        let encoded = base64_encode(&bytes);
        let decoded = base64_decode(&encoded).expect("an encoding must decode");
        assert_eq!(decoded, bytes, "round trip failed at length {}", len);
    }
}

#[test]
fn round_trip_identity_null_bytes() {
    for len in [1usize, 2, 3, 4, 47] {
        let bytes = vec![0u8; len];
        assert_eq!(base64_decode(&base64_encode(&bytes)).unwrap(), bytes);
    }
}

#[test]
fn encoding_length_law() {
    for len in 0..=60 {
        let bytes = lcg_bytes(99 + len as u64, len);
        let encoded = base64_encode(&bytes);
        assert_eq!(encoded.len(), (len + 2) / 3 * 4, "length law failed at {}", len);
    }
}

#[test]
fn encoded_alphabet_is_printable() {
    let bytes = lcg_bytes(5, 200);
    let encoded = base64_encode(&bytes);
    assert!(encoded
        .chars()
        .all(|c| c.is_ascii_alphanumeric() || c == '+' || c == '/' || c == '='));
    assert!(!encoded.contains('\n'));
}

#[test]
fn decode_rejects_bad_length() {
    assert_eq!(base64_decode("Zg"), None);
    assert_eq!(base64_decode("Zm9vY"), None);
    assert_eq!(base64_decode("Zg==\n"), None);
}

#[test]
fn decode_rejects_bad_characters() {
    assert_eq!(base64_decode("Zg=!"), None);
    assert_eq!(base64_decode("Z==="), None);
    assert_eq!(base64_decode("Zm9!"), None);
    assert_eq!(base64_decode("=g=="), None);
}

#[test]
fn decode_rejects_nonzero_padding_bits() {
    assert_eq!(base64_decode("AB=="), None);
    assert_eq!(base64_decode("AAB="), None);
}

#[test]
fn decode_accepts_canonical_forms() {
    assert_eq!(base64_decode("").unwrap(), Vec::<u8>::new());
    assert_eq!(base64_decode("Zm9v").unwrap(), b"foo".to_vec());
    assert_eq!(base64_decode("Zm9vYg==").unwrap(), b"foob".to_vec());
    assert_eq!(base64_decode("Zm9vYmE=").unwrap(), b"fooba".to_vec());
}
