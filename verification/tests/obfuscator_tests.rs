use base64::Engine;
use yotion::codec::{decode_radix64, encode_radix64};
use yotion::errors::AppError;
use yotion::obfuscator::{decrypt_sensitive_data, encrypt_sensitive_data, EncryptionService};

fn service() -> EncryptionService {
    EncryptionService::new(String::from("yotion-secret-key-2024"))
}

fn xor_with_key(data: &[u8], key: &[u8]) -> Vec<u8> {
    data.iter().enumerate().map(|(i, &b)| b ^ key[i % key.len()]).collect()
}

#[test]
fn codec_classic_vectors() {
    assert_eq!(encode_radix64(&Vec::new()), Vec::<u8>::new());
    assert_eq!(encode_radix64(&b"f".to_vec()), b"Zg==".to_vec());
    assert_eq!(encode_radix64(&b"fo".to_vec()), b"Zm8=".to_vec());
    assert_eq!(encode_radix64(&b"foo".to_vec()), b"Zm9v".to_vec());
    assert_eq!(encode_radix64(&b"foobar".to_vec()), b"Zm9vYmFy".to_vec());
}

#[test]
fn codec_matches_reference_encoder() {
    let samples: Vec<Vec<u8>> = vec![
        vec![],
        vec![0],
        vec![255, 254, 253],
        (0u8..=255).collect(),
        b"The quick brown fox jumps over the lazy dog".to_vec(),
    ];
    for bytes in samples {
        let ours = String::from_utf8(encode_radix64(&bytes)).unwrap();
        let reference = base64::engine::general_purpose::STANDARD.encode(&bytes);
        assert_eq!(ours, reference);
    }
}

#[test]
fn codec_decode_inverts_encode() {
    for len in 0..40usize {
        let bytes: Vec<u8> = (0..len).map(|i| (i * 37 % 256) as u8).collect();
        let encoded = encode_radix64(&bytes);
        assert_eq!(decode_radix64(&encoded), Some(bytes));
    }
}

#[test]
fn codec_rejects_bad_shapes() {
    // a byte outside the alphabet
    assert_eq!(decode_radix64(&b"Zg=!".to_vec()), None);
    // a length that is not a multiple of four
    assert_eq!(decode_radix64(&b"Zg".to_vec()), None);
    // padding in a non-final group
    assert_eq!(decode_radix64(&b"Zg==Zm8=".to_vec()), None);
}

#[test]
fn obscure_matches_reference_pipeline() {
    let svc = service();
    let key = b"yotion-secret-key-2024";
    for plain in ["", "hello", "p4ssw0rd!", "emoji \u{1F600} text"] {
        let stored = svc.encrypt(plain).unwrap();
        let expected =
            base64::engine::general_purpose::STANDARD.encode(xor_with_key(plain.as_bytes(), key));
        assert_eq!(stored, expected);
    }
}

#[test]
fn round_trip_empty_string() {
    let svc = service();
    let stored = svc.encrypt("").unwrap();
    assert_eq!(stored, "");
    assert_eq!(svc.decrypt(&stored).unwrap(), "");
}

#[test]
fn round_trip_ascii() {
    let svc = service();
    let plain = "correct horse battery staple";
    let stored = svc.encrypt(plain).unwrap();
    assert_ne!(stored, plain);
    assert_eq!(svc.decrypt(&stored).unwrap(), plain);
}

#[test]
fn round_trip_multibyte() {
    let svc = service();
    for plain in ["h\u{e9}llo w\u{f6}rld", "\u{65e5}\u{672c}\u{8a9e}", "mixed \u{1F600}\u{00df}"] {
        let stored = svc.encrypt(plain).unwrap();
        assert!(stored.bytes().all(|b| b.is_ascii()));
        assert_eq!(svc.decrypt(&stored).unwrap(), plain);
    }
}

#[test]
fn round_trip_long_input() {
    let svc = service();
    let plain: String = "abcdefgh\u{00e9}".repeat(500);
    let stored = svc.encrypt(&plain).unwrap();
    assert_eq!(svc.decrypt(&stored).unwrap(), plain);
}

#[test]
fn obscure_is_deterministic() {
    let svc = service();
    let a = svc.encrypt("same input").unwrap();
    let b = svc.encrypt("same input").unwrap();
    assert_eq!(a, b);
}

#[test]
fn reveal_rejects_foreign_character() {
    let svc = service();
    // '!' is outside the radix-64 alphabet and is not '='
    let r = svc.decrypt("abc!");
    assert!(matches!(r, Err(AppError::Encryption(_))));
}

#[test]
fn reveal_rejects_inconsistent_padding() {
    let svc = service();
    assert!(svc.decrypt("A").is_err());
    assert!(svc.decrypt("AB=A").is_err());
    assert!(svc.decrypt("====").is_err());
}

#[test]
fn reveal_rejects_invalid_utf8_plaintext() {
    let svc = EncryptionService::new(String::from("k"));
    // 0xff ^ 'k' stored as radix-64: the XOR-reversed byte is not UTF-8
    let bad = encode_radix64(&vec![0xffu8 ^ b'k']);
    let stored = String::from_utf8(bad).unwrap();
    assert!(svc.decrypt(&stored).is_err());
}

#[test]
fn free_function_wrappers_agree_with_service() {
    let svc = service();
    let stored = encrypt_sensitive_data("top secret", &svc).unwrap();
    assert_eq!(stored, svc.encrypt("top secret").unwrap());
    assert_eq!(decrypt_sensitive_data(&stored, &svc).unwrap(), "top secret");
}

#[test]
fn error_messages_carry_their_prefix() {
    assert_eq!(
        AppError::Validation(String::from("bad input")).message(),
        "Validation error: bad input"
    );
    assert_eq!(AppError::NotFound(String::from("card 7")).message(), "Not found: card 7");
    assert_eq!(AppError::Database(String::from("locked")).message(), "Database error: locked");
    assert_eq!(AppError::Encryption(String::from("junk")).message(), "Encryption error: junk");
    assert_eq!(AppError::Io(String::from("gone")).message(), "IO error: gone");
}
