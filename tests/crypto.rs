use nanum::keys::{derive_key, open_filename, seal_filename, ShareSecrets};
use nanum::encoding::{decode_field, encode_field};
use nanum::error::ShareError;

fn hex(bytes: &[u8]) -> String {
    bytes.iter().map(|b| format!("{:02x}", b)).collect()
}

#[test]
fn derive_key_matches_rfc5869_case_3() {
    // HKDF-SHA256 with IKM = 22 bytes of 0x0b, empty salt, empty info: the
    // first 32 bytes of the expected output.
    let key = derive_key(&[0x0bu8; 22], &[]);
    assert_eq!(hex(&key), "8da4e775a563c18f715f802a063c5a31b8a11f5c5ee1879ec3454e5f3c738d2d");
}

#[test]
fn derive_key_depends_on_passphrase_and_salt() {
    let salt = [7u8; 32];
    let a = derive_key(b"hunter2", &salt);
    let b = derive_key(b"hunter3", &salt);
    let c = derive_key(b"hunter2", &[8u8; 32]);
    assert_eq!(a.len(), 32);
    assert_eq!(a, derive_key(b"hunter2", &salt));
    assert_ne!(a, b);
    assert_ne!(a, c);
}

#[test]
fn filename_round_trip_and_wrong_key() {
    let key = derive_key(b"pw", &[1u8; 32]);
    let nonce = [3u8; 24];
    let sealed = seal_filename(&key, &nonce, "résumé.txt".as_bytes()).expect("sealed");
    assert_eq!(sealed.len(), "résumé.txt".len() + 16);
    assert_ne!(&sealed[..sealed.len() - 16], "résumé.txt".as_bytes());
    assert_eq!(open_filename(&key, &nonce, &sealed), Ok("résumé.txt".as_bytes().to_vec()));
    let other = derive_key(b"pw2", &[1u8; 32]);
    assert_eq!(open_filename(&other, &nonce, &sealed), Err(ShareError::WrongPassphrase));
    assert_eq!(open_filename(&key, &[4u8; 24], &sealed), Err(ShareError::WrongPassphrase));
    assert_eq!(open_filename(&key, &nonce, &sealed[..10]), Err(ShareError::WrongPassphrase));
}

#[test]
fn empty_filename_seals_to_a_tag() {
    let key = derive_key(b"pw", &[1u8; 32]);
    let sealed = seal_filename(&key, &[0u8; 24], b"").expect("sealed");
    assert_eq!(sealed.len(), 16);
    assert_eq!(open_filename(&key, &[0u8; 24], &sealed), Ok(Vec::new()));
}

#[test]
fn secrets_have_their_lengths() {
    let s = ShareSecrets::generate().expect("entropy");
    assert_eq!(s.salt.len(), 32);
    assert_eq!(s.stream_nonce.len(), 19);
    assert_eq!(s.filename_nonce.len(), 24);
    assert!(s.salt.iter().any(|b| *b != 0));
}

#[test]
fn secrets_are_fresh_across_many_draws() {
    let mut seen = std::collections::HashSet::new();
    for _ in 0..20_000 {
        let s = ShareSecrets::generate().expect("entropy");
        assert!(seen.insert((s.salt, s.stream_nonce, s.filename_nonce)));
    }
}

#[test]
fn descriptor_fields_in_base64() {
    assert_eq!(encode_field(b""), "");
    assert_eq!(encode_field(b"f"), "Zg==");
    assert_eq!(encode_field(b"fo"), "Zm8=");
    assert_eq!(encode_field(b"foo"), "Zm9v");
    assert_eq!(encode_field(b"foobar"), "Zm9vYmFy");
    assert_eq!(encode_field(&[0xfb, 0xff]), "+/8=");
    assert_eq!(decode_field("Zm9vYmFy"), Ok(b"foobar".to_vec()));
    assert_eq!(decode_field(""), Ok(Vec::new()));
    let bytes: Vec<u8> = (0..=255u8).collect();
    assert_eq!(decode_field(&encode_field(&bytes)), Ok(bytes));
    assert_eq!(decode_field("Zm9v!"), Err(ShareError::MalformedMetadata));
    assert_eq!(decode_field("Zm9"), Err(ShareError::MalformedMetadata));
}
