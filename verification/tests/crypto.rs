use rush::crypto::{base64, ct_eq, hex, sha1, sha256};
use rush::http::accept_key;

fn text(v: Vec<char>) -> String {
    v.into_iter().collect()
}

#[test]
fn sha1_known_vectors() {
    assert_eq!(text(hex(&sha1(b"abc"))), "a9993e364706816aba3e25717850c26c9cd0d89d");
    assert_eq!(text(hex(&sha1(b""))), "da39a3ee5e6b4b0d3255bfef95601890afd80709");
    assert_eq!(
        text(hex(&sha1(b"abcdbcdecdefdefgefghfghighijhijkijkljklmklmnlmnomnopnopq"))),
        "84983e441c3bd26ebaae4aa1f95129e5e54670f1"
    );
}

#[test]
fn sha256_known_vectors() {
    assert_eq!(
        text(hex(&sha256(b"abc"))),
        "ba7816bf8f01cfea414140de5dae2223b00361a396177a9cb410ff61f20015ad"
    );
    assert_eq!(
        text(hex(&sha256(b""))),
        "e3b0c44298fc1c149afbf4c8996fb92427ae41e4649b934ca495991b7852b855"
    );
}

#[test]
fn base64_padding() {
    assert_eq!(text(base64(b"hello")), "aGVsbG8=");
    assert_eq!(text(base64(b"hell")), "aGVsbA==");
    assert_eq!(text(base64(b"hel")), "aGVs");
    assert_eq!(text(base64(b"")), "");
}

#[test]
fn rfc6455_accept_key() {
    assert_eq!(accept_key("dGhlIHNhbXBsZSBub25jZQ=="), "s3pPLMBiTxaQ9kYGzzhZRbK+xOo=");
}

#[test]
fn constant_time_equality() {
    assert!(ct_eq(b"Bearer s3cret", b"Bearer s3cret"));
    assert!(!ct_eq(b"Bearer s3cret", b"Bearer s3creT"));
    assert!(!ct_eq(b"abc", b"abcd"));
    assert!(ct_eq(b"", b""));
}

#[test]
fn hex_digits() {
    assert_eq!(text(hex(&[0x00, 0x0f, 0xa5, 0xff])), "000fa5ff");
    assert_eq!(text(hex(&[])), "");
}

#[test]
fn long_message_digests() {
    let million_a = vec![b'a'; 1_000_000];
    assert_eq!(
        text(hex(&sha256(&million_a))),
        "cdc76e5c9914fb9281a1c7e284d73e67f1809a48a497200e046d39ccc7112cd0"
    );
    assert_eq!(text(hex(&sha1(&million_a))), "34aa973cd4c4daa4f61eeb2bdbad27316534016f");
}
