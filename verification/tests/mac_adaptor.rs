use bcrypt_pbkdf::bhash;
use bcrypt_pbkdf::Bhash;
use sha2::Digest;
use sha2::Sha512;

fn key64() -> Vec<u8> {
    let mut key = Vec::new();
    for i in 0..64 {
        key.push((3 * i + 1) as u8);
    }
    key
}

#[test]
fn mac_result_is_bhash_of_key_and_salt_digest() {
    let key = key64();
    let mut mac = Bhash::new(&key);
    mac.input(b"some accumulated ");
    mac.input(b"salt bytes");
    let tag = mac.result();

    let digest = Sha512::digest(b"some accumulated salt bytes");
    let expected = bhash(&key, digest.as_slice());
    assert_eq!(tag, expected);
    assert_eq!(tag.len(), 32);
}

#[test]
fn mac_reset_returns_to_fresh_state() {
    let key = key64();
    let mut fresh = Bhash::new(&key);
    fresh.input(b"salt");
    let fresh_tag = fresh.result();

    let mut reused = Bhash::new(&key);
    reused.input(b"something else entirely");
    reused.reset();
    reused.input(b"salt");
    let reused_tag = reused.result();

    assert_eq!(fresh_tag, reused_tag);
}

#[test]
fn mac_distinguishes_input_split_points_not_at_all() {
    let key = key64();
    let mut one_piece = Bhash::new(&key);
    one_piece.input(b"abcdef");
    let mut two_pieces = Bhash::new(&key);
    two_pieces.input(b"abc");
    two_pieces.input(b"def");
    assert_eq!(one_piece.result(), two_pieces.result());
}
