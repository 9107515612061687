use keymaker::{checksum, dhash256, DHash256};

fn sha256(data: &[u8]) -> Vec<u8> {
    ring::digest::digest(&ring::digest::SHA256, data).as_ref().to_vec()
}

#[test]
fn dhash256_of_empty_input() {
    let expected = hex::decode("5df6e0e2761359d30a8275058e299fcc0381534545f55cf43e41983f5d4c9456").unwrap();
    assert_eq!(dhash256(&[]).to_vec(), expected);
}

#[test]
fn dhash256_is_sha256_twice() {
    let data = b"hello";
    assert_eq!(dhash256(data).to_vec(), sha256(&sha256(data)));
    assert_ne!(dhash256(data).to_vec(), sha256(data));
}

#[test]
fn checksum_is_first_four_bytes_of_dhash256() {
    let data = [128u8, 1, 2, 3];
    assert_eq!(checksum(&data).to_vec(), dhash256(&data)[..4].to_vec());
}

#[test]
fn hasher_gathers_input_in_pieces() {
    let mut hasher = DHash256::new();
    hasher.input(b"hel");
    hasher.input(b"lo");
    assert_eq!(hasher.finish(), dhash256(b"hello"));
}

#[test]
fn hasher_result_starts_afresh() {
    let mut hasher = DHash256::new();
    hasher.input(b"abc");
    let mut out = [0u8; 32];
    hasher.result(&mut out);
    assert_eq!(out, dhash256(b"abc"));
    hasher.input(b"xyz");
    assert_eq!(hasher.finish(), dhash256(b"xyz"));
}

#[test]
fn hasher_reset_forgets_input() {
    let mut hasher = DHash256::new();
    hasher.input(b"abc");
    hasher.reset();
    assert_eq!(hasher.finish(), dhash256(&[]));
}
