use keymaker::{
    Bip32Error, CompactSignature, Error, KeyPair, MasterExtendedKeys, Network, PrivateKey, PublicKey, Seed,
    SeedBuilder, Signature, WordList,
};
use num::BigUint;

fn english() -> WordList {
    let words: Vec<String> = bip39::Language::English.word_list().iter().map(|w| w.to_string()).collect();
    WordList::new(words).unwrap()
}

fn secret_from_hex(text: &str) -> [u8; 32] {
    let mut secret = [0u8; 32];
    hex::decode_to_slice(text, &mut secret).unwrap();
    secret
}

fn curve_order() -> [u8; 32] {
    secret_from_hex("fffffffffffffffffffffffffffffffebaaedce6af48a03bbfd25e8cd0364141")
}

fn sample_key(network: Network, compressed: bool) -> PrivateKey {
    PrivateKey {
        network,
        secret: secret_from_hex("0c28fca386c7a227600b2fe50b7cae11ec86d3bf1fbe471be89827e19d72aa1d"),
        compressed,
    }
}

#[test]
fn key_gen_test() {
    let list = english();
    let Seed { entropy, .. } = SeedBuilder::new().build(&list).unwrap();
    let keys = MasterExtendedKeys::new(entropy, None, Network::Testnet, false);

    let keys = keys.unwrap();
    let public = keys.pubkey();
    let private = keys.privkey();
    let chain_code = keys.chain_code();

    if let PublicKey::Standard(pub_key) = public {
        assert_eq!(pub_key.len(), 65);
        assert_eq!(private.secret.len(), 32);
        assert_eq!(chain_code.len(), 32);
    } else {
        assert!(false);
    }
}

#[test]
fn keypair_gen() {
    let list = english();
    let Seed { entropy, .. } = SeedBuilder::new().build(&list).unwrap();
    let keys = MasterExtendedKeys::new(entropy, None, Network::Testnet, false).unwrap();
    let _ = KeyPair::from_private(keys.privkey(), false);
}

#[test]
fn display_keys() {
    let list = english();
    let Seed { entropy, .. } = SeedBuilder::new().build(&list).unwrap();
    let keys = MasterExtendedKeys::new(entropy, None, Network::Testnet, false).unwrap();

    let kp = KeyPair::from_private(keys.privkey(), false).unwrap();

    assert_eq!(kp.private().secret.len(), 32);

    if let PublicKey::Standard(inner) = kp.public() {
        assert_eq!(inner.len(), 65);
    }
}

fn hmac_tag(key: &[u8], message: &[u8]) -> Vec<u8> {
    let key = ring::hmac::Key::new(ring::hmac::HMAC_SHA512, key);
    ring::hmac::sign(&key, message).as_ref().to_vec()
}

#[test]
fn master_key_splits_the_hmac_tag() {
    let seed = [0x33u8; 64];
    let tag = hmac_tag(b"default_seed", &seed);
    let keys = MasterExtendedKeys::new(seed, None, Network::Mainnet, true).unwrap();
    assert_eq!(keys.privkey().secret.to_vec(), tag[..32].to_vec());
    assert_eq!(keys.chain_code().to_vec(), tag[32..].to_vec());
    assert_eq!(keys.privkey().network, Network::Mainnet);
    assert!(keys.privkey().compressed);

    let tag = hmac_tag(b"other", &seed);
    let keys = MasterExtendedKeys::new(seed, Some("other"), Network::Testnet, false).unwrap();
    assert_eq!(keys.privkey().secret.to_vec(), tag[..32].to_vec());
    assert_eq!(keys.chain_code().to_vec(), tag[32..].to_vec());
}

#[test]
fn master_key_derivation_is_deterministic() {
    let seed = [0x21u8; 64];
    let first = MasterExtendedKeys::new(seed, Some("domain"), Network::Testnet, true).unwrap();
    let second = MasterExtendedKeys::new(seed, Some("domain"), Network::Testnet, true).unwrap();
    assert_eq!(first.privkey(), second.privkey());
    assert_eq!(first.chain_code(), second.chain_code());
    assert_eq!(first.pubkey(), second.pubkey());
}

#[test]
fn public_keys_match_the_curve_library() {
    let secret = secp256k1::SecretKey::from_slice(&sample_key(Network::Mainnet, false).secret).unwrap();
    let expected = secp256k1::PublicKey::from_secret_key(&secp256k1::Secp256k1::new(), &secret);

    let kp = KeyPair::from_private(sample_key(Network::Mainnet, false), false).unwrap();
    match kp.public() {
        PublicKey::Standard(bytes) => {
            assert_eq!(bytes[0], 4);
            assert_eq!(*bytes, expected.serialize_uncompressed());
        }
        PublicKey::Compressed(_) => panic!("expected the uncompressed form"),
    }
    let kp = KeyPair::from_private(sample_key(Network::Mainnet, true), true).unwrap();
    match kp.pubkey() {
        PublicKey::Compressed(bytes) => {
            assert!(bytes[0] == 2 || bytes[0] == 3);
            assert_eq!(*bytes, expected.serialize());
        }
        PublicKey::Standard(_) => panic!("expected the compressed form"),
    }
    assert_eq!(kp.pubkey().to_hex().len(), 66);
    assert_eq!(kp.secret(), &sample_key(Network::Mainnet, true));
}

#[test]
fn public_key_shapes_hold_for_many_secrets() {
    for i in 1u8..40 {
        let key = PrivateKey { network: Network::Testnet, secret: [i; 32], compressed: false };
        let standard = KeyPair::from_private(key, false).unwrap();
        assert!(matches!(standard.public(), PublicKey::Standard(b) if b[0] == 4));
        assert_eq!(standard.public().to_hex().len(), 130);
        let compressed = KeyPair::from_private(key, true).unwrap();
        assert!(matches!(compressed.public(), PublicKey::Compressed(b) if b[0] == 2 || b[0] == 3));
    }
}

#[test]
fn out_of_range_secrets_are_rejected() {
    let zero = PrivateKey { network: Network::Mainnet, secret: [0u8; 32], compressed: false };
    assert!(matches!(KeyPair::from_private(zero, false), Err(Bip32Error::InvalidScalar)));
    let order = PrivateKey { network: Network::Mainnet, secret: curve_order(), compressed: false };
    assert!(matches!(KeyPair::from_private(order, true), Err(Bip32Error::InvalidScalar)));
    assert!(matches!(order.sign(&[1u8; 32]), Err(Error::InvalidScalar)));
    assert!(matches!(zero.sign_compact(&[1u8; 32]), Err(Error::InvalidScalar)));
    let mut below = curve_order();
    below[31] -= 1;
    let top = PrivateKey { network: Network::Mainnet, secret: below, compressed: false };
    assert!(KeyPair::from_private(top, false).is_ok());
}

#[test]
fn layout_of_a_known_key() {
    let key = sample_key(Network::Mainnet, false);
    let layout = key.layout();
    assert_eq!(layout.len(), 37);
    assert_eq!(layout[0], 128);
    assert_eq!(key.to_base58(), "5HueCGU8rMjxEXxiPuD5BDku4MkFqeZyd4dZ1jvhTVqvbTLvyTJ");
    let compressed = sample_key(Network::Mainnet, true);
    assert_eq!(compressed.layout().len(), 38);
    assert_eq!(compressed.to_base58(), "KwdMAjGmerYanjeui5SHS7JkmpZvVipYvB2LJGU1ZxJwYvP98617");
    let testnet = sample_key(Network::Testnet, false);
    assert_eq!(testnet.layout()[0], 239);
}

#[test]
fn from_layout_inverts_layout() {
    for network in [Network::Mainnet, Network::Testnet] {
        for compressed in [false, true] {
            let key = sample_key(network, compressed);
            assert_eq!(PrivateKey::from_layout(&key.layout()), Ok(key));
        }
    }
}

#[test]
fn from_layout_errors() {
    let layout = sample_key(Network::Mainnet, true).layout();
    assert_eq!(PrivateKey::from_layout(&layout[..36]), Err(Error::InvalidPrivate));
    assert_eq!(PrivateKey::from_layout(&[]), Err(Error::InvalidPrivate));

    let mut bad_flag = layout.clone();
    bad_flag[33] = 2;
    assert_eq!(PrivateKey::from_layout(&bad_flag), Err(Error::InvalidPrivate));

    let mut bad_sum = layout.clone();
    bad_sum[37] ^= 1;
    assert_eq!(PrivateKey::from_layout(&bad_sum), Err(Error::InvalidChecksum));

    let mut body = layout[..34].to_vec();
    body[0] = 7;
    let sum = keymaker::checksum(&body);
    body.extend_from_slice(&sum);
    assert_eq!(PrivateKey::from_layout(&body), Err(Error::InvalidPrivate));
}

#[test]
fn changing_any_byte_of_a_layout_is_rejected() {
    for compressed in [false, true] {
        let layout = sample_key(Network::Testnet, compressed).layout();
        for i in 0..layout.len() {
            for delta in [1u8, 0x80] {
                let mut changed = layout.clone();
                changed[i] = changed[i].wrapping_add(delta);
                let r = PrivateKey::from_layout(&changed);
                assert!(r == Err(Error::InvalidChecksum) || r == Err(Error::InvalidPrivate));
            }
        }
    }
}

#[test]
fn signing_is_deterministic_and_verifies() {
    let key = sample_key(Network::Mainnet, true);
    let message = [0x5cu8; 32];
    let first = key.sign(&message).unwrap();
    let second = key.sign(&message).unwrap();
    assert_eq!(first, second);
    assert!(first.check_low_s());

    let secp = secp256k1::Secp256k1::new();
    let secret = secp256k1::SecretKey::from_slice(&key.secret).unwrap();
    let public = secp256k1::PublicKey::from_secret_key(&secp, &secret);
    let parsed = secp256k1::ecdsa::Signature::from_der(&first.0).unwrap();
    let digest = secp256k1::Message::from_digest(message);
    assert!(secp.verify_ecdsa(&digest, &parsed, &public).is_ok());
    assert_eq!(first.to_hex(), hex::encode(&first.0));
}

fn der(r: &[u8], s: &[u8]) -> Vec<u8> {
    let mut out = vec![0x30, (4 + r.len() + s.len()) as u8, 0x02, r.len() as u8];
    out.extend_from_slice(r);
    out.push(0x02);
    out.push(s.len() as u8);
    out.extend_from_slice(s);
    out
}

#[test]
fn low_s_check() {
    let half = hex::decode("7fffffffffffffffffffffffffffffff5d576e7357a4501ddfe92f46681b20a0").unwrap();
    let mut above = half.clone();
    above[31] += 1;
    assert!(Signature(der(&[1], &half)).check_low_s());
    assert!(!Signature(der(&[1], &above)).check_low_s());
    assert!(Signature(der(&[1], &[1])).check_low_s());
    assert!(!Signature(der(&[1], &[0])).check_low_s());
    let mut padded = vec![0u8];
    padded.extend_from_slice(&above);
    assert!(!Signature(der(&[1], &padded)).check_low_s());
    let mut padded_half = vec![0u8];
    padded_half.extend_from_slice(&half);
    assert!(Signature(der(&[1], &padded_half)).check_low_s());
    let mut broken = der(&[1], &[1]);
    broken[1] += 1;
    assert!(!Signature(broken).check_low_s());
    assert!(!Signature(vec![]).check_low_s());

    let key = sample_key(Network::Mainnet, false);
    let low = key.sign(&[9u8; 32]).unwrap();
    let parsed = secp256k1::ecdsa::Signature::from_der(&low.0).unwrap().serialize_compact();
    let order = BigUint::from_bytes_be(&curve_order());
    let high_s = (&order - BigUint::from_bytes_be(&parsed[32..])).to_bytes_be();
    assert!(!Signature(der(&parsed[..32], &high_s)).check_low_s());
}

#[test]
fn compact_signature_recovers_the_signer() {
    let message = [0x17u8; 32];
    for compressed in [false, true] {
        let key = sample_key(Network::Testnet, compressed);
        let signature = key.sign_compact(&message).unwrap();
        let header = signature.bytes()[0];
        if compressed {
            assert!((31..=34).contains(&header));
        } else {
            assert!((27..=30).contains(&header));
        }
        let pair = KeyPair::from_private(key, compressed).unwrap();
        assert_eq!(signature.recover(&message), Ok(*pair.public()));
        assert_eq!(signature.to_hex().len(), 130);
        let other = signature.recover(&[0x18u8; 32]);
        assert_ne!(other, Ok(*pair.public()));
    }
}

#[test]
fn compact_signature_with_bad_header_is_rejected() {
    let key = sample_key(Network::Testnet, false);
    let mut bytes = key.sign_compact(&[1u8; 32]).unwrap().bytes();
    bytes[0] = 26;
    assert_eq!(CompactSignature::new(bytes).recover(&[1u8; 32]), Err(Error::InvalidSignature));
    bytes[0] = 35;
    assert_eq!(CompactSignature::new(bytes).recover(&[1u8; 32]), Err(Error::InvalidSignature));
}

#[test]
fn signature_from_hex() {
    let sig = Signature::from_hex("3006020101020102").unwrap();
    assert_eq!(sig.0, vec![0x30, 0x06, 0x02, 0x01, 0x01, 0x02, 0x01, 0x02]);
    assert!(sig.check_low_s());
    assert_eq!(Signature::from_hex("ABcd").unwrap().0, vec![0xab, 0xcd]);
    assert_eq!(Signature::from_hex("").unwrap().0, Vec::<u8>::new());
    assert_eq!(Signature::from_hex("abc"), Err(Error::InvalidSignature));
    assert_eq!(Signature::from_hex("zz"), Err(Error::InvalidSignature));
    let signed = sample_key(Network::Mainnet, false).sign(&[3u8; 32]).unwrap();
    assert_eq!(Signature::from_hex(&signed.to_hex()), Ok(signed));
}

#[test]
fn base58_text_matches_the_base58_crate() {
    let key = sample_key(Network::Testnet, true);
    let text = key.to_base58();
    assert_eq!(text, base58::ToBase58::to_base58(&key.layout()[..]));
    assert!(text.starts_with('c'));
}
