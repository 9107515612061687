use keymaker::mnemonic::encode;
use keymaker::{Bip39Error, MnemonicSize, Seed, SeedBuilder, WordList};
use rand_core::{OsRng, RngCore};
use ring::{digest, pbkdf2};
use std::num::NonZeroU32;

const BYTE_LEN: usize = 8;

fn english_words() -> Vec<String> {
    bip39::Language::English.word_list().iter().map(|w| w.to_string()).collect()
}

fn english() -> WordList {
    WordList::new(english_words()).unwrap()
}

fn stretch(password: &str, salt: &[u8]) -> Vec<u8> {
    let mut out = [0u8; 64];
    pbkdf2::derive(
        pbkdf2::PBKDF2_HMAC_SHA512,
        NonZeroU32::new(100_000).unwrap(),
        salt,
        password.as_bytes(),
        &mut out,
    );
    out.to_vec()
}

#[test]
fn test_seed_building() -> Result<(), Bip39Error> {
    let list = english();
    let mut rand = [0u8; 16];
    OsRng.fill_bytes(&mut rand);

    let default_builder = SeedBuilder::new();
    let custom_builder = SeedBuilder::new()
        .passphrase("holymoly")
        .salt(rand[..].to_vec())
        .bits(256);

    assert_eq!(default_builder.bits, 128);
    assert_eq!(default_builder.passphrase, "");
    assert_eq!(default_builder.salt.to_owned().unwrap(), "mnemonic".as_bytes().to_vec());
    assert_eq!(custom_builder.bits, 256);
    assert_eq!(custom_builder.passphrase, "holymoly");
    assert_eq!(custom_builder.salt.to_owned().unwrap(), rand[..].to_vec());

    let default_seed = default_builder.build(&list)?;
    let custom_seed = custom_builder.build(&list)?;

    let next_builder = SeedBuilder::new()
        .size(MnemonicSize::Size32Bytes)
        .build(&list)?;

    assert_eq!(default_seed.mnemonic.len(), 12);
    assert_eq!(custom_seed.mnemonic.len(), 24);
    assert_eq!(next_builder.mnemonic.len(), 24);
    assert_eq!(default_seed.entropy.len(), 64);
    assert_eq!(custom_seed.entropy.len(), 64);
    Ok(())
}

#[test]
fn validate_mnemonic() -> Result<(), Bip39Error> {
    let list = english();
    let salt = "mysalt".as_bytes().to_vec();

    let seed = SeedBuilder::new()
        .salt(salt.clone()).build(&list).unwrap();

    let Seed { mnemonic, hex, .. } = &seed;

    let password = mnemonic.join(" ");
    let mut store = [0u8; 64];
    hex::decode_to_slice(hex, &mut store).unwrap();

    let pdkf2_iterations = NonZeroU32::new(100_000).unwrap();
    let verified = pbkdf2::verify(pbkdf2::PBKDF2_HMAC_SHA512, pdkf2_iterations, &salt,
        password.as_bytes(),
        &store);
    assert!(verified.is_ok());

    let words = english_words();

    let mut indices: Vec<usize> = Vec::with_capacity(mnemonic.len());

    for keyword in mnemonic.clone() {
        for (i, word) in (&words).into_iter().enumerate() {
            if keyword == *word {
                indices.push(i);
            }
        }
    }

    let subs: Vec<String> = indices.into_iter().map(|i| format!("{:011b}", i)).collect();
    let ent = subs.join("");
    let checksum_digits = 128 / 32;
    let bin = &ent[..ent.len()-4];
    let checksum = &ent[ent.len()-4..];

    let key: Vec<u8> = bin.as_bytes()
        .chunks(BYTE_LEN)
        .map(|i| {
            let b = std::str::from_utf8(i).unwrap();
            let intval = isize::from_str_radix(b, 2).unwrap();
            intval as u8
        }).collect();

    let hash = digest::digest(&digest::SHA256, &key);
    let b: String = hash.as_ref().iter().map(|x| format!("{:08b}", x)).collect();
    assert_eq!(&b[..checksum_digits], checksum);
    assert!(seed.validate(&list));

    Ok(())
}

#[test]
fn seed_from_zero_entropy_is_the_stretched_phrase() {
    let list = english();
    let seed = SeedBuilder::new().build_from_entropy(&[0u8; 16], &list).unwrap();
    let phrase = "abandon abandon abandon abandon abandon abandon abandon abandon abandon abandon abandon about";
    assert_eq!(seed.mnemonic.join(" "), phrase);
    assert_eq!(seed.entropy.to_vec(), stretch(phrase, b"mnemonic"));
    assert_eq!(seed.hex, hex::encode(seed.entropy));
    assert_eq!(seed.hex.len(), 128);
    assert!(seed.validate(&list));
}

#[test]
fn seed_uses_passphrase_in_default_salt() {
    let list = english();
    let entropy = [0x11u8; 32];
    let seed = SeedBuilder::new().passphrase("TREZOR").build_from_entropy(&entropy, &list).unwrap();
    let phrase = encode(&entropy, &list).unwrap().join(" ");
    assert_eq!(seed.entropy.to_vec(), stretch(&phrase, b"mnemonicTREZOR"));
    assert_eq!(seed.mnemonic.len(), 24);
}

#[test]
fn seed_uses_explicit_salt() {
    let list = english();
    let entropy = [0x42u8; 16];
    let seed = SeedBuilder::new().salt(b"pepper".to_vec()).build_from_entropy(&entropy, &list).unwrap();
    let phrase = encode(&entropy, &list).unwrap().join(" ");
    assert_eq!(seed.entropy.to_vec(), stretch(&phrase, b"pepper"));
}

#[test]
fn seed_building_is_deterministic() {
    let list = english();
    let entropy = [0x7fu8; 16];
    let first = SeedBuilder::new().passphrase("x").build_from_entropy(&entropy, &list).unwrap();
    let second = SeedBuilder::new().passphrase("x").build_from_entropy(&entropy, &list).unwrap();
    assert_eq!(first.entropy, second.entropy);
    assert_eq!(first.hex, second.hex);
    assert_eq!(first.mnemonic, second.mnemonic);
    let other = SeedBuilder::new().passphrase("y").build_from_entropy(&entropy, &list).unwrap();
    assert_ne!(first.entropy, other.entropy);
}

#[test]
fn seed_is_64_bytes_for_both_sizes() {
    let list = english();
    for size in [16usize, 32] {
        let seed = SeedBuilder::new().build_from_entropy(&vec![1u8; size], &list).unwrap();
        assert_eq!(seed.entropy.len(), 64);
        assert_eq!(seed.to_string().len(), 128);
    }
}

#[test]
fn seed_rejects_other_entropy_sizes() {
    let list = english();
    let r = SeedBuilder::new().build_from_entropy(&[1u8; 20], &list);
    assert!(matches!(r, Err(Bip39Error::InvalidEntropySize)));
}

#[test]
fn size_names_map_to_bits() {
    assert_eq!(SeedBuilder::new().size(MnemonicSize::Size12Words).bits, 128);
    assert_eq!(SeedBuilder::new().size(MnemonicSize::Size16Bytes).bits, 128);
    assert_eq!(SeedBuilder::new().size(MnemonicSize::Size128Bits).bits, 128);
    assert_eq!(SeedBuilder::new().size(MnemonicSize::Size24Words).bits, 256);
    assert_eq!(SeedBuilder::new().size(MnemonicSize::Size32Bytes).bits, 256);
    assert_eq!(SeedBuilder::new().size(MnemonicSize::Size256Bits).bits, 256);
}

#[test]
fn seed_to_string_falls_back_to_the_bytes() {
    let seed = Seed { mnemonic: vec![], entropy: [0xabu8; 64], hex: String::new() };
    assert_eq!(seed.to_string(), "ab".repeat(64));
}

#[test]
fn build_rejects_other_bit_counts() {
    let list = english();
    for bits in [0usize, 127, 129, 192, 255, 512] {
        let r = SeedBuilder::new().bits(bits).build(&list);
        assert!(matches!(r, Err(Bip39Error::InvalidEntropySize)));
    }
    assert_eq!(SeedBuilder::new().bits(256).build(&list).unwrap().mnemonic.len(), 24);
}

#[test]
fn explicit_salt_outlasts_a_later_passphrase() {
    let before = SeedBuilder::new().salt(b"pepper".to_vec()).passphrase("TREZOR");
    assert_eq!(before.salt, Some(b"pepper".to_vec()));
    assert_eq!(before.passphrase, "TREZOR");
    assert!(before.explicit_salt);
    let after = SeedBuilder::new().passphrase("TREZOR").salt(b"pepper".to_vec());
    assert_eq!(after.salt, Some(b"pepper".to_vec()));
    let default = SeedBuilder::new().passphrase("TREZOR");
    assert_eq!(default.salt, Some(b"mnemonicTREZOR".to_vec()));
    assert!(!default.explicit_salt);

    let list = english();
    let entropy = [0x42u8; 16];
    let seed = before.build_from_entropy(&entropy, &list).unwrap();
    let phrase = encode(&entropy, &list).unwrap().join(" ");
    assert_eq!(seed.entropy.to_vec(), stretch(&phrase, b"pepper"));
}
