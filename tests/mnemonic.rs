use keymaker::mnemonic::{decode, encode, validate};
use keymaker::{Bip39Error, WordList};
use rand_core::{OsRng, RngCore};

fn english() -> WordList {
    let words: Vec<String> = bip39::Language::English.word_list().iter().map(|w| w.to_string()).collect();
    WordList::new(words).unwrap()
}

fn reference_phrase(entropy: &[u8]) -> Vec<String> {
    bip39::Mnemonic::from_entropy(entropy).unwrap().words().map(|w| w.to_string()).collect()
}

#[test]
fn zero_entropy_gives_the_known_phrase() {
    let list = english();
    let words = encode(&[0u8; 16], &list).unwrap();
    let expected: Vec<String> = "abandon abandon abandon abandon abandon abandon abandon abandon abandon abandon abandon about"
        .split(' ')
        .map(|w| w.to_string())
        .collect();
    assert_eq!(words, expected);
    assert!(validate(&words, &list));
    assert_eq!(decode(&words, &list).unwrap(), vec![0u8; 16]);
}

#[test]
fn all_ones_entropy_gives_the_known_phrase() {
    let list = english();
    let words = encode(&[0xffu8; 32], &list).unwrap();
    let mut expected = vec!["zoo".to_string(); 23];
    expected.push("vote".to_string());
    assert_eq!(words, expected);
}

#[test]
fn encoding_matches_the_reference_implementation() {
    let list = english();
    for size in [16usize, 32] {
        for _ in 0..25 {
            let mut entropy = vec![0u8; size];
            OsRng.fill_bytes(&mut entropy);
            let words = encode(&entropy, &list).unwrap();
            assert_eq!(words.len(), if size == 16 { 12 } else { 24 });
            assert_eq!(words, reference_phrase(&entropy));
        }
    }
}

#[test]
fn decode_inverts_encode_on_random_entropy() {
    let list = english();
    for size in [16usize, 32] {
        for _ in 0..25 {
            let mut entropy = vec![0u8; size];
            OsRng.fill_bytes(&mut entropy);
            let words = encode(&entropy, &list).unwrap();
            assert!(validate(&words, &list));
            assert_eq!(decode(&words, &list).unwrap(), entropy);
        }
    }
}

#[test]
fn encode_rejects_other_entropy_sizes() {
    let list = english();
    for size in [0usize, 15, 17, 20, 24, 31, 33] {
        assert_eq!(encode(&vec![7u8; size], &list), Err(Bip39Error::InvalidEntropySize));
    }
}

#[test]
fn decode_rejects_other_phrase_lengths() {
    let list = english();
    let words = encode(&[3u8; 16], &list).unwrap();
    assert_eq!(decode(&words[..11], &list), Err(Bip39Error::UnsupportedMnemonicLength));
    let mut longer = words.clone();
    longer.extend_from_slice(&words[..3]);
    assert_eq!(decode(&longer, &list), Err(Bip39Error::UnsupportedMnemonicLength));
    assert!(!validate(&[], &list));
}

#[test]
fn decode_rejects_unknown_words() {
    let list = english();
    let mut words = encode(&[9u8; 16], &list).unwrap();
    words[4] = "notaword".to_string();
    assert_eq!(decode(&words, &list), Err(Bip39Error::UnknownWord));
    assert!(!validate(&words, &list));
}

#[test]
fn changing_the_checksum_bits_is_rejected() {
    let list = english();
    let words = encode(&[0u8; 16], &list).unwrap();
    let mut changed = words.clone();
    changed[11] = "abandon".to_string();
    assert_eq!(decode(&changed, &list), Err(Bip39Error::ChecksumMismatch));
    assert!(!validate(&changed, &list));
}

#[test]
fn changing_one_word_never_gives_back_the_entropy() {
    let list = english();
    let entropy = [0x5au8; 32];
    let words = encode(&entropy, &list).unwrap();
    let mut rejected = 0;
    for position in 0..words.len() {
        let mut changed = words.clone();
        changed[position] = if words[position] == "zoo" { "abandon".to_string() } else { "zoo".to_string() };
        match decode(&changed, &list) {
            Ok(other) => assert_ne!(other, entropy.to_vec()),
            Err(e) => {
                assert_eq!(e, Bip39Error::ChecksumMismatch);
                rejected += 1;
            }
        }
    }
    assert!(rejected >= words.len() - 2);
}

#[test]
fn word_list_needs_2048_distinct_words() {
    let words: Vec<String> = bip39::Language::English.word_list().iter().map(|w| w.to_string()).collect();
    assert!(WordList::new(words[..2047].to_vec()).is_none());
    let mut doubled = words.clone();
    doubled[5] = doubled[6].clone();
    assert!(WordList::new(doubled).is_none());
    let list = WordList::new(words.clone()).unwrap();
    assert_eq!(list.len(), 2048);
    assert_eq!(list.word(3), "about");
    assert_eq!(list.position(&"zoo".to_string()), Some(2047));
    assert_eq!(list.position(&"zzz".to_string()), None);
}

#[test]
fn a_one_word_change_can_pass_the_checksum_but_not_as_the_same_entropy() {
    let list = english();
    let mut words = encode(&[0u8; 16], &list).unwrap();
    words[11] = "actual".to_string();
    assert!(validate(&words, &list));
    let mut expected = vec![0u8; 16];
    expected[15] = 1;
    assert_eq!(decode(&words, &list).unwrap(), expected);
}
