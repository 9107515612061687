//! Entropy written as a phrase of words and read back, with the leading bits
//! of its SHA-256 digest appended as a checksum.
use vstd::prelude::*;
use crate::bip39::Bip39Error;
use crate::bytes::{
    bit_at, bit_of, bit_power, bits_of, bits_value, byte_bits, lemma_bit_power_monotonic,
    lemma_bit_power_values,
    lemma_bits_of_bits_value, lemma_bits_value_of_bits,
};
use crate::crypto::{sha256, sha256_of};

verus! {

/// The number of words in a word list.
pub const WORD_COUNT: usize = 2048;

/// A table of words that phrases can be written in: 2048 words, no two alike.
pub open spec fn word_table_ok(list: Seq<Seq<char>>) -> bool {
    &&& list.len() == WORD_COUNT
    &&& forall|i: int, j: int|
        0 <= i < list.len() && 0 <= j < list.len() && i != j ==> #[trigger] list[i] != #[trigger] list[j]
}

/// The characters of each string.
pub open spec fn words_view(v: Seq<String>) -> Seq<Seq<char>> {
    v.map_values(|w: String| w@)
}

/// The ordered table of words that mnemonics are written in.
pub struct WordList {
    words: Vec<String>,
}

impl View for WordList {
    type V = Seq<Seq<char>>;

    closed spec fn view(&self) -> Seq<Seq<char>> {
        words_view(self.words@)
    }
}

impl WordList {
    #[verifier::type_invariant]
    spec fn well_formed(&self) -> bool {
        word_table_ok(self@)
    }

    /// A word list from its words in order; `None` unless there are exactly
    /// 2048 of them and no two are alike.
    pub fn new(words: Vec<String>) -> (r: Option<WordList>)
        ensures
            r is Some <==> word_table_ok(words_view(words@)),
            r matches Some(list) ==> list@ == words_view(words@),
    {
        if words.len() != WORD_COUNT {
            return None;
        }
        let n = words.len();
        let mut i: usize = 0;
        while i < n
            invariant
                n == words@.len(),
                i <= n,
                forall|a: int, b: int|
                    0 <= a < i && 0 <= b < i && a != b ==> #[trigger] words@[a]@ != #[trigger] words@[b]@,
            decreases n - i,
        {
            let mut k: usize = 0;
            while k < i
                invariant
                    n == words@.len(),
                    k <= i < n,
                    forall|a: int| 0 <= a < k ==> #[trigger] words@[a]@ != words@[i as int]@,
                decreases i - k,
            {
                if words[k] == words[i] {
                    proof {
                        let view = words_view(words@);
                        assert(view[k as int] == view[i as int]);
                    }
                    return None;
                }
                k = k + 1;
            }
            i = i + 1;
        }
        proof {
            let view = words_view(words@);
            assert forall|a: int, b: int|
                0 <= a < view.len() && 0 <= b < view.len() && a != b implies #[trigger] view[a]
                != #[trigger] view[b] by {
                assert(words@[a]@ != words@[b]@);
            }
        }
        Some(WordList { words })
    }

    /// The number of words; it also tells a caller that the list holds 2048
    /// words, no two alike.
    pub fn len(&self) -> (r: usize)
        ensures
            r == self@.len(),
            word_table_ok(self@),
    {
        proof {
            use_type_invariant(self);
        }
        self.words.len()
    }

    /// The word at `index`.
    pub fn word(&self, index: usize) -> (r: &String)
        requires
            index < WORD_COUNT,
        ensures
            r@ == self@[index as int],
    {
        proof {
            use_type_invariant(self);
        }
        &self.words[index]
    }

    /// Where `word` stands in the list, if it is there.
    pub fn position(&self, word: &String) -> (r: Option<usize>)
        ensures
            r matches Some(i) ==> i < WORD_COUNT && self@[i as int] == word@ && index_in(self@, word@)
                == i,
            r is None ==> !self@.contains(word@),
    {
        proof {
            use_type_invariant(self);
        }
        let mut i: usize = 0;
        while i < self.words.len()
            invariant
                word_table_ok(self@),
                self.words@.len() == WORD_COUNT,
                i <= WORD_COUNT,
                forall|a: int| 0 <= a < i ==> self@[a] != word@,
            decreases WORD_COUNT - i,
        {
            if self.words[i] == *word {
                proof {
                    lemma_index_in(self@, i as int);
                }
                return Some(i);
            }
            i = i + 1;
        }
        None
    }
}

/// Entropy lengths that have a phrase: 16 and 32 bytes.
pub open spec fn entropy_len_ok(n: nat) -> bool {
    n == 16 || n == 32
}

/// Phrase lengths that can be read: 12 and 24 words.
pub open spec fn phrase_len_ok(n: nat) -> bool {
    n == 12 || n == 24
}

/// The checksum of entropy of `n` bytes: the first `8n/32` bits of its
/// SHA-256 digest.
pub open spec fn checksum_bits(entropy: Seq<u8>) -> Seq<bool> {
    bits_of(sha256_of(entropy)[0] as nat, 8).take((entropy.len() / 4) as int)
}

/// The entropy's bits followed by its checksum bits.
pub open spec fn payload_bits(entropy: Seq<u8>) -> Seq<bool> {
    byte_bits(entropy) + checksum_bits(entropy)
}

/// The payload cut into 11-bit groups, each read as a word's index.
pub open spec fn word_indices(entropy: Seq<u8>) -> Seq<nat> {
    let p = payload_bits(entropy);
    Seq::new(p.len() / 11, |j: int| bits_value(p.subrange(11 * j, 11 * j + 11)))
}

/// The phrase that writes `entropy` in the words of `list`.
pub open spec fn mnemonic_of(list: Seq<Seq<char>>, entropy: Seq<u8>) -> Seq<Seq<char>> {
    word_indices(entropy).map_values(|i: nat| list[i as int])
}

/// Where `word` stands in `list`.
pub open spec fn index_in(list: Seq<Seq<char>>, word: Seq<char>) -> int {
    choose|i: int| 0 <= i < list.len() && list[i] == word
}

/// The bits of a phrase: the 11-bit index of each word in turn.
pub open spec fn index_bits(list: Seq<Seq<char>>, words: Seq<Seq<char>>) -> Seq<bool> {
    Seq::new(11 * words.len(), |p: int| bit_at(index_in(list, words[p / 11]) as nat, 11, p % 11))
}

/// The number of entropy bytes in a phrase of `count` words.
pub open spec fn entropy_len_of(count: nat) -> nat {
    count * 4 / 3
}

/// `n` bytes read from a bit string, eight bits each.
pub open spec fn bits_to_bytes(bits: Seq<bool>, n: nat) -> Seq<u8> {
    Seq::new(n, |i: int| bits_value(bits.subrange(8 * i, 8 * i + 8)) as u8)
}

/// What reading the phrase `words` gives: its entropy, or why it has none.
pub open spec fn decode_spec(list: Seq<Seq<char>>, words: Seq<Seq<char>>) -> Result<Seq<u8>, Bip39Error> {
    if !phrase_len_ok(words.len()) {
        Err(Bip39Error::UnsupportedMnemonicLength)
    } else if exists|j: int| 0 <= j < words.len() && !list.contains(#[trigger] words[j]) {
        Err(Bip39Error::UnknownWord)
    } else {
        let bits = index_bits(list, words);
        let n = entropy_len_of(words.len());
        let entropy = bits_to_bytes(bits, n);
        if bits.skip((8 * n) as int) == checksum_bits(entropy) {
            Ok(entropy)
        } else {
            Err(Bip39Error::ChecksumMismatch)
        }
    }
}

/// The result of a decode with the bytes seen as a sequence.
pub open spec fn bytes_result(r: Result<Vec<u8>, Bip39Error>) -> Result<Seq<u8>, Bip39Error> {
    match r {
        Ok(v) => Ok(v@),
        Err(e) => Err(e),
    }
}

/// In a table of distinct words, a word's index is where it stands.
pub proof fn lemma_index_in(list: Seq<Seq<char>>, i: int)
    requires
        word_table_ok(list),
        0 <= i < list.len(),
    ensures
        index_in(list, list[i]) == i,
{
    let k = index_in(list, list[i]);
    assert(0 <= k < list.len() && list[k] == list[i]);
}

/// Bit `p` of the payload.
fn payload_bit(entropy: &[u8], check: u8, p: usize) -> (r: bool)
    requires
        entropy_len_ok(entropy@.len()),
        p < 8 * entropy@.len() + entropy@.len() / 4,
        check == sha256_of(entropy@)[0],
    ensures
        r == payload_bits(entropy@)[p as int],
{
    let n = entropy.len();
    if p < 8 * n {
        bit_of(entropy[p / 8] as u32, 8, (p % 8) as u32)
    } else {
        bit_of(check as u32, 8, (p - 8 * n) as u32)
    }
}

/// Writes 16 or 32 bytes of entropy as a phrase of 12 or 24 words.
pub fn encode(entropy: &[u8], list: &WordList) -> (r: Result<Vec<String>, Bip39Error>)
    ensures
        !entropy_len_ok(entropy@.len()) ==> r == Err::<Vec<String>, Bip39Error>(
            Bip39Error::InvalidEntropySize,
        ),
        entropy_len_ok(entropy@.len()) ==> (r matches Ok(words) && words_view(words@) == mnemonic_of(
            list@,
            entropy@,
        )),
        word_table_ok(list@),
{
    proof {
        use_type_invariant(list);
    }
    if entropy.len() != 16 && entropy.len() != 32 {
        return Err(Bip39Error::InvalidEntropySize);
    }
    let ghost e = entropy@;
    let ghost payload = payload_bits(e);
    let hash = sha256(entropy);
    let check = hash[0];
    let n = entropy.len();
    let count = (8 * n + n / 4) / 11;
    assert(payload.len() == 8 * n + n / 4);
    assert(count == word_indices(e).len());
    assert(count * 11 == payload.len());
    proof {
        lemma_bit_power_values();
    }
    let mut words: Vec<String> = Vec::new();
    let mut j: usize = 0;
    while j < count
        invariant
            entropy@ == e,
            entropy_len_ok(e.len()),
            n == e.len(),
            payload == payload_bits(e),
            count == word_indices(e).len(),
            count * 11 == payload.len(),
            check == sha256_of(e)[0],
            bit_power(11) == 2048,
            j <= count,
            words@.len() == j,
            forall|t: int| 0 <= t < j ==> #[trigger] words@[t]@ == list@[word_indices(e)[t] as int],
        decreases count - j,
    {
        let mut index: u32 = 0;
        let mut k: u32 = 0;
        while k < 11
            invariant
                entropy@ == e,
                entropy_len_ok(e.len()),
                n == e.len(),
                payload == payload_bits(e),
                check == sha256_of(e)[0],
                j < count,
                count * 11 == payload.len(),
                k <= 11,
                bit_power(11) == 2048,
                index == bits_value(payload.subrange(11 * j, 11 * j + k)),
                index < bit_power(k as nat),
            decreases 11 - k,
        {
            let bit = payload_bit(entropy, check, 11 * j + k as usize);
            proof {
                let s = payload.subrange(11 * j, 11 * j + k + 1);
                assert(s.drop_last() =~= payload.subrange(11 * j, 11 * j + k));
                assert(s.last() == payload[11 * j + k]);
                assert(bit_power((k + 1) as nat) == 2 * bit_power(k as nat));
                lemma_bit_power_monotonic((k + 1) as nat, 11);
            }
            index = index * 2 + if bit {
                1
            } else {
                0
            };
            k = k + 1;
        }
        assert(index == word_indices(e)[j as int]);
        let word = list.word(index as usize).clone();
        words.push(word);
        j = j + 1;
    }
    assert(words_view(words@) =~= mnemonic_of(list@, e));
    Ok(words)
}

/// Reads a phrase of 12 or 24 words back into its entropy, checking the
/// checksum.
pub fn decode(mnemonic: &[String], list: &WordList) -> (r: Result<Vec<u8>, Bip39Error>)
    ensures
        bytes_result(r) == decode_spec(list@, words_view(mnemonic@)),
        word_table_ok(list@),
{
    let ghost words = words_view(mnemonic@);
    proof {
        use_type_invariant(list);
    }
    let count = mnemonic.len();
    if count != 12 && count != 24 {
        return Err(Bip39Error::UnsupportedMnemonicLength);
    }
    let mut indices: Vec<u32> = Vec::new();
    let mut j: usize = 0;
    while j < count
        invariant
            count == mnemonic@.len(),
            words == words_view(mnemonic@),
            phrase_len_ok(count as nat),
            word_table_ok(list@),
            j <= count,
            indices@.len() == j,
            forall|t: int|
                0 <= t < j ==> list@.contains(#[trigger] words[t]) && indices@[t] == index_in(
                    list@,
                    words[t],
                ) && indices@[t] < WORD_COUNT,
        decreases count - j,
    {
        match list.position(&mnemonic[j]) {
            Some(i) => {
                assert(list@[i as int] == words[j as int]);
                indices.push(i as u32);
            },
            None => {
                assert(!list@.contains(words[j as int]));
                return Err(Bip39Error::UnknownWord);
            },
        }
        j = j + 1;
    }
    let ghost bits = index_bits(list@, words);
    let n = count * 4 / 3;
    proof {
        lemma_bit_power_values();
    }
    let mut entropy: Vec<u8> = Vec::new();
    let mut i: usize = 0;
    while i < n
        invariant
            count == mnemonic@.len(),
            words == words_view(mnemonic@),
            phrase_len_ok(count as nat),
            n == entropy_len_of(count as nat),
            bits == index_bits(list@, words),
            indices@.len() == count,
            forall|t: int|
                0 <= t < count ==> #[trigger] indices@[t] == index_in(list@, words[t]) && indices@[t]
                    < WORD_COUNT,
            forall|t: int| 0 <= t < count ==> list@.contains(#[trigger] words[t]),
            bit_power(8) == 256,
            i <= n,
            entropy@.len() == i,
            forall|t: int| 0 <= t < i ==> #[trigger] entropy@[t] == bits_to_bytes(bits, n as nat)[t],
        decreases n - i,
    {
        let mut byte: u32 = 0;
        let mut t: u32 = 0;
        while t < 8
            invariant
                count == mnemonic@.len(),
                words == words_view(mnemonic@),
                phrase_len_ok(count as nat),
                n == entropy_len_of(count as nat),
                bits == index_bits(list@, words),
                indices@.len() == count,
                forall|u: int|
                    0 <= u < count ==> #[trigger] indices@[u] == index_in(list@, words[u])
                        && indices@[u] < WORD_COUNT,
                bit_power(8) == 256,
                i < n,
                t <= 8,
                byte == bits_value(bits.subrange(8 * i, 8 * i + t)),
                byte < bit_power(t as nat),
            decreases 8 - t,
        {
            let p = 8 * i + t as usize;
            let bit = bit_of(indices[p / 11], 11, (p % 11) as u32);
            proof {
                let s = bits.subrange(8 * i, 8 * i + t + 1);
                assert(s.drop_last() =~= bits.subrange(8 * i, 8 * i + t));
                assert(s.last() == bits[p as int]);
                assert(bits[p as int] == bit);
                assert(bit_power((t + 1) as nat) == 2 * bit_power(t as nat));
                lemma_bit_power_monotonic((t + 1) as nat, 8);
            }
            byte = byte * 2 + if bit {
                1
            } else {
                0
            };
            t = t + 1;
        }
        entropy.push(byte as u8);
        i = i + 1;
    }
    let ghost e = entropy@;
    assert(e =~= bits_to_bytes(bits, n as nat));
    let hash = sha256(entropy.as_slice());
    let cs = n / 4;
    let mut t: usize = 0;
    while t < cs
        invariant
            count == mnemonic@.len(),
            words == words_view(mnemonic@),
            phrase_len_ok(count as nat),
            n == entropy_len_of(count as nat),
            cs == n / 4,
            word_table_ok(list@),
            bits == index_bits(list@, words),
            indices@.len() == count,
            forall|u: int|
                0 <= u < count ==> #[trigger] indices@[u] == index_in(list@, words[u]) && indices@[u]
                    < WORD_COUNT,
            forall|u: int| 0 <= u < count ==> list@.contains(#[trigger] words[u]),
            entropy@ == e,
            e == bits_to_bytes(bits, n as nat),
            hash@ == sha256_of(e),
            t <= cs,
            forall|u: int| 0 <= u < t ==> bits[8 * n + u] == #[trigger] checksum_bits(e)[u],
        decreases cs - t,
    {
        let p = 8 * n + t;
        let found = bit_of(indices[p / 11], 11, (p % 11) as u32);
        let expected = bit_of(hash[0] as u32, 8, t as u32);
        assert(found == bits[p as int]);
        assert(expected == checksum_bits(e)[t as int]);
        if found != expected {
            assert(bits.skip(8 * n) [t as int] != checksum_bits(e)[t as int]);
            assert(!(exists|u: int| 0 <= u < words.len() && !list@.contains(#[trigger] words[u])));
            return Err(Bip39Error::ChecksumMismatch);
        }
        t = t + 1;
    }
    assert(bits.skip(8 * n) =~= checksum_bits(e));
    Ok(entropy)
}

/// Whether a phrase reads back to entropy: 12 or 24 known words whose
/// checksum bits match.
pub fn validate(mnemonic: &[String], list: &WordList) -> (r: bool)
    ensures
        r == decode_spec(list@, words_view(mnemonic@)) is Ok,
        word_table_ok(list@),
{
    match decode(mnemonic, list) {
        Ok(_) => true,
        Err(_) => false,
    }
}

/// The bytes in a payload's entropy bits are the entropy.
proof fn lemma_payload_bytes(entropy: Seq<u8>)
    requires
        entropy_len_ok(entropy.len()),
    ensures
        bits_to_bytes(payload_bits(entropy), entropy.len()) == entropy,
{
    let p = payload_bits(entropy);
    lemma_bit_power_values();
    assert forall|i: int| 0 <= i < entropy.len() implies #[trigger] bits_to_bytes(p, entropy.len())[i]
        == entropy[i] by {
        assert(p.subrange(8 * i, 8 * i + 8) =~= bits_of(entropy[i] as nat, 8));
        lemma_bits_value_of_bits(entropy[i] as nat, 8);
    }
    assert(bits_to_bytes(p, entropy.len()) =~= entropy);
}

/// Bytes read from bits depend only on the bits they are read from.
proof fn lemma_bits_to_bytes_prefix(a: Seq<bool>, b: Seq<bool>, n: nat)
    requires
        a.len() >= 8 * n,
        b.len() >= 8 * n,
        a.take(8 * n as int) == b.take(8 * n as int),
    ensures
        bits_to_bytes(a, n) == bits_to_bytes(b, n),
{
    assert forall|i: int| 0 <= i < n implies #[trigger] bits_to_bytes(a, n)[i] == bits_to_bytes(b, n)[i] by {
        assert forall|k: int| 0 <= k < 8 implies #[trigger] a.subrange(8 * i, 8 * i + 8)[k]
            == b.subrange(8 * i, 8 * i + 8)[k] by {
            assert(0 <= 8 * i + k < 8 * n);
            assert(a.take(8 * n as int)[8 * i + k] == a[8 * i + k]);
            assert(b.take(8 * n as int)[8 * i + k] == b[8 * i + k]);
            assert(a.take(8 * n as int)[8 * i + k] == b.take(8 * n as int)[8 * i + k]);
        }
        assert(a.subrange(8 * i, 8 * i + 8) =~= b.subrange(8 * i, 8 * i + 8));
    }
    assert(bits_to_bytes(a, n) =~= bits_to_bytes(b, n));
}

/// Reading back the phrase written for some entropy gives that entropy.
pub proof fn decode_inverts_encode(list: Seq<Seq<char>>, entropy: Seq<u8>)
    requires
        word_table_ok(list),
        entropy_len_ok(entropy.len()),
    ensures
        decode_spec(list, mnemonic_of(list, entropy)) == Ok::<Seq<u8>, Bip39Error>(entropy),
{
    let words = mnemonic_of(list, entropy);
    let p = payload_bits(entropy);
    let n = entropy.len();
    lemma_bit_power_values();
    assert(p.len() == 8 * n + n / 4);
    assert(words.len() * 11 == p.len());
    assert forall|j: int| 0 <= j < words.len() implies list.contains(#[trigger] words[j])
        && index_in(list, words[j]) == word_indices(entropy)[j] by {
        let s = p.subrange(11 * j, 11 * j + 11);
        lemma_bits_of_bits_value(s);
        let idx = word_indices(entropy)[j];
        assert(list[idx as int] == words[j]);
        lemma_index_in(list, idx as int);
    }
    assert forall|q: int| 0 <= q < p.len() implies #[trigger] index_bits(list, words)[q] == p[q] by {
        let j = q / 11;
        let s = p.subrange(11 * j, 11 * j + 11);
        lemma_bits_of_bits_value(s);
        assert(words[j] == list[word_indices(entropy)[j] as int]);
        assert(bits_of(bits_value(s), 11)[q % 11] == s[q % 11]);
    }
    assert(index_bits(list, words) =~= p);
    lemma_payload_bytes(entropy);
    assert(entropy_len_of(words.len()) == n);
    assert(p.skip(8 * n as int) =~= checksum_bits(entropy));
}

/// A freshly written phrase passes validation.
pub proof fn encoded_phrase_is_valid(list: Seq<Seq<char>>, entropy: Seq<u8>)
    requires
        word_table_ok(list),
        entropy_len_ok(entropy.len()),
    ensures
        decode_spec(list, mnemonic_of(list, entropy)) is Ok,
{
    decode_inverts_encode(list, entropy);
}

/// Bits whose trailing bits are the checksum of the bytes in their leading
/// bits are the payload of those bytes.
proof fn lemma_payload_of_bits(bits: Seq<bool>, n: nat)
    requires
        entropy_len_ok(n),
        bits.len() == 8 * n + n / 4,
        bits.skip(8 * n as int) == checksum_bits(bits_to_bytes(bits, n)),
    ensures
        payload_bits(bits_to_bytes(bits, n)) == bits,
{
    let e = bits_to_bytes(bits, n);
    let p = payload_bits(e);
    lemma_bit_power_values();
    assert forall|q: int| 0 <= q < bits.len() implies #[trigger] p[q] == bits[q] by {
        if q < 8 * n {
            let i = q / 8;
            let s = bits.subrange(8 * i, 8 * i + 8);
            lemma_bits_of_bits_value(s);
            assert(e[i] == bits_value(s));
            assert(bits_of(e[i] as nat, 8)[q % 8] == s[q % 8]);
        } else {
            assert(bits.skip(8 * n as int)[q - 8 * n] == checksum_bits(e)[q - 8 * n]);
        }
    }
    assert(p =~= bits);
}

/// A phrase of known words whose index bits are the payload of some entropy
/// is the phrase written for that entropy.
proof fn lemma_phrase_of_payload(list: Seq<Seq<char>>, words: Seq<Seq<char>>, e: Seq<u8>)
    requires
        word_table_ok(list),
        forall|j: int| 0 <= j < words.len() ==> list.contains(#[trigger] words[j]),
        payload_bits(e) == index_bits(list, words),
    ensures
        mnemonic_of(list, e) == words,
{
    let bits = index_bits(list, words);
    assert forall|j: int| 0 <= j < words.len() implies #[trigger] mnemonic_of(list, e)[j] == words[j] by {
        assert(list.contains(words[j]));
        let idx = index_in(list, words[j]);
        assert(0 <= idx < WORD_COUNT && list[idx] == words[j]);
        assert(bits.subrange(11 * j, 11 * j + 11) =~= bits_of(idx as nat, 11));
        lemma_bit_power_values();
        lemma_bits_value_of_bits(idx as nat, 11);
    }
    assert(mnemonic_of(list, e) =~= words);
}

/// A phrase that reads back to some entropy is exactly the phrase written for
/// that entropy.
pub proof fn encode_inverts_decode(list: Seq<Seq<char>>, words: Seq<Seq<char>>)
    requires
        word_table_ok(list),
        decode_spec(list, words) is Ok,
    ensures
        mnemonic_of(list, decode_spec(list, words)->Ok_0) == words,
{
    let bits = index_bits(list, words);
    let n = entropy_len_of(words.len());
    let e = bits_to_bytes(bits, n);
    assert(phrase_len_ok(words.len()));
    assert(forall|j: int| 0 <= j < words.len() ==> list.contains(#[trigger] words[j]));
    assert(decode_spec(list, words) == Ok::<Seq<u8>, Bip39Error>(e));
    assert(bits.skip(8 * n as int) == checksum_bits(e));
    lemma_payload_of_bits(bits, n);
    lemma_phrase_of_payload(list, words, e);
}

/// Changing one word of a written phrase to another word of the list never
/// gives a phrase that reads back to the original entropy; and where the
/// change leaves the entropy bits as they were, touching only checksum bits,
/// the changed phrase fails validation.
pub proof fn changed_word_is_rejected(list: Seq<Seq<char>>, entropy: Seq<u8>, j: int, w: Seq<char>)
    requires
        word_table_ok(list),
        entropy_len_ok(entropy.len()),
        0 <= j < mnemonic_of(list, entropy).len(),
        list.contains(w),
        w != mnemonic_of(list, entropy)[j],
    ensures
        decode_spec(list, mnemonic_of(list, entropy).update(j, w)) != Ok::<Seq<u8>, Bip39Error>(
            entropy,
        ),
        index_bits(list, mnemonic_of(list, entropy).update(j, w)).take(8 * entropy.len() as int)
            == payload_bits(entropy).take(8 * entropy.len() as int) ==> decode_spec(
            list,
            mnemonic_of(list, entropy).update(j, w),
        ) is Err,
{
    let original = mnemonic_of(list, entropy);
    let changed = original.update(j, w);
    if decode_spec(list, changed) == Ok::<Seq<u8>, Bip39Error>(entropy) {
        encode_inverts_decode(list, changed);
        assert(original[j] == changed[j]);
    }
    let n = entropy.len();
    let bits = index_bits(list, changed);
    if bits.take(8 * n as int) == payload_bits(entropy).take(8 * n as int) && decode_spec(list, changed) is Ok {
        decode_inverts_encode(list, entropy);
        lemma_bit_power_values();
        assert(payload_bits(entropy).len() == 8 * n + n / 4);
        assert(changed.len() == original.len());
        assert(entropy_len_of(changed.len()) == n);
        lemma_bits_to_bytes_prefix(bits, payload_bits(entropy), n);
        lemma_payload_bytes(entropy);
        encode_inverts_decode(list, changed);
        assert(original[j] == changed[j]);
    }
}

} // verus!
