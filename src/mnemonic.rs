//! The mnemonic codec: a 256-bit secret as 24 words of a 2048-word dictionary,
//! with an 8-bit checksum taken from the SHA-256 digest of the secret.
use crate::bits::{byte_bits, index_bits, indices_of_stream, lemma_byte_bits_bound, lemma_index_bits_bound, lemma_last_index_change, lemma_stream_round_trip, pack, stream_of_indices};
use crate::error::BunkeysError;
use crate::sentence::{
    is_plain_word,
    is_space,
    is_space_char,
    join_with_spaces,
    join_words,
    lemma_words_of_join,
    nonblank_lines,
    nonblank_lines_of,
    split_words,
    views,
    words_of,
};
use sha2::Digest;
use vstd::prelude::*;

verus! {

/// Number of words in a mnemonic.
pub const WORD_COUNT: usize = 24;

/// Number of words in the dictionary.
pub const DICTIONARY_SIZE: usize = 2048;

/// Number of bytes of entropy that a mnemonic carries.
pub const ENTROPY_BYTES: usize = 32;

/// The SHA-256 digest of a byte string.
pub uninterp spec fn sha256_of(data: Seq<u8>) -> Seq<u8>;

/// Relies on sha2's `Sha256::digest`: the 32-byte SHA-256 digest of `data`.
#[verifier::external_body]
fn sha256(data: &[u8]) -> (r: Vec<u8>)
    ensures
        r@ == sha256_of(data@),
        r@.len() == 32,
{
    sha2::Sha256::digest(data).to_vec()
}

/// A valid dictionary: 2048 distinct words, none empty, none holding whitespace.
pub open spec fn is_dictionary(words: Seq<Seq<char>>) -> bool {
    &&& words.len() == DICTIONARY_SIZE
    &&& forall|i: int| 0 <= i < words.len() ==> is_plain_word(#[trigger] words[i])
    &&& forall|i: int, j: int|
        0 <= i < words.len() && 0 <= j < words.len() && i != j ==> #[trigger] words[i]
            != #[trigger] words[j]
}

/// Why a word list is not a valid dictionary, checked in this order.
pub open spec fn dictionary_error(words: Seq<Seq<char>>) -> BunkeysError {
    if words.len() != DICTIONARY_SIZE {
        BunkeysError::WordListLength
    } else if exists|i: int| 0 <= i < words.len() && !is_plain_word(#[trigger] words[i]) {
        BunkeysError::InvalidWord
    } else {
        BunkeysError::DuplicateWord
    }
}

/// A big-endian number that fits in 256 bits: every byte before the last 32 is zero.
pub open spec fn fits_256(value: Seq<u8>) -> bool {
    forall|i: int| 0 <= i < value.len() - ENTROPY_BYTES ==> #[trigger] value[i] == 0
}

/// A big-endian number as exactly 32 bytes, zero-padded or stripped of leading zeros.
pub open spec fn entropy_of(value: Seq<u8>) -> Seq<u8> {
    Seq::new(
        ENTROPY_BYTES as nat,
        |k: int|
            if k + value.len() >= ENTROPY_BYTES {
                value[k + value.len() - ENTROPY_BYTES]
            } else {
                0u8
            },
    )
}

/// The checksum of 32 bytes of entropy: the first byte of their SHA-256 digest.
pub open spec fn checksum_of(entropy: Seq<u8>) -> u8 {
    sha256_of(entropy)[0]
}

/// The dictionary words at the given indices.
pub open spec fn words_at(dict: Seq<Seq<char>>, w: Seq<u32>) -> Seq<Seq<char>> {
    Seq::new(w.len(), |i: int| dict[w[i] as int])
}

/// The dictionary indices of the words that spell 32 bytes of entropy.
pub open spec fn mnemonic_indices(entropy: Seq<u8>) -> Seq<u32> {
    indices_of_stream(entropy.push(checksum_of(entropy)))
}

/// The mnemonic sentence of 32 bytes of entropy.
pub open spec fn mnemonic_of(dict: Seq<Seq<char>>, entropy: Seq<u8>) -> Seq<char> {
    join_words(words_at(dict, mnemonic_indices(entropy)))
}

/// The position of a word in the dictionary.
pub open spec fn position_of(dict: Seq<Seq<char>>, word: Seq<char>) -> int {
    choose|k: int| 0 <= k < dict.len() && dict[k] == word
}

/// What decoding `text` gives: its entropy, or the first error met.
pub open spec fn decode_result(dict: Seq<Seq<char>>, text: Seq<char>) -> Result<Seq<u8>, BunkeysError> {
    let toks = words_of(text);
    if toks.len() != WORD_COUNT {
        Err(BunkeysError::WrongWordCount)
    } else if exists|i: int| 0 <= i < toks.len() && !dict.contains(#[trigger] toks[i]) {
        Err(BunkeysError::UnknownWord)
    } else {
        let stream = stream_of_indices(
            Seq::new(WORD_COUNT as nat, |i: int| position_of(dict, toks[i]) as u32),
        );
        let entropy = stream.take(ENTROPY_BYTES as int);
        if stream[ENTROPY_BYTES as int] == checksum_of(entropy) {
            Ok(entropy)
        } else {
            Err(BunkeysError::ChecksumMismatch)
        }
    }
}

/// Encoder and decoder of mnemonic sentences over one dictionary.
pub struct Bip39 {
    word_list: Vec<String>,
}

impl View for Bip39 {
    type V = Seq<Seq<char>>;

    closed spec fn view(&self) -> Seq<Seq<char>> {
        views(self.word_list@)
    }
}

/// Whether a word has no whitespace and is not empty.
fn is_plain(word: &String) -> (r: bool)
    ensures
        r == is_plain_word(word@),
{
    if word.as_str().is_empty() {
        return false;
    }
    for c in it: word.as_str().chars()
        invariant
            it.seq() == word@,
            forall|i: int| 0 <= i < it.index() ==> !is_space(#[trigger] word@[i]),
    {
        if is_space_char(c) {
            return false;
        }
    }
    true
}

impl Bip39 {
    /// The instance holds a valid dictionary.
    pub closed spec fn wf(&self) -> bool {
        is_dictionary(self@)
    }

    /// A codec over `word_list`, which must be a valid dictionary.
    pub fn new(word_list: Vec<String>) -> (r: Result<Bip39, BunkeysError>)
        ensures
            r is Ok <==> is_dictionary(views(word_list@)),
            r matches Ok(b) ==> b@ == views(word_list@) && b.wf(),
            r matches Err(e) ==> e == dictionary_error(views(word_list@)),
    {
        let ghost dict = views(word_list@);
        if word_list.len() != DICTIONARY_SIZE {
            return Err(BunkeysError::WordListLength);
        }
        let mut i: usize = 0;
        while i < word_list.len()
            invariant
                i <= word_list.len(),
                word_list.len() == DICTIONARY_SIZE,
                dict == views(word_list@),
                forall|k: int| 0 <= k < i ==> is_plain_word(#[trigger] dict[k]),
            decreases word_list.len() - i,
        {
            if !is_plain(&word_list[i]) {
                assert(!is_plain_word(dict[i as int]));
                return Err(BunkeysError::InvalidWord);
            }
            i = i + 1;
        }
        let mut i: usize = 0;
        while i < word_list.len()
            invariant
                i <= word_list.len(),
                word_list.len() == DICTIONARY_SIZE,
                dict == views(word_list@),
                forall|k: int| 0 <= k < dict.len() ==> is_plain_word(#[trigger] dict[k]),
                forall|a: int, b: int|
                    0 <= a < i && 0 <= b < dict.len() && a != b ==> #[trigger] dict[a]
                        != #[trigger] dict[b],
            decreases word_list.len() - i,
        {
            let mut j: usize = 0;
            while j < word_list.len()
                invariant
                    i < word_list.len(),
                    j <= word_list.len(),
                    word_list.len() == DICTIONARY_SIZE,
                    dict == views(word_list@),
                    forall|k: int| 0 <= k < dict.len() ==> is_plain_word(#[trigger] dict[k]),
                    forall|a: int, b: int|
                        0 <= a < i && 0 <= b < dict.len() && a != b ==> #[trigger] dict[a]
                            != #[trigger] dict[b],
                    forall|b: int| 0 <= b < j && b != i ==> dict[i as int] != #[trigger] dict[b],
                decreases word_list.len() - j,
            {
                if j != i && word_list[i] == word_list[j] {
                    assert(dict[i as int] == dict[j as int]);
                    return Err(BunkeysError::DuplicateWord);
                }
                j = j + 1;
            }
            i = i + 1;
        }
        Ok(Bip39 { word_list })
    }

    /// A codec over the dictionary written in `text`, one word per line;
    /// blank lines are skipped and whitespace around words is dropped.
    pub fn from_text(text: &str) -> (r: Result<Bip39, BunkeysError>)
        ensures
            r is Ok <==> is_dictionary(nonblank_lines(text@)),
            r matches Ok(b) ==> b@ == nonblank_lines(text@) && b.wf(),
            r matches Err(e) ==> e == dictionary_error(nonblank_lines(text@)),
    {
        Self::new(nonblank_lines_of(text))
    }

    /// The dictionary words, in order.
    pub fn get_word_list(&self) -> (r: &[String])
        ensures
            views(r@) == self@,
    {
        self.word_list.as_slice()
    }

    /// The position of `word` in the dictionary, if it is there.
    fn index_of(&self, word: &String) -> (r: Option<usize>)
        requires
            self.wf(),
        ensures
            r matches Some(k) ==> k < DICTIONARY_SIZE && self@[k as int] == word@ && k
                == position_of(self@, word@),
            r is None ==> !self@.contains(word@),
    {
        let mut k: usize = 0;
        while k < self.word_list.len()
            invariant
                k <= self.word_list.len(),
                self.wf(),
                forall|j: int| 0 <= j < k ==> self@[j] != word@,
            decreases self.word_list.len() - k,
        {
            if self.word_list[k] == *word {
                proof {
                    let p = position_of(self@, word@);
                    assert(self@[k as int] == word@);
                    assert(0 <= p < self@.len() && self@[p] == word@);
                }
                return Some(k);
            }
            k = k + 1;
        }
        None
    }

    /// The checksum of `entropy`: the first byte of its SHA-256 digest.
    pub fn calculate_checksum(entropy: &[u8]) -> (r: u8)
        ensures
            r == sha256_of(entropy@)[0],
    {
        let digest = sha256(entropy);
        digest[0]
    }

    /// Succeeds exactly when `checksum` is the checksum of `entropy`.
    pub fn verify_checksum(entropy: &[u8], checksum: u8) -> (r: Result<(), BunkeysError>)
        ensures
            r is Ok <==> checksum == sha256_of(entropy@)[0],
            r matches Err(e) ==> e == BunkeysError::ChecksumMismatch,
    {
        if Self::calculate_checksum(entropy) == checksum {
            Ok(())
        } else {
            Err(BunkeysError::ChecksumMismatch)
        }
    }

    /// The sentence that spells a 33-byte stream (entropy, then checksum):
    /// one word for each 11 bits, joined by single spaces.
    pub fn sentence_of(&self, stream: &[u8]) -> (r: String)
        requires
            self.wf(),
            stream@.len() == ENTROPY_BYTES + 1,
        ensures
            r@ == join_words(words_at(self@, indices_of_stream(stream@))),
    {
        let ghost w = indices_of_stream(stream@);
        let mut words: Vec<String> = Vec::new();
        let mut i: usize = 0;
        while i < WORD_COUNT
            invariant
                i <= WORD_COUNT,
                self.wf(),
                stream@.len() == 33,
                w == indices_of_stream(stream@),
                views(words@) == words_at(self@, w).take(i as int),
            decreases WORD_COUNT - i,
        {
            let mut acc: u32 = 0;
            let mut k: usize = 0;
            while k < 11
                invariant
                    k <= 11,
                    i < WORD_COUNT,
                    stream@.len() == 33,
                    acc as nat == pack(byte_bits(stream@), 11 * i, k as nat),
                decreases 11 - k,
            {
                proof {
                    lemma_byte_bits_bound(stream@, 11 * i, k as nat);
                }
                let j: usize = 11 * i + k;
                let bit: u8 = (stream[j / 8] >> ((7 - j % 8) as u8)) & 1u8;
                acc = acc * 2 + bit as u32;
                k = k + 1;
            }
            proof {
                lemma_byte_bits_bound(stream@, 11 * i, 11);
            }
            assert(w[i as int] == acc);
            let word = self.word_list[acc as usize].clone();
            let ghost prev = words@;
            words.push(word);
            proof {
                assert(views(words@) =~= views(prev).push(word@));
                assert(words_at(self@, w).take(i + 1) =~= words_at(self@, w).take(i as int).push(
                    word@,
                ));
            }
            i = i + 1;
        }
        proof {
            assert(words_at(self@, w).take(24) =~= words_at(self@, w));
        }
        join_with_spaces(&words)
    }

    /// Encode a big-endian number of at most 256 bits as a 24-word sentence.
    pub fn encode(&self, value: &[u8]) -> (r: Result<String, BunkeysError>)
        requires
            self.wf(),
        ensures
            r is Ok <==> fits_256(value@),
            r matches Ok(s) ==> s@ == mnemonic_of(self@, entropy_of(value@)),
            r matches Err(e) ==> e == BunkeysError::SecretTooLarge,
    {
        let n = value.len();
        let start: usize = if n > ENTROPY_BYTES { n - ENTROPY_BYTES } else { 0 };
        let mut i: usize = 0;
        while i < start
            invariant
                i <= start,
                n == value@.len(),
                start == (if n > ENTROPY_BYTES { n - ENTROPY_BYTES } else { 0 }),
                forall|k: int| 0 <= k < i ==> #[trigger] value@[k] == 0,
            decreases start - i,
        {
            if value[i] != 0 {
                return Err(BunkeysError::SecretTooLarge);
            }
            i = i + 1;
        }
        let mut entropy: Vec<u8> = Vec::new();
        let mut k: usize = 0;
        while k < ENTROPY_BYTES
            invariant
                k <= ENTROPY_BYTES,
                n == value@.len(),
                entropy@ == entropy_of(value@).take(k as int),
            decreases ENTROPY_BYTES - k,
        {
            let byte: u8 = if n >= ENTROPY_BYTES - k {
                value[n - (ENTROPY_BYTES - k)]
            } else {
                0u8
            };
            entropy.push(byte);
            proof {
                assert(entropy@ =~= entropy_of(value@).take(k + 1));
            }
            k = k + 1;
        }
        proof {
            assert(entropy@ =~= entropy_of(value@));
        }
        let checksum = Self::calculate_checksum(entropy.as_slice());
        entropy.push(checksum);
        Ok(self.sentence_of(entropy.as_slice()))
    }

    /// The 33 bytes spelled by 24 indices of 11 bits each.
    pub fn indices_to_stream(indices: &[u32]) -> (r: Vec<u8>)
        requires
            indices@.len() == WORD_COUNT,
        ensures
            r@ == stream_of_indices(indices@),
    {
        let mut stream: Vec<u8> = Vec::new();
        let mut b: usize = 0;
        while b < ENTROPY_BYTES + 1
            invariant
                b <= ENTROPY_BYTES + 1,
                indices@.len() == WORD_COUNT,
                stream@ == stream_of_indices(indices@).take(b as int),
            decreases ENTROPY_BYTES + 1 - b,
        {
            let mut acc: u32 = 0;
            let mut t: usize = 0;
            while t < 8
                invariant
                    t <= 8,
                    b < ENTROPY_BYTES + 1,
                    indices@.len() == WORD_COUNT,
                    acc as nat == pack(index_bits(indices@), 8 * b, t as nat),
                decreases 8 - t,
            {
                proof {
                    lemma_index_bits_bound(indices@, 8 * b, t as nat);
                }
                let j: usize = 8 * b + t;
                let x: u32 = indices[j / 11];
                let sh: u32 = (10 - j % 11) as u32;
                let bit: u32 = (x >> sh) & 1u32;
                assert(bit <= 1) by (bit_vector)
                    requires
                        bit == (x >> sh) & 1u32,
                ;
                acc = acc * 2 + bit;
                t = t + 1;
            }
            proof {
                lemma_index_bits_bound(indices@, 8 * b, 8);
            }
            stream.push(acc as u8);
            proof {
                assert(stream@ =~= stream_of_indices(indices@).take(b + 1));
            }
            b = b + 1;
        }
        proof {
            assert(stream@ =~= stream_of_indices(indices@));
        }
        stream
    }

    /// Decode a 24-word sentence to the 32 bytes of entropy it carries.
    pub fn decode(&self, mnemonic: &str) -> (r: Result<Vec<u8>, BunkeysError>)
        requires
            self.wf(),
        ensures
            match r {
                Ok(e) => decode_result(self@, mnemonic@) == Ok::<Seq<u8>, BunkeysError>(e@),
                Err(e) => decode_result(self@, mnemonic@) == Err::<Seq<u8>, BunkeysError>(e),
            },
    {
        let toks = split_words(mnemonic);
        let ghost t = words_of(mnemonic@);
        if toks.len() != WORD_COUNT {
            return Err(BunkeysError::WrongWordCount);
        }
        let mut indices: Vec<u32> = Vec::new();
        let mut i: usize = 0;
        while i < WORD_COUNT
            invariant
                i <= WORD_COUNT,
                self.wf(),
                toks@.len() == WORD_COUNT,
                views(toks@) == t,
                t == words_of(mnemonic@),
                indices@.len() == i,
                forall|k: int| 0 <= k < i ==> self@.contains(#[trigger] t[k]),
                forall|k: int|
                    0 <= k < i ==> #[trigger] indices@[k] == position_of(self@, t[k]) as u32,
            decreases WORD_COUNT - i,
        {
            assert(t[i as int] == toks@[i as int]@);
            match self.index_of(&toks[i]) {
                Some(k) => {
                    indices.push(k as u32);
                },
                None => {
                    assert(!self@.contains(t[i as int]));
                    return Err(BunkeysError::UnknownWord);
                },
            }
            i = i + 1;
        }
        let stream = Self::indices_to_stream(indices.as_slice());
        proof {
            assert(indices@ =~= Seq::new(
                WORD_COUNT as nat,
                |i: int| position_of(self@, t[i]) as u32,
            ));
        }
        let mut entropy: Vec<u8> = Vec::new();
        let mut k: usize = 0;
        while k < ENTROPY_BYTES
            invariant
                k <= ENTROPY_BYTES,
                stream@.len() == ENTROPY_BYTES + 1,
                entropy@ == stream@.take(k as int),
            decreases ENTROPY_BYTES - k,
        {
            entropy.push(stream[k]);
            proof {
                assert(entropy@ =~= stream@.take(k + 1));
            }
            k = k + 1;
        }
        match Self::verify_checksum(entropy.as_slice(), stream[ENTROPY_BYTES]) {
            Ok(()) => Ok(entropy),
            Err(e) => Err(e),
        }
    }
}

/// Decoding the sentence that `encode` gives for a number of at most 256 bits
/// returns that number as 32 big-endian bytes.
pub proof fn lemma_decode_encode(dict: Seq<Seq<char>>, value: Seq<u8>)
    requires
        is_dictionary(dict),
        fits_256(value),
    ensures
        decode_result(dict, mnemonic_of(dict, entropy_of(value))) == Ok::<Seq<u8>, BunkeysError>(
            entropy_of(value),
        ),
{
    let e = entropy_of(value);
    let stream = e.push(checksum_of(e));
    let w = indices_of_stream(stream);
    let ws = words_at(dict, w);
    assert forall|i: int| 0 <= i < WORD_COUNT implies #[trigger] w[i] < DICTIONARY_SIZE by {
        lemma_byte_bits_bound(stream, 11 * i, 11);
    }
    assert forall|i: int| 0 <= i < ws.len() implies is_plain_word(#[trigger] ws[i]) by {
        assert(w[i] < DICTIONARY_SIZE);
    }
    lemma_words_of_join(ws);
    let toks = words_of(mnemonic_of(dict, e));
    assert(toks == ws);
    assert forall|i: int| 0 <= i < toks.len() implies dict.contains(#[trigger] toks[i]) by {
        assert(w[i] < DICTIONARY_SIZE);
        assert(dict[w[i] as int] == toks[i]);
    }
    let found = Seq::new(WORD_COUNT as nat, |i: int| position_of(dict, toks[i]) as u32);
    assert forall|i: int| 0 <= i < WORD_COUNT implies #[trigger] found[i] == w[i] by {
        assert(w[i] < DICTIONARY_SIZE);
        let p = position_of(dict, toks[i]);
        assert(dict[w[i] as int] == toks[i]);
        assert(0 <= p < dict.len() && dict[p] == toks[i]);
        assert(p == w[i] as int);
    }
    assert(found =~= w);
    lemma_stream_round_trip(stream);
    assert(stream.take(ENTROPY_BYTES as int) =~= e);
}

/// Replacing the last word of a mnemonic by another dictionary word whose
/// index has the same top three bits (the entropy bits that the last word
/// carries) leaves the entropy as it was and changes the checksum, so decoding
/// always reports the mismatch.
pub proof fn lemma_last_word_change_detected(dict: Seq<Seq<char>>, value: Seq<u8>, v: u32)
    requires
        is_dictionary(dict),
        fits_256(value),
        v < DICTIONARY_SIZE,
        v != mnemonic_indices(entropy_of(value))[23],
        v >> 8u32 == mnemonic_indices(entropy_of(value))[23] >> 8u32,
    ensures
        decode_result(
            dict,
            join_words(words_at(dict, mnemonic_indices(entropy_of(value)).update(23, v))),
        ) == Err::<Seq<u8>, BunkeysError>(BunkeysError::ChecksumMismatch),
{
    let e = entropy_of(value);
    let stream = e.push(checksum_of(e));
    let w = indices_of_stream(stream);
    let w2 = w.update(23, v);
    let ws = words_at(dict, w2);
    assert forall|i: int| 0 <= i < WORD_COUNT implies #[trigger] w[i] < DICTIONARY_SIZE by {
        lemma_byte_bits_bound(stream, 11 * i, 11);
    }
    assert forall|i: int| 0 <= i < WORD_COUNT implies #[trigger] w2[i] < DICTIONARY_SIZE by {
        assert(w[i] < DICTIONARY_SIZE);
    }
    assert forall|i: int| 0 <= i < ws.len() implies is_plain_word(#[trigger] ws[i]) by {
        assert(w2[i] < DICTIONARY_SIZE);
    }
    lemma_words_of_join(ws);
    let toks = words_of(join_words(ws));
    assert(toks == ws);
    assert forall|i: int| 0 <= i < toks.len() implies dict.contains(#[trigger] toks[i]) by {
        assert(w2[i] < DICTIONARY_SIZE);
        assert(dict[w2[i] as int] == toks[i]);
    }
    let found = Seq::new(WORD_COUNT as nat, |i: int| position_of(dict, toks[i]) as u32);
    assert forall|i: int| 0 <= i < WORD_COUNT implies #[trigger] found[i] == w2[i] by {
        assert(w2[i] < DICTIONARY_SIZE);
        let p = position_of(dict, toks[i]);
        assert(dict[w2[i] as int] == toks[i]);
        assert(0 <= p < dict.len() && dict[p] == toks[i]);
        assert(p == w2[i] as int);
    }
    assert(found =~= w2);
    lemma_stream_round_trip(stream);
    lemma_last_index_change(w, v);
    let s2 = stream_of_indices(w2);
    assert(stream.take(ENTROPY_BYTES as int) =~= e);
    assert(s2.take(ENTROPY_BYTES as int) == e);
    assert(s2[ENTROPY_BYTES as int] != checksum_of(e));
}

} // verus!
