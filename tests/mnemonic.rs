use bunkeys::error::BunkeysError;
use bunkeys::mnemonic::Bip39;
use num_bigint::{BigUint, RandBigInt};
use rand::rngs::OsRng;

fn word(i: usize) -> String {
    let letters = ['a', 'b', 'c', 'd', 'e', 'f', 'g', 'h', 'i', 'j', 'k', 'l', 'm', 'n', 'o', 'p'];
    let mut w = String::from("w");
    w.push(letters[(i >> 8) & 15]);
    w.push(letters[(i >> 4) & 15]);
    w.push(letters[i & 15]);
    w
}

fn dictionary() -> Vec<String> {
    (0..2048).map(word).collect()
}

fn codec() -> Bip39 {
    Bip39::new(dictionary()).unwrap()
}

#[test]
fn test_bip39_roundtrip() {
    let bip39 = codec();

    let test_bigint = BigUint::from(0x1234567890abcdefu64);
    let mnemonic = bip39.encode(&test_bigint.to_bytes_be()).unwrap();
    let decoded = BigUint::from_bytes_be(&bip39.decode(&mnemonic).unwrap());

    assert_eq!(test_bigint, decoded);
}

#[test]
fn test_bip39_roundtrip_random() {
    let bip39 = codec();

    let mut rng = OsRng::default();
    for _ in 0..10000 {
        let test_bigint = rng.gen_biguint(256);
        let mnemonic = bip39.encode(&test_bigint.to_bytes_be()).unwrap();
        let decoded = BigUint::from_bytes_be(&bip39.decode(&mnemonic).unwrap());
        assert_eq!(test_bigint, decoded);
    }
}

#[test]
fn test_random_generation() {
    let bip39 = codec();
    let bigint = OsRng::default().gen_biguint(256);

    let mnemonic = bip39.encode(&bigint.to_bytes_be()).unwrap();
    let words: Vec<&str> = mnemonic.split_whitespace().collect();
    assert_eq!(words.len(), 24);
}

#[test]
fn zero_entropy_spells_first_word_and_checksum_word() {
    let bip39 = codec();
    let mnemonic = bip39.encode(&[0u8; 32]).unwrap();
    let mut expected: Vec<String> = vec![word(0); 23];
    expected.push(word(102));
    assert_eq!(mnemonic, expected.join(" "));
}

#[test]
fn checksum_is_first_digest_byte() {
    assert_eq!(Bip39::calculate_checksum(&[0u8; 32]), 0x66);
    assert_eq!(Bip39::verify_checksum(&[0u8; 32], 0x66), Ok(()));
    assert_eq!(Bip39::verify_checksum(&[0u8; 32], 0x67), Err(BunkeysError::ChecksumMismatch));
}

#[test]
fn decode_returns_padded_entropy() {
    let bip39 = codec();
    let mnemonic = bip39.encode(&[1u8, 2, 3]).unwrap();
    let mut expected = vec![0u8; 29];
    expected.extend_from_slice(&[1, 2, 3]);
    assert_eq!(bip39.decode(&mnemonic).unwrap(), expected);
}

#[test]
fn leading_zero_bytes_beyond_256_bits_are_accepted() {
    let bip39 = codec();
    let mut value = vec![0u8, 0u8];
    value.extend_from_slice(&[0xabu8; 32]);
    let mnemonic = bip39.encode(&value).unwrap();
    assert_eq!(bip39.decode(&mnemonic).unwrap(), vec![0xabu8; 32]);
}

#[test]
fn secret_above_256_bits_is_rejected() {
    let bip39 = codec();
    let mut value = vec![1u8];
    value.extend_from_slice(&[0u8; 32]);
    assert_eq!(bip39.encode(&value), Err(BunkeysError::SecretTooLarge));
}

#[test]
fn unknown_word_is_rejected() {
    let bip39 = codec();
    let mnemonic = bip39.encode(&[7u8; 32]).unwrap();
    let mut words: Vec<&str> = mnemonic.split(' ').collect();
    words[5] = "zzzzzzzz";
    assert_eq!(bip39.decode(&words.join(" ")), Err(BunkeysError::UnknownWord));
}

#[test]
fn wrong_word_count_is_rejected() {
    let bip39 = codec();
    let mnemonic = bip39.encode(&[7u8; 32]).unwrap();
    let words: Vec<&str> = mnemonic.split(' ').collect();
    assert_eq!(bip39.decode(&words[..23].join(" ")), Err(BunkeysError::WrongWordCount));
    assert_eq!(bip39.decode(""), Err(BunkeysError::WrongWordCount));
    let longer = format!("{} {}", mnemonic, words[0]);
    assert_eq!(bip39.decode(&longer), Err(BunkeysError::WrongWordCount));
}

#[test]
fn any_whitespace_separates_words() {
    let bip39 = codec();
    let mnemonic = bip39.encode(&[9u8; 32]).unwrap();
    let spaced = format!("  {}\n", mnemonic.replace(' ', " \t "));
    assert_eq!(bip39.decode(&spaced).unwrap(), vec![9u8; 32]);
}

#[test]
fn changed_checksum_word_is_detected() {
    let bip39 = codec();
    let mnemonic = bip39.encode(&[0x5au8; 32]).unwrap();
    let mut words: Vec<String> = mnemonic.split(' ').map(|w| w.to_string()).collect();
    let last = bip39.get_word_list().iter().position(|w| *w == words[23]).unwrap();
    words[23] = word(last ^ 1);
    assert_eq!(bip39.decode(&words.join(" ")), Err(BunkeysError::ChecksumMismatch));
}

#[test]
fn changed_words_are_mostly_detected() {
    let bip39 = codec();
    let mnemonic = bip39.encode(&[0x3cu8; 32]).unwrap();
    let words: Vec<String> = mnemonic.split(' ').map(|w| w.to_string()).collect();
    let mut detected = 0;
    for i in 0..24 {
        let pos = bip39.get_word_list().iter().position(|w| *w == words[i]).unwrap();
        let mut changed = words.clone();
        changed[i] = word((pos + 1) % 2048);
        if bip39.decode(&changed.join(" ")) == Err(BunkeysError::ChecksumMismatch) {
            detected += 1;
        }
    }
    assert!(detected >= 22);
}

#[test]
fn dictionary_must_hold_2048_distinct_plain_words() {
    let mut short = dictionary();
    short.pop();
    assert_eq!(Bip39::new(short).err(), Some(BunkeysError::WordListLength));

    let mut duplicate = dictionary();
    duplicate[100] = duplicate[7].clone();
    assert_eq!(Bip39::new(duplicate).err(), Some(BunkeysError::DuplicateWord));

    let mut spaced = dictionary();
    spaced[3] = "two words".to_string();
    assert_eq!(Bip39::new(spaced).err(), Some(BunkeysError::InvalidWord));

    let mut empty = dictionary();
    empty[0] = String::new();
    assert_eq!(Bip39::new(empty).err(), Some(BunkeysError::InvalidWord));

    assert_eq!(codec().get_word_list().len(), 2048);
}

#[test]
fn dictionary_text_is_read_line_by_line() {
    let mut text = String::from("\n  \r\n");
    for i in 0..2048 {
        text.push_str(&format!("  {}\r\n", word(i)));
        if i % 100 == 0 {
            text.push_str("\t \n");
        }
    }
    let bip39 = Bip39::from_text(&text).unwrap();
    assert_eq!(bip39.get_word_list().to_vec(), dictionary());

    let short: String = (0..2047).map(|i| format!("{}\n", word(i))).collect();
    assert_eq!(Bip39::from_text(&short).err(), Some(BunkeysError::WordListLength));

    let mut spaced: String = (0..2047).map(|i| format!("{}\n", word(i))).collect();
    spaced.push_str("two words");
    assert_eq!(Bip39::from_text(&spaced).err(), Some(BunkeysError::InvalidWord));
}
