//! Reading a store key typed by the operator: 64 hex digits, or a mnemonic.
use crate::error::BunkeysError;
use crate::mnemonic::{decode_result, Bip39};
use vstd::prelude::*;

verus! {

#[verifier::external_type_specification]
#[verifier::external_body]
pub struct ExFromHexError(hex::FromHexError);

/// The value of a hexadecimal digit, either case.
pub open spec fn hex_digit_value(c: char) -> int {
    if '0' <= c && c <= '9' {
        c as int - '0' as int
    } else if 'a' <= c && c <= 'f' {
        c as int - 'a' as int + 10
    } else {
        c as int - 'A' as int + 10
    }
}

/// A hexadecimal digit, either case.
pub open spec fn is_hex_digit(c: char) -> bool {
    ('0' <= c && c <= '9') || ('a' <= c && c <= 'f') || ('A' <= c && c <= 'F')
}

/// An even number of hexadecimal digits.
pub open spec fn is_hex(s: Seq<char>) -> bool {
    s.len() % 2 == 0 && forall|i: int| 0 <= i < s.len() ==> is_hex_digit(#[trigger] s[i])
}

/// The bytes spelled by pairs of hexadecimal digits, high digit first.
pub open spec fn hex_bytes(s: Seq<char>) -> Seq<u8> {
    Seq::new(s.len() / 2, |i: int| (hex_digit_value(s[2 * i]) * 16 + hex_digit_value(s[2 * i + 1])) as u8)
}

/// Relies on `hex::decode`: the bytes of an even number of hex digits (either
/// case), an error for any other text.
#[verifier::external_body]
fn hex_decode(s: &str) -> (r: Result<Vec<u8>, hex::FromHexError>)
    ensures
        r is Ok <==> is_hex(s@),
        r matches Ok(b) ==> b@ == hex_bytes(s@),
{
    hex::decode(s)
}

/// What reading `raw` as a key gives: with a space in it, the entropy of the
/// mnemonic it spells; otherwise the 32 bytes of its 64 hex digits.
pub open spec fn raw_key_result(dict: Seq<Seq<char>>, raw: Seq<char>) -> Result<Seq<u8>, BunkeysError> {
    if raw.contains(' ') {
        decode_result(dict, raw)
    } else if is_hex(raw) && raw.len() == 64 {
        Ok(hex_bytes(raw))
    } else {
        Err(BunkeysError::InvalidKeyFormat)
    }
}

/// Whether `s` holds a space.
fn has_space(s: &str) -> (r: bool)
    ensures
        r == s@.contains(' '),
{
    for c in it: s.chars()
        invariant
            it.seq() == s@,
            forall|i: int| 0 <= i < it.index() ==> #[trigger] s@[i] != ' ',
    {
        if c == ' ' {
            assert(s@[it.index() as int] == ' ');
            return true;
        }
    }
    false
}

/// Read a key typed as 64 hex digits or as a 24-word mnemonic.
pub fn parse_raw_key(bip39: &Bip39, raw_key: &str) -> (r: Result<Vec<u8>, BunkeysError>)
    requires
        bip39.wf(),
    ensures
        match r {
            Ok(k) => raw_key_result(bip39@, raw_key@) == Ok::<Seq<u8>, BunkeysError>(k@),
            Err(e) => raw_key_result(bip39@, raw_key@) == Err::<Seq<u8>, BunkeysError>(e),
        },
{
    if has_space(raw_key) {
        bip39.decode(raw_key)
    } else {
        match hex_decode(raw_key) {
            Ok(bytes) => {
                if bytes.len() == 32 {
                    Ok(bytes)
                } else {
                    Err(BunkeysError::InvalidKeyFormat)
                }
            },
            Err(_) => Err(BunkeysError::InvalidKeyFormat),
        }
    }
}

} // verus!
