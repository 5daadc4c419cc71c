use bunkeys::cipher::{decrypt_string, encrypt_string, encrypt_with_nonce};
use bunkeys::error::BunkeysError;

fn key() -> Vec<u8> {
    (0u8..32).collect()
}

#[test]
fn decrypt_inverts_encrypt() {
    for len in [0usize, 1, 15, 16, 17, 1000] {
        let plaintext: Vec<u8> = (0..len).map(|i| (i * 7) as u8).collect();
        let blob = encrypt_string(key(), plaintext.clone()).unwrap();
        assert_eq!(blob.len(), 12 + len + 16);
        assert_eq!(decrypt_string(key(), blob), Ok(plaintext));
    }
}

#[test]
fn every_encryption_draws_a_fresh_nonce() {
    let a = encrypt_string(key(), b"same".to_vec()).unwrap();
    let b = encrypt_string(key(), b"same".to_vec()).unwrap();
    assert_ne!(a[..12], b[..12]);
}

#[test]
fn flipped_bits_fail_authentication() {
    let blob = encrypt_string(key(), b"secret store payload".to_vec()).unwrap();
    for byte in 0..blob.len() {
        for bit in [0u8, 3, 7] {
            let mut tampered = blob.clone();
            tampered[byte] ^= 1 << bit;
            assert_eq!(decrypt_string(key(), tampered), Err(BunkeysError::AuthenticationFailed));
        }
    }
}

#[test]
fn truncated_or_extended_blob_fails_authentication() {
    let blob = encrypt_string(key(), b"payload".to_vec()).unwrap();
    assert_eq!(
        decrypt_string(key(), blob[..blob.len() - 1].to_vec()),
        Err(BunkeysError::AuthenticationFailed)
    );
    let mut longer = blob.clone();
    longer.push(0);
    assert_eq!(decrypt_string(key(), longer), Err(BunkeysError::AuthenticationFailed));
}

#[test]
fn wrong_key_fails_authentication() {
    let blob = encrypt_string(key(), b"payload".to_vec()).unwrap();
    let mut other = key();
    other[0] ^= 1;
    assert_eq!(decrypt_string(other, blob), Err(BunkeysError::AuthenticationFailed));
}

#[test]
fn short_blob_is_rejected() {
    assert_eq!(decrypt_string(key(), vec![0u8; 11]), Err(BunkeysError::DataTooShort));
    assert_eq!(decrypt_string(key(), vec![]), Err(BunkeysError::DataTooShort));
}

#[test]
fn key_must_be_32_bytes() {
    assert_eq!(encrypt_string(vec![0u8; 31], b"x".to_vec()), Err(BunkeysError::InvalidKeyLength));
    assert_eq!(decrypt_string(vec![0u8; 33], vec![0u8; 40]), Err(BunkeysError::InvalidKeyLength));
}

#[test]
fn sealing_matches_the_aes_256_gcm_test_vector() {
    let blob = encrypt_with_nonce(&[0u8; 32], &[0u8; 12], &[0u8; 16]).unwrap();
    let expected = hex::decode(
        "000000000000000000000000cea7403d4d606b6e074ec5d3baf39d18d0d1c8a799996bf0265b98b5d48ab919",
    )
    .unwrap();
    assert_eq!(blob, expected);
    assert_eq!(decrypt_string(vec![0u8; 32], blob), Ok(vec![0u8; 16]));
}
