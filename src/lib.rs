//! Key protection toolkit: a mnemonic codec for 256-bit secrets, threshold
//! secret sharing over a prime field, authenticated encryption of the store
//! payload, the in-memory secret store, and the screens of its editor.

pub mod error;
pub mod field;
pub mod polynomial;
pub mod sharing;
pub mod interpolation;
pub mod bits;
pub mod sentence;
pub mod mnemonic;
pub mod cipher;
pub mod store;
pub mod text_input;
pub mod key;
pub mod app_data;
pub mod menu;
pub mod edit;
pub mod screens;
