use bunkeys::error::BunkeysError;
use bunkeys::field::{add_mod, sub_mod, MODULUS};
use bunkeys::polynomial::Polynom;
use bunkeys::sharing::{get_polynom_constant_value, split_secret};
use itertools::Itertools;
use rand::RngCore;

fn random_secret() -> u128 {
    let mut rng = rand::rngs::OsRng;
    let hi = rng.next_u64() as u128;
    let lo = rng.next_u64() as u128;
    ((hi << 64) | lo) % MODULUS
}

#[test]
fn any_three_of_six_shares_recover_the_secret() {
    let secret = random_secret();
    let shares = split_secret(secret, 3, 6).unwrap();
    assert_eq!(shares.len(), 6);
    let mut combinations = 0;
    for combo in shares.iter().combinations(3) {
        let points: Vec<(u128, u128)> = combo.into_iter().copied().collect();
        assert_eq!(get_polynom_constant_value(&points), Ok(secret));
        combinations += 1;
    }
    assert_eq!(combinations, 20);
    assert_eq!(get_polynom_constant_value(&shares), Ok(secret));
}

#[test]
fn two_shares_do_not_determine_the_secret() {
    let polynom = Polynom::new(vec![1234567, 89, 1011]);
    let points = polynom.get_firsts_n_points(6);
    let recovered = get_polynom_constant_value(&points[0..2]).unwrap();
    assert_ne!(recovered, 1234567);
    assert_eq!(get_polynom_constant_value(&points[3..6]), Ok(1234567));
}

#[test]
fn points_are_values_of_the_polynomial() {
    let polynom = Polynom::new(vec![1, 2, 3]);
    assert_eq!(polynom.calculate_y(2), 17);
    assert_eq!(polynom.get_firsts_n_points(3), vec![(1, 6), (2, 17), (3, 34)]);
}

#[test]
fn values_are_reduced_modulo_the_prime() {
    let polynom = Polynom::new(vec![0, MODULUS - 1]);
    assert_eq!(polynom.calculate_y(MODULUS - 1), 1);
    let square = Polynom::new(vec![0, 0, 1]);
    assert_eq!(square.calculate_y(1u128 << 100), 1u128 << 73);
}

#[test]
fn field_addition_and_subtraction_wrap() {
    assert_eq!(add_mod(MODULUS - 1, 5), 4);
    assert_eq!(sub_mod(3, 5), MODULUS - 2);
    assert_eq!(MODULUS, (1u128 << 127) - 1);
}

#[test]
fn random_polynomial_has_the_asked_degree() {
    let polynom = Polynom::new_random_of_degree_with_constant_term(4, 42);
    assert_eq!(polynom.coefficients.len(), 5);
    assert_eq!(polynom.coefficients[0], 42);
    assert!(polynom.coefficients[1..].iter().all(|c| *c != 0 && *c < MODULUS));
}

#[test]
fn known_shares_interpolate_exactly() {
    // f(x) = 7 + 3x + 2x^2
    let points = vec![(1u128, 12u128), (2, 21), (3, 34)];
    assert_eq!(get_polynom_constant_value(&points), Ok(7));
}

#[test]
fn duplicate_share_index_is_rejected() {
    let points = vec![(1u128, 12u128), (2, 21), (1, 12)];
    assert_eq!(get_polynom_constant_value(&points), Err(BunkeysError::DuplicateShareIndex));
}

#[test]
fn share_outside_the_field_is_rejected() {
    let points = vec![(1u128, MODULUS), (2, 21)];
    assert_eq!(get_polynom_constant_value(&points), Err(BunkeysError::ShareOutOfRange));
    let points = vec![(MODULUS + 1, 3), (2, 21)];
    assert_eq!(get_polynom_constant_value(&points), Err(BunkeysError::ShareOutOfRange));
}

#[test]
fn no_shares_reconstruct_zero() {
    assert_eq!(get_polynom_constant_value(&[]), Ok(0));
}

#[test]
fn secret_outside_the_field_cannot_be_split() {
    assert_eq!(split_secret(MODULUS, 3, 6), Err(BunkeysError::SecretTooLarge));
}
