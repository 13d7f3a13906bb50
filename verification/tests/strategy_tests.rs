use factorize::arith::Natural;
use factorize::{BrentsRho, Factorize, Fermat, TrialDivision};

const LOW_PRIMES_11: [u64; 11] = [2, 3, 5, 7, 11, 13, 17, 19, 23, 29, 31];
const LOW_PRIMES_10: [u64; 10] = [2, 3, 5, 7, 11, 13, 17, 19, 23, 29];

fn product_u128(factors: &[Natural]) -> u128 {
    let mut product: u128 = 1;
    for factor in factors {
        product *= factor.to_u64().expect("factor fits in u64") as u128;
    }
    product
}

fn naturals(values: &[u64]) -> Vec<Natural> {
    values.iter().map(|&v| Natural::from_u64(v)).collect()
}

#[test]
fn test_pollards_rho() {
    let numbers: [u64; 9] = [1, 2, 3, 10, 100, 150, 50000, 1_234_567_890, 948_347_928_371_874];
    for &number in &numbers {
        let factors = BrentsRho::factor(Natural::from_u64(number)).unwrap();
        if number == 1 {
            assert_eq!(factors.len(), 0);
        } else {
            assert_eq!(number as u128, product_u128(&factors));
        }
    }
}

#[test]
fn trial_div_should_factorize_correctly() {
    let numbers: [u64; 9] = [1, 2, 3, 10, 100, 150, 50000, 1_234_567_890, 948_347_928_371_874];
    for &number in &numbers {
        let factors = TrialDivision::factor(Natural::from_u64(number)).unwrap();
        if number == 1 {
            assert_eq!(factors.len(), 0);
        } else {
            assert_eq!(number as u128, product_u128(&factors));
        }
    }
}

#[test]
fn algorithms_trial_division_low_primes() {
    for &prime in &LOW_PRIMES_11 {
        let factors = TrialDivision::factor(Natural::from_u64(prime)).unwrap();
        assert_eq!(factors.len(), 1);
    }
}

#[test]
fn brents_rho_low_primes() {
    for &prime in &LOW_PRIMES_11 {
        let factors = BrentsRho::factor(Natural::from_u64(prime)).unwrap();
        assert_eq!(factors.len(), 1);
    }
}

#[test]
fn mod_trial_division_low_primes() {
    for &prime in &LOW_PRIMES_10 {
        let factors = TrialDivision::factor(Natural::from_u64(prime)).unwrap();
        assert_eq!((prime, factors.len()), (prime, 1));
    }
}

#[test]
fn mod_brents_rho_low_primes() {
    for &prime in &LOW_PRIMES_10 {
        let factors = BrentsRho::factor(Natural::from_u64(prime)).unwrap();
        assert_eq!((prime, factors.len()), (prime, 1));
    }
}

#[test]
fn brents_rho_low_composites() {
    assert_eq!(BrentsRho::factor(Natural::from_u64(12)).unwrap(), naturals(&[2, 2, 3]));
    assert_eq!(BrentsRho::factor(Natural::from_u64(15)).unwrap(), naturals(&[3, 5]));
    assert_eq!(BrentsRho::factor(Natural::from_u64(40)).unwrap(), naturals(&[2, 2, 2, 5]));
    assert_eq!(BrentsRho::factor(Natural::from_u64(42)).unwrap(), naturals(&[2, 3, 7]));
}

#[test]
fn mod_fermat_low_primes() {
    for &prime in &LOW_PRIMES_10 {
        let factors = Fermat::factor(Natural::from_u64(prime)).unwrap();
        assert_eq!((prime, factors.len()), (prime, 1));
    }
}

#[test]
fn mod_fermat_low_composites() {
    assert_eq!(Fermat::factor(Natural::from_u64(12)).unwrap(), naturals(&[2, 2, 3]));
    assert_eq!(Fermat::factor(Natural::from_u64(15)).unwrap(), naturals(&[3, 5]));
    assert_eq!(Fermat::factor(Natural::from_u64(40)).unwrap(), naturals(&[2, 2, 2, 5]));
    assert_eq!(Fermat::factor(Natural::from_u64(42)).unwrap(), naturals(&[2, 3, 7]));
}

#[test]
fn lib_trial_division_low_primes() {
    for &prime in &LOW_PRIMES_10 {
        let factors = TrialDivision::factor(Natural::from_u64(prime)).unwrap();
        assert_eq!((prime, factors.len()), (prime, 1));
    }
}

#[test]
fn lib_brents_rho_low_primes() {
    for &prime in &LOW_PRIMES_10 {
        let factors = BrentsRho::factor(Natural::from_u64(prime)).unwrap();
        assert_eq!((prime, factors.len()), (prime, 1));
    }
}

#[test]
fn lib_brents_rho_low_composites() {
    assert_eq!(BrentsRho::factor(Natural::from_u64(12)).unwrap(), naturals(&[2, 2, 3]));
    assert_eq!(BrentsRho::factor(Natural::from_u64(15)).unwrap(), naturals(&[3, 5]));
    assert_eq!(BrentsRho::factor(Natural::from_u64(40)).unwrap(), naturals(&[2, 2, 2, 5]));
    assert_eq!(BrentsRho::factor(Natural::from_u64(42)).unwrap(), naturals(&[2, 3, 7]));
}

#[test]
fn lib_fermat_low_primes() {
    for &prime in &LOW_PRIMES_10 {
        let factors = Fermat::factor(Natural::from_u64(prime)).unwrap();
        assert_eq!((prime, factors.len()), (prime, 1));
    }
}

#[test]
fn lib_fermat_low_composites() {
    assert_eq!(Fermat::factor(Natural::from_u64(12)).unwrap(), naturals(&[2, 2, 3]));
    assert_eq!(Fermat::factor(Natural::from_u64(15)).unwrap(), naturals(&[3, 5]));
    assert_eq!(Fermat::factor(Natural::from_u64(40)).unwrap(), naturals(&[2, 2, 2, 5]));
    assert_eq!(Fermat::factor(Natural::from_u64(42)).unwrap(), naturals(&[2, 3, 7]));
}

#[test]
fn degenerate_inputs_yield_no_factors() {
    for value in [0u64, 1] {
        assert_eq!(TrialDivision::factor(Natural::from_u64(value)).unwrap(), vec![]);
        assert_eq!(BrentsRho::factor(Natural::from_u64(value)).unwrap(), vec![]);
        assert_eq!(Fermat::factor(Natural::from_u64(value)).unwrap(), vec![]);
    }
}

#[test]
fn cross_strategy_agreement() {
    let samples: [u64; 8] = [12, 40, 42, 105, 150, 50000, 1_234_567_890, 104_729 * 3];
    for &number in &samples {
        let mut td = TrialDivision::factor(Natural::from_u64(number)).unwrap();
        let mut br = BrentsRho::factor(Natural::from_u64(number)).unwrap();
        let mut fe = Fermat::factor(Natural::from_u64(number)).unwrap();
        td.sort_by_key(|f| f.to_u64().unwrap());
        br.sort_by_key(|f| f.to_u64().unwrap());
        fe.sort_by_key(|f| f.to_u64().unwrap());
        assert_eq!(td, br);
        assert_eq!(td, fe);
    }
}

#[test]
fn fermat_round_trip() {
    let numbers: [u64; 9] = [1, 9, 10, 15, 105, 150, 231, 50000, 1_234_567_890];
    for &number in &numbers {
        let factors = Fermat::factor(Natural::from_u64(number)).unwrap();
        if number == 1 {
            assert_eq!(factors.len(), 0);
        } else {
            assert_eq!(number as u128, product_u128(&factors));
        }
    }
}

#[test]
fn fermat_square_odd_parts() {
    assert_eq!(Fermat::factor(Natural::from_u64(9)).unwrap(), naturals(&[3, 3]));
    assert_eq!(Fermat::factor(Natural::from_u64(50)).unwrap(), naturals(&[2, 5, 5]));
}

#[test]
fn factor_generic_matches_factor() {
    let factors = TrialDivision::factor_generic(360).unwrap();
    assert_eq!(factors, naturals(&[2, 2, 2, 3, 3, 5]));
    assert_eq!(TrialDivision::factor_generic(0).unwrap(), vec![]);
}
