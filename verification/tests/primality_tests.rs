use factorize::algorithms::primality::{factor_out_twos, miller_rabin, mr_round, MillerRabinResult};
use factorize::arith::Natural;
use factorize::{Factorize, TrialDivision};

const LOW_PRIMES: [u64; 10] = [2, 3, 5, 7, 11, 13, 17, 19, 23, 29];
const LOW_COMPOSITES: [u64; 10] = [1, 4, 6, 8, 9, 10, 12, 14, 15, 16];
const HIGH_PRIMES: [u64; 4] = [613_304_922_953, 344_501_616_449, 342_907_683_289, 885_027_563_087];
const HIGH_COMPOSITES: [u64; 4] = [
    885_027_563_083,
    1_440_456_103_525,
    1_439_896_263_162,
    2_287_220_812_551,
];

#[test]
fn test_miller_rabin() {
    assert_eq!(miller_rabin(&Natural::from_u64(13), 40), MillerRabinResult::ProbablyPrime);
    assert_eq!(miller_rabin(&Natural::from_u64(221), 40), MillerRabinResult::Composite);
}

#[test]
fn test_factor_out_twos_1() {
    let (s, d) = factor_out_twos(&Natural::from_u64(221 - 1));
    assert_eq!((s.to_u64().unwrap(), d.to_u64().unwrap()), (2, 55));
    let (s, d) = factor_out_twos(&Natural::from_u64(13 - 1));
    assert_eq!((s.to_u64().unwrap(), d.to_u64().unwrap()), (2, 3));
}

#[test]
fn mod_miller_rabin_accurate_for_low_primes() {
    for &prime in &LOW_PRIMES {
        let verdict = miller_rabin(&Natural::from_u64(prime), 40);
        assert_eq!((prime, verdict), (prime, MillerRabinResult::ProbablyPrime));
    }
}

#[test]
fn mod_miller_rabin_accurate_for_low_composites() {
    for &composite in &LOW_COMPOSITES {
        let verdict = miller_rabin(&Natural::from_u64(composite), 40);
        assert_eq!((composite, verdict), (composite, MillerRabinResult::Composite));
    }
}

#[test]
fn mod_miller_rabin_accurate_for_high_primes() {
    for &prime in &HIGH_PRIMES {
        let verdict = miller_rabin(&Natural::from_u64(prime), 40);
        assert_eq!((prime, verdict), (prime, MillerRabinResult::ProbablyPrime));
    }
}

#[test]
fn mod_miller_rabin_accurate_for_high_composites() {
    for &composite in &HIGH_COMPOSITES {
        let verdict = miller_rabin(&Natural::from_u64(composite), 40);
        assert_eq!((composite, verdict), (composite, MillerRabinResult::Composite));
    }
}

#[test]
fn lib_miller_rabin_accurate_for_low_primes() {
    for &prime in &LOW_PRIMES {
        let verdict = miller_rabin(&Natural::from_u64(prime), 40);
        assert_eq!((prime, verdict), (prime, MillerRabinResult::ProbablyPrime));
    }
}

#[test]
fn lib_miller_rabin_accurate_for_low_composites() {
    for &composite in &LOW_COMPOSITES {
        let verdict = miller_rabin(&Natural::from_u64(composite), 40);
        assert_eq!((composite, verdict), (composite, MillerRabinResult::Composite));
    }
}

#[test]
fn lib_miller_rabin_accurate_for_high_primes() {
    for &prime in &HIGH_PRIMES {
        let verdict = miller_rabin(&Natural::from_u64(prime), 40);
        assert_eq!((prime, verdict), (prime, MillerRabinResult::ProbablyPrime));
    }
}

#[test]
fn lib_miller_rabin_accurate_for_high_composites() {
    for &composite in &HIGH_COMPOSITES {
        let verdict = miller_rabin(&Natural::from_u64(composite), 40);
        assert_eq!((composite, verdict), (composite, MillerRabinResult::Composite));
    }
}

#[test]
fn sprime() {
    for n in 1..1000u64 {
        let facts = TrialDivision::factor(Natural::from_u64(n)).unwrap();
        let count = Natural::from_u64(facts.len() as u64);
        if let MillerRabinResult::ProbablyPrime = miller_rabin(&count, 40) {
        } else if facts.len() > 1 {
            println!("{} has {} factors", n, facts.len());
        }
    }
}

#[test]
fn mr_round_distinguishes_witnesses() {
    // 221 == 13 * 17 and 220 == 2^2 * 55
    let n = Natural::from_u64(221);
    let d = Natural::from_u64(55);
    let s = Natural::from_u64(2);
    assert!(!mr_round(&n, &d, &s, &Natural::from_u64(2)));
    // 21 is a strong liar for 221: 21^55 == -21 and (-21)^2 == -1 (mod 221)
    assert!(mr_round(&n, &d, &s, &Natural::from_u64(21)));
    // 13 is prime, with 12 == 2^2 * 3: every admissible witness passes
    let n13 = Natural::from_u64(13);
    let d13 = Natural::from_u64(3);
    let s13 = Natural::from_u64(2);
    for w in 2..12u64 {
        assert!(mr_round(&n13, &d13, &s13, &Natural::from_u64(w)));
    }
}

#[test]
fn factor_out_twos_restores_the_input() {
    for n in [2u64, 6, 8, 96, 1024, 1_000_000] {
        let (s, d) = factor_out_twos(&Natural::from_u64(n));
        let s = s.to_u64().unwrap();
        let d = d.to_u64().unwrap();
        assert_eq!(d % 2, 1);
        assert_eq!(n, (1u64 << s) * d);
    }
}
