use factorize::sieve::Sieve;

#[test]
fn sieve_test() {
    let sieve = Sieve::new(100);
    let primes: Vec<usize> = sieve.primes();
    assert_eq!(
        primes,
        vec![
            2, 3, 5, 7, 11, 13, 17, 19, 23, 29, 31, 37, 41, 43, 47, 53, 59, 61, 67, 71, 73, 79,
            83, 89, 97,
        ]
    );

    for n in 0..100 {
        if primes.contains(&n) {
            assert!(sieve.is_prime(n));
        } else {
            assert!(!sieve.is_prime(n));
        }
    }
}

#[test]
fn sieve_smallest_table() {
    let sieve = Sieve::new(1);
    assert_eq!(sieve.primes(), Vec::<usize>::new());
    assert!(!sieve.is_prime(0));
    assert!(!sieve.is_prime(1));
}
