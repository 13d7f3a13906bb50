use factorize::arith::Natural;
use factorize::math::trial_division;

#[test]
fn natural_word_round_trip() {
    for value in [0u64, 1, 2, 0xFFFF_FFFF, 0x1_0000_0000, u64::MAX] {
        assert_eq!(Natural::from_u64(value).to_u64(), Some(value));
    }
}

#[test]
fn natural_limbs_are_normalized() {
    assert_eq!(Natural::from_limbs(vec![9, 0, 0]), Natural::from_u64(9));
    assert_eq!(Natural::from_limbs(vec![0, 0]), Natural::from_u64(0));
    assert_eq!(Natural::from_limbs(vec![]).to_u64(), Some(0));
}

#[test]
fn natural_limbs_round_trip() {
    let wide = Natural::from_limbs(vec![5, 0, 0, 7]);
    assert_eq!(wide.to_u64(), None);
    let again = Natural::from_limbs(wide.into_limbs());
    assert_eq!(again.to_u64(), None);
    let narrow = Natural::from_limbs(vec![9, 3]);
    assert_eq!(narrow.to_u64(), Some(9 + (3u64 << 32)));
}

#[test]
fn math_trial_division_known_values() {
    assert_eq!(trial_division(0), Vec::<u128>::new());
    assert_eq!(trial_division(1), Vec::<u128>::new());
    assert_eq!(trial_division(12), vec![2, 2, 3]);
    assert_eq!(trial_division(15), vec![3, 5]);
    assert_eq!(trial_division(40), vec![2, 2, 2, 5]);
    assert_eq!(trial_division(42), vec![2, 3, 7]);
    assert_eq!(trial_division(104_729), vec![104_729]);
}

#[test]
fn math_trial_division_round_trip() {
    for n in [2u128, 3, 10, 100, 150, 50000, 1_234_567_890, 948_347_928_371_874] {
        let factors = trial_division(n);
        let product: u128 = factors.iter().product();
        assert_eq!(product, n);
    }
}
