use factorize::algorithms::{Alg, ParseAlgError};

#[test]
fn alg_from_str_recognizes_spellings() {
    assert_eq!(Alg::from_str("trial_division").unwrap(), Alg::TrialDivision);
    assert_eq!(Alg::from_str("TRIAL DIVISION").unwrap(), Alg::TrialDivision);
    assert_eq!(Alg::from_str("TrialDivision").unwrap(), Alg::TrialDivision);
    assert_eq!(Alg::from_str("brentsrho").unwrap(), Alg::BrentsRho);
    assert_eq!(Alg::from_str("Brents Rho").unwrap(), Alg::BrentsRho);
    assert_eq!(Alg::from_str("brents_rho").unwrap(), Alg::BrentsRho);
    assert_eq!(Alg::from_str("BRENTS'S RHO").unwrap(), Alg::BrentsRho);
    assert_eq!(Alg::from_str("fermat").unwrap(), Alg::Fermat);
    assert_eq!(Alg::from_str("Fermats").unwrap(), Alg::Fermat);
    assert_eq!(Alg::from_str("FERMAT'S").unwrap(), Alg::Fermat);
}

#[test]
fn alg_from_str_rejects_unknown_names() {
    match Alg::from_str("quadratic sieve") {
        Err(ParseAlgError::UnknownAlg(name)) => assert_eq!(name, "quadratic sieve"),
        Ok(_) => panic!("an unknown name must be rejected"),
    }
}

#[test]
fn alg_names() {
    assert_eq!(Alg::TrialDivision.name(), "trial division");
    assert_eq!(Alg::BrentsRho.name(), "Brent's Rho");
    assert_eq!(Alg::Fermat.name(), "Fermat");
}

#[test]
fn parse_alg_error_message() {
    let err = ParseAlgError::UnknownAlg("gnfs".to_owned());
    assert_eq!(err.message(), "unknown algorithm 'gnfs'");
}
