//! The factorization strategies and the selector that names them.

use vstd::prelude::*;

pub mod brents_rho;
pub mod fermat;
pub mod primality;
pub mod trial_division;
pub mod worklist;

pub use brents_rho::BrentsRho;
pub use fermat::Fermat;
pub use trial_division::TrialDivision;

verus! {

use vstd::string::{StrSliceExecFns, StringExecFns};

/// The closed set of recognized factorization strategies.
#[derive(Clone, Copy, Debug, PartialEq, Eq)]
pub enum Alg {
    TrialDivision,
    BrentsRho,
    Fermat,
}

/// The failure of strategy selection: the offending name is carried
/// back to the caller.
#[derive(Debug)]
pub enum ParseAlgError {
    UnknownAlg(String),
}

/// ASCII uppercasing of one character, by its scalar value.
pub open spec fn upper_scalar(u: u32) -> u32 {
    if 97 <= u <= 122 {
        (u - 32) as u32
    } else {
        u
    }
}

/// Whether `s` spells `pattern` up to ASCII case.
pub open spec fn keyword_match(s: Seq<char>, pattern: Seq<char>) -> bool {
    s.len() == pattern.len() && forall|i: int|
        0 <= i < s.len() ==> upper_scalar(#[trigger] s[i] as u32) == pattern[i] as u32
}

/// The strategy a name selects: case-insensitive, with a few spaced,
/// underscored and apostrophized spellings accepted.
pub open spec fn spec_alg_of(s: Seq<char>) -> Option<Alg> {
    if keyword_match(s, "TRIALDIVISION"@) || keyword_match(s, "TRIAL DIVISION"@)
        || keyword_match(s, "TRIAL_DIVISION"@) {
        Some(Alg::TrialDivision)
    } else if keyword_match(s, "BRENTSRHO"@) || keyword_match(s, "BRENTS RHO"@)
        || keyword_match(s, "BRENTS_RHO"@) || keyword_match(s, "BRENTS'S RHO"@) {
        Some(Alg::BrentsRho)
    } else if keyword_match(s, "FERMAT"@) || keyword_match(s, "FERMATS"@)
        || keyword_match(s, "FERMAT'S"@) {
        Some(Alg::Fermat)
    } else {
        None
    }
}

/// Compares a string against a pattern up to ASCII case.
fn keyword_eq(s: &str, pattern: &str) -> (r: bool)
    ensures
        r == keyword_match(s@, pattern@),
{
    let n = s.unicode_len();
    let p = pattern.unicode_len();
    if n != p {
        return false;
    }
    let mut i: usize = 0;
    while i < n
        invariant
            0 <= i <= n,
            n == s@.len(),
            n == pattern@.len(),
            forall|j: int|
                0 <= j < i ==> upper_scalar(#[trigger] s@[j] as u32) == pattern@[j] as u32,
        decreases n - i,
    {
        let c = s.get_char(i);
        let d = pattern.get_char(i);
        let cu = c as u32;
        let folded = if 97 <= cu && cu <= 122 {
            cu - 32
        } else {
            cu
        };
        if folded != d as u32 {
            return false;
        }
        i += 1;
    }
    true
}

impl Alg {
    /// Selects a strategy by name; an unrecognized name is returned
    /// inside the error.
    pub fn from_str(s: &str) -> (r: Result<Alg, ParseAlgError>)
        ensures
            spec_alg_of(s@) matches Some(a) ==> r matches Ok(got) && got == a,
            spec_alg_of(s@) is None ==> (r matches Err(e) && e matches ParseAlgError::UnknownAlg(
                t,
            ) && t@ == s@),
    {
        if keyword_eq(s, "TRIALDIVISION") || keyword_eq(s, "TRIAL DIVISION") || keyword_eq(
            s,
            "TRIAL_DIVISION",
        ) {
            Ok(Alg::TrialDivision)
        } else if keyword_eq(s, "BRENTSRHO") || keyword_eq(s, "BRENTS RHO") || keyword_eq(
            s,
            "BRENTS_RHO",
        ) || keyword_eq(s, "BRENTS'S RHO") {
            Ok(Alg::BrentsRho)
        } else if keyword_eq(s, "FERMAT") || keyword_eq(s, "FERMATS") || keyword_eq(
            s,
            "FERMAT'S",
        ) {
            Ok(Alg::Fermat)
        } else {
            Err(ParseAlgError::UnknownAlg(s.to_owned()))
        }
    }

    /// The human-readable name of the strategy.
    pub fn name(&self) -> (r: &'static str)
        ensures
            self is TrialDivision ==> r@ == "trial division"@,
            self is BrentsRho ==> r@ == "Brent's Rho"@,
            self is Fermat ==> r@ == "Fermat"@,
    {
        match self {
            Alg::TrialDivision => "trial division",
            Alg::BrentsRho => "Brent's Rho",
            Alg::Fermat => "Fermat",
        }
    }
}

impl ParseAlgError {
    /// The human-readable description of the error.
    pub fn message(&self) -> (r: String)
        ensures
            self matches ParseAlgError::UnknownAlg(t) ==> r@ == "unknown algorithm '"@ + t@
                + "'"@,
    {
        match self {
            ParseAlgError::UnknownAlg(alg) => {
                let mut out = "unknown algorithm '".to_owned();
                out.append(alg.as_str());
                out.append("'");
                out
            },
        }
    }
}

} // verus!
