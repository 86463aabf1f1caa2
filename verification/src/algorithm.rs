use vstd::prelude::*;

verus! {

/// COSE algorithms the authenticator knows about.
#[derive(Debug, Clone, Copy, PartialEq, Eq, Structural)]
#[non_exhaustive]
pub enum Algorithm {
    Es256,
    EdDsa,
    Rs256,
}

/// The COSE identifier registered for each algorithm.
pub open spec fn spec_cose_id(a: Algorithm) -> int {
    match a {
        Algorithm::Es256 => -7,
        Algorithm::EdDsa => -8,
        Algorithm::Rs256 => -257,
    }
}

/// The algorithm registered under a COSE identifier, if it is one of ours.
pub open spec fn spec_from_cose_id(id: int) -> Option<Algorithm> {
    if id == -7 {
        Some(Algorithm::Es256)
    } else if id == -8 {
        Some(Algorithm::EdDsa)
    } else if id == -257 {
        Some(Algorithm::Rs256)
    } else {
        None
    }
}

impl Algorithm {
    pub fn cose_id(self) -> (id: i32)
        ensures
            id == spec_cose_id(self),
    {
        match self {
            Algorithm::Es256 => -7,
            Algorithm::EdDsa => -8,
            Algorithm::Rs256 => -257,
        }
    }

    pub fn from_cose_id(id: i32) -> (a: Option<Algorithm>)
        ensures
            a == spec_from_cose_id(id as int),
    {
        match id {
            -7 => Some(Algorithm::Es256),
            -8 => Some(Algorithm::EdDsa),
            -257 => Some(Algorithm::Rs256),
            _ => None,
        }
    }
}

/// Every algorithm is found again under its own COSE identifier, and an
/// identifier that names an algorithm is that algorithm's identifier.
pub proof fn law_cose_id_roundtrip(a: Algorithm, id: int)
    ensures
        spec_from_cose_id(spec_cose_id(a)) == Some(a),
        spec_from_cose_id(id) matches Some(b) ==> spec_cose_id(b) == id,
{
}

} // verus!
