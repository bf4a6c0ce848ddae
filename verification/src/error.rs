//! The ways in which proving and verifying fail.

use vstd::prelude::*;

verus! {

/// A failure of the prover or of the verifier.
#[derive(Debug, Clone, Copy, PartialEq, Eq)]
pub enum ProofError {
    WitnessCsInconsistent,
    PolyDivision,
    PolyCommit,
    PolyExponentiate,
    ProofCreation,
    ProofVerification,
    OpenProof,
    SumCheck,
    ConstraintInconsist,
    EvaluationGroup,
    OracleCommit,
    RuntimeEnv,
    /// The size asked of an evaluation domain has no root of unity.
    DomainCreation,
}

} // verus!
