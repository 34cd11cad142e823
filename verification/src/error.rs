//! Errors of a proving session.

use vstd::prelude::*;

verus! {

/// The hash family whose block transform a session chains.
#[derive(Clone, Copy, Debug, PartialEq, Eq, Structural)]
pub enum Algorithm {
    Sha256,
    Keccak,
}

impl Algorithm {
    /// Number of input registers in one block.
    pub open spec fn spec_block_size(self) -> nat {
        match self {
            Algorithm::Sha256 => 16,
            Algorithm::Keccak => 25,
        }
    }

    /// Number of registers in the hash state.
    pub open spec fn spec_state_size(self) -> nat {
        match self {
            Algorithm::Sha256 => 8,
            Algorithm::Keccak => 25,
        }
    }

    pub fn block_size(self) -> (n: usize)
        ensures
            n == self.spec_block_size(),
    {
        match self {
            Algorithm::Sha256 => 16,
            Algorithm::Keccak => 25,
        }
    }

    pub fn state_size(self) -> (n: usize)
        ensures
            n == self.spec_state_size(),
    {
        match self {
            Algorithm::Sha256 => 8,
            Algorithm::Keccak => 25,
        }
    }
}

/// Why a session failed. Every failure is terminal for its session.
#[derive(Clone, Copy, Debug, PartialEq, Eq, Structural)]
pub enum SessionError {
    /// The input has the wrong number of elements or is not well encoded.
    InputShape,
    /// The register bank rejected a registration.
    RegisterAllocation,
    /// A primitive transform was rejected while chaining the given block.
    BlockTransform { block_index: usize, algorithm: Algorithm },
    /// A register was read that holds no value.
    Readback,
    /// The register bank could not be made into a constraint system.
    ConstraintSystem,
    /// The backend produced no proof.
    ProofGeneration,
    /// The backend rejected the proof.
    Verification,
}

} // verus!
