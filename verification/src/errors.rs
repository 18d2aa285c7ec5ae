//! Error taxonomy of the AMM core.
use vstd::prelude::*;

verus! {

/// Every failure the curve math can report.
///
/// Arithmetic failures (`Overflow`, `Underflow`, `DivisionByZero`,
/// `ScalingOverflow`) come from checked operations: the solvers never wrap
/// silently. Domain failures describe inputs the operation rejects, and the
/// economic failures (`NegativeOrZeroSpread`, `NegativeSwap`,
/// `MathInconsistency`) mark proposed operations that the curve cannot honour.
#[derive(Clone, Copy, Debug, PartialEq, Eq, Structural)]
pub enum CurveError {
    Overflow,
    Underflow,
    DivisionByZero,
    ScalingOverflow,
    EmptyReserves,
    ZeroBalance,
    InvalidReserveLength,
    ZeroTotalSupply,
    BurnExceedsSupply,
    InvalidWithdrawMode,
    NegativeOrZeroSpread,
    NegativeSwap,
    MathInconsistency,
    BufferTooSmall,
}

/// Program-level errors raised by the instruction layer around the curve.
#[derive(Clone, Copy, Debug, PartialEq, Eq, Structural)]
pub enum MegaAmmProgramError {
    InvalidInstructionData,
    InvalidOwner,
    Unauthorized,
    InvalidAccountData,
    InvalidAddress,
    NotEnoughAccountKeys,
    InvalidSignature,
}

impl MegaAmmProgramError {
    /// The stable numeric code each variant is reported under.
    pub open spec fn code_spec(&self) -> u32 {
        match self {
            MegaAmmProgramError::InvalidInstructionData => 1u32,
            MegaAmmProgramError::InvalidOwner => 2u32,
            MegaAmmProgramError::Unauthorized => 3u32,
            MegaAmmProgramError::InvalidAccountData => 4u32,
            MegaAmmProgramError::InvalidAddress => 5u32,
            MegaAmmProgramError::NotEnoughAccountKeys => 6u32,
            MegaAmmProgramError::InvalidSignature => 7u32,
        }
    }

    /// Numeric code used when the error is surfaced to the runtime.
    pub fn code(&self) -> (c: u32)
        ensures
            c == self.code_spec(),
    {
        match self {
            MegaAmmProgramError::InvalidInstructionData => 1,
            MegaAmmProgramError::InvalidOwner => 2,
            MegaAmmProgramError::Unauthorized => 3,
            MegaAmmProgramError::InvalidAccountData => 4,
            MegaAmmProgramError::InvalidAddress => 5,
            MegaAmmProgramError::NotEnoughAccountKeys => 6,
            MegaAmmProgramError::InvalidSignature => 7,
        }
    }
}

} // verus!
