//! Fixed-offset, bounds-checked decoding of the instruction payloads.
//!
//! Every payload is a little-endian byte layout; the readers here state
//! the decoded value of each field directly over the input bytes, so the
//! wire format is part of the contract.
use vstd::prelude::*;

use crate::errors::MegaAmmProgramError;

verus! {

/// Little-endian `u16` stored at byte offset `off`.
pub open spec fn le16_at(data: Seq<u8>, off: int) -> int {
    data[off] + 0x100 * data[off + 1]
}

/// Little-endian `u64` stored at byte offset `off`.
pub open spec fn le64_at(data: Seq<u8>, off: int) -> int {
    data[off] + 0x100 * data[off + 1] + 0x1_0000 * data[off + 2] + 0x100_0000 * data[off + 3]
        + 0x1_0000_0000 * data[off + 4] + 0x100_0000_0000 * data[off + 5] + 0x1_0000_0000_0000
        * data[off + 6] + 0x100_0000_0000_0000 * data[off + 7]
}

/// The signed value carried by 64 little-endian bits (two's complement).
pub open spec fn signed64(v: int) -> int {
    if v <= i64::MAX {
        v
    } else {
        v - 0x1_0000_0000_0000_0000
    }
}

/// Reads the little-endian `u64` at offset `off`.
pub fn read_u64_le(data: &[u8], off: usize) -> (v: u64)
    requires
        off + 8 <= data@.len(),
    ensures
        v == le64_at(data@, off as int),
{
    (data[off] as u64) + 0x100u64 * (data[off + 1] as u64) + 0x1_0000u64 * (data[off + 2] as u64)
        + 0x100_0000u64 * (data[off + 3] as u64) + 0x1_0000_0000u64 * (data[off + 4] as u64)
        + 0x100_0000_0000u64 * (data[off + 5] as u64) + 0x1_0000_0000_0000u64 * (data[off
        + 6] as u64) + 0x100_0000_0000_0000u64 * (data[off + 7] as u64)
}

/// Reads the little-endian `u16` at offset `off`.
pub fn read_u16_le(data: &[u8], off: usize) -> (v: u16)
    requires
        off + 2 <= data@.len(),
    ensures
        v == le16_at(data@, off as int),
{
    (data[off] as u16) + 0x100u16 * (data[off + 1] as u16)
}

/// Appends `v` as 8 little-endian bytes.
pub fn push_u64_le(out: &mut Vec<u8>, v: u64)
    ensures
        final(out)@.len() == old(out)@.len() + 8,
        forall|k: int| 0 <= k < old(out)@.len() ==> final(out)@[k] == old(out)@[k],
        le64_at(final(out)@, old(out)@.len() as int) == v,
{
    let b0: u8 = (v % 0x100) as u8;
    let v1: u64 = v / 0x100;
    let b1: u8 = (v1 % 0x100) as u8;
    let v2: u64 = v1 / 0x100;
    let b2: u8 = (v2 % 0x100) as u8;
    let v3: u64 = v2 / 0x100;
    let b3: u8 = (v3 % 0x100) as u8;
    let v4: u64 = v3 / 0x100;
    let b4: u8 = (v4 % 0x100) as u8;
    let v5: u64 = v4 / 0x100;
    let b5: u8 = (v5 % 0x100) as u8;
    let v6: u64 = v5 / 0x100;
    let b6: u8 = (v6 % 0x100) as u8;
    let v7: u64 = v6 / 0x100;
    let b7: u8 = v7 as u8;
    out.push(b0);
    out.push(b1);
    out.push(b2);
    out.push(b3);
    out.push(b4);
    out.push(b5);
    out.push(b6);
    out.push(b7);
}

/// Appends `v` as 2 little-endian bytes.
pub fn push_u16_le(out: &mut Vec<u8>, v: u16)
    ensures
        final(out)@.len() == old(out)@.len() + 2,
        forall|k: int| 0 <= k < old(out)@.len() ==> final(out)@[k] == old(out)@[k],
        le16_at(final(out)@, old(out)@.len() as int) == v,
{
    let b0: u8 = (v % 0x100) as u8;
    let b1: u8 = (v / 0x100) as u8;
    out.push(b0);
    out.push(b1);
}

/// Reinterprets 64 little-endian bits as the signed value they encode.
pub fn i64_from_le_bits(v: u64) -> (r: i64)
    ensures
        r == signed64(v as int),
{
    if v <= i64::MAX as u64 {
        v as i64
    } else {
        let m: u64 = u64::MAX - v;
        -(m as i64) - 1
    }
}

/// Payload of a deposit instruction: the LP amount to mint and the
/// slippage bounds the caller grants for each deposited token.
#[derive(Debug, PartialEq)]
pub struct DepositInstructionData {
    pub amount: u64,
    pub max_x: u64,
    pub max_y: u64,
    pub expiration: i64,
}

impl DepositInstructionData {
    /// Decodes the 32-byte deposit payload: `amount`, `max_x`, `max_y`
    /// and `expiration`, each 8 bytes little-endian. A wrong length or a
    /// zero amount or bound is rejected.
    pub fn try_from(data: &[u8]) -> (r: Result<DepositInstructionData, MegaAmmProgramError>)
        ensures
            r is Err ==> r->Err_0 == MegaAmmProgramError::InvalidInstructionData,
            r is Ok <==> (data@.len() == 32 && le64_at(data@, 0) != 0 && le64_at(data@, 8) != 0
                && le64_at(data@, 16) != 0),
            r is Ok ==> r->Ok_0.amount == le64_at(data@, 0) && r->Ok_0.max_x == le64_at(data@, 8)
                && r->Ok_0.max_y == le64_at(data@, 16) && r->Ok_0.expiration == signed64(
                le64_at(data@, 24),
            ),
    {
        if data.len() != 32 {
            return Err(MegaAmmProgramError::InvalidInstructionData);
        }
        let amount: u64 = read_u64_le(data, 0);
        let max_x: u64 = read_u64_le(data, 8);
        let max_y: u64 = read_u64_le(data, 16);
        let expiration: i64 = i64_from_le_bits(read_u64_le(data, 24));

        if amount == 0 {
            return Err(MegaAmmProgramError::InvalidInstructionData);
        }
        if max_x == 0 || max_y == 0 {
            return Err(MegaAmmProgramError::InvalidInstructionData);
        }
        Ok(DepositInstructionData { amount, max_x, max_y, expiration })
    }
}

/// Payload of a withdraw instruction: the LP amount to burn and the
/// least amount of each token the caller will accept.
#[derive(Debug, PartialEq)]
pub struct WithdrawInstructionData {
    pub amount: u64,
    pub min_x: u64,
    pub min_y: u64,
    pub expiration: i64,
}

impl WithdrawInstructionData {
    /// Decodes the 32-byte withdraw payload: `amount`, `min_x`, `min_y`
    /// and `expiration`, each 8 bytes little-endian. A wrong length or a
    /// zero amount or bound is rejected.
    pub fn try_from(data: &[u8]) -> (r: Result<WithdrawInstructionData, MegaAmmProgramError>)
        ensures
            r is Err ==> r->Err_0 == MegaAmmProgramError::InvalidInstructionData,
            r is Ok <==> (data@.len() == 32 && le64_at(data@, 0) != 0 && le64_at(data@, 8) != 0
                && le64_at(data@, 16) != 0),
            r is Ok ==> r->Ok_0.amount == le64_at(data@, 0) && r->Ok_0.min_x == le64_at(data@, 8)
                && r->Ok_0.min_y == le64_at(data@, 16) && r->Ok_0.expiration == signed64(
                le64_at(data@, 24),
            ),
    {
        if data.len() != 32 {
            return Err(MegaAmmProgramError::InvalidInstructionData);
        }
        let amount: u64 = read_u64_le(data, 0);
        let min_x: u64 = read_u64_le(data, 8);
        let min_y: u64 = read_u64_le(data, 16);
        let expiration: i64 = i64_from_le_bits(read_u64_le(data, 24));

        if amount == 0 {
            return Err(MegaAmmProgramError::InvalidInstructionData);
        }
        if min_x == 0 || min_y == 0 {
            return Err(MegaAmmProgramError::InvalidInstructionData);
        }
        Ok(WithdrawInstructionData { amount, min_x, min_y, expiration })
    }
}

/// Payload of a swap instruction: the amount handed in, the least
/// output accepted, and which side (`is_x`) goes into the pool.
#[derive(Debug, PartialEq)]
pub struct SwapInstructionData {
    pub amount: u64,
    pub min: u64,
    pub expiration: i64,
    pub is_x: u8,
}

impl SwapInstructionData {
    /// Decodes the 25-byte swap payload: `amount`, `min` and
    /// `expiration`, each 8 bytes little-endian, then the `is_x` flag
    /// byte. A wrong length or a zero amount or minimum is rejected.
    pub fn try_from(data: &[u8]) -> (r: Result<SwapInstructionData, MegaAmmProgramError>)
        ensures
            r is Err ==> r->Err_0 == MegaAmmProgramError::InvalidInstructionData,
            r is Ok <==> (data@.len() == 25 && le64_at(data@, 0) != 0 && le64_at(data@, 8) != 0),
            r is Ok ==> r->Ok_0.amount == le64_at(data@, 0) && r->Ok_0.min == le64_at(data@, 8)
                && r->Ok_0.expiration == signed64(le64_at(data@, 16)) && r->Ok_0.is_x == data@[24],
    {
        if data.len() != 25 {
            return Err(MegaAmmProgramError::InvalidInstructionData);
        }
        let amount: u64 = read_u64_le(data, 0);
        let min: u64 = read_u64_le(data, 8);
        let expiration: i64 = i64_from_le_bits(read_u64_le(data, 16));
        let is_x: u8 = data[24];

        if amount == 0 || min == 0 {
            return Err(MegaAmmProgramError::InvalidInstructionData);
        }
        Ok(SwapInstructionData { amount, min, expiration, is_x })
    }
}

/// Payload of an initialize instruction: everything a new pool's
/// configuration needs. The trailing 32-byte authority is optional on
/// the wire; when absent the pool has no administrative authority and
/// the field decodes to all zeroes.
#[derive(Debug, PartialEq)]
pub struct InitializeInstructionData {
    pub seed: u64,
    pub fee: u16,
    pub mint_x: Vec<u8>,
    pub mint_y: Vec<u8>,
    pub config_bump: u8,
    pub lp_mint_decimals: u8,
    pub lp_bump: u8,
    pub authority: Vec<u8>,
}

impl InitializeInstructionData {
    /// Decodes the initialize payload from its packed little-endian
    /// layout: `seed` (8 bytes), `fee` (2), the two mint addresses (32
    /// each), `config_bump`, `lp_mint_decimals` and `lp_bump` (1 each),
    /// followed by the optional 32-byte authority — 109 bytes with it,
    /// 77 without. Any other length is rejected.
    pub fn try_from(data: &[u8]) -> (r: Result<InitializeInstructionData, MegaAmmProgramError>)
        ensures
            r is Err ==> r->Err_0 == MegaAmmProgramError::InvalidAccountData,
            r is Ok <==> (data@.len() == 109 || data@.len() == 77),
            r is Ok ==> {
                let v = r->Ok_0;
                &&& v.seed == le64_at(data@, 0)
                &&& v.fee == le16_at(data@, 8)
                &&& v.mint_x@ == data@.subrange(10, 42)
                &&& v.mint_y@ == data@.subrange(42, 74)
                &&& v.config_bump == data@[74]
                &&& v.lp_mint_decimals == data@[75]
                &&& v.lp_bump == data@[76]
                &&& v.authority@.len() == 32
                &&& (data@.len() == 109 ==> v.authority@ == data@.subrange(77, 109))
                &&& (data@.len() == 77 ==> v.authority@ =~= Seq::new(32nat, |i: int| 0u8))
            },
    {
        let with_authority: bool = data.len() == 109;
        if !with_authority && data.len() != 77 {
            return Err(MegaAmmProgramError::InvalidAccountData);
        }
        let seed: u64 = read_u64_le(data, 0);
        let fee: u16 = read_u16_le(data, 8);
        let mint_x: Vec<u8> = vstd::slice::slice_to_vec(vstd::slice::slice_subrange(data, 10, 42));
        let mint_y: Vec<u8> = vstd::slice::slice_to_vec(vstd::slice::slice_subrange(data, 42, 74));
        let config_bump: u8 = data[74];
        let lp_mint_decimals: u8 = data[75];
        let lp_bump: u8 = data[76];
        let authority: Vec<u8> = if with_authority {
            vstd::slice::slice_to_vec(vstd::slice::slice_subrange(data, 77, 109))
        } else {
            let mut zeroes: Vec<u8> = Vec::new();
            let mut i: usize = 0;
            while i < 32
                invariant
                    i <= 32,
                    zeroes@.len() == i,
                    forall|k: int| 0 <= k < i ==> zeroes@[k] == 0u8,
                decreases 32 - i,
            {
                zeroes.push(0);
                i = i + 1;
            }
            zeroes
        };
        Ok(
            InitializeInstructionData {
                seed,
                fee,
                mint_x,
                mint_y,
                config_bump,
                lp_mint_decimals,
                lp_bump,
                authority,
            },
        )
    }
}

} // verus!
