//! The pool's persisted configuration record and its binary layout.
//!
//! On-chain the record is a fixed 108-byte account: `state` (1 byte),
//! `seed` (8, little-endian), `authority`, `mint_x` and `mint_y` (32
//! each), `fee` (2, little-endian) and `config_bump` (1). The reader and
//! writer here state that layout field by field, so a record round-trips
//! through bytes exactly.
use vstd::prelude::*;

use crate::errors::MegaAmmProgramError;
use crate::instruction_data::le16_at;
use crate::instruction_data::le64_at;
use crate::instruction_data::push_u16_le;
use crate::instruction_data::push_u64_le;
use crate::instruction_data::read_u16_le;
use crate::instruction_data::read_u64_le;

verus! {

/// Size in bytes of a serialized configuration record.
pub const CONFIG_LEN: usize = 108;

/// Lifecycle state of a pool.
#[derive(Clone, Copy, Debug, PartialEq, Eq, Structural)]
pub enum AmmState {
    Uninitialized,
    Initialized,
    Disabled,
    WithdrawOnly,
}

impl AmmState {
    /// The byte each state is stored as.
    pub open spec fn as_byte_spec(&self) -> u8 {
        match self {
            AmmState::Uninitialized => 0u8,
            AmmState::Initialized => 1u8,
            AmmState::Disabled => 2u8,
            AmmState::WithdrawOnly => 3u8,
        }
    }

    /// Byte representation of the state.
    pub fn as_byte(&self) -> (b: u8)
        ensures
            b == self.as_byte_spec(),
    {
        match self {
            AmmState::Uninitialized => 0,
            AmmState::Initialized => 1,
            AmmState::Disabled => 2,
            AmmState::WithdrawOnly => 3,
        }
    }
}

/// In-memory form of the pool configuration account.
#[derive(Debug, PartialEq)]
pub struct Config {
    pub state: u8,
    pub seed: u64,
    pub authority: Vec<u8>,
    pub mint_x: Vec<u8>,
    pub mint_y: Vec<u8>,
    pub fee: u16,
    pub config_bump: u8,
}

impl Config {
    /// The three address fields hold exactly 32 bytes each.
    pub open spec fn wf(&self) -> bool {
        &&& self.authority@.len() == 32
        &&& self.mint_x@.len() == 32
        &&& self.mint_y@.len() == 32
    }

    /// Decodes a configuration record from its fixed 108-byte layout.
    /// Any other length is rejected; ownership of the account the bytes
    /// came from is the caller's concern.
    pub fn load(bytes: &[u8]) -> (r: Result<Config, MegaAmmProgramError>)
        ensures
            r is Ok <==> bytes@.len() == CONFIG_LEN,
            r is Err ==> r->Err_0 == MegaAmmProgramError::InvalidAccountData,
            r is Ok ==> {
                let c = r->Ok_0;
                &&& c.wf()
                &&& c.state == bytes@[0]
                &&& c.seed == le64_at(bytes@, 1)
                &&& c.authority@ == bytes@.subrange(9, 41)
                &&& c.mint_x@ == bytes@.subrange(41, 73)
                &&& c.mint_y@ == bytes@.subrange(73, 105)
                &&& c.fee == le16_at(bytes@, 105)
                &&& c.config_bump == bytes@[107]
            },
    {
        if bytes.len() != CONFIG_LEN {
            return Err(MegaAmmProgramError::InvalidAccountData);
        }
        let state: u8 = bytes[0];
        let seed: u64 = read_u64_le(bytes, 1);
        let authority: Vec<u8> = vstd::slice::slice_to_vec(
            vstd::slice::slice_subrange(bytes, 9, 41),
        );
        let mint_x: Vec<u8> = vstd::slice::slice_to_vec(
            vstd::slice::slice_subrange(bytes, 41, 73),
        );
        let mint_y: Vec<u8> = vstd::slice::slice_to_vec(
            vstd::slice::slice_subrange(bytes, 73, 105),
        );
        let fee: u16 = read_u16_le(bytes, 105);
        let config_bump: u8 = bytes[107];
        Ok(Config { state, seed, authority, mint_x, mint_y, fee, config_bump })
    }

    /// Serializes the record back into its fixed 108-byte layout:
    /// `load` of the result recovers every field.
    pub fn to_bytes(&self) -> (out: Vec<u8>)
        requires
            self.wf(),
        ensures
            out@.len() == CONFIG_LEN,
            out@[0] == self.state,
            le64_at(out@, 1) == self.seed,
            out@.subrange(9, 41) == self.authority@,
            out@.subrange(41, 73) == self.mint_x@,
            out@.subrange(73, 105) == self.mint_y@,
            le16_at(out@, 105) == self.fee,
            out@[107] == self.config_bump,
    {
        let mut out: Vec<u8> = Vec::new();
        out.push(self.state);
        push_u64_le(&mut out, self.seed);
        let mut i: usize = 0;
        while i < 32
            invariant
                i <= 32,
                self.wf(),
                out@.len() == 9 + i,
                out@[0] == self.state,
                le64_at(out@, 1) == self.seed,
                forall|k: int| 0 <= k < i ==> out@[9 + k] == self.authority@[k],
            decreases 32 - i,
        {
            out.push(self.authority[i]);
            i = i + 1;
        }
        let mut i: usize = 0;
        while i < 32
            invariant
                i <= 32,
                self.wf(),
                out@.len() == 41 + i,
                out@[0] == self.state,
                le64_at(out@, 1) == self.seed,
                forall|k: int| 0 <= k < 32 ==> out@[9 + k] == self.authority@[k],
                forall|k: int| 0 <= k < i ==> out@[41 + k] == self.mint_x@[k],
            decreases 32 - i,
        {
            out.push(self.mint_x[i]);
            i = i + 1;
        }
        let mut i: usize = 0;
        while i < 32
            invariant
                i <= 32,
                self.wf(),
                out@.len() == 73 + i,
                out@[0] == self.state,
                le64_at(out@, 1) == self.seed,
                forall|k: int| 0 <= k < 32 ==> out@[9 + k] == self.authority@[k],
                forall|k: int| 0 <= k < 32 ==> out@[41 + k] == self.mint_x@[k],
                forall|k: int| 0 <= k < i ==> out@[73 + k] == self.mint_y@[k],
            decreases 32 - i,
        {
            out.push(self.mint_y[i]);
            i = i + 1;
        }
        push_u16_le(&mut out, self.fee);
        out.push(self.config_bump);
        proof {
            assert(out@.subrange(9, 41) =~= self.authority@);
            assert(out@.subrange(41, 73) =~= self.mint_x@);
            assert(out@.subrange(73, 105) =~= self.mint_y@);
        }
        out
    }

    /// Current lifecycle state byte.
    pub fn state(&self) -> (s: u8)
        ensures
            s == self.state,
    {
        self.state
    }

    /// Seed the pool's addresses are derived from.
    pub fn seed(&self) -> (s: u64)
        ensures
            s == self.seed,
    {
        self.seed
    }

    /// Administrative authority address bytes.
    pub fn authority(&self) -> (a: &Vec<u8>)
        ensures
            a@ == self.authority@,
    {
        &self.authority
    }

    /// Mint address bytes of token X.
    pub fn mint_x(&self) -> (m: &Vec<u8>)
        ensures
            m@ == self.mint_x@,
    {
        &self.mint_x
    }

    /// Mint address bytes of token Y.
    pub fn mint_y(&self) -> (m: &Vec<u8>)
        ensures
            m@ == self.mint_y@,
    {
        &self.mint_y
    }

    /// Swap fee in basis points.
    pub fn fee(&self) -> (f: u16)
        ensures
            f == self.fee,
    {
        self.fee
    }

    /// Bump seed of the configuration account's derived address.
    pub fn config_bump(&self) -> (b: u8)
        ensures
            b == self.config_bump,
    {
        self.config_bump
    }

    /// Sets the lifecycle state. The withdraw-only state cannot be
    /// entered through this setter.
    pub fn set_state(&mut self, state: u8) -> (r: Result<(), MegaAmmProgramError>)
        ensures
            (state == AmmState::WithdrawOnly.as_byte_spec()) <==> r is Err,
            r is Err ==> r->Err_0 == MegaAmmProgramError::InvalidAccountData,
            r is Ok ==> *final(self) == (Config { state, ..*old(self) }),
            r is Err ==> *final(self) == *old(self),
    {
        if state == 3 {
            return Err(MegaAmmProgramError::InvalidAccountData);
        }
        self.state = state;
        Ok(())
    }

    /// Sets the swap fee; a full 100% (10000 basis points) or more is
    /// rejected.
    pub fn set_fee(&mut self, fee: u16) -> (r: Result<(), MegaAmmProgramError>)
        ensures
            (fee >= 10000) <==> r is Err,
            r is Err ==> r->Err_0 == MegaAmmProgramError::InvalidAccountData,
            r is Ok ==> *final(self) == (Config { fee, ..*old(self) }),
            r is Err ==> *final(self) == *old(self),
    {
        if fee >= 10000 {
            return Err(MegaAmmProgramError::InvalidAccountData);
        }
        self.fee = fee;
        Ok(())
    }

    /// Sets the derivation seed.
    pub fn set_seed(&mut self, seed: u64) -> (r: Result<(), MegaAmmProgramError>)
        ensures
            r is Ok,
            *final(self) == (Config { seed, ..*old(self) }),
    {
        self.seed = seed;
        Ok(())
    }

    /// Sets the administrative authority address.
    pub fn set_authority(&mut self, authority: &[u8]) -> (r: Result<(), MegaAmmProgramError>)
        requires
            authority@.len() == 32,
        ensures
            r is Ok,
            final(self).authority@ == authority@,
            final(self).state == old(self).state,
            final(self).seed == old(self).seed,
            final(self).mint_x@ == old(self).mint_x@,
            final(self).mint_y@ == old(self).mint_y@,
            final(self).fee == old(self).fee,
            final(self).config_bump == old(self).config_bump,
    {
        self.authority = vstd::slice::slice_to_vec(authority);
        Ok(())
    }

    /// Sets the mint address of token X.
    pub fn set_mint_x(&mut self, mint_x: &[u8]) -> (r: Result<(), MegaAmmProgramError>)
        requires
            mint_x@.len() == 32,
        ensures
            r is Ok,
            final(self).mint_x@ == mint_x@,
            final(self).state == old(self).state,
            final(self).seed == old(self).seed,
            final(self).authority@ == old(self).authority@,
            final(self).mint_y@ == old(self).mint_y@,
            final(self).fee == old(self).fee,
            final(self).config_bump == old(self).config_bump,
    {
        self.mint_x = vstd::slice::slice_to_vec(mint_x);
        Ok(())
    }

    /// Sets the mint address of token Y.
    pub fn set_mint_y(&mut self, mint_y: &[u8]) -> (r: Result<(), MegaAmmProgramError>)
        requires
            mint_y@.len() == 32,
        ensures
            r is Ok,
            final(self).mint_y@ == mint_y@,
            final(self).state == old(self).state,
            final(self).seed == old(self).seed,
            final(self).authority@ == old(self).authority@,
            final(self).mint_x@ == old(self).mint_x@,
            final(self).fee == old(self).fee,
            final(self).config_bump == old(self).config_bump,
    {
        self.mint_y = vstd::slice::slice_to_vec(mint_y);
        Ok(())
    }

    /// Sets the configuration account's bump seed.
    pub fn set_config_bump(&mut self, config_bump: u8) -> (r: Result<(), MegaAmmProgramError>)
        ensures
            r is Ok,
            *final(self) == (Config { config_bump, ..*old(self) }),
    {
        self.config_bump = config_bump;
        Ok(())
    }

    /// Fills in every field of a freshly initialized pool. The state
    /// becomes `Initialized`; a fee of 100% or more is rejected (the
    /// earlier fields are already written then, as the caller discards
    /// the record on failure).
    pub fn set_inner(
        &mut self,
        seed: u64,
        authority: &[u8],
        mint_x: &[u8],
        mint_y: &[u8],
        fee: u16,
        config_bump: u8,
    ) -> (r: Result<(), MegaAmmProgramError>)
        requires
            authority@.len() == 32,
            mint_x@.len() == 32,
            mint_y@.len() == 32,
        ensures
            (fee >= 10000) <==> r is Err,
            r is Err ==> r->Err_0 == MegaAmmProgramError::InvalidAccountData,
            r is Ok ==> {
                let c = *final(self);
                &&& c.state == AmmState::Initialized.as_byte_spec()
                &&& c.seed == seed
                &&& c.authority@ == authority@
                &&& c.mint_x@ == mint_x@
                &&& c.mint_y@ == mint_y@
                &&& c.fee == fee
                &&& c.config_bump == config_bump
                &&& c.wf()
            },
    {
        proof {
            assert(AmmState::WithdrawOnly.as_byte_spec() == 3);
        }
        let r = self.set_state(1);
        match r {
            Ok(_) => (),
            Err(e) => {
                return Err(e);
            },
        }
        let _ = self.set_seed(seed);
        let _ = self.set_authority(authority);
        let _ = self.set_mint_x(mint_x);
        let _ = self.set_mint_y(mint_y);
        let r = self.set_fee(fee);
        match r {
            Ok(_) => (),
            Err(e) => {
                return Err(e);
            },
        }
        let _ = self.set_config_bump(config_bump);
        Ok(())
    }

    /// The authority, if one was set: a pool whose authority bytes are
    /// all zero has none.
    pub fn has_authority(&self) -> (r: Option<Vec<u8>>)
        requires
            self.wf(),
        ensures
            r is Some <==> (exists|k: int|
                0 <= k < self.authority@.len() && self.authority@[k] != 0),
            r is Some ==> r->0@ == self.authority@,
    {
        let mut i: usize = 0;
        let mut any: bool = false;
        while i < self.authority.len()
            invariant
                i <= self.authority@.len(),
                self.wf(),
                any <==> (exists|k: int| 0 <= k < i && self.authority@[k] != 0),
            decreases self.authority@.len() - i,
        {
            if self.authority[i] != 0 {
                any = true;
            }
            i = i + 1;
        }
        if any {
            Some(vstd::slice::slice_to_vec(self.authority.as_slice()))
        } else {
            None
        }
    }
}

} // verus!
