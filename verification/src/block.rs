//! Block-level values the VM execution is parameterized with, and the
//! overall execution result.

use vstd::prelude::*;
use crate::word::Word;

verus! {

/// A 160-bit account address.
#[derive(Clone, Debug, PartialEq, Eq)]
pub struct Address {
    pub bytes: Vec<u8>,
}

impl Address {
    /// Whether the address holds exactly 20 bytes.
    pub open spec fn wf(&self) -> bool {
        self.bytes@.len() == 20
    }

    /// The zero address.
    pub fn zero() -> (r: Address)
        ensures
            r.wf(),
            forall|i: int| 0 <= i < 20 ==> r.bytes@[i] == 0u8,
    {
        let mut bytes: Vec<u8> = Vec::new();
        let mut i: usize = 0;
        while i < 20
            invariant
                i <= 20,
                bytes@.len() == i,
                forall|k: int| 0 <= k < i ==> bytes@[k] == 0u8,
            decreases 20 - i,
        {
            bytes.push(0u8);
            i += 1;
        }
        Address { bytes }
    }
}

/// Result of one VM execution: the returned bytes on success, the revert
/// data on revert, a panic, or an execution that ran out of its budget at
/// the given address and function.
#[derive(Clone, Debug)]
pub enum VmExecutionResult {
    Success(Vec<u8>),
    Revert(Vec<u8>),
    Panic,
    MostLikelyDidNotFinish(Address, u16),
}

/// Properties of the block the VM executes in.
#[derive(Clone, Copy, Debug, PartialEq, Eq, Structural)]
pub struct BlockProperties {
    pub default_aa_code_hash: Word,
    pub zkporter_is_available: bool,
}

/// Context values the bootloader receives for one block.
#[derive(Clone, Debug, PartialEq, Eq)]
pub struct BlockContext {
    pub block_number: u32,
    pub block_timestamp: u64,
    pub l1_gas_price: u64,
    pub fair_l2_gas_price: u64,
    pub operator_address: Address,
}

/// Fixed block parameters for tests: block number 1, timestamp 1000, 50
/// gwei L1 gas price, 0.25 gwei fair L2 gas price, zero operator address.
/// The default account-abstraction code hash and the zk-porter flag come
/// from the system configuration and are passed in explicitly rather than
/// read from an ambient global.
pub fn create_test_block_params(default_aa_code_hash: Word, zkporter_is_available: bool) -> (r: (
    BlockContext,
    BlockProperties,
))
    ensures
        r.0.block_number == 1,
        r.0.block_timestamp == 1000,
        r.0.l1_gas_price == 50_000_000_000u64,
        r.0.fair_l2_gas_price == 250_000_000u64,
        r.0.operator_address.wf(),
        forall|i: int| 0 <= i < 20 ==> r.0.operator_address.bytes@[i] == 0u8,
        r.1 == (BlockProperties { default_aa_code_hash, zkporter_is_available }),
{
    let context = BlockContext {
        block_number: 1u32,
        block_timestamp: 1000,
        l1_gas_price: 50_000_000_000,  // 50 gwei
        fair_l2_gas_price: 250_000_000,  // 0.25 gwei
        operator_address: Address::zero(),
    };
    (context, BlockProperties { default_aa_code_hash, zkporter_is_available })
}

} // verus!
