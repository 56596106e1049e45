//! Gas accounting for transactions, blocks and validity predicates.
//!
//! A [`BlockGasMeter`] adds up the charges of the transaction that is being
//! applied and, once the transaction is finalized, of the block. A
//! [`VpGasMeter`] belongs to one validity predicate and starts from the gas
//! that the transaction had used when the predicates were dispatched.

use vstd::prelude::*;

verus! {

/// Gas charged for every byte of a submitted transaction.
pub const BASE_TX_FEE_PER_BYTE: u64 = 2;

/// Gas charged for every byte of code that has to be compiled.
pub const COMPILE_FEE_PER_BYTE: u64 = 1;

/// Predicates that ran beside the most expensive one pay one part in this many.
pub const PARALLEL_GAS_DIVISOR: u64 = 10;

/// The most gas a single transaction may use.
pub const TRANSACTION_GAS_LIMIT: u64 = 10_000_000_000;

/// The most gas all transactions of a block may use together.
pub const BLOCK_GAS_LIMIT: u64 = 10_000_000_000_000;

/// Why a charge was refused.
#[derive(Clone, Copy, Debug, PartialEq, Eq, Structural)]
pub enum GasError {
    /// The sum does not fit in 64 bits.
    GasOverflow,
    /// The transaction went over its limit.
    TransactionGasExceeded,
    /// The block went over its limit.
    BlockGasExceeded,
}

impl GasError {
    /// The error in words.
    pub open spec fn text(self) -> Seq<char> {
        match self {
            GasError::GasOverflow => "Overflow during gas operations"@,
            GasError::TransactionGasExceeded => "Transaction gas limit exceeded"@,
            GasError::BlockGasExceeded => "Block gas limit exceeded"@,
        }
    }

    /// The error in words.
    pub fn to_string(&self) -> (text: String)
        ensures
            text@ == self.text(),
    {
        match self {
            GasError::GasOverflow => String::from_str("Overflow during gas operations"),
            GasError::TransactionGasExceeded => String::from_str("Transaction gas limit exceeded"),
            GasError::BlockGasExceeded => String::from_str("Block gas limit exceeded"),
        }
    }
}

/// The sum of a sequence of gas costs.
pub open spec fn sum_gas(costs: Seq<u64>) -> int
    decreases costs.len(),
{
    if costs.len() == 0 {
        0
    } else {
        sum_gas(costs.drop_last()) + costs.last()
    }
}

/// The fee for predicates that ran in parallel: their total cost divided by
/// [`PARALLEL_GAS_DIVISOR`], rounded up.
pub open spec fn parallel_fee(costs: Seq<u64>) -> int {
    (sum_gas(costs) + PARALLEL_GAS_DIVISOR - 1) / (PARALLEL_GAS_DIVISOR as int)
}

/// The sum of a prefix never exceeds the sum of the whole.
pub proof fn lemma_sum_gas_prefix(costs: Seq<u64>, n: int)
    requires
        0 <= n <= costs.len(),
    ensures
        0 <= sum_gas(costs.take(n)) <= sum_gas(costs),
    decreases costs.len() - n,
{
    if n == costs.len() {
        assert(costs.take(n) =~= costs);
        lemma_sum_gas_nonnegative(costs);
    } else {
        lemma_sum_gas_prefix(costs, n + 1);
        assert(costs.take(n + 1).drop_last() =~= costs.take(n));
        lemma_sum_gas_nonnegative(costs.take(n));
    }
}

/// A sum of costs is never negative.
pub proof fn lemma_sum_gas_nonnegative(costs: Seq<u64>)
    ensures
        0 <= sum_gas(costs),
    decreases costs.len(),
{
    if costs.len() > 0 {
        lemma_sum_gas_nonnegative(costs.drop_last());
    }
}

/// Gas meter of the block that is being built and of the transaction that is
/// being applied in it.
#[derive(Clone, Copy, Debug, PartialEq, Eq, Structural)]
pub struct BlockGasMeter {
    /// Gas used by the finalized transactions of the block.
    pub block_gas: u64,
    /// Gas used so far by the current transaction.
    pub transaction_gas: u64,
    /// The most gas the current transaction may use.
    pub transaction_gas_limit: u64,
    /// The most gas the block may use.
    pub block_gas_limit: u64,
}

impl BlockGasMeter {
    /// The meter after a charge of `gas` to the current transaction. A charge
    /// that overflows leaves the meter as it was; one that only exceeds the
    /// limit is still recorded.
    pub open spec fn after_add(self, gas: int) -> BlockGasMeter {
        if self.transaction_gas + gas > u64::MAX {
            self
        } else {
            BlockGasMeter { transaction_gas: (self.transaction_gas + gas) as u64, ..self }
        }
    }

    /// Whether a charge of `gas` to the current transaction is accepted.
    pub open spec fn add_result(self, gas: int) -> Result<(), GasError> {
        if self.transaction_gas + gas > u64::MAX {
            Err(GasError::GasOverflow)
        } else if self.transaction_gas + gas > self.transaction_gas_limit {
            Err(GasError::TransactionGasExceeded)
        } else {
            Ok(())
        }
    }

    /// The meter after a charge of `amount`, which may be more than fits in 64
    /// bits: such a charge leaves the meter as it was.
    pub open spec fn charged(self, amount: int) -> BlockGasMeter {
        if amount > u64::MAX {
            self
        } else {
            self.after_add(amount)
        }
    }

    /// Why a charge of `amount` is refused, if it is.
    pub open spec fn charge_error(self, amount: int) -> Option<GasError> {
        if amount > u64::MAX {
            Some(GasError::GasOverflow)
        } else {
            match self.add_result(amount) {
                Ok(_) => None,
                Err(e) => Some(e),
            }
        }
    }

    /// The meter after the current transaction has been finalized.
    pub open spec fn after_finalize(self) -> BlockGasMeter {
        if self.block_gas + self.transaction_gas > u64::MAX {
            self
        } else if self.block_gas + self.transaction_gas > self.block_gas_limit {
            BlockGasMeter { block_gas: (self.block_gas + self.transaction_gas) as u64, ..self }
        } else {
            BlockGasMeter {
                block_gas: (self.block_gas + self.transaction_gas) as u64,
                transaction_gas: 0,
                ..self
            }
        }
    }

    /// What finalizing the current transaction returns.
    pub open spec fn finalize_result(self) -> Result<u64, GasError> {
        if self.block_gas + self.transaction_gas > u64::MAX {
            Err(GasError::GasOverflow)
        } else if self.block_gas + self.transaction_gas > self.block_gas_limit {
            Err(GasError::BlockGasExceeded)
        } else {
            Ok(self.transaction_gas)
        }
    }

    /// The meter with nothing used and the default limits.
    pub open spec fn default_spec() -> BlockGasMeter {
        BlockGasMeter {
            block_gas: 0,
            transaction_gas: 0,
            transaction_gas_limit: TRANSACTION_GAS_LIMIT,
            block_gas_limit: BLOCK_GAS_LIMIT,
        }
    }

    /// A meter with nothing used and the given limits.
    pub fn with_limits(transaction_gas_limit: u64, block_gas_limit: u64) -> (meter: BlockGasMeter)
        ensures
            meter == (BlockGasMeter {
                block_gas: 0,
                transaction_gas: 0,
                transaction_gas_limit,
                block_gas_limit,
            }),
    {
        BlockGasMeter { block_gas: 0, transaction_gas: 0, transaction_gas_limit, block_gas_limit }
    }

    /// Charge `gas` to the current transaction.
    pub fn add(&mut self, gas: u64) -> (result: Result<(), GasError>)
        ensures
            *final(self) == old(self).after_add(gas as int),
            result == old(self).add_result(gas as int),
    {
        match self.transaction_gas.checked_add(gas) {
            None => Err(GasError::GasOverflow),
            Some(total) => {
                self.transaction_gas = total;
                if total > self.transaction_gas_limit {
                    Err(GasError::TransactionGasExceeded)
                } else {
                    Ok(())
                }
            },
        }
    }

    /// Charge the base fee of a transaction of `bytes_len` bytes:
    /// [`BASE_TX_FEE_PER_BYTE`] for each byte.
    pub fn add_base_transaction_fee(&mut self, bytes_len: usize) -> (result: Result<(), GasError>)
        ensures
            bytes_len * BASE_TX_FEE_PER_BYTE > u64::MAX ==> *final(self) == *old(self) && result
                == Err::<(), GasError>(GasError::GasOverflow),
            bytes_len * BASE_TX_FEE_PER_BYTE <= u64::MAX ==> *final(self) == old(self).after_add(
                bytes_len * BASE_TX_FEE_PER_BYTE,
            ) && result == old(self).add_result(bytes_len * BASE_TX_FEE_PER_BYTE),
            *final(self) == old(self).charged(bytes_len * BASE_TX_FEE_PER_BYTE),
            result.is_ok() <==> old(self).charge_error(bytes_len * BASE_TX_FEE_PER_BYTE).is_none(),
            result matches Err(e) ==> old(self).charge_error(bytes_len * BASE_TX_FEE_PER_BYTE) == Some(e),
    {
        match (bytes_len as u64).checked_mul(BASE_TX_FEE_PER_BYTE) {
            None => Err(GasError::GasOverflow),
            Some(fee) => self.add(fee),
        }
    }

    /// Charge the fee for compiling `bytes_len` bytes of code:
    /// [`COMPILE_FEE_PER_BYTE`] for each byte.
    pub fn add_compiling_fee(&mut self, bytes_len: usize) -> (result: Result<(), GasError>)
        ensures
            bytes_len * COMPILE_FEE_PER_BYTE > u64::MAX ==> *final(self) == *old(self) && result
                == Err::<(), GasError>(GasError::GasOverflow),
            bytes_len * COMPILE_FEE_PER_BYTE <= u64::MAX ==> *final(self) == old(self).after_add(
                bytes_len * COMPILE_FEE_PER_BYTE,
            ) && result == old(self).add_result(bytes_len * COMPILE_FEE_PER_BYTE),
            *final(self) == old(self).charged(bytes_len * COMPILE_FEE_PER_BYTE),
            result.is_ok() <==> old(self).charge_error(bytes_len * COMPILE_FEE_PER_BYTE).is_none(),
            result matches Err(e) ==> old(self).charge_error(bytes_len * COMPILE_FEE_PER_BYTE) == Some(e),
    {
        match (bytes_len as u64).checked_mul(COMPILE_FEE_PER_BYTE) {
            None => Err(GasError::GasOverflow),
            Some(fee) => self.add(fee),
        }
    }

    /// Charge the fee for the predicates that ran beside the most expensive one:
    /// [`parallel_fee`] of their costs. A total that does not fit in 64 bits is an
    /// overflow and charges nothing.
    pub fn add_parallel_fee(&mut self, costs: &[u64]) -> (result: Result<(), GasError>)
        ensures
            sum_gas(costs@) > u64::MAX ==> *final(self) == *old(self) && result == Err::<
                (),
                GasError,
            >(GasError::GasOverflow),
            sum_gas(costs@) <= u64::MAX ==> *final(self) == old(self).after_add(
                parallel_fee(costs@),
            ) && result == old(self).add_result(parallel_fee(costs@)),
            result.is_ok() ==> final(self).transaction_gas == old(self).transaction_gas
                + parallel_fee(costs@),
    {
        let mut total: u64 = 0;
        let mut i: usize = 0;
        while i < costs.len()
            invariant
                i <= costs.len(),
                total == sum_gas(costs@.take(i as int)),
            decreases costs.len() - i,
        {
            proof {
                assert(costs@.take(i + 1).drop_last() =~= costs@.take(i as int));
                lemma_sum_gas_prefix(costs@, i + 1);
            }
            match total.checked_add(costs[i]) {
                None => {
                    return Err(GasError::GasOverflow);
                },
                Some(next) => {
                    total = next;
                },
            }
            i += 1;
        }
        proof {
            assert(costs@.take(i as int) =~= costs@);
        }
        let whole: u64 = total / PARALLEL_GAS_DIVISOR;
        let fee: u64 = if total % PARALLEL_GAS_DIVISOR == 0 {
            whole
        } else {
            whole + 1
        };
        assert(fee == parallel_fee(costs@));
        self.add(fee)
    }

    /// Close the current transaction: add its gas to the block's and return it.
    /// Nothing is reset when the block total overflows or exceeds its limit.
    pub fn finalize_transaction(&mut self) -> (result: Result<u64, GasError>)
        ensures
            *final(self) == old(self).after_finalize(),
            result == old(self).finalize_result(),
    {
        match self.block_gas.checked_add(self.transaction_gas) {
            None => Err(GasError::GasOverflow),
            Some(total) => {
                self.block_gas = total;
                if total > self.block_gas_limit {
                    Err(GasError::BlockGasExceeded)
                } else {
                    let gas: u64 = self.transaction_gas;
                    self.transaction_gas = 0;
                    Ok(gas)
                }
            },
        }
    }

    /// Start a new block: nothing used, limits kept.
    pub fn reset(&mut self)
        ensures
            *final(self) == (BlockGasMeter { block_gas: 0, transaction_gas: 0, ..*old(self) }),
    {
        self.transaction_gas = 0;
        self.block_gas = 0;
    }

    /// Gas used so far by the current transaction.
    pub fn get_current_transaction_gas(&self) -> (gas: u64)
        ensures
            gas == self.transaction_gas,
    {
        self.transaction_gas
    }
}

impl Default for BlockGasMeter {
    /// A meter with nothing used and the default limits.
    fn default() -> (meter: BlockGasMeter)
        ensures
            meter == BlockGasMeter::default_spec(),
    {
        BlockGasMeter {
            block_gas: 0,
            transaction_gas: 0,
            transaction_gas_limit: TRANSACTION_GAS_LIMIT,
            block_gas_limit: BLOCK_GAS_LIMIT,
        }
    }
}

/// Gas meter of one validity predicate. All predicates of a transaction start
/// from the same `initial_gas` and share the transaction's limit.
#[derive(Clone, Copy, Debug, PartialEq, Eq, Structural)]
pub struct VpGasMeter {
    /// Gas the transaction had used when the predicates were dispatched.
    pub initial_gas: u64,
    /// Gas used by this predicate.
    pub vp_gas: u64,
    /// The most gas the transaction may use, predicates included.
    pub limit: u64,
}

impl VpGasMeter {
    /// The predicate stayed inside the transaction's gas envelope.
    pub open spec fn within_limit(self) -> bool {
        self.initial_gas + self.vp_gas <= self.limit
    }

    /// The meter after a charge of `gas`. A charge that overflows leaves the
    /// meter as it was.
    pub open spec fn after_add(self, gas: int) -> VpGasMeter {
        if self.vp_gas + gas > u64::MAX {
            self
        } else {
            VpGasMeter { vp_gas: (self.vp_gas + gas) as u64, ..self }
        }
    }

    /// Whether a charge of `gas` is accepted.
    pub open spec fn add_result(self, gas: int) -> Result<(), GasError> {
        if self.vp_gas + gas > u64::MAX || self.initial_gas + self.vp_gas + gas > u64::MAX {
            Err(GasError::GasOverflow)
        } else if self.initial_gas + self.vp_gas + gas > self.limit {
            Err(GasError::TransactionGasExceeded)
        } else {
            Ok(())
        }
    }

    /// A meter for one predicate under the default transaction limit.
    pub fn new(initial_gas: u64) -> (meter: VpGasMeter)
        ensures
            meter == (VpGasMeter { initial_gas, vp_gas: 0, limit: TRANSACTION_GAS_LIMIT }),
    {
        VpGasMeter { initial_gas, vp_gas: 0, limit: TRANSACTION_GAS_LIMIT }
    }

    /// A meter for one predicate under the given transaction limit.
    pub fn with_limit(initial_gas: u64, limit: u64) -> (meter: VpGasMeter)
        ensures
            meter == (VpGasMeter { initial_gas, vp_gas: 0, limit }),
    {
        VpGasMeter { initial_gas, vp_gas: 0, limit }
    }

    /// Charge `gas` to the predicate. The charge is accepted exactly when the
    /// predicate is still inside the envelope afterwards.
    pub fn add(&mut self, gas: u64) -> (result: Result<(), GasError>)
        ensures
            *final(self) == old(self).after_add(gas as int),
            result == old(self).add_result(gas as int),
            result.is_ok() <==> old(self).vp_gas + gas <= u64::MAX && final(self).within_limit(),
    {
        match self.vp_gas.checked_add(gas) {
            None => Err(GasError::GasOverflow),
            Some(used) => {
                self.vp_gas = used;
                match self.initial_gas.checked_add(used) {
                    None => Err(GasError::GasOverflow),
                    Some(current) => {
                        if current > self.limit {
                            Err(GasError::TransactionGasExceeded)
                        } else {
                            Ok(())
                        }
                    },
                }
            },
        }
    }
}

} // verus!
