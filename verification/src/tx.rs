//! The transaction driver: from the bytes of a transaction to its result.
//!
//! The code of a transaction and the validity predicates run outside this
//! library. The driver is therefore a sequence of steps: [`run_tx`] charges
//! the fees that are due before the code runs and hands out a
//! [`TxContext`], through which the code reads and stages its changes;
//! [`TxContext::prepare_vps`] finds the verifiers and the predicates to
//! run; [`TxContext::finish`] takes what the predicates decided and gives
//! the [`TxResult`].

use crate::address::{address_views, Address, AddressSet, AddressView};
use crate::event::Event;
use crate::gas::{
    parallel_fee, sum_gas, BlockGasMeter, GasError, BASE_TX_FEE_PER_BYTE, COMPILE_FEE_PER_BYTE,
};
use crate::hash::{copy_bytes, sha256_of, tx_hash};
use crate::wire::{
    decode_bytes, decode_fields, decode_key, decode_tx, DecodeError, TxView, CODE_TAG, DATA_TAG,
};
use crate::key::{key_addresses, key_text, Key};
use crate::keymap::KeyView;
use crate::order::insert_once;
use crate::storage::{vp_key, Storage, StorageError};
use crate::vp::{
    descending, empty_order, fold_order, fold_vps, gas_order, job_gases, job_outcome,
    lemma_fold_vps_complete, outcome_at, sorted_descending, VpVerdict,
    job_addresses, job_views, lemma_fold_vps_invariant, run_vps, run_vps_dry, vps_text,
    VerdictOrder,
    sort_descending, VpJob, VpJobView, VpOutcome, VpsResult, VpsResultView,
};
use crate::text::{
    bool_text, bool_to_string, clone_strings, decimal_text, string_views, u64_to_string,
};
use crate::write_log::{
    event_gas, key_views, lemma_verifier_order_no_duplicates, next_address, read_value,
    store_value, verifier_order, ModificationView, WriteLog, WriteLogView,
};
use vstd::prelude::*;
use vstd::relations::{antisymmetric, reflexive, strongly_connected, total_ordering, transitive};
use vstd::slice::slice_subrange;

verus! {

/// A transaction: the code to run and the data for it.
#[derive(Debug, PartialEq, Eq)]
pub struct Tx {
    pub code: Vec<u8>,
    pub data: Option<Vec<u8>>,
}

impl View for Tx {
    type V = TxView;

    open spec fn view(&self) -> TxView {
        TxView {
            code: self.code@,
            data: match self.data {
                Some(data) => Some(data@),
                None => None,
            },
        }
    }
}

impl Clone for Tx {
    fn clone(&self) -> (copy: Tx)
        ensures
            copy@ == self@,
    {
        Tx {
            code: copy_bytes(self.code.as_slice()),
            data: match &self.data {
                Some(data) => Some(copy_bytes(data.as_slice())),
                None => None,
            },
        }
    }
}

impl Tx {
    /// Decode a transaction from its wire form.
    pub fn decode(tx_bytes: &[u8]) -> (result: Result<Tx, DecodeError>)
        ensures
            match result {
                Ok(tx) => decode_tx(tx_bytes@) == Ok::<TxView, DecodeError>(tx@),
                Err(e) => decode_tx(tx_bytes@) == Err::<TxView, DecodeError>(e),
            },
    {
        let mut tx = Tx { code: Vec::new(), data: None };
        let mut rest = tx_bytes;
        while rest.len() > 0
            invariant
                decode_fields(rest@, tx@) == decode_tx(tx_bytes@),
            decreases rest@.len(),
        {
            let (tag, wire_type, after_key) = match decode_key(rest) {
                Ok(key) => key,
                Err(e) => {
                    return Err(e);
                },
            };
            if tag == CODE_TAG {
                match decode_bytes(wire_type, after_key) {
                    Ok((code, after)) => {
                        tx.code = code;
                        rest = after;
                    },
                    Err(e) => {
                        return Err(e);
                    },
                }
            } else if tag == DATA_TAG {
                match decode_bytes(wire_type, after_key) {
                    Ok((data, after)) => {
                        tx.data = Some(data);
                        rest = after;
                    },
                    Err(e) => {
                        return Err(e);
                    },
                }
            } else {
                match crate::wire::decode_other(wire_type, tag, after_key) {
                    Ok(after) => {
                        rest = after;
                    },
                    Err(e) => {
                        return Err(e);
                    },
                }
            }
        }
        Ok(tx)
    }
}

/// Why the shell could not do what it was asked.
#[derive(Clone, Debug, PartialEq, Eq)]
pub enum Error {
    /// The store could not be erased.
    RemoveDB(String),
    /// The store refused an operation.
    StorageError(StorageError),
    /// Nothing can be received from the consensus engine any more.
    AbciChannelRecvError(String),
    /// A reply could not be delivered to the consensus engine.
    AbciChannelSendError(String),
    /// The bytes are not a transaction.
    TxDecodingError(DecodeError),
    /// The code of the transaction failed.
    TxRunnerError(String),
    /// A charge was refused.
    GasError(GasError),
    /// The message does not fit the state of the shell.
    UnexpectedMessage,
}

impl Error {
    /// The error in words.
    pub open spec fn text(self) -> Seq<char> {
        match self {
            Error::RemoveDB(cause) => "Error removing the DB data: "@ + cause@,
            Error::StorageError(cause) => "Storage error: "@ + cause.text(),
            Error::AbciChannelRecvError(cause) => "Shell ABCI channel receiver error: "@ + cause@,
            Error::AbciChannelSendError(cause) => "Shell ABCI channel sender error: "@ + cause@,
            Error::TxDecodingError(cause) => "Error decoding a transaction from bytes: "@
                + cause.text(),
            Error::TxRunnerError(cause) => "Transaction runner error: "@ + cause@,
            Error::GasError(cause) => "Gas error: "@ + cause.text(),
            Error::UnexpectedMessage => "Unexpected message"@,
        }
    }

    /// The error in words.
    pub fn to_string(&self) -> (text: String)
        ensures
            text@ == self.text(),
    {
        match self {
            Error::RemoveDB(cause) => String::from_str("Error removing the DB data: ").concat(
                cause.as_str(),
            ),
            Error::StorageError(cause) => String::from_str("Storage error: ").concat(
                cause.to_string().as_str(),
            ),
            Error::AbciChannelRecvError(cause) => String::from_str(
                "Shell ABCI channel receiver error: ",
            ).concat(cause.as_str()),
            Error::AbciChannelSendError(cause) => String::from_str(
                "Shell ABCI channel sender error: ",
            ).concat(cause.as_str()),
            Error::TxDecodingError(cause) => String::from_str(
                "Error decoding a transaction from bytes: ",
            ).concat(cause.to_string().as_str()),
            Error::TxRunnerError(cause) => String::from_str("Transaction runner error: ").concat(
                cause.as_str(),
            ),
            Error::GasError(cause) => String::from_str("Gas error: ").concat(
                cause.to_string().as_str(),
            ),
            Error::UnexpectedMessage => String::from_str("Unexpected message"),
        }
    }
}

/// The changed keys in which `address` appears, in text and in the order in
/// which they were first changed.
pub open spec fn keys_concerning(keys: Seq<KeyView>, address: AddressView) -> Seq<Seq<char>>
    decreases keys.len(),
{
    if keys.len() == 0 {
        Seq::empty()
    } else if key_addresses(keys.last()).contains(address) {
        keys_concerning(keys.drop_last(), address).push(key_text(keys.last()))
    } else {
        keys_concerning(keys.drop_last(), address)
    }
}

/// Each verifier with the changed keys that concern it.
pub open spec fn verifiers_with_keys(verifiers: Seq<AddressView>, keys: Seq<KeyView>) -> Seq<
    (AddressView, Seq<Seq<char>>),
> {
    verifiers.map_values(|a: AddressView| (a, keys_concerning(keys, a)))
}

/// The predicates to run: for each verifier its keys and the code stored
/// under its predicate key.
pub open spec fn jobs_for(
    verifiers: Seq<AddressView>,
    keys: Seq<KeyView>,
    store: Map<KeyView, Seq<u8>>,
) -> Seq<VpJobView> {
    verifiers.map_values(
        |a: AddressView|
            VpJobView {
                address: a,
                keys: keys_concerning(keys, a),
                vp: store_value(store, vp_key(a)),
            },
    )
}

/// What a list of verifiers with their keys stands for in contracts.
pub open spec fn verifier_entries(entries: Seq<(Address, Vec<String>)>) -> Seq<
    (AddressView, Seq<Seq<char>>),
> {
    entries.map_values(|entry: (Address, Vec<String>)| (entry.0@, string_views(entry.1@)))
}

/// The verifiers of the running transaction, each with the changed keys in
/// which it appears. The verifiers are those in `verifiers` and every
/// address that appears in a changed key.
pub fn get_verifiers(write_log: &WriteLog, verifiers: &AddressSet) -> (result: Vec<
    (Address, Vec<String>),
>)
    requires
        verifiers.wf(),
    ensures
        verifier_entries(result@) == verifiers_with_keys(
            verifier_order(verifiers.order(), write_log@.tx_keys),
            write_log@.tx_keys,
        ),
{
    let (all, keys) = write_log.verifiers_and_changed_keys(verifiers);
    let mut result: Vec<(Address, Vec<String>)> = Vec::new();
    let mut i: usize = 0;
    let ghost order = all.order();
    let ghost changed = write_log@.tx_keys;
    proof {
        assert(verifier_entries(result@) =~= verifiers_with_keys(order.take(0), changed));
    }
    while i < all.items.len()
        invariant
            i <= all.items.len(),
            order == address_views(all.items@),
            changed == key_views(keys@),
            verifier_entries(result@) == verifiers_with_keys(order.take(i as int), changed),
        decreases all.items.len() - i,
    {
        let address = all.items[i].clone();
        let mut concerning: Vec<String> = Vec::new();
        let mut j: usize = 0;
        proof {
            assert(string_views(concerning@) =~= keys_concerning(changed.take(0), address@));
        }
        while j < keys.len()
            invariant
                j <= keys.len(),
                changed == key_views(keys@),
                string_views(concerning@) == keys_concerning(changed.take(j as int), address@),
            decreases keys.len() - j,
        {
            proof {
                let longer = changed.take(j + 1);
                assert(longer.drop_last() =~= changed.take(j as int));
                assert(longer.last() == keys@[j as int]@);
            }
            if keys[j].find_addresses().contains(&address) {
                let ghost before = concerning@;
                let text = keys[j].to_string();
                concerning.push(text);
                proof {
                    assert(string_views(concerning@) =~= string_views(before).push(text@));
                }
            }
            j += 1;
        }
        proof {
            assert(changed.take(j as int) =~= changed);
        }
        let ghost before = result@;
        result.push((address, concerning));
        proof {
            assert(verifier_entries(result@) =~= verifier_entries(before).push(
                (address@, string_views(concerning@)),
            ));
            assert(verifiers_with_keys(order.take(i + 1), changed) =~= verifiers_with_keys(
                order.take(i as int),
                changed,
            ).push((order[i as int], keys_concerning(changed, order[i as int]))));
        }
        i += 1;
    }
    proof {
        assert(order.take(i as int) =~= order);
    }
    result
}

/// The predicates to run for the running transaction, in the order of the
/// verifiers.
pub fn verifier_jobs(write_log: &WriteLog, storage: &Storage, declared: &AddressSet) -> (jobs: Vec<
    VpJob,
>)
    requires
        declared.wf(),
        storage.wf(),
    ensures
        job_views(jobs@) == jobs_for(
            verifier_order(declared.order(), write_log@.tx_keys),
            write_log@.tx_keys,
            storage@.map,
        ),
{
    let entries = get_verifiers(write_log, declared);
    let ghost order = verifier_order(declared.order(), write_log@.tx_keys);
    let ghost changed = write_log@.tx_keys;
    let n: usize = entries.len();
    let mut jobs: Vec<VpJob> = Vec::new();
    let mut i: usize = 0;
    proof {
        assert(job_views(jobs@) =~= jobs_for(order.take(0), changed, storage@.map));
        assert(verifier_entries(entries@).len() == entries@.len());
        assert(verifiers_with_keys(order, changed).len() == order.len());
    }
    while i < n
        invariant
            i <= n,
            n == entries.len(),
            n == order.len(),
            storage.wf(),
            verifier_entries(entries@) == verifiers_with_keys(order, changed),
            job_views(jobs@) == jobs_for(order.take(i as int), changed, storage@.map),
        decreases n - i,
    {
        proof {
            assert(verifier_entries(entries@)[i as int] == (
                order[i as int],
                keys_concerning(changed, order[i as int]),
            ));
        }
        let address = entries[i].0.clone();
        let keys = clone_strings(&entries[i].1);
        let vp = storage.validity_predicate(&address);
        let ghost before = jobs@;
        let job = VpJob { address, keys, vp };
        jobs.push(job);
        proof {
            assert(job_views(jobs@) =~= job_views(before).push(job@));
            assert(jobs_for(order.take(i + 1), changed, storage@.map) =~= jobs_for(
                order.take(i as int),
                changed,
                storage@.map,
            ).push(job@));
        }
        i += 1;
    }
    proof {
        assert(order.take(i as int) =~= order);
    }
    jobs
}

/// The meter after the compiling fees of the first `n` jobs were charged in
/// turn, and the error of the first charge that was refused. Nothing is
/// charged after a refused charge, and nothing for a job without code.
pub open spec fn compile_all(meter: BlockGasMeter, jobs: Seq<VpJobView>, n: nat) -> (
    BlockGasMeter,
    Option<GasError>,
)
    decreases n,
{
    if n == 0 {
        (meter, None)
    } else {
        let (before, error) = compile_all(meter, jobs, (n - 1) as nat);
        if error.is_some() {
            (before, error)
        } else {
            match jobs[n - 1].vp {
                Some(code) => (
                    before.charged(code.len() * COMPILE_FEE_PER_BYTE),
                    before.charge_error(code.len() * COMPILE_FEE_PER_BYTE),
                ),
                None => (before, None),
            }
        }
    }
}

/// The compiling fees of the first `n` jobs together.
pub open spec fn compiling_fees(jobs: Seq<VpJobView>, n: nat) -> int
    decreases n,
{
    if n == 0 {
        0
    } else {
        compiling_fees(jobs, (n - 1) as nat) + match jobs[n - 1].vp {
            Some(code) => code.len() * COMPILE_FEE_PER_BYTE,
            None => 0,
        }
    }
}

/// Where no charge was refused, the compiling fees of the jobs were added
/// to the gas of the transaction, and nothing else of the meter changed.
pub proof fn lemma_compile_all_gas(meter: BlockGasMeter, jobs: Seq<VpJobView>, n: nat)
    requires
        compile_all(meter, jobs, n).1.is_none(),
    ensures
        compile_all(meter, jobs, n).0.transaction_gas == meter.transaction_gas + compiling_fees(
            jobs,
            n,
        ),
        compile_all(meter, jobs, n).0 == (BlockGasMeter {
            transaction_gas: compile_all(meter, jobs, n).0.transaction_gas,
            ..meter
        }),
    decreases n,
{
    if n > 0 {
        lemma_compile_all_gas(meter, jobs, (n - 1) as nat);
    }
}

/// Once a charge was refused, the jobs that follow change nothing.
pub proof fn lemma_compile_all_stops(meter: BlockGasMeter, jobs: Seq<VpJobView>, n: nat, m: nat)
    requires
        n <= m,
        compile_all(meter, jobs, n).1.is_some(),
    ensures
        compile_all(meter, jobs, m) == compile_all(meter, jobs, n),
    decreases m,
{
    if n < m {
        lemma_compile_all_stops(meter, jobs, n, (m - 1) as nat);
    }
}

/// Charge the fee for compiling the code of each job.
pub fn charge_compiling_fees(gas_meter: &mut BlockGasMeter, jobs: &Vec<VpJob>) -> (result: Result<
    (),
    GasError,
>)
    ensures
        *final(gas_meter) == compile_all(*old(gas_meter), job_views(jobs@), jobs@.len()).0,
        match result {
            Ok(_) => compile_all(*old(gas_meter), job_views(jobs@), jobs@.len()).1.is_none(),
            Err(e) => compile_all(*old(gas_meter), job_views(jobs@), jobs@.len()).1 == Some(e),
        },
{
    let mut i: usize = 0;
    while i < jobs.len()
        invariant
            i <= jobs.len(),
            compile_all(*old(gas_meter), job_views(jobs@), i as nat) == (
                *gas_meter,
                None::<GasError>,
            ),
        decreases jobs.len() - i,
    {
        match &jobs[i].vp {
            Some(code) => {
                match gas_meter.add_compiling_fee(code.len()) {
                    Ok(_) => {},
                    Err(e) => {
                        proof {
                            lemma_compile_all_stops(
                                *old(gas_meter),
                                job_views(jobs@),
                                (i + 1) as nat,
                                jobs@.len(),
                            );
                        }
                        return Err(e);
                    },
                }
            },
            None => {},
        }
        i += 1;
    }
    Ok(())
}

/// The meter after the gas of the predicates was charged: the largest cost
/// in full, then the parallel fee of the others. `gas` holds the costs from
/// the largest to the smallest.
pub open spec fn vps_charged(meter: BlockGasMeter, gas: Seq<u64>) -> BlockGasMeter {
    if gas.len() == 0 {
        meter
    } else if meter.charge_error(gas[0] as int).is_some() || sum_gas(gas.skip(1)) > u64::MAX {
        meter.charged(gas[0] as int)
    } else {
        meter.charged(gas[0] as int).charged(parallel_fee(gas.skip(1)))
    }
}

/// Why charging the gas of the predicates is refused, if it is.
pub open spec fn vps_charge_error(meter: BlockGasMeter, gas: Seq<u64>) -> Option<GasError> {
    if gas.len() == 0 {
        None
    } else if meter.charge_error(gas[0] as int).is_some() {
        meter.charge_error(gas[0] as int)
    } else if sum_gas(gas.skip(1)) > u64::MAX {
        Some(GasError::GasOverflow)
    } else {
        meter.charged(gas[0] as int).charge_error(parallel_fee(gas.skip(1)))
    }
}

/// The result of the predicates: what they decided, each of them counted,
/// with their gas costs from the largest to the smallest.
pub open spec fn checked_result(jobs: Seq<VpJobView>, outcomes: Seq<VpOutcome>) -> VpsResultView {
    let folded = fold_vps(jobs, outcomes, jobs.len());
    VpsResultView { gas_used: descending(folded.gas_used), ..folded }
}

/// Where each verifier has one job, no verifier is both accepted and
/// rejected in the result of the predicates, and the result has one gas
/// cost for each job.
pub proof fn lemma_checked_result_invariant(jobs: Seq<VpJobView>, outcomes: Seq<VpOutcome>)
    requires
        job_addresses(jobs).no_duplicates(),
    ensures
        checked_result(jobs, outcomes).accepted.disjoint(
            checked_result(jobs, outcomes).rejected,
        ),
        checked_result(jobs, outcomes).gas_used.len() == jobs.len(),
{
    lemma_fold_vps_invariant(jobs, outcomes, jobs.len());
    let folded = fold_vps(jobs, outcomes, jobs.len());
    assert(total_ordering(gas_order())) by {
        assert(reflexive(gas_order()));
        assert(antisymmetric(gas_order()));
        assert(transitive(gas_order()));
        assert(strongly_connected(gas_order()));
    }
    folded.gas_used.lemma_sort_by_ensures(gas_order());
    folded.gas_used.to_multiset_ensures();
    descending(folded.gas_used).to_multiset_ensures();
}

/// The verifiers of the predicates to run are those of the order of the
/// verifiers.
pub proof fn lemma_jobs_for_addresses(
    verifiers: Seq<AddressView>,
    keys: Seq<KeyView>,
    store: Map<KeyView, Seq<u8>>,
)
    ensures
        job_addresses(jobs_for(verifiers, keys, store)) == verifiers,
{
    assert(job_addresses(jobs_for(verifiers, keys, store)) =~= verifiers);
}

/// The gas costs in the result of the predicates are those of the jobs, one
/// for each, from the largest to the smallest; and a job without code is
/// among the rejected, with an error.
pub proof fn lemma_checked_result_complete(jobs: Seq<VpJobView>, outcomes: Seq<VpOutcome>)
    ensures
        sorted_descending(checked_result(jobs, outcomes).gas_used),
        checked_result(jobs, outcomes).gas_used.to_multiset() == job_gases(
            jobs,
            outcomes,
        ).to_multiset(),
        forall|i: int|
            0 <= i < jobs.len() && (#[trigger] jobs[i]).vp.is_none() ==> checked_result(
                jobs,
                outcomes,
            ).rejected.contains(jobs[i].address) && checked_result(jobs, outcomes).have_error,
{
    let folded = fold_vps(jobs, outcomes, jobs.len());
    lemma_fold_vps_complete(jobs, outcomes, jobs.len());
    assert(folded.gas_used =~= job_gases(jobs, outcomes));
    assert(total_ordering(gas_order())) by {
        assert(reflexive(gas_order()));
        assert(antisymmetric(gas_order()));
        assert(transitive(gas_order()));
        assert(strongly_connected(gas_order()));
    }
    folded.gas_used.lemma_sort_by_ensures(gas_order());
    let sorted = descending(folded.gas_used);
    assert forall|i: int, j: int| 0 <= i <= j < sorted.len() implies sorted[i] >= sorted[j] by {
        if i < j {
            assert(gas_order()(sorted[i], sorted[j]));
        }
    }
    assert forall|i: int| 0 <= i < jobs.len() && (#[trigger] jobs[i]).vp.is_none() implies folded.rejected.contains(
        jobs[i].address,
    ) && folded.have_error by {
        assert(job_outcome(jobs[i], outcome_at(outcomes, i)).0 == VpVerdict::HostError);
    }
}

/// Take together what the predicates decided and charge their gas. Every
/// predicate counts, in a dry run and otherwise; `dry_run` only tells which
/// of the two folds takes them together. The largest gas cost is charged in
/// full and the others at the parallel fee.
pub fn check_vps(
    jobs: &Vec<VpJob>,
    outcomes: &Vec<VpOutcome>,
    gas_meter: &mut BlockGasMeter,
    dry_run: bool,
) -> (result: Result<VpsResult, GasError>)
    ensures
        *final(gas_meter) == vps_charged(
            *old(gas_meter),
            checked_result(job_views(jobs@), outcomes@).gas_used,
        ),
        match result {
            Ok(vps) => vps.wf() && vps@ == checked_result(job_views(jobs@), outcomes@)
                && vps.order() == fold_order(job_views(jobs@), outcomes@, jobs@.len())
                && vps_charge_error(*old(gas_meter), vps@.gas_used).is_none(),
            Err(e) => vps_charge_error(
                *old(gas_meter),
                checked_result(job_views(jobs@), outcomes@).gas_used,
            ) == Some(e),
        },
        result matches Ok(vps) ==> sorted_descending(vps@.gas_used) && vps@.gas_used.to_multiset()
            == job_gases(job_views(jobs@), outcomes@).to_multiset(),
        result matches Ok(vps) ==> forall|i: int|
            0 <= i < jobs@.len() && (#[trigger] jobs@[i]).vp.is_none() ==> vps@.rejected.contains(
                jobs@[i].address@,
            ) && vps@.have_error,
{
    proof {
        lemma_checked_result_complete(job_views(jobs@), outcomes@);
        assert forall|i: int| 0 <= i < jobs@.len() implies (#[trigger] jobs@[i]).vp.is_none()
            == job_views(jobs@)[i].vp.is_none() && jobs@[i].address@ == job_views(
            jobs@,
        )[i].address by {}
    }
    let mut vps_result = if dry_run {
        run_vps_dry(jobs, outcomes)
    } else {
        run_vps(jobs, outcomes)
    };
    let sorted = sort_descending(&vps_result.gas_used);
    vps_result.gas_used = sorted;
    if vps_result.gas_used.len() > 0 {
        let max_gas_used: u64 = vps_result.gas_used[0];
        match gas_meter.add(max_gas_used) {
            Ok(_) => {},
            Err(e) => {
                return Err(e);
            },
        }
        let rest = slice_subrange(vps_result.gas_used.as_slice(), 1, vps_result.gas_used.len());
        proof {
            assert(rest@ =~= vps_result.gas_used@.skip(1));
        }
        match gas_meter.add_parallel_fee(rest) {
            Ok(_) => {},
            Err(e) => {
                return Err(e);
            },
        }
    }
    Ok(vps_result)
}

/// What a [`TxResult`] stands for in contracts.
pub struct TxResultView {
    pub gas_used: u64,
    pub vps: VpsResultView,
    pub valid: bool,
}

/// The result of a transaction.
#[derive(Debug)]
pub struct TxResult {
    /// The gas that the transaction used; zero if a charge was refused.
    pub gas_used: u64,
    /// What the validity predicates decided.
    pub vps: VpsResult,
    /// The transaction is to be applied.
    pub valid: bool,
}

impl View for TxResult {
    type V = TxResultView;

    open spec fn view(&self) -> TxResultView {
        TxResultView { gas_used: self.gas_used, vps: self.vps@, valid: self.valid }
    }
}

/// A result in words: whether the transaction is valid, the gas that it
/// used, and what the predicates decided.
pub open spec fn tx_result_text(result: TxResultView, order: VerdictOrder) -> Seq<char> {
    "Transaction is valid: "@ + bool_text(result.valid) + ". Gas used: "@ + decimal_text(
        result.gas_used as nat,
    ) + ", vps: "@ + vps_text(result.vps, order)
}

/// A transaction is valid exactly when no predicate rejected it and its gas
/// was charged.
pub open spec fn is_valid(gas_used: u64, vps: VpsResultView) -> bool {
    vps.rejected == Set::<AddressView>::empty() && gas_used > 0
}

impl TxResult {
    /// The result of a transaction from its gas and from what the
    /// predicates decided. A refused charge counts as no gas.
    pub fn new(gas: Result<u64, Error>, vps: VpsResult) -> (result: TxResult)
        ensures
            result.vps == vps,
            result.gas_used == match gas {
                Ok(used) => used,
                Err(_) => 0,
            },
            result.valid == is_valid(result.gas_used, vps@),
            result.valid ==> result@.vps.rejected == Set::<AddressView>::empty() && result.gas_used
                > 0,
    {
        let gas_used: u64 = match gas {
            Ok(used) => used,
            Err(_) => 0,
        };
        let mut tx_result = TxResult { gas_used, vps, valid: false };
        tx_result.valid = tx_result.is_tx_correct();
        tx_result
    }

    /// The result in words.
    pub open spec fn text(&self) -> Seq<char> {
        tx_result_text(self@, self.vps.order())
    }

    /// The result in words.
    pub fn to_string(&self) -> (text: String)
        ensures
            text@ == self.text(),
    {
        let mut text = String::from_str("Transaction is valid: ");
        text.append(bool_to_string(self.valid).as_str());
        text.append(". Gas used: ");
        text.append(u64_to_string(self.gas_used).as_str());
        text.append(", vps: ");
        text.append(self.vps.to_string().as_str());
        text
    }

    /// Whether the transaction is to be applied: no predicate rejected it and
    /// its gas was charged.
    pub fn is_tx_correct(&self) -> (correct: bool)
        ensures
            correct == is_valid(self.gas_used, self.vps@),
    {
        self.vps.rejected_vps.is_empty() && self.gas_used > 0
    }
}

/// A transaction that is being run: the write log it stages its changes in,
/// the gas meter it is charged on, the verifiers its code has declared, and
/// the predicates that are to check it.
#[derive(Debug)]
pub struct TxContext {
    /// The transaction that is being run.
    pub tx: Tx,
    pub write_log: WriteLog,
    pub gas_meter: BlockGasMeter,
    pub verifiers: AddressSet,
    /// The first charge that was refused, if any. A transaction with a
    /// refused charge is invalid and uses no gas.
    pub gas_error: Option<GasError>,
    /// The predicates to run, once they have been prepared.
    pub jobs: Vec<VpJob>,
}

/// What a [`TxContext`] stands for in contracts.
pub struct TxContextView {
    pub tx: TxView,
    pub write_log: WriteLogView,
    pub gas_meter: BlockGasMeter,
    pub verifiers: Seq<AddressView>,
    pub gas_error: Option<GasError>,
    pub jobs: Seq<VpJobView>,
}

impl View for TxContext {
    type V = TxContextView;

    open spec fn view(&self) -> TxContextView {
        TxContextView {
            tx: self.tx@,
            write_log: self.write_log@,
            gas_meter: self.gas_meter,
            verifiers: self.verifiers.order(),
            gas_error: self.gas_error,
            jobs: job_views(self.jobs@),
        }
    }
}

/// The context after a charge of `gas`. Once a charge was refused, nothing
/// more is charged.
pub open spec fn context_charged(context: TxContextView, gas: int) -> TxContextView {
    if context.gas_error.is_some() {
        context
    } else {
        TxContextView {
            gas_meter: context.gas_meter.charged(gas),
            gas_error: context.gas_meter.charge_error(gas),
            ..context
        }
    }
}

/// Charge the fee for compiling the code of a transaction.
pub fn execute_tx(tx: &Tx, gas_meter: &mut BlockGasMeter) -> (result: Result<(), GasError>)
    ensures
        *final(gas_meter) == old(gas_meter).charged(tx.code@.len() * COMPILE_FEE_PER_BYTE),
        match result {
            Ok(_) => old(gas_meter).charge_error(tx.code@.len() * COMPILE_FEE_PER_BYTE).is_none(),
            Err(e) => old(gas_meter).charge_error(tx.code@.len() * COMPILE_FEE_PER_BYTE) == Some(
                e,
            ),
        },
{
    gas_meter.add_compiling_fee(tx.code.len())
}

/// The context in which the code of a transaction runs, after the base fee
/// and the compiling fee were charged. Where the base fee is refused, the
/// transaction is not decoded.
pub open spec fn started_context(
    tx_bytes: Seq<u8>,
    gas_meter: BlockGasMeter,
    write_log: WriteLogView,
) -> TxContextView {
    let base = tx_bytes.len() * BASE_TX_FEE_PER_BYTE;
    let fresh = TxContextView {
        tx: TxView { code: Seq::empty(), data: None },
        write_log,
        gas_meter,
        verifiers: Seq::empty(),
        gas_error: None,
        jobs: Seq::empty(),
    };
    let based = context_charged(fresh, base);
    if based.gas_error.is_some() {
        based
    } else {
        match decode_tx(tx_bytes) {
            Ok(tx) => context_charged(
                TxContextView {
                    tx,
                    write_log: WriteLogView { address_gen: sha256_of(tx_bytes), ..write_log },
                    ..based
                },
                tx.code.len() * COMPILE_FEE_PER_BYTE,
            ),
            Err(_) => based,
        }
    }
}

/// Whether a transaction can be started, and if not, why: a transaction
/// whose base fee is charged must decode.
pub open spec fn start_error(tx_bytes: Seq<u8>, gas_meter: BlockGasMeter) -> Option<DecodeError> {
    if gas_meter.charge_error(tx_bytes.len() * BASE_TX_FEE_PER_BYTE).is_some() {
        None
    } else {
        match decode_tx(tx_bytes) {
            Ok(_) => None,
            Err(e) => Some(e),
        }
    }
}

/// Start a transaction. The base fee is charged for the bytes of the
/// transaction; if that charge is refused the transaction is invalid and
/// nothing else happens. Otherwise the bytes are decoded, which may fail,
/// and the compiling fee is charged for the code. The meter holds every
/// charge that was made, also where the bytes do not decode; the context
/// that is handed out goes on from the meter as it then stands.
pub fn run_tx(tx_bytes: &[u8], gas_meter: &mut BlockGasMeter, write_log: WriteLog) -> (result: Result<
    TxContext,
    Error,
>)
    requires
        write_log.wf(),
    ensures
        *final(gas_meter) == started_context(tx_bytes@, *old(gas_meter), write_log@).gas_meter,
        start_error(tx_bytes@, *old(gas_meter)).is_some() ==> *final(gas_meter) == old(
            gas_meter,
        ).after_add(tx_bytes@.len() * BASE_TX_FEE_PER_BYTE),
        match result {
            Ok(context) => context.wf() && start_error(tx_bytes@, *old(gas_meter)).is_none()
                && context@ == started_context(tx_bytes@, *old(gas_meter), write_log@),
            Err(e) => e matches Error::TxDecodingError(cause) && start_error(
                tx_bytes@,
                *old(gas_meter),
            ) == Some(cause),
        },
{
    let mut context = TxContext {
        tx: Tx { code: Vec::new(), data: None },
        write_log,
        gas_meter: *gas_meter,
        verifiers: AddressSet::new(),
        gas_error: None,
        jobs: Vec::new(),
    };
    proof {
        assert(context@.jobs =~= Seq::<VpJobView>::empty());
        assert(context@.verifiers =~= Seq::<AddressView>::empty());
    }
    let ghost base = tx_bytes@.len() * BASE_TX_FEE_PER_BYTE;
    let charged = context.gas_meter.add_base_transaction_fee(tx_bytes.len());
    *gas_meter = context.gas_meter;
    match charged {
        Ok(_) => {},
        Err(e) => {
            context.gas_error = Some(e);
            return Ok(context);
        },
    }
    assert(old(gas_meter).charge_error(base).is_none());
    match Tx::decode(tx_bytes) {
        Err(e) => Err(Error::TxDecodingError(e)),
        Ok(tx) => {
            let hash = tx_hash(tx_bytes);
            context.write_log.begin_tx(hash.as_slice());
            match execute_tx(&tx, &mut context.gas_meter) {
                Ok(_) => {},
                Err(e) => {
                    context.gas_error = Some(e);
                },
            }
            *gas_meter = context.gas_meter;
            context.tx = tx;
            Ok(context)
        },
    }
}

/// What is said of a transaction without code.
pub const NO_CODE: &'static str = "the transaction has no code";

/// Why the code of a transaction counts as having failed, if it does: the
/// failure that the runner tells, or that there is no code to run. A
/// transaction with a refused charge does not count as having failed.
pub open spec fn runner_failure(context: TxContextView, runner: Result<(), String>) -> Option<
    Seq<char>,
> {
    if context.gas_error.is_some() {
        None
    } else {
        match runner {
            Err(message) => Some(message@),
            Ok(_) => if context.tx.code.len() == 0 {
                Some(NO_CODE@)
            } else {
                None
            },
        }
    }
}

/// Where no charge is refused, starting a transaction adds to the gas of
/// the transaction the base fee of its bytes and the compiling fee of its
/// code; where only the base fee is charged, because the bytes do not
/// decode, it adds the base fee.
pub proof fn lemma_started_gas(tx_bytes: Seq<u8>, gas_meter: BlockGasMeter, write_log: WriteLogView)
    requires
        gas_meter.charge_error(tx_bytes.len() * BASE_TX_FEE_PER_BYTE).is_none(),
    ensures
        match decode_tx(tx_bytes) {
            Ok(tx) => started_context(tx_bytes, gas_meter, write_log).gas_error.is_none()
                ==> started_context(tx_bytes, gas_meter, write_log).gas_meter.transaction_gas
                == gas_meter.transaction_gas + tx_bytes.len() * BASE_TX_FEE_PER_BYTE
                + tx.code.len() * COMPILE_FEE_PER_BYTE,
            Err(_) => started_context(tx_bytes, gas_meter, write_log).gas_meter.transaction_gas
                == gas_meter.transaction_gas + tx_bytes.len() * BASE_TX_FEE_PER_BYTE,
        },
{
}

/// The context after the predicates were prepared.
pub open spec fn prepared_context(context: TxContextView, store: Map<KeyView, Seq<u8>>) -> TxContextView {
    let jobs = jobs_for(
        verifier_order(context.verifiers, context.write_log.tx_keys),
        context.write_log.tx_keys,
        store,
    );
    let (gas_meter, gas_error) = compile_all(context.gas_meter, jobs, jobs.len());
    TxContextView { gas_meter, gas_error, jobs, ..context }
}

/// The result of a transaction with a refused charge: no gas, no verdicts,
/// not valid.
pub open spec fn refused_result() -> TxResultView {
    TxResultView { gas_used: 0, vps: crate::vp::empty_result(), valid: false }
}

/// The result of a transaction from its context and from what its
/// predicates decided.
pub open spec fn finished_result(context: TxContextView, outcomes: Seq<VpOutcome>) -> TxResultView {
    let vps = checked_result(context.jobs, outcomes);
    if context.gas_error.is_some() || vps_charge_error(context.gas_meter, vps.gas_used).is_some() {
        refused_result()
    } else {
        let gas_used = match vps_charged(context.gas_meter, vps.gas_used).finalize_result() {
            Ok(used) => used,
            Err(_) => 0,
        };
        TxResultView { gas_used, vps, valid: is_valid(gas_used, vps) }
    }
}

/// The gas that the predicates add to a transaction: the largest of their
/// costs in full and the parallel fee of the others.
pub open spec fn predicates_gas(gas: Seq<u64>) -> int {
    if gas.len() == 0 {
        0
    } else {
        descending(gas)[0] + parallel_fee(descending(gas).skip(1))
    }
}

/// Where no charge is refused and the block has room, the gas of a
/// transaction is the gas that it had used when its predicates were
/// dispatched, the largest cost of a predicate, and the parallel fee of the
/// costs of the others; and that much is added to the gas of the block.
pub proof fn lemma_finished_gas(context: TxContextView, outcomes: Seq<VpOutcome>)
    requires
        context.gas_error.is_none(),
        vps_charge_error(
            context.gas_meter,
            checked_result(context.jobs, outcomes).gas_used,
        ).is_none(),
        vps_charged(
            context.gas_meter,
            checked_result(context.jobs, outcomes).gas_used,
        ).finalize_result().is_ok(),
    ensures
        finished_result(context, outcomes).gas_used == context.gas_meter.transaction_gas
            + predicates_gas(job_gases(context.jobs, outcomes)),
        finished_meter(context, outcomes).block_gas == context.gas_meter.block_gas
            + finished_result(context, outcomes).gas_used,
        finished_meter(context, outcomes).transaction_gas == 0,
{
    let jobs = context.jobs;
    lemma_fold_vps_complete(jobs, outcomes, jobs.len());
    assert(fold_vps(jobs, outcomes, jobs.len()).gas_used =~= job_gases(jobs, outcomes));
    lemma_checked_result_length(jobs, outcomes);
    let gas = checked_result(jobs, outcomes).gas_used;
    let meter = context.gas_meter;
    assert(gas == descending(job_gases(jobs, outcomes)));
    assert(gas.len() == job_gases(jobs, outcomes).len());
    if gas.len() > 0 {
        let first = meter.charged(gas[0] as int);
        assert(meter.charge_error(gas[0] as int).is_none());
        assert(first.transaction_gas == meter.transaction_gas + gas[0]);
        assert(sum_gas(gas.skip(1)) <= u64::MAX);
        crate::gas::lemma_sum_gas_nonnegative(gas.skip(1));
        assert(0 <= parallel_fee(gas.skip(1)));
        assert(first.charge_error(parallel_fee(gas.skip(1))).is_none());
        let second = first.charged(parallel_fee(gas.skip(1)));
        assert(second.transaction_gas == first.transaction_gas + parallel_fee(gas.skip(1)));
        assert(vps_charged(meter, gas) == second);
    }
}

/// The result of the predicates has one gas cost for each job.
pub proof fn lemma_checked_result_length(jobs: Seq<VpJobView>, outcomes: Seq<VpOutcome>)
    ensures
        checked_result(jobs, outcomes).gas_used.len() == jobs.len(),
{
    lemma_fold_vps_complete(jobs, outcomes, jobs.len());
    let folded = fold_vps(jobs, outcomes, jobs.len());
    assert(total_ordering(gas_order())) by {
        assert(reflexive(gas_order()));
        assert(antisymmetric(gas_order()));
        assert(transitive(gas_order()));
        assert(strongly_connected(gas_order()));
    }
    folded.gas_used.lemma_sort_by_ensures(gas_order());
    folded.gas_used.to_multiset_ensures();
    descending(folded.gas_used).to_multiset_ensures();
}

/// The order of the verifiers in the result of a transaction.
pub open spec fn finished_order(context: TxContextView, outcomes: Seq<VpOutcome>) -> VerdictOrder {
    let vps = checked_result(context.jobs, outcomes);
    if context.gas_error.is_some() || vps_charge_error(context.gas_meter, vps.gas_used).is_some() {
        empty_order()
    } else {
        fold_order(context.jobs, outcomes, context.jobs.len())
    }
}

/// The gas meter after a transaction was finished.
pub open spec fn finished_meter(context: TxContextView, outcomes: Seq<VpOutcome>) -> BlockGasMeter {
    let vps = checked_result(context.jobs, outcomes);
    if context.gas_error.is_some() {
        context.gas_meter
    } else if vps_charge_error(context.gas_meter, vps.gas_used).is_some() {
        vps_charged(context.gas_meter, vps.gas_used)
    } else {
        vps_charged(context.gas_meter, vps.gas_used).after_finalize()
    }
}

impl TxContext {
    /// The write log and the set of verifiers are well formed, and each
    /// verifier has one job.
    pub open spec fn wf(&self) -> bool {
        &&& self.write_log.wf()
        &&& self.verifiers.wf()
        &&& job_addresses(self@.jobs).no_duplicates()
    }

    /// Whether a charge was refused.
    pub fn is_refused(&self) -> (refused: bool)
        ensures
            refused == self@.gas_error.is_some(),
    {
        self.gas_error.is_some()
    }

    /// The gas that the transaction has used so far. Once the predicates
    /// are prepared, this is the gas from which each of them starts.
    pub fn initial_gas(&self) -> (gas: u64)
        ensures
            gas == self@.gas_meter.transaction_gas,
    {
        self.gas_meter.get_current_transaction_gas()
    }

    /// Read `key` as the running transaction sees it.
    pub fn read(&self, storage: &Storage, key: &Key) -> (value: Option<Vec<u8>>)
        requires
            self.wf(),
            storage.wf(),
        ensures
            match value {
                Some(v) => read_value(self@.write_log.tx, self@.write_log.block, storage@.map, key@)
                    == Some(v@),
                None => read_value(
                    self@.write_log.tx,
                    self@.write_log.block,
                    storage@.map,
                    key@,
                ).is_none(),
            },
    {
        self.write_log.read(storage, key)
    }

    /// Whether the running transaction sees a value under `key`.
    pub fn has_key(&self, storage: &Storage, key: &Key) -> (found: bool)
        requires
            self.wf(),
            storage.wf(),
        ensures
            found == read_value(
                self@.write_log.tx,
                self@.write_log.block,
                storage@.map,
                key@,
            ).is_some(),
    {
        self.write_log.has_key(storage, key)
    }

    /// Stage a write of `value` under `key`.
    pub fn write(&mut self, key: &Key, value: Vec<u8>)
        requires
            old(self).wf(),
        ensures
            final(self).wf(),
            final(self)@ == (TxContextView {
                write_log: WriteLogView {
                    tx: old(self)@.write_log.tx.insert(key@, ModificationView::Write(value@)),
                    tx_keys: insert_once(old(self)@.write_log.tx_keys, key@),
                    ..old(self)@.write_log
                },
                ..old(self)@
            }),
    {
        self.write_log.write(key, value);
    }

    /// Stage the removal of `key`.
    pub fn delete(&mut self, key: &Key)
        requires
            old(self).wf(),
        ensures
            final(self).wf(),
            final(self)@ == (TxContextView {
                write_log: WriteLogView {
                    tx: old(self)@.write_log.tx.insert(key@, ModificationView::Delete),
                    tx_keys: insert_once(old(self)@.write_log.tx_keys, key@),
                    ..old(self)@.write_log
                },
                ..old(self)@
            }),
    {
        self.write_log.delete(key);
    }

    /// Create an account with the validity predicate `vp` and return its
    /// address.
    pub fn init_account(&mut self, vp: Vec<u8>) -> (address: Address)
        requires
            old(self).wf(),
        ensures
            final(self).wf(),
            address@ == next_address(old(self)@.write_log.address_gen),
            final(self)@ == (TxContextView {
                write_log: WriteLogView {
                    tx: old(self)@.write_log.tx.insert(
                        vp_key(address@),
                        ModificationView::InitAccount(vp@),
                    ),
                    tx_keys: insert_once(old(self)@.write_log.tx_keys, vp_key(address@)),
                    address_gen: sha256_of(old(self)@.write_log.address_gen),
                    ..old(self)@.write_log
                },
                ..old(self)@
            }),
    {
        self.write_log.init_account(vp)
    }

    /// Declare that the predicate of `address` must check the transaction.
    pub fn insert_verifier(&mut self, address: &Address)
        requires
            old(self).wf(),
        ensures
            final(self).wf(),
            final(self)@ == (TxContextView {
                verifiers: insert_once(old(self)@.verifiers, address@),
                ..old(self)@
            }),
    {
        self.verifiers.insert(address.clone());
    }

    /// Charge `gas` to the transaction. Once a charge was refused, every
    /// further charge is refused with the same error and changes nothing.
    pub fn charge_gas(&mut self, gas: u64) -> (result: Result<(), GasError>)
        ensures
            final(self).wf() == old(self).wf(),
            final(self)@ == context_charged(old(self)@, gas as int),
            match result {
                Ok(_) => final(self)@.gas_error.is_none(),
                Err(e) => final(self)@.gas_error == Some(e),
            },
    {
        match self.gas_error {
            Some(e) => Err(e),
            None => {
                match self.gas_meter.add(gas) {
                    Ok(_) => Ok(()),
                    Err(e) => {
                        self.gas_error = Some(e);
                        Err(e)
                    },
                }
            },
        }
    }

    /// Emit an event and charge the gas for it.
    pub fn emit_event(&mut self, event: Event) -> (result: Result<(), GasError>)
        requires
            old(self).wf(),
        ensures
            final(self).wf(),
            final(self)@ == context_charged(
                TxContextView {
                    write_log: WriteLogView {
                        events: old(self)@.write_log.events.push(event@),
                        ..old(self)@.write_log
                    },
                    ..old(self)@
                },
                event_gas(event@),
            ),
            match result {
                Ok(_) => final(self)@.gas_error.is_none(),
                Err(e) => final(self)@.gas_error == Some(e),
            },
    {
        let gas: u64 = self.write_log.emit_event(event);
        self.charge_gas(gas)
    }

    /// Find the verifiers of the transaction and the predicates to run, and
    /// charge the fee for compiling each predicate. `runner` tells how the
    /// code of the transaction ended. A transaction with a refused charge
    /// has no predicates to run, whatever its code did; otherwise a
    /// transaction whose code failed is aborted with the failure, and so is
    /// a transaction without code, whatever the runner tells of it.
    pub fn prepare_vps(&mut self, storage: &Storage, runner: Result<(), String>) -> (result: Result<
        (),
        Error,
    >)
        requires
            old(self).wf(),
            storage.wf(),
        ensures
            final(self).wf(),
            match result {
                Ok(_) => runner_failure(old(self)@, runner).is_none() && final(self)@ == if old(
                    self,
                )@.gas_error.is_some() {
                    old(self)@
                } else {
                    prepared_context(old(self)@, storage@.map)
                },
                Err(e) => final(self)@ == old(self)@ && (e matches Error::TxRunnerError(text)
                    && runner_failure(old(self)@, runner) == Some(text@)),
            },
    {
        if self.gas_error.is_some() {
            return Ok(());
        }
        match runner {
            Err(message) => Err(Error::TxRunnerError(message)),
            Ok(_) => {
                if self.tx.code.len() == 0 {
                    return Err(Error::TxRunnerError(String::from_str(NO_CODE)));
                }
                let jobs = verifier_jobs(&self.write_log, storage, &self.verifiers);
                proof {
                    let order = verifier_order(self@.verifiers, self@.write_log.tx_keys);
                    lemma_verifier_order_no_duplicates(self@.verifiers, self@.write_log.tx_keys);
                    lemma_jobs_for_addresses(order, self@.write_log.tx_keys, storage@.map);
                }
                match charge_compiling_fees(&mut self.gas_meter, &jobs) {
                    Ok(_) => {},
                    Err(e) => {
                        self.gas_error = Some(e);
                    },
                }
                self.jobs = jobs;
                Ok(())
            },
        }
    }

    /// Finish the transaction with what its predicates decided: the outcome
    /// at each position belongs to the job at that position. The gas of the
    /// predicates is charged and the transaction's gas is added to the
    /// block's. Every predicate counts, in a dry run and otherwise. The write
    /// log comes back as the transaction left it; whether its changes are
    /// kept is for the caller to decide from the result.
    pub fn finish(self, outcomes: &Vec<VpOutcome>, dry_run: bool) -> (finished: (
        TxResult,
        WriteLog,
        BlockGasMeter,
    ))
        requires
            self.wf(),
        ensures
            finished.0@ == finished_result(self@, outcomes@),
            finished.0.vps.order() == finished_order(self@, outcomes@),
            finished.0.vps.wf(),
            finished.0@.vps.accepted.disjoint(finished.0@.vps.rejected),
            finished.0@.gas_used > 0 ==> finished.0@.vps.gas_used.len() == self@.jobs.len(),
            finished.0.valid ==> finished.0@.vps.rejected == Set::<AddressView>::empty()
                && finished.0.gas_used > 0,
            finished.1 == self.write_log,
            finished.2 == finished_meter(self@, outcomes@),
    {
        let mut gas_meter = self.gas_meter;
        proof {
            lemma_checked_result_invariant(self@.jobs, outcomes@);
        }
        if self.gas_error.is_some() {
            let refused = TxResult { gas_used: 0, vps: VpsResult::default(), valid: false };
            return (refused, self.write_log, gas_meter);
        }
        match check_vps(&self.jobs, outcomes, &mut gas_meter, dry_run) {
            Err(_) => {
                let refused = TxResult { gas_used: 0, vps: VpsResult::default(), valid: false };
                (refused, self.write_log, gas_meter)
            },
            Ok(vps) => {
                let gas = match gas_meter.finalize_transaction() {
                    Ok(used) => Ok(used),
                    Err(e) => Err(Error::GasError(e)),
                };
                (TxResult::new(gas, vps), self.write_log, gas_meter)
            },
        }
    }
}

} // verus!
