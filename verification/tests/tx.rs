use ledger_shell::address::{Address, AddressSet};
use ledger_shell::gas::{BlockGasMeter, GasError, VpGasMeter};
use ledger_shell::key::Key;
use ledger_shell::storage::Storage;
use ledger_shell::text::{bool_to_string, list_to_string, numbers_to_strings, u64_to_string};
use ledger_shell::tx::{
    charge_compiling_fees, check_vps, execute_tx, get_verifiers, run_tx, verifier_jobs, Error, Tx,
    TxResult,
};
use ledger_shell::vp::{VpJob, VpOutcome, VpVerdict, VpsResult};
use ledger_shell::wire::DecodeError;
use ledger_shell::write_log::WriteLog;

fn key(text: &str) -> Key {
    Key::parse(text.to_string()).unwrap()
}

fn established(id: &str) -> Address {
    Address::Established(id.to_string())
}

fn encode(code: &[u8], data: Option<&[u8]>) -> Vec<u8> {
    let mut bytes = Vec::new();
    if !code.is_empty() {
        prost::encoding::bytes::encode(1, &code.to_vec(), &mut bytes);
    }
    if let Some(data) = data {
        prost::encoding::bytes::encode(2, &data.to_vec(), &mut bytes);
    }
    bytes
}

fn job(id: &str, code_len: usize) -> VpJob {
    VpJob { address: established(id), keys: vec![], vp: Some(vec![0; code_len]) }
}

fn accepted(gas: u64) -> VpOutcome {
    VpOutcome { verdict: VpVerdict::Accepted, gas_meter: VpGasMeter::with_limit(0, u64::MAX).clone_with(gas) }
}

trait WithGas {
    fn clone_with(self, gas: u64) -> Self;
}

impl WithGas for VpGasMeter {
    fn clone_with(mut self, gas: u64) -> Self {
        self.vp_gas = gas;
        self
    }
}

#[test]
fn verifiers_get_the_keys_that_concern_them() {
    let mut log = WriteLog::new();
    log.write(&key("@alan/balance/eth"), vec![1]);
    log.write(&key("@ada/balance/eth"), vec![2]);
    log.write(&key("@alan/transfer/@ada"), vec![3]);
    let mut declared = AddressSet::new();
    declared.insert(established("carol"));
    let verifiers = get_verifiers(&log, &declared);
    assert_eq!(
        verifiers,
        vec![
            (established("carol"), vec![]),
            (
                established("alan"),
                vec!["@alan/balance/eth".to_string(), "@alan/transfer/@ada".to_string()]
            ),
            (
                established("ada"),
                vec!["@ada/balance/eth".to_string(), "@alan/transfer/@ada".to_string()]
            ),
        ]
    );
}

#[test]
fn jobs_carry_the_stored_predicates() {
    let mut storage = Storage::new();
    storage.write(&Key::validity_predicate(&established("alan")), vec![7, 7]);
    let mut log = WriteLog::new();
    log.write(&key("@alan/x"), vec![1]);
    log.write(&key("@ada/x"), vec![1]);
    let jobs = verifier_jobs(&log, &storage, &AddressSet::new());
    assert_eq!(jobs.len(), 2);
    assert_eq!(jobs[0].address, established("alan"));
    assert_eq!(jobs[0].vp, Some(vec![7, 7]));
    assert_eq!(jobs[0].keys, vec!["@alan/x"]);
    assert_eq!(jobs[1].address, established("ada"));
    assert_eq!(jobs[1].vp, None);
}

#[test]
fn compiling_fees_are_charged_for_each_job() {
    let mut meter = BlockGasMeter::default();
    let jobs = vec![job("a", 10), VpJob { address: established("b"), keys: vec![], vp: None }, job("c", 5)];
    assert_eq!(charge_compiling_fees(&mut meter, &jobs), Ok(()));
    assert_eq!(meter.transaction_gas, 15);
}

#[test]
fn compiling_fees_stop_at_the_first_refusal() {
    let mut meter = BlockGasMeter::with_limits(12, 100);
    let jobs = vec![job("a", 10), job("b", 5), job("c", 100)];
    assert_eq!(charge_compiling_fees(&mut meter, &jobs), Err(GasError::TransactionGasExceeded));
    assert_eq!(meter.transaction_gas, 15);
}

#[test]
fn check_vps_charges_the_largest_cost_and_the_parallel_fee() {
    let mut meter = BlockGasMeter::default();
    let jobs = vec![job("a", 0), job("b", 0), job("c", 0)];
    let outcomes = vec![accepted(40), accepted(100), accepted(30)];
    let result = check_vps(&jobs, &outcomes, &mut meter, true).unwrap();
    assert_eq!(result.gas_used, vec![100, 40, 30]);
    assert_eq!(meter.transaction_gas, 107);
    assert_eq!(result.accepted_vps.len(), 3);
}

#[test]
fn check_vps_without_predicates_charges_nothing() {
    let mut meter = BlockGasMeter::default();
    let result = check_vps(&vec![], &vec![], &mut meter, false).unwrap();
    assert_eq!(meter, BlockGasMeter::default());
    assert!(result.gas_used.is_empty());
}

#[test]
fn check_vps_refuses_what_the_meter_refuses() {
    let mut meter = BlockGasMeter::with_limits(50, 1000);
    let jobs = vec![job("a", 0), job("b", 0)];
    let outcomes = vec![accepted(40), accepted(100)];
    assert_eq!(
        check_vps(&jobs, &outcomes, &mut meter, true).err(),
        Some(GasError::TransactionGasExceeded)
    );
    assert_eq!(meter.transaction_gas, 100);
    let mut full = BlockGasMeter::with_limits(100, 1000);
    assert_eq!(
        check_vps(&jobs, &outcomes, &mut full, true).err(),
        Some(GasError::TransactionGasExceeded)
    );
    assert_eq!(full.transaction_gas, 104);
}

#[test]
fn execute_tx_charges_for_the_code() {
    let mut meter = BlockGasMeter::default();
    let tx = Tx { code: vec![0; 33], data: None };
    assert_eq!(execute_tx(&tx, &mut meter), Ok(()));
    assert_eq!(meter.transaction_gas, 33);
}

#[test]
fn run_tx_charges_base_and_compiling_fee() {
    let bytes = encode(&[0; 5], Some(&[9]));
    assert_eq!(bytes.len(), 10);
    let mut meter = BlockGasMeter::default();
    let context = run_tx(&bytes, &mut meter, WriteLog::new()).unwrap();
    assert_eq!(context.initial_gas(), 25);
    assert_eq!(meter, context.gas_meter);
    assert!(!context.is_refused());
    assert!(context.verifiers.is_empty());
    assert_eq!(context.write_log.address_gen, ledger_shell::hash::tx_hash(&bytes));
    assert_eq!(context.tx, Tx { code: vec![0; 5], data: Some(vec![9]) });
}

#[test]
fn run_tx_refuses_bytes_that_do_not_decode() {
    let mut meter = BlockGasMeter::default();
    let result = run_tx(&[0; 10], &mut meter, WriteLog::new());
    assert_eq!(result.err(), Some(Error::TxDecodingError(DecodeError::InvalidTag)));
    assert_eq!(meter.transaction_gas, 20);
    assert_eq!(meter.block_gas, 0);
}

#[test]
fn run_tx_with_refused_base_fee_is_refused_before_decoding() {
    let mut meter = BlockGasMeter::with_limits(19, 100);
    let context = run_tx(&[0; 10], &mut meter, WriteLog::new()).unwrap();
    assert_eq!(meter.transaction_gas, 20);
    assert!(context.is_refused());
    assert_eq!(context.gas_error, Some(GasError::TransactionGasExceeded));
    assert_eq!(context.gas_meter.transaction_gas, 20);
}

#[test]
fn run_tx_with_refused_compiling_fee_is_refused() {
    let mut meter = BlockGasMeter::with_limits(22, 100);
    let context = run_tx(&encode(&[0; 5], Some(&[9])), &mut meter, WriteLog::new()).unwrap();
    assert_eq!(meter.transaction_gas, 25);
    assert_eq!(context.gas_error, Some(GasError::TransactionGasExceeded));
    assert_eq!(context.gas_meter.transaction_gas, 25);
}

#[test]
fn runner_failure_aborts_the_transaction() {
    let mut context =
        run_tx(&encode(&[1], None), &mut BlockGasMeter::default(), WriteLog::new()).unwrap();
    let storage = Storage::new();
    assert_eq!(
        context.prepare_vps(&storage, Err("trap".to_string())),
        Err(Error::TxRunnerError("trap".to_string()))
    );
}

#[test]
fn block_limit_gives_no_gas() {
    let mut meter = BlockGasMeter::with_limits(100, 10);
    let bytes = encode(&[1], Some(&[0; 5]));
    assert_eq!(bytes.len(), 10);
    let mut context = run_tx(&bytes, &mut meter, WriteLog::new()).unwrap();
    context.prepare_vps(&Storage::new(), Ok(())).unwrap();
    let (result, _, meter) = context.finish(&vec![], false);
    assert_eq!(result.gas_used, 0);
    assert!(!result.valid);
    assert_eq!(meter.block_gas, 21);
}

#[test]
fn a_result_is_valid_without_rejection_and_with_gas() {
    let valid = TxResult::new(Ok(5), VpsResult::default());
    assert!(valid.valid);
    assert!(valid.is_tx_correct());
    assert_eq!(valid.gas_used, 5);
    let no_gas = TxResult::new(Ok(0), VpsResult::default());
    assert!(!no_gas.valid);
    let refused = TxResult::new(Err(Error::GasError(GasError::BlockGasExceeded)), VpsResult::default());
    assert!(!refused.valid);
    assert_eq!(refused.gas_used, 0);
    let mut rejected = VpsResult::default();
    rejected.rejected_vps.insert(established("a"));
    let invalid = TxResult::new(Ok(5), rejected);
    assert!(!invalid.valid);
    assert_eq!(invalid.gas_used, 5);
}

#[test]
fn a_result_in_words() {
    let result = TxResult::new(Ok(1234), VpsResult::default());
    assert_eq!(
        result.to_string(),
        "Transaction is valid: true. Gas used: 1234, vps: Vps -> accepted: []. rejected: [], \
         keys: [], gas_used: [], error: false"
    );
}

#[test]
fn numbers_and_lists_in_text() {
    assert_eq!(u64_to_string(0), "0");
    assert_eq!(u64_to_string(7), "7");
    assert_eq!(u64_to_string(10), "10");
    assert_eq!(u64_to_string(1234567890), "1234567890");
    assert_eq!(u64_to_string(u64::MAX), "18446744073709551615");
    assert_eq!(bool_to_string(true), "true");
    assert_eq!(bool_to_string(false), "false");
    assert_eq!(list_to_string(&vec![]), "[]");
    assert_eq!(list_to_string(&vec!["a".to_string()]), "[a]");
    assert_eq!(list_to_string(&vec!["a".to_string(), "b".to_string()]), "[a, b]");
    assert_eq!(numbers_to_strings(&vec![1, 20]), vec!["1", "20"]);
}

#[test]
fn a_transaction_without_code_does_not_run() {
    let mut context = run_tx(&[], &mut BlockGasMeter::default(), WriteLog::new()).unwrap();
    assert_eq!(
        context.prepare_vps(&Storage::new(), Ok(())),
        Err(Error::TxRunnerError("the transaction has no code".to_string()))
    );
    let mut with_data =
        run_tx(&encode(&[], Some(&[1, 2])), &mut BlockGasMeter::default(), WriteLog::new()).unwrap();
    assert_eq!(
        with_data.prepare_vps(&Storage::new(), Err("trap".to_string())),
        Err(Error::TxRunnerError("trap".to_string()))
    );
    let mut refused =
        run_tx(&[], &mut BlockGasMeter::with_limits(0, 0), WriteLog::new()).unwrap();
    assert_eq!(refused.charge_gas(1), Err(GasError::TransactionGasExceeded));
    assert_eq!(refused.prepare_vps(&Storage::new(), Ok(())), Ok(()));
}

#[test]
fn apply_mode_counts_every_predicate() {
    let mut meter = BlockGasMeter::default();
    let jobs = vec![job("a", 0), job("b", 0), VpJob { address: established("c"), keys: vec![], vp: None }];
    let rejecting = VpOutcome { verdict: VpVerdict::Rejected, gas_meter: VpGasMeter::with_limit(0, u64::MAX).clone_with(7) };
    let outcomes = vec![rejecting, accepted(5), accepted(9)];
    let result = check_vps(&jobs, &outcomes, &mut meter, false).unwrap();
    assert_eq!(result.gas_used, vec![7, 5, 0]);
    assert_eq!(result.rejected_vps.items, vec![established("a"), established("c")]);
    assert_eq!(result.accepted_vps.items, vec![established("b")]);
    assert!(result.have_error);
    assert_eq!(meter.transaction_gas, 8);
    let mut dry_meter = BlockGasMeter::default();
    let dry = check_vps(&jobs, &outcomes, &mut dry_meter, true).unwrap();
    assert_eq!(dry.gas_used, result.gas_used);
    assert_eq!(dry.rejected_vps.items, result.rejected_vps.items);
    assert_eq!(dry.accepted_vps.items, result.accepted_vps.items);
    assert_eq!(dry_meter, meter);
}
