use ledger_shell::address::Address;
use ledger_shell::gas::{
    BlockGasMeter, GasError, VpGasMeter, BASE_TX_FEE_PER_BYTE, COMPILE_FEE_PER_BYTE,
    TRANSACTION_GAS_LIMIT,
};
use ledger_shell::key::Key;
use ledger_shell::shell::{AbciMsg, MempoolTxType, Shell, ShellAction, ShellState};
use ledger_shell::storage::{BlockHash, BlockHeight};
use ledger_shell::tx::{Error, Tx, TxContext};
use ledger_shell::vp::{VpOutcome, VpVerdict};
use ledger_shell::wire::DecodeError;

fn key(text: &str) -> Key {
    Key::parse(text.to_string()).unwrap()
}

fn established(id: &str) -> Address {
    Address::Established(id.to_string())
}

fn amount(value: u64) -> Vec<u8> {
    value.to_le_bytes().to_vec()
}

fn read_amount(bytes: Option<Vec<u8>>) -> u64 {
    let bytes = bytes.unwrap();
    let mut buffer = [0u8; 8];
    buffer.copy_from_slice(&bytes);
    u64::from_le_bytes(buffer)
}

fn genesis_shell() -> Shell {
    let mut shell = Shell::new();
    for owner in ["alan", "ada"] {
        shell.storage.write(&Key::validity_predicate(&established(owner)), vec![0xaa, 0xbb, 0xcc]);
    }
    shell
}

fn encode(code: &[u8], data: Option<&[u8]>) -> Vec<u8> {
    let mut bytes = Vec::new();
    if !code.is_empty() {
        prost::encoding::bytes::encode(1, &code.to_vec(), &mut bytes);
    }
    if let Some(data) = data {
        prost::encoding::bytes::encode(2, &data.to_vec(), &mut bytes);
    }
    bytes
}

fn transfer_tx() -> (Vec<u8>, Tx) {
    let tx = Tx { code: vec![1, 2, 3, 4, 5], data: Some(vec![9]) };
    (encode(&tx.code, tx.data.as_deref()), tx)
}

fn run_transfer(shell: &Shell, context: &mut TxContext) {
    let from = key("@alan/balance/eth");
    let to = key("@ada/balance/eth");
    let source = read_amount(context.read(&shell.storage, &from));
    let target = read_amount(context.read(&shell.storage, &to));
    context.write(&from, amount(source - 10));
    context.write(&to, amount(target + 10));
}

fn outcomes_for(context: &TxContext, verdict_of: &dyn Fn(&Address) -> VpVerdict, gas: u64) -> Vec<VpOutcome> {
    context
        .jobs
        .iter()
        .map(|job| {
            let mut gas_meter = VpGasMeter::new(context.initial_gas());
            gas_meter.add(gas).unwrap();
            VpOutcome { verdict: verdict_of(&job.address), gas_meter }
        })
        .collect()
}

#[test]
fn genesis_balances() {
    let shell = Shell::new();
    assert_eq!(shell.state, ShellState::Ready);
    assert_eq!(read_amount(shell.storage.read(&key("@ada/balance/eth"))), 10000);
    assert_eq!(read_amount(shell.storage.read(&key("@ada/balance/xtz"))), 10000);
    assert_eq!(read_amount(shell.storage.read(&key("@alan/balance/eth"))), 100);
    assert_eq!(read_amount(shell.storage.read(&key("@alan/balance/xtz"))), 100);
    assert_eq!(
        shell.storage.read(&key("@alan/balance/eth")),
        Some(vec![0x64, 0, 0, 0, 0, 0, 0, 0])
    );
    assert_eq!(shell.last_state(), None);
}

#[test]
fn init_and_read_back() {
    let mut shell = Shell::new();
    assert_eq!(shell.last_state(), None);
    assert_eq!(shell.begin_block(BlockHash(vec![0; 32]), BlockHeight(1)), Ok(()));
    let result = shell.begin_apply_tx(&[0x0a, 0x05, 1]);
    assert_eq!(result.err(), Some(Error::TxDecodingError(DecodeError::BufferUnderflow)));
    let context = shell.begin_apply_tx(&encode(&[], None)).unwrap();
    assert_eq!(context.tx, Tx { code: vec![], data: None });
    let action = shell.tx_ran(context, Err("no code".to_string()), false);
    match action {
        ShellAction::ReplyApplied(Err(text)) => {
            assert_eq!(text, "Transaction runner error: no code")
        }
        other => panic!("unexpected action {:?}", other),
    }
    let context = shell.begin_apply_tx(&encode(&[], None)).unwrap();
    match shell.tx_ran(context, Ok(()), false) {
        ShellAction::ReplyApplied(Err(text)) => {
            assert_eq!(text, "Transaction runner error: the transaction has no code")
        }
        other => panic!("unexpected action {:?}", other),
    }
    assert_eq!(shell.write_log.block_write_log.len(), 0);
    assert_eq!(shell.gas_meter, BlockGasMeter::default());
    shell.end_block(BlockHeight(1));
    let root1 = shell.commit();
    assert_eq!(shell.last_state(), Some((root1, 1)));
    assert_eq!(shell.state, ShellState::Ready);
}

#[test]
fn transfer_success() {
    let mut shell = genesis_shell();
    shell.begin_block(BlockHash(vec![0; 32]), BlockHeight(1)).unwrap();
    let (bytes, tx) = transfer_tx();
    let mut context = shell.begin_apply_tx(&bytes).unwrap();
    run_transfer(&shell, &mut context);
    context.prepare_vps(&shell.storage, Ok(())).unwrap();
    let verifiers: Vec<&Address> = context.jobs.iter().map(|job| &job.address).collect();
    assert_eq!(verifiers, vec![&established("alan"), &established("ada")]);
    assert_eq!(context.jobs[0].keys, vec!["@alan/balance/eth"]);
    assert_eq!(context.jobs[1].keys, vec!["@ada/balance/eth"]);
    assert_eq!(context.jobs[0].vp, Some(vec![0xaa, 0xbb, 0xcc]));
    let outcomes = outcomes_for(&context, &|_| VpVerdict::Accepted, 20);
    let gas_used = shell.apply_tx(context, &outcomes);
    assert!(gas_used > 0);
    let expected = bytes.len() as u64 * BASE_TX_FEE_PER_BYTE
        + (5 + 3 + 3) * COMPILE_FEE_PER_BYTE
        + 20
        + 2;
    assert_eq!(gas_used, expected);
    assert_eq!(shell.gas_meter.block_gas, expected);
    assert_eq!(shell.gas_meter.transaction_gas, 0);
    assert_eq!(read_amount(shell.write_log.read(&shell.storage, &key("@alan/balance/eth"))), 90);
    shell.commit();
    assert_eq!(read_amount(shell.storage.read(&key("@alan/balance/eth"))), 90);
    assert_eq!(read_amount(shell.storage.read(&key("@ada/balance/eth"))), 10010);
}

#[test]
fn transfer_rejected_by_vp() {
    let mut shell = genesis_shell();
    shell.begin_block(BlockHash(vec![0; 32]), BlockHeight(1)).unwrap();
    let (bytes, tx) = transfer_tx();
    let mut context = shell.begin_apply_tx(&bytes).unwrap();
    run_transfer(&shell, &mut context);
    context.prepare_vps(&shell.storage, Ok(())).unwrap();
    let alan = established("alan");
    let outcomes = outcomes_for(
        &context,
        &|address| if *address == alan { VpVerdict::Rejected } else { VpVerdict::Accepted },
        20,
    );
    let gas_used = shell.apply_tx(context, &outcomes);
    assert_eq!(gas_used, bytes.len() as u64 * BASE_TX_FEE_PER_BYTE + 11 + 20 + 2);
    assert_eq!(shell.write_log.tx_write_log.len(), 0);
    assert_eq!(read_amount(shell.write_log.read(&shell.storage, &key("@alan/balance/eth"))), 100);
    assert_eq!(shell.write_log.block_write_log.len(), 0);
    shell.commit();
    assert_eq!(read_amount(shell.storage.read(&key("@alan/balance/eth"))), 100);
    assert_eq!(read_amount(shell.storage.read(&key("@ada/balance/eth"))), 10000);
}

#[test]
fn rejected_transfer_is_not_valid() {
    let shell = genesis_shell();
    let (bytes, tx) = transfer_tx();
    let mut context = shell.begin_dry_run_tx(&bytes).unwrap();
    run_transfer(&shell, &mut context);
    context.prepare_vps(&shell.storage, Ok(())).unwrap();
    let outcomes = outcomes_for(&context, &|_| VpVerdict::Rejected, 20);
    let (result, _, _) = context.finish(&outcomes, false);
    assert!(!result.valid);
    assert!(!result.is_tx_correct());
    assert!(result.gas_used > 0);
    assert_eq!(result.vps.rejected_vps.items, vec![established("alan"), established("ada")]);
    assert_eq!(result.vps.gas_used, vec![20, 20]);
    assert_eq!(result.gas_used, bytes.len() as u64 * BASE_TX_FEE_PER_BYTE + 11 + 20 + 2);
}

#[test]
fn gas_overflow() {
    let mut shell = genesis_shell();
    shell.begin_block(BlockHash(vec![0; 32]), BlockHeight(1)).unwrap();
    let (bytes, tx) = transfer_tx();
    let mut context = shell.begin_apply_tx(&bytes).unwrap();
    run_transfer(&shell, &mut context);
    assert_eq!(context.charge_gas(u64::MAX - 1), Err(GasError::GasOverflow));
    assert_eq!(context.charge_gas(1), Err(GasError::GasOverflow));
    assert!(context.is_refused());
    let action = shell.tx_ran(context, Err("out of gas".to_string()), false);
    let context = match action {
        ShellAction::RunVps { context, dry_run: false } => context,
        other => panic!("unexpected action {:?}", other),
    };
    assert!(context.jobs.is_empty());
    match shell.vps_ran(context, &vec![], false) {
        ShellAction::ReplyApplied(reply) => assert_eq!(reply, Ok(0)),
        other => panic!("unexpected action {:?}", other),
    }
    assert_eq!(shell.write_log.tx_write_log.len(), 0);
    assert_eq!(shell.write_log.block_write_log.len(), 0);
    assert_eq!(read_amount(shell.write_log.read(&shell.storage, &key("@alan/balance/eth"))), 100);
    assert_eq!(shell.gas_meter.transaction_gas, 0);
}

#[test]
fn gas_overflow_result_is_invalid_with_no_gas() {
    let shell = genesis_shell();
    let (bytes, tx) = transfer_tx();
    let mut context = shell.begin_dry_run_tx(&bytes).unwrap();
    assert_eq!(context.charge_gas(u64::MAX - 1), Err(GasError::GasOverflow));
    context.prepare_vps(&shell.storage, Ok(())).unwrap();
    let (result, _, _) = context.finish(&vec![], false);
    assert_eq!(result.gas_used, 0);
    assert!(!result.valid);
    assert!(result.vps.rejected_vps.is_empty());
}

#[test]
fn transaction_gas_limit_poisons_the_transaction() {
    let mut shell = genesis_shell();
    shell.begin_block(BlockHash(vec![0; 32]), BlockHeight(1)).unwrap();
    let (bytes, tx) = transfer_tx();
    let mut context = shell.begin_apply_tx(&bytes).unwrap();
    run_transfer(&shell, &mut context);
    assert_eq!(
        context.charge_gas(TRANSACTION_GAS_LIMIT),
        Err(GasError::TransactionGasExceeded)
    );
    context.prepare_vps(&shell.storage, Ok(())).unwrap();
    assert_eq!(shell.apply_tx(context, &vec![]), 0);
    assert_eq!(shell.write_log.block_write_log.len(), 0);
}

#[test]
fn dry_run_is_pure() {
    let mut shell = genesis_shell();
    let (bytes, tx) = transfer_tx();
    let root_before = shell.storage.merkle_root();
    let action = shell.step(AbciMsg::AbciQuery {
        path: "dry_run_tx".to_string(),
        data: bytes.clone(),
        at_height: 0,
        prove: false,
    });
    let mut context = match action {
        ShellAction::RunTx { context, dry_run: true } => context,
        other => panic!("unexpected action {:?}", other),
    };
    run_transfer(&shell, &mut context);
    let context = match shell.tx_ran(context, Ok(()), true) {
        ShellAction::RunVps { context, dry_run: true } => context,
        other => panic!("unexpected action {:?}", other),
    };
    let outcomes = outcomes_for(&context, &|_| VpVerdict::Accepted, 20);
    let gas = bytes.len() as u64 * BASE_TX_FEE_PER_BYTE + 11 + 20 + 2;
    match shell.vps_ran(context, &outcomes, true) {
        ShellAction::ReplyQueried(Ok(text)) => assert_eq!(
            text,
            format!(
                "Transaction is valid: true. Gas used: {}, vps: Vps -> accepted: [@alan, @ada]. \
                 rejected: [], keys: [@alan/balance/eth, @ada/balance/eth], gas_used: [20, 20], \
                 error: false",
                gas
            )
        ),
        other => panic!("unexpected action {:?}", other),
    }
    assert_eq!(shell.last_state(), None);
    assert_eq!(shell.storage.merkle_root(), root_before);
    assert_eq!(shell.write_log.tx_write_log.len(), 0);
    assert_eq!(shell.write_log.block_write_log.len(), 0);
    assert_eq!(shell.gas_meter, BlockGasMeter::default());
    assert_eq!(shell.state, ShellState::Ready);
    assert_eq!(read_amount(shell.storage.read(&key("@alan/balance/eth"))), 100);
}

#[test]
fn dry_run_runs_every_predicate() {
    let mut shell = genesis_shell();
    let (bytes, tx) = transfer_tx();
    let mut context = shell.begin_dry_run_tx(&bytes).unwrap();
    run_transfer(&shell, &mut context);
    context.prepare_vps(&shell.storage, Ok(())).unwrap();
    let outcomes = outcomes_for(&context, &|_| VpVerdict::Rejected, 20);
    let text = shell.dry_run_tx(context, &outcomes);
    assert!(text.starts_with("Transaction is valid: false. Gas used: "));
    assert!(text.contains("rejected: [@alan, @ada]"));
    assert!(text.contains("gas_used: [20, 20]"));
}

#[test]
fn parallel_gas_pricing() {
    let mut shell = genesis_shell();
    shell.storage.write(&Key::validity_predicate(&established("bob")), vec![1, 2]);
    shell.begin_block(BlockHash(vec![0; 32]), BlockHeight(1)).unwrap();
    let bytes = encode(&[0; 7], Some(&[0; 39]));
    assert_eq!(bytes.len(), 50);
    let mut context = shell.begin_apply_tx(&bytes).unwrap();
    context.write(&key("@alan/x"), vec![1]);
    context.write(&key("@ada/x"), vec![1]);
    context.write(&key("@bob/x"), vec![1]);
    context.prepare_vps(&shell.storage, Ok(())).unwrap();
    let base_fee = 50 * BASE_TX_FEE_PER_BYTE;
    let compile_fees = (7 + 3 + 3 + 2) * COMPILE_FEE_PER_BYTE;
    assert_eq!(context.initial_gas(), base_fee + compile_fees);
    let costs = [40u64, 100, 30];
    let outcomes: Vec<VpOutcome> = costs
        .iter()
        .map(|cost| VpOutcome {
            verdict: VpVerdict::Accepted,
            gas_meter: VpGasMeter {
                initial_gas: context.initial_gas(),
                vp_gas: *cost,
                limit: TRANSACTION_GAS_LIMIT,
            },
        })
        .collect();
    let gas_used = shell.apply_tx(context, &outcomes);
    assert_eq!(gas_used, base_fee + compile_fees + 100 + 7);
    assert_eq!(gas_used, 100 + 15 + 100 + 7);
}

#[test]
fn finished_result_has_gas_from_largest_to_smallest() {
    let shell = genesis_shell();
    let bytes = encode(&[7], Some(&[0; 2]));
    assert_eq!(bytes.len(), 7);
    let mut context = shell.begin_dry_run_tx(&bytes).unwrap();
    context.write(&key("@alan/x"), vec![1]);
    context.write(&key("@ada/x"), vec![1]);
    context.insert_verifier(&established("carol"));
    context.prepare_vps(&shell.storage, Ok(())).unwrap();
    let verifiers: Vec<String> = context.jobs.iter().map(|job| job.address.to_string()).collect();
    assert_eq!(verifiers, vec!["@carol", "@alan", "@ada"]);
    assert_eq!(context.jobs[0].vp, None);
    assert!(context.jobs[0].keys.is_empty());
    let outcomes = outcomes_for(&context, &|_| VpVerdict::Accepted, 5);
    let (result, _, meter) = context.finish(&outcomes, true);
    assert!(!result.valid);
    assert!(result.vps.have_error);
    assert_eq!(result.vps.rejected_vps.items, vec![established("carol")]);
    assert_eq!(result.vps.gas_used, vec![5, 5, 0]);
    assert_eq!(result.gas_used, 14 + 7 + 5 + 1);
    assert_eq!(meter.block_gas, result.gas_used);
}

#[test]
fn identical_inputs_give_identical_roots_and_gas() {
    let mut results = Vec::new();
    for _ in 0..2 {
        let mut shell = genesis_shell();
        shell.begin_block(BlockHash(vec![0; 32]), BlockHeight(1)).unwrap();
        let (bytes, tx) = transfer_tx();
        let mut context = shell.begin_apply_tx(&bytes).unwrap();
        run_transfer(&shell, &mut context);
        let account = context.init_account(vec![1]);
        context.prepare_vps(&shell.storage, Ok(())).unwrap();
        let outcomes: Vec<VpOutcome> = context
            .jobs
            .iter()
            .map(|job| VpOutcome {
                verdict: if job.vp.is_some() { VpVerdict::Accepted } else { VpVerdict::HostError },
                gas_meter: VpGasMeter::new(context.initial_gas()),
            })
            .collect();
        let gas_used = shell.apply_tx(context, &outcomes);
        let root = shell.commit();
        results.push((gas_used, root, account));
    }
    assert_eq!(results[0], results[1]);
}

#[test]
fn messages_must_fit_the_state() {
    let mut shell = Shell::new();
    assert_eq!(shell.begin_apply_tx(&[]).err(), Some(Error::UnexpectedMessage));
    assert_eq!(shell.init_chain("chain".to_string()), Ok(()));
    assert_eq!(shell.storage.chain_id, "chain");
    assert_eq!(shell.begin_block(BlockHash(vec![1]), BlockHeight(3)), Ok(()));
    assert_eq!(shell.state, ShellState::InBlock(3));
    assert_eq!(
        shell.begin_block(BlockHash(vec![1]), BlockHeight(4)),
        Err(Error::UnexpectedMessage)
    );
    assert_eq!(shell.init_chain("other".to_string()), Err(Error::UnexpectedMessage));
    assert_eq!(shell.storage.chain_id, "chain");
    let root = shell.commit();
    assert_eq!(shell.last_state(), Some((root.clone(), 3)));
    assert_eq!(shell.commit(), root);
    assert_eq!(shell.last_state(), Some((root, 3)));
    assert!(matches!(
        shell.begin_block(BlockHash(vec![1]), BlockHeight(3)),
        Err(Error::StorageError(_))
    ));
    assert_eq!(shell.state, ShellState::Ready);
    assert_eq!(shell.begin_block(BlockHash(vec![1]), BlockHeight(4)), Ok(()));
}

#[test]
fn mempool_validation_only_decodes() {
    let shell = Shell::new();
    let root = shell.storage.merkle_root();
    assert_eq!(shell.mempool_validate(&encode(&[1], None), MempoolTxType::NewTransaction), Ok(()));
    assert_eq!(
        shell.mempool_validate(&[0x80], MempoolTxType::RecheckTransaction),
        Err(Error::TxDecodingError(DecodeError::InvalidVarint))
    );
    assert_eq!(shell.storage.merkle_root(), root);
}

#[test]
fn step_answers_each_message() {
    let mut shell = Shell::new();
    assert!(matches!(shell.step(AbciMsg::GetInfo), ShellAction::ReplyInfo(None)));
    assert!(matches!(
        shell.step(AbciMsg::InitChain { chain_id: "c".to_string() }),
        ShellAction::ReplyDone
    ));
    assert!(matches!(
        shell.step(AbciMsg::MempoolValidate { tx: vec![1], kind: MempoolTxType::NewTransaction }),
        ShellAction::ReplyValidated(Err(_))
    ));
    assert!(matches!(
        shell.step(AbciMsg::ApplyTx { tx: vec![] }),
        ShellAction::ReplyApplied(Err(_))
    ));
    assert!(matches!(
        shell.step(AbciMsg::BeginBlock { hash: BlockHash(vec![]), height: BlockHeight(1) }),
        ShellAction::ReplyDone
    ));
    assert!(matches!(
        shell.step(AbciMsg::BeginBlock { hash: BlockHash(vec![]), height: BlockHeight(2) }),
        ShellAction::Fail(Error::UnexpectedMessage)
    ));
    assert!(matches!(
        shell.step(AbciMsg::ApplyTx { tx: vec![0x12, 0x00] }),
        ShellAction::RunTx { dry_run: false, .. }
    ));
    assert!(matches!(
        shell.step(AbciMsg::EndBlock { height: BlockHeight(1) }),
        ShellAction::ReplyDone
    ));
    assert!(matches!(
        shell.step(AbciMsg::AbciQuery {
            path: "other".to_string(),
            data: vec![],
            at_height: 0,
            prove: false
        }),
        ShellAction::NoReply
    ));
    let root = match shell.step(AbciMsg::CommitBlock) {
        ShellAction::ReplyCommitted(root) => root,
        other => panic!("unexpected action {:?}", other),
    };
    match shell.step(AbciMsg::GetInfo) {
        ShellAction::ReplyInfo(Some((last, height))) => {
            assert_eq!(last, root);
            assert_eq!(height, 1);
        }
        other => panic!("unexpected action {:?}", other),
    }
}

#[test]
fn events_of_accepted_transactions_are_handed_out() {
    let mut shell = genesis_shell();
    shell.begin_block(BlockHash(vec![0; 32]), BlockHeight(1)).unwrap();
    let mut accepted = shell.begin_apply_tx(&encode(&[1], Some(&[1]))).unwrap();
    accepted.write(&key("@alan/x"), vec![1]);
    assert_eq!(accepted.emit_event(ledger_shell::event::Event::applied_tx()), Ok(()));
    accepted.prepare_vps(&shell.storage, Ok(())).unwrap();
    let outcomes = outcomes_for(&accepted, &|_| VpVerdict::Accepted, 1);
    assert!(shell.apply_tx(accepted, &outcomes) > 0);
    let mut rejected = shell.begin_apply_tx(&encode(&[1], Some(&[2]))).unwrap();
    rejected.write(&key("@alan/y"), vec![1]);
    assert_eq!(rejected.emit_event(ledger_shell::event::Event::applied_tx()), Ok(()));
    rejected.prepare_vps(&shell.storage, Ok(())).unwrap();
    let outcomes = outcomes_for(&rejected, &|_| VpVerdict::Rejected, 1);
    assert!(shell.apply_tx(rejected, &outcomes) > 0);
    assert_eq!(shell.take_events(), vec![ledger_shell::event::Event::applied_tx()]);
    assert_eq!(shell.take_events(), vec![]);
}

#[test]
fn errors_in_words() {
    assert_eq!(Error::GasError(GasError::GasOverflow).to_string(), "Gas error: Overflow during gas operations");
    assert_eq!(Error::TxRunnerError("trap".to_string()).to_string(), "Transaction runner error: trap");
    assert_eq!(
        Error::TxDecodingError(DecodeError::InvalidVarint).to_string(),
        "Error decoding a transaction from bytes: invalid varint"
    );
    assert_eq!(Error::RemoveDB("x".to_string()).to_string(), "Error removing the DB data: x");
    assert_eq!(
        Error::AbciChannelSendError("GetInfo".to_string()).to_string(),
        "Shell ABCI channel sender error: GetInfo"
    );
    assert_eq!(
        Error::AbciChannelRecvError("closed".to_string()).to_string(),
        "Shell ABCI channel receiver error: closed"
    );
    assert_eq!(Error::UnexpectedMessage.to_string(), "Unexpected message");
}
