//! The shell: the state that the consensus engine drives block by block.
//!
//! The shell is either ready for a block or in one. A block begins, takes
//! transactions, ends and is committed. A transaction is applied in steps,
//! because its code and its validity predicates run outside this library:
//! [`Shell::begin_apply_tx`] hands out the context in which the code runs,
//! and [`Shell::apply_tx`] takes the context back with what the predicates
//! decided.

use crate::address::Address;
use crate::event::Event;
use crate::gas::BlockGasMeter;
use crate::key::{DbKeySeg, Key, KeySegView};
use crate::keymap::KeyView;
use crate::storage::{BlockHash, BlockHeight, MerkleRoot, Storage, StorageView};
use crate::tx::{
    finished_meter, finished_order, finished_result, run_tx, runner_failure, start_error,
    started_context, tx_result_text, Error, Tx, TxContext,
};
use crate::wire::{decode_tx, DecodeError, TxView};
use crate::vp::VpOutcome;
use crate::write_log::{
    apply_block, apply_change, event_views, lemma_commit_tx_preserves_reads, merge_keys,
    merge_scopes, read_value, ModificationView, WriteLog, WriteLogView,
};
use vstd::prelude::*;

verus! {

/// The path of the query that runs a transaction without applying it.
pub const DRY_RUN_TX_PATH: &'static str = "dry_run_tx";

/// The middle segment of the key of a balance.
pub const BALANCE_SEGMENT: &'static str = "balance";

/// Where the shell stands in the life of a block.
#[derive(Clone, Copy, Debug, PartialEq, Eq, Structural)]
pub enum ShellState {
    /// No block is being built.
    Ready,
    /// The block of this height is being built.
    InBlock(u64),
}

/// Why a transaction is validated for the pool of waiting transactions.
#[derive(Clone, Copy, Debug, PartialEq, Eq, Structural)]
pub enum MempoolTxType {
    /// A transaction that this node has not validated before.
    NewTransaction,
    /// A transaction that was validated before and may need to be validated
    /// again.
    RecheckTransaction,
}

/// What a [`Shell`] stands for in contracts.
pub struct ShellView {
    pub storage: StorageView,
    pub gas_meter: BlockGasMeter,
    pub write_log: WriteLogView,
    pub state: ShellState,
}

/// The shell.
#[derive(Debug)]
pub struct Shell {
    pub storage: Storage,
    pub gas_meter: BlockGasMeter,
    pub write_log: WriteLog,
    pub state: ShellState,
}

impl View for Shell {
    type V = ShellView;

    open spec fn view(&self) -> ShellView {
        ShellView {
            storage: self.storage@,
            gas_meter: self.gas_meter,
            write_log: self.write_log@,
            state: self.state,
        }
    }
}

/// The key of the balance that `owner` holds of `token`.
pub open spec fn balance_key(owner: Seq<char>, token: Seq<char>) -> KeyView {
    seq![
        KeySegView::AddressSeg(crate::address::AddressView::Established(owner)),
        KeySegView::StringSeg(BALANCE_SEGMENT@),
        KeySegView::StringSeg(token),
    ]
}

/// An amount in eight bytes, low byte first.
pub open spec fn amount_bytes(low: u8, high: u8) -> Seq<u8> {
    seq![low, high, 0u8, 0u8, 0u8, 0u8, 0u8, 0u8]
}

/// The store with which every chain starts: two accounts with balances of
/// two tokens.
pub open spec fn genesis_storage() -> StorageView {
    let empty = StorageView {
        map: Map::empty(),
        root: Seq::empty(),
        chain_id: Seq::empty(),
        block_hash: Seq::empty(),
        block_height: 0,
        last_committed: None,
    };
    let first = apply_change(
        empty,
        balance_key("ada"@, "eth"@),
        ModificationView::Write(amount_bytes(0x10, 0x27)),
    );
    let second = apply_change(
        first,
        balance_key("ada"@, "xtz"@),
        ModificationView::Write(amount_bytes(0x10, 0x27)),
    );
    let third = apply_change(
        second,
        balance_key("alan"@, "eth"@),
        ModificationView::Write(amount_bytes(0x64, 0)),
    );
    apply_change(
        third,
        balance_key("alan"@, "xtz"@),
        ModificationView::Write(amount_bytes(0x64, 0)),
    )
}

/// The store after the block was committed: the changes of the block are
/// applied, and root and height of the block become the last committed
/// state.
pub open spec fn committed_storage(storage: StorageView, write_log: WriteLogView) -> StorageView {
    let applied = apply_block(storage, write_log.block_keys, write_log.block);
    StorageView { last_committed: Some((applied.root, applied.block_height)), ..applied }
}

/// The shell after a transaction was finished in the block: the changes of
/// a valid transaction are kept, those of an invalid one are not, and the
/// meter is ready for the next transaction.
pub open spec fn applied_shell(
    shell: ShellView,
    context: crate::tx::TxContextView,
    outcomes: Seq<VpOutcome>,
) -> ShellView {
    let result = finished_result(context, outcomes);
    let meter = finished_meter(context, outcomes);
    ShellView {
        gas_meter: BlockGasMeter { transaction_gas: 0, ..meter },
        write_log: if result.valid {
            WriteLogView {
                tx: Map::empty(),
                tx_keys: Seq::empty(),
                block: merge_scopes(context.write_log.block, context.write_log.tx),
                block_keys: merge_keys(
                    context.write_log.block_keys,
                    context.write_log.tx_keys,
                    context.write_log.tx,
                ),
                committed_events: context.write_log.events.len() as int,
                ..context.write_log
            }
        } else {
            shell.write_log
        },
        ..shell
    }
}

/// After a block was committed, the last committed state is the root and
/// the height of that block.
pub proof fn lemma_info_after_commit(storage: StorageView, write_log: WriteLogView)
    ensures
        committed_storage(storage, write_log).last_committed == Some(
            (
                committed_storage(storage, write_log).root,
                committed_storage(storage, write_log).block_height,
            ),
        ),
        committed_storage(storage, write_log).block_height == storage.block_height,
{
    lemma_apply_block_keeps_height(storage, write_log.block_keys, write_log.block);
}

/// Applying the changes of a block changes neither the block that is being
/// built nor the last committed state.
pub proof fn lemma_apply_block_keeps_height(
    storage: StorageView,
    keys: Seq<KeyView>,
    block: crate::write_log::Scope,
)
    ensures
        apply_block(storage, keys, block).block_height == storage.block_height,
        apply_block(storage, keys, block).block_hash == storage.block_hash,
        apply_block(storage, keys, block).chain_id == storage.chain_id,
        apply_block(storage, keys, block).last_committed == storage.last_committed,
    decreases keys.len(),
{
    if keys.len() > 0 {
        lemma_apply_block_keeps_height(storage, keys.drop_last(), block);
    }
}

/// Two shells in the same state that finish the same transaction with the
/// same outcomes report the same gas and commit the same root.
pub proof fn lemma_same_inputs_same_results(
    a: ShellView,
    b: ShellView,
    context: crate::tx::TxContextView,
    outcomes: Seq<VpOutcome>,
)
    requires
        a == b,
    ensures
        applied_shell(a, context, outcomes) == applied_shell(b, context, outcomes),
        committed_storage(
            applied_shell(a, context, outcomes).storage,
            applied_shell(a, context, outcomes).write_log,
        ).root == committed_storage(
            applied_shell(b, context, outcomes).storage,
            applied_shell(b, context, outcomes).write_log,
        ).root,
{
}

fn genesis_balance_key(owner: &str, token: &str) -> (key: Key)
    ensures
        key@ == balance_key(owner@, token@),
{
    let mut segments: Vec<DbKeySeg> = Vec::new();
    segments.push(DbKeySeg::AddressSeg(Address::Established(String::from_str(owner))));
    segments.push(DbKeySeg::StringSeg(String::from_str(BALANCE_SEGMENT)));
    segments.push(DbKeySeg::StringSeg(String::from_str(token)));
    let key = Key { segments };
    proof {
        assert(key@ =~= balance_key(owner@, token@));
    }
    key
}

fn genesis_amount(low: u8, high: u8) -> (bytes: Vec<u8>)
    ensures
        bytes@ == amount_bytes(low, high),
{
    let mut bytes: Vec<u8> = Vec::new();
    bytes.push(low);
    bytes.push(high);
    bytes.push(0);
    bytes.push(0);
    bytes.push(0);
    bytes.push(0);
    bytes.push(0);
    bytes.push(0);
    proof {
        assert(bytes@ =~= amount_bytes(low, high));
    }
    bytes
}

impl Shell {
    /// The store and the write log are well formed, and no transaction is
    /// half applied: the transaction layer of the write log is empty, and
    /// every event in it belongs to an accepted transaction.
    pub open spec fn wf(&self) -> bool {
        &&& self.storage.wf()
        &&& self.write_log.wf()
        &&& self@.write_log.tx == Map::<KeyView, ModificationView>::empty()
        &&& self@.write_log.tx_keys == Seq::<KeyView>::empty()
        &&& self@.write_log.committed_events == self@.write_log.events.len()
    }

    /// A shell over the genesis store, ready for the first block.
    pub fn new() -> (shell: Shell)
        ensures
            shell.wf(),
            shell@.storage == genesis_storage(),
            shell@.storage.last_committed.is_none(),
            shell@.gas_meter == BlockGasMeter::default_spec(),
            shell@.write_log == WriteLog::empty_view(),
            shell@.state == ShellState::Ready,
    {
        let mut storage = Storage::new();
        storage.write(&genesis_balance_key("ada", "eth"), genesis_amount(0x10, 0x27));
        storage.write(&genesis_balance_key("ada", "xtz"), genesis_amount(0x10, 0x27));
        storage.write(&genesis_balance_key("alan", "eth"), genesis_amount(0x64, 0));
        storage.write(&genesis_balance_key("alan", "xtz"), genesis_amount(0x64, 0));
        Shell {
            storage,
            gas_meter: BlockGasMeter::default(),
            write_log: WriteLog::new(),
            state: ShellState::Ready,
        }
    }

    /// Record the identifier of the chain. Only a shell that is ready takes
    /// it.
    pub fn init_chain(&mut self, chain_id: String) -> (result: Result<(), Error>)
        requires
            old(self).wf(),
        ensures
            final(self).wf(),
            match result {
                Ok(_) => old(self)@.state == ShellState::Ready && final(self)@ == (ShellView {
                    storage: StorageView { chain_id: chain_id@, ..old(self)@.storage },
                    ..old(self)@
                }),
                Err(e) => old(self)@.state != ShellState::Ready && final(self)@ == old(self)@ && e
                    == Error::UnexpectedMessage,
            },
    {
        match self.state {
            ShellState::Ready => {
                self.storage.set_chain_id(chain_id.as_str());
                Ok(())
            },
            ShellState::InBlock(_) => Err(Error::UnexpectedMessage),
        }
    }

    /// Validate a transaction for the pool of waiting transactions: it is
    /// accepted exactly when its bytes decode.
    pub fn mempool_validate(&self, tx_bytes: &[u8], _type: MempoolTxType) -> (result: Result<
        (),
        Error,
    >)
        ensures
            match result {
                Ok(_) => decode_tx(tx_bytes@).is_ok(),
                Err(e) => e matches Error::TxDecodingError(cause) && decode_tx(tx_bytes@) == Err::<
                    TxView,
                    DecodeError,
                >(cause),
            },
    {
        match Tx::decode(tx_bytes) {
            Ok(_) => Ok(()),
            Err(e) => Err(Error::TxDecodingError(e)),
        }
    }

    /// Begin a block. A shell that is in a block, or a height that is not
    /// above the last committed one, is an error and changes nothing.
    pub fn begin_block(&mut self, hash: BlockHash, height: BlockHeight) -> (result: Result<
        (),
        Error,
    >)
        requires
            old(self).wf(),
        ensures
            final(self).wf(),
            match result {
                Ok(_) => old(self)@.state == ShellState::Ready && !(
                old(self)@.storage.last_committed matches Some(last) && height.0 <= last.1)
                    && final(self)@ == (ShellView {
                    storage: StorageView {
                        block_hash: hash.0@,
                        block_height: height.0,
                        ..old(self)@.storage
                    },
                    gas_meter: BlockGasMeter {
                        block_gas: 0,
                        transaction_gas: 0,
                        ..old(self)@.gas_meter
                    },
                    state: ShellState::InBlock(height.0),
                    ..old(self)@
                }),
                Err(e) => final(self)@ == old(self)@ && if old(self)@.state
                    != ShellState::Ready {
                    e == Error::UnexpectedMessage
                } else {
                    (old(self)@.storage.last_committed matches Some(last) && height.0 <= last.1)
                        && e == Error::StorageError(
                        crate::storage::StorageError::HeightNotIncreasing,
                    )
                },
            },
    {
        match self.state {
            ShellState::InBlock(_) => Err(Error::UnexpectedMessage),
            ShellState::Ready => {
                let at: u64 = height.0;
                match self.storage.begin_block(hash, height) {
                    Err(e) => Err(Error::StorageError(e)),
                    Ok(_) => {
                        self.gas_meter.reset();
                        self.state = ShellState::InBlock(at);
                        Ok(())
                    },
                }
            },
        }
    }

    /// End a block. Nothing happens.
    pub fn end_block(&mut self, _height: BlockHeight)
        ensures
            *final(self) == *old(self),
    {
    }

    /// Commit the block: its changes go to the store, and the root of the
    /// store comes back. A shell that is in no block commits nothing and
    /// gives the root as it is.
    pub fn commit(&mut self) -> (root: MerkleRoot)
        requires
            old(self).wf(),
        ensures
            final(self).wf(),
            root.0@ == final(self)@.storage.root,
            final(self)@ == if old(self)@.state is InBlock {
                ShellView {
                    storage: committed_storage(old(self)@.storage, old(self)@.write_log),
                    write_log: WriteLogView {
                        block: Map::empty(),
                        block_keys: Seq::empty(),
                        ..old(self)@.write_log
                    },
                    state: ShellState::Ready,
                    ..old(self)@
                }
            } else {
                old(self)@
            },
    {
        match self.state {
            ShellState::Ready => {},
            ShellState::InBlock(_) => {
                self.write_log.commit_block(&mut self.storage);
                self.storage.commit();
                self.state = ShellState::Ready;
            },
        }
        self.storage.merkle_root()
    }

    /// Root and height of the last committed block, if any.
    pub fn last_state(&self) -> (state: Option<(MerkleRoot, u64)>)
        ensures
            match state {
                Some((root, height)) => self@.storage.last_committed == Some((root.0@, height)),
                None => self@.storage.last_committed.is_none(),
            },
    {
        self.storage.load_last_state()
    }

    /// Hand out the events of the accepted transactions in the order in
    /// which they were emitted.
    pub fn take_events(&mut self) -> (events: Vec<Event>)
        requires
            old(self).wf(),
        ensures
            final(self).wf(),
            event_views(events@) == old(self)@.write_log.events,
            final(self)@ == (ShellView {
                write_log: WriteLogView {
                    events: Seq::empty(),
                    committed_events: 0,
                    ..old(self)@.write_log
                },
                ..old(self)@
            }),
    {
        self.write_log.take_events()
    }

    /// Start to apply a transaction in the block: the context in which its
    /// code runs works on a copy of the write log. A shell that is in no
    /// block refuses.
    pub fn begin_apply_tx(&self, tx_bytes: &[u8]) -> (result: Result<TxContext, Error>)
        requires
            self.wf(),
        ensures
            match result {
                Ok(context) => self@.state is InBlock && context.wf() && start_error(
                    tx_bytes@,
                    self@.gas_meter,
                ).is_none() && context@ == started_context(
                    tx_bytes@,
                    self@.gas_meter,
                    self@.write_log,
                ),
                Err(e) => if self@.state is InBlock {
                    e matches Error::TxDecodingError(cause) && start_error(
                        tx_bytes@,
                        self@.gas_meter,
                    ) == Some(cause)
                } else {
                    e == Error::UnexpectedMessage
                },
            },
    {
        match self.state {
            ShellState::Ready => Err(Error::UnexpectedMessage),
            ShellState::InBlock(_) => {
                let mut gas_meter = self.gas_meter;
                run_tx(tx_bytes, &mut gas_meter, self.write_log.clone())
            },
        }
    }

    /// Finish to apply a transaction with what its predicates decided, and
    /// return the gas that it used. The changes of a valid transaction go to
    /// the block: a read of a key then gives what the transaction last saw of
    /// it, unless that was a value that lasts only until its end. Those of an
    /// invalid transaction are discarded: the write log and the store are as
    /// they were before the transaction. Either way no change of the
    /// transaction is left in the transaction layer.
    pub fn apply_tx(&mut self, context: TxContext, outcomes: &Vec<VpOutcome>) -> (gas_used: u64)
        requires
            old(self).wf(),
            context.wf(),
        ensures
            final(self).wf(),
            gas_used == finished_result(context@, outcomes@).gas_used,
            final(self)@ == applied_shell(old(self)@, context@, outcomes@),
            final(self)@.write_log.tx == Map::<KeyView, ModificationView>::empty(),
            final(self)@.storage == old(self)@.storage,
            !finished_result(context@, outcomes@).valid ==> final(self)@.write_log == old(
                self,
            )@.write_log,
            finished_result(context@, outcomes@).valid ==> forall|key: KeyView|
                !(context@.write_log.tx.dom().contains(key)
                    && context@.write_log.tx[key].is_temp()) ==> #[trigger] read_value(
                    final(self)@.write_log.tx,
                    final(self)@.write_log.block,
                    final(self)@.storage.map,
                    key,
                ) == read_value(
                    context@.write_log.tx,
                    context@.write_log.block,
                    old(self)@.storage.map,
                    key,
                ),
    {
        proof {
            assert forall|key: KeyView|
                !(context@.write_log.tx.dom().contains(key)
                    && context@.write_log.tx[key].is_temp()) implies read_value(
                Map::empty(),
                merge_scopes(context@.write_log.block, context@.write_log.tx),
                self@.storage.map,
                key,
            ) == read_value(
                context@.write_log.tx,
                context@.write_log.block,
                self@.storage.map,
                key,
            ) by {
                lemma_commit_tx_preserves_reads(
                    context@.write_log.tx,
                    context@.write_log.block,
                    self@.storage.map,
                    key,
                );
            }
        }
        let (result, write_log, gas_meter) = context.finish(outcomes, false);
        let mut write_log = write_log;
        if result.valid {
            write_log.commit_tx();
            self.write_log = write_log;
        }
        self.gas_meter = gas_meter;
        self.gas_meter.transaction_gas = 0;
        result.gas_used
    }

    /// Start to run a transaction without applying it: the context works on
    /// a copy of the write log and on a gas meter of its own.
    pub fn begin_dry_run_tx(&self, tx_bytes: &[u8]) -> (result: Result<TxContext, Error>)
        requires
            self.wf(),
        ensures
            match result {
                Ok(context) => context.wf() && start_error(
                    tx_bytes@,
                    BlockGasMeter::default_spec(),
                ).is_none() && context@ == started_context(
                    tx_bytes@,
                    BlockGasMeter::default_spec(),
                    self@.write_log,
                ),
                Err(e) => e matches Error::TxDecodingError(cause) && start_error(
                    tx_bytes@,
                    BlockGasMeter::default_spec(),
                ) == Some(cause),
            },
    {
        let mut gas_meter = BlockGasMeter::default();
        run_tx(tx_bytes, &mut gas_meter, self.write_log.clone())
    }

    /// Finish a dry run with what the predicates decided, each run to its
    /// end, and return the result in words. The shell is left as it was.
    pub fn dry_run_tx(&mut self, context: TxContext, outcomes: &Vec<VpOutcome>) -> (rendered: String)
        requires
            context.wf(),
        ensures
            *final(self) == *old(self),
            rendered@ == dry_run_text(context@, outcomes@),
    {
        let (result, _write_log, _gas_meter) = context.finish(outcomes, true);
        result.to_string()
    }
}

/// A message from the consensus engine.
#[derive(Debug)]
pub enum AbciMsg {
    /// Ask for the last committed state.
    GetInfo,
    /// Tell the identifier of the chain.
    InitChain { chain_id: String },
    /// Ask whether a transaction may wait in the pool.
    MempoolValidate { tx: Vec<u8>, kind: MempoolTxType },
    /// Begin a block.
    BeginBlock { hash: BlockHash, height: BlockHeight },
    /// Apply a transaction in the block.
    ApplyTx { tx: Vec<u8> },
    /// End the block.
    EndBlock { height: BlockHeight },
    /// Commit the block.
    CommitBlock,
    /// A query. Only the path [`DRY_RUN_TX_PATH`] is answered.
    AbciQuery { path: String, data: Vec<u8>, at_height: u64, prove: bool },
}

/// What the shell asks of its surroundings in answer to a message or to the
/// end of a run.
#[derive(Debug)]
pub enum ShellAction {
    /// Reply with the last committed state.
    ReplyInfo(Option<(MerkleRoot, u64)>),
    /// Reply that it is done.
    ReplyDone,
    /// Reply whether the transaction may wait in the pool.
    ReplyValidated(Result<(), String>),
    /// Reply with the gas of the applied transaction.
    ReplyApplied(Result<u64, String>),
    /// Reply with the answer to the query.
    ReplyQueried(Result<String, String>),
    /// Reply with the root of the committed block.
    ReplyCommitted(MerkleRoot),
    /// Run the code of the transaction in the context, then call
    /// [`Shell::tx_ran`].
    RunTx { context: TxContext, dry_run: bool },
    /// Run the predicates that the context holds, then call
    /// [`Shell::vps_ran`].
    RunVps { context: TxContext, dry_run: bool },
    /// Reply nothing.
    NoReply,
    /// Stop: the shell cannot go on.
    Fail(Error),
}

/// The failure of the code of a transaction in words.
pub open spec fn runner_error_text(failure: Seq<char>) -> Seq<char> {
    "Transaction runner error: "@ + failure
}

/// What the shell asks for after the code of a transaction has run. A
/// transaction whose code failed, or that has no code, is answered with the
/// failure and never goes on to the predicates.
pub open spec fn tx_ran_relation(
    store: Map<KeyView, Seq<u8>>,
    context: crate::tx::TxContextView,
    runner: Result<(), String>,
    dry_run: bool,
    action: ShellAction,
) -> bool {
    match action {
        ShellAction::RunVps { context: prepared, dry_run: mode } => mode == dry_run
            && prepared.wf() && runner_failure(context, runner).is_none() && prepared@
            == if context.gas_error.is_some() {
            context
        } else {
            crate::tx::prepared_context(context, store)
        },
        ShellAction::ReplyApplied(reply) => !dry_run && (reply matches Err(text)
            && runner_failure(context, runner) matches Some(failure) && text@
            == runner_error_text(failure)),
        ShellAction::ReplyQueried(reply) => dry_run && (reply matches Err(text)
            && runner_failure(context, runner) matches Some(failure) && text@
            == runner_error_text(failure)),
        _ => false,
    }
}

/// The result of a dry run in words.
pub open spec fn dry_run_text(context: crate::tx::TxContextView, outcomes: Seq<VpOutcome>) -> Seq<
    char,
> {
    tx_result_text(
        finished_result(context, outcomes),
        finished_order(context, outcomes),
    )
}

/// How the shell changes and what it replies after the predicates of a
/// transaction have run.
pub open spec fn vps_ran_relation(
    before: ShellView,
    after: ShellView,
    context: crate::tx::TxContextView,
    outcomes: Seq<VpOutcome>,
    dry_run: bool,
    action: ShellAction,
) -> bool {
    if dry_run {
        after == before && (action matches ShellAction::ReplyQueried(reply) && (
        reply matches Ok(text) && text@ == dry_run_text(context, outcomes)))
    } else {
        after == applied_shell(before, context, outcomes) && (
        action matches ShellAction::ReplyApplied(reply) && reply == Ok::<u64, String>(
            finished_result(context, outcomes).gas_used,
        ))
    }
}

/// Why a transaction cannot be applied: the shell is in no block, or the
/// bytes do not decode.
pub open spec fn apply_error(shell: ShellView, tx_bytes: Seq<u8>) -> Error {
    if shell.state is InBlock {
        match start_error(tx_bytes, shell.gas_meter) {
            Some(cause) => Error::TxDecodingError(cause),
            None => Error::UnexpectedMessage,
        }
    } else {
        Error::UnexpectedMessage
    }
}

/// What a step of the shell does with a message: how the shell changes and
/// what it asks for.
pub open spec fn step_relation(
    before: ShellView,
    after: ShellView,
    msg: AbciMsg,
    action: ShellAction,
) -> bool {
    match msg {
        AbciMsg::GetInfo => after == before && (
        action matches ShellAction::ReplyInfo(state) && match state {
            Some((root, height)) => before.storage.last_committed == Some(
                (root.0@, height),
            ),
            None => before.storage.last_committed.is_none(),
        }),
        AbciMsg::InitChain { chain_id } => if before.state == ShellState::Ready {
            action is ReplyDone && after == (ShellView {
                storage: StorageView { chain_id: chain_id@, ..before.storage },
                ..before
            })
        } else {
            action is Fail && after == before
        },
        AbciMsg::MempoolValidate { tx, kind } => after == before && (
        action matches ShellAction::ReplyValidated(reply) && reply.is_ok() == decode_tx(
            tx@,
        ).is_ok()),
        AbciMsg::BeginBlock { hash, height } => if before.state == ShellState::Ready
            && !(before.storage.last_committed matches Some(last) && height.0
            <= last.1) {
            action is ReplyDone && after == (ShellView {
                storage: StorageView {
                    block_hash: hash.0@,
                    block_height: height.0,
                    ..before.storage
                },
                gas_meter: BlockGasMeter {
                    block_gas: 0,
                    transaction_gas: 0,
                    ..before.gas_meter
                },
                state: ShellState::InBlock(height.0),
                ..before
            })
        } else {
            action is Fail && after == before
        },
        AbciMsg::ApplyTx { tx } => after == before && match action {
            ShellAction::RunTx { context, dry_run } => !dry_run && before.state
                is InBlock && context.wf() && start_error(tx@, before.gas_meter).is_none()
                && context@ == started_context(tx@, before.gas_meter, before.write_log),
            ShellAction::ReplyApplied(reply) => (reply matches Err(text) && text@
                == apply_error(before, tx@).text()) && (before.state is Ready || start_error(
                tx@,
                before.gas_meter,
            ).is_some()),
            _ => false,
        },
        AbciMsg::EndBlock { height } => action is ReplyDone && after == before,
        AbciMsg::CommitBlock => (action matches ShellAction::ReplyCommitted(root)
            && root.0@ == after.storage.root) && after == if before.state is InBlock {
            ShellView {
                storage: committed_storage(before.storage, before.write_log),
                write_log: WriteLogView {
                    block: Map::empty(),
                    block_keys: Seq::empty(),
                    ..before.write_log
                },
                state: ShellState::Ready,
                ..before
            }
        } else {
            before
        },
        AbciMsg::AbciQuery { path, data, at_height, prove } => after == before && if path@
            == DRY_RUN_TX_PATH@ {
            match action {
                ShellAction::RunTx { context, dry_run } => dry_run && context.wf()
                    && start_error(data@, BlockGasMeter::default_spec()).is_none() && context@
                    == started_context(data@, BlockGasMeter::default_spec(), before.write_log),
                ShellAction::ReplyQueried(reply) => (start_error(
                    data@,
                    BlockGasMeter::default_spec(),
                ) matches Some(cause) && reply matches Err(text) && text@ == (
                Error::TxDecodingError(cause)).text()),
                _ => false,
            }
        } else {
            action is NoReply
        },
    }
}

impl Shell {
    /// Take a message from the consensus engine and say what is to be done.
    /// The shell changes only on a message that begins or commits a block
    /// or tells the identifier of the chain.
    pub fn step(&mut self, msg: AbciMsg) -> (action: ShellAction)
        requires
            old(self).wf(),
        ensures
            final(self).wf(),
            step_relation(old(self)@, final(self)@, msg, action),
    {
        match msg {
            AbciMsg::GetInfo => ShellAction::ReplyInfo(self.last_state()),
            AbciMsg::InitChain { chain_id } => match self.init_chain(chain_id) {
                Ok(_) => ShellAction::ReplyDone,
                Err(e) => ShellAction::Fail(e),
            },
            AbciMsg::MempoolValidate { tx, kind } => {
                let result = match self.mempool_validate(tx.as_slice(), kind) {
                    Ok(_) => Ok(()),
                    Err(e) => Err(e.to_string()),
                };
                ShellAction::ReplyValidated(result)
            },
            AbciMsg::BeginBlock { hash, height } => match self.begin_block(hash, height) {
                Ok(_) => ShellAction::ReplyDone,
                Err(e) => ShellAction::Fail(e),
            },
            AbciMsg::ApplyTx { tx } => {
                match self.begin_apply_tx(tx.as_slice()) {
                    Ok(context) => ShellAction::RunTx { context, dry_run: false },
                    Err(e) => ShellAction::ReplyApplied(Err(e.to_string())),
                }
            },
            AbciMsg::EndBlock { height } => {
                self.end_block(height);
                ShellAction::ReplyDone
            },
            AbciMsg::CommitBlock => ShellAction::ReplyCommitted(self.commit()),
            AbciMsg::AbciQuery { path, data, at_height: _, prove: _ } => {
                if crate::event::same_text(path.as_str(), DRY_RUN_TX_PATH) {
                    match self.begin_dry_run_tx(data.as_slice()) {
                        Ok(context) => ShellAction::RunTx { context, dry_run: true },
                        Err(e) => ShellAction::ReplyQueried(Err(e.to_string())),
                    }
                } else {
                    ShellAction::NoReply
                }
            },
        }
    }

    /// The code of a transaction has run in `context` and ended as `runner`
    /// tells. The predicates are prepared; a transaction whose code failed
    /// is answered with the failure, unless a charge was refused before.
    pub fn tx_ran(&self, context: TxContext, runner: Result<(), String>, dry_run: bool) -> (action: ShellAction)
        requires
            self.wf(),
            context.wf(),
        ensures
            tx_ran_relation(self@.storage.map, context@, runner, dry_run, action),
    {
        let mut context = context;
        match context.prepare_vps(&self.storage, runner) {
            Ok(_) => ShellAction::RunVps { context, dry_run },
            Err(e) => {
                if dry_run {
                    ShellAction::ReplyQueried(Err(e.to_string()))
                } else {
                    ShellAction::ReplyApplied(Err(e.to_string()))
                }
            },
        }
    }

    /// The predicates of a transaction have run and decided as `outcomes`
    /// tell. An applied transaction is finished in the block and answered
    /// with its gas; a dry run is answered with its result in words and
    /// leaves the shell as it was.
    pub fn vps_ran(&mut self, context: TxContext, outcomes: &Vec<VpOutcome>, dry_run: bool) -> (action: ShellAction)
        requires
            old(self).wf(),
            context.wf(),
        ensures
            final(self).wf(),
            vps_ran_relation(old(self)@, final(self)@, context@, outcomes@, dry_run, action),
    {
        if dry_run {
            ShellAction::ReplyQueried(Ok(self.dry_run_tx(context, outcomes)))
        } else {
            ShellAction::ReplyApplied(Ok(self.apply_tx(context, outcomes)))
        }
    }
}

} // verus!
