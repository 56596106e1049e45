//! The write log: changes staged over the committed state.
//!
//! The log has two layers. The transaction layer holds what the running
//! transaction has changed; the block layer holds what the accepted
//! transactions of the block have changed. Reads look at the transaction
//! layer first, then at the block layer, then at the store.

use crate::address::{Address, AddressSet, AddressView};
use crate::event::{is_prefix, Event, EventType, EventView};
use crate::hash::{copy_bytes, hex_encode, hex_text, sha256, sha256_of};
use crate::key::{key_address_order, key_addresses, Key};
use crate::order::{
    insert_once, lemma_contains_push, lemma_no_duplicates_push, lemma_union_order_no_duplicates,
    union_order,
};
use crate::keymap::{
    has_key, index_of_key, keys_distinct, keys_of, lemma_has_key_keys_of,
    lemma_map_of_at, lemma_map_of_empty, lemma_map_of_push, map_of, KeyMap, KeyView,
};
use crate::storage::{next_root, record_delete, record_write, vp_key, Storage, StorageView};
use vstd::prelude::*;

verus! {

/// A staged change of one key.
#[derive(Debug, PartialEq, Eq)]
pub enum StorageModification {
    /// The key gets a value.
    Write { value: Vec<u8> },
    /// The key is removed.
    Delete,
    /// The key is the validity predicate of an account that the transaction
    /// created.
    InitAccount { vp: Vec<u8> },
    /// The key gets a value that lasts until the end of the transaction.
    Temp { value: Vec<u8> },
}

/// What a [`StorageModification`] stands for in contracts.
pub enum ModificationView {
    Write(Seq<u8>),
    Delete,
    InitAccount(Seq<u8>),
    Temp(Seq<u8>),
}

impl ModificationView {
    /// What a read sees of a key with this change.
    pub open spec fn value(self) -> Option<Seq<u8>> {
        match self {
            ModificationView::Write(value) => Some(value),
            ModificationView::Delete => None,
            ModificationView::InitAccount(vp) => Some(vp),
            ModificationView::Temp(value) => Some(value),
        }
    }

    /// The change does not outlive the transaction.
    pub open spec fn is_temp(self) -> bool {
        self is Temp
    }
}

impl View for StorageModification {
    type V = ModificationView;

    open spec fn view(&self) -> ModificationView {
        match self {
            StorageModification::Write { value } => ModificationView::Write(value@),
            StorageModification::Delete => ModificationView::Delete,
            StorageModification::InitAccount { vp } => ModificationView::InitAccount(vp@),
            StorageModification::Temp { value } => ModificationView::Temp(value@),
        }
    }
}

impl Clone for StorageModification {
    fn clone(&self) -> (copy: StorageModification)
        ensures
            copy@ == self@,
    {
        match self {
            StorageModification::Write { value } => StorageModification::Write {
                value: copy_bytes(value.as_slice()),
            },
            StorageModification::Delete => StorageModification::Delete,
            StorageModification::InitAccount { vp } => StorageModification::InitAccount {
                vp: copy_bytes(vp.as_slice()),
            },
            StorageModification::Temp { value } => StorageModification::Temp {
                value: copy_bytes(value.as_slice()),
            },
        }
    }
}

impl StorageModification {
    /// What a read sees of a key with this change.
    pub fn value(&self) -> (value: Option<Vec<u8>>)
        ensures
            match value {
                Some(v) => self@.value() == Some(v@),
                None => self@.value().is_none(),
            },
    {
        match self {
            StorageModification::Write { value } => Some(copy_bytes(value.as_slice())),
            StorageModification::Delete => None,
            StorageModification::InitAccount { vp } => Some(copy_bytes(vp.as_slice())),
            StorageModification::Temp { value } => Some(copy_bytes(value.as_slice())),
        }
    }
}

/// A layer of staged changes.
pub type Scope = Map<KeyView, ModificationView>;

/// What a read of `key` sees through the two layers and the store.
pub open spec fn read_value(tx: Scope, block: Scope, store: Map<KeyView, Seq<u8>>, key: KeyView) -> Option<
    Seq<u8>,
> {
    if tx.dom().contains(key) {
        tx[key].value()
    } else if block.dom().contains(key) {
        block[key].value()
    } else if store.dom().contains(key) {
        Some(store[key])
    } else {
        None
    }
}

/// The block layer after the transaction layer was merged into it: every
/// change of the transaction that outlives it replaces what the block layer
/// had for the key.
pub open spec fn merge_scopes(block: Scope, tx: Scope) -> Scope {
    Map::new(
        |key: KeyView| block.dom().contains(key) || (tx.dom().contains(key) && !tx[key].is_temp()),
        |key: KeyView|
            if tx.dom().contains(key) && !tx[key].is_temp() {
                tx[key]
            } else {
                block[key]
            },
    )
}

/// No change of the layer is one that lasts only until the end of a
/// transaction.
pub open spec fn no_temp(scope: Scope) -> bool {
    forall|key: KeyView| scope.dom().contains(key) ==> !(#[trigger] scope[key]).is_temp()
}

/// The events among `events` whose type starts with `prefix`, in order.
pub open spec fn events_with_prefix(events: Seq<EventView>, prefix: Seq<char>) -> Seq<EventView>
    decreases events.len(),
{
    if events.len() == 0 {
        Seq::empty()
    } else if is_prefix(prefix, events.last().event_type) {
        events_with_prefix(events.drop_last(), prefix).push(events.last())
    } else {
        events_with_prefix(events.drop_last(), prefix)
    }
}

/// The views of a sequence of events, in the same order.
pub open spec fn event_views(events: Seq<Event>) -> Seq<EventView> {
    events.map_values(|event: Event| event@)
}

/// The size of an event in bytes: its type, and the names and values of its
/// attributes.
pub open spec fn event_size(event: EventView) -> nat {
    vstd::utf8::encode_utf8(event.event_type).len() + attributes_size(event.attributes)
}

/// The size in bytes of the names and values of attributes.
pub open spec fn attributes_size(attributes: Seq<(Seq<char>, Seq<char>)>) -> nat
    decreases attributes.len(),
{
    if attributes.len() == 0 {
        0
    } else {
        attributes_size(attributes.drop_last()) + vstd::utf8::encode_utf8(
            attributes.last().0,
        ).len() + vstd::utf8::encode_utf8(attributes.last().1).len()
    }
}

/// A number of gas units, held to what fits in 64 bits.
pub open spec fn clip_gas(n: int) -> int {
    if n > u64::MAX {
        u64::MAX as int
    } else {
        n
    }
}

/// The gas charged for emitting an event: one unit for each of its bytes, and
/// never more than fits in 64 bits.
pub open spec fn event_gas(event: EventView) -> int {
    clip_gas(event_size(event) as int)
}

/// The address of the next account that a transaction creates, from the
/// state of the address generator.
pub open spec fn next_address(address_gen: Seq<u8>) -> AddressView {
    AddressView::Established(hex_text(sha256_of(address_gen)))
}

/// What a [`WriteLog`] stands for in contracts.
pub struct WriteLogView {
    /// The changes of the running transaction.
    pub tx: Scope,
    /// The keys of the running transaction in the order of their first
    /// change.
    pub tx_keys: Seq<KeyView>,
    /// The changes of the accepted transactions of the block.
    pub block: Scope,
    /// The keys of the block layer in the order of their first change.
    pub block_keys: Seq<KeyView>,
    /// The events of the block, those of the running transaction last.
    pub events: Seq<EventView>,
    /// How many of the events belong to accepted transactions.
    pub committed_events: int,
    /// The state of the address generator.
    pub address_gen: Seq<u8>,
}

/// The write log.
#[derive(Debug)]
pub struct WriteLog {
    pub tx_write_log: KeyMap<StorageModification>,
    pub block_write_log: KeyMap<StorageModification>,
    pub events: Vec<Event>,
    pub committed_events: usize,
    pub address_gen: Vec<u8>,
}

impl View for WriteLog {
    type V = WriteLogView;

    open spec fn view(&self) -> WriteLogView {
        WriteLogView {
            tx: self.tx_write_log.map(),
            tx_keys: self.tx_write_log.keys(),
            block: self.block_write_log.map(),
            block_keys: self.block_write_log.keys(),
            events: event_views(self.events@),
            committed_events: self.committed_events as int,
            address_gen: self.address_gen@,
        }
    }
}

impl WriteLog {
    /// No layer holds a key twice, and the events of accepted transactions
    /// are among the events.
    pub open spec fn wf(&self) -> bool {
        &&& self.tx_write_log.wf()
        &&& self.block_write_log.wf()
        &&& self.committed_events <= self.events@.len()
        &&& no_temp(self@.block)
    }

    /// The log that holds nothing.
    pub open spec fn empty_view() -> WriteLogView {
        WriteLogView {
            tx: Map::empty(),
            tx_keys: Seq::empty(),
            block: Map::empty(),
            block_keys: Seq::empty(),
            events: Seq::empty(),
            committed_events: 0,
            address_gen: Seq::empty(),
        }
    }

    /// An empty log.
    pub fn new() -> (log: WriteLog)
        ensures
            log.wf(),
            log@ == WriteLog::empty_view(),
    {
        let log = WriteLog {
            tx_write_log: KeyMap::new(),
            block_write_log: KeyMap::new(),
            events: Vec::new(),
            committed_events: 0,
            address_gen: Vec::new(),
        };
        proof {
            assert(log@.tx_keys =~= Seq::<KeyView>::empty());
            assert(log@.block_keys =~= Seq::<KeyView>::empty());
            assert(log@.events =~= Seq::<EventView>::empty());
        }
        log
    }

    /// Start a transaction: the address generator starts from the hash of
    /// the transaction.
    pub fn begin_tx(&mut self, tx_hash: &[u8])
        ensures
            final(self).wf() == old(self).wf(),
            final(self)@ == (WriteLogView { address_gen: tx_hash@, ..old(self)@ }),
    {
        self.address_gen = copy_bytes(tx_hash);
    }

    /// Read `key` through the transaction layer, the block layer and the
    /// store.
    pub fn read(&self, storage: &Storage, key: &Key) -> (value: Option<Vec<u8>>)
        requires
            self.wf(),
            storage.wf(),
        ensures
            match value {
                Some(v) => read_value(self@.tx, self@.block, storage@.map, key@) == Some(v@),
                None => read_value(self@.tx, self@.block, storage@.map, key@).is_none(),
            },
    {
        match self.tx_write_log.get(key) {
            Some(change) => change.value(),
            None => match self.block_write_log.get(key) {
                Some(change) => change.value(),
                None => storage.read(key),
            },
        }
    }

    /// Whether a read of `key` sees a value.
    pub fn has_key(&self, storage: &Storage, key: &Key) -> (found: bool)
        requires
            self.wf(),
            storage.wf(),
        ensures
            found == read_value(self@.tx, self@.block, storage@.map, key@).is_some(),
    {
        self.read(storage, key).is_some()
    }

    /// Stage a write of `value` under `key` in the transaction layer.
    pub fn write(&mut self, key: &Key, value: Vec<u8>)
        requires
            old(self).wf(),
        ensures
            final(self).wf(),
            final(self)@ == (WriteLogView {
                tx: old(self)@.tx.insert(key@, ModificationView::Write(value@)),
                tx_keys: insert_once(old(self)@.tx_keys, key@),
                ..old(self)@
            }),
    {
        self.tx_write_log.insert(key.clone(), StorageModification::Write { value });
    }

    /// Stage a write under `key` that lasts until the end of the transaction.
    pub fn write_temp(&mut self, key: &Key, value: Vec<u8>)
        requires
            old(self).wf(),
        ensures
            final(self).wf(),
            final(self)@ == (WriteLogView {
                tx: old(self)@.tx.insert(key@, ModificationView::Temp(value@)),
                tx_keys: insert_once(old(self)@.tx_keys, key@),
                ..old(self)@
            }),
    {
        self.tx_write_log.insert(key.clone(), StorageModification::Temp { value });
    }

    /// Stage the removal of `key` in the transaction layer.
    pub fn delete(&mut self, key: &Key)
        requires
            old(self).wf(),
        ensures
            final(self).wf(),
            final(self)@ == (WriteLogView {
                tx: old(self)@.tx.insert(key@, ModificationView::Delete),
                tx_keys: insert_once(old(self)@.tx_keys, key@),
                ..old(self)@
            }),
    {
        self.tx_write_log.insert(key.clone(), StorageModification::Delete);
    }

    /// Create an account with the validity predicate `vp`. Its address
    /// follows from the hash of the transaction and from how many accounts
    /// the transaction created before; the predicate is staged under the
    /// account's predicate key.
    pub fn init_account(&mut self, vp: Vec<u8>) -> (address: Address)
        requires
            old(self).wf(),
        ensures
            final(self).wf(),
            address@ == next_address(old(self)@.address_gen),
            final(self)@ == (WriteLogView {
                tx: old(self)@.tx.insert(vp_key(address@), ModificationView::InitAccount(vp@)),
                tx_keys: insert_once(old(self)@.tx_keys, vp_key(address@)),
                address_gen: sha256_of(old(self)@.address_gen),
                ..old(self)@
            }),
            forall|declared: Set<AddressView>| #[trigger]
                verifier_set(declared, final(self)@.tx_keys).contains(address@),
    {
        let seed = sha256(self.address_gen.as_slice());
        let address = Address::Established(hex_encode(seed.as_slice()));
        let key = Key::validity_predicate(&address);
        self.address_gen = seed;
        self.tx_write_log.insert(key, StorageModification::InitAccount { vp });
        proof {
            let keys = self@.tx_keys;
            let created = vp_key(address@);
            assert(keys.contains(created)) by {
                if old(self)@.tx_keys.contains(created) {
                } else {
                    assert(keys[keys.len() - 1] == created);
                }
            }
            assert(key_addresses(created).contains(address@)) by {
                assert(created[0] == crate::key::KeySegView::AddressSeg(address@));
            }
            assert forall|declared: Set<AddressView>| #[trigger]
                verifier_set(declared, keys).contains(address@) by {
                lemma_verifiers_cover_changed_keys(declared, keys, created, address@);
            }
        }
        address
    }

    /// Buffer an event of the running transaction and return the gas to
    /// charge for it.
    pub fn emit_event(&mut self, event: Event) -> (gas: u64)
        requires
            old(self).wf(),
        ensures
            final(self).wf(),
            gas == event_gas(event@),
            final(self)@ == (WriteLogView {
                events: old(self)@.events.push(event@),
                ..old(self)@
            }),
    {
        let gas: u64 = gas_of_event(&event);
        let ghost before = self.events@;
        self.events.push(event);
        proof {
            assert(event_views(self.events@) =~= event_views(before).push(event@));
        }
        gas
    }

    /// The buffered events whose type starts with `prefix`, in the order in
    /// which they were emitted.
    pub fn lookup_events_with_prefix(&self, prefix: &EventType) -> (found: Vec<Event>)
        ensures
            event_views(found@) == events_with_prefix(self@.events, prefix@),
    {
        let mut found: Vec<Event> = Vec::new();
        let mut i: usize = 0;
        proof {
            assert(event_views(found@) =~= Seq::<EventView>::empty());
        }
        while i < self.events.len()
            invariant
                i <= self.events.len(),
                event_views(found@) == events_with_prefix(
                    event_views(self.events@.take(i as int)),
                    prefix@,
                ),
            decreases self.events.len() - i,
        {
            proof {
                let longer = event_views(self.events@.take(i + 1));
                assert(longer.drop_last() =~= event_views(self.events@.take(i as int)));
                assert(longer.last() == self.events@[i as int]@);
            }
            if self.events[i].event_type.has_prefix(prefix) {
                let ghost before = found@;
                let event = self.events[i].clone();
                found.push(event);
                proof {
                    assert(event_views(found@) =~= event_views(before).push(event@));
                }
            }
            i += 1;
        }
        proof {
            assert(self.events@.take(i as int) =~= self.events@);
        }
        found
    }
}

/// The size of a text in bytes, added to `total` without overflow.
fn add_size(total: u64, text: &str) -> (sum: u64)
    ensures
        sum == clip_gas((total + vstd::utf8::encode_utf8(text@).len()) as int),
{
    let len: usize = text.as_bytes().len();
    match total.checked_add(len as u64) {
        Some(sum) => sum,
        None => u64::MAX,
    }
}

/// The gas to charge for emitting `event`.
pub fn gas_of_event(event: &Event) -> (gas: u64)
    ensures
        gas == event_gas(event@),
{
    let mut total: u64 = add_size(0, event.event_type.inner.as_str());
    let mut i: usize = 0;
    let ghost type_size = vstd::utf8::encode_utf8(event@.event_type).len();
    proof {
        assert(event@.attributes.take(0) =~= Seq::<(Seq<char>, Seq<char>)>::empty());
    }
    while i < event.attributes.len()
        invariant
            i <= event.attributes.len(),
            type_size == vstd::utf8::encode_utf8(event@.event_type).len(),
            total == clip_gas((type_size + attributes_size(event@.attributes.take(i as int))) as int),
        decreases event.attributes.len() - i,
    {
        proof {
            let longer = event@.attributes.take(i + 1);
            assert(longer.drop_last() =~= event@.attributes.take(i as int));
            assert(longer.last() == event@.attributes[i as int]);
        }
        total = add_size(total, event.attributes[i].0.as_str());
        total = add_size(total, event.attributes[i].1.as_str());
        i += 1;
    }
    proof {
        assert(event@.attributes.take(i as int) =~= event@.attributes);
    }
    total
}

/// The views of a sequence of keys, in the same order.
pub open spec fn key_views(keys: Seq<Key>) -> Seq<KeyView> {
    keys.map_values(|key: Key| key@)
}

/// The addresses that appear in any of the keys.
pub open spec fn addresses_of_keys(keys: Seq<KeyView>) -> Set<AddressView> {
    Set::new(
        |a: AddressView| exists|i: int| 0 <= i < keys.len() && key_addresses(#[trigger] keys[i]).contains(a),
    )
}

/// The verifiers of a transaction: the addresses that its code declared and
/// every address that appears in a key that it changed.
pub open spec fn verifier_set(declared: Set<AddressView>, changed: Seq<KeyView>) -> Set<AddressView> {
    declared.union(addresses_of_keys(changed))
}

/// The verifiers of a transaction in order: the declared ones, then the
/// addresses of each changed key in turn, each verifier once.
pub open spec fn verifier_order(declared: Seq<AddressView>, changed: Seq<KeyView>) -> Seq<AddressView>
    decreases changed.len(),
{
    if changed.len() == 0 {
        declared
    } else {
        union_order(verifier_order(declared, changed.drop_last()), key_address_order(changed.last()))
    }
}

/// No verifier stands twice in the order of the verifiers.
pub proof fn lemma_verifier_order_no_duplicates(declared: Seq<AddressView>, changed: Seq<KeyView>)
    requires
        declared.no_duplicates(),
    ensures
        verifier_order(declared, changed).no_duplicates(),
    decreases changed.len(),
{
    if changed.len() > 0 {
        lemma_verifier_order_no_duplicates(declared, changed.drop_last());
        lemma_union_order_no_duplicates(
            verifier_order(declared, changed.drop_last()),
            key_address_order(changed.last()),
        );
    }
}

/// The addresses of the keys with one more key.
pub proof fn lemma_addresses_of_keys_push(keys: Seq<KeyView>, key: KeyView)
    ensures
        addresses_of_keys(keys.push(key)) == addresses_of_keys(keys).union(key_addresses(key)),
{
    let longer = keys.push(key);
    assert forall|a: AddressView| addresses_of_keys(longer).contains(a) <==> addresses_of_keys(
        keys,
    ).union(key_addresses(key)).contains(a) by {
        if addresses_of_keys(longer).contains(a) {
            let i = choose|i: int| 0 <= i < longer.len() && key_addresses(#[trigger] longer[i]).contains(a);
            if i < keys.len() {
                assert(key_addresses(keys[i]).contains(a));
            }
        }
        if addresses_of_keys(keys).contains(a) {
            let i = choose|i: int| 0 <= i < keys.len() && key_addresses(#[trigger] keys[i]).contains(a);
            assert(key_addresses(longer[i]).contains(a));
        }
        if key_addresses(key).contains(a) {
            assert(key_addresses(longer[keys.len() as int]).contains(a));
        }
    }
    assert(addresses_of_keys(longer) =~= addresses_of_keys(keys).union(key_addresses(key)));
}

/// Every address in a changed key is a verifier.
pub proof fn lemma_verifiers_cover_changed_keys(
    declared: Set<AddressView>,
    changed: Seq<KeyView>,
    key: KeyView,
    address: AddressView,
)
    requires
        changed.contains(key),
        key_addresses(key).contains(address),
    ensures
        verifier_set(declared, changed).contains(address),
{
    let i = choose|i: int| 0 <= i < changed.len() && changed[i] == key;
    assert(key_addresses(changed[i]).contains(address));
}

/// The keys of the block layer after the transaction layer was merged into
/// it: each key of the transaction whose change outlives it is stored in
/// turn.
pub open spec fn merge_keys(block_keys: Seq<KeyView>, tx_keys: Seq<KeyView>, tx: Scope) -> Seq<KeyView>
    decreases tx_keys.len(),
{
    if tx_keys.len() == 0 {
        block_keys
    } else if tx[tx_keys.last()].is_temp() {
        merge_keys(block_keys, tx_keys.drop_last(), tx)
    } else {
        insert_once(merge_keys(block_keys, tx_keys.drop_last(), tx), tx_keys.last())
    }
}

/// Merging one more change of the transaction into the block layer.
pub proof fn lemma_merge_scopes_insert(block: Scope, tx: Scope, key: KeyView, change: ModificationView)
    requires
        !tx.dom().contains(key),
    ensures
        merge_scopes(block, tx.insert(key, change)) == if change.is_temp() {
            merge_scopes(block, tx)
        } else {
            merge_scopes(block, tx).insert(key, change)
        },
{
    let expected = if change.is_temp() {
        merge_scopes(block, tx)
    } else {
        merge_scopes(block, tx).insert(key, change)
    };
    assert(merge_scopes(block, tx.insert(key, change)) =~= expected);
}

/// Merging an empty transaction layer changes nothing.
pub proof fn lemma_merge_scopes_empty(block: Scope)
    ensures
        merge_scopes(block, Map::empty()) == block,
{
    assert(merge_scopes(block, Map::empty()) =~= block);
}

/// The store after one staged change was applied to it.
pub open spec fn apply_change(store: StorageView, key: KeyView, change: ModificationView) -> StorageView {
    match change {
        ModificationView::Write(value) => StorageView {
            map: store.map.insert(key, value),
            root: next_root(store.root, record_write(key, value)),
            ..store
        },
        ModificationView::InitAccount(vp) => StorageView {
            map: store.map.insert(key, vp),
            root: next_root(store.root, record_write(key, vp)),
            ..store
        },
        ModificationView::Delete => StorageView {
            map: store.map.remove(key),
            root: next_root(store.root, record_delete(key)),
            ..store
        },
        ModificationView::Temp(_) => store,
    }
}

/// The store after the changes of the block layer were applied to it in the
/// order of `keys`.
pub open spec fn apply_block(store: StorageView, keys: Seq<KeyView>, block: Scope) -> StorageView
    decreases keys.len(),
{
    if keys.len() == 0 {
        store
    } else {
        apply_change(apply_block(store, keys.drop_last(), block), keys.last(), block[keys.last()])
    }
}

/// A copy of a layer.
pub fn clone_scope(scope: &KeyMap<StorageModification>) -> (copy: KeyMap<StorageModification>)
    ensures
        copy.pairs() == scope.pairs(),
{
    let mut entries: Vec<(Key, StorageModification)> = Vec::new();
    let mut i: usize = 0;
    proof {
        assert((KeyMap { entries }).pairs() =~= scope.pairs().take(0));
    }
    while i < scope.entries.len()
        invariant
            i <= scope.entries.len(),
            (KeyMap { entries }).pairs() == scope.pairs().take(i as int),
        decreases scope.entries.len() - i,
    {
        let ghost before = (KeyMap { entries }).pairs();
        let key = scope.entries[i].0.clone();
        let change = scope.entries[i].1.clone();
        entries.push((key, change));
        proof {
            assert((KeyMap { entries }).pairs() =~= before.push((key@, change@)));
            assert(scope.pairs().take(i + 1) =~= scope.pairs().take(i as int).push(
                (key@, change@),
            ));
        }
        i += 1;
    }
    proof {
        assert(scope.pairs().take(i as int) =~= scope.pairs());
    }
    KeyMap { entries }
}

impl Clone for WriteLog {
    fn clone(&self) -> (copy: WriteLog)
        ensures
            copy@ == self@,
            copy.wf() == self.wf(),
    {
        let mut events: Vec<Event> = Vec::new();
        let mut i: usize = 0;
        proof {
            assert(event_views(events@) =~= event_views(self.events@.take(0)));
        }
        while i < self.events.len()
            invariant
                i <= self.events.len(),
                events@.len() == i,
                event_views(events@) == event_views(self.events@.take(i as int)),
            decreases self.events.len() - i,
        {
            let ghost before = events@;
            let event = self.events[i].clone();
            events.push(event);
            proof {
                assert(event_views(events@) =~= event_views(before).push(event@));
                assert(event_views(self.events@.take(i + 1)) =~= event_views(
                    self.events@.take(i as int),
                ).push(event@));
            }
            i += 1;
        }
        proof {
            assert(self.events@.take(i as int) =~= self.events@);
        }
        WriteLog {
            tx_write_log: clone_scope(&self.tx_write_log),
            block_write_log: clone_scope(&self.block_write_log),
            events,
            committed_events: self.committed_events,
            address_gen: copy_bytes(self.address_gen.as_slice()),
        }
    }
}

impl WriteLog {
    /// The keys that the running transaction has changed, in the order of
    /// their first change.
    pub fn tx_keys(&self) -> (keys: Vec<Key>)
        ensures
            key_views(keys@) == self@.tx_keys,
    {
        let mut keys: Vec<Key> = Vec::new();
        let mut i: usize = 0;
        proof {
            assert(key_views(keys@) =~= self@.tx_keys.take(0));
        }
        while i < self.tx_write_log.entries.len()
            invariant
                i <= self.tx_write_log.entries.len(),
                key_views(keys@) == self@.tx_keys.take(i as int),
            decreases self.tx_write_log.entries.len() - i,
        {
            let ghost before = keys@;
            let key = self.tx_write_log.entries[i].0.clone();
            keys.push(key);
            proof {
                assert(key_views(keys@) =~= key_views(before).push(key@));
                assert(self@.tx_keys.take(i + 1) =~= self@.tx_keys.take(i as int).push(key@));
            }
            i += 1;
        }
        proof {
            assert(self@.tx_keys.take(i as int) =~= self@.tx_keys);
        }
        keys
    }

    /// The keys that the running transaction or the block has changed, each
    /// once.
    pub fn get_changed_keys(&self) -> (keys: Vec<Key>)
        ensures
            self.wf() ==> key_views(keys@).no_duplicates(),
            forall|key: KeyView|
                key_views(keys@).contains(key) <==> self@.tx.dom().contains(key)
                    || self@.block.dom().contains(key),
    {
        let mut keys = self.tx_keys();
        let mut i: usize = 0;
        proof {
            assert forall|key: KeyView| key_views(keys@).contains(key) <==> self@.tx.dom().contains(
                key,
            ) by {
                lemma_has_key_keys_of(self.tx_write_log.pairs(), key);
            }
            assert(self@.block_keys.take(0) =~= Seq::<KeyView>::empty());
            if self.wf() {
                lemma_keys_distinct_no_duplicates(self.tx_write_log.pairs());
            }
        }
        while i < self.block_write_log.entries.len()
            invariant
                i <= self.block_write_log.entries.len(),
                self.wf() ==> key_views(keys@).no_duplicates(),
                forall|key: KeyView|
                    key_views(keys@).contains(key) <==> self@.tx.dom().contains(key)
                        || self@.block_keys.take(i as int).contains(key),
            decreases self.block_write_log.entries.len() - i,
        {
            let key = &self.block_write_log.entries[i].0;
            let ghost before = key_views(keys@);
            let ghost seen = self@.block_keys.take(i as int);
            proof {
                assert(self@.block_keys.take(i + 1) =~= seen.push(key@));
            }
            if !self.tx_write_log.contains_key(key) {
                let copy = key.clone();
                keys.push(copy);
                proof {
                    assert(key_views(keys@) =~= before.push(key@));
                    assert forall|k: KeyView| key_views(keys@).contains(k) <==> self@.tx.dom().contains(
                        k,
                    ) || seen.push(key@).contains(k) by {
                        lemma_contains_push(before, key@, k);
                        lemma_contains_push(seen, key@, k);
                    }
                    if self.wf() {
                        lemma_keys_distinct_no_duplicates(self.block_write_log.pairs());
                        assert(!seen.contains(key@)) by {
                            if seen.contains(key@) {
                                let j = choose|j: int| 0 <= j < seen.len() && seen[j] == key@;
                                assert(self@.block_keys[j] == self@.block_keys[i as int]);
                            }
                        }
                        assert(!before.contains(key@));
                        lemma_no_duplicates_push(before, key@);
                    }
                }
            } else {
                proof {
                    assert forall|k: KeyView| key_views(keys@).contains(k) <==> self@.tx.dom().contains(
                        k,
                    ) || seen.push(key@).contains(k) by {
                        lemma_contains_push(seen, key@, k);
                    }
                }
            }
            i += 1;
        }
        proof {
            assert(self@.block_keys.take(i as int) =~= self@.block_keys);
            assert forall|key: KeyView| self@.block_keys.contains(key) <==> self@.block.dom().contains(
                key,
            ) by {
                lemma_has_key_keys_of(self.block_write_log.pairs(), key);
            }
        }
        keys
    }

    /// The verifiers of the running transaction and the keys that it has
    /// changed. The verifiers are the addresses in `declared` and every
    /// address that appears in a changed key.
    pub fn verifiers_and_changed_keys(&self, declared: &AddressSet) -> (result: (
        AddressSet,
        Vec<Key>,
    ))
        requires
            declared.wf(),
        ensures
            result.0.wf(),
            result.0@ == verifier_set(declared@, self@.tx_keys),
            result.0.order() == verifier_order(declared.order(), self@.tx_keys),
            key_views(result.1@) == self@.tx_keys,
    {
        let keys = self.tx_keys();
        let mut verifiers = declared.clone();
        let mut i: usize = 0;
        proof {
            assert(addresses_of_keys(key_views(keys@).take(0)) =~= Set::<AddressView>::empty());
            assert(verifiers@ =~= verifier_set(declared@, key_views(keys@).take(0)));
        }
        while i < keys.len()
            invariant
                i <= keys.len(),
                verifiers.wf(),
                verifiers@ == verifier_set(declared@, key_views(keys@).take(i as int)),
                verifiers.order() == verifier_order(
                    declared.order(),
                    key_views(keys@).take(i as int),
                ),
            decreases keys.len() - i,
        {
            let found = keys[i].find_addresses();
            proof {
                let seen = key_views(keys@).take(i as int);
                assert(key_views(keys@).take(i + 1) =~= seen.push(keys@[i as int]@));
                assert(seen.push(keys@[i as int]@).drop_last() =~= seen);
                lemma_addresses_of_keys_push(seen, keys@[i as int]@);
                assert(verifiers@.union(found@) =~= verifier_set(
                    declared@,
                    seen.push(keys@[i as int]@),
                ));
            }
            verifiers = verifiers.union(&found);
            i += 1;
        }
        proof {
            assert(key_views(keys@).take(i as int) =~= key_views(keys@));
        }
        (verifiers, keys)
    }

    /// Accept the running transaction: its changes that outlive it go to the
    /// block layer, and its events count as the block's.
    pub fn commit_tx(&mut self)
        requires
            old(self).wf(),
        ensures
            final(self).wf(),
            final(self)@ == (WriteLogView {
                tx: Map::empty(),
                tx_keys: Seq::empty(),
                block: merge_scopes(old(self)@.block, old(self)@.tx),
                block_keys: merge_keys(old(self)@.block_keys, old(self)@.tx_keys, old(self)@.tx),
                committed_events: old(self)@.events.len() as int,
                ..old(self)@
            }),
    {
        let mut i: usize = 0;
        let ghost pairs = self.tx_write_log.pairs();
        let ghost tx = self@.tx;
        proof {
            assert(pairs.take(0) =~= Seq::<(KeyView, ModificationView)>::empty());
            lemma_map_of_empty::<KeyView, ModificationView>();
            lemma_merge_scopes_empty(self@.block);
            assert(keys_of(pairs).take(0) =~= Seq::<KeyView>::empty());
        }
        while i < self.tx_write_log.entries.len()
            invariant
                i <= self.tx_write_log.entries.len(),
                self.tx_write_log == old(self).tx_write_log,
                self.events == old(self).events,
                self.committed_events == old(self).committed_events,
                self.address_gen == old(self).address_gen,
                pairs == self.tx_write_log.pairs(),
                tx == map_of(pairs),
                keys_distinct(pairs),
                self.block_write_log.wf(),
                self.block_write_log.map() == merge_scopes(
                    old(self)@.block,
                    map_of(pairs.take(i as int)),
                ),
                self.block_write_log.keys() == merge_keys(
                    old(self)@.block_keys,
                    keys_of(pairs).take(i as int),
                    tx,
                ),
            decreases self.tx_write_log.entries.len() - i,
        {
            proof {
                let seen = pairs.take(i as int);
                assert(pairs.take(i + 1) =~= seen.push(pairs[i as int]));
                assert(keys_distinct(seen)) by {
                    assert forall|a: int, b: int| 0 <= a < b < seen.len() implies (#[trigger] seen[a]).0 != (
                    #[trigger] seen[b]).0 by {
                        assert(seen[a] == pairs[a] && seen[b] == pairs[b]);
                    }
                }
                assert(!has_key(seen, pairs[i as int].0)) by {
                    if has_key(seen, pairs[i as int].0) {
                        let j = index_of_key(seen, pairs[i as int].0);
                        assert(seen[j] == pairs[j]);
                        assert(pairs[j].0 != pairs[i as int].0);
                    }
                }
                lemma_map_of_push(seen, pairs[i as int].0, pairs[i as int].1);
                lemma_merge_scopes_insert(
                    old(self)@.block,
                    map_of(seen),
                    pairs[i as int].0,
                    pairs[i as int].1,
                );
                lemma_map_of_at(pairs, i as int);
                let longer = keys_of(pairs).take(i + 1);
                assert(longer.drop_last() =~= keys_of(pairs).take(i as int));
                assert(longer.last() == pairs[i as int].0);
            }
            let entry = &self.tx_write_log.entries[i];
            match &entry.1 {
                StorageModification::Temp { value: _ } => {},
                _ => {
                    self.block_write_log.insert(entry.0.clone(), entry.1.clone());
                },
            }
            i += 1;
        }
        proof {
            assert(pairs.take(i as int) =~= pairs);
            assert(keys_of(pairs).take(i as int) =~= keys_of(pairs));
        }
        self.tx_write_log.clear();
        self.committed_events = self.events.len();
        proof {
            assert(self@.tx_keys =~= Seq::<KeyView>::empty());
        }
    }

    /// Reject the running transaction: its changes and its events are
    /// discarded.
    pub fn drop_tx(&mut self)
        requires
            old(self).wf(),
        ensures
            final(self).wf(),
            final(self)@ == (WriteLogView {
                tx: Map::empty(),
                tx_keys: Seq::empty(),
                events: old(self)@.events.take(old(self)@.committed_events),
                ..old(self)@
            }),
    {
        self.tx_write_log.clear();
        self.events.truncate(self.committed_events);
        proof {
            assert(self@.tx_keys =~= Seq::<KeyView>::empty());
            assert(event_views(self.events@) =~= old(self)@.events.take(
                old(self)@.committed_events,
            ));
        }
    }

    /// Apply the changes of the block layer to the store, in the order in
    /// which their keys were first changed, and empty the layer.
    pub fn commit_block(&mut self, storage: &mut Storage)
        requires
            old(self).wf(),
            old(storage).wf(),
        ensures
            final(self).wf(),
            final(storage).wf(),
            final(storage)@ == apply_block(old(storage)@, old(self)@.block_keys, old(self)@.block),
            forall|key: KeyView|
                store_value(final(storage)@.map, key) == read_value(
                    Map::empty(),
                    old(self)@.block,
                    old(storage)@.map,
                    key,
                ),
            final(self)@ == (WriteLogView {
                block: Map::empty(),
                block_keys: Seq::empty(),
                ..old(self)@
            }),
    {
        let mut i: usize = 0;
        let ghost pairs = self.block_write_log.pairs();
        let ghost block = self@.block;
        proof {
            assert forall|key: KeyView|
                store_value(
                    apply_block(old(storage)@, keys_of(pairs), block).map,
                    key,
                ) == read_value(Map::empty(), block, old(storage)@.map, key) by {
                assert forall|j: int| 0 <= j < keys_of(pairs).len() implies !block[#[trigger] keys_of(
                    pairs,
                )[j]].is_temp() by {
                    lemma_map_of_at(pairs, j);
                }
                lemma_commit_block_preserves_reads(old(storage)@, keys_of(pairs), block, key);
                lemma_has_key_keys_of(pairs, key);
            }
        }
        proof {
            assert(keys_of(pairs).take(0) =~= Seq::<KeyView>::empty());
        }
        while i < self.block_write_log.entries.len()
            invariant
                i <= self.block_write_log.entries.len(),
                *self == *old(self),
                pairs == self.block_write_log.pairs(),
                block == map_of(pairs),
                keys_distinct(pairs),
                storage.wf(),
                storage@ == apply_block(old(storage)@, keys_of(pairs).take(i as int), block),
            decreases self.block_write_log.entries.len() - i,
        {
            proof {
                lemma_map_of_at(pairs, i as int);
                let longer = keys_of(pairs).take(i + 1);
                assert(longer.drop_last() =~= keys_of(pairs).take(i as int));
                assert(longer.last() == pairs[i as int].0);
            }
            let entry = &self.block_write_log.entries[i];
            match &entry.1 {
                StorageModification::Write { value } => {
                    storage.write(&entry.0, copy_bytes(value.as_slice()));
                },
                StorageModification::InitAccount { vp } => {
                    storage.write(&entry.0, copy_bytes(vp.as_slice()));
                },
                StorageModification::Delete => {
                    storage.delete(&entry.0);
                },
                StorageModification::Temp { value: _ } => {},
            }
            i += 1;
        }
        proof {
            assert(keys_of(pairs).take(i as int) =~= keys_of(pairs));
        }
        self.block_write_log.clear();
        proof {
            assert(self@.block_keys =~= Seq::<KeyView>::empty());
        }
    }

    /// Hand out the events of the block in the order in which they were
    /// emitted, and empty the buffer.
    pub fn take_events(&mut self) -> (events: Vec<Event>)
        ensures
            old(self).wf() ==> final(self).wf(),
            event_views(events@) == old(self)@.events,
            final(self)@ == (WriteLogView {
                events: Seq::empty(),
                committed_events: 0,
                ..old(self)@
            }),
    {
        let mut events: Vec<Event> = Vec::new();
        std::mem::swap(&mut self.events, &mut events);
        self.committed_events = 0;
        proof {
            assert(event_views(self.events@) =~= Seq::<EventView>::empty());
        }
        events
    }
}

/// What is stored under `key`, if anything.
pub open spec fn store_value(store: Map<KeyView, Seq<u8>>, key: KeyView) -> Option<Seq<u8>> {
    if store.dom().contains(key) {
        Some(store[key])
    } else {
        None
    }
}

/// After a transaction was accepted, a read of any key gives what it gave at
/// the moment of acceptance, unless the transaction had staged a value for
/// the key that lasts only until its end.
pub proof fn lemma_commit_tx_preserves_reads(
    tx: Scope,
    block: Scope,
    store: Map<KeyView, Seq<u8>>,
    key: KeyView,
)
    requires
        !(tx.dom().contains(key) && tx[key].is_temp()),
    ensures
        read_value(Map::empty(), merge_scopes(block, tx), store, key) == read_value(
            tx,
            block,
            store,
            key,
        ),
{
}

/// After a transaction was rejected, a read of any key gives what it gave
/// before the transaction started, whatever the transaction had staged.
pub proof fn lemma_drop_tx_restores_reads(
    before: WriteLogView,
    staged: Scope,
    store: Map<KeyView, Seq<u8>>,
    key: KeyView,
)
    requires
        before.tx == Map::<KeyView, ModificationView>::empty(),
    ensures
        ({
            let during = WriteLogView { tx: staged, ..before };
            let after = WriteLogView { tx: Map::empty(), ..during };
            read_value(after.tx, after.block, store, key) == read_value(
                before.tx,
                before.block,
                store,
                key,
            )
        }),
{
}

/// After the block layer was applied to the store, the store holds under
/// each key what a read through the block layer gave before.
pub proof fn lemma_commit_block_preserves_reads(
    store: StorageView,
    keys: Seq<KeyView>,
    block: Scope,
    key: KeyView,
)
    requires
        forall|i: int| 0 <= i < keys.len() ==> !block[#[trigger] keys[i]].is_temp(),
    ensures
        store_value(apply_block(store, keys, block).map, key) == if keys.contains(key) {
            block[key].value()
        } else {
            store_value(store.map, key)
        },
    decreases keys.len(),
{
    if keys.len() > 0 {
        let front = keys.drop_last();
        assert forall|i: int| 0 <= i < front.len() implies !block[#[trigger] front[i]].is_temp() by {
            assert(front[i] == keys[i]);
        }
        lemma_commit_block_preserves_reads(store, front, block, key);
        assert(keys =~= front.push(keys.last()));
        lemma_contains_push(front, keys.last(), key);
        assert(!block[keys[keys.len() - 1]].is_temp());
    }
}


/// The keys of pairs without repeated keys do not repeat.
pub proof fn lemma_keys_distinct_no_duplicates<K, W>(pairs: Seq<(K, W)>)
    requires
        keys_distinct(pairs),
    ensures
        keys_of(pairs).no_duplicates(),
{
    assert forall|i: int, j: int| 0 <= i < keys_of(pairs).len() && 0 <= j < keys_of(pairs).len()
        && i != j implies keys_of(pairs)[i] != keys_of(pairs)[j] by {
        if i < j {
            assert(pairs[i].0 != pairs[j].0);
        } else {
            assert(pairs[j].0 != pairs[i].0);
        }
    }
}

} // verus!
