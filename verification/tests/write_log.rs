use ledger_shell::address::{Address, AddressSet};
use ledger_shell::event::{Event, EventLevel, EventType};
use ledger_shell::hash::{hex_encode, tx_hash};
use ledger_shell::key::Key;
use ledger_shell::storage::Storage;
use ledger_shell::write_log::{gas_of_event, StorageModification, WriteLog};

fn key(text: &str) -> Key {
    Key::parse(text.to_string()).unwrap()
}

fn established(id: &str) -> Address {
    Address::Established(id.to_string())
}

#[test]
fn reads_look_through_the_layers() {
    let mut storage = Storage::new();
    storage.write(&key("@a/x"), vec![1]);
    storage.write(&key("@a/y"), vec![2]);
    let mut log = WriteLog::new();
    assert_eq!(log.read(&storage, &key("@a/x")), Some(vec![1]));
    assert_eq!(log.read(&storage, &key("@a/z")), None);
    log.write(&key("@a/x"), vec![10]);
    log.commit_tx();
    log.write(&key("@a/y"), vec![20]);
    assert_eq!(log.read(&storage, &key("@a/x")), Some(vec![10]));
    assert_eq!(log.read(&storage, &key("@a/y")), Some(vec![20]));
    log.delete(&key("@a/x"));
    assert_eq!(log.read(&storage, &key("@a/x")), None);
    assert!(!log.has_key(&storage, &key("@a/x")));
    assert!(log.has_key(&storage, &key("@a/y")));
}

#[test]
fn commit_tx_keeps_what_the_transaction_saw() {
    let mut storage = Storage::new();
    storage.write(&key("@a/x"), vec![1]);
    storage.write(&key("@a/gone"), vec![3]);
    let mut log = WriteLog::new();
    log.write(&key("@a/x"), vec![10]);
    log.write(&key("@b/new"), vec![11]);
    log.delete(&key("@a/gone"));
    let keys = [key("@a/x"), key("@b/new"), key("@a/gone"), key("@a/other")];
    let before: Vec<Option<Vec<u8>>> = keys.iter().map(|k| log.read(&storage, k)).collect();
    log.commit_tx();
    let after: Vec<Option<Vec<u8>>> = keys.iter().map(|k| log.read(&storage, k)).collect();
    assert_eq!(before, after);
    assert_eq!(after, vec![Some(vec![10]), Some(vec![11]), None, None]);
    assert_eq!(log.tx_write_log.len(), 0);
    assert_eq!(log.block_write_log.len(), 3);
}

#[test]
fn drop_tx_restores_what_was_there_before() {
    let mut storage = Storage::new();
    storage.write(&key("@a/x"), vec![1]);
    let mut log = WriteLog::new();
    log.write(&key("@a/y"), vec![2]);
    log.commit_tx();
    let keys = [key("@a/x"), key("@a/y"), key("@a/z")];
    let before: Vec<Option<Vec<u8>>> = keys.iter().map(|k| log.read(&storage, k)).collect();
    log.write(&key("@a/x"), vec![100]);
    log.delete(&key("@a/y"));
    log.write(&key("@a/z"), vec![5]);
    log.emit_event(Event::applied_tx());
    log.drop_tx();
    let after: Vec<Option<Vec<u8>>> = keys.iter().map(|k| log.read(&storage, k)).collect();
    assert_eq!(before, after);
    assert!(log.events.is_empty());
    assert_eq!(log.tx_write_log.len(), 0);
}

#[test]
fn temporary_values_end_with_the_transaction() {
    let storage = Storage::new();
    let mut log = WriteLog::new();
    log.write_temp(&key("#temp/actions"), vec![9]);
    log.write(&key("@a/x"), vec![1]);
    assert_eq!(log.read(&storage, &key("#temp/actions")), Some(vec![9]));
    log.commit_tx();
    assert_eq!(log.read(&storage, &key("#temp/actions")), None);
    assert_eq!(log.read(&storage, &key("@a/x")), Some(vec![1]));
    assert_eq!(log.block_write_log.len(), 1);
}

#[test]
fn init_account_follows_from_the_transaction_hash() {
    let hash = tx_hash(b"some transaction");
    let mut log = WriteLog::new();
    log.begin_tx(&hash);
    let first = log.init_account(vec![1, 2, 3]);
    let second = log.init_account(vec![4]);
    assert_ne!(first, second);
    let expected_first = hex_encode(&tx_hash(&hash));
    let expected_second = hex_encode(&tx_hash(&tx_hash(&hash)));
    assert_eq!(first, Address::Established(expected_first));
    assert_eq!(second, Address::Established(expected_second));
    let storage = Storage::new();
    assert_eq!(log.read(&storage, &Key::validity_predicate(&first)), Some(vec![1, 2, 3]));
    assert_eq!(log.read(&storage, &Key::validity_predicate(&second)), Some(vec![4]));
    let mut again = WriteLog::new();
    again.begin_tx(&hash);
    assert_eq!(again.init_account(vec![]), first);
    let (verifiers, _) = log.verifiers_and_changed_keys(&AddressSet::new());
    assert!(verifiers.contains(&first));
    assert!(verifiers.contains(&second));
}

#[test]
fn events_are_found_by_prefix_in_order() {
    let mut log = WriteLog::new();
    let mut first = Event::new(EventLevel::Tx, EventType::new("ibc/channel/open"));
    first.extend("n", "1");
    let second = Event::new(EventLevel::Tx, EventType::new("tx/applied"));
    let third = Event::new(EventLevel::Tx, EventType::new("ibc/channel/close"));
    log.emit_event(first.clone());
    log.emit_event(second.clone());
    log.emit_event(third.clone());
    assert_eq!(
        log.lookup_events_with_prefix(&EventType::new("ibc/channel")),
        vec![first.clone(), third.clone()]
    );
    assert_eq!(log.lookup_events_with_prefix(&EventType::new("tx")), vec![second.clone()]);
    assert_eq!(log.lookup_events_with_prefix(&EventType::new("eth")), vec![]);
    log.commit_tx();
    assert_eq!(log.take_events(), vec![first, second, third]);
    assert!(log.events.is_empty());
}

#[test]
fn event_gas_is_its_size_in_bytes() {
    let mut event = Event::new(EventLevel::Tx, EventType::new("tx/applied"));
    assert_eq!(gas_of_event(&event), 10);
    event.extend("height", "12");
    assert_eq!(gas_of_event(&event), 18);
    event.extend("caf\u{e9}", "");
    assert_eq!(gas_of_event(&event), 23);
    let mut log = WriteLog::new();
    assert_eq!(log.emit_event(event), 23);
}

#[test]
fn changed_keys_are_those_of_both_layers() {
    let mut log = WriteLog::new();
    log.write(&key("@a/x"), vec![1]);
    log.write(&key("@a/y"), vec![1]);
    log.commit_tx();
    log.write(&key("@a/y"), vec![2]);
    log.write(&key("@b/z"), vec![3]);
    let changed: Vec<String> = log.get_changed_keys().iter().map(|k| k.to_string()).collect();
    assert_eq!(changed, vec!["@a/y", "@b/z", "@a/x"]);
    let of_tx: Vec<String> = log.tx_keys().iter().map(|k| k.to_string()).collect();
    assert_eq!(of_tx, vec!["@a/y", "@b/z"]);
}

#[test]
fn every_address_of_a_changed_key_is_a_verifier() {
    let mut log = WriteLog::new();
    log.write(&key("@alan/balance/eth"), vec![1]);
    log.write(&key("@ada/balance/eth"), vec![2]);
    log.delete(&key("@bob/transfer/@alan"));
    log.write(&key("plain/key"), vec![]);
    let mut declared = AddressSet::new();
    declared.insert(established("carol"));
    let (verifiers, keys) = log.verifiers_and_changed_keys(&declared);
    assert_eq!(
        verifiers.items,
        vec![established("carol"), established("alan"), established("ada"), established("bob")]
    );
    for changed in &keys {
        for address in &changed.find_addresses().items {
            assert!(verifiers.contains(address));
        }
    }
    assert_eq!(keys.len(), 4);
}

#[test]
fn verifiers_of_the_block_layer_do_not_count() {
    let mut log = WriteLog::new();
    log.write(&key("@old/x"), vec![1]);
    log.commit_tx();
    log.write(&key("@new/x"), vec![1]);
    let (verifiers, _) = log.verifiers_and_changed_keys(&AddressSet::new());
    assert_eq!(verifiers.items, vec![established("new")]);
}

#[test]
fn commit_block_applies_the_block_layer_to_the_store() {
    let mut storage = Storage::new();
    storage.write(&key("@a/gone"), vec![3]);
    let mut log = WriteLog::new();
    log.write(&key("@a/x"), vec![10]);
    log.delete(&key("@a/gone"));
    let account = log.init_account(vec![7]);
    log.commit_tx();
    let root_before = storage.merkle_root();
    log.commit_block(&mut storage);
    assert_eq!(storage.read(&key("@a/x")), Some(vec![10]));
    assert_eq!(storage.read(&key("@a/gone")), None);
    assert_eq!(storage.validity_predicate(&account), Some(vec![7]));
    assert_eq!(log.block_write_log.len(), 0);
    assert_ne!(storage.merkle_root(), root_before);
    assert_eq!(log.read(&storage, &key("@a/x")), Some(vec![10]));
}

#[test]
fn a_copy_of_the_log_is_independent() {
    let mut log = WriteLog::new();
    log.write(&key("@a/x"), vec![1]);
    log.emit_event(Event::applied_tx());
    let mut copy = log.clone();
    copy.write(&key("@a/y"), vec![2]);
    copy.commit_tx();
    assert_eq!(log.tx_write_log.len(), 1);
    assert_eq!(log.block_write_log.len(), 0);
    assert_eq!(copy.block_write_log.len(), 2);
    assert_eq!(
        log.tx_write_log.entries,
        vec![(key("@a/x"), StorageModification::Write { value: vec![1] })]
    );
}
