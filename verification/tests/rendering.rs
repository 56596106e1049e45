use ledger_shell::event::{
    new_tx_event, AbciEvent, EmitEvents, Event, EventAttribute, EventError, EventLevel,
    EventToEmit, EventType, IbcEvent, TxEvent,
};
use ledger_shell::gas::BlockGasMeter;
use ledger_shell::ibc::{emit_ibc_event, get_ibc_events};
use ledger_shell::tx::run_tx;
use ledger_shell::write_log::WriteLog;

fn attribute(key: &str, value: &str) -> EventAttribute {
    EventAttribute { key: key.to_string(), value: value.to_string(), index: true }
}

fn ibc_event(event_type: &str, attributes: &[(&str, &str)]) -> IbcEvent {
    IbcEvent {
        event_type: event_type.to_string(),
        attributes: attributes.iter().map(|(k, v)| (k.to_string(), v.to_string())).collect(),
    }
}

#[test]
fn an_event_is_rendered_with_its_whole_type() {
    let mut event = Event::new(EventLevel::Block, EventType::new("tx/applied"));
    event.extend("height", "5");
    let rendered = AbciEvent::from_event(event);
    assert_eq!(rendered.kind, "tx/applied");
    assert_eq!(
        rendered.attributes,
        vec![attribute("height", "5"), attribute("event-level", "block")]
    );
}

#[test]
fn an_event_with_a_domain_attribute_is_rendered_with_its_sub_domain() {
    let event = ibc_event("send_packet", &[("packet", "p")]).into_event();
    assert_eq!(event.event_type.to_string(), "ibc/send_packet");
    let rendered = AbciEvent::from_event(event);
    assert_eq!(rendered.kind, "send_packet");
    assert_eq!(
        rendered.attributes,
        vec![
            attribute("packet", "p"),
            attribute("event-domain", "ibc"),
            attribute("event-level", "tx"),
        ]
    );
}

#[test]
fn tx_event_has_hash_height_and_log() {
    let event = new_tx_event(&[0xab, 0x01], 42);
    assert_eq!(event.level, EventLevel::Tx);
    assert_eq!(event.event_type, EventType::new("tx/applied"));
    assert_eq!(event.read_attribute("hash"), Ok("ab01".to_string()));
    assert_eq!(event.read_attribute("height"), Ok("42".to_string()));
    assert_eq!(event.read_attribute("log"), Ok(String::new()));
    assert_eq!(event.attributes.len(), 3);
    assert_eq!(<TxEvent as EventToEmit>::domain(), "tx");
    assert_eq!(TxEvent(event.clone()).into_event(), event);
}

#[test]
fn events_are_emitted_in_order() {
    let mut events: Vec<Event> = vec![Event::applied_tx()];
    events.emit(TxEvent(new_tx_event(&[1], 1)));
    events.emit_many(vec![ibc_event("a", &[]), ibc_event("b", &[])]);
    let kinds: Vec<String> = events.iter().map(|e| e.event_type.to_string()).collect();
    assert_eq!(kinds, vec!["tx/applied", "tx/applied", "ibc/a", "ibc/b"]);
    events.emit_many(Vec::<Event>::new());
    assert_eq!(events.len(), 4);
}

#[test]
fn ibc_event_round_trip() {
    let expected = ibc_event("channel_open", &[("port", "transfer"), ("channel", "7")]);
    let event = ibc_event("channel_open", &[("port", "transfer"), ("channel", "7")]).into_event();
    assert_eq!(IbcEvent::try_from(&event), Ok(expected));
    assert_eq!(<IbcEvent as EventToEmit>::domain(), "ibc");
    assert_eq!(IbcEvent::event_type_of("x").to_string(), "ibc/x");
    assert_eq!(IbcEvent::event_type_of("").to_string(), "ibc");
}

#[test]
fn events_of_other_domains_are_no_ibc_events() {
    assert_eq!(
        IbcEvent::try_from(&Event::applied_tx()),
        Err(EventError::InvalidDomain("tx".to_string()))
    );
    let plain = Event::new(EventLevel::Tx, EventType::new("ibc"));
    assert_eq!(
        IbcEvent::try_from(&plain),
        Err(EventError::InvalidDomain("unknown".to_string()))
    );
}

#[test]
fn ibc_events_are_found_in_the_write_log() {
    let mut context = run_tx(&[], &mut BlockGasMeter::default(), WriteLog::new()).unwrap();
    assert_eq!(emit_ibc_event(&mut context, ibc_event("send_packet", &[("n", "1")])), Ok(()));
    assert_eq!(context.emit_event(Event::applied_tx()), Ok(()));
    assert_eq!(emit_ibc_event(&mut context, ibc_event("send_packet", &[("n", "2")])), Ok(()));
    assert_eq!(emit_ibc_event(&mut context, ibc_event("ack", &[])), Ok(()));
    assert_eq!(context.emit_event(Event::new(EventLevel::Tx, EventType::new("ibcx/ack"))), Ok(()));
    let gas = "ibc/send_packet".len() as u64 * 2
        + ("n1".len() + "n2".len() + 2 * "event-domainibc".len()) as u64
        + "tx/applied".len() as u64
        + ("ibc/ack".len() + "event-domainibc".len()) as u64
        + "ibcx/ack".len() as u64;
    assert_eq!(context.initial_gas(), gas);
    assert_eq!(
        get_ibc_events(&context.write_log, "send_packet"),
        vec![ibc_event("send_packet", &[("n", "1")]), ibc_event("send_packet", &[("n", "2")])]
    );
    assert_eq!(get_ibc_events(&context.write_log, "ack"), vec![ibc_event("ack", &[])]);
    assert_eq!(get_ibc_events(&context.write_log, "").len(), 3);
    assert_eq!(get_ibc_events(&context.write_log, "other"), vec![]);
}
