//! Ledger events.
//!
//! An event has a level, a type and attributes. The type is a path whose
//! parts are separated by `/`: what stands before the first separator is the
//! domain of the event, what stands after it the sub-domain.

use crate::key::{index_of_separator, lemma_index_of_separator, SEPARATOR};
use crate::keymap::{
    has_key, index_of_key, keys_distinct, lemma_map_of_at, lemma_map_of_empty,
    lemma_map_of_push, lemma_map_of_update, map_of,
};
use vstd::prelude::*;

verus! {

/// The domain of an event type without a separator.
pub const UNKNOWN_DOMAIN: &'static str = "unknown";

/// The domain of transaction events.
pub const TX_DOMAIN: &'static str = "tx";

/// The domain of events of the inter-chain protocol.
pub const IBC_DOMAIN: &'static str = "ibc";

/// The domain of events of the bridge.
pub const ETH_BRIDGE_DOMAIN: &'static str = "eth-bridge";

/// The type of the event that reports an applied transaction.
pub const APPLIED_TX: &'static str = "tx/applied";

/// The attribute that carries the domain of an event whose rendered type is
/// its sub-domain alone.
pub const DOMAIN_ATTRIBUTE: &'static str = "event-domain";

/// The attribute that carries the level of a rendered event.
pub const LEVEL_ATTRIBUTE: &'static str = "event-level";

/// Whether two texts are the same.
pub fn same_text(a: &str, b: &str) -> (equal: bool)
    ensures
        equal == (a@ == b@),
{
    String::from_str(a) == String::from_str(b)
}

/// `prefix` stands at the start of `text`.
pub open spec fn is_prefix(prefix: Seq<char>, text: Seq<char>) -> bool {
    prefix.len() <= text.len() && text.take(prefix.len() as int) == prefix
}

/// Whether `text` starts with `prefix`.
pub fn starts_with(text: &str, prefix: &str) -> (found: bool)
    ensures
        found == is_prefix(prefix@, text@),
{
    let n: usize = prefix.unicode_len();
    if n > text.unicode_len() {
        return false;
    }
    let start = text.substring_char(0, n);
    proof {
        assert(text@.subrange(0, n as int) =~= text@.take(n as int));
    }
    same_text(start, prefix)
}

/// The position of the first separator in `text`, or its length if it holds
/// none.
pub fn find_separator(text: &str) -> (at: usize)
    ensures
        at == index_of_separator(text@),
        at <= text@.len(),
        at < text@.len() ==> text@[at as int] == SEPARATOR,
        forall|k: int| 0 <= k < at ==> text@[k] != SEPARATOR,
{
    let len: usize = text.unicode_len();
    let mut i: usize = 0;
    while i < len
        invariant
            len == text@.len(),
            i <= len,
            forall|k: int| 0 <= k < i ==> text@[k] != SEPARATOR,
        decreases len - i,
    {
        if text.get_char(i) == SEPARATOR {
            proof {
                lemma_index_of_separator(text@, i as int);
            }
            return i;
        }
        i += 1;
    }
    proof {
        lemma_index_of_separator(text@, len as int);
    }
    len
}

/// The domain of an event type: what stands before its first separator, or
/// `unknown` if it has none.
pub open spec fn event_domain(text: Seq<char>) -> Seq<char> {
    let at = index_of_separator(text);
    if 0 <= at < text.len() {
        text.take(at)
    } else {
        UNKNOWN_DOMAIN@
    }
}

/// The sub-domain of an event type: what stands after its first separator, or
/// nothing if it has none.
pub open spec fn event_sub_domain(text: Seq<char>) -> Seq<char> {
    let at = index_of_separator(text);
    if 0 <= at < text.len() {
        text.skip(at + 1)
    } else {
        Seq::empty()
    }
}

/// An event type read from text: the text itself, if it holds a separator.
pub open spec fn parse_event_type(text: Seq<char>) -> Option<Seq<char>> {
    if 0 <= index_of_separator(text) < text.len() {
        Some(text)
    } else {
        None
    }
}

/// An event type with a separator is read back from its text unchanged.
pub proof fn lemma_event_type_round_trip(text: Seq<char>)
    requires
        text.contains(SEPARATOR),
    ensures
        parse_event_type(text) == Some(text),
{
    lemma_separator_found(text);
}

/// A text that holds a separator has a first one.
pub proof fn lemma_separator_found(text: Seq<char>)
    requires
        text.contains(SEPARATOR),
    ensures
        0 <= index_of_separator(text) < text.len(),
        text[index_of_separator(text)] == SEPARATOR,
    decreases text.len(),
{
    let i = choose|i: int| 0 <= i < text.len() && text[i] == SEPARATOR;
    if text[0] != SEPARATOR {
        assert(text.skip(1)[i - 1] == SEPARATOR);
        lemma_separator_found(text.skip(1));
    }
}

/// Whether an event belongs to a finalized block or to one transaction.
#[derive(Clone, Copy, Debug, PartialEq, Eq, Hash, Structural)]
pub enum EventLevel {
    /// The event has to do with a finalized block.
    Block,
    /// The event has to do with an individual transaction.
    Tx,
}

impl EventLevel {
    /// The level in text.
    pub open spec fn text(self) -> Seq<char> {
        match self {
            EventLevel::Block => "block"@,
            EventLevel::Tx => "tx"@,
        }
    }

    /// The level in text: `block` or `tx`.
    pub fn to_string(&self) -> (text: String)
        ensures
            text@ == self.text(),
    {
        match self {
            EventLevel::Block => String::from_str("block"),
            EventLevel::Tx => String::from_str("tx"),
        }
    }
}

/// What can go wrong with events.
#[derive(Clone, Debug, PartialEq, Eq)]
pub enum EventError {
    /// The domain of the event is not the expected one.
    InvalidDomain(String),
    /// The event type has no domain.
    MissingDomain,
    /// The event has no attribute of this name.
    MissingAttribute(String),
    /// An attribute could not be read.
    AttributeEncoding(String),
    /// The event type could not be read.
    InvalidEventType,
    /// The attributes are missing altogether.
    MissingAttributes,
    /// An attribute has no key.
    MissingKey(String),
    /// An attribute has no value.
    MissingValue(String),
}

/// The type of an event: its domain and sub-domain, plus any other
/// specifiers.
#[derive(Debug, PartialEq, Eq, PartialOrd, Ord, Hash)]
pub struct EventType {
    pub inner: String,
}

impl View for EventType {
    type V = Seq<char>;

    open spec fn view(&self) -> Seq<char> {
        self.inner@
    }
}

impl Clone for EventType {
    fn clone(&self) -> (copy: EventType)
        ensures
            copy@ == self@,
    {
        EventType { inner: self.inner.clone() }
    }
}

impl EventType {
    /// An event type with the given text.
    pub fn new(event_type: &'static str) -> (kind: EventType)
        ensures
            kind@ == event_type@,
    {
        EventType { inner: String::from_str(event_type) }
    }

    /// The domain of the event type.
    pub fn domain(&self) -> (domain: &str)
        ensures
            domain@ == event_domain(self@),
    {
        let text = self.inner.as_str();
        let at: usize = find_separator(text);
        if at < text.unicode_len() {
            let domain = text.substring_char(0, at);
            proof {
                assert(text@.subrange(0, at as int) =~= text@.take(at as int));
            }
            domain
        } else {
            UNKNOWN_DOMAIN
        }
    }

    /// The sub-domain of the event type.
    pub fn sub_domain(&self) -> (sub_domain: &str)
        ensures
            sub_domain@ == event_sub_domain(self@),
    {
        let text = self.inner.as_str();
        let len: usize = text.unicode_len();
        let at: usize = find_separator(text);
        if at < len {
            let sub_domain = text.substring_char(at + 1, len);
            proof {
                assert(text@.subrange(at + 1, len as int) =~= text@.skip(at + 1));
            }
            sub_domain
        } else {
            proof {
                reveal_strlit("");
                assert(""@ =~= Seq::<char>::empty());
            }
            ""
        }
    }

    /// The event type in text.
    pub fn to_string(&self) -> (text: String)
        ensures
            text@ == self@,
    {
        self.inner.clone()
    }

    /// Read an event type from text. A text without a separator has no
    /// domain and is refused.
    pub fn from_str(s: &str) -> (result: Result<EventType, EventError>)
        ensures
            match result {
                Ok(kind) => parse_event_type(s@) == Some(kind@),
                Err(e) => parse_event_type(s@).is_none() && e == EventError::MissingDomain,
            },
    {
        let at: usize = find_separator(s);
        if at < s.unicode_len() {
            Ok(EventType { inner: String::from_str(s) })
        } else {
            Err(EventError::MissingDomain)
        }
    }

    /// Whether the event type starts with `prefix`.
    pub fn has_prefix(&self, prefix: &EventType) -> (found: bool)
        ensures
            found == is_prefix(prefix@, self@),
    {
        starts_with(self.inner.as_str(), prefix.inner.as_str())
    }
}

/// The text of a builder after one more segment: a separator and the
/// segment, unless the segment is empty.
pub open spec fn with_segment_text(text: Seq<char>, segment: Seq<char>) -> Seq<char> {
    if segment.len() == 0 {
        text
    } else {
        text + seq![SEPARATOR] + segment
    }
}

/// Builds an [`EventType`] segment by segment.
#[derive(Debug)]
pub struct EventTypeBuilder {
    pub inner: String,
}

impl View for EventTypeBuilder {
    type V = Seq<char>;

    open spec fn view(&self) -> Seq<char> {
        self.inner@
    }
}

impl EventTypeBuilder {
    /// A builder that starts with the given domain.
    pub fn new_with_domain(domain: &str) -> (builder: EventTypeBuilder)
        ensures
            builder@ == domain@,
    {
        EventTypeBuilder { inner: String::from_str(domain) }
    }

    /// A builder that starts with the domain of the events `E`.
    pub fn new_of<E: EventToEmit>() -> (builder: EventTypeBuilder)
        ensures
            builder@ == E::domain_text(),
    {
        EventTypeBuilder::new_with_domain(E::domain())
    }

    /// Append a segment to the event type. An empty segment adds nothing.
    pub fn append_segment(&mut self, segment: &str)
        ensures
            final(self)@ == with_segment_text(old(self)@, segment@),
    {
        if segment.unicode_len() != 0 {
            proof {
                reveal_strlit("/");
                assert("/"@ =~= seq![SEPARATOR]);
            }
            self.inner.append("/");
            self.inner.append(segment);
        }
    }

    /// Append a segment to the event type and hand the builder back.
    pub fn with_segment(self, segment: &str) -> (builder: EventTypeBuilder)
        ensures
            builder@ == with_segment_text(self@, segment@),
    {
        let mut builder = self;
        builder.append_segment(segment);
        builder
    }

    /// The event type that was built.
    pub fn build(self) -> (kind: EventType)
        ensures
            kind@ == self@,
    {
        EventType { inner: self.inner }
    }
}

/// What the attributes of an event stand for in contracts: name and value of
/// each, in the order in which the names were first set.
pub open spec fn attribute_pairs(attributes: Seq<(String, String)>) -> Seq<(Seq<char>, Seq<char>)> {
    attributes.map_values(|entry: (String, String)| (entry.0@, entry.1@))
}

/// The attributes after `name` was set to `value`: an attribute of that name
/// keeps its place, a new one goes to the end.
pub open spec fn set_attribute(
    attributes: Seq<(Seq<char>, Seq<char>)>,
    name: Seq<char>,
    value: Seq<char>,
) -> Seq<(Seq<char>, Seq<char>)> {
    if has_key(attributes, name) {
        attributes.update(index_of_key(attributes, name), (name, value))
    } else {
        attributes.push((name, value))
    }
}

/// What an [`Event`] stands for in contracts.
pub struct EventView {
    pub level: EventLevel,
    pub event_type: Seq<char>,
    pub attributes: Seq<(Seq<char>, Seq<char>)>,
}

impl EventView {
    /// The attributes as a map from name to value.
    pub open spec fn attribute_map(self) -> Map<Seq<char>, Seq<char>> {
        map_of(self.attributes)
    }
}

/// An event of the ledger.
#[derive(Debug, PartialEq, Eq)]
pub struct Event {
    /// Whether the event relates to a block or to an individual transaction.
    pub level: EventLevel,
    /// The type of the event.
    pub event_type: EventType,
    /// The attributes of the event. No name occurs twice.
    pub attributes: Vec<(String, String)>,
}

impl View for Event {
    type V = EventView;

    open spec fn view(&self) -> EventView {
        EventView {
            level: self.level,
            event_type: self.event_type@,
            attributes: attribute_pairs(self.attributes@),
        }
    }
}

impl Clone for Event {
    fn clone(&self) -> (copy: Event)
        ensures
            copy@ == self@,
    {
        let mut attributes: Vec<(String, String)> = Vec::new();
        let mut i: usize = 0;
        while i < self.attributes.len()
            invariant
                i <= self.attributes.len(),
                attribute_pairs(attributes@) == attribute_pairs(self.attributes@.take(i as int)),
            decreases self.attributes.len() - i,
        {
            let ghost before = attributes@;
            let name = self.attributes[i].0.clone();
            let value = self.attributes[i].1.clone();
            attributes.push((name, value));
            proof {
                assert(attribute_pairs(attributes@) =~= attribute_pairs(before).push(
                    (name@, value@),
                ));
                assert(attribute_pairs(self.attributes@.take(i + 1)) =~= attribute_pairs(
                    self.attributes@.take(i as int),
                ).push((name@, value@)));
            }
            i += 1;
        }
        proof {
            assert(self.attributes@.take(i as int) =~= self.attributes@);
        }
        Event { level: self.level, event_type: self.event_type.clone(), attributes }
    }
}

impl Event {
    /// No attribute name occurs twice.
    pub open spec fn wf(&self) -> bool {
        keys_distinct(self@.attributes)
    }

    /// An event of the given level and type without attributes.
    pub fn new(level: EventLevel, event_type: EventType) -> (event: Event)
        ensures
            event.wf(),
            event@ == (EventView { level, event_type: event_type@, attributes: Seq::empty() }),
    {
        let event = Event { level, event_type, attributes: Vec::new() };
        proof {
            lemma_map_of_empty::<Seq<char>, Seq<char>>();
            assert(event@.attributes =~= Seq::<(Seq<char>, Seq<char>)>::empty());
        }
        event
    }

    /// The event that reports an applied transaction, without attributes.
    pub fn applied_tx() -> (event: Event)
        ensures
            event.wf(),
            event@ == (EventView {
                level: EventLevel::Tx,
                event_type: APPLIED_TX@,
                attributes: Seq::empty(),
            }),
    {
        Event::new(EventLevel::Tx, EventType::new(APPLIED_TX))
    }

    fn position(&self, name: &str) -> (found: Option<usize>)
        ensures
            match found {
                Some(i) => i < self@.attributes.len() && self@.attributes[i as int].0 == name@,
                None => !has_key(self@.attributes, name@),
            },
    {
        let mut i: usize = 0;
        while i < self.attributes.len()
            invariant
                i <= self.attributes.len(),
                forall|j: int| 0 <= j < i ==> (#[trigger] self@.attributes[j]).0 != name@,
            decreases self.attributes.len() - i,
        {
            if same_text(self.attributes[i].0.as_str(), name) {
                return Some(i);
            }
            i += 1;
        }
        None
    }

    /// The value of the attribute `name`, if the event has it.
    pub fn read_attribute(&self, name: &str) -> (result: Result<String, EventError>)
        requires
            self.wf(),
        ensures
            match result {
                Ok(value) => self@.attribute_map().dom().contains(name@)
                    && self@.attribute_map()[name@] == value@,
                Err(e) => !self@.attribute_map().dom().contains(name@) && (e matches EventError::MissingAttribute(
                    missing,
                ) && missing@ == name@),
            },
    {
        match self.position(name) {
            Some(i) => {
                proof {
                    lemma_map_of_at(self@.attributes, i as int);
                }
                Ok(self.attributes[i].1.clone())
            },
            None => Err(EventError::MissingAttribute(String::from_str(name))),
        }
    }

    /// Whether the event has the attribute `name`.
    pub fn has_attribute(&self, name: &str) -> (found: bool)
        ensures
            found == self@.attribute_map().dom().contains(name@),
    {
        self.position(name).is_some()
    }

    /// Set the attribute `name` to `value`. An attribute that the event
    /// already has keeps its place; a new one goes to the end.
    pub fn extend(&mut self, name: &str, value: &str)
        requires
            old(self).wf(),
        ensures
            final(self).wf(),
            final(self)@.level == old(self)@.level,
            final(self)@.event_type == old(self)@.event_type,
            final(self)@.attributes == set_attribute(old(self)@.attributes, name@, value@),
            final(self)@.attribute_map() == old(self)@.attribute_map().insert(name@, value@),
    {
        let ghost before = self@.attributes;
        let entry = (String::from_str(name), String::from_str(value));
        match self.position(name) {
            Some(i) => {
                self.attributes.set(i, entry);
                proof {
                    lemma_map_of_update(before, i as int, value@);
                    lemma_map_of_at(before, i as int);
                    assert(self@.attributes =~= before.update(
                        i as int,
                        (before[i as int].0, value@),
                    ));
                }
            },
            None => {
                self.attributes.push(entry);
                proof {
                    lemma_map_of_push(before, name@, value@);
                    assert(self@.attributes =~= before.push((name@, value@)));
                }
            },
        }
    }
}

/// Something that can be emitted as an event of a fixed domain.
pub trait EventToEmit {
    /// The domain of these events in contracts.
    spec fn domain_text() -> Seq<char>;

    /// The domain of these events.
    fn domain() -> (domain: &'static str)
        ensures
            domain@ == Self::domain_text(),
    ;

    /// The event to emit.
    fn into_event(self) -> Event;
}

impl EventToEmit for Event {
    open spec fn domain_text() -> Seq<char> {
        UNKNOWN_DOMAIN@
    }

    fn domain() -> (domain: &'static str) {
        UNKNOWN_DOMAIN
    }

    fn into_event(self) -> (event: Event)
        ensures
            event == self,
    {
        self
    }
}

/// One attribute of an event as the consensus engine takes it.
#[derive(Debug, PartialEq, Eq)]
pub struct EventAttribute {
    pub key: String,
    pub value: String,
    /// Whether the consensus engine is to index the attribute.
    pub index: bool,
}

/// An event as the consensus engine takes it.
#[derive(Debug, PartialEq, Eq)]
pub struct AbciEvent {
    pub kind: String,
    pub attributes: Vec<EventAttribute>,
}

/// What a rendered attribute stands for in contracts: key, value, and
/// whether it is indexed.
pub open spec fn rendered_attribute_views(attributes: Seq<EventAttribute>) -> Seq<
    (Seq<char>, Seq<char>, bool),
> {
    attributes.map_values(|a: EventAttribute| (a.key@, a.value@, a.index))
}

/// The type under which an event is rendered: its sub-domain alone if the
/// event carries its domain as an attribute, its whole type otherwise.
pub open spec fn rendered_type(event: EventView) -> Seq<char> {
    if has_key(event.attributes, DOMAIN_ATTRIBUTE@) {
        event_sub_domain(event.event_type)
    } else {
        event.event_type
    }
}

/// The attributes with which an event is rendered: its own, in order and
/// all indexed, and then its level.
pub open spec fn rendered_attributes(event: EventView) -> Seq<(Seq<char>, Seq<char>, bool)> {
    event.attributes.map_values(|a: (Seq<char>, Seq<char>)| (a.0, a.1, true)).push(
        (LEVEL_ATTRIBUTE@, event.level.text(), true),
    )
}

impl AbciEvent {
    /// Render an event for the consensus engine.
    pub fn from_event(event: Event) -> (rendered: AbciEvent)
        ensures
            rendered.kind@ == rendered_type(event@),
            rendered_attribute_views(rendered.attributes@) == rendered_attributes(event@),
    {
        let kind = if event.has_attribute(DOMAIN_ATTRIBUTE) {
            String::from_str(event.event_type.sub_domain())
        } else {
            event.event_type.to_string()
        };
        let mut attributes: Vec<EventAttribute> = Vec::new();
        let mut i: usize = 0;
        let ghost own = event@.attributes.map_values(
            |a: (Seq<char>, Seq<char>)| (a.0, a.1, true),
        );
        proof {
            assert(rendered_attribute_views(attributes@) =~= own.take(0));
        }
        while i < event.attributes.len()
            invariant
                i <= event.attributes.len(),
                own == event@.attributes.map_values(|a: (Seq<char>, Seq<char>)| (a.0, a.1, true)),
                rendered_attribute_views(attributes@) == own.take(i as int),
            decreases event.attributes.len() - i,
        {
            let ghost before = attributes@;
            let attribute = EventAttribute {
                key: event.attributes[i].0.clone(),
                value: event.attributes[i].1.clone(),
                index: true,
            };
            attributes.push(attribute);
            proof {
                assert(rendered_attribute_views(attributes@) =~= rendered_attribute_views(
                    before,
                ).push((attribute.key@, attribute.value@, true)));
                assert(own.take(i + 1) =~= own.take(i as int).push(
                    (attribute.key@, attribute.value@, true),
                ));
            }
            i += 1;
        }
        let ghost before = attributes@;
        let level = EventAttribute {
            key: String::from_str(LEVEL_ATTRIBUTE),
            value: event.level.to_string(),
            index: true,
        };
        attributes.push(level);
        proof {
            assert(own.take(i as int) =~= own);
            assert(rendered_attribute_views(attributes@) =~= rendered_attribute_views(before).push(
                (level.key@, level.value@, true),
            ));
        }
        AbciEvent { kind, attributes }
    }
}

/// Something that events can be emitted to.
pub trait EmitEvents {
    /// Emit a single event.
    fn emit<E: EventToEmit>(&mut self, event: E);

    /// Emit a batch of events, in order.
    fn emit_many<E: EventToEmit>(&mut self, event_batch: Vec<E>);
}

impl EmitEvents for Vec<Event> {
    fn emit<E: EventToEmit>(&mut self, event: E)
        ensures
            final(self)@.len() == old(self)@.len() + 1,
            final(self)@.take(old(self)@.len() as int) == old(self)@,
    {
        self.push(event.into_event());
        proof {
            assert(self@.take(old(self)@.len() as int) =~= old(self)@);
        }
    }

    fn emit_many<E: EventToEmit>(&mut self, event_batch: Vec<E>)
        ensures
            final(self)@.len() == old(self)@.len() + event_batch@.len(),
            final(self)@.take(old(self)@.len() as int) == old(self)@,
    {
        let mut batch = event_batch;
        let n: usize = batch.len();
        let mut done: usize = 0;
        proof {
            assert(self@.take(old(self)@.len() as int) =~= old(self)@);
        }
        while batch.len() > 0
            invariant
                done + batch@.len() == n,
                self@.len() == old(self)@.len() + done,
                self@.take(old(self)@.len() as int) == old(self)@,
            decreases batch@.len(),
        {
            let event = batch.remove(0);
            let ghost before = self@;
            self.push(event.into_event());
            proof {
                assert(self@.take(old(self)@.len() as int) =~= before.take(
                    old(self)@.len() as int,
                ));
            }
            done += 1;
        }
    }
}

/// An event of a transaction.
#[derive(Debug, PartialEq, Eq)]
pub struct TxEvent(pub Event);

impl EventToEmit for TxEvent {
    open spec fn domain_text() -> Seq<char> {
        TX_DOMAIN@
    }

    fn domain() -> (domain: &'static str) {
        TX_DOMAIN
    }

    fn into_event(self) -> (event: Event)
        ensures
            event == self.0,
    {
        self.0
    }
}

/// The attribute that carries the hash of a transaction.
pub const HASH_ATTRIBUTE: &'static str = "hash";

/// The attribute that carries the height of the block of a transaction.
pub const HEIGHT_ATTRIBUTE: &'static str = "height";

/// The attribute that carries what a transaction logged.
pub const LOG_ATTRIBUTE: &'static str = "log";

/// The attributes of the event of an applied transaction: the hash of the
/// transaction in hexadecimal, then the height of its block in decimal, then
/// an empty log.
pub open spec fn tx_event_attributes(tx_hash: Seq<u8>, height: u64) -> Seq<(Seq<char>, Seq<char>)> {
    set_attribute(
        set_attribute(
            set_attribute(Seq::empty(), HASH_ATTRIBUTE@, crate::hash::hex_text(tx_hash)),
            HEIGHT_ATTRIBUTE@,
            crate::text::decimal_text(height as nat),
        ),
        LOG_ATTRIBUTE@,
        Seq::empty(),
    )
}

/// The event of an applied transaction, with the hash of the transaction in
/// hexadecimal, the height of its block in decimal and an empty log.
pub fn new_tx_event(tx_hash: &[u8], height: u64) -> (event: Event)
    ensures
        event.wf(),
        event@ == (EventView {
            level: EventLevel::Tx,
            event_type: APPLIED_TX@,
            attributes: tx_event_attributes(tx_hash@, height),
        }),
{
    let mut event = Event::applied_tx();
    event.extend(HASH_ATTRIBUTE, crate::hash::hex_encode(tx_hash).as_str());
    event.extend(HEIGHT_ATTRIBUTE, crate::text::u64_to_string(height).as_str());
    proof {
        reveal_strlit("");
        assert(""@ =~= Seq::<char>::empty());
    }
    event.extend(LOG_ATTRIBUTE, "");
    event
}

/// An event of the inter-chain protocol: its type within the protocol and
/// its attributes.
#[derive(Debug, PartialEq, Eq)]
pub struct IbcEvent {
    pub event_type: String,
    pub attributes: Vec<(String, String)>,
}

/// The type of the ledger event of an event of the inter-chain protocol:
/// the domain of the protocol, then the type within the protocol.
pub open spec fn ibc_event_type(event_type: Seq<char>) -> Seq<char> {
    with_segment_text(IBC_DOMAIN@, event_type)
}

impl IbcEvent {
    /// The type of the ledger events of the given type within the protocol.
    pub fn event_type_of(event_type: &str) -> (kind: EventType)
        ensures
            kind@ == ibc_event_type(event_type@),
    {
        EventTypeBuilder::new_with_domain(IBC_DOMAIN).with_segment(event_type).build()
    }

    /// The event of the inter-chain protocol that a ledger event stands for.
    /// Its domain must be that of the protocol; its type within the protocol
    /// is its sub-domain, and its attributes are those of the ledger event
    /// but for the one that carries the domain.
    pub fn try_from(event: &Event) -> (result: Result<IbcEvent, EventError>)
        ensures
            match result {
                Ok(ibc) => event_domain(event@.event_type) == IBC_DOMAIN@ && ibc.event_type@
                    == event_sub_domain(event@.event_type) && attribute_pairs(ibc.attributes@)
                    == without_domain(event@.attributes),
                Err(e) => event_domain(event@.event_type) != IBC_DOMAIN@ && (
                e matches EventError::InvalidDomain(domain) && domain@ == event_domain(
                    event@.event_type,
                )),
            },
    {
        let domain = event.event_type.domain();
        if !same_text(domain, IBC_DOMAIN) {
            return Err(EventError::InvalidDomain(String::from_str(domain)));
        }
        let mut attributes: Vec<(String, String)> = Vec::new();
        let mut i: usize = 0;
        let ghost all = event@.attributes;
        proof {
            assert(attribute_pairs(attributes@) =~= without_domain(all.take(0)));
        }
        while i < event.attributes.len()
            invariant
                i <= event.attributes.len(),
                all == event@.attributes,
                attribute_pairs(attributes@) == without_domain(all.take(i as int)),
            decreases event.attributes.len() - i,
        {
            proof {
                let longer = all.take(i + 1);
                assert(longer.drop_last() =~= all.take(i as int));
                assert(longer.last() == all[i as int]);
            }
            if !same_text(event.attributes[i].0.as_str(), DOMAIN_ATTRIBUTE) {
                let ghost before = attributes@;
                let name = event.attributes[i].0.clone();
                let value = event.attributes[i].1.clone();
                attributes.push((name, value));
                proof {
                    assert(attribute_pairs(attributes@) =~= attribute_pairs(before).push(
                        (name@, value@),
                    ));
                }
            }
            i += 1;
        }
        proof {
            assert(all.take(i as int) =~= all);
        }
        Ok(IbcEvent { event_type: String::from_str(event.event_type.sub_domain()), attributes })
    }
}

/// The attributes but for the one that carries the domain.
pub open spec fn without_domain(attributes: Seq<(Seq<char>, Seq<char>)>) -> Seq<
    (Seq<char>, Seq<char>),
>
    decreases attributes.len(),
{
    if attributes.len() == 0 {
        Seq::empty()
    } else if attributes.last().0 == DOMAIN_ATTRIBUTE@ {
        without_domain(attributes.drop_last())
    } else {
        without_domain(attributes.drop_last()).push(attributes.last())
    }
}

/// The attributes after each of `attributes` was set in turn.
pub open spec fn attributes_set(
    set: Seq<(Seq<char>, Seq<char>)>,
    attributes: Seq<(Seq<char>, Seq<char>)>,
) -> Seq<(Seq<char>, Seq<char>)>
    decreases attributes.len(),
{
    if attributes.len() == 0 {
        set
    } else {
        set_attribute(
            attributes_set(set, attributes.drop_last()),
            attributes.last().0,
            attributes.last().1,
        )
    }
}

/// The ledger event of an event of the inter-chain protocol: its type is
/// the domain of the protocol followed by the type within the protocol, and
/// its attributes are those of the event, each set in turn, and last the
/// attribute that carries the domain.
pub open spec fn ibc_ledger_event(
    event_type: Seq<char>,
    attributes: Seq<(Seq<char>, Seq<char>)>,
) -> EventView {
    EventView {
        level: EventLevel::Tx,
        event_type: ibc_event_type(event_type),
        attributes: set_attribute(
            attributes_set(Seq::empty(), attributes),
            DOMAIN_ATTRIBUTE@,
            IBC_DOMAIN@,
        ),
    }
}

impl EventToEmit for IbcEvent {
    open spec fn domain_text() -> Seq<char> {
        IBC_DOMAIN@
    }

    fn domain() -> (domain: &'static str) {
        IBC_DOMAIN
    }

    fn into_event(self) -> (event: Event)
        ensures
            event.wf(),
            event@ == ibc_ledger_event(self.event_type@, attribute_pairs(self.attributes@)),
    {
        let mut event = Event::new(
            EventLevel::Tx,
            IbcEvent::event_type_of(self.event_type.as_str()),
        );
        let mut i: usize = 0;
        let ghost all = attribute_pairs(self.attributes@);
        proof {
            assert(all.take(0) =~= Seq::<(Seq<char>, Seq<char>)>::empty());
        }
        while i < self.attributes.len()
            invariant
                i <= self.attributes.len(),
                all == attribute_pairs(self.attributes@),
                event.wf(),
                event@.level == EventLevel::Tx,
                event@.event_type == ibc_event_type(self.event_type@),
                event@.attributes == attributes_set(Seq::empty(), all.take(i as int)),
            decreases self.attributes.len() - i,
        {
            proof {
                let longer = all.take(i + 1);
                assert(longer.drop_last() =~= all.take(i as int));
                assert(longer.last() == all[i as int]);
            }
            event.extend(self.attributes[i].0.as_str(), self.attributes[i].1.as_str());
            i += 1;
        }
        proof {
            assert(all.take(i as int) =~= all);
        }
        event.extend(DOMAIN_ATTRIBUTE, IBC_DOMAIN);
        event
    }
}

} // verus!
