//! Events of the inter-chain protocol in the write log.

use crate::event::{
    attribute_pairs, event_domain, event_sub_domain, ibc_event_type, ibc_ledger_event,
    without_domain, EventToEmit, EventView, IbcEvent, IBC_DOMAIN,
};
use crate::gas::GasError;
use crate::tx::{context_charged, TxContext, TxContextView};
use crate::write_log::{event_gas, event_views, events_with_prefix, WriteLog, WriteLogView};
use vstd::prelude::*;

verus! {

/// What an [`IbcEvent`] stands for in contracts: its type within the
/// protocol and its attributes.
pub type IbcEventView = (Seq<char>, Seq<(Seq<char>, Seq<char>)>);

/// The views of a sequence of events of the protocol, in the same order.
pub open spec fn ibc_event_views(events: Seq<IbcEvent>) -> Seq<IbcEventView> {
    events.map_values(|e: IbcEvent| (e.event_type@, attribute_pairs(e.attributes@)))
}

/// The events of the protocol among ledger events, in order: those whose
/// domain is that of the protocol.
pub open spec fn ibc_events_among(events: Seq<EventView>) -> Seq<IbcEventView>
    decreases events.len(),
{
    if events.len() == 0 {
        Seq::empty()
    } else if event_domain(events.last().event_type) == IBC_DOMAIN@ {
        ibc_events_among(events.drop_last()).push(
            (event_sub_domain(events.last().event_type), without_domain(events.last().attributes)),
        )
    } else {
        ibc_events_among(events.drop_last())
    }
}

/// Emit an event of the protocol in a running transaction and charge the
/// gas for it.
pub fn emit_ibc_event(context: &mut TxContext, event: IbcEvent) -> (result: Result<(), GasError>)
    requires
        old(context).wf(),
    ensures
        final(context).wf(),
        final(context)@ == context_charged(
            TxContextView {
                write_log: WriteLogView {
                    events: old(context)@.write_log.events.push(
                        ibc_ledger_event(event.event_type@, attribute_pairs(event.attributes@)),
                    ),
                    ..old(context)@.write_log
                },
                ..old(context)@
            },
            event_gas(ibc_ledger_event(event.event_type@, attribute_pairs(event.attributes@))),
        ),
        match result {
            Ok(_) => final(context)@.gas_error.is_none(),
            Err(e) => final(context)@.gas_error == Some(e),
        },
{
    context.emit_event(event.into_event())
}

/// The events of the protocol of the given type that the write log holds,
/// in the order in which they were emitted.
pub fn get_ibc_events(write_log: &WriteLog, event_type: &str) -> (events: Vec<IbcEvent>)
    ensures
        ibc_event_views(events@) == ibc_events_among(
            events_with_prefix(write_log@.events, ibc_event_type(event_type@)),
        ),
{
    let prefix = IbcEvent::event_type_of(event_type);
    let found = write_log.lookup_events_with_prefix(&prefix);
    let mut events: Vec<IbcEvent> = Vec::new();
    let mut i: usize = 0;
    let ghost all = event_views(found@);
    proof {
        assert(ibc_event_views(events@) =~= ibc_events_among(all.take(0)));
    }
    while i < found.len()
        invariant
            i <= found.len(),
            all == event_views(found@),
            ibc_event_views(events@) == ibc_events_among(all.take(i as int)),
        decreases found.len() - i,
    {
        proof {
            let longer = all.take(i + 1);
            assert(longer.drop_last() =~= all.take(i as int));
            assert(longer.last() == found@[i as int]@);
        }
        match IbcEvent::try_from(&found[i]) {
            Ok(event) => {
                let ghost before = events@;
                events.push(event);
                proof {
                    assert(ibc_event_views(events@) =~= ibc_event_views(before).push(
                        (event.event_type@, attribute_pairs(event.attributes@)),
                    ));
                }
            },
            Err(_) => {},
        }
        i += 1;
    }
    proof {
        assert(all.take(i as int) =~= all);
    }
    events
}

} // verus!
