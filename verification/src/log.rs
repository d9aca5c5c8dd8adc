//! Which events of a trace count when not every record of it can be read.

use vstd::prelude::*;

use crate::events::Event;

verus! {

/// The events of a trace as far as they count: those in front of the first record that
/// could not be read.  What comes behind that record is lost, whatever it holds.
pub open spec fn consumed(records: Seq<Option<Event>>) -> Seq<Event>
    decreases records.len(),
{
    if records.len() == 0 {
        Seq::empty()
    } else {
        match records[0] {
            Some(event) => seq![event] + consumed(records.drop_first()),
            None => Seq::empty(),
        }
    }
}

/// Takes what one read of the trace gave: an event, or `None` where no event could be
/// read.  An event goes to the end of `events` and reading goes on; after a failed read
/// `events` is left as it is and reading stops.
pub fn take_record(events: &mut Vec<Event>, record: Option<Event>) -> (more: bool)
    ensures
        more == record is Some,
        final(events)@ == match record {
            Some(event) => old(events)@.push(event),
            None => old(events)@,
        },
{
    match record {
        Some(event) => {
            events.push(event);
            true
        },
        None => false,
    }
}

/// The events that count of a trace, where `records` holds what each read of it gave, in
/// the order of the reads: those in front of the first read that failed.
pub fn read_event_log(records: &Vec<Option<Event>>) -> (events: Vec<Event>)
    ensures
        events@ == consumed(records@),
{
    let mut events: Vec<Event> = Vec::new();
    let mut i: usize = 0;
    let mut more = true;
    proof {
        assert(records@.skip(0) == records@);
        assert(events@ + consumed(records@) == consumed(records@));
    }
    while more && i < records.len()
        invariant
            i <= records@.len(),
            more ==> consumed(records@) == events@ + consumed(records@.skip(i as int)),
            !more ==> consumed(records@) == events@,
        decreases (if more { 1int } else { 0int }) + records@.len() - i,
    {
        proof {
            assert(records@.skip(i as int).drop_first() == records@.skip(i + 1));
            assert(records@.skip(i as int)[0] == records@[i as int]);
        }
        let ghost before = events@;
        more = take_record(&mut events, records[i]);
        proof {
            match records@[i as int] {
                Some(event) => {
                    assert(before + (seq![event] + consumed(records@.skip(i + 1))) == before.push(event)
                        + consumed(records@.skip(i + 1)));
                },
                None => {
                    assert(before + Seq::<Event>::empty() == before);
                },
            }
        }
        i += 1;
    }
    proof {
        if more {
            assert(records@.skip(i as int).len() == 0);
            assert(events@ + Seq::<Event>::empty() == events@);
        }
    }
    events
}

/// Records that could all be read are all taken, in their order; and a record that could
/// not be read takes nothing of what the records in front of it gave.
pub proof fn lemma_consumed_is_prefix(records: Seq<Option<Event>>)
    ensures
        consumed(records).len() <= records.len(),
        forall|i: int|
            0 <= i < consumed(records).len() ==> #[trigger] records[i] == Some(consumed(records)[i]),
        consumed(records).len() < records.len() ==> records[consumed(records).len() as int] is None,
    decreases records.len(),
{
    if records.len() > 0 && records[0] is Some {
        let rest = records.drop_first();
        lemma_consumed_is_prefix(rest);
        assert forall|i: int| 0 <= i < consumed(records).len() implies #[trigger] records[i] == Some(
            consumed(records)[i],
        ) by {
            if i > 0 {
                assert(rest[i - 1] == records[i]);
            }
        }
        if consumed(records).len() < records.len() {
            assert(rest[consumed(rest).len() as int] == records[consumed(records).len() as int]);
        }
    }
}

} // verus!
