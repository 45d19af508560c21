//! What holds of the ledger across operations, and what each operation owes.

use crate::digest;
use crate::host::{FetchedView, HostEventView, Input, InputView, StoredView};
use crate::index;
use crate::model;
use crate::model::Ledger;
use crate::record;
use crate::record::{
    ActionSpecView, AttemptView, BodyPrintView, ExpectationView, RecordView, Status,
};
use crate::submit::{Submit, SubmitRequest, SubmitRequestView, SubmitView};
use crate::text;
use crate::transport;
use crate::transport::{CallOutcomeView, HttpReplyView, HttpRequestView};
use crate::verify;
use crate::verify::{Verify, VerifyView};
use vstd::prelude::*;
use vstd::utf8::*;

verus! {

// ---------------------------------------------------------------------------
// Between the events of a run
// ---------------------------------------------------------------------------

/// A record of an effect that has not been verified.
spec fn unverified_yet(record: RecordView) -> bool {
    &&& record.consistent()
    &&& record.status == Status::PendingVerification || record.status == Status::Failed
}

/// The key is reserved: its record has no outcome yet.
pub open spec fn reserved(ledger: Ledger, key: Seq<char>) -> bool {
    &&& ledger.holds(key)
    &&& ledger.record(key).status == Status::PendingVerification
    &&& ledger.record(key).effect is None
}

/// What holds between the events of a submission that began on `first`.
spec fn submit_invariant(first: Ledger, ledger: Ledger, state: SubmitView) -> bool {
    &&& ledger.extends(first)
    &&& ledger.keyed()
    &&& match state {
        SubmitView::Lookup { idempotency_key, .. } => idempotency_key.len() > 0,
        SubmitView::Enter { idempotency_key, .. } => {
            &&& idempotency_key.len() > 0
            &&& !first.entries.contains_key(idempotency_key)
            &&& !ledger.entries.contains_key(idempotency_key)
        },
        SubmitView::Reserve { record, .. } => {
            &&& record.consistent()
            &&& record.status == Status::PendingVerification
            &&& record.effect is None
            &&& !first.entries.contains_key(record.idempotency_key)
            &&& !ledger.entries.contains_key(record.idempotency_key)
        },
        SubmitView::Secure { record, digest, .. } => {
            &&& record.consistent()
            &&& record.status == Status::PendingVerification
            &&& record.effect is None
            &&& !first.entries.contains_key(record.idempotency_key)
            &&& ledger.holds_record(record.idempotency_key, record)
            &&& digest == record.claims_digest()
        },
        SubmitView::Clock { idempotency_key, prepared, .. } => {
            &&& idempotency_key.len() > 0
            &&& !first.entries.contains_key(idempotency_key)
            &&& prepared is Ok ==> reserved(ledger, idempotency_key)
        },
        SubmitView::Call { idempotency_key, .. } => {
            &&& idempotency_key.len() > 0
            &&& !first.entries.contains_key(idempotency_key)
            &&& reserved(ledger, idempotency_key)
        },
        SubmitView::Stamp { idempotency_key, .. } => {
            &&& idempotency_key.len() > 0
            &&& !first.entries.contains_key(idempotency_key)
        },
        SubmitView::Write { record } => {
            &&& unverified_yet(record)
            &&& !first.entries.contains_key(record.idempotency_key)
        },
        SubmitView::Anchor { record, digest } => {
            &&& ledger.holds_record(record.idempotency_key, record)
            &&& digest == record.claims_digest()
        },
        SubmitView::ReadIndex { record } | SubmitView::WriteIndex { record, .. } => {
            &&& ledger.holds_record(record.idempotency_key, record)
            &&& ledger.anchored.contains(record.claims_digest())
        },
        SubmitView::Done { result } => match result {
            Ok(record) => record.idempotency_key == index::INDEX_KEY@ || ledger.holds_record(
                record.idempotency_key,
                record,
            ),
            Err(_) => true,
        },
    }
}

proof fn lemma_submit_event(
    first: Ledger,
    ledger: Ledger,
    state: SubmitView,
    event: HostEventView,
)
    requires
        submit_invariant(first, ledger, state),
        model::submit_event_possible(ledger, state, event),
    ensures
        submit_invariant(first, ledger.after_submit_event(state, event), state.next(event)),
        ledger.consistent() ==> ledger.after_submit_event(state, event).consistent(),
{
    let after = ledger.after_submit_event(state, event);
    match state {
        SubmitView::Reserve { record, .. } => {
            model::lemma_written(ledger, record, event);
        },
        SubmitView::Write { record } => {
            model::lemma_written(ledger, record, event);
        },
        SubmitView::WriteIndex { index, .. } => {
            model::lemma_indexing(ledger, index, event);
        },
        _ => {
            model::lemma_same_entries(after, ledger);
        },
    }
    assert(after.keyed());
    assert(after.extends(first));
}

/// What holds between the events of a verification that began on `first`.
pub open spec fn verify_invariant(first: Ledger, ledger: Ledger, state: VerifyView) -> bool {
    &&& ledger.extends(first)
    &&& ledger.keyed()
    &&& match state {
        VerifyView::Lookup { .. } => ledger == first,
        VerifyView::Clock { record } | VerifyView::Probe { record, .. } => {
            &&& ledger == first
            &&& ledger.holds_record(record.idempotency_key, record)
            &&& record.status == Status::PendingVerification
            &&& record.effect is Some
        },
        VerifyView::Settle { record, probe, verdict } => {
            &&& ledger == first
            &&& ledger.holds_record(record.idempotency_key, record)
            &&& record.status == Status::PendingVerification
            &&& record.effect is Some
            &&& verdict is Ok ==> probe.error is None
            &&& verdict is Ok && record.action.verify.expect.status is Some ==> probe.code
                == record.action.verify.expect.status->0
        },
        VerifyView::Write { record } => {
            &&& ledger == first
            &&& ledger.holds(record.idempotency_key)
            &&& ledger.record(record.idempotency_key).status == Status::PendingVerification
            &&& ledger.record(record.idempotency_key).effect is Some
            &&& record.continues(ledger.record(record.idempotency_key))
            &&& record.status.terminal()
            &&& ledger.record(record.idempotency_key).consistent() ==> record.consistent()
        },
        VerifyView::Anchor { record, digest } => {
            &&& ledger.holds_record(record.idempotency_key, record)
            &&& record.status.terminal()
            &&& digest == record.claims_digest()
        },
        VerifyView::Done { result } => match result {
            Ok(record) => {
                &&& ledger.holds_record(record.idempotency_key, record)
                &&& record.status.terminal() || record.effect is None
            },
            Err(_) => true,
        },
    }
}

pub proof fn lemma_verify_event(
    first: Ledger,
    ledger: Ledger,
    state: VerifyView,
    event: HostEventView,
)
    requires
        verify_invariant(first, ledger, state),
        model::verify_event_possible(ledger, state, event),
    ensures
        verify_invariant(first, ledger.after_verify_event(state, event), state.next(event)),
        ledger.consistent() ==> ledger.after_verify_event(state, event).consistent(),
        ledger.after_verify_event(state, event).sent == ledger.sent,
{
    let after = ledger.after_verify_event(state, event);
    match state {
        VerifyView::Write { record } => {
            model::lemma_written(ledger, record, event);
        },
        _ => {
            model::lemma_same_entries(after, ledger);
        },
    }
    assert(after.keyed());
    assert(after.extends(first));
}

proof fn lemma_submit_run(
    first: Ledger,
    ledger: Ledger,
    state: SubmitView,
    events: Seq<HostEventView>,
)
    requires
        submit_invariant(first, ledger, state),
        model::submit_possible(ledger, state, events),
    ensures
        submit_invariant(first, model::submit_ledger(ledger, state, events), model::submit_end(state, events)),
        ledger.consistent() ==> model::submit_ledger(ledger, state, events).consistent(),
    decreases events.len(),
{
    if events.len() > 0 {
        lemma_submit_event(first, ledger, state, events[0]);
        lemma_submit_run(
            first,
            ledger.after_submit_event(state, events[0]),
            state.next(events[0]),
            events.drop_first(),
        );
    }
}

proof fn lemma_verify_run(
    first: Ledger,
    ledger: Ledger,
    state: VerifyView,
    events: Seq<HostEventView>,
)
    requires
        verify_invariant(first, ledger, state),
        model::verify_possible(ledger, state, events),
    ensures
        verify_invariant(first, model::verify_ledger(ledger, state, events), model::verify_end(state, events)),
        ledger.consistent() ==> model::verify_ledger(ledger, state, events).consistent(),
        model::verify_ledger(ledger, state, events).sent == ledger.sent,
    decreases events.len(),
{
    if events.len() > 0 {
        lemma_verify_event(first, ledger, state, events[0]);
        lemma_verify_run(
            first,
            ledger.after_verify_event(state, events[0]),
            state.next(events[0]),
            events.drop_first(),
        );
    }
}

// ---------------------------------------------------------------------------
// One operation
// ---------------------------------------------------------------------------

/// A submission, whatever fails in it and wherever it is cut off, leaves every record that
/// was there as it was. What it returns is what the ledger now holds.
pub proof fn submission_extends_the_ledger(
    ledger: Ledger,
    input: InputView<SubmitRequestView>,
    events: Seq<HostEventView>,
)
    requires
        ledger.keyed(),
        model::submit_possible(ledger, SubmitView::start(input), events),
    ensures
        model::submit_ledger(ledger, SubmitView::start(input), events).keyed(),
        model::submit_ledger(ledger, SubmitView::start(input), events).extends(ledger),
        ledger.consistent() ==> model::submit_ledger(
            ledger,
            SubmitView::start(input),
            events,
        ).consistent(),
        match model::submit_end(SubmitView::start(input), events) {
            SubmitView::Done { result: Ok(record) } => record.idempotency_key == index::INDEX_KEY@
                || model::submit_ledger(ledger, SubmitView::start(input), events).holds_record(
                record.idempotency_key,
                record,
            ),
            _ => true,
        },
{
    lemma_submit_run(ledger, ledger, SubmitView::start(input), events);
}

/// A submission asks for the outbound call only when the key, which was free, is reserved.
pub proof fn call_comes_after_the_reservation(
    ledger: Ledger,
    input: InputView<SubmitRequestView>,
    events: Seq<HostEventView>,
)
    requires
        ledger.keyed(),
        model::submit_possible(ledger, SubmitView::start(input), events),
        model::submit_end(SubmitView::start(input), events) is Call,
    ensures
        ({
            let key = model::submit_end(SubmitView::start(input), events)->Call_idempotency_key;
            &&& !ledger.entries.contains_key(key)
            &&& reserved(model::submit_ledger(ledger, SubmitView::start(input), events), key)
        }),
{
    lemma_submit_run(ledger, ledger, SubmitView::start(input), events);
}

/// A verification, whatever fails in it and wherever it is cut off, loses no record, adds
/// only its outcome to a record, and does not touch a record in a terminal state. What it
/// returns is what the ledger now holds, in a terminal state or only reserving its key.
pub proof fn verification_extends_the_ledger(
    ledger: Ledger,
    input: InputView<Seq<char>>,
    events: Seq<HostEventView>,
)
    requires
        ledger.keyed(),
        model::verify_possible(ledger, VerifyView::start(input), events),
    ensures
        model::verify_ledger(ledger, VerifyView::start(input), events).keyed(),
        model::verify_ledger(ledger, VerifyView::start(input), events).extends(ledger),
        ledger.consistent() ==> model::verify_ledger(
            ledger,
            VerifyView::start(input),
            events,
        ).consistent(),
        match model::verify_end(VerifyView::start(input), events) {
            VerifyView::Done { result: Ok(record) } => {
                &&& record.status.terminal() || record.effect is None
                &&& model::verify_ledger(ledger, VerifyView::start(input), events).holds_record(
                    record.idempotency_key,
                    record,
                )
            },
            _ => true,
        },
{
    lemma_verify_run(ledger, ledger, VerifyView::start(input), events);
}

/// A submission of a key that the ledger has touches nothing: no effect is sent, no
/// record is written, no digest is anchored. Where the store gives the record, the
/// submission returns it as it is.
pub proof fn replay_touches_nothing(
    ledger: Ledger,
    request: SubmitRequestView,
    events: Seq<HostEventView>,
)
    requires
        ledger.entries.contains_key(request.idempotency_key),
        model::submit_possible(ledger, SubmitView::start(InputView::Parsed(request)), events),
    ensures
        model::submit_ledger(ledger, SubmitView::start(InputView::Parsed(request)), events) == ledger,
        events.len() > 0 && events[0]->Fetched_0 is Found ==> model::submit_end(
            SubmitView::start(InputView::Parsed(request)),
            events,
        ) == (SubmitView::Done { result: Ok(ledger.record(request.idempotency_key)) }),
{
    reveal_with_fuel(model::submit_possible, 2);
    reveal_with_fuel(model::submit_ledger, 2);
    reveal_with_fuel(model::submit_end, 2);
    let start = SubmitView::start(InputView::Parsed(request));
    if events.len() > 0 {
        assert(start.next(events[0]) is Done);
        assert(events.drop_first().len() == 0);
    }
}

/// A verification of a record in a terminal state, or of one that only reserves its key,
/// touches nothing and, where the store gives the record, returns it as it is. So a
/// verification that has settled a record is idempotent.
pub proof fn terminal_record_is_returned_untouched(
    ledger: Ledger,
    key: Seq<char>,
    events: Seq<HostEventView>,
)
    requires
        ledger.holds(key),
        ledger.record(key).status.terminal() || ledger.record(key).effect is None,
        model::verify_possible(ledger, VerifyView::start(InputView::Parsed(key)), events),
    ensures
        model::verify_ledger(ledger, VerifyView::start(InputView::Parsed(key)), events) == ledger,
        events.len() > 0 && events[0]->Fetched_0 is Found ==> model::verify_end(
            VerifyView::start(InputView::Parsed(key)),
            events,
        ) == (VerifyView::Done { result: Ok(ledger.record(key)) }),
{
    reveal_with_fuel(model::verify_possible, 2);
    reveal_with_fuel(model::verify_ledger, 2);
    reveal_with_fuel(model::verify_end, 2);
    let start = VerifyView::start(InputView::Parsed(key));
    if events.len() > 0 {
        assert(start.next(events[0]) is Done);
        assert(events.drop_first().len() == 0);
    }
}

/// A submission confirms nothing: a record that is confirmed afterwards was so before.
pub proof fn submission_never_confirms(
    ledger: Ledger,
    input: InputView<SubmitRequestView>,
    events: Seq<HostEventView>,
)
    requires
        model::submit_possible(ledger, SubmitView::start(input), events),
    ensures
        model::submit_ledger(ledger, SubmitView::start(input), events).confirms_no_more_than(ledger),
        match model::submit_end(SubmitView::start(input), events) {
            SubmitView::Done { result: Ok(record) } => record.status == Status::Confirmed
                ==> input is Parsed && ledger.holds_record(
                input->Parsed_0.idempotency_key,
                record,
            ),
            _ => true,
        },
{
    let start = SubmitView::start(input);
    if events.len() > 0 {
        lemma_unconfirmed(
            ledger.after_submit_event(start, events[0]),
            start.next(events[0]),
            events.drop_first(),
        );
    }
}

/// The record that a submission is about to write, or has written, if any.
spec fn fresh_record(state: SubmitView) -> Option<RecordView> {
    match state {
        SubmitView::Reserve { record, .. } => Some(record),
        SubmitView::Secure { record, .. } => Some(record),
        SubmitView::Write { record } => Some(record),
        SubmitView::Anchor { record, .. } => Some(record),
        SubmitView::ReadIndex { record } => Some(record),
        SubmitView::WriteIndex { record, .. } => Some(record),
        _ => None,
    }
}

proof fn lemma_unconfirmed(ledger: Ledger, state: SubmitView, events: Seq<HostEventView>)
    requires
        model::submit_possible(ledger, state, events),
        state !is Lookup,
        fresh_record(state) is Some ==> fresh_record(state)->0.status != Status::Confirmed,
    ensures
        model::submit_ledger(ledger, state, events).confirms_no_more_than(ledger),
        match model::submit_end(state, events) {
            SubmitView::Done { result: Ok(record) } => record.status != Status::Confirmed
                || state == model::submit_end(state, events),
            _ => true,
        },
    decreases events.len(),
{
    if events.len() > 0 {
        lemma_unconfirmed(
            ledger.after_submit_event(state, events[0]),
            state.next(events[0]),
            events.drop_first(),
        );
    }
}

/// Some probe among the events brought back a response that meets the expectation.
pub open spec fn met_among(expect: ExpectationView, events: Seq<HostEventView>) -> bool {
    exists|i: int|
        0 <= i < events.len() && match #[trigger] events[i] {
            HostEventView::Called(CallOutcomeView::Replied(reply)) => expect.met_by(
                reply.code,
                text::decoded(reply.payload),
            ),
            _ => false,
        }
}

/// What is known of confirmed records after the `past` events of a verification that
/// began on `first`.
spec fn confirmed_by_probe(
    first: Ledger,
    ledger: Ledger,
    state: VerifyView,
    past: Seq<HostEventView>,
) -> bool {
    &&& forall|key: Seq<char>| #[trigger]
        ledger.holds(key) && ledger.record(key).status == Status::Confirmed
            ==> first.holds_record(key, ledger.record(key)) || met_among(
            ledger.record(key).action.verify.expect,
            past,
        )
    &&& match state {
        VerifyView::Clock { record } | VerifyView::Probe { record, .. } =>
            !record.status.terminal(),
        VerifyView::Settle { record, verdict, .. } => {
            &&& !record.status.terminal()
            &&& verdict is Ok ==> met_among(record.action.verify.expect, past)
        },
        VerifyView::Write { record } => record.status == Status::Confirmed ==> met_among(
            record.action.verify.expect,
            past,
        ),
        _ => true,
    }
}

proof fn lemma_met_among_grows(
    expect: ExpectationView,
    past: Seq<HostEventView>,
    event: HostEventView,
)
    requires
        met_among(expect, past),
    ensures
        met_among(expect, past.push(event)),
{
    let i = choose|i: int|
        0 <= i < past.len() && match #[trigger] past[i] {
            HostEventView::Called(CallOutcomeView::Replied(reply)) => expect.met_by(
                reply.code,
                text::decoded(reply.payload),
            ),
            _ => false,
        };
    assert(past.push(event)[i] == past[i]);
}

proof fn lemma_confirmed_by_probe(
    first: Ledger,
    ledger: Ledger,
    state: VerifyView,
    past: Seq<HostEventView>,
    events: Seq<HostEventView>,
)
    requires
        confirmed_by_probe(first, ledger, state, past),
        model::verify_possible(ledger, state, events),
    ensures
        confirmed_by_probe(
            first,
            model::verify_ledger(ledger, state, events),
            model::verify_end(state, events),
            past + events,
        ),
    decreases events.len(),
{
    if events.len() > 0 {
        let event = events[0];
        let after = ledger.after_verify_event(state, event);
        let next = state.next(event);
        let now = past.push(event);
        assert forall|expect: ExpectationView| #[trigger] met_among(expect, past) implies met_among(
            expect,
            now,
        ) by {
            lemma_met_among_grows(expect, past, event);
        }
        match (state, event) {
            (
                VerifyView::Probe { record, at, .. },
                HostEventView::Called(CallOutcomeView::Replied(reply)),
            ) => {
                let expect = record.action.verify.expect;
                record::verdict_is_ok_iff_met(expect, reply.code, text::decoded(reply.payload));
                assert(now[past.len() as int] == event);
            },
            (VerifyView::Write { record }, _) => {
                model::lemma_written(ledger, record, event);
            },
            _ => {},
        }
        if state !is Write {
            model::lemma_same_entries(after, ledger);
        }
        assert(confirmed_by_probe(first, after, next, now));
        lemma_confirmed_by_probe(first, after, next, now, events.drop_first());
        assert(now + events.drop_first() =~= past + events);
    } else {
        assert(past + events =~= past);
    }
}

/// The only way into `Confirmed`: a record that a verification has confirmed was probed
/// in it, and the response met every clause of the record's expectation.
pub proof fn confirmation_needs_a_met_expectation(
    ledger: Ledger,
    input: InputView<Seq<char>>,
    events: Seq<HostEventView>,
    key: Seq<char>,
)
    requires
        model::verify_possible(ledger, VerifyView::start(input), events),
        model::verify_ledger(ledger, VerifyView::start(input), events).holds(key),
        model::verify_ledger(ledger, VerifyView::start(input), events).record(key).status
            == Status::Confirmed,
        !ledger.holds_record(
            key,
            model::verify_ledger(ledger, VerifyView::start(input), events).record(key),
        ),
    ensures
        met_among(
            model::verify_ledger(
                ledger,
                VerifyView::start(input),
                events,
            ).record(key).action.verify.expect,
            events,
        ),
{
    lemma_confirmed_by_probe(ledger, ledger, VerifyView::start(input), seq![], events);
    assert(seq![] + events =~= events);
}

/// What holds between the events of a submission whose key was absent.
spec fn fresh_invariant(ledger: Ledger, key: Seq<char>, state: SubmitView) -> bool {
    match state {
        SubmitView::Lookup { .. } => false,
        SubmitView::Enter { idempotency_key, .. } => idempotency_key == key,
        SubmitView::Reserve { record, .. } => record.idempotency_key == key,
        SubmitView::Secure { record, .. } => record.idempotency_key == key,
        SubmitView::Clock { idempotency_key, .. } => idempotency_key == key,
        SubmitView::Call { idempotency_key, .. } => idempotency_key == key,
        SubmitView::Stamp { idempotency_key, .. } => idempotency_key == key,
        SubmitView::Write { record } => record.idempotency_key == key,
        SubmitView::Anchor { record, digest } => {
            &&& ledger.holds_record(key, record)
            &&& digest == record.claims_digest()
        },
        SubmitView::ReadIndex { record } | SubmitView::WriteIndex { record, .. } => {
            &&& ledger.holds_record(key, record)
            &&& ledger.anchored.contains(record.claims_digest())
        },
        SubmitView::Done { result } => result is Ok ==> {
            &&& ledger.holds_record(key, result->Ok_0)
            &&& ledger.anchored.contains(result->Ok_0.claims_digest())
        },
    }
}

proof fn lemma_fresh_run(
    ledger: Ledger,
    key: Seq<char>,
    state: SubmitView,
    events: Seq<HostEventView>,
)
    requires
        key != index::INDEX_KEY@,
        fresh_invariant(ledger, key, state),
        model::submit_possible(ledger, state, events),
    ensures
        fresh_invariant(model::submit_ledger(ledger, state, events), key, model::submit_end(state, events)),
    decreases events.len(),
{
    if events.len() > 0 {
        lemma_fresh_run(
            ledger.after_submit_event(state, events[0]),
            key,
            state.next(events[0]),
            events.drop_first(),
        );
    }
}

/// A new key that is submitted with success has its record in the ledger and the
/// record's digest anchored. The index's own key is no place for a record: the index is
/// written over it.
pub proof fn submitted_record_is_written_and_anchored(
    ledger: Ledger,
    request: SubmitRequestView,
    events: Seq<HostEventView>,
)
    requires
        !ledger.entries.contains_key(request.idempotency_key),
        request.idempotency_key != index::INDEX_KEY@,
        model::submit_possible(ledger, SubmitView::start(InputView::Parsed(request)), events),
        model::submit_end(SubmitView::start(InputView::Parsed(request)), events) is Done,
        model::submit_end(SubmitView::start(InputView::Parsed(request)), events)->Done_result is Ok,
    ensures
        ({
            let start = SubmitView::start(InputView::Parsed(request));
            let after = model::submit_ledger(ledger, start, events);
            let record = model::submit_end(start, events)->Done_result->Ok_0;
            &&& after.holds_record(request.idempotency_key, record)
            &&& after.anchored.contains(record.claims_digest())
        }),
{
    let start = SubmitView::start(InputView::Parsed(request));
    if events.len() > 0 {
        lemma_fresh_run(
            ledger.after_submit_event(start, events[0]),
            request.idempotency_key,
            start.next(events[0]),
            events.drop_first(),
        );
    }
}

/// What holds between the events of a verification whose record was pending.
spec fn settling_invariant(ledger: Ledger, key: Seq<char>, state: VerifyView) -> bool {
    match state {
        VerifyView::Lookup { .. } => false,
        VerifyView::Clock { record } => record.idempotency_key == key,
        VerifyView::Probe { record, .. } => record.idempotency_key == key,
        VerifyView::Settle { record, .. } => record.idempotency_key == key,
        VerifyView::Write { record } => record.idempotency_key == key,
        VerifyView::Anchor { record, digest } => {
            &&& ledger.holds_record(key, record)
            &&& digest == record.claims_digest()
        },
        VerifyView::Done { result } => result is Ok ==> {
            &&& ledger.holds_record(key, result->Ok_0)
            &&& ledger.anchored.contains(result->Ok_0.claims_digest())
        },
    }
}

proof fn lemma_settling_run(
    ledger: Ledger,
    key: Seq<char>,
    state: VerifyView,
    events: Seq<HostEventView>,
)
    requires
        settling_invariant(ledger, key, state),
        model::verify_possible(ledger, state, events),
    ensures
        settling_invariant(model::verify_ledger(ledger, state, events), key, model::verify_end(state, events)),
    decreases events.len(),
{
    if events.len() > 0 {
        lemma_settling_run(
            ledger.after_verify_event(state, events[0]),
            key,
            state.next(events[0]),
            events.drop_first(),
        );
    }
}

/// A pending record of an effect that is verified with success is written as it is returned,
/// and its digest is anchored.
pub proof fn settled_record_is_written_and_anchored(
    ledger: Ledger,
    key: Seq<char>,
    events: Seq<HostEventView>,
)
    requires
        ledger.holds(key),
        ledger.record(key).idempotency_key == key,
        !ledger.record(key).status.terminal(),
        ledger.record(key).effect is Some,
        model::verify_possible(ledger, VerifyView::start(InputView::Parsed(key)), events),
        model::verify_end(VerifyView::start(InputView::Parsed(key)), events) is Done,
        model::verify_end(VerifyView::start(InputView::Parsed(key)), events)->result is Ok,
    ensures
        ({
            let start = VerifyView::start(InputView::Parsed(key));
            let after = model::verify_ledger(ledger, start, events);
            let record = model::verify_end(start, events)->result->Ok_0;
            &&& after.holds_record(key, record)
            &&& after.anchored.contains(record.claims_digest())
        }),
{
    let start = VerifyView::start(InputView::Parsed(key));
    if events.len() > 0 {
        lemma_settling_run(
            ledger.after_verify_event(start, events[0]),
            key,
            start.next(events[0]),
            events.drop_first(),
        );
    }
}

/// Once a record is written and anchored, the submission succeeds with it, whatever
/// becomes of the index.
pub proof fn index_never_fails_an_action(
    ledger: Ledger,
    record: RecordView,
    events: Seq<HostEventView>,
)
    requires
        model::submit_possible(ledger, SubmitView::ReadIndex { record }, events),
        model::submit_end(SubmitView::ReadIndex { record }, events) is Done,
    ensures
        model::submit_end(SubmitView::ReadIndex { record }, events) == (SubmitView::Done {
            result: Ok(record),
        }),
{
    reveal_with_fuel(model::submit_possible, 3);
    reveal_with_fuel(model::submit_end, 3);
    let start = SubmitView::ReadIndex { record };
    if events.len() > 0 {
        let rest = events.drop_first();
        if rest.len() > 0 {
            assert(start.next(events[0]) is WriteIndex);
            assert(rest.drop_first().len() == 0);
        }
    }
}

/// What a submission is about to write, and what it makes that from, has `print` in place of
/// the request body.
spec fn submit_bodiless(state: SubmitView, print: Option<BodyPrintView>) -> bool {
    match state {
        SubmitView::Lookup { action, .. } => record::print_of(action.body) == print,
        SubmitView::Enter { action, body, .. } => action.body is None && body == print,
        SubmitView::Reserve { record, .. } => {
            record.action.body is None && record.request_body == print
        },
        SubmitView::Secure { record, .. } => {
            record.action.body is None && record.request_body == print
        },
        SubmitView::Clock { action, body, .. } => action.body is None && body == print,
        SubmitView::Call { action, body, .. } => action.body is None && body == print,
        SubmitView::Stamp { action, body, .. } => action.body is None && body == print,
        SubmitView::Write { record } => {
            record.action.body is None && record.request_body == print
        },
        _ => true,
    }
}

proof fn lemma_submit_bodiless(
    state: SubmitView,
    events: Seq<HostEventView>,
    print: Option<BodyPrintView>,
)
    requires
        submit_bodiless(state, print),
    ensures
        submit_bodiless(model::submit_end(state, events), print),
    decreases events.len(),
{
    if events.len() > 0 {
        lemma_submit_bodiless(state.next(events[0]), events.drop_first(), print);
    }
}

/// No record that a submission hands over for writing holds the body of the request: it holds
/// the body's SHA-256 and length instead.
pub proof fn submission_writes_no_body(request: SubmitRequestView, events: Seq<HostEventView>)
    ensures
        match model::submit_end(SubmitView::start(InputView::Parsed(request)), events) {
            SubmitView::Reserve { record, .. } | SubmitView::Write { record } => {
                &&& record.action.body is None
                &&& record.request_body == record::print_of(request.action.body)
            },
            _ => true,
        },
{
    lemma_submit_bodiless(
        SubmitView::start(InputView::Parsed(request)),
        events,
        record::print_of(request.action.body),
    );
}

proof fn lemma_verify_bodiless(state: VerifyView, events: Seq<HostEventView>)
    requires
        state is Write ==> state->Write_record.action.body is None,
    ensures
        model::verify_end(state, events) is Write ==> model::verify_end(
            state,
            events,
        )->Write_record.action.body is None,
    decreases events.len(),
{
    if events.len() > 0 {
        lemma_verify_bodiless(state.next(events[0]), events.drop_first());
    }
}

/// No record that a verification hands over for writing holds the body of a request, even
/// where the record that it read did.
pub proof fn verification_writes_no_body(
    input: InputView<Seq<char>>,
    events: Seq<HostEventView>,
)
    ensures
        match model::verify_end(VerifyView::start(input), events) {
            VerifyView::Write { record } => record.action.body is None,
            _ => true,
        },
{
    lemma_verify_bodiless(VerifyView::start(input), events);
}

proof fn lemma_submit_stores_no_body(
    ledger: Ledger,
    state: SubmitView,
    events: Seq<HostEventView>,
    print: Option<BodyPrintView>,
)
    requires
        ledger.bodiless(),
        submit_bodiless(state, print),
    ensures
        model::submit_ledger(ledger, state, events).bodiless(),
    decreases events.len(),
{
    if events.len() > 0 {
        let after = ledger.after_submit_event(state, events[0]);
        match state {
            SubmitView::Reserve { record, .. } => {
                model::lemma_written(ledger, record, events[0]);
            },
            SubmitView::Write { record } => {
                model::lemma_written(ledger, record, events[0]);
            },
            SubmitView::WriteIndex { index, .. } => {
                model::lemma_indexing(ledger, index, events[0]);
            },
            _ => {
                model::lemma_same_entries(after, ledger);
            },
        }
        lemma_submit_stores_no_body(after, state.next(events[0]), events.drop_first(), print);
    }
}

proof fn lemma_verify_stores_no_body(
    ledger: Ledger,
    state: VerifyView,
    events: Seq<HostEventView>,
)
    requires
        ledger.bodiless(),
        state is Write ==> state->Write_record.action.body is None,
    ensures
        model::verify_ledger(ledger, state, events).bodiless(),
    decreases events.len(),
{
    if events.len() > 0 {
        let after = ledger.after_verify_event(state, events[0]);
        match state {
            VerifyView::Write { record } => {
                model::lemma_written(ledger, record, events[0]);
            },
            _ => {
                model::lemma_same_entries(after, ledger);
            },
        }
        lemma_verify_stores_no_body(after, state.next(events[0]), events.drop_first());
    }
}

/// The key that a submission has reserved, or is about to, and not sent an effect for.
spec fn unsent_key(state: SubmitView) -> Option<Seq<char>> {
    match state {
        SubmitView::Enter { idempotency_key, .. } => Some(idempotency_key),
        SubmitView::Reserve { record, .. } => Some(record.idempotency_key),
        SubmitView::Secure { record, .. } => Some(record.idempotency_key),
        SubmitView::Clock { idempotency_key, prepared, .. } => if prepared is Ok {
            Some(idempotency_key)
        } else {
            None
        },
        _ => None,
    }
}

/// What was sent is accounted for between the events of a submission.
spec fn submit_accounts(ledger: Ledger, state: SubmitView) -> bool {
    &&& ledger.accounts()
    &&& unsent_key(state) is Some ==> !ledger.sent.contains(unsent_key(state)->0)
}

proof fn lemma_submit_accounts_event(
    first: Ledger,
    ledger: Ledger,
    state: SubmitView,
    event: HostEventView,
)
    requires
        submit_invariant(first, ledger, state),
        model::submit_event_possible(ledger, state, event),
        submit_accounts(ledger, state),
    ensures
        submit_accounts(ledger.after_submit_event(state, event), state.next(event)),
{
    let after = ledger.after_submit_event(state, event);
    match state {
        SubmitView::Reserve { record, .. } => {
            model::lemma_written(ledger, record, event);
        },
        SubmitView::Write { record } => {
            model::lemma_written(ledger, record, event);
        },
        SubmitView::WriteIndex { index, .. } => {
            model::lemma_indexing(ledger, index, event);
        },
        _ => {
            model::lemma_same_entries(after, ledger);
        },
    }
    assert forall|i: int| 0 <= i < after.sent.len() implies after.entries.contains_key(
        #[trigger] after.sent[i],
    ) && (after.sent[i] != index::INDEX_KEY@ ==> after.holds(after.sent[i])) by {
        if i < ledger.sent.len() {
            assert(after.sent[i] == ledger.sent[i]);
            assert(ledger.entries.contains_key(ledger.sent[i]));
        }
    }
    match state {
        SubmitView::Lookup { idempotency_key, .. } => {
            if ledger.sent.contains(idempotency_key) {
                let i = choose|i: int| 0 <= i < ledger.sent.len() && ledger.sent[i] == idempotency_key;
                assert(ledger.entries.contains_key(ledger.sent[i]));
            }
        },
        SubmitView::Clock { idempotency_key, prepared, .. } => {
            assert forall|i: int, j: int|
                0 <= i < after.sent.len() && 0 <= j < after.sent.len() && i != j implies after.sent[i]
                != after.sent[j] by {
                if prepared is Ok {
                    let n = ledger.sent.len();
                    if i == n {
                        assert(ledger.sent.contains(ledger.sent[j]));
                    } else if j == n {
                        assert(ledger.sent.contains(ledger.sent[i]));
                    }
                }
            }
        },
        _ => {},
    }
}

proof fn lemma_submit_accounts(
    first: Ledger,
    ledger: Ledger,
    state: SubmitView,
    events: Seq<HostEventView>,
)
    requires
        submit_invariant(first, ledger, state),
        model::submit_possible(ledger, state, events),
        submit_accounts(ledger, state),
    ensures
        submit_accounts(model::submit_ledger(ledger, state, events), model::submit_end(state, events)),
    decreases events.len(),
{
    if events.len() > 0 {
        lemma_submit_event(first, ledger, state, events[0]);
        lemma_submit_accounts_event(first, ledger, state, events[0]);
        lemma_submit_accounts(
            first,
            ledger.after_submit_event(state, events[0]),
            state.next(events[0]),
            events.drop_first(),
        );
    }
}

proof fn lemma_verify_accounts(
    ledger: Ledger,
    state: VerifyView,
    events: Seq<HostEventView>,
)
    requires
        ledger.accounts(),
    ensures
        model::verify_ledger(ledger, state, events).accounts(),
    decreases events.len(),
{
    if events.len() > 0 {
        let after = ledger.after_verify_event(state, events[0]);
        match state {
            VerifyView::Write { record } => {
                model::lemma_written(ledger, record, events[0]);
            },
            _ => {
                model::lemma_same_entries(after, ledger);
            },
        }
        assert forall|i: int| 0 <= i < after.sent.len() implies after.entries.contains_key(
            #[trigger] after.sent[i],
        ) && (after.sent[i] != index::INDEX_KEY@ ==> after.holds(after.sent[i])) by {
            assert(ledger.entries.contains_key(ledger.sent[i]));
        }
        lemma_verify_accounts(after, state.next(events[0]), events.drop_first());
    }
}

/// What records tell of effects was sent, and so is what a submission is about to tell.
spec fn submit_tells(ledger: Ledger, state: SubmitView) -> bool {
    &&& ledger.tells_what_was_sent()
    &&& match state {
        SubmitView::Reserve { record, .. } => record.effect is None,
        SubmitView::Call { idempotency_key, .. } => ledger.sent.contains(idempotency_key),
        SubmitView::Stamp { idempotency_key, effect, .. } => effect.error is None
            ==> ledger.sent.contains(idempotency_key),
        SubmitView::Write { record } => record.effect is Some && record.effect->0.error is None
            ==> ledger.sent.contains(record.idempotency_key),
        _ => true,
    }
}

proof fn lemma_submit_tells(ledger: Ledger, state: SubmitView, events: Seq<HostEventView>)
    requires
        submit_tells(ledger, state),
        model::submit_possible(ledger, state, events),
    ensures
        submit_tells(
            model::submit_ledger(ledger, state, events),
            model::submit_end(state, events),
        ),
    decreases events.len(),
{
    if events.len() > 0 {
        let event = events[0];
        let after = ledger.after_submit_event(state, event);
        match state {
            SubmitView::Reserve { record, .. } => {
                model::lemma_written(ledger, record, event);
            },
            SubmitView::Write { record } => {
                model::lemma_written(ledger, record, event);
            },
            SubmitView::WriteIndex { index, .. } => {
                model::lemma_indexing(ledger, index, event);
            },
            SubmitView::Clock { idempotency_key, prepared, .. } => {
                model::lemma_same_entries(after, ledger);
                if prepared is Ok {
                    assert forall|key: Seq<char>| #[trigger]
                        ledger.sent.contains(key) implies after.sent.contains(key) by {
                        let i = choose|i: int| 0 <= i < ledger.sent.len() && ledger.sent[i] == key;
                        assert(after.sent[i] == key);
                    }
                    assert(after.sent[ledger.sent.len() as int] == idempotency_key);
                }
            },
            _ => {
                model::lemma_same_entries(after, ledger);
            },
        }
        assert(after.tells_what_was_sent());
        lemma_submit_tells(after, state.next(event), events.drop_first());
    }
}

proof fn lemma_verify_tells(
    first: Ledger,
    ledger: Ledger,
    state: VerifyView,
    events: Seq<HostEventView>,
)
    requires
        verify_invariant(first, ledger, state),
        model::verify_possible(ledger, state, events),
        ledger.tells_what_was_sent(),
    ensures
        model::verify_ledger(ledger, state, events).tells_what_was_sent(),
    decreases events.len(),
{
    if events.len() > 0 {
        let after = ledger.after_verify_event(state, events[0]);
        lemma_verify_event(first, ledger, state, events[0]);
        match state {
            VerifyView::Write { record } => {
                model::lemma_written(ledger, record, events[0]);
            },
            _ => {
                model::lemma_same_entries(after, ledger);
            },
        }
        lemma_verify_tells(first, after, state.next(events[0]), events.drop_first());
    }
}

// ---------------------------------------------------------------------------
// Any number of operations
// ---------------------------------------------------------------------------

/// An operation that writes, with the events of its run.
pub enum Operation {
    Submit(InputView<SubmitRequestView>, Seq<HostEventView>),
    Verify(InputView<Seq<char>>, Seq<HostEventView>),
}

impl Operation {
    /// The events can take place on this ledger. They need not bring the operation to its
    /// end, and any host call may have failed.
    pub open spec fn possible(self, ledger: Ledger) -> bool {
        match self {
            Operation::Submit(input, events) => model::submit_possible(
                ledger,
                SubmitView::start(input),
                events,
            ),
            Operation::Verify(input, events) => model::verify_possible(
                ledger,
                VerifyView::start(input),
                events,
            ),
        }
    }

    /// The ledger after this operation.
    pub open spec fn after(self, ledger: Ledger) -> Ledger {
        match self {
            Operation::Submit(input, events) => model::submit_ledger(
                ledger,
                SubmitView::start(input),
                events,
            ),
            Operation::Verify(input, events) => model::verify_ledger(
                ledger,
                VerifyView::start(input),
                events,
            ),
        }
    }
}

/// Whether the operations can take place on this ledger, one after the other.
pub open spec fn history_possible(ledger: Ledger, operations: Seq<Operation>) -> bool
    decreases operations.len(),
{
    operations.len() > 0 ==> {
        &&& operations[0].possible(ledger)
        &&& history_possible(operations[0].after(ledger), operations.drop_first())
    }
}

/// The ledger after the operations.
pub open spec fn history(ledger: Ledger, operations: Seq<Operation>) -> Ledger
    decreases operations.len(),
{
    if operations.len() == 0 {
        ledger
    } else {
        history(operations[0].after(ledger), operations.drop_first())
    }
}

proof fn lemma_extends_transitive(a: Ledger, b: Ledger, c: Ledger)
    requires
        b.extends(a),
        c.extends(b),
    ensures
        c.extends(a),
{
    assert forall|key: Seq<char>| #[trigger] a.holds(key) && key != index::INDEX_KEY@ implies c.holds(
        key,
    ) && c.record(key).continues(a.record(key)) by {
        assert(b.holds(key));
    }
}

/// One operation, whatever fails in it and wherever it is cut off.
pub proof fn lemma_operation(ledger: Ledger, operation: Operation)
    requires
        ledger.keyed(),
        operation.possible(ledger),
    ensures
        operation.after(ledger).keyed(),
        operation.after(ledger).extends(ledger),
        ledger.consistent() ==> operation.after(ledger).consistent(),
        ledger.bodiless() ==> operation.after(ledger).bodiless(),
        ledger.accounts() ==> operation.after(ledger).accounts(),
        ledger.tells_what_was_sent() ==> operation.after(ledger).tells_what_was_sent(),
{
    match operation {
        Operation::Submit(input, events) => {
            submission_extends_the_ledger(ledger, input, events);
            if ledger.bodiless() {
                lemma_submit_stores_no_body(
                    ledger,
                    SubmitView::start(input),
                    events,
                    match input {
                        InputView::Parsed(request) => record::print_of(request.action.body),
                        _ => None,
                    },
                );
            }
            if ledger.accounts() {
                lemma_submit_accounts(ledger, ledger, SubmitView::start(input), events);
            }
            if ledger.tells_what_was_sent() {
                lemma_submit_tells(ledger, SubmitView::start(input), events);
            }
        },
        Operation::Verify(input, events) => {
            verification_extends_the_ledger(ledger, input, events);
            if ledger.bodiless() {
                lemma_verify_stores_no_body(ledger, VerifyView::start(input), events);
            }
            if ledger.accounts() {
                lemma_verify_accounts(ledger, VerifyView::start(input), events);
            }
            if ledger.tells_what_was_sent() {
                lemma_verify_tells(ledger, ledger, VerifyView::start(input), events);
            }
        },
    }
}

/// The ledger is append-only: whatever operations take place on it, whatever fails in them
/// and wherever they are cut off, no record is lost, every record keeps its key, its action,
/// its effect and its creation, and one that has reached a terminal state is never recomputed.
pub proof fn history_extends(ledger: Ledger, operations: Seq<Operation>)
    requires
        ledger.keyed(),
        history_possible(ledger, operations),
    ensures
        history(ledger, operations).keyed(),
        history(ledger, operations).extends(ledger),
    decreases operations.len(),
{
    if operations.len() > 0 {
        let after = operations[0].after(ledger);
        lemma_operation(ledger, operations[0]);
        history_extends(after, operations.drop_first());
        lemma_extends_transitive(ledger, after, history(after, operations.drop_first()));
    }
}

/// Operations keep records consistent, whatever fails in them and wherever they are cut off:
/// the fields of every record agree with its status.
pub proof fn history_keeps_records_consistent(ledger: Ledger, operations: Seq<Operation>)
    requires
        ledger.keyed(),
        ledger.consistent(),
        history_possible(ledger, operations),
    ensures
        history(ledger, operations).keyed(),
        history(ledger, operations).consistent(),
    decreases operations.len(),
{
    if operations.len() > 0 {
        lemma_operation(ledger, operations[0]);
        history_keeps_records_consistent(operations[0].after(ledger), operations.drop_first());
    }
}

/// Bodies are never stored: a ledger without request bodies stays without.
pub proof fn request_bodies_are_never_stored(ledger: Ledger, operations: Seq<Operation>)
    requires
        ledger.keyed(),
        ledger.bodiless(),
        history_possible(ledger, operations),
    ensures
        history(ledger, operations).bodiless(),
    decreases operations.len(),
{
    if operations.len() > 0 {
        lemma_operation(ledger, operations[0]);
        request_bodies_are_never_stored(operations[0].after(ledger), operations.drop_first());
    }
}

/// Operations leave what was sent accounted for: no effect twice, and each with its record.
pub proof fn history_accounts_for_effects(ledger: Ledger, operations: Seq<Operation>)
    requires
        ledger.keyed(),
        ledger.accounts(),
        history_possible(ledger, operations),
    ensures
        history(ledger, operations).accounts(),
    decreases operations.len(),
{
    if operations.len() > 0 {
        lemma_operation(ledger, operations[0]);
        history_accounts_for_effects(operations[0].after(ledger), operations.drop_first());
    }
}

/// However often keys are submitted and verified, whatever fails and wherever an operation is
/// cut off, no effect is sent twice under one key, and under the key of every effect that was
/// sent the ledger has an entry: its record, but for the index's own key.
pub proof fn effects_are_sent_at_most_once(operations: Seq<Operation>)
    requires
        history_possible(Ledger::empty(), operations),
    ensures
        ({
            let ledger = history(Ledger::empty(), operations);
            &&& ledger.sent.no_duplicates()
            &&& forall|i: int|
                0 <= i < ledger.sent.len() ==> ledger.entries.contains_key(
                    #[trigger] ledger.sent[i],
                ) && (ledger.sent[i] != index::INDEX_KEY@ ==> ledger.holds(ledger.sent[i]))
        }),
{
    history_accounts_for_effects(Ledger::empty(), operations);
}

/// What records tell of effects was sent, after any operations too.
pub proof fn history_tells_what_was_sent(ledger: Ledger, operations: Seq<Operation>)
    requires
        ledger.keyed(),
        ledger.tells_what_was_sent(),
        history_possible(ledger, operations),
    ensures
        history(ledger, operations).tells_what_was_sent(),
    decreases operations.len(),
{
    if operations.len() > 0 {
        lemma_operation(ledger, operations[0]);
        history_tells_what_was_sent(operations[0].after(ledger), operations.drop_first());
    }
}

/// A confirmed record is that of an effect that was sent and that the transport accepted,
/// whatever operations took place, whatever failed in them and wherever they were cut off.
pub proof fn confirmed_effects_were_sent(operations: Seq<Operation>)
    requires
        history_possible(Ledger::empty(), operations),
    ensures
        forall|key: Seq<char>| #[trigger]
            history(Ledger::empty(), operations).holds(key) && history(
                Ledger::empty(),
                operations,
            ).record(key).status == Status::Confirmed ==> {
                &&& history(Ledger::empty(), operations).record(key).effect is Some
                &&& history(Ledger::empty(), operations).record(key).effect->0.error is None
                &&& history(Ledger::empty(), operations).sent.contains(key)
            },
{
    history_keeps_records_consistent(Ledger::empty(), operations);
    history_tells_what_was_sent(Ledger::empty(), operations);
}

// ---------------------------------------------------------------------------
// Expectations and receipts
// ---------------------------------------------------------------------------

/// One forbidden text in the body is enough: the verdict is unfavourable, and a pending record
/// settled with it is not confirmed, whatever else the body holds.
pub proof fn forbidden_text_blocks_confirmation(
    record: RecordView,
    probe: AttemptView,
    code: u16,
    body: Seq<char>,
    i: int,
    now: u64,
)
    requires
        !record.status.terminal(),
        0 <= i < record.action.verify.expect.body_absent.len(),
        text::occurs_in(record.action.verify.expect.body_absent[i], body),
    ensures
        record.settled(probe, record.action.verify.expect.verdict(code, body), now).status
            == Status::Unverified,
{
    record::verdict_is_ok_iff_met(record.action.verify.expect, code, body);
}

/// Settling never recomputes a terminal status, and takes a pending record to `Confirmed` or
/// to `Unverified`.
pub proof fn settling_is_final(
    record: RecordView,
    probe: AttemptView,
    verdict: Result<(), Seq<char>>,
    now: u64,
)
    ensures
        record.settled(probe, verdict, now).status.terminal(),
        record.status.terminal() ==> record.settled(probe, verdict, now) == record,
        forall|again: AttemptView, other: Result<(), Seq<char>>, later: u64| #[trigger]
            record.settled(probe, verdict, now).settled(again, other, later) == record.settled(
                probe,
                verdict,
                now,
            ),
{
}

/// Two attempts agree on when they were made, the code and the fingerprint of the body.
pub open spec fn same_receipt(a: Option<AttemptView>, b: Option<AttemptView>) -> bool {
    match (a, b) {
        (None, None) => true,
        (Some(a), Some(b)) => a.at == b.at && a.code == b.code && a.body_sha256 == b.body_sha256,
        _ => false,
    }
}

/// The digest covers a fixed list of fields: records that agree on them have the same
/// digest, whatever their other fields hold.
pub proof fn digest_covers_fixed_fields(a: RecordView, b: RecordView)
    requires
        a.idempotency_key == b.idempotency_key,
        a.status == b.status,
        a.action.method == b.action.method,
        a.action.url == b.action.url,
        same_receipt(a.effect, b.effect),
        same_receipt(a.verification, b.verification),
        a.created_at == b.created_at,
        a.updated_at == b.updated_at,
        a.seq_no == b.seq_no,
    ensures
        a.claims_digest() == b.claims_digest(),
{
}

/// What is hashed tells the states of a record apart: under one key, records with
/// different statuses have different claims texts.
pub proof fn claims_tell_statuses_apart(a: RecordView, b: RecordView)
    requires
        a.idempotency_key == b.idempotency_key,
        a.status != b.status,
    ensures
        a.claims_text() != b.claims_text(),
{
    reveal_strlit("PendingVerification");
    reveal_strlit("Confirmed");
    reveal_strlit("Unverified");
    reveal_strlit("Failed");
    let at = ("t3n-verified-actions/v1\n"@ + a.idempotency_key + "\n"@).len() as int;
    assert(a.claims_text()[at] == a.status.label()[0]);
    assert(b.claims_text()[at] == b.status.label()[0]);
}

// ---------------------------------------------------------------------------
// What a submission owes
// ---------------------------------------------------------------------------

/// A submission looks up the very key that was requested; it is refused without a request and
/// with an empty key.
pub proof fn submission_looks_up_the_very_key(request: SubmitRequestView, why: Seq<char>)
    ensures
        request.idempotency_key.len() > 0 ==> SubmitView::start(InputView::Parsed(request)) == (
        SubmitView::Lookup { idempotency_key: request.idempotency_key, action: request.action }),
        request.idempotency_key.len() == 0 ==> SubmitView::start(InputView::Parsed(request)) == (
        SubmitView::Done { result: Err("submit-action: idempotency_key must not be empty"@) }),
        SubmitView::start(InputView::Missing) == (SubmitView::Done {
            result: Err("submit-action: missing input"@),
        }),
        SubmitView::start(InputView::Malformed(why)) == (SubmitView::Done {
            result: Err("submit-action: bad input: "@ + why),
        }),
{
}

/// A record that stands under the key is returned as it is, and a lookup that fails ends the
/// submission.
pub proof fn submission_returns_what_it_finds(
    key: Seq<char>,
    action: ActionSpecView,
    record: RecordView,
    e: Seq<char>,
)
    ensures
        ({
            let lookup = SubmitView::Lookup { idempotency_key: key, action };
            &&& lookup.next(HostEventView::Fetched(FetchedView::Found(record))) == (
            SubmitView::Done { result: Ok(record) })
            &&& lookup.next(HostEventView::Fetched(FetchedView::Unreadable(e))) == (
            SubmitView::Done { result: Err("kv get: "@ + e) })
            &&& lookup.next(HostEventView::Fetched(FetchedView::Corrupt(e))) == (
            SubmitView::Done { result: Err("ledger entry "@ + key + " is corrupt: "@ + e) })
        }),
{
}

/// A new key is reserved by a pending record of the action, without an effect and without the
/// body, and the request that is to be sent is the one that was asked for.
pub proof fn new_key_is_reserved(
    key: Seq<char>,
    action: ActionSpecView,
    now: u64,
    seq_no: u64,
    contract_id: u32,
)
    requires
        transport::verb_named(action.method) is Some,
    ensures
        ({
            let state = (SubmitView::Lookup { idempotency_key: key, action }).next(
                HostEventView::Fetched(FetchedView::Absent),
            ).next(HostEventView::Context { now, seq_no, contract_id });
            &&& state is Reserve
            &&& state->Reserve_record.idempotency_key == key
            &&& state->Reserve_record.status == Status::PendingVerification
            &&& state->Reserve_record.reason == Some(
                "reserved for the outbound call; its outcome is not recorded"@,
            )
            &&& state->Reserve_record.effect is None
            &&& state->Reserve_record.verification is None
            &&& state->Reserve_record.action.method == action.method
            &&& state->Reserve_record.action.url == action.url
            &&& state->Reserve_record.action.headers == action.headers
            &&& state->Reserve_record.action.verify == action.verify
            &&& state->Reserve_record.action.body is None
            &&& state->Reserve_record.request_body == record::print_of(action.body)
            &&& state->Reserve_record.created_at == now
            &&& state->Reserve_record.updated_at == now
            &&& state->Reserve_record.seq_no == seq_no
            &&& state->Reserve_record.contract_id == contract_id
            &&& state->Reserve_record.verify_attempts == 0
            &&& Some(state->Reserve_request.method) == transport::verb_named(action.method)
            &&& state->Reserve_request.url == action.url
            &&& state->Reserve_request.headers == action.headers
            &&& action.body is None <==> state->Reserve_request.payload is None
            &&& action.body is Some ==> state->Reserve_request.payload->0 == encode_utf8(
                action.body->0,
            )
        }),
{
}

/// A reservation that is written leads to the call, with the request as it was prepared,
/// whether or not its digest could be anchored; one that is not written ends the submission.
pub proof fn reservation_leads_to_the_call(
    record: RecordView,
    request: HttpRequestView,
    anchored: Result<(), Seq<char>>,
    at: u64,
    e: Seq<char>,
)
    ensures
        ({
            let state = SubmitView::Reserve { record, request };
            let secured = state.next(HostEventView::Stored(StoredView::Written));
            &&& secured == (SubmitView::Secure {
                record,
                digest: digest::sha256(encode_utf8(record.claims_text())),
                request,
            })
            &&& secured.next(HostEventView::Anchored(anchored)).next(HostEventView::Clock(at))
                == (SubmitView::Call {
                idempotency_key: record.idempotency_key,
                action: record.action,
                body: record.request_body,
                at,
                request,
            })
            &&& state.next(HostEventView::Stored(StoredView::Refused(e))) == (SubmitView::Done {
                result: Err("kv put: "@ + e),
            })
            &&& state.next(HostEventView::Stored(StoredView::NotSerialized(e))) == (
            SubmitView::Done { result: Err("serialize record: "@ + e) })
        }),
{
}

/// Whatever came back of the call is written: of every reply, whatever its code, a pending
/// record with the reply's code and the hash and length of its payload; of a transport error
/// a failed one that names it.
pub proof fn every_answer_is_recorded(
    key: Seq<char>,
    action: ActionSpecView,
    body: Option<BodyPrintView>,
    at: u64,
    request: HttpRequestView,
    outcome: CallOutcomeView,
    now: u64,
    seq_no: u64,
    contract_id: u32,
)
    requires
        outcome is Replied ==> outcome->Replied_0.payload.len() <= usize::MAX,
    ensures
        ({
            let state = (SubmitView::Call { idempotency_key: key, action, body, at, request }).next(
                HostEventView::Called(outcome),
            ).next(HostEventView::Context { now, seq_no, contract_id });
            let record = state->Write_record;
            &&& state is Write
            &&& record.idempotency_key == key
            &&& record.action == action
            &&& record.request_body == body
            &&& record.verification is None
            &&& record.created_at == now
            &&& record.updated_at == now
            &&& record.seq_no == seq_no
            &&& record.contract_id == contract_id
            &&& record.verify_attempts == 0
            &&& record.effect is Some
            &&& record.effect->0.at == at
            &&& match outcome {
                CallOutcomeView::Replied(reply) => {
                    &&& record.status == Status::PendingVerification
                    &&& record.effect->0.error is None
                    &&& record.effect->0.code == reply.code
                    &&& record.effect->0.body_sha256 == digest::hex_text(
                        digest::sha256(reply.payload),
                    )
                    &&& record.effect->0.body_len == reply.payload.len()
                    &&& record.reason == Some(
                        "transport accepted the request; not yet independently verified"@,
                    )
                },
                CallOutcomeView::TransportError(e) => {
                    &&& record.status == Status::Failed
                    &&& record.effect->0.error == Some("transport: "@ + e)
                    &&& record.effect->0.code == 0
                    &&& record.effect->0.body_sha256 == digest::hex_text(digest::sha256(seq![]))
                    &&& record.effect->0.body_len == 0
                    &&& record.reason == Some("transport: "@ + e)
                },
                CallOutcomeView::NotSent(why) => {
                    &&& record.status == Status::Failed
                    &&& record.effect->0.error == Some(why)
                    &&& record.effect->0.code == 0
                    &&& record.effect->0.body_sha256 == digest::hex_text(digest::sha256(seq![]))
                    &&& record.effect->0.body_len == 0
                    &&& record.reason == Some(why)
                },
            }
        }),
{
}

/// An action whose method cannot be sent is recorded as failed, with the refusal as its
/// reason, and no call is asked for.
pub proof fn unsupported_method_is_recorded(
    key: Seq<char>,
    action: ActionSpecView,
    at: u64,
    now: u64,
    seq_no: u64,
    contract_id: u32,
)
    requires
        transport::verb_named(action.method) is None,
    ensures
        ({
            let waiting = (SubmitView::Lookup { idempotency_key: key, action }).next(
                HostEventView::Fetched(FetchedView::Absent),
            );
            let stamping = waiting.next(HostEventView::Clock(at));
            let state = stamping.next(HostEventView::Context { now, seq_no, contract_id });
            let record = state->Write_record;
            let why = "unsupported method "@ + text::quoted(text::ascii_upper(action.method));
            &&& waiting is Clock
            &&& stamping is Stamp
            &&& state is Write
            &&& record.status == Status::Failed
            &&& record.reason == Some(why)
            &&& record.effect is Some
            &&& record.effect->0.error == Some(why)
            &&& record.effect->0.at == at
            &&& record.effect->0.code == 0
            &&& record.effect->0.body_sha256 == digest::hex_text(digest::sha256(seq![]))
            &&& record.effect->0.body_len == 0
            &&& record.verification is None
            &&& record.updated_at == now
            &&& record.verify_attempts == 0
            &&& record.idempotency_key == key
            &&& record.action.method == action.method
            &&& record.action.url == action.url
            &&& record.action.headers == action.headers
            &&& record.action.verify == action.verify
            &&& record.action.body is None
            &&& record.request_body == record::print_of(action.body)
            &&& record.created_at == now
            &&& record.seq_no == seq_no
            &&& record.contract_id == contract_id
        }),
{
}

/// A record that is written is anchored by the hash of its claims, then put on the index;
/// a write or an anchor that fails ends the submission with its error, and nothing that the
/// index does changes the result.
pub proof fn written_record_is_anchored_and_indexed(
    record: RecordView,
    digest: Seq<u8>,
    index: Seq<char>,
    stored: Option<Seq<u8>>,
    written: Result<(), Seq<char>>,
    anchored: Result<(), Seq<char>>,
    e: Seq<char>,
)
    ensures
        ({
            let writing = SubmitView::Write { record };
            let anchoring = SubmitView::Anchor { record, digest };
            let reading = SubmitView::ReadIndex { record };
            let keys = index::loaded(stored);
            let key = record.idempotency_key;
            &&& writing.next(HostEventView::Stored(StoredView::Written)) == (SubmitView::Anchor {
                record,
                digest: digest::sha256(encode_utf8(record.claims_text())),
            })
            &&& writing.next(HostEventView::Stored(StoredView::Refused(e))) == (SubmitView::Done {
                result: Err("kv put: "@ + e),
            })
            &&& writing.next(HostEventView::Stored(StoredView::NotSerialized(e))) == (
            SubmitView::Done { result: Err("serialize record: "@ + e) })
            &&& anchored is Ok ==> anchoring.next(HostEventView::Anchored(anchored)) == reading
            &&& anchored is Err ==> anchoring.next(HostEventView::Anchored(anchored)) == (
            SubmitView::Done { result: Err("set claims digest: "@ + anchored->Err_0) })
            &&& keys.contains(key) || keys.len() >= 5000 ==> reading.next(
                HostEventView::IndexRead(stored),
            ) == (SubmitView::Done { result: Ok(record) })
            &&& !keys.contains(key) && keys.len() < 5000 ==> reading.next(
                HostEventView::IndexRead(stored),
            ) == (SubmitView::WriteIndex {
                record,
                index: if keys.len() == 0 {
                    key
                } else {
                    index::joined(keys) + "\n"@ + key
                },
            })
            &&& (SubmitView::WriteIndex { record, index }).next(
                HostEventView::IndexWritten(written),
            ) == (SubmitView::Done { result: Ok(record) })
        }),
{
    index::appending_adds_a_line(index::loaded(stored), record.idempotency_key);
}

/// A new key whose call was answered, and whose record could be written and anchored, ends as
/// pending with the answer in it, whatever its code and whatever becomes of the index.
pub proof fn answered_submission_ends_pending(
    request: SubmitRequestView,
    reserving: HostEventView,
    secured: Result<(), Seq<char>>,
    at: u64,
    reply: HttpReplyView,
    stamping: HostEventView,
    stored: Option<Seq<u8>>,
    written: Result<(), Seq<char>>,
)
    requires
        request.idempotency_key.len() > 0,
        transport::verb_named(request.action.method) is Some,
        reserving is Context,
        stamping is Context,
        reply.payload.len() <= usize::MAX,
    ensures
        ({
            let called = SubmitView::start(InputView::Parsed(request)).next(
                HostEventView::Fetched(FetchedView::Absent),
            ).next(reserving).next(HostEventView::Stored(StoredView::Written)).next(
                HostEventView::Anchored(secured),
            ).next(HostEventView::Clock(at)).next(
                HostEventView::Called(CallOutcomeView::Replied(reply)),
            );
            let read = called.next(stamping).next(HostEventView::Stored(StoredView::Written)).next(
                HostEventView::Anchored(Ok(())),
            ).next(HostEventView::IndexRead(stored));
            let end = if read is WriteIndex {
                read.next(HostEventView::IndexWritten(written))
            } else {
                read
            };
            &&& end is Done
            &&& end->Done_result is Ok
            &&& end->Done_result->Ok_0.status == Status::PendingVerification
            &&& end->Done_result->Ok_0.idempotency_key == request.idempotency_key
            &&& end->Done_result->Ok_0.effect is Some
            &&& end->Done_result->Ok_0.effect->0.at == at
            &&& end->Done_result->Ok_0.effect->0.error is None
            &&& end->Done_result->Ok_0.effect->0.code == reply.code
            &&& end->Done_result->Ok_0.effect->0.body_sha256 == digest::hex_text(
                digest::sha256(reply.payload),
            )
            &&& end->Done_result->Ok_0.effect->0.body_len == reply.payload.len()
        }),
{
    let called = lemma_new_key_is_called(request, reserving, secured, at);
    lemma_answered_call_ends(called, at, reply, stamping, stored, written);
}

/// From the request of a new key to its call.
proof fn lemma_new_key_is_called(
    request: SubmitRequestView,
    reserving: HostEventView,
    secured: Result<(), Seq<char>>,
    at: u64,
) -> (called: (RecordView, HttpRequestView))
    requires
        request.idempotency_key.len() > 0,
        transport::verb_named(request.action.method) is Some,
        reserving is Context,
    ensures
        called.0.idempotency_key == request.idempotency_key,
        SubmitView::start(InputView::Parsed(request)).next(
            HostEventView::Fetched(FetchedView::Absent),
        ).next(reserving).next(HostEventView::Stored(StoredView::Written)).next(
            HostEventView::Anchored(secured),
        ).next(HostEventView::Clock(at)) == (SubmitView::Call {
            idempotency_key: called.0.idempotency_key,
            action: called.0.action,
            body: called.0.request_body,
            at,
            request: called.1,
        }),
{
    let reserved = SubmitView::start(InputView::Parsed(request)).next(
        HostEventView::Fetched(FetchedView::Absent),
    ).next(reserving);
    submission_looks_up_the_very_key(request, seq![]);
    new_key_is_reserved(
        request.idempotency_key,
        request.action,
        reserving->now,
        reserving->seq_no,
        reserving->contract_id,
    );
    let record = reserved->Reserve_record;
    reservation_leads_to_the_call(record, reserved->Reserve_request, secured, at, seq![]);
    (record, reserved->Reserve_request)
}

/// From an answered call to the end.
proof fn lemma_answered_call_ends(
    called: (RecordView, HttpRequestView),
    at: u64,
    reply: HttpReplyView,
    stamping: HostEventView,
    stored: Option<Seq<u8>>,
    written: Result<(), Seq<char>>,
)
    requires
        stamping is Context,
        reply.payload.len() <= usize::MAX,
    ensures
        ({
            let read = (SubmitView::Call {
                idempotency_key: called.0.idempotency_key,
                action: called.0.action,
                body: called.0.request_body,
                at,
                request: called.1,
            }).next(HostEventView::Called(CallOutcomeView::Replied(reply))).next(stamping).next(
                HostEventView::Stored(StoredView::Written),
            ).next(HostEventView::Anchored(Ok(()))).next(HostEventView::IndexRead(stored));
            let end = if read is WriteIndex {
                read.next(HostEventView::IndexWritten(written))
            } else {
                read
            };
            &&& end is Done
            &&& end->Done_result is Ok
            &&& end->Done_result->Ok_0.status == Status::PendingVerification
            &&& end->Done_result->Ok_0.idempotency_key == called.0.idempotency_key
            &&& end->Done_result->Ok_0.effect is Some
            &&& end->Done_result->Ok_0.effect->0.at == at
            &&& end->Done_result->Ok_0.effect->0.error is None
            &&& end->Done_result->Ok_0.effect->0.code == reply.code
            &&& end->Done_result->Ok_0.effect->0.body_sha256 == digest::hex_text(
                digest::sha256(reply.payload),
            )
            &&& end->Done_result->Ok_0.effect->0.body_len == reply.payload.len()
        }),
{
    every_answer_is_recorded(
        called.0.idempotency_key,
        called.0.action,
        called.0.request_body,
        at,
        called.1,
        CallOutcomeView::Replied(reply),
        stamping->now,
        stamping->seq_no,
        stamping->contract_id,
    );
    let last = (SubmitView::Call {
        idempotency_key: called.0.idempotency_key,
        action: called.0.action,
        body: called.0.request_body,
        at,
        request: called.1,
    }).next(HostEventView::Called(CallOutcomeView::Replied(reply))).next(stamping)->Write_record;
    let keys = index::loaded(stored);
    let key = last.idempotency_key;
    let index = if keys.len() == 0 {
        key
    } else {
        index::joined(keys) + "\n"@ + key
    };
    written_record_is_anchored_and_indexed(
        last,
        digest::sha256(encode_utf8(last.claims_text())),
        index,
        stored,
        written,
        Ok(()),
        seq![],
    );
}

/// Some outbound call among the events was not sent or ended in a transport error.
pub open spec fn transport_failed_among(events: Seq<HostEventView>) -> bool {
    exists|i: int|
        0 <= i < events.len() && (#[trigger] events[i]) is Called && (events[i]->Called_0
            is TransportError || events[i]->Called_0 is NotSent)
}

/// What is known of failure after the `past` events of a submission.
spec fn failure_explained(method: Seq<char>, state: SubmitView, past: Seq<HostEventView>) -> bool {
    let explained = transport::verb_named(method) is None || transport_failed_among(past);
    match state {
        SubmitView::Lookup { action, .. } => action.method == method,
        SubmitView::Reserve { record, .. } => record.status == Status::PendingVerification,
        SubmitView::Secure { record, .. } => record.status == Status::PendingVerification,
        SubmitView::Clock { prepared, .. } => prepared is Err ==> explained,
        SubmitView::Stamp { effect, .. } => effect.error is Some ==> explained,
        SubmitView::Write { record } => record.status == Status::Failed ==> explained,
        SubmitView::Anchor { record, .. } => record.status == Status::Failed ==> explained,
        SubmitView::ReadIndex { record } => record.status == Status::Failed ==> explained,
        SubmitView::WriteIndex { record, .. } => record.status == Status::Failed ==> explained,
        _ => true,
    }
}

proof fn lemma_failure_grows(past: Seq<HostEventView>, event: HostEventView)
    ensures
        transport_failed_among(past) ==> transport_failed_among(past.push(event)),
        event is Called && (event->Called_0 is TransportError || event->Called_0 is NotSent)
            ==> transport_failed_among(past.push(event)),
{
    let now = past.push(event);
    if transport_failed_among(past) {
        let i = choose|i: int|
            0 <= i < past.len() && (#[trigger] past[i]) is Called && (past[i]->Called_0
                is TransportError || past[i]->Called_0 is NotSent);
        assert(now[i] == past[i]);
    }
    assert(now[past.len() as int] == event);
}

proof fn lemma_failure_explained(
    method: Seq<char>,
    state: SubmitView,
    past: Seq<HostEventView>,
    events: Seq<HostEventView>,
)
    requires
        failure_explained(method, state, past),
        state !is Done,
    ensures
        failure_explained(method, model::submit_end(state, events), past + events),
        model::submit_end(state, events) is Done && model::submit_end(
            state,
            events,
        )->Done_result is Ok && model::submit_end(state, events)->Done_result->Ok_0.status
            == Status::Failed ==> {
            ||| transport::verb_named(method) is None
            ||| transport_failed_among(past + events)
            ||| exists|i: int|
                0 <= i < events.len() && (#[trigger] events[i]) is Fetched && events[i]->Fetched_0
                    is Found
        },
    decreases events.len(),
{
    if events.len() > 0 {
        let event = events[0];
        let next = state.next(event);
        let now = past.push(event);
        let rest = events.drop_first();
        lemma_failure_grows(past, event);
        assert(now + rest =~= past + events);
        assert(failure_explained(method, next, now));
        if next is Done {
            lemma_done_stays(next, rest);
            if transport_failed_among(now) {
                let i = choose|i: int|
                    0 <= i < now.len() && (#[trigger] now[i]) is Called && (now[i]->Called_0
                        is TransportError || now[i]->Called_0 is NotSent);
                assert((now + rest)[i] == now[i]);
            }
            if state is Lookup {
                assert(events[0] is Fetched);
            }
        } else {
            lemma_failure_explained(method, next, now, rest);
            if exists|i: int|
                0 <= i < rest.len() && (#[trigger] rest[i]) is Fetched && rest[i]->Fetched_0
                    is Found {
                let i = choose|i: int|
                    0 <= i < rest.len() && (#[trigger] rest[i]) is Fetched && rest[i]->Fetched_0
                        is Found;
                assert(events[i + 1] == rest[i]);
            }
        }
    } else {
        assert(past + events =~= past);
    }
}

proof fn lemma_done_stays(state: SubmitView, events: Seq<HostEventView>)
    requires
        state is Done,
    ensures
        model::submit_end(state, events) == state,
    decreases events.len(),
{
    if events.len() > 0 {
        lemma_done_stays(state.next(events[0]), events.drop_first());
    }
}

/// A submission that returns a failed record had a method that cannot be sent, or a call that
/// ended in a transport error, or found the record in the ledger. A reply never fails it.
pub proof fn failed_only_where_the_transport_errored(
    request: SubmitRequestView,
    events: Seq<HostEventView>,
)
    requires
        model::submit_end(SubmitView::start(InputView::Parsed(request)), events) is Done,
        model::submit_end(SubmitView::start(InputView::Parsed(request)), events)->Done_result is Ok,
        model::submit_end(
            SubmitView::start(InputView::Parsed(request)),
            events,
        )->Done_result->Ok_0.status == Status::Failed,
    ensures
        transport::verb_named(request.action.method) is None || transport_failed_among(events)
            || exists|i: int|
            0 <= i < events.len() && (#[trigger] events[i]) is Fetched && events[i]->Fetched_0
                is Found,
{
    let start = SubmitView::start(InputView::Parsed(request));
    if start is Done {
        lemma_done_stays(start, events);
    } else {
        lemma_failure_explained(request.action.method, start, seq![], events);
        assert(seq![] + events =~= events);
    }
}

/// The view of a submission under way shows all of it.
pub proof fn submit_view_shows_everything(state: Submit)
    ensures
        match state {
            Submit::Lookup { idempotency_key, action } => state@ == (SubmitView::Lookup {
                idempotency_key: idempotency_key@,
                action: action@,
            }),
            Submit::Enter { idempotency_key, action, body, request } => {
                &&& state@ is Enter
                &&& state@->Enter_idempotency_key == idempotency_key@
                &&& state@->Enter_action == action@
                &&& state@->Enter_request == request@
                &&& body is None <==> state@->Enter_body is None
                &&& body is Some ==> state@->Enter_body->0 == body->0@
            },
            Submit::Reserve { record, request } => state@ == (SubmitView::Reserve {
                record: record@,
                request: request@,
            }),
            Submit::Secure { record, digest, request } => state@ == (SubmitView::Secure {
                record: record@,
                digest: digest@,
                request: request@,
            }),
            Submit::Clock { idempotency_key, action, body, prepared } => {
                &&& state@ is Clock
                &&& state@->Clock_idempotency_key == idempotency_key@
                &&& state@->Clock_action == action@
                &&& body is None <==> state@->Clock_body is None
                &&& body is Some ==> state@->Clock_body->0 == body->0@
                &&& prepared is Ok <==> state@->prepared is Ok
                &&& prepared is Ok ==> state@->prepared->Ok_0 == prepared->Ok_0@
                &&& prepared is Err ==> state@->prepared->Err_0 == prepared->Err_0@
            },
            Submit::Call { idempotency_key, action, body, at, request } => {
                &&& state@ is Call
                &&& state@->Call_idempotency_key == idempotency_key@
                &&& state@->Call_action == action@
                &&& state@->at == at
                &&& state@->Call_request == request@
                &&& body is None <==> state@->Call_body is None
                &&& body is Some ==> state@->Call_body->0 == body->0@
            },
            Submit::Stamp { idempotency_key, action, body, effect } => {
                &&& state@ is Stamp
                &&& state@->Stamp_idempotency_key == idempotency_key@
                &&& state@->Stamp_action == action@
                &&& state@->effect == effect@
                &&& body is None <==> state@->Stamp_body is None
                &&& body is Some ==> state@->Stamp_body->0 == body->0@
            },
            Submit::Write { record } => state@ == (SubmitView::Write { record: record@ }),
            Submit::Anchor { record, digest } => state@ == (SubmitView::Anchor {
                record: record@,
                digest: digest@,
            }),
            Submit::ReadIndex { record } => state@ == (SubmitView::ReadIndex { record: record@ }),
            Submit::WriteIndex { record, index } => state@ == (SubmitView::WriteIndex {
                record: record@,
                index: index@,
            }),
            Submit::Done { result: Ok(record) } => state@ == (SubmitView::Done {
                result: Ok(record@),
            }),
            Submit::Done { result: Err(why) } => state@ == (SubmitView::Done {
                result: Err(why@),
            }),
        },
{
}

/// A submission under way goes on with any outcome of the host call that it waits for.
pub proof fn submission_takes_any_outcome(state: SubmitView, event: HostEventView)
    ensures
        state.expects(event) <==> match state {
            SubmitView::Lookup { .. } => event is Fetched,
            SubmitView::Enter { .. } | SubmitView::Stamp { .. } => event is Context,
            SubmitView::Reserve { .. } | SubmitView::Write { .. } => event is Stored,
            SubmitView::Secure { .. } | SubmitView::Anchor { .. } => event is Anchored,
            SubmitView::Clock { .. } => event is Clock,
            SubmitView::Call { .. } => event is Called,
            SubmitView::ReadIndex { .. } => event is IndexRead,
            SubmitView::WriteIndex { .. } => event is IndexWritten,
            SubmitView::Done { .. } => false,
        },
{
}

// ---------------------------------------------------------------------------
// What a verification owes
// ---------------------------------------------------------------------------

/// A verification looks up the very key that was requested; it is refused without a request.
pub proof fn verification_looks_up_the_very_key(key: Seq<char>, why: Seq<char>)
    ensures
        VerifyView::start(InputView::Parsed(key)) == (VerifyView::Lookup { idempotency_key: key }),
        VerifyView::start(InputView::Missing) == (VerifyView::Done {
            result: Err("verify-action: missing input"@),
        }),
        VerifyView::start(InputView::Malformed(why)) == (VerifyView::Done {
            result: Err("verify-action: bad input: "@ + why),
        }),
{
}

/// A pending record of an effect is verified; any other that is found is returned as it is,
/// a key without a record is refused by its name, and a lookup that fails ends the
/// verification.
pub proof fn verification_verifies_pending_effects(
    key: Seq<char>,
    record: RecordView,
    e: Seq<char>,
)
    ensures
        ({
            let lookup = VerifyView::Lookup { idempotency_key: key };
            let found = lookup.next(HostEventView::Fetched(FetchedView::Found(record)));
            &&& record.status == Status::PendingVerification && record.effect is Some ==> found
                == (VerifyView::Clock { record })
            &&& record.status != Status::PendingVerification || record.effect is None ==> found
                == (VerifyView::Done { result: Ok(record) })
            &&& lookup.next(HostEventView::Fetched(FetchedView::Absent)) == (VerifyView::Done {
                result: Err("verify-action: no record for "@ + key),
            })
            &&& lookup.next(HostEventView::Fetched(FetchedView::Unreadable(e))) == (
            VerifyView::Done { result: Err("kv get: "@ + e) })
            &&& lookup.next(HostEventView::Fetched(FetchedView::Corrupt(e))) == (
            VerifyView::Done { result: Err("ledger entry "@ + key + " is corrupt: "@ + e) })
        }),
{
}

/// The probe that is sent is the one that the record's action names.
pub proof fn probe_is_what_the_action_names(record: RecordView, at: u64)
    requires
        transport::verb_named(record.action.verify.method) is Some,
    ensures
        ({
            let state = (VerifyView::Clock { record }).next(HostEventView::Clock(at));
            let probe = record.action.verify;
            &&& state is Probe
            &&& state->Probe_record == record
            &&& state->at == at
            &&& Some(state->request.method) == transport::verb_named(probe.method)
            &&& state->request.url == probe.url
            &&& state->request.headers == probe.headers
            &&& probe.body is None <==> state->request.payload is None
            &&& probe.body is Some ==> state->request.payload->0 == encode_utf8(probe.body->0)
        }),
{
}

/// What a probe says: one with an error says that it failed, one without a body that there
/// was none, and one with a body is favourable exactly where its code and the decoded body,
/// however long it is, meet every clause of the expectation.
pub proof fn judgement_goes_by_every_clause(
    expect: ExpectationView,
    probe: AttemptView,
    body: Option<Seq<u8>>,
)
    ensures
        probe.error is Some ==> verify::judged(expect, probe, body) == Err::<(), Seq<char>>(
            "verification probe failed: "@ + probe.error->0,
        ),
        probe.error is None && body is None ==> verify::judged(expect, probe, body) == Err::<
            (),
            Seq<char>,
        >("verification probe returned no body"@),
        probe.error is None && body is Some ==> {
            &&& verify::judged(expect, probe, body) == expect.verdict(
                probe.code,
                text::decoded(body->0),
            )
            &&& verify::judged(expect, probe, body) is Ok <==> {
                &&& expect.status is Some ==> expect.status->0 == probe.code
                &&& forall|i: int|
                    0 <= i < expect.body_contains.len() ==> text::occurs_in(
                        #[trigger] expect.body_contains[i],
                        text::decoded(body->0),
                    )
                &&& forall|i: int|
                    0 <= i < expect.body_absent.len() ==> !text::occurs_in(
                        #[trigger] expect.body_absent[i],
                        text::decoded(body->0),
                    )
            }
        },
{
    if body is Some {
        record::verdict_is_favourable_iff_every_clause_holds(
            expect,
            probe.code,
            text::decoded(body->0),
        );
    }
}

/// A probe that was answered settles a pending record: as confirmed exactly where the answer
/// meets every clause, and otherwise as unverified with the reason; the answer is kept, and
/// of the record only the outcome changes.
pub proof fn answered_probe_settles_the_record(
    record: RecordView,
    at: u64,
    request: HttpRequestView,
    reply: HttpReplyView,
    now: u64,
)
    requires
        record.status == Status::PendingVerification,
        record.verify_attempts < u32::MAX,
        reply.payload.len() <= usize::MAX,
    ensures
        ({
            let state = (VerifyView::Probe { record, at, request }).next(
                HostEventView::Called(CallOutcomeView::Replied(reply)),
            ).next(HostEventView::Clock(now));
            let settled = state->Write_record;
            let expect = record.action.verify.expect;
            let body = text::decoded(reply.payload);
            &&& state is Write
            &&& settled.status == Status::Confirmed <==> {
                &&& expect.status is Some ==> expect.status->0 == reply.code
                &&& forall|i: int|
                    0 <= i < expect.body_contains.len() ==> text::occurs_in(
                        #[trigger] expect.body_contains[i],
                        body,
                    )
                &&& forall|i: int|
                    0 <= i < expect.body_absent.len() ==> !text::occurs_in(
                        #[trigger] expect.body_absent[i],
                        body,
                    )
            }
            &&& settled.status == Status::Confirmed || settled.status == Status::Unverified
            &&& settled.status == Status::Confirmed ==> settled.reason == Some(
                "independently verified against external state"@,
            )
            &&& settled.status == Status::Unverified ==> expect.verdict(reply.code, body) == Err::<
                (),
                Seq<char>,
            >(settled.reason->0) && settled.reason is Some
            &&& settled.verification is Some
            &&& settled.verification->0.at == at
            &&& settled.verification->0.error is None
            &&& settled.verification->0.code == reply.code
            &&& settled.verification->0.body_sha256 == digest::hex_text(
                digest::sha256(reply.payload),
            )
            &&& settled.verification->0.body_len == reply.payload.len()
            &&& settled.updated_at == now
            &&& settled.verify_attempts == record.verify_attempts + 1
            &&& settled.idempotency_key == record.idempotency_key
            &&& settled.effect == record.effect
            &&& settled.created_at == record.created_at
            &&& settled.seq_no == record.seq_no
            &&& settled.contract_id == record.contract_id
            &&& settled.action.method == record.action.method
            &&& settled.action.url == record.action.url
            &&& settled.action.headers == record.action.headers
            &&& settled.action.verify == record.action.verify
            &&& settled.action.body is None
            &&& record.action.body is None ==> settled.request_body == record.request_body
            &&& record.action.body is Some ==> settled.request_body == record::print_of(
                record.action.body,
            )
        }),
{
    record::verdict_is_favourable_iff_every_clause_holds(
        record.action.verify.expect,
        reply.code,
        text::decoded(reply.payload),
    );
}

/// An attempt without a response, for the reason `why`.
pub open spec fn is_failure(attempt: AttemptView, at: u64, why: Seq<char>) -> bool {
    &&& attempt.at == at
    &&& attempt.error == Some(why)
    &&& attempt.code == 0
    &&& attempt.body_sha256 == digest::hex_text(digest::sha256(seq![]))
    &&& attempt.body_len == 0
}

/// A probe that could not be sent, or whose transport errored, leaves a verdict that names the
/// failure, and the record as it was.
pub proof fn failed_probe_is_judged_a_failure(
    record: RecordView,
    at: u64,
    request: HttpRequestView,
    e: Seq<char>,
)
    ensures
        ({
            let state = (VerifyView::Probe { record, at, request }).next(
                HostEventView::Called(CallOutcomeView::TransportError(e)),
            );
            &&& state is Settle
            &&& state->Settle_record == record
            &&& is_failure(state->probe, at, "transport: "@ + e)
            &&& state->verdict == Err::<(), Seq<char>>(
                "verification probe failed: "@ + ("transport: "@ + e),
            )
        }),
        ({
            let state = (VerifyView::Probe { record, at, request }).next(
                HostEventView::Called(CallOutcomeView::NotSent(e)),
            );
            &&& state is Settle
            &&& state->Settle_record == record
            &&& is_failure(state->probe, at, e)
            &&& state->verdict == Err::<(), Seq<char>>("verification probe failed: "@ + e)
        }),
        transport::verb_named(record.action.verify.method) is None ==> {
            let state = (VerifyView::Clock { record }).next(HostEventView::Clock(at));
            let why = "unsupported method "@ + text::quoted(
                text::ascii_upper(record.action.verify.method),
            );
            &&& state is Settle
            &&& state->Settle_record == record
            &&& is_failure(state->probe, at, why)
            &&& state->verdict == Err::<(), Seq<char>>("verification probe failed: "@ + why)
        },
{
}

/// A record whose probe is back is settled: a pending one is confirmed exactly where the probe
/// was favourable and unverified otherwise, a terminal one keeps its outcome, and either is
/// written without the body of its request.
pub proof fn probed_record_is_settled(
    record: RecordView,
    probe: AttemptView,
    verdict: Result<(), Seq<char>>,
    now: u64,
)
    requires
        record.status == Status::PendingVerification ==> record.verify_attempts < u32::MAX,
    ensures
        ({
            let state = (VerifyView::Settle { record, probe, verdict }).next(
                HostEventView::Clock(now),
            );
            let settled = state->Write_record;
            &&& state is Write
            &&& settled.idempotency_key == record.idempotency_key
            &&& settled.effect == record.effect
            &&& settled.created_at == record.created_at
            &&& settled.seq_no == record.seq_no
            &&& settled.contract_id == record.contract_id
            &&& settled.action.method == record.action.method
            &&& settled.action.url == record.action.url
            &&& settled.action.headers == record.action.headers
            &&& settled.action.verify == record.action.verify
            &&& settled.action.body is None
            &&& record.action.body is None ==> settled.request_body == record.request_body
            &&& record.action.body is Some ==> settled.request_body == record::print_of(
                record.action.body,
            )
            &&& if record.status == Status::PendingVerification {
                &&& settled.status == Status::Confirmed <==> verdict is Ok
                &&& settled.status == Status::Unverified <==> verdict is Err
                &&& verdict is Ok ==> settled.reason == Some(
                    "independently verified against external state"@,
                )
                &&& verdict is Err ==> settled.reason == Some(verdict->Err_0)
                &&& settled.verification == Some(probe)
                &&& settled.updated_at == now
                &&& settled.verify_attempts == record.verify_attempts + 1
            } else {
                &&& settled.status == record.status
                &&& settled.reason == record.reason
                &&& settled.verification == record.verification
                &&& settled.updated_at == record.updated_at
                &&& settled.verify_attempts == record.verify_attempts
            }
        }),
{
    record::settling_keeps_the_outcome(record, probe, verdict, now);
    record::written_record_lacks_the_body_alone(record.settled(probe, verdict, now));
}

/// A settled record is written, anchored by the hash of its claims, and returned; a write or
/// an anchor that fails ends the verification with its error.
pub proof fn settled_record_is_returned(
    record: RecordView,
    digest: Seq<u8>,
    anchored: Result<(), Seq<char>>,
    e: Seq<char>,
)
    ensures
        ({
            let writing = VerifyView::Write { record };
            let anchoring = VerifyView::Anchor { record, digest };
            &&& writing.next(HostEventView::Stored(StoredView::Written)) == (VerifyView::Anchor {
                record,
                digest: digest::sha256(encode_utf8(record.claims_text())),
            })
            &&& writing.next(HostEventView::Stored(StoredView::Refused(e))) == (VerifyView::Done {
                result: Err("kv put: "@ + e),
            })
            &&& writing.next(HostEventView::Stored(StoredView::NotSerialized(e))) == (
            VerifyView::Done { result: Err("serialize record: "@ + e) })
            &&& anchored is Ok ==> anchoring.next(HostEventView::Anchored(anchored)) == (
            VerifyView::Done { result: Ok(record) })
            &&& anchored is Err ==> anchoring.next(HostEventView::Anchored(anchored)) == (
            VerifyView::Done { result: Err("set claims digest: "@ + anchored->Err_0) })
        }),
{
}

/// A verification of a pending record of an effect, whose probe was answered and whose later
/// host calls did not fail, ends with the record confirmed exactly where the answer meets
/// every clause of its expectation, and otherwise unverified.
pub proof fn answered_verification_ends_settled(
    key: Seq<char>,
    record: RecordView,
    at: u64,
    reply: HttpReplyView,
    now: u64,
)
    requires
        record.status == Status::PendingVerification,
        record.effect is Some,
        record.verify_attempts < u32::MAX,
        transport::verb_named(record.action.verify.method) is Some,
        reply.payload.len() <= usize::MAX,
    ensures
        ({
            let end = VerifyView::start(InputView::Parsed(key)).next(
                HostEventView::Fetched(FetchedView::Found(record)),
            ).next(HostEventView::Clock(at)).next(
                HostEventView::Called(CallOutcomeView::Replied(reply)),
            ).next(HostEventView::Clock(now)).next(
                HostEventView::Stored(StoredView::Written),
            ).next(HostEventView::Anchored(Ok(())));
            let expect = record.action.verify.expect;
            let body = text::decoded(reply.payload);
            &&& end is Done
            &&& end->result is Ok
            &&& end->result->Ok_0.idempotency_key == record.idempotency_key
            &&& end->result->Ok_0.status == Status::Confirmed <==> {
                &&& expect.status is Some ==> expect.status->0 == reply.code
                &&& forall|i: int|
                    0 <= i < expect.body_contains.len() ==> text::occurs_in(
                        #[trigger] expect.body_contains[i],
                        body,
                    )
                &&& forall|i: int|
                    0 <= i < expect.body_absent.len() ==> !text::occurs_in(
                        #[trigger] expect.body_absent[i],
                        body,
                    )
            }
            &&& end->result->Ok_0.status == Status::Confirmed || end->result->Ok_0.status
                == Status::Unverified
        }),
{
    verification_looks_up_the_very_key(key, seq![]);
    verification_verifies_pending_effects(key, record, seq![]);
    probe_is_what_the_action_names(record, at);
    let probing = (VerifyView::Clock { record }).next(HostEventView::Clock(at));
    answered_probe_settles_the_record(record, at, probing->request, reply, now);
    let settled = probing.next(HostEventView::Called(CallOutcomeView::Replied(reply))).next(
        HostEventView::Clock(now),
    )->Write_record;
    settled_record_is_returned(
        settled,
        digest::sha256(encode_utf8(settled.claims_text())),
        Ok(()),
        seq![],
    );
}

/// The view of a verification under way shows all of it.
pub proof fn verify_view_shows_everything(state: Verify)
    ensures
        match state {
            Verify::Lookup { idempotency_key } => state@ == (VerifyView::Lookup {
                idempotency_key: idempotency_key@,
            }),
            Verify::Clock { record } => state@ == (VerifyView::Clock { record: record@ }),
            Verify::Probe { record, at, request } => state@ == (VerifyView::Probe {
                record: record@,
                at,
                request: request@,
            }),
            Verify::Settle { record, probe, verdict } => {
                &&& state@ is Settle
                &&& state@->Settle_record == record@
                &&& state@->probe == probe@
                &&& verdict is Ok <==> state@->verdict is Ok
                &&& verdict is Err ==> state@->verdict->Err_0 == verdict->Err_0@
            },
            Verify::Write { record } => state@ == (VerifyView::Write { record: record@ }),
            Verify::Anchor { record, digest } => state@ == (VerifyView::Anchor {
                record: record@,
                digest: digest@,
            }),
            Verify::Done { result: Ok(record) } => state@ == (VerifyView::Done {
                result: Ok(record@),
            }),
            Verify::Done { result: Err(why) } => state@ == (VerifyView::Done {
                result: Err(why@),
            }),
        },
{
}

/// A verification under way goes on with any outcome of the host call that it waits for; only
/// the count of verifications has an end.
pub proof fn verification_takes_any_outcome(state: VerifyView, event: HostEventView)
    ensures
        state.expects(event) <==> match state {
            VerifyView::Lookup { .. } => event is Fetched,
            VerifyView::Clock { .. } => event is Clock,
            VerifyView::Probe { .. } => event is Called,
            VerifyView::Settle { record, .. } => event is Clock && (record.status
                != Status::PendingVerification || record.verify_attempts < u32::MAX),
            VerifyView::Write { .. } => event is Stored,
            VerifyView::Anchor { .. } => event is Anchored,
            VerifyView::Done { .. } => false,
        },
{
}

/// The view of a submission's request shows all of it.
pub proof fn submit_request_view_shows_everything(input: Input<SubmitRequest>)
    ensures
        match input {
            Input::Missing => input@ == InputView::<SubmitRequestView>::Missing,
            Input::Malformed(why) => input@ == InputView::<SubmitRequestView>::Malformed(why@),
            Input::Parsed(request) => {
                &&& input@ is Parsed
                &&& input@->Parsed_0.idempotency_key == request.idempotency_key@
                &&& input@->Parsed_0.action == request.action@
            },
        },
{
}

} // verus!
