//! A model of the ledger.
//!
//! A ledger is modelled by the entries of its map, the effects that were sent and the digests
//! that were anchored. An operation runs on it event by event: the store answers a lookup with
//! what the ledger holds (or with an error), and the calls that an operation waits for take
//! place, or fail. A run may be cut off after any event.

use crate::host::{FetchedView, HostEventView, StoredView};
use crate::index;
use crate::record::{RecordView, Status};
use crate::submit::SubmitView;
use crate::verify::VerifyView;
use vstd::prelude::*;
use vstd::utf8::*;

verus! {

// ---------------------------------------------------------------------------
// Ledgers and runs
// ---------------------------------------------------------------------------

/// What stands under a key of the ledger's map.
pub enum Entry {
    Record(RecordView),
    /// The text of the index, in bytes.
    Index(Seq<u8>),
}

pub struct Ledger {
    /// The ledger's map: the records and, under its own key, the index.
    pub entries: Map<Seq<char>, Entry>,
    /// The keys whose effect was sent, once for each outbound call. A call counts from the
    /// moment that a submission asks for it.
    pub sent: Seq<Seq<char>>,
    /// The digests that were anchored.
    pub anchored: Set<Seq<u8>>,
}

impl Ledger {
    /// A ledger that nothing has happened to.
    pub open spec fn empty() -> Ledger {
        Ledger { entries: Map::empty(), sent: seq![], anchored: Set::empty() }
    }

    /// Whether a record stands under the key.
    pub open spec fn holds(self, key: Seq<char>) -> bool {
        self.entries.contains_key(key) && self.entries[key] is Record
    }

    /// The record under the key.
    pub open spec fn record(self, key: Seq<char>) -> RecordView {
        self.entries[key]->Record_0
    }

    /// Whether this record stands under the key.
    pub open spec fn holds_record(self, key: Seq<char>, record: RecordView) -> bool {
        self.holds(key) && self.record(key) == record
    }

    /// The stored index.
    pub open spec fn index(self) -> Option<Seq<u8>> {
        if self.entries.contains_key(index::INDEX_KEY@) && self.entries[index::INDEX_KEY@] is Index {
            Some(self.entries[index::INDEX_KEY@]->Index_0)
        } else {
            None
        }
    }

    /// Whether the store may answer a lookup so: with what is there, or with an error. What
    /// is no record, the index, is never answered otherwise.
    pub open spec fn answers(self, key: Seq<char>, fetched: FetchedView) -> bool {
        match fetched {
            FetchedView::Absent => !self.entries.contains_key(key),
            FetchedView::Found(record) => self.holds_record(key, record),
            FetchedView::Unreadable(_) | FetchedView::Corrupt(_) => true,
        }
    }

    pub open spec fn written(self, record: RecordView, event: HostEventView) -> Ledger {
        if event == HostEventView::Stored(StoredView::Written) {
            Ledger {
                entries: self.entries.insert(record.idempotency_key, Entry::Record(record)),
                ..self
            }
        } else {
            self
        }
    }

    pub open spec fn anchoring(self, digest: Seq<u8>, event: HostEventView) -> Ledger {
        if event is Anchored && event->Anchored_0 is Ok {
            Ledger { anchored: self.anchored.insert(digest), ..self }
        } else {
            self
        }
    }

    pub open spec fn indexing(self, index: Seq<char>, event: HostEventView) -> Ledger {
        if event is IndexWritten && event->IndexWritten_0 is Ok {
            Ledger {
                entries: self.entries.insert(
                    index::INDEX_KEY@,
                    Entry::Index(encode_utf8(index)),
                ),
                ..self
            }
        } else {
            self
        }
    }

    /// This ledger after the host call that a submission waits for.
    pub open spec fn after_submit_event(self, state: SubmitView, event: HostEventView) -> Ledger {
        match state {
            SubmitView::Reserve { record, .. } => self.written(record, event),
            SubmitView::Secure { digest, .. } => self.anchoring(digest, event),
            SubmitView::Clock { idempotency_key, prepared, .. } => if prepared is Ok {
                Ledger { sent: self.sent.push(idempotency_key), ..self }
            } else {
                self
            },
            SubmitView::Write { record } => self.written(record, event),
            SubmitView::Anchor { digest, .. } => self.anchoring(digest, event),
            SubmitView::WriteIndex { index, .. } => self.indexing(index, event),
            _ => self,
        }
    }

    /// This ledger after the host call that a verification waits for.
    pub open spec fn after_verify_event(self, state: VerifyView, event: HostEventView) -> Ledger {
        match state {
            VerifyView::Write { record } => self.written(record, event),
            VerifyView::Anchor { digest, .. } => self.anchoring(digest, event),
            _ => self,
        }
    }
}

/// Whether an event can follow in a submission on this ledger.
pub open spec fn submit_event_possible(
    ledger: Ledger,
    state: SubmitView,
    event: HostEventView,
) -> bool {
    &&& state.expects(event)
    &&& state is Lookup ==> ledger.answers(state->Lookup_idempotency_key, event->Fetched_0)
}

/// Whether an event can follow in a verification on this ledger.
pub open spec fn verify_event_possible(
    ledger: Ledger,
    state: VerifyView,
    event: HostEventView,
) -> bool {
    &&& state.expects(event)
    &&& state is Lookup ==> ledger.answers(state->idempotency_key, event->Fetched_0)
}

/// The state that a submission reaches by events.
pub open spec fn submit_end(state: SubmitView, events: Seq<HostEventView>) -> SubmitView
    decreases events.len(),
{
    if events.len() == 0 {
        state
    } else {
        submit_end(state.next(events[0]), events.drop_first())
    }
}

/// The state that a verification reaches by events.
pub open spec fn verify_end(state: VerifyView, events: Seq<HostEventView>) -> VerifyView
    decreases events.len(),
{
    if events.len() == 0 {
        state
    } else {
        verify_end(state.next(events[0]), events.drop_first())
    }
}

/// The ledger after the events of a submission.
pub open spec fn submit_ledger(
    ledger: Ledger,
    state: SubmitView,
    events: Seq<HostEventView>,
) -> Ledger
    decreases events.len(),
{
    if events.len() == 0 {
        ledger
    } else {
        submit_ledger(
            ledger.after_submit_event(state, events[0]),
            state.next(events[0]),
            events.drop_first(),
        )
    }
}

/// The ledger after the events of a verification.
pub open spec fn verify_ledger(
    ledger: Ledger,
    state: VerifyView,
    events: Seq<HostEventView>,
) -> Ledger
    decreases events.len(),
{
    if events.len() == 0 {
        ledger
    } else {
        verify_ledger(
            ledger.after_verify_event(state, events[0]),
            state.next(events[0]),
            events.drop_first(),
        )
    }
}

/// Whether the events can take place in a submission on this ledger, one after the
/// other.
pub open spec fn submit_possible(
    ledger: Ledger,
    state: SubmitView,
    events: Seq<HostEventView>,
) -> bool
    decreases events.len(),
{
    events.len() > 0 ==> {
        &&& submit_event_possible(ledger, state, events[0])
        &&& submit_possible(
            ledger.after_submit_event(state, events[0]),
            state.next(events[0]),
            events.drop_first(),
        )
    }
}

/// Whether the events can take place in a verification on this ledger, one after the
/// other.
pub open spec fn verify_possible(
    ledger: Ledger,
    state: VerifyView,
    events: Seq<HostEventView>,
) -> bool
    decreases events.len(),
{
    events.len() > 0 ==> {
        &&& verify_event_possible(ledger, state, events[0])
        &&& verify_possible(
            ledger.after_verify_event(state, events[0]),
            state.next(events[0]),
            events.drop_first(),
        )
    }
}

// ---------------------------------------------------------------------------
// What a ledger keeps
// ---------------------------------------------------------------------------

impl RecordView {
    /// The fields of a record agree with its status.
    pub open spec fn consistent(self) -> bool {
        &&& self.idempotency_key.len() > 0
        &&& match self.status {
            Status::PendingVerification => {
                &&& self.effect is Some ==> self.effect->0.error is None
                &&& self.verification is None
                &&& self.verify_attempts == 0
            },
            Status::Failed => {
                &&& self.effect is Some
                &&& self.effect->0.error is Some
                &&& self.reason == self.effect->0.error
                &&& self.verification is None
                &&& self.verify_attempts == 0
            },
            Status::Confirmed => {
                &&& self.effect is Some
                &&& self.effect->0.error is None
                &&& self.verification is Some
                &&& self.verification->0.error is None
                &&& self.action.verify.expect.status matches Some(want)
                    ==> self.verification->0.code == want
                &&& self.verify_attempts == 1
            },
            Status::Unverified => {
                &&& self.effect is Some
                &&& self.effect->0.error is None
                &&& self.verification is Some
                &&& self.reason is Some
                &&& self.verify_attempts == 1
            },
        }
    }

    /// This record goes on from `before`: it has the same key, action, effect and creation,
    /// and where `before` is in a terminal state it is the same altogether. Of a request body
    /// the print is kept.
    pub open spec fn continues(self, before: RecordView) -> bool {
        &&& before.status.terminal() ==> self == before
        &&& self.idempotency_key == before.idempotency_key
        &&& self.without_body().action == before.without_body().action
        &&& self.without_body().request_body == before.without_body().request_body
        &&& self.effect == before.effect
        &&& self.created_at == before.created_at
        &&& self.seq_no == before.seq_no
        &&& self.contract_id == before.contract_id
    }
}

impl Ledger {
    /// Every record stands under its own key.
    pub open spec fn keyed(self) -> bool {
        forall|key: Seq<char>| #[trigger]
            self.holds(key) ==> self.record(key).idempotency_key == key
    }

    /// Every record is consistent.
    pub open spec fn consistent(self) -> bool {
        forall|key: Seq<char>| #[trigger] self.holds(key) ==> self.record(key).consistent()
    }

    /// No record holds the body of its action's request.
    pub open spec fn bodiless(self) -> bool {
        forall|key: Seq<char>| #[trigger] self.holds(key) ==> self.record(key).action.body is None
    }

    /// No effect was sent twice, and under the key of every effect that was sent stands its
    /// record. The index's own key is no place for a record: there the index may stand.
    pub open spec fn accounts(self) -> bool {
        &&& self.sent.no_duplicates()
        &&& forall|i: int|
            0 <= i < self.sent.len() ==> self.entries.contains_key(#[trigger] self.sent[i]) && (
            self.sent[i] != index::INDEX_KEY@ ==> self.holds(self.sent[i]))
    }

    /// An effect without an error, as a record tells it, was sent.
    pub open spec fn tells_what_was_sent(self) -> bool {
        forall|key: Seq<char>| #[trigger]
            self.holds(key) && self.record(key).effect is Some && self.record(
                key,
            ).effect->0.error is None ==> self.sent.contains(key)
    }

    /// Every confirmed record was there before.
    pub open spec fn confirms_no_more_than(self, before: Ledger) -> bool {
        forall|key: Seq<char>| #[trigger]
            self.holds(key) && self.record(key).status == Status::Confirmed
                ==> before.holds_record(key, self.record(key))
    }

    /// What `before` held is still there: no key is lost, and every record goes on from what
    /// it was. The index's own key is no place for a record.
    pub open spec fn extends(self, before: Ledger) -> bool {
        &&& forall|key: Seq<char>| #[trigger]
            before.entries.contains_key(key) ==> self.entries.contains_key(key)
        &&& forall|key: Seq<char>| #[trigger]
            before.holds(key) && key != index::INDEX_KEY@ ==> self.holds(key) && self.record(
                key,
            ).continues(before.record(key))
    }
}

/// Ledgers with the same entries hold the same records.
pub proof fn lemma_same_entries(a: Ledger, b: Ledger)
    requires
        a.entries == b.entries,
    ensures
        forall|key: Seq<char>| #[trigger] a.holds(key) ==> b.holds_record(key, a.record(key)),
        forall|key: Seq<char>| #[trigger] b.holds(key) ==> a.holds(key),
{
}

/// A write of a record changes nothing but what stands under its key.
pub proof fn lemma_written(ledger: Ledger, record: RecordView, event: HostEventView)
    ensures
        forall|key: Seq<char>| #[trigger]
            ledger.written(record, event).holds(key) ==> if key == record.idempotency_key && event
                == HostEventView::Stored(StoredView::Written) {
                ledger.written(record, event).record(key) == record
            } else {
                ledger.holds_record(key, ledger.written(record, event).record(key))
            },
        forall|key: Seq<char>| #[trigger]
            ledger.holds(key) ==> ledger.written(record, event).holds(key),
        forall|key: Seq<char>| #[trigger]
            ledger.entries.contains_key(key) ==> ledger.written(
                record,
                event,
            ).entries.contains_key(key),
{
}

/// A write of the index changes nothing but what stands under its own key.
pub proof fn lemma_indexing(ledger: Ledger, index: Seq<char>, event: HostEventView)
    ensures
        forall|key: Seq<char>| #[trigger]
            ledger.indexing(index, event).holds(key) ==> ledger.holds_record(
                key,
                ledger.indexing(index, event).record(key),
            ),
        forall|key: Seq<char>| #[trigger]
            ledger.holds(key) && key != index::INDEX_KEY@ ==> ledger.indexing(index, event).holds(
                key,
            ),
        forall|key: Seq<char>| #[trigger]
            ledger.entries.contains_key(key) ==> ledger.indexing(
                index,
                event,
            ).entries.contains_key(key),
{
}

} // verus!
