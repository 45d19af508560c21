//! What the host of the ledger is asked for and what it answers.
//!
//! The operations do no I/O of their own. Each is a machine whose states say which host
//! call comes next; the host makes the call and hands its outcome back as an event.

use crate::digest;
use crate::index;
use crate::record::{Record, RecordView};
use crate::text;
use crate::transport::{CallOutcome, CallOutcomeView, HttpReply};
use vstd::prelude::*;
use vstd::string::*;

verus! {

/// Ledger map tail. The full name is `z:<tid>:actions`, built at run time from the
/// tenant's identifier, so the same ledger works for any tenant.
pub const MAP_TAIL: &'static str = "actions";

/// The name of the map that holds a tenant's ledger.
pub fn map_name(tenant_did: &[u8]) -> (r: String)
    ensures
        r@ == "z:"@ + digest::hex_text(tenant_did@) + ":"@ + "actions"@,
{
    let mut r = text::prefixed("z:", digest::hex_of(tenant_did).as_str());
    r.append(":");
    r.append(MAP_TAIL);
    r
}

// ---------------------------------------------------------------------------
// Requests
// ---------------------------------------------------------------------------

/// The input of an operation, as far as it could be read.
pub enum Input<T> {
    /// There is none.
    Missing,
    /// It is not a request of the operation, for the given reason.
    Malformed(String),
    Parsed(T),
}

pub enum InputView<V> {
    Missing,
    Malformed(Seq<char>),
    Parsed(V),
}

impl<T: View> View for Input<T> {
    type V = InputView<T::V>;

    open spec fn view(&self) -> InputView<T::V> {
        match self {
            Input::Missing => InputView::Missing,
            Input::Malformed(why) => InputView::Malformed(why@),
            Input::Parsed(request) => InputView::Parsed(request@),
        }
    }
}

/// A request for the record of a key.
#[derive(Debug, Clone)]
pub struct KeyRequest {
    pub idempotency_key: String,
}

impl View for KeyRequest {
    type V = Seq<char>;

    open spec fn view(&self) -> Seq<char> {
        self.idempotency_key@
    }
}

// ---------------------------------------------------------------------------
// Ledger access
// ---------------------------------------------------------------------------

/// What reading the ledger under a key gave.
#[derive(Debug, Clone)]
pub enum Fetched {
    Absent,
    Found(Record),
    /// The store errored.
    Unreadable(String),
    /// What is stored is not a record.
    Corrupt(String),
}

pub enum FetchedView {
    Absent,
    Found(RecordView),
    Unreadable(Seq<char>),
    Corrupt(Seq<char>),
}

impl View for Fetched {
    type V = FetchedView;

    open spec fn view(&self) -> FetchedView {
        match self {
            Fetched::Absent => FetchedView::Absent,
            Fetched::Found(record) => FetchedView::Found(record@),
            Fetched::Unreadable(e) => FetchedView::Unreadable(e@),
            Fetched::Corrupt(e) => FetchedView::Corrupt(e@),
        }
    }
}

/// The record under a key, or the failure in words.
pub open spec fn load_result(
    key: Seq<char>,
    fetched: FetchedView,
) -> Result<Option<RecordView>, Seq<char>> {
    match fetched {
        FetchedView::Absent => Ok(None),
        FetchedView::Found(record) => Ok(Some(record)),
        FetchedView::Unreadable(e) => Err("kv get: "@ + e),
        FetchedView::Corrupt(e) => Err("ledger entry "@ + key + " is corrupt: "@ + e),
    }
}

/// The record under a key, or the failure in words.
pub fn load(key: &str, fetched: Fetched) -> (r: Result<Option<Record>, String>)
    ensures
        match load_result(key@, fetched@) {
            Ok(None) => r == Ok::<Option<Record>, String>(None),
            Ok(Some(record)) => r matches Ok(Some(found)) && found@ == record,
            Err(why) => r is Err && r->Err_0@ == why,
        },
{
    match fetched {
        Fetched::Absent => Ok(None),
        Fetched::Found(record) => Ok(Some(record)),
        Fetched::Unreadable(e) => Err(text::prefixed("kv get: ", e.as_str())),
        Fetched::Corrupt(e) => {
            let mut r = text::prefixed("ledger entry ", key);
            r.append(" is corrupt: ");
            r.append(e.as_str());
            Err(r)
        },
    }
}

/// What writing a record gave.
pub enum Stored {
    Written,
    NotSerialized(String),
    /// The store errored.
    Refused(String),
}

pub enum StoredView {
    Written,
    NotSerialized(Seq<char>),
    Refused(Seq<char>),
}

impl View for Stored {
    type V = StoredView;

    open spec fn view(&self) -> StoredView {
        match self {
            Stored::Written => StoredView::Written,
            Stored::NotSerialized(e) => StoredView::NotSerialized(e@),
            Stored::Refused(e) => StoredView::Refused(e@),
        }
    }
}

/// Success, or the failure of a write in words.
pub open spec fn store_result(stored: StoredView) -> Result<(), Seq<char>> {
    match stored {
        StoredView::Written => Ok(()),
        StoredView::NotSerialized(e) => Err("serialize record: "@ + e),
        StoredView::Refused(e) => Err("kv put: "@ + e),
    }
}

/// Success, or the failure of a write in words.
pub fn store(stored: Stored) -> (r: Result<(), String>)
    ensures
        match store_result(stored@) {
            Ok(()) => r is Ok,
            Err(why) => r is Err && r->Err_0@ == why,
        },
{
    match stored {
        Stored::Written => Ok(()),
        Stored::NotSerialized(e) => Err(text::prefixed("serialize record: ", e.as_str())),
        Stored::Refused(e) => Err(text::prefixed("kv put: ", e.as_str())),
    }
}

// ---------------------------------------------------------------------------
// Events
// ---------------------------------------------------------------------------

/// The outcome of a host call.
pub enum HostEvent {
    /// The ledger was read under a key.
    Fetched(Fetched),
    /// The clock was read, in seconds.
    Clock(u64),
    /// The position of the transaction was read, with the clock.
    Context { now: u64, seq_no: u64, contract_id: u32 },
    /// An outbound call was made.
    Called(Result<HttpReply, String>),
    /// A record was written.
    Stored(Stored),
    /// A claims digest was anchored.
    Anchored(Result<(), String>),
    /// The index was read.
    IndexRead(Result<Option<Vec<u8>>, String>),
    /// The index was written.
    IndexWritten(Result<(), String>),
    /// The ledger was scanned.
    Scanned(Result<Vec<(Vec<u8>, Vec<u8>)>, String>),
}

pub enum HostEventView {
    Fetched(FetchedView),
    Clock(u64),
    Context { now: u64, seq_no: u64, contract_id: u32 },
    Called(CallOutcomeView),
    Stored(StoredView),
    Anchored(Result<(), Seq<char>>),
    IndexRead(Option<Seq<u8>>),
    IndexWritten(Result<(), Seq<char>>),
    Scanned(Result<Seq<(Seq<u8>, Seq<u8>)>, Seq<char>>),
}

/// The view of an outcome without a value.
pub open spec fn done_view(outcome: Result<(), String>) -> Result<(), Seq<char>> {
    match outcome {
        Ok(()) => Ok(()),
        Err(e) => Err(e@),
    }
}

/// What a transport's answer says of a call that was sent.
pub open spec fn called_view(answer: Result<HttpReply, String>) -> CallOutcomeView {
    match answer {
        Ok(reply) => CallOutcomeView::Replied(reply@),
        Err(e) => CallOutcomeView::TransportError(e@),
    }
}

/// What a transport's answer says of a call that was sent.
pub fn called(answer: Result<HttpReply, String>) -> (r: CallOutcome)
    ensures
        r@ == called_view(answer),
        answer is Ok ==> r == CallOutcome::Replied(answer->Ok_0),
        answer is Err ==> r == CallOutcome::TransportError(answer->Err_0),
{
    match answer {
        Ok(reply) => CallOutcome::Replied(reply),
        Err(e) => CallOutcome::TransportError(e),
    }
}

impl View for HostEvent {
    type V = HostEventView;

    open spec fn view(&self) -> HostEventView {
        match self {
            HostEvent::Fetched(fetched) => HostEventView::Fetched(fetched@),
            HostEvent::Clock(now) => HostEventView::Clock(*now),
            HostEvent::Context { now, seq_no, contract_id } => HostEventView::Context {
                now: *now,
                seq_no: *seq_no,
                contract_id: *contract_id,
            },
            HostEvent::Called(answer) => HostEventView::Called(called_view(*answer)),
            HostEvent::Stored(stored) => HostEventView::Stored(stored@),
            HostEvent::Anchored(outcome) => HostEventView::Anchored(done_view(*outcome)),
            HostEvent::IndexRead(stored) => HostEventView::IndexRead(index::stored_bytes(*stored)),
            HostEvent::IndexWritten(outcome) => HostEventView::IndexWritten(done_view(*outcome)),
            HostEvent::Scanned(rows) => HostEventView::Scanned(
                match rows {
                    Ok(rows) => Ok(rows.deep_view()),
                    Err(e) => Err(e@),
                },
            ),
        }
    }
}

/// The view of an operation's result.
pub open spec fn outcome_view(result: Result<Record, String>) -> Result<RecordView, Seq<char>> {
    match result {
        Ok(record) => Ok(record@),
        Err(why) => Err(why@),
    }
}

// ---------------------------------------------------------------------------
// What the answers come to
// ---------------------------------------------------------------------------

/// A record that was found is the one that is handed on, a key without an entry gives none,
/// and a store error and an entry that is no record are told apart, the latter with its key.
pub proof fn loading_gives_what_was_found(key: Seq<char>, record: RecordView, e: Seq<char>)
    ensures
        load_result(key, FetchedView::Found(record)) == Ok::<Option<RecordView>, Seq<char>>(
            Some(record),
        ),
        load_result(key, FetchedView::Absent) == Ok::<Option<RecordView>, Seq<char>>(None),
        load_result(key, FetchedView::Unreadable(e)) == Err::<Option<RecordView>, Seq<char>>(
            "kv get: "@ + e,
        ),
        load_result(key, FetchedView::Corrupt(e)) == Err::<Option<RecordView>, Seq<char>>(
            "ledger entry "@ + key + " is corrupt: "@ + e,
        ),
{
}

/// A write succeeds exactly where it took place.
pub proof fn storing_succeeds_where_it_wrote(stored: StoredView)
    ensures
        store_result(stored) is Ok <==> stored is Written,
        stored matches StoredView::NotSerialized(e) ==> store_result(stored) == Err::<
            (),
            Seq<char>,
        >("serialize record: "@ + e),
        stored matches StoredView::Refused(e) ==> store_result(stored) == Err::<(), Seq<char>>(
            "kv put: "@ + e,
        ),
{
}

/// The view of an event shows what the host answered.
pub proof fn event_view_shows_the_answer(event: HostEvent)
    ensures
        match event {
            HostEvent::Fetched(Fetched::Absent) => event@ == HostEventView::Fetched(
                FetchedView::Absent,
            ),
            HostEvent::Fetched(Fetched::Found(record)) => event@ == HostEventView::Fetched(
                FetchedView::Found(record@),
            ),
            HostEvent::Fetched(Fetched::Unreadable(e)) => event@ == HostEventView::Fetched(
                FetchedView::Unreadable(e@),
            ),
            HostEvent::Fetched(Fetched::Corrupt(e)) => event@ == HostEventView::Fetched(
                FetchedView::Corrupt(e@),
            ),
            HostEvent::Clock(now) => event@ == HostEventView::Clock(now),
            HostEvent::Context { now, seq_no, contract_id } => event@ == (HostEventView::Context {
                now,
                seq_no,
                contract_id,
            }),
            HostEvent::Called(Ok(reply)) => event@ == HostEventView::Called(
                CallOutcomeView::Replied(reply@),
            ),
            HostEvent::Called(Err(e)) => event@ == HostEventView::Called(
                CallOutcomeView::TransportError(e@),
            ),
            HostEvent::Stored(Stored::Written) => event@ == HostEventView::Stored(
                StoredView::Written,
            ),
            HostEvent::Stored(Stored::NotSerialized(e)) => event@ == HostEventView::Stored(
                StoredView::NotSerialized(e@),
            ),
            HostEvent::Stored(Stored::Refused(e)) => event@ == HostEventView::Stored(
                StoredView::Refused(e@),
            ),
            HostEvent::Anchored(Ok(_)) => event@ is Anchored && event@->Anchored_0 is Ok,
            HostEvent::Anchored(Err(e)) => event@ == HostEventView::Anchored(Err(e@)),
            HostEvent::IndexRead(Ok(Some(bytes))) => event@ == HostEventView::IndexRead(
                Some(bytes@),
            ),
            HostEvent::IndexRead(_) => event@ == HostEventView::IndexRead(None),
            HostEvent::IndexWritten(Ok(_)) => event@ is IndexWritten && event@->IndexWritten_0
                is Ok,
            HostEvent::IndexWritten(Err(e)) => event@ == HostEventView::IndexWritten(Err(e@)),
            HostEvent::Scanned(Ok(rows)) => event@ == HostEventView::Scanned(
                Ok(rows.deep_view()),
            ),
            HostEvent::Scanned(Err(e)) => event@ == HostEventView::Scanned(Err(e@)),
        },
{
}

/// The views of an operation's input and of its result show them.
pub proof fn input_and_result_views_show_everything(
    input: Input<KeyRequest>,
    result: Result<Record, String>,
)
    ensures
        match input {
            Input::Missing => input@ == InputView::<Seq<char>>::Missing,
            Input::Malformed(why) => input@ == InputView::<Seq<char>>::Malformed(why@),
            Input::Parsed(request) => input@ == InputView::<Seq<char>>::Parsed(
                request.idempotency_key@,
            ),
        },
        match result {
            Ok(record) => outcome_view(result) == Ok::<RecordView, Seq<char>>(record@),
            Err(why) => outcome_view(result) == Err::<RecordView, Seq<char>>(why@),
        },
{
}

} // verus!
