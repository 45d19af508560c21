//! `submit-action`: performs an effect at most once per idempotency key.

use crate::host;
use crate::host::{HostEvent, HostEventView, Input, InputView};
use crate::index;
use crate::index::{IndexUpdate, IndexUpdateView};
use crate::record;
use crate::record::{
    ActionSpec, ActionSpecView, Attempt, AttemptView, BodyPrint, BodyPrintView, Record, RecordView,
};
use crate::text;
use crate::transport;
use crate::transport::{CallOutcome, CallOutcomeView, HttpRequest, HttpRequestView};
use vstd::prelude::*;
use vstd::string::*;

verus! {

/// A request to perform an effect.
#[derive(Debug, Clone)]
pub struct SubmitRequest {
    pub idempotency_key: String,
    pub action: ActionSpec,
}

pub struct SubmitRequestView {
    pub idempotency_key: Seq<char>,
    pub action: ActionSpecView,
}

impl View for SubmitRequest {
    type V = SubmitRequestView;

    open spec fn view(&self) -> SubmitRequestView {
        SubmitRequestView { idempotency_key: self.idempotency_key@, action: self.action@ }
    }
}

/// A submission under way. Every state but the last names the host call that it
/// waits for.
pub enum Submit {
    /// Read the ledger under the key.
    Lookup { idempotency_key: String, action: ActionSpec },
    /// Read the clock and the position of the transaction before the call.
    Enter {
        idempotency_key: String,
        action: ActionSpec,
        body: Option<BodyPrint>,
        request: HttpRequest,
    },
    /// Write the record that reserves the key.
    Reserve { record: Record, request: HttpRequest },
    /// Anchor the claims digest of the record that reserves the key.
    Secure { record: Record, digest: [u8; 32], request: HttpRequest },
    /// Read the clock before the call, or before it is given up.
    Clock {
        idempotency_key: String,
        action: ActionSpec,
        body: Option<BodyPrint>,
        prepared: Result<HttpRequest, String>,
    },
    /// Make the outbound call.
    Call {
        idempotency_key: String,
        action: ActionSpec,
        body: Option<BodyPrint>,
        at: u64,
        request: HttpRequest,
    },
    /// Read the clock and the position of the transaction after the call.
    Stamp {
        idempotency_key: String,
        action: ActionSpec,
        body: Option<BodyPrint>,
        effect: Attempt,
    },
    /// Write the record.
    Write { record: Record },
    /// Anchor the record's claims digest.
    Anchor { record: Record, digest: [u8; 32] },
    /// Read the index.
    ReadIndex { record: Record },
    /// Write the index.
    WriteIndex { record: Record, index: String },
    /// Nothing is left to do.
    Done { result: Result<Record, String> },
}

#[verifier::ext_equal]
pub enum SubmitView {
    Lookup { idempotency_key: Seq<char>, action: ActionSpecView },
    Enter {
        idempotency_key: Seq<char>,
        action: ActionSpecView,
        body: Option<BodyPrintView>,
        request: HttpRequestView,
    },
    Reserve { record: RecordView, request: HttpRequestView },
    Secure { record: RecordView, digest: Seq<u8>, request: HttpRequestView },
    Clock {
        idempotency_key: Seq<char>,
        action: ActionSpecView,
        body: Option<BodyPrintView>,
        prepared: Result<HttpRequestView, Seq<char>>,
    },
    Call {
        idempotency_key: Seq<char>,
        action: ActionSpecView,
        body: Option<BodyPrintView>,
        at: u64,
        request: HttpRequestView,
    },
    Stamp {
        idempotency_key: Seq<char>,
        action: ActionSpecView,
        body: Option<BodyPrintView>,
        effect: AttemptView,
    },
    Write { record: RecordView },
    Anchor { record: RecordView, digest: Seq<u8> },
    ReadIndex { record: RecordView },
    WriteIndex { record: RecordView, index: Seq<char> },
    Done { result: Result<RecordView, Seq<char>> },
}

impl View for Submit {
    type V = SubmitView;

    open spec fn view(&self) -> SubmitView {
        match self {
            Submit::Lookup { idempotency_key, action } => SubmitView::Lookup {
                idempotency_key: idempotency_key@,
                action: action@,
            },
            Submit::Enter { idempotency_key, action, body, request } => SubmitView::Enter {
                idempotency_key: idempotency_key@,
                action: action@,
                body: body.deep_view(),
                request: request@,
            },
            Submit::Reserve { record, request } => SubmitView::Reserve {
                record: record@,
                request: request@,
            },
            Submit::Secure { record, digest, request } => SubmitView::Secure {
                record: record@,
                digest: digest@,
                request: request@,
            },
            Submit::Clock { idempotency_key, action, body, prepared } => SubmitView::Clock {
                idempotency_key: idempotency_key@,
                action: action@,
                body: body.deep_view(),
                prepared: transport::prepared_view(*prepared),
            },
            Submit::Call { idempotency_key, action, body, at, request } => SubmitView::Call {
                idempotency_key: idempotency_key@,
                action: action@,
                body: body.deep_view(),
                at: *at,
                request: request@,
            },
            Submit::Stamp { idempotency_key, action, body, effect } => SubmitView::Stamp {
                idempotency_key: idempotency_key@,
                action: action@,
                body: body.deep_view(),
                effect: effect@,
            },
            Submit::Write { record } => SubmitView::Write { record: record@ },
            Submit::Anchor { record, digest } => SubmitView::Anchor {
                record: record@,
                digest: digest@,
            },
            Submit::ReadIndex { record } => SubmitView::ReadIndex { record: record@ },
            Submit::WriteIndex { record, index } => SubmitView::WriteIndex {
                record: record@,
                index: index@,
            },
            Submit::Done { result } => SubmitView::Done { result: host::outcome_view(*result) },
        }
    }
}

impl SubmitView {
    /// How a submission begins.
    pub open spec fn start(input: InputView<SubmitRequestView>) -> SubmitView {
        match input {
            InputView::Missing => SubmitView::Done { result: Err("submit-action: missing input"@) },
            InputView::Malformed(why) => SubmitView::Done {
                result: Err("submit-action: bad input: "@ + why),
            },
            InputView::Parsed(request) => if request.idempotency_key.len() == 0 {
                SubmitView::Done {
                    result: Err("submit-action: idempotency_key must not be empty"@),
                }
            } else {
                SubmitView::Lookup {
                    idempotency_key: request.idempotency_key,
                    action: request.action,
                }
            },
        }
    }

    /// Whether an event is the outcome of the host call that this state waits for.
    pub open spec fn expects(self, event: HostEventView) -> bool {
        match self {
            SubmitView::Lookup { .. } => event is Fetched,
            SubmitView::Enter { .. } => event is Context,
            SubmitView::Reserve { .. } => event is Stored,
            SubmitView::Secure { .. } => event is Anchored,
            SubmitView::Clock { .. } => event is Clock,
            SubmitView::Call { .. } => event is Called,
            SubmitView::Stamp { .. } => event is Context,
            SubmitView::Write { .. } => event is Stored,
            SubmitView::Anchor { .. } => event is Anchored,
            SubmitView::ReadIndex { .. } => event is IndexRead,
            SubmitView::WriteIndex { .. } => event is IndexWritten,
            SubmitView::Done { .. } => false,
        }
    }

    /// The state after an event.
    pub open spec fn next(self, event: HostEventView) -> SubmitView {
        match (self, event) {
            // The existence check comes before the outbound call: a key that has
            // already run gives back its record and touches nothing.
            (
                SubmitView::Lookup { idempotency_key, action },
                HostEventView::Fetched(fetched),
            ) => match host::load_result(idempotency_key, fetched) {
                Err(why) => SubmitView::Done { result: Err(why) },
                Ok(Some(existing)) => SubmitView::Done { result: Ok(existing) },
                // The request is made ready here: from now on its body is nowhere but in it, and
                // what is kept of it is its print.
                Ok(None) => match transport::request_for(
                    action.method,
                    action.url,
                    action.headers,
                    action.body,
                ) {
                    Ok(request) => SubmitView::Enter {
                        idempotency_key,
                        action: action.without_body(),
                        body: record::print_of(action.body),
                        request,
                    },
                    Err(why) => SubmitView::Clock {
                        idempotency_key,
                        action: action.without_body(),
                        body: record::print_of(action.body),
                        prepared: Err(why),
                    },
                },
            },
            // The key is reserved before the outbound call: whatever becomes of the call
            // and of what is written after it, the key is never used again.
            (
                SubmitView::Enter { idempotency_key, action, body, request },
                HostEventView::Context { now, seq_no, contract_id },
            ) => SubmitView::Reserve {
                record: RecordView::reserved(
                    idempotency_key,
                    action,
                    now,
                    seq_no,
                    contract_id,
                ).with_request_body(body),
                request,
            },
            (
                SubmitView::Reserve { record, request },
                HostEventView::Stored(stored),
            ) => match host::store_result(stored) {
                Err(why) => SubmitView::Done { result: Err(why) },
                Ok(()) => SubmitView::Secure { record, digest: record.claims_digest(), request },
            },
            // What reserves the key is the record, not its anchor: the call is made either way.
            (SubmitView::Secure { record, request, .. }, _) => SubmitView::Clock {
                idempotency_key: record.idempotency_key,
                action: record.action,
                body: record.request_body,
                prepared: Ok(request),
            },
            (
                SubmitView::Clock { idempotency_key, action, body, prepared },
                HostEventView::Clock(at),
            ) => match prepared {
                Ok(request) => SubmitView::Call { idempotency_key, action, body, at, request },
                Err(why) => SubmitView::Stamp {
                    idempotency_key,
                    action,
                    body,
                    effect: transport::attempt_of(at, CallOutcomeView::NotSent(why)),
                },
            },
            (
                SubmitView::Call { idempotency_key, action, body, at, .. },
                HostEventView::Called(outcome),
            ) => SubmitView::Stamp {
                idempotency_key,
                action,
                body,
                effect: transport::attempt_of(at, outcome),
            },
            (
                SubmitView::Stamp { idempotency_key, action, body, effect },
                HostEventView::Context { now, seq_no, contract_id },
            ) => SubmitView::Write {
                record: RecordView::submitted(
                    idempotency_key,
                    action,
                    effect,
                    now,
                    seq_no,
                    contract_id,
                ).with_request_body(body),
            },
            (
                SubmitView::Write { record },
                HostEventView::Stored(stored),
            ) => match host::store_result(stored) {
                Err(why) => SubmitView::Done { result: Err(why) },
                Ok(()) => SubmitView::Anchor { record, digest: record.claims_digest() },
            },
            (SubmitView::Anchor { record, .. }, HostEventView::Anchored(anchored)) => match anchored {
                Err(e) => SubmitView::Done { result: Err("set claims digest: "@ + e) },
                Ok(()) => SubmitView::ReadIndex { record },
            },
            // The record is written: nothing that the index does can fail the action.
            (
                SubmitView::ReadIndex { record },
                HostEventView::IndexRead(stored),
            ) => match index::appended(index::loaded(stored), record.idempotency_key) {
                IndexUpdateView::Write(index) => SubmitView::WriteIndex { record, index },
                _ => SubmitView::Done { result: Ok(record) },
            },
            (SubmitView::WriteIndex { record, .. }, _) => SubmitView::Done { result: Ok(record) },
            _ => self,
        }
    }
}

/// Begins a submission: performs the effect at most once per idempotency key.
///
/// The key is looked up, and reserved by a record of its own, before the outbound call. The
/// record that a submission creates is never `Confirmed` and holds no request body.
pub fn submit_action(input: Input<SubmitRequest>) -> (r: Submit)
    ensures
        r@ == SubmitView::start(input@),
        match input {
            Input::Missing => r is Done && r->result is Err && r->result->Err_0@
                == "submit-action: missing input"@,
            Input::Malformed(why) => r is Done && r->result is Err && r->result->Err_0@
                == "submit-action: bad input: "@ + why@,
            Input::Parsed(request) => if request.idempotency_key@.len() == 0 {
                r is Done && r->result is Err && r->result->Err_0@
                    == "submit-action: idempotency_key must not be empty"@
            } else {
                r == (Submit::Lookup {
                    idempotency_key: request.idempotency_key,
                    action: request.action,
                })
            },
        },
{
    match input {
        Input::Missing => Submit::Done {
            result: Err("submit-action: missing input".to_string()),
        },
        Input::Malformed(why) => Submit::Done {
            result: Err(text::prefixed("submit-action: bad input: ", why.as_str())),
        },
        Input::Parsed(request) => {
            if request.idempotency_key.as_str().is_empty() {
                Submit::Done {
                    result: Err(
                        "submit-action: idempotency_key must not be empty".to_string(),
                    ),
                }
            } else {
                Submit::Lookup {
                    idempotency_key: request.idempotency_key,
                    action: request.action,
                }
            }
        },
    }
}

impl Submit {
    /// Goes on with the outcome of the host call that this state waits for.
    #[verifier::rlimit(30)]
    pub fn resume(self, event: HostEvent) -> (r: Submit)
        requires
            self@.expects(event@),
        ensures
            r@ == self@.next(event@),
    {
        match (self, event) {
            (Submit::Lookup { idempotency_key, action }, HostEvent::Fetched(fetched)) => {
                match host::load(idempotency_key.as_str(), fetched) {
                    Err(why) => Submit::Done { result: Err(why) },
                    Ok(Some(existing)) => Submit::Done { result: Ok(existing) },
                    Ok(None) => {
                        match transport::prepare(
                            action.method.as_str(),
                            action.url.as_str(),
                            &action.headers,
                            &action.body,
                        ) {
                            Ok(request) => Submit::Enter {
                                idempotency_key,
                                body: record::body_print(&action.body),
                                action: action.without_body(),
                                request,
                            },
                            Err(why) => Submit::Clock {
                                idempotency_key,
                                body: record::body_print(&action.body),
                                action: action.without_body(),
                                prepared: Err(why),
                            },
                        }
                    },
                }
            },
            (
                Submit::Enter { idempotency_key, action, body, request },
                HostEvent::Context { now, seq_no, contract_id },
            ) => Submit::Reserve {
                record: Record::reserved(
                    idempotency_key,
                    action,
                    now,
                    seq_no,
                    contract_id,
                ).with_request_body(body),
                request,
            },
            (Submit::Reserve { record, request }, HostEvent::Stored(stored)) => {
                match host::store(stored) {
                    Err(why) => Submit::Done { result: Err(why) },
                    Ok(()) => {
                        let digest = record.claims_digest();
                        Submit::Secure { record, digest, request }
                    },
                }
            },
            (Submit::Secure { record, digest: _, request }, _) => Submit::Clock {
                idempotency_key: record.idempotency_key,
                action: record.action,
                body: record.request_body,
                prepared: Ok(request),
            },
            (Submit::Clock { idempotency_key, action, body, prepared }, HostEvent::Clock(at)) => {
                match prepared {
                    Ok(request) => Submit::Call { idempotency_key, action, body, at, request },
                    Err(why) => {
                        let (effect, _body) = transport::perform(at, CallOutcome::NotSent(why));
                        Submit::Stamp { idempotency_key, action, body, effect }
                    },
                }
            },
            (
                Submit::Call { idempotency_key, action, body, at, request: _ },
                HostEvent::Called(answer),
            ) => {
                let (effect, _body) = transport::perform(at, host::called(answer));
                Submit::Stamp { idempotency_key, action, body, effect }
            },
            (
                Submit::Stamp { idempotency_key, action, body, effect },
                HostEvent::Context { now, seq_no, contract_id },
            ) => Submit::Write {
                record: Record::submitted(
                    idempotency_key,
                    action,
                    effect,
                    now,
                    seq_no,
                    contract_id,
                ).with_request_body(body),
            },
            (Submit::Write { record }, HostEvent::Stored(stored)) => {
                match host::store(stored) {
                    Err(why) => Submit::Done { result: Err(why) },
                    Ok(()) => {
                        let digest = record.claims_digest();
                        Submit::Anchor { record, digest }
                    },
                }
            },
            (Submit::Anchor { record, digest: _ }, HostEvent::Anchored(anchored)) => {
                match anchored {
                    Err(e) => Submit::Done {
                        result: Err(text::prefixed("set claims digest: ", e.as_str())),
                    },
                    Ok(()) => Submit::ReadIndex { record },
                }
            },
            (Submit::ReadIndex { record }, HostEvent::IndexRead(stored)) => {
                match index::index_append(&stored, record.idempotency_key.as_str()) {
                    IndexUpdate::Write(index) => Submit::WriteIndex { record, index },
                    _ => Submit::Done { result: Ok(record) },
                }
            },
            (Submit::WriteIndex { record, index: _ }, _) => Submit::Done { result: Ok(record) },
            (state, _) => state,
        }
    }
}

} // verus!
