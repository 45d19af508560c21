//! `verify-action`: re-reads external state and settles a record.

use crate::host;
use crate::host::{HostEvent, HostEventView, Input, InputView, KeyRequest};
use crate::record;
use crate::record::{Attempt, AttemptView, Expectation, ExpectationView, Record, RecordView};
use crate::text;
use crate::transport;
use crate::transport::{CallOutcome, CallOutcomeView, HttpRequest, HttpRequestView};
use vstd::prelude::*;
use vstd::string::*;

verus! {

/// What a probe says of the expectation: a probe that failed says that it did, one that
/// brought back a body is held against every clause.
pub open spec fn judged(
    expect: ExpectationView,
    probe: AttemptView,
    body: Option<Seq<u8>>,
) -> Result<(), Seq<char>> {
    match (probe.error, body) {
        (Some(e), _) => Err("verification probe failed: "@ + e),
        (None, Some(bytes)) => expect.verdict(probe.code, text::decoded(bytes)),
        (None, None) => Err("verification probe returned no body"@),
    }
}

/// A verdict is favourable exactly where each clause of the expectation holds.
proof fn lemma_clauses(expect: Expectation, code: u16, body: Seq<char>)
    ensures
        expect@.verdict(code, body) is Ok <==> {
            &&& expect.status is Some ==> expect.status->0 == code
            &&& forall|i: int|
                0 <= i < expect.body_contains@.len() ==> text::occurs_in(
                    (#[trigger] expect.body_contains@[i])@,
                    body,
                )
            &&& forall|i: int|
                0 <= i < expect.body_absent@.len() ==> !text::occurs_in(
                    (#[trigger] expect.body_absent@[i])@,
                    body,
                )
        },
{
    record::verdict_is_favourable_iff_every_clause_holds(expect@, code, body);
    let wanted = expect@.body_contains;
    let unwanted = expect@.body_absent;
    assert(wanted.len() == expect.body_contains@.len());
    assert(unwanted.len() == expect.body_absent@.len());
    assert(forall|i: int|
        0 <= i < wanted.len() ==> #[trigger] wanted[i] == expect.body_contains@[i]@);
    assert(forall|i: int|
        0 <= i < unwanted.len() ==> #[trigger] unwanted[i] == expect.body_absent@[i]@);
    assert forall|i: int| 0 <= i < wanted.len() implies #[trigger] expect.body_contains@[i]@
        == wanted[i] by {}
    assert forall|i: int| 0 <= i < unwanted.len() implies #[trigger] expect.body_absent@[i]@
        == unwanted[i] by {}
}

/// What a probe says of the expectation.
pub fn judge(expect: &Expectation, probe: &Attempt, body: &Option<Vec<u8>>) -> (r: Result<
    (),
    String,
>)
    ensures
        record::verdict_view(r) == judged(expect@, probe@, body.deep_view()),
        probe.error is Some ==> r is Err && r->Err_0@ == "verification probe failed: "@
            + probe.error->0@,
        probe.error is None && body is None ==> r is Err && r->Err_0@
            == "verification probe returned no body"@,
        probe.error is None && body is Some ==> (r is Ok <==> {
            &&& expect.status is Some ==> expect.status->0 == probe.code
            &&& forall|i: int|
                0 <= i < expect.body_contains@.len() ==> text::occurs_in(
                    (#[trigger] expect.body_contains@[i])@,
                    text::decoded(body->0@),
                )
            &&& forall|i: int|
                0 <= i < expect.body_absent@.len() ==> !text::occurs_in(
                    (#[trigger] expect.body_absent@[i])@,
                    text::decoded(body->0@),
                )
        }),
{
    proof {
        if body is Some {
            lemma_clauses(*expect, probe.code, text::decoded(body->0@));
        }
    }
    match (&probe.error, body) {
        (Some(e), _) => Err(text::prefixed("verification probe failed: ", e.as_str())),
        (None, Some(bytes)) => {
            assert(bytes.deep_view() =~= bytes@);
            expect.evaluate(probe.code, text::decode(bytes.as_slice()).as_str())
        },
        (None, None) => Err("verification probe returned no body".to_string()),
    }
}

/// A verification under way. Every state but the last names the host call that it
/// waits for.
pub enum Verify {
    /// Read the ledger under the key.
    Lookup { idempotency_key: String },
    /// Read the clock before the probe.
    Clock { record: Record },
    /// Make the probe.
    Probe { record: Record, at: u64, request: HttpRequest },
    /// Read the clock after the probe.
    Settle { record: Record, probe: Attempt, verdict: Result<(), String> },
    /// Write the record.
    Write { record: Record },
    /// Anchor the record's claims digest.
    Anchor { record: Record, digest: [u8; 32] },
    /// Nothing is left to do.
    Done { result: Result<Record, String> },
}

#[verifier::ext_equal]
pub enum VerifyView {
    Lookup { idempotency_key: Seq<char> },
    Clock { record: RecordView },
    Probe { record: RecordView, at: u64, request: HttpRequestView },
    Settle { record: RecordView, probe: AttemptView, verdict: Result<(), Seq<char>> },
    Write { record: RecordView },
    Anchor { record: RecordView, digest: Seq<u8> },
    Done { result: Result<RecordView, Seq<char>> },
}

impl View for Verify {
    type V = VerifyView;

    open spec fn view(&self) -> VerifyView {
        match self {
            Verify::Lookup { idempotency_key } => VerifyView::Lookup {
                idempotency_key: idempotency_key@,
            },
            Verify::Clock { record } => VerifyView::Clock { record: record@ },
            Verify::Probe { record, at, request } => VerifyView::Probe {
                record: record@,
                at: *at,
                request: request@,
            },
            Verify::Settle { record, probe, verdict } => VerifyView::Settle {
                record: record@,
                probe: probe@,
                verdict: record::verdict_view(*verdict),
            },
            Verify::Write { record } => VerifyView::Write { record: record@ },
            Verify::Anchor { record, digest } => VerifyView::Anchor {
                record: record@,
                digest: digest@,
            },
            Verify::Done { result } => VerifyView::Done { result: host::outcome_view(*result) },
        }
    }
}

/// The state after a probe, with its outcome held against the record's expectation.
pub open spec fn probed(record: RecordView, at: u64, outcome: CallOutcomeView) -> VerifyView {
    let probe = transport::attempt_of(at, outcome);
    VerifyView::Settle {
        record,
        probe,
        verdict: judged(record.action.verify.expect, probe, transport::body_of(outcome)),
    }
}

impl VerifyView {
    /// How a verification begins.
    pub open spec fn start(input: InputView<Seq<char>>) -> VerifyView {
        match input {
            InputView::Missing => VerifyView::Done { result: Err("verify-action: missing input"@) },
            InputView::Malformed(why) => VerifyView::Done {
                result: Err("verify-action: bad input: "@ + why),
            },
            InputView::Parsed(idempotency_key) => VerifyView::Lookup { idempotency_key },
        }
    }

    /// Whether an event is the outcome of the host call that this state waits for. The
    /// count of verifications must not be at its end when a pending record is settled.
    pub open spec fn expects(self, event: HostEventView) -> bool {
        match self {
            VerifyView::Lookup { .. } => event is Fetched,
            VerifyView::Clock { .. } => event is Clock,
            VerifyView::Probe { .. } => event is Called,
            VerifyView::Settle { record, .. } => event is Clock && (record.status.terminal()
                || record.verify_attempts < u32::MAX),
            VerifyView::Write { .. } => event is Stored,
            VerifyView::Anchor { .. } => event is Anchored,
            VerifyView::Done { .. } => false,
        }
    }

    /// The state after an event.
    pub open spec fn next(self, event: HostEventView) -> VerifyView {
        match (self, event) {
            // A terminal record is given back untouched: a confirmed one needs no
            // second proof, an unverified one is for a human to decide, and a failed
            // one left nothing to observe. So is one that only reserves its key: nothing
            // says that its effect was sent, and a probe might read someone else's state.
            (
                VerifyView::Lookup { idempotency_key },
                HostEventView::Fetched(fetched),
            ) => match host::load_result(idempotency_key, fetched) {
                Err(why) => VerifyView::Done { result: Err(why) },
                Ok(None) => VerifyView::Done {
                    result: Err("verify-action: no record for "@ + idempotency_key),
                },
                Ok(Some(record)) => if record.status.terminal() || record.effect is None {
                    VerifyView::Done { result: Ok(record) }
                } else {
                    VerifyView::Clock { record }
                },
            },
            (
                VerifyView::Clock { record },
                HostEventView::Clock(at),
            ) => match transport::request_for(
                record.action.verify.method,
                record.action.verify.url,
                record.action.verify.headers,
                record.action.verify.body,
            ) {
                Ok(request) => VerifyView::Probe { record, at, request },
                Err(why) => probed(record, at, CallOutcomeView::NotSent(why)),
            },
            (VerifyView::Probe { record, at, .. }, HostEventView::Called(outcome)) => probed(
                record,
                at,
                outcome,
            ),
            // Whatever is written holds no request body.
            (
                VerifyView::Settle { record, probe, verdict },
                HostEventView::Clock(now),
            ) => VerifyView::Write {
                record: record.settled(probe, verdict, now).without_body(),
            },
            (
                VerifyView::Write { record },
                HostEventView::Stored(stored),
            ) => match host::store_result(stored) {
                Err(why) => VerifyView::Done { result: Err(why) },
                Ok(()) => VerifyView::Anchor { record, digest: record.claims_digest() },
            },
            (VerifyView::Anchor { record, .. }, HostEventView::Anchored(anchored)) => match anchored {
                Err(e) => VerifyView::Done { result: Err("set claims digest: "@ + e) },
                Ok(()) => VerifyView::Done { result: Ok(record) },
            },
            _ => self,
        }
    }
}

/// Begins a verification: re-reads external state and settles the record.
///
/// Idempotent: a record in a terminal state, or one that only reserves its key, is returned
/// untouched, so a scheduler can call this on a whole page of records without special-casing.
pub fn verify_action(input: Input<KeyRequest>) -> (r: Verify)
    ensures
        r@ == VerifyView::start(input@),
        match input {
            Input::Missing => r is Done && r->result is Err && r->result->Err_0@
                == "verify-action: missing input"@,
            Input::Malformed(why) => r is Done && r->result is Err && r->result->Err_0@
                == "verify-action: bad input: "@ + why@,
            Input::Parsed(request) => r == (Verify::Lookup {
                idempotency_key: request.idempotency_key,
            }),
        },
{
    match input {
        Input::Missing => Verify::Done {
            result: Err("verify-action: missing input".to_string()),
        },
        Input::Malformed(why) => Verify::Done {
            result: Err(text::prefixed("verify-action: bad input: ", why.as_str())),
        },
        Input::Parsed(request) => Verify::Lookup { idempotency_key: request.idempotency_key },
    }
}

/// The state after a probe.
fn after_probe(record: Record, at: u64, outcome: CallOutcome) -> (r: Verify)
    ensures
        r@ == probed(record@, at, outcome@),
{
    let (probe, body) = transport::perform(at, outcome);
    let verdict = judge(&record.action.verify.expect, &probe, &body);
    Verify::Settle { record, probe, verdict }
}

impl Verify {
    /// Goes on with the outcome of the host call that this state waits for.
    pub fn resume(self, event: HostEvent) -> (r: Verify)
        requires
            self@.expects(event@),
        ensures
            r@ == self@.next(event@),
    {
        match (self, event) {
            (Verify::Lookup { idempotency_key }, HostEvent::Fetched(fetched)) => {
                match host::load(idempotency_key.as_str(), fetched) {
                    Err(why) => Verify::Done { result: Err(why) },
                    Ok(None) => Verify::Done {
                        result: Err(
                            text::prefixed(
                                "verify-action: no record for ",
                                idempotency_key.as_str(),
                            ),
                        ),
                    },
                    Ok(Some(record)) => {
                        if record.status.is_terminal() || record.effect.is_none() {
                            Verify::Done { result: Ok(record) }
                        } else {
                            Verify::Clock { record }
                        }
                    },
                }
            },
            (Verify::Clock { record }, HostEvent::Clock(at)) => {
                match transport::prepare(
                    record.action.verify.method.as_str(),
                    record.action.verify.url.as_str(),
                    &record.action.verify.headers,
                    &record.action.verify.body,
                ) {
                    Ok(request) => Verify::Probe { record, at, request },
                    Err(why) => after_probe(record, at, CallOutcome::NotSent(why)),
                }
            },
            (Verify::Probe { record, at, request: _ }, HostEvent::Called(answer)) => {
                after_probe(record, at, host::called(answer))
            },
            (Verify::Settle { record, probe, verdict }, HostEvent::Clock(now)) => {
                let mut record = record;
                record.settle(probe, verdict, now);
                Verify::Write { record: record.without_body() }
            },
            (Verify::Write { record }, HostEvent::Stored(stored)) => {
                match host::store(stored) {
                    Err(why) => Verify::Done { result: Err(why) },
                    Ok(()) => {
                        let digest = record.claims_digest();
                        Verify::Anchor { record, digest }
                    },
                }
            },
            (Verify::Anchor { record, digest: _ }, HostEvent::Anchored(anchored)) => {
                match anchored {
                    Err(e) => Verify::Done {
                        result: Err(text::prefixed("set claims digest: ", e.as_str())),
                    },
                    Ok(()) => Verify::Done { result: Ok(record) },
                }
            },
            (state, _) => state,
        }
    }
}

} // verus!
