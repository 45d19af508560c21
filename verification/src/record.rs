//! Ledger record shapes and the state machine over them.
//!
//! Everything in this module is pure: no host calls, no I/O.

use crate::digest;
use crate::text;
use vstd::prelude::*;
use vstd::string::*;
use vstd::utf8::*;

verus! {

// ---------------------------------------------------------------------------
// Status
// ---------------------------------------------------------------------------

/// Where a record sits in its lifecycle.
///
/// `PendingVerification` to `Confirmed` is never a step of submission: confirmation
/// requires an independent read-back, and the only way there is [`Record::settle`].
#[derive(Debug, Clone, Copy, PartialEq, Eq, Structural)]
pub enum Status {
    /// The effect was attempted and the transport did not error. This says nothing about
    /// whether the effect actually happened. A record in this state without an effect only
    /// reserves its key: no outcome is recorded, not even whether the call was made.
    PendingVerification,
    /// An independent probe observed the expected external state.
    Confirmed,
    /// An independent probe ran and did not observe the expected state. Terminal and
    /// actionable, not a retry signal: retrying an action that may have
    /// half-succeeded is how double-sends happen.
    Unverified,
    /// The transport itself errored, so the effect probably never left. Safe to
    /// resubmit under a new key.
    Failed,
}

impl Status {
    /// The states that are never recomputed.
    pub open spec fn terminal(self) -> bool {
        match self {
            Status::PendingVerification => false,
            Status::Confirmed | Status::Unverified | Status::Failed => true,
        }
    }

    /// The name under which a status enters the claims text.
    pub open spec fn label(self) -> Seq<char> {
        match self {
            Status::PendingVerification => "PendingVerification"@,
            Status::Confirmed => "Confirmed"@,
            Status::Unverified => "Unverified"@,
            Status::Failed => "Failed"@,
        }
    }

    /// Terminal states are never recomputed.
    pub fn is_terminal(self) -> (r: bool)
        ensures
            r == self.terminal(),
    {
        matches!(self, Status::Confirmed | Status::Unverified | Status::Failed)
    }

    /// The name under which a status enters the claims text.
    pub fn name(self) -> (r: &'static str)
        ensures
            r@ == self.label(),
    {
        match self {
            Status::PendingVerification => "PendingVerification",
            Status::Confirmed => "Confirmed",
            Status::Unverified => "Unverified",
            Status::Failed => "Failed",
        }
    }
}

// ---------------------------------------------------------------------------
// Expectations
// ---------------------------------------------------------------------------

/// What the verification probe must observe for the record to be confirmed.
///
/// `body_absent` matters as much as `body_contains`: a mail transport may report
/// success for a message that exists only as an auto-saved draft. Presence alone would
/// confirm a send that never happened; requiring the draft marker to be absent
/// catches it.
#[derive(Debug, Clone)]
pub struct Expectation {
    pub status: Option<u16>,
    pub body_contains: Vec<String>,
    pub body_absent: Vec<String>,
}

#[verifier::ext_equal]
pub struct ExpectationView {
    pub status: Option<u16>,
    pub body_contains: Seq<Seq<char>>,
    pub body_absent: Seq<Seq<char>>,
}

impl View for Expectation {
    type V = ExpectationView;

    open spec fn view(&self) -> ExpectationView {
        ExpectationView {
            status: self.status,
            body_contains: self.body_contains.deep_view(),
            body_absent: self.body_absent.deep_view(),
        }
    }
}

impl Default for Expectation {
    /// An expectation without clauses: every response meets it.
    fn default() -> (r: Self)
        ensures
            r@ == (ExpectationView { status: None, body_contains: seq![], body_absent: seq![] }),
    {
        let r = Expectation { status: None, body_contains: Vec::new(), body_absent: Vec::new() };
        assert(r@.body_contains =~= seq![]);
        assert(r@.body_absent =~= seq![]);
        r
    }
}

/// The clause of an expectation that a response fails.
#[derive(Debug, Clone, Copy, PartialEq, Eq, Structural)]
pub enum Mismatch {
    /// The status code is not the wanted one.
    Code { want: u16, observed: u16 },
    /// The entry of `body_contains` at `index` does not occur in the body.
    Missing { index: usize },
    /// The entry of `body_absent` at `index` occurs in the body.
    Present { index: usize },
}

/// The first of `needles` that occurs in `body` (`occurring`) or that does not
/// (`!occurring`).
pub open spec fn first_needle(
    needles: Seq<Seq<char>>,
    body: Seq<char>,
    occurring: bool,
) -> Option<int>
    decreases needles.len(),
{
    if needles.len() == 0 {
        None
    } else {
        match first_needle(needles.drop_last(), body, occurring) {
            Some(i) => Some(i),
            None => if text::occurs_in(needles.last(), body) == occurring {
                Some(needles.len() - 1)
            } else {
                None
            },
        }
    }
}

/// What `first_needle` finds is the least index of its kind, and it finds none only
/// where there is none.
pub proof fn lemma_first_needle(needles: Seq<Seq<char>>, body: Seq<char>, occurring: bool)
    ensures
        match first_needle(needles, body, occurring) {
            Some(i) => {
                &&& 0 <= i < needles.len()
                &&& text::occurs_in(needles[i], body) == occurring
                &&& forall|j: int|
                    0 <= j < i ==> text::occurs_in(#[trigger] needles[j], body) != occurring
            },
            None => forall|j: int|
                0 <= j < needles.len() ==> text::occurs_in(#[trigger] needles[j], body) != occurring,
        },
    decreases needles.len(),
{
    if needles.len() > 0 {
        let front = needles.drop_last();
        lemma_first_needle(front, body, occurring);
        assert forall|j: int| 0 <= j < front.len() implies front[j] == #[trigger] needles[j] by {}
    }
}

impl ExpectationView {
    /// Every clause holds of the response.
    pub open spec fn met_by(self, code: u16, body: Seq<char>) -> bool {
        &&& self.status matches Some(want) ==> code == want
        &&& forall|i: int|
            0 <= i < self.body_contains.len() ==> text::occurs_in(
                #[trigger] self.body_contains[i],
                body,
            )
        &&& forall|i: int|
            0 <= i < self.body_absent.len() ==> !text::occurs_in(#[trigger] self.body_absent[i], body)
    }

    /// The first clause that the response fails: the status, then the required
    /// texts in order, then the forbidden ones in order.
    pub open spec fn first_mismatch(self, code: u16, body: Seq<char>) -> Option<Mismatch> {
        if self.status is Some && self.status->0 != code {
            Some(Mismatch::Code { want: self.status->0, observed: code })
        } else {
            match first_needle(self.body_contains, body, false) {
                Some(i) => Some(Mismatch::Missing { index: i as usize }),
                None => match first_needle(self.body_absent, body, true) {
                    Some(i) => Some(Mismatch::Present { index: i as usize }),
                    None => None,
                },
            }
        }
    }

    /// The text that a failed clause looks for; empty for the status clause.
    pub open spec fn needle(self, mismatch: Mismatch) -> Seq<char> {
        match mismatch {
            Mismatch::Code { .. } => seq![],
            Mismatch::Missing { index } => self.body_contains[index as int],
            Mismatch::Present { index } => self.body_absent[index as int],
        }
    }

    /// The outcome of an evaluation: nothing, or the reason in words.
    pub open spec fn verdict(self, code: u16, body: Seq<char>) -> Result<(), Seq<char>> {
        match self.first_mismatch(code, body) {
            None => Ok(()),
            Some(mismatch) => Err(mismatch.words(text::quoted(self.needle(mismatch)))),
        }
    }
}

/// A verdict is favourable exactly where every clause holds.
pub proof fn verdict_is_ok_iff_met(expect: ExpectationView, code: u16, body: Seq<char>)
    ensures
        expect.verdict(code, body) is Ok <==> expect.met_by(code, body),
{
    lemma_first_needle(expect.body_contains, body, false);
    lemma_first_needle(expect.body_absent, body, true);
}

/// A reason names the text of the clause that failed: for a text of printable ASCII it holds
/// that text, with quotation marks and backslashes escaped.
pub proof fn reason_holds_the_text_it_names(expect: ExpectationView, code: u16, body: Seq<char>)
    ensures
        match expect.first_mismatch(code, body) {
            None | Some(Mismatch::Code { .. }) => true,
            Some(mismatch) => {
                let text = expect.needle(mismatch);
                &&& expect.verdict(code, body) is Err
                &&& text::printable(text) ==> text::occurs_in(
                    text::escaped(text),
                    expect.verdict(code, body)->Err_0,
                )
                &&& text::printable(text) && !text.contains('"') && !text.contains('\\')
                    ==> text::occurs_in(text, expect.verdict(code, body)->Err_0)
            },
        },
{
    if let Some(mismatch) = expect.first_mismatch(code, body) {
        let text = expect.needle(mismatch);
        let why = expect.verdict(code, body)->Err_0;
        if mismatch !is Code && text::printable(text) {
            let words = if mismatch is Missing {
                "expected response to contain "@
            } else {
                "expected response NOT to contain "@
            };
            let at = words.len() as int + 1;
            assert(why =~= words + (seq!['"'] + text::escaped(text) + seq!['"']));
            assert(why.subrange(at, at + text::escaped(text).len()) =~= text::escaped(text));
            assert(text::occurs_at(text::escaped(text), why, at));
            if !text.contains('"') && !text.contains('\\') {
                text::lemma_nothing_to_escape(text);
            }
        }
    }
}

impl Mismatch {
    /// The reason in words, with the text that was looked for as `quoted`.
    pub open spec fn words(self, quoted: Seq<char>) -> Seq<char> {
        match self {
            Mismatch::Code { want, observed } => "expected HTTP "@ + text::decimal(want as nat)
                + ", observed "@ + text::decimal(observed as nat),
            Mismatch::Missing { .. } => "expected response to contain "@ + quoted,
            Mismatch::Present { .. } => "expected response NOT to contain "@ + quoted,
        }
    }

    /// The reason in words, naming the clause that failed.
    pub fn reason(&self, quoted: &str) -> (r: String)
        ensures
            r@ == self.words(quoted@),
    {
        match self {
            Mismatch::Code { want, observed } => {
                let mut r = text::prefixed("expected HTTP ", text::decimal_text(*want as u64).as_str());
                r.append(", observed ");
                r.append(text::decimal_text(*observed as u64).as_str());
                r
            },
            Mismatch::Missing { .. } => text::prefixed("expected response to contain ", quoted),
            Mismatch::Present { .. } => text::prefixed("expected response NOT to contain ", quoted),
        }
    }
}

/// The view of a verdict.
pub open spec fn verdict_view(verdict: Result<(), String>) -> Result<(), Seq<char>> {
    match verdict {
        Ok(()) => Ok(()),
        Err(why) => Err(why@),
    }
}

/// The index of the first needle that occurs in `body`, or that does not.
fn find_needle(needles: &Vec<String>, body: &str, occurring: bool) -> (r: Option<usize>)
    ensures
        match r {
            Some(i) => first_needle(needles.deep_view(), body@, occurring) == Some(i as int),
            None => first_needle(needles.deep_view(), body@, occurring) is None,
        },
{
    let ghost all = needles.deep_view();
    for i in 0..needles.len()
        invariant
            all == needles.deep_view(),
            first_needle(all.take(i as int), body@, occurring) is None,
    {
        assert(all.take(i + 1).drop_last() =~= all.take(i as int));
        assert(all.take(i + 1).last() == needles@[i as int]@);
        if text::contains(body, needles[i].as_str()) == occurring {
            proof {
                lemma_first_needle_prefix(all, i + 1, body@, occurring);
            }
            return Some(i);
        }
    }
    assert(all.take(needles.len() as int) =~= all);
    None
}

/// What is found in a front part of the needles is found in all of them.
proof fn lemma_first_needle_prefix(
    needles: Seq<Seq<char>>,
    n: int,
    body: Seq<char>,
    occurring: bool,
)
    requires
        0 <= n <= needles.len(),
        first_needle(needles.take(n), body, occurring) is Some,
    ensures
        first_needle(needles, body, occurring) == first_needle(needles.take(n), body, occurring),
    decreases needles.len() - n,
{
    if n < needles.len() {
        assert(needles.take(n + 1).drop_last() =~= needles.take(n));
        lemma_first_needle_prefix(needles, n + 1, body, occurring);
    } else {
        assert(needles.take(n) =~= needles);
    }
}

impl Expectation {
    /// The first clause that the probe response fails, if any.
    pub fn first_mismatch(&self, code: u16, body: &str) -> (r: Option<Mismatch>)
        ensures
            r == self@.first_mismatch(code, body@),
            r is None <==> self@.met_by(code, body@),
            match r {
                Some(Mismatch::Code { want, observed }) => {
                    &&& self.status == Some(want)
                    &&& observed == code
                    &&& want != code
                },
                Some(Mismatch::Missing { index }) => {
                    &&& self.status is Some ==> self.status->0 == code
                    &&& index < self.body_contains@.len()
                    &&& !text::occurs_in(self.body_contains@[index as int]@, body@)
                    &&& forall|j: int|
                        0 <= j < index ==> text::occurs_in(
                            (#[trigger] self.body_contains@[j])@,
                            body@,
                        )
                },
                Some(Mismatch::Present { index }) => {
                    &&& self.status is Some ==> self.status->0 == code
                    &&& forall|j: int|
                        0 <= j < self.body_contains@.len() ==> text::occurs_in(
                            (#[trigger] self.body_contains@[j])@,
                            body@,
                        )
                    &&& index < self.body_absent@.len()
                    &&& text::occurs_in(self.body_absent@[index as int]@, body@)
                    &&& forall|j: int|
                        0 <= j < index ==> !text::occurs_in(
                            (#[trigger] self.body_absent@[j])@,
                            body@,
                        )
                },
                None => {
                    &&& self.status is Some ==> self.status->0 == code
                    &&& forall|j: int|
                        0 <= j < self.body_contains@.len() ==> text::occurs_in(
                            (#[trigger] self.body_contains@[j])@,
                            body@,
                        )
                    &&& forall|j: int|
                        0 <= j < self.body_absent@.len() ==> !text::occurs_in(
                            (#[trigger] self.body_absent@[j])@,
                            body@,
                        )
                },
            },
    {
        proof {
            lemma_first_needle(self@.body_contains, body@, false);
            lemma_first_needle(self@.body_absent, body@, true);
            assert forall|j: int| 0 <= j < self.body_contains@.len() implies (
            #[trigger] self.body_contains@[j])@ == self@.body_contains[j] by {}
            assert forall|j: int| 0 <= j < self.body_absent@.len() implies (
            #[trigger] self.body_absent@[j])@ == self@.body_absent[j] by {}
        }
        if let Some(want) = self.status {
            if code != want {
                return Some(Mismatch::Code { want, observed: code });
            }
        }
        if let Some(index) = find_needle(&self.body_contains, body, false) {
            return Some(Mismatch::Missing { index });
        }
        if let Some(index) = find_needle(&self.body_absent, body, true) {
            return Some(Mismatch::Present { index });
        }
        None
    }

    /// Returns `Ok(())` if the probe response satisfies every clause, otherwise a
    /// human-readable reason naming the first clause that failed.
    pub fn evaluate(&self, code: u16, body: &str) -> (r: Result<(), String>)
        ensures
            verdict_view(r) == self@.verdict(code, body@),
            r is Ok <==> self@.met_by(code, body@),
    {
        proof {
            lemma_first_needle(self@.body_contains, body@, false);
            lemma_first_needle(self@.body_absent, body@, true);
        }
        match self.first_mismatch(code, body) {
            None => Ok(()),
            Some(mismatch) => {
                let quoted = match mismatch {
                    Mismatch::Code { .. } => String::new(),
                    Mismatch::Missing { index } => text::quote(self.body_contains[index].as_str()),
                    Mismatch::Present { index } => text::quote(self.body_absent[index].as_str()),
                };
                Err(mismatch.reason(quoted.as_str()))
            },
        }
    }
}

// ---------------------------------------------------------------------------
// Actions
// ---------------------------------------------------------------------------

/// What the caller asked for, and how to prove that it happened.
#[derive(Debug, Clone)]
pub struct ActionSpec {
    pub method: String,
    pub url: String,
    pub headers: Vec<(String, String)>,
    pub body: Option<String>,
    /// The independent read-back. Required: an action that cannot be verified is an
    /// action that is not performed.
    pub verify: VerifySpec,
}

/// A second, different request that observes the state the effect changed.
#[derive(Debug, Clone)]
pub struct VerifySpec {
    pub method: String,
    pub url: String,
    pub headers: Vec<(String, String)>,
    pub body: Option<String>,
    pub expect: Expectation,
}

#[verifier::ext_equal]
pub struct ActionSpecView {
    pub method: Seq<char>,
    pub url: Seq<char>,
    pub headers: Seq<(Seq<char>, Seq<char>)>,
    pub body: Option<Seq<char>>,
    pub verify: VerifySpecView,
}

#[verifier::ext_equal]
pub struct VerifySpecView {
    pub method: Seq<char>,
    pub url: Seq<char>,
    pub headers: Seq<(Seq<char>, Seq<char>)>,
    pub body: Option<Seq<char>>,
    pub expect: ExpectationView,
}

impl View for VerifySpec {
    type V = VerifySpecView;

    open spec fn view(&self) -> VerifySpecView {
        VerifySpecView {
            method: self.method@,
            url: self.url@,
            headers: self.headers.deep_view(),
            body: self.body.deep_view(),
            expect: self.expect@,
        }
    }
}

impl View for ActionSpec {
    type V = ActionSpecView;

    open spec fn view(&self) -> ActionSpecView {
        ActionSpecView {
            method: self.method@,
            url: self.url@,
            headers: self.headers.deep_view(),
            body: self.body.deep_view(),
            verify: self.verify@,
        }
    }
}

impl ActionSpecView {
    /// This action as the ledger keeps it: without the body of its request.
    pub open spec fn without_body(self) -> ActionSpecView {
        ActionSpecView { body: None, ..self }
    }
}

impl ActionSpec {
    /// This action as the ledger keeps it: without the body of its request. What the probe
    /// sends stays, since a verification needs it.
    pub fn without_body(self) -> (r: ActionSpec)
        ensures
            r@ == self@.without_body(),
    {
        ActionSpec {
            method: self.method,
            url: self.url,
            headers: self.headers,
            body: None,
            verify: self.verify,
        }
    }
}

// ---------------------------------------------------------------------------
// Attempts
// ---------------------------------------------------------------------------

/// One outbound call and what came back. Bodies are kept as a digest, never verbatim: the
/// ledger is an audit trail, not a copy of the payloads.
#[derive(Debug, Clone)]
pub struct Attempt {
    pub at: u64,
    pub code: u16,
    /// SHA-256 of the response body, hex-encoded. Lets an auditor prove that two
    /// records saw the same response without the ledger holding the content.
    pub body_sha256: String,
    pub body_len: usize,
    pub error: Option<String>,
}

#[verifier::ext_equal]
pub struct AttemptView {
    pub at: u64,
    pub code: u16,
    pub body_sha256: Seq<char>,
    pub body_len: usize,
    pub error: Option<Seq<char>>,
}

impl View for Attempt {
    type V = AttemptView;

    open spec fn view(&self) -> AttemptView {
        AttemptView {
            at: self.at,
            code: self.code,
            body_sha256: self.body_sha256@,
            body_len: self.body_len,
            error: self.error.deep_view(),
        }
    }
}

impl DeepView for Attempt {
    type V = AttemptView;

    open spec fn deep_view(&self) -> AttemptView {
        self@
    }
}

/// What is kept of a request body: enough to tell whether a given body is the one that was
/// asked for, not the body.
#[derive(Debug, Clone)]
pub struct BodyPrint {
    /// SHA-256 of the body, hex-encoded.
    pub sha256: String,
    /// Length of the body in bytes.
    pub len: usize,
}

#[verifier::ext_equal]
pub struct BodyPrintView {
    pub sha256: Seq<char>,
    pub len: usize,
}

impl View for BodyPrint {
    type V = BodyPrintView;

    open spec fn view(&self) -> BodyPrintView {
        BodyPrintView { sha256: self.sha256@, len: self.len }
    }
}

impl DeepView for BodyPrint {
    type V = BodyPrintView;

    open spec fn deep_view(&self) -> BodyPrintView {
        self@
    }
}

/// What is kept of a request body, where there is one.
pub open spec fn print_of(body: Option<Seq<char>>) -> Option<BodyPrintView> {
    match body {
        Some(text) => Some(
            BodyPrintView {
                sha256: digest::hex_text(digest::sha256(encode_utf8(text))),
                len: encode_utf8(text).len() as usize,
            },
        ),
        None => None,
    }
}

/// What is kept of a request body, where there is one.
pub fn body_print(body: &Option<String>) -> (r: Option<BodyPrint>)
    ensures
        r.deep_view() == print_of(body.deep_view()),
{
    match body {
        Some(text) => {
            let bytes = text.as_str().as_bytes();
            Some(BodyPrint { sha256: sha256_hex(bytes), len: bytes.len() })
        },
        None => None,
    }
}

// ---------------------------------------------------------------------------
// Records
// ---------------------------------------------------------------------------

/// One entry in the append-only ledger.
#[derive(Debug, Clone)]
pub struct Record {
    pub idempotency_key: String,
    pub status: Status,
    pub action: ActionSpec,
    /// The outbound call. A record without one only reserves its key: it was written before
    /// the call, and nothing after it, so that the call may have been made or not. Neither a
    /// submission nor a verification goes on from there.
    pub effect: Option<Attempt>,
    pub verification: Option<Attempt>,
    /// Why the record is in its current state, in words an operator can act on.
    pub reason: Option<String>,
    pub created_at: u64,
    pub updated_at: u64,
    pub seq_no: u64,
    pub contract_id: u32,
    /// How many times verification has run. Diagnostic rather than a limit.
    pub verify_attempts: u32,
    /// What is kept of the body of the action's request.
    pub request_body: Option<BodyPrint>,
}

#[verifier::ext_equal]
pub struct RecordView {
    pub idempotency_key: Seq<char>,
    pub status: Status,
    pub action: ActionSpecView,
    pub effect: Option<AttemptView>,
    pub verification: Option<AttemptView>,
    pub reason: Option<Seq<char>>,
    pub created_at: u64,
    pub updated_at: u64,
    pub seq_no: u64,
    pub contract_id: u32,
    pub verify_attempts: u32,
    pub request_body: Option<BodyPrintView>,
}

impl View for Record {
    type V = RecordView;

    open spec fn view(&self) -> RecordView {
        RecordView {
            idempotency_key: self.idempotency_key@,
            status: self.status,
            action: self.action@,
            effect: self.effect.deep_view(),
            verification: self.verification.deep_view(),
            reason: self.reason.deep_view(),
            created_at: self.created_at,
            updated_at: self.updated_at,
            seq_no: self.seq_no,
            contract_id: self.contract_id,
            verify_attempts: self.verify_attempts,
            request_body: self.request_body.deep_view(),
        }
    }
}

impl DeepView for Record {
    type V = RecordView;

    open spec fn deep_view(&self) -> RecordView {
        self@
    }
}

impl RecordView {
    /// The record of an effect that has just been attempted.
    pub open spec fn submitted(
        idempotency_key: Seq<char>,
        action: ActionSpecView,
        effect: AttemptView,
        now: u64,
        seq_no: u64,
        contract_id: u32,
    ) -> RecordView {
        RecordView {
            idempotency_key,
            status: if effect.error is Some {
                Status::Failed
            } else {
                Status::PendingVerification
            },
            action,
            effect: Some(effect),
            verification: None,
            reason: if effect.error is Some {
                effect.error
            } else {
                Some("transport accepted the request; not yet independently verified"@)
            },
            created_at: now,
            updated_at: now,
            seq_no,
            contract_id,
            verify_attempts: 0,
            request_body: None,
        }
    }

    /// This record with what is kept of its action's request body.
    pub open spec fn with_request_body(self, body: Option<BodyPrintView>) -> RecordView {
        RecordView { request_body: body, ..self }
    }

    /// The record of an effect that is about to be attempted.
    pub open spec fn reserved(
        idempotency_key: Seq<char>,
        action: ActionSpecView,
        now: u64,
        seq_no: u64,
        contract_id: u32,
    ) -> RecordView {
        RecordView {
            idempotency_key,
            status: Status::PendingVerification,
            action,
            effect: None,
            verification: None,
            reason: Some("reserved for the outbound call; its outcome is not recorded"@),
            created_at: now,
            updated_at: now,
            seq_no,
            contract_id,
            verify_attempts: 0,
            request_body: None,
        }
    }

    /// This record as it is written: with the print of its action's request body in place of
    /// the body.
    pub open spec fn without_body(self) -> RecordView {
        RecordView {
            action: self.action.without_body(),
            request_body: if self.action.body is Some {
                print_of(self.action.body)
            } else {
                self.request_body
            },
            ..self
        }
    }

    /// This record after a verification probe. A terminal status is never recomputed.
    pub open spec fn settled(
        self,
        probe: AttemptView,
        verdict: Result<(), Seq<char>>,
        now: u64,
    ) -> RecordView {
        if self.status.terminal() {
            self
        } else {
            RecordView {
                status: if verdict is Ok {
                    Status::Confirmed
                } else {
                    Status::Unverified
                },
                verification: Some(probe),
                reason: match verdict {
                    Ok(()) => Some("independently verified against external state"@),
                    Err(why) => Some(why),
                },
                updated_at: now,
                verify_attempts: (self.verify_attempts + 1) as u32,
                ..self
            }
        }
    }

    /// The text whose hash anchors this record: the fields that an auditor needs to
    /// trust, in a fixed order.
    pub open spec fn claims_text(self) -> Seq<char> {
        "t3n-verified-actions/v1\n"@ + self.idempotency_key + "\n"@ + self.status.label() + "\n"@
            + self.action.method + " "@ + self.action.url + "\n"@ + attempt_line(self.effect)
            + attempt_line(self.verification) + decimal_triple(
            self.created_at as nat,
            self.updated_at as nat,
            text::decimal(self.seq_no as nat),
        )
    }

    /// The hash that anchors this record.
    pub open spec fn claims_digest(self) -> Seq<u8> {
        digest::sha256(encode_utf8(self.claims_text()))
    }
}

/// Two numbers and a text, separated by colons.
pub open spec fn decimal_triple(a: nat, b: nat, c: Seq<char>) -> Seq<char> {
    text::decimal(a) + ":"@ + text::decimal(b) + ":"@ + c
}

/// The line of the claims text that an attempt takes; no line where there is none.
pub open spec fn attempt_line(attempt: Option<AttemptView>) -> Seq<char> {
    match attempt {
        None => seq![],
        Some(a) => decimal_triple(a.at as nat, a.code as nat, a.body_sha256) + "\n"@,
    }
}

fn push_triple(out: &mut String, a: u64, b: u64, c: &str)
    ensures
        final(out)@ == old(out)@ + decimal_triple(a as nat, b as nat, c@),
{
    out.append(text::decimal_text(a).as_str());
    out.append(":");
    out.append(text::decimal_text(b).as_str());
    out.append(":");
    out.append(c);
    assert(out@ =~= old(out)@ + decimal_triple(a as nat, b as nat, c@));
}

fn push_attempt(out: &mut String, attempt: &Option<Attempt>)
    ensures
        final(out)@ == old(out)@ + attempt_line(attempt.deep_view()),
{
    match attempt {
        None => {
            assert(out@ + seq![] =~= out@);
        },
        Some(a) => {
            push_triple(out, a.at, a.code as u64, a.body_sha256.as_str());
            out.append("\n");
            assert(out@ =~= old(out)@ + attempt_line(attempt.deep_view()));
        },
    }
}

impl Record {
    /// A freshly submitted record. Never `Confirmed`.
    pub fn submitted(
        idempotency_key: String,
        action: ActionSpec,
        effect: Attempt,
        now: u64,
        seq_no: u64,
        contract_id: u32,
    ) -> (r: Self)
        ensures
            r@ == RecordView::submitted(
                idempotency_key@,
                action@,
                effect@,
                now,
                seq_no,
                contract_id,
            ),
            r.status != Status::Confirmed,
    {
        let failed = effect.error.is_some();
        Record {
            idempotency_key,
            status: if failed {
                Status::Failed
            } else {
                Status::PendingVerification
            },
            reason: if failed {
                effect.error.clone()
            } else {
                Some(
                    "transport accepted the request; not yet independently verified".to_string(),
                )
            },
            action,
            effect: Some(effect),
            verification: None,
            created_at: now,
            updated_at: now,
            seq_no,
            contract_id,
            verify_attempts: 0,
            request_body: None,
        }
    }

    /// This record with what is kept of its action's request body.
    pub fn with_request_body(self, body: Option<BodyPrint>) -> (r: Self)
        ensures
            r@ == self@.with_request_body(body.deep_view()),
    {
        let mut r = self;
        r.request_body = body;
        r
    }

    /// The record of an effect that is about to be attempted: what keeps the key from
    /// being used again, whatever becomes of the call. Never `Confirmed`.
    pub fn reserved(
        idempotency_key: String,
        action: ActionSpec,
        now: u64,
        seq_no: u64,
        contract_id: u32,
    ) -> (r: Self)
        ensures
            r@ == RecordView::reserved(idempotency_key@, action@, now, seq_no, contract_id),
            r.status != Status::Confirmed,
    {
        Record {
            idempotency_key,
            status: Status::PendingVerification,
            action,
            effect: None,
            verification: None,
            reason: Some(
                "reserved for the outbound call; its outcome is not recorded".to_string(),
            ),
            created_at: now,
            updated_at: now,
            seq_no,
            contract_id,
            verify_attempts: 0,
            request_body: None,
        }
    }

    /// This record as it is written: with the print of its action's request body in place of
    /// the body.
    pub fn without_body(self) -> (r: Self)
        ensures
            r@ == self@.without_body(),
    {
        let mut r = self;
        if r.action.body.is_some() {
            r.request_body = body_print(&r.action.body);
        }
        r.action.body = None;
        r
    }

    /// Applies a verification probe outcome. The only path to `Confirmed`. A record in a
    /// terminal state is left as it is.
    pub fn settle(&mut self, probe: Attempt, verdict: Result<(), String>, now: u64)
        requires
            !old(self).status.terminal() ==> old(self).verify_attempts < u32::MAX,
        ensures
            final(self)@ == old(self)@.settled(probe@, verdict_view(verdict), now),
            old(self).status.terminal() ==> *final(self) == *old(self),
    {
        if self.status.is_terminal() {
            return;
        }
        self.verify_attempts = self.verify_attempts + 1;
        self.updated_at = now;
        match verdict {
            Ok(()) => {
                self.status = Status::Confirmed;
                self.reason = Some("independently verified against external state".to_string());
            },
            Err(why) => {
                self.status = Status::Unverified;
                self.reason = Some(why);
            },
        }
        self.verification = Some(probe);
    }

    /// The canonical text behind the claims digest.
    ///
    /// Only the fields that an auditor needs to trust are in it, in a fixed order, so
    /// the digest is stable under additions to the record.
    pub fn claims_text(&self) -> (r: String)
        ensures
            r@ == self@.claims_text(),
    {
        let mut out = "t3n-verified-actions/v1\n".to_string();
        out.append(self.idempotency_key.as_str());
        out.append("\n");
        out.append(self.status.name());
        out.append("\n");
        out.append(self.action.method.as_str());
        out.append(" ");
        out.append(self.action.url.as_str());
        out.append("\n");
        push_attempt(&mut out, &self.effect);
        push_attempt(&mut out, &self.verification);
        push_triple(
            &mut out,
            self.created_at,
            self.updated_at,
            text::decimal_text(self.seq_no).as_str(),
        );
        out
    }

    /// The SHA-256 of the claims text: what a receipt is checked against offline.
    pub fn claims_digest(&self) -> (r: [u8; 32])
        ensures
            r@ == self@.claims_digest(),
    {
        digest::sha256_of(self.claims_text().as_str().as_bytes())
    }
}

/// Hex SHA-256 of arbitrary bytes. Used for response-body fingerprints.
pub fn sha256_hex(bytes: &[u8]) -> (r: String)
    ensures
        r@ == digest::hex_text(digest::sha256(bytes@)),
        r@.len() == 64,
{
    let hash = digest::sha256_of(bytes);
    digest::hex_of(hash.as_slice())
}

// ---------------------------------------------------------------------------
// What a verdict says
// ---------------------------------------------------------------------------

/// Every state but the pending one is terminal.
pub proof fn only_pending_is_not_terminal(status: Status)
    ensures
        status.terminal() <==> status != Status::PendingVerification,
{
}

/// A verdict is favourable exactly where the code is the wanted one, every required text
/// stands in the body and no forbidden one does, however long the body is.
pub proof fn verdict_is_favourable_iff_every_clause_holds(
    expect: ExpectationView,
    code: u16,
    body: Seq<char>,
)
    ensures
        expect.verdict(code, body) is Ok <==> {
            &&& expect.status is Some ==> expect.status->0 == code
            &&& forall|i: int|
                0 <= i < expect.body_contains.len() ==> text::occurs_in(
                    #[trigger] expect.body_contains[i],
                    body,
                )
            &&& forall|i: int|
                0 <= i < expect.body_absent.len() ==> !text::occurs_in(
                    #[trigger] expect.body_absent[i],
                    body,
                )
        },
{
    lemma_first_needle(expect.body_contains, body, false);
    lemma_first_needle(expect.body_absent, body, true);
}

/// A verdict that is not favourable names the first clause that failed: the status, else the
/// first required text that is missing, else the first forbidden text that is there.
pub proof fn verdict_goes_clause_by_clause(expect: ExpectationView, code: u16, body: Seq<char>)
    requires
        expect.body_contains.len() <= usize::MAX,
        expect.body_absent.len() <= usize::MAX,
    ensures
        expect.status is Some && expect.status->0 != code ==> expect.verdict(code, body)
            == Err::<(), Seq<char>>(
            "expected HTTP "@ + text::decimal(expect.status->0 as nat) + ", observed "@
                + text::decimal(code as nat),
        ),
        forall|i: int|
            {
                &&& expect.status is Some ==> expect.status->0 == code
                &&& 0 <= i < expect.body_contains.len()
                &&& !text::occurs_in(#[trigger] expect.body_contains[i], body)
                &&& forall|j: int|
                    0 <= j < i ==> text::occurs_in(#[trigger] expect.body_contains[j], body)
            } ==> expect.verdict(code, body) == Err::<(), Seq<char>>(
                "expected response to contain "@ + text::quoted(expect.body_contains[i]),
            ),
        forall|i: int|
            {
                &&& expect.status is Some ==> expect.status->0 == code
                &&& forall|j: int|
                    0 <= j < expect.body_contains.len() ==> text::occurs_in(
                        #[trigger] expect.body_contains[j],
                        body,
                    )
                &&& 0 <= i < expect.body_absent.len()
                &&& text::occurs_in(#[trigger] expect.body_absent[i], body)
                &&& forall|j: int|
                    0 <= j < i ==> !text::occurs_in(#[trigger] expect.body_absent[j], body)
            } ==> expect.verdict(code, body) == Err::<(), Seq<char>>(
                "expected response NOT to contain "@ + text::quoted(expect.body_absent[i]),
            ),
{
    lemma_first_needle(expect.body_contains, body, false);
    lemma_first_needle(expect.body_absent, body, true);
    assert forall|i: int|
        {
            &&& expect.status is Some ==> expect.status->0 == code
            &&& 0 <= i < expect.body_contains.len()
            &&& !text::occurs_in(#[trigger] expect.body_contains[i], body)
            &&& forall|j: int|
                0 <= j < i ==> text::occurs_in(#[trigger] expect.body_contains[j], body)
        } implies expect.verdict(code, body) == Err::<(), Seq<char>>(
        "expected response to contain "@ + text::quoted(expect.body_contains[i]),
    ) by {
        assert(first_needle(expect.body_contains, body, false) == Some(i));
    }
    assert forall|i: int|
        {
            &&& expect.status is Some ==> expect.status->0 == code
            &&& forall|j: int|
                0 <= j < expect.body_contains.len() ==> text::occurs_in(
                    #[trigger] expect.body_contains[j],
                    body,
                )
            &&& 0 <= i < expect.body_absent.len()
            &&& text::occurs_in(#[trigger] expect.body_absent[i], body)
            &&& forall|j: int|
                0 <= j < i ==> !text::occurs_in(#[trigger] expect.body_absent[j], body)
        } implies expect.verdict(code, body) == Err::<(), Seq<char>>(
        "expected response NOT to contain "@ + text::quoted(expect.body_absent[i]),
    ) by {
        assert(first_needle(expect.body_contains, body, false) is None);
        assert(first_needle(expect.body_absent, body, true) == Some(i));
    }
}

/// A reason names what was wanted and what was observed, or the text as it was quoted.
pub proof fn reasons_name_the_clause(want: u16, observed: u16, index: usize, quoted: Seq<char>)
    ensures
        (Mismatch::Code { want, observed }).words(quoted) == "expected HTTP "@ + text::decimal(
            want as nat,
        ) + ", observed "@ + text::decimal(observed as nat),
        (Mismatch::Missing { index }).words(quoted) == "expected response to contain "@ + quoted,
        (Mismatch::Present { index }).words(quoted) == "expected response NOT to contain "@
            + quoted,
{
}

/// Each status has the name that it is written with.
pub proof fn statuses_have_their_names()
    ensures
        Status::PendingVerification.label() == "PendingVerification"@,
        Status::Confirmed.label() == "Confirmed"@,
        Status::Unverified.label() == "Unverified"@,
        Status::Failed.label() == "Failed"@,
{
}

// ---------------------------------------------------------------------------
// What a record holds
// ---------------------------------------------------------------------------

/// What is kept of a request body are the SHA-256 and the length of its bytes.
pub proof fn print_is_hash_and_length(text: Seq<char>)
    ensures
        print_of(None) is None,
        print_of(Some(text)) is Some,
        print_of(Some(text))->0.sha256 == digest::hex_text(digest::sha256(encode_utf8(text))),
        encode_utf8(text).len() <= usize::MAX ==> print_of(Some(text))->0.len == encode_utf8(
            text,
        ).len(),
{
}

/// A submitted record is `Failed`, with the error as its reason, exactly where the attempt has
/// an error; otherwise it is pending. It holds everything it was made from.
pub proof fn submitted_record_holds_what_was_given(
    idempotency_key: Seq<char>,
    action: ActionSpecView,
    effect: AttemptView,
    now: u64,
    seq_no: u64,
    contract_id: u32,
)
    ensures
        ({
            let r = RecordView::submitted(
                idempotency_key,
                action,
                effect,
                now,
                seq_no,
                contract_id,
            );
            &&& r.status == Status::Failed <==> effect.error is Some
            &&& r.status == Status::PendingVerification <==> effect.error is None
            &&& effect.error is Some ==> r.reason == effect.error
            &&& effect.error is None ==> r.reason == Some(
                "transport accepted the request; not yet independently verified"@,
            )
            &&& r.idempotency_key == idempotency_key
            &&& r.action == action
            &&& r.effect == Some(effect)
            &&& r.verification is None
            &&& r.created_at == now
            &&& r.updated_at == now
            &&& r.seq_no == seq_no
            &&& r.contract_id == contract_id
            &&& r.verify_attempts == 0
            &&& r.request_body is None
        }),
{
}

/// A reservation is pending and tells of no effect; it holds everything it was made from.
pub proof fn reserved_record_holds_what_was_given(
    idempotency_key: Seq<char>,
    action: ActionSpecView,
    now: u64,
    seq_no: u64,
    contract_id: u32,
)
    ensures
        ({
            let r = RecordView::reserved(idempotency_key, action, now, seq_no, contract_id);
            &&& r.status == Status::PendingVerification
            &&& r.effect is None
            &&& r.verification is None
            &&& r.idempotency_key == idempotency_key
            &&& r.action == action
            &&& r.reason == Some("reserved for the outbound call; its outcome is not recorded"@)
            &&& r.created_at == now
            &&& r.updated_at == now
            &&& r.seq_no == seq_no
            &&& r.contract_id == contract_id
            &&& r.verify_attempts == 0
            &&& r.request_body is None
        }),
{
}

/// Settling a pending record confirms it exactly where the verdict is favourable, keeps the
/// probe and its time, counts the verification, and leaves everything else as it was. A
/// terminal record is left as it is.
pub proof fn settling_keeps_the_outcome(
    record: RecordView,
    probe: AttemptView,
    verdict: Result<(), Seq<char>>,
    now: u64,
)
    requires
        record.status == Status::PendingVerification ==> record.verify_attempts < u32::MAX,
    ensures
        ({
            let r = record.settled(probe, verdict, now);
            if record.status == Status::PendingVerification {
                &&& r.status == Status::Confirmed <==> verdict is Ok
                &&& r.status == Status::Unverified <==> verdict is Err
                &&& verdict is Ok ==> r.reason == Some(
                    "independently verified against external state"@,
                )
                &&& verdict is Err ==> r.reason == Some(verdict->Err_0)
                &&& r.verification == Some(probe)
                &&& r.updated_at == now
                &&& r.verify_attempts == record.verify_attempts + 1
                &&& r.idempotency_key == record.idempotency_key
                &&& r.action == record.action
                &&& r.effect == record.effect
                &&& r.created_at == record.created_at
                &&& r.seq_no == record.seq_no
                &&& r.contract_id == record.contract_id
                &&& r.request_body == record.request_body
            } else {
                r == record
            }
        }),
{
}

/// What is written of a record differs from it in the request body alone, which gives way to
/// its print.
pub proof fn written_record_lacks_the_body_alone(record: RecordView)
    ensures
        ({
            let r = record.without_body();
            &&& r.action.body is None
            &&& record.action.body is Some ==> r.request_body == print_of(record.action.body)
            &&& record.action.body is None ==> r.request_body == record.request_body
            &&& r.action.method == record.action.method
            &&& r.action.url == record.action.url
            &&& r.action.headers == record.action.headers
            &&& r.action.verify == record.action.verify
            &&& r.idempotency_key == record.idempotency_key
            &&& r.status == record.status
            &&& r.effect == record.effect
            &&& r.verification == record.verification
            &&& r.reason == record.reason
            &&& r.created_at == record.created_at
            &&& r.updated_at == record.updated_at
            &&& r.seq_no == record.seq_no
            &&& r.contract_id == record.contract_id
            &&& r.verify_attempts == record.verify_attempts
        }),
{
}

/// An action without its body is the same action otherwise.
pub proof fn action_lacks_the_body_alone(action: ActionSpecView)
    ensures
        action.without_body().body is None,
        action.without_body().method == action.method,
        action.without_body().url == action.url,
        action.without_body().headers == action.headers,
        action.without_body().verify == action.verify,
{
}

/// Only what is kept of the request body changes with it.
pub proof fn request_body_is_replaced_alone(record: RecordView, body: Option<BodyPrintView>)
    ensures
        record.with_request_body(body).request_body == body,
        record.with_request_body(body).with_request_body(record.request_body) == record,
{
}

// ---------------------------------------------------------------------------
// What a receipt covers
// ---------------------------------------------------------------------------

/// The claims text in full, whatever the status: a header, the key, the status, the method and
/// the address, a line for each of effect and verification that is there, and the times and
/// the position of the record.
pub proof fn claims_are_the_audited_fields(r: RecordView)
    ensures
        ({
            let status = match r.status {
                Status::PendingVerification => "PendingVerification"@,
                Status::Confirmed => "Confirmed"@,
                Status::Unverified => "Unverified"@,
                Status::Failed => "Failed"@,
            };
            let head = "t3n-verified-actions/v1\n"@ + r.idempotency_key + "\n"@ + status + "\n"@
                + r.action.method + " "@ + r.action.url + "\n"@;
            let tail = text::decimal(r.created_at as nat) + ":"@ + text::decimal(
                r.updated_at as nat,
            ) + ":"@ + text::decimal(r.seq_no as nat);
            match (r.effect, r.verification) {
                (None, None) => r.claims_text() == head + tail,
                (Some(e), None) => r.claims_text() == head + (text::decimal(e.at as nat) + ":"@
                    + text::decimal(e.code as nat) + ":"@ + e.body_sha256 + "\n"@) + tail,
                (None, Some(v)) => r.claims_text() == head + (text::decimal(v.at as nat) + ":"@
                    + text::decimal(v.code as nat) + ":"@ + v.body_sha256 + "\n"@) + tail,
                (Some(e), Some(v)) => r.claims_text() == head + (text::decimal(e.at as nat)
                    + ":"@ + text::decimal(e.code as nat) + ":"@ + e.body_sha256 + "\n"@) + (
                text::decimal(v.at as nat) + ":"@ + text::decimal(v.code as nat) + ":"@
                    + v.body_sha256 + "\n"@) + tail,
            }
        }),
{
    let head = "t3n-verified-actions/v1\n"@ + r.idempotency_key + "\n"@ + r.status.label() + "\n"@
        + r.action.method + " "@ + r.action.url + "\n"@;
    let tail = text::decimal(r.created_at as nat) + ":"@ + text::decimal(r.updated_at as nat)
        + ":"@ + text::decimal(r.seq_no as nat);
    assert(head + seq![] =~= head);
    assert(r.claims_text() == head + attempt_line(r.effect) + attempt_line(r.verification) + tail);
    if r.verification is None {
        assert(head + attempt_line(r.effect) + seq![] =~= head + attempt_line(r.effect));
    }
}

/// The digest is the SHA-256 of the claims text's bytes.
pub proof fn digest_hashes_the_claims(r: RecordView)
    ensures
        r.claims_digest() == digest::sha256(encode_utf8(r.claims_text())),
{
}

/// What stands before the last line feed, and what after, is the same in the same text.
proof fn lemma_same_last_line(x: Seq<char>, a: Seq<char>, y: Seq<char>, b: Seq<char>)
    requires
        x + a == y + b,
        !a.contains('\n'),
        !b.contains('\n'),
        x.len() == 0 || x.last() == '\n',
        y.len() == 0 || y.last() == '\n',
    ensures
        x == y,
        a == b,
{
    let whole = x + a;
    if x.len() < y.len() {
        assert(whole[y.len() - 1] == '\n');
        assert(whole[y.len() - 1] == a[y.len() - 1 - x.len()]);
        assert(a.contains(a[y.len() - 1 - x.len()]));
    } else if y.len() < x.len() {
        assert(whole[x.len() - 1] == '\n');
        assert((y + b)[x.len() - 1] == b[x.len() - 1 - y.len()]);
        assert(b.contains(b[x.len() - 1 - y.len()]));
    }
    assert(x =~= whole.take(x.len() as int));
    assert(y =~= (y + b).take(y.len() as int));
    assert(a =~= whole.skip(x.len() as int));
    assert(b =~= (y + b).skip(y.len() as int));
}

/// What stands before the first colon, and what after, is the same in the same text.
proof fn lemma_same_first_part(a: Seq<char>, x: Seq<char>, b: Seq<char>, y: Seq<char>)
    requires
        a + ":"@ + x == b + ":"@ + y,
        !a.contains(':'),
        !b.contains(':'),
    ensures
        a == b,
        x == y,
{
    reveal_strlit(":");
    let whole = a + ":"@ + x;
    let other = b + ":"@ + y;
    assert(whole[a.len() as int] == ':');
    assert(other[b.len() as int] == ':');
    if a.len() < b.len() {
        assert(other[a.len() as int] == b[a.len() as int]);
        assert(b.contains(b[a.len() as int]));
    } else if b.len() < a.len() {
        assert(whole[b.len() as int] == a[b.len() as int]);
        assert(a.contains(a[b.len() as int]));
    }
    assert(a =~= whole.take(a.len() as int));
    assert(b =~= other.take(b.len() as int));
    assert(x =~= whole.skip(a.len() as int + 1));
    assert(y =~= other.skip(b.len() as int + 1));
}

proof fn lemma_decimal_is_plain(n: nat)
    ensures
        !text::decimal(n).contains(':'),
        !text::decimal(n).contains('\n'),
{
    text::decimal_is_read_back(n);
}

proof fn lemma_same_triple(a: nat, b: nat, c: Seq<char>, x: nat, y: nat, z: Seq<char>)
    requires
        decimal_triple(a, b, c) == decimal_triple(x, y, z),
    ensures
        a == x,
        b == y,
        c == z,
{
    lemma_decimal_is_plain(a);
    lemma_decimal_is_plain(b);
    lemma_decimal_is_plain(x);
    lemma_decimal_is_plain(y);
    let left = text::decimal(b) + ":"@ + c;
    let right = text::decimal(y) + ":"@ + z;
    assert(decimal_triple(a, b, c) =~= text::decimal(a) + ":"@ + left);
    assert(decimal_triple(x, y, z) =~= text::decimal(x) + ":"@ + right);
    lemma_same_first_part(text::decimal(a), left, text::decimal(x), right);
    lemma_same_first_part(text::decimal(b), c, text::decimal(y), z);
    text::decimal_tells_numbers_apart(a, x);
    text::decimal_tells_numbers_apart(b, y);
}

proof fn lemma_same_line(a: Option<AttemptView>, b: Option<AttemptView>)
    requires
        attempt_line(a) == attempt_line(b),
    ensures
        a is Some <==> b is Some,
        a is Some ==> a->0.at == b->0.at && a->0.code == b->0.code && a->0.body_sha256
            == b->0.body_sha256,
{
    reveal_strlit("\n");
    if a is Some {
        assert(attempt_line(a).last() == '\n' && attempt_line(a).len() > 0);
    }
    if b is Some {
        assert(attempt_line(b).last() == '\n' && attempt_line(b).len() > 0);
    }
    if a is Some && b is Some {
        let x = decimal_triple(a->0.at as nat, a->0.code as nat, a->0.body_sha256);
        let y = decimal_triple(b->0.at as nat, b->0.code as nat, b->0.body_sha256);
        assert(x =~= attempt_line(a).drop_last());
        assert(y =~= attempt_line(b).drop_last());
        lemma_same_triple(
            a->0.at as nat,
            a->0.code as nat,
            a->0.body_sha256,
            b->0.at as nat,
            b->0.code as nat,
            b->0.body_sha256,
        );
    }
}

proof fn lemma_times_are_plain(r: RecordView)
    ensures
        !decimal_triple(
            r.created_at as nat,
            r.updated_at as nat,
            text::decimal(r.seq_no as nat),
        ).contains('\n'),
{
    reveal_strlit(":");
    lemma_decimal_is_plain(r.created_at as nat);
    lemma_decimal_is_plain(r.updated_at as nat);
    lemma_decimal_is_plain(r.seq_no as nat);
    let a = text::decimal(r.created_at as nat);
    let b = text::decimal(r.updated_at as nat);
    let c = text::decimal(r.seq_no as nat);
    let whole = decimal_triple(r.created_at as nat, r.updated_at as nat, c);
    assert forall|i: int| 0 <= i < whole.len() implies whole[i] != '\n' by {
        if i < a.len() {
            assert(a.contains(whole[i]));
        } else if i == a.len() {
        } else if i < a.len() + 1 + b.len() {
            assert(whole[i] == b[i - a.len() - 1]);
            assert(b.contains(whole[i]));
        } else if i > a.len() + 1 + b.len() {
            assert(whole[i] == c[i - a.len() - b.len() - 2]);
            assert(c.contains(whole[i]));
        }
    }
}

/// The attempt lines of the claims text.
spec fn attempt_lines(r: RecordView) -> Seq<char> {
    attempt_line(r.effect) + attempt_line(r.verification)
}

/// Equal claims of records that agree on the key, the status, the method and the address.
proof fn lemma_same_claims(a: RecordView, b: RecordView)
    requires
        a.idempotency_key == b.idempotency_key,
        a.status == b.status,
        a.action.method == b.action.method,
        a.action.url == b.action.url,
        a.claims_text() == b.claims_text(),
    ensures
        attempt_lines(a) == attempt_lines(b),
        a.created_at == b.created_at,
        a.updated_at == b.updated_at,
        a.seq_no == b.seq_no,
{
    reveal_strlit("\n");
    let head = claims_head(a);
    let x = attempt_lines(a);
    let y = attempt_lines(b);
    let s = decimal_triple(
        a.created_at as nat,
        a.updated_at as nat,
        text::decimal(a.seq_no as nat),
    );
    let t = decimal_triple(
        b.created_at as nat,
        b.updated_at as nat,
        text::decimal(b.seq_no as nat),
    );
    lemma_claims_by_part(a);
    lemma_claims_by_part(b);
    assert(x + s =~= a.claims_text().skip(head.len() as int));
    assert(y + t =~= b.claims_text().skip(head.len() as int));
    lemma_times_are_plain(a);
    lemma_times_are_plain(b);
    lemma_same_last_line(x, s, y, t);
    lemma_same_triple(
        a.created_at as nat,
        a.updated_at as nat,
        text::decimal(a.seq_no as nat),
        b.created_at as nat,
        b.updated_at as nat,
        text::decimal(b.seq_no as nat),
    );
    text::decimal_tells_numbers_apart(a.seq_no as nat, b.seq_no as nat);
}

/// No time, position or probe can be altered without changing what is hashed: records in one
/// status that agree on key, method, address and effect have the same claims text only if
/// their verifications agree in time, code and body hash, or are both missing, and their
/// times and positions are the same.
pub proof fn claims_show_the_verification(a: RecordView, b: RecordView)
    requires
        a.idempotency_key == b.idempotency_key,
        a.status == b.status,
        a.action.method == b.action.method,
        a.action.url == b.action.url,
        a.effect == b.effect,
        a.claims_text() == b.claims_text(),
    ensures
        a.verification is Some <==> b.verification is Some,
        a.verification is Some ==> {
            &&& a.verification->0.at == b.verification->0.at
            &&& a.verification->0.code == b.verification->0.code
            &&& a.verification->0.body_sha256 == b.verification->0.body_sha256
        },
        a.created_at == b.created_at,
        a.updated_at == b.updated_at,
        a.seq_no == b.seq_no,
{
    lemma_same_claims(a, b);
    let n = attempt_line(a.effect).len() as int;
    assert(attempt_line(a.verification) =~= attempt_lines(a).skip(n));
    assert(attempt_line(b.verification) =~= attempt_lines(b).skip(n));
    lemma_same_line(a.verification, b.verification);
}

/// Nor can an effect be altered: the same of records that agree on the verification.
pub proof fn claims_show_the_effect(a: RecordView, b: RecordView)
    requires
        a.idempotency_key == b.idempotency_key,
        a.status == b.status,
        a.action.method == b.action.method,
        a.action.url == b.action.url,
        a.verification == b.verification,
        a.claims_text() == b.claims_text(),
    ensures
        a.effect is Some <==> b.effect is Some,
        a.effect is Some ==> {
            &&& a.effect->0.at == b.effect->0.at
            &&& a.effect->0.code == b.effect->0.code
            &&& a.effect->0.body_sha256 == b.effect->0.body_sha256
        },
        a.created_at == b.created_at,
        a.updated_at == b.updated_at,
        a.seq_no == b.seq_no,
{
    lemma_same_claims(a, b);
    let n = attempt_line(a.verification).len();
    assert(attempt_line(a.effect) =~= attempt_lines(a).take(attempt_lines(a).len() - n));
    assert(attempt_line(b.effect) =~= attempt_lines(b).take(attempt_lines(b).len() - n));
    lemma_same_line(a.effect, b.effect);
}

/// Nor can a key, a status or an address: records whose keys, methods and addresses stand on
/// one line each have the same claims text only if they agree on the key and the status and,
/// where they agree on the method too, on the address.
pub proof fn claims_show_key_status_and_address(a: RecordView, b: RecordView)
    requires
        !a.idempotency_key.contains('\n'),
        !b.idempotency_key.contains('\n'),
        !a.action.method.contains('\n'),
        !b.action.method.contains('\n'),
        !a.action.url.contains('\n'),
        !b.action.url.contains('\n'),
        a.claims_text() == b.claims_text(),
    ensures
        a.idempotency_key == b.idempotency_key,
        a.status == b.status,
        a.action.method + " "@ + a.action.url == b.action.method + " "@ + b.action.url,
        a.action.method == b.action.method ==> a.action.url == b.action.url,
{
    let header = "t3n-verified-actions/v1\n"@;
    let first = address_line(a);
    let second = address_line(b);
    let s = after_address(a);
    let t = after_address(b);
    let left = a.status.label() + "\n"@ + (first + "\n"@ + s);
    let right = b.status.label() + "\n"@ + (second + "\n"@ + t);
    lemma_claims_by_line(a);
    lemma_claims_by_line(b);
    assert(a.idempotency_key + "\n"@ + left =~= a.claims_text().skip(header.len() as int));
    assert(b.idempotency_key + "\n"@ + right =~= b.claims_text().skip(header.len() as int));
    lemma_same_first_line(a.idempotency_key, left, b.idempotency_key, right);
    lemma_label_is_plain(a.status);
    lemma_label_is_plain(b.status);
    lemma_same_first_line(a.status.label(), first + "\n"@ + s, b.status.label(), second + "\n"@ + t);
    lemma_address_is_plain(a);
    lemma_address_is_plain(b);
    lemma_same_first_line(first, s, second, t);
    if a.action.method == b.action.method {
        let n = a.action.method.len() as int;
        reveal_strlit(" ");
        assert(a.action.url =~= first.skip(n + 1));
        assert(b.action.url =~= second.skip(n + 1));
    }
}

/// The line of the claims text that names the method and the address.
spec fn address_line(r: RecordView) -> Seq<char> {
    r.action.method + " "@ + r.action.url
}

/// What follows that line.
spec fn after_address(r: RecordView) -> Seq<char> {
    attempt_lines(r) + decimal_triple(
        r.created_at as nat,
        r.updated_at as nat,
        text::decimal(r.seq_no as nat),
    )
}

proof fn lemma_claims_by_line(r: RecordView)
    ensures
        r.claims_text() == "t3n-verified-actions/v1\n"@ + (r.idempotency_key + "\n"@ + (
        r.status.label() + "\n"@ + (address_line(r) + "\n"@ + after_address(r)))),
{
    let header = "t3n-verified-actions/v1\n"@;
    let feed = "\n"@;
    let keyed = header + r.idempotency_key + feed;
    let stated = keyed + r.status.label() + feed;
    let below = address_line(r) + feed + after_address(r);
    let all = r.status.label() + feed + below;
    lemma_claims_by_part(r);
    lemma_regroup(stated, r.action.method, " "@);
    lemma_regroup(stated, r.action.method + " "@, r.action.url);
    lemma_regroup(stated, address_line(r), feed);
    lemma_regroup(stated, address_line(r) + feed, after_address(r));
    lemma_regroup(keyed, r.status.label(), feed);
    lemma_regroup(keyed, r.status.label() + feed, below);
    lemma_regroup(header, r.idempotency_key, feed);
    lemma_regroup(header, r.idempotency_key + feed, all);
}

proof fn lemma_regroup(a: Seq<char>, b: Seq<char>, c: Seq<char>)
    ensures
        a + b + c == a + (b + c),
{
    assert(a + b + c =~= a + (b + c));
}

/// The claims text up to the attempts.
spec fn claims_head(r: RecordView) -> Seq<char> {
    "t3n-verified-actions/v1\n"@ + r.idempotency_key + "\n"@ + r.status.label() + "\n"@
        + r.action.method + " "@ + r.action.url + "\n"@
}

proof fn lemma_claims_by_part(r: RecordView)
    ensures
        r.claims_text() == claims_head(r) + after_address(r),
{
    let times = decimal_triple(
        r.created_at as nat,
        r.updated_at as nat,
        text::decimal(r.seq_no as nat),
    );
    lemma_regroup(claims_head(r), attempt_line(r.effect), attempt_line(r.verification));
    lemma_regroup(claims_head(r), attempt_lines(r), times);
}

proof fn lemma_address_is_plain(r: RecordView)
    requires
        !r.action.method.contains('\n'),
        !r.action.url.contains('\n'),
    ensures
        !address_line(r).contains('\n'),
{
    reveal_strlit(" ");
    let line = address_line(r);
    assert forall|i: int| 0 <= i < line.len() implies line[i] != '\n' by {
        if i < r.action.method.len() {
            assert(r.action.method.contains(line[i]));
        } else if i > r.action.method.len() {
            assert(line[i] == r.action.url[i - r.action.method.len() - 1]);
            assert(r.action.url.contains(line[i]));
        }
    }
}

proof fn lemma_label_is_plain(status: Status)
    ensures
        !status.label().contains('\n'),
        status.label()[0] == match status {
            Status::PendingVerification => 'P',
            Status::Confirmed => 'C',
            Status::Unverified => 'U',
            Status::Failed => 'F',
        },
        status.label().len() > 0,
{
    reveal_strlit("PendingVerification");
    reveal_strlit("Confirmed");
    reveal_strlit("Unverified");
    reveal_strlit("Failed");
}

/// What stands before the first line feed, and what after, is the same in the same text.
proof fn lemma_same_first_line(a: Seq<char>, x: Seq<char>, b: Seq<char>, y: Seq<char>)
    requires
        a + "\n"@ + x == b + "\n"@ + y,
        !a.contains('\n'),
        !b.contains('\n'),
    ensures
        a == b,
        x == y,
{
    reveal_strlit("\n");
    let whole = a + "\n"@ + x;
    let other = b + "\n"@ + y;
    assert(whole[a.len() as int] == '\n');
    assert(other[b.len() as int] == '\n');
    if a.len() < b.len() {
        assert(other[a.len() as int] == b[a.len() as int]);
        assert(b.contains(b[a.len() as int]));
    } else if b.len() < a.len() {
        assert(whole[b.len() as int] == a[b.len() as int]);
        assert(a.contains(a[b.len() as int]));
    }
    assert(a =~= whole.take(a.len() as int));
    assert(b =~= other.take(b.len() as int));
    assert(x =~= whole.skip(a.len() as int + 1));
    assert(y =~= other.skip(b.len() as int + 1));
}

// ---------------------------------------------------------------------------
// What the views show
// ---------------------------------------------------------------------------

/// The view of an optional text is there exactly where the text is, and shows it.
pub open spec fn shows_text(text: Option<String>, view: Option<Seq<char>>) -> bool {
    match text {
        Some(t) => view == Some(t@),
        None => view is None,
    }
}

/// The view of an expectation shows all of it.
pub proof fn expectation_view_shows_everything(e: Expectation)
    ensures
        e@.status == e.status,
        e@.body_contains.len() == e.body_contains@.len(),
        forall|i: int|
            0 <= i < e.body_contains@.len() ==> #[trigger] e@.body_contains[i]
                == e.body_contains@[i]@,
        e@.body_absent.len() == e.body_absent@.len(),
        forall|i: int|
            0 <= i < e.body_absent@.len() ==> #[trigger] e@.body_absent[i] == e.body_absent@[i]@,
{
}

/// The view of an action shows all of it, the probe included.
pub proof fn action_view_shows_everything(a: ActionSpec)
    ensures
        a@.method == a.method@,
        a@.url == a.url@,
        a@.headers == a.headers.deep_view(),
        shows_text(a.body, a@.body),
        a@.verify == a.verify@,
        a@.verify.method == a.verify.method@,
        a@.verify.url == a.verify.url@,
        a@.verify.headers == a.verify.headers.deep_view(),
        shows_text(a.verify.body, a@.verify.body),
        a@.verify.expect == a.verify.expect@,
{
}

/// The view of an attempt shows all of it.
pub proof fn attempt_view_shows_everything(a: Attempt)
    ensures
        a@.at == a.at,
        a@.code == a.code,
        a@.body_sha256 == a.body_sha256@,
        a@.body_len == a.body_len,
        shows_text(a.error, a@.error),
{
}

/// The view of a record shows all of it.
pub proof fn record_view_shows_everything(r: Record)
    ensures
        r@.idempotency_key == r.idempotency_key@,
        r@.status == r.status,
        r@.action == r.action@,
        r.effect is None <==> r@.effect is None,
        r.effect is Some ==> r@.effect->0 == r.effect->0@,
        r.verification is None <==> r@.verification is None,
        r.verification is Some ==> r@.verification->0 == r.verification->0@,
        shows_text(r.reason, r@.reason),
        r@.created_at == r.created_at,
        r@.updated_at == r.updated_at,
        r@.seq_no == r.seq_no,
        r@.contract_id == r.contract_id,
        r@.verify_attempts == r.verify_attempts,
        r.request_body is None <==> r@.request_body is None,
        r.request_body is Some ==> {
            &&& r@.request_body->0.sha256 == r.request_body->0.sha256@
            &&& r@.request_body->0.len == r.request_body->0.len
        },
{
}

/// The view of a verdict shows it.
pub proof fn verdict_view_shows_everything(verdict: Result<(), String>)
    ensures
        verdict is Ok <==> verdict_view(verdict) is Ok,
        verdict is Err ==> verdict_view(verdict)->Err_0 == verdict->Err_0@,
{
}

} // verus!
