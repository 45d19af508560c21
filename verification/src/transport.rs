//! Outbound calls: the request that a specification asks for, and the attempt that
//! the ledger keeps of it.

use crate::digest;
use crate::record::{sha256_hex, Attempt, AttemptView};
use crate::text;
use vstd::prelude::*;
use vstd::string::*;
use vstd::utf8::*;

verus! {

/// The request methods that can be sent.
#[derive(Debug, Clone, Copy, PartialEq, Eq, Structural)]
pub enum Verb {
    Get,
    Post,
    Put,
    Patch,
    Delete,
}

/// The verb that a method names, in whichever case its letters are.
pub open spec fn verb_named(method: Seq<char>) -> Option<Verb> {
    let name = text::ascii_upper(method);
    if name == "GET"@ {
        Some(Verb::Get)
    } else if name == "POST"@ {
        Some(Verb::Post)
    } else if name == "PUT"@ {
        Some(Verb::Put)
    } else if name == "PATCH"@ {
        Some(Verb::Patch)
    } else if name == "DELETE"@ {
        Some(Verb::Delete)
    } else {
        None
    }
}

/// The refusal of a method, whose upper-case name is given as `quoted`.
pub open spec fn unsupported(quoted: Seq<char>) -> Seq<char> {
    "unsupported method "@ + quoted
}

/// The verb that a method names, or a message that quotes it in upper case.
pub fn verb(method: &str) -> (r: Result<Verb, String>)
    ensures
        match verb_named(method@) {
            Some(v) => r == Ok::<Verb, String>(v),
            None => r is Err && r->Err_0@ == unsupported(
                text::quoted(text::ascii_upper(method@)),
            ),
        },
{
    let upper = method.to_ascii_uppercase();
    let name = upper.as_str();
    if text::same_text(name, "GET") {
        Ok(Verb::Get)
    } else if text::same_text(name, "POST") {
        Ok(Verb::Post)
    } else if text::same_text(name, "PUT") {
        Ok(Verb::Put)
    } else if text::same_text(name, "PATCH") {
        Ok(Verb::Patch)
    } else if text::same_text(name, "DELETE") {
        Ok(Verb::Delete)
    } else {
        Err(text::prefixed("unsupported method ", text::quote(name).as_str()))
    }
}

/// A request ready to be sent.
#[derive(Debug, Clone)]
pub struct HttpRequest {
    pub method: Verb,
    pub url: String,
    pub headers: Vec<(String, String)>,
    pub payload: Option<Vec<u8>>,
}

#[verifier::ext_equal]
pub struct HttpRequestView {
    pub method: Verb,
    pub url: Seq<char>,
    pub headers: Seq<(Seq<char>, Seq<char>)>,
    pub payload: Option<Seq<u8>>,
}

impl View for HttpRequest {
    type V = HttpRequestView;

    open spec fn view(&self) -> HttpRequestView {
        HttpRequestView {
            method: self.method,
            url: self.url@,
            headers: self.headers.deep_view(),
            payload: self.payload.deep_view(),
        }
    }
}

/// A response that arrived.
#[derive(Debug, Clone)]
pub struct HttpReply {
    pub code: u16,
    pub payload: Vec<u8>,
}

#[verifier::ext_equal]
pub struct HttpReplyView {
    pub code: u16,
    pub payload: Seq<u8>,
}

impl View for HttpReply {
    type V = HttpReplyView;

    open spec fn view(&self) -> HttpReplyView {
        HttpReplyView { code: self.code, payload: self.payload@ }
    }
}

/// The request that a method, an address, headers and a body ask for, where the
/// method is one that can be sent.
pub open spec fn request_for(
    method: Seq<char>,
    url: Seq<char>,
    headers: Seq<(Seq<char>, Seq<char>)>,
    body: Option<Seq<char>>,
) -> Result<HttpRequestView, Seq<char>> {
    match verb_named(method) {
        Some(v) => Ok(
            HttpRequestView {
                method: v,
                url,
                headers,
                payload: match body {
                    Some(b) => Some(encode_utf8(b)),
                    None => None,
                },
            },
        ),
        None => Err(unsupported(text::quoted(text::ascii_upper(method)))),
    }
}

/// The view of a prepared request, or of why there is none.
pub open spec fn prepared_view(prepared: Result<HttpRequest, String>) -> Result<
    HttpRequestView,
    Seq<char>,
> {
    match prepared {
        Ok(request) => Ok(request@),
        Err(why) => Err(why@),
    }
}

fn copy_headers(headers: &Vec<(String, String)>) -> (r: Vec<(String, String)>)
    ensures
        r.deep_view() == headers.deep_view(),
{
    let mut r: Vec<(String, String)> = Vec::new();
    for i in 0..headers.len()
        invariant
            r@.len() == i,
            forall|j: int| 0 <= j < i ==> #[trigger] r@[j] == headers@[j],
    {
        r.push((headers[i].0.clone(), headers[i].1.clone()));
    }
    assert(r.deep_view() =~= headers.deep_view());
    r
}

/// The request that a method, an address, headers and a body ask for, or why it
/// cannot be sent.
pub fn prepare(
    method: &str,
    url: &str,
    headers: &Vec<(String, String)>,
    body: &Option<String>,
) -> (r: Result<HttpRequest, String>)
    ensures
        prepared_view(r) == request_for(method@, url@, headers.deep_view(), body.deep_view()),
{
    let v = match verb(method) {
        Ok(v) => v,
        Err(why) => {
            return Err(why);
        },
    };
    let payload: Option<Vec<u8>> = match body {
        Some(b) => Some(b.as_str().as_bytes_vec()),
        None => None,
    };
    let request = HttpRequest {
        method: v,
        url: url.to_string(),
        headers: copy_headers(headers),
        payload,
    };
    proof {
        if request.payload is Some {
            assert(request.payload->0.deep_view() =~= request.payload->0@);
        }
    }
    Ok(request)
}

/// How an outbound call ended.
#[derive(Debug, Clone)]
pub enum CallOutcome {
    /// It was not sent, for the given reason.
    NotSent(String),
    /// A response arrived.
    Replied(HttpReply),
    /// The transport errored.
    TransportError(String),
}

pub enum CallOutcomeView {
    NotSent(Seq<char>),
    Replied(HttpReplyView),
    TransportError(Seq<char>),
}

impl View for CallOutcome {
    type V = CallOutcomeView;

    open spec fn view(&self) -> CallOutcomeView {
        match self {
            CallOutcome::NotSent(why) => CallOutcomeView::NotSent(why@),
            CallOutcome::Replied(reply) => CallOutcomeView::Replied(reply@),
            CallOutcome::TransportError(e) => CallOutcomeView::TransportError(e@),
        }
    }
}

/// The fingerprint of a body.
pub open spec fn fingerprint(body: Seq<u8>) -> Seq<char> {
    digest::hex_text(digest::sha256(body))
}

/// The attempt that is kept of a call without a response.
pub open spec fn failed(at: u64, error: Seq<char>) -> AttemptView {
    AttemptView {
        at,
        code: 0,
        body_sha256: fingerprint(seq![]),
        body_len: 0,
        error: Some(error),
    }
}

/// The attempt that is kept of a call.
pub open spec fn attempt_of(at: u64, outcome: CallOutcomeView) -> AttemptView {
    match outcome {
        CallOutcomeView::NotSent(why) => failed(at, why),
        CallOutcomeView::Replied(reply) => AttemptView {
            at,
            code: reply.code,
            body_sha256: fingerprint(reply.payload),
            body_len: reply.payload.len() as usize,
            error: None,
        },
        CallOutcomeView::TransportError(e) => failed(at, "transport: "@ + e),
    }
}

/// The body that a call brought back.
pub open spec fn body_of(outcome: CallOutcomeView) -> Option<Seq<u8>> {
    match outcome {
        CallOutcomeView::Replied(reply) => Some(reply.payload),
        _ => None,
    }
}

pub fn failed_attempt(at: u64, error: String) -> (r: Attempt)
    ensures
        r@ == failed(at, error@),
{
    let nothing: Vec<u8> = Vec::new();
    Attempt {
        at,
        code: 0,
        body_sha256: sha256_hex(nothing.as_slice()),
        body_len: 0,
        error: Some(error),
    }
}

/// Folds every outcome of an outbound call into an `Attempt`, with the body where a
/// response arrived.
///
/// A failed call is recorded rather than propagated: that the call failed is itself an
/// auditable fact, and losing it would leave a caller unable to tell a failed send from
/// a send that was never attempted.
pub fn perform(at: u64, outcome: CallOutcome) -> (r: (Attempt, Option<Vec<u8>>))
    ensures
        r.0@ == attempt_of(at, outcome@),
        r.1.deep_view() == body_of(outcome@),
        r.0@.error is None <==> r.1 is Some,
        r.0.at == at,
        match outcome {
            CallOutcome::Replied(reply) => {
                &&& r.0.error is None
                &&& r.0.code == reply.code
                &&& r.0.body_sha256@ == digest::hex_text(digest::sha256(reply.payload@))
                &&& r.0.body_len == reply.payload@.len()
                &&& r.1 == Some(reply.payload)
            },
            CallOutcome::NotSent(why) => {
                &&& r.0.error is Some
                &&& r.0.error->0@ == why@
                &&& r.0.code == 0
                &&& r.0.body_len == 0
                &&& r.0.body_sha256@ == digest::hex_text(digest::sha256(seq![]))
                &&& r.1 is None
            },
            CallOutcome::TransportError(e) => {
                &&& r.0.error is Some
                &&& r.0.error->0@ == "transport: "@ + e@
                &&& r.0.code == 0
                &&& r.0.body_len == 0
                &&& r.0.body_sha256@ == digest::hex_text(digest::sha256(seq![]))
                &&& r.1 is None
            },
        },
{
    match outcome {
        CallOutcome::NotSent(why) => (failed_attempt(at, why), None),
        CallOutcome::Replied(reply) => {
            let attempt = Attempt {
                at,
                code: reply.code,
                body_sha256: sha256_hex(reply.payload.as_slice()),
                body_len: reply.payload.len(),
                error: None,
            };
            assert(reply.payload.deep_view() =~= reply.payload@);
            (attempt, Some(reply.payload))
        },
        CallOutcome::TransportError(e) => (
            failed_attempt(at, text::prefixed("transport: ", e.as_str())),
            None,
        ),
    }
}

// ---------------------------------------------------------------------------
// What a call comes to
// ---------------------------------------------------------------------------

/// A method names the verb whose name it is in upper case, and no other method names one.
pub proof fn methods_name_verbs_in_any_case(method: Seq<char>)
    ensures
        verb_named(method) == Some(Verb::Get) <==> text::ascii_upper(method) == "GET"@,
        verb_named(method) == Some(Verb::Post) <==> text::ascii_upper(method) == "POST"@,
        verb_named(method) == Some(Verb::Put) <==> text::ascii_upper(method) == "PUT"@,
        verb_named(method) == Some(Verb::Patch) <==> text::ascii_upper(method) == "PATCH"@,
        verb_named(method) == Some(Verb::Delete) <==> text::ascii_upper(method) == "DELETE"@,
{
    reveal_strlit("GET");
    reveal_strlit("POST");
    reveal_strlit("PUT");
    reveal_strlit("PATCH");
    reveal_strlit("DELETE");
    assert("GET"@.len() == 3 && "PUT"@.len() == 3 && "POST"@.len() == 4 && "PATCH"@.len() == 5
        && "DELETE"@.len() == 6);
    assert("GET"@[0] == 'G' && "PUT"@[0] == 'P');
}

/// A request carries the verb, the address, the headers and the bytes of the body that were
/// asked for; a method that names no verb is refused with its name quoted.
pub proof fn request_is_what_was_asked_for(
    method: Seq<char>,
    url: Seq<char>,
    headers: Seq<(Seq<char>, Seq<char>)>,
    body: Option<Seq<char>>,
)
    ensures
        ({
            let r = request_for(method, url, headers, body);
            &&& r is Ok <==> verb_named(method) is Some
            &&& r is Ok ==> {
                &&& Some(r->Ok_0.method) == verb_named(method)
                &&& r->Ok_0.url == url
                &&& r->Ok_0.headers == headers
                &&& body is None <==> r->Ok_0.payload is None
                &&& body is Some ==> r->Ok_0.payload->0 == encode_utf8(body->0)
            }
            &&& r is Err ==> r->Err_0 == "unsupported method "@ + text::quoted(
                text::ascii_upper(method),
            )
        }),
{
}

/// Every reply that arrived, whatever its code, is kept as an attempt without an error, with
/// the reply's code and the hash and length of its payload; the payload is handed on.
pub proof fn every_reply_is_kept(at: u64, reply: HttpReplyView)
    requires
        reply.payload.len() <= usize::MAX,
    ensures
        ({
            let a = attempt_of(at, CallOutcomeView::Replied(reply));
            &&& a.at == at
            &&& a.error is None
            &&& a.code == reply.code
            &&& a.body_sha256 == digest::hex_text(digest::sha256(reply.payload))
            &&& a.body_len == reply.payload.len()
        }),
        body_of(CallOutcomeView::Replied(reply)) == Some(reply.payload),
{
}

/// A call that was not sent, and one whose transport errored, is kept as an attempt with the
/// error and without a response.
pub proof fn every_failure_is_kept(at: u64, why: Seq<char>)
    ensures
        ({
            let a = attempt_of(at, CallOutcomeView::NotSent(why));
            &&& a.at == at
            &&& a.error == Some(why)
            &&& a.code == 0
            &&& a.body_sha256 == digest::hex_text(digest::sha256(seq![]))
            &&& a.body_len == 0
        }),
        ({
            let a = attempt_of(at, CallOutcomeView::TransportError(why));
            &&& a.at == at
            &&& a.error == Some("transport: "@ + why)
            &&& a.code == 0
            &&& a.body_sha256 == digest::hex_text(digest::sha256(seq![]))
            &&& a.body_len == 0
        }),
        body_of(CallOutcomeView::NotSent(why)) is None,
        body_of(CallOutcomeView::TransportError(why)) is None,
{
}

/// The views of requests, replies and outcomes show all of them.
pub proof fn call_views_show_everything(
    request: HttpRequest,
    reply: HttpReply,
    outcome: CallOutcome,
    prepared: Result<HttpRequest, String>,
)
    ensures
        request@.method == request.method,
        request@.url == request.url@,
        request@.headers == request.headers.deep_view(),
        request.payload is None <==> request@.payload is None,
        request.payload is Some ==> request@.payload->0 == request.payload->0@,
        reply@.code == reply.code,
        reply@.payload == reply.payload@,
        match outcome {
            CallOutcome::NotSent(why) => outcome@ == CallOutcomeView::NotSent(why@),
            CallOutcome::Replied(r) => outcome@ == CallOutcomeView::Replied(r@),
            CallOutcome::TransportError(e) => outcome@ == CallOutcomeView::TransportError(e@),
        },
        prepared is Ok <==> prepared_view(prepared) is Ok,
        prepared is Ok ==> prepared_view(prepared)->Ok_0 == prepared->Ok_0@,
        prepared is Err ==> prepared_view(prepared)->Err_0 == prepared->Err_0@,
{
    if request.payload is Some {
        assert(request.payload->0.deep_view() =~= request.payload->0@);
    }
}

} // verus!
