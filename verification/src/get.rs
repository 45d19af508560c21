//! `get-record`: reads one record.

use crate::host;
use crate::host::{HostEvent, HostEventView, Input, InputView, KeyRequest};
use crate::record::{Record, RecordView};
use crate::text;
use vstd::prelude::*;
use vstd::string::*;

verus! {

/// A read under way.
pub enum GetRecord {
    /// Read the ledger under the key.
    Lookup { idempotency_key: String },
    /// Nothing is left to do.
    Done { result: Result<Record, String> },
}

#[verifier::ext_equal]
pub enum GetRecordView {
    Lookup { idempotency_key: Seq<char> },
    Done { result: Result<RecordView, Seq<char>> },
}

impl View for GetRecord {
    type V = GetRecordView;

    open spec fn view(&self) -> GetRecordView {
        match self {
            GetRecord::Lookup { idempotency_key } => GetRecordView::Lookup {
                idempotency_key: idempotency_key@,
            },
            GetRecord::Done { result } => GetRecordView::Done {
                result: host::outcome_view(*result),
            },
        }
    }
}

impl GetRecordView {
    /// How a read begins.
    pub open spec fn start(input: InputView<Seq<char>>) -> GetRecordView {
        match input {
            InputView::Missing => GetRecordView::Done { result: Err("get-record: missing input"@) },
            InputView::Malformed(why) => GetRecordView::Done {
                result: Err("get-record: bad input: "@ + why),
            },
            InputView::Parsed(idempotency_key) => GetRecordView::Lookup { idempotency_key },
        }
    }

    /// Whether an event is the outcome of the host call that this state waits for.
    pub open spec fn expects(self, event: HostEventView) -> bool {
        self is Lookup && event is Fetched
    }

    /// The state after an event.
    pub open spec fn next(self, event: HostEventView) -> GetRecordView {
        match (self, event) {
            (
                GetRecordView::Lookup { idempotency_key },
                HostEventView::Fetched(fetched),
            ) => GetRecordView::Done {
                result: match host::load_result(idempotency_key, fetched) {
                    Err(why) => Err(why),
                    Ok(None) => Err("get-record: no record for "@ + idempotency_key),
                    Ok(Some(record)) => Ok(record),
                },
            },
            _ => self,
        }
    }
}

/// Begins to read one record.
pub fn get_record(input: Input<KeyRequest>) -> (r: GetRecord)
    ensures
        r@ == GetRecordView::start(input@),
        input matches Input::Parsed(request) ==> r matches GetRecord::Lookup { idempotency_key }
            && idempotency_key@ == request.idempotency_key@,
{
    match input {
        Input::Missing => GetRecord::Done { result: Err("get-record: missing input".to_string()) },
        Input::Malformed(why) => GetRecord::Done {
            result: Err(text::prefixed("get-record: bad input: ", why.as_str())),
        },
        Input::Parsed(request) => GetRecord::Lookup { idempotency_key: request.idempotency_key },
    }
}

impl GetRecord {
    /// Goes on with the outcome of the host call that this state waits for.
    pub fn resume(self, event: HostEvent) -> (r: GetRecord)
        requires
            self@.expects(event@),
        ensures
            r@ == self@.next(event@),
    {
        match (self, event) {
            (GetRecord::Lookup { idempotency_key }, HostEvent::Fetched(fetched)) => {
                let result = match host::load(idempotency_key.as_str(), fetched) {
                    Err(why) => Err(why),
                    Ok(None) => Err(
                        text::prefixed("get-record: no record for ", idempotency_key.as_str()),
                    ),
                    Ok(Some(record)) => Ok(record),
                };
                GetRecord::Done { result }
            },
            (state, _) => state,
        }
    }
}

} // verus!
