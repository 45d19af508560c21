use std::collections::BTreeMap;

use verified_actions::get::{get_record, GetRecord};
use verified_actions::host::{
    load, map_name, store, Fetched, HostEvent, Input, KeyRequest, Stored,
};
use verified_actions::list::{list_records, ListRecords, ListRequest, ListResponse};
use verified_actions::record::{ActionSpec, Expectation, Record, Status, VerifySpec};
use verified_actions::submit::{submit_action, Submit, SubmitRequest};
use verified_actions::transport::{HttpReply, HttpRequest, Verb};
use verified_actions::verify::{judge, verify_action, Verify};

/// A host in memory.
struct Machine {
    records: BTreeMap<String, Record>,
    index: Option<Vec<u8>>,
    /// What the transport answers, first to last.
    answers: Vec<Result<HttpReply, String>>,
    calls: Vec<HttpRequest>,
    anchored: Vec<[u8; 32]>,
    clock: u64,
    index_errors: bool,
    /// Which writes of a record are refused, counted from the first.
    refused_puts: Vec<usize>,
    puts: usize,
    /// Which digests cannot be anchored, counted from the first.
    refused_anchors: Vec<usize>,
    /// The host stops before the call that the submission waits for.
    cut_at_call: bool,
}

impl Machine {
    fn new(answers: Vec<Result<HttpReply, String>>) -> Machine {
        Machine {
            records: BTreeMap::new(),
            index: None,
            answers,
            calls: Vec::new(),
            anchored: Vec::new(),
            clock: 1000,
            index_errors: false,
            refused_puts: Vec::new(),
            puts: 0,
            refused_anchors: Vec::new(),
            cut_at_call: false,
        }
    }

    fn tick(&mut self) -> u64 {
        self.clock += 1;
        self.clock
    }

    fn fetch(&self, key: &str) -> Fetched {
        match self.records.get(key) {
            Some(record) => Fetched::Found(record.clone()),
            None => Fetched::Absent,
        }
    }

    fn put(&mut self, record: &Record) -> Stored {
        self.puts += 1;
        if self.refused_puts.contains(&(self.puts - 1)) {
            return Stored::Refused("full".into());
        }
        self.records.insert(record.idempotency_key.clone(), record.clone());
        Stored::Written
    }

    fn anchor(&mut self, digest: &[u8; 32]) -> Result<(), String> {
        self.anchored.push(*digest);
        if self.refused_anchors.contains(&(self.anchored.len() - 1)) {
            return Err("no leaf".into());
        }
        Ok(())
    }

    fn call(&mut self, request: &HttpRequest) -> Result<HttpReply, String> {
        self.calls.push(request.clone());
        self.answers.remove(0)
    }

    fn submit(&mut self, key: &str, action: ActionSpec) -> Result<Record, String> {
        let mut state = submit_action(Input::Parsed(SubmitRequest {
            idempotency_key: key.into(),
            action,
        }));
        loop {
            let event = match &state {
                Submit::Lookup { idempotency_key, .. } => {
                    HostEvent::Fetched(self.fetch(idempotency_key))
                }
                Submit::Enter { .. } => HostEvent::Context {
                    now: self.tick(),
                    seq_no: 4,
                    contract_id: 890,
                },
                Submit::Reserve { record, .. } => HostEvent::Stored(self.put(record)),
                Submit::Secure { digest, .. } => HostEvent::Anchored(self.anchor(digest)),
                Submit::Clock { .. } => HostEvent::Clock(self.tick()),
                Submit::Call { request, .. } => {
                    let answer = self.call(request);
                    if self.cut_at_call {
                        return Err("cut off".into());
                    }
                    HostEvent::Called(answer)
                }
                Submit::Stamp { .. } => HostEvent::Context {
                    now: self.tick(),
                    seq_no: 5,
                    contract_id: 890,
                },
                Submit::Write { record } => HostEvent::Stored(self.put(record)),
                Submit::Anchor { digest, .. } => HostEvent::Anchored(self.anchor(digest)),
                Submit::ReadIndex { .. } => {
                    if self.index_errors {
                        HostEvent::IndexRead(Err("no index".into()))
                    } else {
                        HostEvent::IndexRead(Ok(self.index.clone()))
                    }
                }
                Submit::WriteIndex { index, .. } => {
                    if self.index_errors {
                        HostEvent::IndexWritten(Err("read-only".into()))
                    } else {
                        self.index = Some(index.clone().into_bytes());
                        HostEvent::IndexWritten(Ok(()))
                    }
                }
                Submit::Done { .. } => break,
            };
            state = state.resume(event);
        }
        match state {
            Submit::Done { result } => result,
            _ => unreachable!(),
        }
    }

    fn verify(&mut self, key: &str) -> Result<Record, String> {
        let mut state = verify_action(Input::Parsed(KeyRequest {
            idempotency_key: key.into(),
        }));
        loop {
            let event = match &state {
                Verify::Lookup { idempotency_key } => {
                    HostEvent::Fetched(self.fetch(idempotency_key))
                }
                Verify::Clock { .. } | Verify::Settle { .. } => HostEvent::Clock(self.tick()),
                Verify::Probe { request, .. } => HostEvent::Called(self.call(request)),
                Verify::Write { record } => HostEvent::Stored(self.put(record)),
                Verify::Anchor { digest, .. } => HostEvent::Anchored(self.anchor(digest)),
                Verify::Done { .. } => break,
            };
            state = state.resume(event);
        }
        match state {
            Verify::Done { result } => result,
            _ => unreachable!(),
        }
    }

    fn get(&self, key: &str) -> Result<Record, String> {
        let state = get_record(Input::Parsed(KeyRequest {
            idempotency_key: key.into(),
        }));
        match state.resume(HostEvent::Fetched(self.fetch(key))) {
            GetRecord::Done { result } => result,
            _ => unreachable!(),
        }
    }

    fn scan(&self, start: &[u8], end: &[u8], limit: u32) -> Vec<(Vec<u8>, Vec<u8>)> {
        let mut rows: Vec<(Vec<u8>, Vec<u8>)> = self
            .records
            .keys()
            .map(|key| (key.clone().into_bytes(), b"T3VR envelope".to_vec()))
            .collect();
        if let Some(index) = &self.index {
            rows.push((b"__index".to_vec(), index.clone()));
        }
        rows.sort();
        rows.retain(|(key, _)| key.as_slice() >= start && key.as_slice() < end);
        rows.truncate(limit as usize);
        rows
    }

    fn list(&self, request: ListRequest, blind: bool) -> Result<ListResponse, String> {
        let mut state = list_records(Input::Parsed(request));
        loop {
            let event = match &state {
                ListRecords::Scan { query } => HostEvent::Scanned(Ok(if blind {
                    Vec::new()
                } else {
                    self.scan(query.start.as_bytes(), &query.end, query.limit)
                })),
                ListRecords::ReadIndex { .. } => HostEvent::IndexRead(Ok(self.index.clone())),
                ListRecords::Fetch { page, position, .. } => {
                    HostEvent::Fetched(self.fetch(&page.keys[*position]))
                }
                ListRecords::Done { .. } => break,
            };
            state = state.resume(event);
        }
        match state {
            ListRecords::Done { result } => result,
            _ => unreachable!(),
        }
    }
}

fn reply(code: u16, body: &str) -> Result<HttpReply, String> {
    Ok(HttpReply {
        code,
        payload: body.as_bytes().to_vec(),
    })
}

fn action() -> ActionSpec {
    ActionSpec {
        method: "post".into(),
        url: "https://example.test/notify".into(),
        headers: vec![("x-a".into(), "1".into())],
        body: Some("h\u{e9}".into()),
        verify: VerifySpec {
            method: "GET".into(),
            url: "https://example.test/deliveries".into(),
            headers: vec![],
            body: None,
            expect: Expectation {
                status: Some(200),
                body_contains: vec!["\"state\": \"delivered\"".into()],
                body_absent: vec!["failed".into()],
            },
        },
    }
}

#[test]
fn a_submission_sends_records_anchors_and_indexes() {
    let mut m = Machine::new(vec![reply(200, "abc")]);
    let r = m.submit("k", action()).unwrap();
    assert_eq!(r.status, Status::PendingVerification);
    assert_eq!(m.calls.len(), 1);
    assert_eq!(m.calls[0].method, Verb::Post);
    assert_eq!(m.calls[0].url, "https://example.test/notify");
    assert_eq!(m.calls[0].headers, vec![("x-a".to_string(), "1".to_string())]);
    assert_eq!(m.calls[0].payload, Some(vec![b'h', 0xc3, 0xa9]));
    let effect = r.effect.as_ref().unwrap();
    assert_eq!((effect.at, effect.code, effect.body_len), (1002, 200, 3));
    assert_eq!(
        effect.body_sha256,
        "ba7816bf8f01cfea414140de5dae2223b00361a396177a9cb410ff61f20015ad"
    );
    assert_eq!((r.created_at, r.updated_at, r.seq_no, r.contract_id), (1003, 1003, 5, 890));
    assert_eq!(m.puts, 2);
    assert_eq!(m.anchored.len(), 2);
    assert_eq!(m.anchored[1], r.claims_digest());
    assert_eq!(m.index, Some(b"k".to_vec()));
    assert_eq!(m.get("k").unwrap().claims_digest(), r.claims_digest());
}

#[test]
fn a_lying_transport_is_caught_and_replays_send_nothing() {
    let mut m = Machine::new(vec![reply(200, "ok"), reply(200, "\"state\": \"queued\"")]);
    let r = m.submit("demo-lying-001", action()).unwrap();
    assert_eq!(r.verify_attempts, 0);
    let r = m.verify("demo-lying-001").unwrap();
    assert_eq!(r.status, Status::Unverified);
    assert_eq!(r.verify_attempts, 1);
    let why = "expected response to contain \"\\\"state\\\": \\\"delivered\\\"\"";
    assert_eq!(r.reason.as_deref(), Some(why));
    assert_eq!(m.calls.len(), 2);

    let again = m.submit("demo-lying-001", action()).unwrap();
    assert_eq!(again.status, Status::Unverified);
    assert_eq!(again.verify_attempts, 1);
    assert_eq!(again.reason.as_deref(), Some(why));
    assert_eq!(m.calls.len(), 2);
    assert_eq!(m.anchored.len(), 3);
}

#[test]
fn the_honest_path_is_confirmed() {
    let mut m = Machine::new(vec![reply(202, "ok"), reply(200, "\"state\": \"delivered\"")]);
    m.submit("demo-honest-001", action()).unwrap();
    let r = m.verify("demo-honest-001").unwrap();
    assert_eq!(r.status, Status::Confirmed);
    assert_eq!(r.reason.as_deref(), Some("independently verified against external state"));
    assert_eq!(m.calls[1].method, Verb::Get);
    assert_eq!(m.calls[1].payload, None);
    assert_eq!(m.anchored[2], r.claims_digest());
}

#[test]
fn a_refused_reservation_sends_nothing() {
    let mut m = Machine::new(vec![reply(200, "ok")]);
    m.refused_puts = vec![0];
    assert_eq!(m.submit("k", action()).map(|_| ()).unwrap_err(), "kv put: full");
    assert!(m.calls.is_empty());
    assert!(m.records.is_empty());
    assert_eq!(m.submit("k", action()).unwrap().status, Status::PendingVerification);
    assert_eq!(m.calls.len(), 1);

}

#[test]
fn a_reservation_that_cannot_be_anchored_does_not_stop_the_call() {
    let mut m = Machine::new(vec![reply(200, "ok"), reply(200, "\"state\": \"delivered\"")]);
    m.refused_anchors = vec![0];
    let r = m.submit("k", action()).unwrap();
    assert_eq!(r.effect.as_ref().unwrap().code, 200);
    assert_eq!(m.calls.len(), 1);
    assert_eq!(m.anchored[1], r.claims_digest());
    assert_eq!(m.verify("k").unwrap().status, Status::Confirmed);

    let mut m = Machine::new(vec![reply(200, "ok"), reply(200, "\"state\": \"delivered\"")]);
    m.refused_anchors = vec![1];
    assert_eq!(m.submit("k", action()).map(|_| ()).unwrap_err(), "set claims digest: no leaf");
    assert_eq!(m.calls.len(), 1);
    assert_eq!(m.get("k").unwrap().effect.unwrap().code, 200);
    assert_eq!(m.verify("k").unwrap().status, Status::Confirmed);
}

#[test]
fn an_effect_is_not_sent_again_where_its_record_could_not_be_written() {
    let mut m = Machine::new(vec![reply(200, "ok")]);
    m.refused_puts = vec![1];
    assert_eq!(m.submit("k", action()).map(|_| ()).unwrap_err(), "kv put: full");
    assert_eq!(m.calls.len(), 1);

    let reserved = m.submit("k", action()).unwrap();
    assert_eq!(m.calls.len(), 1);
    assert_eq!(reserved.status, Status::PendingVerification);
    assert!(reserved.effect.is_none());
    assert_eq!((reserved.created_at, reserved.seq_no, reserved.contract_id), (1001, 4, 890));
    assert_eq!(
        reserved.reason.as_deref(),
        Some("reserved for the outbound call; its outcome is not recorded")
    );
    assert_eq!(m.anchored, vec![reserved.claims_digest()]);

    // Nothing says that its effect was sent, so it is not verified either.
    let r = m.verify("k").unwrap();
    assert_eq!(r.status, Status::PendingVerification);
    assert_eq!(r.verify_attempts, 0);
    assert_eq!(r.claims_text(), reserved.claims_text());
    assert_eq!(m.puts, 2);
    assert_eq!(m.calls.len(), 1);
}

#[test]
fn an_effect_is_not_sent_again_where_the_submission_was_cut_off() {
    let mut m = Machine::new(vec![reply(200, "ok")]);
    m.cut_at_call = true;
    assert!(m.submit("k", action()).is_err());
    m.cut_at_call = false;
    assert!(m.submit("k", action()).unwrap().effect.is_none());
    assert_eq!(m.calls.len(), 1);
}

#[test]
fn request_bodies_are_not_stored() {
    let mut m = Machine::new(vec![reply(200, "ok"), reply(200, "\"state\": \"delivered\"")]);
    let mut a = action();
    a.body = Some("abc".into());
    a.verify.body = Some("query".into());
    let abc = "ba7816bf8f01cfea414140de5dae2223b00361a396177a9cb410ff61f20015ad";
    let check = |r: &Record| {
        assert!(r.action.body.is_none());
        assert_eq!(r.action.verify.body.as_deref(), Some("query"));
        let print = r.request_body.as_ref().unwrap();
        assert_eq!((print.sha256.as_str(), print.len), (abc, 3));
    };
    m.cut_at_call = true;
    assert!(m.submit("cut", a.clone()).is_err());
    assert_eq!(m.calls[0].payload, Some(b"abc".to_vec()));
    check(&m.records["cut"]);

    m.cut_at_call = false;
    m.answers.insert(0, reply(200, "ok"));
    check(&m.submit("a", a.clone()).unwrap());
    check(&m.records["a"]);

    // A body that a record holds all the same goes when the record is next written.
    let mut kept = m.get("a").unwrap();
    kept.action.body = Some("abc".into());
    kept.request_body = None;
    m.records.insert("a".into(), kept);
    let r = m.verify("a").unwrap();
    assert_eq!(m.calls[2].payload, Some(b"query".to_vec()));
    assert_eq!(r.status, Status::Confirmed);
    check(&r);
    check(&m.records["a"]);

    a.method = "trace".into();
    check(&m.submit("b", a.clone()).unwrap());
    a.body = None;
    assert!(m.submit("c", a).unwrap().request_body.is_none());
}

#[test]
fn terminal_records_are_verified_once() {
    let mut m = Machine::new(vec![
        reply(202, "ok"),
        reply(200, "\"state\": \"delivered\""),
        reply(202, "ok"),
        reply(404, ""),
        Err("refused".into()),
    ]);
    m.submit("confirmed", action()).unwrap();
    m.verify("confirmed").unwrap();
    m.submit("unverified", action()).unwrap();
    m.verify("unverified").unwrap();
    m.submit("failed", action()).unwrap();
    assert_eq!(m.calls.len(), 5);
    for (key, status, attempts) in [
        ("confirmed", Status::Confirmed, 1),
        ("unverified", Status::Unverified, 1),
        ("failed", Status::Failed, 0),
    ] {
        let before = m.get(key).unwrap();
        let r = m.verify(key).unwrap();
        assert_eq!(r.status, status);
        assert_eq!(r.verify_attempts, attempts);
        assert_eq!(r.updated_at, before.updated_at);
    }
    assert_eq!(m.calls.len(), 5);
}

#[test]
fn a_transport_error_is_recorded() {
    let mut m = Machine::new(vec![Err("connection refused".into())]);
    let r = m.submit("k", action()).unwrap();
    assert_eq!(r.status, Status::Failed);
    assert_eq!(r.reason.as_deref(), Some("transport: connection refused"));
    let effect = r.effect.unwrap();
    assert_eq!((effect.code, effect.body_len), (0, 0));
    assert_eq!(
        effect.body_sha256,
        "e3b0c44298fc1c149afbf4c8996fb92427ae41e4649b934ca495991b7852b855"
    );
}

#[test]
fn an_unsupported_method_is_recorded_and_not_sent() {
    let mut m = Machine::new(vec![]);
    let mut a = action();
    a.method = "trace".into();
    let r = m.submit("k", a).unwrap();
    assert_eq!(r.status, Status::Failed);
    assert_eq!(r.reason.as_deref(), Some("unsupported method \"TRACE\""));
    assert!(m.calls.is_empty());
    assert_eq!(m.puts, 1);
    assert_eq!(r.effect.unwrap().at, 1001);
}

#[test]
fn a_probe_that_cannot_be_sent_or_fails_is_unverified() {
    let mut m = Machine::new(vec![reply(200, ""), reply(200, ""), Err("timeout".into())]);
    let mut a = action();
    a.verify.method = "HEAD".into();
    m.submit("a", a).unwrap();
    let r = m.verify("a").unwrap();
    assert_eq!(r.status, Status::Unverified);
    assert_eq!(
        r.reason.as_deref(),
        Some("verification probe failed: unsupported method \"HEAD\"")
    );
    m.submit("b", action()).unwrap();
    let r = m.verify("b").unwrap();
    assert_eq!(
        r.reason.as_deref(),
        Some("verification probe failed: transport: timeout")
    );
    assert_eq!(r.verification.unwrap().error.as_deref(), Some("transport: timeout"));
}

#[test]
fn a_probe_without_a_body_is_unfavourable() {
    let expect = Expectation::default();
    let mut m = Machine::new(vec![reply(200, "x")]);
    let probe = m.submit("k", action()).unwrap().effect.unwrap();
    assert_eq!(
        judge(&expect, &probe, &None),
        Err("verification probe returned no body".to_string())
    );
    assert_eq!(judge(&expect, &probe, &Some(vec![])), Ok(()));
}

#[test]
fn a_body_that_is_not_utf8_is_read_lossily() {
    let mut m = Machine::new(vec![reply(200, "x")]);
    let probe = m.submit("k", action()).unwrap().effect.unwrap();
    let expect = Expectation {
        status: None,
        body_contains: vec!["a\u{fffd}b".into()],
        body_absent: vec![],
    };
    assert_eq!(judge(&expect, &probe, &Some(vec![b'a', 0xff, b'b'])), Ok(()));
}

#[test]
fn requests_are_refused_in_words() {
    let done = |state: Submit| match state {
        Submit::Done { result } => result.map(|_| ()).unwrap_err(),
        _ => panic!("not refused"),
    };
    assert_eq!(done(submit_action(Input::Missing)), "submit-action: missing input");
    assert_eq!(
        done(submit_action(Input::Malformed("eof".into()))),
        "submit-action: bad input: eof"
    );
    let mut m = Machine::new(vec![]);
    assert_eq!(
        m.submit("", action()).map(|_| ()).unwrap_err(),
        "submit-action: idempotency_key must not be empty"
    );
    assert_eq!(
        m.verify("x").map(|_| ()).unwrap_err(),
        "verify-action: no record for x"
    );
    assert_eq!(m.get("x").map(|_| ()).unwrap_err(), "get-record: no record for x");
    match verify_action(Input::Missing) {
        Verify::Done { result } => {
            assert_eq!(result.map(|_| ()).unwrap_err(), "verify-action: missing input")
        }
        _ => panic!("not refused"),
    }
    match verify_action(Input::Malformed("eof".into())) {
        Verify::Done { result } => {
            assert_eq!(result.map(|_| ()).unwrap_err(), "verify-action: bad input: eof")
        }
        _ => panic!("not refused"),
    }
    match get_record(Input::Missing) {
        GetRecord::Done { result } => {
            assert_eq!(result.map(|_| ()).unwrap_err(), "get-record: missing input")
        }
        _ => panic!("not refused"),
    }
    match get_record(Input::Malformed("eof".into())) {
        GetRecord::Done { result } => {
            assert_eq!(result.map(|_| ()).unwrap_err(), "get-record: bad input: eof")
        }
        _ => panic!("not refused"),
    }
    match list_records(Input::Malformed("eof".into())) {
        ListRecords::Done { result } => {
            assert_eq!(result.map(|_| ()).unwrap_err(), "list-records: bad input: eof")
        }
        _ => panic!("not refused"),
    }
    match list_records(Input::Missing).resume(HostEvent::Scanned(Err("denied".into()))) {
        ListRecords::Done { result } => {
            assert_eq!(result.map(|_| ()).unwrap_err(), "kv scan: denied")
        }
        _ => panic!("not refused"),
    }
}

#[test]
fn store_failures_are_told_apart() {
    assert!(load("k", Fetched::Absent).unwrap().is_none());
    assert_eq!(
        load("k", Fetched::Unreadable("denied".into())).map(|_| ()).unwrap_err(),
        "kv get: denied"
    );
    assert_eq!(
        load("k", Fetched::Corrupt("eof".into())).map(|_| ()).unwrap_err(),
        "ledger entry k is corrupt: eof"
    );
    assert_eq!(store(Stored::Written), Ok(()));
    assert_eq!(
        store(Stored::NotSerialized("x".into())),
        Err("serialize record: x".to_string())
    );
    assert_eq!(store(Stored::Refused("full".into())), Err("kv put: full".to_string()));
}

#[test]
fn a_digest_that_cannot_be_anchored_fails_the_submission() {
    let mut m = Machine::new(vec![reply(200, "ok")]);
    let record = m.submit("k", action()).unwrap();
    let digest = record.claims_digest();
    let state = Submit::Anchor { record, digest };
    match state.resume(HostEvent::Anchored(Err("no leaf".into()))) {
        Submit::Done { result } => {
            assert_eq!(result.map(|_| ()).unwrap_err(), "set claims digest: no leaf")
        }
        _ => panic!("not done"),
    }
}

#[test]
fn the_index_never_fails_an_action() {
    let mut m = Machine::new(vec![reply(200, "ok")]);
    m.index_errors = true;
    assert_eq!(m.submit("k", action()).unwrap().status, Status::PendingVerification);
    assert_eq!(m.index, None);
}

#[test]
fn map_names_hold_the_tenant_in_hex() {
    assert_eq!(map_name(&[0x99, 0x46, 0x0f]), "z:99460f:actions");
    assert_eq!(map_name(&[]), "z::actions");
}

fn filled() -> Machine {
    let mut m = Machine::new(vec![
        reply(200, "1"),
        reply(200, "2"),
        reply(200, "3"),
        reply(200, "4"),
    ]);
    for key in ["d", "b", "a", "c"] {
        m.submit(key, action()).unwrap();
    }
    m
}

fn keys(response: &ListResponse) -> Vec<String> {
    response.records.iter().map(|r| r.idempotency_key.clone()).collect()
}

fn request(start: Option<&str>, end: Option<&str>, limit: Option<u32>) -> ListRequest {
    ListRequest {
        start: start.map(|s| s.to_string()),
        end: end.map(|s| s.to_string()),
        limit,
    }
}

#[test]
fn listing_reads_every_record_in_order() {
    let m = filled();
    let r = m.list(request(None, None, Some(0)), false).unwrap();
    assert_eq!(keys(&r), ["a", "b", "c", "d"]);
    assert_eq!(r.next_start, None);
    assert_eq!(r.source, "scan");
    assert_eq!(r.diagnostics.scanned, 5);
    assert_eq!(r.diagnostics.scanned_keys, ["__index", "a", "b", "c", "d"]);
    assert_eq!(r.diagnostics.scanned_value_lens, [7, 13, 13, 13, 13]);
    assert_eq!(r.diagnostics.scanned_value_head.as_deref(), Some("T3VR envelope"));
}

#[test]
fn listing_honours_its_bounds() {
    let m = filled();
    let r = m.list(request(Some("b"), Some("d"), None), false).unwrap();
    assert_eq!(keys(&r), ["b", "c"]);
    assert_eq!(r.next_start, None);
}

#[test]
fn a_scan_that_hits_the_limit_names_the_next_start() {
    let m = filled();
    let first = m.list(request(Some("a"), None, Some(3)), false).unwrap();
    assert_eq!(keys(&first), ["a", "b", "c"]);
    assert_eq!(first.next_start.as_deref(), Some("c\0"));
    let last = m.list(request(Some("c\0"), None, Some(3)), false).unwrap();
    assert_eq!(keys(&last), ["d"]);
    assert_eq!(last.next_start, None);
}

#[test]
fn a_scan_that_gave_bookkeeping_alone_names_the_next_start() {
    let m = filled();
    let r = m.list(request(None, None, Some(1)), false).unwrap();
    assert!(r.records.is_empty());
    assert_eq!(r.diagnostics.scanned_keys, ["__index"]);
    assert_eq!(r.next_start.as_deref(), Some("__index\0"));
    let state = list_records(Input::Parsed(request(None, None, Some(1))));
    let state = state.resume(HostEvent::Scanned(Ok(vec![(b"__index".to_vec(), vec![])])));
    match state.resume(HostEvent::IndexRead(Err("denied".into()))) {
        ListRecords::Done { result } => {
            let r = result.unwrap();
            assert_eq!(r.next_start.as_deref(), Some("__index\0"));
            assert_eq!(r.source, "index");
        }
        _ => panic!("not done"),
    }
}

fn walk(m: &Machine, limit: u32, blind: bool) -> Vec<String> {
    let mut start = Some(String::new());
    let mut seen = Vec::new();
    let mut pages = 0;
    while let Some(from) = start {
        let r = m.list(request(Some(&from), None, Some(limit)), blind).unwrap();
        seen.extend(keys(&r));
        start = r.next_start;
        pages += 1;
        assert!(pages < 20);
    }
    seen
}

#[test]
fn a_full_walk_lists_each_record_once() {
    let mut m = filled();
    for limit in 1..7 {
        assert_eq!(walk(&m, limit, false), ["a", "b", "c", "d"]);
        assert_eq!(walk(&m, limit, true), ["a", "b", "c", "d"]);
    }
    m.index = Some(b"b\nghost".to_vec());
    for limit in 1..7 {
        assert_eq!(walk(&m, limit, false), ["a", "b", "c", "d"]);
        assert_eq!(walk(&m, limit, true), ["b"]);
    }
    m.index = None;
    for limit in 1..7 {
        assert_eq!(walk(&m, limit, false), ["a", "b", "c", "d"]);
        assert!(walk(&m, limit, true).is_empty());
    }
}

#[test]
fn rows_that_came_out_of_order_are_all_listed() {
    let state = list_records(Input::Parsed(request(None, None, Some(2))));
    let rows = vec![(b"b".to_vec(), vec![]), (b"a".to_vec(), vec![])];
    match state.resume(HostEvent::Scanned(Ok(rows))) {
        ListRecords::Fetch { page, .. } => {
            assert_eq!(page.keys, ["a", "b"]);
            assert_eq!(page.next_start.as_deref(), Some("b\0"));
        }
        _ => panic!("no page"),
    }
}

#[test]
fn listing_falls_back_to_the_index() {
    let m = filled();
    assert_eq!(m.index, Some(b"d\nb\na\nc".to_vec()));
    let r = m.list(request(None, None, None), true).unwrap();
    assert_eq!(keys(&r), ["a", "b", "c", "d"]);
    assert_eq!(r.source, "index");
    assert_eq!(r.diagnostics.scanned, 0);
    assert_eq!(r.diagnostics.scanned_value_head, None);
    let r = m.list(request(Some("b"), None, Some(2)), true).unwrap();
    assert_eq!(keys(&r), ["b", "c"]);
    assert_eq!(r.next_start.as_deref(), Some("c\0"));
}

#[test]
fn listing_passes_over_keys_without_a_record() {
    let mut m = filled();
    m.index = Some(b"b\nghost\na".to_vec());
    let r = m.list(request(None, None, None), true).unwrap();
    assert_eq!(keys(&r), ["a", "b"]);
}

#[test]
fn an_open_range_holds_every_key() {
    let mut m = Machine::new(vec![reply(200, "1"), reply(200, "2"), reply(200, "3")]);
    for key in ["\u{1f600}", "\u{fffc}", "\u{e9}"] {
        m.submit(key, action()).unwrap();
    }
    let r = m.list(ListRequest::default(), false).unwrap();
    assert_eq!(keys(&r), ["\u{e9}", "\u{fffc}", "\u{1f600}"]);
    assert_eq!(r.diagnostics.scanned, 4);
    let r = m.list(ListRequest::default(), true).unwrap();
    assert_eq!(keys(&r), ["\u{e9}", "\u{fffc}", "\u{1f600}"]);
    let r = m.list(request(None, Some("\u{fffd}"), None), true).unwrap();
    assert_eq!(keys(&r), ["\u{e9}", "\u{fffc}"]);
}

#[test]
fn bookkeeping_is_not_listed() {
    let mut m = Machine::new(vec![reply(200, "1"), reply(200, "2")]);
    m.submit("__hidden", action()).unwrap();
    m.submit("shown", action()).unwrap();
    let r = m.list(ListRequest::default(), false).unwrap();
    assert_eq!(keys(&r), ["shown"]);
    assert_eq!(m.get("__hidden").unwrap().idempotency_key, "__hidden");
}

#[test]
fn an_empty_ledger_lists_nothing() {
    let m = Machine::new(vec![]);
    let r = m.list(ListRequest::default(), false).unwrap();
    assert!(r.records.is_empty());
    assert_eq!(r.source, "index");
    assert_eq!(r.next_start, None);
}

#[test]
fn a_request_without_bounds_asks_for_everything() {
    let q = ListRequest::default().query();
    assert_eq!((q.start.as_str(), q.end, q.limit), ("", vec![0xff], 100));
    let q = request(Some("a"), Some("b\u{e9}"), Some(7)).query();
    assert_eq!((q.start.as_str(), q.end, q.limit), ("a", vec![b'b', 0xc3, 0xa9], 7));
}

#[test]
fn long_values_are_shown_in_part() {
    let rows = vec![
        (b"__x".to_vec(), vec![b'x'; 3]),
        (b"k".to_vec(), vec![b'y'; 200]),
    ];
    let state = list_records(Input::Missing).resume(HostEvent::Scanned(Ok(rows)));
    match state {
        ListRecords::Fetch { page, position, response } => {
            assert_eq!(page.keys, ["k"]);
            assert_eq!(position, 0);
            assert_eq!(response.diagnostics.scanned_value_head.unwrap(), "y".repeat(160));
            assert_eq!(response.diagnostics.scanned_value_lens, [3, 200]);
        }
        _ => panic!("no page"),
    }
}
