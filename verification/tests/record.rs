use verified_actions::record::{
    body_print, sha256_hex, ActionSpec, Attempt, Expectation, Mismatch, Record, Status, VerifySpec,
};

fn spec() -> ActionSpec {
    ActionSpec {
        method: "POST".into(),
        url: "https://example.test/send".into(),
        headers: vec![],
        body: None,
        verify: VerifySpec {
            method: "GET".into(),
            url: "https://example.test/sent".into(),
            headers: vec![],
            body: None,
            expect: Expectation {
                status: Some(200),
                body_contains: vec!["message-id-abc".into()],
                body_absent: vec!["auto-saved-draft".into()],
            },
        },
    }
}

fn attempt(code: u16, body: &str) -> Attempt {
    Attempt {
        at: 100,
        code,
        body_sha256: sha256_hex(body.as_bytes()),
        body_len: body.len(),
        error: None,
    }
}

#[test]
fn a_successful_transport_is_never_confirmed() {
    let r = Record::submitted("k1".into(), spec(), attempt(200, "{\"ok\":true}"), 1, 1, 7);
    assert_eq!(r.status, Status::PendingVerification);
    assert!(!r.status.is_terminal());
}

#[test]
fn transport_error_is_failed_not_unverified() {
    let mut a = attempt(0, "");
    a.error = Some("connection refused".into());
    let r = Record::submitted("k2".into(), spec(), a, 1, 1, 7);
    assert_eq!(r.status, Status::Failed);
}

#[test]
fn independent_probe_confirms() {
    let mut r = Record::submitted("k3".into(), spec(), attempt(200, "ok"), 1, 1, 7);
    let body = "{\"id\":\"message-id-abc\"}";
    let verdict = r.action.verify.expect.evaluate(200, body);
    r.settle(attempt(200, body), verdict, 2);
    assert_eq!(r.status, Status::Confirmed);
}

/// The artefact exists, but it is a draft, not a sent message. Presence alone would have
/// confirmed a lie.
#[test]
fn presence_of_a_draft_marker_blocks_confirmation() {
    let mut r = Record::submitted("k4".into(), spec(), attempt(200, "ok"), 1, 1, 7);
    let body = "{\"id\":\"message-id-abc\",\"flags\":[\"auto-saved-draft\"]}";
    let verdict = r.action.verify.expect.evaluate(200, body);
    r.settle(attempt(200, body), verdict, 2);
    assert_eq!(r.status, Status::Unverified);
    assert!(r.reason.unwrap().contains("auto-saved-draft"));
}

#[test]
fn missing_evidence_is_unverified() {
    let mut r = Record::submitted("k5".into(), spec(), attempt(200, "ok"), 1, 1, 7);
    let body = "{\"messages\":[]}";
    let verdict = r.action.verify.expect.evaluate(200, body);
    r.settle(attempt(200, body), verdict, 2);
    assert_eq!(r.status, Status::Unverified);
}

#[test]
fn digest_changes_when_status_changes() {
    let mut r = Record::submitted("k6".into(), spec(), attempt(200, "ok"), 1, 1, 7);
    let before = r.claims_digest();
    r.settle(attempt(200, "message-id-abc"), Ok(()), 2);
    assert_ne!(before, r.claims_digest());
}

#[test]
fn digest_is_stable_for_an_unchanged_record() {
    let r = Record::submitted("k7".into(), spec(), attempt(200, "ok"), 1, 1, 7);
    assert_eq!(r.claims_digest(), r.claims_digest());
}

#[test]
fn every_status_but_pending_is_terminal() {
    assert!(!Status::PendingVerification.is_terminal());
    assert!(Status::Confirmed.is_terminal());
    assert!(Status::Unverified.is_terminal());
    assert!(Status::Failed.is_terminal());
    assert_eq!(Status::PendingVerification.name(), "PendingVerification");
    assert_eq!(Status::Failed.name(), format!("{:?}", Status::Failed));
}

#[test]
fn sha256_hex_of_known_inputs() {
    assert_eq!(
        sha256_hex(b""),
        "e3b0c44298fc1c149afbf4c8996fb92427ae41e4649b934ca495991b7852b855"
    );
    assert_eq!(
        sha256_hex(b"abc"),
        "ba7816bf8f01cfea414140de5dae2223b00361a396177a9cb410ff61f20015ad"
    );
}

#[test]
fn evaluation_names_the_first_failed_clause() {
    let expect = Expectation {
        status: Some(200),
        body_contains: vec!["INV-1042".into(), "\"state\": \"delivered\"".into()],
        body_absent: vec!["queued".into(), "failed".into()],
    };
    let good = "INV-1042 \"state\": \"delivered\"";
    assert_eq!(expect.evaluate(200, good), Ok(()));
    assert_eq!(expect.evaluate(404, ""), Err("expected HTTP 200, observed 404".into()));
    assert_eq!(
        expect.evaluate(200, ""),
        Err("expected response to contain \"INV-1042\"".into())
    );
    assert_eq!(
        expect.evaluate(200, "INV-1042 queued"),
        Err("expected response to contain \"\\\"state\\\": \\\"delivered\\\"\"".into())
    );
    assert_eq!(
        expect.evaluate(200, "INV-1042 \"state\": \"delivered\" failed"),
        Err("expected response NOT to contain \"failed\"".into())
    );
    assert_eq!(
        expect.first_mismatch(200, "INV-1042"),
        Some(Mismatch::Missing { index: 1 })
    );
    assert_eq!(
        expect.first_mismatch(200, "INV-1042 \"state\": \"delivered\" failed queued"),
        Some(Mismatch::Present { index: 0 })
    );
    assert_eq!(
        expect.first_mismatch(500, good),
        Some(Mismatch::Code { want: 200, observed: 500 })
    );
    assert_eq!(
        Mismatch::Missing { index: 1 }.reason("'x'"),
        "expected response to contain 'x'"
    );
}

#[test]
fn a_reason_quotes_the_text_that_it_names() {
    for text in ["plain", "", "a \"b\" \\ 'c' ~!", "tab\there", "\u{e9}\u{1f600}", "\u{7f}"] {
        let expect = Expectation {
            status: None,
            body_contains: vec![text.into(), "never there".into()],
            body_absent: vec![],
        };
        let missing = if text.is_empty() { "never there" } else { text };
        assert_eq!(
            expect.evaluate(200, ""),
            Err(format!("expected response to contain {:?}", missing))
        );
    }
    let expect = Expectation {
        status: None,
        body_contains: vec!["a \"b\" \\ 'c'".into()],
        body_absent: vec![],
    };
    assert_eq!(
        expect.evaluate(200, ""),
        Err("expected response to contain \"a \\\"b\\\" \\\\ 'c'\"".into())
    );
}

#[test]
fn an_expectation_without_clauses_is_always_met() {
    let expect = Expectation::default();
    assert_eq!(expect.evaluate(0, ""), Ok(()));
    assert_eq!(expect.evaluate(500, "anything"), Ok(()));
}

#[test]
fn the_empty_text_occurs_everywhere() {
    let wanted = Expectation {
        status: None,
        body_contains: vec!["".into()],
        body_absent: vec![],
    };
    assert_eq!(wanted.evaluate(200, ""), Ok(()));
    let unwanted = Expectation {
        status: None,
        body_contains: vec![],
        body_absent: vec!["".into()],
    };
    assert_eq!(unwanted.first_mismatch(200, "x"), Some(Mismatch::Present { index: 0 }));
}

#[test]
fn a_submitted_record_holds_what_was_given() {
    let r = Record::submitted("key".into(), spec(), attempt(202, "queued"), 11, 12, 13);
    assert_eq!(r.idempotency_key, "key");
    assert_eq!(r.action.url, "https://example.test/send");
    assert_eq!(r.effect.as_ref().unwrap().code, 202);
    assert!(r.verification.is_none());
    assert_eq!(
        r.reason.as_deref(),
        Some("transport accepted the request; not yet independently verified")
    );
    assert_eq!((r.created_at, r.updated_at, r.seq_no, r.contract_id), (11, 11, 12, 13));
    assert_eq!(r.verify_attempts, 0);

    let mut a = attempt(0, "");
    a.error = Some("connection refused".into());
    let r = Record::submitted("key".into(), spec(), a, 1, 1, 7);
    assert_eq!(r.reason.as_deref(), Some("connection refused"));
}

#[test]
fn settling_changes_the_outcome_only() {
    let mut r = Record::submitted("key".into(), spec(), attempt(200, "ok"), 1, 2, 3);
    r.settle(attempt(404, "nothing"), Err("why".into()), 9);
    assert_eq!(r.status, Status::Unverified);
    assert_eq!(r.reason.as_deref(), Some("why"));
    assert_eq!(r.verification.as_ref().unwrap().code, 404);
    assert_eq!(r.effect.as_ref().unwrap().code, 200);
    assert_eq!((r.created_at, r.updated_at, r.seq_no, r.contract_id), (1, 9, 2, 3));
    assert_eq!(r.verify_attempts, 1);

    let mut r = Record::submitted("key".into(), spec(), attempt(200, "ok"), 1, 2, 3);
    r.settle(attempt(200, "x"), Ok(()), 9);
    assert_eq!(r.reason.as_deref(), Some("independently verified against external state"));
}

#[test]
fn a_terminal_record_is_never_settled_again() {
    for (first, status) in [
        (Ok(()), Status::Confirmed),
        (Err("why".to_string()), Status::Unverified),
    ] {
        let mut r = Record::submitted("key".into(), spec(), attempt(200, "ok"), 1, 2, 3);
        r.settle(attempt(200, "x"), first, 9);
        let before = r.claims_text();
        r.verify_attempts = u32::MAX;
        r.settle(attempt(500, "y"), Ok(()), 10);
        r.settle(attempt(500, "y"), Err("other".into()), 10);
        assert_eq!(r.status, status);
        assert_eq!(r.claims_text(), before);
        assert_eq!(r.verify_attempts, u32::MAX);
        assert_ne!(r.reason.as_deref(), Some("other"));
    }
    let mut a = attempt(0, "");
    a.error = Some("connection refused".into());
    let mut r = Record::submitted("key".into(), spec(), a, 1, 2, 3);
    r.settle(attempt(200, "x"), Ok(()), 9);
    assert_eq!(r.status, Status::Failed);
    assert!(r.verification.is_none());
}

#[test]
fn a_reserved_record_has_no_effect() {
    let mut action = spec();
    action.body = Some("payload".into());
    let r = Record::reserved("key".into(), action, 11, 12, 13);
    assert_eq!(r.status, Status::PendingVerification);
    assert!(r.effect.is_none());
    assert_eq!((r.created_at, r.updated_at, r.seq_no, r.contract_id), (11, 11, 12, 13));
    assert_eq!(
        r.claims_text(),
        "t3n-verified-actions/v1\nkey\nPendingVerification\nPOST https://example.test/send\n11:11:12"
    );
    assert_eq!(r.action.body.as_deref(), Some("payload"));
    let digest = r.claims_digest();
    assert!(r.request_body.is_none());
    let r = r.without_body();
    assert!(r.action.body.is_none());
    let print = r.request_body.as_ref().unwrap();
    assert_eq!((print.sha256.clone(), print.len), (sha256_hex(b"payload"), 7));
    assert_eq!(r.claims_digest(), digest);
    assert_eq!(r.action.url, "https://example.test/send");
    let r = r.without_body();
    assert_eq!(r.request_body.as_ref().unwrap().len, 7);
    assert!(body_print(&None).is_none());
    assert_eq!(body_print(&Some("\u{e9}".into())).unwrap().len, 2);
    assert_eq!(r.action.without_body().verify.url, "https://example.test/sent");
}

#[test]
fn claims_text_is_canonical() {
    let mut r = Record::submitted("key".into(), spec(), attempt(200, "abc"), 10, 20, 7);
    let abc = "ba7816bf8f01cfea414140de5dae2223b00361a396177a9cb410ff61f20015ad";
    assert_eq!(
        r.claims_text(),
        format!(
            "t3n-verified-actions/v1\nkey\nPendingVerification\nPOST https://example.test/send\n100:200:{}\n10:10:20",
            abc
        )
    );
    r.settle(attempt(404, "abc"), Ok(()), 0);
    assert_eq!(
        r.claims_text(),
        format!(
            "t3n-verified-actions/v1\nkey\nConfirmed\nPOST https://example.test/send\n100:200:{}\n100:404:{}\n10:0:20",
            abc, abc
        )
    );
}

#[test]
fn digest_ignores_the_fields_it_does_not_cover() {
    let r = Record::submitted("key".into(), spec(), attempt(200, "ok"), 1, 2, 3);
    let mut other = r.clone();
    other.reason = None;
    other.contract_id = 99;
    other.verify_attempts = 4;
    other.action.body = Some("payload".into());
    assert_eq!(r.claims_digest(), other.claims_digest());
    other.seq_no = 3;
    assert_ne!(r.claims_digest(), other.claims_digest());
}

#[test]
fn digest_is_the_sha256_of_the_claims_text() {
    let r = Record::submitted("schl\u{fc}ssel".into(), spec(), attempt(200, "ok"), 1, 2, 3);
    let hex: String = r.claims_digest().iter().map(|b| format!("{:02x}", b)).collect();
    assert_eq!(hex, sha256_hex(r.claims_text().as_bytes()));
}
