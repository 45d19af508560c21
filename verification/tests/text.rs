use verified_actions::index::{
    append_key, index_append, index_entries, index_load, join_keys, IndexUpdate, INDEX_MAX,
};
use verified_actions::list::{drop_internal, is_internal, make_page};
use verified_actions::text::{
    at_most, bytes_at_most, decimal_text, next_text, prefixed, same_text, sort_keys, split_lines,
};
use verified_actions::transport::{failed_attempt, perform, prepare, verb, CallOutcome, Verb};

fn strings(items: &[&str]) -> Vec<String> {
    items.iter().map(|s| s.to_string()).collect()
}

#[test]
fn numbers_are_written_in_decimal() {
    assert_eq!(decimal_text(0), "0");
    assert_eq!(decimal_text(9), "9");
    assert_eq!(decimal_text(10), "10");
    assert_eq!(decimal_text(890), "890");
    assert_eq!(decimal_text(u64::MAX), u64::MAX.to_string());
}

#[test]
fn lines_end_at_line_feeds() {
    for text in ["", "a", "a\n", "\n", "a\r\nb", "a\r\r\n", "a\rb\n\r", "\r\n\n\u{e9}\r", "a\n\nb"] {
        assert_eq!(split_lines(text), text.lines().collect::<Vec<_>>());
    }
}

#[test]
fn keys_are_ordered_by_their_bytes() {
    let words = ["", "a", "b", "aa", "B", "\u{e9}", "\u{fffd}", "\u{1f600}", "a\u{0}", "_"];
    for a in words {
        for b in words {
            assert_eq!(at_most(a, b), a <= b);
            assert_eq!(same_text(a, b), a == b);
            assert_eq!(bytes_at_most(a.as_bytes(), b.as_bytes()), a <= b);
            assert_eq!(next_text(a).as_str() <= b, a < b);
        }
        assert!(!bytes_at_most(&[0xff], a.as_bytes()));
    }
    assert_eq!(next_text("a"), "a\0");
    let mut sorted = strings(&words);
    sorted.push("a".into());
    let given = sorted.clone();
    sorted.sort();
    assert_eq!(sort_keys(&given), sorted);
}

#[test]
fn texts_are_prefixed() {
    assert_eq!(prefixed("kv get: ", "denied"), "kv get: denied");
}

#[test]
fn an_index_holds_a_key_to_a_line() {
    let keys = strings(&["b", "a", "c d"]);
    assert_eq!(join_keys(&keys), "b\na\nc d");
    assert_eq!(join_keys(&vec![]), "");
    assert_eq!(index_entries("b\n\na\nc d\n"), keys);
    assert_eq!(index_load(&Ok(Some(b"b\na\nc d".to_vec()))), keys);
    assert!(index_load(&Ok(None)).is_empty());
    assert!(index_load(&Err("denied".into())).is_empty());
    assert_eq!(index_load(&Ok(Some(vec![b'a', 0xff]))), strings(&["a\u{fffd}"]));
}

#[test]
fn appending_writes_what_is_read_back() {
    let stored = Ok(Some("a\n\u{e9}".as_bytes().to_vec()));
    match index_append(&stored, "c") {
        IndexUpdate::Write(index) => {
            assert_eq!(index, "a\n\u{e9}\nc");
            let back = index_load(&Ok(Some(index.into_bytes())));
            assert_eq!(back, strings(&["a", "\u{e9}", "c"]));
        }
        _ => panic!("not written"),
    }
    assert!(matches!(index_append(&stored, "\u{e9}"), IndexUpdate::Listed));
    assert!(matches!(
        index_append(&Err("denied".into()), "k"),
        IndexUpdate::Write(index) if index == "k"
    ));
}

#[test]
fn lines_do_not_keep_every_key_apart() {
    assert_eq!(index_entries(&join_keys(&strings(&["a\nb"]))), strings(&["a", "b"]));
    assert_eq!(index_entries(&join_keys(&strings(&["a\r", "b"]))), strings(&["a", "b"]));
    assert_eq!(index_entries(&join_keys(&strings(&["a", "b\r"]))), strings(&["a", "b\r"]));
    assert_eq!(index_entries(&join_keys(&strings(&["a", ""]))), strings(&["a"]));
}

#[test]
fn a_full_index_takes_no_more_keys() {
    let full: Vec<String> = (0..INDEX_MAX).map(|i| i.to_string()).collect();
    assert!(matches!(append_key(full.clone(), "17"), IndexUpdate::Listed));
    assert!(matches!(append_key(full.clone(), "new"), IndexUpdate::Full));
    let mut room = full;
    room.pop();
    assert!(matches!(append_key(room, "new"), IndexUpdate::Write(_)));
}

#[test]
fn bookkeeping_keys_are_told_by_their_prefix() {
    assert!(is_internal("__index"));
    assert!(is_internal("__"));
    assert!(!is_internal("_"));
    assert!(!is_internal("_a_"));
    assert!(!is_internal("a__"));
    assert!(!is_internal(""));
    assert_eq!(drop_internal(&strings(&["a", "__index", "_b"])), strings(&["a", "_b"]));
}

#[test]
fn a_page_is_ordered_bounded_and_cut() {
    let keys = strings(&["d", "a", "c", "b", "e"]);
    let page = make_page(&keys, "b", b"e", 2, &None);
    assert_eq!(page.keys, strings(&["b", "c"]));
    assert_eq!(page.next_start.as_deref(), Some("c\0"));
    let page = make_page(&keys, "b", b"e", 3, &None);
    assert_eq!(page.keys, strings(&["b", "c", "d"]));
    assert_eq!(page.next_start, None);
    let page = make_page(&keys, "b", b"e", 5, &Some("d".to_string()));
    assert_eq!(page.keys, strings(&["b", "c", "d"]));
    assert_eq!(page.next_start.as_deref(), Some("d\0"));
    let page = make_page(&keys, "b", b"e", 1, &Some("b".to_string()));
    assert_eq!(page.keys, strings(&["b"]));
    assert_eq!(page.next_start.as_deref(), Some("b\0"));
    let page = make_page(&keys, "x", b"y", 1, &None);
    assert!(page.keys.is_empty());
    assert_eq!(page.next_start, None);
    let page = make_page(&keys, "a", &[0xff], 0, &None);
    assert!(page.keys.is_empty());
    assert_eq!(page.next_start, None);
}

#[test]
fn methods_are_read_in_any_case() {
    assert_eq!(verb("get"), Ok(Verb::Get));
    assert_eq!(verb("Post"), Ok(Verb::Post));
    assert_eq!(verb("PUT"), Ok(Verb::Put));
    assert_eq!(verb("pAtCh"), Ok(Verb::Patch));
    assert_eq!(verb("delete"), Ok(Verb::Delete));
    assert_eq!(verb("head"), Err("unsupported method \"HEAD\"".to_string()));
    assert_eq!(verb(""), Err("unsupported method \"\"".to_string()));
    assert_eq!(verb("\u{e9}t\n"), Err("unsupported method \"\u{e9}T\\n\"".to_string()));
}

#[test]
fn a_request_is_what_was_asked_for() {
    let headers = vec![("a".to_string(), "b".to_string())];
    let request = prepare("put", "u", &headers, &Some("x".to_string())).unwrap();
    assert_eq!(request.method, Verb::Put);
    assert_eq!(request.url, "u");
    assert_eq!(request.headers, headers);
    assert_eq!(request.payload, Some(b"x".to_vec()));
    let request = prepare("get", "u", &vec![], &None).unwrap();
    assert_eq!(request.payload, None);
    assert!(prepare("?", "u", &vec![], &None).is_err());
}

#[test]
fn failed_calls_leave_an_attempt_without_a_body() {
    let a = failed_attempt(7, "why".into());
    assert_eq!((a.at, a.code, a.body_len, a.error.as_deref()), (7, 0, 0, Some("why")));
    let (a, body) = perform(8, CallOutcome::TransportError("reset".into()));
    assert_eq!(a.error.as_deref(), Some("transport: reset"));
    assert!(body.is_none());
    let (a, body) = perform(8, CallOutcome::NotSent("no".into()));
    assert_eq!(a.error.as_deref(), Some("no"));
    assert!(body.is_none());
}
