//! `list-records`: reads a range of the ledger, page by page.
//!
//! There is no host-side cursor: a full walk calls again with `start` set to the
//! `next_start` that came back.

use crate::host::{Fetched, FetchedView, HostEvent, HostEventView, Input, InputView};
use crate::index;
use crate::record::{Record, RecordView};
use crate::text;
use crate::walk;
use vstd::prelude::*;
use vstd::seq_lib::*;
use vstd::slice::*;
use vstd::string::*;
use vstd::utf8::*;

verus! {

/// Cap on a scan for which the caller names none. The host bills a budget per scan and
/// rejects a limit of zero.
pub const DEFAULT_SCAN_LIMIT: u32 = 100;

/// How many of the scanned rows a response shows.
pub const SHOWN_ROWS: usize = 10;

/// How many bytes of a scanned value a response shows.
pub const SHOWN_BYTES: usize = 160;

// ---------------------------------------------------------------------------
// Requests
// ---------------------------------------------------------------------------

/// A request for a range of the ledger.
#[derive(Debug, Clone)]
pub struct ListRequest {
    pub start: Option<String>,
    pub end: Option<String>,
    pub limit: Option<u32>,
}

#[verifier::ext_equal]
pub struct ListRequestView {
    pub start: Option<Seq<char>>,
    pub end: Option<Seq<char>>,
    pub limit: Option<u32>,
}

impl View for ListRequest {
    type V = ListRequestView;

    open spec fn view(&self) -> ListRequestView {
        ListRequestView {
            start: self.start.deep_view(),
            end: self.end.deep_view(),
            limit: self.limit,
        }
    }
}

impl Default for ListRequest {
    /// A request that names no bounds.
    fn default() -> (r: Self)
        ensures
            r@ == (ListRequestView { start: None, end: None, limit: None }),
    {
        ListRequest { start: None, end: None, limit: None }
    }
}

/// The bounds of a scan: keys from `start` on and before `end`, at most `limit` of them.
#[derive(Debug, Clone)]
pub struct Query {
    pub start: String,
    pub end: Vec<u8>,
    pub limit: u32,
}

#[verifier::ext_equal]
pub struct QueryView {
    pub start: Seq<char>,
    pub end: Seq<u8>,
    pub limit: u32,
}

impl View for Query {
    type V = QueryView;

    open spec fn view(&self) -> QueryView {
        QueryView { start: self.start@, end: self.end@, limit: self.limit }
    }
}

impl ListRequestView {
    /// The bounds that a request asks for. Without an `end` the range is open: `0xff`
    /// stands in no encoded text and sorts after all of them.
    pub open spec fn query(self) -> QueryView {
        QueryView {
            start: match self.start {
                Some(start) => start,
                None => seq![],
            },
            end: match self.end {
                Some(end) => encode_utf8(end),
                None => seq![0xffu8],
            },
            limit: match self.limit {
                Some(limit) => if limit > 0 {
                    limit
                } else {
                    DEFAULT_SCAN_LIMIT
                },
                None => DEFAULT_SCAN_LIMIT,
            },
        }
    }
}

impl ListRequest {
    /// The bounds that this request asks for.
    pub fn query(self) -> (r: Query)
        ensures
            r@ == self@.query(),
            r.limit > 0,
            self.start is Some ==> r.start@ == self.start->0@,
            self.start is None ==> r.start@ == Seq::<char>::empty(),
            self.end is Some ==> r.end@ == encode_utf8(self.end->0@),
            self.end is None ==> r.end@ == seq![0xffu8],
            self.limit is Some && self.limit->0 > 0 ==> r.limit == self.limit->0,
            self.limit is None || self.limit->0 == 0 ==> r.limit == 100,
    {
        let start = match self.start {
            Some(start) => start,
            None => String::new(),
        };
        let end: Vec<u8> = match self.end {
            Some(end) => end.as_str().as_bytes_vec(),
            None => {
                let mut open: Vec<u8> = Vec::new();
                open.push(0xff);
                assert(open@ =~= seq![0xffu8]);
                open
            },
        };
        let limit: u32 = match self.limit {
            Some(limit) => if limit > 0 {
                limit
            } else {
                DEFAULT_SCAN_LIMIT
            },
            None => DEFAULT_SCAN_LIMIT,
        };
        Query { start, end, limit }
    }
}

// ---------------------------------------------------------------------------
// Keys
// ---------------------------------------------------------------------------

/// A key of the ledger's own bookkeeping, never a record's.
pub open spec fn internal(key: Seq<char>) -> bool {
    key.len() >= 2 && key[0] == '_' && key[1] == '_'
}

/// Whether a key is of the ledger's own bookkeeping.
pub fn is_internal(key: &str) -> (r: bool)
    ensures
        r == internal(key@),
{
    let mut chars = key.chars();
    match chars.next() {
        Some(c) => {
            if c != '_' {
                return false;
            }
        },
        None => {
            return false;
        },
    }
    match chars.next() {
        Some(c) => c == '_',
        None => false,
    }
}

/// The texts of the keys of scanned rows.
pub open spec fn row_keys(rows: Seq<(Seq<u8>, Seq<u8>)>) -> Seq<Seq<char>> {
    rows.map_values(|row: (Seq<u8>, Seq<u8>)| text::decoded(row.0))
}

/// The keys that are records'.
pub open spec fn record_keys(keys: Seq<Seq<char>>) -> Seq<Seq<char>> {
    keys.filter(|key: Seq<char>| !internal(key))
}

fn texts_of_keys(rows: &Vec<(Vec<u8>, Vec<u8>)>) -> (r: Vec<String>)
    ensures
        r.deep_view() == row_keys(rows.deep_view()),
{
    let mut r: Vec<String> = Vec::new();
    for i in 0..rows.len()
        invariant
            r@.len() == i,
            forall|j: int|
                0 <= j < i ==> (#[trigger] r@[j])@ == text::decoded(rows@[j].0@),
    {
        r.push(text::decode(rows[i].0.as_slice()));
    }
    proof {
        assert forall|j: int| 0 <= j < rows@.len() implies rows.deep_view()[j].0
            == #[trigger] rows@[j].0@ by {
            assert(rows@[j].0.deep_view() =~= rows@[j].0@);
        }
        assert(r.deep_view() =~= row_keys(rows.deep_view()));
    }
    r
}

/// The keys that are records'.
pub fn drop_internal(keys: &Vec<String>) -> (r: Vec<String>)
    ensures
        r.deep_view() == record_keys(keys.deep_view()),
{
    let ghost all = keys.deep_view();
    let ghost pred = |key: Seq<char>| !internal(key);
    let mut r: Vec<String> = Vec::new();
    assert(r.deep_view() =~= all.take(0).filter(pred)) by {
        reveal(Seq::filter);
    }
    for i in 0..keys.len()
        invariant
            all == keys.deep_view(),
            pred == (|key: Seq<char>| !internal(key)),
            r.deep_view() == all.take(i as int).filter(pred),
    {
        let ghost before = r;
        proof {
            text::lemma_filter_step(all, i as int, pred);
        }
        if !is_internal(keys[i].as_str()) {
            r.push(keys[i].clone());
            proof {
                text::lemma_deep_view_push(before, r, keys@[i as int]);
            }
        }
    }
    assert(all.take(keys.len() as int) =~= all);
    r
}

// ---------------------------------------------------------------------------
// Diagnostics
// ---------------------------------------------------------------------------

/// What a scan returned, before anything is dropped from it.
#[derive(Debug, Clone)]
pub struct Diagnostics {
    /// Row count: tells "the scan returned nothing" from "it returned rows that were
    /// dropped".
    pub scanned: usize,
    /// The first keys, for diagnosing range behaviour.
    pub scanned_keys: Vec<String>,
    /// The length of the value of each of `scanned_keys`: tells "the scan omits
    /// values" from "values are there but do not parse".
    pub scanned_value_lens: Vec<usize>,
    /// The first bytes of the first value that is a record's, decoded lossily.
    pub scanned_value_head: Option<String>,
}

#[verifier::ext_equal]
pub struct DiagnosticsView {
    pub scanned: usize,
    pub scanned_keys: Seq<Seq<char>>,
    pub scanned_value_lens: Seq<usize>,
    pub scanned_value_head: Option<Seq<char>>,
}

impl View for Diagnostics {
    type V = DiagnosticsView;

    open spec fn view(&self) -> DiagnosticsView {
        DiagnosticsView {
            scanned: self.scanned,
            scanned_keys: self.scanned_keys.deep_view(),
            scanned_value_lens: self.scanned_value_lens@,
            scanned_value_head: self.scanned_value_head.deep_view(),
        }
    }
}

pub open spec fn min(a: nat, b: nat) -> nat {
    if a <= b {
        a
    } else {
        b
    }
}

/// The first `n` elements, or all of them where there are fewer.
pub open spec fn front<A>(s: Seq<A>, n: nat) -> Seq<A> {
    s.take(min(n, s.len()) as int)
}

/// The value of the first row whose key is a record's.
pub open spec fn first_record_value(
    keys: Seq<Seq<char>>,
    rows: Seq<(Seq<u8>, Seq<u8>)>,
) -> Option<Seq<u8>>
    decreases rows.len(),
{
    if rows.len() == 0 {
        None
    } else if !internal(keys[0]) {
        Some(rows[0].1)
    } else {
        first_record_value(keys.drop_first(), rows.drop_first())
    }
}

/// What is shown of scanned rows whose keys decode to `keys`.
pub open spec fn diagnostics(
    keys: Seq<Seq<char>>,
    rows: Seq<(Seq<u8>, Seq<u8>)>,
) -> DiagnosticsView {
    DiagnosticsView {
        scanned: rows.len() as usize,
        scanned_keys: front(keys, SHOWN_ROWS as nat),
        scanned_value_lens: front(rows, SHOWN_ROWS as nat).map_values(
            |row: (Seq<u8>, Seq<u8>)| row.1.len() as usize,
        ),
        scanned_value_head: match first_record_value(keys, rows) {
            Some(value) => Some(text::decoded(front(value, SHOWN_BYTES as nat))),
            None => None,
        },
    }
}

/// The text of the first bytes of the first value that is a record's.
fn value_head(keys: &Vec<String>, rows: &Vec<(Vec<u8>, Vec<u8>)>) -> (r: Option<String>)
    requires
        keys@.len() == rows@.len(),
    ensures
        r.deep_view() == diagnostics(keys.deep_view(), rows.deep_view()).scanned_value_head,
{
    let ghost all = keys.deep_view();
    let ghost data = rows.deep_view();
    assert(all.skip(0) =~= all);
    assert(data.skip(0) =~= data);
    for i in 0..rows.len()
        invariant
            all == keys.deep_view(),
            data == rows.deep_view(),
            keys@.len() == rows@.len(),
            first_record_value(all, data) == first_record_value(
                all.skip(i as int),
                data.skip(i as int),
            ),
    {
        assert(all.skip(i as int).drop_first() =~= all.skip(i + 1));
        assert(data.skip(i as int).drop_first() =~= data.skip(i + 1));
        if !is_internal(keys[i].as_str()) {
            let value = &rows[i].1;
            let shown = if value.len() < SHOWN_BYTES {
                value.len()
            } else {
                SHOWN_BYTES
            };
            assert(rows@[i as int].1.deep_view() =~= value@);
            let head = slice_subrange(value.as_slice(), 0, shown);
            assert(head@ =~= front(value@, SHOWN_BYTES as nat));
            return Some(text::decode(head));
        }
    }
    None
}

/// What is shown of scanned rows whose keys decode to `keys`.
fn diagnose(keys: &Vec<String>, rows: &Vec<(Vec<u8>, Vec<u8>)>) -> (r: Diagnostics)
    requires
        keys@.len() == rows@.len(),
    ensures
        r@ == diagnostics(keys.deep_view(), rows.deep_view()),
{
    let mut scanned_keys: Vec<String> = Vec::new();
    let mut scanned_value_lens: Vec<usize> = Vec::new();
    let shown = if rows.len() < SHOWN_ROWS {
        rows.len()
    } else {
        SHOWN_ROWS
    };
    for i in 0..shown
        invariant
            keys@.len() == rows@.len(),
            shown <= rows@.len(),
            scanned_keys@.len() == i,
            scanned_value_lens@.len() == i,
            forall|j: int| 0 <= j < i ==> #[trigger] scanned_keys@[j] == keys@[j],
            forall|j: int| 0 <= j < i ==> #[trigger] scanned_value_lens@[j] == rows@[j].1@.len(),
    {
        scanned_keys.push(keys[i].clone());
        scanned_value_lens.push(rows[i].1.len());
    }
    let r = Diagnostics {
        scanned: rows.len(),
        scanned_keys,
        scanned_value_lens,
        scanned_value_head: value_head(keys, rows),
    };
    proof {
        let view = diagnostics(keys.deep_view(), rows.deep_view());
        assert(r@.scanned_keys =~= view.scanned_keys);
        assert forall|j: int| 0 <= j < rows@.len() implies rows.deep_view()[j].1
            == #[trigger] rows@[j].1@ by {
            assert(rows@[j].1.deep_view() =~= rows@[j].1@);
        }
        assert(r@.scanned_value_lens =~= view.scanned_value_lens);
    }
    r
}

// ---------------------------------------------------------------------------
// Pages
// ---------------------------------------------------------------------------

/// `key` is `start` or after it, and its bytes come before `end`.
pub open spec fn in_range(key: Seq<char>, start: Seq<char>, end: Seq<u8>) -> bool {
    text::text_le(start, key) && !text::bytes_le(end, encode_utf8(key))
}

/// The greatest of `keys`.
pub open spec fn greatest(keys: Seq<Seq<char>>) -> Seq<char>
    decreases keys.len(),
{
    if keys.len() <= 1 {
        keys[0]
    } else if text::text_le(greatest(keys.drop_last()), keys.last()) {
        keys.last()
    } else {
        greatest(keys.drop_last())
    }
}

/// How far a scan that gave `keys` has got, where it hit its limit.
pub open spec fn reach(keys: Seq<Seq<char>>, limit: u32) -> Option<Seq<char>> {
    if keys.len() > 0 && keys.len() >= limit {
        Some(greatest(keys))
    } else {
        None
    }
}

/// How far a scan that gave `keys` has got, where it hit its limit.
fn how_far(keys: &Vec<String>, limit: u32) -> (r: Option<String>)
    ensures
        r.deep_view() == reach(keys.deep_view(), limit),
{
    if keys.len() == 0 || keys.len() < limit as usize {
        return None;
    }
    let ghost all = keys.deep_view();
    let mut r = keys[0].clone();
    for i in 1..keys.len()
        invariant
            all == keys.deep_view(),
            r@ == greatest(all.take(i as int)),
    {
        assert(all.take(i + 1).drop_last() =~= all.take(i as int));
        assert(all.take(i + 1).last() == keys@[i as int]@);
        if text::at_most(r.as_str(), keys[i].as_str()) {
            r = keys[i].clone();
        }
    }
    assert(all.take(keys.len() as int) =~= all);
    Some(r)
}

/// The keys of a page, and where the next one starts.
#[derive(Debug, Clone)]
pub struct Page {
    pub keys: Vec<String>,
    pub next_start: Option<String>,
}

#[verifier::ext_equal]
pub struct PageView {
    pub keys: Seq<Seq<char>>,
    pub next_start: Option<Seq<char>>,
}

impl View for Page {
    type V = PageView;

    open spec fn view(&self) -> PageView {
        PageView { keys: self.keys.deep_view(), next_start: self.next_start.deep_view() }
    }
}

/// `key` is in the range, and not beyond what the scan has reached.
pub open spec fn offered(
    key: Seq<char>,
    start: Seq<char>,
    end: Seq<u8>,
    reached: Option<Seq<char>>,
) -> bool {
    in_range(key, start, end) && match reached {
        Some(last) => text::text_le(key, last),
        None => true,
    }
}

/// Those of `keys` that are offered, in order.
pub open spec fn ordered(
    keys: Seq<Seq<char>>,
    start: Seq<char>,
    end: Seq<u8>,
    reached: Option<Seq<char>>,
) -> Seq<Seq<char>> {
    keys.filter(|key: Seq<char>| offered(key, start, end, reached)).sort_by(text::text_order())
}

/// The page that candidate keys make: the first `limit` of those in the range, in order.
/// Where a scan hit the limit, what lies beyond its last key is left to the next page. The
/// next page starts right after this one: after its last key where not all keys fit, else
/// after what the scan has reached.
pub open spec fn page_of(
    keys: Seq<Seq<char>>,
    start: Seq<char>,
    end: Seq<u8>,
    limit: u32,
    reached: Option<Seq<char>>,
) -> PageView {
    let candidates = ordered(keys, start, end, reached);
    let shown = front(candidates, limit as nat);
    PageView {
        keys: shown,
        next_start: if candidates.len() > limit && limit > 0 {
            Some(text::successor(shown.last()))
        } else {
            match reached {
                Some(last) => Some(text::successor(last)),
                None => None,
            }
        },
    }
}

/// Whether `key` is not beyond what the scan has reached.
fn is_reached(key: &str, reached: &Option<String>) -> (r: bool)
    ensures
        r == match reached.deep_view() {
            Some(last) => text::text_le(key@, last),
            None => true,
        },
{
    match reached {
        Some(last) => text::at_most(key, last.as_str()),
        None => true,
    }
}

fn keep_offered(
    keys: &Vec<String>,
    start: &str,
    end: &[u8],
    reached: &Option<String>,
) -> (r: Vec<String>)
    ensures
        r.deep_view() == keys.deep_view().filter(
            |key: Seq<char>| offered(key, start@, end@, reached.deep_view()),
        ),
{
    let ghost all = keys.deep_view();
    let ghost pred = |key: Seq<char>| offered(key, start@, end@, reached.deep_view());
    let mut r: Vec<String> = Vec::new();
    assert(r.deep_view() =~= all.take(0).filter(pred)) by {
        reveal(Seq::filter);
    }
    for i in 0..keys.len()
        invariant
            all == keys.deep_view(),
            pred == (|key: Seq<char>| offered(key, start@, end@, reached.deep_view())),
            r.deep_view() == all.take(i as int).filter(pred),
    {
        let ghost before = r;
        proof {
            text::lemma_filter_step(all, i as int, pred);
        }
        let key = keys[i].as_str();
        if text::at_most(start, key) && !text::bytes_at_most(end, key.as_bytes())
            && is_reached(key, reached) {
            r.push(keys[i].clone());
            proof {
                text::lemma_deep_view_push(before, r, keys@[i as int]);
            }
        }
    }
    assert(all.take(keys.len() as int) =~= all);
    r
}

/// The page that candidate keys make.
pub fn make_page(
    keys: &Vec<String>,
    start: &str,
    end: &[u8],
    limit: u32,
    reached: &Option<String>,
) -> (r: Page)
    ensures
        r@ == page_of(keys.deep_view(), start@, end@, limit, reached.deep_view()),
        limit > 0 && reached is Some ==> r.next_start is Some,
        r.next_start is Some ==> forall|i: int|
            0 <= i < r@.keys.len() ==> !text::text_le(r@.next_start->0, #[trigger] r@.keys[i]),
{
    proof {
        walk::next_start_follows_the_page(
            keys.deep_view(),
            start@,
            end@,
            limit,
            reached.deep_view(),
        );
    }
    let kept = keep_offered(keys, start, end, reached);
    let mut shown = text::sort_keys(&kept);
    let ghost candidates = shown.deep_view();
    let cut = shown.len() > limit as usize;
    shown.truncate(limit as usize);
    assert(shown.deep_view() =~= front(candidates, limit as nat));
    let next_start = if cut && limit > 0 {
        Some(text::next_text(shown[shown.len() - 1].as_str()))
    } else {
        match reached {
            Some(last) => Some(text::next_text(last.as_str())),
            None => None,
        }
    };
    Page { keys: shown, next_start }
}

// ---------------------------------------------------------------------------
// The machine
// ---------------------------------------------------------------------------

/// A page of records.
#[derive(Debug, Clone)]
pub struct ListResponse {
    pub records: Vec<Record>,
    /// Set when the scan hit the limit, or more keys were in the range than fit; passed
    /// back as `start` for the next page.
    pub next_start: Option<String>,
    /// Which read path produced the rows: `"scan"` (the host range scan) or `"index"`
    /// (the fallback).
    pub source: &'static str,
    pub diagnostics: Diagnostics,
}

#[verifier::ext_equal]
pub struct ListResponseView {
    pub records: Seq<RecordView>,
    pub next_start: Option<Seq<char>>,
    pub source: Seq<char>,
    pub diagnostics: DiagnosticsView,
}

impl View for ListResponse {
    type V = ListResponseView;

    open spec fn view(&self) -> ListResponseView {
        ListResponseView {
            records: self.records.deep_view(),
            next_start: self.next_start.deep_view(),
            source: self.source@,
            diagnostics: self.diagnostics@,
        }
    }
}

/// A listing under way. Every state but the last names the host call that it waits
/// for.
pub enum ListRecords {
    /// Scan the ledger.
    Scan { query: Query },
    /// Read the index.
    ReadIndex { query: Query, reached: Option<String>, diagnostics: Diagnostics },
    /// Read the ledger under the key of the page at `position`.
    Fetch { page: Page, position: usize, response: ListResponse },
    /// Nothing is left to do.
    Done { result: Result<ListResponse, String> },
}

#[verifier::ext_equal]
pub enum ListRecordsView {
    Scan { query: QueryView },
    ReadIndex { query: QueryView, reached: Option<Seq<char>>, diagnostics: DiagnosticsView },
    Fetch { page: PageView, position: usize, response: ListResponseView },
    Done { result: Result<ListResponseView, Seq<char>> },
}

impl View for ListRecords {
    type V = ListRecordsView;

    open spec fn view(&self) -> ListRecordsView {
        match self {
            ListRecords::Scan { query } => ListRecordsView::Scan { query: query@ },
            ListRecords::ReadIndex { query, reached, diagnostics } => ListRecordsView::ReadIndex {
                query: query@,
                reached: reached.deep_view(),
                diagnostics: diagnostics@,
            },
            ListRecords::Fetch { page, position, response } => ListRecordsView::Fetch {
                page: page@,
                position: *position,
                response: response@,
            },
            ListRecords::Done { result } => ListRecordsView::Done {
                result: match result {
                    Ok(response) => Ok(response@),
                    Err(why) => Err(why@),
                },
            },
        }
    }
}

/// The state in which the record at a position of the page is read next, or the end
/// where the page has no such position.
pub open spec fn fetch_from(
    page: PageView,
    position: int,
    response: ListResponseView,
) -> ListRecordsView {
    if position < page.keys.len() {
        ListRecordsView::Fetch { page, position: position as usize, response }
    } else {
        ListRecordsView::Done { result: Ok(response) }
    }
}

/// The state in which a page has been made and none of its records is read yet.
pub open spec fn paged(
    keys: Seq<Seq<char>>,
    query: QueryView,
    reached: Option<Seq<char>>,
    source: Seq<char>,
    diagnostics: DiagnosticsView,
) -> ListRecordsView {
    let page = page_of(keys, query.start, query.end, query.limit, reached);
    fetch_from(
        page,
        0,
        ListResponseView { records: seq![], next_start: page.next_start, source, diagnostics },
    )
}

impl ListRecordsView {
    /// How a listing begins. No input asks for everything.
    pub open spec fn start(input: InputView<ListRequestView>) -> ListRecordsView {
        match input {
            InputView::Missing => ListRecordsView::Scan {
                query: (ListRequestView { start: None, end: None, limit: None }).query(),
            },
            InputView::Malformed(why) => ListRecordsView::Done {
                result: Err("list-records: bad input: "@ + why),
            },
            InputView::Parsed(request) => ListRecordsView::Scan { query: request.query() },
        }
    }

    /// Whether an event is the outcome of the host call that this state waits for.
    pub open spec fn expects(self, event: HostEventView) -> bool {
        match self {
            ListRecordsView::Scan { .. } => event is Scanned,
            ListRecordsView::ReadIndex { .. } => event is IndexRead,
            ListRecordsView::Fetch { page, position, .. } => event is Fetched && position
                < page.keys.len(),
            ListRecordsView::Done { .. } => false,
        }
    }

    /// The state after an event.
    pub open spec fn next(self, event: HostEventView) -> ListRecordsView {
        match (self, event) {
            // The keys of a scan are right, but its values need not be: a value above
            // the store's inlining threshold comes back as an unresolved envelope. So
            // the keys are taken from the scan and every record is read on its own.
            (ListRecordsView::Scan { query }, HostEventView::Scanned(scanned)) => match scanned {
                Err(e) => ListRecordsView::Done { result: Err("kv scan: "@ + e) },
                Ok(rows) => {
                    let keys = record_keys(row_keys(rows));
                    let reached = reach(row_keys(rows), query.limit);
                    let shown = diagnostics(row_keys(rows), rows);
                    if keys.len() == 0 {
                        ListRecordsView::ReadIndex { query, reached, diagnostics: shown }
                    } else {
                        paged(keys, query, reached, "scan"@, shown)
                    }
                },
            },
            (
                ListRecordsView::ReadIndex { query, reached, diagnostics },
                HostEventView::IndexRead(stored),
            ) => paged(index::loaded(stored), query, reached, "index"@, diagnostics),
            // A key without a readable record is passed over.
            (
                ListRecordsView::Fetch { page, position, response },
                HostEventView::Fetched(fetched),
            ) => fetch_from(
                page,
                position + 1,
                match fetched {
                    FetchedView::Found(record) => ListResponseView {
                        records: response.records.push(record),
                        ..response
                    },
                    _ => response,
                },
            ),
            _ => self,
        }
    }
}

/// Begins to list a range of the ledger.
pub fn list_records(input: Input<ListRequest>) -> (r: ListRecords)
    ensures
        r@ == ListRecordsView::start(input@),
{
    match input {
        Input::Missing => ListRecords::Scan { query: ListRequest::default().query() },
        Input::Malformed(why) => ListRecords::Done {
            result: Err(text::prefixed("list-records: bad input: ", why.as_str())),
        },
        Input::Parsed(request) => ListRecords::Scan { query: request.query() },
    }
}

/// The state in which a page has been made and none of its records is read yet.
fn begin_page(
    keys: &Vec<String>,
    query: &Query,
    reached: &Option<String>,
    source: &'static str,
    diagnostics: Diagnostics,
) -> (r: ListRecords)
    ensures
        r@ == paged(keys.deep_view(), query@, reached.deep_view(), source@, diagnostics@),
{
    let page = make_page(
        keys,
        query.start.as_str(),
        query.end.as_slice(),
        query.limit,
        reached,
    );
    let records: Vec<Record> = Vec::new();
    assert(records.deep_view() =~= seq![]);
    let response = ListResponse {
        records,
        next_start: page.next_start.clone(),
        source,
        diagnostics,
    };
    if page.keys.len() > 0 {
        ListRecords::Fetch { page, position: 0, response }
    } else {
        ListRecords::Done { result: Ok(response) }
    }
}

impl ListRecords {
    /// Goes on with the outcome of the host call that this state waits for.
    pub fn resume(self, event: HostEvent) -> (r: ListRecords)
        requires
            self@.expects(event@),
        ensures
            r@ == self@.next(event@),
    {
        match (self, event) {
            (ListRecords::Scan { query }, HostEvent::Scanned(scanned)) => {
                match scanned {
                    Err(e) => ListRecords::Done {
                        result: Err(text::prefixed("kv scan: ", e.as_str())),
                    },
                    Ok(rows) => {
                        let texts = texts_of_keys(&rows);
                        assert(texts@.len() == texts.deep_view().len());
                        let diagnostics = diagnose(&texts, &rows);
                        let reached = how_far(&texts, query.limit);
                        let keys = drop_internal(&texts);
                        if keys.len() == 0 {
                            ListRecords::ReadIndex { query, reached, diagnostics }
                        } else {
                            begin_page(&keys, &query, &reached, "scan", diagnostics)
                        }
                    },
                }
            },
            (
                ListRecords::ReadIndex { query, reached, diagnostics },
                HostEvent::IndexRead(stored),
            ) => begin_page(&index::index_load(&stored), &query, &reached, "index", diagnostics),
            (
                ListRecords::Fetch { page, position, response },
                HostEvent::Fetched(fetched),
            ) => {
                let mut response = response;
                match fetched {
                    Fetched::Found(record) => {
                        let ghost before = response.records;
                        response.records.push(record);
                        proof {
                            text::lemma_deep_view_push(before, response.records, record);
                        }
                    },
                    _ => {},
                }
                let count = page.keys.len();
                assert(position < page.keys@.len());
                if position + 1 < count {
                    ListRecords::Fetch { page, position: position + 1, response }
                } else {
                    ListRecords::Done { result: Ok(response) }
                }
            },
            (state, _) => state,
        }
    }
}

// ---------------------------------------------------------------------------
// What is read of a request and of a scan
// ---------------------------------------------------------------------------

/// A key is of the ledger's own bookkeeping where it begins with two underscores.
pub proof fn bookkeeping_begins_with_underscores(key: Seq<char>)
    ensures
        internal(key) <==> "__"@.is_prefix_of(key),
{
    reveal_strlit("__");
    if internal(key) {
        assert("__"@ =~= key.subrange(0, 2));
    }
    if "__"@.is_prefix_of(key) {
        assert(key.subrange(0, 2)[0] == "__"@[0]);
        assert(key.subrange(0, 2)[1] == "__"@[1]);
    }
}

/// A scan is asked for from the start that was named, or from the first key; up to the bytes
/// of the end that was named, or to the byte that ends no key; and for as many rows as were
/// asked for, or 100 where no number above zero was.
pub proof fn query_asks_for_what_was_named(request: ListRequestView)
    ensures
        request.start is Some ==> request.query().start == request.start->0,
        request.start is None ==> request.query().start == Seq::<char>::empty(),
        request.end is Some ==> request.query().end == encode_utf8(request.end->0),
        request.end is None ==> request.query().end == seq![0xffu8],
        request.limit is Some && request.limit->0 > 0 ==> request.query().limit
            == request.limit->0,
        request.limit is None || request.limit->0 == 0 ==> request.query().limit == 100,
{
}

/// The keys of rows are their texts, in their order.
pub proof fn row_keys_are_texts(rows: Seq<(Seq<u8>, Seq<u8>)>)
    ensures
        row_keys(rows).len() == rows.len(),
        forall|i: int|
            0 <= i < rows.len() ==> #[trigger] row_keys(rows)[i] == text::decoded(rows[i].0),
{
}

/// Records' keys are the keys that do not begin with two underscores.
pub proof fn record_keys_are_the_others(keys: Seq<Seq<char>>, key: Seq<char>)
    ensures
        record_keys(keys).contains(key) <==> keys.contains(key) && !"__"@.is_prefix_of(key),
        record_keys(keys).len() <= keys.len(),
{
    broadcast use group_filter_ensures;

    let pred = |key: Seq<char>| !internal(key);
    bookkeeping_begins_with_underscores(key);
    if record_keys(keys).contains(key) {
        keys.lemma_filter_contains_rev(pred, key);
        let i = choose|i: int| 0 <= i < record_keys(keys).len() && record_keys(keys)[i] == key;
        assert(pred(keys.filter(pred)[i]));
    }
    if keys.contains(key) && !internal(key) {
        let i = choose|i: int| 0 <= i < keys.len() && keys[i] == key;
        assert(pred(keys[i]));
    }
    keys.lemma_filter_len(pred);
}

/// Of one key more, records' keys hold one more at their end, or nothing more where it begins
/// with two underscores.
pub proof fn record_keys_grow_with_the_keys(keys: Seq<Seq<char>>, key: Seq<char>)
    ensures
        record_keys(seq![]) == Seq::<Seq<char>>::empty(),
        "__"@.is_prefix_of(key) ==> record_keys(keys.push(key)) == record_keys(keys),
        !"__"@.is_prefix_of(key) ==> record_keys(keys.push(key)) == record_keys(keys).push(key),
{
    let pred = |key: Seq<char>| !internal(key);
    let longer = keys.push(key);
    bookkeeping_begins_with_underscores(key);
    text::lemma_filter_step(longer, keys.len() as int, pred);
    assert(longer.take(keys.len() as int) =~= keys);
    assert(longer.take(longer.len() as int) =~= longer);
    reveal(Seq::filter);
}

proof fn lemma_first_record_value(keys: Seq<Seq<char>>, rows: Seq<(Seq<u8>, Seq<u8>)>, i: int)
    requires
        keys.len() == rows.len(),
        0 <= i < rows.len(),
        !internal(keys[i]),
        forall|j: int| 0 <= j < i ==> internal(#[trigger] keys[j]),
    ensures
        first_record_value(keys, rows) == Some(rows[i].1),
    decreases rows.len(),
{
    if i > 0 {
        assert(internal(keys[0]));
        let rest = keys.drop_first();
        assert forall|j: int| 0 <= j < i - 1 implies internal(#[trigger] rest[j]) by {
            assert(rest[j] == keys[j + 1]);
        }
        lemma_first_record_value(rest, rows.drop_first(), i - 1);
    }
}

proof fn lemma_no_record_value(keys: Seq<Seq<char>>, rows: Seq<(Seq<u8>, Seq<u8>)>)
    requires
        keys.len() == rows.len(),
        forall|j: int| 0 <= j < keys.len() ==> internal(#[trigger] keys[j]),
    ensures
        first_record_value(keys, rows) is None,
    decreases rows.len(),
{
    if rows.len() > 0 {
        assert(internal(keys[0]));
        let rest = keys.drop_first();
        assert forall|j: int| 0 <= j < rest.len() implies internal(#[trigger] rest[j]) by {
            assert(rest[j] == keys[j + 1]);
        }
        lemma_no_record_value(rest, rows.drop_first());
    }
}

/// Of a scan is shown how many rows it gave, the keys and the value lengths of the first ten,
/// and the text of the first 160 bytes of the first value that is not bookkeeping.
pub proof fn diagnostics_show_the_scan(
    keys: Seq<Seq<char>>,
    rows: Seq<(Seq<u8>, Seq<u8>)>,
    i: int,
)
    requires
        keys.len() == rows.len() <= usize::MAX,
        forall|j: int| 0 <= j < rows.len() ==> (#[trigger] rows[j]).1.len() <= usize::MAX,
    ensures
        ({
            let d = diagnostics(keys, rows);
            let n: int = if rows.len() < 10 {
                rows.len() as int
            } else {
                10
            };
            &&& d.scanned == rows.len()
            &&& d.scanned_keys == keys.take(n)
            &&& d.scanned_value_lens.len() == n
            &&& forall|j: int|
                0 <= j < n ==> #[trigger] d.scanned_value_lens[j] == rows[j].1.len()
            &&& {
                &&& 0 <= i < rows.len()
                &&& !"__"@.is_prefix_of(keys[i])
                &&& forall|j: int| 0 <= j < i ==> "__"@.is_prefix_of(#[trigger] keys[j])
            } ==> d.scanned_value_head == Some(
                text::decoded(
                    if rows[i].1.len() < 160 {
                        rows[i].1
                    } else {
                        rows[i].1.take(160)
                    },
                ),
            )
            &&& (forall|j: int| 0 <= j < keys.len() ==> "__"@.is_prefix_of(#[trigger] keys[j]))
                ==> d.scanned_value_head is None
        }),
{
    assert forall|j: int| 0 <= j < keys.len() implies (internal(#[trigger] keys[j])
        <==> "__"@.is_prefix_of(keys[j])) by {
        bookkeeping_begins_with_underscores(keys[j]);
    }
    if {
        &&& 0 <= i < rows.len()
        &&& !"__"@.is_prefix_of(keys[i])
        &&& forall|j: int| 0 <= j < i ==> "__"@.is_prefix_of(#[trigger] keys[j])
    } {
        lemma_first_record_value(keys, rows, i);
        assert(rows[i].1.take(rows[i].1.len() as int) =~= rows[i].1);
    }
    if forall|j: int| 0 <= j < keys.len() ==> "__"@.is_prefix_of(#[trigger] keys[j]) {
        lemma_no_record_value(keys, rows);
    }
}

// ---------------------------------------------------------------------------
// What the views show
// ---------------------------------------------------------------------------

/// The views of a request and of a query show all of them.
pub proof fn request_views_show_everything(request: ListRequest, query: Query)
    ensures
        request.start is None <==> request@.start is None,
        request.start is Some ==> request@.start->0 == request.start->0@,
        request.end is None <==> request@.end is None,
        request.end is Some ==> request@.end->0 == request.end->0@,
        request@.limit == request.limit,
        query@.start == query.start@,
        query@.end == query.end@,
        query@.limit == query.limit,
{
}

/// The views of a page and of a response show all of them.
pub proof fn response_views_show_everything(page: Page, response: ListResponse)
    ensures
        page@.keys.len() == page.keys@.len(),
        forall|i: int| 0 <= i < page.keys@.len() ==> #[trigger] page@.keys[i] == page.keys@[i]@,
        page.next_start is None <==> page@.next_start is None,
        page.next_start is Some ==> page@.next_start->0 == page.next_start->0@,
        response@.records.len() == response.records@.len(),
        forall|i: int|
            0 <= i < response.records@.len() ==> #[trigger] response@.records[i]
                == response.records@[i]@,
        response.next_start is None <==> response@.next_start is None,
        response.next_start is Some ==> response@.next_start->0 == response.next_start->0@,
        response@.source == response.source@,
        response@.diagnostics == response.diagnostics@,
        response@.diagnostics.scanned == response.diagnostics.scanned,
        response@.diagnostics.scanned_keys == response.diagnostics.scanned_keys.deep_view(),
        response@.diagnostics.scanned_value_lens == response.diagnostics.scanned_value_lens@,
        response.diagnostics.scanned_value_head is None
            <==> response@.diagnostics.scanned_value_head is None,
        response.diagnostics.scanned_value_head is Some
            ==> response@.diagnostics.scanned_value_head->0
            == response.diagnostics.scanned_value_head->0@,
{
}

/// The view of a listing under way shows all of it, and its state expects the outcome of the
/// host call that it waits for, whatever that is.
pub proof fn listing_view_shows_everything(state: ListRecords, event: HostEventView)
    ensures
        match state {
            ListRecords::Scan { query } => {
                &&& state@ == (ListRecordsView::Scan { query: query@ })
                &&& state@.expects(event) <==> event is Scanned
            },
            ListRecords::ReadIndex { query, reached, diagnostics } => {
                &&& state@ is ReadIndex
                &&& state@->ReadIndex_query == query@
                &&& reached is None <==> state@->reached is None
                &&& reached is Some ==> state@->reached->0 == reached->0@
                &&& state@->diagnostics == diagnostics@
                &&& state@.expects(event) <==> event is IndexRead
            },
            ListRecords::Fetch { page, position, response } => {
                &&& state@ == (ListRecordsView::Fetch {
                    page: page@,
                    position,
                    response: response@,
                })
                &&& state@.expects(event) <==> event is Fetched && position < page.keys@.len()
            },
            ListRecords::Done { result } => {
                &&& state@ is Done
                &&& result is Ok <==> state@->result is Ok
                &&& result is Ok ==> state@->result->Ok_0 == result->Ok_0@
                &&& result is Err ==> state@->result->Err_0 == result->Err_0@
                &&& !state@.expects(event)
            },
        },
{
}

} // verus!
