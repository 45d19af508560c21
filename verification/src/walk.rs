//! What holds of pages, and of a walk through the ledger page by page.

use crate::host::{HostEventView, InputView};
use crate::index;
use crate::list;
use crate::list::{ListRecordsView, ListRequestView, PageView, QueryView};
use crate::text;
use vstd::prelude::*;
use vstd::relations::*;
use vstd::seq_lib::*;
use vstd::set_lib::*;
use vstd::utf8::*;

verus! {

// ---------------------------------------------------------------------------
// One page
// ---------------------------------------------------------------------------

pub proof fn lemma_filter_keeps_apart<A>(s: Seq<A>, pred: spec_fn(A) -> bool)
    requires
        s.no_duplicates(),
    ensures
        s.filter(pred).no_duplicates(),
    decreases s.len(),
{
    reveal(Seq::filter);
    if s.len() > 0 {
        let front = s.drop_last();
        lemma_filter_keeps_apart(front, pred);
        if pred(s.last()) && front.filter(pred).contains(s.last()) {
            front.lemma_filter_contains_rev(pred, s.last());
        }
        assert forall|i: int, j: int|
            0 <= i < s.filter(pred).len() && 0 <= j < s.filter(pred).len() && i != j implies s.filter(
            pred,
        )[i] != s.filter(pred)[j] by {
            if pred(s.last()) {
                let n = front.filter(pred).len();
                if i == n {
                    assert(front.filter(pred).contains(front.filter(pred)[j]));
                } else if j == n {
                    assert(front.filter(pred).contains(front.filter(pred)[i]));
                }
            }
        }
    }
}

/// What is in order: exactly the keys that are offered, each as often as it was there.
proof fn lemma_ordered(
    keys: Seq<Seq<char>>,
    start: Seq<char>,
    end: Seq<u8>,
    reached: Option<Seq<char>>,
)
    ensures
        sorted_by(list::ordered(keys, start, end, reached), text::text_order()),
        forall|key: Seq<char>| #[trigger]
            list::ordered(keys, start, end, reached).contains(key) <==> keys.contains(key)
                && list::offered(key, start, end, reached),
        keys.no_duplicates() ==> list::ordered(keys, start, end, reached).no_duplicates(),
{
    broadcast use {group_filter_ensures, group_to_multiset_ensures};

    let pred = |key: Seq<char>| list::offered(key, start, end, reached);
    let kept = keys.filter(pred);
    let sorted = list::ordered(keys, start, end, reached);
    text::text_order_is_total();
    kept.lemma_sort_by_ensures(text::text_order());
    assert forall|key: Seq<char>| #[trigger] sorted.contains(key) <==> keys.contains(key)
        && list::offered(key, start, end, reached) by {
        assert(sorted.contains(key) <==> sorted.to_multiset().count(key) > 0);
        assert(kept.contains(key) <==> kept.to_multiset().count(key) > 0);
        if kept.contains(key) {
            keys.lemma_filter_contains_rev(pred, key);
            let i = choose|i: int| 0 <= i < kept.len() && kept[i] == key;
            assert(pred(kept[i]));
        }
        if keys.contains(key) && list::offered(key, start, end, reached) {
            let i = choose|i: int| 0 <= i < keys.len() && keys[i] == key;
            assert(pred(keys[i]));
        }
    }
    if keys.no_duplicates() {
        lemma_filter_keeps_apart(keys, pred);
        kept.lemma_multiset_has_no_duplicates();
        sorted.lemma_multiset_has_no_duplicates_conv();
    }
}

/// The greatest key is one of them, and none comes after it.
pub proof fn lemma_greatest(keys: Seq<Seq<char>>)
    requires
        keys.len() > 0,
    ensures
        keys.contains(list::greatest(keys)),
        forall|i: int|
            0 <= i < keys.len() ==> text::text_le(#[trigger] keys[i], list::greatest(keys)),
    decreases keys.len(),
{
    let le = text::text_order();
    text::text_order_is_total();
    if keys.len() == 1 {
        assert(le(keys[0], keys[0]));
    } else {
        let front = keys.drop_last();
        lemma_greatest(front);
        let j = choose|j: int| 0 <= j < front.len() && front[j] == list::greatest(front);
        assert(keys[j] == list::greatest(front));
        assert(le(list::greatest(front), keys.last()) || le(keys.last(), list::greatest(front)));
        assert(le(keys.last(), keys.last()));
        assert forall|i: int| 0 <= i < keys.len() implies text::text_le(
            #[trigger] keys[i],
            list::greatest(keys),
        ) by {
            if i < front.len() {
                assert(keys[i] == front[i]);
                assert(le(front[i], list::greatest(front)));
                if text::text_le(list::greatest(front), keys.last()) {
                    assert(le(list::greatest(front), keys.last()));
                    assert(le(front[i], keys.last()));
                }
            } else {
                assert(keys[i] == keys.last());
            }
        }
    }
}

/// Every key comes after those before it.
pub open spec fn ascending(keys: Seq<Seq<char>>) -> bool {
    forall|i: int, j: int|
        0 <= i < j < keys.len() ==> text::text_le(#[trigger] keys[i], #[trigger] keys[j])
            && keys[i] != keys[j]
}

/// A page is in order, holds at most `limit` keys, and holds only candidate keys of the
/// range. Where no candidate is there twice, no key is on the page twice.
pub proof fn page_is_ordered_and_in_range(
    keys: Seq<Seq<char>>,
    start: Seq<char>,
    end: Seq<u8>,
    limit: u32,
    reached: Option<Seq<char>>,
)
    ensures
        ({
            let page = list::page_of(keys, start, end, limit, reached);
            &&& page.keys.len() <= limit
            &&& sorted_by(page.keys, text::text_order())
            &&& keys.no_duplicates() ==> ascending(page.keys)
            &&& forall|i: int|
                0 <= i < page.keys.len() ==> list::offered(#[trigger] page.keys[i], start, end, reached)
                    && keys.contains(page.keys[i])
        }),
{
    let page = list::page_of(keys, start, end, limit, reached);
    let candidates = list::ordered(keys, start, end, reached);
    lemma_ordered(keys, start, end, reached);
    assert forall|i: int| 0 <= i < page.keys.len() implies list::offered(
        #[trigger] page.keys[i],
        start,
        end,
        reached,
    ) && keys.contains(page.keys[i]) by {
        assert(candidates[i] == page.keys[i]);
        assert(candidates.contains(candidates[i]));
    }
    assert forall|i: int, j: int| 0 <= i < j < page.keys.len() implies #[trigger]
        text::text_order()(page.keys[i], page.keys[j]) by {
        assert(text::text_order()(candidates[i], candidates[j]));
    }
    if keys.no_duplicates() {
        assert forall|i: int, j: int| 0 <= i < j < page.keys.len() implies text::text_le(
            #[trigger] page.keys[i],
            #[trigger] page.keys[j],
        ) && page.keys[i] != page.keys[j] by {
            assert(text::text_order()(candidates[i], candidates[j]));
        }
    }
}

/// The next page starts after every key of this one, and a scan that hit the limit always
/// names where it starts.
pub proof fn next_start_follows_the_page(
    keys: Seq<Seq<char>>,
    start: Seq<char>,
    end: Seq<u8>,
    limit: u32,
    reached: Option<Seq<char>>,
)
    ensures
        ({
            let page = list::page_of(keys, start, end, limit, reached);
            &&& reached is Some && limit > 0 ==> page.next_start is Some
            &&& page.next_start is Some ==> forall|i: int|
                0 <= i < page.keys.len() ==> !text::text_le(
                    page.next_start->0,
                    #[trigger] page.keys[i],
                )
        }),
{
    let page = list::page_of(keys, start, end, limit, reached);
    let le = text::text_order();
    text::text_order_is_total();
    page_is_ordered_and_in_range(keys, start, end, limit, reached);
    if page.next_start is Some {
        let candidates = list::ordered(keys, start, end, reached);
        let last = if candidates.len() > limit && limit > 0 {
            page.keys.last()
        } else {
            reached->0
        };
        text::successor_is_least(last);
        assert forall|i: int| 0 <= i < page.keys.len() implies !text::text_le(
            page.next_start->0,
            #[trigger] page.keys[i],
        ) by {
            if candidates.len() > limit && limit > 0 {
                let n = page.keys.len() - 1;
                assert(le(page.keys[n], page.keys[n]));
                if i < n {
                    assert(le(page.keys[i], page.keys[n]));
                }
            } else {
                assert(list::offered(page.keys[i], start, end, reached));
            }
        }
    }
}

/// Paging skips no candidate key of the range: it is on the page, or the page names a
/// start for the next one that does not come after the key.
pub proof fn paging_skips_no_candidate(
    keys: Seq<Seq<char>>,
    start: Seq<char>,
    end: Seq<u8>,
    limit: u32,
    reached: Option<Seq<char>>,
    key: Seq<char>,
)
    requires
        limit > 0,
        keys.contains(key),
        list::in_range(key, start, end),
    ensures
        list::page_of(keys, start, end, limit, reached).keys.contains(key) || left_for_later(
            list::page_of(keys, start, end, limit, reached),
            key,
        ),
{
    let page = list::page_of(keys, start, end, limit, reached);
    let candidates = list::ordered(keys, start, end, reached);
    let le = text::text_order();
    lemma_ordered(keys, start, end, reached);
    text::text_order_is_total();
    page_is_ordered_and_in_range(keys, start, end, limit, reached);
    if list::offered(key, start, end, reached) {
        assert(candidates.contains(key));
        let i = choose|i: int| 0 <= i < candidates.len() && candidates[i] == key;
        if i < page.keys.len() {
            assert(page.keys[i] == key);
        } else if !page.keys.contains(key) {
            let n = page.keys.len() - 1;
            let last = page.keys[n];
            assert(last == candidates[n]);
            assert(le(candidates[n], candidates[i]));
            text::successor_is_least(last);
            if text::text_le(key, last) {
                assert(le(key, last) && le(last, key));
                assert(page.keys.contains(last));
            }
        }
    } else {
        lemma_beyond_reach_is_left(keys, start, end, limit, reached, key);
    }
}

/// The page names a start for the next one that does not come after the key.
pub open spec fn left_for_later(page: PageView, key: Seq<char>) -> bool {
    page.next_start is Some && text::text_le(page.next_start->0, key)
}

/// What lies beyond the reach of a scan is left to the next page.
proof fn lemma_beyond_reach_is_left(
    keys: Seq<Seq<char>>,
    start: Seq<char>,
    end: Seq<u8>,
    limit: u32,
    reached: Option<Seq<char>>,
    key: Seq<char>,
)
    requires
        limit > 0,
        reached is Some,
        !text::text_le(key, reached->0),
    ensures
        left_for_later(list::page_of(keys, start, end, limit, reached), key),
{
    let page = list::page_of(keys, start, end, limit, reached);
    let candidates = list::ordered(keys, start, end, reached);
    let le = text::text_order();
    text::text_order_is_total();
    text::successor_is_least(reached->0);
    if candidates.len() > limit {
        let last = page.keys[page.keys.len() - 1];
        page_is_ordered_and_in_range(keys, start, end, limit, reached);
        assert(list::offered(last, start, end, reached));
        text::successor_is_least(last);
        if text::text_le(key, last) {
            assert(le(key, last) && le(last, reached->0));
            assert(le(key, reached->0));
        }
    }
}

// ---------------------------------------------------------------------------
// One listing
// ---------------------------------------------------------------------------

/// What a page is made from: where it starts, the keys that its scan gave, and the keys of
/// the index that is read where the scan gave no record's.
pub struct WalkStep {
    pub start: Seq<char>,
    pub scanned: Seq<Seq<char>>,
    pub index: Seq<Seq<char>>,
}

impl WalkStep {
    /// The keys that can come on the page.
    pub open spec fn candidates(self) -> Seq<Seq<char>> {
        if list::record_keys(self.scanned).len() == 0 {
            self.index
        } else {
            list::record_keys(self.scanned)
        }
    }

    pub open spec fn page(self, end: Seq<u8>, limit: u32) -> PageView {
        list::page_of(
            self.candidates(),
            self.start,
            end,
            limit,
            list::reach(self.scanned, limit),
        )
    }
}

/// The state of a listing whose scan gave `rows` and, where it asks for the index, read
/// `stored`.
pub open spec fn listing(
    query: QueryView,
    rows: Seq<(Seq<u8>, Seq<u8>)>,
    stored: Option<Seq<u8>>,
) -> ListRecordsView {
    let state = ListRecordsView::Scan { query }.next(HostEventView::Scanned(Ok(rows)));
    if state is ReadIndex {
        state.next(HostEventView::IndexRead(stored))
    } else {
        state
    }
}

/// A listing reads the records of the page that its scan and the index make, and its
/// response names the page's next start. It names one whenever the scan hit the limit.
pub proof fn listing_shows_the_page(
    query: QueryView,
    rows: Seq<(Seq<u8>, Seq<u8>)>,
    stored: Option<Seq<u8>>,
)
    ensures
        ({
            let step = WalkStep {
                start: query.start,
                scanned: list::row_keys(rows),
                index: index::loaded(stored),
            };
            let page = step.page(query.end, query.limit);
            &&& rows.len() >= query.limit > 0 ==> page.next_start is Some
            &&& match listing(query, rows, stored) {
                ListRecordsView::Fetch { page: fetched, position, response } => {
                    &&& fetched == page
                    &&& position == 0
                    &&& response.records.len() == 0
                    &&& response.next_start == page.next_start
                },
                ListRecordsView::Done { result } => {
                    &&& result is Ok
                    &&& page.keys.len() == 0
                    &&& result->Ok_0.records.len() == 0
                    &&& result->Ok_0.next_start == page.next_start
                },
                _ => false,
            }
        }),
{
    let step = WalkStep {
        start: query.start,
        scanned: list::row_keys(rows),
        index: index::loaded(stored),
    };
    next_start_follows_the_page(
        step.candidates(),
        query.start,
        query.end,
        query.limit,
        list::reach(step.scanned, query.limit),
    );
}

/// The ledger's own bookkeeping is never listed as a record: no key of a page that a
/// scan gave is internal.
pub proof fn bookkeeping_is_never_listed(step: WalkStep, end: Seq<u8>, limit: u32)
    requires
        list::record_keys(step.scanned).len() > 0,
    ensures
        forall|i: int|
            0 <= i < step.page(end, limit).keys.len() ==> !list::internal(
                #[trigger] step.page(end, limit).keys[i],
            ),
{
    broadcast use group_filter_ensures;

    let pred = |key: Seq<char>| !list::internal(key);
    let keys = list::record_keys(step.scanned);
    let page = step.page(end, limit);
    page_is_ordered_and_in_range(
        keys,
        step.start,
        end,
        limit,
        list::reach(step.scanned, limit),
    );
    assert forall|i: int| 0 <= i < page.keys.len() implies !list::internal(
        #[trigger] page.keys[i],
    ) by {
        let j = choose|j: int| 0 <= j < keys.len() && keys[j] == page.keys[i];
        assert(pred(step.scanned.filter(pred)[j]));
    }
}

proof fn lemma_first_byte(c: char)
    ensures
        encode_scalar(c as u32).len() > 0,
        encode_scalar(c as u32)[0] < 0xff,
{
    char_is_scalar(c);
    let v = c as u32;
    assert(has_width_1_encoding(v) ==> leading_byte_width_1(v) < 0xff) by (bit_vector);
    assert(has_width_2_encoding(v) ==> leading_byte_width_2(v) < 0xff) by (bit_vector);
    assert(has_width_3_encoding(v) ==> leading_byte_width_3(v) < 0xff) by (bit_vector);
    assert(has_width_4_encoding(v) ==> leading_byte_width_4(v) < 0xff) by (bit_vector);
}

/// A request without bounds asks for every key there can be.
pub proof fn default_range_holds_every_key(key: Seq<char>)
    ensures
        ({
            let query = (ListRequestView { start: None, end: None, limit: None }).query();
            list::in_range(key, query.start, query.end)
        }),
{
    open_range_holds_what_follows(None, None, key);
}

/// A request without an end asks for everything from its start on.
pub proof fn open_range_holds_what_follows(
    start: Option<Seq<char>>,
    limit: Option<u32>,
    key: Seq<char>,
)
    ensures
        ({
            let query = (ListRequestView { start, end: None, limit }).query();
            list::in_range(key, query.start, query.end) <==> (start is Some ==> text::text_le(
                start->0,
                key,
            ))
        }),
{
    reveal_with_fuel(text::bytes_le, 2);
    if key.len() > 0 {
        lemma_first_byte(key[0]);
        let bytes = encode_utf8(key);
        assert(bytes == encode_scalar(key[0] as u32) + encode_utf8(key.drop_first()));
        assert(bytes[0] == encode_scalar(key[0] as u32)[0]);
    }
}

// ---------------------------------------------------------------------------
// A walk
// ---------------------------------------------------------------------------

/// Each step starts where the one before says.
pub open spec fn is_walk(end: Seq<u8>, limit: u32, steps: Seq<WalkStep>) -> bool
    decreases steps.len(),
{
    steps.len() > 1 ==> {
        &&& steps[0].page(end, limit).next_start == Some(steps[1].start)
        &&& is_walk(end, limit, steps.drop_first())
    }
}

/// The last step names no further start.
pub open spec fn is_finished(end: Seq<u8>, limit: u32, steps: Seq<WalkStep>) -> bool {
    steps.len() > 0 && steps.last().page(end, limit).next_start is None
}

/// The keys of the pages of a walk, put together.
pub open spec fn walk_keys(end: Seq<u8>, limit: u32, steps: Seq<WalkStep>) -> Seq<Seq<char>>
    decreases steps.len(),
{
    if steps.len() == 0 {
        seq![]
    } else {
        steps[0].page(end, limit).keys + walk_keys(end, limit, steps.drop_first())
    }
}

/// The scan went by the start, and what it and the index gave is among `seen`.
pub open spec fn drawn_from(step: WalkStep, seen: Set<Seq<char>>) -> bool {
    &&& forall|i: int|
        0 <= i < step.scanned.len() ==> seen.contains(#[trigger] step.scanned[i])
            && text::text_le(step.start, step.scanned[i])
    &&& forall|i: int| 0 <= i < step.index.len() ==> seen.contains(#[trigger] step.index[i])
}

/// Those of `seen` that are not behind `start`.
spec fn ahead(seen: Set<Seq<char>>, start: Seq<char>) -> Set<Seq<char>> {
    seen.filter(|key: Seq<char>| text::text_le(start, key))
}

/// A step that names a next start has left a key behind.
proof fn lemma_step_advances(
    step: WalkStep,
    end: Seq<u8>,
    limit: u32,
    seen: Set<Seq<char>>,
)
    requires
        limit > 0,
        seen.finite(),
        drawn_from(step, seen),
        step.page(end, limit).next_start is Some,
    ensures
        ahead(seen, step.page(end, limit).next_start->0).len() < ahead(seen, step.start).len(),
{
    broadcast use group_filter_ensures;

    let le = text::text_order();
    let page = step.page(end, limit);
    let next = page.next_start->0;
    let reached = list::reach(step.scanned, limit);
    let keys = step.candidates();
    let cut = list::ordered(keys, step.start, end, reached).len() > limit;
    text::text_order_is_total();
    page_is_ordered_and_in_range(keys, step.start, end, limit, reached);
    let last = if cut {
        page.keys[page.keys.len() - 1]
    } else {
        reached->0
    };
    if cut {
        assert(keys.contains(last));
        let j = choose|j: int| 0 <= j < keys.len() && keys[j] == last;
        if list::record_keys(step.scanned).len() > 0 {
            let pred = |key: Seq<char>| !list::internal(key);
            step.scanned.lemma_filter_contains_rev(pred, last);
            let i = choose|i: int| 0 <= i < step.scanned.len() && step.scanned[i] == last;
            assert(seen.contains(step.scanned[i]));
        } else {
            assert(seen.contains(step.index[j]));
        }
        assert(text::text_le(step.start, last));
    } else {
        lemma_greatest(step.scanned);
        let i = choose|i: int| 0 <= i < step.scanned.len() && step.scanned[i] == last;
        assert(seen.contains(step.scanned[i]));
    }
    text::successor_is_least(last);
    assert(le(last, last));
    assert(!text::text_le(next, last));
    assert(ahead(seen, next).subset_of(ahead(seen, step.start))) by {
        assert forall|key: Seq<char>| ahead(seen, next).contains(key) implies ahead(
            seen,
            step.start,
        ).contains(key) by {
            assert(le(step.start, last) && le(last, next));
            assert(le(step.start, next) && le(next, key));
            assert(le(step.start, key));
        }
    }
    assert(ahead(seen, step.start).subset_of(seen));
    lemma_len_subset(ahead(seen, step.start), seen);
    ahead(seen, next).lemma_subset_not_in_lt(ahead(seen, step.start), last);
}

proof fn lemma_walk_length(
    end: Seq<u8>,
    limit: u32,
    steps: Seq<WalkStep>,
    seen: Set<Seq<char>>,
)
    requires
        limit > 0,
        seen.finite(),
        is_walk(end, limit, steps),
        steps.len() > 0,
        forall|i: int| 0 <= i < steps.len() ==> drawn_from(#[trigger] steps[i], seen),
    ensures
        steps.len() <= ahead(seen, steps[0].start).len() + 1,
    decreases steps.len(),
{
    if steps.len() > 1 {
        let rest = steps.drop_first();
        assert forall|i: int| 0 <= i < rest.len() implies drawn_from(#[trigger] rest[i], seen) by {
            assert(rest[i] == steps[i + 1]);
        }
        lemma_walk_length(end, limit, rest, seen);
        lemma_step_advances(steps[0], end, limit, seen);
    }
}

/// A walk comes to its end: where what the scans and the index give is drawn from finitely
/// many keys, it has at most one step more than there are keys.
pub proof fn walk_comes_to_its_end(
    end: Seq<u8>,
    limit: u32,
    steps: Seq<WalkStep>,
    seen: Set<Seq<char>>,
)
    requires
        limit > 0,
        seen.finite(),
        is_walk(end, limit, steps),
        forall|i: int| 0 <= i < steps.len() ==> drawn_from(#[trigger] steps[i], seen),
    ensures
        steps.len() <= seen.len() + 1,
{
    if steps.len() > 0 {
        lemma_walk_length(end, limit, steps, seen);
        lemma_len_subset(ahead(seen, steps[0].start), seen);
    }
}

/// The scan went by the start, and neither it nor the index gives a key twice.
pub open spec fn orderly(step: WalkStep) -> bool {
    &&& step.scanned.no_duplicates()
    &&& step.index.no_duplicates()
    &&& forall|i: int|
        0 <= i < step.scanned.len() ==> text::text_le(step.start, #[trigger] step.scanned[i])
}

/// The next start of a step whose scan went by the start is not behind it.
pub proof fn lemma_next_start_is_ahead(step: WalkStep, end: Seq<u8>, limit: u32)
    requires
        limit > 0,
        forall|i: int|
            0 <= i < step.scanned.len() ==> text::text_le(step.start, #[trigger] step.scanned[i]),
        step.page(end, limit).next_start is Some,
    ensures
        text::text_le(step.start, step.page(end, limit).next_start->0),
{
    let le = text::text_order();
    let page = step.page(end, limit);
    let reached = list::reach(step.scanned, limit);
    text::text_order_is_total();
    let last = if list::ordered(step.candidates(), step.start, end, reached).len() > limit {
        page.keys[page.keys.len() - 1]
    } else {
        reached->0
    };
    page_is_ordered_and_in_range(step.candidates(), step.start, end, limit, reached);
    if list::ordered(step.candidates(), step.start, end, reached).len() > limit {
        assert(list::offered(last, step.start, end, reached));
    } else {
        lemma_greatest(step.scanned);
        let i = choose|i: int| 0 <= i < step.scanned.len() && step.scanned[i] == last;
        assert(text::text_le(step.start, step.scanned[i]));
    }
    text::successor_is_least(last);
    assert(le(step.start, last) && le(last, text::successor(last)));
}

/// A walk lists its keys in ascending order, over all its pages, and none of them twice.
pub proof fn walk_is_in_order(end: Seq<u8>, limit: u32, steps: Seq<WalkStep>)
    requires
        limit > 0,
        is_walk(end, limit, steps),
        forall|i: int| 0 <= i < steps.len() ==> orderly(#[trigger] steps[i]),
    ensures
        ascending(walk_keys(end, limit, steps)),
        forall|i: int|
            0 <= i < walk_keys(end, limit, steps).len() ==> text::text_le(
                steps[0].start,
                #[trigger] walk_keys(end, limit, steps)[i],
            ),
    decreases steps.len(),
{
    if steps.len() > 0 {
        let le = text::text_order();
        let step = steps[0];
        let page = step.page(end, limit);
        let rest = steps.drop_first();
        let later = walk_keys(end, limit, rest);
        let all = walk_keys(end, limit, steps);
        let pred = |key: Seq<char>| !list::internal(key);
        let reached = list::reach(step.scanned, limit);
        text::text_order_is_total();
        assert forall|i: int| 0 <= i < rest.len() implies orderly(#[trigger] rest[i]) by {
            assert(rest[i] == steps[i + 1]);
        }
        walk_is_in_order(end, limit, rest);
        assert(orderly(step));
        lemma_filter_keeps_apart(step.scanned, pred);
        page_is_ordered_and_in_range(step.candidates(), step.start, end, limit, reached);
        next_start_follows_the_page(step.candidates(), step.start, end, limit, reached);
        if rest.len() == 0 {
            assert(later.len() == 0);
        } else {
            assert(page.next_start == Some(rest[0].start));
            lemma_next_start_is_ahead(step, end, limit);
        }
        assert forall|i: int, j: int| 0 <= i < j < all.len() implies text::text_le(
            #[trigger] all[i],
            #[trigger] all[j],
        ) && all[i] != all[j] by {
            let n = page.keys.len() as int;
            if j < n {
                assert(all[i] == page.keys[i] && all[j] == page.keys[j]);
            } else if i >= n {
                assert(all[i] == later[i - n] && all[j] == later[j - n]);
            } else {
                let next = rest[0].start;
                assert(all[i] == page.keys[i] && all[j] == later[j - n]);
                assert(!text::text_le(next, page.keys[i]));
                assert(le(next, page.keys[i]) || le(page.keys[i], next));
                assert(le(next, later[j - n]));
                assert(le(page.keys[i], later[j - n]));
            }
        }
        assert forall|i: int| 0 <= i < all.len() implies text::text_le(
            step.start,
            #[trigger] all[i],
        ) by {
            let n = page.keys.len() as int;
            if i < n {
                assert(all[i] == page.keys[i]);
                assert(list::offered(page.keys[i], step.start, end, reached));
            } else {
                assert(all[i] == later[i - n]);
                assert(le(step.start, rest[0].start) && le(rest[0].start, later[i - n]));
                assert(le(step.start, later[i - n]));
            }
        }
    }
}

/// `key`, where it is in the range of the step, is on its page or left for later.
spec fn accounted(step: WalkStep, end: Seq<u8>, limit: u32, key: Seq<char>) -> bool {
    list::in_range(key, step.start, end) ==> step.page(end, limit).keys.contains(key)
        || left_for_later(step.page(end, limit), key)
}

/// A finished walk lists what every step of it accounts for.
proof fn lemma_walk_lists(end: Seq<u8>, limit: u32, steps: Seq<WalkStep>, key: Seq<char>)
    requires
        is_walk(end, limit, steps),
        is_finished(end, limit, steps),
        list::in_range(key, steps[0].start, end),
        forall|i: int| 0 <= i < steps.len() ==> accounted(#[trigger] steps[i], end, limit, key),
    ensures
        walk_keys(end, limit, steps).contains(key),
    decreases steps.len(),
{
    let page = steps[0].page(end, limit);
    let rest = steps.drop_first();
    let later = walk_keys(end, limit, rest);
    let all = walk_keys(end, limit, steps);
    assert(accounted(steps[0], end, limit, key));
    if page.keys.contains(key) {
        let i = choose|i: int| 0 <= i < page.keys.len() && page.keys[i] == key;
        assert(all[i] == key);
    } else {
        assert(steps.len() > 1);
        assert(rest.last() == steps.last());
        assert forall|i: int| 0 <= i < rest.len() implies accounted(
            #[trigger] rest[i],
            end,
            limit,
            key,
        ) by {
            assert(rest[i] == steps[i + 1]);
        }
        lemma_walk_lists(end, limit, rest, key);
        let i = choose|i: int| 0 <= i < later.len() && later[i] == key;
        assert(all[page.keys.len() + i] == key);
    }
}

/// The keys that a scan of the ledger gives: those in the range, in ascending order, and
/// the first `limit` of them where there are more.
pub open spec fn scan_of(
    ledger: Set<Seq<char>>,
    start: Seq<char>,
    end: Seq<u8>,
    limit: u32,
    scanned: Seq<Seq<char>>,
) -> bool {
    &&& ascending(scanned)
    &&& scanned.len() <= limit
    &&& forall|i: int|
        0 <= i < scanned.len() ==> ledger.contains(#[trigger] scanned[i]) && list::in_range(
            scanned[i],
            start,
            end,
        )
    &&& forall|key: Seq<char>| #[trigger]
        ledger.contains(key) && list::in_range(key, start, end) ==> scanned.contains(key) || {
            &&& scanned.len() == limit
            &&& forall|i: int|
                0 <= i < scanned.len() ==> text::text_le(#[trigger] scanned[i], key)
        }
}

/// A page that goes by the index after a scan of the ledger holds no key of the ledger but of
/// its own bookkeeping: the scan would have given it.
pub proof fn index_page_holds_no_record(
    ledger: Set<Seq<char>>,
    step: WalkStep,
    end: Seq<u8>,
    limit: u32,
    key: Seq<char>,
)
    requires
        limit > 0,
        scan_of(ledger, step.start, end, limit, step.scanned),
        list::record_keys(step.scanned).len() == 0,
        step.page(end, limit).keys.contains(key),
        ledger.contains(key),
    ensures
        list::internal(key),
{
    broadcast use group_filter_ensures;

    let pred = |key: Seq<char>| !list::internal(key);
    let reached = list::reach(step.scanned, limit);
    let page = step.page(end, limit);
    let le = text::text_order();
    page_is_ordered_and_in_range(step.candidates(), step.start, end, limit, reached);
    let i = choose|i: int| 0 <= i < page.keys.len() && page.keys[i] == key;
    assert(list::offered(page.keys[i], step.start, end, reached));
    if !step.scanned.contains(key) {
        text::text_order_is_total();
        lemma_greatest(step.scanned);
        let last = reached->0;
        let j = choose|j: int| 0 <= j < step.scanned.len() && step.scanned[j] == last;
        assert(text::text_le(step.scanned[j], key));
        assert(le(key, last) && le(last, key));
    }
    let j = choose|j: int| 0 <= j < step.scanned.len() && step.scanned[j] == key;
    if !list::internal(key) {
        assert(pred(step.scanned[j]));
        assert(list::record_keys(step.scanned).contains(key));
    }
}

/// Paging skips no record: a record's key in the range is on the page, or the page names
/// a start for the next one that does not come after the key.
pub proof fn paging_skips_no_record(
    ledger: Set<Seq<char>>,
    step: WalkStep,
    end: Seq<u8>,
    limit: u32,
    key: Seq<char>,
)
    requires
        limit > 0,
        scan_of(ledger, step.start, end, limit, step.scanned),
        ledger.contains(key),
        !list::internal(key),
        list::in_range(key, step.start, end),
    ensures
        step.page(end, limit).keys.contains(key) || left_for_later(step.page(end, limit), key),
{
    broadcast use group_filter_ensures;

    let pred = |key: Seq<char>| !list::internal(key);
    let reached = list::reach(step.scanned, limit);
    let le = text::text_order();
    if step.scanned.contains(key) {
        let i = choose|i: int| 0 <= i < step.scanned.len() && step.scanned[i] == key;
        assert(pred(step.scanned[i]));
        assert(list::record_keys(step.scanned).contains(key));
        paging_skips_no_candidate(step.candidates(), step.start, end, limit, reached, key);
    } else {
        text::text_order_is_total();
        lemma_greatest(step.scanned);
        let last = reached->0;
        let i = choose|i: int| 0 <= i < step.scanned.len() && step.scanned[i] == last;
        assert(text::text_le(step.scanned[i], key));
        if text::text_le(key, last) {
            assert(le(key, last) && le(last, key));
        }
        lemma_beyond_reach_is_left(step.candidates(), step.start, end, limit, reached, key);
    }
}

proof fn lemma_scan_is_orderly(
    ledger: Set<Seq<char>>,
    index: Seq<Seq<char>>,
    step: WalkStep,
    end: Seq<u8>,
    limit: u32,
)
    requires
        scan_of(ledger, step.start, end, limit, step.scanned),
        step.index == index,
    ensures
        index.no_duplicates() ==> orderly(step),
        drawn_from(step, ledger.union(index.to_set())),
{
    assert forall|i: int, j: int|
        0 <= i < step.scanned.len() && 0 <= j < step.scanned.len() && i != j implies step.scanned[i]
        != step.scanned[j] by {
        if i < j {
            assert(text::text_le(step.scanned[i], step.scanned[j]));
        } else {
            assert(text::text_le(step.scanned[j], step.scanned[i]));
        }
    }
    assert forall|i: int| 0 <= i < step.index.len() implies ledger.union(
        index.to_set(),
    ).contains(#[trigger] step.index[i]) by {
        assert(index.contains(step.index[i]));
    }
}

proof fn lemma_union_is_small(a: Set<Seq<char>>, b: Seq<Seq<char>>)
    requires
        a.finite(),
    ensures
        a.union(b.to_set()).finite(),
        a.union(b.to_set()).len() <= a.len() + b.len(),
{
    seq_to_set_is_finite(b);
    b.lemma_cardinality_of_set();
    lemma_len_union(a, b.to_set());
}

/// A full walk of a ledger that does not change comes to its end and lists the key of every
/// record; where the index holds no key twice, it lists its keys in ascending order, each of
/// them once.
///
/// The scans give the keys of the ledger; the index is read where a scan has given none that
/// is a record's, and may hold anything.
pub proof fn full_walk_lists_every_record(
    ledger: Set<Seq<char>>,
    index: Seq<Seq<char>>,
    end: Seq<u8>,
    limit: u32,
    steps: Seq<WalkStep>,
)
    requires
        limit > 0,
        ledger.finite(),
        is_walk(end, limit, steps),
        forall|i: int|
            0 <= i < steps.len() ==> scan_of(
                ledger,
                (#[trigger] steps[i]).start,
                end,
                limit,
                steps[i].scanned,
            ) && steps[i].index == index,
    ensures
        steps.len() <= ledger.len() + index.len() + 1,
        index.no_duplicates() ==> ascending(walk_keys(end, limit, steps)),
        is_finished(end, limit, steps) ==> forall|key: Seq<char>| #[trigger]
            ledger.contains(key) && !list::internal(key) && list::in_range(
                key,
                steps[0].start,
                end,
            ) ==> walk_keys(end, limit, steps).contains(key),
{
    let seen = ledger.union(index.to_set());
    assert forall|i: int| 0 <= i < steps.len() implies (index.no_duplicates() ==> orderly(
        #[trigger] steps[i],
    )) && drawn_from(steps[i], seen) by {
        lemma_scan_is_orderly(ledger, index, steps[i], end, limit);
    }
    lemma_union_is_small(ledger, index);
    walk_comes_to_its_end(end, limit, steps, seen);
    if index.no_duplicates() {
        walk_is_in_order(end, limit, steps);
    }
    if is_finished(end, limit, steps) {
        assert forall|key: Seq<char>| #[trigger]
            ledger.contains(key) && !list::internal(key) && list::in_range(
                key,
                steps[0].start,
                end,
            ) implies walk_keys(end, limit, steps).contains(key) by {
            assert forall|i: int| 0 <= i < steps.len() implies accounted(
                #[trigger] steps[i],
                end,
                limit,
                key,
            ) by {
                if list::in_range(key, steps[i].start, end) {
                    paging_skips_no_record(ledger, steps[i], end, limit, key);
                }
            }
            lemma_walk_lists(end, limit, steps, key);
        }
    }
}

/// Where the scans give no record's key, a walk goes by the index: it comes to its end and
/// lists every key of the stored index exactly once, in ascending order.
///
/// The scans may give keys of the ledger's own bookkeeping, drawn from `internal`.
pub proof fn index_walk_lists_each_key_once(
    stored: Option<Seq<u8>>,
    internal: Set<Seq<char>>,
    end: Seq<u8>,
    limit: u32,
    steps: Seq<WalkStep>,
)
    requires
        limit > 0,
        internal.finite(),
        index::loaded(stored).no_duplicates(),
        is_walk(end, limit, steps),
        forall|i: int|
            0 <= i < steps.len() ==> {
                &&& list::record_keys((#[trigger] steps[i]).scanned).len() == 0
                &&& orderly(steps[i])
                &&& steps[i].scanned.to_set().subset_of(internal)
                &&& steps[i].index == index::loaded(stored)
            },
    ensures
        steps.len() <= internal.len() + index::loaded(stored).len() + 1,
        ascending(walk_keys(end, limit, steps)),
        is_finished(end, limit, steps) ==> forall|key: Seq<char>| #[trigger]
            index::loaded(stored).contains(key) && list::in_range(key, steps[0].start, end)
                ==> walk_keys(end, limit, steps).contains(key),
{
    let index = index::loaded(stored);
    let seen = internal.union(index.to_set());
    assert forall|i: int| 0 <= i < steps.len() implies orderly(#[trigger] steps[i]) && drawn_from(
        steps[i],
        seen,
    ) by {
        let step = steps[i];
        assert forall|j: int| 0 <= j < step.scanned.len() implies seen.contains(
            #[trigger] step.scanned[j],
        ) && text::text_le(step.start, step.scanned[j]) by {
            assert(step.scanned.to_set().contains(step.scanned[j]));
        }
        assert forall|j: int| 0 <= j < step.index.len() implies seen.contains(
            #[trigger] step.index[j],
        ) by {
            assert(index.contains(step.index[j]));
        }
    }
    lemma_union_is_small(internal, index);
    walk_comes_to_its_end(end, limit, steps, seen);
    walk_is_in_order(end, limit, steps);
    if is_finished(end, limit, steps) {
        assert forall|key: Seq<char>| #[trigger]
            index.contains(key) && list::in_range(key, steps[0].start, end) implies walk_keys(
            end,
            limit,
            steps,
        ).contains(key) by {
            assert forall|i: int| 0 <= i < steps.len() implies accounted(
                #[trigger] steps[i],
                end,
                limit,
                key,
            ) by {
                let step = steps[i];
                if list::in_range(key, step.start, end) {
                    paging_skips_no_candidate(
                        step.candidates(),
                        step.start,
                        end,
                        limit,
                        list::reach(step.scanned, limit),
                        key,
                    );
                }
            }
            lemma_walk_lists(end, limit, steps, key);
        }
    }
}

// ---------------------------------------------------------------------------
// What a request gets
// ---------------------------------------------------------------------------

/// The range of a request holds a key exactly if it is not before the start, where one is
/// named, and comes before the end, where one is named.
pub proof fn range_is_what_was_asked_for(request: ListRequestView, key: Seq<char>)
    ensures
        list::in_range(key, request.query().start, request.query().end) <==> {
            &&& request.start is Some ==> text::text_le(request.start->0, key)
            &&& request.end is Some ==> !text::text_le(request.end->0, key)
        },
{
    if request.end is None {
        open_range_holds_what_follows(request.start, request.limit, key);
    }
    reveal_with_fuel(text::bytes_le, 1);
}

/// How far a scan has got is known exactly where it gave as many rows as were asked for, and
/// is the last of its keys in their order.
pub proof fn reach_is_the_furthest_key(keys: Seq<Seq<char>>, limit: u32)
    ensures
        list::reach(keys, limit) is Some <==> keys.len() > 0 && keys.len() >= limit,
        list::reach(keys, limit) is Some ==> {
            &&& keys.contains(list::reach(keys, limit)->0)
            &&& forall|i: int|
                0 <= i < keys.len() ==> text::text_le(
                    #[trigger] keys[i],
                    list::reach(keys, limit)->0,
                )
        },
{
    if keys.len() > 0 {
        lemma_greatest(keys);
    }
}

/// A page is as full as it may be: it lacks an offered key only where it holds as many as were
/// asked for, and then none of its keys comes after the one it lacks.
pub proof fn page_is_full_or_complete(
    keys: Seq<Seq<char>>,
    start: Seq<char>,
    end: Seq<u8>,
    limit: u32,
    reached: Option<Seq<char>>,
    key: Seq<char>,
)
    requires
        keys.contains(key),
        list::in_range(key, start, end),
        reached is Some ==> text::text_le(key, reached->0),
        !list::page_of(keys, start, end, limit, reached).keys.contains(key),
    ensures
        list::page_of(keys, start, end, limit, reached).keys.len() == limit,
        forall|i: int|
            0 <= i < limit ==> text::text_le(
                #[trigger] list::page_of(keys, start, end, limit, reached).keys[i],
                key,
            ),
{
    let page = list::page_of(keys, start, end, limit, reached);
    let candidates = list::ordered(keys, start, end, reached);
    lemma_ordered(keys, start, end, reached);
    assert(candidates.contains(key));
    let j = choose|j: int| 0 <= j < candidates.len() && candidates[j] == key;
    if j < page.keys.len() {
        assert(page.keys[j] == key);
    }
    assert forall|i: int| 0 <= i < limit implies text::text_le(#[trigger] page.keys[i], key) by {
        assert(page.keys[i] == candidates[i]);
        assert(text::text_order()(candidates[i], candidates[j]));
    }
}

/// A page names a next start only where there is something left: where it is full, right
/// after its last key, or where the scan hit the limit, right after what it reached.
pub proof fn next_start_is_right_after(
    keys: Seq<Seq<char>>,
    start: Seq<char>,
    end: Seq<u8>,
    limit: u32,
    reached: Option<Seq<char>>,
)
    requires
        limit > 0,
    ensures
        ({
            let page = list::page_of(keys, start, end, limit, reached);
            &&& reached is None && keys.len() <= limit ==> page.next_start is None
            &&& page.next_start is Some ==> {
                ||| page.keys.len() == limit && page.next_start->0 == page.keys.last().push('\0')
                ||| reached is Some && page.next_start->0 == reached->0.push('\0')
            }
            &&& reached is None && page.keys.len() < limit ==> page.next_start is None
            &&& reached is Some ==> page.next_start is Some
        }),
{
    lemma_ordered_len(keys, start, end, reached);
}

/// A page and what it leaves out are together the candidates that are not before the start,
/// come before the end and not after what the scan reached, each as often as it is there, in
/// their order. The page leaves something out only where it holds as many as were asked for,
/// and then the next page starts right after its last key; else it starts right after what
/// the scan reached, if anything.
pub proof fn page_is_the_first_keys_in_order(
    keys: Seq<Seq<char>>,
    start: Seq<char>,
    end: Seq<u8>,
    limit: u32,
    reached: Option<Seq<char>>,
) -> (rest: Seq<Seq<char>>)
    ensures
        ({
            let page = list::page_of(keys, start, end, limit, reached);
            let inside = keys.filter(
                |key: Seq<char>|
                    {
                        &&& text::text_le(start, key)
                        &&& !text::bytes_le(end, encode_utf8(key))
                        &&& reached is Some ==> text::text_le(key, reached->0)
                    },
            );
            let all = page.keys + rest;
            &&& all.to_multiset() == inside.to_multiset()
            &&& forall|i: int, j: int|
                0 <= i < j < all.len() ==> text::text_le(#[trigger] all[i], #[trigger] all[j])
            &&& page.keys.len() <= limit
            &&& rest.len() > 0 ==> page.keys.len() == limit
            &&& page.next_start == if rest.len() > 0 && limit > 0 {
                Some(page.keys.last().push('\0'))
            } else if reached is Some {
                Some(reached->0.push('\0'))
            } else {
                None
            }
        }),
{
    let page = list::page_of(keys, start, end, limit, reached);
    let candidates = list::ordered(keys, start, end, reached);
    let rest = candidates.skip(page.keys.len() as int);
    let offered = |key: Seq<char>| list::offered(key, start, end, reached);
    let asked = |key: Seq<char>|
        {
            &&& text::text_le(start, key)
            &&& !text::bytes_le(end, encode_utf8(key))
            &&& reached is Some ==> text::text_le(key, reached->0)
        };
    assert(offered =~= asked);
    text::text_order_is_total();
    keys.filter(offered).lemma_sort_by_ensures(text::text_order());
    let all = page.keys + rest;
    assert(all =~= candidates);
    assert forall|i: int, j: int| 0 <= i < j < all.len() implies text::text_le(
        #[trigger] all[i],
        #[trigger] all[j],
    ) by {
        assert(text::text_order()(candidates[i], candidates[j]));
    }
    rest
}

proof fn lemma_ordered_len(
    keys: Seq<Seq<char>>,
    start: Seq<char>,
    end: Seq<u8>,
    reached: Option<Seq<char>>,
)
    ensures
        list::ordered(keys, start, end, reached).len() <= keys.len(),
{
    broadcast use group_to_multiset_ensures;

    let pred = |key: Seq<char>| list::offered(key, start, end, reached);
    let kept = keys.filter(pred);
    text::text_order_is_total();
    kept.lemma_sort_by_ensures(text::text_order());
    assert(kept.sort_by(text::text_order()).len() == kept.sort_by(
        text::text_order(),
    ).to_multiset().len());
    assert(kept.len() == kept.to_multiset().len());
    keys.lemma_filter_len(pred);
}

/// The keys of the page that a listing goes on to read; none where it is done.
pub open spec fn keys_to_read(state: ListRecordsView) -> Seq<Seq<char>> {
    match state {
        ListRecordsView::Fetch { page, .. } => page.keys,
        _ => seq![],
    }
}

/// Every key that a listing reads is one that the scan gave and not of the bookkeeping, or
/// where the scan gave no such key one that the index lists; it is not before the start that
/// was named, and comes before the end that was named; and no more keys are read than were
/// asked for.
pub proof fn listed_keys_are_in_the_asked_range(
    request: ListRequestView,
    rows: Seq<(Seq<u8>, Seq<u8>)>,
    stored: Option<Seq<u8>>,
    i: int,
)
    requires
        0 <= i < keys_to_read(listing(request.query(), rows, stored)).len(),
    ensures
        ({
            let keys = keys_to_read(listing(request.query(), rows, stored));
            let key = keys[i];
            &&& keys.len() <= request.query().limit
            &&& request.start is Some ==> text::text_le(request.start->0, key)
            &&& request.end is Some ==> !text::text_le(request.end->0, key)
            &&& if exists|j: int|
                0 <= j < rows.len() && !"__"@.is_prefix_of(
                    text::decoded((#[trigger] rows[j]).0),
                ) {
                &&& !"__"@.is_prefix_of(key)
                &&& exists|j: int|
                    0 <= j < rows.len() && text::decoded((#[trigger] rows[j]).0) == key
            } else {
                index::loaded(stored).contains(key)
            }
        }),
{
    let query = request.query();
    let step = WalkStep {
        start: query.start,
        scanned: list::row_keys(rows),
        index: index::loaded(stored),
    };
    let keys = keys_to_read(listing(query, rows, stored));
    let key = keys[i];
    let reached = list::reach(step.scanned, query.limit);
    listing_shows_the_page(query, rows, stored);
    page_is_ordered_and_in_range(step.candidates(), query.start, query.end, query.limit, reached);
    assert(list::offered(keys[i], query.start, query.end, reached));
    range_is_what_was_asked_for(request, key);
    list::row_keys_are_texts(rows);
    list::record_keys_are_the_others(step.scanned, key);
    if exists|j: int|
        0 <= j < rows.len() && !"__"@.is_prefix_of(text::decoded((#[trigger] rows[j]).0)) {
        let j = choose|j: int|
            0 <= j < rows.len() && !"__"@.is_prefix_of(text::decoded((#[trigger] rows[j]).0));
        list::record_keys_are_the_others(step.scanned, step.scanned[j]);
        assert(list::record_keys(step.scanned).contains(step.scanned[j]));
        assert(list::record_keys(step.scanned).contains(key));
        let k = choose|k: int| 0 <= k < step.scanned.len() && step.scanned[k] == key;
        assert(text::decoded(rows[k].0) == key);
    } else {
        if list::record_keys(step.scanned).len() > 0 {
            let other = list::record_keys(step.scanned)[0];
            list::record_keys_are_the_others(step.scanned, other);
            assert(list::record_keys(step.scanned).contains(other));
            let k = choose|k: int| 0 <= k < step.scanned.len() && step.scanned[k] == other;
            assert(text::decoded(rows[k].0) == other);
        }
    }
}

/// Every key that a scan gave, not of the bookkeeping and in the asked range, is read where
/// the scan gave no more rows than it was asked for.
pub proof fn every_scanned_record_is_listed(
    request: ListRequestView,
    rows: Seq<(Seq<u8>, Seq<u8>)>,
    stored: Option<Seq<u8>>,
    j: int,
)
    requires
        rows.len() <= request.query().limit,
        0 <= j < rows.len(),
        !"__"@.is_prefix_of(text::decoded(rows[j].0)),
        request.start is Some ==> text::text_le(request.start->0, text::decoded(rows[j].0)),
        request.end is Some ==> !text::text_le(request.end->0, text::decoded(rows[j].0)),
    ensures
        keys_to_read(listing(request.query(), rows, stored)).contains(text::decoded(rows[j].0)),
{
    let query = request.query();
    let step = WalkStep {
        start: query.start,
        scanned: list::row_keys(rows),
        index: index::loaded(stored),
    };
    let key = text::decoded(rows[j].0);
    let keys = list::record_keys(step.scanned);
    let reached = list::reach(step.scanned, query.limit);
    list::query_asks_for_what_was_named(request);
    list::row_keys_are_texts(rows);
    assert(step.scanned[j] == key);
    list::record_keys_are_the_others(step.scanned, key);
    range_is_what_was_asked_for(request, key);
    listing_shows_the_page(query, rows, stored);
    reach_is_the_furthest_key(step.scanned, query.limit);
    assert(step.candidates() == keys);
    let page = step.page(query.end, query.limit);
    if !page.keys.contains(key) {
        page_is_full_or_complete(keys, query.start, query.end, query.limit, reached, key);
        lemma_more_offered_than_shown(keys, query.start, query.end, query.limit, reached, key);
    }
}

/// Where an offered key is not on the page there are more candidates than fit.
proof fn lemma_more_offered_than_shown(
    keys: Seq<Seq<char>>,
    start: Seq<char>,
    end: Seq<u8>,
    limit: u32,
    reached: Option<Seq<char>>,
    key: Seq<char>,
)
    requires
        keys.contains(key),
        list::offered(key, start, end, reached),
        !list::page_of(keys, start, end, limit, reached).keys.contains(key),
    ensures
        keys.len() > limit,
{
    let page = list::page_of(keys, start, end, limit, reached);
    let candidates = list::ordered(keys, start, end, reached);
    lemma_ordered(keys, start, end, reached);
    lemma_ordered_len(keys, start, end, reached);
    if candidates.len() <= limit {
        assert(page.keys =~= candidates);
    }
}

/// Where the scan gave no record's key and did not hit the limit, every key of the index that
/// is in the asked range is read, as far as they fit.
pub proof fn every_indexed_key_is_listed(
    request: ListRequestView,
    rows: Seq<(Seq<u8>, Seq<u8>)>,
    stored: Option<Seq<u8>>,
    key: Seq<char>,
)
    requires
        rows.len() < request.query().limit,
        forall|j: int|
            0 <= j < rows.len() ==> "__"@.is_prefix_of(text::decoded((#[trigger] rows[j]).0)),
        index::loaded(stored).contains(key),
        index::loaded(stored).len() <= request.query().limit,
        request.start is Some ==> text::text_le(request.start->0, key),
        request.end is Some ==> !text::text_le(request.end->0, key),
    ensures
        keys_to_read(listing(request.query(), rows, stored)).contains(key),
{
    let query = request.query();
    let step = WalkStep {
        start: query.start,
        scanned: list::row_keys(rows),
        index: index::loaded(stored),
    };
    let reached = list::reach(step.scanned, query.limit);
    list::query_asks_for_what_was_named(request);
    list::row_keys_are_texts(rows);
    if list::record_keys(step.scanned).len() > 0 {
        let other = list::record_keys(step.scanned)[0];
        list::record_keys_are_the_others(step.scanned, other);
        assert(list::record_keys(step.scanned).contains(other));
        let k = choose|k: int| 0 <= k < step.scanned.len() && step.scanned[k] == other;
        assert("__"@.is_prefix_of(text::decoded(rows[k].0)));
    }
    range_is_what_was_asked_for(request, key);
    listing_shows_the_page(query, rows, stored);
    reach_is_the_furthest_key(step.scanned, query.limit);
    let page = step.page(query.end, query.limit);
    if !page.keys.contains(key) {
        lemma_more_offered_than_shown(
            step.candidates(),
            query.start,
            query.end,
            query.limit,
            reached,
            key,
        );
    }
}

/// A response tells which read path gave its keys, and shows the scan.
pub proof fn listing_tells_its_source(
    query: QueryView,
    rows: Seq<(Seq<u8>, Seq<u8>)>,
    stored: Option<Seq<u8>>,
)
    ensures
        ({
            let response = match listing(query, rows, stored) {
                ListRecordsView::Fetch { response, .. } => response,
                ListRecordsView::Done { result } => result->Ok_0,
                _ => arbitrary(),
            };
            &&& response.diagnostics == list::diagnostics(list::row_keys(rows), rows)
            &&& response.source == if exists|j: int|
                0 <= j < rows.len() && !"__"@.is_prefix_of(
                    text::decoded((#[trigger] rows[j]).0),
                ) {
                "scan"@
            } else {
                "index"@
            }
        }),
{
    let scanned = list::row_keys(rows);
    listing_shows_the_page(query, rows, stored);
    list::row_keys_are_texts(rows);
    if exists|j: int|
        0 <= j < rows.len() && !"__"@.is_prefix_of(text::decoded((#[trigger] rows[j]).0)) {
        let j = choose|j: int|
            0 <= j < rows.len() && !"__"@.is_prefix_of(text::decoded((#[trigger] rows[j]).0));
        list::record_keys_are_the_others(scanned, scanned[j]);
        assert(list::record_keys(scanned).contains(scanned[j]));
    } else if list::record_keys(scanned).len() > 0 {
        let other = list::record_keys(scanned)[0];
        list::record_keys_are_the_others(scanned, other);
        assert(list::record_keys(scanned).contains(other));
        let k = choose|k: int| 0 <= k < scanned.len() && scanned[k] == other;
        assert(text::decoded(rows[k].0) == other);
    }
}

/// A listing scans the range that was asked for, or everything; it is refused where the input
/// is no request, and fails where the scan does.
pub proof fn listing_begins_with_the_scan(
    request: ListRequestView,
    why: Seq<char>,
    e: Seq<char>,
)
    ensures
        ListRecordsView::start(InputView::Parsed(request)) == (ListRecordsView::Scan {
            query: request.query(),
        }),
        ListRecordsView::start(InputView::Missing) == (ListRecordsView::Scan {
            query: QueryView { start: seq![], end: seq![0xffu8], limit: 100 },
        }),
        ListRecordsView::start(InputView::Malformed(why)) == (ListRecordsView::Done {
            result: Err("list-records: bad input: "@ + why),
        }),
        ListRecordsView::start(InputView::Parsed(request)).next(HostEventView::Scanned(Err(e)))
            == (ListRecordsView::Done { result: Err("kv scan: "@ + e) }),
{
}

} // verus!
