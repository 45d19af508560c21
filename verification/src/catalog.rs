//! What reading the ledger gives: the index, single records, pages and full walks.

use crate::get::{GetRecord, GetRecordView};
use crate::host::{FetchedView, HostEventView, InputView, StoredView};
use crate::index;
use crate::laws;
use crate::laws::Operation;
use crate::list;
use crate::list::{ListRecordsView, ListRequestView, ListResponseView, PageView};
use crate::model;
use crate::model::Ledger;
use crate::record::RecordView;
use crate::submit::SubmitView;
use crate::text;
use crate::verify::VerifyView;
use crate::walk;
use crate::walk::WalkStep;
use vstd::prelude::*;

verus! {

// ---------------------------------------------------------------------------
// The index
// ---------------------------------------------------------------------------

/// A key that lines keep apart from others, and not the key of the index.
pub open spec fn plain(key: Seq<char>) -> bool {
    &&& key.len() > 0
    &&& !key.contains('\n')
    &&& key.last() != '\r'
    &&& key != index::INDEX_KEY@
}

impl Ledger {
    /// The keys that the index lists.
    pub open spec fn indexed(self) -> Seq<Seq<char>> {
        index::loaded(self.index())
    }

    /// Every record's key is in the index, but for `pending`.
    pub open spec fn lists_all_but(self, pending: Option<Seq<char>>) -> bool {
        forall|key: Seq<char>| #[trigger]
            self.holds(key) ==> self.indexed().contains(key) || Some(key) == pending
    }

    /// Every record's key is in the index.
    pub open spec fn lists_all(self) -> bool {
        self.lists_all_but(None)
    }
}

/// Nothing fails in the events of a submission, and the index is read as it is stored.
pub open spec fn submit_faultless(
    ledger: Ledger,
    state: SubmitView,
    events: Seq<HostEventView>,
) -> bool
    decreases events.len(),
{
    events.len() > 0 ==> {
        &&& events[0] is Stored ==> events[0] == HostEventView::Stored(StoredView::Written)
        &&& events[0] is Anchored ==> events[0]->Anchored_0 is Ok
        &&& events[0] is IndexRead ==> events[0]->IndexRead_0 == ledger.index()
        &&& events[0] is IndexWritten ==> events[0]->IndexWritten_0 is Ok
        &&& submit_faultless(
            ledger.after_submit_event(state, events[0]),
            state.next(events[0]),
            events.drop_first(),
        )
    }
}

/// The index holds plain keys only and none of them twice, no record stands in its place,
/// and it lists every record's key but for `pending` as long as it is not full.
spec fn index_invariant_but(ledger: Ledger, pending: Option<Seq<char>>) -> bool {
    &&& !ledger.holds(index::INDEX_KEY@)
    &&& forall|i: int| 0 <= i < ledger.indexed().len() ==> plain(#[trigger] ledger.indexed()[i])
    &&& ledger.indexed().no_duplicates()
    &&& ledger.indexed().len() < index::INDEX_MAX ==> ledger.lists_all_but(pending)
}

/// The key that a submission under way is about.
spec fn key_of(state: SubmitView) -> Seq<char> {
    match state {
        SubmitView::Lookup { idempotency_key, .. } => idempotency_key,
        SubmitView::Enter { idempotency_key, .. } => idempotency_key,
        SubmitView::Reserve { record, .. } => record.idempotency_key,
        SubmitView::Secure { record, .. } => record.idempotency_key,
        SubmitView::Clock { idempotency_key, .. } => idempotency_key,
        SubmitView::Call { idempotency_key, .. } => idempotency_key,
        SubmitView::Stamp { idempotency_key, .. } => idempotency_key,
        SubmitView::Write { record } => record.idempotency_key,
        SubmitView::Anchor { record, .. } => record.idempotency_key,
        SubmitView::ReadIndex { record } => record.idempotency_key,
        SubmitView::WriteIndex { record, .. } => record.idempotency_key,
        SubmitView::Done { .. } => seq![],
    }
}

/// What holds of the index between the events of a submission.
spec fn submit_index_invariant(ledger: Ledger, state: SubmitView) -> bool {
    match state {
        SubmitView::Lookup { .. } => plain(key_of(state)) && index_invariant_but(ledger, None),
        SubmitView::Done { .. } => index_invariant_but(ledger, None),
        SubmitView::WriteIndex { record, index } => {
            &&& plain(key_of(state))
            &&& index_invariant_but(ledger, Some(key_of(state)))
            &&& ledger.indexed().len() < index::INDEX_MAX
            &&& !ledger.indexed().contains(key_of(state))
            &&& index == index::joined(ledger.indexed().push(key_of(state)))
        },
        _ => plain(key_of(state)) && index_invariant_but(ledger, Some(key_of(state))),
    }
}

proof fn lemma_submit_index_event(ledger: Ledger, state: SubmitView, event: HostEventView)
    requires
        submit_index_invariant(ledger, state),
        model::submit_event_possible(ledger, state, event),
        event is Stored ==> event == HostEventView::Stored(StoredView::Written),
        event is Anchored ==> event->Anchored_0 is Ok,
        event is IndexRead ==> event->IndexRead_0 == ledger.index(),
        event is IndexWritten ==> event->IndexWritten_0 is Ok,
    ensures
        submit_index_invariant(ledger.after_submit_event(state, event), state.next(event)),
{
    let after = ledger.after_submit_event(state, event);
    match state {
        SubmitView::WriteIndex { record, index } => {
            let key = record.idempotency_key;
            let before = ledger.indexed();
            let keys = before.push(key);
            model::lemma_indexing(ledger, index, event);
            assert forall|i: int| 0 <= i < keys.len() implies plain(#[trigger] keys[i]) by {
                if i < before.len() {
                    assert(plain(before[i]));
                }
            }
            assert(index::indexable(keys));
            index::index_round_trip(keys);
            text::encoded_text_is_read_back(index);
            assert(after.indexed() == keys);
            assert forall|i: int, j: int|
                0 <= i < keys.len() && 0 <= j < keys.len() && i != j implies keys[i] != keys[j] by {
                if i == before.len() {
                    assert(before.contains(before[j]));
                } else if j == before.len() {
                    assert(before.contains(before[i]));
                }
            }
            assert forall|k: Seq<char>| #[trigger] after.holds(k) implies after.indexed().contains(
                k,
            ) by {
                if before.contains(k) {
                    let i = choose|i: int| 0 <= i < before.len() && before[i] == k;
                    assert(keys[i] == k);
                } else {
                    assert(keys[before.len() as int] == k);
                }
            }
        },
        SubmitView::Reserve { record, .. } => {
            model::lemma_written(ledger, record, event);
            assert(after.index() == ledger.index());
        },
        SubmitView::Write { record } => {
            model::lemma_written(ledger, record, event);
            assert(after.index() == ledger.index());
        },
        _ => {
            model::lemma_same_entries(after, ledger);
            assert(after.index() == ledger.index());
        },
    }
}

proof fn lemma_submit_index_run(ledger: Ledger, state: SubmitView, events: Seq<HostEventView>)
    requires
        submit_index_invariant(ledger, state),
        model::submit_possible(ledger, state, events),
        submit_faultless(ledger, state, events),
    ensures
        submit_index_invariant(model::submit_ledger(ledger, state, events), model::submit_end(state, events)),
    decreases events.len(),
{
    if events.len() > 0 {
        lemma_submit_index_event(ledger, state, events[0]);
        lemma_submit_index_run(
            ledger.after_submit_event(state, events[0]),
            state.next(events[0]),
            events.drop_first(),
        );
    }
}

proof fn lemma_verify_index_run(
    first: Ledger,
    ledger: Ledger,
    state: VerifyView,
    events: Seq<HostEventView>,
)
    requires
        laws::verify_invariant(first, ledger, state),
        index_invariant_but(ledger, None),
        model::verify_possible(ledger, state, events),
    ensures
        index_invariant_but(model::verify_ledger(ledger, state, events), None),
    decreases events.len(),
{
    if events.len() > 0 {
        let after = ledger.after_verify_event(state, events[0]);
        laws::lemma_verify_event(first, ledger, state, events[0]);
        match state {
            VerifyView::Write { record } => {
                model::lemma_written(ledger, record, events[0]);
                assert(after.index() == ledger.index());
            },
            _ => {
                model::lemma_same_entries(after, ledger);
                assert(after.index() == ledger.index());
            },
        }
        lemma_verify_index_run(first, after, state.next(events[0]), events.drop_first());
    }
}

impl Operation {
    /// A submission comes to its end and nothing fails in it, and the key that it submits is
    /// a plain one.
    pub open spec fn faultless(self, ledger: Ledger) -> bool {
        match self {
            Operation::Submit(input, events) => {
                &&& input matches InputView::Parsed(request) ==> plain(request.idempotency_key)
                &&& model::submit_end(SubmitView::start(input), events) is Done
                &&& submit_faultless(ledger, SubmitView::start(input), events)
            },
            Operation::Verify(_, _) => true,
        }
    }
}

/// Nothing fails in the submissions.
pub open spec fn history_faultless(ledger: Ledger, operations: Seq<Operation>) -> bool
    decreases operations.len(),
{
    operations.len() > 0 ==> {
        &&& operations[0].faultless(ledger)
        &&& history_faultless(operations[0].after(ledger), operations.drop_first())
    }
}

proof fn lemma_history_index(ledger: Ledger, operations: Seq<Operation>)
    requires
        ledger.keyed(),
        index_invariant_but(ledger, None),
        laws::history_possible(ledger, operations),
        history_faultless(ledger, operations),
    ensures
        index_invariant_but(laws::history(ledger, operations), None),
    decreases operations.len(),
{
    if operations.len() > 0 {
        laws::lemma_operation(ledger, operations[0]);
        match operations[0] {
            Operation::Submit(input, events) => {
                lemma_submit_index_run(ledger, SubmitView::start(input), events);
            },
            Operation::Verify(input, events) => {
                lemma_verify_index_run(ledger, ledger, VerifyView::start(input), events);
            },
        }
        lemma_history_index(operations[0].after(ledger), operations.drop_first());
    }
}

/// The index keeps the ledger enumerable: where nothing fails and the keys are plain, it
/// lists no key twice and, as long as it is not full, the key of every record.
pub proof fn index_lists_every_record(operations: Seq<Operation>)
    requires
        laws::history_possible(Ledger::empty(), operations),
        history_faultless(Ledger::empty(), operations),
    ensures
        laws::history(Ledger::empty(), operations).indexed().no_duplicates(),
        laws::history(Ledger::empty(), operations).indexed().len() < index::INDEX_MAX ==> laws::history(
            Ledger::empty(),
            operations,
        ).lists_all(),
{
    lemma_history_index(Ledger::empty(), operations);
}

// ---------------------------------------------------------------------------
// Reads
// ---------------------------------------------------------------------------

/// What a store without faults answers to a lookup, where a record or nothing is there.
pub open spec fn lookup(ledger: Ledger, key: Seq<char>) -> FetchedView {
    if ledger.holds(key) {
        FetchedView::Found(ledger.record(key))
    } else {
        FetchedView::Absent
    }
}

/// A read gives back what was written: the record that the ledger holds under the key,
/// or the refusal where it holds none.
pub proof fn get_gives_what_the_ledger_holds(ledger: Ledger, key: Seq<char>)
    requires
        ledger.entries.contains_key(key) ==> ledger.holds(key),
    ensures
        ledger.answers(key, lookup(ledger, key)),
        GetRecordView::start(InputView::Parsed(key)).next(
            HostEventView::Fetched(lookup(ledger, key)),
        ) == (GetRecordView::Done {
            result: if ledger.holds(key) {
                Ok(ledger.record(key))
            } else {
                Err("get-record: no record for "@ + key)
            },
        }),
{
}

/// The state that a listing reaches by events.
pub open spec fn list_end(state: ListRecordsView, events: Seq<HostEventView>) -> ListRecordsView
    decreases events.len(),
{
    if events.len() == 0 {
        state
    } else {
        list_end(state.next(events[0]), events.drop_first())
    }
}

/// The answers of a store without faults to lookups of the keys, in their order.
pub open spec fn lookups(ledger: Ledger, keys: Seq<Seq<char>>) -> Seq<HostEventView> {
    keys.map_values(|key: Seq<char>| HostEventView::Fetched(lookup(ledger, key)))
}

/// The records that the ledger holds under the keys, in their order.
pub open spec fn held(ledger: Ledger, keys: Seq<Seq<char>>) -> Seq<RecordView>
    decreases keys.len(),
{
    if keys.len() == 0 {
        seq![]
    } else if ledger.holds(keys[0]) {
        seq![ledger.record(keys[0])] + held(ledger, keys.drop_first())
    } else {
        held(ledger, keys.drop_first())
    }
}

/// From a position of a page on, a listing gives back the records that the ledger holds
/// under the page's keys, in their order.
pub proof fn listing_gives_what_the_ledger_holds(
    ledger: Ledger,
    page: PageView,
    position: usize,
    response: ListResponseView,
)
    requires
        position < page.keys.len() <= usize::MAX,
    ensures
        list_end(
            ListRecordsView::Fetch { page, position, response },
            lookups(ledger, page.keys.skip(position as int)),
        ) == (ListRecordsView::Done {
            result: Ok(
                ListResponseView {
                    records: response.records + held(ledger, page.keys.skip(position as int)),
                    ..response
                },
            ),
        }),
    decreases page.keys.len() - position,
{
    let state = ListRecordsView::Fetch { page, position, response };
    let keys = page.keys.skip(position as int);
    let events = lookups(ledger, keys);
    let rest = page.keys.skip(position + 1);
    let found = ledger.holds(keys[0]);
    let grown = if found {
        ListResponseView { records: response.records.push(ledger.record(keys[0])), ..response }
    } else {
        response
    };
    assert(keys.drop_first() =~= rest);
    assert(events.drop_first() =~= lookups(ledger, rest));
    assert(events[0] == HostEventView::Fetched(lookup(ledger, keys[0])));
    assert(grown.records + held(ledger, rest) =~= response.records + held(ledger, keys));
    if position + 1 < page.keys.len() {
        listing_gives_what_the_ledger_holds(ledger, page, (position + 1) as usize, grown);
    } else {
        reveal_with_fuel(list_end, 2);
        assert(state.next(events[0]) == (ListRecordsView::Done { result: Ok(grown) }));
        assert(grown.records + held(ledger, rest) =~= grown.records);
    }
}

/// The records that the ledger holds under keys put together are those under the one keys,
/// then those under the others.
proof fn lemma_held_add(ledger: Ledger, a: Seq<Seq<char>>, b: Seq<Seq<char>>)
    ensures
        held(ledger, a + b) == held(ledger, a) + held(ledger, b),
    decreases a.len(),
{
    if a.len() == 0 {
        assert(a + b =~= b);
        assert(held(ledger, a) + held(ledger, b) =~= held(ledger, b));
    } else {
        assert((a + b).drop_first() =~= a.drop_first() + b);
        lemma_held_add(ledger, a.drop_first(), b);
        assert(held(ledger, a + b) =~= held(ledger, a) + held(ledger, b));
    }
}

/// The records that the pages of a walk give, put together.
pub open spec fn walk_records(
    ledger: Ledger,
    end: Seq<u8>,
    limit: u32,
    steps: Seq<WalkStep>,
) -> Seq<RecordView>
    decreases steps.len(),
{
    if steps.len() == 0 {
        seq![]
    } else {
        held(ledger, steps[0].page(end, limit).keys) + walk_records(
            ledger,
            end,
            limit,
            steps.drop_first(),
        )
    }
}

proof fn lemma_walk_records(ledger: Ledger, end: Seq<u8>, limit: u32, steps: Seq<WalkStep>)
    ensures
        walk_records(ledger, end, limit, steps) == held(
            ledger,
            walk::walk_keys(end, limit, steps),
        ),
    decreases steps.len(),
{
    if steps.len() > 0 {
        let rest = steps.drop_first();
        lemma_walk_records(ledger, end, limit, rest);
        lemma_held_add(
            ledger,
            steps[0].page(end, limit).keys,
            walk::walk_keys(end, limit, rest),
        );
    }
}

/// The keys of the records, in their order.
pub open spec fn keys_of(records: Seq<RecordView>) -> Seq<Seq<char>> {
    records.map_values(|record: RecordView| record.idempotency_key)
}

/// The record of every key that has one is among those held.
proof fn lemma_held_record(ledger: Ledger, keys: Seq<Seq<char>>, key: Seq<char>)
    requires
        ledger.holds(key),
        keys.contains(key),
    ensures
        held(ledger, keys).contains(ledger.record(key)),
    decreases keys.len(),
{
    let rest = keys.drop_first();
    let some = held(ledger, rest);
    let all = held(ledger, keys);
    let n: int = if ledger.holds(keys[0]) {
        1
    } else {
        0
    };
    if key == keys[0] {
        assert(all[0] == ledger.record(key));
    } else {
        let j = choose|j: int| 0 <= j < keys.len() && keys[j] == key;
        assert(rest[j - 1] == key);
        lemma_held_record(ledger, rest, key);
        let i = choose|i: int| 0 <= i < some.len() && some[i] == ledger.record(key);
        assert(all[n + i] == ledger.record(key));
    }
}

/// The records under ascending keys have ascending keys, each of them one of the keys.
proof fn lemma_held(ledger: Ledger, keys: Seq<Seq<char>>)
    requires
        ledger.keyed(),
        walk::ascending(keys),
    ensures
        walk::ascending(keys_of(held(ledger, keys))),
        forall|i: int|
            0 <= i < held(ledger, keys).len() ==> keys.contains(
                (#[trigger] held(ledger, keys)[i]).idempotency_key,
            ),
    decreases keys.len(),
{
    if keys.len() > 0 {
        let rest = keys.drop_first();
        let some = held(ledger, rest);
        let all = held(ledger, keys);
        assert forall|i: int, j: int| 0 <= i < j < rest.len() implies text::text_le(
            #[trigger] rest[i],
            #[trigger] rest[j],
        ) && rest[i] != rest[j] by {
            assert(rest[i] == keys[i + 1] && rest[j] == keys[j + 1]);
        }
        lemma_held(ledger, rest);
        let n: int = if ledger.holds(keys[0]) {
            1
        } else {
            0
        };
        assert(all.len() == n + some.len());
        assert forall|i: int| n <= i < all.len() implies all[i] == some[i - n] by {}
        assert forall|i: int| 0 <= i < all.len() implies keys.contains(
            (#[trigger] all[i]).idempotency_key,
        ) by {
            if i >= n {
                let key = some[i - n].idempotency_key;
                assert(rest.contains(key));
                let j = choose|j: int| 0 <= j < rest.len() && rest[j] == key;
                assert(keys[j + 1] == key);
            } else {
                assert(all[i].idempotency_key == keys[0]);
            }
        }
        assert forall|i: int, j: int| 0 <= i < j < keys_of(all).len() implies text::text_le(
            #[trigger] keys_of(all)[i],
            #[trigger] keys_of(all)[j],
        ) && keys_of(all)[i] != keys_of(all)[j] by {
            if i >= n {
                assert(keys_of(all)[i] == keys_of(some)[i - n]);
                assert(keys_of(all)[j] == keys_of(some)[j - n]);
            } else {
                let key = some[j - n].idempotency_key;
                assert(rest.contains(key));
                let k = choose|k: int| 0 <= k < rest.len() && rest[k] == key;
                assert(keys[0] != keys[k + 1] && text::text_le(keys[0], keys[k + 1]));
            }
        }
    }
}

proof fn lemma_held_nothing(ledger: Ledger, keys: Seq<Seq<char>>)
    requires
        forall|i: int| 0 <= i < keys.len() ==> !ledger.holds(#[trigger] keys[i]),
    ensures
        held(ledger, keys).len() == 0,
    decreases keys.len(),
{
    if keys.len() > 0 {
        let rest = keys.drop_first();
        assert forall|i: int| 0 <= i < rest.len() implies !ledger.holds(#[trigger] rest[i]) by {
            assert(rest[i] == keys[i + 1]);
        }
        lemma_held_nothing(ledger, rest);
        assert(!ledger.holds(keys[0]));
    }
}

/// The scan of the step gave the keys of the ledger.
pub open spec fn scans(ledger: Ledger, step: WalkStep, end: Seq<u8>, limit: u32) -> bool {
    walk::scan_of(ledger.entries.dom(), step.start, end, limit, step.scanned)
}

/// The records of a page are in ascending order, between its start and the next one.
proof fn lemma_page_records(ledger: Ledger, step: WalkStep, end: Seq<u8>, limit: u32)
    requires
        limit > 0,
        ledger.keyed(),
        forall|key: Seq<char>| #[trigger] ledger.holds(key) ==> !list::internal(key),
        scans(ledger, step, end, limit),
    ensures
        ({
            let page = step.page(end, limit);
            let records = held(ledger, page.keys);
            &&& walk::ascending(keys_of(records))
            &&& forall|i: int|
                0 <= i < keys_of(records).len() ==> {
                    &&& text::text_le(step.start, #[trigger] keys_of(records)[i])
                    &&& page.next_start is Some ==> !text::text_le(
                        page.next_start->0,
                        keys_of(records)[i],
                    )
                }
        }),
{
    let page = step.page(end, limit);
    let records = held(ledger, page.keys);
    let reached = list::reach(step.scanned, limit);
    if list::record_keys(step.scanned).len() == 0 {
        assert forall|i: int| 0 <= i < page.keys.len() implies !ledger.holds(
            #[trigger] page.keys[i],
        ) by {
            let key = page.keys[i];
            assert(page.keys.contains(key));
            if ledger.holds(key) {
                walk::index_page_holds_no_record(
                    ledger.entries.dom(),
                    step,
                    end,
                    limit,
                    key,
                );
            }
        }
        lemma_held_nothing(ledger, page.keys);
    } else {
        let pred = |key: Seq<char>| !list::internal(key);
        assert(step.scanned.no_duplicates()) by {
            assert forall|i: int, j: int|
                0 <= i < step.scanned.len() && 0 <= j < step.scanned.len() && i
                    != j implies step.scanned[i] != step.scanned[j] by {
                if i < j {
                    assert(text::text_le(step.scanned[i], step.scanned[j]));
                } else {
                    assert(text::text_le(step.scanned[j], step.scanned[i]));
                }
            }
        }
        walk::lemma_filter_keeps_apart(step.scanned, pred);
        walk::page_is_ordered_and_in_range(step.candidates(), step.start, end, limit, reached);
        walk::next_start_follows_the_page(step.candidates(), step.start, end, limit, reached);
        lemma_held(ledger, page.keys);
        assert forall|i: int| 0 <= i < keys_of(records).len() implies {
            &&& text::text_le(step.start, #[trigger] keys_of(records)[i])
            &&& page.next_start is Some ==> !text::text_le(
                page.next_start->0,
                keys_of(records)[i],
            )
        } by {
            let key = records[i].idempotency_key;
            assert(page.keys.contains(key));
            let j = choose|j: int| 0 <= j < page.keys.len() && page.keys[j] == key;
            assert(list::offered(page.keys[j], step.start, end, reached));
        }
    }
}

proof fn lemma_walk_records_ascend(
    ledger: Ledger,
    end: Seq<u8>,
    limit: u32,
    steps: Seq<WalkStep>,
)
    requires
        limit > 0,
        ledger.keyed(),
        forall|key: Seq<char>| #[trigger] ledger.holds(key) ==> !list::internal(key),
        walk::is_walk(end, limit, steps),
        forall|i: int| 0 <= i < steps.len() ==> scans(ledger, #[trigger] steps[i], end, limit),
    ensures
        walk::ascending(keys_of(walk_records(ledger, end, limit, steps))),
        forall|i: int|
            0 <= i < walk_records(ledger, end, limit, steps).len() ==> text::text_le(
                steps[0].start,
                #[trigger] keys_of(walk_records(ledger, end, limit, steps))[i],
            ),
    decreases steps.len(),
{
    if steps.len() > 0 {
        let le = text::text_order();
        let step = steps[0];
        let page = step.page(end, limit);
        let rest = steps.drop_first();
        let now = keys_of(held(ledger, page.keys));
        let later = keys_of(walk_records(ledger, end, limit, rest));
        let all = keys_of(walk_records(ledger, end, limit, steps));
        text::text_order_is_total();
        assert(all =~= now + later);
        assert forall|i: int| 0 <= i < rest.len() implies scans(
            ledger,
            #[trigger] rest[i],
            end,
            limit,
        ) by {
            assert(rest[i] == steps[i + 1]);
        }
        lemma_walk_records_ascend(ledger, end, limit, rest);
        assert(scans(ledger, step, end, limit));
        lemma_page_records(ledger, step, end, limit);
        if rest.len() == 0 {
            assert(later.len() == 0);
        } else {
            assert(page.next_start == Some(rest[0].start));
            assert forall|i: int| 0 <= i < step.scanned.len() implies text::text_le(
                step.start,
                #[trigger] step.scanned[i],
            ) by {
                assert(list::in_range(step.scanned[i], step.start, end));
            }
            walk::lemma_next_start_is_ahead(step, end, limit);
        }
        let n = now.len() as int;
        assert forall|i: int, j: int| 0 <= i < j < all.len() implies text::text_le(
            #[trigger] all[i],
            #[trigger] all[j],
        ) && all[i] != all[j] by {
            if j < n {
                assert(all[i] == now[i] && all[j] == now[j]);
            } else if i >= n {
                assert(all[i] == later[i - n] && all[j] == later[j - n]);
            } else {
                let next = rest[0].start;
                assert(all[i] == now[i] && all[j] == later[j - n]);
                assert(!text::text_le(next, now[i]));
                assert(le(next, now[i]) || le(now[i], next));
                assert(le(next, later[j - n]));
                assert(le(now[i], later[j - n]));
            }
        }
        assert forall|i: int| 0 <= i < all.len() implies text::text_le(
            step.start,
            #[trigger] all[i],
        ) by {
            if i < n {
                assert(all[i] == now[i]);
            } else {
                assert(all[i] == later[i - n]);
                assert(le(step.start, rest[0].start) && le(rest[0].start, later[i - n]));
                assert(le(step.start, later[i - n]));
            }
        }
    }
}

/// A full walk of a ledger that does not change comes to its end, and its pages put together
/// give every record exactly once, in ascending order of their keys.
///
/// The scans give the keys of the ledger, the index may hold anything, and no record stands
/// under a key of the ledger's own bookkeeping.
pub proof fn full_walk_gives_each_record_once(
    ledger: Ledger,
    index: Seq<Seq<char>>,
    end: Seq<u8>,
    limit: u32,
    steps: Seq<WalkStep>,
)
    requires
        limit > 0,
        ledger.keyed(),
        ledger.entries.dom().finite(),
        forall|key: Seq<char>| #[trigger] ledger.holds(key) ==> !list::internal(key),
        walk::is_walk(end, limit, steps),
        forall|i: int|
            0 <= i < steps.len() ==> scans(ledger, #[trigger] steps[i], end, limit)
                && steps[i].index == index,
    ensures
        steps.len() <= ledger.entries.dom().len() + index.len() + 1,
        walk::ascending(keys_of(walk_records(ledger, end, limit, steps))),
        walk::is_finished(end, limit, steps) ==> forall|key: Seq<char>| #[trigger]
            ledger.holds(key) && list::in_range(key, steps[0].start, end) ==> walk_records(
                ledger,
                end,
                limit,
                steps,
            ).contains(ledger.record(key)),
{
    assert forall|i: int| 0 <= i < steps.len() implies walk::scan_of(
        ledger.entries.dom(),
        (#[trigger] steps[i]).start,
        end,
        limit,
        steps[i].scanned,
    ) && steps[i].index == index by {
        assert(scans(ledger, steps[i], end, limit));
    }
    walk::full_walk_lists_every_record(ledger.entries.dom(), index, end, limit, steps);
    lemma_walk_records(ledger, end, limit, steps);
    lemma_walk_records_ascend(ledger, end, limit, steps);
    assert forall|key: Seq<char>|
        walk::is_finished(end, limit, steps) && #[trigger] ledger.holds(key) && list::in_range(
            key,
            steps[0].start,
            end,
        ) implies walk_records(ledger, end, limit, steps).contains(ledger.record(key)) by {
        assert(ledger.entries.dom().contains(key));
        lemma_held_record(ledger, walk::walk_keys(end, limit, steps), key);
    }
}

// ---------------------------------------------------------------------------
// What a read gets
// ---------------------------------------------------------------------------

/// A read asks for the entry under the very key that was requested: a record that the ledger
/// can answer with is the one under that key and is returned, an absence is one of that key
/// and is refused by its name, and a store error is told.
pub proof fn get_reads_the_very_key(ledger: Ledger, key: Seq<char>, fetched: FetchedView)
    requires
        GetRecordView::start(InputView::Parsed(key)) is Lookup ==> ledger.answers(
            GetRecordView::start(InputView::Parsed(key))->idempotency_key,
            fetched,
        ),
    ensures
        ({
            let start = GetRecordView::start(InputView::Parsed(key));
            let end = start.next(HostEventView::Fetched(fetched));
            &&& start == (GetRecordView::Lookup { idempotency_key: key })
            &&& match fetched {
                FetchedView::Found(record) => {
                    &&& ledger.holds(key)
                    &&& ledger.record(key) == record
                    &&& end == (GetRecordView::Done { result: Ok(record) })
                },
                FetchedView::Absent => {
                    &&& !ledger.entries.contains_key(key)
                    &&& end == (GetRecordView::Done {
                        result: Err("get-record: no record for "@ + key),
                    })
                },
                FetchedView::Unreadable(e) => end == (GetRecordView::Done {
                    result: Err("kv get: "@ + e),
                }),
                FetchedView::Corrupt(e) => end == (GetRecordView::Done {
                    result: Err("ledger entry "@ + key + " is corrupt: "@ + e),
                }),
            }
        }),
{
}

/// A read without a request is refused.
pub proof fn get_refuses_what_is_no_request(why: Seq<char>)
    ensures
        GetRecordView::start(InputView::Missing) == (GetRecordView::Done {
            result: Err("get-record: missing input"@),
        }),
        GetRecordView::start(InputView::Malformed(why)) == (GetRecordView::Done {
            result: Err("get-record: bad input: "@ + why),
        }),
{
}

/// The view of a read under way shows all of it, and a lookup expects any answer.
pub proof fn get_view_shows_everything(state: GetRecord, event: HostEventView)
    ensures
        match state {
            GetRecord::Lookup { idempotency_key } => {
                &&& state@ == (GetRecordView::Lookup { idempotency_key: idempotency_key@ })
                &&& state@.expects(event) <==> event is Fetched
            },
            GetRecord::Done { result: Ok(record) } => {
                &&& state@ == (GetRecordView::Done { result: Ok(record@) })
                &&& !state@.expects(event)
            },
            GetRecord::Done { result: Err(why) } => {
                &&& state@ == (GetRecordView::Done { result: Err(why@) })
                &&& !state@.expects(event)
            },
        },
{
}

/// Every record held under keys is the one under one of them.
proof fn lemma_held_from(ledger: Ledger, keys: Seq<Seq<char>>, i: int)
    requires
        0 <= i < held(ledger, keys).len(),
    ensures
        exists|j: int|
            0 <= j < keys.len() && ledger.holds_record(#[trigger] keys[j], held(ledger, keys)[i]),
    decreases keys.len(),
{
    if keys.len() > 0 {
        let rest = keys.drop_first();
        let n: int = if ledger.holds(keys[0]) {
            1
        } else {
            0
        };
        if i >= n {
            assert(held(ledger, keys)[i] == held(ledger, rest)[i - n]);
            lemma_held_from(ledger, rest, i - n);
            let j = choose|j: int|
                0 <= j < rest.len() && ledger.holds_record(
                    #[trigger] rest[j],
                    held(ledger, rest)[i - n],
                );
            assert(keys[j + 1] == rest[j]);
        } else {
            assert(ledger.holds_record(keys[0], held(ledger, keys)[i]));
        }
    }
}

/// What a listing returns over a store without faults are the ledger's records under the keys
/// that it read, every one of them, and none other: each is not before the start that was
/// named, and comes before the end that was named.
pub proof fn listed_records_are_in_the_asked_range(
    ledger: Ledger,
    request: ListRequestView,
    rows: Seq<(Seq<u8>, Seq<u8>)>,
    stored: Option<Seq<u8>>,
)
    requires
        ledger.keyed(),
    ensures
        ({
            let state = walk::listing(request.query(), rows, stored);
            let keys = walk::keys_to_read(state);
            let end = list_end(state, lookups(ledger, keys));
            &&& end is Done
            &&& end->result is Ok
            &&& forall|i: int|
                0 <= i < end->result->Ok_0.records.len() ==> {
                    let record = #[trigger] end->result->Ok_0.records[i];
                    &&& ledger.holds_record(record.idempotency_key, record)
                    &&& keys.contains(record.idempotency_key)
                    &&& request.start is Some ==> text::text_le(
                        request.start->0,
                        record.idempotency_key,
                    )
                    &&& request.end is Some ==> !text::text_le(
                        request.end->0,
                        record.idempotency_key,
                    )
                }
            &&& forall|key: Seq<char>| #[trigger]
                keys.contains(key) && ledger.holds(key) ==> end->result->Ok_0.records.contains(
                    ledger.record(key),
                )
        }),
{
    let query = request.query();
    let state = walk::listing(query, rows, stored);
    let keys = walk::keys_to_read(state);
    let end = list_end(state, lookups(ledger, keys));
    walk::listing_shows_the_page(query, rows, stored);
    if state is Done {
        assert(lookups(ledger, keys).len() == 0);
        assert(end == state);
    } else {
        let page = state->page;
        let response = state->response;
        let step = WalkStep {
            start: query.start,
            scanned: list::row_keys(rows),
            index: index::loaded(stored),
        };
        walk::page_is_ordered_and_in_range(
            step.candidates(),
            query.start,
            query.end,
            query.limit,
            list::reach(step.scanned, query.limit),
        );
        assert(page.keys.skip(0) =~= page.keys);
        listing_gives_what_the_ledger_holds(ledger, page, 0, response);
        let records = held(ledger, keys);
        assert(response.records + records =~= records);
        assert(end->result->Ok_0.records == records);
        assert forall|i: int| 0 <= i < end->result->Ok_0.records.len() implies {
            let record = #[trigger] end->result->Ok_0.records[i];
            &&& ledger.holds_record(record.idempotency_key, record)
            &&& keys.contains(record.idempotency_key)
            &&& request.start is Some ==> text::text_le(request.start->0, record.idempotency_key)
            &&& request.end is Some ==> !text::text_le(request.end->0, record.idempotency_key)
        } by {
            lemma_held_from(ledger, keys, i);
            let j = choose|j: int|
                0 <= j < keys.len() && ledger.holds_record(#[trigger] keys[j], records[i]);
            assert(ledger.holds(keys[j]));
            walk::listed_keys_are_in_the_asked_range(request, rows, stored, j);
        }
        assert forall|key: Seq<char>| #[trigger]
            keys.contains(key) && ledger.holds(key) implies records.contains(
            ledger.record(key),
        ) by {
            lemma_held_record(ledger, keys, key);
        }
    }
}

/// A key without a readable record is passed over: the listing goes on with the next key, and
/// what it has read so far stays as it is.
pub proof fn unreadable_records_are_passed_over(
    page: PageView,
    position: usize,
    response: ListResponseView,
    e: Seq<char>,
)
    requires
        position < page.keys.len() <= usize::MAX,
    ensures
        ({
            let state = ListRecordsView::Fetch { page, position, response };
            let next = if position + 1 < page.keys.len() {
                ListRecordsView::Fetch { page, position: (position + 1) as usize, response }
            } else {
                ListRecordsView::Done { result: Ok(response) }
            };
            &&& state.next(HostEventView::Fetched(FetchedView::Absent)) == next
            &&& state.next(HostEventView::Fetched(FetchedView::Unreadable(e))) == next
            &&& state.next(HostEventView::Fetched(FetchedView::Corrupt(e))) == next
        }),
{
}

/// A record that a lookup gave is listed after those before it, whichever it is, and the
/// listing goes on with the next key.
pub proof fn found_record_is_listed(
    page: PageView,
    position: usize,
    response: ListResponseView,
    record: RecordView,
)
    requires
        position < page.keys.len() <= usize::MAX,
    ensures
        ({
            let next = (ListRecordsView::Fetch { page, position, response }).next(
                HostEventView::Fetched(FetchedView::Found(record)),
            );
            let grown = if position + 1 < page.keys.len() {
                next->response
            } else {
                next->result->Ok_0
            };
            &&& position + 1 < page.keys.len() ==> next is Fetch && next->page == page
                && next->position == position + 1
            &&& position + 1 == page.keys.len() ==> next is Done && next->result is Ok
            &&& grown.records == response.records.push(record)
            &&& grown.next_start == response.next_start
            &&& grown.source == response.source
            &&& grown.diagnostics == response.diagnostics
        }),
{
}

} // verus!
