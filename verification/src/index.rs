//! The secondary index: every idempotency key of the ledger, one to a line.
//!
//! A convenience for listing, never the source of truth.

use crate::text;
use vstd::prelude::*;
use vstd::seq_lib::*;
use vstd::string::*;
use vstd::utf8::*;

verus! {

/// The key under which the index is stored. The `__` prefix sets it apart from the
/// keys of records.
pub const INDEX_KEY: &'static str = "__index";

/// Ceiling on indexed keys. The index is one value, so it is a write hotspot and would
/// grow without a bound.
pub const INDEX_MAX: usize = 5000;

/// The keys in the text of an index: its lines, but for the empty ones.
pub open spec fn entries(index: Seq<char>) -> Seq<Seq<char>> {
    text::lines(index).filter(|line: Seq<char>| line.len() > 0)
}

/// `keys` on lines of their own.
pub open spec fn joined(keys: Seq<Seq<char>>) -> Seq<char>
    decreases keys.len(),
{
    if keys.len() == 0 {
        seq![]
    } else if keys.len() == 1 {
        keys[0]
    } else {
        keys[0] + "\n"@ + joined(keys.drop_first())
    }
}

/// The keys of a stored index; `None` stands for one that is missing or unreadable.
pub open spec fn loaded(stored: Option<Seq<u8>>) -> Seq<Seq<char>> {
    match stored {
        Some(bytes) => entries(text::decoded(bytes)),
        None => seq![],
    }
}

/// The bytes of a stored index, where it could be read and is there.
pub open spec fn stored_bytes(stored: Result<Option<Vec<u8>>, String>) -> Option<Seq<u8>> {
    match stored {
        Ok(Some(bytes)) => Some(bytes@),
        _ => None,
    }
}

/// What appending a key to the index comes to.
#[derive(Debug, Clone)]
pub enum IndexUpdate {
    /// The key is there already.
    Listed,
    /// The index holds as many keys as it may.
    Full,
    /// The text that the index now has to hold.
    Write(String),
}

#[verifier::ext_equal]
pub enum IndexUpdateView {
    Listed,
    Full,
    Write(Seq<char>),
}

impl View for IndexUpdate {
    type V = IndexUpdateView;

    open spec fn view(&self) -> IndexUpdateView {
        match self {
            IndexUpdate::Listed => IndexUpdateView::Listed,
            IndexUpdate::Full => IndexUpdateView::Full,
            IndexUpdate::Write(index) => IndexUpdateView::Write(index@),
        }
    }
}

/// What appending `key` to the index of `keys` comes to.
pub open spec fn appended(keys: Seq<Seq<char>>, key: Seq<char>) -> IndexUpdateView {
    if keys.contains(key) {
        IndexUpdateView::Listed
    } else if keys.len() >= INDEX_MAX {
        IndexUpdateView::Full
    } else {
        IndexUpdateView::Write(joined(keys.push(key)))
    }
}

/// The keys in the text of an index.
pub fn index_entries(index: &str) -> (r: Vec<String>)
    ensures
        r.deep_view() == entries(index@),
{
    let all = text::split_lines(index);
    let ghost lines = all.deep_view();
    let ghost pred = |line: Seq<char>| line.len() > 0;
    let mut r: Vec<String> = Vec::new();
    assert(r.deep_view() =~= lines.take(0).filter(pred)) by {
        reveal(Seq::filter);
    }
    for i in 0..all.len()
        invariant
            lines == all.deep_view(),
            pred == (|line: Seq<char>| line.len() > 0),
            r.deep_view() == lines.take(i as int).filter(pred),
    {
        let ghost before = r;
        proof {
            text::lemma_filter_step(lines, i as int, pred);
        }
        if !all[i].as_str().is_empty() {
            r.push(all[i].clone());
            proof {
                text::lemma_deep_view_push(before, r, all@[i as int]);
            }
        }
    }
    assert(lines.take(all.len() as int) =~= lines);
    r
}

/// Reads the index. A missing or unreadable index is treated as empty.
pub fn index_load(stored: &Result<Option<Vec<u8>>, String>) -> (r: Vec<String>)
    ensures
        r.deep_view() == loaded(stored_bytes(*stored)),
{
    match stored {
        Ok(Some(bytes)) => index_entries(text::decode(bytes.as_slice()).as_str()),
        _ => {
            let r: Vec<String> = Vec::new();
            assert(r.deep_view() =~= seq![]);
            r
        },
    }
}

/// `keys` on lines of their own.
pub fn join_keys(keys: &Vec<String>) -> (r: String)
    ensures
        r@ == joined(keys.deep_view()),
{
    let ghost all = keys.deep_view();
    let mut r = String::new();
    assert(all.skip(0) =~= all);
    assert(r@ + joined(all) =~= joined(all));
    for i in 0..keys.len()
        invariant
            all == keys.deep_view(),
            joined(all) == r@ + (if i > 0 && i < all.len() {
                "\n"@ + joined(all.skip(i as int))
            } else {
                joined(all.skip(i as int))
            }),
    {
        let ghost rest = all.skip(i as int);
        assert(rest.drop_first() =~= all.skip(i + 1));
        assert(rest[0] == keys@[i as int]@);
        if i > 0 {
            r.append("\n");
        }
        r.append(keys[i].as_str());
        assert(joined(all) =~= r@ + (if i + 1 < all.len() {
            "\n"@ + joined(all.skip(i + 1))
        } else {
            joined(all.skip(i + 1))
        }));
    }
    r
}

fn is_listed(keys: &Vec<String>, key: &str) -> (r: bool)
    ensures
        r == keys.deep_view().contains(key@),
{
    for i in 0..keys.len()
        invariant
            forall|j: int| 0 <= j < i ==> keys.deep_view()[j] != key@,
    {
        if text::same_text(keys[i].as_str(), key) {
            assert(keys.deep_view()[i as int] == key@);
            return true;
        }
    }
    false
}

/// What appending a key to the index of `keys` comes to.
pub fn append_key(keys: Vec<String>, key: &str) -> (r: IndexUpdate)
    ensures
        r@ == appended(keys.deep_view(), key@),
{
    if is_listed(&keys, key) {
        return IndexUpdate::Listed;
    }
    if keys.len() >= INDEX_MAX {
        return IndexUpdate::Full;
    }
    let mut keys = keys;
    let ghost before = keys;
    let added = key.to_string();
    keys.push(added);
    proof {
        text::lemma_deep_view_push(before, keys, added);
    }
    IndexUpdate::Write(join_keys(&keys))
}

/// What appending a key to the stored index comes to.
pub fn index_append(stored: &Result<Option<Vec<u8>>, String>, key: &str) -> (r: IndexUpdate)
    ensures
        r@ == appended(loaded(stored_bytes(*stored)), key@),
{
    append_key(index_load(stored), key)
}

// ---------------------------------------------------------------------------
// Reading back what was written
// ---------------------------------------------------------------------------

/// The keys that lines keep apart: none is empty or holds a line feed, and none but
/// the last ends in a carriage return.
pub open spec fn indexable(keys: Seq<Seq<char>>) -> bool {
    &&& forall|i: int|
        0 <= i < keys.len() ==> (#[trigger] keys[i]).len() > 0 && !keys[i].contains('\n')
    &&& forall|i: int| 0 <= i < keys.len() - 1 ==> (#[trigger] keys[i]).last() != '\r'
}

/// A line of a text holds no line feed.
proof fn lemma_line_without_feed(index: Seq<char>, i: int)
    requires
        0 <= i < text::lines(index).len(),
    ensures
        !text::lines(index)[i].contains('\n'),
    decreases index.len(),
{
    text::lemma_line_end(index);
    let end = text::line_end(index) as int;
    if end < index.len() {
        if i > 0 {
            lemma_line_without_feed(index.skip(end + 1), i - 1);
        }
    }
}

/// The keys that an index yields are never empty and hold no line feed.
pub proof fn entries_are_keys(index: Seq<char>)
    ensures
        forall|i: int|
            0 <= i < entries(index).len() ==> (#[trigger] entries(index)[i]).len() > 0
                && !entries(index)[i].contains('\n'),
{
    broadcast use group_filter_ensures;

    let pred = |line: Seq<char>| line.len() > 0;
    let lines = text::lines(index);
    assert forall|i: int| 0 <= i < entries(index).len() implies (#[trigger] entries(
        index,
    )[i]).len() > 0 && !entries(index)[i].contains('\n') by {
        let key = entries(index)[i];
        assert(pred(lines.filter(pred)[i]));
        assert(lines.filter(pred).contains(key));
        lines.lemma_filter_contains_rev(pred, key);
        let j = choose|j: int| 0 <= j < lines.len() && lines[j] == key;
        lemma_line_without_feed(index, j);
    }
}

proof fn lemma_entries_first(key: Seq<char>, rest: Seq<char>)
    requires
        !key.contains('\n'),
    ensures
        entries(key + "\n"@ + rest) == if text::strip_cr(key).len() > 0 {
            seq![text::strip_cr(key)] + entries(rest)
        } else {
            entries(rest)
        },
{
    reveal_strlit("\n");
    let pred = |line: Seq<char>| line.len() > 0;
    let first = seq![text::strip_cr(key)];
    assert(key + "\n"@ + rest =~= key.push('\n') + rest);
    text::lemma_lines_first(key, rest);
    Seq::filter_distributes_over_add(first, text::lines(rest), pred);
    reveal(Seq::filter);
    assert(first.drop_last() =~= seq![]);
    assert(seq![].filter(pred) =~= Seq::<Seq<char>>::empty());
    if text::strip_cr(key).len() > 0 {
        assert(first.filter(pred) =~= first);
    } else {
        assert(first.filter(pred) =~= seq![]);
        assert(seq![] + entries(rest) =~= entries(rest));
    }
}

/// An index gives back the keys that were joined into it, in their order, exactly
/// where lines keep the keys apart.
pub proof fn index_round_trip(keys: Seq<Seq<char>>)
    ensures
        indexable(keys) <==> entries(joined(keys)) == keys,
{
    if indexable(keys) {
        lemma_indexable_reads_back(keys);
    }
    if entries(joined(keys)) == keys {
        entries_are_keys(joined(keys));
        lemma_read_back_indexable(keys);
    }
}

proof fn lemma_indexable_reads_back(keys: Seq<Seq<char>>)
    requires
        indexable(keys),
    ensures
        entries(joined(keys)) == keys,
    decreases keys.len(),
{
    let pred = |line: Seq<char>| line.len() > 0;
    reveal(Seq::filter);
    if keys.len() == 0 {
        assert(entries(joined(keys)) =~= keys);
    } else if keys.len() == 1 {
        text::lemma_lines_last(keys[0]);
        assert(seq![keys[0]].drop_last() =~= seq![]);
        assert(entries(joined(keys)) =~= keys);
    } else {
        let rest = keys.drop_first();
        assert forall|i: int| 0 <= i < rest.len() implies (#[trigger] rest[i]).len() > 0
            && !rest[i].contains('\n') && (i < rest.len() - 1 ==> rest[i].last() != '\r') by {
            assert(rest[i] == keys[i + 1]);
        }
        lemma_indexable_reads_back(rest);
        lemma_entries_first(keys[0], joined(rest));
        assert(entries(joined(keys)) =~= keys);
    }
}

/// Keys without line feeds come back as at most as many keys.
proof fn lemma_entries_len(keys: Seq<Seq<char>>)
    requires
        forall|i: int| 0 <= i < keys.len() ==> !(#[trigger] keys[i]).contains('\n'),
    ensures
        entries(joined(keys)).len() <= keys.len(),
    decreases keys.len(),
{
    let pred = |line: Seq<char>| line.len() > 0;
    reveal(Seq::filter);
    if keys.len() == 0 {
    } else if keys.len() == 1 {
        text::lemma_lines_last(keys[0]);
        text::lines(keys[0]).lemma_filter_len(pred);
    } else {
        let rest = keys.drop_first();
        assert forall|i: int| 0 <= i < rest.len() implies !(#[trigger] rest[i]).contains(
            '\n',
        ) by {
            assert(rest[i] == keys[i + 1]);
        }
        lemma_entries_len(rest);
        lemma_entries_first(keys[0], joined(rest));
    }
}

proof fn lemma_read_back_indexable(keys: Seq<Seq<char>>)
    requires
        forall|i: int|
            0 <= i < keys.len() ==> (#[trigger] keys[i]).len() > 0 && !keys[i].contains('\n'),
        entries(joined(keys)) == keys,
    ensures
        indexable(keys),
    decreases keys.len(),
{
    if keys.len() > 1 {
        let rest = keys.drop_first();
        assert forall|i: int| 0 <= i < rest.len() implies (#[trigger] rest[i]).len() > 0
            && !rest[i].contains('\n') by {
            assert(rest[i] == keys[i + 1]);
        }
        lemma_entries_len(rest);
        lemma_entries_first(keys[0], joined(rest));
        let first = text::strip_cr(keys[0]);
        assert(first.len() > 0);
        let back = seq![first] + entries(joined(rest));
        assert(back == keys);
        assert(back[0] == first);
        assert(back.drop_first() =~= entries(joined(rest)));
        lemma_read_back_indexable(rest);
        assert forall|i: int| 0 <= i < keys.len() - 1 implies (#[trigger] keys[i]).last()
            != '\r' by {
            if i > 0 {
                assert(keys[i] == rest[i - 1]);
            }
        }
    }
}

/// A key appended to a readable index that is neither full nor lists it is read back
/// after the keys that were there, where lines keep them apart.
pub proof fn appended_key_is_read_back(index: Seq<char>, key: Seq<char>)
    requires
        !entries(index).contains(key),
        entries(index).len() < INDEX_MAX,
        key.len() > 0,
        !key.contains('\n'),
        forall|i: int|
            0 <= i < entries(index).len() ==> (#[trigger] entries(index)[i]).last() != '\r',
    ensures
        appended(entries(index), key) matches IndexUpdateView::Write(written) && loaded(
            Some(encode_utf8(written)),
        ) == entries(index).push(key),
{
    let keys = entries(index).push(key);
    entries_are_keys(index);
    assert(indexable(keys));
    index_round_trip(keys);
    text::encoded_text_is_read_back(joined(keys));
}

// ---------------------------------------------------------------------------
// What an index holds
// ---------------------------------------------------------------------------

/// The text of an index grows by a line feed and the key, and begins with the first key.
pub proof fn keys_stand_on_lines_of_their_own(keys: Seq<Seq<char>>, key: Seq<char>)
    ensures
        joined(seq![]) == Seq::<char>::empty(),
        joined(seq![key]) == key,
        keys.len() > 0 ==> joined(keys.push(key)) == joined(keys) + "\n"@ + key,
    decreases keys.len(),
{
    reveal_with_fuel(joined, 3);
    if keys.len() == 1 {
        assert(keys.push(key).drop_first() =~= seq![key]);
    } else if keys.len() > 1 {
        let rest = keys.drop_first();
        assert(keys.push(key).drop_first() =~= rest.push(key));
        keys_stand_on_lines_of_their_own(rest, key);
        assert(joined(keys.push(key)) =~= joined(keys) + "\n"@ + key);
    }
}

/// The keys in an index are its lines that are not empty, in their order; a carriage return
/// before a line feed belongs to the line's end.
pub proof fn entries_are_the_lines_that_hold_something(line: Seq<char>, rest: Seq<char>)
    requires
        !line.contains('\n'),
    ensures
        entries(seq![]) == Seq::<Seq<char>>::empty(),
        entries(seq!['\n'] + rest) == entries(rest),
        line.len() > 0 ==> entries(line) == seq![line],
        line.len() > 0 ==> entries(line + seq!['\r', '\n'] + rest) == seq![line] + entries(rest),
        line.len() > 0 && line.last() != '\r' ==> entries(line + seq!['\n'] + rest) == seq![line]
            + entries(rest),
{
    let pred = |line: Seq<char>| line.len() > 0;
    reveal(Seq::filter);
    text::feeds_end_lines(line, rest);
    text::feeds_end_lines(seq![], rest);
    assert(Seq::<char>::empty() + seq!['\n'] + rest =~= seq!['\n'] + rest);
    Seq::filter_distributes_over_add(seq![line], text::lines(rest), pred);
    Seq::filter_distributes_over_add(seq![Seq::<char>::empty()], text::lines(rest), pred);
    assert(seq![line].drop_last() =~= seq![]);
    assert(seq![Seq::<char>::empty()].drop_last() =~= seq![]);
    assert(seq![].filter(pred) =~= Seq::<Seq<char>>::empty());
    assert(seq![Seq::<char>::empty()].filter(pred) =~= seq![]);
    assert(Seq::<Seq<char>>::empty() + entries(rest) =~= entries(rest));
    if line.len() > 0 {
        assert(seq![line].filter(pred) =~= seq![line]);
    }
}

/// A missing or unreadable index lists nothing; a stored one lists what its text does.
pub proof fn stored_index_lists_its_text(
    index: Seq<char>,
    bytes: Vec<u8>,
    e: String,
)
    ensures
        loaded(None) == Seq::<Seq<char>>::empty(),
        loaded(Some(encode_utf8(index))) == entries(index),
        loaded(Some(bytes@)) == entries(text::decoded(bytes@)),
        stored_bytes(Ok(Some(bytes))) == Some(bytes@),
        stored_bytes(Ok(None)) is None,
        stored_bytes(Err(e)) is None,
{
    text::encoded_text_is_read_back(index);
}

/// Appending does nothing to a key that is listed, refuses a new key where 5000 are listed,
/// and otherwise writes the index with the key on a line after the others.
pub proof fn appending_adds_a_line(keys: Seq<Seq<char>>, key: Seq<char>)
    ensures
        appended(keys, key) is Listed <==> keys.contains(key),
        appended(keys, key) is Full <==> !keys.contains(key) && keys.len() >= 5000,
        appended(keys, key) is Write <==> !keys.contains(key) && keys.len() < 5000,
        appended(keys, key) is Write ==> appended(keys, key)->Write_0 == if keys.len() == 0 {
            key
        } else {
            joined(keys) + "\n"@ + key
        },
{
    keys_stand_on_lines_of_their_own(keys, key);
    if keys.len() == 0 {
        assert(keys.push(key) =~= seq![key]);
    }
}

/// The index stands under the key `__index`.
pub proof fn index_key_is_internal()
    ensures
        INDEX_KEY@ == "__index"@,
        "__"@.is_prefix_of(INDEX_KEY@),
{
    reveal_strlit("__index");
    reveal_strlit("__");
    assert("__"@ =~= "__index"@.subrange(0, 2));
}

/// The view of an update shows it.
pub proof fn update_view_shows_everything(update: IndexUpdate)
    ensures
        update is Listed <==> update@ is Listed,
        update is Full <==> update@ is Full,
        update matches IndexUpdate::Write(index) ==> update@ == IndexUpdateView::Write(index@),
{
}

} // verus!
