//! Text as the ledger reads and writes it: sequences of characters, the decimal
//! numbers that appear in messages, lines, and the order in which keys are listed.

use vstd::prelude::*;
use vstd::relations::*;
use vstd::seq_lib::*;
use vstd::string::*;
use vstd::utf8::*;

verus! {

// ---------------------------------------------------------------------------
// What the standard library provides
// ---------------------------------------------------------------------------

/// `String::push`: the given character is added at the end.
pub assume_specification[ String::push ](s: &mut String, c: char)
    ensures
        final(s)@ == old(s)@.push(c),
;

/// `str::to_ascii_uppercase`: a copy in which the ASCII letters `a` to `z` are
/// mapped to `A` to `Z` and every other character is kept.
pub assume_specification[ str::to_ascii_uppercase ](s: &str) -> (r: String)
    ensures
        r@ == ascii_upper(s@),
;

/// `str::contains` with a `&str` pattern: whether the pattern matches a part of
/// the text.
#[verifier::external_body]
pub(crate) fn contains(text: &str, needle: &str) -> (r: bool)
    ensures
        r == occurs_in(needle@, text@),
{
    text.contains(needle)
}

/// The text that `{:?}` gives for a string: quoted, with escapes for the characters
/// that do not print.
pub uninterp spec fn debug_text(s: Seq<char>) -> Seq<char>;

/// `format!("{:?}", s)`: the result is a function of the characters of `s`. Printable ASCII
/// stands as it is between quotation marks, but for quotation marks and backslashes, which
/// have a backslash before them. Which other characters are escaped, and how, is left unsaid.
#[verifier::external_body]
pub(crate) fn debug_of(s: &str) -> (r: String)
    ensures
        r@ == debug_text(s@),
        printable(s@) ==> r@ == seq!['"'] + escaped(s@) + seq!['"'],
{
    format!("{:?}", s)
}

/// Every character is a printable one of ASCII.
pub open spec fn printable(s: Seq<char>) -> bool {
    forall|i: int| 0 <= i < s.len() ==> ' ' <= #[trigger] s[i] <= '~'
}

/// `s` with a backslash before every quotation mark and every backslash.
pub open spec fn escaped(s: Seq<char>) -> Seq<char>
    decreases s.len(),
{
    if s.len() == 0 {
        seq![]
    } else if s.last() == '"' || s.last() == '\\' {
        escaped(s.drop_last()) + seq!['\\', s.last()]
    } else {
        escaped(s.drop_last()).push(s.last())
    }
}

/// A text without quotation marks and backslashes has nothing to escape.
pub proof fn lemma_nothing_to_escape(s: Seq<char>)
    requires
        !s.contains('"'),
        !s.contains('\\'),
    ensures
        escaped(s) == s,
    decreases s.len(),
{
    if s.len() > 0 {
        let front = s.drop_last();
        assert(s.contains(s.last()));
        assert forall|c: char| #[trigger] front.contains(c) implies s.contains(c) by {
            let i = choose|i: int| 0 <= i < front.len() && front[i] == c;
            assert(s[i] == c);
        }
        lemma_nothing_to_escape(front);
        assert(escaped(s) =~= s);
    } else {
        assert(escaped(s) =~= s);
    }
}

/// `s` as a message quotes it: printable ASCII between quotation marks, with quotation marks
/// and backslashes escaped, and otherwise what `{:?}` gives.
pub open spec fn quoted(s: Seq<char>) -> Seq<char> {
    if printable(s) {
        seq!['"'] + escaped(s) + seq!['"']
    } else {
        debug_text(s)
    }
}

/// `s` as a message quotes it.
pub fn quote(s: &str) -> (r: String)
    ensures
        r@ == quoted(s@),
{
    debug_of(s)
}

/// The text that a lossy UTF-8 decoding gives for a sequence of bytes.
pub uninterp spec fn lossy_text(bytes: Seq<u8>) -> Seq<char>;

/// `String::from_utf8_lossy`: valid UTF-8 is decoded as it stands. In anything else the
/// invalid sequences are replaced by U+FFFD, so a single byte that is not ASCII comes
/// out as that one character; how longer invalid input is split is left unsaid.
#[verifier::external_body]
pub(crate) fn decode_lossy(bytes: &[u8]) -> (r: String)
    ensures
        r@ == lossy_text(bytes@),
        valid_utf8(bytes@) ==> r@ == decode_utf8(bytes@),
        bytes@.len() == 1 && bytes@[0] >= 0x80 ==> r@ == seq!['\u{FFFD}'],
{
    String::from_utf8_lossy(bytes).into_owned()
}

/// The text of a sequence of bytes: what valid UTF-8 encodes, and otherwise what a lossy
/// decoding makes of it.
pub open spec fn decoded(bytes: Seq<u8>) -> Seq<char> {
    if valid_utf8(bytes) {
        decode_utf8(bytes)
    } else if bytes.len() == 1 {
        seq!['\u{FFFD}']
    } else {
        lossy_text(bytes)
    }
}

/// The text of a sequence of bytes.
pub fn decode(bytes: &[u8]) -> (r: String)
    ensures
        r@ == decoded(bytes@),
{
    proof {
        reveal_with_fuel(valid_utf8, 2);
    }
    decode_lossy(bytes)
}

/// An encoded text is read back as it was.
pub proof fn encoded_text_is_read_back(s: Seq<char>)
    ensures
        decoded(encode_utf8(s)) == s,
{
    encode_utf8_valid_utf8(s);
    encode_utf8_decode_utf8(s);
}

// ---------------------------------------------------------------------------
// Parts of a text
// ---------------------------------------------------------------------------

/// `needle` stands in `text` at position `at`.
pub open spec fn occurs_at(needle: Seq<char>, text: Seq<char>, at: int) -> bool {
    &&& 0 <= at
    &&& at + needle.len() <= text.len()
    &&& text.subrange(at, at + needle.len()) == needle
}

/// `needle` stands somewhere in `text`.
pub open spec fn occurs_in(needle: Seq<char>, text: Seq<char>) -> bool {
    exists|at: int| occurs_at(needle, text, at)
}

pub open spec fn ascii_upper_char(c: char) -> char {
    if 'a' <= c <= 'z' {
        (c as u32 - 32) as char
    } else {
        c
    }
}

/// `s` with its ASCII letters in upper case.
pub open spec fn ascii_upper(s: Seq<char>) -> Seq<char> {
    Seq::new(s.len(), |i: int| ascii_upper_char(s[i]))
}

/// Whether two texts hold the same characters.
pub fn same_text(a: &str, b: &str) -> (r: bool)
    ensures
        r == (a@ == b@),
{
    a.to_string() == b.to_string()
}

/// `prefix` followed by `rest`.
pub fn prefixed(prefix: &str, rest: &str) -> (r: String)
    ensures
        r@ == prefix@ + rest@,
{
    let mut r = prefix.to_string();
    r.append(rest);
    r
}

// ---------------------------------------------------------------------------
// Decimal numbers
// ---------------------------------------------------------------------------

pub open spec fn digit(d: nat) -> char {
    ('0' as u32 + d) as char
}

/// `n` in decimal, without leading zeros.
pub open spec fn decimal(n: nat) -> Seq<char>
    decreases n,
{
    if n < 10 {
        seq![digit(n)]
    } else {
        decimal(n / 10).push(digit(n % 10))
    }
}

pub fn decimal_text(n: u64) -> (r: String)
    ensures
        r@ == decimal(n as nat),
    decreases n,
{
    let mut r = if n < 10 {
        String::new()
    } else {
        decimal_text(n / 10)
    };
    let d: u8 = (n % 10) as u8;
    r.push((48 + d) as char);
    r
}

// ---------------------------------------------------------------------------
// Lines
// ---------------------------------------------------------------------------

/// `line` without one carriage return at its end.
pub open spec fn strip_cr(line: Seq<char>) -> Seq<char> {
    if line.len() > 0 && line.last() == '\r' {
        line.drop_last()
    } else {
        line
    }
}

/// The position of the first line feed in `text`, or its length where there is none.
pub open spec fn line_end(text: Seq<char>) -> nat
    decreases text.len(),
{
    if text.len() == 0 || text[0] == '\n' {
        0
    } else {
        1 + line_end(text.drop_first())
    }
}

pub proof fn lemma_line_end(text: Seq<char>)
    ensures
        line_end(text) <= text.len(),
        line_end(text) < text.len() ==> text[line_end(text) as int] == '\n',
        forall|i: int| 0 <= i < line_end(text) ==> text[i] != '\n',
    decreases text.len(),
{
    if text.len() == 0 || text[0] == '\n' {
    } else {
        let rest = text.drop_first();
        lemma_line_end(rest);
        assert forall|i: int| 0 <= i < line_end(text) implies text[i] != '\n' by {
            if i > 0 {
                assert(rest[i - 1] != '\n');
            }
        }
    }
}

/// The lines of `text`. A line ends at a line feed, and so does the text's last line
/// where nothing follows it; a carriage return right before the line feed belongs to
/// the line ending, one that stands elsewhere belongs to the line.
pub open spec fn lines(text: Seq<char>) -> Seq<Seq<char>>
    decreases text.len(),
    via lines_shrink
{
    let end = line_end(text) as int;
    if text.len() == 0 {
        seq![]
    } else if end >= text.len() {
        seq![text]
    } else {
        seq![strip_cr(text.take(end))] + lines(text.skip(end + 1))
    }
}

#[via_fn]
proof fn lines_shrink(text: Seq<char>) {
    lemma_line_end(text);
}

/// A text whose first line is `line`, ended by a line feed.
pub proof fn lemma_lines_first(line: Seq<char>, rest: Seq<char>)
    requires
        !line.contains('\n'),
    ensures
        lines(line.push('\n') + rest) == seq![strip_cr(line)] + lines(rest),
{
    let text = line.push('\n') + rest;
    lemma_line_end(text);
    let end = line_end(text) as int;
    assert(text[line.len() as int] == '\n');
    if end < line.len() {
        assert(line.contains(text[end]));
    }
    assert(end == line.len());
    assert(text.take(end) =~= line);
    assert(text.skip(end + 1) =~= rest);
}

/// A text without a line feed is one line, or none where it is empty.
pub proof fn lemma_lines_last(line: Seq<char>)
    requires
        !line.contains('\n'),
    ensures
        lines(line) == if line.len() == 0 {
            Seq::<Seq<char>>::empty()
        } else {
            seq![line]
        },
{
    lemma_line_end(line);
    if line_end(line) < line.len() {
        assert(line.contains(line[line_end(line) as int]));
    }
}

/// The view of a vector that has grown by one element.
pub proof fn lemma_deep_view_push<T: DeepView>(v: Vec<T>, w: Vec<T>, x: T)
    requires
        w@ == v@.push(x),
    ensures
        w.deep_view() == v.deep_view().push(x.deep_view()),
{
    assert(w.deep_view() =~= v.deep_view().push(x.deep_view()));
}

/// What a filter keeps of one element more.
pub proof fn lemma_filter_step<A>(s: Seq<A>, i: int, pred: spec_fn(A) -> bool)
    requires
        0 <= i < s.len(),
    ensures
        s.take(i + 1).filter(pred) == if pred(s[i]) {
            s.take(i).filter(pred).push(s[i])
        } else {
            s.take(i).filter(pred)
        },
{
    reveal(Seq::filter);
    assert(s.take(i + 1).drop_last() =~= s.take(i));
}

/// The lines of `text`, each as a string of its own.
pub fn split_lines(text: &str) -> (r: Vec<String>)
    ensures
        r.deep_view() == lines(text@),
{
    let mut done: Vec<String> = Vec::new();
    let mut line = String::new();
    // A carriage return that has been read but belongs to the line only if no line
    // feed follows.
    let mut held = false;
    let ghost mut read = Seq::<char>::empty();
    assert(read + text@.skip(0) =~= text@);
    assert(done.deep_view() + lines(text@) =~= lines(text@));
    for c in it: text.chars()
        invariant
            it.seq() == text@,
            it.index() <= text@.len(),
            read == if held {
                line@.push('\r')
            } else {
                line@
            },
            !held && line@.len() > 0 ==> line@.last() != '\r',
            !read.contains('\n'),
            lines(text@) == done.deep_view() + lines(read + text@.skip(it.index() as int)),
    {
        let ghost rest = text@.skip(it.index() + 1);
        assert(text@.skip(it.index() as int) =~= seq![c] + rest);
        let ghost before = done;
        let ghost ended = line;
        if c == '\n' {
            proof {
                assert(read + (seq![c] + rest) =~= read.push('\n') + rest);
                lemma_lines_first(read, rest);
                if held {
                    assert(read.drop_last() =~= line@);
                }
            }
            done.push(line);
            line = String::new();
            held = false;
            proof {
                lemma_deep_view_push(before, done, ended);
                read = Seq::empty();
                assert(read + rest =~= rest);
            }
        } else {
            proof {
                assert(read + (seq![c] + rest) =~= read.push(c) + rest);
                read = read.push(c);
            }
            if held {
                line.push('\r');
            }
            if c == '\r' {
                held = true;
            } else {
                held = false;
                line.push(c);
            }
        }
    }
    proof {
        assert(read + text@.skip(text@.len() as int) =~= read);
        lemma_lines_last(read);
    }
    if held {
        line.push('\r');
    }
    let ghost before = done;
    let ghost ended = line;
    if !line.as_str().is_empty() {
        done.push(line);
        proof {
            lemma_deep_view_push(before, done, ended);
        }
    }
    assert(before.deep_view() + seq![] =~= before.deep_view());
    done
}

// ---------------------------------------------------------------------------
// Order
// ---------------------------------------------------------------------------

/// `a` comes before `b` or is `b`, by the first byte in which they differ.
pub open spec fn bytes_le(a: Seq<u8>, b: Seq<u8>) -> bool
    decreases a.len(),
{
    if a.len() == 0 {
        true
    } else if b.len() == 0 {
        false
    } else if a[0] == b[0] {
        bytes_le(a.drop_first(), b.drop_first())
    } else {
        a[0] < b[0]
    }
}

/// `a` comes before `b` or is `b`, by the bytes of their UTF-8 encodings.
pub open spec fn text_le(a: Seq<char>, b: Seq<char>) -> bool {
    bytes_le(encode_utf8(a), encode_utf8(b))
}

/// The order of keys as a relation.
pub open spec fn text_order() -> spec_fn(Seq<char>, Seq<char>) -> bool {
    |a: Seq<char>, b: Seq<char>| text_le(a, b)
}

proof fn lemma_bytes_le_reflexive(a: Seq<u8>)
    ensures
        bytes_le(a, a),
    decreases a.len(),
{
    if a.len() > 0 {
        lemma_bytes_le_reflexive(a.drop_first());
    }
}

proof fn lemma_bytes_le_antisymmetric(a: Seq<u8>, b: Seq<u8>)
    requires
        bytes_le(a, b),
        bytes_le(b, a),
    ensures
        a == b,
    decreases a.len(),
{
    if a.len() > 0 && b.len() > 0 {
        lemma_bytes_le_antisymmetric(a.drop_first(), b.drop_first());
        assert(a =~= seq![a[0]] + a.drop_first());
        assert(b =~= seq![b[0]] + b.drop_first());
    } else {
        assert(a =~= b);
    }
}

proof fn lemma_bytes_le_transitive(a: Seq<u8>, b: Seq<u8>, c: Seq<u8>)
    requires
        bytes_le(a, b),
        bytes_le(b, c),
    ensures
        bytes_le(a, c),
    decreases a.len(),
{
    if a.len() > 0 && a[0] == b[0] && b[0] == c[0] {
        lemma_bytes_le_transitive(a.drop_first(), b.drop_first(), c.drop_first());
    }
}

proof fn lemma_bytes_le_total(a: Seq<u8>, b: Seq<u8>)
    ensures
        bytes_le(a, b) || bytes_le(b, a),
    decreases a.len(),
{
    if a.len() > 0 && b.len() > 0 {
        lemma_bytes_le_total(a.drop_first(), b.drop_first());
    }
}

/// The order of keys is total, and only equal keys stand on both sides of each other.
pub proof fn text_order_is_total()
    ensures
        total_ordering(text_order()),
{
    let le = text_order();
    assert forall|a: Seq<char>| #[trigger] le(a, a) by {
        lemma_bytes_le_reflexive(encode_utf8(a));
    }
    assert forall|a: Seq<char>, b: Seq<char>| #[trigger] le(a, b) && #[trigger] le(b, a) implies a
        == b by {
        lemma_bytes_le_antisymmetric(encode_utf8(a), encode_utf8(b));
        encode_utf8_decode_utf8(a);
        encode_utf8_decode_utf8(b);
    }
    assert forall|a: Seq<char>, b: Seq<char>, c: Seq<char>| #[trigger]
        le(a, b) && #[trigger] le(b, c) implies le(a, c) by {
        lemma_bytes_le_transitive(encode_utf8(a), encode_utf8(b), encode_utf8(c));
    }
    assert forall|a: Seq<char>, b: Seq<char>| #[trigger] le(a, b) || #[trigger] le(b, a) by {
        lemma_bytes_le_total(encode_utf8(a), encode_utf8(b));
    }
}

/// Whether `a` comes before `b` or is `b`.
pub fn at_most(a: &str, b: &str) -> (r: bool)
    ensures
        r == text_le(a@, b@),
{
    bytes_at_most(a.as_bytes(), b.as_bytes())
}

/// Whether `x` comes before `y` or is `y`.
pub fn bytes_at_most(x: &[u8], y: &[u8]) -> (r: bool)
    ensures
        r == bytes_le(x@, y@),
{
    let mut i: usize = 0;
    assert(x@.skip(0) =~= x@);
    assert(y@.skip(0) =~= y@);
    while i < x.len() && i < y.len() && x[i] == y[i]
        invariant
            i <= x@.len(),
            i <= y@.len(),
            bytes_le(x@, y@) == bytes_le(x@.skip(i as int), y@.skip(i as int)),
        decreases x@.len() - i,
    {
        assert(x@.skip(i as int).drop_first() =~= x@.skip(i + 1));
        assert(y@.skip(i as int).drop_first() =~= y@.skip(i + 1));
        i = i + 1;
    }
    if i == x.len() {
        true
    } else if i == y.len() {
        false
    } else {
        x[i] < y[i]
    }
}

/// The least text after `s`.
pub open spec fn successor(s: Seq<char>) -> Seq<char> {
    s.push('\0')
}

proof fn lemma_encode_successor(s: Seq<char>)
    ensures
        encode_utf8(successor(s)) == encode_utf8(s).push(0),
    decreases s.len(),
{
    reveal_with_fuel(encode_utf8, 2);
    let longer = successor(s);
    if s.len() == 0 {
        let zero = 0u32;
        assert(leading_byte_width_1(zero) == 0) by (bit_vector)
            requires
                zero == 0u32,
        ;
        assert(longer.drop_first() =~= seq![]);
        assert(encode_utf8(longer) =~= encode_utf8(s).push(0));
    } else {
        assert(longer.drop_first() =~= successor(s.drop_first()));
        lemma_encode_successor(s.drop_first());
        assert(encode_utf8(longer) =~= encode_utf8(s).push(0));
    }
}

/// What is not at or before `a` is at or after `a` with a zero behind it, and nothing else is.
proof fn lemma_bytes_after(a: Seq<u8>, b: Seq<u8>)
    ensures
        bytes_le(a.push(0), b) <==> !bytes_le(b, a),
    decreases a.len(),
{
    let longer = a.push(0);
    reveal_with_fuel(bytes_le, 2);
    if a.len() > 0 && b.len() > 0 {
        assert(longer.drop_first() =~= a.drop_first().push(0));
        lemma_bytes_after(a.drop_first(), b.drop_first());
    } else if a.len() == 0 && b.len() > 0 {
        assert(longer.drop_first() =~= seq![]);
    }
}

/// No text stands between a text and its successor.
pub proof fn successor_is_least(s: Seq<char>)
    ensures
        text_le(s, successor(s)),
        s != successor(s),
        forall|t: Seq<char>| #[trigger] text_le(successor(s), t) <==> !text_le(t, s),
{
    lemma_encode_successor(s);
    assert(s.len() != successor(s).len());
    assert forall|t: Seq<char>| #[trigger] text_le(successor(s), t) <==> !text_le(t, s) by {
        lemma_bytes_after(encode_utf8(s), encode_utf8(t));
    }
    lemma_bytes_le_reflexive(encode_utf8(successor(s)));
    lemma_bytes_le_total(encode_utf8(s), encode_utf8(successor(s)));
    assert(text_le(successor(s), successor(s)));
}

/// The least text after `s`.
pub fn next_text(s: &str) -> (r: String)
    ensures
        r@ == successor(s@),
{
    let mut r = s.to_string();
    r.push('\0');
    r
}

/// `keys` in order.
pub fn sort_keys(keys: &Vec<String>) -> (r: Vec<String>)
    ensures
        r.deep_view() == keys.deep_view().sort_by(text_order()),
{
    broadcast use group_to_multiset_ensures;

    let ghost le = text_order();
    let ghost all = keys.deep_view();
    let mut r: Vec<String> = Vec::new();
    proof {
        text_order_is_total();
        assert(r.deep_view() =~= all.take(0));
    }
    for i in 0..keys.len()
        invariant
            all == keys.deep_view(),
            le == text_order(),
            total_ordering(le),
            sorted_by(r.deep_view(), le),
            r.deep_view().to_multiset() == all.take(i as int).to_multiset(),
    {
        let key = keys[i].clone();
        let mut at: usize = r.len();
        while at > 0 && !at_most(r[at - 1].as_str(), key.as_str())
            invariant
                at <= r@.len(),
                le == text_order(),
                forall|j: int| at <= j < r@.len() ==> !le(#[trigger] r.deep_view()[j], key@),
            decreases at,
        {
            assert(r.deep_view()[at - 1] == r@[at - 1]@);
            at = at - 1;
        }
        let ghost before = r.deep_view();
        r.insert(at, key);
        proof {
            assert(r.deep_view() =~= before.insert(at as int, key@));
            if at > 0 {
                assert(le(before[at - 1], key@));
            }
            assert forall|a: int, b: int| 0 <= a < b < r.deep_view().len() implies #[trigger] le(
                r.deep_view()[a],
                r.deep_view()[b],
            ) by {
                let now = r.deep_view();
                if b == at {
                    if a < at - 1 {
                        assert(le(before[a], before[at - 1]));
                    }
                } else if a == at {
                    assert(now[b] == before[b - 1]);
                    assert(le(key@, before[b - 1]) || le(before[b - 1], key@));
                } else {
                    let x = if a < at {
                        a
                    } else {
                        a - 1
                    };
                    let y = if b < at {
                        b
                    } else {
                        b - 1
                    };
                    assert(le(before[x], before[y]));
                }
            }
            to_multiset_insert(before, at as int, key@);
            to_multiset_build(all.take(i as int), key@);
            assert(all.take(i + 1) =~= all.take(i as int).push(key@));
        }
    }
    proof {
        assert(all.take(keys.len() as int) =~= all);
        all.lemma_sort_by_ensures(le);
        lemma_sorted_unique(r.deep_view(), all.sort_by(le), le);
    }
    r
}

// ---------------------------------------------------------------------------
// What the readings above come to
// ---------------------------------------------------------------------------

/// Valid UTF-8 loses nothing in decoding: its text encodes to the bytes again. Bytes that are
/// no UTF-8 come out as the lossy decoding gives them, a single one as U+FFFD.
pub proof fn decoding_loses_nothing_valid(bytes: Seq<u8>)
    ensures
        valid_utf8(bytes) ==> encode_utf8(decoded(bytes)) == bytes,
        !valid_utf8(bytes) && bytes.len() != 1 ==> decoded(bytes) == lossy_text(bytes),
        !valid_utf8(bytes) && bytes.len() == 1 ==> decoded(bytes) == seq!['\u{FFFD}'],
{
    if valid_utf8(bytes) {
        decode_utf8_encode_utf8(bytes);
    }
}

/// A text of printable ASCII is quoted between quotation marks, any other as `{:?}` gives it.
pub proof fn quotation_encloses_the_text(s: Seq<char>)
    ensures
        printable(s) ==> {
            &&& quoted(s).len() == escaped(s).len() + 2
            &&& quoted(s)[0] == '"'
            &&& quoted(s).last() == '"'
            &&& quoted(s).subrange(1, quoted(s).len() - 1) == escaped(s)
        },
        !printable(s) ==> quoted(s) == debug_text(s),
{
    if printable(s) {
        assert(quoted(s).subrange(1, quoted(s).len() - 1) =~= escaped(s));
    }
}

/// Escaping puts a backslash before every quotation mark and every backslash, and changes
/// nothing else.
pub proof fn only_marks_and_backslashes_are_escaped(s: Seq<char>, c: char)
    ensures
        escaped(seq![]) == Seq::<char>::empty(),
        c == '"' || c == '\\' ==> escaped(s.push(c)) == escaped(s) + seq!['\\', c],
        c != '"' && c != '\\' ==> escaped(s.push(c)) == escaped(s).push(c),
        printable(s) ==> (printable(s.push(c)) <==> ' ' <= c <= '~'),
        !printable(s) ==> !printable(s.push(c)),
{
    let longer = s.push(c);
    assert(longer.drop_last() =~= s);
    assert(longer[s.len() as int] == c);
    if printable(longer) {
        assert forall|i: int| 0 <= i < s.len() implies ' ' <= #[trigger] s[i] <= '~' by {
            assert(longer[i] == s[i]);
        }
    }
}

/// A text occurs in another exactly where the other is made of it and what stands around it.
pub proof fn occurrence_is_a_part(
    needle: Seq<char>,
    text: Seq<char>,
    before: Seq<char>,
    after: Seq<char>,
)
    ensures
        occurs_in(needle, before + needle + after),
        occurs_in(needle, text) ==> exists|i: int|
            #![trigger text.take(i)]
            0 <= i <= text.len() - needle.len() && text.take(i) + needle + text.skip(
                i + needle.len(),
            ) == text,
{
    let whole = before + needle + after;
    let at = before.len() as int;
    assert(whole.subrange(at, at + needle.len()) =~= needle);
    assert(occurs_at(needle, whole, at));
    if occurs_in(needle, text) {
        let i = choose|i: int| occurs_at(needle, text, i);
        assert(text.subrange(i, i + needle.len()) == needle);
        assert(text.take(i) + text.subrange(i, i + needle.len()) + text.skip(i + needle.len())
            =~= text);
    }
}

/// Upper case changes the letters `a` to `z`, each to the one at its place from `A` on, and
/// nothing else.
pub proof fn upper_case_changes_small_letters_alone(s: Seq<char>, i: int)
    requires
        0 <= i < s.len(),
    ensures
        ascii_upper(s).len() == s.len(),
        'a' <= s[i] <= 'z' ==> ascii_upper(s)[i] as int - 'A' as int == s[i] as int - 'a' as int,
        !('a' <= s[i] <= 'z') ==> ascii_upper(s)[i] == s[i],
        ascii_upper(ascii_upper(s)) == ascii_upper(s),
{
    assert(ascii_upper(ascii_upper(s)) =~= ascii_upper(s));
}

/// The number that a sequence of decimal digits stands for.
pub open spec fn value_of(digits: Seq<char>) -> int
    decreases digits.len(),
{
    if digits.len() == 0 {
        0
    } else {
        value_of(digits.drop_last()) * 10 + (digits.last() as int - '0' as int)
    }
}

/// A number in decimal is read back: digits only, none of them a leading zero, and their value
/// is the number.
pub proof fn decimal_is_read_back(n: nat)
    ensures
        decimal(n).len() > 0,
        forall|i: int| 0 <= i < decimal(n).len() ==> '0' <= #[trigger] decimal(n)[i] <= '9',
        decimal(n).len() > 1 ==> decimal(n)[0] != '0',
        value_of(decimal(n)) == n,
    decreases n,
{
    reveal_with_fuel(value_of, 2);
    if n >= 10 {
        let front = decimal(n / 10);
        decimal_is_read_back(n / 10);
        assert(decimal(n).drop_last() =~= front);
        assert(decimal(n)[0] == front[0]);
        if front.len() == 1 && front[0] == '0' {
            assert(front.drop_last() =~= seq![]);
            assert(value_of(front) == 0);
        }
    } else {
        assert(decimal(n).drop_last() =~= seq![]);
    }
}

/// Different numbers are written differently.
pub proof fn decimal_tells_numbers_apart(a: nat, b: nat)
    requires
        decimal(a) == decimal(b),
    ensures
        a == b,
{
    decimal_is_read_back(a);
    decimal_is_read_back(b);
}

/// A line ends at a line feed, with or without one carriage return before it; what follows
/// the last line feed is a line where it is not empty.
pub proof fn feeds_end_lines(line: Seq<char>, rest: Seq<char>)
    requires
        !line.contains('\n'),
    ensures
        lines(line + seq!['\r', '\n'] + rest) == seq![line] + lines(rest),
        line.len() == 0 || line.last() != '\r' ==> lines(line + seq!['\n'] + rest) == seq![line]
            + lines(rest),
        line.len() > 0 ==> lines(line) == seq![line],
        lines(seq![]) == Seq::<Seq<char>>::empty(),
{
    let returned = line.push('\r');
    assert forall|i: int| 0 <= i < returned.len() implies returned[i] != '\n' by {
        if i < line.len() {
            assert(line.contains(line[i]));
        }
    }
    assert(line + seq!['\r', '\n'] + rest =~= returned.push('\n') + rest);
    lemma_lines_first(returned, rest);
    assert(returned.drop_last() =~= line);
    assert(line + seq!['\n'] + rest =~= line.push('\n') + rest);
    lemma_lines_first(line, rest);
    lemma_lines_last(line);
}

/// Bytes are ordered by the first place in which they differ; what ends there comes first.
pub proof fn bytes_are_ordered_by_the_first_difference(a: Seq<u8>, b: Seq<u8>)
    ensures
        bytes_le(a, b) <==> a.is_prefix_of(b) || exists|i: int|
            0 <= i < a.len() && i < b.len() && a.take(i) == b.take(i) && #[trigger] a[i] < b[i],
    decreases a.len(),
{
    if a.len() > 0 && b.len() > 0 {
        let x = a.drop_first();
        let y = b.drop_first();
        bytes_are_ordered_by_the_first_difference(x, y);
        if a[0] == b[0] {
            if x.is_prefix_of(y) {
                assert(a =~= b.subrange(0, a.len() as int)) by {
                    assert forall|i: int| 0 <= i < a.len() implies a[i] == b[i] by {
                        if i > 0 {
                            assert(x[i - 1] == y.subrange(0, x.len() as int)[i - 1]);
                        }
                    }
                }
            } else if bytes_le(x, y) {
                let i = choose|i: int|
                    0 <= i < x.len() && i < y.len() && x.take(i) == y.take(i) && #[trigger] x[i]
                        < y[i];
                assert(a.take(i + 1) =~= b.take(i + 1)) by {
                    assert forall|j: int| 0 <= j < i + 1 implies a[j] == b[j] by {
                        if j > 0 {
                            assert(x.take(i)[j - 1] == y.take(i)[j - 1]);
                        }
                    }
                }
                assert(a[i + 1] < b[i + 1]);
            }
            if a.is_prefix_of(b) {
                assert(x =~= y.subrange(0, x.len() as int)) by {
                    assert forall|i: int| 0 <= i < x.len() implies x[i] == y[i] by {
                        assert(a[i + 1] == b.subrange(0, a.len() as int)[i + 1]);
                    }
                }
            }
            if exists|i: int|
                0 <= i < a.len() && i < b.len() && a.take(i) == b.take(i) && #[trigger] a[i] < b[i] {
                let i = choose|i: int|
                    0 <= i < a.len() && i < b.len() && a.take(i) == b.take(i) && #[trigger] a[i]
                        < b[i];
                assert(i > 0);
                assert(x.take(i - 1) =~= y.take(i - 1)) by {
                    assert forall|j: int| 0 <= j < i - 1 implies x[j] == y[j] by {
                        assert(a.take(i)[j + 1] == b.take(i)[j + 1]);
                    }
                }
                assert(x[i - 1] < y[i - 1]);
            }
        } else {
            if a.is_prefix_of(b) {
                assert(a[0] == b.subrange(0, a.len() as int)[0]);
            }
            if a[0] < b[0] {
                assert(a.take(0) =~= b.take(0));
            }
            if exists|i: int|
                0 <= i < a.len() && i < b.len() && a.take(i) == b.take(i) && #[trigger] a[i] < b[i] {
                let i = choose|i: int|
                    0 <= i < a.len() && i < b.len() && a.take(i) == b.take(i) && #[trigger] a[i]
                        < b[i];
                if i > 0 {
                    assert(a.take(i)[0] == b.take(i)[0]);
                }
            }
        }
    } else if a.len() == 0 {
        assert(a =~= b.subrange(0, 0));
    }
}

/// Texts are ordered by the bytes of their encodings, and listed in that order.
pub proof fn texts_are_ordered_by_their_bytes(a: Seq<char>, b: Seq<char>)
    ensures
        text_le(a, b) <==> encode_utf8(a).is_prefix_of(encode_utf8(b)) || exists|i: int|
            {
                &&& 0 <= i < encode_utf8(a).len()
                &&& i < encode_utf8(b).len()
                &&& encode_utf8(a).take(i) == encode_utf8(b).take(i)
                &&& #[trigger] encode_utf8(a)[i] < encode_utf8(b)[i]
            },
        text_order()(a, b) <==> text_le(a, b),
{
    bytes_are_ordered_by_the_first_difference(encode_utf8(a), encode_utf8(b));
}

} // verus!
