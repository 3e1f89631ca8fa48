//! Text operations stated over the characters of a string.
//!
//! A `str` or `String` is modelled by the sequence of its characters. Every
//! operation here is specified by a function on such sequences, so that the
//! rest of the library can state what it does with text exactly.

use vstd::prelude::*;
use vstd::utf8::{encode_scalar, encode_utf8};

verus! {

/// `String::push` appends one character to the end of the string.
pub assume_specification[ String::push ](s: &mut String, c: char)
    ensures
        final(s)@ == old(s)@.push(c),
;

// ---------------------------------------------------------------------------
// Model
// ---------------------------------------------------------------------------

/// `part` occurs in `text` at position `at`.
pub open spec fn occurs_at(text: Seq<char>, part: Seq<char>, at: int) -> bool {
    &&& 0 <= at
    &&& at + part.len() <= text.len()
    &&& text.subrange(at, at + part.len()) == part
}

/// `part` occurs somewhere in `text`.
pub open spec fn occurs(text: Seq<char>, part: Seq<char>) -> bool {
    exists|at: int| occurs_at(text, part, at)
}

/// What follows `prefix` in `text`, when `text` starts with it.
pub open spec fn without_prefix(text: Seq<char>, prefix: Seq<char>) -> Option<Seq<char>> {
    if prefix.is_prefix_of(text) {
        Some(text.skip(prefix.len() as int))
    } else {
        None
    }
}

/// What precedes `suffix` in `text`, when `text` ends with it.
pub open spec fn without_suffix(text: Seq<char>, suffix: Seq<char>) -> Option<Seq<char>> {
    if suffix.is_suffix_of(text) {
        Some(text.take(text.len() - suffix.len()))
    } else {
        None
    }
}

/// Position of the first `c` in `text`, or the length when there is none.
pub open spec fn first_index(text: Seq<char>, c: char) -> nat
    decreases text.len(),
{
    if text.len() == 0 || text[0] == c {
        0
    } else {
        1 + first_index(text.drop_first(), c)
    }
}

/// Position of the last `c` in `text`, or `-1` when there is none.
pub open spec fn last_index(text: Seq<char>, c: char) -> int
    decreases text.len(),
{
    if text.len() == 0 {
        -1
    } else if text.last() == c {
        text.len() - 1
    } else {
        last_index(text.drop_last(), c)
    }
}

/// The text before and after the first `c`.
pub open spec fn split_first(text: Seq<char>, c: char) -> Option<(Seq<char>, Seq<char>)> {
    if text.contains(c) {
        let at = first_index(text, c) as int;
        Some((text.take(at), text.skip(at + 1)))
    } else {
        None
    }
}

/// The text before and after the last `c`.
pub open spec fn split_last(text: Seq<char>, c: char) -> Option<(Seq<char>, Seq<char>)> {
    if text.contains(c) {
        let at = last_index(text, c);
        Some((text.take(at), text.skip(at + 1)))
    } else {
        None
    }
}

/// The text after the last `c`, which is the whole text when there is none.
pub open spec fn after_last(text: Seq<char>, c: char) -> Seq<char> {
    text.skip(last_index(text, c) + 1)
}

/// A line without the carriage return that belongs to its line ending.
pub open spec fn without_carriage_return(line: Seq<char>) -> Seq<char> {
    if line.len() > 0 && line.last() == '\r' {
        line.drop_last()
    } else {
        line
    }
}

/// The lines of `text`, each ended by `\n` or `\r\n`; the last ending is optional.
pub open spec fn lines_of(text: Seq<char>) -> Seq<Seq<char>>
    decreases text.len(),
{
    let at = first_index(text, '\n') as int;
    if text.len() == 0 {
        Seq::empty()
    } else if at >= text.len() {
        seq![text]
    } else {
        seq![without_carriage_return(text.take(at))] + lines_of(text.skip(at + 1))
    }
}

/// The characters with the Unicode `White_Space` property.
pub open spec fn is_space(c: char) -> bool {
    let n = c as u32;
    ||| 0x09 <= n <= 0x0d
    ||| n == 0x20
    ||| n == 0x85
    ||| n == 0xa0
    ||| n == 0x1680
    ||| 0x2000 <= n <= 0x200a
    ||| n == 0x2028
    ||| n == 0x2029
    ||| n == 0x202f
    ||| n == 0x205f
    ||| n == 0x3000
}

/// `text` without its longest prefix of characters that satisfy `drop`.
pub open spec fn drop_leading(text: Seq<char>, drop: spec_fn(char) -> bool) -> Seq<char>
    decreases text.len(),
{
    if text.len() > 0 && drop(text[0]) {
        drop_leading(text.drop_first(), drop)
    } else {
        text
    }
}

/// `text` without its longest suffix of characters that satisfy `drop`.
pub open spec fn drop_trailing(text: Seq<char>, drop: spec_fn(char) -> bool) -> Seq<char>
    decreases text.len(),
{
    if text.len() > 0 && drop(text.last()) {
        drop_trailing(text.drop_last(), drop)
    } else {
        text
    }
}

/// `text` without the characters at either end that satisfy `drop`.
pub open spec fn drop_ends(text: Seq<char>, drop: spec_fn(char) -> bool) -> Seq<char> {
    drop_trailing(drop_leading(text, drop), drop)
}

/// `text` without leading and trailing white space.
pub open spec fn trimmed(text: Seq<char>) -> Seq<char> {
    drop_ends(text, |c: char| is_space(c))
}

/// Number of characters before the first white space.
pub open spec fn word_length(text: Seq<char>) -> nat
    decreases text.len(),
{
    if text.len() == 0 || is_space(text[0]) {
        0
    } else {
        1 + word_length(text.drop_first())
    }
}

/// The maximal runs of characters that are not white space, in order.
pub open spec fn words_of(text: Seq<char>) -> Seq<Seq<char>>
    decreases text.len(),
{
    if text.len() == 0 {
        Seq::empty()
    } else if is_space(text[0]) {
        words_of(text.drop_first())
    } else {
        let n = word_length(text);
        if 0 < n <= text.len() {
            seq![text.take(n as int)] + words_of(text.skip(n as int))
        } else {
            Seq::empty()
        }
    }
}

/// `c` with an ASCII capital letter made small.
pub open spec fn lower_char(c: char) -> char {
    if 'A' <= c <= 'Z' {
        (c as u32 + 32) as char
    } else {
        c
    }
}

/// `text` with every ASCII capital letter made small.
pub open spec fn lowered(text: Seq<char>) -> Seq<char> {
    text.map_values(|c: char| lower_char(c))
}

/// The parts in order, with `separator` between neighbours.
pub open spec fn joined(parts: Seq<Seq<char>>, separator: Seq<char>) -> Seq<char>
    decreases parts.len(),
{
    if parts.len() == 0 {
        Seq::empty()
    } else if parts.len() == 1 {
        parts[0]
    } else {
        joined(parts.drop_last(), separator) + separator + parts.last()
    }
}

/// Bytes that the UTF-8 encoding of `text` takes.
pub open spec fn byte_length(text: Seq<char>) -> nat {
    encode_utf8(text).len()
}

/// Bytes that the UTF-8 encoding of `c` takes.
pub open spec fn char_width(c: char) -> nat {
    let n = c as u32;
    if n <= 0x7f {
        1
    } else if n <= 0x7ff {
        2
    } else if n <= 0xffff {
        3
    } else {
        4
    }
}

/// The decimal digit `d`.
pub open spec fn digit(d: nat) -> char {
    (48 + d) as char
}

/// The decimal numeral of `n`, without leading zeros.
pub open spec fn decimal(n: nat) -> Seq<char>
    decreases n,
{
    if n < 10 {
        seq![digit(n)]
    } else {
        decimal(n / 10).push(digit(n % 10))
    }
}

/// The decimal numeral of an integer, with a minus sign when it is negative.
pub open spec fn signed_decimal(n: int) -> Seq<char> {
    if n < 0 {
        seq!['-'] + decimal((-n) as nat)
    } else {
        decimal(n as nat)
    }
}

/// Every character is a decimal digit.
pub open spec fn all_digits(text: Seq<char>) -> bool {
    forall|i: int| 0 <= i < text.len() ==> '0' <= #[trigger] text[i] <= '9'
}

/// The number that a row of decimal digits denotes.
pub open spec fn digits_value(text: Seq<char>) -> nat
    decreases text.len(),
{
    if text.len() == 0 {
        0
    } else {
        digits_value(text.drop_last()) * 10 + (text.last() as u32 - 48) as nat
    }
}

/// The number that `text` denotes: an optional plus sign and at least one digit.
pub open spec fn numeral_value(text: Seq<char>) -> Option<nat> {
    let digits = if text.len() > 0 && text[0] == '+' {
        text.skip(1)
    } else {
        text
    };
    if digits.len() > 0 && all_digits(digits) {
        Some(digits_value(digits))
    } else {
        None
    }
}

/// The `u32` that `text` denotes, when it denotes one.
pub open spec fn u32_value(text: Seq<char>) -> Option<u32> {
    match numeral_value(text) {
        Some(n) if n <= u32::MAX => Some(n as u32),
        _ => None,
    }
}

// ---------------------------------------------------------------------------
// Facts about the model
// ---------------------------------------------------------------------------

/// `first_index` finds the first occurrence, or the length.
pub proof fn lemma_first_index(text: Seq<char>, c: char)
    ensures
        first_index(text, c) <= text.len(),
        forall|i: int| 0 <= i < first_index(text, c) ==> #[trigger] text[i] != c,
        first_index(text, c) < text.len() ==> text[first_index(text, c) as int] == c,
        first_index(text, c) < text.len() <==> text.contains(c),
    decreases text.len(),
{
    if text.len() != 0 && text[0] != c {
        let rest = text.drop_first();
        lemma_first_index(rest, c);
        assert forall|i: int| 0 <= i < first_index(text, c) implies #[trigger] text[i] != c by {
            if i > 0 {
                assert(text[i] == rest[i - 1]);
            }
        }
        if rest.contains(c) {
            let i = choose|i: int| 0 <= i < rest.len() && rest[i] == c;
            assert(text[i + 1] == c);
        }
        if text.contains(c) {
            let i = choose|i: int| 0 <= i < text.len() && text[i] == c;
            assert(rest[i - 1] == c);
        }
    }
}

/// A position with no `c` before it and `c` at it, or at the end, is `first_index`.
pub proof fn lemma_first_index_is(text: Seq<char>, c: char, at: int)
    requires
        0 <= at <= text.len(),
        forall|i: int| 0 <= i < at ==> #[trigger] text[i] != c,
        at < text.len() ==> text[at] == c,
    ensures
        first_index(text, c) == at,
{
    lemma_first_index(text, c);
    let found = first_index(text, c) as int;
    if found < at {
        assert(text[found] != c);
    } else if at < found {
        assert(text[at] != c);
    }
}

/// `last_index` finds the last occurrence, or `-1`.
pub proof fn lemma_last_index(text: Seq<char>, c: char)
    ensures
        -1 <= last_index(text, c) < text.len(),
        forall|i: int| last_index(text, c) < i < text.len() ==> #[trigger] text[i] != c,
        last_index(text, c) >= 0 ==> text[last_index(text, c)] == c,
        last_index(text, c) >= 0 <==> text.contains(c),
    decreases text.len(),
{
    if text.len() != 0 && text.last() != c {
        let rest = text.drop_last();
        lemma_last_index(rest, c);
        assert forall|i: int| last_index(text, c) < i < text.len() implies #[trigger] text[i]
            != c by {
            if i < rest.len() {
                assert(text[i] == rest[i]);
            }
        }
        if text.contains(c) {
            let i = choose|i: int| 0 <= i < text.len() && text[i] == c;
            assert(rest[i] == c);
        }
    }
}

/// A position with no `c` after it and `c` at it, or `-1`, is `last_index`.
pub proof fn lemma_last_index_is(text: Seq<char>, c: char, at: int)
    requires
        -1 <= at < text.len(),
        forall|i: int| at < i < text.len() ==> #[trigger] text[i] != c,
        at >= 0 ==> text[at] == c,
    ensures
        last_index(text, c) == at,
{
    lemma_last_index(text, c);
    let found = last_index(text, c);
    if found < at {
        assert(text[at] != c);
    } else if at < found {
        assert(text[found] != c);
    }
}

/// Dropping a prefix whose characters all satisfy `drop`, up to one that does not.
proof fn lemma_drop_leading(text: Seq<char>, drop: spec_fn(char) -> bool, from: int)
    requires
        0 <= from <= text.len(),
        forall|i: int| 0 <= i < from ==> drop(#[trigger] text[i]),
        from < text.len() ==> !drop(text[from]),
    ensures
        drop_leading(text, drop) == text.skip(from),
    decreases from,
{
    if from == 0 {
        assert(text.skip(0) == text);
    } else {
        assert(drop(text[0]));
        let rest = text.drop_first();
        assert forall|i: int| 0 <= i < from - 1 implies drop(#[trigger] rest[i]) by {
            assert(rest[i] == text[i + 1]);
        }
        lemma_drop_leading(rest, drop, from - 1);
        assert(rest.skip(from - 1) == text.skip(from));
    }
}

/// Dropping a suffix whose characters all satisfy `drop`, up to one that does not.
proof fn lemma_drop_trailing(text: Seq<char>, drop: spec_fn(char) -> bool, to: int)
    requires
        0 <= to <= text.len(),
        forall|i: int| to <= i < text.len() ==> drop(#[trigger] text[i]),
        to > 0 ==> !drop(text[to - 1]),
    ensures
        drop_trailing(text, drop) == text.take(to),
    decreases text.len() - to,
{
    if to == text.len() {
        assert(text.take(to) == text);
    } else {
        assert(drop(text[text.len() - 1]));
        let rest = text.drop_last();
        assert forall|i: int| to <= i < rest.len() implies drop(#[trigger] rest[i]) by {
            assert(rest[i] == text[i]);
        }
        lemma_drop_trailing(rest, drop, to);
        assert(rest.take(to) == text.take(to));
    }
}

/// The kept middle is what lies between the first and the last kept character.
pub proof fn lemma_drop_ends(text: Seq<char>, drop: spec_fn(char) -> bool, from: int, to: int)
    requires
        0 <= from <= to <= text.len(),
        forall|i: int| 0 <= i < from ==> drop(#[trigger] text[i]),
        forall|i: int| to <= i < text.len() ==> drop(#[trigger] text[i]),
        from < to ==> !drop(text[from]) && !drop(text[to - 1]),
        from == to ==> to == text.len(),
    ensures
        drop_ends(text, drop) == text.subrange(from, to),
{
    lemma_drop_leading(text, drop, from);
    let rest = text.skip(from);
    assert forall|i: int| to - from <= i < rest.len() implies drop(#[trigger] rest[i]) by {
        assert(rest[i] == text[i + from]);
    }
    if from < to {
        assert(rest[to - from - 1] == text[to - 1]);
    }
    lemma_drop_trailing(rest, drop, to - from);
    assert(rest.take(to - from) == text.subrange(from, to));
}

/// `word_length` counts up to the first white space.
pub proof fn lemma_word_length(text: Seq<char>, n: int)
    requires
        0 <= n <= text.len(),
        forall|i: int| 0 <= i < n ==> !is_space(#[trigger] text[i]),
        n < text.len() ==> is_space(text[n]),
    ensures
        word_length(text) == n,
    decreases n,
{
    if n > 0 {
        assert(!is_space(text[0]));
        let rest = text.drop_first();
        assert forall|i: int| 0 <= i < n - 1 implies !is_space(#[trigger] rest[i]) by {
            assert(rest[i] == text[i + 1]);
        }
        lemma_word_length(rest, n - 1);
    }
}

/// The word length is within the text, free of white space, and ends at white
/// space or at the end.
pub proof fn lemma_word_length_spans(text: Seq<char>)
    ensures
        word_length(text) <= text.len(),
        forall|i: int| 0 <= i < word_length(text) ==> !is_space(#[trigger] text[i]),
        word_length(text) < text.len() ==> is_space(text[word_length(text) as int]),
    decreases text.len(),
{
    if text.len() > 0 && !is_space(text[0]) {
        let rest = text.drop_first();
        lemma_word_length_spans(rest);
        assert forall|i: int| 0 <= i < word_length(text) implies !is_space(#[trigger] text[i]) by {
            if i > 0 {
                assert(rest[i - 1] == text[i]);
            }
        }
    }
}

/// A text without white space is its own only word.
pub proof fn lemma_one_word(text: Seq<char>)
    requires
        text.len() > 0,
        forall|i: int| 0 <= i < text.len() ==> !is_space(#[trigger] text[i]),
    ensures
        words_of(text) == seq![text],
{
    let n = text.len() as int;
    lemma_word_length(text, n);
    assert(!is_space(text[0]));
    assert(text.take(n) =~= text);
    assert(words_of(text.skip(n)) =~= Seq::empty());
    assert(words_of(text) =~= seq![text]);
}

/// Words are not empty and hold no white space.
pub proof fn lemma_words_are_solid(text: Seq<char>, k: int)
    requires
        0 <= k < words_of(text).len(),
    ensures
        words_of(text)[k].len() > 0,
        forall|i: int|
            0 <= i < words_of(text)[k].len() ==> !is_space(#[trigger] words_of(text)[k][i]),
    decreases text.len(),
{
    if text.len() > 0 {
        if is_space(text[0]) {
            lemma_words_are_solid(text.drop_first(), k);
        } else {
            lemma_word_length_spans(text);
            let n = word_length(text) as int;
            if k > 0 {
                assert(words_of(text)[k] == words_of(text.skip(n))[k - 1]);
                lemma_words_are_solid(text.skip(n), k - 1);
            }
        }
    }
}

/// White space separates: the words around it are those of the two sides.
pub proof fn lemma_words_split(left: Seq<char>, space: char, right: Seq<char>)
    requires
        is_space(space),
    ensures
        words_of(left.push(space) + right) == words_of(left) + words_of(right),
    decreases left.len(),
{
    let whole = left.push(space) + right;
    if left.len() == 0 {
        assert(whole[0] == space);
        assert(whole.drop_first() =~= right);
        assert(words_of(left) + words_of(right) =~= words_of(right));
    } else if is_space(left[0]) {
        assert(whole[0] == left[0]);
        assert(whole.drop_first() =~= left.drop_first().push(space) + right);
        lemma_words_split(left.drop_first(), space, right);
    } else {
        lemma_word_length_spans(left);
        let n = word_length(left) as int;
        assert(whole[0] == left[0]);
        assert forall|i: int| 0 <= i < n implies !is_space(#[trigger] whole[i]) by {
            assert(whole[i] == left[i]);
        }
        assert(whole[n] == if n < left.len() {
            left[n]
        } else {
            space
        });
        lemma_word_length(whole, n);
        assert(whole.take(n) =~= left.take(n));
        assert(whole.skip(n) =~= left.skip(n).push(space) + right);
        lemma_words_split(left.skip(n), space, right);
        assert(words_of(whole) =~= words_of(left) + words_of(right));
    }
}

/// The words of parts that white space joins are words of the parts.
pub proof fn lemma_words_of_joined(parts: Seq<Seq<char>>, space: char, k: int) -> (at: int)
    requires
        is_space(space),
        0 <= k < words_of(joined(parts, seq![space])).len(),
    ensures
        0 <= at < parts.len(),
        words_of(parts[at]).contains(words_of(joined(parts, seq![space]))[k]),
    decreases parts.len(),
{
    let all = joined(parts, seq![space]);
    if parts.len() <= 1 {
        assert(words_of(Seq::<char>::empty()) =~= Seq::empty());
        assert(all == parts[0]);
        0
    } else {
        let earlier = joined(parts.drop_last(), seq![space]);
        assert(all =~= earlier.push(space) + parts.last());
        lemma_words_split(earlier, space, parts.last());
        let count = words_of(earlier).len() as int;
        if k < count {
            let at = lemma_words_of_joined(parts.drop_last(), space, k);
            assert(parts.drop_last()[at] == parts[at]);
            assert(words_of(all)[k] == words_of(earlier)[k]);
            at
        } else {
            assert(words_of(all)[k] == words_of(parts.last())[k - count]);
            parts.len() - 1
        }
    }
}

/// Where a text is cut, only its last word can change.
pub proof fn lemma_words_of_cut(head: Seq<char>, mark: Seq<char>, rest: Seq<char>, k: int)
    requires
        mark.len() > 0,
        forall|i: int| 0 <= i < mark.len() ==> !is_space(#[trigger] mark[i]),
        0 <= k < words_of(head + mark).len() - 1,
    ensures
        k < words_of(head + rest).len(),
        words_of(head + mark)[k] == words_of(head + rest)[k],
    decreases head.len(),
{
    let cut = head + mark;
    let whole = head + rest;
    if head.len() == 0 {
        assert(cut =~= mark);
        lemma_one_word(mark);
    } else if is_space(head[0]) {
        assert(cut[0] == head[0] && whole[0] == head[0]);
        assert(cut.drop_first() =~= head.drop_first() + mark);
        assert(whole.drop_first() =~= head.drop_first() + rest);
        lemma_words_of_cut(head.drop_first(), mark, rest, k);
    } else {
        lemma_word_length_spans(head);
        let n = word_length(head) as int;
        if n < head.len() {
            assert(cut[0] == head[0] && whole[0] == head[0]);
            assert forall|i: int| 0 <= i < n implies !is_space(#[trigger] cut[i]) by {
                assert(cut[i] == head[i]);
            }
            assert forall|i: int| 0 <= i < n implies !is_space(#[trigger] whole[i]) by {
                assert(whole[i] == head[i]);
            }
            lemma_word_length(cut, n);
            lemma_word_length(whole, n);
            assert(cut.take(n) =~= whole.take(n));
            assert(cut.skip(n) =~= head.skip(n) + mark);
            assert(whole.skip(n) =~= head.skip(n) + rest);
            if k > 0 {
                lemma_words_of_cut(head.skip(n), mark, rest, k - 1);
            }
        } else {
            assert forall|i: int| 0 <= i < cut.len() implies !is_space(#[trigger] cut[i]) by {
                if i < n {
                    assert(cut[i] == head[i]);
                } else {
                    assert(cut[i] == mark[i - n]);
                }
            }
            lemma_one_word(cut);
        }
    }
}

/// What is left between the ends was there before.
pub proof fn lemma_drop_ends_keeps(text: Seq<char>, drop: spec_fn(char) -> bool, c: char)
    requires
        drop_ends(text, drop).contains(c),
    ensures
        text.contains(c),
{
    lemma_drop_trailing_keeps(drop_leading(text, drop), drop, c);
    lemma_drop_leading_keeps(text, drop, c);
}

proof fn lemma_drop_leading_keeps(text: Seq<char>, drop: spec_fn(char) -> bool, c: char)
    requires
        drop_leading(text, drop).contains(c),
    ensures
        text.contains(c),
    decreases text.len(),
{
    if text.len() > 0 && drop(text[0]) {
        let rest = text.drop_first();
        lemma_drop_leading_keeps(rest, drop, c);
        let i = rest.index_of(c);
        assert(text[i + 1] == c);
    }
}

proof fn lemma_drop_trailing_keeps(text: Seq<char>, drop: spec_fn(char) -> bool, c: char)
    requires
        drop_trailing(text, drop).contains(c),
    ensures
        text.contains(c),
    decreases text.len(),
{
    if text.len() > 0 && drop(text.last()) {
        let rest = text.drop_last();
        lemma_drop_trailing_keeps(rest, drop, c);
        let i = rest.index_of(c);
        assert(text[i] == c);
    }
}

/// Joining one part more appends the separator and the part.
pub proof fn lemma_joined_push(parts: Seq<Seq<char>>, part: Seq<char>, separator: Seq<char>)
    requires
        parts.len() > 0,
    ensures
        joined(parts.push(part), separator) == joined(parts, separator) + separator + part,
{
    assert(parts.push(part).drop_last() == parts);
}

/// The byte length of a text is the sum over a split of it.
pub proof fn lemma_byte_length_add(left: Seq<char>, right: Seq<char>)
    ensures
        byte_length(left + right) == byte_length(left) + byte_length(right),
    decreases left.len(),
{
    if left.len() == 0 {
        assert(left + right == right);
    } else {
        assert((left + right).drop_first() == left.drop_first() + right);
        lemma_byte_length_add(left.drop_first(), right);
    }
}

/// One more character adds its width to the byte length.
pub proof fn lemma_byte_length_push(text: Seq<char>, c: char)
    ensures
        byte_length(text.push(c)) == byte_length(text) + char_width(c),
        encode_scalar(c as u32).len() == char_width(c),
{
    lemma_byte_length_add(text, seq![c]);
    assert(text + seq![c] == text.push(c));
    assert(seq![c].drop_first() == Seq::<char>::empty());
    reveal_with_fuel(encode_utf8, 2);
    assert(encode_utf8(seq![c]) == encode_scalar(c as u32) + encode_utf8(seq![c].drop_first()));
}

/// Decimal numerals are not empty and hold digits alone.
pub proof fn lemma_decimal_digits(n: nat)
    ensures
        decimal(n).len() > 0,
        all_digits(decimal(n)),
        digits_value(decimal(n)) == n,
    decreases n,
{
    if n < 10 {
        assert(seq![digit(n)].drop_last() == Seq::<char>::empty());
        assert(digits_value(seq![digit(n)]) == digits_value(seq![digit(n)].drop_last()) * 10 + n);
        reveal_with_fuel(digits_value, 2);
    } else {
        lemma_decimal_digits(n / 10);
        assert(decimal(n).drop_last() == decimal(n / 10));
    }
}

/// Reading a decimal numeral back gives the number that it was written from.
pub proof fn law_decimal_reads_back(n: u32)
    ensures
        u32_value(decimal(n as nat)) == Some(n),
{
    lemma_decimal_digits(n as nat);
    assert('0' <= decimal(n as nat)[0] <= '9');
}

// ---------------------------------------------------------------------------
// Laws
// ---------------------------------------------------------------------------

/// Parts are joined by writing them one after the other, with the separator
/// between neighbours and nowhere else.
pub proof fn law_joining_concatenates(
    left: Seq<Seq<char>>,
    right: Seq<Seq<char>>,
    separator: Seq<char>,
)
    ensures
        left.len() == 0 ==> joined(left, separator) == Seq::<char>::empty(),
        left.len() == 1 ==> joined(left, separator) == left[0],
        left.len() > 0 && right.len() > 0 ==> joined(left + right, separator) == joined(
            left,
            separator,
        ) + separator + joined(right, separator),
    decreases right.len(),
{
    if left.len() > 0 && right.len() > 0 {
        let all = left + right;
        if right.len() == 1 {
            assert(all.drop_last() =~= left);
            assert(all.last() == right[0]);
        } else {
            let rest = right.drop_last();
            law_joining_concatenates(left, rest, separator);
            assert(all.drop_last() =~= left + rest);
            assert(all.last() == right.last());
            assert(joined(left, separator) + separator + joined(rest, separator) + separator
                + right.last() =~= joined(left, separator) + separator + (joined(rest, separator)
                + separator + right.last()));
        }
    }
}

/// The pieces of a text between the occurrences of a character.
pub open spec fn pieces(text: Seq<char>, c: char) -> Seq<Seq<char>>
    decreases text.len(),
{
    if !text.contains(c) {
        seq![text]
    } else {
        let at = text.index_of(c);
        if 0 <= at < text.len() {
            pieces(text.take(at), c) + pieces(text.skip(at + 1), c)
        } else {
            seq![text]
        }
    }
}

proof fn lemma_pieces(head: Seq<char>, c: char, tail: Seq<char>)
    ensures
        pieces(head.push(c) + tail, c) == pieces(head, c) + pieces(tail, c),
    decreases head.len() + tail.len(),
{
    let whole = head.push(c) + tail;
    assert(whole[head.len() as int] == c);
    let at = whole.index_of(c);
    assert(0 <= at < whole.len() && whole[at] == c);
    if at < head.len() {
        let left = whole.take(at);
        let middle = head.subrange(at + 1, head.len() as int);
        assert(left =~= head.take(at));
        assert(whole.skip(at + 1) =~= middle.push(c) + tail);
        lemma_pieces(middle, c, tail);
        assert(head =~= left.push(c) + middle);
        lemma_pieces(left, c, middle);
        assert(pieces(left, c) + (pieces(middle, c) + pieces(tail, c)) =~= pieces(left, c) + pieces(
            middle,
            c,
        ) + pieces(tail, c));
    } else if at == head.len() {
        assert(whole.take(at) =~= head);
        assert(whole.skip(at + 1) =~= tail);
    } else {
        let middle = tail.take(at - head.len() - 1);
        let right = whole.skip(at + 1);
        assert(whole.take(at) =~= head.push(c) + middle);
        assert(right =~= tail.skip(at - head.len()));
        lemma_pieces(head, c, middle);
        assert(tail =~= middle.push(c) + right);
        lemma_pieces(middle, c, right);
        assert(pieces(head, c) + pieces(middle, c) + pieces(right, c) =~= pieces(head, c) + (pieces(
            middle,
            c,
        ) + pieces(right, c)));
    }
}

/// Parts that were joined by a character which none of them holds are the pieces
/// of the whole.
pub proof fn law_joined_parts_split_back(parts: Seq<Seq<char>>, c: char)
    requires
        parts.len() > 0,
        forall|i: int| 0 <= i < parts.len() ==> !(#[trigger] parts[i]).contains(c),
    ensures
        pieces(joined(parts, seq![c]), c) == parts,
    decreases parts.len(),
{
    if parts.len() == 1 {
        assert(parts =~= seq![parts[0]]);
    } else {
        let rest = parts.drop_last();
        assert forall|i: int| 0 <= i < rest.len() implies !(#[trigger] rest[i]).contains(c) by {
            assert(rest[i] == parts[i]);
        }
        law_joined_parts_split_back(rest, c);
        let head = joined(rest, seq![c]);
        let last = parts[parts.len() - 1];
        assert(joined(parts, seq![c]) =~= head.push(c) + last);
        lemma_pieces(head, c, last);
        assert(rest + seq![last] =~= parts);
    }
}

/// White space at the ends is cut off, and nothing else.
pub proof fn law_trimming_keeps_the_core(before: Seq<char>, core: Seq<char>, after: Seq<char>)
    requires
        forall|i: int| 0 <= i < before.len() ==> is_space(#[trigger] before[i]),
        forall|i: int| 0 <= i < after.len() ==> is_space(#[trigger] after[i]),
        core.len() > 0 ==> !is_space(core[0]) && !is_space(core.last()),
    ensures
        trimmed(before + core + after) == core,
{
    let text = before + core + after;
    let drop = |c: char| is_space(c);
    let from = before.len() as int;
    let to = from + core.len();
    if core.len() == 0 {
        assert forall|i: int| 0 <= i < text.len() implies drop(#[trigger] text[i]) by {
            if i >= from {
                assert(text[i] == after[i - from]);
            } else {
                assert(text[i] == before[i]);
            }
        }
        lemma_drop_ends(text, drop, text.len() as int, text.len() as int);
        assert(text.subrange(text.len() as int, text.len() as int) =~= core);
    } else {
        assert forall|i: int| 0 <= i < from implies drop(#[trigger] text[i]) by {
            assert(text[i] == before[i]);
        }
        assert forall|i: int| to <= i < text.len() implies drop(#[trigger] text[i]) by {
            assert(text[i] == after[i - to]);
        }
        assert(text[from] == core[0]);
        assert(text[to - 1] == core.last());
        lemma_drop_ends(text, drop, from, to);
        assert(text.subrange(from, to) =~= core);
    }
}

/// Blanks, tabs and line endings are white space; what is printed is not.
pub proof fn law_printed_characters_are_no_white_space(c: char)
    ensures
        is_space(' ') && is_space('\t') && is_space('\n') && is_space('\r'),
        '!' <= c <= '~' ==> !is_space(c),
{
}

/// A text with its ends told apart from what trimming leaves.
proof fn lemma_trimmed_parts(text: Seq<char>) -> (parts: (Seq<char>, Seq<char>))
    ensures
        text == parts.0 + trimmed(text) + parts.1,
        forall|i: int| 0 <= i < parts.0.len() ==> is_space(#[trigger] parts.0[i]),
        forall|i: int| 0 <= i < parts.1.len() ==> is_space(#[trigger] parts.1[i]),
        trimmed(text).len() > 0 ==> !is_space(trimmed(text)[0]) && !is_space(trimmed(text).last()),
    decreases text.len(),
{
    if text.len() > 0 && is_space(text[0]) {
        let rest = text.drop_first();
        let (before, after) = lemma_trimmed_parts(rest);
        let longer = seq![text[0]] + before;
        law_trimming_keeps_the_core(longer, trimmed(rest), after);
        assert(text =~= seq![text[0]] + rest);
        assert(seq![text[0]] + (before + trimmed(rest) + after) =~= longer + trimmed(rest) + after);
        (longer, after)
    } else if text.len() > 0 && is_space(text.last()) {
        let rest = text.drop_last();
        let (before, after) = lemma_trimmed_parts(rest);
        let longer = after.push(text.last());
        law_trimming_keeps_the_core(before, trimmed(rest), longer);
        assert(text =~= rest.push(text.last()));
        assert((before + trimmed(rest) + after).push(text.last()) =~= before + trimmed(rest)
            + longer);
        (before, longer)
    } else {
        let none = Seq::<char>::empty();
        law_trimming_keeps_the_core(none, text, none);
        assert(text =~= none + text + none);
        (none, none)
    }
}

/// A carriage return at the end makes no difference to a trimmed line.
proof fn lemma_trimmed_carriage_return(line: Seq<char>)
    ensures
        trimmed(without_carriage_return(line)) == trimmed(line),
{
    if line.len() > 0 && line.last() == '\r' {
        let cut = line.drop_last();
        let (before, after) = lemma_trimmed_parts(cut);
        law_trimming_keeps_the_core(before, trimmed(cut), after.push('\r'));
        assert(line =~= cut.push('\r'));
        assert((before + trimmed(cut) + after).push('\r') =~= before + trimmed(cut) + after.push(
            '\r',
        ));
    }
}

/// A line is what stands before `\n` or `\r\n`, and the lines of the rest follow.
/// What stands after the last line ending is a line too, unless it is empty.
pub proof fn law_lines_end_at_line_endings(line: Seq<char>, rest: Seq<char>)
    requires
        !line.contains('\n'),
    ensures
        lines_of(line.push('\r').push('\n') + rest) == seq![line] + lines_of(rest),
        !(line.len() > 0 && line.last() == '\r') ==> lines_of(line.push('\n') + rest) == seq![line]
            + lines_of(rest),
        lines_of(line) == if line.len() == 0 {
            Seq::<Seq<char>>::empty()
        } else {
            seq![line]
        },
{
    let at = line.len() as int;
    let plain = line.push('\n') + rest;
    lemma_first_index_is(plain, '\n', at);
    assert(plain.take(at) =~= line);
    assert(plain.skip(at + 1) =~= rest);
    let returned = line.push('\r').push('\n') + rest;
    lemma_first_index_is(returned, '\n', at + 1);
    assert(returned.take(at + 1) =~= line.push('\r'));
    assert(returned.take(at + 1).drop_last() =~= line);
    assert(returned.skip(at + 2) =~= rest);
    lemma_first_index_is(line, '\n', at);
}

/// The trimmed lines of a text that is cut at a line ending are those of its
/// two parts, and a text of one line has itself, trimmed, unless it is blank.
pub proof fn law_trimmed_lines_concatenate(left: Seq<char>, right: Seq<char>)
    ensures
        trimmed_lines(left.push('\n') + right) == trimmed_lines(left) + trimmed_lines(right),
        !left.contains('\n') ==> trimmed_lines(left) == if trimmed(left).len() == 0 {
            Seq::<Seq<char>>::empty()
        } else {
            seq![trimmed(left)]
        },
    decreases left.len(),
{
    let whole = left.push('\n') + right;
    lemma_first_index(left, '\n');
    let at = first_index(left, '\n') as int;
    if !left.contains('\n') {
        lemma_one_trimmed_line(left);
        lemma_first_index_is(whole, '\n', at);
        assert(whole.take(at) =~= left);
        assert(whole.skip(at + 1) =~= right);
        lemma_trimmed_lines_first(left, right);
    } else {
        let line = left.take(at);
        let rest = left.skip(at + 1);
        assert(!line.contains('\n')) by {
            if line.contains('\n') {
                let i = line.index_of('\n');
                assert(left[i] == '\n');
            }
        }
        law_trimmed_lines_concatenate(rest, right);
        assert(left =~= line.push('\n') + rest);
        assert(whole =~= line.push('\n') + (rest.push('\n') + right));
        lemma_trimmed_lines_first(line, rest);
        lemma_trimmed_lines_first(line, rest.push('\n') + right);
        assert(trimmed_lines(line) + (trimmed_lines(rest) + trimmed_lines(right)) =~= trimmed_lines(
            line,
        ) + trimmed_lines(rest) + trimmed_lines(right));
    }
}

proof fn lemma_one_trimmed_line(line: Seq<char>)
    requires
        !line.contains('\n'),
    ensures
        trimmed_lines(line) == if trimmed(line).len() == 0 {
            Seq::<Seq<char>>::empty()
        } else {
            seq![trimmed(line)]
        },
{
    reveal(Seq::filter);
    let trim = |line: Seq<char>| trimmed(line);
    let solid = |line: Seq<char>| line.len() > 0;
    law_lines_end_at_line_endings(line, Seq::empty());
    let cut = lines_of(line).map_values(trim);
    if line.len() == 0 {
        assert(cut =~= Seq::empty());
        assert(trimmed(line) =~= line);
    } else {
        assert(cut =~= seq![trimmed(line)]);
        assert(cut.drop_last() =~= Seq::empty());
        assert(cut.drop_last().filter(solid) =~= Seq::empty());
        assert(cut.last() == trimmed(line));
    }
}

proof fn lemma_trimmed_lines_first(line: Seq<char>, rest: Seq<char>)
    requires
        !line.contains('\n'),
    ensures
        trimmed_lines(line.push('\n') + rest) == trimmed_lines(line) + trimmed_lines(rest),
{
    reveal(Seq::filter);
    let trim = |line: Seq<char>| trimmed(line);
    let solid = |line: Seq<char>| line.len() > 0;
    let whole = line.push('\n') + rest;
    let at = line.len() as int;
    lemma_first_index_is(whole, '\n', at);
    assert(whole.take(at) =~= line);
    assert(whole.skip(at + 1) =~= rest);
    lemma_trimmed_carriage_return(line);
    lemma_one_trimmed_line(line);
    let first = seq![without_carriage_return(line)];
    let one = first.map_values(trim);
    assert(one =~= seq![trimmed(line)]);
    assert(lines_of(whole).map_values(trim) =~= one + lines_of(rest).map_values(trim));
    Seq::filter_distributes_over_add(one, lines_of(rest).map_values(trim), solid);
    assert(one.drop_last() =~= Seq::empty());
    assert(one.drop_last().filter(solid) =~= Seq::empty());
    assert(one.last() == trimmed(line));
    assert(one.filter(solid) =~= trimmed_lines(line));
}

/// A text is split at the first or at the last occurrence of a character, which
/// is left out, and not at all where the character does not occur.
pub proof fn law_splits_leave_out_the_character(before: Seq<char>, c: char, after: Seq<char>)
    ensures
        !before.contains(c) ==> {
            &&& split_first(before.push(c) + after, c) == Some((before, after))
            &&& split_first(before, c) is None
            &&& split_last(before, c) is None
            &&& after_last(before, c) == before
        },
        !after.contains(c) ==> {
            &&& split_last(before.push(c) + after, c) == Some((before, after))
            &&& after_last(before.push(c) + after, c) == after
        },
{
    let text = before.push(c) + after;
    let at = before.len() as int;
    assert(text[at] == c);
    assert(text.take(at) =~= before);
    assert(text.skip(at + 1) =~= after);
    if !before.contains(c) {
        lemma_first_index_is(text, c, at);
        lemma_last_index_is(before, c, -1);
        assert(before.skip(0) =~= before);
    }
    if !after.contains(c) {
        assert forall|i: int| at < i < text.len() implies #[trigger] text[i] != c by {
            assert(text[i] == after[i - at - 1]);
        }
        lemma_last_index_is(text, c, at);
    }
}

/// Words are separated by white space: a text that is cut at a space has the
/// words of its two parts, and a text without any is one word.
pub proof fn law_words_are_separated_by_space(left: Seq<char>, space: char, right: Seq<char>)
    ensures
        words_of(Seq::<char>::empty()) == Seq::<Seq<char>>::empty(),
        is_space(space) ==> words_of(left.push(space) + right) == words_of(left) + words_of(right),
        left.len() > 0 && (forall|i: int| 0 <= i < left.len() ==> !is_space(#[trigger] left[i]))
            ==> words_of(left) == seq![left],
{
    if is_space(space) {
        lemma_words_split(left, space, right);
    }
    if left.len() > 0 && (forall|i: int| 0 <= i < left.len() ==> !is_space(#[trigger] left[i])) {
        lemma_one_word(left);
    }
}

/// A number is read digit by digit, with or without a plus sign. A text that
/// holds anything else, holds no digit, or denotes too large a number is none.
pub proof fn law_numbers_are_read_digit_by_digit(text: Seq<char>, d: char)
    ensures
        u32_value(Seq::<char>::empty()) is None,
        !('0' <= d <= '9') && d != '+' ==> u32_value(text.push(d)) is None && u32_value(
            seq![d] + text,
        ) is None,
        '0' <= d <= '9' ==> u32_value(seq![d]) == Some((d as u32 - 48) as u32),
        '0' <= d <= '9' ==> match u32_value(text) {
            Some(n) => u32_value(text.push(d)) == if n * 10 + (d as u32 - 48) <= u32::MAX {
                Some((n * 10 + (d as u32 - 48)) as u32)
            } else {
                None
            },
            None => true,
        },
        u32_value(text) is Some && text[0] != '+' ==> u32_value(seq!['+'] + text) == u32_value(text),
{
    let longer = text.push(d);
    let before = seq![d] + text;
    assert((seq!['+'] + text).skip(1) =~= text);
    assert(seq![d].drop_last() =~= Seq::<char>::empty());
    reveal_with_fuel(digits_value, 2);
    if !('0' <= d <= '9') && d != '+' {
        assert(before[0] == d);
        assert(longer[text.len() as int] == d);
        if longer[0] == '+' {
            assert(longer.skip(1)[text.len() - 1] == d);
        }
    }
    if '0' <= d <= '9' && u32_value(text) is Some {
        let digits = if text[0] == '+' {
            text.skip(1)
        } else {
            text
        };
        assert(longer[0] == text[0]);
        assert(longer.skip(1) =~= text.skip(1).push(d));
        assert(digits.push(d).drop_last() =~= digits);
        assert(digits_value(digits.push(d)) == digits_value(digits) * 10 + (d as u32 - 48));
        assert forall|i: int| 0 <= i < digits.push(d).len() implies '0' <= #[trigger] digits.push(
            d,
        )[i] <= '9' by {
            if i < digits.len() {
                assert(digits.push(d)[i] == digits[i]);
            }
        }
    }
}

/// A part occurs in a text if and only if the text can be cut around it.
pub proof fn law_parts_occur_where_they_stand(
    before: Seq<char>,
    part: Seq<char>,
    after: Seq<char>,
)
    ensures
        occurs(before + part + after, part),
        occurs(before, part) ==> exists|left: Seq<char>, right: Seq<char>|
            before == #[trigger] (left + part + right),
{
    let whole = before + part + after;
    let at = before.len() as int;
    assert(whole.subrange(at, at + part.len()) =~= part);
    assert(occurs_at(whole, part, at));
    if occurs(before, part) {
        let from = choose|from: int| occurs_at(before, part, from);
        let left = before.take(from);
        let right = before.skip(from + part.len());
        assert(before =~= left + before.subrange(from, from + part.len()) + right);
        assert(before == left + part + right);
    }
}

/// Capital letters of the alphabet are made small, and nothing else is changed.
pub proof fn law_only_capital_letters_are_lowered(text: Seq<char>, i: int)
    requires
        0 <= i < text.len(),
    ensures
        lowered(text).len() == text.len(),
        'A' <= text[i] <= 'Z' ==> lowered(text)[i] as u32 - 'a' as u32 == text[i] as u32
            - 'A' as u32,
        !('A' <= text[i] <= 'Z') ==> lowered(text)[i] == text[i],
{
}

/// What stands in front, or behind, is cut off where it stands there; otherwise
/// there is nothing to cut off.
pub proof fn law_ends_are_cut_off(end: Seq<char>, rest: Seq<char>)
    ensures
        without_prefix(end + rest, end) == Some(rest),
        without_suffix(rest + end, end) == Some(rest),
        without_prefix(rest, end) matches Some(left) ==> rest == end + left,
        without_suffix(rest, end) matches Some(left) ==> rest == left + end,
{
    assert((end + rest).skip(end.len() as int) =~= rest);
    assert(end.is_prefix_of(end + rest));
    let behind = rest + end;
    assert(end.is_suffix_of(behind)) by {
        assert(behind.subrange(behind.len() - end.len(), behind.len() as int) =~= end);
    }
    assert(behind.take(behind.len() - end.len()) =~= rest);
    if end.is_prefix_of(rest) {
        assert(rest =~= end + rest.skip(end.len() as int));
    }
    if end.is_suffix_of(rest) {
        assert(rest =~= rest.take(rest.len() - end.len()) + rest.subrange(
            rest.len() - end.len(),
            rest.len() as int,
        ));
    }
}

/// A number is written in digits, without a leading zero, and with a minus sign
/// exactly when it is negative.
pub proof fn law_numbers_have_no_leading_zero(n: nat)
    ensures
        n > 0 ==> decimal(n)[0] != '0',
        decimal(0) == seq!['0'],
        all_digits(decimal(n)),
        digits_value(decimal(n)) == n,
        signed_decimal(n as int) == decimal(n),
        n > 0 ==> signed_decimal(-(n as int)) == seq!['-'] + decimal(n),
    decreases n,
{
    lemma_decimal_digits(n);
    assert(digit(0) == '0');
    if n >= 10 {
        law_numbers_have_no_leading_zero(n / 10);
        lemma_decimal_digits(n / 10);
        assert(decimal(n)[0] == decimal(n / 10)[0]);
    } else {
        assert(digit(n) as u32 == 48 + n);
    }
}

/// The white space of Unicode, and nothing else, counts as white space.
pub proof fn law_white_space_of_unicode(c: char)
    ensures
        is_space(c) <==> c == '\t' || c == '\n' || c == '\u{b}' || c == '\u{c}' || c == '\r' || c
            == ' ' || c == '\u{85}' || c == '\u{a0}' || c == '\u{1680}' || ('\u{2000}' <= c
            <= '\u{200a}') || c == '\u{2028}' || c == '\u{2029}' || c == '\u{202f}' || c
            == '\u{205f}' || c == '\u{3000}',
{
}

/// A component is put behind a path with exactly one slash between them.
pub proof fn law_paths_are_joined_by_a_slash(base: Seq<char>, name: Seq<char>)
    ensures
        path_with(Seq::empty(), name) == name,
        path_with(base.push('/'), name) == base.push('/') + name,
        base.len() > 0 && base.last() != '/' ==> path_with(base, name) == base.push('/') + name,
{
    reveal_strlit("/");
    assert(base + "/"@ + name =~= base.push('/') + name);
    assert(base.push('/').last() == '/');
    assert(Seq::<char>::empty() + name =~= name);
}

// ---------------------------------------------------------------------------
// Operations
// ---------------------------------------------------------------------------

/// The characters of `text`.
pub fn chars_of(text: &str) -> (result: Vec<char>)
    ensures
        result@ == text@,
{
    let mut out: Vec<char> = Vec::new();
    for c in it: text.chars()
        invariant
            out@ == it.seq().take(it.index()),
            it.seq() == text@,
    {
        out.push(c);
    }
    out
}

/// The string of the characters from `from` up to `to`.
pub fn slice_text(chars: &Vec<char>, from: usize, to: usize) -> (result: String)
    requires
        from <= to <= chars.len(),
    ensures
        result@ == chars@.subrange(from as int, to as int),
{
    let mut out = String::new();
    let mut i: usize = from;
    while i < to
        invariant
            from <= i <= to <= chars.len(),
            out@ == chars@.subrange(from as int, i as int),
        decreases to - i,
    {
        out.push(chars[i]);
        i += 1;
    }
    out
}

/// Whether two texts hold the same characters.
pub fn same(left: &str, right: &str) -> (result: bool)
    ensures
        result == (left@ == right@),
{
    left.to_owned() == right.to_owned()
}

/// Whether `part` occurs in `text` at `at`.
fn matches_at(text: &Vec<char>, part: &Vec<char>, at: usize) -> (result: bool)
    ensures
        result == occurs_at(text@, part@, at as int),
{
    if at > text.len() || part.len() > text.len() - at {
        return false;
    }
    let mut i: usize = 0;
    while i < part.len()
        invariant
            i <= part.len(),
            at + part.len() <= text.len(),
            forall|j: int| 0 <= j < i ==> text@[at + j] == #[trigger] part@[j],
        decreases part.len() - i,
    {
        if text[at + i] != part[i] {
            assert(text@.subrange(at as int, at + part.len())[i as int] != part@[i as int]);
            return false;
        }
        i += 1;
    }
    assert(text@.subrange(at as int, at + part.len()) =~= part@);
    true
}

/// Whether `text` starts with `prefix`.
pub fn starts_with(text: &str, prefix: &str) -> (result: bool)
    ensures
        result == prefix@.is_prefix_of(text@),
{
    let result = matches_at(&chars_of(text), &chars_of(prefix), 0);
    result
}

/// Whether `text` ends with `suffix`.
pub fn ends_with(text: &str, suffix: &str) -> (result: bool)
    ensures
        result == suffix@.is_suffix_of(text@),
{
    let chars = chars_of(text);
    let tail = chars_of(suffix);
    if tail.len() > chars.len() {
        return false;
    }
    matches_at(&chars, &tail, chars.len() - tail.len())
}

/// Whether `part` occurs in `text`.
pub fn contains(text: &str, part: &str) -> (result: bool)
    ensures
        result == occurs(text@, part@),
{
    let chars = chars_of(text);
    let wanted = chars_of(part);
    if wanted.len() > chars.len() {
        return false;
    }
    let last: usize = chars.len() - wanted.len();
    let mut at: usize = 0;
    while at <= last
        invariant
            chars@ == text@,
            wanted@ == part@,
            last + wanted.len() == chars.len(),
            at <= last + 1,
            forall|j: int| 0 <= j < at ==> !occurs_at(text@, part@, j),
        decreases last + 1 - at,
    {
        if matches_at(&chars, &wanted, at) {
            return true;
        }
        if at == last {
            return false;
        }
        at += 1;
    }
    false
}

/// The text after `prefix`, when `text` starts with it.
pub fn strip_prefix(text: &str, prefix: &str) -> (result: Option<String>)
    ensures
        result.deep_view() == without_prefix(text@, prefix@),
{
    let chars = chars_of(text);
    let head = chars_of(prefix);
    if matches_at(&chars, &head, 0) {
        Some(slice_text(&chars, head.len(), chars.len()))
    } else {
        None
    }
}

/// The text before `suffix`, when `text` ends with it.
pub fn strip_suffix(text: &str, suffix: &str) -> (result: Option<String>)
    ensures
        result.deep_view() == without_suffix(text@, suffix@),
{
    let chars = chars_of(text);
    let tail = chars_of(suffix);
    if tail.len() <= chars.len() && matches_at(&chars, &tail, chars.len() - tail.len()) {
        Some(slice_text(&chars, 0, chars.len() - tail.len()))
    } else {
        None
    }
}

/// Position of the first `c` from `from` on, or the length.
fn find_from(chars: &Vec<char>, c: char, from: usize) -> (at: usize)
    requires
        from <= chars.len(),
    ensures
        from <= at <= chars.len(),
        at - from == first_index(chars@.skip(from as int), c),
{
    let mut at: usize = from;
    while at < chars.len() && chars[at] != c
        invariant
            from <= at <= chars.len(),
            forall|i: int| from <= i < at ==> #[trigger] chars@[i] != c,
        decreases chars.len() - at,
    {
        at += 1;
    }
    proof {
        let rest = chars@.skip(from as int);
        assert forall|i: int| 0 <= i < at - from implies #[trigger] rest[i] != c by {
            assert(rest[i] == chars@[i + from]);
        }
        lemma_first_index_is(rest, c, at - from);
    }
    at
}

/// One past the position of the last `c`, or zero when there is none.
fn find_last(chars: &Vec<char>, c: char) -> (end: usize)
    ensures
        end <= chars.len(),
        end - 1 == last_index(chars@, c),
{
    let mut end: usize = chars.len();
    while end > 0 && chars[end - 1] != c
        invariant
            end <= chars.len(),
            forall|i: int| end <= i < chars.len() ==> #[trigger] chars@[i] != c,
        decreases end,
    {
        end -= 1;
    }
    proof {
        lemma_last_index_is(chars@, c, end - 1);
    }
    end
}

/// Splits `text` at the first `c`.
pub fn split_once(text: &str, c: char) -> (result: Option<(String, String)>)
    ensures
        result.deep_view() == split_first(text@, c),
{
    let chars = chars_of(text);
    let at = find_from(&chars, c, 0);
    proof {
        assert(chars@.skip(0) == chars@);
        lemma_first_index(text@, c);
    }
    if at < chars.len() {
        Some((slice_text(&chars, 0, at), slice_text(&chars, at + 1, chars.len())))
    } else {
        None
    }
}

/// Splits `text` at the last `c`.
pub fn rsplit_once(text: &str, c: char) -> (result: Option<(String, String)>)
    ensures
        result.deep_view() == split_last(text@, c),
{
    let chars = chars_of(text);
    let end = find_last(&chars, c);
    proof {
        lemma_last_index(text@, c);
    }
    if end > 0 {
        Some((slice_text(&chars, 0, end - 1), slice_text(&chars, end, chars.len())))
    } else {
        None
    }
}

/// The text after the last `c`, or the whole text.
pub fn rest_after_last(text: &str, c: char) -> (result: String)
    ensures
        result@ == after_last(text@, c),
{
    let chars = chars_of(text);
    let end = find_last(&chars, c);
    slice_text(&chars, end, chars.len())
}

/// The lines of `text`.
pub fn lines(text: &str) -> (result: Vec<String>)
    ensures
        result.deep_view() == lines_of(text@),
{
    let chars = chars_of(text);
    let mut out: Vec<String> = Vec::new();
    let mut from: usize = 0;
    assert(chars@.skip(0) == text@);
    assert(out.deep_view() + lines_of(text@) =~= lines_of(text@));
    while from < chars.len()
        invariant
            chars@ == text@,
            from <= chars.len(),
            out.deep_view() + lines_of(chars@.skip(from as int)) == lines_of(text@),
        decreases chars.len() - from,
    {
        let ghost before = out.deep_view();
        let ghost rest = chars@.skip(from as int);
        let at = find_from(&chars, '\n', from);
        if at == chars.len() {
            let line = slice_text(&chars, from, at);
            assert(line@ =~= rest);
            out.push(line);
            from = at;
            proof {
                assert(lines_of(rest) == seq![rest]);
                assert(chars@.skip(from as int) == Seq::<char>::empty());
                assert(out.deep_view() =~= before.push(rest));
                assert(out.deep_view() + lines_of(chars@.skip(from as int)) =~= before + seq![rest]);
            }
        } else {
            let end: usize = if at > from && chars[at - 1] == '\r' {
                at - 1
            } else {
                at
            };
            let line = slice_text(&chars, from, end);
            proof {
                let head = rest.take(at - from);
                assert(head == chars@.subrange(from as int, at as int));
                if at > from {
                    assert(head.last() == chars@[at - 1]);
                    assert(head.drop_last() == chars@.subrange(from as int, at - 1));
                }
                assert(line@ == without_carriage_return(head));
                assert(rest.skip(at - from + 1) == chars@.skip(at + 1));
                assert(lines_of(rest) == seq![line@] + lines_of(chars@.skip(at + 1)));
            }
            out.push(line);
            from = at + 1;
            proof {
                assert(out.deep_view() =~= before.push(line@));
                assert(out.deep_view() + lines_of(chars@.skip(from as int)) =~= before + (seq![
                    line@,
                ] + lines_of(chars@.skip(from as int))));
            }
        }
    }
    proof {
        assert(chars@.skip(from as int) == Seq::<char>::empty());
        assert(out.deep_view() + Seq::<Seq<char>>::empty() =~= out.deep_view());
    }
    out
}

/// Whether `c` is white space.
pub fn is_white(c: char) -> (result: bool)
    ensures
        result == is_space(c),
{
    let n = c as u32;
    (0x09 <= n && n <= 0x0d) || n == 0x20 || n == 0x85 || n == 0xa0 || n == 0x1680 || (0x2000 <= n
        && n <= 0x200a) || n == 0x2028 || n == 0x2029 || n == 0x202f || n == 0x205f || n == 0x3000
}

/// The part of `chars` that is left when the flagged characters at both ends go.
fn keep_middle(chars: &Vec<char>, flags: &Vec<bool>, Ghost(drop): Ghost<spec_fn(char) -> bool>) -> (result: String)
    requires
        flags.len() == chars.len(),
        forall|i: int| 0 <= i < chars.len() ==> #[trigger] flags@[i] == drop(chars@[i]),
    ensures
        result@ == drop_ends(chars@, drop),
{
    let mut from: usize = 0;
    while from < chars.len() && flags[from]
        invariant
            from <= chars.len(),
            flags.len() == chars.len(),
            forall|i: int| 0 <= i < chars.len() ==> #[trigger] flags@[i] == drop(chars@[i]),
            forall|i: int| 0 <= i < from ==> drop(#[trigger] chars@[i]),
        decreases chars.len() - from,
    {
        assert(flags@[from as int] == drop(chars@[from as int]));
        from += 1;
    }
    let mut to: usize = chars.len();
    while to > from && flags[to - 1]
        invariant
            from <= to <= chars.len(),
            flags.len() == chars.len(),
            forall|i: int| 0 <= i < chars.len() ==> #[trigger] flags@[i] == drop(chars@[i]),
            forall|i: int| to <= i < chars.len() ==> drop(#[trigger] chars@[i]),
            from < chars.len() ==> !drop(chars@[from as int]),
        decreases to,
    {
        assert(flags@[to - 1] == drop(chars@[to - 1]));
        to -= 1;
    }
    proof {
        if from < chars.len() {
            assert(flags@[from as int] == drop(chars@[from as int]));
            assert(flags@[to - 1] == drop(chars@[to - 1]));
        }
        lemma_drop_ends(chars@, drop, from as int, to as int);
    }
    slice_text(chars, from, to)
}

/// `text` without leading and trailing white space.
pub fn trim(text: &str) -> (result: String)
    ensures
        result@ == trimmed(text@),
{
    let chars = chars_of(text);
    let mut flags: Vec<bool> = Vec::new();
    for i in 0..chars.len()
        invariant
            flags.len() == i,
            forall|j: int| 0 <= j < i ==> #[trigger] flags@[j] == is_space(chars@[j]),
    {
        flags.push(is_white(chars[i]));
    }
    let ghost drop = |c: char| is_space(c);
    assert(forall|j: int| 0 <= j < chars.len() ==> #[trigger] flags@[j] == drop(chars@[j]));
    keep_middle(&chars, &flags, Ghost(drop))
}

/// Whether `c` is one of `set`.
fn is_one_of(c: char, set: &Vec<char>) -> (result: bool)
    ensures
        result == set@.contains(c),
{
    let mut i: usize = 0;
    while i < set.len()
        invariant
            i <= set.len(),
            forall|j: int| 0 <= j < i ==> #[trigger] set@[j] != c,
        decreases set.len() - i,
    {
        if set[i] == c {
            return true;
        }
        i += 1;
    }
    false
}

/// `text` without the characters of `set` at either end.
pub fn trim_matches(text: &str, set: &str) -> (result: String)
    ensures
        result@ == drop_ends(text@, |c: char| set@.contains(c)),
{
    let chars = chars_of(text);
    let wanted = chars_of(set);
    let mut flags: Vec<bool> = Vec::new();
    for i in 0..chars.len()
        invariant
            flags.len() == i,
            wanted@ == set@,
            forall|j: int| 0 <= j < i ==> #[trigger] flags@[j] == set@.contains(chars@[j]),
    {
        flags.push(is_one_of(chars[i], &wanted));
    }
    let ghost drop = |c: char| set@.contains(c);
    assert(forall|j: int| 0 <= j < chars.len() ==> #[trigger] flags@[j] == drop(chars@[j]));
    keep_middle(&chars, &flags, Ghost(drop))
}

/// The words of `text`: its runs of characters that are not white space.
pub fn words(text: &str) -> (result: Vec<String>)
    ensures
        result.deep_view() == words_of(text@),
{
    let chars = chars_of(text);
    let mut out: Vec<String> = Vec::new();
    let mut from: usize = 0;
    assert(chars@.skip(0) == text@);
    assert(out.deep_view() + words_of(text@) =~= words_of(text@));
    while from < chars.len()
        invariant
            chars@ == text@,
            from <= chars.len(),
            out.deep_view() + words_of(chars@.skip(from as int)) == words_of(text@),
        decreases chars.len() - from,
    {
        let ghost before = out.deep_view();
        let ghost rest = chars@.skip(from as int);
        if is_white(chars[from]) {
            from += 1;
            assert(rest.drop_first() == chars@.skip(from as int));
        } else {
            let mut to: usize = from;
            while to < chars.len() && !is_white(chars[to])
                invariant
                    from <= to <= chars.len(),
                    forall|i: int| from <= i < to ==> !is_space(#[trigger] chars@[i]),
                decreases chars.len() - to,
            {
                to += 1;
            }
            let word = slice_text(&chars, from, to);
            proof {
                assert forall|i: int| 0 <= i < to - from implies !is_space(#[trigger] rest[i]) by {
                    assert(rest[i] == chars@[i + from]);
                }
                lemma_word_length(rest, to - from);
                assert(!is_space(rest[0]));
                assert(word@ == rest.take(to - from));
                assert(rest.skip(to - from) == chars@.skip(to as int));
                assert(words_of(rest) == seq![word@] + words_of(chars@.skip(to as int)));
            }
            out.push(word);
            from = to;
            proof {
                assert(out.deep_view() =~= before.push(word@));
                assert(out.deep_view() + words_of(chars@.skip(from as int)) =~= before + (seq![
                    word@,
                ] + words_of(chars@.skip(from as int))));
            }
        }
    }
    proof {
        assert(chars@.skip(from as int) == Seq::<char>::empty());
        assert(out.deep_view() + Seq::<Seq<char>>::empty() =~= out.deep_view());
    }
    out
}

/// `text` with its ASCII capital letters made small.
pub fn lower(text: &str) -> (result: String)
    ensures
        result@ == lowered(text@),
{
    let chars = chars_of(text);
    let mut out = String::new();
    for i in 0..chars.len()
        invariant
            out@ == lowered(chars@.take(i as int)),
    {
        let c = chars[i];
        let small = if 'A' <= c && c <= 'Z' {
            ((c as u8) + 32) as char
        } else {
            c
        };
        out.push(small);
        proof {
            assert(small == lower_char(c));
            assert(lowered(chars@.take(i + 1)) =~= lowered(chars@.take(i as int)).push(small));
        }
    }
    assert(chars@.take(chars.len() as int) == chars@);
    out
}

/// The parts in order, with `separator` between neighbours.
pub fn join(parts: &[String], separator: &str) -> (result: String)
    ensures
        result@ == joined(parts.deep_view(), separator@),
{
    let mut out = String::new();
    for i in 0..parts.len()
        invariant
            out@ == joined(parts.deep_view().take(i as int), separator@),
    {
        let ghost done = parts.deep_view().take(i as int);
        if i > 0 {
            out.append(separator);
        }
        out.append(parts[i].as_str());
        proof {
            assert(parts.deep_view().take(i + 1) =~= done.push(parts@[i as int]@));
            if i > 0 {
                lemma_joined_push(done, parts@[i as int]@, separator@);
            } else {
                assert(out@ =~= parts@[0]@);
            }
        }
    }
    assert(parts.deep_view().take(parts.len() as int) =~= parts.deep_view());
    out
}

/// Bytes that `text` takes.
pub fn byte_count(text: &str) -> (result: usize)
    ensures
        result == byte_length(text@),
{
    text.as_bytes().len()
}

/// Bytes that the UTF-8 encoding of `c` takes.
pub fn width_of(c: char) -> (result: usize)
    ensures
        result == char_width(c),
{
    let n = c as u32;
    if n <= 0x7f {
        1
    } else if n <= 0x7ff {
        2
    } else if n <= 0xffff {
        3
    } else {
        4
    }
}

/// The decimal numeral of `n`.
pub fn to_decimal(n: u64) -> (result: String)
    ensures
        result@ == decimal(n as nat),
    decreases n,
{
    let last = ((48 + n % 10) as u8) as char;
    if n < 10 {
        let mut out = String::new();
        out.push(last);
        assert(out@ =~= seq![digit(n as nat)]);
        out
    } else {
        let mut out = to_decimal(n / 10);
        out.push(last);
        out
    }
}

/// The decimal numeral of a signed number.
pub fn to_signed_decimal(n: i32) -> (result: String)
    ensures
        result@ == signed_decimal(n as int),
{
    if n < 0 {
        let mut out = String::new();
        out.push('-');
        let magnitude = (-(n as i64)) as u64;
        let digits = to_decimal(magnitude);
        out.append(digits.as_str());
        assert(out@ =~= seq!['-'] + decimal(magnitude as nat));
        out
    } else {
        to_decimal(n as u64)
    }
}

/// A prefix of digits denotes no more than the whole.
proof fn lemma_digits_value_monotone(text: Seq<char>, i: int)
    requires
        0 <= i <= text.len(),
    ensures
        digits_value(text.take(i)) <= digits_value(text),
    decreases text.len(),
{
    if i == text.len() {
        assert(text.take(i) == text);
    } else {
        lemma_digits_value_monotone(text.drop_last(), i);
        assert(text.drop_last().take(i) == text.take(i));
    }
}

/// The `u32` that `text` denotes.
pub fn parse_u32(text: &str) -> (result: Option<u32>)
    ensures
        result == u32_value(text@),
{
    let chars = chars_of(text);
    let from: usize = if chars.len() > 0 && chars[0] == '+' {
        1
    } else {
        0
    };
    let ghost digits = chars@.skip(from as int);
    proof {
        assert(from == 0 ==> digits == chars@);
    }
    if from == chars.len() {
        return None;
    }
    let mut value: u32 = 0;
    let mut i: usize = from;
    assert(digits.take(0) == Seq::<char>::empty());
    while i < chars.len()
        invariant
            from <= i <= chars.len(),
            digits == chars@.skip(from as int),
            digits.len() > 0,
            numeral_value(text@) == (if digits.len() > 0 && all_digits(digits) {
                Some(digits_value(digits))
            } else {
                None
            }),
            all_digits(digits.take(i - from)),
            value == digits_value(digits.take(i - from)),
        decreases chars.len() - i,
    {
        let c = chars[i];
        assert(digits[i - from] == c);
        if c < '0' || c > '9' {
            assert(!all_digits(digits));
            return None;
        }
        let d: u32 = (c as u32) - 48;
        let ghost longer = digits.take(i + 1 - from);
        proof {
            assert(longer.drop_last() == digits.take(i - from));
            lemma_digits_value_monotone(digits, i + 1 - from);
            assert(digits_value(longer) == value * 10 + d);
            assert forall|j: int| 0 <= j < longer.len() implies '0' <= #[trigger] longer[j] <= '9' by {
                if j < i - from {
                    assert(longer[j] == digits.take(i - from)[j]);
                }
            }
        }
        if value > 429_496_729 || (value == 429_496_729 && d > 5) {
            return None;
        }
        value = value * 10 + d;
        i += 1;
    }
    assert(digits.take(i - from) == digits);
    Some(value)
}

/// A copy of a list of texts.
pub fn copy_list(items: &[String]) -> (result: Vec<String>)
    ensures
        result.deep_view() == items.deep_view(),
{
    let mut out: Vec<String> = Vec::new();
    for i in 0..items.len()
        invariant
            out.deep_view() == items.deep_view().take(i as int),
    {
        let ghost done = out.deep_view();
        out.push(items[i].clone());
        assert(out.deep_view() =~= done.push(items.deep_view()[i as int]));
        assert(done.push(items.deep_view()[i as int]) =~= items.deep_view().take(i + 1));
    }
    assert(items.deep_view().take(items.len() as int) =~= items.deep_view());
    out
}

/// Appends one text to a list.
pub fn add_item(items: &mut Vec<String>, item: String)
    ensures
        final(items).deep_view() == old(items).deep_view().push(item@),
{
    let ghost before = items.deep_view();
    items.push(item);
    assert(items.deep_view() =~= before.push(item@));
}

/// Appends a list of texts to another.
pub fn extend(items: &mut Vec<String>, more: Vec<String>)
    ensures
        final(items).deep_view() == old(items).deep_view() + more.deep_view(),
{
    let ghost before = items.deep_view();
    for i in 0..more.len()
        invariant
            items.deep_view() == before + more.deep_view().take(i as int),
    {
        let ghost done = items.deep_view();
        items.push(more[i].clone());
        assert(items.deep_view() =~= done.push(more.deep_view()[i as int]));
        assert(done.push(more.deep_view()[i as int]) =~= before + more.deep_view().take(i + 1));
    }
    assert(more.deep_view().take(more.len() as int) =~= more.deep_view());
}

/// Whether `item` is in a list of texts.
pub fn list_contains(items: &[String], item: &str) -> (result: bool)
    ensures
        result == items.deep_view().contains(item@),
{
    for i in 0..items.len()
        invariant
            forall|k: int| 0 <= k < i ==> #[trigger] items.deep_view()[k] != item@,
    {
        assert(items.deep_view()[i as int] == items@[i as int]@);
        if same(items[i].as_str(), item) {
            return true;
        }
    }
    assert(!items.deep_view().contains(item@));
    false
}

/// The lines of `text` without surrounding white space, blank ones left out.
pub open spec fn trimmed_lines(text: Seq<char>) -> Seq<Seq<char>> {
    lines_of(text).map_values(|line: Seq<char>| trimmed(line)).filter(
        |line: Seq<char>| line.len() > 0,
    )
}

/// The lines of `text` without surrounding white space, blank ones left out.
pub fn nonblank_lines(text: &str) -> (result: Vec<String>)
    ensures
        result.deep_view() == trimmed_lines(text@),
{
    let all = lines(text);
    let ghost cut = lines_of(text@).map_values(|line: Seq<char>| trimmed(line));
    let ghost nonblank = |line: Seq<char>| line.len() > 0;
    let mut out: Vec<String> = Vec::new();
    reveal(Seq::filter);
    assert(cut.take(0).filter(nonblank) =~= Seq::empty());
    for i in 0..all.len()
        invariant
            all.deep_view() == lines_of(text@),
            cut == lines_of(text@).map_values(|line: Seq<char>| trimmed(line)),
            nonblank == (|line: Seq<char>| line.len() > 0),
            out.deep_view() == cut.take(i as int).filter(nonblank),
    {
        reveal(Seq::filter);
        let line = trim(all[i].as_str());
        assert(all.deep_view()[i as int] == all@[i as int]@);
        assert(cut[i as int] == line@);
        assert(cut.take(i + 1).drop_last() =~= cut.take(i as int));
        assert(cut.take(i + 1).last() == line@);
        let blank = line.as_str().is_empty();
        assert(nonblank(line@) == !blank);
        if !blank {
            add_item(&mut out, line);
        }
    }
    assert(cut.take(all.len() as int) =~= cut);
    out
}

/// A part of a part is a part.
pub proof fn lemma_occurs_within(text: Seq<char>, part: Seq<char>, from: int, to: int)
    requires
        0 <= from <= to <= text.len(),
        occurs(text.subrange(from, to), part),
    ensures
        occurs(text, part),
{
    let inner = text.subrange(from, to);
    let at = choose|at: int| occurs_at(inner, part, at);
    assert(text.subrange(from + at, from + at + part.len()) =~= inner.subrange(
        at,
        at + part.len(),
    ));
    assert(occurs_at(text, part, from + at));
}

/// A text that holds a part holds each character of it.
pub proof fn lemma_occurs_char(text: Seq<char>, part: Seq<char>, i: int)
    requires
        occurs(text, part),
        0 <= i < part.len(),
    ensures
        text.contains(part[i]),
{
    let at = choose|at: int| occurs_at(text, part, at);
    assert(text.subrange(at, at + part.len())[i] == part[i]);
    assert(text[at + i] == part[i]);
}

/// A part that shares no character with what follows lies before it.
pub proof fn lemma_occurs_before(text: Seq<char>, rest: Seq<char>, part: Seq<char>)
    requires
        occurs(text + rest, part),
        part.len() > 0,
        forall|i: int, k: int|
            0 <= i < part.len() && 0 <= k < rest.len() ==> #[trigger] part[i]
                != #[trigger] rest[k],
    ensures
        occurs(text, part),
{
    let whole = text + rest;
    let at = choose|at: int| occurs_at(whole, part, at);
    let found = whole.subrange(at, at + part.len());
    if at + part.len() > text.len() {
        let i = if at >= text.len() {
            0
        } else {
            text.len() - at
        };
        assert(found[i] == part[i]);
        assert(whole[at + i] == rest[at + i - text.len()]);
    }
    assert(text.subrange(at, at + part.len()) =~= found);
    assert(occurs_at(text, part, at));
}

/// A part without the separating character lies in one of the joined texts.
pub proof fn lemma_occurs_in_joined(parts: Seq<Seq<char>>, separator: char, part: Seq<char>)
    requires
        occurs(joined(parts, seq![separator]), part),
        part.len() > 0,
        forall|i: int| 0 <= i < part.len() ==> #[trigger] part[i] != separator,
    ensures
        exists|k: int| 0 <= k < parts.len() && occurs(#[trigger] parts[k], part),
    decreases parts.len(),
{
    let whole = joined(parts, seq![separator]);
    let at = choose|at: int| occurs_at(whole, part, at);
    if parts.len() == 0 {
        assert(whole.len() == 0);
    } else if parts.len() == 1 {
        assert(occurs(parts[0], part));
    } else {
        let head = joined(parts.drop_last(), seq![separator]);
        let last = parts.last();
        assert(whole == head + seq![separator] + last);
        let found = whole.subrange(at, at + part.len());
        if at <= head.len() < at + part.len() {
            assert(found[head.len() - at] == part[head.len() - at]);
            assert(whole[head.len() as int] == separator);
        }
        if at + part.len() <= head.len() {
            assert(head.subrange(at, at + part.len()) =~= found);
            assert(occurs_at(head, part, at));
            lemma_occurs_in_joined(parts.drop_last(), separator, part);
            let k = choose|k: int|
                0 <= k < parts.drop_last().len() && occurs(
                    #[trigger] parts.drop_last()[k],
                    part,
                );
            assert(parts[k] == parts.drop_last()[k]);
        } else {
            let from = at - head.len() - 1;
            assert(last.subrange(from, from + part.len()) =~= found);
            assert(occurs_at(last, part, from));
            assert(parts[parts.len() - 1] == last);
        }
    }
}

/// Every word of a text lies in the text.
pub proof fn lemma_words_occur(text: Seq<char>, part: Seq<char>, k: int)
    requires
        0 <= k < words_of(text).len(),
        occurs(words_of(text)[k], part),
    ensures
        occurs(text, part),
    decreases text.len(),
{
    if text.len() > 0 {
        if is_space(text[0]) {
            lemma_words_occur(text.drop_first(), part, k);
            assert(text.drop_first() =~= text.subrange(1, text.len() as int));
            lemma_occurs_within(text, part, 1, text.len() as int);
        } else {
            let n = word_length(text) as int;
            if 0 < n <= text.len() {
                let rest = text.skip(n);
                if k == 0 {
                    assert(text.take(n) =~= text.subrange(0, n));
                    lemma_occurs_within(text, part, 0, n);
                } else {
                    assert(words_of(rest)[k - 1] == words_of(text)[k]);
                    lemma_words_occur(rest, part, k - 1);
                    assert(rest =~= text.subrange(n, text.len() as int));
                    lemma_occurs_within(text, part, n, text.len() as int);
                }
            }
        }
    }
}

/// A path with one more relative component.
pub open spec fn path_with(base: Seq<char>, name: Seq<char>) -> Seq<char> {
    if base.len() == 0 || base.last() == '/' {
        base + name
    } else {
        base + "/"@ + name
    }
}

/// A path with one more relative component.
pub fn join_path(base: &str, name: &str) -> (result: String)
    ensures
        result@ == path_with(base@, name@),
{
    if base.is_empty() {
        return base.to_owned().concat(name);
    }
    let chars = chars_of(base);
    if chars[chars.len() - 1] == '/' {
        base.to_owned().concat(name)
    } else {
        base.to_owned().concat("/").concat(name)
    }
}

} // verus!
