//! Diagnostics of failed realizations: classification and redaction.

use vstd::prelude::*;

use crate::error::{
    Error, ErrorView, MissingPrerequisite, PrerequisiteView, RealizationFailureKind,
    MAX_REALIZATION_DIAGNOSTIC_BYTES,
};
use crate::policy::{PolicyView, RealizationPolicy};
use crate::text;
use crate::text::{joined, lowered, occurs, words_of};

verus! {

// ---------------------------------------------------------------------------
// Redaction
// ---------------------------------------------------------------------------

/// Words that mark a line as sensitive.
pub open spec fn markers() -> Seq<Seq<char>> {
    seq![
        "authorization"@,
        "bearer "@,
        "cookie"@,
        "credential"@,
        "password"@,
        "secret"@,
        "token"@,
        "api_key"@,
        "private_key"@,
    ]
}

/// The line may hold something that must not be shown.
pub open spec fn is_sensitive(line: Seq<char>) -> bool {
    exists|i: int| 0 <= i < markers().len() && occurs(lowered(line), #[trigger] markers()[i])
}

/// A word without the punctuation around it.
pub open spec fn bare_word(word: Seq<char>) -> Seq<char> {
    text::drop_ends(word, |c: char| "'\"()[]{}<>,;:"@.contains(c))
}

/// The word is a path outside the Nix store.
pub open spec fn is_private_path(word: Seq<char>) -> bool {
    "/"@.is_prefix_of(bare_word(word)) && !"/nix/store/"@.is_prefix_of(bare_word(word))
}

/// How a word is shown.
pub open spec fn shown_word(word: Seq<char>) -> Seq<char> {
    if occurs(lowered(word), "ssh-ng://"@) {
        "<builder>"@
    } else if occurs(lowered(word), "://"@) {
        "<endpoint>"@
    } else if is_private_path(word) {
        "<path>"@
    } else {
        word
    }
}

/// How the words of a line are shown.
pub open spec fn shown_words(line: Seq<char>) -> Seq<Seq<char>> {
    words_of(line).map_values(|word: Seq<char>| shown_word(word))
}

/// How a line is shown.
pub open spec fn shown_line(line: Seq<char>) -> Seq<char> {
    joined(shown_words(line), " "@)
}

/// The lines that are shown: neither sensitive nor empty.
pub open spec fn shown_lines(lines: Seq<Seq<char>>) -> Seq<Seq<char>>
    decreases lines.len(),
{
    if lines.len() == 0 {
        Seq::empty()
    } else {
        let earlier = shown_lines(lines.drop_last());
        if is_sensitive(lines.last()) || shown_line(lines.last()).len() == 0 {
            earlier
        } else {
            earlier.push(shown_line(lines.last()))
        }
    }
}

/// As much of the beginning of a text as `limit` bytes hold.
pub open spec fn beginning(value: Seq<char>, limit: int) -> Seq<char>
    decreases value.len(),
{
    if value.len() == 0 || text::byte_length(value) <= limit {
        value
    } else {
        beginning(value.drop_last(), limit)
    }
}

/// A text cut to the size of a diagnostic.
pub open spec fn truncated(value: Seq<char>) -> Seq<char> {
    if text::byte_length(value) <= MAX_REALIZATION_DIAGNOSTIC_BYTES {
        value
    } else {
        beginning(value, MAX_REALIZATION_DIAGNOSTIC_BYTES - 3) + "..."@
    }
}

/// What is left of a diagnostic before it is cut to size.
pub open spec fn safe_text(value: Seq<char>) -> Seq<char> {
    let safe = joined(shown_lines(text::lines_of(value)), "\n"@);
    if safe.len() == 0 {
        "<no safe diagnostic>"@
    } else {
        safe
    }
}

/// The redacted diagnostic.
pub open spec fn redacted(value: Seq<char>) -> Seq<char> {
    truncated(safe_text(value))
}

fn marked_sensitive(line: &str) -> (result: bool)
    ensures
        result == is_sensitive(line@),
{
    let lower = text::lower(line);
    let lower = lower.as_str();
    let found = [
        text::contains(lower, "authorization"),
        text::contains(lower, "bearer "),
        text::contains(lower, "cookie"),
        text::contains(lower, "credential"),
        text::contains(lower, "password"),
        text::contains(lower, "secret"),
        text::contains(lower, "token"),
        text::contains(lower, "api_key"),
        text::contains(lower, "private_key"),
    ];
    proof {
        let list = markers();
        assert(list.len() == 9);
        assert(list[0] == "authorization"@ && list[1] == "bearer "@ && list[2] == "cookie"@);
        assert(list[3] == "credential"@ && list[4] == "password"@ && list[5] == "secret"@);
        assert(list[6] == "token"@ && list[7] == "api_key"@ && list[8] == "private_key"@);
    }
    found[0] || found[1] || found[2] || found[3] || found[4] || found[5] || found[6] || found[7]
        || found[8]
}

fn show_word(word: &str) -> (result: String)
    ensures
        result@ == shown_word(word@),
{
    let lower = text::lower(word);
    let path = text::trim_matches(word, "'\"()[]{}<>,;:");
    if text::contains(lower.as_str(), "ssh-ng://") {
        "<builder>".to_owned()
    } else if text::contains(lower.as_str(), "://") {
        "<endpoint>".to_owned()
    } else if text::starts_with(path.as_str(), "/") && !text::starts_with(
        path.as_str(),
        "/nix/store/",
    ) {
        "<path>".to_owned()
    } else {
        word.to_owned()
    }
}

fn show_line(line: &str) -> (result: String)
    ensures
        result@ == shown_line(line@),
{
    let words = text::words(line);
    let ghost all = shown_words(line@);
    let mut shown: Vec<String> = Vec::new();
    for i in 0..words.len()
        invariant
            words.deep_view() == words_of(line@),
            all == shown_words(line@),
            shown.deep_view() == all.take(i as int),
    {
        text::add_item(&mut shown, show_word(words[i].as_str()));
        assert(words.deep_view()[i as int] == words@[i as int]@);
        assert(shown.deep_view() =~= all.take(i + 1));
    }
    assert(all.take(words.len() as int) =~= all);
    text::join(shown.as_slice(), " ")
}

/// Removes what must not be shown from an identifier.
pub fn redact_identifier(value: &str) -> (result: String)
    ensures
        result@ == redacted(value@),
{
    redact_diagnostic(value)
}

/// Removes what must not be shown from a diagnostic, and bounds it.
///
/// Lines that may hold credentials are dropped; builders, endpoints and paths
/// outside the Nix store are replaced.
pub fn redact_diagnostic(value: &str) -> (result: String)
    ensures
        result@ == redacted(value@),
{
    let lines = text::lines(value);
    let ghost all = text::lines_of(value@);
    let mut shown: Vec<String> = Vec::new();
    assert(all.take(0) =~= Seq::empty());
    for i in 0..lines.len()
        invariant
            all == text::lines_of(value@),
            lines.deep_view() == all,
            shown.deep_view() == shown_lines(all.take(i as int)),
    {
        assert(all[i as int] == lines@[i as int]@);
        assert(all.take(i + 1).drop_last() =~= all.take(i as int));
        assert(all.take(i + 1).last() == all[i as int]);
        if !marked_sensitive(lines[i].as_str()) {
            let line = show_line(lines[i].as_str());
            if !line.as_str().is_empty() {
                text::add_item(&mut shown, line);
            }
        }
    }
    assert(all.take(lines.len() as int) =~= all);
    let safe = text::join(shown.as_slice(), "\n");
    if safe.as_str().is_empty() {
        truncate_diagnostic("<no safe diagnostic>")
    } else {
        truncate_diagnostic(safe.as_str())
    }
}

proof fn lemma_byte_length_monotone(value: Seq<char>, shorter: int, longer: int)
    requires
        0 <= shorter <= longer <= value.len(),
    ensures
        text::byte_length(value.take(shorter)) <= text::byte_length(value.take(longer)),
{
    let rest = value.subrange(shorter, longer);
    assert(value.take(longer) =~= value.take(shorter) + rest);
    text::lemma_byte_length_add(value.take(shorter), rest);
}

proof fn lemma_beginning_is(value: Seq<char>, limit: int, at: int)
    requires
        0 <= at < value.len(),
        text::byte_length(value.take(at)) <= limit,
        text::byte_length(value.take(at + 1)) > limit,
    ensures
        beginning(value, limit) == value.take(at),
    decreases value.len(),
{
    let n = value.len() as int;
    lemma_byte_length_monotone(value, at + 1, n);
    assert(value.take(n) =~= value);
    let rest = value.drop_last();
    assert(rest =~= value.take(n - 1));
    assert(rest.take(at) =~= value.take(at));
    if at == n - 1 {
        assert(value.take(at) =~= rest);
        assert(beginning(rest, limit) == rest);
    } else {
        assert(rest.take(at + 1) =~= value.take(at + 1));
        lemma_beginning_is(rest, limit, at);
    }
}

/// Cuts a text to the size of a diagnostic.
pub fn truncate_diagnostic(value: &str) -> (result: String)
    ensures
        result@ == truncated(value@),
{
    if text::byte_count(value) <= MAX_REALIZATION_DIAGNOSTIC_BYTES {
        return value.to_owned();
    }
    let limit: usize = MAX_REALIZATION_DIAGNOSTIC_BYTES - 3;
    let chars = text::chars_of(value);
    let mut used: usize = 0;
    let mut at: usize = 0;
    proof {
        assert(value@.take(0) =~= Seq::empty());
        assert(text::byte_length(Seq::empty()) == 0) by {
            reveal_with_fuel(vstd::utf8::encode_utf8, 1);
        }
        assert(value@.take(value@.len() as int) =~= value@);
    }
    loop
        invariant
            chars@ == value@,
            at < chars.len(),
            limit == MAX_REALIZATION_DIAGNOSTIC_BYTES - 3,
            used == text::byte_length(value@.take(at as int)),
            used <= limit,
            text::byte_length(value@) > MAX_REALIZATION_DIAGNOSTIC_BYTES,
        ensures
            text::byte_length(value@.take(at + 1)) > limit,
        decreases chars.len() - at,
    {
        proof {
            assert(value@.take(at + 1) =~= value@.take(at as int).push(value@[at as int]));
            text::lemma_byte_length_push(value@.take(at as int), value@[at as int]);
        }
        let width = text::width_of(chars[at]);
        if used + width > limit {
            break;
        }
        used = used + width;
        at = at + 1;
        proof {
            if at == chars.len() {
                assert(value@.take(at as int) =~= value@);
            }
        }
    }
    proof {
        lemma_beginning_is(value@, limit as int, at as int);
        assert(value@.take(at as int) =~= chars@.subrange(0, at as int));
    }
    text::slice_text(&chars, 0, at).concat("...")
}

// ---------------------------------------------------------------------------
// Laws of redaction
// ---------------------------------------------------------------------------

proof fn lemma_beginning(value: Seq<char>, limit: int)
    requires
        limit >= 0,
    ensures
        exists|k: int| 0 <= k <= value.len() && beginning(value, limit) == #[trigger] value.take(k),
        text::byte_length(beginning(value, limit)) <= limit,
    decreases value.len(),
{
    if value.len() == 0 || text::byte_length(value) <= limit {
        assert(value.take(value.len() as int) =~= value);
        if value.len() == 0 {
            assert(value =~= Seq::empty());
            reveal_with_fuel(vstd::utf8::encode_utf8, 1);
        }
    } else {
        lemma_beginning(value.drop_last(), limit);
        let k = choose|k: int|
            0 <= k <= value.drop_last().len() && beginning(value.drop_last(), limit)
                == #[trigger] value.drop_last().take(k);
        assert(value.drop_last().take(k) =~= value.take(k));
    }
}

/// A redacted diagnostic never exceeds the bound.
pub proof fn law_redaction_is_bounded(value: Seq<char>)
    ensures
        text::byte_length(redacted(value)) <= MAX_REALIZATION_DIAGNOSTIC_BYTES,
{
    let safe = safe_text(value);
    if text::byte_length(safe) > MAX_REALIZATION_DIAGNOSTIC_BYTES {
        let head = beginning(safe, MAX_REALIZATION_DIAGNOSTIC_BYTES - 3);
        lemma_beginning(safe, MAX_REALIZATION_DIAGNOSTIC_BYTES - 3);
        text::lemma_byte_length_add(head, "..."@);
        lemma_dots();
    }
}

proof fn lemma_dots()
    ensures
        text::byte_length("..."@) == 3,
        "..."@.len() == 3,
        forall|k: int| 0 <= k < "..."@.len() ==> #[trigger] "..."@[k] == '.',
{
    reveal_strlit("...");
    let dots = "..."@;
    assert(dots =~= Seq::empty().push('.').push('.').push('.'));
    assert(text::byte_length(Seq::empty()) == 0) by {
        reveal_with_fuel(vstd::utf8::encode_utf8, 1);
    }
    text::lemma_byte_length_push(Seq::empty(), '.');
    text::lemma_byte_length_push(Seq::empty().push('.'), '.');
    text::lemma_byte_length_push(Seq::empty().push('.').push('.'), '.');
}

/// A redacted diagnostic always says something.
pub proof fn law_redaction_is_not_empty(value: Seq<char>)
    ensures
        redacted(value).len() > 0,
{
    lemma_dots();
    reveal_strlit("<no safe diagnostic>");
    assert("<no safe diagnostic>"@.len() == 20);
}

/// A part of a redacted diagnostic, free of what joins its words and lines and
/// of what ends it, is a part of one of the shown words.
proof fn lemma_redacted_part(value: Seq<char>, part: Seq<char>) -> (found: (int, int))
    requires
        occurs(redacted(value), part),
        part.len() > 0,
        forall|i: int|
            0 <= i < part.len() ==> #[trigger] part[i] != ' ' && part[i] != '\n' && part[i] != '.',
        !occurs("<no safe diagnostic>"@, part),
    ensures
        0 <= found.0 < text::lines_of(value).len(),
        !is_sensitive(text::lines_of(value)[found.0]),
        0 <= found.1 < words_of(text::lines_of(value)[found.0]).len(),
        occurs(shown_word(words_of(text::lines_of(value)[found.0])[found.1]), part),
{
    reveal_strlit(" ");
    reveal_strlit("\n");
    let safe = safe_text(value);
    let lines = text::lines_of(value);
    assert(occurs(safe, part)) by {
        if text::byte_length(safe) > MAX_REALIZATION_DIAGNOSTIC_BYTES {
            let head = beginning(safe, MAX_REALIZATION_DIAGNOSTIC_BYTES - 3);
            lemma_dots();
            assert forall|i: int, k: int|
                0 <= i < part.len() && 0 <= k < "..."@.len() implies #[trigger] part[i]
                != #[trigger] "..."@[k] by {}
            text::lemma_occurs_before(head, "..."@, part);
            lemma_beginning(safe, MAX_REALIZATION_DIAGNOSTIC_BYTES - 3);
            let k = choose|k: int| 0 <= k <= safe.len() && head == #[trigger] safe.take(k);
            assert(safe.take(k) =~= safe.subrange(0, k));
            text::lemma_occurs_within(safe, part, 0, k);
        }
    }
    let all = shown_lines(lines);
    assert("\n"@ =~= seq!['\n']);
    assert(" "@ =~= seq![' ']);
    assert(safe == joined(all, seq!['\n']));
    text::lemma_occurs_in_joined(all, '\n', part);
    let k = choose|k: int| 0 <= k < all.len() && occurs(#[trigger] all[k], part);
    let at = lemma_shown_lines(lines, k);
    let words = shown_words(lines[at]);
    assert(all[k] == joined(words, seq![' ']));
    text::lemma_occurs_in_joined(words, ' ', part);
    let j = choose|j: int| 0 <= j < words.len() && occurs(#[trigger] words[j], part);
    assert(words[j] == shown_word(words_of(lines[at])[j]));
    (at, j)
}

proof fn lemma_shown_lines(lines: Seq<Seq<char>>, k: int) -> (at: int)
    requires
        0 <= k < shown_lines(lines).len(),
    ensures
        0 <= at < lines.len(),
        !is_sensitive(lines[at]),
        shown_lines(lines)[k] == shown_line(lines[at]),
    decreases lines.len(),
{
    let rest = lines.drop_last();
    if k < shown_lines(rest).len() {
        let at = lemma_shown_lines(rest, k);
        assert(rest[at] == lines[at]);
        at
    } else {
        lines.len() - 1
    }
}

/// The replacements hold no character that only an address has.
proof fn lemma_replacements_without(c: char)
    requires
        c == ':' || c == '/',
    ensures
        !"<builder>"@.contains(c),
        !"<endpoint>"@.contains(c),
        !"<path>"@.contains(c),
        !"<no safe diagnostic>"@.contains(c),
{
    reveal_strlit("<builder>");
    assert("<builder>"@ =~= seq!['<', 'b', 'u', 'i', 'l', 'd', 'e', 'r', '>']);
    reveal_strlit("<endpoint>");
    assert("<endpoint>"@ =~= seq!['<', 'e', 'n', 'd', 'p', 'o', 'i', 'n', 't', '>']);
    reveal_strlit("<path>");
    assert("<path>"@ =~= seq!['<', 'p', 'a', 't', 'h', '>']);
    reveal_strlit("<no safe diagnostic>");
    assert("<no safe diagnostic>"@ =~= seq![
        '<', 'n', 'o', ' ', 's', 'a', 'f', 'e', ' ', 'd', 'i', 'a', 'g', 'n', 'o', 's', 't', 'i', 'c',
        '>',
    ]);
}

/// A redacted diagnostic holds no address: no URL of a builder, of a cache or
/// of anything else.
pub proof fn law_redaction_hides_addresses(value: Seq<char>)
    ensures
        !occurs(redacted(value), "://"@),
{
    reveal_strlit("://");
    let part = "://"@;
    assert(part =~= seq![':', '/', '/']);
    lemma_replacements_without(':');
    assert(part[0] == ':');
    if occurs(redacted(value), part) {
        if occurs("<no safe diagnostic>"@, part) {
            text::lemma_occurs_char("<no safe diagnostic>"@, part, 0);
        }
        let (at, j) = lemma_redacted_part(value, part);
        let word = words_of(text::lines_of(value)[at])[j];
        if occurs("<builder>"@, part) {
            text::lemma_occurs_char("<builder>"@, part, 0);
        }
        if occurs("<endpoint>"@, part) {
            text::lemma_occurs_char("<endpoint>"@, part, 0);
        }
        if occurs("<path>"@, part) {
            text::lemma_occurs_char("<path>"@, part, 0);
        }
        assert(shown_word(word) == word);
        lemma_occurs_lowered(word, part);
        assert(lowered(part) =~= part);
    }
}

proof fn lemma_occurs_lowered(value: Seq<char>, part: Seq<char>)
    requires
        occurs(value, part),
    ensures
        occurs(lowered(value), lowered(part)),
{
    let at = choose|at: int| text::occurs_at(value, part, at);
    assert(lowered(value).subrange(at, at + part.len()) =~= lowered(
        value.subrange(at, at + part.len()),
    ));
    assert(text::occurs_at(lowered(value), lowered(part), at));
}

/// A word that is a private path holds a slash.
proof fn lemma_private_path_has_slash(word: Seq<char>)
    requires
        is_private_path(word),
    ensures
        word.contains('/'),
{
    reveal_strlit("/");
    let bare = bare_word(word);
    assert("/"@ =~= seq!['/']);
    assert(bare[0] == "/"@[0]);
    assert(bare.contains('/'));
    text::lemma_drop_ends_keeps(word, |c: char| "'\"()[]{}<>,;:"@.contains(c), '/');
}

/// What is shown of a word is one word again, and no private path.
proof fn lemma_shown_word(word: Seq<char>)
    requires
        word.len() > 0,
        forall|i: int| 0 <= i < word.len() ==> !text::is_space(#[trigger] word[i]),
    ensures
        words_of(shown_word(word)) == seq![shown_word(word)],
        !is_private_path(shown_word(word)),
{
    reveal_strlit("<builder>");
    reveal_strlit("<endpoint>");
    reveal_strlit("<path>");
    let shown = shown_word(word);
    assert(shown.len() > 0);
    assert forall|i: int| 0 <= i < shown.len() implies !text::is_space(#[trigger] shown[i]) by {}
    text::lemma_one_word(shown);
    lemma_replacements_without('/');
    if is_private_path(shown) {
        lemma_private_path_has_slash(shown);
    }
}

/// No word of what is left before the cut is a private path.
proof fn lemma_safe_text_hides_paths(value: Seq<char>, k: int)
    requires
        0 <= k < words_of(safe_text(value)).len(),
    ensures
        !is_private_path(words_of(safe_text(value))[k]),
{
    let safe = safe_text(value);
    let lines = text::lines_of(value);
    let all = shown_lines(lines);
    let word = words_of(safe)[k];
    reveal_strlit(" ");
    reveal_strlit("\n");
    assert(" "@ =~= seq![' ']);
    assert("\n"@ =~= seq!['\n']);
    if joined(all, "\n"@).len() == 0 {
        if is_private_path(word) {
            lemma_private_path_has_slash(word);
            let i = word.index_of('/');
            assert(text::occurs_at(word, seq!['/'], i)) by {
                assert(word.subrange(i, i + 1) =~= seq!['/']);
            }
            text::lemma_words_occur(safe, seq!['/'], k);
            text::lemma_occurs_char(safe, seq!['/'], 0);
            lemma_replacements_without('/');
        }
    } else {
        let at = text::lemma_words_of_joined(all, '\n', k);
        let i = words_of(all[at]).index_of(word);
        let from = lemma_shown_lines(lines, at);
        let line = lines[from];
        assert(all[at] == joined(shown_words(line), seq![' ']));
        let j = text::lemma_words_of_joined(shown_words(line), ' ', i);
        text::lemma_words_are_solid(line, j);
        lemma_shown_word(words_of(line)[j]);
        assert(shown_words(line)[j] == shown_word(words_of(line)[j]));
        assert(words_of(shown_words(line)[j]) == seq![shown_words(line)[j]]);
        assert(word == shown_words(line)[j]);
    }
}

/// No word of a redacted diagnostic is a path outside the Nix store.
///
/// Where the diagnostic was cut, its last word is left out: the cut may have
/// gone through a store path.
pub proof fn law_redaction_hides_paths(value: Seq<char>, k: int)
    requires
        0 <= k < words_of(redacted(value)).len(),
        redacted(value) == safe_text(value) || k < words_of(redacted(value)).len() - 1,
    ensures
        !is_private_path(words_of(redacted(value))[k]),
{
    let safe = safe_text(value);
    if redacted(value) != safe {
        let head = beginning(safe, MAX_REALIZATION_DIAGNOSTIC_BYTES - 3);
        lemma_beginning(safe, MAX_REALIZATION_DIAGNOSTIC_BYTES - 3);
        let n = choose|n: int| 0 <= n <= safe.len() && head == #[trigger] safe.take(n);
        lemma_dots();
        assert(safe =~= head + safe.skip(n));
        text::lemma_words_of_cut(head, "..."@, safe.skip(n), k);
    }
    lemma_safe_text_hides_paths(value, k);
}

/// The markers that are one word.
pub open spec fn word_markers() -> Seq<Seq<char>> {
    seq![
        "authorization"@,
        "cookie"@,
        "credential"@,
        "password"@,
        "secret"@,
        "token"@,
        "api_key"@,
        "private_key"@,
    ]
}

/// A marker that is one word: what it is made of, and that no replacement
/// holds it.
proof fn lemma_word_marker(marker: Seq<char>)
    requires
        word_markers().contains(marker),
    ensures
        markers().contains(marker),
        marker.len() > 0,
        lowered(marker) == marker,
        forall|i: int|
            0 <= i < marker.len() ==> #[trigger] marker[i] != ' ' && marker[i] != '\n' && marker[i]
                != '.',
        !occurs(lowered("<builder>"@), marker),
        !occurs(lowered("<endpoint>"@), marker),
        !occurs(lowered("<path>"@), marker),
        !occurs(lowered("<no safe diagnostic>"@), marker),
{
    reveal_strlit("authorization");
    reveal_strlit("cookie");
    reveal_strlit("credential");
    reveal_strlit("password");
    reveal_strlit("secret");
    reveal_strlit("token");
    reveal_strlit("api_key");
    reveal_strlit("private_key");
    reveal_strlit("<builder>");
    reveal_strlit("<endpoint>");
    reveal_strlit("<path>");
    reveal_strlit("<no safe diagnostic>");
    assert(lowered("<builder>"@) =~= seq!['<', 'b', 'u', 'i', 'l', 'd', 'e', 'r', '>']);
    assert(lowered("<endpoint>"@) =~= seq!['<', 'e', 'n', 'd', 'p', 'o', 'i', 'n', 't', '>']);
    assert(lowered("<path>"@) =~= seq!['<', 'p', 'a', 't', 'h', '>']);
    assert(lowered("<no safe diagnostic>"@) =~= seq![
        '<', 'n', 'o', ' ', 's', 'a', 'f', 'e', ' ', 'd', 'i', 'a', 'g', 'n', 'o', 's', 't', 'i', 'c',
        '>',
    ]);
    let k = word_markers().index_of(marker);
    assert(word_markers()[k] == marker);
    let all = markers();
    assert(all[0] == "authorization"@);
    assert(all[2] == "cookie"@);
    assert(all[3] == "credential"@);
    assert(all[4] == "password"@);
    assert(all[5] == "secret"@);
    assert(all[6] == "token"@);
    assert(all[7] == "api_key"@);
    assert(all[8] == "private_key"@);
    if k == 0 {
        assert(marker =~= seq!['a', 'u', 't', 'h', 'o', 'r', 'i', 'z', 'a', 't', 'i', 'o', 'n']);
        assert(lowered(marker) =~= marker);
        lemma_lacks(lowered("<builder>"@), marker, 0);
        lemma_lacks(lowered("<endpoint>"@), marker, 0);
        lemma_lacks(lowered("<path>"@), marker, 1);
        lemma_lacks(lowered("<no safe diagnostic>"@), marker, 1);
    } else if k == 1 {
        assert(marker =~= seq!['c', 'o', 'o', 'k', 'i', 'e']);
        assert(lowered(marker) =~= marker);
        lemma_lacks(lowered("<builder>"@), marker, 0);
        lemma_lacks(lowered("<endpoint>"@), marker, 0);
        lemma_lacks(lowered("<path>"@), marker, 0);
        lemma_lacks(lowered("<no safe diagnostic>"@), marker, 3);
    } else if k == 2 {
        assert(marker =~= seq!['c', 'r', 'e', 'd', 'e', 'n', 't', 'i', 'a', 'l']);
        assert(lowered(marker) =~= marker);
        lemma_lacks(lowered("<builder>"@), marker, 0);
        lemma_lacks(lowered("<endpoint>"@), marker, 0);
        lemma_lacks(lowered("<path>"@), marker, 0);
        lemma_lacks(lowered("<no safe diagnostic>"@), marker, 1);
    } else if k == 3 {
        assert(marker =~= seq!['p', 'a', 's', 's', 'w', 'o', 'r', 'd']);
        assert(lowered(marker) =~= marker);
        lemma_lacks(lowered("<builder>"@), marker, 0);
        lemma_lacks(lowered("<endpoint>"@), marker, 1);
        lemma_lacks(lowered("<path>"@), marker, 2);
        lemma_lacks(lowered("<no safe diagnostic>"@), marker, 0);
    } else if k == 4 {
        assert(marker =~= seq!['s', 'e', 'c', 'r', 'e', 't']);
        assert(lowered(marker) =~= marker);
        lemma_lacks(lowered("<builder>"@), marker, 0);
        lemma_lacks(lowered("<endpoint>"@), marker, 0);
        lemma_lacks(lowered("<path>"@), marker, 0);
        lemma_lacks(lowered("<no safe diagnostic>"@), marker, 3);
    } else if k == 5 {
        assert(marker =~= seq!['t', 'o', 'k', 'e', 'n']);
        assert(lowered(marker) =~= marker);
        lemma_lacks(lowered("<builder>"@), marker, 0);
        lemma_lacks(lowered("<endpoint>"@), marker, 2);
        lemma_lacks(lowered("<path>"@), marker, 1);
        lemma_lacks(lowered("<no safe diagnostic>"@), marker, 2);
    } else if k == 6 {
        assert(marker =~= seq!['a', 'p', 'i', '_', 'k', 'e', 'y']);
        assert(lowered(marker) =~= marker);
        lemma_lacks(lowered("<builder>"@), marker, 0);
        lemma_lacks(lowered("<endpoint>"@), marker, 0);
        lemma_lacks(lowered("<path>"@), marker, 2);
        lemma_lacks(lowered("<no safe diagnostic>"@), marker, 1);
    } else if k == 7 {
        assert(marker =~= seq!['p', 'r', 'i', 'v', 'a', 't', 'e', '_', 'k', 'e', 'y']);
        assert(lowered(marker) =~= marker);
        lemma_lacks(lowered("<builder>"@), marker, 0);
        lemma_lacks(lowered("<endpoint>"@), marker, 1);
        lemma_lacks(lowered("<path>"@), marker, 1);
        lemma_lacks(lowered("<no safe diagnostic>"@), marker, 0);
    }
}

proof fn lemma_lacks(value: Seq<char>, part: Seq<char>, i: int)
    requires
        0 <= i < part.len(),
        !value.contains(part[i]),
    ensures
        !occurs(value, part),
{
    if occurs(value, part) {
        text::lemma_occurs_char(value, part, i);
    }
}

/// A redacted diagnostic holds none of the words that mark a line as
/// sensitive, in whatever case they were written.
///
/// The marker of two words is not among them: a line in which white space
/// other than one blank stands between the two is not recognised by it.
pub proof fn law_redaction_hides_markers(value: Seq<char>, marker: Seq<char>)
    requires
        word_markers().contains(marker),
    ensures
        !occurs(lowered(redacted(value)), marker),
{
    lemma_word_marker(marker);
    if occurs(lowered(redacted(value)), marker) {
        let at = choose|at: int| text::occurs_at(lowered(redacted(value)), marker, at);
        let part = redacted(value).subrange(at, at + marker.len());
        assert(lowered(part) =~= marker) by {
            assert(lowered(part) =~= lowered(redacted(value)).subrange(at, at + marker.len()));
        }
        assert(text::occurs_at(redacted(value), part, at));
        assert forall|i: int| 0 <= i < part.len() implies #[trigger] part[i] != ' ' && part[i]
            != '\n' && part[i] != '.' by {
            assert(lowered(part)[i] == text::lower_char(part[i]));
            assert(marker[i] == text::lower_char(part[i]));
        }
        if occurs("<no safe diagnostic>"@, part) {
            lemma_occurs_lowered("<no safe diagnostic>"@, part);
        }
        let (line, j) = lemma_redacted_part(value, part);
        let lines = text::lines_of(value);
        let word = words_of(lines[line])[j];
        lemma_occurs_lowered(shown_word(word), part);
        assert(shown_word(word) == word);
        text::lemma_words_occur(lines[line], part, j);
        lemma_occurs_lowered(lines[line], part);
        let m = markers().index_of(marker);
        assert(markers()[m] == marker);
        assert(is_sensitive(lines[line]));
    }
}

// ---------------------------------------------------------------------------
// Classification
// ---------------------------------------------------------------------------

/// The class of a failure, as far as its diagnostic tells.
pub open spec fn failure_kind(stderr: Seq<char>) -> Option<RealizationFailureKind> {
    let lower = lowered(stderr);
    if occurs(lower, "platform mismatch"@) || (occurs(lower, "required"@) && occurs(
        lower,
        "but i am"@,
    )) {
        Some(RealizationFailureKind::WrongPlatform)
    } else if occurs(lower, "remote builder"@) || occurs(lower, "ssh-ng://"@) || (occurs(
        lower,
        "builder for"@,
    ) && (occurs(lower, "failed"@) || occurs(lower, "unreachable"@) || occurs(
        lower,
        "could not connect"@,
    ))) {
        Some(RealizationFailureKind::RemoteBuilder)
    } else if occurs(lower, "cache root"@) || occurs(
        lower,
        "not available from any substituter"@,
    ) || occurs(lower, "no substitute"@) || occurs(lower, "cannot substitute"@) || (occurs(
        lower,
        "substitut"@,
    ) && (occurs(lower, "failed"@) || occurs(lower, "unavailable"@))) || (occurs(
        lower,
        "required"@,
    ) && occurs(lower, "not available"@)) {
        Some(RealizationFailureKind::MissingCacheRoot)
    } else if occurs(lower, "realiz"@) || occurs(lower, "nix build"@) || occurs(
        lower,
        "build failed"@,
    ) {
        Some(RealizationFailureKind::NixRealization)
    } else {
        None
    }
}

/// The class of a failure, as far as its diagnostic tells.
pub fn classify_realization_failure(stderr: &str) -> (result: Option<RealizationFailureKind>)
    ensures
        result == failure_kind(stderr@),
{
    let lower_text = text::lower(stderr);
    let lower = lower_text.as_str();
    if text::contains(lower, "platform mismatch") || (text::contains(lower, "required")
        && text::contains(lower, "but i am")) {
        return Some(RealizationFailureKind::WrongPlatform);
    }
    if text::contains(lower, "remote builder") || text::contains(lower, "ssh-ng://") || (
    text::contains(lower, "builder for") && (text::contains(lower, "failed") || text::contains(
        lower,
        "unreachable",
    ) || text::contains(lower, "could not connect"))) {
        return Some(RealizationFailureKind::RemoteBuilder);
    }
    if text::contains(lower, "cache root") || text::contains(
        lower,
        "not available from any substituter",
    ) || text::contains(lower, "no substitute") || text::contains(lower, "cannot substitute") || (
    text::contains(lower, "substitut") && (text::contains(lower, "failed") || text::contains(
        lower,
        "unavailable",
    ))) || (text::contains(lower, "required") && text::contains(lower, "not available")) {
        return Some(RealizationFailureKind::MissingCacheRoot);
    }
    if text::contains(lower, "realiz") || text::contains(lower, "nix build") || text::contains(
        lower,
        "build failed",
    ) {
        return Some(RealizationFailureKind::NixRealization);
    }
    None
}

/// The system that a diagnostic speaks of.
pub open spec fn system_named(stderr: Seq<char>) -> Seq<char> {
    if occurs(stderr, "aarch64-linux"@) {
        "aarch64-linux"@
    } else if occurs(stderr, "x86_64-linux"@) {
        "x86_64-linux"@
    } else if occurs(stderr, "armv7l-linux"@) {
        "armv7l-linux"@
    } else if occurs(stderr, "i686-linux"@) {
        "i686-linux"@
    } else if occurs(stderr, "x86_64-darwin"@) {
        "x86_64-darwin"@
    } else if occurs(stderr, "aarch64-darwin"@) {
        "aarch64-darwin"@
    } else if occurs(stderr, "wasm32-wasi"@) {
        "wasm32-wasi"@
    } else {
        "unknown"@
    }
}

/// The system that a diagnostic speaks of.
pub fn affected_system(stderr: &str) -> (result: String)
    ensures
        result@ == system_named(stderr@),
{
    if text::contains(stderr, "aarch64-linux") {
        "aarch64-linux".to_owned()
    } else if text::contains(stderr, "x86_64-linux") {
        "x86_64-linux".to_owned()
    } else if text::contains(stderr, "armv7l-linux") {
        "armv7l-linux".to_owned()
    } else if text::contains(stderr, "i686-linux") {
        "i686-linux".to_owned()
    } else if text::contains(stderr, "x86_64-darwin") {
        "x86_64-darwin".to_owned()
    } else if text::contains(stderr, "aarch64-darwin") {
        "aarch64-darwin".to_owned()
    } else if text::contains(stderr, "wasm32-wasi") {
        "wasm32-wasi".to_owned()
    } else {
        "unknown".to_owned()
    }
}

/// What a failure has to do with caches and builders.
pub open spec fn context_of(kind: RealizationFailureKind, policy: PolicyView) -> Seq<char> {
    match kind {
        RealizationFailureKind::MissingCacheRoot => "configured substituters"@,
        RealizationFailureKind::WrongPlatform => "host-platform cache"@,
        RealizationFailureKind::RemoteBuilder => match policy {
            PolicyView::SubstituteOnly => "remote builders disabled"@,
            PolicyView::RemoteNative { .. } => "explicit remote builders"@,
        },
        RealizationFailureKind::NixRealization => "nix realization"@,
        RealizationFailureKind::Unknown => "nix realization"@,
    }
}

/// What a failure has to do with caches and builders.
pub fn cache_context(kind: &RealizationFailureKind, policy: &RealizationPolicy) -> (result: String)
    ensures
        result@ == context_of(*kind, policy@),
{
    match kind {
        RealizationFailureKind::MissingCacheRoot => "configured substituters".to_owned(),
        RealizationFailureKind::WrongPlatform => "host-platform cache".to_owned(),
        RealizationFailureKind::RemoteBuilder => match policy {
            RealizationPolicy::SubstituteOnly => "remote builders disabled".to_owned(),
            RealizationPolicy::RemoteNative { .. } => "explicit remote builders".to_owned(),
        },
        RealizationFailureKind::NixRealization => "nix realization".to_owned(),
        RealizationFailureKind::Unknown => "nix realization".to_owned(),
    }
}

/// The error for a failed `nix build`.
pub open spec fn build_failure(
    attr: Seq<char>,
    status: Option<i32>,
    stderr: Seq<char>,
    policy: PolicyView,
) -> ErrorView {
    match failure_kind(stderr) {
        None => ErrorView::RealizationFailed { attr, status, stderr: redacted(stderr) },
        Some(kind) => ErrorView::RealizationMissingPrerequisite {
            attr: redacted(attr),
            status,
            prerequisite: PrerequisiteView {
                root: redacted(attr),
                system: system_named(stderr),
                cache_context: context_of(kind, policy),
                recoverable_by_native_recovery: kind == RealizationFailureKind::MissingCacheRoot
                    || kind == RealizationFailureKind::WrongPlatform,
                diagnostic: redacted(stderr),
                kind,
            },
        },
    }
}

/// The error for a failed `nix build`.
pub fn classify_nix_build_failure(
    attr: &str,
    status: Option<i32>,
    stderr: &str,
    policy: &RealizationPolicy,
) -> (result: Error)
    ensures
        result@ == build_failure(attr@, status, stderr@, policy@),
{
    let diagnostic = redact_diagnostic(stderr);
    let kind = match classify_realization_failure(stderr) {
        Some(kind) => kind,
        None => {
            return Error::RealizationFailed { attr: attr.to_owned(), status, stderr: diagnostic };
        },
    };
    let prerequisite = MissingPrerequisite {
        root: redact_identifier(attr),
        system: affected_system(stderr),
        cache_context: cache_context(&kind, policy),
        recoverable_by_native_recovery: matches!(
            kind,
            RealizationFailureKind::MissingCacheRoot | RealizationFailureKind::WrongPlatform
        ),
        diagnostic,
        kind,
    };
    Error::RealizationMissingPrerequisite {
        attr: redact_identifier(attr),
        status,
        prerequisite: Box::new(prerequisite),
    }
}

// ---------------------------------------------------------------------------
// Laws of what is shown
// ---------------------------------------------------------------------------

/// A word is shown as it is, unless it holds an address or is a path outside the
/// store: then a word that says what it was stands in its place.
pub proof fn law_harmless_words_are_shown(word: Seq<char>)
    ensures
        occurs(lowered(word), "ssh-ng://"@) ==> shown_word(word) == "<builder>"@,
        !occurs(lowered(word), "ssh-ng://"@) && occurs(lowered(word), "://"@) ==> shown_word(word)
            == "<endpoint>"@,
        !occurs(lowered(word), "://"@) ==> {
            let bare = text::drop_ends(word, |c: char| "'\"()[]{}<>,;:"@.contains(c));
            let private = bare.len() > 0 && bare[0] == '/' && !"/nix/store/"@.is_prefix_of(bare);
            shown_word(word) == if private {
                "<path>"@
            } else {
                word
            }
        },
{
    reveal_strlit("ssh-ng://");
    reveal_strlit("://");
    reveal_strlit("/");
    assert("/"@ =~= seq!['/']);
    let long = "ssh-ng://"@;
    let short = "://"@;
    assert(long.subrange(6, 9) =~= short);
    if occurs(lowered(word), long) {
        let at = choose|at: int| text::occurs_at(lowered(word), long, at);
        assert(lowered(word).subrange(at + 6, at + 9) =~= lowered(word).subrange(
            at,
            at + 9,
        ).subrange(6, 9));
        assert(text::occurs_at(lowered(word), short, at + 6));
    }
    let bare = bare_word(word);
    assert("/"@.is_prefix_of(bare) <==> bare.len() > 0 && bare[0] == '/') by {
        if bare.len() > 0 {
            assert(bare.subrange(0, 1) =~= seq![bare[0]]);
            assert(bare.subrange(0, 1)[0] == bare[0]);
        }
    }
}

/// Lines are shown one by one and in order, each by its words with single blanks
/// between them. A line without a word, or with a sensitive one, is left out.
pub proof fn law_lines_are_shown_one_by_one(lines: Seq<Seq<char>>, line: Seq<char>)
    ensures
        shown_lines(Seq::empty()) == Seq::<Seq<char>>::empty(),
        ({
            let words = words_of(line).map_values(|word: Seq<char>| shown_word(word));
            shown_lines(lines.push(line)) == if words.len() == 0 || is_sensitive(line) {
                shown_lines(lines)
            } else {
                shown_lines(lines).push(joined(words, seq![' ']))
            }
        }),
{
    reveal_strlit(" ");
    assert(" "@ =~= seq![' ']);
    assert(lines.push(line).drop_last() =~= lines);
    let words = shown_words(line);
    assert(words =~= words_of(line).map_values(|word: Seq<char>| shown_word(word)));
    if words.len() > 0 {
        text::lemma_words_are_solid(line, 0);
        lemma_shown_word(words_of(line)[0]);
        text::lemma_words_are_solid(shown_word(words_of(line)[0]), 0);
        assert(words_of(shown_word(words_of(line)[0]))[0] == words[0]);
        assert(words[0].len() > 0);
        lemma_joined_is_not_empty(words, " "@);
    }
}

proof fn lemma_joined_is_not_empty(parts: Seq<Seq<char>>, separator: Seq<char>)
    requires
        parts.len() > 0,
        parts[0].len() > 0,
    ensures
        joined(parts, separator).len() > 0,
    decreases parts.len(),
{
    if parts.len() > 1 {
        lemma_joined_is_not_empty(parts.drop_last(), separator);
    }
}

/// A line is sensitive if and only if it holds one of these words, in capital or
/// small letters.
pub proof fn law_sensitive_lines(line: Seq<char>)
    ensures
        is_sensitive(line) <==> {
            let lower = lowered(line);
            ||| occurs(lower, "authorization"@)
            ||| occurs(lower, "bearer "@)
            ||| occurs(lower, "cookie"@)
            ||| occurs(lower, "credential"@)
            ||| occurs(lower, "password"@)
            ||| occurs(lower, "secret"@)
            ||| occurs(lower, "token"@)
            ||| occurs(lower, "api_key"@)
            ||| occurs(lower, "private_key"@)
        },
{
    let lower = lowered(line);
    assert(markers()[0] == "authorization"@);
    assert(markers()[1] == "bearer "@);
    assert(markers()[2] == "cookie"@);
    assert(markers()[3] == "credential"@);
    assert(markers()[4] == "password"@);
    assert(markers()[5] == "secret"@);
    assert(markers()[6] == "token"@);
    assert(markers()[7] == "api_key"@);
    assert(markers()[8] == "private_key"@);
}

/// What is shown of a text are its lines that may be shown, whole where they fit
/// into the bound. Where none may be, that is said.
pub proof fn law_what_may_be_shown_is_shown(value: Seq<char>)
    ensures
        ({
            let lines = shown_lines(text::lines_of(value));
            let whole = joined(lines, seq!['\n']);
            &&& lines.len() == 0 ==> redacted(value) == "<no safe diagnostic>"@
            &&& lines.len() > 0 && text::byte_length(whole) <= 4096 ==> redacted(value) == whole
            &&& lines.len() > 0 && text::byte_length(whole) > 4096 ==> redacted(value) == truncated(
                whole,
            )
        }),
{
    reveal_strlit("\n");
    assert("\n"@ =~= seq!['\n']);
    let lines = shown_lines(text::lines_of(value));
    if lines.len() > 0 {
        let at = lemma_shown_lines(text::lines_of(value), 0);
        lemma_shown_lines_are_not_empty(text::lines_of(value), 0);
        lemma_joined_is_not_empty(lines, "\n"@);
    } else {
        reveal_strlit("<no safe diagnostic>");
        let said = "<no safe diagnostic>"@;
        assert(said.len() == 20);
        assert(vstd::utf8::is_ascii_chars(said));
        vstd::utf8::is_ascii_chars_encode_utf8(said);
    }
}

proof fn lemma_shown_lines_are_not_empty(lines: Seq<Seq<char>>, k: int)
    requires
        0 <= k < shown_lines(lines).len(),
    ensures
        shown_lines(lines)[k].len() > 0,
    decreases lines.len(),
{
    if lines.len() > 0 {
        let earlier = shown_lines(lines.drop_last());
        if k < earlier.len() {
            lemma_shown_lines_are_not_empty(lines.drop_last(), k);
        }
    }
}

/// A text that fits into the bound is not cut. A longer one is cut to the longest
/// beginning that leaves room for three dots, which follow it.
pub proof fn law_long_texts_are_cut(value: Seq<char>) -> (at: int)
    ensures
        text::byte_length(value) <= 4096 ==> truncated(value) == value,
        text::byte_length(value) > 4096 ==> {
            &&& 0 <= at < value.len()
            &&& truncated(value) == value.take(at) + seq!['.', '.', '.']
            &&& text::byte_length(value.take(at)) <= 4093
            &&& text::byte_length(value.take(at + 1)) > 4093
        },
{
    if text::byte_length(value) > 4096 {
        reveal_strlit("...");
        assert("..."@ =~= seq!['.', '.', '.']);
        lemma_longest_beginning(value, 4093)
    } else {
        0
    }
}

proof fn lemma_longest_beginning(value: Seq<char>, limit: int) -> (at: int)
    requires
        limit >= 0,
        text::byte_length(value) > limit,
    ensures
        0 <= at < value.len(),
        beginning(value, limit) == value.take(at),
        text::byte_length(value.take(at)) <= limit,
        text::byte_length(value.take(at + 1)) > limit,
    decreases value.len(),
{
    if value.len() == 0 {
        assert(value =~= Seq::empty());
        assert(text::byte_length(value) == 0);
        0
    } else {
        let rest = value.drop_last();
        assert(beginning(value, limit) == beginning(rest, limit));
        if rest.len() == 0 || text::byte_length(rest) <= limit {
            assert(beginning(rest, limit) == rest);
            let at = rest.len() as int;
            assert(rest =~= value.take(at));
            assert(value.take(at + 1) =~= value);
            if rest.len() == 0 {
                assert(rest =~= Seq::empty());
                assert(text::byte_length(rest) == 0);
            }
            at
        } else {
            let at = lemma_longest_beginning(rest, limit);
            assert(rest.take(at) =~= value.take(at));
            assert(rest.take(at + 1) =~= value.take(at + 1));
            at
        }
    }
}

/// What a failure is taken for, from what was printed, in capital or small
/// letters. A platform that does not match comes first, then a builder, then the
/// cache, then any other realization; anything else is not classified.
pub proof fn law_failures_are_told_apart(stderr: Seq<char>)
    ensures
        ({
            let lower = lowered(stderr);
            let kind = failure_kind(stderr);
            let platform = occurs(lower, "platform mismatch"@) || (occurs(lower, "required"@)
                && occurs(lower, "but i am"@));
            let builder = occurs(lower, "remote builder"@) || occurs(lower, "ssh-ng://"@) || (
            occurs(lower, "builder for"@) && (occurs(lower, "failed"@) || occurs(
                lower,
                "unreachable"@,
            ) || occurs(lower, "could not connect"@)));
            let cache = occurs(lower, "cache root"@) || occurs(
                lower,
                "not available from any substituter"@,
            ) || occurs(lower, "no substitute"@) || occurs(lower, "cannot substitute"@) || (occurs(
                lower,
                "substitut"@,
            ) && (occurs(lower, "failed"@) || occurs(lower, "unavailable"@))) || (occurs(
                lower,
                "required"@,
            ) && occurs(lower, "not available"@));
            let build = occurs(lower, "realiz"@) || occurs(lower, "nix build"@) || occurs(
                lower,
                "build failed"@,
            );
            &&& kind == Some(RealizationFailureKind::WrongPlatform) <==> platform
            &&& kind == Some(RealizationFailureKind::RemoteBuilder) <==> !platform && builder
            &&& kind == Some(RealizationFailureKind::MissingCacheRoot) <==> !platform && !builder
                && cache
            &&& kind == Some(RealizationFailureKind::NixRealization) <==> !platform && !builder
                && !cache && build
            &&& kind is None <==> !platform && !builder && !cache && !build
        }),
{
}

/// The system that a failure names is one that was printed; where several were,
/// the Linux ones for ARM and x86 come first. Without any it is unknown.
pub proof fn law_the_named_system_was_printed(stderr: Seq<char>)
    ensures
        occurs(stderr, "aarch64-linux"@) ==> system_named(stderr) == "aarch64-linux"@,
        !occurs(stderr, "aarch64-linux"@) && occurs(stderr, "x86_64-linux"@) ==> system_named(
            stderr,
        ) == "x86_64-linux"@,
        !occurs(stderr, "aarch64-linux"@) && !occurs(stderr, "x86_64-linux"@) ==> {
            &&& occurs(stderr, "armv7l-linux"@) ==> system_named(stderr) == "armv7l-linux"@
            &&& !occurs(stderr, "armv7l-linux"@) && occurs(stderr, "i686-linux"@) ==> system_named(
                stderr,
            ) == "i686-linux"@
            &&& !occurs(stderr, "armv7l-linux"@) && !occurs(stderr, "i686-linux"@) ==> {
                &&& occurs(stderr, "x86_64-darwin"@) ==> system_named(stderr) == "x86_64-darwin"@
                &&& !occurs(stderr, "x86_64-darwin"@) && occurs(stderr, "aarch64-darwin"@)
                    ==> system_named(stderr) == "aarch64-darwin"@
                &&& !occurs(stderr, "x86_64-darwin"@) && !occurs(stderr, "aarch64-darwin"@)
                    ==> system_named(stderr) == if occurs(stderr, "wasm32-wasi"@) {
                    "wasm32-wasi"@
                } else {
                    "unknown"@
                }
            }
        },
{
}

/// A failed build that is classified names what was missing: the attribute and
/// what was printed, both redacted, the system, and where it was looked for. It
/// can be recovered natively if and only if the cache lacked it or the platform
/// did not match. One that is not classified shows what was printed, redacted.
pub proof fn law_failed_builds_name_what_was_missing(
    attr: Seq<char>,
    status: Option<i32>,
    stderr: Seq<char>,
    policy: PolicyView,
)
    ensures
        failure_kind(stderr) is None ==> build_failure(attr, status, stderr, policy) == (
        ErrorView::RealizationFailed { attr, status, stderr: redacted(stderr) }),
        failure_kind(stderr) matches Some(kind) ==> (build_failure(
            attr,
            status,
            stderr,
            policy,
        ) matches ErrorView::RealizationMissingPrerequisite {
            attr: shown,
            status: code,
            prerequisite,
        } && shown == redacted(attr) && code == status && prerequisite.root == redacted(attr)
            && prerequisite.diagnostic == redacted(stderr) && prerequisite.system == system_named(
            stderr,
        ) && prerequisite.kind == kind && (prerequisite.recoverable_by_native_recovery <==> (kind
            == RealizationFailureKind::MissingCacheRoot || kind
            == RealizationFailureKind::WrongPlatform)) && (kind
            == RealizationFailureKind::MissingCacheRoot ==> prerequisite.cache_context
            == "configured substituters"@) && (kind == RealizationFailureKind::WrongPlatform
            ==> prerequisite.cache_context == "host-platform cache"@) && (kind
            == RealizationFailureKind::NixRealization ==> prerequisite.cache_context
            == "nix realization"@) && (kind == RealizationFailureKind::RemoteBuilder
            ==> prerequisite.cache_context == if policy == PolicyView::SubstituteOnly {
            "remote builders disabled"@
        } else {
            "explicit remote builders"@
        })),
        context_of(RealizationFailureKind::Unknown, policy) == "nix realization"@,
{
}

} // verus!
