//! Operations on texts, held against those of the standard library.

use crossbow_switch::sorted::{rank, Rank, SortedMap, SortedSet};
use crossbow_switch::text;

const SAMPLES: [&str; 16] = [
    "",
    "a",
    "a:b:c",
    ":",
    "::",
    "line\n",
    "line\r\nnext\rsame\n\nlast",
    "\r\n",
    "  padded\t\u{a0}words \u{2003}",
    "/nix/store/hash-name.drv",
    ".drv",
    "a@b@c:d",
    "ssh-ng://HOST",
    "\u{20ac}\u{1F600}x",
    "x\u{85}y\u{1c}z",
    "(quoted)",
];

#[test]
fn white_space_is_what_char_says() {
    for c in (0..=0x10ffff_u32).filter_map(char::from_u32) {
        assert_eq!(text::is_white(c), c.is_whitespace(), "{:x}", c as u32);
    }
}

#[test]
fn lines_words_and_trimming_agree() {
    for sample in SAMPLES {
        assert_eq!(text::lines(sample), sample.lines().collect::<Vec<_>>(), "{sample:?}");
        assert_eq!(
            text::words(sample),
            sample.split_whitespace().collect::<Vec<_>>(),
            "{sample:?}"
        );
        assert_eq!(text::trim(sample), sample.trim());
        assert_eq!(text::lower(sample), sample.to_ascii_lowercase());
        assert_eq!(text::byte_count(sample), sample.len());
        assert_eq!(
            text::trim_matches(sample, "(:/"),
            sample.trim_matches(|c: char| "(:/".contains(c))
        );
        assert_eq!(
            text::nonblank_lines(sample),
            sample.lines().map(str::trim).filter(|line| !line.is_empty()).collect::<Vec<_>>()
        );
    }
}

#[test]
fn splitting_and_searching_agree() {
    for sample in SAMPLES {
        let owned = |pair: (&str, &str)| (pair.0.to_owned(), pair.1.to_owned());
        for c in [':', '@', '/', '\n'] {
            assert_eq!(text::split_once(sample, c), sample.split_once(c).map(owned));
            assert_eq!(text::rsplit_once(sample, c), sample.rsplit_once(c).map(owned));
            assert_eq!(text::rest_after_last(sample, c), sample.rsplit(c).next().unwrap());
        }
        for part in ["", "a", "://", ".drv", "/nix/store/", "\u{20ac}"] {
            assert_eq!(text::contains(sample, part), sample.contains(part));
            assert_eq!(text::starts_with(sample, part), sample.starts_with(part));
            assert_eq!(text::ends_with(sample, part), sample.ends_with(part));
            assert_eq!(
                text::strip_prefix(sample, part).as_deref(),
                sample.strip_prefix(part)
            );
            assert_eq!(
                text::strip_suffix(sample, part).as_deref(),
                sample.strip_suffix(part)
            );
        }
        for other in SAMPLES {
            assert_eq!(text::same(sample, other), sample == other);
        }
    }
}

#[test]
fn numerals_agree() {
    for n in [0, 1, 9, 10, 255, 4_294_967_295, u64::MAX] {
        assert_eq!(text::to_decimal(n), n.to_string());
    }
    for n in [0, 7, -1, i32::MAX, i32::MIN] {
        assert_eq!(text::to_signed_decimal(n), n.to_string());
    }
    for numeral in [
        "", "0", "007", "+", "+5", "-0", "-1", "++1", "4294967295", "4294967296",
        "99999999999999999999", "1 ", " 1", "0x1", "\u{661}",
    ] {
        assert_eq!(text::parse_u32(numeral), numeral.parse::<u32>().ok(), "{numeral:?}");
    }
}

#[test]
fn decimal_numerals_read_back() {
    for n in [0, 1, 10, 4096, u32::MAX] {
        assert_eq!(text::parse_u32(&text::to_decimal(u64::from(n))), Some(n));
    }
}

#[test]
fn joining_agrees() {
    let owned: Vec<String> = SAMPLES.iter().map(|sample| (*sample).to_owned()).collect();
    for end in 0..4 {
        assert_eq!(text::join(&owned[..end], ", "), owned[..end].join(", "));
    }
}

#[test]
fn texts_are_ordered_as_strings_are() {
    for left in SAMPLES {
        for right in SAMPLES {
            let expected = if left < right {
                Rank::Before
            } else if left == right {
                Rank::Same
            } else {
                Rank::After
            };
            assert_eq!(rank(left, right), expected, "{left:?} {right:?}");
        }
    }
}

#[test]
fn sorted_maps_behave_like_ordered_maps() {
    let mut map = SortedMap::new();
    let mut model = std::collections::BTreeMap::new();
    for (at, key) in SAMPLES.iter().chain(SAMPLES[3..9].iter()).enumerate() {
        map.insert((*key).to_owned(), at);
        model.insert((*key).to_owned(), at);
        if at % 3 == 0 {
            assert_eq!(map.remove(SAMPLES[at / 2 % 16]), model.remove(SAMPLES[at / 2 % 16]));
        }
    }
    assert_eq!(map.len(), model.len());
    assert_eq!(map.keys(), model.keys().cloned().collect::<Vec<_>>());
    for key in SAMPLES {
        assert_eq!(map.get(key), model.get(key));
        assert_eq!(map.contains_key(key), model.contains_key(key));
    }
    let more = SortedMap::from_entries(vec![
        ("a".to_owned(), 100),
        ("new".to_owned(), 1),
        ("new".to_owned(), 2),
    ]);
    map.extend(more);
    model.insert("a".to_owned(), 100);
    model.insert("new".to_owned(), 2);
    assert_eq!(map.into_entries(), model.into_iter().collect::<Vec<_>>());
}

#[test]
fn sorted_sets_keep_one_of_each() {
    let mut set = SortedSet::new();
    assert!(set.is_empty());
    assert!(set.insert("b".to_owned()));
    assert!(set.insert("a".to_owned()));
    assert!(!set.insert("b".to_owned()));
    assert_eq!(set.to_list(), ["a", "b"]);
    assert_eq!(set.len(), 2);
    assert!(set.contains("a") && !set.contains("c"));
}
