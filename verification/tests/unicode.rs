use gdn::unicode_gc::normal::{S_BASE, S_COUNT};
use gdn::unicode_gc::{compose, decompose_one, is_letter, is_mark, is_number, nfc};
use gdn::unicode_tables::{DECOMPOSE_1, DECOMPOSE_2};

#[test]
fn categories_are_not_the_alphabetic_property() {
    // The distinction that forced these tables to exist.
    assert!(is_letter('a'));
    assert!(is_letter('中'));
    assert!(is_letter('Ω'));
    // U+216B ROMAN NUMERAL TWELVE is `Nl`: Alphabetic in Rust, but not `\p{L}`.
    assert!(!is_letter('\u{216B}'), "Nl must not count as a letter");
    // Written without braces: `assert!` treats its message as a format string,
    // so a bare `{N}` would be parsed as a named argument.
    assert!(is_number('\u{216B}'), "Nl is still in the number category");
    assert!('\u{216B}'.is_alphabetic(), "sanity: Rust calls it alphabetic");
    // Marks are their own category.
    assert!(is_mark('\u{301}'));
    assert!(!is_letter('\u{301}'));
    // No (Number, other): ½
    assert!(is_number('½'));
    assert!(!is_letter('½'));
    // Spaces are none of the three.
    assert!(!is_letter(' ') && !is_mark(' ') && !is_number(' '));
}

#[test]
fn nfc_composes_simple_pairs() {
    assert_eq!(nfc("e\u{301}"), "é");
    assert_eq!(nfc("a\u{300}"), "à");
    assert_eq!(nfc("cafe\u{301}"), "café");
    // Already composed input is unchanged.
    assert_eq!(nfc("é"), "é");
    // ASCII and non-composing text pass through.
    assert_eq!(nfc("hello"), "hello");
    assert_eq!(nfc("你好"), "你好");
}

#[test]
fn nfc_orders_combining_marks_by_class() {
    // U+0323 (ccc 220, below) then U+0301 (ccc 230, above) is already in order.
    let ordered = "a\u{323}\u{301}";
    assert_eq!(nfc(ordered), "ạ\u{301}");
    // Reversed input must be reordered before composing, so the *same* result
    // comes out. Without canonical ordering this yields ạ + combining acute.
    let reversed = "a\u{301}\u{323}";
    assert_eq!(nfc(reversed), nfc(ordered));
}

#[test]
fn hangul_decomposes_and_recomposes() {
    // U+D55C HANGUL SYLLABLE HAN = U+1112 + U+1161 + U+11AB
    let d = nfc("\u{1112}\u{1161}\u{11AB}");
    assert_eq!(d, "한");
    // And a syllable stays itself.
    assert_eq!(nfc("한"), "한");
    // A two-jamo syllable with no trailing consonant.
    assert_eq!(nfc("\u{1100}\u{1161}"), "가");
}

/// Iterate the generated tables rather than a codepoint range: sampling a range
/// found only 71 decomposable codepoints and would have missed almost everything.
#[test]
fn every_decomposable_codepoint_is_idempotent_and_hangul_round_trips() {
    let mut n = 0usize;
    let check = |c: char| {
        let once = nfc(&c.to_string());
        assert_eq!(nfc(&once), once, "U+{:04X} is not idempotent", c as u32);
    };
    for &(cp, _) in DECOMPOSE_1.iter() {
        check(char::from_u32(cp).unwrap());
        n += 1;
    }
    for &(cp, _, _) in DECOMPOSE_2.iter() {
        check(char::from_u32(cp).unwrap());
        n += 1;
    }
    // Hangul is not in the tables, and must survive NFC exactly.
    for cp in S_BASE..S_BASE + S_COUNT {
        let c = char::from_u32(cp).unwrap();
        assert_eq!(
            nfc(&c.to_string()),
            c.to_string(),
            "Hangul U+{cp:04X} did not survive NFC"
        );
        n += 1;
    }
    assert!(n > 13000, "only {n} codepoints checked; the tables look short");
}

/// Characters with a canonical decomposition that are *excluded* from
/// recomposition. `toNFC` must leave them decomposed.
///
/// The generator derives the composition table with the rule "NFC of the
/// decomposition returns the character", which folds in the exclusion list without
/// needing to read it. These are its witnesses: if that rule were dropped, the
/// composition table would gain entries for all four and this test would fail.
#[test]
fn composition_exclusions_stay_decomposed() {
    for cp in [0x0958u32, 0x09DC, 0x2ADC, 0x0344] {
        let c = char::from_u32(cp).unwrap();
        let got = nfc(&c.to_string());
        assert_ne!(got, c.to_string(), "U+{cp:04X} must not recompose");
        assert!(got.chars().count() > 1, "U+{cp:04X} must decompose");
        assert_eq!(nfc(&got), got, "U+{cp:04X} is not a fixed point");
    }
}

#[test]
fn hangul_jamo_composes_algorithmically() {
    assert_eq!(nfc("\u{1112}\u{1161}\u{11AB}"), "한");
    assert_eq!(nfc("\u{1100}\u{1161}"), "가");
    assert_eq!(nfc("\u{B098}"), "나");
    // A lone trailing jamo has no starter to compose onto and stays.
    assert_eq!(nfc("\u{11AB}"), "\u{11AB}");
}

#[test]
fn nfc_is_idempotent() {
    for s in ["e\u{301}", "a\u{301}\u{323}", "\u{1112}\u{1161}\u{11AB}", "café", "x"] {
        let once = nfc(s);
        assert_eq!(nfc(&once), once, "not idempotent for {s:?}");
    }
}

#[test]
fn nfc_handles_a_leading_combining_mark() {
    // A mark with no starter cannot compose, and must survive.
    let s = "\u{301}a";
    assert_eq!(nfc(s), s);
}

#[test]
fn equivalent_texts_normalize_alike() {
    for (a, b) in [("é", "e\u{301}"), ("한", "\u{1112}\u{1161}\u{11AB}"), ("ạ\u{301}", "a\u{301}\u{323}")] {
        assert_eq!(nfc(a), nfc(b));
    }
    // A singleton decomposition stays decomposed: the Kelvin sign is a K.
    assert_eq!(nfc("\u{212A}"), "K");
    assert_eq!(nfc("plain ASCII\n"), "plain ASCII\n");
}

#[test]
fn categories_do_not_overlap() {
    for c in (0..0x11_0000u32).filter_map(char::from_u32) {
        let n = [is_letter(c), is_mark(c), is_number(c)].iter().filter(|b| **b).count();
        assert!(n <= 1, "{c:?}");
    }
}

/// The input order of marks of different classes cannot be seen.
#[test]
fn marks_of_different_classes_swap() {
    // Classes 220 and 230, and one that decomposes itself.
    for (a, b) in [("\u{323}", "\u{307}"), ("\u{327}", "\u{344}"), ("\u{5b0}", "\u{301}")] {
        for (p, q) in [("s", ""), ("", "x"), ("a\u{301}", "\u{302}o\u{308}")] {
            assert_eq!(nfc(&format!("{p}{a}{b}{q}")), nfc(&format!("{p}{b}{a}{q}")));
        }
    }
    assert_eq!(nfc("s\u{307}\u{323}"), "\u{1e69}");
}

#[test]
fn parts_of_normal_texts_are_normal() {
    let text = nfc("e\u{323}\u{302}a\u{327}\u{301}\u{1112}\u{1161}\u{11ab}\u{344}q\u{307}\u{323}");
    let chars: Vec<char> = text.chars().collect();
    for i in 0..=chars.len() {
        for j in i..=chars.len() {
            let part: String = chars[i..j].iter().collect();
            assert_eq!(nfc(&part), part);
        }
    }
}

#[test]
fn hangul_composes_step_by_step() {
    // A consonant and a vowel, and a consonant behind them.
    assert_eq!(nfc("\u{1100}\u{1161}"), "\u{ac00}");
    assert_eq!(nfc("\u{ac00}\u{11a8}"), "\u{ac01}");
    assert_eq!(nfc("\u{1100}\u{1161}\u{11a8}"), "\u{ac01}");
    // A syllable with a trailing consonant takes no other.
    assert_eq!(nfc("\u{ac01}\u{11a8}"), "\u{ac01}\u{11a8}");
}

/// A syllable decomposes to its jamo, and those compose back step by step.
#[test]
fn a_syllable_decomposes_and_composes_back() {
    let mut out: Vec<char> = Vec::new();
    decompose_one('\u{ac01}', &mut out);
    assert_eq!(out, vec!['\u{1100}', '\u{1161}', '\u{11a8}']);
    let first = compose('\u{1100}', '\u{1161}');
    assert_eq!(first, Some('\u{ac00}'));
    assert_eq!(compose('\u{ac00}', '\u{11a8}'), Some('\u{ac01}'));
    assert_eq!(compose('\u{ac01}', '\u{11a8}'), None);
    assert_eq!(compose('a', '\u{323}'), Some('\u{1ea1}'));
}
