use ttsmagic::decimal::{parse_number, to_decimal};
use ttsmagic::idmap::IdMap;
use ttsmagic::sort::sort_with_keys;
use ttsmagic::text::{
    concat2, concat3, contains, ends_with, join, no_later, quote, replace, split, split_whitespace,
    starts_with, trim,
};
use ttsmagic::uuids::Uuid;

fn strings(v: &[&str]) -> Vec<String> {
    v.iter().map(|s| s.to_string()).collect()
}

#[test]
fn split_and_join() {
    assert_eq!(split("a // b // c", " // "), strings(&["a", "b", "c"]));
    assert_eq!(split("", ","), strings(&[""]));
    assert_eq!(split(",a,", ","), strings(&["", "a", ""]));
    assert_eq!(split("aaa", "aa"), strings(&["", "a"]));
    assert_eq!(join(&strings(&["x", "y"]), ", "), "x, y");
    assert_eq!(join(&strings(&[]), ", "), "");
    for s in ["a // b", "", " // ", "no sep", "x // // y"] {
        assert_eq!(join(&split(s, " // "), " // "), s);
        let expected: Vec<String> = s.split(" // ").map(str::to_string).collect();
        assert_eq!(split(s, " // "), expected);
    }
}

#[test]
fn replace_like_std() {
    for s in ["Fire / Ice", "a\"b\"c", "", " /  / ", "aaaa"] {
        assert_eq!(replace(s, " / ", " // "), s.replace(" / ", " // "));
        assert_eq!(replace(s, "\"", "'"), s.replace('"', "'"));
        assert_eq!(replace(s, "aa", "b"), s.replace("aa", "b"));
    }
}

#[test]
fn trim_and_words_like_std() {
    for s in ["  a b\t", "\u{a0}x\u{3000}", "", "   ", "Legendary  Creature \u{2014} Elf"] {
        assert_eq!(trim(s), s.trim());
        let words: Vec<String> = s.split_whitespace().map(str::to_string).collect();
        assert_eq!(split_whitespace(s), words);
    }
}

#[test]
fn parts_of_text() {
    assert!(starts_with("abc", "ab"));
    assert!(!starts_with("abc", "b"));
    assert!(ends_with("deck.json", ".json"));
    assert!(!ends_with("json", ".json"));
    assert!(contains("abc", "bc"));
    assert!(!contains("abc", "cb"));
    assert_eq!(concat2("a", "b"), "ab");
    assert_eq!(concat3("a", "b", "c"), "abc");
    assert_eq!(quote("a \"b\"\n"), "\"a \\\"b\\\"\\n\"");
}

#[test]
fn order_of_text_like_std() {
    let all = ["", "a", "ab", "b", "A", "\u{e9}", "z", "\u{1f600}", "\u{ffff}"];
    for a in all {
        for b in all {
            assert_eq!(no_later(a, b), a <= b, "{:?} {:?}", a, b);
        }
    }
}

#[test]
fn numbers() {
    assert_eq!(to_decimal(0), "0");
    assert_eq!(to_decimal(u64::MAX), u64::MAX.to_string());
    assert_eq!(parse_number("18446744073709551615", u64::MAX), Some(u64::MAX));
    assert_eq!(parse_number("18446744073709551616", u64::MAX), None);
    assert_eq!(parse_number("255", 255), Some(255));
    assert_eq!(parse_number("256", 255), None);
    assert_eq!(parse_number("+7", 255), "+7".parse::<u8>().ok().map(u64::from));
    assert_eq!(parse_number("007", 255), Some(7));
    for s in ["", "+", "-1", " 1", "1 ", "x", "1x"] {
        assert_eq!(parse_number(s, u64::MAX), s.parse::<u64>().ok(), "{:?}", s);
    }
    for n in [0, 1, 9, 10, 99, 12345678901234567890] {
        assert_eq!(parse_number(&to_decimal(n), u64::MAX), Some(n));
    }
}

#[test]
fn uuids() {
    let id = Uuid::parse_str("b3c2bd44-4d75-4f61-89c0-1f1ba4d59ffa").unwrap();
    assert_eq!(id.bits, 0xb3c2bd44_4d75_4f61_89c0_1f1ba4d59ffa);
    assert_eq!(id.to_text(), "b3c2bd44-4d75-4f61-89c0-1f1ba4d59ffa");
    for s in [
        "b3c2bd444d754f6189c01f1ba4d59ffa",
        "B3C2BD44-4D75-4F61-89C0-1F1BA4D59FFA",
        "{b3c2bd44-4d75-4f61-89c0-1f1ba4d59ffa}",
        "urn:uuid:b3c2bd44-4d75-4f61-89c0-1f1ba4d59ffa",
    ] {
        assert_eq!(Uuid::parse_str(s), Ok(id), "{}", s);
    }
    for s in ["", "b3c2bd44", "b3c2bd44-4d75-4f61-89c0-1f1ba4d59ffg", "b3c2bd444-d75-4f61-89c0-1f1ba4d59ffa"] {
        assert!(Uuid::parse_str(s).is_err(), "{}", s);
        assert!(!Uuid::problem_of(s).is_empty());
    }
    let a = Uuid::new_v4();
    assert_eq!(Uuid::parse_str(&a.to_text()), Ok(a));
    assert_eq!(a.to_text().as_bytes()[14], b'4');
    assert_ne!(a, Uuid::new_v4());
}

#[test]
fn sorting_is_stable() {
    let keys = strings(&["b", "a", "b", "a", ""]);
    assert_eq!(sort_with_keys(keys, vec![1, 2, 3, 4, 5]), vec![5, 2, 4, 1, 3]);
    assert_eq!(sort_with_keys(vec![], Vec::<u8>::new()), Vec::<u8>::new());
}

#[test]
fn id_map() {
    let mut m = IdMap::new();
    m.insert(3, "x");
    m.insert(1, "y");
    m.insert(3, "z");
    assert_eq!(m.len(), 2);
    assert_eq!(m.get(3), Some(&"z"));
    assert_eq!(m.get(2), None);
    assert_eq!(m.position(1), 1);
    assert_eq!(m.position(9), 2);
    assert!(m.contains(1));
    m.insert_new(1, "w");
    m.insert_new(5, "v");
    assert_eq!(*m.entry(1), (1, "y"));
    assert_eq!(m.remove(3), Some("z"));
    assert_eq!(m.remove(3), None);
    assert_eq!(m.into_entries(), vec![(1, "y"), (5, "v")]);
    assert_eq!(IdMap::from_entries(vec![(1, 2)]).get(1), Some(&2));
}
