use luckyprotocol_indexer::heights::{hash_at, keep_from, latest_heights, no_hashes, record_hash};
use luckyprotocol_indexer::order::{list_rows, Row};
use luckyprotocol_indexer::strmap::{Duplicate, StrMap, StrSet};
use luckyprotocol_indexer::text::{
    chars_of, find_text, has_text, push_decimal, read_uint, same_ignoring_ascii_case, same_text,
    split_fields, text_of, to_ascii_lower, to_ascii_upper,
};

#[test]
fn a_map_keeps_its_entries() {
    let mut m: StrMap<u64> = StrMap::new();
    for i in 0..50u64 {
        m.insert(format!("k{}", i), i);
    }
    m.insert("k7".to_string(), 70);
    assert_eq!(m.len(), 50);
    assert_eq!(m.get("k7"), Some(&70));
    assert_eq!(m.remove("k0"), Some(0));
    assert_eq!(m.remove("k0"), None);
    assert_eq!(m.remove("k49"), Some(49));
    for i in 1..49u64 {
        assert_eq!(m.get(&format!("k{}", i)), Some(&if i == 7 { 70 } else { i }));
    }
    let copy = m.duplicate();
    m.clear();
    assert!(m.is_empty());
    assert_eq!(copy.len(), 48);
    let mut keys: Vec<String> = (0..copy.len()).map(|i| copy.key_at(i).clone()).collect();
    keys.sort();
    keys.dedup();
    assert_eq!(keys.len(), 48);
}

#[test]
fn a_set_keeps_its_members() {
    let mut s = StrSet::new();
    s.insert("a".to_string());
    s.insert("a".to_string());
    s.insert("b".to_string());
    assert_eq!(s.len(), 2);
    assert!(s.contains("a") && !s.contains("c"));
    s.remove("a");
    s.remove("b");
    assert!(s.is_empty());
}

#[test]
fn hashes_are_kept_by_height() {
    let mut m = no_hashes();
    for h in [7u32, 3, 9, 5, u32::MAX, 0] {
        record_hash(&mut m, h, format!("h{}", h));
    }
    record_hash(&mut m, 5, "other".to_string());
    assert_eq!(m.len(), 6);
    assert_eq!(hash_at(&m, 5).unwrap(), "other");
    assert_eq!(hash_at(&m, 4), None);
    assert_eq!(latest_heights(&m, 3), vec![u32::MAX, 9, 7]);
    assert_eq!(latest_heights(&m, 0), Vec::<u32>::new());
    assert_eq!(latest_heights(&m, 9), vec![u32::MAX, 9, 7, 5, 3, 0]);
    keep_from(&mut m, 7);
    assert_eq!(latest_heights(&m, 9), vec![u32::MAX, 9, 7]);
    assert_eq!(hash_at(&m, 7).unwrap(), "h7");
    assert!(latest_heights(&no_hashes(), 3).is_empty());
}

#[test]
fn rows_are_listed_in_order() {
    let row = |rank: u64, text: &str, key: &str| Row {
        rank,
        text: text.to_string(),
        key: key.to_string(),
    };
    let rows = vec![row(2, "a", "k1"), row(1, "b", "k2"), row(1, "a", "k4"), row(1, "a", "k3"), row(1, "é", "k5")];
    let keys: Vec<String> = list_rows(rows).iter().map(|r| r.key.clone()).collect();
    assert_eq!(keys, vec!["k3", "k4", "k2", "k5", "k1"]);
    assert!(list_rows(Vec::new()).is_empty());
}

#[test]
fn texts_are_compared_and_cut() {
    assert!(same_text("aé", "aé"));
    assert!(!same_text("a", "b"));
    assert!(!same_text("a", "aa"));
    assert!(same_ignoring_ascii_case("ABCé", "abCé"));
    assert!(!same_ignoring_ascii_case("É", "é"));
    assert_eq!(to_ascii_lower("ABZé@["), "abzé@[");
    assert_eq!(to_ascii_upper("abzé`{"), "ABZé`{");
    assert_eq!(text_of(&chars_of("aéb")), "aéb");
    assert_eq!(split_fields("a||b|", '|'), vec!["a", "", "b", ""]);
    assert_eq!(split_fields("", '|'), vec![""]);
    assert_eq!(find_text(&chars_of("ababc"), &chars_of("abc")), Some(2));
    assert_eq!(find_text(&chars_of("ab"), &chars_of("abc")), None);
    assert_eq!(find_text(&chars_of("ab"), &chars_of("")), Some(0));
    assert!(has_text("hello", "ell") && !has_text("hello", "elo"));
}

#[test]
fn numbers_are_written_and_read() {
    for n in [0u64, 7, 10, 909, u64::MAX] {
        let mut s = String::from("n=");
        push_decimal(&mut s, n);
        assert_eq!(s, format!("n={}", n));
        assert_eq!(read_uint(&chars_of(&s[2..]), u64::MAX), Some(n));
    }
    assert_eq!(read_uint(&chars_of("256"), 255), None);
    assert_eq!(read_uint(&chars_of("18446744073709551616"), u64::MAX), None);
    assert_eq!(read_uint(&chars_of("0007"), 7), Some(7));
    assert_eq!(read_uint(&chars_of(""), 7), None);
    assert_eq!(read_uint(&chars_of("1a"), 700), None);
}
