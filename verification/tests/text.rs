use peerchat::table::Table;
use peerchat::text::{
    comes_before, contains, dec, ends_with, list, parse_u64, same_text, shorten, sort_by_label,
    starts_with, strip_prefix, trim, trim_end_matches,
};

#[test]
fn decimals() {
    assert_eq!(dec(0), "0");
    assert_eq!(dec(10), "10");
    assert_eq!(dec(u64::MAX), "18446744073709551615");
    for n in [0u64, 7, 99, 100, 65536, u64::MAX] {
        assert_eq!(dec(n), n.to_string());
        assert_eq!(parse_u64(&dec(n)), Some(n));
    }
}

#[test]
fn numbers_that_are_read() {
    assert_eq!(parse_u64("30"), Some(30));
    assert_eq!(parse_u64("+30"), Some(30));
    assert_eq!(parse_u64("007"), Some(7));
    for text in ["", "+", "-1", "1.5", " 1", "1 ", "abc", "18446744073709551616", "++1", "１"] {
        assert_eq!(parse_u64(text), text.parse::<u64>().ok());
        assert_eq!(parse_u64(text), None);
    }
}

#[test]
fn lists_of_numbers() {
    for numbers in [vec![], vec![3u32], vec![0, 10, 4294967295]] {
        assert_eq!(list(&numbers), format!("{numbers:?}"));
    }
}

#[test]
fn searching() {
    assert!(contains("发送失败了", "失败"));
    assert!(!contains("发送成功", "失败"));
    assert!(contains("abc", ""));
    assert!(!contains("", "a"));
    assert!(contains("aab", "ab"));
    assert!(starts_with("send x", "send "));
    assert!(!starts_with("sen", "send "));
    assert!(ends_with("a.json", ".json"));
    assert!(!ends_with("json", ".json"));
    assert_eq!(strip_prefix("nick 小明", "nick "), Some("小明"));
    assert_eq!(strip_prefix("nick", "nick "), None);
    assert!(same_text("help", "help"));
    assert!(!same_text("help", "helf"));
}

#[test]
fn trimming() {
    for text in ["", "  ", "\t a b \n", "\u{3000}小 明\u{a0}", "x"] {
        assert_eq!(trim(text), text.trim());
    }
    assert_eq!(trim_end_matches("a.json.json", ".json"), "a");
    assert_eq!(trim_end_matches(".json", ".json"), "");
    assert_eq!(trim_end_matches("a.txt", ".json"), "a.txt");
}

#[test]
fn order_of_texts() {
    for (a, b) in [("", "a"), ("a", "b"), ("a", "ab"), ("é", "z"), ("小", "明"), ("b", "a")] {
        assert_eq!(comes_before(a, b), a <= b);
        assert_eq!(comes_before(b, a), b <= a);
    }
    let names: Vec<String> =
        ["b", "a", "明", "", "ab", "a", "Z"].iter().map(|s| s.to_string()).collect();
    let mut expected = names.clone();
    expected.sort();
    assert_eq!(sort_by_label(names), expected);
}

#[test]
fn tables_keep_the_order_of_first_arrival() {
    let mut table: Table<u64, String> = Table::new();
    assert_eq!(table.len(), 0);
    assert!(!table.insert(5, "five".to_string()));
    assert!(!table.insert(3, "three".to_string()));
    assert!(table.insert(5, "FIVE".to_string()));
    assert_eq!(table.len(), 2);
    assert_eq!(*table.key_at(0), 5);
    assert_eq!(table.value_at(0), "FIVE");
    assert_eq!(*table.key_at(1), 3);
    assert_eq!(table.get(&3), Some(&"three".to_string()));
    assert_eq!(table.get(&4), None);
    assert!(table.contains(&5));
    assert_eq!(table.find(&3), Some(1));
    table.get_mut(&3).unwrap().push('!');
    assert_eq!(table.value_at(1), "three!");
    *table.value_at_mut(0) = "V".to_string();
    assert_eq!(table.get(&5), Some(&"V".to_string()));
    table.remove(&5);
    assert_eq!(table.len(), 1);
    assert!(!table.contains(&5));
    assert_eq!(table.get(&3), Some(&"three!".to_string()));
    table.remove(&9);
    assert_eq!(table.len(), 1);
}

#[test]
fn beginnings_of_texts() {
    assert_eq!(shorten("abc", 8), "abc");
    assert_eq!(shorten("abcdefghij", 8), "abcdefgh");
    assert_eq!(shorten("abc", 0), "");
    assert_eq!(shorten("", 8), "");
    // a character that does not fit whole is left out
    assert_eq!(shorten("一二三", 8), "一二");
    assert_eq!(shorten("a一二三", 7), "a一二");
    assert_eq!(shorten("é😀é", 6), "é😀");
    assert_eq!(shorten("é😀é", 5), "é");
}
