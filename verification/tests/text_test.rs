use code_scan::namemap::NameMap;
use code_scan::text::{
    char_ascii_lower, compare_str, eq_ignore_ascii_case, insert_sorted_unique, sorted_position,
    starts_with_char, starts_with_str, str_eq, trim_char, Order,
};

#[test]
fn compare_is_by_code_point() {
    assert_eq!(compare_str("a", "b"), Order::Less);
    assert_eq!(compare_str("b", "a"), Order::Greater);
    assert_eq!(compare_str("ab", "ab"), Order::Equal);
    assert_eq!(compare_str("a", "ab"), Order::Less);
    assert_eq!(compare_str("Z", "a"), Order::Less);
    assert_eq!(compare_str("", ""), Order::Equal);
    assert_eq!(compare_str("é", "z"), Order::Greater);
    assert!(str_eq("x.ts", "x.ts"));
    assert!(!str_eq("x.ts", "x.js"));
}

#[test]
fn prefixes_and_case() {
    assert!(starts_with_str("src/a.ts", "src/"));
    assert!(starts_with_str("src", ""));
    assert!(!starts_with_str("sr", "src"));
    assert!(starts_with_char("_tmp", '_'));
    assert!(!starts_with_char("", '_'));
    assert_eq!(char_ascii_lower('Q'), 'q' as u32);
    assert_eq!(char_ascii_lower('é'), 'é' as u32);
    assert!(eq_ignore_ascii_case("TSX", "tsx"));
    assert!(!eq_ignore_ascii_case("É", "é"));
    assert!(!eq_ignore_ascii_case("ts", "tsx"));
}

#[test]
fn trimming_both_ends() {
    assert_eq!(trim_char("//a/b//", '/'), "a/b");
    assert_eq!(trim_char("///", '/'), "");
    assert_eq!(trim_char("", '/'), "");
    assert_eq!(trim_char("x", '/'), "x");
}

#[test]
fn sorted_insertion() {
    let mut v: Vec<String> = Vec::new();
    for s in ["m", "b", "z", "b", "a", "m"] {
        insert_sorted_unique(&mut v, s.to_string());
    }
    assert_eq!(v, vec!["a", "b", "m", "z"]);
    assert_eq!(sorted_position(&v, "b"), (1, true));
    assert_eq!(sorted_position(&v, "c"), (2, false));
    assert_eq!(sorted_position(&v, "zz"), (4, false));
}

#[test]
fn name_map_insert_get_remove() {
    let mut m: NameMap<u32> = NameMap::new();
    assert_eq!(m.len(), 0);
    m.insert("b".into(), 2);
    m.insert("a".into(), 1);
    m.insert("b".into(), 3);
    assert_eq!(m.len(), 2);
    assert_eq!(m.key_list(), &vec!["a".to_string(), "b".to_string()]);
    assert_eq!(m.value_list(), &vec![1, 3]);
    assert_eq!(m.get("b"), Some(&3));
    assert!(m.contains_key("a"));
    assert!(!m.contains_key("c"));
    assert_eq!(m.remove("a"), Some(1));
    assert_eq!(m.remove("a"), None);
    assert_eq!(m.len(), 1);
    assert_eq!(m.get("a"), None);
}
