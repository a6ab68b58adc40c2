//! Texts, numbers, paths and JSON values.
use asteria_agent::hashing::hash_text;
use asteria_agent::json::{compact, parse, pretty, Json};
use asteria_agent::namemap::NameMap;
use asteria_agent::paths::{
    file_name, is_absolute, join_path, order_texts, relative_to, same_path, split_extension, within,
    Order,
};
use asteria_agent::text::chars::{
    member, same_ignoring_case, skip_chars, take_chars, utf8_len,
};
use asteria_agent::text::number::{decimal, hexadecimal, parse_number};
use asteria_agent::text::pieces::{is_blank, lines, trim, words};
use asteria_agent::text::search::{
    contains, find, join, replace, replace_first, split, split_once, strip_prefix, strip_suffix,
};
use asteria_agent::tokens::{estimate, fit_text_prefix};

fn list(items: &[&str]) -> Vec<String> {
    items.iter().map(|item| item.to_string()).collect()
}

#[test]
fn texts_are_split_and_joined() {
    assert_eq!(lines("a\r\nb\n\nc"), list(&["a", "b", "", "c"]));
    assert_eq!(lines("a\n"), list(&["a"]));
    assert_eq!(words("  a\tb　c "), list(&["a", "b", "c"]));
    assert_eq!(split("a,b,,c", ","), list(&["a", "b", "", "c"]));
    assert_eq!(join(&list(&["a", "b"]), ", "), "a, b");
    assert_eq!(split_once("k=v=w", "="), Some(("k".to_string(), "v=w".to_string())));
    assert_eq!(trim(" \n a b \t"), "a b");
    assert!(is_blank(" \u{3000}\n"));
}

#[test]
fn texts_are_searched_and_replaced() {
    assert_eq!(find("中文abc", "abc"), Some(2));
    assert!(contains("abc", ""));
    assert_eq!(replace("aaa", "aa", "b"), "ba");
    assert_eq!(replace_first("a__b__c", "__", "."), "a.b__c");
    assert_eq!(strip_prefix("mcp__x", "mcp__"), Some("x".to_string()));
    assert_eq!(strip_suffix("a.md", ".txt"), None);
    assert_eq!(take_chars("你好世界", 2), "你好");
    assert_eq!(skip_chars("你好世界", 2), "世界");
    assert_eq!(utf8_len("你a"), 4);
    assert!(same_ignoring_case("Bearer", "bEARER"));
    assert!(member(&list(&["a"]), "a"));
}

#[test]
fn numbers_are_written_and_read() {
    assert_eq!(decimal(0), "0");
    assert_eq!(decimal(u128::MAX), u128::MAX.to_string());
    assert_eq!(hexadecimal(255, 4), "00ff");
    assert_eq!(parse_number("007", 10), Some(7));
    assert_eq!(parse_number("+7", 10), Some(7));
    assert_eq!(parse_number("11", 10), None);
    assert_eq!(parse_number("", 10), None);
    assert_eq!(parse_number("1a", 100), None);
    assert_eq!(hash_text("a"), 0xaf63dc4c8601ec8c);
}

#[test]
fn tokens_are_estimated_by_script() {
    assert_eq!(estimate(""), 0);
    assert!(estimate("中文") > estimate("ab"));
    let cut = fit_text_prefix(&"中".repeat(50), 10);
    assert!(estimate(&cut) <= 10);
    assert!(cut.chars().count() > 0);
}

#[test]
fn paths_follow_their_components() {
    assert_eq!(join_path("/a", "b/c"), "/a/b/c");
    assert_eq!(join_path("/a", "/b"), "/b");
    assert!(is_absolute("/a"));
    assert!(!is_absolute("a"));
    assert!(within("/a/b/c", "/a/b"));
    assert!(!within("/a/bc", "/a/b"));
    assert_eq!(relative_to("/a/b/c", "/a"), "b/c");
    assert!(same_path("/a//b/", "/a/b"));
    assert_eq!(file_name("/a/b.md"), Some("b.md".to_string()));
    assert_eq!(file_name("/"), None);
    assert_eq!(split_extension("b.tar.gz").0, "b.tar");
    assert_eq!(order_texts("a", "b"), Order::Less);
    assert_eq!(order_texts("b", "b"), Order::Equal);
}

#[test]
fn json_is_read_and_written() {
    let value = parse(r#"{"b":[1,-2,1.5,null,true,"x"],"a":{}}"#).unwrap();
    assert_eq!(compact(&value), r#"{"a":{},"b":[1,-2,1.5,null,true,"x"]}"#);
    assert_eq!(value.get("b").unwrap().as_array().unwrap()[0], Json::Unsigned(1));
    assert_eq!(value.get("b").unwrap().as_array().unwrap()[1], Json::Signed(-2));
    assert_eq!(parse("[1]").unwrap(), Json::array(vec![Json::Unsigned(1)]));
    assert_eq!(pretty(&parse(r#"{"a":1}"#).unwrap()), "{\n  \"a\": 1\n}");
    assert!(parse("{").unwrap_err().contains("EOF"));
    assert_eq!(value.copy(), value);
}

#[test]
fn names_are_mapped() {
    let mut map = NameMap::new();
    map.insert("a".into(), "1".into());
    map.insert("a".into(), "2".into());
    assert_eq!(map.remove("a"), Some("2".to_string()));
    assert_eq!(map.remove("a"), None);
    map.insert("b".into(), "1".into());
    map.clear();
    assert_eq!(map.remove("b"), None);
}
