use chess_voice_studio::strmap::StrMap;
use chess_voice_studio::text::{
    ascii_lowercase_chars, chars_contain, chars_of, compare_str, decimal_string,
    hex_lower_string, replace_char_with, str_ends_with, str_eq, trim_str, Cmp,
};

#[test]
fn map_reads_back_what_was_written() {
    let mut map: StrMap<u32> = StrMap::new();
    assert!(map.is_empty());
    map.insert(String::from("Bob"), 1);
    map.insert(String::from("Alice"), 0);
    map.insert(String::from("Bob"), 7);
    assert_eq!(map.len(), 2);
    assert_eq!(map.get("Bob"), Some(&7));
    assert_eq!(map.get("Alice"), Some(&0));
    assert_eq!(map.get("Carol"), None);
    assert_eq!(map.key_list(), vec!["Alice", "Bob"]);
    assert_eq!(map.position("Bob"), Some(1));
    assert_eq!(map.key_at(0), "Alice");
    assert_eq!(*map.value_at(1), 7);
}

#[test]
fn map_keeps_keys_sorted() {
    let mut map: StrMap<()> = StrMap::new();
    for key in ["pear", "apple", "fig", "apple", "banana"] {
        map.insert(String::from(key), ());
    }
    assert_eq!(map.key_list(), vec!["apple", "banana", "fig", "pear"]);
    assert!(map.contains_key("fig"));
    let copy = map.duplicate();
    assert_eq!(copy.key_list(), map.key_list());
}

#[test]
fn trimming_removes_unicode_white_space() {
    assert_eq!(trim_str("\u{3000} a b \t\n"), "a b");
    assert_eq!(trim_str("   "), "");
}

#[test]
fn decimal_and_hex_text() {
    assert_eq!(decimal_string(0), "0");
    assert_eq!(decimal_string(904), "904");
    assert_eq!(decimal_string(u128::MAX), u128::MAX.to_string());
    assert_eq!(hex_lower_string(&[0x00, 0x0f, 0xa5, 0xff]), "000fa5ff");
}

#[test]
fn character_replacement_and_suffixes() {
    assert_eq!(replace_char_with("x_low_q", '_', " "), "x low q");
    assert_eq!(replace_char_with("en_US", '_', "-"), "en-US");
    assert!(str_ends_with("voice.onnx.json", ".onnx.json"));
    assert!(!str_ends_with("voice.onnx.json", ".onnx"));
}

#[test]
fn comparison_follows_code_points() {
    assert_eq!(compare_str("Czech", "English"), Cmp::Less);
    assert_eq!(compare_str("amy", "am"), Cmp::Greater);
    assert_eq!(compare_str("Äb", "Ab"), Cmp::Greater);
    assert_eq!(compare_str("same", "same"), Cmp::Equal);
    assert!(str_eq("e4", "e4"));
    assert!(!str_eq("e4", "e5"));
}

#[test]
fn searching_ignores_ascii_case() {
    let hay = ascii_lowercase_chars("English Mega Pack");
    assert!(chars_contain(&hay, &chars_of("mega")));
    assert!(!chars_contain(&hay, &chars_of("Mega")));
    assert!(chars_contain(&hay, &chars_of("")));
}
