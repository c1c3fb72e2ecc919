use pg_migrate::text::{
    chars_of, contains_text, join, lower, quote_with, replace_text, same_text, signed_text,
    text_less, unsigned_text,
};

#[test]
fn integers_are_decimal_numerals() {
    assert_eq!(signed_text(0), "0");
    assert_eq!(signed_text(7), "7");
    assert_eq!(signed_text(-42), "-42");
    assert_eq!(signed_text(1_000_000), "1000000");
    assert_eq!(signed_text(i64::MIN), "-9223372036854775808");
    assert_eq!(signed_text(i64::MAX), "9223372036854775807");
    assert_eq!(unsigned_text(0), "0");
    assert_eq!(unsigned_text(10), "10");
    assert_eq!(unsigned_text(u64::MAX), "18446744073709551615");
}

#[test]
fn numerals_agree_with_the_standard_library() {
    for v in [-1000i64, -999, -10, -9, -1, 0, 1, 9, 10, 99, 100, 101, 65535, 4_294_967_296] {
        assert_eq!(signed_text(v), v.to_string());
    }
}

#[test]
fn quotes_inside_are_doubled() {
    assert_eq!(quote_with("plain", '\''), "'plain'");
    assert_eq!(quote_with("it's", '\''), "'it''s'");
    assert_eq!(quote_with("''", '\''), "''''''");
    assert_eq!(quote_with("", '\''), "''");
    assert_eq!(quote_with("a\"b", '"'), "\"a\"\"b\"");
    assert_eq!(quote_with("über 'x'", '\''), "'über ''x'''");
}

#[test]
fn parts_are_joined_with_the_separator_between_them() {
    assert_eq!(join(&vec![], ", "), "");
    assert_eq!(join(&vec!["a".to_string()], ", "), "a");
    assert_eq!(join(&vec!["a".to_string(), "b".to_string(), "c".to_string()], ", "), "a, b, c");
    assert_eq!(join(&vec!["".to_string(), "".to_string()], "-"), "-");
}

#[test]
fn a_substring_is_found_wherever_it_stands() {
    assert!(contains_text("nextval('orders_id_seq'::regclass)", "nextval"));
    assert!(contains_text("abc", "c"));
    assert!(contains_text("abc", ""));
    assert!(contains_text("", ""));
    assert!(!contains_text("abc", "abcd"));
    assert!(!contains_text("next_val", "nextval"));
    assert!(!contains_text("", "a"));
}

#[test]
fn replacing_goes_from_left_to_right() {
    assert_eq!(replace_text("aaa", "aa", "b"), "ba");
    assert_eq!(replace_text("abcabc", "bc", ""), "aa");
    assert_eq!(replace_text("abcabc", "abc", "abcabc"), "abcabcabcabc");
    assert_eq!(replace_text("abc", "x", "y"), "abc");
    assert_eq!(replace_text("ab", "abc", "y"), "ab");
    assert_eq!(replace_text("", "a", "b"), "");
}

#[test]
fn replacing_nothing_changes_nothing() {
    assert_eq!(replace_text("abc", "", "x"), "abc");
}

#[test]
fn replacing_agrees_with_the_standard_library() {
    for (hay, from, to) in [
        ("CREATE TABLE \"a\".\"b\" (\n);", "CREATE TABLE \"a\".\"b\"", "CREATE TABLE IF NOT EXISTS \"c\".\"b\""),
        ("xxxx", "xx", "x"),
        ("äöü", "ö", "oe"),
        ("a.b.c", ".", ".."),
    ] {
        assert_eq!(replace_text(hay, from, to), hay.replace(from, to));
    }
}

#[test]
fn texts_are_ordered_as_in_the_dictionary() {
    assert!(text_less("a", "b"));
    assert!(text_less("", "a"));
    assert!(text_less("ab", "abc"));
    assert!(text_less("Z", "a"));
    assert!(text_less("public", "sales"));
    assert!(!text_less("b", "a"));
    assert!(!text_less("abc", "ab"));
    assert!(!text_less("a", "a"));
    assert!(!text_less("", ""));
}

#[test]
fn the_order_of_texts_agrees_with_the_standard_library() {
    let words = ["", "a", "A", "ab", "b", "z", "é", "zz", "日本", "a b", "_x"];
    for a in words {
        for b in words {
            assert_eq!(text_less(a, b), a < b);
            assert_eq!(same_text(a, b), a == b);
        }
    }
}

#[test]
fn the_characters_of_a_text_come_in_order() {
    assert_eq!(chars_of("aé日"), vec!['a', 'é', '日']);
    assert_eq!(chars_of(""), Vec::<char>::new());
}

#[test]
fn lower_case_agrees_with_the_standard_library() {
    for s in ["", "INTEGER", "Timestamp With Time Zone", "already lower", "MiXeD_123-é", "ÀÉÎ", "ΣΑΣ", "K\u{212a}"] {
        assert_eq!(lower(s), s.to_lowercase());
    }
    assert_eq!(lower("Double Precision"), "double precision");
    assert_eq!(lower("[AZ@`{az]"), "[az@`{az]");
}
