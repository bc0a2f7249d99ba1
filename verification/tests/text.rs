use zenithds::text::{
    chars_of, contains_chars, decimal_string, enclosed, is_less, matches_at, parse_usize, prefixed,
    same_text,
};

fn chars(s: &str) -> Vec<char> {
    s.chars().collect()
}

#[test]
fn chars_of_lists_the_characters() {
    assert_eq!(chars_of(""), chars(""));
    assert_eq!(chars_of("a€b"), vec!['a', '€', 'b']);
}

#[test]
fn is_less_is_the_order_of_strings() {
    let words = ["", "a", "ab", "abc", "abd", "b", "B", "é", "€", "z", "10", "9"];
    for a in words {
        for b in words {
            assert_eq!(is_less(&chars(a), &chars(b)), a < b, "{a:?} < {b:?}");
        }
    }
}

#[test]
fn contains_chars_is_substring_search() {
    let words = ["", "a", "ab", "ba", "aab", "abab", "bab", "é", "aéb", "éb"];
    for hay in words {
        for needle in words {
            assert_eq!(
                contains_chars(&chars(hay), &chars(needle)),
                hay.contains(needle),
                "{hay:?} contains {needle:?}"
            );
        }
    }
    assert!(matches_at(&chars("abcd"), &chars("cd"), 2));
    assert!(!matches_at(&chars("abcd"), &chars("cd"), 1));
    assert!(matches_at(&chars("abcd"), &chars(""), 4));
    assert!(!matches_at(&chars("abcd"), &chars(""), 5));
    assert!(!matches_at(&chars("abcd"), &chars("cd"), 3));
    assert!(!matches_at(&chars("abcd"), &chars("d"), usize::MAX));
    assert!(!matches_at(&chars("ab"), &chars("abc"), 0));
}

#[test]
fn decimal_string_writes_numbers() {
    for n in [0, 1, 9, 10, 11, 99, 100, 101, 8750, 1234567890, usize::MAX - 1, usize::MAX] {
        assert_eq!(decimal_string(n), n.to_string());
    }
    assert_eq!(decimal_string(0), "0");
    assert_eq!(decimal_string(1203), "1203");
}

#[test]
fn parse_usize_reads_numbers_as_the_standard_library_does() {
    let max = usize::MAX.to_string();
    let over = format!("{}0", usize::MAX);
    let plus = format!("+{}", usize::MAX);
    let cases = [
        "0", "7", "+7", "007", "+0", "", "+", "-", "-7", "++7", "+-7", "7+", " 7", "7 ", "7a", "a7",
        "1e3", "１２", "4294967295", "4294967296", "18446744073709551615",
        "18446744073709551616", "18446744073709551625", "000000000000000000000000000001",
        max.as_str(), over.as_str(), plus.as_str(),
    ];
    for s in cases {
        assert_eq!(parse_usize(s), s.parse::<usize>().ok(), "{s:?}");
    }
    assert_eq!(parse_usize("+42"), Some(42));
    assert_eq!(parse_usize("4 2"), None);
}

#[test]
fn strings_are_joined_and_compared() {
    assert_eq!(prefixed("ab", "cd"), "abcd");
    assert_eq!(prefixed("", ""), "");
    assert_eq!(enclosed("'", "x", "'"), "'x'");
    assert!(same_text("abc", "abc"));
    assert!(!same_text("abc", "abd"));
    assert!(!same_text("abc", "ab"));
}
