use kubectl_tail::text::{
    chars_of, contains_str, i64_to_string, join_strings, parse_i64, parse_usize, same,
    split_str, u64_to_string, usize_to_string,
};

fn strings(parts: &[&str]) -> Vec<String> {
    parts.iter().map(|s| s.to_string()).collect()
}

#[test]
fn splitting_keeps_empty_pieces() {
    assert_eq!(split_str("a/b/c", '/'), strings(&["a", "b", "c"]));
    assert_eq!(split_str("abc", '/'), strings(&["abc"]));
    assert_eq!(split_str("", '/'), strings(&[""]));
    assert_eq!(split_str("/", '/'), strings(&["", ""]));
    assert_eq!(split_str("a//b/", '/'), strings(&["a", "", "b", ""]));
    assert_eq!(split_str("é/ü", '/'), strings(&["é", "ü"]));
}

#[test]
fn joining_undoes_splitting() {
    for text in ["a/b/c", "", "/", "a//b/", "plain"] {
        assert_eq!(join_strings(&split_str(text, '/'), "/"), text);
    }
    assert_eq!(join_strings(&strings(&["x", "y", "z"]), ", "), "x, y, z");
    assert_eq!(join_strings(&strings(&["x"]), ", "), "x");
    assert_eq!(join_strings(&[], ", "), "");
}

#[test]
fn numbers_are_written_in_decimal() {
    assert_eq!(u64_to_string(0), "0");
    assert_eq!(u64_to_string(7), "7");
    assert_eq!(u64_to_string(10), "10");
    assert_eq!(u64_to_string(10000), "10000");
    assert_eq!(u64_to_string(u64::MAX), "18446744073709551615");
    assert_eq!(usize_to_string(42), "42");
    assert_eq!(i64_to_string(-1), "-1");
    assert_eq!(i64_to_string(0), "0");
    assert_eq!(i64_to_string(i64::MAX), "9223372036854775807");
    assert_eq!(i64_to_string(i64::MIN), "-9223372036854775808");
}

#[test]
fn numbers_are_read_as_the_standard_library_reads_them() {
    for text in [
        "0", "7", "+7", "-7", "007", "-0", "+0", "9223372036854775807", "9223372036854775808",
        "-9223372036854775808", "-9223372036854775809", "", "+", "-", "--1", "+-1", "1 ", " 1",
        "1e3", "0x10", "٣", "18446744073709551615", "18446744073709551616",
        "99999999999999999999999999",
    ] {
        assert_eq!(parse_i64(text), text.parse::<i64>().ok(), "i64 from {:?}", text);
        assert_eq!(parse_usize(text), text.parse::<usize>().ok(), "usize from {:?}", text);
    }
}

#[test]
fn strings_are_compared_by_their_characters() {
    assert!(same("abc", "abc"));
    assert!(!same("abc", "abd"));
    assert!(!same("abc", "ab"));
    assert!(same("", ""));
    let v = strings(&["east", "west"]);
    assert!(contains_str(&v, "west"));
    assert!(!contains_str(&v, "north"));
}

#[test]
fn characters_are_listed() {
    assert_eq!(chars_of("--tail=5").len(), 8);
    assert_eq!(chars_of("aé"), vec!['a', 'é']);
    assert!(chars_of("").is_empty());
}
