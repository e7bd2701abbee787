use zhtta::text::{chars_of, contains_char, decimal, find, parse_isize, parse_usize, split};

#[test]
fn a_text_is_cut_at_every_separator() {
    assert_eq!(split("a.b..c", '.'), vec!["a", "b", "", "c"]);
    assert_eq!(split("", '.'), vec![""]);
    assert_eq!(split("abc", '.'), vec!["abc"]);
    assert_eq!(split(".", '.'), vec!["", ""]);
    assert_eq!(split("é è ê", ' '), vec!["é", "è", "ê"]);
}

#[test]
fn the_first_occurrence_is_found() {
    assert_eq!(find("abcabc", "bc"), Some(1));
    assert_eq!(find("abc", "abc"), Some(0));
    assert_eq!(find("ab", "abc"), None);
    assert_eq!(find("aab", "ab"), Some(1));
    assert_eq!(find("abc", ""), Some(0));
    assert_eq!(find("", ""), Some(0));
    assert_eq!(find("éé-", "-"), Some(2));
    assert_eq!(find("abc", "x"), None);
}

#[test]
fn characters_are_taken_in_order() {
    assert_eq!(chars_of("aé\0"), vec!['a', 'é', '\0']);
}

#[test]
fn numbers_are_written_in_decimal() {
    assert_eq!(decimal(0), "0");
    assert_eq!(decimal(9), "9");
    assert_eq!(decimal(10), "10");
    assert_eq!(decimal(4414), "4414");
    assert_eq!(decimal(1000000), "1000000");
    assert_eq!(decimal(usize::MAX), usize::MAX.to_string());
}

#[test]
fn unsigned_numbers_are_read() {
    assert_eq!(parse_usize("0"), Some(0));
    assert_eq!(parse_usize("4414"), Some(4414));
    assert_eq!(parse_usize("+12"), Some(12));
    assert_eq!(parse_usize("007"), Some(7));
    assert_eq!(parse_usize(""), None);
    assert_eq!(parse_usize("+"), None);
    assert_eq!(parse_usize("-1"), None);
    assert_eq!(parse_usize("1x"), None);
    assert_eq!(parse_usize(" 1"), None);
    assert_eq!(parse_usize("++1"), None);
    assert_eq!(parse_usize(&usize::MAX.to_string()), Some(usize::MAX));
    assert_eq!(parse_usize("340282366920938463463374607431768211456"), None);
    assert_eq!(parse_usize("18446744073709551616"), None);
}

#[test]
fn signed_numbers_are_read() {
    assert_eq!(parse_isize("8"), Some(8));
    assert_eq!(parse_isize("-3"), Some(-3));
    assert_eq!(parse_isize("+3"), Some(3));
    assert_eq!(parse_isize("-"), None);
    assert_eq!(parse_isize("-+1"), None);
    assert_eq!(parse_isize(&isize::MIN.to_string()), Some(isize::MIN));
    assert_eq!(parse_isize(&isize::MAX.to_string()), Some(isize::MAX));
    assert_eq!(parse_isize("9223372036854775808"), None);
    assert_eq!(parse_isize("-9223372036854775809"), None);
}

#[test]
fn a_written_number_is_read_back() {
    assert_eq!(parse_usize(&decimal(1234567890)), Some(1234567890));
    assert_eq!(parse_isize(&decimal(77)), Some(77));
}

#[test]
fn characters_are_looked_for() {
    assert!(contains_char("a.b", '.'));
    assert!(!contains_char("ab", '.'));
    assert!(!contains_char("", '.'));
}
