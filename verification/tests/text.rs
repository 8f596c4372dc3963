use survey_core::text::{chars_of, push_chars, push_decimal, push_trimmed};

fn decimal(n: u128) -> String {
    let mut s = String::new();
    push_decimal(&mut s, n);
    s
}

fn trimmed(text: &str) -> String {
    let mut s = String::from(">");
    push_trimmed(&mut s, text);
    s
}

#[test]
fn chars_of_a_string_in_order() {
    assert_eq!(chars_of(""), Vec::<char>::new());
    assert_eq!(chars_of("a\u{1F1E6}b"), vec!['a', '\u{1F1E6}', 'b']);
}

#[test]
fn decimal_numbers() {
    assert_eq!(decimal(0), "0");
    assert_eq!(decimal(7), "7");
    assert_eq!(decimal(10), "10");
    assert_eq!(decimal(67), "67");
    assert_eq!(decimal(100), "100");
    assert_eq!(decimal(1_000_000), "1000000");
    assert_eq!(decimal(u64::MAX as u128), "18446744073709551615");
    assert_eq!(decimal(u128::MAX), "340282366920938463463374607431768211455");
}

#[test]
fn decimal_is_appended() {
    let mut s = String::from("n = ");
    push_decimal(&mut s, 42);
    assert_eq!(s, "n = 42");
}

#[test]
fn trimmed_text_loses_the_quotes_at_its_ends_only() {
    assert_eq!(trimmed(""), ">");
    assert_eq!(trimmed("plain"), ">plain");
    assert_eq!(trimmed("\"quoted\""), ">quoted");
    assert_eq!(trimmed("\"\"\"left"), ">left");
    assert_eq!(trimmed("right\"\""), ">right");
    assert_eq!(trimmed("in\"side"), ">in\"side");
    assert_eq!(trimmed("\"\"\""), ">");
    assert_eq!(trimmed("\" spaced \""), "> spaced ");
    assert_eq!(trimmed("'single'"), ">'single'");
}

#[test]
fn part_of_the_characters_is_appended() {
    let from = vec!['a', 'b', 'c', 'd'];
    let mut s = String::from("x");
    push_chars(&mut s, &from, 1, 3);
    assert_eq!(s, "xbc");
    push_chars(&mut s, &from, 2, 2);
    assert_eq!(s, "xbc");
    push_chars(&mut s, &from, 0, 4);
    assert_eq!(s, "xbcabcd");
}
