use commit_chain::decimal::push_decimal;

#[test]
fn zero_is_one_digit() {
    let mut text = String::new();
    push_decimal(&mut text, 0);
    assert_eq!(text, "0");
}

#[test]
fn single_digits() {
    for (n, expected) in ["0", "1", "2", "3", "4", "5", "6", "7", "8", "9"].iter().enumerate() {
        let mut text = String::new();
        push_decimal(&mut text, n);
        assert_eq!(text, *expected);
    }
}

#[test]
fn several_digits_most_significant_first() {
    let mut text = String::new();
    push_decimal(&mut text, 10);
    assert_eq!(text, "10");
    let mut text = String::new();
    push_decimal(&mut text, 12345);
    assert_eq!(text, "12345");
    let mut text = String::new();
    push_decimal(&mut text, 9070);
    assert_eq!(text, "9070");
}

#[test]
fn digits_go_behind_what_is_there() {
    let mut text = String::from("n = ");
    push_decimal(&mut text, 42);
    assert_eq!(text, "n = 42");
    push_decimal(&mut text, 7);
    assert_eq!(text, "n = 427");
}

#[test]
fn agrees_with_the_standard_formatting() {
    for n in [0usize, 9, 10, 99, 100, 101, 65535, 1_000_000, usize::MAX / 10, usize::MAX] {
        let mut text = String::new();
        push_decimal(&mut text, n);
        assert_eq!(text, n.to_string());
    }
}
