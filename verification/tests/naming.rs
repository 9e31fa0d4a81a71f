use rustnum::digits::{format_counter, parse_counter};
use rustnum::naming::{directory_name, first_segment, initial_number, root_name};

#[test]
fn counter_is_read_from_digits() {
    assert_eq!(parse_counter("00042"), Some(42));
    assert_eq!(parse_counter("0"), Some(0));
    assert_eq!(parse_counter("7"), Some(7));
    assert_eq!(parse_counter("9223372036854775807"), Some(i64::MAX));
}

#[test]
fn counter_is_refused() {
    assert_eq!(parse_counter(""), None);
    assert_eq!(parse_counter("abc"), None);
    assert_eq!(parse_counter("12a"), None);
    assert_eq!(parse_counter(" 12"), None);
    assert_eq!(parse_counter("-5"), None);
    assert_eq!(parse_counter("+"), None);
    assert_eq!(parse_counter("-"), None);
    assert_eq!(parse_counter("9223372036854775808"), None);
    assert_eq!(parse_counter("99999999999999999999999"), None);
}

#[test]
fn counter_may_carry_a_sign() {
    assert_eq!(parse_counter("+5"), Some(5));
    assert_eq!(parse_counter("-0"), Some(0));
    assert_eq!(parse_counter("-000"), Some(0));
}

#[test]
fn counter_is_written_in_five_digits() {
    assert_eq!(format_counter(0), "00000");
    assert_eq!(format_counter(7), "00007");
    assert_eq!(format_counter(42), "00042");
    assert_eq!(format_counter(99999), "99999");
}

#[test]
fn large_counter_is_written_in_full() {
    assert_eq!(format_counter(100000), "100000");
    assert_eq!(format_counter(1234567), "1234567");
    assert_eq!(format_counter(i64::MAX), "9223372036854775807");
}

#[test]
fn negative_counter_keeps_its_sign_in_the_field() {
    assert_eq!(format_counter(-7), "-0007");
    assert_eq!(format_counter(-12345), "-12345");
    assert_eq!(format_counter(i64::MIN), "-9223372036854775808");
}

#[test]
fn written_counter_matches_the_standard_format() {
    let samples: [i64; 12] =
        [0, 1, 9, 10, 99, 100, 9999, 10000, 99999, 100000, -1, -9999];
    for n in samples {
        assert_eq!(format_counter(n), format!("{:05}", n));
    }
}

#[test]
fn leading_segment_ends_at_the_first_underscore() {
    assert_eq!(first_segment("00007_project"), "00007");
    assert_eq!(first_segment("00007_my_project"), "00007");
    assert_eq!(first_segment("_x"), "");
    assert_eq!(first_segment("plain"), "plain");
    assert_eq!(first_segment(""), "");
}

#[test]
fn initial_number_of_a_numbered_root() {
    assert_eq!(initial_number("00007_project"), Some(7));
    assert_eq!(initial_number("00042_myproject"), Some(42));
    assert_eq!(initial_number("0_"), Some(0));
    assert_eq!(initial_number("12_a_b_c"), Some(12));
}

#[test]
fn initial_number_is_refused() {
    assert_eq!(initial_number("project"), None);
    assert_eq!(initial_number("project_7"), None);
    assert_eq!(initial_number("_7"), None);
    assert_eq!(initial_number(""), None);
    assert_eq!(initial_number("7a_x"), None);
}

#[test]
fn initial_number_of_a_bare_numeral() {
    assert_eq!(initial_number("123"), Some(123));
}

#[test]
fn directory_name_joins_counter_and_text() {
    assert_eq!(directory_name(7, "api"), "00007_api");
    assert_eq!(directory_name(1, "alpha"), "00001_alpha");
    assert_eq!(directory_name(100000, "big"), "100000_big");
    assert_eq!(directory_name(3, ""), "00003_");
    assert_eq!(directory_name(3, " a b "), "00003_ a b ");
}

#[test]
fn directory_name_is_read_back() {
    let samples: [i64; 6] = [0, 1, 42, 99999, 100000, i64::MAX];
    for n in samples {
        assert_eq!(initial_number(&directory_name(n, "x_y")), Some(n));
    }
}

#[test]
fn root_name_is_the_last_component() {
    assert_eq!(root_name("/home/user/00042_myproject"), Some("00042_myproject".to_string()));
    assert_eq!(root_name("/tmp/a/"), Some("a".to_string()));
    assert_eq!(root_name("relative"), Some("relative".to_string()));
    assert_eq!(root_name("a/b"), Some("b".to_string()));
    assert_eq!(root_name("/a/..b"), Some("..b".to_string()));
    assert_eq!(root_name("/a/.b"), Some(".b".to_string()));
}

#[test]
fn root_name_is_missing() {
    assert_eq!(root_name("/"), None);
    assert_eq!(root_name("//"), None);
    assert_eq!(root_name(""), None);
    assert_eq!(root_name("/a/.."), None);
    assert_eq!(root_name(".."), None);
    assert_eq!(root_name("."), None);
    assert_eq!(root_name("/a/./"), None);
}
