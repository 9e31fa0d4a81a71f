use rustnum::input::{is_sentinel, trim, whitespace};
use rustnum::utils::get_input;

#[test]
fn whitespace_agrees_with_the_standard_library() {
    let mut code: u32 = 0;
    while code <= 0x3100 {
        if let Some(c) = char::from_u32(code) {
            assert_eq!(whitespace(c), c.is_whitespace(), "code point {:#x}", code);
        }
        code += 1;
    }
    assert!(!whitespace('\u{180E}'));
    assert!(!whitespace('\u{200B}'));
    assert!(!whitespace('\u{FEFF}'));
    assert!(!whitespace('\u{10FFFF}'));
}

#[test]
fn trim_takes_white_space_off_both_ends() {
    assert_eq!(trim("  api  "), "api");
    assert_eq!(trim("api\n"), "api");
    assert_eq!(trim("\t api\r\n"), "api");
    assert_eq!(trim("a b"), "a b");
    assert_eq!(trim("  a  b  "), "a  b");
    assert_eq!(trim(""), "");
    assert_eq!(trim("   "), "");
    assert_eq!(trim("\u{3000}名前\u{00A0}"), "名前");
}

#[test]
fn trim_agrees_with_the_standard_library() {
    let samples = [
        "", " ", "x", " x", "x ", " x ", "\n\n", "a\tb", "\u{2003}wide\u{2003}", " é ", "\r\nexit\r\n",
        "\u{0085}next line\u{0085}", "\u{200B}zero width\u{200B}",
    ];
    for s in samples {
        assert_eq!(trim(s), s.trim());
    }
}

#[test]
fn trim_twice_is_trim_once() {
    let samples = ["  a ", "\texit\n", "   ", "a b "];
    for s in samples {
        assert_eq!(trim(trim(s)), trim(s));
    }
}

#[test]
fn sentinel_is_recognised() {
    assert!(is_sentinel("exit"));
    assert!(is_sentinel("exit\n"));
    assert!(is_sentinel("  exit  "));
    assert!(is_sentinel("\texit\r\n"));
}

#[test]
fn sentinel_is_case_sensitive_and_whole() {
    assert!(!is_sentinel("Exit"));
    assert!(!is_sentinel("EXIT"));
    assert!(!is_sentinel("exit now"));
    assert!(!is_sentinel("exi"));
    assert!(!is_sentinel("exits"));
    assert!(!is_sentinel("e xit"));
    assert!(!is_sentinel(""));
    assert!(!is_sentinel("quit"));
}

#[test]
fn get_input_hands_back_the_trimmed_line() {
    assert_eq!(get_input("alpha\n"), "alpha");
    assert_eq!(get_input("  my project \r\n"), "my project");
    assert_eq!(get_input("\n"), "");
    assert_eq!(get_input("exit\n"), "exit");
}
