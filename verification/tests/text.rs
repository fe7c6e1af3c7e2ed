use libgitdit::display::{lines_of_tokens, PlainToken};
use libgitdit::text::chars_of;
use libgitdit::text::glue;
use libgitdit::text::decimal_text;
use libgitdit::text::has_prefix;
use libgitdit::text::has_run;
use libgitdit::text::has_suffix;
use libgitdit::text::indented;
use libgitdit::text::key_char;
use libgitdit::text::parse_integer;
use libgitdit::text::same_text;
use libgitdit::text::split_on;
use libgitdit::text::trimmed;
use libgitdit::text::trimmed_end;
use libgitdit::text::trimmed_start;
use libgitdit::text::whitespace;
use libgitdit::utils::{reversed, ResultIterExt};

#[test]
fn characters_of_keys() {
    for c in ['a', 'z', 'A', 'Z', '0', '9', '-'] {
        assert!(key_char(c), "for {:?}", c);
    }
    for c in ['_', ' ', ':', '=', '.', '/', '@', '[', '`', '{', 'é', 'ß', '٣', '\n'] {
        assert!(!key_char(c), "for {:?}", c);
    }
    for code in 0u32..0x250 {
        let c = char::from_u32(code).unwrap();
        assert_eq!(key_char(c), c.is_ascii_alphanumeric() || c == '-', "for {:?}", c);
    }
}

#[test]
fn white_space_is_what_the_standard_library_takes_for_it() {
    for code in 0u32..0x11_0000 {
        if let Some(c) = char::from_u32(code) {
            assert_eq!(whitespace(c), c.is_whitespace(), "for {:?}", c);
        }
    }
}

#[test]
fn trimming() {
    assert_eq!(trimmed("  a b  "), "a b");
    assert_eq!(trimmed_start("  a b  "), "a b  ");
    assert_eq!(trimmed_end("  a b  "), "  a b");
    assert_eq!(trimmed(" \t\r\n"), "");
    assert_eq!(trimmed(""), "");
    assert_eq!(trimmed("ä"), "ä");
    assert_eq!(trimmed("\u{3000}ä ö\u{a0}"), "ä ö");
}

#[test]
fn pieces_between_separators() {
    for text in ["", "a", "/", "a/b", "/a", "a/", "//", "a//b/", "refs/dit/x/head", "ä/ö"] {
        let expected: Vec<String> = text.split('/').map(String::from).collect();
        assert_eq!(split_on(text, '/'), expected, "for {:?}", text);
    }
    assert_eq!(split_on("upstream,origin,*", ','), vec!["upstream", "origin", "*"]);
}

#[test]
fn starts_ends_and_runs() {
    assert!(has_prefix("Dit-status", "Dit"));
    assert!(has_prefix("Dit", "Dit"));
    assert!(has_prefix("Dit", ""));
    assert!(!has_prefix("Di", "Dit"));
    assert!(!has_prefix("dit-status", "Dit"));
    assert!(has_suffix("refs/x/head", "/head"));
    assert!(has_suffix("head", ""));
    assert!(!has_suffix("head", "/head"));
    assert!(has_run("opened", "pen"));
    assert!(has_run("opened", "opened"));
    assert!(has_run("", ""));
    assert!(!has_run("opened", "opener"));
    assert!(!has_run("", "x"));
    assert!(same_text("a", "a"));
    assert!(!same_text("a", "ab"));
    assert!(!same_text("ab", "ac"));
    assert!(same_text("", ""));
    assert_eq!(glue("foo", "bar"), "foobar");
    assert!(indented(" a"));
    assert!(indented("\ta"));
    assert!(indented("\u{a0}"));
    assert!(!indented("a "));
    assert!(!indented(""));
    assert_eq!(chars_of("aä"), vec!['a', 'ä']);
}

#[test]
fn integers() {
    assert_eq!(parse_integer("123"), Some(123));
    assert_eq!(parse_integer("-123"), Some(-123));
    assert_eq!(parse_integer("+123"), Some(123));
    assert_eq!(parse_integer("123test"), None);
    assert_eq!(parse_integer(""), None);
    assert_eq!(parse_integer("-"), None);
    assert_eq!(parse_integer("9223372036854775807"), Some(i64::MAX));
    assert_eq!(parse_integer("9223372036854775808"), None);
    assert_eq!(parse_integer("-9223372036854775808"), Some(i64::MIN));
    assert_eq!(parse_integer("-9223372036854775809"), None);
    assert_eq!(parse_integer("18446744073709551616"), None);
    assert_eq!(parse_integer("340282366920938463463374607431768211456"), None);
    assert_eq!(decimal_text(0), "0");
    assert_eq!(decimal_text(-7), "-7");
    assert_eq!(decimal_text(1234567890), "1234567890");
    assert_eq!(decimal_text(i64::MAX), "9223372036854775807");
    assert_eq!(decimal_text(i64::MIN), "-9223372036854775808");
    for i in [0i64, 5, -5, 10, 99, 100, -100, 1 << 40, i64::MAX, i64::MIN] {
        assert_eq!(parse_integer(&decimal_text(i)), Some(i));
    }
}

#[test]
fn results_up_to_the_first_failure() {
    let fine: Vec<Result<u8, String>> = vec![Ok(1), Ok(2), Ok(3)];
    assert_eq!(fine.collect_result(), Ok(vec![1, 2, 3]));
    let none: Vec<Result<u8, String>> = Vec::new();
    assert_eq!(none.collect_result(), Ok(Vec::new()));
    let failing: Vec<Result<u8, String>> =
        vec![Ok(1), Err("first".to_string()), Ok(3), Err("second".to_string())];
    assert_eq!(failing.collect_result(), Err("first".to_string()));

    let mut target = vec![0u8];
    let failing: Vec<Result<u8, String>> = vec![Ok(1), Ok(2), Err("x".to_string()), Ok(4)];
    assert_eq!(failing.collect_result_into(&mut target), Err("x".to_string()));
    assert_eq!(target, vec![0, 1, 2]);
    let fine: Vec<Result<u8, String>> = vec![Ok(5)];
    assert_eq!(fine.collect_result_into(&mut target), Ok(()));
    assert_eq!(target, vec![0, 1, 2, 5]);
    assert_eq!(reversed(vec![1, 2, 3]), vec![3, 2, 1]);
    assert!(reversed(Vec::<u8>::new()).is_empty());
}

#[test]
fn tokens_put_together_into_lines() {
    let text = |s: &str| PlainToken::Text(s.to_string());
    let end = || PlainToken::LineEnd;
    assert!(lines_of_tokens(&Vec::new()).is_empty());
    assert_eq!(lines_of_tokens(&vec![end()]), vec![""]);
    assert_eq!(lines_of_tokens(&vec![text("a")]), vec!["a"]);
    assert_eq!(lines_of_tokens(&vec![text("")]), vec![""]);
    assert_eq!(lines_of_tokens(&vec![text("a"), text("b"), end()]), vec!["ab"]);
    assert_eq!(
        lines_of_tokens(&vec![text("a"), end(), end(), text("b"), text(" c"), end(), text("d")]),
        vec!["a", "", "b c", "d"]
    );
    assert_eq!(lines_of_tokens(&vec![end(), end()]), vec!["", ""]);
}
