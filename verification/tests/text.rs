use piwifi::text::{
    chars_of, comes_before, contains_part, cut, decimal_chars, parse_decimal, same_text,
    split_chars, split_fields, split_lines, string_of, strip_prefix, to_lower, to_upper, trim,
    trim_end,
};

fn c(s: &str) -> Vec<char> {
    s.chars().collect()
}

fn rows(v: Vec<Vec<char>>) -> Vec<String> {
    v.into_iter().map(|r| r.into_iter().collect()).collect()
}

#[test]
fn chars_and_strings_convert() {
    assert_eq!(chars_of("héllo"), c("héllo"));
    assert_eq!(string_of(&c("héllo")), "héllo");
    assert!(same_text("a", "a"));
    assert!(!same_text("a", "ab"));
}

#[test]
fn case_mapping_touches_ascii_letters_only() {
    assert_eq!(to_upper(&c("aZ09:-é")), c("AZ09:-é"));
    assert_eq!(to_lower(&c("aZ09:-É")), c("az09:-É"));
}

#[test]
fn split_keeps_empty_pieces() {
    assert_eq!(rows(split_chars(&c("a,b,,c"), ',')), vec!["a", "b", "", "c"]);
    assert_eq!(rows(split_chars(&c(""), ',')), vec![""]);
    assert_eq!(rows(split_chars(&c(","), ',')), vec!["", ""]);
    assert_eq!(rows(split_chars(&c("abc"), ',')), vec!["abc"]);
}

#[test]
fn lines_end_with_a_line_feed() {
    assert_eq!(rows(split_lines(&c("a\nb\r\nc"))), vec!["a", "b", "c"]);
    assert_eq!(rows(split_lines(&c("a\n\nb\n"))), vec!["a", "", "b"]);
    assert_eq!(rows(split_lines(&c("a\r"))), vec!["a\r"]);
    assert_eq!(rows(split_lines(&c("\r\n"))), vec![""]);
    assert!(split_lines(&c("")).is_empty());
    for text in ["", "x", "x\n", "\n\nx", "a\r\n\rb\n", "a\r\r\n"] {
        let want: Vec<String> = text.lines().map(|l| l.to_string()).collect();
        assert_eq!(rows(split_lines(&c(text))), want, "{:?}", text);
    }
}

#[test]
fn fields_are_what_white_space_separates() {
    for text in ["", "  ", "a", " a  b\tc\n", "a\u{a0}b", "x  "] {
        let want: Vec<String> = text.split_whitespace().map(|l| l.to_string()).collect();
        assert_eq!(rows(split_fields(&c(text))), want, "{:?}", text);
    }
}

#[test]
fn trimming_takes_white_space_off_the_ends() {
    for text in ["", "  ", " a b ", "\t\r\nx\u{2003}", "x", "\u{85}x\u{3000}"] {
        assert_eq!(string_of(&trim(&c(text))), text.trim(), "{:?}", text);
        assert_eq!(string_of(&trim_end(&c(text))), text.trim_end(), "{:?}", text);
    }
}

#[test]
fn decimal_numbers_are_written_and_read() {
    for n in [0u64, 7, 10, 99, 100, 65535, u64::MAX] {
        let text = decimal_chars(n);
        assert_eq!(string_of(&text), n.to_string());
        assert_eq!(parse_decimal(&text, u64::MAX), Some(n));
    }
    assert_eq!(parse_decimal(&c("255"), 255), Some(255));
    assert_eq!(parse_decimal(&c("256"), 255), None);
    assert_eq!(parse_decimal(&c("18446744073709551616"), u64::MAX), None);
    assert_eq!(parse_decimal(&c("99999999999999999999999"), u64::MAX), None);
    assert_eq!(parse_decimal(&c("000000000000000000000012"), 12), Some(12));
    assert_eq!(parse_decimal(&c("+5"), 9), Some(5));
    assert_eq!(parse_decimal(&c("++5"), 9), None);
    assert_eq!(parse_decimal(&c("5 "), 9), None);
    assert_eq!(parse_decimal(&c("5"), 0), None);
    assert_eq!(parse_decimal(&c("0"), 0), Some(0));
}

#[test]
fn prefixes_parts_and_cuts() {
    assert_eq!(strip_prefix(&c("server=1.1.1.1"), "server="), Some(c("1.1.1.1")));
    assert_eq!(strip_prefix(&c("server="), "server="), Some(c("")));
    assert_eq!(strip_prefix(&c("serve"), "server="), None);
    assert_eq!(strip_prefix(&c("x"), ""), Some(c("x")));
    assert!(contains_part(&c("hello world"), &c("lo w")));
    assert!(contains_part(&c("hello"), &c("")));
    assert!(contains_part(&c(""), &c("")));
    assert!(contains_part(&c("hello"), &c("hello")));
    assert!(!contains_part(&c("hello"), &c("hello!")));
    assert!(!contains_part(&c("aab"), &c("aba")));
    assert_eq!(cut(&c("a b c"), ' '), Some((c("a"), c("b c"))));
    assert_eq!(cut(&c("abc"), ' '), None);
    assert_eq!(cut(&c(" "), ' '), Some((c(""), c(""))));
}

#[test]
fn dictionary_order_is_that_of_strings() {
    let words = ["", "a", "ab", "abc", "b", "B", "aa", "é", "net10", "net9"];
    for x in words {
        for y in words {
            assert_eq!(comes_before(&c(x), &c(y)), x < y, "{:?} {:?}", x, y);
        }
    }
}
