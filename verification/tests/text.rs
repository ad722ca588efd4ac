use quickswitch::text::{
    chars_of, is_whitespace_char, join_strings, push_decimal, push_decimal_nat, trimmed,
};

#[test]
fn whitespace_agrees_with_the_standard_library() {
    let mut c = '\0';
    loop {
        assert_eq!(is_whitespace_char(c), c.is_whitespace(), "U+{:04X}", c as u32);
        if c == char::MAX {
            break;
        }
        c = match char::from_u32(c as u32 + 1) {
            Some(next) => next,
            None => '\u{E000}',
        };
    }
}

#[test]
fn trimmed_removes_surrounding_whitespace() {
    assert_eq!(trimmed("  hello world \n"), "hello world");
    assert_eq!(trimmed("label\n"), "label");
    assert_eq!(trimmed("\t\r\n x y \u{3000}\u{85}"), "x y");
    assert_eq!(trimmed("inner  space"), "inner  space");
}

#[test]
fn trimmed_of_blank_text_is_empty() {
    assert_eq!(trimmed(""), "");
    assert_eq!(trimmed(" \n\t "), "");
    assert_eq!(trimmed("\u{2003}"), "");
}

#[test]
fn trimmed_agrees_with_the_standard_library() {
    for input in [
        "",
        " ",
        "a",
        " a",
        "a ",
        " a b ",
        "\n\nfoo\tbar\n",
        "\u{a0}nbsp\u{a0}",
        "\u{200b}zero width is kept\u{200b}",
        "\u{1680}\u{2028}x\u{2029}\u{202f}\u{205f}",
        "é ",
    ] {
        assert_eq!(trimmed(input), input.trim());
    }
}

#[test]
fn trimming_twice_changes_nothing() {
    for input in ["  a b  ", "\n", "x", " \u{3000}y z\t"] {
        let once = trimmed(input);
        assert_eq!(trimmed(&once), once);
    }
}

#[test]
fn chars_of_lists_every_character() {
    assert_eq!(chars_of("aé✓"), vec!['a', 'é', '✓']);
    assert!(chars_of("").is_empty());
}

#[test]
fn decimal_of_natural_numbers() {
    for (n, expected) in [
        (0u64, "0"),
        (7, "7"),
        (10, "10"),
        (109, "109"),
        (4294967296, "4294967296"),
        (u64::MAX, "18446744073709551615"),
    ] {
        let mut out = String::new();
        push_decimal_nat(&mut out, n);
        assert_eq!(out, expected);
    }
}

#[test]
fn decimal_of_integers() {
    for (i, expected) in [
        (0i32, "0"),
        (5, "5"),
        (-1, "-1"),
        (-10, "-10"),
        (i32::MAX, "2147483647"),
        (i32::MIN, "-2147483648"),
    ] {
        let mut out = String::new();
        push_decimal(&mut out, i);
        assert_eq!(out, expected);
    }
}

#[test]
fn decimal_is_appended_to_what_is_there() {
    let mut out = String::from("id=");
    push_decimal(&mut out, 42);
    push_decimal(&mut out, -3);
    assert_eq!(out, "id=42-3");
}

#[test]
fn decimal_agrees_with_formatting() {
    let mut i: i32 = i32::MIN;
    loop {
        let mut out = String::new();
        push_decimal(&mut out, i);
        assert_eq!(out, format!("{}", i));
        match i.checked_add(16_777_259) {
            Some(next) => i = next,
            None => break,
        }
    }
}

#[test]
fn join_puts_the_separator_between_parts() {
    let parts = vec!["a".to_string(), "b".to_string(), "c".to_string()];
    assert_eq!(join_strings(&parts, "\n"), "a\nb\nc");
    assert_eq!(join_strings(&parts, ", "), "a, b, c");
    assert_eq!(join_strings(&parts, ""), "abc");
}

#[test]
fn join_of_few_parts() {
    let none: Vec<String> = Vec::new();
    assert_eq!(join_strings(&none, "\n"), "");
    assert_eq!(join_strings(&["only".to_string()], "\n"), "only");
    assert_eq!(join_strings(&["".to_string(), "".to_string()], "-"), "-");
}

#[test]
fn join_agrees_with_the_standard_library() {
    let parts = vec!["x y".to_string(), "".to_string(), "ß".to_string()];
    assert_eq!(join_strings(&parts, "\n"), parts.join("\n"));
}
