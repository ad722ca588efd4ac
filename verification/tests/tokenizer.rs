use quickswitch::text::join_strings;
use quickswitch::tokenizer::{split_exec_args, tokenize, TokenizeError};

fn owned(parts: &[&str]) -> Vec<String> {
    parts.iter().map(|s| s.to_string()).collect()
}

fn all_tokens(command: &str) -> Vec<String> {
    let (program, args) = split_exec_args(command);
    let mut all = vec![program];
    all.extend(args);
    all
}

#[test]
fn splits_quoted_argument() {
    let (program, args) = split_exec_args("foo \"bar baz\" qux");
    assert_eq!(program, "foo");
    assert_eq!(args, owned(&["bar baz", "qux"]));
}

#[test]
fn keeps_escaped_space() {
    let (program, args) = split_exec_args("a\\ b c");
    assert_eq!(program, "a b");
    assert_eq!(args, owned(&["c"]));
}

#[test]
fn other_quote_is_literal_inside_quotes() {
    let (program, args) = split_exec_args("a 'b\"c' d");
    assert_eq!(program, "a");
    assert_eq!(args, owned(&["b\"c", "d"]));
}

#[test]
fn splits_default_picker_command() {
    let (program, args) = split_exec_args("dmenu -b -i -l 20");
    assert_eq!(program, "dmenu");
    assert_eq!(args, owned(&["-b", "-i", "-l", "20"]));
}

#[test]
fn single_word_has_no_arguments() {
    let (program, args) = split_exec_args("rofi");
    assert_eq!(program, "rofi");
    assert!(args.is_empty());
}

#[test]
fn consecutive_spaces_give_empty_tokens() {
    assert_eq!(all_tokens("a  b"), owned(&["a", "", "b"]));
    assert_eq!(all_tokens("a   b"), owned(&["a", "", "", "b"]));
}

#[test]
fn leading_and_trailing_space_give_empty_tokens() {
    assert_eq!(all_tokens(" a"), owned(&["", "a"]));
    assert_eq!(all_tokens("a "), owned(&["a", ""]));
    assert_eq!(all_tokens(" "), owned(&["", ""]));
}

#[test]
fn unterminated_quote_still_gives_its_token() {
    assert_eq!(all_tokens("foo \"bar baz"), owned(&["foo", "bar baz"]));
    assert_eq!(all_tokens("foo 'bar"), owned(&["foo", "bar"]));
    assert_eq!(all_tokens("\""), owned(&[""]));
}

#[test]
fn quotes_do_not_split_a_token() {
    assert_eq!(all_tokens("a\"b c\"d e"), owned(&["ab cd", "e"]));
    assert_eq!(all_tokens("x '' y"), owned(&["x", "", "y"]));
    assert_eq!(all_tokens("'a'\"b\""), owned(&["ab"]));
}

#[test]
fn backslash_is_literal_inside_quotes() {
    assert_eq!(all_tokens("\"a\\b\" c"), owned(&["a\\b", "c"]));
    assert_eq!(all_tokens("'a\\' b"), owned(&["a\\", "b"]));
}

#[test]
fn backslash_escapes_quotes_and_itself() {
    assert_eq!(all_tokens("a\\\"b c"), owned(&["a\"b", "c"]));
    assert_eq!(all_tokens("a\\'b"), owned(&["a'b"]));
    assert_eq!(all_tokens("a\\\\b"), owned(&["a\\b"]));
    assert_eq!(all_tokens("\\x"), owned(&["x"]));
}

#[test]
fn trailing_backslash_is_dropped() {
    assert_eq!(all_tokens("ab\\"), owned(&["ab"]));
    assert_eq!(all_tokens("a b\\"), owned(&["a", "b"]));
}

#[test]
fn only_the_space_character_separates() {
    assert_eq!(all_tokens("a\tb\nc"), owned(&["a\tb\nc"]));
}

#[test]
fn non_ascii_characters_are_kept() {
    assert_eq!(all_tokens("menü 'größe 1' ✓"), owned(&["menü", "größe 1", "✓"]));
}

#[test]
fn plain_tokens_joined_with_spaces_give_the_input() {
    for input in ["dmenu -b -i -l 20", "a  b ", " ", "x", "  lead", "tab\tstays"] {
        let tokens = all_tokens(input);
        assert_eq!(join_strings(&tokens, " "), input);
        assert!(tokens.iter().all(|t| !t.contains(' ')));
    }
}

#[test]
fn space_separates_two_commands_at_rest() {
    let left = "a 'b c'";
    let right = "d\\ e \"f\"";
    let whole = format!("{} {}", left, right);
    let mut expected = all_tokens(left);
    expected.extend(all_tokens(right));
    assert_eq!(all_tokens(&whole), expected);
}

#[test]
fn tokenize_rejects_the_empty_command() {
    assert_eq!(tokenize(""), Err(TokenizeError::EmptyCommand));
}

#[test]
fn tokenize_agrees_with_split_exec_args() {
    for input in ["dmenu -b -i -l 20", "foo \"bar baz\" qux", " ", "a\\ b c"] {
        assert_eq!(tokenize(input), Ok(split_exec_args(input)));
    }
}
