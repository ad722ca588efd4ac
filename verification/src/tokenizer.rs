//! Splitting a picker invocation string into a program name and arguments.
//!
//! The grammar is a small subset of shell quoting: unquoted spaces separate
//! tokens, single and double quotes group characters, and a backslash
//! outside quotes makes the next character literal.

use crate::text::{join, texts};
use vstd::prelude::*;

verus! {

/// The picker invocation used when none is given.
pub const DEFAULT_PICKER_COMMAND: &'static str = "dmenu -b -i -l 20";

/// State of the scanner after some prefix of the input.
pub struct Scan {
    /// Tokens already closed by a separator.
    pub done: Seq<Seq<char>>,
    /// Characters of the token being accumulated.
    pub buf: Seq<char>,
    /// The quote character that opened the current quoted span, if any.
    pub quote: Option<char>,
    /// Whether the previous character was an unquoted backslash.
    pub escaped: bool,
}

/// The state before any character has been read.
pub open spec fn scan_start() -> Scan {
    Scan { done: Seq::empty(), buf: Seq::empty(), quote: None, escaped: false }
}

/// Whether `c` opens (or closes) a quoted span.
pub open spec fn is_quote(c: char) -> bool {
    c == '"' || c == '\''
}

/// The effect of reading one character.
pub open spec fn scan_step(s: Scan, c: char) -> Scan {
    if s.escaped {
        Scan { buf: s.buf.push(c), escaped: false, ..s }
    } else {
        match s.quote {
            Some(q) => if c == q {
                Scan { quote: None, ..s }
            } else {
                Scan { buf: s.buf.push(c), ..s }
            },
            None => if c == ' ' {
                Scan { done: s.done.push(s.buf), buf: Seq::empty(), ..s }
            } else if is_quote(c) {
                Scan { quote: Some(c), ..s }
            } else if c == '\\' {
                Scan { escaped: true, ..s }
            } else {
                Scan { buf: s.buf.push(c), ..s }
            },
        }
    }
}

/// The state after reading all of `input`, left to right.
pub open spec fn scan(input: Seq<char>) -> Scan
    decreases input.len(),
{
    if input.len() == 0 {
        scan_start()
    } else {
        scan_step(scan(input.drop_last()), input.last())
    }
}

/// The tokens of `input`: every token closed by a separator, followed by
/// whatever was accumulated when the input ended. A quoted span left open
/// at the end of the input still contributes its characters.
pub open spec fn tokens(input: Seq<char>) -> Seq<Seq<char>> {
    scan(input).done.push(scan(input).buf)
}

/// Splits `command` into its program name and its arguments.
///
/// The empty command has no program name and is excluded.
pub fn split_exec_args(command: &str) -> (res: (String, Vec<String>))
    requires
        command@.len() > 0,
    ensures
        res.0@ == tokens(command@).first(),
        texts(res.1@) == tokens(command@).drop_first(),
{
    let mut done: Vec<String> = Vec::new();
    let mut buf = String::new();
    let mut quote: Option<char> = None;
    let mut escaped = false;
    for c in it: command.chars()
        invariant
            it.seq() == command@,
            scan(command@.take(it.index() as int)).done == texts(done@),
            scan(command@.take(it.index() as int)).buf == buf@,
            scan(command@.take(it.index() as int)).quote == quote,
            scan(command@.take(it.index() as int)).escaped == escaped,
    {
        proof {
            let i = it.index() as int;
            assert(command@.take(i + 1).drop_last() =~= command@.take(i));
        }
        if escaped {
            buf.push(c);
            escaped = false;
        } else {
            match quote {
                Some(q) => {
                    if c == q {
                        quote = None;
                    } else {
                        buf.push(c);
                    }
                },
                None => {
                    if c == ' ' {
                        done.push(buf);
                        buf = String::new();
                    } else if c == '"' || c == '\'' {
                        quote = Some(c);
                    } else if c == '\\' {
                        escaped = true;
                    } else {
                        buf.push(c);
                    }
                },
            }
        }
    }
    assert(command@.take(command@.len() as int) =~= command@);
    done.push(buf);
    let program = done.remove(0);
    (program, done)
}

/// What goes wrong when a command line is split.
#[derive(Debug, Clone, Copy, PartialEq, Eq, Structural)]
pub enum TokenizeError {
    /// The command line is empty, so it names no program.
    EmptyCommand,
}

/// Splits `command` into its program name and its arguments, and fails on
/// the empty command.
pub fn tokenize(command: &str) -> (res: Result<(String, Vec<String>), TokenizeError>)
    ensures
        match res {
            Ok(split) => command@.len() > 0 && split.0@ == tokens(command@).first() && texts(
                split.1@,
            ) == tokens(command@).drop_first(),
            Err(e) => command@.len() == 0 && e == TokenizeError::EmptyCommand,
        },
{
    if command.is_empty() {
        Err(TokenizeError::EmptyCommand)
    } else {
        Ok(split_exec_args(command))
    }
}

/// Whether the scanner is outside any quoted span and not right after a
/// backslash.
pub open spec fn at_rest(s: Scan) -> bool {
    s.quote is None && !s.escaped
}

/// Whether `input` is free of quotes and backslashes.
pub open spec fn is_plain(input: Seq<char>) -> bool {
    forall|i: int| 0 <= i < input.len() ==> !is_quote(#[trigger] input[i]) && input[i] != '\\'
}

/// Every input has at least one token: the program name.
pub proof fn lemma_program_exists(input: Seq<char>)
    ensures
        tokens(input).len() >= 1,
{
}

/// An unquoted space separates: when the scanner is at rest after `left`,
/// the tokens of `left`, a space and `right` are the tokens of `left`
/// followed by the tokens of `right`.
pub proof fn lemma_space_separates(left: Seq<char>, right: Seq<char>)
    requires
        at_rest(scan(left)),
    ensures
        tokens(left + seq![' '] + right) == tokens(left) + tokens(right),
        scan(left + seq![' '] + right).quote == scan(right).quote,
        scan(left + seq![' '] + right).escaped == scan(right).escaped,
        scan(left + seq![' '] + right).buf == scan(right).buf,
        scan(left + seq![' '] + right).done == tokens(left) + scan(right).done,
    decreases right.len(),
{
    let whole = left + seq![' '] + right;
    if right.len() == 0 {
        assert(whole.drop_last() =~= left);
    } else {
        lemma_space_separates(left, right.drop_last());
        assert(whole.drop_last() =~= left + seq![' '] + right.drop_last());
    }
}

/// Inside a quoted span nothing is special but the quote that opened it:
/// after a quote read at rest, the characters of `body` are copied as they
/// are into the token being accumulated.
pub proof fn lemma_scan_inside_quotes(left: Seq<char>, quote: char, body: Seq<char>)
    requires
        at_rest(scan(left)),
        is_quote(quote),
        !body.contains(quote),
    ensures
        scan(left + seq![quote] + body) == (Scan {
            buf: scan(left).buf + body,
            quote: Some(quote),
            ..scan(left)
        }),
    decreases body.len(),
{
    let input = left + seq![quote] + body;
    if body.len() == 0 {
        assert(input.drop_last() =~= left);
    } else {
        assert(input.drop_last() =~= left + seq![quote] + body.drop_last());
        assert(!body.drop_last().contains(quote));
        lemma_scan_inside_quotes(left, quote, body.drop_last());
        assert(scan(input).buf =~= scan(left).buf + body);
    }
}

/// A quoted span adds its characters to the current token and neither
/// starts nor ends a token: after the closing quote the scanner is at rest
/// again. When the input ends before the closing quote, the characters
/// read so far still end up in the last token.
pub proof fn lemma_quoted_span(left: Seq<char>, quote: char, body: Seq<char>)
    requires
        at_rest(scan(left)),
        is_quote(quote),
        !body.contains(quote),
    ensures
        scan(left + seq![quote] + body + seq![quote]) == (Scan {
            buf: scan(left).buf + body,
            ..scan(left)
        }),
        tokens(left + seq![quote] + body) == scan(left).done.push(scan(left).buf + body),
{
    lemma_scan_inside_quotes(left, quote, body);
    let closed = left + seq![quote] + body + seq![quote];
    assert(closed.drop_last() =~= left + seq![quote] + body);
}

/// A backslash read at rest makes the next character an ordinary one: it
/// is copied into the current token, whatever it is, and the backslash
/// itself is dropped.
pub proof fn lemma_escape_is_literal(left: Seq<char>, c: char)
    requires
        at_rest(scan(left)),
    ensures
        scan(left + seq!['\\', c]) == (Scan { buf: scan(left).buf.push(c), ..scan(left) }),
{
    let input = left + seq!['\\', c];
    assert(input.drop_last() =~= left + seq!['\\']);
    assert((left + seq!['\\']).drop_last() =~= left);
    assert(scan(left + seq!['\\']) == Scan { escaped: true, ..scan(left) });
}

/// On input without quotes and backslashes the tokens are the pieces
/// between the spaces: joined with single spaces, they give the input back.
pub proof fn lemma_plain_input_splits_at_spaces(input: Seq<char>)
    requires
        is_plain(input),
    ensures
        at_rest(scan(input)),
        join(tokens(input), seq![' ']) == input,
        forall|i: int| 0 <= i < tokens(input).len() ==> !(#[trigger] tokens(input)[i]).contains(' '),
    decreases input.len(),
{
    if input.len() > 0 {
        let front = input.drop_last();
        let c = input.last();
        assert(is_plain(front)) by {
            assert forall|i: int| 0 <= i < front.len() implies !is_quote(#[trigger] front[i])
                && front[i] != '\\' by {
                assert(front[i] == input[i]);
            }
        }
        lemma_plain_input_splits_at_spaces(front);
        let before = scan(front);
        let old_tokens = tokens(front);
        let new_tokens = tokens(input);
        if c == ' ' {
            assert(new_tokens.drop_last() =~= old_tokens);
        } else if before.done.len() > 0 {
            assert(new_tokens.drop_last() =~= before.done);
            assert(old_tokens.drop_last() =~= before.done);
            assert(join(new_tokens, seq![' ']) =~= join(old_tokens, seq![' ']).push(c));
        }
        assert forall|i: int| 0 <= i < new_tokens.len() implies !(
        #[trigger] new_tokens[i]).contains(' ') by {
            if c != ' ' && i == before.done.len() {
                assert(old_tokens[i] == before.buf);
                assert(!before.buf.push(c).contains(' '));
            } else if i < old_tokens.len() {
                assert(new_tokens[i] == old_tokens[i]);
            }
        }
    }
}

} // verus!
