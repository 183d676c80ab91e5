//! The commands of a TeX source, read from its bytes.
//!
//! A command is a backslash followed by letters. Its argument, where it has
//! one, is the first brace group that follows the name, after any number of
//! bracket groups. A percent sign starts a comment that runs to the end of the
//! line; a backslash before any other byte escapes that byte.

use crate::bytes::{find_byte, find_first, lemma_find_first};
use crate::text::{Span, NEWLINE};
use vstd::prelude::*;
use vstd::string::*;

verus! {

/// The byte that starts a command or escapes the next byte.
pub const BACKSLASH: u8 = 92u8;

/// The byte that starts a comment.
pub const PERCENT: u8 = 37u8;

/// The byte that opens a group.
pub const OPEN_BRACE: u8 = 123u8;

/// The byte that closes a group.
pub const CLOSE_BRACE: u8 = 125u8;

/// The byte that opens a group of options.
pub const OPEN_BRACKET: u8 = 91u8;

/// The byte that closes a group of options.
pub const CLOSE_BRACKET: u8 = 93u8;

/// A command found in a source: where its name stands, and where the inside of
/// its brace argument stands, if it has one.
#[derive(Debug, PartialEq, Eq, Clone, Copy, Structural)]
pub struct Command {
    pub name: Span,
    pub argument: Option<Span>,
}

/// What the scanner is in the middle of.
#[derive(Debug, PartialEq, Eq, Clone, Copy, Structural)]
pub enum Mode {
    Plain,
    Escaped,
    Comment,
}

/// An ASCII letter.
pub open spec fn is_letter(byte: u8) -> bool {
    (65 <= byte <= 90) || (97 <= byte <= 122)
}

/// The end of the run of letters that starts at `i`.
pub open spec fn name_end(text: Seq<u8>, i: int) -> int
    decreases text.len() - i,
{
    if 0 <= i < text.len() && is_letter(text[i]) {
        name_end(text, i + 1)
    } else {
        i
    }
}

/// The index after the bracket groups that start at `i`. A bracket group that
/// is not closed is no group.
pub open spec fn options_end(text: Seq<u8>, i: int) -> int
    decreases text.len() - i,
{
    if 0 <= i < text.len() && text[i] == OPEN_BRACKET {
        let close = find_first(text, i + 1, text.len() as int, CLOSE_BRACKET);
        if i < close < text.len() {
            options_end(text, close + 1)
        } else {
            i
        }
    } else {
        i
    }
}

/// The index of the brace that closes a group, searching from `i` inside the
/// group with `depth` more groups open; the length of the text where the group
/// is never closed. An escaped brace does not count.
pub open spec fn group_end(text: Seq<u8>, i: int, depth: nat) -> int
    decreases text.len() - i,
{
    if i < 0 || i >= text.len() {
        text.len() as int
    } else if text[i] == BACKSLASH {
        if i + 1 < text.len() {
            group_end(text, i + 2, depth)
        } else {
            text.len() as int
        }
    } else if text[i] == OPEN_BRACE {
        group_end(text, i + 1, depth + 1)
    } else if text[i] == CLOSE_BRACE {
        if depth == 0 {
            i
        } else {
            group_end(text, i + 1, (depth - 1) as nat)
        }
    } else {
        group_end(text, i + 1, depth)
    }
}

/// The inside of the brace argument of a command whose name ends at `end`.
pub open spec fn argument_of(text: Seq<u8>, end: int) -> Option<Span> {
    let open = options_end(text, end);
    if 0 <= open < text.len() && text[open] == OPEN_BRACE {
        let close = group_end(text, open + 1, 0);
        if close < text.len() {
            Some(Span { start: (open + 1) as usize, end: close as usize })
        } else {
            None
        }
    } else {
        None
    }
}

/// The commands of `text` from index `i` on, the scanner being in `mode`.
pub open spec fn commands_from(text: Seq<u8>, i: int, mode: Mode) -> Seq<Command>
    decreases text.len() - i,
{
    if i < 0 || i >= text.len() {
        Seq::empty()
    } else {
        match mode {
            Mode::Comment => commands_from(
                text,
                i + 1,
                if text[i] == NEWLINE {
                    Mode::Plain
                } else {
                    Mode::Comment
                },
            ),
            Mode::Escaped => commands_from(text, i + 1, Mode::Plain),
            Mode::Plain => {
                if text[i] == PERCENT {
                    commands_from(text, i + 1, Mode::Comment)
                } else if text[i] == BACKSLASH {
                    let end = name_end(text, i + 1);
                    let rest = commands_from(text, i + 1, Mode::Escaped);
                    if end > i + 1 {
                        seq![
                            Command {
                                name: Span { start: (i + 1) as usize, end: end as usize },
                                argument: argument_of(text, end),
                            },
                        ] + rest
                    } else {
                        rest
                    }
                } else {
                    commands_from(text, i + 1, Mode::Plain)
                }
            },
        }
    }
}

/// The commands of `text`, in the order in which they stand.
pub open spec fn commands(text: Seq<u8>) -> Seq<Command> {
    commands_from(text, 0, Mode::Plain)
}

/// A run of letters ends within the text.
pub proof fn lemma_name_end(text: Seq<u8>, i: int)
    requires
        0 <= i <= text.len(),
    ensures
        i <= name_end(text, i) <= text.len(),
    decreases text.len() - i,
{
    if i < text.len() && is_letter(text[i]) {
        lemma_name_end(text, i + 1);
    }
}

/// Bracket groups end within the text.
pub proof fn lemma_options_end(text: Seq<u8>, i: int)
    requires
        0 <= i <= text.len(),
    ensures
        i <= options_end(text, i) <= text.len(),
    decreases text.len() - i,
{
    if i < text.len() && text[i] == OPEN_BRACKET {
        let close = find_first(text, i + 1, text.len() as int, CLOSE_BRACKET);
        lemma_find_first(text, i + 1, text.len() as int, CLOSE_BRACKET);
        if i < close < text.len() {
            lemma_options_end(text, close + 1);
        }
    }
}

/// A group is closed at or after the index from which it is searched.
pub proof fn lemma_group_end(text: Seq<u8>, i: int, depth: nat)
    requires
        0 <= i <= text.len(),
    ensures
        i <= group_end(text, i, depth) <= text.len(),
    decreases text.len() - i,
{
    if i < text.len() {
        if text[i] == BACKSLASH {
            if i + 1 < text.len() {
                lemma_group_end(text, i + 2, depth);
            }
        } else if text[i] == OPEN_BRACE {
            lemma_group_end(text, i + 1, depth + 1);
        } else if text[i] == CLOSE_BRACE {
            if depth > 0 {
                lemma_group_end(text, i + 1, (depth - 1) as nat);
            }
        } else {
            lemma_group_end(text, i + 1, depth);
        }
    }
}

/// Every command that is found lies within the text, its name is not empty,
/// and its argument, where it has one, follows its name.
pub open spec fn command_within(command: Command, len: int) -> bool {
    &&& command.name.start < command.name.end <= len
    &&& command.argument matches Some(argument) ==> command.name.end < argument.start
        <= argument.end < len
}

/// All commands found from `i` on lie within the text.
pub proof fn lemma_commands_within(text: Seq<u8>, i: int, mode: Mode)
    requires
        0 <= i,
        text.len() <= usize::MAX,
    ensures
        forall|k: int|
            0 <= k < commands_from(text, i, mode).len() ==> command_within(
                #[trigger] commands_from(text, i, mode)[k],
                text.len() as int,
            ),
    decreases text.len() - i,
{
    if i < text.len() {
        if mode == Mode::Comment {
            let next = if text[i] == NEWLINE {
                Mode::Plain
            } else {
                Mode::Comment
            };
            lemma_commands_within(text, i + 1, next);
            assert(commands_from(text, i, mode) == commands_from(text, i + 1, next));
        } else if mode == Mode::Escaped {
            lemma_commands_within(text, i + 1, Mode::Plain);
            assert(commands_from(text, i, mode) == commands_from(text, i + 1, Mode::Plain));
        } else if text[i] == PERCENT {
            lemma_commands_within(text, i + 1, Mode::Comment);
            assert(commands_from(text, i, mode) == commands_from(text, i + 1, Mode::Comment));
        } else if text[i] == BACKSLASH {
            let end = name_end(text, i + 1);
            lemma_name_end(text, i + 1);
            lemma_options_end(text, end);
            let open = options_end(text, end);
            if open < text.len() {
                lemma_group_end(text, open + 1, 0);
            }
            lemma_commands_within(text, i + 1, Mode::Escaped);
            let rest = commands_from(text, i + 1, Mode::Escaped);
            let all = commands_from(text, i, mode);
            assert forall|k: int| 0 <= k < all.len() implies command_within(
                #[trigger] all[k],
                text.len() as int,
            ) by {
                if end > i + 1 && k > 0 {
                    assert(all[k] == rest[k - 1]);
                }
            }
        } else {
            lemma_commands_within(text, i + 1, Mode::Plain);
            assert(commands_from(text, i, mode) == commands_from(text, i + 1, Mode::Plain));
        }
    } else {
        assert(commands_from(text, i, mode).len() == 0);
    }
}

/// The end of the run of letters that starts at `from`.
pub fn scan_name(text: &[u8], from: usize) -> (end: usize)
    requires
        from <= text.len(),
    ensures
        end == name_end(text@, from as int),
        from <= end <= text.len(),
{
    let mut i: usize = from;
    while i < text.len() && ((65 <= text[i] && text[i] <= 90) || (97 <= text[i] && text[i] <= 122))
        invariant
            from <= i <= text.len(),
            name_end(text@, i as int) == name_end(text@, from as int),
        decreases text.len() - i,
    {
        i += 1;
    }
    i
}

/// The index after the bracket groups that start at `from`.
pub fn scan_options(text: &[u8], from: usize) -> (end: usize)
    requires
        from <= text.len(),
    ensures
        end == options_end(text@, from as int),
        from <= end <= text.len(),
{
    let mut i: usize = from;
    loop
        invariant
            from <= i <= text.len(),
            options_end(text@, i as int) == options_end(text@, from as int),
        decreases text.len() - i,
    {
        if i < text.len() && text[i] == OPEN_BRACKET {
            let close = find_byte(text, i + 1, text.len(), CLOSE_BRACKET);
            if close < text.len() {
                i = close + 1;
            } else {
                return i;
            }
        } else {
            return i;
        }
    }
}

/// The index of the brace that closes the group whose inside starts at `from`,
/// or the length of the text.
pub fn scan_group(text: &[u8], from: usize) -> (end: usize)
    requires
        from <= text.len(),
    ensures
        end == group_end(text@, from as int, 0),
        from <= end <= text.len(),
{
    let mut i: usize = from;
    let mut depth: usize = 0;
    proof {
        lemma_group_end(text@, from as int, 0);
    }
    while i < text.len()
        invariant
            from <= i <= text.len(),
            depth <= i - from,
            group_end(text@, i as int, depth as nat) == group_end(text@, from as int, 0),
        decreases text.len() - i,
    {
        let byte = text[i];
        if byte == BACKSLASH {
            if i + 1 < text.len() {
                i += 2;
            } else {
                return text.len();
            }
        } else if byte == OPEN_BRACE {
            depth += 1;
            i += 1;
        } else if byte == CLOSE_BRACE {
            if depth == 0 {
                return i;
            }
            depth -= 1;
            i += 1;
        } else {
            i += 1;
        }
    }
    text.len()
}

/// The inside of the brace argument of a command whose name ends at `end`.
pub fn scan_argument(text: &[u8], end: usize) -> (argument: Option<Span>)
    requires
        end <= text.len(),
    ensures
        argument == argument_of(text@, end as int),
{
    let open = scan_options(text, end);
    if open < text.len() && text[open] == OPEN_BRACE {
        let close = scan_group(text, open + 1);
        if close < text.len() {
            Some(Span { start: open + 1, end: close })
        } else {
            None
        }
    } else {
        None
    }
}

/// Reads the commands of a TeX source.
pub fn parse_tex(text: &[u8]) -> (found: Vec<Command>)
    ensures
        found@ == commands(text@),
        forall|k: int| 0 <= k < found@.len() ==> command_within(#[trigger] found@[k], text@.len() as int),
{
    let mut found: Vec<Command> = Vec::new();
    let mut mode = Mode::Plain;
    let mut i: usize = 0;
    while i < text.len()
        invariant
            0 <= i <= text.len(),
            found@ + commands_from(text@, i as int, mode) == commands(text@),
        decreases text.len() - i,
    {
        let byte = text[i];
        let ghost before = found@;
        let ghost rest = commands_from(text@, i + 1, Mode::Escaped);
        match mode {
            Mode::Comment => {
                if byte == NEWLINE {
                    mode = Mode::Plain;
                }
            },
            Mode::Escaped => {
                mode = Mode::Plain;
            },
            Mode::Plain => {
                if byte == PERCENT {
                    mode = Mode::Comment;
                } else if byte == BACKSLASH {
                    let end = scan_name(text, i + 1);
                    if end > i + 1 {
                        let argument = scan_argument(text, end);
                        let command = Command { name: Span { start: i + 1, end }, argument };
                        found.push(command);
                        assert(before.push(command) + rest =~= before + (seq![command] + rest));
                    }
                    mode = Mode::Escaped;
                }
            },
        }
        i += 1;
    }
    proof {
        assert(found@ + Seq::<Command>::empty() =~= found@);
        lemma_commands_within(text@, 0, Mode::Plain);
    }
    found
}

/// What is wrong with a source.
#[derive(Debug, PartialEq, Eq, Clone, Copy, Structural)]
pub enum SyntaxError {
    /// A brace group is opened and never closed.
    MissingClosingBrace,
    /// A brace closes a group that was never opened.
    UnexpectedClosingBrace,
}

/// What an editor shows for an error.
pub open spec fn message_of(error: SyntaxError) -> Seq<char> {
    match error {
        SyntaxError::MissingClosingBrace => "Missing \"}\""@,
        SyntaxError::UnexpectedClosingBrace => "Unexpected \"}\""@,
    }
}

impl SyntaxError {
    /// What an editor shows for the error.
    pub fn message(self) -> (message: String)
        ensures
            message@ == message_of(self),
    {
        match self {
            SyntaxError::MissingClosingBrace => "Missing \"}\"".to_owned(),
            SyntaxError::UnexpectedClosingBrace => "Unexpected \"}\"".to_owned(),
        }
    }
}

/// A message of the parser: what is wrong, and at which brace.
#[derive(Debug, PartialEq, Eq, Clone, Copy, Structural)]
pub struct Diagnostic {
    pub error: SyntaxError,
    pub at: usize,
}

/// One message for each of the groups that are still open, outermost first.
pub open spec fn unclosed(open: Seq<usize>) -> Seq<Diagnostic> {
    Seq::new(
        open.len(),
        |k: int| Diagnostic { error: SyntaxError::MissingClosingBrace, at: open[k] },
    )
}

/// The messages of the parser for `text` from index `i` on, the scanner being
/// in `mode` and the groups that start at `open` being open. Braces in
/// comments and escaped braces do not count. The messages for unexpected
/// braces come in source order, and after them, at the end of the text, those
/// for the groups that were never closed.
pub open spec fn diagnostics_from(text: Seq<u8>, i: int, mode: Mode, open: Seq<usize>) -> Seq<
    Diagnostic,
>
    decreases text.len() - i,
{
    if i < 0 || i >= text.len() {
        unclosed(open)
    } else {
        match mode {
            Mode::Comment => diagnostics_from(
                text,
                i + 1,
                if text[i] == NEWLINE {
                    Mode::Plain
                } else {
                    Mode::Comment
                },
                open,
            ),
            Mode::Escaped => diagnostics_from(text, i + 1, Mode::Plain, open),
            Mode::Plain => {
                if text[i] == PERCENT {
                    diagnostics_from(text, i + 1, Mode::Comment, open)
                } else if text[i] == BACKSLASH {
                    diagnostics_from(text, i + 1, Mode::Escaped, open)
                } else if text[i] == OPEN_BRACE {
                    diagnostics_from(text, i + 1, Mode::Plain, open.push(i as usize))
                } else if text[i] == CLOSE_BRACE {
                    if open.len() == 0 {
                        seq![
                            Diagnostic { error: SyntaxError::UnexpectedClosingBrace, at: i as usize },
                        ] + diagnostics_from(text, i + 1, Mode::Plain, open)
                    } else {
                        diagnostics_from(text, i + 1, Mode::Plain, open.drop_last())
                    }
                } else {
                    diagnostics_from(text, i + 1, Mode::Plain, open)
                }
            },
        }
    }
}

/// The messages of the parser for a TeX source. Parsing goes on whatever is
/// wrong: the commands are read from the whole text all the same.
pub open spec fn diagnostics(text: Seq<u8>) -> Seq<Diagnostic> {
    diagnostics_from(text, 0, Mode::Plain, Seq::empty())
}

/// Checks the braces of a TeX source.
pub fn check_tex(text: &[u8]) -> (found: Vec<Diagnostic>)
    ensures
        found@ == diagnostics(text@),
{
    let mut found: Vec<Diagnostic> = Vec::new();
    let mut open: Vec<usize> = Vec::new();
    let mut mode = Mode::Plain;
    let mut i: usize = 0;
    while i < text.len()
        invariant
            0 <= i <= text.len(),
            found@ + diagnostics_from(text@, i as int, mode, open@) == diagnostics(text@),
        decreases text.len() - i,
    {
        let byte = text[i];
        let ghost before = found@;
        match mode {
            Mode::Comment => {
                if byte == NEWLINE {
                    mode = Mode::Plain;
                }
            },
            Mode::Escaped => {
                mode = Mode::Plain;
            },
            Mode::Plain => {
                if byte == PERCENT {
                    mode = Mode::Comment;
                } else if byte == BACKSLASH {
                    mode = Mode::Escaped;
                } else if byte == OPEN_BRACE {
                    open.push(i);
                } else if byte == CLOSE_BRACE {
                    if open.len() == 0 {
                        let message = Diagnostic { error: SyntaxError::UnexpectedClosingBrace, at: i };
                        found.push(message);
                        let ghost rest = diagnostics_from(text@, i + 1, Mode::Plain, open@);
                        assert(before.push(message) + rest =~= before + (seq![message] + rest));
                    } else {
                        let ghost held = open@;
                        open.pop();
                        assert(open@ =~= held.drop_last());
                    }
                }
            },
        }
        i += 1;
    }
    let ghost before = found@;
    let mut k: usize = 0;
    while k < open.len()
        invariant
            0 <= k <= open@.len(),
            found@ == before + unclosed(open@).take(k as int),
        decreases open@.len() - k,
    {
        found.push(Diagnostic { error: SyntaxError::MissingClosingBrace, at: open[k] });
        assert(unclosed(open@).take(k + 1) =~= unclosed(open@).take(k as int).push(
            unclosed(open@)[k as int],
        ));
        k += 1;
    }
    assert(unclosed(open@).take(k as int) =~= unclosed(open@));
    found
}

} // verus!
