//! The trailer as a mathematical object: how a sequence of read results
//! falls into lines and tokens, which commands it holds, why it ends, and
//! how commands are written as a trailer.
//!
//! A trailer is a run of lines. A line is one or more tokens separated by
//! [`TOKEN_SEPARATOR`] and closed by [`LINE_SEPARATOR`]; its first token names
//! the executable, the others are its arguments. The first line that is not
//! of this shape ends the trailer for good, whatever follows it.

use vstd::prelude::*;
use vstd::utf8::{decode_utf8, encode_utf8, valid_utf8};

verus! {

/// The byte that closes a token.
pub const TOKEN_SEPARATOR: u8 = 0;

/// The byte that closes a line.
pub const LINE_SEPARATOR: u8 = 10;

/// Why a trailer yields no further command.
#[derive(Clone, Copy, Debug, PartialEq, Eq, Structural)]
pub enum Halt {
    /// The input ran out before the line in progress was closed.
    Exhausted,
    /// A line was closed without having named an executable.
    EmptyLine,
    /// A token was not well-formed UTF-8.
    InvalidText,
    /// An element of the input was a failed read.
    ReadFailure,
}

/// True of the input elements at which a line stops: the line separator and
/// a failed read (`None`).
pub open spec fn ends_line(item: Option<u8>) -> bool {
    item is None || item == Some(LINE_SEPARATOR)
}

/// The number of elements before the first one that [`ends_line`]; the
/// length of `input` where there is none.
pub open spec fn line_stop(input: Seq<Option<u8>>) -> nat
    decreases input.len(),
{
    if input.len() == 0 || ends_line(input[0]) {
        0
    } else {
        1 + line_stop(input.skip(1))
    }
}

/// The bytes of the first line of `input`, without what stopped it.
pub open spec fn line_body(input: Seq<Option<u8>>) -> Seq<u8> {
    Seq::new(line_stop(input), |i: int| input[i]->0)
}

/// `body` cut at every token separator. There is always a last field, the
/// bytes after the last separator, and it may be empty.
pub open spec fn fields(body: Seq<u8>) -> Seq<Seq<u8>>
    decreases body.len(),
{
    if body.len() == 0 {
        seq![Seq::empty()]
    } else {
        let before = fields(body.drop_last());
        if body.last() == TOKEN_SEPARATOR {
            before.push(Seq::empty())
        } else {
            before.drop_last().push(before.last().push(body.last()))
        }
    }
}

/// The tokens that a closed line hands over: every field that a separator
/// closed, and the last field unless it is empty.
pub open spec fn flushed(fields: Seq<Seq<u8>>) -> Seq<Seq<u8>> {
    if fields.last().len() > 0 {
        fields
    } else {
        fields.drop_last()
    }
}

/// Every token is well-formed UTF-8.
pub open spec fn all_text(tokens: Seq<Seq<u8>>) -> bool {
    forall|i: int| 0 <= i < tokens.len() ==> valid_utf8(#[trigger] tokens[i])
}

/// The texts that the tokens encode.
pub open spec fn texts(tokens: Seq<Seq<u8>>) -> Seq<Seq<char>> {
    Seq::new(tokens.len(), |i: int| decode_utf8(tokens[i]))
}

/// What the first line of `input` comes to: the texts of its tokens, the
/// executable first, or the reason why the trailer ends here.
///
/// A token is turned into text when the separator behind it is met, so an
/// ill-formed token that a token separator closed is found before whatever
/// stops the line.
pub open spec fn first_line(input: Seq<Option<u8>>) -> Result<Seq<Seq<char>>, Halt> {
    let stop = line_stop(input);
    let cut = fields(line_body(input));
    if !all_text(cut.drop_last()) {
        Err(Halt::InvalidText)
    } else if stop >= input.len() {
        Err(Halt::Exhausted)
    } else if input[stop as int] is None {
        Err(Halt::ReadFailure)
    } else if !all_text(flushed(cut)) {
        Err(Halt::InvalidText)
    } else if flushed(cut).len() == 0 {
        Err(Halt::EmptyLine)
    } else {
        Ok(texts(flushed(cut)))
    }
}

/// What is left of `input` behind its first line.
pub open spec fn after_line(input: Seq<Option<u8>>) -> Seq<Option<u8>> {
    input.skip(line_stop(input) + 1int)
}

/// The commands of a trailer, each as the texts of its tokens, in the order
/// in which they stand.
pub open spec fn decode(input: Seq<Option<u8>>) -> Seq<Seq<Seq<char>>>
    decreases input.len(),
{
    match first_line(input) {
        Ok(tokens) => seq![tokens] + decode(after_line(input)),
        Err(_) => Seq::empty(),
    }
}

/// The reason for which a trailer ends behind its last command.
pub open spec fn ending(input: Seq<Option<u8>>) -> Halt
    decreases input.len(),
{
    match first_line(input) {
        Ok(_) => ending(after_line(input)),
        Err(halt) => halt,
    }
}

/// True of a text that holds neither of the two reserved characters, so
/// that it can stand in a trailer as one token.
pub open spec fn plain(text: Seq<char>) -> bool {
    forall|i: int| 0 <= i < text.len() ==> #[trigger] text[i] != '\0' && text[i] != '\n'
}

/// True of the token lists that a line can carry and give back unchanged:
/// at least the executable, every token [`plain`], and the last token not
/// empty (an empty token at the end of a line leaves no trace in it).
pub open spec fn well_formed(tokens: Seq<Seq<char>>) -> bool {
    &&& tokens.len() >= 1
    &&& forall|i: int| 0 <= i < tokens.len() ==> plain(#[trigger] tokens[i])
    &&& tokens.last().len() > 0
}

/// The tokens in bytes.
pub open spec fn encoded(tokens: Seq<Seq<char>>) -> Seq<Seq<u8>> {
    Seq::new(tokens.len(), |i: int| encode_utf8(tokens[i]))
}

/// The tokens in a row, a token separator between each two.
pub open spec fn join(tokens: Seq<Seq<u8>>) -> Seq<u8>
    decreases tokens.len(),
{
    if tokens.len() == 0 {
        Seq::empty()
    } else if tokens.len() == 1 {
        tokens[0]
    } else {
        join(tokens.drop_last()) + seq![TOKEN_SEPARATOR] + tokens.last()
    }
}

/// The line that carries `tokens`.
pub open spec fn line_of(tokens: Seq<Seq<char>>) -> Seq<u8> {
    join(encoded(tokens)) + seq![LINE_SEPARATOR]
}

/// The trailer that carries `commands`, in reading order.
pub open spec fn trailer_of(commands: Seq<Seq<Seq<char>>>) -> Seq<u8>
    decreases commands.len(),
{
    if commands.len() == 0 {
        Seq::empty()
    } else {
        line_of(commands[0]) + trailer_of(commands.skip(1))
    }
}

/// Bytes as an input in which every read succeeded.
pub open spec fn intact(bytes: Seq<u8>) -> Seq<Option<u8>> {
    Seq::new(bytes.len(), |i: int| Some(bytes[i]))
}

} // verus!
