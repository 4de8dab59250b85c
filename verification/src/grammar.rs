//! The wire format, stated over sequences of characters.
//!
//! Each function here says what one decode request yields on the text at
//! the cursor: the decoded value together with the text that is left, or
//! the failure. The decoder's operations are proved to return exactly this.

use crate::error::Error;
use crate::shape::{Payload, Shape, Width};
use crate::text::span;
use crate::value::{SpecCommand, SpecValue};
use vstd::prelude::*;

verus! {

/// Opens and closes a quoted literal.
pub const QUOTE: char = '"';

/// Separates a command name from its payload, and ends an unquoted token.
pub const SPACE: char = ' ';

/// May end a command line.
pub const LINE_FEED: char = '\n';

/// What a decode request yields: the value and the text left after it.
pub type Parsed<T> = Result<(T, Seq<char>), Error>;

/// The literal `"1"`.
pub open spec fn true_literal() -> Seq<char> {
    seq![QUOTE, '1', QUOTE]
}

/// The literal `"0"`.
pub open spec fn false_literal() -> Seq<char> {
    seq![QUOTE, '0', QUOTE]
}

/// The bare word `null`.
pub open spec fn null_word() -> Seq<char> {
    seq!['n', 'u', 'l', 'l']
}

/// The content of the quoted literal at the head of `s`: the text between
/// the opening quote and the next quote. `None` where `s` does not begin
/// with a quote, or no quote closes it.
pub open spec fn quoted(s: Seq<char>) -> Option<Seq<char>> {
    if s.len() > 0 && s[0] == QUOTE && s.skip(1).contains(QUOTE) {
        Some(s.skip(1).take(span(s.skip(1), QUOTE) as int))
    } else {
        None
    }
}

/// The text after the quoted literal at the head of `s` whose content is
/// `content`.
pub open spec fn after_quoted(s: Seq<char>, content: Seq<char>) -> Seq<char> {
    s.skip((content.len() + 2) as int)
}

/// Whether `c` is a decimal digit, `0` to `9`.
pub open spec fn is_digit(c: char) -> bool {
    '0' <= c <= '9'
}

/// The value of a decimal digit.
pub open spec fn digit_value(c: char) -> nat {
    (c as nat - '0' as nat) as nat
}

/// Whether `s` holds decimal digits only.
pub open spec fn all_digits(s: Seq<char>) -> bool {
    forall|i: int| 0 <= i < s.len() ==> is_digit(#[trigger] s[i])
}

/// The number that a run of decimal digits denotes, most significant
/// digit first.
pub open spec fn decimal_value(s: Seq<char>) -> nat
    decreases s.len(),
{
    if s.len() == 0 {
        0
    } else {
        10 * decimal_value(s.drop_last()) + digit_value(s.last())
    }
}

/// An integer literal: an optional leading `-`, then at least one digit.
pub open spec fn is_integer(s: Seq<char>) -> bool {
    if s.len() > 0 && s[0] == '-' {
        s.len() > 1 && all_digits(s.skip(1))
    } else {
        s.len() > 0 && all_digits(s)
    }
}

/// The number that an integer literal denotes.
pub open spec fn integer_value(s: Seq<char>) -> int {
    if s.len() > 0 && s[0] == '-' {
        -(decimal_value(s.skip(1)) as int)
    } else {
        decimal_value(s) as int
    }
}

/// The next character, which stays in place.
pub open spec fn peek(s: Seq<char>) -> Result<char, Error> {
    if s.len() == 0 {
        Err(Error::Eof)
    } else {
        Ok(s[0])
    }
}

/// The next character, consumed.
pub open spec fn next(s: Seq<char>) -> Parsed<char> {
    if s.len() == 0 {
        Err(Error::Eof)
    } else {
        Ok((s[0], s.skip(1)))
    }
}

/// A boolean: exactly `"1"` or `"0"`.
pub open spec fn boolean(s: Seq<char>) -> Parsed<bool> {
    if true_literal().is_prefix_of(s) {
        Ok((true, s.skip(3)))
    } else if false_literal().is_prefix_of(s) {
        Ok((false, s.skip(3)))
    } else {
        Err(Error::ExpectedBoolean)
    }
}

/// An unsigned integer of width `w`: a quoted run of at least one digit.
/// A number too large for the width wraps around, as arithmetic in that
/// width does.
pub open spec fn unsigned(s: Seq<char>, w: Width) -> Parsed<int> {
    if s.len() == 0 {
        Err(Error::Eof)
    } else if s[0] != QUOTE {
        Err(Error::ExpectedInteger)
    } else if s.len() == 1 {
        Err(Error::Eof)
    } else {
        match quoted(s) {
            Some(digits) => if digits.len() > 0 && all_digits(digits) {
                Ok((decimal_value(digits) as int % w.modulus(), after_quoted(s, digits)))
            } else {
                Err(Error::ExpectedInteger)
            },
            None => Err(Error::ExpectedInteger),
        }
    }
}

/// A signed integer of width `w`: a quoted integer literal whose number the
/// width can hold. A literal that no quote closes is no integer.
pub open spec fn signed(s: Seq<char>, w: Width) -> Parsed<int> {
    if s.len() == 0 {
        Err(Error::Eof)
    } else if s[0] != QUOTE {
        Err(Error::ExpectedString)
    } else {
        match quoted(s) {
            None => Err(Error::ExpectedInteger),
            Some(lit) => if is_integer(lit) && w.min() <= integer_value(lit) <= w.max() {
                Ok((integer_value(lit), after_quoted(s, lit)))
            } else {
                Err(Error::ExpectedInteger)
            },
        }
    }
}

/// A string: the content of a quoted literal, or else the text up to the
/// next space, which is consumed, or to the end of the line.
pub open spec fn string(s: Seq<char>) -> Parsed<Seq<char>> {
    if s.len() == 0 {
        Err(Error::Eof)
    } else if s[0] == QUOTE {
        match quoted(s) {
            None => Err(Error::Eof),
            Some(content) => Ok((content, after_quoted(s, content))),
        }
    } else {
        let n = span(s, SPACE) as int;
        if n < s.len() {
            Ok((s.take(n), s.skip(n + 1)))
        } else {
            Ok((s, Seq::empty()))
        }
    }
}

/// A command name: the text up to the next space, which stays in place, or
/// to the end of the line.
pub open spec fn name(s: Seq<char>) -> (Seq<char>, Seq<char>) {
    let n = span(s, SPACE) as int;
    (s.take(n), s.skip(n))
}

/// Whether `null` stands at the head of `s`.
pub open spec fn null_ahead(s: Seq<char>) -> bool {
    null_word().is_prefix_of(s)
}

/// An option marker: `null`, consumed, says that the value is absent (the
/// result holds `true`); anything else stays in place for the value's own
/// decode.
pub open spec fn absent(s: Seq<char>) -> (bool, Seq<char>) {
    if null_ahead(s) {
        (true, s.skip(4))
    } else {
        (false, s)
    }
}

/// A unit: the bare word `null`.
pub open spec fn unit(s: Seq<char>) -> Parsed<()> {
    if null_ahead(s) {
        Ok(((), s.skip(4)))
    } else {
        Err(Error::ExpectedNull)
    }
}

/// Whether a line carries a payload: it does where it holds a space.
pub open spec fn has_payload(s: Seq<char>) -> bool {
    s.contains(SPACE)
}

/// The delimiter after a command name: exactly one space, which is
/// consumed. A second space right after it is a failure.
pub open spec fn command_space(s: Seq<char>) -> Parsed<()> {
    if s.len() == 0 {
        Err(Error::Eof)
    } else if s[0] != SPACE || (s.len() > 1 && s[1] == SPACE) {
        Err(Error::ExpectedCommandSpace)
    } else {
        Ok(((), s.skip(1)))
    }
}

/// The end of a command: the end of the input, or one line feed, which is
/// consumed.
pub open spec fn command_end(s: Seq<char>) -> Parsed<()> {
    if s.len() == 0 {
        Ok(((), s))
    } else if s[0] == LINE_FEED {
        Ok(((), s.skip(1)))
    } else {
        Err(Error::ExpectedCommandNewline)
    }
}

/// The end of a decode pass: nothing may be left.
pub open spec fn end(s: Seq<char>) -> Result<(), Error> {
    if s.len() == 0 {
        Ok(())
    } else {
        Err(Error::TrailingCharacters)
    }
}

/// A value of the given shape.
pub open spec fn value(s: Seq<char>, shape: Shape) -> Parsed<SpecValue> {
    match shape {
        Shape::Bool => match boolean(s) {
            Ok((b, rest)) => Ok((SpecValue::Bool(b), rest)),
            Err(e) => Err(e),
        },
        Shape::Unsigned(w) => match unsigned(s, w) {
            Ok((n, rest)) => Ok((SpecValue::Unsigned(n), rest)),
            Err(e) => Err(e),
        },
        Shape::Signed(w) => match signed(s, w) {
            Ok((n, rest)) => Ok((SpecValue::Signed(n), rest)),
            Err(e) => Err(e),
        },
        Shape::Str => match string(s) {
            Ok((t, rest)) => Ok((SpecValue::Str(t), rest)),
            Err(e) => Err(e),
        },
        Shape::Unit => match unit(s) {
            Ok((u, rest)) => Ok((SpecValue::Null, rest)),
            Err(e) => Err(e),
        },
    }
}

/// The payload of a command, decoded from the text after the name and its
/// space; `carried` says whether the line carries one. A command that
/// takes none must stand on a line that carries none: it fails with
/// `ExpectedString` otherwise.
pub open spec fn payload(s: Seq<char>, carried: bool, payload: Payload) -> Parsed<
    Option<SpecValue>,
> {
    match payload {
        Payload::Nothing => if carried {
            Err(Error::ExpectedString)
        } else {
            Ok((None, s))
        },
        Payload::Required(shape) => match value(s, shape) {
            Ok((v, rest)) => Ok((Some(v), rest)),
            Err(e) => Err(e),
        },
        Payload::Optional(shape) => if null_ahead(s) {
            Ok((Some(SpecValue::Null), s.skip(4)))
        } else {
            match value(s, shape) {
                Ok((v, rest)) => Ok((Some(v), rest)),
                Err(e) => Err(e),
            }
        },
    }
}

/// A command: its name, the space where the line carries a payload, the
/// payload, and the end of the command.
pub open spec fn command(s: Seq<char>, p: Payload) -> Parsed<SpecCommand> {
    let (name, after_name) = name(s);
    let carried = has_payload(s);
    let spaced = if carried {
        command_space(after_name)
    } else {
        Ok(((), after_name))
    };
    match spaced {
        Err(e) => Err(e),
        Ok((_, at_payload)) => match payload(at_payload, carried, p) {
            Err(e) => Err(e),
            Ok((v, after_payload)) => match command_end(after_payload) {
                Err(e) => Err(e),
                Ok((_, rest)) => Ok((SpecCommand { name, payload: v }, rest)),
            },
        },
    }
}

/// A whole line: one command, and nothing after it.
pub open spec fn line(s: Seq<char>, p: Payload) -> Result<SpecCommand, Error> {
    match command(s, p) {
        Err(e) => Err(e),
        Ok((c, rest)) => match end(rest) {
            Err(e) => Err(e),
            Ok(_) => Ok(c),
        },
    }
}

} // verus!
