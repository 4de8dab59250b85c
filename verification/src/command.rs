//! Decoding a whole command line: the name, one space, the payload, and
//! the end of the line.
//!
//! A line without a space is a bare command: the whole line is its name.
//! A line with a space carries a payload: the name ends at the first
//! space, exactly one space follows, and the payload is decoded in the
//! shape that the command asks for. After the command only the end of the
//! input or one line feed may follow, and after that nothing.

use crate::de::Deserializer;
use crate::error::Error;
use crate::grammar;
use crate::grammar::{LINE_FEED, SPACE};
use crate::shape::{Payload, Shape};
use crate::text::{lemma_span, split_at_first, split_first};
use crate::value::{option_view, Command, SpecCommand, SpecValue, Value};
use vstd::prelude::*;

verus! {

impl<'de> Deserializer<'de> {
    /// Whether the rest of the line carries a payload.
    pub fn has_payload(&self) -> (carried: bool)
        ensures
            carried == grammar::has_payload(self@),
    {
        let (_, tail) = split_at_first(self.remaining(), SPACE);
        proof {
            lemma_span(self@, SPACE);
        }
        !tail.is_empty()
    }

    /// Consumes the single space that follows a command name. Fails with
    /// `Eof` on empty input, and with `ExpectedCommandSpace` where the next
    /// character is no space or a second space follows the first.
    pub fn command_space(&mut self) -> (r: Result<(), Error>)
        ensures
            match r {
                Ok(u) => grammar::command_space(old(self)@) == Ok::<_, Error>(((), final(self)@)),
                Err(e) => grammar::command_space(old(self)@) == Err::<((), Seq<char>), _>(e)
                    && final(self)@ == old(self)@,
            },
    {
        match split_first(self.remaining()) {
            None => Err(Error::Eof),
            Some((c, rest)) => {
                if c != SPACE {
                    return Err(Error::ExpectedCommandSpace);
                }
                if let Some((d, _)) = split_first(rest) {
                    if d == SPACE {
                        return Err(Error::ExpectedCommandSpace);
                    }
                }
                *self = Deserializer::from_str(rest);
                Ok(())
            },
        }
    }

    /// Consumes the end of a command: nothing at the end of the input, or
    /// one line feed. Fails with `ExpectedCommandNewline` on anything else.
    pub fn command_end(&mut self) -> (r: Result<(), Error>)
        ensures
            match r {
                Ok(u) => grammar::command_end(old(self)@) == Ok::<_, Error>(((), final(self)@)),
                Err(e) => grammar::command_end(old(self)@) == Err::<((), Seq<char>), _>(e)
                    && final(self)@ == old(self)@,
            },
    {
        match split_first(self.remaining()) {
            None => Ok(()),
            Some((c, rest)) => {
                if c == LINE_FEED {
                    *self = Deserializer::from_str(rest);
                    Ok(())
                } else {
                    Err(Error::ExpectedCommandNewline)
                }
            },
        }
    }

    /// Checks that the decode pass has consumed the whole line: fails with
    /// `TrailingCharacters` where anything is left.
    pub fn end(&self) -> (r: Result<(), Error>)
        ensures
            r == grammar::end(self@),
    {
        if self.remaining().is_empty() {
            Ok(())
        } else {
            Err(Error::TrailingCharacters)
        }
    }

    /// Decodes one value of the given shape.
    pub fn parse_value(&mut self, shape: Shape) -> (r: Result<Value<'de>, Error>)
        ensures
            match r {
                Ok(v) => grammar::value(old(self)@, shape) == Ok::<_, Error>((v@, final(self)@)),
                Err(e) => grammar::value(old(self)@, shape) == Err::<(SpecValue, Seq<char>), _>(e)
                    && final(self)@ == old(self)@,
            },
    {
        match shape {
            Shape::Bool => match self.parse_bool() {
                Ok(b) => Ok(Value::Bool(b)),
                Err(e) => Err(e),
            },
            Shape::Unsigned(w) => match self.parse_unsigned(w) {
                Ok(n) => Ok(Value::Unsigned(n)),
                Err(e) => Err(e),
            },
            Shape::Signed(w) => match self.parse_signed(w) {
                Ok(n) => Ok(Value::Signed(n)),
                Err(e) => Err(e),
            },
            Shape::Str => match self.parse_string() {
                Ok(s) => Ok(Value::Str(s)),
                Err(e) => Err(e),
            },
            Shape::Unit => match self.parse_unit() {
                Ok(_) => Ok(Value::Null),
                Err(e) => Err(e),
            },
        }
    }

    /// Decodes the payload of a command whose name and space have been
    /// consumed; `carried` says whether the line carries a payload.
    pub fn parse_payload(&mut self, carried: bool, payload: Payload) -> (r: Result<
        Option<Value<'de>>,
        Error,
    >)
        ensures
            match r {
                Ok(v) => grammar::payload(old(self)@, carried, payload) == Ok::<_, Error>(
                    (option_view(v), final(self)@),
                ),
                Err(e) => grammar::payload(old(self)@, carried, payload) == Err::<
                    (Option<SpecValue>, Seq<char>),
                    _,
                >(e) && final(self)@ == old(self)@,
            },
    {
        match payload {
            Payload::Nothing => if carried {
                Err(Error::ExpectedString)
            } else {
                Ok(None)
            },
            Payload::Required(shape) => match self.parse_value(shape) {
                Ok(v) => Ok(Some(v)),
                Err(e) => Err(e),
            },
            Payload::Optional(shape) => if self.parse_absent() {
                Ok(Some(Value::Null))
            } else {
                match self.parse_value(shape) {
                    Ok(v) => Ok(Some(v)),
                    Err(e) => Err(e),
                }
            },
        }
    }

    /// Decodes one command: its name, its payload in the shape that
    /// `payload` gives, and the end of the command.
    pub fn parse_line(&mut self, payload: Payload) -> (r: Result<Command<'de>, Error>)
        ensures
            match r {
                Ok(c) => grammar::command(old(self)@, payload) == Ok::<_, Error>((c@, final(self)@)),
                Err(e) => grammar::command(old(self)@, payload) == Err::<(SpecCommand, Seq<char>), _>(e)
                    && final(self)@ == old(self)@,
            },
    {
        let mut ahead = Deserializer::from_str(self.remaining());
        let carried = ahead.has_payload();
        let name = ahead.parse_command();
        if carried {
            if let Err(e) = ahead.command_space() {
                return Err(e);
            }
        }
        let payload = match ahead.parse_payload(carried, payload) {
            Ok(v) => v,
            Err(e) => {
                return Err(e);
            },
        };
        if let Err(e) = ahead.command_end() {
            return Err(e);
        }
        *self = ahead;
        Ok(Command { name, payload })
    }
}

/// Decodes one line into one command whose payload has the shape that
/// `payload` gives. The whole line must be consumed: whatever is left
/// after the command fails the pass with `TrailingCharacters`.
pub fn from_str<'de>(s: &'de str, payload: Payload) -> (r: Result<Command<'de>, Error>)
    ensures
        match r {
            Ok(c) => grammar::line(s@, payload) == Ok::<_, Error>(c@),
            Err(e) => grammar::line(s@, payload) == Err::<SpecCommand, _>(e),
        },
{
    let mut de = Deserializer::from_str(s);
    let command = match de.parse_line(payload) {
        Ok(c) => c,
        Err(e) => {
            return Err(e);
        },
    };
    match de.end() {
        Ok(_) => Ok(command),
        Err(e) => Err(e),
    }
}

} // verus!
