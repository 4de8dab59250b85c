//! The cursor over one input line, and the decode requests it answers.

use crate::error::Error;
use crate::grammar;
use crate::grammar::{QUOTE, SPACE};
use crate::number::{decimal, truncate};
use crate::shape::Width;
use crate::text::{lemma_span, span, split_at_first, split_first, strip_prefix};
use vstd::arithmetic::div_mod::lemma_mod_mod;
use vstd::prelude::*;

verus! {

/// A cursor over one input line. It holds the text not yet consumed; every
/// request consumes a prefix of it and never gives any of it back. A request
/// that fails leaves the cursor where it was.
pub struct Deserializer<'de> {
    input: &'de str,
}

impl<'de> View for Deserializer<'de> {
    type V = Seq<char>;

    /// The text not yet consumed.
    closed spec fn view(&self) -> Seq<char> {
        self.input@
    }
}

/// Cuts the quoted literal at the head of `s`: its content, and the text
/// after the closing quote. `None` where `s` does not begin with a quote,
/// or no quote closes it.
fn split_quoted<'a>(s: &'a str) -> (r: Option<(&'a str, &'a str)>)
    ensures
        match r {
            Some((content, after)) => grammar::quoted(s@) == Some(content@) && after@
                == grammar::after_quoted(s@, content@),
            None => grammar::quoted(s@) is None,
        },
{
    let rest = match split_first(s) {
        None => {
            return None;
        },
        Some((c, rest)) => {
            if c != QUOTE {
                return None;
            }
            rest
        },
    };
    let (content, tail) = split_at_first(rest, QUOTE);
    proof {
        lemma_span(rest@, QUOTE);
    }
    match split_first(tail) {
        None => None,
        Some((_, after)) => {
            assert(after@ =~= grammar::after_quoted(s@, content@));
            Some((content, after))
        },
    }
}

impl<'de> Deserializer<'de> {
    /// A cursor at the start of `input`.
    pub fn from_str(input: &'de str) -> (de: Self)
        ensures
            de@ == input@,
    {
        Deserializer { input }
    }

    /// The text not yet consumed, as a slice of the input line.
    pub fn remaining(&self) -> (rest: &'de str)
        ensures
            rest@ == self@,
    {
        self.input
    }

    /// The next character, without consuming it.
    pub fn peek_char(&self) -> (r: Result<char, Error>)
        ensures
            r == grammar::peek(self@),
    {
        match split_first(self.input) {
            Some((c, _)) => Ok(c),
            None => Err(Error::Eof),
        }
    }

    /// Consumes the next character and returns it.
    pub fn next_char(&mut self) -> (r: Result<char, Error>)
        ensures
            match r {
                Ok(c) => grammar::next(old(self)@) == Ok::<_, Error>((c, final(self)@)),
                Err(e) => grammar::next(old(self)@) == Err::<(char, Seq<char>), _>(e)
                    && final(self)@ == old(self)@,
            },
    {
        match split_first(self.input) {
            Some((c, rest)) => {
                self.input = rest;
                Ok(c)
            },
            None => Err(Error::Eof),
        }
    }
    /// Decodes a boolean: `"1"` is `true`, `"0"` is `false`, and anything
    /// else fails with `ExpectedBoolean`.
    pub fn parse_bool(&mut self) -> (r: Result<bool, Error>)
        ensures
            match r {
                Ok(b) => grammar::boolean(old(self)@) == Ok::<_, Error>((b, final(self)@)),
                Err(e) => grammar::boolean(old(self)@) == Err::<(bool, Seq<char>), _>(e)
                    && final(self)@ == old(self)@,
            },
    {
        proof {
            reveal_strlit("\"1\"");
            reveal_strlit("\"0\"");
            assert("\"1\""@ =~= grammar::true_literal());
            assert("\"0\""@ =~= grammar::false_literal());
        }
        if let Some(rest) = strip_prefix(self.input, "\"1\"") {
            self.input = rest;
            Ok(true)
        } else if let Some(rest) = strip_prefix(self.input, "\"0\"") {
            self.input = rest;
            Ok(false)
        } else {
            Err(Error::ExpectedBoolean)
        }
    }

    /// Decodes an unsigned integer of the given width from a quoted run of
    /// digits. A number that the width cannot hold wraps around. Fails with
    /// `Eof` where the input ends before the first digit, and with
    /// `ExpectedInteger` where the opening quote, a digit or the closing
    /// quote is missing.
    pub fn parse_unsigned(&mut self, width: Width) -> (r: Result<u64, Error>)
        ensures
            match r {
                Ok(v) => grammar::unsigned(old(self)@, width) == Ok::<_, Error>(
                    (v as int, final(self)@),
                ),
                Err(e) => grammar::unsigned(old(self)@, width) == Err::<(int, Seq<char>), _>(e)
                    && final(self)@ == old(self)@,
            },
    {
        match split_first(self.input) {
            None => {
                return Err(Error::Eof);
            },
            Some((c, rest)) => {
                if c != QUOTE {
                    return Err(Error::ExpectedInteger);
                }
                if rest.is_empty() {
                    return Err(Error::Eof);
                }
            },
        }
        let (digits, after) = match split_quoted(self.input) {
            None => {
                return Err(Error::ExpectedInteger);
            },
            Some(cut) => cut,
        };
        match decimal(digits) {
            Some((value, _)) => {
                let value = truncate(value, width);
                proof {
                    let n = grammar::decimal_value(digits@) as int;
                    match width {
                        Width::W8 => lemma_mod_mod(n, 0x100, 0x100_0000_0000_0000),
                        Width::W16 => lemma_mod_mod(n, 0x1_0000, 0x1_0000_0000_0000),
                        Width::W32 => lemma_mod_mod(n, 0x1_0000_0000, 0x1_0000_0000),
                        Width::W64 => {},
                    }
                }
                self.input = after;
                Ok(value)
            },
            None => Err(Error::ExpectedInteger),
        }
    }

    /// Decodes a signed integer of the given width from a quoted literal:
    /// an optional `-`, then digits. Fails with `Eof` on empty input, with
    /// `ExpectedString` where no quote opens the literal, and with
    /// `ExpectedInteger` where no quote closes it, where it is no integer,
    /// or where it denotes a number that the width cannot hold.
    pub fn parse_signed(&mut self, width: Width) -> (r: Result<i64, Error>)
        ensures
            match r {
                Ok(v) => grammar::signed(old(self)@, width) == Ok::<_, Error>(
                    (v as int, final(self)@),
                ),
                Err(e) => grammar::signed(old(self)@, width) == Err::<(int, Seq<char>), _>(e)
                    && final(self)@ == old(self)@,
            },
    {
        match split_first(self.input) {
            None => {
                return Err(Error::Eof);
            },
            Some((c, _)) => {
                if c != QUOTE {
                    return Err(Error::ExpectedString);
                }
            },
        }
        let (literal, after) = match split_quoted(self.input) {
            None => {
                return Err(Error::ExpectedInteger);
            },
            Some(cut) => cut,
        };
        let (negative, digits) = match split_first(literal) {
            Some((c, digits)) => if c == '-' {
                (true, digits)
            } else {
                (false, literal)
            },
            None => (false, literal),
        };
        let magnitude = match decimal(digits) {
            Some((magnitude, true)) => magnitude,
            _ => {
                return Err(Error::ExpectedInteger);
            },
        };
        let limit: u64 = match width {
            Width::W8 => 0x80,
            Width::W16 => 0x8000,
            Width::W32 => 0x8000_0000,
            Width::W64 => 0x8000_0000_0000_0000,
        };
        if negative {
            if magnitude > limit {
                return Err(Error::ExpectedInteger);
            }
            self.input = after;
            if magnitude == 0x8000_0000_0000_0000 {
                Ok(i64::MIN)
            } else {
                Ok(-(magnitude as i64))
            }
        } else {
            if magnitude >= limit {
                return Err(Error::ExpectedInteger);
            }
            self.input = after;
            Ok(magnitude as i64)
        }
    }

    /// Decodes a string. A quoted literal yields its content; the closing
    /// quote is consumed. Anything else yields the text up to the next
    /// space, which is consumed, or up to the end of the line. Fails with
    /// `Eof` on empty input, and where a quote opens the literal and none
    /// closes it.
    pub fn parse_string(&mut self) -> (r: Result<&'de str, Error>)
        ensures
            match r {
                Ok(t) => grammar::string(old(self)@) == Ok::<_, Error>((t@, final(self)@)),
                Err(e) => grammar::string(old(self)@) == Err::<(Seq<char>, Seq<char>), _>(e)
                    && final(self)@ == old(self)@,
            },
    {
        match split_first(self.input) {
            None => Err(Error::Eof),
            Some((c, _)) => {
                if c == QUOTE {
                    match split_quoted(self.input) {
                        None => Err(Error::Eof),
                        Some((content, after)) => {
                            self.input = after;
                            Ok(content)
                        },
                    }
                } else {
                    let (token, tail) = split_at_first(self.input, SPACE);
                    proof {
                        lemma_span(self@, SPACE);
                    }
                    match split_first(tail) {
                        None => {
                            assert(token@ =~= self@);
                            assert(tail@ =~= Seq::<char>::empty());
                            self.input = tail;
                        },
                        Some((_, after)) => {
                            assert(after@ =~= self@.skip(span(self@, SPACE) as int + 1));
                            self.input = after;
                        },
                    }
                    Ok(token)
                }
            },
        }
    }

    /// Decodes a command name: the text up to the next space, or up to the
    /// end of the line. The space is not consumed. On empty input the name
    /// is empty.
    pub fn parse_command(&mut self) -> (name: &'de str)
        ensures
            grammar::name(old(self)@) == (name@, final(self)@),
    {
        let (name, tail) = split_at_first(self.input, SPACE);
        self.input = tail;
        name
    }

    /// Decodes an option marker. Where `null` stands at the cursor it is
    /// consumed and the result is `true`: the value is absent. Otherwise
    /// nothing is consumed and the result is `false`: the value is present
    /// and its own decode comes next.
    pub fn parse_absent(&mut self) -> (absent: bool)
        ensures
            grammar::absent(old(self)@) == (absent, final(self)@),
    {
        proof {
            reveal_strlit("null");
            assert("null"@ =~= grammar::null_word());
        }
        match strip_prefix(self.input, "null") {
            Some(rest) => {
                self.input = rest;
                true
            },
            None => false,
        }
    }

    /// Decodes a unit: the bare word `null`; anything else fails with
    /// `ExpectedNull`.
    pub fn parse_unit(&mut self) -> (r: Result<(), Error>)
        ensures
            match r {
                Ok(u) => grammar::unit(old(self)@) == Ok::<_, Error>(((), final(self)@)),
                Err(e) => grammar::unit(old(self)@) == Err::<((), Seq<char>), _>(e)
                    && final(self)@ == old(self)@,
            },
    {
        if self.parse_absent() {
            Ok(())
        } else {
            Err(Error::ExpectedNull)
        }
    }
}

} // verus!
