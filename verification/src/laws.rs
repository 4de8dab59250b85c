//! What holds of every decode, proved from the grammar.

use crate::error::Error;
use crate::grammar::{
    after_quoted, all_digits, boolean, command, command_end, command_space, decimal_value, end,
    false_literal, integer_value, is_digit, is_integer, line, name, next, quoted, signed, string,
    true_literal, unit, unsigned, value, LINE_FEED, QUOTE, SPACE,
};
use crate::number::lemma_decimal_value_push;
use crate::shape::{Payload, Shape, Width};
use crate::text::{lemma_span, lemma_span_after_prefix, span};
use crate::value::SpecCommand;
use vstd::arithmetic::div_mod::lemma_small_mod;
use vstd::prelude::*;

verus! {

/// The character of a decimal digit.
pub open spec fn digit_char(d: nat) -> char {
    ('0' as nat + d) as char
}

/// The decimal numeral of a natural number: its digits, most significant
/// first, without leading zeros.
pub open spec fn numeral(n: nat) -> Seq<char>
    decreases n,
{
    if n < 10 {
        seq![digit_char(n)]
    } else {
        numeral(n / 10).push(digit_char(n % 10))
    }
}

/// The decimal numeral of an integer: a `-` before the numeral of a
/// negative number's magnitude.
pub open spec fn signed_numeral(v: int) -> Seq<char> {
    if v < 0 {
        seq!['-'] + numeral((-v) as nat)
    } else {
        numeral(v as nat)
    }
}

/// A quoted literal: `content` between two quotes.
pub open spec fn in_quotes(content: Seq<char>) -> Seq<char> {
    seq![QUOTE] + content + seq![QUOTE]
}

/// A numeral is a nonempty run of digits that denotes its number.
pub proof fn numeral_denotes_its_number(n: nat)
    ensures
        numeral(n).len() > 0,
        all_digits(numeral(n)),
        decimal_value(numeral(n)) == n,
    decreases n,
{
    if n < 10 {
        assert(numeral(n).drop_last() =~= Seq::<char>::empty());
        assert(decimal_value(Seq::<char>::empty()) == 0);
    } else {
        numeral_denotes_its_number(n / 10);
        lemma_decimal_value_push(numeral(n / 10), digit_char(n % 10));
    }
}

/// A quoted literal at the head of a text is read back as its content, and
/// the text goes on after the closing quote.
pub proof fn quoted_reads_content(content: Seq<char>, rest: Seq<char>)
    requires
        !content.contains(QUOTE),
    ensures
        quoted(in_quotes(content) + rest) == Some(content),
        after_quoted(in_quotes(content) + rest, content) == rest,
{
    let s = in_quotes(content) + rest;
    let inner = s.skip(1);
    let n = content.len() as int;
    assert(inner =~= content + seq![QUOTE] + rest);
    lemma_span_after_prefix(content, QUOTE, rest);
    assert(inner[n] == QUOTE);
    assert(inner.take(n) =~= content);
    assert(s.skip(n + 2) =~= rest);
}

/// Digits hold no quote.
proof fn digits_hold_no_quote(digits: Seq<char>)
    requires
        all_digits(digits),
    ensures
        !digits.contains(QUOTE),
        !digits.contains('-'),
{
    if digits.contains(QUOTE) {
        let i = choose|i: int| 0 <= i < digits.len() && digits[i] == QUOTE;
        assert(is_digit(digits[i]));
    }
    if digits.contains('-') {
        let i = choose|i: int| 0 <= i < digits.len() && digits[i] == '-';
        assert(is_digit(digits[i]));
    }
}

/// Decoding a quoted run of digits as an unsigned integer yields the
/// number that the digits denote, reduced to the width; the cursor stands
/// after the closing quote.
pub proof fn unsigned_reads_digits(digits: Seq<char>, w: Width, rest: Seq<char>)
    requires
        digits.len() > 0,
        all_digits(digits),
    ensures
        unsigned(in_quotes(digits) + rest, w) == Ok::<_, Error>(
            (decimal_value(digits) as int % w.modulus(), rest),
        ),
{
    digits_hold_no_quote(digits);
    quoted_reads_content(digits, rest);
}

/// Every number that an unsigned integer of a width can hold is decoded
/// from its quoted numeral as that very number.
pub proof fn unsigned_reads_numeral(n: nat, w: Width, rest: Seq<char>)
    requires
        n < w.modulus(),
    ensures
        unsigned(in_quotes(numeral(n)) + rest, w) == Ok::<_, Error>((n as int, rest)),
{
    numeral_denotes_its_number(n);
    unsigned_reads_digits(numeral(n), w, rest);
    lemma_small_mod(n, w.modulus() as nat);
}

/// Every number that a signed integer of a width can hold is decoded from
/// its quoted numeral as that very number.
pub proof fn signed_reads_numeral(v: int, w: Width, rest: Seq<char>)
    requires
        w.min() <= v <= w.max(),
    ensures
        signed(in_quotes(signed_numeral(v)) + rest, w) == Ok::<_, Error>((v, rest)),
{
    let lit = signed_numeral(v);
    if v < 0 {
        let m = (-v) as nat;
        numeral_denotes_its_number(m);
        digits_hold_no_quote(numeral(m));
        assert(lit.skip(1) =~= numeral(m));
        assert forall|i: int| 0 <= i < lit.len() implies lit[i] != QUOTE by {
            if i > 0 {
                assert(lit[i] == numeral(m)[i - 1]);
                assert(numeral(m).contains(lit[i]));
            }
        }
    } else {
        numeral_denotes_its_number(v as nat);
        digits_hold_no_quote(lit);
        assert(is_digit(lit[0]));
    }
    quoted_reads_content(lit, rest);
}

/// A literal that is no integer, or whose number the width cannot hold,
/// is refused with `ExpectedInteger`.
pub proof fn signed_refuses_the_rest(lit: Seq<char>, w: Width, rest: Seq<char>)
    requires
        !lit.contains(QUOTE),
        !is_integer(lit) || integer_value(lit) < w.min() || integer_value(lit) > w.max(),
    ensures
        signed(in_quotes(lit) + rest, w) == Err::<(int, Seq<char>), _>(Error::ExpectedInteger),
{
    quoted_reads_content(lit, rest);
}

/// A signed literal that no quote closes is refused with
/// `ExpectedInteger`, whatever it holds.
pub proof fn signed_unclosed_is_refused(content: Seq<char>, w: Width)
    requires
        !content.contains(QUOTE),
    ensures
        signed(seq![QUOTE] + content, w) == Err::<(int, Seq<char>), _>(Error::ExpectedInteger),
{
    let s = seq![QUOTE] + content;
    assert(s.skip(1) =~= content);
}

/// The two boolean literals decode to `true` and `false` and are consumed;
/// every other text is refused with `ExpectedBoolean`.
pub proof fn boolean_reads_its_two_literals(s: Seq<char>, rest: Seq<char>)
    ensures
        boolean(true_literal() + rest) == Ok::<_, Error>((true, rest)),
        boolean(false_literal() + rest) == Ok::<_, Error>((false, rest)),
        !true_literal().is_prefix_of(s) && !false_literal().is_prefix_of(s) ==> boolean(s) == Err::<
            (bool, Seq<char>),
            _,
        >(Error::ExpectedBoolean),
{
    let t = true_literal() + rest;
    assert(t.subrange(0, 3) =~= true_literal());
    assert(t.skip(3) =~= rest);
    let f = false_literal() + rest;
    assert(f.subrange(0, 3) =~= false_literal());
    assert(!(true_literal() =~= f.subrange(0, 3))) by {
        assert(f.subrange(0, 3)[1] == '0');
        assert(true_literal()[1] == '1');
    }
    assert(f.skip(3) =~= rest);
}

/// A string written in quotes is read back as it was written, whatever
/// follows the closing quote; an empty pair of quotes yields the empty
/// string.
pub proof fn string_reads_quoted(content: Seq<char>, rest: Seq<char>)
    requires
        !content.contains(QUOTE),
    ensures
        string(in_quotes(content) + rest) == Ok::<_, Error>((content, rest)),
{
    quoted_reads_content(content, rest);
}

/// A string written without quotes is read back up to the end of the
/// line, or up to the space that ends it, which is consumed.
pub proof fn string_reads_unquoted(token: Seq<char>, rest: Seq<char>)
    requires
        token.len() > 0,
        token[0] != QUOTE,
        !token.contains(SPACE),
    ensures
        string(token) == Ok::<_, Error>((token, Seq::<char>::empty())),
        string(token + seq![SPACE] + rest) == Ok::<_, Error>((token, rest)),
{
    lemma_span(token, SPACE);
    let s = token + seq![SPACE] + rest;
    let n = token.len() as int;
    lemma_span_after_prefix(token, SPACE, rest);
    assert(s.take(n) =~= token);
    assert(s.skip(n + 1) =~= rest);
}

/// A quote that is never closed ends the decode with `Eof`.
pub proof fn string_unclosed_is_eof(content: Seq<char>)
    requires
        !content.contains(QUOTE),
    ensures
        string(seq![QUOTE] + content) == Err::<(Seq<char>, Seq<char>), _>(Error::Eof),
{
    let s = seq![QUOTE] + content;
    assert(s.skip(1) =~= content);
}

/// A line without a space is a bare command: the whole line is its name,
/// and nothing is left of the line.
pub proof fn bare_command_is_its_line(s: Seq<char>)
    requires
        !s.contains(SPACE),
    ensures
        command(s, Payload::Nothing) == Ok::<_, Error>(
            (SpecCommand { name: s, payload: None }, Seq::<char>::empty()),
        ),
        line(s, Payload::Nothing) == Ok::<_, Error>(SpecCommand { name: s, payload: None }),
{
    lemma_span(s, SPACE);
    assert(s.take(s.len() as int) =~= s);
    assert(s.skip(s.len() as int) =~= Seq::<char>::empty());
}

/// Where a decode pass succeeds, the command has consumed the whole line:
/// the check for trailing characters finds none, however often it is made.
pub proof fn success_leaves_nothing(s: Seq<char>, p: Payload)
    requires
        line(s, p) is Ok,
    ensures
        command(s, p) is Ok,
        command(s, p)->Ok_0.0 == line(s, p)->Ok_0,
        command(s, p)->Ok_0.1.len() == 0,
        end(command(s, p)->Ok_0.1) is Ok,
{
}

/// What is left after a command fails the pass with `TrailingCharacters`,
/// and only that does.
pub proof fn trailing_characters_only_after_a_command(s: Seq<char>, p: Payload)
    ensures
        line(s, p) == Err::<SpecCommand, _>(Error::TrailingCharacters) <==> command(s, p) is Ok
            && command(s, p)->Ok_0.1.len() > 0,
{
    if command(s, p) is Err {
        command_never_fails_with_trailing_characters(s, p);
    }
}

/// No step of a command fails with `TrailingCharacters`.
proof fn command_never_fails_with_trailing_characters(s: Seq<char>, p: Payload)
    ensures
        command(s, p) != Err::<(SpecCommand, Seq<char>), _>(Error::TrailingCharacters),
{
}

/// A command that takes no payload must stand alone on its line. A line
/// that holds a space is refused, never cut short: with
/// `ExpectedCommandSpace` where a second space follows the first, and with
/// `ExpectedString` otherwise.
pub proof fn bare_command_refuses_a_space(s: Seq<char>)
    requires
        s.contains(SPACE),
    ensures
        line(s, Payload::Nothing) == Err::<SpecCommand, _>(
            if span(s, SPACE) + 1 < s.len() && s[span(s, SPACE) as int + 1] == SPACE {
                Error::ExpectedCommandSpace
            } else {
                Error::ExpectedString
            },
        ),
{
    lemma_span(s, SPACE);
}

/// A name followed by two spaces is refused with `ExpectedCommandSpace`,
/// whatever the command takes and whatever follows.
pub proof fn two_spaces_after_the_name(n: Seq<char>, rest: Seq<char>, p: Payload)
    requires
        !n.contains(SPACE),
    ensures
        line(n + seq![SPACE, SPACE] + rest, p) == Err::<SpecCommand, _>(
            Error::ExpectedCommandSpace,
        ),
{
    let s = n + seq![SPACE, SPACE] + rest;
    let k = n.len() as int;
    assert(s =~= n + seq![SPACE] + (seq![SPACE] + rest));
    lemma_span_after_prefix(n, SPACE, seq![SPACE] + rest);
    lemma_span(s, SPACE);
    assert(s[k + 1] == SPACE);
}

/// A command line of a name, one space and a payload decodes to the name
/// and to what the payload decodes to, where the end of the line follows.
pub proof fn command_with_payload(n: Seq<char>, text: Seq<char>, shape: Shape)
    requires
        !n.contains(SPACE),
        text.len() > 0 ==> text[0] != SPACE,
    ensures
        line(n + seq![SPACE] + text, Payload::Required(shape)) == match value(text, shape) {
            Err(e) => Err::<SpecCommand, _>(e),
            Ok((v, rest)) => if rest.len() == 0 || rest =~= seq![LINE_FEED] {
                Ok(SpecCommand { name: n, payload: Some(v) })
            } else if rest[0] == LINE_FEED {
                Err(Error::TrailingCharacters)
            } else {
                Err(Error::ExpectedCommandNewline)
            },
        },
{
    let s = n + seq![SPACE] + text;
    let k = n.len() as int;
    lemma_span_after_prefix(n, SPACE, text);
    lemma_span(s, SPACE);
    assert(s.take(k) =~= n);
    assert(s.skip(k).skip(1) =~= text);
    if text.len() > 0 {
        assert(s.skip(k)[1] == text[0]);
    }
}

/// An unclosed quote in a string payload ends the pass with `Eof`.
pub proof fn unclosed_quote_in_payload(n: Seq<char>, content: Seq<char>)
    requires
        !n.contains(SPACE),
        !content.contains(QUOTE),
    ensures
        line(n + seq![SPACE] + (seq![QUOTE] + content), Payload::Required(Shape::Str)) == Err::<
            SpecCommand,
            _,
        >(Error::Eof),
{
    string_unclosed_is_eof(content);
    command_with_payload(n, seq![QUOTE] + content, Shape::Str);
}

/// The cursor only moves forward: what a decode leaves is a suffix of
/// what it found.
pub proof fn decodes_leave_a_suffix(s: Seq<char>, w: Width)
    ensures
        next(s) matches Ok((_, rest)) ==> rest.is_suffix_of(s),
        boolean(s) matches Ok((_, rest)) ==> rest.is_suffix_of(s),
        unsigned(s, w) matches Ok((_, rest)) ==> rest.is_suffix_of(s),
        signed(s, w) matches Ok((_, rest)) ==> rest.is_suffix_of(s),
        string(s) matches Ok((_, rest)) ==> rest.is_suffix_of(s),
        unit(s) matches Ok((_, rest)) ==> rest.is_suffix_of(s),
        name(s).1.is_suffix_of(s),
        command_space(s) matches Ok((_, rest)) ==> rest.is_suffix_of(s),
        command_end(s) matches Ok((_, rest)) ==> rest.is_suffix_of(s),
{
    lemma_span(s, SPACE);
    if s.len() > 0 {
        lemma_span(s.skip(1), QUOTE);
    }
}

} // verus!
