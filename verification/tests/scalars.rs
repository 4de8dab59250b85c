use command_decoder::{Deserializer, Error, Width};

fn unsigned(input: &str, w: Width) -> (Result<u64, Error>, &str) {
    let mut de = Deserializer::from_str(input);
    let r = de.parse_unsigned(w);
    (r, de.remaining())
}

fn signed(input: &str, w: Width) -> (Result<i64, Error>, &str) {
    let mut de = Deserializer::from_str(input);
    let r = de.parse_signed(w);
    (r, de.remaining())
}

fn string(input: &str) -> (Result<&str, Error>, &str) {
    let mut de = Deserializer::from_str(input);
    let r = de.parse_string();
    (r, de.remaining())
}

fn boolean(input: &str) -> (Result<bool, Error>, &str) {
    let mut de = Deserializer::from_str(input);
    let r = de.parse_bool();
    (r, de.remaining())
}

#[test]
fn peek_and_next() {
    let mut de = Deserializer::from_str("aé");
    assert_eq!(Ok('a'), de.peek_char());
    assert_eq!("aé", de.remaining());
    assert_eq!(Ok('a'), de.next_char());
    assert_eq!(Ok('é'), de.peek_char());
    assert_eq!(Ok('é'), de.next_char());
    assert_eq!("", de.remaining());
    assert_eq!(Err(Error::Eof), de.peek_char());
    assert_eq!(Err(Error::Eof), de.next_char());
    assert_eq!("", de.remaining());
}

#[test]
fn next_steps_over_every_encoding_width() {
    let mut de = Deserializer::from_str("a\u{7f}\u{80}ß\u{7ff}\u{800}日\u{ffff}\u{10000}😀\u{10ffff}z");
    for c in ['a', '\u{7f}', '\u{80}', 'ß', '\u{7ff}', '\u{800}', '日', '\u{ffff}', '\u{10000}', '😀', '\u{10ffff}', 'z'] {
        assert_eq!(Ok(c), de.next_char());
    }
    assert_eq!(Err(Error::Eof), de.next_char());
}

#[test]
fn booleans() {
    assert_eq!((Ok(true), ""), boolean("\"1\""));
    assert_eq!((Ok(false), ""), boolean("\"0\""));
    assert_eq!((Ok(true), "\"0\""), boolean("\"1\"\"0\""));
    assert_eq!((Ok(false), " x"), boolean("\"0\" x"));
}

#[test]
fn not_booleans() {
    for input in ["\"2\"", "true", "", "\"", "\"1", "1", "\"10\"", " \"1\"", "\"true\"", "\"\""] {
        assert_eq!((Err(Error::ExpectedBoolean), input), boolean(input));
    }
}

#[test]
fn unsigned_integers() {
    assert_eq!((Ok(4), ""), unsigned("\"4\"", Width::W64));
    assert_eq!((Ok(0), ""), unsigned("\"0\"", Width::W8));
    assert_eq!((Ok(7), ""), unsigned("\"007\"", Width::W8));
    assert_eq!((Ok(255), ""), unsigned("\"255\"", Width::W8));
    assert_eq!((Ok(65535), "x"), unsigned("\"65535\"x", Width::W16));
    assert_eq!((Ok(4294967295), "\n"), unsigned("\"4294967295\"\n", Width::W32));
    assert_eq!((Ok(u64::MAX), ""), unsigned("\"18446744073709551615\"", Width::W64));
    assert_eq!((Ok(1234567890123), " "), unsigned("\"1234567890123\" ", Width::W64));
}

#[test]
fn unsigned_integers_wrap_at_their_width() {
    assert_eq!((Ok(0), ""), unsigned("\"256\"", Width::W8));
    assert_eq!((Ok(44), ""), unsigned("\"300\"", Width::W8));
    assert_eq!((Ok(1), ""), unsigned("\"65537\"", Width::W16));
    assert_eq!((Ok(0), ""), unsigned("\"4294967296\"", Width::W32));
    assert_eq!((Ok(0), ""), unsigned("\"18446744073709551616\"", Width::W64));
    assert_eq!((Ok(9), ""), unsigned("\"18446744073709551625\"", Width::W64));
    // 10^30 mod 2^64, and mod 2^8
    assert_eq!(
        (Ok(5076944270305263616), ""),
        unsigned("\"1000000000000000000000000000000\"", Width::W64)
    );
    assert_eq!((Ok(0), ""), unsigned("\"1000000000000000000000000000000\"", Width::W8));
}

#[test]
fn not_unsigned_integers() {
    assert_eq!((Err(Error::Eof), ""), unsigned("", Width::W64));
    assert_eq!((Err(Error::Eof), "\""), unsigned("\"", Width::W64));
    for input in ["4", "x", " \"4\"", "\"\"", "\"x\"", "\"4", "\"4x\"", "\"-4\"", "\"+4\"", "\"4 \"", "\"4.0\"", "\"٤\""] {
        assert_eq!((Err(Error::ExpectedInteger), input), unsigned(input, Width::W64));
    }
}

#[test]
fn signed_integers() {
    assert_eq!((Ok(4), ""), signed("\"4\"", Width::W64));
    assert_eq!((Ok(-4), "x"), signed("\"-4\"x", Width::W8));
    assert_eq!((Ok(0), ""), signed("\"-0\"", Width::W8));
    assert_eq!((Ok(12), ""), signed("\"0012\"", Width::W8));
    assert_eq!((Ok(-12), ""), signed("\"-0012\"", Width::W8));
    assert_eq!((Ok(127), ""), signed("\"127\"", Width::W8));
    assert_eq!((Ok(-128), ""), signed("\"-128\"", Width::W8));
    assert_eq!((Ok(32767), ""), signed("\"32767\"", Width::W16));
    assert_eq!((Ok(-32768), ""), signed("\"-32768\"", Width::W16));
    assert_eq!((Ok(2147483647), ""), signed("\"2147483647\"", Width::W32));
    assert_eq!((Ok(-2147483648), ""), signed("\"-2147483648\"", Width::W32));
    assert_eq!((Ok(i64::MAX), ""), signed("\"9223372036854775807\"", Width::W64));
    assert_eq!((Ok(i64::MIN), ""), signed("\"-9223372036854775808\"", Width::W64));
}

#[test]
fn signed_integers_out_of_their_width() {
    for (input, w) in [
        ("\"128\"", Width::W8),
        ("\"-129\"", Width::W8),
        ("\"32768\"", Width::W16),
        ("\"-32769\"", Width::W16),
        ("\"2147483648\"", Width::W32),
        ("\"-2147483649\"", Width::W32),
        ("\"9223372036854775808\"", Width::W64),
        ("\"-9223372036854775809\"", Width::W64),
        ("\"18446744073709551616\"", Width::W64),
        ("\"-1000000000000000000000000000000\"", Width::W64),
    ] {
        assert_eq!((Err(Error::ExpectedInteger), input), signed(input, w));
    }
}

#[test]
fn not_signed_integers() {
    assert_eq!((Err(Error::Eof), ""), signed("", Width::W64));
    assert_eq!((Err(Error::ExpectedInteger), "\""), signed("\"", Width::W64));
    assert_eq!((Err(Error::ExpectedInteger), "\"4"), signed("\"4", Width::W64));
    assert_eq!((Err(Error::ExpectedInteger), "\"12"), signed("\"12", Width::W32));
    assert_eq!((Err(Error::ExpectedInteger), "\"-12 x"), signed("\"-12 x", Width::W32));
    assert_eq!((Err(Error::ExpectedString), "4"), signed("4", Width::W64));
    assert_eq!((Err(Error::ExpectedString), "-4"), signed("-4", Width::W64));
    for input in ["\"\"", "\"-\"", "\"--4\"", "\"+4\"", "\"4-\"", "\"x\"", "\" 4\"", "\"4 \"", "\"1_0\""] {
        assert_eq!((Err(Error::ExpectedInteger), input), signed(input, Width::W64));
    }
}

#[test]
fn strings() {
    assert_eq!((Ok(""), ""), string("\"\""));
    assert_eq!((Ok("test"), ""), string("\"test\""));
    assert_eq!((Ok("tet"), ""), string("tet"));
    assert_eq!((Ok("a b"), " c"), string("\"a b\" c"));
    assert_eq!((Ok("a"), "b c"), string("a b c"));
    assert_eq!((Ok("a"), ""), string("a "));
    assert_eq!((Ok(""), "a"), string(" a"));
    assert_eq!((Ok("a\"b"), ""), string("a\"b"));
    assert_eq!((Ok("tet\n"), ""), string("tet\n"));
}

#[test]
fn not_strings() {
    assert_eq!((Err(Error::Eof), ""), string(""));
    assert_eq!((Err(Error::Eof), "\""), string("\""));
    assert_eq!((Err(Error::Eof), "\"test"), string("\"test"));
    assert_eq!((Err(Error::Eof), "\"a b c"), string("\"a b c"));
}

#[test]
fn command_names() {
    let mut de = Deserializer::from_str("pause \"1\"");
    assert_eq!("pause", de.parse_command());
    assert_eq!(" \"1\"", de.remaining());
    assert_eq!("", de.parse_command());
    assert_eq!(" \"1\"", de.remaining());

    let mut de = Deserializer::from_str("status");
    assert_eq!("status", de.parse_command());
    assert_eq!("", de.remaining());
    assert_eq!("", de.parse_command());

    let mut de = Deserializer::from_str("\"quoted\" x");
    assert_eq!("\"quoted\"", de.parse_command());
}

#[test]
fn option_markers_and_units() {
    let mut de = Deserializer::from_str("null\"1\"");
    assert!(de.parse_absent());
    assert_eq!("\"1\"", de.remaining());
    assert!(!de.parse_absent());
    assert_eq!("\"1\"", de.remaining());

    let mut de = Deserializer::from_str("nullnul");
    assert_eq!(Ok(()), de.parse_unit());
    assert_eq!(Err(Error::ExpectedNull), de.parse_unit());
    assert_eq!("nul", de.remaining());

    let mut de = Deserializer::from_str("");
    assert!(!de.parse_absent());
    assert_eq!(Err(Error::ExpectedNull), de.parse_unit());
}

#[test]
fn ends() {
    let mut de = Deserializer::from_str("\n\nx");
    assert_eq!(Err(Error::TrailingCharacters), de.end());
    assert_eq!(Ok(()), de.command_end());
    assert_eq!("\nx", de.remaining());
    assert_eq!(Ok(()), de.command_end());
    assert_eq!(Err(Error::ExpectedCommandNewline), de.command_end());
    assert_eq!("x", de.remaining());
    assert_eq!(Err(Error::TrailingCharacters), de.end());

    let mut de = Deserializer::from_str("");
    assert_eq!(Ok(()), de.command_end());
    assert_eq!(Ok(()), de.end());
}
