use command_decoder::{from_str, Command, Deserializer, Error, Payload, Shape, Value, Width};

fn bare(name: &str) -> Command<'_> {
    Command { name, payload: None }
}

fn with<'a>(name: &'a str, value: Value<'a>) -> Command<'a> {
    Command { name, payload: Some(value) }
}

#[test]
fn test_command() {
    let j = "status";
    let expected = bare("status");
    assert_eq!(expected, from_str(j, Payload::Nothing).unwrap());
}

#[test]
fn test_bool_command() {
    let o = "pause \"1\"";
    let expected = with("pause", Value::Bool(true));
    assert_eq!(expected, from_str(o, Payload::Required(Shape::Bool)).unwrap());

    let p = "pause \"0\"";
    let expected = with("pause", Value::Bool(false));
    assert_eq!(expected, from_str(p, Payload::Required(Shape::Bool)).unwrap());
}

#[test]
fn test_string_command() {
    let q = "listplaylist \"\"";
    let expected = with("listplaylist", Value::Str(""));
    assert_eq!(expected, from_str(q, Payload::Required(Shape::Str)).unwrap());

    let r = "listplaylist \"test\"";
    let expected = with("listplaylist", Value::Str("test"));
    assert_eq!(expected, from_str(r, Payload::Required(Shape::Str)).unwrap());

    let s = "listplaylist tet";
    let expected = with("listplaylist", Value::Str("tet"));
    assert_eq!(expected, from_str(s, Payload::Required(Shape::Str)).unwrap());
}

#[test]
fn test_int_command() {
    let n = "play \"4\"";
    let expected = with("play", Value::Unsigned(4));
    assert_eq!(expected, from_str(n, Payload::Required(Shape::Unsigned(Width::W64))).unwrap());
}

#[test]
fn bare_command_consumes_the_line() {
    let mut de = Deserializer::from_str("status");
    assert!(!de.has_payload());
    assert_eq!(Ok(bare("status")), de.parse_line(Payload::Nothing));
    assert_eq!("", de.remaining());
    assert_eq!(Ok(()), de.end());
    assert_eq!(Ok(()), de.end());
}

#[test]
fn bool_command_leaves_the_cursor_at_the_end() {
    for (line, value) in [("pause \"1\"", true), ("pause \"0\"", false)] {
        let mut de = Deserializer::from_str(line);
        assert!(de.has_payload());
        assert_eq!(
            Ok(with("pause", Value::Bool(value))),
            de.parse_line(Payload::Required(Shape::Bool))
        );
        assert_eq!("", de.remaining());
        assert_eq!(Ok(()), de.end());
    }
}

#[test]
fn command_by_steps() {
    let mut de = Deserializer::from_str("pause \"1\"\n");
    assert!(de.has_payload());
    assert_eq!("pause", de.parse_command());
    assert_eq!(" \"1\"\n", de.remaining());
    assert_eq!(Ok(()), de.command_space());
    assert_eq!(Ok(true), de.parse_bool());
    assert_eq!(Ok(()), de.command_end());
    assert_eq!(Ok(()), de.end());
}

#[test]
fn bare_command_refuses_a_space() {
    assert_eq!(Err(Error::ExpectedString), from_str("status extra", Payload::Nothing));
    assert_eq!(Err(Error::ExpectedString), from_str("status ", Payload::Nothing));
    assert_eq!(Err(Error::ExpectedCommandSpace), from_str("status  extra", Payload::Nothing));
}

#[test]
fn trailing_characters_after_the_line_feed() {
    let bool_payload = Payload::Required(Shape::Bool);
    assert_eq!(Ok(with("pause", Value::Bool(true))), from_str("pause \"1\"\n", bool_payload));
    assert_eq!(Err(Error::TrailingCharacters), from_str("pause \"1\"\nx", bool_payload));
    assert_eq!(Err(Error::TrailingCharacters), from_str("pause \"1\"\n\n", bool_payload));
    assert_eq!(Err(Error::ExpectedCommandNewline), from_str("pause \"1\"x", bool_payload));
    assert_eq!(Err(Error::ExpectedCommandNewline), from_str("pause \"1\" ", bool_payload));
    assert_eq!(
        Err(Error::ExpectedCommandNewline),
        from_str("listplaylist \"a\" \"b\"", Payload::Required(Shape::Str))
    );
}

#[test]
fn unclosed_quote_is_eof() {
    assert_eq!(Err(Error::Eof), from_str("listplaylist \"test", Payload::Required(Shape::Str)));
    assert_eq!(Err(Error::Eof), from_str("listplaylist \"", Payload::Required(Shape::Str)));
}

#[test]
fn two_spaces_after_the_name() {
    assert_eq!(
        Err(Error::ExpectedCommandSpace),
        from_str("pause  \"1\"", Payload::Required(Shape::Bool))
    );
    assert_eq!(
        Err(Error::ExpectedCommandSpace),
        from_str("listplaylist  tet", Payload::Required(Shape::Str))
    );
    let mut de = Deserializer::from_str("  x");
    assert_eq!(Err(Error::ExpectedCommandSpace), de.command_space());
    assert_eq!("  x", de.remaining());
    let mut de = Deserializer::from_str("x");
    assert_eq!(Err(Error::ExpectedCommandSpace), de.command_space());
    let mut de = Deserializer::from_str("");
    assert_eq!(Err(Error::Eof), de.command_space());
    let mut de = Deserializer::from_str(" ");
    assert_eq!(Ok(()), de.command_space());
    assert_eq!("", de.remaining());
}

#[test]
fn payload_missing_from_a_bare_line() {
    assert_eq!(Err(Error::ExpectedBoolean), from_str("pause", Payload::Required(Shape::Bool)));
    assert_eq!(Err(Error::Eof), from_str("listplaylist", Payload::Required(Shape::Str)));
    assert_eq!(
        Err(Error::Eof),
        from_str("play", Payload::Required(Shape::Unsigned(Width::W8)))
    );
    assert_eq!(Err(Error::Eof), from_str("seek", Payload::Required(Shape::Signed(Width::W8))));
    assert_eq!(Err(Error::ExpectedNull), from_str("ping", Payload::Required(Shape::Unit)));
    assert_eq!(Err(Error::ExpectedBoolean), from_str("pause", Payload::Optional(Shape::Bool)));
}

#[test]
fn optional_payload() {
    let p = Payload::Optional(Shape::Bool);
    assert_eq!(Ok(with("pause", Value::Null)), from_str("pause null", p));
    assert_eq!(Ok(with("pause", Value::Bool(true))), from_str("pause \"1\"", p));
    assert_eq!(Err(Error::ExpectedBoolean), from_str("pause nul", p));
    assert_eq!(Err(Error::ExpectedCommandNewline), from_str("pause nullx", p));
}

#[test]
fn unit_payload() {
    let p = Payload::Required(Shape::Unit);
    assert_eq!(Ok(with("ping", Value::Null)), from_str("ping null", p));
    assert_eq!(Err(Error::ExpectedNull), from_str("ping \"null\"", p));
    assert_eq!(Err(Error::ExpectedNull), from_str("ping nil", p));
}

#[test]
fn failed_line_leaves_the_cursor() {
    let mut de = Deserializer::from_str("pause \"2\"");
    assert_eq!(Err(Error::ExpectedBoolean), de.parse_line(Payload::Required(Shape::Bool)));
    assert_eq!("pause \"2\"", de.remaining());
}

#[test]
fn names_and_strings_beyond_ascii() {
    let p = Payload::Required(Shape::Str);
    assert_eq!(Ok(with("søk", Value::Str("日本語 と 😀"))), from_str("søk \"日本語 と 😀\"", p));
    assert_eq!(Ok(with("søk", Value::Str("é😀ß"))), from_str("søk é😀ß", p));
    assert_eq!(Ok(with("søk", Value::Str("é😀ß\n"))), from_str("søk é😀ß\n", p));
    assert_eq!(Ok(bare("日本語")), from_str("日本語", Payload::Nothing));
    assert_eq!(Err(Error::Eof), from_str("søk \"日本語", p));
}
