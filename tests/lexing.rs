use plecakdb::tokenizer::{lex, LexError, Token, Tokenizer};

fn kw(s: &str) -> Token {
    Token::Keyword(s.to_string())
}

fn ident(s: &str) -> Token {
    Token::Identifier(s.to_string())
}

fn op(s: &str) -> Token {
    Token::Operator(s.to_string())
}

#[test]
fn lexes_select_statement() {
    let tokens = lex("SELECT a, b FROM users;").unwrap();
    assert_eq!(
        tokens,
        vec![
            kw("SELECT"),
            ident("a"),
            Token::Delimiter(','),
            ident("b"),
            kw("FROM"),
            ident("users"),
            Token::Delimiter(';'),
        ]
    );
}

#[test]
fn tokenizer_object_matches_free_function() {
    let mut tokenizer = Tokenizer::new("DELETE FROM t;");
    let tokens = tokenizer.tokenize().unwrap();
    assert_eq!(tokens, lex("DELETE FROM t;").unwrap());
}

#[test]
fn whitespace_and_semicolon_only() {
    assert_eq!(lex("   \t\n ;").unwrap(), vec![Token::Delimiter(';')]);
    assert_eq!(lex(";").unwrap(), vec![Token::Delimiter(';')]);
    assert_eq!(lex("").unwrap(), vec![]);
    assert_eq!(lex("  \r\n").unwrap(), vec![]);
}

#[test]
fn keywords_are_case_insensitive_and_upper_cased() {
    assert_eq!(lex("select").unwrap(), vec![kw("SELECT")]);
    assert_eq!(lex("SeLeCt").unwrap(), vec![kw("SELECT")]);
    assert_eq!(lex("values Into where").unwrap(), vec![kw("VALUES"), kw("INTO"), kw("WHERE")]);
    assert_eq!(lex("order group set").unwrap(), vec![kw("ORDER"), kw("GROUP"), kw("SET")]);
}

#[test]
fn keyword_through_unicode_upper_casing() {
    // U+017F LATIN SMALL LETTER LONG S upper-cases to `S`.
    assert_eq!(lex("\u{17f}elect").unwrap(), vec![kw("SELECT")]);
}

#[test]
fn identifiers_keep_their_case() {
    assert_eq!(lex("Name uSeRs x_y _z").unwrap(), vec![ident("Name"), ident("uSeRs"), ident("x_y"), ident("_z")]);
    assert_eq!(lex("caf\u{e9}").unwrap(), vec![ident("caf\u{e9}")]);
}

#[test]
fn numbers_and_floats() {
    assert_eq!(lex("42").unwrap(), vec![Token::Number(42)]);
    assert_eq!(lex("007").unwrap(), vec![Token::Number(7)]);
    assert_eq!(lex("3.14").unwrap(), vec![Token::Float("3.14".to_string())]);
    assert_eq!(lex("1.").unwrap(), vec![Token::Float("1.".to_string())]);
    assert_eq!(lex("1.2.3"), Err(LexError::UnrecognizedCharacter(3)));
    assert_eq!(lex("9223372036854775807").unwrap(), vec![Token::Number(i64::MAX)]);
}

#[test]
fn float_text_reads_as_f64() {
    match &lex("3.14").unwrap()[0] {
        Token::Float(text) => assert_eq!(text.parse::<f64>().unwrap(), 3.14),
        other => panic!("unexpected token {:?}", other),
    }
}

#[test]
fn integer_overflow_is_numeric_parse() {
    assert_eq!(lex("9223372036854775808"), Err(LexError::NumericParse));
    assert_eq!(lex("SELECT a FROM t WHERE id = 99999999999999999999;"), Err(LexError::NumericParse));
}

#[test]
fn two_character_operators() {
    assert_eq!(lex("<= >= != && ||").unwrap(), vec![op("<="), op(">="), op("!="), op("&&"), op("||")]);
    assert_eq!(lex("< = > = ! =").unwrap(), vec![op("<"), op("="), op(">"), op("="), op("!"), op("=")]);
    assert_eq!(lex("& | !").unwrap(), vec![op("&"), op("|"), op("!")]);
    assert_eq!(lex("+-*/=").unwrap(), vec![op("+"), op("-"), op("*"), op("/"), op("=")]);
    assert_eq!(lex("a<=1").unwrap(), vec![ident("a"), op("<="), Token::Number(1)]);
}

#[test]
fn string_literals() {
    assert_eq!(lex("'hi'").unwrap(), vec![Token::StringLiteral("hi".to_string())]);
    assert_eq!(lex("\"bob\"").unwrap(), vec![Token::StringLiteral("bob".to_string())]);
    assert_eq!(lex("'say \"x\"'").unwrap(), vec![Token::StringLiteral("say \"x\"".to_string())]);
    assert_eq!(lex("''").unwrap(), vec![Token::StringLiteral(String::new())]);
}

#[test]
fn unterminated_string() {
    assert_eq!(lex("SELECT a FROM t WHERE \"x;"), Err(LexError::UnterminatedString));
    assert_eq!(lex("'abc\""), Err(LexError::UnterminatedString));
}

#[test]
fn unrecognized_character_reports_byte_offset() {
    assert_eq!(lex("a # b"), Err(LexError::UnrecognizedCharacter(2)));
    assert_eq!(lex("\u{e9} \u{20ac}"), Err(LexError::UnrecognizedCharacter(3)));
    assert_eq!(lex("."), Err(LexError::UnrecognizedCharacter(0)));
}

#[test]
fn unicode_white_space_is_skipped() {
    assert_eq!(lex("a\u{a0}b").unwrap(), vec![ident("a"), ident("b")]);
}
