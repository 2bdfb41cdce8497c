use plecakdb::parser::{parse, ConditionEnum, Operator, ParseError, Parser, Query, Value};
use plecakdb::tokenizer::{lex, LexError, Token};

fn parse_text(source: &str) -> Result<Query, ParseError> {
    parse(&lex(source).unwrap())
}

fn names(columns: &[plecakdb::parser::Column]) -> Vec<String> {
    columns.iter().map(|c| c.name.clone()).collect()
}

fn field(operand: &ConditionEnum) -> String {
    match operand {
        ConditionEnum::Field(c) => c.name.clone(),
        other => panic!("expected a column, found {:?}", other),
    }
}

fn integer(operand: &ConditionEnum) -> i64 {
    match operand {
        ConditionEnum::Value(Value::Integer(n)) => *n,
        other => panic!("expected an integer, found {:?}", other),
    }
}

fn text(operand: &ConditionEnum) -> String {
    match operand {
        ConditionEnum::Value(Value::Text(t)) => t.clone(),
        other => panic!("expected a text, found {:?}", other),
    }
}

#[test]
fn select_two_columns() {
    match parse_text("SELECT a, b FROM users;").unwrap() {
        Query::Select(q) => {
            assert_eq!(names(&q.selected_columns), vec!["a", "b"]);
            assert_eq!(q.table_name.name, "users");
            assert!(q.where_clause.is_none());
        }
        other => panic!("unexpected {:?}", other),
    }
}

#[test]
fn select_lower_case_keywords_with_where() {
    match parse_text("select Name from Users where age >= 18;").unwrap() {
        Query::Select(q) => {
            assert_eq!(names(&q.selected_columns), vec!["Name"]);
            assert_eq!(q.table_name.name, "Users");
            let c = q.where_clause.unwrap();
            assert_eq!(field(&c.left), "age");
            assert_eq!(c.operator, Operator::GreaterOrEqual);
            assert_eq!(integer(&c.right), 18);
        }
        other => panic!("unexpected {:?}", other),
    }
}

#[test]
fn insert_columns_and_values() {
    match parse_text("INSERT INTO t (x, y) VALUES (1, 'hi');").unwrap() {
        Query::Insert(q) => {
            assert_eq!(q.table_name.name, "t");
            assert_eq!(names(&q.columns), vec!["x", "y"]);
            assert_eq!(q.values.len(), 2);
            assert!(matches!(q.values[0], Value::Integer(1)));
            assert!(matches!(&q.values[1], Value::Text(t) if t == "hi"));
        }
        other => panic!("unexpected {:?}", other),
    }
}

#[test]
fn update_with_float_and_where() {
    match parse_text("UPDATE t SET x = 3.14 WHERE id = 7;").unwrap() {
        Query::Update(q) => {
            assert_eq!(q.table_name.name, "t");
            assert_eq!(q.changes.len(), 1);
            assert_eq!(q.changes[0].column.name, "x");
            match &q.changes[0].value {
                Value::Float(f) => assert_eq!(f.parse::<f64>().unwrap(), 3.14),
                other => panic!("unexpected {:?}", other),
            }
            let c = q.where_clause.unwrap();
            assert_eq!(field(&c.left), "id");
            assert_eq!(c.operator, Operator::Equal);
            assert_eq!(integer(&c.right), 7);
        }
        other => panic!("unexpected {:?}", other),
    }
}

#[test]
fn update_several_sets_without_where() {
    match parse_text("UPDATE t SET a = 1, b = 'x'").unwrap() {
        Query::Update(q) => {
            assert_eq!(q.changes.len(), 2);
            assert_eq!(q.changes[1].column.name, "b");
            assert!(q.where_clause.is_none());
        }
        other => panic!("unexpected {:?}", other),
    }
}

#[test]
fn delete_with_not_equal() {
    match parse_text("DELETE FROM t WHERE name != \"bob\";").unwrap() {
        Query::Delete(q) => {
            assert_eq!(q.table_name.name, "t");
            let c = q.where_clause.unwrap();
            assert_eq!(field(&c.left), "name");
            assert_eq!(c.operator, Operator::NotEqual);
            assert_eq!(text(&c.right), "bob");
        }
        other => panic!("unexpected {:?}", other),
    }
}

#[test]
fn condition_value_first() {
    match parse_text("DELETE FROM t WHERE 5 < x").unwrap() {
        Query::Delete(q) => {
            let c = q.where_clause.unwrap();
            assert_eq!(integer(&c.left), 5);
            assert_eq!(c.operator, Operator::LessThan);
            assert_eq!(field(&c.right), "x");
        }
        other => panic!("unexpected {:?}", other),
    }
}

#[test]
fn all_comparison_operators() {
    let cases = [
        ("=", Operator::Equal),
        ("!=", Operator::NotEqual),
        ("<", Operator::LessThan),
        ("<=", Operator::LessOrEqual),
        (">", Operator::GreaterThan),
        (">=", Operator::GreaterOrEqual),
    ];
    for (spelling, expected) in cases {
        let source = format!("DELETE FROM t WHERE a {} 1", spelling);
        match parse_text(&source).unwrap() {
            Query::Delete(q) => assert_eq!(q.where_clause.unwrap().operator, expected),
            other => panic!("unexpected {:?}", other),
        }
    }
}

#[test]
fn select_without_columns() {
    assert!(matches!(parse_text("SELECT FROM t;"), Err(ParseError::ExpectedIdentifier)));
}

#[test]
fn select_from_number() {
    assert!(matches!(parse_text("SELECT a FROM 1;"), Err(ParseError::ExpectedIdentifier)));
}

#[test]
fn unterminated_string_stops_before_parsing() {
    assert_eq!(lex("SELECT a FROM t WHERE \"x;").unwrap_err(), LexError::UnterminatedString);
}

#[test]
fn insert_with_unclosed_parenthesis() {
    match parse_text("INSERT INTO t (x, y VALUES (1, 2);") {
        Err(ParseError::ExpectedToken(expected, found)) => {
            assert_eq!(expected, Token::Delimiter(')'));
            assert_eq!(found, Token::Keyword("VALUES".to_string()));
        }
        other => panic!("unexpected {:?}", other),
    }
    match parse_text("INSERT INTO t (x) VALUES (1;") {
        Err(ParseError::ExpectedToken(expected, found)) => {
            assert_eq!(expected, Token::Delimiter(')'));
            assert_eq!(found, Token::Delimiter(';'));
        }
        other => panic!("unexpected {:?}", other),
    }
}

#[test]
fn trailing_semicolon_is_optional() {
    let with = format!("{:?}", parse_text("SELECT a FROM t;").unwrap());
    let without = format!("{:?}", parse_text("SELECT a FROM t").unwrap());
    assert_eq!(with, without);
}

#[test]
fn statement_must_start_with_known_keyword() {
    assert!(matches!(parse_text("users;"), Err(ParseError::UnexpectedStart)));
    assert!(matches!(parse_text("ORDER a;"), Err(ParseError::UnknownStatement)));
    assert!(matches!(parse_text(""), Err(ParseError::UnexpectedEndOfInput)));
}

#[test]
fn missing_pieces() {
    assert!(matches!(parse_text("SELECT a FROM"), Err(ParseError::UnexpectedEndOfInput)));
    assert!(matches!(parse_text("SELECT a FROM t WHERE"), Err(ParseError::UnexpectedEndOfInput)));
    assert!(matches!(parse_text("INSERT INTO t (x) VALUES ()"), Err(ParseError::ExpectedValue)));
    assert!(matches!(parse_text("DELETE FROM t WHERE a b"), Err(ParseError::ExpectedOperator)));
    assert!(matches!(parse_text("DELETE FROM t WHERE a ( 1"), Err(ParseError::ExpectedOperator)));
    assert!(matches!(parse_text("DELETE FROM t WHERE = 1"), Err(ParseError::ExpectedValue)));
    assert!(matches!(parse_text("DELETE t"), Err(ParseError::ExpectedToken(_, _))));
}

#[test]
fn operators_that_compare_nothing() {
    match parse_text("DELETE FROM t WHERE a + 1") {
        Err(ParseError::UnknownOperator(op)) => assert_eq!(op, "+"),
        other => panic!("unexpected {:?}", other),
    }
    match parse_text("DELETE FROM t WHERE a ! 1") {
        Err(ParseError::UnknownOperator(op)) => assert_eq!(op, "!"),
        other => panic!("unexpected {:?}", other),
    }
}

#[test]
fn set_needs_equal_sign() {
    match parse_text("UPDATE t SET x < 1") {
        Err(ParseError::ExpectedToken(expected, found)) => {
            assert_eq!(expected, Token::Operator("=".to_string()));
            assert_eq!(found, Token::Operator("<".to_string()));
        }
        other => panic!("unexpected {:?}", other),
    }
}

#[test]
fn parser_object_leaves_trailing_tokens() {
    let tokens = lex("DELETE FROM t; SELECT").unwrap();
    let mut parser = Parser::new(&tokens);
    assert!(matches!(parser.parse(), Ok(Query::Delete(_))));
}

#[test]
fn canonical_text_parses_back_to_the_same_query() {
    let original = parse_text("select Name , age from Users where age >= 18;").unwrap();
    let canonical = "SELECT Name , age FROM Users WHERE age >= 18 ";
    let again = parse_text(canonical).unwrap();
    assert_eq!(format!("{:?}", original), format!("{:?}", again));

    let insert = parse_text("insert into t (x, y) values (1, \"it's\");").unwrap();
    let again = parse_text("INSERT INTO t ( x , y ) VALUES ( 1 , \"it's\" ) ").unwrap();
    assert_eq!(format!("{:?}", insert), format!("{:?}", again));

    let update = parse_text("UPDATE t SET x = 3.14, y = 'a' WHERE 7 != id").unwrap();
    let again = parse_text("UPDATE t SET x = 3.14 , y = 'a' WHERE 7 != id ").unwrap();
    assert_eq!(format!("{:?}", update), format!("{:?}", again));
}

#[test]
fn semicolon_after_any_statement_changes_nothing() {
    for source in [
        "DELETE FROM t",
        "DELETE FROM t WHERE a = 1",
        "UPDATE t SET a = 1",
        "INSERT INTO t (a) VALUES (1)",
    ] {
        let plain = format!("{:?}", parse_text(source).unwrap());
        let closed = format!("{:?}", parse_text(&format!("{};", source)).unwrap());
        assert_eq!(plain, closed);
    }
}
