use std::path::PathBuf;

use imperative_compiler::lexer::{tokenize, LexerError};
use imperative_compiler::operators::SyntacticOperator;
use imperative_compiler::test_dirs::{split_file_name, ListError, TestDirContents};
use imperative_compiler::text::{append_decimal, append_signed_decimal, decimal, utf8_width};
use imperative_compiler::tokens::{
    BoolLiteral, BuiltinTypename, Comment, Extent, Identifier, IntegerLiteral, InvalidToken,
    Keyword, Position, RealLiteral, Token, TokenKind,
};

#[test]
fn decimal_numbers() {
    assert_eq!(decimal(0), "0");
    assert_eq!(decimal(7), "7");
    assert_eq!(decimal(10), "10");
    assert_eq!(decimal(1234567890), "1234567890");
    assert_eq!(decimal(u64::MAX), u64::MAX.to_string());
    let mut text = "n=".to_string();
    append_decimal(&mut text, 42);
    assert_eq!(text, "n=42");
    for value in [0, 1, -1, 99, -100, i64::MAX, i64::MIN] {
        let mut text = String::new();
        append_signed_decimal(&mut text, value);
        assert_eq!(text, value.to_string());
    }
}

#[test]
fn width_of_a_character_in_utf8() {
    for c in ['a', '\u{7f}', '\u{80}', 'я', '\u{7ff}', '\u{800}', '€', '\u{ffff}', '\u{10000}', '😀'] {
        assert_eq!(utf8_width(c), c.len_utf8(), "{c:?}");
    }
}

#[test]
fn position_begins_at_line_one() {
    let begin = Position::begin();
    assert_eq!(begin, Position { line: 1, column: 0 });
    let next = begin.advance(false);
    assert_eq!(next, Position { line: 1, column: 1 });
    assert_eq!(next.advance(true), Position { line: 2, column: 0 });
    assert_eq!(next.advance(true).advance(false).to_text(), "2:1");
}

#[test]
fn short_comment_is_shown_whole() {
    let forty = "1234567890123456789012345678901234567890";
    assert_eq!(Comment { value: forty }.to_text(), forty);
    assert_eq!(Comment { value: "" }.to_text(), "");
}

#[test]
fn long_comment_is_cut_at_a_character() {
    let long = "12345678901234567890123456789012345678901";
    assert_eq!(
        Comment { value: long }.to_text(),
        "1234567890123456789012345678901234567890 \u{2026}"
    );
    let wide = "123456789012345678901234567890123456789яя";
    assert_eq!(
        Comment { value: wide }.to_text(),
        "123456789012345678901234567890123456789 \u{2026}"
    );
    for text in [long, wide, "ééééééééééééééééééééééééééééééééééééééééé"] {
        let expected = format!("{} \u{2026}", &text[..text.floor_char_boundary(40)]);
        assert_eq!(Comment { value: text }.to_text(), expected);
    }
}

#[test]
fn every_kind_has_its_text() {
    let cases = vec![
        (TokenKind::Identifier(Identifier { name: "x'" }), "IDENTIFIER(x')"),
        (TokenKind::Keyword(Keyword::Routine), "KEYWORD(Routine)"),
        (TokenKind::Keyword(Keyword::Print), "KEYWORD(Print)"),
        (TokenKind::IntegerLiteral(IntegerLiteral { value: -12 }), "INTEGER LITERAL(-12)"),
        (TokenKind::RealLiteral(RealLiteral { repr: "1.50" }), "REAL LITERAL(1.50)"),
        (TokenKind::BoolLiteral(BoolLiteral { value: true }), "BOOLEAN LITERAL(true)"),
        (TokenKind::BoolLiteral(BoolLiteral { value: false }), "BOOLEAN LITERAL(false)"),
        (TokenKind::BuiltinTypename(BuiltinTypename::Boolean), "TYPENAME(Boolean)"),
        (TokenKind::Operator(SyntacticOperator::Neq), "OPERATOR(Neq)"),
        (TokenKind::Comment(Comment { value: " note" }), "COMMENT( note)"),
        (
            TokenKind::Invalid(InvalidToken { problem: "it is".to_string() }),
            "invalid, since it is",
        ),
        (TokenKind::LeftBracket, "LEFT BRACKET"),
        (TokenKind::RightBracket, "RIGHT BRACKET"),
        (TokenKind::LeftParenthesis, "LEFT PARENTHESIS"),
        (TokenKind::RightParenthesis, "RIGHT PARENTHESIS"),
        (TokenKind::RightArrow, "FUNCTION ARROW"),
        (TokenKind::Assignment, "ASSIGNMENT OPERATOR"),
        (TokenKind::RangeSymbol, "RANGE"),
        (TokenKind::Dot, "DOT"),
        (TokenKind::Comma, "COMMA"),
        (TokenKind::Semicolon, "SEMICOLON"),
        (TokenKind::Colon, "COLON"),
    ];
    for (kind, text) in cases {
        assert_eq!(kind.to_text(), text);
    }
}

#[test]
fn names_are_those_of_the_variants() {
    for keyword in [
        Keyword::Var, Keyword::Type, Keyword::Routine, Keyword::Array, Keyword::Record,
        Keyword::Is, Keyword::End, Keyword::If, Keyword::Then, Keyword::Else, Keyword::In,
        Keyword::While, Keyword::For, Keyword::Loop, Keyword::Reverse, Keyword::Print,
    ] {
        assert_eq!(keyword.name(), format!("{keyword:?}"));
    }
    for operator in [
        SyntacticOperator::Add, SyntacticOperator::Sub, SyntacticOperator::Mul,
        SyntacticOperator::Div, SyntacticOperator::Mod, SyntacticOperator::Eq,
        SyntacticOperator::Neq, SyntacticOperator::Lt, SyntacticOperator::Le,
        SyntacticOperator::Gt, SyntacticOperator::Ge, SyntacticOperator::And,
        SyntacticOperator::Or, SyntacticOperator::Xor, SyntacticOperator::Neg,
    ] {
        assert_eq!(operator.name(), format!("{operator:?}"));
    }
    for typename in [BuiltinTypename::Integer, BuiltinTypename::Real, BuiltinTypename::Boolean] {
        assert_eq!(typename.name(), format!("{typename:?}"));
    }
}

#[test]
fn token_with_its_place() {
    let token = Token {
        extent: Extent {
            start: Position { line: 3, column: 4 },
            end: Position { line: 3, column: 9 },
        },
        lexeme: "while",
        kind: TokenKind::Keyword(Keyword::While),
    };
    assert_eq!(token.extent.to_text(), "3:4-3:9");
    assert_eq!(token.to_text(), "`while` @ 3:4-3:9 is KEYWORD(While)");
    let tokens = tokenize("a\n  := 1").unwrap();
    let shown: Vec<String> = tokens.iter().map(|token| token.to_text()).collect();
    assert_eq!(
        shown,
        vec![
            "`a` @ 1:0-1:1 is IDENTIFIER(a)",
            "`:=` @ 2:2-2:4 is ASSIGNMENT OPERATOR",
            "`1` @ 2:5-2:6 is INTEGER LITERAL(1)",
        ]
    );
}

#[test]
fn lexer_error_with_its_place() {
    let error = LexerError { position: 17, reason: "Unexpected symbol `?`".to_string() };
    assert_eq!(error.to_text(), "Lexing error byte offset 17: Unexpected symbol `?`");
}

#[test]
fn file_name_is_split_at_the_last_dot() {
    assert_eq!(split_file_name("a.b.txt"), Some(("a.b".to_string(), "txt".to_string())));
    assert_eq!(split_file_name(".hidden"), Some(("".to_string(), "hidden".to_string())));
    assert_eq!(split_file_name("end."), Some(("end".to_string(), "".to_string())));
    assert_eq!(split_file_name("none"), None);
    assert_eq!(split_file_name(""), None);
    for name in ["a.b.txt", ".hidden", "end.", "none", "", "я.ю"] {
        let expected = name.rsplit_once('.').map(|(stem, ext)| (stem.to_string(), ext.to_string()));
        assert_eq!(split_file_name(name), expected);
    }
}

fn listing(names: &[&str]) -> Vec<String> {
    names.iter().map(|name| name.to_string()).collect()
}

#[test]
fn listing_of_a_directory() {
    let contents =
        TestDirContents::from_listing(PathBuf::from("tests/lexer"), &listing(&["for loops.txt", "if.txt", "for loops.txt"]))
            .unwrap();
    assert_eq!(contents.dir, PathBuf::from("tests/lexer"));
    assert_eq!(contents.extension, "txt");
    assert_eq!(contents.names, vec!["for loops", "if"]);
    assert_eq!(contents.file_name("if"), "if.txt");
    assert_eq!(contents.name_to_path("for loops"), PathBuf::from("tests/lexer").join("for loops.txt"));
}

#[test]
fn listing_errors() {
    let list = |names: &[&str]| {
        TestDirContents::from_listing(PathBuf::from("d"), &listing(names)).map(|contents| contents.names)
    };
    assert_eq!(list(&[]), Err(ListError::EmptyDirectory));
    assert_eq!(list(&["plain"]), Err(ListError::NoExtension { index: 0 }));
    assert_eq!(list(&["a.i", "plain", "b.txt"]), Err(ListError::NoExtension { index: 1 }));
    assert_eq!(list(&["a.i", "b.i", "c.txt"]), Err(ListError::ExtensionMismatch { index: 2 }));
    assert_eq!(list(&["a.i"]), Ok(vec!["a".to_string()]));
}

#[test]
fn path_of_a_test_case_lies_in_the_directory() {
    let contents = TestDirContents {
        dir: PathBuf::from("tests").join("smoke"),
        extension: "lexed".to_string(),
        names: vec!["records".to_string()],
    };
    let path = contents.name_to_path("records");
    assert_ne!(path, contents.dir);
    assert_eq!(path.parent(), Some(contents.dir.as_path()));
    assert_eq!(path.file_name().and_then(|name| name.to_str()), Some("records.lexed"));
    assert_eq!(path, contents.dir.join(contents.file_name("records")));
}
