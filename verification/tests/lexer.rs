use imperative_compiler::lexer::{extra_ident_char, is_identifier_continue, is_identifier_start};

#[test]
fn identifier_start_is_identifier_continue() {
    for c in char::MIN..=char::MAX {
        assert!(
            is_identifier_start(c) <= is_identifier_continue(c),
            "Identifier start should be identifier continue: {c:?}"
        )
    }
}

#[test]
fn extra_identifier_characters() {
    assert!(extra_ident_char('\''));
    assert!(extra_ident_char('_'));
    assert!(!extra_ident_char('-'));
    assert!(is_identifier_start('_'));
    assert!(is_identifier_start('x'));
    assert!(is_identifier_start('я'));
    assert!(!is_identifier_start('1'));
    assert!(is_identifier_continue('1'));
    assert!(!is_identifier_continue('-'));
}

use imperative_compiler::lexer::{possible_identifier_value, tokenize};
use imperative_compiler::operators::SyntacticOperator;
use imperative_compiler::tokens::{
    BoolLiteral, BuiltinTypename, Comment, Extent, Identifier, IntegerLiteral, Keyword, Position,
    RealLiteral, Token, TokenKind,
};

fn kinds(source: &str) -> Vec<TokenKind<'_>> {
    tokenize(source).unwrap().into_iter().map(|token| token.kind).collect()
}

#[test]
fn empty_source_has_no_tokens() {
    assert_eq!(tokenize("").unwrap(), vec![]);
    assert_eq!(tokenize(" \n\t ").unwrap(), vec![]);
}

#[test]
fn declaration_with_positions() {
    let tokens = tokenize("var x : integer is -5;\nx := x - 1").unwrap();
    let first = &tokens[0];
    assert_eq!(
        *first,
        Token {
            extent: Extent {
                start: Position { line: 1, column: 0 },
                end: Position { line: 1, column: 3 }
            },
            lexeme: "var",
            kind: TokenKind::Keyword(Keyword::Var),
        }
    );
    let kinds: Vec<TokenKind> = tokens.iter().map(|token| token.kind.clone()).collect();
    assert_eq!(
        kinds,
        vec![
            TokenKind::Keyword(Keyword::Var),
            TokenKind::Identifier(Identifier { name: "x" }),
            TokenKind::Colon,
            TokenKind::BuiltinTypename(BuiltinTypename::Integer),
            TokenKind::Keyword(Keyword::Is),
            TokenKind::IntegerLiteral(IntegerLiteral { value: -5 }),
            TokenKind::Semicolon,
            TokenKind::Identifier(Identifier { name: "x" }),
            TokenKind::Assignment,
            TokenKind::Identifier(Identifier { name: "x" }),
            TokenKind::Operator(SyntacticOperator::Sub),
            TokenKind::IntegerLiteral(IntegerLiteral { value: 1 }),
        ]
    );
    let last = &tokens[11];
    assert_eq!(last.lexeme, "1");
    assert_eq!(
        last.extent,
        Extent { start: Position { line: 2, column: 9 }, end: Position { line: 2, column: 10 } }
    );
}

#[test]
fn comments_and_reals() {
    assert_eq!(
        kinds("a -- the rest\n+1.50 .5 NaN true"),
        vec![
            TokenKind::Identifier(Identifier { name: "a" }),
            TokenKind::Comment(Comment { value: " the rest" }),
            TokenKind::Operator(SyntacticOperator::Add),
            TokenKind::RealLiteral(RealLiteral { repr: "1.50" }),
            TokenKind::RealLiteral(RealLiteral { repr: ".5" }),
            TokenKind::RealLiteral(RealLiteral { repr: "NaN" }),
            TokenKind::BoolLiteral(BoolLiteral { value: true }),
        ]
    );
}

#[test]
fn sign_after_operator_belongs_to_the_number() {
    assert_eq!(
        kinds("x * -2.5"),
        vec![
            TokenKind::Identifier(Identifier { name: "x" }),
            TokenKind::Operator(SyntacticOperator::Mul),
            TokenKind::RealLiteral(RealLiteral { repr: "-2.5" }),
        ]
    );
}

#[test]
fn two_character_symbols_win() {
    assert_eq!(
        kinds("a<=b/=c>=d:=e..f"),
        vec![
            TokenKind::Identifier(Identifier { name: "a" }),
            TokenKind::Operator(SyntacticOperator::Le),
            TokenKind::Identifier(Identifier { name: "b" }),
            TokenKind::Operator(SyntacticOperator::Neq),
            TokenKind::Identifier(Identifier { name: "c" }),
            TokenKind::Operator(SyntacticOperator::Ge),
            TokenKind::Identifier(Identifier { name: "d" }),
            TokenKind::Assignment,
            TokenKind::Identifier(Identifier { name: "e" }),
            TokenKind::RangeSymbol,
            TokenKind::Identifier(Identifier { name: "f" }),
        ]
    );
}

#[test]
fn reserved_words() {
    assert_eq!(possible_identifier_value("while"), TokenKind::Keyword(Keyword::While));
    assert_eq!(possible_identifier_value("not"), TokenKind::Operator(SyntacticOperator::Neg));
    assert_eq!(
        possible_identifier_value("print"),
        TokenKind::Identifier(Identifier { name: "print" })
    );
    assert_eq!(
        possible_identifier_value("real"),
        TokenKind::BuiltinTypename(BuiltinTypename::Real)
    );
}

#[test]
fn unexpected_symbol_reports_byte_offset() {
    let error = tokenize("яя ?").unwrap_err();
    assert_eq!(error.position, 5);
    assert_eq!(error.reason, "Unexpected symbol `?`");
}

#[test]
fn integer_out_of_range_is_an_error() {
    let low = "-9223372036854775808";
    assert_eq!(
        kinds(low),
        vec![TokenKind::IntegerLiteral(IntegerLiteral { value: i64::MIN })]
    );
    for text in ["9223372036854775808", "-9223372036854775809", "123456789012345678901234567890"] {
        let source = format!("  {text}");
        let error = tokenize(&source).unwrap_err();
        let expected = text.parse::<i64>().unwrap_err();
        assert_eq!(error.position, 2);
        assert_eq!(error.reason, format!("Malformed int {text:?}: {expected}"));
    }
}

#[test]
fn digits_before_a_bare_point_are_no_number() {
    let error = tokenize("1..10").unwrap_err();
    assert_eq!(error.position, 0);
    assert_eq!(error.reason, "Unexpected symbol `1`");
}
