//! Tokens and their places in the source text.

use vstd::prelude::*;
use vstd::string::{StrSliceExecFns, StringExecFns};
use crate::operators::SyntacticOperator;
use crate::text::{
    append_decimal, append_signed_decimal, byte_offset, decimal_text, lemma_byte_offset_step,
    signed_decimal_text, utf8_width,
};

verus! {

/// The keywords of the language.
#[derive(PartialEq, Eq, Structural, Hash, Debug, Clone, Copy)]
pub enum Keyword {
    Var,
    Type,
    Routine,
    Array,
    Record,
    Is,
    End,
    If,
    Then,
    Else,
    In,
    While,
    For,
    Loop,
    Reverse,
    Print,
}

/// An identifier, as it is written.
#[derive(PartialEq, Eq, Hash, Debug, Clone)]
pub struct Identifier<'a> {
    pub name: &'a str,
}

/// An integer literal, by its value.
#[derive(PartialEq, Eq, Structural, Hash, Debug, Clone, Copy)]
pub struct IntegerLiteral {
    pub value: i64,
}

/// A real literal, held as it is written: the digits, the point and the sign
/// if the literal has one, or the word `NaN`.
#[derive(PartialEq, Eq, Hash, Debug, Clone)]
pub struct RealLiteral<'a> {
    pub repr: &'a str,
}

/// A boolean literal, by its value.
#[derive(PartialEq, Eq, Structural, Hash, Debug, Clone, Copy)]
pub struct BoolLiteral {
    pub value: bool,
}

/// The names of the three primitive types.
#[derive(PartialEq, Eq, Structural, Hash, Debug, Clone, Copy)]
pub enum BuiltinTypename {
    Integer,
    Real,
    Boolean,
}

/// A line comment; `value` is the text behind the two dashes.
#[derive(PartialEq, Eq, Hash, Debug, Clone)]
pub struct Comment<'a> {
    pub value: &'a str,
}

/// A token that is none, with what is wrong with it.
#[derive(PartialEq, Eq, Hash, Debug, Clone)]
pub struct InvalidToken {
    pub problem: String,
}

/// What a token is, with what it holds.
#[derive(PartialEq, Eq, Debug, Clone)]
pub enum TokenKind<'a> {
    Identifier(Identifier<'a>),
    Keyword(Keyword),
    IntegerLiteral(IntegerLiteral),
    RealLiteral(RealLiteral<'a>),
    BoolLiteral(BoolLiteral),
    BuiltinTypename(BuiltinTypename),
    Operator(SyntacticOperator),
    Comment(Comment<'a>),
    Invalid(InvalidToken),
    LeftBracket,
    RightBracket,
    LeftParenthesis,
    RightParenthesis,
    RightArrow,
    Assignment,
    RangeSymbol,
    Dot,
    Comma,
    Semicolon,
    Colon,
}

/// What a token kind holds, with every piece of text as a sequence of
/// characters.
pub enum TokenKindView {
    Identifier(Seq<char>),
    Keyword(Keyword),
    IntegerLiteral(i64),
    RealLiteral(Seq<char>),
    BoolLiteral(bool),
    BuiltinTypename(BuiltinTypename),
    Operator(SyntacticOperator),
    Comment(Seq<char>),
    Invalid(Seq<char>),
    LeftBracket,
    RightBracket,
    LeftParenthesis,
    RightParenthesis,
    RightArrow,
    Assignment,
    RangeSymbol,
    Dot,
    Comma,
    Semicolon,
    Colon,
}

impl<'a> View for TokenKind<'a> {
    type V = TokenKindView;

    open spec fn view(&self) -> TokenKindView {
        match self {
            TokenKind::Identifier(identifier) => TokenKindView::Identifier(identifier.name@),
            TokenKind::Keyword(keyword) => TokenKindView::Keyword(*keyword),
            TokenKind::IntegerLiteral(literal) => TokenKindView::IntegerLiteral(literal.value),
            TokenKind::RealLiteral(literal) => TokenKindView::RealLiteral(literal.repr@),
            TokenKind::BoolLiteral(literal) => TokenKindView::BoolLiteral(literal.value),
            TokenKind::BuiltinTypename(typename) => TokenKindView::BuiltinTypename(*typename),
            TokenKind::Operator(operator) => TokenKindView::Operator(*operator),
            TokenKind::Comment(comment) => TokenKindView::Comment(comment.value@),
            TokenKind::Invalid(invalid) => TokenKindView::Invalid(invalid.problem@),
            TokenKind::LeftBracket => TokenKindView::LeftBracket,
            TokenKind::RightBracket => TokenKindView::RightBracket,
            TokenKind::LeftParenthesis => TokenKindView::LeftParenthesis,
            TokenKind::RightParenthesis => TokenKindView::RightParenthesis,
            TokenKind::RightArrow => TokenKindView::RightArrow,
            TokenKind::Assignment => TokenKindView::Assignment,
            TokenKind::RangeSymbol => TokenKindView::RangeSymbol,
            TokenKind::Dot => TokenKindView::Dot,
            TokenKind::Comma => TokenKindView::Comma,
            TokenKind::Semicolon => TokenKindView::Semicolon,
            TokenKind::Colon => TokenKindView::Colon,
        }
    }
}

/// A place in the source text: a line, counted from 1, and the number of
/// characters that stand before the place on that line.
#[derive(PartialEq, Eq, Structural, Debug, Clone, Copy)]
pub struct Position {
    pub line: usize,
    pub column: usize,
}

impl Position {
    /// The place before the first character: line 1, column 0.
    pub open spec fn spec_begin() -> Position {
        Position { line: 1, column: 0 }
    }

    /// The place behind one more character: the start of the next line if
    /// that character ends a line, else one column further on this line.
    pub open spec fn spec_advance(self, is_newline: bool) -> Position {
        if is_newline {
            Position { line: (self.line + 1) as usize, column: 0 }
        } else {
            Position { line: self.line, column: (self.column + 1) as usize }
        }
    }

    /// The place before the first character: line 1, column 0.
    pub fn begin() -> (position: Self)
        ensures
            position == Self::spec_begin(),
    {
        Position { line: 1, column: 0 }
    }

    /// The place behind one more character.
    pub fn advance(self, is_newline: bool) -> (position: Self)
        requires
            is_newline ==> self.line < usize::MAX,
            !is_newline ==> self.column < usize::MAX,
        ensures
            position == self.spec_advance(is_newline),
            is_newline ==> position.line == self.line + 1 && position.column == 0,
            !is_newline ==> position.line == self.line && position.column == self.column + 1,
    {
        if is_newline {
            Position { line: self.line + 1, column: 0 }
        } else {
            Position { line: self.line, column: self.column + 1 }
        }
    }
}

/// The stretch of source text between two places, the first included.
#[derive(PartialEq, Eq, Structural, Debug, Clone, Copy)]
pub struct Extent {
    pub start: Position,
    pub end: Position,
}

/// A token: where it stands, how it is written and what it is.
#[derive(PartialEq, Eq, Debug, Clone)]
pub struct Token<'a> {
    pub extent: Extent,
    pub lexeme: &'a str,
    pub kind: TokenKind<'a>,
}

/// What a token holds, with its text as sequences of characters.
pub struct TokenView {
    pub extent: Extent,
    pub lexeme: Seq<char>,
    pub kind: TokenKindView,
}

impl<'a> View for Token<'a> {
    type V = TokenView;

    open spec fn view(&self) -> TokenView {
        TokenView { extent: self.extent, lexeme: self.lexeme@, kind: self.kind@ }
    }
}

impl Keyword {
    /// The keyword's name, with a capital first letter.
    pub open spec fn spec_name(self) -> Seq<char> {
        match self {
            Keyword::Var => "Var"@,
            Keyword::Type => "Type"@,
            Keyword::Routine => "Routine"@,
            Keyword::Array => "Array"@,
            Keyword::Record => "Record"@,
            Keyword::Is => "Is"@,
            Keyword::End => "End"@,
            Keyword::If => "If"@,
            Keyword::Then => "Then"@,
            Keyword::Else => "Else"@,
            Keyword::In => "In"@,
            Keyword::While => "While"@,
            Keyword::For => "For"@,
            Keyword::Loop => "Loop"@,
            Keyword::Reverse => "Reverse"@,
            Keyword::Print => "Print"@,
        }
    }

    /// The keyword's name, with a capital first letter.
    pub fn name(&self) -> (text: &'static str)
        ensures
            text@ == self.spec_name(),
    {
        match self {
            Keyword::Var => "Var",
            Keyword::Type => "Type",
            Keyword::Routine => "Routine",
            Keyword::Array => "Array",
            Keyword::Record => "Record",
            Keyword::Is => "Is",
            Keyword::End => "End",
            Keyword::If => "If",
            Keyword::Then => "Then",
            Keyword::Else => "Else",
            Keyword::In => "In",
            Keyword::While => "While",
            Keyword::For => "For",
            Keyword::Loop => "Loop",
            Keyword::Reverse => "Reverse",
            Keyword::Print => "Print",
        }
    }
}

impl BuiltinTypename {
    /// The name of the type's name, with a capital first letter.
    pub open spec fn spec_name(self) -> Seq<char> {
        match self {
            BuiltinTypename::Integer => "Integer"@,
            BuiltinTypename::Real => "Real"@,
            BuiltinTypename::Boolean => "Boolean"@,
        }
    }

    /// The name of the type's name, with a capital first letter.
    pub fn name(&self) -> (text: &'static str)
        ensures
            text@ == self.spec_name(),
    {
        match self {
            BuiltinTypename::Integer => "Integer",
            BuiltinTypename::Real => "Real",
            BuiltinTypename::Boolean => "Boolean",
        }
    }
}

/// The longest comment, in bytes, that is shown whole.
pub const COMMENT_LIMIT: usize = 40;

/// How many characters from place `i` on end within the first `limit`
/// bytes of a text, added to `i`.
pub open spec fn boundary_from(s: Seq<char>, limit: int, i: int) -> int
    decreases s.len() - i,
{
    if 0 <= i < s.len() && byte_offset(s, i + 1) <= limit {
        boundary_from(s, limit, i + 1)
    } else {
        i
    }
}

/// How a comment is shown: whole if it takes at most 40 bytes, else the
/// characters that end within its first 40 bytes, a space and an ellipsis.
pub open spec fn comment_text(value: Seq<char>) -> Seq<char> {
    if byte_offset(value, value.len() as int) <= COMMENT_LIMIT {
        value
    } else {
        value.take(boundary_from(value, COMMENT_LIMIT as int, 0)) + " \u{2026}"@
    }
}

impl<'a> Comment<'a> {
    /// The comment as it is shown.
    pub fn to_text(&self) -> (text: String)
        ensures
            text@ == comment_text(self.value@),
    {
        let value: &str = self.value;
        assert(value@.take(value@.len() as int) =~= value@);
        if value.as_bytes().len() <= 40 {
            return String::from_str(value);
        }
        let mut count: usize = 0;
        let mut offset: usize = 0;
        let mut stopped = false;
        let letters = value.chars();
        for c in it: letters
            invariant
                it.seq() == value@,
                count <= offset <= 40,
                !stopped ==> count == it.index() && offset == byte_offset(value@, count as int),
                stopped ==> count < it.index(),
                boundary_from(value@, 40, 0) == if stopped {
                    count as int
                } else {
                    boundary_from(value@, 40, count as int)
                },
        {
            if !stopped {
                proof {
                    lemma_byte_offset_step(value@, count as int);
                }
                let width = utf8_width(c);
                if offset + width <= 40 {
                    offset = offset + width;
                    count = count + 1;
                } else {
                    stopped = true;
                }
            }
        }
        let mut text = String::from_str(value.substring_char(0, count));
        text.append(" \u{2026}");
        text
    }
}

/// How a boolean is shown.
pub open spec fn bool_text(value: bool) -> Seq<char> {
    if value {
        "true"@
    } else {
        "false"@
    }
}

/// How a token kind is shown: what it is, in capitals, and in brackets
/// what it holds.
pub open spec fn kind_text(kind: TokenKindView) -> Seq<char> {
    match kind {
        TokenKindView::Identifier(name) => "IDENTIFIER("@ + name + ")"@,
        TokenKindView::Keyword(keyword) => "KEYWORD("@ + keyword.spec_name() + ")"@,
        TokenKindView::IntegerLiteral(value) => "INTEGER LITERAL("@ + signed_decimal_text(
            value as int,
        ) + ")"@,
        TokenKindView::RealLiteral(repr) => "REAL LITERAL("@ + repr + ")"@,
        TokenKindView::BoolLiteral(value) => "BOOLEAN LITERAL("@ + bool_text(value) + ")"@,
        TokenKindView::BuiltinTypename(typename) => "TYPENAME("@ + typename.spec_name() + ")"@,
        TokenKindView::Operator(operator) => "OPERATOR("@ + operator.spec_name() + ")"@,
        TokenKindView::Comment(value) => "COMMENT("@ + comment_text(value) + ")"@,
        TokenKindView::Invalid(problem) => "invalid, since "@ + problem,
        TokenKindView::LeftBracket => "LEFT BRACKET"@,
        TokenKindView::RightBracket => "RIGHT BRACKET"@,
        TokenKindView::LeftParenthesis => "LEFT PARENTHESIS"@,
        TokenKindView::RightParenthesis => "RIGHT PARENTHESIS"@,
        TokenKindView::RightArrow => "FUNCTION ARROW"@,
        TokenKindView::Assignment => "ASSIGNMENT OPERATOR"@,
        TokenKindView::RangeSymbol => "RANGE"@,
        TokenKindView::Dot => "DOT"@,
        TokenKindView::Comma => "COMMA"@,
        TokenKindView::Semicolon => "SEMICOLON"@,
        TokenKindView::Colon => "COLON"@,
    }
}

fn bracketed(label: &str, inside: &str) -> (text: String)
    ensures
        text@ == label@ + inside@ + ")"@,
{
    let mut text = String::from_str(label);
    text.append(inside);
    text.append(")");
    text
}

impl<'a> TokenKind<'a> {
    /// The kind as it is shown.
    pub fn to_text(&self) -> (text: String)
        ensures
            text@ == kind_text(self@),
    {
        match self {
            TokenKind::Identifier(identifier) => bracketed("IDENTIFIER(", identifier.name),
            TokenKind::Keyword(keyword) => bracketed("KEYWORD(", keyword.name()),
            TokenKind::IntegerLiteral(literal) => {
                let mut text = String::from_str("INTEGER LITERAL(");
                append_signed_decimal(&mut text, literal.value);
                text.append(")");
                text
            },
            TokenKind::RealLiteral(literal) => bracketed("REAL LITERAL(", literal.repr),
            TokenKind::BoolLiteral(literal) => bracketed(
                "BOOLEAN LITERAL(",
                if literal.value {
                    "true"
                } else {
                    "false"
                },
            ),
            TokenKind::BuiltinTypename(typename) => bracketed("TYPENAME(", typename.name()),
            TokenKind::Operator(operator) => bracketed("OPERATOR(", operator.name()),
            TokenKind::Comment(comment) => {
                let shown = comment.to_text();
                bracketed("COMMENT(", shown.as_str())
            },
            TokenKind::Invalid(invalid) => {
                let mut text = String::from_str("invalid, since ");
                text.append(invalid.problem.as_str());
                text
            },
            TokenKind::LeftBracket => String::from_str("LEFT BRACKET"),
            TokenKind::RightBracket => String::from_str("RIGHT BRACKET"),
            TokenKind::LeftParenthesis => String::from_str("LEFT PARENTHESIS"),
            TokenKind::RightParenthesis => String::from_str("RIGHT PARENTHESIS"),
            TokenKind::RightArrow => String::from_str("FUNCTION ARROW"),
            TokenKind::Assignment => String::from_str("ASSIGNMENT OPERATOR"),
            TokenKind::RangeSymbol => String::from_str("RANGE"),
            TokenKind::Dot => String::from_str("DOT"),
            TokenKind::Comma => String::from_str("COMMA"),
            TokenKind::Semicolon => String::from_str("SEMICOLON"),
            TokenKind::Colon => String::from_str("COLON"),
        }
    }
}

/// A place as it is shown: the line, a colon and the column.
pub open spec fn position_text(position: Position) -> Seq<char> {
    decimal_text(position.line as nat) + ":"@ + decimal_text(position.column as nat)
}

/// A stretch as it is shown: its two places with a dash between them.
pub open spec fn extent_text(extent: Extent) -> Seq<char> {
    position_text(extent.start) + "-"@ + position_text(extent.end)
}

/// A token as it is shown: the lexeme in backticks, where it stands and
/// what it is.
pub open spec fn token_text(token: TokenView) -> Seq<char> {
    "`"@ + token.lexeme + "` @ "@ + extent_text(token.extent) + " is "@ + kind_text(token.kind)
}

impl Position {
    fn append_to(&self, text: &mut String)
        ensures
            final(text)@ == old(text)@ + position_text(*self),
    {
        append_decimal(text, self.line as u64);
        text.append(":");
        append_decimal(text, self.column as u64);
    }

    /// The place as it is shown.
    pub fn to_text(&self) -> (text: String)
        ensures
            text@ == position_text(*self),
    {
        let mut text = String::from_str("");
        proof {
            reveal_strlit("");
        }
        self.append_to(&mut text);
        text
    }
}

impl Extent {
    fn append_to(&self, text: &mut String)
        ensures
            final(text)@ == old(text)@ + extent_text(*self),
    {
        self.start.append_to(text);
        text.append("-");
        self.end.append_to(text);
    }

    /// The stretch as it is shown.
    pub fn to_text(&self) -> (text: String)
        ensures
            text@ == extent_text(*self),
    {
        let mut text = String::from_str("");
        proof {
            reveal_strlit("");
        }
        self.append_to(&mut text);
        text
    }
}

impl<'a> Token<'a> {
    /// The token as it is shown.
    pub fn to_text(&self) -> (text: String)
        ensures
            text@ == token_text(self@),
    {
        let mut text = String::from_str("`");
        text.append(self.lexeme);
        text.append("` @ ");
        self.extent.append_to(&mut text);
        text.append(" is ");
        let kind = self.kind.to_text();
        text.append(kind.as_str());
        text
    }
}

} // verus!
