//! The lexer: from source text to a positioned token stream.

use vstd::prelude::*;
use vstd::string::StringExecFns;
use crate::cursor::{
    holds_at, lemma_run_contents, lemma_run_end, position_at, run_end, text_equals, Cursor, Source,
};
use crate::operators::SyntacticOperator;
use crate::text::{append_decimal, byte_offset, chars_of, decimal_text, lemma_offset_at_least};
use crate::tokens::{
    BoolLiteral, BuiltinTypename, Comment, Extent, Identifier, IntegerLiteral, Keyword,
    RealLiteral, Token, TokenKind, TokenKindView, TokenView,
};

verus! {

/// Whether a character has the Unicode property XID_Start.
pub uninterp spec fn xid_start(c: char) -> bool;

/// Whether a character has the Unicode property XID_Continue.
pub uninterp spec fn xid_continue(c: char) -> bool;

/// `unicode_ident::is_xid_start` looks the character up in the crate's
/// table of the property XID_Start; its answer depends on the character
/// alone.
pub assume_specification[ unicode_ident::is_xid_start ](ch: char) -> (start: bool)
    ensures
        start == xid_start(ch),
;

/// `unicode_ident::is_xid_continue` looks the character up in the crate's
/// table of the property XID_Continue; its answer depends on the character
/// alone.
pub assume_specification[ unicode_ident::is_xid_continue ](ch: char) -> (continues: bool)
    ensures
        continues == xid_continue(ch),
;

/// The two characters that identifiers may hold beside what Unicode
/// allows: the apostrophe and the underscore.
pub open spec fn spec_extra_ident_char(c: char) -> bool {
    c == '\'' || c == '_'
}

/// Whether a character can start an identifier.
pub open spec fn identifier_start(c: char) -> bool {
    xid_start(c) || spec_extra_ident_char(c)
}

/// Whether a character can stand inside an identifier.
pub open spec fn identifier_continue(c: char) -> bool {
    xid_continue(c) || spec_extra_ident_char(c)
}

/// Whether a character is the apostrophe or the underscore.
pub fn extra_ident_char(c: char) -> (extra: bool)
    ensures
        extra == spec_extra_ident_char(c),
{
    c == '\'' || c == '_'
}

/// Whether a character can start an identifier.
pub fn is_identifier_start(c: char) -> (start: bool)
    ensures
        start == identifier_start(c),
{
    let listed = unicode_ident::is_xid_start(c);
    listed || extra_ident_char(c)
}

/// Whether a character can stand inside an identifier.
pub fn is_identifier_continue(c: char) -> (continues: bool)
    ensures
        continues == identifier_continue(c),
{
    let listed = unicode_ident::is_xid_continue(c);
    listed || extra_ident_char(c)
}

// ---------------------------------------------------------------------
// Words
// ---------------------------------------------------------------------
/// What a word is: a keyword, an operator, a literal or the name of a
/// builtin type if it is one of the 25 reserved words, else an identifier.
pub open spec fn word_kind(lexeme: Seq<char>) -> TokenKindView {
    if lexeme == "var"@ {
        TokenKindView::Keyword(Keyword::Var)
    } else if lexeme == "type"@ {
        TokenKindView::Keyword(Keyword::Type)
    } else if lexeme == "routine"@ {
        TokenKindView::Keyword(Keyword::Routine)
    } else if lexeme == "array"@ {
        TokenKindView::Keyword(Keyword::Array)
    } else if lexeme == "record"@ {
        TokenKindView::Keyword(Keyword::Record)
    } else if lexeme == "is"@ {
        TokenKindView::Keyword(Keyword::Is)
    } else if lexeme == "end"@ {
        TokenKindView::Keyword(Keyword::End)
    } else if lexeme == "if"@ {
        TokenKindView::Keyword(Keyword::If)
    } else if lexeme == "then"@ {
        TokenKindView::Keyword(Keyword::Then)
    } else if lexeme == "else"@ {
        TokenKindView::Keyword(Keyword::Else)
    } else if lexeme == "in"@ {
        TokenKindView::Keyword(Keyword::In)
    } else if lexeme == "while"@ {
        TokenKindView::Keyword(Keyword::While)
    } else if lexeme == "for"@ {
        TokenKindView::Keyword(Keyword::For)
    } else if lexeme == "loop"@ {
        TokenKindView::Keyword(Keyword::Loop)
    } else if lexeme == "reverse"@ {
        TokenKindView::Keyword(Keyword::Reverse)
    } else if lexeme == "and"@ {
        TokenKindView::Operator(SyntacticOperator::And)
    } else if lexeme == "or"@ {
        TokenKindView::Operator(SyntacticOperator::Or)
    } else if lexeme == "xor"@ {
        TokenKindView::Operator(SyntacticOperator::Xor)
    } else if lexeme == "not"@ {
        TokenKindView::Operator(SyntacticOperator::Neg)
    } else if lexeme == "true"@ {
        TokenKindView::BoolLiteral(true)
    } else if lexeme == "false"@ {
        TokenKindView::BoolLiteral(false)
    } else if lexeme == "integer"@ {
        TokenKindView::BuiltinTypename(BuiltinTypename::Integer)
    } else if lexeme == "real"@ {
        TokenKindView::BuiltinTypename(BuiltinTypename::Real)
    } else if lexeme == "boolean"@ {
        TokenKindView::BuiltinTypename(BuiltinTypename::Boolean)
    } else if lexeme == "NaN"@ {
        TokenKindView::RealLiteral(lexeme)
    } else {
        TokenKindView::Identifier(lexeme)
    }
}

/// Tells the reserved words from the identifiers.
pub fn possible_identifier_value<'a>(lexeme: &'a str) -> (kind: TokenKind<'a>)
    ensures
        kind@ == word_kind(lexeme@),
{
    let chars = chars_of(lexeme);
    if text_equals(&chars, "var") {
        TokenKind::Keyword(Keyword::Var)
    } else if text_equals(&chars, "type") {
        TokenKind::Keyword(Keyword::Type)
    } else if text_equals(&chars, "routine") {
        TokenKind::Keyword(Keyword::Routine)
    } else if text_equals(&chars, "array") {
        TokenKind::Keyword(Keyword::Array)
    } else if text_equals(&chars, "record") {
        TokenKind::Keyword(Keyword::Record)
    } else if text_equals(&chars, "is") {
        TokenKind::Keyword(Keyword::Is)
    } else if text_equals(&chars, "end") {
        TokenKind::Keyword(Keyword::End)
    } else if text_equals(&chars, "if") {
        TokenKind::Keyword(Keyword::If)
    } else if text_equals(&chars, "then") {
        TokenKind::Keyword(Keyword::Then)
    } else if text_equals(&chars, "else") {
        TokenKind::Keyword(Keyword::Else)
    } else if text_equals(&chars, "in") {
        TokenKind::Keyword(Keyword::In)
    } else if text_equals(&chars, "while") {
        TokenKind::Keyword(Keyword::While)
    } else if text_equals(&chars, "for") {
        TokenKind::Keyword(Keyword::For)
    } else if text_equals(&chars, "loop") {
        TokenKind::Keyword(Keyword::Loop)
    } else if text_equals(&chars, "reverse") {
        TokenKind::Keyword(Keyword::Reverse)
    } else if text_equals(&chars, "and") {
        TokenKind::Operator(SyntacticOperator::And)
    } else if text_equals(&chars, "or") {
        TokenKind::Operator(SyntacticOperator::Or)
    } else if text_equals(&chars, "xor") {
        TokenKind::Operator(SyntacticOperator::Xor)
    } else if text_equals(&chars, "not") {
        TokenKind::Operator(SyntacticOperator::Neg)
    } else if text_equals(&chars, "true") {
        TokenKind::BoolLiteral(BoolLiteral { value: true })
    } else if text_equals(&chars, "false") {
        TokenKind::BoolLiteral(BoolLiteral { value: false })
    } else if text_equals(&chars, "integer") {
        TokenKind::BuiltinTypename(BuiltinTypename::Integer)
    } else if text_equals(&chars, "real") {
        TokenKind::BuiltinTypename(BuiltinTypename::Real)
    } else if text_equals(&chars, "boolean") {
        TokenKind::BuiltinTypename(BuiltinTypename::Boolean)
    } else if text_equals(&chars, "NaN") {
        TokenKind::RealLiteral(RealLiteral { repr: lexeme })
    } else {
        TokenKind::Identifier(Identifier { name: lexeme })
    }
}

// ---------------------------------------------------------------------
// Symbols
// ---------------------------------------------------------------------
/// The symbol at place `i` and its length. Of two symbols that both
/// stand there the longer one is meant.
pub open spec fn symbol_at(s: Seq<char>, i: int) -> Option<(TokenKindView, int)> {
    if holds_at(s, i, ":="@) {
        Some((TokenKindView::Assignment, 2))
    } else if holds_at(s, i, ".."@) {
        Some((TokenKindView::RangeSymbol, 2))
    } else if holds_at(s, i, "/="@) {
        Some((TokenKindView::Operator(SyntacticOperator::Neq), 2))
    } else if holds_at(s, i, "<="@) {
        Some((TokenKindView::Operator(SyntacticOperator::Le), 2))
    } else if holds_at(s, i, ">="@) {
        Some((TokenKindView::Operator(SyntacticOperator::Ge), 2))
    } else if holds_at(s, i, "("@) {
        Some((TokenKindView::LeftParenthesis, 1))
    } else if holds_at(s, i, ")"@) {
        Some((TokenKindView::RightParenthesis, 1))
    } else if holds_at(s, i, "["@) {
        Some((TokenKindView::LeftBracket, 1))
    } else if holds_at(s, i, "]"@) {
        Some((TokenKindView::RightBracket, 1))
    } else if holds_at(s, i, ","@) {
        Some((TokenKindView::Comma, 1))
    } else if holds_at(s, i, "."@) {
        Some((TokenKindView::Dot, 1))
    } else if holds_at(s, i, ";"@) {
        Some((TokenKindView::Semicolon, 1))
    } else if holds_at(s, i, ":"@) {
        Some((TokenKindView::Colon, 1))
    } else if holds_at(s, i, "+"@) {
        Some((TokenKindView::Operator(SyntacticOperator::Add), 1))
    } else if holds_at(s, i, "-"@) {
        Some((TokenKindView::Operator(SyntacticOperator::Sub), 1))
    } else if holds_at(s, i, "*"@) {
        Some((TokenKindView::Operator(SyntacticOperator::Mul), 1))
    } else if holds_at(s, i, "/"@) {
        Some((TokenKindView::Operator(SyntacticOperator::Div), 1))
    } else if holds_at(s, i, "%"@) {
        Some((TokenKindView::Operator(SyntacticOperator::Mod), 1))
    } else if holds_at(s, i, "="@) {
        Some((TokenKindView::Operator(SyntacticOperator::Eq), 1))
    } else if holds_at(s, i, "<"@) {
        Some((TokenKindView::Operator(SyntacticOperator::Lt), 1))
    } else if holds_at(s, i, ">"@) {
        Some((TokenKindView::Operator(SyntacticOperator::Gt), 1))
    } else {
        None
    }
}

/// The symbol that the text goes on with, and the place behind it.
pub fn known_symbolic_tokens<'s, 'a>(start: &Cursor<'s, 'a>) -> (found: Option<
    (TokenKind<'a>, Cursor<'s, 'a>),
>)
    requires
        start.wf(),
    ensures
        match found {
            Some((kind, end)) => symbol_at(start.text(), start.index as int) == Some(
                (kind@, end.index - start.index),
            ) && end.at(start.source, end.index as int),
            None => symbol_at(start.text(), start.index as int) is None,
        },
{
    proof {
        reveal_strlit(":=");
        reveal_strlit("..");
        reveal_strlit("/=");
        reveal_strlit("<=");
        reveal_strlit(">=");
        reveal_strlit("(");
        reveal_strlit(")");
        reveal_strlit("[");
        reveal_strlit("]");
        reveal_strlit(",");
        reveal_strlit(".");
        reveal_strlit(";");
        reveal_strlit(":");
        reveal_strlit("+");
        reveal_strlit("-");
        reveal_strlit("*");
        reveal_strlit("/");
        reveal_strlit("%");
        reveal_strlit("=");
        reveal_strlit("<");
        reveal_strlit(">");
    }
    if let Some(end) = start.starts_with(":=") {
        Some((TokenKind::Assignment, end))
    } else if let Some(end) = start.starts_with("..") {
        Some((TokenKind::RangeSymbol, end))
    } else if let Some(end) = start.starts_with("/=") {
        Some((TokenKind::Operator(SyntacticOperator::Neq), end))
    } else if let Some(end) = start.starts_with("<=") {
        Some((TokenKind::Operator(SyntacticOperator::Le), end))
    } else if let Some(end) = start.starts_with(">=") {
        Some((TokenKind::Operator(SyntacticOperator::Ge), end))
    } else if let Some(end) = start.starts_with("(") {
        Some((TokenKind::LeftParenthesis, end))
    } else if let Some(end) = start.starts_with(")") {
        Some((TokenKind::RightParenthesis, end))
    } else if let Some(end) = start.starts_with("[") {
        Some((TokenKind::LeftBracket, end))
    } else if let Some(end) = start.starts_with("]") {
        Some((TokenKind::RightBracket, end))
    } else if let Some(end) = start.starts_with(",") {
        Some((TokenKind::Comma, end))
    } else if let Some(end) = start.starts_with(".") {
        Some((TokenKind::Dot, end))
    } else if let Some(end) = start.starts_with(";") {
        Some((TokenKind::Semicolon, end))
    } else if let Some(end) = start.starts_with(":") {
        Some((TokenKind::Colon, end))
    } else if let Some(end) = start.starts_with("+") {
        Some((TokenKind::Operator(SyntacticOperator::Add), end))
    } else if let Some(end) = start.starts_with("-") {
        Some((TokenKind::Operator(SyntacticOperator::Sub), end))
    } else if let Some(end) = start.starts_with("*") {
        Some((TokenKind::Operator(SyntacticOperator::Mul), end))
    } else if let Some(end) = start.starts_with("/") {
        Some((TokenKind::Operator(SyntacticOperator::Div), end))
    } else if let Some(end) = start.starts_with("%") {
        Some((TokenKind::Operator(SyntacticOperator::Mod), end))
    } else if let Some(end) = start.starts_with("=") {
        Some((TokenKind::Operator(SyntacticOperator::Eq), end))
    } else if let Some(end) = start.starts_with("<") {
        Some((TokenKind::Operator(SyntacticOperator::Lt), end))
    } else if let Some(end) = start.starts_with(">") {
        Some((TokenKind::Operator(SyntacticOperator::Gt), end))
    } else {
        None
    }
}

/// Whether a sign that follows belongs to a number: after a token that
/// cannot end an operand it does, after one that can it is an operator. A
/// comment changes nothing.
pub open spec fn sign_expected(prev: bool, kind: TokenKindView) -> bool {
    match kind {
        TokenKindView::Comment(_) | TokenKindView::Invalid(_) => prev,
        TokenKindView::Assignment
        | TokenKindView::LeftParenthesis
        | TokenKindView::RightBracket
        | TokenKindView::Operator(_)
        | TokenKindView::Semicolon
        | TokenKindView::RangeSymbol
        | TokenKindView::Comma
        | TokenKindView::RightArrow
        | TokenKindView::Keyword(_) => true,
        TokenKindView::Identifier(_)
        | TokenKindView::IntegerLiteral(_)
        | TokenKindView::RealLiteral(_)
        | TokenKindView::BoolLiteral(_)
        | TokenKindView::BuiltinTypename(_)
        | TokenKindView::LeftBracket
        | TokenKindView::RightParenthesis
        | TokenKindView::Dot
        | TokenKindView::Colon => false,
    }
}

/// Whether a sign behind a token belongs to the number that follows.
pub fn should_expect_sign(prev: bool, token: &TokenKind<'_>) -> (expected: bool)
    ensures
        expected == sign_expected(prev, token@),
{
    match token {
        TokenKind::Comment(_) | TokenKind::Invalid(_) => prev,
        TokenKind::Assignment
        | TokenKind::LeftParenthesis
        | TokenKind::RightBracket
        | TokenKind::Operator(_)
        | TokenKind::Semicolon
        | TokenKind::RangeSymbol
        | TokenKind::Comma
        | TokenKind::RightArrow
        | TokenKind::Keyword(_) => true,
        TokenKind::Identifier(_)
        | TokenKind::IntegerLiteral(_)
        | TokenKind::RealLiteral(_)
        | TokenKind::BoolLiteral(_)
        | TokenKind::BuiltinTypename(_)
        | TokenKind::LeftBracket
        | TokenKind::RightParenthesis
        | TokenKind::Dot
        | TokenKind::Colon => false,
    }
}

// ---------------------------------------------------------------------
// Numbers
// ---------------------------------------------------------------------
/// One of the ten decimal digits.
pub open spec fn is_digit(c: char) -> bool {
    '0' <= c && c <= '9'
}

/// A minus or a plus.
pub open spec fn is_sign(c: char) -> bool {
    c == '-' || c == '+'
}

/// Whether a character is one of the ten decimal digits.
pub fn is_ascii_digit(c: char) -> (digit: bool)
    ensures
        digit == is_digit(c),
{
    '0' <= c && c <= '9'
}

/// The number that a run of decimal digits stands for.
pub open spec fn digits_value(digits: Seq<char>) -> int
    decreases digits.len(),
{
    if digits.len() == 0 {
        0
    } else {
        10 * digits_value(digits.drop_last()) + (digits.last() as int - '0' as int)
    }
}

/// Where the digits of an integer literal start: behind its sign, if it
/// has one.
pub open spec fn digits_start(lexeme: Seq<char>) -> int {
    if lexeme.len() > 0 && is_sign(lexeme[0]) {
        1
    } else {
        0
    }
}

/// A sign or none, and then digits, at least one.
pub open spec fn integer_shape(lexeme: Seq<char>) -> bool {
    digits_start(lexeme) < lexeme.len() && forall|k: int|
        digits_start(lexeme) <= k < lexeme.len() ==> is_digit(#[trigger] lexeme[k])
}

/// The number that an integer literal stands for.
pub open spec fn literal_value(lexeme: Seq<char>) -> int {
    let digits = lexeme.subrange(digits_start(lexeme), lexeme.len() as int);
    if lexeme.len() > 0 && lexeme[0] == '-' {
        -digits_value(digits)
    } else {
        digits_value(digits)
    }
}

/// A piece of the text that is no token.
#[derive(Debug)]
pub struct LexerError {
    /// The byte at which the offending piece of the text starts.
    pub position: usize,
    pub reason: String,
}

/// A lexer error as a mathematical value.
pub struct LexerErrorView {
    pub position: usize,
    pub reason: Seq<char>,
}

impl View for LexerError {
    type V = LexerErrorView;

    open spec fn view(&self) -> LexerErrorView {
        LexerErrorView { position: self.position, reason: self.reason@ }
    }
}

/// What is said of an integer literal that is too large or too small for
/// 64 bits.
pub open spec fn malformed_int(lexeme: Seq<char>) -> Seq<char> {
    "Malformed int \""@ + lexeme + "\": "@ + if literal_value(lexeme) > 0 {
        "number too large to fit in target type"@
    } else {
        "number too small to fit in target type"@
    }
}

/// What is said of a character that starts no token.
pub open spec fn unexpected_symbol(c: char) -> Seq<char> {
    "Unexpected symbol `"@ + seq![c] + "`"@
}

/// The integer literal that a lexeme is, or why it is none: its value
/// does not fit in 64 bits.
pub(crate) fn integer_literal_from_representation<'a>(
    s: &'a str,
    position: usize,
) -> (result: Result<TokenKind<'a>, LexerError>)
    requires
        integer_shape(s@),
    ensures
        match result {
            Ok(kind) => i64::MIN <= literal_value(s@) <= i64::MAX && kind@
                == TokenKindView::IntegerLiteral(literal_value(s@) as i64),
            Err(error) => !(i64::MIN <= literal_value(s@) <= i64::MAX) && error@ == (
            LexerErrorView { position, reason: malformed_int(s@) }),
        },
{
    let chars = chars_of(s);
    let negative = chars[0] == '-';
    let start: usize = if chars[0] == '-' || chars[0] == '+' {
        1
    } else {
        0
    };
    let limit: u64 = 0x8000_0000_0000_0000;
    let mut magnitude: u64 = 0;
    let mut over = false;
    let mut i: usize = start;
    while i < chars.len()
        invariant
            start <= i <= chars.len(),
            chars@ == s@,
            start == digits_start(s@),
            integer_shape(s@),
            limit == 0x8000_0000_0000_0000,
            !over ==> magnitude == digits_value(s@.subrange(start as int, i as int)) && magnitude
                <= limit,
            over ==> digits_value(s@.subrange(start as int, i as int)) > limit,
        decreases chars.len() - i,
    {
        let digit: u32 = chars[i] as u32 - '0' as u32;
        proof {
            let before = s@.subrange(start as int, i as int);
            let after = s@.subrange(start as int, i + 1);
            assert(after.drop_last() =~= before);
        }
        if !over {
            let wide: u128 = magnitude as u128 * 10 + digit as u128;
            if wide > limit as u128 {
                over = true;
            } else {
                magnitude = wide as u64;
            }
        }
        i += 1;
    }
    let fits = !over && (negative || magnitude < limit);
    if fits {
        let value: i64 = if negative {
            if magnitude == limit {
                i64::MIN
            } else {
                -(magnitude as i64)
            }
        } else {
            magnitude as i64
        };
        Ok(TokenKind::IntegerLiteral(IntegerLiteral { value }))
    } else {
        let mut reason = String::from_str("Malformed int \"");
        reason.append(s);
        reason.append("\": ");
        if negative {
            reason.append("number too small to fit in target type");
        } else {
            reason.append("number too large to fit in target type");
        }
        Err(LexerError { position, reason })
    }
}

/// Where the number at place `i` ends and whether it is a real: a sign if
/// one is expected, digits, and for a real a point and more digits, at
/// least one. Digits before a point that no digit follows are no number.
pub open spec fn number_shape(s: Seq<char>, i: int, expects_sign: bool) -> Option<(bool, int)> {
    let start = if expects_sign && 0 <= i < s.len() && is_sign(s[i]) {
        i + 1
    } else {
        i
    };
    let whole_end = run_end(s, start, |c: char| is_digit(c));
    if 0 <= whole_end < s.len() && s[whole_end] == '.' {
        let fraction_end = run_end(s, whole_end + 1, |c: char| is_digit(c));
        if fraction_end == whole_end + 1 {
            None
        } else {
            Some((true, fraction_end))
        }
    } else if whole_end == start {
        None
    } else {
        Some((false, whole_end))
    }
}

/// The number at place `i`: its kind and its end, or the error that it
/// gives, or nothing where no number stands.
pub open spec fn number_token(s: Seq<char>, i: int, expects_sign: bool) -> Option<
    Result<(TokenKindView, int), LexerErrorView>,
> {
    match number_shape(s, i, expects_sign) {
        None => None,
        Some((true, end)) => Some(Ok((TokenKindView::RealLiteral(s.subrange(i, end)), end))),
        Some((false, end)) => {
            let value = literal_value(s.subrange(i, end));
            if i64::MIN <= value <= i64::MAX {
                Some(Ok((TokenKindView::IntegerLiteral(value as i64), end)))
            } else {
                Some(
                    Err(
                        LexerErrorView {
                            position: byte_offset(s, i) as usize,
                            reason: malformed_int(s.subrange(i, end)),
                        },
                    ),
                )
            }
        },
    }
}

/// The number that the text goes on with and the place behind it, or
/// the error that the number gives, or nothing where no number stands.
pub fn numerical_tokens<'s, 'a>(expect_sign: bool, begin: &Cursor<'s, 'a>) -> (found: Option<
    Result<(TokenKind<'a>, Cursor<'s, 'a>), LexerError>,
>)
    requires
        begin.wf(),
    ensures
        match found {
            None => number_token(begin.text(), begin.index as int, expect_sign) is None,
            Some(Ok((kind, end))) => number_token(begin.text(), begin.index as int, expect_sign)
                == Some(Ok::<(TokenKindView, int), LexerErrorView>((kind@, end.index as int)))
                && end.at(begin.source, end.index as int) && begin.index < end.index,
            Some(Err(error)) => number_token(begin.text(), begin.index as int, expect_sign)
                == Some(Err::<(TokenKindView, int), LexerErrorView>(error@)),
        },
{
    let ghost s = begin.text();
    let ghost digit = |c: char| is_digit(c);
    let mut start = *begin;
    if expect_sign {
        if let Some((c, rest)) = start.next() {
            if c == '-' || c == '+' {
                start = rest;
            }
        }
    }
    let whole_end = start.skip(is_ascii_digit, Ghost(digit));
    proof {
        lemma_run_contents(s, start.index as int, digit);
    }
    let after_whole = whole_end.next();
    let point = match after_whole {
        Some((c, rest)) => if c == '.' {
            Some(rest)
        } else {
            None
        },
        None => None,
    };
    match point {
        Some(fraction) => {
            let rest = fraction.skip(is_ascii_digit, Ghost(digit));
            if rest.index == fraction.index {
                None
            } else {
                let repr = Cursor::slice_to_str(begin, &rest);
                Some(Ok((TokenKind::RealLiteral(RealLiteral { repr }), rest)))
            }
        },
        None => {
            if whole_end.index == start.index {
                None
            } else {
                let lexeme = Cursor::slice_to_str(begin, &whole_end);
                match integer_literal_from_representation(lexeme, begin.offset) {
                    Ok(kind) => Some(Ok((kind, whole_end))),
                    Err(error) => Some(Err(error)),
                }
            }
        },
    }
}

// ---------------------------------------------------------------------
// The token stream
// ---------------------------------------------------------------------
/// Whether a character has the Unicode property White_Space.
pub uninterp spec fn white_space(c: char) -> bool;

/// `char::is_whitespace` tells whether the character has the Unicode
/// property White_Space; its answer depends on the character alone.
pub assume_specification[ char::is_whitespace ](c: char) -> (space: bool)
    ensures
        space == white_space(c),
;

/// Any character but the line feed.
pub open spec fn not_line_end(c: char) -> bool {
    c != '\n'
}

/// Whether a character is not the line feed.
pub fn is_not_line_end(c: char) -> (inside: bool)
    ensures
        inside == not_line_end(c),
{
    c != '\n'
}

/// The token that starts at place `i`, where a character stands that is
/// no white space: its kind and its end, or the error that it gives.
///
/// Two dashes start a comment, which ends before the line's end. A
/// character that can start an identifier starts a word, which goes on
/// as far as the characters can continue one. Then a number is tried,
/// then a symbol; what is none of these is an error.
pub open spec fn next_token(s: Seq<char>, i: int, expects_sign: bool) -> Result<
    (TokenKindView, int),
    LexerErrorView,
> {
    if holds_at(s, i, "--"@) {
        let end = run_end(s, i + 2, |c: char| not_line_end(c));
        Ok((TokenKindView::Comment(s.subrange(i + 2, end)), end))
    } else if identifier_start(s[i]) {
        let end = run_end(s, i + 1, |c: char| identifier_continue(c));
        Ok((word_kind(s.subrange(i, end)), end))
    } else {
        match number_token(s, i, expects_sign) {
            Some(number) => number,
            None => match symbol_at(s, i) {
                Some((kind, length)) => Ok((kind, i + length)),
                None => Err(
                    LexerErrorView {
                        position: byte_offset(s, i) as usize,
                        reason: unexpected_symbol(s[i]),
                    },
                ),
            },
        }
    }
}

/// The token of a kind that stands between two places.
pub open spec fn token_between(
    s: Seq<char>,
    start: int,
    end: int,
    kind: TokenKindView,
) -> TokenView {
    TokenView {
        extent: Extent { start: position_at(s, start), end: position_at(s, end) },
        lexeme: s.subrange(start, end),
        kind,
    }
}

/// The tokens from place `i` to the end of the text, or the first error.
/// White space between tokens is passed over. Every token ends behind its
/// start and inside the text, so the stream never stops short for a token
/// that does not.
pub open spec fn tokens_from(s: Seq<char>, i: int, expects_sign: bool) -> Result<
    Seq<TokenView>,
    LexerErrorView,
>
    decreases s.len() - i,
{
    if i < 0 || i >= s.len() {
        Ok(Seq::empty())
    } else if white_space(s[i]) {
        tokens_from(s, i + 1, expects_sign)
    } else {
        match next_token(s, i, expects_sign) {
            Err(error) => Err(error),
            Ok((kind, end)) => if end <= i || end > s.len() {
                Ok(Seq::empty())
            } else {
                match tokens_from(s, end, sign_expected(expects_sign, kind)) {
                    Err(error) => Err(error),
                    Ok(rest) => Ok(seq![token_between(s, i, end, kind)] + rest),
                }
            },
        }
    }
}

/// The error that a text gives whose places cannot be counted.
pub open spec fn too_long() -> LexerErrorView {
    LexerErrorView { position: 0, reason: "Source too long"@ }
}

/// The tokens of a text, or the first error in it. At the start of the
/// text a sign belongs to the number that follows it. A text that takes
/// as many bytes as the largest index, or more, has no places that could
/// be counted, and is an error as a whole.
pub open spec fn token_stream(s: Seq<char>) -> Result<Seq<TokenView>, LexerErrorView> {
    if byte_offset(s, s.len() as int) >= usize::MAX {
        Err(too_long())
    } else {
        tokens_from(s, 0, true)
    }
}

/// White space changes nothing of what follows it.
proof fn lemma_skip_white_space(s: Seq<char>, i: int, expects_sign: bool)
    requires
        0 <= i <= s.len(),
    ensures
        tokens_from(s, i, expects_sign) == tokens_from(
            s,
            run_end(s, i, |c: char| white_space(c)),
            expects_sign,
        ),
    decreases s.len() - i,
{
    if i < s.len() && white_space(s[i]) {
        lemma_skip_white_space(s, i + 1, expects_sign);
    }
}

/// The stretch between two places.
pub fn iterators_to_extent(start: &Cursor<'_, '_>, end: &Cursor<'_, '_>) -> (extent: Extent)
    ensures
        extent == (Extent { start: start.position, end: end.position }),
{
    Extent { start: start.position, end: end.position }
}

/// The views of a list of tokens.
pub open spec fn views<'a>(tokens: Seq<Token<'a>>) -> Seq<TokenView> {
    tokens.map_values(|token: Token<'a>| token@)
}

/// The next token: its kind and the place behind it.
fn next_token_at<'s, 'a>(begin: &Cursor<'s, 'a>, first_char: char, expects_sign: bool) -> (found:
    Result<(TokenKind<'a>, Cursor<'s, 'a>), LexerError>)
    requires
        begin.wf(),
        begin.index < begin.text().len(),
        first_char == begin.text()[begin.index as int],
    ensures
        match found {
            Ok((kind, end)) => next_token(begin.text(), begin.index as int, expects_sign) == Ok::<
                (TokenKindView, int),
                LexerErrorView,
            >((kind@, end.index as int)) && end.at(begin.source, end.index as int) && begin.index
                < end.index,
            Err(error) => next_token(begin.text(), begin.index as int, expects_sign) == Err::<
                (TokenKindView, int),
                LexerErrorView,
            >(error@),
        },
{
    let ghost s = begin.text();
    proof {
        reveal_strlit("--");
    }
    if let Some(comment_start) = begin.starts_with("--") {
        let (value, end) = comment_start.take_while(
            is_not_line_end,
            Ghost(|c: char| not_line_end(c)),
        );
        Ok((TokenKind::Comment(Comment { value }), end))
    } else if is_identifier_start(first_char) {
        let after_first = match begin.next() {
            Some((_, rest)) => rest,
            None => *begin,
        };
        let end = after_first.skip(is_identifier_continue, Ghost(|c: char| identifier_continue(c)));
        let lexeme = Cursor::slice_to_str(begin, &end);
        Ok((possible_identifier_value(lexeme), end))
    } else if let Some(number) = numerical_tokens(expects_sign, begin) {
        number
    } else if let Some((kind, end)) = known_symbolic_tokens(begin) {
        Ok((kind, end))
    } else {
        let after_first = match begin.next() {
            Some((_, rest)) => rest,
            None => *begin,
        };
        let mut reason = String::from_str("Unexpected symbol `");
        reason.append(Cursor::slice_to_str(begin, &after_first));
        reason.append("`");
        assert(s.subrange(begin.index as int, begin.index + 1) =~= seq![first_char]);
        Err(LexerError { position: begin.offset, reason })
    }
}

/// Splits a source text into its tokens, each with its lexeme and its
/// place, or reports the first piece of the text that is no token.
pub fn tokenize<'a>(source: &'a str) -> (result: Result<Vec<Token<'a>>, LexerError>)
    ensures
        match result {
            Ok(tokens) => token_stream(source@) == Ok::<Seq<TokenView>, LexerErrorView>(
                views(tokens@),
            ),
            Err(error) => token_stream(source@) == Err::<Seq<TokenView>, LexerErrorView>(error@),
        },
{
    proof {
        assert(source@.take(source@.len() as int) =~= source@);
        lemma_offset_at_least(source@, source@.len() as int);
    }
    if source.as_bytes().len() >= usize::MAX {
        return Err(LexerError { position: 0, reason: String::from_str("Source too long") });
    }
    tokens_of(source)
}

/// The tokens of a text whose places can be counted.
fn tokens_of<'a>(source: &'a str) -> (result: Result<Vec<Token<'a>>, LexerError>)
    requires
        source@.len() < usize::MAX,
    ensures
        match result {
            Ok(tokens) => tokens_from(source@, 0, true) == Ok::<Seq<TokenView>, LexerErrorView>(
                views(tokens@),
            ),
            Err(error) => tokens_from(source@, 0, true) == Err::<Seq<TokenView>, LexerErrorView>(
                error@,
            ),
        },
{
    let text = Source::new(source);
    let ghost s = source@;
    let mut begin = Cursor::from_beginning(&text);
    let mut result: Vec<Token<'a>> = Vec::new();
    let mut expects_sign = true;
    loop
        invariant
            begin.at(&text, begin.index as int),
            text.text@ == s,
            s == source@,
            match tokens_from(s, begin.index as int, expects_sign) {
                Ok(rest) => tokens_from(s, 0, true) == Ok::<Seq<TokenView>, LexerErrorView>(
                    views(result@) + rest,
                ),
                Err(error) => tokens_from(s, 0, true) == Err::<Seq<TokenView>, LexerErrorView>(
                    error,
                ),
            },
        ensures
            tokens_from(s, 0, true) == Ok::<Seq<TokenView>, LexerErrorView>(views(result@)),
        decreases s.len() - begin.index,
    {
        let first_char = match begin.lookup() {
            None => {
                break ;
            },
            Some(c) => c,
        };
        if first_char.is_whitespace() {
            proof {
                lemma_skip_white_space(s, begin.index as int, expects_sign);
                lemma_run_end(s, begin.index + 1, |c: char| white_space(c));
            }
            begin = begin.skip(char::is_whitespace, Ghost(|c: char| white_space(c)));
        } else {
            match next_token_at(&begin, first_char, expects_sign) {
                Err(error) => {
                    return Err(error);
                },
                Ok((kind, end)) => {
                    let token = Token {
                        extent: iterators_to_extent(&begin, &end),
                        lexeme: Cursor::slice_to_str(&begin, &end),
                        kind,
                    };
                    proof {
                        let next_expects = sign_expected(expects_sign, kind@);
                        assert(views(result@.push(token)) =~= views(result@).push(token@));
                        match tokens_from(s, end.index as int, next_expects) {
                            Ok(rest) => {
                                assert(views(result@).push(token@) + rest =~= views(result@) + (
                                seq![token@] + rest));
                            },
                            Err(_) => {},
                        }
                    }
                    expects_sign = should_expect_sign(expects_sign, &token.kind);
                    result.push(token);
                    begin = end;
                },
            }
        }
    }
    Ok(result)
}

/// An error as it is shown: where it is and what it is.
pub open spec fn error_text(error: LexerErrorView) -> Seq<char> {
    "Lexing error byte offset "@ + decimal_text(error.position as nat) + ": "@ + error.reason
}

impl LexerError {
    /// The error as it is shown.
    pub fn to_text(&self) -> (text: String)
        ensures
            text@ == error_text(self@),
    {
        let mut text = String::from_str("Lexing error byte offset ");
        append_decimal(&mut text, self.position as u64);
        text.append(": ");
        text.append(self.reason.as_str());
        text
    }
}

/// Every token takes at least one character and ends inside the text.
pub proof fn lemma_token_ends_inside(s: Seq<char>, i: int, expects_sign: bool)
    requires
        0 <= i < s.len(),
    ensures
        match next_token(s, i, expects_sign) {
            Ok((_, end)) => i < end <= s.len(),
            Err(_) => true,
        },
{
    reveal_strlit("--");
    reveal_strlit(":=");
    reveal_strlit("..");
    reveal_strlit("/=");
    reveal_strlit("<=");
    reveal_strlit(">=");
    if holds_at(s, i, "--"@) {
        lemma_run_end(s, i + 2, |c: char| not_line_end(c));
    } else if identifier_start(s[i]) {
        lemma_run_end(s, i + 1, |c: char| identifier_continue(c));
    } else {
        let start = if expects_sign && is_sign(s[i]) {
            i + 1
        } else {
            i
        };
        lemma_run_end(s, start, |c: char| is_digit(c));
        let whole_end = run_end(s, start, |c: char| is_digit(c));
        if whole_end < s.len() {
            lemma_run_end(s, whole_end + 1, |c: char| is_digit(c));
        }
    }
}

} // verus!
