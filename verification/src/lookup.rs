use vstd::prelude::*;

verus! {

use crate::tokens::TokenKind;

/// The prefix handlers a token kind can start an expression with.
#[derive(Debug, Clone, Copy, PartialEq, Eq, Structural)]
pub enum NodRule {
    Grouping,
    Function,
    If,
    While,
    For,
    VariableDeclaration,
    Class,
    StringLiteral,
    Identifier,
    Number,
    Prefix,
    ArrayInitialization,
    Return,
    Keyword,
}

/// The infix handlers a token kind can continue an expression with.
#[derive(Debug, Clone, Copy, PartialEq, Eq, Structural)]
pub enum LedRule {
    Assignment,
    Binary,
    Member,
    Range,
    ClassInstantiation,
}

/// The prefix rule registered for a token kind, where one exists. Prefix
/// registration stands apart from the infix precedence table, so a kind such
/// as `-` keeps its infix precedence while also opening a prefix expression.
pub open spec fn nod_rule(kind: TokenKind) -> Option<NodRule> {
    match kind {
        TokenKind::OpenParen => Some(NodRule::Grouping),
        TokenKind::CloseParen => Some(NodRule::Grouping),
        TokenKind::Fn => Some(NodRule::Function),
        TokenKind::If => Some(NodRule::If),
        TokenKind::While => Some(NodRule::While),
        TokenKind::For => Some(NodRule::For),
        TokenKind::Let => Some(NodRule::VariableDeclaration),
        TokenKind::Class => Some(NodRule::Class),
        TokenKind::String => Some(NodRule::StringLiteral),
        TokenKind::Identifier => Some(NodRule::Identifier),
        TokenKind::Number => Some(NodRule::Number),
        TokenKind::Minus => Some(NodRule::Prefix),
        TokenKind::Plus => Some(NodRule::Prefix),
        TokenKind::OpenCurly => Some(NodRule::ArrayInitialization),
        TokenKind::Return => Some(NodRule::Return),
        TokenKind::SemiColon => Some(NodRule::Keyword),
        TokenKind::Comma => Some(NodRule::Keyword),
        _ => None,
    }
}

/// The infix rule registered for a token kind, where one exists.
pub open spec fn led_rule(kind: TokenKind) -> Option<LedRule> {
    match kind {
        TokenKind::Assignment => Some(LedRule::Assignment),
        TokenKind::NotEquals => Some(LedRule::Assignment),
        TokenKind::PlusEquals => Some(LedRule::Assignment),
        TokenKind::MinusEquals => Some(LedRule::Assignment),
        TokenKind::Equals => Some(LedRule::Binary),
        TokenKind::Plus => Some(LedRule::Binary),
        TokenKind::Minus => Some(LedRule::Binary),
        TokenKind::Star => Some(LedRule::Binary),
        TokenKind::Slash => Some(LedRule::Binary),
        TokenKind::Less => Some(LedRule::Binary),
        TokenKind::LessEquals => Some(LedRule::Binary),
        TokenKind::Greater => Some(LedRule::Binary),
        TokenKind::GreaterEquals => Some(LedRule::Binary),
        TokenKind::Dot => Some(LedRule::Member),
        TokenKind::DotDot => Some(LedRule::Range),
        TokenKind::OpenCurly => Some(LedRule::ClassInstantiation),
        _ => None,
    }
}

/// The infix binding power of a token kind, consulted by the parsing loops:
/// defined for every kind that can legally stand where precedence is asked
/// for, with the end-of-file sentinel at the minimum.
pub open spec fn infix_bp(kind: TokenKind) -> Option<i8> {
    match kind {
        TokenKind::Assignment => Some(1i8),
        TokenKind::Equals => Some(1i8),
        TokenKind::NotEquals => Some(1i8),
        TokenKind::PlusEquals => Some(1i8),
        TokenKind::MinusEquals => Some(1i8),
        TokenKind::Less => Some(1i8),
        TokenKind::LessEquals => Some(1i8),
        TokenKind::Greater => Some(1i8),
        TokenKind::GreaterEquals => Some(1i8),
        TokenKind::Dot => Some(1i8),
        TokenKind::DotDot => Some(1i8),
        TokenKind::Plus => Some(2i8),
        TokenKind::Minus => Some(2i8),
        TokenKind::Star => Some(3i8),
        TokenKind::Slash => Some(3i8),
        TokenKind::OpenBracket => Some(5i8),
        TokenKind::OpenCurly => Some(0i8),
        TokenKind::CloseCurly => Some(0i8),
        TokenKind::OpenParen => Some(0i8),
        TokenKind::CloseParen => Some(0i8),
        TokenKind::Fn => Some(0i8),
        TokenKind::If => Some(0i8),
        TokenKind::While => Some(0i8),
        TokenKind::For => Some(0i8),
        TokenKind::Let => Some(0i8),
        TokenKind::Class => Some(0i8),
        TokenKind::String => Some(0i8),
        TokenKind::Identifier => Some(0i8),
        TokenKind::Number => Some(0i8),
        TokenKind::Return => Some(0i8),
        TokenKind::SemiColon => Some(-1i8),
        TokenKind::Comma => Some(-1i8),
        TokenKind::EndOfFile => Some(-1i8),
        _ => None,
    }
}

/// Looks up the prefix rule of a token kind.
pub fn get_nod(kind: TokenKind) -> (r: Option<NodRule>)
    ensures
        r == nod_rule(kind),
{
    match kind {
        TokenKind::OpenParen => Some(NodRule::Grouping),
        TokenKind::CloseParen => Some(NodRule::Grouping),
        TokenKind::Fn => Some(NodRule::Function),
        TokenKind::If => Some(NodRule::If),
        TokenKind::While => Some(NodRule::While),
        TokenKind::For => Some(NodRule::For),
        TokenKind::Let => Some(NodRule::VariableDeclaration),
        TokenKind::Class => Some(NodRule::Class),
        TokenKind::String => Some(NodRule::StringLiteral),
        TokenKind::Identifier => Some(NodRule::Identifier),
        TokenKind::Number => Some(NodRule::Number),
        TokenKind::Minus => Some(NodRule::Prefix),
        TokenKind::Plus => Some(NodRule::Prefix),
        TokenKind::OpenCurly => Some(NodRule::ArrayInitialization),
        TokenKind::Return => Some(NodRule::Return),
        TokenKind::SemiColon => Some(NodRule::Keyword),
        TokenKind::Comma => Some(NodRule::Keyword),
        _ => None,
    }
}

/// Looks up the infix rule of a token kind.
pub fn get_led(kind: TokenKind) -> (r: Option<LedRule>)
    ensures
        r == led_rule(kind),
{
    match kind {
        TokenKind::Assignment => Some(LedRule::Assignment),
        TokenKind::NotEquals => Some(LedRule::Assignment),
        TokenKind::PlusEquals => Some(LedRule::Assignment),
        TokenKind::MinusEquals => Some(LedRule::Assignment),
        TokenKind::Equals => Some(LedRule::Binary),
        TokenKind::Plus => Some(LedRule::Binary),
        TokenKind::Minus => Some(LedRule::Binary),
        TokenKind::Star => Some(LedRule::Binary),
        TokenKind::Slash => Some(LedRule::Binary),
        TokenKind::Less => Some(LedRule::Binary),
        TokenKind::LessEquals => Some(LedRule::Binary),
        TokenKind::Greater => Some(LedRule::Binary),
        TokenKind::GreaterEquals => Some(LedRule::Binary),
        TokenKind::Dot => Some(LedRule::Member),
        TokenKind::DotDot => Some(LedRule::Range),
        TokenKind::OpenCurly => Some(LedRule::ClassInstantiation),
        _ => None,
    }
}

/// Looks up the infix binding power of a token kind.
pub fn get_bp(kind: TokenKind) -> (r: Option<i8>)
    ensures
        r == infix_bp(kind),
{
    match kind {
        TokenKind::Assignment => Some(1i8),
        TokenKind::Equals => Some(1i8),
        TokenKind::NotEquals => Some(1i8),
        TokenKind::PlusEquals => Some(1i8),
        TokenKind::MinusEquals => Some(1i8),
        TokenKind::Less => Some(1i8),
        TokenKind::LessEquals => Some(1i8),
        TokenKind::Greater => Some(1i8),
        TokenKind::GreaterEquals => Some(1i8),
        TokenKind::Dot => Some(1i8),
        TokenKind::DotDot => Some(1i8),
        TokenKind::Plus => Some(2i8),
        TokenKind::Minus => Some(2i8),
        TokenKind::Star => Some(3i8),
        TokenKind::Slash => Some(3i8),
        TokenKind::OpenBracket => Some(5i8),
        TokenKind::OpenCurly => Some(0i8),
        TokenKind::CloseCurly => Some(0i8),
        TokenKind::OpenParen => Some(0i8),
        TokenKind::CloseParen => Some(0i8),
        TokenKind::Fn => Some(0i8),
        TokenKind::If => Some(0i8),
        TokenKind::While => Some(0i8),
        TokenKind::For => Some(0i8),
        TokenKind::Let => Some(0i8),
        TokenKind::Class => Some(0i8),
        TokenKind::String => Some(0i8),
        TokenKind::Identifier => Some(0i8),
        TokenKind::Number => Some(0i8),
        TokenKind::Return => Some(0i8),
        TokenKind::SemiColon => Some(-1i8),
        TokenKind::Comma => Some(-1i8),
        TokenKind::EndOfFile => Some(-1i8),
        _ => None,
    }
}

/// Every token kind with a registered infix rule carries a binding power,
/// and the end-of-file sentinel's binding power stands strictly below every
/// one of them: the parsing loop can never continue past the sentinel, so
/// it always terminates.
pub proof fn lemma_infix_rules_above_eof()
    ensures
        infix_bp(TokenKind::EndOfFile) == Some(-1i8),
        forall|k: TokenKind| #[trigger] led_rule(k) is Some ==> infix_bp(k) is Some,
        forall|k: TokenKind|
            #[trigger] led_rule(k) is Some ==> infix_bp(TokenKind::EndOfFile).unwrap() < infix_bp(
                k,
            ).unwrap(),
{
}

} // verus!
