use vstd::prelude::*;

verus! {

/// The closed set of token kinds the lexer can emit: layout, punctuation,
/// operators, literal markers, reserved words, and the end-of-file sentinel.
#[derive(Debug, Clone, Copy, PartialEq, Eq, Hash, Structural)]
pub enum TokenKind {
    WhiteSpace,
    Tab,
    NextLine,
    Comment,

    OpenBracket,
    CloseBracket,
    OpenCurly,
    CloseCurly,
    CloseParen,
    OpenParen,

    DotDot,
    Dot,
    Arrow,

    Equals,
    NotEquals,
    Assignment,
    Not,
    LessEquals,
    Less,
    GreaterEquals,
    Greater,
    Or,
    And,
    SemiColon,
    Colon,
    Question,
    Comma,
    PlusEquals,
    MinusEquals,

    PlusPlus,
    MinusMinus,

    Plus,
    Minus,
    Star,
    Slash,
    Percent,

    EndOfFile,
    Number,
    String,
    Identifier,

    Const,
    Fn,
    Enum,
    Class,
    Pub,
    Mod,
    As,
    New,
    Import,
    For,
    In,
    If,
    Else,
    While,
    Return,

    Let,

    Mut,
    Out,
}

/// One token: its kind, the literal text it was scanned from, and the line
/// it ends on (counted as the number of line breaks before its end).
#[derive(Debug, Clone, PartialEq)]
pub struct Token {
    pub kind: TokenKind,
    pub value: String,
    pub line: usize,
}

/// A well-formed token sequence ends with exactly one end-of-file sentinel.
pub open spec fn wf_token_seq(toks: Seq<Token>) -> bool {
    &&& toks.len() >= 1
    &&& toks.last().kind == TokenKind::EndOfFile
    &&& forall|i: int|
        0 <= i < toks.len() - 1 ==> (#[trigger] toks[i]).kind != TokenKind::EndOfFile
}

/// Copies a token field by field; the string clone keeps the view, so the
/// result equals the input.
pub fn copy_token(t: &Token) -> (r: Token)
    ensures
        r == *t,
{
    Token { kind: t.kind, value: t.value.clone(), line: t.line }
}

} // verus!
