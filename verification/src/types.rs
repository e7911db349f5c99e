use vstd::prelude::*;

verus! {

use crate::parser::{ParseError, Parser};
use crate::tokens::{Token, TokenKind};

/// A type descriptor: a named type, or an array around an inner type with a
/// count of extra dimensions.
#[derive(Debug, PartialEq)]
pub enum Type {
    Symbol(String),
    Array { left_type: Box<Type>, dimensions: usize },
}

/// Prefix rule of the type grammar: a bare identifier names a type.
pub fn parse_symbol_type(parser: &mut Parser) -> (res: Result<Type, ParseError>)
    requires
        old(parser).wf(),
    ensures
        final(parser).wf(),
        final(parser).tokens == old(parser).tokens,
        res is Ok <==> old(parser).cur().kind == TokenKind::Identifier,
        res matches Ok(t) ==> final(parser).index == old(parser).index + 1 && t == Type::Symbol(
            old(parser).cur().value,
        ),
        res is Err ==> final(parser).index == old(parser).index,
{
    let t = parser.expect(TokenKind::Identifier)?;
    Ok(Type::Symbol(t.value))
}

/// The first position at or after the given one whose token is no comma.
pub open spec fn commas_end(toks: Seq<Token>, i: int) -> int
    decreases toks.len() - i,
{
    if i < 0 || i >= toks.len() {
        i
    } else if toks[i].kind == TokenKind::Comma {
        commas_end(toks, i + 1)
    } else {
        i
    }
}

/// The end of a run of commas is where the first non-comma stands.
proof fn lemma_commas_end_unique(toks: Seq<Token>, i: int, j: int)
    requires
        0 <= i <= j < toks.len(),
        forall|k: int| i <= k < j ==> (#[trigger] toks[k]).kind == TokenKind::Comma,
        toks[j].kind != TokenKind::Comma,
    ensures
        commas_end(toks, i) == j,
    decreases j - i,
{
    if i < j {
        lemma_commas_end_unique(toks, i + 1, j);
    }
}

/// Infix rule of the type grammar: a following `[` wraps the left type in an
/// array descriptor, counting the commas before the matching `]` as extra
/// dimensions.
pub fn parse_array_type(parser: &mut Parser, bp: i8, left: Type) -> (res: Result<Type, ParseError>)
    requires
        old(parser).wf(),
    ensures
        final(parser).wf(),
        final(parser).tokens == old(parser).tokens,
        final(parser).index >= old(parser).index,
        res is Ok <==> old(parser).cur().kind == TokenKind::OpenBracket && old(
            parser,
        ).tokens@[commas_end(old(parser).tokens@, old(parser).index + 1)].kind
            == TokenKind::CloseBracket,
        res matches Ok(t) ==> t == (Type::Array {
            left_type: Box::new(left),
            dimensions: (commas_end(old(parser).tokens@, old(parser).index + 1) - (old(
                parser,
            ).index + 1)) as usize,
        }) && final(parser).index == commas_end(old(parser).tokens@, old(parser).index + 1) + 1,
        res is Ok ==> final(parser).index > old(parser).index,
        res matches Err(e) ==> e == (if old(parser).cur().kind != TokenKind::OpenBracket {
            ParseError::UnexpectedToken {
                expected: TokenKind::OpenBracket,
                found: old(parser).cur().kind,
                at: old(parser).index,
            }
        } else {
            ParseError::UnexpectedToken {
                expected: TokenKind::CloseBracket,
                found: old(parser).tokens@[commas_end(
                    old(parser).tokens@,
                    old(parser).index + 1,
                )].kind,
                at: commas_end(old(parser).tokens@, old(parser).index + 1) as usize,
            }
        }),
{
    parser.expect(TokenKind::OpenBracket)?;
    let ghost base = parser.index as int;
    let mut dimensions: usize = 0;
    while parser.current_token_kind() == TokenKind::Comma
        invariant
            parser.wf(),
            parser.tokens == old(parser).tokens,
            parser.index > old(parser).index,
            dimensions == parser.index - base,
            0 <= base <= parser.index,
            forall|k: int| base <= k < parser.index ==> (#[trigger] parser.tokens@[k]).kind
                == TokenKind::Comma,
        decreases parser.tokens@.len() - parser.index,
    {
        parser.advance();
        let _bound = parser.tokens.len();
        dimensions = dimensions + 1;
    }
    proof {
        lemma_commas_end_unique(parser.tokens@, base, parser.index as int);
    }
    parser.expect(TokenKind::CloseBracket)?;
    Ok(Type::Array { left_type: Box::new(left), dimensions })
}

/// A run of commas never ends before where it starts.
proof fn lemma_commas_end_ge(toks: Seq<Token>, i: int)
    ensures
        commas_end(toks, i) >= i,
    decreases toks.len() - i,
{
    if 0 <= i < toks.len() && toks[i].kind == TokenKind::Comma {
        lemma_commas_end_ge(toks, i + 1);
    }
}

/// In a well-formed sequence a run of commas stops at a token: the sentinel
/// at the end is never a comma.
proof fn lemma_commas_end_bounded(toks: Seq<Token>, i: int)
    requires
        crate::tokens::wf_token_seq(toks),
        0 <= i < toks.len(),
    ensures
        i <= commas_end(toks, i) < toks.len(),
    decreases toks.len() - i,
{
    if toks[i].kind == TokenKind::Comma {
        lemma_commas_end_bounded(toks, i + 1);
    }
}

/// The array suffixes of the type grammar, as a function from a position and
/// the descriptor so far to the finished descriptor and the position after
/// it, or the error: while the current token binds strictly tighter than the
/// floor, an opening bracket wraps the descriptor in one more array layer
/// whose dimension count is the length of the comma run before the closing
/// bracket.
pub open spec fn type_suffixes(toks: Seq<Token>, i: int, left: Type, bp: i8) -> Result<
    (Type, int),
    ParseError,
>
    decreases
            (if i <= toks.len() {
                toks.len() - i
            } else {
                0
            }),
    via type_suffixes_decreases
{
    if !(0 <= i < toks.len()) {
        Err(ParseError::MissingPrefixHandler(TokenKind::EndOfFile, 0))
    } else {
        match crate::lookup::infix_bp(toks[i].kind) {
            None => Err(ParseError::MissingInfixHandler(toks[i].kind, i as usize)),
            Some(b) => if b <= bp {
                Ok((left, i))
            } else if toks[i].kind == TokenKind::OpenBracket {
                if 0 <= commas_end(toks, i + 1) < toks.len() && toks[commas_end(
                    toks,
                    i + 1,
                )].kind == TokenKind::CloseBracket {
                    type_suffixes(
                        toks,
                        commas_end(toks, i + 1) + 1,
                        Type::Array {
                            left_type: Box::new(left),
                            dimensions: (commas_end(toks, i + 1) - (i + 1)) as usize,
                        },
                        bp,
                    )
                } else if 0 <= commas_end(toks, i + 1) < toks.len() {
                    Err(
                        ParseError::UnexpectedToken {
                            expected: TokenKind::CloseBracket,
                            found: toks[commas_end(toks, i + 1)].kind,
                            at: commas_end(toks, i + 1) as usize,
                        },
                    )
                } else {
                    Err(ParseError::MissingPrefixHandler(TokenKind::EndOfFile, 0))
                }
            } else {
                Err(ParseError::MissingInfixHandler(toks[i].kind, i as usize))
            },
        }
    }
}

#[via_fn]
proof fn type_suffixes_decreases(toks: Seq<Token>, i: int, left: Type, bp: i8) {
    lemma_commas_end_ge(toks, i + 1);
}

/// The whole type grammar as a function: an identifier names the first
/// descriptor, then the array suffixes follow.
pub open spec fn type_grammar(toks: Seq<Token>, i: int, bp: i8) -> Result<
    (Type, int),
    ParseError,
> {
    if !(0 <= i < toks.len()) {
        Err(ParseError::MissingPrefixHandler(TokenKind::EndOfFile, 0))
    } else if toks[i].kind == TokenKind::Identifier {
        type_suffixes(toks, i + 1, Type::Symbol(toks[i].value), bp)
    } else {
        Err(ParseError::MissingPrefixHandler(toks[i].kind, i as usize))
    }
}

/// The type grammar's precedence-climbing entry: a prefix rule for the first
/// descriptor, then array suffixes while the current token binds strictly
/// tighter than the floor, consulting the shared infix precedence table.
/// The result is exactly what the type grammar says of the starting
/// position.
pub fn parse_type(parser: &mut Parser, bp: i8) -> (res: Result<Type, ParseError>)
    requires
        old(parser).wf(),
        bp >= -1,
    ensures
        final(parser).wf(),
        final(parser).tokens == old(parser).tokens,
        final(parser).index >= old(parser).index,
        res is Ok ==> final(parser).index > old(parser).index,
        type_grammar(old(parser).tokens@, old(parser).index as int, bp) matches Ok(p) ==> (res
            matches Ok(t) && t == p.0 && final(parser).index == p.1),
        type_grammar(old(parser).tokens@, old(parser).index as int, bp) matches Err(e) ==> res
            == Err::<Type, ParseError>(e),
{
    let ghost toks = old(parser).tokens@;
    let ghost i0 = old(parser).index as int;
    let nod_kind = parser.current_token_kind();
    let mut left = if nod_kind == TokenKind::Identifier {
        parse_symbol_type(parser)?
    } else {
        return Err(ParseError::MissingPrefixHandler(nod_kind, parser.index));
    };
    loop
        invariant
            parser.wf(),
            parser.tokens == old(parser).tokens,
            parser.index > old(parser).index,
            bp >= -1,
            toks == old(parser).tokens@,
            i0 == old(parser).index as int,
            type_grammar(toks, i0, bp) == type_suffixes(toks, parser.index as int, left, bp),
        decreases parser.tokens@.len() - parser.index,
    {
        let led_kind = parser.current_token_kind();
        let current_bp = match parser.current_bp() {
            Some(b) => b,
            None => {
                return Err(ParseError::MissingInfixHandler(led_kind, parser.index));
            },
        };
        if current_bp <= bp {
            return Ok(left);
        }
        if led_kind == TokenKind::OpenBracket {
            let ghost j = parser.index as int;
            let ghost left0 = left;
            proof {
                lemma_commas_end_bounded(toks, j + 1);
            }
            left = parse_array_type(parser, current_bp, left)?;
            proof {
                assert(type_suffixes(toks, j, left0, bp) == type_suffixes(
                    toks,
                    parser.index as int,
                    left,
                    bp,
                ));
            }
        } else {
            return Err(ParseError::MissingInfixHandler(led_kind, parser.index));
        }
    }
}

} // verus!
