use vstd::prelude::*;

verus! {

use crate::expression::{parse_expr, Expression};
use crate::grammar::{after, program_grammar, view_expr, view_exprs, ExprModel};
use crate::lookup;
use crate::tokens::{copy_token, wf_token_seq, Token, TokenKind};

/// Parsing failed: a token kind without a rule in the position it appeared,
/// a token other than the required one, or an opening brace after something
/// that is no plain identifier.
#[derive(Debug, Clone, Copy, PartialEq, Eq, Structural)]
pub enum ParseError {
    MissingPrefixHandler(TokenKind, usize),
    MissingInfixHandler(TokenKind, usize),
    UnexpectedToken { expected: TokenKind, found: TokenKind, at: usize },
    InvalidInstantiationTarget { at: usize },
}

/// The parser's advancing cursor over a well-formed token sequence.
pub struct Parser {
    pub index: usize,
    pub tokens: Vec<Token>,
}

impl Parser {
    /// The cursor always stands on a token, and the sequence ends with
    /// exactly one end-of-file sentinel.
    pub open spec fn wf(&self) -> bool {
        &&& wf_token_seq(self.tokens@)
        &&& self.index < self.tokens@.len()
    }

    /// The token under the cursor.
    pub open spec fn cur(&self) -> Token {
        self.tokens@[self.index as int]
    }

    pub fn new(tokens: Vec<Token>) -> (p: Parser)
        requires
            wf_token_seq(tokens@),
        ensures
            p.wf(),
            p.tokens == tokens,
            p.index == 0,
    {
        Parser { index: 0, tokens }
    }

    pub fn get_token(&self, index: usize) -> (t: &Token)
        requires
            index < self.tokens@.len(),
        ensures
            *t == self.tokens@[index as int],
    {
        &self.tokens[index]
    }

    /// Steps past the current token and hands it back.
    pub fn advance(&mut self) -> (t: Token)
        requires
            old(self).wf(),
            old(self).cur().kind != TokenKind::EndOfFile,
        ensures
            final(self).wf(),
            final(self).tokens == old(self).tokens,
            final(self).index == old(self).index + 1,
            t == old(self).cur(),
    {
        let t = copy_token(&self.tokens[self.index]);
        let _bound = self.tokens.len();
        self.index = self.index + 1;
        t
    }

    pub fn current_token(&self) -> (t: &Token)
        requires
            self.wf(),
        ensures
            *t == self.cur(),
    {
        &self.tokens[self.index]
    }

    pub fn current_token_kind(&self) -> (k: TokenKind)
        requires
            self.wf(),
        ensures
            k == self.cur().kind,
    {
        self.tokens[self.index].kind
    }

    /// The infix binding power of the current token kind.
    pub fn current_bp(&self) -> (r: Option<i8>)
        requires
            self.wf(),
        ensures
            r == lookup::infix_bp(self.cur().kind),
    {
        lookup::get_bp(self.current_token_kind())
    }

    /// Steps past a token of the required kind, or reports the mismatch.
    pub fn expect(&mut self, expected: TokenKind) -> (r: Result<Token, ParseError>)
        requires
            old(self).wf(),
            expected != TokenKind::EndOfFile,
        ensures
            final(self).wf(),
            final(self).tokens == old(self).tokens,
            r is Ok <==> old(self).cur().kind == expected,
            r matches Ok(t) ==> final(self).index == old(self).index + 1 && t == old(self).cur(),
            r is Err ==> final(self).index == old(self).index,
            r matches Err(e) ==> e == (ParseError::UnexpectedToken {
                expected,
                found: old(self).cur().kind,
                at: old(self).index,
            }),
    {
        let found = self.tokens[self.index].kind;
        if found == expected {
            Ok(self.advance())
        } else {
            Err(ParseError::UnexpectedToken { expected, found, at: self.index })
        }
    }
}

/// Parses the whole token sequence as an ordered list of top-level
/// expressions, stopping at the end-of-file sentinel; the first fault
/// aborts. The result, success and failure alike, is exactly what the
/// program grammar says of the sequence.
#[verifier::loop_isolation(false)]
pub fn parse(tokens: Vec<Token>) -> (r: Result<Vec<Expression>, ParseError>)
    requires
        wf_token_seq(tokens@),
    ensures
        program_grammar(tokens@, 0) matches Ok(p) ==> (r matches Ok(es) && view_exprs(es@)
            == p.0),
        program_grammar(tokens@, 0) matches Err(e) ==> r == Err::<Vec<Expression>, ParseError>(e),
        tokens@.len() == 1 ==> (r matches Ok(es) && es@ =~= Seq::<Expression>::empty()),
        r matches Ok(es) ==> (es@.len() == 0 <==> tokens@.len() == 1),
{
    let ghost toks = tokens@;
    let ghost n = toks.len() as int;
    let mut parser = Parser::new(tokens);
    let mut parsed_lines: Vec<Expression> = Vec::new();
    proof {
        assert(view_exprs(parsed_lines@) =~= Seq::<ExprModel>::empty());
    }
    while parser.current_token_kind() != TokenKind::EndOfFile
        invariant
            parser.wf(),
            parser.tokens@ == toks,
            n == toks.len() as int,
            parser.index > 0 ==> parsed_lines@.len() >= 1,
            parser.index == 0 ==> parsed_lines@.len() == 0,
            program_grammar(toks, 0) == (match program_grammar(toks, parser.index as int) {
                Ok(p) => Ok::<(Seq<ExprModel>, int), ParseError>(
                    (view_exprs(parsed_lines@) + p.0, p.1),
                ),
                Err(e) => Err(e),
            }),
        decreases parser.tokens@.len() - parser.index,
    {
        let ghost icur = parser.index as int;
        let ghost pre = view_exprs(parsed_lines@);
        let e = match parse_expr(&mut parser, 0) {
            Ok(e) => e,
            Err(err) => {
                return Err(err);
            },
        };
        proof {
            assert(after(icur, parser.index as int, n) == parser.index as int);
        }
        let ghost pres = parsed_lines@;
        parsed_lines.push(e);
        proof {
            assert(parsed_lines@.drop_last() =~= pres);
            assert(view_exprs(parsed_lines@) == pre.push(view_expr(e)));
            assert forall|rest: Seq<ExprModel>| pre.push(view_expr(e)) + rest =~= pre + (seq![
                view_expr(e),
            ] + rest) by {}
        }
    }
    proof {
        assert(program_grammar(toks, parser.index as int) == Ok::<
            (Seq<ExprModel>, int),
            ParseError,
        >((Seq::empty(), parser.index as int)));
        assert(view_exprs(parsed_lines@) + Seq::<ExprModel>::empty() =~= view_exprs(
            parsed_lines@,
        ));
    }
    Ok(parsed_lines)
}

} // verus!
