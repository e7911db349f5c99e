use vstd::prelude::*;

verus! {

use crate::grammar::{
    after, array_grammar, assignment_grammar, binary_grammar, body_grammar, class_grammar,
    class_items_grammar, conditional_tail_grammar, declaration_grammar, expr_grammar,
    for_grammar, for_tail_grammar, function_grammar, function_tail_grammar, grouping_grammar,
    if_grammar, infix_grammar, instantiation_grammar, items_grammar, member_grammar,
    params_grammar, prefix_grammar, range_grammar, return_grammar, view_expr, view_exprs,
    while_grammar, ExprModel,
};
use crate::lookup::{self, LedRule, NodRule};
use crate::parser::{ParseError, Parser};
use crate::tokens::{Token, TokenKind};
use crate::types::{parse_type, Type};

/// One tagged tree of expression- and statement-shaped nodes: this language
/// treats declarations and control constructs uniformly as expressions.
/// Every node exclusively owns its children. A numeric literal keeps its
/// scanned text.
#[derive(Debug, PartialEq)]
pub enum Expression {
    Number(String),
    String(String),
    Identifier(String),
    Prefix { prefix: Token, value: Box<Expression> },
    Keyword(TokenKind),
    Assignment { target: Box<Expression>, operator: Token, value: Box<Expression> },
    VariableDeclaration { var_type: Type, name: String, mutable: bool },
    Grouping(Box<Expression>),
    Class { public: bool, name: String, properties: Vec<Expression>, functions: Vec<Expression> },
    ClassProperty { var_name: String, var_type: Type },
    ClassFunction { name: String },
    Binary { l: Box<Expression>, operator: Token, r: Box<Expression> },
    ClassInstantiation { name: String, properties: Vec<Expression> },
    ArrayInitialization { properties: Vec<Expression> },
    Function {
        name: String,
        properties: Vec<Expression>,
        public: bool,
        output: Option<Type>,
        inside: Vec<Expression>,
    },
    FunctionProperty { var_name: String, var_type: Type },
    MemberExpr { member: Box<Expression>, name: String },
    Return { value: Box<Expression> },
    If { condition: Box<Expression>, inside: Vec<Expression> },
    While { condition: Box<Expression>, inside: Vec<Expression> },
    For { iterator_name: String, iteration_target: Box<Expression>, inside: Vec<Expression> },
    Range { from: Box<Expression>, to: Box<Expression> },
}

/// The precedence-climbing core: the current token's prefix rule builds the
/// first operand, then infix rules extend it while the current token binds
/// strictly tighter than the floor. The result, success and failure alike,
/// is exactly what the expression grammar says of the starting position.
pub fn parse_expr(parser: &mut Parser, bp: i8) -> (res: Result<Expression, ParseError>)
    requires
        old(parser).wf(),
        bp >= -1,
    ensures
        final(parser).wf(),
        final(parser).tokens == old(parser).tokens,
        final(parser).index >= old(parser).index,
        res is Ok ==> final(parser).index > old(parser).index,
        expr_grammar(old(parser).tokens@, old(parser).index as int, bp) matches Ok(p) ==> (res
            matches Ok(e) && view_expr(e) == p.0 && final(parser).index == p.1),
        expr_grammar(old(parser).tokens@, old(parser).index as int, bp) matches Err(er) ==> res
            == Err::<Expression, ParseError>(er),
    decreases old(parser).tokens@.len() - old(parser).index, 3int,
{
    let ghost toks = old(parser).tokens@;
    let ghost i0 = old(parser).index as int;
    let ghost n = toks.len() as int;
    let nod_kind = parser.current_token_kind();
    let rule = match lookup::get_nod(nod_kind) {
        Some(rule) => rule,
        None => {
            return Err(ParseError::MissingPrefixHandler(nod_kind, parser.index));
        },
    };
    proof {
        assert(nod_kind != TokenKind::EndOfFile);
    }
    let mut left = match rule {
        NodRule::Grouping => parse_grouping(parser)?,
        NodRule::Function => parse_function(parser)?,
        NodRule::If => parse_if(parser)?,
        NodRule::While => parse_while(parser)?,
        NodRule::For => parse_for(parser)?,
        NodRule::VariableDeclaration => parse_variable_declaration(parser)?,
        NodRule::Class => parse_class(parser)?,
        NodRule::StringLiteral => parse_string_nod(parser),
        NodRule::Identifier => parse_identifier_nod(parser),
        NodRule::Number => parse_number_nod(parser),
        NodRule::Prefix => parse_prefix_nod(parser)?,
        NodRule::ArrayInitialization => parse_array_initialization(parser)?,
        NodRule::Return => parse_return(parser)?,
        NodRule::Keyword => parse_keyword_nod(parser),
    };
    proof {
        assert(after(i0, parser.index as int, n) == parser.index as int);
        assert(expr_grammar(toks, i0, bp) == infix_grammar(
            toks,
            parser.index as int,
            view_expr(left),
            bp,
        ));
    }
    loop
        invariant
            parser.wf(),
            parser.tokens == old(parser).tokens,
            parser.index > old(parser).index,
            bp >= -1,
            toks == old(parser).tokens@,
            i0 == old(parser).index as int,
            n == toks.len() as int,
            expr_grammar(toks, i0, bp) == infix_grammar(
                toks,
                parser.index as int,
                view_expr(left),
                bp,
            ),
        decreases parser.tokens@.len() - parser.index,
    {
        let led_kind = parser.current_token_kind();
        let current_bp = match parser.current_bp() {
            Some(b) => b,
            None => {
                return Err(ParseError::MissingInfixHandler(led_kind, parser.index));
            },
        };
        if current_bp <= bp {
            return Ok(left);
        }
        let led = match lookup::get_led(led_kind) {
            Some(l) => l,
            None => {
                return Err(ParseError::MissingInfixHandler(led_kind, parser.index));
            },
        };
        proof {
            assert(led_kind != TokenKind::EndOfFile);
        }
        let ghost icur = parser.index as int;
        let ghost lv = view_expr(left);
        left = match led {
            LedRule::Assignment => parse_assignment(parser, current_bp, left)?,
            LedRule::Binary => parse_binary_expr(parser, current_bp, left)?,
            LedRule::Member => parse_member_expr(parser, current_bp, left)?,
            LedRule::Range => parse_range(parser, current_bp, left)?,
            LedRule::ClassInstantiation => parse_class_instantiation(parser, current_bp, left)?,
        };
        proof {
            assert(after(icur, parser.index as int, n) == parser.index as int);
            assert(infix_grammar(toks, icur, lv, bp) == infix_grammar(
                toks,
                parser.index as int,
                view_expr(left),
                bp,
            ));
        }
    }
}

/// Prefix rule for a numeric literal: the node keeps the token's text.
pub fn parse_number_nod(parser: &mut Parser) -> (res: Expression)
    requires
        old(parser).wf(),
        old(parser).cur().kind != TokenKind::EndOfFile,
    ensures
        final(parser).wf(),
        final(parser).tokens == old(parser).tokens,
        final(parser).index == old(parser).index + 1,
        res == Expression::Number(old(parser).cur().value),
{
    Expression::Number(parser.advance().value)
}

/// Prefix rule for a string literal: the node keeps the token's text,
/// quotes and interpolation marker included.
pub fn parse_string_nod(parser: &mut Parser) -> (res: Expression)
    requires
        old(parser).wf(),
        old(parser).cur().kind != TokenKind::EndOfFile,
    ensures
        final(parser).wf(),
        final(parser).tokens == old(parser).tokens,
        final(parser).index == old(parser).index + 1,
        res == Expression::String(old(parser).cur().value),
{
    Expression::String(parser.advance().value)
}

/// Prefix rule for an identifier.
pub fn parse_identifier_nod(parser: &mut Parser) -> (res: Expression)
    requires
        old(parser).wf(),
        old(parser).cur().kind != TokenKind::EndOfFile,
    ensures
        final(parser).wf(),
        final(parser).tokens == old(parser).tokens,
        final(parser).index == old(parser).index + 1,
        res == Expression::Identifier(old(parser).cur().value),
{
    Expression::Identifier(parser.advance().value)
}

/// Prefix rule for bare punctuation that must still occupy a node slot,
/// such as a statement terminator.
pub fn parse_keyword_nod(parser: &mut Parser) -> (res: Expression)
    requires
        old(parser).wf(),
        old(parser).cur().kind != TokenKind::EndOfFile,
    ensures
        final(parser).wf(),
        final(parser).tokens == old(parser).tokens,
        final(parser).index == old(parser).index + 1,
        res == Expression::Keyword(old(parser).cur().kind),
{
    Expression::Keyword(parser.advance().kind)
}

/// Prefix rule for a sign operator: consumes the operator and parses its
/// operand with no precedence ceiling.
pub fn parse_prefix_nod(parser: &mut Parser) -> (res: Result<Expression, ParseError>)
    requires
        old(parser).wf(),
        old(parser).cur().kind != TokenKind::EndOfFile,
    ensures
        final(parser).wf(),
        final(parser).tokens == old(parser).tokens,
        final(parser).index > old(parser).index,
        prefix_grammar(old(parser).tokens@, old(parser).index as int) matches Ok(p) ==> (res
            matches Ok(e) && view_expr(e) == p.0 && final(parser).index == p.1),
        prefix_grammar(old(parser).tokens@, old(parser).index as int) matches Err(er) ==> res
            == Err::<Expression, ParseError>(er),
    decreases old(parser).tokens@.len() - old(parser).index, 2int,
{
    let prefix = parser.advance();
    let value = parse_expr(parser, 0)?;
    Ok(Expression::Prefix { prefix, value: Box::new(value) })
}

/// Prefix rule for a parenthesized expression.
pub fn parse_grouping(parser: &mut Parser) -> (res: Result<Expression, ParseError>)
    requires
        old(parser).wf(),
        old(parser).cur().kind != TokenKind::EndOfFile,
    ensures
        final(parser).wf(),
        final(parser).tokens == old(parser).tokens,
        final(parser).index > old(parser).index,
        grouping_grammar(old(parser).tokens@, old(parser).index as int) matches Ok(p) ==> (res
            matches Ok(e) && view_expr(e) == p.0 && final(parser).index == p.1),
        grouping_grammar(old(parser).tokens@, old(parser).index as int) matches Err(er) ==> res
            == Err::<Expression, ParseError>(er),
    decreases old(parser).tokens@.len() - old(parser).index, 2int,
{
    parser.advance();
    let expression_inside = parse_expr(parser, 0)?;
    parser.expect(TokenKind::CloseParen)?;
    Ok(Expression::Grouping(Box::new(expression_inside)))
}

/// Infix rule for a binary operator: its own precedence becomes the floor of
/// the right operand, which makes the operator left-associative.
pub fn parse_binary_expr(parser: &mut Parser, bp: i8, left: Expression) -> (res: Result<
    Expression,
    ParseError,
>)
    requires
        old(parser).wf(),
        old(parser).cur().kind != TokenKind::EndOfFile,
        bp >= -1,
    ensures
        final(parser).wf(),
        final(parser).tokens == old(parser).tokens,
        final(parser).index > old(parser).index,
        binary_grammar(old(parser).tokens@, old(parser).index as int, bp, view_expr(left))
            matches Ok(p) ==> (res matches Ok(e) && view_expr(e) == p.0 && final(parser).index
            == p.1),
        binary_grammar(old(parser).tokens@, old(parser).index as int, bp, view_expr(left))
            matches Err(er) ==> res == Err::<Expression, ParseError>(er),
    decreases old(parser).tokens@.len() - old(parser).index, 2int,
{
    let operator = parser.advance();
    let right = parse_expr(parser, bp)?;
    Ok(Expression::Binary { l: Box::new(left), operator, r: Box::new(right) })
}

/// Infix rule for an assignment-shaped operator: the value is parsed with no
/// precedence ceiling.
pub fn parse_assignment(parser: &mut Parser, bp: i8, target: Expression) -> (res: Result<
    Expression,
    ParseError,
>)
    requires
        old(parser).wf(),
        old(parser).cur().kind != TokenKind::EndOfFile,
    ensures
        final(parser).wf(),
        final(parser).tokens == old(parser).tokens,
        final(parser).index > old(parser).index,
        assignment_grammar(old(parser).tokens@, old(parser).index as int, view_expr(target))
            matches Ok(p) ==> (res matches Ok(e) && view_expr(e) == p.0 && final(parser).index
            == p.1),
        assignment_grammar(old(parser).tokens@, old(parser).index as int, view_expr(target))
            matches Err(er) ==> res == Err::<Expression, ParseError>(er),
    decreases old(parser).tokens@.len() - old(parser).index, 2int,
{
    let operator = parser.advance();
    let value = parse_expr(parser, 0)?;
    Ok(Expression::Assignment { target: Box::new(target), operator, value: Box::new(value) })
}

/// Infix rule for member access: a dot followed by the member's name.
pub fn parse_member_expr(parser: &mut Parser, bp: i8, left: Expression) -> (res: Result<
    Expression,
    ParseError,
>)
    requires
        old(parser).wf(),
    ensures
        final(parser).wf(),
        final(parser).tokens == old(parser).tokens,
        final(parser).index >= old(parser).index,
        res is Ok ==> final(parser).index > old(parser).index,
        member_grammar(old(parser).tokens@, old(parser).index as int, view_expr(left)) matches Ok(
            p,
        ) ==> (res matches Ok(e) && view_expr(e) == p.0 && final(parser).index == p.1),
        member_grammar(old(parser).tokens@, old(parser).index as int, view_expr(left)) matches Err(
            er,
        ) ==> res == Err::<Expression, ParseError>(er),
    decreases old(parser).tokens@.len() - old(parser).index, 2int,
{
    parser.expect(TokenKind::Dot)?;
    let name_tok = parser.expect(TokenKind::Identifier)?;
    Ok(Expression::MemberExpr { member: Box::new(left), name: name_tok.value })
}

/// Infix rule for the range operator: the left operand becomes the start,
/// the right operand the bound. A range is legal only as a for-loop target;
/// elsewhere the generator rejects it later.
pub fn parse_range(parser: &mut Parser, bp: i8, left: Expression) -> (res: Result<
    Expression,
    ParseError,
>)
    requires
        old(parser).wf(),
    ensures
        final(parser).wf(),
        final(parser).tokens == old(parser).tokens,
        final(parser).index >= old(parser).index,
        res is Ok ==> final(parser).index > old(parser).index,
        range_grammar(old(parser).tokens@, old(parser).index as int, view_expr(left)) matches Ok(
            p,
        ) ==> (res matches Ok(e) && view_expr(e) == p.0 && final(parser).index == p.1),
        range_grammar(old(parser).tokens@, old(parser).index as int, view_expr(left)) matches Err(
            er,
        ) ==> res == Err::<Expression, ParseError>(er),
    decreases old(parser).tokens@.len() - old(parser).index, 2int,
{
    parser.expect(TokenKind::DotDot)?;
    let to = parse_expr(parser, 0)?;
    Ok(Expression::Range { from: Box::new(left), to: Box::new(to) })
}

/// Infix rule for an opening brace after an identifier: the identifier is
/// reinterpreted as a type name and the braces hold the field values. Any
/// other left operand is rejected.
pub fn parse_class_instantiation(parser: &mut Parser, bp: i8, left: Expression) -> (res: Result<
    Expression,
    ParseError,
>)
    requires
        old(parser).wf(),
    ensures
        final(parser).wf(),
        final(parser).tokens == old(parser).tokens,
        final(parser).index >= old(parser).index,
        res is Ok ==> final(parser).index > old(parser).index,
        instantiation_grammar(old(parser).tokens@, old(parser).index as int, view_expr(left))
            matches Ok(p) ==> (res matches Ok(e) && view_expr(e) == p.0 && final(parser).index
            == p.1),
        instantiation_grammar(old(parser).tokens@, old(parser).index as int, view_expr(left))
            matches Err(er) ==> res == Err::<Expression, ParseError>(er),
    decreases old(parser).tokens@.len() - old(parser).index, 2int,
{
    let name = match left {
        Expression::Identifier(text) => text,
        _ => {
            return Err(ParseError::InvalidInstantiationTarget { at: parser.index });
        },
    };
    parser.expect(TokenKind::OpenCurly)?;
    let properties = parse_items(parser)?;
    parser.expect(TokenKind::CloseCurly)?;
    Ok(Expression::ClassInstantiation { name, properties })
}

/// Prefix rule for an opening brace: a comma- or semicolon-separated list of
/// expressions up to the matching closing brace.
pub fn parse_array_initialization(parser: &mut Parser) -> (res: Result<Expression, ParseError>)
    requires
        old(parser).wf(),
    ensures
        final(parser).wf(),
        final(parser).tokens == old(parser).tokens,
        final(parser).index >= old(parser).index,
        res is Ok ==> final(parser).index > old(parser).index,
        array_grammar(old(parser).tokens@, old(parser).index as int) matches Ok(p) ==> (res
            matches Ok(e) && view_expr(e) == p.0 && final(parser).index == p.1),
        array_grammar(old(parser).tokens@, old(parser).index as int) matches Err(er) ==> res
            == Err::<Expression, ParseError>(er),
    decreases old(parser).tokens@.len() - old(parser).index, 2int,
{
    parser.expect(TokenKind::OpenCurly)?;
    let properties = parse_items(parser)?;
    parser.expect(TokenKind::CloseCurly)?;
    Ok(Expression::ArrayInitialization { properties })
}

/// Construct rule for a variable declaration: `let`, an optional mutability
/// marker, a type, and the variable's name; an initializer is attached
/// afterwards by the assignment infix rule.
pub fn parse_variable_declaration(parser: &mut Parser) -> (res: Result<Expression, ParseError>)
    requires
        old(parser).wf(),
        old(parser).cur().kind != TokenKind::EndOfFile,
    ensures
        final(parser).wf(),
        final(parser).tokens == old(parser).tokens,
        final(parser).index > old(parser).index,
        declaration_grammar(old(parser).tokens@, old(parser).index as int) matches Ok(p) ==> (res
            matches Ok(e) && view_expr(e) == p.0 && final(parser).index == p.1),
        declaration_grammar(old(parser).tokens@, old(parser).index as int) matches Err(er) ==> res
            == Err::<Expression, ParseError>(er),
    decreases old(parser).tokens@.len() - old(parser).index, 2int,
{
    parser.advance();
    let mutable = parser.current_token_kind() == TokenKind::Mut;
    if mutable {
        parser.advance();
    }
    let var_type = parse_type(parser, 0)?;
    let name_tok = parser.expect(TokenKind::Identifier)?;
    Ok(Expression::VariableDeclaration { var_type, name: name_tok.value, mutable })
}

/// Construct rule for `return` followed by one expression.
pub fn parse_return(parser: &mut Parser) -> (res: Result<Expression, ParseError>)
    requires
        old(parser).wf(),
    ensures
        final(parser).wf(),
        final(parser).tokens == old(parser).tokens,
        final(parser).index >= old(parser).index,
        res is Ok ==> final(parser).index > old(parser).index,
        return_grammar(old(parser).tokens@, old(parser).index as int) matches Ok(p) ==> (res
            matches Ok(e) && view_expr(e) == p.0 && final(parser).index == p.1),
        return_grammar(old(parser).tokens@, old(parser).index as int) matches Err(er) ==> res
            == Err::<Expression, ParseError>(er),
    decreases old(parser).tokens@.len() - old(parser).index, 2int,
{
    parser.expect(TokenKind::Return)?;
    let value = parse_expr(parser, 0)?;
    Ok(Expression::Return { value: Box::new(value) })
}

/// Construct rule for `if`: a condition with no precedence ceiling, then a
/// brace-delimited body.
pub fn parse_if(parser: &mut Parser) -> (res: Result<Expression, ParseError>)
    requires
        old(parser).wf(),
    ensures
        final(parser).wf(),
        final(parser).tokens == old(parser).tokens,
        final(parser).index >= old(parser).index,
        res is Ok ==> final(parser).index > old(parser).index,
        if_grammar(old(parser).tokens@, old(parser).index as int) matches Ok(p) ==> (res
            matches Ok(e) && view_expr(e) == p.0 && final(parser).index == p.1),
        if_grammar(old(parser).tokens@, old(parser).index as int) matches Err(er) ==> res == Err::<
            Expression,
            ParseError,
        >(er),
    decreases old(parser).tokens@.len() - old(parser).index, 2int,
{
    let ghost toks = old(parser).tokens@;
    let ghost i0 = old(parser).index as int;
    let ghost n = toks.len() as int;
    parser.expect(TokenKind::If)?;
    let condition = parse_expr(parser, 0)?;
    proof {
        assert(after(i0, parser.index as int, n) == parser.index as int);
        assert(if_grammar(toks, i0) == conditional_tail_grammar(
            toks,
            parser.index as int,
            view_expr(condition),
            false,
        ));
    }
    parser.expect(TokenKind::OpenCurly)?;
    let inside = parse_body(parser)?;
    parser.expect(TokenKind::CloseCurly)?;
    Ok(Expression::If { condition: Box::new(condition), inside })
}

/// Construct rule for `while`: like `if`, with its own node kind.
pub fn parse_while(parser: &mut Parser) -> (res: Result<Expression, ParseError>)
    requires
        old(parser).wf(),
    ensures
        final(parser).wf(),
        final(parser).tokens == old(parser).tokens,
        final(parser).index >= old(parser).index,
        res is Ok ==> final(parser).index > old(parser).index,
        while_grammar(old(parser).tokens@, old(parser).index as int) matches Ok(p) ==> (res
            matches Ok(e) && view_expr(e) == p.0 && final(parser).index == p.1),
        while_grammar(old(parser).tokens@, old(parser).index as int) matches Err(er) ==> res
            == Err::<Expression, ParseError>(er),
    decreases old(parser).tokens@.len() - old(parser).index, 2int,
{
    let ghost toks = old(parser).tokens@;
    let ghost i0 = old(parser).index as int;
    let ghost n = toks.len() as int;
    parser.expect(TokenKind::While)?;
    let condition = parse_expr(parser, 0)?;
    proof {
        assert(after(i0, parser.index as int, n) == parser.index as int);
        assert(while_grammar(toks, i0) == conditional_tail_grammar(
            toks,
            parser.index as int,
            view_expr(condition),
            true,
        ));
    }
    parser.expect(TokenKind::OpenCurly)?;
    let inside = parse_body(parser)?;
    parser.expect(TokenKind::CloseCurly)?;
    Ok(Expression::While { condition: Box::new(condition), inside })
}

/// Construct rule for `for`: an iterator name, `in`, an iteration target,
/// and a brace-delimited body. The generator later lowers a range target to
/// a counting loop and an identifier target to an iterating loop.
pub fn parse_for(parser: &mut Parser) -> (res: Result<Expression, ParseError>)
    requires
        old(parser).wf(),
    ensures
        final(parser).wf(),
        final(parser).tokens == old(parser).tokens,
        final(parser).index >= old(parser).index,
        res is Ok ==> final(parser).index > old(parser).index,
        for_grammar(old(parser).tokens@, old(parser).index as int) matches Ok(p) ==> (res
            matches Ok(e) && view_expr(e) == p.0 && final(parser).index == p.1),
        for_grammar(old(parser).tokens@, old(parser).index as int) matches Err(er) ==> res
            == Err::<Expression, ParseError>(er),
    decreases old(parser).tokens@.len() - old(parser).index, 2int,
{
    let ghost toks = old(parser).tokens@;
    let ghost i0 = old(parser).index as int;
    let ghost n = toks.len() as int;
    parser.expect(TokenKind::For)?;
    let iterator_name_tok = parser.expect(TokenKind::Identifier)?;
    parser.expect(TokenKind::In)?;
    let iteration_target = parse_expr(parser, 0)?;
    proof {
        assert(after(i0, parser.index as int, n) == parser.index as int);
        assert(for_grammar(toks, i0) == for_tail_grammar(
            toks,
            parser.index as int,
            toks[i0 + 1].value,
            view_expr(iteration_target),
        ));
    }
    parser.expect(TokenKind::OpenCurly)?;
    let inside = parse_body(parser)?;
    parser.expect(TokenKind::CloseCurly)?;
    Ok(Expression::For {
        iterator_name: iterator_name_tok.value,
        iteration_target: Box::new(iteration_target),
        inside,
    })
}

/// Construct rule for a function: `fn`, an optional visibility marker, the
/// name, a parenthesized comma-separated name-and-type parameter list, an
/// optional arrow return type, and a brace-delimited body.
#[verifier::rlimit(50)]
pub fn parse_function(parser: &mut Parser) -> (res: Result<Expression, ParseError>)
    requires
        old(parser).wf(),
    ensures
        final(parser).wf(),
        final(parser).tokens == old(parser).tokens,
        final(parser).index >= old(parser).index,
        res is Ok ==> final(parser).index > old(parser).index,
        function_grammar(old(parser).tokens@, old(parser).index as int) matches Ok(p) ==> (res
            matches Ok(e) && view_expr(e) == p.0 && final(parser).index == p.1),
        function_grammar(old(parser).tokens@, old(parser).index as int) matches Err(er) ==> res
            == Err::<Expression, ParseError>(er),
    decreases old(parser).tokens@.len() - old(parser).index, 2int,
{
    let ghost toks = old(parser).tokens@;
    let ghost i0 = old(parser).index as int;
    let ghost n = toks.len() as int;
    parser.expect(TokenKind::Fn)?;
    let public = parser.current_token_kind() == TokenKind::Pub;
    if public {
        parser.expect(TokenKind::Pub)?;
    }
    let name_tok = parser.expect(TokenKind::Identifier)?;
    parser.expect(TokenKind::OpenParen)?;
    let properties = parse_params(parser)?;
    parser.expect(TokenKind::CloseParen)?;
    let output = if parser.current_token_kind() == TokenKind::Arrow {
        parser.expect(TokenKind::Arrow)?;
        Some(parse_type(parser, 0)?)
    } else {
        None
    };
    proof {
        assert(after(i0, parser.index as int, n) == parser.index as int);
        assert(function_grammar(toks, i0) == function_tail_grammar(
            toks,
            parser.index as int,
            name_tok.value,
            view_exprs(properties@),
            public,
            match output {
                Some(t) => Some(t),
                None => None,
            },
        ));
    }
    parser.expect(TokenKind::OpenCurly)?;
    let inside = parse_body(parser)?;
    parser.expect(TokenKind::CloseCurly)?;
    Ok(Expression::Function { name: name_tok.value, properties, public, output, inside })
}

/// Construct rule for a class: `class`, an optional visibility marker, the
/// name, and a brace-delimited body where each entry is a property written
/// as a type, a name and a semicolon. Methods are recognized as an extension
/// point but not implemented.
pub fn parse_class(parser: &mut Parser) -> (res: Result<Expression, ParseError>)
    requires
        old(parser).wf(),
    ensures
        final(parser).wf(),
        final(parser).tokens == old(parser).tokens,
        final(parser).index >= old(parser).index,
        res is Ok ==> final(parser).index > old(parser).index,
        class_grammar(old(parser).tokens@, old(parser).index as int) matches Ok(p) ==> (res
            matches Ok(e) && view_expr(e) == p.0 && final(parser).index == p.1),
        class_grammar(old(parser).tokens@, old(parser).index as int) matches Err(er) ==> res
            == Err::<Expression, ParseError>(er),
    decreases old(parser).tokens@.len() - old(parser).index, 2int,
{
    let ghost toks = old(parser).tokens@;
    let ghost i0 = old(parser).index as int;
    parser.expect(TokenKind::Class)?;
    let public = parser.current_token_kind() == TokenKind::Pub;
    if public {
        parser.expect(TokenKind::Pub)?;
    }
    let name_tok = parser.expect(TokenKind::Identifier)?;
    parser.expect(TokenKind::OpenCurly)?;
    let properties = parse_class_items(parser)?;
    parser.expect(TokenKind::CloseCurly)?;
    let functions: Vec<Expression> = Vec::new();
    proof {
        assert(view_exprs(functions@) =~= Seq::<ExprModel>::empty());
    }
    Ok(Expression::Class { public, name: name_tok.value, properties, functions })
}

// ---------------------------------------------------------------------------
// The list parsers, each tied to its grammar function
// ---------------------------------------------------------------------------

/// Expressions up to a closing brace.
fn parse_body(parser: &mut Parser) -> (res: Result<Vec<Expression>, ParseError>)
    requires
        old(parser).wf(),
    ensures
        final(parser).wf(),
        final(parser).tokens == old(parser).tokens,
        final(parser).index >= old(parser).index,
        body_grammar(old(parser).tokens@, old(parser).index as int) matches Ok(p) ==> (res
            matches Ok(v) && view_exprs(v@) == p.0 && final(parser).index == p.1),
        body_grammar(old(parser).tokens@, old(parser).index as int) matches Err(er) ==> res
            == Err::<Vec<Expression>, ParseError>(er),
    decreases old(parser).tokens@.len() - old(parser).index, 4int,
{
    let ghost toks = old(parser).tokens@;
    let ghost i0 = old(parser).index as int;
    let ghost n = toks.len() as int;
    let mut items: Vec<Expression> = Vec::new();
    proof {
        assert(view_exprs(items@) =~= Seq::<ExprModel>::empty());
    }
    while parser.current_token_kind() != TokenKind::CloseCurly
        invariant
            parser.wf(),
            parser.tokens == old(parser).tokens,
            parser.index >= old(parser).index,
            toks == old(parser).tokens@,
            i0 == old(parser).index as int,
            n == toks.len() as int,
            body_grammar(toks, i0) == (match body_grammar(toks, parser.index as int) {
                Ok(p) => Ok::<(Seq<ExprModel>, int), ParseError>(
                    (view_exprs(items@) + p.0, p.1),
                ),
                Err(e) => Err(e),
            }),
        decreases parser.tokens@.len() - parser.index,
    {
        let ghost icur = parser.index as int;
        let ghost pre = view_exprs(items@);
        let e = parse_expr(parser, 0)?;
        proof {
            assert(after(icur, parser.index as int, n) == parser.index as int);
        }
        let ghost pres = items@;
        items.push(e);
        proof {
            assert(items@.drop_last() =~= pres);
            assert(items@.last() == e);
            assert(view_exprs(items@) == pre.push(view_expr(e)));
            assert forall|rest: Seq<ExprModel>| pre.push(view_expr(e)) + rest =~= pre + (seq![
                view_expr(e),
            ] + rest) by {}
        }
    }
    proof {
        assert(body_grammar(toks, parser.index as int) == Ok::<
            (Seq<ExprModel>, int),
            ParseError,
        >((Seq::empty(), parser.index as int)));
        assert(view_exprs(items@) + Seq::<ExprModel>::empty() =~= view_exprs(items@));
    }
    Ok(items)
}

/// Expressions up to a closing brace or the end-of-file sentinel.
fn parse_items(parser: &mut Parser) -> (res: Result<Vec<Expression>, ParseError>)
    requires
        old(parser).wf(),
    ensures
        final(parser).wf(),
        final(parser).tokens == old(parser).tokens,
        final(parser).index >= old(parser).index,
        items_grammar(old(parser).tokens@, old(parser).index as int) matches Ok(p) ==> (res
            matches Ok(v) && view_exprs(v@) == p.0 && final(parser).index == p.1),
        items_grammar(old(parser).tokens@, old(parser).index as int) matches Err(er) ==> res
            == Err::<Vec<Expression>, ParseError>(er),
    decreases old(parser).tokens@.len() - old(parser).index, 4int,
{
    let ghost toks = old(parser).tokens@;
    let ghost i0 = old(parser).index as int;
    let ghost n = toks.len() as int;
    let mut items: Vec<Expression> = Vec::new();
    proof {
        assert(view_exprs(items@) =~= Seq::<ExprModel>::empty());
    }
    while parser.current_token_kind() != TokenKind::EndOfFile && parser.current_token_kind()
        != TokenKind::CloseCurly
        invariant
            parser.wf(),
            parser.tokens == old(parser).tokens,
            parser.index >= old(parser).index,
            toks == old(parser).tokens@,
            i0 == old(parser).index as int,
            n == toks.len() as int,
            items_grammar(toks, i0) == (match items_grammar(toks, parser.index as int) {
                Ok(p) => Ok::<(Seq<ExprModel>, int), ParseError>(
                    (view_exprs(items@) + p.0, p.1),
                ),
                Err(e) => Err(e),
            }),
        decreases parser.tokens@.len() - parser.index,
    {
        let ghost icur = parser.index as int;
        let ghost pre = view_exprs(items@);
        let e = parse_expr(parser, 0)?;
        proof {
            assert(after(icur, parser.index as int, n) == parser.index as int);
        }
        let ghost pres = items@;
        items.push(e);
        proof {
            assert(items@.drop_last() =~= pres);
            assert(items@.last() == e);
            assert(view_exprs(items@) == pre.push(view_expr(e)));
            assert forall|rest: Seq<ExprModel>| pre.push(view_expr(e)) + rest =~= pre + (seq![
                view_expr(e),
            ] + rest) by {}
        }
    }
    proof {
        assert(items_grammar(toks, parser.index as int) == Ok::<
            (Seq<ExprModel>, int),
            ParseError,
        >((Seq::empty(), parser.index as int)));
        assert(view_exprs(items@) + Seq::<ExprModel>::empty() =~= view_exprs(items@));
    }
    Ok(items)
}

/// Function parameters up to the closing parenthesis.
fn parse_params(parser: &mut Parser) -> (res: Result<Vec<Expression>, ParseError>)
    requires
        old(parser).wf(),
    ensures
        final(parser).wf(),
        final(parser).tokens == old(parser).tokens,
        final(parser).index >= old(parser).index,
        params_grammar(old(parser).tokens@, old(parser).index as int) matches Ok(p) ==> (res
            matches Ok(v) && view_exprs(v@) == p.0 && final(parser).index == p.1),
        params_grammar(old(parser).tokens@, old(parser).index as int) matches Err(er) ==> res
            == Err::<Vec<Expression>, ParseError>(er),
    decreases old(parser).tokens@.len() - old(parser).index, 4int,
{
    let ghost toks = old(parser).tokens@;
    let ghost i0 = old(parser).index as int;
    let ghost n = toks.len() as int;
    let mut items: Vec<Expression> = Vec::new();
    proof {
        assert(view_exprs(items@) =~= Seq::<ExprModel>::empty());
    }
    while parser.current_token_kind() != TokenKind::CloseParen
        invariant
            parser.wf(),
            parser.tokens == old(parser).tokens,
            parser.index >= old(parser).index,
            toks == old(parser).tokens@,
            i0 == old(parser).index as int,
            n == toks.len() as int,
            params_grammar(toks, i0) == (match params_grammar(toks, parser.index as int) {
                Ok(p) => Ok::<(Seq<ExprModel>, int), ParseError>(
                    (view_exprs(items@) + p.0, p.1),
                ),
                Err(e) => Err(e),
            }),
        decreases parser.tokens@.len() - parser.index,
    {
        let ghost icur = parser.index as int;
        let ghost pre = view_exprs(items@);
        let var_name_tok = parser.expect(TokenKind::Identifier)?;
        let var_type = parse_type(parser, 0)?;
        let prop = Expression::FunctionProperty { var_name: var_name_tok.value, var_type };
        let ghost pm = view_expr(prop);
        let ghost pres = items@;
        items.push(prop);
        if parser.current_token_kind() == TokenKind::Comma {
            parser.advance();
        }
        proof {
            assert(after(icur, parser.index as int, n) == parser.index as int);
            assert(items@.drop_last() =~= pres);
            assert(view_exprs(items@) == pre.push(pm));
            assert forall|rest: Seq<ExprModel>| pre.push(pm) + rest =~= pre + (seq![pm]
                + rest) by {}
        }
    }
    proof {
        assert(params_grammar(toks, parser.index as int) == Ok::<
            (Seq<ExprModel>, int),
            ParseError,
        >((Seq::empty(), parser.index as int)));
        assert(view_exprs(items@) + Seq::<ExprModel>::empty() =~= view_exprs(items@));
    }
    Ok(items)
}

/// Class properties up to a closing brace or the sentinel: each a type, a
/// name and a semicolon, and anything else rejected.
fn parse_class_items(parser: &mut Parser) -> (res: Result<Vec<Expression>, ParseError>)
    requires
        old(parser).wf(),
    ensures
        final(parser).wf(),
        final(parser).tokens == old(parser).tokens,
        final(parser).index >= old(parser).index,
        class_items_grammar(old(parser).tokens@, old(parser).index as int) matches Ok(p) ==> (res
            matches Ok(v) && view_exprs(v@) == p.0 && final(parser).index == p.1),
        class_items_grammar(old(parser).tokens@, old(parser).index as int) matches Err(er) ==> res
            == Err::<Vec<Expression>, ParseError>(er),
    decreases old(parser).tokens@.len() - old(parser).index, 4int,
{
    let ghost toks = old(parser).tokens@;
    let ghost i0 = old(parser).index as int;
    let ghost n = toks.len() as int;
    let mut items: Vec<Expression> = Vec::new();
    proof {
        assert(view_exprs(items@) =~= Seq::<ExprModel>::empty());
    }
    while parser.current_token_kind() != TokenKind::EndOfFile && parser.current_token_kind()
        != TokenKind::CloseCurly
        invariant
            parser.wf(),
            parser.tokens == old(parser).tokens,
            parser.index >= old(parser).index,
            toks == old(parser).tokens@,
            i0 == old(parser).index as int,
            n == toks.len() as int,
            class_items_grammar(toks, i0) == (match class_items_grammar(
                toks,
                parser.index as int,
            ) {
                Ok(p) => Ok::<(Seq<ExprModel>, int), ParseError>(
                    (view_exprs(items@) + p.0, p.1),
                ),
                Err(e) => Err(e),
            }),
        decreases parser.tokens@.len() - parser.index,
    {
        let ghost icur = parser.index as int;
        let ghost pre = view_exprs(items@);
        let k = parser.current_token_kind();
        if k != TokenKind::Identifier {
            return Err(ParseError::UnexpectedToken {
                expected: TokenKind::Identifier,
                found: k,
                at: parser.index,
            });
        }
        let property_type = parse_type(parser, 0)?;
        let property_name_tok = parser.expect(TokenKind::Identifier)?;
        parser.expect(TokenKind::SemiColon)?;
        let prop = Expression::ClassProperty {
            var_name: property_name_tok.value,
            var_type: property_type,
        };
        let ghost pm = view_expr(prop);
        let ghost pres = items@;
        items.push(prop);
        proof {
            assert(after(icur, parser.index as int, n) == parser.index as int);
            assert(items@.drop_last() =~= pres);
            assert(view_exprs(items@) == pre.push(pm));
            assert forall|rest: Seq<ExprModel>| pre.push(pm) + rest =~= pre + (seq![pm]
                + rest) by {}
        }
    }
    proof {
        assert(class_items_grammar(toks, parser.index as int) == Ok::<
            (Seq<ExprModel>, int),
            ParseError,
        >((Seq::empty(), parser.index as int)));
        assert(view_exprs(items@) + Seq::<ExprModel>::empty() =~= view_exprs(items@));
    }
    Ok(items)
}

} // verus!
