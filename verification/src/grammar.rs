use vstd::prelude::*;

verus! {

use crate::expression::Expression;
use crate::lookup::{infix_bp, led_rule, nod_rule, LedRule, NodRule};
use crate::parser::ParseError;
use crate::tokens::{Token, TokenKind};
use crate::types::{type_grammar, Type};

// ---------------------------------------------------------------------------
// The model of a parse tree
// ---------------------------------------------------------------------------

/// The parse tree as the grammar below builds it: the same shape as
/// `Expression`, with child lists as sequences. The view of every parsed
/// `Expression` is a value of this type, and the parsing functions are
/// proved to return exactly what the grammar says.
pub enum ExprModel {
    Number(String),
    String(String),
    Identifier(String),
    Prefix { prefix: Token, value: Box<ExprModel> },
    Keyword(TokenKind),
    Assignment { target: Box<ExprModel>, operator: Token, value: Box<ExprModel> },
    VariableDeclaration { var_type: Type, name: String, mutable: bool },
    Grouping(Box<ExprModel>),
    Class { public: bool, name: String, properties: Seq<ExprModel>, functions: Seq<ExprModel> },
    ClassProperty { var_name: String, var_type: Type },
    ClassFunction { name: String },
    Binary { l: Box<ExprModel>, operator: Token, r: Box<ExprModel> },
    ClassInstantiation { name: String, properties: Seq<ExprModel> },
    ArrayInitialization { properties: Seq<ExprModel> },
    Function {
        name: String,
        properties: Seq<ExprModel>,
        public: bool,
        output: Option<Type>,
        inside: Seq<ExprModel>,
    },
    FunctionProperty { var_name: String, var_type: Type },
    MemberExpr { member: Box<ExprModel>, name: String },
    Return { value: Box<ExprModel> },
    If { condition: Box<ExprModel>, inside: Seq<ExprModel> },
    While { condition: Box<ExprModel>, inside: Seq<ExprModel> },
    For { iterator_name: String, iteration_target: Box<ExprModel>, inside: Seq<ExprModel> },
    Range { from: Box<ExprModel>, to: Box<ExprModel> },
}

/// The model of a parsed node.
pub open spec fn view_expr(e: Expression) -> ExprModel
    decreases e,
{
    match e {
        Expression::Number(v) => ExprModel::Number(v),
        Expression::String(v) => ExprModel::String(v),
        Expression::Identifier(v) => ExprModel::Identifier(v),
        Expression::Prefix { prefix, value } => ExprModel::Prefix {
            prefix,
            value: Box::new(view_expr(*value)),
        },
        Expression::Keyword(k) => ExprModel::Keyword(k),
        Expression::Assignment { target, operator, value } => ExprModel::Assignment {
            target: Box::new(view_expr(*target)),
            operator,
            value: Box::new(view_expr(*value)),
        },
        Expression::VariableDeclaration { var_type, name, mutable } => (
        ExprModel::VariableDeclaration { var_type, name, mutable }),
        Expression::Grouping(inner) => ExprModel::Grouping(Box::new(view_expr(*inner))),
        Expression::Class { public, name, properties, functions } => ExprModel::Class {
            public,
            name,
            properties: view_exprs(properties@),
            functions: view_exprs(functions@),
        },
        Expression::ClassProperty { var_name, var_type } => ExprModel::ClassProperty {
            var_name,
            var_type,
        },
        Expression::ClassFunction { name } => ExprModel::ClassFunction { name },
        Expression::Binary { l, operator, r } => ExprModel::Binary {
            l: Box::new(view_expr(*l)),
            operator,
            r: Box::new(view_expr(*r)),
        },
        Expression::ClassInstantiation { name, properties } => ExprModel::ClassInstantiation {
            name,
            properties: view_exprs(properties@),
        },
        Expression::ArrayInitialization { properties } => ExprModel::ArrayInitialization {
            properties: view_exprs(properties@),
        },
        Expression::Function { name, properties, public, output, inside } => ExprModel::Function {
            name,
            properties: view_exprs(properties@),
            public,
            output,
            inside: view_exprs(inside@),
        },
        Expression::FunctionProperty { var_name, var_type } => ExprModel::FunctionProperty {
            var_name,
            var_type,
        },
        Expression::MemberExpr { member, name } => ExprModel::MemberExpr {
            member: Box::new(view_expr(*member)),
            name,
        },
        Expression::Return { value } => ExprModel::Return { value: Box::new(view_expr(*value)) },
        Expression::If { condition, inside } => ExprModel::If {
            condition: Box::new(view_expr(*condition)),
            inside: view_exprs(inside@),
        },
        Expression::While { condition, inside } => ExprModel::While {
            condition: Box::new(view_expr(*condition)),
            inside: view_exprs(inside@),
        },
        Expression::For { iterator_name, iteration_target, inside } => ExprModel::For {
            iterator_name,
            iteration_target: Box::new(view_expr(*iteration_target)),
            inside: view_exprs(inside@),
        },
        Expression::Range { from, to } => ExprModel::Range {
            from: Box::new(view_expr(*from)),
            to: Box::new(view_expr(*to)),
        },
    }
}

/// The models of a node sequence, in order.
pub open spec fn view_exprs(es: Seq<Expression>) -> Seq<ExprModel>
    decreases es,
{
    if es.len() == 0 {
        Seq::empty()
    } else {
        view_exprs(es.drop_last()).push(view_expr(es.last()))
    }
}

// ---------------------------------------------------------------------------
// Positions and termination
// ---------------------------------------------------------------------------

/// How many tokens stand at or after a position.
pub open spec fn left_over(toks: Seq<Token>, i: int) -> int {
    if 0 <= i <= toks.len() {
        toks.len() - i
    } else {
        0
    }
}

/// A continuation position, held inside the bounds that every successful
/// sub-parse meets (strictly past the start, at most the length); parsing
/// itself never leaves them, so on every reachable path this is the given
/// position unchanged.
pub open spec fn after(i: int, j: int, n: int) -> int {
    if i < j <= n {
        j
    } else {
        n
    }
}

/// The error the grammar maps positions outside the sequence to; a
/// well-formed token sequence never reaches one.
pub open spec fn off_end() -> ParseError {
    ParseError::MissingPrefixHandler(TokenKind::EndOfFile, 0)
}

// ---------------------------------------------------------------------------
// The expression grammar, construct by construct
// ---------------------------------------------------------------------------

/// A sign operator and its operand, parsed with no ceiling.
pub open spec fn prefix_grammar(toks: Seq<Token>, i: int) -> Result<(ExprModel, int), ParseError>
    decreases left_over(toks, i), 0int,
{
    if !(0 <= i < toks.len()) {
        Err(off_end())
    } else {
        match expr_grammar(toks, i + 1, 0) {
            Err(e) => Err(e),
            Ok((v, j)) => Ok((ExprModel::Prefix { prefix: toks[i], value: Box::new(v) }, j)),
        }
    }
}

/// A parenthesized expression.
pub open spec fn grouping_grammar(toks: Seq<Token>, i: int) -> Result<(ExprModel, int), ParseError>
    decreases left_over(toks, i), 0int,
{
    if !(0 <= i < toks.len()) {
        Err(off_end())
    } else {
        match expr_grammar(toks, i + 1, 0) {
            Err(e) => Err(e),
            Ok((inner, j)) => if 0 <= j < toks.len() && toks[j].kind == TokenKind::CloseParen {
                Ok((ExprModel::Grouping(Box::new(inner)), j + 1))
            } else if 0 <= j < toks.len() {
                Err(
                    ParseError::UnexpectedToken {
                        expected: TokenKind::CloseParen,
                        found: toks[j].kind,
                        at: j as usize,
                    },
                )
            } else {
                Err(off_end())
            },
        }
    }
}

/// A binary operator: its own precedence floors the right operand.
pub open spec fn binary_grammar(toks: Seq<Token>, i: int, bp: i8, left: ExprModel) -> Result<
    (ExprModel, int),
    ParseError,
>
    decreases left_over(toks, i), 0int,
{
    if !(0 <= i < toks.len()) {
        Err(off_end())
    } else {
        match expr_grammar(toks, i + 1, bp) {
            Err(e) => Err(e),
            Ok((r, j)) => Ok(
                (ExprModel::Binary { l: Box::new(left), operator: toks[i], r: Box::new(r) }, j),
            ),
        }
    }
}

/// An assignment-shaped operator: the value has no ceiling.
pub open spec fn assignment_grammar(toks: Seq<Token>, i: int, left: ExprModel) -> Result<
    (ExprModel, int),
    ParseError,
>
    decreases left_over(toks, i), 0int,
{
    if !(0 <= i < toks.len()) {
        Err(off_end())
    } else {
        match expr_grammar(toks, i + 1, 0) {
            Err(e) => Err(e),
            Ok((v, j)) => Ok(
                (
                    ExprModel::Assignment {
                        target: Box::new(left),
                        operator: toks[i],
                        value: Box::new(v),
                    },
                    j,
                ),
            ),
        }
    }
}

/// Member access: a dot, then the member's name.
pub open spec fn member_grammar(toks: Seq<Token>, i: int, left: ExprModel) -> Result<
    (ExprModel, int),
    ParseError,
>
    decreases left_over(toks, i), 0int,
{
    if !(0 <= i < toks.len()) {
        Err(off_end())
    } else if toks[i].kind != TokenKind::Dot {
        Err(
            ParseError::UnexpectedToken {
                expected: TokenKind::Dot,
                found: toks[i].kind,
                at: i as usize,
            },
        )
    } else if !(i + 1 < toks.len()) {
        Err(off_end())
    } else if toks[i + 1].kind != TokenKind::Identifier {
        Err(
            ParseError::UnexpectedToken {
                expected: TokenKind::Identifier,
                found: toks[i + 1].kind,
                at: (i + 1) as usize,
            },
        )
    } else {
        Ok((ExprModel::MemberExpr { member: Box::new(left), name: toks[i + 1].value }, i + 2))
    }
}

/// The range operator: the left operand becomes the start.
pub open spec fn range_grammar(toks: Seq<Token>, i: int, left: ExprModel) -> Result<
    (ExprModel, int),
    ParseError,
>
    decreases left_over(toks, i), 0int,
{
    if !(0 <= i < toks.len()) {
        Err(off_end())
    } else if toks[i].kind != TokenKind::DotDot {
        Err(
            ParseError::UnexpectedToken {
                expected: TokenKind::DotDot,
                found: toks[i].kind,
                at: i as usize,
            },
        )
    } else {
        match expr_grammar(toks, i + 1, 0) {
            Err(e) => Err(e),
            Ok((to, j)) => Ok(
                (ExprModel::Range { from: Box::new(left), to: Box::new(to) }, j),
            ),
        }
    }
}

/// An opening brace after a plain identifier: an instantiation whose body
/// runs to the closing brace; any other left operand is rejected.
pub open spec fn instantiation_grammar(toks: Seq<Token>, i: int, left: ExprModel) -> Result<
    (ExprModel, int),
    ParseError,
>
    decreases left_over(toks, i), 0int,
{
    if !(0 <= i < toks.len()) {
        Err(off_end())
    } else {
        match left {
            ExprModel::Identifier(text) => if toks[i].kind == TokenKind::OpenCurly {
                match items_grammar(toks, i + 1) {
                    Err(e) => Err(e),
                    Ok((props, j)) => if 0 <= j < toks.len() && toks[j].kind
                        == TokenKind::CloseCurly {
                        Ok(
                            (
                                ExprModel::ClassInstantiation { name: text, properties: props },
                                j + 1,
                            ),
                        )
                    } else if 0 <= j < toks.len() {
                        Err(
                            ParseError::UnexpectedToken {
                                expected: TokenKind::CloseCurly,
                                found: toks[j].kind,
                                at: j as usize,
                            },
                        )
                    } else {
                        Err(off_end())
                    },
                }
            } else {
                Err(
                    ParseError::UnexpectedToken {
                        expected: TokenKind::OpenCurly,
                        found: toks[i].kind,
                        at: i as usize,
                    },
                )
            },
            _ => Err(ParseError::InvalidInstantiationTarget { at: i as usize }),
        }
    }
}

/// An array literal: expressions up to the closing brace.
pub open spec fn array_grammar(toks: Seq<Token>, i: int) -> Result<(ExprModel, int), ParseError>
    decreases left_over(toks, i), 0int,
{
    if !(0 <= i < toks.len()) {
        Err(off_end())
    } else if toks[i].kind != TokenKind::OpenCurly {
        Err(
            ParseError::UnexpectedToken {
                expected: TokenKind::OpenCurly,
                found: toks[i].kind,
                at: i as usize,
            },
        )
    } else {
        match items_grammar(toks, i + 1) {
            Err(e) => Err(e),
            Ok((props, j)) => if 0 <= j < toks.len() && toks[j].kind == TokenKind::CloseCurly {
                Ok((ExprModel::ArrayInitialization { properties: props }, j + 1))
            } else if 0 <= j < toks.len() {
                Err(
                    ParseError::UnexpectedToken {
                        expected: TokenKind::CloseCurly,
                        found: toks[j].kind,
                        at: j as usize,
                    },
                )
            } else {
                Err(off_end())
            },
        }
    }
}

/// A declaration: `let`, an optional mutability marker, a type, the name.
pub open spec fn declaration_grammar(toks: Seq<Token>, i: int) -> Result<
    (ExprModel, int),
    ParseError,
>
    decreases left_over(toks, i), 0int,
{
    if !(0 <= i < toks.len() && i + 1 < toks.len()) {
        Err(off_end())
    } else {
        let has_mut = toks[i + 1].kind == TokenKind::Mut;
        let tp = if has_mut {
            i + 2
        } else {
            i + 1
        };
        match type_grammar(toks, tp, 0) {
            Err(e) => Err(e),
            Ok((ty, j)) => if 0 <= j < toks.len() && toks[j].kind == TokenKind::Identifier {
                Ok(
                    (
                        ExprModel::VariableDeclaration {
                            var_type: ty,
                            name: toks[j].value,
                            mutable: has_mut,
                        },
                        j + 1,
                    ),
                )
            } else if 0 <= j < toks.len() {
                Err(
                    ParseError::UnexpectedToken {
                        expected: TokenKind::Identifier,
                        found: toks[j].kind,
                        at: j as usize,
                    },
                )
            } else {
                Err(off_end())
            },
        }
    }
}

/// `return` followed by one expression.
pub open spec fn return_grammar(toks: Seq<Token>, i: int) -> Result<(ExprModel, int), ParseError>
    decreases left_over(toks, i), 0int,
{
    if !(0 <= i < toks.len()) {
        Err(off_end())
    } else if toks[i].kind != TokenKind::Return {
        Err(
            ParseError::UnexpectedToken {
                expected: TokenKind::Return,
                found: toks[i].kind,
                at: i as usize,
            },
        )
    } else {
        match expr_grammar(toks, i + 1, 0) {
            Err(e) => Err(e),
            Ok((v, j)) => Ok((ExprModel::Return { value: Box::new(v) }, j)),
        }
    }
}

/// A brace-delimited body after a condition, closing the given construct.
pub open spec fn conditional_tail_grammar(
    toks: Seq<Token>,
    j: int,
    cond: ExprModel,
    is_while: bool,
) -> Result<(ExprModel, int), ParseError>
    decreases left_over(toks, j), 0int,
{
    if !(0 <= j < toks.len()) {
        Err(off_end())
    } else if toks[j].kind != TokenKind::OpenCurly {
        Err(
            ParseError::UnexpectedToken {
                expected: TokenKind::OpenCurly,
                found: toks[j].kind,
                at: j as usize,
            },
        )
    } else {
        match body_grammar(toks, j + 1) {
            Err(e) => Err(e),
            Ok((body, k)) => if 0 <= k < toks.len() && toks[k].kind == TokenKind::CloseCurly {
                if is_while {
                    Ok((ExprModel::While { condition: Box::new(cond), inside: body }, k + 1))
                } else {
                    Ok((ExprModel::If { condition: Box::new(cond), inside: body }, k + 1))
                }
            } else if 0 <= k < toks.len() {
                Err(
                    ParseError::UnexpectedToken {
                        expected: TokenKind::CloseCurly,
                        found: toks[k].kind,
                        at: k as usize,
                    },
                )
            } else {
                Err(off_end())
            },
        }
    }
}

/// `if`: a condition with no ceiling, then a brace-delimited body.
pub open spec fn if_grammar(toks: Seq<Token>, i: int) -> Result<(ExprModel, int), ParseError>
    decreases left_over(toks, i), 1int,
{
    if !(0 <= i < toks.len()) {
        Err(off_end())
    } else if toks[i].kind != TokenKind::If {
        Err(
            ParseError::UnexpectedToken {
                expected: TokenKind::If,
                found: toks[i].kind,
                at: i as usize,
            },
        )
    } else {
        match expr_grammar(toks, i + 1, 0) {
            Err(e) => Err(e),
            Ok((cond, j)) => conditional_tail_grammar(
                toks,
                after(i, j, toks.len() as int),
                cond,
                false,
            ),
        }
    }
}

/// `while`: like `if`, with its own node kind.
pub open spec fn while_grammar(toks: Seq<Token>, i: int) -> Result<(ExprModel, int), ParseError>
    decreases left_over(toks, i), 1int,
{
    if !(0 <= i < toks.len()) {
        Err(off_end())
    } else if toks[i].kind != TokenKind::While {
        Err(
            ParseError::UnexpectedToken {
                expected: TokenKind::While,
                found: toks[i].kind,
                at: i as usize,
            },
        )
    } else {
        match expr_grammar(toks, i + 1, 0) {
            Err(e) => Err(e),
            Ok((cond, j)) => conditional_tail_grammar(
                toks,
                after(i, j, toks.len() as int),
                cond,
                true,
            ),
        }
    }
}

/// The body and closing brace of a for-loop.
pub open spec fn for_tail_grammar(
    toks: Seq<Token>,
    j: int,
    name: String,
    target: ExprModel,
) -> Result<(ExprModel, int), ParseError>
    decreases left_over(toks, j), 0int,
{
    if !(0 <= j < toks.len()) {
        Err(off_end())
    } else if toks[j].kind != TokenKind::OpenCurly {
        Err(
            ParseError::UnexpectedToken {
                expected: TokenKind::OpenCurly,
                found: toks[j].kind,
                at: j as usize,
            },
        )
    } else {
        match body_grammar(toks, j + 1) {
            Err(e) => Err(e),
            Ok((body, k)) => if 0 <= k < toks.len() && toks[k].kind == TokenKind::CloseCurly {
                Ok(
                    (
                        ExprModel::For {
                            iterator_name: name,
                            iteration_target: Box::new(target),
                            inside: body,
                        },
                        k + 1,
                    ),
                )
            } else if 0 <= k < toks.len() {
                Err(
                    ParseError::UnexpectedToken {
                        expected: TokenKind::CloseCurly,
                        found: toks[k].kind,
                        at: k as usize,
                    },
                )
            } else {
                Err(off_end())
            },
        }
    }
}

/// `for`: the iterator's name, `in`, the iteration target, then the body.
pub open spec fn for_grammar(toks: Seq<Token>, i: int) -> Result<(ExprModel, int), ParseError>
    decreases left_over(toks, i), 1int,
{
    if !(0 <= i < toks.len()) {
        Err(off_end())
    } else if toks[i].kind != TokenKind::For {
        Err(
            ParseError::UnexpectedToken {
                expected: TokenKind::For,
                found: toks[i].kind,
                at: i as usize,
            },
        )
    } else if !(i + 1 < toks.len()) {
        Err(off_end())
    } else if toks[i + 1].kind != TokenKind::Identifier {
        Err(
            ParseError::UnexpectedToken {
                expected: TokenKind::Identifier,
                found: toks[i + 1].kind,
                at: (i + 1) as usize,
            },
        )
    } else if !(i + 2 < toks.len()) {
        Err(off_end())
    } else if toks[i + 2].kind != TokenKind::In {
        Err(
            ParseError::UnexpectedToken {
                expected: TokenKind::In,
                found: toks[i + 2].kind,
                at: (i + 2) as usize,
            },
        )
    } else {
        match expr_grammar(toks, i + 3, 0) {
            Err(e) => Err(e),
            Ok((target, j)) => for_tail_grammar(
                toks,
                after(i, j, toks.len() as int),
                toks[i + 1].value,
                target,
            ),
        }
    }
}

/// The body and closing brace of a function, assembling the node.
pub open spec fn function_tail_grammar(
    toks: Seq<Token>,
    q: int,
    name: String,
    props: Seq<ExprModel>,
    has_pub: bool,
    output: Option<Type>,
) -> Result<(ExprModel, int), ParseError>
    decreases left_over(toks, q), 0int,
{
    if !(0 <= q < toks.len()) {
        Err(off_end())
    } else if toks[q].kind != TokenKind::OpenCurly {
        Err(
            ParseError::UnexpectedToken {
                expected: TokenKind::OpenCurly,
                found: toks[q].kind,
                at: q as usize,
            },
        )
    } else {
        match body_grammar(toks, q + 1) {
            Err(e) => Err(e),
            Ok((body, k)) => if 0 <= k < toks.len() && toks[k].kind == TokenKind::CloseCurly {
                Ok(
                    (
                        ExprModel::Function {
                            name,
                            properties: props,
                            public: has_pub,
                            output,
                            inside: body,
                        },
                        k + 1,
                    ),
                )
            } else if 0 <= k < toks.len() {
                Err(
                    ParseError::UnexpectedToken {
                        expected: TokenKind::CloseCurly,
                        found: toks[k].kind,
                        at: k as usize,
                    },
                )
            } else {
                Err(off_end())
            },
        }
    }
}

/// A function: `fn`, an optional visibility marker, the name, the
/// parenthesized parameters, an optional arrow return type, and the body.
pub open spec fn function_grammar(toks: Seq<Token>, i: int) -> Result<(ExprModel, int), ParseError>
    decreases left_over(toks, i), 1int,
{
    if !(0 <= i < toks.len()) {
        Err(off_end())
    } else if toks[i].kind != TokenKind::Fn {
        Err(
            ParseError::UnexpectedToken {
                expected: TokenKind::Fn,
                found: toks[i].kind,
                at: i as usize,
            },
        )
    } else if !(i + 1 < toks.len()) {
        Err(off_end())
    } else {
        let np = if toks[i + 1].kind == TokenKind::Pub {
            i + 2
        } else {
            i + 1
        };
        if !(np < toks.len()) {
            Err(off_end())
        } else if toks[np].kind != TokenKind::Identifier {
            Err(
                ParseError::UnexpectedToken {
                    expected: TokenKind::Identifier,
                    found: toks[np].kind,
                    at: np as usize,
                },
            )
        } else if !(np + 1 < toks.len()) {
            Err(off_end())
        } else if toks[np + 1].kind != TokenKind::OpenParen {
            Err(
                ParseError::UnexpectedToken {
                    expected: TokenKind::OpenParen,
                    found: toks[np + 1].kind,
                    at: (np + 1) as usize,
                },
            )
        } else {
            match params_grammar(toks, np + 2) {
                Err(e) => Err(e),
                Ok((props, j)) => if 0 <= j < toks.len() && toks[j].kind
                    == TokenKind::CloseParen {
                    if j + 1 < toks.len() && toks[j + 1].kind == TokenKind::Arrow {
                        match type_grammar(toks, j + 2, 0) {
                            Err(e) => Err(e),
                            Ok((ty, j2)) => function_tail_grammar(
                                toks,
                                after(i, j2, toks.len() as int),
                                toks[np].value,
                                props,
                                toks[i + 1].kind == TokenKind::Pub,
                                Some(ty),
                            ),
                        }
                    } else {
                        function_tail_grammar(
                            toks,
                            after(i, j + 1, toks.len() as int),
                            toks[np].value,
                            props,
                            toks[i + 1].kind == TokenKind::Pub,
                            None,
                        )
                    }
                } else if 0 <= j < toks.len() {
                    Err(
                        ParseError::UnexpectedToken {
                            expected: TokenKind::CloseParen,
                            found: toks[j].kind,
                            at: j as usize,
                        },
                    )
                } else {
                    Err(off_end())
                },
            }
        }
    }
}

/// A class: `class`, an optional visibility marker, the name, and a body of
/// properties; the method list stays empty.
pub open spec fn class_grammar(toks: Seq<Token>, i: int) -> Result<(ExprModel, int), ParseError>
    decreases left_over(toks, i), 1int,
{
    if !(0 <= i < toks.len()) {
        Err(off_end())
    } else if toks[i].kind != TokenKind::Class {
        Err(
            ParseError::UnexpectedToken {
                expected: TokenKind::Class,
                found: toks[i].kind,
                at: i as usize,
            },
        )
    } else if !(i + 1 < toks.len()) {
        Err(off_end())
    } else {
        let np = if toks[i + 1].kind == TokenKind::Pub {
            i + 2
        } else {
            i + 1
        };
        if !(np < toks.len()) {
            Err(off_end())
        } else if toks[np].kind != TokenKind::Identifier {
            Err(
                ParseError::UnexpectedToken {
                    expected: TokenKind::Identifier,
                    found: toks[np].kind,
                    at: np as usize,
                },
            )
        } else if !(np + 1 < toks.len()) {
            Err(off_end())
        } else if toks[np + 1].kind != TokenKind::OpenCurly {
            Err(
                ParseError::UnexpectedToken {
                    expected: TokenKind::OpenCurly,
                    found: toks[np + 1].kind,
                    at: (np + 1) as usize,
                },
            )
        } else {
            match class_items_grammar(toks, np + 2) {
                Err(e) => Err(e),
                Ok((props, j)) => if 0 <= j < toks.len() && toks[j].kind
                    == TokenKind::CloseCurly {
                    Ok(
                        (
                            ExprModel::Class {
                                public: toks[i + 1].kind == TokenKind::Pub,
                                name: toks[np].value,
                                properties: props,
                                functions: Seq::empty(),
                            },
                            j + 1,
                        ),
                    )
                } else if 0 <= j < toks.len() {
                    Err(
                        ParseError::UnexpectedToken {
                            expected: TokenKind::CloseCurly,
                            found: toks[j].kind,
                            at: j as usize,
                        },
                    )
                } else {
                    Err(off_end())
                },
            }
        }
    }
}

// ---------------------------------------------------------------------------
// The lists
// ---------------------------------------------------------------------------

/// Expressions up to a closing brace.
pub open spec fn body_grammar(toks: Seq<Token>, i: int) -> Result<
    (Seq<ExprModel>, int),
    ParseError,
>
    decreases left_over(toks, i), 3int,
{
    if !(0 <= i < toks.len()) {
        Err(off_end())
    } else if toks[i].kind == TokenKind::CloseCurly {
        Ok((Seq::empty(), i))
    } else {
        match expr_grammar(toks, i, 0) {
            Err(e) => Err(e),
            Ok((e1, j)) => match body_grammar(toks, after(i, j, toks.len() as int)) {
                Err(e) => Err(e),
                Ok((rest, k)) => Ok((seq![e1] + rest, k)),
            },
        }
    }
}

/// Expressions up to a closing brace or the end-of-file sentinel.
pub open spec fn items_grammar(toks: Seq<Token>, i: int) -> Result<
    (Seq<ExprModel>, int),
    ParseError,
>
    decreases left_over(toks, i), 3int,
{
    if !(0 <= i < toks.len()) {
        Err(off_end())
    } else if toks[i].kind == TokenKind::EndOfFile || toks[i].kind == TokenKind::CloseCurly {
        Ok((Seq::empty(), i))
    } else {
        match expr_grammar(toks, i, 0) {
            Err(e) => Err(e),
            Ok((e1, j)) => match items_grammar(toks, after(i, j, toks.len() as int)) {
                Err(e) => Err(e),
                Ok((rest, k)) => Ok((seq![e1] + rest, k)),
            },
        }
    }
}

/// Function parameters up to the closing parenthesis: each a name and a
/// type, with an optional comma after it.
pub open spec fn params_grammar(toks: Seq<Token>, i: int) -> Result<
    (Seq<ExprModel>, int),
    ParseError,
>
    decreases left_over(toks, i), 3int,
{
    if !(0 <= i < toks.len()) {
        Err(off_end())
    } else if toks[i].kind == TokenKind::CloseParen {
        Ok((Seq::empty(), i))
    } else if toks[i].kind != TokenKind::Identifier {
        Err(
            ParseError::UnexpectedToken {
                expected: TokenKind::Identifier,
                found: toks[i].kind,
                at: i as usize,
            },
        )
    } else {
        match type_grammar(toks, i + 1, 0) {
            Err(e) => Err(e),
            Ok((ty, j)) => {
                let j2 = if 0 <= j < toks.len() && toks[j].kind == TokenKind::Comma {
                    j + 1
                } else {
                    j
                };
                match params_grammar(toks, after(i, j2, toks.len() as int)) {
                    Err(e) => Err(e),
                    Ok((rest, k)) => Ok(
                        (
                            seq![
                                ExprModel::FunctionProperty {
                                    var_name: toks[i].value,
                                    var_type: ty,
                                },
                            ] + rest,
                            k,
                        ),
                    ),
                }
            },
        }
    }
}

/// Class properties up to a closing brace or the sentinel: each a type, a
/// name and a semicolon, and anything else rejected.
pub open spec fn class_items_grammar(toks: Seq<Token>, i: int) -> Result<
    (Seq<ExprModel>, int),
    ParseError,
>
    decreases left_over(toks, i), 3int,
{
    if !(0 <= i < toks.len()) {
        Err(off_end())
    } else if toks[i].kind == TokenKind::EndOfFile || toks[i].kind == TokenKind::CloseCurly {
        Ok((Seq::empty(), i))
    } else if toks[i].kind != TokenKind::Identifier {
        Err(
            ParseError::UnexpectedToken {
                expected: TokenKind::Identifier,
                found: toks[i].kind,
                at: i as usize,
            },
        )
    } else {
        match type_grammar(toks, i, 0) {
            Err(e) => Err(e),
            Ok((ty, j)) => if 0 <= j < toks.len() && toks[j].kind == TokenKind::Identifier {
                if j + 1 < toks.len() && toks[j + 1].kind == TokenKind::SemiColon {
                    match class_items_grammar(toks, after(i, j + 2, toks.len() as int)) {
                        Err(e) => Err(e),
                        Ok((rest, k)) => Ok(
                            (
                                seq![
                                    ExprModel::ClassProperty {
                                        var_name: toks[j].value,
                                        var_type: ty,
                                    },
                                ] + rest,
                                k,
                            ),
                        ),
                    }
                } else if j + 1 < toks.len() {
                    Err(
                        ParseError::UnexpectedToken {
                            expected: TokenKind::SemiColon,
                            found: toks[j + 1].kind,
                            at: (j + 1) as usize,
                        },
                    )
                } else {
                    Err(off_end())
                }
            } else if 0 <= j < toks.len() {
                Err(
                    ParseError::UnexpectedToken {
                        expected: TokenKind::Identifier,
                        found: toks[j].kind,
                        at: j as usize,
                    },
                )
            } else {
                Err(off_end())
            },
        }
    }
}

// ---------------------------------------------------------------------------
// The precedence-climbing core and the whole program
// ---------------------------------------------------------------------------

/// The infix continuations: while the current token binds strictly tighter
/// than the floor, its infix rule extends the left operand; a missing
/// binding power or rule is fatal.
pub open spec fn infix_grammar(toks: Seq<Token>, i: int, left: ExprModel, bp: i8) -> Result<
    (ExprModel, int),
    ParseError,
>
    decreases left_over(toks, i), 1int,
{
    if !(0 <= i < toks.len()) {
        Err(off_end())
    } else {
        match infix_bp(toks[i].kind) {
            None => Err(ParseError::MissingInfixHandler(toks[i].kind, i as usize)),
            Some(b) => if b <= bp {
                Ok((left, i))
            } else {
                match led_rule(toks[i].kind) {
                    None => Err(ParseError::MissingInfixHandler(toks[i].kind, i as usize)),
                    Some(led) => {
                        let step = match led {
                            LedRule::Assignment => assignment_grammar(toks, i, left),
                            LedRule::Binary => binary_grammar(toks, i, b, left),
                            LedRule::Member => member_grammar(toks, i, left),
                            LedRule::Range => range_grammar(toks, i, left),
                            LedRule::ClassInstantiation => instantiation_grammar(toks, i, left),
                        };
                        match step {
                            Err(e) => Err(e),
                            Ok((left2, j)) => infix_grammar(
                                toks,
                                after(i, j, toks.len() as int),
                                left2,
                                bp,
                            ),
                        }
                    },
                }
            },
        }
    }
}

/// One expression from the given position: the current token's prefix rule
/// builds the first operand, the infix continuations extend it.
pub open spec fn expr_grammar(toks: Seq<Token>, i: int, bp: i8) -> Result<
    (ExprModel, int),
    ParseError,
>
    decreases left_over(toks, i), 2int,
{
    if !(0 <= i < toks.len()) {
        Err(off_end())
    } else {
        match nod_rule(toks[i].kind) {
            None => Err(ParseError::MissingPrefixHandler(toks[i].kind, i as usize)),
            Some(rule) => {
                let first = match rule {
                    NodRule::Grouping => grouping_grammar(toks, i),
                    NodRule::Function => function_grammar(toks, i),
                    NodRule::If => if_grammar(toks, i),
                    NodRule::While => while_grammar(toks, i),
                    NodRule::For => for_grammar(toks, i),
                    NodRule::VariableDeclaration => declaration_grammar(toks, i),
                    NodRule::Class => class_grammar(toks, i),
                    NodRule::StringLiteral => Ok((ExprModel::String(toks[i].value), i + 1)),
                    NodRule::Identifier => Ok((ExprModel::Identifier(toks[i].value), i + 1)),
                    NodRule::Number => Ok((ExprModel::Number(toks[i].value), i + 1)),
                    NodRule::Prefix => prefix_grammar(toks, i),
                    NodRule::ArrayInitialization => array_grammar(toks, i),
                    NodRule::Return => return_grammar(toks, i),
                    NodRule::Keyword => Ok((ExprModel::Keyword(toks[i].kind), i + 1)),
                };
                match first {
                    Err(e) => Err(e),
                    Ok((left, j)) => infix_grammar(toks, after(i, j, toks.len() as int), left, bp),
                }
            },
        }
    }
}

/// The whole program: top-level expressions in order, up to the sentinel.
pub open spec fn program_grammar(toks: Seq<Token>, i: int) -> Result<
    (Seq<ExprModel>, int),
    ParseError,
>
    decreases left_over(toks, i), 3int,
{
    if !(0 <= i < toks.len()) {
        Err(off_end())
    } else if toks[i].kind == TokenKind::EndOfFile {
        Ok((Seq::empty(), i))
    } else {
        match expr_grammar(toks, i, 0) {
            Err(e) => Err(e),
            Ok((e1, j)) => match program_grammar(toks, after(i, j, toks.len() as int)) {
                Err(e) => Err(e),
                Ok((rest, k)) => Ok((seq![e1] + rest, k)),
            },
        }
    }
}

} // verus!
