use vstd::prelude::*;

verus! {

use crate::expression::Expression;
use crate::tokens::{Token, TokenKind};
use crate::types::Type;
use vstd::string::{StrSliceExecFns, StringExecFns};

/// Generation failed: a range outside a for-loop target, a for-loop over
/// something that is neither a range nor an identifier, bare punctuation
/// with no rendering, or the unimplemented class-method extension point.
#[derive(Debug, Clone, Copy, PartialEq, Eq, Structural)]
pub enum GenerationError {
    InvalidIterationTarget,
    MisplacedRange,
    UnhandledKeyword(TokenKind),
    UnimplementedClassFunction,
}

// ---------------------------------------------------------------------------
// A structural size, the measure for the generator's recursion
// ---------------------------------------------------------------------------

/// The number of nodes of an expression tree.
pub open spec fn size_expr(e: Expression) -> nat
    decreases e,
{
    match e {
        Expression::Number(_) => 1,
        Expression::String(_) => 1,
        Expression::Identifier(_) => 1,
        Expression::Prefix { prefix: _, value } => 1 + size_expr(*value),
        Expression::Keyword(_) => 1,
        Expression::Assignment { target, operator: _, value } => 1 + size_expr(*target)
            + size_expr(*value),
        Expression::VariableDeclaration { .. } => 1,
        Expression::Grouping(inner) => 1 + size_expr(*inner),
        Expression::Class { public: _, name: _, properties, functions } => 1 + size_seq(
            properties@,
        ) + size_seq(functions@),
        Expression::ClassProperty { .. } => 1,
        Expression::ClassFunction { .. } => 1,
        Expression::Binary { l, operator: _, r } => 1 + size_expr(*l) + size_expr(*r),
        Expression::ClassInstantiation { name: _, properties } => 1 + size_seq(properties@),
        Expression::ArrayInitialization { properties } => 1 + size_seq(properties@),
        Expression::Function { name: _, properties, public: _, output: _, inside } => 1
            + size_seq(properties@) + size_seq(inside@),
        Expression::FunctionProperty { .. } => 1,
        Expression::MemberExpr { member, name: _ } => 1 + size_expr(*member),
        Expression::Return { value } => 1 + size_expr(*value),
        Expression::If { condition, inside } => 1 + size_expr(*condition) + size_seq(inside@),
        Expression::While { condition, inside } => 1 + size_expr(*condition) + size_seq(inside@),
        Expression::For { iterator_name: _, iteration_target, inside } => 1 + size_expr(
            *iteration_target,
        ) + size_seq(inside@),
        Expression::Range { from, to } => 1 + size_expr(*from) + size_expr(*to),
    }
}

/// The combined size of a sequence of expression trees.
pub open spec fn size_seq(es: Seq<Expression>) -> nat
    decreases es,
{
    if es.len() == 0 {
        0
    } else {
        size_expr(es[0]) + size_seq(es.drop_first())
    }
}

proof fn lemma_size_pos(e: Expression)
    ensures
        size_expr(e) >= 1,
{
}

proof fn lemma_size_seq_elem(es: Seq<Expression>, i: int)
    requires
        0 <= i < es.len(),
    ensures
        size_expr(es[i]) <= size_seq(es),
    decreases es.len(),
{
    if i == 0 {
    } else {
        lemma_size_seq_elem(es.drop_first(), i - 1);
    }
}

// ---------------------------------------------------------------------------
// What the generator emits, as functions over the tree
// ---------------------------------------------------------------------------

/// The target-language spelling of a primitive type name; unknown names
/// pass through unchanged as user type names.
pub open spec fn rename_symbol(s: Seq<char>) -> Seq<char> {
    if s == "str"@ {
        "string"@
    } else if s == "i32"@ {
        "long"@
    } else if s == "i16"@ {
        "int"@
    } else if s == "u32"@ {
        "ulong"@
    } else if s == "u16"@ {
        "uint"@
    } else {
        s
    }
}

/// The rendering of a type descriptor: an array collapses to one bracket
/// pair behind its element type, whatever its recorded dimension count.
pub open spec fn gen_type(t: Type) -> Seq<char>
    decreases t,
{
    match t {
        Type::Symbol(s) => rename_symbol(s@),
        Type::Array { left_type, dimensions: _ } => gen_type(*left_type) + "[]"@,
    }
}

/// Whether the generator accepts this node: a range must stand as a
/// for-loop target, a bare keyword must be a statement terminator, and the
/// class-method extension point is unimplemented.
pub open spec fn gen_ok(e: Expression) -> bool
    decreases e,
{
    match e {
        Expression::Number(_) => true,
        Expression::String(_) => true,
        Expression::Identifier(_) => true,
        Expression::Prefix { prefix: _, value } => gen_ok(*value),
        Expression::Keyword(k) => k == TokenKind::SemiColon,
        Expression::Assignment { target, operator: _, value } => gen_ok(*target) && gen_ok(
            *value,
        ),
        Expression::VariableDeclaration { .. } => true,
        Expression::Grouping(inner) => gen_ok(*inner),
        Expression::Class { public: _, name: _, properties, functions: _ } => gen_ok_seq(
            properties@,
        ),
        Expression::ClassProperty { .. } => true,
        Expression::ClassFunction { .. } => false,
        Expression::Binary { l, operator: _, r } => gen_ok(*l) && gen_ok(*r),
        Expression::ClassInstantiation { name: _, properties } => gen_ok_seq(properties@),
        Expression::ArrayInitialization { properties } => gen_ok_seq(properties@),
        Expression::Function { name: _, properties, public: _, output: _, inside } => gen_ok_seq(
            properties@,
        ) && gen_ok_seq(inside@),
        Expression::FunctionProperty { .. } => true,
        Expression::MemberExpr { member, name: _ } => gen_ok(*member),
        Expression::Return { value } => gen_ok(*value),
        Expression::If { condition, inside } => gen_ok(*condition) && gen_ok_seq(inside@),
        Expression::While { condition, inside } => gen_ok(*condition) && gen_ok_seq(inside@),
        Expression::For { iterator_name: _, iteration_target, inside } => (match *iteration_target {
            Expression::Range { from, to } => gen_ok(*from) && gen_ok(*to),
            Expression::Identifier(_) => true,
            _ => false,
        }) && gen_ok_seq(inside@),
        Expression::Range { .. } => false,
    }
}

/// Whether the generator accepts every node of a sequence.
pub open spec fn gen_ok_seq(es: Seq<Expression>) -> bool
    decreases es,
{
    if es.len() == 0 {
        true
    } else {
        gen_ok(es[0]) && gen_ok_seq(es.drop_first())
    }
}

/// The rendering of a node, defined for the nodes the generator accepts.
pub open spec fn gen_expr(e: Expression) -> Seq<char>
    decreases e,
{
    match e {
        Expression::Number(value) => value@,
        Expression::String(value) => "\""@ + value@ + "\""@,
        Expression::Identifier(value) => value@,
        Expression::Prefix { prefix, value } => prefix.value@ + gen_expr(*value),
        Expression::Keyword(_) => ";\n"@,
        Expression::Assignment { target, operator, value } => gen_expr(*target) + " "@
            + operator.value@ + " "@ + gen_expr(*value),
        Expression::VariableDeclaration { var_type, name, mutable } => (if mutable {
            Seq::<char>::empty()
        } else {
            "const "@
        }) + gen_type(var_type) + " "@ + name@,
        Expression::Grouping(inner) => gen_expr(*inner),
        Expression::Class { public: _, name, properties, functions: _ } => "struct "@ + name@
            + " {\n"@ + gen_class_props(properties@) + "};\n"@,
        Expression::ClassProperty { var_name, var_type } => gen_type(var_type) + " "@ + var_name@,
        Expression::ClassFunction { .. } => Seq::<char>::empty(),
        Expression::Binary { l, operator, r } => "("@ + gen_expr(*l) + " "@ + operator.value@
            + " "@ + gen_expr(*r) + ")"@,
        Expression::ClassInstantiation { name, properties } => "new "@ + name@ + "{\n"@
            + gen_inst_props(properties@) + "};\n"@,
        Expression::ArrayInitialization { properties } => "{"@ + gen_array_props(properties@)
            + "}"@,
        Expression::Function { name, properties, public, output, inside } => (if public {
            "public "@
        } else {
            Seq::<char>::empty()
        }) + " "@ + (match output {
            Some(t) => gen_type(t),
            None => "void"@,
        }) + " "@ + name@ + "("@ + gen_params(properties@) + "){\n"@ + gen_seq(inside@) + "}"@,
        Expression::FunctionProperty { var_name, var_type } => var_name@ + " "@ + gen_type(
            var_type,
        ),
        Expression::MemberExpr { member, name } => gen_expr(*member) + "."@ + name@,
        Expression::Return { value } => "return "@ + gen_expr(*value),
        Expression::If { condition, inside } => "if("@ + gen_expr(*condition) + "){\n"@ + gen_seq(
            inside@,
        ) + "}\n"@,
        Expression::While { condition, inside } => "while("@ + gen_expr(*condition) + "){\n"@
            + gen_seq(inside@) + "}\n"@,
        Expression::For { iterator_name, iteration_target, inside } => (match *iteration_target {
            Expression::Range { from, to } => "for(int "@ + iterator_name@ + " = "@ + gen_expr(
                *from,
            ) + "; "@ + iterator_name@ + " < "@ + gen_expr(*to) + "; "@ + iterator_name@ + "++)"@,
            Expression::Identifier(target_name) => "foreach(var "@ + iterator_name@ + " in "@
                + target_name@ + ")"@,
            _ => Seq::<char>::empty(),
        }) + " {\n"@ + gen_seq(inside@) + "}\n"@,
        Expression::Range { .. } => Seq::<char>::empty(),
    }
}

/// The renderings of a statement sequence, concatenated in order.
pub open spec fn gen_seq(es: Seq<Expression>) -> Seq<char>
    decreases es,
{
    if es.len() == 0 {
        Seq::<char>::empty()
    } else {
        gen_expr(es[0]) + gen_seq(es.drop_first())
    }
}

/// A parameter list: the renderings joined with commas.
pub open spec fn gen_params(es: Seq<Expression>) -> Seq<char>
    decreases es,
{
    if es.len() == 0 {
        Seq::<char>::empty()
    } else {
        gen_expr(es[0]) + (if es.len() == 1 {
            Seq::<char>::empty()
        } else {
            ", "@
        }) + gen_params(es.drop_first())
    }
}

/// An array literal's entries: statement terminators are dropped, the rest
/// joined with commas on the expectation that a terminator closes the list.
pub open spec fn gen_array_props(es: Seq<Expression>) -> Seq<char>
    decreases es,
{
    if es.len() == 0 {
        Seq::<char>::empty()
    } else {
        (if es[0] matches Expression::Keyword(TokenKind::SemiColon) {
            Seq::<char>::empty()
        } else {
            gen_expr(es[0]) + (if es.len() == 2 {
                Seq::<char>::empty()
            } else {
                ", "@
            })
        }) + gen_array_props(es.drop_first())
    }
}

/// An instantiation body: statement terminators are dropped, each field
/// value rendered on its own line.
pub open spec fn gen_inst_props(es: Seq<Expression>) -> Seq<char>
    decreases es,
{
    if es.len() == 0 {
        Seq::<char>::empty()
    } else {
        (if es[0] matches Expression::Keyword(TokenKind::SemiColon) {
            Seq::<char>::empty()
        } else {
            gen_expr(es[0]) + ",\n"@
        }) + gen_inst_props(es.drop_first())
    }
}

/// A class body: every property becomes one public field declaration.
pub open spec fn gen_class_props(es: Seq<Expression>) -> Seq<char>
    decreases es,
{
    if es.len() == 0 {
        Seq::<char>::empty()
    } else {
        "public "@ + gen_expr(es[0]) + ";\n"@ + gen_class_props(es.drop_first())
    }
}

// ---------------------------------------------------------------------------
// The translator
// ---------------------------------------------------------------------------

/// Character-wise string comparison.
fn str_eq_str(a: &str, b: &str) -> (r: bool)
    ensures
        r == (a@ == b@),
{
    let n = a.unicode_len();
    let m = b.unicode_len();
    if n != m {
        return false;
    }
    let mut i: usize = 0;
    while i < n
        invariant
            i <= n,
            n == a@.len(),
            n == b@.len(),
            forall|j: int| 0 <= j < i ==> a@[j] == b@[j],
        decreases n - i,
    {
        if a.get_char(i) != b.get_char(i) {
            return false;
        }
        i = i + 1;
    }
    proof {
        assert(a@ =~= b@);
    }
    true
}

/// Renders a type name through the primitive rename table.
pub fn handle_symbol_type(symbol: &String) -> (res: String)
    ensures
        res@ == rename_symbol(symbol@),
{
    if str_eq_str(symbol.as_str(), "str") {
        String::from_str("string")
    } else if str_eq_str(symbol.as_str(), "i32") {
        String::from_str("long")
    } else if str_eq_str(symbol.as_str(), "i16") {
        String::from_str("int")
    } else if str_eq_str(symbol.as_str(), "u32") {
        String::from_str("ulong")
    } else if str_eq_str(symbol.as_str(), "u16") {
        String::from_str("uint")
    } else {
        symbol.clone()
    }
}

/// Renders a type descriptor.
pub fn handle_type(var_type: &Type) -> (res: String)
    ensures
        res@ == gen_type(*var_type),
    decreases *var_type,
{
    match var_type {
        Type::Symbol(symbol) => handle_symbol_type(symbol),
        Type::Array { left_type, dimensions: _ } => {
            let mut s = handle_type(left_type);
            s.append("[]");
            s
        },
    }
}

/// Renders a statement sequence by concatenating each node's rendering.
fn gen_list(es: &Vec<Expression>) -> (res: Result<String, GenerationError>)
    ensures
        res is Ok <==> gen_ok_seq(es@),
        res matches Ok(s) ==> s@ == gen_seq(es@),
    decreases size_seq(es@), 1int,
{
    let mut output = String::new();
    let n = es.len();
    let mut i: usize = 0;
    proof {
        assert(es@.skip(0) =~= es@);
    }
    while i < n
        invariant
            i <= n,
            n == es@.len(),
            gen_ok_seq(es@) <==> gen_ok_seq(es@.skip(i as int)),
            gen_ok_seq(es@.skip(i as int)) ==> output@ + gen_seq(es@.skip(i as int)) == gen_seq(
                es@,
            ),
        decreases n - i,
    {
        proof {
            lemma_size_seq_elem(es@, i as int);
            assert(es@.skip(i as int)[0] == es@[i as int]);
            assert(es@.skip(i as int).drop_first() =~= es@.skip(i as int + 1));
        }
        let piece = match handle_expr(&es[i]) {
            Ok(piece) => piece,
            Err(e) => {
                return Err(e);
            },
        };
        output.append(piece.as_str());
        i = i + 1;
    }
    proof {
        assert(es@.skip(n as int) =~= Seq::<Expression>::empty());
        assert(output@ + gen_seq(es@.skip(n as int)) =~= output@);
    }
    Ok(output)
}

/// Renders one node; the dispatch over the node kinds.
pub fn handle_expr(expression: &Expression) -> (res: Result<String, GenerationError>)
    ensures
        res is Ok <==> gen_ok(*expression),
        res matches Ok(s) ==> s@ == gen_expr(*expression),
        (*expression matches Expression::For { iteration_target, .. } && !(*iteration_target
            is Range) && !(*iteration_target is Identifier)) ==> res == Err::<
            String,
            GenerationError,
        >(GenerationError::InvalidIterationTarget),
        *expression is Range ==> res == Err::<String, GenerationError>(
            GenerationError::MisplacedRange,
        ),
    decreases size_expr(*expression), 0int,
{
    match expression {
        Expression::Number(value) => Ok(value.clone()),
        Expression::String(value) => {
            let mut s = String::new();
            s.append("\"");
            proof {
                assert(s@ =~= "\""@);
            }
            s.append(value.as_str());
            s.append("\"");
            Ok(s)
        },
        Expression::Identifier(value) => Ok(value.clone()),
        Expression::Binary { l, operator, r } => handle_binary_expr(l, operator, r),
        Expression::Assignment { target, operator, value } => handle_assignment(
            target,
            operator,
            value,
        ),
        Expression::VariableDeclaration { var_type, name, mutable } => Ok(
            handle_variable_declaration(var_type, name, *mutable),
        ),
        Expression::Grouping(expression_inside) => handle_grouping(expression_inside),
        Expression::Keyword(token_kind) => handle_keyword(*token_kind),
        Expression::Prefix { prefix, value } => handle_prefix(prefix, value),
        Expression::Class { public: _, name, properties, functions } => handle_class(
            name,
            properties,
            functions,
        ),
        Expression::ClassProperty { var_name, var_type } => Ok(
            handle_class_property(var_name, var_type),
        ),
        Expression::ClassFunction { name: _ } => Err(GenerationError::UnimplementedClassFunction),
        Expression::ClassInstantiation { name, properties } => handle_class_instantiation(
            name,
            properties,
        ),
        Expression::ArrayInitialization { properties } => handle_array_initialization(properties),
        Expression::MemberExpr { member, name } => handle_member(member, name),
        Expression::Function { name, properties, public, output, inside } => handle_function(
            name,
            properties,
            *public,
            output,
            inside,
        ),
        Expression::FunctionProperty { var_name, var_type } => Ok(
            handle_function_property(var_name, var_type),
        ),
        Expression::Return { value } => handle_return(value),
        Expression::If { condition, inside } => handle_if(condition, inside),
        Expression::While { condition, inside } => handle_while(condition, inside),
        Expression::For { iterator_name, iteration_target, inside } => handle_for(
            iterator_name,
            iteration_target,
            inside,
        ),
        Expression::Range { .. } => Err(GenerationError::MisplacedRange),
    }
}

/// Renders a for-loop: a range target becomes a bounded counting loop whose
/// start is the rendered range start and whose bound test is the rendered
/// range end; an identifier target becomes an iterating loop; anything else
/// is rejected.
fn handle_for(
    iterator_name: &String,
    iteration_target: &Expression,
    inside: &Vec<Expression>,
) -> (res: Result<String, GenerationError>)
    ensures
        res is Ok <==> (match *iteration_target {
            Expression::Range { from, to } => gen_ok(*from) && gen_ok(*to),
            Expression::Identifier(_) => true,
            _ => false,
        } && gen_ok_seq(inside@)),
        (!(*iteration_target is Range) && !(*iteration_target is Identifier)) ==> res == Err::<
            String,
            GenerationError,
        >(GenerationError::InvalidIterationTarget),
        res matches Ok(s) ==> s@ == (match *iteration_target {
            Expression::Range { from, to } => "for(int "@ + iterator_name@ + " = "@ + gen_expr(
                *from,
            ) + "; "@ + iterator_name@ + " < "@ + gen_expr(*to) + "; "@ + iterator_name@ + "++)"@,
            Expression::Identifier(target_name) => "foreach(var "@ + iterator_name@ + " in "@
                + target_name@ + ")"@,
            _ => Seq::<char>::empty(),
        }) + " {\n"@ + gen_seq(inside@) + "}\n"@,
    decreases size_expr(*iteration_target) + size_seq(inside@), 2int,
{
    let mut s = String::new();
    match iteration_target {
        Expression::Range { from, to } => {
            proof {
                lemma_size_pos(**to);
            }
            let from_str = match handle_expr(from) {
                Ok(v) => v,
                Err(e) => {
                    return Err(e);
                },
            };
            let to_str = match handle_expr(to) {
                Ok(v) => v,
                Err(e) => {
                    return Err(e);
                },
            };
            s.append("for(int ");
            proof {
                assert(s@ =~= "for(int "@);
            }
            s.append(iterator_name.as_str());
            s.append(" = ");
            s.append(from_str.as_str());
            s.append("; ");
            s.append(iterator_name.as_str());
            s.append(" < ");
            s.append(to_str.as_str());
            s.append("; ");
            s.append(iterator_name.as_str());
            s.append("++)");
        },
        Expression::Identifier(target_name) => {
            s.append("foreach(var ");
            proof {
                assert(s@ =~= "foreach(var "@);
            }
            s.append(iterator_name.as_str());
            s.append(" in ");
            s.append(target_name.as_str());
            s.append(")");
        },
        _ => {
            return Err(GenerationError::InvalidIterationTarget);
        },
    }
    proof {
        lemma_size_pos(*iteration_target);
    }
    let inside_str = match gen_list(inside) {
        Ok(v) => v,
        Err(e) => {
            return Err(e);
        },
    };
    s.append(" {\n");
    s.append(inside_str.as_str());
    s.append("}\n");
    Ok(s)
}

/// Renders an if-statement.
fn handle_if(condition: &Expression, inside: &Vec<Expression>) -> (res: Result<
    String,
    GenerationError,
>)
    ensures
        res is Ok <==> gen_ok(*condition) && gen_ok_seq(inside@),
        res matches Ok(s) ==> s@ == "if("@ + gen_expr(*condition) + "){\n"@ + gen_seq(inside@)
            + "}\n"@,
    decreases size_expr(*condition) + size_seq(inside@), 2int,
{
    let condition_str = match handle_expr(condition) {
        Ok(v) => v,
        Err(e) => {
            return Err(e);
        },
    };
    proof {
        lemma_size_pos(*condition);
    }
    let inside_str = match gen_list(inside) {
        Ok(v) => v,
        Err(e) => {
            return Err(e);
        },
    };
    let mut s = String::new();
    s.append("if(");
    proof {
        assert(s@ =~= "if("@);
    }
    s.append(condition_str.as_str());
    s.append("){\n");
    s.append(inside_str.as_str());
    s.append("}\n");
    Ok(s)
}

/// Renders a while-statement.
fn handle_while(condition: &Expression, inside: &Vec<Expression>) -> (res: Result<
    String,
    GenerationError,
>)
    ensures
        res is Ok <==> gen_ok(*condition) && gen_ok_seq(inside@),
        res matches Ok(s) ==> s@ == "while("@ + gen_expr(*condition) + "){\n"@ + gen_seq(inside@)
            + "}\n"@,
    decreases size_expr(*condition) + size_seq(inside@), 2int,
{
    let condition_str = match handle_expr(condition) {
        Ok(v) => v,
        Err(e) => {
            return Err(e);
        },
    };
    proof {
        lemma_size_pos(*condition);
    }
    let inside_str = match gen_list(inside) {
        Ok(v) => v,
        Err(e) => {
            return Err(e);
        },
    };
    let mut s = String::new();
    s.append("while(");
    proof {
        assert(s@ =~= "while("@);
    }
    s.append(condition_str.as_str());
    s.append("){\n");
    s.append(inside_str.as_str());
    s.append("}\n");
    Ok(s)
}

/// Renders a return statement.
fn handle_return(value: &Expression) -> (res: Result<String, GenerationError>)
    ensures
        res is Ok <==> gen_ok(*value),
        res matches Ok(s) ==> s@ == "return "@ + gen_expr(*value),
    decreases size_expr(*value), 2int,
{
    let value_str = handle_expr(value)?;
    let mut s = String::new();
    s.append("return ");
    proof {
        assert(s@ =~= "return "@);
    }
    s.append(value_str.as_str());
    Ok(s)
}

/// Renders a function parameter: its name, then its type.
pub fn handle_function_property(name: &String, var_type: &Type) -> (res: String)
    ensures
        res@ == name@ + " "@ + gen_type(*var_type),
{
    let type_str = handle_type(var_type);
    let mut s = name.clone();
    s.append(" ");
    s.append(type_str.as_str());
    s
}

/// Renders a function: visibility, return type or `void`, the name, the
/// comma-joined parameters, and the body.
fn handle_function(
    name: &String,
    properties: &Vec<Expression>,
    public: bool,
    output: &Option<Type>,
    inside: &Vec<Expression>,
) -> (res: Result<String, GenerationError>)
    ensures
        res is Ok <==> gen_ok_seq(properties@) && gen_ok_seq(inside@),
        res matches Ok(s) ==> s@ == (if public {
            "public "@
        } else {
            Seq::<char>::empty()
        }) + " "@ + (match *output {
            Some(t) => gen_type(t),
            None => "void"@,
        }) + " "@ + name@ + "("@ + gen_params(properties@) + "){\n"@ + gen_seq(inside@) + "}"@,
    decreases size_seq(properties@) + size_seq(inside@), 2int,
{
    let mut properties_str = String::new();
    let length = properties.len();
    let mut i: usize = 0;
    proof {
        assert(properties@.skip(0) =~= properties@);
    }
    while i < length
        invariant
            i <= length,
            length == properties@.len(),
            gen_ok_seq(properties@) <==> gen_ok_seq(properties@.skip(i as int)),
            gen_ok_seq(properties@.skip(i as int)) ==> properties_str@ + gen_params(
                properties@.skip(i as int),
            ) == gen_params(properties@),
        decreases length - i,
    {
        proof {
            lemma_size_seq_elem(properties@, i as int);
            assert(properties@.skip(i as int)[0] == properties@[i as int]);
            assert(properties@.skip(i as int).drop_first() =~= properties@.skip(i as int + 1));
        }
        let piece = match handle_expr(&properties[i]) {
            Ok(piece) => piece,
            Err(e) => {
                return Err(e);
            },
        };
        properties_str.append(piece.as_str());
        if i + 1 != length {
            properties_str.append(", ");
        }
        i = i + 1;
    }
    proof {
        assert(properties@.skip(length as int) =~= Seq::<Expression>::empty());
        assert(properties_str@ + gen_params(properties@.skip(length as int)) =~= properties_str@);
    }
    let inside_str = match gen_list(inside) {
        Ok(v) => v,
        Err(e) => {
            return Err(e);
        },
    };
    let output_str = match output {
        Some(var_type) => handle_type(var_type),
        None => String::from_str("void"),
    };
    let mut s = String::new();
    if public {
        s.append("public ");
        proof {
            assert(s@ =~= "public "@);
        }
    }
    s.append(" ");
    s.append(output_str.as_str());
    s.append(" ");
    s.append(name.as_str());
    s.append("(");
    s.append(properties_str.as_str());
    s.append("){\n");
    s.append(inside_str.as_str());
    s.append("}");
    Ok(s)
}

/// Renders member access.
fn handle_member(member: &Expression, name: &String) -> (res: Result<String, GenerationError>)
    ensures
        res is Ok <==> gen_ok(*member),
        res matches Ok(s) ==> s@ == gen_expr(*member) + "."@ + name@,
    decreases size_expr(*member), 2int,
{
    let mut s = handle_expr(member)?;
    s.append(".");
    s.append(name.as_str());
    Ok(s)
}

/// Renders an array literal, dropping statement terminators and joining the
/// remaining entries with commas.
fn handle_array_initialization(properties: &Vec<Expression>) -> (res: Result<
    String,
    GenerationError,
>)
    ensures
        res is Ok <==> gen_ok_seq(properties@),
        res matches Ok(s) ==> s@ == "{"@ + gen_array_props(properties@) + "}"@,
    decreases size_seq(properties@), 2int,
{
    let mut properties_text = String::new();
    let length = properties.len();
    let mut i: usize = 0;
    proof {
        assert(properties@.skip(0) =~= properties@);
    }
    while i < length
        invariant
            i <= length,
            length == properties@.len(),
            gen_ok_seq(properties@) <==> gen_ok_seq(properties@.skip(i as int)),
            gen_ok_seq(properties@.skip(i as int)) ==> properties_text@ + gen_array_props(
                properties@.skip(i as int),
            ) == gen_array_props(properties@),
        decreases length - i,
    {
        proof {
            lemma_size_seq_elem(properties@, i as int);
            assert(properties@.skip(i as int)[0] == properties@[i as int]);
            assert(properties@.skip(i as int).drop_first() =~= properties@.skip(i as int + 1));
            assert(properties@.skip(i as int).len() == length - i);
        }
        if let Expression::Keyword(TokenKind::SemiColon) = &properties[i] {
            proof {
                assert(properties@[i as int] matches Expression::Keyword(TokenKind::SemiColon));
                assert(gen_ok(properties@[i as int]));
                assert(gen_ok_seq(properties@.skip(i as int)) == gen_ok_seq(
                    properties@.skip(i as int + 1),
                ));
                assert(Seq::<char>::empty() + gen_array_props(properties@.skip(i as int + 1))
                    =~= gen_array_props(properties@.skip(i as int + 1)));
                assert(gen_array_props(properties@.skip(i as int)) == gen_array_props(
                    properties@.skip(i as int + 1),
                ));
            }
        } else {
            let piece = match handle_expr(&properties[i]) {
                Ok(piece) => piece,
                Err(e) => {
                    return Err(e);
                },
            };
            properties_text.append(piece.as_str());
            if length - i != 2 {
                properties_text.append(", ");
            }
        }
        i = i + 1;
    }
    proof {
        assert(properties@.skip(length as int) =~= Seq::<Expression>::empty());
        assert(properties_text@ + gen_array_props(properties@.skip(length as int))
            =~= properties_text@);
    }
    let mut s = String::new();
    s.append("{");
    proof {
        assert(s@ =~= "{"@);
    }
    s.append(properties_text.as_str());
    s.append("}");
    Ok(s)
}

/// Renders an instantiation: the type name and each field value on its own
/// line, statement terminators dropped.
fn handle_class_instantiation(name: &String, properties: &Vec<Expression>) -> (res: Result<
    String,
    GenerationError,
>)
    ensures
        res is Ok <==> gen_ok_seq(properties@),
        res matches Ok(s) ==> s@ == "new "@ + name@ + "{\n"@ + gen_inst_props(properties@)
            + "};\n"@,
    decreases size_seq(properties@), 2int,
{
    let mut properties_text = String::new();
    let length = properties.len();
    let mut i: usize = 0;
    proof {
        assert(properties@.skip(0) =~= properties@);
    }
    while i < length
        invariant
            i <= length,
            length == properties@.len(),
            gen_ok_seq(properties@) <==> gen_ok_seq(properties@.skip(i as int)),
            gen_ok_seq(properties@.skip(i as int)) ==> properties_text@ + gen_inst_props(
                properties@.skip(i as int),
            ) == gen_inst_props(properties@),
        decreases length - i,
    {
        proof {
            lemma_size_seq_elem(properties@, i as int);
            assert(properties@.skip(i as int)[0] == properties@[i as int]);
            assert(properties@.skip(i as int).drop_first() =~= properties@.skip(i as int + 1));
        }
        if let Expression::Keyword(TokenKind::SemiColon) = &properties[i] {
            proof {
                assert(properties@[i as int] matches Expression::Keyword(TokenKind::SemiColon));
                assert(gen_ok(properties@[i as int]));
                assert(gen_ok_seq(properties@.skip(i as int)) == gen_ok_seq(
                    properties@.skip(i as int + 1),
                ));
                assert(Seq::<char>::empty() + gen_inst_props(properties@.skip(i as int + 1))
                    =~= gen_inst_props(properties@.skip(i as int + 1)));
                assert(gen_inst_props(properties@.skip(i as int)) == gen_inst_props(
                    properties@.skip(i as int + 1),
                ));
            }
        } else {
            let piece = match handle_expr(&properties[i]) {
                Ok(piece) => piece,
                Err(e) => {
                    return Err(e);
                },
            };
            properties_text.append(piece.as_str());
            properties_text.append(",\n");
        }
        i = i + 1;
    }
    proof {
        assert(properties@.skip(length as int) =~= Seq::<Expression>::empty());
        assert(properties_text@ + gen_inst_props(properties@.skip(length as int))
            =~= properties_text@);
    }
    let mut s = String::new();
    s.append("new ");
    proof {
        assert(s@ =~= "new "@);
    }
    s.append(name.as_str());
    s.append("{\n");
    s.append(properties_text.as_str());
    s.append("};\n");
    Ok(s)
}

/// Renders a class property as a field: its type, then its name.
pub fn handle_class_property(var_name: &String, var_type: &Type) -> (res: String)
    ensures
        res@ == gen_type(*var_type) + " "@ + var_name@,
{
    let mut s = handle_type(var_type);
    s.append(" ");
    s.append(var_name.as_str());
    s
}

/// Renders a class as a record whose every property is a public field, in
/// declared order; the unimplemented method list renders as nothing.
fn handle_class(
    name: &String,
    properties: &Vec<Expression>,
    functions: &Vec<Expression>,
) -> (res: Result<String, GenerationError>)
    ensures
        res is Ok <==> gen_ok_seq(properties@),
        res matches Ok(s) ==> s@ == "struct "@ + name@ + " {\n"@ + gen_class_props(properties@)
            + "};\n"@,
    decreases size_seq(properties@), 2int,
{
    let mut properties_text = String::new();
    let length = properties.len();
    let mut i: usize = 0;
    proof {
        assert(properties@.skip(0) =~= properties@);
    }
    while i < length
        invariant
            i <= length,
            length == properties@.len(),
            gen_ok_seq(properties@) <==> gen_ok_seq(properties@.skip(i as int)),
            gen_ok_seq(properties@.skip(i as int)) ==> properties_text@ + gen_class_props(
                properties@.skip(i as int),
            ) == gen_class_props(properties@),
        decreases length - i,
    {
        proof {
            lemma_size_seq_elem(properties@, i as int);
            assert(properties@.skip(i as int)[0] == properties@[i as int]);
            assert(properties@.skip(i as int).drop_first() =~= properties@.skip(i as int + 1));
        }
        let piece = match handle_expr(&properties[i]) {
            Ok(piece) => piece,
            Err(e) => {
                return Err(e);
            },
        };
        properties_text.append("public ");
        properties_text.append(piece.as_str());
        properties_text.append(";\n");
        i = i + 1;
    }
    proof {
        assert(properties@.skip(length as int) =~= Seq::<Expression>::empty());
        assert(properties_text@ + gen_class_props(properties@.skip(length as int))
            =~= properties_text@);
    }
    let mut s = String::new();
    s.append("struct ");
    proof {
        assert(s@ =~= "struct "@);
    }
    s.append(name.as_str());
    s.append(" {\n");
    s.append(properties_text.as_str());
    s.append("};\n");
    Ok(s)
}

/// Renders a prefix operator in front of its operand.
fn handle_prefix(prefix: &Token, target: &Expression) -> (res: Result<String, GenerationError>)
    ensures
        res is Ok <==> gen_ok(*target),
        res matches Ok(s) ==> s@ == prefix.value@ + gen_expr(*target),
    decreases size_expr(*target), 2int,
{
    let target_str = handle_expr(target)?;
    let mut s = prefix.value.clone();
    s.append(target_str.as_str());
    Ok(s)
}

/// Renders a grouping by passing its inner rendering through.
fn handle_grouping(expression_inside: &Expression) -> (res: Result<String, GenerationError>)
    ensures
        res is Ok <==> gen_ok(*expression_inside),
        res matches Ok(s) ==> s@ == gen_expr(*expression_inside),
    decreases size_expr(*expression_inside), 2int,
{
    handle_expr(expression_inside)
}

/// Renders bare punctuation: only the statement terminator has a rendering.
pub fn handle_keyword(token_kind: TokenKind) -> (res: Result<String, GenerationError>)
    ensures
        res is Ok <==> token_kind == TokenKind::SemiColon,
        res matches Ok(s) ==> s@ == ";\n"@,
        res matches Err(e) ==> e == GenerationError::UnhandledKeyword(token_kind),
{
    match token_kind {
        TokenKind::SemiColon => Ok(String::from_str(";\n")),
        _ => Err(GenerationError::UnhandledKeyword(token_kind)),
    }
}

/// Renders a variable declaration: mutability selects the absence of a
/// const qualifier, then the renamed type and the variable's name.
pub fn handle_variable_declaration(
    variable_type: &Type,
    variable_name: &String,
    mutable: bool,
) -> (res: String)
    ensures
        res@ == (if mutable {
            Seq::<char>::empty()
        } else {
            "const "@
        }) + gen_type(*variable_type) + " "@ + variable_name@,
{
    let type_str = handle_type(variable_type);
    let mut s = String::new();
    if !mutable {
        s.append("const ");
        proof {
            assert(s@ =~= "const "@);
        }
    }
    s.append(type_str.as_str());
    s.append(" ");
    s.append(variable_name.as_str());
    s
}

/// Renders an assignment: target, operator and value, space-separated.
fn handle_assignment(target: &Expression, operator: &Token, value: &Expression) -> (res: Result<
    String,
    GenerationError,
>)
    ensures
        res is Ok <==> gen_ok(*target) && gen_ok(*value),
        res matches Ok(s) ==> s@ == gen_expr(*target) + " "@ + operator.value@ + " "@ + gen_expr(
            *value,
        ),
    decreases size_expr(*target) + size_expr(*value), 2int,
{
    proof {
        lemma_size_pos(*value);
        lemma_size_pos(*target);
    }
    let target_str = handle_expr(target)?;
    let value_str = handle_expr(value)?;
    let mut s = target_str;
    s.append(" ");
    s.append(operator.value.as_str());
    s.append(" ");
    s.append(value_str.as_str());
    Ok(s)
}

/// Renders a binary operation, parenthesized.
fn handle_binary_expr(left: &Expression, operator: &Token, right: &Expression) -> (res: Result<
    String,
    GenerationError,
>)
    ensures
        res is Ok <==> gen_ok(*left) && gen_ok(*right),
        res matches Ok(s) ==> s@ == "("@ + gen_expr(*left) + " "@ + operator.value@ + " "@
            + gen_expr(*right) + ")"@,
    decreases size_expr(*left) + size_expr(*right), 2int,
{
    proof {
        lemma_size_pos(*left);
        lemma_size_pos(*right);
    }
    let left_str = handle_expr(left)?;
    let right_str = handle_expr(right)?;
    let mut s = String::new();
    s.append("(");
    proof {
        assert(s@ =~= "("@);
    }
    s.append(left_str.as_str());
    s.append(" ");
    s.append(operator.value.as_str());
    s.append(" ");
    s.append(right_str.as_str());
    s.append(")");
    Ok(s)
}

/// Translates an ordered program of top-level nodes to target-language
/// text: each node's rendering, concatenated in order. The first node the
/// generator rejects aborts the whole translation.
pub fn convert_expressions_to_code(expressions: Vec<Expression>) -> (res: Result<
    String,
    GenerationError,
>)
    ensures
        res is Ok <==> gen_ok_seq(expressions@),
        res matches Ok(s) ==> s@ == gen_seq(expressions@),
{
    gen_list(&expressions)
}

/// A for-loop over a range lowers to a bounded counting loop: the counter
/// starts at the rendered range start, the bound test compares it against
/// the rendered range end, and the step is an increment by one.
pub proof fn lemma_for_range_lowering(e: Expression)
    requires
        e matches Expression::For { iterator_name, iteration_target, inside },
    ensures
        e matches Expression::For { iterator_name, iteration_target, inside } ==> (
        *iteration_target matches Expression::Range { from, to } ==> gen_expr(e) == "for(int "@
            + iterator_name@ + " = "@ + gen_expr(*from) + "; "@ + iterator_name@ + " < "@
            + gen_expr(*to) + "; "@ + iterator_name@ + "++)"@ + " {\n"@ + gen_seq(inside@)
            + "}\n"@),
{
}

} // verus!
