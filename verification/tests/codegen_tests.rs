use langc::code_gen::{
    convert_expressions_to_code, handle_keyword, handle_variable_declaration, GenerationError,
};
use langc::expression::Expression;
use langc::tokens::TokenKind;
use langc::types::Type;

fn compile(src: &str) -> String {
    let tokens = langc::lexer::tokenize(
        src.to_string(),
        vec![TokenKind::WhiteSpace, TokenKind::Comment, TokenKind::NextLine],
    )
    .expect("lexing failed");
    let program = langc::parser::parse(tokens).expect("parsing failed");
    convert_expressions_to_code(program).expect("generation failed")
}

fn compile_err(src: &str) -> GenerationError {
    let tokens = langc::lexer::tokenize(
        src.to_string(),
        vec![TokenKind::WhiteSpace, TokenKind::Comment, TokenKind::NextLine],
    )
    .expect("lexing failed");
    let program = langc::parser::parse(tokens).expect("parsing failed");
    convert_expressions_to_code(program).unwrap_err()
}

#[test]
fn gen_mutable_declaration() {
    assert_eq!(compile("let mut i32 x = 1+2;"), "long x = (1 + 2);\n");
}

#[test]
fn gen_const_declaration() {
    assert_eq!(compile("let i32 x = 1;"), "const long x = 1;\n");
}

#[test]
fn gen_for_range_lowering() {
    assert_eq!(compile("for i in 0..5{x;}"), "for(int i = 0; i < 5; i++) {\nx;\n}\n");
}

#[test]
fn gen_for_identifier_lowering() {
    assert_eq!(compile("for i in xs{y;}"), "foreach(var i in xs) {\ny;\n}\n");
}

#[test]
fn gen_if_statement() {
    assert_eq!(compile("if x < 2 { y; }"), "if((x < 2)){\ny;\n}\n");
}

#[test]
fn gen_while_statement() {
    assert_eq!(compile("while x { y; }"), "while(x){\ny;\n}\n");
}

#[test]
fn gen_function() {
    assert_eq!(
        compile("fn pub add(a i32, b i32) -> i32 { return a + b; }"),
        "public  long add(a long, b long){\nreturn (a + b);\n}"
    );
}

#[test]
fn gen_function_void_private() {
    assert_eq!(compile("fn f() { x; }"), " void f(){\nx;\n}");
}

#[test]
fn gen_class() {
    assert_eq!(
        compile("class Point { i32 x; str name; }"),
        "struct Point {\npublic long x;\npublic string name;\n};\n"
    );
}

#[test]
fn gen_array_initialization() {
    assert_eq!(compile("{1;2;3;}"), "{1, 2, 3}");
}

#[test]
fn gen_member_access() {
    assert_eq!(compile("a.b;"), "a.b;\n");
}

#[test]
fn gen_prefix_operator() {
    assert_eq!(compile("-x;"), "-x;\n");
}

#[test]
fn gen_string_statement() {
    assert_eq!(compile("\"hi\";"), "\"\"hi\"\";\n");
}

#[test]
fn gen_assignment_operator_text() {
    assert_eq!(compile("x += 1;"), "x += 1;\n");
}

#[test]
fn gen_type_rename_table() {
    assert_eq!(compile("let i16 a = b;"), "const int a = b;\n");
    assert_eq!(compile("let u32 a = b;"), "const ulong a = b;\n");
    assert_eq!(compile("let u16 a = b;"), "const uint a = b;\n");
    assert_eq!(compile("let str a = b;"), "const string a = b;\n");
}

#[test]
fn gen_unknown_type_passes_through() {
    assert_eq!(compile("let MyType a = b;"), "const MyType a = b;\n");
}

#[test]
fn gen_array_type_collapses_dimensions() {
    assert_eq!(compile("let i32[] a = b;"), "const long[] a = b;\n");
    assert_eq!(compile("let i32[,] a = b;"), "const long[] a = b;\n");
}

#[test]
fn gen_class_instantiation() {
    let program = vec![Expression::ClassInstantiation {
        name: "Point".to_string(),
        properties: vec![
            Expression::Number("1".to_string()),
            Expression::Keyword(TokenKind::SemiColon),
            Expression::Number("2".to_string()),
        ],
    }];
    assert_eq!(convert_expressions_to_code(program).unwrap(), "new Point{\n1,\n2,\n};\n");
}

#[test]
fn gen_error_misplaced_range() {
    assert_eq!(compile_err("0..5;"), GenerationError::MisplacedRange);
}

#[test]
fn gen_error_invalid_iteration_target() {
    assert_eq!(compile_err("for i in 5{x;}"), GenerationError::InvalidIterationTarget);
}

#[test]
fn gen_error_unhandled_keyword() {
    assert_eq!(compile_err("{1,2}"), GenerationError::UnhandledKeyword(TokenKind::Comma));
}

#[test]
fn gen_error_class_function() {
    let program = vec![Expression::ClassFunction { name: "m".to_string() }];
    assert_eq!(
        convert_expressions_to_code(program).unwrap_err(),
        GenerationError::UnimplementedClassFunction
    );
}

#[test]
fn gen_variable_declaration_direct() {
    let rendered = handle_variable_declaration(
        &Type::Symbol("i16".to_string()),
        &"n".to_string(),
        false,
    );
    assert_eq!(rendered, "const int n");
    let rendered = handle_variable_declaration(
        &Type::Symbol("i16".to_string()),
        &"n".to_string(),
        true,
    );
    assert_eq!(rendered, "int n");
}

#[test]
fn gen_keyword_direct() {
    assert_eq!(handle_keyword(TokenKind::SemiColon).unwrap(), ";\n");
    assert_eq!(
        handle_keyword(TokenKind::If).unwrap_err(),
        GenerationError::UnhandledKeyword(TokenKind::If)
    );
}

#[test]
fn gen_whole_program_in_order() {
    let src = "let mut i32 x = 0;while x < 3 { x += 1; }";
    assert_eq!(compile(src), "long x = 0;\nwhile((x < 3)){\nx += 1;\n}\n");
}
