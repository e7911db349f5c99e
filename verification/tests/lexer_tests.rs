use langc::lexer::tokenize;
use langc::tokens::{Token, TokenKind};

fn lex(src: &str) -> Vec<Token> {
    tokenize(src.to_string(), Vec::new()).expect("lexing failed")
}

fn lex_filtered(src: &str) -> Vec<Token> {
    tokenize(
        src.to_string(),
        vec![TokenKind::WhiteSpace, TokenKind::Comment, TokenKind::NextLine],
    )
    .expect("lexing failed")
}

fn kinds(tokens: &[Token]) -> Vec<TokenKind> {
    tokens.iter().map(|t| t.kind).collect()
}

fn concat_values(tokens: &[Token]) -> String {
    let mut s = String::new();
    for t in &tokens[..tokens.len() - 1] {
        s.push_str(&t.value);
    }
    s
}

#[test]
fn lex_empty_source() {
    let toks = lex("");
    assert_eq!(toks.len(), 1);
    assert_eq!(toks[0].kind, TokenKind::EndOfFile);
    assert_eq!(toks[0].value, "Eof");
    assert_eq!(toks[0].line, 0);
}

#[test]
fn lex_range_vs_decimal() {
    let toks = lex("0..5");
    assert_eq!(
        kinds(&toks),
        vec![
            TokenKind::Number,
            TokenKind::DotDot,
            TokenKind::Number,
            TokenKind::EndOfFile
        ]
    );
    assert_eq!(toks[0].value, "0");
    assert_eq!(toks[1].value, "..");
    assert_eq!(toks[2].value, "5");

    let toks = lex("1.5");
    assert_eq!(kinds(&toks), vec![TokenKind::Number, TokenKind::EndOfFile]);
    assert_eq!(toks[0].value, "1.5");
}

#[test]
fn lex_round_trip_concat() {
    let src = "fn main() {\n    let mut i32 x = 1+2;\n    // note\n    x += \"a b\";\n}\n";
    let toks = lex(src);
    assert_eq!(concat_values(&toks), src);
}

#[test]
fn lex_round_trip_drops_carriage_returns() {
    let toks = lex("a\r\nb");
    assert_eq!(concat_values(&toks), "a\nb");
}

#[test]
fn lex_blacklist_suppression_keeps_lines() {
    let toks = lex_filtered("let x = 1;\nlet y = 2;");
    assert_eq!(
        kinds(&toks),
        vec![
            TokenKind::Let,
            TokenKind::Identifier,
            TokenKind::Assignment,
            TokenKind::Number,
            TokenKind::SemiColon,
            TokenKind::Let,
            TokenKind::Identifier,
            TokenKind::Assignment,
            TokenKind::Number,
            TokenKind::SemiColon,
            TokenKind::EndOfFile
        ]
    );
    assert_eq!(toks[0].line, 0);
    assert_eq!(toks[4].line, 0);
    assert_eq!(toks[5].line, 1);
    assert_eq!(toks[6].value, "y");
    assert_eq!(toks[9].line, 1);
}

#[test]
fn lex_comment_emits_line_break() {
    let toks = lex("a // hi\nb");
    assert_eq!(
        kinds(&toks),
        vec![
            TokenKind::Identifier,
            TokenKind::WhiteSpace,
            TokenKind::Comment,
            TokenKind::NextLine,
            TokenKind::Identifier,
            TokenKind::EndOfFile
        ]
    );
    assert_eq!(toks[2].value, "// hi");
    assert_eq!(toks[3].line, 1);
    assert_eq!(toks[4].line, 1);
}

#[test]
fn lex_comment_at_end_without_break() {
    let toks = lex("a // tail");
    assert_eq!(
        kinds(&toks),
        vec![
            TokenKind::Identifier,
            TokenKind::WhiteSpace,
            TokenKind::Comment,
            TokenKind::EndOfFile
        ]
    );
    assert_eq!(toks[2].value, "// tail");
}

#[test]
fn lex_keywords_and_identifiers() {
    let toks = lex_filtered("let letx fn while zed return mut");
    assert_eq!(
        kinds(&toks),
        vec![
            TokenKind::Let,
            TokenKind::Identifier,
            TokenKind::Fn,
            TokenKind::While,
            TokenKind::Identifier,
            TokenKind::Return,
            TokenKind::Mut,
            TokenKind::EndOfFile
        ]
    );
    assert_eq!(toks[1].value, "letx");
    assert_eq!(toks[4].value, "zed");
}

#[test]
fn lex_multi_char_operators_win() {
    let toks = lex_filtered("a<=b==c&&d->e");
    assert_eq!(
        kinds(&toks),
        vec![
            TokenKind::Identifier,
            TokenKind::LessEquals,
            TokenKind::Identifier,
            TokenKind::Equals,
            TokenKind::Identifier,
            TokenKind::And,
            TokenKind::Identifier,
            TokenKind::Arrow,
            TokenKind::Identifier,
            TokenKind::EndOfFile
        ]
    );
}

#[test]
fn lex_single_char_operators() {
    let toks = lex_filtered("a<b=c!d");
    assert_eq!(
        kinds(&toks),
        vec![
            TokenKind::Identifier,
            TokenKind::Less,
            TokenKind::Identifier,
            TokenKind::Assignment,
            TokenKind::Identifier,
            TokenKind::Not,
            TokenKind::Identifier,
            TokenKind::EndOfFile
        ]
    );
}

#[test]
fn lex_string_keeps_quotes() {
    let toks = lex_filtered("\"hi there\"");
    assert_eq!(kinds(&toks), vec![TokenKind::String, TokenKind::EndOfFile]);
    assert_eq!(toks[0].value, "\"hi there\"");
}

#[test]
fn lex_interpolated_string_keeps_marker() {
    let toks = lex_filtered("$\"[{x}]\"");
    assert_eq!(kinds(&toks), vec![TokenKind::String, TokenKind::EndOfFile]);
    assert_eq!(toks[0].value, "$\"[{x}]\"");
}

#[test]
fn lex_string_spanning_lines() {
    let toks = lex_filtered("\"a\nb\"c");
    assert_eq!(
        kinds(&toks),
        vec![TokenKind::String, TokenKind::Identifier, TokenKind::EndOfFile]
    );
    assert_eq!(toks[0].line, 1);
    assert_eq!(toks[1].line, 1);
}

#[test]
fn lex_error_reports_remainder() {
    let err = tokenize("a | b".to_string(), Vec::new()).unwrap_err();
    assert_eq!(err.remainder, "| b");
}

#[test]
fn lex_error_lone_interpolation_marker() {
    let err = tokenize("$x".to_string(), Vec::new()).unwrap_err();
    assert_eq!(err.remainder, "$x");
}

#[test]
fn lex_double_pipe_and_ampersand() {
    let toks = lex_filtered("a||b&&c");
    assert_eq!(
        kinds(&toks),
        vec![
            TokenKind::Identifier,
            TokenKind::Or,
            TokenKind::Identifier,
            TokenKind::And,
            TokenKind::Identifier,
            TokenKind::EndOfFile
        ]
    );
}

#[test]
fn lex_number_at_end_of_source() {
    let toks = lex("12");
    assert_eq!(kinds(&toks), vec![TokenKind::Number, TokenKind::EndOfFile]);
    assert_eq!(toks[0].value, "12");
}

#[test]
fn lex_trailing_dot_not_part_of_number() {
    let toks = lex("1.");
    assert_eq!(
        kinds(&toks),
        vec![TokenKind::Number, TokenKind::Dot, TokenKind::EndOfFile]
    );
    assert_eq!(toks[0].value, "1");
}

#[test]
fn lex_second_dot_starts_fresh_token() {
    let toks = lex("1.2.3");
    assert_eq!(
        kinds(&toks),
        vec![
            TokenKind::Number,
            TokenKind::Dot,
            TokenKind::Number,
            TokenKind::EndOfFile
        ]
    );
    assert_eq!(toks[0].value, "1.2");
    assert_eq!(toks[2].value, "3");
}

#[test]
fn lex_reserved_table_shape() {
    let table = langc::lexer::reserved_symbols();
    assert_eq!(table.len(), 18);
    assert_eq!(table[0].0, "mut");
    assert_eq!(table[0].1, TokenKind::Mut);
    assert_eq!(table[17].0, "return");
    assert_eq!(table[17].1, TokenKind::Return);
}

#[test]
fn lex_blacklist_cannot_suppress_eof() {
    let toks = langc::lexer::tokenize("a".to_string(), vec![TokenKind::EndOfFile]).unwrap();
    assert_eq!(kinds(&toks), vec![TokenKind::Identifier, TokenKind::EndOfFile]);
}

#[test]
fn lex_symbol_with_digits_and_underscore() {
    let toks = lex("x_1y");
    assert_eq!(kinds(&toks), vec![TokenKind::Identifier, TokenKind::EndOfFile]);
    assert_eq!(toks[0].value, "x_1y");
}
