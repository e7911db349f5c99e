use vstd::prelude::*;

pub mod ast;
pub mod code_gen;
pub mod expression;
pub mod grammar;
pub mod lexer;
pub mod lookup;
pub mod parser;
pub mod tokens;
pub mod types;

verus! {

/// Relies on std's String::push: appending one character to the end of the
/// string, which vstd leaves unspecified.
pub assume_specification[ std::string::String::push ](s: &mut String, c: char)
    ensures
        final(s)@ == old(s)@.push(c),
;

} // verus!
