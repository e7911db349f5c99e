use vstd::prelude::*;

verus! {

/// The primitive type spellings the language knows, plus a wildcard.
#[derive(Debug, Clone, Copy, PartialEq, Eq, Structural)]
pub enum VariableType {
    I32,
    I64,
    F32,
    F64,
    Str,
    Var,
}

} // verus!
