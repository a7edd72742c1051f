//! Yarer: an expression resolver that compiles infix math expressions into
//! reverse Polish notation and evaluates them over exact integers and
//! rationals, against an environment of named variables.

/// Arbitrary-precision integers as two's-complement bytes.
pub mod integer;
/// Exact rationals in lowest terms.
pub mod rational;
/// Numbers, operators and tokens.
pub mod token;
/// The environment of named variables.
pub mod session;
/// Postfix conversion and evaluation.
pub mod rpn_resolver;
/// The lexer: from text to infix tokens.
pub mod parser;
