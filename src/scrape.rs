//! Front end of a small expression language: literals, arithmetic with the
//! usual precedence, `let` bindings resolved while parsing, `if` expressions,
//! and a structural type checker over the resulting tree.

pub mod ast;
pub mod grammar;
pub mod lexer;
pub mod parser;
pub mod typecheck;

pub use self::ast::{Expr, ExprModel, Oper, TypeRepr, Value, ValueModel};
pub use self::lexer::{ParseError, ParseErrorKind};
pub use self::parser::{
    parse_expr, parse_expr_aux, parse_factor, parse_parens, parse_term, parse_term_aux, parse_value,
    Env, MAX_DEPTH,
};
pub use self::typecheck::{TypeCheck, TypeMismatch};
