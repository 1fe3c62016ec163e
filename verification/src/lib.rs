//! A minimal S-expression scripting language: a lexer, a recursive-descent
//! parser, and a tree-walking evaluator with a small fixed builtin library.
//!
//! The language's meaning is pinned down by a mathematical model: `semantics`
//! defines a spec-level interpreter over `ExprV` (the view of the executable
//! `Expr`), and every executable function is proved to agree with it.
//!
//! Failures travel on two channels, both kept apart on purpose:
//! - fatal aborts (malformed parses, arity and type mismatches in most
//!   builtins, division by zero) are the `Err(Fatal)` branch of a result and
//!   are only intercepted at the `run_code` boundary;
//! - sentinel error values (unbound variables, malformed `set!`, bad `while`
//!   conditions) are ordinary `Var` values whose text begins with a fixed
//!   error prefix, and flow through evaluation as data.

pub mod builtins;
pub mod interpreter;
pub mod numbers;
pub mod runner;
pub mod semantics;
pub mod text;
