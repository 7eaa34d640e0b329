//! The statement and expression tree of the render-graph language.
//!
//! The concrete token grammar is an external collaborator: whatever parses
//! the script hands the interpreter this tree. The language is flat and
//! declarative; there is no branching and no loop.

use vstd::prelude::*;

verus! {

/// One statement of a render-graph script.
#[derive(Debug)]
pub enum Statement {
    /// Binds the value of `value` to the variable `var`; rebinding is allowed.
    Assign { var: String, value: Box<Expr> },
    /// Evaluates `value`, which must name a pass shape, constructs the pass
    /// through the registry and records it under `name`.
    Pass { name: String, value: Box<Expr> },
    /// Records the ordered dependency names of the pass called `pass`.
    Edge { pass: String, dependencies: Vec<String> },
    /// Marks the pass called `pass` as the display target.
    Display { pass: String },
}

/// One expression of a render-graph script.
#[derive(Debug)]
pub enum Expr {
    /// An integer literal.
    Int(i32),
    /// A floating-point literal, carried as the bit pattern of the 32-bit
    /// value. The core never computes with it; it is handed through to the
    /// pass configurations opaquely.
    Float(u32),
    /// A path literal as the grammar captured it, delimiters included; the
    /// first and last character are stripped on evaluation.
    Path(String),
    /// A variable access, yielding the variable's value if bound and
    /// failing if not.
    VarAccess(String),
    /// A bare identifier: `true` and `false` are booleans, anything else
    /// is a unit-struct reference.
    Ident(String),
    /// An argument supplied from the command line.
    Argument {
        /// The name under which an override may have been supplied.
        name: String,
        /// Evaluated when no override was supplied; with no default either,
        /// the reference fails.
        default: Option<Box<Expr>>,
    },
    /// A tuple struct; fields are keyed `"0"`, `"1"`, ... in order.
    TupleStruct { name: String, fields: Vec<Box<Expr>> },
    /// A struct with named fields and an optional `..base` updater naming
    /// a variable whose fields fill whatever the literal left out.
    Struct { name: String, fields: Vec<Box<Field>>, update: Option<String> },
}

/// A named field of a struct expression.
#[derive(Debug)]
pub struct Field {
    pub ident: String,
    pub value: Box<Expr>,
}

/// An argument override, parsed externally from a `NAME=EXPR` string.
#[derive(Debug)]
pub struct PassArg {
    pub name: String,
    pub value: Expr,
}

/// Whether an expression contains no `Argument` reference. Override
/// expressions in the argument table must be argument-free, so that an
/// override can never re-enter the argument table and chase itself.
pub open spec fn arg_free(e: Expr) -> bool
    decreases e,
{
    match e {
        Expr::Int(_) => true,
        Expr::Float(_) => true,
        Expr::Path(_) => true,
        Expr::VarAccess(_) => true,
        Expr::Ident(_) => true,
        Expr::Argument { .. } => false,
        Expr::TupleStruct { name: _, fields } => forall|i: int|
            0 <= i < fields@.len() ==> arg_free(*fields@[i]),
        Expr::Struct { name: _, fields, update: _ } => forall|i: int|
            0 <= i < fields@.len() ==> arg_free(*fields@[i].value),
    }
}

/// Whether every path literal in the expression still has its two
/// delimiter characters. The grammar captures delimiters verbatim, so a
/// well-formed tree satisfies this.
pub open spec fn paths_wf(e: Expr) -> bool
    decreases e,
{
    match e {
        Expr::Int(_) => true,
        Expr::Float(_) => true,
        Expr::Path(p) => p@.len() >= 2,
        Expr::VarAccess(_) => true,
        Expr::Ident(_) => true,
        Expr::Argument { name: _, default } => match default {
            Some(d) => paths_wf(*d),
            None => true,
        },
        Expr::TupleStruct { name: _, fields } => forall|i: int|
            0 <= i < fields@.len() ==> paths_wf(*fields@[i]),
        Expr::Struct { name: _, fields, update: _ } => forall|i: int|
            0 <= i < fields@.len() ==> paths_wf(*fields@[i].value),
    }
}

/// `paths_wf`, lifted to a statement.
pub open spec fn stmt_paths_wf(s: Statement) -> bool {
    match s {
        Statement::Assign { var: _, value } => paths_wf(*value),
        Statement::Pass { name: _, value } => paths_wf(*value),
        Statement::Edge { .. } => true,
        Statement::Display { .. } => true,
    }
}

} // verus!
