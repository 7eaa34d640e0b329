//! The interpreter: executes a script's statements in order.
//!
//! State is a symbol table, a read-only argument table supplied at
//! construction, and the outputs: named passes, declared edges, and the
//! display target. Expression evaluation is specified by `eval_expr`, a
//! view-level evaluator; `run_expr` is proved to agree with it exactly,
//! errors included.

use vstd::prelude::*;
use vstd::string::StringExecFns;

use crate::parser::ast::{arg_free, paths_wf, stmt_paths_wf, Expr, Field, PassArg, Statement};
use crate::pass::{PassBinder, PassRegistry};
use crate::table::{lemma_table_keys_insert, table_keys};
use crate::parser::value::{
    fields_view, lemma_fields_view_index, lemma_fields_view_insert, lemma_fields_view_wf,
    ParsedValue, ValueView,
};
use crate::table::{
    kv_contains, kv_get, kv_insert, kv_wf, table_contains, table_get, table_index_of, table_insert,
    table_lookup, table_spec_insert, table_wf,
};
use crate::text::{decimal_string, lemma_decimal_injective, spec_decimal};
use crate::pass::RenderPassError;
use crate::pass::RenderPassErrorView;

verus! {

/// The mathematical model of an `InterpreterError`.
pub enum InterpreterErrorView {
    UndefinedVariable(Seq<char>),
    InvalidPassAssignment(Seq<char>),
    MultipleDisplays,
    InvalidType(Seq<char>, Seq<char>),
    MissingArgument(Seq<char>),
    RenderPass(RenderPassErrorView),
}

/// An error from running a script.
#[derive(Debug, Clone, PartialEq, Eq)]
pub enum InterpreterError {
    /// A variable was read before any assignment to it.
    UndefinedVariable(String),
    /// A pass statement's value is not struct-shaped; carries the pass's
    /// declared name.
    InvalidPassAssignment(String),
    /// A second display statement.
    MultipleDisplays,
    /// A struct update's base has the wrong shape; carries the expected
    /// and the actual description.
    InvalidType(String, String),
    /// An argument without an override or a default; carries its name.
    MissingArgument(String),
    /// Pass construction failed: the pass is unknown, or binding its
    /// configuration failed.
    RenderPass(RenderPassError),
}

impl View for InterpreterError {
    type V = InterpreterErrorView;

    open spec fn view(&self) -> InterpreterErrorView {
        match self {
            InterpreterError::UndefinedVariable(v) => InterpreterErrorView::UndefinedVariable(v@),
            InterpreterError::InvalidPassAssignment(n) => InterpreterErrorView::InvalidPassAssignment(
                n@,
            ),
            InterpreterError::MultipleDisplays => InterpreterErrorView::MultipleDisplays,
            InterpreterError::InvalidType(e, a) => InterpreterErrorView::InvalidType(e@, a@),
            InterpreterError::MissingArgument(n) => InterpreterErrorView::MissingArgument(n@),
            InterpreterError::RenderPass(e) => InterpreterErrorView::RenderPass(e@),
        }
    }
}

/// Whether every override expression in an argument table is
/// argument-free. Evaluation only unfolds over such tables: an override
/// that could re-enter the table would let evaluation chase itself
/// forever.
pub open spec fn arg_table_wf(args: Seq<(String, Expr)>) -> bool {
    forall|i: int| 0 <= i < args.len() ==> arg_free((#[trigger] args[i]).1)
}

/// Zero for an argument-free expression, one otherwise; the leading
/// component of evaluation's termination measure. Resolving an override
/// steps from a non-argument-free expression to an argument-free one.
pub open spec fn expr_bit(e: Expr) -> int {
    if arg_free(e) {
        0int
    } else {
        1int
    }
}

/// `expr_bit` over a tuple struct's field list.
pub open spec fn exprs_bit(es: Seq<Box<Expr>>) -> int {
    if forall|i: int| 0 <= i < es.len() ==> arg_free(*(#[trigger] es[i])) {
        0int
    } else {
        1int
    }
}

/// `expr_bit` over a struct's named field list.
pub open spec fn named_bit(fs: Seq<Box<Field>>) -> int {
    if forall|i: int| 0 <= i < fs.len() ==> arg_free(*(#[trigger] fs[i]).value) {
        0int
    } else {
        1int
    }
}

/// Fills every base field absent from `lit` in at the end, in base order:
/// the struct-update semantics, literal fields winning.
pub open spec fn absorb_base(
    lit: Seq<(Seq<char>, ValueView)>,
    base: Seq<(Seq<char>, ValueView)>,
) -> Seq<(Seq<char>, ValueView)>
    decreases base,
{
    if base.len() == 0 {
        lit
    } else {
        absorb_base(
            if kv_contains(lit, base[0].0) {
                lit
            } else {
                lit.push(base[0])
            },
            base.drop_first(),
        )
    }
}

/// What an expression evaluates to, over the views of the symbol and
/// argument tables. Errors are the first in left-to-right evaluation
/// order.
pub open spec fn eval_expr(
    syms: Seq<(Seq<char>, ValueView)>,
    args: Seq<(String, Expr)>,
    e: Expr,
) -> Result<ValueView, InterpreterErrorView>
    decreases expr_bit(e), e, 0int,
        when arg_table_wf(args)
{
    match e {
        Expr::Int(v) => Ok(ValueView::Int(v)),
        Expr::Float(bits) => Ok(ValueView::Float(bits)),
        Expr::Path(p) => Ok(ValueView::Path(p@.subrange(1, p@.len() - 1))),
        Expr::VarAccess(var) => if kv_contains(syms, var@) {
            Ok(kv_get(syms, var@))
        } else {
            Err(InterpreterErrorView::UndefinedVariable(var@))
        },
        Expr::Ident(ident) => if ident@ == "true"@ {
            Ok(ValueView::Bool(true))
        } else if ident@ == "false"@ {
            Ok(ValueView::Bool(false))
        } else {
            Ok(ValueView::UnitStruct(ident@))
        },
        Expr::Argument { name, default } => if table_contains(args, name@) {
            eval_expr(syms, args, table_get(args, name@))
        } else {
            match default {
                Some(d) => eval_expr(syms, args, *d),
                None => Err(InterpreterErrorView::MissingArgument(name@)),
            }
        },
        Expr::TupleStruct { name, fields } => match eval_exprs(syms, args, fields@) {
            Ok(vals) => Ok(
                ValueView::Struct {
                    name: name@,
                    fields: Seq::new(vals.len(), |i: int| (spec_decimal(i as nat), vals[i])),
                },
            ),
            Err(er) => Err(er),
        },
        Expr::Struct { name, fields, update } => match eval_named_fields(syms, args, fields@) {
            Err(er) => Err(er),
            Ok(fv) => match update {
                None => Ok(ValueView::Struct { name: name@, fields: fv }),
                Some(base) => if !kv_contains(syms, base@) {
                    Err(InterpreterErrorView::UndefinedVariable(base@))
                } else {
                    let bv = kv_get(syms, base@);
                    match bv.struct_name() {
                        None => Err(
                            InterpreterErrorView::InvalidType(
                                "struct `"@ + name@ + "`"@,
                                bv.type_label(),
                            ),
                        ),
                        Some(bn) => if bn != name@ {
                            Err(
                                InterpreterErrorView::InvalidType(
                                    "struct `"@ + name@ + "`"@,
                                    "struct `"@ + bn + "`"@,
                                ),
                            )
                        } else {
                            Ok(
                                ValueView::Struct {
                                    name: name@,
                                    fields: absorb_base(fv, bv.struct_fields()),
                                },
                            )
                        },
                    }
                },
            },
        },
    }
}

/// A prefix error stays the result however far evaluation of a tuple
/// struct's fields would continue.
proof fn lemma_eval_exprs_prefix_err(
    syms: Seq<(Seq<char>, ValueView)>,
    args: Seq<(String, Expr)>,
    es: Seq<Box<Expr>>,
    i: int,
    j: int,
)
    requires
        arg_table_wf(args),
        0 <= i <= j <= es.len(),
        eval_exprs(syms, args, es.subrange(0, i)) is Err,
    ensures
        eval_exprs(syms, args, es.subrange(0, j)) == eval_exprs(syms, args, es.subrange(0, i)),
    decreases j - i,
{
    if j > i {
        lemma_eval_exprs_prefix_err(syms, args, es, i, j - 1);
        assert(es.subrange(0, j).drop_last() =~= es.subrange(0, j - 1));
    }
}

/// A prefix error stays the result however far evaluation of a struct's
/// named fields would continue.
proof fn lemma_eval_named_prefix_err(
    syms: Seq<(Seq<char>, ValueView)>,
    args: Seq<(String, Expr)>,
    fs: Seq<Box<Field>>,
    i: int,
    j: int,
)
    requires
        arg_table_wf(args),
        0 <= i <= j <= fs.len(),
        eval_named_fields(syms, args, fs.subrange(0, i)) is Err,
    ensures
        eval_named_fields(syms, args, fs.subrange(0, j)) == eval_named_fields(
            syms,
            args,
            fs.subrange(0, i),
        ),
    decreases j - i,
{
    if j > i {
        lemma_eval_named_prefix_err(syms, args, fs, i, j - 1);
        assert(fs.subrange(0, j).drop_last() =~= fs.subrange(0, j - 1));
    }
}

/// Evaluates a tuple struct's field expressions in order.
pub open spec fn eval_exprs(
    syms: Seq<(Seq<char>, ValueView)>,
    args: Seq<(String, Expr)>,
    es: Seq<Box<Expr>>,
) -> Result<Seq<ValueView>, InterpreterErrorView>
    decreases exprs_bit(es), es, 1int,
        when arg_table_wf(args)
{
    if es.len() == 0 {
        Ok(Seq::empty())
    } else {
        match eval_exprs(syms, args, es.drop_last()) {
            Err(er) => Err(er),
            Ok(vs) => match eval_expr(syms, args, *es.last()) {
                Err(er) => Err(er),
                Ok(v) => Ok(vs.push(v)),
            },
        }
    }
}

/// Evaluates a struct literal's named fields in order into a field
/// table; a repeated field name overwrites in place.
pub open spec fn eval_named_fields(
    syms: Seq<(Seq<char>, ValueView)>,
    args: Seq<(String, Expr)>,
    fs: Seq<Box<Field>>,
) -> Result<Seq<(Seq<char>, ValueView)>, InterpreterErrorView>
    decreases named_bit(fs), fs, 1int,
        when arg_table_wf(args)
{
    if fs.len() == 0 {
        Ok(Seq::empty())
    } else {
        match eval_named_fields(syms, args, fs.drop_last()) {
            Err(er) => Err(er),
            Ok(acc) => match eval_expr(syms, args, *fs.last().value) {
                Err(er) => Err(er),
                Ok(v) => Ok(kv_insert(acc, fs.last().ident@, v)),
            },
        }
    }
}

/// The view of an optional display target.
pub open spec fn opt_name_view(d: Option<String>) -> Option<Seq<char>> {
    match d {
        Some(s) => Some(s@),
        None => None,
    }
}

/// The display target after the statements run without error, given the
/// one set before; a later display statement would fail, so the first
/// one decides.
pub open spec fn display_name_after(
    acc: Option<Seq<char>>,
    stmts: Seq<Statement>,
) -> Option<Seq<char>>
    decreases stmts,
{
    if stmts.len() == 0 {
        acc
    } else {
        display_name_after(
            match stmts[0] {
                Statement::Display { pass } => Some(pass@),
                _ => acc,
            },
            stmts.drop_first(),
        )
    }
}

/// The edge table after the statements run without error.
pub open spec fn edges_after(
    acc: Seq<(String, Vec<String>)>,
    stmts: Seq<Statement>,
) -> Seq<(String, Vec<String>)>
    decreases stmts,
{
    if stmts.len() == 0 {
        acc
    } else {
        edges_after(
            match stmts[0] {
                Statement::Edge { pass, dependencies } => table_spec_insert(
                    acc,
                    pass,
                    dependencies,
                ),
                _ => acc,
            },
            stmts.drop_first(),
        )
    }
}

/// The recorded pass names, in table order, after the statements run
/// without error.
pub open spec fn pass_names_after(acc: Seq<Seq<char>>, stmts: Seq<Statement>) -> Seq<Seq<char>>
    decreases stmts,
{
    if stmts.len() == 0 {
        acc
    } else {
        pass_names_after(
            match stmts[0] {
                Statement::Pass { name, value: _ } => if acc.contains(name@) {
                    acc
                } else {
                    acc.push(name@)
                },
                _ => acc,
            },
            stmts.drop_first(),
        )
    }
}

/// The symbol table after the statements run without error: assignment
/// statements bind their evaluated value; nothing else touches it. The
/// fold carries on unchanged past a failing assignment, which a run
/// never executes beyond anyway.
pub open spec fn syms_after(
    args: Seq<(String, Expr)>,
    acc: Seq<(Seq<char>, ValueView)>,
    stmts: Seq<Statement>,
) -> Seq<(Seq<char>, ValueView)>
    decreases stmts,
{
    if stmts.len() == 0 {
        acc
    } else {
        syms_after(
            args,
            match stmts[0] {
                Statement::Assign { var, value } => match eval_expr(acc, args, *value) {
                    Ok(v) => kv_insert(acc, var@, v),
                    Err(_) => acc,
                },
                _ => acc,
            },
            stmts.drop_first(),
        )
    }
}

/// What one statement does, as far as the library alone decides it: it
/// fails with a definite error, it succeeds, or — a pass statement
/// whose value is struct-shaped and whose type name is registered — the
/// outside binder decides between a pass instance and a binding error.
pub enum StmtVerdict {
    Succeeds,
    BinderDecides,
    Fails(InterpreterErrorView),
}

/// The verdict of one statement against the symbol table and display
/// state it runs under.
pub open spec fn stmt_verdict(
    args: Seq<(String, Expr)>,
    registry_names: Seq<Seq<char>>,
    syms: Seq<(Seq<char>, ValueView)>,
    display_set: bool,
    stmt: Statement,
) -> StmtVerdict {
    match stmt {
        Statement::Assign { var: _, value } => match eval_expr(syms, args, *value) {
            Ok(_) => StmtVerdict::Succeeds,
            Err(e) => StmtVerdict::Fails(e),
        },
        Statement::Pass { name, value } => match eval_expr(syms, args, *value) {
            Err(e) => StmtVerdict::Fails(e),
            Ok(v) => match v.struct_name() {
                None => StmtVerdict::Fails(InterpreterErrorView::InvalidPassAssignment(name@)),
                Some(ty) => if registry_names.contains(ty) {
                    StmtVerdict::BinderDecides
                } else {
                    StmtVerdict::Fails(
                        InterpreterErrorView::RenderPass(RenderPassErrorView::UnknownPass(ty)),
                    )
                },
            },
        },
        Statement::Edge { .. } => StmtVerdict::Succeeds,
        Statement::Display { .. } => if display_set {
            StmtVerdict::Fails(InterpreterErrorView::MultipleDisplays)
        } else {
            StmtVerdict::Succeeds
        },
    }
}

/// The verdict of the statement at position `i`, under the
/// deterministic state its error-free prefix produces.
pub open spec fn verdict_at(
    args: Seq<(String, Expr)>,
    registry_names: Seq<Seq<char>>,
    init_syms: Seq<(Seq<char>, ValueView)>,
    init_display: Option<Seq<char>>,
    stmts: Seq<Statement>,
    i: int,
) -> StmtVerdict {
    stmt_verdict(
        args,
        registry_names,
        syms_after(args, init_syms, stmts.subrange(0, i)),
        display_name_after(init_display, stmts.subrange(0, i)) is Some,
        stmts[i],
    )
}

/// Extending the statements by one steps the display fold once.
proof fn lemma_display_name_after_snoc(acc: Option<Seq<char>>, stmts: Seq<Statement>, x: Statement)
    ensures
        display_name_after(acc, stmts.push(x)) == (match x {
            Statement::Display { pass } => Some(pass@),
            _ => display_name_after(acc, stmts),
        }),
    decreases stmts,
{
    reveal_with_fuel(display_name_after, 3);
    if stmts.len() == 0 {
        assert(stmts.push(x).drop_first() =~= Seq::<Statement>::empty());
    } else {
        assert(stmts.push(x).drop_first() =~= stmts.drop_first().push(x));
        lemma_display_name_after_snoc(
            match stmts[0] {
                Statement::Display { pass } => Some(pass@),
                _ => acc,
            },
            stmts.drop_first(),
            x,
        );
    }
}

/// Extending the statements by one steps the edge fold once.
proof fn lemma_edges_after_snoc(acc: Seq<(String, Vec<String>)>, stmts: Seq<Statement>, x: Statement)
    ensures
        edges_after(acc, stmts.push(x)) == (match x {
            Statement::Edge { pass, dependencies } => table_spec_insert(
                edges_after(acc, stmts),
                pass,
                dependencies,
            ),
            _ => edges_after(acc, stmts),
        }),
    decreases stmts,
{
    reveal_with_fuel(edges_after, 3);
    if stmts.len() == 0 {
        assert(stmts.push(x).drop_first() =~= Seq::<Statement>::empty());
    } else {
        assert(stmts.push(x).drop_first() =~= stmts.drop_first().push(x));
        lemma_edges_after_snoc(
            match stmts[0] {
                Statement::Edge { pass, dependencies } => table_spec_insert(
                    acc,
                    pass,
                    dependencies,
                ),
                _ => acc,
            },
            stmts.drop_first(),
            x,
        );
    }
}

/// Extending the statements by one steps the pass-name fold once.
proof fn lemma_pass_names_after_snoc(acc: Seq<Seq<char>>, stmts: Seq<Statement>, x: Statement)
    ensures
        pass_names_after(acc, stmts.push(x)) == (match x {
            Statement::Pass { name, value: _ } => if pass_names_after(acc, stmts).contains(
                name@,
            ) {
                pass_names_after(acc, stmts)
            } else {
                pass_names_after(acc, stmts).push(name@)
            },
            _ => pass_names_after(acc, stmts),
        }),
    decreases stmts,
{
    reveal_with_fuel(pass_names_after, 3);
    if stmts.len() == 0 {
        assert(stmts.push(x).drop_first() =~= Seq::<Statement>::empty());
    } else {
        assert(stmts.push(x).drop_first() =~= stmts.drop_first().push(x));
        lemma_pass_names_after_snoc(
            match stmts[0] {
                Statement::Pass { name, value: _ } => if acc.contains(name@) {
                    acc
                } else {
                    acc.push(name@)
                },
                _ => acc,
            },
            stmts.drop_first(),
            x,
        );
    }
}

/// Extending the statements by one steps the symbol fold once.
proof fn lemma_syms_after_snoc(
    args: Seq<(String, Expr)>,
    acc: Seq<(Seq<char>, ValueView)>,
    stmts: Seq<Statement>,
    x: Statement,
)
    ensures
        syms_after(args, acc, stmts.push(x)) == (match x {
            Statement::Assign { var, value } => match eval_expr(
                syms_after(args, acc, stmts),
                args,
                *value,
            ) {
                Ok(v) => kv_insert(syms_after(args, acc, stmts), var@, v),
                Err(_) => syms_after(args, acc, stmts),
            },
            _ => syms_after(args, acc, stmts),
        }),
    decreases stmts,
{
    reveal_with_fuel(syms_after, 3);
    if stmts.len() == 0 {
        assert(stmts.push(x).drop_first() =~= Seq::<Statement>::empty());
    } else {
        assert(stmts.push(x).drop_first() =~= stmts.drop_first().push(x));
        lemma_syms_after_snoc(
            args,
            match stmts[0] {
                Statement::Assign { var, value } => match eval_expr(acc, args, *value) {
                    Ok(v) => kv_insert(acc, var@, v),
                    Err(_) => acc,
                },
                _ => acc,
            },
            stmts.drop_first(),
            x,
        );
    }
}

/// Renders a runtime type expectation such as ``struct `Foo` `` for error
/// messages.
fn struct_label(name: &String) -> (r: String)
    ensures
        r@ == "struct `"@ + name@ + "`"@,
{
    let mut s = "struct `".to_owned();
    s.append(name.as_str());
    s.append("`");
    s
}

/// The argument table built from the override list; a repeated name keeps
/// the last override.
pub open spec fn args_table(list: Seq<PassArg>) -> Seq<(String, Expr)>
    decreases list,
{
    if list.len() == 0 {
        Seq::empty()
    } else {
        table_spec_insert(args_table(list.drop_last()), list.last().name, list.last().value)
    }
}

/// Executes a script's statements over a symbol table and an externally
/// supplied argument table, accumulating named passes, declared edges and
/// the display target.
pub struct Interpreter<P> {
    /// The passes recorded so far, by logical name.
    pub passes: Vec<(String, P)>,
    /// The declared dependency names of each pass, by logical name.
    pub edges: Vec<(String, Vec<String>)>,
    /// The display target, once declared.
    pub display: Option<String>,
    /// The symbol table; mutated only by assignment statements.
    pub symbols: Vec<(String, ParsedValue)>,
    /// The argument table; read-only after construction.
    pub args: Vec<(String, Expr)>,
}

impl<P> Interpreter<P> {
    /// The interpreter's tables are well-formed: distinct keys
    /// everywhere, argument-free and delimiter-intact override
    /// expressions, and well-formed symbol values.
    pub open spec fn inv(self) -> bool {
        &&& table_wf(self.args@)
        &&& arg_table_wf(self.args@)
        &&& forall|i: int| 0 <= i < self.args@.len() ==> paths_wf((#[trigger] self.args@[i]).1)
        &&& table_wf(self.symbols@)
        &&& forall|i: int| 0 <= i < self.symbols@.len() ==> (#[trigger] self.symbols@[i]).1@.wf()
        &&& table_wf(self.passes@)
        &&& table_wf(self.edges@)
    }

    /// Builds an interpreter whose argument table holds the supplied
    /// overrides, the last override of a name winning.
    ///
    /// Overrides must be argument-free — an override that read the
    /// argument table could chase itself forever — and must carry their
    /// path delimiters, as the grammar produces them.
    pub fn new(overrides: Vec<PassArg>) -> (r: Interpreter<P>)
        requires
            forall|i: int|
                0 <= i < overrides@.len() ==> arg_free((#[trigger] overrides@[i]).value) && paths_wf(
                    overrides@[i].value,
                ),
        ensures
            r.inv(),
            r.passes@ == Seq::<(String, P)>::empty(),
            r.edges@ == Seq::<(String, Vec<String>)>::empty(),
            r.display is None,
            r.symbols@ == Seq::<(String, ParsedValue)>::empty(),
            r.args@ == args_table(overrides@),
    {
        let ghost all = overrides@;
        let mut rest = overrides;
        let mut args: Vec<(String, Expr)> = Vec::new();
        let ghost mut done: int = 0;
        while rest.len() > 0
            invariant
                0 <= done <= all.len(),
                rest@ == all.skip(done),
                table_wf(args@),
                args@ == args_table(all.subrange(0, done)),
                forall|i: int|
                    0 <= i < all.len() ==> arg_free((#[trigger] all[i]).value) && paths_wf(
                        all[i].value,
                    ),
                forall|i: int|
                    0 <= i < args@.len() ==> arg_free((#[trigger] args@[i]).1) && paths_wf(
                        args@[i].1,
                    ),
            decreases rest@.len(),
        {
            let arg = rest.remove(0);
            proof {
                assert(arg == all[done]);
                assert(rest@ =~= all.skip(done + 1));
            }
            let ghost pre = args@;
            table_insert(&mut args, arg.name, arg.value);
            proof {
                done = done + 1;
                assert(all.subrange(0, done).drop_last() =~= all.subrange(0, done - 1));
                assert(all.subrange(0, done).last() == all[done - 1]);
                assert forall|i: int| 0 <= i < args@.len() implies arg_free(
                    (#[trigger] args@[i]).1,
                ) && paths_wf(args@[i].1) by {
                    if table_contains(pre, all[done - 1].name@) {
                        let w = table_index_of(pre, all[done - 1].name@);
                        assert(i == w || args@[i] == pre[i]);
                    } else {
                        assert(i == pre.len() as int || args@[i] == pre[i]);
                    }
                }
            }
        }
        proof {
            assert(all.subrange(0, all.len() as int) =~= all);
        }
        Interpreter {
            passes: Vec::new(),
            edges: Vec::new(),
            display: None,
            symbols: Vec::new(),
            args,
        }
    }

    /// Evaluates one expression against the current symbol and argument
    /// tables. Agrees with `eval_expr` exactly, and every value produced
    /// has well-formed field tables.
    pub fn run_expr(&self, e: &Expr) -> (r: Result<ParsedValue, InterpreterError>)
        requires
            self.inv(),
            paths_wf(*e),
        ensures
            ({
                let ev = eval_expr(fields_view(self.symbols@), self.args@, *e);
                match r {
                    Ok(v) => ev == Ok::<ValueView, InterpreterErrorView>(v@) && v@.wf(),
                    Err(er) => ev == Err::<ValueView, InterpreterErrorView>(er@),
                }
            }),
        decreases expr_bit(*e), *e,
    {
        let ghost symsv = fields_view(self.symbols@);
        match e {
            Expr::Int(v) => Ok(ParsedValue::Int(*v)),
            Expr::Float(bits) => Ok(ParsedValue::Float(*bits)),
            Expr::Path(p) => {
                let n = p.as_str().unicode_len();
                let stripped = p.as_str().substring_char(1, n - 1).to_owned();
                Ok(ParsedValue::Path(stripped))
            },
            Expr::VarAccess(var) => {
                proof {
                    lemma_fields_view_wf(self.symbols@);
                }
                match table_lookup(&self.symbols, var) {
                    Some(v) => {
                        proof {
                            let w = table_index_of(self.symbols@, var@);
                            assert(self.symbols@[w].1@.wf());
                        }
                        Ok(v.clone())
                    },
                    None => Err(InterpreterError::UndefinedVariable(var.clone())),
                }
            },
            Expr::Ident(ident) => {
                let lit_true: String = "true".to_owned();
                let lit_false: String = "false".to_owned();
                if *ident == lit_true {
                    Ok(ParsedValue::Bool(true))
                } else if *ident == lit_false {
                    Ok(ParsedValue::Bool(false))
                } else {
                    Ok(ParsedValue::UnitStruct(ident.clone()))
                }
            },
            Expr::Argument { name, default } => {
                match table_lookup(&self.args, name) {
                    Some(o) => {
                        proof {
                            let w = table_index_of(self.args@, name@);
                            assert(arg_free((self.args@[w]).1));
                            assert(paths_wf((self.args@[w]).1));
                        }
                        self.run_expr(o)
                    },
                    None => match default {
                        Some(d) => {
                            proof {
                                assert((*e)->Argument_default == *default);
                                assert(decreases_to!(*e => (*e)->Argument_default));
                                assert(decreases_to!(*default => (*default)->0));
                            }
                            self.run_expr(&*d)
                        },
                        None => Err(InterpreterError::MissingArgument(name.clone())),
                    },
                }
            },
            Expr::TupleStruct { name, fields } => {
                let mut out: Vec<(String, ParsedValue)> = Vec::new();
                let ghost mut vals: Seq<ValueView> = Seq::empty();
                let n = fields.len();
                proof {
                    assert(fields@.subrange(0, 0) =~= Seq::<Box<Expr>>::empty());
                }
                for i in 0..n
                    invariant
                        self.inv(),
                        paths_wf(*e),
                        *e is TupleStruct,
                        (*e)->TupleStruct_fields == *fields,
                        n == fields@.len(),
                        symsv == fields_view(self.symbols@),
                        eval_exprs(symsv, self.args@, fields@.subrange(0, i as int)) == Ok::<
                            Seq<ValueView>,
                            InterpreterErrorView,
                        >(vals),
                        vals.len() == i,
                        forall|j: int| 0 <= j < i ==> (#[trigger] vals[j]).wf(),
                        out@.len() == i,
                        table_wf(out@),
                        forall|j: int|
                            0 <= j < i ==> #[trigger] fields_view(out@)[j] == (
                                spec_decimal(j as nat),
                                vals[j],
                            ),
                {
                    proof {
                        assert(decreases_to!(*e => (*e)->TupleStruct_fields));
                        assert(decreases_to!(*fields => fields@));
                        assert(decreases_to!(fields@ => fields@[i as int]));
                        assert(paths_wf(*fields@[i as int]));
                    }
                    let v = match self.run_expr(&*fields[i]) {
                        Ok(v) => v,
                        Err(er) => {
                            proof {
                                assert(fields@.subrange(0, i + 1).drop_last() =~= fields@.subrange(
                                    0,
                                    i as int,
                                ));
                                assert(fields@.subrange(0, i + 1).last() == fields@[i as int]);
                                lemma_eval_exprs_prefix_err(
                                    symsv,
                                    self.args@,
                                    fields@,
                                    i + 1,
                                    n as int,
                                );
                                assert(fields@.subrange(0, n as int) =~= fields@);
                            }
                            return Err(er);
                        },
                    };
                    let key = decimal_string(i);
                    let ghost pre = out@;
                    proof {
                        lemma_fields_view_index(pre);
                        assert forall|j: int| 0 <= j < pre.len() implies pre[j].0@ != key@ by {
                            assert(fields_view(pre)[j] == (spec_decimal(j as nat), vals[j]));
                            assert(fields_view(pre)[j] == (pre[j].0@, pre[j].1@));
                            lemma_decimal_injective(j as nat, i as nat);
                        }
                        assert(!table_contains(pre, key@));
                    }
                    table_insert(&mut out, key, v);
                    proof {
                        vals = vals.push(v@);
                        assert(fields@.subrange(0, i + 1).drop_last() =~= fields@.subrange(
                            0,
                            i as int,
                        ));
                        assert(fields@.subrange(0, i + 1).last() == fields@[i as int]);
                        assert(out@ == pre.push((key, v)));
                        assert(out@.drop_last() =~= pre);
                        assert(fields_view(out@) == fields_view(pre).push((key@, v@)));
                        assert forall|j: int| 0 <= j < i + 1 implies #[trigger] fields_view(out@)[j]
                            == (spec_decimal(j as nat), vals[j]) by {
                            if j < i {
                                assert(fields_view(pre)[j] == (spec_decimal(j as nat), vals[j]));
                            }
                        }
                    }
                }
                proof {
                    assert(fields@.subrange(0, n as int) =~= fields@);
                    lemma_fields_view_index(out@);
                    lemma_fields_view_wf(out@);
                    assert(fields_view(out@) =~= Seq::new(
                        vals.len(),
                        |i: int| (spec_decimal(i as nat), vals[i]),
                    ));
                }
                Ok(ParsedValue::Struct { name: name.clone(), fields: out })
            },
            Expr::Struct { name, fields, update } => {
                let mut out: Vec<(String, ParsedValue)> = Vec::new();
                let n = fields.len();
                proof {
                    assert(fields@.subrange(0, 0) =~= Seq::<Box<Field>>::empty());
                    assert(fields_view(out@) =~= Seq::<(Seq<char>, ValueView)>::empty());
                }
                for i in 0..n
                    invariant
                        self.inv(),
                        paths_wf(*e),
                        *e is Struct,
                        (*e)->Struct_fields == *fields,
                        n == fields@.len(),
                        symsv == fields_view(self.symbols@),
                        eval_named_fields(symsv, self.args@, fields@.subrange(0, i as int)) == Ok::<
                            Seq<(Seq<char>, ValueView)>,
                            InterpreterErrorView,
                        >(fields_view(out@)),
                        table_wf(out@),
                        forall|j: int| 0 <= j < out@.len() ==> (#[trigger] out@[j]).1@.wf(),
                {
                    proof {
                        assert(decreases_to!(*e => (*e)->Struct_fields));
                        assert(decreases_to!(*fields => fields@));
                        assert(decreases_to!(fields@ => fields@[i as int]));
                        assert(decreases_to!(fields@[i as int] => fields@[i as int].value));
                        assert(paths_wf(*fields@[i as int].value));
                    }
                    let v = match self.run_expr(&*fields[i].value) {
                        Ok(v) => v,
                        Err(er) => {
                            proof {
                                assert(fields@.subrange(0, i + 1).drop_last() =~= fields@.subrange(
                                    0,
                                    i as int,
                                ));
                                assert(fields@.subrange(0, i + 1).last() == fields@[i as int]);
                                lemma_eval_named_prefix_err(
                                    symsv,
                                    self.args@,
                                    fields@,
                                    i + 1,
                                    n as int,
                                );
                                assert(fields@.subrange(0, n as int) =~= fields@);
                            }
                            return Err(er);
                        },
                    };
                    let key = fields[i].ident.clone();
                    let ghost pre = out@;
                    table_insert(&mut out, key, v);
                    proof {
                        assert(fields@.subrange(0, i + 1).drop_last() =~= fields@.subrange(
                            0,
                            i as int,
                        ));
                        assert(fields@.subrange(0, i + 1).last() == fields@[i as int]);
                        lemma_fields_view_insert(pre, (key, v).0, (key, v).1);
                        assert forall|j: int| 0 <= j < out@.len() implies (#[trigger] out@[j]).1@.wf()
                            by {
                            if table_contains(pre, key@) {
                                let w = table_index_of(pre, key@);
                                assert(j == w || out@[j] == pre[j]);
                            } else {
                                assert(j == pre.len() as int || out@[j] == pre[j]);
                            }
                        }
                    }
                }
                proof {
                    assert(fields@.subrange(0, n as int) =~= fields@);
                }
                match update {
                    None => {
                        proof {
                            lemma_fields_view_wf(out@);
                            lemma_fields_view_index(out@);
                        }
                        Ok(ParsedValue::Struct { name: name.clone(), fields: out })
                    },
                    Some(base) => {
                        proof {
                            lemma_fields_view_wf(self.symbols@);
                        }
                        match table_lookup(&self.symbols, base) {
                            None => Err(InterpreterError::UndefinedVariable(base.clone())),
                            Some(bv_ref) => {
                                proof {
                                    let w = table_index_of(self.symbols@, base@);
                                    assert(self.symbols@[w].1@.wf());
                                }
                                let tl = bv_ref.type_label();
                                let bv = bv_ref.clone();
                                match bv.struct_properties() {
                                    None => Err(
                                        InterpreterError::InvalidType(struct_label(name), tl),
                                    ),
                                    Some(props) => {
                                        let (update_name, update_fields) = props;
                                        if update_name != *name {
                                            Err(
                                                InterpreterError::InvalidType(
                                                    struct_label(name),
                                                    struct_label(&update_name),
                                                ),
                                            )
                                        } else {
                                            let ghost bview = bv_ref@;
                                            let ghost litv = fields_view(out@);
                                            let ghost basev = fields_view(update_fields@);
                                            proof {
                                                lemma_fields_view_index(update_fields@);
                                                assert(basev == bview.struct_fields());
                                                assert(bview.wf());
                                                assert forall|k: int|
                                                    0 <= k < update_fields@.len() implies (
                                                #[trigger] update_fields@[k]).1@.wf() by {
                                                    assert(basev[k] == (
                                                        update_fields@[k].0@,
                                                        update_fields@[k].1@,
                                                    ));
                                                    assert(bview.struct_fields()[k].1.wf());
                                                }
                                                assert(basev.skip(0) =~= basev);
                                            }
                                            let m = update_fields.len();
                                            for j in 0..m
                                                invariant
                                                    m == update_fields@.len(),
                                                    basev == fields_view(update_fields@),
                                                    basev.len() == m,
                                                    forall|k: int|
                                                        0 <= k < m ==> #[trigger] basev[k] == (
                                                            update_fields@[k].0@,
                                                            update_fields@[k].1@,
                                                        ),
                                                    forall|k: int|
                                                        0 <= k < m ==> (
                                                        #[trigger] update_fields@[k]).1@.wf(),
                                                    table_wf(out@),
                                                    forall|k: int|
                                                        0 <= k < out@.len() ==> (
                                                        #[trigger] out@[k]).1@.wf(),
                                                    absorb_base(
                                                        fields_view(out@),
                                                        basev.skip(j as int),
                                                    ) == absorb_base(litv, basev),
                                            {
                                                let absent = {
                                                    let found = table_lookup(
                                                        &out,
                                                        &update_fields[j].0,
                                                    );
                                                    found.is_none()
                                                };
                                                let ghost pre = out@;
                                                if absent {
                                                    let k2 = update_fields[j].0.clone();
                                                    let v2 = update_fields[j].1.clone();
                                                    table_insert(&mut out, k2, v2);
                                                }
                                                proof {
                                                    lemma_fields_view_wf(pre);
                                                    assert(basev.skip(j as int)[0] == basev[
                                                    j as int]);
                                                    assert(basev.skip(j as int).drop_first()
                                                        =~= basev.skip(j + 1));
                                                    if absent {
                                                        assert(out@ == pre.push(
                                                            (out@.last().0, out@.last().1),
                                                        ));
                                                        assert(fields_view(out@).drop_last()
                                                            =~= fields_view(pre)) by {
                                                            assert(out@.drop_last() =~= pre);
                                                        }
                                                        lemma_fields_view_index(out@);
                                                        lemma_fields_view_index(pre);
                                                        assert(fields_view(out@) =~= fields_view(
                                                            pre,
                                                        ).push(basev[j as int]));
                                                        assert forall|k: int|
                                                            0 <= k < out@.len() implies (
                                                        #[trigger] out@[k]).1@.wf() by {
                                                            assert(k == pre.len() as int || out@[k]
                                                                == pre[k]);
                                                        }
                                                    }
                                                }
                                            }
                                            proof {
                                                assert(basev.skip(m as int)
                                                    =~= Seq::<(Seq<char>, ValueView)>::empty());
                                                lemma_fields_view_wf(out@);
                                                lemma_fields_view_index(out@);
                                            }
                                            Ok(
                                                ParsedValue::Struct {
                                                    name: name.clone(),
                                                    fields: out,
                                                },
                                            )
                                        }
                                    },
                                }
                            },
                        }
                    },
                }
            },
        }
    }

    /// Executes one statement.
    ///
    /// An assignment binds the evaluated value; a pass statement requires
    /// a struct-shaped value, constructs the pass through the registry
    /// and records it; an edge statement records dependency names; a
    /// display statement sets the display target, failing if one is
    /// already set. The argument table never changes.
    pub fn run_stmt<B: PassBinder<P>>(&mut self, stmt: Statement, registry: &PassRegistry<B>) -> (r:
        Result<(), InterpreterError>)
        requires
            old(self).inv(),
            stmt_paths_wf(stmt),
        ensures
            final(self).inv(),
            final(self).args@ == old(self).args@,
            match stmt {
                Statement::Assign { var, value } => {
                    let ev = eval_expr(fields_view(old(self).symbols@), old(self).args@, *value);
                    match r {
                        Ok(u) => (ev matches Ok(v) && fields_view(final(self).symbols@)
                            == kv_insert(fields_view(old(self).symbols@), var@, v)) && final(self).passes@ == old(self).passes@ && final(self).edges@ == old(self).edges@
                            && final(self).display == old(self).display,
                        Err(er) => ev == Err::<ValueView, InterpreterErrorView>(er@) && *final(self) == *old(self),
                    }
                },
                Statement::Pass { name, value } => {
                    let ev = eval_expr(fields_view(old(self).symbols@), old(self).args@, *value);
                    match r {
                        Ok(u) => (ev matches Ok(v) && (v.struct_name() matches Some(ty)
                            && registry.names().contains(ty))) && (exists|p: P|
                            final(self).passes@ == table_spec_insert(old(self).passes@, name, p))
                            && final(self).symbols@ == old(self).symbols@ && final(self).edges@
                            == old(self).edges@ && final(self).display == old(self).display,
                        Err(er) => *final(self) == *old(self) && match ev {
                            Err(e2) => er@ == e2,
                            Ok(v) => match v.struct_name() {
                                None => er@ == InterpreterErrorView::InvalidPassAssignment(name@),
                                Some(ty) => if registry.names().contains(ty) {
                                    er@ matches InterpreterErrorView::RenderPass(
                                        RenderPassErrorView::ParseValue(_),
                                    )
                                } else {
                                    er@ == InterpreterErrorView::RenderPass(
                                        RenderPassErrorView::UnknownPass(ty),
                                    )
                                },
                            },
                        },
                    }
                },
                Statement::Edge { pass, dependencies } => r is Ok && final(self).edges@
                    == table_spec_insert(old(self).edges@, pass, dependencies) && final(self).symbols@ == old(self).symbols@ && final(self).passes@ == old(self).passes@
                    && final(self).display == old(self).display,
                Statement::Display { pass } => match r {
                    Ok(u) => old(self).display is None && final(self).display == Some(pass) && final(self).symbols@ == old(self).symbols@ && final(self).passes@ == old(self).passes@
                        && final(self).edges@ == old(self).edges@,
                    Err(er) => er@ == InterpreterErrorView::MultipleDisplays && old(self).display
                        is Some && *final(self) == *old(self),
                },
            },
    {
        match stmt {
            Statement::Assign { var, value } => {
                let v = match self.run_expr(&*value) {
                    Ok(v) => v,
                    Err(er) => {
                        return Err(er);
                    },
                };
                let ghost presyms = self.symbols@;
                table_insert(&mut self.symbols, var, v);
                proof {
                    lemma_fields_view_insert(presyms, (var, v).0, (var, v).1);
                    assert forall|j: int| 0 <= j < self.symbols@.len() implies (
                    #[trigger] self.symbols@[j]).1@.wf() by {
                        if table_contains(presyms, var@) {
                            let w = table_index_of(presyms, var@);
                            assert(j == w || self.symbols@[j] == presyms[j]);
                        } else {
                            assert(j == presyms.len() as int || self.symbols@[j] == presyms[j]);
                        }
                    }
                }
                Ok(())
            },
            Statement::Pass { name, value } => {
                let v = match self.run_expr(&*value) {
                    Ok(v) => v,
                    Err(er) => {
                        return Err(er);
                    },
                };
                match v.struct_name() {
                    None => Err(InterpreterError::InvalidPassAssignment(name)),
                    Some(ty) => match registry.construct::<P>(&ty, v) {
                        Ok(p) => {
                            let ghost prep = self.passes@;
                            let ghost pw = p;
                            table_insert(&mut self.passes, name, p);
                            proof {
                                assert(self.passes@ == table_spec_insert(prep, name, pw));
                            }
                            Ok(())
                        },
                        Err(er) => Err(InterpreterError::RenderPass(er)),
                    },
                }
            },
            Statement::Edge { pass, dependencies } => {
                table_insert(&mut self.edges, pass, dependencies);
                Ok(())
            },
            Statement::Display { pass } => {
                if self.display.is_some() {
                    return Err(InterpreterError::MultipleDisplays);
                }
                self.display = Some(pass);
                Ok(())
            },
        }
    }

    /// Executes the statements strictly in order, stopping at the first
    /// error: earlier statements' effects persist and later statements
    /// never run. On success the symbol table, display target, edge
    /// table and recorded pass names are the folds of the statement
    /// sequence; on an error, they are the folds of the error-free
    /// prefix, and the error is the first failing statement's — a
    /// statement the library decides outright fails with its exact
    /// error, and a registered pass statement may also fail with
    /// whatever binding error the outside binder chose. A script whose
    /// every statement the library decides to succeed is owed `Ok`.
    pub fn run<B: PassBinder<P>>(&mut self, stmts: Vec<Statement>, registry: &PassRegistry<B>) -> (r:
        Result<(), InterpreterError>)
        requires
            old(self).inv(),
            forall|i: int| 0 <= i < stmts@.len() ==> stmt_paths_wf(#[trigger] stmts@[i]),
        ensures
            final(self).inv(),
            final(self).args@ == old(self).args@,
            r is Ok ==> opt_name_view(final(self).display) == display_name_after(
                opt_name_view(old(self).display),
                stmts@,
            ),
            r is Ok ==> fields_view(final(self).symbols@) == syms_after(
                old(self).args@,
                fields_view(old(self).symbols@),
                stmts@,
            ),
            r is Ok ==> final(self).edges@ == edges_after(old(self).edges@, stmts@),
            r is Ok ==> table_keys(final(self).passes@) == pass_names_after(
                table_keys(old(self).passes@),
                stmts@,
            ),
            r is Ok ==> forall|i: int|
                0 <= i < stmts@.len() ==> !((#[trigger] verdict_at(
                    old(self).args@,
                    registry.names(),
                    fields_view(old(self).symbols@),
                    opt_name_view(old(self).display),
                    stmts@,
                    i,
                )) is Fails),
            (forall|i: int|
                0 <= i < stmts@.len() ==> (#[trigger] verdict_at(
                    old(self).args@,
                    registry.names(),
                    fields_view(old(self).symbols@),
                    opt_name_view(old(self).display),
                    stmts@,
                    i,
                )) is Succeeds) ==> r is Ok,
            r matches Err(er) ==> exists|i: int|
                0 <= i < stmts@.len() && (forall|j: int|
                    0 <= j < i ==> !((#[trigger] verdict_at(
                        old(self).args@,
                        registry.names(),
                        fields_view(old(self).symbols@),
                        opt_name_view(old(self).display),
                        stmts@,
                        j,
                    )) is Fails)) && ({
                    let vd = #[trigger] verdict_at(
                        old(self).args@,
                        registry.names(),
                        fields_view(old(self).symbols@),
                        opt_name_view(old(self).display),
                        stmts@,
                        i,
                    );
                    ||| (vd matches StmtVerdict::Fails(ev) && er@ == ev)
                    ||| (vd is BinderDecides && er@ matches InterpreterErrorView::RenderPass(
                        RenderPassErrorView::ParseValue(_),
                    ))
                }) && fields_view(final(self).symbols@) == syms_after(
                    old(self).args@,
                    fields_view(old(self).symbols@),
                    stmts@.subrange(0, i),
                ) && opt_name_view(final(self).display) == display_name_after(
                    opt_name_view(old(self).display),
                    stmts@.subrange(0, i),
                ) && final(self).edges@ == edges_after(
                    old(self).edges@,
                    stmts@.subrange(0, i),
                ) && table_keys(final(self).passes@) == pass_names_after(
                    table_keys(old(self).passes@),
                    stmts@.subrange(0, i),
                ),
    {
        let ghost all = stmts@;
        let ghost args0 = old(self).args@;
        let ghost syms0 = fields_view(old(self).symbols@);
        let ghost disp0 = opt_name_view(old(self).display);
        let mut rest = stmts;
        let ghost mut done: int = 0;
        proof {
            assert(all.subrange(0, 0) =~= Seq::<Statement>::empty());
        }
        while rest.len() > 0
            invariant
                self.inv(),
                self.args@ == old(self).args@,
                args0 == old(self).args@,
                syms0 == fields_view(old(self).symbols@),
                disp0 == opt_name_view(old(self).display),
                all == stmts@,
                0 <= done <= all.len(),
                rest@ == all.skip(done),
                forall|i: int| 0 <= i < all.len() ==> stmt_paths_wf(#[trigger] all[i]),
                fields_view(self.symbols@) == syms_after(args0, syms0, all.subrange(0, done)),
                opt_name_view(self.display) == display_name_after(
                    disp0,
                    all.subrange(0, done),
                ),
                self.edges@ == edges_after(old(self).edges@, all.subrange(0, done)),
                table_keys(self.passes@) == pass_names_after(
                    table_keys(old(self).passes@),
                    all.subrange(0, done),
                ),
                forall|j: int|
                    0 <= j < done ==> !((#[trigger] verdict_at(
                        args0,
                        registry.names(),
                        syms0,
                        disp0,
                        all,
                        j,
                    )) is Fails),
            decreases rest@.len(),
        {
            let s = rest.remove(0);
            proof {
                assert(all.skip(done)[0] == all[done]);
                assert(s == all[done]);
                assert(rest@ =~= all.skip(done + 1));
                assert(all.skip(done).drop_first() =~= all.skip(done + 1));
                assert(all.subrange(0, done + 1) =~= all.subrange(0, done).push(all[done]));
            }
            let ghost pre = *self;
            let ghost gs = s;
            match self.run_stmt(s, registry) {
                Ok(u) => (),
                Err(er) => {
                    proof {
                        let vd = verdict_at(args0, registry.names(), syms0, disp0, all, done);
                        assert(vd == stmt_verdict(
                            args0,
                            registry.names(),
                            fields_view(pre.symbols@),
                            pre.display is Some,
                            gs,
                        ));
                        match gs {
                            Statement::Assign { var, value } => {
                                assert(vd matches StmtVerdict::Fails(ev) && er@ == ev);
                            },
                            Statement::Pass { name, value } => {
                                let ev = eval_expr(fields_view(pre.symbols@), pre.args@, *value);
                                match ev {
                                    Err(e2) => {
                                        assert(vd == StmtVerdict::Fails(e2) && er@ == e2);
                                    },
                                    Ok(v) => {
                                        match v.struct_name() {
                                            None => {
                                                assert(vd matches StmtVerdict::Fails(e2) && er@
                                                    == e2);
                                            },
                                            Some(ty) => {
                                                if registry.names().contains(ty) {
                                                    assert(vd is BinderDecides);
                                                    assert(er@ matches
                                                        InterpreterErrorView::RenderPass(
                                                        RenderPassErrorView::ParseValue(_),
                                                    ));
                                                } else {
                                                    assert(vd matches StmtVerdict::Fails(e2)
                                                        && er@ == e2);
                                                }
                                            },
                                        }
                                    },
                                }
                            },
                            Statement::Edge { .. } => {
                                assert(false);
                            },
                            Statement::Display { .. } => {
                                assert(pre.display is Some);
                                assert(vd == StmtVerdict::Fails(
                                    InterpreterErrorView::MultipleDisplays,
                                ));
                            },
                        }
                        assert(!(vd is Succeeds));
                    }
                    return Err(er);
                },
            }
            proof {
                let vd = verdict_at(args0, registry.names(), syms0, disp0, all, done);
                assert(vd == stmt_verdict(
                    args0,
                    registry.names(),
                    fields_view(pre.symbols@),
                    pre.display is Some,
                    gs,
                ));
                assert(!(vd is Fails)) by {
                    match gs {
                        Statement::Assign { var, value } => {
                            assert(eval_expr(fields_view(pre.symbols@), pre.args@, *value)
                                is Ok);
                        },
                        Statement::Pass { name, value } => {
                            assert(eval_expr(fields_view(pre.symbols@), pre.args@, *value)
                                matches Ok(v) && (v.struct_name() matches Some(ty)
                                && registry.names().contains(ty)));
                        },
                        Statement::Edge { .. } => {},
                        Statement::Display { .. } => {
                            assert(pre.display is None);
                        },
                    }
                }
                lemma_display_name_after_snoc(disp0, all.subrange(0, done), all[done]);
                lemma_edges_after_snoc(old(self).edges@, all.subrange(0, done), all[done]);
                lemma_pass_names_after_snoc(
                    table_keys(old(self).passes@),
                    all.subrange(0, done),
                    all[done],
                );
                lemma_syms_after_snoc(args0, syms0, all.subrange(0, done), all[done]);
                match gs {
                    Statement::Pass { name, value: _ } => {
                        let p = choose|p: P|
                            self.passes@ == table_spec_insert(pre.passes@, name, p);
                        lemma_table_keys_insert(pre.passes@, name, p);
                    },
                    _ => {},
                }
                done = done + 1;
            }
        }
        proof {
            assert(done == all.len());
            assert(all.subrange(0, done) =~= all);
        }
        Ok(())
    }
}

} // verus!
