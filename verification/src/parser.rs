//! The front end: script tree, dynamic values, interpreter and typed
//! binding.

pub mod ast;
pub mod binding;
pub mod interpreter;
pub mod value;

use vstd::prelude::*;

use crate::parser::ast::{arg_free, paths_wf, stmt_paths_wf, PassArg, Statement};
use crate::parser::value::fields_view;
use crate::parser::interpreter::{
    display_name_after, edges_after, pass_names_after, verdict_at, Interpreter, InterpreterError,
    InterpreterErrorView, StmtVerdict,
};
use crate::parser::interpreter::args_table;
use crate::pass::RenderPassErrorView;
use crate::pass::{PassBinder, PassRegistry};
use crate::render_graph::{NodeId, RenderGraph};
use crate::table::{table_contains, table_index_of, table_keys, table_lookup, table_wf};

verus! {

/// The mathematical model of a `ParseValueError`.
pub enum ParseValueErrorView {
    WrongType(Seq<char>, Seq<char>),
    DuplicateField(Seq<char>),
    UnknownField(Seq<char>),
    MissingField(Seq<char>),
    UnknownVariant(Seq<char>),
}

/// An error from binding a dynamic value into a typed configuration.
#[derive(Debug, Clone, PartialEq, Eq)]
pub enum ParseValueError {
    /// The value's runtime type is not what the target expects; carries
    /// the expected and the actual description.
    WrongType(String, String),
    /// The same target field was supplied twice.
    DuplicateField(String),
    /// The value supplies a field the target does not declare.
    UnknownField(String),
    /// A declared field without a default was not supplied.
    MissingField(String),
    /// The value's struct name matches no variant of the target enum.
    UnknownVariant(String),
}

impl View for ParseValueError {
    type V = ParseValueErrorView;

    open spec fn view(&self) -> ParseValueErrorView {
        match self {
            ParseValueError::WrongType(expected, actual) => ParseValueErrorView::WrongType(
                expected@,
                actual@,
            ),
            ParseValueError::DuplicateField(f) => ParseValueErrorView::DuplicateField(f@),
            ParseValueError::UnknownField(f) => ParseValueErrorView::UnknownField(f@),
            ParseValueError::MissingField(f) => ParseValueErrorView::MissingField(f@),
            ParseValueError::UnknownVariant(n) => ParseValueErrorView::UnknownVariant(n@),
        }
    }
}

/// Converts a dynamic value into a typed configuration.
///
/// Concrete implementations forward to a shape-driven binding (see this
/// module's `binding` submodule) or assemble the result from one.
pub trait FromParsedValue: Sized {
    fn from_parsed_value(value: crate::parser::value::ParsedValue) -> Result<
        Self,
        ParseValueError,
    >;
}

/// A script with no display statement leaves the display target unset,
/// whatever else it does: together with `RawRenderGraph::read`'s
/// contract, such a script can never read successfully — when the
/// interpreter itself accepts it, reading fails with `MissingDisplay`
/// exactly.
pub proof fn lemma_no_display_statement(stmts: Seq<Statement>)
    requires
        forall|i: int| 0 <= i < stmts.len() ==> !((#[trigger] stmts[i]) is Display),
    ensures
        display_name_after(None::<Seq<char>>, stmts) is None,
    decreases stmts,
{
    if stmts.len() > 0 {
        assert forall|i: int| 0 <= i < stmts.drop_first().len() implies !((
        #[trigger] stmts.drop_first()[i]) is Display) by {
            assert(stmts.drop_first()[i] == stmts[i + 1]);
        }
        lemma_no_display_statement(stmts.drop_first());
    }
}

/// The dependency name that always resolves to the source node.
pub open spec fn source_name() -> Seq<char> {
    "source"@
}

/// Whether a declared dependency name resolves: it is the source, or
/// some pass carries it as its logical name.
pub open spec fn resolves<P>(passes: Seq<(String, P)>, dep: Seq<char>) -> bool {
    dep == source_name() || table_contains(passes, dep)
}

/// The node a dependency name resolves to: the source, or the pass's
/// node, passes being numbered from one in table order.
pub open spec fn resolve_id<P>(passes: Seq<(String, P)>, dep: Seq<char>) -> int {
    if dep == source_name() {
        0
    } else {
        table_index_of(passes, dep) + 1
    }
}

/// The mathematical model of a `RenderGraphReadError`.
pub enum RenderGraphReadErrorView {
    Interpreter(InterpreterErrorView),
    MissingDisplay,
    UndefinedPass(Seq<char>),
    DuplicateName(Seq<char>),
}

/// An error from reading a script into a graph description, or from
/// building the graph out of it.
#[derive(Debug, Clone, PartialEq, Eq)]
pub enum RenderGraphReadError {
    /// The interpreter rejected the script.
    Interpreter(InterpreterError),
    /// The script never declared a display target.
    MissingDisplay,
    /// An edge or the display names a pass that does not exist.
    UndefinedPass(String),
    /// The same logical name was given to two passes.
    DuplicateName(String),
}

impl View for RenderGraphReadError {
    type V = RenderGraphReadErrorView;

    open spec fn view(&self) -> RenderGraphReadErrorView {
        match self {
            RenderGraphReadError::Interpreter(e) => RenderGraphReadErrorView::Interpreter(e@),
            RenderGraphReadError::MissingDisplay => RenderGraphReadErrorView::MissingDisplay,
            RenderGraphReadError::UndefinedPass(n) => RenderGraphReadErrorView::UndefinedPass(n@),
            RenderGraphReadError::DuplicateName(n) => RenderGraphReadErrorView::DuplicateName(n@),
        }
    }
}

/// What a script evaluates to before graph construction: the named pass
/// instances, the declared edge lists, and the display target.
pub struct RawRenderGraph<P> {
    passes: Vec<(String, P)>,
    edges: Vec<(String, Vec<String>)>,
    display: String,
}

impl<P> RawRenderGraph<P> {
    /// The pass table, in recording order.
    pub closed spec fn passes_tbl(self) -> Seq<(String, P)> {
        self.passes@
    }

    /// The edge table: dependency names per logical pass name.
    pub closed spec fn edges_tbl(self) -> Seq<(String, Vec<String>)> {
        self.edges@
    }

    /// The display target's logical name.
    pub closed spec fn display_name(self) -> Seq<char> {
        self.display@
    }

    /// Both tables have pairwise-distinct keys.
    pub open spec fn wf(self) -> bool {
        table_wf(self.passes_tbl()) && table_wf(self.edges_tbl())
    }

    /// Runs a script and collects its outputs. The statements execute
    /// strictly in order; a script that never displays fails with
    /// `MissingDisplay` after running.
    pub fn read<B: PassBinder<P>>(
        stmts: Vec<Statement>,
        overrides: Vec<PassArg>,
        registry: &PassRegistry<B>,
    ) -> (r: Result<RawRenderGraph<P>, RenderGraphReadError>)
        requires
            forall|i: int| 0 <= i < stmts@.len() ==> stmt_paths_wf(#[trigger] stmts@[i]),
            forall|i: int|
                0 <= i < overrides@.len() ==> arg_free((#[trigger] overrides@[i]).value)
                    && paths_wf(overrides@[i].value),
        ensures
            match r {
                Ok(g) => {
                    &&& g.wf()
                    &&& display_name_after(None::<Seq<char>>, stmts@) == Some(g.display_name())
                    &&& g.edges_tbl() == edges_after(Seq::<(String, Vec<String>)>::empty(), stmts@)
                    &&& table_keys(g.passes_tbl()) == pass_names_after(
                        Seq::<Seq<char>>::empty(),
                        stmts@,
                    )
                    &&& forall|i: int|
                        0 <= i < stmts@.len() ==> !((#[trigger] verdict_at(
                            args_table(overrides@),
                            registry.names(),
                            Seq::<(Seq<char>, crate::parser::value::ValueView)>::empty(),
                            None::<Seq<char>>,
                            stmts@,
                            i,
                        )) is Fails)
                },
                Err(e) => match e@ {
                    RenderGraphReadErrorView::Interpreter(ev) => exists|i: int|
                        0 <= i < stmts@.len() && (forall|j: int|
                            0 <= j < i ==> !((#[trigger] verdict_at(
                                args_table(overrides@),
                                registry.names(),
                                Seq::<(Seq<char>, crate::parser::value::ValueView)>::empty(),
                                None::<Seq<char>>,
                                stmts@,
                                j,
                            )) is Fails)) && ({
                            let vd = #[trigger] verdict_at(
                                args_table(overrides@),
                                registry.names(),
                                Seq::<(Seq<char>, crate::parser::value::ValueView)>::empty(),
                                None::<Seq<char>>,
                                stmts@,
                                i,
                            );
                            ||| (vd matches StmtVerdict::Fails(e2) && ev == e2)
                            ||| (vd is BinderDecides && ev matches InterpreterErrorView::RenderPass(
                                RenderPassErrorView::ParseValue(_),
                            ))
                        }),
                    RenderGraphReadErrorView::MissingDisplay => (display_name_after(
                        None::<Seq<char>>,
                        stmts@,
                    ) is None) && forall|i: int|
                        0 <= i < stmts@.len() ==> !((#[trigger] verdict_at(
                            args_table(overrides@),
                            registry.names(),
                            Seq::<(Seq<char>, crate::parser::value::ValueView)>::empty(),
                            None::<Seq<char>>,
                            stmts@,
                            i,
                        )) is Fails),
                    _ => false,
                },
            },
            ((forall|i: int|
                0 <= i < stmts@.len() ==> (#[trigger] verdict_at(
                    args_table(overrides@),
                    registry.names(),
                    Seq::<(Seq<char>, crate::parser::value::ValueView)>::empty(),
                    None::<Seq<char>>,
                    stmts@,
                    i,
                )) is Succeeds) && (display_name_after(None::<Seq<char>>, stmts@) is Some))
                ==> r is Ok,
    {
        let mut interpreter = Interpreter::<P>::new(overrides);
        proof {
            assert(fields_view(Seq::<(String, crate::parser::value::ParsedValue)>::empty())
                =~= Seq::<(Seq<char>, crate::parser::value::ValueView)>::empty());
        }
        match interpreter.run(stmts, registry) {
            Err(e) => {
                return Err(RenderGraphReadError::Interpreter(e));
            },
            Ok(u) => {},
        }
        proof {
            assert(table_keys(Seq::<(String, P)>::empty()) =~= Seq::<Seq<char>>::empty());
        }
        let Interpreter { passes, edges, display, .. } = interpreter;
        match display {
            Some(d) => Ok(RawRenderGraph { passes, edges, display: d }),
            None => Err(RenderGraphReadError::MissingDisplay),
        }
    }

    /// Builds the graph: the source node first, then one node per pass
    /// in table order; then every declared dependency name is resolved
    /// to a node — `"source"` always meaning the source — and finally
    /// the display name to the display node.
    pub fn build<I>(self, input: I) -> (r: Result<
        (RenderGraph<P, I>, NodeId),
        RenderGraphReadError,
    >) where P: crate::pass::Pass<I>
        requires
            self.wf(),
            self.passes_tbl().len() + 1 < u32::MAX as int,
        ensures
            match r {
                Ok(pair) => {
                    &&& pair.0.wf()
                    &&& pair.0.node_count() == self.passes_tbl().len() + 1
                    &&& pair.0.passes@.len() == self.passes_tbl().len()
                    &&& (pair.0.images@[0] is Some)
                    &&& forall|k: int|
                        0 <= k < self.passes_tbl().len() ==> pair.0.passes@[k] == (
                        #[trigger] self.passes_tbl()[k]).1
                    &&& table_contains(self.passes_tbl(), self.display_name())
                    &&& pair.1.0 as int == table_index_of(self.passes_tbl(), self.display_name())
                        + 1
                    &&& forall|k: int|
                        0 <= k < self.passes_tbl().len() && !table_contains(
                            self.edges_tbl(),
                            (#[trigger] self.passes_tbl()[k]).0@,
                        ) ==> pair.0.deps(k + 1).len() == 0
                    &&& forall|k: int|
                        0 <= k < self.passes_tbl().len() && table_contains(
                            self.edges_tbl(),
                            (#[trigger] self.passes_tbl()[k]).0@,
                        ) ==> ({
                            let ds = crate::table::table_get(
                                self.edges_tbl(),
                                self.passes_tbl()[k].0@,
                            )@;
                            pair.0.deps(k + 1).len() == ds.len() && forall|i: int|
                                0 <= i < ds.len() ==> resolves(
                                    self.passes_tbl(),
                                    (#[trigger] ds[i])@,
                                ) && pair.0.deps(k + 1)[i].0 as int == resolve_id(
                                    self.passes_tbl(),
                                    ds[i]@,
                                )
                        })
                },
                Err(e) => match e@ {
                    RenderGraphReadErrorView::UndefinedPass(nm) => !table_contains(
                        self.passes_tbl(),
                        nm,
                    ) && (nm == self.display_name() || (nm != source_name() && exists|
                        k: int,
                        i: int,
                    |
                        0 <= k < self.edges_tbl().len() && 0 <= i < (
                        #[trigger] self.edges_tbl()[k]).1@.len() && (#[trigger] self.edges_tbl(
                        )[k].1@[i])@ == nm)),
                    _ => false,
                },
            },
            ({
                let all_resolve = (forall|k: int, i: int|
                    0 <= k < self.edges_tbl().len() && 0 <= i < (
                    #[trigger] self.edges_tbl()[k]).1@.len() ==> resolves(
                        self.passes_tbl(),
                        (#[trigger] self.edges_tbl()[k].1@[i])@,
                    )) && table_contains(self.passes_tbl(), self.display_name());
                all_resolve ==> r is Ok
            }),
    {
        let mut graph = RenderGraph::<P, I>::new(input);
        let mut ids: Vec<(String, NodeId)> = Vec::new();
        let ghost all_passes = self.passes@;
        let mut plist = self.passes;
        let ghost mut done: int = 0;
        while plist.len() > 0
            invariant
                table_wf(all_passes),
                all_passes.len() + 1 < u32::MAX as int,
                0 <= done <= all_passes.len(),
                plist@ == all_passes.skip(done),
                graph.wf(),
                graph.node_count() == done + 1,
                graph.passes@.len() == done,
                (graph.images@[0] is Some),
                ids@.len() == done,
                forall|t: int|
                    0 <= t < done ==> (#[trigger] ids@[t]).0@ == all_passes[t].0@ && ids@[t].1.0
                        as int == t + 1,
                forall|t: int| 0 <= t < done ==> graph.passes@[t] == (#[trigger] all_passes[t]).1,
                forall|t: int| 0 <= t < done + 1 ==> (#[trigger] graph.deps(t)).len() == 0,
            decreases plist@.len(),
        {
            let entry = plist.remove(0);
            proof {
                assert(entry == all_passes[done]);
                assert(plist@ =~= all_passes.skip(done + 1));
            }
            let (name, pass) = entry;
            if table_lookup(&ids, &name).is_some() {
                proof {
                    let w = table_index_of(ids@, name@);
                    assert(all_passes[w].0@ == name@);
                    assert(all_passes[done].0@ == name@);
                    assert(false);
                }
                return Err(RenderGraphReadError::DuplicateName(name));
            }
            let empty_deps: Vec<NodeId> = Vec::new();
            let id = graph.add_node(pass, &empty_deps);
            ids.push((name, id));
            proof {
                done = done + 1;
            }
        }
        proof {
            assert(done == all_passes.len());
            assert(table_wf(ids@)) by {
                assert forall|i: int, j: int| 0 <= i < j < ids@.len() implies ids@[i].0@
                    != ids@[j].0@ by {
                    assert(all_passes[i].0@ != all_passes[j].0@);
                }
            }
            assert forall|k: Seq<char>| #[trigger] table_contains(ids@, k) == table_contains(
                all_passes,
                k,
            ) by {
                if table_contains(ids@, k) {
                    let w = table_index_of(ids@, k);
                    assert(all_passes[w].0@ == k);
                }
                if table_contains(all_passes, k) {
                    let w = table_index_of(all_passes, k);
                    assert(ids@[w].0@ == k);
                }
            }
            assert forall|k: Seq<char>| table_contains(ids@, k) implies #[trigger] table_index_of(
                ids@,
                k,
            ) == table_index_of(all_passes, k) by {
                let w = table_index_of(ids@, k);
                assert(all_passes[w].0@ == k);
                let w2 = table_index_of(all_passes, k);
                assert(ids@[w2].0@ == k);
                assert(w == w2);
            }
        }
        let source_lit: String = "source".to_owned();
        let pass_count = ids.len();
        for k in 0..pass_count
            invariant
                all_passes == self.passes_tbl(),
                self.edges@ == self.edges_tbl(),
                table_wf(all_passes),
                table_wf(ids@),
                table_wf(self.edges@),
                source_lit@ == source_name(),
                pass_count == all_passes.len(),
                pass_count + 1 < u32::MAX as int,
                ids@.len() == pass_count,
                forall|t: int|
                    0 <= t < pass_count ==> (#[trigger] ids@[t]).0@ == all_passes[t].0@
                        && (ids@[t].1.0 as int) == t + 1,
                forall|s: Seq<char>| #[trigger]
                    table_contains(ids@, s) == table_contains(all_passes, s),
                forall|s: Seq<char>|
                    table_contains(ids@, s) ==> #[trigger] table_index_of(ids@, s)
                        == table_index_of(all_passes, s),
                graph.wf(),
                graph.node_count() == pass_count + 1,
                graph.passes@.len() == pass_count,
                (graph.images@[0] is Some),
                forall|t: int|
                    0 <= t < pass_count ==> graph.passes@[t] == (#[trigger] all_passes[t]).1,
                forall|t: int|
                    0 <= t < pass_count && !table_contains(
                        self.edges@,
                        (#[trigger] all_passes[t]).0@,
                    ) ==> graph.deps(t + 1).len() == 0,
                forall|t: int|
                    k <= t < pass_count ==> (#[trigger] graph.deps(t + 1)).len() == 0,
                graph.deps(0).len() == 0,
                forall|t: int|
                    0 <= t < k && table_contains(self.edges@, (#[trigger] all_passes[t]).0@)
                        ==> ({
                        let ds = crate::table::table_get(self.edges@, all_passes[t].0@)@;
                        graph.deps(t + 1).len() == ds.len() && forall|i: int|
                            0 <= i < ds.len() ==> resolves(all_passes, (#[trigger] ds[i])@)
                                && graph.deps(t + 1)[i].0 as int == resolve_id(all_passes, ds[i]@)
                    }),
        {
            let id = ids[k].1;
            proof {
                assert(id.0 as int == k + 1);
            }
            match table_lookup(&self.edges, &ids[k].0) {
                None => {},
                Some(dlist) => {
                    let dep_total = dlist.len();
                    for i in 0..dep_total
                        invariant
                            all_passes == self.passes_tbl(),
                            self.edges@ == self.edges_tbl(),
                            table_wf(all_passes),
                            table_wf(ids@),
                            table_wf(self.edges@),
                            source_lit@ == source_name(),
                            pass_count == all_passes.len(),
                            pass_count + 1 < u32::MAX as int,
                            ids@.len() == pass_count,
                            k < pass_count,
                            id.0 as int == k + 1,
                            forall|t: int|
                                0 <= t < pass_count ==> (#[trigger] ids@[t]).0@ == all_passes[t].0@
                                    && (ids@[t].1.0 as int) == t + 1,
                            forall|s: Seq<char>| #[trigger]
                                table_contains(ids@, s) == table_contains(all_passes, s),
                            forall|s: Seq<char>|
                                table_contains(ids@, s) ==> #[trigger] table_index_of(ids@, s)
                                    == table_index_of(all_passes, s),
                            graph.wf(),
                            graph.node_count() == pass_count + 1,
                            graph.passes@.len() == pass_count,
                            (graph.images@[0] is Some),
                            forall|t: int|
                                0 <= t < pass_count ==> graph.passes@[t] == (
                                #[trigger] all_passes[t]).1,
                            table_contains(self.edges@, all_passes[k as int].0@),
                            dlist@ == crate::table::table_get(self.edges@, all_passes[k as int].0@)@,
                            dep_total == dlist@.len(),
                            forall|t: int|
                                0 <= t < pass_count && !table_contains(
                                    self.edges@,
                                    (#[trigger] all_passes[t]).0@,
                                ) ==> graph.deps(t + 1).len() == 0,
                            forall|t: int|
                                k < t < pass_count ==> (#[trigger] graph.deps(t + 1)).len() == 0,
                            graph.deps(0).len() == 0,
                            graph.deps(k + 1).len() == i,
                            forall|i2: int|
                                0 <= i2 < i ==> resolves(all_passes, (#[trigger] dlist@[i2])@)
                                    && graph.deps(k + 1)[i2].0 as int == resolve_id(
                                    all_passes,
                                    dlist@[i2]@,
                                ),
                            forall|t: int|
                                0 <= t < k && table_contains(
                                    self.edges@,
                                    (#[trigger] all_passes[t]).0@,
                                ) ==> ({
                                    let ds = crate::table::table_get(
                                        self.edges@,
                                        all_passes[t].0@,
                                    )@;
                                    graph.deps(t + 1).len() == ds.len() && forall|i2: int|
                                        0 <= i2 < ds.len() ==> resolves(
                                            all_passes,
                                            (#[trigger] ds[i2])@,
                                        ) && graph.deps(t + 1)[i2].0 as int == resolve_id(
                                            all_passes,
                                            ds[i2]@,
                                        )
                                }),
                    {
                        let dep = &dlist[i];
                        if *dep == source_lit {
                            graph.add_edge(id, NodeId(0));
                        } else {
                            match table_lookup(&ids, dep) {
                                Some(did) => {
                                    let target = *did;
                                    proof {
                                        assert(target.0 as int == table_index_of(ids@, dep@) + 1);
                                        assert(table_index_of(ids@, dep@) == table_index_of(
                                            all_passes,
                                            dep@,
                                        ));
                                        assert((target.0 as int) < pass_count + 1);
                                    }
                                    graph.add_edge(id, target);
                                },
                                None => {
                                    proof {
                                        let ke = table_index_of(
                                            self.edges@,
                                            all_passes[k as int].0@,
                                        );
                                        assert(self.edges@[ke].1@[i as int]@ == dep@);
                                    }
                                    return Err(RenderGraphReadError::UndefinedPass(dep.clone()));
                                },
                            }
                        }
                    }
                },
            }
        }
        match table_lookup(&ids, &self.display) {
            Some(dnode) => {
                proof {
                    let w = table_index_of(ids@, self.display@);
                    assert(ids@[w].1.0 as int == w + 1);
                }
                Ok((graph, *dnode))
            },
            None => Err(RenderGraphReadError::UndefinedPass(self.display)),
        }
    }
}

} // verus!
