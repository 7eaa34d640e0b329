//! Building, verifying and rendering graphs, on a toy image type whose
//! pixels record the computation that produced them.

use std::cell::Cell;
use std::rc::Rc;

use nprs::image::sampler::{modulo, WrapMode, WrapMode2D};
use nprs::image::Image;
use nprs::parser::ast::{Expr, Statement};
use nprs::parser::value::ParsedValue;
use nprs::parser::{ParseValueError, RawRenderGraph, RenderGraphReadError};
use nprs::pass::{Pass, PassBinder, PassRegistry};
use nprs::render_graph::{NodeId, RenderGraph, RenderGraphVerifyError};
use nprs::text::decimal_string;

/// A toy image: one string that records how it was computed.
#[derive(Clone, Debug, PartialEq)]
struct Trace(String);

impl Image for Trace {
    fn blank_like(&self) -> Self {
        Trace(String::new())
    }
}

/// A pass that writes its own name applied to its inputs' traces, and
/// counts its invocations.
struct TracePass {
    kind_name: String,
    slots: Vec<String>,
    calls: Rc<Cell<usize>>,
}

impl TracePass {
    fn new(kind_name: &str, slots: &[&str]) -> TracePass {
        TracePass {
            kind_name: kind_name.to_owned(),
            slots: slots.iter().map(|s| (*s).to_owned()).collect(),
            calls: Rc::new(Cell::new(0)),
        }
    }
}

impl Pass<Trace> for TracePass {
    fn name(&self) -> String {
        self.kind_name.clone()
    }

    fn dependencies(&self) -> Vec<String> {
        self.slots.clone()
    }

    fn apply(&self, target: &mut Trace, aux_images: &[&Trace]) {
        self.calls.set(self.calls.get() + 1);
        let inputs: Vec<&str> = aux_images.iter().map(|i| i.0.as_str()).collect();
        target.0 = format!("{}({})", self.kind_name, inputs.join(","));
    }
}

#[test]
fn end_to_end_render_computes_dependencies_in_declared_order() {
    let mut g: RenderGraph<TracePass, Trace> = RenderGraph::new(Trace("src".to_owned()));
    let source = NodeId::source();
    let a_calls;
    // `a` depends on no other pass; it reads the source image.
    let a = {
        let p = TracePass::new("a", &["main"]);
        a_calls = p.calls.clone();
        g.add_node(p, &vec![source])
    };
    let b = g.add_node(TracePass::new("b", &["a"]), &vec![a]);
    let c = g.add_node(TracePass::new("c", &["a", "b"]), &vec![a, b]);
    assert!(g.verify().is_ok());
    g.render();
    // The display node is the root `c`; every buffer stays retrievable.
    assert_eq!(g.pop_image(c), Some(Trace("c(a(src),b(a(src)))".to_owned())));
    assert_eq!(g.pop_image(b), Some(Trace("b(a(src))".to_owned())));
    assert_eq!(g.pop_image(a), Some(Trace("a(src)".to_owned())));
    // `a` is recomputed once per consuming edge: no memoization.
    assert_eq!(a_calls.get(), 2);
}

#[test]
fn cyclic_graph_fails_verification_before_any_apply() {
    let mut g: RenderGraph<TracePass, Trace> = RenderGraph::new(Trace("src".to_owned()));
    let pa = TracePass::new("a", &["*"]);
    let pb = TracePass::new("b", &["*"]);
    let a_calls = pa.calls.clone();
    let b_calls = pb.calls.clone();
    let a = g.add_node(pa, &vec![]);
    let b = g.add_node(pb, &vec![a]);
    g.add_edge(a, b);
    match g.verify() {
        Err(RenderGraphVerifyError::CyclicGraph) => {}
        other => panic!("unexpected result: {:?}", other),
    }
    // Verification failed, so nothing was rendered and no pass ran.
    assert_eq!(a_calls.get(), 0);
    assert_eq!(b_calls.get(), 0);
}

#[test]
fn bad_dependency_count_reports_edges_and_slots() {
    let mut g: RenderGraph<TracePass, Trace> = RenderGraph::new(Trace("src".to_owned()));
    let source = NodeId::source();
    g.add_node(TracePass::new("a", &["*", "*"]), &vec![source]);
    match g.verify() {
        Err(RenderGraphVerifyError::BadDependencyCount(edges, slots, name)) => {
            assert_eq!(edges, 1);
            assert_eq!(slots, 2);
            assert_eq!(name, "a");
        }
        other => panic!("unexpected result: {:?}", other),
    }
}

#[test]
fn slot_naming_an_absent_pass_type_is_missing() {
    let mut g: RenderGraph<TracePass, Trace> = RenderGraph::new(Trace("src".to_owned()));
    let source = NodeId::source();
    g.add_node(TracePass::new("luminance", &["kuwahara"]), &vec![source]);
    match g.verify() {
        Err(RenderGraphVerifyError::MissingDependency(dep, name)) => {
            assert_eq!(dep, "kuwahara");
            assert_eq!(name, "luminance");
        }
        other => panic!("unexpected result: {:?}", other),
    }
}

#[test]
fn mismatched_slot_reports_expected_and_actual() {
    let mut g: RenderGraph<TracePass, Trace> = RenderGraph::new(Trace("src".to_owned()));
    let source = NodeId::source();
    let l = g.add_node(TracePass::new("luminance", &["main"]), &vec![source]);
    g.add_node(TracePass::new("xpass", &["main"]), &vec![l]);
    match g.verify() {
        Err(RenderGraphVerifyError::MismatchedDependency(name, expected, actual, idx)) => {
            assert_eq!(name, "xpass");
            assert_eq!(expected, "main");
            assert_eq!(actual, "luminance");
            assert_eq!(idx, 0);
        }
        other => panic!("unexpected result: {:?}", other),
    }
}

#[test]
fn wildcard_slot_accepts_any_target() {
    let mut g: RenderGraph<TracePass, Trace> = RenderGraph::new(Trace("src".to_owned()));
    let source = NodeId::source();
    let l = g.add_node(TracePass::new("luminance", &["main"]), &vec![source]);
    g.add_node(TracePass::new("xpass", &["*"]), &vec![l]);
    assert!(g.verify().is_ok());
}

#[test]
fn disconnected_pass_is_isolated() {
    let mut g: RenderGraph<TracePass, Trace> = RenderGraph::new(Trace("src".to_owned()));
    g.add_node(TracePass::new("a", &[]), &vec![]);
    match g.verify() {
        Err(RenderGraphVerifyError::IsolatedNode(name)) => assert_eq!(name, "a"),
        other => panic!("unexpected result: {:?}", other),
    }
}

#[test]
fn two_undepended_passes_are_multiple_roots() {
    let mut g: RenderGraph<TracePass, Trace> = RenderGraph::new(Trace("src".to_owned()));
    let source = NodeId::source();
    g.add_node(TracePass::new("a", &["main"]), &vec![source]);
    g.add_node(TracePass::new("b", &["main"]), &vec![source]);
    match g.verify() {
        Err(RenderGraphVerifyError::MultipleRoots) => {}
        other => panic!("unexpected result: {:?}", other),
    }
}

#[test]
fn main_image_hands_the_source_buffer_back() {
    let mut g: RenderGraph<TracePass, Trace> = RenderGraph::new(Trace("src".to_owned()));
    let source = NodeId::source();
    let l = g.add_node(TracePass::new("luminance", &["main"]), &vec![source]);
    assert!(g.verify().is_ok());
    g.render();
    assert_eq!(g.pop_image(l), Some(Trace("luminance(src)".to_owned())));
    assert_eq!(g.pop_image(l), None);
    assert_eq!(g.main_image(), Trace("src".to_owned()));
}

/// A binder mapping each registered pass type to its slot specifiers.
struct SlotBinder {
    slots: Vec<String>,
}

impl PassBinder<TracePass> for SlotBinder {
    fn bind(&self, value: ParsedValue) -> Result<TracePass, ParseValueError> {
        match value.struct_name() {
            Some(n) => Ok(TracePass {
                kind_name: n,
                slots: self.slots.clone(),
                calls: Rc::new(Cell::new(0)),
            }),
            None => Err(ParseValueError::WrongType(
                "struct, tuple struct, or unit struct".to_owned(),
                value.type_label(),
            )),
        }
    }
}

#[test]
fn whole_pipeline_reads_builds_verifies_and_renders() {
    let mut registry: PassRegistry<SlotBinder> = PassRegistry::new();
    registry.register(
        "luminance".to_owned(),
        SlotBinder { slots: vec!["main".to_owned()] },
    );
    registry.register(
        "boxblur".to_owned(),
        SlotBinder { slots: vec!["*".to_owned()] },
    );
    let stmts = vec![
        Statement::Pass {
            name: "lum".to_owned(),
            value: Box::new(Expr::Ident("luminance".to_owned())),
        },
        Statement::Pass {
            name: "blur".to_owned(),
            value: Box::new(Expr::Ident("boxblur".to_owned())),
        },
        Statement::Edge {
            pass: "lum".to_owned(),
            dependencies: vec!["source".to_owned()],
        },
        Statement::Edge {
            pass: "blur".to_owned(),
            dependencies: vec!["lum".to_owned()],
        },
        Statement::Display { pass: "blur".to_owned() },
    ];
    let raw = RawRenderGraph::read(stmts, vec![], &registry).unwrap();
    let (mut g, display) = raw.build(Trace("src".to_owned())).unwrap();
    assert!(g.verify().is_ok());
    g.render();
    assert_eq!(
        g.pop_image(display),
        Some(Trace("boxblur(luminance(src))".to_owned()))
    );
}

#[test]
fn edge_to_an_unknown_pass_fails_the_build() {
    let mut registry: PassRegistry<SlotBinder> = PassRegistry::new();
    registry.register(
        "luminance".to_owned(),
        SlotBinder { slots: vec!["main".to_owned()] },
    );
    let stmts = vec![
        Statement::Pass {
            name: "lum".to_owned(),
            value: Box::new(Expr::Ident("luminance".to_owned())),
        },
        Statement::Edge {
            pass: "lum".to_owned(),
            dependencies: vec!["ghostly".to_owned()],
        },
        Statement::Display { pass: "lum".to_owned() },
    ];
    let raw = RawRenderGraph::read(stmts, vec![], &registry).unwrap();
    match raw.build(Trace("src".to_owned())) {
        Err(RenderGraphReadError::UndefinedPass(n)) => assert_eq!(n, "ghostly"),
        other => panic!("unexpected result: {:?}", other.map(|_| ())),
    }
}

#[test]
fn display_naming_an_unknown_pass_fails_the_build() {
    let mut registry: PassRegistry<SlotBinder> = PassRegistry::new();
    registry.register(
        "luminance".to_owned(),
        SlotBinder { slots: vec!["main".to_owned()] },
    );
    let stmts = vec![
        Statement::Pass {
            name: "lum".to_owned(),
            value: Box::new(Expr::Ident("luminance".to_owned())),
        },
        Statement::Edge {
            pass: "lum".to_owned(),
            dependencies: vec!["source".to_owned()],
        },
        Statement::Display { pass: "phantom".to_owned() },
    ];
    let raw = RawRenderGraph::read(stmts, vec![], &registry).unwrap();
    match raw.build(Trace("src".to_owned())) {
        Err(RenderGraphReadError::UndefinedPass(n)) => assert_eq!(n, "phantom"),
        other => panic!("unexpected result: {:?}", other.map(|_| ())),
    }
}

#[test]
fn modulo_is_always_in_range() {
    assert_eq!(modulo(7, 3), 1);
    assert_eq!(modulo(-1, 3), 2);
    assert_eq!(modulo(-6, 3), 0);
    assert_eq!(modulo(i32::MIN, 7), ((i32::MIN as i64).rem_euclid(7)) as i32);
}

#[test]
fn remap_wraps_per_axis() {
    let wrap = WrapMode2D::new(WrapMode::Repeat, WrapMode::Clamp);
    assert_eq!(wrap.remap((-1, 99), (10, 20)), Some((9, 19)));
    let black = WrapMode2D::new(WrapMode::Black, WrapMode::Black);
    assert_eq!(black.remap((5, 5), (10, 10)), Some((5, 5)));
    assert_eq!(black.remap((-1, 5), (10, 10)), None);
}

#[test]
fn decimal_rendering_matches_std() {
    for n in [0usize, 1, 9, 10, 42, 100, 9876] {
        assert_eq!(decimal_string(n), n.to_string());
    }
}
