//! The interpreter and the graph reader, exercised end to end on
//! concrete scripts.

use nprs::parser::ast::{Expr, Field, PassArg, Statement};
use nprs::parser::interpreter::{Interpreter, InterpreterError};
use nprs::parser::value::ParsedValue;
use nprs::parser::{ParseValueError, RawRenderGraph, RenderGraphReadError};
use nprs::pass::{PassBinder, PassRegistry};

/// A stand-in pass instance: the type name and slot specifiers the
/// binder decided on.
#[derive(Debug)]
struct StubPass {
    kind_name: String,
    slots: Vec<String>,
}

/// A binder accepting any struct-shaped value, recording its name.
struct StubBinder;

impl PassBinder<StubPass> for StubBinder {
    fn bind(&self, value: ParsedValue) -> Result<StubPass, ParseValueError> {
        match value.struct_name() {
            Some(n) => Ok(StubPass { kind_name: n, slots: vec![] }),
            None => Err(ParseValueError::WrongType(
                "struct, tuple struct, or unit struct".to_owned(),
                value.type_label(),
            )),
        }
    }
}

fn registry() -> PassRegistry<StubBinder> {
    let mut r = PassRegistry::new();
    r.register("luminance".to_owned(), StubBinder);
    r
}

fn fresh() -> Interpreter<StubPass> {
    Interpreter::new(vec![])
}

#[test]
fn literals_evaluate_to_themselves() {
    let interp = fresh();
    assert!(matches!(
        interp.run_expr(&Expr::Int(42)),
        Ok(ParsedValue::Int(42))
    ));
    let bits = (2.5f32).to_bits();
    assert!(matches!(
        interp.run_expr(&Expr::Float(bits)),
        Ok(ParsedValue::Float(b)) if b == bits
    ));
}

#[test]
fn path_literals_lose_their_delimiters() {
    let interp = fresh();
    match interp.run_expr(&Expr::Path("\"img.png\"".to_owned())) {
        Ok(ParsedValue::Path(p)) => assert_eq!(p, "img.png"),
        other => panic!("unexpected result: {:?}", other),
    }
}

#[test]
fn idents_are_booleans_or_unit_structs() {
    let interp = fresh();
    assert!(matches!(
        interp.run_expr(&Expr::Ident("true".to_owned())),
        Ok(ParsedValue::Bool(true))
    ));
    assert!(matches!(
        interp.run_expr(&Expr::Ident("false".to_owned())),
        Ok(ParsedValue::Bool(false))
    ));
    match interp.run_expr(&Expr::Ident("Linear".to_owned())) {
        Ok(ParsedValue::UnitStruct(n)) => assert_eq!(n, "Linear"),
        other => panic!("unexpected result: {:?}", other),
    }
}

#[test]
fn unassigned_variable_is_undefined() {
    let interp = fresh();
    match interp.run_expr(&Expr::VarAccess("nope".to_owned())) {
        Err(InterpreterError::UndefinedVariable(v)) => assert_eq!(v, "nope"),
        other => panic!("unexpected result: {:?}", other),
    }
}

#[test]
fn tuple_struct_fields_are_keyed_by_index() {
    let interp = fresh();
    let e = Expr::TupleStruct {
        name: "Vec2".to_owned(),
        fields: vec![Box::new(Expr::Int(3)), Box::new(Expr::Int(4))],
    };
    match interp.run_expr(&e) {
        Ok(ParsedValue::Struct { name, fields }) => {
            assert_eq!(name, "Vec2");
            assert_eq!(fields.len(), 2);
            assert_eq!(fields[0].0, "0");
            assert!(matches!(fields[0].1, ParsedValue::Int(3)));
            assert_eq!(fields[1].0, "1");
            assert!(matches!(fields[1].1, ParsedValue::Int(4)));
        }
        other => panic!("unexpected result: {:?}", other),
    }
}

fn foo_literal(a: i32, b: i32) -> Expr {
    Expr::Struct {
        name: "Foo".to_owned(),
        fields: vec![
            Box::new(Field { ident: "a".to_owned(), value: Box::new(Expr::Int(a)) }),
            Box::new(Field { ident: "b".to_owned(), value: Box::new(Expr::Int(b)) }),
        ],
        update: None,
    }
}

#[test]
fn struct_update_fills_missing_fields_from_base() {
    let mut interp = fresh();
    let reg = registry();
    let assign = Statement::Assign {
        var: "base".to_owned(),
        value: Box::new(foo_literal(1, 2)),
    };
    assert!(interp.run_stmt(assign, &reg).is_ok());
    let updated = Expr::Struct {
        name: "Foo".to_owned(),
        fields: vec![Box::new(Field {
            ident: "a".to_owned(),
            value: Box::new(Expr::Int(3)),
        })],
        update: Some("base".to_owned()),
    };
    match interp.run_expr(&updated) {
        Ok(ParsedValue::Struct { name, fields }) => {
            assert_eq!(name, "Foo");
            assert_eq!(fields.len(), 2);
            assert_eq!(fields[0].0, "a");
            assert!(matches!(fields[0].1, ParsedValue::Int(3)));
            assert_eq!(fields[1].0, "b");
            assert!(matches!(fields[1].1, ParsedValue::Int(2)));
        }
        other => panic!("unexpected result: {:?}", other),
    }
}

#[test]
fn struct_update_requires_matching_base_name() {
    let mut interp = fresh();
    let reg = registry();
    let assign = Statement::Assign {
        var: "base".to_owned(),
        value: Box::new(foo_literal(1, 2)),
    };
    assert!(interp.run_stmt(assign, &reg).is_ok());
    let wrong = Expr::Struct {
        name: "Bar".to_owned(),
        fields: vec![],
        update: Some("base".to_owned()),
    };
    match interp.run_expr(&wrong) {
        Err(InterpreterError::InvalidType(expected, actual)) => {
            assert_eq!(expected, "struct `Bar`");
            assert_eq!(actual, "struct `Foo`");
        }
        other => panic!("unexpected result: {:?}", other),
    }
}

#[test]
fn argument_prefers_override_then_default_then_fails() {
    let override_bits = (2.5f32).to_bits();
    let default_bits = (1.0f32).to_bits();
    let with_override = Interpreter::<StubPass>::new(vec![PassArg {
        name: "x".to_owned(),
        value: Expr::Float(override_bits),
    }]);
    let arg = Expr::Argument {
        name: "x".to_owned(),
        default: Some(Box::new(Expr::Float(default_bits))),
    };
    assert!(matches!(
        with_override.run_expr(&arg),
        Ok(ParsedValue::Float(b)) if b == override_bits
    ));

    let without_override = fresh();
    let arg2 = Expr::Argument {
        name: "x".to_owned(),
        default: Some(Box::new(Expr::Float(default_bits))),
    };
    assert!(matches!(
        without_override.run_expr(&arg2),
        Ok(ParsedValue::Float(b)) if b == default_bits
    ));

    let bare = Expr::Argument { name: "x".to_owned(), default: None };
    match without_override.run_expr(&bare) {
        Err(InterpreterError::MissingArgument(n)) => assert_eq!(n, "x"),
        other => panic!("unexpected result: {:?}", other),
    }
}

#[test]
fn second_display_fails() {
    let mut interp = fresh();
    let reg = registry();
    assert!(interp
        .run_stmt(Statement::Display { pass: "a".to_owned() }, &reg)
        .is_ok());
    match interp.run_stmt(Statement::Display { pass: "b".to_owned() }, &reg) {
        Err(InterpreterError::MultipleDisplays) => {}
        other => panic!("unexpected result: {:?}", other),
    }
}

#[test]
fn script_without_display_fails_with_missing_display() {
    let stmts = vec![Statement::Pass {
        name: "lum".to_owned(),
        value: Box::new(Expr::Ident("luminance".to_owned())),
    }];
    match RawRenderGraph::<StubPass>::read(stmts, vec![], &registry()) {
        Err(RenderGraphReadError::MissingDisplay) => {}
        other => panic!("unexpected result: {:?}", other.map(|_| ())),
    }
}

#[test]
fn unknown_pass_type_fails_construction() {
    let stmts = vec![Statement::Pass {
        name: "k".to_owned(),
        value: Box::new(Expr::Ident("kuwahara".to_owned())),
    }];
    match RawRenderGraph::<StubPass>::read(stmts, vec![], &registry()) {
        Err(RenderGraphReadError::Interpreter(InterpreterError::RenderPass(e))) => {
            assert_eq!(
                format!("{:?}", e),
                "UnknownPass(\"kuwahara\")"
            );
        }
        other => panic!("unexpected result: {:?}", other.map(|_| ())),
    }
}

#[test]
fn pass_statement_requires_struct_shaped_value() {
    let stmts = vec![Statement::Pass {
        name: "p".to_owned(),
        value: Box::new(Expr::Int(7)),
    }];
    match RawRenderGraph::<StubPass>::read(stmts, vec![], &registry()) {
        Err(RenderGraphReadError::Interpreter(
            InterpreterError::InvalidPassAssignment(n),
        )) => assert_eq!(n, "p"),
        other => panic!("unexpected result: {:?}", other.map(|_| ())),
    }
}

#[test]
fn later_edge_statement_replaces_the_list() {
    let mut interp = fresh();
    let reg = registry();
    assert!(interp
        .run_stmt(
            Statement::Edge {
                pass: "p".to_owned(),
                dependencies: vec!["a".to_owned()],
            },
            &reg,
        )
        .is_ok());
    assert!(interp
        .run_stmt(
            Statement::Edge {
                pass: "p".to_owned(),
                dependencies: vec!["b".to_owned(), "c".to_owned()],
            },
            &reg,
        )
        .is_ok());
    assert_eq!(interp.edges.len(), 1);
    assert_eq!(interp.edges[0].0, "p");
    assert_eq!(interp.edges[0].1, vec!["b".to_owned(), "c".to_owned()]);
}

#[test]
fn the_last_override_of_a_name_wins() {
    let interp = Interpreter::<StubPass>::new(vec![
        PassArg { name: "x".to_owned(), value: Expr::Int(1) },
        PassArg { name: "x".to_owned(), value: Expr::Int(2) },
    ]);
    let arg = Expr::Argument { name: "x".to_owned(), default: None };
    assert!(matches!(interp.run_expr(&arg), Ok(ParsedValue::Int(2))));
}

#[test]
fn registry_lookup_takes_the_first_match() {
    /// Binders distinguishable by the slot list they hand out.
    struct Tagged(&'static str);
    impl PassBinder<StubPass> for Tagged {
        fn bind(&self, _value: ParsedValue) -> Result<StubPass, ParseValueError> {
            Ok(StubPass { kind_name: self.0.to_owned(), slots: vec![] })
        }
    }
    let mut r: PassRegistry<Tagged> = PassRegistry::new();
    r.register("luminance".to_owned(), Tagged("first"));
    r.register("luminance".to_owned(), Tagged("second"));
    let got: StubPass = r
        .construct(
            &"luminance".to_owned(),
            ParsedValue::UnitStruct("luminance".to_owned()),
        )
        .unwrap();
    assert_eq!(got.kind_name, "first");
}
