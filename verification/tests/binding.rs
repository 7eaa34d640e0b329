//! Typed binding: struct shapes, defaults, aliases, enum dispatch, and
//! the builder-shaped configurations.

use nprs::parser::binding::{
    bind_value, BoundValue, FieldDefault, FieldDesc, StructDesc, TypeDesc,
};
use nprs::parser::value::ParsedValue;
use nprs::parser::{FromParsedValue, ParseValueError};
use nprs::pass::blur::box_blur::{BoxBlur, BoxBlurBuilder};
use nprs::pass::luminance::LuminanceMethod;

/// The shape `{a: int, default 5; b: int, required}`.
fn foo_shape() -> TypeDesc {
    TypeDesc::Struct(Box::new(StructDesc {
        name: "Foo".to_owned(),
        fields: vec![
            FieldDesc {
                name: "a".to_owned(),
                alias: None,
                default: Some(FieldDefault::Value(BoundValue::Int(5))),
                ty: TypeDesc::Int,
            },
            FieldDesc {
                name: "b".to_owned(),
                alias: None,
                default: None,
                ty: TypeDesc::Int,
            },
        ],
    }))
}

fn foo_value(fields: Vec<(&str, ParsedValue)>) -> ParsedValue {
    ParsedValue::Struct {
        name: "Foo".to_owned(),
        fields: fields.into_iter().map(|(k, v)| (k.to_owned(), v)).collect(),
    }
}

#[test]
fn missing_field_with_default_is_filled() {
    let r = bind_value(&foo_shape(), foo_value(vec![("b", ParsedValue::Int(7))]));
    match r {
        Ok(BoundValue::Struct { name, fields }) => {
            assert_eq!(name, "Foo");
            assert_eq!(fields.len(), 2);
            assert_eq!(fields[0].0, "a");
            assert!(matches!(fields[0].1, BoundValue::Int(5)));
            assert_eq!(fields[1].0, "b");
            assert!(matches!(fields[1].1, BoundValue::Int(7)));
        }
        other => panic!("unexpected result: {:?}", other),
    }
}

#[test]
fn missing_required_field_fails() {
    let r = bind_value(&foo_shape(), foo_value(vec![]));
    match r {
        Err(ParseValueError::MissingField(f)) => assert_eq!(f, "b"),
        other => panic!("unexpected result: {:?}", other),
    }
}

#[test]
fn unknown_field_fails() {
    let r = bind_value(
        &foo_shape(),
        foo_value(vec![("b", ParsedValue::Int(1)), ("c", ParsedValue::Int(2))]),
    );
    match r {
        Err(ParseValueError::UnknownField(f)) => assert_eq!(f, "c"),
        other => panic!("unexpected result: {:?}", other),
    }
}

#[test]
fn duplicate_field_fails_under_canonical_name() {
    let shape = TypeDesc::Struct(Box::new(StructDesc {
        name: "Foo".to_owned(),
        fields: vec![FieldDesc {
            name: "a".to_owned(),
            alias: Some("alpha".to_owned()),
            default: None,
            ty: TypeDesc::Int,
        }],
    }));
    let r = bind_value(
        &shape,
        foo_value(vec![("alpha", ParsedValue::Int(1)), ("a", ParsedValue::Int(2))]),
    );
    match r {
        Err(ParseValueError::DuplicateField(f)) => assert_eq!(f, "a"),
        other => panic!("unexpected result: {:?}", other),
    }
}

#[test]
fn alias_reaches_the_same_field() {
    let shape = TypeDesc::Struct(Box::new(StructDesc {
        name: "Foo".to_owned(),
        fields: vec![FieldDesc {
            name: "a".to_owned(),
            alias: Some("alpha".to_owned()),
            default: None,
            ty: TypeDesc::Int,
        }],
    }));
    let r = bind_value(&shape, foo_value(vec![("alpha", ParsedValue::Int(9))]));
    match r {
        Ok(BoundValue::Struct { fields, .. }) => {
            assert_eq!(fields[0].0, "a");
            assert!(matches!(fields[0].1, BoundValue::Int(9)));
        }
        other => panic!("unexpected result: {:?}", other),
    }
}

#[test]
fn sibling_default_copies_a_resolved_field() {
    let shape = TypeDesc::Struct(Box::new(StructDesc {
        name: "Pair".to_owned(),
        fields: vec![
            FieldDesc {
                name: "x".to_owned(),
                alias: None,
                default: None,
                ty: TypeDesc::Int,
            },
            FieldDesc {
                name: "y".to_owned(),
                alias: None,
                default: Some(FieldDefault::Sibling("x".to_owned())),
                ty: TypeDesc::Int,
            },
        ],
    }));
    let value = ParsedValue::Struct {
        name: "Pair".to_owned(),
        fields: vec![("x".to_owned(), ParsedValue::Int(11))],
    };
    match bind_value(&shape, value) {
        Ok(BoundValue::Struct { fields, .. }) => {
            assert!(matches!(fields[1].1, BoundValue::Int(11)));
        }
        other => panic!("unexpected result: {:?}", other),
    }
}

#[test]
fn wrong_runtime_type_reports_both_sides() {
    let r = bind_value(&TypeDesc::Int, ParsedValue::Bool(true));
    match r {
        Err(ParseValueError::WrongType(expected, actual)) => {
            assert_eq!(expected, "int");
            assert_eq!(actual, "bool");
        }
        other => panic!("unexpected result: {:?}", other),
    }
}

#[test]
fn optional_accepts_some_and_none() {
    let ty = TypeDesc::Optional(Box::new(TypeDesc::Int));
    let some = ParsedValue::Struct {
        name: "Some".to_owned(),
        fields: vec![("0".to_owned(), ParsedValue::Int(3))],
    };
    match bind_value(&ty, some) {
        Ok(BoundValue::Optional(Some(b))) => assert!(matches!(*b, BoundValue::Int(3))),
        other => panic!("unexpected result: {:?}", other),
    }
    let none = ParsedValue::UnitStruct("None".to_owned());
    assert!(matches!(bind_value(&ty, none), Ok(BoundValue::Optional(None))));
    let other = ParsedValue::UnitStruct("Maybe".to_owned());
    match bind_value(&ty, other) {
        Err(ParseValueError::UnknownVariant(n)) => assert_eq!(n, "Maybe"),
        r => panic!("unexpected result: {:?}", r),
    }
}

#[test]
fn enum_dispatch_picks_the_named_variant() {
    let v = ParsedValue::UnitStruct("FastPerceived".to_owned());
    assert!(matches!(
        LuminanceMethod::from_parsed_value(v),
        Ok(LuminanceMethod::FastPerceived)
    ));
    let unknown = ParsedValue::UnitStruct("Gamma".to_owned());
    match LuminanceMethod::from_parsed_value(unknown) {
        Err(ParseValueError::UnknownVariant(n)) => assert_eq!(n, "Gamma"),
        other => panic!("unexpected result: {:?}", other),
    }
}

#[test]
fn box_blur_binds_through_its_builder() {
    let v = ParsedValue::Struct {
        name: "boxblur".to_owned(),
        fields: vec![("kernel_radius".to_owned(), ParsedValue::Int(2))],
    };
    let builder = BoxBlurBuilder::from_parsed_value(v).unwrap();
    assert_eq!(builder.kernel_radius, 2);
    let blur = BoxBlur::from_builder(builder);
    assert_eq!(blur.kernel_size, 5);
}

#[test]
fn box_blur_rejects_a_wrongly_typed_radius() {
    let v = ParsedValue::Struct {
        name: "boxblur".to_owned(),
        fields: vec![("kernel_radius".to_owned(), ParsedValue::Bool(false))],
    };
    match BoxBlurBuilder::from_parsed_value(v) {
        Err(ParseValueError::WrongType(expected, actual)) => {
            assert_eq!(expected, "int");
            assert_eq!(actual, "bool");
        }
        other => panic!("unexpected result: {:?}", other.map(|_| ())),
    }
}
