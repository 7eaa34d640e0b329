//! Configuration of the box-blur pass.

use vstd::prelude::*;

use crate::parser::binding::{
    bind_struct_value, spec_bind_struct, struct_desc_wf, BoundValue, BoundView, FieldDesc,
    StructDesc, TypeDesc,
};
use crate::parser::value::ParsedValue;
use crate::parser::{FromParsedValue, ParseValueError, ParseValueErrorView};

verus! {

/// A pass that performs a box blur on its one dependency image.
pub struct BoxBlur {
    /// The side length of the averaging kernel; always odd.
    pub kernel_size: usize,
}

impl BoxBlur {
    pub fn new(kernel_radius: usize) -> (r: Self)
        requires
            kernel_radius <= (usize::MAX - 1) / 2,
        ensures
            r.kernel_size == 2 * kernel_radius + 1,
    {
        let kernel_size = 2 * kernel_radius + 1;
        Self { kernel_size }
    }

    /// The kernel size a builder produces: the blur is configured by a
    /// radius, from which the kernel's odd side length is derived.
    pub fn from_builder(builder: BoxBlurBuilder) -> (r: Self)
        requires
            builder.kernel_radius <= (usize::MAX - 1) / 2,
        ensures
            r.kernel_size == 2 * builder.kernel_radius + 1,
    {
        BoxBlur::new(builder.kernel_radius)
    }
}

/// The user-facing shape of the box-blur configuration: the script gives
/// a radius, from which the kernel size is derived — a builder shape in
/// front of the pass configuration proper.
pub struct BoxBlurBuilder {
    pub kernel_radius: usize,
}

impl BoxBlurBuilder {
    /// The builder's binding shape: one required integer field,
    /// `kernel_radius`.
    pub fn shape() -> (r: StructDesc)
        ensures
            r.name@ == "boxblur"@,
            r.fields@.len() == 1,
            r.fields@[0].name@ == "kernel_radius"@,
            r.fields@[0].alias is None,
            r.fields@[0].default is None,
            r.fields@[0].ty is Int,
            struct_desc_wf(r),
    {
        let mut fields: Vec<FieldDesc> = Vec::new();
        fields.push(
            FieldDesc {
                name: "kernel_radius".to_owned(),
                alias: None,
                default: None,
                ty: TypeDesc::Int,
            },
        );
        StructDesc { name: "boxblur".to_owned(), fields }
    }

    /// Binds a dynamic value against the builder's shape. The radius is
    /// the bound integer reinterpreted into a machine word.
    pub fn bind_from(shape: &StructDesc, value: ParsedValue) -> (r: Result<
        BoxBlurBuilder,
        ParseValueError,
    >)
        requires
            struct_desc_wf(*shape),
            shape.fields@.len() == 1,
            shape.fields@[0].ty is Int,
        ensures
            (value@.struct_name() is None) ==> (r matches Err(e) && e@
                == ParseValueErrorView::WrongType(
                "struct, tuple struct, or unit struct"@,
                value@.type_label(),
            )),
            (value@.struct_name() is Some) ==> (spec_bind_struct(
                *shape,
                value@.struct_fields(),
            ) matches Err(e2) ==> (r matches Err(e) && e@ == e2)),
            (value@.struct_name() is Some) ==> (spec_bind_struct(
                *shape,
                value@.struct_fields(),
            ) matches Ok(fs) ==> (fs.len() == 1 ==> (fs[0].1 matches BoundView::Int(x) ==> (r
                matches Ok(bb) && bb.kernel_radius == x as usize)))),
    {
        match bind_struct_value(shape, value) {
            Err(e) => Err(e),
            Ok(out) => {
                proof {
                    crate::parser::binding::lemma_bound_fields_view_index(out@);
                }
                let mut fields = out;
                if fields.len() != 1 {
                    return Err(
                        ParseValueError::WrongType("int".to_owned(), "int".to_owned()),
                    );
                }
                let entry = fields.remove(0);
                match entry.1 {
                    BoundValue::Int(x) => Ok(
                        BoxBlurBuilder { kernel_radius: #[verifier::truncate] (x as usize) },
                    ),
                    _ => Err(ParseValueError::WrongType("int".to_owned(), "int".to_owned())),
                }
            },
        }
    }
}

impl FromParsedValue for BoxBlurBuilder {
    fn from_parsed_value(value: ParsedValue) -> Result<Self, ParseValueError> {
        let shape = BoxBlurBuilder::shape();
        BoxBlurBuilder::bind_from(&shape, value)
    }
}

} // verus!
