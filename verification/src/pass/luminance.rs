//! Configuration of the luminance pass, which grayscales an image.

use vstd::prelude::*;

use crate::parser::binding::{
    bind_enum_value, spec_bind_struct, struct_desc_wf, variant_match, EnumDesc, StructDesc,
};
use crate::parser::value::ParsedValue;
use crate::parser::{FromParsedValue, ParseValueError, ParseValueErrorView};

verus! {

/// A pass that computes the luminance of each pixel of its one
/// dependency image. The pixel arithmetic itself lives with the image
/// subsystem; the core handles the configuration.
pub struct Luminance {
    pub method: LuminanceMethod,
}

impl Luminance {
    pub fn new(method: LuminanceMethod) -> (r: Self)
        ensures
            r.method == method,
    {
        Self { method }
    }
}

/// The weighting formula used to collapse a color to one intensity.
#[derive(Clone, Copy, PartialEq, Eq, Structural, Debug)]
pub enum LuminanceMethod {
    Standard,
    FastPerceived,
    Perceived,
}

impl LuminanceMethod {
    /// The method's binding shape: three unit variants.
    pub fn shape() -> (r: EnumDesc)
        ensures
            r.variants@.len() == 3,
            r.variants@[0].name@ == "Standard"@,
            r.variants@[1].name@ == "FastPerceived"@,
            r.variants@[2].name@ == "Perceived"@,
            forall|k: int| 0 <= k < 3 ==> (#[trigger] r.variants@[k]).fields@.len() == 0,
            forall|k: int| 0 <= k < 3 ==> struct_desc_wf(#[trigger] r.variants@[k]),
    {
        let mut variants: Vec<StructDesc> = Vec::new();
        variants.push(StructDesc { name: "Standard".to_owned(), fields: Vec::new() });
        variants.push(StructDesc { name: "FastPerceived".to_owned(), fields: Vec::new() });
        variants.push(StructDesc { name: "Perceived".to_owned(), fields: Vec::new() });
        EnumDesc { variants }
    }

    /// Binds a dynamic value against the method's shape: the value's
    /// struct name picks the variant exactly.
    pub fn bind_from(shape: &EnumDesc, value: ParsedValue) -> (r: Result<
        LuminanceMethod,
        ParseValueError,
    >)
        requires
            shape.variants@.len() == 3,
            shape.variants@[0].name@ == "Standard"@,
            shape.variants@[1].name@ == "FastPerceived"@,
            shape.variants@[2].name@ == "Perceived"@,
            forall|k: int| 0 <= k < 3 ==> struct_desc_wf(#[trigger] shape.variants@[k]),
        ensures
            (value@.struct_name() is None) ==> (r matches Err(e) && e@
                == ParseValueErrorView::WrongType(
                "struct variant, tuple struct variant or unit struct variant"@,
                value@.type_label(),
            )),
            (value@.struct_name() is Some) ==> ({
                let nm = value@.struct_name()->0;
                let w = variant_match(shape.variants@, nm);
                &&& (w < 0 ==> (r matches Err(e) && e@ == ParseValueErrorView::UnknownVariant(nm)))
                &&& (w >= 0 ==> (spec_bind_struct(shape.variants@[w], value@.struct_fields())
                    matches Err(e2) ==> (r matches Err(e) && e@ == e2)))
                &&& ((w >= 0 && spec_bind_struct(shape.variants@[w], value@.struct_fields())
                    is Ok) ==> (r matches Ok(m) && m == (if w == 0 {
                    LuminanceMethod::Standard
                } else if w == 1 {
                    LuminanceMethod::FastPerceived
                } else {
                    LuminanceMethod::Perceived
                })))
            }),
    {
        match bind_enum_value(shape, value) {
            Err(e) => Err(e),
            Ok(out) => {
                proof {
                    reveal_strlit("Standard");
                    reveal_strlit("FastPerceived");
                    reveal_strlit("Perceived");
                    crate::parser::binding::lemma_variant_match_bound(
                        shape.variants@,
                        value@.struct_name()->0,
                    );
                }
                let (variant_name, _fields) = out;
                let ghost nm = value@.struct_name()->0;
                let ghost w = variant_match(shape.variants@, nm);
                proof {
                    assert(variant_name@ == shape.variants@[w].name@);
                    assert(0 <= w < 3);
                }
                let lit_standard: String = "Standard".to_owned();
                let lit_fast: String = "FastPerceived".to_owned();
                let lit_perceived: String = "Perceived".to_owned();
                if variant_name == lit_standard {
                    proof {
                        assert(w == 0) by {
                            if w == 1 || w == 2 {
                                assert(false);
                            }
                        }
                    }
                    Ok(LuminanceMethod::Standard)
                } else if variant_name == lit_fast {
                    proof {
                        assert(w == 1) by {
                            if w == 0 || w == 2 {
                                assert(false);
                            }
                        }
                    }
                    Ok(LuminanceMethod::FastPerceived)
                } else if variant_name == lit_perceived {
                    proof {
                        assert(w == 2) by {
                            if w == 0 || w == 1 {
                                assert(false);
                            }
                        }
                    }
                    Ok(LuminanceMethod::Perceived)
                } else {
                    proof {
                        assert(false);
                    }
                    Err(ParseValueError::UnknownVariant(variant_name))
                }
            },
        }
    }
}

impl FromParsedValue for LuminanceMethod {
    fn from_parsed_value(value: ParsedValue) -> Result<Self, ParseValueError> {
        let shape = LuminanceMethod::shape();
        LuminanceMethod::bind_from(&shape, value)
    }
}

} // verus!
