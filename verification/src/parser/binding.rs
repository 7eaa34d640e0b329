//! Typed binding: validated conversion of a dynamic value into a typed
//! configuration.
//!
//! One generic algorithm, driven by a per-target shape description,
//! replaces per-type conversion code: a struct shape lists its expected
//! fields — each with a canonical name, an optional alias, an optional
//! default — and an enum shape lists its variants. Binding consumes the
//! value's field table, detecting unknown, duplicate and missing
//! fields, recursing into nested shapes, and resolving defaults last,
//! in declared order; a default may copy an already-resolved sibling
//! field. Derived or computed configurations bind through an
//! intermediate builder shape whose result the caller converts.
//!
//! Binding is pure: it either produces a complete `BoundValue` or the
//! first error, specified exactly by `spec_bind`.

use vstd::prelude::*;

use crate::parser::value::{fields_view, lemma_fields_view_index, ParsedValue, ValueView};
use crate::parser::{ParseValueError, ParseValueErrorView};
use crate::table::{kv_contains, kv_get};

verus! {

/// The shape of a binding target.
pub enum TypeDesc {
    /// A 32-bit integer.
    Int,
    /// A 32-bit floating-point number, carried as its bit pattern.
    Float,
    /// A boolean.
    Bool,
    /// A path string.
    Path,
    /// An optional value: `Some(x)` or `None` at the script level.
    Optional(Box<TypeDesc>),
    /// A struct with declared fields.
    Struct(Box<StructDesc>),
    /// An enum: the value's struct name picks the variant.
    Enum(Box<EnumDesc>),
}

/// What fills a declared field that the value left out.
pub enum FieldDefault {
    /// A fixed value.
    Value(BoundValue),
    /// A copy of an already-resolved sibling field, by raw name.
    Sibling(String),
}

/// One expected field of a struct shape. Tuple-struct fields carry
/// their decimal index as their name.
pub struct FieldDesc {
    /// The canonical name, which keys the bound field table.
    pub name: String,
    /// An alternative accepted spelling, if any.
    pub alias: Option<String>,
    /// How to fill the field when the value does not supply it; a field
    /// without a default is required.
    pub default: Option<FieldDefault>,
    /// The field's own shape.
    pub ty: TypeDesc,
}

/// A struct shape: a name and its expected fields.
pub struct StructDesc {
    pub name: String,
    pub fields: Vec<FieldDesc>,
}

/// An enum shape: its variants, each a struct shape named after the
/// variant.
pub struct EnumDesc {
    pub variants: Vec<StructDesc>,
}

/// A successfully bound value: every struct field table is complete, in
/// declared order, under canonical names.
#[derive(Debug)]
pub enum BoundValue {
    Int(i32),
    Float(u32),
    Bool(bool),
    Path(String),
    /// A bound optional; the payload is boxed.
    Optional(Option<Box<BoundValue>>),
    /// A bound struct or enum variant.
    Struct { name: String, fields: Vec<(String, BoundValue)> },
}

/// The mathematical model of a `BoundValue`. The optional is modelled
/// as a sequence of length at most one.
pub enum BoundView {
    Int(i32),
    Float(u32),
    Bool(bool),
    Path(Seq<char>),
    Optional(Seq<BoundView>),
    Struct { name: Seq<char>, fields: Seq<(Seq<char>, BoundView)> },
}

/// The view of a bound field table.
pub open spec fn bound_fields_view(s: Seq<(String, BoundValue)>) -> Seq<(Seq<char>, BoundView)>
    decreases s,
{
    if s.len() == 0 {
        Seq::empty()
    } else {
        bound_fields_view(s.drop_last()).push((s.last().0@, s.last().1@))
    }
}

impl View for BoundValue {
    type V = BoundView;

    open spec fn view(&self) -> BoundView
        decreases self,
    {
        match self {
            BoundValue::Int(v) => BoundView::Int(*v),
            BoundValue::Float(v) => BoundView::Float(*v),
            BoundValue::Bool(b) => BoundView::Bool(*b),
            BoundValue::Path(p) => BoundView::Path(p@),
            BoundValue::Optional(o) => match o {
                Some(b) => BoundView::Optional(seq![(**b)@]),
                None => BoundView::Optional(Seq::empty()),
            },
            BoundValue::Struct { name, fields } => BoundView::Struct {
                name: name@,
                fields: bound_fields_view(fields@),
            },
        }
    }
}

/// A bound field table's view pairs up views pointwise.
pub proof fn lemma_bound_fields_view_index(s: Seq<(String, BoundValue)>)
    ensures
        bound_fields_view(s).len() == s.len(),
        forall|i: int| 0 <= i < s.len() ==> bound_fields_view(s)[i] == (s[i].0@, s[i].1@),
    decreases s,
{
    if s.len() > 0 {
        lemma_bound_fields_view_index(s.drop_last());
        assert forall|i: int| 0 <= i < s.len() implies bound_fields_view(s)[i] == (
            s[i].0@,
            s[i].1@,
        ) by {
            if i < s.len() - 1 {
                assert(bound_fields_view(s)[i] == bound_fields_view(s.drop_last())[i]);
                assert(s.drop_last()[i] == s[i]);
            } else {
                assert(bound_fields_view(s)[i] == (s.last().0@, s.last().1@));
            }
        }
    }
}

/// A match index is always below the field count.
pub proof fn lemma_field_match_bound(fields: Seq<FieldDesc>, key: Seq<char>)
    ensures
        field_match(fields, key) < fields.len(),
    decreases fields,
{
    if fields.len() > 0 {
        lemma_field_match_bound(fields.drop_first(), key);
    }
}

/// A variant match index is always below the variant count.
pub proof fn lemma_variant_match_bound(variants: Seq<StructDesc>, name: Seq<char>)
    ensures
        variant_match(variants, name) < variants.len(),
    decreases variants,
{
    if variants.len() > 0 {
        lemma_variant_match_bound(variants.drop_first(), name);
    }
}

/// The declared field a supplied key matches: the first whose canonical
/// name or alias equals the key, or `-1`.
pub open spec fn field_match(fields: Seq<FieldDesc>, key: Seq<char>) -> int
    decreases fields,
{
    if fields.len() == 0 {
        -1
    } else if fields[0].name@ == key || (fields[0].alias matches Some(a) && a@ == key) {
        0
    } else {
        let r = field_match(fields.drop_first(), key);
        if r < 0 {
            -1
        } else {
            r + 1
        }
    }
}

/// The variant a struct name picks: the first with that name, or `-1`.
pub open spec fn variant_match(variants: Seq<StructDesc>, name: Seq<char>) -> int
    decreases variants,
{
    if variants.len() == 0 {
        -1
    } else if variants[0].name@ == name {
        0
    } else {
        let r = variant_match(variants.drop_first(), name);
        if r < 0 {
            -1
        } else {
            r + 1
        }
    }
}

/// Consumes the supplied fields front to back, filling declared slots:
/// an unmatched key is unknown, a matched-but-filled slot is a
/// duplicate, and a matched value binds recursively against the slot's
/// shape.
pub open spec fn spec_bind_fields(
    fields: Seq<FieldDesc>,
    filled: Seq<Option<BoundView>>,
    supplied: Seq<(Seq<char>, ValueView)>,
) -> Result<Seq<Option<BoundView>>, ParseValueErrorView>
    decreases fields, supplied, 1int,
        via spec_bind_fields_dec
{
    if supplied.len() == 0 {
        Ok(filled)
    } else {
        let key = supplied[0].0;
        let m = field_match(fields, key);
        if m < 0 {
            Err(ParseValueErrorView::UnknownField(key))
        } else if filled[m] is Some {
            Err(ParseValueErrorView::DuplicateField(fields[m].name@))
        } else {
            match spec_bind(fields[m].ty, supplied[0].1) {
                Err(e) => Err(e),
                Ok(bv) => spec_bind_fields(fields, filled.update(m, Some(bv)), supplied.drop_first()),
            }
        }
    }
}

#[via_fn]
proof fn spec_bind_fields_dec(
    fields: Seq<FieldDesc>,
    filled: Seq<Option<BoundView>>,
    supplied: Seq<(Seq<char>, ValueView)>,
) {
    if supplied.len() > 0 {
        lemma_field_match_bound(fields, supplied[0].0);
    }
}

/// Resolves every still-empty slot from its default, in declared order;
/// a slot with neither value nor default is a missing field. A sibling
/// default copies a field already resolved at that point.
pub open spec fn spec_resolve_defaults(
    fields: Seq<FieldDesc>,
    filled: Seq<Option<BoundView>>,
    m: int,
    out: Seq<(Seq<char>, BoundView)>,
) -> Result<Seq<(Seq<char>, BoundView)>, ParseValueErrorView>
    decreases fields.len() - m,
{
    if m < 0 || m >= fields.len() {
        Ok(out)
    } else {
        match filled[m] {
            Some(bv) => spec_resolve_defaults(fields, filled, m + 1, out.push((fields[m].name@, bv))),
            None => match fields[m].default {
                None => Err(ParseValueErrorView::MissingField(fields[m].name@)),
                Some(FieldDefault::Value(b)) => spec_resolve_defaults(
                    fields,
                    filled,
                    m + 1,
                    out.push((fields[m].name@, b@)),
                ),
                Some(FieldDefault::Sibling(s)) => if kv_contains(out, s@) {
                    spec_resolve_defaults(
                        fields,
                        filled,
                        m + 1,
                        out.push((fields[m].name@, kv_get(out, s@))),
                    )
                } else {
                    Err(ParseValueErrorView::MissingField(s@))
                },
            },
        }
    }
}

/// Steps 1 and 2 for one struct shape over an already-extracted field
/// table.
pub open spec fn spec_bind_struct(
    desc: StructDesc,
    supplied: Seq<(Seq<char>, ValueView)>,
) -> Result<Seq<(Seq<char>, BoundView)>, ParseValueErrorView>
    decreases desc.fields, supplied, 2int,
{
    match spec_bind_fields(
        desc.fields@,
        Seq::new(desc.fields@.len() as nat, |i: int| None),
        supplied,
    ) {
        Err(e) => Err(e),
        Ok(filled) => spec_resolve_defaults(desc.fields@, filled, 0, Seq::empty()),
    }
}

/// What binding a dynamic value against a shape yields.
pub open spec fn spec_bind(ty: TypeDesc, v: ValueView) -> Result<BoundView, ParseValueErrorView>
    decreases ty, v, 3int,
        via spec_bind_dec
{
    match ty {
        TypeDesc::Int => match v {
            ValueView::Int(x) => Ok(BoundView::Int(x)),
            _ => Err(ParseValueErrorView::WrongType("int"@, v.type_label())),
        },
        TypeDesc::Float => match v {
            ValueView::Float(x) => Ok(BoundView::Float(x)),
            _ => Err(ParseValueErrorView::WrongType("float"@, v.type_label())),
        },
        TypeDesc::Bool => match v {
            ValueView::Bool(x) => Ok(BoundView::Bool(x)),
            _ => Err(ParseValueErrorView::WrongType("bool"@, v.type_label())),
        },
        TypeDesc::Path => match v {
            ValueView::Path(p) => Ok(BoundView::Path(p)),
            _ => Err(ParseValueErrorView::WrongType("path"@, v.type_label())),
        },
        TypeDesc::Optional(inner) => match v.struct_name() {
            None => Err(ParseValueErrorView::WrongType("`Some` or `None`"@, v.type_label())),
            Some(nm) => if nm == "Some"@ {
                spec_bind_some(*inner, v.struct_fields())
            } else if nm == "None"@ {
                Ok(BoundView::Optional(Seq::empty()))
            } else {
                Err(ParseValueErrorView::UnknownVariant(nm))
            },
        },
        TypeDesc::Struct(desc) => match v.struct_name() {
            None => Err(
                ParseValueErrorView::WrongType(
                    "struct, tuple struct, or unit struct"@,
                    v.type_label(),
                ),
            ),
            Some(nm) => match spec_bind_struct(*desc, v.struct_fields()) {
                Err(e) => Err(e),
                Ok(fs) => Ok(BoundView::Struct { name: desc.name@, fields: fs }),
            },
        },
        TypeDesc::Enum(desc) => match v.struct_name() {
            None => Err(
                ParseValueErrorView::WrongType(
                    "struct variant, tuple struct variant or unit struct variant"@,
                    v.type_label(),
                ),
            ),
            Some(nm) => {
                let w = variant_match(desc.variants@, nm);
                if w < 0 {
                    Err(ParseValueErrorView::UnknownVariant(nm))
                } else {
                    match spec_bind_struct(desc.variants@[w], v.struct_fields()) {
                        Err(e) => Err(e),
                        Ok(fs) => Ok(
                            BoundView::Struct { name: desc.variants@[w].name@, fields: fs },
                        ),
                    }
                }
            },
        },
    }
}

#[via_fn]
proof fn spec_bind_dec(ty: TypeDesc, v: ValueView) {
    match ty {
        TypeDesc::Enum(desc) => {
            match v.struct_name() {
                Some(nm) => {
                    lemma_variant_match_bound(desc.variants@, nm);
                },
                None => {},
            }
        },
        _ => {},
    }
}

/// Binds the payload of a `Some`: exactly one field, keyed `"0"`.
pub open spec fn spec_bind_some(
    inner: TypeDesc,
    supplied: Seq<(Seq<char>, ValueView)>,
) -> Result<BoundView, ParseValueErrorView>
    decreases inner, supplied, 4int,
{
    if supplied.len() == 0 {
        Err(ParseValueErrorView::MissingField("0"@))
    } else if supplied[0].0 != "0"@ {
        Err(ParseValueErrorView::UnknownField(supplied[0].0))
    } else if supplied.len() > 1 {
        if supplied[1].0 == "0"@ {
            Err(ParseValueErrorView::DuplicateField("0"@))
        } else {
            Err(ParseValueErrorView::UnknownField(supplied[1].0))
        }
    } else {
        match spec_bind(inner, supplied[0].1) {
            Err(e) => Err(e),
            Ok(bv) => Ok(BoundView::Optional(seq![bv])),
        }
    }
}

/// A struct shape's canonical field names are pairwise distinct and its
/// field shapes are themselves well-formed.
pub open spec fn struct_desc_wf(desc: StructDesc) -> bool
    decreases desc, 1int,
{
    &&& forall|i: int, j: int|
        0 <= i < j < desc.fields@.len() ==> (#[trigger] desc.fields@[i]).name@ != (
        #[trigger] desc.fields@[j]).name@
    &&& forall|i: int|
        0 <= i < desc.fields@.len() ==> shape_wf((#[trigger] desc.fields@[i]).ty)
}

/// Every struct shape reachable from the target has distinct canonical
/// field names; binding requires this so that sibling defaults resolve
/// unambiguously.
pub open spec fn shape_wf(ty: TypeDesc) -> bool
    decreases ty, 0int,
{
    match ty {
        TypeDesc::Int => true,
        TypeDesc::Float => true,
        TypeDesc::Bool => true,
        TypeDesc::Path => true,
        TypeDesc::Optional(inner) => shape_wf(*inner),
        TypeDesc::Struct(desc) => struct_desc_wf(*desc),
        TypeDesc::Enum(desc) => forall|k: int|
            0 <= k < desc.variants@.len() ==> struct_desc_wf(#[trigger] desc.variants@[k]),
    }
}

/// The view of a fill table.
pub open spec fn filled_view(s: Seq<Option<BoundValue>>) -> Seq<Option<BoundView>>
    decreases s,
{
    if s.len() == 0 {
        Seq::empty()
    } else {
        filled_view(s.drop_last()).push(
            match s.last() {
                Some(b) => Some(b@),
                None => None,
            },
        )
    }
}

/// A fill table's view pairs up views pointwise.
pub proof fn lemma_filled_view_index(s: Seq<Option<BoundValue>>)
    ensures
        filled_view(s).len() == s.len(),
        forall|i: int|
            0 <= i < s.len() ==> filled_view(s)[i] == (match s[i] {
                Some(b) => Some(b@),
                None => None::<BoundView>,
            }),
    decreases s,
{
    if s.len() > 0 {
        lemma_filled_view_index(s.drop_last());
        assert forall|i: int| 0 <= i < s.len() implies filled_view(s)[i] == (match s[i] {
            Some(b) => Some(b@),
            None => None::<BoundView>,
        }) by {
            if i < s.len() - 1 {
                assert(filled_view(s)[i] == filled_view(s.drop_last())[i]);
                assert(s.drop_last()[i] == s[i]);
            }
        }
    }
}

/// Whether a supplied key names this declared field, canonically or by
/// alias.
pub open spec fn matches_field(f: FieldDesc, key: Seq<char>) -> bool {
    f.name@ == key || (f.alias matches Some(a) && a@ == key)
}

/// `field_match` yields the first matching index.
proof fn lemma_field_match_first(fields: Seq<FieldDesc>, key: Seq<char>, m: int)
    requires
        0 <= m <= fields.len(),
        forall|j: int| 0 <= j < m ==> !matches_field(#[trigger] fields[j], key),
        m < fields.len() ==> matches_field(fields[m], key),
    ensures
        m < fields.len() ==> field_match(fields, key) == m,
        m == fields.len() ==> field_match(fields, key) == -1,
    decreases fields,
{
    if fields.len() > 0 {
        if m == 0 {
        } else {
            assert(!matches_field(fields[0], key));
            lemma_field_match_first(fields.drop_first(), key, m - 1);
            assert forall|j: int| 0 <= j < m - 1 implies !matches_field(
                #[trigger] fields.drop_first()[j],
                key,
            ) by {
                assert(fields.drop_first()[j] == fields[j + 1]);
            }
            lemma_field_match_first(fields.drop_first(), key, m - 1);
        }
    }
}

/// `variant_match` yields the first matching index.
proof fn lemma_variant_match_first(variants: Seq<StructDesc>, name: Seq<char>, m: int)
    requires
        0 <= m <= variants.len(),
        forall|j: int| 0 <= j < m ==> (#[trigger] variants[j]).name@ != name,
        m < variants.len() ==> variants[m].name@ == name,
    ensures
        m < variants.len() ==> variant_match(variants, name) == m,
        m == variants.len() ==> variant_match(variants, name) == -1,
    decreases variants,
{
    if variants.len() > 0 {
        if m == 0 {
        } else {
            lemma_variant_match_first(variants.drop_first(), name, m - 1);
            assert forall|j: int| 0 <= j < m - 1 implies (
            #[trigger] variants.drop_first()[j]).name@ != name by {
                assert(variants.drop_first()[j] == variants[j + 1]);
            }
            lemma_variant_match_first(variants.drop_first(), name, m - 1);
        }
    }
}

impl Clone for BoundValue {
    /// A deep copy with the same view.
    fn clone(&self) -> (r: Self)
        ensures
            r@ == self@,
        decreases *self,
    {
        match self {
            BoundValue::Int(v) => BoundValue::Int(*v),
            BoundValue::Float(v) => BoundValue::Float(*v),
            BoundValue::Bool(b) => BoundValue::Bool(*b),
            BoundValue::Path(p) => BoundValue::Path(p.clone()),
            BoundValue::Optional(o) => match o {
                None => BoundValue::Optional(None),
                Some(b) => {
                    proof {
                        assert((*self)->Optional_0 == *o);
                        assert(decreases_to!(*self => (*self)->Optional_0));
                        assert(decreases_to!(*o => (*o)->0));
                    }
                    BoundValue::Optional(Some(Box::new((**b).clone())))
                },
            },
            BoundValue::Struct { name, fields } => {
                let mut copied: Vec<(String, BoundValue)> = Vec::new();
                let n = fields.len();
                for i in 0..n
                    invariant
                        *self is Struct,
                        (*self)->Struct_fields == *fields,
                        n == fields@.len(),
                        copied@.len() == i,
                        forall|j: int|
                            0 <= j < i ==> (#[trigger] copied@[j]).0@ == fields@[j].0@
                                && copied@[j].1@ == fields@[j].1@,
                {
                    proof {
                        assert((*self)->Struct_fields == *fields);
                        assert(decreases_to!(*self => (*self)->Struct_fields));
                        assert(decreases_to!(*fields => fields@));
                        assert(decreases_to!(fields@ => fields@[i as int]));
                        assert(decreases_to!(fields@[i as int] => fields@[i as int].1));
                    }
                    let entry_value = fields[i].1.clone();
                    copied.push((fields[i].0.clone(), entry_value));
                }
                proof {
                    lemma_bound_fields_view_index(copied@);
                    lemma_bound_fields_view_index(fields@);
                    assert(bound_fields_view(copied@) =~= bound_fields_view(fields@));
                }
                BoundValue::Struct { name: name.clone(), fields: copied }
            },
        }
    }
}

/// Finds the first declared field a supplied key matches.
fn find_field(fields: &Vec<FieldDesc>, key: &String) -> (r: Option<usize>)
    ensures
        match r {
            Some(m) => field_match(fields@, key@) == m as int,
            None => field_match(fields@, key@) == -1,
        },
{
    let n = fields.len();
    for i in 0..n
        invariant
            n == fields@.len(),
            forall|j: int| 0 <= j < i ==> !matches_field(#[trigger] fields@[j], key@),
    {
        if fields[i].name == *key {
            proof {
                lemma_field_match_first(fields@, key@, i as int);
            }
            return Some(i);
        }
        match &fields[i].alias {
            Some(a) => {
                if *a == *key {
                    proof {
                        lemma_field_match_first(fields@, key@, i as int);
                    }
                    return Some(i);
                }
            },
            None => {},
        }
    }
    proof {
        lemma_field_match_first(fields@, key@, fields@.len() as int);
    }
    None
}

/// Finds the variant a struct name picks.
fn find_variant(variants: &Vec<StructDesc>, name: &String) -> (r: Option<usize>)
    ensures
        match r {
            Some(m) => variant_match(variants@, name@) == m as int,
            None => variant_match(variants@, name@) == -1,
        },
{
    let n = variants.len();
    for i in 0..n
        invariant
            n == variants@.len(),
            forall|j: int| 0 <= j < i ==> (#[trigger] variants@[j]).name@ != name@,
    {
        if variants[i].name == *name {
            proof {
                lemma_variant_match_first(variants@, name@, i as int);
            }
            return Some(i);
        }
    }
    proof {
        lemma_variant_match_first(variants@, name@, variants@.len() as int);
    }
    None
}

/// Fills declared slots from the supplied fields, front to back.
fn bind_fields_exec(fields_desc: &Vec<FieldDesc>, supplied: Vec<(String, ParsedValue)>) -> (r:
    Result<Vec<Option<BoundValue>>, ParseValueError>)
    requires
        forall|i: int| 0 <= i < fields_desc@.len() ==> shape_wf((#[trigger] fields_desc@[i]).ty),
    ensures
        ({
            let goal = spec_bind_fields(
                fields_desc@,
                Seq::new(fields_desc@.len() as nat, |i: int| None),
                fields_view(supplied@),
            );
            match r {
                Ok(filled) => goal == Ok::<Seq<Option<BoundView>>, ParseValueErrorView>(
                    filled_view(filled@),
                ) && filled@.len() == fields_desc@.len(),
                Err(e) => goal == Err::<Seq<Option<BoundView>>, ParseValueErrorView>(e@),
            }
        }),
    decreases *fields_desc, 1int,
{
    let n = fields_desc.len();
    let mut filled: Vec<Option<BoundValue>> = Vec::new();
    for k in 0..n
        invariant
            filled@.len() == k,
            forall|j: int| 0 <= j < k ==> (#[trigger] filled@[j]) is None,
    {
        filled.push(None);
    }
    proof {
        lemma_filled_view_index(filled@);
        assert(filled_view(filled@) =~= Seq::new(fields_desc@.len() as nat, |i: int| None));
    }
    let ghost goal = spec_bind_fields(
        fields_desc@,
        Seq::new(fields_desc@.len() as nat, |i: int| None),
        fields_view(supplied@),
    );
    let mut rest = supplied;
    while rest.len() > 0
        invariant
            forall|i: int|
                0 <= i < fields_desc@.len() ==> shape_wf((#[trigger] fields_desc@[i]).ty),
            filled@.len() == fields_desc@.len(),
            goal == spec_bind_fields(
                fields_desc@,
                Seq::new(fields_desc@.len() as nat, |i: int| None),
                fields_view(supplied@),
            ),
            spec_bind_fields(fields_desc@, filled_view(filled@), fields_view(rest@)) == goal,
        decreases rest@.len(),
    {
        let ghost pre_rest = rest@;
        let entry = rest.remove(0);
        let (key, val) = entry;
        proof {
            lemma_fields_view_index(pre_rest);
            lemma_fields_view_index(rest@);
            assert(fields_view(pre_rest)[0] == (key@, val@));
            assert(fields_view(rest@) =~= fields_view(pre_rest).drop_first());
        }
        let m_opt = find_field(fields_desc, &key);
        match m_opt {
            None => {
                proof {
                    assert(fields_view(pre_rest).len() > 0);
                    assert(spec_bind_fields(
                        fields_desc@,
                        filled_view(filled@),
                        fields_view(pre_rest),
                    ) == goal);
                    assert(spec_bind_fields(
                        fields_desc@,
                        filled_view(filled@),
                        fields_view(pre_rest),
                    ) == Err::<Seq<Option<BoundView>>, ParseValueErrorView>(
                        ParseValueErrorView::UnknownField(key@),
                    ));
                }
                return Err(ParseValueError::UnknownField(key));
            },
            Some(m) => {
                proof {
                    lemma_field_match_bound(fields_desc@, key@);
                    lemma_filled_view_index(filled@);
                }
                if filled[m].is_some() {
                    proof {
                        assert(fields_view(pre_rest).len() > 0);
                        assert(filled_view(filled@)[m as int] is Some);
                        assert(spec_bind_fields(
                            fields_desc@,
                            filled_view(filled@),
                            fields_view(pre_rest),
                        ) == goal);
                        assert(spec_bind_fields(
                            fields_desc@,
                            filled_view(filled@),
                            fields_view(pre_rest),
                        ) == Err::<Seq<Option<BoundView>>, ParseValueErrorView>(
                            ParseValueErrorView::DuplicateField(fields_desc@[m as int].name@),
                        ));
                    }
                    return Err(ParseValueError::DuplicateField(fields_desc[m].name.clone()));
                }
                proof {
                    assert(filled_view(filled@)[m as int] is None);
                }
                proof {
                    assert(decreases_to!(*fields_desc => fields_desc@));
                    assert(decreases_to!(fields_desc@ => fields_desc@[m as int]));
                    assert(decreases_to!(fields_desc@[m as int] => fields_desc@[m as int].ty));
                }
                match bind_value(&fields_desc[m].ty, val) {
                    Err(e) => {
                        proof {
                            lemma_filled_view_index(filled@);
                        }
                        return Err(e);
                    },
                    Ok(bv) => {
                        let ghost pre_filled = filled@;
                        filled[m] = Some(bv);
                        proof {
                            lemma_filled_view_index(pre_filled);
                            lemma_filled_view_index(filled@);
                            assert(filled_view(filled@) =~= filled_view(pre_filled).update(
                                m as int,
                                Some(bv@),
                            ));
                        }
                    },
                }
            },
        }
    }
    proof {
        assert(fields_view(rest@) =~= Seq::<(Seq<char>, ValueView)>::empty());
    }
    Ok(filled)
}

/// Resolves defaults in declared order, producing the complete bound
/// field table.
fn resolve_defaults_exec(fields_desc: &Vec<FieldDesc>, filled: Vec<Option<BoundValue>>) -> (r:
    Result<Vec<(String, BoundValue)>, ParseValueError>)
    requires
        filled@.len() == fields_desc@.len(),
        forall|i: int, j: int|
            0 <= i < j < fields_desc@.len() ==> (#[trigger] fields_desc@[i]).name@ != (
            #[trigger] fields_desc@[j]).name@,
    ensures
        ({
            let goal = spec_resolve_defaults(fields_desc@, filled_view(filled@), 0, Seq::empty());
            match r {
                Ok(out) => goal == Ok::<Seq<(Seq<char>, BoundView)>, ParseValueErrorView>(
                    bound_fields_view(out@),
                ),
                Err(e) => goal == Err::<Seq<(Seq<char>, BoundView)>, ParseValueErrorView>(e@),
            }
        }),
{
    let ghost goal = spec_resolve_defaults(fields_desc@, filled_view(filled@), 0, Seq::empty());
    let ghost filledv = filled_view(filled@);
    let n = fields_desc.len();
    let mut out: Vec<(String, BoundValue)> = Vec::new();
    let mut frest = filled;
    proof {
        assert(bound_fields_view(out@) =~= Seq::<(Seq<char>, BoundView)>::empty());
        lemma_filled_view_index(filled@);
    }
    for m in 0..n
        invariant
            n == fields_desc@.len(),
            filledv.len() == n,
            filledv == filled_view(filled@),
            forall|i: int, j: int|
                0 <= i < j < fields_desc@.len() ==> (#[trigger] fields_desc@[i]).name@ != (
                #[trigger] fields_desc@[j]).name@,
            frest@.len() == n - m,
            filled_view(frest@) =~= filledv.skip(m as int),
            out@.len() == m,
            forall|j: int| 0 <= j < m ==> (#[trigger] out@[j]).0@ == fields_desc@[j].name@,
            crate::table::table_wf(out@),
            goal == spec_resolve_defaults(fields_desc@, filled_view(filled@), 0, Seq::empty()),
            filledv == filled_view(filled@),
            spec_resolve_defaults(fields_desc@, filledv, m as int, bound_fields_view(out@))
                == goal,
    {
        let ghost pre_frest = frest@;
        let slot = frest.remove(0);
        proof {
            lemma_filled_view_index(pre_frest);
            lemma_filled_view_index(frest@);
            assert(filled_view(frest@) =~= filled_view(pre_frest).drop_first());
            assert(filled_view(pre_frest)[0] == filledv[m as int]);
        }
        let ghost pre_out = out@;
        let name = fields_desc[m].name.clone();
        match slot {
            Some(bv) => {
                out.push((name, bv));
            },
            None => match &fields_desc[m].default {
                None => {
                    proof {
                        assert(filledv[m as int] is None);
                        assert(spec_resolve_defaults(
                            fields_desc@,
                            filledv,
                            m as int,
                            bound_fields_view(pre_out),
                        ) == goal);
                        assert(spec_resolve_defaults(
                            fields_desc@,
                            filledv,
                            m as int,
                            bound_fields_view(pre_out),
                        ) == Err::<Seq<(Seq<char>, BoundView)>, ParseValueErrorView>(
                            ParseValueErrorView::MissingField(fields_desc@[m as int].name@),
                        ));
                        assert(name@ == fields_desc@[m as int].name@);
                    }
                    return Err(ParseValueError::MissingField(name));
                },
                Some(FieldDefault::Value(b)) => {
                    out.push((name, b.clone()));
                },
                Some(FieldDefault::Sibling(s)) => {
                    proof {
                        crate::parser::value::lemma_fields_view_index(Seq::empty());
                    }
                    match crate::table::table_lookup(&out, s) {
                        Some(sv) => {
                            let copy = sv.clone();
                            proof {
                                lemma_bound_fields_view_index(pre_out);
                                let w = crate::table::table_index_of(pre_out, s@);
                                assert(bound_fields_view(pre_out)[w] == (
                                    pre_out[w].0@,
                                    pre_out[w].1@,
                                ));
                                assert(kv_contains(bound_fields_view(pre_out), s@)) by {
                                    assert(bound_fields_view(pre_out)[w].0 == s@);
                                }
                                let w2 = crate::table::kv_index_of(
                                    bound_fields_view(pre_out),
                                    s@,
                                );
                                assert(pre_out[w2].0@ == s@);
                                assert(w2 == w);
                                assert(kv_get(bound_fields_view(pre_out), s@) == copy@);
                            }
                            out.push((name, copy));
                        },
                        None => {
                            proof {
                                lemma_bound_fields_view_index(pre_out);
                                if kv_contains(bound_fields_view(pre_out), s@) {
                                    let w = crate::table::kv_index_of(
                                        bound_fields_view(pre_out),
                                        s@,
                                    );
                                    assert(pre_out[w].0@ == s@);
                                    assert(crate::table::table_contains(pre_out, s@));
                                }
                                assert(filledv[m as int] is None);
                                assert(spec_resolve_defaults(
                                    fields_desc@,
                                    filledv,
                                    m as int,
                                    bound_fields_view(pre_out),
                                ) == goal);
                                assert(spec_resolve_defaults(
                                    fields_desc@,
                                    filledv,
                                    m as int,
                                    bound_fields_view(pre_out),
                                ) == Err::<Seq<(Seq<char>, BoundView)>, ParseValueErrorView>(
                                    ParseValueErrorView::MissingField(s@),
                                ));
                            }
                            return Err(ParseValueError::MissingField(s.clone()));
                        },
                    }
                },
            },
        }
        proof {
            lemma_bound_fields_view_index(pre_out);
            lemma_bound_fields_view_index(out@);
            assert(out@.drop_last() =~= pre_out);
            assert(bound_fields_view(out@) =~= bound_fields_view(pre_out).push(
                (out@.last().0@, out@.last().1@),
            ));
        }
    }
    proof {
        assert(spec_resolve_defaults(fields_desc@, filledv, n as int, bound_fields_view(out@))
            == goal);
    }
    Ok(out)
}

/// Binds one dynamic value against a shape: the executable form of
/// `spec_bind`, which it matches exactly, errors included.
pub fn bind_value(ty: &TypeDesc, value: ParsedValue) -> (r: Result<BoundValue, ParseValueError>)
    requires
        shape_wf(*ty),
    ensures
        match r {
            Ok(b) => spec_bind(*ty, value@) == Ok::<BoundView, ParseValueErrorView>(b@),
            Err(e) => spec_bind(*ty, value@) == Err::<BoundView, ParseValueErrorView>(e@),
        },
    decreases *ty, 0int,
{
    match ty {
        TypeDesc::Int => match value {
            ParsedValue::Int(v) => Ok(BoundValue::Int(v)),
            other => Err(ParseValueError::WrongType("int".to_owned(), other.type_label())),
        },
        TypeDesc::Float => match value {
            ParsedValue::Float(v) => Ok(BoundValue::Float(v)),
            other => Err(ParseValueError::WrongType("float".to_owned(), other.type_label())),
        },
        TypeDesc::Bool => match value {
            ParsedValue::Bool(v) => Ok(BoundValue::Bool(v)),
            other => Err(ParseValueError::WrongType("bool".to_owned(), other.type_label())),
        },
        TypeDesc::Path => match value {
            ParsedValue::Path(p) => Ok(BoundValue::Path(p)),
            other => Err(ParseValueError::WrongType("path".to_owned(), other.type_label())),
        },
        TypeDesc::Optional(inner) => {
            let tl = value.type_label();
            match value.struct_properties() {
                None => Err(ParseValueError::WrongType("`Some` or `None`".to_owned(), tl)),
                Some(props) => {
                    let (name, vfields) = props;
                    let lit_some: String = "Some".to_owned();
                    let lit_none: String = "None".to_owned();
                    if name == lit_some {
                        proof {
                            lemma_fields_view_index(vfields@);
                        }
                        if vfields.len() == 0 {
                            Err(ParseValueError::MissingField("0".to_owned()))
                        } else {
                            let mut fs = vfields;
                            let first = fs.remove(0);
                            let (k0, v0) = first;
                            let lit_zero: String = "0".to_owned();
                            if !(k0 == lit_zero) {
                                Err(ParseValueError::UnknownField(k0))
                            } else if fs.len() > 0 {
                                let second = fs.remove(0);
                                let (k1, v1) = second;
                                if k1 == lit_zero {
                                    Err(ParseValueError::DuplicateField("0".to_owned()))
                                } else {
                                    Err(ParseValueError::UnknownField(k1))
                                }
                            } else {
                                proof {
                                    assert((*ty)->Optional_0 == *inner);
                                    assert(decreases_to!(*ty => (*ty)->Optional_0));
                                }
                                match bind_value(&*inner, v0) {
                                    Err(e) => Err(e),
                                    Ok(b) => Ok(BoundValue::Optional(Some(Box::new(b)))),
                                }
                            }
                        }
                    } else if name == lit_none {
                        Ok(BoundValue::Optional(None))
                    } else {
                        Err(ParseValueError::UnknownVariant(name))
                    }
                },
            }
        },
        TypeDesc::Struct(desc) => {
            proof {
                assert((*ty)->Struct_0 == *desc);
                assert(decreases_to!(*ty => (*ty)->Struct_0));
                assert(struct_desc_wf(**desc));
            }
            match bind_struct_value(&*desc, value) {
                Err(e) => Err(e),
                Ok(out) => Ok(BoundValue::Struct { name: desc.name.clone(), fields: out }),
            }
        },
        TypeDesc::Enum(desc) => {
            let tl = value.type_label();
            match value.struct_properties() {
                None => Err(
                    ParseValueError::WrongType(
                        "struct variant, tuple struct variant or unit struct variant".to_owned(),
                        tl,
                    ),
                ),
                Some(props) => {
                    let (vname, vfields) = props;
                    match find_variant(&desc.variants, &vname) {
                        None => {
                            proof {
                                lemma_variant_match_bound(desc.variants@, vname@);
                            }
                            Err(ParseValueError::UnknownVariant(vname))
                        },
                        Some(w) => {
                            proof {
                                lemma_variant_match_bound(desc.variants@, vname@);
                                assert((*ty)->Enum_0 == *desc);
                                assert(decreases_to!(*ty => (*ty)->Enum_0));
                                assert(decreases_to!(**desc => (**desc).variants));
                                assert(decreases_to!(
                                    (**desc).variants => (**desc).variants@
                                ));
                                assert(decreases_to!(
                                    (**desc).variants@ => (**desc).variants@[w as int]
                                ));
                                assert(decreases_to!(
                                    (**desc).variants@[w as int] => (**desc).variants@[w as int].fields
                                ));
                                assert(struct_desc_wf((**desc).variants@[w as int]));
                            }
                            match bind_fields_exec(&desc.variants[w].fields, vfields) {
                                Err(e) => Err(e),
                                Ok(filled) => match resolve_defaults_exec(
                                    &desc.variants[w].fields,
                                    filled,
                                ) {
                                    Err(e) => Err(e),
                                    Ok(out) => Ok(
                                        BoundValue::Struct {
                                            name: desc.variants[w].name.clone(),
                                            fields: out,
                                        },
                                    ),
                                },
                            }
                        },
                    }
                },
            }
        },
    }
}

/// Binds a struct-shaped value against one struct shape, yielding the
/// complete bound field table. The heart of step one and two of typed
/// binding, shared by direct struct targets and enum variants.
pub fn bind_struct_value(desc: &StructDesc, value: ParsedValue) -> (r: Result<
    Vec<(String, BoundValue)>,
    ParseValueError,
>)
    requires
        struct_desc_wf(*desc),
    ensures
        match r {
            Ok(out) => (value@.struct_name() is Some) && spec_bind_struct(
                *desc,
                value@.struct_fields(),
            ) == Ok::<Seq<(Seq<char>, BoundView)>, ParseValueErrorView>(bound_fields_view(out@)),
            Err(e) => ((value@.struct_name() is None) && e@ == ParseValueErrorView::WrongType(
                "struct, tuple struct, or unit struct"@,
                value@.type_label(),
            )) || ((value@.struct_name() is Some) && spec_bind_struct(
                *desc,
                value@.struct_fields(),
            ) == Err::<Seq<(Seq<char>, BoundView)>, ParseValueErrorView>(e@)),
        },
    decreases *desc, 2int,
{
    let tl = value.type_label();
    match value.struct_properties() {
        None => Err(
            ParseValueError::WrongType("struct, tuple struct, or unit struct".to_owned(), tl),
        ),
        Some(props) => {
            let (_vname, vfields) = props;
            proof {
                assert(decreases_to!(*desc => (*desc).fields));
            }
            match bind_fields_exec(&desc.fields, vfields) {
                Err(e) => Err(e),
                Ok(filled) => resolve_defaults_exec(&desc.fields, filled),
            }
        },
    }
}

/// Binds a struct-shaped value against an enum shape: the value's
/// struct name picks the variant, which then binds as a struct. Yields
/// the variant's canonical name with the bound field table.
pub fn bind_enum_value(desc: &EnumDesc, value: ParsedValue) -> (r: Result<
    (String, Vec<(String, BoundValue)>),
    ParseValueError,
>)
    requires
        forall|k: int|
            0 <= k < desc.variants@.len() ==> struct_desc_wf(#[trigger] desc.variants@[k]),
    ensures
        match r {
            Ok(out) => (value@.struct_name() is Some) && ({
                let w = variant_match(desc.variants@, value@.struct_name()->0);
                &&& w >= 0
                &&& out.0@ == desc.variants@[w].name@
                &&& spec_bind_struct(desc.variants@[w], value@.struct_fields()) == Ok::<
                    Seq<(Seq<char>, BoundView)>,
                    ParseValueErrorView,
                >(bound_fields_view(out.1@))
            }),
            Err(e) => ((value@.struct_name() is None) && e@ == ParseValueErrorView::WrongType(
                "struct variant, tuple struct variant or unit struct variant"@,
                value@.type_label(),
            )) || ((value@.struct_name() is Some) && ({
                let nm = value@.struct_name()->0;
                let w = variant_match(desc.variants@, nm);
                (w < 0 && e@ == ParseValueErrorView::UnknownVariant(nm)) || (w >= 0
                    && spec_bind_struct(desc.variants@[w], value@.struct_fields()) == Err::<
                    Seq<(Seq<char>, BoundView)>,
                    ParseValueErrorView,
                >(e@))
            })),
        },
{
    let tl = value.type_label();
    match value.struct_properties() {
        None => Err(
            ParseValueError::WrongType(
                "struct variant, tuple struct variant or unit struct variant".to_owned(),
                tl,
            ),
        ),
        Some(props) => {
            let (vname, vfields) = props;
            match find_variant(&desc.variants, &vname) {
                None => {
                    proof {
                        lemma_variant_match_bound(desc.variants@, vname@);
                    }
                    Err(ParseValueError::UnknownVariant(vname))
                },
                Some(w) => {
                    proof {
                        lemma_variant_match_bound(desc.variants@, vname@);
                        assert(struct_desc_wf(desc.variants@[w as int]));
                    }
                    match bind_fields_exec(&desc.variants[w].fields, vfields) {
                        Err(e) => Err(e),
                        Ok(filled) => match resolve_defaults_exec(
                            &desc.variants[w].fields,
                            filled,
                        ) {
                            Err(e) => Err(e),
                            Ok(out) => Ok((desc.variants[w].name.clone(), out)),
                        },
                    }
                },
            }
        },
    }
}

} // verus!
