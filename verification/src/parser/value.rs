//! The dynamic runtime value.
//!
//! Evaluating an expression yields a `ParsedValue`, a tagged union over
//! literals and struct-shaped values. A struct's fields are an
//! order-preserving table (see `crate::table`); tuple structs use the
//! decimal keys `"0"`, `"1"`, ... Values are immutable once produced.
//!
//! `ValueView` is the mathematical model of a value: the same tree with
//! every string replaced by its character sequence. All contracts are
//! stated over views.

use vstd::prelude::*;
use vstd::string::StringExecFns;

use crate::table::{
    kv_contains, kv_get, kv_index_of, kv_insert, kv_wf, table_contains, table_get, table_index_of,
    table_spec_insert, table_wf,
};

verus! {

/// The mathematical model of a `ParsedValue`.
pub enum ValueView {
    Int(i32),
    Float(u32),
    Path(Seq<char>),
    Bool(bool),
    UnitStruct(Seq<char>),
    Struct { name: Seq<char>, fields: Seq<(Seq<char>, ValueView)> },
}

impl ValueView {
    /// The struct name of a struct-shaped view, if any.
    pub open spec fn struct_name(self) -> Option<Seq<char>> {
        match self {
            ValueView::UnitStruct(name) => Some(name),
            ValueView::Struct { name, fields: _ } => Some(name),
            _ => None,
        }
    }

    /// The field table of a struct-shaped view; a unit struct has none.
    pub open spec fn struct_fields(self) -> Seq<(Seq<char>, ValueView)> {
        match self {
            ValueView::Struct { name: _, fields } => fields,
            _ => Seq::empty(),
        }
    }

    /// The human-readable description of the view's runtime type, as used
    /// in error messages.
    pub open spec fn type_label(self) -> Seq<char> {
        match self {
            ValueView::Int(_) => "int"@,
            ValueView::Float(_) => "float"@,
            ValueView::Path(_) => "path"@,
            ValueView::Bool(_) => "bool"@,
            ValueView::UnitStruct(name) => "unit struct `"@ + name + "`"@,
            ValueView::Struct { name, fields: _ } => "struct `"@ + name + "`"@,
        }
    }

    /// Every field table in the tree has pairwise-distinct keys.
    pub open spec fn wf(self) -> bool
        decreases self,
    {
        match self {
            ValueView::Struct { name: _, fields } => kv_wf(fields) && forall|i: int|
                0 <= i < fields.len() ==> (#[trigger] fields[i].1).wf(),
            _ => true,
        }
    }
}

/// A dynamically-typed runtime value.
#[derive(Debug)]
pub enum ParsedValue {
    /// An integer.
    Int(i32),
    /// A floating-point number, carried as the bit pattern of the 32-bit
    /// value; the core never computes with it.
    Float(u32),
    /// A path to a file.
    Path(String),
    /// A boolean.
    Bool(bool),
    /// A unit struct, holding only its name.
    UnitStruct(String),
    /// A struct with named fields, or a tuple struct with fields named
    /// `"0"`, `"1"`, etc. The field table's keys are pairwise distinct.
    Struct { name: String, fields: Vec<(String, ParsedValue)> },
}

/// The view of a field table: each key as its character sequence, each
/// value as its view.
pub open spec fn fields_view(s: Seq<(String, ParsedValue)>) -> Seq<(Seq<char>, ValueView)>
    decreases s,
{
    if s.len() == 0 {
        Seq::empty()
    } else {
        fields_view(s.drop_last()).push((s.last().0@, s.last().1@))
    }
}

impl View for ParsedValue {
    type V = ValueView;

    open spec fn view(&self) -> ValueView
        decreases self,
    {
        match self {
            ParsedValue::Int(v) => ValueView::Int(*v),
            ParsedValue::Float(v) => ValueView::Float(*v),
            ParsedValue::Path(p) => ValueView::Path(p@),
            ParsedValue::Bool(b) => ValueView::Bool(*b),
            ParsedValue::UnitStruct(name) => ValueView::UnitStruct(name@),
            ParsedValue::Struct { name, fields } => ValueView::Struct {
                name: name@,
                fields: fields_view(fields@),
            },
        }
    }
}

/// A field table's view has the same length, and pairs up views pointwise.
pub proof fn lemma_fields_view_index(s: Seq<(String, ParsedValue)>)
    ensures
        fields_view(s).len() == s.len(),
        forall|i: int| 0 <= i < s.len() ==> fields_view(s)[i] == (s[i].0@, s[i].1@),
    decreases s,
{
    if s.len() > 0 {
        lemma_fields_view_index(s.drop_last());
        assert forall|i: int| 0 <= i < s.len() implies fields_view(s)[i] == (s[i].0@, s[i].1@) by {
            if i < s.len() - 1 {
                assert(fields_view(s)[i] == fields_view(s.drop_last())[i]);
                assert(s.drop_last()[i] == s[i]);
            } else {
                assert(fields_view(s)[i] == (s.last().0@, s.last().1@));
            }
        }
    }
}

/// A well-formed exec field table (distinct `String` keys) has a
/// well-formed view, and membership agrees with the view's.
pub proof fn lemma_fields_view_wf(s: Seq<(String, ParsedValue)>)
    requires
        table_wf(s),
    ensures
        kv_wf(fields_view(s)),
        forall|k: Seq<char>| #[trigger] kv_contains(fields_view(s), k) == table_contains(s, k),
        forall|k: Seq<char>|
            table_contains(s, k) ==> #[trigger] kv_get(fields_view(s), k) == table_get(s, k)@,
{
    lemma_fields_view_index(s);
    assert forall|k: Seq<char>| #[trigger] kv_contains(fields_view(s), k) == table_contains(
        s,
        k,
    ) by {
        if kv_contains(fields_view(s), k) {
            let i = choose|i: int| 0 <= i < fields_view(s).len() && fields_view(s)[i].0 == k;
            assert(s[i].0@ == k);
        }
        if table_contains(s, k) {
            let i = table_index_of(s, k);
            assert(fields_view(s)[i].0 == k);
        }
    }
    assert forall|k: Seq<char>| table_contains(s, k) implies #[trigger] kv_get(fields_view(s), k)
        == table_get(s, k)@ by {
        let i = table_index_of(s, k);
        assert(fields_view(s)[i].0 == k);
        let j = kv_index_of(fields_view(s), k);
        assert(0 <= j < fields_view(s).len() && fields_view(s)[j].0 == k);
        assert(s[j].0@ == k);
        assert(j == i);
    }
}

/// Inserting into an exec field table matches `kv_insert` on the views.
pub proof fn lemma_fields_view_insert(s: Seq<(String, ParsedValue)>, key: String, value: ParsedValue)
    requires
        table_wf(s),
    ensures
        fields_view(table_spec_insert(s, key, value)) == kv_insert(fields_view(s), key@, value@),
{
    lemma_fields_view_wf(s);
    lemma_fields_view_index(s);
    if table_contains(s, key@) {
        let i = table_index_of(s, key@);
        assert(fields_view(s)[i].0 == key@);
        let j = kv_index_of(fields_view(s), key@);
        assert(s[j].0@ == key@);
        assert(j == i);
        lemma_fields_view_index(table_spec_insert(s, key, value));
        assert(fields_view(table_spec_insert(s, key, value)) =~= kv_insert(
            fields_view(s),
            key@,
            value@,
        ));
    } else {
        lemma_fields_view_index(table_spec_insert(s, key, value));
        assert(fields_view(table_spec_insert(s, key, value)) =~= kv_insert(
            fields_view(s),
            key@,
            value@,
        ));
    }
}

impl ParsedValue {
    /// Whether every field table in the value has pairwise-distinct keys.
    /// Every value the interpreter produces satisfies this.
    pub open spec fn wf(self) -> bool {
        self@.wf()
    }

    /// The variant's name if the value is struct-shaped, else nothing.
    pub fn struct_name(&self) -> (r: Option<String>)
        ensures
            match r {
                Some(n) => self@.struct_name() == Some(n@),
                None => self@.struct_name() is None,
            },
    {
        match self {
            ParsedValue::UnitStruct(name) => Some(name.clone()),
            ParsedValue::Struct { name, fields: _ } => Some(name.clone()),
            _ => None,
        }
    }

    /// Consumes a struct-shaped value into its name and field table; a
    /// unit struct yields an empty table.
    pub fn struct_properties(self) -> (r: Option<(String, Vec<(String, ParsedValue)>)>)
        ensures
            match r {
                Some(p) => self@.struct_name() == Some(p.0@) && fields_view(p.1@)
                    == self@.struct_fields(),
                None => self@.struct_name() is None,
            },
    {
        match self {
            ParsedValue::UnitStruct(name) => Some((name, Vec::new())),
            ParsedValue::Struct { name, fields } => Some((name, fields)),
            _ => None,
        }
    }

    /// A human-readable description of the value's runtime type, used in
    /// error messages.
    pub fn type_label(&self) -> (r: String)
        ensures
            r@ == self@.type_label(),
    {
        match self {
            ParsedValue::Int(_) => "int".to_owned(),
            ParsedValue::Float(_) => "float".to_owned(),
            ParsedValue::Path(_) => "path".to_owned(),
            ParsedValue::Bool(_) => "bool".to_owned(),
            ParsedValue::UnitStruct(name) => {
                let mut s = "unit struct `".to_owned();
                s.append(name.as_str());
                s.append("`");
                s
            },
            ParsedValue::Struct { name, fields: _ } => {
                let mut s = "struct `".to_owned();
                s.append(name.as_str());
                s.append("`");
                s
            },
        }
    }
}

impl Clone for ParsedValue {
    /// A deep copy with the same view.
    fn clone(&self) -> (r: Self)
        ensures
            r@ == self@,
        decreases *self,
    {
        match self {
            ParsedValue::Int(v) => ParsedValue::Int(*v),
            ParsedValue::Float(v) => ParsedValue::Float(*v),
            ParsedValue::Path(p) => ParsedValue::Path(p.clone()),
            ParsedValue::Bool(b) => ParsedValue::Bool(*b),
            ParsedValue::UnitStruct(name) => ParsedValue::UnitStruct(name.clone()),
            ParsedValue::Struct { name, fields } => {
                let mut copied: Vec<(String, ParsedValue)> = Vec::new();
                let n = fields.len();
                for i in 0..n
                    invariant
                        *self is Struct,
                        (*self)->Struct_fields == *fields,
                        n == fields@.len(),
                        copied@.len() == i,
                        forall|j: int|
                            0 <= j < i ==> (#[trigger] copied@[j]).0@ == fields@[j].0@
                                && copied@[j].1@ == fields@[j].1@,
                {
                    proof {
                        assert((*self)->Struct_fields == *fields);
                        assert(decreases_to!(*self => (*self)->Struct_fields));
                        assert(decreases_to!(*fields => fields@));
                        assert(decreases_to!(fields@ => fields@[i as int]));
                        assert(decreases_to!(fields@[i as int] => fields@[i as int].1));
                    }
                    let entry_value = fields[i].1.clone();
                    copied.push((fields[i].0.clone(), entry_value));
                }
                proof {
                    lemma_fields_view_index(copied@);
                    lemma_fields_view_index(fields@);
                    assert(fields_view(copied@) =~= fields_view(fields@));
                }
                ParsedValue::Struct { name: name.clone(), fields: copied }
            },
        }
    }
}

} // verus!
