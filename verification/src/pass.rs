//! The pass contract and the pass registry.
//!
//! A pass is an opaque unit of image transformation: it has a type name,
//! an ordered list of dependency slot specifiers, and an `apply` function.
//! Concrete passes live outside the core; the core reaches them only
//! through the `Pass` trait and constructs them only through the registry,
//! a name-to-binder table built explicitly at startup.

pub mod blend;
pub mod blur;
pub mod box_blur;
pub mod luminance;
pub mod merge;
pub mod palette_swap;
pub mod recolor;
pub mod sobel;
pub mod tfm;
pub mod voronoi;

use vstd::prelude::*;

use crate::parser::value::ParsedValue;
use crate::parser::{ParseValueError, ParseValueErrorView};

verus! {

/// A render pass: a node's worth of work in the render graph.
///
/// Implementations live with the image subsystem, outside the core; the
/// graph stores what `name` and `dependencies` returned at insertion time
/// and drives `apply` during rendering.
pub trait Pass<I> {
    /// The pass's type name, an exact-match key for dependency slots.
    fn name(&self) -> String;

    /// The ordered dependency slot specifiers: an exact pass-type name,
    /// the wildcard `"*"` accepting any image, or `"main"` for the source
    /// image.
    fn dependencies(&self) -> Vec<String>;

    /// Overwrites `target` given the dependency images in declared-slot
    /// order.
    fn apply(&self, target: &mut I, aux_images: &[&I]);
}

/// The mathematical model of a `RenderPassError`.
pub enum RenderPassErrorView {
    ParseValue(ParseValueErrorView),
    UnknownPass(Seq<char>),
}

/// An error from constructing a pass out of a dynamic value.
#[derive(Debug, Clone, PartialEq, Eq)]
pub enum RenderPassError {
    /// The value did not bind to the pass's configuration shape.
    ParseValue(ParseValueError),
    /// No registered pass has the requested type name.
    UnknownPass(String),
}

impl View for RenderPassError {
    type V = RenderPassErrorView;

    open spec fn view(&self) -> RenderPassErrorView {
        match self {
            RenderPassError::ParseValue(e) => RenderPassErrorView::ParseValue(e@),
            RenderPassError::UnknownPass(name) => RenderPassErrorView::UnknownPass(name@),
        }
    }
}

/// Turns one dynamic value into one concrete pass instance.
///
/// A registry entry pairs a pass-type name with a value of a binder type;
/// the binder validates and converts the dynamic value. Binders live with
/// the concrete passes, outside the core.
pub trait PassBinder<P> {
    fn bind(&self, value: ParsedValue) -> Result<P, ParseValueError>;
}

/// One registry entry: a pass-type name and its binder.
pub struct PassRegistration<B> {
    pub name: String,
    pub binder: B,
}

/// The name-to-constructor table.
///
/// Registration is append-only and lookup is exact-string match over the
/// list, first match winning.
pub struct PassRegistry<B> {
    entries: Vec<PassRegistration<B>>,
}

impl<B> PassRegistry<B> {
    /// The registered names, in registration order.
    pub closed spec fn names(self) -> Seq<Seq<char>> {
        Seq::new(self.entries@.len(), |i: int| self.entries@[i].name@)
    }

    pub fn new() -> (r: PassRegistry<B>)
        ensures
            r.names() == Seq::<Seq<char>>::empty(),
    {
        let r = PassRegistry { entries: Vec::new() };
        proof {
            assert(r.names() =~= Seq::<Seq<char>>::empty());
        }
        r
    }

    /// Appends a pass-type name and its binder.
    pub fn register(&mut self, name: String, binder: B)
        ensures
            final(self).names() == old(self).names().push(name@),
    {
        self.entries.push(PassRegistration { name, binder });
        proof {
            assert(self.names() =~= old(self).names().push(self.entries@.last().name@));
        }
    }

    /// Looks `name` up and invokes the bound binder on `value`.
    ///
    /// Fails with `UnknownPass` exactly when no entry carries `name`; a
    /// binding failure of the first matching entry is passed through.
    pub fn construct<P>(&self, name: &String, value: ParsedValue) -> (r: Result<
        P,
        RenderPassError,
    >) where B: PassBinder<P>
        ensures
            self.names().contains(name@) ==> (r matches Err(e) ==> e@ matches
                RenderPassErrorView::ParseValue(_)),
            !self.names().contains(name@) ==> (r matches Err(e) && e@
                == RenderPassErrorView::UnknownPass(name@)),
    {
        let n = self.entries.len();
        for i in 0..n
            invariant
                n == self.entries@.len(),
                forall|j: int| 0 <= j < i ==> self.names()[j] != name@,
        {
            proof {
                assert(self.names()[i as int] == self.entries@[i as int].name@);
            }
            if self.entries[i].name == *name {
                match self.entries[i].binder.bind(value) {
                    Ok(p) => {
                        return Ok(p);
                    },
                    Err(e) => {
                        return Err(RenderPassError::ParseValue(e));
                    },
                }
            }
        }
        proof {
            assert(forall|j: int| 0 <= j < self.names().len() ==> self.names()[j] != name@);
            assert(!self.names().contains(name@));
        }
        Err(RenderPassError::UnknownPass(name.clone()))
    }
}

} // verus!
