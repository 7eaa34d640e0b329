//! Sampling configuration: how coordinates outside an image are wrapped.
//!
//! The pixel arithmetic of sampling lives with the image subsystem; the
//! coordinate wrapping is integer logic and is specified here exactly.

use vstd::arithmetic::div_mod::{lemma_fundamental_div_mod, lemma_fundamental_div_mod_converse};
use vstd::prelude::*;

verus! {

/// How a sample outside the image is treated, per axis.
#[derive(Debug, Copy, Clone, PartialEq, Eq, Hash, Structural)]
pub enum WrapMode {
    /// Out-of-range samples read as black: the position is rejected.
    Black,
    /// Out-of-range coordinates clamp to the nearest edge.
    Clamp,
    /// Out-of-range coordinates wrap around the image.
    Repeat,
}

/// A wrap mode for each of the two axes.
#[derive(Debug, Copy, Clone, PartialEq, Eq, Hash, Structural)]
pub struct WrapMode2D {
    x: WrapMode,
    y: WrapMode,
}

/// How samples between pixel centers are interpolated.
#[derive(Debug, Copy, Clone, PartialEq, Eq, Hash, Structural)]
pub enum Filter {
    NearestNeighbor,
    Linear,
}

/// A sampler: wrap modes and an interpolation filter.
#[derive(Debug, Copy, Clone, PartialEq, Eq, Hash, Structural)]
pub struct Sampler {
    pub wrap_mode: WrapMode2D,
    pub filter: Filter,
}

/// Where one coordinate lands under a wrap mode, on an axis of extent
/// `r`: in-range coordinates stay put, and out-of-range ones are
/// rejected, clamped, or wrapped around.
pub open spec fn spec_wrap(m: WrapMode, v: int, r: int) -> Option<int> {
    if 0 <= v < r {
        Some(v)
    } else {
        match m {
            WrapMode::Black => None,
            WrapMode::Clamp => Some(
                if v < 0 {
                    0
                } else {
                    r - 1
                },
            ),
            WrapMode::Repeat => Some(v % r),
        }
    }
}

impl WrapMode2D {
    /// The wrap mode of the first axis.
    pub closed spec fn x_mode(self) -> WrapMode {
        self.x
    }

    /// The wrap mode of the second axis.
    pub closed spec fn y_mode(self) -> WrapMode {
        self.y
    }

    pub fn new(x: WrapMode, y: WrapMode) -> (r: WrapMode2D)
        ensures
            r.x_mode() == x,
            r.y_mode() == y,
    {
        WrapMode2D { x, y }
    }

    /// Remaps a position into the image extent per axis, or rejects it.
    pub fn remap(self, p: (i32, i32), resolution: (i32, i32)) -> (r: Option<(u32, u32)>)
        requires
            resolution.0 > 0,
            resolution.1 > 0,
        ensures
            match r {
                Some(q) => spec_wrap(self.x_mode(), p.0 as int, resolution.0 as int) == Some(
                    q.0 as int,
                ) && spec_wrap(self.y_mode(), p.1 as int, resolution.1 as int) == Some(q.1 as int),
                None => spec_wrap(self.x_mode(), p.0 as int, resolution.0 as int) is None
                    || spec_wrap(self.y_mode(), p.1 as int, resolution.1 as int) is None,
            },
    {
        let x = wrap_axis(self.x, p.0, resolution.0);
        let y = wrap_axis(self.y, p.1, resolution.1);
        match (x, y) {
            (Some(a), Some(b)) => Some((a, b)),
            _ => None,
        }
    }
}

/// Wraps one coordinate on an axis of extent `r`.
fn wrap_axis(m: WrapMode, v: i32, r: i32) -> (o: Option<u32>)
    requires
        r > 0,
    ensures
        match o {
            Some(w) => spec_wrap(m, v as int, r as int) == Some(w as int),
            None => spec_wrap(m, v as int, r as int) is None,
        },
{
    if 0 <= v && v < r {
        Some(v as u32)
    } else {
        match m {
            WrapMode::Black => None,
            WrapMode::Clamp => if v < 0 {
                Some(0)
            } else {
                Some((r - 1) as u32)
            },
            WrapMode::Repeat => Some(modulo(v, r) as u32),
        }
    }
}

/// The remainder of `a` by a positive `b`, always in `[0, b)`.
pub fn modulo(a: i32, b: i32) -> (r: i32)
    requires
        b > 0,
    ensures
        r == (a as int) % (b as int),
        0 <= r < b,
{
    if a >= 0 {
        ((a as u32) % (b as u32)) as i32
    } else {
        let neg = (-(a as i64)) as u64;
        let bu = b as u64;
        let m = (neg % bu) as i64;
        let r = if m == 0 {
            0i64
        } else {
            (b as i64) - m
        };
        proof {
            let ai = a as int;
            let bi = b as int;
            let ni = neg as int;
            let mi = m as int;
            lemma_fundamental_div_mod(ni, bi);
            let qn = ni / bi;
            if mi == 0 {
                assert(ai == (-qn) * bi + 0) by (nonlinear_arith)
                    requires
                        ai == -ni,
                        ni == bi * qn + mi,
                        mi == 0,
                ;
                lemma_fundamental_div_mod_converse(ai, bi, -qn, 0);
            } else {
                assert(ai == (-qn - 1) * bi + (bi - mi)) by (nonlinear_arith)
                    requires
                        ai == -ni,
                        ni == bi * qn + mi,
                ;
                lemma_fundamental_div_mod_converse(ai, bi, -qn - 1, bi - mi);
            }
        }
        r as i32
    }
}

} // verus!
