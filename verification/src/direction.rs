//! Unit vectors in fixed point: the cosine and sine of an angle.

use vstd::prelude::*;
use crate::fixed::ONE;

verus! {

/// How far the squared length of a direction may differ from `ONE * ONE`. It allows each
/// component to be off by one unit in the last place.
pub const UNIT_SLACK: i64 = 196608;

/// Whether `(cos, sin)` is a unit vector up to rounding.
pub open spec fn is_unit(cos: int, sin: int) -> bool {
    let norm2 = cos * cos + sin * sin;
    ONE * ONE - UNIT_SLACK <= norm2 <= ONE * ONE + UNIT_SLACK
}

/// The direction of an angle: its cosine and sine, each scaled by `ONE`.
#[derive(Clone, Copy, Debug, PartialEq, Eq, Structural)]
pub struct Direction {
    cos: i64,
    sin: i64,
}

impl Direction {
    /// Every direction that exists at run time has unit length up to rounding; ghost
    /// values must say so.
    #[verifier::type_invariant]
    pub open spec fn wf(self) -> bool {
        is_unit(self.cos() as int, self.sin() as int)
    }

    /// The cosine of the angle, scaled by `ONE`: the share of a step that goes right.
    pub closed spec fn spec_cos(&self) -> i64 {
        self.cos
    }

    /// The sine of the angle, scaled by `ONE`: the share of a step that goes down.
    pub closed spec fn spec_sin(&self) -> i64 {
        self.sin
    }

    /// The cosine of the angle, scaled by `ONE`.
    #[verifier::when_used_as_spec(spec_cos)]
    pub fn cos(&self) -> (c: i64)
        ensures
            c == self.cos(),
    {
        self.cos
    }

    /// The sine of the angle, scaled by `ONE`.
    #[verifier::when_used_as_spec(spec_sin)]
    pub fn sin(&self) -> (s: i64)
        ensures
            s == self.sin(),
    {
        self.sin
    }

    /// Accepts `(cos, sin)` exactly when it is a unit vector up to rounding.
    pub fn new(cos: i64, sin: i64) -> (dir: Option<Direction>)
        ensures
            dir is Some <==> is_unit(cos as int, sin as int),
            dir matches Some(d) ==> d.cos() == cos && d.sin() == sin,
    {
        if cos < -65537 || cos > 65537 || sin < -65537 || sin > 65537 {
            proof {
                if is_unit(cos as int, sin as int) {
                    lemma_unit_components(cos as int, sin as int);
                }
            }
            return None;
        }
        let c: i128 = cos as i128;
        let s: i128 = sin as i128;
        assert(0 <= c * c <= 65537 * 65537) by (nonlinear_arith)
            requires
                -65537 <= c <= 65537,
        ;
        assert(0 <= s * s <= 65537 * 65537) by (nonlinear_arith)
            requires
                -65537 <= s <= 65537,
        ;
        let norm2: i128 = c * c + s * s;
        if 4294770688 <= norm2 && norm2 <= 4295163904 {
            Some(Direction { cos, sin })
        } else {
            None
        }
    }
}

/// A unit vector has no component longer than one, and at least one component that is at
/// least half as long.
pub proof fn lemma_unit_components(cos: int, sin: int)
    requires
        is_unit(cos, sin),
    ensures
        -ONE - 1 <= cos <= ONE + 1,
        -ONE - 1 <= sin <= ONE + 1,
        cos >= ONE / 2 || cos <= -(ONE / 2) || sin >= ONE / 2 || sin <= -(ONE / 2),
{
    assert(cos * cos >= 0 && sin * sin >= 0) by (nonlinear_arith);
    assert(-65537 <= cos <= 65537) by (nonlinear_arith)
        requires
            cos * cos <= 4295163904,
    ;
    assert(-65537 <= sin <= 65537) by (nonlinear_arith)
        requires
            sin * sin <= 4295163904,
    ;
    if -32768 < cos < 32768 && -32768 < sin < 32768 {
        assert(cos * cos <= 32767 * 32767) by (nonlinear_arith)
            requires
                -32768 < cos < 32768,
        ;
        assert(sin * sin <= 32767 * 32767) by (nonlinear_arith)
            requires
                -32768 < sin < 32768,
        ;
    }
}

} // verus!
