//! Timeline time types over exact rationals: a moment on a composition's
//! timeline, a length of time, and a frame rate.

use crate::rational::{from_parts_spec, Rational, TimeError};
use vstd::prelude::*;

verus! {

/// A moment on a composition's timeline, in seconds.
#[derive(Debug, Clone, Copy, PartialEq, Eq, Structural)]
pub struct CompTime(pub Rational);

/// A length of time, in seconds.
#[derive(Debug, Clone, Copy, PartialEq, Eq, Structural)]
pub struct Duration(pub Rational);

/// Frames per second, as an exact rational.
#[derive(Debug, Clone, Copy, PartialEq, Eq, Structural)]
pub struct FrameRate(pub Rational);

impl FrameRate {
    /// The rate `num / den` frames per second, in lowest terms; the error
    /// building the rational reports otherwise.
    pub fn new(num: i64, den: i64) -> (r: Result<FrameRate, TimeError>)
        ensures
            match from_parts_spec(num as int, den as int) {
                Ok(x) => r == Ok::<FrameRate, TimeError>(FrameRate(x)),
                Err(e) => r == Err::<FrameRate, TimeError>(e),
            },
    {
        match Rational::new(num, den) {
            Ok(x) => Ok(FrameRate(x)),
            Err(e) => Err(e),
        }
    }
}

} // verus!
