//! Rays: a half-line given by its origin and direction.
use crate::scalar::Scalar;
use crate::vector::{Point3, Vector3};
use vstd::prelude::*;

verus! {

/// The points `orig + t * dir`.
#[derive(Clone, Copy, Debug, PartialEq, Eq, Structural)]
pub struct Ray {
    pub orig: Point3,
    pub dir: Vector3,
}

impl Ray {
    /// The ray from `orig` along `dir`.
    pub open spec fn spec_new(orig: Point3, dir: Vector3) -> Ray {
        Ray { orig, dir }
    }

    /// The point at parameter `t`.
    pub open spec fn spec_at(&self, t: Scalar) -> Point3 {
        self.orig.add(self.dir.scale(t))
    }

    /// The ray from `orig` along `dir`.
    #[verifier::when_used_as_spec(spec_new)]
    pub fn new(orig: Point3, dir: Vector3) -> (r: Ray)
        ensures
            r == Ray::spec_new(orig, dir),
    {
        Ray { orig, dir }
    }

    /// The point at parameter `t`.
    #[verifier::when_used_as_spec(spec_at)]
    pub fn at(&self, t: Scalar) -> (r: Point3)
        ensures
            r == self.spec_at(t),
    {
        self.orig.add(self.dir.scale(t))
    }
}

} // verus!
