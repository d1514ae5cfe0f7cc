//! A ray: an origin and a direction, with the point-at-parameter operation.

use vstd::prelude::*;
use crate::vector3::{Vec3, Point3, sv_add, sv_scale};

verus! {

#[derive(Clone, Copy, PartialEq, Eq, Structural, Debug)]
pub struct Ray {
    pub origin: Point3,
    pub direction: Vec3,
}

/// Mirror of `Ray::at`: origin + t * direction.
pub open spec fn s_ray_at(r: Ray, t: i64) -> Point3 {
    sv_add(r.origin, sv_scale(r.direction, t))
}

impl Ray {
    pub fn new(origin: &Point3, direction: &Vec3) -> (r: Ray)
        ensures
            r == (Ray { origin: *origin, direction: *direction }),
    {
        Ray { origin: *origin, direction: *direction }
    }

    pub fn origin(&self) -> (r: &Point3)
        ensures
            *r == self.origin,
    {
        &self.origin
    }

    pub fn direction(&self) -> (r: &Vec3)
        ensures
            *r == self.direction,
    {
        &self.direction
    }

    /// The point the ray reaches at parameter t.
    pub fn at(&self, t: i64) -> (r: Point3)
        ensures
            r == s_ray_at(*self, t),
    {
        self.origin.add(self.direction.scale(t))
    }

    pub fn update_as(&mut self, ray: Ray)
        ensures
            *final(self) == ray,
    {
        self.origin = ray.origin;
        self.direction = ray.direction;
    }
}

impl Default for Ray {
    fn default() -> (r: Ray)
        ensures
            r == (Ray {
                origin: Vec3 { x: 0, y: 0, z: 0 },
                direction: Vec3 { x: 0, y: 0, z: 0 },
            }),
    {
        Ray {
            origin: Vec3 { x: 0, y: 0, z: 0 },
            direction: Vec3 { x: 0, y: 0, z: 0 },
        }
    }
}

} // verus!
