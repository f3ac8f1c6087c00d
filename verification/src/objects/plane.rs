//! Unbounded planes.

use super::object::{below, HitRecord, Object};
use crate::fixed::Fixed;
use crate::material::MaterialKind;
use crate::ray::Ray;
use crate::utils::interval::Interval;
use crate::vec3::{Pos3, Vec3};
use vstd::prelude::*;

verus! {

/// The raw magnitude of `direction . normal` below which a ray counts as
/// parallel to a plane: a millionth.
pub const PARALLEL_RAW: i128 = 18446744073709;

/// An unbounded plane through `center` with normal `plane_up`.
#[derive(Copy, Clone, Debug, PartialEq, Eq, Structural)]
pub struct Plane {
    pub plane_up: Vec3,
    pub center: Pos3,
    pub material: MaterialKind,
}

impl Plane {
    /// The normal of every plane that `new` makes: the y axis.
    pub open spec fn up() -> Vec3 {
        Vec3 { x: Fixed::zero(), y: Fixed::one(), z: Fixed::zero() }
    }

    /// Whether the plane lies within the ray's reach: the way to the plane's
    /// point and the two scalar products that the intersection takes all lie
    /// inside the range of the numbers.
    pub open spec fn within_reach(self, ray: Ray) -> bool {
        let to_point = self.center.spec_sub(ray.pos);
        &&& !to_point.is_clamped_spec()
        &&& !Vec3::dot_spec(to_point, self.plane_up).is_clamped_spec()
        &&& !Vec3::dot_spec(ray.dir, self.plane_up).is_clamped_spec()
    }

    /// Whether the ray runs parallel to the plane, or nearly so.
    pub open spec fn is_parallel(self, ray: Ray) -> bool {
        Vec3::dot_spec(ray.dir, self.plane_up).abs_spec()@ < PARALLEL_RAW
    }

    /// The parameter at which the ray's line crosses the plane:
    /// `((center - origin) . normal) / (direction . normal)`.
    pub open spec fn crossing(self, ray: Ray) -> Fixed {
        Vec3::dot_spec(self.center.spec_sub(ray.pos), self.plane_up).spec_div(
            Vec3::dot_spec(ray.dir, self.plane_up),
        )
    }

    /// The record of the ray meeting the plane at parameter `t`.
    pub open spec fn record_at(self, ray: Ray, t: Fixed) -> HitRecord {
        HitRecord::facing(ray, ray.cast_spec(t), self.plane_up, t, self.material)
    }

    /// Lowering the upper bound of the interval only removes hits at or
    /// beyond the new bound.
    pub proof fn lemma_hit_narrowed(self, ray: Ray, t_interval: Interval, bound: Fixed)
        requires
            bound@ <= t_interval.max@,
        ensures
            self.hit_spec(ray, t_interval.up_to(bound)) == below(
                self.hit_spec(ray, t_interval),
                bound,
            ),
    {
    }

    /// A hit with a horizontal plane lies on the plane, up to the rounding
    /// of one division and one product: the height of the hit point differs
    /// from the plane's by no more than one step, and one more for each whole
    /// unit of the direction's height.
    pub proof fn lemma_hit_on_plane(self, ray: Ray, t_interval: Interval)
        requires
            self.plane_up == Plane::up(),
            self.center.in_range(),
            ray.pos.in_range(),
            ray.dir.in_range(),
            t_interval.min.in_range(),
            t_interval.max.in_range(),
        ensures
            match self.hit_spec(ray, t_interval) {
                Some(h) => !h.point.y.is_clamped_spec() ==> crate::fixed::magnitude(
                    h.point.y@ - self.center.y@,
                ) <= crate::fixed::magnitude(ray.dir.y@) / (crate::fixed::SCALE as int) + 1,
                None => true,
            },
    {
        broadcast use {Fixed::lemma_of_view, Fixed::lemma_view_of};

        if self.hit_spec(ray, t_interval) is Some {
            let to_point = self.center.spec_sub(ray.pos);
            to_point.lemma_dot_with_up();
            ray.dir.lemma_dot_with_up();
            assert(Plane::up() == Vec3::up());
            let t = self.crossing(ray);
            assert(t == to_point.y.spec_div(ray.dir.y));
            assert(ray.dir.y@ != 0);
            Fixed::lemma_div_mul_back(to_point.y, ray.dir.y);
            assert(to_point.y@ == self.center.y@ - ray.pos.y@);
        }
    }

    /// A horizontal plane through `position`.
    pub fn new(position: Vec3, material: MaterialKind) -> (r: Self)
        ensures
            r == (Plane { plane_up: Plane::up(), center: position, material }),
    {
        Plane {
            plane_up: Vec3 { x: Fixed::zero(), y: Fixed::one(), z: Fixed::zero() },
            center: position,
            material,
        }
    }
}

/// A plane is hit where the ray's line crosses it, if the interval surrounds
/// the crossing. The point of a hit with a horizontal plane lies on the plane
/// to within one step of the numbers, and one more for each whole unit of the
/// direction's height.
impl Object for Plane {
    open spec fn hit_spec(&self, ray: Ray, t_interval: Interval) -> Option<HitRecord> {
        if !self.within_reach(ray) || self.is_parallel(ray) || !t_interval.surrounds_spec(
            self.crossing(ray),
        ) {
            None
        } else {
            Some(self.record_at(ray, self.crossing(ray)))
        }
    }

    fn hit(&self, ray: &Ray, t_interval: &Interval) -> (r: Option<HitRecord>)
        ensures
            r == self.hit_spec(*ray, *t_interval),
            match r {
                Some(h) => {
                    &&& h.material == self.material
                    &&& h.ray_scalar == self.crossing(*ray)
                    &&& h.front_face == HitRecord::faces_front(ray.dir, self.plane_up)
                    &&& h.normal == HitRecord::facing_normal(ray.dir, self.plane_up)
                },
                None => !self.within_reach(*ray) || self.is_parallel(*ray)
                    || !t_interval.surrounds_spec(self.crossing(*ray)),
            },
            match r {
                Some(h) => self.plane_up == Plane::up() && !h.point.y.is_clamped_spec()
                    ==> crate::fixed::magnitude(h.point.y@ - self.center.y@)
                    <= crate::fixed::magnitude(ray.dir.y@) / (crate::fixed::SCALE as int) + 1,
                None => true,
            },
    {
        proof {
            use_type_invariant(&self.center.x);
            use_type_invariant(&self.center.y);
            use_type_invariant(&self.center.z);
            use_type_invariant(&ray.pos.x);
            use_type_invariant(&ray.pos.y);
            use_type_invariant(&ray.pos.z);
            use_type_invariant(&ray.dir.x);
            use_type_invariant(&ray.dir.y);
            use_type_invariant(&ray.dir.z);
            use_type_invariant(&t_interval.min);
            use_type_invariant(&t_interval.max);
            if self.plane_up == Plane::up() {
                self.lemma_hit_on_plane(*ray, *t_interval);
            }
        }
        let ray_normal_dot = Vec3::dot(&ray.dir, &self.plane_up);

        // check for parallel of almost parallel cases
        if ray_normal_dot.abs() < Fixed::from_raw(PARALLEL_RAW) {
            return None;
        }
        let p0l0 = self.center - ray.pos;
        let height = Vec3::dot(&p0l0, &self.plane_up);
        if p0l0.is_clamped() || height.is_clamped() || ray_normal_dot.is_clamped() {
            return None;
        }
        let scalar = height / ray_normal_dot;

        if t_interval.surrounds(scalar) {
            let hit_point = ray.cast(scalar);
            let mut hit_record = HitRecord {
                ray_scalar: scalar,
                point: hit_point,
                normal: self.plane_up,
                front_face: false,
                material: self.material,
            };
            hit_record.set_face_normal(ray, &self.plane_up);
            Some(hit_record)
        } else {
            None
        }
    }
}

} // verus!
