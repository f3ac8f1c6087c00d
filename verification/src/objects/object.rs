//! Hit records and the interface of everything a ray can hit.

use crate::fixed::Fixed;
use crate::material::MaterialKind;
use crate::ray::Ray;
use crate::utils::interval::Interval;
use crate::vec3::{Pos3, Vec3};
use core::ops::Neg;
use vstd::prelude::*;

verus! {

/// Where and how a ray met a surface.
#[derive(Copy, Clone, Debug, PartialEq, Eq, Structural)]
pub struct HitRecord {
    pub point: Pos3,
    /// The surface normal, turned against the incoming ray.
    pub normal: Vec3,
    /// The ray parameter of the hit.
    pub ray_scalar: Fixed,
    /// Whether the ray came from outside the surface.
    pub front_face: bool,
    pub material: MaterialKind,
}

impl HitRecord {
    /// Whether a ray along `dir` meets a surface with this outward normal
    /// from outside.
    pub open spec fn faces_front(dir: Vec3, outward_normal: Vec3) -> bool {
        Vec3::dot_spec(dir, outward_normal)@ < 0
    }

    /// The outward normal, turned so that it opposes `dir`.
    pub open spec fn facing_normal(dir: Vec3, outward_normal: Vec3) -> Vec3 {
        if HitRecord::faces_front(dir, outward_normal) {
            outward_normal
        } else {
            outward_normal.spec_neg()
        }
    }

    /// The record of `ray` meeting a surface at `point`, parameter `t`.
    pub open spec fn facing(
        ray: Ray,
        point: Pos3,
        outward_normal: Vec3,
        t: Fixed,
        material: MaterialKind,
    ) -> HitRecord {
        HitRecord {
            point,
            normal: HitRecord::facing_normal(ray.dir, outward_normal),
            ray_scalar: t,
            front_face: HitRecord::faces_front(ray.dir, outward_normal),
            material,
        }
    }

    /// The stored normal never points along the ray: its scalar product with
    /// the ray's direction is zero or negative, whichever way the outward
    /// normal points.
    pub proof fn lemma_normal_faces_ray(dir: Vec3, outward_normal: Vec3)
        requires
            outward_normal.in_range(),
        ensures
            HitRecord::faces_front(dir, outward_normal) <==> Vec3::dot_spec(dir, outward_normal)@
                < 0,
            Vec3::dot_spec(dir, HitRecord::facing_normal(dir, outward_normal))@ <= 0,
    {
        Fixed::lemma_dot3_negated(dir.triple(), outward_normal.triple());
    }

    /// Sets `front_face` and `normal` from the ray and the outward normal of
    /// the surface, and hands the new normal back. The ray came from outside
    /// exactly if its direction opposes the outward normal; the stored normal
    /// always faces the incoming ray.
    pub fn set_face_normal(&mut self, ray: &Ray, outward_normal: &Vec3) -> (r: &Vec3)
        ensures
            *final(self) == (HitRecord {
                front_face: HitRecord::faces_front(ray.dir, *outward_normal),
                normal: HitRecord::facing_normal(ray.dir, *outward_normal),
                ..*old(self)
            }),
            *r == final(self).normal,
            Vec3::dot_spec(ray.dir, final(self).normal)@ <= 0,
    {
        proof {
            use_type_invariant(&outward_normal.x);
            use_type_invariant(&outward_normal.y);
            use_type_invariant(&outward_normal.z);
            HitRecord::lemma_normal_faces_ray(ray.dir, *outward_normal);
        }
        self.front_face = Vec3::dot(&ray.dir, outward_normal) < Fixed::zero();
        self.normal = if self.front_face {
            *outward_normal
        } else {
            outward_normal.neg()
        };
        &self.normal
    }
}

/// Something a ray can hit.
pub trait Object {
    /// The nearest hit of `ray` with this object whose parameter lies
    /// strictly inside `t_interval`, if there is one.
    spec fn hit_spec(&self, ray: Ray, t_interval: Interval) -> Option<HitRecord>;

    /// Finds the nearest hit of `ray` with this object strictly inside
    /// `t_interval`. The point of a hit is the point of the ray at the hit's
    /// parameter, and its normal never points along the ray.
    fn hit(&self, ray: &Ray, t_interval: &Interval) -> (r: Option<HitRecord>)
        ensures
            r == self.hit_spec(*ray, *t_interval),
            match r {
                Some(h) => {
                    &&& t_interval.surrounds_spec(h.ray_scalar)
                    &&& h.point == ray.cast_spec(h.ray_scalar)
                    &&& Vec3::dot_spec(ray.dir, h.normal)@ <= 0
                },
                None => true,
            },
    ;
}

/// What a hit search finds in a narrowed interval: the hit of the full
/// interval if its parameter is below the new upper bound, else nothing.
pub open spec fn below(hit: Option<HitRecord>, bound: Fixed) -> Option<HitRecord> {
    match hit {
        Some(h) if h.ray_scalar@ < bound@ => hit,
        _ => None,
    }
}

} // verus!
