//! The scene: the shapes it can hold, and the search for the nearest hit.

use crate::fixed::Fixed;
use crate::material::MaterialKind;
use crate::objects::object::{below, HitRecord, Object};
use crate::objects::plane::Plane;
use crate::objects::sphere::Sphere;
use crate::ray::Ray;
use crate::utils::interval::Interval;
use crate::vec3::{Pos3, Vec3};
use vstd::prelude::*;

verus! {

/// Any of the supported shapes.
#[derive(Copy, Clone, Debug, PartialEq, Eq, Structural)]
pub enum Shape {
    Sphere(Sphere),
    Plane(Plane),
}

impl Object for Shape {
    open spec fn hit_spec(&self, ray: Ray, t_interval: Interval) -> Option<HitRecord> {
        match *self {
            Shape::Sphere(sphere) => sphere.hit_spec(ray, t_interval),
            Shape::Plane(plane) => plane.hit_spec(ray, t_interval),
        }
    }

    fn hit(&self, ray: &Ray, t_interval: &Interval) -> (r: Option<HitRecord>)
        ensures
            r == self.hit_spec(*ray, *t_interval),
    {
        match self {
            Shape::Sphere(sphere) => sphere.hit(ray, t_interval),
            Shape::Plane(plane) => plane.hit(ray, t_interval),
        }
    }
}

impl Shape {
    /// Lowering the upper bound of the interval only removes hits at or
    /// beyond the new bound.
    pub proof fn lemma_hit_narrowed(self, ray: Ray, t_interval: Interval, bound: Fixed)
        requires
            bound@ <= t_interval.max@,
        ensures
            self.hit_spec(ray, t_interval.up_to(bound)) == below(
                self.hit_spec(ray, t_interval),
                bound,
            ),
    {
        match self {
            Shape::Sphere(sphere) => sphere.lemma_hit_narrowed(ray, t_interval, bound),
            Shape::Plane(plane) => plane.lemma_hit_narrowed(ray, t_interval, bound),
        }
    }

    /// Whether the shape's own vectors lie in the representable range, as
    /// they do in every shape that executable code can hold.
    pub open spec fn in_range(self) -> bool {
        match self {
            Shape::Sphere(_) => true,
            Shape::Plane(plane) => plane.plane_up.in_range(),
        }
    }

    /// In every hit record the ray came from outside exactly if its
    /// direction opposes the outward normal, and the stored normal never
    /// points along the ray.
    pub proof fn lemma_hit_faces_ray(self, ray: Ray, t_interval: Interval)
        requires
            self.in_range(),
        ensures
            match self.hit_spec(ray, t_interval) {
                Some(h) => {
                    &&& h.front_face <==> Vec3::dot_spec(
                        ray.dir,
                        self.outward_normal(h.point),
                    )@ < 0
                    &&& Vec3::dot_spec(ray.dir, h.normal)@ <= 0
                },
                None => true,
            },
    {
        broadcast use Fixed::lemma_of_view;

        match self.hit_spec(ray, t_interval) {
            Some(h) => {
                HitRecord::lemma_normal_faces_ray(ray.dir, self.outward_normal(h.point));
            },
            None => {},
        }
    }

    /// The outward normal of the shape's surface at `point`.
    pub open spec fn outward_normal(self, point: Pos3) -> Vec3 {
        match self {
            Shape::Sphere(sphere) => sphere.outward_normal(point),
            Shape::Plane(plane) => plane.plane_up,
        }
    }

    /// The material of the shape.
    pub open spec fn material(self) -> MaterialKind {
        match self {
            Shape::Sphere(sphere) => sphere.material,
            Shape::Plane(plane) => plane.material,
        }
    }

    /// A hit record carries the material of the shape that was hit, and a
    /// normal in the representable range.
    pub proof fn lemma_hit_record(self, ray: Ray, t_interval: Interval)
        requires
            self.in_range(),
        ensures
            match self.hit_spec(ray, t_interval) {
                Some(h) => h.material == self.material() && h.normal.in_range(),
                None => true,
            },
    {
        broadcast use Fixed::lemma_of_view;

    }

    /// Every hit lies strictly inside the interval it was searched in.
    pub proof fn lemma_hit_inside(self, ray: Ray, t_interval: Interval)
        ensures
            match self.hit_spec(ray, t_interval) {
                Some(h) => t_interval.surrounds_spec(h.ray_scalar),
                None => true,
            },
    {
    }
}

/// The shapes of a scene, in the order in which they were added.
pub struct World {
    pub objects: Vec<Shape>,
}

impl World {
    /// What each shape of the scene answers when asked for its hit with
    /// `ray` inside `t_interval`, in the order of the shapes.
    pub open spec fn hits(objects: Seq<Shape>, ray: Ray, t_interval: Interval) -> Seq<
        Option<HitRecord>,
    > {
        Seq::new(objects.len(), |i: int| objects[i].hit_spec(ray, t_interval))
    }

    /// The nearest among the first `n` of the given hits. Of two hits at the
    /// same parameter the earlier one is kept.
    pub open spec fn nearest_among(hits: Seq<Option<HitRecord>>, n: int) -> Option<HitRecord>
        decreases n,
    {
        if n <= 0 {
            None
        } else {
            let before = World::nearest_among(hits, n - 1);
            let here = hits[n - 1];
            match (before, here) {
                (Some(b), Some(h)) => if h.ray_scalar@ < b.ray_scalar@ {
                    here
                } else {
                    before
                },
                (None, _) => here,
                (_, None) => before,
            }
        }
    }

    /// The nearest hit among all shapes of the scene.
    pub open spec fn hit_objects_spec(&self, ray: Ray, t_interval: Interval) -> Option<HitRecord> {
        World::nearest_among(
            World::hits(self.objects@, ray, t_interval),
            self.objects@.len() as int,
        )
    }

    /// Whether `best` is nearest among `hits` when it stands at index `k`:
    /// no hit undercuts it, and no earlier hit equals it in its parameter.
    pub open spec fn is_nearest_at(hits: Seq<Option<HitRecord>>, best: HitRecord, k: int) -> bool {
        &&& 0 <= k < hits.len()
        &&& hits[k] == Some(best)
        &&& forall|i: int|
            0 <= i < hits.len() ==> match #[trigger] hits[i] {
                Some(other) => {
                    &&& best.ray_scalar@ <= other.ray_scalar@
                    &&& i < k ==> best.ray_scalar@ < other.ray_scalar@
                },
                None => true,
            }
    }

    /// Whether `found` is the nearest of `hits`: nothing, if there is no hit
    /// at all; else the first of the hits with the smallest parameter.
    pub open spec fn is_nearest(hits: Seq<Option<HitRecord>>, found: Option<HitRecord>) -> bool {
        match found {
            None => forall|i: int| 0 <= i < hits.len() ==> (#[trigger] hits[i]) is None,
            Some(best) => exists|k: int| World::is_nearest_at(hits, best, k),
        }
    }

    /// As the scan goes on, the best hit so far only comes nearer: once there
    /// is one there always is, and its parameter never grows.
    pub proof fn lemma_nearest_monotone(hits: Seq<Option<HitRecord>>, n: int)
        requires
            0 <= n < hits.len(),
        ensures
            match (World::nearest_among(hits, n), World::nearest_among(hits, n + 1)) {
                (Some(before), Some(after)) => after.ray_scalar@ <= before.ray_scalar@,
                (Some(_), None) => false,
                (None, _) => true,
            },
    {
    }

    /// The nearest among a prefix of the hits is one of them, at the
    /// smallest parameter of them all, and the first such.
    pub proof fn lemma_nearest_among(hits: Seq<Option<HitRecord>>, n: int)
        requires
            0 <= n <= hits.len(),
        ensures
            World::is_nearest(hits.take(n), World::nearest_among(hits, n)),
        decreases n,
    {
        let found = World::nearest_among(hits, n);
        let prefix = hits.take(n);
        if n > 0 {
            World::lemma_nearest_among(hits, n - 1);
            let before = World::nearest_among(hits, n - 1);
            let shorter = hits.take(n - 1);
            assert forall|i: int| 0 <= i < n - 1 implies #[trigger] prefix[i] == shorter[i] by {}
            match before {
                None => {
                    if found is Some {
                        assert(World::is_nearest_at(prefix, found->Some_0, n - 1));
                    }
                },
                Some(b) => {
                    let k = choose|k: int| World::is_nearest_at(shorter, b, k);
                    let winner = if found == before {
                        k
                    } else {
                        n - 1
                    };
                    assert(World::is_nearest_at(prefix, found->Some_0, winner));
                },
            }
        }
    }

    /// The nearest hit of a scene is the hit of one of its shapes, at the
    /// smallest parameter among the hits of all shapes; where several shapes
    /// are hit at that parameter, it is the hit of the first of them.
    pub proof fn lemma_hit_is_nearest(&self, ray: Ray, t_interval: Interval)
        ensures
            World::is_nearest(
                World::hits(self.objects@, ray, t_interval),
                self.hit_objects_spec(ray, t_interval),
            ),
    {
        let hits = World::hits(self.objects@, ray, t_interval);
        World::lemma_nearest_among(hits, hits.len() as int);
        assert(hits.take(hits.len() as int) =~= hits);
    }

    /// Whether no surface of the scene hands on more light than reaches it,
    /// and every shape lies in the representable range.
    pub open spec fn conserves(&self) -> bool {
        forall|i: int|
            0 <= i < self.objects@.len() ==> {
                &&& (#[trigger] self.objects@[i]).material().conserves()
                &&& self.objects@[i].in_range()
            }
    }

    /// The nearest hit of a scene that conserves light is a hit with a
    /// material that does, and has a normal in the representable range.
    pub proof fn lemma_hit_conserves(&self, ray: Ray, t_interval: Interval)
        requires
            self.conserves(),
        ensures
            match self.hit_objects_spec(ray, t_interval) {
                Some(h) => h.material.conserves() && h.normal.in_range(),
                None => true,
            },
    {
        self.lemma_hit_is_nearest(ray, t_interval);
        let hits = World::hits(self.objects@, ray, t_interval);
        match self.hit_objects_spec(ray, t_interval) {
            Some(h) => {
                let k = choose|k: int| World::is_nearest_at(hits, h, k);
                self.objects@[k].lemma_hit_record(ray, t_interval);
            },
            None => {},
        }
    }

    /// An empty scene.
    pub fn new() -> (r: Self)
        ensures
            r.objects@ == Seq::<Shape>::empty(),
    {
        World { objects: Vec::new() }
    }

    /// Appends a shape to the scene.
    pub fn add_object(&mut self, object: Shape)
        ensures
            final(self).objects@ == old(self).objects@.push(object),
    {
        self.objects.push(object);
    }

    /// Finds the nearest hit of `ray` with the scene inside `t_interval`, in
    /// one pass over the shapes, each searched only up to the best hit so far.
    pub fn hit_objects(&self, ray: &Ray, t_interval: &Interval) -> (r: Option<HitRecord>)
        ensures
            r == self.hit_objects_spec(*ray, *t_interval),
            World::is_nearest(World::hits(self.objects@, *ray, *t_interval), r),
            match r {
                Some(h) => {
                    &&& t_interval.surrounds_spec(h.ray_scalar)
                    &&& h.point == ray.cast_spec(h.ray_scalar)
                    &&& Vec3::dot_spec(ray.dir, h.normal)@ <= 0
                },
                None => true,
            },
    {
        let mut hit: Option<HitRecord> = None;
        let mut nearest_hit = t_interval.max;
        let mut i: usize = 0;
        while i < self.objects.len()
            invariant
                i <= self.objects@.len(),
                hit == World::nearest_among(
                    World::hits(self.objects@, *ray, *t_interval),
                    i as int,
                ),
                nearest_hit == match hit {
                    Some(h) => h.ray_scalar,
                    None => t_interval.max,
                },
                nearest_hit@ <= t_interval.max@,
                match hit {
                    Some(h) => {
                        &&& t_interval.surrounds_spec(h.ray_scalar)
                        &&& h.point == ray.cast_spec(h.ray_scalar)
                        &&& Vec3::dot_spec(ray.dir, h.normal)@ <= 0
                    },
                    None => true,
                },
            decreases self.objects@.len() - i,
        {
            let obj = &self.objects[i];
            proof {
                obj.lemma_hit_narrowed(*ray, *t_interval, nearest_hit);
                obj.lemma_hit_inside(*ray, *t_interval);
            }
            if let Some(h) = obj.hit(ray, &Interval::new(t_interval.min, nearest_hit)) {
                nearest_hit = h.ray_scalar;
                hit = Some(h);
            }
            i = i + 1;
        }
        proof {
            self.lemma_hit_is_nearest(*ray, *t_interval);
        }
        hit
    }
}

} // verus!
