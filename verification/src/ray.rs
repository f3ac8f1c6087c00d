//! Rays and the recursive shading of what they meet.

use crate::fixed::{Fixed, SCALE};
use crate::material::{Material, ScatterSample};
use crate::utils::interval::Interval;
use crate::vec3::{Color3, Pos3, Vec3};
use crate::world::World;
use vstd::prelude::*;

verus! {

/// The raw red channel of the default sky color, one half.
pub const SKY_RED_RAW: i128 = 0x8000_0000_0000_0000;

/// The raw green channel of the default sky color, seven tenths.
pub const SKY_GREEN_RAW: i128 = 12912720851596686131;

/// The raw blue channel of the default sky color, one.
pub const SKY_BLUE_RAW: i128 = 0x1_0000_0000_0000_0000;

/// The raw lower bound of the parameters at which a ray is searched for
/// hits: a millionth, so that a scattered ray does not hit the surface that
/// it starts from.
pub const HIT_EPSILON_RAW: i128 = 18446744073709;

/// A half-line from `pos` along `dir`, with the sky color that it takes on
/// where it leaves the scene upwards.
#[derive(Copy, Clone, Debug, PartialEq, Eq, Structural)]
pub struct Ray {
    pub pos: Pos3,
    pub dir: Vec3,
    pub ray_color: Color3,
}

impl Ray {
    /// The sky color of a newly made ray.
    pub open spec fn default_sky() -> Color3 {
        Vec3 {
            x: Fixed::of(SKY_RED_RAW as int),
            y: Fixed::of(SKY_GREEN_RAW as int),
            z: Fixed::of(SKY_BLUE_RAW as int),
        }
    }

    pub open spec fn spec_new(position: Pos3, direction: Vec3) -> Ray {
        Ray { pos: position, dir: direction, ray_color: Ray::default_sky() }
    }

    /// The point at parameter `scalar`: the origin plus `scalar` times the
    /// direction.
    pub open spec fn cast_spec(self, scalar: Fixed) -> Pos3 {
        self.pos.spec_add(self.dir.spec_scale(scalar))
    }

    /// The ray from `position` along `direction`, with the default sky
    /// color.
    #[verifier::when_used_as_spec(spec_new)]
    pub fn new(position: Pos3, direction: Vec3) -> (r: Ray)
        ensures
            r == Ray::spec_new(position, direction),
    {
        Ray {
            pos: position,
            dir: direction,
            ray_color: Vec3::new(
                Fixed::from_raw(SKY_RED_RAW),
                Fixed::from_raw(SKY_GREEN_RAW),
                Fixed::from_raw(SKY_BLUE_RAW),
            ),
        }
    }

    /// The point of the ray at parameter `scalar`.
    pub fn cast(&self, scalar: Fixed) -> (r: Pos3)
        ensures
            r == self.cast_spec(scalar),
    {
        self.pos + scalar * self.dir
    }
}

/// Whether every sample of a sequence is one that can be drawn.
pub open spec fn all_valid(samples: Seq<ScatterSample>) -> bool {
    forall|i: int| 0 <= i < samples.len() ==> (#[trigger] samples[i]).valid()
}

impl Ray {
    /// The parameters at which a ray is searched for hits: above a small
    /// positive bound and below the largest representable number.
    pub open spec fn search_interval() -> Interval {
        Interval { min: Fixed::of(HIT_EPSILON_RAW as int), max: Fixed::max_value() }
    }

    /// The color of a ray that hits nothing: white blended into the ray's
    /// sky color by `t = (y + 1) / 2`, where `y` is the height of the
    /// normalized direction.
    pub open spec fn background(self) -> Color3 {
        let y_ratio = Fixed::spec_from_ratio(1, 2).spec_mul(
            self.dir.normalize_spec().y.spec_add(Fixed::one()),
        );
        Color3::white().spec_scale(Fixed::one().spec_sub(y_ratio)).spec_add(
            self.ray_color.spec_scale(y_ratio),
        )
    }

    /// The color that the ray carries back from the scene when its
    /// scattering events consume `samples` in turn. One sample allows one
    /// bounce: with none left the ray is black. A ray that hits nothing has
    /// the background color. A ray that hits a surface is black if the
    /// surface absorbs it, and else has the color of the scattered ray,
    /// attenuated channel by channel.
    pub open spec fn ray_color_spec(self, world: &World, samples: Seq<ScatterSample>) -> Color3
        decreases samples.len(),
    {
        if samples.len() == 0 {
            Color3::black()
        } else {
            match world.hit_objects_spec(self, Ray::search_interval()) {
                Some(hit) => match hit.material.reflect_spec(self, hit, samples[0]) {
                    Some((attenuation, scattered)) => attenuation.spec_mul(
                        scattered.ray_color_spec(world, samples.drop_first()),
                    ),
                    None => Color3::black(),
                },
                None => self.background(),
            }
        }
    }

    /// Whether `color` is what the ray can carry back from the scene with
    /// `bounces` bounces left, for some random draws.
    pub open spec fn is_ray_color(self, world: &World, bounces: nat, color: Color3) -> bool {
        exists|samples: Seq<ScatterSample>|
            samples.len() == bounces && all_valid(samples) && color == #[trigger] self.ray_color_spec(
                world,
                samples,
            )
    }

    /// The direction straight up.
    pub open spec fn straight_up() -> Vec3 {
        Vec3 { x: Fixed::zero(), y: Fixed::one(), z: Fixed::zero() }
    }

    /// The direction straight down.
    pub open spec fn straight_down() -> Vec3 {
        Vec3 { x: Fixed::zero(), y: Fixed::one().spec_neg(), z: Fixed::zero() }
    }

    /// A ray that points straight up has its sky color as background, and
    /// one that points straight down has white.
    pub proof fn lemma_background_at_the_poles(self)
        requires
            self.ray_color.in_range(),
        ensures
            self.dir == Ray::straight_up() ==> self.background() == self.ray_color,
            self.dir == Ray::straight_down() ==> self.background() == Color3::white(),
    {
        broadcast use {Fixed::lemma_of_view, Fixed::lemma_view_of};

        let one = Fixed::one();
        Fixed::lemma_one_half();
        Fixed::lemma_neg_exact(one);
        Fixed::lemma_mul_one(self.ray_color.x);
        Fixed::lemma_mul_one(self.ray_color.y);
        Fixed::lemma_mul_one(self.ray_color.z);
        Fixed::lemma_mul_zero(self.ray_color.x);
        Fixed::lemma_mul_zero(self.ray_color.y);
        Fixed::lemma_mul_zero(self.ray_color.z);
        Fixed::lemma_mul_one(one);
        Fixed::lemma_mul_zero(one);
        Fixed::lemma_div_one(one);
        Fixed::lemma_div_one(one.spec_neg());
        Fixed::lemma_div_one(Fixed::zero());
        let half = Fixed::spec_from_ratio(1, 2);
        let y = self.dir.normalize_spec().y;
        let y_ratio = half.spec_mul(y.spec_add(one));
        if self.dir == Ray::straight_up() {
            Fixed::lemma_norm3_of_axis(self.dir.y);
            assert(y == one);
            assert(half@ * (2 * SCALE) == SCALE * SCALE) by (nonlinear_arith)
                requires
                    half@ == SCALE / 2,
            ;
            vstd::arithmetic::div_mod::lemma_div_multiples_vanish(SCALE as int, SCALE as int);
            assert(y_ratio == one);
        }
        if self.dir == Ray::straight_down() {
            Fixed::lemma_norm3_of_axis(self.dir.y);
            assert(y == one.spec_neg());
            assert(y.spec_add(one) == Fixed::zero());
            Fixed::lemma_mul_zero(half);
            assert(y_ratio == Fixed::zero());
        }
    }

    /// The background is no brighter than white where the ray's sky color is
    /// not.
    pub proof fn lemma_background_within_white(self)
        requires
            self.dir.in_range(),
            self.ray_color.within_white(),
        ensures
            self.background().within_white(),
    {
        broadcast use Fixed::lemma_of_view;

        self.dir.lemma_normalize_bounded();
        Fixed::lemma_one_half();
        let one = Fixed::one();
        let half = Fixed::spec_from_ratio(1, 2);
        let y = self.dir.normalize_spec().y;
        let lifted = y.spec_add(one);
        let y_ratio = half.spec_mul(lifted);
        assert(0 <= lifted@ <= 2 * SCALE);
        let p = half@ * lifted@;
        assert(0 <= p <= SCALE * SCALE) by (nonlinear_arith)
            requires
                p == half@ * lifted@,
                half@ * 2 == SCALE,
                0 <= lifted@ <= 2 * SCALE,
        ;
        vstd::arithmetic::div_mod::lemma_div_pos_is_pos(p, SCALE as int);
        vstd::arithmetic::div_mod::lemma_div_is_ordered(p, SCALE * SCALE, SCALE as int);
        vstd::arithmetic::div_mod::lemma_div_multiples_vanish(SCALE as int, SCALE as int);
        assert(y_ratio.is_fraction());
        let rest = one.spec_sub(y_ratio);
        assert(rest@ == SCALE - y_ratio@);
        Fixed::lemma_one_mul(rest);
        Fixed::lemma_mul_by_fraction(self.ray_color.x, y_ratio);
        Fixed::lemma_mul_by_fraction(self.ray_color.y, y_ratio);
        Fixed::lemma_mul_by_fraction(self.ray_color.z, y_ratio);
        Fixed::lemma_mul_by_fraction(y_ratio, self.ray_color.x);
        Fixed::lemma_mul_by_fraction(y_ratio, self.ray_color.y);
        Fixed::lemma_mul_by_fraction(y_ratio, self.ray_color.z);
    }

    /// With one bounce a ray shows only whether it hits: it is black where
    /// it meets a shape, since the scattered ray has no bounce left, and has
    /// its background color where it meets none.
    pub proof fn lemma_single_bounce(self, world: &World, samples: Seq<ScatterSample>)
        requires
            samples.len() == 1,
        ensures
            self.ray_color_spec(world, samples) == (if world.hit_objects_spec(
                self,
                Ray::search_interval(),
            ) is Some {
                Color3::black()
            } else {
                self.background()
            }),
    {
        match world.hit_objects_spec(self, Ray::search_interval()) {
            Some(hit) => {
                match hit.material.reflect_spec(self, hit, samples[0]) {
                    Some((attenuation, scattered)) => {
                        assert(samples.drop_first().len() == 0);
                        assert(scattered.ray_color_spec(world, samples.drop_first())
                            == Color3::black());
                        Fixed::lemma_mul_zero(attenuation.x);
                        Fixed::lemma_mul_zero(attenuation.y);
                        Fixed::lemma_mul_zero(attenuation.z);
                    },
                    None => {},
                }
            },
            None => {},
        }
    }

    /// In a scene that conserves light, no ray is brighter than white,
    /// whatever is drawn: no channel of its color exceeds one, and none is
    /// negative.
    pub proof fn lemma_ray_color_within_white(self, world: &World, samples: Seq<ScatterSample>)
        requires
            world.conserves(),
            self.dir.in_range(),
            self.ray_color.within_white(),
        ensures
            self.ray_color_spec(world, samples).within_white(),
        decreases samples.len(),
    {
        if samples.len() == 0 {
            Ray::lemma_plain_colors();
        } else {
            world.lemma_hit_conserves(self, Ray::search_interval());
            match world.hit_objects_spec(self, Ray::search_interval()) {
                Some(hit) => {
                    hit.material.lemma_scatter_conserves(self, hit, samples[0]);
                    match hit.material.reflect_spec(self, hit, samples[0]) {
                        Some((attenuation, scattered)) => {
                            Ray::lemma_plain_colors();
                            scattered.lemma_ray_color_within_white(world, samples.drop_first());
                            Vec3::lemma_mul_within_white(
                                attenuation,
                                scattered.ray_color_spec(world, samples.drop_first()),
                            );
                        },
                        None => {
                            Ray::lemma_plain_colors();
                        },
                    }
                },
                None => {
                    self.lemma_background_within_white();
                },
            }
        }
    }

    /// Black, white and the default sky color are no brighter than white.
    pub proof fn lemma_plain_colors()
        ensures
            Color3::black().within_white(),
            Color3::white().within_white(),
            Ray::default_sky().within_white(),
    {
        broadcast use Fixed::lemma_of_view;

    }

    /// The color of a ray that hits nothing.
    pub fn sky(&self) -> (r: Color3)
        ensures
            r == self.background(),
    {
        let dir_normalized = self.dir.normalize();
        // move the height from [-1, 1] to [0, 1]
        let y_ratio = Fixed::from_ratio(1, 2) * (dir_normalized.y + Fixed::one());
        (Fixed::one() - y_ratio) * Color3::white() + y_ratio * self.ray_color
    }

    /// Traces the ray through the scene with fresh random draws, for at most
    /// `bounces_remaining` bounces. With no bounce left the ray is black. In
    /// a scene that conserves light the ray is no brighter than white, if
    /// its sky color is not.
    pub fn ray_color(&self, world: &World, bounces_remaining: u16) -> (r: Color3)
        ensures
            bounces_remaining == 0 ==> r == Color3::black(),
            self.is_ray_color(world, bounces_remaining as nat, r),
            world.conserves() && self.ray_color.within_white() ==> r.within_white(),
    {
        let traced = self.shade(world, bounces_remaining as usize, None);
        proof {
            let samples = traced.1@;
            assert(traced.0 == self.ray_color_spec(world, samples));
            if world.conserves() && self.ray_color.within_white() {
                use_type_invariant(&self.dir.x);
                use_type_invariant(&self.dir.y);
                use_type_invariant(&self.dir.z);
                self.lemma_ray_color_within_white(world, samples);
            }
        }
        traced.0
    }

    /// Traces the ray through the scene with the given draws in place of
    /// random ones, one per bounce.
    pub fn ray_color_with(&self, world: &World, samples: &Vec<ScatterSample>) -> (r: Color3)
        ensures
            r == self.ray_color_spec(world, samples@),
    {
        assert(samples@.skip(0) =~= samples@);
        self.shade(world, samples.len(), Some(samples)).0
    }

    /// The draws that a trace of `bounces` bounces consumes where it is
    /// given its draws: the last `bounces` of them.
    pub open spec fn given_draws(given: Option<&Vec<ScatterSample>>, bounces: nat) -> Seq<
        ScatterSample,
    > {
        match given {
            Some(samples) => samples@.skip(samples@.len() - bounces),
            None => Seq::new(bounces, |i: int| ScatterSample::unused()),
        }
    }

    /// Traces the ray for `bounces` bounces, and tells which draws it
    /// consumed. Each bounce takes its draw from `given` where there is one,
    /// and else draws what it needs as it comes to it.
    fn shade(&self, world: &World, bounces: usize, given: Option<&Vec<ScatterSample>>) -> (r: (
        Color3,
        Ghost<Seq<ScatterSample>>,
    ))
        requires
            match given {
                Some(samples) => bounces <= samples@.len(),
                None => true,
            },
        ensures
            r.0 == self.ray_color_spec(world, r.1@),
            r.1@.len() == bounces,
            bounces == 0 ==> r.0 == Color3::black(),
            match given {
                Some(samples) => r.1@ == Ray::given_draws(given, bounces as nat),
                None => all_valid(r.1@),
            },
        decreases bounces,
    {
        let ghost rest = Ray::given_draws(given, bounces as nat);
        proof {
            ScatterSample::lemma_unused_valid();
        }
        if bounces == 0 {
            return (Color3::black(), Ghost(rest));
        }
        let hit = world.hit_objects(
            self,
            &Interval::new(Fixed::from_raw(HIT_EPSILON_RAW), Fixed::max_value()),
        );
        if let Some(hit) = hit {
            let sample = match given {
                Some(samples) => samples[samples.len() - bounces],
                None => hit.material.draw(self, &hit),
            };
            proof {
                if given is Some {
                    assert(rest[0] == sample);
                }
            }
            let ghost tail = Ray::given_draws(given, (bounces - 1) as nat);
            let ghost untaken = seq![sample] + tail;
            proof {
                assert(untaken.drop_first() =~= tail);
                assert(untaken[0] == sample);
                if given is Some {
                    assert(untaken =~= rest);
                }
            }
            return match hit.material.reflect_with(self, &hit, &sample) {
                Some((attenuation, reflected_ray)) => {
                    let traced = reflected_ray.shade(world, bounces - 1, given);
                    let ghost taken = seq![sample] + traced.1@;
                    proof {
                        assert(taken.drop_first() =~= traced.1@);
                        assert(taken[0] == sample);
                        if given is Some {
                            assert(taken =~= rest);
                        }
                    }
                    (attenuation * traced.0, Ghost(taken))
                },
                None => (Color3::black(), Ghost(untaken)),
            };
        }
        (self.sky(), Ghost(rest))
    }
}

} // verus!
