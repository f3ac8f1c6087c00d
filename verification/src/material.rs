//! Surface materials and how each scatters an incoming ray.

use crate::fixed::{Fixed, SCALE};
use crate::objects::object::HitRecord;
use crate::ray::Ray;
use crate::utils::helpers::{
    cos_theta_spec, fallback_sample, fallback_sample_spec, is_unit_sample, lemma_fallback_sample,
    random_fixed, random_in_unit_sphere_normalized, reflect_spec,
    reflect_vector, reflectance, reflectance_spec, refract_spec, refract_vector,
};
use crate::vec3::{Color3, Vec3};
use core::ops::Neg;
use vstd::prelude::*;

verus! {

/// The random draws that one scattering event may consume.
#[derive(Copy, Clone, Debug, PartialEq, Eq, Structural)]
pub struct ScatterSample {
    /// A direction for diffuse and fuzzy scattering.
    pub unit: Vec3,
    /// A number in `[0, 1)` that decides between reflection and refraction.
    pub coin: Fixed,
}

/// A diffuse surface.
#[derive(Copy, Clone, Debug, PartialEq, Eq, Structural)]
pub struct Lambert {
    pub albedo: Color3,
}

/// A mirror-like surface, roughened by `fuzz`.
#[derive(Copy, Clone, Debug, PartialEq, Eq, Structural)]
pub struct Metallic {
    pub albedo: Color3,
    pub fuzz: Fixed,
}

/// A transparent surface that reflects or refracts.
#[derive(Copy, Clone, Debug, PartialEq, Eq, Structural)]
pub struct Dielectric {
    pub refraction_index: Fixed,
}

/// A surface that shows its normal as a color.
#[derive(Copy, Clone, Debug, PartialEq, Eq, Structural)]
pub struct NormalMaterial {}

/// Any of the supported materials.
#[derive(Copy, Clone, Debug, PartialEq, Eq, Structural)]
pub enum MaterialKind {
    Lambert(Lambert),
    Metallic(Metallic),
    Dielectric(Dielectric),
    Normal(NormalMaterial),
}

impl ScatterSample {
    /// What a drawn sample can be: a random direction and a coin in
    /// `[0, 1)`.
    pub open spec fn valid(self) -> bool {
        is_unit_sample(self.unit) && 0 <= self.coin@ < SCALE
    }

    /// Draws a direction and a coin.
    pub fn random() -> (r: ScatterSample)
        ensures
            r.valid(),
    {
        ScatterSample {
            unit: random_in_unit_sphere_normalized(),
            coin: random_fixed(Fixed::zero(), Fixed::one()),
        }
    }

    /// The sample that stands in where a material draws nothing.
    pub open spec fn spec_unused() -> ScatterSample {
        ScatterSample { unit: fallback_sample_spec().normalize_spec(), coin: Fixed::zero() }
    }

    /// The stand-in sample is one that could have been drawn.
    pub proof fn lemma_unused_valid()
        ensures
            ScatterSample::spec_unused().valid(),
    {
        broadcast use Fixed::lemma_of_view;

        lemma_fallback_sample();
    }

    /// A sample for a material that draws nothing.
    #[verifier::when_used_as_spec(spec_unused)]
    pub fn unused() -> (r: ScatterSample)
        ensures
            r == ScatterSample::spec_unused(),
            r.valid(),
    {
        proof {
            ScatterSample::lemma_unused_valid();
        }
        ScatterSample { unit: fallback_sample().normalize(), coin: Fixed::zero() }
    }
}

/// A surface that scatters incoming rays.
pub trait Material {
    /// What becomes of `ray` where it meets the surface at `hit`, if the
    /// random draws are those of `sample`: the attenuation and the scattered
    /// ray, or nothing where the ray is absorbed.
    spec fn reflect_spec(&self, ray: Ray, hit: HitRecord, sample: ScatterSample) -> Option<
        (Color3, Ray),
    >;

    /// Scatters `ray` with the given draws in place of random ones.
    fn reflect_with(&self, ray: &Ray, hit: &HitRecord, sample: &ScatterSample) -> (r: Option<
        (Color3, Ray),
    >)
        ensures
            r == self.reflect_spec(*ray, *hit, *sample),
    ;

    /// Draws what scattering `ray` at `hit` consumes, and no more.
    fn draw(&self, ray: &Ray, hit: &HitRecord) -> (sample: ScatterSample)
        ensures
            sample.valid(),
    ;

    /// Scatters `ray` with fresh random draws.
    fn reflect(&self, ray: &Ray, hit: &HitRecord) -> (r: Option<(Color3, Ray)>)
        ensures
            exists|sample: ScatterSample|
                sample.valid() && r == #[trigger] self.reflect_spec(*ray, *hit, sample),
    ;
}

impl Lambert {
    /// A diffuse surface of the given color.
    pub fn new(color: Color3) -> (r: Self)
        ensures
            r == (Lambert { albedo: color }),
    {
        Self { albedo: color }
    }

    /// The direction in which a diffuse surface scatters: the normal plus a
    /// random direction, or the normal itself where the two nearly cancel.
    pub open spec fn scatter_direction(normal: Vec3, unit: Vec3) -> Vec3 {
        if normal.spec_add(unit).near_zero_spec() {
            normal
        } else {
            normal.spec_add(unit)
        }
    }
}

impl Material for Lambert {
    open spec fn reflect_spec(&self, ray: Ray, hit: HitRecord, sample: ScatterSample) -> Option<
        (Color3, Ray),
    > {
        Some(
            (self.albedo, Ray::new(hit.point, Lambert::scatter_direction(hit.normal, sample.unit))),
        )
    }

    fn reflect_with(&self, _ray: &Ray, hit: &HitRecord, sample: &ScatterSample) -> (r: Option<
        (Color3, Ray),
    >)
        ensures
            r == self.reflect_spec(*_ray, *hit, *sample),
            match r {
                Some((attenuation, _)) => attenuation == self.albedo,
                None => false,
            },
    {
        let mut scattered_dir = hit.normal + sample.unit;
        if scattered_dir.near_zero() {
            scattered_dir = hit.normal;
        }
        let scattered_ray = Ray::new(hit.point, scattered_dir);
        Some((self.albedo, scattered_ray))
    }

    fn draw(&self, _ray: &Ray, _hit: &HitRecord) -> (sample: ScatterSample)
        ensures
            sample.valid(),
    {
        ScatterSample { unit: random_in_unit_sphere_normalized(), coin: Fixed::zero() }
    }

    fn reflect(&self, ray: &Ray, hit: &HitRecord) -> (r: Option<(Color3, Ray)>)
        ensures
            exists|sample: ScatterSample|
                sample.valid() && r == #[trigger] self.reflect_spec(*ray, *hit, sample),
            match r {
                Some((attenuation, _)) => attenuation == self.albedo,
                None => false,
            },
    {
        let sample = self.draw(ray, hit);
        self.reflect_with(ray, hit, &sample)
    }
}

impl Dielectric {
    /// A transparent surface with the given refractive index.
    pub fn new(refraction_index: Fixed) -> (r: Self)
        ensures
            r == (Dielectric { refraction_index }),
    {
        Self { refraction_index }
    }

    /// The ratio of the refractive indices on the two sides of the surface,
    /// in the direction of travel.
    pub open spec fn refraction_ratio(self, front_face: bool) -> Fixed {
        if front_face {
            Fixed::one().spec_div(self.refraction_index)
        } else {
            self.refraction_index
        }
    }

    /// Whether Snell's law has no solution, so that the ray must reflect:
    /// the refraction ratio times the sine of the incoming angle exceeds one.
    pub open spec fn cannot_refract(self, unit_dir: Vec3, hit: HitRecord) -> bool {
        let cos_theta = cos_theta_spec(unit_dir, hit.normal);
        let sin_theta = Fixed::one().spec_sub(cos_theta.spec_mul(cos_theta)).sqrt_spec();
        self.refraction_ratio(hit.front_face).spec_mul(sin_theta)@ > SCALE
    }

    /// Whether the ray is reflected: always where it cannot refract, else
    /// where the reflectance exceeds the coin.
    pub open spec fn reflects(self, unit_dir: Vec3, hit: HitRecord, coin: Fixed) -> bool {
        self.cannot_refract(unit_dir, hit) || reflectance_spec(
            cos_theta_spec(unit_dir, hit.normal),
            self.refraction_index,
        )@ > coin@
    }

    /// The direction in which the ray goes on.
    pub open spec fn outgoing(self, ray: Ray, hit: HitRecord, coin: Fixed) -> Vec3 {
        let unit_dir = ray.dir.normalize_spec();
        if self.reflects(unit_dir, hit, coin) {
            reflect_spec(unit_dir, hit.normal)
        } else {
            refract_spec(unit_dir, hit.normal, self.refraction_ratio(hit.front_face))
        }
    }

    /// Tells whether the ray cannot refract at `hit`.
    fn total_reflection(&self, unit_dir: &Vec3, hit: &HitRecord) -> (r: bool)
        ensures
            r == self.cannot_refract(*unit_dir, *hit),
    {
        let reflection_index = if hit.front_face {
            Fixed::one() / self.refraction_index
        } else {
            self.refraction_index
        };
        let cos_theta = Vec3::dot(&unit_dir.neg(), &hit.normal).min(Fixed::one());
        let sin_theta = (Fixed::one() - cos_theta * cos_theta).sqrt();
        (reflection_index * sin_theta) > Fixed::one()
    }
}

impl Material for Dielectric {
    open spec fn reflect_spec(&self, ray: Ray, hit: HitRecord, sample: ScatterSample) -> Option<
        (Color3, Ray),
    > {
        Some((Color3::white(), Ray::new(hit.point, self.outgoing(ray, hit, sample.coin))))
    }

    fn reflect_with(&self, ray: &Ray, hit: &HitRecord, sample: &ScatterSample) -> (r: Option<
        (Color3, Ray),
    >)
        ensures
            r == self.reflect_spec(*ray, *hit, *sample),
            match r {
                Some((attenuation, _)) => attenuation == Color3::white(),
                None => false,
            },
    {
        let color = Color3::white();
        let reflection_index = if hit.front_face {
            Fixed::one() / self.refraction_index
        } else {
            self.refraction_index
        };
        let unit_dir = ray.dir.normalize();
        let cos_theta = Vec3::dot(&unit_dir.neg(), &hit.normal).min(Fixed::one());
        let cannot_refract = self.total_reflection(&unit_dir, hit);
        let perfect_reflection = if !cannot_refract {
            reflectance(cos_theta, self.refraction_index) > sample.coin
        } else {
            false
        };
        let refracted_vec = if cannot_refract || perfect_reflection {
            reflect_vector(&unit_dir, &hit.normal)
        } else {
            refract_vector(&unit_dir, &hit.normal, reflection_index)
        };
        Some((color, Ray::new(hit.point, refracted_vec)))
    }

    fn draw(&self, ray: &Ray, hit: &HitRecord) -> (sample: ScatterSample)
        ensures
            sample.valid(),
    {
        let unit_dir = ray.dir.normalize();
        // only draw the coin where it decides anything
        let coin = if self.total_reflection(&unit_dir, hit) {
            Fixed::zero()
        } else {
            random_fixed(Fixed::zero(), Fixed::one())
        };
        ScatterSample { unit: ScatterSample::unused().unit, coin }
    }

    fn reflect(&self, ray: &Ray, hit: &HitRecord) -> (r: Option<(Color3, Ray)>)
        ensures
            exists|sample: ScatterSample|
                sample.valid() && r == #[trigger] self.reflect_spec(*ray, *hit, sample),
            match r {
                Some((attenuation, _)) => attenuation == Color3::white(),
                None => false,
            },
    {
        let sample = self.draw(ray, hit);
        self.reflect_with(ray, hit, &sample)
    }
}

impl Metallic {
    /// A perfect white mirror.
    pub fn default() -> (r: Self)
        ensures
            r == (Metallic { albedo: Color3::white(), fuzz: Fixed::zero() }),
    {
        Metallic { albedo: Color3::white(), fuzz: Fixed::zero() }
    }

    /// A metallic surface of the given color and roughness.
    pub fn new(color: Color3, fuzz: Fixed) -> (r: Self)
        ensures
            r == (Metallic { albedo: color, fuzz }),
    {
        Self { albedo: color, fuzz }
    }

    /// Whether the scattered direction points away from the surface. With
    /// fuzz it does where its scalar product with the normal is positive.
    /// Without fuzz the mirrored direction leaves the surface exactly where
    /// the incoming one meets it from outside, and the sign is taken there:
    /// normalizing can round a flat mirrored direction onto the surface.
    pub open spec fn leaves_surface(self, dir: Vec3, normal: Vec3, unit: Vec3) -> bool {
        if self.fuzz@ == 0 {
            Vec3::dot_spec(dir, normal)@ < 0
        } else {
            Vec3::dot_spec(self.fuzzed_direction(dir, normal, unit), normal)@ > 0
        }
    }

    /// The mirrored direction, normalized and then perturbed by `fuzz` times
    /// a random direction.
    pub open spec fn fuzzed_direction(self, dir: Vec3, normal: Vec3, unit: Vec3) -> Vec3 {
        reflect_spec(dir, normal).normalize_spec().spec_add(unit.spec_scale(self.fuzz))
    }
}

impl Material for Metallic {
    open spec fn reflect_spec(&self, ray: Ray, hit: HitRecord, sample: ScatterSample) -> Option<
        (Color3, Ray),
    > {
        let fuzzed = self.fuzzed_direction(ray.dir, hit.normal, sample.unit);
        if self.leaves_surface(ray.dir, hit.normal, sample.unit) {
            Some((self.albedo, Ray::new(hit.point, fuzzed)))
        } else {
            None
        }
    }

    fn reflect_with(&self, ray: &Ray, hit: &HitRecord, sample: &ScatterSample) -> (r: Option<
        (Color3, Ray),
    >)
        ensures
            r == self.reflect_spec(*ray, *hit, *sample),
            match r {
                Some((attenuation, _)) => attenuation == self.albedo,
                None => true,
            },
            self.fuzz@ == 0 && Vec3::dot_spec(ray.dir, hit.normal)@ < 0 ==> r is Some,
    {
        let reflected = reflect_vector(&ray.dir, &hit.normal);
        let reflected_fuzzed = reflected.normalize() + self.fuzz * sample.unit;

        let has_same_direction = if self.fuzz.raw() == 0 {
            Vec3::dot(&ray.dir, &hit.normal) < Fixed::zero()
        } else {
            Vec3::dot(&reflected_fuzzed, &hit.normal) > Fixed::zero()
        };
        if !has_same_direction {
            return None;
        }
        let reflected_ray = Ray::new(hit.point, reflected_fuzzed);

        Some((self.albedo, reflected_ray))
    }

    fn draw(&self, _ray: &Ray, _hit: &HitRecord) -> (sample: ScatterSample)
        ensures
            sample.valid(),
    {
        ScatterSample { unit: random_in_unit_sphere_normalized(), coin: Fixed::zero() }
    }

    fn reflect(&self, ray: &Ray, hit: &HitRecord) -> (r: Option<(Color3, Ray)>)
        ensures
            exists|sample: ScatterSample|
                sample.valid() && r == #[trigger] self.reflect_spec(*ray, *hit, sample),
            match r {
                Some((attenuation, _)) => attenuation == self.albedo,
                None => true,
            },
            self.fuzz@ == 0 && Vec3::dot_spec(ray.dir, hit.normal)@ < 0 ==> r is Some,
    {
        let sample = self.draw(ray, hit);
        self.reflect_with(ray, hit, &sample)
    }
}

impl NormalMaterial {
    /// The color that shows a normal: each component moved from `[-1, 1]`
    /// to `[0, 1]`.
    pub open spec fn normal_color(normal: Vec3) -> Color3 {
        normal.spec_add(Vec3::one()).spec_scale(Fixed::spec_from_ratio(1, 2))
    }
}

impl Material for NormalMaterial {
    open spec fn reflect_spec(&self, ray: Ray, hit: HitRecord, sample: ScatterSample) -> Option<
        (Color3, Ray),
    > {
        Some((NormalMaterial::normal_color(hit.normal), Ray::new(hit.point, Vec3::zero())))
    }

    fn reflect_with(&self, _ray: &Ray, hit: &HitRecord, _sample: &ScatterSample) -> (r: Option<
        (Color3, Ray),
    >)
        ensures
            r == self.reflect_spec(*_ray, *hit, *_sample),
    {
        let color = (hit.normal + Vec3::one()) * Fixed::from_ratio(1, 2);
        Some((color, Ray::new(hit.point, Vec3::zero())))
    }

    fn draw(&self, _ray: &Ray, _hit: &HitRecord) -> (sample: ScatterSample)
        ensures
            sample.valid(),
    {
        ScatterSample::unused()
    }

    fn reflect(&self, ray: &Ray, hit: &HitRecord) -> (r: Option<(Color3, Ray)>)
        ensures
            exists|sample: ScatterSample|
                sample.valid() && r == #[trigger] self.reflect_spec(*ray, *hit, sample),
    {
        let sample = self.draw(ray, hit);
        self.reflect_with(ray, hit, &sample)
    }
}

impl MaterialKind {
    /// The albedo of a diffuse or metallic material; the other materials
    /// have none.
    pub open spec fn albedo(self) -> Option<Color3> {
        match self {
            MaterialKind::Lambert(m) => Some(m.albedo),
            MaterialKind::Metallic(m) => Some(m.albedo),
            _ => None,
        }
    }

    /// Scattering creates no energy: where a diffuse or metallic surface
    /// scatters a ray, the attenuation is the surface's albedo, so that no
    /// channel of it exceeds the albedo's.
    pub proof fn lemma_no_amplification(self, ray: Ray, hit: HitRecord, sample: ScatterSample)
        ensures
            match (self.albedo(), self.reflect_spec(ray, hit, sample)) {
                (Some(albedo), Some((attenuation, _))) => {
                    &&& attenuation == albedo
                    &&& attenuation.x@ <= albedo.x@
                    &&& attenuation.y@ <= albedo.y@
                    &&& attenuation.z@ <= albedo.z@
                },
                _ => true,
            },
    {
    }
}

impl MaterialKind {
    /// Whether the material hands on no more light than reaches it: a
    /// diffuse or metallic one whose albedo is no brighter than white, or
    /// glass. A material that shows the normal is not among them, since the
    /// color that it shows follows the normal beyond white.
    pub open spec fn conserves(self) -> bool {
        match self {
            MaterialKind::Lambert(m) => m.albedo.within_white(),
            MaterialKind::Metallic(m) => m.albedo.within_white(),
            MaterialKind::Dielectric(_) => true,
            MaterialKind::Normal(_) => false,
        }
    }

    /// Where a material that conserves light scatters a ray, the
    /// attenuation is no brighter than white, and the scattered ray is a new
    /// ray with a direction in the representable range.
    pub proof fn lemma_scatter_conserves(self, ray: Ray, hit: HitRecord, sample: ScatterSample)
        requires
            self.conserves(),
            hit.normal.in_range(),
        ensures
            match self.reflect_spec(ray, hit, sample) {
                Some((attenuation, scattered)) => {
                    &&& attenuation.within_white()
                    &&& scattered.dir.in_range()
                    &&& scattered.ray_color == Ray::default_sky()
                },
                None => true,
            },
    {
        broadcast use Fixed::lemma_of_view;

    }
}

impl Material for MaterialKind {
    open spec fn reflect_spec(&self, ray: Ray, hit: HitRecord, sample: ScatterSample) -> Option<
        (Color3, Ray),
    > {
        match *self {
            MaterialKind::Lambert(m) => m.reflect_spec(ray, hit, sample),
            MaterialKind::Metallic(m) => m.reflect_spec(ray, hit, sample),
            MaterialKind::Dielectric(m) => m.reflect_spec(ray, hit, sample),
            MaterialKind::Normal(m) => m.reflect_spec(ray, hit, sample),
        }
    }

    fn reflect_with(&self, ray: &Ray, hit: &HitRecord, sample: &ScatterSample) -> (r: Option<
        (Color3, Ray),
    >)
        ensures
            r == self.reflect_spec(*ray, *hit, *sample),
    {
        match self {
            MaterialKind::Lambert(m) => m.reflect_with(ray, hit, sample),
            MaterialKind::Metallic(m) => m.reflect_with(ray, hit, sample),
            MaterialKind::Dielectric(m) => m.reflect_with(ray, hit, sample),
            MaterialKind::Normal(m) => m.reflect_with(ray, hit, sample),
        }
    }

    fn draw(&self, ray: &Ray, hit: &HitRecord) -> (sample: ScatterSample)
        ensures
            sample.valid(),
    {
        match self {
            MaterialKind::Lambert(m) => m.draw(ray, hit),
            MaterialKind::Metallic(m) => m.draw(ray, hit),
            MaterialKind::Dielectric(m) => m.draw(ray, hit),
            MaterialKind::Normal(m) => m.draw(ray, hit),
        }
    }

    fn reflect(&self, ray: &Ray, hit: &HitRecord) -> (r: Option<(Color3, Ray)>)
        ensures
            exists|sample: ScatterSample|
                sample.valid() && r == #[trigger] self.reflect_spec(*ray, *hit, sample),
    {
        let sample = self.draw(ray, hit);
        self.reflect_with(ray, hit, &sample)
    }
}

} // verus!
