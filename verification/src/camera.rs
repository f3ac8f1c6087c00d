//! The camera: how pixels map to rays, and how rays become pixel colors.

use crate::fixed::{Fixed, SCALE};
use crate::ray::Ray;
use crate::utils::helpers::{
    color_to_rgb, color_to_rgb_spec, fallback_sample, is_disk_sample, random_fixed, random_in_unit_disk, Rgb,
};
use crate::vec3::{Color3, Pos3, Vec3};
use crate::world::World;
use core::ops::Neg;
use vstd::prelude::*;

verus! {

/// How the color of a pixel is sampled.
#[derive(Copy, Clone, Debug, PartialEq, Eq, Structural)]
pub enum AntiAliasingMethod {
    /// No antialiasing: one ray through the center of the pixel.
    Off,
    /// A regular grid of rays; every pixel comes out black.
    UniformSuperSampling(u16),
    /// The mean over the given number of rays through random points of the
    /// pixel.
    RandomSuperSampling(u16),
}

/// What a camera is made from.
#[derive(Copy, Clone, Debug, PartialEq, Eq, Structural)]
pub struct CameraSetup {
    pub image_width: i32,
    pub aspect_ratio: Fixed,
    /// The tangent of half the vertical field of view.
    pub vfov_half_tan: Fixed,
    pub position: Vec3,
    pub look_at: Vec3,
    pub anti_aliasing: AntiAliasingMethod,
    pub max_ray_bounces: u16,
    pub focus_distance: Fixed,
    /// The tangent of half the angle of the cone of rays through a point of
    /// the focus plane; zero or less for a pinhole camera.
    pub defocus_half_tan: Fixed,
}

/// Why a camera could not be made.
#[derive(Copy, Clone, Debug, PartialEq, Eq, Structural)]
pub enum CameraError {
    /// The image width is zero or negative.
    ImageWidth,
    /// The aspect ratio is zero or negative.
    AspectRatio,
    /// Supersampling was asked for with no sample.
    SampleCount,
    /// The aspect ratio is so small that the image has more rows than can be
    /// counted.
    ImageHeight,
}

/// A camera, with everything that rendering derives from its setup.
#[derive(Copy, Clone, Debug, PartialEq, Eq, Structural)]
pub struct Camera {
    pub position: Vec3,
    pub look_at: Pos3,
    pub aspect_ratio: Fixed,
    pub render_image_width: i32,
    pub anti_aliasing: AntiAliasingMethod,
    pub max_ray_bounces: u16,
    pub defocus_half_tan: Fixed,
    pub defocus_disk_u: Vec3,
    pub defocus_disk_v: Vec3,
    pub render_image_heigh: i32,
    pub pixel_delta_u: Vec3,
    pub pixel_delta_v: Vec3,
    pub pixel_00_loc: Vec3,
}

/// The random draws that one ray through a pixel consumes.
#[derive(Copy, Clone, Debug, PartialEq, Eq, Structural)]
pub struct PixelJitter {
    /// The offset from the pixel's center along the image's width, in pixels.
    pub offset_x: Fixed,
    /// The offset from the pixel's center along the image's height, in pixels.
    pub offset_y: Fixed,
    /// A point of the unit disk, which picks the ray's origin on the lens.
    pub lens: Vec3,
}

impl PixelJitter {
    /// What a drawn jitter can be: offsets in `[-1/2, 1/2)` and a point of
    /// the unit disk.
    pub open spec fn valid(self) -> bool {
        &&& -SCALE / 2 <= self.offset_x@ < SCALE / 2
        &&& -SCALE / 2 <= self.offset_y@ < SCALE / 2
        &&& is_disk_sample(self.lens)
    }
}

impl AntiAliasingMethod {
    /// Whether supersampling is asked for with no sample.
    pub open spec fn lacks_samples(self) -> bool {
        match self {
            AntiAliasingMethod::Off => false,
            AntiAliasingMethod::UniformSuperSampling(n) => n == 0,
            AntiAliasingMethod::RandomSuperSampling(n) => n == 0,
        }
    }
}

impl CameraError {
    /// A sentence that says what was wrong with the setup.
    pub fn message(&self) -> (r: &'static str)
        ensures
            r@ == match *self {
                CameraError::ImageWidth => "the image width must be positive"@,
                CameraError::AspectRatio => "the aspect ratio must be positive"@,
                CameraError::SampleCount => "supersampling needs at least one sample"@,
                CameraError::ImageHeight => "the image has too many rows"@,
            },
    {
        match self {
            CameraError::ImageWidth => "the image width must be positive",
            CameraError::AspectRatio => "the aspect ratio must be positive",
            CameraError::SampleCount => "supersampling needs at least one sample",
            CameraError::ImageHeight => "the image has too many rows",
        }
    }
}

impl CameraSetup {
    /// What is wrong with the setup, if anything: the first of a width that
    /// is not positive, an aspect ratio that is not positive, supersampling
    /// without a sample, and a height that does not fit in 32 bits.
    pub open spec fn defect(self) -> Option<CameraError> {
        if self.image_width <= 0 {
            Some(CameraError::ImageWidth)
        } else if self.aspect_ratio@ <= 0 {
            Some(CameraError::AspectRatio)
        } else if self.anti_aliasing.lacks_samples() {
            Some(CameraError::SampleCount)
        } else if self.image_height() > i32::MAX {
            Some(CameraError::ImageHeight)
        } else {
            None
        }
    }

    /// The height of the image in pixels: the width over the aspect ratio,
    /// rounded to the nearest whole number.
    pub open spec fn image_height(self) -> int {
        crate::fixed::round_raw(Fixed::spec_from_int(self.image_width as int).spec_div(self.aspect_ratio)@)
    }

    /// The height of the viewport: twice the tangent of half the field of
    /// view, times the focus distance.
    pub open spec fn viewport_height(self) -> Fixed {
        Fixed::spec_from_int(2).spec_mul(self.vfov_half_tan).spec_mul(self.focus_distance)
    }

    /// The width of the viewport: its height times the aspect ratio.
    pub open spec fn viewport_width(self) -> Fixed {
        self.viewport_height().spec_mul(self.aspect_ratio)
    }

    /// The unit vector from the point looked at to the camera.
    pub open spec fn basis_w(self) -> Vec3 {
        self.position.spec_sub(self.look_at).normalize_spec()
    }

    /// The unit vector to the camera's right.
    pub open spec fn basis_u(self) -> Vec3 {
        Vec3::cross_spec(CameraSetup::up(), self.basis_w()).normalize_spec()
    }

    /// The unit vector that points up in the camera's view.
    pub open spec fn basis_v(self) -> Vec3 {
        Vec3::cross_spec(self.basis_w(), self.basis_u())
    }

    /// The direction that is up in the world.
    pub open spec fn up() -> Vec3 {
        Vec3 { x: Fixed::zero(), y: Fixed::one(), z: Fixed::zero() }
    }

    /// The vector along the viewport's upper edge, left to right.
    pub open spec fn viewport_u(self) -> Vec3 {
        self.basis_u().spec_scale(self.viewport_width())
    }

    /// The vector along the viewport's left edge, top to bottom.
    pub open spec fn viewport_v(self) -> Vec3 {
        self.basis_v().spec_neg().spec_scale(self.viewport_height())
    }

    /// The step from one pixel to the next in its row.
    pub open spec fn pixel_delta_u(self) -> Vec3 {
        self.viewport_u().spec_div_by(Fixed::spec_from_int(self.image_width as int))
    }

    /// The step from one pixel to the one below it.
    pub open spec fn pixel_delta_v(self) -> Vec3 {
        self.viewport_v().spec_div_by(Fixed::spec_from_int(self.image_height()))
    }

    /// The upper left corner of the viewport: from the camera, the focus
    /// distance ahead, then half the viewport to the left and up.
    pub open spec fn viewport_upper_left(self) -> Vec3 {
        let two = Fixed::spec_from_int(2);
        self.position.spec_sub(self.basis_w().spec_scale(self.focus_distance)).spec_sub(
            self.viewport_u().spec_div_by(two),
        ).spec_sub(self.viewport_v().spec_div_by(two))
    }

    /// The center of the pixel in the upper left corner.
    pub open spec fn pixel_00_loc(self) -> Vec3 {
        self.viewport_upper_left().spec_add(
            self.pixel_delta_u().spec_add(self.pixel_delta_v()).spec_scale(
                Fixed::spec_from_ratio(1, 2),
            ),
        )
    }

    /// The radius of the lens: the focus distance times the tangent of half
    /// the defocus angle.
    pub open spec fn defocus_radius(self) -> Fixed {
        self.focus_distance.spec_mul(self.defocus_half_tan)
    }

    /// Whether `count` steps of `step` span `edge`: in each component they
    /// fall short of it by less than `count` raw units, and never overshoot.
    pub open spec fn spans(step: Vec3, count: int, edge: Vec3) -> bool {
        &&& 0 <= crate::fixed::magnitude(edge.x@) - crate::fixed::magnitude(step.x@ * count)
            < count
        &&& 0 <= crate::fixed::magnitude(edge.y@) - crate::fixed::magnitude(step.y@ * count)
            < count
        &&& 0 <= crate::fixed::magnitude(edge.z@) - crate::fixed::magnitude(step.z@ * count)
            < count
    }

    /// The pixel grid spans the viewport: as many steps to the right as the
    /// image has columns make up the viewport's upper edge, and as many steps
    /// down as it has rows make up its left edge, each to within one raw unit
    /// for every step.
    pub proof fn lemma_grid_spans_viewport(self)
        requires
            self.defect() is None,
        ensures
            CameraSetup::spans(self.pixel_delta_u(), self.image_width as int, self.viewport_u()),
            self.image_height() > 0 ==> CameraSetup::spans(
                self.pixel_delta_v(),
                self.image_height(),
                self.viewport_v(),
            ),
    {
        broadcast use Fixed::lemma_of_view;

        let across = self.viewport_u();
        Fixed::lemma_div_by_whole(across.x, self.image_width as int);
        Fixed::lemma_div_by_whole(across.y, self.image_width as int);
        Fixed::lemma_div_by_whole(across.z, self.image_width as int);
        if self.image_height() > 0 {
            let down = self.viewport_v();
            Fixed::lemma_div_by_whole(down.x, self.image_height());
            Fixed::lemma_div_by_whole(down.y, self.image_height());
            Fixed::lemma_div_by_whole(down.z, self.image_height());
        }
    }

    /// The camera's upward direction stands at a right angle to its other
    /// two, up to rounding: the scalar products are at most three steps of
    /// the numbers.
    pub proof fn lemma_basis_is_orthogonal(self)
        requires
            !self.basis_v().is_clamped_spec(),
        ensures
            crate::fixed::magnitude(Vec3::dot_spec(self.basis_w(), self.basis_v())@) <= 3,
            crate::fixed::magnitude(Vec3::dot_spec(self.basis_u(), self.basis_v())@) <= 3,
    {
        broadcast use Fixed::lemma_of_view;

        let w = self.basis_w();
        let u = self.basis_u();
        self.position.spec_sub(self.look_at).lemma_normalize_bounded();
        Vec3::cross_spec(CameraSetup::up(), w).lemma_normalize_bounded();
        Vec3::lemma_cross_is_orthogonal(w, u);
        let to_w = crate::fixed::magnitude(Vec3::dot_spec(w, self.basis_v())@);
        let to_u = crate::fixed::magnitude(Vec3::dot_spec(u, self.basis_v())@);
        assert(to_w <= 3) by (nonlinear_arith)
            requires
                to_w * SCALE <= 3 * SCALE,
                SCALE > 0,
        ;
        assert(to_u <= 3) by (nonlinear_arith)
            requires
                to_u * SCALE <= 3 * SCALE,
                SCALE > 0,
        ;
    }

    /// The camera that this setup describes.
    pub open spec fn derive(self) -> Camera {
        Camera {
            position: self.position,
            look_at: self.look_at,
            aspect_ratio: self.aspect_ratio,
            render_image_width: self.image_width,
            render_image_heigh: self.image_height() as i32,
            pixel_00_loc: self.pixel_00_loc(),
            pixel_delta_u: self.pixel_delta_u(),
            pixel_delta_v: self.pixel_delta_v(),
            anti_aliasing: self.anti_aliasing,
            max_ray_bounces: self.max_ray_bounces,
            defocus_disk_u: self.basis_u().spec_scale(self.defocus_radius()),
            defocus_disk_v: self.basis_v().spec_scale(self.defocus_radius()),
            defocus_half_tan: self.defocus_half_tan,
        }
    }
}

impl Camera {
    /// Makes a camera from its setup, or says what is wrong with the setup.
    /// The pixel grid of the camera spans the viewport, to within one raw
    /// unit for every column and row.
    pub fn new(config: CameraSetup) -> (r: Result<Camera, CameraError>)
        ensures
            r == match config.defect() {
                Some(e) => Err::<Camera, CameraError>(e),
                None => Ok(config.derive()),
            },
            match r {
                Ok(camera) => {
                    &&& camera.render_image_width > 0
                    &&& camera.render_image_heigh >= 0
                    &&& CameraSetup::spans(
                        camera.pixel_delta_u,
                        camera.render_image_width as int,
                        config.viewport_u(),
                    )
                    &&& camera.render_image_heigh > 0 ==> CameraSetup::spans(
                        camera.pixel_delta_v,
                        camera.render_image_heigh as int,
                        config.viewport_v(),
                    )
                },
                Err(_) => true,
            },
    {
        proof {
            if config.defect() is None {
                config.lemma_grid_spans_viewport();
            }
        }
        if config.image_width <= 0 {
            return Err(CameraError::ImageWidth);
        }
        if config.aspect_ratio <= Fixed::zero() {
            return Err(CameraError::AspectRatio);
        }
        let lacks_samples = match config.anti_aliasing {
            AntiAliasingMethod::Off => false,
            AntiAliasingMethod::UniformSuperSampling(n) => n == 0,
            AntiAliasingMethod::RandomSuperSampling(n) => n == 0,
        };
        if lacks_samples {
            return Err(CameraError::SampleCount);
        }
        let image_width = config.image_width;
        let rows: i64 = (Fixed::from_int(image_width) / config.aspect_ratio).round();
        if rows > i32::MAX as i64 {
            return Err(CameraError::ImageHeight);
        }
        proof {
            broadcast use Fixed::lemma_of_view;

            Fixed::lemma_div_nonnegative(
                Fixed::spec_from_int(image_width as int),
                config.aspect_ratio,
            );
        }
        let image_height: i32 = rows as i32;

        let focus_distance = config.focus_distance;
        let two = Fixed::from_int(2);

        let vp_height = two * config.vfov_half_tan * focus_distance;
        let vp_width = vp_height * config.aspect_ratio;

        let up_vector = Vec3::new(Fixed::zero(), Fixed::one(), Fixed::zero());
        let camera_position = config.position;
        let camera_w = (config.position - config.look_at).normalize();
        let camera_u = Vec3::cross(&up_vector, &camera_w).normalize();
        let camera_v = Vec3::cross(&camera_w, &camera_u);

        // the viewport's edges: along the image's width, and down its height
        let vp_u_dir = vp_width * camera_u;
        let vp_v_dir = vp_height * camera_v.neg();

        let pixel_delta_u = vp_u_dir / Fixed::from_int(image_width);
        let pixel_delta_v = vp_v_dir / Fixed::from_int(image_height);
        let viewport_upper_left = camera_position - (focus_distance * camera_w) - vp_u_dir / two
            - vp_v_dir / two;
        let pixel_00_loc = viewport_upper_left + Fixed::from_ratio(1, 2) * (pixel_delta_u
            + pixel_delta_v);

        let defocus_radius = config.focus_distance * config.defocus_half_tan;

        Ok(
            Camera {
                position: camera_position,
                look_at: config.look_at,
                aspect_ratio: config.aspect_ratio,
                render_image_width: config.image_width,
                render_image_heigh: image_height,
                pixel_00_loc,
                pixel_delta_u,
                pixel_delta_v,
                anti_aliasing: config.anti_aliasing,
                max_ray_bounces: config.max_ray_bounces,
                defocus_disk_u: camera_u * defocus_radius,
                defocus_disk_v: camera_v * defocus_radius,
                defocus_half_tan: config.defocus_half_tan,
            },
        )
    }
}

impl Camera {
    /// The center of the pixel in column `x` of row `y`.
    pub open spec fn pixel_center(self, x: int, y: int) -> Pos3 {
        self.pixel_00_loc.spec_add(self.pixel_delta_v.spec_scale(Fixed::spec_from_int(y))).spec_add(
            self.pixel_delta_u.spec_scale(Fixed::spec_from_int(x)),
        )
    }

    /// The ray from the camera through the center of a pixel.
    pub open spec fn center_ray_spec(self, x: int, y: int) -> Ray {
        Ray::new(self.position, self.pixel_center(x, y).spec_sub(self.position))
    }

    /// The point of the lens that a point `p` of the unit disk picks.
    pub open spec fn lens_point(self, p: Vec3) -> Pos3 {
        self.position.spec_add(self.defocus_disk_u.spec_scale(p.x)).spec_add(
            self.defocus_disk_v.spec_scale(p.y),
        )
    }

    /// Whether rays start from the lens rather than from the camera's
    /// position.
    pub open spec fn has_lens(self) -> bool {
        self.defocus_half_tan@ > 0
    }

    /// Where a ray with the given jitter starts: on the lens if there is
    /// one, else at the camera's position.
    pub open spec fn ray_origin(self, jitter: PixelJitter) -> Pos3 {
        if self.has_lens() {
            self.lens_point(jitter.lens)
        } else {
            self.position
        }
    }

    /// The point of the viewport that a ray with the given jitter passes
    /// through.
    pub open spec fn jittered_target(self, x: int, y: int, jitter: PixelJitter) -> Pos3 {
        self.pixel_00_loc.spec_add(
            self.pixel_delta_u.spec_scale(Fixed::spec_from_int(x).spec_add(jitter.offset_x)),
        ).spec_add(self.pixel_delta_v.spec_scale(Fixed::spec_from_int(y).spec_add(jitter.offset_y)))
    }

    /// The ray through pixel `(x, y)` with the given jitter.
    pub open spec fn jittered_ray(self, x: int, y: int, jitter: PixelJitter) -> Ray {
        Ray::new(
            self.ray_origin(jitter),
            self.jittered_target(x, y, jitter).spec_sub(self.ray_origin(jitter)),
        )
    }

    /// Whether `ray` is a ray through pixel `(x, y)` for some random jitter.
    pub open spec fn is_sample_ray(self, x: int, y: int, ray: Ray) -> bool {
        exists|jitter: PixelJitter|
            jitter.valid() && ray == #[trigger] self.jittered_ray(x, y, jitter)
    }

    /// Whether `color` is what some random ray through pixel `(x, y)` can
    /// carry back from the scene.
    pub open spec fn is_sample_color(self, world: &World, x: int, y: int, color: Color3) -> bool {
        exists|ray: Ray|
            self.is_sample_ray(x, y, ray) && #[trigger] ray.is_ray_color(
                world,
                self.max_ray_bounces as nat,
                color,
            )
    }

    /// The sum of the first `n` colors.
    pub open spec fn sum_colors(colors: Seq<Color3>, n: int) -> Color3
        decreases n,
    {
        if n <= 0 {
            Color3::black()
        } else {
            Camera::sum_colors(colors, n - 1).spec_add(colors[n - 1])
        }
    }

    /// The mean of the colors: their sum over their number.
    pub open spec fn mean_color(colors: Seq<Color3>) -> Color3 {
        Camera::sum_colors(colors, colors.len() as int).spec_div_by(
            Fixed::spec_from_int(colors.len() as int),
        )
    }

    /// Whether each of the colors is what some random ray through pixel
    /// `(x, y)` can carry back.
    pub open spec fn are_sample_colors(
        self,
        world: &World,
        x: int,
        y: int,
        colors: Seq<Color3>,
    ) -> bool {
        forall|i: int|
            0 <= i < colors.len() ==> self.is_sample_color(world, x, y, #[trigger] colors[i])
    }

    /// Whether `color` is what pixel `(x, y)` can come out as, before it is
    /// encoded. Without antialiasing it is the color of the ray through the
    /// pixel's center. With random supersampling it is the mean of the colors
    /// of as many random rays as were asked for. With uniform supersampling
    /// it is black.
    pub open spec fn is_pixel_color(self, world: &World, x: int, y: int, color: Color3) -> bool {
        match self.anti_aliasing {
            AntiAliasingMethod::Off => self.center_ray_spec(x, y).is_ray_color(
                world,
                self.max_ray_bounces as nat,
                color,
            ),
            AntiAliasingMethod::RandomSuperSampling(samples) => exists|colors: Seq<Color3>|
                colors.len() == samples && self.are_sample_colors(world, x, y, colors) && color
                    == #[trigger] Camera::mean_color(colors),
            AntiAliasingMethod::UniformSuperSampling(_) => color == Color3::black(),
        }
    }

    /// Whether `pixel` is what pixel `(x, y)` can come out as.
    pub open spec fn is_pixel(self, world: &World, x: int, y: int, pixel: Rgb) -> bool {
        exists|color: Color3| #[trigger]
            self.is_pixel_color(world, x, y, color) && pixel == color_to_rgb_spec(color)
    }

    /// The number of pixels in a row.
    pub open spec fn row_len(self) -> nat {
        if self.render_image_width > 0 {
            self.render_image_width as nat
        } else {
            0
        }
    }

    /// The number of rows.
    pub open spec fn row_count(self) -> nat {
        if self.render_image_heigh > 0 {
            self.render_image_heigh as nat
        } else {
            0
        }
    }

    /// The ray from the camera through the center of pixel `(x, y)`.
    pub fn center_ray(&self, x: i32, y: i32) -> (r: Ray)
        ensures
            r == self.center_ray_spec(x as int, y as int),
    {
        let pixel_pos = self.pixel_00_loc + Fixed::from_int(y) * self.pixel_delta_v
            + Fixed::from_int(x) * self.pixel_delta_u;
        Ray::new(self.position, pixel_pos - self.position)
    }

    /// The ray through pixel `(x, y)` with the given jitter in place of a
    /// random one.
    pub fn ray_through(&self, x: i32, y: i32, jitter: &PixelJitter) -> (r: Ray)
        ensures
            r == self.jittered_ray(x as int, y as int, *jitter),
    {
        let ray_origin = if self.defocus_half_tan <= Fixed::zero() {
            self.position
        } else {
            self.position + (jitter.lens.x * self.defocus_disk_u) + (jitter.lens.y
                * self.defocus_disk_v)
        };
        let pixel_pos = self.pixel_00_loc + (Fixed::from_int(x) + jitter.offset_x)
            * self.pixel_delta_u + (Fixed::from_int(y) + jitter.offset_y) * self.pixel_delta_v;

        Ray::new(ray_origin, pixel_pos - ray_origin)
    }

    /// A ray through a random point of pixel `(x, y)`, from a random point
    /// of the lens if there is one.
    pub fn get_random_ray(&self, x: i32, y: i32) -> (r: Ray)
        ensures
            self.is_sample_ray(x as int, y as int, r),
    {
        broadcast use Fixed::lemma_of_view;

        let half = Fixed::from_raw(SCALE / 2);
        let offset_x = random_fixed(half.neg(), half);
        let offset_y = random_fixed(half.neg(), half);
        let lens = if self.defocus_half_tan <= Fixed::zero() {
            fallback_sample()
        } else {
            random_in_unit_disk()
        };
        let jitter = PixelJitter { offset_x, offset_y, lens };
        self.ray_through(x, y, &jitter)
    }

    /// A random point of the lens.
    pub fn defocus_disk_sample(&self) -> (r: Pos3)
        ensures
            exists|p: Vec3| is_disk_sample(p) && r == #[trigger] self.lens_point(p),
    {
        let p = random_in_unit_disk();
        let point = self.position + (p.x * self.defocus_disk_u) + (p.y * self.defocus_disk_v);
        assert(point == self.lens_point(p));
        point
    }

    /// The color of pixel `(x, y)`, before it is encoded.
    pub fn pixel_color(&self, world: &World, x: i32, y: i32) -> (r: Color3)
        ensures
            self.is_pixel_color(world, x as int, y as int, r),
            world.conserves() ==> r.within_white(),
    {
        let color = self.sample_pixel(world, x, y);
        proof {
            if world.conserves() {
                self.lemma_pixel_within_white(world, x as int, y as int, color);
            }
        }
        color
    }

    /// Samples pixel `(x, y)` as the camera's antialiasing asks.
    fn sample_pixel(&self, world: &World, x: i32, y: i32) -> (r: Color3)
        ensures
            self.is_pixel_color(world, x as int, y as int, r),
    {
        match self.anti_aliasing {
            AntiAliasingMethod::Off => {
                let ray = self.center_ray(x, y);
                ray.ray_color(world, self.max_ray_bounces)
            },
            AntiAliasingMethod::RandomSuperSampling(samples) => {
                let mut color_sum = Color3::black();
                let ghost mut colors: Seq<Color3> = Seq::empty();
                let mut i: u16 = 0;
                while i < samples
                    invariant
                        i <= samples,
                        colors.len() == i,
                        self.are_sample_colors(world, x as int, y as int, colors),
                        color_sum == Camera::sum_colors(colors, i as int),
                    decreases samples - i,
                {
                    let ray = self.get_random_ray(x, y);
                    let ray_color = ray.ray_color(world, self.max_ray_bounces);
                    proof {
                        let before = colors;
                        colors = colors.push(ray_color);
                        assert(self.is_sample_color(world, x as int, y as int, ray_color));
                        assert forall|k: int| 0 <= k < colors.len() implies self.is_sample_color(
                            world,
                            x as int,
                            y as int,
                            #[trigger] colors[k],
                        ) by {
                            if k < before.len() {
                                assert(colors[k] == before[k]);
                            }
                        }
                        Camera::lemma_sum_prefix(before, colors, i as int);
                    }
                    color_sum = color_sum + ray_color;
                    i = i + 1;
                }
                let mean = color_sum / Fixed::from_int(samples as i32);
                assert(mean == Camera::mean_color(colors));
                mean
            },
            AntiAliasingMethod::UniformSuperSampling(_samples) => Color3::black(),
        }
    }

    /// The sum of colors that are no brighter than white is no brighter
    /// than as many whites.
    pub proof fn lemma_sum_bounded(colors: Seq<Color3>, n: int)
        requires
            0 <= n <= colors.len(),
            n <= u16::MAX,
            forall|i: int| 0 <= i < colors.len() ==> (#[trigger] colors[i]).within_white(),
        ensures
            0 <= Camera::sum_colors(colors, n).x@ <= n * SCALE,
            0 <= Camera::sum_colors(colors, n).y@ <= n * SCALE,
            0 <= Camera::sum_colors(colors, n).z@ <= n * SCALE,
        decreases n,
    {
        broadcast use Fixed::lemma_of_view;

        if n > 0 {
            Camera::lemma_sum_bounded(colors, n - 1);
            assert(colors[n - 1].within_white());
        }
    }

    /// The mean of colors that are no brighter than white is no brighter
    /// than white.
    pub proof fn lemma_mean_within_white(colors: Seq<Color3>)
        requires
            colors.len() <= u16::MAX,
            forall|i: int| 0 <= i < colors.len() ==> (#[trigger] colors[i]).within_white(),
        ensures
            Camera::mean_color(colors).within_white(),
    {
        broadcast use Fixed::lemma_of_view;

        let n = colors.len() as int;
        Camera::lemma_sum_bounded(colors, n);
        let sum = Camera::sum_colors(colors, n);
        let count = Fixed::spec_from_int(n);
        assert(count@ == n * SCALE);
        Fixed::lemma_div_by_larger(sum.x, count);
        Fixed::lemma_div_by_larger(sum.y, count);
        Fixed::lemma_div_by_larger(sum.z, count);
        Fixed::lemma_div_nonnegative(sum.x, count);
        Fixed::lemma_div_nonnegative(sum.y, count);
        Fixed::lemma_div_nonnegative(sum.z, count);
    }

    /// Without antialiasing and with one bounce, a pixel is black exactly
    /// where the ray through its center meets a shape, and else shows the
    /// encoded background of that ray, whatever is drawn.
    pub proof fn lemma_single_bounce_pixel(self, world: &World, x: int, y: int, pixel: Rgb)
        requires
            self.anti_aliasing == AntiAliasingMethod::Off,
            self.max_ray_bounces == 1,
            self.is_pixel(world, x, y, pixel),
        ensures
            pixel == (if world.hit_objects_spec(
                self.center_ray_spec(x, y),
                Ray::search_interval(),
            ) is Some {
                Rgb { r: 0, g: 0, b: 0 }
            } else {
                color_to_rgb_spec(self.center_ray_spec(x, y).background())
            }),
    {
        broadcast use Fixed::lemma_of_view;

        let color = choose|color: Color3| #[trigger]
            self.is_pixel_color(world, x, y, color) && pixel == color_to_rgb_spec(color);
        let ray = self.center_ray_spec(x, y);
        let samples = choose|samples: Seq<crate::material::ScatterSample>|
            samples.len() == self.max_ray_bounces && crate::ray::all_valid(samples) && color
                == #[trigger] ray.ray_color_spec(world, samples);
        ray.lemma_single_bounce(world, samples);
        crate::utils::helpers::lemma_black_encodes_to_zero();
    }

    /// In a scene that conserves light no pixel is brighter than white,
    /// whatever is drawn.
    pub proof fn lemma_pixel_within_white(self, world: &World, x: int, y: int, color: Color3)
        requires
            world.conserves(),
            self.is_pixel_color(world, x, y, color),
        ensures
            color.within_white(),
    {
        broadcast use Fixed::lemma_of_view;

        Ray::lemma_plain_colors();
        match self.anti_aliasing {
            AntiAliasingMethod::Off => {
                let ray = self.center_ray_spec(x, y);
                let samples = choose|samples: Seq<crate::material::ScatterSample>|
                    samples.len() == self.max_ray_bounces && crate::ray::all_valid(samples)
                        && color == #[trigger] ray.ray_color_spec(world, samples);
                ray.lemma_ray_color_within_white(world, samples);
            },
            AntiAliasingMethod::RandomSuperSampling(count) => {
                let colors = choose|colors: Seq<Color3>|
                    colors.len() == count && self.are_sample_colors(world, x, y, colors) && color
                        == #[trigger] Camera::mean_color(colors);
                assert forall|i: int| 0 <= i < colors.len() implies (
                #[trigger] colors[i]).within_white() by {
                    self.lemma_sample_within_white(world, x, y, colors[i]);
                }
                Camera::lemma_mean_within_white(colors);
            },
            AntiAliasingMethod::UniformSuperSampling(_) => {},
        }
    }

    /// In a scene that conserves light no random ray through a pixel is
    /// brighter than white.
    pub proof fn lemma_sample_within_white(self, world: &World, x: int, y: int, color: Color3)
        requires
            world.conserves(),
            self.is_sample_color(world, x, y, color),
        ensures
            color.within_white(),
    {
        broadcast use Fixed::lemma_of_view;

        Ray::lemma_plain_colors();
        let ray = choose|ray: Ray|
            self.is_sample_ray(x, y, ray) && #[trigger] ray.is_ray_color(
                world,
                self.max_ray_bounces as nat,
                color,
            );
        let jitter = choose|jitter: PixelJitter|
            jitter.valid() && ray == #[trigger] self.jittered_ray(x, y, jitter);
        let samples = choose|samples: Seq<crate::material::ScatterSample>|
            samples.len() == self.max_ray_bounces && crate::ray::all_valid(samples) && color
                == #[trigger] ray.ray_color_spec(world, samples);
        ray.lemma_ray_color_within_white(world, samples);
    }

    /// The sum of a prefix does not depend on what follows it.
    pub proof fn lemma_sum_prefix(a: Seq<Color3>, b: Seq<Color3>, n: int)
        requires
            0 <= n <= a.len(),
            n <= b.len(),
            forall|i: int| 0 <= i < n ==> a[i] == b[i],
        ensures
            Camera::sum_colors(a, n) == Camera::sum_colors(b, n),
        decreases n,
    {
        if n > 0 {
            Camera::lemma_sum_prefix(a, b, n - 1);
        }
    }

    /// Renders row `y` of the image, left to right.
    pub fn render_row(&self, world: &World, y: i32) -> (row: Vec<Rgb>)
        ensures
            row@.len() == self.row_len(),
            forall|x: int|
                0 <= x < row@.len() ==> self.is_pixel(world, x, y as int, #[trigger] row@[x]),
    {
        let mut row: Vec<Rgb> = Vec::new();
        let mut x: i32 = 0;
        while x < self.render_image_width
            invariant
                0 <= x,
                x <= self.render_image_width || x == 0,
                row@.len() == x,
                forall|k: int|
                    0 <= k < row@.len() ==> self.is_pixel(world, k, y as int, #[trigger] row@[k]),
            decreases self.render_image_width - x,
        {
            let pixel_color = self.pixel_color(world, x, y);
            row.push(color_to_rgb(&pixel_color));
            x = x + 1;
        }
        row
    }

    /// Renders the image: its rows from top to bottom, each from left to
    /// right.
    pub fn render(&self, world: &World) -> (image: Vec<Rgb>)
        ensures
            image@.len() == self.row_len() * self.row_count(),
            forall|i: int|
                0 <= i < image@.len() ==> self.is_pixel(
                    world,
                    i % self.row_len() as int,
                    i / self.row_len() as int,
                    #[trigger] image@[i],
                ),
    {
        let mut image: Vec<Rgb> = Vec::new();
        let mut y: i32 = 0;
        while y < self.render_image_heigh
            invariant
                0 <= y,
                y <= self.render_image_heigh || y == 0,
                image@.len() == self.row_len() * y,
                forall|i: int|
                    0 <= i < image@.len() ==> self.is_pixel(
                        world,
                        i % self.row_len() as int,
                        i / self.row_len() as int,
                        #[trigger] image@[i],
                    ),
            decreases self.render_image_heigh - y,
        {
            let mut row = self.render_row(world, y);
            proof {
                let width = self.row_len() as int;
                let before = image@;
                assert(width * (y + 1) == width * y + width) by (nonlinear_arith);
                assert forall|i: int| 0 <= i < before.len() + row@.len() implies self.is_pixel(
                    world,
                    i % width,
                    i / width,
                    #[trigger] (before + row@)[i],
                ) by {
                    if i >= before.len() {
                        let x = i - width * y;
                        assert(i == y * width + x) by (nonlinear_arith)
                            requires
                                x == i - width * y,
                        ;
                        vstd::arithmetic::div_mod::lemma_fundamental_div_mod_converse(
                            i,
                            width,
                            y as int,
                            x,
                        );
                        assert((before + row@)[i] == row@[x]);
                    } else {
                        assert((before + row@)[i] == before[i]);
                    }
                }
            }
            image.append(&mut row);
            y = y + 1;
        }
        image
    }
}

} // verus!
