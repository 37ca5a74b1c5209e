//! The camera: from image-plane coordinates to rays, with a thin lens.

use vstd::prelude::*;
use vstd::std_specs::ops::{AddSpec, DivSpec, MulSpec, SubSpec};
use crate::fixed::{trunc_div, Fixed, SCALE};
use crate::ray::Ray;
use crate::rounding::max_magnitude;
use crate::vec3::{in_unit_disk, random_in_unit_disk, Point3, Vec3};

verus! {

/// A camera: the frame `u`, `v`, `w` at `origin`, the viewport on the focal
/// plane and the radius of the lens.
#[derive(Clone, Copy, Debug, PartialEq, Eq)]
pub struct Camera {
    pub origin: Point3,
    pub lower_left_corner: Point3,
    pub horizontal: Vec3,
    pub vertical: Vec3,
    pub u: Vec3,
    pub v: Vec3,
    pub w: Vec3,
    pub lens_radius: Fixed,
}

impl Camera {
    /// The unit vector from the point looked at back to the eye.
    pub open spec fn spec_w(lookfrom: Point3, lookat: Point3) -> Vec3 {
        lookfrom.sub_spec(lookat).spec_unit_vector()
    }

    /// Whether a frame can be built: the eye is not at the point it looks
    /// at, and the up vector is not along the line of sight.
    pub open spec fn spec_can_frame(lookfrom: Point3, lookat: Point3, vup: Vec3) -> bool {
        &&& !lookfrom.sub_spec(lookat).is_zero()
        &&& !vup.spec_cross(Self::spec_w(lookfrom, lookat)).is_zero()
    }

    /// The camera at `lookfrom` that looks at `lookat` with `vup` upward.
    /// `tan_half_fov` is the tangent of half the vertical field of view, so
    /// that the viewport is twice as high as that, at distance one.
    pub open spec fn spec_new(
        lookfrom: Point3,
        lookat: Point3,
        vup: Vec3,
        tan_half_fov: Fixed,
        aspect_ratio: Fixed,
        aperture: Fixed,
        focus_dist: Fixed,
    ) -> Camera {
        let viewport_height = Fixed::from_int(2).mul_spec(tan_half_fov);
        let viewport_width = aspect_ratio.mul_spec(viewport_height);
        let w = Self::spec_w(lookfrom, lookat);
        let u = vup.spec_cross(w).spec_unit_vector();
        let v = w.spec_cross(u);
        let horizontal = focus_dist.mul_spec(viewport_width).mul_spec(u);
        let vertical = focus_dist.mul_spec(viewport_height).mul_spec(v);
        Camera {
            origin: lookfrom,
            lower_left_corner: lookfrom.sub_spec(horizontal.div_spec(Fixed::from_int(2))).sub_spec(
                vertical.div_spec(Fixed::from_int(2)),
            ).sub_spec(focus_dist.mul_spec(w)),
            horizontal,
            vertical,
            u,
            v,
            w,
            lens_radius: aperture.div_spec(Fixed::from_int(2)),
        }
    }

    /// Where on the lens, relative to its center, a ray starts whose point
    /// of the unit disk is `lens_point`.
    pub open spec fn spec_lens_offset(&self, lens_point: Vec3) -> Vec3 {
        let rd = self.lens_radius.mul_spec(lens_point);
        self.u.mul_spec(rd.x).add_spec(self.v.mul_spec(rd.y))
    }

    /// The point of the focal plane at the image-plane coordinates `s`, `t`.
    pub open spec fn spec_focal_point(&self, s: Fixed, t: Fixed) -> Point3 {
        self.lower_left_corner.add_spec(s.mul_spec(self.horizontal)).add_spec(
            t.mul_spec(self.vertical),
        )
    }

    /// The ray from the place on the lens given by `lens_point` toward the
    /// point of the focal plane at `s`, `t`.
    pub open spec fn spec_get_ray_through(&self, s: Fixed, t: Fixed, lens_point: Vec3) -> Ray {
        let offset = self.spec_lens_offset(lens_point);
        Ray {
            origin: self.origin.add_spec(offset),
            direction: self.spec_focal_point(s, t).sub_spec(self.origin).sub_spec(offset),
        }
    }

    /// Rays from every place on the lens meet on the focal plane: where
    /// nothing is clamped, the ray for the image-plane coordinates `s`, `t`
    /// is, at parameter one, at the point of the focal plane for `s`, `t`,
    /// whatever place on the lens it starts from. This is stated for a
    /// camera origin, a lens offset and a focal point each within two to
    /// the power of twenty-eight of the origin of space.
    pub proof fn lemma_rays_meet_on_focal_plane(&self, s: Fixed, t: Fixed, lens_point: Vec3)
        requires
            max_magnitude(self.origin) <= 0x1000_0000_0000_0000,
            max_magnitude(self.spec_lens_offset(lens_point)) <= 0x1000_0000_0000_0000,
            max_magnitude(self.spec_focal_point(s, t)) <= 0x1000_0000_0000_0000,
        ensures
            self.spec_get_ray_through(s, t, lens_point).spec_at(Fixed::one())
                == self.spec_focal_point(s, t),
    {
        let r = self.spec_get_ray_through(s, t, lens_point);
        let d = r.direction;
        assert(trunc_div(SCALE * d.x.raw, SCALE as int) == d.x.raw && trunc_div(
            SCALE * d.y.raw,
            SCALE as int,
        ) == d.y.raw && trunc_div(SCALE * d.z.raw, SCALE as int) == d.z.raw) by (nonlinear_arith)
            requires
                SCALE == 0x1_0000_0000,
        ;
    }

    /// The camera at `lookfrom` that looks at `lookat` with `vup` upward.
    /// `tan_half_fov` is the tangent of half the vertical field of view, so
    /// that the viewport is twice as high as that, at distance one.
    #[verifier::when_used_as_spec(spec_new)]
    pub fn new(
        lookfrom: Point3,
        lookat: Point3,
        vup: Vec3,
        tan_half_fov: Fixed,
        aspect_ratio: Fixed,
        aperture: Fixed,
        focus_dist: Fixed,
    ) -> (camera: Camera)
        requires
            Self::spec_can_frame(lookfrom, lookat, vup),
        ensures
            camera == Self::spec_new(
                lookfrom,
                lookat,
                vup,
                tan_half_fov,
                aspect_ratio,
                aperture,
                focus_dist,
            ),
    {
        let viewport_height = Fixed::from_int(2) * tan_half_fov;
        let viewport_width = aspect_ratio * viewport_height;

        let w = (lookfrom - lookat).unit_vector();
        let u = vup.cross(w).unit_vector();
        let v = w.cross(u);

        let origin = lookfrom;
        let horizontal = focus_dist * viewport_width * u;
        let vertical = focus_dist * viewport_height * v;
        let lower_left_corner = origin - horizontal / Fixed::from_int(2) - vertical / Fixed::from_int(
            2,
        ) - focus_dist * w;

        let lens_radius = aperture / Fixed::from_int(2);

        Camera { origin, lower_left_corner, horizontal, vertical, u, v, w, lens_radius }
    }

    /// Tests whether a frame can be built from the three vectors.
    pub fn can_frame(lookfrom: Point3, lookat: Point3, vup: Vec3) -> (b: bool)
        ensures
            b == Self::spec_can_frame(lookfrom, lookat, vup),
    {
        let back = lookfrom - lookat;
        if back.is_zero() {
            false
        } else {
            !vup.cross(back.unit_vector()).is_zero()
        }
    }

    /// The ray from the place on the lens given by `lens_point` toward the
    /// point of the focal plane at `s`, `t`.
    #[verifier::when_used_as_spec(spec_get_ray_through)]
    pub fn get_ray_through(&self, s: Fixed, t: Fixed, lens_point: Vec3) -> (r: Ray)
        ensures
            r == self.spec_get_ray_through(s, t, lens_point),
    {
        let rd = self.lens_radius * lens_point;
        let offset = self.u * rd.x + self.v * rd.y;

        let origin = self.origin + offset;
        let direction = self.lower_left_corner + s * self.horizontal + t * self.vertical
            - self.origin - offset;
        Ray::new(origin, direction)
    }

    /// The ray through a random place on the lens toward the point of the
    /// focal plane at the image-plane coordinates `s`, `t`.
    pub fn get_ray(&self, s: Fixed, t: Fixed) -> (r: Ray)
        ensures
            exists|lens_point: Vec3|
                in_unit_disk(lens_point) && r == #[trigger] self.spec_get_ray_through(
                    s,
                    t,
                    lens_point,
                ),
    {
        let lens_point = random_in_unit_disk();
        self.get_ray_through(s, t, lens_point)
    }
}

} // verus!
