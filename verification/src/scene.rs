//! A scene to render: a ground, three large balls and a field of small
//! random ones.

use vstd::prelude::*;
use vstd::std_specs::ops::{AddSpec, MulSpec, SubSpec};
use crate::color::Color;
use crate::fixed::{lemma_trunc_div_monotonic, lemma_trunc_div_sign, Fixed, SCALE};
use crate::hittable::Hittable;
use crate::hittable_list::HittableList;
use crate::material::{Dielectric, Lambertian, Material, Metal};
use crate::sphere::Sphere;
use crate::utilities::{is_draw_between, is_unit_draw, rand_double, random_double};
use crate::vec3::{Point3, Vec3};

verus! {

/// The ground: a matte grey sphere of radius 1000 that touches the origin
/// from below.
pub open spec fn spec_ground() -> Hittable {
    Hittable::Sphere(
        Sphere {
            center: Vec3 { x: Fixed::zero(), y: Fixed::from_int(-1000i32), z: Fixed::zero() },
            radius: Fixed::from_int(1000),
            material: Material::Lambertian(
                Lambertian {
                    albedo: Vec3 {
                        x: Fixed::from_ratio(1, 2),
                        y: Fixed::from_ratio(1, 2),
                        z: Fixed::from_ratio(1, 2),
                    },
                },
            ),
        },
    )
}

/// The large glass ball in the middle.
pub open spec fn spec_glass_ball() -> Hittable {
    Hittable::Sphere(
        Sphere {
            center: Vec3 { x: Fixed::zero(), y: Fixed::one(), z: Fixed::zero() },
            radius: Fixed::one(),
            material: Material::Dielectric(Dielectric { index_of_refraction: Fixed::from_ratio(3, 2) }),
        },
    )
}

/// The large matte ball behind.
pub open spec fn spec_matte_ball() -> Hittable {
    Hittable::Sphere(
        Sphere {
            center: Vec3 { x: Fixed::from_int(-4i32), y: Fixed::one(), z: Fixed::zero() },
            radius: Fixed::one(),
            material: Material::Lambertian(
                Lambertian {
                    albedo: Vec3 {
                        x: Fixed::from_ratio(4, 10),
                        y: Fixed::from_ratio(2, 10),
                        z: Fixed::from_ratio(1, 10),
                    },
                },
            ),
        },
    )
}

/// The large mirror ball in front.
pub open spec fn spec_mirror_ball() -> Hittable {
    Hittable::Sphere(
        Sphere {
            center: Vec3 { x: Fixed::from_int(4), y: Fixed::one(), z: Fixed::zero() },
            radius: Fixed::one(),
            material: Material::Metal(
                Metal {
                    albedo: Vec3 {
                        x: Fixed::from_ratio(7, 10),
                        y: Fixed::from_ratio(6, 10),
                        z: Fixed::from_ratio(5, 10),
                    },
                    fuzz: Fixed::zero(),
                },
            ),
        },
    )
}

/// Where the small ball of the cell `a`, `b` lies, moved within its cell by
/// the draws `dx` and `dz`.
pub open spec fn spec_cell_center(a: i32, b: i32, dx: Fixed, dz: Fixed) -> Point3 {
    Vec3 {
        x: Fixed::from_int(a).add_spec(Fixed::from_ratio(9, 10).mul_spec(dx)),
        y: Fixed::from_ratio(2, 10),
        z: Fixed::from_int(b).add_spec(Fixed::from_ratio(9, 10).mul_spec(dz)),
    }
}

/// Whether a small ball at `center` keeps clear of the large mirror ball.
pub open spec fn spec_keeps_clear(center: Point3) -> bool {
    center.sub_spec(
        Vec3 { x: Fixed::from_int(4), y: Fixed::from_ratio(2, 10), z: Fixed::zero() },
    ).spec_length().raw > Fixed::from_ratio(9, 10).raw
}

/// The material of a small ball, chosen by the draw `choose_mat`: matte
/// below 0.8, metal below 0.95, else glass.
pub open spec fn spec_cell_material(choose_mat: Fixed, matte: Color, shiny: Color, fuzz: Fixed) -> Material {
    if choose_mat.raw < Fixed::from_ratio(8, 10).raw {
        Material::Lambertian(Lambertian { albedo: matte })
    } else if choose_mat.raw < Fixed::from_ratio(95, 100).raw {
        Material::Metal(Metal { albedo: shiny, fuzz })
    } else {
        Material::Dielectric(Dielectric { index_of_refraction: Fixed::from_ratio(3, 2) })
    }
}

/// The small ball of the cell `a`, `b`, if it keeps clear of the large
/// mirror ball.
pub open spec fn spec_cell_sphere(
    a: i32,
    b: i32,
    dx: Fixed,
    dz: Fixed,
    choose_mat: Fixed,
    matte: Color,
    shiny: Color,
    fuzz: Fixed,
) -> Option<Hittable> {
    let center = spec_cell_center(a, b, dx, dz);
    if spec_keeps_clear(center) {
        Some(
            Hittable::Sphere(
                Sphere {
                    center,
                    radius: Fixed::from_ratio(2, 10),
                    material: spec_cell_material(choose_mat, matte, shiny, fuzz),
                },
            ),
        )
    } else {
        None
    }
}

/// Whether every channel of `color` lies in the half-open unit interval.
pub open spec fn is_unit_color(color: Color) -> bool {
    is_unit_draw(color.x) && is_unit_draw(color.y) && is_unit_draw(color.z)
}

/// Whether every channel of `color` was drawn between one half and one.
pub open spec fn is_bright_color(color: Color) -> bool {
    &&& is_draw_between(Fixed::from_ratio(1, 2), Fixed::one(), color.x)
    &&& is_draw_between(Fixed::from_ratio(1, 2), Fixed::one(), color.y)
    &&& is_draw_between(Fixed::from_ratio(1, 2), Fixed::one(), color.z)
}

/// Whether `object` is a small ball of the field: a well-formed sphere that
/// is the ball of one of the four by four cells for some values of the
/// random draws.
pub open spec fn is_small_ball(object: Hittable) -> bool {
    &&& object.wf()
    &&& exists|
        a: i32,
        b: i32,
        dx: Fixed,
        dz: Fixed,
        choose_mat: Fixed,
        matte: Color,
        shiny: Color,
        fuzz: Fixed,
    |
        {
            &&& -2 <= a < 2
            &&& -2 <= b < 2
            &&& is_unit_draw(dx)
            &&& is_unit_draw(dz)
            &&& is_unit_draw(choose_mat)
            &&& is_unit_color(matte)
            &&& is_bright_color(shiny)
            &&& is_draw_between(Fixed::zero(), Fixed::from_ratio(1, 2), fuzz)
            &&& #[trigger] spec_cell_sphere(a, b, dx, dz, choose_mat, matte, shiny, fuzz) == Some(
                object,
            )
        }
}

/// The product of two numbers of the half-open unit interval lies in it.
proof fn lemma_unit_product(u: Fixed, v: Fixed)
    requires
        is_unit_draw(u),
        is_unit_draw(v),
    ensures
        is_unit_draw(u.mul_spec(v)),
{
    let x = u.raw as int;
    let y = v.raw as int;
    assert(0 <= x * y && x * y < SCALE * SCALE) by (nonlinear_arith)
        requires
            0 <= x < SCALE,
            0 <= y < SCALE,
    ;
    lemma_trunc_div_sign(x * y, SCALE as int);
    lemma_trunc_div_monotonic(x * y, SCALE * SCALE - 1, SCALE as int);
    assert((SCALE * SCALE - 1) / (SCALE as int) < SCALE) by (nonlinear_arith)
        requires
            SCALE == 0x1_0000_0000,
    ;
}

/// The small ball of the cell `a`, `b`, if it keeps clear of the large
/// mirror ball.
#[verifier::when_used_as_spec(spec_cell_sphere)]
pub fn cell_sphere(
    a: i32,
    b: i32,
    dx: Fixed,
    dz: Fixed,
    choose_mat: Fixed,
    matte: Color,
    shiny: Color,
    fuzz: Fixed,
) -> (ball: Option<Hittable>)
    ensures
        ball == spec_cell_sphere(a, b, dx, dz, choose_mat, matte, shiny, fuzz),
        match ball {
            Some(object) => object.wf(),
            None => true,
        },
{
    let center = Point3::new(
        Fixed::from_int(a) + Fixed::from_ratio(9, 10) * dx,
        Fixed::from_ratio(2, 10),
        Fixed::from_int(b) + Fixed::from_ratio(9, 10) * dz,
    );
    let mirror_foot = Point3::new(Fixed::from_int(4), Fixed::from_ratio(2, 10), Fixed::zero());
    if (center - mirror_foot).length().raw > Fixed::from_ratio(9, 10).raw {
        let material = if choose_mat.raw < Fixed::from_ratio(8, 10).raw {
            Material::Lambertian(Lambertian::new(&matte))
        } else if choose_mat.raw < Fixed::from_ratio(95, 100).raw {
            Material::Metal(Metal::new(&shiny, fuzz))
        } else {
            Material::Dielectric(Dielectric::new(Fixed::from_ratio(3, 2)))
        };
        proof {
            lemma_glass_index();
        }
        Some(Hittable::Sphere(Sphere::new(center, Fixed::from_ratio(2, 10), material)))
    } else {
        None
    }
}

/// The refractive index of glass, three halves, is positive.
proof fn lemma_glass_index()
    ensures
        Fixed::spec_from_ratio(3, 2).raw == 6442450944,
{
    assert(3 * 4294967296int / 2int == 6442450944int) by (nonlinear_arith);
}

/// Builds the scene: the ground, then the small balls of a field of four by
/// four cells, each at a random place in its cell and of a random material,
/// then the three large balls.
pub fn random_scene() -> (world: HittableList)
    ensures
        world.wf(),
        4 <= world.objects@.len() <= 20,
        world.objects@[0] == spec_ground(),
        world.objects@[world.objects@.len() - 3] == spec_glass_ball(),
        world.objects@[world.objects@.len() - 2] == spec_matte_ball(),
        world.objects@[world.objects@.len() - 1] == spec_mirror_ball(),
        forall|i: int| 1 <= i < world.objects@.len() - 3 ==> is_small_ball(#[trigger] world.objects@[i]),
{
    let mut world = HittableList::new();

    let ground_material = Material::Lambertian(
        Lambertian::new(
            &Color::new(Fixed::from_ratio(1, 2), Fixed::from_ratio(1, 2), Fixed::from_ratio(1, 2)),
        ),
    );
    world.add(
        Hittable::Sphere(
            Sphere::new(
                Point3::new(Fixed::zero(), Fixed::from_int(-1000), Fixed::zero()),
                Fixed::from_int(1000),
                ground_material,
            ),
        ),
    );

    let mut a: i32 = -2;
    while a < 2
        invariant
            -2 <= a <= 2,
            world.wf(),
            1 <= world.objects@.len() <= 1 + 4 * (a + 2),
            world.objects@[0] == spec_ground(),
            forall|i: int| 1 <= i < world.objects@.len() ==> is_small_ball(#[trigger] world.objects@[i]),
        decreases 2 - a,
    {
        let mut b: i32 = -2;
        while b < 2
            invariant
                -2 <= a < 2,
                -2 <= b <= 2,
                world.wf(),
                1 <= world.objects@.len() <= 1 + 4 * (a + 2) + (b + 2),
                world.objects@[0] == spec_ground(),
                forall|i: int|
                    1 <= i < world.objects@.len() ==> is_small_ball(#[trigger] world.objects@[i]),
            decreases 2 - b,
        {
            let choose_mat = rand_double();
            let dx = rand_double();
            let dz = rand_double();
            let tint = Color::rand();
            let shade = Color::rand();
            let matte = tint * shade;
            proof {
                lemma_unit_product(tint.x, shade.x);
                lemma_unit_product(tint.y, shade.y);
                lemma_unit_product(tint.z, shade.z);
            }
            let shiny = Color::random(Fixed::from_ratio(1, 2), Fixed::one());
            let fuzz = random_double(Fixed::zero(), Fixed::from_ratio(1, 2));
            match cell_sphere(a, b, dx, dz, choose_mat, matte, shiny, fuzz) {
                Some(ball) => {
                    world.add(ball);
                },
                None => {},
            }
            b += 1;
        }
        a += 1;
    }

    proof {
        lemma_glass_index();
    }
    let material1 = Material::Dielectric(Dielectric::new(Fixed::from_ratio(3, 2)));
    world.add(
        Hittable::Sphere(
            Sphere::new(Point3::new(Fixed::zero(), Fixed::one(), Fixed::zero()), Fixed::one(), material1),
        ),
    );

    let material2 = Material::Lambertian(
        Lambertian::new(
            &Color::new(Fixed::from_ratio(4, 10), Fixed::from_ratio(2, 10), Fixed::from_ratio(1, 10)),
        ),
    );
    world.add(
        Hittable::Sphere(
            Sphere::new(
                Point3::new(Fixed::from_int(-4), Fixed::one(), Fixed::zero()),
                Fixed::one(),
                material2,
            ),
        ),
    );

    let material3 = Material::Metal(
        Metal::new(
            &Color::new(Fixed::from_ratio(7, 10), Fixed::from_ratio(6, 10), Fixed::from_ratio(5, 10)),
            Fixed::zero(),
        ),
    );
    world.add(
        Hittable::Sphere(
            Sphere::new(Point3::new(Fixed::from_int(4), Fixed::one(), Fixed::zero()), Fixed::one(), material3),
        ),
    );

    world
}

} // verus!
