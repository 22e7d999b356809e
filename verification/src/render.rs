//! Scene traversal, nearest-hit resolution, and the per-pixel driver.
//!
//! The traversal intersects the ray with every sphere, in scene order.  The
//! surviving candidate follows a tie-break rule: under the `furthest` rule a
//! later hit replaces the candidate when its distance is greater *or equal*
//! (the rule the whole renderer uses), and under the `nearest` rule when its
//! distance is less or equal, which is the physically correct choice for
//! opaque surfaces.  Both rules are offered so callers can pin either down.

use vstd::prelude::*;
use crate::objects::{Ray, Hitinfo, Sphere, Color, black_spec};
use crate::objects::{ray_wf, hitinfo_wf, scene_wf, hit_spec};
use crate::material::{Diffuse, shade_spec, rnd_ok};
use crate::camera::{Camera, camera_wf, generate_ray_spec};
use crate::vector::{Vector3, in_range};
use crate::fixed::MAX_COORD;

verus! {

/// The hit surviving the furthest-wins rule over a prefix of the scene:
/// the first hit starts as candidate, and every later hit at a distance
/// greater than or equal to the candidate's replaces it.
pub open spec fn resolve_far_spec(s: Seq<Sphere>, ray: Ray) -> Option<Hitinfo>
    decreases s.len(),
{
    if s.len() == 0 {
        None
    } else {
        let prev = resolve_far_spec(s.drop_last(), ray);
        match hit_spec(s.last(), ray) {
            None => prev,
            Some(h) => match prev {
                None => Some(h),
                Some(p) => if h.distance >= p.distance {
                    Some(h)
                } else {
                    Some(p)
                },
            },
        }
    }
}

/// The hit surviving the nearest-wins rule: every later hit at a distance
/// less than or equal to the candidate's replaces it.
pub open spec fn resolve_near_spec(s: Seq<Sphere>, ray: Ray) -> Option<Hitinfo>
    decreases s.len(),
{
    if s.len() == 0 {
        None
    } else {
        let prev = resolve_near_spec(s.drop_last(), ray);
        match hit_spec(s.last(), ray) {
            None => prev,
            Some(h) => match prev {
                None => Some(h),
                Some(p) => if h.distance <= p.distance {
                    Some(h)
                } else {
                    Some(p)
                },
            },
        }
    }
}

/// Intersects the ray with every sphere and keeps the furthest-wins survivor.
pub fn resolve_furthest(scene: &Vec<Sphere>, ray: &Ray) -> (r: Option<Hitinfo>)
    requires
        scene_wf(scene@),
        ray_wf(*ray),
    ensures
        r == resolve_far_spec(scene@, *ray),
        r matches Some(h) ==> hitinfo_wf(h),
{
    let mut nearest: Option<Hitinfo> = None;
    let n = scene.len();
    assert(scene@.take(0int) =~= Seq::<Sphere>::empty());
    for i in 0..n
        invariant
            n == scene@.len(),
            scene_wf(scene@),
            ray_wf(*ray),
            nearest == resolve_far_spec(scene@.take(i as int), *ray),
            nearest matches Some(h) ==> hitinfo_wf(h),
    {
        let cur = scene[i].intersect(ray);
        match cur {
            None => {},
            Some(info) => {
                match nearest {
                    None => {
                        nearest = Some(info);
                    },
                    Some(p) => {
                        if info.distance >= p.distance {
                            nearest = Some(info);
                        }
                    },
                }
            },
        }
        proof {
            assert(scene@.take(i + 1int).drop_last() =~= scene@.take(i as int));
            assert(scene@.take(i + 1int).last() == scene@[i as int]);
        }
    }
    proof {
        assert(scene@.take(n as int) =~= scene@);
    }
    nearest
}

/// Intersects the ray with every sphere and keeps the nearest-wins survivor.
pub fn resolve_nearest(scene: &Vec<Sphere>, ray: &Ray) -> (r: Option<Hitinfo>)
    requires
        scene_wf(scene@),
        ray_wf(*ray),
    ensures
        r == resolve_near_spec(scene@, *ray),
        r matches Some(h) ==> hitinfo_wf(h),
{
    let mut nearest: Option<Hitinfo> = None;
    let n = scene.len();
    assert(scene@.take(0int) =~= Seq::<Sphere>::empty());
    for i in 0..n
        invariant
            n == scene@.len(),
            scene_wf(scene@),
            ray_wf(*ray),
            nearest == resolve_near_spec(scene@.take(i as int), *ray),
            nearest matches Some(h) ==> hitinfo_wf(h),
    {
        let cur = scene[i].intersect(ray);
        match cur {
            None => {},
            Some(info) => {
                match nearest {
                    None => {
                        nearest = Some(info);
                    },
                    Some(p) => {
                        if info.distance <= p.distance {
                            nearest = Some(info);
                        }
                    },
                }
            },
        }
        proof {
            assert(scene@.take(i + 1int).drop_last() =~= scene@.take(i as int));
            assert(scene@.take(i + 1int).last() == scene@[i as int]);
        }
    }
    proof {
        assert(scene@.take(n as int) =~= scene@);
    }
    nearest
}

/// Law: when two spheres are both struck along one ray, at a nearer and a
/// farther distance, the furthest-wins rule surfaces the farther hit and the
/// nearest-wins rule the nearer one, whichever order the scene lists the
/// spheres in.
pub proof fn lemma_two_sphere_tiebreak(s0: Sphere, s1: Sphere, ray: Ray, h0: Hitinfo, h1: Hitinfo)
    requires
        hit_spec(s0, ray) == Some(h0),
        hit_spec(s1, ray) == Some(h1),
        h0.distance < h1.distance,
    ensures
        resolve_far_spec(seq![s0, s1], ray) == Some(h1),
        resolve_far_spec(seq![s1, s0], ray) == Some(h1),
        resolve_near_spec(seq![s0, s1], ray) == Some(h0),
        resolve_near_spec(seq![s1, s0], ray) == Some(h0),
{
    let e = Seq::<Sphere>::empty();
    assert(resolve_far_spec(e, ray) == None::<Hitinfo>);
    assert(resolve_near_spec(e, ray) == None::<Hitinfo>);
    let sa = seq![s0, s1];
    let sb = seq![s1, s0];
    assert(sa.drop_last() =~= seq![s0]);
    assert(sb.drop_last() =~= seq![s1]);
    assert(seq![s0].drop_last() =~= e);
    assert(seq![s1].drop_last() =~= e);
    assert(seq![s0].last() == s0);
    assert(seq![s1].last() == s1);
    assert(sa.last() == s1);
    assert(sb.last() == s0);
    assert(resolve_far_spec(seq![s0], ray) == Some(h0));
    assert(resolve_far_spec(seq![s1], ray) == Some(h1));
    assert(resolve_near_spec(seq![s0], ray) == Some(h0));
    assert(resolve_near_spec(seq![s1], ray) == Some(h1));
}

/// What a rendered pixel must be: the background when the pixel's ray
/// strikes nothing; the struck surface's base color when the bounce budget
/// is zero; the background when the struck point lies outside the scene
/// bounds; and otherwise the diffuse shading under some bounce vector.
pub open spec fn pixel_ok(
    c: Color,
    scene: Seq<Sphere>,
    cam: Camera,
    x: int,
    y: int,
    w: int,
    h: int,
    bounces: u8,
) -> bool {
    let ray = generate_ray_spec(cam, x, y, w, h);
    match resolve_far_spec(scene, ray) {
        None => c == black_spec(),
        Some(hit) => {
            if bounces == 0 {
                c == hit.color
            } else if !in_range(hit.position, MAX_COORD as int) {
                c == black_spec()
            } else {
                exists|rnd: Vector3| rnd_ok(rnd) && c == shade_spec(scene, hit, hit.color, rnd)
            }
        },
    }
}

/// Computes one pixel: cast the camera ray, resolve the surviving hit, and
/// shade it with the configured bounce budget; a miss is the background.
pub fn render_pixel(
    scene: &Vec<Sphere>,
    camera: &Camera,
    x: u32,
    y: u32,
    width: u32,
    height: u32,
    bounces: u8,
) -> (c: Color)
    requires
        scene_wf(scene@),
        camera_wf(*camera),
        1 <= width <= 4096,
        1 <= height <= 4096,
        x < width,
        y < height,
    ensures
        pixel_ok(c, scene@, *camera, x as int, y as int, width as int, height as int, bounces),
{
    let ray = camera.generate_ray(x, y, width, height);
    match resolve_furthest(scene, &ray) {
        None => Color::black(),
        Some(info) => {
            let mat = Diffuse::new(info.color);
            mat.calc_mat(&info, scene, bounces)
        },
    }
}

/// Renders the whole raster, row-major with `x` fastest, one color per
/// pixel.  Every pixel is computed independently from the immutable scene
/// and camera.
pub fn render(
    scene: &Vec<Sphere>,
    camera: &Camera,
    width: u32,
    height: u32,
    bounces: u8,
) -> (buf: Vec<Color>)
    requires
        scene_wf(scene@),
        camera_wf(*camera),
        1 <= width <= 4096,
        1 <= height <= 4096,
    ensures
        buf@.len() == (width as int) * (height as int),
        forall|j: int| 0 <= j < buf@.len() ==> pixel_ok(
            #[trigger] buf@[j],
            scene@,
            *camera,
            j % (width as int),
            j / (width as int),
            width as int,
            height as int,
            bounces,
        ),
{
    let mut buf: Vec<Color> = Vec::new();
    for y in 0..height
        invariant
            scene_wf(scene@),
            camera_wf(*camera),
            1 <= width <= 4096,
            1 <= height <= 4096,
            buf@.len() == (y as int) * (width as int),
            forall|j: int| 0 <= j < buf@.len() ==> pixel_ok(
                #[trigger] buf@[j],
                scene@,
                *camera,
                j % (width as int),
                j / (width as int),
                width as int,
                height as int,
                bounces,
            ),
    {
        for x in 0..width
            invariant
                scene_wf(scene@),
                camera_wf(*camera),
                1 <= width <= 4096,
                1 <= height <= 4096,
                y < height,
                buf@.len() == (y as int) * (width as int) + (x as int),
                forall|j: int| 0 <= j < buf@.len() ==> pixel_ok(
                    #[trigger] buf@[j],
                    scene@,
                    *camera,
                    j % (width as int),
                    j / (width as int),
                    width as int,
                    height as int,
                    bounces,
                ),
        {
            let c = render_pixel(scene, camera, x, y, width, height, bounces);
            proof {
                let w = width as int;
                let j = (y as int) * w + (x as int);
                vstd::arithmetic::div_mod::lemma_fundamental_div_mod_converse(
                    j, w, y as int, x as int);
                assert(j % w == x as int && j / w == y as int);
            }
            buf.push(c);
        }
        proof {
            assert((y as int) * (width as int) + (width as int)
                == ((y as int) + 1) * (width as int)) by (nonlinear_arith);
        }
    }
    proof {
        assert((height as int) * (width as int) == (width as int) * (height as int))
            by (nonlinear_arith);
    }
    buf
}

} // verus!
