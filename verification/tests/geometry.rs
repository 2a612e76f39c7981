use approx::AbsDiffEq;
use nalgebra::{Point3, Unit, Vector3};
use ray_tracer::geometry::ray::Ray;
use ray_tracer::geometry::sphere::roots;
use ray_tracer::geometry::{HitContext, Hittable, IdAllocator, Object, Shape};
use std::ops::Bound;

fn bits(v: [f32; 3]) -> [u32; 3] {
    [v[0].to_bits(), v[1].to_bits(), v[2].to_bits()]
}

fn floats(v: [u32; 3]) -> [f32; 3] {
    [f32::from_bits(v[0]), f32::from_bits(v[1]), f32::from_bits(v[2])]
}

fn ray(origin: [f32; 3], direction: [f32; 3]) -> Ray {
    let dir = Unit::new_normalize(Vector3::from(direction));
    Ray { orig: bits(origin), dir: bits([dir.x, dir.y, dir.z]) }
}

fn close(a: f32, b: f32) -> bool {
    a.abs_diff_eq(&b, f32::default_epsilon())
}

#[derive(Debug, Clone, Copy)]
struct Sphere {
    c: Point3<f32>,
    r: f32,
}

impl Default for Sphere {
    fn default() -> Self {
        Sphere { c: Point3::origin(), r: 1.0 }
    }
}

impl Shape for Sphere {
    fn intersect(&self, ray: Ray) -> Vec<u32> {
        let orig = Point3::from(floats(ray.orig));
        let dir = Vector3::from(floats(ray.dir));
        let c_to_orig = orig - self.c;
        let k_dot_c_to_org = dir.dot(&c_to_orig);
        let const_term = c_to_orig.magnitude_squared() - self.r.powi(2);
        let delta = k_dot_c_to_org.powi(2) - const_term;
        let delta_sqrt = delta.sqrt();
        let near = -k_dot_c_to_org - delta_sqrt;
        let far = -k_dot_c_to_org + delta_sqrt;
        roots(delta.to_bits(), near.to_bits(), far.to_bits()).to_vec()
    }
}

#[test]
fn ray_test_intersect_sphere_tangent() {
    let r = ray([0.0, 1.0, -5.0], [0.0, 0.0, 1.0]);
    let s = Sphere::default();
    let res = s.intersect(r);
    assert_eq!(res.len(), 1);
    assert!(close(f32::from_bits(res[0]), 5f32));
}

#[test]
fn ray_test_intersect_sphere_null() {
    let r = ray([0.0, 2.0, -5.0], [0.0, 0.0, 1.0]);
    let s = Sphere::default();
    let res = s.intersect(r);
    assert_eq!(res.len(), 0);
}

#[test]
fn ray_test_intersect_sphere_center() {
    let r = ray([0.0, 0.0, 0.0], [0.0, 0.0, 1.0]);
    let s = Sphere::default();
    let res = s.intersect(r);
    assert_eq!(res.len(), 2);
    for (lhs, rhs) in res.iter().copied().zip([-1.0f32, 1.0].iter().copied()) {
        assert!(close(f32::from_bits(lhs), rhs));
    }
}

#[test]
fn sphere_test_intersect_sphere_tangent() {
    let mut ids = IdAllocator::new();
    let r = ray([0.0, 1.0, -5.0], [0.0, 0.0, 1.0]);
    let s = Sphere::default().into_object(&mut ids);
    let inter = s.intersect(r);
    let (t, HitContext { obj_hit }) = inter.hit().unwrap();
    assert_eq!(inter.size(), 1);
    assert!(close(f32::from_bits(t), 5.0));
    assert_eq!(obj_hit, s.id());
}

#[test]
fn sphere_test_intersect_sphere_null() {
    let mut ids = IdAllocator::new();
    let r = ray([0.0, 2.0, -5.0], [0.0, 0.0, 1.0]);
    let s = Sphere::default().into_object(&mut ids);
    let inter = s.intersect(r);
    assert_eq!(inter.size(), 0);
    assert_eq!(inter.hit(), None);
}

#[test]
fn sphere_test_intersect_sphere_center() {
    let mut ids = IdAllocator::new();
    let r = ray([0.0, 0.0, 0.0], [0.0, 0.0, 1.0]);
    let s = Sphere::default().into_object(&mut ids);
    let inter = s.intersect(r);
    let (t, HitContext { obj_hit }) = inter.hit().unwrap();
    assert!(close(f32::from_bits(t), 1.0));
    assert_eq!(obj_hit, s.id());
    let behind = (Bound::Included((-f32::INFINITY).to_bits()), Bound::Excluded(0.0f32.to_bits()));
    let (t, HitContext { obj_hit }) = inter.hits_between(behind).into_iter().next().unwrap();
    assert!(close(f32::from_bits(t), -1.0));
    assert_eq!(obj_hit, s.id());
}

#[test]
fn a_tangent_ray_scores_one_hit_at_five() {
    let mut ids = IdAllocator::new();
    let s = Sphere::default().into_object(&mut ids);
    let inter = s.intersect(ray([0.0, 1.0, -5.0], [0.0, 0.0, 1.0]));
    let all = inter.hits_between((Bound::Unbounded, Bound::Unbounded));
    assert_eq!(all.len(), 1);
    assert_eq!(f32::from_bits(all[0].0), 5.0);
    assert_eq!(all[0].1, HitContext { obj_hit: s.id() });
}

#[test]
fn a_ray_from_the_centre_scores_minus_one_and_one() {
    let mut ids = IdAllocator::new();
    let s = Sphere::default().into_object(&mut ids);
    let inter = s.intersect(ray([0.0, 0.0, 0.0], [0.0, 0.0, 1.0]));
    let ctx = HitContext { obj_hit: s.id() };
    assert_eq!(inter.size(), 2);
    let all = inter.hits_between((Bound::Unbounded, Bound::Unbounded));
    assert_eq!(all, vec![((-1.0f32).to_bits(), ctx), (1.0f32.to_bits(), ctx)]);
    assert_eq!(inter.hit(), Some((1.0f32.to_bits(), ctx)));
    let behind = (Bound::Included(f32::NEG_INFINITY.to_bits()), Bound::Excluded(0.0f32.to_bits()));
    assert_eq!(inter.hits_between(behind), vec![((-1.0f32).to_bits(), ctx)]);
}

#[test]
fn hits_at_files_given_parameters_under_the_object() {
    let mut ids = IdAllocator::new();
    let _other = Sphere::default().into_object(&mut ids);
    let s = Object::new(Sphere::default(), &mut ids);
    let ctx = HitContext { obj_hit: s.id() };
    let hits = s.hits_at(vec![2.0f32.to_bits(), (-3.0f32).to_bits(), 0.5f32.to_bits()]);
    assert_eq!(hits.size(), 3);
    assert_eq!(
        hits.hits_between((Bound::Unbounded, Bound::Unbounded)),
        vec![((-3.0f32).to_bits(), ctx), (0.5f32.to_bits(), ctx), (2.0f32.to_bits(), ctx)]
    );
    assert_eq!(hits.hit(), Some((0.5f32.to_bits(), ctx)));
    assert_eq!(s.hits_at(Vec::new()).size(), 0);
}

#[test]
fn hits_of_two_spheres_merge_into_one_set() {
    let mut ids = IdAllocator::new();
    let near = Sphere { c: Point3::new(0.0, 0.0, 4.0), r: 1.0 }.into_object(&mut ids);
    let far = Sphere { c: Point3::new(0.0, 0.0, 10.0), r: 2.0 }.into_object(&mut ids);
    let r = ray([0.0, 0.0, 0.0], [0.0, 0.0, 2.0]);
    let everything = (Bound::Unbounded, Bound::Unbounded);
    let mut pairs = far.intersect(r).hits_between(everything);
    pairs.extend(near.intersect(r).hits_between(everything));
    let merged = ray_tracer::geometry::Hits::from_iter(pairs);
    let found: Vec<(f32, ray_tracer::geometry::Id)> = merged
        .hits_between(everything)
        .into_iter()
        .map(|(t, ctx)| (f32::from_bits(t), ctx.obj_hit))
        .collect();
    assert_eq!(found, vec![(3.0, near.id()), (5.0, near.id()), (8.0, far.id()), (12.0, far.id())]);
    assert_eq!(merged.hit(), Some((3.0f32.to_bits(), HitContext { obj_hit: near.id() })));
}

#[test]
fn rays_are_equal_when_their_numbers_are() {
    let a = ray([0.0, 1.0, -5.0], [0.0, 0.0, 1.0]);
    let b = ray([-0.0, 1.0, -5.0], [0.0, -0.0, 3.0]);
    let c = ray([0.0, 1.0, -5.0], [0.0, 1.0, 0.0]);
    assert!(a == a);
    assert!(a == b);
    assert!(a != c);
    let broken = Ray { orig: bits([f32::NAN, 0.0, 0.0]), dir: bits([0.0, 0.0, 1.0]) };
    assert!(broken != broken);
}

#[test]
fn a_type_erased_object_scores_hits_on_itself() {
    let mut ids = IdAllocator::new();
    let _first = Sphere::default().into_object(&mut ids);
    let s = Sphere::default().into_object(&mut ids);
    let erased: &dyn Hittable = &s;
    let hits = erased.intersect(ray([0.0, 0.0, 0.0], [0.0, 0.0, 1.0]));
    let all = hits.hits_between((Bound::Unbounded, Bound::Unbounded));
    assert_eq!(all.len(), 2);
    for (_, ctx) in all {
        assert_eq!(ctx.obj_hit, erased.id());
    }
}
