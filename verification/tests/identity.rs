use ray_tracer::geometry::ray::Ray;
use ray_tracer::geometry::{Hittable, Id, IdAllocator, Object, Shape};
use std::cmp::Ordering;
use std::collections::hash_map::DefaultHasher;
use std::collections::HashSet;
use std::hash::{Hash, Hasher};

#[derive(Debug, Clone, Copy, PartialEq)]
struct Ball {
    center: [f32; 3],
    radius: f32,
}

impl Shape for Ball {
    fn intersect(&self, _ray: Ray) -> Vec<u32> {
        Vec::new()
    }
}

#[derive(Debug, Clone, Copy, PartialEq)]
struct Plane;

impl Shape for Plane {
    fn intersect(&self, _ray: Ray) -> Vec<u32> {
        vec![2.0f32.to_bits()]
    }
}

fn digest<T: Hash + ?Sized>(value: &T) -> u64 {
    let mut hasher = DefaultHasher::new();
    value.hash(&mut hasher);
    hasher.finish()
}

#[test]
fn a_new_allocator_has_issued_nothing() {
    let ids = IdAllocator::new();
    assert_eq!(Id::count(&ids), 0);
}

#[test]
fn a_default_allocator_has_issued_nothing() {
    let mut ids = IdAllocator::default();
    assert_eq!(Id::count(&ids), 0);
    let first = Id::new(&mut ids);
    assert_eq!(digest(&first), digest(&0u64));
}

#[test]
fn new_returns_the_count_before() {
    let mut ids = IdAllocator::new();
    for n in 0..10u64 {
        assert_eq!(Id::count(&ids), n);
        let id = Id::new(&mut ids);
        assert_eq!(digest(&id), digest(&n));
        assert_eq!(Id::count(&ids), n + 1);
    }
}

#[test]
fn sequential_ids_are_distinct_and_counted() {
    let mut ids = IdAllocator::new();
    let n = 1000;
    let issued: Vec<Id> = (0..n).map(|_| Id::new(&mut ids)).collect();
    let distinct: HashSet<Id> = issued.iter().copied().collect();
    assert_eq!(distinct.len(), n);
    assert!(Id::count(&ids) >= n as u64);
    assert_eq!(Id::count(&ids), n as u64);
    for pair in issued.windows(2) {
        assert!(pair[0] < pair[1]);
        assert_eq!(pair[0].order(&pair[1]), Ordering::Less);
    }
}

#[test]
fn id_order_compares_the_numbers() {
    let mut ids = IdAllocator::new();
    let a = Id::new(&mut ids);
    let b = Id::new(&mut ids);
    assert_eq!(a.order(&b), Ordering::Less);
    assert_eq!(b.order(&a), Ordering::Greater);
    assert_eq!(a.order(&a), Ordering::Equal);
    assert_eq!(a.order(&b), a.cmp(&b));
}

#[test]
fn objects_of_one_payload_are_never_equal() {
    let mut ids = IdAllocator::new();
    let ball = Ball { center: [0.0, 0.0, 0.0], radius: 1.0 };
    let a = Object::new(ball, &mut ids);
    let b = Object::new(ball, &mut ids);
    assert!(a != b);
    assert!(b != a);
    assert!(a == a);
    assert!(b == b);
    assert_ne!(a.id(), b.id());
    assert_ne!(digest(&a), digest(&b));
}

#[test]
fn an_object_equals_itself_when_type_erased() {
    let mut ids = IdAllocator::new();
    let ball = Ball { center: [0.0, 0.0, 0.0], radius: 1.0 };
    let a = ball.into_object(&mut ids);
    let b = ball.into_object(&mut ids);
    let erased_a: &dyn Hittable = &a;
    let erased_b: &dyn Hittable = &b;
    assert!(erased_a == erased_a);
    assert!(erased_a == &a as &dyn Hittable);
    assert!(erased_a != erased_b);
    assert_eq!(erased_a.id(), a.id());
}

#[test]
fn objects_of_two_kinds_compare_by_identity() {
    let mut ids = IdAllocator::new();
    let ball = Ball { center: [1.0, 2.0, 3.0], radius: 4.0 }.into_object(&mut ids);
    let plane = Plane.into_object(&mut ids);
    let scene: Vec<&dyn Hittable> = vec![&plane, &ball];
    assert!(scene[0] != scene[1]);
    assert!(scene[1] < scene[0]);
    assert_eq!(scene[1].partial_cmp(scene[0]), Some(Ordering::Less));
    assert_eq!(scene[0].cmp(scene[1]), Ordering::Greater);
    assert_eq!(scene[0].cmp(scene[0]), Ordering::Equal);
    assert_eq!(digest(scene[0]), digest(&plane));
    assert_eq!(digest(scene[1]), digest(&ball));
    assert_ne!(digest(scene[0]), digest(scene[1]));
}

#[test]
fn objects_are_ordered_by_identity() {
    let mut ids = IdAllocator::new();
    let late_shape = Ball { center: [0.0, 0.0, 0.0], radius: 1.0 };
    let early_shape = Ball { center: [9.0, 9.0, 9.0], radius: 9.0 };
    let first = Object::new(early_shape, &mut ids);
    let second = Object::new(late_shape, &mut ids);
    assert!(first < second);
    assert_eq!(first.partial_cmp(&second), Some(Ordering::Less));
    assert_eq!(second.partial_cmp(&first), Some(Ordering::Greater));
    assert_eq!(first.partial_cmp(&first), Some(Ordering::Equal));
    assert_eq!(first.cmp(&second), Ordering::Less);
    assert_eq!(second.cmp(&first), Ordering::Greater);
    assert_eq!(second.cmp(&second), Ordering::Equal);
}

#[test]
fn a_clone_is_the_same_object() {
    let mut ids = IdAllocator::new();
    let a = Object::new(Ball { center: [0.0, 0.0, 0.0], radius: 1.0 }, &mut ids);
    let copy = a.clone();
    assert!(copy == a);
    assert_eq!(copy.id(), a.id());
    assert_eq!(digest(&copy), digest(&a));
    assert_eq!(Id::count(&ids), 1);
}

#[test]
fn an_object_hashes_as_its_identity() {
    let mut ids = IdAllocator::new();
    let a = Object::new(Plane, &mut ids);
    let b = Object::new(Plane, &mut ids);
    assert_eq!(digest(&a), digest(&a.id()));
    assert_eq!(digest(&b), digest(&b.id()));
    assert_eq!(digest(&a), digest(&0u64));
    assert_eq!(digest(&b), digest(&1u64));
}
