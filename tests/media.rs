use raytracer::media::{refraction_media, Media};
use raytracer::scene::Scene;

// Three glass spheres: `a` of index 1.5 holds `b` (2.0) and `c` (2.5), which
// overlap. A ray along z meets, in order: a, b, c, b, c, a.
fn concentric() -> (Scene<f64>, Vec<u128>) {
    let mut scene = Scene::new();
    let a = scene.add(1.5);
    let b = scene.add(2.0);
    let c = scene.add(2.5);
    let ids = vec![scene.id(a), scene.id(b), scene.id(c), scene.id(b), scene.id(c), scene.id(a)];
    (scene, ids)
}

fn index_of(scene: &Scene<f64>, medium: Option<u128>) -> f64 {
    match medium {
        None => 1.0,
        Some(id) => {
            let i = scene.ids.iter().position(|x| *x == id).unwrap();
            scene.shapes[i]
        }
    }
}

fn check(hit: usize, n1: f64, n2: f64) {
    let (scene, ids) = concentric();

    let Media { from, to } = refraction_media(&ids, hit);

    assert!((index_of(&scene, from) - n1).abs() < 1e-4);
    assert!((index_of(&scene, to) - n2).abs() < 1e-4);
}

#[test]
fn find_ns_0() {
    check(0, 1.0, 1.5);
}

#[test]
fn find_ns_1() {
    check(1, 1.5, 2.0);
}

#[test]
fn find_ns_2() {
    check(2, 2.0, 2.5);
}

#[test]
fn find_ns_3() {
    check(3, 2.5, 2.5);
}

#[test]
fn find_ns_4() {
    check(4, 2.5, 1.5);
}

#[test]
fn find_ns_5() {
    check(5, 1.5, 1.0);
}

#[test]
fn entering_and_leaving_one_object() {
    let ids = vec![7u128, 7];

    let enter = refraction_media(&ids, 0);
    let leave = refraction_media(&ids, 1);

    assert_eq!((enter.from, enter.to), (None, Some(7)));
    assert_eq!((leave.from, leave.to), (Some(7), None));
}

#[test]
fn leaving_an_object_that_is_not_on_top() {
    // Enter 1, enter 2, leave 1: the ray is then inside 2 only.
    let ids = vec![1u128, 2, 1, 2];

    let m = refraction_media(&ids, 2);

    assert_eq!((m.from, m.to), (Some(2), Some(2)));
    let last = refraction_media(&ids, 3);
    assert_eq!((last.from, last.to), (Some(2), None));
}

#[test]
fn later_intersections_do_not_matter() {
    let short = vec![4u128, 5];
    let long = vec![4u128, 5, 6, 4, 5, 6];

    let a = refraction_media(&short, 1);
    let b = refraction_media(&long, 1);

    assert_eq!((a.from, a.to), (b.from, b.to));
    assert_eq!((b.from, b.to), (Some(4), Some(5)));
}
