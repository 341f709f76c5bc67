use raytracer::depth::secondary_depth;
use raytracer::scene::Scene;

#[test]
fn a_shape_has_a_parent_attribute() {
    let mut scene = Scene::new();
    let s = scene.add("shape");

    assert_eq!(scene.parent(s), None);
}

#[test]
fn creating_a_new_group() {
    let mut scene = Scene::new();
    let g = scene.add("group");

    assert!(scene.members(g).is_empty());
}

#[test]
fn adding_a_child_to_a_group() {
    let mut scene = Scene::new();
    let g = scene.add("group");

    let s = scene.add_child(g, "shape");

    assert!(!scene.members(g).is_empty());
    assert_eq!(scene.parent(s), Some(g));
    assert_eq!(scene.members(g), vec![s]);
}

#[test]
fn members_come_in_the_order_they_were_added() {
    let mut scene = Scene::new();
    let g = scene.add("group");
    let other = scene.add("other group");
    let a = scene.add_child(g, "a");
    let _ = scene.add_child(other, "x");
    let b = scene.add_child(g, "b");

    assert_eq!(scene.members(g), vec![a, b]);
    assert_eq!(scene.shapes[b], "b");
}

#[test]
fn lineage_climbs_to_the_top_level_group() {
    let mut scene = Scene::new();
    let outer = scene.add("outer");
    let inner = scene.add_child(outer, "inner");
    let leaf = scene.add_child(inner, "leaf");
    let loose = scene.add("loose");

    assert_eq!(scene.lineage(leaf), vec![leaf, inner, outer]);
    assert_eq!(scene.lineage(outer), vec![outer]);
    assert_eq!(scene.lineage(loose), vec![loose]);
}

#[test]
fn shapes_get_version_four_identifiers() {
    let mut scene = Scene::new();
    let a = scene.add(());
    let b = scene.add(());

    assert_eq!((scene.id(a) >> 76) & 0xF, 4);
    assert_eq!((scene.id(b) >> 76) & 0xF, 4);
    assert_ne!(scene.id(a), scene.id(b));
}

#[test]
fn no_secondary_ray_once_the_depth_is_spent() {
    assert_eq!(secondary_depth(0, true), None);
    assert_eq!(secondary_depth(0, false), None);
}

#[test]
fn no_secondary_ray_from_a_surface_that_does_not_take_part() {
    assert_eq!(secondary_depth(5, false), None);
}

#[test]
fn a_secondary_ray_gets_one_level_less() {
    assert_eq!(secondary_depth(5, true), Some(4));
    assert_eq!(secondary_depth(1, true), Some(0));
    assert_eq!(secondary_depth(u32::MAX, true), Some(u32::MAX - 1));
}
