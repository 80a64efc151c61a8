use raytracer::intersect::nearest_hit;
use raytracer::shade::{facing, occluded, step, Step, MAX_DEPTH};

#[test]
fn depth_limit_is_four() {
    assert_eq!(MAX_DEPTH, 4);
}

#[test]
fn primary_ray_that_hits_is_shaded() {
    assert_eq!(step(0, MAX_DEPTH, true), Step::Shade { child_depth: 1 });
    assert_eq!(step(1, MAX_DEPTH, true), Step::Shade { child_depth: 2 });
}

#[test]
fn ray_at_the_limit_is_still_shaded() {
    assert_eq!(step(4, MAX_DEPTH, true), Step::Shade { child_depth: 5 });
}

#[test]
fn ray_past_the_limit_ends_in_the_background() {
    assert_eq!(step(5, MAX_DEPTH, true), Step::Background);
    assert_eq!(step(usize::MAX, MAX_DEPTH, true), Step::Background);
}

#[test]
fn ray_that_misses_ends_in_the_background() {
    for depth in 0..7 {
        assert_eq!(step(depth, MAX_DEPTH, false), Step::Background);
    }
}

#[test]
fn miss_of_every_sphere_and_the_plane_is_background() {
    let hit = nearest_hit(&vec![None, None, None, None], None, 1000);
    assert_eq!(hit, None);
    assert_eq!(step(0, MAX_DEPTH, hit.is_some()), Step::Background);
}

#[test]
fn every_primary_ray_tree_has_at_most_sixty_three_rays() {
    fn rays(depth: usize, limit: usize) -> u32 {
        match step(depth, limit, true) {
            Step::Background => 1,
            Step::Shade { child_depth } => 1 + 2 * rays(child_depth, limit),
        }
    }
    assert_eq!(rays(0, MAX_DEPTH), 63);
    assert_eq!(rays(3, MAX_DEPTH), 7);
    assert_eq!(rays(5, MAX_DEPTH), 1);
    assert_eq!(rays(0, 0), 3);
}

#[test]
fn blocker_nearer_than_the_light_shadows_it() {
    assert!(occluded(Some(10), Some(11)));
    assert!(occluded(Some(0), Some(1)));
}

#[test]
fn blocker_at_or_behind_the_light_does_not_shadow_it() {
    assert!(!occluded(Some(11), Some(11)));
    assert!(!occluded(Some(12), Some(11)));
    assert!(!occluded(Some(0), Some(0)));
}

#[test]
fn no_blocker_no_shadow() {
    assert!(!occluded(None, Some(0)));
    assert!(!occluded(None, Some(u32::MAX)));
    assert!(!occluded(None, None));
    assert!(!occluded(Some(0), None));
}

#[test]
fn sphere_between_point_and_light_shadows_the_light() {
    let shadow_ray = nearest_hit(&vec![None, Some(25), Some(90)], None, 1000).unwrap();
    assert!(occluded(Some(shadow_ray.distance()), Some(60)));
    assert!(!occluded(Some(shadow_ray.distance()), Some(20)));
}

#[test]
fn depth_limit_is_a_parameter() {
    assert_eq!(step(2, 1, true), Step::Background);
    assert_eq!(step(1, 1, true), Step::Shade { child_depth: 2 });
    assert_eq!(step(0, 0, true), Step::Shade { child_depth: 1 });
    assert_eq!(step(9, 9, false), Step::Background);
}

#[test]
fn shadow_test_on_measured_distances() {
    let blocker = raytracer::key::distance_key(3.5f32.to_bits());
    let light = raytracer::key::distance_key(7.25f32.to_bits());
    assert!(occluded(blocker, light));
    assert!(!occluded(light, blocker));
    assert!(!occluded(blocker, raytracer::key::distance_key(f32::NAN.to_bits())));
}

fn lit(cosine: f32) -> f32 {
    f32::from_bits(facing(cosine.to_bits()))
}

#[test]
fn surface_that_faces_the_light_is_lit_by_the_cosine() {
    assert_eq!(lit(1.), 1.);
    assert_eq!(lit(0.5), 0.5);
    assert_eq!(lit(1e-45), 1e-45);
}

#[test]
fn surface_that_faces_away_is_dark() {
    assert_eq!(lit(0.), 0.);
    assert_eq!(lit(-0.), 0.);
    assert_eq!(lit(-0.5), 0.);
    assert_eq!(lit(-1.), 0.);
    assert_eq!(lit(f32::NAN), 0.);
}

#[test]
fn light_falls_off_as_the_surface_tilts_away() {
    // A light straight above a sphere: the cosine between the normal and the
    // light falls as the normal tilts from the pole to the equator and below.
    let mut last = f32::INFINITY;
    for degrees in [0f32, 10., 20., 30., 45., 60., 75., 89.] {
        let now = lit(degrees.to_radians().cos());
        assert!(now < last);
        assert_eq!(now, degrees.to_radians().cos().max(0.));
        last = now;
    }
    for degrees in [91f32, 120., 180.] {
        assert_eq!(lit(degrees.to_radians().cos()), 0.);
    }
}
