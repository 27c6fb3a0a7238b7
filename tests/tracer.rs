use ray_tracing::{bounce_depth, in_shadow, light_contributes, nearest_hit, MAX_DEPTH};

#[test]
fn spent_ray_is_not_traced() {
    assert_eq!(bounce_depth(0), None);
}

#[test]
fn each_bounce_spends_one_level() {
    assert_eq!(bounce_depth(MAX_DEPTH), Some(2));
    assert_eq!(bounce_depth(1), Some(0));
    assert_eq!(bounce_depth(u32::MAX), Some(u32::MAX - 1));
}

#[test]
fn no_spheres_no_hit() {
    assert_eq!(nearest_hit(&vec![]), None);
}

#[test]
fn all_missed_no_hit() {
    assert_eq!(nearest_hit(&vec![None, None, None]), None);
}

#[test]
fn nearest_of_several_hits() {
    assert_eq!(nearest_hit(&vec![Some(9), None, Some(4), Some(7)]), Some(2));
}

#[test]
fn first_of_equally_near_hits() {
    assert_eq!(nearest_hit(&vec![None, Some(5), Some(3), Some(3)]), Some(2));
}

#[test]
fn single_hit_is_nearest() {
    assert_eq!(nearest_hit(&vec![None, None, Some(u32::MAX)]), Some(2));
}

#[test]
fn float_distances_order_as_their_bits() {
    let ts: [f32; 4] = [2.5, 0.0, 1.25, 7.0];
    let hits: Vec<Option<u32>> = ts
        .iter()
        .map(|t| if *t > 0.0 { Some(t.to_bits()) } else { None })
        .collect();
    assert_eq!(nearest_hit(&hits), Some(2));
}

#[test]
fn shaded_sphere_casts_no_shadow_on_itself() {
    assert!(!in_shadow(&vec![true, false, false], 0));
}

#[test]
fn other_sphere_casts_shadow() {
    assert!(in_shadow(&vec![false, false, true], 0));
    assert!(in_shadow(&vec![true, true], 1));
}

#[test]
fn empty_scene_has_no_shadow() {
    assert!(!in_shadow(&vec![], 0));
}

#[test]
fn occluder_removes_light() {
    assert!(!light_contributes(&vec![false, true], 0, true));
    assert!(!light_contributes(&vec![false, true], 0, false));
}

#[test]
fn removing_occluder_restores_light() {
    assert!(light_contributes(&vec![false, false], 0, true));
}

#[test]
fn light_behind_surface_adds_nothing() {
    assert!(!light_contributes(&vec![false, false], 0, false));
}
