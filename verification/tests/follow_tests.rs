use saddle_ai_navmesh::{
    advance_waypoint_index, NavmeshFollowProgress, NavmeshPathId, NavmeshPathIdCounter,
    NavmeshPathStatus, NavmeshResultHeader,
};

/// The waypoint tests of a path along the x axis through 0, 1 and 3, for a follower at `x`.
fn predicates(x: f32, waypoint_distance: f32, overshoot_distance: f32) -> (Vec<bool>, Vec<bool>) {
    let points = [0.0_f32, 1.0, 3.0];
    let close = points.iter().map(|p| (x - p).abs() <= waypoint_distance).collect();
    let overshot = (0..points.len())
        .map(|i| {
            if i == 0 {
                return false;
            }
            let segment = points[i] - points[i - 1];
            let length = segment.abs();
            length > f32::EPSILON && (x - points[i - 1]) * (segment / length) > length + overshoot_distance
        })
        .collect();
    (close, overshot)
}

#[test]
fn waypoint_advance_skips_close_points() {
    let (close, overshot) = predicates(0.9, 0.25, 0.1);
    assert_eq!(advance_waypoint_index(3, 1, &close, &overshot), 2);
}

#[test]
fn waypoint_advance_handles_overshoot() {
    let (close, overshot) = predicates(1.3, 0.1, 0.15);
    assert_eq!(advance_waypoint_index(3, 1, &close, &overshot), 2);
}

#[test]
fn waypoint_advance_stops_at_first_unpassed_point_and_clamps() {
    let close = vec![true, false, true, true];
    let overshot = vec![false, false, false, false];
    assert_eq!(advance_waypoint_index(4, 0, &close, &overshot), 1);
    assert_eq!(advance_waypoint_index(4, 2, &close, &overshot), 3);
    assert_eq!(advance_waypoint_index(4, 9, &close, &overshot), 3);
    assert_eq!(advance_waypoint_index(0, 5, &Vec::new(), &Vec::new()), 0);
    // Overshooting the first point does not count: there is no segment ending at it.
    assert_eq!(advance_waypoint_index(2, 0, &vec![false, false], &vec![true, false]), 0);
}

fn header(request: u64, status: NavmeshPathStatus, generation: u64) -> NavmeshResultHeader {
    NavmeshResultHeader { request_id: NavmeshPathId(request), status, generation }
}

#[test]
fn fresh_follower_requests_a_path() {
    let progress = NavmeshFollowProgress::default();
    assert!(progress.stale_path);
    assert!(progress.needs_repath(false, None, None, 0, false));
}

#[test]
fn follower_repaths_on_generation_change_but_not_while_pending() {
    let mut progress = NavmeshFollowProgress::default();
    progress.begin_repath(NavmeshPathId(4));
    assert_eq!(progress.current_request_id, NavmeshPathId(4));
    assert!(!progress.stale_path && progress.has_resolved_target);

    let result = header(4, NavmeshPathStatus::Success, 1);
    assert!(!progress.needs_repath(false, None, Some(result), 1, false));
    assert!(progress.needs_repath(false, None, Some(result), 2, false));
    assert!(!progress.needs_repath(false, Some(NavmeshPathId(4)), Some(result), 2, false));
    assert!(progress.needs_repath(true, Some(NavmeshPathId(4)), Some(result), 1, false));
    assert!(progress.needs_repath(false, None, Some(result), 1, true));
    let unreachable = header(4, NavmeshPathStatus::Unreachable, 1);
    assert!(progress.needs_repath(false, None, Some(unreachable), 1, false));
}

#[test]
fn follower_adopts_new_paths_and_marks_stale_generations() {
    let mut progress = NavmeshFollowProgress::default();
    progress.begin_repath(NavmeshPathId(7));

    assert!(!progress.adopt_result(None, true, None));
    assert!(progress.stale_path);
    assert!(!progress.adopt_result(Some(header(6, NavmeshPathStatus::Success, 1)), true, Some(3)));
    assert!(!progress.adopt_result(Some(header(7, NavmeshPathStatus::Success, 1)), false, Some(3)));
    assert!(!progress.adopt_result(Some(header(7, NavmeshPathStatus::Success, 1)), true, Some(0)));

    progress.begin_repath(NavmeshPathId(7));
    assert!(progress.adopt_result(Some(header(7, NavmeshPathStatus::Partial, 1)), true, Some(3)));
    assert_eq!(progress.waypoint_index, 1);
    assert_eq!(progress.active_path_request_id, NavmeshPathId(7));
    assert_eq!(progress.active_generation, 1);

    progress.waypoint_index = 2;
    assert!(progress.adopt_result(Some(header(7, NavmeshPathStatus::Success, 1)), true, Some(3)));
    assert_eq!(progress.waypoint_index, 2);

    assert!(!progress.finish_step(false, 1, 2));
    assert!(progress.stale_path && !progress.reached_goal);
    assert!(progress.finish_step(true, 1, 2));
    assert!(!progress.stale_path && progress.reached_goal);
}

#[test]
fn request_ids_count_up_from_one() {
    let mut counter = NavmeshPathIdCounter::default();
    assert_eq!(counter.next_id(), NavmeshPathId(1));
    assert_eq!(counter.next_id(), NavmeshPathId(2));
    assert_eq!(counter.last, 2);
}
