use saddle_ai_navmesh::{
    count_sources_per_surface, NavmeshBakeCounts, NavmeshBakeLifecycle, NavmeshBakeState, NavmeshPathId, NavmeshPathStatus,
    NavmeshRequestAction, NavmeshResultHeader,
};

fn counts(polygons: u32, portals: u32, links: u32) -> NavmeshBakeCounts {
    NavmeshBakeCounts { polygon_count: polygons, portal_count: portals, link_count: links }
}

#[test]
fn surface_bake_cycle_publishes_generation_one() {
    let mut lifecycle = NavmeshBakeLifecycle::default();
    assert_eq!(lifecycle.state, NavmeshBakeState::Dirty);
    assert!(lifecycle.ready_to_bake(true, false, true));
    assert!(!lifecycle.ready_to_bake(false, false, true));
    assert!(!lifecycle.ready_to_bake(true, true, true));
    assert!(!lifecycle.ready_to_bake(true, false, false));

    let generation = lifecycle.begin_bake();
    assert_eq!(generation, 1);
    assert_eq!(lifecycle.state, NavmeshBakeState::Baking);
    assert_eq!(lifecycle.generation, 0);

    assert!(!lifecycle.finish_bake_success(generation, counts(2, 1, 0), 1));
    assert_eq!(lifecycle.state, NavmeshBakeState::Ready);
    assert_eq!(lifecycle.generation, 1);
    assert_eq!(lifecycle.polygon_count, 2);
    assert_eq!(lifecycle.portal_count, 1);
    assert_eq!(lifecycle.source_count, 1);
    assert!(lifecycle.serves());
}

#[test]
fn changes_during_a_bake_queue_a_rebake() {
    let mut lifecycle = NavmeshBakeLifecycle::default();
    let generation = lifecycle.begin_bake();
    lifecycle.mark_dirty();
    assert_eq!(lifecycle.state, NavmeshBakeState::Baking);
    assert!(lifecycle.queued_rebake);
    assert!(lifecycle.finish_bake_success(generation, counts(2, 1, 0), 1));
    assert_eq!(lifecycle.state, NavmeshBakeState::Dirty);
    assert_eq!(lifecycle.generation, 1);
    assert!(lifecycle.is_queued(true));
}

#[test]
fn failed_bakes_keep_the_published_generation() {
    let mut lifecycle = NavmeshBakeLifecycle::default();
    let _ = lifecycle.begin_bake();
    lifecycle.finish_bake_failure(3);
    assert_eq!(lifecycle.state, NavmeshBakeState::Failed);
    assert_eq!(lifecycle.generation, 0);
    assert_eq!(lifecycle.source_count, 3);
    assert!(!lifecycle.is_queued(true));
    lifecycle.mark_dirty();
    assert_eq!(lifecycle.state, NavmeshBakeState::Dirty);
}

#[test]
fn source_count_changes_mark_surfaces_dirty() {
    let mut lifecycle = NavmeshBakeLifecycle::default();
    lifecycle.source_count = 2;
    lifecycle.state = NavmeshBakeState::Ready;
    assert!(lifecycle.sources_require_rebuild(true, 3));
    assert!(!lifecycle.sources_require_rebuild(true, 2));
    assert!(!lifecycle.sources_require_rebuild(false, 3));
    lifecycle.state = NavmeshBakeState::Empty;
    assert!(lifecycle.sources_require_rebuild(true, 2));
}

#[test]
fn results_refresh_after_a_new_generation() {
    let mut lifecycle = NavmeshBakeLifecycle::default();
    let generation = lifecycle.begin_bake();
    lifecycle.finish_bake_success(generation, counts(2, 1, 0), 1);
    let result = NavmeshResultHeader {
        request_id: NavmeshPathId(11),
        status: NavmeshPathStatus::Success,
        generation: 1,
    };
    assert!(!lifecycle.should_invalidate(result));
    assert!(!lifecycle.request_needs_update(NavmeshPathId(11), Some(result)));
    assert!(lifecycle.request_needs_update(NavmeshPathId(12), Some(result)));
    assert!(lifecycle.request_needs_update(NavmeshPathId(11), None));

    lifecycle.mark_dirty();
    assert!(lifecycle.should_invalidate(result));
    assert_eq!(lifecycle.request_action(true), NavmeshRequestAction::Wait);
    let generation = lifecycle.begin_bake();
    assert_eq!(generation, 2);
    lifecycle.finish_bake_success(generation, counts(2, 1, 0), 1);
    assert!(lifecycle.should_invalidate(result));
    let pending = NavmeshResultHeader { status: NavmeshPathStatus::Pending, ..result };
    assert!(!lifecycle.should_invalidate(pending));
    assert!(lifecycle.request_needs_update(NavmeshPathId(11), Some(pending)));
    assert_eq!(lifecycle.request_action(true), NavmeshRequestAction::RunQuery);
    assert_eq!(lifecycle.request_action(false), NavmeshRequestAction::InvalidSurface);
}

#[test]
fn sources_are_counted_per_surface() {
    let counts = count_sources_per_surface(&vec![7, 3, 7, 7, 9]);
    assert_eq!(counts.len(), 3);
    assert_eq!(counts.get(&7), Some(&3));
    assert_eq!(counts.get(&3), Some(&1));
    assert_eq!(counts.get(&9), Some(&1));
    assert_eq!(counts.get(&4), None);
    assert!(count_sources_per_surface(&Vec::new()).is_empty());
}
