use saddle_ai_navmesh::{find_area_cost, NavmeshArea, NavmeshAreaMask, NavmeshFilterMasks};

#[test]
fn area_masks_ignore_out_of_range_areas_instead_of_shifting_invalid_bits() {
    let mask = NavmeshAreaMask::from_area(NavmeshArea(63));
    assert!(mask.contains_area(NavmeshArea(63)));

    let out_of_range = NavmeshAreaMask::from_area(NavmeshArea(64));
    assert_eq!(out_of_range, NavmeshAreaMask::empty());
    assert!(!out_of_range.contains_area(NavmeshArea(64)));
}

#[test]
fn single_area_mask_holds_only_its_area() {
    let mask = NavmeshAreaMask::from_area(NavmeshArea(5));
    assert_eq!(mask.0, 32);
    assert!(mask.contains_area(NavmeshArea(5)));
    assert!(!mask.contains_area(NavmeshArea(4)));
    assert!(!mask.contains_area(NavmeshArea(6)));
    assert_eq!(NavmeshAreaMask::from_area(NavmeshArea(0)).0, 1);
    assert_eq!(NavmeshAreaMask::from_area(NavmeshArea(255)).0, 0);
}

#[test]
fn all_and_empty_masks() {
    let all = NavmeshAreaMask::all();
    assert_eq!(all.0, u64::MAX);
    assert_eq!(NavmeshAreaMask::default(), all);
    assert!(all.contains_area(NavmeshArea(0)));
    assert!(all.contains_area(NavmeshArea(63)));
    assert!(!all.contains_area(NavmeshArea(64)));
    let empty = NavmeshAreaMask::empty();
    assert!(!empty.contains_area(NavmeshArea(0)));
    assert!(!empty.intersects(all));
}

#[test]
fn union_holds_areas_of_both_masks() {
    let a = NavmeshAreaMask::from_area(NavmeshArea(1));
    let b = NavmeshAreaMask::from_area(NavmeshArea(2));
    let both = a.union(b);
    assert_eq!(both.0, 6);
    assert!(both.contains_area(NavmeshArea(1)));
    assert!(both.contains_area(NavmeshArea(2)));
    assert!(!both.contains_area(NavmeshArea(3)));
    assert!(both.intersects(a) && a.intersects(both));
    assert!(!a.intersects(b) && !b.intersects(a));
}

#[test]
fn filter_masks_gate_areas_and_links() {
    let filter = NavmeshFilterMasks {
        mask: NavmeshAreaMask::from_area(NavmeshArea(0)),
        link_mask: NavmeshAreaMask::empty(),
    };
    assert!(filter.allows_area(NavmeshAreaMask::all()));
    assert!(filter.allows_area(NavmeshAreaMask::from_area(NavmeshArea(0))));
    assert!(!filter.allows_area(NavmeshAreaMask::from_area(NavmeshArea(1))));
    assert!(!filter.allows_link(NavmeshAreaMask::all()));
    let open = NavmeshFilterMasks::default();
    assert!(open.allows_link(NavmeshAreaMask::from_area(NavmeshArea(9))));
}

#[test]
fn first_matching_area_cost_entry_wins() {
    let areas = vec![NavmeshArea(3), NavmeshArea(1), NavmeshArea(3)];
    assert_eq!(find_area_cost(&areas, NavmeshArea(3)), Some(0));
    assert_eq!(find_area_cost(&areas, NavmeshArea(1)), Some(1));
    assert_eq!(find_area_cost(&areas, NavmeshArea(2)), None);
    assert_eq!(find_area_cost(&Vec::new(), NavmeshArea(0)), None);
}
