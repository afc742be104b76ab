use mechanix_home::pages::{unique_count, Pages};

#[test]
fn compact_removes_holes() {
    let map = Pages::compact(&[0, 2, 2, 5]);
    assert_eq!(map.get(&0), Some(&0));
    assert_eq!(map.get(&2), Some(&1));
    assert_eq!(map.get(&5), Some(&2));
}

#[test]
fn spare_only_while_carrying() {
    let idle = Pages::default();
    assert_eq!(idle.count(&[0, 1], None), 2);
    assert_eq!(idle.count(&[], None), 1);

    let mut pages = Pages::default();
    pages.begin_lift(2);
    assert_eq!(pages.count(&[0, 1], Some(1)), 3);
    assert_eq!(pages.count(&[0, 1, 2], Some(2)), 3);
    pages.end_lift();
    assert_eq!(pages.count(&[0, 1], None), 2);
}

#[test]
fn compact_maps_only_occupied_pages() {
    let map = Pages::compact(&[7, 3]);
    assert_eq!(map.len(), 2);
    assert_eq!(map.get(&3), Some(&0));
    assert_eq!(map.get(&7), Some(&1));
    assert_eq!(map.get(&4), None);
    assert!(Pages::compact(&[]).is_empty());
}

#[test]
fn unique_count_ignores_repeats() {
    assert_eq!(unique_count(&[4, 4, 1, 4, 9]), 3);
    assert_eq!(unique_count(&[]), 0);
}

#[test]
fn nearby_is_current_and_neighbours() {
    let mut p = Pages::new();
    p.jump(3);
    assert_eq!(p.current(), 3);
    assert!(p.nearby(2) && p.nearby(3) && p.nearby(4));
    assert!(!p.nearby(1) && !p.nearby(5));
}

#[test]
fn offset_is_relative_to_current_page() {
    let mut p = Pages::new();
    p.jump(2);
    assert_eq!(p.offset(0, 1280), -2560);
    assert_eq!(p.offset(3, 1280), 1280);
}

#[test]
fn lift_keeps_page_count_for_carried_item() {
    let mut p = Pages::new();
    p.begin_lift(0);
    assert_eq!(p.lift_from, Some(1));
    assert_eq!(p.count(&[0], Some(0)), 2);
    p.end_lift();
    assert_eq!(p.lift_from, None);
}

#[test]
fn compacting_compacted_pages_is_the_identity() {
    let occupied = [9, 2, 5, 2, 9];
    let map = Pages::compact(&occupied);
    let renumbered: Vec<u32> = occupied.iter().map(|p| map[p]).collect();
    assert_eq!(renumbered, vec![2, 0, 1, 0, 2]);
    let again = Pages::compact(&renumbered);
    assert_eq!(again.len(), 3);
    for i in 0..3u32 {
        assert_eq!(again[&i], i);
    }
}
