use qd2::viewer::head_map::{clamp_to_console, compute_head_map, map_abs_position, HeadMap};

#[test]
fn single_head_has_no_map() {
    assert!(compute_head_map(&[(0, 1920, 1080)], &[], 0).is_none());
}

#[test]
fn auto_layout_places_heads_left_to_right() {
    let sizes = [(1, 1280, 1024), (0, 2560, 1440)];
    let head0 = compute_head_map(&sizes, &[], 0).unwrap();
    let head1 = compute_head_map(&sizes, &[], 1).unwrap();
    // head 0 at origin, head 1 to its right; total spans both
    assert_eq!((head0.offset_x, head0.offset_y), (0, 0));
    assert_eq!((head1.offset_x, head1.offset_y), (2560, 0));
    assert_eq!((head0.total_width, head0.total_height), (3840, 1440));
    // clicking the right edge of head 1 lands on the right edge of the desktop
    let (x, _) = map_abs_position(&head1, 1279, 0);
    assert_eq!((2560 + 1279) * 1280 / 3840, i64::from(x));
    // clicking the middle of head 0 stays in head 0's half
    let (x, y) = map_abs_position(&head0, 1280, 720);
    assert_eq!((x, y), (1280 * 2560 / 3840, 720 * 1440 / 1440));
}

#[test]
fn explicit_layout_overrides_auto_placement() {
    let sizes = [(0, 1920, 1080), (1, 1920, 1080)];
    let head1 = compute_head_map(&sizes, &[(1, 0, 1080)], 1).unwrap(); // stacked below
    assert_eq!((head1.offset_x, head1.offset_y), (0, 1080));
    assert_eq!((head1.total_width, head1.total_height), (1920, 2160));
    let (x, y) = map_abs_position(&head1, 100, 100);
    assert_eq!((x, y), (100, (1080 + 100) * 1080 / 2160));
}

#[test]
fn positions_beyond_a_head_continue_onto_the_neighbor() {
    let sizes = [(0, 2560, 1440), (1, 1280, 1024)];
    let head0 = compute_head_map(&sizes, &[], 0).unwrap();
    // 100px past head 0's right edge = 100px into head 1 (global 2660 of 3840)
    let (x, _) = map_abs_position(&head0, 2660, 100);
    assert_eq!(i64::from(x), 2660 * 2560 / 3840);
    assert!(
        x < 2560,
        "pre-scaled position must satisfy QEMU's range check"
    );
    // far left of head 1 = clamped to the desktop's left edge
    let head1 = compute_head_map(&sizes, &[], 1).unwrap();
    assert_eq!(map_abs_position(&head1, -5000, 10).0, 0);
}

#[test]
fn single_head_positions_are_clamped_to_the_console() {
    assert_eq!(clamp_to_console(Some((640, 480)), -7, 500), (0, 479));
    assert_eq!(clamp_to_console(Some((640, 480)), 100, 100), (100, 100));
    assert_eq!(clamp_to_console(None, -3, 9), (0, 9));
}

#[test]
fn mapped_positions_stay_inside_the_console() {
    let sizes = [(0, 1000, 500), (1, 1000, 500)];
    let head1 = compute_head_map(&sizes, &[], 1).unwrap();
    let (x, y) = map_abs_position(&head1, 999, 499);
    assert!(x < 1000 && y < 500);
}

#[test]
fn own_console_must_be_listed() {
    let sizes = [(0, 1000, 500), (1, 1000, 500)];
    assert!(compute_head_map(&sizes, &[], 2).is_none());
    assert!(compute_head_map(&[], &[], 0).is_none());
}

#[test]
fn unnamed_heads_follow_named_ones() {
    // Head 1 is put far right; head 2 comes behind it, head 0 stays at the origin.
    let sizes = [(2, 10, 30), (0, 100, 50), (1, 200, 60)];
    let explicit = [(1, 1000, -5), (1, 7, 7)];
    let maps: Vec<HeadMap> =
        (0..3).map(|id| compute_head_map(&sizes, &explicit, id).unwrap()).collect();
    assert_eq!((maps[0].offset_x, maps[0].offset_y), (0, 0));
    assert_eq!((maps[1].offset_x, maps[1].offset_y), (1000, -5));
    assert_eq!((maps[2].offset_x, maps[2].offset_y), (1200, 0));
    for map in &maps {
        assert_eq!((map.total_width, map.total_height), (1210, 55));
    }
    // All of them to the left of the origin: nothing is at 0 or right of it.
    let sizes = [(0, 10, 10), (1, 10, 10)];
    let map = compute_head_map(&sizes, &[(0, -100, 0), (1, -50, 0)], 0).unwrap();
    assert_eq!((map.offset_x, map.total_width), (-100, -40));
    assert_eq!(map_abs_position(&map, -3, 7_000_000_000), (0, 2_705_032_704));
}

#[test]
fn listing_order_does_not_matter() {
    let a = [(3, 30, 3), (1, 10, 1), (2, 20, 2)];
    let b = [(1, 10, 1), (2, 20, 2), (3, 30, 3)];
    for id in 0..4 {
        assert_eq!(compute_head_map(&a, &[], id), compute_head_map(&b, &[], id));
    }
    // Of heads with one id the one that is listed first counts.
    let twice = [(5, 11, 1), (4, 7, 7), (5, 22, 2)];
    let map = compute_head_map(&twice, &[], 5).unwrap();
    assert_eq!((map.offset_x, map.width, map.height, map.total_width), (7, 11, 1, 40));
}

#[test]
fn mapping_lands_and_keeps_the_direction() {
    let sizes = [(0, 1366, 768), (1, 1920, 1080), (2, 1280, 1024)];
    let map = compute_head_map(&sizes, &[(2, -300, 900)], 1).unwrap();
    let mut before = 0;
    for x in -3000..4000i64 {
        let (mx, my) = map_abs_position(&map, x, 5);
        let global = (map.offset_x + x).clamp(0, map.total_width - 1);
        assert!(i64::from(mx) * map.total_width <= global * map.width);
        assert!(global * map.width < (i64::from(mx) + 1) * map.total_width);
        assert!(mx < 1920 && my < 1080 && mx >= before);
        before = mx;
    }
}

#[test]
fn a_console_that_is_the_whole_desktop_is_left_alone() {
    let map = HeadMap {
        offset_x: 0,
        offset_y: 0,
        width: 640,
        height: 480,
        total_width: 640,
        total_height: 480,
    };
    assert_eq!(map_abs_position(&map, 0, 0), (0, 0));
    assert_eq!(map_abs_position(&map, 639, 479), (639, 479));
    assert_eq!(map_abs_position(&map, 123, 45), (123, 45));
    assert_eq!(map_abs_position(&map, -1, 480), (0, 479));
}

#[test]
fn positions_far_outside_are_moved_into_the_desktop() {
    let sizes = [(0, u32::MAX, 1), (1, u32::MAX, 1)];
    let map = compute_head_map(&sizes, &[], 1).unwrap();
    assert_eq!(map_abs_position(&map, 0, 0), (u32::MAX / 2, 0));
    assert_eq!(map_abs_position(&map, i64::MAX, 0), (u32::MAX - 1, 0));
    assert_eq!(map_abs_position(&map, i64::MIN, i64::MIN), (0, 0));
    let empty = compute_head_map(&[(0, 0, 10), (1, 10, 10)], &[], 0).unwrap();
    assert_eq!(map_abs_position(&empty, 4, -4), (4, 0));
}

#[test]
fn console_without_pixels_only_loses_negative_positions() {
    assert_eq!(clamp_to_console(Some((0, 480)), -3, 9), (0, 9));
    assert_eq!(clamp_to_console(Some((640, 0)), 4_294_967_297, -9), (1, 0));
}

#[test]
fn desktop_ends_where_its_heads_end() {
    // Head 2 is not named: it starts at the largest edge before it, which is head 0's.
    let sizes = [(0, 1000, 500), (1, 100, 900), (2, 300, 200)];
    let head2 = compute_head_map(&sizes, &[(1, 0, 50)], 2).unwrap();
    assert_eq!((head2.offset_x, head2.offset_y), (1000, 0));
    assert_eq!((head2.total_width, head2.total_height), (1300, 950));
    // Where the others end left of the origin, it starts at the origin.
    let head2 = compute_head_map(&sizes, &[(0, -2000, 0), (1, -200, 0)], 2).unwrap();
    assert_eq!((head2.offset_x, head2.offset_y), (0, 0));
    assert_eq!((head2.total_width, head2.total_height), (300, 900));
}
