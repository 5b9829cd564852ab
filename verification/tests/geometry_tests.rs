use aseprite_packer::geometry::{is_addressable, Placement};

fn rect(x: u32, y: u32, width: u32, height: u32) -> Placement {
    Placement { x, y, width, height }
}

#[test]
fn rectangles_that_share_a_pixel_intersect() {
    let a = rect(0, 0, 10, 10);
    let b = rect(9, 9, 5, 5);
    assert!(a.intersects(&b));
    assert!(b.intersects(&a));
}

#[test]
fn rectangles_that_touch_do_not_intersect() {
    let a = rect(0, 0, 10, 10);
    assert!(!a.intersects(&rect(10, 0, 20, 5)));
    assert!(!a.intersects(&rect(0, 10, 10, 1)));
    assert!(!rect(10, 0, 20, 5).intersects(&a));
}

#[test]
fn a_rectangle_inside_another_intersects_it() {
    assert!(rect(0, 0, 100, 100).intersects(&rect(40, 40, 2, 2)));
    assert!(rect(40, 40, 2, 2).intersects(&rect(0, 0, 100, 100)));
}

#[test]
fn intersection_does_not_overflow_at_the_far_corner() {
    let a = rect(u32::MAX, u32::MAX, u32::MAX, u32::MAX);
    let b = rect(u32::MAX - 1, u32::MAX - 1, 1, 1);
    assert!(!a.intersects(&b));
    assert!(a.intersects(&rect(0, 0, u32::MAX, u32::MAX).clone()) == false);
    assert!(a.intersects(&a));
}

#[test]
fn fits_within_counts_the_far_edges() {
    assert!(rect(10, 0, 20, 5).fits_within(30, 5));
    assert!(!rect(10, 0, 20, 5).fits_within(29, 5));
    assert!(!rect(10, 0, 20, 5).fits_within(30, 4));
    assert!(rect(0, 0, 0, 0).fits_within(0, 0));
    assert!(!rect(u32::MAX, 0, 1, 1).fits_within(u32::MAX, u32::MAX));
}

#[test]
fn small_sheets_are_addressable() {
    assert!(is_addressable(0, 0));
    assert!(is_addressable(30, 10));
    assert!(is_addressable(4096, 4096));
}

#[test]
fn the_largest_sheet_is_not_addressable() {
    assert!(!is_addressable(u32::MAX, u32::MAX));
}
