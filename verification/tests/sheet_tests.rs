use aseprite_packer::geometry::Placement;
use aseprite_packer::sheet::{Sheet, MAX_SPAN};

fn rect(x: u32, y: u32, width: u32, height: u32) -> Placement {
    Placement { x, y, width, height }
}

fn sheet_with(max_width: u32, max_height: u32, spots: &[Placement]) -> Sheet {
    let mut sheet = Sheet::new(max_width, max_height);
    for spot in spots {
        assert!(sheet.accept(*spot, spot.width, spot.height));
    }
    sheet
}

#[test]
fn a_new_sheet_is_empty() {
    let sheet = Sheet::new(40, 30);
    assert_eq!(sheet.bounds(), (40, 30));
    assert_eq!(sheet.current_extent(), (0, 0));
    assert!(sheet.placements().is_empty());
}

#[test]
fn a_sheet_lowers_its_bounds_to_the_span() {
    assert_eq!(Sheet::new(u32::MAX, 5).bounds(), (MAX_SPAN, 5));
    assert_eq!(Sheet::new(MAX_SPAN, MAX_SPAN + 1).bounds(), (MAX_SPAN, MAX_SPAN));
}

#[test]
fn a_free_spot_of_the_right_size_is_admitted() {
    let sheet = sheet_with(40, 30, &[rect(0, 0, 10, 10)]);
    assert!(sheet.admits(&rect(10, 0, 20, 5), 20, 5));
    assert!(sheet.admits(&rect(0, 10, 40, 20), 40, 20));
}

#[test]
fn a_spot_of_another_size_is_not_admitted() {
    let sheet = Sheet::new(40, 30);
    assert!(!sheet.admits(&rect(0, 0, 5, 20), 20, 5));
    assert!(!sheet.admits(&rect(0, 0, 20, 4), 20, 5));
    assert!(!sheet.admits(&rect(0, 0, 21, 5), 20, 5));
}

#[test]
fn an_empty_spot_is_not_admitted() {
    let sheet = Sheet::new(40, 30);
    assert!(!sheet.admits(&rect(0, 0, 0, 5), 0, 5));
    assert!(!sheet.admits(&rect(3, 3, 5, 0), 5, 0));
}

#[test]
fn a_spot_that_leaves_the_bounds_is_not_admitted() {
    let sheet = Sheet::new(40, 30);
    assert!(sheet.admits(&rect(20, 25, 20, 5), 20, 5));
    assert!(!sheet.admits(&rect(21, 25, 20, 5), 20, 5));
    assert!(!sheet.admits(&rect(20, 26, 20, 5), 20, 5));
    assert!(!sheet.admits(&rect(u32::MAX, u32::MAX, 20, 5), 20, 5));
}

#[test]
fn a_spot_that_collides_is_not_admitted() {
    let sheet = sheet_with(40, 30, &[rect(0, 0, 10, 10), rect(10, 0, 20, 5)]);
    assert!(!sheet.admits(&rect(9, 9, 4, 4), 4, 4));
    assert!(!sheet.admits(&rect(29, 4, 4, 4), 4, 4));
    assert!(!sheet.admits(&rect(0, 0, 40, 30), 40, 30));
    assert!(sheet.admits(&rect(10, 5, 4, 4), 4, 4));
    assert!(sheet.is_clear(&rect(10, 5, 4, 4)));
    assert!(!sheet.is_clear(&rect(9, 9, 4, 4)));
}

#[test]
fn a_spot_that_makes_the_canvas_too_large_is_not_admitted() {
    let sheet = sheet_with(u32::MAX, u32::MAX, &[rect(0, 0, MAX_SPAN, 1)]);
    assert!(sheet.admits(&rect(0, 1, 1, 1), 1, 1));
    assert!(!sheet.admits(&rect(0, MAX_SPAN - 1, 1, 1), 1, 1));
}

#[test]
fn an_accepted_spot_joins_the_sheet() {
    let mut sheet = Sheet::new(40, 30);
    assert!(sheet.accept(rect(0, 0, 10, 10), 10, 10));
    assert!(sheet.accept(rect(10, 0, 20, 5), 20, 5));
    assert_eq!(sheet.placements(), &vec![rect(0, 0, 10, 10), rect(10, 0, 20, 5)]);
    assert_eq!(sheet.current_extent(), (30, 10));
}

#[test]
fn a_refused_spot_leaves_the_sheet_as_it_was() {
    let mut sheet = sheet_with(40, 30, &[rect(0, 0, 10, 10)]);
    let before = sheet.clone();
    assert!(!sheet.accept(rect(5, 5, 10, 10), 10, 10));
    assert!(!sheet.accept(rect(35, 0, 10, 10), 10, 10));
    assert!(!sheet.accept(rect(10, 0, 10, 10), 10, 11));
    assert_eq!(sheet, before);
}

#[test]
fn the_extent_is_the_far_corner_of_the_sheet() {
    let sheet = sheet_with(100, 100, &[rect(50, 0, 7, 3), rect(0, 60, 2, 9), rect(10, 10, 5, 5)]);
    assert_eq!(sheet.current_extent(), (57, 69));
}
