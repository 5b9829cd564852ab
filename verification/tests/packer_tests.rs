use aseprite_packer::geometry::Placement;
use aseprite_packer::packer::{PackingOverflow, RectanglePacker};
use aseprite_packer::sheet::MAX_SPAN;

fn place(packer: RectanglePacker, name: &str, width: u32, height: u32) -> (RectanglePacker, Placement) {
    match packer.place(&name.to_string(), width, height) {
        Ok(placed) => placed,
        Err(overflow) => panic!("no room for {:?}", overflow),
    }
}

fn refuse(packer: RectanglePacker, name: &str, width: u32, height: u32) -> PackingOverflow {
    match packer.place(&name.to_string(), width, height) {
        Ok((_, spot)) => panic!("placed at {:?}", spot),
        Err(overflow) => overflow,
    }
}

fn pack_all(max_width: u32, max_height: u32, sizes: &[(u32, u32)]) -> (RectanglePacker, Vec<Placement>) {
    let mut packer = RectanglePacker::new(max_width, max_height);
    let mut spots = Vec::new();
    for (i, (width, height)) in sizes.iter().enumerate() {
        let (next, spot) = place(packer, &format!("r{}", i), *width, *height);
        packer = next;
        spots.push(spot);
    }
    (packer, spots)
}

const MIXED: [(u32, u32); 12] = [
    (10, 10), (20, 5), (3, 40), (7, 7), (64, 2), (1, 1),
    (16, 16), (5, 30), (30, 5), (12, 9), (2, 2), (25, 25),
];

#[test]
fn a_new_packer_spans_nothing() {
    let packer = RectanglePacker::new(256, 128);
    assert_eq!(packer.current_extent(), (0, 0));
    assert_eq!(packer.bounds(), (256, 128));
    assert!(packer.placements().is_empty());
}

#[test]
fn bounds_above_the_span_are_lowered_to_it() {
    let packer = RectanglePacker::new(u32::MAX, u32::MAX);
    assert_eq!(packer.bounds(), (MAX_SPAN, MAX_SPAN));
    assert_eq!(MAX_SPAN, 2147483647);
}

#[test]
fn the_first_rectangle_goes_to_the_origin() {
    let (packer, spot) = place(RectanglePacker::new(100, 100), "first", 10, 10);
    assert_eq!(spot, Placement { x: 0, y: 0, width: 10, height: 10 });
    assert_eq!(packer.current_extent(), (10, 10));
}

#[test]
fn two_rectangles_in_order_share_a_small_sheet() {
    let (packer, spots) = pack_all(u32::MAX, u32::MAX, &[(10, 10), (20, 5)]);
    assert_eq!((spots[0].width, spots[0].height), (10, 10));
    assert_eq!((spots[1].width, spots[1].height), (20, 5));
    assert!(!spots[0].intersects(&spots[1]));
    let (width, height) = packer.current_extent();
    assert!(20 <= width && width <= 30);
    assert!(10 <= height && height <= 15);
    assert!(width * height >= 200);
}

#[test]
fn the_skyline_puts_the_second_rectangle_beside_the_first() {
    let (packer, spots) = pack_all(u32::MAX, u32::MAX, &[(10, 10), (20, 5)]);
    assert_eq!(spots[0], Placement { x: 0, y: 0, width: 10, height: 10 });
    assert_eq!(spots[1], Placement { x: 10, y: 0, width: 20, height: 5 });
    assert_eq!(packer.current_extent(), (30, 10));
}

#[test]
fn a_narrow_sheet_stacks_rectangles() {
    let (packer, spots) = pack_all(20, 100, &[(10, 10), (20, 5)]);
    assert_eq!(spots[1], Placement { x: 0, y: 10, width: 20, height: 5 });
    assert_eq!(packer.current_extent(), (20, 15));
}

#[test]
fn a_rectangle_as_large_as_the_bounds_fits() {
    let (packer, spot) = place(RectanglePacker::new(10, 10), "all", 10, 10);
    assert_eq!(spot, Placement { x: 0, y: 0, width: 10, height: 10 });
    assert_eq!(packer.current_extent(), (10, 10));
}

#[test]
fn a_rectangle_wider_than_the_bound_overflows() {
    let overflow = refuse(RectanglePacker::new(16, 16), "wide", 17, 1);
    assert_eq!(overflow, PackingOverflow { identifier: "wide".to_string(), width: 17, height: 1 });
}

#[test]
fn a_rectangle_taller_than_the_bound_overflows() {
    let overflow = refuse(RectanglePacker::new(16, 16), "tall", 1, 17);
    assert_eq!(overflow, PackingOverflow { identifier: "tall".to_string(), width: 1, height: 17 });
}

#[test]
fn a_full_sheet_overflows() {
    let (packer, _) = place(RectanglePacker::new(10, 10), "all", 10, 10);
    let overflow = refuse(packer, "more", 1, 1);
    assert_eq!(overflow, PackingOverflow { identifier: "more".to_string(), width: 1, height: 1 });
}

#[test]
fn a_packer_without_room_places_nothing() {
    let overflow = refuse(RectanglePacker::new(0, 0), "any", 1, 1);
    assert_eq!(overflow.identifier, "any");
}

#[test]
fn a_rectangle_too_large_for_one_buffer_overflows() {
    let overflow = refuse(RectanglePacker::new(u32::MAX, u32::MAX), "huge", MAX_SPAN, MAX_SPAN);
    assert_eq!((overflow.width, overflow.height), (MAX_SPAN, MAX_SPAN));
}

#[test]
fn placements_never_overlap() {
    let (_, spots) = pack_all(u32::MAX, u32::MAX, &MIXED);
    for i in 0..spots.len() {
        for j in 0..spots.len() {
            if i != j {
                assert!(!spots[i].intersects(&spots[j]), "{:?} and {:?}", spots[i], spots[j]);
            }
        }
    }
}

#[test]
fn placements_never_overlap_on_a_bounded_sheet() {
    let (_, spots) = pack_all(64, 200, &MIXED);
    for i in 0..spots.len() {
        assert!(spots[i].fits_within(64, 200));
        for j in (i + 1)..spots.len() {
            assert!(!spots[i].intersects(&spots[j]), "{:?} and {:?}", spots[i], spots[j]);
        }
    }
}

#[test]
fn placements_lie_within_the_extent() {
    let (packer, spots) = pack_all(u32::MAX, u32::MAX, &MIXED);
    let (width, height) = packer.current_extent();
    let mut right = 0;
    let mut bottom = 0;
    for spot in &spots {
        assert!(spot.fits_within(width, height));
        right = right.max(spot.x + spot.width);
        bottom = bottom.max(spot.y + spot.height);
    }
    assert_eq!((width, height), (right, bottom));
}

#[test]
fn placements_echo_the_requested_size() {
    let (_, spots) = pack_all(u32::MAX, u32::MAX, &MIXED);
    for (spot, size) in spots.iter().zip(MIXED.iter()) {
        assert_eq!((spot.width, spot.height), *size);
    }
}

#[test]
fn the_packer_keeps_its_placements_in_order() {
    let (packer, spots) = pack_all(u32::MAX, u32::MAX, &MIXED);
    assert_eq!(packer.placements(), &spots);
}

#[test]
fn the_same_requests_give_the_same_placements() {
    let (_, first) = pack_all(128, 512, &MIXED);
    let (_, second) = pack_all(128, 512, &MIXED);
    assert_eq!(first, second);
}

#[test]
fn packing_depends_on_the_order_of_requests() {
    let (_, forward) = pack_all(u32::MAX, u32::MAX, &[(10, 10), (20, 5)]);
    let (_, backward) = pack_all(u32::MAX, u32::MAX, &[(20, 5), (10, 10)]);
    assert_eq!(backward[0], Placement { x: 0, y: 0, width: 20, height: 5 });
    assert_ne!(forward[1], backward[0]);
}

#[test]
fn the_extent_only_grows() {
    let mut packer = RectanglePacker::new(u32::MAX, u32::MAX);
    let mut last = (0, 0);
    for (i, (width, height)) in MIXED.iter().enumerate() {
        let (next, _) = place(packer, &format!("r{}", i), *width, *height);
        packer = next;
        let extent = packer.current_extent();
        assert!(extent.0 >= last.0 && extent.1 >= last.1);
        last = extent;
    }
}

#[test]
fn a_repeated_identifier_gets_a_rectangle_of_its_own() {
    let (packer, first) = place(RectanglePacker::new(100, 100), "same", 4, 4);
    let (_, second) = place(packer, "same", 4, 4);
    assert!(!first.intersects(&second));
}
