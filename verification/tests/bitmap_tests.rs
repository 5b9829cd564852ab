use aseprite_packer::bitmap::Bitmap;
use aseprite_packer::geometry::Placement;

fn numbered(width: u32, height: u32) -> Bitmap {
    let mut pixels = Vec::new();
    for y in 0..height {
        for x in 0..width {
            pixels.push(x as u8);
            pixels.push(y as u8);
            pixels.push((x + y) as u8);
            pixels.push(255);
        }
    }
    Bitmap { width, height, pixels }
}

fn with_solid(width: u32, height: u32, solid: &[(u32, u32)]) -> Bitmap {
    let mut bitmap = Bitmap::blank(width, height);
    for (x, y) in solid {
        let at = ((y * width + x) * 4) as usize;
        bitmap.pixels[at] = 200;
        bitmap.pixels[at + 3] = 1;
    }
    bitmap
}

#[test]
fn a_blank_bitmap_is_all_zero() {
    let bitmap = Bitmap::blank(3, 2);
    assert_eq!(bitmap, Bitmap { width: 3, height: 2, pixels: vec![0; 24] });
    assert!(bitmap.is_well_formed());
}

#[test]
fn a_blank_bitmap_without_pixels_is_empty() {
    let bitmap = Bitmap::blank(0, 0);
    assert_eq!(bitmap, Bitmap { width: 0, height: 0, pixels: vec![] });
    assert!(Bitmap::blank(5, 0).pixels.is_empty());
}

#[test]
fn well_formed_means_four_bytes_per_pixel() {
    assert!(Bitmap { width: 2, height: 2, pixels: vec![0; 16] }.is_well_formed());
    assert!(!Bitmap { width: 2, height: 2, pixels: vec![0; 15] }.is_well_formed());
    assert!(!Bitmap { width: 2, height: 2, pixels: vec![0; 17] }.is_well_formed());
    assert!(!Bitmap { width: 2, height: 2, pixels: vec![0; 20] }.is_well_formed());
    assert!(!Bitmap { width: 0, height: 7, pixels: vec![0; 4] }.is_well_formed());
    assert!(!Bitmap { width: u32::MAX, height: u32::MAX, pixels: vec![0; 4] }.is_well_formed());
}

#[test]
fn channels_are_read_row_by_row() {
    let bitmap = numbered(4, 3);
    assert_eq!(bitmap.channel(0, 0, 0), 0);
    assert_eq!(bitmap.channel(3, 2, 0), 3);
    assert_eq!(bitmap.channel(3, 2, 1), 2);
    assert_eq!(bitmap.channel(3, 2, 2), 5);
    assert_eq!(bitmap.channel(1, 2, 3), 255);
}

#[test]
fn clear_columns_and_rows_hold_no_alpha() {
    let bitmap = with_solid(4, 3, &[(1, 2)]);
    assert!(bitmap.is_column_clear(0));
    assert!(!bitmap.is_column_clear(1));
    assert!(bitmap.is_column_clear(2));
    assert!(bitmap.is_row_clear(0));
    assert!(bitmap.is_row_clear(1));
    assert!(!bitmap.is_row_clear(2));
}

#[test]
fn a_blank_bitmap_has_no_content_box() {
    assert_eq!(Bitmap::blank(5, 4).content_box(), None);
    assert_eq!(Bitmap::blank(0, 0).content_box(), None);
    assert_eq!(Bitmap::blank(0, 3).content_box(), None);
}

#[test]
fn the_content_box_of_one_pixel_is_that_pixel() {
    let bitmap = with_solid(5, 4, &[(3, 1)]);
    assert_eq!(bitmap.content_box(), Some(Placement { x: 3, y: 1, width: 1, height: 1 }));
}

#[test]
fn the_content_box_spans_the_outermost_pixels() {
    let bitmap = with_solid(8, 8, &[(2, 5), (6, 1), (4, 3)]);
    assert_eq!(bitmap.content_box(), Some(Placement { x: 2, y: 1, width: 5, height: 5 }));
}

#[test]
fn the_content_box_of_a_full_bitmap_is_all_of_it() {
    assert_eq!(numbered(6, 3).content_box(), Some(Placement { x: 0, y: 0, width: 6, height: 3 }));
}

#[test]
fn colour_without_alpha_is_no_content() {
    let mut bitmap = Bitmap::blank(2, 2);
    bitmap.pixels[0] = 255;
    bitmap.pixels[1] = 255;
    bitmap.pixels[2] = 255;
    assert_eq!(bitmap.content_box(), None);
}

#[test]
fn a_region_copies_its_pixels() {
    let bitmap = numbered(5, 4);
    let tile = bitmap.region(&Placement { x: 1, y: 2, width: 3, height: 2 });
    assert_eq!((tile.width, tile.height), (3, 2));
    assert_eq!(
        tile.pixels,
        vec![
            1, 2, 3, 255, 2, 2, 4, 255, 3, 2, 5, 255,
            1, 3, 4, 255, 2, 3, 5, 255, 3, 3, 6, 255,
        ]
    );
}

#[test]
fn the_whole_region_is_the_bitmap() {
    let bitmap = numbered(5, 4);
    assert_eq!(bitmap.region(&Placement { x: 0, y: 0, width: 5, height: 4 }), bitmap);
}

#[test]
fn an_empty_region_has_no_pixels() {
    let tile = numbered(5, 4).region(&Placement { x: 5, y: 4, width: 0, height: 0 });
    assert_eq!(tile, Bitmap { width: 0, height: 0, pixels: vec![] });
}

#[test]
fn a_blit_paints_only_its_rectangle() {
    let mut canvas = Bitmap::blank(4, 3);
    let source = numbered(2, 2);
    canvas.blit(&source, &Placement { x: 0, y: 0, width: 2, height: 2 }, 2, 1);
    let mut expected = vec![0u8; 48];
    expected[24..32].copy_from_slice(&[0, 0, 0, 255, 1, 0, 1, 255]);
    expected[40..48].copy_from_slice(&[0, 1, 1, 255, 1, 1, 2, 255]);
    assert_eq!(canvas, Bitmap { width: 4, height: 3, pixels: expected });
}

#[test]
fn a_blit_takes_the_part_it_is_given() {
    let mut canvas = Bitmap::blank(3, 3);
    let source = numbered(4, 4);
    let part = Placement { x: 2, y: 1, width: 2, height: 3 };
    canvas.blit(&source, &part, 1, 0);
    assert_eq!(canvas.region(&Placement { x: 1, y: 0, width: 2, height: 3 }), source.region(&part));
    assert!(canvas.is_column_clear(0));
}

#[test]
fn a_later_blit_paints_over_an_earlier_one() {
    let mut canvas = Bitmap::blank(2, 1);
    let red = Bitmap { width: 1, height: 1, pixels: vec![255, 0, 0, 255] };
    let blue = Bitmap { width: 1, height: 1, pixels: vec![0, 0, 255, 255] };
    let all = Placement { x: 0, y: 0, width: 1, height: 1 };
    canvas.blit(&red, &all, 0, 0);
    canvas.blit(&blue, &all, 0, 0);
    canvas.blit(&red, &all, 1, 0);
    assert_eq!(canvas.pixels, vec![0, 0, 255, 255, 255, 0, 0, 255]);
}

#[test]
fn an_empty_blit_changes_nothing() {
    let mut canvas = numbered(3, 3);
    canvas.blit(&Bitmap::blank(2, 2), &Placement { x: 1, y: 1, width: 0, height: 0 }, 3, 3);
    assert_eq!(canvas, numbered(3, 3));
}
