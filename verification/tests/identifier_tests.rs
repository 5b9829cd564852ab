use aseprite_packer::config::AsepritePackerConfig;
use aseprite_packer::identifier::{frame_identifier, push_decimal, source_file_name};

fn written(n: u32) -> String {
    let mut text = String::new();
    push_decimal(&mut text, n);
    text
}

#[test]
fn a_single_frame_is_named_after_its_source() {
    assert_eq!(frame_identifier("idle", 0, 1), "idle");
}

#[test]
fn a_single_frame_keeps_the_name_whatever_its_index() {
    assert_eq!(frame_identifier("idle", 7, 1), "idle");
}

#[test]
fn frames_of_many_are_numbered() {
    assert_eq!(frame_identifier("walk", 0, 4), "walk_0");
    assert_eq!(frame_identifier("walk", 3, 4), "walk_3");
    assert_eq!(frame_identifier("walk", 12, 100), "walk_12");
}

#[test]
fn a_source_without_frames_numbers_like_many() {
    assert_eq!(frame_identifier("none", 5, 0), "none_5");
}

#[test]
fn names_may_be_empty_or_not_ascii() {
    assert_eq!(frame_identifier("", 1, 2), "_1");
    assert_eq!(frame_identifier("größe_x", 10, 11), "größe_x_10");
}

#[test]
fn numbers_are_written_in_decimal() {
    assert_eq!(written(0), "0");
    assert_eq!(written(9), "9");
    assert_eq!(written(10), "10");
    assert_eq!(written(1234567890), "1234567890");
    assert_eq!(written(u32::MAX), "4294967295");
    assert_eq!(written(100), "100");
}

#[test]
fn every_number_below_a_thousand_is_written_as_std_writes_it() {
    for n in 0..1000u32 {
        assert_eq!(written(n), n.to_string());
    }
}

#[test]
fn decimal_is_appended_to_what_is_there() {
    let mut text = String::from("frame ");
    push_decimal(&mut text, 42);
    push_decimal(&mut text, 7);
    assert_eq!(text, "frame 427");
}

#[test]
fn source_files_carry_the_sprite_extension() {
    assert_eq!(source_file_name("big"), "big.aseprite");
    assert_eq!(source_file_name(""), ".aseprite");
}

#[test]
fn the_default_configuration_scans_the_current_directory() {
    let config = AsepritePackerConfig::default();
    assert!(config.aseprite_file_names.is_empty());
    assert_eq!(config.path, ".");
    assert_eq!(config.output_image_location, None);
    assert_eq!(config.output_ron_location, None);
    assert!(!config.trim);
    assert_eq!((config.max_width, config.max_height), (u32::MAX, u32::MAX));
    assert!(config.scans_directory());
    assert!(config.source_file_names().is_empty());
}

#[test]
fn listed_sources_are_not_scanned_for() {
    let names = ["big", "small"];
    let config = AsepritePackerConfig { aseprite_file_names: &names, ..Default::default() };
    assert!(!config.scans_directory());
    assert_eq!(config.source_file_names(), vec!["big.aseprite".to_string(), "small.aseprite".to_string()]);
}
