use std::collections::VecDeque;
use std::time::Instant;

use magma_core::config::{
    default_autostart, default_gaps, default_xkb, KeyModifier, KeyModifiers, KeyModifiersDef,
    OutputConfig,
};
use magma_core::debug::{Fps, Frame, MAX_FRAMES};
use magma_core::dwindle::DwindleLayout;
use magma_core::xcursor::{Image, Xcursor};

#[test]
fn mode_refresh_defaults_to_sixty_hertz_in_millihertz() {
    assert_eq!(OutputConfig((1920, 1080), None).mode_refresh(), 60000);
    assert_eq!(OutputConfig((1920, 1080), Some(75)).mode_refresh(), 75000);
    assert_eq!(OutputConfig((1920, 1080), Some(144)).mode_size(), (1920, 1080));
}

#[test]
fn key_modifier_list_folds_into_flags() {
    let mods: KeyModifiers =
        KeyModifiersDef(vec![KeyModifier::Super, KeyModifier::Shift]).into();
    assert!(mods.logo && mods.shift);
    assert!(!mods.ctrl && !mods.alt);
    let none: KeyModifiers = KeyModifiersDef(vec![]).into();
    assert!(!none.ctrl && !none.alt && !none.shift && !none.logo);
}

#[test]
fn config_defaults_match_the_documented_values() {
    assert_eq!(default_gaps(), (5, 5));
    assert!(default_autostart().is_empty());
    let xkb = default_xkb();
    assert_eq!(xkb.rules, "");
    assert!(xkb.options.is_none());
}

fn frame(elements: u64, render: u64, screencopy: Option<u64>, displayed: u64) -> Frame {
    Frame {
        start: Instant::now(),
        duration_elements: elements,
        duration_render: render,
        duration_screencopy: screencopy,
        duration_displayed: displayed,
    }
}

#[test]
fn frame_time_sums_the_production_phases() {
    let f = frame(10, 20, Some(5), 7);
    assert_eq!(f.frame_time(), 35);
    assert_eq!(f.time_to_display(), 42);
    let g = frame(10, 20, None, 7);
    assert_eq!(g.frame_time(), 30);
    assert_eq!(g.frame_time(), 30);
}

#[test]
fn frame_time_saturates_instead_of_overflowing() {
    let f = frame(u64::MAX, 20, Some(5), 7);
    assert_eq!(f.frame_time(), u64::MAX);
    assert_eq!(f.time_to_display(), u64::MAX);
}

#[test]
fn fps_statistics_over_a_known_history() {
    let mut frames = VecDeque::new();
    frames.push_back(frame(10, 0, None, 0));
    frames.push_back(frame(30, 0, None, 0));
    frames.push_back(frame(20, 0, None, 0));
    let fps = Fps { current_frame: None, frames };
    assert_eq!(fps.max_frametime(), 30);
    assert_eq!(fps.min_frametime(), 10);
    assert_eq!(fps.avg_frametime(), 20);
}

#[test]
fn fps_statistics_on_an_empty_history_are_zero() {
    let fps = Fps::default();
    assert_eq!(fps.max_frametime(), 0);
    assert_eq!(fps.min_frametime(), 0);
    assert_eq!(fps.avg_frametime(), 0);
}

#[test]
fn fps_lifecycle_records_one_frame_per_redraw() {
    let mut fps = Fps::default();
    fps.elements();
    assert!(fps.current_frame.is_none());
    fps.start();
    fps.elements();
    fps.render();
    fps.screencopy();
    fps.displayed();
    assert!(fps.current_frame.is_none());
    assert_eq!(fps.frames.len(), 1);
    assert!(fps.frames[0].duration_screencopy.is_some());
}

#[test]
fn fps_history_is_capped() {
    let mut frames = VecDeque::new();
    for _ in 0..MAX_FRAMES {
        frames.push_back(frame(1, 1, None, 1));
    }
    let mut fps = Fps { current_frame: None, frames };
    fps.start();
    fps.displayed();
    assert_eq!(fps.frames.len(), MAX_FRAMES);
}

fn image(size: u32) -> Image {
    Image {
        size,
        width: size,
        height: size,
        xhot: 0,
        yhot: 0,
        delay: 50,
        pixels_rgba: vec![0; 4],
        pixels_argb: vec![0; 4],
    }
}

#[test]
fn xcursor_picks_the_nearest_size_and_keeps_only_it() {
    let images = vec![image(24), image(32), image(32), image(48)];
    let cursor = Xcursor::from_images(images, 30, String::from("default")).unwrap();
    assert_eq!(cursor.size, 32);
    assert_eq!(cursor.images.len(), 2);
    assert_eq!(cursor.curr_image_pos, 0);
    assert_eq!(cursor.variant, "default");
}

#[test]
fn xcursor_prefers_the_earliest_size_on_a_tie() {
    let images = vec![image(24), image(32)];
    let cursor = Xcursor::from_images(images, 28, String::from("default")).unwrap();
    assert_eq!(cursor.size, 24);
}

#[test]
fn xcursor_from_no_images_is_nothing() {
    assert!(Xcursor::from_images(vec![], 24, String::from("default")).is_none());
}

#[test]
fn xcursor_tick_wraps_around() {
    let images = vec![image(24), image(24), image(24)];
    let mut cursor = Xcursor::from_images(images, 24, String::from("default")).unwrap();
    cursor.tick();
    assert_eq!(cursor.curr_image_pos, 1);
    assert_eq!(cursor.get_curr_image().size, 24);
    cursor.tick();
    cursor.tick();
    assert_eq!(cursor.curr_image_pos, 0);
}

#[test]
fn xcursor_change_variant_keeps_the_chosen_size() {
    let mut cursor =
        Xcursor::from_images(vec![image(24)], 24, String::from("default")).unwrap();
    assert!(cursor.change_variant(String::from("grab"), vec![image(16), image(24)]));
    assert_eq!(cursor.variant, "grab");
    assert_eq!(cursor.images.len(), 1);
    assert!(!cursor.change_variant(String::from("text"), vec![image(16)]));
    assert_eq!(cursor.variant, "grab");
}

#[test]
fn dwindle_layout_records_activation() {
    let layout = DwindleLayout::new(true);
    assert!(format!("{:?}", layout).contains("true"));
    let layout = DwindleLayout::new(false);
    assert!(format!("{:?}", layout).contains("false"));
}
