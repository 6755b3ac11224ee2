use cursor_icon::CursorIcon;
use raven_render::cursor::arrow::{arrow_pixel, default_arrow_pixels, HEIGHT, WIDTH};
use raven_render::cursor::clock::CursorClock;
use raven_render::cursor::cache::{CursorCache, Settled};
use raven_render::cursor::frames::{frame_plan, nominal_size, FrameTimes};
use raven_render::cursor::settings::{is_blank, parse_u32, EnvValue, Settings, SettingsError};
use raven_render::cursor::theme::load_order;
use raven_render::pointer::{pointer_plan, CursorStatus, PointerDraw};

#[test]
fn blank_themes_are_unicode_white_space() {
    assert!(is_blank("\u{3000}\u{a0} \t"));
    assert!(!is_blank("\u{200b}"));
    assert!(is_blank(""));
}

#[test]
fn arrow_pixel_far_outside_the_image() {
    assert!(!arrow_pixel(i32::MIN + 2, 2));
    assert!(!arrow_pixel(i32::MIN + 2, i32::MIN + 2));
    assert!(!arrow_pixel(i32::MAX, i32::MAX));
}

#[test]
fn arrow_tip_and_stem() {
    // The margin is transparent; the tip starts at (2, 2).
    assert!(!arrow_pixel(0, 0));
    assert!(!arrow_pixel(1, 2));
    assert!(arrow_pixel(2, 2));
    assert!(!arrow_pixel(3, 2));
    // The head widens by one pixel every second row.
    assert!(arrow_pixel(7, 12));
    assert!(!arrow_pixel(8, 12));
    // The stem continues below the head.
    assert!(arrow_pixel(12, 28));
    assert!(!arrow_pixel(2, 28));
    assert!(!arrow_pixel(12, 30));
}

#[test]
fn default_arrow_pixels_are_outlined_grey() {
    let pixels = default_arrow_pixels();
    assert_eq!(pixels.len(), WIDTH * HEIGHT * 4);
    let at = |x: usize, y: usize| &pixels[(y * WIDTH + x) * 4..(y * WIDTH + x) * 4 + 4];
    assert_eq!(at(0, 0), &[0, 0, 0, 0]);
    assert_eq!(at(2, 2), &[24, 24, 24, 255]);
    assert_eq!(at(3, 10), &[245, 245, 245, 255]);
    // Every pixel is either transparent or opaque grey.
    for p in pixels.chunks(4) {
        assert!(p == [0, 0, 0, 0] || (p[0] == p[1] && p[1] == p[2] && p[3] == 255));
    }
}

fn text(s: &str) -> EnvValue {
    EnvValue::Text(s.to_string())
}

#[test]
fn settings_defaults_and_errors() {
    let s = Settings::from_values(EnvValue::Missing, EnvValue::Missing).unwrap();
    assert_eq!(s.theme, "default");
    assert_eq!(s.size, 24);
    let s = Settings::from_values(text("Adwaita"), text("+48")).unwrap();
    assert_eq!((s.theme.as_str(), s.size), ("Adwaita", 48));
    assert_eq!(
        Settings::from_values(text(" \t"), EnvValue::NotUnicode).err(),
        Some(SettingsError::EmptyTheme)
    );
    assert_eq!(
        Settings::from_values(EnvValue::NotUnicode, text("x")).err(),
        Some(SettingsError::ThemeNotUnicode)
    );
    assert_eq!(
        Settings::from_values(text("a"), EnvValue::NotUnicode).err(),
        Some(SettingsError::SizeNotUnicode)
    );
    for bad in ["0", "-1", "", "+", "12px", " 12", "2147483648", "99999999999"] {
        assert_eq!(
            Settings::from_values(text("a"), text(bad)).err(),
            Some(SettingsError::InvalidSize),
            "{bad}"
        );
    }
    let s = Settings::from_values(text("a"), text("2147483647")).unwrap();
    assert_eq!(s.size, 2147483647);
}

#[test]
fn parse_u32_matches_std() {
    for s in ["0", "7", "+7", "007", "4294967295", "4294967296", "-0", "", "+", "1_0", "١"] {
        assert_eq!(parse_u32(s), s.parse::<u32>().ok(), "{s:?}");
    }
}

#[test]
fn prepared_settings_need_theme_and_size() {
    let ok = Settings { theme: "default".into(), size: 24 };
    assert!(ok.usable());
    assert!(!Settings { theme: "  ".into(), size: 24 }.usable());
    assert!(!Settings { theme: "a".into(), size: 0 }.usable());
    assert!(!Settings { theme: "a".into(), size: 2147483648 }.usable());
}

#[test]
fn nominal_size_prefers_nearest_then_larger() {
    assert_eq!(nominal_size(&vec![], 24), None);
    assert_eq!(nominal_size(&vec![0, 0], 24), None);
    assert_eq!(nominal_size(&vec![16, 32, 48], 24), Some(32));
    assert_eq!(nominal_size(&vec![48, 32, 24, 24], 24), Some(24));
    assert_eq!(nominal_size(&vec![0, 96, 64], 80), Some(96));
}

#[test]
fn frames_skip_missed_frames() {
    let mut t = FrameTimes::new();
    t.push(0);
    assert_eq!(t.frame_at(123_456_789), (0, None));
    t.push(20);
    t.push(10);
    // Delays: 1 ms, 20 ms, 10 ms; cycle 31 ms.
    assert_eq!(t.total(), 31_000_000);
    assert_eq!(t.frame_at(0), (0, Some(1_000_000)));
    assert_eq!(t.frame_at(1_000_000), (1, Some(20_000_000)));
    assert_eq!(t.frame_at(25_000_000), (2, Some(6_000_000)));
    assert_eq!(t.frame_at(31_000_000 * 3 + 500_000), (0, Some(500_000)));
}

#[test]
fn clock_consumes_an_expired_wake_once() {
    let mut c = CursorClock::new();
    assert_eq!(c.start(CursorIcon::Default, 24, 100), 100);
    assert_eq!(c.start(CursorIcon::Default, 24, 500), 100);
    c.schedule(500, Some(50));
    assert_eq!(c.deadline(), Some(550));
    assert!(!c.tick(Some(CursorIcon::Default), 549));
    assert!(c.tick(Some(CursorIcon::Default), 550));
    assert!(!c.tick(Some(CursorIcon::Default), 550));
    assert_eq!(c.deadline(), None);
    // A different icon restarts the animation.
    assert_eq!(c.start(CursorIcon::Pointer, 24, 700), 700);
    assert_eq!(c.start(CursorIcon::Pointer, 48, 800), 800);
    c.schedule(800, Some(10));
    // The status no longer names the shown icon: suspended, nothing due.
    assert!(!c.tick(Some(CursorIcon::Default), 900));
    assert!(c.active.is_none());
    assert_eq!(c.deadline(), None);
}

#[test]
fn theme_candidates_shallowest_first_and_stable() {
    assert_eq!(load_order(&vec![]), Vec::<usize>::new());
    assert_eq!(load_order(&vec![2, 0, 1, 0]), vec![1, 3, 2, 0]);
    assert_eq!(load_order(&vec![1, 1, 1]), vec![0, 1, 2]);
}

#[test]
fn animation_takes_the_nominal_frames_in_order() {
    assert!(frame_plan(&vec![0, 0], &vec![5, 5], 24).is_none());
    let (nominal, chosen, times) = frame_plan(&vec![32, 24, 32, 48, 32], &vec![10, 20, 0, 40, 30], 30).unwrap();
    assert_eq!(nominal, 32);
    assert_eq!(chosen, vec![0, 2, 4]);
    assert_eq!(times.len(), 3);
    assert_eq!(times.total(), 41_000_000);
    assert_eq!(times.frame_at(10_500_000), (1, Some(500_000)));
}

#[test]
fn missing_cursors_fall_back_to_the_default_icon() {
    let mut cache = CursorCache::new(CursorIcon::Default, 24, "start-up");
    assert_eq!(cache.cached(&CursorIcon::Default, 24), Some("start-up"));
    assert_eq!(cache.cached(&CursorIcon::Wait, 24), None);
    match cache.loaded(CursorIcon::Wait, 24, Some("wait")) {
        Settled::Ready(a) => assert_eq!(a, "wait"),
        other => panic!("unexpected {:?}", other),
    }
    assert_eq!(cache.cached(&CursorIcon::Wait, 24), Some("wait"));
    assert!(matches!(cache.loaded(CursorIcon::Text, 24, None), Settled::UseDefault));
    assert_eq!(cache.cached(&CursorIcon::Text, 24), None);
    match cache.loaded(CursorIcon::Default, 48, None) {
        Settled::Ready(a) => assert_eq!(a, "start-up"),
        other => panic!("unexpected {:?}", other),
    }
    let default = cache.cached(&CursorIcon::Default, 48).unwrap();
    cache.alias(CursorIcon::Text, 48, default);
    assert_eq!(cache.cached(&CursorIcon::Text, 48), Some("start-up"));
    assert_eq!(cache.entries.len(), 4);
}

#[test]
fn pointer_shows_the_mode_cursor_first() {
    let (cross, arrow) = (CursorIcon::Crosshair, CursorIcon::Default);
    let named = CursorStatus::Named(CursorIcon::Text);
    let p = pointer_plan(false, true, true, named, cross, arrow);
    assert!(matches!(p.draw, PointerDraw::Suspend) && !p.drag_icon && !p.reset_status);
    let p = pointer_plan(true, true, true, named, cross, arrow);
    assert!(matches!(p.draw, PointerDraw::Icon(CursorIcon::Crosshair)) && !p.drag_icon);
    let p = pointer_plan(true, false, true, named, cross, arrow);
    assert!(matches!(p.draw, PointerDraw::Icon(CursorIcon::Default)) && !p.drag_icon);
    let p = pointer_plan(true, false, false, named, cross, arrow);
    assert!(matches!(p.draw, PointerDraw::Icon(CursorIcon::Text)) && p.drag_icon);
    let p = pointer_plan(true, false, false, CursorStatus::Hidden, cross, arrow);
    assert!(matches!(p.draw, PointerDraw::Suspend) && p.drag_icon);
    let p = pointer_plan(true, false, false, CursorStatus::Surface { alive: true }, cross, arrow);
    assert!(matches!(p.draw, PointerDraw::Surface) && !p.reset_status);
    let p = pointer_plan(true, false, false, CursorStatus::Surface { alive: false }, cross, arrow);
    assert!(matches!(p.draw, PointerDraw::Icon(CursorIcon::Default)) && p.reset_status && p.drag_icon);
}

#[test]
fn blank_agrees_with_std_white_space() {
    for n in 0..=0x10ffffu32 {
        if let Some(c) = char::from_u32(n) {
            let mut buf = [0u8; 4];
            assert_eq!(is_blank(c.encode_utf8(&mut buf)), c.is_whitespace(), "U+{:04X}", n);
        }
    }
}
