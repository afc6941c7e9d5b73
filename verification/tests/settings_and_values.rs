//! Stored settings, identifiers, blank texts, colours and the numbers behind bit patterns.

use manga_editor::blank::is_blank;
use manga_editor::color::Color;
use manga_editor::float_bits::{
    is_at_most_epsilon, is_negligible, is_not_positive, number_rank_of, numbers_equal, rank_of,
};
use manga_editor::ident::{parse_uid_or, uid_is, uid_to_string};
use manga_editor::settings::{
    choose_memory_profile, coalesce_requests, load_memory_profile, load_typing_panel_layout,
    normalize_projects_dir_value, repaint_after_ms, stored_flag, stored_text, with_setting,
    ProfileSource, SaveDecision, SettingsError, SettingsPane, SpellcheckRevision,
};

#[test]
fn settings_are_read_back() {
    let file = with_setting(None, "General", "typing_panel_layout", "horizontal", false).ok().unwrap();
    assert_eq!(
        file,
        "{\n  \"General\": {\n    \"typing_panel_layout\": \"horizontal\"\n  }\n}"
    );
    assert_eq!(load_typing_panel_layout(Some(&file)).as_deref(), Some("horizontal"));
    // Another setting leaves the first one alone.
    let file = with_setting(Some(&file), "General", "projects_dir", "/tmp/x", true).ok().unwrap();
    let file = with_setting(Some(&file), "TextTab", "hanging", "…«»", true).ok().unwrap();
    assert_eq!(load_typing_panel_layout(Some(&file)).as_deref(), Some("horizontal"));
    assert_eq!(stored_text(Some(&file), "General", "projects_dir").as_deref(), Some("/tmp/x"));
    assert_eq!(stored_text(Some(&file), "TextTab", "hanging").as_deref(), Some("…«»"));
    let file = with_setting(Some(&file), "TextTab", "hanging", "\"\\\n", true).ok().unwrap();
    assert_eq!(stored_text(Some(&file), "TextTab", "hanging").as_deref(), Some("\"\\\n"));
}

#[test]
fn files_that_are_no_settings() {
    assert_eq!(load_typing_panel_layout(None), None);
    assert_eq!(load_typing_panel_layout(Some("{ not json")), None);
    assert_eq!(load_typing_panel_layout(Some("[1, 2]")), None);
    assert_eq!(load_typing_panel_layout(Some("{\"General\": 5}")), None);
    assert_eq!(
        load_typing_panel_layout(Some("{\"General\": {\"typing_panel_layout\": 5}}")),
        None
    );
    // A broken file counts as empty, unless it is to be kept.
    let file = with_setting(Some("{ not json"), "General", "k", "v", false).ok().unwrap();
    assert_eq!(stored_text(Some(&file), "General", "k").as_deref(), Some("v"));
    assert!(matches!(
        with_setting(Some("{ not json"), "General", "k", "v", true),
        Err(SettingsError::Parse(_))
    ));
    let file = with_setting(Some("[1, 2]"), "General", "k", "v", true).ok().unwrap();
    assert_eq!(stored_text(Some(&file), "General", "k").as_deref(), Some("v"));
    let file = with_setting(Some("{\"General\": 5, \"x\": {\"y\": true}}"), "General", "k", "v", true)
        .ok()
        .unwrap();
    assert_eq!(stored_text(Some(&file), "General", "k").as_deref(), Some("v"));
    assert_eq!(stored_flag(Some(&file), "x", "y"), Some(true));
}

#[test]
fn memory_profiles_are_chosen() {
    let p = load_memory_profile(Some("{\"General\": {\"m\": \"high\"}}"), "m");
    assert_eq!((p.name.as_deref(), p.cache_pages), (Some("high"), None));
    let p = load_memory_profile(Some("{\"Canvas\": {\"cache_pages\": false}}"), "m");
    assert_eq!((p.name.as_deref(), p.cache_pages), (None, Some(false)));
    assert_eq!(choose_memory_profile(true, Some(false)), ProfileSource::Named);
    assert_eq!(choose_memory_profile(false, Some(true)), ProfileSource::Medium);
    assert_eq!(choose_memory_profile(false, Some(false)), ProfileSource::Low);
    assert_eq!(choose_memory_profile(false, None), ProfileSource::Default);
}

#[test]
fn project_folders_are_trimmed() {
    assert_eq!(normalize_projects_dir_value("  /home/a b \n", "/d"), "/home/a b");
    assert_eq!(normalize_projects_dir_value(" \t ", "/d"), "/d");
    assert_eq!(normalize_projects_dir_value("", "/d"), "/d");
}

#[test]
fn savers_save_the_latest_request() {
    assert_eq!(coalesce_requests(&Vec::new()), SaveDecision::Wait);
    assert_eq!(coalesce_requests(&vec![true, true, true]), SaveDecision::Save(2));
    assert_eq!(coalesce_requests(&vec![true, false, true]), SaveDecision::Stop);
    assert_eq!(coalesce_requests(&vec![false]), SaveDecision::Stop);
}

#[test]
fn settings_have_titles_and_a_pace() {
    assert_eq!(SettingsPane::General.title(), "Общие настройки");
    assert_eq!(SettingsPane::CanvasRibbon.title(), "Лента и пузыри");
    assert_eq!(SettingsPane::AiBackend.title(), "ИИ бэкенд");
    assert_eq!(SettingsPane::Hotkeys.title(), "Горячие клавиши");
    assert_eq!((repaint_after_ms(true), repaint_after_ms(false)), (120, 350));
    let mut r = SpellcheckRevision { seen: 4 };
    assert!(!r.refresh_needed(4) && r.refresh_needed(5) && !r.refresh_needed(5));
}

#[test]
fn identifiers_are_written_and_read() {
    let uid = 0x0123_4567_89ab_cdef_0011_2233_4455_6677u128;
    let text = uid_to_string(uid);
    assert_eq!(text, "01234567-89ab-cdef-0011-223344556677");
    assert_eq!(parse_uid_or(&text, 9), uid);
    assert_eq!(parse_uid_or("01234567-89AB-CDEF-0011-223344556677", 9), uid);
    assert_eq!(parse_uid_or("no identifier", 9), 9);
    assert_eq!(parse_uid_or("", 9), 9);
    assert!(uid_is(uid, &text));
    assert!(!uid_is(uid + 1, &text));
    assert!(!uid_is(uid, &String::from("01234567-89AB-CDEF-0011-223344556677")));
}

#[test]
fn blank_texts_are_white_space() {
    assert!(is_blank(""));
    assert!(is_blank(" \t\n\u{a0}\u{2003}"));
    assert!(!is_blank(" a "));
    assert!(!is_blank("\u{200b}"));
}

#[test]
fn colours_are_those_of_the_canvas() {
    for (r, g, b, a) in [(255, 0, 0, 255), (200, 100, 50, 128), (1, 2, 3, 0), (9, 8, 7, 1)] {
        let c = Color::from_rgba_unmultiplied(r, g, b, a);
        let want = egui::Color32::from_rgba_unmultiplied(r, g, b, a);
        assert_eq!([c.r, c.g, c.b, c.a], want.to_array());
        let u = c.to_srgba_unmultiplied();
        assert_eq!([u.r, u.g, u.b, u.a], want.to_srgba_unmultiplied());
    }
    assert_eq!(Color::from_rgb(1, 2, 3), Color { r: 1, g: 2, b: 3, a: 255 });
    assert_eq!(Color::transparent(), Color { r: 0, g: 0, b: 0, a: 0 });
}

fn sample_numbers() -> Vec<f32> {
    let mut v = vec![
        0.0,
        -0.0,
        f32::EPSILON,
        -f32::EPSILON,
        f32::MIN_POSITIVE,
        1.0,
        -1.0,
        1.5,
        f32::MAX,
        f32::MIN,
        f32::INFINITY,
        f32::NEG_INFINITY,
        f32::NAN,
        -f32::NAN,
        f32::from_bits(1),
        f32::from_bits(0x8000_0001),
        f32::from_bits(0x3400_0001),
        f32::from_bits(0xB400_0001),
    ];
    let mut x = 1u32;
    for _ in 0..200 {
        x = x.wrapping_mul(1664525).wrapping_add(1013904223);
        v.push(f32::from_bits(x));
    }
    v
}

#[test]
fn bit_patterns_behave_as_their_numbers() {
    let v = sample_numbers();
    for &a in &v {
        let x = a.to_bits();
        assert_eq!(is_negligible(x), a.abs() <= f32::EPSILON, "{a}");
        assert_eq!(is_at_most_epsilon(x), a <= f32::EPSILON, "{a}");
        assert_eq!(is_not_positive(x), a <= 0.0, "{a}");
        for &b in &v {
            let y = b.to_bits();
            assert_eq!(numbers_equal(x, y), a == b, "{a} {b}");
            assert_eq!(rank_of(x).cmp(&rank_of(y)), a.total_cmp(&b), "{a} {b}");
            if !a.is_nan() && !b.is_nan() {
                assert_eq!(Some(number_rank_of(x).cmp(&number_rank_of(y))), a.partial_cmp(&b));
            }
        }
    }
}
