use narabi::buffers::BufferInfo;
use narabi::decimal::{decimal_i32, decimal_u64};
use narabi::render::{render_tab, render_tabline};
use narabi::theme;

fn make_buf(handle: i32, name: &str, modified: bool, active: bool) -> BufferInfo {
    BufferInfo {
        handle,
        name: name.to_string(),
        full_path: format!("/project/src/{name}"),
        modified,
        active,
    }
}

#[test]
fn empty_buffer_list_renders_fill() {
    let result = render_tabline(&[]);
    assert_eq!(result, format!("%#{}#", theme::HL_FILL));
}

#[test]
fn single_active_buffer() {
    let bufs = [make_buf(1, "main.rs", false, true)];
    let result = render_tabline(&bufs);

    // Should contain the active highlight group.
    assert!(result.contains(theme::HL_ACTIVE));
    // Should contain the filename.
    assert!(result.contains("main.rs"));
    // Should contain clickable region start.
    assert!(result.contains("%1@NarabiSwitchBuf@"));
    // Should end clickable region.
    assert!(result.contains("%X"));
    // Should end with fill.
    assert!(result.ends_with(&format!("%#{}#", theme::HL_FILL)));
    // Should NOT contain modified indicator.
    assert!(!result.contains("[+]"));
}

#[test]
fn modified_buffer_shows_indicator() {
    let bufs = [make_buf(3, "config.toml", true, true)];
    let result = render_tabline(&bufs);

    assert!(result.contains("[+]"));
    assert!(result.contains(theme::HL_MODIFIED_ACTIVE));
}

#[test]
fn inactive_buffer_uses_inactive_highlights() {
    let bufs = [make_buf(2, "lib.rs", false, false)];
    let result = render_tabline(&bufs);

    assert!(result.contains(theme::HL_INACTIVE));
    assert!(!result.contains(theme::HL_ACTIVE));
}

#[test]
fn multiple_buffers_have_separators() {
    let bufs = [
        make_buf(1, "main.rs", false, true),
        make_buf(2, "lib.rs", false, false),
        make_buf(3, "mod.rs", true, false),
    ];
    let result = render_tabline(&bufs);

    // Separator highlight should appear between buffers.
    assert!(result.contains(theme::HL_SEPARATOR));
    // All filenames present.
    assert!(result.contains("main.rs"));
    assert!(result.contains("lib.rs"));
    assert!(result.contains("mod.rs"));
    // Ordinals should be sequential.
    assert!(result.contains(&format!("%#{}# 1 ", theme::HL_NUMBER_ACTIVE)));
    assert!(result.contains(&format!("%#{}# 2 ", theme::HL_NUMBER_INACTIVE)));
    assert!(result.contains(&format!("%#{}# 3 ", theme::HL_NUMBER_INACTIVE)));
}

#[test]
fn clickable_regions_use_buffer_handles() {
    let bufs = [
        make_buf(5, "a.rs", false, true),
        make_buf(12, "b.rs", false, false),
    ];
    let result = render_tabline(&bufs);

    assert!(result.contains("%5@NarabiSwitchBuf@"));
    assert!(result.contains("%12@NarabiSwitchBuf@"));
}

#[test]
fn modified_inactive_uses_correct_highlight() {
    let bufs = [make_buf(1, "dirty.rs", true, false)];
    let result = render_tabline(&bufs);

    assert!(result.contains(theme::HL_MODIFIED_INACTIVE));
    assert!(!result.contains(theme::HL_MODIFIED_ACTIVE));
}

#[test]
fn icon_is_present_for_known_file() {
    let bufs = [make_buf(1, "main.rs", false, true)];
    let result = render_tabline(&bufs);

    // kamon should resolve a Rust icon glyph.
    let (glyph, _) = kamon::icon_and_color("main.rs");
    assert!(result.contains(glyph));
}

#[test]
fn no_name_buffer() {
    let bufs = [make_buf(1, "[No Name]", false, true)];
    let result = render_tabline(&bufs);

    assert!(result.contains("[No Name]"));
}

#[test]
fn render_tab_first_active_tab_exact() {
    let buf = make_buf(1, "main.rs", false, true);
    assert_eq!(
        render_tab(&buf, 0, "G"),
        "%1@NarabiSwitchBuf@%#NarabiNumberActive# 1 %#NarabiIconActive#G %#NarabiActive#main.rs%#NarabiActive# %X"
    );
}

#[test]
fn render_tab_later_modified_inactive_tab_exact() {
    let buf = make_buf(12, "lib.rs", true, false);
    assert_eq!(
        render_tab(&buf, 2, "I"),
        "%12@NarabiSwitchBuf@%#NarabiSeparator# %#NarabiNumberInactive# 3 %#NarabiIconInactive#I %#NarabiInactive#lib.rs %#NarabiModifiedInactive#[+]%#NarabiInactive# %X"
    );
}

#[test]
fn render_tab_negative_handle() {
    let buf = make_buf(-7, "x", false, false);
    assert!(render_tab(&buf, 0, "g").starts_with("%-7@NarabiSwitchBuf@"));
}

#[test]
fn render_tabline_is_tabs_then_fill() {
    let bufs = [
        make_buf(5, "a.rs", true, true),
        make_buf(12, "Makefile", false, false),
    ];
    let mut expected = String::new();
    for (idx, buf) in bufs.iter().enumerate() {
        let (glyph, _) = kamon::icon_and_color(&buf.name);
        expected.push_str(&render_tab(buf, idx, glyph));
    }
    expected.push_str("%#NarabiFill#");
    assert_eq!(render_tabline(&bufs), expected);
}

#[test]
fn render_tabline_uses_the_kamon_glyph_of_each_name() {
    let bufs = [
        make_buf(1, "main.rs", false, true),
        make_buf(2, "script.py", false, false),
    ];
    let result = render_tabline(&bufs);
    let (rust, _) = kamon::icon_and_color("main.rs");
    let (python, _) = kamon::icon_and_color("script.py");
    assert_ne!(rust, python);
    assert!(result.contains(&format!("%#NarabiIconActive#{rust} ")));
    assert!(result.contains(&format!("%#NarabiIconInactive#{python} ")));
}

#[test]
fn render_tabline_tab_order_follows_buffers() {
    let bufs = [
        make_buf(9, "first.rs", false, false),
        make_buf(3, "second.rs", false, true),
        make_buf(4, "third.rs", false, false),
    ];
    let result = render_tabline(&bufs);
    let a = result.find("%9@NarabiSwitchBuf@").unwrap();
    let b = result.find("%3@NarabiSwitchBuf@").unwrap();
    let c = result.find("%4@NarabiSwitchBuf@").unwrap();
    assert!(a < b && b < c);
    assert_eq!(a, 0);
    assert_eq!(result.matches("%X").count(), 3);
    assert_eq!(result.matches(theme::HL_SEPARATOR).count(), 2);
}

#[test]
fn decimal_u64_matches_format() {
    for n in [0u64, 1, 9, 10, 11, 99, 100, 12345, 4294967295, u64::MAX] {
        assert_eq!(decimal_u64(n), format!("{n}"));
    }
}

#[test]
fn decimal_i32_matches_format() {
    for n in [0i32, 7, -7, 10, -10, 123456, i32::MAX, i32::MIN, -1] {
        assert_eq!(decimal_i32(n), format!("{n}"));
    }
}

#[test]
fn unmodified_tabs_hold_brackets_only_from_names() {
    let clean = [
        make_buf(1, "main.rs", false, true),
        make_buf(2, "lib.rs", false, false),
    ];
    assert!(!render_tabline(&clean).contains('['));
    let named = [
        make_buf(1, "main.rs", false, true),
        make_buf(2, "[No Name]", false, false),
    ];
    assert!(render_tabline(&named).contains('['));
    let modified = [make_buf(1, "main.rs", true, false)];
    assert!(render_tabline(&modified).contains("[+]"));
}

#[test]
fn every_highlight_group_in_the_tabline_is_registered() {
    let registered: Vec<&str> = narabi::theme::highlight_defs().iter().map(|d| d.name).collect();
    let bufs = [
        make_buf(1, "main.rs", true, true),
        make_buf(2, "lib.rs", true, false),
        make_buf(3, "mod.rs", false, false),
    ];
    let result = render_tabline(&bufs);
    let mut groups = 0;
    for part in result.split("%#").skip(1) {
        let group = part.split('#').next().unwrap();
        assert!(registered.contains(&group), "unregistered group {group}");
        groups += 1;
    }
    assert!(groups > 0);
}

#[test]
fn state_groups_follow_active_buffers() {
    let all_active = [
        make_buf(1, "main.rs", true, true),
        make_buf(2, "lib.rs", false, true),
    ];
    let result = render_tabline(&all_active);
    assert!(result.contains(theme::HL_ACTIVE));
    assert!(!result.contains(theme::HL_INACTIVE));
    let mixed = [
        make_buf(1, "main.rs", false, false),
        make_buf(2, "lib.rs", false, true),
    ];
    let result = render_tabline(&mixed);
    assert!(result.contains(theme::HL_ACTIVE));
    assert!(result.contains(theme::HL_INACTIVE));
    let none_active = [make_buf(1, "main.rs", true, false)];
    let result = render_tabline(&none_active);
    assert!(!result.contains(theme::HL_ACTIVE));
    assert!(result.contains(theme::HL_INACTIVE));
}
