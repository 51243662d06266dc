use narabi::theme::{
    highlight_defs, HL_ACTIVE, HL_FILL, HL_ICON_ACTIVE, HL_ICON_INACTIVE, HL_INACTIVE,
    HL_MODIFIED_ACTIVE, HL_MODIFIED_INACTIVE, HL_NUMBER_ACTIVE, HL_NUMBER_INACTIVE, HL_SEPARATOR,
};

#[test]
fn highlight_group_names_are_unique() {
    let names = [
        HL_FILL,
        HL_ACTIVE,
        HL_INACTIVE,
        HL_MODIFIED_ACTIVE,
        HL_MODIFIED_INACTIVE,
        HL_NUMBER_ACTIVE,
        HL_NUMBER_INACTIVE,
        HL_ICON_ACTIVE,
        HL_ICON_INACTIVE,
        HL_SEPARATOR,
    ];
    let mut seen = std::collections::HashSet::new();
    for name in &names {
        assert!(seen.insert(name), "duplicate highlight group: {name}");
    }
}

#[test]
fn highlight_group_names_start_with_narabi() {
    let names = [
        HL_FILL,
        HL_ACTIVE,
        HL_INACTIVE,
        HL_MODIFIED_ACTIVE,
        HL_MODIFIED_INACTIVE,
        HL_NUMBER_ACTIVE,
        HL_NUMBER_INACTIVE,
        HL_ICON_ACTIVE,
        HL_ICON_INACTIVE,
        HL_SEPARATOR,
    ];
    for name in &names {
        assert!(
            name.starts_with("Narabi"),
            "highlight group must start with Narabi: {name}"
        );
    }
}

#[test]
fn highlight_defs_register_every_group_once() {
    let defs = highlight_defs();
    let names: Vec<&str> = defs.iter().map(|d| d.name).collect();
    assert_eq!(
        names,
        vec![
            HL_FILL,
            HL_ACTIVE,
            HL_INACTIVE,
            HL_MODIFIED_ACTIVE,
            HL_MODIFIED_INACTIVE,
            HL_NUMBER_ACTIVE,
            HL_NUMBER_INACTIVE,
            HL_ICON_ACTIVE,
            HL_ICON_INACTIVE,
            HL_SEPARATOR,
        ]
    );
}

#[test]
fn highlight_defs_colors() {
    let defs = highlight_defs();
    let fill = &defs[0];
    assert_eq!((fill.fg, fill.bg, fill.bold), ("#6e7681", "#1e2228", false));
    let active = &defs[1];
    assert_eq!((active.fg, active.bg, active.bold), ("#e6edf3", "#30363d", true));
    let modified_active = &defs[3];
    assert_eq!(
        (modified_active.fg, modified_active.bg, modified_active.bold),
        ("#d29922", "#30363d", true)
    );
    let separator = &defs[9];
    assert_eq!((separator.fg, separator.bg, separator.bold), ("#30363d", "#1e2228", false));
    let bold: Vec<&str> = defs.iter().filter(|d| d.bold).map(|d| d.name).collect();
    assert_eq!(bold, vec![HL_ACTIVE, HL_MODIFIED_ACTIVE]);
}
