//! Highlight groups of the tab line: their names, and the colors the plugin
//! gives them.

use vstd::prelude::*;

verus! {

/// Highlight group name for the tabline background / fill area.
pub const HL_FILL: &'static str = "NarabiFill";

/// Highlight group name for the active (current) buffer tab.
pub const HL_ACTIVE: &'static str = "NarabiActive";

/// Highlight group name for inactive buffer tabs.
pub const HL_INACTIVE: &'static str = "NarabiInactive";

/// Highlight group name for the modified indicator on the active tab.
pub const HL_MODIFIED_ACTIVE: &'static str = "NarabiModifiedActive";

/// Highlight group name for the modified indicator on inactive tabs.
pub const HL_MODIFIED_INACTIVE: &'static str = "NarabiModifiedInactive";

/// Highlight group name for the buffer number on the active tab.
pub const HL_NUMBER_ACTIVE: &'static str = "NarabiNumberActive";

/// Highlight group name for the buffer number on inactive tabs.
pub const HL_NUMBER_INACTIVE: &'static str = "NarabiNumberInactive";

/// Highlight group name for the file icon on the active tab.
pub const HL_ICON_ACTIVE: &'static str = "NarabiIconActive";

/// Highlight group name for the file icon on inactive tabs.
pub const HL_ICON_INACTIVE: &'static str = "NarabiIconInactive";

/// Highlight group name for the separator between tabs.
pub const HL_SEPARATOR: &'static str = "NarabiSeparator";

/// The definition of one highlight group: its name, foreground and
/// background colors (hex), and whether it is bold.
pub struct HighlightDef {
    pub name: &'static str,
    pub fg: &'static str,
    pub bg: &'static str,
    pub bold: bool,
}

/// The mathematical value of a [`HighlightDef`].
pub struct HighlightModel {
    pub name: Seq<char>,
    pub fg: Seq<char>,
    pub bg: Seq<char>,
    pub bold: bool,
}

impl View for HighlightDef {
    type V = HighlightModel;

    open spec fn view(&self) -> HighlightModel {
        HighlightModel { name: self.name@, fg: self.fg@, bg: self.bg@, bold: self.bold }
    }
}

pub open spec fn hl_model(name: Seq<char>, fg: Seq<char>, bg: Seq<char>, bold: bool) -> HighlightModel {
    HighlightModel { name, fg, bg, bold }
}

/// The highlight groups that the plugin registers, in the order it
/// registers them.
pub open spec fn highlight_table() -> Seq<HighlightModel> {
    seq![
        hl_model(HL_FILL@, "#6e7681"@, "#1e2228"@, false),
        hl_model(HL_ACTIVE@, "#e6edf3"@, "#30363d"@, true),
        hl_model(HL_INACTIVE@, "#8b949e"@, "#21262d"@, false),
        hl_model(HL_MODIFIED_ACTIVE@, "#d29922"@, "#30363d"@, true),
        hl_model(HL_MODIFIED_INACTIVE@, "#d29922"@, "#21262d"@, false),
        hl_model(HL_NUMBER_ACTIVE@, "#79c0ff"@, "#30363d"@, false),
        hl_model(HL_NUMBER_INACTIVE@, "#6e7681"@, "#21262d"@, false),
        hl_model(HL_ICON_ACTIVE@, "#e6edf3"@, "#30363d"@, false),
        hl_model(HL_ICON_INACTIVE@, "#8b949e"@, "#21262d"@, false),
        hl_model(HL_SEPARATOR@, "#30363d"@, "#1e2228"@, false),
    ]
}

/// Whether the plugin registers a highlight group named `name`.
pub open spec fn is_registered(name: Seq<char>) -> bool {
    exists|k: int| 0 <= k < highlight_table().len() && #[trigger] highlight_table()[k].name == name
}

/// The highlight groups to register with Neovim, with their colors.
pub fn highlight_defs() -> (r: Vec<HighlightDef>)
    ensures
        r@.map_values(|d: HighlightDef| d@) == highlight_table(),
{
    let r = vec![
        HighlightDef { name: HL_FILL, fg: "#6e7681", bg: "#1e2228", bold: false },
        HighlightDef { name: HL_ACTIVE, fg: "#e6edf3", bg: "#30363d", bold: true },
        HighlightDef { name: HL_INACTIVE, fg: "#8b949e", bg: "#21262d", bold: false },
        HighlightDef { name: HL_MODIFIED_ACTIVE, fg: "#d29922", bg: "#30363d", bold: true },
        HighlightDef { name: HL_MODIFIED_INACTIVE, fg: "#d29922", bg: "#21262d", bold: false },
        HighlightDef { name: HL_NUMBER_ACTIVE, fg: "#79c0ff", bg: "#30363d", bold: false },
        HighlightDef { name: HL_NUMBER_INACTIVE, fg: "#6e7681", bg: "#21262d", bold: false },
        HighlightDef { name: HL_ICON_ACTIVE, fg: "#e6edf3", bg: "#30363d", bold: false },
        HighlightDef { name: HL_ICON_INACTIVE, fg: "#8b949e", bg: "#21262d", bold: false },
        HighlightDef { name: HL_SEPARATOR, fg: "#30363d", bg: "#1e2228", bold: false },
    ];
    assert(r@.map_values(|d: HighlightDef| d@) =~= highlight_table());
    r
}

/// The group `name` is registered, and every registration of it has
/// foreground `fg`, background `bg` and boldness `bold`.
pub open spec fn group_has_colors(name: Seq<char>, fg: Seq<char>, bg: Seq<char>, bold: bool) -> bool {
    &&& is_registered(name)
    &&& forall|k: int|
        0 <= k < highlight_table().len() && #[trigger] highlight_table()[k].name == name ==> {
            &&& highlight_table()[k].fg == fg
            &&& highlight_table()[k].bg == bg
            &&& highlight_table()[k].bold == bold
        }
}

/// No two registered groups share a name.
pub proof fn lemma_group_names_distinct()
    ensures
        forall|a: int, b: int|
            0 <= a < highlight_table().len() && 0 <= b < highlight_table().len() && a != b
                ==> #[trigger] highlight_table()[a].name != #[trigger] highlight_table()[b].name,
{
    reveal_strlit("NarabiFill");
    reveal_strlit("NarabiActive");
    reveal_strlit("NarabiInactive");
    reveal_strlit("NarabiModifiedActive");
    reveal_strlit("NarabiModifiedInactive");
    reveal_strlit("NarabiNumberActive");
    reveal_strlit("NarabiNumberInactive");
    reveal_strlit("NarabiIconActive");
    reveal_strlit("NarabiIconInactive");
    reveal_strlit("NarabiSeparator");
    let t = highlight_table();
    assert(HL_MODIFIED_ACTIVE@[6] != HL_NUMBER_INACTIVE@[6]);
    assert(HL_NUMBER_ACTIVE@[6] != HL_ICON_INACTIVE@[6]);
    assert forall|a: int, b: int|
        0 <= a < t.len() && 0 <= b < t.len() && a != b implies #[trigger] t[a].name
        != #[trigger] t[b].name by {
        if t[a].name == t[b].name {
            assert(t[a].name.len() == t[b].name.len());
            assert(t[a].name[6] == t[b].name[6]);
        }
    }
}

/// Every highlight group of the plugin has the colors of its theme: a
/// dark background `#1e2228` for the fill and separator, `#30363d` for the
/// active tab and `#21262d` for inactive tabs, bold text for the active name
/// and its modified mark, and these foregrounds.
pub proof fn lemma_theme_colors()
    ensures
        group_has_colors(HL_FILL@, "#6e7681"@, "#1e2228"@, false),
        group_has_colors(HL_ACTIVE@, "#e6edf3"@, "#30363d"@, true),
        group_has_colors(HL_INACTIVE@, "#8b949e"@, "#21262d"@, false),
        group_has_colors(HL_MODIFIED_ACTIVE@, "#d29922"@, "#30363d"@, true),
        group_has_colors(HL_MODIFIED_INACTIVE@, "#d29922"@, "#21262d"@, false),
        group_has_colors(HL_NUMBER_ACTIVE@, "#79c0ff"@, "#30363d"@, false),
        group_has_colors(HL_NUMBER_INACTIVE@, "#6e7681"@, "#21262d"@, false),
        group_has_colors(HL_ICON_ACTIVE@, "#e6edf3"@, "#30363d"@, false),
        group_has_colors(HL_ICON_INACTIVE@, "#8b949e"@, "#21262d"@, false),
        group_has_colors(HL_SEPARATOR@, "#30363d"@, "#1e2228"@, false),
{
    lemma_group_names_distinct();
    let t = highlight_table();
    assert(t[0].name == HL_FILL@);
    assert(t[1].name == HL_ACTIVE@);
    assert(t[2].name == HL_INACTIVE@);
    assert(t[3].name == HL_MODIFIED_ACTIVE@);
    assert(t[4].name == HL_MODIFIED_INACTIVE@);
    assert(t[5].name == HL_NUMBER_ACTIVE@);
    assert(t[6].name == HL_NUMBER_INACTIVE@);
    assert(t[7].name == HL_ICON_ACTIVE@);
    assert(t[8].name == HL_ICON_INACTIVE@);
    assert(t[9].name == HL_SEPARATOR@);
}

} // verus!
