//! Tabline string renderer.
//!
//! Builds the Neovim `'tabline'` string from a list of [`BufferInfo`]
//! entries. Uses `%#HlGroup#` syntax for highlight groups and
//! `%N@SwitchBuf@` syntax for clickable mouse support.

use vstd::prelude::*;

use crate::buffers::{self, BufferInfo, BufferModel};
use crate::decimal;
use crate::text::{self, contains_text, ends_with, has_char, items_closed, occurs_at};
use crate::theme;

verus! {

/// Names what `kamon::icon_and_color` returns for a file name: the Nerd
/// Font glyph of its icon and the icon's hex color.
pub uninterp spec fn kamon_icon_and_color(filename: Seq<char>) -> (Seq<char>, Seq<char>);

/// Calls `kamon::icon_and_color`, kamon's icon lookup by file name.
///
/// Trusted: the glyph and color it returns are the value of
/// `kamon_icon_and_color` on the characters of `filename`. kamon looks the
/// name up in fixed tables, so the result depends on the name alone;
/// nothing is stated of which glyph a given name gets.
#[verifier::external_body]
fn icon_and_color(filename: &str) -> (r: (&'static str, &'static str))
    ensures
        (r.0@, r.1@) == kamon_icon_and_color(filename@),
{
    kamon::icon_and_color(filename)
}

/// The glyph kamon shows for a file name.
pub open spec fn icon_glyph(name: Seq<char>) -> Seq<char> {
    kamon_icon_and_color(name).0
}

/// The highlight group of a tab's name and padding.
pub open spec fn tab_group(active: bool) -> Seq<char> {
    if active {
        theme::HL_ACTIVE@
    } else {
        theme::HL_INACTIVE@
    }
}

/// The highlight group of a tab's ordinal.
pub open spec fn number_group(active: bool) -> Seq<char> {
    if active {
        theme::HL_NUMBER_ACTIVE@
    } else {
        theme::HL_NUMBER_INACTIVE@
    }
}

/// The highlight group of a tab's file icon.
pub open spec fn icon_group(active: bool) -> Seq<char> {
    if active {
        theme::HL_ICON_ACTIVE@
    } else {
        theme::HL_ICON_INACTIVE@
    }
}

/// The highlight group of a tab's modified indicator.
pub open spec fn modified_group(active: bool) -> Seq<char> {
    if active {
        theme::HL_MODIFIED_ACTIVE@
    } else {
        theme::HL_MODIFIED_INACTIVE@
    }
}

/// Start of the clickable region of the buffer `handle`.
pub open spec fn click_start(handle: i32) -> Seq<char> {
    "%"@ + decimal::signed_decimal(handle as int) + "@NarabiSwitchBuf@"@
}

/// The separator before the tab at position `idx` (none before the first).
pub open spec fn separator(idx: nat) -> Seq<char> {
    if idx > 0 {
        "%#"@ + theme::HL_SEPARATOR@ + "# "@
    } else {
        Seq::empty()
    }
}

/// The ordinal of the tab at position `idx`: `idx + 1`.
pub open spec fn ordinal_text(active: bool, idx: nat) -> Seq<char> {
    "%#"@ + number_group(active) + "# "@ + decimal::decimal(idx + 1) + " "@
}

/// The file icon of a tab.
pub open spec fn icon_text(active: bool, glyph: Seq<char>) -> Seq<char> {
    "%#"@ + icon_group(active) + "#"@ + glyph + " "@
}

/// The file name of a tab.
pub open spec fn name_text(active: bool, name: Seq<char>) -> Seq<char> {
    "%#"@ + tab_group(active) + "#"@ + name
}

/// The modified indicator `[+]`, shown for a buffer with unsaved changes.
pub open spec fn modified_text(active: bool, modified: bool) -> Seq<char> {
    if modified {
        " %#"@ + modified_group(active) + "#[+]"@
    } else {
        Seq::empty()
    }
}

/// The trailing space of a tab and the end of its clickable region.
pub open spec fn closing_text(active: bool) -> Seq<char> {
    "%#"@ + tab_group(active) + "# "@ + "%X"@
}

/// The text of the tab for buffer `b` at position `idx`, with file icon
/// `glyph`.
pub open spec fn tab_segment(b: BufferModel, idx: nat, glyph: Seq<char>) -> Seq<char> {
    click_start(b.handle) + separator(idx) + ordinal_text(b.active, idx) + icon_text(
        b.active,
        glyph,
    ) + name_text(b.active, b.name) + modified_text(b.active, b.modified) + closing_text(
        b.active,
    )
}

/// The tabs of `bs` in order, the tab at position `i` with icon `glyphs[i]`.
pub open spec fn tab_segments(bs: Seq<BufferModel>, glyphs: Seq<Seq<char>>) -> Seq<char>
    decreases bs.len(),
{
    if bs.len() == 0 {
        Seq::empty()
    } else {
        tab_segments(bs.drop_last(), glyphs) + tab_segment(
            bs.last(),
            (bs.len() - 1) as nat,
            glyphs[bs.len() - 1],
        )
    }
}

/// What fills the rest of the tab line.
pub open spec fn fill_text() -> Seq<char> {
    "%#"@ + theme::HL_FILL@ + "#"@
}

/// The whole tab line: the tabs, then the fill.
pub open spec fn tabline(bs: Seq<BufferModel>, glyphs: Seq<Seq<char>>) -> Seq<char> {
    tab_segments(bs, glyphs) + fill_text()
}

/// The icons kamon gives the buffers `bs`, by their names.
pub open spec fn icons_of(bs: Seq<BufferModel>) -> Seq<Seq<char>> {
    bs.map_values(|b: BufferModel| icon_glyph(b.name))
}

/// Renders the tab of buffer `buf` at position `idx` (0-based) of the tab
/// line, with the file icon `glyph`.
///
/// The tab is a clickable region that switches to the buffer's handle, then
/// (after the first tab) a separator, the 1-based ordinal, the icon, the
/// short file name, `[+]` when the buffer is modified, and a trailing
/// space; its highlight groups are those of an active or inactive tab.
pub fn render_tab(buf: &BufferInfo, idx: usize, glyph: &str) -> (r: String)
    requires
        idx < usize::MAX,
    ensures
        r@ == tab_segment(buf@, idx as nat, glyph@),
{
    // Highlight groups depend on active state.
    let (hl_tab, hl_num, hl_icon, hl_mod) = if buf.active {
        (theme::HL_ACTIVE, theme::HL_NUMBER_ACTIVE, theme::HL_ICON_ACTIVE, theme::HL_MODIFIED_ACTIVE)
    } else {
        (
            theme::HL_INACTIVE,
            theme::HL_NUMBER_INACTIVE,
            theme::HL_ICON_INACTIVE,
            theme::HL_MODIFIED_INACTIVE,
        )
    };
    let active = buf.active;
    let mut s = String::new();

    // Start clickable region: %N@FuncName@ where N is the buffer handle.
    let handle = decimal::decimal_i32(buf.handle);
    push3(&mut s, "%", handle.as_str(), "@NarabiSwitchBuf@");
    assert(s@ =~= click_start(buf.handle));
    let ghost after_click = s@;

    // Separator before tab (except for the first one).
    if idx > 0 {
        push3(&mut s, "%#", theme::HL_SEPARATOR, "# ");
    } else {
        assert(s@ =~= after_click + separator(idx as nat));
    }
    let ghost after_sep = s@;

    // Buffer ordinal number.
    let ordinal = decimal::decimal_u64(idx as u64 + 1);
    push5(&mut s, "%#", hl_num, "# ", ordinal.as_str(), " ");
    assert(s@ == after_sep + ordinal_text(active, idx as nat));
    let ghost after_ord = s@;

    // File icon.
    push5(&mut s, "%#", hl_icon, "#", glyph, " ");
    let ghost after_icon = s@;

    // Filename.
    push4(&mut s, "%#", hl_tab, "#", buf.name.as_str());
    let ghost after_name = s@;

    // Modified indicator.
    if buf.modified {
        push3(&mut s, " %#", hl_mod, "#[+]");
    } else {
        assert(s@ =~= after_name + modified_text(active, buf.modified));
    }

    // Trailing space inside the tab, then the end of the clickable region.
    push4(&mut s, "%#", hl_tab, "# ", "%X");
    s
}

/// Appends three pieces of text to `s`.
fn push3(s: &mut String, a: &str, b: &str, c: &str)
    ensures
        final(s)@ == old(s)@ + (a@ + b@ + c@),
{
    let ghost start = s@;
    s.append(a);
    s.append(b);
    s.append(c);
    assert(s@ =~= start + (a@ + b@ + c@));
}

/// Appends four pieces of text to `s`.
fn push4(s: &mut String, a: &str, b: &str, c: &str, d: &str)
    ensures
        final(s)@ == old(s)@ + (a@ + b@ + c@ + d@),
{
    let ghost start = s@;
    s.append(a);
    s.append(b);
    s.append(c);
    s.append(d);
    assert(s@ =~= start + (a@ + b@ + c@ + d@));
}

/// Appends five pieces of text to `s`.
fn push5(s: &mut String, a: &str, b: &str, c: &str, d: &str, e: &str)
    ensures
        final(s)@ == old(s)@ + (a@ + b@ + c@ + d@ + e@),
{
    let ghost start = s@;
    s.append(a);
    s.append(b);
    s.append(c);
    s.append(d);
    s.append(e);
    assert(s@ =~= start + (a@ + b@ + c@ + d@ + e@));
}

/// Render the full tabline string from a list of buffer info entries.
///
/// Each buffer is rendered as a clickable tab segment (see [`render_tab`])
/// whose icon kamon picks from the buffer's name; the fill highlight
/// follows the last tab. With no buffers, the tab line is the fill alone.
pub fn render_tabline(buffers: &[BufferInfo]) -> (r: String)
    ensures
        r@ == tabline(buffers::models(buffers@), icons_of(buffers::models(buffers@))),
{
    let ghost bs = buffers::models(buffers@);
    let ghost glyphs = icons_of(bs);
    let mut s = String::new();
    let n = buffers.len();
    for idx in 0..n
        invariant
            n == buffers@.len(),
            bs == buffers::models(buffers@),
            glyphs == icons_of(bs),
            s@ == tab_segments(bs.take(idx as int), glyphs),
    {
        let buf = &buffers[idx];
        let (glyph, _color) = icon_and_color(buf.name.as_str());
        let tab = render_tab(buf, idx, glyph);
        proof {
            assert(bs.take(idx + 1).drop_last() =~= bs.take(idx as int));
            assert(bs.take(idx + 1).last() == buf@);
        }
        s.append(tab.as_str());
    }
    assert(bs.take(n as int) =~= bs);
    s.append("%#");
    s.append(theme::HL_FILL);
    s.append("#");
    assert(s@ =~= tabline(bs, glyphs));
    s
}

/// Each part of a tab occurs in the tab, at the end of the parts before it.
proof fn lemma_tab_parts(b: BufferModel, idx: nat, glyph: Seq<char>)
    ensures
        ({
            let click = click_start(b.handle);
            let sep = separator(idx);
            let ord = ordinal_text(b.active, idx);
            let icon = icon_text(b.active, glyph);
            let name = name_text(b.active, b.name);
            let modt = modified_text(b.active, b.modified);
            let close = closing_text(b.active);
            let seg = tab_segment(b, idx, glyph);
            &&& occurs_at(seg, click, 0)
            &&& occurs_at(seg, sep, click.len() as int)
            &&& occurs_at(seg, ord, (click + sep).len() as int)
            &&& occurs_at(seg, icon, (click + sep + ord).len() as int)
            &&& occurs_at(seg, name, (click + sep + ord + icon).len() as int)
            &&& occurs_at(seg, modt, (click + sep + ord + icon + name).len() as int)
            &&& occurs_at(seg, close, (click + sep + ord + icon + name + modt).len() as int)
        }),
{
    let click = click_start(b.handle);
    let sep = separator(idx);
    let ord = ordinal_text(b.active, idx);
    let icon = icon_text(b.active, glyph);
    let name = name_text(b.active, b.name);
    let modt = modified_text(b.active, b.modified);
    let close = closing_text(b.active);
    let p1 = click;
    let p2 = p1 + sep;
    let p3 = p2 + ord;
    let p4 = p3 + icon;
    let p5 = p4 + name;
    let p6 = p5 + modt;
    // click
    text::lemma_occurs_self(click);
    text::lemma_occurs_in_prefix(p1, sep, click, 0);
    text::lemma_occurs_in_prefix(p2, ord, click, 0);
    text::lemma_occurs_in_prefix(p3, icon, click, 0);
    text::lemma_occurs_in_prefix(p4, name, click, 0);
    text::lemma_occurs_in_prefix(p5, modt, click, 0);
    text::lemma_occurs_in_prefix(p6, close, click, 0);
    // separator
    text::lemma_occurs_self(sep);
    text::lemma_occurs_in_suffix(p1, sep, sep, 0);
    text::lemma_occurs_in_prefix(p2, ord, sep, p1.len() as int);
    text::lemma_occurs_in_prefix(p3, icon, sep, p1.len() as int);
    text::lemma_occurs_in_prefix(p4, name, sep, p1.len() as int);
    text::lemma_occurs_in_prefix(p5, modt, sep, p1.len() as int);
    text::lemma_occurs_in_prefix(p6, close, sep, p1.len() as int);
    // ordinal
    text::lemma_occurs_self(ord);
    text::lemma_occurs_in_suffix(p2, ord, ord, 0);
    text::lemma_occurs_in_prefix(p3, icon, ord, p2.len() as int);
    text::lemma_occurs_in_prefix(p4, name, ord, p2.len() as int);
    text::lemma_occurs_in_prefix(p5, modt, ord, p2.len() as int);
    text::lemma_occurs_in_prefix(p6, close, ord, p2.len() as int);
    // icon
    text::lemma_occurs_self(icon);
    text::lemma_occurs_in_suffix(p3, icon, icon, 0);
    text::lemma_occurs_in_prefix(p4, name, icon, p3.len() as int);
    text::lemma_occurs_in_prefix(p5, modt, icon, p3.len() as int);
    text::lemma_occurs_in_prefix(p6, close, icon, p3.len() as int);
    // name
    text::lemma_occurs_self(name);
    text::lemma_occurs_in_suffix(p4, name, name, 0);
    text::lemma_occurs_in_prefix(p5, modt, name, p4.len() as int);
    text::lemma_occurs_in_prefix(p6, close, name, p4.len() as int);
    // modified indicator
    text::lemma_occurs_self(modt);
    text::lemma_occurs_in_suffix(p5, modt, modt, 0);
    text::lemma_occurs_in_prefix(p6, close, modt, p5.len() as int);
    // closing
    text::lemma_occurs_self(close);
    text::lemma_occurs_in_suffix(p6, close, close, 0);
}

/// The tab of the buffer at position `i` occurs in the tabs, after the tabs
/// of the buffers before it.
proof fn lemma_tab_in_segments(bs: Seq<BufferModel>, glyphs: Seq<Seq<char>>, i: int)
    requires
        0 <= i < bs.len(),
    ensures
        occurs_at(
            tab_segments(bs, glyphs),
            tab_segment(bs[i], i as nat, glyphs[i]),
            tab_segments(bs.take(i), glyphs).len() as int,
        ),
    decreases bs.len(),
{
    let last = (bs.len() - 1) as int;
    let earlier = bs.drop_last();
    let seg = tab_segment(bs.last(), last as nat, glyphs[last]);
    if i == last {
        assert(bs.take(i) =~= earlier);
        text::lemma_occurs_self(seg);
        text::lemma_occurs_in_suffix(tab_segments(earlier, glyphs), seg, seg, 0);
    } else {
        lemma_tab_in_segments(earlier, glyphs, i);
        assert(earlier.take(i) =~= bs.take(i));
        assert(earlier[i] == bs[i]);
        text::lemma_occurs_in_prefix(
            tab_segments(earlier, glyphs),
            seg,
            tab_segment(bs[i], i as nat, glyphs[i]),
            tab_segments(bs.take(i), glyphs).len() as int,
        );
    }
}

/// With no buffers, the tab line is the fill alone.
pub proof fn lemma_tabline_empty(glyphs: Seq<Seq<char>>)
    ensures
        tabline(Seq::empty(), glyphs) == fill_text(),
{
    assert(tabline(Seq::empty(), glyphs) =~= fill_text());
}

/// The tab line always ends with the fill highlight.
pub proof fn lemma_tabline_ends_with_fill(bs: Seq<BufferModel>, glyphs: Seq<Seq<char>>)
    ensures
        ends_with(tabline(bs, glyphs), fill_text()),
{
    text::lemma_occurs_self(fill_text());
    text::lemma_occurs_in_suffix(tab_segments(bs, glyphs), fill_text(), fill_text(), 0);
}

/// The tabs of the buffers follow each other in the tab line in the order
/// of the buffers: the tab of buffer `i` starts where the tabs of buffers
/// `0..i` end.
pub proof fn lemma_tabline_tab_order(bs: Seq<BufferModel>, glyphs: Seq<Seq<char>>, i: int)
    requires
        0 <= i < bs.len(),
    ensures
        occurs_at(
            tabline(bs, glyphs),
            tab_segment(bs[i], i as nat, glyphs[i]),
            tab_segments(bs.take(i), glyphs).len() as int,
        ),
{
    lemma_tab_in_segments(bs, glyphs, i);
    text::lemma_occurs_in_prefix(
        tab_segments(bs, glyphs),
        fill_text(),
        tab_segment(bs[i], i as nat, glyphs[i]),
        tab_segments(bs.take(i), glyphs).len() as int,
    );
}

/// What the tab line shows of each buffer: a clickable region that
/// switches to its handle, its ordinal `i + 1` in the number highlight of
/// its state, its file name in the highlight of its state (active or
/// inactive), the end of the clickable region, a separator before every
/// tab but the first, and the `[+]` indicator in the modified highlight of
/// its state when the buffer is modified.
pub proof fn lemma_tabline_shows_buffer(bs: Seq<BufferModel>, glyphs: Seq<Seq<char>>, i: int)
    requires
        0 <= i < bs.len(),
    ensures
        contains_text(tabline(bs, glyphs), click_start(bs[i].handle)),
        contains_text(tabline(bs, glyphs), ordinal_text(bs[i].active, i as nat)),
        contains_text(tabline(bs, glyphs), name_text(bs[i].active, bs[i].name)),
        contains_text(tabline(bs, glyphs), bs[i].name),
        contains_text(tabline(bs, glyphs), tab_group(bs[i].active)),
        contains_text(tabline(bs, glyphs), "%X"@),
        i > 0 ==> contains_text(tabline(bs, glyphs), separator(i as nat)),
        bs[i].modified ==> contains_text(tabline(bs, glyphs), modified_text(bs[i].active, true)),
        bs[i].modified ==> contains_text(tabline(bs, glyphs), modified_group(bs[i].active)),
        bs[i].modified ==> contains_text(tabline(bs, glyphs), "[+]"@),
{
    let b = bs[i];
    let t = tabline(bs, glyphs);
    let at = tab_segments(bs.take(i), glyphs).len() as int;
    let seg = tab_segment(b, i as nat, glyphs[i]);
    let click = click_start(b.handle);
    let sep = separator(i as nat);
    let ord = ordinal_text(b.active, i as nat);
    let icon = icon_text(b.active, glyphs[i]);
    let name = name_text(b.active, b.name);
    let modt = modified_text(b.active, b.modified);
    let close = closing_text(b.active);
    lemma_tabline_tab_order(bs, glyphs, i);
    lemma_tab_parts(b, i as nat, glyphs[i]);
    let o_sep = click.len() as int;
    let o_ord = (click + sep).len() as int;
    let o_name = (click + sep + ord + icon).len() as int;
    let o_mod = (click + sep + ord + icon + name).len() as int;
    let o_close = (click + sep + ord + icon + name + modt).len() as int;
    text::lemma_occurs_trans(t, seg, click, at, 0);
    text::lemma_occurs_trans(t, seg, ord, at, o_ord);
    text::lemma_occurs_trans(t, seg, name, at, o_name);
    // The name and the group sit inside the name text.
    let name_pre = "%#"@ + tab_group(b.active) + "#"@;
    text::lemma_occurs_self(b.name);
    text::lemma_occurs_in_suffix(name_pre, b.name, b.name, 0);
    text::lemma_occurs_trans(t, name, b.name, at + o_name, name_pre.len() as int);
    text::lemma_occurs_between("%#"@, tab_group(b.active), "#"@);
    text::lemma_occurs_in_prefix(name_pre, b.name, tab_group(b.active), ("%#"@).len() as int);
    text::lemma_occurs_trans(t, name, tab_group(b.active), at + o_name, ("%#"@).len() as int);
    // The end of the clickable region closes the tab.
    let close_pre = "%#"@ + tab_group(b.active) + "# "@;
    text::lemma_occurs_self("%X"@);
    text::lemma_occurs_in_suffix(close_pre, "%X"@, "%X"@, 0);
    text::lemma_occurs_trans(t, seg, close, at, o_close);
    text::lemma_occurs_trans(t, close, "%X"@, at + o_close, close_pre.len() as int);
    if i > 0 {
        text::lemma_occurs_trans(t, seg, sep, at, o_sep);
    }
    if b.modified {
        text::lemma_occurs_trans(t, seg, modt, at, o_mod);
        text::lemma_occurs_between(" %#"@, modified_group(b.active), "#[+]"@);
        text::lemma_occurs_trans(
            t,
            modt,
            modified_group(b.active),
            at + o_mod,
            (" %#"@).len() as int,
        );
        reveal_strlit("#[+]");
        reveal_strlit("[+]");
        let mark = "#[+]"@;
        assert(mark.subrange(1, 4) =~= "[+]"@);
        let mod_pre = " %#"@ + modified_group(b.active);
        text::lemma_occurs_in_suffix(mod_pre, mark, "[+]"@, 1);
        text::lemma_occurs_trans(t, modt, "[+]"@, at + o_mod, mod_pre.len() + 1int);
    }
}

/// Every highlight group that the tab line uses, for active and inactive
/// tabs alike, is one that the plugin registers.
pub proof fn lemma_tabline_groups_registered(active: bool)
    ensures
        theme::is_registered(tab_group(active)),
        theme::is_registered(number_group(active)),
        theme::is_registered(icon_group(active)),
        theme::is_registered(modified_group(active)),
        theme::is_registered(theme::HL_SEPARATOR@),
        theme::is_registered(theme::HL_FILL@),
{
    let t = theme::highlight_table();
    assert(t[0].name == theme::HL_FILL@);
    assert(t[9].name == theme::HL_SEPARATOR@);
    if active {
        assert(t[1].name == tab_group(active));
        assert(t[3].name == modified_group(active));
        assert(t[5].name == number_group(active));
        assert(t[7].name == icon_group(active));
    } else {
        assert(t[2].name == tab_group(active));
        assert(t[4].name == modified_group(active));
        assert(t[6].name == number_group(active));
        assert(t[8].name == icon_group(active));
    }
}

/// No fixed text of the tab line holds a `[`.
proof fn lemma_fixed_text_has_no_bracket()
    ensures
        !has_char("%"@, '['),
        !has_char("@NarabiSwitchBuf@"@, '['),
        !has_char("%#"@, '['),
        !has_char("# "@, '['),
        !has_char("#"@, '['),
        !has_char(" "@, '['),
        !has_char("%X"@, '['),
        forall|active: bool| !has_char(#[trigger] tab_group(active), '['),
        forall|active: bool| !has_char(#[trigger] number_group(active), '['),
        forall|active: bool| !has_char(#[trigger] icon_group(active), '['),
        !has_char(theme::HL_SEPARATOR@, '['),
        !has_char(theme::HL_FILL@, '['),
{
    reveal_strlit("%");
    reveal_strlit("@NarabiSwitchBuf@");
    reveal_strlit("%#");
    reveal_strlit("# ");
    reveal_strlit("#");
    reveal_strlit(" ");
    reveal_strlit("%X");
    reveal_strlit("NarabiActive");
    reveal_strlit("NarabiInactive");
    reveal_strlit("NarabiNumberActive");
    reveal_strlit("NarabiNumberInactive");
    reveal_strlit("NarabiIconActive");
    reveal_strlit("NarabiIconInactive");
    reveal_strlit("NarabiSeparator");
    reveal_strlit("NarabiFill");
}

/// The decimal text of a number holds no `[`.
proof fn lemma_numbers_have_no_bracket(handle: i32, ordinal: nat)
    ensures
        !has_char(decimal::signed_decimal(handle as int), '['),
        !has_char(decimal::decimal(ordinal), '['),
{
    broadcast use text::lemma_has_char_concat;

    let magnitude: nat = if handle < 0 {
        (-handle) as nat
    } else {
        handle as nat
    };
    decimal::lemma_decimal_digits(magnitude);
    decimal::lemma_decimal_digits(ordinal);
    assert(!has_char(seq!['-'], '['));
}

/// Outside its name and icon, a tab of an unmodified buffer holds no `[`.
proof fn lemma_tab_bracket(b: BufferModel, idx: nat, glyph: Seq<char>)
    requires
        !b.modified,
    ensures
        has_char(tab_segment(b, idx, glyph), '[') <==> has_char(b.name, '[') || has_char(
            glyph,
            '[',
        ),
{
    broadcast use text::lemma_has_char_concat;

    lemma_fixed_text_has_no_bracket();
    lemma_numbers_have_no_bracket(b.handle, idx + 1);
    assert(!has_char(Seq::<char>::empty(), '['));
    assert(!has_char(tab_group(b.active), '['));
    assert(!has_char(number_group(b.active), '['));
    assert(!has_char(icon_group(b.active), '['));
    assert(!has_char(click_start(b.handle), '['));
    assert(!has_char(separator(idx), '['));
    assert(!has_char(ordinal_text(b.active, idx), '['));
    assert(!has_char(closing_text(b.active), '['));
    assert(has_char(icon_text(b.active, glyph), '[') <==> has_char(glyph, '['));
    assert(has_char(name_text(b.active, b.name), '[') <==> has_char(b.name, '['));
}

/// Whether a buffer's name or its file icon holds `[`.
pub open spec fn holds_bracket(b: BufferModel, glyph: Seq<char>) -> bool {
    has_char(b.name, '[') || has_char(glyph, '[')
}

/// Whether some buffer name or icon among the first `n` tabs holds `[`.
pub open spec fn bracket_in_names(bs: Seq<BufferModel>, glyphs: Seq<Seq<char>>, n: int) -> bool {
    exists|i: int| 0 <= i < n && #[trigger] holds_bracket(bs[i], glyphs[i])
}

proof fn lemma_tabs_bracket(bs: Seq<BufferModel>, glyphs: Seq<Seq<char>>)
    requires
        forall|i: int| 0 <= i < bs.len() ==> !(#[trigger] bs[i]).modified,
    ensures
        has_char(tab_segments(bs, glyphs), '[') <==> bracket_in_names(
            bs,
            glyphs,
            bs.len() as int,
        ),
    decreases bs.len(),
{
    broadcast use text::lemma_has_char_concat;

    if bs.len() == 0 {
        assert(!has_char(Seq::<char>::empty(), '['));
    } else {
        let earlier = bs.drop_last();
        let last = bs.len() - 1;
        assert forall|i: int| 0 <= i < earlier.len() implies !(#[trigger] earlier[i]).modified by {
            assert(earlier[i] == bs[i]);
        }
        lemma_tabs_bracket(earlier, glyphs);
        lemma_tab_bracket(bs.last(), last as nat, glyphs[last]);
        assert(bs[last] == bs.last());
        if holds_bracket(bs[last], glyphs[last]) {
            assert(bracket_in_names(bs, glyphs, bs.len() as int));
        }
        if bracket_in_names(earlier, glyphs, earlier.len() as int) {
            let i = choose|i: int|
                0 <= i < earlier.len() as int && #[trigger] holds_bracket(earlier[i], glyphs[i]);
            assert(earlier[i] == bs[i]);
            assert(holds_bracket(bs[i], glyphs[i]));
        }
        if bracket_in_names(bs, glyphs, bs.len() as int) {
            let i = choose|i: int| 0 <= i < bs.len() as int && #[trigger] holds_bracket(bs[i], glyphs[i]);
            if i < last {
                assert(earlier[i] == bs[i]);
                assert(holds_bracket(earlier[i], glyphs[i]));
            } else {
                assert(bs[i] == bs.last());
            }
        }
    }
}

/// When no buffer is modified, the tab line holds a `[` only where a
/// buffer name or file icon holds one: the `[+]` indicator shows only for
/// modified buffers.
pub proof fn lemma_tabline_bracket_only_from_modified(bs: Seq<BufferModel>, glyphs: Seq<Seq<char>>)
    requires
        forall|i: int| 0 <= i < bs.len() ==> !(#[trigger] bs[i]).modified,
    ensures
        has_char(tabline(bs, glyphs), '[') <==> bracket_in_names(bs, glyphs, bs.len() as int),
{
    broadcast use text::lemma_has_char_concat;

    lemma_tabs_bracket(bs, glyphs);
    lemma_fixed_text_has_no_bracket();
}

/// The fixed texts of the tab line, character by character.
proof fn lemma_fixed_text_chars()
    ensures
        "%"@ == seq!['%'],
        "%#"@ == seq!['%', '#'],
        "# "@ == seq!['#', ' '],
        "#"@ == seq!['#'],
        " "@ == seq![' '],
        " %#"@ == seq![' ', '%', '#'],
        "#[+]"@ == seq!['#', '[', '+', ']'],
        "%X"@ == seq!['%', 'X'],
        "@NarabiSwitchBuf@"@.len() > 0,
        "@NarabiSwitchBuf@"@[0] == '@',
        !has_char("@NarabiSwitchBuf@"@, '%'),
{
    reveal_strlit("%");
    reveal_strlit("%#");
    reveal_strlit("# ");
    reveal_strlit("#");
    reveal_strlit(" ");
    reveal_strlit(" %#");
    reveal_strlit("#[+]");
    reveal_strlit("%X");
    reveal_strlit("@NarabiSwitchBuf@");
    assert("%"@ =~= seq!['%']);
    assert("%#"@ =~= seq!['%', '#']);
    assert("# "@ =~= seq!['#', ' ']);
    assert("#"@ =~= seq!['#']);
    assert(" "@ =~= seq![' ']);
    assert(" %#"@ =~= seq![' ', '%', '#']);
    assert("#[+]"@ =~= seq!['#', '[', '+', ']']);
    assert("%X"@ =~= seq!['%', 'X']);
}

/// No highlight group name holds a `%` or a `#`.
proof fn lemma_group_names_plain()
    ensures
        forall|active: bool|
            !has_char(#[trigger] tab_group(active), '%') && !has_char(tab_group(active), '#'),
        forall|active: bool|
            !has_char(#[trigger] number_group(active), '%') && !has_char(
                number_group(active),
                '#',
            ),
        forall|active: bool|
            !has_char(#[trigger] icon_group(active), '%') && !has_char(icon_group(active), '#'),
        forall|active: bool|
            !has_char(#[trigger] modified_group(active), '%') && !has_char(
                modified_group(active),
                '#',
            ),
        !has_char(theme::HL_SEPARATOR@, '%') && !has_char(theme::HL_SEPARATOR@, '#'),
        !has_char(theme::HL_FILL@, '%') && !has_char(theme::HL_FILL@, '#'),
{
    reveal_strlit("NarabiActive");
    reveal_strlit("NarabiInactive");
    reveal_strlit("NarabiNumberActive");
    reveal_strlit("NarabiNumberInactive");
    reveal_strlit("NarabiIconActive");
    reveal_strlit("NarabiIconInactive");
    reveal_strlit("NarabiModifiedActive");
    reveal_strlit("NarabiModifiedInactive");
    reveal_strlit("NarabiSeparator");
    reveal_strlit("NarabiFill");
}

/// A text without `%` starts no highlight item.
proof fn lemma_no_percent_payload(p: Seq<char>)
    requires
        !has_char(p, '%'),
    ensures
        text::no_item_start(p),
        !text::ends_with_percent(p),
{
    if p.len() > 0 {
        assert(p[p.len() - 1] == p.last());
    }
}

/// The decimal texts hold only digits and `-`, and are not empty.
proof fn lemma_numbers_plain(handle: i32, ordinal: nat)
    ensures
        !has_char(decimal::signed_decimal(handle as int), '%'),
        !has_char(decimal::decimal(ordinal), '%'),
        decimal::signed_decimal(handle as int).len() > 0,
        decimal::signed_decimal(handle as int)[0] != '#',
{
    broadcast use text::lemma_has_char_concat;

    let magnitude: nat = if handle < 0 {
        (-handle) as nat
    } else {
        handle as nat
    };
    decimal::lemma_decimal_digits(magnitude);
    decimal::lemma_decimal_digits(ordinal);
    assert(!has_char(seq!['-'], '%'));
    assert(decimal::decimal(magnitude).len() > 0);
    if handle >= 0 {
        assert(decimal::decimal(magnitude)[0] == decimal::signed_decimal(handle as int)[0]);
    }
}

/// The groups the tab line accepts: those the plugin registers.
pub open spec fn registered_group() -> spec_fn(Seq<char>) -> bool {
    |g: Seq<char>| theme::is_registered(g)
}

/// The clickable region of a tab starts no highlight item.
proof fn lemma_click_starts_no_item(handle: i32)
    ensures
        text::no_item_start(click_start(handle)),
        !text::ends_with_percent(click_start(handle)),
{
    lemma_fixed_text_chars();
    lemma_numbers_plain(handle, 1);
    let dec_h = decimal::signed_decimal(handle as int);
    let lit = "@NarabiSwitchBuf@"@;
    let click = click_start(handle);
    let pd = seq!['%'] + dec_h;
    assert forall|i: int| 0 <= i && i + 1 < click.len() && #[trigger] click[i] == '%' implies click[i
        + 1] != '#' by {
        if i == 0 {
            assert(click[1] == dec_h[0]);
        } else if i < pd.len() {
            assert(click[i] == dec_h[i - 1]);
            assert(has_char(dec_h, '%'));
        } else {
            assert(click[i] == lit[i - pd.len()]);
            assert(has_char(lit, '%'));
        }
    }
    assert(click.last() == lit[lit.len() - 1]);
    if lit[lit.len() - 1] == '%' {
        assert(has_char(lit, '%'));
    }
}

/// Appending an item `%#G#` of a registered group and then text without `%`
/// keeps every item closed.
proof fn lemma_item_then_text(s: Seq<char>, g: Seq<char>, p: Seq<char>)
    requires
        items_closed(s, registered_group()),
        theme::is_registered(g),
        !has_char(g, '#'),
        !has_char(g, '%'),
        !has_char(p, '%'),
    ensures
        items_closed(s + seq!['%', '#'] + g + seq!['#'] + p, registered_group()),
{
    text::lemma_items_closed_item(s, g, registered_group());
    lemma_no_percent_payload(p);
    text::lemma_items_closed_payload(s + seq!['%', '#'] + g + seq!['#'], p, registered_group());
}

/// A separator keeps every item closed.
proof fn lemma_separator_items(s: Seq<char>, idx: nat)
    requires
        items_closed(s, registered_group()),
    ensures
        items_closed(s + separator(idx), registered_group()),
{
    let sp = seq![' '];
    if idx > 0 {
        lemma_fixed_text_chars();
        lemma_group_names_plain();
        lemma_tabline_groups_registered(true);
        assert(!has_char(sp, '%'));
        lemma_item_then_text(s, theme::HL_SEPARATOR@, sp);
        assert(s + separator(idx) =~= s + seq!['%', '#'] + theme::HL_SEPARATOR@ + seq!['#'] + sp);
    } else {
        assert(s + separator(idx) =~= s);
    }
}

/// An ordinal keeps every item closed.
proof fn lemma_ordinal_items(s: Seq<char>, active: bool, idx: nat)
    requires
        items_closed(s, registered_group()),
    ensures
        items_closed(s + ordinal_text(active, idx), registered_group()),
{
    lemma_fixed_text_chars();
    lemma_group_names_plain();
    lemma_tabline_groups_registered(active);
    lemma_numbers_plain(0, idx + 1);
    let sp = seq![' '];
    let dec_o = decimal::decimal(idx + 1);
    let p = sp + dec_o + sp;
    assert(!has_char(sp, '%'));
    text::lemma_has_char_concat(sp, dec_o, '%');
    text::lemma_has_char_concat(sp + dec_o, sp, '%');
    lemma_item_then_text(s, number_group(active), p);
    assert(s + ordinal_text(active, idx) =~= s + seq!['%', '#'] + number_group(active) + seq!['#']
        + p);
}

/// A file icon without `%` keeps every item closed.
proof fn lemma_icon_items(s: Seq<char>, active: bool, glyph: Seq<char>)
    requires
        items_closed(s, registered_group()),
        !has_char(glyph, '%'),
    ensures
        items_closed(s + icon_text(active, glyph), registered_group()),
{
    lemma_fixed_text_chars();
    lemma_group_names_plain();
    lemma_tabline_groups_registered(active);
    let sp = seq![' '];
    let p = glyph + sp;
    assert(!has_char(sp, '%'));
    text::lemma_has_char_concat(glyph, sp, '%');
    lemma_item_then_text(s, icon_group(active), p);
    assert(s + icon_text(active, glyph) =~= s + seq!['%', '#'] + icon_group(active) + seq!['#']
        + p);
}

/// A file name without `%` keeps every item closed.
proof fn lemma_name_items(s: Seq<char>, active: bool, name: Seq<char>)
    requires
        items_closed(s, registered_group()),
        !has_char(name, '%'),
    ensures
        items_closed(s + name_text(active, name), registered_group()),
{
    lemma_fixed_text_chars();
    lemma_group_names_plain();
    lemma_tabline_groups_registered(active);
    lemma_item_then_text(s, tab_group(active), name);
    assert(s + name_text(active, name) =~= s + seq!['%', '#'] + tab_group(active) + seq!['#']
        + name);
}

/// A modified indicator keeps every item closed.
proof fn lemma_modified_items(s: Seq<char>, active: bool, modified: bool)
    requires
        items_closed(s, registered_group()),
    ensures
        items_closed(s + modified_text(active, modified), registered_group()),
{
    if modified {
        lemma_fixed_text_chars();
        lemma_group_names_plain();
        lemma_tabline_groups_registered(active);
        let sp = seq![' '];
        let mark = seq!['[', '+', ']'];
        assert(!has_char(sp, '%'));
        assert(!has_char(mark, '%'));
        lemma_no_percent_payload(sp);
        text::lemma_items_closed_payload(s, sp, registered_group());
        lemma_item_then_text(s + sp, modified_group(active), mark);
        assert(s + modified_text(active, true) =~= s + sp + seq!['%', '#'] + modified_group(active)
            + seq!['#'] + mark);
    } else {
        assert(s + modified_text(active, false) =~= s);
    }
}

/// The end of a tab keeps every item closed.
proof fn lemma_closing_items(s: Seq<char>, active: bool)
    requires
        items_closed(s, registered_group()),
    ensures
        items_closed(s + closing_text(active), registered_group()),
{
    lemma_fixed_text_chars();
    lemma_group_names_plain();
    lemma_tabline_groups_registered(active);
    let g = tab_group(active);
    text::lemma_items_closed_item(s, g, registered_group());
    let p = seq![' ', '%', 'X'];
    assert forall|i: int| 0 <= i && i + 1 < p.len() && #[trigger] p[i] == '%' implies p[i + 1]
        != '#' by {}
    text::lemma_items_closed_payload(s + seq!['%', '#'] + g + seq!['#'], p, registered_group());
    assert(s + closing_text(active) =~= s + seq!['%', '#'] + g + seq!['#'] + p);
}

/// After a tab, every highlight item is closed and names a registered group.
#[verifier::spinoff_prover]
proof fn lemma_tab_items(s: Seq<char>, b: BufferModel, idx: nat, glyph: Seq<char>)
    requires
        items_closed(s, registered_group()),
        !has_char(b.name, '%'),
        !has_char(glyph, '%'),
    ensures
        items_closed(s + tab_segment(b, idx, glyph), registered_group()),
{
    let act = b.active;
    let click = click_start(b.handle);
    lemma_click_starts_no_item(b.handle);
    text::lemma_items_closed_payload(s, click, registered_group());
    let s1 = s + click;
    lemma_separator_items(s1, idx);
    let s2 = s1 + separator(idx);
    lemma_ordinal_items(s2, act, idx);
    let s3 = s2 + ordinal_text(act, idx);
    lemma_icon_items(s3, act, glyph);
    let s4 = s3 + icon_text(act, glyph);
    lemma_name_items(s4, act, b.name);
    let s5 = s4 + name_text(act, b.name);
    lemma_modified_items(s5, act, b.modified);
    let s6 = s5 + modified_text(act, b.modified);
    lemma_closing_items(s6, act);
    let s7 = s6 + closing_text(act);
    assert(s + tab_segment(b, idx, glyph) =~= s7);
}

/// Every tab prefix of the tab line keeps its items closed.
#[verifier::spinoff_prover]
proof fn lemma_tabs_items(bs: Seq<BufferModel>, glyphs: Seq<Seq<char>>)
    requires
        forall|i: int|
            0 <= i < bs.len() ==> !has_char(#[trigger] bs[i].name, '%') && !has_char(
                glyphs[i],
                '%',
            ),
    ensures
        items_closed(tab_segments(bs, glyphs), registered_group()),
    decreases bs.len(),
{
    if bs.len() == 0 {
        text::lemma_items_closed_empty(registered_group());
    } else {
        let earlier = bs.drop_last();
        let last = bs.len() - 1;
        assert forall|i: int| 0 <= i < earlier.len() implies !has_char(
            #[trigger] earlier[i].name,
            '%',
        ) && !has_char(glyphs[i], '%') by {
            assert(earlier[i] == bs[i]);
        }
        lemma_tabs_items(earlier, glyphs);
        assert(!has_char(bs[last].name, '%'));
        lemma_tab_items(tab_segments(earlier, glyphs), bs.last(), last as nat, glyphs[last]);
    }
}

/// Every highlight item `%#G#` of the tab line names a group that the
/// plugin registers, when no buffer name or file icon holds a `%` (only a
/// `%` inside a name or icon can start an item of its own).
#[verifier::spinoff_prover]
pub proof fn lemma_tabline_items_registered(bs: Seq<BufferModel>, glyphs: Seq<Seq<char>>)
    requires
        forall|i: int|
            0 <= i < bs.len() ==> !has_char(#[trigger] bs[i].name, '%') && !has_char(
                glyphs[i],
                '%',
            ),
    ensures
        forall|k: int, j: int|
            #[trigger] text::is_group_item(tabline(bs, glyphs), k, j) ==> theme::is_registered(
                tabline(bs, glyphs).subrange(k + 2, j),
            ),
{
    let good = registered_group();
    lemma_tabs_items(bs, glyphs);
    lemma_fixed_text_chars();
    lemma_group_names_plain();
    lemma_tabline_groups_registered(true);
    let segs = tab_segments(bs, glyphs);
    text::lemma_items_closed_item(segs, theme::HL_FILL@, good);
    assert(tabline(bs, glyphs) =~= segs + seq!['%', '#'] + theme::HL_FILL@ + seq!['#']);
    reveal(text::items_closed);
}

/// A word of the tab line that starts with `N` and holds no break.
pub open spec fn is_word(n: Seq<char>) -> bool {
    n.len() > 0 && n[0] == 'N' && text::free_of_breaks(n)
}

proof fn lemma_occurrence_chars(h: Seq<char>, n: Seq<char>, k: int)
    requires
        occurs_at(h, n, k),
        n.len() >= 8,
    ensures
        h[k] == n[0],
        h[k + 1] == n[1],
        h[k + 6] == n[6],
        h[k + 7] == n[7],
{
    let w = h.subrange(k, k + n.len());
    assert(w[0] == h[k] && w[1] == h[k + 1] && w[6] == h[k + 6] && w[7] == h[k + 7]);
}

/// `n` does not occur in `h`, shown by the characters of a would-be
/// occurrence.
proof fn lemma_word_absent(h: Seq<char>, n: Seq<char>)
    requires
        n.len() >= 8,
        forall|k: int|
            0 <= k && k + n.len() <= h.len() ==> !(#[trigger] h[k] == n[0] && h[k + 1] == n[1] && h[k + 6]
                == n[6] && h[k + 7] == n[7]),
    ensures
        !contains_text(h, n),
{
    if contains_text(h, n) {
        let k = choose|k: int| occurs_at(h, n, k);
        lemma_occurrence_chars(h, n, k);
    }
}

/// The names of the active and inactive tab groups are words; neither
/// occurs in the fixed text of the tab line, nor in the groups of tabs of
/// the other kind.
proof fn lemma_group_words()
    ensures
        is_word(theme::HL_ACTIVE@),
        is_word(theme::HL_INACTIVE@),
        !contains_text("@NarabiSwitchBuf@"@, theme::HL_ACTIVE@),
        !contains_text(theme::HL_SEPARATOR@, theme::HL_ACTIVE@),
        !contains_text(theme::HL_FILL@, theme::HL_ACTIVE@),
        !contains_text(tab_group(false), theme::HL_ACTIVE@),
        !contains_text(number_group(false), theme::HL_ACTIVE@),
        !contains_text(icon_group(false), theme::HL_ACTIVE@),
        !contains_text(modified_group(false), theme::HL_ACTIVE@),
        !contains_text("@NarabiSwitchBuf@"@, theme::HL_INACTIVE@),
        !contains_text(theme::HL_SEPARATOR@, theme::HL_INACTIVE@),
        !contains_text(theme::HL_FILL@, theme::HL_INACTIVE@),
        !contains_text(tab_group(true), theme::HL_INACTIVE@),
        !contains_text(number_group(true), theme::HL_INACTIVE@),
        !contains_text(icon_group(true), theme::HL_INACTIVE@),
        !contains_text(modified_group(true), theme::HL_INACTIVE@),
{
    reveal_strlit("@NarabiSwitchBuf@");
    reveal_strlit("NarabiActive");
    reveal_strlit("NarabiInactive");
    reveal_strlit("NarabiNumberActive");
    reveal_strlit("NarabiNumberInactive");
    reveal_strlit("NarabiIconActive");
    reveal_strlit("NarabiIconInactive");
    reveal_strlit("NarabiModifiedActive");
    reveal_strlit("NarabiModifiedInactive");
    reveal_strlit("NarabiSeparator");
    reveal_strlit("NarabiFill");
    let a = theme::HL_ACTIVE@;
    let i = theme::HL_INACTIVE@;
    lemma_word_absent("@NarabiSwitchBuf@"@, a);
    lemma_word_absent(theme::HL_SEPARATOR@, a);
    lemma_word_absent(theme::HL_FILL@, a);
    lemma_word_absent(theme::HL_INACTIVE@, a);
    lemma_word_absent(theme::HL_NUMBER_INACTIVE@, a);
    lemma_word_absent(theme::HL_ICON_INACTIVE@, a);
    lemma_word_absent(theme::HL_MODIFIED_INACTIVE@, a);
    lemma_word_absent("@NarabiSwitchBuf@"@, i);
    lemma_word_absent(theme::HL_SEPARATOR@, i);
    lemma_word_absent(theme::HL_FILL@, i);
    lemma_word_absent(theme::HL_ACTIVE@, i);
    lemma_word_absent(theme::HL_NUMBER_ACTIVE@, i);
    lemma_word_absent(theme::HL_ICON_ACTIVE@, i);
    lemma_word_absent(theme::HL_MODIFIED_ACTIVE@, i);
}

/// A word occurs in none of the short fixed texts, and in no number.
proof fn lemma_word_not_in_fixed_text(n: Seq<char>, handle: i32, ordinal: nat)
    requires
        is_word(n),
    ensures
        !contains_text("%"@, n),
        !contains_text("%#"@, n),
        !contains_text("# "@, n),
        !contains_text("#"@, n),
        !contains_text(" "@, n),
        !contains_text(" %#"@, n),
        !contains_text("#[+]"@, n),
        !contains_text("%X"@, n),
        !contains_text(Seq::<char>::empty(), n),
        !contains_text(decimal::signed_decimal(handle as int), n),
        !contains_text(decimal::decimal(ordinal), n),
{
    broadcast use text::lemma_has_char_concat;

    lemma_fixed_text_chars();
    text::lemma_avoid_without_first("%"@, n);
    text::lemma_avoid_without_first("%#"@, n);
    text::lemma_avoid_without_first("# "@, n);
    text::lemma_avoid_without_first("#"@, n);
    text::lemma_avoid_without_first(" "@, n);
    text::lemma_avoid_without_first(" %#"@, n);
    text::lemma_avoid_without_first("#[+]"@, n);
    text::lemma_avoid_without_first("%X"@, n);
    text::lemma_avoid_without_first(Seq::<char>::empty(), n);
    let magnitude: nat = if handle < 0 {
        (-handle) as nat
    } else {
        handle as nat
    };
    decimal::lemma_decimal_digits(magnitude);
    decimal::lemma_decimal_digits(ordinal);
    assert(!has_char(seq!['-'], 'N'));
    text::lemma_avoid_without_first(decimal::signed_decimal(handle as int), n);
    text::lemma_avoid_without_first(decimal::decimal(ordinal), n);
}

/// The groups a tab of the given state uses.
pub open spec fn groups_avoid(active: bool, n: Seq<char>) -> bool {
    &&& !contains_text(tab_group(active), n)
    &&& !contains_text(number_group(active), n)
    &&& !contains_text(icon_group(active), n)
    &&& !contains_text(modified_group(active), n)
}

/// What a word must avoid for a tab not to show it.
pub open spec fn tab_avoids(b: BufferModel, glyph: Seq<char>, n: Seq<char>) -> bool {
    &&& is_word(n)
    &&& groups_avoid(b.active, n)
    &&& !contains_text(theme::HL_SEPARATOR@, n)
    &&& !contains_text("@NarabiSwitchBuf@"@, n)
    &&& !contains_text(b.name, n)
    &&& !contains_text(glyph, n)
}

/// A word that occurs in no part of a tab does not occur in the tab.
proof fn lemma_tab_avoids(b: BufferModel, idx: nat, glyph: Seq<char>, n: Seq<char>)
    requires
        tab_avoids(b, glyph, n),
    ensures
        !contains_text(tab_segment(b, idx, glyph), n),
        tab_segment(b, idx, glyph).len() > 0,
        tab_segment(b, idx, glyph)[0] == '%',
{
    let act = b.active;
    lemma_fixed_text_chars();
    lemma_word_not_in_fixed_text(n, b.handle, idx + 1);
    let pct = "%#"@;
    let dec_h = decimal::signed_decimal(b.handle as int);
    let dec_o = decimal::decimal(idx + 1);
    // Clickable region.
    text::lemma_avoid_concat("%"@, dec_h, n);
    text::lemma_avoid_concat("%"@ + dec_h, "@NarabiSwitchBuf@"@, n);
    let click = click_start(b.handle);
    assert(click[0] == '%');
    // Separator.
    let sep = separator(idx);
    if idx > 0 {
        text::lemma_avoid_concat(pct, theme::HL_SEPARATOR@, n);
        text::lemma_avoid_concat(pct + theme::HL_SEPARATOR@, "# "@, n);
        assert(sep[0] == '%');
    }
    // Ordinal.
    let num = number_group(act);
    let a1 = pct + num;
    text::lemma_avoid_concat(pct, num, n);
    text::lemma_avoid_concat(a1, "# "@, n);
    let a2 = a1 + "# "@;
    assert(a2.last() == ' ');
    text::lemma_avoid_concat(a2, dec_o, n);
    text::lemma_avoid_concat(a2 + dec_o, " "@, n);
    let ord = ordinal_text(act, idx);
    assert(ord[0] == '%');
    // Icon.
    let icon = icon_group(act);
    text::lemma_avoid_concat(pct, icon, n);
    text::lemma_avoid_concat(pct + icon, "#"@, n);
    let i2 = pct + icon + "#"@;
    assert(i2.last() == '#');
    text::lemma_avoid_concat(i2, glyph, n);
    text::lemma_avoid_concat(i2 + glyph, " "@, n);
    let ic = icon_text(act, glyph);
    assert(ic[0] == '%');
    // Name.
    let tab = tab_group(act);
    text::lemma_avoid_concat(pct, tab, n);
    text::lemma_avoid_concat(pct + tab, "#"@, n);
    let n2 = pct + tab + "#"@;
    assert(n2.last() == '#');
    text::lemma_avoid_concat(n2, b.name, n);
    let nm = name_text(act, b.name);
    assert(nm[0] == '%');
    // Modified indicator.
    let modt = modified_text(act, b.modified);
    if b.modified {
        let modg = modified_group(act);
        text::lemma_avoid_concat(" %#"@, modg, n);
        text::lemma_avoid_concat(" %#"@ + modg, "#[+]"@, n);
        assert(modt[0] == ' ');
    }
    // Closing.
    text::lemma_avoid_concat(pct, tab, n);
    text::lemma_avoid_concat(pct + tab, "# "@, n);
    text::lemma_avoid_concat(pct + tab + "# "@, "%X"@, n);
    let close = closing_text(act);
    assert(close[0] == '%');
    // The whole tab.
    text::lemma_avoid_concat(click, sep, n);
    let t2 = click + sep;
    text::lemma_avoid_concat(t2, ord, n);
    let t3 = t2 + ord;
    text::lemma_avoid_concat(t3, ic, n);
    let t4 = t3 + ic;
    text::lemma_avoid_concat(t4, nm, n);
    let t5 = t4 + nm;
    text::lemma_avoid_concat(t5, modt, n);
    let t6 = t5 + modt;
    text::lemma_avoid_concat(t6, close, n);
}

/// A word that no tab shows does not occur in the tab line.
#[verifier::spinoff_prover]
proof fn lemma_tabline_avoids(bs: Seq<BufferModel>, glyphs: Seq<Seq<char>>, n: Seq<char>)
    requires
        is_word(n),
        !contains_text(theme::HL_FILL@, n),
        forall|i: int| 0 <= i < bs.len() ==> #[trigger] tab_avoids(bs[i], glyphs[i], n),
    ensures
        !contains_text(tabline(bs, glyphs), n),
{
    lemma_tabs_avoid(bs, glyphs, n);
    lemma_fixed_text_chars();
    lemma_word_not_in_fixed_text(n, 0, 0);
    text::lemma_avoid_concat("%#"@, theme::HL_FILL@, n);
    text::lemma_avoid_concat("%#"@ + theme::HL_FILL@, "#"@, n);
    let fill = fill_text();
    assert(fill[0] == '%');
    text::lemma_avoid_concat(tab_segments(bs, glyphs), fill, n);
}

#[verifier::spinoff_prover]
proof fn lemma_tabs_avoid(bs: Seq<BufferModel>, glyphs: Seq<Seq<char>>, n: Seq<char>)
    requires
        is_word(n),
        forall|i: int| 0 <= i < bs.len() ==> #[trigger] tab_avoids(bs[i], glyphs[i], n),
    ensures
        !contains_text(tab_segments(bs, glyphs), n),
    decreases bs.len(),
{
    if bs.len() == 0 {
        lemma_word_not_in_fixed_text(n, 0, 0);
    } else {
        let earlier = bs.drop_last();
        let last = bs.len() - 1;
        assert forall|i: int| 0 <= i < earlier.len() implies #[trigger] tab_avoids(
            earlier[i],
            glyphs[i],
            n,
        ) by {
            assert(earlier[i] == bs[i]);
            assert(tab_avoids(bs[i], glyphs[i], n));
        }
        lemma_tabs_avoid(earlier, glyphs, n);
        assert(bs[last] == bs.last());
        assert(tab_avoids(bs[last], glyphs[last], n));
        lemma_tab_avoids(bs.last(), last as nat, glyphs[last], n);
        text::lemma_avoid_concat(
            tab_segments(earlier, glyphs),
            tab_segment(bs.last(), last as nat, glyphs[last]),
            n,
        );
    }
}

/// The tab line names the active tab group exactly when some buffer is
/// active, and the inactive tab group exactly when some buffer is not, when
/// no buffer name or file icon holds the group name itself.
#[verifier::spinoff_prover]
pub proof fn lemma_tabline_state_groups(bs: Seq<BufferModel>, glyphs: Seq<Seq<char>>)
    requires
        forall|i: int|
            0 <= i < bs.len() ==> !contains_text(#[trigger] bs[i].name, theme::HL_ACTIVE@)
                && !contains_text(glyphs[i], theme::HL_ACTIVE@) && !contains_text(
                bs[i].name,
                theme::HL_INACTIVE@,
            ) && !contains_text(glyphs[i], theme::HL_INACTIVE@),
    ensures
        contains_text(tabline(bs, glyphs), theme::HL_ACTIVE@) <==> exists|i: int|
            0 <= i < bs.len() && (#[trigger] bs[i]).active,
        contains_text(tabline(bs, glyphs), theme::HL_INACTIVE@) <==> exists|i: int|
            0 <= i < bs.len() && !(#[trigger] bs[i]).active,
{
    lemma_group_words();
    let a = theme::HL_ACTIVE@;
    let ia = theme::HL_INACTIVE@;
    if exists|i: int| 0 <= i < bs.len() && (#[trigger] bs[i]).active {
        let i = choose|i: int| 0 <= i < bs.len() && (#[trigger] bs[i]).active;
        lemma_tabline_shows_buffer(bs, glyphs, i);
    } else {
        assert forall|i: int| 0 <= i < bs.len() implies #[trigger] tab_avoids(
            bs[i],
            glyphs[i],
            a,
        ) by {
            assert(!bs[i].active);
        }
        lemma_tabline_avoids(bs, glyphs, a);
    }
    if exists|i: int| 0 <= i < bs.len() && !(#[trigger] bs[i]).active {
        let i = choose|i: int| 0 <= i < bs.len() && !(#[trigger] bs[i]).active;
        lemma_tabline_shows_buffer(bs, glyphs, i);
    } else {
        assert forall|i: int| 0 <= i < bs.len() implies #[trigger] tab_avoids(
            bs[i],
            glyphs[i],
            ia,
        ) by {
            assert(bs[i].active);
        }
        lemma_tabline_avoids(bs, glyphs, ia);
    }
}

/// The tab at position `idx` shows its 1-based ordinal: right after its
/// clickable region and separator stands `%#`, the number group of its
/// state, `# `, the decimal digits of `idx + 1`, and a space; the digits
/// read back as `idx + 1`.
pub proof fn lemma_tab_ordinal(b: BufferModel, idx: nat, glyph: Seq<char>)
    ensures
        occurs_at(
            tab_segment(b, idx, glyph),
            "%#"@ + number_group(b.active) + "# "@ + decimal::decimal(idx + 1) + " "@,
            (click_start(b.handle) + separator(idx)).len() as int,
        ),
        decimal::digits_value(decimal::decimal(idx + 1)) == idx + 1,
{
    lemma_tab_parts(b, idx, glyph);
    assert(ordinal_text(b.active, idx) == "%#"@ + number_group(b.active) + "# "@ + decimal::decimal(
        idx + 1,
    ) + " "@);
    decimal::lemma_decimal_round_trip(idx + 1);
}

/// Every tab of the tab line shows its own 1-based position as its ordinal,
/// so tabs at different positions show different ordinals.
pub proof fn lemma_tabline_ordinals(bs: Seq<BufferModel>, glyphs: Seq<Seq<char>>, i: int, j: int)
    requires
        0 <= i < bs.len(),
        0 <= j < bs.len(),
    ensures
        contains_text(
            tabline(bs, glyphs),
            "%#"@ + number_group(bs[i].active) + "# "@ + decimal::decimal((i + 1) as nat) + " "@,
        ),
        decimal::digits_value(decimal::decimal((i + 1) as nat)) == i + 1,
        i != j ==> decimal::decimal((i + 1) as nat) != decimal::decimal((j + 1) as nat),
{
    let at = tab_segments(bs.take(i), glyphs).len() as int;
    let seg = tab_segment(bs[i], i as nat, glyphs[i]);
    let ord = "%#"@ + number_group(bs[i].active) + "# "@ + decimal::decimal((i + 1) as nat) + " "@;
    lemma_tabline_tab_order(bs, glyphs, i);
    lemma_tab_ordinal(bs[i], i as nat, glyphs[i]);
    text::lemma_occurs_trans(
        tabline(bs, glyphs),
        seg,
        ord,
        at,
        (click_start(bs[i].handle) + separator(i as nat)).len() as int,
    );
    decimal::lemma_decimal_injective((i + 1) as nat, (j + 1) as nat);
}

/// A tab starts with the clickable region of its buffer: `%`, the buffer's
/// handle in decimal (read back as the handle), and `@NarabiSwitchBuf@`;
/// and it shows the buffer's name after `%#`, the tab group of its state and
/// `#`.
pub proof fn lemma_tab_click_and_name(b: BufferModel, idx: nat, glyph: Seq<char>)
    ensures
        occurs_at(
            tab_segment(b, idx, glyph),
            "%"@ + decimal::signed_decimal(b.handle as int) + "@NarabiSwitchBuf@"@,
            0,
        ),
        b.handle >= 0 ==> decimal::digits_value(decimal::signed_decimal(b.handle as int))
            == b.handle,
        b.handle < 0 ==> decimal::digits_value(
            decimal::signed_decimal(b.handle as int).drop_first(),
        ) == -b.handle,
        contains_text(tab_segment(b, idx, glyph), "%#"@ + tab_group(b.active) + "#"@ + b.name),
{
    lemma_tab_parts(b, idx, glyph);
    assert(click_start(b.handle) == "%"@ + decimal::signed_decimal(b.handle as int)
        + "@NarabiSwitchBuf@"@);
    assert(name_text(b.active, b.name) == "%#"@ + tab_group(b.active) + "#"@ + b.name);
    decimal::lemma_signed_decimal_round_trip(b.handle as int);
}

} // verus!
