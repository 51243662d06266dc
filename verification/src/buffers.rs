//! Buffer information: the short name shown for a buffer, and which of
//! Neovim's buffers the tab line lists.

use vstd::prelude::*;

use crate::path;

verus! {

/// Metadata for a single buffer shown in the tabline.
#[derive(Debug, Clone, PartialEq, Eq)]
pub struct BufferInfo {
    /// The Neovim buffer handle (1-indexed).
    pub handle: i32,
    /// Short display name (filename without the directory path).
    pub name: String,
    /// Full path, if available.
    pub full_path: String,
    /// Whether the buffer has unsaved changes.
    pub modified: bool,
    /// Whether this buffer is the currently active one.
    pub active: bool,
}

/// The mathematical value of a [`BufferInfo`]: its strings as character
/// sequences.
pub struct BufferModel {
    pub handle: i32,
    pub name: Seq<char>,
    pub full_path: Seq<char>,
    pub modified: bool,
    pub active: bool,
}

impl View for BufferInfo {
    type V = BufferModel;

    open spec fn view(&self) -> BufferModel {
        BufferModel {
            handle: self.handle,
            name: self.name@,
            full_path: self.full_path@,
            modified: self.modified,
            active: self.active,
        }
    }
}

/// The name shown for a buffer whose name is `full`: `[No Name]` for an
/// empty name, else the final component of the path, else the whole name.
pub open spec fn short_name_of(full: Seq<char>) -> Seq<char> {
    if full.len() == 0 {
        "[No Name]"@
    } else {
        match path::file_name_of(full) {
            Some(name) => name,
            None => full,
        }
    }
}

/// Extract the short display name from a full path or buffer name.
///
/// Returns `"[No Name]"` for empty strings. Paths are read with Unix path
/// syntax (`/` separates components), as `std::path::Path` reads them on
/// Unix hosts, whatever the platform the library runs on: on a Windows
/// host `\` and drive prefixes such as `C:` are not treated specially, so
/// `C:\a\main.rs` is shown whole.
pub fn short_name(full: &str) -> (r: String)
    ensures
        r@ == short_name_of(full@),
{
    if full.is_empty() {
        return "[No Name]".to_owned();
    }
    match path::file_name(full) {
        Some(name) => name.to_owned(),
        None => full.to_owned(),
    }
}

/// The name shown for a buffer is never empty.
pub proof fn lemma_short_name_nonempty(full: Seq<char>)
    ensures
        short_name_of(full).len() > 0,
{
    reveal_strlit("[No Name]");
    path::lemma_file_name_is_plain(full);
}

/// A path that ends in a plain file name, with or without directories
/// before it, is shown as that file name.
pub proof fn lemma_short_name_of_file_in_dir(dir: Seq<char>, name: Seq<char>)
    requires
        path::is_plain_name(name),
        dir.len() == 0 || dir.last() == '/',
    ensures
        short_name_of(dir + name) == name,
{
    path::lemma_file_name_of_last_component(dir, name);
}

/// Shortening a name twice gives the same name as shortening it once.
pub proof fn lemma_short_name_idempotent(full: Seq<char>)
    ensures
        short_name_of(short_name_of(full)) == short_name_of(full),
{
    let short = short_name_of(full);
    lemma_short_name_nonempty(full);
    if full.len() == 0 {
        reveal_strlit("[No Name]");
        let nn = "[No Name]"@;
        assert(nn =~= seq!['[', 'N', 'o', ' ', 'N', 'a', 'm', 'e', ']']);
        assert(Seq::<char>::empty() + nn =~= nn);
        path::lemma_file_name_of_last_component(Seq::empty(), nn);
    } else {
        path::lemma_file_name_is_plain(full);
        match path::file_name_of(full) {
            Some(n) => {
                assert(Seq::<char>::empty() + n =~= n);
                path::lemma_file_name_of_last_component(Seq::empty(), n);
            },
            None => {},
        }
    }
}

/// What Neovim reports of one buffer, as far as the buffer list reads it.
///
/// An option that could not be read takes its default: not listed, an empty
/// `buftype`, not modified.
pub struct BufferRecord {
    /// The Neovim buffer handle.
    pub handle: i32,
    /// Whether the buffer is loaded.
    pub loaded: bool,
    /// The buffer's `buflisted` option.
    pub listed: bool,
    /// The buffer's `buftype` option (empty for a normal file buffer).
    pub buftype: String,
    /// The buffer's name, usually a full path (empty when it has none).
    pub full_path: String,
    /// The buffer's `modified` option.
    pub modified: bool,
}

/// Whether the tab line shows a buffer: it is loaded, listed, and a normal
/// file buffer (no terminal, quickfix, help or other special `buftype`).
pub open spec fn is_shown(r: BufferRecord) -> bool {
    r.loaded && r.listed && r.buftype@.len() == 0
}

/// The tab line entry made from a shown buffer, given the current buffer.
pub open spec fn entry_of(r: BufferRecord, current: i32) -> BufferModel {
    BufferModel {
        handle: r.handle,
        name: short_name_of(r.full_path@),
        full_path: r.full_path@,
        modified: r.modified,
        active: r.handle == current,
    }
}

/// The entries of the shown buffers among `rs`, in their order.
pub open spec fn shown_entries(rs: Seq<BufferRecord>, current: i32) -> Seq<BufferModel>
    decreases rs.len(),
{
    if rs.len() == 0 {
        Seq::empty()
    } else {
        let earlier = shown_entries(rs.drop_last(), current);
        if is_shown(rs.last()) {
            earlier.push(entry_of(rs.last(), current))
        } else {
            earlier
        }
    }
}

/// The views of a list of buffer entries.
pub open spec fn models(infos: Seq<BufferInfo>) -> Seq<BufferModel> {
    infos.map_values(|b: BufferInfo| b@)
}

/// Keeps the loaded, listed, normal buffers of `records`, in order, and
/// makes each a tab line entry: its short name, its path, its modified
/// state, and whether it is the buffer `current`.
pub fn select_buffers(records: &[BufferRecord], current: i32) -> (r: Vec<BufferInfo>)
    ensures
        models(r@) == shown_entries(records@, current),
{
    let mut result: Vec<BufferInfo> = Vec::new();
    let n = records.len();
    for i in 0..n
        invariant
            n == records@.len(),
            models(result@) == shown_entries(records@.take(i as int), current),
    {
        let rec = &records[i];
        let ghost before = records@.take(i as int);
        assert(records@.take(i + 1).drop_last() =~= before);
        assert(records@.take(i + 1).last() == records@[i as int]);
        if rec.loaded && rec.listed && rec.buftype.as_str().is_empty() {
            let info = BufferInfo {
                handle: rec.handle,
                name: short_name(rec.full_path.as_str()),
                full_path: rec.full_path.clone(),
                modified: rec.modified,
                active: rec.handle == current,
            };
            result.push(info);
            assert(models(result@) =~= shown_entries(before, current).push(info@));
        }
    }
    assert(records@.take(n as int) =~= records@);
    result
}

/// No two records share a handle.
pub open spec fn handles_distinct(rs: Seq<BufferRecord>) -> bool {
    forall|i: int, j: int| 0 <= i < j < rs.len() ==> rs[i].handle != rs[j].handle
}

/// Each entry comes from one of the records, and is active exactly when
/// its handle is the current one.
proof fn lemma_entries_from_records(rs: Seq<BufferRecord>, current: i32)
    ensures
        forall|k: int|
            0 <= k < shown_entries(rs, current).len() ==> {
                &&& (#[trigger] shown_entries(rs, current)[k]).active == (shown_entries(
                    rs,
                    current,
                )[k].handle == current)
                &&& exists|j: int|
                    0 <= j < rs.len() && #[trigger] rs[j].handle == shown_entries(
                        rs,
                        current,
                    )[k].handle
            },
    decreases rs.len(),
{
    if rs.len() > 0 {
        let earlier = rs.drop_last();
        lemma_entries_from_records(earlier, current);
        let es = shown_entries(rs, current);
        assert forall|k: int| 0 <= k < es.len() implies {
            &&& (#[trigger] es[k]).active == (es[k].handle == current)
            &&& exists|j: int| 0 <= j < rs.len() && #[trigger] rs[j].handle == es[k].handle
        } by {
            if k < shown_entries(earlier, current).len() {
                let j = choose|j: int|
                    0 <= j < earlier.len() && #[trigger] earlier[j].handle == shown_entries(
                        earlier,
                        current,
                    )[k].handle;
                assert(rs[j] == earlier[j]);
            } else {
                assert(rs[rs.len() - 1].handle == es[k].handle);
            }
        }
    }
}

/// Entries of records with distinct handles have distinct handles.
proof fn lemma_entries_distinct(rs: Seq<BufferRecord>, current: i32)
    requires
        handles_distinct(rs),
    ensures
        forall|a: int, b: int|
            0 <= a < b < shown_entries(rs, current).len() ==> shown_entries(rs, current)[a].handle
                != shown_entries(rs, current)[b].handle,
    decreases rs.len(),
{
    if rs.len() > 0 {
        let earlier = rs.drop_last();
        assert(handles_distinct(earlier)) by {
            assert forall|i: int, j: int| 0 <= i < j < earlier.len() implies earlier[i].handle
                != earlier[j].handle by {
                assert(earlier[i] == rs[i] && earlier[j] == rs[j]);
            }
        }
        lemma_entries_distinct(earlier, current);
        lemma_entries_from_records(earlier, current);
        let prev = shown_entries(earlier, current);
        let es = shown_entries(rs, current);
        if is_shown(rs.last()) {
            assert forall|a: int, b: int| 0 <= a < b < es.len() implies es[a].handle
                != es[b].handle by {
                if b == es.len() - 1 {
                    let j = choose|j: int|
                        0 <= j < earlier.len() && #[trigger] earlier[j].handle == prev[a].handle;
                    assert(earlier[j] == rs[j]);
                }
            }
        }
    }
}

/// When no two buffers share a handle, at most one entry of the list is
/// marked active: the one of the current buffer.
pub proof fn lemma_at_most_one_active(rs: Seq<BufferRecord>, current: i32)
    requires
        handles_distinct(rs),
    ensures
        forall|a: int, b: int|
            0 <= a < shown_entries(rs, current).len() && 0 <= b < shown_entries(rs, current).len()
                && #[trigger] shown_entries(rs, current)[a].active && #[trigger] shown_entries(
                rs,
                current,
            )[b].active ==> a == b,
        forall|k: int|
            0 <= k < shown_entries(rs, current).len() ==> (#[trigger] shown_entries(
                rs,
                current,
            )[k].active <==> shown_entries(rs, current)[k].handle == current),
{
    lemma_entries_from_records(rs, current);
    lemma_entries_distinct(rs, current);
    let es = shown_entries(rs, current);
    assert forall|a: int, b: int|
        0 <= a < es.len() && 0 <= b < es.len() && #[trigger] es[a].active
            && #[trigger] es[b].active implies a == b by {
        if a < b {
            assert(es[a].handle != es[b].handle);
        } else if b < a {
            assert(es[b].handle != es[a].handle);
        }
    }
}

/// Record `r` is kept for the tab line and `e` carries its data: its handle,
/// the short name of its path, its path, its modified option, and whether it
/// is the current buffer.
pub open spec fn record_gives_entry(r: BufferRecord, e: BufferModel, current: i32) -> bool {
    &&& r.loaded
    &&& r.listed
    &&& r.buftype@.len() == 0
    &&& e.handle == r.handle
    &&& e.name == short_name_of(r.full_path@)
    &&& e.full_path == r.full_path@
    &&& e.modified == r.modified
    &&& e.active == (r.handle == current)
}

/// `pos` maps the entries `es` to the records `rs` they come from: entry
/// `k` comes from record `pos[k]`, the positions rise with `k`, and every
/// loaded, listed record with an empty `buftype` has an entry.
pub open spec fn is_source_map(
    rs: Seq<BufferRecord>,
    es: Seq<BufferModel>,
    current: i32,
    pos: Seq<int>,
) -> bool {
    &&& pos.len() == es.len()
    &&& forall|k: int| 0 <= k < pos.len() ==> 0 <= #[trigger] pos[k] < rs.len()
    &&& forall|a: int, b: int| 0 <= a < b < pos.len() ==> #[trigger] pos[a] < #[trigger] pos[b]
    &&& forall|k: int|
        0 <= k < pos.len() ==> record_gives_entry(rs[pos[k]], #[trigger] es[k], current)
    &&& forall|j: int|
        0 <= j < rs.len() && (#[trigger] rs[j]).loaded && rs[j].listed && rs[j].buftype@.len() == 0
            ==> exists|k: int| 0 <= k < pos.len() && #[trigger] pos[k] == j
}

/// The positions of the records that the tab line keeps.
pub open spec fn kept_positions(rs: Seq<BufferRecord>) -> Seq<int>
    decreases rs.len(),
{
    if rs.len() == 0 {
        Seq::empty()
    } else {
        let earlier = kept_positions(rs.drop_last());
        if is_shown(rs.last()) {
            earlier.push(rs.len() - 1)
        } else {
            earlier
        }
    }
}

/// The buffer list keeps exactly the loaded, listed buffers with an empty
/// `buftype`, whatever their names and modified state, in the order of the
/// records, one entry for each; each entry carries its record's handle,
/// path, short name and modified option, and is active exactly when it is
/// the current buffer.
pub proof fn lemma_select_buffers_sources(rs: Seq<BufferRecord>, current: i32)
    ensures
        is_source_map(rs, shown_entries(rs, current), current, kept_positions(rs)),
    decreases rs.len(),
{
    if rs.len() > 0 {
        let earlier = rs.drop_last();
        let last = rs.len() - 1;
        lemma_select_buffers_sources(earlier, current);
        let p = kept_positions(earlier);
        let es0 = shown_entries(earlier, current);
        let pos = kept_positions(rs);
        let es = shown_entries(rs, current);
        assert forall|k: int| 0 <= k < p.len() implies record_gives_entry(
            rs[p[k]],
            #[trigger] es[k],
            current,
        ) by {
            assert(record_gives_entry(earlier[p[k]], es0[k], current));
            assert(rs[p[k]] == earlier[p[k]]);
            assert(es[k] == es0[k]);
            assert(pos[k] == p[k]);
        }
        assert forall|j: int|
            0 <= j < rs.len() && (#[trigger] rs[j]).loaded && rs[j].listed && rs[j].buftype@.len()
                == 0 implies exists|k: int| 0 <= k < pos.len() && #[trigger] pos[k] == j by {
            if j < last {
                assert(earlier[j] == rs[j]);
                assert(earlier[j].loaded);
                let k = choose|k: int| 0 <= k < p.len() && #[trigger] p[k] == j;
                assert(pos[k] == j);
            } else {
                assert(rs[j] == rs.last());
                assert(pos[pos.len() - 1] == j);
            }
        }
        if is_shown(rs.last()) {
            assert(rs[last] == rs.last());
            assert(record_gives_entry(rs[pos[p.len() as int]], es[p.len() as int], current));
        }
    }
}

} // verus!
