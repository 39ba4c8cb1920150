use vstd::prelude::*;
use crate::pages::name_or;
use crate::registry::opt_view;
use crate::search::trimmed_text;
use crate::text::{chars_of, lex_less, lex_lt, lemma_lex_irreflexive, lemma_lex_total, lemma_lex_transitive, replace_char, replace_char_spec, same_chars, string_of, trim_spec};

verus! {

// ---------------------------------------------------------------------------
// Downloaded manga, one per folder
// ---------------------------------------------------------------------------

/// A record of a downloaded manga as the database lists it (newest first), with the last
/// part of its folder.
pub struct DownloadRow {
    pub id: String,
    pub title: String,
    pub cover: Option<String>,
    pub local_path: String,
    pub folder: Option<String>,
}

/// A downloaded manga as the downloads page shows it.
pub struct DownloadedItem {
    pub id: String,
    pub title: String,
    pub cover_path: Option<String>,
    pub local_path: String,
}

/// The value of a row.
pub struct RowView {
    pub id: Seq<char>,
    pub title: Seq<char>,
    pub cover: Option<Seq<char>>,
    pub local_path: Seq<char>,
    pub folder: Option<Seq<char>>,
}

/// The value of an item.
pub struct ItemView {
    pub id: Seq<char>,
    pub title: Seq<char>,
    pub cover_path: Option<Seq<char>>,
    pub local_path: Seq<char>,
}

impl View for DownloadRow {
    type V = RowView;

    open spec fn view(&self) -> RowView {
        RowView {
            id: self.id@,
            title: self.title@,
            cover: opt_view(self.cover),
            local_path: self.local_path@,
            folder: opt_view(self.folder),
        }
    }
}

impl View for DownloadedItem {
    type V = ItemView;

    open spec fn view(&self) -> ItemView {
        ItemView { id: self.id@, title: self.title@, cover_path: opt_view(self.cover_path), local_path: self.local_path@ }
    }
}

/// Text that is empty once trimmed.
pub open spec fn blank(s: Seq<char>) -> bool {
    trim_spec(s).len() == 0
}

/// The title of a folder without a usable record title: its name (else `Manual Download`)
/// with underscores read as spaces.
pub open spec fn fallback_title(folder: Option<Seq<char>>) -> Seq<char> {
    replace_char_spec(name_or(folder, "Manual Download"@), '_', ' ')
}

/// The item that the first row of a folder starts.
pub open spec fn start_item(r: RowView) -> ItemView {
    ItemView {
        id: r.id,
        title: if blank(r.title) { fallback_title(r.folder) } else { r.title },
        cover_path: r.cover,
        local_path: r.local_path,
    }
}

/// An item completed by a row of its folder: a missing title (blank or `Manual Download`)
/// and a missing cover are taken from the row when it has them.
pub open spec fn refine(it: ItemView, r: RowView) -> ItemView {
    let has_title = !blank(it.title) && it.title != "Manual Download"@;
    let has_cover = it.cover_path matches Some(c) && !blank(c);
    ItemView {
        id: it.id,
        title: if !has_title && !blank(r.title) { r.title } else { it.title },
        cover_path: if !has_cover && (r.cover matches Some(cp) && !blank(cp)) { r.cover } else { it.cover_path },
        local_path: it.local_path,
    }
}

/// The items by folder after the first `k` rows; rows without a folder are skipped.
pub open spec fn grouped(rows: Seq<RowView>, k: int) -> Map<Seq<char>, ItemView>
    decreases k,
{
    if k <= 0 {
        Map::empty()
    } else {
        let m = grouped(rows, k - 1);
        let r = rows[k - 1];
        if blank(r.local_path) {
            m
        } else {
            let base = if m.contains_key(r.local_path) { m[r.local_path] } else { start_item(r) };
            m.insert(r.local_path, refine(base, r))
        }
    }
}

/// Items listed by strictly increasing folder.
pub open spec fn by_folder(s: Seq<ItemView>) -> bool {
    forall|i: int, j: int| 0 <= i < j < s.len() ==> lex_lt(#[trigger] s[i].local_path, #[trigger] s[j].local_path)
}

/// The items list exactly the entries of `m`.
pub open spec fn lists_map(s: Seq<ItemView>, m: Map<Seq<char>, ItemView>) -> bool {
    &&& forall|i: int| 0 <= i < s.len() ==> m.contains_key(#[trigger] s[i].local_path) && m[s[i].local_path] == s[i]
    &&& forall|key: Seq<char>| #[trigger] m.contains_key(key) ==> exists|i: int| 0 <= i < s.len() && s[i].local_path == key
}

/// The values of a list of items.
pub open spec fn items_view(v: Seq<DownloadedItem>) -> Seq<ItemView> {
    v.map_values(|x: DownloadedItem| x@)
}

/// A copy of an optional string.
fn copy_opt(s: &Option<String>) -> (r: Option<String>)
    ensures
        opt_view(r) == opt_view(*s),
{
    crate::library::clone_opt_string(s)
}

/// Whether text is blank.
fn is_blank(s: &str) -> (r: bool)
    ensures
        r == blank(s@),
{
    trimmed_text(s).as_str().is_empty()
}

/// The item that the first row of a folder starts.
fn start_item_of(r: &DownloadRow) -> (it: DownloadedItem)
    ensures
        it@ == start_item(r@),
{
    let title = if is_blank(r.title.as_str()) {
        let n = crate::pages::folder_name_or(&r.folder, "Manual Download");
        string_of(&replace_char(&chars_of(n.as_str()), '_', ' '))
    } else {
        r.title.clone()
    };
    DownloadedItem { id: r.id.clone(), title, cover_path: copy_opt(&r.cover), local_path: r.local_path.clone() }
}

/// An item completed by a row of its folder.
fn refine_item(it: DownloadedItem, r: &DownloadRow) -> (out: DownloadedItem)
    ensures
        out@ == refine(it@, r@),
{
    let has_title = !is_blank(it.title.as_str()) && !same_chars(&chars_of(it.title.as_str()), &chars_of("Manual Download"));
    let has_cover = match &it.cover_path {
        Some(c) => !is_blank(c.as_str()),
        None => false,
    };
    let row_cover_ok = match &r.cover {
        Some(cp) => !is_blank(cp.as_str()),
        None => false,
    };
    let title = if !has_title && !is_blank(r.title.as_str()) { r.title.clone() } else { it.title };
    let cover_path = if !has_cover && row_cover_ok { copy_opt(&r.cover) } else { it.cover_path };
    DownloadedItem { id: it.id, title, cover_path, local_path: it.local_path }
}

/// Groups the downloaded records by folder, in folder order: one item per folder, started by
/// its newest record and completed by the older ones.
pub fn group_downloads(rows: &Vec<DownloadRow>) -> (r: Vec<DownloadedItem>)
    ensures
        by_folder(items_view(r@)),
        lists_map(items_view(r@), grouped(rows@.map_values(|x: DownloadRow| x@), rows@.len() as int)),
{
    let ghost rv = rows@.map_values(|x: DownloadRow| x@);
    let mut out: Vec<DownloadedItem> = Vec::new();
    let mut k: usize = 0;
    while k < rows.len()
        invariant
            k <= rows@.len(),
            rv == rows@.map_values(|x: DownloadRow| x@),
            by_folder(items_view(out@)),
            lists_map(items_view(out@), grouped(rv, k as int)),
        decreases rows@.len() - k,
    {
        let row = &rows[k];
        proof {
            assert(rv[k as int] == row@);
        }
        if !is_blank(row.local_path.as_str()) {
            let key = chars_of(row.local_path.as_str());
            let mut pos: usize = 0;
            while pos < out.len() && lex_less(&chars_of(out[pos].local_path.as_str()), &key)
                invariant
                    pos <= out@.len(),
                    key@ == row.local_path@,
                    forall|j: int| 0 <= j < pos ==> lex_lt(#[trigger] items_view(out@)[j].local_path, key@),
                decreases out@.len() - pos,
            {
                pos = pos + 1;
            }
            let ghost before = items_view(out@);
            let ghost m = grouped(rv, k as int);
            let found = pos < out.len() && same_chars(&chars_of(out[pos].local_path.as_str()), &key);
            proof {
                // Everything from `pos` on sorts at or after the key.
                assert forall|j: int| pos <= j < before.len() implies !lex_lt(#[trigger] before[j].local_path, key@) by {
                    assert(!lex_lt(before[pos as int].local_path, key@));
                    if j > pos {
                        assert(lex_lt(before[pos as int].local_path, before[j].local_path));
                        lemma_lex_total(before[pos as int].local_path, key@);
                        lemma_lex_total(before[j].local_path, key@);
                        if lex_lt(before[j].local_path, key@) {
                            if before[pos as int].local_path == key@ {
                                lemma_lex_total(before[j].local_path, before[pos as int].local_path);
                            } else {
                                lemma_lex_transitive(before[pos as int].local_path, before[j].local_path, key@);
                                lemma_lex_total(before[pos as int].local_path, key@);
                            }
                        }
                    }
                }
                if !found {
                    assert forall|j: int| 0 <= j < before.len() implies before[j].local_path != key@ by {
                        if j < pos {
                            lemma_lex_irreflexive(key@);
                        } else if j == pos {
                        } else {
                            assert(lex_lt(before[pos as int].local_path, before[j].local_path));
                            if before[j].local_path == key@ {
                                lemma_lex_total(before[pos as int].local_path, key@);
                            }
                        }
                    }
                    assert(!m.contains_key(key@));
                } else {
                    assert(m.contains_key(key@));
                    assert(m[key@] == before[pos as int]);
                }
            }
            if found {
                let old_item = DownloadedItem {
                    id: out[pos].id.clone(),
                    title: out[pos].title.clone(),
                    cover_path: copy_opt(&out[pos].cover_path),
                    local_path: out[pos].local_path.clone(),
                };
                let new_item = refine_item(old_item, row);
                out.set(pos, new_item);
                proof {
                    let after = items_view(out@);
                    assert(after =~= before.update(pos as int, new_item@));
                    assert forall|i: int, j: int| 0 <= i < j < after.len() implies lex_lt(
                        #[trigger] after[i].local_path,
                        #[trigger] after[j].local_path,
                    ) by {
                        assert(after[i].local_path == before[i].local_path);
                        assert(after[j].local_path == before[j].local_path);
                    }
                    let m2 = grouped(rv, k + 1);
                    assert(m2 == m.insert(key@, refine(m[key@], row@)));
                    assert forall|i: int| 0 <= i < after.len() implies m2.contains_key(#[trigger] after[i].local_path)
                        && m2[after[i].local_path] == after[i] by {
                        if i != pos {
                            assert(before[i].local_path != key@) by {
                                if i < pos {
                                    assert(lex_lt(before[i].local_path, before[pos as int].local_path));
                                    lemma_lex_irreflexive(key@);
                                } else {
                                    assert(lex_lt(before[pos as int].local_path, before[i].local_path));
                                    lemma_lex_irreflexive(key@);
                                }
                            }
                        }
                    }
                    assert forall|key2: Seq<char>| #[trigger] m2.contains_key(key2) implies exists|i: int|
                        0 <= i < after.len() && after[i].local_path == key2 by {
                        if key2 == key@ {
                            assert(after[pos as int].local_path == key2);
                        } else {
                            assert(m.contains_key(key2));
                            let i = choose|i: int| 0 <= i < before.len() && before[i].local_path == key2;
                            assert(after[i].local_path == key2);
                        }
                    }
                }
            } else {
                let fresh = refine_item(start_item_of(row), row);
                out.insert(pos, fresh);
                proof {
                    let after = items_view(out@);
                    assert(after =~= before.insert(pos as int, fresh@));
                    assert(fresh@.local_path == key@);
                    assert forall|i: int, j: int| 0 <= i < j < after.len() implies lex_lt(
                        #[trigger] after[i].local_path,
                        #[trigger] after[j].local_path,
                    ) by {
                        if j < pos {
                            assert(after[i] == before[i] && after[j] == before[j]);
                        } else if j == pos {
                            assert(after[i] == before[i]);
                        } else if i < pos {
                            assert(after[i] == before[i] && after[j] == before[j - 1]);
                            assert(!lex_lt(before[j - 1].local_path, key@));
                            assert(before[j - 1].local_path != key@);
                            lemma_lex_total(before[j - 1].local_path, key@);
                            lemma_lex_transitive(before[i].local_path, key@, before[j - 1].local_path);
                        } else if i == pos {
                            assert(after[j] == before[j - 1]);
                            assert(before[j - 1].local_path != key@);
                            lemma_lex_total(before[j - 1].local_path, key@);
                        } else {
                            assert(after[i] == before[i - 1] && after[j] == before[j - 1]);
                        }
                    }
                    let m2 = grouped(rv, k + 1);
                    assert(m2 == m.insert(key@, refine(start_item(row@), row@)));
                    assert forall|i: int| 0 <= i < after.len() implies m2.contains_key(#[trigger] after[i].local_path)
                        && m2[after[i].local_path] == after[i] by {
                        if i < pos {
                            assert(after[i] == before[i]);
                        } else if i > pos {
                            assert(after[i] == before[i - 1]);
                        }
                    }
                    assert forall|key2: Seq<char>| #[trigger] m2.contains_key(key2) implies exists|i: int|
                        0 <= i < after.len() && after[i].local_path == key2 by {
                        if key2 == key@ {
                            assert(after[pos as int].local_path == key2);
                        } else {
                            assert(m.contains_key(key2));
                            let i = choose|i: int| 0 <= i < before.len() && before[i].local_path == key2;
                            if i < pos {
                                assert(after[i].local_path == key2);
                            } else {
                                assert(after[i + 1].local_path == key2);
                            }
                        }
                    }
                }
            }
        } else {
            proof {
                assert(grouped(rv, k + 1) == grouped(rv, k as int));
            }
        }
        k = k + 1;
    }
    out
}

} // verus!
