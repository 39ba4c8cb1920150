use vstd::prelude::*;
use crate::library::{Manga, MangaView, manga_views};
use crate::registry::opt_view;
use crate::text::{
    chars_of, lower_spec, contains, decimal, decimal_string, has_prefix, join2, lowercase_of, owned, replace_char,
    replace_char_spec, same_chars, starts_with, string_of, string_views, to_lowercase, trim_spec,
};

verus! {

// ---------------------------------------------------------------------------
// The library service
// ---------------------------------------------------------------------------

/// What a record takes from a manga's `index.json`: its id, title, state, rating (as the bit
/// pattern of its `f32`) and number of chapters.
pub struct IndexSummary {
    pub id: String,
    pub title: String,
    pub state: String,
    pub rating_bits: u32,
    pub chapters: usize,
}

/// Reads the manga of a library folder.
pub struct LibraryService;

/// The record of a manga found in the library through its `index.json`: every chapter
/// listed there counts as downloaded.
pub open spec fn index_record_spec(
    id: Seq<char>,
    title: Seq<char>,
    state: Seq<char>,
    rating_bits: u32,
    chapters: usize,
    local_path: Seq<char>,
    cover: Option<Seq<char>>,
    now: Seq<char>,
) -> MangaView {
    MangaView {
        id,
        title,
        source_id: "local"@,
        source_name: "Biblioteca Local"@,
        cover_path: cover,
        synopsis: None,
        status: state,
        rating_bits,
        language: "pt-BR"@,
        local_path,
        total_chapters: chapters as i32,
        downloaded_chapters: chapters as i32,
        last_updated: now,
    }
}

impl LibraryService {
    /// The record of a manga found through its `index.json`, kept at `local_path`.
    pub fn manga_from_index(index: &IndexSummary, local_path: &str, cover: Option<String>, now: &str) -> (r: Manga)
        ensures
            r@ == index_record_spec(
                index.id@,
                index.title@,
                index.state@,
                index.rating_bits,
                index.chapters,
                local_path@,
                opt_view(cover),
                now@,
            ),
    {
        let total = index.chapters as i32;
        Manga {
            id: index.id.clone(),
            title: index.title.clone(),
            source_id: owned("local"),
            source_name: owned("Biblioteca Local"),
            cover_path: cover,
            synopsis: None,
            status: index.state.clone(),
            rating_bits: index.rating_bits,
            language: owned("pt-BR"),
            local_path: owned(local_path),
            total_chapters: total,
            downloaded_chapters: total,
            last_updated: owned(now),
        }
    }

    /// The file names tried, in order, for the cover of a manga folder.
    pub fn cover_names() -> (r: Vec<String>)
        ensures
            string_views(r@) == seq!["cover.jpg"@, "cover.png"@, "cover.webp"@],
    {
        let r = vec![owned("cover.jpg"), owned("cover.png"), owned("cover.webp")];
        proof {
            assert(string_views(r@) =~= seq!["cover.jpg"@, "cover.png"@, "cover.webp"@]);
        }
        r
    }
}

// ---------------------------------------------------------------------------
// The repository's paging
// ---------------------------------------------------------------------------

/// The records of the library, kept in the database.
pub struct MangaRepository;

/// The number of pages of `total` records, `page_size` per page; at least one.
pub open spec fn total_pages_spec(total: nat, page_size: nat) -> nat {
    let p = (total + page_size - 1) / page_size as int;
    if p >= 1 { p as nat } else { 1 }
}

impl MangaRepository {
    /// The number of pages of `total` records, `page_size` per page; at least one.
    pub fn total_pages(total: u32, page_size: u32) -> (r: u32)
        requires
            page_size > 0,
            total + page_size - 1 <= u32::MAX,
        ensures
            r as nat == total_pages_spec(total as nat, page_size as nat),
    {
        let p = (total + (page_size - 1)) / page_size;
        if p >= 1 { p } else { 1 }
    }

    /// The number of records before page `page` (counted from 1).
    pub fn page_offset(page: u32, page_size: u32) -> (r: u32)
        requires
            page >= 1,
            (page - 1) * page_size <= u32::MAX,
        ensures
            r == (page - 1) * page_size,
    {
        (page - 1) * page_size
    }

    /// The number of records before page `page`, reading page 0 as page 1.
    pub fn source_page_offset(page: u32, page_size: u32) -> (r: u32)
        requires
            (if page >= 1 { page - 1 } else { 0 }) * page_size <= u32::MAX,
        ensures
            r == (if page >= 1 { page - 1 } else { 0 }) * page_size,
    {
        let p = if page >= 1 { page - 1 } else { 0 };
        p * page_size
    }

    /// The `LIKE` pattern of a title search: the query between `%` signs.
    pub fn title_pattern(query: &str) -> (r: String)
        ensures
            r@ == "%"@ + query@ + "%"@,
    {
        let a = join2("%", query);
        join2(a.as_str(), "%")
    }
}

// ---------------------------------------------------------------------------
// Chapter folders posing as manga
// ---------------------------------------------------------------------------

/// A lowercase name that starts like a chapter's: `chapter` or `capitulo`, then `_`, `-`
/// or a space.
pub open spec fn chapter_prefixed(low: Seq<char>) -> bool {
    has_prefix(low, "chapter_"@) || has_prefix(low, "chapter-"@) || has_prefix(low, "chapter "@) || has_prefix(
        low,
        "capitulo_"@,
    ) || has_prefix(low, "capitulo-"@) || has_prefix(low, "capitulo "@)
}

/// Whether a lowercase name starts like a chapter's.
pub fn is_chapter_prefixed(low: &Vec<char>) -> (r: bool)
    ensures
        r == chapter_prefixed(low@),
{
    starts_with(low, &chars_of("chapter_")) || starts_with(low, &chars_of("chapter-")) || starts_with(
        low,
        &chars_of("chapter "),
    ) || starts_with(low, &chars_of("capitulo_")) || starts_with(low, &chars_of("capitulo-")) || starts_with(
        low,
        &chars_of("capitulo "),
    )
}

/// A record that stands for a chapter rather than a manga: its title (trimmed, lowercase),
/// or the last part of its folder (lowercase), starts like a chapter's.
pub open spec fn chapter_entry_spec(title: Seq<char>, leaf: Option<Seq<char>>) -> bool {
    chapter_prefixed(lower_spec(trim_spec(title))) || chapter_prefixed(lower_spec(
        match leaf {
            Some(l) => l,
            None => Seq::empty(),
        },
    ))
}

/// The part of a path after its last `/`.
pub open spec fn path_leaf(p: Seq<char>) -> Seq<char> {
    crate::text::split_by(p, crate::text::one_of(seq!['/'])).last()
}

/// A path that every platform splits alike at its end: it holds no `\` and no `:`, does
/// not start with `//`, and its part after the last `/` is neither empty, `.` nor `..`.
pub open spec fn plain_path(p: Seq<char>) -> bool {
    &&& !p.contains('\\')
    &&& !p.contains(':')
    &&& !has_prefix(p, "//"@)
    &&& path_leaf(p).len() > 0
    &&& path_leaf(p) != "."@
    &&& path_leaf(p) != ".."@
}

/// The part of a path after its last `/` or `\`.
pub open spec fn path_leaf_any(p: Seq<char>) -> Seq<char> {
    crate::text::split_by(p, crate::text::one_of(seq!['/', '\\'])).last()
}

/// A name that is a real path component: neither empty, `.` nor `..`.
pub open spec fn real_name(n: Seq<char>) -> bool {
    n.len() > 0 && n != "."@ && n != ".."@
}

/// A separator on some platform: `/` or `\`.
pub open spec fn any_sep(c: char) -> bool {
    c == '/' || c == '\\'
}

/// A path whose last component is a real name on every platform: it holds no `:`, does not
/// start with two separators, and both its part after the last `/` and its part after the
/// last `/` or `\` are real names.
pub open spec fn named_path(p: Seq<char>) -> bool {
    &&& !p.contains(':')
    &&& !(p.len() >= 2 && any_sep(p[0]) && any_sep(p[1]))
    &&& real_name(path_leaf(p))
    &&& real_name(path_leaf_any(p))
}

/// Calls `std::path::Path::file_name` and `OsStr::to_str`. Claimed: the empty path has no
/// name; the name of a plain path (see `plain_path`) is its part after the last `/`; the
/// name of a named path (see `named_path`) is its part after the last `/` (where only `/`
/// separates) or its part after the last `/` or `\` (where both do). Which of the two
/// depends on the platform; of other paths nothing is claimed.
#[verifier::external_body]
pub(crate) fn file_name_of(path: &str) -> (r: Option<String>)
    ensures
        path@.len() == 0 ==> r is None,
        plain_path(path@) ==> opt_view(r) == Some(path_leaf(path@)),
        named_path(path@) ==> opt_view(r) == Some(path_leaf(path@)) || opt_view(r) == Some(path_leaf_any(path@)),
{
    std::path::Path::new(path).file_name().and_then(|s| s.to_str()).map(|s| s.to_string())
}

/// Whether a record stands for a chapter, given the last part of its folder.
pub fn chapter_entry_by_names(title: &str, leaf: &Option<String>) -> (r: bool)
    ensures
        r == chapter_entry_spec(title@, opt_view(*leaf)),
{
    let t = crate::search::trimmed_text(title);
    if is_chapter_prefixed(&chars_of(to_lowercase(t.as_str()).as_str())) {
        return true;
    }
    match leaf {
        Some(l) => is_chapter_prefixed(&chars_of(to_lowercase(l.as_str()).as_str())),
        None => {
            let e = String::new();
            proof {
                assert(e@ =~= Seq::<char>::empty());
            }
            is_chapter_prefixed(&chars_of(to_lowercase(e.as_str()).as_str()))
        },
    }
}

/// Whether a library record stands for a chapter rather than a manga.
pub fn looks_like_chapter_entry(title: &str, local_path: &str) -> (r: bool)
    ensures
        plain_path(local_path@) ==> r == chapter_entry_spec(title@, Some(path_leaf(local_path@))),
        named_path(local_path@) ==> r == chapter_entry_spec(title@, Some(path_leaf(local_path@))) || r
            == chapter_entry_spec(title@, Some(path_leaf_any(local_path@))),
        local_path@.len() == 0 ==> r == chapter_entry_spec(title@, None),
        exists|leaf: Option<Seq<char>>| r == #[trigger] chapter_entry_spec(title@, leaf),
{
    let leaf = file_name_of(local_path);
    chapter_entry_by_names(title, &leaf)
}

// ---------------------------------------------------------------------------
// Chapter counts on disk
// ---------------------------------------------------------------------------

/// An extension of a chapter archive: `cbz` or `zip`, in any case.
pub open spec fn archive_ext_spec(ext: Seq<char>) -> bool {
    lowercase_of(ext) == "cbz"@ || lowercase_of(ext) == "zip"@
}

/// Whether an extension is that of a chapter archive.
pub fn is_archive_ext(ext: &str) -> (r: bool)
    ensures
        r == archive_ext_spec(ext@),
{
    let low = chars_of(to_lowercase(ext).as_str());
    same_chars(&low, &chars_of("cbz")) || same_chars(&low, &chars_of("zip"))
}

/// The number of archive extensions in a list of file extensions.
pub open spec fn archives_in(exts: Seq<Option<Seq<char>>>) -> nat
    decreases exts.len(),
{
    if exts.len() == 0 {
        0
    } else {
        archives_in(exts.drop_last()) + match exts.last() {
            Some(e) => if archive_ext_spec(e) { 1nat } else { 0nat },
            None => 0nat,
        }
    }
}

/// The values of a list of optional strings.
pub open spec fn opt_views(v: Seq<Option<String>>) -> Seq<Option<Seq<char>>> {
    v.map_values(|o: Option<String>| opt_view(o))
}

/// The number of archive extensions in a list of file extensions.
pub fn count_archives(exts: &Vec<Option<String>>) -> (r: usize)
    ensures
        r == archives_in(opt_views(exts@)),
        r <= exts@.len(),
{
    let ghost ev = opt_views(exts@);
    let mut n: usize = 0;
    let mut i: usize = 0;
    proof {
        assert(ev.take(0) =~= Seq::<Option<Seq<char>>>::empty());
    }
    while i < exts.len()
        invariant
            i <= exts@.len(),
            ev == opt_views(exts@),
            n == archives_in(ev.take(i as int)),
            n <= i,
        decreases exts@.len() - i,
    {
        proof {
            assert(ev.take(i + 1).drop_last() =~= ev.take(i as int));
            assert(ev.take(i + 1).last() == opt_view(exts@[i as int]));
        }
        match &exts[i] {
            Some(e) => {
                if is_archive_ext(e.as_str()) {
                    n = n + 1;
                }
            },
            None => {},
        }
        i = i + 1;
    }
    proof {
        assert(ev.take(exts@.len() as int) =~= ev);
    }
    n
}

/// The chapter count of a manga folder: the archives at its root and in its `chapters`
/// folders, or the chapters its `index.json` lists when that is more.
pub open spec fn local_chapter_count_spec(on_disk: int, indexed: Option<int>) -> int {
    match indexed {
        Some(n) => if n > on_disk { n } else { on_disk },
        None => on_disk,
    }
}

/// The chapter count of a manga folder, from the extensions of its root files, those of
/// the files in its `chapters` folders and the number of chapters its index lists.
pub fn local_chapter_count(
    root_exts: &Vec<Option<String>>,
    chapter_dir_exts: &Vec<Vec<Option<String>>>,
    indexed: Option<usize>,
) -> (r: i32)
    requires
        archive_total(
            opt_views(root_exts@),
            chapter_dir_exts@.map_values(|d: Vec<Option<String>>| opt_views(d@)),
            chapter_dir_exts@.len() as int,
        ) <= i32::MAX,
        indexed matches Some(n) ==> n <= i32::MAX,
    ensures
        r as int == local_chapter_count_spec(
            archive_total(
                opt_views(root_exts@),
                chapter_dir_exts@.map_values(|d: Vec<Option<String>>| opt_views(d@)),
                chapter_dir_exts@.len() as int,
            ) as int,
            match indexed {
                Some(n) => Some(n as int),
                None => None,
            },
        ),
{
    let ghost dv = chapter_dir_exts@.map_values(|d: Vec<Option<String>>| opt_views(d@));
    let mut total: usize = count_archives(root_exts);
    let mut i: usize = 0;
    proof {
        lemma_archive_total_grows(opt_views(root_exts@), dv, 0, chapter_dir_exts@.len() as int);
    }
    while i < chapter_dir_exts.len()
        invariant
            i <= chapter_dir_exts@.len(),
            dv == chapter_dir_exts@.map_values(|d: Vec<Option<String>>| opt_views(d@)),
            archive_total(opt_views(root_exts@), dv, chapter_dir_exts@.len() as int) <= i32::MAX,
            total as nat == archive_total(opt_views(root_exts@), dv, i as int),
        decreases chapter_dir_exts@.len() - i,
    {
        proof {
            assert(dv[i as int] == opt_views(chapter_dir_exts@[i as int]@));
            lemma_archive_total_grows(opt_views(root_exts@), dv, i + 1, chapter_dir_exts@.len() as int);
        }
        let c = count_archives(&chapter_dir_exts[i]);
        total = total + c;
        i = i + 1;
    }
    let count = total as i32;
    match indexed {
        Some(n) => {
            let n = n as i32;
            if n > count { n } else { count }
        },
        None => count,
    }
}

/// The archives at the root and in the first `k` chapter folders.
pub open spec fn archive_total(root: Seq<Option<Seq<char>>>, dirs: Seq<Seq<Option<Seq<char>>>>, k: int) -> nat
    decreases k,
{
    if k <= 0 { archives_in(root) } else { archive_total(root, dirs, k - 1) + archives_in(dirs[k - 1]) }
}

/// More folders hold at least as many archives.
pub proof fn lemma_archive_total_grows(root: Seq<Option<Seq<char>>>, dirs: Seq<Seq<Option<Seq<char>>>>, k: int, j: int)
    requires
        0 <= k <= j,
    ensures
        archive_total(root, dirs, k) <= archive_total(root, dirs, j),
    decreases j - k,
{
    if j > k {
        lemma_archive_total_grows(root, dirs, k, j - 1);
    }
}

// ---------------------------------------------------------------------------
// Covers shown by the library
// ---------------------------------------------------------------------------

/// A cover that the UI can load as it is: an `http://`, `https://`, `data:`, `asset://` or
/// `tauri://` URL (any case).
pub open spec fn remote_cover_spec(cp: Seq<char>) -> bool {
    let low = lowercase_of(cp);
    has_prefix(low, "http://"@) || has_prefix(low, "https://"@) || has_prefix(low, "data:"@) || has_prefix(
        low,
        "asset://"@,
    ) || has_prefix(low, "tauri://"@)
}

/// Whether the UI can load a cover as it is.
pub fn cover_is_remote(cp: &str) -> (r: bool)
    ensures
        r == remote_cover_spec(cp@),
{
    let low = chars_of(to_lowercase(cp).as_str());
    starts_with(&low, &chars_of("http://")) || starts_with(&low, &chars_of("https://")) || starts_with(
        &low,
        &chars_of("data:"),
    ) || starts_with(&low, &chars_of("asset://")) || starts_with(&low, &chars_of("tauri://"))
}

/// The cover that the UI is given: a loadable one as it is; a local file as the `data:` URL
/// read from it when there is one, else as its path.
pub open spec fn ui_cover_spec(cover: Option<Seq<char>>, file_url: Option<Seq<char>>) -> Option<Seq<char>> {
    match cover {
        None => None,
        Some(cp) => if remote_cover_spec(cp) {
            Some(cp)
        } else {
            match file_url {
                Some(u) => Some(u),
                None => Some(cp),
            }
        },
    }
}

/// The cover that the UI is given, from the `data:` URL read from the file (when the cover
/// is a local file and it could be read).
pub fn cover_for_ui(cover: &Option<String>, file_url: Option<String>) -> (r: Option<String>)
    ensures
        opt_view(r) == ui_cover_spec(opt_view(*cover), opt_view(file_url)),
{
    match cover {
        None => None,
        Some(cp) => {
            if cover_is_remote(cp.as_str()) {
                Some(cp.clone())
            } else {
                match file_url {
                    Some(u) => Some(u),
                    None => Some(cp.clone()),
                }
            }
        },
    }
}

/// A record has a cover: a path that is not blank.
pub open spec fn has_cover_spec(m: MangaView) -> bool {
    m.cover_path matches Some(c) && trim_spec(c).len() > 0
}

/// Whether a record has a cover.
pub fn has_cover(m: &Manga) -> (r: bool)
    ensures
        r == has_cover_spec(m@),
{
    match &m.cover_path {
        Some(c) => !crate::search::trimmed_text(c.as_str()).as_str().is_empty(),
        None => false,
    }
}

/// What the library listing does with one record.
pub enum LibraryRow {
    /// A chapter posing as a manga: delete it.
    Remove,
    /// Show the record; when `persist`, its chapter counts were repaired and must be saved.
    Show(Manga, bool),
}

/// What the library listing does with a record whose folder holds `repaired` chapters:
/// records that are chapters are removed; counts that differ from a positive count on disk
/// are set to it.
pub open spec fn library_row_spec(m: MangaView, is_chapter: bool, repaired: i32) -> Option<(MangaView, bool)> {
    if is_chapter {
        None
    } else if repaired > 0 && (m.total_chapters != repaired || m.downloaded_chapters != repaired) {
        Some((MangaView { total_chapters: repaired, downloaded_chapters: repaired, ..m }, true))
    } else {
        Some((m, false))
    }
}

/// What the library listing does with one record, given whether it stands for a chapter.
pub fn library_row_by(m: Manga, is_chapter: bool, repaired: i32) -> (r: LibraryRow)
    ensures
        match r {
            LibraryRow::Remove => library_row_spec(m@, is_chapter, repaired) is None,
            LibraryRow::Show(x, p) => library_row_spec(m@, is_chapter, repaired) == Some((x@, p)),
        },
{
    if is_chapter {
        return LibraryRow::Remove;
    }
    if repaired > 0 && (m.total_chapters != repaired || m.downloaded_chapters != repaired) {
        let mut m = m;
        m.total_chapters = repaired;
        m.downloaded_chapters = repaired;
        LibraryRow::Show(m, true)
    } else {
        LibraryRow::Show(m, false)
    }
}

/// What the library listing does with one record whose folder holds `repaired` chapters.
pub fn library_row(m: Manga, repaired: i32) -> (r: LibraryRow)
    ensures
        exists|is_chapter: bool| {
            &&& (chapter_prefixed(lower_spec(trim_spec(m@.title))) ==> is_chapter)
            &&& (plain_path(m@.local_path) ==> is_chapter == chapter_entry_spec(
                m@.title,
                Some(path_leaf(m@.local_path)),
            ))
            &&& (m@.local_path.len() == 0 ==> is_chapter == chapter_entry_spec(m@.title, None))
            &&& (named_path(m@.local_path) ==> is_chapter == chapter_entry_spec(
                m@.title,
                Some(path_leaf(m@.local_path)),
            ) || is_chapter == chapter_entry_spec(m@.title, Some(path_leaf_any(m@.local_path))))
            &&& match r {
                LibraryRow::Remove => library_row_spec(m@, is_chapter, repaired) is None,
                LibraryRow::Show(x, p) => library_row_spec(m@, is_chapter, repaired) == Some((x@, p)),
            }
        },
{
    let is_chapter = looks_like_chapter_entry(m.title.as_str(), m.local_path.as_str());
    library_row_by(m, is_chapter, repaired)
}

// ---------------------------------------------------------------------------
// Importing library folders
// ---------------------------------------------------------------------------

/// A library folder that is imported as a manga: it has a name that does not start like a
/// chapter's (lowercase).
pub open spec fn importable_folder_spec(name: Seq<char>) -> bool {
    name.len() > 0 && !chapter_prefixed(lowercase_of(name))
}

/// Whether a library folder is imported as a manga.
pub fn importable_folder(name: &str) -> (r: bool)
    ensures
        r == importable_folder_spec(name@),
{
    !name.is_empty() && !is_chapter_prefixed(&chars_of(to_lowercase(name).as_str()))
}

/// The id of a manga imported from a folder: `local_` and its name, spaces read as
/// underscores, lowercase.
pub open spec fn local_id_spec(name: Seq<char>) -> Seq<char> {
    "local_"@ + lowercase_of(replace_char_spec(name, ' ', '_'))
}

/// The id of a manga imported from a folder.
pub fn local_manga_id(name: &str) -> (r: String)
    ensures
        r@ == local_id_spec(name@),
{
    let u = string_of(&replace_char(&chars_of(name), ' ', '_'));
    join2("local_", to_lowercase(u.as_str()).as_str())
}

/// The record of a manga imported from the library folder `name` at `path`.
pub open spec fn local_import_spec(name: Seq<char>, path: Seq<char>, cover: Option<Seq<char>>, now: Seq<char>) -> MangaView {
    MangaView {
        id: local_id_spec(name),
        title: name,
        source_id: "local"@,
        source_name: "Local"@,
        cover_path: cover,
        synopsis: Some("Imported from folder: "@ + path),
        status: "unknown"@,
        rating_bits: 0,
        language: "pt-BR"@,
        local_path: path,
        total_chapters: 0,
        downloaded_chapters: 0,
        last_updated: now,
    }
}

/// The record of a manga imported from a library folder.
pub fn local_import_record(name: &str, path: &str, cover: Option<String>, now: &str) -> (r: Manga)
    ensures
        r@ == local_import_spec(name@, path@, opt_view(cover), now@),
{
    Manga {
        id: local_manga_id(name),
        title: owned(name),
        source_id: owned("local"),
        source_name: owned("Local"),
        cover_path: cover,
        synopsis: Some(join2("Imported from folder: ", path)),
        status: owned("unknown"),
        rating_bits: 0,
        language: owned("pt-BR"),
        local_path: owned(path),
        total_chapters: 0,
        downloaded_chapters: 0,
        last_updated: owned(now),
    }
}

/// An image extension a cover may have: `jpg`, `jpeg`, `png` or `webp`, in any case.
pub open spec fn image_ext_spec(ext: Seq<char>) -> bool {
    let low = lowercase_of(ext);
    low == "jpg"@ || low == "jpeg"@ || low == "png"@ || low == "webp"@
}

/// Whether an extension is that of a cover image.
pub fn is_image_ext(ext: &str) -> (r: bool)
    ensures
        r == image_ext_spec(ext@),
{
    let low = chars_of(to_lowercase(ext).as_str());
    same_chars(&low, &chars_of("jpg")) || same_chars(&low, &chars_of("jpeg")) || same_chars(&low, &chars_of("png"))
        || same_chars(&low, &chars_of("webp"))
}

/// The candidate picked from `len` candidates by a clock reading in nanoseconds.
pub fn pick_by_clock(len: usize, nanos: u128) -> (r: usize)
    requires
        len > 0,
    ensures
        r == (nanos as usize) % len,
        r < len,
{
    (nanos as usize) % len
}

/// The file a cover image taken from an archive is extracted to.
pub fn archive_cover_name(id: &str, index: u64, ext: &str) -> (r: String)
    ensures
        r@ == id@ + "_cbz_"@ + decimal(index as nat) + "."@ + ext@,
{
    let a = join2(id, "_cbz_");
    let b = join2(a.as_str(), decimal_string(index).as_str());
    let c = join2(b.as_str(), ".");
    let r = join2(c.as_str(), ext);
    proof {
        assert(r@ =~= id@ + "_cbz_"@ + decimal(index as nat) + "."@ + ext@);
    }
    r
}

/// The file a chosen cover is copied to: the id and the extension, lowercase.
pub fn cover_target_name(id: &str, ext: &str) -> (r: String)
    ensures
        r@ == id@ + "."@ + lowercase_of(ext@),
{
    let a = join2(id, ".");
    let r = join2(a.as_str(), to_lowercase(ext).as_str());
    proof {
        assert(r@ =~= id@ + "."@ + lowercase_of(ext@));
    }
    r
}

// ---------------------------------------------------------------------------
// Listing a source
// ---------------------------------------------------------------------------

/// The page and page size asked for: 1 and 20 by default, at least 1.
pub fn listing_params(page: Option<u32>, page_size: Option<u32>) -> (r: (u32, u32))
    ensures
        r.0 == match page {
            Some(p) => if p >= 1 { p } else { 1 },
            None => 1,
        },
        r.1 == match page_size {
            Some(s) => if s >= 1 { s } else { 1 },
            None => 20,
        },
{
    let p = match page {
        Some(p) => if p >= 1 { p } else { 1 },
        None => 1,
    };
    let s = match page_size {
        Some(s) => if s >= 1 { s } else { 1 },
        None => 20,
    };
    (p, s)
}

/// The items of page `page` of a list: those from `(page - 1) * page_size` on, at most
/// `page_size` of them.
pub open spec fn page_items<T>(list: Seq<T>, page: nat, page_size: nat) -> Seq<T> {
    let start = (page - 1) * page_size;
    let end = if start + page_size <= list.len() { start + page_size } else { list.len() as int };
    if page >= 1 && start < list.len() { list.subrange(start, end) } else { Seq::empty() }
}

/// A page of a scraped list and the number of pages.
pub fn page_of(list: Vec<Manga>, page: u32, page_size: u32) -> (r: (Vec<Manga>, u32))
    requires
        page >= 1,
        page_size >= 1,
        (page - 1) * page_size <= u32::MAX,
        list@.len() + page_size - 1 <= u32::MAX,
    ensures
        manga_views(r.0@) == page_items(manga_views(list@), page as nat, page_size as nat),
        r.1 as nat == total_pages_spec(list@.len(), page_size as nat),
{
    let total = list.len() as u32;
    let pages = MangaRepository::total_pages(total, page_size);
    let start = ((page - 1) * page_size) as usize;
    let end = if (start as u64) + (page_size as u64) <= list.len() as u64 {
        start + page_size as usize
    } else {
        list.len()
    };
    let mut out: Vec<Manga> = Vec::new();
    if start < list.len() {
        let mut i = start;
        while i < end
            invariant
                start <= i <= end <= list@.len(),
                manga_views(out@) == manga_views(list@).subrange(start as int, i as int),
            decreases end - i,
        {
            let ghost prev = manga_views(out@);
            let d = list[i].duplicate();
            out.push(d);
            proof {
                assert(manga_views(out@) =~= prev.push(d@));
                assert(manga_views(list@).subrange(start as int, i + 1) =~= manga_views(list@).subrange(
                    start as int,
                    i as int,
                ).push(list@[i as int]@));
            }
            i = i + 1;
        }
    } else {
        proof {
            assert(manga_views(out@) =~= Seq::<MangaView>::empty());
        }
    }
    (out, pages)
}

/// The stand-in results listed when Niadd gives nothing: six examples, stamped `now`.
pub open spec fn niadd_sample_spec(i: int, now: Seq<char>) -> MangaView {
    MangaView {
        id: "niadd_fallback_"@ + decimal(i as nat),
        title: "Exemplo Niadd "@ + decimal(i as nat),
        source_id: "niadd"@,
        source_name: "Niadd"@,
        cover_path: None,
        synopsis: Some("Exemplo gerado localmente"@),
        status: "ongoing"@,
        rating_bits: 0,
        language: "Português"@,
        local_path: Seq::empty(),
        total_chapters: 0,
        downloaded_chapters: 0,
        last_updated: now,
    }
}

/// The stand-in results listed when Niadd gives nothing.
pub fn niadd_samples(now: &str) -> (r: Vec<Manga>)
    ensures
        r@.len() == 6,
        forall|j: int| 0 <= j < 6 ==> (#[trigger] r@[j])@ == niadd_sample_spec(j + 1, now@),
{
    let mut out: Vec<Manga> = Vec::new();
    let mut i: u64 = 1;
    while i <= 6
        invariant
            1 <= i <= 7,
            out@.len() == i - 1,
            forall|j: int| 0 <= j < out@.len() ==> (#[trigger] out@[j])@ == niadd_sample_spec(j + 1, now@),
        decreases 7 - i,
    {
        let n = decimal_string(i);
        let m = Manga {
            id: join2("niadd_fallback_", n.as_str()),
            title: join2("Exemplo Niadd ", n.as_str()),
            source_id: owned("niadd"),
            source_name: owned("Niadd"),
            cover_path: None,
            synopsis: Some(owned("Exemplo gerado localmente")),
            status: owned("ongoing"),
            rating_bits: 0,
            language: owned("Português"),
            local_path: String::new(),
            total_chapters: 0,
            downloaded_chapters: 0,
            last_updated: owned(now),
        };
        proof {
            assert(m@.local_path =~= Seq::<char>::empty());
            assert(m@ == niadd_sample_spec(i as int, now@));
        }
        out.push(m);
        i = i + 1;
    }
    out
}

/// The records of the given sources, in order.
pub open spec fn of_sources(list: Seq<MangaView>, sources: Seq<Seq<char>>) -> Seq<MangaView>
    decreases list.len(),
{
    if list.len() == 0 {
        list
    } else if sources.contains(list.last().source_id) {
        of_sources(list.drop_last(), sources).push(list.last())
    } else {
        of_sources(list.drop_last(), sources)
    }
}

/// The records of the given sources, in order.
pub fn filter_by_sources(list: &Vec<Manga>, sources: &Vec<String>) -> (r: Vec<Manga>)
    ensures
        manga_views(r@) == of_sources(manga_views(list@), string_views(sources@)),
{
    let ghost lv = manga_views(list@);
    let mut out: Vec<Manga> = Vec::new();
    let mut i: usize = 0;
    proof {
        assert(lv.take(0) =~= Seq::<MangaView>::empty());
        assert(manga_views(out@) =~= Seq::<MangaView>::empty());
    }
    while i < list.len()
        invariant
            i <= list@.len(),
            lv == manga_views(list@),
            manga_views(out@) == of_sources(lv.take(i as int), string_views(sources@)),
        decreases list@.len() - i,
    {
        proof {
            assert(lv.take(i + 1).drop_last() =~= lv.take(i as int));
            assert(lv.take(i + 1).last() == list@[i as int]@);
        }
        let mut found = false;
        let mut j: usize = 0;
        while j < sources.len()
            invariant
                j <= sources@.len(),
                i < list@.len(),
                found <==> exists|k: int| 0 <= k < j && sources@[k]@ == list@[i as int].source_id@,
            decreases sources@.len() - j,
        {
            if same_chars(&chars_of(sources[j].as_str()), &chars_of(list[i].source_id.as_str())) {
                found = true;
            }
            j = j + 1;
        }
        proof {
            if found {
                let k = choose|k: int| 0 <= k < sources@.len() && sources@[k]@ == list@[i as int].source_id@;
                assert(string_views(sources@)[k] == sources@[k]@);
            } else {
                assert forall|k: int| 0 <= k < string_views(sources@).len() implies string_views(sources@)[k]
                    != list@[i as int].source_id@ by {
                    assert(string_views(sources@)[k] == sources@[k]@);
                }
            }
        }
        if found {
            let ghost prev = manga_views(out@);
            out.push(list[i].duplicate());
            proof {
                assert(manga_views(out@) =~= prev.push(list@[i as int]@));
            }
        }
        i = i + 1;
    }
    proof {
        assert(lv.take(list@.len() as int) =~= lv);
    }
    out
}

/// The id of a new favorite: `fav_` and a fresh identifier.
pub fn favorite_id(fresh: &str) -> (r: String)
    ensures
        r@ == "fav_"@ + fresh@,
{
    join2("fav_", fresh)
}

} // verus!
