use vstd::prelude::*;
use crate::registry::opt_view;
use crate::text::owned;

verus! {

/// A manga as the library lists it. The rating is kept as the bit pattern of the `f32`
/// that the database and the UI hold (`f32::to_bits`).
pub struct Manga {
    pub id: String,
    pub title: String,
    pub source_id: String,
    pub source_name: String,
    pub cover_path: Option<String>,
    pub synopsis: Option<String>,
    pub status: String,
    pub rating_bits: u32,
    pub language: String,
    pub local_path: String,
    pub total_chapters: i32,
    pub downloaded_chapters: i32,
    pub last_updated: String,
}

/// The value of a manga record, with strings as character sequences.
pub struct MangaView {
    pub id: Seq<char>,
    pub title: Seq<char>,
    pub source_id: Seq<char>,
    pub source_name: Seq<char>,
    pub cover_path: Option<Seq<char>>,
    pub synopsis: Option<Seq<char>>,
    pub status: Seq<char>,
    pub rating_bits: u32,
    pub language: Seq<char>,
    pub local_path: Seq<char>,
    pub total_chapters: i32,
    pub downloaded_chapters: i32,
    pub last_updated: Seq<char>,
}

impl View for Manga {
    type V = MangaView;

    open spec fn view(&self) -> MangaView {
        MangaView {
            id: self.id@,
            title: self.title@,
            source_id: self.source_id@,
            source_name: self.source_name@,
            cover_path: opt_view(self.cover_path),
            synopsis: opt_view(self.synopsis),
            status: self.status@,
            rating_bits: self.rating_bits,
            language: self.language@,
            local_path: self.local_path@,
            total_chapters: self.total_chapters,
            downloaded_chapters: self.downloaded_chapters,
            last_updated: self.last_updated@,
        }
    }
}

/// The records of a list of manga.
pub open spec fn manga_views(v: Seq<Manga>) -> Seq<MangaView> {
    v.map_values(|m: Manga| m@)
}

/// A record found on a web source: not downloaded, rating zero, status `ongoing`,
/// language Portuguese, no chapters known unless given.
pub open spec fn web_manga_spec(
    id: Seq<char>,
    title: Seq<char>,
    source_id: Seq<char>,
    source_name: Seq<char>,
    cover: Option<Seq<char>>,
    synopsis: Option<Seq<char>>,
    total_chapters: i32,
    now: Seq<char>,
) -> MangaView {
    MangaView {
        id,
        title,
        source_id,
        source_name,
        cover_path: cover,
        synopsis,
        status: "ongoing"@,
        rating_bits: 0,
        language: "Português"@,
        local_path: Seq::empty(),
        total_chapters,
        downloaded_chapters: 0,
        last_updated: now,
    }
}

/// A record found on a web source.
pub fn web_manga(
    id: String,
    title: String,
    source_id: &str,
    source_name: &str,
    cover: Option<String>,
    synopsis: Option<String>,
    total_chapters: i32,
    now: String,
) -> (r: Manga)
    ensures
        r@ == web_manga_spec(id@, title@, source_id@, source_name@, opt_view(cover), opt_view(synopsis), total_chapters, now@),
{
    Manga {
        id,
        title,
        source_id: owned(source_id),
        source_name: owned(source_name),
        cover_path: cover,
        synopsis,
        status: owned("ongoing"),
        rating_bits: 0,
        language: owned("Português"),
        local_path: String::new(),
        total_chapters,
        downloaded_chapters: 0,
        last_updated: now,
    }
}

/// A copy of an optional string.
pub fn clone_opt_string(s: &Option<String>) -> (r: Option<String>)
    ensures
        opt_view(r) == opt_view(*s),
{
    match s {
        Some(x) => Some(x.clone()),
        None => None,
    }
}

impl Manga {
    /// A copy of this record.
    pub fn duplicate(&self) -> (r: Manga)
        ensures
            r@ == self@,
    {
        Manga {
            id: self.id.clone(),
            title: self.title.clone(),
            source_id: self.source_id.clone(),
            source_name: self.source_name.clone(),
            cover_path: clone_opt_string(&self.cover_path),
            synopsis: clone_opt_string(&self.synopsis),
            status: self.status.clone(),
            rating_bits: self.rating_bits,
            language: self.language.clone(),
            local_path: self.local_path.clone(),
            total_chapters: self.total_chapters,
            downloaded_chapters: self.downloaded_chapters,
            last_updated: self.last_updated.clone(),
        }
    }
}

} // verus!
