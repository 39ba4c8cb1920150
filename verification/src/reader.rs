use vstd::prelude::*;
use base64::Engine;
use crate::text::{
    ascii_lower_seq, chars_of, decimal, decimal_string, ends_with, has_prefix, has_suffix, is_digit,
    join2, lex_less, lex_lt, lemma_lex_irreflexive, lemma_lex_total, lemma_lex_transitive, lower_ascii, owned,
    parse_decimal, parse_unsigned, starts_with, string_of_range, string_views,
};

verus! {

broadcast use vstd::seq_lib::group_to_multiset_ensures;

// ---------------------------------------------------------------------------
// Chapter numbers and file kinds
// ---------------------------------------------------------------------------

/// The first run of ASCII digits in a name, from index `i` on, once a run has begun when
/// `started`.
pub open spec fn digit_run_from(s: Seq<char>, i: int, started: bool) -> Seq<char>
    decreases s.len() - i,
{
    if i < 0 || i >= s.len() {
        Seq::empty()
    } else if is_digit(s[i]) {
        seq![s[i]] + digit_run_from(s, i + 1, true)
    } else if started {
        Seq::empty()
    } else {
        digit_run_from(s, i + 1, false)
    }
}

/// The chapter number of a file or folder name: its first run of ASCII digits read as a
/// `u32`; zero when there is none or it does not fit.
pub open spec fn chapter_number_spec(name: Seq<char>) -> u32 {
    match parse_unsigned(digit_run_from(name, 0, false), u32::MAX as nat) {
        Some(v) => v as u32,
        None => 0,
    }
}

/// The chapter number of a file or folder name.
pub fn chapter_number_from_name(name: &str) -> (r: u32)
    ensures
        r == chapter_number_spec(name@),
{
    let v = chars_of(name);
    let mut i: usize = 0;
    while i < v.len() && !('0' <= v[i] && v[i] <= '9')
        invariant
            i <= v@.len(),
            digit_run_from(v@, 0, false) == digit_run_from(v@, i as int, false),
        decreases v@.len() - i,
    {
        i = i + 1;
    }
    let start = i;
    while i < v.len() && '0' <= v[i] && v[i] <= '9'
        invariant
            start <= i <= v@.len(),
            start == v@.len() || is_digit(v@[start as int]),
            digit_run_from(v@, 0, false) == v@.subrange(start as int, i as int) + digit_run_from(v@, i as int, start < i),
            forall|j: int| start <= j < i ==> is_digit(#[trigger] v@[j]),
        decreases v@.len() - i,
    {
        proof {
            assert(v@.subrange(start as int, i + 1) =~= v@.subrange(start as int, i as int) + seq![v@[i as int]]);
        }
        i = i + 1;
    }
    proof {
        assert(digit_run_from(v@, 0, false) =~= v@.subrange(start as int, i as int));
    }
    match parse_decimal(&v, start, i, 4294967295) {
        Some(n) => n as u32,
        None => 0,
    }
}

/// A path of a page image: it ends with `.jpg`, `.jpeg`, `.png` or `.webp`, ignoring ASCII case.
pub open spec fn image_path_spec(p: Seq<char>) -> bool {
    let low = ascii_lower_seq(p);
    has_suffix(low, ".jpg"@) || has_suffix(low, ".jpeg"@) || has_suffix(low, ".png"@) || has_suffix(low, ".webp"@)
}

/// Whether a path names a page image.
pub fn is_image_path(p: &str) -> (r: bool)
    ensures
        r == image_path_spec(p@),
{
    let low = lower_ascii(&chars_of(p));
    ends_with(&low, &chars_of(".jpg")) || ends_with(&low, &chars_of(".jpeg")) || ends_with(&low, &chars_of(".png"))
        || ends_with(&low, &chars_of(".webp"))
}

/// The MIME type of a page file: PNG or WebP by its ending (ignoring ASCII case), else JPEG.
pub open spec fn mime_spec(name: Seq<char>) -> Seq<char> {
    let low = ascii_lower_seq(name);
    if has_suffix(low, ".png"@) {
        "image/png"@
    } else if has_suffix(low, ".webp"@) {
        "image/webp"@
    } else {
        "image/jpeg"@
    }
}

/// The MIME type of a page file.
pub fn mime_from_path(name: &str) -> (r: &'static str)
    ensures
        r@ == mime_spec(name@),
{
    let low = lower_ascii(&chars_of(name));
    if ends_with(&low, &chars_of(".png")) {
        "image/png"
    } else if ends_with(&low, &chars_of(".webp")) {
        "image/webp"
    } else {
        "image/jpeg"
    }
}

// ---------------------------------------------------------------------------
// Data URLs
// ---------------------------------------------------------------------------

/// The character of a base64 digit (the standard alphabet).
pub open spec fn b64_digit(v: int) -> char {
    if v < 26 {
        ((65 + v) as u8) as char
    } else if v < 52 {
        ((97 + v - 26) as u8) as char
    } else if v < 62 {
        ((48 + v - 52) as u8) as char
    } else if v == 62 {
        '+'
    } else {
        '/'
    }
}

/// Standard base64 with padding: each three bytes become four digits; a final one or two
/// bytes become two or three digits and `=` padding.
pub open spec fn base64_spec(b: Seq<u8>) -> Seq<char>
    decreases b.len(),
{
    if b.len() == 0 {
        Seq::empty()
    } else if b.len() == 1 {
        seq![b64_digit(b[0] as int / 4), b64_digit((b[0] % 4) * 16), '=', '=']
    } else if b.len() == 2 {
        seq![b64_digit(b[0] as int / 4), b64_digit((b[0] % 4) * 16 + b[1] / 16), b64_digit((b[1] % 16) * 4), '=']
    } else {
        seq![
            b64_digit(b[0] as int / 4),
            b64_digit((b[0] % 4) * 16 + b[1] / 16),
            b64_digit((b[1] % 16) * 4 + b[2] / 64),
            b64_digit(b[2] as int % 64),
        ] + base64_spec(b.subrange(3, b.len() as int))
    }
}

/// Calls `base64::engine::general_purpose::STANDARD.encode`. Claimed: the result is the
/// standard base64 encoding with padding (RFC 4648), as above.
#[verifier::external_body]
fn base64_encode(bytes: &[u8]) -> (r: String)
    ensures
        r@ == base64_spec(bytes@),
{
    base64::engine::general_purpose::STANDARD.encode(bytes)
}

/// A `data:` URL holding bytes of a MIME type.
pub open spec fn data_url_spec(bytes: Seq<u8>, mime: Seq<char>) -> Seq<char> {
    "data:"@ + mime + ";base64,"@ + base64_spec(bytes)
}

/// A `data:` URL holding bytes of a MIME type.
pub fn bytes_to_data_url(bytes: &[u8], mime: &str) -> (r: String)
    ensures
        r@ == data_url_spec(bytes@, mime@),
{
    let a = join2("data:", mime);
    let b = join2(a.as_str(), ";base64,");
    let e = base64_encode(bytes);
    let r = join2(b.as_str(), e.as_str());
    proof {
        assert(r@ =~= "data:"@ + mime@ + ";base64,"@ + base64_spec(bytes@));
    }
    r
}

/// The MIME type of a cover file, by its extension (any case): JPEG, PNG or WebP; none for
/// other extensions.
pub open spec fn cover_mime_spec(ext: Seq<char>) -> Option<Seq<char>> {
    let low = crate::text::lowercase_of(ext);
    if low == "jpg"@ || low == "jpeg"@ {
        Some("image/jpeg"@)
    } else if low == "png"@ {
        Some("image/png"@)
    } else if low == "webp"@ {
        Some("image/webp"@)
    } else {
        None
    }
}

/// The MIME type of a cover file, by its extension.
pub fn cover_mime(ext: &str) -> (r: Option<&'static str>)
    ensures
        match r {
            Some(m) => cover_mime_spec(ext@) == Some(m@),
            None => cover_mime_spec(ext@) is None,
        },
{
    let low = chars_of(crate::text::to_lowercase(ext).as_str());
    if crate::text::same_chars(&low, &chars_of("jpg")) || crate::text::same_chars(&low, &chars_of("jpeg")) {
        Some("image/jpeg")
    } else if crate::text::same_chars(&low, &chars_of("png")) {
        Some("image/png")
    } else if crate::text::same_chars(&low, &chars_of("webp")) {
        Some("image/webp")
    } else {
        None
    }
}

/// The `data:` URL of a cover file's bytes, by its extension: none for an extension that is
/// not an image's or for an empty file.
pub fn cover_data_url(ext: &str, bytes: &[u8]) -> (r: Option<String>)
    ensures
        match r {
            Some(u) => cover_mime_spec(ext@) is Some && bytes@.len() > 0 && u@ == data_url_spec(
                bytes@,
                cover_mime_spec(ext@)->0,
            ),
            None => cover_mime_spec(ext@) is None || bytes@.len() == 0,
        },
{
    match cover_mime(ext) {
        None => None,
        Some(m) => {
            if bytes.len() == 0 {
                None
            } else {
                Some(bytes_to_data_url(bytes, m))
            }
        },
    }
}

// ---------------------------------------------------------------------------
// Chapters of a local manga
// ---------------------------------------------------------------------------

/// A chapter of a local manga as the reader lists it.
pub struct ChapterItem {
    pub number: u32,
    /// `cbz::` or `dir::` and the file or folder name.
    pub id: String,
    /// `Cap ` and the number.
    pub title: String,
}

/// The value of a chapter item.
pub type ChapterItemView = (u32, Seq<char>, Seq<char>);

impl View for ChapterItem {
    type V = ChapterItemView;

    open spec fn view(&self) -> ChapterItemView {
        (self.number, self.id@, self.title@)
    }
}

/// The values of a list of chapter items.
pub open spec fn item_views(v: Seq<ChapterItem>) -> Seq<ChapterItemView> {
    v.map_values(|c: ChapterItem| c@)
}

/// The item of a chapter archive (`cbz`) or folder.
pub open spec fn chapter_item_spec(archive: bool, name: Seq<char>) -> ChapterItemView {
    let n = chapter_number_spec(name);
    (n, (if archive { "cbz::"@ } else { "dir::"@ }) + name, "Cap "@ + decimal(n as nat))
}

/// The item of a chapter archive or folder.
pub fn chapter_item(archive: bool, name: &str) -> (r: ChapterItem)
    ensures
        r@ == chapter_item_spec(archive, name@),
{
    let n = chapter_number_from_name(name);
    let id = if archive { join2("cbz::", name) } else { join2("dir::", name) };
    let title = join2("Cap ", decimal_string(n as u64).as_str());
    ChapterItem { number: n, id, title }
}

/// Items are in reading order: by number, then by id.
pub open spec fn item_le(a: ChapterItemView, b: ChapterItemView) -> bool {
    a.0 < b.0 || (a.0 == b.0 && !lex_lt(b.1, a.1))
}

/// A list of items in reading order.
pub open spec fn items_sorted(s: Seq<ChapterItemView>) -> bool {
    forall|i: int, j: int| 0 <= i < j < s.len() ==> item_le(#[trigger] s[i], #[trigger] s[j])
}

/// The reading order is total.
pub proof fn lemma_item_le_total(a: ChapterItemView, b: ChapterItemView)
    ensures
        item_le(a, b) || item_le(b, a),
{
    lemma_lex_total(a.1, b.1);
}

/// The reading order is transitive.
pub proof fn lemma_item_le_transitive(a: ChapterItemView, b: ChapterItemView, c: ChapterItemView)
    requires
        item_le(a, b),
        item_le(b, c),
    ensures
        item_le(a, c),
{
    if a.0 == b.0 && b.0 == c.0 {
        lemma_lex_total(a.1, b.1);
        lemma_lex_total(b.1, c.1);
        lemma_lex_total(a.1, c.1);
        if lex_lt(c.1, a.1) {
            if a.1 != b.1 && b.1 != c.1 {
                lemma_lex_transitive(a.1, b.1, c.1);
            }
            if a.1 == b.1 {
                lemma_lex_irreflexive(a.1);
            }
            if b.1 == c.1 {
                lemma_lex_irreflexive(b.1);
            }
        }
    }
}

/// Whether `a` comes strictly after `b` in reading order.
fn item_after(a: &ChapterItem, b: &ChapterItem) -> (r: bool)
    ensures
        r == !item_le(a@, b@),
{
    if a.number != b.number {
        a.number > b.number
    } else {
        lex_less(&chars_of(b.id.as_str()), &chars_of(a.id.as_str()))
    }
}

/// Puts items in reading order (a stable insertion sort).
pub fn sort_chapter_items(items: Vec<ChapterItem>) -> (r: Vec<ChapterItem>)
    ensures
        items_sorted(item_views(r@)),
        item_views(r@).to_multiset() == item_views(items@).to_multiset(),
{
    let ghost iv = item_views(items@);
    let mut items = items;
    let mut out: Vec<ChapterItem> = Vec::new();
    proof {
        assert(item_views(out@) =~= iv.take(0));
    }
    let n = items.len();
    let mut k: usize = 0;
    while k < n
        invariant
            k <= n,
            n == items@.len(),
            iv == item_views(items@),
            items_sorted(item_views(out@)),
            item_views(out@).to_multiset() == iv.take(k as int).to_multiset(),
        decreases n - k,
    {
        let x = ChapterItem { number: items[k].number, id: items[k].id.clone(), title: items[k].title.clone() };
        proof {
            assert(x@ == iv[k as int]);
        }
        let mut pos: usize = 0;
        while pos < out.len() && !item_after(&out[pos], &x)
            invariant
                pos <= out@.len(),
                forall|j: int| 0 <= j < pos ==> item_le(#[trigger] item_views(out@)[j], x@),
            decreases out@.len() - pos,
        {
            pos = pos + 1;
        }
        let ghost before = item_views(out@);
        proof {
            assert forall|j: int| pos <= j < before.len() implies item_le(x@, #[trigger] before[j]) by {
                assert(!item_le(before[pos as int], x@));
                lemma_item_le_total(before[pos as int], x@);
                if j > pos {
                    assert(item_le(before[pos as int], before[j]));
                    lemma_item_le_transitive(x@, before[pos as int], before[j]);
                }
            }
        }
        out.insert(pos, x);
        proof {
            let after = item_views(out@);
            assert(after =~= before.insert(pos as int, x@));
            assert forall|i: int, j: int| 0 <= i < j < after.len() implies item_le(#[trigger] after[i], #[trigger] after[j]) by {
                if j < pos {
                    assert(after[i] == before[i] && after[j] == before[j]);
                } else if j == pos {
                    assert(after[i] == before[i]);
                } else if i < pos {
                    assert(after[i] == before[i] && after[j] == before[j - 1]);
                    lemma_item_le_transitive(before[i], x@, before[j - 1]);
                } else if i == pos {
                    assert(after[j] == before[j - 1]);
                } else {
                    assert(after[i] == before[i - 1] && after[j] == before[j - 1]);
                }
            }
            vstd::seq_lib::to_multiset_insert(before, pos as int, x@);
            assert(iv.take(k + 1) =~= iv.take(k as int).push(iv[k as int]));
        }
        k = k + 1;
    }
    proof {
        assert(iv.take(n as int) =~= iv);
    }
    out
}

/// The chapters of a local manga: its chapter archives when it has any, else its folders;
/// each named by kind and name, in reading order.
pub fn chapter_listing(archive_names: &Vec<String>, folder_names: &Vec<String>) -> (r: Vec<ChapterItem>)
    ensures
        items_sorted(item_views(r@)),
        archive_names@.len() > 0 ==> item_views(r@).to_multiset() == string_views(archive_names@).map_values(
            |n: Seq<char>| chapter_item_spec(true, n),
        ).to_multiset(),
        archive_names@.len() == 0 ==> item_views(r@).to_multiset() == string_views(folder_names@).map_values(
            |n: Seq<char>| chapter_item_spec(false, n),
        ).to_multiset(),
{
    let archive = archive_names.len() > 0;
    let names = if archive { archive_names } else { folder_names };
    let mut items: Vec<ChapterItem> = Vec::new();
    let mut i: usize = 0;
    while i < names.len()
        invariant
            i <= names@.len(),
            item_views(items@) =~= string_views(names@).take(i as int).map_values(
                |n: Seq<char>| chapter_item_spec(archive, n),
            ),
        decreases names@.len() - i,
    {
        let it = chapter_item(archive, names[i].as_str());
        let ghost prev = item_views(items@);
        items.push(it);
        proof {
            assert(item_views(items@) =~= prev.push(it@));
            assert(string_views(names@).take(i + 1) =~= string_views(names@).take(i as int).push(names@[i as int]@));
        }
        i = i + 1;
    }
    proof {
        assert(string_views(names@).take(names@.len() as int) =~= string_views(names@));
    }
    sort_chapter_items(items)
}

/// Where the pages of a chapter are: in an archive or in a folder, by name.
pub enum ChapterRef {
    Archive(String),
    Folder(String),
}

/// The place that a chapter id names: `cbz::` and an archive name, else a folder, named
/// by what follows `dir::` or by the whole id.
pub open spec fn chapter_ref_spec(id: Seq<char>) -> (bool, Seq<char>) {
    if has_prefix(id, "cbz::"@) {
        (true, id.skip(5))
    } else if has_prefix(id, "dir::"@) {
        (false, id.skip(5))
    } else {
        (false, id)
    }
}

/// The place that a chapter id names.
pub fn parse_chapter_id(id: &str) -> (r: ChapterRef)
    ensures
        match r {
            ChapterRef::Archive(n) => chapter_ref_spec(id@) == (true, n@),
            ChapterRef::Folder(n) => chapter_ref_spec(id@) == (false, n@),
        },
{
    let v = chars_of(id);
    proof {
        reveal_strlit("cbz::");
        reveal_strlit("dir::");
    }
    if starts_with(&v, &chars_of("cbz::")) {
        let n = string_of_range(&v, 5, v.len());
        proof {
            assert(v@.subrange(5, v@.len() as int) =~= v@.skip(5));
        }
        ChapterRef::Archive(n)
    } else if starts_with(&v, &chars_of("dir::")) {
        let n = string_of_range(&v, 5, v.len());
        proof {
            assert(v@.subrange(5, v@.len() as int) =~= v@.skip(5));
        }
        ChapterRef::Folder(n)
    } else {
        ChapterRef::Folder(owned(id))
    }
}

/// A list of strings in ascending order.
pub open spec fn strings_ascending(s: Seq<Seq<char>>) -> bool {
    forall|i: int, j: int| 0 <= i < j < s.len() ==> !lex_lt(#[trigger] s[j], #[trigger] s[i])
}

/// Sorts strings in ascending order (`slice::sort` on `String`).
pub fn sort_strings(v: Vec<String>) -> (r: Vec<String>)
    ensures
        strings_ascending(string_views(r@)),
        string_views(r@).to_multiset() == string_views(v@).to_multiset(),
{
    let ghost sv = string_views(v@);
    let mut out: Vec<String> = Vec::new();
    proof {
        assert(string_views(out@) =~= sv.take(0));
    }
    let n = v.len();
    let mut k: usize = 0;
    while k < n
        invariant
            k <= n,
            n == v@.len(),
            sv == string_views(v@),
            strings_ascending(string_views(out@)),
            string_views(out@).to_multiset() == sv.take(k as int).to_multiset(),
        decreases n - k,
    {
        let x = v[k].clone();
        let xc = chars_of(x.as_str());
        let mut pos: usize = 0;
        while pos < out.len() && !lex_less(&xc, &chars_of(out[pos].as_str()))
            invariant
                pos <= out@.len(),
                xc@ == x@,
                forall|j: int| 0 <= j < pos ==> !lex_lt(x@, #[trigger] string_views(out@)[j]),
            decreases out@.len() - pos,
        {
            pos = pos + 1;
        }
        let ghost before = string_views(out@);
        proof {
            assert forall|j: int| pos <= j < before.len() implies !lex_lt(#[trigger] before[j], x@) by {
                assert(lex_lt(x@, before[pos as int]));
                lemma_lex_total(x@, before[pos as int]);
                if j > pos {
                    assert(!lex_lt(before[j], before[pos as int]));
                    lemma_lex_total(before[j], before[pos as int]);
                    if before[j] != before[pos as int] {
                        lemma_lex_transitive(x@, before[pos as int], before[j]);
                    }
                    lemma_lex_total(before[j], x@);
                }
            }
        }
        out.insert(pos, x);
        proof {
            let after = string_views(out@);
            assert(after =~= before.insert(pos as int, x@));
            assert forall|i: int, j: int| 0 <= i < j < after.len() implies !lex_lt(#[trigger] after[j], #[trigger] after[i]) by {
                if j < pos {
                    assert(after[i] == before[i] && after[j] == before[j]);
                } else if j == pos {
                    assert(after[i] == before[i]);
                    lemma_lex_total(x@, before[i]);
                } else if i < pos {
                    assert(after[i] == before[i] && after[j] == before[j - 1]);
                    lemma_lex_total(x@, before[i]);
                    lemma_lex_total(before[j - 1], x@);
                    if lex_lt(before[j - 1], before[i]) {
                        if before[j - 1] != x@ && x@ != before[i] {
                            lemma_lex_transitive(before[j - 1], x@, before[i]);
                        }
                    }
                } else if i == pos {
                    assert(after[j] == before[j - 1]);
                } else {
                    assert(after[i] == before[i - 1] && after[j] == before[j - 1]);
                }
            }
            vstd::seq_lib::to_multiset_insert(before, pos as int, x@);
            assert(sv.take(k + 1) =~= sv.take(k as int).push(sv[k as int]));
        }
        k = k + 1;
    }
    proof {
        assert(sv.take(n as int) =~= sv);
    }
    out
}

} // verus!
