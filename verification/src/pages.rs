use vstd::prelude::*;
use crate::cards::NodeV;
use crate::download::{
    chapter_token, extract_chapter_urls_from_text, extract_image_urls_from_text, image_ext_for_url, image_ext_spec,
    image_token, keep, text_pieces, yielded,
};
use crate::library::{Manga, MangaView, manga_views};
use crate::registry::opt_view;
use crate::scrape::{
    Node, join_url, key_views, nodes_or_empty, nodes_view, parse_url, res_view, sel_nodes, url_join_spec,
    url_parse_spec,
};
use crate::text::{
    chars_of, contains, contains_text, ends_with, has_prefix, has_suffix, join2,
    lowercase_of, owned, replace_char, replace_char_spec, starts_with, string_of, string_views, strictly_sorted,
    to_lowercase,
};

verus! {

// ---------------------------------------------------------------------------
// Values read from the first selector that yields any
// ---------------------------------------------------------------------------

/// The first attribute present among those read.
pub open spec fn first_present(attrs: Seq<Option<Seq<char>>>) -> Option<Seq<char>>
    decreases attrs.len(),
{
    if attrs.len() == 0 {
        None
    } else if attrs[0] is Some {
        attrs[0]
    } else {
        first_present(attrs.drop_first())
    }
}

/// For each matched element that has one, its first present attribute, in order.
pub open spec fn node_values(ns: Seq<NodeV>) -> Seq<Seq<char>>
    decreases ns.len(),
{
    if ns.len() == 0 {
        Seq::empty()
    } else {
        let prev = node_values(ns.drop_last());
        match first_present(ns.last().1) {
            Some(v) => prev.push(v),
            None => prev,
        }
    }
}

/// The values of the first selector, from index `i` on, whose matches give any.
pub open spec fn first_selection(html: Seq<char>, sels: Seq<Seq<char>>, keys: Seq<Seq<char>>, i: int) -> Seq<
    Seq<char>,
>
    decreases sels.len() - i,
{
    if i < 0 || i >= sels.len() {
        Seq::empty()
    } else {
        let v = node_values(sel_nodes(html, sels[i], keys));
        if v.len() > 0 { v } else { first_selection(html, sels, keys, i + 1) }
    }
}

/// The first present attribute of an element.
fn first_present_of(attrs: &Vec<Option<String>>) -> (r: Option<String>)
    ensures
        opt_view(r) == first_present(attrs@.map_values(|a: Option<String>| opt_view(a))),
{
    let ghost av = attrs@.map_values(|a: Option<String>| opt_view(a));
    let mut i: usize = 0;
    proof {
        assert(av.skip(0) =~= av);
    }
    while i < attrs.len()
        invariant
            i <= attrs@.len(),
            av == attrs@.map_values(|a: Option<String>| opt_view(a)),
            first_present(av) == first_present(av.skip(i as int)),
        decreases attrs@.len() - i,
    {
        proof {
            assert(av.skip(i as int).drop_first() =~= av.skip(i + 1));
            assert(av.skip(i as int)[0] == opt_view(attrs@[i as int]));
        }
        match &attrs[i] {
            Some(v) => {
                return Some(v.clone());
            },
            None => {},
        }
        i = i + 1;
    }
    None
}

/// The values that a list of matched elements gives.
fn values_of(nodes: &Vec<Node>) -> (r: Vec<String>)
    ensures
        string_views(r@) == node_values(nodes_view(nodes@)),
{
    let ghost nv = nodes_view(nodes@);
    let mut out: Vec<String> = Vec::new();
    let mut i: usize = 0;
    proof {
        assert(nv.take(0) =~= Seq::<NodeV>::empty());
        assert(string_views(out@) =~= Seq::<Seq<char>>::empty());
    }
    while i < nodes.len()
        invariant
            i <= nodes@.len(),
            nv == nodes_view(nodes@),
            string_views(out@) == node_values(nv.take(i as int)),
        decreases nodes@.len() - i,
    {
        proof {
            assert(nv.take(i + 1).drop_last() =~= nv.take(i as int));
            assert(nv.take(i + 1).last() == crate::scrape::node_view(nodes@[i as int]));
        }
        match first_present_of(&nodes[i].attrs) {
            Some(v) => {
                let ghost prev = out@;
                out.push(v);
                proof {
                    assert(string_views(out@) =~= string_views(prev).push(v@));
                }
            },
            None => {},
        }
        i = i + 1;
    }
    proof {
        assert(nv.take(nodes@.len() as int) =~= nv);
    }
    out
}

/// The values of the first selector whose matches give any.
pub fn first_selection_of(html: &str, sels: &Vec<String>, keys: &Vec<String>) -> (r: Vec<String>)
    ensures
        string_views(r@) == first_selection(html@, key_views(sels@), key_views(keys@), 0),
{
    let ghost sv = key_views(sels@);
    let mut i: usize = 0;
    while i < sels.len()
        invariant
            i <= sels@.len(),
            sv == key_views(sels@),
            first_selection(html@, sv, key_views(keys@), 0) == first_selection(html@, sv, key_views(keys@), i as int),
        decreases sels@.len() - i,
    {
        proof {
            assert(sv[i as int] == sels@[i as int]@);
        }
        let v = values_of(&nodes_or_empty(html, sels[i].as_str(), keys));
        if v.len() > 0 {
            return v;
        }
        i = i + 1;
    }
    let r: Vec<String> = Vec::new();
    proof {
        assert(string_views(r@) =~= Seq::<Seq<char>>::empty());
    }
    r
}

/// A list of strings made from literals.
fn strings_of_literals(v: &Vec<&str>) -> (r: Vec<String>)
    ensures
        key_views(r@) == v@.map_values(|s: &str| s@),
{
    let mut r: Vec<String> = Vec::new();
    let mut i: usize = 0;
    while i < v.len()
        invariant
            i <= v@.len(),
            key_views(r@) == v@.take(i as int).map_values(|s: &str| s@),
        decreases v@.len() - i,
    {
        let ghost before = r@;
        let x = owned(v[i]);
        r.push(x);
        proof {
            assert(r@ == before.push(x));
            assert(key_views(r@) =~= key_views(before).push(x@));
            assert(v@.take(i + 1) == v@.take(i as int).push(v@[i as int]));
            assert(v@.take(i + 1).map_values(|s: &str| s@) =~= v@.take(i as int).map_values(|s: &str| s@).push(
                v@[i as int]@,
            ));
        }
        i = i + 1;
    }
    proof {
        assert(v@.take(v@.len() as int) == v@);
    }
    r
}

// ---------------------------------------------------------------------------
// Chapter links and page images
// ---------------------------------------------------------------------------

/// The selectors tried, in order, for the chapter links of a Niadd manga page.
pub open spec fn niadd_chapter_selectors() -> Seq<Seq<char>> {
    seq!["a.chapter-item"@, "ul.chapters a"@, "a[href*='chapter']"@, "a[href*='capitulo']"@, "a[href*='/c/']"@]
}

/// A link that may lead to a chapter: it mentions `chapter` or `cap`.
pub open spec fn chapterish(h: Seq<char>) -> bool {
    contains_text(h, "chapter"@) || contains_text(h, "cap"@)
}

/// The chapter links of a Niadd manga page: those of the first chapter selector that finds
/// any; else every link that mentions `chapter` or `cap`.
pub open spec fn niadd_chapter_links_spec(html: Seq<char>) -> Seq<Seq<char>> {
    let first = first_selection(html, niadd_chapter_selectors(), seq!["href"@], 0);
    if first.len() > 0 {
        first
    } else {
        keep(node_values(sel_nodes(html, "a[href]"@, seq!["href"@])), |h: Seq<char>| chapterish(h))
    }
}

/// One attribute name.
fn key(a: &str) -> (r: Vec<String>)
    ensures
        key_views(r@) == seq![a@],
{
    let r = vec![owned(a)];
    proof {
        assert(key_views(r@) =~= seq![a@]);
    }
    r
}

/// The attributes that give an image's address: `data-src`, then `src`.
fn image_source_keys() -> (r: Vec<String>)
    ensures
        key_views(r@) == seq!["data-src"@, "src"@],
{
    let r = vec![owned("data-src"), owned("src")];
    proof {
        assert(key_views(r@) =~= seq!["data-src"@, "src"@]);
    }
    r
}

/// The chapter links of a Niadd manga page.
pub fn niadd_chapter_links(html: &str) -> (r: Vec<String>)
    ensures
        string_views(r@) == niadd_chapter_links_spec(html@),
{
    let sels = strings_of_literals(
        &vec!["a.chapter-item", "ul.chapters a", "a[href*='chapter']", "a[href*='capitulo']", "a[href*='/c/']"],
    );
    proof {
        assert(key_views(sels@) =~= niadd_chapter_selectors());
    }
    let first = first_selection_of(html, &sels, &key("href"));
    if first.len() > 0 {
        return first;
    }
    let all = values_of(&nodes_or_empty(html, "a[href]", &key("href")));
    let ghost f = |h: Seq<char>| chapterish(h);
    let mut out: Vec<String> = Vec::new();
    let mut i: usize = 0;
    let word = chars_of("chapter");
    let short = chars_of("cap");
    proof {
        assert(string_views(all@).take(0) =~= Seq::<Seq<char>>::empty());
        assert(string_views(out@) =~= Seq::<Seq<char>>::empty());
    }
    while i < all.len()
        invariant
            i <= all@.len(),
            word@ == "chapter"@,
            short@ == "cap"@,
            f == (|h: Seq<char>| chapterish(h)),
            string_views(out@) == keep(string_views(all@).take(i as int), f),
        decreases all@.len() - i,
    {
        proof {
            assert(string_views(all@).take(i + 1).drop_last() =~= string_views(all@).take(i as int));
            assert(string_views(all@).take(i + 1).last() == all@[i as int]@);
        }
        let h = chars_of(all[i].as_str());
        if contains(&h, &word) || contains(&h, &short) {
            let ghost prev = out@;
            out.push(all[i].clone());
            proof {
                assert(string_views(out@) =~= string_views(prev).push(all@[i as int]@));
            }
        }
        i = i + 1;
    }
    proof {
        assert(string_views(all@).take(all@.len() as int) =~= string_views(all@));
    }
    out
}

/// The selectors tried, in order, for the chapter links of a MangaLivre manga page.
pub open spec fn mangalivre_chapter_selectors() -> Seq<Seq<char>> {
    seq!["ul.full-chapters-list.list-of-chapters a[href]"@, "ul.list-of-chapters a[href]"@, "a[href*='/capitulo-']"@]
}

/// The chapter links of a MangaLivre manga page: those of the first chapter selector that
/// finds any; else the chapter URLs embedded in its text, sorted and without repeats.
pub fn mangalivre_chapter_links(html: &str) -> (r: Vec<String>)
    ensures
        first_selection(html@, mangalivre_chapter_selectors(), seq!["href"@], 0).len() > 0 ==> string_views(r@)
            == first_selection(html@, mangalivre_chapter_selectors(), seq!["href"@], 0),
        first_selection(html@, mangalivre_chapter_selectors(), seq!["href"@], 0).len() == 0 ==> {
            &&& strictly_sorted(string_views(r@))
            &&& string_views(r@).to_set() == yielded(text_pieces(html@), |p: Seq<char>| chapter_token(p))
        },
{
    let sels = strings_of_literals(
        &vec!["ul.full-chapters-list.list-of-chapters a[href]", "ul.list-of-chapters a[href]", "a[href*='/capitulo-']"],
    );
    proof {
        assert(key_views(sels@) =~= mangalivre_chapter_selectors());
    }
    let first = first_selection_of(html, &sels, &key("href"));
    if first.len() > 0 {
        first
    } else {
        extract_chapter_urls_from_text(html)
    }
}

/// The selectors tried, in order, for the page images of a Niadd chapter.
pub open spec fn niadd_image_selectors() -> Seq<Seq<char>> {
    seq!["img.page-img"@, "img#image"@, "div.reading-content img"@, "img"@]
}

/// The image candidates of a Niadd chapter page: the `data-src` (else `src`) of the
/// images that the first selector finding any matches.
pub fn niadd_chapter_images(html: &str) -> (r: Vec<String>)
    ensures
        string_views(r@) == first_selection(html@, niadd_image_selectors(), seq!["data-src"@, "src"@], 0),
{
    let sels = strings_of_literals(&vec!["img.page-img", "img#image", "div.reading-content img", "img"]);
    proof {
        assert(key_views(sels@) =~= niadd_image_selectors());
    }
    first_selection_of(html, &sels, &image_source_keys())
}

/// The selectors tried, in order, for the page images of a MangaLivre chapter.
pub open spec fn mangalivre_image_selectors() -> Seq<Seq<char>> {
    seq![
        "div.manga-image picture img"@,
        "div.manga-continue img"@,
        "img.wp-manga-chapter-img"@,
        ".reading-content img"@,
        ".entry-content img"@,
        "img[data-src]"@,
        "img[src]"@,
    ]
}

/// The image candidates of a MangaLivre chapter page: those of the first selector finding
/// any; else the image URLs embedded in its text, sorted and without repeats.
pub fn mangalivre_chapter_images(html: &str) -> (r: Vec<String>)
    ensures
        first_selection(html@, mangalivre_image_selectors(), seq!["data-src"@, "src"@], 0).len() > 0 ==> string_views(
            r@,
        ) == first_selection(html@, mangalivre_image_selectors(), seq!["data-src"@, "src"@], 0),
        first_selection(html@, mangalivre_image_selectors(), seq!["data-src"@, "src"@], 0).len() == 0 ==> {
            &&& strictly_sorted(string_views(r@))
            &&& string_views(r@).to_set() == yielded(text_pieces(html@), |p: Seq<char>| image_token(p))
        },
{
    let sels = strings_of_literals(
        &vec![
            "div.manga-image picture img",
            "div.manga-continue img",
            "img.wp-manga-chapter-img",
            ".reading-content img",
            ".entry-content img",
            "img[data-src]",
            "img[src]",
        ],
    );
    proof {
        assert(key_views(sels@) =~= mangalivre_image_selectors());
    }
    let first = first_selection_of(html, &sels, &image_source_keys());
    if first.len() > 0 {
        first
    } else {
        extract_image_urls_from_text(html)
    }
}

// ---------------------------------------------------------------------------
// Resolving links
// ---------------------------------------------------------------------------

/// A link resolved for download: the URL it parses to when absolute, else joined to
/// `base`; none when both fail.
pub open spec fn resolve_link_spec(base: Seq<char>, link: Seq<char>) -> Option<Seq<char>> {
    match url_parse_spec(link) {
        Ok(u) => Some(u),
        Err(_) => match url_join_spec(base, link) {
            Ok(u) => Some(u),
            Err(_) => None,
        },
    }
}

/// A link resolved for download, or the error of joining it to `base`.
pub open spec fn resolve_required_spec(base: Seq<char>, link: Seq<char>) -> Result<Seq<char>, Seq<char>> {
    match url_parse_spec(link) {
        Ok(u) => Ok(u),
        Err(_) => url_join_spec(base, link),
    }
}

/// The links that resolve, resolved, in order.
pub open spec fn resolve_links_spec(base: Seq<char>, links: Seq<Seq<char>>) -> Seq<Seq<char>>
    decreases links.len(),
{
    if links.len() == 0 {
        Seq::empty()
    } else {
        let prev = resolve_links_spec(base, links.drop_last());
        match resolve_link_spec(base, links.last()) {
            Some(u) => prev.push(u),
            None => prev,
        }
    }
}

/// A link resolved for download.
pub fn resolve_link(base: &str, link: &str) -> (r: Option<String>)
    ensures
        opt_view(r) == resolve_link_spec(base@, link@),
{
    match parse_url(link) {
        Ok(u) => Some(u),
        Err(_) => match join_url(base, link) {
            Ok(u) => Some(u),
            Err(_) => None,
        },
    }
}

/// The links of a page resolved for download: the error of parsing the page's URL `base`
/// when it is not a URL; else the links that resolve against it, resolved, in order.
pub fn resolve_links_from(base: &str, links: &Vec<String>) -> (r: Result<Vec<String>, String>)
    ensures
        match r {
            Ok(v) => url_parse_spec(base@) is Ok && string_views(v@) == resolve_links_spec(
                base@,
                string_views(links@),
            ),
            Err(e) => url_parse_spec(base@) == Err::<Seq<char>, Seq<char>>(e@),
        },
{
    match parse_url(base) {
        Ok(_) => Ok(resolve_links(base, links)),
        Err(e) => Err(e),
    }
}

/// A link resolved for download, or the error of joining it.
pub fn resolve_required(base: &str, link: &str) -> (r: Result<String, String>)
    ensures
        res_view(r) == resolve_required_spec(base@, link@),
{
    match parse_url(link) {
        Ok(u) => Ok(u),
        Err(_) => join_url(base, link),
    }
}

/// The links that resolve against `base`, resolved, in order.
pub fn resolve_links(base: &str, links: &Vec<String>) -> (r: Vec<String>)
    ensures
        string_views(r@) == resolve_links_spec(base@, string_views(links@)),
{
    let ghost lv = string_views(links@);
    let mut out: Vec<String> = Vec::new();
    let mut i: usize = 0;
    proof {
        assert(lv.take(0) =~= Seq::<Seq<char>>::empty());
        assert(string_views(out@) =~= Seq::<Seq<char>>::empty());
    }
    while i < links.len()
        invariant
            i <= links@.len(),
            lv == string_views(links@),
            string_views(out@) == resolve_links_spec(base@, lv.take(i as int)),
        decreases links@.len() - i,
    {
        proof {
            assert(lv.take(i + 1).drop_last() =~= lv.take(i as int));
            assert(lv.take(i + 1).last() == links@[i as int]@);
        }
        match resolve_link(base, links[i].as_str()) {
            Some(u) => {
                let ghost prev = out@;
                out.push(u);
                proof {
                    assert(string_views(out@) =~= string_views(prev).push(u@));
                }
            },
            None => {},
        }
        i = i + 1;
    }
    proof {
        assert(lv.take(links@.len() as int) =~= lv);
    }
    out
}

/// The base against which the images of a chapter are resolved: the chapter's address
/// when it parses, else the manga's.
pub open spec fn chapter_base_spec(chapter_url: Seq<char>, manga_url: Seq<char>) -> Seq<char> {
    if url_parse_spec(chapter_url) is Ok { chapter_url } else { manga_url }
}

/// The base against which the images of a chapter are resolved.
pub fn chapter_base(chapter_url: &str, manga_url: &str) -> (r: String)
    ensures
        r@ == chapter_base_spec(chapter_url@, manga_url@),
{
    match parse_url(chapter_url) {
        Ok(_) => owned(chapter_url),
        Err(_) => owned(manga_url),
    }
}

/// A list without runs of equal neighbours (`Vec::dedup`).
pub open spec fn dedup_spec(s: Seq<Seq<char>>) -> Seq<Seq<char>>
    decreases s.len(),
{
    if s.len() <= 1 {
        s
    } else {
        let prev = dedup_spec(s.drop_last());
        if s.last() == s[s.len() - 2] { prev } else { prev.push(s.last()) }
    }
}

/// What `dedup_spec` gives ends with the list's last item and has no equal neighbours.
pub proof fn lemma_dedup_shape(s: Seq<Seq<char>>)
    ensures
        s.len() > 0 ==> dedup_spec(s).len() > 0 && dedup_spec(s).last() == s.last(),
        forall|i: int, j: int|
            0 <= i && j == i + 1 && j < dedup_spec(s).len() ==> #[trigger] dedup_spec(s)[i] != #[trigger] dedup_spec(s)[j],
        dedup_spec(s).len() <= s.len(),
    decreases s.len(),
{
    if s.len() > 1 {
        lemma_dedup_shape(s.drop_last());
        assert(s.drop_last().last() == s[s.len() - 2]);
    }
}

/// Removes runs of equal neighbours, keeping the first of each run.
pub fn dedup_adjacent(v: &Vec<String>) -> (r: Vec<String>)
    ensures
        string_views(r@) == dedup_spec(string_views(v@)),
        forall|i: int, j: int| 0 <= i && j == i + 1 && j < r@.len() ==> (#[trigger] r@[i])@ != (#[trigger] r@[j])@,
{
    let ghost sv = string_views(v@);
    let mut out: Vec<String> = Vec::new();
    let mut i: usize = 0;
    proof {
        assert(sv.take(0) =~= Seq::<Seq<char>>::empty());
        assert(string_views(out@) =~= Seq::<Seq<char>>::empty());
    }
    while i < v.len()
        invariant
            i <= v@.len(),
            sv == string_views(v@),
            string_views(out@) == dedup_spec(sv.take(i as int)),
        decreases v@.len() - i,
    {
        proof {
            assert(sv.take(i + 1).drop_last() =~= sv.take(i as int));
            assert(sv.take(i + 1).last() == v@[i as int]@);
            lemma_dedup_shape(sv.take(i as int));
        }
        let keep_it = if i == 0 {
            true
        } else {
            proof {
                assert(sv.take(i + 1)[i - 1] == v@[i - 1]@);
            }
            !same_text(&v[i], &v[i - 1])
        };
        if keep_it {
            let ghost prev = out@;
            out.push(v[i].clone());
            proof {
                assert(string_views(out@) =~= string_views(prev).push(v@[i as int]@));
            }
        }
        i = i + 1;
    }
    proof {
        assert(sv.take(v@.len() as int) =~= sv);
        lemma_dedup_shape(sv);
        assert forall|i: int, j: int| 0 <= i && j == i + 1 && j < out@.len() implies (#[trigger] out@[i])@ != (
        #[trigger] out@[j])@ by {
            assert(string_views(out@)[i] == out@[i]@);
            assert(string_views(out@)[j] == out@[j]@);
        }
    }
    out
}

/// Whether two strings hold the same text.
fn same_text(a: &String, b: &String) -> (r: bool)
    ensures
        r == (a@ == b@),
{
    crate::text::same_chars(&chars_of(a.as_str()), &chars_of(b.as_str()))
}

// ---------------------------------------------------------------------------
// Records of manual downloads
// ---------------------------------------------------------------------------

/// The record of a manually downloaded manga, listed under the id `manual_` and its folder
/// name (`unknown` without one).
pub open spec fn manual_record_spec(
    folder: Option<Seq<char>>,
    title: Seq<char>,
    cover: Option<Seq<char>>,
    local_path: Seq<char>,
    chapters: i32,
    now: Seq<char>,
) -> MangaView {
    MangaView {
        id: "manual_"@ + match folder {
            Some(f) => f,
            None => "unknown"@,
        },
        title,
        source_id: "manual"@,
        source_name: "Manual"@,
        cover_path: cover,
        synopsis: None,
        status: "unknown"@,
        rating_bits: 0,
        language: "Português"@,
        local_path,
        total_chapters: chapters,
        downloaded_chapters: chapters,
        last_updated: now,
    }
}

/// The record of a manually downloaded manga.
pub fn manual_record(
    folder: &Option<String>,
    title: String,
    cover: Option<String>,
    local_path: &str,
    chapters: i32,
    now: &str,
) -> (r: Manga)
    ensures
        r@ == manual_record_spec(opt_view(*folder), title@, opt_view(cover), local_path@, chapters, now@),
{
    let id = match folder {
        Some(f) => join2("manual_", f.as_str()),
        None => join2("manual_", "unknown"),
    };
    Manga {
        id,
        title,
        source_id: owned("manual"),
        source_name: owned("Manual"),
        cover_path: cover,
        synopsis: None,
        status: owned("unknown"),
        rating_bits: 0,
        language: owned("Português"),
        local_path: owned(local_path),
        total_chapters: chapters,
        downloaded_chapters: chapters,
        last_updated: owned(now),
    }
}

/// The folder name, or a default.
pub open spec fn name_or(folder: Option<Seq<char>>, default: Seq<char>) -> Seq<char> {
    match folder {
        Some(f) => f,
        None => default,
    }
}

/// The folder name, or a default.
pub fn folder_name_or(folder: &Option<String>, default: &str) -> (r: String)
    ensures
        r@ == name_or(opt_view(*folder), default@),
{
    match folder {
        Some(f) => f.clone(),
        None => owned(default),
    }
}

/// The title searched for a cover of a manual download: its folder name (else
/// `Manual Download`) with underscores read as spaces.
pub fn cover_search_title(folder: &Option<String>) -> (r: String)
    ensures
        r@ == replace_char_spec(name_or(opt_view(*folder), "Manual Download"@), '_', ' '),
{
    let n = folder_name_or(folder, "Manual Download");
    string_of(&replace_char(&chars_of(n.as_str()), '_', ' '))
}

/// The cover URL that a cover search yields: the first result's cover that is present; none
/// when it is not an `http://` or `https://` URL.
pub open spec fn web_cover_spec(results: Seq<MangaView>) -> Option<Seq<char>>
    decreases results.len(),
{
    if results.len() == 0 {
        None
    } else {
        match results[0].cover_path {
            Some(c) => if has_prefix(c, "http://"@) || has_prefix(c, "https://"@) { Some(c) } else { None },
            None => web_cover_spec(results.drop_first()),
        }
    }
}

/// The cover URL that a cover search yields.
pub fn web_cover_url(results: &Vec<Manga>) -> (r: Option<String>)
    ensures
        opt_view(r) == web_cover_spec(manga_views(results@)),
{
    let ghost rv = manga_views(results@);
    let mut i: usize = 0;
    proof {
        assert(rv.skip(0) =~= rv);
    }
    while i < results.len()
        invariant
            i <= results@.len(),
            rv == manga_views(results@),
            web_cover_spec(rv) == web_cover_spec(rv.skip(i as int)),
        decreases results@.len() - i,
    {
        proof {
            assert(rv.skip(i as int).drop_first() =~= rv.skip(i + 1));
            assert(rv.skip(i as int)[0] == results@[i as int]@);
        }
        match &results[i].cover_path {
            Some(c) => {
                let cv = chars_of(c.as_str());
                if starts_with(&cv, &chars_of("http://")) || starts_with(&cv, &chars_of("https://")) {
                    return Some(c.clone());
                }
                return None;
            },
            None => {},
        }
        i = i + 1;
    }
    None
}

/// The file a cover fetched from the web is saved as: `cover_web.` and the image extension.
pub fn web_cover_file_name(url: &str) -> (r: String)
    ensures
        r@ == "cover_web."@ + image_ext_spec(url@),
{
    join2("cover_web.", image_ext_for_url(url).as_str())
}

// ---------------------------------------------------------------------------
// Covers and chapter archives in a download folder
// ---------------------------------------------------------------------------

/// A file name that is a cover at the root of a download: `cover.jpg`, `cover.png` or
/// `cover.webp`, in any case.
pub open spec fn root_cover_name(name: Seq<char>) -> bool {
    let low = lowercase_of(name);
    low == "cover.jpg"@ || low == "cover.png"@ || low == "cover.webp"@
}

/// A file name of a page image (`.jpg`, `.png`, `.webp`, and `.jpeg` when `jpeg`), in any case.
pub open spec fn page_image_name(name: Seq<char>, jpeg: bool) -> bool {
    let low = lowercase_of(name);
    has_suffix(low, ".jpg"@) || (jpeg && has_suffix(low, ".jpeg"@)) || has_suffix(low, ".png"@) || has_suffix(
        low,
        ".webp"@,
    )
}

/// The test for a root cover name.
pub open spec fn cover_pred() -> spec_fn(Seq<char>) -> bool {
    |n: Seq<char>| root_cover_name(n)
}

/// The test for a page image name.
pub open spec fn image_pred(jpeg: bool) -> spec_fn(Seq<char>) -> bool {
    |n: Seq<char>| page_image_name(n, jpeg)
}

/// The first entry whose name passes `f`, given as `(name, path)`; its path.
pub open spec fn first_named(entries: Seq<(Seq<char>, Seq<char>)>, f: spec_fn(Seq<char>) -> bool) -> Option<
    Seq<char>,
>
    decreases entries.len(),
{
    if entries.len() == 0 {
        None
    } else if f(entries[0].0) {
        Some(entries[0].1)
    } else {
        first_named(entries.drop_first(), f)
    }
}

/// The first page image in the folders, folder by folder.
pub open spec fn first_in_dirs(dirs: Seq<Seq<(Seq<char>, Seq<char>)>>, jpeg: bool) -> Option<Seq<char>>
    decreases dirs.len(),
{
    if dirs.len() == 0 {
        None
    } else {
        match first_named(dirs[0], image_pred(jpeg)) {
            Some(p) => Some(p),
            None => first_in_dirs(dirs.drop_first(), jpeg),
        }
    }
}

/// The cover of a download folder: a cover file at its root, else the first page image in
/// its folders.
pub open spec fn tree_cover_spec(root_files: Seq<(Seq<char>, Seq<char>)>, dirs: Seq<Seq<(Seq<char>, Seq<char>)>>, jpeg: bool) -> Option<
    Seq<char>,
> {
    match first_named(root_files, cover_pred()) {
        Some(p) => Some(p),
        None => first_in_dirs(dirs, jpeg),
    }
}

/// The values of `(name, path)` entries.
pub open spec fn entries_view(v: Seq<(String, String)>) -> Seq<(Seq<char>, Seq<char>)> {
    v.map_values(|e: (String, String)| (e.0@, e.1@))
}

/// Whether a lowercase name equals a literal.
fn lower_is(name: &str, lit: &str) -> (r: bool)
    ensures
        r == (lowercase_of(name@) == lit@),
{
    let low = to_lowercase(name);
    crate::text::same_chars(&chars_of(low.as_str()), &chars_of(lit))
}

/// Whether a file name is a cover at the root of a download.
pub fn is_root_cover_name(name: &str) -> (r: bool)
    ensures
        r == root_cover_name(name@),
{
    lower_is(name, "cover.jpg") || lower_is(name, "cover.png") || lower_is(name, "cover.webp")
}

/// Whether a file name is that of a page image.
pub fn is_page_image_name(name: &str, jpeg: bool) -> (r: bool)
    ensures
        r == page_image_name(name@, jpeg),
{
    let low = chars_of(to_lowercase(name).as_str());
    ends_with(&low, &chars_of(".jpg")) || (jpeg && ends_with(&low, &chars_of(".jpeg"))) || ends_with(
        &low,
        &chars_of(".png"),
    ) || ends_with(&low, &chars_of(".webp"))
}

/// The path of the first entry whose name is a root cover (when `cover`) or a page image.
fn first_named_of(entries: &Vec<(String, String)>, cover: bool, jpeg: bool) -> (r: Option<String>)
    ensures
        opt_view(r) == first_named(
            entries_view(entries@),
            if cover { cover_pred() } else { image_pred(jpeg) },
        ),
{
    let ghost f = if cover { cover_pred() } else { image_pred(jpeg) };
    let ghost ev = entries_view(entries@);
    let mut i: usize = 0;
    proof {
        assert(ev.skip(0) =~= ev);
    }
    while i < entries.len()
        invariant
            i <= entries@.len(),
            ev == entries_view(entries@),
            f == (if cover { cover_pred() } else { image_pred(jpeg) }),
            first_named(ev, f) == first_named(ev.skip(i as int), f),
        decreases entries@.len() - i,
    {
        proof {
            assert(ev.skip(i as int).drop_first() =~= ev.skip(i + 1));
            assert(ev.skip(i as int)[0] == (entries@[i as int].0@, entries@[i as int].1@));
        }
        let hit = if cover {
            is_root_cover_name(entries[i].0.as_str())
        } else {
            is_page_image_name(entries[i].0.as_str(), jpeg)
        };
        if hit {
            return Some(entries[i].1.clone());
        }
        i = i + 1;
    }
    None
}

/// The cover of a download folder, from the `(name, path)` files at its root and in each of
/// its folders.
pub fn tree_cover(root_files: &Vec<(String, String)>, dirs: &Vec<Vec<(String, String)>>, jpeg: bool) -> (r: Option<
    String,
>)
    ensures
        opt_view(r) == tree_cover_spec(
            entries_view(root_files@),
            dirs@.map_values(|d: Vec<(String, String)>| entries_view(d@)),
            jpeg,
        ),
{
    match first_named_of(root_files, true, false) {
        Some(p) => {
            return Some(p);
        },
        None => {},
    }
    let ghost dv = dirs@.map_values(|d: Vec<(String, String)>| entries_view(d@));
    let mut i: usize = 0;
    proof {
        assert(dv.skip(0) =~= dv);
    }
    while i < dirs.len()
        invariant
            i <= dirs@.len(),
            dv == dirs@.map_values(|d: Vec<(String, String)>| entries_view(d@)),
            first_named(entries_view(root_files@), cover_pred()) is None,
            first_in_dirs(dv, jpeg) == first_in_dirs(dv.skip(i as int), jpeg),
        decreases dirs@.len() - i,
    {
        proof {
            assert(dv.skip(i as int).drop_first() =~= dv.skip(i + 1));
            assert(dv.skip(i as int)[0] == entries_view(dirs@[i as int]@));
        }
        match first_named_of(&dirs[i], false, jpeg) {
            Some(p) => {
                return Some(p);
            },
            None => {},
        }
        i = i + 1;
    }
    None
}

/// A file name of a chapter archive: it ends with `.cbz`, in any case.
pub open spec fn cbz_name(name: Seq<char>) -> bool {
    has_suffix(lowercase_of(name), ".cbz"@)
}

/// The number of chapter-archive names in a list.
pub open spec fn cbz_count(names: Seq<Seq<char>>) -> nat
    decreases names.len(),
{
    if names.len() == 0 {
        0
    } else {
        cbz_count(names.drop_last()) + if cbz_name(names.last()) { 1nat } else { 0nat }
    }
}

/// A chapter-archive count is at most the number of names.
pub proof fn lemma_cbz_count_bound(names: Seq<Seq<char>>)
    ensures
        cbz_count(names) <= names.len(),
    decreases names.len(),
{
    if names.len() > 0 {
        lemma_cbz_count_bound(names.drop_last());
    }
}

/// Whether a file name is that of a chapter archive.
pub fn is_cbz_name(name: &str) -> (r: bool)
    ensures
        r == cbz_name(name@),
{
    ends_with(&chars_of(to_lowercase(name).as_str()), &chars_of(".cbz"))
}

/// Whether a folder name is `chapters`, ignoring ASCII case.
pub fn is_chapters_dir_name(name: &str) -> (r: bool)
    ensures
        r == (crate::text::ascii_lower_seq(name@) == "chapters"@),
{
    let low = crate::text::lower_ascii(&chars_of(name));
    crate::text::same_chars(&low, &chars_of("chapters"))
}

/// The chapter archives in the first `k` folders.
pub open spec fn chapter_dir_archives(dirs: Seq<Seq<Seq<char>>>, k: int) -> nat
    decreases k,
{
    if k <= 0 { 0 } else { chapter_dir_archives(dirs, k - 1) + cbz_count(dirs[k - 1]) }
}

/// The number of names in the first `k` folders.
pub open spec fn names_in_dirs(dirs: Seq<Seq<Seq<char>>>, k: int) -> nat
    decreases k,
{
    if k <= 0 { 0 } else { names_in_dirs(dirs, k - 1) + dirs[k - 1].len() }
}

/// The number of chapter-archive names in a list.
fn count_in(names: &Vec<String>) -> (r: usize)
    ensures
        r == cbz_count(string_views(names@)),
{
    let ghost nv = string_views(names@);
    let mut n: usize = 0;
    let mut i: usize = 0;
    proof {
        assert(nv.take(0) =~= Seq::<Seq<char>>::empty());
    }
    while i < names.len()
        invariant
            i <= names@.len(),
            nv == string_views(names@),
            n == cbz_count(nv.take(i as int)),
            n <= i,
        decreases names@.len() - i,
    {
        proof {
            assert(nv.take(i + 1).drop_last() =~= nv.take(i as int));
            assert(nv.take(i + 1).last() == names@[i as int]@);
        }
        if is_cbz_name(names[i].as_str()) {
            n = n + 1;
        }
        i = i + 1;
    }
    proof {
        assert(nv.take(names@.len() as int) =~= nv);
    }
    n
}

/// The chapter archives of a download folder: the archive files at its root plus those in
/// its `chapters` folders, given the file names at the root and in those folders.
pub fn count_chapter_archives(root_files: &Vec<String>, chapter_dirs: &Vec<Vec<String>>) -> (r: i32)
    requires
        root_files@.len() + names_in_dirs(
            chapter_dirs@.map_values(|d: Vec<String>| string_views(d@)),
            chapter_dirs@.len() as int,
        ) <= i32::MAX,
    ensures
        r as int == cbz_count(string_views(root_files@)) + chapter_dir_archives(
            chapter_dirs@.map_values(|d: Vec<String>| string_views(d@)),
            chapter_dirs@.len() as int,
        ),
{
    let ghost dv = chapter_dirs@.map_values(|d: Vec<String>| string_views(d@));
    let mut total: usize = count_in(root_files);
    proof {
        lemma_cbz_count_bound(string_views(root_files@));
    }
    let mut i: usize = 0;
    while i < chapter_dirs.len()
        invariant
            i <= chapter_dirs@.len(),
            dv == chapter_dirs@.map_values(|d: Vec<String>| string_views(d@)),
            root_files@.len() + names_in_dirs(dv, chapter_dirs@.len() as int) <= i32::MAX,
            total as int == cbz_count(string_views(root_files@)) + chapter_dir_archives(dv, i as int),
            total <= root_files@.len() + names_in_dirs(dv, i as int),
        decreases chapter_dirs@.len() - i,
    {
        proof {
            assert(dv[i as int] == string_views(chapter_dirs@[i as int]@));
            lemma_names_in_dirs_grow(dv, i + 1, chapter_dirs@.len() as int);
            lemma_cbz_count_bound(dv[i as int]);
        }
        let c = count_in(&chapter_dirs[i]);
        total = total + c;
        i = i + 1;
    }
    total as i32
}

/// More folders hold at least as many names.
pub proof fn lemma_names_in_dirs_grow(dirs: Seq<Seq<Seq<char>>>, k: int, j: int)
    requires
        0 <= k <= j,
    ensures
        names_in_dirs(dirs, k) <= names_in_dirs(dirs, j),
    decreases j - k,
{
    if j > k {
        lemma_names_in_dirs_grow(dirs, k, j - 1);
    }
}

} // verus!
