use vstd::prelude::*;
use crate::cards::{
    AnchorRules, ListPage, ListPageView, NodeV, RulesView, ScrapeError, ScrapeErrorView, anchors_fold, capture_pairs,
    card_count, card_pairs, collect_capture_pairs, collect_card_pairs, fold_anchors, fold_list_items, has_id, ids_of,
    items_fold, list_count, mangas_result_view, pairs_view, query_key,
};
use crate::download::{looks_blocked, text_looks_like_block_page};
use crate::library::{Manga, MangaView, manga_views, web_manga, web_manga_spec};
use crate::registry::opt_view;
use crate::scrape::{
    Node, WebScraper, absolute_spec, background_image_url_checked, background_slice_ok, background_url_spec, byte_len,
    byte_offset, captures_view, css_selector_valid, html_select_within, image_key_list, image_keys, key_views,
    mangalivre_base, niadd_base, node_lists_view, nodes_or_empty, nodes_view, percent_encoded, regex_captures,
    regex_groups, sel_nodes, select_within, selector_is_valid, url_encode,
};
use crate::text::{
    CharClass, chars_of, class_pred, contains, contains_text, decimal, decimal_string, has_prefix, join2, lowercase_of,
    one_of, owned, parse_decimal, parse_unsigned, same_chars, slice_vec, starts_with, string_of, strip_both,
    strip_range, to_lowercase, trim_range, trim_spec,
};

verus! {

// ---------------------------------------------------------------------------
// Selections
// ---------------------------------------------------------------------------


/// The elements below each outer match; none when a selector does not parse.
pub open spec fn sel_within(html: Seq<char>, outer: Seq<char>, inner: Seq<char>, keys: Seq<Seq<char>>) -> Seq<
    Seq<NodeV>,
> {
    match html_select_within(html, outer, inner, keys) {
        Some(v) => v,
        None => Seq::empty(),
    }
}

/// The two capture groups of each match of a pattern; none when it does not compile.
pub open spec fn sel_captures(pattern: Seq<char>, html: Seq<char>) -> Seq<Seq<Option<Seq<char>>>> {
    match regex_groups(pattern, html, seq![1usize, 2usize]) {
        Some(c) => c,
        None => Seq::empty(),
    }
}


/// The elements below each outer match.
fn within_or_empty(html: &str, outer: &str, inner: &str, keys: &Vec<String>) -> (r: Vec<Vec<Node>>)
    ensures
        node_lists_view(r@) == sel_within(html@, outer@, inner@, key_views(keys@)),
{
    match select_within(html, outer, inner, keys) {
        Some(v) => v,
        None => {
            let v: Vec<Vec<Node>> = Vec::new();
            proof {
                assert(node_lists_view(v@) =~= Seq::<Seq<NodeV>>::empty());
            }
            v
        },
    }
}

/// The two capture groups of each match.
fn captures_or_empty(pattern: &str, html: &str) -> (r: Vec<Vec<Option<String>>>)
    ensures
        captures_view(r@) == sel_captures(pattern@, html@),
{
    let groups: Vec<usize> = vec![1, 2];
    proof {
        assert(groups@ =~= seq![1usize, 2usize]);
    }
    match regex_captures(pattern, html, &groups) {
        Some(v) => v,
        None => {
            let v: Vec<Vec<Option<String>>> = Vec::new();
            proof {
                assert(captures_view(v@) =~= Seq::<Seq<Option<Seq<char>>>>::empty());
            }
            v
        },
    }
}

/// No attribute names.
fn no_keys() -> (r: Vec<String>)
    ensures
        key_views(r@) == Seq::<Seq<char>>::empty(),
{
    let r: Vec<String> = Vec::new();
    proof {
        assert(key_views(r@) =~= Seq::<Seq<char>>::empty());
    }
    r
}

/// One attribute name.
fn one_key(a: &str) -> (r: Vec<String>)
    ensures
        key_views(r@) == seq![a@],
{
    let r = vec![owned(a)];
    proof {
        assert(key_views(r@) =~= seq![a@]);
    }
    r
}

/// Two attribute names.
fn two_keys(a: &str, b: &str) -> (r: Vec<String>)
    ensures
        key_views(r@) == seq![a@, b@],
{
    let r = vec![owned(a), owned(b)];
    proof {
        assert(key_views(r@) =~= seq![a@, b@]);
    }
    r
}

/// The index of the first selector from `i` on that does not parse.
pub open spec fn first_invalid(sels: Seq<Seq<char>>, i: int) -> Option<int>
    decreases sels.len() - i,
{
    if i < 0 || i >= sels.len() {
        None
    } else if !css_selector_valid(sels[i]) {
        Some(i)
    } else {
        first_invalid(sels, i + 1)
    }
}

/// The index of the first selector that does not parse.
fn first_invalid_selector(sels: &Vec<String>) -> (r: Option<usize>)
    ensures
        match r {
            Some(i) => first_invalid(key_views(sels@), 0) == Some(i as int) && i < sels@.len(),
            None => first_invalid(key_views(sels@), 0) is None,
        },
{
    let ghost kv = key_views(sels@);
    let mut i: usize = 0;
    while i < sels.len()
        invariant
            i <= sels@.len(),
            kv == key_views(sels@),
            first_invalid(kv, 0) == first_invalid(kv, i as int),
        decreases sels@.len() - i,
    {
        if !selector_is_valid(sels[i].as_str()) {
            return Some(i);
        }
        i = i + 1;
    }
    None
}

/// The trimmed, lowercased query.
fn query_chars(query: &str) -> (r: Vec<char>)
    ensures
        r@ == query_key(query@),
{
    let v = chars_of(query);
    let (a, b) = crate::text::trim_range(&v, 0, v.len());
    proof {
        assert(v@.subrange(0, v@.len() as int) =~= v@);
    }
    let t = crate::text::string_of(&crate::text::slice_vec(&v, a, b));
    chars_of(to_lowercase(t.as_str()).as_str())
}

// ---------------------------------------------------------------------------
// MangaLivre result pages
// ---------------------------------------------------------------------------

/// The selectors of a MangaLivre page: cards, series-list entries, heading anchors, other
/// manga anchors, entry titles, entry anchors, entry covers, descriptions, chapter counts.
pub open spec fn mangalivre_selectors() -> Seq<Seq<char>> {
    seq![
        "li, article, .page-item-detail, .c-tabs-item, .row.c-tabs-item"@,
        "ul.seriesList > li"@,
        "h2 a[href*='/manga/'], h3 a[href*='/manga/'], .post-title a, .entry-title a, .page-item-detail a"@,
        "a[href*='/manga/'], a[title][href]"@,
        "span.series-title, h2, h3"@,
        "a[href]"@,
        ".cover-image, .series-cover, img[data-src], img[src], source[srcset]"@,
        ".series-desc"@,
        "span.series-chapters"@,
    ]
}

/// The error reported for each MangaLivre selector that does not parse.
pub open spec fn mangalivre_selector_errors() -> Seq<Seq<char>> {
    seq![
        "failed to parse MangaLivre card selector"@,
        "failed to parse MangaLivre series list selector"@,
        "failed to parse MangaLivre title selector"@,
        "failed to parse MangaLivre anchor selector"@,
        "failed to parse MangaLivre item title selector"@,
        "failed to parse MangaLivre item anchor selector"@,
        "failed to parse MangaLivre item cover selector"@,
        "failed to parse MangaLivre item description selector"@,
        "failed to parse MangaLivre item chapters selector"@,
    ]
}

/// The pattern that pairs a manga link with the first image after it in raw markup.
pub open spec fn mangalivre_cover_pattern() -> Seq<char> {
    r#"(?is)<a[^>]*href=[\"'](?P<href>[^\"']*/manga/[^\"']*)[\"'][^>]*>.*?<img[^>]+(?:data-src|src)=[\"'](?P<cover>[^\"']+)[\"']"#@
}

/// What was selected below each entry of the series list of a MangaLivre page.
pub open spec fn mangalivre_list(html: Seq<char>) -> ListPageView {
    let s = mangalivre_selectors();
    ListPageView {
        anchors: sel_within(html, s[1], s[5], seq!["href"@, "title"@]),
        titles: sel_within(html, s[1], s[4], Seq::empty()),
        covers: sel_within(html, s[1], s[6], image_keys()),
        own: sel_nodes(html, s[1], seq!["style"@]),
        descs: sel_within(html, s[1], s[7], Seq::empty()),
        chapters: sel_within(html, s[1], s[8], Seq::empty()),
    }
}

/// The covers by link of a MangaLivre page: those of its cards, then those that the raw
/// markup pattern finds; `Err` when slicing a style would panic.
pub open spec fn mangalivre_pairs(html: Seq<char>) -> Result<Seq<(Seq<char>, Seq<char>)>, ()> {
    let s = mangalivre_selectors();
    let base = mangalivre_base();
    let anchors = sel_within(html, s[0], s[5], seq!["href"@]);
    let covers = sel_within(html, s[0], s[6], image_keys());
    let own = sel_nodes(html, s[0], seq!["style"@]);
    match card_pairs(base, anchors, covers, own, card_count(anchors, covers, own)) {
        Err(_) => Err(()),
        Ok(ps) => {
            let caps = sel_captures(mangalivre_cover_pattern(), html);
            Ok(ps + capture_pairs(base, caps, caps.len() as int))
        },
    }
}

/// The rules for reading MangaLivre results from anchors.
pub open spec fn mangalivre_rules(
    q: Seq<char>,
    pairs: Seq<(Seq<char>, Seq<char>)>,
    now: Seq<char>,
    title_attr: bool,
) -> RulesView {
    RulesView {
        base: mangalivre_base(),
        skip: "/capitulo-"@,
        title_attr,
        source_id: "mangalivre"@,
        source_name: "Manga Livre"@,
        query: q,
        pairs,
        now,
    }
}

/// The results of a MangaLivre page once its covers are known: the series-list entries;
/// when there are none, the heading anchors; when there are none either, every manga anchor.
pub open spec fn mangalivre_results(
    html: Seq<char>,
    q: Seq<char>,
    pairs: Seq<(Seq<char>, Seq<char>)>,
    now: Seq<char>,
) -> Result<Seq<MangaView>, ScrapeErrorView> {
    let s = mangalivre_selectors();
    let page = mangalivre_list(html);
    match items_fold(q, pairs, now, Seq::empty(), page, list_count(page)) {
        Err(e) => Err(e),
        Ok(listed) => if listed.len() > 0 {
            Ok(listed)
        } else {
            let heads = sel_nodes(html, s[2], seq!["href"@]);
            match anchors_fold(mangalivre_rules(q, pairs, now, false), listed, heads, heads.len() as int) {
                Err(e) => Err(e),
                Ok(found) => if found.len() > 0 {
                    Ok(found)
                } else {
                    let generic = sel_nodes(html, s[3], seq!["href"@, "title"@]);
                    anchors_fold(mangalivre_rules(q, pairs, now, true), found, generic, generic.len() as int)
                },
            }
        },
    }
}

/// The search results on a MangaLivre page for a query, each stamped `now`.
pub open spec fn mangalivre_cards_spec(html: Seq<char>, query: Seq<char>, now: Seq<char>) -> Result<
    Seq<MangaView>,
    ScrapeErrorView,
> {
    match first_invalid(mangalivre_selectors(), 0) {
        Some(i) => Err(ScrapeErrorView::Selector(mangalivre_selector_errors()[i])),
        None => match mangalivre_pairs(html) {
            Err(_) => Err(ScrapeErrorView::Aborted),
            Ok(pairs) => mangalivre_results(html, query_key(query), pairs, now),
        },
    }
}

// ---------------------------------------------------------------------------
// Niadd result pages
// ---------------------------------------------------------------------------

/// The selectors of a Niadd page: manga anchors, cards, card anchors, card covers.
pub open spec fn niadd_selectors() -> Seq<Seq<char>> {
    seq![
        "a[href*='/manga/']"@,
        "li, article, .book-item, .manga-item, .list-item, .media"@,
        "a[href]"@,
        "img[data-src], img[src], source[srcset], [style]"@,
    ]
}

/// The error reported for each Niadd selector that does not parse.
pub open spec fn niadd_selector_errors() -> Seq<Seq<char>> {
    seq![
        "failed to parse Niadd anchor selector"@,
        "failed to parse Niadd card selector"@,
        "failed to parse Niadd card anchor selector"@,
        "failed to parse Niadd card cover selector"@,
    ]
}

/// The pattern that pairs a Niadd manga link with the image of its `manga-img` block.
pub open spec fn niadd_cover_pattern() -> Seq<char> {
    r#"(?is)<a[^>]*href=[\"'](?P<href>(?:https?://br\.niadd\.com)?/manga/[^\"']+|https?://br\.niadd\.com/manga/[^\"']+)[\"'][^>]*>\s*<div[^>]*class=[\"'][^\"']*manga-img[^\"']*[\"'][^>]*>\s*<img[^>]+(?:data-src|src)=[\"'](?P<cover>[^\"']+)[\"']"#@
}

/// The covers by link of a Niadd page: those the raw markup pattern finds, then those of
/// its cards; `Err` when slicing a style would panic.
pub open spec fn niadd_pairs(html: Seq<char>) -> Result<Seq<(Seq<char>, Seq<char>)>, ()> {
    let s = niadd_selectors();
    let base = niadd_base();
    let caps = sel_captures(niadd_cover_pattern(), html);
    let anchors = sel_within(html, s[1], s[2], seq!["href"@]);
    let covers = sel_within(html, s[1], s[3], image_keys());
    let own = sel_nodes(html, s[1], seq!["style"@]);
    match card_pairs(base, anchors, covers, own, card_count(anchors, covers, own)) {
        Err(_) => Err(()),
        Ok(ps) => Ok(capture_pairs(base, caps, caps.len() as int) + ps),
    }
}

/// The rules for reading Niadd results from anchors.
pub open spec fn niadd_rules(q: Seq<char>, pairs: Seq<(Seq<char>, Seq<char>)>, now: Seq<char>) -> RulesView {
    RulesView {
        base: niadd_base(),
        skip: "/manga/.html"@,
        title_attr: true,
        source_id: "niadd"@,
        source_name: "Niadd"@,
        query: q,
        pairs,
        now,
    }
}

/// The search results on a Niadd page for a query, each stamped `now`.
pub open spec fn niadd_cards_spec(html: Seq<char>, query: Seq<char>, now: Seq<char>) -> Result<
    Seq<MangaView>,
    ScrapeErrorView,
> {
    match first_invalid(niadd_selectors(), 0) {
        Some(i) => Err(ScrapeErrorView::Selector(niadd_selector_errors()[i])),
        None => match niadd_pairs(html) {
            Err(_) => Err(ScrapeErrorView::Aborted),
            Ok(pairs) => {
                let anchors = sel_nodes(html, niadd_selectors()[0], seq!["href"@, "title"@]);
                anchors_fold(niadd_rules(query_key(query), pairs, now), Seq::empty(), anchors, anchors.len() as int)
            },
        },
    }
}

/// Calls `chrono::Local::now` and `DateTime::to_rfc3339`: the local time, as the stamp
/// given to new records. Nothing is claimed of it.
#[verifier::external_body]
pub(crate) fn local_timestamp() -> (r: String) {
    chrono::Local::now().to_rfc3339()
}

// ---------------------------------------------------------------------------
// Pagination, search addresses and outcomes
// ---------------------------------------------------------------------------

/// The pattern of page links (`/manga/page/44/`, `/page/44/?s=...`).
pub open spec fn page_link_pattern() -> Seq<char> {
    r"/page/(\d+)/"@
}

/// The largest page number among the first `k` page links, at least 1; links whose number
/// does not parse as a `u32` are ignored.
pub open spec fn max_page_number(caps: Seq<Seq<Option<Seq<char>>>>, k: int) -> nat
    decreases k,
{
    if k <= 0 {
        1
    } else {
        let prev = max_page_number(caps, k - 1);
        let g = caps[k - 1];
        if g.len() > 0 && g[0] is Some {
            match parse_unsigned(g[0]->0, u32::MAX as nat) {
                Some(v) => if v > prev { v } else { prev },
                None => prev,
            }
        } else {
            prev
        }
    }
}

/// The number of result pages that a page links to.
pub open spec fn total_pages_spec(html: Seq<char>) -> nat {
    let caps = match regex_groups(page_link_pattern(), html, seq![1usize]) {
        Some(c) => c,
        None => Seq::empty(),
    };
    max_page_number(caps, caps.len() as int)
}

/// The page asked for, at least 1.
pub open spec fn effective_page(page: u32) -> u32 {
    if page < 1 { 1 } else { page }
}

/// The MangaLivre address on `host` for a query (trimmed, then percent-encoded) and page.
pub open spec fn mangalivre_search_url(host: Seq<char>, query: Seq<char>, page: u32) -> Seq<char> {
    let t = trim_spec(query);
    let p = decimal(page as nat);
    if t.len() == 0 {
        if page == 1 { host } else { host + "page/"@ + p + "/"@ }
    } else if page == 1 {
        host + "?s="@ + percent_encoded(t) + "&post_type=wp-manga"@
    } else {
        host + "page/"@ + p + "/?s="@ + percent_encoded(t) + "&post_type=wp-manga"@
    }
}

/// The MangaLivre addresses tried, in order, for a query and page.
pub open spec fn mangalivre_search_urls_spec(query: Seq<char>, page: u32) -> Seq<Seq<char>> {
    seq![
        mangalivre_search_url("https://mangalivre.tv/"@, query, effective_page(page)),
        mangalivre_search_url("https://mangalivre.to/"@, query, effective_page(page)),
    ]
}

/// The Niadd addresses tried, in order, for a query: the hot and updated lists and the
/// home page for an empty query, the two search forms otherwise.
pub open spec fn niadd_search_urls_spec(query: Seq<char>) -> Seq<Seq<char>> {
    let t = trim_spec(query);
    if t.len() == 0 {
        seq!["https://br.niadd.com/list/Hot-Manga/"@, "https://br.niadd.com/list/New-Update/"@, "https://br.niadd.com/"@]
    } else {
        seq![
            "https://br.niadd.com/search/?search_type=1&name="@ + percent_encoded(t),
            "https://br.niadd.com/search/?name="@ + percent_encoded(t),
        ]
    }
}

/// What one fetched MangaLivre page decides.
pub enum PageOutcome {
    /// Go on with the next address; the message says why.
    Skip(String),
    /// The results and the number of result pages.
    Found(Vec<Manga>, u32),
    /// The page could not be read.
    Failed(ScrapeError),
}

/// The value of a page outcome.
pub enum PageOutcomeView {
    Skip(Seq<char>),
    Found(Seq<MangaView>, nat),
    Failed(ScrapeErrorView),
}

impl View for PageOutcome {
    type V = PageOutcomeView;

    open spec fn view(&self) -> PageOutcomeView {
        match self {
            PageOutcome::Skip(m) => PageOutcomeView::Skip(m@),
            PageOutcome::Found(v, n) => PageOutcomeView::Found(manga_views(v@), *n as nat),
            PageOutcome::Failed(e) => PageOutcomeView::Failed(e@),
        }
    }
}

/// What a fetched MangaLivre page at `url` decides: skip a block page; fail when it cannot
/// be read; give its results, with the larger of the linked page count and the page asked
/// for, when there are any; skip it otherwise.
pub open spec fn mangalivre_page_spec(url: Seq<char>, html: Seq<char>, query: Seq<char>, page: u32, now: Seq<char>) -> PageOutcomeView {
    if looks_blocked(html) {
        PageOutcomeView::Skip("blocked by anti-bot at "@ + url)
    } else {
        match mangalivre_cards_spec(html, query, now) {
            Err(e) => PageOutcomeView::Failed(e),
            Ok(items) => if items.len() > 0 {
                let t = total_pages_spec(html);
                PageOutcomeView::Found(items, if t >= effective_page(page) { t } else { effective_page(page) as nat })
            } else {
                PageOutcomeView::Skip("parsed 0 items for "@ + url)
            },
        }
    }
}

/// The message of a MangaLivre search in which no address gave results.
pub open spec fn mangalivre_failure_spec(last: Option<Seq<char>>) -> Seq<char> {
    "MangaLivre scraping failed: "@ + match last {
        Some(e) => e,
        None => "unknown error"@,
    }
}

/// The results merged so far, with one more result: kept unless its id is already listed.
pub open spec fn merge_step(out: Seq<MangaView>, m: MangaView) -> Seq<MangaView> {
    if ids_of(out).contains(m.id) { out } else { out.push(m) }
}

/// The results merged so far after the first `k` items of a page.
pub open spec fn merge_items(out: Seq<MangaView>, items: Seq<MangaView>, k: int) -> Seq<MangaView>
    decreases k,
{
    if k <= 0 {
        out
    } else {
        merge_step(merge_items(out, items, k - 1), items[k - 1])
    }
}

/// The results of the first `k` pages merged, first seen first.
pub open spec fn merge_pages(pages: Seq<Seq<MangaView>>, k: int) -> Seq<MangaView>
    decreases k,
{
    if k <= 0 {
        Seq::empty()
    } else {
        let prev = merge_pages(pages, k - 1);
        merge_items(prev, pages[k - 1], pages[k - 1].len() as int)
    }
}

/// The first `n` items of a list, or all of them.
pub open spec fn first_n<T>(s: Seq<T>, n: nat) -> Seq<T> {
    if s.len() <= n { s } else { s.take(n as int) }
}

/// No two results share an id.
pub open spec fn unique_ids(s: Seq<MangaView>) -> bool {
    forall|i: int, j: int| 0 <= i < j < s.len() ==> s[i].id != s[j].id
}

// ---------------------------------------------------------------------------
// MangaLivre details pages
// ---------------------------------------------------------------------------

/// The address of a MangaLivre manga: ids that are already URLs are kept, others are slugs
/// (without surrounding slashes) below `https://mangalivre.tv/manga/`.
pub open spec fn details_url_spec(manga_id: Seq<char>) -> Seq<char> {
    if has_prefix(manga_id, "http://"@) || has_prefix(manga_id, "https://"@) {
        manga_id
    } else {
        "https://mangalivre.tv/manga/"@ + strip_both(manga_id, one_of(seq!['/'])) + "/"@
    }
}

/// The selectors of a details page: title, chapter links, cover, synopsis.
pub open spec fn details_selectors() -> Seq<Seq<char>> {
    seq![
        "h1, h2"@,
        "a[href*='/capitulo-']"@,
        ".cover-image, .series-cover, .manga-image picture img, .series-thumb img, img[src]"@,
        ".summary__content, .description-summary, p"@,
    ]
}

/// The title of a details page: the first heading's text, trimmed; `Manga` when that is
/// missing or empty.
pub open spec fn details_title(heads: Seq<NodeV>) -> Seq<char> {
    if heads.len() > 0 && trim_spec(heads[0].0).len() > 0 { trim_spec(heads[0].0) } else { "Manga"@ }
}

/// The raw cover of a details page: the first cover element's `data-src`, else `src`, else
/// `style`.
pub open spec fn details_raw_cover(covers: Seq<NodeV>) -> Option<Seq<char>> {
    if covers.len() > 0 && covers[0].1.len() >= 3 {
        let a = covers[0].1;
        if a[0] is Some { a[0] } else if a[1] is Some { a[1] } else { a[2] }
    } else {
        None
    }
}

/// The cover of a details page: the raw cover (the URL inside `url(...)` when it has one)
/// made absolute; none when any step fails; `Err` when slicing a style would panic.
pub open spec fn details_cover(covers: Seq<NodeV>) -> Result<Option<Seq<char>>, ()> {
    match details_raw_cover(covers) {
        None => Ok(None),
        Some(raw) => {
            if contains_text(raw, "url("@) && !background_slice_ok(raw) {
                Err(())
            } else {
                let u = if contains_text(raw, "url("@) { background_url_spec(raw) } else { Some(raw) };
                match u {
                    None => Ok(None),
                    Some(x) => match absolute_spec(mangalivre_base(), x) {
                        Ok(a) => Ok(Some(a)),
                        Err(_) => Ok(None),
                    },
                }
            }
        },
    }
}

/// The synopsis of a details page: the first matching element's text, trimmed, when it
/// takes more than 20 bytes.
pub open spec fn details_synopsis(nodes: Seq<NodeV>) -> Option<Seq<char>> {
    if nodes.len() > 0 && byte_len(trim_spec(nodes[0].0)) > 20 { Some(trim_spec(nodes[0].0)) } else { None }
}

/// The record that the details page at `url` gives, stamped `now`.
pub open spec fn details_spec(url: Seq<char>, html: Seq<char>, now: Seq<char>) -> Result<MangaView, ScrapeErrorView> {
    let s = details_selectors();
    if looks_blocked(html) {
        Err(ScrapeErrorView::Blocked("MangaLivre blocked the details request (Cloudflare/anti-bot)"@))
    } else {
        let title = details_title(sel_nodes(html, s[0], Seq::empty()));
        if contains_text(lowercase_of(title), "sorry, you have been blocked"@) {
            Err(ScrapeErrorView::Blocked("MangaLivre blocked the details page (title indicates anti-bot block)"@))
        } else {
            match details_cover(sel_nodes(html, s[2], seq!["data-src"@, "src"@, "style"@])) {
                Err(_) => Err(ScrapeErrorView::Aborted),
                Ok(cover) => Ok(web_manga_spec(url, title, "mangalivre"@, "Manga Livre"@, cover,
                    details_synopsis(sel_nodes(html, s[3], Seq::empty())),
                    sel_nodes(html, s[1], Seq::empty()).len() as i32, now)),
            }
        }
    }
}

/// The first result with the given id.
pub open spec fn find_id(list: Seq<MangaView>, id: Seq<char>) -> Option<MangaView>
    decreases list.len(),
{
    if list.len() == 0 {
        None
    } else if list[0].id == id {
        Some(list[0])
    } else {
        find_id(list.drop_first(), id)
    }
}

/// Three attribute names.
fn three_keys(a: &str, b: &str, c: &str) -> (r: Vec<String>)
    ensures
        key_views(r@) == seq![a@, b@, c@],
{
    let r = vec![owned(a), owned(b), owned(c)];
    proof {
        assert(key_views(r@) =~= seq![a@, b@, c@]);
    }
    r
}

/// The trimmed text of `s`, as a string.
pub fn trimmed_text(s: &str) -> (r: String)
    ensures
        r@ == trim_spec(s@),
{
    let v = chars_of(s);
    let (a, b) = trim_range(&v, 0, v.len());
    proof {
        assert(v@.subrange(0, v@.len() as int) =~= v@);
    }
    string_of(&slice_vec(&v, a, b))
}

/// Results merged page by page never list an id twice.
pub proof fn lemma_merge_pages_unique(pages: Seq<Seq<MangaView>>, k: int)
    ensures
        unique_ids(merge_pages(pages, k)),
    decreases k,
{
    if k > 0 {
        lemma_merge_pages_unique(pages, k - 1);
        lemma_merge_items_unique(merge_pages(pages, k - 1), pages[k - 1], pages[k - 1].len() as int);
    }
}

/// Merging items into results without repeated ids keeps them without repeated ids.
pub proof fn lemma_merge_items_unique(out: Seq<MangaView>, items: Seq<MangaView>, k: int)
    requires
        unique_ids(out),
    ensures
        unique_ids(merge_items(out, items, k)),
    decreases k,
{
    if k > 0 {
        lemma_merge_items_unique(out, items, k - 1);
        let prev = merge_items(out, items, k - 1);
        let m = items[k - 1];
        if !ids_of(prev).contains(m.id) {
            let next = prev.push(m);
            assert forall|i: int, j: int| 0 <= i < j < next.len() implies next[i].id != next[j].id by {
                if j == prev.len() {
                    assert(ids_of(prev)[i] == prev[i].id);
                }
            }
        }
    }
}

/// A list of strings made from a list of literals.
fn strings_from(v: &Vec<&str>) -> (r: Vec<String>)
    ensures
        key_views(r@) == v@.map_values(|s: &str| s@),
{
    let mut r: Vec<String> = Vec::new();
    let mut i: usize = 0;
    while i < v.len()
        invariant
            i <= v@.len(),
            key_views(r@) == v@.take(i as int).map_values(|s: &str| s@),
        decreases v@.len() - i,
    {
        let ghost before = r@;
        let x = owned(v[i]);
        r.push(x);
        proof {
            assert(r@ == before.push(x));
            assert(key_views(r@) =~= key_views(before).push(x@));
            assert(v@.take(i + 1) == v@.take(i as int).push(v@[i as int]));
            assert(v@.take(i + 1).map_values(|s: &str| s@) =~= v@.take(i as int).map_values(|s: &str| s@).push(
                v@[i as int]@,
            ));
        }
        i = i + 1;
    }
    proof {
        assert(v@.take(v@.len() as int) == v@);
    }
    r
}

/// The selectors held in a list, one by one.
proof fn lemma_selectors_held(sels: Seq<String>, expected: Seq<Seq<char>>)
    requires
        key_views(sels) == expected,
    ensures
        sels.len() == expected.len(),
        forall|j: int| 0 <= j < sels.len() ==> (#[trigger] sels[j])@ == expected[j],
{
    assert forall|j: int| 0 <= j < sels.len() implies (#[trigger] sels[j])@ == expected[j] by {
        assert(key_views(sels)[j] == sels[j]@);
    }
}

impl WebScraper {
    /// The covers by link of a MangaLivre page.
    fn mangalivre_cover_pairs(html: &str, sels: &Vec<String>) -> (r: Result<Vec<(String, String)>, ()>)
        requires
            key_views(sels@) == mangalivre_selectors(),
        ensures
            match r {
                Ok(v) => mangalivre_pairs(html@) == Ok::<Seq<(Seq<char>, Seq<char>)>, ()>(pairs_view(v@)),
                Err(_) => mangalivre_pairs(html@) is Err,
            },
    {
        proof {
            lemma_selectors_held(sels@, mangalivre_selectors());
        }
        let anchors = within_or_empty(html, sels[0].as_str(), sels[5].as_str(), &one_key("href"));
        let covers = within_or_empty(html, sels[0].as_str(), sels[6].as_str(), &image_key_list());
        let own = nodes_or_empty(html, sels[0].as_str(), &one_key("style"));
        let mut ps = match collect_card_pairs("https://mangalivre.tv", &anchors, &covers, &own) {
            Ok(p) => p,
            Err(_) => {
                return Err(());
            },
        };
        let caps = captures_or_empty(
            r#"(?is)<a[^>]*href=[\"'](?P<href>[^\"']*/manga/[^\"']*)[\"'][^>]*>.*?<img[^>]+(?:data-src|src)=[\"'](?P<cover>[^\"']+)[\"']"#,
            html,
        );
        let mut more = collect_capture_pairs("https://mangalivre.tv", &caps);
        let ghost a = pairs_view(ps@);
        let ghost b = pairs_view(more@);
        ps.append(&mut more);
        proof {
            assert(pairs_view(ps@) =~= a + b);
        }
        Ok(ps)
    }

    /// The search results on a MangaLivre page for a query, each stamped `now`.
    pub fn parse_mangalivre_cards_at(html: &str, query: &str, now: &str) -> (r: Result<Vec<Manga>, ScrapeError>)
        ensures
            mangas_result_view(r) == mangalivre_cards_spec(html@, query@, now@),
    {
        let sels = strings_from(
            &vec![
                "li, article, .page-item-detail, .c-tabs-item, .row.c-tabs-item",
                "ul.seriesList > li",
                "h2 a[href*='/manga/'], h3 a[href*='/manga/'], .post-title a, .entry-title a, .page-item-detail a",
                "a[href*='/manga/'], a[title][href]",
                "span.series-title, h2, h3",
                "a[href]",
                ".cover-image, .series-cover, img[data-src], img[src], source[srcset]",
                ".series-desc",
                "span.series-chapters",
            ],
        );
        proof {
            assert(key_views(sels@) =~= mangalivre_selectors());
        }
        if let Some(i) = first_invalid_selector(&sels) {
            let errors = strings_from(
                &vec![
                    "failed to parse MangaLivre card selector",
                    "failed to parse MangaLivre series list selector",
                    "failed to parse MangaLivre title selector",
                    "failed to parse MangaLivre anchor selector",
                    "failed to parse MangaLivre item title selector",
                    "failed to parse MangaLivre item anchor selector",
                    "failed to parse MangaLivre item cover selector",
                    "failed to parse MangaLivre item description selector",
                    "failed to parse MangaLivre item chapters selector",
                ],
            );
            proof {
                assert(key_views(errors@) =~= mangalivre_selector_errors());
                lemma_selectors_held(errors@, mangalivre_selector_errors());
            }
            return Err(ScrapeError::Selector(errors[i].clone()));
        }
        let pairs = match Self::mangalivre_cover_pairs(html, &sels) {
            Ok(p) => p,
            Err(_) => {
                return Err(ScrapeError::Aborted);
            },
        };
        let ghost pv = pairs_view(pairs@);
        let q = query_chars(query);
        let stamp = owned(now);
        proof {
            lemma_selectors_held(sels@, mangalivre_selectors());
        }
        let li = sels[1].as_str();
        let page = ListPage {
            anchors: within_or_empty(html, li, sels[5].as_str(), &two_keys("href", "title")),
            titles: within_or_empty(html, li, sels[4].as_str(), &no_keys()),
            covers: within_or_empty(html, li, sels[6].as_str(), &image_key_list()),
            own: nodes_or_empty(html, li, &one_key("style")),
            descs: within_or_empty(html, li, sels[7].as_str(), &no_keys()),
            chapters: within_or_empty(html, li, sels[8].as_str(), &no_keys()),
        };
        proof {
            assert(page@ == mangalivre_list(html@));
        }
        let mut out: Vec<Manga> = Vec::new();
        proof {
            assert(manga_views(out@) =~= Seq::<MangaView>::empty());
        }
        if let Err(e) = fold_list_items(&q, &pairs, &stamp, &mut out, &page) {
            return Err(e);
        }
        if out.len() > 0 {
            return Ok(out);
        }
        let heads = nodes_or_empty(html, sels[2].as_str(), &one_key("href"));
        let mut rules = AnchorRules {
            base: owned("https://mangalivre.tv"),
            skip: owned("/capitulo-"),
            title_attr: false,
            source_id: owned("mangalivre"),
            source_name: owned("Manga Livre"),
            query: q,
            pairs,
            now: stamp,
        };
        proof {
            assert(rules@ == mangalivre_rules(query_key(query@), pv, now@, false));
        }
        if let Err(e) = fold_anchors(&rules, &mut out, &heads) {
            return Err(e);
        }
        if out.len() > 0 {
            return Ok(out);
        }
        let generic = nodes_or_empty(html, sels[3].as_str(), &two_keys("href", "title"));
        rules.title_attr = true;
        proof {
            assert(rules@ == mangalivre_rules(query_key(query@), pv, now@, true));
        }
        if let Err(e) = fold_anchors(&rules, &mut out, &generic) {
            return Err(e);
        }
        Ok(out)
    }
    /// The covers by link of a Niadd page.
    fn niadd_cover_pairs(html: &str, sels: &Vec<String>) -> (r: Result<Vec<(String, String)>, ()>)
        requires
            key_views(sels@) == niadd_selectors(),
        ensures
            match r {
                Ok(v) => niadd_pairs(html@) == Ok::<Seq<(Seq<char>, Seq<char>)>, ()>(pairs_view(v@)),
                Err(_) => niadd_pairs(html@) is Err,
            },
    {
        proof {
            lemma_selectors_held(sels@, niadd_selectors());
        }
        let caps = captures_or_empty(
            r#"(?is)<a[^>]*href=[\"'](?P<href>(?:https?://br\.niadd\.com)?/manga/[^\"']+|https?://br\.niadd\.com/manga/[^\"']+)[\"'][^>]*>\s*<div[^>]*class=[\"'][^\"']*manga-img[^\"']*[\"'][^>]*>\s*<img[^>]+(?:data-src|src)=[\"'](?P<cover>[^\"']+)[\"']"#,
            html,
        );
        let mut ps = collect_capture_pairs("https://br.niadd.com", &caps);
        let anchors = within_or_empty(html, sels[1].as_str(), sels[2].as_str(), &one_key("href"));
        let covers = within_or_empty(html, sels[1].as_str(), sels[3].as_str(), &image_key_list());
        let own = nodes_or_empty(html, sels[1].as_str(), &one_key("style"));
        let mut more = match collect_card_pairs("https://br.niadd.com", &anchors, &covers, &own) {
            Ok(p) => p,
            Err(_) => {
                return Err(());
            },
        };
        let ghost a = pairs_view(ps@);
        let ghost b = pairs_view(more@);
        ps.append(&mut more);
        proof {
            assert(pairs_view(ps@) =~= a + b);
        }
        Ok(ps)
    }

    /// The search results on a Niadd page for a query, each stamped `now`.
    pub fn parse_niadd_cards_at(html: &str, query: &str, now: &str) -> (r: Result<Vec<Manga>, ScrapeError>)
        ensures
            mangas_result_view(r) == niadd_cards_spec(html@, query@, now@),
    {
        let sels = strings_from(
            &vec![
                "a[href*='/manga/']",
                "li, article, .book-item, .manga-item, .list-item, .media",
                "a[href]",
                "img[data-src], img[src], source[srcset], [style]",
            ],
        );
        proof {
            assert(key_views(sels@) =~= niadd_selectors());
        }
        if let Some(i) = first_invalid_selector(&sels) {
            let errors = strings_from(
                &vec![
                    "failed to parse Niadd anchor selector",
                    "failed to parse Niadd card selector",
                    "failed to parse Niadd card anchor selector",
                    "failed to parse Niadd card cover selector",
                ],
            );
            proof {
                assert(key_views(errors@) =~= niadd_selector_errors());
                lemma_selectors_held(errors@, niadd_selector_errors());
            }
            return Err(ScrapeError::Selector(errors[i].clone()));
        }
        let pairs = match Self::niadd_cover_pairs(html, &sels) {
            Ok(p) => p,
            Err(_) => {
                return Err(ScrapeError::Aborted);
            },
        };
        proof {
            lemma_selectors_held(sels@, niadd_selectors());
        }
        let ghost pv = pairs_view(pairs@);
        let anchors = nodes_or_empty(html, sels[0].as_str(), &two_keys("href", "title"));
        let rules = AnchorRules {
            base: owned("https://br.niadd.com"),
            skip: owned("/manga/.html"),
            title_attr: true,
            source_id: owned("niadd"),
            source_name: owned("Niadd"),
            query: query_chars(query),
            pairs,
            now: owned(now),
        };
        proof {
            assert(rules@ == niadd_rules(query_key(query@), pv, now@));
        }
        let mut out: Vec<Manga> = Vec::new();
        proof {
            assert(manga_views(out@) =~= Seq::<MangaView>::empty());
        }
        if let Err(e) = fold_anchors(&rules, &mut out, &anchors) {
            return Err(e);
        }
        Ok(out)
    }

    /// The search results on a MangaLivre page for a query, stamped with the local time.
    pub fn parse_mangalivre_cards(html: &str, query: &str) -> (r: Result<Vec<Manga>, ScrapeError>)
        ensures
            exists|now: Seq<char>| mangas_result_view(r) == #[trigger] mangalivre_cards_spec(html@, query@, now),
    {
        let now = local_timestamp();
        Self::parse_mangalivre_cards_at(html, query, now.as_str())
    }

    /// The search results on a Niadd page for a query, stamped with the local time.
    pub fn parse_niadd_cards(html: &str, query: &str) -> (r: Result<Vec<Manga>, ScrapeError>)
        ensures
            exists|now: Seq<char>| mangas_result_view(r) == #[trigger] niadd_cards_spec(html@, query@, now),
    {
        let now = local_timestamp();
        Self::parse_niadd_cards_at(html, query, now.as_str())
    }
    /// Whether a page is an anti-bot block page rather than content.
    pub fn html_looks_blocked(html: &str) -> (r: bool)
        ensures
            r == looks_blocked(html@),
    {
        text_looks_like_block_page(html)
    }

    /// The number of result pages that a page links to, at least 1.
    pub fn parse_total_pages(html: &str) -> (r: u32)
        ensures
            r as nat == total_pages_spec(html@),
            r >= 1,
    {
        let groups: Vec<usize> = vec![1];
        proof {
            assert(groups@ =~= seq![1usize]);
        }
        let caps = match regex_captures(r"/page/(\d+)/", html, &groups) {
            Some(c) => c,
            None => {
                let c: Vec<Vec<Option<String>>> = Vec::new();
                proof {
                    assert(captures_view(c@) =~= Seq::<Seq<Option<Seq<char>>>>::empty());
                }
                c
            },
        };
        let ghost cv = captures_view(caps@);
        let mut max_page: u32 = 1;
        let mut k: usize = 0;
        while k < caps.len()
            invariant
                k <= caps@.len(),
                cv == captures_view(caps@),
                max_page as nat == max_page_number(cv, k as int),
                max_page >= 1,
            decreases caps@.len() - k,
        {
            proof {
                assert(cv[k as int] == caps@[k as int]@.map_values(|g: Option<String>| opt_view(g)));
            }
            if caps[k].len() > 0 {
                match &caps[k][0] {
                    Some(m) => {
                        let v = chars_of(m.as_str());
                        proof {
                            assert(v@.subrange(0, v@.len() as int) =~= v@);
                        }
                        match parse_decimal(&v, 0, v.len(), 4294967295) {
                            Some(x) => {
                                if x > max_page as u64 {
                                    max_page = x as u32;
                                }
                            },
                            None => {},
                        }
                    },
                    None => {},
                }
            }
            k = k + 1;
        }
        max_page
    }

    /// A MangaLivre record for a link and title, stamped with the local time.
    pub fn mk_manga(url: &str, title: &str, cover: Option<String>) -> (r: Manga)
        ensures
            r@ == web_manga_spec(url@, title@, "mangalivre"@, "Manga Livre"@, opt_view(cover), None, 0, r@.last_updated),
    {
        web_manga(owned(url), owned(title), "mangalivre", "Manga Livre", cover, None, 0, local_timestamp())
    }

    /// The MangaLivre address on `host` for a trimmed query, its encoding and a page.
    fn mangalivre_search_url_of(host: &str, trimmed: &String, encoded: &String, page: u32) -> (r: String)
        requires
            encoded@ == percent_encoded(trimmed@),
            trim_spec(trimmed@) == trimmed@,
        ensures
            r@ == mangalivre_search_url(host@, trimmed@, page),
    {
        let p = decimal_string(page as u64);
        if trimmed.as_str().is_empty() {
            if page == 1 {
                owned(host)
            } else {
                let a = join2(host, "page/");
                let b = join2(a.as_str(), p.as_str());
                let r = join2(b.as_str(), "/");
                proof {
                    assert(r@ =~= host@ + "page/"@ + p@ + "/"@);
                }
                r
            }
        } else if page == 1 {
            let a = join2(host, "?s=");
            let b = join2(a.as_str(), encoded.as_str());
            let r = join2(b.as_str(), "&post_type=wp-manga");
            proof {
                assert(r@ =~= host@ + "?s="@ + encoded@ + "&post_type=wp-manga"@);
            }
            r
        } else {
            let a = join2(host, "page/");
            let b = join2(a.as_str(), p.as_str());
            let c = join2(b.as_str(), "/?s=");
            let d = join2(c.as_str(), encoded.as_str());
            let r = join2(d.as_str(), "&post_type=wp-manga");
            proof {
                assert(r@ =~= host@ + "page/"@ + p@ + "/?s="@ + encoded@ + "&post_type=wp-manga"@);
            }
            r
        }
    }

    /// The MangaLivre addresses tried, in order, for a query and page.
    pub fn mangalivre_search_urls(query: &str, page: u32) -> (r: Vec<String>)
        ensures
            key_views(r@) == mangalivre_search_urls_spec(query@, page),
    {
        let page = if page < 1 { 1 } else { page };
        let t = trimmed_text(query);
        let e = url_encode(t.as_str());
        proof {
            crate::text::lemma_trim_idempotent(query@);
        }
        let a = Self::mangalivre_search_url_of("https://mangalivre.tv/", &t, &e, page);
        let b = Self::mangalivre_search_url_of("https://mangalivre.to/", &t, &e, page);
        proof {
            assert(mangalivre_search_url("https://mangalivre.tv/"@, t@, page) == mangalivre_search_url(
                "https://mangalivre.tv/"@,
                query@,
                page,
            ));
            assert(mangalivre_search_url("https://mangalivre.to/"@, t@, page) == mangalivre_search_url(
                "https://mangalivre.to/"@,
                query@,
                page,
            ));
        }
        let r = vec![a, b];
        proof {
            assert(key_views(r@) =~= mangalivre_search_urls_spec(query@, page));
        }
        r
    }

    /// The Niadd addresses tried, in order, for a query.
    pub fn niadd_search_urls(query: &str) -> (r: Vec<String>)
        ensures
            key_views(r@) == niadd_search_urls_spec(query@),
    {
        let t = trimmed_text(query);
        if t.as_str().is_empty() {
            let r = vec![
                owned("https://br.niadd.com/list/Hot-Manga/"),
                owned("https://br.niadd.com/list/New-Update/"),
                owned("https://br.niadd.com/"),
            ];
            proof {
                assert(key_views(r@) =~= niadd_search_urls_spec(query@));
            }
            r
        } else {
            let e = url_encode(t.as_str());
            let r = vec![
                join2("https://br.niadd.com/search/?search_type=1&name=", e.as_str()),
                join2("https://br.niadd.com/search/?name=", e.as_str()),
            ];
            proof {
                assert(key_views(r@) =~= niadd_search_urls_spec(query@));
            }
            r
        }
    }

    /// What a fetched MangaLivre page at `url` decides for a query and page.
    pub fn mangalivre_page_outcome(url: &str, html: &str, query: &str, page: u32, now: &str) -> (r: PageOutcome)
        ensures
            r@ == mangalivre_page_spec(url@, html@, query@, page, now@),
    {
        if Self::html_looks_blocked(html) {
            return PageOutcome::Skip(join2("blocked by anti-bot at ", url));
        }
        let page = if page < 1 { 1 } else { page };
        let total = Self::parse_total_pages(html);
        let total = if total >= page { total } else { page };
        match Self::parse_mangalivre_cards_at(html, query, now) {
            Err(e) => PageOutcome::Failed(e),
            Ok(items) => {
                if items.len() > 0 {
                    PageOutcome::Found(items, total)
                } else {
                    PageOutcome::Skip(join2("parsed 0 items for ", url))
                }
            },
        }
    }

    /// The message of a MangaLivre search in which no address gave results.
    pub fn mangalivre_failure(last: Option<String>) -> (r: String)
        ensures
            r@ == mangalivre_failure_spec(opt_view(last)),
    {
        match last {
            Some(e) => join2("MangaLivre scraping failed: ", e.as_str()),
            None => join2("MangaLivre scraping failed: ", "unknown error"),
        }
    }

    /// Adds the items of a page to the merged results, skipping ids already listed.
    fn merge_into(out: &mut Vec<Manga>, items: &Vec<Manga>)
        ensures
            manga_views(final(out)@) == merge_items(manga_views(old(out)@), manga_views(items@), items@.len() as int),
    {
        let ghost start = manga_views(out@);
        let ghost iv = manga_views(items@);
        let mut k: usize = 0;
        while k < items.len()
            invariant
                k <= items@.len(),
                start == manga_views(old(out)@),
                iv == manga_views(items@),
                manga_views(out@) == merge_items(start, iv, k as int),
            decreases items@.len() - k,
        {
            proof {
                assert(iv[k as int] == items@[k as int]@);
            }
            if !has_id(out, &items[k].id) {
                let m = items[k].duplicate();
                let ghost prev = manga_views(out@);
                out.push(m);
                proof {
                    assert(manga_views(out@) =~= prev.push(m@));
                }
            }
            k = k + 1;
        }
    }

    /// The Niadd results of the pages fetched, in order: merged by id, first seen first,
    /// and cut to 80.
    pub fn niadd_results(pages: &Vec<Vec<Manga>>) -> (r: Vec<Manga>)
        ensures
            manga_views(r@) == first_n(merge_pages(pages@.map_values(|p: Vec<Manga>| manga_views(p@)), pages@.len() as int), 80),
            unique_ids(manga_views(r@)),
    {
        let ghost pv = pages@.map_values(|p: Vec<Manga>| manga_views(p@));
        let mut out: Vec<Manga> = Vec::new();
        let mut k: usize = 0;
        proof {
            assert(manga_views(out@) =~= Seq::<MangaView>::empty());
        }
        while k < pages.len()
            invariant
                k <= pages@.len(),
                pv == pages@.map_values(|p: Vec<Manga>| manga_views(p@)),
                manga_views(out@) == merge_pages(pv, k as int),
            decreases pages@.len() - k,
        {
            proof {
                assert(pv[k as int] == manga_views(pages@[k as int]@));
            }
            Self::merge_into(&mut out, &pages[k]);
            k = k + 1;
        }
        proof {
            lemma_merge_pages_unique(pv, pages@.len() as int);
        }
        let r = Self::limit_results(out, 80);
        proof {
            assert forall|i: int, j: int| 0 <= i < j < manga_views(r@).len() implies manga_views(r@)[i].id
                != manga_views(r@)[j].id by {
                assert(manga_views(r@)[i] == merge_pages(pv, pages@.len() as int)[i]);
                assert(manga_views(r@)[j] == merge_pages(pv, pages@.len() as int)[j]);
            }
        }
        r
    }

    /// The first `n` results, or all of them.
    pub fn limit_results(v: Vec<Manga>, n: usize) -> (r: Vec<Manga>)
        ensures
            manga_views(r@) == first_n(manga_views(v@), n as nat),
    {
        let mut v = v;
        let ghost before = v@;
        v.truncate(n);
        proof {
            if before.len() > n {
                assert(manga_views(v@) =~= manga_views(before).take(n as int));
            } else {
                assert(v@ == before);
            }
        }
        v
    }

    /// The address of a MangaLivre manga.
    pub fn details_url(manga_id: &str) -> (r: String)
        ensures
            r@ == details_url_spec(manga_id@),
    {
        let v = chars_of(manga_id);
        if starts_with(&v, &chars_of("http://")) || starts_with(&v, &chars_of("https://")) {
            return owned(manga_id);
        }
        let set = vec!['/'];
        proof {
            assert(set@ =~= seq!['/']);
        }
        let slash = CharClass::AnyOf(set);
        let (a, b) = strip_range(&v, 0, v.len(), &slash);
        proof {
            assert(v@.subrange(0, v@.len() as int) =~= v@);
            assert(class_pred(slash) == one_of(seq!['/']));
        }
        let slug = string_of(&slice_vec(&v, a, b));
        let x = join2("https://mangalivre.tv/manga/", slug.as_str());
        let r = join2(x.as_str(), "/");
        proof {
            assert(r@ =~= "https://mangalivre.tv/manga/"@ + slug@ + "/"@);
        }
        r
    }

    /// The cover of a details page.
    fn details_cover_of(covers: &Vec<Node>) -> (r: Result<Option<String>, ()>)
        ensures
            match r {
                Ok(x) => details_cover(nodes_view(covers@)) == Ok::<Option<Seq<char>>, ()>(opt_view(x)),
                Err(_) => details_cover(nodes_view(covers@)) is Err,
            },
    {
        if covers.len() == 0 || covers[0].attrs.len() < 3 {
            return Ok(None);
        }
        let a = &covers[0].attrs;
        proof {
            assert(nodes_view(covers@)[0] == crate::scrape::node_view(covers@[0]));
        }
        let raw = match (&a[0], &a[1], &a[2]) {
            (Some(x), _, _) => x,
            (None, Some(x), _) => x,
            (None, None, Some(x)) => x,
            (None, None, None) => {
                return Ok(None);
            },
        };
        let u = if contains(&chars_of(raw.as_str()), &chars_of("url(")) {
            match background_image_url_checked(raw.as_str()) {
                Err(_) => {
                    return Err(());
                },
                Ok(x) => x,
            }
        } else {
            Some(raw.clone())
        };
        match u {
            None => Ok(None),
            Some(x) => match Self::to_abs_mangalivre(x.as_str()) {
                Ok(abs) => Ok(Some(abs)),
                Err(_) => Ok(None),
            },
        }
    }

    /// The record that the MangaLivre details page at `url` gives, stamped `now`.
    pub fn manga_details_from_page(url: &str, html: &str, now: &str) -> (r: Result<Manga, ScrapeError>)
        ensures
            match r {
                Ok(m) => details_spec(url@, html@, now@) == Ok::<MangaView, ScrapeErrorView>(m@),
                Err(e) => details_spec(url@, html@, now@) == Err::<MangaView, ScrapeErrorView>(e@),
            },
    {
        if Self::html_looks_blocked(html) {
            return Err(ScrapeError::Blocked(owned("MangaLivre blocked the details request (Cloudflare/anti-bot)")));
        }
        let heads = nodes_or_empty(html, "h1, h2", &no_keys());
        proof {
            assert(nodes_view(heads@).len() > 0 ==> nodes_view(heads@)[0] == crate::scrape::node_view(heads@[0]));
        }
        let mut title = owned("Manga");
        if heads.len() > 0 {
            let t = trimmed_text(heads[0].text.as_str());
            if !t.as_str().is_empty() {
                title = t;
            }
        }
        let low = to_lowercase(title.as_str());
        if contains(&chars_of(low.as_str()), &chars_of("sorry, you have been blocked")) {
            return Err(ScrapeError::Blocked(owned("MangaLivre blocked the details page (title indicates anti-bot block)")));
        }
        let links = nodes_or_empty(html, "a[href*='/capitulo-']", &no_keys());
        let total = links.len() as i32;
        let covers = nodes_or_empty(
            html,
            ".cover-image, .series-cover, .manga-image picture img, .series-thumb img, img[src]",
            &three_keys("data-src", "src", "style"),
        );
        let cover = match Self::details_cover_of(&covers) {
            Ok(c) => c,
            Err(_) => {
                return Err(ScrapeError::Aborted);
            },
        };
        let syn_nodes = nodes_or_empty(html, ".summary__content, .description-summary, p", &no_keys());
        let mut synopsis: Option<String> = None;
        if syn_nodes.len() > 0 {
            proof {
                assert(nodes_view(syn_nodes@)[0] == crate::scrape::node_view(syn_nodes@[0]));
            }
            let t = trimmed_text(syn_nodes[0].text.as_str());
            let tv = chars_of(t.as_str());
            proof {
                assert(tv@.take(tv@.len() as int) =~= tv@);
            }
            if byte_offset(&tv, tv.len()) > 20 {
                synopsis = Some(t);
            }
        }
        Ok(web_manga(owned(url), title, "mangalivre", "Manga Livre", cover, synopsis, total, owned(now)))
    }

    /// The first result with the given id.
    pub fn find_by_id(list: &Vec<Manga>, id: &str) -> (r: Option<Manga>)
        ensures
            match r {
                Some(m) => find_id(manga_views(list@), id@) == Some(m@),
                None => find_id(manga_views(list@), id@) is None,
            },
    {
        let ghost lv = manga_views(list@);
        let mut i: usize = 0;
        proof {
            assert(lv.skip(0) =~= lv);
        }
        while i < list.len()
            invariant
                i <= list@.len(),
                lv == manga_views(list@),
                find_id(lv, id@) == find_id(lv.skip(i as int), id@),
            decreases list@.len() - i,
        {
            proof {
                assert(lv.skip(i as int).drop_first() == lv.skip(i + 1));
                assert(lv.skip(i as int)[0] == list@[i as int]@);
            }
            if same_chars(&chars_of(list[i].id.as_str()), &chars_of(id)) {
                return Some(list[i].duplicate());
            }
            i = i + 1;
        }
        None
    }
}

} // verus!
