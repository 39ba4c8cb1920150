use firescan::cards::ScrapeError;
use firescan::library::Manga;
use firescan::scrape::WebScraper;
use firescan::search::PageOutcome;

const SERIES_PAGE: &str = r#"<html><body>
<ul class="seriesList">
<li><a href="/manga/one-piece/" title="One Piece"><img data-src="//cdn.example/op.jpg"></a>
<span class="series-title"> One Piece </span>
<span class="series-desc">A   pirate
story</span>
<span class="series-chapters">1100 capitulos</span></li>
<li><a href="https://mangalivre.tv/manga/naruto/"><img src="https://cdn.example/naruto.png"></a>
<h2>Naruto</h2><span class="series-chapters">700</span></li>
<li><a href="/manga/one-piece/capitulo-1">Cap 1</a><h2>Ignored</h2></li>
</ul>
<a href="/page/2/">2</a><a href="/page/44/?s=x">44</a>
</body></html>"#;

const NIADD_PAGE: &str = r#"<html><body><div class="list">
<a href="/manga/Bleach.html" title="Bleach"><div class="manga-img"><img src="//img.niadd.example/bleach.jpg"></div></a>
<a href="/manga/Bleach.html">Bleach</a>
<a href="/manga/.html">Empty</a>
<a href="https://br.niadd.com/manga/Naruto.html">Naruto</a>
</div></body></html>"#;

const DETAILS_PAGE: &str = r#"<html><body>
<h1>  Solo Leveling </h1>
<div class="summary__content">A hunter rises from the weakest rank to the strongest.</div>
<a href="/manga/solo/capitulo-1">1</a><a href="/manga/solo/capitulo-2">2</a>
<img class="cover-image" data-src="/covers/solo.jpg">
</body></html>"#;

fn ids(v: &[Manga]) -> Vec<String> {
    v.iter().map(|m| m.id.clone()).collect()
}

#[test]
fn mangalivre_series_list_is_read_entry_by_entry() {
    let out = WebScraper::parse_mangalivre_cards_at(SERIES_PAGE, "", "2024-01-01T00:00:00+00:00").ok().unwrap();
    assert_eq!(ids(&out), vec!["https://mangalivre.tv/manga/one-piece/", "https://mangalivre.tv/manga/naruto/"]);
    let op = &out[0];
    assert_eq!(op.title, "One Piece");
    assert_eq!(op.cover_path.as_deref(), Some("https://cdn.example/op.jpg"));
    assert_eq!(op.synopsis.as_deref(), Some("A pirate story"));
    assert_eq!(op.total_chapters, 1100);
    assert_eq!(op.source_id, "mangalivre");
    assert_eq!(op.source_name, "Manga Livre");
    assert_eq!(op.status, "ongoing");
    assert_eq!(op.language, "Português");
    assert_eq!(op.last_updated, "2024-01-01T00:00:00+00:00");
    let na = &out[1];
    assert_eq!(na.title, "Naruto");
    assert_eq!(na.cover_path.as_deref(), Some("https://cdn.example/naruto.png"));
    assert_eq!(na.synopsis, None);
    assert_eq!(na.total_chapters, 700);
}

#[test]
fn mangalivre_query_filters_titles_case_insensitively() {
    let out = WebScraper::parse_mangalivre_cards_at(SERIES_PAGE, "  NAR ", "now").ok().unwrap();
    assert_eq!(ids(&out), vec!["https://mangalivre.tv/manga/naruto/"]);
    let none = WebScraper::parse_mangalivre_cards_at(SERIES_PAGE, "bleach", "now").ok().unwrap();
    assert!(none.is_empty());
}

#[test]
fn mangalivre_heading_anchors_are_used_without_a_series_list() {
    let html = r#"<div><h2><a href="/manga/berserk/">Berserk</a></h2>
        <h3><a href="/manga/berserk/capitulo-2/">Cap 2</a></h3>
        <h3><a href="/manga/monster/">Monster</a></h3></div>"#;
    let out = WebScraper::parse_mangalivre_cards_at(html, "", "now").ok().unwrap();
    assert_eq!(ids(&out), vec!["https://mangalivre.tv/manga/berserk/", "https://mangalivre.tv/manga/monster/"]);
    assert_eq!(out[0].title, "Berserk");
    assert_eq!(out[0].total_chapters, 0);
}

#[test]
fn mangalivre_generic_anchors_take_title_attribute() {
    let html = r#"<p><a href="/manga/vagabond/" title="Vagabond"><img src="/v.jpg"></a></p>"#;
    let out = WebScraper::parse_mangalivre_cards_at(html, "", "now").ok().unwrap();
    assert_eq!(ids(&out), vec!["https://mangalivre.tv/manga/vagabond/"]);
    assert_eq!(out[0].title, "Vagabond");
    assert_eq!(out[0].cover_path.as_deref(), Some("https://mangalivre.tv/v.jpg"));
}

#[test]
fn niadd_anchors_are_merged_with_raw_covers() {
    let out = WebScraper::parse_niadd_cards_at(NIADD_PAGE, "", "now").ok().unwrap();
    assert_eq!(ids(&out), vec!["https://br.niadd.com/manga/Bleach.html", "https://br.niadd.com/manga/Naruto.html"]);
    assert_eq!(out[0].title, "Bleach");
    assert_eq!(out[0].cover_path.as_deref(), Some("https://img.niadd.example/bleach.jpg"));
    assert_eq!(out[0].source_id, "niadd");
    assert_eq!(out[0].source_name, "Niadd");
    assert_eq!(out[1].cover_path, None);
    let only = WebScraper::parse_niadd_cards_at(NIADD_PAGE, "naru", "now").ok().unwrap();
    assert_eq!(ids(&only), vec!["https://br.niadd.com/manga/Naruto.html"]);
}

#[test]
fn total_pages_is_the_largest_page_link() {
    assert_eq!(WebScraper::parse_total_pages(SERIES_PAGE), 44);
    assert_eq!(WebScraper::parse_total_pages("<p>no links</p>"), 1);
    assert_eq!(WebScraper::parse_total_pages("/page/99999999999/ /page/3/"), 3);
}

#[test]
fn block_pages_are_recognized() {
    assert!(WebScraper::html_looks_blocked("<title>Attention Required! | Cloudflare</title>"));
    assert!(WebScraper::html_looks_blocked("see /cdn-cgi/challenge"));
    assert!(!WebScraper::html_looks_blocked(SERIES_PAGE));
}

#[test]
fn image_urls_are_normalized() {
    assert_eq!(WebScraper::normalize_image_url("  //cdn.example/a.jpg "), "https://cdn.example/a.jpg");
    assert_eq!(WebScraper::normalize_image_url(" https://x.example/b.png"), "https://x.example/b.png");
    assert_eq!(
        WebScraper::extract_background_image_url("background-image: URL('//cdn.example/c.webp')"),
        Some("//cdn.example/c.webp".to_string())
    );
    assert_eq!(WebScraper::extract_background_image_url("color: red"), None);
    assert_eq!(WebScraper::extract_background_image_url("url()"), None);
}

#[test]
fn links_are_made_absolute_per_site() {
    assert_eq!(WebScraper::to_abs_mangalivre("/manga/x/").ok(), Some("https://mangalivre.tv/manga/x/".to_string()));
    assert_eq!(WebScraper::to_abs_niadd("manga/y.html").ok(), Some("https://br.niadd.com/manga/y.html".to_string()));
    assert_eq!(WebScraper::to_abs_niadd("http://other.example/z").ok(), Some("http://other.example/z".to_string()));
}

#[test]
fn search_addresses_follow_query_and_page() {
    assert_eq!(WebScraper::mangalivre_search_urls(" ", 0), vec!["https://mangalivre.tv/", "https://mangalivre.to/"]);
    assert_eq!(
        WebScraper::mangalivre_search_urls("", 3),
        vec!["https://mangalivre.tv/page/3/", "https://mangalivre.to/page/3/"]
    );
    assert_eq!(
        WebScraper::mangalivre_search_urls(" one piece ", 1),
        vec![
            "https://mangalivre.tv/?s=one%20piece&post_type=wp-manga",
            "https://mangalivre.to/?s=one%20piece&post_type=wp-manga"
        ]
    );
    assert_eq!(
        WebScraper::mangalivre_search_urls("ação", 2),
        vec![
            "https://mangalivre.tv/page/2/?s=a%C3%A7%C3%A3o&post_type=wp-manga",
            "https://mangalivre.to/page/2/?s=a%C3%A7%C3%A3o&post_type=wp-manga"
        ]
    );
    assert_eq!(WebScraper::niadd_search_urls("").len(), 3);
    assert_eq!(
        WebScraper::niadd_search_urls("x y"),
        vec!["https://br.niadd.com/search/?search_type=1&name=x%20y", "https://br.niadd.com/search/?name=x%20y"]
    );
}

#[test]
fn page_outcomes_decide_the_search_loop() {
    match WebScraper::mangalivre_page_outcome("u1", SERIES_PAGE, "", 50, "now") {
        PageOutcome::Found(items, total) => {
            assert_eq!(items.len(), 2);
            assert_eq!(total, 50);
        },
        _ => panic!("expected results"),
    }
    match WebScraper::mangalivre_page_outcome("u2", "cloudflare", "", 1, "now") {
        PageOutcome::Skip(m) => assert_eq!(m, "blocked by anti-bot at u2"),
        _ => panic!("expected a skip"),
    }
    match WebScraper::mangalivre_page_outcome("u3", "<p></p>", "", 1, "now") {
        PageOutcome::Skip(m) => assert_eq!(m, "parsed 0 items for u3"),
        _ => panic!("expected a skip"),
    }
    assert_eq!(WebScraper::mangalivre_failure(None), "MangaLivre scraping failed: unknown error");
    assert_eq!(WebScraper::mangalivre_failure(Some("x".to_string())), "MangaLivre scraping failed: x");
}

#[test]
fn niadd_pages_merge_by_id_and_cut_to_eighty() {
    let a = WebScraper::mk_manga("id1", "A", None);
    let b = WebScraper::mk_manga("id2", "B", None);
    let a2 = WebScraper::mk_manga("id1", "A again", None);
    let merged = WebScraper::niadd_results(&vec![vec![a.duplicate(), b.duplicate()], vec![], vec![a2, b]]);
    assert_eq!(ids(&merged), vec!["id1", "id2"]);
    assert_eq!(merged[0].title, "A");
    let many: Vec<Manga> = (0..100).map(|i| WebScraper::mk_manga(&format!("m{}", i), "t", None)).collect();
    assert_eq!(WebScraper::niadd_results(&vec![many.iter().map(|m| m.duplicate()).collect()]).len(), 80);
    assert_eq!(WebScraper::limit_results(many, 60).len(), 60);
}

#[test]
fn details_pages_give_a_record() {
    assert_eq!(WebScraper::details_url("/solo-leveling/"), "https://mangalivre.tv/manga/solo-leveling/");
    assert_eq!(WebScraper::details_url("https://x.example/m"), "https://x.example/m");
    let m = WebScraper::manga_details_from_page("https://mangalivre.tv/manga/solo/", DETAILS_PAGE, "now").ok().unwrap();
    assert_eq!(m.id, "https://mangalivre.tv/manga/solo/");
    assert_eq!(m.title, "Solo Leveling");
    assert_eq!(m.total_chapters, 2);
    assert_eq!(m.cover_path.as_deref(), Some("https://mangalivre.tv/covers/solo.jpg"));
    assert_eq!(m.synopsis.as_deref(), Some("A hunter rises from the weakest rank to the strongest."));
    let short = WebScraper::manga_details_from_page("u", "<h2></h2><p>short</p>", "now").ok().unwrap();
    assert_eq!(short.title, "Manga");
    assert_eq!(short.synopsis, None);
    assert_eq!(short.cover_path, None);
    match WebScraper::manga_details_from_page("u", "please enable cloudflare", "now") {
        Err(ScrapeError::Blocked(m)) => assert_eq!(m, "MangaLivre blocked the details request (Cloudflare/anti-bot)"),
        _ => panic!("expected a block"),
    }
    let found = WebScraper::find_by_id(&vec![WebScraper::mk_manga("a", "A", None)], "a");
    assert_eq!(found.map(|m| m.title), Some("A".to_string()));
    assert!(WebScraper::find_by_id(&vec![], "a").is_none());
}

#[test]
fn made_records_carry_the_site_defaults() {
    let m = WebScraper::mk_manga("https://mangalivre.tv/manga/x/", "X", Some("c.jpg".to_string()));
    assert_eq!(m.source_id, "mangalivre");
    assert_eq!(m.rating_bits, 0);
    assert_eq!(m.local_path, "");
    assert_eq!(m.cover_path.as_deref(), Some("c.jpg"));
    assert!(!m.last_updated.is_empty());
}
