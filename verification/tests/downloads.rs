use firescan::chapters::parse_requested_chapters;
use firescan::download::{
    chapter_cbz_name, chapter_dir_name, chapter_number_text, extract_chapter_urls_from_text,
    extract_image_urls_from_text, fallback_source, filter_mangalivre_images, filter_niadd_images, final_status,
    image_ext_for_url, image_response_acceptable, kotatsu_args, manga_mirror_url, manga_page_url, mangalivre_progress,
    manual_manga_id, page_file_name, pick_chapter_link, probe_fallback, progress_from_line, progress_percent,
    run_needs_fallback, select_niadd_chapter, slug_from_url, stderr_reports_dummy_parser, text_looks_like_block_page,
    InternalSource,
};
use firescan::downloads::{group_downloads, DownloadRow};
use firescan::media::bytes_look_like_image;
use firescan::pages::{
    chapter_base, count_chapter_archives, cover_search_title, dedup_adjacent, is_chapters_dir_name,
    mangalivre_chapter_images, mangalivre_chapter_links, manual_record, niadd_chapter_images, niadd_chapter_links,
    resolve_links, resolve_required, tree_cover, web_cover_file_name, web_cover_url,
};
use firescan::registry::{DownloadEntry, DownloadRegistry};
use firescan::scrape::WebScraper;

fn s(v: &[&str]) -> Vec<String> {
    v.iter().map(|x| x.to_string()).collect()
}

#[test]
fn download_folders_are_named_after_the_url() {
    assert_eq!(slug_from_url("https://mangalivre.tv/manga/one-piece/", "id9"), "one_piece");
    assert_eq!(slug_from_url("https://br.niadd.com/manga/Solo Leveling.html///", "id9"), "Solo_Leveling_html");
    assert_eq!(slug_from_url("///", "id9"), "id9");
    assert_eq!(slug_from_url("", "fb"), "fb");
}

#[test]
fn requested_chapters_are_read_as_sorted_indexes() {
    assert_eq!(parse_requested_chapters("all", 3), vec![1, 2, 3]);
    assert_eq!(parse_requested_chapters("  ", 2), vec![1, 2]);
    assert_eq!(parse_requested_chapters("5, 1-3;2", 10), vec![1, 2, 3, 5]);
    assert_eq!(parse_requested_chapters("8-6", 10), vec![6, 7, 8]);
    assert_eq!(parse_requested_chapters("0,99", 4), vec![1, 4]);
    assert_eq!(parse_requested_chapters("x", 5), vec![1]);
    assert_eq!(parse_requested_chapters("3-", 10), vec![3]);
}

#[test]
fn urls_embedded_in_text_are_found_sorted_and_unique() {
    let raw = r#"var pages=["https:\/\/cdn.example\/p2.jpg","https://cdn.example/p1.jpg", "https://cdn.example/p1.jpg"]; <img src='/x.png'>"#;
    assert_eq!(
        extract_image_urls_from_text(raw),
        vec!["/x.png", "https://cdn.example/p1.jpg", "https://cdn.example/p2.jpg"]
    );
    let chapters = "<a href='/manga/x/capitulo-2/'> <a href='/manga/x/capitulo-1/'> other";
    assert_eq!(extract_chapter_urls_from_text(chapters), vec!["/manga/x/capitulo-1/", "/manga/x/capitulo-2/"]);
}

#[test]
fn block_pages_and_mirrors() {
    assert!(text_looks_like_block_page("Sorry, you have been blocked"));
    assert!(!text_looks_like_block_page("chapter text"));
    assert_eq!(manga_mirror_url("https://mangalivre.tv/manga/x/"), "https://r.jina.ai/http://mangalivre.tv/manga/x/");
    assert_eq!(manga_mirror_url("http://a.example"), "https://r.jina.ai/http://a.example");
}

#[test]
fn fallback_downloaders_are_chosen_by_source() {
    assert!(matches!(probe_fallback("https://br.niadd.com/manga/x", "mangadex\nmangalivre"), Some(InternalSource::Niadd)));
    assert!(matches!(probe_fallback("https://MangaLivre.tv/x", "niadd"), Some(InternalSource::MangaLivre)));
    assert!(probe_fallback("https://mangalivre.tv/x", "MANGALIVRE").is_none());
    assert!(matches!(fallback_source("https://mangalivre.tv/niadd"), Some(InternalSource::MangaLivre)));
    assert!(fallback_source("https://mangadex.org/x").is_none());
    assert!(run_needs_fallback(false, false));
    assert!(run_needs_fallback(true, true));
    assert!(!run_needs_fallback(true, false));
    assert_eq!(final_status(true), "completed");
    assert_eq!(final_status(false), "failed");
    assert_eq!(
        kotatsu_args("k.jar", "/d", "cbz", "1-2", "https://u"),
        s(&["-jar", "k.jar", "--dest", "/d", "--format", "cbz", "--chapters", "1-2", "https://u"])
    );
}

#[test]
fn tool_output_lines_report_progress() {
    assert_eq!(progress_from_line("Downloading [ 45%]"), Some(45));
    assert_eq!(progress_from_line("[12%] chapter 1"), Some(12));
    assert_eq!(progress_from_line("150%"), Some(100));
    assert_eq!(progress_from_line("300%"), None);
    assert_eq!(progress_from_line("no percent"), None);
    assert!(stderr_reports_dummy_parser("Parser DUMMY cannot be used"));
    assert!(stderr_reports_dummy_parser("class cannot be instantiated"));
    assert!(!stderr_reports_dummy_parser("all good"));
}

#[test]
fn niadd_downloads_one_chapter() {
    assert_eq!(select_niadd_chapter("all", 4), Some((0, 1)));
    assert_eq!(select_niadd_chapter("", 0), None);
    assert_eq!(select_niadd_chapter("3-5", 10), Some((2, 3)));
    assert_eq!(select_niadd_chapter("7", 5), Some((0, 7)));
    assert_eq!(select_niadd_chapter("abc", 4), Some((0, 1)));
    assert_eq!(pick_chapter_link(0, 3), 0);
    assert_eq!(pick_chapter_link(3, 3), 2);
}

#[test]
fn progress_is_computed_per_page() {
    assert_eq!(progress_percent(1, 3), 33);
    assert_eq!(progress_percent(3, 3), 100);
    assert_eq!(mangalivre_progress(0, 2, 5, 10), 25);
    assert_eq!(mangalivre_progress(1, 2, 10, 10), 99);
}

#[test]
fn page_images_are_filtered_per_source() {
    assert_eq!(filter_niadd_images(&s(&["a.JPG", "logo.png", "b.gif"])), s(&["a.JPG"]));
    assert_eq!(filter_niadd_images(&s(&["x.gif"])), s(&["x.gif"]));
    assert_eq!(
        filter_mangalivre_images(&s(&["p.webp?v=2", "data:image/png;base64,x.png", "avatar.jpg", "q.jpeg"])),
        s(&["p.webp?v=2", "q.jpeg"])
    );
    assert_eq!(image_ext_for_url("https://a/b.WEBP"), "webp");
    assert_eq!(image_ext_for_url("https://a/b.png?x"), "png");
    assert_eq!(image_ext_for_url("https://a/b"), "jpg");
    assert!(image_response_acceptable(true, false, "Image/PNG", false));
    assert!(image_response_acceptable(true, false, "text/html", true));
    assert!(!image_response_acceptable(true, true, "image/png", true));
    assert!(!image_response_acceptable(false, false, "image/png", true));
}

#[test]
fn names_of_saved_pages_and_chapters() {
    assert_eq!(page_file_name(7, "jpg"), "007.jpg");
    assert_eq!(page_file_name(1234, "png"), "1234.png");
    assert_eq!(chapter_dir_name("10_5"), "chapter_10_5");
    assert_eq!(chapter_cbz_name("3"), "chapter_3.cbz");
    assert_eq!(manual_manga_id("abc"), "manual_abc");
    assert_eq!(chapter_number_text("https://x/manga/y/Capitulo-10.5/"), Some("10.5".to_string()));
    assert_eq!(chapter_number_text("https://x/manga/y/"), None);
    assert_eq!(manga_page_url("https://mangalivre.tv/manga/x/capitulo-3/"), "https://mangalivre.tv/manga/x/");
    assert_eq!(manga_page_url("https://mangalivre.tv/manga/x/"), "https://mangalivre.tv/manga/x/");
}

#[test]
fn image_bytes_are_recognized_by_signature() {
    assert!(bytes_look_like_image(&[0xFF, 0xD8, 0xFF, 0xE0]));
    assert!(bytes_look_like_image(&[0x89, 0x50, 0x4E, 0x47, 0x0D, 0x0A, 0x1A, 0x0A]));
    assert!(bytes_look_like_image(b"GIF89a...."));
    assert!(bytes_look_like_image(b"RIFF\0\0\0\0WEBPVP8 "));
    assert!(!bytes_look_like_image(b"<html>"));
    assert!(!bytes_look_like_image(&[]));
}

#[test]
fn chapter_pages_are_read_from_markup() {
    let niadd = r#"<ul class="chapters"><a href="/c/1">1</a><a href="/c/2">2</a></ul>"#;
    assert_eq!(niadd_chapter_links(niadd), s(&["/c/1", "/c/2"]));
    let loose = r#"<a href="/x/cap-1">a</a><a href="/about">b</a><a href="/chapter/2">c</a>"#;
    assert_eq!(niadd_chapter_links(loose), s(&["/chapter/2"]));
    let images = r#"<img class="page-img" data-src="/p1.jpg" src="/lazy.gif"><img class="page-img" src="/p2.jpg"><img src="/logo.png">"#;
    assert_eq!(niadd_chapter_images(images), s(&["/p1.jpg", "/p2.jpg"]));
    let ml = r#"<ul class="list-of-chapters"><a href="/manga/x/capitulo-2/">2</a><a href="/manga/x/capitulo-1/">1</a></ul>"#;
    assert_eq!(mangalivre_chapter_links(ml), s(&["/manga/x/capitulo-2/", "/manga/x/capitulo-1/"]));
    let script = r#"<script>var c = "https:\/\/mangalivre.tv\/manga\/x\/capitulo-9\/";</script>"#;
    assert_eq!(mangalivre_chapter_links(script), s(&["https://mangalivre.tv/manga/x/capitulo-9/"]));
    let pages = r#"<div class="reading-content"><img src="/1.jpg"><img data-src="/2.jpg"></div>"#;
    assert_eq!(mangalivre_chapter_images(pages), s(&["/1.jpg", "/2.jpg"]));
}

#[test]
fn links_are_resolved_against_the_page() {
    assert_eq!(
        resolve_links("https://br.niadd.com/manga/x.html", &s(&["/c/1", "https://o.example/c/2", "c3"])),
        s(&["https://br.niadd.com/c/1", "https://o.example/c/2", "https://br.niadd.com/manga/c3"])
    );
    assert_eq!(resolve_required("https://a.example/x/", "p.jpg").ok(), Some("https://a.example/x/p.jpg".to_string()));
    assert!(resolve_required("not a url", "p.jpg").is_err());
    assert_eq!(chapter_base("https://a.example/c/1", "https://a.example/m"), "https://a.example/c/1");
    assert_eq!(chapter_base("/c/1", "https://a.example/m"), "https://a.example/m");
    assert_eq!(dedup_adjacent(&s(&["a", "a", "b", "a", "a"])), s(&["a", "b", "a"]));
}

#[test]
fn download_folders_give_covers_and_counts() {
    let root = vec![("notes.txt".to_string(), "/m/notes.txt".to_string()), ("Cover.PNG".to_string(), "/m/Cover.PNG".to_string())];
    assert_eq!(tree_cover(&root, &vec![], true), Some("/m/Cover.PNG".to_string()));
    let dirs = vec![
        vec![("info.txt".to_string(), "/m/c1/info.txt".to_string())],
        vec![("001.JPEG".to_string(), "/m/c2/001.JPEG".to_string()), ("002.jpg".to_string(), "/m/c2/002.jpg".to_string())],
    ];
    assert_eq!(tree_cover(&vec![], &dirs, true), Some("/m/c2/001.JPEG".to_string()));
    assert_eq!(tree_cover(&vec![], &dirs, false), Some("/m/c2/002.jpg".to_string()));
    assert_eq!(count_chapter_archives(&s(&["a.cbz", "B.CBZ", "c.zip"]), &vec![s(&["d.cbz"]), s(&[])]), 3);
    assert!(is_chapters_dir_name("Chapters"));
    assert!(!is_chapters_dir_name("chapter"));
}

#[test]
fn manual_downloads_get_placeholder_records() {
    let m = manual_record(&Some("solo".to_string()), "Solo".to_string(), None, "/lib/solo", 4, "now");
    assert_eq!(m.id, "manual_solo");
    assert_eq!(m.source_id, "manual");
    assert_eq!(m.source_name, "Manual");
    assert_eq!(m.status, "unknown");
    assert_eq!(m.total_chapters, 4);
    assert_eq!(m.downloaded_chapters, 4);
    assert_eq!(manual_record(&None, "t".to_string(), None, "", 0, "now").id, "manual_unknown");
    assert_eq!(cover_search_title(&Some("solo_leveling".to_string())), "solo leveling");
    assert_eq!(cover_search_title(&None), "Manual Download");
    let a = WebScraper::mk_manga("1", "A", None);
    let b = WebScraper::mk_manga("2", "B", Some("//x/c.jpg".to_string()));
    let c = WebScraper::mk_manga("3", "C", Some("https://x/c.webp".to_string()));
    assert_eq!(web_cover_url(&vec![a.duplicate(), b.duplicate(), c.duplicate()]), None);
    assert_eq!(web_cover_url(&vec![a, c]), Some("https://x/c.webp".to_string()));
    assert_eq!(web_cover_file_name("https://x/c.webp"), "cover_web.webp");
}

fn entry(status: &str) -> DownloadEntry {
    let mut e = DownloadEntry::empty();
    e.status = Some(status.to_string());
    e
}

#[test]
fn the_registry_reads_back_what_was_written() {
    let mut reg = DownloadRegistry::new();
    let id = "d1".to_string();
    let mut e = entry("running");
    e.dest = Some("/lib/solo".to_string());
    e.progress = Some(0);
    reg.insert(id.clone(), e);
    assert_eq!(reg.get(&id).unwrap().status.as_deref(), Some("running"));
    let mut patch = DownloadEntry::empty();
    patch.progress = Some(40);
    patch.last_stdout = Some("page 4".to_string());
    reg.update(&id, patch);
    let got = reg.get(&id).unwrap();
    assert_eq!(got.status.as_deref(), Some("running"));
    assert_eq!(got.progress, Some(40));
    assert_eq!(got.last_stdout.as_deref(), Some("page 4"));
    reg.update(&"missing".to_string(), entry("x"));
    assert!(reg.get(&"missing".to_string()).is_none());
    reg.enrich(&id, Some("solo".to_string()), None);
    assert_eq!(reg.get(&id).unwrap().title.as_deref(), Some("solo"));
    assert_eq!(reg.snapshot().len(), 1);
    assert!(reg.progress_of(&id).is_ok());
    assert_eq!(reg.remove(&id).unwrap().progress, Some(40));
    assert!(reg.get(&id).is_none());
    assert_eq!(reg.progress_of(&id).err(), Some("download_id not found".to_string()));
    assert!(reg.remove(&id).is_none());
}

fn row(id: &str, title: &str, cover: Option<&str>, path: &str, folder: Option<&str>) -> DownloadRow {
    DownloadRow {
        id: id.to_string(),
        title: title.to_string(),
        cover: cover.map(|c| c.to_string()),
        local_path: path.to_string(),
        folder: folder.map(|f| f.to_string()),
    }
}

#[test]
fn downloaded_records_are_grouped_by_folder() {
    let rows = vec![
        row("n2", "Manual Download", None, "/lib/z_solo", Some("z_solo")),
        row("n1", "Solo Leveling", Some("/lib/z_solo/cover.jpg"), "/lib/z_solo", Some("z_solo")),
        row("b", "  ", Some(" "), "/lib/a_bleach", Some("a_bleach")),
        row("x", "Nothing", None, "   ", None),
    ];
    let items = group_downloads(&rows);
    assert_eq!(items.len(), 2);
    assert_eq!(items[0].local_path, "/lib/a_bleach");
    assert_eq!(items[0].id, "b");
    assert_eq!(items[0].title, "a bleach");
    assert_eq!(items[0].cover_path.as_deref(), Some(" "));
    assert_eq!(items[1].id, "n2");
    assert_eq!(items[1].title, "Solo Leveling");
    assert_eq!(items[1].cover_path.as_deref(), Some("/lib/z_solo/cover.jpg"));
}
