use firescan::config::{
    available_sources, benign_migration_error, default_sources, initialize_database, library_override,
    sources_or_default, Source,
};
use firescan::local::{
    archive_cover_name, chapter_entry_by_names, cover_for_ui, cover_is_remote, cover_target_name, favorite_id,
    filter_by_sources, has_cover, importable_folder, is_archive_ext, is_image_ext, library_row_by, listing_params,
    local_chapter_count, local_import_record, local_manga_id, looks_like_chapter_entry, niadd_samples, page_of,
    pick_by_clock, IndexSummary, LibraryRow, LibraryService, MangaRepository,
};
use firescan::reader::{
    bytes_to_data_url, chapter_listing, chapter_number_from_name, cover_data_url, is_image_path, mime_from_path,
    parse_chapter_id, sort_strings, ChapterRef,
};
use firescan::scrape::WebScraper;

fn s(v: &[&str]) -> Vec<String> {
    v.iter().map(|x| x.to_string()).collect()
}

#[test]
fn chapter_numbers_come_from_the_first_digit_run() {
    assert_eq!(chapter_number_from_name("Capitulo 012 parte 3"), 12);
    assert_eq!(chapter_number_from_name("chapter_7.cbz"), 7);
    assert_eq!(chapter_number_from_name("extra"), 0);
    assert_eq!(chapter_number_from_name("99999999999"), 0);
    assert_eq!(chapter_number_from_name("4294967295"), 4294967295);
}

#[test]
fn page_files_and_their_types() {
    assert!(is_image_path("a/B.JPG"));
    assert!(is_image_path("x.webp"));
    assert!(!is_image_path("x.gif"));
    assert_eq!(mime_from_path("x.PNG"), "image/png");
    assert_eq!(mime_from_path("x.WebP"), "image/webp");
    assert_eq!(mime_from_path("x.jpeg"), "image/jpeg");
    assert_eq!(mime_from_path("noext"), "image/jpeg");
}

#[test]
fn data_urls_hold_base64() {
    assert_eq!(bytes_to_data_url(b"hi", "text/plain"), "data:text/plain;base64,aGk=");
    assert_eq!(bytes_to_data_url(b"", "image/png"), "data:image/png;base64,");
    assert_eq!(bytes_to_data_url(&[0xFF, 0xD8, 0xFF], "image/jpeg"), "data:image/jpeg;base64,/9j/");
    assert_eq!(bytes_to_data_url(b"abcd", "m"), "data:m;base64,YWJjZA==");
    assert_eq!(cover_data_url("JPG", b"abc"), Some("data:image/jpeg;base64,YWJj".to_string()));
    assert_eq!(cover_data_url("gif", b"abc"), None);
    assert_eq!(cover_data_url("png", b""), None);
}

#[test]
fn local_chapters_are_listed_in_reading_order() {
    let items = chapter_listing(&s(&["chapter_10.cbz", "chapter_2.cbz", "extra.cbz"]), &s(&["ignored_1"]));
    let ids: Vec<String> = items.iter().map(|c| c.id.clone()).collect();
    assert_eq!(ids, s(&["cbz::extra.cbz", "cbz::chapter_2.cbz", "cbz::chapter_10.cbz"]));
    assert_eq!(items[1].number, 2);
    assert_eq!(items[1].title, "Cap 2");
    assert_eq!(items[0].title, "Cap 0");
    let dirs = chapter_listing(&vec![], &s(&["b_1", "a_1", "c_0"]));
    let ids: Vec<String> = dirs.iter().map(|c| c.id.clone()).collect();
    assert_eq!(ids, s(&["dir::c_0", "dir::a_1", "dir::b_1"]));
}

#[test]
fn chapter_ids_name_archives_or_folders() {
    assert!(matches!(parse_chapter_id("cbz::ch1.cbz"), ChapterRef::Archive(n) if n == "ch1.cbz"));
    assert!(matches!(parse_chapter_id("dir::chapter_1"), ChapterRef::Folder(n) if n == "chapter_1"));
    assert!(matches!(parse_chapter_id("chapter_2"), ChapterRef::Folder(n) if n == "chapter_2"));
    assert_eq!(sort_strings(s(&["b/2.jpg", "a/10.jpg", "b/10.jpg", "a/10.jpg"])), s(&["a/10.jpg", "a/10.jpg", "b/10.jpg", "b/2.jpg"]));
}

#[test]
fn chapter_folders_are_not_manga() {
    assert!(chapter_entry_by_names("  Chapter_3 ", &None));
    assert!(chapter_entry_by_names("Solo", &Some("Capitulo 4".to_string())));
    assert!(!chapter_entry_by_names("Solo", &Some("solo".to_string())));
    assert!(looks_like_chapter_entry("capitulo-1", "/lib/x"));
    assert!(looks_like_chapter_entry("Solo", "/lib/solo/chapter_1"));
    assert!(!looks_like_chapter_entry("Solo", "/lib/solo"));
    assert!(importable_folder("One Piece"));
    assert!(!importable_folder("chapter 1"));
    assert!(!importable_folder(""));
}

#[test]
fn chapter_counts_on_disk() {
    assert!(is_archive_ext("CBZ"));
    assert!(is_archive_ext("zip"));
    assert!(!is_archive_ext("rar"));
    let root = vec![Some("cbz".to_string()), Some("jpg".to_string()), None, Some("ZIP".to_string())];
    assert_eq!(local_chapter_count(&root, &vec![vec![Some("cbz".to_string())]], None), 3);
    assert_eq!(local_chapter_count(&root, &vec![], Some(10)), 10);
    assert_eq!(local_chapter_count(&root, &vec![], Some(1)), 2);
}

#[test]
fn library_rows_are_cleaned_and_repaired() {
    let m = LibraryService::manga_from_index(
        &IndexSummary { id: "i".to_string(), title: "T".to_string(), state: "ongoing".to_string(), rating_bits: 0, chapters: 3 },
        "/lib/t",
        None,
        "now",
    );
    assert_eq!(m.total_chapters, 3);
    assert_eq!(m.downloaded_chapters, 3);
    assert_eq!(m.source_id, "local");
    assert_eq!(m.source_name, "Biblioteca Local");
    assert_eq!(m.language, "pt-BR");
    match library_row_by(m.duplicate(), false, 5) {
        LibraryRow::Show(x, persist) => {
            assert!(persist);
            assert_eq!(x.total_chapters, 5);
        },
        LibraryRow::Remove => panic!("kept"),
    }
    assert!(matches!(library_row_by(m.duplicate(), false, 3), LibraryRow::Show(_, false)));
    assert!(matches!(library_row_by(m.duplicate(), false, 0), LibraryRow::Show(_, false)));
    assert!(matches!(library_row_by(m, true, 5), LibraryRow::Remove));
    assert_eq!(LibraryService::cover_names(), s(&["cover.jpg", "cover.png", "cover.webp"]));
}

#[test]
fn covers_for_the_ui() {
    assert!(cover_is_remote("HTTPS://x/c.jpg"));
    assert!(cover_is_remote("asset://c"));
    assert!(!cover_is_remote("/home/c.jpg"));
    assert_eq!(cover_for_ui(&Some("https://x/c.jpg".to_string()), Some("data:x".to_string())), Some("https://x/c.jpg".to_string()));
    assert_eq!(cover_for_ui(&Some("/c.jpg".to_string()), Some("data:x".to_string())), Some("data:x".to_string()));
    assert_eq!(cover_for_ui(&Some("/c.jpg".to_string()), None), Some("/c.jpg".to_string()));
    assert_eq!(cover_for_ui(&None, Some("data:x".to_string())), None);
    assert!(!has_cover(&WebScraper::mk_manga("a", "A", Some("  ".to_string()))));
    assert!(has_cover(&WebScraper::mk_manga("a", "A", Some("c".to_string()))));
    assert!(is_image_ext("JPEG"));
    assert!(!is_image_ext("gif"));
    assert_eq!(pick_by_clock(3, 7), 1);
    assert_eq!(archive_cover_name("local_x", 2, "png"), "local_x_cbz_2.png");
    assert_eq!(cover_target_name("local_x", "JPG"), "local_x.jpg");
}

#[test]
fn library_folders_are_imported_as_records() {
    assert_eq!(local_manga_id("One Piece"), "local_one_piece");
    let m = local_import_record("One Piece", "/lib/One Piece", Some("/lib/One Piece/cover.jpg".to_string()), "now");
    assert_eq!(m.id, "local_one_piece");
    assert_eq!(m.title, "One Piece");
    assert_eq!(m.synopsis.as_deref(), Some("Imported from folder: /lib/One Piece"));
    assert_eq!(m.source_name, "Local");
    assert_eq!(m.status, "unknown");
}

#[test]
fn repository_paging() {
    assert_eq!(MangaRepository::total_pages(0, 20), 1);
    assert_eq!(MangaRepository::total_pages(41, 20), 3);
    assert_eq!(MangaRepository::total_pages(40, 20), 2);
    assert_eq!(MangaRepository::page_offset(3, 20), 40);
    assert_eq!(MangaRepository::source_page_offset(0, 20), 0);
    assert_eq!(MangaRepository::title_pattern("one"), "%one%");
}

#[test]
fn scraped_lists_are_paged() {
    assert_eq!(listing_params(None, None), (1, 20));
    assert_eq!(listing_params(Some(0), Some(0)), (1, 1));
    let list: Vec<_> = (0..45).map(|i| WebScraper::mk_manga(&format!("m{}", i), "t", None)).collect();
    let (p3, pages) = page_of(list.iter().map(|m| m.duplicate()).collect(), 3, 20);
    assert_eq!(pages, 3);
    assert_eq!(p3.len(), 5);
    assert_eq!(p3[0].id, "m40");
    let (p4, _) = page_of(list, 4, 20);
    assert!(p4.is_empty());
    let samples = niadd_samples("now");
    assert_eq!(samples.len(), 6);
    assert_eq!(samples[5].id, "niadd_fallback_6");
    assert_eq!(samples[0].title, "Exemplo Niadd 1");
    assert_eq!(samples[0].synopsis.as_deref(), Some("Exemplo gerado localmente"));
}

#[test]
fn search_results_are_filtered_by_source() {
    let mut a = WebScraper::mk_manga("a", "A", None);
    a.source_id = "niadd".to_string();
    let b = WebScraper::mk_manga("b", "B", None);
    let out = filter_by_sources(&vec![a, b], &s(&["niadd"]));
    assert_eq!(out.len(), 1);
    assert_eq!(out[0].id, "a");
    assert_eq!(favorite_id("123"), "fav_123");
}

#[test]
fn sources_exposed_to_the_ui() {
    let d = default_sources();
    assert_eq!(d.len(), 2);
    assert_eq!(d[0].id, "mangalivre");
    assert_eq!(d[1].id, "mangadex");
    assert_eq!(d[1].priority, 2);
    let niadd = Source {
        id: "niadd".to_string(),
        name: "Niadd".to_string(),
        url: "https://br.niadd.com".to_string(),
        language: "Português".to_string(),
        region: "BR".to_string(),
        enabled: false,
        priority: 3,
        description: None,
    };
    let mut all = sources_or_default(None);
    all.push(niadd);
    let (shown, enabled) = available_sources(all);
    let ids: Vec<String> = shown.iter().map(|x| x.id.clone()).collect();
    assert_eq!(ids, s(&["mangalivre", "niadd"]));
    assert_eq!(enabled, 1);
}

#[test]
fn settings_files_and_migrations() {
    assert_eq!(library_override("  D:\\mangas  \r\nsecond line"), Some("D:\\mangas".to_string()));
    assert_eq!(library_override("\n/x"), None);
    assert_eq!(library_override(""), None);
    assert!(benign_migration_error("database: Cannot start a transaction within a transaction"));
    assert!(!benign_migration_error("no such table"));
    assert!(initialize_database().is_ok());
}
