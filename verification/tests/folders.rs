use firescan::config::{app_identity, get_database_path, get_logs_path, library_override_file};
use firescan::download::{
    download_outcome, mangalivre_chapter_end, mangalivre_chapter_start, mangalivre_manga_page_check, nonempty_or,
    ChapterStart,
};
use firescan::registry::{DownloadEntry, DownloadRegistry};
use firescan::json::indexed_chapter_count;
use firescan::local::looks_like_chapter_entry;
use firescan::pages::resolve_links_from;
use firescan::scrape::WebScraper;
use firescan::tools::{ancestors, kotatsu_jar_candidates, sample_manga};

#[test]
fn chapter_entries_are_told_by_title_or_folder() {
    assert!(looks_like_chapter_entry("Chapter_1", "/lib/One Piece"));
    assert!(looks_like_chapter_entry("One Piece", "/lib/capitulo-3"));
    assert!(looks_like_chapter_entry("  chapter 5", ""));
    assert!(!looks_like_chapter_entry("One Piece", "/lib/One Piece"));
    assert!(!looks_like_chapter_entry("Chapters", "/lib/x"));
    assert!(!looks_like_chapter_entry("One Piece", "/lib/chapter_1/One Piece"));
}

#[test]
fn index_files_count_their_chapters() {
    assert_eq!(indexed_chapter_count(r#"{"chapters": {"1": {}, "2": {}, "3": {}}}"#), Some(3));
    assert_eq!(indexed_chapter_count(r#"{"title": "x", "chapters": {}}"#), Some(0));
    assert_eq!(indexed_chapter_count(r#"{"chapters": [1, 2]}"#), None);
    assert_eq!(indexed_chapter_count(r#"{"title": "x"}"#), None);
    assert_eq!(indexed_chapter_count("[1, 2, 3]"), None);
    assert_eq!(indexed_chapter_count("not json"), None);
}

#[test]
fn page_links_need_a_page_url() {
    let links = vec!["/manga/a/1".to_string(), "https://x.org/b".to_string()];
    let ok = resolve_links_from("https://site.com/manga/a", &links).unwrap();
    assert_eq!(ok, vec!["https://site.com/manga/a/1".to_string(), "https://x.org/b".to_string()]);
    assert!(resolve_links_from("not a url", &links).is_err());
}

#[test]
fn application_files_keep_their_names() {
    if let Ok(p) = get_database_path() {
        assert_eq!(p.file_name().and_then(|n| n.to_str()), Some("app.db"));
    }
    if let Ok(p) = get_logs_path() {
        assert_eq!(p.file_name().and_then(|n| n.to_str()), Some("logs"));
    }
    if let Ok(p) = library_override_file() {
        assert_eq!(p.file_name().and_then(|n| n.to_str()), Some("library_path.txt"));
    }
}

#[test]
fn all_sample_records_are_listed() {
    let v = sample_manga();
    let ids: Vec<&str> = v.iter().map(|m| m.id.as_str()).collect();
    assert_eq!(ids, vec![
        "manga_001", "manga_002", "manga_003", "manga_004", "manga_005", "manga_006", "manga_007", "manga_008",
        "manga_009", "manga_010",
    ]);
    assert_eq!(v[1].title, "Naruto");
    assert_eq!(v[1].chapters, 700);
    assert_eq!(v[6].source_id, "unionmangas");
}

#[test]
fn jar_candidates_start_in_the_working_folder() {
    let c = kotatsu_jar_candidates(
        Some("/opt/k.jar".to_string()),
        Some("/work/app".to_string()),
        None,
        Some("/data".to_string()),
        false,
    );
    assert_eq!(c[0], "/opt/k.jar");
    assert!(c[1].starts_with("/work/app") && c[1].ends_with("kotatsu-dl.jar"));
    assert!(c[2].starts_with("/work/app") && c[2].ends_with("kotatsu-dl-0.8/kotatsu-dl.jar"));
    let n = c.len();
    assert!(c[n - 3].starts_with("/data") && c[n - 3].ends_with("kotatsu-dl.jar"));
    assert!(c[n - 2].starts_with("/data") && c[n - 2].contains("tools"));
    assert!(c[n - 1].starts_with("/data") && c[n - 1].contains("bin"));
}

#[test]
fn normalized_urls_stay_normalized() {
    let once = WebScraper::normalize_image_url("  //cdn.x/a.jpg ");
    assert_eq!(once, "https://cdn.x/a.jpg");
    assert_eq!(WebScraper::normalize_image_url(&once), once);
}

#[test]
fn application_folders_use_its_identity() {
    assert_eq!(app_identity(), ("com", "firescan", "firescan"));
}

#[test]
fn mangalivre_chapters_are_skipped_or_fetched() {
    assert!(matches!(mangalivre_chapter_start(true, 5), ChapterStart::Blocked));
    assert!(matches!(mangalivre_chapter_start(false, 0), ChapterStart::Empty));
    assert!(matches!(mangalivre_chapter_start(false, 3), ChapterStart::Fetch));
    assert_eq!(mangalivre_chapter_end(4, 3, "cbz"), (7, true));
    assert_eq!(mangalivre_chapter_end(4, 0, "cbz"), (4, false));
    assert_eq!(mangalivre_chapter_end(4, 3, "images"), (7, false));
}

#[test]
fn downloads_fail_when_nothing_was_found_or_saved() {
    assert_eq!(nonempty_or(2, "No chapter links found on Niadd page"), Ok(()));
    assert_eq!(
        nonempty_or(0, "No chapter links found on Niadd page"),
        Err("No chapter links found on Niadd page".to_string())
    );
    assert_eq!(download_outcome(3, 2), Ok(()));
    assert_eq!(
        download_outcome(0, 2),
        Err("No pages were downloaded from MangaLivre (2 selected chapters)".to_string())
    );
}

#[test]
fn runs_start_running_and_end_settled() {
    let mut reg = DownloadRegistry::new();
    let id = "d1".to_string();
    reg.insert(id.clone(), DownloadEntry::running("/lib/x".to_string()));
    let e = reg.get(&id).unwrap();
    assert_eq!(e.status.as_deref(), Some("running"));
    assert_eq!(e.progress, Some(0));
    reg.update(&id, DownloadEntry::finished(false));
    let e = reg.get(&id).unwrap();
    assert_eq!(e.status.as_deref(), Some("failed"));
    assert_eq!(e.progress, Some(100));
    assert_eq!(e.dest.as_deref(), Some("/lib/x"));
    reg.update(&id, DownloadEntry::completed("/lib/x".to_string(), Some("x".to_string()), None));
    assert_eq!(reg.get(&id).unwrap().status.as_deref(), Some("completed"));
    let f = DownloadEntry::failure("boom".to_string());
    assert_eq!(f.status.as_deref(), Some("error"));
    assert_eq!(f.error.as_deref(), Some("boom"));
}

#[test]
fn folders_climb_to_the_root() {
    assert_eq!(ancestors("/a/b/c", 5), vec!["/a/b/c", "/a/b", "/a", "/"]);
    assert_eq!(ancestors("a/b", 5), vec!["a/b", "a", ""]);
    assert_eq!(ancestors("/a/b/c/d/e/f", 5).len(), 5);
}

#[test]
fn jar_candidates_search_the_program_folder_after_the_working_folder() {
    let c = kotatsu_jar_candidates(None, Some("/w".to_string()), Some("/opt/app/bin/fire".to_string()), None, false);
    assert_eq!(c.len(), 2 * 2 + 2 * 4 + 2);
    assert!(c[0].starts_with("/w") && c[0].ends_with("kotatsu-dl.jar"));
    assert!(c[4].starts_with("/opt/app/bin") && c[4].ends_with("kotatsu-dl.jar"));
    assert!(c[5].starts_with("/opt/app/bin") && c[5].ends_with("kotatsu-dl-0.8/kotatsu-dl.jar"));
    assert!(c[6].starts_with("/opt/app") && !c[6].starts_with("/opt/app/bin"));
    assert_eq!(c[12], "kotatsu-dl.jar");
}

#[test]
fn blocked_manga_pages_stop_the_download() {
    assert_eq!(mangalivre_manga_page_check("<html><body>Chapters</body></html>"), Ok(()));
    assert_eq!(
        mangalivre_manga_page_check("<title>Attention Required! | Cloudflare</title>"),
        Err("MangaLivre blocked the manga page request (Cloudflare/anti-bot)".to_string())
    );
}

#[test]
fn trimming_follows_the_white_space_property() {
    use_trim("\u{3000} x \u{85}\u{2009}");
    use_trim("\t\r\n y\u{a0}");
    use_trim("\u{200b}z");
}

fn use_trim(s: &str) {
    assert_eq!(firescan::search::trimmed_text(s), s.trim());
}
