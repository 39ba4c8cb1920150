use firescan::registry::{DownloadEntry, DownloadRegistry};
use firescan::tools::{
    attempted_message, chapter_empty_message, chapter_page_message, direct_fetch_step, jar_missing_message,
    kotatsu_jar_candidates, no_pages_message, sample_manga, sample_path, sample_source_name_of, sample_synopsis,
    validate_library_path, FetchStep,
};

#[test]
fn jar_candidates_keep_their_order() {
    let c = kotatsu_jar_candidates(Some("/opt/k.jar".to_string()), None, None, None, false);
    assert_eq!(c, vec!["/opt/k.jar", "kotatsu-dl.jar", "kotatsu-dl-0.8/kotatsu-dl.jar"]);
    let w = kotatsu_jar_candidates(None, None, None, Some("/data".to_string()), true);
    assert_eq!(w.len(), 8);
    assert_eq!(w[0], "kotatsu-dl.jar");
    assert_eq!(w[7], "C:\\Users\\combo\\Documents\\projetos\\FireScan\\kotatsu-dl-0.8\\build\\libs\\kotatsu-dl.jar");
    let d = kotatsu_jar_candidates(None, Some("/a/b".to_string()), None, None, false);
    assert_eq!(d.len(), 3 * 2 + 2);
    assert!(d[0].ends_with("kotatsu-dl.jar"));
    assert!(jar_missing_message().starts_with("kotatsu-dl.jar not found."));
}

#[test]
fn direct_fetches_fall_back_to_the_mirror_on_forbidden() {
    assert!(matches!(direct_fetch_step(true, true, 200), FetchStep::UsePage));
    assert!(matches!(direct_fetch_step(true, false, 403), FetchStep::TryMirror));
    assert!(matches!(direct_fetch_step(true, false, 500), FetchStep::Fail));
    assert!(matches!(direct_fetch_step(false, false, 0), FetchStep::TryMirror));
}

#[test]
fn downloader_messages() {
    assert_eq!(attempted_message("003.jpg"), "Attempted 003.jpg");
    assert_eq!(chapter_page_message("10.5", 4), "Chapter 10.5 page 4");
    assert_eq!(chapter_empty_message("2"), "Chapter 2 has no pages");
    assert_eq!(no_pages_message(3), "No pages were downloaded from MangaLivre (3 selected chapters)");
}

#[test]
fn library_folders_must_not_be_blank() {
    assert_eq!(validate_library_path("  /media/mangas "), Ok("/media/mangas".to_string()));
    assert_eq!(validate_library_path("   "), Err("Library path cannot be empty".to_string()));
}

#[test]
fn sample_data_for_the_interface() {
    let s = sample_manga();
    assert_eq!(s.len(), 10);
    assert_eq!(s[2].title, "One Piece");
    assert_eq!(s[2].chapters, 1100);
    assert_eq!(sample_source_name_of("unionmangas"), "Union Mangás");
    assert_eq!(sample_source_name_of("other"), "Local");
    assert_eq!(sample_synopsis("Bleach"), "A popular manga series: Bleach");
    assert_eq!(sample_path("Bleach"), "/library/Bleach");
}

#[test]
fn merging_a_status_update_twice_changes_nothing_more() {
    let mut reg = DownloadRegistry::new();
    let id = "x".to_string();
    reg.insert(id.clone(), DownloadEntry::empty());
    let mut p = DownloadEntry::empty();
    p.progress = Some(7);
    p.status = Some("running".to_string());
    reg.update(&id, p.duplicate());
    let once = reg.get(&id).unwrap();
    reg.update(&id, p);
    let twice = reg.get(&id).unwrap();
    assert_eq!(once.progress, twice.progress);
    assert_eq!(once.status, twice.status);
    assert_eq!(twice.dest, None);
}
