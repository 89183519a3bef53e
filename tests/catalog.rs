use museum::backup_manager::BackupManager;
use museum::error::BackupError;
use museum::music_backup_entry::MusicBackupEntry;
use museum::music_backuper::{Admission, ArtistListing, DirItem, MusicBackuper};
use museum::review::{parse_command, start, step, ReviewAction, ReviewCommand, ReviewState};
use museum::text::{starts_with_text, text_less};

fn item(name: &str, is_dir: bool) -> DirItem {
    DirItem { name: name.to_string(), is_dir }
}

fn artist(name: &str, is_dir: bool, albums: Vec<DirItem>) -> ArtistListing {
    ArtistListing { name: name.to_string(), is_dir, albums }
}

fn sample_tree() -> Vec<ArtistListing> {
    vec![
        artist(
            "Bach",
            true,
            vec![item("Cello Suites", true), item("Goldberg", true), item("notes.txt", false)],
        ),
        artist("Chopin", true, vec![item("Nocturnes", true)]),
    ]
}

fn entry(id: usize, artist: &str, albums: &[&str], downloaded: bool) -> MusicBackupEntry {
    MusicBackupEntry {
        id,
        artist: artist.to_string(),
        albums: albums.iter().map(|a| a.to_string()).collect(),
        downloaded,
    }
}

fn crawl(ignore: &[&str], tree: &Vec<ArtistListing>) -> Vec<MusicBackupEntry> {
    let mut b = MusicBackuper::new(
        "/music".to_string(),
        "/backup/music.json".to_string(),
        ignore.iter().map(|s| s.to_string()).collect(),
    );
    b.backup(tree);
    b.get_backup().iter().map(|e| e.copy()).collect()
}

fn same(e: &MusicBackupEntry, id: usize, artist: &str, albums: &[&str], downloaded: bool) -> bool {
    e.id == id
        && e.artist == artist
        && e.albums.iter().map(|a| a.as_str()).collect::<Vec<_>>() == albums
        && e.downloaded == downloaded
}

fn manager(entries: Vec<MusicBackupEntry>) -> BackupManager {
    match BackupManager::new("/backup/music.json".to_string(), entries) {
        Ok(m) => m,
        Err(_) => panic!("ids should be unique"),
    }
}

fn catalog() -> Vec<MusicBackupEntry> {
    vec![
        entry(0, "Chopin", &["Nocturnes"], false),
        entry(1, "Bach", &["Cello Suites", "Goldberg"], false),
        entry(2, "Brahms", &[], true),
        entry(3, "bach", &["Partitas"], false),
    ]
}

#[test]
fn crawl_two_artists_skips_stray_file() {
    let c = crawl(&[], &sample_tree());
    assert_eq!(c.len(), 2);
    assert!(same(&c[0], 0, "Bach", &["Cello Suites", "Goldberg"], false));
    assert!(same(&c[1], 1, "Chopin", &["Nocturnes"], false));
}

#[test]
fn crawl_ignoring_artist_keeps_the_rest() {
    let c = crawl(&["Chopin"], &sample_tree());
    assert_eq!(c.len(), 1);
    assert!(same(&c[0], 0, "Bach", &["Cello Suites", "Goldberg"], false));
}

#[test]
fn crawl_ignoring_album_removes_it_only() {
    let c = crawl(&["Goldberg"], &sample_tree());
    assert_eq!(c.len(), 2);
    assert!(same(&c[0], 0, "Bach", &["Cello Suites"], false));
    assert!(same(&c[1], 1, "Chopin", &["Nocturnes"], false));
}

#[test]
fn crawl_skips_file_at_artist_level_and_keeps_empty_artist() {
    let tree = vec![
        artist("readme.md", false, vec![]),
        artist("Satie", true, vec![]),
        artist("Liszt", true, vec![item("Etudes", true)]),
    ];
    let c = crawl(&[], &tree);
    assert_eq!(c.len(), 2);
    assert!(same(&c[0], 0, "Satie", &[], false));
    assert!(same(&c[1], 1, "Liszt", &["Etudes"], false));
}

#[test]
fn crawl_of_empty_root_is_empty() {
    assert!(crawl(&["x"], &vec![]).is_empty());
}

#[test]
fn crawl_ids_continue_across_calls() {
    let mut b = MusicBackuper::new("/m".to_string(), "/s.json".to_string(), vec![]);
    b.backup(&vec![artist("A", true, vec![])]);
    b.backup(&vec![artist("B", true, vec![])]);
    assert_eq!(b.get_backup()[1].id, 1);
    assert_eq!(b.path(), "/m");
    assert_eq!(b.save_path(), "/s.json");
}

#[test]
fn admission_checks_ignore_before_kind() {
    let b = MusicBackuper::new("/m".to_string(), "/s.json".to_string(), vec!["x".to_string()]);
    assert_eq!(b.ignore_if_needed(&"x".to_string(), false), Admission::Ignore);
    assert_eq!(b.ignore_if_needed(&"x".to_string(), true), Admission::Ignore);
    assert_eq!(b.ignore_if_needed(&"y".to_string(), false), Admission::SkipNotDirectory);
    assert_eq!(b.ignore_if_needed(&"y".to_string(), true), Admission::Accept);
}

#[test]
fn duplicate_ids_are_refused() {
    let r = BackupManager::new(
        "/b.json".to_string(),
        vec![entry(4, "A", &[], false), entry(4, "B", &[], false)],
    );
    assert!(matches!(r, Err(BackupError::Parse(_))));
}

#[test]
fn new_keeps_entries_and_path() {
    let m = manager(catalog());
    assert_eq!(m.path(), "/backup/music.json");
    assert_eq!(m.get_backup().len(), 4);
    assert!(same(&m.get_backup()[2], 2, "Brahms", &[], true));
}

#[test]
fn find_is_exact_and_case_sensitive() {
    let m = manager(catalog());
    let f = m.find("Bach".to_string());
    assert_eq!(f.len(), 1);
    assert_eq!(f[0].id, 1);
    assert!(m.find("Bac".to_string()).is_empty());
    assert!(m.find("Mozart".to_string()).is_empty());
    assert_eq!(m.find("bach".to_string())[0].id, 3);
}

#[test]
fn find_returns_every_match_in_order() {
    let m = manager(vec![entry(7, "A", &[], false), entry(2, "B", &[], false), entry(5, "A", &[], true)]);
    let f = m.find("A".to_string());
    assert_eq!(f.iter().map(|e| e.id).collect::<Vec<_>>(), vec![7, 5]);
}

#[test]
fn toggle_flips_only_target_and_twice_restores() {
    let mut m = manager(catalog());
    m.toggle_downloaded(1);
    let flags: Vec<bool> = m.get_backup().iter().map(|e| e.downloaded).collect();
    assert_eq!(flags, vec![false, true, true, false]);
    m.toggle_downloaded(1);
    let flags: Vec<bool> = m.get_backup().iter().map(|e| e.downloaded).collect();
    assert_eq!(flags, vec![false, false, true, false]);
}

#[test]
fn toggle_unknown_id_changes_nothing() {
    let mut m = manager(catalog());
    m.toggle_downloaded(99);
    let flags: Vec<bool> = m.get_backup().iter().map(|e| e.downloaded).collect();
    assert_eq!(flags, vec![false, false, true, false]);
}

#[test]
fn toggle_then_reload_keeps_flag() {
    let mut m = manager(crawl(&[], &sample_tree()));
    let bach = m.find("Bach".to_string())[0].id;
    m.toggle_downloaded(bach);
    let saved: Vec<MusicBackupEntry> = m.get_backup().iter().map(|e| e.copy()).collect();
    let reloaded = manager(saved);
    assert!(reloaded.find("Bach".to_string())[0].downloaded);
    assert!(!reloaded.find("Chopin".to_string())[0].downloaded);
    assert!(same(&reloaded.find("Chopin".to_string())[0], 1, "Chopin", &["Nocturnes"], false));
}

fn artists(v: &[MusicBackupEntry]) -> Vec<String> {
    v.iter().map(|e| e.artist.clone()).collect()
}

#[test]
fn list_queued_without_prefix_sorts_all() {
    let m = manager(catalog());
    assert_eq!(artists(&m.list_queued(None)), vec!["Bach", "Brahms", "Chopin", "bach"]);
}

#[test]
fn list_queued_with_prefix_starts_at_first_match() {
    let m = manager(catalog());
    assert_eq!(artists(&m.list_queued(Some("Br".to_string()))), vec!["Brahms", "Chopin", "bach"]);
    assert_eq!(artists(&m.list_queued(Some("B".to_string()))), vec!["Bach", "Brahms", "Chopin", "bach"]);
}

#[test]
fn list_queued_with_unmatched_prefix_keeps_all() {
    let m = manager(catalog());
    assert_eq!(artists(&m.list_queued(Some("Z".to_string()))), vec!["Bach", "Brahms", "Chopin", "bach"]);
}

#[test]
fn list_queued_keeps_order_of_equal_artists() {
    let m = manager(vec![entry(3, "B", &[], false), entry(1, "A", &[], false), entry(2, "B", &[], false)]);
    let q = m.list_queued(None);
    assert_eq!(q.iter().map(|e| e.id).collect::<Vec<_>>(), vec![1, 3, 2]);
}

#[test]
fn list_queued_of_empty_catalog_is_empty() {
    let m = manager(vec![]);
    assert!(m.list_queued(Some("A".to_string())).is_empty());
}

#[test]
fn text_order_is_ordinal() {
    assert!(text_less("Bach", "bach"));
    assert!(text_less("Bac", "Bach"));
    assert!(!text_less("Bach", "Bach"));
    assert!(!text_less("b", "B"));
    assert!(text_less("", "a"));
    assert!(text_less("Zoë", "Zoëa"));
    assert!(starts_with_text("Brahms", "Br"));
    assert!(starts_with_text("Brahms", ""));
    assert!(!starts_with_text("Br", "Brahms"));
    assert!(!starts_with_text("Brahms", "br"));
}

#[test]
fn review_commands() {
    assert_eq!(parse_command("n"), ReviewCommand::Next);
    assert_eq!(parse_command("t"), ReviewCommand::Toggle);
    assert_eq!(parse_command("q"), ReviewCommand::Quit);
    assert_eq!(parse_command("x"), ReviewCommand::Unknown);
    assert_eq!(parse_command("nn"), ReviewCommand::Unknown);
    assert_eq!(parse_command(""), ReviewCommand::Unknown);
}

#[test]
fn review_walks_queue() {
    assert_eq!(start(0), (ReviewState::Done, ReviewAction::Finish));
    let (s, a) = start(2);
    assert_eq!((s, a), (ReviewState::Presenting(0), ReviewAction::Present(0)));
    assert_eq!(step(s, ReviewCommand::Toggle, 2), (ReviewState::Presenting(0), ReviewAction::ToggleAndPresent(0)));
    assert_eq!(step(s, ReviewCommand::Unknown, 2), (ReviewState::Presenting(0), ReviewAction::Reject(0)));
    let (s, a) = step(s, ReviewCommand::Next, 2);
    assert_eq!((s, a), (ReviewState::Presenting(1), ReviewAction::Present(1)));
    assert_eq!(step(s, ReviewCommand::Next, 2), (ReviewState::Done, ReviewAction::Finish));
    assert_eq!(step(ReviewState::Presenting(0), ReviewCommand::Quit, 2), (ReviewState::Done, ReviewAction::Finish));
    assert_eq!(step(ReviewState::Done, ReviewCommand::Next, 2), (ReviewState::Done, ReviewAction::Finish));
}
