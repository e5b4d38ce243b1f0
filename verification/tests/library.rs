use folderplay::deep_scan::{DeepScan, FolderState};
use folderplay::library_db::{DbError, LibraryDB};
use folderplay::scan::{DirEntryInfo, DirListing, EntryKind};

fn entry(folder: &str, name: &str, kind: EntryKind, mtime: i64) -> DirEntryInfo {
    DirEntryInfo { name: name.to_string(), path: format!("{folder}/{name}"), kind, mtime }
}

fn listing(folder: &str, mtime: i64, dirs: &[&str], files: &[&str]) -> DirListing {
    let mut entries = Vec::new();
    for f in files {
        entries.push(entry(folder, f, EntryKind::File, 5_000_000_000));
    }
    for d in dirs {
        entries.push(entry(folder, d, EntryKind::Folder, 0));
    }
    DirListing { mtime, entries }
}

fn strings(v: &[&str]) -> Vec<String> {
    v.iter().map(|s| s.to_string()).collect()
}

fn memory() -> LibraryDB {
    LibraryDB::new(":memory:").unwrap()
}

fn song_names(db: &mut LibraryDB, folder: &str) -> Vec<String> {
    db.get_folder_songs(folder).unwrap().iter().map(|s| s.name.clone()).collect()
}

#[test]
fn a_file_that_cannot_be_opened_is_an_error() {
    let r = LibraryDB::new("/no/such/folder/library.db");
    assert_eq!(r.err(), Some(DbError::Open));
}

#[test]
fn tables_that_cannot_be_made_are_an_error() {
    let uri = "file:broken_tables?mode=memory&cache=shared";
    let other = rusqlite::Connection::open(uri).unwrap();
    other.execute_batch("CREATE VIEW songs AS SELECT 1 AS folder;").unwrap();
    let r = LibraryDB::new(uri);
    assert_eq!(r.err(), Some(DbError::Schema));
}

#[test]
fn a_query_that_fails_is_an_error() {
    let uri = "file:failing_query?mode=memory&cache=shared";
    let mut db = LibraryDB::new(uri).unwrap();
    let other = rusqlite::Connection::open(uri).unwrap();
    other.execute_batch("DROP TABLE song_covers; DROP TABLE songs;").unwrap();
    assert_eq!(db.get_folder_songs("/m").err(), Some(DbError::Query));
    assert_eq!(db.get_playlist(&strings(&["/m"]), None).err(), Some(DbError::Query));
    assert_eq!(db.get_unscanned_songs(&strings(&["/m"]), 5).err(), Some(DbError::Query));
    assert_eq!(db.search_songs(&strings(&["a"]), &strings(&["/m"])).err(), Some(DbError::Query));
    assert_eq!(db.get_song_covers_for_folder("/m").err(), Some(DbError::Query));
    assert_eq!(db.count_songs(&strings(&["/m"])), 0);
    let dir = listing("/m", 1, &[], &["a.mp3"]);
    assert_eq!(db.scan_folder("/m", None, Some(&dir), 0).err(), Some(DbError::Query));
    other.execute_batch("DROP TABLE covers; DROP TABLE folders;").unwrap();
    assert_eq!(db.get_folder_children("/m").err(), Some(DbError::Query));
    assert_eq!(db.remove_root("/m").err(), Some(DbError::Query));
    assert_eq!(db.build_folder_items("/m", false).err(), Some(DbError::Query));
}

#[test]
fn tables_of_another_version_are_dropped() {
    let uri = "file:other_version?mode=memory&cache=shared";
    let mut db = LibraryDB::new(uri).unwrap();
    let dir = listing("/m", 1, &[], &["a.mp3"]);
    db.scan_folder("/m", None, Some(&dir), 0).unwrap();
    let mut same = LibraryDB::new(uri).unwrap();
    assert_eq!(same.count_songs(&strings(&["/m"])), 1);
    let other = rusqlite::Connection::open(uri).unwrap();
    other.execute_batch("UPDATE db_meta SET value='2' WHERE key='version'").unwrap();
    let mut fresh = LibraryDB::new(uri).unwrap();
    assert_eq!(fresh.count_songs(&strings(&["/m"])), 0);
    let version: String = other
        .query_row("SELECT value FROM db_meta WHERE key='version'", [], |r| r.get(0))
        .unwrap();
    assert_eq!(version, "3");
}

#[test]
fn a_scan_finds_what_lies_in_a_folder() {
    let mut db = memory();
    let mut dir = listing(
        "/m",
        7_000_000_000,
        &["Zoo", "album", ".git"],
        &["b.MP3", "A.flac", "notes.txt", ".x.mp3", "noext"],
    );
    dir.entries.push(entry("/m", "link.mp3", EntryKind::Other, 0));
    dir.entries.push(entry("/m", "odd.mp3", EntryKind::Unknown, 0));
    let (subs, songs) = db.scan_folder("/m", None, Some(&dir), 9).unwrap();
    let names: Vec<String> = subs.iter().map(|f| f.name.clone()).collect();
    assert_eq!(names, strings(&["album", "Zoo"]));
    assert!(subs.iter().all(|f| !f.has_audio));
    let found: Vec<(String, String, String)> =
        songs.iter().map(|s| (s.name.clone(), s.title.clone(), s.format_type.clone())).collect();
    assert_eq!(
        found,
        vec![
            ("A.flac".to_string(), "A".to_string(), "FLAC".to_string()),
            ("b.MP3".to_string(), "b".to_string(), "MP3".to_string()),
        ]
    );
    let kept = db.get_folder_songs("/m").unwrap();
    assert_eq!(kept.len(), 2);
    assert_eq!(kept[0].path, "/m/A.flac");
    assert_eq!(kept[0].folder, "/m");
    assert_eq!(kept[0].title, "A");
    assert_eq!(kept[0].format_type, "FLAC");
    assert!(!kept[0].meta_scanned);
    let children = db.get_folder_children("/m").unwrap();
    let paths: Vec<String> = children.iter().map(|f| f.path.clone()).collect();
    assert_eq!(paths, strings(&["/m/album", "/m/Zoo"]));
}

#[test]
fn a_folder_that_cannot_be_read_is_left_alone() {
    let mut db = memory();
    let (subs, songs) = db.scan_folder("/m", None, None, 9).unwrap();
    assert!(subs.is_empty());
    assert!(songs.is_empty());
    assert!(db.folder_needs_rescan("/m", Some(0)));
}

#[test]
fn a_scanned_folder_needs_no_scan_until_it_changes() {
    let mut db = memory();
    let mtime: i64 = 1_700_000_000_123_456_789;
    assert!(db.folder_needs_rescan("/m", Some(mtime)));
    let dir = listing("/m", mtime, &[], &["a.mp3"]);
    db.scan_folder("/m", None, Some(&dir), mtime).unwrap();
    assert!(!db.folder_needs_rescan("/m", Some(mtime)));
    assert!(!db.folder_needs_rescan("/m", Some(mtime + 900_000)));
    assert!(db.folder_needs_rescan("/m", Some(mtime + 2_000_000)));
    assert!(db.folder_needs_rescan("/m", Some(mtime - 2_000_000)));
    assert!(db.folder_needs_rescan("/m", None));
}

#[test]
fn songs_that_did_not_change_keep_their_metadata() {
    let mut db = memory();
    let dir = listing("/m", 1, &[], &["a.mp3", "b.mp3"]);
    db.scan_folder("/m", None, Some(&dir), 0).unwrap();
    db.update_song_metadata("/m/a.mp3", "T", "Ar", "Al", "1999", 320, 44100, 16, 245_700_000_000);
    db.update_song_metadata("/m/b.mp3", "U", "Ar", "Al", "1999", 320, 44100, 16, 1_000_000_000);
    let mut again = listing("/m", 1, &[], &["a.mp3", "b.mp3"]);
    again.entries[1].mtime += 1_000_000_000;
    db.scan_folder("/m", None, Some(&again), 0).unwrap();
    let songs = db.get_folder_songs("/m").unwrap();
    assert_eq!(songs[0].title, "T");
    assert_eq!(songs[0].artist, "Ar");
    assert_eq!(songs[0].album, "Al");
    assert_eq!(songs[0].year, "1999");
    assert_eq!(songs[0].bitrate, 320);
    assert_eq!(songs[0].sample_rate, 44100);
    assert_eq!(songs[0].bits_per_sample, 16);
    assert_eq!(songs[0].duration, 245_700_000_000);
    assert!(songs[0].meta_scanned);
    assert_eq!(songs[1].title, "b");
    assert!(!songs[1].meta_scanned);
    assert_eq!(db.get_unscanned_songs(&strings(&["/m"]), 10).unwrap(), strings(&["/m/b.mp3"]));
}

#[test]
fn what_is_gone_from_disk_is_taken_out() {
    let mut db = memory();
    let dir = listing("/m", 1, &["s", "t"], &["a.mp3", "b.mp3"]);
    db.scan_folder("/m", None, Some(&dir), 0).unwrap();
    let sub = listing("/m/s", 1, &["deep"], &["c.mp3"]);
    db.scan_folder("/m/s", Some("/m"), Some(&sub), 0).unwrap();
    let deep = listing("/m/s/deep", 1, &[], &["d.mp3"]);
    db.scan_folder("/m/s/deep", Some("/m/s"), Some(&deep), 0).unwrap();
    db.set_song_cover("/m/s/deep/d.mp3", &vec![1]);
    db.set_cover("/m/s/deep", &vec![2], "embedded");
    assert_eq!(db.count_songs(&strings(&["/m"])), 4);
    let less = listing("/m", 1, &["t"], &["b.mp3"]);
    db.scan_folder("/m", None, Some(&less), 0).unwrap();
    assert_eq!(song_names(&mut db, "/m"), strings(&["b.mp3"]));
    assert_eq!(db.count_songs(&strings(&["/m"])), 1);
    assert_eq!(db.get_folder_children("/m/s").unwrap().len(), 0);
    assert_eq!(db.get_song_cover("/m/s/deep/d.mp3"), None);
    assert!(!db.has_cover("/m/s/deep"));
}

fn walk(db: &mut LibraryDB, root: &str, report: bool) -> (Vec<String>, Vec<Option<u32>>) {
    let mut scan = DeepScan::new(root, None);
    let mut visited = Vec::new();
    let mut reports = Vec::new();
    while let Some(path) = scan.next_folder() {
        let state = match path.as_str() {
            "/m" => FolderState::Listed(listing("/m", 1, &["b", "a", "locked"], &["r.mp3"])),
            "/m/a" => FolderState::Listed(listing("/m/a", 1, &["deep"], &[])),
            "/m/a/deep" => FolderState::Listed(listing("/m/a/deep", 1, &[], &["x.mp3", "y.ogg"])),
            "/m/b" => FolderState::Listed(listing("/m/b", 1, &[], &["cover.jpg"])),
            "/m/locked" => FolderState::Unreadable,
            _ => FolderState::Missing,
        };
        visited.push(path);
        if report {
            reports.push(db.scan_folder_deep_with_progress(&mut scan, &state, 0).unwrap());
        } else {
            db.scan_folder_deep(&mut scan, &state, 0).unwrap();
        }
    }
    assert_eq!(scan.next_folder(), None);
    if report {
        assert_eq!(db.scan_folder_deep_with_progress(&mut scan, &FolderState::Missing, 0), Ok(None));
    }
    (visited, reports)
}

#[test]
fn a_deep_scan_goes_through_all_folders() {
    let mut db = memory();
    let (visited, reports) = walk(&mut db, "/m", true);
    assert_eq!(visited, strings(&["/m", "/m/a", "/m/a/deep", "/m/b", "/m/locked"]));
    assert_eq!(reports, vec![Some(1), Some(1), Some(3), Some(3), Some(3)]);
    let mut quiet = memory();
    let (again, _) = walk(&mut quiet, "/m", false);
    assert_eq!(again, visited);
    let (nothing, told) = walk(&mut quiet, "/none", true);
    assert_eq!(nothing, strings(&["/none"]));
    assert_eq!(told, vec![None]);
}

#[test]
fn folders_are_flagged_where_sound_lies_below() {
    let mut db = memory();
    walk(&mut db, "/m", false);
    let flags: Vec<(String, bool)> = db
        .get_folder_children("/m")
        .unwrap()
        .iter()
        .map(|f| (f.name.clone(), f.has_audio))
        .collect();
    assert_eq!(
        flags,
        vec![
            ("a".to_string(), true),
            ("b".to_string(), false),
            ("locked".to_string(), false),
        ]
    );
    let dir = listing("/m/a/deep", 2, &[], &[]);
    db.scan_folder("/m/a/deep", Some("/m/a"), Some(&dir), 0).unwrap();
    db.update_has_audio_for_folder("/m/a/deep");
    db.update_has_audio_for_folder("/m/a");
    assert!(db.get_folder_children("/m").unwrap().iter().all(|f| !f.has_audio));
}

#[test]
fn a_root_goes_with_all_below_it() {
    let mut db = memory();
    walk(&mut db, "/m", false);
    let other = listing("/n", 1, &[], &["z.mp3"]);
    db.scan_folder("/n", None, Some(&other), 0).unwrap();
    db.set_cover("/m/a/deep", &vec![9], "discovered");
    db.remove_root("/m").unwrap();
    assert_eq!(db.count_songs(&strings(&["/m"])), 0);
    assert!(db.folder_needs_rescan("/m/a/deep", Some(1)));
    assert!(!db.has_cover("/m/a/deep"));
    assert_eq!(db.count_songs(&strings(&["/n"])), 1);
    db.clear_all();
    assert_eq!(db.count_songs(&strings(&["/n"])), 0);
    assert!(db.folder_needs_rescan("/n", Some(1)));
}

#[test]
fn playlists_by_root_and_artist() {
    let mut db = memory();
    let dir = listing("/m", 1, &[], &["B.mp3", "a.mp3"]);
    db.scan_folder("/m", None, Some(&dir), 0).unwrap();
    let sub = listing("/m/s", 1, &[], &["c.mp3"]);
    db.scan_folder("/m/s", Some("/m"), Some(&sub), 0).unwrap();
    let near = listing("/mx", 1, &[], &["d.mp3"]);
    db.scan_folder("/mx", None, Some(&near), 0).unwrap();
    assert_eq!(
        db.get_playlist(&strings(&["/m/"]), None).unwrap(),
        strings(&["/m/s/c.mp3"])
    );
    let all = strings(&["/m/a.mp3", "/m/B.mp3", "/m/s/c.mp3"]);
    assert_eq!(db.get_playlist(&strings(&["/m"]), None).unwrap(), all);
    db.update_song_metadata("/m/a.mp3", "t", "Bad Bunny", "", "", 0, 0, 0, 0);
    let rest = strings(&["/m/B.mp3", "/m/s/c.mp3"]);
    assert_eq!(db.get_playlist(&strings(&["/m"]), Some("BAD bunny")).unwrap(), rest);
    assert_eq!(db.get_playlist(&strings(&["/mx", "/m"]), None).unwrap().len(), 4);
    assert_eq!(db.get_playlist(&[], None).unwrap().len(), 0);
}

#[test]
fn songs_are_counted_and_listed_by_root() {
    let mut db = memory();
    let dir = listing("/m", 1, &[], &["a.mp3", "b.mp3", "c.mp3"]);
    db.scan_folder("/m", None, Some(&dir), 0).unwrap();
    let roots = strings(&["/m"]);
    assert_eq!(db.count_songs(&roots), 3);
    assert_eq!(db.count_songs(&[]), 0);
    assert_eq!(db.get_unscanned_songs(&roots, 2).unwrap().len(), 2);
    assert_eq!(db.get_unscanned_songs(&roots, 10).unwrap().len(), 3);
    assert_eq!(db.get_unscanned_songs(&[], 10).unwrap().len(), 0);
}

#[test]
fn songs_are_found_by_words() {
    let mut db = memory();
    let dir = listing("/m", 1, &[], &["one.mp3", "two.mp3"]);
    db.scan_folder("/m", None, Some(&dir), 0).unwrap();
    db.update_song_metadata("/m/one.mp3", "Blue Moon", "Ella", "Best", "", 0, 0, 0, 0);
    db.update_song_metadata("/m/two.mp3", "Blue Sky", "Allman", "Eat", "", 0, 0, 0, 0);
    let roots = strings(&["/m"]);
    let names = |v: Vec<folderplay::records::SongRecord>| -> Vec<String> {
        v.iter().map(|s| s.title.clone()).collect()
    };
    assert_eq!(
        names(db.search_songs(&strings(&["blue"]), &roots).unwrap()),
        strings(&["Blue Moon", "Blue Sky"])
    );
    assert_eq!(
        names(db.search_songs(&strings(&["blue", "ella"]), &roots).unwrap()),
        strings(&["Blue Moon"])
    );
    assert_eq!(names(db.search_songs(&strings(&["two"]), &roots).unwrap()), strings(&["Blue Sky"]));
    assert!(db.search_songs(&strings(&["nothing"]), &roots).unwrap().is_empty());
    assert!(db.search_songs(&[], &roots).unwrap().is_empty());
    assert!(db.search_songs(&strings(&["blue"]), &[]).unwrap().is_empty());
}

#[test]
fn covers_that_were_kept_are_found() {
    let mut db = memory();
    let dir = listing("/m", 1, &[], &["a.mp3", "b.mp3"]);
    db.scan_folder("/m", None, Some(&dir), 0).unwrap();
    assert_eq!(db.get_cover("/m"), None);
    assert!(!db.has_cover("/m"));
    db.mark_no_cover("/m");
    assert!(db.has_cover("/m"));
    assert_eq!(db.get_cover("/m"), None);
    db.set_cover("/m", &vec![1, 2, 3], "discovered");
    assert_eq!(db.get_cover("/m"), Some(vec![1, 2, 3]));
    db.mark_no_cover("/m");
    assert_eq!(db.get_cover("/m"), Some(vec![1, 2, 3]));
    db.set_cover("/m", &vec![], "embedded");
    assert_eq!(db.get_cover("/m"), Some(vec![]));
    db.set_cover("/unknown", &vec![1], "embedded");
    assert_eq!(db.get_cover("/unknown"), None);
}

#[test]
fn song_covers_that_were_kept_are_found() {
    let mut db = memory();
    let dir = listing("/m", 1, &[], &["a.mp3", "b.mp3"]);
    db.scan_folder("/m", None, Some(&dir), 0).unwrap();
    assert_eq!(db.get_first_song_cover_in_folder("/m"), None);
    db.set_song_cover("/m/b.mp3", &vec![7]);
    assert_eq!(db.get_song_cover("/m/b.mp3"), Some(vec![7]));
    assert_eq!(db.get_song_cover("/m/a.mp3"), None);
    assert_eq!(db.get_first_song_cover_in_folder("/m"), Some(vec![7]));
    db.set_song_cover("/m/b.mp3", &vec![8, 9]);
    let covers = db.get_song_covers_for_folder("/m").unwrap();
    assert_eq!(covers.get("/m/b.mp3"), Some(vec![8, 9]));
    assert_eq!(covers.get("/m/a.mp3"), None);
    assert_eq!(db.get_song_covers_for_folder("/n").unwrap().get("/m/b.mp3"), None);
}

#[test]
fn the_first_song_cover_is_that_of_the_first_song_by_name() {
    let mut db = memory();
    let dir = listing("/m", 1, &[], &["c.mp3", "B.mp3", "a.mp3", "b.mp3"]);
    db.scan_folder("/m", None, Some(&dir), 0).unwrap();
    assert_eq!(song_names(&mut db, "/m"), strings(&["a.mp3", "B.mp3", "b.mp3", "c.mp3"]));
    db.set_song_cover("/m/c.mp3", &vec![3]);
    assert_eq!(db.get_first_song_cover_in_folder("/m"), Some(vec![3]));
    db.set_song_cover("/m/b.mp3", &vec![2]);
    assert_eq!(db.get_first_song_cover_in_folder("/m"), Some(vec![2]));
    db.set_song_cover("/m/B.mp3", &vec![1]);
    let first = song_names(&mut db, "/m")
        .iter()
        .find_map(|name| db.get_song_cover(&format!("/m/{name}")));
    assert_eq!(first, Some(vec![1]));
    assert_eq!(db.get_first_song_cover_in_folder("/m"), first);
}

fn dump(conn: &rusqlite::Connection, query: &str) -> Vec<String> {
    let mut stmt = conn.prepare(query).unwrap();
    let n = stmt.column_count();
    let rows = stmt
        .query_map([], |r| {
            let cells: Vec<String> = (0..n)
                .map(|i| format!("{:?}", r.get::<_, rusqlite::types::Value>(i).unwrap()))
                .collect();
            Ok(cells.join("|"))
        })
        .unwrap();
    rows.map(|r| r.unwrap()).collect()
}

#[test]
fn a_second_scan_changes_nothing_but_its_time() {
    let uri = "file:second_scan?mode=memory&cache=shared";
    let mut db = LibraryDB::new(uri).unwrap();
    let raw = rusqlite::Connection::open(uri).unwrap();
    let mtime: i64 = 1_700_000_000_123_456_789;
    let mut dir = listing("/m", mtime, &["sub"], &["a.mp3", "b.mp3"]);
    dir.entries[0].mtime = mtime + 321;
    let first = db.scan_folder("/m", Some("/"), Some(&dir), 1_000_000_000).unwrap();
    db.update_song_metadata("/m/a.mp3", "T", "A", "L", "1999", 1, 2, 3, 4_000_000_000);
    db.set_song_cover("/m/a.mp3", &vec![1]);
    db.set_cover("/m", &vec![2], "discovered");
    let queries = [
        "SELECT path,parent,name,mtime,has_audio FROM folders ORDER BY path",
        "SELECT * FROM songs ORDER BY path",
        "SELECT * FROM covers ORDER BY folder_path",
        "SELECT * FROM song_covers ORDER BY song_path",
        "SELECT path,scanned_at FROM folders WHERE path<>'/m'",
    ];
    let before: Vec<Vec<String>> = queries.iter().map(|q| dump(&raw, q)).collect();
    let second = db.scan_folder("/m", Some("/"), Some(&dir), 2_000_000_000).unwrap();
    let after: Vec<Vec<String>> = queries.iter().map(|q| dump(&raw, q)).collect();
    assert_eq!(before, after);
    assert_eq!(first.0.len(), second.0.len());
    assert_eq!(first.1.len(), second.1.len());
    assert_eq!(dump(&raw, "SELECT scanned_at FROM folders WHERE path='/m'"), vec!["Real(2.0)"]);
}

#[test]
fn a_scan_touches_only_its_folder() {
    let uri = "file:scan_touches?mode=memory&cache=shared";
    let mut db = LibraryDB::new(uri).unwrap();
    let raw = rusqlite::Connection::open(uri).unwrap();
    walk(&mut db, "/m", false);
    db.set_song_cover("/m/r.mp3", &vec![1]);
    db.set_song_cover("/m/a/deep/x.mp3", &vec![2]);
    let dir = listing("/m", 2_000_000_000, &["a"], &["new.mp3"]);
    db.scan_folder("/m", Some("/"), Some(&dir), 3_000_000_000).unwrap();
    assert_eq!(
        dump(&raw, "SELECT path,parent,mtime,has_audio,scanned_at FROM folders ORDER BY path"),
        vec![
            "Text(\"/m\")|Text(\"/\")|Real(2.0)|Integer(1)|Real(3.0)",
            "Text(\"/m/a\")|Text(\"/m\")|Real(1e-9)|Integer(1)|Real(0.0)",
            "Text(\"/m/a/deep\")|Text(\"/m/a\")|Real(1e-9)|Integer(1)|Real(0.0)",
        ]
    );
    assert_eq!(db.get_song_cover("/m/r.mp3"), None);
    assert_eq!(db.get_song_cover("/m/a/deep/x.mp3"), Some(vec![2]));
    assert_eq!(
        db.get_playlist(&strings(&["/m"]), None).unwrap(),
        strings(&["/m/a/deep/x.mp3", "/m/a/deep/y.ogg", "/m/new.mp3"])
    );
}

#[test]
fn covers_of_songs_go_with_their_root() {
    let mut db = memory();
    walk(&mut db, "/m", false);
    let other = listing("/n", 1, &[], &["z.mp3"]);
    db.scan_folder("/n", None, Some(&other), 0).unwrap();
    db.set_song_cover("/m/a/deep/x.mp3", &vec![1]);
    db.set_song_cover("/n/z.mp3", &vec![2]);
    db.remove_root("/m").unwrap();
    assert_eq!(db.get_song_cover("/m/a/deep/x.mp3"), None);
    assert_eq!(db.get_song_cover("/n/z.mp3"), Some(vec![2]));
}

#[test]
fn the_count_is_the_length_of_the_playlist() {
    let mut db = memory();
    walk(&mut db, "/m", false);
    for roots in [
        strings(&["/m"]),
        strings(&["/m", "/m"]),
        strings(&["/m", "/m/a"]),
        strings(&["/m/a"]),
        strings(&["/none"]),
    ] {
        let list = db.get_playlist(&roots, None).unwrap();
        assert_eq!(db.count_songs(&roots) as usize, list.len());
    }
    assert_eq!(db.count_songs(&strings(&["/m", "/m/a", "/m"])), 3);
}

#[test]
fn songs_are_read_until_none_is_left() {
    let mut db = memory();
    walk(&mut db, "/m", false);
    let roots = strings(&["/m"]);
    let mut read = 0;
    loop {
        let batch = db.get_unscanned_songs(&roots, 2).unwrap();
        if batch.is_empty() {
            break;
        }
        for path in &batch {
            db.update_song_metadata(path, "t", "", "", "", 0, 0, 0, 0);
            read += 1;
        }
    }
    assert_eq!(read, 3);
    assert_eq!(db.get_unscanned_songs(&roots, -1).unwrap().len(), 0);
    assert!(db.get_folder_songs("/m/a/deep").unwrap().iter().all(|s| s.meta_scanned));
}

#[test]
fn a_search_gives_the_first_two_hundred_by_title() {
    let mut db = memory();
    let names: Vec<String> = (0..205).map(|i| format!("S{:03}.mp3", 204 - i)).collect();
    let files: Vec<&str> = names.iter().map(|s| s.as_str()).collect();
    let dir = listing("/m", 1, &[], &files);
    db.scan_folder("/m", None, Some(&dir), 0).unwrap();
    let found = db.search_songs(&strings(&["s"]), &strings(&["/m"])).unwrap();
    assert_eq!(found.len(), 200);
    assert_eq!(found[0].title, "S000");
    assert_eq!(found[199].title, "S199");
    let few = db.search_songs(&strings(&["s00"]), &strings(&["/m"])).unwrap();
    assert_eq!(few.len(), 10);
}

#[test]
fn the_covers_of_a_folder_are_those_of_its_songs() {
    let mut db = memory();
    walk(&mut db, "/m", false);
    db.set_song_cover("/m/a/deep/x.mp3", &vec![1]);
    db.set_song_cover("/m/r.mp3", &vec![2]);
    let covers = db.get_song_covers_for_folder("/m/a/deep").unwrap();
    for song in ["/m/a/deep/x.mp3", "/m/a/deep/y.ogg"] {
        assert_eq!(covers.get(song), db.get_song_cover(song));
    }
    assert_eq!(covers.get("/m/r.mp3"), None);
}

#[test]
fn noting_that_there_is_no_cover_leaves_other_covers() {
    let mut db = memory();
    walk(&mut db, "/m", false);
    db.set_cover("/m", &vec![1], "discovered");
    db.mark_no_cover("/m/a");
    assert_eq!(db.get_cover("/m"), Some(vec![1]));
    assert!(!db.has_cover("/m/b"));
}

#[test]
fn setting_one_flag_leaves_the_others() {
    let uri = "file:one_flag?mode=memory&cache=shared";
    let mut db = LibraryDB::new(uri).unwrap();
    let raw = rusqlite::Connection::open(uri).unwrap();
    walk(&mut db, "/m", false);
    raw.execute_batch("UPDATE folders SET has_audio=0").unwrap();
    db.update_has_audio_for_folder("/m/a/deep");
    assert_eq!(
        dump(&raw, "SELECT path FROM folders WHERE has_audio=1"),
        vec!["Text(\"/m/a/deep\")"]
    );
    db.update_has_audio_for_folder("/m/a");
    assert_eq!(
        dump(&raw, "SELECT path FROM folders WHERE has_audio=1 ORDER BY path"),
        vec!["Text(\"/m/a\")", "Text(\"/m/a/deep\")"]
    );
}

#[test]
fn reports_do_not_change_what_a_deep_scan_leaves() {
    let told_uri = "file:deep_told?mode=memory&cache=shared";
    let quiet_uri = "file:deep_quiet?mode=memory&cache=shared";
    let mut told = LibraryDB::new(told_uri).unwrap();
    let mut quiet = LibraryDB::new(quiet_uri).unwrap();
    for db in [&mut told, &mut quiet] {
        let dir = listing("/m", 1, &["old"], &["gone.mp3"]);
        db.scan_folder("/m", None, Some(&dir), 7).unwrap();
        db.set_song_cover("/m/gone.mp3", &vec![1]);
        db.set_cover("/m/old", &vec![2], "discovered");
    }
    walk(&mut told, "/m", true);
    walk(&mut quiet, "/m", false);
    let told_raw = rusqlite::Connection::open(told_uri).unwrap();
    let quiet_raw = rusqlite::Connection::open(quiet_uri).unwrap();
    for query in [
        "SELECT path,parent,name,mtime,has_audio FROM folders ORDER BY path",
        "SELECT * FROM songs ORDER BY path",
        "SELECT * FROM covers ORDER BY folder_path",
        "SELECT * FROM song_covers ORDER BY song_path",
    ] {
        assert_eq!(dump(&told_raw, query), dump(&quiet_raw, query));
    }
    assert_eq!(dump(&told_raw, "SELECT path FROM songs").len(), 3);
    assert_eq!(dump(&told_raw, "SELECT * FROM song_covers").len(), 0);
}

#[test]
fn a_song_known_elsewhere_is_left_alone_by_both_scans() {
    let uri = "file:known_elsewhere?mode=memory&cache=shared";
    let mut db = LibraryDB::new(uri).unwrap();
    let raw = rusqlite::Connection::open(uri).unwrap();
    let other = listing("/n", 1, &[], &[]);
    db.scan_folder("/n", None, Some(&other), 0).unwrap();
    raw.execute_batch(
        "INSERT INTO songs (path,folder,name,title,mtime) VALUES ('/m/a.mp3','/n','x','y',5.0)",
    )
    .unwrap();
    let dir = listing("/m", 1, &[], &["a.mp3"]);
    db.scan_folder("/m", None, Some(&dir), 0).unwrap();
    let first = dump(&raw, "SELECT * FROM songs");
    assert_eq!(dump(&raw, "SELECT folder,title FROM songs"), vec!["Text(\"/n\")|Text(\"y\")"]);
    db.scan_folder("/m", None, Some(&dir), 0).unwrap();
    assert_eq!(dump(&raw, "SELECT * FROM songs"), first);
}

#[test]
fn words_and_roots_take_no_notice_of_case() {
    let mut db = memory();
    let dir = listing("/Music/Rock", 1, &[], &["Blue.mp3"]);
    db.scan_folder("/Music/Rock", None, Some(&dir), 0).unwrap();
    assert_eq!(db.count_songs(&strings(&["/music"])), 1);
    assert_eq!(db.count_songs(&strings(&["/Music/Roc"])), 0);
    assert_eq!(db.count_songs(&strings(&["/Music/Rock"])), 1);
    assert_eq!(db.search_songs(&strings(&["LU"]), &strings(&["/Music"])).unwrap().len(), 1);
    assert_eq!(db.search_songs(&strings(&["lux"]), &strings(&["/Music"])).unwrap().len(), 0);
}
