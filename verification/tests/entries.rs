use folderplay::cover_search::{cover_candidates, get_cover_file, Answer, CoverSearch, Want};
use folderplay::enrich::{SongInfo, Stream};
use folderplay::file_item::{has_folders_only, FileItem};
use folderplay::folder_load::{FolderLoad, LoadStep};
use folderplay::index_job::{IndexJob, IndexStep};
use folderplay::items::Art;
use folderplay::library_db::LibraryDB;
use folderplay::queue::RepeatMode;
use folderplay::rows::{populate_list, song_row, Layout};
use folderplay::scan::{
    order_entries, order_keyed, song_of_entry, song_with, DirEntryInfo, DirListing, EntryKind,
};

fn strings(v: &[&str]) -> Vec<String> {
    v.iter().map(|s| s.to_string()).collect()
}

fn entry(folder: &str, name: &str, kind: EntryKind) -> DirEntryInfo {
    DirEntryInfo { name: name.to_string(), path: format!("{folder}/{name}"), kind, mtime: 1 }
}

fn library() -> LibraryDB {
    let mut db = LibraryDB::new(":memory:").unwrap();
    let dir = DirListing {
        mtime: 1,
        entries: vec![
            entry("/m", "a.mp3", EntryKind::File),
            entry("/m", "b.flac", EntryKind::File),
            entry("/m", "Bad Bunny", EntryKind::Folder),
            entry("/m", "full", EntryKind::Folder),
            entry("/m", "empty", EntryKind::Folder),
        ],
    };
    db.scan_folder("/m", None, Some(&dir), 0).unwrap();
    for sub in ["/m/Bad Bunny", "/m/full"] {
        let dir = DirListing { mtime: 1, entries: vec![entry(sub, "x.mp3", EntryKind::File)] };
        db.scan_folder(sub, Some("/m"), Some(&dir), 0).unwrap();
    }
    db
}

fn info(title: &str, artist: &str, cover: Option<Vec<u8>>) -> SongInfo {
    SongInfo {
        stream: Some(Stream { bitrate: 320_999, sample_rate: 44100, depth: 16 }),
        duration: 1_500_000_000,
        title: title.to_string(),
        artist: artist.to_string(),
        album: String::new(),
        year: "2001".to_string(),
        cover,
    }
}

fn names(items: &Vec<FileItem<Art>>) -> Vec<String> {
    items.iter().map(|i| i.name()).collect()
}

#[test]
fn items_know_what_their_names_tell() {
    let song: FileItem<u8> = FileItem::new("/m/01.x.flac", "01.x.flac", false);
    assert_eq!(song.title(), "01.x");
    assert_eq!(song.format_type(), "FLAC");
    assert_eq!(song.path(), "/m/01.x.flac");
    assert!(!song.is_folder());
    let folder: FileItem<u8> = FileItem::new("/m/a.b", "a.b", true);
    assert_eq!(folder.title(), "");
    assert_eq!(folder.format_type(), "");
    assert!(folder.is_folder());
    assert!(folder.cover_thumb().is_none());
}

#[test]
fn items_keep_what_is_set() {
    let mut item: FileItem<u8> = FileItem::new("/p", "n", false);
    item.set_title("t");
    item.set_artist("ar");
    item.set_album("al");
    item.set_year("y");
    item.set_format_type("F");
    item.set_bitrate(1);
    item.set_sample_rate(2);
    item.set_bits_per_sample(3);
    item.set_duration(4);
    item.set_cover_thumb(Some(5));
    assert_eq!(item.title(), "t");
    assert_eq!(item.artist(), "ar");
    assert_eq!(item.album(), "al");
    assert_eq!(item.year(), "y");
    assert_eq!(item.format_type(), "F");
    assert_eq!(item.bitrate(), 1);
    assert_eq!(item.sample_rate(), 2);
    assert_eq!(item.bits_per_sample(), 3);
    assert_eq!(item.duration(), 4);
    assert_eq!(item.cover_thumb(), Some(&5));
}

#[test]
fn rows_of_songs() {
    let mut item: FileItem<u8> = FileItem::new("/m/a.mp3", "a.mp3", false);
    item.set_bitrate(320);
    let row = song_row(&item, false, RepeatMode::Loop);
    assert_eq!(row.title, "a");
    assert_eq!(row.artist, None);
    assert_eq!(row.format, "MP3");
    assert_eq!(row.quality, "320 kbps");
    assert_eq!(row.duration, "\u{2014}");
    assert!(!row.hires);
    assert_eq!(row.badge, None);
    item.set_title("");
    item.set_artist("A");
    item.set_sample_rate(48000);
    item.set_duration(61_000_000_000);
    let playing = song_row(&item, true, RepeatMode::Once);
    assert!(playing.now_playing);
    assert_eq!(playing.badge, Some("fp-playlist-repeat-song-symbolic"));
    assert_eq!(playing.title, "a");
    assert_eq!(playing.artist, Some("A".to_string()));
    assert_eq!(playing.duration, "1:01");
    assert!(playing.hires);
    assert_eq!(song_row(&item, true, RepeatMode::Consecutive).badge, None);
}

#[test]
fn folders_are_tiles_where_that_is_wanted() {
    let folders: Vec<FileItem<u8>> =
        vec![FileItem::new("/a", "a", true), FileItem::new("/b", "b", true)];
    let mixed: Vec<FileItem<u8>> =
        vec![FileItem::new("/a", "a", true), FileItem::new("/s", "s", false)];
    let none: Vec<FileItem<u8>> = Vec::new();
    assert!(has_folders_only(&folders));
    assert!(!has_folders_only(&mixed));
    assert!(!has_folders_only(&none));
    assert_eq!(populate_list(&folders, true, &None), Layout::Grid);
    assert_eq!(populate_list(&folders, false, &None), Layout::List(0));
    assert_eq!(populate_list(&mixed, true, &Some("/s".to_string())), Layout::List(1));
    assert_eq!(populate_list(&mixed, true, &Some("/x".to_string())), Layout::List(0));
    assert_eq!(populate_list(&none, true, &None), Layout::Empty);
}

#[test]
fn a_folder_is_shown_from_the_library() {
    let mut db = library();
    db.set_cover("/m", &vec![1], "discovered");
    db.set_cover("/m/full", &vec![2], "discovered");
    db.enrich_one_song("/m/a.mp3", &info("Song", "Bad Bunny", None));
    db.set_song_cover("/m/b.flac", &vec![3]);
    let view = db.build_folder_items("/m", false).unwrap();
    assert_eq!(names(&view.items), strings(&["Bad Bunny", "full", "a.mp3", "b.flac"]));
    assert_eq!(view.folder_cover, Some(vec![1]));
    assert!(view.has_unscanned);
    let full = view.items[1].cover_thumb().unwrap();
    assert_eq!(full.own, Some(vec![2]));
    assert!(!full.or_folder);
    let a = &view.items[2];
    assert_eq!(a.title(), "Song");
    assert_eq!(a.year(), "2001");
    assert_eq!(a.bitrate(), 320);
    assert_eq!(a.duration(), 1_500_000_000);
    assert_eq!(a.cover_thumb().unwrap().own, None);
    assert!(a.cover_thumb().unwrap().or_folder);
    assert_eq!(view.items[3].cover_thumb().unwrap().own, Some(vec![3]));
    let less = db.build_folder_items("/m", true).unwrap();
    assert_eq!(names(&less.items), strings(&["full", "b.flac"]));
    db.enrich_one_song("/m/b.flac", &info("", "", None));
    let read = db.build_folder_items("/m", true).unwrap();
    assert!(!read.has_unscanned);
    assert_eq!(read.items[1].title(), "b");
}

#[test]
fn the_roots_are_shown() {
    let mut db = library();
    db.set_cover("/m", &vec![1], "discovered");
    let roots = strings(&["/m", "/disk/Bad Bunny"]);
    let all = db.virtual_root_items(&roots, false);
    assert_eq!(names(&all), strings(&["m", "Bad Bunny"]));
    assert!(all[0].is_folder());
    assert_eq!(all[0].cover_thumb().unwrap().own, Some(vec![1]));
    assert_eq!(all[1].cover_thumb().unwrap().own, None);
    assert_eq!(names(&db.virtual_root_items(&roots, true)), strings(&["m"]));
}

#[test]
fn hits_have_a_cover_of_their_own_or_of_their_folder() {
    let mut db = library();
    db.set_cover("/m", &vec![1], "discovered");
    db.set_song_cover("/m/b.flac", &vec![3]);
    db.enrich_one_song("/m/full/x.mp3", &info("x", "Bad Bunny", None));
    let found = db.search_songs(&strings(&["."]), &strings(&["/m"])).unwrap();
    assert_eq!(found.len(), 4);
    let hits = db.search_items(&found, true);
    assert_eq!(names(&hits), strings(&["a.mp3", "b.flac", "x.mp3"]));
    assert_eq!(hits[0].cover_thumb().unwrap().own, Some(vec![1]));
    assert_eq!(hits[1].cover_thumb().unwrap().own, Some(vec![3]));
    assert_eq!(hits[2].cover_thumb().unwrap().own, None);
    assert!(!hits[0].cover_thumb().unwrap().or_folder);
    assert_eq!(hits[0].year(), "");
    assert_eq!(db.search_items(&found, false).len(), 4);
}

#[test]
fn songs_are_read_and_kept() {
    let mut db = library();
    db.enrich_one_song("/m/a.mp3", &info("", "A", Some(vec![4, 4])));
    assert_eq!(db.get_song_cover("/m/a.mp3"), Some(vec![4, 4]));
    assert_eq!(db.get_cover("/m"), Some(vec![4, 4]));
    db.enrich_one_song("/m/b.flac", &info("B", "A", Some(vec![5])));
    assert_eq!(db.get_song_cover("/m/b.flac"), Some(vec![5]));
    assert_eq!(db.get_cover("/m"), Some(vec![4, 4]));
    let songs = db.get_folder_songs("/m").unwrap();
    assert_eq!(songs[0].title, "a");
    assert_eq!(songs[0].bitrate, 320);
    assert_eq!(songs[1].title, "B");
    let silent = SongInfo { stream: None, ..info("S", "", None) };
    db.enrich_one_song("/m/a.mp3", &silent);
    let songs = db.get_folder_songs("/m").unwrap();
    assert_eq!((songs[0].bitrate, songs[0].sample_rate, songs[0].bits_per_sample), (0, 0, 0));
}

#[test]
fn songs_are_read_in_batches() {
    let mut db = library();
    let roots = strings(&["/m"]);
    assert_eq!(db.next_batch(&roots, true), Ok(None));
    assert_eq!(db.next_batch(&Vec::new(), false), Ok(None));
    let batch = db.next_batch(&roots, false).unwrap().unwrap();
    assert_eq!(batch.len(), 4);
    for song in &batch {
        db.enrich_one_song(song, &info("t", "a", None));
    }
    assert_eq!(db.next_batch(&roots, false), Ok(None));
}

#[test]
fn covers_among_the_files() {
    let paths = cover_candidates("/m");
    assert_eq!(paths.len(), 18);
    assert_eq!(paths[0], "/m/cover.jpg");
    assert_eq!(paths[17], "/m/art.png");
    let mut there = vec![false; 18];
    assert_eq!(get_cover_file("/m", &there), None);
    there[4] = true;
    there[9] = true;
    assert_eq!(get_cover_file("/m", &there), Some("/m/folder.jpg".to_string()));
}

fn hunt(
    files: &[(&str, u8)],
    kept: &[(&str, u8)],
    dirs: &[(&str, &[(&str, EntryKind)])],
    art: &[(&str, u8)],
) -> (Option<Vec<u8>>, Vec<String>) {
    let look = |list: &[(&str, u8)], p: &str| {
        list.iter().find(|(q, _)| *q == p).map(|(_, b)| vec![*b])
    };
    let mut search = CoverSearch::new("/m");
    let mut heard = Vec::new();
    loop {
        let answer = match search.want() {
            Want::File(p) => Answer::Picture(look(files, &p)),
            Want::Kept(p) => {
                heard.push(format!("kept {p}"));
                Answer::Picture(look(kept, &p))
            }
            Want::Listing(p) => Answer::Entries(
                dirs.iter()
                    .find(|(q, _)| *q == p)
                    .map(|(_, e)| e.iter().map(|(n, k)| entry(&p, n, *k)).collect()),
            ),
            Want::Art(p) => {
                heard.push(format!("art {p}"));
                Answer::Picture(look(art, &p))
            }
            Want::Nothing => break,
        };
        search.tell(answer);
    }
    (search.result(), heard)
}

#[test]
fn covers_are_looked_for_in_order() {
    let song = EntryKind::File;
    let dir = EntryKind::Folder;
    let listing: &[(&str, EntryKind)] = &[("z", dir), ("b.mp3", song), ("a.mp3", song), (".h", dir)];
    let all: &[(&str, &[(&str, EntryKind)])] = &[("/m", listing), ("/m/z", &[("c.mp3", song)])];
    let (found, heard) = hunt(&[("/m/front.jpg", 1)], &[("/m", 2)], all, &[("/m/a.mp3", 3)]);
    assert_eq!(found, Some(vec![1]));
    assert!(heard.is_empty());
    let (found, _) = hunt(&[], &[("/m", 2)], all, &[("/m/a.mp3", 3)]);
    assert_eq!(found, Some(vec![2]));
    let (found, heard) = hunt(&[], &[], all, &[("/m/a.mp3", 3)]);
    assert_eq!(found, Some(vec![3]));
    assert_eq!(heard, strings(&["kept /m", "art /m/a.mp3"]));
    let (found, heard) = hunt(&[], &[], all, &[("/m/b.mp3", 4), ("/m/z/c.mp3", 5)]);
    assert_eq!(found, Some(vec![5]));
    assert_eq!(heard, strings(&["kept /m", "art /m/a.mp3", "kept /m/z", "art /m/z/c.mp3"]));
    let (found, _) = hunt(&[("/m/z/cover.png", 6)], &[], all, &[]);
    assert_eq!(found, Some(vec![6]));
    let (found, heard) = hunt(&[], &[], &[], &[]);
    assert_eq!(found, None);
    assert_eq!(heard, strings(&["kept /m"]));
}

#[test]
fn covers_are_not_looked_for_too_deep() {
    let d: &[(&str, EntryKind)] = &[("d", EntryKind::Folder)];
    let chain: &[(&str, &[(&str, EntryKind)])] = &[
        ("/m", d),
        ("/m/d", d),
        ("/m/d/d", d),
        ("/m/d/d/d", d),
        ("/m/d/d/d/d", d),
        ("/m/d/d/d/d/d", d),
    ];
    let (found, heard) = hunt(&[("/m/d/d/d/d/d/cover.jpg", 1)], &[], chain, &[]);
    assert_eq!(found, Some(vec![1]));
    assert_eq!(heard.len(), 5);
    let (found, heard) = hunt(&[("/m/d/d/d/d/d/d/cover.jpg", 1)], &[], chain, &[]);
    assert_eq!(found, None);
    assert_eq!(heard.len(), 6);
}

#[test]
fn covers_are_looked_for_once() {
    let mut db = library();
    assert!(db.discover_folder_cover("/m").is_some());
    db.keep_discovered("/m", &None);
    assert!(db.discover_folder_cover("/m").is_none());
    assert!(db.discover_folder_cover("/m/full").is_some());
    db.keep_discovered("/m/full", &Some(vec![8]));
    assert!(db.discover_folder_cover("/m/full").is_none());
    assert_eq!(db.get_cover("/m/full"), Some(vec![8]));
    assert_eq!(db.get_cover("/m"), None);
}

fn step(job: &mut IndexJob, shutdown: bool) -> String {
    match job.next(shutdown) {
        IndexStep::Scan(p) => format!("scan {p}"),
        IndexStep::ShowCovers => "covers".to_string(),
        IndexStep::Discover(p) => format!("discover {p}"),
        IndexStep::List(p) => {
            job.tell_children(vec![format!("{p}/x"), format!("{p}/y")]);
            format!("list {p}")
        }
        IndexStep::Reload => "reload".to_string(),
        IndexStep::Queue => "queue".to_string(),
        IndexStep::Enrich => "enrich".to_string(),
        IndexStep::Stop => "stop".to_string(),
    }
}

#[test]
fn the_work_in_the_background_has_an_order() {
    let mut job = IndexJob::new(&strings(&["/m", "/n"]), true);
    assert!(job.reports());
    let mut steps = Vec::new();
    for _ in 0..15 {
        steps.push(step(&mut job, false));
    }
    assert_eq!(
        steps,
        strings(&[
            "scan /m", "scan /n", "covers", "discover /m", "list /m", "discover /m/x",
            "discover /m/y", "discover /n", "list /n", "discover /n/x", "discover /n/y", "reload",
            "queue", "enrich", "stop",
        ])
    );
    assert_eq!(step(&mut job, false), "stop");
    let mut quiet = IndexJob::new(&strings(&["/m"]), false);
    let mut steps = Vec::new();
    for _ in 0..8 {
        steps.push(step(&mut quiet, false));
    }
    assert_eq!(
        steps,
        strings(&[
            "scan /m", "discover /m", "list /m", "discover /m/x", "discover /m/y", "queue",
            "enrich", "stop",
        ])
    );
}

#[test]
fn the_work_stops_when_the_player_is_closed() {
    let mut job = IndexJob::new(&strings(&["/m", "/n"]), true);
    assert_eq!(step(&mut job, false), "scan /m");
    assert_eq!(step(&mut job, true), "stop");
    assert_eq!(step(&mut job, false), "stop");
    let mut none = IndexJob::new(&Vec::new(), true);
    assert_eq!(step(&mut none, false), "covers");
    assert_eq!(step(&mut none, false), "reload");
    assert_eq!(step(&mut none, true), "stop");
}

#[test]
fn entries_are_put_in_order() {
    let entries = vec![
        entry("/m", "b", EntryKind::File),
        entry("/m", "C", EntryKind::Folder),
        entry("/m", "A", EntryKind::File),
        entry("/m", "d", EntryKind::Folder),
        entry("/m", "B", EntryKind::File),
    ];
    assert_eq!(order_entries(&entries), vec![1, 3, 2, 0, 4]);
    let keys = strings(&["5", "9", "1", "3", "5"]);
    assert_eq!(order_keyed(&entries, &keys), vec![3, 1, 2, 0, 4]);
}

#[test]
fn songs_among_entries() {
    let song = song_of_entry(&entry("/m", "a.b.Flac", EntryKind::File)).unwrap();
    assert_eq!(song.path, "/m/a.b.Flac");
    assert_eq!(song.title, "a.b");
    assert_eq!(song.format_type, "FLAC");
    assert_eq!(song.mtime, 1);
    assert!(song_of_entry(&entry("/m", "a.Flac", EntryKind::Folder)).is_none());
    assert!(song_of_entry(&entry("/m", ".a.Flac", EntryKind::File)).is_none());
    assert!(song_of_entry(&entry("/m", "Flac", EntryKind::File)).is_none());
    let given = song_with(&entry("/m", "a.X", EntryKind::File), "mp3", "MP3").unwrap();
    assert_eq!(given.format_type, "MP3");
    assert!(song_with(&entry("/m", "a.mp3", EntryKind::File), "x", "X").is_none());
}

#[test]
fn songs_are_kept_by_their_parts() {
    let mut db = library();
    db.keep_song_info("/m/a.mp3", "/m/full", "stem", &info("", "A", Some(vec![7])));
    assert_eq!(db.get_cover("/m/full"), Some(vec![7]));
    assert_eq!(db.get_cover("/m"), None);
    assert_eq!(db.get_folder_songs("/m").unwrap()[0].title, "stem");
}

fn load_steps(mut load: FolderLoad, unscanned: bool, closing: &[bool]) -> Vec<String> {
    closing
        .iter()
        .map(|shutdown| match load.next(*shutdown) {
            LoadStep::Wait => "wait".to_string(),
            LoadStep::Scan(parent) => format!("scan {parent:?}"),
            LoadStep::Flag => "flag".to_string(),
            LoadStep::Show => {
                load.tell_shown(unscanned);
                "show".to_string()
            }
            LoadStep::Enrich => "enrich".to_string(),
            LoadStep::Stop => "stop".to_string(),
        })
        .collect()
}

#[test]
fn a_folder_is_shown_in_steps() {
    let changed = || FolderLoad::new(Some("/m".to_string()), true);
    let kept = || FolderLoad::new(None, false);
    assert_eq!(
        load_steps(changed(), true, &[false; 6]),
        strings(&["wait", "scan Some(\"/m\")", "flag", "show", "enrich", "stop"])
    );
    assert_eq!(
        load_steps(changed(), false, &[false; 5]),
        strings(&["wait", "scan Some(\"/m\")", "flag", "show", "stop"])
    );
    assert_eq!(load_steps(changed(), true, &[false, true, false]), strings(&["wait", "stop", "stop"]));
    assert_eq!(
        load_steps(changed(), true, &[false, false, false, false, true]),
        strings(&["wait", "scan Some(\"/m\")", "flag", "show", "stop"])
    );
    assert_eq!(load_steps(kept(), true, &[true; 3]), strings(&["show", "enrich", "stop"]));
    assert_eq!(load_steps(kept(), false, &[false; 2]), strings(&["show", "stop"]));
}
