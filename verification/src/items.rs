//! The entries that are shown for a folder, for the library as a whole and for a
//! search.
use crate::cover_cache::{song_covers_in, SongCovers};
use crate::file_item::{new_item, shown_title, title_or_stem, FileItem, Item};
use crate::labels::{hidden_artist, is_bad_bunny};
use crate::library_db::{DbError, LibraryDB};
use crate::paths::{base_name, file_name, or_empty};
use crate::records::{
    bytes_in, folders_in, folders_of, songs_in, songs_of, Folder, FolderRecord, Song, SongRecord,
};
use crate::sql::{FOLDER_CHILDREN, FOLDER_SONGS, GET_COVER, GET_SONG_COVER, SONG_COVERS_OF_FOLDER};
use crate::store::{all_done, one_more_done, row_in, rows_in, since, Exchange, Request};
use crate::text::texts;
use vstd::prelude::*;

verus! {

/// Where the picture of an entry comes from: its own cover, and whether the cover
/// of the folder that is shown takes its place where it has none that can be
/// drawn.
pub struct Art {
    pub own: Option<Vec<u8>>,
    pub or_folder: bool,
}

/// An entry with the content of its cover.
pub struct Entry {
    pub item: Item<Art>,
    pub own: Option<Seq<u8>>,
    pub or_folder: bool,
}

/// The content of an entry. An entry always says where its picture comes from.
pub open spec fn entry_of(item: FileItem<Art>) -> Entry {
    Entry {
        item: Item { cover_thumb: None, ..item@ },
        own: match item@.cover_thumb {
            Some(art) => match art.own {
                Some(b) => Some(b@),
                None => None,
            },
            None => None,
        },
        or_folder: match item@.cover_thumb {
            Some(art) => art.or_folder,
            None => false,
        },
    }
}

/// The contents of entries.
pub open spec fn entries_of(items: Seq<FileItem<Art>>) -> Seq<Entry> {
    items.map_values(|i: FileItem<Art>| entry_of(i))
}

/// The entry of a folder with its cover.
pub open spec fn folder_entry(path: Seq<char>, name: Seq<char>, cover: Option<Seq<u8>>) -> Entry {
    Entry { item: new_item::<Art>(path, name, true), own: cover, or_folder: false }
}

/// The entry of a song. The year is known only where the song is shown in its
/// folder.
pub open spec fn song_entry(song: Song, with_year: bool, cover: Option<Seq<u8>>) -> Entry {
    Entry {
        item: Item {
            title: shown_title(song.title, song.name),
            artist: song.artist,
            album: song.album,
            year: if with_year {
                song.year
            } else {
                Seq::empty()
            },
            format_type: song.format_type,
            bitrate: song.bitrate,
            sample_rate: song.sample_rate,
            bits_per_sample: song.bits_per_sample,
            duration: song.duration,
            ..new_item::<Art>(song.path, song.name, false)
        },
        own: cover,
        or_folder: with_year,
    }
}

/// The folders that are shown: those that hold audio, unless they are named like
/// the artist that is hidden.
pub open spec fn shown_folders(folders: Seq<Folder>, hide: bool) -> Seq<Folder> {
    folders.filter(|f: Folder| f.has_audio && !(hide && hidden_artist(f.name)))
}

/// The songs that are shown: all but those of the artist that is hidden.
pub open spec fn shown_songs(songs: Seq<Song>, hide: bool) -> Seq<Song> {
    songs.filter(|s: Song| !(hide && hidden_artist(s.artist)))
}

/// The roots that are shown: all but those named like the artist that is hidden.
pub open spec fn shown_roots(roots: Seq<Seq<char>>, hide: bool) -> Seq<Seq<char>> {
    roots.filter(|f: Seq<char>| !(hide && hidden_artist(or_empty(file_name(f)))))
}

/// Whether the metadata of a song was not read yet.
pub open spec fn any_unscanned(songs: Seq<Song>) -> bool {
    exists|i: int| 0 <= i < songs.len() && !(#[trigger] songs[i]).meta_scanned
}

/// The request for the cover of a folder.
pub open spec fn cover_request(path: Seq<char>) -> Request {
    Request::QueryRow(GET_COVER@, seq![path])
}

/// A folder as it is shown.
pub struct FolderView {
    pub items: Vec<FileItem<Art>>,
    pub folder_cover: Option<Vec<u8>>,
    pub has_unscanned: bool,
}

/// Whether `entries` are the folders with the covers that were asked for.
pub open spec fn folders_shown(folders: Seq<Folder>, seg: Seq<Exchange>, entries: Seq<Entry>) -> bool {
    &&& seg.len() == folders.len()
    &&& entries.len() == folders.len()
    &&& forall|i: int|
        0 <= i < folders.len() ==> (#[trigger] seg[i]).request == cover_request(folders[i].path)
    &&& forall|i: int|
        0 <= i < folders.len() ==> #[trigger] entries[i] == folder_entry(
            folders[i].path,
            folders[i].name,
            bytes_in(row_in(seg[i])),
        )
}

/// The entries of songs with the covers that are known of them.
pub open spec fn songs_shown(songs: Seq<Song>, covers: Map<Seq<char>, Seq<u8>>) -> Seq<Entry> {
    songs.map_values(
        |s: Song|
            song_entry(
                s,
                true,
                if covers.contains_key(s.path) {
                    Some(covers[s.path])
                } else {
                    None
                },
            ),
    )
}

/// The exchanges that a folder is shown by, and what is shown.
pub open spec fn folder_shown(
    path: Seq<char>,
    hide: bool,
    seg: Seq<Exchange>,
    entries: Seq<Entry>,
    cover: Option<Seq<u8>>,
    unscanned: bool,
) -> bool {
    &&& seg.len() >= 4
    &&& seg[0].request == Request::QueryMap(FOLDER_CHILDREN@, seq![path])
    &&& seg[1].request == Request::QueryMap(FOLDER_SONGS@, seq![path])
    &&& rows_in(seg[0]) is Some
    &&& rows_in(seg[1]) is Some
    &&& seg[seg.len() - 2].request == cover_request(path)
    &&& seg[seg.len() - 1].request == Request::QueryMap(SONG_COVERS_OF_FOLDER@, seq![path])
    &&& rows_in(seg[seg.len() - 1]) is Some
    &&& {
        let folders = shown_folders(folders_in(rows_in(seg[0])->0), hide);
        let songs = songs_in(rows_in(seg[1])->0);
        let n = folders.len() as int;
        &&& entries.len() == n + shown_songs(songs, hide).len()
        &&& folders_shown(folders, seg.subrange(2, seg.len() - 2), entries.take(n))
        &&& entries.skip(n) == songs_shown(
            shown_songs(songs, hide),
            song_covers_in(rows_in(seg[seg.len() - 1])->0),
        )
        &&& cover == bytes_in(row_in(seg[seg.len() - 2]))
        &&& unscanned == any_unscanned(songs)
    }
}

/// The exchanges of a folder that could not be shown, because a query failed.
pub open spec fn folder_not_shown(path: Seq<char>, hide: bool, seg: Seq<Exchange>) -> bool {
    &&& seg.len() > 0
    &&& seg[0].request == Request::QueryMap(FOLDER_CHILDREN@, seq![path])
    &&& match rows_in(seg[0]) {
        None => seg.len() == 1,
        Some(rows) => {
            &&& seg.len() > 1
            &&& seg[1].request == Request::QueryMap(FOLDER_SONGS@, seq![path])
            &&& match rows_in(seg[1]) {
                None => seg.len() == 2,
                Some(_) => {
                    let folders = shown_folders(folders_in(rows), hide);
                    &&& seg.len() == folders.len() + 4
                    &&& forall|i: int|
                        2 <= i < seg.len() - 2 ==> (#[trigger] seg[i]).request == cover_request(
                            folders[i - 2].path,
                        )
                    &&& seg[seg.len() - 2].request == cover_request(path)
                    &&& seg[seg.len() - 1].request == Request::QueryMap(
                        SONG_COVERS_OF_FOLDER@,
                        seq![path],
                    )
                    &&& rows_in(seg[seg.len() - 1]) is None
                },
            }
        },
    }
}

fn folder_item(path: &str, name: &str, cover: Option<Vec<u8>>) -> (r: FileItem<Art>)
    ensures
        entry_of(r) == folder_entry(
            path@,
            name@,
            match cover {
                Some(b) => Some(b@),
                None => None,
            },
        ),
{
    let mut r: FileItem<Art> = FileItem::new(path, name, true);
    r.set_cover_thumb(Some(Art { own: cover, or_folder: false }));
    r
}

fn song_item(rec: &SongRecord, with_year: bool, cover: Option<Vec<u8>>) -> (r: FileItem<Art>)
    ensures
        entry_of(r) == song_entry(
            rec@,
            with_year,
            match cover {
                Some(b) => Some(b@),
                None => None,
            },
        ),
{
    let mut r: FileItem<Art> = FileItem::new(rec.path.as_str(), rec.name.as_str(), false);
    r.set_title(title_or_stem(rec.title.as_str(), rec.name.as_str()).as_str());
    r.set_artist(rec.artist.as_str());
    r.set_album(rec.album.as_str());
    if with_year {
        r.set_year(rec.year.as_str());
    }
    r.set_format_type(rec.format_type.as_str());
    r.set_bitrate(rec.bitrate);
    r.set_sample_rate(rec.sample_rate);
    r.set_bits_per_sample(rec.bits_per_sample);
    r.set_duration(rec.duration);
    r.set_cover_thumb(Some(Art { own: cover, or_folder: with_year }));
    r
}

fn has_unscanned_song(songs: &Vec<SongRecord>) -> (r: bool)
    ensures
        r == any_unscanned(songs_of(songs@)),
{
    let ghost all = songs_of(songs@);
    for i in 0..songs.len()
        invariant
            all == songs_of(songs@),
            forall|j: int| 0 <= j < i ==> (#[trigger] all[j]).meta_scanned,
    {
        assert(all[i as int] == songs@[i as int]@);
        if !songs[i].meta_scanned {
            return true;
        }
    }
    false
}

fn song_items(songs: &Vec<SongRecord>, covers: &SongCovers, hide: bool) -> (r: Vec<FileItem<Art>>)
    ensures
        entries_of(r@) == songs_shown(shown_songs(songs_of(songs@), hide), covers@),
{
    let ghost all = songs_of(songs@);
    let ghost p = |s: Song| !(hide && hidden_artist(s.artist));
    let ghost make = |s: Song|
        song_entry(
            s,
            true,
            if covers@.contains_key(s.path) {
                Some(covers@[s.path])
            } else {
                None
            },
        );
    let mut r: Vec<FileItem<Art>> = Vec::new();
    for i in 0..songs.len()
        invariant
            all == songs_of(songs@),
            p == (|s: Song| !(hide && hidden_artist(s.artist))),
            make == (|s: Song|
                song_entry(
                    s,
                    true,
                    if covers@.contains_key(s.path) {
                        Some(covers@[s.path])
                    } else {
                        None
                    },
                )),
            entries_of(r@) == all.take(i as int).filter(p).map_values(make),
    {
        broadcast use Seq::lemma_filter_push;

        assert(all.take(i + 1) == all.take(i as int).push(all[i as int]));
        assert(all[i as int] == songs@[i as int]@);
        let rec = &songs[i];
        if !(hide && is_bad_bunny(rec.artist.as_str())) {
            let ghost before = r@;
            let item = song_item(rec, true, covers.get(rec.path.as_str()));
            let ghost e = entry_of(item);
            r.push(item);
            assert(entries_of(r@) =~= entries_of(before).push(e));
            assert(e == make(rec@));
            assert(all.take(i as int).filter(p).push(rec@).map_values(make) =~= all.take(
                i as int,
            ).filter(p).map_values(make).push(make(rec@)));
        }
    }
    assert(all.take(all.len() as int) == all);
    r
}

impl LibraryDB {
    fn folder_items(&mut self, folders: &Vec<FolderRecord>, hide: bool) -> (r: Vec<FileItem<Art>>)
        ensures
            old(self)@.is_prefix_of(final(self)@),
            folders_shown(
                shown_folders(folders_of(folders@), hide),
                since(old(self)@, final(self)@),
                entries_of(r@),
            ),
    {
        let ghost before = self@;
        let ghost all = folders_of(folders@);
        let ghost p = |f: Folder| f.has_audio && !(hide && hidden_artist(f.name));
        let mut r: Vec<FileItem<Art>> = Vec::new();
        for i in 0..folders.len()
            invariant
                before == old(self)@,
                before.is_prefix_of(self@),
                all == folders_of(folders@),
                p == (|f: Folder| f.has_audio && !(hide && hidden_artist(f.name))),
                folders_shown(
                    all.take(i as int).filter(p),
                    since(before, self@),
                    entries_of(r@),
                ),
        {
            broadcast use Seq::lemma_filter_push;

            assert(all.take(i + 1) == all.take(i as int).push(all[i as int]));
            assert(all[i as int] == folders@[i as int]@);
            let f = &folders[i];
            if f.has_audio && !(hide && is_bad_bunny(f.name.as_str())) {
                let ghost now = self@;
                let ghost shown = all.take(i as int).filter(p);
                let ghost had = entries_of(r@);
                let cover = self.get_cover(f.path.as_str());
                let item = folder_item(f.path.as_str(), f.name.as_str(), cover);
                let ghost e = entry_of(item);
                r.push(item);
                proof {
                    assert(entries_of(r@) =~= had.push(e));
                    assert(since(before, self@) =~= since(before, now).push(self@.last()));
                    assert(since(now, self@)[0] == self@.last());
                }
            }
        }
        assert(all.take(all.len() as int) == all);
        r
    }

    /// What is shown of a folder, from what the library knows: the folders in it
    /// that hold audio, and its songs. Neither the disk is read, nor the songs. With
    /// `hide`, one artist is left out.
    pub fn build_folder_items(&mut self, path: &str, hide: bool) -> (res: Result<
        FolderView,
        DbError,
    >)
        ensures
            old(self)@.is_prefix_of(final(self)@),
            match res {
                Ok(view) => folder_shown(
                    path@,
                    hide,
                    since(old(self)@, final(self)@),
                    entries_of(view.items@),
                    match view.folder_cover {
                        Some(b) => Some(b@),
                        None => None,
                    },
                    view.has_unscanned,
                ),
                Err(e) => e == DbError::Query && folder_not_shown(
                    path@,
                    hide,
                    since(old(self)@, final(self)@),
                ),
            },
    {
        let ghost before = self@;
        let folders = match self.get_folder_children(path) {
            Ok(v) => v,
            Err(e) => {
                return Err(e);
            },
        };
        let ghost first = self@;
        let songs = match self.get_folder_songs(path) {
            Ok(v) => v,
            Err(e) => {
                assert(since(before, self@)[0] == first.last());
                assert(since(before, self@)[1] == self@.last());
                return Err(e);
            },
        };
        let ghost second = self@;
        let mut items = self.folder_items(&folders, hide);
        let ghost third = self@;
        let folder_cover = self.get_cover(path);
        let ghost fourth = self@;
        let covers = match self.get_song_covers_for_folder(path) {
            Ok(v) => v,
            Err(e) => {
                proof {
                    let seg = since(before, self@);
                    assert(seg[0] == first.last());
                    assert(seg[1] == second.last());
                    assert(seg[seg.len() - 2] == fourth.last());
                    assert(seg[seg.len() - 1] == self@.last());
                    assert forall|i: int| 2 <= i < seg.len() - 2 implies #[trigger] seg[i]
                        == since(second, third)[i - 2] by {}
                }
                return Err(e);
            },
        };
        let mut more = song_items(&songs, &covers, hide);
        let ghost head = entries_of(items@);
        let ghost tail = entries_of(more@);
        items.append(&mut more);
        let has_unscanned = has_unscanned_song(&songs);
        proof {
            let seg = since(before, self@);
            assert(seg[0] == first.last());
            assert(seg[1] == second.last());
            assert(seg[seg.len() - 2] == fourth.last());
            assert(seg[seg.len() - 1] == self@.last());
            assert(seg.subrange(2, seg.len() - 2) =~= since(second, third));
            assert(entries_of(items@) =~= head + tail);
            assert(entries_of(items@).take(head.len() as int) =~= head);
            assert(entries_of(items@).skip(head.len() as int) =~= tail);
        }
        Ok(FolderView { items, folder_cover, has_unscanned })
    }

    /// The folders of the library with their covers. With `hide`, folders named
    /// like one artist are left out.
    pub fn virtual_root_items(&mut self, folders: &Vec<String>, hide: bool) -> (r: Vec<
        FileItem<Art>,
    >)
        ensures
            old(self)@.is_prefix_of(final(self)@),
            folders_shown(
                shown_roots(texts(folders@), hide).map_values(
                    |f: Seq<char>|
                        Folder { path: f, name: or_empty(file_name(f)), has_audio: true },
                ),
                since(old(self)@, final(self)@),
                entries_of(r@),
            ),
    {
        let ghost before = self@;
        let ghost all = texts(folders@);
        let ghost p = |f: Seq<char>| !(hide && hidden_artist(or_empty(file_name(f))));
        let ghost make = |f: Seq<char>|
            Folder { path: f, name: or_empty(file_name(f)), has_audio: true };
        let mut r: Vec<FileItem<Art>> = Vec::new();
        for i in 0..folders.len()
            invariant
                before == old(self)@,
                before.is_prefix_of(self@),
                all == texts(folders@),
                p == (|f: Seq<char>| !(hide && hidden_artist(or_empty(file_name(f))))),
                make == (|f: Seq<char>|
                    Folder { path: f, name: or_empty(file_name(f)), has_audio: true }),
                folders_shown(
                    all.take(i as int).filter(p).map_values(make),
                    since(before, self@),
                    entries_of(r@),
                ),
        {
            broadcast use Seq::lemma_filter_push;

            assert(all.take(i + 1) == all.take(i as int).push(all[i as int]));
            assert(all[i as int] == folders@[i as int]@);
            let f = folders[i].as_str();
            let name = base_name(f);
            if !(hide && is_bad_bunny(name.as_str())) {
                let ghost now = self@;
                let ghost shown = all.take(i as int).filter(p);
                let ghost had = entries_of(r@);
                let cover = self.get_cover(f);
                let item = folder_item(f, name.as_str(), cover);
                let ghost e = entry_of(item);
                r.push(item);
                proof {
                    assert(shown.push(f@).map_values(make) =~= shown.map_values(make).push(
                        make(f@),
                    ));
                    assert(entries_of(r@) =~= had.push(e));
                    assert(since(before, self@) =~= since(before, now).push(self@.last()));
                    assert(since(now, self@)[0] == self@.last());
                }
            }
        }
        assert(all.take(all.len() as int) == all);
        r
    }

    /// The songs that a search found, each with its own cover or the cover of its
    /// folder. With `hide`, one artist is left out.
    pub fn search_items(&mut self, results: &Vec<SongRecord>, hide: bool) -> (r: Vec<
        FileItem<Art>,
    >)
        ensures
            old(self)@.is_prefix_of(final(self)@),
            entries_of(r@).len() == shown_songs(songs_of(results@), hide).len(),
            all_done(
                paired(shown_songs(songs_of(results@), hide), entries_of(r@)),
                hit_runs(),
                since(old(self)@, final(self)@),
            ),
    {
        let ghost before = self@;
        let ghost all = songs_of(results@);
        let ghost p = |s: Song| !(hide && hidden_artist(s.artist));
        let mut r: Vec<FileItem<Art>> = Vec::new();
        assert(paired(all.take(0).filter(p), entries_of(r@)).len() == 0) by {
            reveal(Seq::filter);
        }
        for i in 0..results.len()
            invariant
                before == old(self)@,
                before.is_prefix_of(self@),
                all == songs_of(results@),
                p == (|s: Song| !(hide && hidden_artist(s.artist))),
                entries_of(r@).len() == all.take(i as int).filter(p).len(),
                all_done(
                    paired(all.take(i as int).filter(p), entries_of(r@)),
                    hit_runs(),
                    since(before, self@),
                ),
        {
            broadcast use Seq::lemma_filter_push;

            assert(all.take(i + 1) == all.take(i as int).push(all[i as int]));
            assert(all[i as int] == results@[i as int]@);
            let rec = &results[i];
            if !(hide && is_bad_bunny(rec.artist.as_str())) {
                let ghost now = self@;
                let ghost shown = all.take(i as int).filter(p);
                let ghost had = entries_of(r@);
                let own = match self.get_song_cover(rec.path.as_str()) {
                    Some(b) => Some(b),
                    None => self.get_cover(rec.folder.as_str()),
                };
                let item = song_item(rec, false, own);
                let ghost e = entry_of(item);
                r.push(item);
                proof {
                    assert(entries_of(r@) =~= had.push(e));
                    let more = paired(shown.push(rec@), had.push(e));
                    let n = shown.len() as int;
                    assert(more.take(n) =~= paired(shown, had));
                    assert(more[n] == (rec@, e));
                    assert(since(before, self@) =~= since(before, now) + since(now, self@));
                    assert(hit_run(rec@, e, since(now, self@)));
                    one_more_done(more, hit_runs(), n, since(before, now), since(now, self@));
                    assert(more.take(n + 1) =~= more);
                }
            }
        }
        assert(all.take(all.len() as int) == all);
        r
    }
}

/// Songs with their entries.
pub open spec fn paired(songs: Seq<Song>, entries: Seq<Entry>) -> Seq<(Song, Entry)> {
    Seq::new(songs.len(), |i: int| (songs[i], entries[i]))
}

/// The exchanges that a song that was found is shown by, and its entry: it has its
/// own cover or, where none is known, the cover of its folder.
pub open spec fn hit_run(song: Song, entry: Entry, seg: Seq<Exchange>) -> bool {
    &&& seg.len() > 0
    &&& seg[0].request == Request::QueryRow(GET_SONG_COVER@, seq![song.path])
    &&& match bytes_in(row_in(seg[0])) {
        Some(b) => seg.len() == 1 && entry == song_entry(song, false, Some(b)),
        None => {
            &&& seg.len() == 2
            &&& seg[1].request == cover_request(song.folder)
            &&& entry == song_entry(song, false, bytes_in(row_in(seg[1])))
        },
    }
}

/// The exchanges that a song that was found is shown by.
pub open spec fn hit_runs() -> spec_fn((Song, Entry), Seq<Exchange>) -> bool {
    |pair: (Song, Entry), seg: Seq<Exchange>| hit_run(pair.0, pair.1, seg)
}

/// The exchanges of one item among those of all.
pub proof fn run_of_each<T>(
    items: Seq<T>,
    run: spec_fn(T, Seq<Exchange>) -> bool,
    seg: Seq<Exchange>,
    i: int,
) -> (part: Seq<Exchange>)
    requires
        all_done(items, run, seg),
        0 <= i < items.len(),
    ensures
        run(items[i], part),
    decreases items.len(),
{
    let k = choose|k: int|
        0 <= k <= seg.len() && all_done(items.drop_last(), run, #[trigger] seg.take(k)) && run(
            items.last(),
            seg.skip(k),
        );
    if i == items.len() - 1 {
        seg.skip(k)
    } else {
        run_of_each(items.drop_last(), run, seg.take(k), i)
    }
}

/// With the artist hidden, a folder shows no song of the artist and no folder named
/// like the artist.
pub proof fn hidden_artist_is_not_shown(
    path: Seq<char>,
    seg: Seq<Exchange>,
    entries: Seq<Entry>,
    cover: Option<Seq<u8>>,
    unscanned: bool,
)
    requires
        folder_shown(path, true, seg, entries, cover, unscanned),
    ensures
        forall|i: int|
            0 <= i < entries.len() ==> !hidden_artist((#[trigger] entries[i]).item.artist) && (
            entries[i].item.is_folder ==> !hidden_artist(entries[i].item.name)),
{
    let all_folders = folders_in(rows_in(seg[0])->0);
    let folders = shown_folders(all_folders, true);
    let all_songs = songs_in(rows_in(seg[1])->0);
    let songs = shown_songs(all_songs, true);
    let n = folders.len() as int;
    let hide = true;
    let pf = |f: Folder| f.has_audio && !(hide && hidden_artist(f.name));
    let ps = |s: Song| !(hide && hidden_artist(s.artist));
    assert forall|i: int| 0 <= i < entries.len() implies !hidden_artist(
        (#[trigger] entries[i]).item.artist,
    ) && (entries[i].item.is_folder ==> !hidden_artist(entries[i].item.name)) by {
        if i < n {
            all_folders.lemma_filter_pred(pf, i);
            assert(entries.take(n)[i] == entries[i]);
        } else {
            all_songs.lemma_filter_pred(ps, i - n);
            assert(entries.skip(n)[i - n] == entries[i]);
        }
    }
}

/// With the artist hidden, a search shows no song of the artist.
pub proof fn hidden_artist_is_not_found(
    results: Seq<Song>,
    entries: Seq<Entry>,
    seg: Seq<Exchange>,
)
    requires
        entries.len() == shown_songs(results, true).len(),
        all_done(paired(shown_songs(results, true), entries), hit_runs(), seg),
    ensures
        forall|i: int|
            0 <= i < entries.len() ==> !hidden_artist((#[trigger] entries[i]).item.artist),
{
    let songs = shown_songs(results, true);
    let hide = true;
    let ps = |s: Song| !(hide && hidden_artist(s.artist));
    assert forall|i: int| 0 <= i < entries.len() implies !hidden_artist(
        (#[trigger] entries[i]).item.artist,
    ) by {
        results.lemma_filter_pred(ps, i);
        let part = run_of_each(paired(songs, entries), hit_runs(), seg, i);
        assert(hit_run(songs[i], entries[i], part));
    }
}

/// Hiding the artist hides nothing else: every other song is shown, and where the
/// artist is not hidden all songs are.
pub proof fn nothing_else_is_hidden(songs: Seq<Song>, i: int)
    requires
        0 <= i < songs.len(),
    ensures
        !hidden_artist(songs[i].artist) ==> shown_songs(songs, true).contains(songs[i]),
        shown_songs(songs, false).contains(songs[i]),
{
    if !hidden_artist(songs[i].artist) {
        songs.lemma_filter_contains(|s: Song| !(true && hidden_artist(s.artist)), i);
    }
    songs.lemma_filter_contains(|s: Song| !(false && hidden_artist(s.artist)), i);
}

} // verus!
