//! What the library keeps of folders and songs, and how rows are read.
use crate::store::{
    bytes_at, cell_bytes, cell_integer, cell_small, cell_text, integer_at, opt_row_data, row_data,
    rows_data, small_at, text_at, Cell, Datum,
};
use vstd::prelude::*;

verus! {

/// A folder.
#[derive(Debug)]
pub struct FolderRecord {
    pub path: String,
    pub name: String,
    pub has_audio: bool,
}

/// The content of a `FolderRecord`.
pub struct Folder {
    pub path: Seq<char>,
    pub name: Seq<char>,
    pub has_audio: bool,
}

impl View for FolderRecord {
    type V = Folder;

    open spec fn view(&self) -> Folder {
        Folder { path: self.path@, name: self.name@, has_audio: self.has_audio }
    }
}

/// A song. The duration is in nanoseconds.
#[derive(Debug)]
pub struct SongRecord {
    pub path: String,
    pub folder: String,
    pub name: String,
    pub title: String,
    pub artist: String,
    pub album: String,
    pub year: String,
    pub format_type: String,
    pub bitrate: i32,
    pub sample_rate: i32,
    pub bits_per_sample: i32,
    pub duration: i64,
    pub meta_scanned: bool,
}

/// The content of a `SongRecord`.
pub struct Song {
    pub path: Seq<char>,
    pub folder: Seq<char>,
    pub name: Seq<char>,
    pub title: Seq<char>,
    pub artist: Seq<char>,
    pub album: Seq<char>,
    pub year: Seq<char>,
    pub format_type: Seq<char>,
    pub bitrate: int,
    pub sample_rate: int,
    pub bits_per_sample: int,
    pub duration: int,
    pub meta_scanned: bool,
}

impl View for SongRecord {
    type V = Song;

    open spec fn view(&self) -> Song {
        Song {
            path: self.path@,
            folder: self.folder@,
            name: self.name@,
            title: self.title@,
            artist: self.artist@,
            album: self.album@,
            year: self.year@,
            format_type: self.format_type@,
            bitrate: self.bitrate as int,
            sample_rate: self.sample_rate as int,
            bits_per_sample: self.bits_per_sample as int,
            duration: self.duration as int,
            meta_scanned: self.meta_scanned,
        }
    }
}

/// A song found on disk. The time of its last change is in nanoseconds.
#[derive(Debug)]
pub struct SongScanEntry {
    pub path: String,
    pub name: String,
    pub format_type: String,
    pub title: String,
    pub mtime: i64,
}

/// The content of a `SongScanEntry`.
pub struct Found {
    pub path: Seq<char>,
    pub name: Seq<char>,
    pub format_type: Seq<char>,
    pub title: Seq<char>,
    pub mtime: int,
}

impl View for SongScanEntry {
    type V = Found;

    open spec fn view(&self) -> Found {
        Found {
            path: self.path@,
            name: self.name@,
            format_type: self.format_type@,
            title: self.title@,
            mtime: self.mtime as int,
        }
    }
}

/// The contents of folders.
pub open spec fn folders_of(v: Seq<FolderRecord>) -> Seq<Folder> {
    v.map_values(|f: FolderRecord| f@)
}

/// The contents of songs.
pub open spec fn songs_of(v: Seq<SongRecord>) -> Seq<Song> {
    v.map_values(|s: SongRecord| s@)
}

/// The contents of songs found on disk.
pub open spec fn found_of(v: Seq<SongScanEntry>) -> Seq<Found> {
    v.map_values(|s: SongScanEntry| s@)
}

/// The folder in a row: path, name and audio flag.
pub open spec fn folder_in(row: Option<Seq<Datum>>) -> Option<Folder> {
    match row {
        Some(r) => match (text_at(r, 0), text_at(r, 1), small_at(r, 2)) {
            (Some(path), Some(name), Some(flag)) => Some(
                Folder { path, name, has_audio: flag != 0 },
            ),
            _ => None,
        },
        None => None,
    }
}

/// The song in a row: the texts from path to format, the three numbers, the
/// duration, an unused place, and whether its metadata was read.
pub open spec fn song_in(row: Option<Seq<Datum>>) -> Option<Song> {
    match row {
        Some(r) => if (forall|i: int| 0 <= i < 8 ==> (#[trigger] text_at(r, i)) is Some) && (
        forall|i: int| 8 <= i < 11 ==> (#[trigger] small_at(r, i)) is Some) && integer_at(
            r,
            11,
        ) is Some && small_at(r, 13) is Some {
            Some(
                Song {
                    path: text_at(r, 0)->0,
                    folder: text_at(r, 1)->0,
                    name: text_at(r, 2)->0,
                    title: text_at(r, 3)->0,
                    artist: text_at(r, 4)->0,
                    album: text_at(r, 5)->0,
                    year: text_at(r, 6)->0,
                    format_type: text_at(r, 7)->0,
                    bitrate: small_at(r, 8)->0,
                    sample_rate: small_at(r, 9)->0,
                    bits_per_sample: small_at(r, 10)->0,
                    duration: integer_at(r, 11)->0,
                    meta_scanned: small_at(r, 13)->0 != 0,
                },
            )
        } else {
            None
        },
        None => None,
    }
}

/// The folder in a row.
pub fn row_to_folder(row: &Option<Vec<Cell>>) -> (r: Option<FolderRecord>)
    ensures
        match r {
            Some(f) => folder_in(opt_row_data(*row)) == Some(f@),
            None => folder_in(opt_row_data(*row)) is None,
        },
{
    match row {
        Some(r) => match (cell_text(r, 0), cell_text(r, 1), cell_small(r, 2)) {
            (Some(path), Some(name), Some(flag)) => Some(
                FolderRecord { path, name, has_audio: flag != 0 },
            ),
            _ => None,
        },
        None => None,
    }
}

/// The song in a row.
pub fn row_to_song(row: &Option<Vec<Cell>>) -> (r: Option<SongRecord>)
    ensures
        match r {
            Some(s) => song_in(opt_row_data(*row)) == Some(s@),
            None => song_in(opt_row_data(*row)) is None,
        },
{
    let ghost d = opt_row_data(*row);
    let r = match row {
        Some(r) => r,
        None => {
            return None;
        },
    };
    let ghost d = row_data(r@);
    let mut words: Vec<String> = Vec::new();
    for i in 0..8usize
        invariant
            d == row_data(r@),
            opt_row_data(*row) == Some(d),
            words.len() == i,
            forall|j: int| 0 <= j < i ==> #[trigger] text_at(d, j) == Some(words@[j]@),
    {
        match cell_text(r, i) {
            Some(t) => {
                words.push(t);
            },
            None => {
                assert(text_at(d, i as int) is None);
                return None;
            },
        }
    }
    let bitrate = match cell_small(r, 8) {
        Some(n) => n,
        None => {
            return None;
        },
    };
    let sample_rate = match cell_small(r, 9) {
        Some(n) => n,
        None => {
            return None;
        },
    };
    let bits_per_sample = match cell_small(r, 10) {
        Some(n) => n,
        None => {
            return None;
        },
    };
    let duration = match cell_integer(r, 11) {
        Some(n) => n,
        None => {
            return None;
        },
    };
    let meta_scanned = match cell_small(r, 13) {
        Some(n) => n != 0,
        None => {
            return None;
        },
    };
    assert(forall|j: int| 0 <= j < 8 ==> #[trigger] text_at(d, j) == Some(words@[j]@));
    let song = SongRecord {
        path: words[0].clone(),
        folder: words[1].clone(),
        name: words[2].clone(),
        title: words[3].clone(),
        artist: words[4].clone(),
        album: words[5].clone(),
        year: words[6].clone(),
        format_type: words[7].clone(),
        bitrate,
        sample_rate,
        bits_per_sample,
        duration,
        meta_scanned,
    };
    proof {
        assert(text_at(d, 0) is Some && text_at(d, 1) is Some && text_at(d, 2) is Some);
        assert(text_at(d, 3) is Some && text_at(d, 4) is Some && text_at(d, 5) is Some);
        assert(text_at(d, 6) is Some && text_at(d, 7) is Some);
    }
    Some(song)
}

/// The folders in rows; rows that cannot be read are left out.
pub open spec fn folders_in(rows: Seq<Option<Seq<Datum>>>) -> Seq<Folder> {
    rows.filter_map(|row: Option<Seq<Datum>>| folder_in(row))
}

/// The songs in rows; rows that cannot be read are left out.
pub open spec fn songs_in(rows: Seq<Option<Seq<Datum>>>) -> Seq<Song> {
    rows.filter_map(|row: Option<Seq<Datum>>| song_in(row))
}

/// The folders in rows.
pub fn rows_to_folders(rows: &Vec<Option<Vec<Cell>>>) -> (r: Vec<FolderRecord>)
    ensures
        folders_of(r@) == folders_in(rows_data(rows@)),
{
    let ghost f = |row: Option<Seq<Datum>>| folder_in(row);
    let ghost all = rows_data(rows@);
    let mut r: Vec<FolderRecord> = Vec::new();
    for i in 0..rows.len()
        invariant
            all == rows_data(rows@),
            f == (|row: Option<Seq<Datum>>| folder_in(row)),
            folders_of(r@) == all.take(i as int).filter_map(f),
    {
        proof {
            all.lemma_filter_map_take_succ(f, i as int);
        }
        assert(all[i as int] == opt_row_data(rows@[i as int]));
        if let Some(folder) = row_to_folder(&rows[i]) {
            let ghost before = r@;
            r.push(folder);
            assert(folders_of(r@) == folders_of(before).push(folder@));
        }
    }
    assert(all.take(all.len() as int) == all);
    r
}

/// The songs in rows.
pub fn rows_to_songs(rows: &Vec<Option<Vec<Cell>>>) -> (r: Vec<SongRecord>)
    ensures
        songs_of(r@) == songs_in(rows_data(rows@)),
{
    let ghost f = |row: Option<Seq<Datum>>| song_in(row);
    let ghost all = rows_data(rows@);
    let mut r: Vec<SongRecord> = Vec::new();
    for i in 0..rows.len()
        invariant
            all == rows_data(rows@),
            f == (|row: Option<Seq<Datum>>| song_in(row)),
            songs_of(r@) == all.take(i as int).filter_map(f),
    {
        proof {
            all.lemma_filter_map_take_succ(f, i as int);
        }
        assert(all[i as int] == opt_row_data(rows@[i as int]));
        if let Some(song) = row_to_song(&rows[i]) {
            let ghost before = r@;
            r.push(song);
            assert(songs_of(r@) == songs_of(before).push(song@));
        }
    }
    assert(all.take(all.len() as int) == all);
    r
}

/// The bytes that a row begins with. A row that begins with nothing has none.
pub open spec fn bytes_in(row: Option<Seq<Datum>>) -> Option<Seq<u8>> {
    match row {
        Some(r) => bytes_at(r, 0),
        None => None,
    }
}

/// The bytes that a row begins with.
pub fn row_to_bytes(row: &Option<Vec<Cell>>) -> (r: Option<Vec<u8>>)
    ensures
        match r {
            Some(b) => bytes_in(opt_row_data(*row)) == Some(b@),
            None => bytes_in(opt_row_data(*row)) is None,
        },
{
    match row {
        Some(r) => cell_bytes(r, 0),
        None => None,
    }
}

} // verus!
