//! What the statements mean: the tables of the library, how the statements change
//! them, and how queries are answered from them.
//!
//! A run of exchanges is faithful when every query in it is answered from the
//! tables as the statements before it have left them. The database is asked to
//! keep to this; what follows for the library where it does is proved of the
//! exchanges that the operations make.
use crate::catalog::apart;
use crate::cover_cache::{cover_map, song_cover_in, song_covers_in};
use crate::library_db::first_texts;
use crate::matching::{below_roots, holds_word, named_before, nocase_at_most};
use crate::queries::{are_paths, are_rows, are_songs, asked_for, query_text, song_data, SongQuery};
use crate::records::{folder_in, folders_in, song_in, songs_in, Folder, Song};
use crate::sql::{
    CHILD_FOLDERS, CLEAR_ALL, COUNT_AUDIO_CHILDREN, COUNT_FOLDER_SONGS, DELETE_COVER, DELETE_FOLDER,
    DELETE_FOLDER_SONGS, DELETE_FOLDER_SONG_COVERS, DELETE_SONG, DROP_TABLES, FIRST_SONG_COVER,
    FOLDER_CHILDREN, FOLDER_MTIME, FOLDER_SONGS, GET_COVER, GET_SONG_COVER, GET_VERSION, HAS_COVER,
    HAS_META, MARK_NO_COVER, SCHEMA, SEARCH_LIMIT, SET_COVER, SET_HAS_AUDIO, SET_SONG_COVER,
    SET_VERSION, SONGS_OF_FOLDER, SONG_COVERS_OF_FOLDER, SONG_MTIME, UPDATE_METADATA, UPSERT_FOLDER,
    UPSERT_SONG, UPSERT_SUBFOLDER,
};
use crate::store::{
    bytes_at, integer_at, row_in, rows_in, small_at, text_at, Datum, Exchange, Reply, Request,
};
use vstd::prelude::*;

verus! {

/// A row of the table of folders.
pub struct FolderRow {
    pub parent: Option<Seq<char>>,
    pub name: Seq<char>,
    pub mtime: int,
    pub has_audio: int,
    pub scanned_at: int,
}

/// What is kept of a song besides its title, once it was read.
pub struct Metadata {
    pub artist: Seq<char>,
    pub album: Seq<char>,
    pub year: Seq<char>,
    pub bitrate: int,
    pub sample_rate: int,
    pub bits_per_sample: int,
    pub duration: int,
}

/// A row of the table of songs.
pub struct SongRow {
    pub folder: Seq<char>,
    pub name: Seq<char>,
    pub title: Seq<char>,
    pub format_type: Seq<char>,
    pub meta: Metadata,
    pub mtime: int,
    pub meta_scanned: bool,
}

/// What is kept of a song that was not read yet.
pub open spec fn no_metadata() -> Metadata {
    Metadata {
        artist: Seq::empty(),
        album: Seq::empty(),
        year: Seq::empty(),
        bitrate: 0,
        sample_rate: 0,
        bits_per_sample: 0,
        duration: 0,
    }
}

/// By how much, in nanoseconds, a time that is read may be off from the one that
/// was kept.
pub const READ_ERROR: i64 = 10_000;

/// The tables, each by the paths that its rows are for. A folder that is known to
/// have no cover has a row without data. The version is the one that was noted;
/// before the tables are made there is no place to note it. Times are kept as
/// fractions of seconds, so they come back nearly, not exactly: `read_time` is what
/// a time reads as.
pub struct Tables {
    pub folders: Map<Seq<char>, FolderRow>,
    pub songs: Map<Seq<char>, SongRow>,
    pub covers: Map<Seq<char>, Option<Seq<u8>>>,
    pub song_covers: Map<Seq<char>, Seq<u8>>,
    pub made: bool,
    pub version: Option<Seq<char>>,
    pub read_time: spec_fn(int) -> int,
}

/// The text of a parameter.
pub open spec fn text_param(params: Seq<Datum>, i: int) -> Seq<char> {
    text_at(params, i)->0
}

/// The number of a parameter.
pub open spec fn integer_param(params: Seq<Datum>, i: int) -> int {
    integer_at(params, i)->0
}

/// The songs that do not lie in a folder.
pub open spec fn songs_outside(t: Tables, path: Seq<char>) -> Map<Seq<char>, SongRow> {
    t.songs.restrict(Set::new(|s: Seq<char>| t.songs.contains_key(s) && t.songs[s].folder != path))
}

/// The covers of songs of which some are left. With a song its cover goes.
pub open spec fn covers_left(t: Tables, songs: Map<Seq<char>, SongRow>) -> Map<
    Seq<char>,
    Seq<u8>,
> {
    t.song_covers.restrict(
        Set::new(|s: Seq<char>| !(t.songs.contains_key(s) && !songs.contains_key(s))),
    )
}

/// The tables after songs of a folder were taken out.
pub open spec fn without_songs(t: Tables, path: Seq<char>) -> Tables {
    Tables {
        songs: songs_outside(t, path),
        song_covers: covers_left(t, songs_outside(t, path)),
        ..t
    }
}

/// The tables after a statement was run.
pub open spec fn executed(t: Tables, sql: Seq<char>, params: Seq<Datum>) -> Tables {
    if sql == "INSERT INTO covers (folder_path,source,data) VALUES (?1,?2,?3) \
     ON CONFLICT(folder_path) DO UPDATE SET source=excluded.source,data=excluded.data"@ {
        Tables { covers: t.covers.insert(text_param(params, 0), bytes_at(params, 2)), ..t }
    } else if sql == "INSERT INTO covers (folder_path, source, data) VALUES (?1, 'none', NULL) \
     ON CONFLICT(folder_path) DO NOTHING"@ {
        if t.covers.contains_key(text_param(params, 0)) {
            t
        } else {
            Tables { covers: t.covers.insert(text_param(params, 0), None), ..t }
        }
    } else if sql == "INSERT INTO song_covers (song_path,data) VALUES (?1,?2) \
     ON CONFLICT(song_path) DO UPDATE SET data=excluded.data"@ {
        Tables {
            song_covers: t.song_covers.insert(text_param(params, 0), bytes_at(params, 1)->0),
            ..t
        }
    } else if sql == "DELETE FROM covers WHERE folder_path=?1"@ {
        Tables { covers: t.covers.remove(text_param(params, 0)), ..t }
    } else if sql == "DELETE FROM songs WHERE folder=?1"@ {
        without_songs(t, text_param(params, 0))
    } else if sql == "DELETE FROM song_covers WHERE song_path IN (SELECT path FROM songs WHERE folder=?1)"@ {
        Tables {
            song_covers: covers_left(t, songs_outside(t, text_param(params, 0))),
            ..t
        }
    } else if sql == "DELETE FROM folders WHERE path=?1"@ {
        let rest = without_songs(t, text_param(params, 0));
        Tables {
            folders: t.folders.remove(text_param(params, 0)),
            covers: t.covers.remove(text_param(params, 0)),
            ..rest
        }
    } else if sql == "DELETE FROM songs WHERE path=?1"@ {
        let path = text_param(params, 0);
        Tables { songs: t.songs.remove(path), song_covers: t.song_covers.remove(path), ..t }
    } else if sql == "UPDATE folders SET has_audio=?1 WHERE path=?2"@ {
        let path = text_param(params, 1);
        if t.folders.contains_key(path) {
            Tables {
                folders: t.folders.insert(
                    path,
                    FolderRow { has_audio: integer_param(params, 0), ..t.folders[path] },
                ),
                ..t
            }
        } else {
            t
        }
    } else if sql == "INSERT INTO folders (path,parent,name,mtime,has_audio,scanned_at) \
     VALUES (?1,?2,?3,?4/1000000000.0,?5,?6/1000000000.0) \
     ON CONFLICT(path) DO UPDATE SET parent=excluded.parent,name=excluded.name,\
     mtime=excluded.mtime,has_audio=excluded.has_audio,scanned_at=excluded.scanned_at"@ {
        Tables {
            folders: t.folders.insert(
                text_param(params, 0),
                FolderRow {
                    parent: text_at(params, 1),
                    name: text_param(params, 2),
                    mtime: integer_param(params, 3),
                    has_audio: integer_param(params, 4),
                    scanned_at: integer_param(params, 5),
                },
            ),
            ..t
        }
    } else if sql == "INSERT INTO folders (path,parent,name,mtime,has_audio,scanned_at) \
     VALUES (?1,?2,?3,0,0,0) \
     ON CONFLICT(path) DO UPDATE SET parent=excluded.parent,name=excluded.name"@ {
        let path = text_param(params, 0);
        Tables {
            folders: t.folders.insert(
                path,
                FolderRow {
                    parent: text_at(params, 1),
                    name: text_param(params, 2),
                    mtime: if t.folders.contains_key(path) {
                        t.folders[path].mtime
                    } else {
                        0
                    },
                    has_audio: if t.folders.contains_key(path) {
                        t.folders[path].has_audio
                    } else {
                        0
                    },
                    scanned_at: if t.folders.contains_key(path) {
                        t.folders[path].scanned_at
                    } else {
                        0
                    },
                },
            ),
            ..t
        }
    } else if sql == "INSERT INTO songs (path,folder,name,title,format_type,mtime) \
     VALUES (?1,?2,?3,?4,?5,?6/1000000000.0) \
     ON CONFLICT(path) DO UPDATE SET folder=excluded.folder,name=excluded.name,\
     title=excluded.title,format_type=excluded.format_type,\
     mtime=excluded.mtime,meta_scanned=0"@ {
        let path = text_param(params, 0);
        Tables {
            songs: t.songs.insert(
                path,
                SongRow {
                    folder: text_param(params, 1),
                    name: text_param(params, 2),
                    title: text_param(params, 3),
                    format_type: text_param(params, 4),
                    meta: if t.songs.contains_key(path) {
                        t.songs[path].meta
                    } else {
                        no_metadata()
                    },
                    mtime: integer_param(params, 5),
                    meta_scanned: false,
                },
            ),
            ..t
        }
    } else if sql == "UPDATE songs SET title=?1,artist=?2,album=?3,year=?4,\
     bitrate=?5,sample_rate=?6,bits_per_sample=?7,duration=?8/1000000000.0,\
     meta_scanned=1 WHERE path=?9"@ {
        let path = text_param(params, 8);
        if t.songs.contains_key(path) {
            Tables {
                songs: t.songs.insert(
                    path,
                    SongRow {
                        title: text_param(params, 0),
                        meta: Metadata {
                            artist: text_param(params, 1),
                            album: text_param(params, 2),
                            year: text_param(params, 3),
                            bitrate: integer_param(params, 4),
                            sample_rate: integer_param(params, 5),
                            bits_per_sample: integer_param(params, 6),
                            duration: integer_param(params, 7),
                        },
                        meta_scanned: true,
                        ..t.songs[path]
                    },
                ),
                ..t
            }
        } else {
            t
        }
    } else if sql == "INSERT INTO db_meta (key, value) VALUES ('version', ?1)"@ {
        Tables { version: Some(text_param(params, 0)), ..t }
    } else {
        t
    }
}

/// The tables without their rows of folders, songs and covers.
pub open spec fn emptied(t: Tables) -> Tables {
    Tables {
        folders: Map::empty(),
        songs: Map::empty(),
        covers: Map::empty(),
        song_covers: Map::empty(),
        ..t
    }
}

/// The tables after an exchange. A statement that failed changes nothing, nor does
/// a query.
pub open spec fn effect(t: Tables, e: Exchange) -> Tables {
    match (e.request, e.reply) {
        (Request::Execute(sql, params), Reply::Changed(Some(_))) => executed(t, sql, params),
        (Request::Batch(sql), Reply::Ran(true)) => if sql == "DELETE FROM song_covers; DELETE FROM covers; DELETE FROM songs; DELETE FROM folders;"@ {
            emptied(t)
        } else if sql == "DROP TABLE IF EXISTS song_covers; DROP TABLE IF EXISTS covers; \
     DROP TABLE IF EXISTS songs; DROP TABLE IF EXISTS folders; DROP TABLE IF EXISTS db_meta;"@ {
            Tables { made: false, version: None, ..emptied(t) }
        } else if sql == "
CREATE TABLE IF NOT EXISTS db_meta (
    key   TEXT PRIMARY KEY,
    value TEXT
);
CREATE TABLE IF NOT EXISTS folders (
    path       TEXT PRIMARY KEY,
    parent     TEXT,
    name       TEXT NOT NULL,
    mtime      REAL NOT NULL DEFAULT 0,
    has_audio  INTEGER NOT NULL DEFAULT 0,
    scanned_at REAL NOT NULL DEFAULT 0
);
CREATE TABLE IF NOT EXISTS songs (
    path            TEXT PRIMARY KEY,
    folder          TEXT NOT NULL,
    name            TEXT NOT NULL,
    title           TEXT NOT NULL DEFAULT '',
    artist          TEXT NOT NULL DEFAULT '',
    album           TEXT NOT NULL DEFAULT '',
    year            TEXT NOT NULL DEFAULT '',
    format_type     TEXT NOT NULL DEFAULT '',
    bitrate         INTEGER NOT NULL DEFAULT 0,
    sample_rate     INTEGER NOT NULL DEFAULT 0,
    bits_per_sample INTEGER NOT NULL DEFAULT 0,
    duration        REAL NOT NULL DEFAULT 0.0,
    mtime           REAL NOT NULL DEFAULT 0,
    meta_scanned    INTEGER NOT NULL DEFAULT 0,
    FOREIGN KEY (folder) REFERENCES folders(path) ON DELETE CASCADE
);
CREATE TABLE IF NOT EXISTS covers (
    folder_path TEXT PRIMARY KEY,
    source      TEXT NOT NULL DEFAULT '',
    data        BLOB,
    FOREIGN KEY (folder_path) REFERENCES folders(path) ON DELETE CASCADE
);
CREATE TABLE IF NOT EXISTS song_covers (
    song_path TEXT PRIMARY KEY,
    data      BLOB NOT NULL,
    FOREIGN KEY (song_path) REFERENCES songs(path) ON DELETE CASCADE
);
CREATE INDEX IF NOT EXISTS idx_songs_folder ON songs(folder);
CREATE INDEX IF NOT EXISTS idx_folders_parent ON folders(parent);
CREATE INDEX IF NOT EXISTS idx_songs_title ON songs(title COLLATE NOCASE);
CREATE INDEX IF NOT EXISTS idx_songs_artist ON songs(artist COLLATE NOCASE);
CREATE INDEX IF NOT EXISTS idx_songs_album ON songs(album COLLATE NOCASE);
"@ {
            Tables { made: true, ..t }
        } else {
            t
        },
        _ => t,
    }
}

/// The tables after a run of exchanges.
pub open spec fn tables(t: Tables, seg: Seq<Exchange>) -> Tables
    decreases seg.len(),
{
    if seg.len() == 0 {
        t
    } else {
        effect(tables(t, seg.drop_last()), seg.last())
    }
}

/// Whether a folder lies directly in another one.
pub open spec fn is_child(t: Tables, path: Seq<char>, child: Seq<char>) -> bool {
    t.folders.contains_key(child) && t.folders[child].parent == Some(path)
}

/// Whether a song lies directly in a folder.
pub open spec fn is_song_in(t: Tables, path: Seq<char>, song: Seq<char>) -> bool {
    t.songs.contains_key(song) && t.songs[song].folder == path
}

/// Whether a folder has songs.
pub open spec fn has_song(t: Tables, path: Seq<char>) -> bool {
    exists|s: Seq<char>| #[trigger] is_song_in(t, path, s)
}

/// Whether a folder directly in a folder is flagged as holding audio.
pub open spec fn has_flagged_child(t: Tables, path: Seq<char>) -> bool {
    exists|c: Seq<char>| #[trigger] is_child(t, path, c) && t.folders[c].has_audio == 1
}

/// Whether a time that was read is the one that was kept.
pub open spec fn read_back(t: Tables, kept: int, read: int) -> bool {
    read == (t.read_time)(kept) && apart(kept, read) < READ_ERROR
}

/// Whether a song directly in a folder has a cover.
pub open spec fn is_covered_in(t: Tables, path: Seq<char>, song: Seq<char>) -> bool {
    is_song_in(t, path, song) && t.song_covers.contains_key(song)
}

/// Whether a song does not come after another one in the list of a folder.
pub open spec fn listed_before(t: Tables, song: Seq<char>, other: Seq<char>) -> bool {
    named_before(t.songs[song].name, song, t.songs[other].name, other)
}

/// Whether a row holds the cover of the first song of a folder that has one.
#[verifier::opaque]
pub open spec fn shows_first_cover(t: Tables, path: Seq<char>, row: Option<Seq<Datum>>) -> bool {
    match row {
        Some(r) => exists|s: Seq<char>| #[trigger]
            is_covered_in(t, path, s) && r == seq![Datum::Blob(t.song_covers[s])] && (forall|
                o: Seq<char>,
            | #[trigger]
                is_covered_in(t, path, o) ==> listed_before(t, s, o)),
        None => forall|s: Seq<char>| !(#[trigger] is_covered_in(t, path, s)),
    }
}

/// The covers of the songs directly in a folder.
pub open spec fn covers_in(t: Tables, path: Seq<char>) -> Map<Seq<char>, Seq<u8>> {
    t.song_covers.restrict(Set::new(|s: Seq<char>| is_song_in(t, path, s)))
}

/// Whether a song is one of those in the roots or below them.
pub open spec fn lies_under(t: Tables, roots: Seq<Seq<char>>, song: Seq<char>) -> bool {
    t.songs.contains_key(song) && below_roots(roots, t.songs[song].folder)
}

/// The songs in the roots or below them.
pub open spec fn songs_under(t: Tables, roots: Seq<Seq<char>>) -> Set<Seq<char>> {
    Set::new(|s: Seq<char>| lies_under(t, roots, s))
}

/// The songs in the roots or below them that were not read yet.
pub open spec fn unread_under(t: Tables, roots: Seq<Seq<char>>) -> Set<Seq<char>> {
    Set::new(|s: Seq<char>| lies_under(t, roots, s) && !t.songs[s].meta_scanned)
}

/// Whether a song holds a word in its title, its artist, its album or its name.
pub open spec fn song_holds_word(row: SongRow, word: Seq<char>) -> bool {
    ||| holds_word(row.title, word)
    ||| holds_word(row.meta.artist, word)
    ||| holds_word(row.meta.album, word)
    ||| holds_word(row.name, word)
}

/// Whether a song in the roots or below them holds all words.
pub open spec fn is_match(
    t: Tables,
    roots: Seq<Seq<char>>,
    words: Seq<Seq<char>>,
    song: Seq<char>,
) -> bool {
    lies_under(t, roots, song) && forall|i: int|
        0 <= i < words.len() ==> song_holds_word(t.songs[song], #[trigger] words[i])
}

/// The songs in the roots or below them that hold all words.
pub open spec fn matches_under(
    t: Tables,
    roots: Seq<Seq<char>>,
    words: Seq<Seq<char>>,
) -> Set<Seq<char>> {
    Set::new(|s: Seq<char>| is_match(t, roots, words, s))
}

/// Whether a song belongs to the playlist of the roots without an artist.
pub open spec fn is_played(
    t: Tables,
    roots: Seq<Seq<char>>,
    exclude: Option<Seq<char>>,
    song: Seq<char>,
) -> bool {
    lies_under(t, roots, song) && (exclude matches Some(artist) ==> !holds_word(
        t.songs[song].meta.artist,
        artist,
    ))
}

/// The smaller of two numbers.
pub open spec fn at_most_of(n: nat, limit: int) -> int {
    if n < limit {
        n as int
    } else {
        limit
    }
}

/// Whether paths are the playlist of the roots without an artist: each song of it
/// once, by path, whatever its case.
#[verifier::opaque]
pub open spec fn is_playlist(
    t: Tables,
    roots: Seq<Seq<char>>,
    exclude: Option<Seq<char>>,
    list: Seq<Seq<char>>,
) -> bool {
    &&& list.no_duplicates()
    &&& forall|s: Seq<char>| #[trigger] list.contains(s) <==> is_played(t, roots, exclude, s)
    &&& forall|i: int, j: int|
        0 <= i < j < list.len() ==> nocase_at_most(#[trigger] list[i], #[trigger] list[j])
}

/// Whether paths are songs in the roots or below them that were not read yet: each
/// of them once, as many as there are up to a limit. A limit below zero is none.
#[verifier::opaque]
pub open spec fn is_unread_list(
    t: Tables,
    roots: Seq<Seq<char>>,
    limit: int,
    list: Seq<Seq<char>>,
) -> bool {
    &&& list.no_duplicates()
    &&& forall|s: Seq<char>| #[trigger] list.contains(s) ==> unread_under(t, roots).contains(s)
    &&& list.len() == if limit < 0 {
        unread_under(t, roots).len() as int
    } else {
        at_most_of(unread_under(t, roots).len(), limit)
    }
}

/// Whether songs are the matches of a search: each of them once, as many as there
/// are up to a limit, the first ones by title, whatever its case.
#[verifier::opaque]
pub open spec fn is_search_result(
    t: Tables,
    roots: Seq<Seq<char>>,
    words: Seq<Seq<char>>,
    list: Seq<Song>,
) -> bool {
    &&& forall|i: int|
        0 <= i < list.len() ==> is_match(t, roots, words, (#[trigger] list[i]).path) && shows_song(
            t,
            t.songs[list[i].path],
            list[i],
        )
    &&& forall|i: int, j: int|
        0 <= i < j < list.len() ==> (#[trigger] list[i]).path != (#[trigger] list[j]).path
            && nocase_at_most(list[i].title, list[j].title)
    &&& list.len() == at_most_of(matches_under(t, roots, words).len(), SEARCH_LIMIT as int)
    &&& forall|s: Seq<char>, i: int|
        #[trigger] is_match(t, roots, words, s) && 0 <= i < list.len() && (forall|j: int|
            0 <= j < list.len() ==> (#[trigger] list[j]).path != s) ==> nocase_at_most(
            (#[trigger] list[i]).title,
            t.songs[s].title,
        )
}

/// Whether the answer to a query for a number of songs is right.
#[verifier::opaque]
pub open spec fn right_count(
    t: Tables,
    sql: Seq<char>,
    params: Seq<Seq<char>>,
    row: Option<Seq<Datum>>,
) -> bool {
    forall|query: SongQuery|
        query is Count && sql == #[trigger] query_text(query) ==> row == Some(
            seq![Datum::Integer(asked_for(t, query, params).len() as int)],
        )
}

/// Whether the answer to a query for songs is right.
#[verifier::opaque]
pub open spec fn right_list(
    t: Tables,
    sql: Seq<char>,
    params: Seq<Seq<char>>,
    rows: Option<Seq<Option<Seq<Datum>>>>,
) -> bool {
    forall|query: SongQuery|
        !(query is Count) && sql == #[trigger] query_text(query) ==> (rows matches Some(list)
            && are_rows(t, query, params, list))
}

/// Whether the answer to a query about the tables themselves is right.
pub open spec fn right_about(t: Tables, sql: Seq<char>, row: Option<Seq<Datum>>) -> bool {
    if sql == "SELECT count(*) FROM sqlite_master WHERE type='table' AND name='db_meta'"@ {
        is_count(row, t.made)
    } else if sql == "SELECT value FROM db_meta WHERE key='version'"@ {
        row == match t.version {
            Some(v) => Some(seq![Datum::Text(v)]),
            None => None,
        }
    } else {
        true
    }
}

/// Whether a row is a count, of something or of nothing.
pub open spec fn is_count(row: Option<Seq<Datum>>, something: bool) -> bool {
    &&& row matches Some(r) && r.len() == 1
    &&& row->0[0] matches Datum::Integer(n) && 0 <= n <= i32::MAX && (n > 0) == something
}

/// Whether the answer to a query for the first row is right.
pub open spec fn right_row(t: Tables, sql: Seq<char>, p: Seq<char>, row: Option<Seq<Datum>>) -> bool {
    if sql == "SELECT data FROM covers WHERE folder_path=?1"@ {
        row == if t.covers.contains_key(p) {
            Some(
                seq![
                    match t.covers[p] {
                        Some(b) => Datum::Blob(b),
                        None => Datum::Null,
                    },
                ],
            )
        } else {
            None
        }
    } else if sql == "SELECT 1 FROM covers WHERE folder_path=?1"@ {
        row is Some <==> t.covers.contains_key(p)
    } else if sql == "SELECT data FROM song_covers WHERE song_path=?1"@ {
        row == if t.song_covers.contains_key(p) {
            Some(seq![Datum::Blob(t.song_covers[p])])
        } else {
            None
        }
    } else if sql == "SELECT sc.data FROM song_covers sc \
     INNER JOIN songs s ON s.path = sc.song_path WHERE s.folder = ?1 \
     ORDER BY s.name COLLATE NOCASE,s.path LIMIT 1"@ {
        shows_first_cover(t, p, row)
    } else if sql == "SELECT COUNT(*) FROM songs WHERE folder=?1"@ {
        is_count(row, has_song(t, p))
    } else if sql == "SELECT COUNT(*) FROM folders WHERE parent=?1 AND has_audio=1"@ {
        is_count(row, has_flagged_child(t, p))
    } else if sql == "SELECT CAST(ROUND(mtime*1000000000.0) AS INTEGER) FROM folders WHERE path=?1"@ {
        match row {
            Some(r) => {
                &&& t.folders.contains_key(p)
                &&& r.len() == 1
                &&& r[0] matches Datum::Integer(m) && read_back(t, t.folders[p].mtime, m)
            },
            None => !t.folders.contains_key(p),
        }
    } else if sql == "SELECT CAST(ROUND(mtime*1000000000.0) AS INTEGER), meta_scanned FROM songs WHERE path=?1"@ {
        match row {
            Some(r) => {
                &&& t.songs.contains_key(p)
                &&& r.len() == 2
                &&& r[0] matches Datum::Integer(m) && read_back(t, t.songs[p].mtime, m)
                &&& r[1] == Datum::Integer(
                    if t.songs[p].meta_scanned {
                        1
                    } else {
                        0
                    },
                )
            },
            None => !t.songs.contains_key(p),
        }
    } else {
        true
    }
}

/// Whether a song that was read is the one of a row.
pub open spec fn shows_song(t: Tables, row: SongRow, song: Song) -> bool {
    &&& song.folder == row.folder
    &&& song.name == row.name
    &&& song.title == row.title
    &&& song.artist == row.meta.artist
    &&& song.album == row.meta.album
    &&& song.year == row.meta.year
    &&& song.format_type == row.format_type
    &&& song.bitrate == row.meta.bitrate
    &&& song.sample_rate == row.meta.sample_rate
    &&& song.bits_per_sample == row.meta.bits_per_sample
    &&& read_back(t, row.meta.duration, song.duration)
    &&& song.meta_scanned == row.meta_scanned
}

/// Whether a folder that was read is the one of a row.
pub open spec fn shows_folder(row: FolderRow, folder: Folder) -> bool {
    folder.name == row.name && folder.has_audio == (row.has_audio != 0)
}

/// Whether songs are those of a folder, each once, by name.
#[verifier::opaque]
pub open spec fn shows_songs(t: Tables, path: Seq<char>, list: Seq<Song>) -> bool {
    &&& forall|i: int|
        0 <= i < list.len() ==> is_song_in(t, path, (#[trigger] list[i]).path) && shows_song(
            t,
            t.songs[list[i].path],
            list[i],
        )
    &&& forall|s: Seq<char>| #[trigger]
        is_song_in(t, path, s) ==> exists|i: int|
            0 <= i < list.len() && (#[trigger] list[i]).path == s
    &&& forall|i: int, j: int|
        0 <= i < j < list.len() ==> (#[trigger] list[i]).path != (#[trigger] list[j]).path
            && listed_before(t, list[i].path, list[j].path)
}

/// Whether folders are those directly in a folder, each once, by name.
#[verifier::opaque]
pub open spec fn shows_folders(t: Tables, path: Seq<char>, list: Seq<Folder>) -> bool {
    &&& forall|i: int|
        0 <= i < list.len() ==> is_child(t, path, (#[trigger] list[i]).path) && shows_folder(
            t.folders[list[i].path],
            list[i],
        )
    &&& forall|c: Seq<char>| #[trigger]
        is_child(t, path, c) ==> exists|i: int|
            0 <= i < list.len() && (#[trigger] list[i]).path == c
    &&& forall|i: int, j: int|
        0 <= i < j < list.len() ==> (#[trigger] list[i]).path != (#[trigger] list[j]).path
            && nocase_at_most(list[i].name, list[j].name)
}

/// Whether rows are the paths of all folders directly in a folder.
pub open spec fn are_child_paths(
    t: Tables,
    path: Seq<char>,
    folders: Seq<Seq<char>>,
    rows: Seq<Option<Seq<Datum>>>,
) -> bool {
    are_paths(folders, rows) && forall|c: Seq<char>| #[trigger]
        folders.contains(c) <==> is_child(t, path, c)
}

/// Whether rows are the paths of all songs directly in a folder.
pub open spec fn are_song_paths(
    t: Tables,
    path: Seq<char>,
    songs: Seq<Seq<char>>,
    rows: Seq<Option<Seq<Datum>>>,
) -> bool {
    are_paths(songs, rows) && forall|s: Seq<char>| #[trigger]
        songs.contains(s) <==> is_song_in(t, path, s)
}

/// Whether rows are the songs directly in a folder, each once, by name.
pub open spec fn are_folder_songs(
    t: Tables,
    path: Seq<char>,
    songs: Seq<Seq<char>>,
    rows: Seq<Option<Seq<Datum>>>,
) -> bool {
    &&& are_songs(t, songs, rows)
    &&& songs.no_duplicates()
    &&& forall|s: Seq<char>| #[trigger] songs.contains(s) <==> is_song_in(t, path, s)
    &&& forall|i: int, j: int|
        0 <= i < j < songs.len() ==> listed_before(t, #[trigger] songs[i], #[trigger] songs[j])
}

/// Whether rows are the folders directly in a folder, each once, by name.
pub open spec fn are_children(
    t: Tables,
    path: Seq<char>,
    folders: Seq<Seq<char>>,
    rows: Seq<Option<Seq<Datum>>>,
) -> bool {
    &&& rows.len() == folders.len()
    &&& forall|i: int|
        0 <= i < folders.len() ==> {
            let row = t.folders[folders[i]];
            &&& (#[trigger] rows[i]) == Some(
                seq![
                    Datum::Text(folders[i]),
                    Datum::Text(row.name),
                    Datum::Integer(row.has_audio),
                ],
            )
            &&& i32::MIN <= row.has_audio <= i32::MAX
        }
    &&& folders.no_duplicates()
    &&& forall|c: Seq<char>| #[trigger] folders.contains(c) <==> is_child(t, path, c)
    &&& forall|i: int, j: int|
        0 <= i < j < folders.len() ==> nocase_at_most(
            t.folders[#[trigger] folders[i]].name,
            t.folders[#[trigger] folders[j]].name,
        )
}

/// Whether rows are the covers of the songs directly in a folder.
pub open spec fn are_song_covers(
    t: Tables,
    path: Seq<char>,
    songs: Seq<Seq<char>>,
    rows: Seq<Option<Seq<Datum>>>,
) -> bool {
    &&& rows.len() == songs.len()
    &&& forall|i: int|
        0 <= i < songs.len() ==> (#[trigger] rows[i]) == Some(
            seq![Datum::Text(songs[i]), Datum::Blob(t.song_covers[songs[i]])],
        )
    &&& songs.no_duplicates()
    &&& forall|s: Seq<char>| #[trigger] songs.contains(s) <==> is_covered_in(t, path, s)
}

/// Whether the rows that answer a query are those of the tables.
#[verifier::opaque]
pub open spec fn true_rows(
    t: Tables,
    sql: Seq<char>,
    p: Seq<char>,
    rows: Option<Seq<Option<Seq<Datum>>>>,
) -> bool {
    if sql == "SELECT path FROM folders WHERE parent=?1"@ {
        rows matches Some(list) && exists|folders: Seq<Seq<char>>| #[trigger]
            are_child_paths(t, p, folders, list)
    } else if sql == "SELECT path FROM songs WHERE folder=?1"@ {
        rows matches Some(list) && exists|songs: Seq<Seq<char>>| #[trigger]
            are_song_paths(t, p, songs, list)
    } else if sql == "SELECT path,folder,name,title,artist,album,year,format_type,\
     bitrate,sample_rate,bits_per_sample,CAST(ROUND(duration*1000000000.0) AS INTEGER),\
     mtime,meta_scanned FROM songs WHERE folder=?1 ORDER BY name COLLATE NOCASE,path"@ {
        rows matches Some(list) && exists|songs: Seq<Seq<char>>| #[trigger]
            are_folder_songs(t, p, songs, list)
    } else if sql == "SELECT path, name, has_audio FROM folders WHERE parent=?1 ORDER BY name COLLATE NOCASE"@ {
        rows matches Some(list) && exists|folders: Seq<Seq<char>>| #[trigger]
            are_children(t, p, folders, list)
    } else if sql == "SELECT sc.song_path, sc.data FROM song_covers sc \
     INNER JOIN songs s ON s.path = sc.song_path WHERE s.folder = ?1"@ {
        rows matches Some(list) && exists|songs: Seq<Seq<char>>| #[trigger]
            are_song_covers(t, p, songs, list)
    } else {
        true
    }
}

/// Whether what is read from the rows that answer a query is right.
pub open spec fn right_rows(
    t: Tables,
    sql: Seq<char>,
    p: Seq<char>,
    rows: Option<Seq<Option<Seq<Datum>>>>,
) -> bool {
    if sql == CHILD_FOLDERS@ {
        rows matches Some(list) && forall|c: Seq<char>|
            #[trigger] first_texts(list).contains(c) <==> is_child(t, p, c)
    } else if sql == SONGS_OF_FOLDER@ {
        rows matches Some(list) && forall|s: Seq<char>|
            #[trigger] first_texts(list).contains(s) <==> is_song_in(t, p, s)
    } else if sql == FOLDER_SONGS@ {
        rows matches Some(list) && shows_songs(t, p, songs_in(list))
    } else if sql == FOLDER_CHILDREN@ {
        rows matches Some(list) && shows_folders(t, p, folders_in(list))
    } else if sql == SONG_COVERS_OF_FOLDER@ {
        rows matches Some(list) && song_covers_in(list) == covers_in(t, p)
    } else {
        true
    }
}

/// Whether an exchange is answered from the tables.
#[verifier::opaque]
pub open spec fn answers(t: Tables, e: Exchange) -> bool {
    match e.request {
        Request::QueryRow(sql, params) => {
            &&& params.len() == 0 ==> right_about(t, sql, row_in(e))
            &&& params.len() == 1 ==> right_row(t, sql, params[0], row_in(e))
            &&& right_count(t, sql, params, row_in(e))
        },
        Request::QueryMap(sql, params) => {
            &&& params.len() == 1 ==> true_rows(t, sql, params[0], rows_in(e))
            &&& right_list(t, sql, params, rows_in(e))
        },
        _ => true,
    }
}

/// A row that answers a query for it is right.
pub proof fn row_is_right(t: Tables, e: Exchange, sql: Seq<char>, p: Seq<char>)
    requires
        answers(t, e),
        e.request == Request::QueryRow(sql, seq![p]),
    ensures
        right_row(t, sql, p, row_in(e)),
{
    reveal(answers);
}

/// Rows that answer a query for them are right.
pub proof fn rows_are_right(t: Tables, e: Exchange, sql: Seq<char>, p: Seq<char>)
    requires
        answers(t, e),
        e.request == Request::QueryMap(sql, seq![p]),
    ensures
        right_rows(t, sql, p, rows_in(e)),
{
    reveal(answers);
    reveal(true_rows);
    query_lengths();
    if sql == CHILD_FOLDERS@ {
        let list = rows_in(e)->0;
        let keys = choose|keys: Seq<Seq<char>>| #[trigger] are_child_paths(t, p, keys, list);
        paths_are_read(keys, list);
    } else if sql == SONGS_OF_FOLDER@ {
        let list = rows_in(e)->0;
        let keys = choose|keys: Seq<Seq<char>>| #[trigger] are_song_paths(t, p, keys, list);
        paths_are_read(keys, list);
    } else if sql == FOLDER_SONGS@ {
        let list = rows_in(e)->0;
        let keys = choose|keys: Seq<Seq<char>>| #[trigger] are_folder_songs(t, p, keys, list);
        folder_songs_are_read(t, p, keys, list);
    } else if sql == FOLDER_CHILDREN@ {
        let list = rows_in(e)->0;
        let keys = choose|keys: Seq<Seq<char>>| #[trigger] are_children(t, p, keys, list);
        children_are_read(t, p, keys, list);
    } else if sql == SONG_COVERS_OF_FOLDER@ {
        let list = rows_in(e)->0;
        let keys = choose|keys: Seq<Seq<char>>| #[trigger] are_song_covers(t, p, keys, list);
        song_covers_are_read(t, p, keys, list);
    }
}

/// What is read of rows that can all be read.
pub proof fn all_are_read<A, B>(rows: Seq<A>, f: spec_fn(A) -> Option<B>)
    requires
        forall|i: int| 0 <= i < rows.len() ==> f(#[trigger] rows[i]) is Some,
    ensures
        rows.filter_map(f).len() == rows.len(),
        forall|i: int|
            0 <= i < rows.len() ==> #[trigger] rows.filter_map(f)[i] == f(rows[i])->0,
{
    all_are_read_up_to(rows, f, rows.len() as int);
    assert(rows.take(rows.len() as int) =~= rows);
}

proof fn all_are_read_up_to<A, B>(rows: Seq<A>, f: spec_fn(A) -> Option<B>, n: int)
    requires
        forall|i: int| 0 <= i < rows.len() ==> f(#[trigger] rows[i]) is Some,
        0 <= n <= rows.len(),
    ensures
        rows.take(n).filter_map(f).len() == n,
        forall|i: int| 0 <= i < n ==> #[trigger] rows.take(n).filter_map(f)[i] == f(rows[i])->0,
    decreases n,
{
    if n == 0 {
        reveal(Seq::filter_map);
        assert(rows.take(0).len() == 0);
    } else {
        all_are_read_up_to(rows, f, n - 1);
        rows.lemma_filter_map_take_succ(f, n - 1);
    }
}

/// Paths are read as they stand in their rows.
pub proof fn paths_are_read(paths: Seq<Seq<char>>, rows: Seq<Option<Seq<Datum>>>)
    requires
        are_paths(paths, rows),
    ensures
        first_texts(rows) == paths,
{
    let f = |row: Option<Seq<Datum>>|
        match row {
            Some(r) => text_at(r, 0),
            None => None,
        };
    assert forall|i: int| 0 <= i < rows.len() implies f(#[trigger] rows[i]) == Some(paths[i]) by {
        assert(rows[i] == Some(seq![Datum::Text(paths[i])]));
    }
    all_are_read(rows, f);
    assert(first_texts(rows) =~= paths);
}

/// Songs are read as they stand in their rows: each field is the one of the song.
pub proof fn songs_are_read(t: Tables, songs: Seq<Seq<char>>, rows: Seq<Option<Seq<Datum>>>)
    requires
        are_songs(t, songs, rows),
    ensures
        songs_in(rows).len() == songs.len(),
        forall|i: int|
            0 <= i < songs.len() ==> (#[trigger] songs_in(rows)[i]).path == songs[i] && shows_song(
                t,
                t.songs[songs[i]],
                songs_in(rows)[i],
            ),
{
    let f = |row: Option<Seq<Datum>>| song_in(row);
    assert forall|i: int| 0 <= i < rows.len() implies f(#[trigger] rows[i]) is Some && (f(
        rows[i],
    )->0).path == songs[i] && shows_song(t, t.songs[songs[i]], f(rows[i])->0) by {
        let r = song_data(t, songs[i]);
        assert(rows[i] == Some(r));
        assert forall|j: int| 0 <= j < 8 implies (#[trigger] text_at(r, j)) is Some by {}
        assert forall|j: int| 8 <= j < 11 implies (#[trigger] small_at(r, j)) is Some by {}
        assert(small_at(r, 13) is Some);
    }
    all_are_read(rows, f);
}

proof fn folder_songs_are_read(
    t: Tables,
    path: Seq<char>,
    songs: Seq<Seq<char>>,
    rows: Seq<Option<Seq<Datum>>>,
)
    requires
        are_folder_songs(t, path, songs, rows),
    ensures
        shows_songs(t, path, songs_in(rows)),
{
    reveal(shows_songs);
    songs_are_read(t, songs, rows);
    let list = songs_in(rows);
    assert forall|i: int| 0 <= i < list.len() implies is_song_in(
        t,
        path,
        (#[trigger] list[i]).path,
    ) && shows_song(t, t.songs[list[i].path], list[i]) by {
        assert(songs.contains(songs[i]));
    }
    assert forall|s: Seq<char>| #[trigger] is_song_in(t, path, s) implies exists|i: int|
        0 <= i < list.len() && (#[trigger] list[i]).path == s by {
        assert(songs.contains(s));
        let i = choose|i: int| 0 <= i < songs.len() && songs[i] == s;
        assert(list[i].path == s);
    }
    assert forall|i: int, j: int| 0 <= i < j < list.len() implies (#[trigger] list[i]).path != (
    #[trigger] list[j]).path && listed_before(t, list[i].path, list[j].path) by {
        assert(songs[i] != songs[j]);
    }
}

proof fn children_are_read(
    t: Tables,
    path: Seq<char>,
    folders: Seq<Seq<char>>,
    rows: Seq<Option<Seq<Datum>>>,
)
    requires
        are_children(t, path, folders, rows),
    ensures
        shows_folders(t, path, folders_in(rows)),
{
    reveal(shows_folders);
    let f = |row: Option<Seq<Datum>>| folder_in(row);
    assert forall|i: int| 0 <= i < rows.len() implies f(#[trigger] rows[i]) is Some && (f(
        rows[i],
    )->0).path == folders[i] && shows_folder(t.folders[folders[i]], f(rows[i])->0) by {
        let row = t.folders[folders[i]];
        let r = seq![
            Datum::Text(folders[i]),
            Datum::Text(row.name),
            Datum::Integer(row.has_audio),
        ];
        assert(rows[i] == Some(r));
        assert(text_at(r, 0) is Some && text_at(r, 1) is Some && small_at(r, 2) is Some);
    }
    all_are_read(rows, f);
    let list = folders_in(rows);
    assert forall|i: int| 0 <= i < list.len() implies is_child(
        t,
        path,
        (#[trigger] list[i]).path,
    ) && shows_folder(t.folders[list[i].path], list[i]) by {
        assert(folders.contains(folders[i]));
    }
    assert forall|c: Seq<char>| #[trigger] is_child(t, path, c) implies exists|i: int|
        0 <= i < list.len() && (#[trigger] list[i]).path == c by {
        assert(folders.contains(c));
        let i = choose|i: int| 0 <= i < folders.len() && folders[i] == c;
        assert(list[i].path == c);
    }
    assert forall|i: int, j: int| 0 <= i < j < list.len() implies (#[trigger] list[i]).path != (
    #[trigger] list[j]).path && nocase_at_most(list[i].name, list[j].name) by {
        assert(folders[i] != folders[j]);
    }
}

proof fn song_covers_are_read(
    t: Tables,
    path: Seq<char>,
    songs: Seq<Seq<char>>,
    rows: Seq<Option<Seq<Datum>>>,
)
    requires
        are_song_covers(t, path, songs, rows),
    ensures
        song_covers_in(rows) == covers_in(t, path),
{
    let f = |row: Option<Seq<Datum>>| song_cover_in(row);
    assert forall|i: int| 0 <= i < rows.len() implies f(#[trigger] rows[i]) == Some(
        (songs[i], t.song_covers[songs[i]]),
    ) by {
        let r = seq![Datum::Text(songs[i]), Datum::Blob(t.song_covers[songs[i]])];
        assert(rows[i] == Some(r));
        assert(text_at(r, 0) is Some && bytes_at(r, 1) is Some);
    }
    all_are_read(rows, f);
    let pairs = rows.filter_map(f);
    pairs_make_a_map(t, songs, pairs, pairs.len() as int);
    assert(pairs.take(pairs.len() as int) =~= pairs);
    assert forall|s: Seq<char>| #[trigger] song_covers_in(rows).contains_key(s) == covers_in(
        t,
        path,
    ).contains_key(s) by {
        assert(songs.contains(s) <==> is_covered_in(t, path, s));
    }
    assert(song_covers_in(rows) =~= covers_in(t, path));
}

proof fn pairs_make_a_map(
    t: Tables,
    songs: Seq<Seq<char>>,
    pairs: Seq<(Seq<char>, Seq<u8>)>,
    n: int,
)
    requires
        pairs.len() == songs.len(),
        forall|i: int|
            0 <= i < pairs.len() ==> #[trigger] pairs[i] == (songs[i], t.song_covers[songs[i]]),
        0 <= n <= pairs.len(),
    ensures
        forall|s: Seq<char>| #[trigger]
            cover_map(pairs.take(n)).contains_key(s) <==> songs.take(n).contains(s),
        forall|s: Seq<char>| #[trigger]
            cover_map(pairs.take(n)).contains_key(s) ==> cover_map(pairs.take(n))[s]
                == t.song_covers[s],
        n == songs.len() ==> forall|s: Seq<char>| #[trigger]
            cover_map(pairs.take(n)).contains_key(s) <==> songs.contains(s),
    decreases n,
{
    if n > 0 {
        pairs_make_a_map(t, songs, pairs, n - 1);
        assert(pairs.take(n).drop_last() =~= pairs.take(n - 1));
        assert(pairs.take(n).last() == pairs[n - 1]);
        let before = cover_map(pairs.take(n - 1));
        let after = cover_map(pairs.take(n));
        assert(after == before.insert(songs[n - 1], t.song_covers[songs[n - 1]]));
        assert forall|s: Seq<char>| #[trigger] after.contains_key(s) <==> before.contains_key(s)
            || s == songs[n - 1] by {}
        assert forall|s: Seq<char>| #[trigger] after.contains_key(s) implies after[s]
            == t.song_covers[s] by {
            if s != songs[n - 1] {
                assert(before.contains_key(s));
            }
        }
        assert forall|s: Seq<char>| #[trigger] songs.take(n).contains(s) <==> songs.take(
            n - 1,
        ).contains(s) || s == songs[n - 1] by {
            let some = songs.take(n - 1);
            let more = songs.take(n);
            if some.contains(s) {
                let i = choose|i: int| 0 <= i < some.len() && some[i] == s;
                assert(more[i] == s);
            }
            if more.contains(s) && s != songs[n - 1] {
                let i = choose|i: int| 0 <= i < more.len() && more[i] == s;
                assert(some[i] == s);
            }
            assert(more[n - 1] == songs[n - 1]);
        }
        assert forall|s: Seq<char>| #[trigger] after.contains_key(s) <==> songs.take(n).contains(
            s,
        ) by {
            assert(before.contains_key(s) <==> songs.take(n - 1).contains(s));
        }
    } else {
        assert(pairs.take(n).len() == 0);
        assert(songs.take(n).len() == 0);
    }
    if n == songs.len() {
        assert(songs.take(n) =~= songs);
    }
}

/// A row that answers a query about the tables themselves is right.
pub proof fn row_about_is_right(t: Tables, e: Exchange, sql: Seq<char>)
    requires
        answers(t, e),
        e.request == Request::QueryRow(sql, Seq::empty()),
    ensures
        right_about(t, sql, row_in(e)),
{
    reveal(answers);
}

/// Whether every query of a run is answered from the tables as they are then.
#[verifier::opaque]
pub open spec fn faithful(t: Tables, seg: Seq<Exchange>) -> bool {
    forall|i: int| 0 <= i < seg.len() ==> answers(tables(t, seg.take(i)), #[trigger] seg[i])
}

/// Whether every statement of a run went through.
pub open spec fn went_through(seg: Seq<Exchange>) -> bool {
    forall|i: int|
        0 <= i < seg.len() ==> match (#[trigger] seg[i]).request {
            Request::Execute(_, _) => seg[i].reply matches Reply::Changed(n) && n is Some,
            Request::Batch(_) => seg[i].reply == Reply::Ran(true),
            _ => true,
        }
}

/// Whether a run holds only queries.
pub open spec fn only_queries(seg: Seq<Exchange>) -> bool {
    forall|i: int|
        0 <= i < seg.len() ==> ((#[trigger] seg[i]).request is QueryRow || seg[i].request is QueryMap)
}

/// The lengths of the statements, by which they differ.
pub proof fn statement_lengths()
    ensures
        SET_COVER@.len() == 143,
        MARK_NO_COVER@.len() == 108,
        SET_SONG_COVER@.len() == 111,
        DELETE_COVER@.len() == 39,
        DELETE_FOLDER_SONGS@.len() == 33,
        DELETE_FOLDER_SONG_COVERS@.len() == 83,
        DELETE_FOLDER@.len() == 33,
        DELETE_FOLDER_SONGS@ != DELETE_FOLDER@,
        DELETE_SONG@.len() == 31,
        SET_HAS_AUDIO@.len() == 45,
        UPSERT_FOLDER@.len() == 273,
        UPSERT_SUBFOLDER@.len() == 163,
        UPSERT_SONG@.len() == 264,
        UPDATE_METADATA@.len() == 151,
        SET_VERSION@.len() == 55,
{
    reveal_strlit(
        "INSERT INTO covers (folder_path,source,data) VALUES (?1,?2,?3) \
         ON CONFLICT(folder_path) DO UPDATE SET source=excluded.source,data=excluded.data",
    );
    reveal_strlit(
        "INSERT INTO covers (folder_path, source, data) VALUES (?1, 'none', NULL) \
         ON CONFLICT(folder_path) DO NOTHING",
    );
    reveal_strlit(
        "INSERT INTO song_covers (song_path,data) VALUES (?1,?2) \
         ON CONFLICT(song_path) DO UPDATE SET data=excluded.data",
    );
    reveal_strlit("DELETE FROM covers WHERE folder_path=?1");
    reveal_strlit("DELETE FROM songs WHERE folder=?1");
    reveal_strlit(
        "DELETE FROM song_covers WHERE song_path IN (SELECT path FROM songs WHERE folder=?1)",
    );
    reveal_strlit("DELETE FROM folders WHERE path=?1");
    reveal_strlit("DELETE FROM songs WHERE path=?1");
    reveal_strlit("UPDATE folders SET has_audio=?1 WHERE path=?2");
    reveal_strlit("INSERT INTO db_meta (key, value) VALUES ('version', ?1)");
    reveal_strlit(
        "INSERT INTO folders (path,parent,name,mtime,has_audio,scanned_at) \
         VALUES (?1,?2,?3,?4/1000000000.0,?5,?6/1000000000.0) \
         ON CONFLICT(path) DO UPDATE SET parent=excluded.parent,name=excluded.name,\
         mtime=excluded.mtime,has_audio=excluded.has_audio,scanned_at=excluded.scanned_at",
    );
    reveal_strlit(
        "INSERT INTO folders (path,parent,name,mtime,has_audio,scanned_at) \
         VALUES (?1,?2,?3,0,0,0) \
         ON CONFLICT(path) DO UPDATE SET parent=excluded.parent,name=excluded.name",
    );
    reveal_strlit(
        "INSERT INTO songs (path,folder,name,title,format_type,mtime) \
         VALUES (?1,?2,?3,?4,?5,?6/1000000000.0) \
         ON CONFLICT(path) DO UPDATE SET folder=excluded.folder,name=excluded.name,\
         title=excluded.title,format_type=excluded.format_type,\
         mtime=excluded.mtime,meta_scanned=0",
    );
    reveal_strlit(
        "UPDATE songs SET title=?1,artist=?2,album=?3,year=?4,\
         bitrate=?5,sample_rate=?6,bits_per_sample=?7,duration=?8/1000000000.0,\
         meta_scanned=1 WHERE path=?9",
    );
    assert(DELETE_FOLDER_SONGS@[12] != DELETE_FOLDER@[12]);
}

/// The lengths of the batches of statements, by which they differ.
pub proof fn batch_lengths()
    ensures
        CLEAR_ALL@.len() == 84,
        DROP_TABLES@.len() == 150,
        SCHEMA@.len() > 200,
{
    reveal_strlit(
        "DELETE FROM song_covers; DELETE FROM covers; DELETE FROM songs; DELETE FROM folders;",
    );
    reveal_strlit(
        "DROP TABLE IF EXISTS song_covers; DROP TABLE IF EXISTS covers; \
         DROP TABLE IF EXISTS songs; DROP TABLE IF EXISTS folders; DROP TABLE IF EXISTS db_meta;",
    );
    reveal_strlit("
CREATE TABLE IF NOT EXISTS db_meta (
    key   TEXT PRIMARY KEY,
    value TEXT
);
CREATE TABLE IF NOT EXISTS folders (
    path       TEXT PRIMARY KEY,
    parent     TEXT,
    name       TEXT NOT NULL,
    mtime      REAL NOT NULL DEFAULT 0,
    has_audio  INTEGER NOT NULL DEFAULT 0,
    scanned_at REAL NOT NULL DEFAULT 0
);
CREATE TABLE IF NOT EXISTS songs (
    path            TEXT PRIMARY KEY,
    folder          TEXT NOT NULL,
    name            TEXT NOT NULL,
    title           TEXT NOT NULL DEFAULT '',
    artist          TEXT NOT NULL DEFAULT '',
    album           TEXT NOT NULL DEFAULT '',
    year            TEXT NOT NULL DEFAULT '',
    format_type     TEXT NOT NULL DEFAULT '',
    bitrate         INTEGER NOT NULL DEFAULT 0,
    sample_rate     INTEGER NOT NULL DEFAULT 0,
    bits_per_sample INTEGER NOT NULL DEFAULT 0,
    duration        REAL NOT NULL DEFAULT 0.0,
    mtime           REAL NOT NULL DEFAULT 0,
    meta_scanned    INTEGER NOT NULL DEFAULT 0,
    FOREIGN KEY (folder) REFERENCES folders(path) ON DELETE CASCADE
);
CREATE TABLE IF NOT EXISTS covers (
    folder_path TEXT PRIMARY KEY,
    source      TEXT NOT NULL DEFAULT '',
    data        BLOB,
    FOREIGN KEY (folder_path) REFERENCES folders(path) ON DELETE CASCADE
);
CREATE TABLE IF NOT EXISTS song_covers (
    song_path TEXT PRIMARY KEY,
    data      BLOB NOT NULL,
    FOREIGN KEY (song_path) REFERENCES songs(path) ON DELETE CASCADE
);
CREATE INDEX IF NOT EXISTS idx_songs_folder ON songs(folder);
CREATE INDEX IF NOT EXISTS idx_folders_parent ON folders(parent);
CREATE INDEX IF NOT EXISTS idx_songs_title ON songs(title COLLATE NOCASE);
CREATE INDEX IF NOT EXISTS idx_songs_artist ON songs(artist COLLATE NOCASE);
CREATE INDEX IF NOT EXISTS idx_songs_album ON songs(album COLLATE NOCASE);
");
}

/// The lengths of the queries, by which they differ.
pub proof fn query_lengths()
    ensures
        CHILD_FOLDERS@.len() == 40,
        SONGS_OF_FOLDER@.len() == 38,
        FOLDER_SONGS@.len() == 221,
        FOLDER_CHILDREN@.len() == 86,
        GET_COVER@.len() == 44,
        HAS_COVER@.len() == 41,
        GET_SONG_COVER@.len() == 47,
        COUNT_FOLDER_SONGS@.len() == 42,
        COUNT_AUDIO_CHILDREN@.len() == 60,
        FOLDER_MTIME@.len() == 76,
        SONG_MTIME@.len() == 88,
        FIRST_SONG_COVER@.len() == 144,
        SONG_COVERS_OF_FOLDER@.len() == 112,
        HAS_META@.len() == 72,
        GET_VERSION@.len() == 45,
{
    reveal_strlit("SELECT path FROM folders WHERE parent=?1");
    reveal_strlit("SELECT path FROM songs WHERE folder=?1");
    reveal_strlit(
        "SELECT path,folder,name,title,artist,album,year,format_type,\
         bitrate,sample_rate,bits_per_sample,CAST(ROUND(duration*1000000000.0) AS INTEGER),\
         mtime,meta_scanned FROM songs WHERE folder=?1 ORDER BY name COLLATE NOCASE,path",
    );
    reveal_strlit(
        "SELECT path, name, has_audio FROM folders WHERE parent=?1 ORDER BY name COLLATE NOCASE",
    );
    reveal_strlit("SELECT data FROM covers WHERE folder_path=?1");
    reveal_strlit("SELECT 1 FROM covers WHERE folder_path=?1");
    reveal_strlit("SELECT data FROM song_covers WHERE song_path=?1");
    reveal_strlit("SELECT COUNT(*) FROM songs WHERE folder=?1");
    reveal_strlit("SELECT COUNT(*) FROM folders WHERE parent=?1 AND has_audio=1");
    reveal_strlit(
        "SELECT CAST(ROUND(mtime*1000000000.0) AS INTEGER) FROM folders WHERE path=?1",
    );
    reveal_strlit(
        "SELECT CAST(ROUND(mtime*1000000000.0) AS INTEGER), meta_scanned FROM songs WHERE path=?1",
    );
    reveal_strlit(
        "SELECT sc.data FROM song_covers sc \
         INNER JOIN songs s ON s.path = sc.song_path WHERE s.folder = ?1 \
         ORDER BY s.name COLLATE NOCASE,s.path LIMIT 1",
    );
    reveal_strlit(
        "SELECT sc.song_path, sc.data FROM song_covers sc \
         INNER JOIN songs s ON s.path = sc.song_path WHERE s.folder = ?1",
    );
    reveal_strlit("SELECT count(*) FROM sqlite_master WHERE type='table' AND name='db_meta'");
    reveal_strlit("SELECT value FROM db_meta WHERE key='version'");
}

/// A run can be taken apart: the tables after it are those after its second part,
/// from those after its first part on; it is faithful where both parts are.
pub proof fn runs_split(t: Tables, seg: Seq<Exchange>, k: int)
    requires
        0 <= k <= seg.len(),
    ensures
        tables(t, seg) == tables(tables(t, seg.take(k)), seg.skip(k)),
        faithful(t, seg) == (faithful(t, seg.take(k)) && faithful(
            tables(t, seg.take(k)),
            seg.skip(k),
        )),
        went_through(seg) == (went_through(seg.take(k)) && went_through(seg.skip(k))),
{
    let a = seg.take(k);
    let b = seg.skip(k);
    tables_split(t, seg, k);
    if faithful(t, seg) {
        parts_are_faithful(t, seg, k);
    }
    if faithful(t, a) && faithful(tables(t, a), b) {
        whole_is_faithful(t, seg, k);
    }
    if went_through(a) && went_through(b) {
        assert forall|i: int| 0 <= i < seg.len() implies match (#[trigger] seg[i]).request {
            Request::Execute(_, _) => seg[i].reply matches Reply::Changed(n) && n is Some,
            Request::Batch(_) => seg[i].reply == Reply::Ran(true),
            _ => true,
        } by {
            if i < k {
                assert(a[i] == seg[i]);
            } else {
                assert(b[i - k] == seg[i]);
            }
        }
    }
}

proof fn parts_are_faithful(t: Tables, seg: Seq<Exchange>, k: int)
    requires
        0 <= k <= seg.len(),
        faithful(t, seg),
    ensures
        faithful(t, seg.take(k)),
        faithful(tables(t, seg.take(k)), seg.skip(k)),
{
    reveal(faithful);
    let a = seg.take(k);
    let b = seg.skip(k);
    assert forall|i: int| 0 <= i < a.len() implies answers(tables(t, a.take(i)), #[trigger] a[i]) by {
        assert(a.take(i) =~= seg.take(i));
        assert(a[i] == seg[i]);
    }
    assert forall|i: int| 0 <= i < b.len() implies answers(
        tables(tables(t, a), b.take(i)),
        #[trigger] b[i],
    ) by {
        assert(b[i] == seg[k + i]);
        tables_on_the_way(t, seg, k, k + i);
    }
}

#[verifier::spinoff_prover]
proof fn whole_is_faithful(t: Tables, seg: Seq<Exchange>, k: int)
    requires
        0 <= k <= seg.len(),
        faithful(t, seg.take(k)),
        faithful(tables(t, seg.take(k)), seg.skip(k)),
    ensures
        faithful(t, seg),
{
    reveal(faithful);
    assert forall|i: int| 0 <= i < seg.len() implies answers(
        tables(t, seg.take(i)),
        #[trigger] seg[i],
    ) by {
        if i < k {
            let a = seg.take(k);
            assert(a.take(i) =~= seg.take(i));
            assert(answers(tables(t, a.take(i)), a[i]));
        } else {
            let b = seg.skip(k);
            tables_on_the_way(t, seg, k, i);
            assert(answers(tables(tables(t, seg.take(k)), b.take(i - k)), b[i - k]));
        }
    }
}

proof fn tables_on_the_way(t: Tables, seg: Seq<Exchange>, k: int, i: int)
    requires
        0 <= k <= i <= seg.len(),
    ensures
        tables(tables(t, seg.take(k)), seg.skip(k).take(i - k)) == tables(t, seg.take(i)),
{
    tables_split(t, seg.take(i), k);
    assert(seg.take(i).take(k) =~= seg.take(k));
    assert(seg.take(i).skip(k) =~= seg.skip(k).take(i - k));
}

proof fn tables_split(t: Tables, seg: Seq<Exchange>, k: int)
    requires
        0 <= k <= seg.len(),
    ensures
        tables(t, seg) == tables(tables(t, seg.take(k)), seg.skip(k)),
    decreases seg.len(),
{
    if k == seg.len() {
        assert(seg.take(k) =~= seg);
        assert(seg.skip(k).len() == 0);
    } else {
        tables_split(t, seg.drop_last(), k);
        assert(seg.drop_last().take(k) =~= seg.take(k));
        assert(seg.skip(k).drop_last() =~= seg.drop_last().skip(k));
        assert(seg.skip(k).last() == seg.last());
    }
}

/// Queries leave the tables as they are.
pub proof fn queries_change_nothing(t: Tables, seg: Seq<Exchange>)
    requires
        only_queries(seg),
    ensures
        tables(t, seg) == t,
    decreases seg.len(),
{
    if seg.len() > 0 {
        let init = seg.drop_last();
        assert forall|i: int| 0 <= i < init.len() implies ((#[trigger] init[i]).request is QueryRow
            || init[i].request is QueryMap) by {
            assert(init[i] == seg[i]);
        }
        queries_change_nothing(t, init);
        assert(seg.last() == seg[seg.len() - 1]);
    }
}

/// A single exchange.
pub proof fn one_exchange(t: Tables, seg: Seq<Exchange>)
    requires
        seg.len() == 1,
    ensures
        tables(t, seg) == effect(t, seg[0]),
        faithful(t, seg) ==> answers(t, seg[0]),
{
    reveal(faithful);
    assert(seg.drop_last() =~= Seq::empty());
    assert(seg.last() == seg[0]);
    assert(tables(t, seg.drop_last()) == t);
    assert(seg.take(0) =~= Seq::empty());
    if faithful(t, seg) {
        assert(answers(tables(t, seg.take(0)), seg[0]));
    }
}

} // verus!
