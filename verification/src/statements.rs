//! What the statements read, and what each of them does to the tables.
use crate::queries::song_data;
use crate::scanning::text_or_null;
use crate::sql::{
    CHILD_FOLDERS, CLEAR_ALL, COUNT_AUDIO_CHILDREN, COUNT_FOLDER_SONGS, DB_VERSION, DELETE_COVER,
    DELETE_FOLDER, DELETE_FOLDER_SONGS, DELETE_FOLDER_SONG_COVERS, DELETE_SONG, DROP_TABLES,
    FIRST_SONG_COVER, FOLDER_CHILDREN, FOLDER_MTIME, FOLDER_SONGS, GET_COVER, GET_SONG_COVER,
    GET_VERSION, HAS_COVER, HAS_META, MARK_NO_COVER, PRAGMAS, SCHEMA, SEARCH_LIMIT, SEARCH_ORDER,
    SEARCH_SELECT, SET_COVER, SET_HAS_AUDIO, SET_SONG_COVER, SET_VERSION, SONGS_OF_FOLDER,
    SONG_COVERS_OF_FOLDER, SONG_MTIME, UPDATE_METADATA, UPSERT_FOLDER, UPSERT_SONG,
    UPSERT_SUBFOLDER,
};
use crate::store::{bytes_at, integer_at, text_at, Datum};
use crate::tables::{executed, is_song_in, no_metadata, statement_lengths, Tables};
use vstd::prelude::*;

verus! {

/// The statements, word by word.
pub proof fn statements_read_so()
    ensures
        HAS_META@ == "SELECT count(*) FROM sqlite_master WHERE type='table' AND name='db_meta'"@,
        GET_VERSION@ == "SELECT value FROM db_meta WHERE key='version'"@,
        SET_VERSION@ == "INSERT INTO db_meta (key, value) VALUES ('version', ?1)"@,
        DROP_TABLES@ == "DROP TABLE IF EXISTS song_covers; DROP TABLE IF EXISTS covers; \
     DROP TABLE IF EXISTS songs; DROP TABLE IF EXISTS folders; DROP TABLE IF EXISTS db_meta;"@,
        CLEAR_ALL@ ==
            "DELETE FROM song_covers; DELETE FROM covers; DELETE FROM songs; DELETE FROM folders;"@,
        PRAGMAS@ == "PRAGMA journal_mode=WAL; PRAGMA foreign_keys=ON; PRAGMA synchronous=NORMAL;"@,
        CHILD_FOLDERS@ == "SELECT path FROM folders WHERE parent=?1"@,
        DELETE_FOLDER_SONGS@ == "DELETE FROM songs WHERE folder=?1"@,
        DELETE_FOLDER_SONG_COVERS@ ==
            "DELETE FROM song_covers WHERE song_path IN (SELECT path FROM songs WHERE folder=?1)"@,
        DELETE_COVER@ == "DELETE FROM covers WHERE folder_path=?1"@,
        DELETE_FOLDER@ == "DELETE FROM folders WHERE path=?1"@,
        COUNT_FOLDER_SONGS@ == "SELECT COUNT(*) FROM songs WHERE folder=?1"@,
        COUNT_AUDIO_CHILDREN@ == "SELECT COUNT(*) FROM folders WHERE parent=?1 AND has_audio=1"@,
        SET_HAS_AUDIO@ == "UPDATE folders SET has_audio=?1 WHERE path=?2"@,
        FOLDER_MTIME@ ==
            "SELECT CAST(ROUND(mtime*1000000000.0) AS INTEGER) FROM folders WHERE path=?1"@,
        FOLDER_CHILDREN@ ==
            "SELECT path, name, has_audio FROM folders WHERE parent=?1 ORDER BY name COLLATE NOCASE"@,
        FOLDER_SONGS@ == "SELECT path,folder,name,title,artist,album,year,format_type,\
     bitrate,sample_rate,bits_per_sample,CAST(ROUND(duration*1000000000.0) AS INTEGER),\
     mtime,meta_scanned FROM songs WHERE folder=?1 ORDER BY name COLLATE NOCASE,path"@,
        UPSERT_FOLDER@ == "INSERT INTO folders (path,parent,name,mtime,has_audio,scanned_at) \
     VALUES (?1,?2,?3,?4/1000000000.0,?5,?6/1000000000.0) \
     ON CONFLICT(path) DO UPDATE SET parent=excluded.parent,name=excluded.name,\
     mtime=excluded.mtime,has_audio=excluded.has_audio,scanned_at=excluded.scanned_at"@,
        UPSERT_SUBFOLDER@ == "INSERT INTO folders (path,parent,name,mtime,has_audio,scanned_at) \
     VALUES (?1,?2,?3,0,0,0) \
     ON CONFLICT(path) DO UPDATE SET parent=excluded.parent,name=excluded.name"@,
        SONGS_OF_FOLDER@ == "SELECT path FROM songs WHERE folder=?1"@,
        DELETE_SONG@ == "DELETE FROM songs WHERE path=?1"@,
        SONG_MTIME@ ==
            "SELECT CAST(ROUND(mtime*1000000000.0) AS INTEGER), meta_scanned FROM songs WHERE path=?1"@,
        UPSERT_SONG@ == "INSERT INTO songs (path,folder,name,title,format_type,mtime) \
     VALUES (?1,?2,?3,?4,?5,?6/1000000000.0) \
     ON CONFLICT(path) DO UPDATE SET folder=excluded.folder,name=excluded.name,\
     title=excluded.title,format_type=excluded.format_type,\
     mtime=excluded.mtime,meta_scanned=0"@,
        UPDATE_METADATA@ == "UPDATE songs SET title=?1,artist=?2,album=?3,year=?4,\
     bitrate=?5,sample_rate=?6,bits_per_sample=?7,duration=?8/1000000000.0,\
     meta_scanned=1 WHERE path=?9"@,
        GET_COVER@ == "SELECT data FROM covers WHERE folder_path=?1"@,
        SET_COVER@ == "INSERT INTO covers (folder_path,source,data) VALUES (?1,?2,?3) \
     ON CONFLICT(folder_path) DO UPDATE SET source=excluded.source,data=excluded.data"@,
        HAS_COVER@ == "SELECT 1 FROM covers WHERE folder_path=?1"@,
        MARK_NO_COVER@ == "INSERT INTO covers (folder_path, source, data) VALUES (?1, 'none', NULL) \
     ON CONFLICT(folder_path) DO NOTHING"@,
        GET_SONG_COVER@ == "SELECT data FROM song_covers WHERE song_path=?1"@,
        SONG_COVERS_OF_FOLDER@ == "SELECT sc.song_path, sc.data FROM song_covers sc \
     INNER JOIN songs s ON s.path = sc.song_path WHERE s.folder = ?1"@,
        SET_SONG_COVER@ == "INSERT INTO song_covers (song_path,data) VALUES (?1,?2) \
     ON CONFLICT(song_path) DO UPDATE SET data=excluded.data"@,
        FIRST_SONG_COVER@ == "SELECT sc.data FROM song_covers sc \
     INNER JOIN songs s ON s.path = sc.song_path WHERE s.folder = ?1 \
     ORDER BY s.name COLLATE NOCASE,s.path LIMIT 1"@,
        SCHEMA@ == "
CREATE TABLE IF NOT EXISTS db_meta (
    key   TEXT PRIMARY KEY,
    value TEXT
);
CREATE TABLE IF NOT EXISTS folders (
    path       TEXT PRIMARY KEY,
    parent     TEXT,
    name       TEXT NOT NULL,
    mtime      REAL NOT NULL DEFAULT 0,
    has_audio  INTEGER NOT NULL DEFAULT 0,
    scanned_at REAL NOT NULL DEFAULT 0
);
CREATE TABLE IF NOT EXISTS songs (
    path            TEXT PRIMARY KEY,
    folder          TEXT NOT NULL,
    name            TEXT NOT NULL,
    title           TEXT NOT NULL DEFAULT '',
    artist          TEXT NOT NULL DEFAULT '',
    album           TEXT NOT NULL DEFAULT '',
    year            TEXT NOT NULL DEFAULT '',
    format_type     TEXT NOT NULL DEFAULT '',
    bitrate         INTEGER NOT NULL DEFAULT 0,
    sample_rate     INTEGER NOT NULL DEFAULT 0,
    bits_per_sample INTEGER NOT NULL DEFAULT 0,
    duration        REAL NOT NULL DEFAULT 0.0,
    mtime           REAL NOT NULL DEFAULT 0,
    meta_scanned    INTEGER NOT NULL DEFAULT 0,
    FOREIGN KEY (folder) REFERENCES folders(path) ON DELETE CASCADE
);
CREATE TABLE IF NOT EXISTS covers (
    folder_path TEXT PRIMARY KEY,
    source      TEXT NOT NULL DEFAULT '',
    data        BLOB,
    FOREIGN KEY (folder_path) REFERENCES folders(path) ON DELETE CASCADE
);
CREATE TABLE IF NOT EXISTS song_covers (
    song_path TEXT PRIMARY KEY,
    data      BLOB NOT NULL,
    FOREIGN KEY (song_path) REFERENCES songs(path) ON DELETE CASCADE
);
CREATE INDEX IF NOT EXISTS idx_songs_folder ON songs(folder);
CREATE INDEX IF NOT EXISTS idx_folders_parent ON folders(parent);
CREATE INDEX IF NOT EXISTS idx_songs_title ON songs(title COLLATE NOCASE);
CREATE INDEX IF NOT EXISTS idx_songs_artist ON songs(artist COLLATE NOCASE);
CREATE INDEX IF NOT EXISTS idx_songs_album ON songs(album COLLATE NOCASE);
"@,
        SEARCH_SELECT@ == "SELECT path,folder,name,title,artist,album,year,format_type,\
     bitrate,sample_rate,bits_per_sample,CAST(ROUND(duration*1000000000.0) AS INTEGER),\
     mtime,meta_scanned FROM songs WHERE ("@,
        SEARCH_ORDER@ == " ORDER BY title COLLATE NOCASE LIMIT 200"@,
        DB_VERSION == 3,
        SEARCH_LIMIT == 200,
{
}

/// Keeping the metadata of a song sets each field to the parameter that its column is given.
pub proof fn keeping_metadata_does_so(
    t: Tables,
    title: Seq<char>,
    artist: Seq<char>,
    album: Seq<char>,
    year: Seq<char>,
    bitrate: int,
    sample_rate: int,
    bits: int,
    duration: int,
    path: Seq<char>,
)
    requires
        t.songs.contains_key(path),
    ensures
        ({
            let after = executed(
                t,
                "UPDATE songs SET title=?1,artist=?2,album=?3,year=?4,\
     bitrate=?5,sample_rate=?6,bits_per_sample=?7,duration=?8/1000000000.0,\
     meta_scanned=1 WHERE path=?9"@,
                seq![
                    Datum::Text(title),
                    Datum::Text(artist),
                    Datum::Text(album),
                    Datum::Text(year),
                    Datum::Integer(bitrate),
                    Datum::Integer(sample_rate),
                    Datum::Integer(bits),
                    Datum::Integer(duration),
                    Datum::Text(path),
                ],
            );
            &&& after == (Tables { songs: after.songs, ..t })
            &&& after.songs.remove(path) == t.songs.remove(path)
            &&& after.songs.contains_key(path)
            &&& after.songs[path].title == title
            &&& after.songs[path].meta.artist == artist
            &&& after.songs[path].meta.album == album
            &&& after.songs[path].meta.year == year
            &&& after.songs[path].meta.bitrate == bitrate
            &&& after.songs[path].meta.sample_rate == sample_rate
            &&& after.songs[path].meta.bits_per_sample == bits
            &&& after.songs[path].meta.duration == duration
            &&& after.songs[path].meta_scanned
            &&& after.songs[path].folder == t.songs[path].folder
            &&& after.songs[path].name == t.songs[path].name
            &&& after.songs[path].format_type == t.songs[path].format_type
            &&& after.songs[path].mtime == t.songs[path].mtime
        }),
{
    statement_lengths();
    let params = seq![
        Datum::Text(title),
        Datum::Text(artist),
        Datum::Text(album),
        Datum::Text(year),
        Datum::Integer(bitrate),
        Datum::Integer(sample_rate),
        Datum::Integer(bits),
        Datum::Integer(duration),
        Datum::Text(path),
    ];
    assert(text_at(params, 0) == Some(title));
    assert(text_at(params, 1) == Some(artist));
    assert(text_at(params, 2) == Some(album));
    assert(text_at(params, 3) == Some(year));
    assert(integer_at(params, 4) == Some(bitrate));
    assert(integer_at(params, 5) == Some(sample_rate));
    assert(integer_at(params, 6) == Some(bits));
    assert(integer_at(params, 7) == Some(duration));
    assert(text_at(params, 8) == Some(path));
    let after = executed(t, UPDATE_METADATA@, params);
    assert(after.songs.remove(path) =~= t.songs.remove(path));
}

/// Keeping a song sets each field to the parameter that its column is given. What was read of
/// it stays, but is to be read again.
pub proof fn keeping_a_song_does_so(
    t: Tables,
    path: Seq<char>,
    folder: Seq<char>,
    name: Seq<char>,
    title: Seq<char>,
    format: Seq<char>,
    mtime: int,
)
    ensures
        ({
            let after = executed(
                t,
                "INSERT INTO songs (path,folder,name,title,format_type,mtime) \
     VALUES (?1,?2,?3,?4,?5,?6/1000000000.0) \
     ON CONFLICT(path) DO UPDATE SET folder=excluded.folder,name=excluded.name,\
     title=excluded.title,format_type=excluded.format_type,\
     mtime=excluded.mtime,meta_scanned=0"@,
                seq![
                    Datum::Text(path),
                    Datum::Text(folder),
                    Datum::Text(name),
                    Datum::Text(title),
                    Datum::Text(format),
                    Datum::Integer(mtime),
                ],
            );
            &&& after == (Tables { songs: after.songs, ..t })
            &&& after.songs.remove(path) == t.songs.remove(path)
            &&& after.songs.contains_key(path)
            &&& after.songs[path].folder == folder
            &&& after.songs[path].name == name
            &&& after.songs[path].title == title
            &&& after.songs[path].format_type == format
            &&& after.songs[path].mtime == mtime
            &&& !after.songs[path].meta_scanned
            &&& t.songs.contains_key(path) ==> after.songs[path].meta == t.songs[path].meta
            &&& !t.songs.contains_key(path) ==> after.songs[path].meta == no_metadata()
        }),
{
    statement_lengths();
    let params = seq![
        Datum::Text(path),
        Datum::Text(folder),
        Datum::Text(name),
        Datum::Text(title),
        Datum::Text(format),
        Datum::Integer(mtime),
    ];
    assert(text_at(params, 0) == Some(path));
    assert(text_at(params, 1) == Some(folder));
    assert(text_at(params, 2) == Some(name));
    assert(text_at(params, 3) == Some(title));
    assert(text_at(params, 4) == Some(format));
    assert(integer_at(params, 5) == Some(mtime));
    let after = executed(t, UPSERT_SONG@, params);
    assert(after.songs.remove(path) =~= t.songs.remove(path));
}

/// Keeping a scanned folder sets each field to the parameter that its column is given.
pub proof fn keeping_a_folder_does_so(
    t: Tables,
    path: Seq<char>,
    parent: Option<Seq<char>>,
    name: Seq<char>,
    mtime: int,
    has_audio: int,
    scanned_at: int,
)
    ensures
        ({
            let after = executed(
                t,
                "INSERT INTO folders (path,parent,name,mtime,has_audio,scanned_at) \
     VALUES (?1,?2,?3,?4/1000000000.0,?5,?6/1000000000.0) \
     ON CONFLICT(path) DO UPDATE SET parent=excluded.parent,name=excluded.name,\
     mtime=excluded.mtime,has_audio=excluded.has_audio,scanned_at=excluded.scanned_at"@,
                seq![
                    Datum::Text(path),
                    text_or_null(parent),
                    Datum::Text(name),
                    Datum::Integer(mtime),
                    Datum::Integer(has_audio),
                    Datum::Integer(scanned_at),
                ],
            );
            &&& after == (Tables { folders: after.folders, ..t })
            &&& after.folders.remove(path) == t.folders.remove(path)
            &&& after.folders.contains_key(path)
            &&& after.folders[path].parent == parent
            &&& after.folders[path].name == name
            &&& after.folders[path].mtime == mtime
            &&& after.folders[path].has_audio == has_audio
            &&& after.folders[path].scanned_at == scanned_at
        }),
{
    statement_lengths();
    let params = seq![
        Datum::Text(path),
        text_or_null(parent),
        Datum::Text(name),
        Datum::Integer(mtime),
        Datum::Integer(has_audio),
        Datum::Integer(scanned_at),
    ];
    assert(text_at(params, 0) == Some(path));
    assert(text_at(params, 2) == Some(name));
    assert(integer_at(params, 3) == Some(mtime));
    assert(integer_at(params, 4) == Some(has_audio));
    assert(integer_at(params, 5) == Some(scanned_at));
    assert(text_at(params, 1) == parent);
    let after = executed(t, UPSERT_FOLDER@, params);
    assert(after.folders.remove(path) =~= t.folders.remove(path));
}

/// Keeping a folder that was found sets where it lies and its name; what its own scan has
/// left stays.
pub proof fn keeping_a_found_folder_does_so(
    t: Tables,
    path: Seq<char>,
    parent: Seq<char>,
    name: Seq<char>,
)
    ensures
        ({
            let after = executed(
                t,
                "INSERT INTO folders (path,parent,name,mtime,has_audio,scanned_at) \
     VALUES (?1,?2,?3,0,0,0) \
     ON CONFLICT(path) DO UPDATE SET parent=excluded.parent,name=excluded.name"@,
                seq![Datum::Text(path), Datum::Text(parent), Datum::Text(name)],
            );
            &&& after == (Tables { folders: after.folders, ..t })
            &&& after.folders.remove(path) == t.folders.remove(path)
            &&& after.folders.contains_key(path)
            &&& after.folders[path].parent == Some(parent)
            &&& after.folders[path].name == name
            &&& t.folders.contains_key(path) ==> {
                &&& after.folders[path].mtime == t.folders[path].mtime
                &&& after.folders[path].has_audio == t.folders[path].has_audio
                &&& after.folders[path].scanned_at == t.folders[path].scanned_at
            }
            &&& !t.folders.contains_key(path) ==> {
                &&& after.folders[path].mtime == 0
                &&& after.folders[path].has_audio == 0
                &&& after.folders[path].scanned_at == 0
            }
        }),
{
    statement_lengths();
    let params = seq![Datum::Text(path), Datum::Text(parent), Datum::Text(name)];
    assert(text_at(params, 0) == Some(path));
    assert(text_at(params, 1) == Some(parent));
    assert(text_at(params, 2) == Some(name));
    let after = executed(t, UPSERT_SUBFOLDER@, params);
    assert(after.folders.remove(path) =~= t.folders.remove(path));
}

/// Setting the audio flag of a folder sets it, and nothing else.
pub proof fn setting_a_flag_does_so(t: Tables, flag: int, path: Seq<char>)
    requires
        t.folders.contains_key(path),
    ensures
        ({
            let after = executed(
                t,
                "UPDATE folders SET has_audio=?1 WHERE path=?2"@,
                seq![Datum::Integer(flag), Datum::Text(path)],
            );
            &&& after == (Tables { folders: after.folders, ..t })
            &&& after.folders.remove(path) == t.folders.remove(path)
            &&& after.folders.contains_key(path)
            &&& after.folders[path].has_audio == flag
            &&& after.folders[path].parent == t.folders[path].parent
            &&& after.folders[path].name == t.folders[path].name
            &&& after.folders[path].mtime == t.folders[path].mtime
        }),
{
    statement_lengths();
    let params = seq![Datum::Integer(flag), Datum::Text(path)];
    assert(integer_at(params, 0) == Some(flag));
    assert(text_at(params, 1) == Some(path));
    let after = executed(t, SET_HAS_AUDIO@, params);
    assert(after.folders.remove(path) =~= t.folders.remove(path));
}

/// Keeping the cover of a folder sets it, and nothing else.
pub proof fn keeping_a_cover_does_so(t: Tables, path: Seq<char>, source: Seq<char>, cover: Seq<u8>)
    ensures
        ({
            let after = executed(
                t,
                "INSERT INTO covers (folder_path,source,data) VALUES (?1,?2,?3) \
     ON CONFLICT(folder_path) DO UPDATE SET source=excluded.source,data=excluded.data"@,
                seq![Datum::Text(path), Datum::Text(source), Datum::Blob(cover)],
            );
            &&& after == (Tables { covers: t.covers.insert(path, Some(cover)), ..t })
        }),
{
    statement_lengths();
    let params = seq![Datum::Text(path), Datum::Text(source), Datum::Blob(cover)];
    assert(text_at(params, 0) == Some(path));
    assert(text_at(params, 1) == Some(source));
    assert(bytes_at(params, 2) == Some(cover));
}

/// Noting that a folder has no cover does so where nothing is known of it.
pub proof fn noting_no_cover_does_so(t: Tables, path: Seq<char>)
    ensures
        ({
            let after = executed(
                t,
                "INSERT INTO covers (folder_path, source, data) VALUES (?1, 'none', NULL) \
     ON CONFLICT(folder_path) DO NOTHING"@,
                seq![Datum::Text(path)],
            );
            &&& t.covers.contains_key(path) ==> after == t
            &&& !t.covers.contains_key(path) ==> after == (Tables {
                covers: t.covers.insert(path, None),
                ..t
            })
        }),
{
    statement_lengths();
    let params = seq![Datum::Text(path)];
    assert(text_at(params, 0) == Some(path));
}

/// Keeping the cover of a song sets it, and nothing else.
pub proof fn keeping_a_song_cover_does_so(t: Tables, path: Seq<char>, cover: Seq<u8>)
    ensures
        ({
            let after = executed(
                t,
                "INSERT INTO song_covers (song_path,data) VALUES (?1,?2) \
     ON CONFLICT(song_path) DO UPDATE SET data=excluded.data"@,
                seq![Datum::Text(path), Datum::Blob(cover)],
            );
            &&& after == (Tables { song_covers: t.song_covers.insert(path, cover), ..t })
        }),
{
    statement_lengths();
    let params = seq![Datum::Text(path), Datum::Blob(cover)];
    assert(text_at(params, 0) == Some(path));
    assert(bytes_at(params, 1) == Some(cover));
}

/// Dropping a song takes it out with its cover.
pub proof fn dropping_a_song_does_so(t: Tables, path: Seq<char>)
    ensures
        ({
            let after = executed(
                t,
                "DELETE FROM songs WHERE path=?1"@,
                seq![Datum::Text(path)],
            );
            &&& after == (Tables {
                songs: t.songs.remove(path),
                song_covers: t.song_covers.remove(path),
                ..t
            })
        }),
{
    statement_lengths();
    let params = seq![Datum::Text(path)];
    assert(text_at(params, 0) == Some(path));
}

/// Dropping the songs of a folder takes them out with their covers, and no others.
pub proof fn dropping_songs_does_so(t: Tables, path: Seq<char>)
    ensures
        ({
            let after = executed(
                t,
                "DELETE FROM songs WHERE folder=?1"@,
                seq![Datum::Text(path)],
            );
            &&& after == (Tables { songs: after.songs, song_covers: after.song_covers, ..t })
            &&& forall|s: Seq<char>| #[trigger]
                after.songs.contains_key(s) <==> t.songs.contains_key(s) && t.songs[s].folder != path
            &&& forall|s: Seq<char>| #[trigger]
                after.songs.contains_key(s) ==> after.songs[s] == t.songs[s]
            &&& forall|s: Seq<char>| #[trigger]
                after.song_covers.contains_key(s) <==> t.song_covers.contains_key(s) && !is_song_in(t, path, s)
            &&& forall|s: Seq<char>| #[trigger]
                after.song_covers.contains_key(s) ==> after.song_covers[s] == t.song_covers[s]
        }),
{
    statement_lengths();
    let params = seq![Datum::Text(path)];
    assert(text_at(params, 0) == Some(path));
}

/// Dropping the cover of a folder takes it out, and nothing else.
pub proof fn dropping_a_cover_does_so(t: Tables, path: Seq<char>)
    ensures
        ({
            let after = executed(
                t,
                "DELETE FROM covers WHERE folder_path=?1"@,
                seq![Datum::Text(path)],
            );
            &&& after == (Tables { covers: t.covers.remove(path), ..t })
        }),
{
    statement_lengths();
    let params = seq![Datum::Text(path)];
    assert(text_at(params, 0) == Some(path));
}

/// Noting the version does so.
pub proof fn noting_the_version_does_so(t: Tables, version: Seq<char>)
    ensures
        ({
            let after = executed(
                t,
                "INSERT INTO db_meta (key, value) VALUES ('version', ?1)"@,
                seq![Datum::Text(version)],
            );
            &&& after == (Tables { version: Some(version), ..t })
        }),
{
    statement_lengths();
    let params = seq![Datum::Text(version)];
    assert(text_at(params, 0) == Some(version));
}

/// The columns of a whole song stand in the order in which the queries name them: path,
/// folder, name, title, artist, album, year, format, bitrate, sample rate, bits, duration,
/// the time of the last change, and whether it was read.
pub proof fn columns_stand_in_order(t: Tables, path: Seq<char>)
    ensures
        song_data(t, path).len() == 14,
        song_data(t, path)[0] == Datum::Text(path),
        song_data(t, path)[1] == Datum::Text(t.songs[path].folder),
        song_data(t, path)[2] == Datum::Text(t.songs[path].name),
        song_data(t, path)[3] == Datum::Text(t.songs[path].title),
        song_data(t, path)[4] == Datum::Text(t.songs[path].meta.artist),
        song_data(t, path)[5] == Datum::Text(t.songs[path].meta.album),
        song_data(t, path)[6] == Datum::Text(t.songs[path].meta.year),
        song_data(t, path)[7] == Datum::Text(t.songs[path].format_type),
        song_data(t, path)[8] == Datum::Integer(t.songs[path].meta.bitrate),
        song_data(t, path)[9] == Datum::Integer(t.songs[path].meta.sample_rate),
        song_data(t, path)[10] == Datum::Integer(t.songs[path].meta.bits_per_sample),
        song_data(t, path)[11] == Datum::Integer((t.read_time)(t.songs[path].meta.duration)),
        song_data(t, path)[13] == Datum::Integer(
            if t.songs[path].meta_scanned {
                1
            } else {
                0
            },
        ),
{
}

} // verus!
