//! The statements that are run on the database. The tables keep points in time
//! and durations in seconds; the statements convert from and to nanoseconds.
use crate::text::{
    glued, join, joined, opt_text, signed_decimal, signed_digits, texts, trim_end_slashes,
    without_end_slashes,
};
use vstd::prelude::*;

verus! {

/// The version of the tables.
pub const DB_VERSION: i32 = 3;

/// The tables and their indexes.
pub const SCHEMA: &'static str = "
CREATE TABLE IF NOT EXISTS db_meta (
    key   TEXT PRIMARY KEY,
    value TEXT
);
CREATE TABLE IF NOT EXISTS folders (
    path       TEXT PRIMARY KEY,
    parent     TEXT,
    name       TEXT NOT NULL,
    mtime      REAL NOT NULL DEFAULT 0,
    has_audio  INTEGER NOT NULL DEFAULT 0,
    scanned_at REAL NOT NULL DEFAULT 0
);
CREATE TABLE IF NOT EXISTS songs (
    path            TEXT PRIMARY KEY,
    folder          TEXT NOT NULL,
    name            TEXT NOT NULL,
    title           TEXT NOT NULL DEFAULT '',
    artist          TEXT NOT NULL DEFAULT '',
    album           TEXT NOT NULL DEFAULT '',
    year            TEXT NOT NULL DEFAULT '',
    format_type     TEXT NOT NULL DEFAULT '',
    bitrate         INTEGER NOT NULL DEFAULT 0,
    sample_rate     INTEGER NOT NULL DEFAULT 0,
    bits_per_sample INTEGER NOT NULL DEFAULT 0,
    duration        REAL NOT NULL DEFAULT 0.0,
    mtime           REAL NOT NULL DEFAULT 0,
    meta_scanned    INTEGER NOT NULL DEFAULT 0,
    FOREIGN KEY (folder) REFERENCES folders(path) ON DELETE CASCADE
);
CREATE TABLE IF NOT EXISTS covers (
    folder_path TEXT PRIMARY KEY,
    source      TEXT NOT NULL DEFAULT '',
    data        BLOB,
    FOREIGN KEY (folder_path) REFERENCES folders(path) ON DELETE CASCADE
);
CREATE TABLE IF NOT EXISTS song_covers (
    song_path TEXT PRIMARY KEY,
    data      BLOB NOT NULL,
    FOREIGN KEY (song_path) REFERENCES songs(path) ON DELETE CASCADE
);
CREATE INDEX IF NOT EXISTS idx_songs_folder ON songs(folder);
CREATE INDEX IF NOT EXISTS idx_folders_parent ON folders(parent);
CREATE INDEX IF NOT EXISTS idx_songs_title ON songs(title COLLATE NOCASE);
CREATE INDEX IF NOT EXISTS idx_songs_artist ON songs(artist COLLATE NOCASE);
CREATE INDEX IF NOT EXISTS idx_songs_album ON songs(album COLLATE NOCASE);
";

pub const PRAGMAS: &'static str =
    "PRAGMA journal_mode=WAL; PRAGMA foreign_keys=ON; PRAGMA synchronous=NORMAL;";

pub const HAS_META: &'static str =
    "SELECT count(*) FROM sqlite_master WHERE type='table' AND name='db_meta'";

pub const GET_VERSION: &'static str = "SELECT value FROM db_meta WHERE key='version'";

pub const SET_VERSION: &'static str = "INSERT INTO db_meta (key, value) VALUES ('version', ?1)";

pub const DROP_TABLES: &'static str =
    "DROP TABLE IF EXISTS song_covers; DROP TABLE IF EXISTS covers; \
     DROP TABLE IF EXISTS songs; DROP TABLE IF EXISTS folders; DROP TABLE IF EXISTS db_meta;";

pub const CHILD_FOLDERS: &'static str = "SELECT path FROM folders WHERE parent=?1";

pub const DELETE_FOLDER_SONGS: &'static str = "DELETE FROM songs WHERE folder=?1";

pub const DELETE_FOLDER_SONG_COVERS: &'static str =
    "DELETE FROM song_covers WHERE song_path IN (SELECT path FROM songs WHERE folder=?1)";

pub const DELETE_COVER: &'static str = "DELETE FROM covers WHERE folder_path=?1";

pub const DELETE_FOLDER: &'static str = "DELETE FROM folders WHERE path=?1";

pub const COUNT_FOLDER_SONGS: &'static str = "SELECT COUNT(*) FROM songs WHERE folder=?1";

pub const COUNT_AUDIO_CHILDREN: &'static str =
    "SELECT COUNT(*) FROM folders WHERE parent=?1 AND has_audio=1";

pub const SET_HAS_AUDIO: &'static str = "UPDATE folders SET has_audio=?1 WHERE path=?2";

pub const FOLDER_MTIME: &'static str =
    "SELECT CAST(ROUND(mtime*1000000000.0) AS INTEGER) FROM folders WHERE path=?1";

pub const FOLDER_CHILDREN: &'static str =
    "SELECT path, name, has_audio FROM folders WHERE parent=?1 ORDER BY name COLLATE NOCASE";

pub const FOLDER_SONGS: &'static str =
    "SELECT path,folder,name,title,artist,album,year,format_type,\
     bitrate,sample_rate,bits_per_sample,CAST(ROUND(duration*1000000000.0) AS INTEGER),\
     mtime,meta_scanned FROM songs WHERE folder=?1 ORDER BY name COLLATE NOCASE,path";

pub const UPSERT_FOLDER: &'static str =
    "INSERT INTO folders (path,parent,name,mtime,has_audio,scanned_at) \
     VALUES (?1,?2,?3,?4/1000000000.0,?5,?6/1000000000.0) \
     ON CONFLICT(path) DO UPDATE SET parent=excluded.parent,name=excluded.name,\
     mtime=excluded.mtime,has_audio=excluded.has_audio,scanned_at=excluded.scanned_at";

pub const UPSERT_SUBFOLDER: &'static str =
    "INSERT INTO folders (path,parent,name,mtime,has_audio,scanned_at) \
     VALUES (?1,?2,?3,0,0,0) \
     ON CONFLICT(path) DO UPDATE SET parent=excluded.parent,name=excluded.name";

pub const SONGS_OF_FOLDER: &'static str = "SELECT path FROM songs WHERE folder=?1";

pub const DELETE_SONG: &'static str = "DELETE FROM songs WHERE path=?1";

pub const SONG_MTIME: &'static str =
    "SELECT CAST(ROUND(mtime*1000000000.0) AS INTEGER), meta_scanned FROM songs WHERE path=?1";

pub const UPSERT_SONG: &'static str =
    "INSERT INTO songs (path,folder,name,title,format_type,mtime) \
     VALUES (?1,?2,?3,?4,?5,?6/1000000000.0) \
     ON CONFLICT(path) DO UPDATE SET folder=excluded.folder,name=excluded.name,\
     title=excluded.title,format_type=excluded.format_type,\
     mtime=excluded.mtime,meta_scanned=0";

pub const UPDATE_METADATA: &'static str =
    "UPDATE songs SET title=?1,artist=?2,album=?3,year=?4,\
     bitrate=?5,sample_rate=?6,bits_per_sample=?7,duration=?8/1000000000.0,\
     meta_scanned=1 WHERE path=?9";

pub const GET_COVER: &'static str = "SELECT data FROM covers WHERE folder_path=?1";

pub const SET_COVER: &'static str =
    "INSERT INTO covers (folder_path,source,data) VALUES (?1,?2,?3) \
     ON CONFLICT(folder_path) DO UPDATE SET source=excluded.source,data=excluded.data";

pub const HAS_COVER: &'static str = "SELECT 1 FROM covers WHERE folder_path=?1";

pub const MARK_NO_COVER: &'static str =
    "INSERT INTO covers (folder_path, source, data) VALUES (?1, 'none', NULL) \
     ON CONFLICT(folder_path) DO NOTHING";

pub const GET_SONG_COVER: &'static str = "SELECT data FROM song_covers WHERE song_path=?1";

pub const SONG_COVERS_OF_FOLDER: &'static str =
    "SELECT sc.song_path, sc.data FROM song_covers sc \
     INNER JOIN songs s ON s.path = sc.song_path WHERE s.folder = ?1";

pub const SET_SONG_COVER: &'static str =
    "INSERT INTO song_covers (song_path,data) VALUES (?1,?2) \
     ON CONFLICT(song_path) DO UPDATE SET data=excluded.data";

pub const FIRST_SONG_COVER: &'static str =
    "SELECT sc.data FROM song_covers sc \
     INNER JOIN songs s ON s.path = sc.song_path WHERE s.folder = ?1 \
     ORDER BY s.name COLLATE NOCASE,s.path LIMIT 1";

pub const CLEAR_ALL: &'static str =
    "DELETE FROM song_covers; DELETE FROM covers; DELETE FROM songs; DELETE FROM folders;";

/// The condition that a song lies in one of the roots or below it: the same
/// condition for each root.
pub open spec fn root_condition(roots: nat) -> Seq<char> {
    joined(Seq::new(roots, |i: int| "folder = ? OR folder LIKE ?"@), " OR "@)
}

/// The parameters of the condition: for each root the root itself and a pattern
/// for what lies below it.
pub open spec fn root_params(roots: Seq<Seq<char>>) -> Seq<Seq<char>>
    decreases roots.len(),
{
    if roots.len() == 0 {
        Seq::empty()
    } else {
        root_params(roots.drop_last()).push(roots.last()).push(
            without_end_slashes(roots.last()) + "/%"@,
        )
    }
}

/// The condition that a song lies in one of the roots or below it, with its
/// parameters.
pub fn root_conditions(root_paths: &[String]) -> (r: (String, Vec<String>))
    ensures
        r.0@ == root_condition(root_paths@.len()),
        texts(r.1@) == root_params(texts(root_paths@)),
{
    let mut parts: Vec<String> = Vec::new();
    let mut params: Vec<String> = Vec::new();
    let ghost roots = texts(root_paths@);
    for i in 0..root_paths.len()
        invariant
            roots == texts(root_paths@),
            texts(parts@) == Seq::new(i as nat, |j: int| "folder = ? OR folder LIKE ?"@),
            texts(params@) == root_params(roots.take(i as int)),
    {
        let ghost before = parts@;
        parts.push("folder = ? OR folder LIKE ?".to_owned());
        assert(texts(parts@) =~= Seq::new((i + 1) as nat, |j: int| "folder = ? OR folder LIKE ?"@))
            by {
            assert(texts(parts@) == texts(before).push("folder = ? OR folder LIKE ?"@));
        }
        let root = root_paths[i].clone();
        let pattern = glued(trim_end_slashes(root.as_str()).as_str(), "/%");
        let ghost old_params = params@;
        params.push(root);
        params.push(pattern);
        assert(texts(params@) =~= texts(old_params).push(root@).push(pattern@));
        assert(roots.take(i + 1).drop_last() == roots.take(i as int));
    }
    assert(roots.take(roots.len() as int) == roots);
    (join(&parts, " OR "), params)
}

/// The query for the paths of all songs below the roots, without those of an
/// artist, in the order of their paths.
pub open spec fn playlist_sql(roots: nat, exclude: bool) -> Seq<char> {
    let all = "SELECT path FROM songs WHERE ("@ + root_condition(roots) + ")"@;
    let chosen = if exclude {
        all + " AND LOWER(COALESCE(artist,'')) NOT LIKE ?"@
    } else {
        all
    };
    chosen + " ORDER BY path COLLATE NOCASE"@
}

/// The parameters of that query.
pub open spec fn playlist_params(
    roots: Seq<Seq<char>>,
    exclude_lower: Option<Seq<char>>,
) -> Seq<Seq<char>> {
    match exclude_lower {
        Some(artist) => root_params(roots).push("%"@ + artist + "%"@),
        None => root_params(roots),
    }
}

/// The query for the paths of all songs below the roots. The artist to leave out
/// is given in lowercase.
pub fn playlist_query(root_paths: &[String], exclude_lower: &Option<String>) -> (r: (
    String,
    Vec<String>,
))
    ensures
        r.0@ == playlist_sql(root_paths@.len(), *exclude_lower is Some),
        texts(r.1@) == playlist_params(texts(root_paths@), opt_text(*exclude_lower)),
{
    let (cond, mut params) = root_conditions(root_paths);
    let mut sql = glued("SELECT path FROM songs WHERE (", cond.as_str());
    sql.append(")");
    if let Some(artist) = exclude_lower {
        sql.append(" AND LOWER(COALESCE(artist,'')) NOT LIKE ?");
        let mut pattern = glued("%", artist.as_str());
        pattern.append("%");
        let ghost before = params@;
        params.push(pattern);
        assert(texts(params@) =~= texts(before).push(pattern@));
    }
    sql.append(" ORDER BY path COLLATE NOCASE");
    (sql, params)
}

/// The query for songs below the roots whose metadata was not read yet.
pub open spec fn unscanned_sql(roots: nat) -> Seq<char> {
    "SELECT path FROM songs WHERE meta_scanned=0 AND ("@ + root_condition(roots) + ") LIMIT ?"@
}

/// The parameters of that query: the roots and the most songs that are wanted.
pub open spec fn unscanned_params(roots: Seq<Seq<char>>, limit: int) -> Seq<Seq<char>> {
    root_params(roots).push(signed_digits(limit))
}

/// The query for songs below the roots whose metadata was not read yet.
pub fn unscanned_query(root_paths: &[String], limit: i32) -> (r: (String, Vec<String>))
    ensures
        r.0@ == unscanned_sql(root_paths@.len()),
        texts(r.1@) == unscanned_params(texts(root_paths@), limit as int),
{
    let (cond, mut params) = root_conditions(root_paths);
    let mut sql = glued("SELECT path FROM songs WHERE meta_scanned=0 AND (", cond.as_str());
    sql.append(") LIMIT ?");
    let n = signed_decimal(limit);
    let ghost before = params@;
    params.push(n);
    assert(texts(params@) =~= texts(before).push(n@));
    (sql, params)
}

/// The query for the number of songs below the roots.
pub open spec fn count_sql(roots: nat) -> Seq<char> {
    "SELECT COUNT(*) FROM songs WHERE "@ + root_condition(roots)
}

/// The query for the number of songs below the roots.
pub fn count_query(root_paths: &[String]) -> (r: (String, Vec<String>))
    ensures
        r.0@ == count_sql(root_paths@.len()),
        texts(r.1@) == root_params(texts(root_paths@)),
{
    let (cond, params) = root_conditions(root_paths);
    (glued("SELECT COUNT(*) FROM songs WHERE ", cond.as_str()), params)
}

/// The condition that each word occurs in the title, the artist, the album or
/// the name of a song: the same condition for each word.
pub open spec fn word_condition(words: nat) -> Seq<char> {
    joined(
        Seq::new(
            words,
            |i: int| "(title LIKE ? OR artist LIKE ? OR album LIKE ? OR name LIKE ?)"@,
        ),
        " AND "@,
    )
}

/// The parameters of the condition: for each word four times its pattern.
pub open spec fn word_params(words: Seq<Seq<char>>) -> Seq<Seq<char>>
    decreases words.len(),
{
    if words.len() == 0 {
        Seq::empty()
    } else {
        let pattern = "%"@ + words.last() + "%"@;
        word_params(words.drop_last()) + seq![pattern, pattern, pattern, pattern]
    }
}

/// The query for songs below the roots in which each word occurs, by title.
pub open spec fn search_sql(roots: nat, words: nat) -> Seq<char> {
    SEARCH_SELECT@ + root_condition(roots) + ") AND "@ + word_condition(words) + SEARCH_ORDER@
}

pub const SEARCH_SELECT: &'static str =
    "SELECT path,folder,name,title,artist,album,year,format_type,\
     bitrate,sample_rate,bits_per_sample,CAST(ROUND(duration*1000000000.0) AS INTEGER),\
     mtime,meta_scanned FROM songs WHERE (";

/// How many songs a search finds at most.
pub const SEARCH_LIMIT: i32 = 200;

pub const SEARCH_ORDER: &'static str = " ORDER BY title COLLATE NOCASE LIMIT 200";

/// The query for songs below the roots in which each word occurs.
pub fn search_query(words: &[String], root_paths: &[String]) -> (r: (String, Vec<String>))
    ensures
        r.0@ == search_sql(root_paths@.len(), words@.len()),
        texts(r.1@) == root_params(texts(root_paths@)) + word_params(texts(words@)),
{
    let (cond, mut params) = root_conditions(root_paths);
    let ghost rooted = texts(params@);
    let ghost all = texts(words@);
    let mut conds: Vec<String> = Vec::new();
    assert(texts(params@) =~= rooted + word_params(all.take(0)));
    for i in 0..words.len()
        invariant
            all == texts(words@),
            texts(conds@) == Seq::new(
                i as nat,
                |j: int| "(title LIKE ? OR artist LIKE ? OR album LIKE ? OR name LIKE ?)"@,
            ),
            texts(params@) == rooted + word_params(all.take(i as int)),
    {
        let ghost before = conds@;
        conds.push("(title LIKE ? OR artist LIKE ? OR album LIKE ? OR name LIKE ?)".to_owned());
        assert(texts(conds@) =~= texts(before).push(
            "(title LIKE ? OR artist LIKE ? OR album LIKE ? OR name LIKE ?)"@,
        ));
        let mut pattern = glued("%", words[i].as_str());
        pattern.append("%");
        let ghost old_params = params@;
        params.push(pattern.clone());
        params.push(pattern.clone());
        params.push(pattern.clone());
        params.push(pattern);
        let ghost p = pattern@;
        assert(texts(params@) =~= texts(old_params) + seq![p, p, p, p]);
        assert(all.take(i + 1).drop_last() == all.take(i as int));
        assert(texts(params@) =~= rooted + word_params(all.take(i + 1)));
    }
    assert(all.take(all.len() as int) == all);
    let mut sql = glued(SEARCH_SELECT, cond.as_str());
    sql.append(") AND ");
    sql.append(join(&conds, " AND ").as_str());
    sql.append(SEARCH_ORDER);
    (sql, params)
}

} // verus!
