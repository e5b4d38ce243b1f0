//! What the library knows of folders and songs.
use crate::library_db::{count_in, count_of, listing, one_text, DbError, LibraryDB};
use crate::records::{
    folders_in, folders_of, rows_to_folders, rows_to_songs, songs_in, songs_of, FolderRecord,
    SongRecord,
};
use crate::sql::{
    count_query, count_sql, playlist_params, playlist_query, playlist_sql, root_params,
    search_query, search_sql, unscanned_params, unscanned_query, unscanned_sql, word_params,
    FOLDER_CHILDREN, FOLDER_MTIME, FOLDER_SONGS, UPDATE_METADATA,
};
use crate::store::{
    asked, cell_integer, data, integer_at, row_in, rows_in, since, Datum, Param, Request,
};
use crate::text::{lowercase, texts};
use vstd::prelude::*;

verus! {

/// By how much, in nanoseconds, two times may differ and still count as the same.
pub const SAME_TIME: i64 = 1_000_000;

/// The distance between two times.
pub open spec fn apart(a: int, b: int) -> int {
    if a < b {
        b - a
    } else {
        a - b
    }
}

/// The time in a row.
pub open spec fn time_in(row: Option<Seq<Datum>>) -> Option<int> {
    match row {
        Some(r) => integer_at(r, 0),
        None => None,
    }
}

/// Whether a folder must be scanned again, by the time of its last change and the
/// time that was kept of it.
pub open spec fn changed_since(current: int, kept: Option<int>) -> bool {
    match kept {
        Some(t) => apart(current, t) > SAME_TIME,
        None => true,
    }
}

/// The distance between two times.
pub fn time_apart(a: i64, b: i64) -> (r: u64)
    ensures
        r == apart(a as int, b as int),
{
    if a < b {
        (b as i128 - a as i128) as u64
    } else {
        (a as i128 - b as i128) as u64
    }
}

impl LibraryDB {
    /// Whether a folder must be scanned again. `current` is the time of its last
    /// change; where the folder cannot be looked at, there is none.
    pub fn folder_needs_rescan(&mut self, path: &str, current: Option<i64>) -> (r: bool)
        ensures
            match current {
                Some(now) => {
                    &&& old(self)@.is_prefix_of(final(self)@)
                    &&& asked(
                        since(old(self)@, final(self)@),
                        Request::QueryRow(FOLDER_MTIME@, seq![path@]),
                    )
                    &&& r == changed_since(now as int, time_in(row_in(final(self)@.last())))
                },
                None => r && final(self)@ == old(self)@,
            },
    {
        let now = match current {
            Some(now) => now,
            None => {
                return true;
            },
        };
        let kept = match self.row(FOLDER_MTIME, &one_text(path)) {
            Some(row) => cell_integer(&row, 0),
            None => None,
        };
        match kept {
            Some(t) => time_apart(now, t) > SAME_TIME as u64,
            None => true,
        }
    }

    /// The folders directly in a folder, by name.
    pub fn get_folder_children(&mut self, parent_path: &str) -> (res: Result<
        Vec<FolderRecord>,
        DbError,
    >)
        ensures
            old(self)@.is_prefix_of(final(self)@),
            asked(
                since(old(self)@, final(self)@),
                Request::QueryMap(FOLDER_CHILDREN@, seq![parent_path@]),
            ),
            match (rows_in(final(self)@.last()), res) {
                (Some(rows), Ok(list)) => folders_of(list@) == folders_in(rows),
                (None, Err(e)) => e == DbError::Query,
                _ => false,
            },
    {
        match self.rows(FOLDER_CHILDREN, &one_text(parent_path)) {
            Ok(rows) => Ok(rows_to_folders(&rows)),
            Err(e) => Err(e),
        }
    }

    /// The songs directly in a folder, by name, and by path where names are alike.
    pub fn get_folder_songs(&mut self, folder_path: &str) -> (res: Result<
        Vec<SongRecord>,
        DbError,
    >)
        ensures
            old(self)@.is_prefix_of(final(self)@),
            asked(
                since(old(self)@, final(self)@),
                Request::QueryMap(FOLDER_SONGS@, seq![folder_path@]),
            ),
            match (rows_in(final(self)@.last()), res) {
                (Some(rows), Ok(list)) => songs_of(list@) == songs_in(rows),
                (None, Err(e)) => e == DbError::Query,
                _ => false,
            },
    {
        match self.rows(FOLDER_SONGS, &one_text(folder_path)) {
            Ok(rows) => Ok(rows_to_songs(&rows)),
            Err(e) => Err(e),
        }
    }

    /// The paths of all songs below the roots, without those of an artist. Without
    /// roots the database is not asked.
    pub fn get_playlist(&mut self, root_paths: &[String], exclude_artist: Option<&str>) -> (res:
        Result<Vec<String>, DbError>)
        ensures
            if root_paths@.len() == 0 {
                final(self)@ == old(self)@ && (res matches Ok(list) && list@.len() == 0)
            } else {
                listing(
                    old(self)@,
                    final(self)@,
                    Request::QueryMap(
                        playlist_sql(root_paths@.len(), exclude_artist is Some),
                        playlist_params(
                            texts(root_paths@),
                            match exclude_artist {
                                Some(artist) => Some(lowercase(artist@)),
                                None => None,
                            },
                        ),
                    ),
                    match res {
                        Ok(v) => Ok(texts(v@)),
                        Err(e) => Err(e),
                    },
                )
            },
    {
        if root_paths.len() == 0 {
            return Ok(Vec::new());
        }
        let exclude_lower: Option<String> = match exclude_artist {
            Some(artist) => Some(artist.to_lowercase()),
            None => None,
        };
        let (sql, params) = playlist_query(root_paths, &exclude_lower);
        self.list(sql.as_str(), &params)
    }

    /// Up to `limit` songs below the roots whose metadata was not read yet.
    /// Without roots the database is not asked.
    pub fn get_unscanned_songs(&mut self, root_paths: &[String], limit: i32) -> (res: Result<
        Vec<String>,
        DbError,
    >)
        ensures
            if root_paths@.len() == 0 {
                final(self)@ == old(self)@ && (res matches Ok(list) && list@.len() == 0)
            } else {
                listing(
                    old(self)@,
                    final(self)@,
                    Request::QueryMap(
                        unscanned_sql(root_paths@.len()),
                        unscanned_params(texts(root_paths@), limit as int),
                    ),
                    match res {
                        Ok(v) => Ok(texts(v@)),
                        Err(e) => Err(e),
                    },
                )
            },
    {
        if root_paths.len() == 0 {
            return Ok(Vec::new());
        }
        let (sql, params) = unscanned_query(root_paths, limit);
        self.list(sql.as_str(), &params)
    }

    /// The number of songs below the roots. Without roots the database is not
    /// asked.
    pub fn count_songs(&mut self, root_paths: &[String]) -> (n: i32)
        ensures
            if root_paths@.len() == 0 {
                final(self)@ == old(self)@ && n == 0
            } else {
                &&& old(self)@.is_prefix_of(final(self)@)
                &&& asked(
                    since(old(self)@, final(self)@),
                    Request::QueryRow(
                        count_sql(root_paths@.len()),
                        root_params(texts(root_paths@)),
                    ),
                )
                &&& n == count_in(row_in(final(self)@.last()))
            },
    {
        if root_paths.len() == 0 {
            return 0;
        }
        let (sql, params) = count_query(root_paths);
        count_of(&self.row(sql.as_str(), &params))
    }

    /// The songs below the roots in which each word occurs. Without roots or words
    /// the database is not asked.
    pub fn search_songs(&mut self, words: &[String], root_paths: &[String]) -> (res: Result<
        Vec<SongRecord>,
        DbError,
    >)
        ensures
            if root_paths@.len() == 0 || words@.len() == 0 {
                final(self)@ == old(self)@ && (res matches Ok(list) && list@.len() == 0)
            } else {
                &&& old(self)@.is_prefix_of(final(self)@)
                &&& asked(
                    since(old(self)@, final(self)@),
                    Request::QueryMap(
                        search_sql(root_paths@.len(), words@.len()),
                        root_params(texts(root_paths@)) + word_params(texts(words@)),
                    ),
                )
                &&& match (rows_in(final(self)@.last()), res) {
                    (Some(rows), Ok(list)) => songs_of(list@) == songs_in(rows),
                    (None, Err(e)) => e == DbError::Query,
                    _ => false,
                }
            },
    {
        if root_paths.len() == 0 || words.len() == 0 {
            return Ok(Vec::new());
        }
        let (sql, params) = search_query(words, root_paths);
        match self.rows(sql.as_str(), &params) {
            Ok(rows) => Ok(rows_to_songs(&rows)),
            Err(e) => Err(e),
        }
    }

    /// Keeps the metadata of a song and notes that it was read.
    pub fn update_song_metadata(
        &mut self,
        path: &str,
        title: &str,
        artist: &str,
        album: &str,
        year: &str,
        bitrate: i32,
        sample_rate: i32,
        bits_per_sample: i32,
        duration: i64,
    )
        ensures
            old(self)@.is_prefix_of(final(self)@),
            asked(
                since(old(self)@, final(self)@),
                Request::Execute(
                    UPDATE_METADATA@,
                    seq![
                        Datum::Text(title@),
                        Datum::Text(artist@),
                        Datum::Text(album@),
                        Datum::Text(year@),
                        Datum::Integer(bitrate as int),
                        Datum::Integer(sample_rate as int),
                        Datum::Integer(bits_per_sample as int),
                        Datum::Integer(duration as int),
                        Datum::Text(path@),
                    ],
                ),
            ),
    {
        let mut params: Vec<Param> = Vec::new();
        params.push(Param::Text(title.to_owned()));
        params.push(Param::Text(artist.to_owned()));
        params.push(Param::Text(album.to_owned()));
        params.push(Param::Text(year.to_owned()));
        params.push(Param::Integer(bitrate as i64));
        params.push(Param::Integer(sample_rate as i64));
        params.push(Param::Integer(bits_per_sample as i64));
        params.push(Param::Integer(duration));
        params.push(Param::Text(path.to_owned()));
        assert(data(params@) =~= seq![
            Datum::Text(title@),
            Datum::Text(artist@),
            Datum::Text(album@),
            Datum::Text(year@),
            Datum::Integer(bitrate as int),
            Datum::Integer(sample_rate as int),
            Datum::Integer(bits_per_sample as int),
            Datum::Integer(duration as int),
            Datum::Text(path@),
        ]);
        let _ = self.run(UPDATE_METADATA, &params);
    }
}

} // verus!
