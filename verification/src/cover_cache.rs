//! The covers of folders and songs that the library keeps.
use crate::library_db::{one_param, one_text, DbError, LibraryDB};
use crate::records::{bytes_in, row_to_bytes};
use crate::sql::{
    FIRST_SONG_COVER, GET_COVER, GET_SONG_COVER, HAS_COVER, MARK_NO_COVER, SET_COVER,
    SET_SONG_COVER, SONG_COVERS_OF_FOLDER,
};
use crate::store::{
    asked, bytes_at, cell_bytes, cell_text, copied_bytes, opt_row_data, row_in, rows_data, rows_in,
    since, text_at, Cell, Datum, Param, Request,
};
use crate::text::same;
use vstd::prelude::*;

verus! {

/// The cover of a song.
pub struct SongCover {
    pub path: String,
    pub data: Vec<u8>,
}

/// Covers of songs by the paths of the songs.
pub struct SongCovers {
    entries: Vec<SongCover>,
}

/// The covers that entries hold, where a later entry takes the place of an
/// earlier one with the same path.
pub open spec fn cover_map(entries: Seq<(Seq<char>, Seq<u8>)>) -> Map<Seq<char>, Seq<u8>>
    decreases entries.len(),
{
    if entries.len() == 0 {
        Map::empty()
    } else {
        cover_map(entries.drop_last()).insert(entries.last().0, entries.last().1)
    }
}

/// The path and the cover in a row.
pub open spec fn song_cover_in(row: Option<Seq<Datum>>) -> Option<(Seq<char>, Seq<u8>)> {
    match row {
        Some(r) => match (text_at(r, 0), bytes_at(r, 1)) {
            (Some(path), Some(bytes)) => Some((path, bytes)),
            _ => None,
        },
        None => None,
    }
}

/// The covers in rows; rows that cannot be read are left out.
pub open spec fn song_covers_in(rows: Seq<Option<Seq<Datum>>>) -> Map<Seq<char>, Seq<u8>> {
    cover_map(rows.filter_map(|row: Option<Seq<Datum>>| song_cover_in(row)))
}

impl View for SongCovers {
    type V = Map<Seq<char>, Seq<u8>>;

    closed spec fn view(&self) -> Map<Seq<char>, Seq<u8>> {
        cover_map(self.entries@.map_values(|e: SongCover| (e.path@, e.data@)))
    }
}

impl SongCovers {
    /// No covers.
    pub fn new() -> (r: SongCovers)
        ensures
            r@ == Map::<Seq<char>, Seq<u8>>::empty(),
    {
        SongCovers { entries: Vec::new() }
    }

    /// Adds the cover of a song, in place of the one it had.
    pub fn insert(&mut self, path: String, data: Vec<u8>)
        ensures
            final(self)@ == old(self)@.insert(path@, data@),
    {
        let ghost before = self.entries@.map_values(|e: SongCover| (e.path@, e.data@));
        self.entries.push(SongCover { path, data });
        let ghost after = self.entries@.map_values(|e: SongCover| (e.path@, e.data@));
        assert(after == before.push((path@, data@)));
        assert(after.drop_last() == before);
    }

    /// The cover of a song.
    pub fn get(&self, path: &str) -> (r: Option<Vec<u8>>)
        ensures
            match r {
                Some(data) => self@.contains_key(path@) && self@[path@] == data@,
                None => !self@.contains_key(path@),
            },
    {
        let ghost all = self.entries@.map_values(|e: SongCover| (e.path@, e.data@));
        let mut i: usize = self.entries.len();
        assert(all.take(i as int) == all);
        while i > 0
            invariant
                i <= self.entries.len(),
                all == self.entries@.map_values(|e: SongCover| (e.path@, e.data@)),
                self@.contains_key(path@) == cover_map(all.take(i as int)).contains_key(path@),
                self@.contains_key(path@) ==> self@[path@] == cover_map(all.take(i as int))[path@],
            decreases i,
        {
            i = i - 1;
            assert(all.take(i + 1).drop_last() == all.take(i as int));
            assert(all.take(i + 1).last() == all[i as int]);
            if same(self.entries[i].path.as_str(), path) {
                return Some(copied_bytes(&self.entries[i].data));
            }
        }
        None
    }
}

fn rows_to_song_covers(rows: &Vec<Option<Vec<Cell>>>) -> (r: SongCovers)
    ensures
        r@ == song_covers_in(rows_data(rows@)),
{
    let ghost f = |row: Option<Seq<Datum>>| song_cover_in(row);
    let ghost all = rows_data(rows@);
    let mut r = SongCovers::new();
    for i in 0..rows.len()
        invariant
            all == rows_data(rows@),
            f == (|row: Option<Seq<Datum>>| song_cover_in(row)),
            r@ == cover_map(all.take(i as int).filter_map(f)),
    {
        proof {
            all.lemma_filter_map_take_succ(f, i as int);
        }
        assert(all[i as int] == opt_row_data(rows@[i as int]));
        if let Some(row) = &rows[i] {
            match (cell_text(row, 0), cell_bytes(row, 1)) {
                (Some(path), Some(bytes)) => {
                    let ghost before = all.take(i as int).filter_map(f);
                    let ghost pair = (path@, bytes@);
                    assert(f(all[i as int]) == Some(pair));
                    assert(all.take(i + 1).filter_map(f) == before.push(pair));
                    assert(before.push(pair).drop_last() == before);
                    r.insert(path, bytes);
                },
                _ => {},
            }
        }
    }
    assert(all.take(all.len() as int) == all);
    r
}

impl LibraryDB {
    /// The cover of a folder. A folder that was found to have none has none.
    pub fn get_cover(&mut self, folder_path: &str) -> (r: Option<Vec<u8>>)
        ensures
            old(self)@.is_prefix_of(final(self)@),
            asked(
                since(old(self)@, final(self)@),
                Request::QueryRow(GET_COVER@, seq![folder_path@]),
            ),
            match r {
                Some(b) => bytes_in(row_in(final(self)@.last())) == Some(b@),
                None => bytes_in(row_in(final(self)@.last())) is None,
            },
    {
        row_to_bytes(&self.row(GET_COVER, &one_text(folder_path)))
    }

    /// Keeps the cover of a folder and where it came from.
    pub fn set_cover(&mut self, folder_path: &str, data: &Vec<u8>, source: &str)
        ensures
            old(self)@.is_prefix_of(final(self)@),
            asked(
                since(old(self)@, final(self)@),
                Request::Execute(
                    SET_COVER@,
                    seq![
                        Datum::Text(folder_path@),
                        Datum::Text(source@),
                        Datum::Blob(data@),
                    ],
                ),
            ),
    {
        let mut params: Vec<Param> = Vec::new();
        params.push(Param::Text(folder_path.to_owned()));
        params.push(Param::Text(source.to_owned()));
        params.push(Param::Blob(copied_bytes(data)));
        assert(crate::store::data(params@) =~= seq![
            Datum::Text(folder_path@),
            Datum::Text(source@),
            Datum::Blob(data@),
        ]);
        let _ = self.run(SET_COVER, &params);
    }

    /// Whether the library knows of a folder's cover, or that it has none.
    pub fn has_cover(&mut self, folder_path: &str) -> (r: bool)
        ensures
            old(self)@.is_prefix_of(final(self)@),
            asked(
                since(old(self)@, final(self)@),
                Request::QueryRow(HAS_COVER@, seq![folder_path@]),
            ),
            r == (row_in(final(self)@.last()) is Some),
    {
        self.row(HAS_COVER, &one_text(folder_path)).is_some()
    }

    /// Notes that a folder has no cover, so that none is looked for again. A cover
    /// that is known stays.
    pub fn mark_no_cover(&mut self, folder_path: &str)
        ensures
            old(self)@.is_prefix_of(final(self)@),
            asked(
                since(old(self)@, final(self)@),
                Request::Execute(MARK_NO_COVER@, seq![Datum::Text(folder_path@)]),
            ),
    {
        let _ = self.run(MARK_NO_COVER, &one_param(folder_path));
    }

    /// The cover of a song.
    pub fn get_song_cover(&mut self, song_path: &str) -> (r: Option<Vec<u8>>)
        ensures
            old(self)@.is_prefix_of(final(self)@),
            asked(
                since(old(self)@, final(self)@),
                Request::QueryRow(GET_SONG_COVER@, seq![song_path@]),
            ),
            match r {
                Some(b) => bytes_in(row_in(final(self)@.last())) == Some(b@),
                None => bytes_in(row_in(final(self)@.last())) is None,
            },
    {
        row_to_bytes(&self.row(GET_SONG_COVER, &one_text(song_path)))
    }

    /// The covers of all songs directly in a folder, by a single query.
    pub fn get_song_covers_for_folder(&mut self, folder_path: &str) -> (res: Result<
        SongCovers,
        DbError,
    >)
        ensures
            old(self)@.is_prefix_of(final(self)@),
            asked(
                since(old(self)@, final(self)@),
                Request::QueryMap(SONG_COVERS_OF_FOLDER@, seq![folder_path@]),
            ),
            match (rows_in(final(self)@.last()), res) {
                (Some(rows), Ok(covers)) => covers@ == song_covers_in(rows),
                (None, Err(e)) => e == DbError::Query,
                _ => false,
            },
    {
        match self.rows(SONG_COVERS_OF_FOLDER, &one_text(folder_path)) {
            Ok(rows) => Ok(rows_to_song_covers(&rows)),
            Err(e) => Err(e),
        }
    }

    /// Keeps the cover of a song.
    pub fn set_song_cover(&mut self, song_path: &str, data: &Vec<u8>)
        ensures
            old(self)@.is_prefix_of(final(self)@),
            asked(
                since(old(self)@, final(self)@),
                Request::Execute(
                    SET_SONG_COVER@,
                    seq![Datum::Text(song_path@), Datum::Blob(data@)],
                ),
            ),
    {
        let mut params: Vec<Param> = Vec::new();
        params.push(Param::Text(song_path.to_owned()));
        params.push(Param::Blob(copied_bytes(data)));
        assert(crate::store::data(params@) =~= seq![Datum::Text(song_path@), Datum::Blob(data@)]);
        let _ = self.run(SET_SONG_COVER, &params);
    }

    /// The cover of the first song in a folder, by name, that has one.
    pub fn get_first_song_cover_in_folder(&mut self, folder_path: &str) -> (r: Option<Vec<u8>>)
        ensures
            old(self)@.is_prefix_of(final(self)@),
            asked(
                since(old(self)@, final(self)@),
                Request::QueryRow(FIRST_SONG_COVER@, seq![folder_path@]),
            ),
            match r {
                Some(b) => bytes_in(row_in(final(self)@.last())) == Some(b@),
                None => bytes_in(row_in(final(self)@.last())) is None,
            },
    {
        row_to_bytes(&self.row(FIRST_SONG_COVER, &one_text(folder_path)))
    }
}

} // verus!
