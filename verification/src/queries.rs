//! How the database reads a query for songs: the text of a query, and which rows it
//! gives.
use crate::matching::{like, nocase_at_most};
use crate::store::Datum;
use crate::tables::{read_back, SongRow, Tables};
use crate::text::{joined, signed_digits};
use vstd::prelude::*;

verus! {

/// A column of the table of songs that holds a text.
pub enum Column {
    Path,
    Folder,
    Name,
    Title,
    Artist,
    Album,
    Year,
    Format,
}

/// The name of a column.
pub open spec fn column_name(column: Column) -> Seq<char> {
    match column {
        Column::Path => "path"@,
        Column::Folder => "folder"@,
        Column::Name => "name"@,
        Column::Title => "title"@,
        Column::Artist => "artist"@,
        Column::Album => "album"@,
        Column::Year => "year"@,
        Column::Format => "format_type"@,
    }
}

/// What a column holds of a song.
pub open spec fn column_of(path: Seq<char>, row: SongRow, column: Column) -> Seq<char> {
    match column {
        Column::Path => path,
        Column::Folder => row.folder,
        Column::Name => row.name,
        Column::Title => row.title,
        Column::Artist => row.meta.artist,
        Column::Album => row.meta.album,
        Column::Year => row.meta.year,
        Column::Format => row.format_type,
    }
}

/// A term of a condition, with one parameter: a column is the parameter, or it
/// matches it as a pattern.
pub enum Term {
    Is(Column),
    Like(Column),
}

/// The text of a term.
pub open spec fn term_text(term: Term) -> Seq<char> {
    match term {
        Term::Is(column) => column_name(column) + " = ?"@,
        Term::Like(column) => column_name(column) + " LIKE ?"@,
    }
}

/// Whether a term holds of a song.
pub open spec fn term_holds(term: Term, param: Seq<char>, path: Seq<char>, row: SongRow) -> bool {
    match term {
        Term::Is(column) => column_of(path, row, column) == param,
        Term::Like(column) => like(param, column_of(path, row, column)),
    }
}

/// The text of terms of which one must hold.
pub open spec fn any_text(terms: Seq<Term>) -> Seq<char> {
    joined(terms.map_values(|term: Term| term_text(term)), " OR "@)
}

/// Whether one of the terms holds of a song. The parameters stand in the order of the
/// terms.
pub open spec fn any_holds(
    terms: Seq<Term>,
    params: Seq<Seq<char>>,
    path: Seq<char>,
    row: SongRow,
) -> bool {
    exists|i: int|
        0 <= i < terms.len() && #[trigger] term_holds(terms[i], params[i], path, row)
}

/// The text of several groups of terms, of each of which one must hold.
pub open spec fn all_text(groups: Seq<Seq<Term>>) -> Seq<char> {
    joined(groups.map_values(|terms: Seq<Term>| "("@ + any_text(terms) + ")"@), " AND "@)
}

/// Whether of each group of terms one holds of a song. The parameters stand in the order
/// of the terms.
pub open spec fn all_hold(
    groups: Seq<Seq<Term>>,
    params: Seq<Seq<char>>,
    path: Seq<char>,
    row: SongRow,
) -> bool
    decreases groups.len(),
{
    if groups.len() == 0 {
        true
    } else {
        let n = params.len() - groups.last().len();
        &&& all_hold(groups.drop_last(), params.take(n), path, row)
        &&& any_holds(groups.last(), params.skip(n), path, row)
    }
}

/// A query for songs. `places` are terms of which one must hold.
pub enum SongQuery {
    /// The paths of songs, by path. With `without`, the artist must not match one more
    /// parameter.
    Paths { places: Seq<Term>, without: bool },
    /// The paths of songs that were not read yet, up to a limit that is one more
    /// parameter.
    Unread { places: Seq<Term> },
    /// The number of songs.
    Count { places: Seq<Term> },
    /// Whole songs, the first ones by title. Of each group of terms one must hold.
    Whole { places: Seq<Term>, words: Seq<Seq<Term>> },
}

/// The text of a query.
pub open spec fn query_text(query: SongQuery) -> Seq<char> {
    match query {
        SongQuery::Paths { places, without } => {
            let all = "SELECT path FROM songs WHERE ("@ + any_text(places) + ")"@;
            let chosen = if without {
                all + " AND LOWER(COALESCE(artist,'')) NOT LIKE ?"@
            } else {
                all
            };
            chosen + " ORDER BY path COLLATE NOCASE"@
        },
        SongQuery::Unread { places } => {
            "SELECT path FROM songs WHERE meta_scanned=0 AND ("@ + any_text(places) + ") LIMIT ?"@
        },
        SongQuery::Count { places } => "SELECT COUNT(*) FROM songs WHERE "@ + any_text(places),
        SongQuery::Whole { places, words } => {
            "SELECT path,folder,name,title,artist,album,year,format_type,\
             bitrate,sample_rate,bits_per_sample,CAST(ROUND(duration*1000000000.0) AS INTEGER),\
             mtime,meta_scanned FROM songs WHERE ("@ + any_text(places) + ") AND "@ + all_text(
                words,
            ) + " ORDER BY title COLLATE NOCASE LIMIT 200"@
        },
    }
}

/// Whether a song is one that a query asks for.
pub open spec fn is_asked_for(
    query: SongQuery,
    params: Seq<Seq<char>>,
    path: Seq<char>,
    row: SongRow,
) -> bool {
    match query {
        SongQuery::Paths { places, without } => any_holds(places, params, path, row) && (without
            ==> !like(params.last(), row.meta.artist)),
        SongQuery::Unread { places } => any_holds(places, params, path, row) && !row.meta_scanned,
        SongQuery::Count { places } => any_holds(places, params, path, row),
        SongQuery::Whole { places, words } => any_holds(places, params, path, row) && all_hold(
            words,
            params.skip(places.len() as int),
            path,
            row,
        ),
    }
}

/// The songs that a query asks for.
pub open spec fn asked_for(t: Tables, query: SongQuery, params: Seq<Seq<char>>) -> Set<Seq<char>> {
    Set::new(
        |s: Seq<char>| t.songs.contains_key(s) && is_asked_for(query, params, s, t.songs[s]),
    )
}

/// The whole row of a song: each column by its place in the query.
pub open spec fn song_data(t: Tables, path: Seq<char>) -> Seq<Datum> {
    let row = t.songs[path];
    seq![
        Datum::Text(path),
        Datum::Text(row.folder),
        Datum::Text(row.name),
        Datum::Text(row.title),
        Datum::Text(row.meta.artist),
        Datum::Text(row.meta.album),
        Datum::Text(row.meta.year),
        Datum::Text(row.format_type),
        Datum::Integer(row.meta.bitrate),
        Datum::Integer(row.meta.sample_rate),
        Datum::Integer(row.meta.bits_per_sample),
        Datum::Integer((t.read_time)(row.meta.duration)),
        Datum::Real,
        Datum::Integer(
            if row.meta_scanned {
                1
            } else {
                0
            },
        ),
    ]
}

/// Whether the numbers of a song fit in 32 bits.
pub open spec fn numbers_fit(row: SongRow) -> bool {
    &&& i32::MIN <= row.meta.bitrate <= i32::MAX
    &&& i32::MIN <= row.meta.sample_rate <= i32::MAX
    &&& i32::MIN <= row.meta.bits_per_sample <= i32::MAX
}

/// Whether rows are the whole rows of songs.
pub open spec fn are_songs(
    t: Tables,
    songs: Seq<Seq<char>>,
    rows: Seq<Option<Seq<Datum>>>,
) -> bool {
    &&& rows.len() == songs.len()
    &&& forall|i: int|
        0 <= i < songs.len() ==> {
            let row = t.songs[songs[i]];
            &&& (#[trigger] rows[i]) == Some(song_data(t, songs[i]))
            &&& t.songs.contains_key(songs[i])
            &&& numbers_fit(row)
            &&& read_back(t, row.meta.duration, (t.read_time)(row.meta.duration))
        }
}

/// Whether rows are the paths of songs.
pub open spec fn are_paths(songs: Seq<Seq<char>>, rows: Seq<Option<Seq<Datum>>>) -> bool {
    rows.len() == songs.len() && forall|i: int|
        0 <= i < songs.len() ==> (#[trigger] rows[i]) == Some(seq![Datum::Text(songs[i])])
}

/// Whether songs are ordered by a column, whatever its case.
pub open spec fn are_ordered(t: Tables, songs: Seq<Seq<char>>, column: Column) -> bool {
    forall|i: int, j: int|
        0 <= i < j < songs.len() ==> nocase_at_most(
            column_of(#[trigger] songs[i], t.songs[songs[i]], column),
            column_of(#[trigger] songs[j], t.songs[songs[j]], column),
        )
}

/// Whether songs are those of a set, each once.
pub open spec fn are_all(songs: Seq<Seq<char>>, all: Set<Seq<char>>) -> bool {
    songs.no_duplicates() && forall|s: Seq<char>| #[trigger] songs.contains(s) <==> all.contains(s)
}

/// Whether songs are of a set, each once, and as many as there are up to a limit.
pub open spec fn are_some(songs: Seq<Seq<char>>, all: Set<Seq<char>>, limit: int) -> bool {
    &&& songs.no_duplicates()
    &&& forall|s: Seq<char>| #[trigger] songs.contains(s) ==> all.contains(s)
    &&& songs.len() == if all.len() < limit {
        all.len() as int
    } else {
        limit
    }
}

/// Whether the songs of a set that are left out do not come before the others by a
/// column.
pub open spec fn are_first(
    t: Tables,
    songs: Seq<Seq<char>>,
    all: Set<Seq<char>>,
    column: Column,
) -> bool {
    forall|s: Seq<char>, i: int|
        #[trigger] all.contains(s) && !songs.contains(s) && 0 <= i < songs.len() ==> nocase_at_most(
            column_of(#[trigger] songs[i], t.songs[songs[i]], column),
            column_of(s, t.songs[s], column),
        )
}

/// Whether rows answer a query for the songs `songs`.
pub open spec fn are_rows_of(
    t: Tables,
    query: SongQuery,
    params: Seq<Seq<char>>,
    songs: Seq<Seq<char>>,
    rows: Seq<Option<Seq<Datum>>>,
) -> bool {
    let all = asked_for(t, query, params);
    match query {
        SongQuery::Paths { .. } => {
            &&& are_paths(songs, rows)
            &&& are_all(songs, all)
            &&& are_ordered(t, songs, Column::Path)
        },
        SongQuery::Unread { .. } => {
            &&& are_paths(songs, rows)
            &&& forall|n: int|
                params.last() == #[trigger] signed_digits(n) ==> if n < 0 {
                    are_some(songs, all, all.len() as int)
                } else {
                    are_some(songs, all, n)
                }
        },
        SongQuery::Count { .. } => true,
        SongQuery::Whole { .. } => {
            &&& are_songs(t, songs, rows)
            &&& are_some(songs, all, 200)
            &&& are_ordered(t, songs, Column::Title)
            &&& are_first(t, songs, all, Column::Title)
        },
    }
}

/// Whether rows answer a query.
pub open spec fn are_rows(
    t: Tables,
    query: SongQuery,
    params: Seq<Seq<char>>,
    rows: Seq<Option<Seq<Datum>>>,
) -> bool {
    exists|songs: Seq<Seq<char>>| #[trigger] are_rows_of(t, query, params, songs, rows)
}

} // verus!
