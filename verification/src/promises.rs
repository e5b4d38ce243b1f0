//! What the library promises where its database answers faithfully: what was kept
//! is found again.
use crate::catalog::{changed_since, time_in};
use crate::library_db::{first_texts, outdated, schema_run, tables_run};
use crate::query_promises::unread_rows_are_listed;
use crate::records::{bytes_in, songs_in, Found};
use crate::scanning::{folder_request, song_request, unchanged};
use crate::sql::{
    unscanned_params, unscanned_sql, CLEAR_ALL, DB_VERSION, FOLDER_MTIME, FOLDER_SONGS, GET_COVER,
    GET_SONG_COVER, GET_VERSION, HAS_COVER, HAS_META, MARK_NO_COVER, SET_COVER, SET_SONG_COVER,
    SET_VERSION, SONG_MTIME, UPDATE_METADATA,
};
use crate::store::{
    asked, bytes_at, integer_at, row_in, rows_in, small_at, text_at, Datum, Exchange, Reply,
    Request,
};
use crate::tables::{
    answers, batch_lengths, effect, emptied, executed, faithful, is_song_in, is_unread_list,
    one_exchange, only_queries, queries_change_nothing, query_lengths, row_about_is_right,
    row_is_right, rows_are_right, runs_split, shows_song, shows_songs, statement_lengths, tables,
    unread_under, went_through, Metadata, SongRow, Tables,
};
use crate::text::{digit, digits, digits_value, signed_digits, small_number};
use vstd::prelude::*;

verus! {

/// Whether a run is a statement, queries, and one more query, where all went
/// through and every answer is faithful.
pub open spec fn write_then_read(
    t: Tables,
    write: Seq<Exchange>,
    between: Seq<Exchange>,
    read: Seq<Exchange>,
) -> bool {
    &&& write.len() == 1
    &&& read.len() == 1
    &&& only_queries(between)
    &&& went_through(write)
    &&& faithful(t, write + between + read)
}

proof fn read_sees_write(
    t: Tables,
    write: Seq<Exchange>,
    between: Seq<Exchange>,
    read: Seq<Exchange>,
)
    requires
        write_then_read(t, write, between, read),
    ensures
        answers(effect(t, write[0]), read[0]),
{
    let all = write + between + read;
    let n = write.len() as int;
    let m = n + between.len();
    runs_split(t, all, m);
    assert(all.take(m) =~= write + between);
    assert(all.skip(m) =~= read);
    runs_split(t, write + between, n);
    assert((write + between).take(n) =~= write);
    assert((write + between).skip(n) =~= between);
    one_exchange(t, write);
    queries_change_nothing(effect(t, write[0]), between);
    one_exchange(effect(t, write[0]), read);
}

/// The cover of a folder that was kept is the cover that is found.
pub proof fn kept_cover_is_found(
    t: Tables,
    path: Seq<char>,
    source: Seq<char>,
    data: Seq<u8>,
    write: Seq<Exchange>,
    between: Seq<Exchange>,
    read: Seq<Exchange>,
)
    requires
        write_then_read(t, write, between, read),
        asked(
            write,
            Request::Execute(
                SET_COVER@,
                seq![Datum::Text(path), Datum::Text(source), Datum::Blob(data)],
            ),
        ),
        asked(read, Request::QueryRow(GET_COVER@, seq![path])),
    ensures
        bytes_in(row_in(read[0])) == Some(data),
{
    read_sees_write(t, write, between, read);
    row_is_right(effect(t, write[0]), read[0], GET_COVER@, path);
    query_lengths();
    let params = seq![Datum::Text(path), Datum::Text(source), Datum::Blob(data)];
    assert(write[0].request == Request::Execute(SET_COVER@, params));
    assert(effect(t, write[0]) == executed(t, SET_COVER@, params));
    assert(text_at(params, 0) == Some(path));
    assert(bytes_at(params, 2) == Some(data));
}

/// A folder of which it was noted that it has no cover is not looked into again: the
/// library knows of it. A cover that was known before stays; else none is found. What
/// is known of other folders stays, and so does everything else.
pub proof fn noted_absence_is_known(
    t: Tables,
    path: Seq<char>,
    write: Seq<Exchange>,
    between: Seq<Exchange>,
    read: Seq<Exchange>,
)
    requires
        write_then_read(t, write, between, read),
        asked(write, Request::Execute(MARK_NO_COVER@, seq![Datum::Text(path)])),
    ensures
        asked(read, Request::QueryRow(HAS_COVER@, seq![path])) ==> row_in(read[0]) is Some,
        asked(read, Request::QueryRow(GET_COVER@, seq![path])) ==> bytes_in(row_in(read[0]))
            == if t.covers.contains_key(path) {
            t.covers[path]
        } else {
            None
        },
        tables(t, write) == (Tables {
            covers: if t.covers.contains_key(path) {
                t.covers
            } else {
                t.covers.insert(path, None)
            },
            ..t
        }),
{
    one_exchange(t, write);
    read_sees_write(t, write, between, read);
    if read[0].request == Request::QueryRow(HAS_COVER@, seq![path]) {
        row_is_right(effect(t, write[0]), read[0], HAS_COVER@, path);
    }
    if read[0].request == Request::QueryRow(GET_COVER@, seq![path]) {
        row_is_right(effect(t, write[0]), read[0], GET_COVER@, path);
    }
    query_lengths();
    statement_lengths();
    let params = seq![Datum::Text(path)];
    assert(effect(t, write[0]) == executed(t, MARK_NO_COVER@, params));
    assert(text_at(params, 0) == Some(path));
    let after = effect(t, write[0]);
    assert(after.covers.contains_key(path));
}

/// The cover of a song that was kept is the cover that is found.
pub proof fn kept_song_cover_is_found(
    t: Tables,
    path: Seq<char>,
    data: Seq<u8>,
    write: Seq<Exchange>,
    between: Seq<Exchange>,
    read: Seq<Exchange>,
)
    requires
        write_then_read(t, write, between, read),
        asked(
            write,
            Request::Execute(SET_SONG_COVER@, seq![Datum::Text(path), Datum::Blob(data)]),
        ),
        asked(read, Request::QueryRow(GET_SONG_COVER@, seq![path])),
    ensures
        bytes_in(row_in(read[0])) == Some(data),
{
    read_sees_write(t, write, between, read);
    row_is_right(effect(t, write[0]), read[0], GET_SONG_COVER@, path);
    query_lengths();
    statement_lengths();
    let params = seq![Datum::Text(path), Datum::Blob(data)];
    assert(effect(t, write[0]) == executed(t, SET_SONG_COVER@, params));
    assert(text_at(params, 0) == Some(path));
    assert(bytes_at(params, 1) == Some(data));
}

/// A folder that was kept needs no new scan while it was not changed since.
pub proof fn kept_folder_needs_no_rescan(
    t: Tables,
    path: Seq<char>,
    parent: Option<Seq<char>>,
    mtime: int,
    has_songs: bool,
    now: int,
    write: Seq<Exchange>,
    between: Seq<Exchange>,
    read: Seq<Exchange>,
)
    requires
        write_then_read(t, write, between, read),
        asked(write, folder_request(path, parent, mtime, has_songs, now)),
        asked(read, Request::QueryRow(FOLDER_MTIME@, seq![path])),
    ensures
        !changed_since(mtime, time_in(row_in(read[0]))),
{
    read_sees_write(t, write, between, read);
    row_is_right(effect(t, write[0]), read[0], FOLDER_MTIME@, path);
    query_lengths();
    statement_lengths();
    let params = folder_request(path, parent, mtime, has_songs, now)->Execute_1;
    assert(effect(t, write[0]) == executed(t, crate::sql::UPSERT_FOLDER@, params));
    assert(text_at(params, 0) == Some(path));
    assert(integer_at(params, 3) == Some(mtime));
    let after = effect(t, write[0]);
    assert(after.folders.contains_key(path));
    assert(after.folders[path].mtime == mtime);
}

/// A song that was kept counts as unchanged while its file was not changed since,
/// so a new scan leaves it as it is.
pub proof fn kept_song_is_unchanged(
    t: Tables,
    dir: Seq<char>,
    song: Found,
    write: Seq<Exchange>,
    between: Seq<Exchange>,
    read: Seq<Exchange>,
)
    requires
        write_then_read(t, write, between, read),
        asked(write, song_request(dir, song)),
        asked(read, Request::QueryRow(SONG_MTIME@, seq![song.path])),
    ensures
        unchanged(row_in(read[0]), song.mtime),
{
    read_sees_write(t, write, between, read);
    row_is_right(effect(t, write[0]), read[0], SONG_MTIME@, song.path);
    query_lengths();
    statement_lengths();
    let params = song_request(dir, song)->Execute_1;
    assert(effect(t, write[0]) == executed(t, crate::sql::UPSERT_SONG@, params));
    assert(text_at(params, 0) == Some(song.path));
    assert(integer_at(params, 5) == Some(song.mtime));
    let after = effect(t, write[0]);
    assert(after.songs.contains_key(song.path));
    assert(after.songs[song.path].mtime == song.mtime);
    assert(after.songs[song.path].meta_scanned == false);
    let r = row_in(read[0])->0;
    assert(small_at(r, 1) == Some(0int));
}

/// The request that keeps the metadata of a song.
pub open spec fn meta_request(path: Seq<char>, title: Seq<char>, meta: Metadata) -> Request {
    Request::Execute(
        UPDATE_METADATA@,
        seq![
            Datum::Text(title),
            Datum::Text(meta.artist),
            Datum::Text(meta.album),
            Datum::Text(meta.year),
            Datum::Integer(meta.bitrate),
            Datum::Integer(meta.sample_rate),
            Datum::Integer(meta.bits_per_sample),
            Datum::Integer(meta.duration),
            Datum::Text(path),
        ],
    )
}

proof fn metadata_is_kept(t: Tables, path: Seq<char>, title: Seq<char>, meta: Metadata, e: Exchange)
    requires
        e.request == meta_request(path, title, meta),
        e.reply matches Reply::Changed(n) && n is Some,
        t.songs.contains_key(path),
    ensures
        effect(t, e).songs.contains_key(path),
        effect(t, e).songs[path] == (SongRow { title, meta, meta_scanned: true, ..t.songs[path] }),
{
    statement_lengths();
    let params = meta_request(path, title, meta)->Execute_1;
    assert(effect(t, e) == executed(t, UPDATE_METADATA@, params));
    assert(text_at(params, 0) == Some(title));
    assert(text_at(params, 1) == Some(meta.artist));
    assert(text_at(params, 2) == Some(meta.album));
    assert(text_at(params, 3) == Some(meta.year));
    assert(integer_at(params, 4) == Some(meta.bitrate));
    assert(integer_at(params, 5) == Some(meta.sample_rate));
    assert(integer_at(params, 6) == Some(meta.bits_per_sample));
    assert(integer_at(params, 7) == Some(meta.duration));
    assert(text_at(params, 8) == Some(path));
}

/// The metadata of a song that was kept is what the list of its folder shows.
pub proof fn kept_metadata_is_shown(
    t: Tables,
    path: Seq<char>,
    title: Seq<char>,
    meta: Metadata,
    write: Seq<Exchange>,
    between: Seq<Exchange>,
    read: Seq<Exchange>,
)
    requires
        write_then_read(t, write, between, read),
        t.songs.contains_key(path),
        asked(write, meta_request(path, title, meta)),
        asked(read, Request::QueryMap(FOLDER_SONGS@, seq![t.songs[path].folder])),
    ensures
        rows_in(read[0]) matches Some(rows) && exists|i: int|
            0 <= i < songs_in(rows).len() && (#[trigger] songs_in(rows)[i]).path == path
                && shows_song(
                t,
                SongRow { title, meta, meta_scanned: true, ..t.songs[path] },
                songs_in(rows)[i],
            ),
{
    read_sees_write(t, write, between, read);
    metadata_is_kept(t, path, title, meta, write[0]);
    query_lengths();
    let dir = t.songs[path].folder;
    let after = effect(t, write[0]);
    rows_are_right(after, read[0], FOLDER_SONGS@, dir);
    reveal(shows_songs);
    assert(is_song_in(after, dir, path));
}

/// A song whose metadata was kept is not read again.
pub proof fn read_song_is_not_read_again(
    t: Tables,
    path: Seq<char>,
    title: Seq<char>,
    meta: Metadata,
    roots: Seq<Seq<char>>,
    limit: int,
    write: Seq<Exchange>,
    between: Seq<Exchange>,
    read: Seq<Exchange>,
)
    requires
        write_then_read(t, write, between, read),
        t.songs.contains_key(path),
        asked(write, meta_request(path, title, meta)),
        asked(
            read,
            Request::QueryMap(unscanned_sql(roots.len()), unscanned_params(roots, limit)),
        ),
    ensures
        rows_in(read[0]) matches Some(rows) ==> !first_texts(rows).contains(path),
{
    read_sees_write(t, write, between, read);
    metadata_is_kept(t, path, title, meta, write[0]);
    let after = effect(t, write[0]);
    unread_rows_are_listed(after, roots, limit, read[0]);
    reveal(is_unread_list);
    assert(!unread_under(after, roots).contains(path));
}

/// What opening a library makes of its tables: rows of another version are gone, rows
/// of the same version stay, and the version is noted.
pub open spec fn opened(t: Tables) -> Tables {
    if t.made && outdated(t.version) {
        Tables { made: true, version: Some(signed_digits(DB_VERSION as int)), ..emptied(t) }
    } else {
        Tables {
            made: true,
            version: match t.version {
                Some(v) => Some(v),
                None => Some(signed_digits(DB_VERSION as int)),
            },
            ..t
        }
    }
}

proof fn tables_are_made(t: Tables, seg: Seq<Exchange>)
    requires
        tables_run(true, seg),
        faithful(t, seg),
        went_through(seg),
    ensures
        tables(t, seg) == (Tables {
            made: true,
            version: match t.version {
                Some(v) => Some(v),
                None => Some(signed_digits(DB_VERSION as int)),
            },
            ..t
        }),
{
    batch_lengths();
    query_lengths();
    statement_lengths();
    runs_split(t, seg, 1);
    one_exchange(t, seg.take(1));
    assert(seg.take(1)[0] == seg[0]);
    let made = Tables { made: true, ..t };
    assert(tables(t, seg.take(1)) == made);
    let rest = seg.skip(1);
    runs_split(made, rest, 1);
    one_exchange(made, rest.take(1));
    assert(rest.take(1)[0] == seg[1]);
    assert(tables(made, rest.take(1)) == made);
    row_about_is_right(made, seg[1], GET_VERSION@);
    if t.version is None {
        one_exchange(made, rest.skip(1));
        assert(rest.skip(1)[0] == seg[2]);
        let params = seq![Datum::Text(signed_digits(DB_VERSION as int))];
        assert(text_at(params, 0) == Some(signed_digits(DB_VERSION as int)));
        assert(tables(t, seg) == executed(made, SET_VERSION@, params));
    } else {
        assert(rest.skip(1).len() == 0);
    }
}

/// Opening a library empties it where its tables are of another version, and leaves
/// every row as it is where they are not.
pub proof fn opening_empties_other_versions(t: Tables, seg: Seq<Exchange>)
    requires
        schema_run(true, seg),
        faithful(t, seg),
        went_through(seg),
    ensures
        tables(t, seg) == opened(t),
{
    batch_lengths();
    query_lengths();
    runs_split(t, seg, 1);
    one_exchange(t, seg.take(1));
    assert(seg.take(1)[0] == seg[0]);
    assert(tables(t, seg.take(1)) == t);
    row_about_is_right(t, seg[0], HAS_META@);
    let rest = seg.skip(1);
    if t.made {
        runs_split(t, rest, 1);
        one_exchange(t, rest.take(1));
        assert(rest.take(1)[0] == seg[1]);
        assert(tables(t, rest.take(1)) == t);
        row_about_is_right(t, seg[1], GET_VERSION@);
        let more = rest.skip(1);
        assert(more =~= seg.skip(2));
        if outdated(t.version) {
            runs_split(t, more, 1);
            one_exchange(t, more.take(1));
            assert(more.take(1)[0] == seg[2]);
            assert(more.skip(1) =~= seg.skip(3));
            tables_are_made(tables(t, more.take(1)), seg.skip(3));
        } else {
            tables_are_made(t, more);
        }
    } else {
        tables_are_made(t, rest);
    }
}

/// Opening a library again leaves it as it is.
pub proof fn reopening_changes_nothing(t: Tables)
    requires
        !t.made ==> t.version is None,
    ensures
        opened(opened(t)) == opened(t),
{
    let three = signed_digits(DB_VERSION as int);
    assert(three =~= seq!['3']) by {
        assert(digits(3) == seq![digit(3)]);
    }
    assert(digits_value(three) == 3) by {
        reveal_with_fuel(digits_value, 2);
        assert(three.drop_last().len() == 0);
    }
    assert(small_number(three) == Some(DB_VERSION as int));
}

/// A library that was emptied holds nothing.
pub proof fn emptied_library_holds_nothing(t: Tables, seg: Seq<Exchange>)
    requires
        asked(seg, Request::Batch(CLEAR_ALL@)),
        went_through(seg),
    ensures
        tables(t, seg) == emptied(t),
{
    one_exchange(t, seg);
}

} // verus!
