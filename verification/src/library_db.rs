//! The library of folders and songs, kept in a database.
//!
//! The view of a `LibraryDB` is the list of exchanges with the database. The
//! contracts say which requests each operation makes and how it reads the
//! replies. Points in time and durations are in nanoseconds.
use crate::sql::{DB_VERSION, DROP_TABLES, GET_VERSION, HAS_META, PRAGMAS, SCHEMA, SET_VERSION};
use crate::store::{
    asked, cell_small, cell_text, data, exchanges, execute, execute_batch, open, opt_row_data,
    query_map, query_row, ran_in, row_in, rows_data, rows_in, since, small_at, text_at, Cell, Datum,
    Exchange, Param, Reply, Request,
};
use crate::text::{opt_text, parse_small, signed_decimal, signed_digits, small_number, texts};
use vstd::prelude::*;

verus! {

/// Why an operation on the library did not go through.
#[derive(Debug, Clone, Copy, PartialEq, Eq, Structural)]
pub enum DbError {
    /// The database file could not be opened.
    Open,
    /// The tables could not be made.
    Schema,
    /// A query could not be run.
    Query,
}

/// The library in its database.
pub struct LibraryDB {
    conn: rusqlite::Connection,
}

impl View for LibraryDB {
    type V = Seq<Exchange>;

    closed spec fn view(&self) -> Seq<Exchange> {
        exchanges(self.conn)
    }
}

/// The first texts of the rows that could be read and begin with a text.
pub open spec fn first_texts(rows: Seq<Option<Seq<Datum>>>) -> Seq<Seq<char>> {
    rows.filter_map(
        |row: Option<Seq<Datum>>|
            match row {
                Some(r) => text_at(r, 0),
                None => None,
            },
    )
}

/// The first texts of the rows that could be read and begin with a text.
pub fn first_texts_of(rows: &Vec<Option<Vec<Cell>>>) -> (r: Vec<String>)
    ensures
        texts(r@) == first_texts(rows_data(rows@)),
{
    let ghost f = |row: Option<Seq<Datum>>|
        match row {
            Some(r) => text_at(r, 0),
            None => None,
        };
    let ghost all = rows_data(rows@);
    let mut r: Vec<String> = Vec::new();
    for i in 0..rows.len()
        invariant
            all == rows_data(rows@),
            texts(r@) == all.take(i as int).filter_map(f),
            f == (|row: Option<Seq<Datum>>|
                match row {
                    Some(r) => text_at(r, 0),
                    None => None,
                }),
    {
        proof {
            all.lemma_filter_map_take_succ(f, i as int);
        }
        assert(all[i as int] == opt_row_data(rows@[i as int]));
        if let Some(row) = &rows[i] {
            if let Some(t) = cell_text(row, 0) {
                let ghost before = r@;
                r.push(t);
                assert(texts(r@) == texts(before).push(t@));
            }
        }
    }
    assert(all.take(all.len() as int) == all);
    r
}

/// How many rows a count reports; nothing that can be read counts as none.
pub open spec fn count_in(row: Option<Seq<Datum>>) -> int {
    match row {
        Some(r) => match small_at(r, 0) {
            Some(n) => n,
            None => 0,
        },
        None => 0,
    }
}

/// How many rows a count reports.
pub fn count_of(row: &Option<Vec<Cell>>) -> (n: i32)
    ensures
        n == count_in(opt_row_data(*row)),
{
    match row {
        Some(r) => match cell_small(r, 0) {
            Some(n) => n,
            None => 0,
        },
        None => 0,
    }
}

/// The text that a row begins with.
pub open spec fn text_in(row: Option<Seq<Datum>>) -> Option<Seq<char>> {
    match row {
        Some(r) => text_at(r, 0),
        None => None,
    }
}

/// The text that a row begins with.
pub fn text_of_row(row: &Option<Vec<Cell>>) -> (r: Option<String>)
    ensures
        opt_text(r) == text_in(opt_row_data(*row)),
{
    match row {
        Some(r) => cell_text(r, 0),
        None => None,
    }
}

/// Whether tables of a kept version must be dropped.
pub open spec fn outdated(version: Option<Seq<char>>) -> bool {
    match version {
        Some(v) => small_number(v) != Some(DB_VERSION as int),
        None => true,
    }
}

/// Whether tables of a kept version must be dropped.
pub fn is_outdated(version: &Option<String>) -> (r: bool)
    ensures
        r == outdated(opt_text(*version)),
{
    match version {
        Some(v) => match parse_small(v.as_str()) {
            Some(n) => n != DB_VERSION,
            None => true,
        },
        None => true,
    }
}

/// The exchanges that bring the tables up to date: tables of another version
/// are dropped, tables that are missing are made, and the version is noted where
/// there is none.
pub open spec fn schema_run(ok: bool, seg: Seq<Exchange>) -> bool {
    &&& seg.len() > 0
    &&& seg[0].request == Request::QueryRow(HAS_META@, Seq::empty())
    &&& if count_in(row_in(seg[0])) > 0 {
        &&& seg.len() > 1
        &&& seg[1].request == Request::QueryRow(GET_VERSION@, Seq::empty())
        &&& if outdated(text_in(row_in(seg[1]))) {
            &&& seg.len() > 2
            &&& seg[2].request == Request::Batch(DROP_TABLES@)
            &&& tables_run(ok, seg.skip(3))
        } else {
            tables_run(ok, seg.skip(2))
        }
    } else {
        tables_run(ok, seg.skip(1))
    }
}

/// The exchanges that make the tables and note the version.
pub open spec fn tables_run(ok: bool, seg: Seq<Exchange>) -> bool {
    &&& seg.len() > 0
    &&& seg[0].request == Request::Batch(SCHEMA@)
    &&& ok == ran_in(seg[0])
    &&& if ok {
        &&& seg.len() > 1
        &&& seg[1].request == Request::QueryRow(GET_VERSION@, Seq::empty())
        &&& if text_in(row_in(seg[1])) is None {
            &&& seg.len() == 3
            &&& seg[2].request == Request::Execute(
                SET_VERSION@,
                seq![Datum::Text(signed_digits(DB_VERSION as int))],
            )
        } else {
            seg.len() == 2
        }
    } else {
        seg.len() == 1
    }
}

/// Whether a query was made and `res` is what its rows begin with.
pub open spec fn listing(
    before: Seq<Exchange>,
    after: Seq<Exchange>,
    request: Request,
    res: Result<Seq<Seq<char>>, DbError>,
) -> bool {
    &&& before.is_prefix_of(after)
    &&& asked(since(before, after), request)
    &&& match (rows_in(after.last()), res) {
        (Some(rows), Ok(list)) => list == first_texts(rows),
        (None, Err(e)) => e == DbError::Query,
        _ => false,
    }
}

/// A list of one text.
pub fn one_text(s: &str) -> (r: Vec<String>)
    ensures
        texts(r@) == seq![s@],
{
    let mut r: Vec<String> = Vec::new();
    r.push(s.to_owned());
    assert(texts(r@) =~= seq![s@]);
    r
}

/// A list of one text as a parameter.
pub fn one_param(s: &str) -> (r: Vec<Param>)
    ensures
        data(r@) == seq![Datum::Text(s@)],
{
    let mut r: Vec<Param> = Vec::new();
    r.push(Param::Text(s.to_owned()));
    assert(data(r@) =~= seq![Datum::Text(s@)]);
    r
}

impl LibraryDB {
    /// Opens the library in a database file and brings its tables up to date.
    pub fn new(path: &str) -> (res: Result<LibraryDB, DbError>)
        ensures
            match res {
                Ok(db) => {
                    &&& db@.len() > 2
                    &&& db@[0] == (Exchange {
                        request: Request::Open(path@),
                        reply: Reply::Ran(true),
                    })
                    &&& db@[1].request == Request::Batch(PRAGMAS@)
                    &&& schema_run(true, db@.skip(2))
                },
                Err(e) => e == DbError::Open || e == DbError::Schema,
            },
    {
        match open(path) {
            Ok(conn) => {
                let mut db = LibraryDB { conn };
                let _ = execute_batch(&mut db.conn, PRAGMAS);
                let ghost before = db@;
                let made = db.init_schema();
                match made {
                    Ok(()) => {
                        assert(before.len() == 2);
                        assert(db@.skip(2) == since(before, db@));
                        assert(db@[0] == before[0]);
                        assert(db@[1] == before[1]);
                        Ok(db)
                    },
                    Err(e) => Err(e),
                }
            },
            Err(_) => Err(DbError::Open),
        }
    }

    /// Brings the tables up to date.
    pub fn init_schema(&mut self) -> (res: Result<(), DbError>)
        ensures
            old(self)@.is_prefix_of(final(self)@),
            schema_run(res is Ok, since(old(self)@, final(self)@)),
            res matches Err(e) ==> e == DbError::Schema,
    {
        let ghost before = self@;
        let none: Vec<String> = Vec::new();
        assert(texts(none@) =~= Seq::empty());
        let has_meta = query_row(&mut self.conn, HAS_META, &none).ok();
        if count_of(&has_meta) > 0 {
            let version = text_of_row(&query_row(&mut self.conn, GET_VERSION, &none).ok());
            if is_outdated(&version) {
                let _ = execute_batch(&mut self.conn, DROP_TABLES);
            }
        }
        let ghost ready = self@;
        let res = self.make_tables();
        proof {
            let seg = since(before, self@);
            let n = ready.len() - before.len();
            assert(seg.skip(n) == since(ready, self@));
            assert(forall|i: int| 0 <= i < n ==> seg[i] == ready[before.len() + i]);
        }
        res
    }

    fn make_tables(&mut self) -> (res: Result<(), DbError>)
        ensures
            old(self)@.is_prefix_of(final(self)@),
            tables_run(res is Ok, since(old(self)@, final(self)@)),
            res matches Err(e) ==> e == DbError::Schema,
    {
        let none: Vec<String> = Vec::new();
        assert(texts(none@) =~= Seq::empty());
        match execute_batch(&mut self.conn, SCHEMA) {
            Ok(()) => {},
            Err(_) => {
                return Err(DbError::Schema);
            },
        }
        let version = text_of_row(&query_row(&mut self.conn, GET_VERSION, &none).ok());
        if version.is_none() {
            let mut params: Vec<Param> = Vec::new();
            params.push(Param::Text(signed_decimal(DB_VERSION)));
            assert(data(params@) =~= seq![Datum::Text(signed_digits(DB_VERSION as int))]);
            let _ = execute(&mut self.conn, SET_VERSION, &params);
        }
        Ok(())
    }

    /// Runs one statement.
    pub(crate) fn run(&mut self, sql: &str, params: &Vec<Param>) -> (res: Option<usize>)
        ensures
            final(self)@ == old(self)@.push(
                (Exchange {
                    request: Request::Execute(sql@, data(params@)),
                    reply: Reply::Changed(
                        match res {
                            Some(n) => Some(n as nat),
                            None => None,
                        },
                    ),
                }),
            ),
    {
        execute(&mut self.conn, sql, params).ok()
    }

    /// Runs statements without parameters.
    pub(crate) fn run_all(&mut self, sql: &str) -> (ok: bool)
        ensures
            final(self)@ == old(self)@.push(
                (Exchange { request: Request::Batch(sql@), reply: Reply::Ran(ok) }),
            ),
    {
        execute_batch(&mut self.conn, sql).is_ok()
    }

    /// Asks for the first row of a query.
    pub(crate) fn row(&mut self, sql: &str, params: &Vec<String>) -> (res: Option<Vec<Cell>>)
        ensures
            final(self)@ == old(self)@.push(
                (Exchange {
                    request: Request::QueryRow(sql@, texts(params@)),
                    reply: Reply::Row(opt_row_data(res)),
                }),
            ),
    {
        query_row(&mut self.conn, sql, params).ok()
    }

    /// Asks for all rows of a query.
    pub(crate) fn rows(&mut self, sql: &str, params: &Vec<String>) -> (res: Result<
        Vec<Option<Vec<Cell>>>,
        DbError,
    >)
        ensures
            final(self)@ == old(self)@.push(
                (Exchange {
                    request: Request::QueryMap(sql@, texts(params@)),
                    reply: Reply::Rows(
                        match res {
                            Ok(rows) => Some(rows_data(rows@)),
                            Err(_) => None,
                        },
                    ),
                }),
            ),
            res matches Err(e) ==> e == DbError::Query,
    {
        match query_map(&mut self.conn, sql, params) {
            Ok(rows) => Ok(rows),
            Err(_) => Err(DbError::Query),
        }
    }

    /// Asks for the first texts of all rows of a query.
    pub(crate) fn list(&mut self, sql: &str, params: &Vec<String>) -> (res: Result<
        Vec<String>,
        DbError,
    >)
        ensures
            listing(
                old(self)@,
                final(self)@,
                Request::QueryMap(sql@, texts(params@)),
                match res {
                    Ok(v) => Ok(texts(v@)),
                    Err(e) => Err(e),
                },
            ),
    {
        match self.rows(sql, params) {
            Ok(rows) => Ok(first_texts_of(&rows)),
            Err(e) => Err(e),
        }
    }
}

} // verus!
