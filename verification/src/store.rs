//! The database connection. Each call on it is an exchange: a request and the
//! reply that came back. What a reply holds depends on the database file; which
//! requests are made, and in which order, is recorded and can be reasoned about.
use crate::text::{opt_text, texts};
use rusqlite::types::{Value, ValueRef};
use vstd::prelude::*;

verus! {

/// A connection to a database, as `rusqlite` has it.
#[verifier::external_type_specification]
#[verifier::external_body]
pub struct ExConnection(rusqlite::Connection);

/// What `rusqlite` reports when a call fails.
#[verifier::external_type_specification]
#[verifier::external_body]
pub struct ExError(rusqlite::Error);

/// A value handed to the database.
pub enum Param {
    Null,
    Integer(i64),
    Text(String),
    Blob(Vec<u8>),
}

/// A value read from the database. Fractions are converted to integers by the
/// queries, so what a fraction holds is not kept.
pub enum Cell {
    Null,
    Integer(i64),
    Real,
    Text(String),
    Blob(Vec<u8>),
}

/// The content of a `Param` or of a `Cell`.
pub enum Datum {
    Null,
    Integer(int),
    Real,
    Text(Seq<char>),
    Blob(Seq<u8>),
}

impl View for Param {
    type V = Datum;

    open spec fn view(&self) -> Datum {
        match *self {
            Param::Null => Datum::Null,
            Param::Integer(n) => Datum::Integer(n as int),
            Param::Text(s) => Datum::Text(s@),
            Param::Blob(b) => Datum::Blob(b@),
        }
    }
}

impl View for Cell {
    type V = Datum;

    open spec fn view(&self) -> Datum {
        match *self {
            Cell::Null => Datum::Null,
            Cell::Integer(n) => Datum::Integer(n as int),
            Cell::Real => Datum::Real,
            Cell::Text(s) => Datum::Text(s@),
            Cell::Blob(b) => Datum::Blob(b@),
        }
    }
}

/// The contents of a list of parameters.
pub open spec fn data(params: Seq<Param>) -> Seq<Datum> {
    params.map_values(|p: Param| p@)
}

/// The contents of a row.
pub open spec fn row_data(row: Seq<Cell>) -> Seq<Datum> {
    row.map_values(|c: Cell| c@)
}

/// The contents of a row that may be missing.
pub open spec fn opt_row_data(row: Option<Vec<Cell>>) -> Option<Seq<Datum>> {
    match row {
        Some(r) => Some(row_data(r@)),
        None => None,
    }
}

/// The contents of rows of which some could not be read.
pub open spec fn rows_data(rows: Seq<Option<Vec<Cell>>>) -> Seq<Option<Seq<Datum>>> {
    rows.map_values(|r: Option<Vec<Cell>>| opt_row_data(r))
}

/// A call on a connection.
pub enum Request {
    /// The database file is opened.
    Open(Seq<char>),
    /// Statements without parameters are run one after the other.
    Batch(Seq<char>),
    /// One statement is run.
    Execute(Seq<char>, Seq<Datum>),
    /// The first row of a query is asked for.
    QueryRow(Seq<char>, Seq<Seq<char>>),
    /// All rows of a query are asked for.
    QueryMap(Seq<char>, Seq<Seq<char>>),
}

/// What came back.
pub enum Reply {
    /// Whether the file was opened or all statements ran.
    Ran(bool),
    /// How many rows the statement changed, or nothing where it failed.
    Changed(Option<nat>),
    /// The row, or nothing where there was none or it could not be read.
    Row(Option<Seq<Datum>>),
    /// The rows, each where it could be read, or nothing where the query failed.
    Rows(Option<Seq<Option<Seq<Datum>>>>),
}

/// A request with its reply.
pub struct Exchange {
    pub request: Request,
    pub reply: Reply,
}

/// The exchanges that were added to `before` to make `after`.
pub open spec fn since(before: Seq<Exchange>, after: Seq<Exchange>) -> Seq<Exchange> {
    after.skip(before.len() as int)
}

/// Whether the exchanges are one request with its reply.
pub open spec fn asked(seg: Seq<Exchange>, request: Request) -> bool {
    seg.len() == 1 && seg[0].request == request
}

/// The row that an exchange brought.
pub open spec fn row_in(e: Exchange) -> Option<Seq<Datum>> {
    match e.reply {
        Reply::Row(row) => row,
        _ => None,
    }
}

/// The rows that an exchange brought.
pub open spec fn rows_in(e: Exchange) -> Option<Seq<Option<Seq<Datum>>>> {
    match e.reply {
        Reply::Rows(rows) => rows,
        _ => None,
    }
}

/// Whether an exchange ran to its end.
pub open spec fn ran_in(e: Exchange) -> bool {
    match e.reply {
        Reply::Ran(ok) => ok,
        _ => false,
    }
}

/// The exchanges of a piece of work that is done for each item in turn. A run
/// is told by its item and by its exchanges.
pub open spec fn all_done<T>(
    items: Seq<T>,
    run: spec_fn(T, Seq<Exchange>) -> bool,
    seg: Seq<Exchange>,
) -> bool
    decreases items.len(),
{
    if items.len() == 0 {
        seg.len() == 0
    } else {
        exists|k: int|
            0 <= k <= seg.len() && all_done(items.drop_last(), run, #[trigger] seg.take(k)) && run(
                items.last(),
                seg.skip(k),
            )
    }
}

/// One more item that was dealt with.
pub proof fn one_more_done<T>(
    items: Seq<T>,
    run: spec_fn(T, Seq<Exchange>) -> bool,
    n: int,
    seg: Seq<Exchange>,
    more: Seq<Exchange>,
)
    requires
        0 <= n < items.len(),
        all_done(items.take(n), run, seg),
        run(items[n], more),
    ensures
        all_done(items.take(n + 1), run, seg + more),
{
    assert(items.take(n + 1).drop_last() == items.take(n));
    assert((seg + more).take(seg.len() as int) == seg);
    assert((seg + more).skip(seg.len() as int) == more);
}

/// The text at a place of a row.
pub open spec fn text_at(row: Seq<Datum>, i: int) -> Option<Seq<char>> {
    if i < row.len() {
        match row[i] {
            Datum::Text(s) => Some(s),
            _ => None,
        }
    } else {
        None
    }
}

/// The integer at a place of a row.
pub open spec fn integer_at(row: Seq<Datum>, i: int) -> Option<int> {
    if i < row.len() {
        match row[i] {
            Datum::Integer(n) => Some(n),
            _ => None,
        }
    } else {
        None
    }
}

/// The integer of 32 bits at a place of a row.
pub open spec fn small_at(row: Seq<Datum>, i: int) -> Option<int> {
    match integer_at(row, i) {
        Some(n) => if i32::MIN <= n <= i32::MAX {
            Some(n)
        } else {
            None
        },
        None => None,
    }
}

/// The bytes at a place of a row.
pub open spec fn bytes_at(row: Seq<Datum>, i: int) -> Option<Seq<u8>> {
    if i < row.len() {
        match row[i] {
            Datum::Blob(b) => Some(b),
            _ => None,
        }
    } else {
        None
    }
}

/// The text at a place of a row.
pub fn cell_text(row: &Vec<Cell>, i: usize) -> (r: Option<String>)
    ensures
        opt_text(r) == text_at(row_data(row@), i as int),
{
    if i < row.len() {
        match &row[i] {
            Cell::Text(s) => Some(s.clone()),
            _ => None,
        }
    } else {
        None
    }
}

/// The integer at a place of a row.
pub fn cell_integer(row: &Vec<Cell>, i: usize) -> (r: Option<i64>)
    ensures
        match r {
            Some(n) => integer_at(row_data(row@), i as int) == Some(n as int),
            None => integer_at(row_data(row@), i as int) is None,
        },
{
    if i < row.len() {
        match &row[i] {
            Cell::Integer(n) => Some(*n),
            _ => None,
        }
    } else {
        None
    }
}

/// The integer of 32 bits at a place of a row.
pub fn cell_small(row: &Vec<Cell>, i: usize) -> (r: Option<i32>)
    ensures
        match r {
            Some(n) => small_at(row_data(row@), i as int) == Some(n as int),
            None => small_at(row_data(row@), i as int) is None,
        },
{
    match cell_integer(row, i) {
        Some(n) => if -0x8000_0000 <= n && n <= 0x7fff_ffff {
            Some(n as i32)
        } else {
            None
        },
        None => None,
    }
}

/// The bytes at a place of a row.
pub fn cell_bytes(row: &Vec<Cell>, i: usize) -> (r: Option<Vec<u8>>)
    ensures
        match r {
            Some(b) => bytes_at(row_data(row@), i as int) == Some(b@),
            None => bytes_at(row_data(row@), i as int) is None,
        },
{
    if i < row.len() {
        match &row[i] {
            Cell::Blob(b) => Some(copied_bytes(b)),
            _ => None,
        }
    } else {
        None
    }
}

/// A copy of some bytes.
pub fn copied_bytes(b: &Vec<u8>) -> (r: Vec<u8>)
    ensures
        r@ == b@,
{
    let r = b.clone();
    assert(r@ =~= b@);
    r
}

/// The exchanges made through a connection, in order.
pub uninterp spec fn exchanges(conn: rusqlite::Connection) -> Seq<Exchange>;

/// `Connection::open` opens a database file. Opening is the first exchange of
/// the new connection. Whether it succeeds depends on the file system.
#[verifier::external_body]
pub(crate) fn open(path: &str) -> (res: Result<rusqlite::Connection, rusqlite::Error>)
    ensures
        res matches Ok(conn) ==> exchanges(conn) == seq![
            Exchange { request: Request::Open(path@), reply: Reply::Ran(true) },
        ],
{
    rusqlite::Connection::open(path)
}

/// `Connection::execute_batch` runs statements without parameters, one after
/// the other, until one fails.
#[verifier::external_body]
pub(crate) fn execute_batch(conn: &mut rusqlite::Connection, sql: &str) -> (res: Result<
    (),
    rusqlite::Error,
>)
    ensures
        exchanges(*final(conn)) == exchanges(*old(conn)).push(
            Exchange { request: Request::Batch(sql@), reply: Reply::Ran(res is Ok) },
        ),
{
    conn.execute_batch(sql)
}

/// `Connection::execute` runs one statement with its parameters and tells how
/// many rows it changed.
#[verifier::external_body]
pub(crate) fn execute(conn: &mut rusqlite::Connection, sql: &str, params: &Vec<Param>) -> (res:
    Result<usize, rusqlite::Error>)
    ensures
        exchanges(*final(conn)) == exchanges(*old(conn)).push(
            Exchange {
                request: Request::Execute(sql@, data(params@)),
                reply: Reply::Changed(
                    match res {
                        Ok(n) => Some(n as nat),
                        Err(_) => None,
                    },
                ),
            },
        ),
{
    conn.execute(sql, rusqlite::params_from_iter(params.iter().map(|p| match p {
        Param::Null => Value::Null,
        Param::Integer(n) => Value::Integer(*n),
        Param::Text(s) => Value::Text(s.clone()),
        Param::Blob(b) => Value::Blob(b.clone()),
    })))
}

/// `Connection::query_row` runs a query and gives its first row; it fails where
/// there is none, and where a text in the row is not valid Unicode.
#[verifier::external_body]
pub(crate) fn query_row(conn: &mut rusqlite::Connection, sql: &str, params: &Vec<String>) -> (res:
    Result<Vec<Cell>, rusqlite::Error>)
    ensures
        exchanges(*final(conn)) == exchanges(*old(conn)).push(
            Exchange {
                request: Request::QueryRow(sql@, texts(params@)),
                reply: Reply::Row(
                    match res {
                        Ok(row) => Some(row_data(row@)),
                        Err(_) => None,
                    },
                ),
            },
        ),
{
    let asked = rusqlite::params_from_iter(params);
    conn.query_row(sql, asked, |row| (0..row.as_ref().column_count()).map(|i| Ok(match row.get_ref(i)? {
        ValueRef::Null => Cell::Null,
        ValueRef::Integer(n) => Cell::Integer(n),
        ValueRef::Real(_) => Cell::Real,
        ValueRef::Text(_) => Cell::Text(row.get(i)?),
        ValueRef::Blob(b) => Cell::Blob(b.to_vec()),
    })).collect())
}

/// `Connection::prepare` with `Statement::query_map` runs a query and gives its
/// rows in order. A row that failed to come, or that holds a text that is not
/// valid Unicode, is missing in its place.
#[verifier::external_body]
pub(crate) fn query_map(conn: &mut rusqlite::Connection, sql: &str, params: &Vec<String>) -> (res:
    Result<Vec<Option<Vec<Cell>>>, rusqlite::Error>)
    ensures
        exchanges(*final(conn)) == exchanges(*old(conn)).push(
            Exchange {
                request: Request::QueryMap(sql@, texts(params@)),
                reply: Reply::Rows(
                    match res {
                        Ok(rows) => Some(rows_data(rows@)),
                        Err(_) => None,
                    },
                ),
            },
        ),
{
    let asked = rusqlite::params_from_iter(params);
    Ok(conn.prepare(sql)?.query_map(asked, |row| (0..row.as_ref().column_count()).map(|i| Ok(match row.get_ref(i)? {
        ValueRef::Null => Cell::Null,
        ValueRef::Integer(n) => Cell::Integer(n),
        ValueRef::Real(_) => Cell::Real,
        ValueRef::Text(_) => Cell::Text(row.get(i)?),
        ValueRef::Blob(b) => Cell::Blob(b.to_vec()),
    })).collect())?.map(|row| row.ok()).collect())
}

} // verus!
