//! Looking for the cover of a folder, in the folder and in the folders below it.
use crate::library_db::LibraryDB;
use crate::order::ordered;
use crate::paths::{inside, path_inside};
use crate::scan::{
    entries_of, entry_folder, entry_song, is_hidden, name_order, order_by_name, song_of_entry,
    DirEntryInfo, Entry, EntryKind,
};
use crate::sql::{HAS_COVER, MARK_NO_COVER, SET_COVER};
use crate::store::{asked, row_in, since, Datum, Request};
use crate::text::{opt_text, texts};
use vstd::prelude::*;

verus! {

/// The names of files with covers, the best one first.
pub const COVER_NAMES: [&'static str; 18] = [
    "cover.jpg",
    "cover.png",
    "Cover.jpg",
    "Cover.png",
    "folder.jpg",
    "folder.png",
    "Folder.jpg",
    "Folder.png",
    "front.jpg",
    "front.png",
    "Front.jpg",
    "Front.png",
    "album.jpg",
    "album.png",
    "Album.jpg",
    "Album.png",
    "art.jpg",
    "art.png",
];

/// How many levels below a folder its cover is looked for.
pub const MAX_COVER_DEPTH: u32 = 5;

/// The paths where the cover of a folder may lie, the best one first.
pub open spec fn cover_paths(folder: Seq<char>) -> Seq<Seq<char>> {
    Seq::new(18, |i: int| inside(folder, COVER_NAMES@[i]@))
}

/// The paths where the cover of a folder may lie, the best one first.
pub fn cover_candidates(folder: &str) -> (r: Vec<String>)
    ensures
        texts(r@) == cover_paths(folder@),
{
    let mut r: Vec<String> = Vec::new();
    for i in 0..18usize
        invariant
            texts(r@) == cover_paths(folder@).take(i as int),
    {
        let ghost before = r@;
        let p = path_inside(folder, COVER_NAMES[i]);
        r.push(p);
        assert(texts(r@) =~= texts(before).push(p@));
        assert(cover_paths(folder@).take(i + 1) =~= cover_paths(folder@).take(i as int).push(p@));
    }
    assert(cover_paths(folder@).take(18) =~= cover_paths(folder@));
    r
}

/// The cover of a folder among the files on disk: the first of the candidates that
/// is a file. `is_file` tells this of each candidate.
pub fn get_cover_file(folder: &str, is_file: &Vec<bool>) -> (r: Option<String>)
    requires
        is_file@.len() == 18,
    ensures
        match r {
            Some(p) => exists|i: int|
                0 <= i < 18 && #[trigger] is_file@[i] && p@ == cover_paths(folder@)[i] && (forall|
                    j: int,
                |
                    0 <= j < i ==> !#[trigger] is_file@[j]),
            None => forall|i: int| 0 <= i < 18 ==> !#[trigger] is_file@[i],
        },
{
    for i in 0..18usize
        invariant
            is_file@.len() == 18,
            forall|j: int| 0 <= j < i ==> !#[trigger] is_file@[j],
    {
        if is_file[i] {
            return Some(path_inside(folder, COVER_NAMES[i]));
        }
    }
    None
}

/// What a search needs to know next.
pub enum Want {
    /// What is in a file, where it can be read.
    File(String),
    /// The cover of a song of a folder, where the library knows one.
    Kept(String),
    /// What a folder holds, where it can be read.
    Listing(String),
    /// The cover that is part of a song file.
    Art(String),
    /// Nothing: the search has ended.
    Nothing,
}

/// The content of a `Want`.
pub enum Question {
    File(Seq<char>),
    Kept(Seq<char>),
    Listing(Seq<char>),
    Art(Seq<char>),
    Nothing,
}

impl View for Want {
    type V = Question;

    open spec fn view(&self) -> Question {
        match *self {
            Want::File(p) => Question::File(p@),
            Want::Kept(p) => Question::Kept(p@),
            Want::Listing(p) => Question::Listing(p@),
            Want::Art(p) => Question::Art(p@),
            Want::Nothing => Question::Nothing,
        }
    }
}

/// What was found out.
pub enum Answer {
    /// A picture, or none.
    Picture(Option<Vec<u8>>),
    /// The entries of a folder, or none.
    Entries(Option<Vec<DirEntryInfo>>),
}

/// The content of an `Answer`.
pub enum Told {
    Picture(Option<Seq<u8>>),
    Entries(Option<Seq<Entry>>),
}

impl View for Answer {
    type V = Told;

    open spec fn view(&self) -> Told {
        match *self {
            Answer::Picture(Some(b)) => Told::Picture(Some(b@)),
            Answer::Picture(None) => Told::Picture(None),
            Answer::Entries(Some(e)) => Told::Entries(Some(entries_of(e@))),
            Answer::Entries(None) => Told::Entries(None),
        }
    }
}

/// A folder to look into, and how far below the first one it lies.
pub struct Spot {
    pub path: String,
    pub depth: u32,
}

/// The content of a `Spot`.
pub struct Where {
    pub path: Seq<char>,
    pub depth: int,
}

impl View for Spot {
    type V = Where;

    open spec fn view(&self) -> Where {
        Where { path: self.path@, depth: self.depth as int }
    }
}

/// How far the search in a folder has come.
pub enum Stage {
    /// The files with the names of covers are looked at, from a place on.
    Names(usize),
    /// The library is asked.
    Kept,
    /// The folder is read.
    Listing,
    /// The first song file of the folder is looked at. The folders in the folder
    /// come afterwards.
    Art(String, Vec<String>),
}

/// The content of a `Stage`.
pub enum Phase {
    Names(int),
    Kept,
    Listing,
    Art(Seq<char>, Seq<Seq<char>>),
}

impl View for Stage {
    type V = Phase;

    open spec fn view(&self) -> Phase {
        match *self {
            Stage::Names(i) => Phase::Names(i as int),
            Stage::Kept => Phase::Kept,
            Stage::Listing => Phase::Listing,
            Stage::Art(p, dirs) => Phase::Art(p@, texts(dirs@)),
        }
    }
}

/// A search for the cover of a folder.
pub struct CoverSearch {
    stack: Vec<Spot>,
    stage: Stage,
    found: Option<Vec<u8>>,
}

/// The content of a `CoverSearch`: the folders to look into, the current one last,
/// how far the search in it has come, and the cover once it was found.
pub struct Hunt {
    pub stack: Seq<Where>,
    pub phase: Phase,
    pub found: Option<Seq<u8>>,
}

impl View for CoverSearch {
    type V = Hunt;

    closed spec fn view(&self) -> Hunt {
        Hunt {
            stack: self.stack@.map_values(|s: Spot| s@),
            phase: self.stage@,
            found: match self.found {
                Some(b) => Some(b@),
                None => None,
            },
        }
    }
}

/// The folders in a folder, by name.
pub open spec fn dirs_in(entries: Seq<Entry>) -> Seq<Seq<char>> {
    ordered(entries, name_order()).filter_map(|e: Entry| dir_path(e))
}

/// The song files in a folder, by name.
pub open spec fn songs_listed(entries: Seq<Entry>) -> Seq<Seq<char>> {
    ordered(entries, name_order()).filter_map(|e: Entry| song_path(e))
}

/// The path of an entry that is a folder.
pub open spec fn dir_path(e: Entry) -> Option<Seq<char>> {
    match entry_folder(e) {
        Some(f) => Some(f.path),
        None => None,
    }
}

/// The path of an entry that is a song.
pub open spec fn song_path(e: Entry) -> Option<Seq<char>> {
    match entry_song(e) {
        Some(s) => Some(s.path),
        None => None,
    }
}

/// Folders to look into, put on the stack: the first one on top. Those too deep
/// are left out.
pub open spec fn spots(dirs: Seq<Seq<char>>, depth: int) -> Seq<Where> {
    if depth > MAX_COVER_DEPTH {
        Seq::empty()
    } else {
        Seq::new(dirs.len(), |i: int| Where { path: dirs[dirs.len() - 1 - i], depth })
    }
}

/// The search goes on with the folders in the current one and those after it.
pub open spec fn moved_on(hunt: Hunt, dirs: Seq<Seq<char>>) -> Hunt {
    Hunt {
        stack: hunt.stack.drop_last() + spots(dirs, hunt.stack.last().depth + 1),
        phase: Phase::Names(0),
        found: None,
    }
}

/// What a search needs to know next.
pub open spec fn wanted(hunt: Hunt) -> Question {
    if hunt.found is Some || hunt.stack.len() == 0 {
        Question::Nothing
    } else {
        let path = hunt.stack.last().path;
        match hunt.phase {
            Phase::Names(i) => Question::File(cover_paths(path)[i]),
            Phase::Kept => Question::Kept(path),
            Phase::Listing => Question::Listing(path),
            Phase::Art(song, _) => Question::Art(song),
        }
    }
}

/// The search after it was told something. A picture ends it.
pub open spec fn told(hunt: Hunt, answer: Told) -> Hunt {
    if wanted(hunt) is Nothing {
        hunt
    } else {
        match (hunt.phase, answer) {
            (Phase::Listing, Told::Entries(Some(entries))) => if songs_listed(entries).len() > 0 {
                Hunt { phase: Phase::Art(songs_listed(entries)[0], dirs_in(entries)), ..hunt }
            } else {
                moved_on(hunt, dirs_in(entries))
            },
            (Phase::Listing, _) => moved_on(hunt, Seq::empty()),
            (_, Told::Picture(Some(b))) => Hunt { found: Some(b), ..hunt },
            (Phase::Names(i), _) => Hunt {
                phase: if i + 1 < 18 {
                    Phase::Names(i + 1)
                } else {
                    Phase::Kept
                },
                ..hunt
            },
            (Phase::Kept, _) => Hunt { phase: Phase::Listing, ..hunt },
            (Phase::Art(_, dirs), _) => moved_on(hunt, dirs),
        }
    }
}

/// Everything a search may ask for: what is in files, which covers the library
/// knows, what folders hold, and which covers are part of song files.
pub struct World {
    pub files: spec_fn(Seq<char>) -> Option<Seq<u8>>,
    pub kept: spec_fn(Seq<char>) -> Option<Seq<u8>>,
    pub listings: spec_fn(Seq<char>) -> Option<Seq<Entry>>,
    pub art: spec_fn(Seq<char>) -> Option<Seq<u8>>,
}

/// Whether an answer is what a question asks for.
pub open spec fn truthful(world: World, question: Question, answer: Told) -> bool {
    match (question, answer) {
        (Question::File(p), Told::Picture(b)) => (world.files)(p) == b,
        (Question::Kept(p), Told::Picture(b)) => (world.kept)(p) == b,
        (Question::Listing(p), Told::Entries(e)) => (world.listings)(p) == e,
        (Question::Art(p), Told::Picture(b)) => (world.art)(p) == b,
        _ => false,
    }
}

/// One or, where there is none, another.
pub open spec fn or_else(a: Option<Seq<u8>>, b: Option<Seq<u8>>) -> Option<Seq<u8>> {
    match a {
        Some(x) => Some(x),
        None => b,
    }
}

/// The cover in the files with the names of covers, from a place on.
pub open spec fn in_files(world: World, path: Seq<char>, from: int) -> Option<Seq<u8>>
    decreases 18 - from,
{
    if from >= 18 {
        None
    } else {
        or_else((world.files)(cover_paths(path)[from]), in_files(world, path, from + 1))
    }
}

/// The cover that is part of the first song file of a folder.
pub open spec fn in_song(world: World, path: Seq<char>) -> Option<Seq<u8>> {
    match (world.listings)(path) {
        Some(entries) => if songs_listed(entries).len() > 0 {
            (world.art)(songs_listed(entries)[0])
        } else {
            None
        },
        None => None,
    }
}

/// The folders in a folder, by name.
pub open spec fn dirs_of(world: World, path: Seq<char>) -> Seq<Seq<char>> {
    match (world.listings)(path) {
        Some(entries) => dirs_in(entries),
        None => Seq::empty(),
    }
}

/// The cover of a folder: a file with the name of a cover, a cover that the library
/// knows of a song in it, the cover in its first song file, or the cover of the
/// first folder in it that has one, down to a depth.
pub open spec fn cover_of(world: World, path: Seq<char>, depth: int) -> Option<Seq<u8>>
    decreases MAX_COVER_DEPTH - depth + 1, 0nat,
{
    if depth > MAX_COVER_DEPTH {
        None
    } else {
        or_else(
            in_files(world, path, 0),
            or_else(
                (world.kept)(path),
                or_else(in_song(world, path), first_cover(world, dirs_of(world, path), depth + 1)),
            ),
        )
    }
}

/// The cover of the first of several folders that has one.
pub open spec fn first_cover(world: World, dirs: Seq<Seq<char>>, depth: int) -> Option<Seq<u8>>
    decreases MAX_COVER_DEPTH - depth + 1, dirs.len() + 1,
{
    if dirs.len() == 0 || depth > MAX_COVER_DEPTH {
        None
    } else {
        or_else(
            cover_of(world, dirs[0], depth),
            first_cover(world, dirs.drop_first(), depth),
        )
    }
}

/// The cover that is found in the folders on a stack.
pub open spec fn in_stack(world: World, stack: Seq<Where>) -> Option<Seq<u8>>
    decreases stack.len(),
{
    if stack.len() == 0 {
        None
    } else {
        or_else(
            cover_of(world, stack.last().path, stack.last().depth),
            in_stack(world, stack.drop_last()),
        )
    }
}

/// Whether no folder on the stack lies too deep, and the names are looked at within
/// their list.
pub open spec fn in_bounds(hunt: Hunt) -> bool {
    &&& forall|i: int|
        0 <= i < hunt.stack.len() ==> 0 <= (#[trigger] hunt.stack[i]).depth <= MAX_COVER_DEPTH
    &&& hunt.phase matches Phase::Names(i) ==> 0 <= i < 18
}

/// What is found where a search has come to the end of a folder without a cover.
pub open spec fn afterwards(world: World, hunt: Hunt, dirs: Seq<Seq<char>>) -> Option<Seq<u8>> {
    or_else(
        first_cover(world, dirs, hunt.stack.last().depth + 1),
        in_stack(world, hunt.stack.drop_last()),
    )
}

/// What a search will find.
pub open spec fn outcome(world: World, hunt: Hunt) -> Option<Seq<u8>> {
    if hunt.found is Some {
        hunt.found
    } else if hunt.stack.len() == 0 {
        None
    } else {
        let path = hunt.stack.last().path;
        let rest = afterwards(world, hunt, dirs_of(world, path));
        let listed = or_else(in_song(world, path), rest);
        match hunt.phase {
            Phase::Names(i) => or_else(
                in_files(world, path, i),
                or_else((world.kept)(path), listed),
            ),
            Phase::Kept => or_else((world.kept)(path), listed),
            Phase::Listing => listed,
            Phase::Art(song, dirs) => or_else((world.art)(song), afterwards(world, hunt, dirs)),
        }
    }
}

proof fn in_stack_of_spots(world: World, rest: Seq<Where>, dirs: Seq<Seq<char>>, depth: int)
    ensures
        in_stack(world, rest + spots(dirs, depth)) == or_else(
            first_cover(world, dirs, depth),
            in_stack(world, rest),
        ),
    decreases dirs.len(),
{
    let stack = rest + spots(dirs, depth);
    if depth > MAX_COVER_DEPTH || dirs.len() == 0 {
        assert(stack =~= rest);
    } else {
        in_stack_of_spots(world, rest, dirs.drop_first(), depth);
        assert(stack.drop_last() =~= rest + spots(dirs.drop_first(), depth));
        assert(stack.last() == (Where { path: dirs[0], depth }));
    }
}

proof fn outcome_of_names(world: World, stack: Seq<Where>)
    requires
        in_bounds(Hunt { stack, phase: Phase::Names(0), found: None }),
    ensures
        outcome(world, Hunt { stack, phase: Phase::Names(0), found: None }) == in_stack(
            world,
            stack,
        ),
{
    if stack.len() > 0 {
        assert(stack.last() == stack[stack.len() - 1]);
    }
}

proof fn moved_on_finds(world: World, hunt: Hunt, dirs: Seq<Seq<char>>)
    requires
        in_bounds(hunt),
        hunt.stack.len() > 0,
    ensures
        in_bounds(moved_on(hunt, dirs)),
        outcome(world, moved_on(hunt, dirs)) == afterwards(world, hunt, dirs),
{
    let rest = hunt.stack.drop_last();
    let depth = hunt.stack.last().depth + 1;
    assert(hunt.stack.last() == hunt.stack[hunt.stack.len() - 1]);
    let next = moved_on(hunt, dirs);
    assert forall|i: int| 0 <= i < next.stack.len() implies 0 <= (
    #[trigger] next.stack[i]).depth <= MAX_COVER_DEPTH by {
        if i < rest.len() {
            assert(next.stack[i] == hunt.stack[i]);
        }
    }
    in_stack_of_spots(world, rest, dirs, depth);
    outcome_of_names(world, next.stack);
}

/// A search finds the cover that is there: as long as it is told the truth, what
/// it will find stays the same, up to the cover that it ends with.
pub proof fn search_finds_the_cover(world: World, hunt: Hunt, answer: Told)
    requires
        in_bounds(hunt),
        truthful(world, wanted(hunt), answer),
    ensures
        in_bounds(told(hunt, answer)),
        outcome(world, told(hunt, answer)) == outcome(world, hunt),
{
    let path = hunt.stack.last().path;
    match (hunt.phase, answer) {
        (Phase::Listing, Told::Entries(Some(entries))) => {
            if songs_listed(entries).len() == 0 {
                moved_on_finds(world, hunt, dirs_in(entries));
            }
        },
        (Phase::Listing, _) => {
            moved_on_finds(world, hunt, Seq::empty());
        },
        (Phase::Art(_, dirs), Told::Picture(None)) => {
            moved_on_finds(world, hunt, dirs);
        },
        (Phase::Names(i), Told::Picture(b)) => {
            assert(in_files(world, path, i) == or_else(b, in_files(world, path, i + 1)));
            assert(in_files(world, path, 18) is None);
        },
        _ => {},
    }
}

/// A search begins with the cover of its folder as what it will find.
pub proof fn search_begins_at_its_folder(world: World, path: Seq<char>)
    ensures
        in_bounds(begun(path)),
        outcome(world, begun(path)) == cover_of(world, path, 0),
{
    let stack = seq![Where { path, depth: 0 }];
    outcome_of_names(world, stack);
    assert(stack.drop_last() =~= Seq::empty());
}

/// A search ends with what it found.
pub proof fn search_ends_with_the_cover(world: World, hunt: Hunt)
    requires
        wanted(hunt) is Nothing,
    ensures
        outcome(world, hunt) == hunt.found,
{
}

/// How many questions a search asks at most about a folder and the folders below it.
pub open spec fn steps_in(world: World, path: Seq<char>, depth: int) -> nat
    decreases MAX_COVER_DEPTH - depth + 1, 0nat,
{
    if depth > MAX_COVER_DEPTH {
        0
    } else {
        21 + steps_in_all(world, dirs_of(world, path), depth + 1)
    }
}

/// How many questions a search asks at most about several folders.
pub open spec fn steps_in_all(world: World, dirs: Seq<Seq<char>>, depth: int) -> nat
    decreases MAX_COVER_DEPTH - depth + 1, dirs.len() + 1,
{
    if dirs.len() == 0 || depth > MAX_COVER_DEPTH {
        0
    } else {
        steps_in(world, dirs[0], depth) + steps_in_all(world, dirs.drop_first(), depth)
    }
}

/// How many questions a search asks at most about the folders on a stack.
pub open spec fn steps_in_stack(world: World, stack: Seq<Where>) -> nat
    decreases stack.len(),
{
    if stack.len() == 0 {
        0
    } else {
        steps_in(world, stack.last().path, stack.last().depth) + steps_in_stack(
            world,
            stack.drop_last(),
        )
    }
}

/// How many questions a search still asks at most.
pub open spec fn steps_left(world: World, hunt: Hunt) -> nat {
    if hunt.found is Some || hunt.stack.len() == 0 {
        0
    } else {
        let top = hunt.stack.last();
        let rest = steps_in_stack(world, hunt.stack.drop_last());
        let below = steps_in_all(world, dirs_of(world, top.path), top.depth + 1) + rest;
        match hunt.phase {
            Phase::Names(i) => (21 - i + below) as nat,
            Phase::Kept => 3 + below,
            Phase::Listing => 2 + below,
            Phase::Art(_, dirs) => 1 + steps_in_all(world, dirs, top.depth + 1) + rest,
        }
    }
}

proof fn steps_in_spots(world: World, rest: Seq<Where>, dirs: Seq<Seq<char>>, depth: int)
    ensures
        steps_in_stack(world, rest + spots(dirs, depth)) == steps_in_all(world, dirs, depth)
            + steps_in_stack(world, rest),
    decreases dirs.len(),
{
    let stack = rest + spots(dirs, depth);
    if depth > MAX_COVER_DEPTH || dirs.len() == 0 {
        assert(stack =~= rest);
    } else {
        steps_in_spots(world, rest, dirs.drop_first(), depth);
        assert(stack.drop_last() =~= rest + spots(dirs.drop_first(), depth));
        assert(stack.last() == (Where { path: dirs[0], depth }));
    }
}

proof fn steps_after_moving_on(world: World, hunt: Hunt, dirs: Seq<Seq<char>>)
    requires
        in_bounds(hunt),
        hunt.stack.len() > 0,
    ensures
        steps_left(world, moved_on(hunt, dirs)) == steps_in_all(
            world,
            dirs,
            hunt.stack.last().depth + 1,
        ) + steps_in_stack(world, hunt.stack.drop_last()),
{
    let depth = hunt.stack.last().depth + 1;
    let next = moved_on(hunt, dirs);
    moved_on_stays(hunt, dirs);
    steps_in_spots(world, hunt.stack.drop_last(), dirs, depth);
    if next.stack.len() > 0 {
        assert(next.stack.last() == next.stack[next.stack.len() - 1]);
    }
}

/// A search comes to an end: with every true answer fewer questions are left.
pub proof fn search_comes_to_an_end(world: World, hunt: Hunt, answer: Told)
    requires
        in_bounds(hunt),
        !(wanted(hunt) is Nothing),
        truthful(world, wanted(hunt), answer),
    ensures
        steps_left(world, told(hunt, answer)) < steps_left(world, hunt),
{
    match (hunt.phase, answer) {
        (Phase::Listing, Told::Entries(Some(entries))) => {
            if songs_listed(entries).len() == 0 {
                steps_after_moving_on(world, hunt, dirs_in(entries));
            }
        },
        (Phase::Listing, _) => {
            steps_after_moving_on(world, hunt, Seq::empty());
        },
        (Phase::Art(_, dirs), Told::Picture(None)) => {
            steps_after_moving_on(world, hunt, dirs);
        },
        _ => {},
    }
}

/// Whether a search for the cover of a folder went through these stages, from its
/// beginning to its end, and was told the truth.
pub open spec fn searched(
    world: World,
    path: Seq<char>,
    stages: Seq<Hunt>,
    news: Seq<Told>,
) -> bool {
    &&& stages.len() == news.len() + 1
    &&& stages[0] == begun(path)
    &&& forall|i: int|
        0 <= i < news.len() ==> truthful(world, wanted(stages[i]), #[trigger] news[i])
            && stages[i + 1] == told(stages[i], news[i])
    &&& wanted(stages.last()) is Nothing
}

proof fn stages_find_the_cover(
    world: World,
    path: Seq<char>,
    stages: Seq<Hunt>,
    news: Seq<Told>,
    n: int,
)
    requires
        searched(world, path, stages, news),
        0 <= n < stages.len(),
    ensures
        in_bounds(stages[n]),
        outcome(world, stages[n]) == cover_of(world, path, 0),
    decreases n,
{
    search_begins_at_its_folder(world, path);
    if n > 0 {
        stages_find_the_cover(world, path, stages, news, n - 1);
        assert(truthful(world, wanted(stages[n - 1]), news[n - 1]));
        search_finds_the_cover(world, stages[n - 1], news[n - 1]);
    }
}

/// A search that was told the truth to its end has found the cover of its folder, or
/// that there is none.
pub proof fn whole_search_finds_the_cover(
    world: World,
    path: Seq<char>,
    stages: Seq<Hunt>,
    news: Seq<Told>,
)
    requires
        searched(world, path, stages, news),
    ensures
        stages.last().found == cover_of(world, path, 0),
{
    stages_find_the_cover(world, path, stages, news, stages.len() - 1);
    search_ends_with_the_cover(world, stages.last());
}

/// A search that begins.
pub open spec fn begun(path: Seq<char>) -> Hunt {
    Hunt { stack: seq![Where { path, depth: 0 }], phase: Phase::Names(0), found: None }
}

fn sort_listing(entries: &Vec<DirEntryInfo>) -> (r: (Vec<String>, Option<String>))
    ensures
        texts(r.0@) == dirs_in(entries_of(entries@)),
        opt_text(r.1) == if songs_listed(entries_of(entries@)).len() > 0 {
            Some(songs_listed(entries_of(entries@))[0])
        } else {
            None
        },
{
    let order = order_by_name(entries);
    let ghost sorted = ordered(entries_of(entries@), name_order());
    let ghost f = |e: Entry| dir_path(e);
    let ghost g = |e: Entry| song_path(e);
    let mut dirs: Vec<String> = Vec::new();
    let mut song: Option<String> = None;
    for i in 0..order.len()
        invariant
            f == (|e: Entry| dir_path(e)),
            g == (|e: Entry| song_path(e)),
            forall|j: int| 0 <= j < order.len() ==> #[trigger] order@[j] < entries.len(),
            sorted == order@.map_values(|i: usize| entries@[i as int]@),
            texts(dirs@) == sorted.take(i as int).filter_map(f),
            opt_text(song) == if sorted.take(i as int).filter_map(g).len() > 0 {
                Some(sorted.take(i as int).filter_map(g)[0])
            } else {
                None
            },
    {
        let e = &entries[order[i]];
        proof {
            assert(sorted[i as int] == e@);
            sorted.lemma_filter_map_take_succ(f, i as int);
            sorted.lemma_filter_map_take_succ(g, i as int);
        }
        if !is_hidden(e.name.as_str()) && e.kind == EntryKind::Folder {
            let ghost before = dirs@;
            dirs.push(e.path.clone());
            assert(texts(dirs@) =~= texts(before).push(e.path@));
        }
        if song.is_none() {
            if let Some(s) = song_of_entry(e) {
                song = Some(s.path);
            }
        }
    }
    assert(sorted.take(sorted.len() as int) == sorted);
    (dirs, song)
}

impl CoverSearch {
    #[verifier::type_invariant]
    spec fn well_formed(self) -> bool {
        in_bounds(self@)
    }

    /// A search for the cover of a folder.
    pub fn new(path: &str) -> (r: CoverSearch)
        ensures
            r@ == begun(path@),
            in_bounds(r@),
    {
        let mut stack: Vec<Spot> = Vec::new();
        let spot = Spot { path: path.to_owned(), depth: 0 };
        stack.push(spot);
        assert(stack@.map_values(|s: Spot| s@) =~= seq![spot@]);
        CoverSearch { stack, stage: Stage::Names(0), found: None }
    }

    /// What the search needs to know next.
    pub fn want(&self) -> (r: Want)
        ensures
            r@ == wanted(self@),
    {
        proof {
            use_type_invariant(&*self);
        }
        let n = self.stack.len();
        if self.found.is_some() || n == 0 {
            return Want::Nothing;
        }
        assert(self@.stack.last() == self.stack@[n - 1]@);
        let path = self.stack[n - 1].path.as_str();
        match &self.stage {
            Stage::Names(i) => Want::File(path_inside(path, COVER_NAMES[*i])),
            Stage::Kept => Want::Kept(path.to_owned()),
            Stage::Listing => Want::Listing(path.to_owned()),
            Stage::Art(song, _) => Want::Art(song.clone()),
        }
    }

    /// The cover, once the search has found it.
    pub fn result(self) -> (r: Option<Vec<u8>>)
        ensures
            match r {
                Some(b) => self@.found == Some(b@),
                None => self@.found is None,
            },
    {
        self.found
    }

    fn move_on(&mut self, dirs: &Vec<String>)
        requires
            old(self)@.stack.len() > 0,
            old(self)@.found is None,
        ensures
            final(self)@ == moved_on(old(self)@, texts(dirs@)),
    {
        let ghost before = self@;
        proof {
            use_type_invariant(&*self);
            moved_on_stays(before, texts(dirs@));
        }
        let mut stack: Vec<Spot> = Vec::new();
        std::mem::swap(&mut stack, &mut self.stack);
        let n = stack.len();
        assert(before.stack.last() == stack@[n - 1]@);
        assert(before.stack[n - 1].depth <= MAX_COVER_DEPTH);
        let depth: u32 = stack[n - 1].depth + 1;
        let _ = stack.pop();
        let ghost rest = before.stack.drop_last();
        assert(stack@.map_values(|s: Spot| s@) =~= rest);
        let ghost all = spots(texts(dirs@), depth as int);
        if depth <= MAX_COVER_DEPTH {
            let mut i: usize = dirs.len();
            assert(stack@.map_values(|s: Spot| s@) =~= rest + all.take(0));
            while i > 0
                invariant
                    i <= dirs.len(),
                    depth <= MAX_COVER_DEPTH,
                    all == spots(texts(dirs@), depth as int),
                    all.len() == dirs.len(),
                    stack@.map_values(|s: Spot| s@) == rest + all.take(dirs.len() - i),
                decreases i,
            {
                i = i - 1;
                let ghost now = stack@.map_values(|s: Spot| s@);
                let next = Spot { path: dirs[i].clone(), depth };
                let ghost spot = next@;
                stack.push(next);
                assert(stack@.map_values(|s: Spot| s@) =~= now.push(spot));
                assert(spot == all[dirs.len() - 1 - i]);
                assert(all.take(dirs.len() - i) =~= all.take(dirs.len() - 1 - i).push(spot));
            }
            assert(all.take(all.len() as int) =~= all);
        } else {
            assert(rest + all =~= rest);
        }
        self.stage = Stage::Names(0);
        self.stack = stack;
    }

    /// Tells the search what it wanted to know.
    pub fn tell(&mut self, answer: Answer)
        ensures
            final(self)@ == told(old(self)@, answer@),
            in_bounds(final(self)@),
    {
        proof {
            use_type_invariant(&*self);
        }
        let ghost before = self@;
        let ghost news = answer@;
        let n = self.stack.len();
        if self.found.is_some() || n == 0 {
            return;
        }
        let (picture, entries): (Option<Vec<u8>>, Option<Vec<DirEntryInfo>>) = match answer {
            Answer::Picture(p) => (p, None),
            Answer::Entries(e) => (None, e),
        };
        let mut dirs: Vec<String> = Vec::new();
        assert(texts(dirs@) =~= Seq::empty());
        let mut next: Option<Stage> = None;
        match &self.stage {
            Stage::Listing => {
                if let Some(e) = &entries {
                    let (found_dirs, song) = sort_listing(e);
                    match song {
                        Some(s) => {
                            next = Some(Stage::Art(s, found_dirs));
                        },
                        None => {
                            dirs = found_dirs;
                        },
                    }
                }
            },
            stage => {
                if let Some(b) = picture {
                    self.found = Some(b);
                    return;
                }
                match stage {
                    Stage::Names(i) => {
                        next = Some(
                            if *i + 1 < 18 {
                                Stage::Names(*i + 1)
                            } else {
                                Stage::Kept
                            },
                        );
                    },
                    Stage::Kept => {
                        next = Some(Stage::Listing);
                    },
                    Stage::Art(_, found_dirs) => {
                        dirs = crate::text::copied(found_dirs);
                    },
                    Stage::Listing => {},
                }
            },
        }
        match next {
            Some(stage) => {
                self.stage = stage;
            },
            None => {
                self.move_on(&dirs);
                proof {
                    use_type_invariant(&*self);
                }
            },
        }
    }
}

proof fn moved_on_stays(hunt: Hunt, dirs: Seq<Seq<char>>)
    requires
        in_bounds(hunt),
        hunt.stack.len() > 0,
    ensures
        in_bounds(moved_on(hunt, dirs)),
{
    let next = moved_on(hunt, dirs);
    assert(hunt.stack.last() == hunt.stack[hunt.stack.len() - 1]);
    assert forall|i: int| 0 <= i < next.stack.len() implies 0 <= (
    #[trigger] next.stack[i]).depth <= MAX_COVER_DEPTH by {
        if i < hunt.stack.len() - 1 {
            assert(next.stack[i] == hunt.stack[i]);
        }
    }
}

/// The request that keeps what was found: the cover, or that there is none.
pub open spec fn discovered_request(path: Seq<char>, found: Option<Seq<u8>>) -> Request {
    match found {
        Some(b) => Request::Execute(
            SET_COVER@,
            seq![Datum::Text(path), Datum::Text("discovered"@), Datum::Blob(b)],
        ),
        None => Request::Execute(MARK_NO_COVER@, seq![Datum::Text(path)]),
    }
}

impl LibraryDB {
    /// Begins to look for the cover of a folder, unless the library knows it, or
    /// that there is none.
    pub fn discover_folder_cover(&mut self, path: &str) -> (r: Option<CoverSearch>)
        ensures
            old(self)@.is_prefix_of(final(self)@),
            asked(
                since(old(self)@, final(self)@),
                Request::QueryRow(HAS_COVER@, seq![path@]),
            ),
            match r {
                Some(search) => row_in(final(self)@.last()) is None && search@ == begun(path@)
                    && in_bounds(search@),
                None => row_in(final(self)@.last()) is Some,
            },
    {
        if self.has_cover(path) {
            None
        } else {
            Some(CoverSearch::new(path))
        }
    }

    /// Keeps what was found when the cover of a folder was looked for.
    pub fn keep_discovered(&mut self, path: &str, found: &Option<Vec<u8>>)
        ensures
            old(self)@.is_prefix_of(final(self)@),
            asked(
                since(old(self)@, final(self)@),
                discovered_request(
                    path@,
                    match *found {
                        Some(b) => Some(b@),
                        None => None,
                    },
                ),
            ),
    {
        match found {
            Some(b) => self.set_cover(path, b, "discovered"),
            None => self.mark_no_cover(path),
        }
    }
}

} // verus!
