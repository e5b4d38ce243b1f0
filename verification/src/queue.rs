//! The songs that are played, and which one comes next.
use crate::paths::{folder_of, or_empty, parent_path};
use crate::text::{opt_text, same, texts};
use vstd::prelude::*;

verus! {

/// What happens when a song has ended.
#[derive(Debug, Clone, Copy, PartialEq, Eq, Structural)]
pub enum RepeatMode {
    /// The next song of the folder is played.
    Consecutive,
    /// The song is played once more.
    Once,
    /// The song is played again and again.
    Loop,
}

/// The icons of the modes.
pub const REPEAT_ICONS: [&'static str; 3] = [
    "fp-playlist-consecutive-symbolic",
    "fp-playlist-repeat-song-symbolic",
    "fp-playlist-repeat-symbolic",
];

/// The names of the modes.
pub const REPEAT_NAMES: [&'static str; 3] = ["Consecutive", "Repeat Once", "Repeat Indefinitely"];

/// The place of a mode in the lists of icons and names.
pub open spec fn mode_index(mode: RepeatMode) -> int {
    match mode {
        RepeatMode::Consecutive => 0,
        RepeatMode::Once => 1,
        RepeatMode::Loop => 2,
    }
}

/// The mode that comes after a mode when the modes are switched through.
pub open spec fn mode_after(mode: RepeatMode) -> RepeatMode {
    match mode {
        RepeatMode::Consecutive => RepeatMode::Once,
        RepeatMode::Once => RepeatMode::Loop,
        RepeatMode::Loop => RepeatMode::Consecutive,
    }
}

/// Switching through the modes three times leads back, and not sooner.
pub proof fn modes_go_round(mode: RepeatMode)
    ensures
        mode_after(mode_after(mode_after(mode))) == mode,
        mode_after(mode) != mode,
        mode_after(mode_after(mode)) != mode,
        mode_index(mode_after(mode)) == (mode_index(mode) + 1) % 3,
{
}

impl RepeatMode {
    /// The icon of the mode.
    pub fn icon(self) -> (r: &'static str)
        ensures
            r@ == REPEAT_ICONS@[mode_index(self)]@,
    {
        match self {
            RepeatMode::Consecutive => REPEAT_ICONS[0],
            RepeatMode::Once => REPEAT_ICONS[1],
            RepeatMode::Loop => REPEAT_ICONS[2],
        }
    }

    /// The name of the mode, to be translated.
    pub fn name(self) -> (r: &'static str)
        ensures
            r@ == REPEAT_NAMES@[mode_index(self)]@,
    {
        match self {
            RepeatMode::Consecutive => REPEAT_NAMES[0],
            RepeatMode::Once => REPEAT_NAMES[1],
            RepeatMode::Loop => REPEAT_NAMES[2],
        }
    }

    /// The icon that marks the song that is played, unless songs follow each
    /// other.
    pub fn badge(self) -> (r: Option<&'static str>)
        ensures
            match r {
                Some(icon) => self != RepeatMode::Consecutive && icon@
                    == REPEAT_ICONS@[mode_index(self)]@,
                None => self == RepeatMode::Consecutive,
            },
    {
        match self {
            RepeatMode::Consecutive => None,
            _ => Some(self.icon()),
        }
    }
}

/// The songs that are played.
pub struct Queue {
    songs: Vec<String>,
    current: Option<usize>,
    repeat: RepeatMode,
    playing: Option<String>,
}

/// The content of a `Queue`: the paths of the songs, the place of the current one,
/// what happens when a song has ended, and the path of the song that is played,
/// which need not be one of the songs.
pub struct Deck {
    pub songs: Seq<Seq<char>>,
    pub current: Option<int>,
    pub repeat: RepeatMode,
    pub playing: Option<Seq<char>>,
}

impl View for Queue {
    type V = Deck;

    closed spec fn view(&self) -> Deck {
        Deck {
            songs: texts(self.songs@),
            current: match self.current {
                Some(i) => Some(i as int),
                None => None,
            },
            repeat: self.repeat,
            playing: opt_text(self.playing),
        }
    }
}

/// The first place of a path.
pub open spec fn place(songs: Seq<Seq<char>>, path: Seq<char>) -> Option<int>
    decreases songs.len(),
{
    if songs.len() == 0 {
        None
    } else {
        match place(songs.drop_last(), path) {
            Some(i) => Some(i),
            None => if songs.last() == path {
                Some(songs.len() - 1)
            } else {
                None
            },
        }
    }
}

/// The path at the current place, where there is one.
pub open spec fn current_path(deck: Deck) -> Option<Seq<char>> {
    match deck.current {
        Some(i) => if 0 <= i < deck.songs.len() {
            Some(deck.songs[i])
        } else {
            None
        },
        None => None,
    }
}

/// The place after the current one among `n` songs; the first one comes after the
/// last one, and is the place to begin with.
pub open spec fn place_after(current: Option<int>, n: int) -> int {
    match current {
        Some(i) => (i + 1) % n,
        None => 0,
    }
}

/// The place before the current one among `n` songs; the last one comes before
/// the first one, and is the place to begin with.
pub open spec fn place_before(current: Option<int>, n: int) -> int {
    match current {
        Some(i) => if i > 0 {
            i - 1
        } else {
            n - 1
        },
        None => n - 1,
    }
}

/// Going on and going back undo each other.
pub proof fn next_and_prev_undo(i: int, n: int)
    requires
        0 <= i < n,
    ensures
        place_before(Some(place_after(Some(i), n)), n) == i,
        place_after(Some(place_before(Some(i), n)), n) == i,
{
    if i + 1 == n {
        assert((i + 1) % n == 0) by (nonlinear_arith)
            requires
                i + 1 == n,
                n > 0,
        ;
    } else {
        assert((i + 1) % n == i + 1) by (nonlinear_arith)
            requires
                0 <= i + 1 < n,
        ;
    }
    if i == 0 {
        assert(n % n == 0) by (nonlinear_arith)
            requires
                n > 0,
        ;
    } else {
        assert(i % n == i) by (nonlinear_arith)
            requires
                0 <= i < n,
        ;
    }
}

/// The place after going on several times.
pub open spec fn place_later(current: Option<int>, n: int, times: nat) -> Option<int>
    decreases times,
{
    if times == 0 {
        current
    } else {
        Some(place_after(place_later(current, n, (times - 1) as nat), n))
    }
}

/// Going on, from the beginning, passes through the songs in their order, round
/// and round.
pub proof fn going_on_passes_all(n: int, times: nat)
    requires
        n > 0,
        times > 0,
    ensures
        place_later(None, n, times) == Some((times - 1) % n),
    decreases times,
{
    if times == 1 {
        assert(place_later(None, n, 0) == None::<int>);
        assert(0int % n == 0) by (nonlinear_arith)
            requires
                n > 0,
        ;
    } else {
        going_on_passes_all(n, (times - 1) as nat);
        let k = times - 2;
        assert((k % n + 1) % n == (k + 1) % n) by {
            vstd::arithmetic::div_mod::lemma_add_mod_noop(k, 1, n);
            if n > 1 {
                vstd::arithmetic::div_mod::lemma_small_mod(1, n as nat);
            }
            vstd::arithmetic::div_mod::lemma_add_mod_noop_right(k % n, 1, n);
        }
    }
}

/// The folder of a song.
pub open spec fn folder(path: Seq<char>) -> Seq<char> {
    or_empty(parent_path(path))
}

/// The folders of songs.
pub open spec fn folders_of(songs: Seq<Seq<char>>) -> Seq<Seq<char>> {
    songs.map_values(|s: Seq<char>| folder(s))
}

/// The first place of a folder from `from` on.
pub open spec fn seek(dirs: Seq<Seq<char>>, dir: Seq<char>, from: int) -> Option<int>
    decreases dirs.len() - from,
{
    if from >= dirs.len() {
        None
    } else if dirs[from] == dir {
        Some(from)
    } else {
        seek(dirs, dir, from + 1)
    }
}

/// The place after `i` with the same folder; behind the last one comes the first
/// one.
pub open spec fn next_alike(dirs: Seq<Seq<char>>, i: int) -> int {
    match seek(dirs, dirs[i], i + 1) {
        Some(j) => j,
        None => match seek(dirs, dirs[i], 0) {
            Some(j) => j,
            None => i,
        },
    }
}

/// The place after `i` with a song of the same folder; behind the last one of the
/// folder comes the first one.
pub open spec fn next_in_folder(songs: Seq<Seq<char>>, i: int) -> int {
    next_alike(folders_of(songs), i)
}

/// The places of a folder from `from` on.
pub open spec fn places_of(dirs: Seq<Seq<char>>, dir: Seq<char>, from: int) -> Seq<int>
    decreases dirs.len() - from,
{
    if from >= dirs.len() {
        Seq::empty()
    } else if dirs[from] == dir {
        seq![from] + places_of(dirs, dir, from + 1)
    } else {
        places_of(dirs, dir, from + 1)
    }
}

proof fn seek_finds_first(dirs: Seq<Seq<char>>, dir: Seq<char>, from: int)
    ensures
        match seek(dirs, dir, from) {
            Some(j) => places_of(dirs, dir, from).len() > 0 && places_of(dirs, dir, from)[0] == j,
            None => places_of(dirs, dir, from).len() == 0,
        },
    decreases dirs.len() - from,
{
    if from < dirs.len() && dirs[from] != dir {
        seek_finds_first(dirs, dir, from + 1);
    }
}

proof fn places_behind(dirs: Seq<Seq<char>>, dir: Seq<char>, from: int, k: int)
    requires
        0 <= k < places_of(dirs, dir, from).len(),
    ensures
        places_of(dirs, dir, places_of(dirs, dir, from)[k] + 1) == places_of(dirs, dir, from).skip(
            k + 1,
        ),
    decreases dirs.len() - from,
{
    if from < dirs.len() {
        let rest = places_of(dirs, dir, from + 1);
        if dirs[from] == dir {
            let all = seq![from] + rest;
            if k == 0 {
                assert(all.skip(1) =~= rest);
            } else {
                places_behind(dirs, dir, from + 1, k - 1);
                assert(all[k] == rest[k - 1]);
                assert(all.skip(k + 1) =~= rest.skip(k));
            }
        } else {
            places_behind(dirs, dir, from + 1, k);
        }
    }
}

/// Songs that follow each other stay in their folder and go round it: behind the
/// song at the `k`-th place of the folder comes the one at the place after it,
/// and behind the last one the first one.
pub proof fn songs_go_round_their_folder(songs: Seq<Seq<char>>, i: int, k: int)
    requires
        0 <= i < songs.len(),
        0 <= k < places_of(folders_of(songs), folder(songs[i]), 0).len(),
        places_of(folders_of(songs), folder(songs[i]), 0)[k] == i,
    ensures
        ({
            let places = places_of(folders_of(songs), folder(songs[i]), 0);
            next_in_folder(songs, i) == places[(k + 1) % (places.len() as int)]
        }),
{
    let dirs = folders_of(songs);
    let dir = dirs[i];
    let places = places_of(dirs, dir, 0);
    let n = places.len() as int;
    places_behind(dirs, dir, 0, k);
    seek_finds_first(dirs, dir, i + 1);
    seek_finds_first(dirs, dir, 0);
    if k + 1 < n {
        assert((k + 1) % n == k + 1) by (nonlinear_arith)
            requires
                0 <= k + 1 < n,
        ;
        assert(places.skip(k + 1)[0] == places[k + 1]);
    } else {
        assert((k + 1) % n == 0) by (nonlinear_arith)
            requires
                k + 1 == n,
                n > 0,
        ;
    }
}

/// Every place with a folder is among the places of the folder.
pub proof fn places_hold_all(dirs: Seq<Seq<char>>, from: int, i: int)
    requires
        0 <= from <= i < dirs.len(),
    ensures
        places_of(dirs, dirs[i], from).contains(i),
    decreases dirs.len() - from,
{
    let all = places_of(dirs, dirs[i], from);
    if from == i {
        assert(all[0] == i);
    } else {
        places_hold_all(dirs, from + 1, i);
        let rest = places_of(dirs, dirs[i], from + 1);
        let k = choose|k: int| 0 <= k < rest.len() && rest[k] == i;
        if dirs[from] == dirs[i] {
            assert(all[k + 1] == i);
        } else {
            assert(all[k] == i);
        }
    }
}

/// The song that follows a song lies in the same folder.
pub proof fn next_song_stays_in_folder(songs: Seq<Seq<char>>, i: int)
    requires
        0 <= i < songs.len(),
    ensures
        0 <= next_in_folder(songs, i) < songs.len(),
        folder(songs[next_in_folder(songs, i)]) == folder(songs[i]),
{
    let dirs = folders_of(songs);
    seek_stays(dirs, dirs[i], i + 1);
    seek_stays(dirs, dirs[i], 0);
}

proof fn seek_stays(dirs: Seq<Seq<char>>, dir: Seq<char>, from: int)
    requires
        from >= 0,
    ensures
        seek(dirs, dir, from) matches Some(j) ==> from <= j < dirs.len() && dirs[j] == dir,
    decreases dirs.len() - from,
{
    if from < dirs.len() && dirs[from] != dir {
        seek_stays(dirs, dir, from + 1);
    }
}

fn seek_from(dirs: &Vec<String>, dir: &str, from: usize) -> (r: Option<usize>)
    ensures
        match r {
            Some(j) => seek(texts(dirs@), dir@, from as int) == Some(j as int) && j < dirs.len(),
            None => seek(texts(dirs@), dir@, from as int) is None,
        },
{
    let mut j: usize = from;
    while j < dirs.len()
        invariant
            j >= from,
            seek(texts(dirs@), dir@, from as int) == seek(texts(dirs@), dir@, j as int),
        decreases dirs.len() - j,
    {
        assert(texts(dirs@)[j as int] == dirs@[j as int]@);
        if same(dirs[j].as_str(), dir) {
            return Some(j);
        }
        j = j + 1;
    }
    None
}

/// The place after `i` with the same folder, where `dirs` are the folders of songs;
/// behind the last one comes the first one.
pub fn next_with_folder(dirs: &Vec<String>, i: usize) -> (r: usize)
    requires
        i < dirs.len(),
    ensures
        r == next_alike(texts(dirs@), i as int),
        r < dirs.len(),
{
    assert(texts(dirs@)[i as int] == dirs@[i as int]@);
    let dir = dirs[i].as_str();
    match seek_from(dirs, dir, i + 1) {
        Some(j) => j,
        None => match seek_from(dirs, dir, 0) {
            Some(j) => j,
            None => i,
        },
    }
}

/// The queue after a song has ended, and the path that is played then.
pub open spec fn after_song(deck: Deck) -> (Deck, Option<Seq<char>>) {
    match deck.repeat {
        RepeatMode::Loop => (deck, current_path(deck)),
        RepeatMode::Once => (
            Deck { repeat: RepeatMode::Consecutive, ..deck },
            current_path(deck),
        ),
        RepeatMode::Consecutive => if current_path(deck) is Some {
            let j = next_in_folder(deck.songs, deck.current->0);
            (Deck { current: Some(j), ..deck }, Some(deck.songs[j]))
        } else {
            (deck, None)
        },
    }
}

/// A song that is to be repeated once is played again and then followed by the
/// next one of its folder.
pub proof fn once_repeats_one_time(deck: Deck)
    requires
        deck.repeat == RepeatMode::Once,
        current_path(deck) is Some,
    ensures
        after_song(deck).1 == current_path(deck),
        after_song(after_song(deck).0).1 == Some(
            deck.songs[next_in_folder(deck.songs, deck.current->0)],
        ),
        after_song(after_song(deck).0).0.repeat == RepeatMode::Consecutive,
{
}

/// A song that is to be repeated is played again however often it ends.
pub proof fn loop_repeats_for_ever(deck: Deck)
    requires
        deck.repeat == RepeatMode::Loop,
    ensures
        after_song(deck) == (deck, current_path(deck)),
{
}

impl Queue {
    /// A queue without songs.
    pub fn new() -> (r: Queue)
        ensures
            r@ == (Deck {
                songs: Seq::empty(),
                current: None,
                repeat: RepeatMode::Consecutive,
                playing: None,
            }),
    {
        let r = Queue {
            songs: Vec::new(),
            current: None,
            repeat: RepeatMode::Consecutive,
            playing: None,
        };
        assert(r@.songs =~= Seq::empty());
        r
    }

    /// How many songs there are.
    pub fn len(&self) -> (n: usize)
        ensures
            n == self@.songs.len(),
    {
        self.songs.len()
    }

    /// What happens when a song has ended.
    pub fn repeat_mode(&self) -> (r: RepeatMode)
        ensures
            r == self@.repeat,
    {
        self.repeat
    }

    /// The path of the song that is played.
    pub fn playing_path(&self) -> (r: Option<String>)
        ensures
            opt_text(r) == self@.playing,
    {
        match &self.playing {
            Some(p) => Some(p.clone()),
            None => None,
        }
    }

    /// The path at the current place.
    pub fn current_song(&self) -> (r: Option<String>)
        ensures
            opt_text(r) == current_path(self@),
    {
        match self.current {
            Some(i) => if i < self.songs.len() {
                Some(self.songs[i].clone())
            } else {
                None
            },
            None => None,
        }
    }

    /// Whether a song is the one at the current place.
    pub fn is_now_playing(&self, path: &str) -> (r: bool)
        ensures
            r == (current_path(self@) == Some(path@)),
    {
        match self.current {
            Some(i) => i < self.songs.len() && same(self.songs[i].as_str(), path),
            None => false,
        }
    }

    /// Sets the songs. The current place stays.
    pub fn set_playlist(&mut self, playlist: Vec<String>)
        ensures
            final(self)@ == (Deck { songs: texts(playlist@), ..old(self)@ }),
    {
        self.songs = playlist;
    }

    /// Takes out all songs.
    pub fn clear(&mut self)
        ensures
            final(self)@ == (Deck { songs: Seq::empty(), current: None, ..old(self)@ }),
    {
        self.songs = Vec::new();
        self.current = None;
        assert(self@.songs =~= Seq::empty());
    }

    /// Notes that a song is played. Where it is one of the songs, its first place
    /// becomes the current one. The result is the path that was played before.
    pub fn start(&mut self, path: &str) -> (before: Option<String>)
        ensures
            opt_text(before) == old(self)@.playing,
            final(self)@ == (Deck {
                playing: Some(path@),
                current: match place(old(self)@.songs, path@) {
                    Some(i) => Some(i),
                    None => old(self)@.current,
                },
                ..old(self)@
            }),
    {
        let before = self.playing_path();
        self.playing = Some(path.to_owned());
        let ghost all = texts(self.songs@);
        let n = self.songs.len();
        for i in 0..n
            invariant
                n == self.songs@.len(),
                all == texts(self.songs@),
                self@ == (Deck { playing: Some(path@), ..old(self)@ }),
                opt_text(before) == old(self)@.playing,
                place(all.take(i as int), path@) is None,
        {
            assert(all.take(i + 1).drop_last() == all.take(i as int));
            if same(self.songs[i].as_str(), path) {
                self.current = Some(i);
                proof {
                    place_in_front(all, path@, i + 1);
                }
                return before;
            }
        }
        assert(all.take(all.len() as int) == all);
        before
    }

    /// Goes on to the next song; the first one follows the last one. The result is
    /// the path to play.
    pub fn play_next(&mut self) -> (r: Option<String>)
        ensures
            if old(self)@.songs.len() == 0 {
                r is None && final(self)@ == old(self)@
            } else {
                let next = place_after(old(self)@.current, old(self)@.songs.len() as int);
                &&& final(self)@ == (Deck { current: Some(next), ..old(self)@ })
                &&& opt_text(r) == Some(old(self)@.songs[next])
            },
    {
        let n = self.songs.len();
        if n == 0 {
            return None;
        }
        let next: usize = match self.current {
            Some(i) => ((i as u128 + 1) % (n as u128)) as usize,
            None => 0,
        };
        self.current = Some(next);
        Some(self.songs[next].clone())
    }

    /// Whether there is a song before the current place.
    pub fn can_go_back(&self) -> (r: bool)
        ensures
            r == (self@.songs.len() > 0 && place_before(
                self@.current,
                self@.songs.len() as int,
            ) < self@.songs.len()),
    {
        let n = self.songs.len();
        n > 0 && match self.current {
            Some(i) => i == 0 || i - 1 < n,
            None => true,
        }
    }

    /// Goes back to the song before; the last one comes before the first one. The
    /// result is the path to play.
    pub fn play_prev(&mut self) -> (r: Option<String>)
        requires
            old(self)@.songs.len() == 0 || place_before(
                old(self)@.current,
                old(self)@.songs.len() as int,
            ) < old(self)@.songs.len(),
        ensures
            if old(self)@.songs.len() == 0 {
                r is None && final(self)@ == old(self)@
            } else {
                let prev = place_before(old(self)@.current, old(self)@.songs.len() as int);
                &&& final(self)@ == (Deck { current: Some(prev), ..old(self)@ })
                &&& opt_text(r) == Some(old(self)@.songs[prev])
            },
    {
        let n = self.songs.len();
        if n == 0 {
            return None;
        }
        let prev: usize = match self.current {
            Some(i) => if i > 0 {
                i - 1
            } else {
                n - 1
            },
            None => n - 1,
        };
        self.current = Some(prev);
        Some(self.songs[prev].clone())
    }

    /// Switches to the next mode.
    pub fn on_cycle_repeat(&mut self) -> (r: RepeatMode)
        ensures
            r == mode_after(old(self)@.repeat),
            final(self)@ == (Deck { repeat: r, ..old(self)@ }),
    {
        let mode = match self.repeat {
            RepeatMode::Consecutive => RepeatMode::Once,
            RepeatMode::Once => RepeatMode::Loop,
            RepeatMode::Loop => RepeatMode::Consecutive,
        };
        self.repeat = mode;
        mode
    }

    fn folders(&self) -> (r: Vec<String>)
        ensures
            texts(r@) == folders_of(self@.songs),
    {
        let ghost all = folders_of(self@.songs);
        let mut r: Vec<String> = Vec::new();
        for i in 0..self.songs.len()
            invariant
                all == folders_of(self@.songs),
                texts(r@) == all.take(i as int),
        {
            let ghost before = r@;
            let dir = folder_of(self.songs[i].as_str());
            r.push(dir);
            assert(texts(r@) =~= texts(before).push(dir@));
            assert(all[i as int] == folder(self.songs@[i as int]@));
            assert(all.take(i + 1) =~= all.take(i as int).push(all[i as int]));
        }
        assert(all.take(all.len() as int) =~= all);
        r
    }

    /// What is played when a song has ended: the song again, or the next one of its
    /// folder.
    pub fn on_song_finished(&mut self) -> (r: Option<String>)
        ensures
            final(self)@ == after_song(old(self)@).0,
            opt_text(r) == after_song(old(self)@).1,
    {
        match self.repeat {
            RepeatMode::Loop => self.current_song(),
            RepeatMode::Once => {
                self.repeat = RepeatMode::Consecutive;
                self.current_song()
            },
            RepeatMode::Consecutive => {
                let i = match self.current {
                    Some(i) => i,
                    None => {
                        return None;
                    },
                };
                if i >= self.songs.len() {
                    return None;
                }
                let dirs = self.folders();
                assert(texts(dirs@).len() == dirs@.len());
                let next = next_with_folder(&dirs, i);
                self.current = Some(next);
                Some(self.songs[next].clone())
            },
        }
    }
}

/// A path that is found in front is found at the same place in the whole.
pub proof fn place_in_front(songs: Seq<Seq<char>>, path: Seq<char>, n: int)
    requires
        0 <= n <= songs.len(),
        place(songs.take(n), path) is Some,
    ensures
        place(songs, path) == place(songs.take(n), path),
    decreases songs.len() - n,
{
    if n < songs.len() {
        assert(songs.take(n + 1).drop_last() == songs.take(n));
        place_in_front(songs, path, n + 1);
    } else {
        assert(songs.take(n) == songs);
    }
}

} // verus!
