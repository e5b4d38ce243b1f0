//! The state of the window: what is shown, what is played and what is known of it.
use crate::file_item::{has_folders_only, items_of, FileItem};
use crate::formats::{audio_extension, is_audio_ext};
use crate::labels::{numbered, with_number};
use crate::navigation::{
    at_no_folder, at_root, at_song, opened, Load, Navigation, Shown, Title, Trail,
};
use crate::panel::{toggled, Panel};
use crate::paths::{file_extension, file_stem, path_extension, path_stem};
use crate::queue::{current_path, place, Deck, Queue, RepeatMode};
use crate::rows::{layout_of, populate_list, Layout};
use crate::tags::{Known, SongTags};
use crate::text::{lowercase, opt_text, texts};
use vstd::prelude::*;

verus! {

/// What is said while folders are scanned, to be translated.
pub const SCANNING: &'static str = "Scanning\u{2026}";

/// What is said when a song was found, to be translated.
pub const FOUND_ONE: &'static str = "Found {n} song\u{2026}";

/// What is said when songs were found, to be translated.
pub const FOUND_MANY: &'static str = "Found {n} songs\u{2026}";

/// What is said while covers are looked for, to be translated.
pub const READING_COVERS: &'static str = "Reading covers\u{2026}";

/// The state of the window.
pub struct FolderplayWindow {
    pub queue: Queue,
    pub nav: Navigation,
    pub panel: Panel,
    pub tags: SongTags,
    /// Whether the song that is played was opened from outside.
    pub external: bool,
}

/// The content of a `FolderplayWindow`.
pub struct Scene {
    pub deck: Deck,
    pub trail: Trail,
    pub panel: Panel,
    pub known: Known,
    pub external: bool,
}

impl View for FolderplayWindow {
    type V = Scene;

    open spec fn view(&self) -> Scene {
        Scene {
            deck: self.queue@,
            trail: self.nav@,
            panel: self.panel,
            known: self.tags@,
            external: self.external,
        }
    }
}

/// The queue without songs.
pub open spec fn emptied(deck: Deck) -> Deck {
    Deck { songs: Seq::empty(), current: None, ..deck }
}

/// What is known of a song that begins: its path.
pub open spec fn known_path(path: Seq<char>) -> Known {
    Known {
        path: Some(path),
        title: Seq::empty(),
        artist: Seq::empty(),
        album: Seq::empty(),
        year: Seq::empty(),
        audio: None,
    }
}

/// The state after a song began.
pub open spec fn started(scene: Scene, path: Seq<char>) -> Scene {
    Scene {
        deck: Deck {
            playing: Some(path),
            current: match place(scene.deck.songs, path) {
                Some(i) => Some(i),
                None => scene.deck.current,
            },
            ..scene.deck
        },
        known: known_path(path),
        ..scene
    }
}

/// Whether a file can be played: its extension is one of audio files.
pub open spec fn playable(path: Seq<char>) -> bool {
    match path_extension(path) {
        Some(ext) => audio_extension(lowercase(ext)),
        None => false,
    }
}

/// What follows when an entry of the list was chosen.
pub enum Choice {
    /// Something is to be loaded.
    Open(Load),
    /// A song is to be played.
    Play(String),
}

/// A song that begins: the path of the one before, and the title to show.
pub struct Started {
    pub before: Option<String>,
    pub title: String,
}

/// What is said while folders are scanned.
pub enum ScanLabel {
    /// No song was found yet.
    Scanning,
    /// So many songs were found.
    Found(u32),
}

impl FolderplayWindow {
    /// The window when it is opened.
    pub fn new() -> (r: FolderplayWindow)
        ensures
            r@.deck == (Deck {
                songs: Seq::empty(),
                current: None,
                repeat: RepeatMode::Consecutive,
                playing: None,
            }),
            r@.trail == (Trail {
                stack: Seq::empty(),
                current: None,
                root: None,
                title: Title::Folders,
                back_visible: false,
                pending: None,
            }),
            r@.panel == (Panel { browse_visible: true, manual_closed: false }),
            r@.known == (Known { path: None, ..known_path(Seq::empty()) }),
            !r@.external,
    {
        FolderplayWindow {
            queue: Queue::new(),
            nav: Navigation::new(),
            panel: Panel::new(),
            tags: SongTags::new(),
            external: false,
        }
    }

    /// A file is opened from outside. The result is whether it is to be played:
    /// where it is a file on disk and can be played.
    pub fn open_file(&mut self, path: &str, is_file: bool) -> (play: bool)
        ensures
            play == (is_file && playable(path@)),
            final(self)@ == (if play {
                Scene { external: true, ..old(self)@ }
            } else {
                old(self)@
            }),
    {
        if !is_file {
            return false;
        }
        match file_extension(path) {
            Some(ext) => if is_audio_ext(ext.as_str()) {
                self.external = true;
                true
            } else {
                false
            },
            None => false,
        }
    }

    /// An entry of the list was chosen: a folder is opened, a song is played.
    pub fn on_list_activated(&mut self, path: &str, name: &str, is_folder: bool) -> (r: Choice)
        ensures
            if is_folder {
                &&& final(self)@ == (Scene {
                    trail: opened(old(self)@.trail, path@, name@),
                    ..old(self)@
                })
                &&& r matches Choice::Open(load)
                &&& load@ == Shown::Folder(path@)
            } else {
                &&& final(self)@ == (Scene { external: false, ..old(self)@ })
                &&& r matches Choice::Play(p)
                &&& p@ == path@
            },
    {
        if is_folder {
            Choice::Open(self.nav.navigate_into(path, name))
        } else {
            self.external = false;
            Choice::Play(path.to_owned())
        }
    }

    /// A song begins.
    pub fn play_file(&mut self, path: &str) -> (r: Started)
        ensures
            final(self)@ == started(old(self)@, path@),
            opt_text(r.before) == old(self)@.deck.playing,
            r.title@ == path_stem(path@),
    {
        let before = self.queue.start(path);
        self.tags = SongTags::of_path(path);
        Started { before, title: file_stem(path) }
    }

    /// The library is emptied.
    pub fn reset_library(&mut self)
        ensures
            final(self)@ == (Scene {
                deck: emptied(old(self)@.deck),
                trail: at_no_folder(old(self)@.trail),
                ..old(self)@
            }),
    {
        self.nav.leave_folder();
        self.queue.clear();
    }

    /// The folders of the library are loaded, and the queue is emptied until they
    /// were scanned.
    pub fn load_all_folders(&mut self, folders: &Vec<String>) -> (r: Load)
        ensures
            final(self)@ == (Scene {
                deck: emptied(old(self)@.deck),
                trail: at_root(old(self)@.trail, texts(folders@)).0,
                ..old(self)@
            }),
            r@ == at_root(old(self)@.trail, texts(folders@)).1,
    {
        self.queue.clear();
        self.nav.return_to_root(folders)
    }

    /// All folders are about to be scanned, and how far that has come is shown.
    pub fn start_scan_all_folders(&mut self)
        ensures
            final(self)@ == (Scene {
                deck: emptied(old(self)@.deck),
                trail: at_no_folder(old(self)@.trail),
                ..old(self)@
            }),
    {
        self.reset_library();
    }

    /// All folders were scanned: they are loaded.
    pub fn finish_scan_and_reload(&mut self, folders: &Vec<String>) -> (r: Load)
        ensures
            final(self)@ == (Scene {
                deck: emptied(old(self)@.deck),
                trail: at_root(old(self)@.trail, texts(folders@)).0,
                ..old(self)@
            }),
            r@ == at_root(old(self)@.trail, texts(folders@)).1,
    {
        self.load_all_folders(folders)
    }

    /// What is said while folders are scanned.
    pub fn update_scan_progress(count: u32) -> (r: ScanLabel)
        ensures
            match r {
                ScanLabel::Scanning => count == 0,
                ScanLabel::Found(n) => n == count && count > 0,
            },
    {
        if count == 0 {
            ScanLabel::Scanning
        } else {
            ScanLabel::Found(count)
        }
    }

    /// What is said while covers are looked for, to be translated.
    pub fn update_scan_covers_label() -> (r: &'static str)
        ensures
            r@ == READING_COVERS@,
    {
        READING_COVERS
    }

    /// Fills the queue. The result is the text with the number of songs, by its
    /// template; without songs it is empty.
    pub fn set_playlist(&mut self, playlist: Vec<String>, template: &str) -> (r: String)
        ensures
            final(self)@ == (Scene {
                deck: Deck { songs: texts(playlist@), ..old(self)@.deck },
                ..old(self)@
            }),
            r@ == if playlist@.len() == 0 {
                Seq::empty()
            } else {
                numbered(template@, playlist@.len())
            },
    {
        let n = playlist.len();
        self.queue.set_playlist(playlist);
        if n > 0 {
            with_number(template, n as u64)
        } else {
            String::new()
        }
    }

    /// How entries are shown. Where they are rows, they begin with the song to scroll
    /// to, which is then forgotten.
    pub fn populate_list<T>(&mut self, items: &Vec<FileItem<T>>, grid_wanted: bool) -> (r: Layout)
        ensures
            if items@.len() == 0 {
                r == Layout::Empty && final(self)@ == old(self)@
            } else {
                match layout_of(items_of(items@), grid_wanted, old(self)@.trail.pending) {
                    Some(i) => {
                        &&& r matches Layout::List(n)
                        &&& n == i
                        &&& final(self)@ == (Scene {
                            trail: Trail { pending: None, ..old(self)@.trail },
                            ..old(self)@
                        })
                    },
                    None => r == Layout::Grid && final(self)@ == old(self)@,
                }
            },
    {
        if items.len() == 0 {
            return Layout::Empty;
        }
        if grid_wanted && has_folders_only(items) {
            return Layout::Grid;
        }
        let pending = self.nav.take_pending();
        populate_list(items, grid_wanted, &pending)
    }

    /// Goes to the folder of the current song, where there is one. The panel of the
    /// folders is shown. The result is whether the panel was hidden, and what is to
    /// be loaded.
    pub fn on_locate_playing(&mut self, folders: &Vec<String>) -> (r: Option<(bool, Load)>)
        ensures
            match current_path(old(self)@.deck) {
                Some(song) => {
                    let (trail, shown) = at_song(old(self)@.trail, song, texts(folders@));
                    &&& final(self)@ == (Scene {
                        trail,
                        panel: if old(self)@.panel.browse_visible {
                            old(self)@.panel
                        } else {
                            toggled(old(self)@.panel, false)
                        },
                        ..old(self)@
                    })
                    &&& r matches Some((hidden, load))
                    &&& hidden == !old(self)@.panel.browse_visible
                    &&& load@ == shown
                },
                None => r is None && final(self)@ == old(self)@,
            },
    {
        let song = match self.queue.current_song() {
            Some(song) => song,
            None => {
                return None;
            },
        };
        let hidden = !self.panel.browse_visible;
        if hidden {
            let _ = self.panel.on_toggle_browse(false);
        }
        Some((hidden, self.nav.on_locate_playing(song.as_str(), folders)))
    }
}

/// A song that is chosen from the queue is found again where it is played: after it
/// began, it is the current one.
pub proof fn chosen_song_is_current(scene: Scene, i: int)
    requires
        0 <= i < scene.deck.songs.len(),
    ensures
        current_path(started(scene, scene.deck.songs[i]).deck) == Some(scene.deck.songs[i]),
{
    place_finds(scene.deck.songs, scene.deck.songs[i], i);
}

proof fn place_finds(songs: Seq<Seq<char>>, path: Seq<char>, i: int)
    requires
        0 <= i < songs.len(),
        songs[i] == path,
    ensures
        place(songs, path) matches Some(j) && 0 <= j <= i && songs[j] == path,
    decreases songs.len(),
{
    let init = songs.drop_last();
    if i < init.len() {
        place_finds(init, path, i);
    } else {
        place_is_there(init, path);
    }
}

proof fn place_is_there(songs: Seq<Seq<char>>, path: Seq<char>)
    ensures
        place(songs, path) matches Some(j) ==> 0 <= j < songs.len() && songs[j] == path,
    decreases songs.len(),
{
    if songs.len() > 0 {
        place_is_there(songs.drop_last(), path);
    }
}

} // verus!
