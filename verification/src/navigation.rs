//! The way through the folders: which folder is shown, and how one gets back.
use crate::paths::{base_name, file_name, folder_of, name_of, or_empty, parent_path};
use crate::text::{copied, opt_text, same, texts};
use vstd::prelude::*;

verus! {

/// What stands above the list.
pub enum Heading {
    /// All folders of the library.
    Folders,
    /// The only folder of the library.
    Folder,
    /// The name of a folder.
    Named(String),
    /// What is searched for.
    Search(String),
}

/// The content of a `Heading`.
pub enum Title {
    Folders,
    Folder,
    Named(Seq<char>),
    Search(Seq<char>),
}

impl View for Heading {
    type V = Title;

    open spec fn view(&self) -> Title {
        match *self {
            Heading::Folders => Title::Folders,
            Heading::Folder => Title::Folder,
            Heading::Named(s) => Title::Named(s@),
            Heading::Search(s) => Title::Search(s@),
        }
    }
}

impl Heading {
    /// A copy of the heading.
    pub fn copy(&self) -> (r: Heading)
        ensures
            r@ == self@,
    {
        match self {
            Heading::Folders => Heading::Folders,
            Heading::Folder => Heading::Folder,
            Heading::Named(s) => Heading::Named(s.clone()),
            Heading::Search(s) => Heading::Search(s.clone()),
        }
    }
}

/// A place to go back to.
pub struct Level {
    pub folder: Option<String>,
    pub heading: Heading,
}

/// The content of a `Level`.
pub struct Step {
    pub folder: Option<Seq<char>>,
    pub title: Title,
}

impl View for Level {
    type V = Step;

    open spec fn view(&self) -> Step {
        Step { folder: opt_text(self.folder), title: self.heading@ }
    }
}

/// What is to be loaded.
pub enum Load {
    /// Nothing.
    Nothing,
    /// What a folder holds.
    Folder(String),
    /// The folders of the library.
    Folders(Vec<String>),
    /// Nothing is left in the library.
    Reset,
    /// Folders are to be chosen first.
    Choose,
}

/// The content of a `Load`.
pub enum Shown {
    Nothing,
    Folder(Seq<char>),
    Folders(Seq<Seq<char>>),
    Reset,
    Choose,
}

impl View for Load {
    type V = Shown;

    open spec fn view(&self) -> Shown {
        match *self {
            Load::Nothing => Shown::Nothing,
            Load::Folder(s) => Shown::Folder(s@),
            Load::Folders(v) => Shown::Folders(texts(v@)),
            Load::Reset => Shown::Reset,
            Load::Choose => Shown::Choose,
        }
    }
}

/// Where one is among the folders.
pub struct Navigation {
    stack: Vec<Level>,
    current: Option<String>,
    root: Option<String>,
    heading: Heading,
    back_visible: bool,
    pending: Option<String>,
}

/// The content of a `Navigation`: the places to go back to, the last one first,
/// the folder that is shown, the only folder of the library, the heading, whether
/// the button to go back is shown, and the song to scroll to.
pub struct Trail {
    pub stack: Seq<Step>,
    pub current: Option<Seq<char>>,
    pub root: Option<Seq<char>>,
    pub title: Title,
    pub back_visible: bool,
    pub pending: Option<Seq<char>>,
}

impl View for Navigation {
    type V = Trail;

    closed spec fn view(&self) -> Trail {
        Trail {
            stack: self.stack@.map_values(|l: Level| l@),
            current: opt_text(self.current),
            root: opt_text(self.root),
            title: self.heading@,
            back_visible: self.back_visible,
            pending: opt_text(self.pending),
        }
    }
}

/// The trail after a folder was opened.
pub open spec fn opened(trail: Trail, path: Seq<char>, name: Seq<char>) -> Trail {
    Trail {
        stack: trail.stack.push(Step { folder: trail.current, title: trail.title }),
        current: Some(path),
        title: Title::Named(name),
        back_visible: true,
        ..trail
    }
}

/// The trail after going back, and what is shown then. Without a place to go back
/// to, the folders of the library are shown, where there are several.
pub open spec fn gone_back(trail: Trail, folders: Seq<Seq<char>>) -> (Trail, Shown) {
    if trail.stack.len() > 0 {
        let rest = trail.stack.drop_last();
        let step = trail.stack.last();
        match step.folder {
            Some(p) => (
                Trail {
                    stack: rest,
                    current: Some(p),
                    title: step.title,
                    back_visible: rest.len() > 0,
                    ..trail
                },
                Shown::Folder(p),
            ),
            None => (
                Trail {
                    stack: rest,
                    current: None,
                    title: step.title,
                    back_visible: false,
                    ..trail
                },
                Shown::Folders(folders),
            ),
        }
    } else if folders.len() > 1 {
        (
            Trail { current: None, title: Title::Folders, back_visible: false, ..trail },
            Shown::Folders(folders),
        )
    } else {
        (trail, Shown::Nothing)
    }
}

/// The trail at the root of the library, and what is shown there.
pub open spec fn at_root(trail: Trail, folders: Seq<Seq<char>>) -> (Trail, Shown) {
    if folders.len() == 1 {
        (
            Trail {
                stack: Seq::empty(),
                current: Some(folders[0]),
                root: Some(folders[0]),
                title: Title::Folder,
                back_visible: false,
                ..trail
            },
            Shown::Folder(folders[0]),
        )
    } else {
        (
            at_no_folder(trail),
            if folders.len() == 0 {
                Shown::Reset
            } else {
                Shown::Folders(folders)
            },
        )
    }
}

/// The trail where no single folder is shown.
pub open spec fn at_no_folder(trail: Trail) -> Trail {
    Trail {
        stack: Seq::empty(),
        current: None,
        root: None,
        title: Title::Folders,
        back_visible: false,
        ..trail
    }
}

/// The trail after going home, and what is shown then. Without folders some are
/// to be chosen first.
pub open spec fn gone_home(trail: Trail, folders: Seq<Seq<char>>) -> (Trail, Shown) {
    if folders.len() == 0 {
        (trail, Shown::Choose)
    } else {
        at_root(trail, folders)
    }
}

/// What is shown when the folder that is shown is loaded again.
pub open spec fn shown_again(trail: Trail, folders: Seq<Seq<char>>) -> Shown {
    match trail.current {
        Some(f) => Shown::Folder(f),
        None => if folders.len() > 1 {
            Shown::Folders(folders)
        } else if folders.len() == 1 {
            Shown::Folder(folders[0])
        } else {
            Shown::Nothing
        },
    }
}

/// The trail at the folder `dir` of a song, and what is shown there; `name` is the
/// name of that folder, where it has one. From there one gets back to the root of
/// the library. Without folders nothing is shown, but the way back is forgotten.
pub open spec fn at_folder(
    trail: Trail,
    song: Seq<char>,
    dir: Seq<char>,
    name: Option<Seq<char>>,
    folders: Seq<Seq<char>>,
) -> (Trail, Shown) {
    if folders.len() == 0 {
        (Trail { stack: Seq::empty(), ..trail }, Shown::Nothing)
    } else if folders.len() > 1 {
        (
            Trail {
                stack: seq![Step { folder: None, title: Title::Folders }],
                current: Some(dir),
                title: Title::Named(or_empty(name)),
                back_visible: true,
                pending: Some(song),
                ..trail
            },
            Shown::Folder(dir),
        )
    } else if dir == folders[0] {
        (
            Trail {
                stack: Seq::empty(),
                current: Some(dir),
                title: Title::Named(or_empty(name)),
                back_visible: false,
                pending: Some(song),
                ..trail
            },
            Shown::Folder(dir),
        )
    } else {
        (
            Trail {
                stack: seq![Step { folder: Some(folders[0]), title: Title::Folder }],
                current: Some(dir),
                title: match name {
                    Some(n) => Title::Named(n),
                    None => trail.title,
                },
                back_visible: true,
                pending: Some(song),
                ..trail
            },
            Shown::Folder(dir),
        )
    }
}

/// The trail at the folder of a song, and what is shown there.
pub open spec fn at_song(trail: Trail, song: Seq<char>, folders: Seq<Seq<char>>) -> (
    Trail,
    Shown,
) {
    let dir = or_empty(parent_path(song));
    at_folder(trail, song, dir, file_name(dir), folders)
}

/// The heading of the folder that is shown when nothing is searched for.
pub open spec fn plain_title(trail: Trail) -> Title {
    match trail.current {
        Some(f) => Title::Named(or_empty(file_name(f))),
        None => if trail.root is Some {
            Title::Folder
        } else {
            Title::Folders
        },
    }
}

/// The parent that is kept of a folder that is scanned: the only folder of the
/// library, unless it is that folder.
pub open spec fn kept_parent(trail: Trail, path: Seq<char>) -> Option<Seq<char>> {
    if trail.root == Some(path) {
        None
    } else {
        trail.root
    }
}

/// Whether the button to go back is shown only where there is a place to go back
/// to.
pub open spec fn sound(trail: Trail) -> bool {
    trail.back_visible ==> trail.stack.len() > 0
}

/// Going back from a folder leads to where it was opened.
pub proof fn going_back_undoes_opening(
    trail: Trail,
    path: Seq<char>,
    name: Seq<char>,
    folders: Seq<Seq<char>>,
)
    ensures
        ({
            let (after, shown) = gone_back(opened(trail, path, name), folders);
            &&& after == (Trail { back_visible: after.back_visible, ..trail })
            &&& shown == match trail.current {
                Some(p) => Shown::Folder(p),
                None => Shown::Folders(folders),
            }
        }),
{
    assert(opened(trail, path, name).stack.drop_last() =~= trail.stack);
}

/// The button to go back is never shown without a place to go back to. Only where
/// the library has no folders and the button is shown, going to the folder of a
/// song leaves it there.
pub proof fn back_button_is_sound(
    trail: Trail,
    path: Seq<char>,
    name: Seq<char>,
    folders: Seq<Seq<char>>,
)
    requires
        sound(trail),
    ensures
        sound(opened(trail, path, name)),
        sound(gone_back(trail, folders).0),
        sound(gone_home(trail, folders).0),
        sound(at_root(trail, folders).0),
        sound(at_no_folder(trail)),
        folders.len() > 0 || !trail.back_visible ==> sound(at_song(trail, path, folders).0),
{
}

/// The way home leads to the same place from anywhere.
pub proof fn home_is_one_place(a: Trail, b: Trail, folders: Seq<Seq<char>>)
    requires
        folders.len() > 0,
        a.pending == b.pending,
    ensures
        gone_home(a, folders) == gone_home(b, folders),
{
}

fn no_steps() -> (r: Vec<Level>)
    ensures
        r@.map_values(|l: Level| l@) == Seq::<Step>::empty(),
{
    let r: Vec<Level> = Vec::new();
    assert(r@.map_values(|l: Level| l@) =~= Seq::<Step>::empty());
    r
}

fn one_step(folder: Option<String>, heading: Heading) -> (r: Vec<Level>)
    ensures
        r@.map_values(|l: Level| l@) == seq![Step { folder: opt_text(folder), title: heading@ }],
{
    let mut r: Vec<Level> = Vec::new();
    let level = Level { folder, heading };
    r.push(level);
    assert(r@.map_values(|l: Level| l@) =~= seq![level@]);
    r
}

impl Navigation {
    /// The start, where no folder is shown.
    pub fn new() -> (r: Navigation)
        ensures
            r@ == (Trail {
                stack: Seq::empty(),
                current: None,
                root: None,
                title: Title::Folders,
                back_visible: false,
                pending: None,
            }),
    {
        Navigation {
            stack: no_steps(),
            current: None,
            root: None,
            heading: Heading::Folders,
            back_visible: false,
            pending: None,
        }
    }

    /// The folder that is shown.
    pub fn current_folder(&self) -> (r: Option<String>)
        ensures
            opt_text(r) == self@.current,
    {
        match &self.current {
            Some(p) => Some(p.clone()),
            None => None,
        }
    }

    /// The heading.
    pub fn heading(&self) -> (r: Heading)
        ensures
            r@ == self@.title,
    {
        self.heading.copy()
    }

    /// Sets the heading to what is searched for.
    pub fn set_search_heading(&mut self, query: &str)
        ensures
            final(self)@ == (Trail { title: Title::Search(query@), ..old(self)@ }),
    {
        self.heading = Heading::Search(query.to_owned());
    }

    /// Sets the heading of the folder that is shown, when nothing is searched for.
    pub fn set_plain_heading(&mut self)
        ensures
            final(self)@ == (Trail { title: plain_title(old(self)@), ..old(self)@ }),
    {
        self.heading = match &self.current {
            Some(f) => Heading::Named(base_name(f.as_str())),
            None => if self.root.is_some() {
                Heading::Folder
            } else {
                Heading::Folders
            },
        };
    }

    /// Whether the button to go back is shown.
    pub fn back_visible(&self) -> (r: bool)
        ensures
            r == self@.back_visible,
    {
        self.back_visible
    }

    /// Whether there is a place to go back to.
    pub fn has_trail(&self) -> (r: bool)
        ensures
            r == (self@.stack.len() > 0),
    {
        self.stack.len() > 0
    }

    /// The song to scroll to, which is then forgotten.
    pub fn take_pending(&mut self) -> (r: Option<String>)
        ensures
            opt_text(r) == old(self)@.pending,
            final(self)@ == (Trail { pending: None, ..old(self)@ }),
    {
        let r = match &self.pending {
            Some(p) => Some(p.clone()),
            None => None,
        };
        self.pending = None;
        r
    }

    /// The parent that is kept of a folder that is scanned.
    pub fn scan_parent(&self, path: &str) -> (r: Option<String>)
        ensures
            opt_text(r) == kept_parent(self@, path@),
    {
        match &self.root {
            Some(root) => if same(root.as_str(), path) {
                None
            } else {
                Some(root.clone())
            },
            None => None,
        }
    }

    /// Opens a folder.
    pub fn navigate_into(&mut self, folder_path: &str, folder_name: &str) -> (r: Load)
        ensures
            final(self)@ == opened(old(self)@, folder_path@, folder_name@),
            r@ == Shown::Folder(folder_path@),
    {
        let ghost before = self@;
        let level = Level { folder: self.current_folder(), heading: self.heading.copy() };
        let ghost step = level@;
        self.stack.push(level);
        assert(self@.stack =~= before.stack.push(step));
        self.current = Some(folder_path.to_owned());
        self.heading = Heading::Named(folder_name.to_owned());
        self.back_visible = true;
        Load::Folder(folder_path.to_owned())
    }

    /// Goes back. `folders` are the folders of the library.
    pub fn navigate_back(&mut self, folders: &Vec<String>) -> (r: Load)
        ensures
            (final(self)@, r@) == gone_back(old(self)@, texts(folders@)),
    {
        let ghost before = self@;
        match self.stack.pop() {
            Some(level) => {
                assert(before.stack.last() == level@);
                assert(self@.stack =~= before.stack.drop_last());
                self.heading = level.heading;
                match level.folder {
                    Some(p) => {
                        self.current = Some(p.clone());
                        self.back_visible = self.stack.len() > 0;
                        Load::Folder(p)
                    },
                    None => {
                        self.current = None;
                        self.back_visible = false;
                        Load::Folders(copied(folders))
                    },
                }
            },
            None => {
                if folders.len() > 1 {
                    self.current = None;
                    self.heading = Heading::Folders;
                    self.back_visible = false;
                    Load::Folders(copied(folders))
                } else {
                    Load::Nothing
                }
            },
        }
    }

    /// Goes where no single folder is shown.
    pub fn leave_folder(&mut self)
        ensures
            final(self)@ == at_no_folder(old(self)@),
    {
        self.stack = no_steps();
        self.current = None;
        self.root = None;
        self.heading = Heading::Folders;
        self.back_visible = false;
    }

    /// Goes to the root of the library.
    pub fn return_to_root(&mut self, folders: &Vec<String>) -> (r: Load)
        ensures
            (final(self)@, r@) == at_root(old(self)@, texts(folders@)),
    {
        if folders.len() == 1 {
            assert(texts(folders@)[0] == folders@[0]@);
            let path = folders[0].clone();
            self.stack = no_steps();
            self.current = Some(path.clone());
            self.root = Some(path.clone());
            self.heading = Heading::Folder;
            self.back_visible = false;
            return Load::Folder(path);
        }
        self.leave_folder();
        if folders.len() == 0 {
            Load::Reset
        } else {
            Load::Folders(copied(folders))
        }
    }

    /// Goes home to the root of the library.
    pub fn navigate_home(&mut self, folders: &Vec<String>) -> (r: Load)
        ensures
            (final(self)@, r@) == gone_home(old(self)@, texts(folders@)),
    {
        if folders.len() == 0 {
            return Load::Choose;
        }
        self.return_to_root(folders)
    }

    /// What is to be loaded to show the same again.
    pub fn reload_current_view(&self, folders: &Vec<String>) -> (r: Load)
        ensures
            r@ == shown_again(self@, texts(folders@)),
    {
        match &self.current {
            Some(f) => Load::Folder(f.clone()),
            None => if folders.len() > 1 {
                Load::Folders(copied(folders))
            } else if folders.len() == 1 {
                assert(texts(folders@)[0] == folders@[0]@);
                Load::Folder(folders[0].clone())
            } else {
                Load::Nothing
            },
        }
    }

    /// Goes to the folder `dir` of a song, which has the name `name` or none.
    pub fn go_to_folder(
        &mut self,
        song: &str,
        dir: String,
        name: Option<String>,
        folders: &Vec<String>,
    ) -> (r: Load)
        ensures
            (final(self)@, r@) == at_folder(
                old(self)@,
                song@,
                dir@,
                opt_text(name),
                texts(folders@),
            ),
    {
        self.stack = no_steps();
        if folders.len() == 0 {
            return Load::Nothing;
        }
        assert(texts(folders@)[0] == folders@[0]@);
        if folders.len() == 1 && !same(dir.as_str(), folders[0].as_str()) {
            self.stack = one_step(Some(folders[0].clone()), Heading::Folder);
            if let Some(n) = name {
                self.heading = Heading::Named(n);
            }
            self.back_visible = true;
        } else {
            if folders.len() > 1 {
                self.stack = one_step(None, Heading::Folders);
            }
            self.heading = Heading::Named(
                match name {
                    Some(n) => n,
                    None => String::new(),
                },
            );
            self.back_visible = folders.len() > 1;
        }
        self.current = Some(dir.clone());
        self.pending = Some(song.to_owned());
        Load::Folder(dir)
    }

    /// Goes to the folder of a song.
    pub fn on_locate_playing(&mut self, song: &str, folders: &Vec<String>) -> (r: Load)
        ensures
            (final(self)@, r@) == at_song(old(self)@, song@, texts(folders@)),
    {
        let dir = folder_of(song);
        let name = name_of(dir.as_str());
        self.go_to_folder(song, dir, name, folders)
    }
}

} // verus!
