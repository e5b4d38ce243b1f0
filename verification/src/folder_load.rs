//! The steps in which a folder is shown that was opened. A folder that was changed
//! on disk is scanned first, beside the window. Songs that were not read yet are
//! read afterwards.
use crate::text::opt_text;
use vstd::prelude::*;

verus! {

/// What is to be done next.
pub enum LoadStep {
    /// It is shown that the folder is being read. The steps that follow are done
    /// beside the window.
    Wait,
    /// The folder is scanned. Its parent is given, where one is kept of it.
    Scan(Option<String>),
    /// The audio flag of the folder is set.
    Flag,
    /// The folder is shown from what the library knows.
    Show,
    /// The cover of the folder is looked for and its songs are read, beside the
    /// window.
    Enrich,
    /// Nothing.
    Stop,
}

/// The content of a `LoadStep`.
pub enum LoadTask {
    Wait,
    Scan(Option<Seq<char>>),
    Flag,
    Show,
    Enrich,
    Stop,
}

impl View for LoadStep {
    type V = LoadTask;

    open spec fn view(&self) -> LoadTask {
        match *self {
            LoadStep::Wait => LoadTask::Wait,
            LoadStep::Scan(parent) => LoadTask::Scan(opt_text(parent)),
            LoadStep::Flag => LoadTask::Flag,
            LoadStep::Show => LoadTask::Show,
            LoadStep::Enrich => LoadTask::Enrich,
            LoadStep::Stop => LoadTask::Stop,
        }
    }
}

/// How far the folder is.
#[derive(Debug, Clone, Copy, PartialEq, Eq, Structural)]
pub enum LoadStage {
    /// It is to be waited for.
    Begin,
    /// It is to be scanned.
    Scan,
    /// Its audio flag is to be set.
    Flag,
    /// It is to be shown.
    Show,
    /// It is shown; some of its songs were not read yet, or all were.
    Shown(bool),
    /// All is done.
    Ended,
}

/// A folder that is being shown.
pub struct FolderLoad {
    parent: Option<String>,
    outdated: bool,
    stage: LoadStage,
}

/// The content of a `FolderLoad`: the parent that is kept of the folder, whether it
/// was changed on disk, and how far it is.
pub struct Loading {
    pub parent: Option<Seq<char>>,
    pub outdated: bool,
    pub stage: LoadStage,
}

impl View for FolderLoad {
    type V = Loading;

    closed spec fn view(&self) -> Loading {
        Loading { parent: opt_text(self.parent), outdated: self.outdated, stage: self.stage }
    }
}

/// A folder that is to be shown.
pub open spec fn to_load(parent: Option<Seq<char>>, outdated: bool) -> Loading {
    Loading {
        parent,
        outdated,
        stage: if outdated {
            LoadStage::Begin
        } else {
            LoadStage::Show
        },
    }
}

/// The next step, and how far the folder is then. While the player is being closed
/// no scan is begun, and after a scan no songs are read.
pub open spec fn load_step(load: Loading, shutdown: bool) -> (Loading, LoadTask) {
    match load.stage {
        LoadStage::Begin => (Loading { stage: LoadStage::Scan, ..load }, LoadTask::Wait),
        LoadStage::Scan => if shutdown {
            (Loading { stage: LoadStage::Ended, ..load }, LoadTask::Stop)
        } else {
            (Loading { stage: LoadStage::Flag, ..load }, LoadTask::Scan(load.parent))
        },
        LoadStage::Flag => (Loading { stage: LoadStage::Show, ..load }, LoadTask::Flag),
        LoadStage::Show => (load, LoadTask::Show),
        LoadStage::Shown(unscanned) => (
            Loading { stage: LoadStage::Ended, ..load },
            if unscanned && !(load.outdated && shutdown) {
                LoadTask::Enrich
            } else {
                LoadTask::Stop
            },
        ),
        LoadStage::Ended => (load, LoadTask::Stop),
    }
}

/// How far the folder is once it is shown.
pub open spec fn with_shown(load: Loading, unscanned: bool) -> Loading {
    match load.stage {
        LoadStage::Show => Loading { stage: LoadStage::Shown(unscanned), ..load },
        _ => load,
    }
}

/// A folder that was changed is scanned, and its flag is set, before it is shown.
pub proof fn changed_folder_is_scanned_first(parent: Option<Seq<char>>)
    ensures
        ({
            let (a, first) = load_step(to_load(parent, true), false);
            let (b, second) = load_step(a, false);
            let (c, third) = load_step(b, false);
            let (_, fourth) = load_step(c, false);
            &&& first == LoadTask::Wait
            &&& second == LoadTask::Scan(parent)
            &&& third == LoadTask::Flag
            &&& fourth == LoadTask::Show
        }),
{
}

/// A folder that was not changed is shown at once.
pub proof fn unchanged_folder_is_shown_at_once(parent: Option<Seq<char>>, shutdown: bool)
    ensures
        load_step(to_load(parent, false), shutdown).1 == LoadTask::Show,
{
}

/// Songs are read after the folder is shown, and only where some were not read yet;
/// then all is done.
pub proof fn songs_are_read_last(load: Loading, unscanned: bool, shutdown: bool)
    requires
        load.stage == LoadStage::Show,
    ensures
        ({
            let (end, task) = load_step(with_shown(load, unscanned), shutdown);
            &&& task == LoadTask::Enrich ==> unscanned
            &&& unscanned && !shutdown ==> task == LoadTask::Enrich
            &&& load_step(end, shutdown) == (end, LoadTask::Stop)
        }),
{
}

impl FolderLoad {
    /// A folder that is to be shown. `parent` is kept of it where it is scanned;
    /// `outdated` tells whether it was changed on disk.
    pub fn new(parent: Option<String>, outdated: bool) -> (r: FolderLoad)
        ensures
            r@ == to_load(opt_text(parent), outdated),
    {
        FolderLoad {
            parent,
            outdated,
            stage: if outdated {
                LoadStage::Begin
            } else {
                LoadStage::Show
            },
        }
    }

    /// What is to be done next. `shutdown` tells whether the player is being
    /// closed.
    pub fn next(&mut self, shutdown: bool) -> (r: LoadStep)
        ensures
            (final(self)@, r@) == load_step(old(self)@, shutdown),
    {
        match self.stage {
            LoadStage::Begin => {
                self.stage = LoadStage::Scan;
                LoadStep::Wait
            },
            LoadStage::Scan => if shutdown {
                self.stage = LoadStage::Ended;
                LoadStep::Stop
            } else {
                self.stage = LoadStage::Flag;
                let parent: Option<String> = match &self.parent {
                    Some(p) => Some(p.clone()),
                    None => None,
                };
                LoadStep::Scan(parent)
            },
            LoadStage::Flag => {
                self.stage = LoadStage::Show;
                LoadStep::Flag
            },
            LoadStage::Show => LoadStep::Show,
            LoadStage::Shown(unscanned) => {
                self.stage = LoadStage::Ended;
                if unscanned && !(self.outdated && shutdown) {
                    LoadStep::Enrich
                } else {
                    LoadStep::Stop
                }
            },
            LoadStage::Ended => LoadStep::Stop,
        }
    }

    /// Tells that the folder is shown, and whether some of its songs were not read
    /// yet.
    pub fn tell_shown(&mut self, unscanned: bool)
        ensures
            final(self)@ == with_shown(old(self)@, unscanned),
    {
        match self.stage {
            LoadStage::Show => {
                self.stage = LoadStage::Shown(unscanned);
            },
            _ => {},
        }
    }
}

} // verus!
