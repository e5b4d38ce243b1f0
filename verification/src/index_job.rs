//! The work that goes on in the background when folders are loaded: they are
//! scanned, their covers are looked for, and their songs are read.
use crate::text::{copied, texts};
use vstd::prelude::*;

verus! {

/// What is to be done next.
pub enum IndexStep {
    /// A folder is scanned with all folders below it.
    Scan(String),
    /// It is shown that covers are looked for.
    ShowCovers,
    /// The cover of a folder is looked for.
    Discover(String),
    /// The folders directly in a folder are listed.
    List(String),
    /// The library is shown anew.
    Reload,
    /// The songs are put in the queue.
    Queue,
    /// The songs are read.
    Enrich,
    /// Nothing.
    Stop,
}

/// The content of an `IndexStep`.
pub enum Task {
    Scan(Seq<char>),
    ShowCovers,
    Discover(Seq<char>),
    List(Seq<char>),
    Reload,
    Queue,
    Enrich,
    Stop,
}

impl View for IndexStep {
    type V = Task;

    open spec fn view(&self) -> Task {
        match *self {
            IndexStep::Scan(p) => Task::Scan(p@),
            IndexStep::ShowCovers => Task::ShowCovers,
            IndexStep::Discover(p) => Task::Discover(p@),
            IndexStep::List(p) => Task::List(p@),
            IndexStep::Reload => Task::Reload,
            IndexStep::Queue => Task::Queue,
            IndexStep::Enrich => Task::Enrich,
            IndexStep::Stop => Task::Stop,
        }
    }
}

/// How far the work has come.
pub enum Progress {
    /// The folders from a place on are to be scanned.
    Scan(usize),
    /// The covers of the folders from a place on are to be looked for.
    Covers(usize),
    /// The folders in the folder at a place are to be listed.
    List(usize),
    /// The covers of the folders in the folder at a place, from one on, are to be
    /// looked for.
    Children(usize, usize),
    /// The songs are to be put in the queue.
    Queue,
    /// The songs are to be read.
    Enrich,
    /// All is done, or the player is being closed.
    Ended,
}

/// The content of a `Progress`, with the folders that were listed.
pub enum At {
    Scan(int),
    Covers(int),
    List(int),
    Children(int, Seq<Seq<char>>, int),
    Queue,
    Enrich,
    Ended,
}

/// The work on some folders.
pub struct IndexJob {
    folders: Vec<String>,
    children: Vec<String>,
    report: bool,
    progress: Progress,
}

/// The content of an `IndexJob`: the folders, whether the work is shown, and how
/// far it has come.
pub struct Job {
    pub folders: Seq<Seq<char>>,
    pub report: bool,
    pub at: At,
}

impl View for IndexJob {
    type V = Job;

    closed spec fn view(&self) -> Job {
        Job {
            folders: texts(self.folders@),
            report: self.report,
            at: match self.progress {
                Progress::Scan(i) => At::Scan(i as int),
                Progress::Covers(i) => At::Covers(i as int),
                Progress::List(i) => At::List(i as int),
                Progress::Children(i, j) => At::Children(
                    i as int,
                    texts(self.children@),
                    j as int,
                ),
                Progress::Queue => At::Queue,
                Progress::Enrich => At::Enrich,
                Progress::Ended => At::Ended,
            },
        }
    }
}

/// Whether the places lie within their lists.
pub open spec fn within(job: Job) -> bool {
    match job.at {
        At::Scan(i) => 0 <= i <= job.folders.len(),
        At::Covers(i) => 0 <= i <= job.folders.len(),
        At::List(i) => 0 <= i < job.folders.len(),
        At::Children(i, list, j) => 0 <= i < job.folders.len() && 0 <= j <= list.len(),
        _ => true,
    }
}

/// The work that goes to a place.
pub open spec fn moved(job: Job, at: At) -> Job {
    Job { at, ..job }
}

/// What is done when the songs are to be put in the queue.
pub open spec fn queue_step(job: Job, shutdown: bool) -> (Job, Task) {
    if shutdown {
        (moved(job, At::Ended), Task::Stop)
    } else {
        (moved(job, At::Enrich), Task::Queue)
    }
}

/// What is done when the covers of the folders from a place on are to be looked
/// for. When all are done, the library is shown anew, where the work is shown.
pub open spec fn covers_step(job: Job, i: int, shutdown: bool) -> (Job, Task) {
    if i < job.folders.len() {
        if shutdown {
            (moved(job, At::Ended), Task::Stop)
        } else {
            (moved(job, At::List(i)), Task::Discover(job.folders[i]))
        }
    } else if job.report {
        (moved(job, At::Queue), Task::Reload)
    } else {
        queue_step(job, shutdown)
    }
}

/// What is done next. `shutdown` tells whether the player is being closed.
pub open spec fn step(job: Job, shutdown: bool) -> (Job, Task) {
    match job.at {
        At::Scan(i) => if shutdown {
            (moved(job, At::Ended), Task::Stop)
        } else if i < job.folders.len() {
            (moved(job, At::Scan(i + 1)), Task::Scan(job.folders[i]))
        } else if job.report {
            (moved(job, At::Covers(0)), Task::ShowCovers)
        } else {
            covers_step(job, 0, shutdown)
        },
        At::Covers(i) => covers_step(job, i, shutdown),
        At::List(i) => (job, Task::List(job.folders[i])),
        At::Children(i, list, j) => if j < list.len() {
            if shutdown {
                (moved(job, At::Ended), Task::Stop)
            } else {
                (moved(job, At::Children(i, list, j + 1)), Task::Discover(list[j]))
            }
        } else {
            covers_step(job, i + 1, shutdown)
        },
        At::Queue => queue_step(job, shutdown),
        At::Enrich => (moved(job, At::Ended), Task::Enrich),
        At::Ended => (job, Task::Stop),
    }
}

/// The work after the folders in a folder were listed.
pub open spec fn with_children(job: Job, list: Seq<Seq<char>>) -> Job {
    match job.at {
        At::List(i) => moved(job, At::Children(i, list, 0)),
        _ => job,
    }
}

/// The work after several steps while the player stays open.
pub open spec fn after_steps(job: Job, n: nat) -> Job
    decreases n,
{
    if n == 0 {
        job
    } else {
        step(after_steps(job, (n - 1) as nat), false).0
    }
}

/// The work begins with a scan of each folder, in order; only then covers are
/// looked for.
pub proof fn scans_come_first(job: Job, n: nat)
    requires
        job.at == At::Scan(0),
        n <= job.folders.len(),
    ensures
        after_steps(job, n) == moved(job, At::Scan(n as int)),
        n < job.folders.len() ==> step(after_steps(job, n), false).1 == Task::Scan(
            job.folders[n as int],
        ),
        n == job.folders.len() ==> !(step(after_steps(job, n), false).1 is Scan),
    decreases n,
{
    if n > 0 {
        scans_come_first(job, (n - 1) as nat);
    }
}

/// Work that has stopped stays stopped, and a player that is being closed stops the
/// work before the next folder is scanned, the next cover is looked for or the
/// queue is filled.
pub proof fn closing_stops_the_work(job: Job, shutdown: bool)
    requires
        within(job),
    ensures
        step(job, shutdown).1 is Stop ==> step(job, shutdown).0.at == At::Ended,
        job.at == At::Ended ==> step(job, shutdown) == (job, Task::Stop),
        ({
            let task = step(job, true).1;
            !(task is Scan) && !(task is Discover) && !(task is Queue)
        }),
        within(step(job, shutdown).0),
{
}

/// The library is shown anew only after the covers of all folders were looked for,
/// and only where the work is shown.
pub proof fn reload_comes_after_covers(job: Job, shutdown: bool)
    requires
        within(job),
        step(job, shutdown).1 is Reload,
    ensures
        job.report,
        match job.at {
            At::Covers(i) => i == job.folders.len(),
            At::Children(i, list, j) => i + 1 == job.folders.len() && j == list.len(),
            _ => false,
        },
        step(job, shutdown).0.at == At::Queue,
{
}

impl IndexJob {
    #[verifier::type_invariant]
    spec fn well_formed(self) -> bool {
        within(self@)
    }

    /// The work on some folders. With `report`, it is shown how it goes on.
    pub fn new(folders: &Vec<String>, report: bool) -> (r: IndexJob)
        ensures
            r@ == (Job { folders: texts(folders@), report, at: At::Scan(0) }),
            within(r@),
    {
        IndexJob {
            folders: copied(folders),
            children: Vec::new(),
            report,
            progress: Progress::Scan(0),
        }
    }

    /// Whether it is shown how the work goes on.
    pub fn reports(&self) -> (r: bool)
        ensures
            r == self@.report,
    {
        self.report
    }

    fn queue(&mut self, shutdown: bool) -> (r: IndexStep)
        ensures
            (final(self)@, r@) == queue_step(old(self)@, shutdown),
    {
        if shutdown {
            self.progress = Progress::Ended;
            IndexStep::Stop
        } else {
            self.progress = Progress::Enrich;
            IndexStep::Queue
        }
    }

    fn covers(&mut self, i: usize, shutdown: bool) -> (r: IndexStep)
        ensures
            (final(self)@, r@) == covers_step(old(self)@, i as int, shutdown),
    {
        if i < self.folders.len() {
            assert(self@.folders[i as int] == self.folders@[i as int]@);
            if shutdown {
                self.progress = Progress::Ended;
                IndexStep::Stop
            } else {
                self.progress = Progress::List(i);
                IndexStep::Discover(self.folders[i].clone())
            }
        } else if self.report {
            self.progress = Progress::Queue;
            IndexStep::Reload
        } else {
            self.queue(shutdown)
        }
    }

    /// What is to be done next. `shutdown` tells whether the player is being
    /// closed.
    pub fn next(&mut self, shutdown: bool) -> (r: IndexStep)
        ensures
            (final(self)@, r@) == step(old(self)@, shutdown),
            within(final(self)@),
    {
        let ghost before = self@;
        proof {
            use_type_invariant(&*self);
            closing_stops_the_work(before, shutdown);
        }
        match &self.progress {
            Progress::Scan(i) => {
                let i: usize = *i;
                if shutdown {
                    self.progress = Progress::Ended;
                    IndexStep::Stop
                } else if i < self.folders.len() {
                    assert(self@.folders[i as int] == self.folders@[i as int]@);
                    self.progress = Progress::Scan(i + 1);
                    IndexStep::Scan(self.folders[i].clone())
                } else if self.report {
                    self.progress = Progress::Covers(0);
                    IndexStep::ShowCovers
                } else {
                    self.covers(0, shutdown)
                }
            },
            Progress::Covers(i) => {
                let i: usize = *i;
                self.covers(i, shutdown)
            },
            Progress::List(i) => {
                assert(self@.folders[*i as int] == self.folders@[*i as int]@);
                IndexStep::List(self.folders[*i].clone())
            },
            Progress::Children(i, j) => {
                let i: usize = *i;
                let j: usize = *j;
                assert(before.at == At::Children(i as int, texts(self.children@), j as int));
                assert(i < self.folders.len());
                if j < self.children.len() {
                    if shutdown {
                        self.progress = Progress::Ended;
                        IndexStep::Stop
                    } else {
                        assert(texts(self.children@)[j as int] == self.children@[j as int]@);
                        self.progress = Progress::Children(i, j + 1);
                        IndexStep::Discover(self.children[j].clone())
                    }
                } else {
                    self.covers(i + 1, shutdown)
                }
            },
            Progress::Queue => self.queue(shutdown),
            Progress::Enrich => {
                self.progress = Progress::Ended;
                IndexStep::Enrich
            },
            Progress::Ended => IndexStep::Stop,
        }
    }

    /// Tells which folders lie directly in the folder that was to be listed.
    pub fn tell_children(&mut self, list: Vec<String>)
        ensures
            final(self)@ == with_children(old(self)@, texts(list@)),
            within(final(self)@),
    {
        proof {
            use_type_invariant(&*self);
        }
        if let Progress::List(i) = &self.progress {
            let i: usize = *i;
            self.children = list;
            self.progress = Progress::Children(i, 0);
        }
    }
}

} // verus!
