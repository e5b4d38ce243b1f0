//! Scanning a folder with all folders below it, one folder at a time.
use crate::folder_tree::{flags_run, MAX_LEVELS};
use crate::library_db::{DbError, LibraryDB};
use crate::records::{folders_of, found_of, Folder, FolderRecord};
use crate::scan::{audio_files_in, entries_of, subfolders_in, DirListing};
use crate::scanning::scan_run;
use crate::store::{since, Exchange};
use crate::text::opt_text;
use vstd::prelude::*;

verus! {

/// A folder that is still to be scanned, with the folder it lies in.
pub struct Pending {
    pub path: String,
    pub parent: Option<String>,
}

/// The content of a `Pending`.
pub struct Todo {
    pub path: Seq<char>,
    pub parent: Option<Seq<char>>,
}

impl View for Pending {
    type V = Todo;

    open spec fn view(&self) -> Todo {
        Todo { path: self.path@, parent: opt_text(self.parent) }
    }
}

/// How a folder that is to be scanned was found on disk.
pub enum FolderState {
    /// There is no folder of that path.
    Missing,
    /// It could not be read.
    Unreadable,
    /// It holds this.
    Listed(DirListing),
}

/// A scan of a folder with all folders below it.
pub struct DeepScan {
    root: String,
    stack: Vec<Pending>,
    count: u32,
}

/// The content of a `DeepScan`: where it began, the folders still to be scanned,
/// the next one last, and the number of songs found.
pub struct Walk {
    pub root: Seq<char>,
    pub stack: Seq<Todo>,
    pub count: nat,
}

impl View for DeepScan {
    type V = Walk;

    closed spec fn view(&self) -> Walk {
        Walk {
            root: self.root@,
            stack: self.stack@.map_values(|p: Pending| p@),
            count: self.count as nat,
        }
    }
}

/// The folders in a folder, to be put on the stack: the first one on top.
pub open spec fn stacked(path: Seq<char>, subs: Seq<Folder>) -> Seq<Todo> {
    Seq::new(
        subs.len(),
        |i: int| Todo { path: subs[subs.len() - 1 - i].path, parent: Some(path) },
    )
}

/// The scan after its next folder was dealt with. The number of songs wraps
/// around at 2 to the power of 32.
pub open spec fn advanced(walk: Walk, state: FolderState) -> Walk {
    let rest = walk.stack.drop_last();
    match state {
        FolderState::Listed(dir) => Walk {
            root: walk.root,
            stack: rest + stacked(
                walk.stack.last().path,
                subfolders_in(entries_of(dir.entries@)),
            ),
            count: (walk.count + audio_files_in(entries_of(dir.entries@)).len())
                % 0x1_0000_0000,
        },
        _ => Walk { root: walk.root, stack: rest, count: walk.count },
    }
}

/// What is reported when a folder was dealt with: the number of songs found so
/// far, unless there was no folder.
pub open spec fn reported(walk: Walk, state: FolderState) -> Option<nat> {
    if walk.stack.len() == 0 || state is Missing {
        None
    } else {
        Some(advanced(walk, state).count)
    }
}

/// The exchanges at the end of a step: when no folder is left, the audio flags are
/// set from the root down.
pub open spec fn finish_run(walk: Walk, ok: bool, seg: Seq<Exchange>) -> bool {
    if walk.stack.len() == 0 {
        flags_run(MAX_LEVELS as nat, walk.root, ok, seg)
    } else {
        ok && seg.len() == 0
    }
}

/// The exchanges of the scan of the next folder.
pub open spec fn folder_run(
    walk: Walk,
    dir: DirListing,
    now: int,
    ok: bool,
    seg: Seq<Exchange>,
) -> bool {
    scan_run(
        walk.stack.last().path,
        walk.stack.last().parent,
        dir.mtime as int,
        subfolders_in(entries_of(dir.entries@)),
        audio_files_in(entries_of(dir.entries@)),
        now,
        ok,
        seg,
    )
}

/// The exchanges of a step that went through, or that failed once the folder was
/// scanned.
pub open spec fn step_run(
    walk: Walk,
    state: FolderState,
    now: int,
    ok: bool,
    seg: Seq<Exchange>,
) -> bool {
    match state {
        FolderState::Listed(dir) => exists|k: int|
            0 <= k <= seg.len() && folder_run(walk, dir, now, true, #[trigger] seg.take(k))
                && finish_run(advanced(walk, state), ok, seg.skip(k)),
        _ => finish_run(advanced(walk, state), ok, seg),
    }
}

/// A step of a scan from `walk` to `next`: nothing when no folder is left. Where
/// the scan of a folder failed, the folder stays the next one.
pub open spec fn stepped(
    walk: Walk,
    next: Walk,
    state: FolderState,
    now: int,
    ok: bool,
    seg: Seq<Exchange>,
) -> bool {
    if walk.stack.len() == 0 {
        ok && next == walk && seg.len() == 0
    } else {
        ||| next == advanced(walk, state) && step_run(walk, state, now, ok, seg)
        ||| {
            &&& !ok
            &&& next == walk
            &&& state matches FolderState::Listed(dir)
            &&& folder_run(walk, dir, now, false, seg)
        }
    }
}

/// Whether no folder lies more than `levels` levels below the folders above it.
pub open spec fn bounded(
    levels: nat,
    path: Seq<char>,
    tree: spec_fn(Seq<char>) -> Seq<Folder>,
) -> bool
    decreases levels,
{
    if levels == 0 {
        tree(path).len() == 0
    } else {
        forall|i: int|
            0 <= i < tree(path).len() ==> bounded(
                (levels - 1) as nat,
                (#[trigger] tree(path)[i]).path,
                tree,
            )
    }
}

/// A folder, followed by the folders below it: each one before those in it, and
/// together with them before its next neighbour.
pub open spec fn preorder(
    levels: nat,
    path: Seq<char>,
    tree: spec_fn(Seq<char>) -> Seq<Folder>,
) -> Seq<Seq<char>>
    decreases levels, 0nat,
{
    if levels == 0 {
        seq![path]
    } else {
        seq![path] + preorders((levels - 1) as nat, tree(path), tree)
    }
}

/// Several folders, each followed by the folders below it.
pub open spec fn preorders(
    levels: nat,
    folders: Seq<Folder>,
    tree: spec_fn(Seq<char>) -> Seq<Folder>,
) -> Seq<Seq<char>>
    decreases levels, folders.len() + 1,
{
    if folders.len() == 0 {
        Seq::empty()
    } else {
        preorder(levels, folders[0].path, tree) + preorders(levels, folders.drop_first(), tree)
    }
}

/// The folders that a scan will still deal with, in order, by the stack.
pub open spec fn ahead(
    levels: nat,
    stack: Seq<Todo>,
    tree: spec_fn(Seq<char>) -> Seq<Folder>,
) -> Seq<Seq<char>>
    decreases stack.len(),
{
    if stack.len() == 0 {
        Seq::empty()
    } else {
        preorder(levels, stack.last().path, tree) + ahead(levels, stack.drop_last(), tree)
    }
}

proof fn preorder_settles(
    levels: nat,
    path: Seq<char>,
    tree: spec_fn(Seq<char>) -> Seq<Folder>,
)
    requires
        bounded(levels, path, tree),
    ensures
        preorder(levels, path, tree) == preorder(levels + 1, path, tree),
    decreases levels, 0nat,
{
    if levels == 0 {
        assert(preorders(0, tree(path), tree) =~= Seq::empty());
        assert(preorder(1, path, tree) =~= seq![path]);
    } else {
        preorders_settle((levels - 1) as nat, tree(path), tree);
    }
}

proof fn preorders_settle(
    levels: nat,
    folders: Seq<Folder>,
    tree: spec_fn(Seq<char>) -> Seq<Folder>,
)
    requires
        forall|i: int|
            0 <= i < folders.len() ==> bounded(levels, (#[trigger] folders[i]).path, tree),
    ensures
        preorders(levels, folders, tree) == preorders(levels + 1, folders, tree),
    decreases levels, folders.len() + 1,
{
    if folders.len() > 0 {
        preorder_settles(levels, folders[0].path, tree);
        preorders_settle(levels, folders.drop_first(), tree);
    }
}

proof fn ahead_of_stacked(
    levels: nat,
    rest: Seq<Todo>,
    path: Seq<char>,
    folders: Seq<Folder>,
    tree: spec_fn(Seq<char>) -> Seq<Folder>,
)
    ensures
        ahead(levels, rest + stacked(path, folders), tree) == preorders(levels, folders, tree)
            + ahead(levels, rest, tree),
    decreases folders.len(),
{
    let stack = rest + stacked(path, folders);
    if folders.len() == 0 {
        assert(stack =~= rest);
        assert(Seq::<Seq<char>>::empty() + ahead(levels, rest, tree) =~= ahead(
            levels,
            rest,
            tree,
        ));
    } else {
        ahead_of_stacked(levels, rest, path, folders.drop_first(), tree);
        assert(stack.drop_last() =~= rest + stacked(path, folders.drop_first()));
        assert(stack.last().path == folders[0].path);
        assert(preorder(levels, folders[0].path, tree) + (preorders(
            levels,
            folders.drop_first(),
            tree,
        ) + ahead(levels, rest, tree)) =~= preorder(levels, folders[0].path, tree) + preorders(
            levels,
            folders.drop_first(),
            tree,
        ) + ahead(levels, rest, tree));
    }
}

/// A deep scan goes through the folders in preorder and ends: what is ahead of it
/// is the next folder, followed by what is ahead of it once that folder was
/// listed.
pub proof fn deep_scan_goes_in_preorder(
    levels: nat,
    walk: Walk,
    dir: DirListing,
    tree: spec_fn(Seq<char>) -> Seq<Folder>,
)
    requires
        walk.stack.len() > 0,
        bounded(levels, walk.stack.last().path, tree),
        subfolders_in(entries_of(dir.entries@)) == tree(walk.stack.last().path),
    ensures
        ahead(levels, walk.stack, tree) == seq![walk.stack.last().path] + ahead(
            levels,
            advanced(walk, FolderState::Listed(dir)).stack,
            tree,
        ),
{
    let path = walk.stack.last().path;
    let rest = walk.stack.drop_last();
    ahead_of_stacked(levels, rest, path, tree(path), tree);
    if levels == 0 {
        assert(preorders(levels, tree(path), tree) =~= Seq::empty());
        assert(seq![path] + ahead(levels, rest, tree) =~= seq![path] + (Seq::<
            Seq<char>,
        >::empty() + ahead(levels, rest, tree)));
    } else {
        preorders_settle((levels - 1) as nat, tree(path), tree);
        assert(seq![path] + preorders(levels, tree(path), tree) + ahead(levels, rest, tree)
            =~= seq![path] + (preorders(levels, tree(path), tree) + ahead(levels, rest, tree)));
    }
}

/// A folder that is missing or cannot be read has nothing below it: what is ahead
/// of the scan is that folder, followed by what is ahead of it afterwards.
pub proof fn deep_scan_passes_over(
    levels: nat,
    walk: Walk,
    state: FolderState,
    tree: spec_fn(Seq<char>) -> Seq<Folder>,
)
    requires
        walk.stack.len() > 0,
        !(state is Listed),
        tree(walk.stack.last().path).len() == 0,
    ensures
        ahead(levels, walk.stack, tree) == seq![walk.stack.last().path] + ahead(
            levels,
            advanced(walk, state).stack,
            tree,
        ),
{
    let path = walk.stack.last().path;
    if levels > 0 {
        assert(preorders((levels - 1) as nat, tree(path), tree) =~= Seq::empty());
    }
    assert(preorder(levels, path, tree) =~= seq![path]);
}

/// A scan that begins at a folder.
pub open spec fn begun_walk(path: Seq<char>, parent: Option<Seq<char>>) -> Walk {
    Walk { root: path, stack: seq![Todo { path, parent }], count: 0 }
}

/// Whether a folder is found as the disk has it: `tree` says which folders it holds,
/// `sounds` how many songs. A folder that cannot be read shows neither.
pub open spec fn fits(
    state: FolderState,
    path: Seq<char>,
    tree: spec_fn(Seq<char>) -> Seq<Folder>,
    sounds: spec_fn(Seq<char>) -> nat,
) -> bool {
    match state {
        FolderState::Listed(dir) => {
            &&& subfolders_in(entries_of(dir.entries@)) == tree(path)
            &&& audio_files_in(entries_of(dir.entries@)).len() == sounds(path)
        },
        FolderState::Unreadable => tree(path).len() == 0 && sounds(path) == 0,
        FolderState::Missing => false,
    }
}

/// Whether a deep scan went through these stages, from its beginning to its end, where
/// every folder was found as the disk has it.
pub open spec fn walked(
    path: Seq<char>,
    parent: Option<Seq<char>>,
    walks: Seq<Walk>,
    states: Seq<FolderState>,
    tree: spec_fn(Seq<char>) -> Seq<Folder>,
    sounds: spec_fn(Seq<char>) -> nat,
) -> bool {
    &&& walks.len() == states.len() + 1
    &&& walks[0] == begun_walk(path, parent)
    &&& forall|i: int|
        0 <= i < states.len() ==> {
            &&& walks[i].stack.len() > 0
            &&& fits(#[trigger] states[i], walks[i].stack.last().path, tree, sounds)
            &&& walks[i + 1] == advanced(walks[i], states[i])
        }
    &&& walks.last().stack.len() == 0
}

/// How many songs several folders hold together.
pub open spec fn sounds_in(paths: Seq<Seq<char>>, sounds: spec_fn(Seq<char>) -> nat) -> nat
    decreases paths.len(),
{
    if paths.len() == 0 {
        0
    } else {
        sounds_in(paths.drop_last(), sounds) + sounds(paths.last())
    }
}

proof fn sounds_add_up(paths: Seq<Seq<char>>, sounds: spec_fn(Seq<char>) -> nat, i: int, j: int)
    requires
        0 <= i <= j <= paths.len(),
    ensures
        sounds_in(paths.take(i), sounds) <= sounds_in(paths.take(j), sounds),
    decreases j,
{
    if i < j {
        assert(paths.take(j).drop_last() =~= paths.take(j - 1));
        sounds_add_up(paths, sounds, i, j - 1);
    }
}

proof fn bounded_longer(
    levels: nat,
    path: Seq<char>,
    tree: spec_fn(Seq<char>) -> Seq<Folder>,
)
    requires
        bounded(levels, path, tree),
    ensures
        bounded(levels + 1, path, tree),
    decreases levels,
{
    if levels > 0 {
        assert forall|i: int| 0 <= i < tree(path).len() implies bounded(
            levels,
            (#[trigger] tree(path)[i]).path,
            tree,
        ) by {
            bounded_longer((levels - 1) as nat, tree(path)[i].path, tree);
        }
    }
}

proof fn advanced_stays_bounded(
    levels: nat,
    walk: Walk,
    state: FolderState,
    tree: spec_fn(Seq<char>) -> Seq<Folder>,
    sounds: spec_fn(Seq<char>) -> nat,
)
    requires
        walk.stack.len() > 0,
        fits(state, walk.stack.last().path, tree, sounds),
        forall|i: int|
            0 <= i < walk.stack.len() ==> bounded(levels, (#[trigger] walk.stack[i]).path, tree),
    ensures
        forall|i: int|
            0 <= i < advanced(walk, state).stack.len() ==> bounded(
                levels,
                (#[trigger] advanced(walk, state).stack[i]).path,
                tree,
            ),
        ahead(levels, walk.stack, tree) == seq![walk.stack.last().path] + ahead(
            levels,
            advanced(walk, state).stack,
            tree,
        ),
{
    let top = walk.stack[walk.stack.len() - 1];
    let path = top.path;
    let next = advanced(walk, state);
    assert(bounded(levels, path, tree));
    match state {
        FolderState::Listed(dir) => {
            deep_scan_goes_in_preorder(levels, walk, dir, tree);
        },
        _ => {
            deep_scan_passes_over(levels, walk, state, tree);
        },
    }
    assert forall|i: int| 0 <= i < next.stack.len() implies bounded(
        levels,
        (#[trigger] next.stack[i]).path,
        tree,
    ) by {
        let n = walk.stack.len() - 1;
        if i < n {
            assert(next.stack[i] == walk.stack[i]);
        } else {
            let subs = tree(path);
            let sub = subs[subs.len() - 1 - (i - n)];
            assert(next.stack[i].path == sub.path);
            assert(bounded((levels - 1) as nat, sub.path, tree));
            bounded_longer((levels - 1) as nat, sub.path, tree);
        }
    }
}

proof fn walk_so_far(
    levels: nat,
    path: Seq<char>,
    parent: Option<Seq<char>>,
    walks: Seq<Walk>,
    states: Seq<FolderState>,
    tree: spec_fn(Seq<char>) -> Seq<Folder>,
    sounds: spec_fn(Seq<char>) -> nat,
    n: int,
)
    requires
        walked(path, parent, walks, states, tree, sounds),
        bounded(levels, path, tree),
        sounds_in(preorder(levels, path, tree), sounds) <= u32::MAX,
        0 <= n < walks.len(),
    ensures
        n <= preorder(levels, path, tree).len(),
        ahead(levels, walks[n].stack, tree) == preorder(levels, path, tree).skip(n),
        walks[n].count == sounds_in(preorder(levels, path, tree).take(n), sounds),
        forall|i: int|
            0 <= i < walks[n].stack.len() ==> bounded(
                levels,
                (#[trigger] walks[n].stack[i]).path,
                tree,
            ),
    decreases n,
{
    let all = preorder(levels, path, tree);
    if n == 0 {
        let stack = seq![Todo { path, parent }];
        assert(stack.drop_last() =~= Seq::empty());
        assert(all + ahead(levels, stack.drop_last(), tree) =~= all);
        assert(all.skip(0) =~= all);
        assert(all.take(0) =~= Seq::empty());
    } else {
        walk_so_far(levels, path, parent, walks, states, tree, sounds, n - 1);
        let walk = walks[n - 1];
        let state = states[n - 1];
        let top = walk.stack.last().path;
        advanced_stays_bounded(levels, walk, state, tree, sounds);
        let rest = ahead(levels, walks[n].stack, tree);
        assert(all.skip(n - 1) == seq![top] + rest);
        assert(all.skip(n - 1)[0] == top);
        assert(all[n - 1] == top);
        assert(rest =~= (seq![top] + rest).skip(1));
        assert(all.skip(n - 1).skip(1) =~= all.skip(n));
        assert(all.take(n).drop_last() =~= all.take(n - 1));
        assert(all.take(n).last() == top);
        sounds_add_up(all, sounds, n, all.len() as int);
        assert(all.take(all.len() as int) =~= all);
    }
}

/// A deep scan reports once for each folder, in preorder, how many songs lie in the
/// folders up to it: first the songs directly in the folder it begins at, last all
/// songs, and never fewer than before. The number of songs fits.
pub proof fn deep_scan_reports_each_folder(
    levels: nat,
    path: Seq<char>,
    parent: Option<Seq<char>>,
    walks: Seq<Walk>,
    states: Seq<FolderState>,
    tree: spec_fn(Seq<char>) -> Seq<Folder>,
    sounds: spec_fn(Seq<char>) -> nat,
)
    requires
        walked(path, parent, walks, states, tree, sounds),
        bounded(levels, path, tree),
        sounds_in(preorder(levels, path, tree), sounds) <= u32::MAX,
    ensures
        states.len() == preorder(levels, path, tree).len(),
        states.len() > 0,
        forall|i: int|
            0 <= i < states.len() ==> reported(walks[i], #[trigger] states[i]) == Some(
                sounds_in(preorder(levels, path, tree).take(i + 1), sounds),
            ),
        reported(walks[0], states[0]) == Some(sounds(path)),
        reported(walks[states.len() - 1], states.last()) == Some(
            sounds_in(preorder(levels, path, tree), sounds),
        ),
        forall|i: int, j: int|
            0 <= i <= j < states.len() ==> reported(walks[i], #[trigger] states[i])->0
                <= reported(walks[j], #[trigger] states[j])->0,
{
    let all = preorder(levels, path, tree);
    let n = states.len() as int;
    walk_so_far(levels, path, parent, walks, states, tree, sounds, n);
    assert(all.skip(n).len() == 0);
    assert(n > 0);
    assert forall|i: int| 0 <= i < states.len() implies reported(
        walks[i],
        #[trigger] states[i],
    ) == Some(sounds_in(all.take(i + 1), sounds)) by {
        walk_so_far(levels, path, parent, walks, states, tree, sounds, i + 1);
    }
    assert(all[0] == path);
    assert(all.take(1).drop_last() =~= Seq::empty());
    assert(sounds_in(all.take(1), sounds) == sounds(path));
    assert(all.take(n) =~= all);
    assert(reported(walks[0], states[0]) == Some(sounds_in(all.take(1), sounds)));
    assert(reported(walks[n - 1], states[n - 1]) == Some(sounds_in(all.take(n), sounds)));
    assert forall|i: int, j: int| 0 <= i <= j < states.len() implies reported(
        walks[i],
        #[trigger] states[i],
    )->0 <= reported(walks[j], #[trigger] states[j])->0 by {
        sounds_add_up(all, sounds, i + 1, j + 1);
    }
}

/// A deep scan that begins where there is no folder reports nothing and is over.
pub proof fn deep_scan_of_nothing_reports_nothing(path: Seq<char>, parent: Option<Seq<char>>)
    ensures
        reported(begun_walk(path, parent), FolderState::Missing) is None,
        advanced(begun_walk(path, parent), FolderState::Missing).stack.len() == 0,
{
}

impl DeepScan {
    /// A scan that begins at a folder.
    pub fn new(path: &str, parent: Option<&str>) -> (r: DeepScan)
        ensures
            r@ == begun_walk(
                path@,
                match parent {
                    Some(p) => Some(p@),
                    None => None,
                },
            ),
    {
        let mut stack: Vec<Pending> = Vec::new();
        let parent: Option<String> = match parent {
            Some(p) => Some(p.to_owned()),
            None => None,
        };
        stack.push(Pending { path: path.to_owned(), parent });
        let r = DeepScan { root: path.to_owned(), stack, count: 0 };
        assert(r@.stack =~= seq![stack@[0]@]);
        r
    }

    /// The folder that is to be scanned next, until all are done.
    pub fn next_folder(&self) -> (r: Option<String>)
        ensures
            opt_text(r) == if self@.stack.len() == 0 {
                None
            } else {
                Some(self@.stack.last().path)
            },
    {
        let n = self.stack.len();
        if n == 0 {
            None
        } else {
            Some(self.stack[n - 1].path.clone())
        }
    }

    fn push_folders(&mut self, path: &str, subs: &Vec<FolderRecord>)
        ensures
            final(self)@ == (Walk {
                root: old(self)@.root,
                stack: old(self)@.stack + stacked(path@, folders_of(subs@)),
                count: old(self)@.count,
            }),
    {
        let ghost before = self@;
        let ghost all = stacked(path@, folders_of(subs@));
        let mut i: usize = subs.len();
        assert(self@.stack =~= before.stack + all.take(0));
        while i > 0
            invariant
                i <= subs.len(),
                all == stacked(path@, folders_of(subs@)),
                all.len() == subs.len(),
                self@.root == before.root,
                self@.count == before.count,
                self@.stack == before.stack + all.take(subs.len() - i),
            decreases i,
        {
            i = i - 1;
            let ghost now = self@.stack;
            let next = Pending { path: subs[i].path.clone(), parent: Some(path.to_owned()) };
            let ghost todo = next@;
            self.stack.push(next);
            assert(self@.stack =~= now.push(todo));
            assert(todo == all[subs.len() - 1 - i]);
            assert(all.take(subs.len() - i) =~= all.take(subs.len() - 1 - i).push(todo));
        }
        assert(all.take(all.len() as int) =~= all);
    }
}

impl LibraryDB {
    /// Deals with the next folder of a deep scan, which was found on disk as
    /// `state` says, and tells how many songs were found so far. When no folder is
    /// left, the audio flags are set from the folder down at which the scan began.
    pub fn scan_folder_deep_with_progress(
        &mut self,
        scan: &mut DeepScan,
        state: &FolderState,
        now: i64,
    ) -> (res: Result<Option<u32>, DbError>)
        ensures
            old(self)@.is_prefix_of(final(self)@),
            stepped(
                old(scan)@,
                final(scan)@,
                *state,
                now as int,
                res is Ok,
                since(old(self)@, final(self)@),
            ),
            match res {
                Ok(report) => match (report, reported(old(scan)@, *state)) {
                    (Some(n), Some(m)) => n as nat == m,
                    (None, None) => true,
                    _ => false,
                },
                Err(e) => e == DbError::Query,
            },
    {
        if scan.stack.len() == 0 {
            return Ok(None);
        }
        let ghost before = self@;
        let ghost walk = scan@;
        let report = match self.deal_with(scan, state, now) {
            Ok(report) => report,
            Err(e) => {
                return Err(e);
            },
        };
        let ghost scanned = self@;
        let ghost k = scanned.len() - before.len();
        if scan.stack.len() == 0 {
            let root = scan.root.clone();
            let flags = self.update_has_audio_recursive(root.as_str(), MAX_LEVELS);
            proof {
                let seg = since(before, self@);
                assert(seg.take(k) == since(before, scanned));
                assert(seg.skip(k) == since(scanned, self@));
                assert(finish_run(scan@, flags is Ok, seg.skip(k)));
                if !(state is Listed) {
                    assert(seg == seg.skip(k));
                }
            }
            match flags {
                Ok(()) => Ok(report),
                Err(e) => Err(e),
            }
        } else {
            proof {
                let seg = since(before, self@);
                assert(seg.take(k) == since(before, scanned));
                assert(finish_run(scan@, true, seg.skip(k)));
                if !(state is Listed) {
                    assert(seg == seg.skip(k));
                }
            }
            Ok(report)
        }
    }

    fn deal_with(&mut self, scan: &mut DeepScan, state: &FolderState, now: i64) -> (res: Result<
        Option<u32>,
        DbError,
    >)
        requires
            old(scan)@.stack.len() > 0,
        ensures
            old(self)@.is_prefix_of(final(self)@),
            match res {
                Ok(report) => {
                    &&& final(scan)@ == advanced(old(scan)@, *state)
                    &&& match *state {
                        FolderState::Listed(dir) => folder_run(
                            old(scan)@,
                            dir,
                            now as int,
                            true,
                            since(old(self)@, final(self)@),
                        ),
                        _ => final(self)@ == old(self)@,
                    }
                    &&& match (report, reported(old(scan)@, *state)) {
                        (Some(n), Some(m)) => n as nat == m,
                        (None, None) => true,
                        _ => false,
                    }
                },
                Err(e) => {
                    &&& e == DbError::Query
                    &&& final(scan)@ == old(scan)@
                    &&& *state matches FolderState::Listed(dir)
                    &&& folder_run(
                        old(scan)@,
                        dir,
                        now as int,
                        false,
                        since(old(self)@, final(self)@),
                    )
                },
            },
    {
        let n = scan.stack.len();
        let ghost walk = scan@;
        assert(walk.stack.last() == scan.stack@[n - 1]@);
        match state {
            FolderState::Missing => {
                let _ = scan.stack.pop();
                assert(scan@.stack =~= walk.stack.drop_last());
                Ok(None)
            },
            FolderState::Unreadable => {
                let _ = scan.stack.pop();
                assert(scan@.stack =~= walk.stack.drop_last());
                Ok(Some(scan.count))
            },
            FolderState::Listed(dir) => {
                let path = scan.stack[n - 1].path.clone();
                let parent = scan.stack[n - 1].parent.clone();
                let parent_str: Option<&str> = match &parent {
                    Some(p) => Some(p.as_str()),
                    None => None,
                };
                let (subs, songs) = match self.scan_folder(
                    path.as_str(),
                    parent_str,
                    Some(dir),
                    now,
                ) {
                    Ok(found) => found,
                    Err(e) => {
                        return Err(e);
                    },
                };
                let _ = scan.stack.pop();
                assert(scan@.stack =~= walk.stack.drop_last());
                scan.push_folders(path.as_str(), &subs);
                assert(found_of(songs@).len() == songs@.len());
                let total: u128 = scan.count as u128 + songs.len() as u128;
                scan.count = (total % 0x1_0000_0000) as u32;
                Ok(Some(scan.count))
            },
        }
    }

    /// Deals with the next folder of a deep scan without telling how many songs
    /// were found.
    pub fn scan_folder_deep(&mut self, scan: &mut DeepScan, state: &FolderState, now: i64) -> (res:
        Result<(), DbError>)
        ensures
            old(self)@.is_prefix_of(final(self)@),
            stepped(
                old(scan)@,
                final(scan)@,
                *state,
                now as int,
                res is Ok,
                since(old(self)@, final(self)@),
            ),
            res matches Err(e) ==> e == DbError::Query,
    {
        match self.scan_folder_deep_with_progress(scan, state, now) {
            Ok(_) => Ok(()),
            Err(e) => Err(e),
        }
    }
}

} // verus!
