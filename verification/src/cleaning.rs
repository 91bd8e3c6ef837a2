//! The cleaning of an artist's folder, step by step.

use vstd::prelude::*;

use crate::dedupe;
use crate::dedupe::EntryKind;
use crate::order;
use crate::text;

verus! {

/// An entry of a folder.
#[derive(Debug, PartialEq)]
pub struct Entry {
    pub path: String,
    pub kind: EntryKind,
}

/// The files among some entries that do not belong in an artist's folder, in
/// order.
pub open spec fn strays(entries: Seq<Entry>, artist: Seq<char>) -> Seq<String>
    decreases entries.len(),
{
    if entries.len() == 0 {
        seq![]
    } else {
        let before = strays(entries.drop_last(), artist);
        let last = entries.last();
        if dedupe::is_stray(last.path@, last.kind, artist) {
            before.push(last.path)
        } else {
            before
        }
    }
}

/// The folders among some entries, in order.
pub open spec fn folders(entries: Seq<Entry>) -> Seq<String>
    decreases entries.len(),
{
    if entries.len() == 0 {
        seq![]
    } else {
        let before = folders(entries.drop_last());
        if entries.last().kind == EntryKind::Folder {
            before.push(entries.last().path)
        } else {
            before
        }
    }
}

/// What a cleaning is at.
#[derive(Debug, Clone, Copy, PartialEq, Eq, Structural)]
pub enum CleaningStage {
    /// Reading folders.
    Reading,
    /// Looking whether a folder is empty.
    Looking,
    /// Removing an empty folder.
    Removing,
    /// Nothing is left to do.
    Finished,
}

/// What happened.
#[derive(Debug, PartialEq)]
pub enum CleaningEvent {
    /// The folder holds these entries.
    Entries(Vec<Entry>),
    /// Whether the folder is empty.
    Empty(bool),
    /// The folder was removed.
    Removed,
}

/// What to do next.
#[derive(Debug, PartialEq)]
pub enum CleaningStep {
    /// Read this folder.
    Read(String),
    /// Look whether this folder is empty.
    Look(String),
    /// Remove this folder.
    Remove(String),
    /// Nothing; so many files were removed.
    Done(usize),
}

/// A cleaning: the folders to be read, of which the last is next; the folders
/// that were read; and, once all were, those still to be looked at, of which
/// the first is next.
pub struct CleaningModel {
    pub root: Seq<char>,
    pub artist: Seq<char>,
    pub stage: CleaningStage,
    pub pending: Seq<String>,
    pub read: Seq<String>,
    pub left: Seq<String>,
    pub removed: nat,
}

/// Folders without the leading ones that are the root, which stays.
pub open spec fn beyond_root(dirs: Seq<String>, root: Seq<char>) -> Seq<String>
    decreases dirs.len(),
{
    if dirs.len() > 0 && dirs[0]@ == root {
        beyond_root(dirs.skip(1), root)
    } else {
        dirs
    }
}

/// Whether folders are others in the order in which empty ones are removed.
pub open spec fn is_deepest_first(dirs: Seq<String>, sorted: Seq<String>) -> bool {
    exists|o: Seq<usize>|
        #[trigger] order::is_stable_order(dedupe::depth_keys(dirs), o) && sorted
            == order::arranged(dirs, o)
}

impl CleaningModel {
    /// The cleaning with these folders left to look at.
    pub open spec fn looking_at(self, dirs: Seq<String>) -> CleaningModel {
        let left = beyond_root(dirs, self.root);
        CleaningModel {
            left,
            stage: if left.len() == 0 {
                CleaningStage::Finished
            } else {
                CleaningStage::Looking
            },
            ..self
        }
    }

    /// The cleaning with one more folder read.
    pub open spec fn with_entries(self, entries: Seq<Entry>) -> CleaningModel {
        CleaningModel {
            pending: self.pending.drop_last() + folders(entries),
            read: self.read.push(self.pending.last()),
            removed: self.removed + strays(entries, self.artist).len(),
            ..self
        }
    }

    /// Whether another cleaning is this one after an event. Once all folders
    /// were read, they are looked at from the deepest up. An event that does not
    /// belong there changes nothing.
    pub open spec fn leads_to(self, event: CleaningEvent, next: CleaningModel) -> bool {
        match (self.stage, event) {
            (CleaningStage::Reading, CleaningEvent::Entries(entries)) => {
                let after = self.with_entries(entries@);
                if after.pending.len() > 0 {
                    next == after
                } else {
                    exists|sorted: Seq<String>|
                        is_deepest_first(after.read, sorted) && next == #[trigger] after.looking_at(
                            sorted,
                        )
                }
            },
            (CleaningStage::Looking, CleaningEvent::Empty(empty)) => if empty {
                next == (CleaningModel { stage: CleaningStage::Removing, ..self })
            } else {
                next == self.looking_at(self.left.skip(1))
            },
            (CleaningStage::Removing, CleaningEvent::Removed) => next == self.looking_at(
                self.left.skip(1),
            ),
            _ => next == self,
        }
    }

    /// The files to be removed on an event.
    pub open spec fn removes(self, event: CleaningEvent) -> Seq<String> {
        match (self.stage, event) {
            (CleaningStage::Reading, CleaningEvent::Entries(entries)) => strays(
                entries@,
                self.artist,
            ),
            _ => seq![],
        }
    }

    /// Whether there is a folder to go on with, and it is not the root once
    /// folders are removed.
    pub open spec fn wf(self) -> bool {
        match self.stage {
            CleaningStage::Reading => self.pending.len() > 0,
            CleaningStage::Finished => true,
            _ => self.left.len() > 0 && self.left[0]@ != self.root,
        }
    }
}

/// The cleaning of an artist's folder.
#[derive(Debug)]
pub struct Cleaning {
    root: String,
    artist: String,
    stage: CleaningStage,
    pending: Vec<String>,
    read: Vec<String>,
    left: Vec<String>,
    next: usize,
    removed: usize,
}

proof fn lemma_strays_bound(entries: Seq<Entry>, artist: Seq<char>)
    ensures
        strays(entries, artist).len() <= entries.len(),
    decreases entries.len(),
{
    if entries.len() > 0 {
        lemma_strays_bound(entries.drop_last(), artist);
    }
}

impl Cleaning {
    /// The cleaning as it stands.
    pub closed spec fn view(self) -> CleaningModel {
        CleaningModel {
            root: self.root@,
            artist: self.artist@,
            stage: self.stage,
            pending: self.pending@,
            read: self.read@,
            left: self.left@.skip(self.next as int),
            removed: self.removed as nat,
        }
    }

    /// Whether the cleaning is in order.
    pub closed spec fn wf(self) -> bool {
        self.next <= self.left@.len() && self.view().wf()
    }

    /// A cleaning that has not begun.
    pub fn new(root: String, artist: String) -> (r: Cleaning)
        ensures
            r.wf(),
            r.view().root == root@,
            r.view().artist == artist@,
            r.view().stage == CleaningStage::Reading,
            r.view().pending.len() == 1,
            r.view().pending[0]@ == root@,
            r.view().read.len() == 0,
            r.view().left.len() == 0,
            r.view().removed == 0,
    {
        let mut pending: Vec<String> = Vec::new();
        pending.push(root.clone());
        Cleaning {
            root,
            artist,
            stage: CleaningStage::Reading,
            pending,
            read: Vec::new(),
            left: Vec::new(),
            next: 0,
            removed: 0,
        }
    }

    /// What to do next.
    pub fn step(&self) -> (r: CleaningStep)
        requires
            self.wf(),
        ensures
            match self.view().stage {
                CleaningStage::Reading => r matches CleaningStep::Read(dir) && dir@
                    == self.view().pending.last()@,
                CleaningStage::Looking => r matches CleaningStep::Look(dir) && dir@
                    == self.view().left[0]@,
                CleaningStage::Removing => r matches CleaningStep::Remove(dir) && dir@
                    == self.view().left[0]@,
                CleaningStage::Finished => r matches CleaningStep::Done(count) && count
                    == self.view().removed,
            },
    {
        match self.stage {
            CleaningStage::Reading => CleaningStep::Read(
                self.pending[self.pending.len() - 1].clone(),
            ),
            CleaningStage::Looking => CleaningStep::Look(self.left[self.next].clone()),
            CleaningStage::Removing => CleaningStep::Remove(self.left[self.next].clone()),
            CleaningStage::Finished => CleaningStep::Done(self.removed),
        }
    }

    /// Passes over the root among the folders that are left.
    fn pass_root(&mut self)
        requires
            old(self).next <= old(self).left@.len(),
        ensures
            final(self).wf(),
            final(self).view() == old(self).view().looking_at(old(self).view().left),
    {
        let ghost before = self.view();
        while self.next < self.left.len() && text::same_text(
            self.left[self.next].as_str(),
            self.root.as_str(),
        )
            invariant
                self.next <= self.left@.len(),
                before.root == self.root@,
                beyond_root(before.left, before.root) == beyond_root(
                    self.left@.skip(self.next as int),
                    before.root,
                ),
                self.view() == (CleaningModel {
                    left: self.left@.skip(self.next as int),
                    ..before
                }),
            decreases self.left@.len() - self.next,
        {
            proof {
                assert(self.left@.skip(self.next as int).skip(1) =~= self.left@.skip(
                    self.next as int + 1,
                ));
            }
            self.next = self.next + 1;
        }
        if self.next < self.left.len() {
            self.stage = CleaningStage::Looking;
        } else {
            self.stage = CleaningStage::Finished;
        }
        proof {
            assert(beyond_root(before.left, before.root) == self.left@.skip(self.next as int));
        }
    }

    /// Takes in what happened; the files to be removed.
    pub fn on_event(&mut self, event: CleaningEvent) -> (r: Vec<String>)
        requires
            old(self).wf(),
            event matches CleaningEvent::Entries(entries) ==> old(self).view().removed
                + entries@.len() <= usize::MAX,
        ensures
            final(self).wf(),
            old(self).view().leads_to(event, final(self).view()),
            r@ == old(self).view().removes(event),
    {
        let mut doomed: Vec<String> = Vec::new();
        match (self.stage, event) {
            (CleaningStage::Reading, CleaningEvent::Entries(entries)) => {
                let ghost before = self.view();
                let ghost all = entries@;
                if let Some(dir) = self.pending.pop() {
                    self.read.push(dir);
                }
                let ghost waiting = self.pending@;
                proof {
                    assert(waiting =~= before.pending.drop_last());
                    assert(all.take(0) =~= seq![]);
                    assert(waiting + folders(seq![]) =~= waiting);
                }
                for entry in it: entries.into_iter()
                    invariant
                        it.seq() == all,
                        self.view() == (CleaningModel {
                            pending: waiting + folders(all.take(it.index() as int)),
                            read: before.read.push(before.pending.last()),
                            ..before
                        }),
                        self.next <= self.left@.len(),
                        doomed@ == strays(all.take(it.index() as int), before.artist),
                {
                    let ghost k = it.index() as int;
                    proof {
                        assert(all.take(k + 1).drop_last() =~= all.take(k));
                        assert(all.take(k + 1).last() == entry);
                    }
                    if dedupe::should_remove(entry.path.as_str(), entry.kind, self.artist.as_str()) {
                        doomed.push(entry.path);
                        proof {
                            assert(waiting + folders(all.take(k + 1)) =~= self.pending@);
                        }
                    } else if entry.kind == EntryKind::Folder {
                        self.pending.push(entry.path);
                        proof {
                            assert(waiting + folders(all.take(k + 1)) =~= self.pending@);
                        }
                    }
                }
                proof {
                    assert(all.take(all.len() as int) =~= all);
                    lemma_strays_bound(all, before.artist);
                }
                self.removed = self.removed + doomed.len();
                proof {
                    assert(self.view() == before.with_entries(all));
                }
                if self.pending.len() == 0 {
                    let ghost after = self.view();
                    let mut read: Vec<String> = Vec::new();
                    let mut i: usize = 0;
                    while i < self.read.len()
                        invariant
                            i <= self.read@.len(),
                            read@ == self.read@.take(i as int),
                        decreases self.read@.len() - i,
                    {
                        read.push(self.read[i].clone());
                        i = i + 1;
                        proof {
                            assert(read@ =~= self.read@.take(i as int));
                        }
                    }
                    proof {
                        assert(read@ =~= self.read@);
                    }
                    let sorted = dedupe::deepest_first(read);
                    let ghost order = sorted@;
                    self.left = sorted;
                    self.next = 0;
                    proof {
                        assert(self.left@.skip(0) =~= order);
                        assert(is_deepest_first(after.read, order));
                    }
                    self.pass_root();
                    proof {
                        assert(self.view() == after.looking_at(order));
                    }
                }
            },
            (CleaningStage::Looking, CleaningEvent::Empty(empty)) => {
                if empty {
                    self.stage = CleaningStage::Removing;
                } else {
                    let ghost before = self.view();
                    assert(self.next < self.left.len());
                    self.next = self.next + 1;
                    proof {
                        assert(self.left@.skip(self.next as int) =~= before.left.skip(1));
                    }
                    self.pass_root();
                }
            },
            (CleaningStage::Removing, CleaningEvent::Removed) => {
                let ghost before = self.view();
                assert(self.next < self.left.len());
                self.next = self.next + 1;
                proof {
                    assert(self.left@.skip(self.next as int) =~= before.left.skip(1));
                }
                self.pass_root();
            },
            _ => {},
        }
        proof {
            assert(doomed@ =~= old(self).view().removes(event));
        }
        doomed
    }
}

/// Cleaning removes nothing but audio files that are not the artist's.
pub proof fn only_strays_are_removed(entries: Seq<Entry>, artist: Seq<char>, i: int)
    requires
        0 <= i < strays(entries, artist).len(),
    ensures
        exists|k: int|
            0 <= k < entries.len() && strays(entries, artist)[i] == (#[trigger] entries[k]).path
                && dedupe::is_stray(entries[k].path@, entries[k].kind, artist),
    decreases entries.len(),
{
    let before = strays(entries.drop_last(), artist);
    if i < before.len() {
        only_strays_are_removed(entries.drop_last(), artist, i);
        let k = choose|k: int|
            0 <= k < entries.drop_last().len() && before[i] == (#[trigger] entries.drop_last()[k]).path
                && dedupe::is_stray(
                entries.drop_last()[k].path@,
                entries.drop_last()[k].kind,
                artist,
            );
        assert(entries[k] == entries.drop_last()[k]);
    } else {
        assert(entries[entries.len() - 1] == entries.last());
    }
}

/// The folder that is cleaned is never removed itself.
pub proof fn the_root_stays(run: CleaningModel, event: CleaningEvent, next: CleaningModel)
    requires
        run.wf(),
        run.leads_to(event, next),
    ensures
        next.wf(),
        next.root == run.root,
        next.stage == CleaningStage::Removing ==> next.left[0]@ != next.root,
{
    match (run.stage, event) {
        (CleaningStage::Reading, CleaningEvent::Entries(entries)) => {
            let after = run.with_entries(entries@);
            if after.pending.len() == 0 {
                let sorted = choose|sorted: Seq<String>|
                    is_deepest_first(after.read, sorted) && next == #[trigger] after.looking_at(
                        sorted,
                    );
                lemma_beyond_root(sorted, run.root);
            }
        },
        _ => {
            if run.left.len() > 0 {
                lemma_beyond_root(run.left.skip(1), run.root);
            }
        },
    }
}

proof fn lemma_beyond_root(dirs: Seq<String>, root: Seq<char>)
    ensures
        beyond_root(dirs, root).len() > 0 ==> beyond_root(dirs, root)[0]@ != root,
    decreases dirs.len(),
{
    if dirs.len() > 0 && dirs[0]@ == root {
        lemma_beyond_root(dirs.skip(1), root);
    }
}

/// Every stray file of a folder is removed, and every folder in it is read in
/// turn: each entry is judged on its own, in the order in which they came.
pub proof fn every_entry_is_judged(entries: Seq<Entry>, entry: Entry, artist: Seq<char>)
    ensures
        strays(entries.push(entry), artist) == (if dedupe::is_stray(entry.path@, entry.kind, artist) {
            strays(entries, artist).push(entry.path)
        } else {
            strays(entries, artist)
        }),
        folders(entries.push(entry)) == (if entry.kind == EntryKind::Folder {
            folders(entries).push(entry.path)
        } else {
            folders(entries)
        }),
        strays(Seq::empty(), artist).len() == 0,
        folders(Seq::empty()).len() == 0,
{
    assert(entries.push(entry).drop_last() =~= entries);
}

/// Reading a folder takes it off the list, puts the folders in it on the list,
/// counts what was removed, and remembers it for the removal of empty folders.
pub proof fn folders_are_read_once(run: CleaningModel, entries: Vec<Entry>, next: CleaningModel)
    requires
        run.wf(),
        run.stage == CleaningStage::Reading,
        run.leads_to(CleaningEvent::Entries(entries), next),
    ensures
        run.removes(CleaningEvent::Entries(entries)) == strays(entries@, run.artist),
        next.removed == run.removed + strays(entries@, run.artist).len(),
        next.read == run.read.push(run.pending.last()),
        next.pending == run.pending.drop_last() + folders(entries@),
        next.artist == run.artist && next.root == run.root,
        next.stage == CleaningStage::Reading <==> next.pending.len() > 0,
{
    let after = run.with_entries(entries@);
    if after.pending.len() == 0 {
        let sorted = choose|sorted: Seq<String>|
            is_deepest_first(after.read, sorted) && next == #[trigger] after.looking_at(sorted);
    }
}

/// A folder is removed exactly where it is found empty. After that, and where it
/// is not empty, the next one is looked at, but for the artist's own folder.
pub proof fn empty_folders_alone_are_removed(run: CleaningModel, next: CleaningModel, empty: bool)
    requires
        run.wf(),
        run.stage == CleaningStage::Looking,
        run.leads_to(CleaningEvent::Empty(empty), next),
    ensures
        empty ==> next.stage == CleaningStage::Removing && next.left == run.left,
        !empty && run.left.len() == 1 ==> next.stage == CleaningStage::Finished,
        !empty && run.left.len() > 1 && run.left[1]@ != run.root ==> next.stage
            == CleaningStage::Looking && next.left == run.left.skip(1),
        !empty && run.left.len() == 2 && run.left[1]@ == run.root ==> next.stage
            == CleaningStage::Finished,
        next.removed == run.removed,
{
    let rest = run.left.skip(1);
    if run.left.len() == 2 && run.left[1]@ == run.root {
        assert(rest[0]@ == run.root);
        assert(rest.skip(1) =~= Seq::<String>::empty());
        assert(beyond_root(rest.skip(1), run.root).len() == 0);
    }
    if run.left.len() > 1 {
        assert(rest[0] == run.left[1]);
    }
}

/// Folders are looked at from the deepest up, so that a folder is empty by the
/// time it is looked at where all within it were removed.
pub proof fn folders_are_looked_at_from_the_deepest_up(
    dirs: Seq<String>,
    sorted: Seq<String>,
    i: int,
    j: int,
)
    requires
        is_deepest_first(dirs, sorted),
        0 <= i < j < dirs.len(),
        forall|k: int| 0 <= k < dirs.len() ==> dedupe::depth((#[trigger] dirs[k])@) <= u64::MAX,
    ensures
        sorted.len() == dirs.len(),
        dedupe::depth(sorted[i]@) >= dedupe::depth(sorted[j]@),
{
    let o = choose|o: Seq<usize>|
        #[trigger] order::is_stable_order(dedupe::depth_keys(dirs), o) && sorted
            == order::arranged(dirs, o);
    dedupe::deeper_folders_come_first(dirs, o, i, j);
}

} // verus!
