//! Cleaning an artist's folder and linking files with the same audio.

use vstd::prelude::*;

use crate::crypto;
use crate::files;
use crate::order;
use crate::order::SortRecord;
use crate::text;

verus! {

/// What an entry of a folder is.
#[derive(Debug, Clone, Copy, PartialEq, Eq, Structural)]
pub enum EntryKind {
    Folder,
    File,
    Other,
}

/// Which files a walk collects.
#[derive(Debug, Clone, Copy, PartialEq, Eq, Structural)]
pub enum Wanted {
    /// All audio files.
    Audio,
    /// The files that a station plays.
    Music,
}

/// Whether a walk collects a file.
pub open spec fn is_wanted(wanted: Wanted, path: Seq<char>) -> bool {
    match wanted {
        Wanted::Audio => files::audio_path(path),
        Wanted::Music => files::music_path(path),
    }
}

/// A walk through a folder and all below it that collects audio files.
pub struct AudioWalk {
    /// Which files are collected.
    pub wanted: Wanted,
    /// Folders still to be read.
    pub pending: Vec<String>,
    /// Audio files found so far.
    pub found: Vec<String>,
}

impl AudioWalk {
    /// A walk that starts at `root`.
    pub fn new(root: &str, wanted: Wanted) -> (r: AudioWalk)
        ensures
            r.wanted == wanted,
            r.pending@.len() == 1,
            r.pending@[0]@ == root@,
            r.found@.len() == 0,
    {
        let mut pending: Vec<String> = Vec::new();
        pending.push(root.to_owned());
        AudioWalk { wanted, pending, found: Vec::new() }
    }

    /// The folder to read next: the one that was seen last.
    pub fn next_folder(&mut self) -> (r: Option<String>)
        ensures
            final(self).wanted == old(self).wanted,
            final(self).found == old(self).found,
            match r {
                Some(dir) => old(self).pending@ == final(self).pending@.push(dir),
                None => old(self).pending@.len() == 0 && final(self).pending@.len() == 0,
            },
    {
        let ghost before = self.pending@;
        let r = self.pending.pop();
        proof {
            if r is Some {
                assert(before =~= self.pending@.push(r->0));
            }
        }
        r
    }

    /// Takes one entry of a folder: folders are kept for reading, the files
    /// that are wanted are collected.
    pub fn on_entry(&mut self, path: String, kind: EntryKind)
        ensures
            final(self).wanted == old(self).wanted,
            match kind {
                EntryKind::Folder => final(self).pending@ == old(self).pending@.push(path)
                    && final(self).found == old(self).found,
                EntryKind::File => final(self).pending == old(self).pending && final(self).found@
                    == (if is_wanted(old(self).wanted, path@) {
                    old(self).found@.push(path)
                } else {
                    old(self).found@
                }),
                EntryKind::Other => *final(self) == *old(self),
            },
    {
        match kind {
            EntryKind::Folder => {
                self.pending.push(path);
            },
            EntryKind::File => {
                let wanted = match self.wanted {
                    Wanted::Audio => files::is_audio_file(path.as_str()),
                    Wanted::Music => files::is_music_file(path.as_str()),
                };
                if wanted {
                    self.found.push(path);
                }
            },
            EntryKind::Other => {},
        }
    }
}

/// Whether a file does not belong in an artist's folder: an audio file whose
/// name does not begin with the artist's.
pub open spec fn is_stray(path: Seq<char>, kind: EntryKind, artist: Seq<char>) -> bool {
    kind == EntryKind::File && files::audio_path(path) && !text::stands_at(
        files::file_name(path)->0,
        files::sanitized(artist) + " - "@,
        0,
    )
}

/// Whether a file is to be removed from an artist's folder.
pub fn should_remove(path: &str, kind: EntryKind, artist: &str) -> (r: bool)
    ensures
        r == is_stray(path@, kind, artist@),
{
    if kind != EntryKind::File || !files::is_audio_file(path) {
        return false;
    }
    let mut prefix = files::sanitize_filename(artist);
    prefix.append(" - ");
    match files::file_name_of(path) {
        Some(name) => !text::starts_with(name.as_str(), prefix.as_str()),
        None => false,
    }
}

/// How many parts a path has: its leading slash, or a leading dot, counts as
/// one.
pub open spec fn depth(path: Seq<char>) -> nat {
    (if path.len() > 0 && path[0] == '/' {
        1nat
    } else if path.len() > 0 && path[0] == '.' && (path.len() == 1 || path[1] == '/') {
        1nat
    } else {
        0nat
    }) + named_parts(path, path.len())
}

/// Whether a part of a path ends right before `end`: behind it the path ends or
/// has a slash, and it is more than a single dot.
pub open spec fn part_ends(path: Seq<char>, end: nat) -> bool {
    &&& 0 < end <= path.len()
    &&& path[end - 1] != '/'
    &&& end == path.len() || path[end as int] == '/'
    &&& !(path[end - 1] == '.' && (end == 1 || path[end - 2] == '/'))
}

/// How many parts of a path end within its first `upto` characters.
pub open spec fn named_parts(path: Seq<char>, upto: nat) -> nat
    decreases upto,
{
    if upto == 0 {
        0
    } else {
        named_parts(path, (upto - 1) as nat) + (if part_ends(path, upto) {
            1nat
        } else {
            0nat
        })
    }
}

fn depth_of(path: &str) -> (r: u64)
    ensures
        r == depth(path@),
{
    let chars = text::chars_of(path);
    let total: usize = chars.len();
    let mut count: u64 = 0;
    let mut end: usize = 0;
    while end < total
        invariant
            chars@ == path@,
            total == chars@.len(),
            end <= total,
            count == named_parts(path@, end as nat),
            count <= end,
        decreases total - end,
    {
        end = end + 1;
        if chars[end - 1] != '/' && (end == total || chars[end] == '/') && !(chars[end - 1] == '.'
            && (end == 1 || chars[end - 2] == '/')) {
            count = count + 1;
        }
    }
    if total > 0 && chars[0] == '/' {
        proof {
            lemma_root_is_no_part(path@, total as nat);
        }
        return count + 1;
    }
    if total > 0 && chars[0] == '.' && (total == 1 || chars[1] == '/') {
        proof {
            lemma_root_is_no_part(path@, total as nat);
        }
        return count + 1;
    }
    count
}

proof fn lemma_root_is_no_part(path: Seq<char>, upto: nat)
    requires
        path.len() > 0,
        path[0] == '/' || (path[0] == '.' && (path.len() == 1 || path[1] == '/')),
        0 < upto <= path.len(),
    ensures
        named_parts(path, upto) < upto,
    decreases upto,
{
    if upto > 1 {
        lemma_root_is_no_part(path, (upto - 1) as nat);
    } else {
        assert(named_parts(path, 0) == 0);
    }
}

/// The keys by which folders sort for removal.
pub open spec fn depth_keys(dirs: Seq<String>) -> Seq<order::KeyModel> {
    dirs.map_values(|d: String| order::number_key((u64::MAX - depth(d@)) as nat))
}

/// Folders in the order in which empty ones are removed: the deepest first.
pub fn deepest_first(dirs: Vec<String>) -> (r: Vec<String>)
    ensures
        exists|o: Seq<usize>|
            #[trigger] order::is_stable_order(depth_keys(dirs@), o) && r@ == order::arranged(
                dirs@,
                o,
            ),
{
    let ghost wanted = depth_keys(dirs@);
    let mut keys: Vec<SortRecord> = Vec::new();
    let mut i: usize = 0;
    while i < dirs.len()
        invariant
            i <= dirs@.len(),
            wanted == depth_keys(dirs@),
            order::keys_model(keys@) == wanted.take(i as int),
        decreases dirs@.len() - i,
    {
        let ghost before = keys@;
        let depth: u64 = depth_of(dirs[i].as_str());
        let record = SortRecord {
            primary: (u64::MAX - depth) as u128,
            artist: Vec::new(),
            title: Vec::new(),
            id: Vec::new(),
        };
        proof {
            assert(record.artist@ =~= Seq::<char>::empty());
            assert(record.title@ =~= Seq::<char>::empty());
            assert(record.id@ =~= Seq::<char>::empty());
        }
        keys.push(record);
        i = i + 1;
        proof {
            assert(order::keys_model(keys@) =~= order::keys_model(before).push(record.model()));
            assert(order::keys_model(keys@) =~= wanted.take(i as int));
        }
    }
    proof {
        assert(wanted.take(i as int) =~= wanted);
    }
    let sequence = order::stable_order(&keys);
    order::arrange(dirs, &keys, &sequence)
}

/// Audio files by the hash of their contents: the first file with each hash.
pub struct HashIndex {
    entries: Vec<(String, String)>,
}

/// The known files after one more file with this hash.
pub open spec fn remembered(
    index: Map<Seq<char>, Seq<char>>,
    hash: Seq<char>,
    path: Seq<char>,
) -> Map<Seq<char>, Seq<char>> {
    if index.dom().contains(hash) {
        index
    } else {
        index.insert(hash, path)
    }
}

/// The file that one more file with this hash is linked to, if it is.
pub open spec fn linked_to(
    index: Map<Seq<char>, Seq<char>>,
    hash: Seq<char>,
    path: Seq<char>,
) -> Option<Seq<char>> {
    if index.dom().contains(hash) && !files::same_path(index[hash], path) {
        Some(index[hash])
    } else {
        None
    }
}

/// What to do with an audio file.
#[derive(Debug, PartialEq)]
pub enum DedupeStep {
    /// Its audio is new, or it is the file that is known already.
    Keep,
    /// It is to become a link to this file, which has the same audio.
    LinkTo(String),
}

impl HashIndex {
    spec fn has(self, hash: Seq<char>, i: int) -> bool {
        0 <= i < self.entries@.len() && self.entries@[i].0@ == hash
    }

    /// Different entries have different hashes.
    pub closed spec fn wf(self) -> bool {
        forall|i: int, j: int|
            0 <= i < j < self.entries@.len() ==> (#[trigger] self.entries@[i]).0@ != (
            #[trigger] self.entries@[j]).0@
    }

    /// The known files by their hashes.
    pub closed spec fn view(self) -> Map<Seq<char>, Seq<char>> {
        Map::new(
            |hash: Seq<char>| exists|i: int| self.has(hash, i),
            |hash: Seq<char>| self.entries@[choose|i: int| self.has(hash, i)].1@,
        )
    }

    /// No files.
    pub fn new() -> (r: HashIndex)
        ensures
            r.wf(),
            r.view() == Map::<Seq<char>, Seq<char>>::empty(),
    {
        let r = HashIndex { entries: Vec::new() };
        proof {
            assert(r.view() =~= Map::<Seq<char>, Seq<char>>::empty());
        }
        r
    }

    /// Decides on an audio file with these contents: the first file with some
    /// audio is kept and remembered, any other one becomes a link to it.
    pub fn dedupe_audio_file(&mut self, path: &str, data: &[u8]) -> (r: DedupeStep)
        requires
            old(self).wf(),
        ensures
            final(self).wf(),
            final(self).view() == remembered(old(self).view(), crypto::md5_text(data@), path@),
            match linked_to(old(self).view(), crypto::md5_text(data@), path@) {
                Some(existing) => r matches DedupeStep::LinkTo(to) && to@ == existing,
                None => r is Keep,
            },
    {
        let hash = crypto::md5_hex(data);
        let ghost key = hash@;
        let ghost before = *self;
        let mut i: usize = 0;
        while i < self.entries.len()
            invariant
                *self == before,
                *old(self) == before,
                before.wf(),
                hash@ == key,
                key == crypto::md5_text(data@),
                i <= self.entries@.len(),
                forall|k: int| 0 <= k < i ==> (#[trigger] self.entries@[k]).0@ != key,
            decreases self.entries@.len() - i,
        {
            if text::same_text(self.entries[i].0.as_str(), hash.as_str()) {
                proof {
                    assert(self.has(key, i as int));
                    assert forall|k: int| self.has(key, k) implies k == i by {}
                }
                if files::is_same_path(self.entries[i].1.as_str(), path) {
                    return DedupeStep::Keep;
                }
                return DedupeStep::LinkTo(self.entries[i].1.clone());
            }
            i = i + 1;
        }
        self.entries.push((hash, path.to_owned()));
        proof {
            let last = self.entries@.len() - 1;
            assert(self.has(key, last));
            assert(!(exists|k: int| before.has(key, k)));
            assert forall|k: Seq<char>|
                self.view().dom().contains(k) <==> before.view().insert(
                    key,
                    path@,
                ).dom().contains(k) by {
                if exists|j: int| self.has(k, j) {
                    let j = choose|j: int| self.has(k, j);
                    if j < last {
                        assert(before.has(k, j));
                    }
                }
                if exists|j: int| before.has(k, j) {
                    let j = choose|j: int| before.has(k, j);
                    assert(self.has(k, j));
                }
            }
            assert forall|k: Seq<char>| #[trigger] self.view().dom().contains(k) implies self.view()[k]
                == before.view().insert(key, path@)[k] by {
                let j = choose|j: int| self.has(k, j);
                if k == key {
                    assert(j == last);
                } else {
                    assert(before.has(k, j));
                    let b = choose|b: int| before.has(k, b);
                    assert(b == j);
                }
            }
            assert(self.view() =~= before.view().insert(key, path@));
        }
        DedupeStep::Keep
    }
}

/// The name under which a duplicate is set aside, for the `attempt`-th try.
pub open spec fn temp_file(name: Seq<char>, attempt: nat) -> Seq<char> {
    if attempt == 0 {
        name + ".dedupe-tmp"@
    } else {
        name + ".dedupe-tmp-"@ + text::decimal(attempt)
    }
}

/// The name under which a duplicate is set aside while it is replaced, for the
/// `attempt`-th try: names that are taken are passed over.
pub fn temp_file_name(target: &str, attempt: u64) -> (r: String)
    ensures
        r@ == temp_file(
            match files::file_name(target@) {
                Some(name) => name,
                None => "duplicate"@,
            },
            attempt as nat,
        ),
{
    let mut s = match files::file_name_of(target) {
        Some(name) => name,
        None => "duplicate".to_owned(),
    };
    if attempt == 0 {
        s.append(".dedupe-tmp");
    } else {
        s.append(".dedupe-tmp-");
        s.append(text::decimal_text(attempt).as_str());
    }
    s
}

/// A file that was kept is kept again: going over a folder twice links nothing
/// that was not linked before.
pub proof fn kept_files_stay_kept(
    index: Map<Seq<char>, Seq<char>>,
    hash: Seq<char>,
    path: Seq<char>,
)
    requires
        linked_to(index, hash, path) is None,
    ensures
        linked_to(remembered(index, hash, path), hash, path) is None,
        remembered(remembered(index, hash, path), hash, path) == remembered(index, hash, path),
{
}

/// Every later file with the same audio is linked to the first one, whatever
/// other files came between, unless its path leads to the first one.
pub proof fn duplicates_link_to_the_first(
    index: Map<Seq<char>, Seq<char>>,
    hash: Seq<char>,
    first: Seq<char>,
    other_hash: Seq<char>,
    other: Seq<char>,
    later: Seq<char>,
)
    requires
        !index.dom().contains(hash),
        !files::same_path(first, later),
    ensures
        linked_to(
            remembered(remembered(index, hash, first), other_hash, other),
            hash,
            later,
        ) == Some(first),
{
}

/// Names for different attempts differ, so the search for a free one ends.
pub proof fn temp_names_differ(name: Seq<char>, a: nat, b: nat)
    requires
        a != b,
        a > 0,
        b > 0,
    ensures
        temp_file(name, a) != temp_file(name, b),
{
    if temp_file(name, a) == temp_file(name, b) {
        let head = name + ".dedupe-tmp-"@;
        assert((head + text::decimal(a)).skip(head.len() as int) =~= text::decimal(a));
        assert((head + text::decimal(b)).skip(head.len() as int) =~= text::decimal(b));
        text::decimal_reads_back(a, a + b);
        text::decimal_reads_back(b, a + b);
    }
}

/// In the order of removal a folder never comes before a deeper one.
pub proof fn deeper_folders_come_first(dirs: Seq<String>, order: Seq<usize>, i: int, j: int)
    requires
        order::is_stable_order(depth_keys(dirs), order),
        0 <= i < j < dirs.len(),
        forall|k: int| 0 <= k < dirs.len() ==> depth((#[trigger] dirs[k])@) <= u64::MAX,
    ensures
        depth(order::arranged(dirs, order)[i]@) >= depth(order::arranged(dirs, order)[j]@),
{
    let keys = depth_keys(dirs);
    assert(order::goes_before(keys, order[i] as int, order[j] as int));
    let a = dirs[order[i] as int];
    let b = dirs[order[j] as int];
    assert(keys[order[i] as int] == order::number_key((u64::MAX - depth(a@)) as nat));
    assert(keys[order[j] as int] == order::number_key((u64::MAX - depth(b@)) as nat));
}

/// Only audio files are strays, and only those whose name does not begin with the
/// artist, made fit for a file, and a dash.
pub proof fn strays_are_audio_of_others(
    path: Seq<char>,
    kind: EntryKind,
    artist: Seq<char>,
    name: Seq<char>,
    rest: Seq<char>,
)
    ensures
        kind != EntryKind::File ==> !is_stray(path, kind, artist),
        !files::audio_path(path) ==> !is_stray(path, kind, artist),
        files::file_name(path) == Some(files::sanitized(artist) + " - "@ + rest) ==> !is_stray(
            path,
            kind,
            artist,
        ),
        kind == EntryKind::File && files::audio_path(path) && files::file_name(path) == Some(name)
            && !((files::sanitized(artist) + " - "@).is_prefix_of(name)) ==> is_stray(
            path,
            kind,
            artist,
        ),
{
    let prefix = files::sanitized(artist) + " - "@;
    if files::file_name(path) == Some(prefix + rest) {
        assert((prefix + rest).subrange(0, prefix.len() as int) =~= prefix);
    }
    if files::file_name(path) == Some(name) && text::stands_at(name, prefix, 0) {
        assert(prefix.is_prefix_of(name)) by {
            assert(name.subrange(0, prefix.len() as int) == prefix);
        }
    }
}

/// A folder lies one deeper than the folder that it lies in.
pub proof fn folders_lie_deeper_than_their_parents(path: Seq<char>, name: Seq<char>)
    requires
        path.len() > 0,
        path.last() != '/',
        name.len() > 0,
        !name.contains('/'),
        name != seq!['.'],
    ensures
        depth(path + seq!['/'] + name) == depth(path) + 1,
{
    let whole = path + seq!['/'] + name;
    let n = path.len();
    assert(whole.take(n as int) =~= path);
    if name.len() == 1 {
        assert(name =~= seq![name[0]]);
    }
    lemma_parts_of_the_front(path, whole, n);
    assert(whole[n as int] == '/');
    assert(!part_ends(whole, n + 1));
    assert(named_parts(whole, n + 1) == named_parts(whole, n));
    assert forall|i: int| 0 <= i < name.len() implies name[i] != '/' by {
        if name[i] == '/' {
            assert(name.contains(name[i]));
        }
    }
    lemma_parts_of_the_name(whole, name, n + 1, name.len());
}

proof fn lemma_parts_of_the_front(path: Seq<char>, whole: Seq<char>, upto: nat)
    requires
        upto <= path.len() < whole.len(),
        whole.take(path.len() as int) == path,
        whole[path.len() as int] == '/',
    ensures
        named_parts(whole, upto) == named_parts(path, upto),
    decreases upto,
{
    if upto > 0 {
        lemma_parts_of_the_front(path, whole, (upto - 1) as nat);
        let front = whole.take(path.len() as int);
        assert(front[upto - 1] == whole[upto - 1]);
        if upto >= 2 {
            assert(front[upto - 2] == whole[upto - 2]);
        }
        if upto < path.len() {
            assert(front[upto as int] == whole[upto as int]);
        }
    }
}

proof fn lemma_parts_of_the_name(whole: Seq<char>, name: Seq<char>, from: nat, count: nat)
    requires
        count <= name.len(),
        from > 0,
        whole.len() == from + name.len(),
        whole[from - 1] == '/',
        forall|i: int| 0 <= i < name.len() ==> whole[from + i] == name[i] && #[trigger] name[i] != '/',
        name.len() > 0,
        name.len() == 1 ==> name[0] != '.',
    ensures
        named_parts(whole, from + count) == named_parts(whole, from) + (if count == name.len() {
            1nat
        } else {
            0nat
        }),
    decreases count,
{
    if count > 0 {
        lemma_parts_of_the_name(whole, name, from, (count - 1) as nat);
        let end = from + count;
        assert(whole[end - 1] == name[count - 1]);
        if count < name.len() {
            assert(whole[end as int] == name[count as int]);
        }
        if count >= 2 {
            assert(whole[end - 2] == name[count - 2]);
        }
    }
}

} // verus!
