//! What plays next: shuffled queues that refresh themselves and do not repeat
//! what played a moment ago.

use std::collections::VecDeque;

use rand::seq::SliceRandom;
use vstd::prelude::*;

use crate::files;
use crate::json;
use crate::models::GwTrack;
use crate::text;

verus! {

/// How many of the last items a refreshed queue does not open with.
pub const RECENT_WINDOW: usize = 3;

/// Why there is no next item.
#[derive(Debug, PartialEq)]
pub enum NextTrackError {
    /// There is nothing to play.
    Empty,
    /// Fetching failed and nothing is cached.
    Fetch(String),
}

/// `rand::seq::SliceRandom::shuffle` with the thread's generator: rearranges
/// the items at random. Which arrangement comes out is left to chance; it holds
/// the same items, each as often as before.
#[verifier::external_body]
pub(crate) fn shuffle<T>(items: &mut Vec<T>)
    ensures
        final(items)@.to_multiset() == old(items)@.to_multiset(),
{
    items.shuffle(&mut rand::rng());
}

/// Something that plays, recognised by a tag.
pub trait Playable: Sized {
    /// What the item is recognised by.
    spec fn tag(self) -> Seq<char>;

    /// What the item is recognised by.
    fn tag_text(&self) -> (r: String)
        ensures
            r@ == self.tag(),
    ;
}

impl Playable for GwTrack {
    open spec fn tag(self) -> Seq<char> {
        self.id_view()
    }

    fn tag_text(&self) -> (r: String) {
        self.id_str()
    }
}

/// An audio file, recognised by its path.
#[derive(Debug, PartialEq)]
pub struct LocalFile {
    pub path: String,
}

impl Playable for LocalFile {
    open spec fn tag(self) -> Seq<char> {
        self.path@
    }

    fn tag_text(&self) -> (r: String) {
        self.path.clone()
    }
}

/// The tags of a list of items.
pub open spec fn tags<T: Playable>(items: Seq<T>) -> Seq<Seq<char>> {
    items.map_values(|t: T| t.tag())
}

/// The first position from `from` on whose tag is not recent.
pub open spec fn first_fresh(tags: Seq<Seq<char>>, recent: Seq<Seq<char>>, from: int) -> Option<int>
    decreases tags.len() - from,
{
    if from < 0 || from >= tags.len() {
        None
    } else if !recent.contains(tags[from]) {
        Some(from)
    } else {
        first_fresh(tags, recent, from + 1)
    }
}

/// A list with its first item and the one at `i` exchanged.
pub open spec fn exchanged<T>(items: Seq<T>, i: int) -> Seq<T> {
    items.update(0, items[i]).update(i, items[0])
}

/// A list that does not open with a recent item, as far as it holds another:
/// a recent first item changes places with the first that is not.
pub open spec fn guarded<T: Playable>(items: Seq<T>, recent: Seq<Seq<char>>) -> Seq<T> {
    match first_fresh(tags(items), recent, 0) {
        Some(i) => exchanged(items, i),
        None => items,
    }
}

proof fn lemma_first_fresh(tags: Seq<Seq<char>>, recent: Seq<Seq<char>>, from: int)
    requires
        0 <= from <= tags.len(),
    ensures
        match first_fresh(tags, recent, from) {
            Some(i) => from <= i < tags.len() && !recent.contains(tags[i]) && (forall|k: int|
                from <= k < i ==> recent.contains(#[trigger] tags[k])),
            None => forall|k: int| from <= k < tags.len() ==> recent.contains(#[trigger] tags[k]),
        },
    decreases tags.len() - from,
{
    if from < tags.len() && recent.contains(tags[from]) {
        lemma_first_fresh(tags, recent, from + 1);
    }
}

fn is_recent(recent: &VecDeque<String>, tag: &String) -> (r: bool)
    ensures
        r == text::texts(recent@).contains(tag@),
{
    let mut i: usize = 0;
    while i < recent.len()
        invariant
            i <= recent@.len(),
            forall|k: int| 0 <= k < i ==> text::texts(recent@)[k] != tag@,
        decreases recent@.len() - i,
    {
        assert(text::texts(recent@)[i as int] == recent@[i as int]@);
        if recent[i] == *tag {
            return true;
        }
        i = i + 1;
    }
    proof {
        assert forall|k: int| 0 <= k < text::texts(recent@).len() implies text::texts(recent@)[k] != tag@ by {}
    }
    false
}

/// Exchanges the first item with the one at `i`.
fn exchange<T>(items: &mut Vec<T>, i: usize)
    requires
        i < old(items)@.len(),
    ensures
        final(items)@ == exchanged(old(items)@, i as int),
{
    let ghost before = items@;
    if i > 0 {
        let x = items.remove(i);
        items.insert(0, x);
        let y = items.remove(1);
        items.insert(i, y);
    }
    proof {
        assert(items@ =~= exchanged(before, i as int));
    }
}

fn guard<T: Playable>(items: &mut Vec<T>, recent: &VecDeque<String>)
    ensures
        final(items)@ == guarded(old(items)@, text::texts(recent@)),
{
    let ghost all = tags(items@);
    let ghost seen = text::texts(recent@);
    let mut i: usize = 0;
    while i < items.len()
        invariant
            items@ == old(items)@,
            i <= items@.len(),
            all == tags(items@),
            seen == text::texts(recent@),
            first_fresh(all, seen, 0) == first_fresh(all, seen, i as int),
        decreases items@.len() - i,
    {
        let tag = items[i].tag_text();
        if !is_recent(recent, &tag) {
            exchange(items, i);
            return;
        }
        i = i + 1;
    }
}

/// Keeps a shuffled list of tracks from opening with a recent one.
pub fn avoid_recent_repeat(tracks: &mut Vec<GwTrack>, recent: &VecDeque<String>)
    ensures
        final(tracks)@ == guarded(old(tracks)@, text::texts(recent@)),
{
    guard(tracks, recent);
}

/// Keeps a shuffled list of files from opening with a recent one.
pub fn avoid_recent_repeat_paths(files: &mut Vec<LocalFile>, recent: &VecDeque<String>)
    ensures
        final(files)@ == guarded(old(files)@, text::texts(recent@)),
{
    guard(files, recent);
}

/// A queue that is walked in order and filled again from time to time.
pub struct Rotation<T> {
    items: VecDeque<T>,
    last_fill: Option<u128>,
    recent: VecDeque<String>,
}

/// What a rotation holds: the items to come, when it was filled (in nanoseconds
/// on a monotonic clock), and the tags of the last items that left it.
pub struct RotationModel<T> {
    pub items: Seq<T>,
    pub last_fill: Option<nat>,
    pub recent: Seq<Seq<char>>,
}

/// A rotation that was never filled.
pub open spec fn empty_rotation<T>() -> RotationModel<T> {
    RotationModel { items: Seq::empty(), last_fill: None, recent: Seq::empty() }
}

/// Whether a rotation is due for filling by its age.
pub open spec fn is_stale<T>(m: RotationModel<T>, now: nat, refresh: nat) -> bool {
    match m.last_fill {
        None => true,
        Some(at) => (if now > at {
            now - at
        } else {
            0
        }) >= refresh,
    }
}

/// Whether a rotation is due for filling: it is empty or stale.
pub open spec fn is_due<T>(m: RotationModel<T>, now: nat, refresh: nat) -> bool {
    m.items.len() == 0 || is_stale(m, now, refresh)
}

/// The recent tags after one more item left.
pub open spec fn recent_after(recent: Seq<Seq<char>>, tag: Seq<char>) -> Seq<Seq<char>> {
    if recent.len() >= 3 {
        recent.push(tag).skip(1)
    } else {
        recent.push(tag)
    }
}

/// A rotation after its first item left.
pub open spec fn advanced<T: Playable>(m: RotationModel<T>) -> RotationModel<T> {
    RotationModel {
        items: m.items.skip(1),
        last_fill: m.last_fill,
        recent: recent_after(m.recent, m.items[0].tag()),
    }
}

/// A rotation filled with a shuffled list.
pub open spec fn filled<T: Playable>(m: RotationModel<T>, shuffled: Seq<T>, now: nat) -> RotationModel<
    T,
> {
    RotationModel {
        items: guarded(shuffled, m.recent),
        last_fill: Some(now),
        recent: m.recent,
    }
}

/// A rotation after a fetch: a list that is not empty fills it where it is due,
/// and everything else leaves it as it is.
pub open spec fn refreshed<T: Playable>(
    m: RotationModel<T>,
    fetched: Result<Seq<T>, Seq<char>>,
    now: nat,
    refresh: nat,
) -> RotationModel<T> {
    match fetched {
        Ok(shuffled) => if shuffled.len() > 0 && is_due(m, now, refresh) {
            filled(m, shuffled, now)
        } else {
            m
        },
        Err(_) => m,
    }
}

/// What comes next.
#[derive(Debug, PartialEq)]
pub enum Next<T> {
    /// This item plays; a failed fetch that the cache made up for is reported.
    Play(T, Option<String>),
    /// The list has to be fetched first.
    Fetch,
    /// Nothing plays.
    Fail(NextTrackError),
}

impl<T: Playable> Rotation<T> {
    /// At most the last few tags are remembered.
    pub closed spec fn wf(self) -> bool {
        self.recent@.len() <= RECENT_WINDOW
    }

    /// What the rotation holds.
    pub closed spec fn view(self) -> RotationModel<T> {
        RotationModel {
            items: self.items@,
            last_fill: match self.last_fill {
                Some(at) => Some(at as nat),
                None => None,
            },
            recent: text::texts(self.recent@),
        }
    }

    /// A rotation that was never filled.
    pub fn new() -> (r: Rotation<T>)
        ensures
            r.wf(),
            r.view() == empty_rotation::<T>(),
    {
        let r = Rotation { items: VecDeque::new(), last_fill: None, recent: VecDeque::new() };
        proof {
            assert(r.view().items =~= Seq::empty());
            assert(r.view().recent =~= Seq::empty());
        }
        r
    }

    fn due(&self, now: u128, refresh: u128) -> (r: bool)
        ensures
            r == is_due(self.view(), now as nat, refresh as nat),
    {
        if self.items.len() == 0 {
            return true;
        }
        match self.last_fill {
            None => true,
            Some(at) => {
                let elapsed: u128 = if now > at {
                    now - at
                } else {
                    0
                };
                elapsed >= refresh
            },
        }
    }

    fn advance(&mut self) -> (r: Option<T>)
        requires
            old(self).wf(),
        ensures
            final(self).wf(),
            match r {
                Some(item) => old(self).view().items.len() > 0 && item == old(self).view().items[0]
                    && final(self).view() == advanced(old(self).view()),
                None => old(self).view().items.len() == 0 && final(self).view() == old(self).view(),
            },
    {
        let ghost before = self.view();
        let ghost had = self.recent@;
        match self.items.pop_front() {
            Some(item) => {
                let tag = item.tag_text();
                self.recent.push_back(tag);
                proof {
                    assert(text::texts(self.recent@) =~= before.recent.push(item.tag()));
                }
                if self.recent.len() > RECENT_WINDOW {
                    let dropped = self.recent.pop_front();
                    proof {
                        assert(text::texts(self.recent@) =~= before.recent.push(item.tag()).skip(1));
                    }
                }
                proof {
                    assert(self.view().items =~= before.items.skip(1));
                    assert(self.view().recent =~= advanced(before).recent);
                }
                Some(item)
            },
            None => None,
        }
    }

    fn fill(&mut self, shuffled: Vec<T>, now: u128)
        requires
            old(self).wf(),
        ensures
            final(self).wf(),
            final(self).view() == filled(old(self).view(), shuffled@, now as nat),
    {
        let ghost recent = text::texts(self.recent@);
        let mut items = shuffled;
        guard(&mut items, &self.recent);
        let ghost all = items@;
        let mut queue: VecDeque<T> = VecDeque::new();
        for item in it: items.into_iter()
            invariant
                it.seq() == all,
                queue@ == all.take(it.index() as int),
        {
            queue.push_back(item);
            proof {
                assert(queue@ =~= all.take(it.index() as int + 1));
            }
        }
        proof {
            assert(all.take(all.len() as int) =~= all);
        }
        self.items = queue;
        self.last_fill = Some(now);
        proof {
            assert(self.view().recent =~= recent);
        }
    }

    /// The next item, where the rotation is not due for filling.
    pub fn next_ready(&mut self, now: u128, refresh: u128) -> (r: Option<T>)
        requires
            old(self).wf(),
        ensures
            final(self).wf(),
            match r {
                Some(item) => !is_due(old(self).view(), now as nat, refresh as nat) && item == old(
                    self,
                ).view().items[0] && final(self).view() == advanced(old(self).view()),
                None => is_due(old(self).view(), now as nat, refresh as nat) && final(self).view()
                    == old(self).view(),
            },
    {
        if self.due(now, refresh) {
            return None;
        }
        self.advance()
    }

    /// The next item after a fetch whose list, where there is one, was shuffled:
    /// a failed fetch counts only where nothing is cached.
    pub fn next_shuffled(
        &mut self,
        fetched: Result<Vec<T>, String>,
        now: u128,
        refresh: u128,
    ) -> (r: Next<T>)
        requires
            old(self).wf(),
        ensures
            final(self).wf(),
            is_next(old(self).view(), final(self).view(), fetched_view(fetched), now as nat, refresh as nat, r),
    {
        let ghost before = self.view();
        let ghost given = fetched_view(fetched);
        let mut warning: Option<String> = None;
        match fetched {
            Ok(list) => {
                if list.len() > 0 && self.due(now, refresh) {
                    self.fill(list, now);
                }
            },
            Err(message) => {
                if self.items.len() == 0 {
                    return Next::Fail(NextTrackError::Fetch(message));
                }
                warning = Some(message);
            },
        }
        proof {
            assert(self.view() == refreshed(before, given, now as nat, refresh as nat));
            if let Ok(list) = given {
                lemma_first_fresh(tags(list), before.recent, 0);
                assert(guarded(list, before.recent).len() == list.len());
            }
        }
        match self.advance() {
            Some(item) => Next::Play(item, warning),
            None => Next::Fail(NextTrackError::Empty),
        }
    }
}

/// A fetch without the representation of its message.
pub open spec fn fetched_view<T>(fetched: Result<Vec<T>, String>) -> Result<Seq<T>, Seq<char>> {
    match fetched {
        Ok(list) => Ok(list@),
        Err(message) => Err(message@),
    }
}

/// Whether `next` and `after` are what follows a fetch: the rotation is
/// refreshed and its first item plays.
pub open spec fn is_next<T: Playable>(
    before: RotationModel<T>,
    after: RotationModel<T>,
    fetched: Result<Seq<T>, Seq<char>>,
    now: nat,
    refresh: nat,
    next: Next<T>,
) -> bool {
    let ready = refreshed(before, fetched, now, refresh);
    if ready.items.len() > 0 {
        &&& next matches Next::Play(item, warning)
        &&& item == ready.items[0]
        &&& after == advanced(ready)
        &&& json::text_view(warning) == (match fetched {
            Ok(_) => None,
            Err(message) => Some(message),
        })
    } else {
        &&& after == before
        &&& match fetched {
            Ok(_) => next == Next::<T>::Fail(NextTrackError::Empty),
            Err(message) => next matches Next::Fail(NextTrackError::Fetch(m)) && m@ == message,
        }
    }
}

/// Whether a fetch is another one with its list rearranged.
pub open spec fn is_shuffled<T>(
    fetched: Result<Seq<T>, Seq<char>>,
    shuffled: Result<Seq<T>, Seq<char>>,
) -> bool {
    match (fetched, shuffled) {
        (Ok(a), Ok(b)) => a.to_multiset() == b.to_multiset(),
        (Err(a), Err(b)) => a == b,
        _ => false,
    }
}

fn shuffled_fetch<T>(fetched: Result<Vec<T>, String>) -> (r: Result<Vec<T>, String>)
    ensures
        is_shuffled(fetched_view(fetched), fetched_view(r)),
{
    match fetched {
        Ok(list) => {
            let mut list = list;
            shuffle(&mut list);
            Ok(list)
        },
        Err(message) => Err(message),
    }
}

/// The queues of all playlists that were asked for.
pub struct TrackQueue {
    refresh: u128,
    queues: Vec<(String, Rotation<GwTrack>)>,
}

impl TrackQueue {
    spec fn has(self, playlist: Seq<char>, i: int) -> bool {
        0 <= i < self.queues@.len() && self.queues@[i].0@ == playlist
    }

    /// Different entries are of different playlists, and each is in order.
    pub closed spec fn wf(self) -> bool {
        &&& forall|i: int, j: int|
            0 <= i < j < self.queues@.len() ==> (#[trigger] self.queues@[i]).0@ != (
            #[trigger] self.queues@[j]).0@
        &&& forall|i: int| 0 <= i < self.queues@.len() ==> (#[trigger] self.queues@[i]).1.wf()
    }

    /// After how many nanoseconds a queue is filled again.
    pub closed spec fn refresh_view(self) -> nat {
        self.refresh as nat
    }

    /// The queue of a playlist; one that was never asked for is empty.
    pub closed spec fn queue_of(self, playlist: Seq<char>) -> RotationModel<GwTrack> {
        if exists|i: int| self.has(playlist, i) {
            self.queues@[choose|i: int| self.has(playlist, i)].1.view()
        } else {
            empty_rotation()
        }
    }

    /// No queues yet; each is filled again after `refresh` nanoseconds.
    pub fn new(refresh: u128) -> (r: TrackQueue)
        ensures
            r.wf(),
            r.refresh_view() == refresh,
            forall|p: Seq<char>| #[trigger] r.queue_of(p) == empty_rotation::<GwTrack>(),
    {
        TrackQueue { refresh, queues: Vec::new() }
    }

    proof fn lemma_queue_at(self, playlist: Seq<char>, i: int)
        requires
            self.wf(),
            self.has(playlist, i),
        ensures
            self.queue_of(playlist) == self.queues@[i].1.view(),
    {
        let k = choose|k: int| self.has(playlist, k);
        assert(k == i);
    }

    fn position(&mut self, playlist: &str) -> (r: usize)
        requires
            old(self).wf(),
        ensures
            final(self).wf(),
            final(self).refresh_view() == old(self).refresh_view(),
            final(self).has(playlist@, r as int),
            forall|p: Seq<char>| #[trigger] final(self).queue_of(p) == old(self).queue_of(p),
    {
        let ghost before = *self;
        let mut i: usize = 0;
        while i < self.queues.len()
            invariant
                *self == before,
                before == *old(self),
                before.wf(),
                i <= self.queues@.len(),
                forall|k: int| 0 <= k < i ==> (#[trigger] self.queues@[k]).0@ != playlist@,
            decreases self.queues@.len() - i,
        {
            if text::same_text(self.queues[i].0.as_str(), playlist) {
                return i;
            }
            i = i + 1;
        }
        self.queues.push((playlist.to_owned(), Rotation::new()));
        proof {
            assert(self.has(playlist@, i as int));
            assert(!(exists|k: int| before.has(playlist@, k)));
            assert forall|p: Seq<char>| #[trigger] self.queue_of(p) == before.queue_of(p) by {
                if p == playlist@ {
                    self.lemma_queue_at(p, i as int);
                } else if exists|k: int| before.has(p, k) {
                    let k = choose|k: int| before.has(p, k);
                    assert(self.has(p, k));
                    self.lemma_queue_at(p, k);
                    before.lemma_queue_at(p, k);
                } else {
                    assert forall|k: int| !self.has(p, k) by {
                        if self.has(p, k) {
                            assert(before.has(p, k));
                        }
                    }
                }
            }
        }
        i
    }

    /// The next track of a playlist. The first call hands in no fetch: it plays
    /// from the queue, or asks for a fetch where that is empty or stale. The
    /// second call hands in what was fetched, which fills the queue, shuffled
    /// and without opening on a recent track, unless another call has filled it
    /// in the meantime. A failed or empty fetch leaves the queue as it is.
    pub fn next_track(
        &mut self,
        playlist_id: &str,
        fetched: Option<Result<Vec<GwTrack>, String>>,
        now: u128,
    ) -> (r: Next<GwTrack>)
        requires
            old(self).wf(),
        ensures
            final(self).wf(),
            final(self).refresh_view() == old(self).refresh_view(),
            forall|p: Seq<char>|
                p != playlist_id@ ==> #[trigger] final(self).queue_of(p) == old(self).queue_of(p),
            ({
                let before = old(self).queue_of(playlist_id@);
                let after = final(self).queue_of(playlist_id@);
                match fetched {
                    None => if is_due(before, now as nat, old(self).refresh_view()) {
                        r is Fetch && after == before
                    } else {
                        r == Next::Play(before.items[0], None) && after == advanced(before)
                    },
                    Some(fetched) => exists|shuffled: Result<Seq<GwTrack>, Seq<char>>|
                        is_shuffled(fetched_view(fetched), shuffled) && #[trigger] is_next(
                            before,
                            after,
                            shuffled,
                            now as nat,
                            old(self).refresh_view(),
                            r,
                        ),
                }
            }),
    {
        let ghost first = *self;
        let i: usize = self.position(playlist_id);
        let ghost before = *self;
        let refresh: u128 = self.refresh;
        proof {
            before.lemma_queue_at(playlist_id@, i as int);
        }
        let r = match fetched {
            None => match self.queues[i].1.next_ready(now, refresh) {
                Some(track) => Next::Play(track, None),
                None => Next::Fetch,
            },
            Some(fetched) => {
                let list = shuffled_fetch(fetched);
                self.queues[i].1.next_shuffled(list, now, refresh)
            },
        };
        proof {
            assert(self.has(playlist_id@, i as int));
            assert(self.wf());
            self.lemma_queue_at(playlist_id@, i as int);
            assert forall|p: Seq<char>| p != playlist_id@ implies #[trigger] self.queue_of(p)
                == first.queue_of(p) by {
                assert(before.queue_of(p) == first.queue_of(p));
                if exists|k: int| before.has(p, k) {
                    let k = choose|k: int| before.has(p, k);
                    assert(self.has(p, k));
                    self.lemma_queue_at(p, k);
                    before.lemma_queue_at(p, k);
                } else {
                    assert forall|k: int| !self.has(p, k) by {
                        if self.has(p, k) {
                            assert(before.has(p, k));
                        }
                    }
                }
            }
            assert(before.queue_of(playlist_id@) == first.queue_of(playlist_id@));
        }
        r
    }
}

/// A local audio file ready for streaming. Its length and its rate are known
/// once it was decoded.
#[derive(Debug, PartialEq)]
pub struct LocalTrack {
    pub path: String,
    pub title: String,
    pub duration_secs: u64,
    pub actual_kbps: Option<u32>,
}

impl LocalTrack {
    /// The title of the track.
    pub fn display_name(&self) -> (r: String)
        ensures
            r@ == self.title@,
    {
        self.title.clone()
    }

    /// The length in seconds, 0 where it is not known.
    pub fn duration_secs(&self) -> (r: u64)
        ensures
            r == self.duration_secs,
    {
        self.duration_secs
    }
}

/// The title of a file: its name without the extension.
pub open spec fn title_of(path: Seq<char>) -> Seq<char> {
    match files::stem_of(path) {
        Some(stem) => if stem.len() > 0 {
            stem
        } else {
            "Unknown Track"@
        },
        None => "Unknown Track"@,
    }
}

/// The title of a file: its name without the extension.
pub fn local_title(path: &str) -> (r: String)
    ensures
        r@ == title_of(path@),
{
    match files::path_stem(path) {
        Some(stem) => if text::chars_of(stem.as_str()).len() > 0 {
            stem
        } else {
            "Unknown Track".to_owned()
        },
        None => "Unknown Track".to_owned(),
    }
}

/// The music folder of a station, played in random order over and over.
pub struct LocalFileQueue {
    refresh: u128,
    music_dir: String,
    state: Rotation<LocalFile>,
}

fn files_from(paths: Vec<String>) -> (r: Vec<LocalFile>)
    ensures
        r@ == paths@.map_values(|p: String| LocalFile { path: p }),
{
    let ghost all = paths@;
    let ghost wanted = paths@.map_values(|p: String| LocalFile { path: p });
    let mut out: Vec<LocalFile> = Vec::new();
    for path in it: paths.into_iter()
        invariant
            it.seq() == all,
            wanted == all.map_values(|p: String| LocalFile { path: p }),
            out@ == wanted.take(it.index() as int),
    {
        out.push(LocalFile { path });
        proof {
            assert(out@ =~= wanted.take(it.index() as int + 1));
        }
    }
    proof {
        assert(wanted.take(all.len() as int) =~= wanted);
    }
    out
}

/// A scan of a folder as a fetch of files.
pub open spec fn scanned_view(scanned: Result<Vec<String>, String>) -> Result<
    Seq<LocalFile>,
    Seq<char>,
> {
    match scanned {
        Ok(paths) => Ok(paths@.map_values(|p: String| LocalFile { path: p })),
        Err(message) => Err(message@),
    }
}

/// Whether a track is the one that a file plays as.
pub open spec fn plays(track: Next<LocalTrack>, file: Next<LocalFile>) -> bool {
    match file {
        Next::Play(file, warning) => track matches Next::Play(t, w) && t.path@ == file.path@
            && t.title@ == title_of(file.path@) && t.duration_secs == 0 && t.actual_kbps is None
            && json::text_view(w) == json::text_view(warning),
        Next::Fetch => track is Fetch,
        Next::Fail(NextTrackError::Empty) => track == Next::<LocalTrack>::Fail(
            NextTrackError::Empty,
        ),
        Next::Fail(NextTrackError::Fetch(m)) => track matches Next::Fail(
            NextTrackError::Fetch(n),
        ) && n@ == m@,
    }
}

fn as_local_track(file: Next<LocalFile>) -> (r: Next<LocalTrack>)
    ensures
        plays(r, file),
{
    match file {
        Next::Play(file, warning) => {
            let title = local_title(file.path.as_str());
            Next::Play(
                LocalTrack { path: file.path, title, duration_secs: 0, actual_kbps: None },
                warning,
            )
        },
        Next::Fetch => Next::Fetch,
        Next::Fail(error) => Next::Fail(error),
    }
}

impl LocalFileQueue {
    /// The rotation is in order.
    pub closed spec fn wf(self) -> bool {
        self.state.wf()
    }

    /// The files to come.
    pub closed spec fn view(self) -> RotationModel<LocalFile> {
        self.state.view()
    }

    /// After how many nanoseconds the folder is scanned again.
    pub closed spec fn refresh_view(self) -> nat {
        self.refresh as nat
    }

    /// The folder.
    pub closed spec fn dir_view(self) -> Seq<char> {
        self.music_dir@
    }

    /// A queue over a folder that is scanned again after `refresh` nanoseconds.
    pub fn new(music_dir: String, refresh: u128) -> (r: LocalFileQueue)
        ensures
            r.wf(),
            r.view() == empty_rotation::<LocalFile>(),
            r.refresh_view() == refresh,
            r.dir_view() == music_dir@,
    {
        LocalFileQueue { refresh, music_dir, state: Rotation::new() }
    }

    /// The folder.
    pub fn music_dir(&self) -> (r: &str)
        ensures
            r@ == self.dir_view(),
    {
        self.music_dir.as_str()
    }

    /// The next file. The first call hands in no scan: it plays from the queue,
    /// or asks for a scan where that is empty or stale. The second call hands in
    /// what was found.
    pub fn next_file(&mut self, scanned: Option<Result<Vec<String>, String>>, now: u128) -> (r: Next<
        LocalTrack,
    >)
        requires
            old(self).wf(),
        ensures
            final(self).wf(),
            final(self).refresh_view() == old(self).refresh_view(),
            final(self).dir_view() == old(self).dir_view(),
            match scanned {
                None => if is_due(old(self).view(), now as nat, old(self).refresh_view()) {
                    r is Fetch && final(self).view() == old(self).view()
                } else {
                    plays(r, Next::Play(old(self).view().items[0], None)) && final(self).view()
                        == advanced(old(self).view())
                },
                Some(scanned) => exists|shuffled: Result<Seq<LocalFile>, Seq<char>>, next: Next<LocalFile>|
                    is_shuffled(scanned_view(scanned), shuffled) && #[trigger] is_next(
                        old(self).view(),
                        final(self).view(),
                        shuffled,
                        now as nat,
                        old(self).refresh_view(),
                        next,
                    ) && plays(r, next),
            },
    {
        match scanned {
            None => {
                let next = match self.state.next_ready(now, self.refresh) {
                    Some(file) => Next::Play(file, None),
                    None => Next::Fetch,
                };
                as_local_track(next)
            },
            Some(scanned) => {
                let ghost given = scanned_view(scanned);
                let fetched = match scanned {
                    Ok(paths) => Ok(files_from(paths)),
                    Err(message) => Err(message),
                };
                assert(fetched_view(fetched) == given);
                let list = shuffled_fetch(fetched);
                let ghost shuffled = fetched_view(list);
                let next = self.state.next_shuffled(list, now, self.refresh);
                proof {
                    assert(is_next(
                        old(self).view(),
                        self.view(),
                        shuffled,
                        now as nat,
                        old(self).refresh_view(),
                        next,
                    ));
                }
                as_local_track(next)
            },
        }
    }
}

/// The guard keeps every item and, wherever the list holds an item that is not
/// recent, puts one such item first.
pub proof fn guard_keeps_items_and_avoids_repeats<T: Playable>(
    items: Seq<T>,
    recent: Seq<Seq<char>>,
)
    ensures
        guarded(items, recent).len() == items.len(),
        guarded(items, recent).to_multiset() == items.to_multiset(),
        (exists|i: int| 0 <= i < items.len() && !recent.contains((#[trigger] items[i]).tag()))
            ==> !recent.contains(guarded(items, recent)[0].tag()),
        items.len() > 0 && !recent.contains(items[0].tag()) ==> guarded(items, recent) == items,
{
    lemma_first_fresh(tags(items), recent, 0);
    match first_fresh(tags(items), recent, 0) {
        Some(i) => {
            assert(tags(items)[i] == items[i].tag());
            lemma_exchange_keeps_items(items, i);
            if i > 0 {
                assert(tags(items)[0] == items[0].tag());
            } else {
                assert(exchanged(items, 0) =~= items);
            }
        },
        None => {
            assert forall|i: int| 0 <= i < items.len() implies recent.contains(
                (#[trigger] items[i]).tag(),
            ) by {
                assert(tags(items)[i] == items[i].tag());
            }
        },
    }
}

proof fn lemma_exchange_keeps_items<T>(items: Seq<T>, i: int)
    requires
        0 <= i < items.len(),
    ensures
        exchanged(items, i).to_multiset() == items.to_multiset(),
{
    broadcast use vstd::seq_lib::group_to_multiset_ensures;

    let a = items.update(0, items[i]);
    let b = a.update(i, items[0]);
    assert(a.to_multiset() =~= items.to_multiset().remove(items[0]).insert(items[i]));
    if i > 0 {
        assert(b.to_multiset() =~= a.to_multiset().remove(items[i]).insert(items[0]));
        assert(b.to_multiset() =~= items.to_multiset());
    } else {
        assert(b =~= items);
    }
}

/// A filled rotation never opens with one of the last few items that left it,
/// as long as the list holds any other.
pub proof fn filled_rotation_does_not_repeat<T: Playable>(
    m: RotationModel<T>,
    shuffled: Seq<T>,
    now: nat,
)
    requires
        exists|i: int| 0 <= i < shuffled.len() && !m.recent.contains((#[trigger] shuffled[i]).tag()),
    ensures
        filled(m, shuffled, now).items.len() > 0,
        !m.recent.contains(filled(m, shuffled, now).items[0].tag()),
{
    guard_keeps_items_and_avoids_repeats(shuffled, m.recent);
}

/// The memory of what played is bounded and always ends with the item that
/// left last.
pub proof fn recent_window_is_bounded(recent: Seq<Seq<char>>, tag: Seq<char>)
    requires
        recent.len() <= 3,
    ensures
        recent_after(recent, tag).len() <= 3,
        recent_after(recent, tag).last() == tag,
        recent_after(recent, tag).len() >= recent.len(),
{
}

/// A failed or empty fetch never loses what is cached.
pub proof fn failed_fetch_keeps_the_cache<T: Playable>(
    m: RotationModel<T>,
    message: Seq<char>,
    now: nat,
    refresh: nat,
)
    ensures
        refreshed(m, Err(message), now, refresh) == m,
        refreshed(m, Ok(Seq::empty()), now, refresh) == m,
{
}

/// A queue that holds something is fetched anew once `refresh` has gone by since
/// it was filled, and not before. The age alone decides: where the clock and the
/// time of the filling are moved by the same amount, nothing changes. A queue
/// that is empty or was never filled is fetched at once.
pub proof fn queues_go_stale_by_age<T>(m: RotationModel<T>, now: nat, refresh: nat, shift: nat)
    ensures
        m.items.len() == 0 || m.last_fill is None ==> is_due(m, now, refresh),
        m.items.len() > 0 && m.last_fill is Some ==> (is_due(m, now, refresh) <==> refresh == 0
            || m.last_fill->0 + refresh <= now),
        m.last_fill is Some ==> is_due(
            RotationModel { last_fill: Some(m.last_fill->0 + shift), ..m },
            now + shift,
            refresh,
        ) == is_due(m, now, refresh),
{
}

/// A queue after `plays` items left it one by one.
pub open spec fn after_plays<T: Playable>(m: RotationModel<T>, plays: nat) -> RotationModel<T>
    decreases plays,
{
    if plays == 0 {
        m
    } else {
        advanced(after_plays(m, (plays - 1) as nat))
    }
}

proof fn lemma_after_plays<T: Playable>(m: RotationModel<T>, plays: nat)
    requires
        plays <= m.items.len(),
    ensures
        after_plays(m, plays).items == m.items.skip(plays as int),
        after_plays(m, plays).last_fill == m.last_fill,
    decreases plays,
{
    if plays > 0 {
        lemma_after_plays(m, (plays - 1) as nat);
        assert(m.items.skip(plays - 1).skip(1) =~= m.items.skip(plays as int));
    } else {
        assert(m.items.skip(0) =~= m.items);
    }
}

/// A filled queue is walked from front to back: as long as `refresh` has not
/// gone by since it was filled, the item behind the first `k` plays after `k`
/// plays, without a fetch. Once all have played, the list is fetched again.
pub proof fn filled_queues_are_walked_in_order<T: Playable>(
    m: RotationModel<T>,
    list: Seq<T>,
    filled_at: nat,
    k: nat,
    now: nat,
    refresh: nat,
)
    requires
        list.len() > 0,
        refresh > 0,
        now < filled_at + refresh,
        k <= list.len(),
    ensures
        ({
            let full = filled(m, list, filled_at);
            let there = after_plays(full, k);
            &&& full.items.to_multiset() == list.to_multiset()
            &&& k < list.len() ==> !is_due(there, now, refresh) && there.items[0] == full.items[k as int]
            &&& k == list.len() ==> is_due(there, now, refresh)
        }),
{
    guard_keeps_items_and_avoids_repeats(list, m.recent);
    lemma_after_plays(filled(m, list, filled_at), k);
}

/// A recent first item changes places with the first item that is not recent,
/// and everything else stays where it is.
pub proof fn the_guard_moves_two_items_at_most<T: Playable>(
    items: Seq<T>,
    recent: Seq<Seq<char>>,
    i: int,
    k: int,
)
    requires
        0 <= i < items.len(),
        !recent.contains(items[i].tag()),
        forall|j: int| 0 <= j < i ==> recent.contains((#[trigger] items[j]).tag()),
        0 <= k < items.len(),
    ensures
        guarded(items, recent)[k] == items[if k == 0 {
            i
        } else if k == i {
            0
        } else {
            k
        }],
{
    lemma_first_fresh(tags(items), recent, 0);
    let found = first_fresh(tags(items), recent, 0);
    assert forall|j: int| 0 <= j < items.len() implies #[trigger] tags(items)[j] == items[j].tag() by {}
    assert(tags(items)[i] == items[i].tag());
    assert(found is Some);
    let f = found->0;
    if f < i {
        assert(recent.contains(items[f].tag()));
    }
    if i < f {
        assert(recent.contains(tags(items)[i]));
    }
}

/// The memory holds the last three items that left, in the order in which they
/// left: after three more plays nothing else is in it.
pub proof fn the_last_three_are_remembered(
    recent: Seq<Seq<char>>,
    a: Seq<char>,
    b: Seq<char>,
    c: Seq<char>,
)
    requires
        recent.len() <= 3,
    ensures
        recent_after(recent_after(recent_after(recent, a), b), c) == seq![a, b, c],
        recent_after(Seq::empty(), a) == seq![a],
        recent_after(seq![a], b) == seq![a, b],
{
    let one = recent_after(recent, a);
    let two = recent_after(one, b);
    assert(one.last() == a);
    assert(two.last() == b && two[two.len() - 2] == a);
    assert(recent_after(two, c) =~= seq![a, b, c]);
    assert(recent_after(Seq::empty(), a) =~= seq![a]);
    assert(recent_after(seq![a], b) =~= seq![a, b]);
}

/// What a fetch brings for a queue that is due plays completely: one item at
/// once, and all others stay in the queue, each as often as it was fetched. The
/// queue is then as old as the fetch.
pub proof fn fetched_lists_play_completely<T: Playable>(
    before: RotationModel<T>,
    after: RotationModel<T>,
    fetched: Seq<T>,
    shuffled: Result<Seq<T>, Seq<char>>,
    now: nat,
    refresh: nat,
    next: Next<T>,
)
    requires
        is_shuffled(Ok(fetched), shuffled),
        is_next(before, after, shuffled, now, refresh, next),
        fetched.len() > 0,
        before.items.len() == 0 || before.last_fill is None || before.last_fill->0 + refresh <= now,
    ensures
        next matches Next::Play(item, warning) && warning is None && (seq![item]
            + after.items).to_multiset() == fetched.to_multiset(),
        after.last_fill == Some(now),
{
    broadcast use vstd::seq_lib::group_to_multiset_ensures;

    let list = shuffled->Ok_0;
    assert(list.len() == list.to_multiset().len());
    assert(fetched.len() == fetched.to_multiset().len());
    guard_keeps_items_and_avoids_repeats(list, before.recent);
    let full = guarded(list, before.recent);
    assert(seq![full[0]] + full.skip(1) =~= full);
}

/// A queue that another call filled in the meantime keeps what it was filled
/// with: a list that comes while the queue is neither empty nor old is dropped.
pub proof fn late_fetches_are_dropped<T: Playable>(
    before: RotationModel<T>,
    after: RotationModel<T>,
    fetched: Seq<T>,
    now: nat,
    refresh: nat,
    next: Next<T>,
)
    requires
        is_next(before, after, Ok(fetched), now, refresh, next),
        before.items.len() > 0,
        before.last_fill is Some,
        refresh > 0,
        now < before.last_fill->0 + refresh,
    ensures
        next matches Next::Play(item, warning) && item == before.items[0] && warning is None,
        after.items == before.items.skip(1),
        after.last_fill == before.last_fill,
{
}

/// Without a list the cache plays on: its first item plays, with the message of
/// a failed fetch beside it, and the age of the queue stays. With nothing cached
/// the failure is the message of the fetch, and an empty list is no list.
pub proof fn the_cache_makes_up_for_a_fetch<T: Playable>(
    before: RotationModel<T>,
    after: RotationModel<T>,
    fetched: Result<Seq<T>, Seq<char>>,
    now: nat,
    refresh: nat,
    next: Next<T>,
)
    requires
        is_next(before, after, fetched, now, refresh, next),
        fetched matches Ok(list) ==> list.len() == 0,
    ensures
        before.items.len() > 0 ==> after.items == before.items.skip(1) && after.last_fill
            == before.last_fill && (next matches Next::Play(item, warning) && item == before.items[0]
            && match fetched {
            Ok(_) => warning is None,
            Err(message) => warning is Some && warning->0@ == message,
        }),
        before.items.len() == 0 ==> after == before && match fetched {
            Ok(_) => next == Next::<T>::Fail(NextTrackError::Empty),
            Err(message) => next matches Next::Fail(NextTrackError::Fetch(m)) && m@ == message,
        },
{
}

/// A file is announced by its name without folder and extension.
pub proof fn files_are_announced_by_their_names(
    folder: Seq<char>,
    stem: Seq<char>,
    extension: Seq<char>,
)
    requires
        stem.len() > 0,
        !stem.contains('/'),
        !extension.contains('/'),
        !extension.contains('.'),
        extension.len() > 0,
    ensures
        title_of(folder.push('/') + (stem.push('.') + extension)) == stem,
{
    files::extensions_stand_behind_the_last_dot(folder, stem, extension);
}

/// A file of the music folder plays under its own path and name, and what kept a
/// scan from being read is passed on with it.
pub proof fn files_play_as_themselves(
    track: Next<LocalTrack>,
    file: LocalFile,
    warning: Option<String>,
)
    requires
        plays(track, Next::Play(file, warning)),
    ensures
        track matches Next::Play(t, w) && t.path@ == file.path@ && t.title@ == title_of(file.path@)
            && (warning is None ==> w is None) && (warning is Some ==> w is Some && w->0@
            == warning->0@),
{
}

/// A scan brings every file that it found, each under its path.
pub proof fn scans_bring_every_file(paths: Vec<String>, message: String, i: int)
    ensures
        scanned_view(Ok(paths)) matches Ok(files) && files.len() == paths@.len() && (0 <= i
            < paths@.len() ==> files[i].path == paths@[i]),
        scanned_view(Err(message)) == Err::<Seq<LocalFile>, Seq<char>>(message@),
{
}

} // verus!
