//! Sorting of search results, favorites and followed artists.

use vstd::prelude::*;

use crate::cli;
use crate::cli::{SortDir, SortKey};
use crate::json;
use crate::json::{Json, Member};
use crate::models::{FollowedArtist, GwTrack};
use crate::order;
use crate::order::SortRecord;
use crate::resolve;
use crate::text;

verus! {

/// Tracks by their IDs.
pub struct TrackIndex {
    entries: Vec<(String, GwTrack)>,
}

impl TrackIndex {
    /// The positions hold different IDs.
    pub closed spec fn wf(self) -> bool {
        forall|i: int, j: int|
            0 <= i < j < self.entries@.len() ==> (#[trigger] self.entries@[i]).0@ != (
            #[trigger] self.entries@[j]).0@
    }

    spec fn has(self, id: Seq<char>, i: int) -> bool {
        0 <= i < self.entries@.len() && self.entries@[i].0@ == id
    }

    /// The tracks by their IDs.
    pub closed spec fn view(self) -> Map<Seq<char>, GwTrack> {
        Map::new(
            |id: Seq<char>| exists|i: int| self.has(id, i),
            |id: Seq<char>| self.entries@[choose|i: int| self.has(id, i)].1,
        )
    }

    /// No tracks.
    pub fn new() -> (r: TrackIndex)
        ensures
            r.wf(),
            r.view() == Map::<Seq<char>, GwTrack>::empty(),
    {
        let r = TrackIndex { entries: Vec::new() };
        proof {
            assert(r.view() =~= Map::<Seq<char>, GwTrack>::empty());
        }
        r
    }

    fn position(&self, id: &str) -> (r: Option<usize>)
        requires
            self.wf(),
        ensures
            match r {
                Some(i) => self.has(id@, i as int),
                None => !self.view().dom().contains(id@),
            },
    {
        let mut i: usize = 0;
        while i < self.entries.len()
            invariant
                i <= self.entries@.len(),
                forall|k: int| 0 <= k < i ==> (#[trigger] self.entries@[k]).0@ != id@,
            decreases self.entries@.len() - i,
        {
            if text::same_text(self.entries[i].0.as_str(), id) {
                return Some(i);
            }
            i = i + 1;
        }
        None
    }

    /// The track with this ID.
    pub fn get(&self, id: &str) -> (r: Option<&GwTrack>)
        requires
            self.wf(),
        ensures
            match r {
                Some(track) => self.view().dom().contains(id@) && *track == self.view()[id@],
                None => !self.view().dom().contains(id@),
            },
    {
        match self.position(id) {
            Some(i) => {
                proof {
                    assert(self.has(id@, i as int));
                    assert forall|k: int| self.has(id@, k) implies k == i by {}
                }
                Some(&self.entries[i].1)
            },
            None => None,
        }
    }

    /// Adds a track under an ID, in place of one that was there.
    pub fn insert(&mut self, id: String, track: GwTrack)
        requires
            old(self).wf(),
        ensures
            final(self).wf(),
            final(self).view() == old(self).view().insert(id@, track),
    {
        let ghost before = *self;
        match self.position(id.as_str()) {
            Some(i) => {
                let ghost key = id@;
                self.entries[i] = (id, track);
                proof {
                    assert(self.has(key, i as int));
                    assert forall|k: Seq<char>|
                        self.view().dom().contains(k) <==> before.view().insert(
                            key,
                            track,
                        ).dom().contains(k) by {
                        if exists|j: int| self.has(k, j) {
                            let j = choose|j: int| self.has(k, j);
                            assert(before.has(k, j));
                        }
                        if exists|j: int| before.has(k, j) {
                            let j = choose|j: int| before.has(k, j);
                            assert(self.has(k, j));
                        }
                    }
                    assert forall|k: Seq<char>| #[trigger] self.view().dom().contains(k) implies self.view()[k]
                        == before.view().insert(key, track)[k] by {
                        let j = choose|j: int| self.has(k, j);
                        assert(before.has(k, j));
                        let b = choose|b: int| before.has(k, b);
                        assert(b == j);
                        if k == key {
                            assert(j == i);
                        }
                    }
                    assert(self.view() =~= before.view().insert(key, track));
                }
            },
            None => {
                let ghost key = id@;
                self.entries.push((id, track));
                proof {
                    let last = self.entries@.len() - 1;
                    assert(self.has(key, last));
                    assert forall|k: int| 0 <= k < last implies self.entries@[k].0@ != key by {
                        if before.entries@[k].0@ == key {
                            assert(before.has(key, k));
                        }
                    }
                    assert forall|k: Seq<char>|
                        self.view().dom().contains(k) <==> before.view().insert(
                            key,
                            track,
                        ).dom().contains(k) by {
                        if exists|j: int| self.has(k, j) {
                            let j = choose|j: int| self.has(k, j);
                            if j < last {
                                assert(before.has(k, j));
                            }
                        }
                        if exists|j: int| before.has(k, j) {
                            let j = choose|j: int| before.has(k, j);
                            assert(self.has(k, j));
                        }
                    }
                    assert forall|k: Seq<char>| #[trigger] self.view().dom().contains(k) implies self.view()[k]
                        == before.view().insert(key, track)[k] by {
                        let j = choose|j: int| self.has(k, j);
                        if k == key {
                            assert(j == last);
                        } else {
                            assert(before.has(k, j));
                            let b = choose|b: int| before.has(k, b);
                            assert(b == j);
                        }
                    }
                    assert(self.view() =~= before.view().insert(key, track));
                }
            },
        }
    }
}

/// The tracks of a list by their IDs; of two with one ID the later counts.
pub open spec fn indexed(tracks: Seq<GwTrack>) -> Map<Seq<char>, GwTrack>
    decreases tracks.len(),
{
    if tracks.len() == 0 {
        Map::empty()
    } else {
        indexed(tracks.drop_last()).insert(tracks.last().id_view(), tracks.last())
    }
}

/// Arranges tracks by their IDs; of two with one ID the later counts.
pub fn index_tracks(tracks: Vec<GwTrack>) -> (r: TrackIndex)
    ensures
        r.wf(),
        r.view() == indexed(tracks@),
{
    let ghost all = tracks@;
    let mut index = TrackIndex::new();
    proof {
        assert(all.take(0) =~= Seq::empty());
    }
    for track in it: tracks.into_iter()
        invariant
            it.seq() == all,
            index.wf(),
            index.view() == indexed(all.take(it.index() as int)),
    {
        let id = track.id_str();
        index.insert(id, track);
        proof {
            assert(all.take(it.index() as int + 1).drop_last() =~= all.take(it.index() as int));
        }
    }
    proof {
        assert(all.take(all.len() as int) =~= all);
    }
    index
}

/// The number by which qualities sort: an unknown one goes last either way.
pub open spec fn quality_number(rank: Option<nat>, desc: bool) -> nat {
    match rank {
        None => 256,
        Some(rank) => if desc {
            (255 - rank) as nat
        } else {
            rank
        },
    }
}

/// The number by which durations sort: an unknown one goes last either way.
pub open spec fn duration_number(duration: Option<nat>, desc: bool) -> nat {
    match duration {
        None => 0x1_0000_0000_0000_0000,
        Some(secs) => if desc {
            (0xffff_ffff_ffff_ffff - secs) as nat
        } else {
            secs
        },
    }
}

fn number_record(primary: u128) -> (r: SortRecord)
    ensures
        r.model() == order::number_key(primary as nat),
{
    let r = SortRecord { primary, artist: Vec::new(), title: Vec::new(), id: Vec::new() };
    proof {
        assert(r.artist@ =~= Seq::<char>::empty());
        assert(r.title@ =~= Seq::<char>::empty());
        assert(r.id@ =~= Seq::<char>::empty());
    }
    r
}

fn quality_primary(rank: Option<u8>, desc: bool) -> (r: u128)
    ensures
        r == quality_number(
            match rank {
                Some(rank) => Some(rank as nat),
                None => None,
            },
            desc,
        ),
{
    match rank {
        None => 256,
        Some(rank) => if desc {
            (255 - rank) as u128
        } else {
            rank as u128
        },
    }
}

fn duration_primary(duration: Option<u64>, desc: bool) -> (r: u128)
    ensures
        r == duration_number(
            match duration {
                Some(d) => Some(d as nat),
                None => None,
            },
            desc,
        ),
{
    match duration {
        None => 0x1_0000_0000_0000_0000u128,
        Some(secs) => if desc {
            (0xffff_ffff_ffff_ffffu64 - secs) as u128
        } else {
            secs as u128
        },
    }
}

/// The rank of a search result: that of the track with its ID, unknown without
/// one.
pub open spec fn result_rank(result: json::JsonModel, by_id: Map<Seq<char>, GwTrack>) -> Option<nat> {
    match json::as_unsigned(json::field(result, "id"@)) {
        Some(id) => if by_id.dom().contains(text::decimal(id)) {
            Some(resolve::rank_of(resolve::best_format(by_id[text::decimal(id)])))
        } else {
            None
        },
        None => None,
    }
}

/// The keys by which search results sort by quality.
pub open spec fn quality_keys(
    data: Seq<json::JsonModel>,
    by_id: Map<Seq<char>, GwTrack>,
    desc: bool,
) -> Seq<order::KeyModel> {
    data.map_values(
        |result: json::JsonModel|
            order::number_key(quality_number(result_rank(result, by_id), desc)),
    )
}

/// The keys by which search results sort by duration.
pub open spec fn duration_keys(data: Seq<json::JsonModel>, desc: bool) -> Seq<order::KeyModel> {
    data.map_values(
        |result: json::JsonModel|
            order::number_key(
                duration_number(json::as_unsigned(json::field(result, "duration"@)), desc),
            ),
    )
}

/// The positions of search results by available quality. Results without a
/// track go last in either direction; equal ones keep the order of relevance.
pub fn sort_by_quality(data: &Vec<Json>, by_id: &TrackIndex, desc: bool) -> (r: Vec<usize>)
    requires
        by_id.wf(),
    ensures
        order::is_stable_order(quality_keys(json::items_model(data@), by_id.view(), desc), r@),
{
    let ghost wanted = quality_keys(json::items_model(data@), by_id.view(), desc);
    let mut keys: Vec<SortRecord> = Vec::new();
    let mut i: usize = 0;
    while i < data.len()
        invariant
            i <= data@.len(),
            by_id.wf(),
            wanted == quality_keys(json::items_model(data@), by_id.view(), desc),
            order::keys_model(keys@) == wanted.take(i as int),
        decreases data@.len() - i,
    {
        let rank: Option<u8> = match data[i].get_u64("id") {
            Some(id) => match by_id.get(text::decimal_text(id).as_str()) {
                Some(track) => Some(resolve::quality_rank(track)),
                None => None,
            },
            None => None,
        };
        let ghost before = keys@;
        let record = number_record(quality_primary(rank, desc));
        keys.push(record);
        i = i + 1;
        proof {
            assert(order::keys_model(keys@) =~= order::keys_model(before).push(record.model()));
            assert(order::keys_model(keys@) =~= wanted.take(i as int));
        }
    }
    proof {
        assert(wanted.take(i as int) =~= wanted);
    }
    order::stable_order(&keys)
}

/// The positions of search results by duration. Results without a duration go
/// last in either direction; equal ones keep the order of relevance.
pub fn duration_sorted_indices(data: &Vec<Json>, desc: bool) -> (r: Vec<usize>)
    ensures
        order::is_stable_order(duration_keys(json::items_model(data@), desc), r@),
{
    let ghost wanted = duration_keys(json::items_model(data@), desc);
    let mut keys: Vec<SortRecord> = Vec::new();
    let mut i: usize = 0;
    while i < data.len()
        invariant
            i <= data@.len(),
            wanted == duration_keys(json::items_model(data@), desc),
            order::keys_model(keys@) == wanted.take(i as int),
        decreases data@.len() - i,
    {
        let ghost before = keys@;
        let record = number_record(duration_primary(data[i].get_u64("duration"), desc));
        keys.push(record);
        i = i + 1;
        proof {
            assert(order::keys_model(keys@) =~= order::keys_model(before).push(record.model()));
            assert(order::keys_model(keys@) =~= wanted.take(i as int));
        }
    }
    proof {
        assert(wanted.take(i as int) =~= wanted);
    }
    order::stable_order(&keys)
}

/// The order of two durations that sorting goes by.
pub open spec fn duration_first(a: Option<nat>, b: Option<nat>, desc: bool) -> bool {
    match (a, b) {
        (Some(x), Some(y)) => if desc {
            x > y
        } else {
            x < y
        },
        (Some(_), None) => true,
        (None, _) => false,
    }
}

/// Sorting by duration puts the shorter first, or the longer where it goes
/// down, and an unknown duration behind every known one in either direction.
pub proof fn unknown_durations_go_last(a: Option<nat>, b: Option<nat>, desc: bool)
    requires
        a matches Some(x) ==> x <= u64::MAX,
        b matches Some(y) ==> y <= u64::MAX,
    ensures
        order::key_before(
            order::number_key(duration_number(a, desc)),
            order::number_key(duration_number(b, desc)),
        ) == duration_first(a, b, desc),
{
}

/// The order of two qualities that sorting goes by.
pub open spec fn quality_first(a: Option<nat>, b: Option<nat>, desc: bool) -> bool {
    match (a, b) {
        (Some(x), Some(y)) => if desc {
            x > y
        } else {
            x < y
        },
        (Some(_), None) => true,
        (None, _) => false,
    }
}

/// Sorting by quality puts the better first where it goes down, the worse first
/// where it goes up, and an unknown quality behind every known one in either
/// direction; equal ones stay as they stand.
pub proof fn better_quality_goes_first(a: Option<nat>, b: Option<nat>, desc: bool)
    requires
        a matches Some(x) ==> x <= 3,
        b matches Some(y) ==> y <= 3,
    ensures
        order::key_before(
            order::number_key(quality_number(a, desc)),
            order::number_key(quality_number(b, desc)),
        ) == quality_first(a, b, desc),
{
}

/// The IDs of the search results that have one, written out.
pub open spec fn result_ids(data: Seq<json::JsonModel>) -> Seq<Seq<char>>
    decreases data.len(),
{
    if data.len() == 0 {
        seq![]
    } else {
        let before = result_ids(data.drop_last());
        match json::as_unsigned(json::field(data.last(), "id"@)) {
            Some(id) => before.push(text::decimal(id)),
            None => before,
        }
    }
}

/// The IDs of the first `count` search results that have one, to fetch their
/// tracks by.
pub fn collect_ids(data: &Vec<Json>, count: usize) -> (r: Vec<String>)
    requires
        count <= data@.len(),
    ensures
        text::texts(r@) == result_ids(json::items_model(data@).take(count as int)),
{
    let ghost all = json::items_model(data@);
    let mut ids: Vec<String> = Vec::new();
    let mut i: usize = 0;
    proof {
        assert(all.take(0) =~= Seq::empty());
        assert(text::texts(ids@) =~= Seq::empty());
    }
    while i < count
        invariant
            i <= count <= data@.len(),
            all == json::items_model(data@),
            text::texts(ids@) == result_ids(all.take(i as int)),
        decreases count - i,
    {
        let ghost before = ids@;
        proof {
            assert(all.take(i as int + 1).drop_last() =~= all.take(i as int));
            assert(all.take(i as int + 1).last() == data@[i as int].model());
        }
        match data[i].get_u64("id") {
            Some(id) => {
                ids.push(text::decimal_text(id));
                proof {
                    assert(text::texts(ids@) =~= text::texts(before).push(text::decimal(id as nat)));
                }
            },
            None => {},
        }
        i = i + 1;
    }
    ids
}

/// The value with the items of its `data` array rearranged. An object without
/// `data`, or `null`, gets it as `null`.
pub open spec fn reordered(value: json::JsonModel, order: Seq<usize>) -> json::JsonModel {
    match value {
        json::JsonModel::Null => json::JsonModel::Object(seq![("data"@, json::JsonModel::Null)]),
        json::JsonModel::Object(members) => json::JsonModel::Object(
            reordered_members(members, order),
        ),
        _ => value,
    }
}

/// The members with the items of the first `data` array rearranged.
pub open spec fn reordered_members(
    members: Seq<(Seq<char>, json::JsonModel)>,
    order: Seq<usize>,
) -> Seq<(Seq<char>, json::JsonModel)>
    decreases members.len(),
{
    if members.len() == 0 {
        seq![("data"@, json::JsonModel::Null)]
    } else if members[0].0 == "data"@ {
        members.update(
            0,
            (
                "data"@,
                match members[0].1 {
                    json::JsonModel::Array(items) => json::JsonModel::Array(
                        order::arranged(items, order),
                    ),
                    other => other,
                },
            ),
        )
    } else {
        seq![members[0]] + reordered_members(members.skip(1), order)
    }
}

/// Rearranges the items of `results["data"]`.
pub fn reorder_results_data(results: &mut Json, indices: Vec<usize>)
    requires
        *old(results) is Null || *old(results) is Object,
        json::field(old(results).model(), "data"@) matches Some(json::JsonModel::Array(items)) ==> (
        forall|i: int| 0 <= i < indices@.len() ==> (#[trigger] indices@[i]) < items.len()),
    ensures
        final(results).model() == reordered(old(results).model(), indices@),
{
    let ghost before = *results;
    proof {
        json::lemma_model_parts(before);
    }
    match results {
        Json::Object(members) => {
            let ghost all = json::members_model(members@);
            let mut i: usize = 0;
            proof {
                assert(all.skip(0) =~= all);
                assert(all.take(0) + reordered_members(all, indices@) =~= reordered_members(
                    all,
                    indices@,
                ));
            }
            while i < members.len() && !text::same_text(members[i].key.as_str(), "data")
                invariant
                    i <= members@.len(),
                    all == json::members_model(members@),
                    json::member(all, "data"@) == json::member(all.skip(i as int), "data"@),
                    all.take(i as int) + reordered_members(all.skip(i as int), indices@)
                        == reordered_members(all, indices@),
                decreases members@.len() - i,
            {
                proof {
                    assert(all.skip(i as int)[0] == all[i as int]);
                    assert(all.skip(i as int).skip(1) =~= all.skip(i as int + 1));
                    assert(all.take(i as int + 1) + reordered_members(
                        all.skip(i as int + 1),
                        indices@,
                    ) =~= all.take(i as int) + (seq![all[i as int]] + reordered_members(
                        all.skip(i as int + 1),
                        indices@,
                    )));
                }
                i = i + 1;
            }
            if i == members.len() {
                proof {
                    assert(all.skip(i as int) =~= Seq::empty());
                    assert(all.take(i as int) =~= all);
                }
                json::push_member(members, "data", Json::Null);
                proof {
                    assert(json::members_model(members@) =~= reordered_members(all, indices@));
                }
            } else {
                proof {
                    assert(all.skip(i as int)[0] == all[i as int]);
                    json::lemma_model_parts(members@[i as int].value);
                }
                let ghost held = members@[i as int].value;
                let mut sorted: Vec<Json> = Vec::new();
                let mut is_array = false;
                if let Json::Array(items) = &members[i].value {
                    is_array = true;
                    let ghost old_items = json::items_model(items@);
                    let mut k: usize = 0;
                    proof {
                        assert(json::items_model(sorted@) =~= order::arranged(
                            old_items,
                            indices@,
                        ).take(0));
                    }
                    while k < indices.len()
                        invariant
                            k <= indices@.len(),
                            old_items == json::items_model(items@),
                            forall|j: int|
                                0 <= j < indices@.len() ==> (#[trigger] indices@[j])
                                    < items@.len(),
                            json::items_model(sorted@) == order::arranged(
                                old_items,
                                indices@,
                            ).take(k as int),
                        decreases indices@.len() - k,
                    {
                        let ghost so_far = sorted@;
                        let item = items[indices[k]].copy();
                        sorted.push(item);
                        k = k + 1;
                        proof {
                            assert(json::items_model(sorted@) =~= json::items_model(so_far).push(
                                item.model(),
                            ));
                            assert(json::items_model(sorted@) =~= order::arranged(
                                old_items,
                                indices@,
                            ).take(k as int));
                        }
                    }
                    proof {
                        assert(order::arranged(old_items, indices@).take(k as int)
                            =~= order::arranged(old_items, indices@));
                    }
                }
                if is_array {
                    let list = Json::Array(sorted);
                    proof {
                        json::lemma_model_parts(list);
                    }
                    members[i].value = list;
                }
                proof {
                    assert(json::members_model(members@) =~= all.update(
                        i as int,
                        (all[i as int].0, members@[i as int].value.model()),
                    ));
                    assert(all.take(i as int) + all.skip(i as int).update(
                        0,
                        ("data"@, members@[i as int].value.model()),
                    ) =~= json::members_model(members@));
                }
            }
        },
        Json::Null => {
            let mut members: Vec<Member> = Vec::new();
            proof {
                assert(json::members_model(members@) =~= Seq::empty());
            }
            json::push_member(&mut members, "data", Json::Null);
            *results = Json::Object(members);
            proof {
                assert(json::members_model(members@) =~= seq![("data"@, json::JsonModel::Null)]);
            }
        },
        _ => {},
    }
    proof {
        json::lemma_model_parts(*results);
    }
}

/// Seconds as minutes and seconds, from one hour on with the hours before them.
pub open spec fn clock(secs: nat) -> Seq<char> {
    if secs >= 3600 {
        text::decimal(secs / 3600) + ":"@ + text::padded((secs % 3600) / 60, 2) + ":"@
            + text::padded(secs % 60, 2)
    } else {
        text::decimal(secs / 60) + ":"@ + text::padded(secs % 60, 2)
    }
}

/// Writes seconds as `m:ss`, or as `h:mm:ss` for an hour or more.
pub fn format_duration(secs: u64) -> (r: String)
    ensures
        r@ == clock(secs as nat),
{
    if secs >= 3600 {
        let mut s = text::decimal_text(secs / 3600);
        s.append(":");
        s.append(text::padded_text((secs % 3600) / 60, 2).as_str());
        s.append(":");
        s.append(text::padded_text(secs % 60, 2).as_str());
        s
    } else {
        let mut s = text::decimal_text(secs / 60);
        s.append(":");
        s.append(text::padded_text(secs % 60, 2).as_str());
        s
    }
}

/// The rank of a followed artist: that of the best quality, where it is known.
pub open spec fn artist_rank(artist: FollowedArtist) -> Option<nat> {
    match artist.best_quality {
        Some(quality) => Some(cli::quality_format(quality@).order()),
        None => None,
    }
}

/// The keys by which followed artists sort.
pub open spec fn artist_keys(artists: Seq<FollowedArtist>, desc: bool) -> Seq<order::KeyModel> {
    artists.map_values(
        |a: FollowedArtist| order::number_key(quality_number(artist_rank(a), desc)),
    )
}

/// Whether a list is another one in the stable order of its keys.
pub open spec fn sorted_by<T>(before: Seq<T>, after: Seq<T>, keys: Seq<order::KeyModel>) -> bool {
    exists|o: Seq<usize>|
        #[trigger] order::is_stable_order(keys, o) && after == order::arranged(before, o)
}

/// Sorts followed artists by their best quality. Unknown quality goes last in
/// either direction; artists of equal quality keep their order.
pub fn sort_followed_by_quality(artists: &mut Vec<FollowedArtist>, desc: bool)
    ensures
        sorted_by(old(artists)@, final(artists)@, artist_keys(old(artists)@, desc)),
{
    let ghost wanted = artist_keys(artists@, desc);
    let ghost before_sort = artists@;
    let mut keys: Vec<SortRecord> = Vec::new();
    let mut i: usize = 0;
    while i < artists.len()
        invariant
            artists@ == before_sort,
            i <= artists@.len(),
            wanted == artist_keys(artists@, desc),
            order::keys_model(keys@) == wanted.take(i as int),
        decreases artists@.len() - i,
    {
        let rank: Option<u8> = match &artists[i].best_quality {
            Some(quality) => Some(cli::parse_format(quality.as_str()).rank()),
            None => None,
        };
        let ghost before = keys@;
        let record = number_record(quality_primary(rank, desc));
        keys.push(record);
        i = i + 1;
        proof {
            assert(order::keys_model(keys@) =~= order::keys_model(before).push(record.model()));
            assert(order::keys_model(keys@) =~= wanted.take(i as int));
        }
    }
    proof {
        assert(wanted.take(i as int) =~= wanted);
    }
    let sequence = order::stable_order(&keys);
    let mut taken: Vec<FollowedArtist> = Vec::new();
    taken.append(artists);
    proof {
        assert(taken@ =~= before_sort);
    }
    let mut sorted = order::arrange(taken, &keys, &sequence);
    artists.append(&mut sorted);
    proof {
        assert(artists@ =~= order::arranged(before_sort, sequence@));
        assert(order::is_stable_order(wanted, sequence@));
    }
}

/// The key of a favorite: quality or duration first, then artist, title and ID
/// in lower case but for the ID.
pub open spec fn favorite_key(track: GwTrack, by: SortKey, sort_dir: Option<SortDir>) -> order::KeyModel {
    order::KeyModel {
        primary: match by {
            SortKey::Duration => duration_number(
                if track.seconds() != 0 {
                    Some(track.seconds())
                } else {
                    None
                },
                resolve::goes_down(sort_dir, false),
            ),
            _ => quality_number(
                Some(resolve::rank_of(resolve::best_format(track))),
                resolve::goes_down(sort_dir, true),
            ),
        },
        artist: text::lowercase(track.artist_view()),
        title: text::lowercase(track.title_view()),
        id: track.id_view(),
    }
}

/// The keys by which favorites sort.
pub open spec fn favorite_keys(tracks: Seq<GwTrack>, by: SortKey, sort_dir: Option<SortDir>) -> Seq<
    order::KeyModel,
> {
    tracks.map_values(|t: GwTrack| favorite_key(t, by, sort_dir))
}

/// Sorts favorites by quality or duration; relevance keeps the order in which
/// they were liked. Ties are broken by artist, title and ID, so the order
/// depends on the tracks alone wherever their IDs differ.
pub fn sort_favorites(tracks: &mut Vec<GwTrack>, key: SortKey, sort_dir: Option<SortDir>)
    ensures
        match key {
            SortKey::Relevance => final(tracks)@ == old(tracks)@,
            _ => sorted_by(old(tracks)@, final(tracks)@, favorite_keys(old(tracks)@, key, sort_dir)),
        },
{
    if key == SortKey::Relevance {
        return;
    }
    let ghost wanted = favorite_keys(tracks@, key, sort_dir);
    let ghost before_sort = tracks@;
    let quality_desc = resolve::direction(sort_dir, true);
    let duration_desc = resolve::direction(sort_dir, false);
    let mut keys: Vec<SortRecord> = Vec::new();
    let mut i: usize = 0;
    while i < tracks.len()
        invariant
            tracks@ == before_sort,
            i <= tracks@.len(),
            key != SortKey::Relevance,
            quality_desc == resolve::goes_down(sort_dir, true),
            duration_desc == resolve::goes_down(sort_dir, false),
            wanted == favorite_keys(tracks@, key, sort_dir),
            order::keys_model(keys@) == wanted.take(i as int),
        decreases tracks@.len() - i,
    {
        let track = &tracks[i];
        let primary: u128 = if key == SortKey::Duration {
            let secs: u64 = track.duration_secs();
            if secs != 0 {
                duration_primary(Some(secs), duration_desc)
            } else {
                duration_primary(None, duration_desc)
            }
        } else {
            quality_primary(Some(resolve::quality_rank(track)), quality_desc)
        };
        let ghost before = keys@;
        let record = SortRecord {
            primary,
            artist: text::chars_of(text::to_lower(track.artist().as_str()).as_str()),
            title: text::chars_of(text::to_lower(track.title().as_str()).as_str()),
            id: text::chars_of(track.id_str().as_str()),
        };
        keys.push(record);
        i = i + 1;
        proof {
            assert(record.model() == favorite_key(*track, key, sort_dir));
            assert(order::keys_model(keys@) =~= order::keys_model(before).push(record.model()));
            assert(order::keys_model(keys@) =~= wanted.take(i as int));
        }
    }
    proof {
        assert(wanted.take(i as int) =~= wanted);
    }
    let sequence = order::stable_order(&keys);
    let mut taken: Vec<GwTrack> = Vec::new();
    taken.append(tracks);
    proof {
        assert(taken@ =~= before_sort);
    }
    let mut sorted = order::arrange(taken, &keys, &sequence);
    tracks.append(&mut sorted);
    proof {
        assert(tracks@ =~= order::arranged(before_sort, sequence@));
        assert(order::is_stable_order(wanted, sequence@));
    }
}

/// A track as JSON with its length in seconds as a number.
pub open spec fn track_with_duration(track: GwTrack) -> json::JsonModel {
    json::JsonModel::Object(
        track.json_members().push(("duration"@, json::JsonModel::Unsigned(track.seconds()))),
    )
}

/// Writes tracks as JSON under the gateway's names, each with its length in
/// seconds as a number added.
pub fn with_duration(tracks: Vec<GwTrack>) -> (r: Vec<Json>)
    ensures
        json::items_model(r@) == tracks@.map_values(|t: GwTrack| track_with_duration(t)),
{
    let ghost all = tracks@;
    let ghost wanted = tracks@.map_values(|t: GwTrack| track_with_duration(t));
    let mut out: Vec<Json> = Vec::new();
    proof {
        assert(json::items_model(out@) =~= wanted.take(0));
    }
    for track in it: tracks.into_iter()
        invariant
            it.seq() == all,
            wanted == all.map_values(|t: GwTrack| track_with_duration(t)),
            json::items_model(out@) == wanted.take(it.index() as int),
    {
        let ghost before = out@;
        let duration: u64 = track.duration_secs();
        let mut members = track.into_members();
        json::push_member(&mut members, "duration", Json::Unsigned(duration));
        let value = Json::Object(members);
        proof {
            json::lemma_model_parts(value);
            assert(value.model() == track_with_duration(track));
        }
        out.push(value);
        proof {
            assert(json::items_model(out@) =~= json::items_model(before).push(value.model()));
            assert(json::items_model(out@) =~= wanted.take(it.index() as int + 1));
        }
    }
    proof {
        assert(wanted.take(all.len() as int) =~= wanted);
    }
    out
}

/// Where a page ends.
pub open spec fn page_end(len: nat, offset: nat, limit: Option<nat>) -> nat {
    match limit {
        Some(limit) => if offset + limit < len {
            offset + limit
        } else {
            len
        },
        None => len,
    }
}

/// One page of a list.
pub open spec fn page_of<T>(items: Seq<T>, offset: nat, limit: Option<nat>) -> Seq<T> {
    if offset >= items.len() {
        Seq::empty()
    } else {
        items.subrange(offset as int, page_end(items.len(), offset, limit) as int)
    }
}

/// Takes one page of a list: at most `limit` items from `offset` on.
pub fn page<T>(items: Vec<T>, offset: u32, limit: Option<u32>) -> (r: Vec<T>)
    ensures
        r@ == page_of(
            items@,
            offset as nat,
            match limit {
                Some(l) => Some(l as nat),
                None => None,
            },
        ),
{
    let ghost all = items@;
    let mut rest = items;
    if offset as usize >= rest.len() {
        return Vec::new();
    }
    let mut out = rest.split_off(offset as usize);
    if let Some(limit) = limit {
        if (limit as usize) < out.len() {
            out.truncate(limit as usize);
        }
    }
    proof {
        assert(out@ =~= page_of(
            all,
            offset as nat,
            match limit {
                Some(l) => Some(l as nat),
                None => None,
            },
        ));
    }
    out
}

/// Two pages one behind the other are one page of their joint length: no item
/// is shown twice or left out between them.
pub proof fn pages_join<T>(items: Seq<T>, offset: nat, first: nat, second: nat)
    ensures
        page_of(items, offset, Some(first)) + page_of(items, offset + first, Some(second))
            == page_of(items, offset, Some(first + second)),
{
    assert(page_of(items, offset, Some(first)) + page_of(items, offset + first, Some(second))
        =~= page_of(items, offset, Some(first + second)));
}

/// Sorting gives one result: whatever it is asked for again, the same tracks in
/// the same order come out the same, so pages stay where they are.
pub proof fn sorting_is_deterministic<T>(
    before: Seq<T>,
    a: Seq<T>,
    b: Seq<T>,
    keys: Seq<order::KeyModel>,
)
    requires
        sorted_by(before, a, keys),
        sorted_by(before, b, keys),
    ensures
        a == b,
{
    let x = choose|o: Seq<usize>|
        #[trigger] order::is_stable_order(keys, o) && a == order::arranged(before, o);
    let y = choose|o: Seq<usize>|
        #[trigger] order::is_stable_order(keys, o) && b == order::arranged(before, o);
    order::stable_order_is_unique(keys, x, y);
}

/// Sorting loses and invents nothing: every item is still there.
pub proof fn sorting_keeps_every_item<T>(
    before: Seq<T>,
    after: Seq<T>,
    keys: Seq<order::KeyModel>,
    i: int,
)
    requires
        sorted_by(before, after, keys),
        before.len() == keys.len(),
        0 <= i < before.len(),
    ensures
        after.len() == before.len(),
        after.contains(before[i]),
        before.contains(after[i]),
{
    let o = choose|o: Seq<usize>|
        #[trigger] order::is_stable_order(keys, o) && after == order::arranged(before, o);
    order::stable_order_is_complete(keys, o, i);
    let k = choose|k: int| 0 <= k < o.len() && o[k] == i;
    assert(after[k] == before[i]);
    assert(after[i] == before[o[i] as int]);
}

/// Whether each track's key stands before those of all tracks behind it.
spec fn keys_rise(tracks: Seq<GwTrack>, by: SortKey, sort_dir: Option<SortDir>) -> bool {
    forall|i: int, j: int|
        0 <= i < j < tracks.len() ==> order::key_before(
            favorite_key(#[trigger] tracks[i], by, sort_dir),
            favorite_key(#[trigger] tracks[j], by, sort_dir),
        )
}

spec fn same_tracks(a: Seq<GwTrack>, b: Seq<GwTrack>) -> bool {
    forall|t: GwTrack| a.contains(t) <==> b.contains(t)
}

proof fn lemma_rising_keys_fix_the_order(
    a: Seq<GwTrack>,
    b: Seq<GwTrack>,
    by: SortKey,
    sort_dir: Option<SortDir>,
)
    requires
        keys_rise(a, by, sort_dir),
        keys_rise(b, by, sort_dir),
        same_tracks(a, b),
    ensures
        a == b,
    decreases a.len(),
{
    if a.len() == 0 {
        if b.len() > 0 {
            assert(b.contains(b[0]));
            assert(a.contains(b[0]));
        }
        assert(a =~= b);
    } else {
        assert(a.contains(a[0]));
        assert(b.contains(a[0]));
        let p = choose|p: int| 0 <= p < b.len() && b[p] == a[0];
        assert(b.contains(b[0]));
        assert(a.contains(b[0]));
        let q = choose|q: int| 0 <= q < a.len() && a[q] == b[0];
        order::lemma_key_total(
            favorite_key(a[0], by, sort_dir),
            favorite_key(b[0], by, sort_dir),
        );
        assert(a[0] == b[0]);
        let x = a.skip(1);
        let y = b.skip(1);
        assert forall|t: GwTrack| x.contains(t) <==> y.contains(t) by {
            order::lemma_key_total(favorite_key(t, by, sort_dir), favorite_key(t, by, sort_dir));
            if x.contains(t) {
                let k = choose|k: int| 0 <= k < x.len() && x[k] == t;
                assert(a[k + 1] == t);
                assert(a.contains(t));
                let m = choose|m: int| 0 <= m < b.len() && b[m] == t;
                if m == 0 {
                    assert(order::key_before(
                        favorite_key(a[0], by, sort_dir),
                        favorite_key(a[k + 1], by, sort_dir),
                    ));
                }
                assert(y[m - 1] == t);
            }
            if y.contains(t) {
                let k = choose|k: int| 0 <= k < y.len() && y[k] == t;
                assert(b[k + 1] == t);
                assert(b.contains(t));
                let m = choose|m: int| 0 <= m < a.len() && a[m] == t;
                if m == 0 {
                    assert(order::key_before(
                        favorite_key(b[0], by, sort_dir),
                        favorite_key(b[k + 1], by, sort_dir),
                    ));
                }
                assert(x[m - 1] == t);
            }
        }
        assert forall|i: int, j: int| 0 <= i < j < x.len() implies order::key_before(
            favorite_key(#[trigger] x[i], by, sort_dir),
            favorite_key(#[trigger] x[j], by, sort_dir),
        ) by {
            assert(x[i] == a[i + 1] && x[j] == a[j + 1]);
        }
        assert forall|i: int, j: int| 0 <= i < j < y.len() implies order::key_before(
            favorite_key(#[trigger] y[i], by, sort_dir),
            favorite_key(#[trigger] y[j], by, sort_dir),
        ) by {
            assert(y[i] == b[i + 1] && y[j] == b[j + 1]);
        }
        lemma_rising_keys_fix_the_order(x, y, by, sort_dir);
        assert(a =~= seq![a[0]] + x);
        assert(b =~= seq![b[0]] + y);
    }
}

proof fn lemma_sorted_keys_rise(
    before: Seq<GwTrack>,
    after: Seq<GwTrack>,
    by: SortKey,
    sort_dir: Option<SortDir>,
)
    requires
        sorted_by(before, after, favorite_keys(before, by, sort_dir)),
        forall|i: int, j: int|
            0 <= i < j < before.len() ==> (#[trigger] before[i]).id_view() != (
            #[trigger] before[j]).id_view(),
    ensures
        keys_rise(after, by, sort_dir),
        same_tracks(after, before),
{
    let keys = favorite_keys(before, by, sort_dir);
    let o = choose|o: Seq<usize>|
        #[trigger] order::is_stable_order(keys, o) && after == order::arranged(before, o);
    assert forall|i: int, j: int| 0 <= i < j < after.len() implies order::key_before(
        favorite_key(#[trigger] after[i], by, sort_dir),
        favorite_key(#[trigger] after[j], by, sort_dir),
    ) by {
        let p = o[i] as int;
        let q = o[j] as int;
        assert(order::goes_before(keys, p, q));
        order::lemma_key_total(keys[p], keys[q]);
        assert(p != q);
        assert(before[p].id_view() != before[q].id_view());
    }
    assert forall|t: GwTrack| after.contains(t) <==> before.contains(t) by {
        if after.contains(t) {
            let k = choose|k: int| 0 <= k < after.len() && after[k] == t;
            assert(before[o[k] as int] == t);
        }
        if before.contains(t) {
            let k = choose|k: int| 0 <= k < before.len() && before[k] == t;
            sorting_keeps_every_item(before, after, keys, k);
        }
    }
}

/// The order of sorted favorites does not depend on the order in which the
/// tracks came: with different IDs, the same tracks always sort the same way.
pub proof fn favorites_sort_alike_however_they_came(
    a: Seq<GwTrack>,
    b: Seq<GwTrack>,
    sorted_a: Seq<GwTrack>,
    sorted_b: Seq<GwTrack>,
    by: SortKey,
    sort_dir: Option<SortDir>,
)
    requires
        forall|t: GwTrack| a.contains(t) <==> b.contains(t),
        forall|i: int, j: int|
            0 <= i < j < a.len() ==> (#[trigger] a[i]).id_view() != (#[trigger] a[j]).id_view(),
        forall|i: int, j: int|
            0 <= i < j < b.len() ==> (#[trigger] b[i]).id_view() != (#[trigger] b[j]).id_view(),
        sorted_by(a, sorted_a, favorite_keys(a, by, sort_dir)),
        sorted_by(b, sorted_b, favorite_keys(b, by, sort_dir)),
    ensures
        sorted_a == sorted_b,
{
    lemma_sorted_keys_rise(a, sorted_a, by, sort_dir);
    lemma_sorted_keys_rise(b, sorted_b, by, sort_dir);
    lemma_rising_keys_fix_the_order(sorted_a, sorted_b, by, sort_dir);
}

/// Favorites sorted by quality rank by the best format that each track has: the
/// best first, unless the order goes up on request, and then the worst first.
/// Among equals artist, title and ID decide, in this order and upwards, artist
/// and title without regard to case.
pub proof fn favorites_by_quality_follow_the_direction(
    before: Seq<GwTrack>,
    after: Seq<GwTrack>,
    sort_dir: Option<SortDir>,
    i: int,
    j: int,
)
    requires
        sorted_by(before, after, favorite_keys(before, SortKey::Quality, sort_dir)),
        0 <= i < j < after.len(),
    ensures
        sort_dir == Some(SortDir::Asc) ==> resolve::rank_of(resolve::best_format(after[i]))
            <= resolve::rank_of(resolve::best_format(after[j])),
        sort_dir != Some(SortDir::Asc) ==> resolve::rank_of(resolve::best_format(after[i]))
            >= resolve::rank_of(resolve::best_format(after[j])),
        resolve::rank_of(resolve::best_format(after[i])) == resolve::rank_of(
            resolve::best_format(after[j]),
        ) ==> names_rise(after[i], after[j]),
{
    lemma_favorites_are_ordered(before, after, SortKey::Quality, sort_dir, i, j);
}

/// Favorites sorted by duration: the shortest first, unless the order goes down
/// on request, and then the longest first. Those of unknown length stand behind
/// all others either way, and among equals artist, title and ID decide.
pub proof fn favorites_by_duration_follow_the_direction(
    before: Seq<GwTrack>,
    after: Seq<GwTrack>,
    sort_dir: Option<SortDir>,
    i: int,
    j: int,
)
    requires
        sorted_by(before, after, favorite_keys(before, SortKey::Duration, sort_dir)),
        0 <= i < j < after.len(),
        after[i].seconds() <= u64::MAX,
        after[j].seconds() <= u64::MAX,
    ensures
        after[i].seconds() == 0 ==> after[j].seconds() == 0,
        sort_dir == Some(SortDir::Desc) && after[j].seconds() != 0 ==> after[i].seconds()
            >= after[j].seconds(),
        sort_dir != Some(SortDir::Desc) && after[j].seconds() != 0 ==> after[i].seconds()
            <= after[j].seconds(),
        after[i].seconds() == after[j].seconds() ==> names_rise(after[i], after[j]),
{
    lemma_favorites_are_ordered(before, after, SortKey::Duration, sort_dir, i, j);
}

/// Whether one track does not stand behind another by artist, title and ID:
/// names without regard to case.
pub open spec fn names_rise(a: GwTrack, b: GwTrack) -> bool {
    if text::lowercase(a.artist_view()) != text::lowercase(b.artist_view()) {
        order::text_before(text::lowercase(a.artist_view()), text::lowercase(b.artist_view()))
    } else if text::lowercase(a.title_view()) != text::lowercase(b.title_view()) {
        order::text_before(text::lowercase(a.title_view()), text::lowercase(b.title_view()))
    } else {
        a.id_view() == b.id_view() || order::text_before(a.id_view(), b.id_view())
    }
}

proof fn lemma_favorites_are_ordered(
    before: Seq<GwTrack>,
    after: Seq<GwTrack>,
    by: SortKey,
    sort_dir: Option<SortDir>,
    i: int,
    j: int,
)
    requires
        sorted_by(before, after, favorite_keys(before, by, sort_dir)),
        0 <= i < j < after.len(),
    ensures
        ({
            let a = favorite_key(after[i], by, sort_dir);
            let b = favorite_key(after[j], by, sort_dir);
            a == b || order::key_before(a, b)
        }),
{
    let keys = favorite_keys(before, by, sort_dir);
    let o = choose|o: Seq<usize>|
        #[trigger] order::is_stable_order(keys, o) && after == order::arranged(before, o);
    let p = o[i] as int;
    let q = o[j] as int;
    assert(order::goes_before(keys, p, q));
    order::lemma_key_total(keys[p], keys[q]);
}

/// Search results sorted by quality: those whose track was found stand before
/// those without one, the best first where the order goes down and the worst
/// first where it goes up. Equal ones stay in the order in which they came.
pub proof fn results_by_quality_follow_the_direction(
    data: Seq<json::JsonModel>,
    by_id: Map<Seq<char>, GwTrack>,
    desc: bool,
    order: Seq<usize>,
    i: int,
    j: int,
)
    requires
        order::is_stable_order(quality_keys(data, by_id, desc), order),
        0 <= i < j < order.len(),
    ensures
        ({
            let a = result_rank(data[order[i] as int], by_id);
            let b = result_rank(data[order[j] as int], by_id);
            &&& b is Some ==> a is Some
            &&& a is Some && b is Some ==> if desc {
                a->0 >= b->0
            } else {
                a->0 <= b->0
            }
            &&& a == b ==> order[i] < order[j]
        }),
{
    let keys = quality_keys(data, by_id, desc);
    order::stable_orders_keep_ties(keys, order, i, j);
}

/// The rank of a search result is that of the best format of the track with its
/// ID in decimal.
pub proof fn results_rank_by_their_track(
    members: Seq<(Seq<char>, json::JsonModel)>,
    id: nat,
    by_id: Map<Seq<char>, GwTrack>,
)
    requires
        members.len() > 0,
        members[0] == ("id"@, json::JsonModel::Unsigned(id)),
    ensures
        by_id.dom().contains(text::decimal(id)) ==> result_rank(
            json::JsonModel::Object(members),
            by_id,
        ) == Some(resolve::rank_of(resolve::best_format(by_id[text::decimal(id)]))),
        !by_id.dom().contains(text::decimal(id)) ==> result_rank(
            json::JsonModel::Object(members),
            by_id,
        ) is None,
{
}

/// Search results sorted by duration: the shortest first, the longest first
/// where the order goes down, those of unknown length last either way. Equal
/// ones stay in the order in which they came.
pub proof fn results_by_duration_follow_the_direction(
    data: Seq<json::JsonModel>,
    desc: bool,
    order: Seq<usize>,
    i: int,
    j: int,
)
    requires
        order::is_stable_order(duration_keys(data, desc), order),
        0 <= i < j < order.len(),
        json::as_unsigned(json::field(data[order[i] as int], "duration"@)) matches Some(n)
            ==> n <= u64::MAX,
        json::as_unsigned(json::field(data[order[j] as int], "duration"@)) matches Some(n)
            ==> n <= u64::MAX,
    ensures
        ({
            let a = json::as_unsigned(json::field(data[order[i] as int], "duration"@));
            let b = json::as_unsigned(json::field(data[order[j] as int], "duration"@));
            &&& b is Some ==> a is Some
            &&& a is Some && b is Some ==> if desc {
                a->0 >= b->0
            } else {
                a->0 <= b->0
            }
            &&& a == b ==> order[i] < order[j]
        }),
{
    let keys = duration_keys(data, desc);
    order::stable_orders_keep_ties(keys, order, i, j);
}

/// Followed artists sorted by quality: those whose best quality is known stand
/// before the others, the best first where the order goes down and the worst
/// first where it goes up.
pub proof fn artists_by_quality_follow_the_direction(
    before: Seq<FollowedArtist>,
    after: Seq<FollowedArtist>,
    desc: bool,
    i: int,
    j: int,
)
    requires
        sorted_by(before, after, artist_keys(before, desc)),
        0 <= i < j < after.len(),
    ensures
        after[j].best_quality is Some ==> after[i].best_quality is Some,
        after[i].best_quality is Some && after[j].best_quality is Some ==> if desc {
            cli::quality_format(after[i].best_quality->0@).order() >= cli::quality_format(
                after[j].best_quality->0@,
            ).order()
        } else {
            cli::quality_format(after[i].best_quality->0@).order() <= cli::quality_format(
                after[j].best_quality->0@,
            ).order()
        },
{
    let keys = artist_keys(before, desc);
    let o = choose|o: Seq<usize>|
        #[trigger] order::is_stable_order(keys, o) && after == order::arranged(before, o);
    order::stable_orders_keep_ties(keys, o, i, j);
    let a = before[o[i] as int];
    let b = before[o[j] as int];
    assert(keys[o[i] as int] == order::number_key(quality_number(artist_rank(a), desc)));
    assert(keys[o[j] as int] == order::number_key(quality_number(artist_rank(b), desc)));
}

/// Artists of equal quality keep their order: those who came first stay first.
pub proof fn artists_of_equal_quality_stay(
    before: Seq<FollowedArtist>,
    after: Seq<FollowedArtist>,
    desc: bool,
)
    requires
        sorted_by(before, after, artist_keys(before, desc)),
        forall|i: int| 0 <= i < before.len() ==> (#[trigger] before[i]).best_quality
            == before[0].best_quality,
    ensures
        after == before,
{
    let keys = artist_keys(before, desc);
    let o = choose|o: Seq<usize>|
        #[trigger] order::is_stable_order(keys, o) && after == order::arranged(before, o);
    assert forall|i: int, j: int| 0 <= i < j < o.len() implies o[i] < o[j] by {
        order::stable_orders_keep_ties(keys, o, i, j);
        assert(before[o[i] as int].best_quality == before[o[j] as int].best_quality);
    }
    assert forall|i: int| 0 <= i < o.len() implies o[i] == i by {
        lemma_rising_positions(o, i);
    }
    assert(after =~= before);
}

proof fn lemma_rising_positions(o: Seq<usize>, i: int)
    requires
        forall|i: int, j: int| 0 <= i < j < o.len() ==> o[i] < o[j],
        forall|i: int| 0 <= i < o.len() ==> (#[trigger] o[i]) < o.len(),
        0 <= i < o.len(),
    ensures
        o[i] == i,
{
    lemma_at_least(o, i);
    lemma_at_most(o, i);
}

proof fn lemma_at_least(o: Seq<usize>, i: int)
    requires
        forall|i: int, j: int| 0 <= i < j < o.len() ==> o[i] < o[j],
        0 <= i < o.len(),
    ensures
        o[i] >= i,
    decreases i,
{
    if i > 0 {
        lemma_at_least(o, i - 1);
        assert(o[i - 1] < o[i]);
    }
}

proof fn lemma_at_most(o: Seq<usize>, i: int)
    requires
        forall|i: int, j: int| 0 <= i < j < o.len() ==> o[i] < o[j],
        forall|i: int| 0 <= i < o.len() ==> (#[trigger] o[i]) < o.len(),
        0 <= i < o.len(),
    ensures
        o[i] <= i,
    decreases o.len() - i,
{
    if i < o.len() - 1 {
        lemma_at_most(o, i + 1);
        assert(o[i] < o[i + 1]);
    }
}

/// A page holds the items from the offset on, as many as the limit allows and
/// the list has, in the order of the list.
pub proof fn pages_hold_what_is_there<T>(
    items: Seq<T>,
    offset: nat,
    limit: Option<nat>,
    i: int,
)
    ensures
        offset >= items.len() ==> page_of(items, offset, limit).len() == 0,
        offset < items.len() ==> page_of(items, offset, limit).len() == (match limit {
            Some(limit) => if limit <= items.len() - offset {
                limit as int
            } else {
                items.len() - offset
            },
            None => items.len() - offset,
        }),
        0 <= i < page_of(items, offset, limit).len() ==> page_of(items, offset, limit)[i]
            == items[offset + i],
{
}

/// A length is shown as hours, minutes and seconds: the minutes and seconds in
/// two digits, and the hours only where there are any, the minutes then being the
/// first.
pub proof fn clocks_show_hours_minutes_and_seconds(hours: nat, minutes: nat, seconds: nat)
    requires
        minutes < 60,
        seconds < 60,
    ensures
        clock(3600 * hours + 60 * minutes + seconds) == (if hours > 0 {
            text::decimal(hours) + ":"@ + text::padded(minutes, 2) + ":"@ + text::padded(seconds, 2)
        } else {
            text::decimal(minutes) + ":"@ + text::padded(seconds, 2)
        }),
{
    let all = 3600 * hours + 60 * minutes + seconds;
    assert(all / 3600 == hours && (all % 3600) / 60 == minutes && all % 60 == seconds);
    if hours == 0 {
        assert(all / 60 == minutes);
    }
}

/// Of the tracks with one ID the last counts, and an ID that no track has finds
/// nothing.
pub proof fn the_last_track_of_an_id_counts(tracks: Seq<GwTrack>, id: Seq<char>, i: int)
    requires
        -1 <= i < tracks.len(),
        forall|k: int| i < k < tracks.len() ==> (#[trigger] tracks[k]).id_view() != id,
    ensures
        i == -1 ==> !indexed(tracks).dom().contains(id),
        i >= 0 && tracks[i].id_view() == id ==> indexed(tracks).dom().contains(id)
            && indexed(tracks)[id] == tracks[i],
    decreases tracks.len(),
{
    if i < tracks.len() - 1 {
        assert(tracks[tracks.len() - 1].id_view() != id);
        let front = tracks.drop_last();
        assert forall|k: int| i < k < front.len() implies (#[trigger] front[k]).id_view() != id by {
            assert(front[k] == tracks[k]);
        }
        the_last_track_of_an_id_counts(front, id, i);
    }
}

/// Tracks are asked for by the IDs of the results, in the order of the results:
/// every result with an ID adds it, and one without adds nothing.
pub proof fn every_id_is_asked_for(data: Seq<json::JsonModel>, result: json::JsonModel)
    ensures
        result_ids(data.push(result)) == (match json::field(result, "id"@) {
            Some(json::JsonModel::Unsigned(id)) => result_ids(data).push(text::decimal(id)),
            _ => result_ids(data),
        }),
        result_ids(Seq::empty()).len() == 0,
{
    assert(data.push(result).drop_last() =~= data);
}

/// Rearranging search results touches their list alone: the first `data` holds
/// the same items in the new order, and every other member stays.
pub proof fn only_the_list_is_rearranged(
    members: Seq<(Seq<char>, json::JsonModel)>,
    order: Seq<usize>,
    i: int,
    items: Seq<json::JsonModel>,
)
    requires
        0 <= i < members.len(),
        members[i] == ("data"@, json::JsonModel::Array(items)),
        forall|k: int| 0 <= k < i ==> (#[trigger] members[k]).0 != "data"@,
    ensures
        reordered(json::JsonModel::Object(members), order) == json::JsonModel::Object(
            members.update(
                i,
                (
                    "data"@,
                    json::JsonModel::Array(Seq::new(order.len(), |k: int| items[order[k] as int])),
                ),
            ),
        ),
{
    lemma_only_the_list_is_rearranged(members, order, i, items);
}

proof fn lemma_only_the_list_is_rearranged(
    members: Seq<(Seq<char>, json::JsonModel)>,
    order: Seq<usize>,
    i: int,
    items: Seq<json::JsonModel>,
)
    requires
        0 <= i < members.len(),
        members[i] == ("data"@, json::JsonModel::Array(items)),
        forall|k: int| 0 <= k < i ==> (#[trigger] members[k]).0 != "data"@,
    ensures
        reordered_members(members, order) == members.update(
            i,
            (
                "data"@,
                json::JsonModel::Array(Seq::new(order.len(), |k: int| items[order[k] as int])),
            ),
        ),
    decreases members.len(),
{
    let value = json::JsonModel::Array(Seq::new(order.len(), |k: int| items[order[k] as int]));
    assert(order::arranged(items, order) =~= Seq::new(order.len(), |k: int| items[order[k] as int]));
    if i > 0 {
        assert(members[0].0 != "data"@);
        let rest = members.skip(1);
        assert forall|k: int| 0 <= k < i - 1 implies (#[trigger] rest[k]).0 != "data"@ by {
            assert(rest[k] == members[k + 1]);
        }
        lemma_only_the_list_is_rearranged(rest, order, i - 1, items);
        assert(seq![members[0]] + rest.update(i - 1, ("data"@, value)) =~= members.update(
            i,
            ("data"@, value),
        ));
    }
}

/// A track is printed with its length in seconds behind all that came.
pub proof fn lengths_are_printed_behind_the_rest(track: GwTrack)
    ensures
        track_with_duration(track) matches json::JsonModel::Object(members) && members.len()
            == track.json_members().len() + 1 && members.drop_last() == track.json_members()
            && members.last() == ("duration"@, json::JsonModel::Unsigned(track.seconds())),
{
    let members = track_with_duration(track)->Object_0;
    assert(members.drop_last() =~= track.json_members());
}

} // verus!
