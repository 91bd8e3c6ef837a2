//! Queries: which of them name an item, and what is shown of the results.

use vstd::prelude::*;

use crate::api;
use crate::cli;
use crate::cli::{SortDir, SortKey};
use crate::json;
use crate::json::{Json, Member};
use crate::models;
use crate::models::FollowedArtist;
use crate::order;
use crate::output;
use crate::report;
use crate::report::Line;
use crate::resolve;
use crate::sort;
use crate::sort::TrackIndex;
use crate::text;
use crate::track;
use crate::track::DownloadOptions;

verus! {

/// Whether a query names an item by its address or its ID.
pub open spec fn is_direct(query: Seq<char>) -> bool {
    text::holds(query, "deezer.com"@) || forall|i: int|
        0 <= i < query.len() ==> text::is_digit(#[trigger] query[i])
}

/// Whether a query names an item by its address or its ID, so that nothing is
/// searched for.
pub fn is_direct_query(query: &str) -> (r: bool)
    ensures
        r == is_direct(query@),
{
    if text::contains(query, "deezer.com") {
        return true;
    }
    let chars = text::chars_of(query);
    let mut i: usize = 0;
    while i < chars.len()
        invariant
            i <= chars@.len(),
            chars@ == query@,
            !text::holds(query@, "deezer.com"@),
            forall|k: int| 0 <= k < i ==> text::is_digit(#[trigger] query@[k]),
        decreases chars@.len() - i,
    {
        let c: char = chars[i];
        if c < '0' || c > '9' {
            proof {
                assert(!text::is_digit(query@[i as int]));
            }
            return false;
        }
        i = i + 1;
    }
    true
}

/// What is said where a search found nothing.
pub open spec fn nothing_found(query: Seq<char>, what: Seq<char>) -> Seq<char> {
    "No "@ + what + "s found for '"@ + query + "'."@
}

/// What is said where there are fewer results than asked for.
pub open spec fn no_such_result(pick: nat, count: nat, what: Seq<char>) -> Seq<char> {
    "No result #"@ + text::decimal(pick) + " — found "@ + text::decimal(count) + " "@ + what
        + "(s)."@
}

/// What is said where the chosen result has no ID.
pub open spec fn no_id(pick: nat, what: Seq<char>) -> Seq<char> {
    "Result #"@ + text::decimal(pick) + " has no "@ + what + " ID."@
}

fn nothing_found_text(query: &str, what: &str) -> (r: String)
    ensures
        r@ == nothing_found(query@, what@),
{
    let mut s = "No ".to_owned();
    s.append(what);
    s.append("s found for '");
    s.append(query);
    s.append("'.");
    s
}

/// What is said where there are fewer results than asked for.
pub fn no_such_result_text(pick: usize, count: usize, what: &str) -> (r: String)
    ensures
        r@ == no_such_result(pick as nat, count as nat, what@),
{
    let mut s = "No result #".to_owned();
    s.append(text::decimal_text(pick as u64).as_str());
    s.append(" — found ");
    s.append(text::decimal_text(count as u64).as_str());
    s.append(" ");
    s.append(what);
    s.append("(s).");
    s
}

/// The results that a search found.
pub open spec fn found(results: json::JsonModel) -> Seq<json::JsonModel> {
    match api::data_items(results) {
        Some(items) => items,
        None => seq![],
    }
}

/// The position of the chosen one of so many results in the order shown, counted
/// from 0; the choice counts from 1.
pub fn pick_position(count: usize, pick: usize, query: &str, what: &str) -> (r: Result<usize, String>)
    ensures
        if count == 0 {
            r matches Err(message) && message@ == nothing_found(query@, what@)
        } else if 1 <= pick <= count {
            r matches Ok(position) && position == pick - 1
        } else {
            r matches Err(message) && message@ == no_such_result(pick as nat, count as nat, what@)
        },
{
    if count == 0 {
        Err(nothing_found_text(query, what))
    } else if 1 <= pick && pick <= count {
        Ok(pick - 1)
    } else {
        Err(no_such_result_text(pick, count, what))
    }
}

/// The position of the chosen one of the followed artists, counted from 0; the
/// choice counts from 1.
pub fn pick_followed(pick: usize, count: usize) -> (r: Result<usize, String>)
    ensures
        if 1 <= pick <= count {
            r matches Ok(position) && position == pick - 1
        } else {
            r matches Err(message) && message@ == no_such_result(
                pick as nat,
                count as nat,
                "followed artist"@,
            )
        },
{
    if 1 <= pick && pick <= count {
        Ok(pick - 1)
    } else {
        Err(no_such_result_text(pick, count, "followed artist"))
    }
}

/// The ID of a search result, 0 without one.
pub open spec fn result_id(result: json::JsonModel) -> nat {
    match json::as_unsigned(json::field(result, "id"@)) {
        Some(id) => id,
        None => 0,
    }
}

/// Whether positions put the results into the order of a sort key. Relevance
/// keeps the order in which they came.
pub open spec fn is_result_order(
    data: Seq<json::JsonModel>,
    by_id: Map<Seq<char>, models::GwTrack>,
    by: SortKey,
    sort_dir: Option<SortDir>,
    order: Seq<usize>,
) -> bool {
    match by {
        SortKey::Relevance => {
            &&& order.len() == data.len()
            &&& forall|i: int| 0 <= i < order.len() ==> (#[trigger] order[i]) == i
        },
        SortKey::Duration => order::is_stable_order(
            sort::duration_keys(data, resolve::goes_down(sort_dir, false)),
            order,
        ),
        SortKey::Quality => order::is_stable_order(
            sort::quality_keys(data, by_id, resolve::goes_down(sort_dir, true)),
            order,
        ),
    }
}

/// The positions that put the results into the order of a sort key.
pub open spec fn result_order(
    data: Seq<json::JsonModel>,
    by_id: Map<Seq<char>, models::GwTrack>,
    by: SortKey,
    sort_dir: Option<SortDir>,
) -> Seq<usize> {
    choose|order: Seq<usize>| is_result_order(data, by_id, by, sort_dir, order)
}

/// There is one order at most.
proof fn lemma_order_is_unique(
    data: Seq<json::JsonModel>,
    by_id: Map<Seq<char>, models::GwTrack>,
    by: SortKey,
    sort_dir: Option<SortDir>,
    a: Seq<usize>,
    b: Seq<usize>,
)
    requires
        is_result_order(data, by_id, by, sort_dir, a),
        is_result_order(data, by_id, by, sort_dir, b),
    ensures
        a == b,
{
    match by {
        SortKey::Relevance => {
            assert forall|i: int| 0 <= i < a.len() implies a[i] == b[i] by {
                assert(a[i] == i);
                assert(b[i] == i);
            }
            assert(a =~= b);
        },
        SortKey::Duration => {
            order::stable_order_is_unique(
                sort::duration_keys(data, resolve::goes_down(sort_dir, false)),
                a,
                b,
            );
        },
        SortKey::Quality => {
            order::stable_order_is_unique(
                sort::quality_keys(data, by_id, resolve::goes_down(sort_dir, true)),
                a,
                b,
            );
        },
    }
}

/// The positions that put the results into the order of a sort key.
pub fn order_results(
    data: &Vec<Json>,
    by_id: &TrackIndex,
    by: SortKey,
    sort_dir: Option<SortDir>,
) -> (r: Vec<usize>)
    requires
        by_id.wf(),
    ensures
        is_result_order(json::items_model(data@), by_id.view(), by, sort_dir, r@),
        r@ == result_order(json::items_model(data@), by_id.view(), by, sort_dir),
        r@.len() == data@.len(),
        forall|i: int| 0 <= i < r@.len() ==> (#[trigger] r@[i]) < data@.len(),
{
    let ghost models = json::items_model(data@);
    let r = match by {
        SortKey::Relevance => {
            let mut order: Vec<usize> = Vec::new();
            let mut i: usize = 0;
            while i < data.len()
                invariant
                    i <= data@.len(),
                    order@.len() == i,
                    forall|k: int| 0 <= k < i ==> (#[trigger] order@[k]) == k,
                decreases data@.len() - i,
            {
                order.push(i);
                i = i + 1;
            }
            order
        },
        SortKey::Duration => sort::duration_sorted_indices(
            data,
            resolve::direction(sort_dir, false),
        ),
        SortKey::Quality => sort::sort_by_quality(data, by_id, resolve::direction(sort_dir, true)),
    };
    proof {
        let chosen = result_order(models, by_id.view(), by, sort_dir);
        assert(is_result_order(models, by_id.view(), by, sort_dir, r@));
        lemma_order_is_unique(models, by_id.view(), by, sort_dir, r@, chosen);
    }
    r
}

/// What a choice among results leads to: an item of this ID, or this message.
pub enum PickModel {
    Id(Seq<char>),
    Message(Seq<char>),
}

impl PickModel {
    /// Whether a result says the same.
    pub open spec fn is_answer(self, r: Result<String, String>) -> bool {
        match self {
            PickModel::Id(id) => r matches Ok(chosen) && chosen@ == id,
            PickModel::Message(e) => r matches Err(message) && message@ == e,
        }
    }
}

/// What the choice of the result at a position leads to.
pub open spec fn picked_at(
    data: Seq<json::JsonModel>,
    at: int,
    pick: nat,
    query: Seq<char>,
    what: Seq<char>,
) -> PickModel {
    if data.len() == 0 {
        PickModel::Message(nothing_found(query, what))
    } else if !(1 <= pick <= data.len()) {
        PickModel::Message(no_such_result(pick, data.len(), what))
    } else if result_id(data[at]) == 0 {
        PickModel::Message(no_id(pick, what))
    } else {
        PickModel::Id(text::decimal(result_id(data[at])))
    }
}

/// What the choice of a track leads to, among results sorted by a key.
pub open spec fn picked_track(
    data: Seq<json::JsonModel>,
    pick: nat,
    query: Seq<char>,
    by_id: Map<Seq<char>, models::GwTrack>,
    by: SortKey,
    sort_dir: Option<SortDir>,
) -> PickModel {
    picked_at(
        data,
        result_order(data, by_id, by, sort_dir)[pick - 1] as int,
        pick,
        query,
        "track"@,
    )
}

/// The ID of the chosen one of some results, sorted by a key.
pub fn pick_track(
    data: &Vec<Json>,
    pick: usize,
    query: &str,
    by_id: &TrackIndex,
    by: SortKey,
    sort_dir: Option<SortDir>,
) -> (r: Result<String, String>)
    requires
        by_id.wf(),
    ensures
        picked_track(
            json::items_model(data@),
            pick as nat,
            query@,
            by_id.view(),
            by,
            sort_dir,
        ).is_answer(r),
{
    let position: usize = match pick_position(data.len(), pick, query, "track") {
        Ok(position) => position,
        Err(message) => {
            return Err(message);
        },
    };
    let order = order_results(data, by_id, by, sort_dir);
    let at: usize = order[position];
    picked_id(&data[at], pick, "track")
}

fn picked_id(result: &Json, pick: usize, what: &str) -> (r: Result<String, String>)
    ensures
        if result_id(result.model()) == 0 {
            r matches Err(message) && message@ == no_id(pick as nat, what@)
        } else {
            r matches Ok(id) && id@ == text::decimal(result_id(result.model()))
        },
{
    let id: u64 = match result.get_u64("id") {
        Some(id) => id,
        None => 0,
    };
    if id == 0 {
        let mut s = "Result #".to_owned();
        s.append(text::decimal_text(pick as u64).as_str());
        s.append(" has no ");
        s.append(what);
        s.append(" ID.");
        Err(s)
    } else {
        Ok(text::decimal_text(id))
    }
}

/// The ID of the chosen artist among those found.
pub fn pick_artist(results: &Json, pick: usize, query: &str) -> (r: Result<String, String>)
    ensures
        picked_at(
            found(results.model()),
            pick - 1,
            pick as nat,
            query@,
            "artist"@,
        ).is_answer(r),
{
    match api::data_array(results) {
        Some(data) => match pick_position(data.len(), pick, query, "artist") {
            Ok(position) => picked_id(&data[position], pick, "artist"),
            Err(message) => Err(message),
        },
        None => Err(nothing_found_text(query, "artist")),
    }
}

/// The results with their items in the order of a sort key; relevance leaves
/// them as they came.
pub open spec fn in_order(
    results: json::JsonModel,
    by_id: Map<Seq<char>, models::GwTrack>,
    by: SortKey,
    sort_dir: Option<SortDir>,
) -> json::JsonModel {
    if by == SortKey::Relevance {
        results
    } else {
        sort::reordered(results, result_order(found(results), by_id, by, sort_dir))
    }
}

/// The results with their items in the order of a sort key. What is neither an
/// object nor null can only be left as it is.
pub fn sorted_results(
    results: Json,
    by_id: &TrackIndex,
    by: SortKey,
    sort_dir: Option<SortDir>,
) -> (r: Json)
    requires
        by_id.wf(),
        by != SortKey::Relevance ==> (results is Null || results is Object),
    ensures
        r.model() == in_order(results.model(), by_id.view(), by, sort_dir),
{
    if by == SortKey::Relevance {
        return results;
    }
    let empty: Vec<Json> = Vec::new();
    let indices = match api::data_array(&results) {
        Some(data) => order_results(data, by_id, by, sort_dir),
        None => order_results(&empty, by_id, by, sort_dir),
    };
    proof {
        assert(json::items_model(empty@) =~= Seq::empty());
    }
    let mut results = results;
    sort::reorder_results_data(&mut results, indices);
    results
}

/// The first results, as many as a search shows.
pub open spec fn shown(results: json::JsonModel, limit: nat) -> Seq<json::JsonModel> {
    if limit < found(results).len() {
        found(results).take(limit as int)
    } else {
        found(results)
    }
}

/// The results that a choice counts in: those shown, or all of them where it
/// lies behind those.
pub open spec fn offered(results: json::JsonModel, limit: nat, pick: nat) -> Seq<json::JsonModel> {
    if 1 <= pick <= shown(results, limit).len() {
        shown(results, limit)
    } else {
        found(results)
    }
}

fn data_position(members: &Vec<Member>) -> (r: Option<usize>)
    ensures
        match r {
            Some(i) => i < members@.len() && json::member(json::members_model(members@), "data"@)
                == Some(members@[i as int].value.model()),
            None => json::member(json::members_model(members@), "data"@) is None,
        },
{
    let ghost all = json::members_model(members@);
    let mut i: usize = 0;
    proof {
        assert(all.skip(0) =~= all);
    }
    while i < members.len()
        invariant
            i <= members@.len(),
            all == json::members_model(members@),
            json::member(all, "data"@) == json::member(all.skip(i as int), "data"@),
        decreases members@.len() - i,
    {
        proof {
            assert(all.skip(i as int)[0] == all[i as int]);
            assert(all.skip(i as int).skip(1) =~= all.skip(i as int + 1));
        }
        if text::same_text(members[i].key.as_str(), "data") {
            return Some(i);
        }
        i = i + 1;
    }
    None
}

/// The first results, as many as a search shows. None of them means that
/// nothing was found or nothing is to be shown.
pub fn limited_results(results: Json, limit: u32) -> (r: Vec<Json>)
    ensures
        json::items_model(r@) == shown(results.model(), limit as nat),
{
    let mut data = found_results(results);
    if data.len() > limit as usize {
        let ghost before = data@;
        data.truncate(limit as usize);
        proof {
            assert(json::items_model(data@) =~= json::items_model(before).take(limit as int));
        }
    }
    data
}

fn found_results(results: Json) -> (r: Vec<Json>)
    ensures
        json::items_model(r@) == found(results.model()),
{
    proof {
        json::lemma_model_parts(results);
    }
    let ghost whole = results.model();
    let mut data: Vec<Json> = Vec::new();
    if let Json::Object(members) = results {
        let mut members = members;
        if let Some(at) = data_position(&members) {
            let member = members.remove(at);
            proof {
                json::lemma_model_parts(member.value);
            }
            if let Json::Array(items) = member.value {
                data = items;
            }
        }
    }
    proof {
        assert(json::items_model(data@) =~= found(whole));
    }
    data
}

fn offered_results(results: Json, limit: u32, pick: usize) -> (r: Vec<Json>)
    ensures
        json::items_model(r@) == offered(results.model(), limit as nat, pick as nat),
{
    let mut data = found_results(results);
    let ghost before = data@;
    if 1 <= pick && pick <= limit as usize && data.len() > limit as usize {
        data.truncate(limit as usize);
        proof {
            assert(json::items_model(data@) =~= json::items_model(before).take(limit as int));
        }
    }
    data
}

/// A number in at least two columns.
pub open spec fn in_two_columns(n: nat) -> Seq<char> {
    if text::decimal(n).len() < 2 {
        " "@ + text::decimal(n)
    } else {
        text::decimal(n)
    }
}

fn in_two_columns_text(n: u64) -> (r: String)
    ensures
        r@ == in_two_columns(n as nat),
{
    let number = text::decimal_text(n);
    if text::chars_of(number.as_str()).len() < 2 {
        let mut s = " ".to_owned();
        s.append(number.as_str());
        s
    } else {
        number
    }
}

/// What is said of the format of a result.
pub open spec fn result_format(
    result: json::JsonModel,
    by_id: Map<Seq<char>, models::GwTrack>,
    options: DownloadOptions,
) -> Seq<char> {
    let id = text::decimal(result_id(result));
    if options.preview {
        if options.preview_and_full {
            "[preview + full]"@
        } else {
            "[preview]"@
        }
    } else if by_id.dom().contains(id) {
        track::annotation(by_id[id], options.format)
    } else {
        ""@
    }
}

/// The ID of a result and its duration, where it has one.
pub open spec fn result_suffix(result: json::JsonModel) -> Seq<char> {
    let id = "(ID: "@ + text::decimal(result_id(result));
    match json::as_unsigned(json::field(result, "duration"@)) {
        Some(secs) => id + ", "@ + sort::clock(secs) + ")"@,
        None => id + ")"@,
    }
}

/// The line of a found track.
pub open spec fn track_line(
    position: nat,
    result: json::JsonModel,
    by_id: Map<Seq<char>, models::GwTrack>,
    options: DownloadOptions,
) -> Seq<char> {
    "  "@ + in_two_columns(position) + ". "@ + models::text_or(
        json::as_text(api::inner(json::field(result, "artist"@), "name"@)),
        "Unknown"@,
    ) + " - "@ + models::text_or(json::as_text(json::field(result, "title"@)), "Unknown"@) + " "@
        + result_format(result, by_id, options) + " "@ + result_suffix(result)
}

fn track_line_text(position: u64, result: &Json, by_id: &TrackIndex, options: DownloadOptions) -> (r:
    String)
    requires
        by_id.wf(),
    ensures
        r@ == track_line(position as nat, result.model(), by_id.view(), options),
{
    let id: u64 = match result.get_u64("id") {
        Some(id) => id,
        None => 0,
    };
    let id_text = text::decimal_text(id);
    let mut s = "  ".to_owned();
    s.append(in_two_columns_text(position).as_str());
    s.append(". ");
    let artist = match result.get("artist") {
        Some(artist) => artist.get_text("name"),
        None => None,
    };
    match artist {
        Some(name) => s.append(name.as_str()),
        None => s.append("Unknown"),
    }
    s.append(" - ");
    match result.get_text("title") {
        Some(title) => s.append(title.as_str()),
        None => s.append("Unknown"),
    }
    s.append(" ");
    if options.preview {
        if options.preview_and_full {
            s.append("[preview + full]");
        } else {
            s.append("[preview]");
        }
    } else {
        match by_id.get(id_text.as_str()) {
            Some(full) => s.append(track::format_annotation(full, options.format).as_str()),
            None => s.append(""),
        }
    }
    s.append(" ");
    let mut suffix = "(ID: ".to_owned();
    suffix.append(id_text.as_str());
    if let Some(secs) = result.get_u64("duration") {
        suffix.append(", ");
        suffix.append(sort::format_duration(secs).as_str());
    }
    suffix.append(")");
    s.append(suffix.as_str());
    s
}

/// The lines of found tracks, in the order of the positions.
pub open spec fn track_lines(
    data: Seq<json::JsonModel>,
    order: Seq<usize>,
    by_id: Map<Seq<char>, models::GwTrack>,
    options: DownloadOptions,
) -> Seq<report::LineModel> {
    Seq::new(
        order.len(),
        |i: int|
            report::LineModel::Out(
                track_line((i + 1) as nat, data[order[i] as int], by_id, options),
            ),
    )
}

/// The listing of found tracks, sorted by a key.
pub open spec fn track_listing(
    query: Seq<char>,
    data: Seq<json::JsonModel>,
    by_id: Map<Seq<char>, models::GwTrack>,
    options: DownloadOptions,
    by: SortKey,
    sort_dir: Option<SortDir>,
) -> Seq<report::LineModel> {
    if data.len() == 0 {
        seq![report::LineModel::Out(nothing_found(query, "track"@))]
    } else {
        seq![report::LineModel::Out("Tracks matching '"@ + query + "':"@)] + track_lines(
            data,
            result_order(data, by_id, by, sort_dir),
            by_id,
            options,
        ) + seq![report::LineModel::Out("\nRun `deezco track <ID>` to download one."@)]
    }
}

/// Lists the tracks that a search found, sorted by a key.
pub fn list_found_tracks(
    query: &str,
    data: &Vec<Json>,
    by_id: &TrackIndex,
    options: DownloadOptions,
    by: SortKey,
    sort_dir: Option<SortDir>,
) -> (r: Vec<Line>)
    requires
        by_id.wf(),
    ensures
        report::lines_model(r@) == track_listing(
            query@,
            json::items_model(data@),
            by_id.view(),
            options,
            by,
            sort_dir,
        ),
{
    let mut lines = report::no_lines();
    if data.len() == 0 {
        report::say(&mut lines, nothing_found_text(query, "track"));
        proof {
            assert(report::lines_model(lines@) =~= seq![
                report::LineModel::Out(nothing_found(query@, "track"@)),
            ]);
        }
        return lines;
    }
    let mut title = "Tracks matching '".to_owned();
    title.append(query);
    title.append("':");
    report::say(&mut lines, title);
    let ghost first = seq![report::LineModel::Out("Tracks matching '"@ + query@ + "':"@)];
    let order = order_results(data, by_id, by, sort_dir);
    let ghost models = json::items_model(data@);
    let ghost wanted = track_lines(models, order@, by_id.view(), options);
    let mut i: usize = 0;
    proof {
        assert(report::lines_model(lines@) =~= first + wanted.take(0));
    }
    while i < order.len()
        invariant
            i <= order@.len(),
            order@.len() == data@.len(),
            by_id.wf(),
            forall|k: int| 0 <= k < order@.len() ==> (#[trigger] order@[k]) < data@.len(),
            models == json::items_model(data@),
            wanted == track_lines(models, order@, by_id.view(), options),
            report::lines_model(lines@) == first + wanted.take(i as int),
        decreases order@.len() - i,
    {
        let at: usize = order[i];
        let line = track_line_text(i as u64 + 1, &data[at], by_id, options);
        report::say(&mut lines, line);
        i = i + 1;
        proof {
            assert(report::lines_model(lines@) =~= first + wanted.take(i as int));
        }
    }
    report::say(&mut lines, "\nRun `deezco track <ID>` to download one.".to_owned());
    proof {
        assert(wanted.take(i as int) =~= wanted);
        assert(report::lines_model(lines@) =~= first + wanted + seq![
            report::LineModel::Out("\nRun `deezco track <ID>` to download one."@),
        ]);
    }
    lines
}

/// A count in a result, 0 without one.
pub open spec fn count_in(result: json::JsonModel, key: Seq<char>) -> nat {
    match json::as_unsigned(json::field(result, key)) {
        Some(n) => n,
        None => 0,
    }
}

/// The line of a found artist.
pub open spec fn artist_line(position: nat, result: json::JsonModel) -> Seq<char> {
    "  "@ + in_two_columns(position) + ". "@ + models::text_or(
        json::as_text(json::field(result, "name"@)),
        "Unknown"@,
    ) + " ("@ + text::decimal(count_in(result, "nb_fan"@)) + " fans, ID: "@ + text::decimal(
        result_id(result),
    ) + ")"@
}

fn artist_line_text(position: u64, result: &Json) -> (r: String)
    ensures
        r@ == artist_line(position as nat, result.model()),
{
    let fans: u64 = match result.get_u64("nb_fan") {
        Some(n) => n,
        None => 0,
    };
    let id: u64 = match result.get_u64("id") {
        Some(id) => id,
        None => 0,
    };
    let mut s = "  ".to_owned();
    s.append(in_two_columns_text(position).as_str());
    s.append(". ");
    match result.get_text("name") {
        Some(name) => s.append(name.as_str()),
        None => s.append("Unknown"),
    }
    s.append(" (");
    s.append(text::decimal_text(fans).as_str());
    s.append(" fans, ID: ");
    s.append(text::decimal_text(id).as_str());
    s.append(")");
    s
}

/// The lines of found artists.
pub open spec fn artist_lines(data: Seq<json::JsonModel>) -> Seq<report::LineModel> {
    Seq::new(
        data.len(),
        |i: int| report::LineModel::Out(artist_line((i + 1) as nat, data[i])),
    )
}

/// The listing of found artists.
pub open spec fn artist_listing(query: Seq<char>, data: Seq<json::JsonModel>) -> Seq<
    report::LineModel,
> {
    if data.len() == 0 {
        seq![report::LineModel::Out(nothing_found(query, "artist"@))]
    } else {
        seq![report::LineModel::Out("Artists matching '"@ + query + "':"@)] + artist_lines(data)
            + seq![
            report::LineModel::Out("\nRun `deezco artist <ID>` to download the discography."@),
        ]
    }
}

/// Lists the artists that a search found.
pub fn list_found_artists(query: &str, data: &Vec<Json>) -> (r: Vec<Line>)
    ensures
        report::lines_model(r@) == artist_listing(query@, json::items_model(data@)),
{
    let mut lines = report::no_lines();
    if data.len() == 0 {
        report::say(&mut lines, nothing_found_text(query, "artist"));
        proof {
            assert(report::lines_model(lines@) =~= seq![
                report::LineModel::Out(nothing_found(query@, "artist"@)),
            ]);
        }
        return lines;
    }
    let mut title = "Artists matching '".to_owned();
    title.append(query);
    title.append("':");
    report::say(&mut lines, title);
    let ghost first = seq![report::LineModel::Out("Artists matching '"@ + query@ + "':"@)];
    let ghost wanted = artist_lines(json::items_model(data@));
    let mut i: usize = 0;
    proof {
        assert(report::lines_model(lines@) =~= first + wanted.take(0));
    }
    while i < data.len()
        invariant
            i <= data@.len(),
            wanted == artist_lines(json::items_model(data@)),
            report::lines_model(lines@) == first + wanted.take(i as int),
        decreases data@.len() - i,
    {
        let line = artist_line_text(i as u64 + 1, &data[i]);
        report::say(&mut lines, line);
        i = i + 1;
        proof {
            assert(report::lines_model(lines@) =~= first + wanted.take(i as int));
        }
    }
    report::say(&mut lines, "\nRun `deezco artist <ID>` to download the discography.".to_owned());
    proof {
        assert(wanted.take(i as int) =~= wanted);
        assert(report::lines_model(lines@) =~= first + wanted + seq![
            report::LineModel::Out("\nRun `deezco artist <ID>` to download the discography."@),
        ]);
    }
    lines
}

/// What a query leads to.
#[derive(Debug)]
pub enum QueryStep {
    /// Search for it.
    Search,
    /// Download the item of this ID.
    Download(String),
    /// Say this, and stop.
    Say(Vec<Line>),
    /// Print this, and stop.
    Print(Json),
}

/// What a query leads to, without its representation.
pub enum QueryModel {
    Search,
    Download(Seq<char>),
    Say(Seq<report::LineModel>),
    Print(json::JsonModel),
}

impl QueryStep {
    /// The step without its representation.
    pub open spec fn model(self) -> QueryModel {
        match self {
            QueryStep::Search => QueryModel::Search,
            QueryStep::Download(id) => QueryModel::Download(id@),
            QueryStep::Say(lines) => QueryModel::Say(report::lines_model(lines@)),
            QueryStep::Print(value) => QueryModel::Print(value.model()),
        }
    }
}

/// What a choice leads to.
pub open spec fn chosen(pick: PickModel) -> QueryModel {
    match pick {
        PickModel::Id(id) => QueryModel::Download(id),
        PickModel::Message(e) => QueryModel::Say(seq![report::LineModel::Out(e)]),
    }
}

fn chosen_step(pick: Result<String, String>, Ghost(model): Ghost<PickModel>) -> (r: QueryStep)
    requires
        model.is_answer(pick),
    ensures
        r.model() == chosen(model),
{
    match pick {
        Ok(id) => QueryStep::Download(id),
        Err(message) => {
            let mut lines = report::no_lines();
            report::say(&mut lines, message);
            proof {
                assert(report::lines_model(lines@) =~= chosen(model)->Say_0);
            }
            QueryStep::Say(lines)
        },
    }
}

/// How a query begins: one that names an item is not searched for.
pub open spec fn query_start(query: Seq<char>) -> QueryModel {
    if is_direct(query) {
        QueryModel::Download(cli::extracted_id(query))
    } else {
        QueryModel::Search
    }
}

fn start_of(query: &str, what: &str) -> (r: QueryStep)
    ensures
        r.model() == query_start(query@),
{
    if is_direct_query(query) {
        QueryStep::Download(cli::extract_id(query, what))
    } else {
        QueryStep::Search
    }
}

/// A query for a track.
#[derive(Debug)]
pub struct TrackQuery {
    pub query: String,
    pub options: DownloadOptions,
    /// How many results are shown.
    pub limit: u32,
    /// Which result to download, counted from 1.
    pub pick: Option<usize>,
    /// Whether the results are printed as JSON.
    pub json: bool,
    pub sort: SortKey,
    pub sort_dir: Option<SortDir>,
}

impl TrackQuery {
    /// Which tracks are fetched before the results are dealt with: those that
    /// the quality is needed of, be it for the order or to show it.
    pub open spec fn wanted(self, results: json::JsonModel) -> Seq<Seq<char>> {
        let listed = shown(results, self.limit as nat);
        match self.pick {
            Some(pick) => if self.sort == SortKey::Quality && 1 <= pick <= found(results).len() {
                sort::result_ids(offered(results, self.limit as nat, pick as nat))
            } else {
                seq![]
            },
            None => if self.json {
                if self.sort == SortKey::Quality {
                    sort::result_ids(found(results))
                } else {
                    seq![]
                }
            } else if self.options.preview && self.sort != SortKey::Quality {
                seq![]
            } else {
                sort::result_ids(listed)
            },
        }
    }

    /// What the results lead to: a choice comes before printing, and printing
    /// before listing.
    pub open spec fn outcome(
        self,
        results: json::JsonModel,
        by_id: Map<Seq<char>, models::GwTrack>,
    ) -> QueryModel {
        match self.pick {
            Some(pick) => chosen(
                picked_track(
                    offered(results, self.limit as nat, pick as nat),
                    pick as nat,
                    self.query@,
                    by_id,
                    self.sort,
                    self.sort_dir,
                ),
            ),
            None => if self.json {
                QueryModel::Print(in_order(results, by_id, self.sort, self.sort_dir))
            } else {
                QueryModel::Say(
                    track_listing(
                        self.query@,
                        shown(results, self.limit as nat),
                        by_id,
                        self.options,
                        self.sort,
                        self.sort_dir,
                    ),
                )
            },
        }
    }

    /// How the query begins.
    pub fn start(&self) -> (r: QueryStep)
        ensures
            r.model() == query_start(self.query@),
    {
        start_of(self.query.as_str(), "track")
    }

    /// The IDs of the tracks to fetch once the results are there.
    pub fn wanted_ids(&self, results: &Json) -> (r: Vec<String>)
        ensures
            text::texts(r@) == self.wanted(results.model()),
    {
        let none: Vec<String> = Vec::new();
        proof {
            assert(text::texts(none@) =~= seq![]);
        }
        let data = match api::data_array(results) {
            Some(data) => data,
            None => {
                proof {
                    assert(shown(results.model(), self.limit as nat) =~= seq![]);
                }
                return none;
            },
        };
        let ghost models = json::items_model(data@);
        proof {
            assert(models.take(models.len() as int) =~= models);
        }
        let all: usize = data.len();
        let listed: usize = if all > self.limit as usize {
            self.limit as usize
        } else {
            all
        };
        let count: usize = match self.pick {
            Some(pick) => if self.sort == SortKey::Quality && 1 <= pick && pick <= all {
                if pick <= listed {
                    listed
                } else {
                    all
                }
            } else {
                return none;
            },
            None => if self.json {
                if self.sort == SortKey::Quality {
                    all
                } else {
                    return none;
                }
            } else if self.options.preview && self.sort != SortKey::Quality {
                return none;
            } else {
                listed
            },
        };
        sort::collect_ids(data, count)
    }

    /// What the results lead to, with the tracks that were fetched. Printing
    /// them in another order needs results that are an object or null.
    pub fn finish(&self, results: Json, by_id: &TrackIndex) -> (r: QueryStep)
        requires
            by_id.wf(),
            self.pick is None && self.json && self.sort != SortKey::Relevance ==> (results is Null
                || results is Object),
        ensures
            r.model() == self.outcome(results.model(), by_id.view()),
    {
        match self.pick {
            Some(pick) => {
                let query = self.query.as_str();
                let data = offered_results(results, self.limit, pick);
                let picked = pick_track(&data, pick, query, by_id, self.sort, self.sort_dir);
                chosen_step(
                    picked,
                    Ghost(
                        picked_track(
                            json::items_model(data@),
                            pick as nat,
                            query@,
                            by_id.view(),
                            self.sort,
                            self.sort_dir,
                        ),
                    ),
                )
            },
            None => {
                if self.json {
                    QueryStep::Print(sorted_results(results, by_id, self.sort, self.sort_dir))
                } else {
                    let data = limited_results(results, self.limit);
                    QueryStep::Say(
                        list_found_tracks(
                            self.query.as_str(),
                            &data,
                            by_id,
                            self.options,
                            self.sort,
                            self.sort_dir,
                        ),
                    )
                }
            },
        }
    }
}

/// A query for an artist.
#[derive(Debug)]
pub struct ArtistQuery {
    pub query: String,
    /// How many results are shown.
    pub limit: u32,
    /// Which result to download, counted from 1.
    pub pick: Option<usize>,
    /// Whether the results are printed as JSON.
    pub json: bool,
}

impl ArtistQuery {
    /// What the results lead to: a choice comes before printing, and printing
    /// before listing.
    pub open spec fn outcome(self, results: json::JsonModel) -> QueryModel {
        match self.pick {
            Some(pick) => chosen(
                picked_at(found(results), pick - 1, pick as nat, self.query@, "artist"@),
            ),
            None => if self.json {
                QueryModel::Print(results)
            } else {
                QueryModel::Say(artist_listing(self.query@, shown(results, self.limit as nat)))
            },
        }
    }

    /// How the query begins.
    pub fn start(&self) -> (r: QueryStep)
        ensures
            r.model() == query_start(self.query@),
    {
        start_of(self.query.as_str(), "artist")
    }

    /// What the results lead to.
    pub fn finish(&self, results: Json) -> (r: QueryStep)
        ensures
            r.model() == self.outcome(results.model()),
    {
        match self.pick {
            Some(pick) => {
                let query = self.query.as_str();
                let picked = pick_artist(&results, pick, query);
                chosen_step(
                    picked,
                    Ghost(
                        picked_at(
                            found(results.model()),
                            pick - 1,
                            pick as nat,
                            query@,
                            "artist"@,
                        ),
                    ),
                )
            },
            None => {
                if self.json {
                    QueryStep::Print(results)
                } else {
                    let data = limited_results(results, self.limit);
                    QueryStep::Say(list_found_artists(self.query.as_str(), &data))
                }
            },
        }
    }
}

/// What the command over the followed artists leads to.
#[derive(Debug, PartialEq)]
pub enum FollowingStep {
    /// Say this, and stop.
    Say(String),
    /// Download the releases of this artist.
    One(FollowedArtist),
    /// Print this, and stop.
    Print(Json),
    /// Say this, and download the releases of these artists in turn.
    All(String, Vec<FollowedArtist>),
}

/// A command over the followed artists.
#[derive(Debug)]
pub struct FollowingQuery {
    /// Which artist to download, counted from 1.
    pub pick: Option<usize>,
    /// Whether the artists are printed as JSON.
    pub json: bool,
    pub sort: SortKey,
    pub sort_dir: Option<SortDir>,
}

impl FollowingQuery {
    /// Whether a list is the artists in the order asked for. Relevance keeps
    /// the order in which they came.
    pub open spec fn is_order(self, artists: Seq<FollowedArtist>, sorted: Seq<FollowedArtist>) -> bool {
        if self.sort == SortKey::Quality {
            sort::sorted_by(
                artists,
                sorted,
                sort::artist_keys(artists, resolve::goes_down(self.sort_dir, true)),
            )
        } else {
            sorted == artists
        }
    }

    /// Whether a step is what sorted artists lead to: a choice comes before
    /// printing, and printing before downloading.
    pub open spec fn is_outcome(self, sorted: Seq<FollowedArtist>, r: FollowingStep) -> bool {
        match self.pick {
            Some(pick) => if 1 <= pick <= sorted.len() {
                r == FollowingStep::One(sorted[pick - 1])
            } else {
                r matches FollowingStep::Say(message) && message@ == no_such_result(
                    pick as nat,
                    sorted.len(),
                    "followed artist"@,
                )
            },
            None => if self.json {
                r matches FollowingStep::Print(value) && value.model() == output::following_model(
                    sorted,
                )
            } else {
                r matches FollowingStep::All(message, artists) && artists@ == sorted && message@
                    == "Downloading releases from "@ + text::decimal(sorted.len())
                    + " followed artist(s)\n"@
            },
        }
    }

    /// Why the settings make no sense, if they do not: artists have no
    /// duration.
    pub fn fault(&self) -> (r: Option<String>)
        ensures
            json::text_view(r) == (if self.sort == SortKey::Duration {
                Some("--sort duration does not apply to followed artists"@)
            } else {
                None
            }),
    {
        if self.sort == SortKey::Duration {
            Some("--sort duration does not apply to followed artists".to_owned())
        } else {
            None
        }
    }

    /// What the followed artists lead to.
    pub fn finish(&self, artists: Vec<FollowedArtist>) -> (r: FollowingStep)
        requires
            self.sort != SortKey::Duration,
        ensures
            exists|sorted: Seq<FollowedArtist>|
                self.is_order(artists@, sorted) && #[trigger] self.is_outcome(sorted, r),
    {
        let ghost all = artists@;
        let mut artists = artists;
        if self.sort == SortKey::Quality {
            sort::sort_followed_by_quality(&mut artists, resolve::direction(self.sort_dir, true));
        }
        let ghost sorted = artists@;
        assert(self.is_order(all, sorted));
        let r = match self.pick {
            Some(pick) => match pick_followed(pick, artists.len()) {
                Ok(position) => FollowingStep::One(artists.remove(position)),
                Err(message) => FollowingStep::Say(message),
            },
            None => {
                if self.json {
                    FollowingStep::Print(output::following_json(artists))
                } else {
                    let mut s = "Downloading releases from ".to_owned();
                    s.append(text::decimal_text(artists.len() as u64).as_str());
                    s.append(" followed artist(s)\n");
                    FollowingStep::All(s, artists)
                }
            },
        };
        assert(self.is_outcome(sorted, r));
        r
    }
}

proof fn lemma_order_exists(
    data: Seq<json::JsonModel>,
    by_id: Map<Seq<char>, models::GwTrack>,
    by: SortKey,
    sort_dir: Option<SortDir>,
)
    requires
        data.len() <= usize::MAX,
    ensures
        is_result_order(data, by_id, by, sort_dir, result_order(data, by_id, by, sort_dir)),
{
    let order = match by {
        SortKey::Relevance => Seq::new(data.len(), |i: int| i as usize),
        SortKey::Duration => order::stable_order_exists(
            sort::duration_keys(data, resolve::goes_down(sort_dir, false)),
        ),
        SortKey::Quality => order::stable_order_exists(
            sort::quality_keys(data, by_id, resolve::goes_down(sort_dir, true)),
        ),
    };
    assert(is_result_order(data, by_id, by, sort_dir, order));
}

proof fn lemma_order_does_not_need_tracks(
    data: Seq<json::JsonModel>,
    by_id: Map<Seq<char>, models::GwTrack>,
    other: Map<Seq<char>, models::GwTrack>,
    by: SortKey,
    sort_dir: Option<SortDir>,
)
    requires
        data.len() <= usize::MAX,
        by != SortKey::Quality,
    ensures
        result_order(data, by_id, by, sort_dir) == result_order(data, other, by, sort_dir),
{
    let a = result_order(data, by_id, by, sort_dir);
    let b = result_order(data, other, by, sort_dir);
    lemma_order_exists(data, by_id, by, sort_dir);
    lemma_order_exists(data, other, by, sort_dir);
    assert(is_result_order(data, other, by, sort_dir, a));
    lemma_order_is_unique(data, other, by, sort_dir, a, b);
}

/// A choice counts in the list that the same query shows: the item that is
/// downloaded is the one on that line, whatever the results and the sort key.
/// Where the order needs the tracks, both fetch the same ones.
pub proof fn picks_are_positions_of_the_list(
    listing: TrackQuery,
    picking: TrackQuery,
    n: usize,
    results: json::JsonModel,
    listed_by: Map<Seq<char>, models::GwTrack>,
    picked_by: Map<Seq<char>, models::GwTrack>,
)
    requires
        listing.pick is None,
        !listing.json,
        picking.pick == Some(n),
        picking.query@ == listing.query@,
        picking.limit == listing.limit,
        picking.sort == listing.sort,
        picking.sort_dir == listing.sort_dir,
        1 <= n <= shown(results, listing.limit as nat).len(),
        listing.sort == SortKey::Quality ==> listed_by == picked_by,
    ensures
        listing.sort == SortKey::Quality ==> listing.wanted(results) == picking.wanted(results),
        ({
            let data = shown(results, listing.limit as nat);
            let at = result_order(data, listed_by, listing.sort, listing.sort_dir)[n - 1] as int;
            let line = track_line(n as nat, data[at], listed_by, listing.options);
            &&& 0 <= at < data.len()
            &&& listing.outcome(results, listed_by) matches QueryModel::Say(lines)
            &&& lines[n as int] == report::LineModel::Out(line)
            &&& picking.outcome(results, picked_by) == (if result_id(data[at]) == 0 {
                QueryModel::Say(seq![report::LineModel::Out(no_id(n as nat, "track"@))])
            } else {
                QueryModel::Download(text::decimal(result_id(data[at])))
            })
        }),
{
    let data = shown(results, listing.limit as nat);
    if listing.sort != SortKey::Quality {
        lemma_order_does_not_need_tracks(
            data,
            listed_by,
            picked_by,
            listing.sort,
            listing.sort_dir,
        );
    }
    lemma_order_exists(data, listed_by, listing.sort, listing.sort_dir);
    let order = result_order(data, listed_by, listing.sort, listing.sort_dir);
    assert(0 <= order[n - 1] < data.len());
}

/// A search lists every result that it shows exactly once.
pub proof fn listings_show_every_result(
    data: Seq<json::JsonModel>,
    by_id: Map<Seq<char>, models::GwTrack>,
    by: SortKey,
    sort_dir: Option<SortDir>,
    order: Seq<usize>,
    i: int,
)
    requires
        is_result_order(data, by_id, by, sort_dir, order),
        0 <= i < data.len(),
    ensures
        order.len() == data.len(),
        exists|at: int| 0 <= at < order.len() && (#[trigger] order[at]) == i,
        forall|a: int, b: int|
            0 <= a < b < order.len() ==> (#[trigger] order[a]) != (#[trigger] order[b]),
{
    match by {
        SortKey::Relevance => {
            assert(order[i] == i);
        },
        SortKey::Duration => {
            let keys = sort::duration_keys(data, resolve::goes_down(sort_dir, false));
            order::stable_order_is_complete(keys, order, i);
            lemma_no_repeats(keys, order);
        },
        SortKey::Quality => {
            let keys = sort::quality_keys(data, by_id, resolve::goes_down(sort_dir, true));
            order::stable_order_is_complete(keys, order, i);
            lemma_no_repeats(keys, order);
        },
    }
}

proof fn lemma_no_repeats(keys: Seq<order::KeyModel>, order: Seq<usize>)
    requires
        order::is_stable_order(keys, order),
    ensures
        forall|a: int, b: int|
            0 <= a < b < order.len() ==> (#[trigger] order[a]) != (#[trigger] order[b]),
{
    assert forall|a: int, b: int| 0 <= a < b < order.len() implies (#[trigger] order[a]) != (
    #[trigger] order[b]) by {
        assert(order::goes_before(keys, order[a] as int, order[b] as int));
        order::lemma_key_total(keys[order[a] as int], keys[order[a] as int]);
    }
}

/// A query that is an address of the service, or nothing but digits, names its
/// item, and nothing is searched for. Any other query is searched for.
pub proof fn only_addresses_and_ids_are_direct(query: Seq<char>, i: int)
    ensures
        text::holds(query, "deezer.com"@) ==> query_start(query) == QueryModel::Download(
            cli::extracted_id(query),
        ),
        (forall|k: int| 0 <= k < query.len() ==> '0' <= #[trigger] query[k] <= '9')
            ==> query_start(query) == QueryModel::Download(cli::extracted_id(query)),
        !text::holds(query, "deezer.com"@) && 0 <= i < query.len() && !('0' <= query[i] <= '9')
            ==> query_start(query) is Search,
{
    if 0 <= i < query.len() && !('0' <= query[i] <= '9') {
        assert(!text::is_digit(query[i]));
    }
    if forall|k: int| 0 <= k < query.len() ==> '0' <= #[trigger] query[k] <= '9' {
        assert forall|k: int| 0 <= k < query.len() implies text::is_digit(#[trigger] query[k]) by {}
    }
}

/// Search results by quality show the best track first, unless the order goes up
/// on request, and by duration the shortest first, unless it goes down on
/// request. By relevance they stay as they came.
pub proof fn results_follow_the_sort_key(
    data: Seq<json::JsonModel>,
    by_id: Map<Seq<char>, models::GwTrack>,
    by: SortKey,
    sort_dir: Option<SortDir>,
    order: Seq<usize>,
    i: int,
    j: int,
)
    requires
        is_result_order(data, by_id, by, sort_dir, order),
        0 <= i < j < order.len(),
        by == SortKey::Duration ==> forall|k: int|
            0 <= k < data.len() ==> (json::as_unsigned(
                json::field(#[trigger] data[k], "duration"@),
            ) matches Some(n) ==> n <= u64::MAX),
    ensures
        by == SortKey::Relevance ==> order[i] == i && order[j] == j,
        by == SortKey::Quality ==> ({
            let a = sort::result_rank(data[order[i] as int], by_id);
            let b = sort::result_rank(data[order[j] as int], by_id);
            &&& b is Some ==> a is Some
            &&& b is Some ==> if sort_dir == Some(SortDir::Asc) {
                a->0 <= b->0
            } else {
                a->0 >= b->0
            }
            &&& a == b ==> order[i] < order[j]
        }),
        by == SortKey::Duration ==> ({
            let a = json::as_unsigned(json::field(data[order[i] as int], "duration"@));
            let b = json::as_unsigned(json::field(data[order[j] as int], "duration"@));
            &&& b is Some ==> a is Some
            &&& b is Some ==> if sort_dir == Some(SortDir::Desc) {
                a->0 >= b->0
            } else {
                a->0 <= b->0
            }
            &&& a == b ==> order[i] < order[j]
        }),
{
    match by {
        SortKey::Relevance => {},
        SortKey::Quality => {
            sort::results_by_quality_follow_the_direction(
                data,
                by_id,
                resolve::goes_down(sort_dir, true),
                order,
                i,
                j,
            );
        },
        SortKey::Duration => {
            assert(order[i] < data.len() && order[j] < data.len());
            let a = data[order[i] as int];
            let b = data[order[j] as int];
            sort::results_by_duration_follow_the_direction(
                data,
                resolve::goes_down(sort_dir, false),
                order,
                i,
                j,
            );
        },
    }
}

/// A search shows the first results, as many as the limit allows; a choice counts
/// in those, and where it lies behind them in all that were found.
pub proof fn searches_show_the_first_results(
    results: json::JsonModel,
    limit: nat,
    pick: nat,
    i: int,
)
    ensures
        shown(results, limit).len() == (if limit <= found(results).len() {
            limit
        } else {
            found(results).len()
        }),
        0 <= i < shown(results, limit).len() ==> shown(results, limit)[i] == found(results)[i],
        1 <= pick <= limit && pick <= found(results).len() ==> offered(results, limit, pick)
            == shown(results, limit),
        pick > limit || pick > found(results).len() || pick == 0 ==> offered(results, limit, pick)
            == found(results),
{
}

/// Lines of found tracks are numbered from 1 in the order of the list, between a
/// line that names the query and one that says how to go on.
pub proof fn found_tracks_are_numbered(
    query: Seq<char>,
    data: Seq<json::JsonModel>,
    by_id: Map<Seq<char>, models::GwTrack>,
    options: DownloadOptions,
    by: SortKey,
    sort_dir: Option<SortDir>,
    i: int,
)
    requires
        data.len() > 0,
        result_order(data, by_id, by, sort_dir).len() == data.len(),
        0 <= i < data.len(),
    ensures
        ({
            let lines = track_listing(query, data, by_id, options, by, sort_dir);
            let order = result_order(data, by_id, by, sort_dir);
            &&& lines.len() == data.len() + 2
            &&& lines[0] == report::LineModel::Out("Tracks matching '"@ + query + "':"@)
            &&& lines[i + 1] == report::LineModel::Out(
                track_line((i + 1) as nat, data[order[i] as int], by_id, options),
            )
        }),
{
}

/// Lines of found artists are numbered from 1, in the order in which they came.
pub proof fn found_artists_are_numbered(query: Seq<char>, data: Seq<json::JsonModel>, i: int)
    requires
        0 <= i < data.len(),
    ensures
        artist_listing(query, data).len() == data.len() + 2,
        artist_listing(query, data)[i + 1] == report::LineModel::Out(
            artist_line((i + 1) as nat, data[i]),
        ),
        artist_listing(query, Seq::empty()).len() == 1,
{
}

/// A choice counts from 1: it leads to the ID of the result in that place, and to
/// a message where there is no such result or the result has no ID.
pub proof fn choices_count_from_one(
    data: Seq<json::JsonModel>,
    pick: nat,
    query: Seq<char>,
    what: Seq<char>,
    members: Seq<(Seq<char>, json::JsonModel)>,
    id: nat,
)
    ensures
        data.len() == 0 || pick == 0 || pick > data.len() ==> picked_at(
            data,
            pick - 1,
            pick,
            query,
            what,
        ) is Message,
        1 <= pick <= data.len() && data[pick - 1] == json::JsonModel::Object(members)
            && members.len() > 0 && members[0] == ("id"@, json::JsonModel::Unsigned(id)) ==> (if id
            == 0 {
            picked_at(data, pick - 1, pick, query, what) is Message
        } else {
            picked_at(data, pick - 1, pick, query, what) == PickModel::Id(text::decimal(id))
        }),
{
}

/// A choice comes before printing, and printing before listing, for tracks and
/// for artists.
pub proof fn choices_come_before_printing(
    tracks: TrackQuery,
    artists: ArtistQuery,
    results: json::JsonModel,
    by_id: Map<Seq<char>, models::GwTrack>,
)
    ensures
        tracks.pick is Some ==> tracks.outcome(results, by_id) is Download || (tracks.outcome(
            results,
            by_id,
        ) is Say && tracks.outcome(results, by_id)->Say_0.len() == 1),
        tracks.pick is None && tracks.json ==> tracks.outcome(results, by_id) is Print,
        tracks.pick is None && !tracks.json ==> tracks.outcome(results, by_id) is Say,
        tracks.pick is None && tracks.json && tracks.sort == SortKey::Relevance ==> tracks.outcome(
            results,
            by_id,
        ) == QueryModel::Print(results),
        artists.pick is Some ==> artists.outcome(results) is Download || (artists.outcome(
            results,
        ) is Say && artists.outcome(results)->Say_0.len() == 1),
        artists.pick is None && artists.json ==> artists.outcome(results) == QueryModel::Print(
            results,
        ),
        artists.pick is None && !artists.json ==> artists.outcome(results) is Say,
{
}

/// Where results sort by quality, or their formats are shown, the tracks of all
/// results that are sorted or shown are fetched, and otherwise none.
pub proof fn tracks_are_fetched_where_they_count(query: TrackQuery, results: json::JsonModel)
    ensures
        query.pick is None && query.json && query.sort == SortKey::Quality ==> query.wanted(results)
            == sort::result_ids(found(results)),
        query.pick is None && query.json && query.sort != SortKey::Quality ==> query.wanted(
            results,
        ).len() == 0,
        query.pick is None && !query.json && (!query.options.preview || query.sort
            == SortKey::Quality) ==> query.wanted(results) == sort::result_ids(
            shown(results, query.limit as nat),
        ),
        query.pick is None && !query.json && query.options.preview && query.sort != SortKey::Quality
            ==> query.wanted(results).len() == 0,
        query.pick is Some && query.sort != SortKey::Quality ==> query.wanted(results).len() == 0,
        query.pick is Some && query.sort == SortKey::Quality && 1 <= query.pick->0 <= found(
            results,
        ).len() ==> query.wanted(results) == sort::result_ids(
            offered(results, query.limit as nat, query.pick->0 as nat),
        ),
{
}

/// Followed artists sorted by quality show the best first, unless the order goes
/// up on request, and those of unknown quality last; otherwise they stay as they
/// came.
pub proof fn followed_artists_follow_the_sort_key(
    query: FollowingQuery,
    artists: Seq<FollowedArtist>,
    sorted: Seq<FollowedArtist>,
    i: int,
    j: int,
)
    requires
        query.is_order(artists, sorted),
        0 <= i < j < sorted.len(),
    ensures
        query.sort != SortKey::Quality ==> sorted == artists,
        query.sort == SortKey::Quality ==> ({
            &&& sorted[j].best_quality is Some ==> sorted[i].best_quality is Some
            &&& sorted[j].best_quality is Some ==> if query.sort_dir == Some(SortDir::Asc) {
                cli::quality_format(sorted[i].best_quality->0@).order() <= cli::quality_format(
                    sorted[j].best_quality->0@,
                ).order()
            } else {
                cli::quality_format(sorted[i].best_quality->0@).order() >= cli::quality_format(
                    sorted[j].best_quality->0@,
                ).order()
            }
        }),
{
    if query.sort == SortKey::Quality {
        sort::artists_by_quality_follow_the_direction(
            artists,
            sorted,
            resolve::goes_down(query.sort_dir, true),
            i,
            j,
        );
    }
}

/// The line of a found track shows its place, its artist, its title, its format,
/// its ID and its length.
pub proof fn track_lines_show_what_was_found(
    position: nat,
    result: json::JsonModel,
    by_id: Map<Seq<char>, models::GwTrack>,
    options: DownloadOptions,
    artist: Seq<char>,
    title: Seq<char>,
    id: nat,
    secs: nat,
)
    requires
        json::field(result, "id"@) == Some(json::JsonModel::Unsigned(id)),
        json::field(result, "title"@) == Some(json::JsonModel::Text(title)),
        json::field(result, "duration"@) == Some(json::JsonModel::Unsigned(secs)),
        json::field(result, "artist"@) is Some,
        json::field(json::field(result, "artist"@)->0, "name"@) == Some(
            json::JsonModel::Text(artist),
        ),
    ensures
        track_line(position, result, by_id, options) == "  "@ + in_two_columns(position) + ". "@
            + artist + " - "@ + title + " "@ + result_format(result, by_id, options) + " "@ + (
        "(ID: "@ + text::decimal(id) + ", "@ + sort::clock(secs) + ")"@),
        !options.preview && by_id.dom().contains(text::decimal(id)) ==> result_format(
            result,
            by_id,
            options,
        ) == track::annotation(by_id[text::decimal(id)], options.format),
        !options.preview && !by_id.dom().contains(text::decimal(id)) ==> result_format(
            result,
            by_id,
            options,
        ) == ""@,
        options.preview && options.preview_and_full ==> result_format(result, by_id, options)
            == "[preview + full]"@,
        options.preview && !options.preview_and_full ==> result_format(result, by_id, options)
            == "[preview]"@,
{
}

/// The line of a found artist shows its place, its name, its fans and its ID.
pub proof fn artist_lines_show_what_was_found(
    position: nat,
    result: json::JsonModel,
    name: Seq<char>,
    id: nat,
    fans: nat,
)
    requires
        json::field(result, "id"@) == Some(json::JsonModel::Unsigned(id)),
        json::field(result, "name"@) == Some(json::JsonModel::Text(name)),
        json::field(result, "nb_fan"@) == Some(json::JsonModel::Unsigned(fans)),
    ensures
        artist_line(position, result) == "  "@ + in_two_columns(position) + ". "@ + name + " ("@
            + text::decimal(fans) + " fans, ID: "@ + text::decimal(id) + ")"@,
        position < 10 ==> in_two_columns(position) == " "@ + text::decimal(position),
        position >= 10 ==> in_two_columns(position) == text::decimal(position),
{
    if position >= 10 {
        text::lemma_decimal_digits(position / 10);
    }
}

/// A choice among followed artists counts from 1 in the sorted list, and one
/// behind the list is told so. Without a choice all of them are printed or
/// downloaded, in that order.
pub proof fn followed_artists_are_chosen_by_place(
    query: FollowingQuery,
    sorted: Seq<FollowedArtist>,
    step: FollowingStep,
)
    requires
        query.is_outcome(sorted, step),
    ensures
        query.pick matches Some(pick) ==> (1 <= pick <= sorted.len() ==> step
            == FollowingStep::One(sorted[pick - 1])),
        query.pick matches Some(pick) ==> (pick == 0 || pick > sorted.len() ==> step is Say),
        query.pick is None && query.json ==> step is Print,
        query.pick is None && !query.json ==> (step matches FollowingStep::All(_, artists)
            && artists@ == sorted),
{
}

/// What is said where a search found nothing, or fewer results than the choice.
pub proof fn searches_say_what_is_missing(query: Seq<char>, what: Seq<char>, pick: nat, count: nat)
    ensures
        nothing_found(query, what) == "No "@ + what + "s found for '"@ + query + "'."@,
        no_such_result(pick, count, what) == "No result #"@ + text::decimal(pick) + " — found "@
            + text::decimal(count) + " "@ + what + "(s)."@,
        no_id(pick, what) == "Result #"@ + text::decimal(pick) + " has no "@ + what + " ID."@,
{
}

/// Results are printed as they came, but for the order of their list, which is
/// that of the sort key: every other member stays where it is.
pub proof fn printed_results_follow_the_order(
    members: Seq<(Seq<char>, json::JsonModel)>,
    items: Seq<json::JsonModel>,
    i: int,
    by_id: Map<Seq<char>, models::GwTrack>,
    by: SortKey,
    sort_dir: Option<SortDir>,
    order: Seq<usize>,
)
    requires
        0 <= i < members.len(),
        members[i] == ("data"@, json::JsonModel::Array(items)),
        forall|k: int| 0 <= k < i ==> (#[trigger] members[k]).0 != "data"@,
        is_result_order(items, by_id, by, sort_dir, order),
    ensures
        found(json::JsonModel::Object(members)) == items,
        by == SortKey::Relevance ==> in_order(
            json::JsonModel::Object(members),
            by_id,
            by,
            sort_dir,
        ) == json::JsonModel::Object(members),
        by != SortKey::Relevance ==> in_order(
            json::JsonModel::Object(members),
            by_id,
            by,
            sort_dir,
        ) == json::JsonModel::Object(
            members.update(
                i,
                (
                    "data"@,
                    json::JsonModel::Array(Seq::new(order.len(), |k: int| items[order[k] as int])),
                ),
            ),
        ),
{
    json::the_first_member_of_a_key_counts(members, "data"@, i);
    let chosen = result_order(items, by_id, by, sort_dir);
    lemma_order_is_unique(items, by_id, by, sort_dir, chosen, order);
    sort::only_the_list_is_rearranged(members, order, i, items);
}

} // verus!
