//! The gateway: what is asked, and what the answers say.

use vstd::prelude::*;

use crate::json;
use crate::json::{Json, Member};
use crate::models;
use crate::models::CurrentUser;
use crate::text;

verus! {

/// Albums asked for at once.
pub const DISCOGRAPHY_PAGE: u64 = 100;

/// A request to the gateway.
#[derive(Debug, PartialEq)]
pub enum GwRequest {
    /// The user's data.
    UserData,
    /// One track.
    Track(String),
    /// The tracks of a playlist.
    PlaylistTracks(String),
    /// The page of a playlist.
    PlaylistPage(String),
    /// The playlists of a user.
    UserPlaylists(u64),
    /// The IDs of the favorites.
    FavoriteIds,
    /// Tracks by their IDs.
    TracksByIds(Vec<String>),
    /// A page of an artist's discography, from this album on.
    Discography(String, u64),
    /// The tracks of an album.
    AlbumTracks(String),
    /// The data of an artist.
    ArtistData(String),
}

/// The number that a text writes with an optional sign, if an `i64` holds it.
pub open spec fn signed_in(s: Seq<char>) -> Option<int> {
    if s.len() > 0 && s[0] == '-' {
        match digits_in(s.skip(1), 0x8000_0000_0000_0000) {
            Some(n) => Some(-(n as int)),
            None => None,
        }
    } else {
        match text::number_in(s, 0x7fff_ffff_ffff_ffff) {
            Some(n) => Some(n as int),
            None => None,
        }
    }
}

/// The number that decimal digits alone write, if it is at most `limit`.
pub open spec fn digits_in(s: Seq<char>, limit: nat) -> Option<nat> {
    if s.len() > 0 && s[0] == '+' {
        None
    } else {
        text::number_in(s, limit)
    }
}

/// The value that stands for a track ID in a request: a number where it is one.
pub open spec fn id_value(id: Seq<char>) -> json::JsonModel {
    match signed_in(id) {
        Some(n) => if n >= 0 {
            json::JsonModel::Unsigned(n as nat)
        } else {
            json::JsonModel::Number("-"@ + text::decimal((-n) as nat))
        },
        None => json::JsonModel::Text(id),
    }
}

/// The value that stands for a track ID in a request: a number where it is one.
pub fn sng_id_value(id: &str) -> (r: Json)
    ensures
        r.model() == id_value(id@),
{
    let chars = text::chars_of(id);
    if chars.len() > 0 && chars[0] == '-' {
        let rest = text::text_between(&chars, 1, chars.len());
        proof {
            assert(rest@ =~= id@.skip(1));
        }
        if chars.len() > 1 && chars[1] == '+' {
            assert(rest@[0] == '+');
            return Json::Text(id.to_owned());
        }
        assert(rest@.len() > 0 ==> rest@[0] == chars@[1]);
        match text::parse_number(rest.as_str(), 0x8000_0000_0000_0000) {
            Some(n) => if n == 0 {
                Json::Unsigned(0)
            } else {
                let mut s = "-".to_owned();
                s.append(text::decimal_text(n).as_str());
                Json::Number(s)
            },
            None => Json::Text(id.to_owned()),
        }
    } else {
        match text::parse_number(id, 0x7fff_ffff_ffff_ffff) {
            Some(n) => Json::Unsigned(n),
            None => Json::Text(id.to_owned()),
        }
    }
}

/// The values that stand for track IDs in a request.
pub open spec fn id_values(ids: Seq<String>) -> Seq<json::JsonModel> {
    ids.map_values(|id: String| id_value(id@))
}

/// One member of an object.
pub open spec fn one(key: Seq<char>, value: json::JsonModel) -> Seq<(Seq<char>, json::JsonModel)> {
    seq![(key, value)]
}

impl GwRequest {
    /// The method that the gateway is asked for.
    pub open spec fn method_name(self) -> Seq<char> {
        match self {
            GwRequest::UserData => "deezer.getUserData"@,
            GwRequest::Track(_) => "song.getData"@,
            GwRequest::PlaylistTracks(_) => "playlist.getSongs"@,
            GwRequest::PlaylistPage(_) => "deezer.pagePlaylist"@,
            GwRequest::UserPlaylists(_) => "deezer.pageProfile"@,
            GwRequest::FavoriteIds => "song.getFavoriteIds"@,
            GwRequest::TracksByIds(_) => "song.getListData"@,
            GwRequest::Discography(_, _) => "album.getDiscography"@,
            GwRequest::AlbumTracks(_) => "song.getListByAlbum"@,
            GwRequest::ArtistData(_) => "artist.getData"@,
        }
    }

    /// The members of the request's body.
    pub open spec fn body_members(self) -> Seq<(Seq<char>, json::JsonModel)> {
        match self {
            GwRequest::UserData => seq![],
            GwRequest::Track(id) => one("SNG_ID"@, json::JsonModel::Text(id@)),
            GwRequest::PlaylistTracks(id) => seq![
                ("PLAYLIST_ID"@, json::JsonModel::Text(id@)),
                ("nb"@, json::JsonModel::Number("-1"@)),
            ],
            GwRequest::PlaylistPage(id) => seq![
                ("PLAYLIST_ID"@, json::JsonModel::Text(id@)),
                ("lang"@, json::JsonModel::Text("en"@)),
                ("header"@, json::JsonModel::Bool(true)),
                ("tab"@, json::JsonModel::Unsigned(0)),
            ],
            GwRequest::UserPlaylists(user) => seq![
                ("USER_ID"@, json::JsonModel::Unsigned(user as nat)),
                ("tab"@, json::JsonModel::Text("playlists"@)),
                ("nb"@, json::JsonModel::Unsigned(100)),
            ],
            GwRequest::FavoriteIds => seq![
                ("nb"@, json::JsonModel::Unsigned(100000)),
                ("start"@, json::JsonModel::Unsigned(0)),
            ],
            GwRequest::TracksByIds(ids) => one("SNG_IDS"@, json::JsonModel::Array(id_values(ids@))),
            GwRequest::Discography(id, start) => seq![
                ("ART_ID"@, json::JsonModel::Text(id@)),
                ("discography_mode"@, json::JsonModel::Text("all"@)),
                ("nb"@, json::JsonModel::Unsigned(100)),
                ("nb_songs"@, json::JsonModel::Unsigned(0)),
                ("start"@, json::JsonModel::Unsigned(start as nat)),
            ],
            GwRequest::AlbumTracks(id) => seq![
                ("ALB_ID"@, json::JsonModel::Text(id@)),
                ("nb"@, json::JsonModel::Number("-1"@)),
            ],
            GwRequest::ArtistData(id) => one("ART_ID"@, json::JsonModel::Text(id@)),
        }
    }

    /// The method that the gateway is asked for.
    pub fn method(&self) -> (r: &'static str)
        ensures
            r@ == self.method_name(),
    {
        match self {
            GwRequest::UserData => "deezer.getUserData",
            GwRequest::Track(_) => "song.getData",
            GwRequest::PlaylistTracks(_) => "playlist.getSongs",
            GwRequest::PlaylistPage(_) => "deezer.pagePlaylist",
            GwRequest::UserPlaylists(_) => "deezer.pageProfile",
            GwRequest::FavoriteIds => "song.getFavoriteIds",
            GwRequest::TracksByIds(_) => "song.getListData",
            GwRequest::Discography(_, _) => "album.getDiscography",
            GwRequest::AlbumTracks(_) => "song.getListByAlbum",
            GwRequest::ArtistData(_) => "artist.getData",
        }
    }

    /// The body of the request.
    pub fn body(&self) -> (r: Json)
        ensures
            r.model() == json::JsonModel::Object(self.body_members()),
    {
        let mut m: Vec<Member> = Vec::new();
        proof {
            assert(json::members_model(m@) =~= Seq::empty());
        }
        match self {
            GwRequest::UserData => {},
            GwRequest::Track(id) => {
                json::push_member(&mut m, "SNG_ID", json::json_text(id.as_str()));
            },
            GwRequest::PlaylistTracks(id) => {
                json::push_member(&mut m, "PLAYLIST_ID", json::json_text(id.as_str()));
                json::push_member(&mut m, "nb", Json::Number("-1".to_owned()));
            },
            GwRequest::PlaylistPage(id) => {
                json::push_member(&mut m, "PLAYLIST_ID", json::json_text(id.as_str()));
                json::push_member(&mut m, "lang", json::json_text("en"));
                json::push_member(&mut m, "header", Json::Bool(true));
                json::push_member(&mut m, "tab", Json::Unsigned(0));
            },
            GwRequest::UserPlaylists(user) => {
                json::push_member(&mut m, "USER_ID", Json::Unsigned(*user));
                json::push_member(&mut m, "tab", json::json_text("playlists"));
                json::push_member(&mut m, "nb", Json::Unsigned(100));
            },
            GwRequest::FavoriteIds => {
                json::push_member(&mut m, "nb", Json::Unsigned(100000));
                json::push_member(&mut m, "start", Json::Unsigned(0));
            },
            GwRequest::TracksByIds(ids) => {
                let mut values: Vec<Json> = Vec::new();
                let mut i: usize = 0;
                proof {
                    assert(json::items_model(values@) =~= id_values(ids@).take(0));
                }
                while i < ids.len()
                    invariant
                        i <= ids@.len(),
                        json::items_model(values@) == id_values(ids@).take(i as int),
                    decreases ids@.len() - i,
                {
                    let ghost before = values@;
                    let value = sng_id_value(ids[i].as_str());
                    values.push(value);
                    i = i + 1;
                    proof {
                        assert(json::items_model(values@) =~= json::items_model(before).push(
                            value.model(),
                        ));
                        assert(json::items_model(values@) =~= id_values(ids@).take(i as int));
                    }
                }
                let list = Json::Array(values);
                proof {
                    assert(id_values(ids@).take(i as int) =~= id_values(ids@));
                    json::lemma_model_parts(list);
                }
                json::push_member(&mut m, "SNG_IDS", list);
            },
            GwRequest::Discography(id, start) => {
                json::push_member(&mut m, "ART_ID", json::json_text(id.as_str()));
                json::push_member(&mut m, "discography_mode", json::json_text("all"));
                json::push_member(&mut m, "nb", Json::Unsigned(DISCOGRAPHY_PAGE));
                json::push_member(&mut m, "nb_songs", Json::Unsigned(0));
                json::push_member(&mut m, "start", Json::Unsigned(*start));
            },
            GwRequest::AlbumTracks(id) => {
                json::push_member(&mut m, "ALB_ID", json::json_text(id.as_str()));
                json::push_member(&mut m, "nb", Json::Number("-1".to_owned()));
            },
            GwRequest::ArtistData(id) => {
                json::push_member(&mut m, "ART_ID", json::json_text(id.as_str()));
            },
        }
        let body = Json::Object(m);
        proof {
            assert(json::members_model(m@) =~= self.body_members());
            json::lemma_model_parts(body);
        }
        body
    }
}

/// A member of a member; nothing is a member of nothing.
pub open spec fn inner(value: Option<json::JsonModel>, key: Seq<char>) -> Option<json::JsonModel> {
    match value {
        Some(value) => json::field(value, key),
        None => None,
    }
}

/// Whether a user ID is that of nobody.
pub open spec fn is_nobody(user_id: Option<json::JsonModel>) -> bool {
    match user_id {
        Some(json::JsonModel::Unsigned(n)) => n == 0,
        Some(json::JsonModel::Number(_)) => false,
        Some(json::JsonModel::Text(s)) => s == "0"@,
        _ => true,
    }
}

/// The user's ID in the answer to the request for the user's data.
pub open spec fn user_id_of(data: json::JsonModel) -> Option<json::JsonModel> {
    inner(json::field(data, "USER"@), "USER_ID"@)
}

/// Whether a user is the one that the answer describes.
pub open spec fn is_user_of(user: CurrentUser, data: json::JsonModel) -> bool {
    let described = json::field(data, "USER"@);
    &&& user.id == models::amount(user_id_of(data))
    &&& user.name@ == models::text_or(json::as_text(inner(described, "BLOG_NAME"@)), "Unknown"@)
    &&& user.license_token@ == models::text_or(
        json::as_text(inner(inner(described, "OPTIONS"@), "license_token"@)),
        ""@,
    )
}

/// The logged-in user in the answer to the request for the user's data, if
/// somebody is logged in.
pub fn logged_in_user(data: &Json) -> (r: Option<CurrentUser>)
    ensures
        match r {
            Some(user) => !is_nobody(user_id_of(data.model())) && is_user_of(user, data.model()),
            None => is_nobody(user_id_of(data.model())),
        },
{
    let described = match data.get("USER") {
        Some(user) => user,
        None => {
            return None;
        },
    };
    let user_id = match described.get("USER_ID") {
        Some(id) => id,
        None => {
            return None;
        },
    };
    let id: u64 = match user_id {
        Json::Unsigned(n) => {
            if *n == 0 {
                return None;
            }
            *n
        },
        Json::Number(_) => 0,
        Json::Text(s) => {
            if text::same_text(s.as_str(), "0") {
                return None;
            }
            match text::parse_number(s.as_str(), u64::MAX) {
                Some(n) => n,
                None => 0,
            }
        },
        _ => {
            return None;
        },
    };
    let name = match described.get_text("BLOG_NAME") {
        Some(name) => name,
        None => "Unknown".to_owned(),
    };
    let license_token = match described.get("OPTIONS") {
        Some(options) => match options.get_text("license_token") {
            Some(token) => token,
            None => "".to_owned(),
        },
        None => "".to_owned(),
    };
    Some(CurrentUser { id, name, license_token })
}

/// The token in an answer: a text, or a number written out.
pub open spec fn token_in(data: json::JsonModel) -> Option<Seq<char>> {
    match json::field(data, "checkForm"@) {
        Some(form) => json::written(form),
        None => None,
    }
}

/// The token in an answer, to be kept for later requests.
pub fn token_of(data: &Json) -> (r: Option<String>)
    ensures
        json::text_view(r) == token_in(data.model()),
{
    match data.get("checkForm") {
        Some(form) => form.write_out(),
        None => None,
    }
}

/// What a refresh of the token brought: a token, nothing, or a value that is
/// none.
pub fn refreshed_token(data: &Json) -> (r: Result<Option<String>, String>)
    ensures
        match json::field(data.model(), "checkForm"@) {
            None => r == Ok::<Option<String>, String>(None),
            Some(form) => match json::written(form) {
                Some(token) => r matches Ok(Some(t)) && t@ == token,
                None => r matches Err(message) && message@ == "Unexpected checkForm type"@,
            },
        },
{
    match data.get("checkForm") {
        None => Ok(None),
        Some(form) => match form.write_out() {
            Some(token) => Ok(Some(token)),
            None => Err("Unexpected checkForm type".to_owned()),
        },
    }
}

/// Which token a request is made with.
#[derive(Debug, PartialEq)]
pub enum TokenStep {
    /// This one.
    Use(String),
    /// The one that a refresh brings.
    Refresh,
}

/// Which token a request is made with: none for the user's data, which is what
/// brings one.
pub fn request_token(method: &str, token: &Option<String>) -> (r: TokenStep)
    ensures
        if method@ == "deezer.getUserData"@ {
            r matches TokenStep::Use(t) && t@ == "null"@
        } else {
            match *token {
                Some(known) => r matches TokenStep::Use(t) && t@ == known@,
                None => r is Refresh,
            }
        },
{
    if text::same_text(method, "deezer.getUserData") {
        return TokenStep::Use("null".to_owned());
    }
    match token {
        Some(known) => TokenStep::Use(known.clone()),
        None => TokenStep::Refresh,
    }
}

/// What an answer of the gateway means for the call.
#[derive(Debug, PartialEq)]
pub enum GwStep {
    /// The token is to be refreshed and the call made once more.
    Retry,
    /// The call failed.
    Fail(String),
    /// The call succeeded.
    Done,
}

/// Whether an error says that the token is no longer good.
pub open spec fn is_token_error(error: Seq<char>) -> bool {
    text::holds(error, "invalid api token"@) || text::holds(error, "Invalid CSRF token"@)
}

/// Whether the call is made once more after an answer with this error.
pub open spec fn asks_again(error: Seq<char>, retried: bool) -> bool {
    !retried && is_token_error(error)
}

/// What an answer means, without its representation.
pub enum VerdictModel {
    Retry,
    Fail(Seq<char>),
    Done,
}

impl GwStep {
    /// The step without its representation.
    pub open spec fn model(self) -> VerdictModel {
        match self {
            GwStep::Retry => VerdictModel::Retry,
            GwStep::Fail(message) => VerdictModel::Fail(message@),
            GwStep::Done => VerdictModel::Done,
        }
    }
}

/// What an answer with this error means.
pub open spec fn verdict(
    method: Seq<char>,
    error: json::JsonModel,
    error_text: Seq<char>,
    retried: bool,
) -> VerdictModel {
    let failed = error matches json::JsonModel::Object(members) && members.len() > 0;
    if asks_again(error_text, retried) {
        VerdictModel::Retry
    } else if failed {
        VerdictModel::Fail("GW API error for "@ + method + ": "@ + error_text)
    } else {
        VerdictModel::Done
    }
}

/// Judges an answer of the gateway by its error, as a value and written out as
/// JSON. A stale token is worth one more call; an object with members is an
/// error.
pub fn judge_gw_response(method: &str, error: &Json, error_text: &str, retried: bool) -> (r: GwStep)
    ensures
        r.model() == verdict(method@, error.model(), error_text@, retried),
{
    if !retried && (text::contains(error_text, "invalid api token") || text::contains(
        error_text,
        "Invalid CSRF token",
    )) {
        return GwStep::Retry;
    }
    proof {
        json::lemma_model_parts(*error);
    }
    match error {
        Json::Object(members) => {
            if members.len() > 0 {
                let mut s = "GW API error for ".to_owned();
                s.append(method);
                s.append(": ");
                s.append(error_text);
                return GwStep::Fail(s);
            }
            GwStep::Done
        },
        _ => GwStep::Done,
    }
}

/// The IDs in the answer to the request for the favorites.
pub open spec fn favorite_ids(items: Seq<json::JsonModel>) -> Seq<Seq<char>>
    decreases items.len(),
{
    if items.len() == 0 {
        seq![]
    } else {
        let before = favorite_ids(items.drop_last());
        match json::field(items.last(), "SNG_ID"@) {
            Some(id) => match json::written(id) {
                Some(id) => before.push(id),
                None => before,
            },
            None => before,
        }
    }
}

/// The items of the `data` array of an answer.
pub open spec fn data_items(answer: json::JsonModel) -> Option<Seq<json::JsonModel>> {
    match json::field(answer, "data"@) {
        Some(json::JsonModel::Array(items)) => Some(items),
        _ => None,
    }
}

/// The items of the `data` array of an answer, if it has one.
pub fn data_array(answer: &Json) -> (r: Option<&Vec<Json>>)
    ensures
        match r {
            Some(items) => data_items(answer.model()) == Some(json::items_model(items@)),
            None => data_items(answer.model()) is None,
        },
{
    match answer.get("data") {
        Some(data) => {
            proof {
                json::lemma_model_parts(*data);
            }
            match data {
                Json::Array(items) => Some(items),
                _ => None,
            }
        },
        None => None,
    }
}

/// The items of the list of playlists in an answer.
pub open spec fn playlist_list(answer: json::JsonModel) -> Option<Seq<json::JsonModel>> {
    match inner(inner(json::field(answer, "TAB"@), "playlists"@), "data"@) {
        Some(json::JsonModel::Array(items)) => Some(items),
        _ => None,
    }
}

/// The playlists in the answer to the request for those of a user, if there is
/// a list of them.
pub fn playlist_items(answer: &Json) -> (r: Option<&Vec<Json>>)
    ensures
        match r {
            Some(items) => playlist_list(answer.model()) == Some(json::items_model(items@)),
            None => playlist_list(answer.model()) is None,
        },
{
    match answer.get("TAB") {
        Some(tab) => match tab.get("playlists") {
            Some(playlists) => data_array(playlists),
            None => None,
        },
        None => None,
    }
}

/// The IDs in the answer to the request for the favorites; items without one
/// are passed over.
pub fn read_favorite_ids(answer: &Json) -> (r: Result<Vec<String>, String>)
    ensures
        match data_items(answer.model()) {
            Some(items) => r matches Ok(ids) && crate::text::texts(ids@) == favorite_ids(items),
            None => r matches Err(message) && message@ == "No data in favorites response"@,
        },
{
    let items = match data_array(answer) {
        Some(items) => items,
        None => {
            return Err("No data in favorites response".to_owned());
        },
    };
    let ghost all = json::items_model(items@);
    let mut ids: Vec<String> = Vec::new();
    let mut i: usize = 0;
    proof {
        assert(all.take(0) =~= Seq::empty());
        assert(crate::text::texts(ids@) =~= Seq::empty());
    }
    while i < items.len()
        invariant
            i <= items@.len(),
            all == json::items_model(items@),
            crate::text::texts(ids@) == favorite_ids(all.take(i as int)),
        decreases items@.len() - i,
    {
        let ghost before = ids@;
        proof {
            assert(all.take(i as int + 1).drop_last() =~= all.take(i as int));
            assert(all.take(i as int + 1).last() == items@[i as int].model());
        }
        if let Some(id) = items[i].get("SNG_ID") {
            if let Some(id) = id.write_out() {
                ids.push(id);
                proof {
                    assert(crate::text::texts(ids@) =~= crate::text::texts(before).push(id@));
                }
            }
        }
        i = i + 1;
    }
    proof {
        assert(all.take(i as int) =~= all);
    }
    Ok(ids)
}

/// Whether a discography goes on behind the page that started at `start`.
pub open spec fn page_follows(start: nat, total: nat, count: nat) -> bool {
    start + 100 < total && count > 0
}

/// Where the next page of a discography starts, behind one that started at
/// `start` and held `count` albums of `total`; none where that was the last.
pub fn next_page(start: u64, total: u64, count: u64) -> (r: Option<u64>)
    ensures
        match r {
            Some(next) => page_follows(start as nat, total as nat, count as nat) && next == start
                + 100,
            None => !page_follows(start as nat, total as nat, count as nat),
        },
{
    if total > DISCOGRAPHY_PAGE && start < total - DISCOGRAPHY_PAGE && count > 0 {
        Some(start + DISCOGRAPHY_PAGE)
    } else {
        None
    }
}

/// The starts of the pages that are asked for, if every page holds albums.
pub open spec fn page_starts(start: nat, total: nat) -> Seq<nat>
    decreases total - start,
{
    if page_follows(start, total, 1) {
        seq![start] + page_starts(start + 100, total)
    } else {
        seq![start]
    }
}

/// The pages of a discography reach every album exactly once: each starts where
/// the one before it ended, and the last one reaches the end.
pub proof fn pages_reach_every_album(start: nat, total: nat, k: int)
    requires
        0 <= k < page_starts(start, total).len(),
    ensures
        page_starts(start, total)[k] == start + 100 * k,
        k == page_starts(start, total).len() - 1 ==> page_starts(start, total)[k] + 100 >= total,
    decreases total - start,
{
    if page_follows(start, total, 1) {
        let rest = page_starts(start + 100, total);
        assert(page_starts(start, total) == seq![start] + rest);
        lemma_pages_exist(start + 100, total);
        if k > 0 {
            pages_reach_every_album(start + 100, total, k - 1);
        }
    }
}

proof fn lemma_pages_exist(start: nat, total: nat)
    ensures
        page_starts(start, total).len() > 0,
{
}

/// The URL in one item of the media server's answer: items with errors have
/// none, of the others the first source of the first encoding counts.
pub open spec fn item_url(item: json::JsonModel) -> Option<Seq<char>> {
    if json::field(item, "errors"@) is Some {
        None
    } else {
        match json::field(item, "media"@) {
            Some(json::JsonModel::Array(media)) => if media.len() > 0 {
                match json::field(media[0], "sources"@) {
                    Some(json::JsonModel::Array(sources)) => if sources.len() > 0 {
                        json::as_text(json::field(sources[0], "url"@))
                    } else {
                        None
                    },
                    _ => None,
                }
            } else {
                None
            },
            _ => None,
        }
    }
}

/// The first URL in the items from `from` on.
pub open spec fn first_url(items: Seq<json::JsonModel>, from: int) -> Option<Seq<char>>
    decreases items.len() - from,
{
    if from < 0 || from >= items.len() {
        None
    } else {
        match item_url(items[from]) {
            Some(url) => Some(url),
            None => first_url(items, from + 1),
        }
    }
}

fn url_of_item(item: &Json) -> (r: Option<String>)
    ensures
        json::text_view(r) == item_url(item.model()),
{
    if item.get("errors").is_some() {
        return None;
    }
    match item.get("media") {
        Some(media) => {
            proof {
                json::lemma_model_parts(*media);
            }
            match media {
                Json::Array(media) => {
                    if media.len() == 0 {
                        return None;
                    }
                    match media[0].get("sources") {
                        Some(sources) => {
                            proof {
                                json::lemma_model_parts(*sources);
                            }
                            match sources {
                                Json::Array(sources) => {
                                    if sources.len() == 0 {
                                        return None;
                                    }
                                    sources[0].get_text("url")
                                },
                                _ => None,
                            }
                        },
                        None => None,
                    }
                },
                _ => None,
            }
        },
        None => None,
    }
}

/// The URL in the media server's answer: that of the first item that has one.
pub fn media_url(answer: &Json) -> (r: Option<String>)
    ensures
        json::text_view(r) == (match data_items(answer.model()) {
            Some(items) => first_url(items, 0),
            None => None,
        }),
{
    let items = match data_array(answer) {
        Some(items) => items,
        None => {
            return None;
        },
    };
    let ghost all = json::items_model(items@);
    let mut i: usize = 0;
    while i < items.len()
        invariant
            i <= items@.len(),
            all == json::items_model(items@),
            data_items(answer.model()) == Some(all),
            first_url(all, 0) == first_url(all, i as int),
        decreases items@.len() - i,
    {
        match url_of_item(&items[i]) {
            Some(url) => {
                return Some(url);
            },
            None => {},
        }
        i = i + 1;
    }
    None
}

/// The members of a request to the media server.
pub open spec fn media_request_model(
    license_token: Seq<char>,
    track_token: Seq<char>,
    format: Seq<char>,
) -> json::JsonModel {
    let encoding = json::JsonModel::Object(
        seq![
            ("cipher"@, json::JsonModel::Text("BF_CBC_STRIPE"@)),
            ("format"@, json::JsonModel::Text(format)),
        ],
    );
    let medium = json::JsonModel::Object(
        seq![
            ("type"@, json::JsonModel::Text("FULL"@)),
            ("formats"@, json::JsonModel::Array(seq![encoding])),
        ],
    );
    json::JsonModel::Object(
        seq![
            ("license_token"@, json::JsonModel::Text(license_token)),
            ("media"@, json::JsonModel::Array(seq![medium])),
            ("track_tokens"@, json::JsonModel::Array(seq![json::JsonModel::Text(track_token)])),
        ],
    )
}

/// A value as an array of its own.
pub fn singleton(value: Json) -> (r: Json)
    ensures
        r.model() == json::JsonModel::Array(seq![value.model()]),
{
    let mut items: Vec<Json> = Vec::new();
    items.push(value);
    let r = Json::Array(items);
    proof {
        json::lemma_model_parts(r);
        assert(json::items_model(items@) =~= seq![value.model()]);
    }
    r
}

/// The request to the media server for a track in one format.
pub fn media_request(license_token: &str, track_token: &str, format: &str) -> (r: Json)
    ensures
        r.model() == media_request_model(license_token@, track_token@, format@),
{
    let mut encoding: Vec<Member> = Vec::new();
    proof {
        assert(json::members_model(encoding@) =~= Seq::empty());
    }
    json::push_member(&mut encoding, "cipher", json::json_text("BF_CBC_STRIPE"));
    json::push_member(&mut encoding, "format", json::json_text(format));
    let encoding = Json::Object(encoding);
    let mut medium: Vec<Member> = Vec::new();
    proof {
        json::lemma_model_parts(encoding);
        assert(encoding.model()->Object_0 =~= seq![
            ("cipher"@, json::JsonModel::Text("BF_CBC_STRIPE"@)),
            ("format"@, json::JsonModel::Text(format@)),
        ]);
        assert(json::members_model(medium@) =~= Seq::empty());
    }
    let ghost encoding_model = encoding.model();
    json::push_member(&mut medium, "type", json::json_text("FULL"));
    json::push_member(&mut medium, "formats", singleton(encoding));
    let medium = Json::Object(medium);
    let mut body: Vec<Member> = Vec::new();
    proof {
        json::lemma_model_parts(medium);
        assert(medium.model()->Object_0 =~= seq![
            ("type"@, json::JsonModel::Text("FULL"@)),
            ("formats"@, json::JsonModel::Array(seq![encoding_model])),
        ]);
        assert(json::members_model(body@) =~= Seq::empty());
    }
    let ghost medium_model = medium.model();
    json::push_member(&mut body, "license_token", json::json_text(license_token));
    json::push_member(&mut body, "media", singleton(medium));
    json::push_member(&mut body, "track_tokens", singleton(json::json_text(track_token)));
    let body = Json::Object(body);
    proof {
        json::lemma_model_parts(body);
        assert(body.model()->Object_0 =~= seq![
            ("license_token"@, json::JsonModel::Text(license_token@)),
            ("media"@, json::JsonModel::Array(seq![medium_model])),
            ("track_tokens"@, json::JsonModel::Array(seq![json::JsonModel::Text(track_token@)])),
        ]);
    }
    body
}

/// A track ID that is a number is asked for as that number, with its sign, and
/// any other as the text that it is.
pub proof fn numeric_ids_are_sent_as_numbers(n: nat)
    requires
        n <= 0x7fff_ffff_ffff_ffff,
    ensures
        id_value(text::decimal(n)) == json::JsonModel::Unsigned(n),
        n > 0 ==> id_value(seq!['-'] + text::decimal(n)) == json::JsonModel::Number(
            "-"@ + text::decimal(n),
        ),
{
    text::lemma_decimal_digits(n);
    text::decimal_reads_back(n, 0x7fff_ffff_ffff_ffff);
    text::decimal_reads_back(n, 0x8000_0000_0000_0000);
    assert(text::is_digit(text::decimal(n)[0]));
    let signed = seq!['-'] + text::decimal(n);
    assert(signed.skip(1) =~= text::decimal(n));
    assert(signed[0] == '-');
}

/// An ID that holds anything but digits behind its first character is no number.
pub proof fn other_ids_are_sent_as_texts(id: Seq<char>, i: int)
    requires
        1 <= i < id.len(),
        !('0' <= id[i] <= '9'),
    ensures
        id_value(id) == json::JsonModel::Text(id),
{
    if id[0] == '-' {
        let rest = id.skip(1);
        assert(rest[i - 1] == id[i]);
        if rest[0] != '+' {
            assert(text::unsigned_part(rest) == rest);
            assert(!text::is_digit(rest[i - 1]));
        }
    } else {
        let digits = text::unsigned_part(id);
        let at = if id[0] == '+' {
            i - 1
        } else {
            i
        };
        assert(digits[at] == id[i]);
        assert(!text::is_digit(digits[at]));
    }
}

/// An answer is taken to speak of a stale token where it says so in one of two
/// ways, and then the call is worth making again, but only once. Otherwise an
/// error with members fails the call, and everything else is an answer.
pub proof fn answers_are_judged_by_their_error(
    method: Seq<char>,
    error: json::JsonModel,
    error_text: Seq<char>,
    retried: bool,
)
    ensures
        ({
            let stale = text::holds(error_text, "invalid api token"@) || text::holds(
                error_text,
                "Invalid CSRF token"@,
            );
            let failed = error is Object && error->Object_0.len() > 0;
            let r = verdict(method, error, error_text, retried);
            &&& r is Retry <==> stale && !retried
            &&& r is Fail <==> failed && (retried || !stale)
            &&& r is Done <==> !failed && (retried || !stale)
            &&& r is Fail ==> r == VerdictModel::Fail(
                "GW API error for "@ + method + ": "@ + error_text,
            )
        }),
{
}

/// Nobody is logged in where the user's ID is 0, as a number or a text, or where
/// there is none; any other ID is somebody's.
pub proof fn users_with_an_id_are_somebody(n: nat, s: Seq<char>)
    ensures
        is_nobody(None),
        is_nobody(Some(json::JsonModel::Null)),
        is_nobody(Some(json::JsonModel::Unsigned(n))) <==> n == 0,
        is_nobody(Some(json::JsonModel::Text(s))) <==> s == "0"@,
{
}

/// The favorites are those of the answer that have an ID, a number or a text, in
/// the order of the answer.
pub proof fn favorites_are_taken_in_order(
    items: Seq<json::JsonModel>,
    members: Seq<(Seq<char>, json::JsonModel)>,
    id: json::JsonModel,
)
    requires
        members.len() > 0,
        members[0] == ("SNG_ID"@, id),
    ensures
        favorite_ids(items.push(json::JsonModel::Object(members))) == (match id {
            json::JsonModel::Unsigned(n) => favorite_ids(items).push(text::decimal(n)),
            json::JsonModel::Number(s) => favorite_ids(items).push(s),
            json::JsonModel::Text(s) => favorite_ids(items).push(s),
            _ => favorite_ids(items),
        }),
        favorite_ids(items.push(json::JsonModel::Null)) == favorite_ids(items),
        favorite_ids(Seq::empty()).len() == 0,
{
    assert(items.push(json::JsonModel::Object(members)).drop_last() =~= items);
    assert(items.push(json::JsonModel::Null).drop_last() =~= items);
}

/// The URL of a track is the first that the answer holds: items before it that
/// have none, or that have errors, are passed over.
pub proof fn the_first_url_counts(items: Seq<json::JsonModel>, from: int, i: int)
    requires
        0 <= from <= i <= items.len(),
        forall|k: int| from <= k < i ==> item_url(#[trigger] items[k]) is None,
    ensures
        i == items.len() ==> first_url(items, from) is None,
        i < items.len() && item_url(items[i]) is Some ==> first_url(items, from) == item_url(
            items[i],
        ),
    decreases i - from,
{
    if from < i {
        assert(item_url(items[from]) is None);
        the_first_url_counts(items, from + 1, i);
    }
}

/// An item with errors has no URL, whatever else it holds. Otherwise the URL is
/// that of the first source of the first medium.
pub proof fn urls_come_from_the_first_source(
    url: Seq<char>,
    other_sources: Seq<json::JsonModel>,
    other_media: Seq<json::JsonModel>,
    errors: json::JsonModel,
    members: Seq<(Seq<char>, json::JsonModel)>,
)
    ensures
        item_url(json::JsonModel::Object(seq![("errors"@, errors)] + members)) is None,
        ({
            let source = json::JsonModel::Object(seq![("url"@, json::JsonModel::Text(url))]);
            let medium = json::JsonModel::Object(
                seq![("sources"@, json::JsonModel::Array(seq![source] + other_sources))],
            );
            item_url(
                json::JsonModel::Object(
                    seq![("media"@, json::JsonModel::Array(seq![medium] + other_media))],
                ),
            ) == Some(url)
        }),
{
    reveal_strlit("media");
    reveal_strlit("errors");
    assert("media"@.len() != "errors"@.len());
    let source = json::JsonModel::Object(seq![("url"@, json::JsonModel::Text(url))]);
    let sources = seq![source] + other_sources;
    let medium = json::JsonModel::Object(seq![("sources"@, json::JsonModel::Array(sources))]);
    let media = seq![medium] + other_media;
    let members_of_it = seq![("media"@, json::JsonModel::Array(media))];
    assert(members_of_it.skip(1).len() == 0);
    json::the_first_member_of_a_key_counts(members_of_it, "errors"@, 1);
    json::the_first_member_of_a_key_counts(members_of_it, "media"@, 0);
    assert(media[0] == medium);
    assert(sources[0] == source);
    let bad = seq![("errors"@, errors)] + members;
    assert(bad[0] == ("errors"@, errors));
}

/// A request carries what it asks for, under its own method: the ID that was
/// given, all IDs in their order, and the start of a page of 100.
pub proof fn requests_carry_what_they_ask_for(
    id: String,
    ids: Vec<String>,
    start: u64,
    user: u64,
    i: int,
)
    ensures
        GwRequest::Track(id).method_name() == "song.getData"@ && GwRequest::Track(id).body_members()
            == seq![("SNG_ID"@, json::JsonModel::Text(id@))],
        GwRequest::PlaylistTracks(id).method_name() == "playlist.getSongs"@
            && GwRequest::PlaylistTracks(id).body_members()[0] == (
            "PLAYLIST_ID"@,
            json::JsonModel::Text(id@),
        ),
        GwRequest::PlaylistPage(id).method_name() == "deezer.pagePlaylist"@
            && GwRequest::PlaylistPage(id).body_members()[0] == (
            "PLAYLIST_ID"@,
            json::JsonModel::Text(id@),
        ),
        GwRequest::AlbumTracks(id).method_name() == "song.getListByAlbum"@
            && GwRequest::AlbumTracks(id).body_members() == seq![
            ("ALB_ID"@, json::JsonModel::Text(id@)),
            ("nb"@, json::JsonModel::Number("-1"@)),
        ],
        GwRequest::ArtistData(id).method_name() == "artist.getData"@ && GwRequest::ArtistData(
            id,
        ).body_members() == seq![("ART_ID"@, json::JsonModel::Text(id@))],
        GwRequest::UserPlaylists(user).method_name() == "deezer.pageProfile"@
            && GwRequest::UserPlaylists(user).body_members()[0] == (
            "USER_ID"@,
            json::JsonModel::Unsigned(user as nat),
        ),
        GwRequest::FavoriteIds.method_name() == "song.getFavoriteIds"@
            && GwRequest::FavoriteIds.body_members() == seq![
            ("nb"@, json::JsonModel::Unsigned(100000)),
            ("start"@, json::JsonModel::Unsigned(0)),
        ],
        GwRequest::Discography(id, start).method_name() == "album.getDiscography"@
            && GwRequest::Discography(id, start).body_members() == seq![
            ("ART_ID"@, json::JsonModel::Text(id@)),
            ("discography_mode"@, json::JsonModel::Text("all"@)),
            ("nb"@, json::JsonModel::Unsigned(100)),
            ("nb_songs"@, json::JsonModel::Unsigned(0)),
            ("start"@, json::JsonModel::Unsigned(start as nat)),
        ],
        GwRequest::TracksByIds(ids).method_name() == "song.getListData"@,
        GwRequest::TracksByIds(ids).body_members().len() == 1 && GwRequest::TracksByIds(
            ids,
        ).body_members()[0].0 == "SNG_IDS"@,
        GwRequest::TracksByIds(ids).body_members()[0].1 matches json::JsonModel::Array(values)
            && values.len() == ids@.len() && (0 <= i < ids@.len() ==> values[i] == id_value(
            ids@[i]@,
        )),
{
}

/// The media server is asked for one full track, by its token and the license of
/// the user, in one format and under the striped cipher.
pub proof fn media_requests_name_one_format(
    license_token: Seq<char>,
    track_token: Seq<char>,
    format: Seq<char>,
)
    ensures
        ({
            let request = media_request_model(license_token, track_token, format);
            &&& request matches json::JsonModel::Object(members)
            &&& members.len() == 3
            &&& members[0] == ("license_token"@, json::JsonModel::Text(license_token))
            &&& members[1].0 == "media"@
            &&& members[1].1 matches json::JsonModel::Array(media)
            &&& media.len() == 1
            &&& media[0] matches json::JsonModel::Object(medium)
            &&& medium.len() == 2
            &&& medium[0] == ("type"@, json::JsonModel::Text("FULL"@))
            &&& medium[1].0 == "formats"@
            &&& medium[1].1 matches json::JsonModel::Array(formats)
            &&& formats.len() == 1
            &&& formats[0] == json::JsonModel::Object(
                seq![
                    ("cipher"@, json::JsonModel::Text("BF_CBC_STRIPE"@)),
                    ("format"@, json::JsonModel::Text(format)),
                ],
            )
            &&& members[2] == (
                "track_tokens"@,
                json::JsonModel::Array(seq![json::JsonModel::Text(track_token)]),
            )
        }),
{
}

/// What an answer holds is found where the gateway puts it: the token under
/// `checkForm`, a list under `data`, playlists in their tab.
pub proof fn answers_are_read_where_they_stand(
    token: Seq<char>,
    items: Seq<json::JsonModel>,
    rest: Seq<(Seq<char>, json::JsonModel)>,
)
    ensures
        token_in(
            json::JsonModel::Object(seq![("checkForm"@, json::JsonModel::Text(token))] + rest),
        ) == Some(token),
        data_items(
            json::JsonModel::Object(seq![("data"@, json::JsonModel::Array(items))] + rest),
        ) == Some(items),
        ({
            let list = json::JsonModel::Object(seq![("data"@, json::JsonModel::Array(items))] + rest);
            let tab = json::JsonModel::Object(seq![("playlists"@, list)] + rest);
            playlist_list(json::JsonModel::Object(seq![("TAB"@, tab)] + rest)) == Some(items)
        }),
{
    let a = seq![("checkForm"@, json::JsonModel::Text(token))] + rest;
    assert(a[0] == ("checkForm"@, json::JsonModel::Text(token)));
    let b = seq![("data"@, json::JsonModel::Array(items))] + rest;
    assert(b[0] == ("data"@, json::JsonModel::Array(items)));
    let list = json::JsonModel::Object(b);
    let c = seq![("playlists"@, list)] + rest;
    assert(c[0] == ("playlists"@, list));
    let d = seq![("TAB"@, json::JsonModel::Object(c))] + rest;
    assert(d[0] == ("TAB"@, json::JsonModel::Object(c)));
}

/// Another page follows exactly where the pages so far, of 100 albums each, do
/// not reach the announced number and the last one was not empty.
pub proof fn pages_follow_until_the_total(start: nat, total: nat, count: nat)
    ensures
        page_follows(start, total, count) <==> count > 0 && start + 100 < total,
        page_starts(start, total)[0] == start,
        total <= start + 100 ==> page_starts(start, total).len() == 1,
        start + 100 < total ==> page_starts(start, total).len() == 1 + page_starts(
            start + 100,
            total,
        ).len(),
{
    lemma_pages_exist(start, total);
}

/// The user is described by the answer: the ID as a number, the name, and the
/// token of the license, with defaults where the last two are missing.
pub proof fn users_are_described_by_the_answer(
    user: CurrentUser,
    data: json::JsonModel,
    described: json::JsonModel,
    options: json::JsonModel,
    name: Seq<char>,
    token: Seq<char>,
    id: nat,
)
    requires
        is_user_of(user, data),
        json::field(data, "USER"@) == Some(described),
        json::field(described, "USER_ID"@) == Some(json::JsonModel::Unsigned(id)),
    ensures
        user.id == id,
        json::field(described, "BLOG_NAME"@) == Some(json::JsonModel::Text(name)) ==> user.name@
            == name,
        json::field(described, "BLOG_NAME"@) is None ==> user.name@ == "Unknown"@,
        json::field(described, "OPTIONS"@) == Some(options) && json::field(
            options,
            "license_token"@,
        ) == Some(json::JsonModel::Text(token)) ==> user.license_token@ == token,
        json::field(described, "OPTIONS"@) is None ==> user.license_token@ == ""@,
{
}

} // verus!
