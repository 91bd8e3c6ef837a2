//! What the HTTP server answers.

use vstd::prelude::*;

use crate::json;
use crate::json::{Json, Member};
use crate::models::{GwTrack, TrackFormat};
use crate::queue::NextTrackError;
use crate::text;

verus! {

/// A refused request: the HTTP status and the reason.
#[derive(Debug, PartialEq)]
pub struct ApiError {
    pub status: u16,
    pub message: String,
}

/// The answer where a playlist has no next track.
pub fn next_track_refusal(err: NextTrackError) -> (r: ApiError)
    ensures
        match err {
            NextTrackError::Empty => r.status == 404 && r.message@
                == "playlist has no playable tracks"@,
            NextTrackError::Fetch(message) => r.status == 502 && r.message == message,
        },
{
    match err {
        NextTrackError::Empty => ApiError {
            status: 404,
            message: "playlist has no playable tracks".to_owned(),
        },
        NextTrackError::Fetch(message) => ApiError { status: 502, message },
    }
}

/// The body of a refusal.
pub fn error_json(err: ApiError) -> (r: Json)
    ensures
        r.model() == json::JsonModel::Object(
            seq![("error"@, json::JsonModel::Text(err.message@))],
        ),
{
    let ghost message = err.message@;
    let mut m: Vec<Member> = Vec::new();
    proof {
        assert(json::members_model(m@) =~= Seq::empty());
    }
    json::push_member(&mut m, "error", Json::Text(err.message));
    let r = Json::Object(m);
    proof {
        json::lemma_model_parts(r);
        assert(json::members_model(m@) =~= seq![("error"@, json::JsonModel::Text(message))]);
    }
    r
}

/// The address under which a client reaches the server: the host that it asked
/// for, with the server's port where it named none.
pub open spec fn base_url(host: Seq<char>, port: nat) -> Seq<char> {
    if text::holds(host, ":"@) {
        "http://"@ + host
    } else {
        "http://"@ + host + ":"@ + text::decimal(port)
    }
}

/// The address under which a client reaches the server.
pub fn request_base_url(asked: Option<&str>, host: &str, port: u16) -> (r: String)
    ensures
        r@ == base_url(
            match asked {
                Some(asked) => asked@,
                None => host@,
            },
            port as nat,
        ),
{
    let host = match asked {
        Some(asked) => asked,
        None => host,
    };
    let mut s = "http://".to_owned();
    s.append(host);
    if !text::contains(host, ":") {
        s.append(":");
        s.append(text::decimal_text(port as u64).as_str());
    }
    s
}

/// The address of a track's audio.
pub open spec fn track_address(base: Seq<char>, track: GwTrack) -> Seq<char> {
    base + "/tracks/"@ + track.id_view()
}

/// The address of a track's audio.
pub fn track_url(base: &str, track: &GwTrack) -> (r: String)
    ensures
        r@ == track_address(base@, *track),
{
    let mut s = base.to_owned();
    s.append("/tracks/");
    s.append(track.id_str().as_str());
    s
}

/// A track as clients see it.
pub open spec fn track_model(track: GwTrack, url: Seq<char>) -> json::JsonModel {
    json::JsonModel::Object(
        seq![
            ("id"@, json::JsonModel::Text(track.id_view())),
            ("title"@, json::JsonModel::Text(track.title_view())),
            ("artist"@, json::JsonModel::Text(track.artist_view())),
            ("duration"@, json::JsonModel::Unsigned(track.seconds())),
            ("url"@, json::JsonModel::Text(url)),
        ],
    )
}

/// A track as clients see it.
pub fn track_json(track: &GwTrack, url: &str) -> (r: Json)
    ensures
        r.model() == track_model(*track, url@),
{
    let mut m: Vec<Member> = Vec::new();
    proof {
        assert(json::members_model(m@) =~= Seq::empty());
    }
    json::push_member(&mut m, "id", Json::Text(track.id_str()));
    json::push_member(&mut m, "title", Json::Text(track.title()));
    json::push_member(&mut m, "artist", Json::Text(track.artist()));
    json::push_member(&mut m, "duration", Json::Unsigned(track.duration_secs()));
    json::push_member(&mut m, "url", json::json_text(url));
    let r = Json::Object(m);
    proof {
        json::lemma_model_parts(r);
        assert(json::members_model(m@) =~= track_model(*track, url@)->Object_0);
    }
    r
}

/// The next track of a playlist, as a client sees it.
pub fn next_json(track: &GwTrack, base: &str) -> (r: Json)
    ensures
        r.model() == track_model(*track, track_address(base@, *track)),
{
    let url = track_url(base, track);
    track_json(track, url.as_str())
}

/// The tracks of a playlist, as a client sees them.
pub open spec fn track_models(tracks: Seq<GwTrack>, base: Seq<char>) -> Seq<json::JsonModel> {
    tracks.map_values(|t: GwTrack| track_model(t, track_address(base, t)))
}

/// The tracks of a playlist, with their number.
pub fn playlist_listing(id: &str, tracks: &Vec<GwTrack>, base: &str) -> (r: Json)
    ensures
        r.model() == json::JsonModel::Object(
            seq![
                ("id"@, json::JsonModel::Text(id@)),
                ("count"@, json::JsonModel::Unsigned(tracks@.len())),
                ("tracks"@, json::JsonModel::Array(track_models(tracks@, base@))),
            ],
        ),
{
    let ghost wanted = track_models(tracks@, base@);
    let mut items: Vec<Json> = Vec::new();
    let mut i: usize = 0;
    proof {
        assert(json::items_model(items@) =~= wanted.take(0));
    }
    while i < tracks.len()
        invariant
            i <= tracks@.len(),
            wanted == track_models(tracks@, base@),
            json::items_model(items@) == wanted.take(i as int),
        decreases tracks@.len() - i,
    {
        let ghost before = items@;
        let item = next_json(&tracks[i], base);
        items.push(item);
        i = i + 1;
        proof {
            assert(json::items_model(items@) =~= json::items_model(before).push(item.model()));
            assert(json::items_model(items@) =~= wanted.take(i as int));
        }
    }
    let list = Json::Array(items);
    let mut m: Vec<Member> = Vec::new();
    proof {
        json::lemma_model_parts(list);
        assert(wanted.take(i as int) =~= wanted);
        assert(json::members_model(m@) =~= Seq::empty());
    }
    json::push_member(&mut m, "id", json::json_text(id));
    json::push_member(&mut m, "count", Json::Unsigned(tracks.len() as u64));
    json::push_member(&mut m, "tracks", list);
    let r = Json::Object(m);
    proof {
        json::lemma_model_parts(r);
        assert(json::members_model(m@) =~= seq![
            ("id"@, json::JsonModel::Text(id@)),
            ("count"@, json::JsonModel::Unsigned(tracks@.len())),
            ("tracks"@, json::JsonModel::Array(wanted)),
        ]);
    }
    r
}

/// The endpoints of the server.
pub open spec fn endpoint_models() -> Seq<json::JsonModel> {
    seq![
        json::JsonModel::Text("GET /"@),
        json::JsonModel::Text("GET /api/health"@),
        json::JsonModel::Text("GET /playlists/{id}"@),
        json::JsonModel::Text("GET /playlists/{id}/next"@),
        json::JsonModel::Text("POST /playlists/{id}/next"@),
        json::JsonModel::Text("GET /tracks/{id}"@),
    ]
}

/// What the server says of itself.
pub fn health_json(host: &str, port: u16, format: TrackFormat) -> (r: Json)
    ensures
        r.model() == json::JsonModel::Object(
            seq![
                ("status"@, json::JsonModel::Text("ok"@)),
                ("service"@, json::JsonModel::Text("deezco-serve"@)),
                ("host"@, json::JsonModel::Text(host@)),
                ("port"@, json::JsonModel::Unsigned(port as nat)),
                ("format"@, json::JsonModel::Text(format.label())),
                ("crabsoup_compatible"@, json::JsonModel::Bool(true)),
                ("endpoints"@, json::JsonModel::Array(endpoint_models())),
            ],
        ),
{
    let mut items: Vec<Json> = Vec::new();
    items.push(json::json_text("GET /"));
    items.push(json::json_text("GET /api/health"));
    items.push(json::json_text("GET /playlists/{id}"));
    items.push(json::json_text("GET /playlists/{id}/next"));
    items.push(json::json_text("POST /playlists/{id}/next"));
    items.push(json::json_text("GET /tracks/{id}"));
    let list = Json::Array(items);
    let mut m: Vec<Member> = Vec::new();
    proof {
        json::lemma_model_parts(list);
        assert(json::items_model(items@) =~= endpoint_models());
        assert(json::members_model(m@) =~= Seq::empty());
    }
    json::push_member(&mut m, "status", json::json_text("ok"));
    json::push_member(&mut m, "service", json::json_text("deezco-serve"));
    json::push_member(&mut m, "host", json::json_text(host));
    json::push_member(&mut m, "port", Json::Unsigned(port as u64));
    json::push_member(&mut m, "format", json::json_text(format.api_name()));
    json::push_member(&mut m, "crabsoup_compatible", Json::Bool(true));
    json::push_member(&mut m, "endpoints", list);
    let r = Json::Object(m);
    proof {
        json::lemma_model_parts(r);
        assert(json::members_model(m@) =~= seq![
            ("status"@, json::JsonModel::Text("ok"@)),
            ("service"@, json::JsonModel::Text("deezco-serve"@)),
            ("host"@, json::JsonModel::Text(host@)),
            ("port"@, json::JsonModel::Unsigned(port as nat)),
            ("format"@, json::JsonModel::Text(format.label())),
            ("crabsoup_compatible"@, json::JsonModel::Bool(true)),
            ("endpoints"@, json::JsonModel::Array(endpoint_models())),
        ]);
    }
    r
}

/// A client is told the address that it asked under. A host that names its port
/// keeps it, and any other gets the port of the server.
pub proof fn addresses_name_a_port(host: Seq<char>, port: nat)
    ensures
        host.contains(':') ==> base_url(host, port) == "http://"@ + host,
        !host.contains(':') ==> base_url(host, port) == "http://"@ + host + ":"@ + text::decimal(
            port,
        ),
{
    reveal_strlit(":");
    if host.contains(':') {
        let i = choose|i: int| 0 <= i < host.len() && host[i] == ':';
        assert(host.subrange(i, i + 1) =~= ":"@);
        assert(text::stands_at(host, ":"@, i));
    }
    if text::holds(host, ":"@) {
        let at = choose|at: int| text::stands_at(host, ":"@, at);
        assert(host.subrange(at, at + 1)[0] == ':');
        assert(host[at] == ':');
    }
}

/// Clients see each track of a playlist in its place, under its own ID, title,
/// artist and length, and with the address of its audio.
pub proof fn clients_see_every_track(tracks: Seq<GwTrack>, base: Seq<char>, i: int)
    requires
        0 <= i < tracks.len(),
    ensures
        track_models(tracks, base).len() == tracks.len(),
        track_models(tracks, base)[i] == json::JsonModel::Object(
            seq![
                ("id"@, json::JsonModel::Text(tracks[i].id_view())),
                ("title"@, json::JsonModel::Text(tracks[i].title_view())),
                ("artist"@, json::JsonModel::Text(tracks[i].artist_view())),
                ("duration"@, json::JsonModel::Unsigned(tracks[i].seconds())),
                ("url"@, json::JsonModel::Text(base + "/tracks/"@ + tracks[i].id_view())),
            ],
        ),
{
}

} // verus!
