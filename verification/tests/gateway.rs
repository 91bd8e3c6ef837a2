use deezco::api::{
    judge_gw_response, logged_in_user, media_request, media_url, next_page, playlist_items,
    read_favorite_ids,
    refreshed_token, request_token, sng_id_value, token_of, GwRequest, GwStep, TokenStep,
};
use deezco::calls::{CallEvent, CallStep, Discography, GwCall};
use deezco::json::{Json, Member};
use deezco::models::{AlbumInfo, GwTrack, TrackFormat};
use deezco::queue::NextTrackError;
use deezco::serve::{
    error_json, health_json, next_json, next_track_refusal, playlist_listing, request_base_url,
};

fn text(s: &str) -> Json {
    Json::Text(s.to_string())
}

fn object(members: Vec<(&str, Json)>) -> Json {
    Json::Object(
        members.into_iter().map(|(k, value)| Member { key: k.to_string(), value }).collect(),
    )
}

#[test]
fn requests_name_their_method_and_body() {
    assert_eq!(GwRequest::UserData.method(), "deezer.getUserData");
    assert_eq!(GwRequest::UserData.body(), object(vec![]));
    let tracks = GwRequest::PlaylistTracks("7".to_string());
    assert_eq!(tracks.method(), "playlist.getSongs");
    assert_eq!(
        tracks.body(),
        object(vec![("PLAYLIST_ID", text("7")), ("nb", Json::Number("-1".to_string()))])
    );
    let ids = GwRequest::TracksByIds(vec!["5".to_string(), "x".to_string()]);
    assert_eq!(ids.method(), "song.getListData");
    assert_eq!(
        ids.body(),
        object(vec![("SNG_IDS", Json::Array(vec![Json::Unsigned(5), text("x")]))])
    );
    let page = GwRequest::Discography("9".to_string(), 200);
    assert_eq!(page.body().get_u64("start"), Some(200));
    assert_eq!(page.body().get_u64("nb"), Some(100));
}

#[test]
fn ids_are_numbers_where_they_can_be() {
    assert_eq!(sng_id_value("007"), Json::Unsigned(7));
    assert_eq!(sng_id_value("+5"), Json::Unsigned(5));
    assert_eq!(sng_id_value("-5"), Json::Number("-5".to_string()));
    assert_eq!(sng_id_value("-0"), Json::Unsigned(0));
    assert_eq!(sng_id_value("9223372036854775807"), Json::Unsigned(i64::MAX as u64));
    assert_eq!(sng_id_value("9223372036854775808"), text("9223372036854775808"));
    assert_eq!(
        sng_id_value("-9223372036854775808"),
        Json::Number("-9223372036854775808".to_string())
    );
    assert_eq!(sng_id_value("-+5"), text("-+5"));
    assert_eq!(sng_id_value("-"), text("-"));
    assert_eq!(sng_id_value(""), text(""));
}

fn user(id: Json) -> Json {
    object(vec![
        (
            "USER",
            object(vec![
                ("USER_ID", id),
                ("BLOG_NAME", text("me")),
                ("OPTIONS", object(vec![("license_token", text("lic"))])),
            ]),
        ),
        ("checkForm", text("tok")),
    ])
}

#[test]
fn users_are_read_from_the_answer() {
    let found = logged_in_user(&user(Json::Unsigned(42))).unwrap();
    assert_eq!((found.id, found.name.as_str(), found.license_token.as_str()), (42, "me", "lic"));
    assert_eq!(logged_in_user(&user(text("42"))).unwrap().id, 42);
    assert_eq!(logged_in_user(&user(text("x"))).unwrap().id, 0);
    assert!(logged_in_user(&user(Json::Unsigned(0))).is_none());
    assert!(logged_in_user(&user(text("0"))).is_none());
    assert!(logged_in_user(&user(Json::Null)).is_none());
    assert!(logged_in_user(&Json::Null).is_none());
    let bare = object(vec![("USER", object(vec![("USER_ID", Json::Unsigned(1))]))]);
    assert_eq!(logged_in_user(&bare).unwrap().name, "Unknown");
}

#[test]
fn tokens_are_texts_or_numbers() {
    assert_eq!(token_of(&user(Json::Null)).as_deref(), Some("tok"));
    let number = object(vec![("checkForm", Json::Unsigned(12))]);
    assert_eq!(token_of(&number).as_deref(), Some("12"));
    assert_eq!(refreshed_token(&object(vec![])), Ok(None));
    assert_eq!(refreshed_token(&number), Ok(Some("12".to_string())));
    assert_eq!(
        refreshed_token(&object(vec![("checkForm", Json::Null)])),
        Err("Unexpected checkForm type".to_string())
    );
    assert_eq!(
        request_token("deezer.getUserData", &Some("t".to_string())),
        TokenStep::Use("null".to_string())
    );
    assert_eq!(
        request_token("song.getData", &Some("t".to_string())),
        TokenStep::Use("t".to_string())
    );
    assert_eq!(request_token("song.getData", &None), TokenStep::Refresh);
}

#[test]
fn stale_tokens_are_retried_once() {
    let error = object(vec![("VALID_TOKEN_REQUIRED", text("Invalid CSRF token"))]);
    let written = "{\"VALID_TOKEN_REQUIRED\":\"Invalid CSRF token\"}";
    assert_eq!(judge_gw_response("m", &error, written, false), GwStep::Retry);
    assert_eq!(
        judge_gw_response("m", &error, written, true),
        GwStep::Fail(format!("GW API error for m: {written}"))
    );
    assert_eq!(judge_gw_response("m", &object(vec![]), "{}", false), GwStep::Done);
    assert_eq!(judge_gw_response("m", &Json::Array(vec![]), "[]", false), GwStep::Done);
    assert_eq!(judge_gw_response("m", &Json::Null, "invalid api token", false), GwStep::Retry);
}

#[test]
fn favorite_ids_are_written_out() {
    let answer = object(vec![(
        "data",
        Json::Array(vec![
            object(vec![("SNG_ID", Json::Unsigned(5))]),
            object(vec![("SNG_ID", text("6"))]),
            object(vec![("SNG_ID", Json::Null)]),
            object(vec![]),
        ]),
    )]);
    assert_eq!(read_favorite_ids(&answer).unwrap(), vec!["5", "6"]);
    assert_eq!(
        read_favorite_ids(&object(vec![])).unwrap_err(),
        "No data in favorites response"
    );
}

#[test]
fn discographies_are_paged() {
    assert_eq!(next_page(0, 250, 100), Some(100));
    assert_eq!(next_page(100, 250, 100), Some(200));
    assert_eq!(next_page(200, 250, 50), None);
    assert_eq!(next_page(0, 250, 0), None);
    assert_eq!(next_page(0, 100, 100), None);
    assert_eq!(next_page(u64::MAX, u64::MAX, 1), None);
}

fn medium(url: &str) -> Json {
    object(vec![(
        "media",
        Json::Array(vec![object(vec![(
            "sources",
            Json::Array(vec![object(vec![("url", text(url))])]),
        )])]),
    )])
}

#[test]
fn media_urls_are_found() {
    let failed = object(vec![("errors", Json::Array(vec![]))]);
    let answer = object(vec![("data", Json::Array(vec![failed, object(vec![]), medium("u")]))]);
    assert_eq!(media_url(&answer).as_deref(), Some("u"));
    assert_eq!(media_url(&object(vec![])), None);
    let request = media_request("lic", "tok", "FLAC");
    assert_eq!(request.get_text("license_token").as_deref(), Some("lic"));
    assert_eq!(request.get("track_tokens"), Some(&Json::Array(vec![text("tok")])));
}

fn track() -> GwTrack {
    let mut track = GwTrack::new(Json::Unsigned(5));
    track.sng_title = Some("T".to_string());
    track.duration = Some(text("61"));
    track
}

#[test]
fn servers_answer_with_addresses() {
    assert_eq!(request_base_url(Some("h:1"), "x", 9001), "http://h:1");
    assert_eq!(request_base_url(Some("h"), "x", 9001), "http://h:9001");
    assert_eq!(request_base_url(None, "x", 9001), "http://x:9001");
    let next = next_json(&track(), "http://h:1");
    assert_eq!(next.get_text("url").as_deref(), Some("http://h:1/tracks/5"));
    assert_eq!(next.get_text("artist").as_deref(), Some("Unknown"));
    assert_eq!(next.get_u64("duration"), Some(61));
    let list = playlist_listing("7", &vec![track()], "http://h:1");
    assert_eq!(list.get_u64("count"), Some(1));
    let health = health_json("h", 9001, TrackFormat::Mp3_320);
    assert_eq!(health.get_text("format").as_deref(), Some("MP3_320"));
    assert_eq!(health.get_u64("port"), Some(9001));
}

#[test]
fn servers_refuse_with_a_reason() {
    let empty = next_track_refusal(NextTrackError::Empty);
    assert_eq!((empty.status, empty.message.as_str()), (404, "playlist has no playable tracks"));
    let failed = next_track_refusal(NextTrackError::Fetch("down".to_string()));
    assert_eq!(failed.status, 502);
    assert_eq!(error_json(failed), object(vec![("error", text("down"))]));
}

#[test]
fn stale_tokens_are_renewed_once() {
    let stale = || CallEvent::Answer(Json::Null, "Invalid CSRF token".to_string());
    let token = |t: &str| CallEvent::Token(Some(t.to_string()));
    let mut call = GwCall::new("song.getData");
    assert_eq!(call.step(), CallStep::Look);
    call.on_event(token("old"));
    assert_eq!(call.step(), CallStep::Send("old".to_string()));
    call.on_event(stale());
    assert_eq!(call.step(), CallStep::Refresh);
    call.on_event(CallEvent::Refreshed);
    assert_eq!(call.step(), CallStep::Look);
    call.on_event(token("new"));
    assert_eq!(call.step(), CallStep::Send("new".to_string()));
    // A second stale answer counts as an answer.
    call.on_event(stale());
    assert_eq!(call.step(), CallStep::Done);
}

#[test]
fn missing_tokens_are_fetched() {
    let mut call = GwCall::new("song.getData");
    call.on_event(CallEvent::Token(None));
    assert_eq!(call.step(), CallStep::Refresh);
    call.on_event(CallEvent::Refreshed);
    assert_eq!(call.step(), CallStep::Look);
    call.on_event(CallEvent::Token(None));
    assert_eq!(call.step(), CallStep::Send("null".to_string()));
    let error = object(vec![("CODE", Json::Unsigned(4))]);
    call.on_event(CallEvent::Answer(error, "{\"CODE\":4}".to_string()));
    assert_eq!(
        call.step(),
        CallStep::Fail("GW API error for song.getData: {\"CODE\":4}".to_string())
    );
}

fn albums(count: usize) -> Vec<AlbumInfo> {
    (0..count)
        .map(|i| AlbumInfo {
            alb_id: Some(Json::Unsigned(i as u64)),
            alb_title: None,
            art_name: None,
            nb_tracks: None,
            is_official: None,
            album_type: None,
        })
        .collect()
}

#[test]
fn discographies_are_read_page_by_page() {
    let mut pages = Discography::new("27");
    assert_eq!(pages.request(), Some(GwRequest::Discography("27".to_string(), 0)));
    pages.on_page(albums(100), 150);
    assert_eq!(pages.request(), Some(GwRequest::Discography("27".to_string(), 100)));
    pages.on_page(albums(50), 150);
    assert_eq!(pages.request(), None);
    assert_eq!(pages.into_albums().len(), 150);
    let mut empty = Discography::new("27");
    empty.on_page(Vec::new(), 150);
    assert_eq!(empty.request(), None);
}

#[test]
fn playlists_are_found_in_the_profile() {
    let list = Json::Array(vec![Json::Null]);
    let tab = object(vec![("playlists", object(vec![("data", list)]))]);
    assert_eq!(playlist_items(&object(vec![("TAB", tab)])).map(|items| items.len()), Some(1));
    assert!(playlist_items(&Json::Null).is_none());
}
