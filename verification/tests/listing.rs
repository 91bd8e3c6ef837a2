use deezco::cli::{extract_id, parse_format, OutputFormat, SortDir, SortKey};
use deezco::json::{Json, Member};
use deezco::models::{FollowedArtist, GwTrack, TrackFormat};
use deezco::output::{
    album_json, artist_header, favorites_json, following_json, playlist_json, print_defaults,
    search_limit, EffectiveSettings, GivenSettings, Shown,
};
use deezco::report::Line;
use deezco::resolve::{
    album_best_quality, best_available_format, direction, effective_quality, quality_rank,
    resolve_output_dir, resolve_quality_bounds, with_best,
};
use deezco::search::{
    is_direct_query, limited_results, list_found_artists, list_found_tracks,
    pick_artist, pick_followed, pick_position, pick_track, sorted_results, ArtistQuery,
    FollowingQuery, FollowingStep, QueryStep, TrackQuery,
};
use deezco::sort::{
    collect_ids, duration_sorted_indices, format_duration, index_tracks, page,
    reorder_results_data, sort_by_quality, sort_favorites, sort_followed_by_quality,
    with_duration, TrackIndex,
};
use deezco::track::DownloadOptions;

fn text(s: &str) -> Json {
    Json::Text(s.to_string())
}

fn object(members: Vec<(&str, Json)>) -> Json {
    Json::Object(
        members.into_iter().map(|(k, value)| Member { key: k.to_string(), value }).collect(),
    )
}

/// A track with the given reported sizes (0 = unavailable).
fn track_with_filesizes(flac: u64, mp3_320: u64, mp3_128: u64) -> GwTrack {
    let mut track = GwTrack::new(Json::Unsigned(1));
    track.sng_title = Some("Test".to_string());
    track.md5_origin = Some("md5".to_string());
    track.media_version = Some(Json::Unsigned(1));
    track.art_name = Some("Artist".to_string());
    track.art_id = Some(Json::Unsigned(1));
    track.filesize_mp3_128 = Some(Json::Unsigned(mp3_128));
    track.filesize_mp3_320 = Some(Json::Unsigned(mp3_320));
    track.filesize_flac = Some(Json::Unsigned(flac));
    track
}

fn index(entries: Vec<(&str, GwTrack)>) -> TrackIndex {
    let mut by_id = TrackIndex::new();
    for (id, track) in entries {
        by_id.insert(id.to_string(), track);
    }
    by_id
}

fn results(count: u64) -> Vec<Json> {
    (1..=count)
        .map(|i| object(vec![("id", Json::Unsigned(i)), ("title", text(&format!("t{i}")))]))
        .collect()
}

#[test]
fn quality_rank_orders_formats() {
    let flac = track_with_filesizes(100, 100, 100);
    let mp3_320 = track_with_filesizes(0, 100, 100);
    let mp3_128 = track_with_filesizes(0, 0, 100);
    let none = track_with_filesizes(0, 0, 0);

    assert_eq!(quality_rank(&flac), 3);
    assert_eq!(quality_rank(&mp3_320), 2);
    assert_eq!(quality_rank(&mp3_128), 1);
    assert_eq!(quality_rank(&none), 0);
}

#[test]
fn sort_by_quality_orders_by_rank_stably() {
    let by_id = index(vec![
        ("1", track_with_filesizes(0, 0, 100)),
        ("2", track_with_filesizes(100, 100, 100)),
        ("3", track_with_filesizes(0, 100, 100)),
        ("4", track_with_filesizes(100, 100, 100)),
    ]);
    // 2 and 4 both rank 3 (FLAC): their original order (2 before 4) is kept,
    // then rank 2 (id 3), then rank 1 (id 1)
    assert_eq!(sort_by_quality(&results(4), &by_id, true), vec![1, 3, 2, 0]);
}

#[test]
fn sort_by_quality_ascending_puts_lowest_first() {
    let by_id = index(vec![
        ("1", track_with_filesizes(0, 0, 100)),
        ("2", track_with_filesizes(100, 100, 100)),
        ("3", track_with_filesizes(0, 100, 100)),
    ]);
    // Ascending: rank 1 (id 1), then rank 2 (id 3), then rank 3 (id 2)
    assert_eq!(sort_by_quality(&results(3), &by_id, false), vec![0, 2, 1]);
}

#[test]
fn unknown_quality_goes_last_either_way() {
    let by_id = index(vec![
        ("2", track_with_filesizes(100, 100, 100)),
        ("3", track_with_filesizes(0, 0, 100)),
    ]);
    assert_eq!(sort_by_quality(&results(3), &by_id, false), vec![2, 1, 0]);
    assert_eq!(sort_by_quality(&results(3), &by_id, true), vec![1, 2, 0]);
    let mut artists = vec![followed(1, "A", None), followed(2, "B", Some("MP3_128"))];
    sort_followed_by_quality(&mut artists, false);
    let ids: Vec<u64> = artists.iter().map(|a| a.id).collect();
    assert_eq!(ids, vec![2, 1]);
}

#[test]
fn resolve_quality_bounds_exact_sets_both_and_overrides() {
    // --exact sets both bounds
    assert_eq!(
        resolve_quality_bounds(Some(TrackFormat::Flac), None, None),
        (Some(TrackFormat::Flac), Some(TrackFormat::Flac))
    );
    // Individual flags pass through when no exact is given
    assert_eq!(
        resolve_quality_bounds(None, Some(TrackFormat::Mp3_320), Some(TrackFormat::Mp3_128)),
        (Some(TrackFormat::Mp3_320), Some(TrackFormat::Mp3_128))
    );
    // Exact overrides conflicting individual flags
    assert_eq!(
        resolve_quality_bounds(
            Some(TrackFormat::Flac),
            Some(TrackFormat::Mp3_320),
            Some(TrackFormat::Mp3_128)
        ),
        (Some(TrackFormat::Flac), Some(TrackFormat::Flac))
    );
}

#[test]
fn quality_caps_and_conflicts() {
    assert_eq!(
        effective_quality(TrackFormat::Flac, None, Some(TrackFormat::Mp3_128)),
        Ok(TrackFormat::Mp3_128)
    );
    assert_eq!(
        effective_quality(TrackFormat::Mp3_128, None, Some(TrackFormat::Flac)),
        Ok(TrackFormat::Mp3_128)
    );
    assert_eq!(
        effective_quality(TrackFormat::Flac, Some(TrackFormat::Flac), Some(TrackFormat::Mp3_320)),
        Err("--min-quality FLAC is higher than --max-quality MP3_320; \
             no quality can satisfy both"
            .to_string())
    );
}

#[test]
fn artist_header_shows_quality_and_pluralization() {
    let base = |name: &str, albums: u64| FollowedArtist {
        id: 1,
        name: name.to_string(),
        nb_album: albums,
        best_quality: None,
    };

    assert_eq!(artist_header(&base("Artist", 12)), "--- Artist (12 albums) ---");
    assert_eq!(artist_header(&base("Artist", 1)), "--- Artist (1 album) ---");

    let mut flac = base("Artist", 12);
    flac.best_quality = Some("FLAC".to_string());
    assert_eq!(artist_header(&flac), "--- Artist (12 albums, best FLAC) ---");
}

fn followed(id: u64, name: &str, quality: Option<&str>) -> FollowedArtist {
    FollowedArtist {
        id,
        name: name.to_string(),
        nb_album: 2,
        best_quality: quality.map(|q| q.to_string()),
    }
}

#[test]
fn sort_followed_by_quality_orders_best_first_stably() {
    let mut artists = vec![
        followed(1, "Low", Some("MP3_128")),
        followed(2, "High", Some("FLAC")),
        followed(3, "Unknown", None),
        followed(4, "Mid", Some("MP3_320")),
        followed(5, "High2", Some("FLAC")),
    ];

    sort_followed_by_quality(&mut artists, true);

    let names: Vec<&str> = artists.iter().map(|a| a.name.as_str()).collect();
    // FLAC pair keeps original order (2 before 5), then 320, 128, unknown
    assert_eq!(names, vec!["High", "High2", "Mid", "Low", "Unknown"]);
}

fn favorite(id: u64, artist: &str, title: &str, mut track: GwTrack) -> GwTrack {
    track.sng_id = Json::Unsigned(id);
    track.art_name = Some(artist.to_string());
    track.sng_title = Some(title.to_string());
    track
}

fn ids_of(tracks: &[GwTrack]) -> Vec<String> {
    tracks.iter().map(|t| t.id_str()).collect()
}

#[test]
fn sort_favorites_orders_by_quality_then_artist_title() {
    let high_b = favorite(2, "B Artist", "b-title", track_with_filesizes(100, 100, 100));
    let high_a = favorite(1, "A Artist", "a-title", track_with_filesizes(100, 100, 100));
    let low_a = favorite(3, "A Artist", "a-title", track_with_filesizes(0, 0, 100));
    let mut tracks = vec![low_a, high_b, high_a];

    sort_favorites(&mut tracks, SortKey::Quality, None);

    // FLAC-available tracks first (by artist/title), then MP3_128-only
    assert_eq!(ids_of(&tracks), vec!["1", "2", "3"]);
}

fn lasting(id: u64, duration: Option<Json>) -> GwTrack {
    let mut track = track_with_filesizes(100, 100, 100);
    track.sng_id = Json::Unsigned(id);
    track.duration = duration;
    track
}

#[test]
fn sort_favorites_duration_sorts_shortest_first() {
    let mut tracks = vec![
        lasting(2, Some(Json::Unsigned(300))),
        lasting(3, None),
        lasting(1, Some(Json::Unsigned(60))),
    ];

    sort_favorites(&mut tracks, SortKey::Duration, None);

    // Shortest first; unknown duration (0s) is treated as missing and sorts
    // last
    assert_eq!(ids_of(&tracks), vec!["1", "2", "3"]);
}

#[test]
fn sort_favorites_duration_descending_longest_first() {
    let mut tracks = vec![lasting(1, Some(Json::Unsigned(60))), lasting(2, Some(Json::Unsigned(300)))];

    sort_favorites(&mut tracks, SortKey::Duration, Some(SortDir::Desc));

    assert_eq!(ids_of(&tracks), vec!["2", "1"]);
}

#[test]
fn sort_favorites_relevance_keeps_order() {
    // Low quality first, high quality second: relevance must not reorder
    let mut low = track_with_filesizes(0, 0, 100);
    low.sng_id = Json::Unsigned(10);
    let mut high = track_with_filesizes(100, 100, 100);
    high.sng_id = Json::Unsigned(20);
    let mut tracks = vec![low, high];

    sort_favorites(&mut tracks, SortKey::Relevance, None);

    assert_eq!(ids_of(&tracks), vec!["10", "20"]);
}

#[test]
fn favorites_ignore_case_and_arrival_order() {
    let make = |id: u64, artist: &str| favorite(id, artist, "T", track_with_filesizes(1, 1, 1));
    let mut one = vec![make(1, "beta"), make(2, "ALPHA"), make(3, "Gamma")];
    let mut two = vec![make(3, "Gamma"), make(1, "beta"), make(2, "ALPHA")];
    sort_favorites(&mut one, SortKey::Quality, None);
    sort_favorites(&mut two, SortKey::Quality, None);
    assert_eq!(ids_of(&one), vec!["2", "1", "3"]);
    assert_eq!(ids_of(&one), ids_of(&two));
}

#[test]
fn reorder_results_data_reorders_the_data_array() {
    let entry =
        |id: u64, title: &str| object(vec![("id", Json::Unsigned(id)), ("title", text(title))]);
    let mut results = object(vec![
        ("data", Json::Array(vec![entry(1, "first"), entry(2, "second"), entry(3, "third")])),
        ("total", Json::Unsigned(3)),
        ("next", text("https://example.com/next")),
    ]);

    reorder_results_data(&mut results, vec![2, 0, 1]);

    let titles: Vec<String> = match results.get("data") {
        Some(Json::Array(data)) => data.iter().map(|t| t.get_text("title").unwrap()).collect(),
        _ => panic!("no data"),
    };
    assert_eq!(titles, vec!["third", "first", "second"]);
    // Envelope fields are untouched
    assert_eq!(results.get_u64("total"), Some(3));
    assert_eq!(results.get_text("next").as_deref(), Some("https://example.com/next"));
}

#[test]
fn with_duration_adds_numeric_seconds() {
    let out = with_duration(vec![lasting(1, Some(text("320"))), lasting(2, None)]);
    // Normalized numeric duration, plus the raw GW field
    assert_eq!(out[0].get_u64("duration"), Some(320));
    assert_eq!(out[0].get_text("DURATION").as_deref(), Some("320"));
    // Missing duration becomes 0
    assert_eq!(out[1].get_u64("duration"), Some(0));
}

#[test]
fn format_duration_renders_minutes_and_hours() {
    assert_eq!(format_duration(0), "0:00");
    assert_eq!(format_duration(59), "0:59");
    assert_eq!(format_duration(60), "1:00");
    assert_eq!(format_duration(248), "4:08");
    assert_eq!(format_duration(3661), "1:01:01");
}

#[test]
fn duration_sorted_indices_orders_ascending_with_missing_last() {
    let data = vec![
        object(vec![("duration", Json::Unsigned(300))]),
        object(vec![]),
        object(vec![("duration", Json::Unsigned(100))]),
    ];

    assert_eq!(duration_sorted_indices(&data, false), vec![2, 0, 1]);
    // Descending: longest first, missing still last
    assert_eq!(duration_sorted_indices(&data, true), vec![0, 2, 1]);
}

#[test]
fn direction_defaults_to_natural_per_key() {
    // Quality: best first by default
    assert!(direction(None, true));
    // Duration: shortest first by default
    assert!(!direction(None, false));
    // Explicit flag wins
    assert!(!direction(Some(SortDir::Asc), true));
    assert!(direction(Some(SortDir::Desc), false));
}

#[test]
fn sort_by_quality_puts_missing_ids_last() {
    let by_id = index(vec![("2", track_with_filesizes(0, 100, 100))]);
    // Only id 2 has data (rank 2); ids 1 and 3 rank 0 and keep their order
    assert_eq!(sort_by_quality(&results(3), &by_id, true), vec![1, 0, 2]);
}

#[test]
fn parse_format_maps_quality_names_and_codes() {
    assert_eq!(parse_format("flac"), TrackFormat::Flac);
    assert_eq!(parse_format("FLAC"), TrackFormat::Flac);
    assert_eq!(parse_format("Lossless"), TrackFormat::Flac);
    assert_eq!(parse_format("9"), TrackFormat::Flac);

    assert_eq!(parse_format("320"), TrackFormat::Mp3_320);
    assert_eq!(parse_format("mp3_320"), TrackFormat::Mp3_320);
    assert_eq!(parse_format("MP3_320"), TrackFormat::Mp3_320);
    assert_eq!(parse_format("3"), TrackFormat::Mp3_320);

    assert_eq!(parse_format("128"), TrackFormat::Mp3_128);
    assert_eq!(parse_format("mp3_128"), TrackFormat::Mp3_128);
    assert_eq!(parse_format("1"), TrackFormat::Mp3_128);
}

#[test]
fn parse_format_defaults_to_mp3_320() {
    assert_eq!(parse_format(""), TrackFormat::Mp3_320);
    assert_eq!(parse_format("wav"), TrackFormat::Mp3_320);
    // Whitespace is not trimmed
    assert_eq!(parse_format(" flac"), TrackFormat::Mp3_320);
}

#[test]
fn extract_id_passes_through_plain_ids() {
    assert_eq!(extract_id("12345", "track"), "12345");
    assert_eq!(extract_id("", "track"), "");
}

#[test]
fn extract_id_parses_deezer_urls() {
    assert_eq!(extract_id("https://www.deezer.com/en/track/12345", "track"), "12345");
    assert_eq!(extract_id("https://www.deezer.com/en/playlist/67890", "playlist"), "67890");
    assert_eq!(extract_id("https://www.deezer.com/artist/42", "artist"), "42");
}

#[test]
fn extract_id_strips_query_fragments_and_trailing_slash() {
    assert_eq!(
        extract_id("https://www.deezer.com/en/track/12345?utm_source=share", "track"),
        "12345"
    );
    assert_eq!(extract_id("https://www.deezer.com/en/track/12345/", "track"), "12345");
    assert_eq!(extract_id("https://www.deezer.com/en/track/12345#fragment", "track"), "12345");
}

#[test]
fn extract_id_cuts_queries_before_slashes() {
    for url in [
        "https://www.deezer.com/en/track/12345/?utm_source=share",
        "https://www.deezer.com/en/track/12345//#a/b",
        "https://www.deezer.com/en/track/12345?next=/home/",
    ] {
        assert_eq!(extract_id(url, "track"), "12345", "{url}");
    }
    for url in ["https://deezer.com/?x", "https://www.deezer.com//#x", "deezer.com/?x"] {
        assert_eq!(extract_id(url, "track"), url);
    }
    assert_eq!(extract_id("https://deezer.com/", "track"), "deezer.com");
    assert_eq!(extract_id("https://deezer.com?x", "track"), "deezer.com");
}

#[test]
fn resolve_output_dir_prefers_flag_then_env_then_default() {
    let flag = Some("/flag".to_string());
    let env = Some("/env".to_string());
    let default = || "/downloads".to_string();

    // CLI flag wins over everything
    assert_eq!(resolve_output_dir(flag.clone(), env.clone(), default()), "/flag");
    // Env var is used when no flag is given
    assert_eq!(resolve_output_dir(None, env.clone(), default()), "/env");
    // Defaults to the OS Downloads folder when neither is set
    assert_eq!(resolve_output_dir(None, None, default()), default());
}

#[test]
fn best_quality_of_albums_is_the_best_of_their_tracks() {
    let low = track_with_filesizes(0, 0, 1);
    let high = track_with_filesizes(0, 1, 1);
    assert_eq!(best_available_format(&low), Some(TrackFormat::Mp3_128));
    let best = album_best_quality(None, &vec![low, high]);
    assert_eq!(best, Some(TrackFormat::Mp3_320));
    assert_eq!(album_best_quality(best, &vec![track_with_filesizes(0, 0, 1)]), best);
    assert_eq!(album_best_quality(None, &vec![track_with_filesizes(0, 0, 0)]), None);
}

#[test]
fn pages_join_to_the_whole_list() {
    let all: Vec<u32> = (0..7).collect();
    let mut joined = page(all.clone(), 0, Some(3));
    joined.extend(page(all.clone(), 3, Some(3)));
    joined.extend(page(all.clone(), 6, Some(3)));
    assert_eq!(joined, all);
    assert!(page(all.clone(), 9, None).is_empty());
    assert_eq!(page(all, 5, None), vec![5, 6]);
}

#[test]
fn ids_of_results_are_written_out() {
    let data = vec![object(vec![("id", Json::Unsigned(5))]), object(vec![("id", text("x"))])];
    assert_eq!(collect_ids(&data, 2), vec!["5"]);
    assert!(collect_ids(&data, 0).is_empty());
    let indexed = index_tracks(vec![track_with_filesizes(1, 1, 1)]);
    assert!(indexed.get("1").is_some());
    assert!(indexed.get("2").is_none());
}

fn track_query(query: &str, pick: Option<usize>, json: bool, sort: SortKey) -> TrackQuery {
    TrackQuery {
        query: query.to_string(),
        options: download_options(),
        limit: 1,
        pick,
        json,
        sort,
        sort_dir: None,
    }
}

fn no_tracks() -> TrackIndex {
    index_tracks(Vec::new())
}

#[test]
fn queries_for_tracks_are_searched_or_named() {
    let named = track_query("https://www.deezer.com/track/7", None, false, SortKey::Relevance);
    assert!(matches!(named.start(), QueryStep::Download(id) if id == "7"));
    let open = track_query("daft punk", None, false, SortKey::Relevance);
    assert!(matches!(open.start(), QueryStep::Search));
}

#[test]
fn queries_fetch_the_tracks_whose_quality_matters() {
    let answer = answer(results(2));
    let listed = track_query("q", None, false, SortKey::Relevance);
    assert_eq!(listed.wanted_ids(&answer), vec!["1"]);
    let mut previews = track_query("q", None, false, SortKey::Relevance);
    previews.options.preview = true;
    assert!(previews.wanted_ids(&answer).is_empty());
    let printed = track_query("q", None, true, SortKey::Relevance);
    assert!(printed.wanted_ids(&answer).is_empty());
    let printed = track_query("q", None, true, SortKey::Quality);
    assert_eq!(printed.wanted_ids(&answer), vec!["1", "2"]);
    previews.sort = SortKey::Quality;
    assert_eq!(previews.wanted_ids(&answer), vec!["1"]);
    let mut picked = track_query("q", Some(1), false, SortKey::Quality);
    assert_eq!(picked.wanted_ids(&answer), vec!["1"]);
    picked.pick = Some(2);
    assert_eq!(picked.wanted_ids(&answer), vec!["1", "2"]);
    picked.limit = 2;
    assert_eq!(picked.wanted_ids(&answer), vec!["1", "2"]);
    picked.pick = Some(3);
    assert!(picked.wanted_ids(&answer).is_empty());
    let picked = track_query("q", Some(1), false, SortKey::Duration);
    assert!(picked.wanted_ids(&answer).is_empty());
    assert!(listed.wanted_ids(&Json::Null).is_empty());
}

fn lines_of(step: QueryStep) -> Vec<Line> {
    match step {
        QueryStep::Say(lines) => lines,
        other => panic!("no lines: {other:?}"),
    }
}

#[test]
fn a_choice_comes_before_printing_and_printing_before_listing() {
    let mut pick = track_query("q", Some(2), true, SortKey::Relevance);
    pick.limit = 5;
    let step = pick.finish(answer(results(2)), &no_tracks());
    assert!(matches!(step, QueryStep::Download(id) if id == "2"));
    pick.pick = Some(3);
    assert_eq!(
        lines_of(pick.finish(answer(results(2)), &no_tracks())),
        vec![out("No result #3 — found 2 track(s).")]
    );
    let print = track_query("q", None, true, SortKey::Relevance);
    let step = print.finish(answer(results(2)), &no_tracks());
    assert!(matches!(step, QueryStep::Print(Json::Object(_))));
    let list = track_query("q", None, false, SortKey::Relevance);
    assert_eq!(lines_of(list.finish(answer(results(2)), &no_tracks())).len(), 3);
    assert_eq!(
        lines_of(list.finish(Json::Null, &no_tracks())),
        vec![out("No tracks found for 'q'.")]
    );
}

#[test]
fn the_best_quality_is_noted_where_it_is_known() {
    let artist = || FollowedArtist {
        id: 7,
        name: "A".to_string(),
        nb_album: 3,
        best_quality: Some("MP3_128".to_string()),
    };
    let best = |label: Option<&str>| FollowedArtist {
        best_quality: label.map(|l| l.to_string()),
        ..artist()
    };
    assert_eq!(with_best(artist(), Ok(Some(TrackFormat::Flac))), best(Some("FLAC")));
    assert_eq!(with_best(artist(), Ok(None)), best(None));
    assert_eq!(with_best(artist(), Err("offline".to_string())), best(None));
}

#[test]
fn picks_behind_the_listing_count_in_all_results() {
    let by_id = index(vec![
        ("1", track_with_filesizes(0, 0, 1)),
        ("2", track_with_filesizes(1, 1, 1)),
        ("3", track_with_filesizes(0, 1, 1)),
    ]);
    for (sort, id) in [(SortKey::Relevance, "3"), (SortKey::Quality, "1")] {
        let mut pick = track_query("q", Some(3), false, sort);
        pick.limit = 2;
        let step = pick.finish(answer(results(3)), &by_id);
        assert!(matches!(step, QueryStep::Download(picked) if picked == id));
        pick.limit = 0;
        let step = pick.finish(answer(results(3)), &by_id);
        assert!(matches!(step, QueryStep::Download(picked) if picked == id));
        pick.pick = Some(4);
        assert_eq!(
            lines_of(pick.finish(answer(results(3)), &by_id)),
            vec![out("No result #4 — found 3 track(s).")]
        );
    }
}

#[test]
fn picks_are_positions_of_the_listing() {
    let by_id = index(vec![
        ("1", track_with_filesizes(0, 0, 1)),
        ("2", track_with_filesizes(1, 1, 1)),
        ("3", track_with_filesizes(0, 1, 1)),
        ("4", track_with_filesizes(1, 1, 1)),
    ]);
    for sort in [SortKey::Relevance, SortKey::Duration, SortKey::Quality] {
        for preview in [false, true] {
            let mut list = track_query("q", None, false, sort);
            list.limit = 3;
            list.options.preview = preview;
            let lines = lines_of(list.finish(answer(results(4)), &by_id));
            assert_eq!(lines.len(), 5);
            for n in 1..=3 {
                let mut pick = track_query("q", Some(n), false, sort);
                pick.limit = 3;
                pick.options.preview = preview;
                if sort == SortKey::Quality {
                    assert_eq!(
                        pick.wanted_ids(&answer(results(4))),
                        list.wanted_ids(&answer(results(4)))
                    );
                }
                let id = match pick.finish(answer(results(4)), &by_id) {
                    QueryStep::Download(id) => id,
                    other => panic!("no download: {other:?}"),
                };
                match &lines[n] {
                    Line::Out(line) => assert!(line.ends_with(&format!("(ID: {id})")), "{line}"),
                    other => panic!("no listing: {other:?}"),
                }
            }
        }
    }
}

#[test]
fn queries_for_artists_go_the_same_way() {
    let ask = |pick: Option<usize>, json: bool| ArtistQuery {
        query: "q".to_string(),
        limit: 1,
        pick,
        json,
    };
    assert!(matches!(ask(None, false).start(), QueryStep::Search));
    let step = ask(Some(1), true).finish(answer(results(2)));
    assert!(matches!(step, QueryStep::Download(id) if id == "1"));
    assert!(matches!(ask(None, true).finish(Json::Null), QueryStep::Print(Json::Null)));
    assert_eq!(
        lines_of(ask(None, false).finish(Json::Null)),
        vec![out("No artists found for 'q'.")]
    );
}

#[test]
fn followed_artists_are_sorted_picked_printed_or_downloaded() {
    let artist = |name: &str, quality: Option<&str>| FollowedArtist {
        id: 1,
        name: name.to_string(),
        nb_album: 2,
        best_quality: quality.map(str::to_string),
    };
    let artists = || vec![artist("a", None), artist("b", Some("FLAC"))];
    let ask = |pick: Option<usize>, json: bool, sort: SortKey| FollowingQuery {
        pick,
        json,
        sort,
        sort_dir: None,
    };
    assert_eq!(
        ask(None, false, SortKey::Duration).fault().as_deref(),
        Some("--sort duration does not apply to followed artists")
    );
    assert_eq!(ask(None, false, SortKey::Quality).fault(), None);
    assert_eq!(
        ask(Some(1), true, SortKey::Quality).finish(artists()),
        FollowingStep::One(artist("b", Some("FLAC")))
    );
    assert_eq!(
        ask(Some(3), true, SortKey::Relevance).finish(artists()),
        FollowingStep::Say("No result #3 — found 2 followed artist(s).".to_string())
    );
    assert!(matches!(
        ask(None, true, SortKey::Relevance).finish(artists()),
        FollowingStep::Print(Json::Object(_))
    ));
    assert_eq!(
        ask(None, false, SortKey::Relevance).finish(artists()),
        FollowingStep::All(
            "Downloading releases from 2 followed artist(s)\n".to_string(),
            artists()
        )
    );
}

fn download_options() -> DownloadOptions {
    DownloadOptions {
        format: TrackFormat::Flac,
        min_format: None,
        preview: false,
        preview_and_full: false,
    }
}

#[test]
fn queries_may_name_an_item() {
    assert!(is_direct_query("12345"));
    assert!(is_direct_query(""));
    assert!(is_direct_query("https://www.deezer.com/track/1"));
    assert!(!is_direct_query("daft punk"));
    assert!(!is_direct_query("1a"));
}

fn answer(data: Vec<Json>) -> Json {
    object(vec![("data", Json::Array(data)), ("total", Json::Unsigned(9))])
}

#[test]
fn picks_are_checked_against_the_results() {
    assert_eq!(
        pick_position(0, 1, "q", "track").unwrap_err(),
        "No tracks found for 'q'."
    );
    assert_eq!(
        pick_position(2, 3, "q", "artist").unwrap_err(),
        "No result #3 — found 2 artist(s)."
    );
    assert_eq!(pick_position(2, 2, "q", "track"), Ok(1));
    assert_eq!(
        pick_followed(0, 4).unwrap_err(),
        "No result #0 — found 4 followed artist(s)."
    );
    assert_eq!(pick_followed(4, 4), Ok(3));
}

#[test]
fn picks_go_by_the_sorted_order() {
    let by_id = index(vec![("2", track_with_filesizes(1, 1, 1))]);
    let pick = |n: usize, by: SortKey| pick_track(&results(2), n, "q", &by_id, by, None);
    assert_eq!(pick(1, SortKey::Relevance), Ok("1".to_string()));
    assert_eq!(pick(1, SortKey::Quality), Ok("2".to_string()));
    assert_eq!(pick_artist(&answer(results(2)), 2, "q"), Ok("2".to_string()));
    assert_eq!(
        pick_artist(&answer(vec![object(vec![])]), 1, "q").unwrap_err(),
        "Result #1 has no artist ID."
    );
    assert_eq!(
        pick_track(&vec![object(vec![])], 1, "q", &by_id, SortKey::Duration, None)
            .unwrap_err(),
        "Result #1 has no track ID."
    );
}

#[test]
fn json_results_are_sorted_in_place() {
    let by_id = index(vec![("2", track_with_filesizes(1, 1, 1))]);
    let sorted = sorted_results(answer(results(2)), &by_id, SortKey::Quality, None);
    let first = match sorted.get("data") {
        Some(Json::Array(data)) => data[0].get_u64("id"),
        _ => None,
    };
    assert_eq!(first, Some(2));
    assert_eq!(sorted.get_u64("total"), Some(9));
    let kept = sorted_results(answer(results(2)), &by_id, SortKey::Relevance, None);
    assert_eq!(kept, answer(results(2)));
}

fn out(s: &str) -> Line {
    Line::Out(s.to_string())
}

#[test]
fn found_tracks_are_listed() {
    let result = object(vec![
        ("id", Json::Unsigned(7)),
        ("title", text("Song")),
        ("artist", object(vec![("name", text("Band"))])),
        ("duration", Json::Unsigned(61)),
    ]);
    let by_id = index(vec![("7", track_with_filesizes(0, 1, 1))]);
    let data = limited_results(answer(vec![result, object(vec![])]), 5);
    let lines =
        list_found_tracks("q", &data, &by_id, download_options(), SortKey::Quality, None);
    assert_eq!(
        lines,
        vec![
            out("Tracks matching 'q':"),
            out("   1. Band - Song [MP3_320 — FLAC unavailable] (ID: 7, 1:01)"),
            out("   2. Unknown - Unknown  (ID: 0)"),
            out("\nRun `deezco track <ID>` to download one."),
        ]
    );
    let none = limited_results(answer(results(3)), 0);
    assert!(none.is_empty());
    assert_eq!(
        list_found_tracks("q", &none, &by_id, download_options(), SortKey::Quality, None),
        vec![out("No tracks found for 'q'.")]
    );
    assert_eq!(limited_results(answer(results(3)), 2).len(), 2);
}

#[test]
fn found_artists_are_listed() {
    let artist = object(vec![
        ("id", Json::Unsigned(27)),
        ("name", text("Daft Punk")),
        ("nb_fan", Json::Unsigned(100)),
    ]);
    assert_eq!(
        list_found_artists("daft", &vec![artist]),
        vec![
            out("Artists matching 'daft':"),
            out("   1. Daft Punk (100 fans, ID: 27)"),
            out("\nRun `deezco artist <ID>` to download the discography."),
        ]
    );
    assert_eq!(list_found_artists("x", &Vec::new()), vec![out("No artists found for 'x'.")]);
}

fn given(json: bool) -> GivenSettings {
    GivenSettings {
        quality: "flac".to_string(),
        exact: None,
        sort_dir: None,
        output_given: false,
        output_in_env: true,
        arl_given: false,
        arl_in_env: false,
        arl_stored: false,
        json,
        output_format: OutputFormat::Compact,
        concurrency: 4,
        dry_run: false,
        limit: None,
    }
}

fn effective() -> EffectiveSettings {
    EffectiveSettings {
        format: TrackFormat::Mp3_320,
        min_format: None,
        max_format: Some(TrackFormat::Mp3_320),
        options: download_options(),
        sort: SortKey::Quality,
    }
}

#[test]
fn defaults_are_shown_as_lines() {
    let lines = match print_defaults(&given(false), effective(), "/music") {
        Shown::Lines(lines) => lines,
        Shown::Document(_) => panic!("lines expected"),
    };
    assert_eq!(
        lines,
        vec![
            out("Effective defaults (no login or network needed):"),
            out("  Requested quality:  FLAC (-q flac)"),
            out("  Min quality:        none"),
            out("  Max quality:        MP3_320"),
            out("  Effective quality:  MP3_320"),
            out("  Preview:            full track only"),
            out("  Sort key:           quality"),
            out("  Sort direction:     best first (desc)"),
            out("  Output dir:         /music (DEEZCO_OUTPUT_DIR)"),
            out("  Concurrency:        4"),
            out("  Dry run:            off"),
            out("  Search limit:       10 (--limit)"),
            out("  JSON output:        off (human-readable output)"),
            out("  ARL:                none (will prompt interactively)"),
        ]
    );
    assert_eq!(search_limit(Some(3)), 3);
}

#[test]
fn defaults_are_shown_as_json() {
    let mut settings = given(true);
    settings.exact = Some("128".to_string());
    settings.arl_stored = true;
    let value = match print_defaults(&settings, effective(), "/music") {
        Shown::Document(value) => value,
        Shown::Lines(_) => panic!("JSON expected"),
    };
    assert_eq!(value.get_text("requested_quality").as_deref(), Some("flac"));
    assert_eq!(value.get("min_quality"), Some(&Json::Null));
    assert_eq!(value.get_text("exact_quality").as_deref(), Some("MP3_128"));
    assert_eq!(value.get_text("sort_direction").as_deref(), Some("desc"));
    assert_eq!(value.get_text("output_source").as_deref(), Some("env"));
    assert_eq!(value.get_text("json_output").as_deref(), Some("compact"));
    assert_eq!(value.get_text("arl_source").as_deref(), Some("stored"));
    assert_eq!(value.get_u64("search_limit"), Some(10));
    assert_eq!(value.get("dry_run"), Some(&Json::Bool(false)));
}

#[test]
fn documents_carry_their_type() {
    let info = object(vec![("ALB_TITLE", text("X")), ("ART_NAME", text("Y"))]);
    let album = album_json("5", &info, vec![track_with_filesizes(1, 2, 3)]);
    assert_eq!(album.get_text("type").as_deref(), Some("album"));
    assert_eq!(album.get_text("title").as_deref(), Some("X"));
    assert_eq!(album.get_text("artist").as_deref(), Some("Y"));
    match album.get("tracks") {
        Some(Json::Array(tracks)) => {
            assert_eq!(tracks[0].get_text("SNG_TITLE").as_deref(), Some("Test"));
            assert_eq!(tracks[0].get_u64("FILESIZE_MP3_128"), Some(3));
        }
        _ => panic!("no tracks"),
    }
    let playlist = playlist_json("5", &Json::Null, Vec::new());
    assert_eq!(playlist.get_text("title").as_deref(), Some("Unknown Playlist"));
    let following = following_json(vec![followed(1, "A", None)]);
    assert_eq!(following.get_text("type").as_deref(), Some("following"));
    let favorites = favorites_json(with_duration(vec![lasting(1, None)]));
    assert_eq!(favorites.get_text("type").as_deref(), Some("favorites"));
}
