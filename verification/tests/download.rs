use deezco::artist::{ArtistDownload, ArtistEvent, ArtistStep};
use deezco::batch::{batches, print_dry_run_tracks, summarize_downloads, Outcome};
use deezco::cleaning::{Cleaning, CleaningEvent, CleaningStep, Entry};
use deezco::dedupe::EntryKind;
use deezco::download::{
    album_folder, artist_dry_run, completion_line, contains_audio, folder_for, gather_jobs,
    is_artist_downloaded, jobs_in, playlist_name, release_folders, single_dry_run, AlbumAnswer,
    ArtistTally,
};
use deezco::favorites::{FavoritesDownload, FavoritesEvent, FavoritesStep};
use deezco::files::{
    file_name_of, is_audio_file, is_music_file, normalized_artist_name, path_extension, path_stem,
    sanitize_filename, track_belongs_to_artist,
};
use deezco::json::{Json, Member};
use deezco::models::{AlbumInfo, GwTrack, PlaylistInfo, TrackFormat};
use deezco::report::Line;
use deezco::saving::{SavingEvent, SavingStep, TrackDownload};
use deezco::track::{
    available_format, check_minimum, debug_enabled, dry_run_track_label, finish_download,
    first_url_step, format_annotation, full_file_name, join_path, next_url_step,
    preview_file_name, skip_line, strip_padding, DownloadOptions, DownloadReply,
    UrlStep,
};

fn album(title: &str, id: u64) -> AlbumInfo {
    AlbumInfo {
        alb_id: Some(Json::Unsigned(id)),
        alb_title: Some(title.to_string()),
        art_name: None,
        nb_tracks: None,
        is_official: None,
        album_type: None,
    }
}

/// Options with a requested format, no minimum and optional previews.
fn test_options(format: TrackFormat, preview: bool, preview_and_full: bool) -> DownloadOptions {
    DownloadOptions { format, min_format: None, preview, preview_and_full }
}

fn floor(format: TrackFormat, min: TrackFormat) -> DownloadOptions {
    DownloadOptions { format, min_format: Some(min), preview: false, preview_and_full: false }
}

/// A track with the given reported sizes (0 = unavailable).
fn track_with_filesizes(flac: u64, mp3_320: u64, mp3_128: u64) -> GwTrack {
    let mut track = GwTrack::new(Json::Unsigned(1));
    track.sng_title = Some("Test".to_string());
    track.md5_origin = Some("md5".to_string());
    track.media_version = Some(Json::Unsigned(1));
    track.art_name = Some("Artist".to_string());
    track.art_id = Some(Json::Unsigned(1));
    track.filesize_mp3_128 = Some(Json::Unsigned(mp3_128));
    track.filesize_mp3_320 = Some(Json::Unsigned(mp3_320));
    track.filesize_flac = Some(Json::Unsigned(flac));
    track
}

/// Whether all releases lie in the files that `on_disk` lists.
fn downloaded(artist: &str, albums: Vec<AlbumInfo>, on_disk: &[&str]) -> bool {
    let dir = folder_for("/music", artist);
    let holds = |folder: &str| {
        let below: Vec<String> = on_disk
            .iter()
            .map(|p| format!("/music/{p}"))
            .filter(|p| p.starts_with(&format!("{folder}/")))
            .collect();
        contains_audio(&below)
    };
    let exists = on_disk.iter().any(|p| format!("/music/{p}").starts_with(&format!("{dir}/")));
    let releases: Vec<bool> =
        release_folders("/music", artist, &albums).iter().map(|f| holds(f)).collect();
    is_artist_downloaded(exists, &releases)
}

#[test]
fn is_artist_downloaded_true_when_all_releases_on_disk() {
    let albums = vec![album("Back in Black", 1), album("Highway to Hell", 2)];
    let files = ["AC_DC/Back in Black/01.mp3", "AC_DC/Highway to Hell/02.flac"];
    assert!(downloaded("AC/DC", albums, &files));
}

#[test]
fn is_artist_downloaded_false_when_artist_dir_missing() {
    assert!(!downloaded("AC/DC", vec![album("Back in Black", 1)], &[]));
}

#[test]
fn is_artist_downloaded_false_when_album_folder_missing() {
    let albums = vec![album("Back in Black", 1), album("Highway to Hell", 2)];
    assert!(!downloaded("AC/DC", albums, &["AC_DC/Back in Black/01.mp3"]));
}

#[test]
fn is_artist_downloaded_false_when_album_folder_empty() {
    let albums = vec![album("Back in Black", 1)];
    assert!(!downloaded("AC/DC", albums, &["AC_DC/Back in Black/cover.jpg"]));
}

#[test]
fn is_artist_downloaded_false_when_discography_empty() {
    assert!(!downloaded("AC/DC", Vec::new(), &["AC_DC/Some Release/01.mp3"]));
}

#[test]
fn available_format_prefers_requested_when_available() {
    let track = track_with_filesizes(100, 100, 100);
    assert_eq!(available_format(&track, TrackFormat::Flac), TrackFormat::Flac);
    assert_eq!(available_format(&track, TrackFormat::Mp3_320), TrackFormat::Mp3_320);
}

#[test]
fn available_format_falls_back_when_requested_missing() {
    // FLAC unavailable, MP3 320 available
    let track = track_with_filesizes(0, 100, 100);
    assert_eq!(available_format(&track, TrackFormat::Flac), TrackFormat::Mp3_320);
}

#[test]
fn available_format_walks_the_whole_chain() {
    // Only MP3 128 available
    let track = track_with_filesizes(0, 0, 100);
    assert_eq!(available_format(&track, TrackFormat::Flac), TrackFormat::Mp3_128);
}

#[test]
fn available_format_keeps_requested_when_none_available() {
    let track = track_with_filesizes(0, 0, 0);
    assert_eq!(available_format(&track, TrackFormat::Flac), TrackFormat::Flac);
}

#[test]
fn format_annotation_shows_requested_or_fallback() {
    let available = track_with_filesizes(100, 100, 100);
    assert_eq!(format_annotation(&available, TrackFormat::Flac), "[FLAC]");

    let flac_missing = track_with_filesizes(0, 100, 100);
    assert_eq!(
        format_annotation(&flac_missing, TrackFormat::Flac),
        "[MP3_320 — FLAC unavailable]"
    );
}

#[test]
fn dry_run_label_shows_requested_format_when_available() {
    let track = track_with_filesizes(100, 100, 100);
    assert_eq!(
        dry_run_track_label(&track, test_options(TrackFormat::Flac, false, false)),
        "Artist - Test [FLAC]"
    );
}

#[test]
fn dry_run_label_notes_when_format_falls_back() {
    let track = track_with_filesizes(0, 100, 100);
    assert_eq!(
        dry_run_track_label(&track, test_options(TrackFormat::Flac, false, false)),
        "Artist - Test [MP3_320 — FLAC unavailable]"
    );
}

#[test]
fn dry_run_label_shows_preview_in_preview_mode() {
    let track = track_with_filesizes(100, 100, 100);
    assert_eq!(
        dry_run_track_label(&track, test_options(TrackFormat::Flac, true, false)),
        "Artist - Test [preview]"
    );
}

#[test]
fn dry_run_label_shows_preview_and_full() {
    let track = track_with_filesizes(100, 100, 100);
    assert_eq!(
        dry_run_track_label(&track, test_options(TrackFormat::Flac, true, true)),
        "Artist - Test [preview + full]"
    );
}

#[test]
fn sanitize_filename_replaces_invalid_characters() {
    assert_eq!(sanitize_filename("a/b\\c:d*e?f\"g<h>i|j"), "a_b_c_d_e_f_g_h_i_j");
}

#[test]
fn sanitize_filename_keeps_valid_characters() {
    assert_eq!(
        sanitize_filename("Hello, World! (2024) [FLAC] - 01.mp3"),
        "Hello, World! (2024) [FLAC] - 01.mp3"
    );
    assert_eq!(sanitize_filename("Café — Näive"), "Café — Näive");
}

#[test]
fn sanitize_filename_trims_whitespace() {
    assert_eq!(sanitize_filename("  padded  "), "padded");
    // A name of only spaces sanitizes to an empty string
    assert_eq!(sanitize_filename("   "), "");
}

#[test]
fn sanitize_filename_handles_empty_input() {
    assert_eq!(sanitize_filename(""), "");
}

#[test]
fn sanitizing_twice_changes_nothing() {
    let once = sanitize_filename(" a/b:c ");
    assert_eq!(once, "a_b_c");
    assert_eq!(sanitize_filename(&once), once);
}

#[test]
fn is_audio_file_recognizes_supported_extensions() {
    for ext in ["flac", "mp3", "m4a", "aac", "ogg", "opus", "wav"] {
        assert!(is_audio_file(&format!("song.{ext}")), "{ext}");
    }
    // Case-insensitive and works on paths with directories
    assert!(is_audio_file("artist/album/Song.MP3"));
}

#[test]
fn is_audio_file_rejects_other_files() {
    assert!(!is_audio_file("notes.txt"));
    assert!(!is_audio_file("cover.jpg"));
    assert!(!is_audio_file("song"));
    assert!(!is_audio_file(""));
}

#[test]
fn paths_have_names_stems_and_extensions() {
    assert_eq!(file_name_of("a/b.c").as_deref(), Some("b.c"));
    assert_eq!(file_name_of("a/b/").as_deref(), Some("b"));
    assert_eq!(file_name_of("a/..").as_deref(), None);
    assert_eq!(path_extension(".mp3").as_deref(), None);
    assert_eq!(path_extension("x/a.b.MP3").as_deref(), Some("MP3"));
    assert_eq!(path_stem("x/a.b.MP3").as_deref(), Some("a.b"));
    assert!(is_music_file("a.FLAC") && is_music_file("a.mp3"));
    assert!(!is_music_file("a.ogg") && is_audio_file("a.ogg"));
}

#[test]
fn tracks_belong_to_their_artist() {
    let track = track_with_filesizes(1, 1, 1);
    assert!(track_belongs_to_artist(&track, "1", "Somebody"));
    assert!(track_belongs_to_artist(&track, "2", " ARTIST "));
    assert!(!track_belongs_to_artist(&track, "2", "Somebody"));
    assert_eq!(normalized_artist_name(" ÄRT "), "ärt");
}

#[test]
fn url_steps_go_down_until_one_is_served() {
    let mut track = track_with_filesizes(1, 1, 1);
    track.track_token = Some("token".to_string());
    assert_eq!(first_url_step(&track, TrackFormat::Flac), UrlStep::Ask(TrackFormat::Flac));
    assert_eq!(
        next_url_step(&track, TrackFormat::Flac, TrackFormat::Flac, None),
        UrlStep::Ask(TrackFormat::Mp3_320)
    );
    assert_eq!(
        next_url_step(&track, TrackFormat::Flac, TrackFormat::Mp3_320, Some("u".to_string())),
        UrlStep::Found("u".to_string(), TrackFormat::Mp3_320)
    );
    let last = next_url_step(&track, TrackFormat::Flac, TrackFormat::Mp3_128, None);
    assert!(matches!(last, UrlStep::Found(_, _)), "{last:?}");
    track.md5_origin = None;
    assert_eq!(
        next_url_step(&track, TrackFormat::Flac, TrackFormat::Mp3_128, None),
        UrlStep::Fail("Track has no MD5, cannot generate download URL".to_string())
    );
}

#[test]
fn padding_is_stripped_from_downloads() {
    assert_eq!(strip_padding(vec![0, 0, 7, 0]), vec![7, 0]);
    assert_eq!(strip_padding(vec![7, 0]), vec![7, 0]);
    let mp4 = vec![0, 0, 0, 24, b'f', b't', b'y', b'p', 1];
    assert_eq!(strip_padding(mp4.clone()), mp4);
}

#[test]
fn downloads_fail_on_refusals_and_empty_files() {
    let refused =
        DownloadReply::Refused { status: "403 Forbidden".to_string(), body: "no".to_string() };
    assert_eq!(
        finish_download(refused, "5").unwrap_err(),
        "Download failed with status 403 Forbidden for track 5: no"
    );
    assert_eq!(
        finish_download(DownloadReply::Data(Vec::new()), "5").unwrap_err(),
        "Downloaded file is empty"
    );
    let short: Vec<u8> = (1..50).collect();
    assert_eq!(finish_download(DownloadReply::Data(short.clone()), "5").unwrap().data, short);
}

#[test]
fn minimum_quality_is_a_floor() {
    let options = floor(TrackFormat::Flac, TrackFormat::Mp3_320);
    assert!(check_minimum(options, TrackFormat::Mp3_320).is_ok());
    assert!(check_minimum(options, TrackFormat::Flac).is_ok());
    assert_eq!(
        check_minimum(options, TrackFormat::Mp3_128).unwrap_err(),
        "Requested FLAC but only MP3_128 is available (below --min-quality MP3_320)"
    );
}

#[test]
fn files_are_named_after_their_track() {
    assert_eq!(preview_file_name("A", "T"), "A - T (preview).mp3");
    assert_eq!(full_file_name("A", "T", TrackFormat::Flac), "A - T.flac");
    assert_eq!(skip_line("x.mp3"), "  [skip] x.mp3 (already exists)");
    assert_eq!(join_path("a", "b"), "a/b");
    assert_eq!(join_path("a/", "b"), "a/b");
    assert_eq!(join_path("a", "/b"), "/b");
}

#[test]
fn downloads_fetch_what_is_missing() {
    let mut track = track_with_filesizes(1, 1, 1);
    track.track_token = Some("token".to_string());
    let options = test_options(TrackFormat::Flac, true, true);
    let mut run = TrackDownload::new(&track, "/music".to_string(), options, true);
    assert_eq!(run.step(), SavingStep::MakeFolder);
    assert_eq!(run.on_event(SavingEvent::Done), None);
    let preview = "/music/Artist - Test (preview).mp3";
    assert_eq!(run.step(), SavingStep::Look(preview.to_string()));
    assert_eq!(run.on_event(SavingEvent::Exists(false)), None);
    assert_eq!(run.step(), SavingStep::AskPreview("1".to_string()));
    run.on_event(SavingEvent::Preview(Some("http://p".to_string())));
    assert_eq!(run.step(), SavingStep::SavePreview("http://p".to_string(), preview.to_string()));
    run.on_event(SavingEvent::Done);
    assert_eq!(run.step(), SavingStep::AskUrl(TrackFormat::Flac));
    run.on_event(SavingEvent::Url(None));
    assert_eq!(run.step(), SavingStep::AskUrl(TrackFormat::Mp3_320));
    run.on_event(SavingEvent::Url(Some("http://t".to_string())));
    assert_eq!(run.step(), SavingStep::Look("/music/Artist - Test.mp3".to_string()));
    run.on_event(SavingEvent::Exists(false));
    assert_eq!(run.step(), SavingStep::Fetch("http://t".to_string()));
    assert!(run.audio().is_none());
    run.on_event(SavingEvent::Reply(DownloadReply::Data(vec![0, 0, 7, 8])));
    assert_eq!(run.step(), SavingStep::Store("/music/Artist - Test.mp3".to_string()));
    assert_eq!(run.audio(), Some(&vec![7, 8]));
    run.on_event(SavingEvent::Done);
    assert_eq!(run.step(), SavingStep::Done("/music/Artist - Test.mp3".to_string()));
    run.on_event(SavingEvent::Exists(false));
    assert_eq!(run.step(), SavingStep::Done("/music/Artist - Test.mp3".to_string()));
}

#[test]
fn existing_files_are_skipped() {
    let mut track = track_with_filesizes(1, 1, 1);
    track.track_token = Some("token".to_string());
    let both = test_options(TrackFormat::Flac, true, true);
    let mut run = TrackDownload::new(&track, "/m".to_string(), both, true);
    run.on_event(SavingEvent::Done);
    assert_eq!(
        run.on_event(SavingEvent::Exists(true)),
        Some(out("  [skip] Artist - Test (preview).mp3 (already exists)"))
    );
    run.on_event(SavingEvent::Url(Some("u".to_string())));
    assert_eq!(
        run.on_event(SavingEvent::Exists(true)),
        Some(out("  [skip] Artist - Test.flac (already exists)"))
    );
    assert_eq!(run.step(), SavingStep::Done("/m/Artist - Test.flac".to_string()));

    let only = test_options(TrackFormat::Flac, true, false);
    let mut run = TrackDownload::new(&track, "/m".to_string(), only, false);
    run.on_event(SavingEvent::Done);
    assert_eq!(run.on_event(SavingEvent::Exists(true)), None);
    assert_eq!(run.step(), SavingStep::Done("/m/Artist - Test (preview).mp3".to_string()));
}

fn failed(step: SavingStep) -> String {
    match step {
        SavingStep::Fail(message) => message,
        other => panic!("no failure: {other:?}"),
    }
}

#[test]
fn downloads_fail_with_a_reason() {
    let mut nameless = track_with_filesizes(1, 1, 1);
    nameless.sng_title = None;
    let full = test_options(TrackFormat::Flac, false, false);
    let run = TrackDownload::new(&nameless, "/m".to_string(), full, true);
    assert_eq!(failed(run.step()), "Invalid track data");

    let mut track = track_with_filesizes(1, 1, 1);
    track.track_token = Some("token".to_string());
    let only = test_options(TrackFormat::Flac, true, false);
    let mut run = TrackDownload::new(&track, "/m".to_string(), only, true);
    run.on_event(SavingEvent::Done);
    run.on_event(SavingEvent::Exists(false));
    run.on_event(SavingEvent::Preview(None));
    assert_eq!(failed(run.step()), "Track has no preview available");

    let floor = floor(TrackFormat::Flac, TrackFormat::Flac);
    let mut run = TrackDownload::new(&track, "/m".to_string(), floor, true);
    run.on_event(SavingEvent::Done);
    run.on_event(SavingEvent::Url(None));
    run.on_event(SavingEvent::Url(Some("u".to_string())));
    assert_eq!(
        failed(run.step()),
        "Requested FLAC but only MP3_320 is available (below --min-quality FLAC)"
    );

    let mut run = TrackDownload::new(&track, "/m".to_string(), full, true);
    run.on_event(SavingEvent::Done);
    run.on_event(SavingEvent::Url(Some("u".to_string())));
    run.on_event(SavingEvent::Exists(false));
    run.on_event(SavingEvent::Reply(DownloadReply::Data(Vec::new())));
    assert_eq!(failed(run.step()), "Downloaded file is empty");
}

#[test]
fn debugging_is_switched_on_by_one_or_true() {
    assert!(debug_enabled(Some("1")));
    assert!(debug_enabled(Some("TRUE")));
    assert!(!debug_enabled(Some("0")));
    assert!(!debug_enabled(None));
}

fn out(s: &str) -> Line {
    Line::Out(s.to_string())
}

fn problem(s: &str) -> Line {
    Line::Problem(s.to_string())
}

#[test]
fn dry_runs_list_and_count_rejections() {
    let tracks = vec![track_with_filesizes(1, 1, 1), track_with_filesizes(0, 0, 1)];
    let options = floor(TrackFormat::Flac, TrackFormat::Mp3_320);
    let lines = print_dry_run_tracks("Playlist: P", &tracks, options);
    assert_eq!(
        lines,
        vec![
            out("[dry-run] Playlist: P (2 track(s), FLAC)\n"),
            out("  [1/2] Artist - Test [FLAC]"),
            out("  [2/2] Artist - Test [err] below --min-quality MP3_320 (only MP3_128 available)"),
            out("\nDry run: 1 track(s) would be rejected by --min-quality"),
        ]
    );
}

#[test]
fn summaries_count_successes_and_failures() {
    let outcomes = vec![
        Outcome { display: "a".to_string(), result: Ok("a.mp3".to_string()) },
        Outcome { display: "b".to_string(), result: Err("gone".to_string()) },
    ];
    let (lines, good, bad) = summarize_downloads(&outcomes);
    assert_eq!((good, bad), (1, 1));
    assert_eq!(lines, vec![problem("[err] b: gone")]);
    assert_eq!(
        completion_line("Album download", good, bad, 2),
        "\nAlbum download complete: 1 downloaded, 1 failed out of 2 tracks"
    );
}

#[test]
fn ids_are_fetched_in_batches_of_fifty() {
    let ids: Vec<String> = (0..120).map(|i| i.to_string()).collect();
    let sizes: Vec<usize> = batches(&ids).iter().map(|b| b.len()).collect();
    assert_eq!(sizes, vec![50, 50, 20]);
    let joined: Vec<String> = batches(&ids).into_iter().flatten().collect();
    assert_eq!(joined, ids);
    assert!(batches(&Vec::new()).is_empty());
}

fn fifty_and_one() -> Vec<String> {
    (0..51).map(|i| i.to_string()).collect()
}

#[test]
fn favorites_dry_run_numbers_through_batches() {
    let options = floor(TrackFormat::Flac, TrackFormat::Flac);
    let mut run = FavoritesDownload::new("/m".to_string(), options, true);
    assert_eq!(run.step(), FavoritesStep::AskIds);
    assert_eq!(
        run.on_event(FavoritesEvent::Ids(fifty_and_one())),
        vec![out("[dry-run] Favorites (51 track(s), FLAC)\n")]
    );
    assert_eq!(run.step(), FavoritesStep::AskTracks(fifty_and_one()[..50].to_vec()));
    assert_eq!(
        run.on_event(FavoritesEvent::Tracks(vec![track_with_filesizes(1, 1, 1)])),
        vec![out("  [1/51] Artist - Test [FLAC]")]
    );
    assert_eq!(run.step(), FavoritesStep::AskTracks(vec!["50".to_string()]));
    assert_eq!(
        run.on_event(FavoritesEvent::Tracks(vec![track_with_filesizes(0, 0, 1)])),
        vec![
            out("  [2/51] Artist - Test [err] below --min-quality FLAC (only MP3_128 available)"),
            out("\nDry run: 1 track(s) would be rejected by --min-quality"),
        ]
    );
    assert_eq!(run.step(), FavoritesStep::Done);
}

#[test]
fn favorites_are_downloaded_batch_by_batch() {
    let options = test_options(TrackFormat::Flac, false, false);
    let mut run = FavoritesDownload::new("/m".to_string(), options, false);
    assert_eq!(
        run.on_event(FavoritesEvent::Ids(fifty_and_one())),
        vec![out("Found 51 favorite tracks\n")]
    );
    let good = || Outcome { display: "a".to_string(), result: Ok("a.mp3".to_string()) };
    let bad = || Outcome { display: "b".to_string(), result: Err("gone".to_string()) };
    assert!(run.on_event(FavoritesEvent::Tracks(vec![track_with_filesizes(1, 1, 1)])).is_empty());
    assert_eq!(run.step(), FavoritesStep::Download);
    assert_eq!(run.jobs()[0].dir, "/m/Favorites");
    assert_eq!(
        run.on_event(FavoritesEvent::Downloaded(vec![good(), bad()])),
        vec![problem("[err] b: gone")]
    );
    assert_eq!(run.step(), FavoritesStep::AskTracks(vec!["50".to_string()]));
    run.on_event(FavoritesEvent::Tracks(Vec::new()));
    assert!(run.jobs().is_empty());
    assert_eq!(
        run.on_event(FavoritesEvent::Downloaded(vec![good()])),
        vec![out("\nFavorites complete: 2 downloaded, 1 failed out of 51 tracks")]
    );
    assert_eq!(run.step(), FavoritesStep::Done);
}

#[test]
fn no_favorites_end_the_download() {
    let options = test_options(TrackFormat::Flac, false, false);
    let mut run = FavoritesDownload::new("/m".to_string(), options, false);
    assert_eq!(
        run.on_event(FavoritesEvent::Ids(Vec::new())),
        vec![out("No favorite tracks found.")]
    );
    assert_eq!(run.step(), FavoritesStep::Done);
}

fn artist_info() -> Json {
    Json::Object(vec![Member { key: "ART_NAME".to_string(), value: Json::Text("Artist".to_string()) }])
}

#[test]
fn discographies_are_downloaded_step_by_step() {
    let options = test_options(TrackFormat::Flac, false, false);
    let mut run = ArtistDownload::new("1".to_string(), "/m".to_string(), options, false);
    assert_eq!(run.step(), ArtistStep::AskInfo);
    assert_eq!(
        run.on_event(ArtistEvent::Info(artist_info())),
        vec![out("Fetching discography for: Artist\n")]
    );
    assert_eq!(run.step(), ArtistStep::AskDiscography);
    assert_eq!(
        run.on_event(ArtistEvent::Discography(vec![album("One", 1)])),
        vec![out("Found 1 albums/releases\n")]
    );
    assert_eq!(run.step(), ArtistStep::Clean("/m/Artist".to_string(), "Artist".to_string()));
    assert_eq!(
        run.on_event(ArtistEvent::Cleaned(2)),
        vec![out("Removed 2 non-Artist audio file(s) from the artist folder\n")]
    );
    assert_eq!(run.step(), ArtistStep::Index("/m/Artist".to_string()));
    assert_eq!(
        run.on_event(ArtistEvent::Indexed(3)),
        vec![out("Linked 3 duplicate audio file(s) already present in the artist folder\n")]
    );
    assert_eq!(run.step(), ArtistStep::AskTracks);
    assert_eq!(run.albums().len(), 1);
    let answers = vec![
        answer("One", Ok(vec![track_with_filesizes(1, 1, 1)])),
        answer("Two", Err("offline".to_string())),
    ];
    run.on_event(ArtistEvent::Tracks(answers));
    assert_eq!(run.step(), ArtistStep::Download);
    assert_eq!(run.jobs()[0].dir, "/m/Artist/One");
    let good = |path: &str| Outcome { display: "a".to_string(), result: Ok(path.to_string()) };
    let bad = || Outcome { display: "b".to_string(), result: Err("gone".to_string()) };
    assert_eq!(
        run.on_event(ArtistEvent::Downloaded(vec![bad(), good("x"), good("y"), bad()])),
        vec![problem("    [err] b: gone")]
    );
    assert_eq!(run.step(), ArtistStep::Dedupe("x".to_string()));
    assert!(run.on_event(ArtistEvent::Deduped(false)).is_empty());
    assert_eq!(run.step(), ArtistStep::Dedupe("y".to_string()));
    assert_eq!(
        run.on_event(ArtistEvent::Deduped(true)),
        vec![
            out("    [link] a: duplicate audio linked to existing file"),
            problem("    [err] b: gone"),
            out("\nArtist download complete: 2 downloaded, 4 linked duplicates, 0 skipped, 3 failed"),
        ]
    );
    assert_eq!(run.step(), ArtistStep::Done);
}

#[test]
fn discography_dry_runs_touch_no_file() {
    let options = test_options(TrackFormat::Flac, false, false);
    let mut run = ArtistDownload::new("1".to_string(), "/m".to_string(), options, true);
    run.on_event(ArtistEvent::Info(artist_info()));
    run.on_event(ArtistEvent::Discography(vec![album("One", 1)]));
    assert_eq!(run.step(), ArtistStep::AskTracks);
    let answers = vec![answer("One", Ok(vec![track_with_filesizes(1, 1, 1)]))];
    assert_eq!(
        run.on_event(ArtistEvent::Tracks(answers)),
        vec![
            out("--- Album: One ---"),
            out("    [dry-run] Artist - Test [FLAC]"),
            out("\nDry run complete: would download 1 track(s), 0 rejected by --min-quality"),
        ]
    );
    assert_eq!(run.step(), ArtistStep::Done);

    let mut run = ArtistDownload::new("1".to_string(), "/m".to_string(), options, false);
    run.on_event(ArtistEvent::Info(Json::Null));
    assert_eq!(
        run.on_event(ArtistEvent::Discography(Vec::new())),
        vec![out("No albums found for this artist.")]
    );
    assert_eq!(run.step(), ArtistStep::Done);
}

fn answer(title: &str, tracks: Result<Vec<GwTrack>, String>) -> AlbumAnswer {
    AlbumAnswer { title: title.to_string(), tracks }
}

#[test]
fn artist_dry_run_counts_what_would_be_gathered() {
    let make = || {
        vec![
            answer("One", Ok(vec![track_with_filesizes(1, 1, 1)])),
            answer("Two", Err("offline".to_string())),
        ]
    };
    let options = test_options(TrackFormat::Flac, false, false);
    let lines = artist_dry_run(&make(), "1", "Artist", options);
    assert_eq!(
        lines,
        vec![
            out("--- Album: One ---"),
            out("    [dry-run] Artist - Test [FLAC]"),
            out("--- Album: Two ---"),
            problem("  [err] Failed to get album tracks: offline"),
            out("\nDry run complete: would download 1 track(s), 0 rejected by --min-quality"),
        ]
    );
    let (_, jobs, skipped, failed) = gather_jobs(make(), "/music/Artist", "1", "Artist");
    assert_eq!(jobs.len(), 1);
    assert_eq!(jobs[0].dir, "/music/Artist/One");
    assert_eq!((skipped, failed), (0, 1));
    let (_, none, skipped, _) = gather_jobs(make(), "/music/Artist", "2", "Other");
    assert_eq!((none.len(), skipped), (0, 1));
}

#[test]
fn artist_tallies_are_summed_up() {
    let mut tally = ArtistTally { downloaded: 0, linked: 0, skipped: 3, failed: 0 };
    let good = Outcome { display: "a".to_string(), result: Ok("a.mp3".to_string()) };
    let bad = Outcome { display: "b".to_string(), result: Err("gone".to_string()) };
    assert_eq!(tally.count(&good, false), None);
    assert_eq!(
        tally.count(&good, true),
        Some(out("    [link] a: duplicate audio linked to existing file"))
    );
    assert_eq!(tally.count(&bad, false), Some(problem("    [err] b: gone")));
    assert_eq!(
        tally.summary(),
        "\nArtist download complete: 2 downloaded, 1 linked duplicates, 3 skipped, 1 failed"
    );
}

#[test]
fn single_dry_run_names_the_target() {
    let track = track_with_filesizes(1, 1, 1);
    let lines =
        single_dry_run(&track, test_options(TrackFormat::Flac, false, false), "/music").unwrap();
    assert_eq!(lines[0], out("[dry-run] Would download: Artist - Test [FLAC]"));
    let low = track_with_filesizes(0, 0, 1);
    assert!(single_dry_run(&low, floor(TrackFormat::Flac, TrackFormat::Flac), "/music").is_err());
}

#[test]
fn folders_are_sanitized() {
    assert_eq!(folder_for("/music", "AC/DC"), "/music/AC_DC");
    assert_eq!(album_folder("/music", "AC/DC", "T:N"), "/music/AC_DC/T_N");
    assert_eq!(jobs_in("/d", vec![track_with_filesizes(1, 1, 1)])[0].dir, "/d");
}

#[test]
fn names_fall_back_where_nothing_is_known() {
    assert_eq!(playlist_name(&Json::Null), "Unknown Playlist");
    let named = Json::Object(vec![Member {
        key: "DATA".to_string(),
        value: Json::Object(vec![Member {
            key: "TITLE".to_string(),
            value: Json::Text("Mix".to_string()),
        }]),
    }]);
    assert_eq!(playlist_name(&named), "Mix");
    let info = PlaylistInfo {
        playlist_id: Some(Json::Text("7".to_string())),
        title: None,
        nb_song: None,
        parent_username: None,
        playlist_picture: None,
    };
    assert_eq!(info.id_str(), "7");
    assert_eq!(info.display_name(), "Unknown Playlist");
    assert_eq!(album("X", 3).id_str(), "3");
}

fn entry(path: &str, kind: EntryKind) -> Entry {
    Entry { path: path.to_string(), kind }
}

#[test]
fn cleaning_removes_strays_and_empty_folders() {
    let mut run = Cleaning::new("/m/Artist".to_string(), "Artist".to_string());
    assert_eq!(run.step(), CleaningStep::Read("/m/Artist".to_string()));
    let gone = run.on_event(CleaningEvent::Entries(vec![
        entry("/m/Artist/Artist - A.mp3", EntryKind::File),
        entry("/m/Artist/Other - B.mp3", EntryKind::File),
        entry("/m/Artist/cover.jpg", EntryKind::File),
        entry("/m/Artist/One", EntryKind::Folder),
    ]));
    assert_eq!(gone, vec!["/m/Artist/Other - B.mp3"]);
    assert_eq!(run.step(), CleaningStep::Read("/m/Artist/One".to_string()));
    assert!(run
        .on_event(CleaningEvent::Entries(vec![entry("/m/Artist/One/Two", EntryKind::Folder)]))
        .is_empty());
    assert_eq!(run.step(), CleaningStep::Read("/m/Artist/One/Two".to_string()));
    run.on_event(CleaningEvent::Entries(Vec::new()));
    // The deepest folder comes first, and the root stays.
    assert_eq!(run.step(), CleaningStep::Look("/m/Artist/One/Two".to_string()));
    run.on_event(CleaningEvent::Empty(true));
    assert_eq!(run.step(), CleaningStep::Remove("/m/Artist/One/Two".to_string()));
    run.on_event(CleaningEvent::Removed);
    assert_eq!(run.step(), CleaningStep::Look("/m/Artist/One".to_string()));
    run.on_event(CleaningEvent::Empty(false));
    assert_eq!(run.step(), CleaningStep::Done(1));
}
