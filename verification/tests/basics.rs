use deezco::dedupe::{
    deepest_first, should_remove, temp_file_name, AudioWalk, DedupeStep, EntryKind, HashIndex,
    Wanted,
};
use deezco::files::is_same_path;
use deezco::json::{Json, Member};
use deezco::link::{LinkEvent, LinkJob, LinkStep};
use deezco::loudness::{is_target, BlockClock, Mark};
use deezco::models::{GwTrack, TrackFormat};
use deezco::real32::Real32;
use deezco::text::{contains, decimal_text, padded_text, parse_number, starts_with, trim};

#[test]
fn numbers_are_written_and_read() {
    for n in [0u64, 9, 10, 4410, u64::MAX] {
        assert_eq!(decimal_text(n), n.to_string());
        assert_eq!(parse_number(&n.to_string(), u64::MAX), Some(n));
    }
    assert_eq!(parse_number("+7", 10), Some(7));
    assert_eq!(parse_number("11", 10), None);
    assert_eq!(parse_number("", 10), None);
    assert_eq!(parse_number("7a", 10), None);
    assert_eq!(parse_number("18446744073709551616", u64::MAX), None);
    assert_eq!(padded_text(7, 5), "00007");
    assert_eq!(padded_text(123456, 5), "123456");
}

#[test]
fn white_space_is_trimmed() {
    for s in [" a b\t\n", "\u{2003}x\u{a0}", "", "   "] {
        assert_eq!(trim(s), s.trim());
    }
    assert!(contains("abc", "bc") && contains("abc", "") && !contains("abc", "d"));
    assert!(starts_with("abc", "ab") && !starts_with("abc", "bc"));
}

#[test]
fn formats_know_their_codes() {
    assert_eq!(TrackFormat::Flac.code(), 9);
    assert_eq!(TrackFormat::Mp3_320.extension(), ".mp3");
    assert_eq!(TrackFormat::Flac.fallback(), Some(TrackFormat::Mp3_320));
    assert_eq!(TrackFormat::Mp3_128.fallback(), None);
    assert_eq!(TrackFormat::Flac.capped_by(TrackFormat::Mp3_128), TrackFormat::Mp3_128);
    assert!(TrackFormat::Flac.rank() > TrackFormat::Mp3_320.rank());
}

#[test]
fn tracks_fall_back_where_fields_are_missing() {
    let track = GwTrack::new(Json::Null);
    assert_eq!(track.id_str(), "0");
    assert_eq!(track.title(), "");
    assert_eq!(track.artist(), "Unknown");
    assert_eq!(track.album(), "");
    assert_eq!(track.md5(), "");
    assert_eq!(track.media_ver(), "1");
    assert_eq!(track.display_name(), "Unknown - ");
    assert_eq!(track.filesize_for_format(TrackFormat::Flac), 0);
    assert_eq!(track.duration_secs(), 0);
    let mut sized = GwTrack::new(Json::Number("-3".to_string()));
    sized.filesize_flac = Some(Json::Text("12".to_string()));
    assert_eq!(sized.id_str(), "-3");
    assert_eq!(sized.filesize_for_format(TrackFormat::Flac), 12);
}

#[test]
fn json_members_are_found() {
    let value = Json::Object(vec![Member { key: "a".to_string(), value: Json::Unsigned(1) }]);
    assert_eq!(value.get_u64("a"), Some(1));
    assert_eq!(value.get("b"), None);
    assert_eq!(Json::Array(vec![]).get("a"), None);
    assert_eq!(value.copy(), value);
}

#[test]
fn reals_compare_like_floats() {
    let real32 = |x: f32| Real32 { bits: x.to_bits() };
    assert!(real32(f32::NAN).is_nan() && !real32(f32::INFINITY).is_nan());
    assert!(real32(0.1).is_positive() && !real32(-0.1).is_positive() && !real32(0.0).is_positive());
    assert!(real32(-0.0).is_zero());
    for x in [0.0f32, 0.5, 1.0, 2.5, 6.0, 29.999, 30.0, 0.0001] {
        assert_eq!(real32(x).to_frames_cut(), (x * 44100.0) as u64, "{x}");
    }
    for x in [2.0f32, 2.5, 3.1, 6.0, 7.77, 29.999, 30.0] {
        assert_eq!(real32(x).to_frames_rounded(), (x * 44100.0).round() as u64, "{x}");
        assert_eq!(real32(x).to_ceiling(), x.ceil() as u32, "{x}");
    }
}

#[test]
fn loudness_blocks_overlap() {
    let mut clock = BlockClock::new(3);
    let marks: Vec<Mark> = (0..15).map(|_| clock.tick()).collect();
    let blocks: Vec<usize> =
        marks.iter().enumerate().filter(|(_, m)| **m == Mark::Block).map(|(i, _)| i + 1).collect();
    assert_eq!(blocks, vec![12, 15]);
    assert_eq!(marks[2], Mark::Hop);
    assert_eq!(marks[3], Mark::Within);
    let real32 = |x: f32| Real32 { bits: x.to_bits() };
    assert!(is_target(real32(-14.0)) && is_target(real32(-6.0)) && is_target(real32(-23.0)));
    assert!(!is_target(real32(-23.1)) && !is_target(real32(0.0)) && !is_target(real32(f32::NAN)));
}

#[test]
fn walks_collect_audio_files() {
    let mut walk = AudioWalk::new("/m", Wanted::Audio);
    assert_eq!(walk.next_folder().as_deref(), Some("/m"));
    walk.on_entry("/m/a".to_string(), EntryKind::Folder);
    walk.on_entry("/m/x.ogg".to_string(), EntryKind::File);
    walk.on_entry("/m/x.txt".to_string(), EntryKind::File);
    walk.on_entry("/m/y.mp3".to_string(), EntryKind::Other);
    assert_eq!(walk.found, vec!["/m/x.ogg"]);
    assert_eq!(walk.next_folder().as_deref(), Some("/m/a"));
    assert_eq!(walk.next_folder(), None);
    let mut music = AudioWalk::new("/m", Wanted::Music);
    music.on_entry("/m/x.ogg".to_string(), EntryKind::File);
    music.on_entry("/m/x.FLAC".to_string(), EntryKind::File);
    assert_eq!(music.found, vec!["/m/x.FLAC"]);
}

#[test]
fn strays_are_removed() {
    assert!(should_remove("/m/Other - X.mp3", EntryKind::File, "AC/DC"));
    assert!(!should_remove("/m/AC_DC - X.mp3", EntryKind::File, "AC/DC"));
    assert!(!should_remove("/m/cover.jpg", EntryKind::File, "AC/DC"));
    assert!(!should_remove("/m/Other - X.mp3", EntryKind::Folder, "AC/DC"));
}

#[test]
fn deeper_folders_are_removed_first() {
    let dirs = vec!["/m".to_string(), "/m/a/b".to_string(), "/m/a".to_string()];
    assert_eq!(deepest_first(dirs), vec!["/m/a/b", "/m/a", "/m"]);
}

#[test]
fn duplicates_are_linked_to_the_first() {
    let mut index = HashIndex::new();
    assert_eq!(index.dedupe_audio_file("/a", b"one"), DedupeStep::Keep);
    assert_eq!(index.dedupe_audio_file("/b", b"two"), DedupeStep::Keep);
    assert_eq!(index.dedupe_audio_file("/c", b"one"), DedupeStep::LinkTo("/a".to_string()));
    assert_eq!(index.dedupe_audio_file("/a", b"one"), DedupeStep::Keep);
    assert_eq!(index.dedupe_audio_file("//./a/", b"one"), DedupeStep::Keep);
    assert_eq!(temp_file_name("/m/a.mp3", 0), "a.mp3.dedupe-tmp");
    assert_eq!(temp_file_name("/m/a.mp3", 2), "a.mp3.dedupe-tmp-2");
}

#[test]
fn paths_are_told_apart_by_their_parts() {
    let mut index = HashIndex::new();
    assert_eq!(index.dedupe_audio_file("a/b.mp3", b"one"), DedupeStep::Keep);
    assert_eq!(index.dedupe_audio_file("a//b.mp3", b"one"), DedupeStep::Keep);
    for (a, b) in [("a//b", "a/b"), ("a/./b/.", "a/b"), ("//a", "/a"), ("./", "."), ("", "")] {
        assert!(is_same_path(a, b), "{a} {b}");
    }
    for (a, b) in [("/a", "a"), ("./a", "a"), ("a/../b", "b"), ("a/b", "ab"), ("", "."), (".a", "a")] {
        assert!(!is_same_path(a, b), "{a} {b}");
    }
}

fn job() -> LinkJob {
    LinkJob::new("/m/a.mp3".to_string(), "/m/b.mp3".to_string(), "/m".to_string())
}

#[test]
fn links_replace_a_duplicate_step_by_step() {
    let mut job = job();
    assert_eq!(job.step(), LinkStep::Probe("/m/b.mp3.dedupe-tmp".to_string()));
    job.on_event(LinkEvent::Taken(true));
    assert_eq!(job.step(), LinkStep::Probe("/m/b.mp3.dedupe-tmp-1".to_string()));
    job.on_event(LinkEvent::Taken(false));
    assert_eq!(job.step(), LinkStep::Rename("/m/b.mp3.dedupe-tmp-1".to_string()));
    job.on_event(LinkEvent::Success);
    assert_eq!(job.step(), LinkStep::Link);
    job.on_event(LinkEvent::Success);
    assert_eq!(job.step(), LinkStep::Remove("/m/b.mp3.dedupe-tmp-1".to_string()));
    job.on_event(LinkEvent::Success);
    assert_eq!(job.step(), LinkStep::Done);
}

#[test]
fn failed_links_name_what_failed() {
    let fail = |events: Vec<LinkEvent>| {
        let mut job = job();
        job.on_event(LinkEvent::Taken(false));
        for event in events {
            job.on_event(event);
        }
        match job.step() {
            LinkStep::Fail(message) => message,
            other => panic!("{other:?}"),
        }
    };
    let refusal = |s: &str| LinkEvent::Refusal(s.to_string());
    assert_eq!(fail(vec![refusal("x")]), "Failed to prepare duplicate file: /m/b.mp3");
    assert_eq!(
        fail(vec![LinkEvent::Success, refusal("x"), LinkEvent::Success]),
        "Failed to create hardlink from /m/a.mp3 to /m/b.mp3"
    );
    assert_eq!(
        fail(vec![LinkEvent::Success, refusal("x"), refusal("y")]),
        "Failed to create hardlink from /m/a.mp3 to /m/b.mp3: x; \
         also failed to restore duplicate: y"
    );
    assert_eq!(
        fail(vec![LinkEvent::Success, LinkEvent::Success, refusal("x")]),
        "Failed to remove duplicate temp file: /m/b.mp3.dedupe-tmp"
    );
}
