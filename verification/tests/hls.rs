use deezco::hls::{
    check_ffmpeg, check_hls_options, collect_jingle_files, config_bitrate, ffmpeg_args,
    is_stale_artifact, take_complete_ts_packets, Jingles, Pacer, Playlist, Station, StationEvent,
    StationStep, TS_SYNC,
};
use deezco::icecast::PipelineConfig;
use deezco::real32::{millis_of_frames, Real32};

fn real32(x: f32) -> Real32 {
    Real32 { bits: x.to_bits() }
}

#[test]
fn ts_packets_cut_on_188_boundaries() {
    // Two full packets + a partial tail: only the full packets are taken.
    let mut buf = vec![0u8; 188 * 2 + 100];
    for chunk in buf.chunks_mut(188) {
        chunk[0] = TS_SYNC;
    }
    buf[188 * 2] = 0x00; // partial tail is not a packet start
    let taken = take_complete_ts_packets(&mut buf);
    assert_eq!(taken.len(), 188 * 2);
    assert_eq!(buf.len(), 100);
}

#[test]
fn ts_packets_resync_to_sync_byte() {
    // Leading garbage is discarded up to the first sync byte.
    let mut buf = vec![0x00, 0xFF, TS_SYNC];
    buf.extend(vec![0x11; 187]);
    buf.extend(vec![0x22; 50]);
    let taken = take_complete_ts_packets(&mut buf);
    assert_eq!(taken.len(), 188);
    assert_eq!(taken[0], TS_SYNC);
    assert_eq!(buf.len(), 50);
}

#[test]
fn ts_packets_empty_without_sync() {
    let mut buf = vec![0x00; 500];
    let taken = take_complete_ts_packets(&mut buf);
    assert!(taken.is_empty());
    assert!(buf.is_empty());
}

#[test]
fn ffmpeg_args_request_aac_in_mpegts() {
    let args = ffmpeg_args(128);
    let joined = args.join(" ");
    assert!(joined.contains("-f s16le"), "{joined}");
    assert!(joined.contains("-c:a aac"), "{joined}");
    assert!(joined.contains("-b:a 128k"), "{joined}");
    assert!(joined.contains("-f mpegts"), "{joined}");
    assert!(joined.contains("pipe:0"), "{joined}");
    assert!(joined.contains("pipe:1"), "{joined}");
    // Bus rate is the single sample rate on both ends.
    assert_eq!(args.iter().filter(|a| *a == "44100").count(), 2);
}

#[test]
fn playlist_slides_with_media_sequence() {
    let mut pl = Playlist::new(real32(6.0), 3);
    assert!(pl.content().contains("#EXT-X-MEDIA-SEQUENCE:0"));
    for i in 0..5 {
        pl.push(6000, format!("t{i}"));
    }
    // Window of 3 keeps seq 2,3,4; media sequence advanced to 2.
    assert_eq!(pl.len(), 3);
    assert_eq!(pl.media_sequence(), 2);
    let content = pl.content();
    assert!(content.contains("#EXT-X-TARGETDURATION:6"));
    assert!(content.contains("#EXT-X-MEDIA-SEQUENCE:2"));
    assert!(content.contains("seg_00004.ts"));
    assert!(!content.contains("seg_00001.ts"));
    assert!(!content.contains("EXT-X-ENDLIST"));
}

#[test]
fn playlists_are_written_line_by_line() {
    let mut pl = Playlist::new(real32(6.5), 3);
    let (seq, name) = pl.push(6042, "A".to_string());
    assert_eq!((seq, name.as_str()), (0, "seg_00000.ts"));
    assert_eq!(
        pl.content(),
        "#EXTM3U\n#EXT-X-VERSION:3\n#EXT-X-TARGETDURATION:7\n#EXT-X-MEDIA-SEQUENCE:0\n\
         #EXTINF:6.042,A\nseg_00000.ts\n"
    );
    assert_eq!(Playlist::segment_filename(123456), "seg_123456.ts");
}

#[test]
fn hls_options_reject_out_of_range() {
    assert!(check_hls_options(real32(6.0), 6).is_ok());
    assert!(check_hls_options(real32(0.5), 6).is_err());
    assert!(check_hls_options(real32(60.0), 6).is_err());
    assert!(check_hls_options(real32(f32::NAN), 6).is_err());
    assert!(check_hls_options(real32(6.0), 2).is_err());
    assert!(check_hls_options(real32(6.0), 100).is_err());
}

#[test]
fn hls_defaults_to_128k_without_override() {
    assert_eq!(config_bitrate(&PipelineConfig::default()), 128);
    let forced = PipelineConfig { bitrate: Some(64), ..PipelineConfig::default() };
    assert_eq!(config_bitrate(&forced), 64);
}

#[test]
fn pacer_holds_wall_clock_schedule() {
    let ms = 1_000_000u128;
    let mut pacer = Pacer::new();
    // First emission publishes immediately and starts the clock.
    assert_eq!(pacer.pace(0, 50 * ms), None);
    // The next 50ms of audio costs ~50ms of wall-clock.
    assert_eq!(pacer.pace(0, 50 * ms), Some(50 * ms));
}

#[test]
fn pacer_keeps_its_schedule_until_it_is_far_behind() {
    let ms = 1_000_000u128;
    let mut pacer = Pacer::new();
    assert_eq!(pacer.pace(0, 1000 * ms), None);
    assert_eq!(pacer.pace(400 * ms, 1000 * ms), Some(1000 * ms));
    assert_eq!(pacer.pace(1500 * ms, 1000 * ms), Some(2000 * ms));
    // More than five seconds behind: the schedule starts over.
    assert_eq!(pacer.pace(9000 * ms, 1000 * ms), None);
    assert_eq!(pacer.pace(9000 * ms, 1000 * ms), Some(10_000 * ms));
}

#[test]
fn ffmpeg_is_checked_by_its_answer() {
    assert!(check_ffmpeg("ffmpeg", true, "exit status: 0", "FFmpeg version 6").is_ok());
    assert_eq!(
        check_ffmpeg("ffmpeg", false, "exit status: 1", "").unwrap_err(),
        "ffmpeg check failed (ffmpeg -version exited exit status: 1); check --ffmpeg"
    );
    assert_eq!(
        check_ffmpeg("cat", true, "exit status: 0", "meow").unwrap_err(),
        "cat -version did not look like ffmpeg; check --ffmpeg"
    );
}

#[test]
fn stations_cut_full_segments_and_flush_the_rest() {
    let mut station = Station::new(real32(2.0));
    assert_eq!(station.step(), StationStep::Load);
    station.on_event(StationEvent::Item(0, false));
    assert_eq!(station.step(), StationStep::Load, "nothing to play");
    station.on_event(StationEvent::Item(100_000, false));
    let mut fed = 0;
    let mut published = 0;
    let mut segments = Vec::new();
    for _ in 0..100 {
        match station.step() {
            StationStep::Load => break,
            StationStep::Feed(from, to) => {
                assert_eq!(from, fed, "frames go in order");
                assert!(to - from <= 4096);
                fed = to;
                station.on_event(StationEvent::Fed);
            }
            StationStep::AwaitPackets | StationStep::AwaitFlush => {
                station.on_event(StationEvent::Packets(true));
            }
            StationStep::Emit(frames) => {
                published += frames;
                segments.push(frames);
                station.on_event(StationEvent::Emitted);
            }
        }
    }
    assert_eq!((fed, published), (100_000, 100_000));
    // 22 feeds of 4096 frames make the first segment.
    assert_eq!(segments, vec![90_112, 9_888]);
}

#[test]
fn stations_wait_with_fillers_and_without_packets() {
    let mut station = Station::new(real32(2.0));
    station.on_event(StationEvent::Item(1000, true));
    assert_eq!(station.step(), StationStep::Feed(0, 1000));
    station.on_event(StationEvent::Emitted);
    assert_eq!(station.step(), StationStep::Feed(0, 1000), "out of turn");
    station.on_event(StationEvent::Fed);
    // A filler goes on to a full segment.
    assert_eq!(station.step(), StationStep::Load);
    station.on_event(StationEvent::Item(10, false));
    station.on_event(StationEvent::Fed);
    assert_eq!(station.step(), StationStep::AwaitFlush);
    station.on_event(StationEvent::Packets(false));
    assert_eq!(station.step(), StationStep::Load);
    station.on_event(StationEvent::Item(5, false));
    station.on_event(StationEvent::Fed);
    station.on_event(StationEvent::Packets(true));
    assert_eq!(station.step(), StationStep::Emit(1015));
}

#[test]
fn frames_last_milliseconds() {
    assert_eq!(millis_of_frames(44100), 1000);
    assert_eq!(millis_of_frames(4410), 100);
    assert_eq!(millis_of_frames(0), 0);
    for frames in [
        1u64,
        4095,
        264_600,
        16_777_215,
        16_777_217,
        16_777_219,
        123_456_789,
        370_000_000_000,
        739_000_000_001,
        987_654_321_987_654,
        u64::MAX,
    ] {
        let secs = frames as f32 / 44100.0;
        let millis = format!("{secs:.3}").replace('.', "");
        assert_eq!(millis_of_frames(frames), millis.parse::<u64>().unwrap(), "{frames}");
    }
}

#[test]
fn stale_artifacts_are_recognised() {
    for name in ["live.m3u8", "live.m3u8.tmp", "seg_00001.ts", "seg_x.mp3"] {
        assert!(is_stale_artifact(name), "{name}");
    }
    for name in ["seg_00001.txt", "other.ts", "live.m3u"] {
        assert!(!is_stale_artifact(name), "{name}");
    }
}

#[test]
fn jingles_are_sorted_and_do_not_repeat() {
    let files = collect_jingle_files(vec![
        "j/b.mp3".to_string(),
        "j/notes.txt".to_string(),
        "j/a.flac".to_string(),
    ]);
    assert_eq!(files, vec!["j/a.flac", "j/b.mp3"]);
    let mut jingles = Jingles::new(files);
    let (first, title) = jingles.next_jingle().unwrap();
    assert!(title.starts_with("Jingle - "), "{title}");
    let (second, _) = jingles.next_jingle().unwrap();
    assert_ne!(first, second);
    assert_eq!(Jingles::new(Vec::new()).next_jingle(), None);
}

#[test]
fn jingles_are_drawn_among_those_not_played_recently() {
    let files: Vec<String> = ["a", "b", "c", "d"].iter().map(|n| format!("j/{n}.mp3")).collect();
    let mut jingles = Jingles::new(files.clone());
    assert_eq!(jingles.choices(), vec![0, 1, 2, 3]);
    assert_eq!(jingles.play(1), ("j/b.mp3".to_string(), "Jingle - b".to_string()));
    jingles.play(3);
    assert_eq!(jingles.choices(), vec![0, 2]);
    jingles.play(0);
    assert_eq!(jingles.choices(), vec![2]);
    // The window holds three: the first one may play again.
    jingles.play(2);
    assert_eq!(jingles.choices(), vec![1]);
    // Where each played recently, any may play.
    let mut few = Jingles::new(files[..2].to_vec());
    few.play(0);
    few.play(1);
    assert_eq!(few.choices(), vec![0, 1]);
    // Every file comes up first sooner or later.
    let mut firsts = Vec::new();
    for _ in 0..400 {
        let (path, _) = Jingles::new(files.clone()).next_jingle().unwrap();
        if !firsts.contains(&path) {
            firsts.push(path);
        }
    }
    firsts.sort();
    assert_eq!(firsts, files);
}

#[test]
fn pushed_segments_are_numbered_and_the_last_are_listed() {
    let mut playlist = Playlist::new(real32(6.0), 3);
    for k in 0..7u64 {
        let (number, file) = playlist.push(6000, format!("t{k}"));
        assert_eq!(number, k);
        assert_eq!(file, format!("seg_{k:05}.ts"));
        assert_eq!(playlist.media_sequence(), (k + 1).saturating_sub(3));
    }
    let content = playlist.content();
    let files: Vec<&str> = content.lines().filter(|l| l.starts_with("seg_")).collect();
    assert_eq!(files, vec!["seg_00004.ts", "seg_00005.ts", "seg_00006.ts"]);
    assert!(content.contains("#EXT-X-MEDIA-SEQUENCE:4\n"));
    assert!(!content.contains("EXT-X-ENDLIST"));
}
