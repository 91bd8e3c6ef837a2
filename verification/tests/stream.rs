use deezco::audio::{CrossfadeConfig, CrossfadeCurve, BUS_RATE};
use deezco::dsp::{ProcessorChain, Stage, StereoToolConfig, StereoToolProcessor};
use deezco::icecast::{
    bytes_per_sec, check_prerequisites, check_stream_options, icy_metadata_block,
    judge_response, judge_title_update, native_bitrate, nearest_bitrate, nominal_bytes_per_sec,
    percent_encode, plan_stream, reports_update_failure, source_request, title_update_url, Backoff,
    Chunk, Handoff, IcecastConfig, PipelineConfig, Producer, StreamError, StreamOptions,
    META_INTERVAL,
};
use deezco::models::TrackFormat;
use deezco::real32::Real32;
use deezco::report::Line;
use deezco::source::{
    after_fetch, FetchOutcome, FetchStep, PrepEvent, PrepStage, Source, SourceEvent, SourceStep,
    TrackPrep, RETRY_DELAY,
};
use deezco::stereo_lib::{
    clear_process_label, current_label, required_symbols, set_process_label, total_blocks,
    BlockRun, Opening, OpeningEvent, OpeningStep, ProcessLabel, StereoLibConfig,
};

fn real32(x: f32) -> Real32 {
    Real32 { bits: x.to_bits() }
}

#[test]
fn metadata_block_packs_title_with_length_byte_and_padding() {
    let block = icy_metadata_block("Artist - Song");
    // First byte: number of 16-byte units
    let meta = "StreamTitle='Artist - Song';StreamUrl='';";
    let units = meta.len().div_ceil(16);
    assert_eq!(block[0], units as u8);
    assert_eq!(block.len(), 1 + units * 16);
    assert!(block[1..].starts_with(meta.as_bytes()));
    // Padding is null bytes
    assert!(block[1 + meta.len()..].iter().all(|&b| b == 0));
}

#[test]
fn metadata_block_strips_single_quotes_from_title() {
    let block = icy_metadata_block("It's a \"Song\"");
    let text = String::from_utf8_lossy(&block[1..]);
    assert!(text.contains("StreamTitle='Its a \"Song\"';"));
}

#[test]
fn metadata_block_truncates_very_long_titles() {
    let long = "x".repeat(5000);
    let block = icy_metadata_block(&long);
    // The largest single block that the length byte can express
    assert_eq!(block.len(), 1 + 255 * 16);
    assert_eq!(block[0], 255);
}

#[test]
fn bytes_per_sec_uses_duration_when_known() {
    // 10 MB over 200 seconds = 50 KB/s
    assert_eq!(bytes_per_sec(10_000_000, 200, 40_000), 50_000);
    // Unknown duration falls back to the nominal rate
    assert_eq!(bytes_per_sec(10_000_000, 0, 40_000), 40_000);
    assert_eq!(bytes_per_sec(10_000_000, 0, 16_000), 16_000);
}

#[test]
fn bytes_per_sec_never_returns_zero() {
    assert_eq!(bytes_per_sec(100, 10_000, 16_000), 1);
}

#[test]
fn native_bitrate_maps_formats() {
    assert_eq!(native_bitrate(TrackFormat::Mp3_320), Some(320));
    assert_eq!(native_bitrate(TrackFormat::Mp3_128), Some(128));
    assert_eq!(native_bitrate(TrackFormat::Flac), None);
}

#[test]
fn nominal_rates_follow_the_format() {
    assert_eq!(nominal_bytes_per_sec(TrackFormat::Mp3_320), 40_000);
    assert_eq!(nominal_bytes_per_sec(TrackFormat::Mp3_128), 16_000);
}

#[test]
fn bitrates_snap_to_mpeg_rates() {
    assert_eq!(nearest_bitrate(100), 96);
    assert_eq!(nearest_bitrate(320), 320);
    assert_eq!(nearest_bitrate(8), 8);
    assert_eq!(nearest_bitrate(300), 320);
}

#[test]
fn pipeline_default_is_native_passthrough() {
    let pipeline = PipelineConfig::default();
    assert!(!pipeline.is_active());
    assert!(pipeline.build_chain().is_empty());
}

#[test]
fn pipeline_gain_builds_a_named_chain() {
    let pipeline = PipelineConfig {
        crossfade: CrossfadeConfig::disabled(),
        gain_db: Some(real32(6.0)),
        bitrate: None,
        stereo_tool: None,
        stereo_lib: None,
        loudness: None,
    };
    assert!(pipeline.is_active());
    let chain = pipeline.build_chain();
    assert_eq!(chain.names(), vec!["gain"]);
}

#[test]
fn pipeline_crossfade_marks_active_without_chain() {
    // Crossfade renders in the mixer stage, not the DSP chain: active
    // pipeline, empty chain.
    let pipeline = PipelineConfig {
        crossfade: CrossfadeConfig::new(real32(6.0), CrossfadeCurve::EqualPower),
        gain_db: None,
        bitrate: None,
        stereo_tool: None,
        stereo_lib: None,
        loudness: None,
    };
    assert!(pipeline.is_active());
    assert!(pipeline.build_chain().is_empty());
}

#[test]
fn pipeline_zero_gain_stays_passthrough() {
    let pipeline = PipelineConfig {
        crossfade: CrossfadeConfig::disabled(),
        gain_db: Some(real32(0.0)),
        bitrate: None,
        stereo_tool: None,
        stereo_lib: None,
        loudness: None,
    };
    assert!(!pipeline.is_active());
    assert!(pipeline.build_chain().is_empty());
}

#[test]
fn pipeline_bitrate_activates_transcode_alone() {
    let pipeline = PipelineConfig {
        crossfade: CrossfadeConfig::disabled(),
        gain_db: None,
        bitrate: Some(96),
        stereo_tool: None,
        stereo_lib: None,
        loudness: None,
    };
    assert!(pipeline.is_active());
    assert!(pipeline.build_chain().is_empty());
}

fn tool(binary: &str, rate: u32) -> StereoToolConfig {
    StereoToolConfig { binary: binary.to_string(), settings: None, key: None, rate }
}

#[test]
fn pipeline_stereo_tool_docks_after_gain() {
    let pipeline = PipelineConfig {
        crossfade: CrossfadeConfig::disabled(),
        gain_db: Some(real32(3.0)),
        bitrate: None,
        stereo_tool: Some(tool("/opt/stereo_tool_cmd_64", BUS_RATE)),
        stereo_lib: None,
        loudness: None,
    };
    assert!(pipeline.is_active());
    // Broadcast order: trim gain first, then the broadcast processor.
    assert_eq!(pipeline.build_chain().names(), vec!["gain", "stereo-tool"]);
}

#[test]
fn pipeline_stereo_lib_docks_last() {
    let mut pipeline = PipelineConfig {
        stereo_lib: Some(StereoLibConfig {
            lib: "/opt/libStereoTool_intel64.so".to_string(),
            settings: None,
            key: None,
            reset_per_track: true,
        }),
        ..PipelineConfig::default()
    };
    assert!(pipeline.is_active());
    assert_eq!(pipeline.build_chain().stages, vec![Stage::StereoLib(true)]);
    pipeline.gain_db = Some(real32(3.0));
    assert_eq!(pipeline.build_chain().names(), vec!["gain", "stereo-tool-lib"]);
}

#[test]
fn pipeline_loudness_activates_alone() {
    let pipeline = PipelineConfig { loudness: Some(real32(-14.0)), ..PipelineConfig::default() };
    assert!(pipeline.is_active());
    assert!(pipeline.build_chain().is_empty());
}

#[test]
fn prerequisites_pass_for_inactive_pipeline() {
    // No external binaries involved on the passthrough path.
    check_prerequisites(&PipelineConfig::default(), false, false, false).unwrap();
}

#[test]
fn prerequisites_reject_missing_stereo_binary() {
    let pipeline = PipelineConfig {
        stereo_tool: Some(tool("/nonexistent/stereo_tool_cmd_64", BUS_RATE)),
        ..PipelineConfig::default()
    };
    let err = check_prerequisites(&pipeline, false, false, true).unwrap_err();
    assert!(err.contains("--stereo-tool"), "{err}");
}

#[test]
fn prerequisites_reject_wrong_stereo_rate() {
    let pipeline = PipelineConfig {
        stereo_tool: Some(tool("/usr/bin/env", 48000)),
        ..PipelineConfig::default()
    };
    let err = check_prerequisites(&pipeline, true, false, true).unwrap_err();
    assert!(err.contains("44100"), "{err}");
}

#[test]
fn prerequisites_need_an_encoder() {
    let pipeline = PipelineConfig { bitrate: Some(96), ..PipelineConfig::default() };
    let err = check_prerequisites(&pipeline, false, false, false).unwrap_err();
    assert!(err.contains("needs the lame binary"), "{err}");
    assert!(check_prerequisites(&pipeline, false, false, true).is_ok());
}

fn lib(reset_per_track: bool) -> StereoLibConfig {
    StereoLibConfig {
        lib: "/nonexistent/libStereoTool.so".to_string(),
        settings: None,
        key: None,
        reset_per_track,
    }
}

#[test]
fn prerequisites_reject_missing_stereo_library() {
    let pipeline = PipelineConfig { stereo_lib: Some(lib(false)), ..PipelineConfig::default() };
    let err = check_prerequisites(&pipeline, false, false, true).unwrap_err();
    assert!(err.contains("--stereo-tool-lib"), "{err}");
}

#[test]
fn encode_bitrate_prefers_override_then_native() {
    let native = PipelineConfig::default();
    assert_eq!(native.encode_bitrate(TrackFormat::Mp3_320), 320);
    assert_eq!(native.encode_bitrate(TrackFormat::Mp3_128), 128);
    // Lossless has no native MP3 rate (fetched as 320 when active).
    assert_eq!(native.encode_bitrate(TrackFormat::Flac), 320);
    let forced = PipelineConfig { bitrate: Some(96), ..PipelineConfig::default() };
    assert_eq!(forced.encode_bitrate(TrackFormat::Mp3_320), 96);
}

/// The handoff is the deadlock-critical piece: task 1 must wait for task 0's
/// publish, and a failed task must still let the sequence advance.
#[test]
fn crossfade_handoff_orders_tasks_and_survives_failures() {
    let mut shared: Handoff<f32> = Handoff::new();

    // Task 1 claims before task 0 publishes: must stay pending.
    assert!(!shared.may_claim(1), "seq 1 must wait for seq 0");

    // Task 0 proceeds immediately and publishes.
    assert!(shared.may_claim(0), "seq 0 must proceed at once");
    shared.publish(0, vec![0.5, 0.5]);
    assert!(shared.may_claim(1), "seq 1 must proceed after publish");

    // A failure at seq 2 advances the version without touching the tail.
    shared.advance_past(2);
    assert_eq!(shared.version, 3);
    assert_eq!(shared.tail, vec![0.5, 0.5]);
}

#[test]
fn plans_refuse_native_lossless() {
    let native = PipelineConfig::default();
    assert_eq!(
        plan_stream(TrackFormat::Flac, &native).unwrap_err(),
        "streaming FLAC to Icecast is not supported; use --quality 320 or 128"
    );
    let plan = plan_stream(TrackFormat::Mp3_128, &native).unwrap();
    assert_eq!(plan.fetch_format, TrackFormat::Mp3_128);
}

#[test]
fn reconnecting_backs_off_to_a_limit() {
    let mut backoff = Backoff::new();
    let waits: Vec<u64> = (0..8).map(|_| backoff.wait_after(false)).collect();
    assert_eq!(waits, vec![5, 10, 20, 40, 80, 160, 300, 300]);
    assert_eq!(backoff.wait_after(true), 5);
    assert_eq!(backoff.wait_after(false), 10);
}

#[test]
fn percent_encoding_keeps_unreserved_characters() {
    assert_eq!(percent_encode(b"aZ0-_.~"), "aZ0-_.~");
    assert_eq!(percent_encode("a b/é".as_bytes()), "a%20b%2F%C3%A9");
}

fn config(metadata: bool) -> IcecastConfig {
    IcecastConfig {
        server: "http://localhost:8000".to_string(),
        mount: "/radio".to_string(),
        username: "source".to_string(),
        password: "hackme".to_string(),
        metadata,
        name: Some("Radio".to_string()),
        genre: None,
        url: None,
        public: false,
        playlist: "1".to_string(),
    }
}

#[test]
fn sources_announce_themselves() {
    let request = source_request(&config(true), 128);
    assert_eq!(request.url, "http://localhost:8000/radio");
    let has = |name: &str, value: &str| {
        request.headers.iter().any(|(n, v)| n == name && v == value)
    };
    assert!(has("Content-Type", "audio/mpeg"));
    assert!(has("ice-public", "0"));
    assert!(has("ice-bitrate", "128"));
    assert!(has("icy-metaint", "16000"));
    assert!(has("ice-name", "Radio"));
    let quiet = source_request(&config(false), 128);
    assert!(quiet.headers.iter().all(|(n, _)| n != "icy-metaint"));
}

#[test]
fn answers_of_the_server_are_judged() {
    assert!(judge_response(true, "200 OK").is_ok());
    assert_eq!(
        judge_response(false, "401 Unauthorized"),
        Err(StreamError::Fatal(
            "Icecast rejected the source connection (401 Unauthorized); \
             check the mount point and source password"
                .to_string()
        ))
    );
    assert!(judge_title_update(true, "200 OK", "fine").is_ok());
    assert_eq!(
        judge_title_update(false, "404 Not Found", "").unwrap_err(),
        "Icecast title update rejected: HTTP 404 Not Found"
    );
    assert_eq!(
        judge_title_update(true, "200 OK", " will not accept \n").unwrap_err(),
        "Icecast refused the title update: will not accept"
    );
    assert!(!reports_update_failure("HTTP 404"));
    assert!(reports_update_failure("HTTP 500"));
    assert_eq!(
        title_update_url(&config(true), "A B"),
        "http://localhost:8000/admin/metadata?mode=updinfo&charset=UTF-8&mount=%2Fradio&song=A%20B"
    );
}

#[test]
fn producer_interleaves_metadata() {
    let mut producer = Producer::new(TrackFormat::Mp3_128, true, false, 128);
    assert!(!producer.is_loaded());
    assert_eq!(producer.next_chunk(), Chunk::NeedTrack);
    assert_eq!(Producer::missing_prefetches(0), 2);
    assert_eq!(Producer::missing_prefetches(2), 0);
    assert_eq!((producer.claim_seq(), producer.claim_seq()), (0, 1));
    producer.on_connected();
    let data: Vec<u8> = (0..20_000u32).map(|i| i as u8).collect();
    producer.activate_track("A - B".to_string(), data.clone(), 2, TrackFormat::Mp3_128);
    assert_eq!(producer.current_title().as_deref(), Some("A - B"));
    let mut heard: Vec<u8> = Vec::new();
    let mut since_block = 0;
    let mut blocks = 0;
    for _ in 0..64 {
        match producer.next_chunk() {
            Chunk::NeedTrack => {
                break;
            }
            Chunk::Metadata(block) => {
                assert_eq!(since_block, META_INTERVAL);
                assert_eq!(block, icy_metadata_block("A - B"));
                since_block = 0;
                blocks += 1;
            }
            Chunk::Audio(bytes, rate) => {
                assert_eq!(rate, 10_000);
                since_block += bytes.len();
                heard.extend(bytes);
            }
        }
    }
    assert_eq!(heard, data);
    assert_eq!(blocks, 1);
}

#[test]
fn producer_without_metadata_sends_audio_alone() {
    let mut producer = Producer::new(TrackFormat::Mp3_128, false, false, 128);
    producer.on_connected();
    producer.activate_track("A".to_string(), vec![7; 40_000], 0, TrackFormat::Mp3_128);
    let mut total = 0;
    while let Chunk::Audio(bytes, rate) = producer.next_chunk() {
        assert_eq!(rate, 16_000);
        total += bytes.len();
    }
    assert_eq!(total, 40_000);
}

fn options() -> StreamOptions {
    StreamOptions {
        password: Some("hackme".to_string()),
        crossfade: real32(0.0),
        gain_db: None,
        target_lufs: None,
        bitrate: None,
        reset_track: false,
        has_lib: false,
    }
}

#[test]
fn stream_options_are_checked() {
    assert_eq!(check_stream_options(options()), Ok("hackme".to_string()));
    let fault = |o: StreamOptions| check_stream_options(o).unwrap_err();
    assert_eq!(
        fault(StreamOptions { password: None, ..options() }),
        "an Icecast source password is required (--password or DEEZCO_ICECAST_PASSWORD)"
    );
    for bad in [-1.0, 30.5, f32::NAN] {
        assert_eq!(
            fault(StreamOptions { crossfade: real32(bad), ..options() }),
            "--crossfade must be between 0 and 30 seconds"
        );
    }
    assert_eq!(
        fault(StreamOptions { gain_db: Some(real32(24.5)), ..options() }),
        "--gain-db must be between -24 and +24 dB"
    );
    assert_eq!(
        fault(StreamOptions { target_lufs: Some(real32(-5.0)), ..options() }),
        "--target-lufs must be between -23 and -6 LUFS"
    );
    assert!(check_stream_options(StreamOptions { target_lufs: Some(real32(-23.0)), ..options() })
        .is_ok());
    assert_eq!(
        fault(StreamOptions { bitrate: Some(7), ..options() }),
        "--bitrate must be between 8 and 320 kbps"
    );
    assert_eq!(
        fault(StreamOptions { reset_track: true, ..options() }),
        "--stereo-tool-reset-track requires --stereo-tool-lib"
    );
}

#[test]
fn chains_list_their_stages_in_order() {
    let mut chain = ProcessorChain::new();
    assert!(chain.is_empty());
    assert_eq!(chain.len(), 0);
    chain.push(Stage::Gain(real32(1.0)));
    chain.push(Stage::StereoLib(true));
    assert_eq!(chain.names(), vec!["gain", "stereo-tool-lib"]);
}

#[test]
fn stereo_tool_warns_once() {
    let mut processor = StereoToolProcessor::new(tool("/opt/tool", BUS_RATE));
    assert_eq!(processor.name(), "stereo-tool");
    assert_eq!(
        processor.bypass_warning().as_deref(),
        Some("deezco: stereo-tool stub active (/opt/tool): bypassing, PCM passes through unchanged")
    );
    assert_eq!(processor.bypass_warning(), None);
}

/// Goes through an opening that succeeds up to `good` steps and then fails.
fn opening_after(config: &StereoLibConfig, good: usize) -> OpeningStep {
    let mut opening = Opening::new(config);
    for _ in 0..good {
        opening.on_event(OpeningEvent::Done(true));
    }
    opening.on_event(OpeningEvent::Done(false));
    opening.step()
}

#[test]
fn library_faults_are_named() {
    assert_eq!(required_symbols().len(), 10);
    let mut config = lib(false);
    config.settings = Some("audio.sts".to_string());
    config.key = Some("key".to_string());
    let fail = |message: &str| OpeningStep::Fail(message.to_string());
    assert_eq!(
        opening_after(&config, 0),
        fail("cannot open stereo-tool lib /nonexistent/libStereoTool.so")
    );
    assert_eq!(
        opening_after(&config, 3),
        fail("stereo-tool lib is missing stereoTool_Process")
    );
    assert_eq!(
        opening_after(&config, 11),
        fail("stereo-tool lib returned a null instance (out of memory?)")
    );
    assert_eq!(
        opening_after(&config, 12),
        fail("stereo-tool lib refused preset audio.sts")
    );
    config.settings = Some("audio\0.sts".to_string());
    assert_eq!(
        opening_after(&config, 12),
        fail("stereo-tool settings path is not valid UTF-8")
    );
    config.key = Some("k\0".to_string());
    assert_eq!(opening_after(&config, 11), fail("stereo-tool key is not valid UTF-8"));
}

#[test]
fn licenses_are_reported_and_never_fatal() {
    let config = lib(false);
    let measured = |frames: i32| {
        let mut opening = Opening::new(&config);
        assert_eq!(opening.step(), OpeningStep::Load);
        opening.on_event(OpeningEvent::Done(true));
        for name in required_symbols() {
            assert_eq!(opening.step(), OpeningStep::Find(name));
            opening.on_event(OpeningEvent::Done(true));
        }
        assert_eq!(opening.step(), OpeningStep::Create);
        opening.on_event(OpeningEvent::Done(true));
        assert_eq!(opening.step(), OpeningStep::Measure);
        opening.on_event(OpeningEvent::Latency(frames));
        assert_eq!(opening.step(), OpeningStep::CheckLicense);
        opening
    };
    let mut good = measured(64);
    assert_eq!(
        good.on_event(OpeningEvent::Done(true)),
        Some(Line::Out("deezco: stereo-tool-lib license OK".to_string()))
    );
    assert_eq!((good.step(), good.latency_frames()), (OpeningStep::Done, 64));
    let mut bad = measured(-1);
    assert_eq!(bad.on_event(OpeningEvent::Done(false)), None);
    assert_eq!(bad.step(), OpeningStep::Explain);
    assert_eq!(
        bad.on_event(OpeningEvent::Features(false, "no AGC".to_string())),
        Some(Line::Problem("deezco: stereo-tool-lib license issue: no AGC".to_string()))
    );
    assert_eq!((bad.step(), bad.latency_frames()), (OpeningStep::Done, 0));
    let mut unknown = measured(0);
    unknown.on_event(OpeningEvent::Done(false));
    assert_eq!(
        unknown.on_event(OpeningEvent::Features(true, String::new())),
        Some(Line::Problem(
            "deezco: stereo-tool-lib license not (yet) verified; unlicensed output adds voice-overs/beeps"
                .to_string()
        ))
    );
}

#[test]
fn library_progress_is_reported() {
    assert_eq!(total_blocks(0), 0);
    assert_eq!(total_blocks(8192), 1);
    assert_eq!(total_blocks(8193), 2);
    let mut run = BlockRun::new(20000, Some("A".to_string()));
    assert_eq!(run.next_block(), Some((0, 8192)));
    assert_eq!(run.on_block(4), None);
    assert_eq!(run.next_block(), Some((8192, 16384)));
    assert_eq!(
        run.on_block(5).as_deref(),
        Some("deezco: stereo-tool-lib progress 66% \"A\" (2/3 blocks, 20000 frames)")
    );
    assert_eq!(run.next_block(), Some((16384, 20000)));
    assert_eq!(
        run.on_block(0).as_deref(),
        Some("deezco: stereo-tool-lib progress 100% \"A\" (3/3 blocks, 20000 frames)")
    );
    assert_eq!(run.next_block(), None);
    assert_eq!(BlockRun::new(0, None).next_block(), None);
    let mut slot = ProcessLabel::none();
    assert_eq!(current_label(&slot), None);
    set_process_label(&mut slot, "T".to_string());
    assert_eq!(current_label(&slot).as_deref(), Some("T"));
    clear_process_label(&mut slot);
    assert_eq!(current_label(&slot), None);
}

fn said(source: &mut Source, event: SourceEvent) -> Vec<Line> {
    source.on_event(event)
}

#[test]
fn sources_warm_up_before_they_connect() {
    let mut source = Source::new("http://h:8000/live".to_string());
    assert_eq!(source.step(), SourceStep::Check);
    assert_eq!(
        said(&mut source, SourceEvent::Loaded(false)),
        vec![Line::Out("deezco: preparing the first track before connecting".to_string())]
    );
    assert_eq!(source.step(), SourceStep::WarmUp);
    assert_eq!(
        said(&mut source, SourceEvent::NotReady("offline".to_string())),
        vec![Line::Problem("deezco: first track not ready: offline; retrying".to_string())]
    );
    assert_eq!(source.step(), SourceStep::Pause(RETRY_DELAY));
    said(&mut source, SourceEvent::Done);
    assert!(said(&mut source, SourceEvent::Loaded(false)).is_empty());
    assert_eq!(
        said(&mut source, SourceEvent::Ready(320)),
        vec![Line::Out(
            "deezco: streaming at 320 kbps (actual, after quality fallback)".to_string()
        )]
    );
    assert_eq!(source.step(), SourceStep::Connect(320));
    assert_eq!(
        said(&mut source, SourceEvent::Answer(true, "200 OK".to_string())),
        vec![Line::Out(
            "deezco: connected to http://h:8000/live (listeners can tune in at http://h:8000/live)"
                .to_string()
        )]
    );
    assert_eq!(source.step(), SourceStep::SendTitle);
    said(&mut source, SourceEvent::Done);
    assert_eq!(source.step(), SourceStep::Listen);
}

#[test]
fn failed_connections_are_tried_again_ever_later() {
    let mut source = Source::new("u".to_string());
    let mut waits = Vec::new();
    for _ in 0..8 {
        said(&mut source, SourceEvent::Loaded(true));
        said(&mut source, SourceEvent::Ready(128));
        let lines = said(&mut source, SourceEvent::Broken);
        assert_eq!(
            lines[0],
            Line::Problem("deezco: stream error: Icecast connection failed; reconnecting".to_string())
        );
        match source.step() {
            SourceStep::Pause(secs) => waits.push(secs),
            other => panic!("no pause: {other:?}"),
        }
        said(&mut source, SourceEvent::Done);
    }
    assert_eq!(waits, vec![5, 10, 20, 40, 80, 160, 300, 300]);
    said(&mut source, SourceEvent::Loaded(true));
    said(&mut source, SourceEvent::Ready(128));
    said(&mut source, SourceEvent::Answer(true, "200 OK".to_string()));
    said(&mut source, SourceEvent::Done);
    assert_eq!(
        said(&mut source, SourceEvent::Closed),
        vec![
            Line::Problem(
                "deezco: source connection closed by Icecast; reconnecting".to_string()
            ),
            Line::Problem("deezco: next connection attempt in 5s".to_string()),
        ]
    );
}

#[test]
fn refused_sources_stop() {
    let mut source = Source::new("u".to_string());
    said(&mut source, SourceEvent::Loaded(true));
    said(&mut source, SourceEvent::Ready(128));
    assert!(said(&mut source, SourceEvent::Answer(false, "401 Unauthorized".to_string())).is_empty());
    assert_eq!(
        source.step(),
        SourceStep::Stop(
            "Icecast rejected the source connection (401 Unauthorized); check the mount point and source password"
                .to_string()
        )
    );
}

#[test]
fn preparations_hand_over_whatever_happens() {
    let mut handoff: Handoff<i16> = Handoff::new();
    let mut first = TrackPrep::new(0, true, true);
    let mut second = TrackPrep::new(1, true, true);
    for _ in 0..3 {
        first.on_event(PrepEvent::Done, &mut handoff);
        second.on_event(PrepEvent::Done, &mut handoff);
    }
    assert_eq!(second.stage, PrepStage::Mixing);
    // Out of turn nothing is handed over.
    second.on_event(PrepEvent::Mixed(vec![9]), &mut handoff);
    assert_eq!((second.stage, handoff.version), (PrepStage::Mixing, 0));
    first.on_event(PrepEvent::Mixed(vec![1, 2]), &mut handoff);
    assert_eq!((first.stage, handoff.version), (PrepStage::Encoding, 1));
    assert_eq!(handoff.tail, vec![1, 2]);
    second.on_event(PrepEvent::Mixed(vec![3]), &mut handoff);
    assert_eq!((handoff.version, handoff.tail.clone()), (2, vec![3]));
    second.on_event(PrepEvent::Failed, &mut handoff);
    assert_eq!((second.stage, handoff.version), (PrepStage::GivenUp, 2));
    // A track that cannot even be chosen lets the next one go on.
    let mut third = TrackPrep::new(2, true, true);
    third.on_event(PrepEvent::Failed, &mut handoff);
    assert_eq!((third.stage, handoff.version), (PrepStage::GivenUp, 3));
    assert_eq!(handoff.tail, vec![3]);
    // Without processing a fetched track is ready.
    let mut plain = TrackPrep::new(3, false, false);
    plain.on_event(PrepEvent::Done, &mut handoff);
    plain.on_event(PrepEvent::Done, &mut handoff);
    assert_eq!(plain.stage, PrepStage::Ready);
}

#[test]
fn tracks_that_fail_are_skipped_and_lost_tasks_are_waited_for() {
    let step = after_fetch(FetchOutcome::Ready(3));
    assert_eq!(step, FetchStep::Play(3));
    assert_eq!(step.warning(), None);
    let step = after_fetch(FetchOutcome::<u8>::Failed("gone".to_string()));
    assert_eq!(step, FetchStep::Skip("gone".to_string()));
    assert_eq!(step.warning().unwrap(), "deezco: track fetch failed: gone; skipping");
    let step = after_fetch(FetchOutcome::<u8>::Lost("panicked".to_string()));
    assert_eq!(step, FetchStep::Wait(5, "panicked".to_string()));
    assert_eq!(step.warning().unwrap(), "deezco: track fetch failed: panicked; retrying in 5s");
}
