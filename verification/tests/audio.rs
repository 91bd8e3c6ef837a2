use deezco::audio::{
    add_packet, on_audio, on_end, on_read, plan_overlap, push_stereo_frame,
    render_track_overlap, resample_neighbours, resampled_frames, s16_bytes, upmix_mono_to_stereo,
    wav_header, CrossfadeConfig, CrossfadeCurve, DecodeFailure, DecodedPacket, FaultKind,
    LameEncoder, MediaFault, RawPacket, ReadStep, SymphoniaDecoder, BUS_CHANNELS, BUS_RATE, MAX_CROSSFADE_SECS,
};
use deezco::flac::{file_is_whole, frame_fits};
use deezco::real32::Real32;
use deezco::tags::tags_can_be_passed;

fn real32(x: f32) -> Real32 {
    Real32 { bits: x.to_bits() }
}

#[test]
fn bus_constants_match_decoder_assumptions() {
    assert_eq!(BUS_RATE, 44100);
    assert_eq!(BUS_CHANNELS, 2);
}

#[test]
fn crossfade_disabled_by_default() {
    let config = CrossfadeConfig::default();
    assert!(!config.is_enabled());
    assert_eq!(config.overlap_frames(), 0);
}

#[test]
fn crossfade_duration_clamps_to_range() {
    assert_eq!(
        CrossfadeConfig::new(real32(-5.0), CrossfadeCurve::EqualPower).duration_secs,
        real32(0.0)
    );
    assert_eq!(
        CrossfadeConfig::new(real32(999.0), CrossfadeCurve::EqualPower).duration_secs,
        Real32 { bits: MAX_CROSSFADE_SECS }
    );
    assert_eq!(f32::from_bits(MAX_CROSSFADE_SECS), 30.0);
    assert!(!CrossfadeConfig::new(real32(f32::NAN), CrossfadeCurve::EqualPower).is_enabled());
    let six = CrossfadeConfig::new(real32(6.0), CrossfadeCurve::Linear);
    assert!(six.is_enabled());
    assert_eq!(six.overlap_frames(), 6 * BUS_RATE as u64);
}

#[test]
fn crossfade_keeps_fractions_of_a_second() {
    let half = CrossfadeConfig::new(real32(2.5), CrossfadeCurve::Linear);
    assert_eq!(half.duration_secs, real32(2.5));
    assert_eq!(half.overlap_frames(), 110_250);
    let tiny = CrossfadeConfig::new(real32(0.1), CrossfadeCurve::Linear);
    assert_eq!(tiny.overlap_frames(), (0.1f32 * 44100.0f32) as u64);
    assert!(!CrossfadeConfig::new(real32(-0.0), CrossfadeCurve::Linear).is_enabled());
}

/// 10 stereo frames, all samples `v`.
fn ten_frames(v: f32) -> Vec<f32> {
    vec![v; 20]
}

#[test]
fn render_overlap_mixes_head_and_holds_tail() {
    let parts = render_track_overlap(ten_frames(1.0), ten_frames(0.0), 4);
    assert_eq!(parts.head.len() + parts.body.len(), 12, "4 mixed + 2 body frames");
    assert_eq!(parts.new_tail.len(), 8, "held tail");
    assert_eq!(parts.fading_out.len(), parts.head.len());
    assert_eq!(parts.fading_out[0], 1.0, "overlap starts at outgoing");
    assert_eq!(parts.body[2], 0.0, "body is the incoming track");
}

#[test]
fn render_overlap_first_track_holds_tail_without_prefix() {
    let parts = render_track_overlap(Vec::new(), ten_frames(0.5), 4);
    assert_eq!(parts.head.len() + parts.body.len(), 12, "10 - 4 held frames");
    assert_eq!(parts.new_tail.len(), 8);
    assert!(parts.fading_out.is_empty());
    assert!(parts.body.iter().all(|&s| s == 0.5));
}

#[test]
fn render_overlap_short_track_shrinks_gracefully() {
    let parts = render_track_overlap(ten_frames(1.0), vec![0.0; 6], 4);
    assert_eq!(parts.head.len() + parts.body.len(), 4);
    assert_eq!(parts.new_tail.len(), 2, "hold capped so overlap + hold fit");
}

#[test]
fn render_overlap_empty_track_is_empty() {
    let parts = render_track_overlap(ten_frames(1.0), Vec::new(), 4);
    assert!(parts.head.is_empty());
    assert!(parts.body.is_empty());
    assert!(parts.new_tail.is_empty());
}

#[test]
fn crossfade_conserves_every_frame() {
    let pcm: Vec<i32> = (0..20).collect();
    let parts = render_track_overlap(vec![100; 8], pcm.clone(), 3);
    let mut whole = parts.head;
    whole.extend(parts.body);
    whole.extend(parts.new_tail);
    assert_eq!(whole, pcm);
}

#[test]
fn overlap_plans_fit_the_track() {
    let plan = plan_overlap(10, 10, 4);
    assert_eq!((plan.overlap, plan.hold), (4, 4));
    let short = plan_overlap(10, 3, 4);
    assert!(short.overlap + short.hold <= 3);
}

#[test]
fn upmix_duplicates_mono_to_both_channels() {
    let mut out = Vec::new();
    upmix_mono_to_stereo(&[1000, -1000, 0], &mut out);
    assert_eq!(out, vec![1000, 1000, -1000, -1000, 0, 0]);
}

#[test]
fn decoder_reports_its_backend_name() {
    assert_eq!(SymphoniaDecoder::new().name(), "symphonia");
}

#[test]
fn decoder_rejects_empty_input() {
    let err = SymphoniaDecoder::decode_frames(&[]).unwrap_err();
    assert_eq!(err.message(), "cannot decode empty MP3 input");
}

#[test]
fn decoder_rejects_garbage_without_audio_frames() {
    let garbage = vec![0xAA; 4096];
    assert!(SymphoniaDecoder::decode_frames(&garbage).is_err());
}

/// A version 2.4 tag with an extended header with these flags and fields.
fn extended_tag(flags: u8, fields: &[u8]) -> Vec<u8> {
    let mut tag = b"ID3".to_vec();
    tag.extend([4, 0, 0x40, 0, 0, 0, 0x20, 0, 0, 0, 0, 1, flags]);
    tag.extend(fields);
    tag
}

#[test]
fn tags_that_cannot_be_read_are_refused() {
    let tag = extended_tag(0x10, &[1, 0x40]);
    assert_eq!(tag.len(), 18);
    assert!(!tags_can_be_passed(&tag));
    assert_eq!(
        SymphoniaDecoder::decode_frames(&tag).unwrap_err().message(),
        "MP3 probe failed: the tag cannot be read"
    );
    // Behind what it says of an update and of a checksum, and behind other bytes.
    assert!(!tags_can_be_passed(&extended_tag(0x50, &[1, 1, 0xC0])));
    assert!(!tags_can_be_passed(&extended_tag(0x30, &[5, 0, 0, 0, 0, 0, 1, 0x7F])));
    assert!(!tags_can_be_passed(&extended_tag(0x70, &[1, 5, 0, 0, 0, 0, 0, 1, 0x40])));
    let mut behind = vec![0u8; 100];
    behind.extend(&tag);
    assert!(!tags_can_be_passed(&behind));
}

#[test]
fn other_tags_are_left_to_the_reader() {
    for (flags, fields) in [
        (0x10, vec![1, 0xBF]),
        (0x10, vec![2, 0x40]),
        (0x10, vec![1]),
        (0x00, vec![1, 0x40]),
        (0x50, vec![0, 1, 0x40]),
        (0x30, vec![4, 0, 0, 0, 0, 0, 1, 0x40]),
    ] {
        let tag = extended_tag(flags, &fields);
        assert!(tags_can_be_passed(&tag), "{flags} {fields:?}");
        assert!(SymphoniaDecoder::decode_frames(&tag).is_err());
    }
    for at in [3, 4, 5, 14] {
        let mut tag = extended_tag(0x10, &[1, 0x40]);
        tag[at] = if at == 4 { 0xFF } else { 3 };
        assert!(tags_can_be_passed(&tag), "{at}");
        assert!(SymphoniaDecoder::decode_frames(&tag).is_err());
    }
    // A tag behind the start of the audio, or within another tag, is none.
    let mut audio = vec![0xFF, 0xFB, 0x90, 0x00];
    audio.extend(extended_tag(0x10, &[1, 0x40]));
    assert!(tags_can_be_passed(&audio));
    let mut outer = b"ID3\x03\0\0\0\0\0\x40".to_vec();
    outer.extend(extended_tag(0x10, &[1, 0x40]));
    assert!(tags_can_be_passed(&outer));
    assert!(tags_can_be_passed(&[]));
}

#[test]
fn decoder_reads_past_a_tag() {
    let mut mp3 = b"ID3\x04\0\0\0\0\0\x14".to_vec();
    mp3.extend(vec![0u8; 20]);
    for _ in 0..12 {
        mp3.extend([0xFF, 0xFB, 0x90, 0x00]);
        mp3.extend(vec![0u8; 413]);
    }
    let track = SymphoniaDecoder::decode_frames(&mp3).unwrap();
    assert_eq!(track.runs[0].stereo.len(), 12 * 1152 * 2);
}

#[test]
fn decoder_reads_mp3_frames() {
    // MPEG-1 layer III, 128 kbps, 44.1 kHz, stereo: 417 bytes, all silent.
    let mut mp3: Vec<u8> = Vec::new();
    for _ in 0..12 {
        mp3.extend([0xFF, 0xFB, 0x90, 0x00]);
        mp3.extend(vec![0u8; 413]);
    }
    let track = SymphoniaDecoder::decode_frames(&mp3).unwrap();
    assert_eq!(track.rate, 44100);
    let samples: usize = track.runs.iter().map(|r| r.stereo.len()).sum();
    assert!(samples > 0 && samples % (1152 * 2) == 0, "{samples}");
    assert!(track.runs.iter().all(|r| r.stereo.iter().all(|&s| s == 0)));
}

fn crc8(data: &[u8]) -> u8 {
    let mut crc = 0u8;
    for &byte in data {
        crc ^= byte;
        for _ in 0..8 {
            crc = if crc & 0x80 != 0 { (crc << 1) ^ 0x07 } else { crc << 1 };
        }
    }
    crc
}

fn crc16(data: &[u8]) -> u16 {
    let mut crc = 0u16;
    for &byte in data {
        crc ^= (byte as u16) << 8;
        for _ in 0..8 {
            crc = if crc & 0x8000 != 0 { (crc << 1) ^ 0x8005 } else { crc << 1 };
        }
    }
    crc
}

/// A FLAC file of constant stereo frames, 192 samples each.
fn flac_file(frames: u8, left: i16, right: i16) -> Vec<u8> {
    let mut file = b"fLaC".to_vec();
    file.extend([0x80, 0, 0, 34]);
    file.extend(192u16.to_be_bytes());
    file.extend(192u16.to_be_bytes());
    file.extend([0u8; 6]);
    let total = frames as u64 * 192;
    let info: u64 = (44100u64 << 44) | (1u64 << 41) | (15u64 << 36) | total;
    file.extend(info.to_be_bytes());
    file.extend([0u8; 16]);
    for number in 0..frames {
        let mut frame = vec![0xFF, 0xF8, 0x19, 0x18, number];
        frame.push(crc8(&frame));
        for value in [left, right] {
            frame.push(0);
            frame.extend(value.to_be_bytes());
        }
        let sum = crc16(&frame);
        frame.extend(sum.to_be_bytes());
        file.extend(frame);
    }
    file
}

#[test]
fn decoder_reads_flac_samples() {
    let track = SymphoniaDecoder::decode_frames(&flac_file(4, 1000, -2000)).unwrap();
    assert_eq!(track.rate, 44100);
    assert_eq!(track.runs.len(), 1);
    let stereo = &track.runs[0].stereo;
    assert_eq!(stereo.len(), 4 * 192 * 2);
    for pair in stereo.chunks(2) {
        assert_eq!(pair, [1000, -2000]);
    }
}

/// Bits as text, padded to whole bytes.
fn bytes_of(bits: &str) -> Vec<u8> {
    let mut padded = bits.replace(' ', "");
    while padded.len() % 8 != 0 {
        padded.push('0');
    }
    (0..padded.len() / 8)
        .map(|i| u8::from_str_radix(&padded[i * 8..i * 8 + 8], 2).unwrap())
        .collect()
}

/// The stream information: blocks of up to 192 samples of 16 bits.
fn flac_setup(channels: u64) -> Vec<u8> {
    let mut setup = Vec::new();
    setup.extend(192u16.to_be_bytes());
    setup.extend(192u16.to_be_bytes());
    setup.extend([0u8; 6]);
    let info: u64 = (44100u64 << 44) | ((channels - 1) << 41) | (15u64 << 36) | 192;
    setup.extend(info.to_be_bytes());
    setup.extend([0u8; 16]);
    setup
}

/// A frame with this header behind its sync code and these subframes.
fn flac_frame(header: &[u8], subframes: &str) -> Vec<u8> {
    let mut frame = vec![0xFF, 0xF8];
    frame.extend(header);
    frame.push(crc8(&frame));
    frame.extend(bytes_of(subframes));
    let sum = crc16(&frame);
    frame.extend(sum.to_be_bytes());
    frame
}

fn flac_of(channels: u64, frame: &[u8]) -> Vec<u8> {
    let mut file = b"fLaC".to_vec();
    file.extend([0x80, 0, 0, 34]);
    file.extend(flac_setup(channels));
    file.extend(frame);
    file
}

/// A subframe of 192 samples of 1000 behind a fixed predictor of order 1.
fn fixed_subframe() -> String {
    format!("0 001001 0 {:016b} 00 0000 0000 {}", 1000, "1".repeat(191))
}

#[test]
fn predicted_frames_fit_and_are_decoded() {
    let linear = format!(
        "0 100000 0 {:016b} 0001 00000 01 00 0001 0000 {} 0000 {}",
        1000,
        "1".repeat(95),
        "1".repeat(96)
    );
    for subframe in [fixed_subframe(), linear] {
        let frame = flac_frame(&[0x19, 0x08, 0], &subframe);
        assert!(frame_fits(&flac_setup(1), &frame));
        let track = SymphoniaDecoder::decode_frames(&flac_of(1, &frame)).unwrap();
        assert_eq!(track.runs[0].stereo, vec![1000; 384]);
    }
    // Three bits of every sample are dropped.
    let dropped = format!("0 000001 1 001 {}", format!("{:013b}", 125).repeat(192));
    let frame = flac_frame(&[0x19, 0x08, 0], &dropped);
    assert!(frame_fits(&flac_setup(1), &frame));
    let track = SymphoniaDecoder::decode_frames(&flac_of(1, &frame)).unwrap();
    assert_eq!(track.runs[0].stereo, vec![1000; 384]);
}

#[test]
fn frames_of_every_fixed_predictor_fit_and_are_decoded() {
    let triangle = |i: i32| (i * (i - 1) / 2) as i16;
    let cases: [(usize, Vec<i16>); 5] = [
        (0, vec![0; 192]),
        (1, vec![-7; 192]),
        (2, (0..192).map(|i| 3 * i - 100).collect()),
        (3, (0..192).map(triangle).collect()),
        (4, (0..192).map(|i| triangle(i) - i as i16).collect()),
    ];
    for (order, samples) in cases {
        let first: String =
            samples[..order].iter().map(|n| format!("{:016b}", *n as u16)).collect();
        let subframe =
            format!("0 {:06b} 0 {first} 00 0000 0000 {}", 8 + order, "1".repeat(192 - order));
        let frame = flac_frame(&[0x19, 0x08, 0], &subframe);
        assert!(frame_fits(&flac_setup(1), &frame), "{order}");
        let track = SymphoniaDecoder::decode_frames(&flac_of(1, &frame)).unwrap();
        let stereo: Vec<i16> = samples.iter().flat_map(|n| [*n, *n]).collect();
        assert_eq!(track.runs[0].stereo, stereo, "{order}");
    }
}

#[test]
fn frames_that_contradict_their_stream_do_not_fit() {
    let constant = "0 000000 0 0000001111101000";
    let twice = format!("{constant} {constant}");
    // Two channels in a stream of one, side by side or as a difference.
    for assignment in [0x18, 0x88, 0x98, 0xA8] {
        let frame = flac_frame(&[0x19, assignment, 0], &twice);
        assert!(!frame_fits(&flac_setup(1), &frame), "{assignment}");
    }
    assert!(frame_fits(&flac_setup(2), &flac_frame(&[0x19, 0x18, 0], &twice)));
    // A block of 256 samples where 192 are the most.
    assert!(!frame_fits(&flac_setup(1), &flac_frame(&[0x89, 0x08, 0], constant)));
    // A predictor of order 4 over a block of 2 samples.
    let order = format!("0 001100 0 {}", "0".repeat(200));
    assert!(!frame_fits(&flac_setup(1), &flac_frame(&[0x69, 0x08, 0, 1], &order)));
    // 17 of 16 bits are dropped.
    let dropped = format!("0 000000 1 {}1 {}", "0".repeat(16), "0".repeat(64));
    assert!(!frame_fits(&flac_setup(1), &flac_frame(&[0x19, 0x08, 0], &dropped)));
    // What cannot be read is left to the decoder.
    assert!(frame_fits(&flac_setup(1), &[]));
    assert!(frame_fits(&flac_setup(1), &flac_frame(&[0x19, 0x08, 0], "0 111111 0")));
    assert!(!frame_fits(&[0; 13], &[]));
}

/// A subframe of 192 samples behind a fixed predictor of order 1, the first
/// residuals of which are the largest of 31 bits.
fn rising_subframe(count: usize) -> String {
    let high = format!("0{}", "1".repeat(30)).repeat(count);
    let zeros = "0".repeat(31 * (191 - count));
    format!("0 001001 0 {} 00 0000 1111 11111 {high} {zeros}", "0".repeat(16))
}

#[test]
fn frames_whose_samples_leave_32_bits_do_not_fit() {
    let header = [0x19, 0x08, 0];
    assert!(frame_fits(&flac_setup(1), &flac_frame(&header, &rising_subframe(2))));
    assert!(!frame_fits(&flac_setup(1), &flac_frame(&header, &rising_subframe(3))));
    // The right channel is the left one without a difference of -10 or 10.
    let difference = |n: i32| format!("0 000000 0 {:017b}", n & 0x1FFFF);
    let left = |n: i32| format!("{} {}", rising_subframe(2), difference(n));
    assert!(frame_fits(&flac_setup(2), &flac_frame(&[0x19, 0x88, 0], &left(10))));
    assert!(!frame_fits(&flac_setup(2), &flac_frame(&[0x19, 0x88, 0], &left(-10))));
    // The left channel is the right one with a difference.
    let right = |n: i32| format!("0 000000 0 {:017b} {}", n & 0x1FFFF, rising_subframe(2));
    assert!(frame_fits(&flac_setup(2), &flac_frame(&[0x19, 0x98, 0], &right(-10))));
    assert!(!frame_fits(&flac_setup(2), &flac_frame(&[0x19, 0x98, 0], &right(10))));
    // The mean of the channels and their difference.
    let half = format!("0 000001 0 {}", "0111111111111111".repeat(192));
    let mean = format!("{half} {}", difference(0xFFFF));
    assert!(frame_fits(&flac_setup(2), &flac_frame(&[0x19, 0xA8, 0], &mean)));
    let one = format!("0{}", "1".repeat(30));
    let risen = format!(
        "0 001001 0 {} 00 0000 1111 11111 {one} {}",
        "0".repeat(16),
        "0".repeat(31 * 190)
    );
    let mean = format!("{risen} {}", difference(0x7FFF));
    assert!(!frame_fits(&flac_setup(2), &flac_frame(&[0x19, 0xA8, 0], &mean)));
}

#[test]
fn frames_whose_samples_leave_32_bits_are_passed_over() {
    let mut frames = flac_frame(&[0x19, 0x08, 0], &rising_subframe(3));
    frames.extend(flac_frame(&[0x19, 0x08, 1], "0 000000 0 0000001111101000"));
    let track = SymphoniaDecoder::decode_frames(&flac_of(1, &frames)).unwrap();
    assert_eq!(track.runs[0].stereo, vec![1000; 384]);
}

/// The first bytes of a frame header that a file could end with: zeros would
/// complete the header, and the last two bytes are the checksum of the others.
fn cut_header() -> Vec<u8> {
    for codes in 0x10..=0xFEu8 {
        for layout in 0..0xB0u8 {
            let mut header = vec![0xFF, 0xF8, codes, layout];
            header.extend(crc16(&header).to_be_bytes());
            let number = (0xC0..0xE0).contains(&header[4]);
            let plain = codes / 16 != 6 && codes / 16 != 7 && codes % 16 < 12;
            let known = layout % 2 == 0 && layout / 2 % 8 != 3 && layout / 2 % 8 != 7;
            if number && plain && known && crc8(&header) == 0 {
                return header;
            }
        }
    }
    panic!("no such header");
}

#[test]
fn files_with_a_header_that_is_cut_off_are_refused() {
    let mut file = flac_file(4, 1000, -2000);
    assert!(file_is_whole(&file));
    let header = cut_header();
    file.extend(&header);
    assert!(!file_is_whole(&file));
    assert_eq!(
        SymphoniaDecoder::decode_frames(&file).unwrap_err().message(),
        "MP3 packet read failed: a frame header is cut off"
    );
    // It is no longer at the end of the file, or no checksum ends the file.
    file.extend([0; 20]);
    assert!(file_is_whole(&file));
    let mut file = flac_file(4, 1000, -2000);
    file.extend(&header[..5]);
    assert!(file_is_whole(&file));
    // What is left of the header only spoils the last frame.
    assert_eq!(SymphoniaDecoder::decode_frames(&file).unwrap().runs[0].stereo.len(), 3 * 192 * 2);
}

#[test]
fn headers_within_headers_are_refused() {
    let mut inner = vec![0xFF, 0xF8, 0x19, 0x08, 0];
    inner.push(crc8(&inner));
    let mut file = vec![0xFF, 0xF8, 0x19, 0x08, 0xFE];
    file.extend(&inner);
    file.push(crc8(&file));
    assert!(!file_is_whole(&file));
    // Behind the outer header the inner one is a header of its own.
    let mut file = inner.clone();
    file.extend(&inner);
    assert!(file_is_whole(&file));
    assert!(file_is_whole(&[]));
}

#[test]
fn frames_that_contradict_their_stream_are_passed_over() {
    let constant = "0 000000 0 0000001111101000";
    let dropped = format!("0 000000 1 {}1 {}", "0".repeat(16), "0".repeat(64));
    let mut frames = Vec::new();
    for number in 0..30 {
        frames.extend(flac_frame(&[0x19, 0x08, number], &dropped));
    }
    assert_eq!(
        SymphoniaDecoder::decode_frames(&flac_of(1, &frames)).unwrap_err().message(),
        "MP3 contained no audio frames"
    );
    // One good frame among them is heard.
    frames.extend(flac_frame(&[0x19, 0x08, 30], constant));
    let track = SymphoniaDecoder::decode_frames(&flac_of(1, &frames)).unwrap();
    assert_eq!(track.runs[0].stereo, vec![1000; 384]);
}

#[test]
fn push_stereo_frame_maps_channel_layouts() {
    let mut out = Vec::new();
    push_stereo_frame(&[7, 8, 9], 1, &mut out);
    assert_eq!(out, vec![7, 7, 8, 8, 9, 9]);
    let mut out = Vec::new();
    push_stereo_frame(&[1, 2, 3, 4], 2, &mut out);
    assert_eq!(out, vec![1, 2, 3, 4]);
    // Surround keeps L/R of each frame, drops the rest.
    let mut out = Vec::new();
    push_stereo_frame(&[1, 2, 3, 4, 5, 6], 3, &mut out);
    assert_eq!(out, vec![1, 2, 4, 5]);
}

#[test]
fn packets_join_runs_of_one_rate() {
    let packet = |rate: u32, samples: Vec<i16>| DecodedPacket { rate, channels: 1, samples };
    let track = add_packet(None, packet(44100, vec![1]));
    let track = add_packet(Some(track), packet(44100, vec![2]));
    let track = add_packet(Some(track), packet(22050, vec![3]));
    let total: usize = track.runs.iter().map(|r| r.stereo.len()).sum();
    assert_eq!(total, 6);
    assert_eq!(track.runs[0].stereo[..2], [1, 1]);
}

fn fault(kind: FaultKind) -> MediaFault {
    MediaFault { kind, text: "boom".to_string() }
}

fn raw(track: u32) -> RawPacket {
    RawPacket { track, ts: 0, dur: 1152, trim_start: 0, trim_end: 0, data: vec![1, 2] }
}

fn failure_of(step: ReadStep) -> String {
    match step {
        ReadStep::Fail(failure) => failure.message(),
        other => panic!("no failure: {other:?}"),
    }
}

#[test]
fn packets_of_other_tracks_are_skipped() {
    assert_eq!(on_read(Ok(raw(3)), 3), ReadStep::Decode(raw(3)));
    assert_eq!(on_read(Ok(raw(4)), 3), ReadStep::Skip);
}

#[test]
fn faults_end_or_pass() {
    assert_eq!(on_read(Err(fault(FaultKind::Io)), 0), ReadStep::End);
    assert_eq!(
        failure_of(on_read(Err(fault(FaultKind::Reset)), 0)),
        "MP3 track list changed mid-stream"
    );
    assert_eq!(
        failure_of(on_read(Err(fault(FaultKind::Damaged)), 0)),
        "MP3 packet read failed: boom"
    );
    assert_eq!(
        failure_of(on_read(Err(fault(FaultKind::Other)), 0)),
        "MP3 packet read failed: boom"
    );
    let packet = DecodedPacket { rate: 44100, channels: 2, samples: vec![5, 6] };
    let track = on_audio(None, Ok(packet)).unwrap();
    assert_eq!(track.as_ref().unwrap().runs[0].stereo, vec![5, 6]);
    let track = on_audio(track, Err(fault(FaultKind::Damaged))).unwrap();
    assert_eq!(track.as_ref().unwrap().rate, 44100);
    assert_eq!(on_end(track).unwrap().runs.len(), 1);
    assert!(on_audio(None, Err(fault(FaultKind::Damaged))).unwrap().is_none());
    assert_eq!(
        on_audio(None, Err(fault(FaultKind::Other))).unwrap_err().message(),
        "MP3 decode failed: boom"
    );
    assert_eq!(on_end(None).unwrap_err().message(), "MP3 contained no audio frames");
    assert_eq!(DecodeFailure::NoTrack.message(), "MP3 has no default audio track");
    assert_eq!(
        DecodeFailure::UnsupportedCodec.message(),
        "unsupported MP3 codec parameters"
    );
    assert_eq!(
        DecodeFailure::Probe("x".to_string()).message(),
        "MP3 probe failed: x"
    );
}

#[test]
fn resampling_counts_frames() {
    assert_eq!(resampled_frames(4, 22050, 44100), 8);
    assert_eq!(resampled_frames(4, 44100, 22050), 2);
    assert_eq!(resampled_frames(4, 44100, 44100), 4);
    assert_eq!(resample_neighbours(0, 22050, 44100, 4), (0, 1));
    assert_eq!(resample_neighbours(1, 22050, 44100, 4), (0, 1));
    assert_eq!(resample_neighbours(7, 22050, 44100, 4), (3, 3));
}

#[test]
fn wav_header_describes_stereo_16bit_pcm() {
    let header = wav_header(176400, 44100);
    assert_eq!(header.len(), 44);
    assert_eq!(&header[0..4], b"RIFF");
    assert_eq!(&header[8..12], b"WAVE");
    assert_eq!(&header[12..16], b"fmt ");
    assert_eq!(u16::from_le_bytes([header[20], header[21]]), 1, "PCM format");
    assert_eq!(u16::from_le_bytes([header[22], header[23]]), 2, "channels");
    assert_eq!(
        u32::from_le_bytes([header[24], header[25], header[26], header[27]]),
        44100,
        "sample rate"
    );
    assert_eq!(&header[36..40], b"data");
    assert_eq!(
        u32::from_le_bytes([header[40], header[41], header[42], header[43]]),
        176400,
        "data length"
    );
}

#[test]
fn samples_are_written_little_endian() {
    assert_eq!(s16_bytes(&[1, -2]), vec![1, 0, 0xFE, 0xFF]);
}

#[test]
fn lame_encoder_validates_bitrate_before_spawning() {
    assert!(LameEncoder::new(128).is_ok());
    assert!(LameEncoder::new(8).is_ok());
    assert!(LameEncoder::new(320).is_ok());
    assert!(LameEncoder::new(0).is_err());
    assert!(LameEncoder::new(7).is_err());
    assert!(LameEncoder::new(321).is_err());
    assert_eq!(LameEncoder::new(96).unwrap().bitrate_kbps(), 96);
    assert_eq!(LameEncoder::new(96).unwrap().name(), "lame");
}

#[test]
fn lame_is_called_with_its_bitrate() {
    assert_eq!(
        LameEncoder::new(96).unwrap().arguments(),
        vec!["--silent", "-b", "96", "-", "-"]
    );
    assert_eq!(
        LameEncoder::new(7).unwrap_err(),
        "LAME bitrate must be between 8 and 320 kbps, got 7"
    );
}

#[test]
fn lame_is_fed_wav_and_judged() {
    let encoder = LameEncoder::new(128).unwrap();
    assert_eq!(encoder.input(&[]).unwrap_err(), "cannot encode empty PCM buffer");
    let wav = encoder.input(&[1, -1]).unwrap();
    assert_eq!(wav.len(), 48);
    assert_eq!(wav[..4], *b"RIFF");
    assert_eq!(wav[44..], [1, 0, 255, 255]);
    assert_eq!(
        encoder.judge(false, "exit status: 1", " bad input\n", vec![1]).unwrap_err(),
        "lame failed (exit status: 1): bad input"
    );
    assert_eq!(
        encoder.judge(true, "exit status: 0", "", Vec::new()).unwrap_err(),
        "lame produced no MP3 output"
    );
    assert_eq!(encoder.judge(true, "exit status: 0", "noise", vec![7]), Ok(vec![7]));
}
