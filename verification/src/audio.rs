//! The PCM bus: decoding, crossfade geometry and the encoder's input.

use vstd::prelude::*;

use crate::flac;
use crate::real32;
use crate::real32::Real32;
use crate::tags;
use crate::text;

verus! {

/// Sample rate of the bus in Hz.
pub const BUS_RATE: u32 = 44100;

/// Channels of the bus.
pub const BUS_CHANNELS: u8 = 2;

/// Longest crossfade in seconds, as a bit pattern.
pub const MAX_CROSSFADE_SECS: u32 = 0x41f0_0000;

/// Fade curve of an overlap.
#[derive(Debug, Clone, Copy, PartialEq, Eq, Structural)]
pub enum CrossfadeCurve {
    /// Constant power.
    EqualPower,
    /// Straight lines.
    Linear,
}

impl Default for CrossfadeCurve {
    fn default() -> (r: CrossfadeCurve)
        ensures
            r == CrossfadeCurve::EqualPower,
    {
        CrossfadeCurve::EqualPower
    }
}

/// How long the end of a track overlaps the start of the next.
#[derive(Debug, Clone, Copy, PartialEq, Eq, Structural)]
pub struct CrossfadeConfig {
    /// Length of the overlap in seconds; 0 is a hard cut.
    pub duration_secs: Real32,
    /// Fade curve of the overlap.
    pub curve: CrossfadeCurve,
}

impl Default for CrossfadeConfig {
    fn default() -> (r: CrossfadeConfig)
        ensures
            r == (CrossfadeConfig {
                duration_secs: Real32 { bits: 0 },
                curve: CrossfadeCurve::EqualPower,
            }),
            r.wf(),
    {
        CrossfadeConfig { duration_secs: Real32 { bits: 0 }, curve: CrossfadeCurve::EqualPower }
    }
}

impl CrossfadeConfig {
    /// The length lies between 0 and the longest crossfade.
    pub open spec fn wf(self) -> bool {
        self.duration_secs.within(0, 0x41f0_0000)
    }

    /// Builds a configuration: what is not a number, or below 0, is no
    /// crossfade, and what is too long is cut to the longest.
    pub fn new(duration_secs: Real32, curve: CrossfadeCurve) -> (r: CrossfadeConfig)
        ensures
            r.wf(),
            r.curve == curve,
            r.duration_secs == (if duration_secs.nan() || duration_secs.place() < 0 {
                (Real32 { bits: 0 })
            } else if duration_secs.place() > real32::place_of(0x41f0_0000) {
                (Real32 { bits: 0x41f0_0000 })
            } else {
                duration_secs
            }),
    {
        let duration_secs = if duration_secs.is_nan() {
            Real32 { bits: 0 }
        } else {
            duration_secs.clamp_to(real32::ZERO, MAX_CROSSFADE_SECS)
        };
        CrossfadeConfig { duration_secs, curve }
    }

    /// A hard cut.
    pub fn disabled() -> (r: CrossfadeConfig)
        ensures
            r == (CrossfadeConfig {
                duration_secs: Real32 { bits: 0 },
                curve: CrossfadeCurve::EqualPower,
            }),
            r.wf(),
    {
        CrossfadeConfig::default()
    }

    /// Whether an overlap is rendered.
    pub open spec fn enabled(self) -> bool {
        !self.duration_secs.nan() && self.duration_secs.place() > 0
    }

    /// Whether an overlap is rendered.
    pub fn is_enabled(&self) -> (r: bool)
        ensures
            r == self.enabled(),
    {
        self.duration_secs.is_positive()
    }

    /// The length of the overlap in stereo frames at the bus rate.
    pub fn overlap_frames(&self) -> (r: u64)
        requires
            self.wf(),
        ensures
            r == self.duration_secs.frames_cut(),
    {
        self.duration_secs.to_frames_cut()
    }
}

/// Where a track is cut for the crossfade, in stereo frames.
#[derive(Debug, Clone, Copy, PartialEq, Eq, Structural)]
pub struct OverlapPlan {
    /// Frames mixed with the end of the track before.
    pub overlap: usize,
    /// Frames held back for the track behind.
    pub hold: usize,
}

/// The smaller of two numbers.
pub open spec fn lesser(a: int, b: int) -> int {
    if a < b {
        a
    } else {
        b
    }
}

/// The frames that overlap with the track before: never the whole track.
pub open spec fn overlap_of(prev: nat, own: nat, wanted: nat) -> nat {
    if own == 0 {
        0
    } else {
        lesser(lesser(wanted as int, prev as int), own - 1) as nat
    }
}

/// The frames that are held back: never more than the overlap leaves.
pub open spec fn hold_of(prev: nat, own: nat, wanted: nat) -> nat {
    lesser(wanted as int, own - overlap_of(prev, own, wanted)) as nat
}

/// Plans the cuts of a track of `own` frames behind a held end of `prev`.
pub fn plan_overlap(prev: usize, own: usize, wanted: usize) -> (r: OverlapPlan)
    ensures
        r.overlap == overlap_of(prev as nat, own as nat, wanted as nat),
        r.hold == hold_of(prev as nat, own as nat, wanted as nat),
        r.overlap + r.hold <= own,
        r.overlap <= prev,
{
    if own == 0 {
        return OverlapPlan { overlap: 0, hold: 0 };
    }
    let mut overlap: usize = wanted;
    if prev < overlap {
        overlap = prev;
    }
    if own - 1 < overlap {
        overlap = own - 1;
    }
    let rest: usize = own - overlap;
    let hold: usize = if wanted < rest {
        wanted
    } else {
        rest
    };
    OverlapPlan { overlap, hold }
}

/// The pieces of a track for the crossfade, as interleaved stereo samples.
pub struct OverlapParts<T> {
    /// The end of the track before, to be mixed with `head`.
    pub fading_out: Vec<T>,
    /// The start of the track, to be mixed with `fading_out`.
    pub head: Vec<T>,
    /// What plays unmixed.
    pub body: Vec<T>,
    /// The end of the track, held back for the one behind.
    pub new_tail: Vec<T>,
}

/// Cuts a track for the crossfade behind the held end of the track before.
pub fn render_track_overlap<T>(prev_tail: Vec<T>, pcm: Vec<T>, overlap_frames: usize) -> (r:
    OverlapParts<T>)
    ensures
        ({
            let prev = prev_tail@.len() / 2;
            let own = pcm@.len() / 2;
            let overlap = overlap_of(prev, own, overlap_frames as nat);
            let hold = hold_of(prev, own, overlap_frames as nat);
            if own == 0 {
                r.fading_out@.len() == 0 && r.head@.len() == 0 && r.body@.len() == 0
                    && r.new_tail@.len() == 0
            } else {
                &&& r.fading_out@ == prev_tail@.skip(prev_tail@.len() - 2 * overlap)
                &&& r.head@ == pcm@.take(2 * overlap as int)
                &&& r.body@ == pcm@.subrange(2 * overlap as int, pcm@.len() - 2 * hold)
                &&& r.new_tail@ == pcm@.skip(pcm@.len() - 2 * hold)
            }
        }),
        r.fading_out@.len() == r.head@.len(),
{
    let ghost all = pcm@;
    let ghost before = prev_tail@;
    let plan = plan_overlap(prev_tail.len() / 2, pcm.len() / 2, overlap_frames);
    if pcm.len() / 2 == 0 {
        return OverlapParts {
            fading_out: Vec::new(),
            head: Vec::new(),
            body: Vec::new(),
            new_tail: Vec::new(),
        };
    }
    let mut prev_tail = prev_tail;
    let cut: usize = prev_tail.len() - 2 * plan.overlap;
    let fading_out = prev_tail.split_off(cut);
    let mut head = pcm;
    let end: usize = head.len() - 2 * plan.hold;
    let new_tail = head.split_off(end);
    let body = head.split_off(2 * plan.overlap);
    proof {
        assert(fading_out@ =~= before.skip(cut as int));
        assert(new_tail@ =~= all.skip(end as int));
        assert(head@ =~= all.take(2 * plan.overlap as int));
        assert(body@ =~= all.subrange(2 * plan.overlap as int, end as int));
    }
    OverlapParts { fading_out, head, body, new_tail }
}

/// The crossfade loses no frame and plays none twice: what a track adds to the
/// stream and what it holds back are together what it has, and a held end is
/// never longer than what was asked for. A track that is not empty holds back
/// at least one frame wherever a crossfade is asked for.
pub proof fn crossfade_conserves_frames(prev: nat, own: nat, wanted: nat)
    ensures
        overlap_of(prev, own, wanted) + hold_of(prev, own, wanted) <= own,
        overlap_of(prev, own, wanted) <= prev,
        overlap_of(prev, own, wanted) <= wanted,
        hold_of(prev, own, wanted) <= wanted,
        own > 0 && wanted > 0 ==> hold_of(prev, own, wanted) > 0,
        own > 0 ==> overlap_of(prev, own, wanted) < own,
        wanted == 0 ==> overlap_of(prev, own, wanted) == 0 && hold_of(prev, own, wanted) == 0,
{
}

/// Each mono sample on both channels.
pub open spec fn doubled(mono: Seq<i16>) -> Seq<i16> {
    Seq::new(2 * mono.len(), |j: int| mono[j / 2])
}

/// The frames that a run of interleaved samples holds left and right of.
pub open spec fn pair_count(len: nat, channels: nat) -> nat {
    len / channels + (if len % channels >= 2 {
        1nat
    } else {
        0nat
    })
}

/// Interleaved samples as stereo: mono is doubled, stereo stays, and of more
/// channels the first two of each frame are kept.
pub open spec fn as_stereo(interleaved: Seq<i16>, channels: nat) -> Seq<i16> {
    if channels <= 1 {
        doubled(interleaved)
    } else if channels == 2 {
        interleaved
    } else {
        Seq::new(
            2 * pair_count(interleaved.len(), channels),
            |j: int| interleaved[(j / 2) * channels + j % 2],
        )
    }
}

/// Adds each mono sample on both channels.
pub fn upmix_mono_to_stereo(mono: &[i16], out: &mut Vec<i16>)
    ensures
        final(out)@ == old(out)@ + doubled(mono@),
{
    let ghost before = out@;
    let mut i: usize = 0;
    proof {
        assert(out@ =~= before + doubled(mono@).take(0));
    }
    while i < mono.len()
        invariant
            i <= mono@.len(),
            out@ == before + doubled(mono@).take(2 * i as int),
        decreases mono@.len() - i,
    {
        out.push(mono[i]);
        out.push(mono[i]);
        i = i + 1;
        proof {
            assert(out@ =~= before + doubled(mono@).take(2 * i as int));
        }
    }
    proof {
        assert(doubled(mono@).take(2 * i as int) =~= doubled(mono@));
    }
}

/// Adds interleaved samples of any number of channels as stereo.
pub fn push_stereo_frame(interleaved: &[i16], channels: usize, out: &mut Vec<i16>)
    ensures
        final(out)@ == old(out)@ + as_stereo(interleaved@, channels as nat),
{
    if channels <= 1 {
        upmix_mono_to_stereo(interleaved, out);
    } else if channels == 2 {
        let ghost before = out@;
        out.extend_from_slice(interleaved);
        proof {
            assert(out@ =~= before + interleaved@);
        }
    } else {
        let ghost before = out@;
        let ghost wanted = as_stereo(interleaved@, channels as nat);
        let len: usize = interleaved.len();
        let mut from: usize = 0;
        let mut frame: usize = 0;
        proof {
            assert(out@ =~= before + wanted.take(0));
        }
        while len - from >= 2
            invariant
                channels >= 3,
                len == interleaved@.len(),
                from <= len,
                wanted == as_stereo(interleaved@, channels as nat),
                from == frame * channels || (from == len && frame == pair_count(
                    len as nat,
                    channels as nat,
                )),
                frame <= pair_count(len as nat, channels as nat),
                out@ == before + wanted.take(2 * frame as int),
            decreases len - from,
        {
            proof {
                lemma_frame_in_count(len as nat, channels as nat, frame as nat);
                assert(from == frame * channels);
                assert(frame <= from) by (nonlinear_arith)
                    requires
                        from == frame * channels,
                        channels >= 3,
                ;
            }
            out.push(interleaved[from]);
            out.push(interleaved[from + 1]);
            proof {
                let f = frame as int;
                assert((2 * f) / 2 == f && (2 * f) % 2 == 0);
                assert((2 * f + 1) / 2 == f && (2 * f + 1) % 2 == 1);
                assert(wanted[2 * f] == interleaved@[f * channels + 0]);
                assert(wanted[2 * f + 1] == interleaved@[f * channels + 1]);
                assert(out@ =~= before + wanted.take(2 * (f + 1)));
                lemma_next_frame(len as nat, channels as nat, frame as nat);
            }
            frame = frame + 1;
            if len - from > channels {
                from = from + channels;
            } else {
                from = len;
            }
        }
        proof {
            lemma_frames_done(len as nat, channels as nat, frame as nat, from as nat);
            assert(wanted.take(2 * frame as int) =~= wanted);
        }
    }
}

/// A frame whose first two samples are there is counted.
proof fn lemma_frame_in_count(len: nat, channels: nat, frame: nat)
    requires
        channels >= 3,
        frame * channels + 2 <= len || frame == pair_count(len, channels),
    ensures
        frame * channels + 2 <= len ==> frame < pair_count(len, channels),
{
    if frame * channels + 2 <= len {
        let q = len / channels;
        let r = len % channels;
        assert(len == q * channels + r) by (nonlinear_arith)
            requires
                q == len / channels,
                r == len % channels,
                channels > 0,
        ;
        if frame >= q + 1 {
            assert(frame * channels >= (q + 1) * channels) by (nonlinear_arith)
                requires
                    frame >= q + 1,
                    channels > 0,
            ;
            assert((q + 1) * channels == q * channels + channels) by (nonlinear_arith);
            assert(r < channels) by (nonlinear_arith)
                requires
                    r == len % channels,
                    channels > 0,
            ;
        }
        if frame == q {
            assert(r >= 2);
        }
    }
}

/// After a frame the next one starts `channels` samples on, if it is there.
proof fn lemma_next_frame(len: nat, channels: nat, frame: nat)
    requires
        channels >= 3,
        frame * channels + 2 <= len,
    ensures
        frame < pair_count(len, channels),
        (frame + 1) * channels == frame * channels + channels,
        len - frame * channels <= channels ==> frame + 1 == pair_count(len, channels),
{
    lemma_frame_in_count(len, channels, frame);
    assert((frame + 1) * channels == frame * channels + channels) by (nonlinear_arith);
    if len - frame * channels <= channels {
        let q = len / channels;
        let r = len % channels;
        assert(len == q * channels + r) by (nonlinear_arith)
            requires
                q == len / channels,
                r == len % channels,
                channels > 0,
        ;
        assert(r < channels) by (nonlinear_arith)
            requires
                r == len % channels,
                channels > 0,
        ;
        if q > frame + 1 {
            assert(q * channels >= (frame + 2) * channels) by (nonlinear_arith)
                requires
                    q >= frame + 2,
                    channels > 0,
            ;
            assert((frame + 2) * channels == frame * channels + 2 * channels) by (nonlinear_arith);
        }
        if q == frame + 1 {
            assert(r == 0);
        }
        if q < frame {
            assert(q * channels + channels <= frame * channels) by (nonlinear_arith)
                requires
                    q + 1 <= frame,
                    channels > 0,
            ;
        }
    }
}

/// With fewer than two samples left, all frames are counted.
proof fn lemma_frames_done(len: nat, channels: nat, frame: nat, from: nat)
    requires
        channels >= 3,
        from <= len,
        len - from < 2,
        frame <= pair_count(len, channels),
        from == frame * channels || (from == len && frame == pair_count(len, channels)),
    ensures
        frame == pair_count(len, channels),
{
    if from == frame * channels {
        let q = len / channels;
        let r = len % channels;
        assert(len == q * channels + r) by (nonlinear_arith)
            requires
                q == len / channels,
                r == len % channels,
                channels > 0,
        ;
        assert(r < channels) by (nonlinear_arith)
            requires
                r == len % channels,
                channels > 0,
        ;
        if frame < q {
            assert(q * channels >= frame * channels + channels) by (nonlinear_arith)
                requires
                    frame + 1 <= q,
                    channels > 0,
            ;
        }
        if frame > q {
            assert(frame * channels >= q * channels + channels) by (nonlinear_arith)
                requires
                    q + 1 <= frame,
                    channels > 0,
            ;
        }
    }
}

#[verifier::external_type_specification]
#[verifier::external_body]
pub struct ExProbeResult(symphonia::core::probe::ProbeResult);

#[verifier::external_type_specification]
#[verifier::external_body]
pub struct ExMpaDecoder(symphonia::default::codecs::MpaDecoder);

#[verifier::external_type_specification]
#[verifier::external_body]
pub struct ExFlacDecoder(symphonia::default::codecs::FlacDecoder);

/// The decoder of the one audio track that is played.
enum TrackDecoder {
    Mpa(symphonia::default::codecs::MpaDecoder),
    /// With the stream information that it was set up with.
    Flac(symphonia::default::codecs::FlacDecoder, Vec<u8>),
}

/// A packet of encoded audio.
#[derive(Debug, PartialEq)]
pub struct RawPacket {
    /// The track that it belongs to.
    pub track: u32,
    /// When it plays, in units of its track.
    pub ts: u64,
    /// How long it plays, in units of its track.
    pub dur: u64,
    /// Frames to drop at its start.
    pub trim_start: u32,
    /// Frames to drop at its end.
    pub trim_end: u32,
    pub data: Vec<u8>,
}

/// The audio of one decoded packet: interleaved samples of all channels.
#[derive(Debug, PartialEq)]
pub struct DecodedPacket {
    pub rate: u32,
    pub channels: usize,
    pub samples: Vec<i16>,
}

/// What kind of fault it is.
#[derive(Debug, Clone, Copy, PartialEq, Eq, Structural)]
pub enum FaultKind {
    /// The input ended or could not be read on.
    Io,
    /// The data is damaged.
    Damaged,
    /// The list of tracks changed.
    Reset,
    /// Anything else.
    Other,
}

/// What went wrong while reading or decoding.
#[derive(Debug, PartialEq)]
pub struct MediaFault {
    pub kind: FaultKind,
    /// The fault in words.
    pub text: String,
}

/// What a track is encoded with.
#[derive(Debug, Clone, Copy, PartialEq, Eq, Structural)]
pub enum MediaCodec {
    Mp3,
    Flac,
    Other,
}

/// What a reader gives: a packet, of which the track and the rest are told
/// apart, or a fault.
pub enum ReadModel {
    Packet(u32, Seq<u64>, Seq<u8>),
    Fault(FaultKind, Seq<char>),
}

/// A read packet, or a fault, without its representation.
pub open spec fn read_model(answer: Result<RawPacket, MediaFault>) -> ReadModel {
    match answer {
        Ok(p) => ReadModel::Packet(
            p.track,
            seq![p.ts, p.dur, p.trim_start as u64, p.trim_end as u64],
            p.data@,
        ),
        Err(f) => ReadModel::Fault(f.kind, f.text@),
    }
}

/// What a decoder makes of a packet: audio, with its rate, its channels and its
/// samples, or a fault.
pub enum SoundModel {
    Audio(u32, nat, Seq<i16>),
    Fault(FaultKind, Seq<char>),
}

/// Whether decoded audio can be that of an MPEG frame.
pub open spec fn is_mpeg_sound(answer: Result<DecodedPacket, MediaFault>) -> bool {
    answer matches Ok(p) ==> (p.channels == 1 || p.channels == 2) && p.samples@.len()
        % p.channels as nat == 0 && p.samples@.len() <= 1152 * p.channels
}

/// What is known of the audio that a decoder makes of a packet without its
/// samples: its rate, its channels and how many samples there are; or a fault.
pub enum ShapeModel {
    Audio(u32, nat, nat),
    Fault(FaultKind, Seq<char>),
}

/// The shape of decoded audio, or a fault.
pub open spec fn shape_of(answer: Result<DecodedPacket, MediaFault>) -> ShapeModel {
    match answer {
        Ok(p) => ShapeModel::Audio(p.rate, p.channels as nat, p.samples@.len()),
        Err(f) => ShapeModel::Fault(f.kind, f.text@),
    }
}

/// Decoded audio, or a fault, without its representation.
pub open spec fn sound_model(answer: Result<DecodedPacket, MediaFault>) -> SoundModel {
    match answer {
        Ok(p) => SoundModel::Audio(p.rate, p.channels as nat, p.samples@),
        Err(f) => SoundModel::Fault(f.kind, f.text@),
    }
}

/// What probing finds in some bytes: the ID, the codec and the stream
/// information of the first track, and what the reader then gives up to its
/// first fault; or a fault, in words.
pub enum ProbeModel {
    Reader(Option<u32>, MediaCodec, Seq<u8>, Seq<ReadModel>),
    Fault(Seq<char>),
}

/// What probing finds in some bytes.
pub uninterp spec fn media_probe(bytes: Seq<u8>) -> ProbeModel;

/// What a reader still holds: the packets that it gives, up to its first fault
/// and with it.
pub uninterp spec fn reader_answers(reader: symphonia::core::probe::ProbeResult) -> Seq<ReadModel>;

/// The bytes that a reader was made over.
pub uninterp spec fn reader_source(reader: symphonia::core::probe::ProbeResult) -> Seq<u8>;

/// The ID of the first track of a reader, if there is one.
pub uninterp spec fn reader_track(reader: symphonia::core::probe::ProbeResult) -> Option<u32>;

/// The codec of the first track of a reader.
pub uninterp spec fn reader_codec(reader: symphonia::core::probe::ProbeResult) -> MediaCodec;

/// The stream information of the first track of a reader, empty without any.
pub uninterp spec fn reader_setup(reader: symphonia::core::probe::ProbeResult) -> Seq<u8>;

/// The packets that an MPEG decoder was given.
pub uninterp spec fn mpa_given(decoder: symphonia::default::codecs::MpaDecoder) -> Seq<ReadModel>;

/// The shape of what an MPEG decoder makes of the last of some packets.
pub uninterp spec fn mpa_shape(packets: Seq<ReadModel>) -> ShapeModel;

/// The stream information that a FLAC decoder works with.
pub uninterp spec fn flac_setup(decoder: symphonia::default::codecs::FlacDecoder) -> Seq<u8>;

/// The packets that a FLAC decoder was given.
pub uninterp spec fn flac_given(decoder: symphonia::default::codecs::FlacDecoder) -> Seq<ReadModel>;

/// What a FLAC decoder makes of the last of some packets, with this stream
/// information.
pub uninterp spec fn flac_sound(setup: Seq<u8>, packets: Seq<ReadModel>) -> SoundModel;

/// Whether answers end with their only fault.
pub open spec fn end_in_a_fault(answers: Seq<ReadModel>) -> bool {
    &&& answers.len() > 0
    &&& answers.last() is Fault
    &&& forall|i: int| 0 <= i < answers.len() - 1 ==> (#[trigger] answers[i]) is Packet
}

/// `symphonia::core::probe::Probe::format` of the default probe, with the
/// extension `mp3` as a hint, over a copy of the bytes in memory. The buffer has
/// 128 KiB, so that a reader can go back to the start of any frame that it has
/// found. What it finds depends on the bytes alone. Every packet takes up some of
/// the bytes, so sooner or later the reader gives a fault. A tag that it
/// cannot deal with would make it panic.
#[verifier::external_body]
fn probe_audio(bytes: &[u8]) -> (r: Result<symphonia::core::probe::ProbeResult, String>)
    requires
        tags::can_be_passed(bytes@, 0),
    ensures
        match r {
            Ok(reader) => reader_source(reader) == bytes@ && media_probe(bytes@) == ProbeModel::Reader(
                reader_track(reader),
                reader_codec(reader),
                reader_setup(reader),
                reader_answers(reader),
            ) && end_in_a_fault(reader_answers(reader)),
            Err(text) => media_probe(bytes@) == ProbeModel::Fault(text@),
        },
{
    let source = Box::new(std::io::Cursor::new(bytes.to_vec()));
    let options = symphonia::core::io::MediaSourceStreamOptions { buffer_len: 0x2_0000 };
    let stream = symphonia::core::io::MediaSourceStream::new(source, options);
    let mut hint = symphonia::core::probe::Hint::new();
    hint.with_extension("mp3");
    symphonia::default::get_probe().format(
        &hint,
        stream,
        &symphonia::core::formats::FormatOptions::default(),
        &symphonia::core::meta::MetadataOptions::default(),
    ).map_err(|error| error.to_string())
}

/// `symphonia::core::formats::FormatReader::default_track`: the ID of the first
/// track, if there is one.
#[verifier::external_body]
fn default_track_id(reader: &symphonia::core::probe::ProbeResult) -> (r: Option<u32>)
    ensures
        r == reader_track(*reader),
{
    reader.format.default_track().map(|track| track.id)
}

/// `symphonia::default::codecs::MpaDecoder::try_new` with the parameters of the
/// first track: a fresh decoder, if the track is an MP3 track.
#[verifier::external_body]
fn mpa_decoder(reader: &symphonia::core::probe::ProbeResult) -> (r: Option<
    symphonia::default::codecs::MpaDecoder,
>)
    ensures
        r.is_some() == (reader_track(*reader) is Some && reader_codec(*reader) == MediaCodec::Mp3),
        r matches Some(decoder) ==> mpa_given(decoder).len() == 0,
{
    let track = reader.format.default_track()?;
    let options = symphonia::core::codecs::DecoderOptions::default();
    <symphonia::default::codecs::MpaDecoder as symphonia::core::codecs::Decoder>::try_new(
        &track.codec_params,
        &options,
    ).ok()
}

/// `symphonia::default::codecs::FlacDecoder::try_new` with the parameters of
/// the first track: a fresh decoder and the stream information it works with,
/// if the track is a FLAC track whose stream information it can work with.
#[verifier::external_body]
fn flac_decoder(reader: &symphonia::core::probe::ProbeResult) -> (r: Option<
    (symphonia::default::codecs::FlacDecoder, Vec<u8>),
>)
    ensures
        match r {
            Some((decoder, setup)) => reader_track(*reader) is Some && reader_codec(*reader)
                == MediaCodec::Flac && flac::accepts(reader_setup(*reader)) && setup@
                == reader_setup(*reader) && flac_setup(decoder) == reader_setup(*reader)
                && flac_given(decoder).len() == 0,
            None => !(reader_track(*reader) is Some && reader_codec(*reader) == MediaCodec::Flac
                && flac::accepts(reader_setup(*reader))),
        },
{
    let track = reader.format.default_track()?;
    let setup = track.codec_params.extra_data.as_ref()?.to_vec();
    let options = symphonia::core::codecs::DecoderOptions::default();
    let decoder = <symphonia::default::codecs::FlacDecoder as symphonia::core::codecs::Decoder>::try_new(
        &track.codec_params,
        &options,
    ).ok()?;
    Some((decoder, setup))
}

/// `symphonia::core::formats::FormatReader::next_packet`: takes the next packet
/// from the reader, or tells why there is none. A frame header of a FLAC file
/// that is cut off could make it panic. Nothing is said of a reader that has
/// given a fault.
#[verifier::external_body]
fn next_packet(reader: &mut symphonia::core::probe::ProbeResult) -> (r: Result<RawPacket, MediaFault>)
    requires
        reader_codec(*old(reader)) == MediaCodec::Flac ==> flac::is_whole(
            reader_source(*old(reader)),
        ),
    ensures
        reader_codec(*final(reader)) == reader_codec(*old(reader)),
        reader_source(*final(reader)) == reader_source(*old(reader)),
        reader_answers(*old(reader)).len() > 0 ==> read_model(r) == reader_answers(*old(reader))[0]
            && reader_answers(*final(reader)) == reader_answers(*old(reader)).skip(1),
{
    let p = match reader.format.next_packet() {
        Ok(p) => p,
        Err(error) => {
            let text = error.to_string();
            let kind = match error {
                symphonia::core::errors::Error::IoError(_) => FaultKind::Io,
                symphonia::core::errors::Error::DecodeError(_) => FaultKind::Damaged,
                symphonia::core::errors::Error::ResetRequired => FaultKind::Reset,
                _ => FaultKind::Other,
            };
            return Err(MediaFault { kind, text });
        },
    };
    let (track, ts, dur, trim_start, trim_end) = (p.track_id(), p.ts, p.dur, p.trim_start, p.trim_end);
    Ok(RawPacket { track, ts, dur, trim_start, trim_end, data: p.data.into_vec() })
}

/// `symphonia::default::codecs::MpaDecoder::decode`: the audio of a packet,
/// copied out as interleaved 16-bit samples, or why there is none. An MPEG frame
/// has one or two channels and at most 1152 samples of each. Whether there is
/// audio, its rate, its channels and its length depend on the packets that the
/// decoder was given, the last of them this one, and on nothing else. The
/// samples are computed with the sines and powers of the machine, whose last
/// digits may differ from one machine to the next, and nothing is said of them.
#[verifier::external_body]
fn decode_mpa(decoder: &mut symphonia::default::codecs::MpaDecoder, p: RawPacket) -> (r: Result<
    DecodedPacket,
    MediaFault,
>)
    ensures
        is_mpeg_sound(r),
        mpa_given(*final(decoder)) == mpa_given(*old(decoder)).push(read_model(Ok(p))),
        shape_of(r) == mpa_shape(mpa_given(*old(decoder)).push(read_model(Ok(p)))),
{
    let packet = symphonia::core::formats::Packet::new_trimmed_from_boxed_slice(
        p.track, p.ts, p.dur, p.trim_start, p.trim_end, p.data.into_boxed_slice());
    let decoded = symphonia::core::codecs::Decoder::decode(decoder, &packet).map_err(
        |e| MediaFault { text: e.to_string(), kind: match e {
            symphonia::core::errors::Error::DecodeError(_) => FaultKind::Damaged,
            _ => FaultKind::Other,
        } })?;
    let spec = *decoded.spec();
    let mut buf = symphonia::core::audio::SampleBuffer::<i16>::new(decoded.capacity() as u64, spec);
    buf.copy_interleaved_ref(decoded);
    let samples = buf.samples().to_vec();
    Ok(DecodedPacket { rate: spec.rate, channels: spec.channels.count(), samples })
}

/// `symphonia::default::codecs::FlacDecoder::decode`: the audio of a packet,
/// copied out as interleaved 16-bit samples, or why there is none. It computes
/// with integers; the result depends on the stream information and the packets
/// that the decoder was given, the last of them this one, and on nothing else.
/// Frames that do not fit the stream information would make it panic, and, where
/// it is built with overflow checks, so would frames whose samples leave 32
/// bits.
#[verifier::external_body]
fn decode_flac(decoder: &mut symphonia::default::codecs::FlacDecoder, p: RawPacket) -> (r: Result<
    DecodedPacket,
    MediaFault,
>)
    requires
        flac::fits(flac_setup(*old(decoder)), p.data@),
    ensures
        flac_setup(*final(decoder)) == flac_setup(*old(decoder)),
        flac_given(*final(decoder)) == flac_given(*old(decoder)).push(read_model(Ok(p))),
        sound_model(r) == flac_sound(
            flac_setup(*old(decoder)),
            flac_given(*old(decoder)).push(read_model(Ok(p))),
        ),
{
    let packet = symphonia::core::formats::Packet::new_trimmed_from_boxed_slice(
        p.track, p.ts, p.dur, p.trim_start, p.trim_end, p.data.into_boxed_slice());
    let decoded = symphonia::core::codecs::Decoder::decode(decoder, &packet).map_err(
        |e| MediaFault { text: e.to_string(), kind: match e {
            symphonia::core::errors::Error::DecodeError(_) => FaultKind::Damaged,
            _ => FaultKind::Other,
        } })?;
    let spec = *decoded.spec();
    let mut buf = symphonia::core::audio::SampleBuffer::<i16>::new(decoded.capacity() as u64, spec);
    buf.copy_interleaved_ref(decoded);
    let samples = buf.samples().to_vec();
    Ok(DecodedPacket { rate: spec.rate, channels: spec.channels.count(), samples })
}

/// Stereo audio of one rate.
#[derive(Debug, PartialEq)]
pub struct Run {
    pub rate: u32,
    pub stereo: Vec<i16>,
}

/// A decoded track: runs of stereo audio, and the rate of the first, which is
/// that of the track. A run of another rate is to be resampled to it.
#[derive(Debug, PartialEq)]
pub struct DecodedTrack {
    pub rate: u32,
    pub runs: Vec<Run>,
}

/// Runs without their representation.
pub open spec fn runs_model(runs: Seq<Run>) -> Seq<(u32, Seq<i16>)> {
    runs.map_values(|r: Run| (r.rate, r.stereo@))
}

/// The runs with one more piece of audio: at the track's rate it goes on with a
/// run of that rate, and at another rate it is a run of its own.
pub open spec fn with_audio(
    runs: Seq<(u32, Seq<i16>)>,
    track_rate: u32,
    rate: u32,
    stereo: Seq<i16>,
) -> Seq<(u32, Seq<i16>)> {
    if runs.len() > 0 && rate == track_rate && runs.last().0 == track_rate {
        runs.drop_last().push((track_rate, runs.last().1 + stereo))
    } else {
        runs.push((rate, stereo))
    }
}

/// The rate of the first packet.
pub open spec fn track_rate(packets: Seq<DecodedPacket>) -> u32 {
    packets[0].rate
}

/// The runs that a sequence of decoded packets makes.
pub open spec fn runs_of(packets: Seq<DecodedPacket>) -> Seq<(u32, Seq<i16>)>
    decreases packets.len(),
{
    if packets.len() == 0 {
        seq![]
    } else {
        let packet = packets.last();
        with_audio(
            runs_of(packets.drop_last()),
            track_rate(packets),
            packet.rate,
            as_stereo(packet.samples@, packet.channels as nat),
        )
    }
}

/// Whether a track is what a sequence of decoded packets makes.
pub open spec fn is_track_of(track: DecodedTrack, packets: Seq<DecodedPacket>) -> bool {
    &&& packets.len() > 0
    &&& track.rate == track_rate(packets)
    &&& runs_model(track.runs@) == runs_of(packets)
}

/// The track that one more packet makes of a track: its rate and its runs.
pub open spec fn grown(track: Option<DecodedTrack>, packet: DecodedPacket) -> (
    u32,
    Seq<(u32, Seq<i16>)>,
) {
    let rate = match track {
        Some(t) => t.rate,
        None => packet.rate,
    };
    let runs = match track {
        Some(t) => runs_model(t.runs@),
        None => Seq::empty(),
    };
    (rate, with_audio(runs, rate, packet.rate, as_stereo(packet.samples@, packet.channels as nat)))
}

/// Takes in one more decoded packet.
pub fn add_packet(track: Option<DecodedTrack>, packet: DecodedPacket) -> (r: DecodedTrack)
    ensures
        (r.rate, runs_model(r.runs@)) == grown(track, packet),
{
    let mut stereo: Vec<i16> = Vec::new();
    push_stereo_frame(packet.samples.as_slice(), packet.channels, &mut stereo);
    let ghost piece = as_stereo(packet.samples@, packet.channels as nat);
    proof {
        assert(stereo@ =~= piece);
    }
    let mut runs: Vec<Run> = Vec::new();
    let mut rate: u32 = packet.rate;
    proof {
        assert(runs_model(runs@) =~= Seq::empty());
    }
    if let Some(t) = track {
        rate = t.rate;
        runs = t.runs;
    }
    let ghost old_runs = runs_model(runs@);
    let count: usize = runs.len();
    if count > 0 && packet.rate == rate && runs[count - 1].rate == rate {
        let last = runs.pop();
        match last {
            Some(run) => {
                let mut joined = run.stereo;
                joined.append(&mut stereo);
                runs.push(Run { rate, stereo: joined });
            },
            None => {},
        }
    } else {
        runs.push(Run { rate: packet.rate, stereo });
    }
    proof {
        assert(runs_model(runs@) =~= with_audio(old_runs, rate, packet.rate, piece));
    }
    DecodedTrack { rate, runs }
}

/// A track that grows by one packet is what the packets make with that one
/// behind them.
proof fn lemma_grown_track(
    before: Option<DecodedTrack>,
    packets: Seq<DecodedPacket>,
    packet: DecodedPacket,
    after: DecodedTrack,
)
    requires
        match before {
            Some(t) => is_track_of(t, packets),
            None => packets.len() == 0,
        },
        (after.rate, runs_model(after.runs@)) == grown(before, packet),
    ensures
        is_track_of(after, packets.push(packet)),
{
    let all = packets.push(packet);
    assert(all.drop_last() =~= packets);
    assert(all.last() == packet);
    match before {
        Some(t) => {
            assert(all[0] == packets[0]);
        },
        None => {
            assert(runs_of(packets) =~= Seq::empty());
        },
    }
}

/// Why a track could not be decoded.
#[derive(Debug, PartialEq)]
pub enum DecodeFailure {
    Empty,
    Probe(String),
    NoTrack,
    UnsupportedCodec,
    TracksChanged,
    Packet(String),
    Decode(String),
    NoAudio,
}

impl DecodeFailure {
    /// The failure in words.
    pub open spec fn words(self) -> Seq<char> {
        match self {
            DecodeFailure::Empty => "cannot decode empty MP3 input"@,
            DecodeFailure::Probe(e) => "MP3 probe failed: "@ + e@,
            DecodeFailure::NoTrack => "MP3 has no default audio track"@,
            DecodeFailure::UnsupportedCodec => "unsupported MP3 codec parameters"@,
            DecodeFailure::TracksChanged => "MP3 track list changed mid-stream"@,
            DecodeFailure::Packet(e) => "MP3 packet read failed: "@ + e@,
            DecodeFailure::Decode(e) => "MP3 decode failed: "@ + e@,
            DecodeFailure::NoAudio => "MP3 contained no audio frames"@,
        }
    }

    /// The failure in words.
    pub fn message(&self) -> (r: String)
        ensures
            r@ == self.words(),
    {
        match self {
            DecodeFailure::Empty => "cannot decode empty MP3 input".to_owned(),
            DecodeFailure::Probe(e) => {
                let mut s = "MP3 probe failed: ".to_owned();
                s.append(e.as_str());
                s
            },
            DecodeFailure::NoTrack => "MP3 has no default audio track".to_owned(),
            DecodeFailure::UnsupportedCodec => "unsupported MP3 codec parameters".to_owned(),
            DecodeFailure::TracksChanged => "MP3 track list changed mid-stream".to_owned(),
            DecodeFailure::Packet(e) => {
                let mut s = "MP3 packet read failed: ".to_owned();
                s.append(e.as_str());
                s
            },
            DecodeFailure::Decode(e) => {
                let mut s = "MP3 decode failed: ".to_owned();
                s.append(e.as_str());
                s
            },
            DecodeFailure::NoAudio => "MP3 contained no audio frames".to_owned(),
        }
    }
}

/// What to do with what a reader gave.
#[derive(Debug, PartialEq)]
pub enum ReadStep {
    /// Decode this packet.
    Decode(RawPacket),
    /// Pass the packet over: it is of another track.
    Skip,
    /// The track is complete.
    End,
    /// The track cannot be decoded.
    Fail(DecodeFailure),
}

/// Judges what a reader gave: packets of the track are decoded, the end of the
/// input ends the track, and everything else fails it.
pub fn on_read(answer: Result<RawPacket, MediaFault>, track_id: u32) -> (r: ReadStep)
    ensures
        r == (match answer {
            Ok(packet) => if packet.track == track_id {
                ReadStep::Decode(packet)
            } else {
                ReadStep::Skip
            },
            Err(fault) => match fault.kind {
                FaultKind::Io => ReadStep::End,
                FaultKind::Reset => ReadStep::Fail(DecodeFailure::TracksChanged),
                _ => ReadStep::Fail(DecodeFailure::Packet(fault.text)),
            },
        }),
{
    match answer {
        Ok(packet) => {
            if packet.track == track_id {
                ReadStep::Decode(packet)
            } else {
                ReadStep::Skip
            }
        },
        Err(fault) => match fault.kind {
            FaultKind::Io => ReadStep::End,
            FaultKind::Reset => ReadStep::Fail(DecodeFailure::TracksChanged),
            _ => ReadStep::Fail(DecodeFailure::Packet(fault.text)),
        },
    }
}

/// Judges what a decoder gave: audio goes to the track, a damaged packet is
/// passed over, and everything else fails the track.
pub fn on_audio(track: Option<DecodedTrack>, answer: Result<DecodedPacket, MediaFault>) -> (r: Result<
    Option<DecodedTrack>,
    DecodeFailure,
>)
    ensures
        match answer {
            Ok(packet) => r matches Ok(Some(t)) && (t.rate, runs_model(t.runs@)) == grown(
                track,
                packet,
            ),
            Err(fault) => r == (if fault.kind == FaultKind::Damaged {
                Ok::<Option<DecodedTrack>, DecodeFailure>(track)
            } else {
                Err(DecodeFailure::Decode(fault.text))
            }),
        },
{
    match answer {
        Ok(packet) => Ok(Some(add_packet(track, packet))),
        Err(fault) => {
            if fault.kind == FaultKind::Damaged {
                Ok(track)
            } else {
                Err(DecodeFailure::Decode(fault.text))
            }
        },
    }
}

/// Judges the end of the input: a track without any audio is a failure.
pub fn on_end(track: Option<DecodedTrack>) -> (r: Result<DecodedTrack, DecodeFailure>)
    ensures
        r == (match track {
            Some(t) => Ok(t),
            None => Err(DecodeFailure::NoAudio),
        }),
{
    match track {
        Some(t) => Ok(t),
        None => Err(DecodeFailure::NoAudio),
    }
}

/// How decoding ends: with the audio of these packets, or with a failure, in
/// words; or it has not come to an end.
pub enum Ending {
    Audio(Seq<DecodedPacket>),
    Failure(Seq<char>),
    Unfinished,
}

/// How decoding ends where a reader gives these answers, and the decoder these
/// to the packets of the track, behind the audio of `packets`.
pub open spec fn ending(
    answers: Seq<ReadModel>,
    track_id: u32,
    audio: Seq<Result<DecodedPacket, MediaFault>>,
    packets: Seq<DecodedPacket>,
) -> Ending
    decreases answers.len(),
{
    if answers.len() == 0 {
        Ending::Unfinished
    } else {
        match answers[0] {
            ReadModel::Fault(FaultKind::Io, _) => Ending::Audio(packets),
            ReadModel::Fault(FaultKind::Reset, _) => Ending::Failure(
                DecodeFailure::TracksChanged.words(),
            ),
            ReadModel::Fault(_, text) => Ending::Failure("MP3 packet read failed: "@ + text),
            ReadModel::Packet(id, _, _) => if id != track_id {
                ending(answers.skip(1), track_id, audio, packets)
            } else if audio.len() == 0 {
                Ending::Unfinished
            } else {
                match audio[0] {
                    Ok(packet) => ending(
                        answers.skip(1),
                        track_id,
                        audio.skip(1),
                        packets.push(packet),
                    ),
                    Err(fault) => if fault.kind == FaultKind::Damaged {
                        ending(answers.skip(1), track_id, audio.skip(1), packets)
                    } else {
                        Ending::Failure("MP3 decode failed: "@ + fault.text@)
                    },
                }
            },
        }
    }
}

/// Whether a result is what decoding ends with.
pub open spec fn is_ending(r: Result<DecodedTrack, DecodeFailure>, end: Ending) -> bool {
    match end {
        Ending::Audio(packets) => if packets.len() == 0 {
            r == Err::<DecodedTrack, DecodeFailure>(DecodeFailure::NoAudio)
        } else {
            r matches Ok(track) && is_track_of(track, packets)
        },
        Ending::Failure(words) => r matches Err(failure) && failure.words() == words,
        Ending::Unfinished => false,
    }
}

/// Whether a result is what these answers of a reader and of a decoder lead to.
pub open spec fn comes_of(
    r: Result<DecodedTrack, DecodeFailure>,
    answers: Seq<ReadModel>,
    track_id: u32,
    audio: Seq<Result<DecodedPacket, MediaFault>>,
) -> bool {
    is_ending(r, ending(answers, track_id, audio, Seq::empty()))
}

/// The packets of a track among what a reader gives.
pub open spec fn own_packets(answers: Seq<ReadModel>, track_id: u32) -> Seq<ReadModel>
    decreases answers.len(),
{
    if answers.len() == 0 {
        seq![]
    } else {
        let rest = own_packets(answers.skip(1), track_id);
        match answers[0] {
            ReadModel::Packet(id, _, _) => if id == track_id {
                seq![answers[0]] + rest
            } else {
                rest
            },
            ReadModel::Fault(_, _) => rest,
        }
    }
}

/// The packets among some that a FLAC decoder is given: those that fit the
/// stream information.
pub open spec fn fitting(setup: Seq<u8>, packets: Seq<ReadModel>) -> Seq<ReadModel>
    decreases packets.len(),
{
    if packets.len() == 0 {
        seq![]
    } else {
        let before = fitting(setup, packets.drop_last());
        match packets.last() {
            ReadModel::Packet(_, _, data) => if flac::fits(setup, data) {
                before.push(packets.last())
            } else {
                before
            },
            ReadModel::Fault(_, _) => before,
        }
    }
}

/// What comes of the last of some FLAC packets: what the decoder makes of it,
/// or, where it does not fit the stream information, a damaged packet.
pub open spec fn heard(setup: Seq<u8>, packets: Seq<ReadModel>) -> SoundModel {
    match packets.last() {
        ReadModel::Packet(_, _, data) => if flac::fits(setup, data) {
            flac_sound(setup, fitting(setup, packets))
        } else {
            SoundModel::Fault(FaultKind::Damaged, "frame does not fit the stream"@)
        },
        ReadModel::Fault(kind, text) => SoundModel::Fault(kind, text),
    }
}

/// Whether answers are what a decoder gives for the first of some packets. Of
/// FLAC packets it is known what that is, and of MP3 packets what shape it has.
pub open spec fn are_sounds_of(
    codec: MediaCodec,
    setup: Seq<u8>,
    packets: Seq<ReadModel>,
    audio: Seq<Result<DecodedPacket, MediaFault>>,
) -> bool {
    &&& audio.len() <= packets.len()
    &&& forall|i: int|
        0 <= i < audio.len() ==> if codec == MediaCodec::Flac {
            sound_model(#[trigger] audio[i]) == heard(setup, packets.take(i + 1))
        } else {
            is_mpeg_sound(audio[i]) && shape_of(audio[i]) == mpa_shape(packets.take(i + 1))
        }
}

/// Whether answers are what a decoder gives for some packets: for all of them,
/// or up to the first that fails the track.
pub open spec fn is_sound_of(
    codec: MediaCodec,
    setup: Seq<u8>,
    packets: Seq<ReadModel>,
    audio: Seq<Result<DecodedPacket, MediaFault>>,
) -> bool {
    &&& are_sounds_of(codec, setup, packets, audio)
    &&& audio.len() == packets.len() || (audio.len() > 0 && (audio.last() matches Err(fault)
        && fault.kind != FaultKind::Damaged))
}

/// Whether a result is what these answers of a reader lead to, with what a
/// decoder makes of the packets.
pub open spec fn can_come_of(
    r: Result<DecodedTrack, DecodeFailure>,
    answers: Seq<ReadModel>,
    track_id: u32,
    codec: MediaCodec,
    setup: Seq<u8>,
) -> bool {
    exists|audio: Seq<Result<DecodedPacket, MediaFault>>|
        #[trigger] comes_of(r, answers, track_id, audio) && is_sound_of(
            codec,
            setup,
            own_packets(answers, track_id),
            audio,
        )
}

proof fn lemma_can_come_of(
    r: Result<DecodedTrack, DecodeFailure>,
    answers: Seq<ReadModel>,
    track_id: u32,
    codec: MediaCodec,
    setup: Seq<u8>,
    audio: Seq<Result<DecodedPacket, MediaFault>>,
)
    requires
        comes_of(r, answers, track_id, audio),
        is_sound_of(codec, setup, own_packets(answers, track_id), audio),
    ensures
        can_come_of(r, answers, track_id, codec, setup),
{
}

/// Whether a track can be decoded: an MP3 track, or a FLAC track whose stream
/// information a decoder takes.
pub open spec fn is_decodable(codec: MediaCodec, setup: Seq<u8>) -> bool {
    codec == MediaCodec::Mp3 || (codec == MediaCodec::Flac && flac::accepts(setup))
}

/// Whether decoding these bytes ends like this: what probing finds decides.
/// Bytes with a tag that cannot be read are not probed, and a FLAC file with a
/// frame header that is cut off is not read.
pub open spec fn is_decoding(bytes: Seq<u8>, r: Result<DecodedTrack, DecodeFailure>) -> bool {
    if !tags::can_be_passed(bytes, 0) {
        r matches Err(DecodeFailure::Probe(e)) && e@ == "the tag cannot be read"@
    } else {
        match media_probe(bytes) {
            ProbeModel::Fault(text) => r matches Err(DecodeFailure::Probe(e)) && e@ == text,
            ProbeModel::Reader(None, _, _, _) => r == Err::<DecodedTrack, DecodeFailure>(
                DecodeFailure::NoTrack,
            ),
            ProbeModel::Reader(Some(id), codec, setup, answers) => if !is_decodable(codec, setup) {
                r == Err::<DecodedTrack, DecodeFailure>(DecodeFailure::UnsupportedCodec)
            } else if codec == MediaCodec::Flac && !flac::is_whole(bytes) {
                r matches Err(DecodeFailure::Packet(e)) && e@ == "a frame header is cut off"@
            } else {
                can_come_of(r, answers, id, codec, setup)
            },
        }
    }
}

impl TrackDecoder {
    /// The codec, the stream information, which MP3 tracks do without, and the
    /// packets given so far.
    spec fn known(self) -> (MediaCodec, Seq<u8>, Seq<ReadModel>) {
        match self {
            TrackDecoder::Mpa(d) => (MediaCodec::Mp3, Seq::empty(), mpa_given(d)),
            TrackDecoder::Flac(d, _) => (MediaCodec::Flac, flac_setup(d), flac_given(d)),
        }
    }

    spec fn wf(self) -> bool {
        self matches TrackDecoder::Flac(d, setup) ==> flac_setup(d) == setup@
    }
}

fn track_decoder(reader: &symphonia::core::probe::ProbeResult) -> (r: Option<TrackDecoder>)
    requires
        reader_track(*reader) is Some,
    ensures
        match r {
            Some(decoder) => {
                &&& decoder.wf()
                &&& is_decodable(reader_codec(*reader), reader_setup(*reader))
                &&& decoder.known().0 == reader_codec(*reader)
                &&& decoder is Flac ==> decoder.known().1 == reader_setup(*reader)
                &&& decoder.known().2 == Seq::<ReadModel>::empty()
            },
            None => !is_decodable(reader_codec(*reader), reader_setup(*reader)),
        },
{
    match mpa_decoder(reader) {
        Some(decoder) => {
            assert(mpa_given(decoder) =~= Seq::empty());
            Some(TrackDecoder::Mpa(decoder))
        },
        None => match flac_decoder(reader) {
            Some((decoder, setup)) => {
                assert(flac_given(decoder) =~= Seq::empty());
                Some(TrackDecoder::Flac(decoder, setup))
            },
            None => None,
        },
    }
}

fn decode_packet(decoder: &mut TrackDecoder, packet: RawPacket) -> (r: Result<
    DecodedPacket,
    MediaFault,
>)
    requires
        old(decoder).wf(),
    ensures
        final(decoder).wf(),
        final(decoder).known().0 == old(decoder).known().0,
        if final(decoder).known().0 == MediaCodec::Flac {
            let setup = old(decoder).known().1;
            let given = old(decoder).known().2;
            let model = read_model(Ok(packet));
            if flac::fits(setup, packet.data@) {
                &&& final(decoder).known() == (MediaCodec::Flac, setup, given.push(model))
                &&& sound_model(r) == flac_sound(setup, given.push(model))
            } else {
                &&& final(decoder).known() == (MediaCodec::Flac, setup, given)
                &&& sound_model(r) == SoundModel::Fault(
                    FaultKind::Damaged,
                    "frame does not fit the stream"@,
                )
            }
        } else {
            let given = old(decoder).known().2.push(read_model(Ok(packet)));
            &&& final(decoder).known().2 == given
            &&& is_mpeg_sound(r)
            &&& shape_of(r) == mpa_shape(given)
        },
{
    match decoder {
        TrackDecoder::Mpa(decoder) => decode_mpa(decoder, packet),
        TrackDecoder::Flac(decoder, setup) => {
            if flac::frame_fits(setup.as_slice(), packet.data.as_slice()) {
                decode_flac(decoder, packet)
            } else {
                Err(
                    MediaFault {
                        kind: FaultKind::Damaged,
                        text: "frame does not fit the stream".to_owned(),
                    },
                )
            }
        },
    }
}

/// Whole-track decoder.
#[derive(Debug, Clone, Copy, PartialEq, Eq, Structural)]
pub struct SymphoniaDecoder;

impl Default for SymphoniaDecoder {
    fn default() -> (r: SymphoniaDecoder)
        ensures
            r == SymphoniaDecoder,
    {
        SymphoniaDecoder
    }
}

impl SymphoniaDecoder {
    /// A decoder, which has no state of its own.
    pub fn new() -> (r: SymphoniaDecoder)
        ensures
            r == SymphoniaDecoder,
    {
        SymphoniaDecoder
    }

    /// The name of the decoder.
    pub fn name(&self) -> (r: &'static str)
        ensures
            r@ == "symphonia"@,
    {
        "symphonia"
    }

    /// Decodes all packets of the first track of `mp3` as stereo. Packets of
    /// other tracks and damaged packets are passed over. What comes out is what
    /// the reader's packets lead to, with what the decoder made of them.
    pub fn decode_frames(mp3: &[u8]) -> (r: Result<DecodedTrack, DecodeFailure>)
        ensures
            mp3@.len() == 0 ==> r == Err::<DecodedTrack, DecodeFailure>(DecodeFailure::Empty),
            mp3@.len() > 0 ==> is_decoding(mp3@, r),
    {
        if mp3.len() == 0 {
            return Err(DecodeFailure::Empty);
        }
        if !tags::tags_can_be_passed(mp3) {
            return Err(DecodeFailure::Probe("the tag cannot be read".to_owned()));
        }
        let mut reader = match probe_audio(mp3) {
            Ok(reader) => reader,
            Err(text) => {
                return Err(DecodeFailure::Probe(text));
            },
        };
        let track_id: u32 = match default_track_id(&reader) {
            Some(id) => id,
            None => {
                return Err(DecodeFailure::NoTrack);
            },
        };
        let mut decoder = match track_decoder(&reader) {
            Some(decoder) => decoder,
            None => {
                return Err(DecodeFailure::UnsupportedCodec);
            },
        };
        if let TrackDecoder::Flac(_, _) = &decoder {
            if !flac::file_is_whole(mp3) {
                return Err(DecodeFailure::Packet("a frame header is cut off".to_owned()));
            }
        }
        let ghost answers = reader_answers(reader);
        let ghost codec = reader_codec(reader);
        let ghost setup = reader_setup(reader);
        let ghost own = own_packets(answers, track_id);
        let ghost mut given: Seq<ReadModel> = Seq::empty();
        let mut track: Option<DecodedTrack> = None;
        let ghost mut packets: Seq<DecodedPacket> = Seq::empty();
        let ghost mut audio: Seq<Result<DecodedPacket, MediaFault>> = Seq::empty();
        proof {
            assert forall|more: Seq<Result<DecodedPacket, MediaFault>>| #[trigger]
                ending(answers, track_id, audio + more, Seq::empty()) == ending(
                    reader_answers(reader),
                    track_id,
                    more,
                    packets,
                ) by {
                assert(audio + more =~= more);
            }
            assert(given + own =~= own);
        }
        loop
            invariant
                mp3@.len() > 0,
                media_probe(mp3@) == ProbeModel::Reader(Some(track_id), codec, setup, answers),
                is_decodable(codec, setup),
                tags::can_be_passed(mp3@, 0),
                codec == MediaCodec::Flac ==> flac::is_whole(mp3@),
                reader_codec(reader) == codec,
                reader_source(reader) == mp3@,
                decoder.wf(),
                decoder.known().0 == codec,
                codec == MediaCodec::Flac ==> decoder.known() == (
                    codec,
                    setup,
                    fitting(setup, given),
                ),
                codec != MediaCodec::Flac ==> decoder.known().2 == given,
                own == own_packets(answers, track_id),
                own == given + own_packets(reader_answers(reader), track_id),
                given.len() == audio.len(),
                are_sounds_of(codec, setup, own, audio),
                end_in_a_fault(reader_answers(reader)),
                match track {
                    Some(t) => is_track_of(t, packets),
                    None => packets.len() == 0,
                },
                forall|more: Seq<Result<DecodedPacket, MediaFault>>| #[trigger]
                    ending(answers, track_id, audio + more, Seq::empty()) == ending(
                        reader_answers(reader),
                        track_id,
                        more,
                        packets,
                    ),
            decreases reader_answers(reader).len(),
        {
            let ghost left = reader_answers(reader);
            let ghost before = audio;
            let ghost track_before = track;
            let answer = next_packet(&mut reader);
            proof {
                assert(read_model(answer) == left[0]);
                assert(audio + Seq::empty() =~= audio);
                assert(ending(answers, track_id, audio + Seq::empty(), Seq::empty()) == ending(
                    left,
                    track_id,
                    Seq::empty(),
                    packets,
                ));
                if left[0] is Fault {
                    assert(left.len() == 1);
                    assert(left.skip(1) =~= Seq::empty());
                    assert(own_packets(left.skip(1), track_id) =~= Seq::empty());
                    assert(own =~= given);
                }
                if left[0] is Packet {
                    assert(left.len() > 1);
                    assert(left.skip(1).last() == left.last());
                    assert forall|i: int| 0 <= i < left.skip(1).len() - 1 implies (
                    #[trigger] left.skip(1)[i]) is Packet by {
                        assert(left[i + 1] is Packet);
                    }
                }
            }
            match on_read(answer, track_id) {
                ReadStep::Fail(failure) => {
                    let r: Result<DecodedTrack, DecodeFailure> = Err(failure);
                    proof {
                        lemma_can_come_of(r, answers, track_id, codec, setup, audio);
                    }
                    return r;
                },
                ReadStep::End => {
                    let r = on_end(track);
                    proof {
                        lemma_can_come_of(r, answers, track_id, codec, setup, audio);
                    }
                    return r;
                },
                ReadStep::Skip => {},
                ReadStep::Decode(packet) => {
                    let decoded = decode_packet(&mut decoder, packet);
                    let ghost sound = decoded;
                    proof {
                        let earlier = given;
                        given = earlier.push(left[0]);
                        audio = before.push(sound);
                        assert(before + seq![sound] =~= audio);
                        assert(seq![sound].skip(1) =~= Seq::empty());
                        assert(ending(answers, track_id, before + seq![sound], Seq::empty())
                            == ending(left, track_id, seq![sound], packets));
                        assert(own =~= given + own_packets(left.skip(1), track_id));
                        assert(own.take(audio.len() as int) =~= given);
                        assert(given.drop_last() =~= earlier);
                        assert forall|i: int| 0 <= i < before.len() implies audio[i]
                            == before[i] by {}
                    }
                    match on_audio(track, decoded) {
                        Ok(grown_track) => {
                            proof {
                                if let Ok(piece) = sound {
                                    lemma_grown_track(track_before, packets, piece, grown_track->0);
                                    packets = packets.push(piece);
                                }
                            }
                            track = grown_track;
                        },
                        Err(failure) => {
                            let r: Result<DecodedTrack, DecodeFailure> = Err(failure);
                            proof {
                                lemma_can_come_of(r, answers, track_id, codec, setup, audio);
                            }
                            return r;
                        },
                    }
                    proof {
                        assert forall|more: Seq<Result<DecodedPacket, MediaFault>>| #[trigger]
                            ending(answers, track_id, audio + more, Seq::empty()) == ending(
                                reader_answers(reader),
                                track_id,
                                more,
                                packets,
                            ) by {
                            assert(audio + more =~= before + (seq![sound] + more));
                            assert((seq![sound] + more).skip(1) =~= more);
                            assert((seq![sound] + more)[0] == sound);
                        }
                    }
                },
            }
        }
    }
}

/// How many frames resampling gives.
pub open spec fn resampled(frames: nat, src_rate: nat, dst_rate: nat) -> nat {
    frames * dst_rate / src_rate
}

/// How many frames resampling from one rate to another gives.
pub fn resampled_frames(frames: usize, src_rate: u32, dst_rate: u32) -> (r: u64)
    requires
        src_rate > 0,
        frames * dst_rate <= u64::MAX,
    ensures
        r == resampled(frames as nat, src_rate as nat, dst_rate as nat),
{
    frames as u64 * dst_rate as u64 / src_rate as u64
}

/// The two input frames that an output frame lies between, the last frame
/// standing in for those behind the end.
pub open spec fn neighbours(i: nat, src_rate: nat, dst_rate: nat, frames: nat) -> (int, int) {
    let at = i * src_rate / dst_rate;
    (lesser(at as int, frames - 1), lesser(at as int + 1, frames - 1))
}

/// The two input frames that an output frame is interpolated from.
pub fn resample_neighbours(i: u64, src_rate: u32, dst_rate: u32, frames: usize) -> (r: (usize, usize))
    requires
        dst_rate > 0,
        frames > 0,
        i * src_rate < u64::MAX,
    ensures
        (r.0 as int, r.1 as int) == neighbours(
            i as nat,
            src_rate as nat,
            dst_rate as nat,
            frames as nat,
        ),
        r.0 < frames,
        r.1 < frames,
{
    let at: u64 = i * src_rate as u64 / dst_rate as u64;
    proof {
        assert(at < u64::MAX) by (nonlinear_arith)
            requires
                at == (i * src_rate) / dst_rate as int,
                dst_rate > 0,
                i * src_rate < u64::MAX,
        ;
    }
    let last: u64 = frames as u64 - 1;
    let a: u64 = if at < last {
        at
    } else {
        last
    };
    let b: u64 = if at + 1 < last {
        at + 1
    } else {
        last
    };
    (a as usize, b as usize)
}

/// Resampling to the same rate keeps the number of frames, and every output
/// frame is made of neighbouring input frames.
pub proof fn resampling_keeps_time(frames: nat, rate: nat, i: nat)
    requires
        rate > 0,
        i < frames,
    ensures
        resampled(frames, rate, rate) == frames,
        neighbours(i, rate, rate, frames).0 == i,
{
    assert(frames * rate / rate == frames) by (nonlinear_arith)
        requires
            rate > 0,
    ;
    assert(i * rate / rate == i) by (nonlinear_arith)
        requires
            rate > 0,
    ;
}

/// Constant-rate MP3 encoder.
#[derive(Debug, Clone, Copy, PartialEq, Eq, Structural)]
pub struct LameEncoder {
    bitrate: u32,
}

/// Lowest bitrate in kbps.
pub const MIN_BITRATE: u32 = 8;

/// Highest bitrate in kbps.
pub const MAX_BITRATE: u32 = 320;

impl LameEncoder {
    /// The bitrate in kbps.
    pub closed spec fn rate(self) -> u32 {
        self.bitrate
    }

    /// An encoder for a bitrate in kbps, which has to lie between the lowest and
    /// the highest that LAME takes.
    pub fn new(bitrate: u32) -> (r: Result<LameEncoder, String>)
        ensures
            match r {
                Ok(encoder) => 8 <= bitrate <= 320 && encoder.rate() == bitrate,
                Err(message) => !(8 <= bitrate <= 320) && message@
                    == "LAME bitrate must be between 8 and 320 kbps, got "@ + text::decimal(
                    bitrate as nat,
                ),
            },
    {
        if bitrate < MIN_BITRATE || bitrate > MAX_BITRATE {
            let mut s = "LAME bitrate must be between 8 and 320 kbps, got ".to_owned();
            s.append(text::decimal_text(bitrate as u64).as_str());
            return Err(s);
        }
        Ok(LameEncoder { bitrate })
    }

    /// The name of the encoder.
    pub fn name(&self) -> (r: &'static str)
        ensures
            r@ == "lame"@,
    {
        "lame"
    }

    /// The bitrate in kbps.
    pub fn bitrate_kbps(&self) -> (r: u32)
        ensures
            r == self.rate(),
    {
        self.bitrate
    }

    /// The arguments that LAME is started with.
    pub fn arguments(&self) -> (r: Vec<String>)
        ensures
            r@.len() == 5,
            r@[0]@ == "--silent"@,
            r@[1]@ == "-b"@,
            r@[2]@ == text::decimal(self.rate() as nat),
            r@[3]@ == "-"@,
            r@[4]@ == "-"@,
    {
        let mut args: Vec<String> = Vec::new();
        args.push("--silent".to_owned());
        args.push("-b".to_owned());
        args.push(text::decimal_text(self.bitrate as u64));
        args.push("-".to_owned());
        args.push("-".to_owned());
        args
    }

    /// What LAME is fed: the samples as a WAV file at the bus rate. There have
    /// to be some.
    pub fn input(&self, samples: &[i16]) -> (r: Result<Vec<u8>, String>)
        requires
            2 * samples@.len() + 36 <= u32::MAX,
        ensures
            if samples@.len() == 0 {
                r matches Err(message) && message@ == "cannot encode empty PCM buffer"@
            } else {
                r matches Ok(wav) && wav@ == wav_header_bytes(2 * samples@.len(), 44100)
                    + all_sample_bytes(samples@)
            },
    {
        if samples.len() == 0 {
            return Err("cannot encode empty PCM buffer".to_owned());
        }
        let mut wav = wav_header(samples.len() * 2, BUS_RATE);
        let mut data = s16_bytes(samples);
        wav.append(&mut data);
        Ok(wav)
    }

    /// Judges a run of LAME by its status, its complaints and its output.
    pub fn judge(&self, success: bool, status: &str, complaints: &str, mp3: Vec<u8>) -> (r: Result<
        Vec<u8>,
        String,
    >)
        ensures
            if !success {
                r matches Err(message) && message@ == "lame failed ("@ + status@ + "): "@
                    + text::trimmed(complaints@)
            } else if mp3@.len() == 0 {
                r matches Err(message) && message@ == "lame produced no MP3 output"@
            } else {
                r == Ok::<Vec<u8>, String>(mp3)
            },
    {
        if !success {
            let mut s = "lame failed (".to_owned();
            s.append(status);
            s.append("): ");
            s.append(text::trim(complaints).as_str());
            return Err(s);
        }
        if mp3.len() == 0 {
            return Err("lame produced no MP3 output".to_owned());
        }
        Ok(mp3)
    }
}

/// Two bytes, the low one first.
pub open spec fn le2(n: nat) -> Seq<u8> {
    seq![(n % 256) as u8, (n / 256 % 256) as u8]
}

/// Four bytes, the lowest first.
pub open spec fn le4(n: nat) -> Seq<u8> {
    seq![
        (n % 256) as u8,
        (n / 256 % 256) as u8,
        (n / 65536 % 256) as u8,
        (n / 16777216 % 256) as u8,
    ]
}

fn push_le2(out: &mut Vec<u8>, n: u16)
    ensures
        final(out)@ == old(out)@ + le2(n as nat),
{
    let ghost before = out@;
    out.push((n % 256) as u8);
    out.push((n / 256 % 256) as u8);
    proof {
        assert(out@ =~= before + le2(n as nat));
    }
}

fn push_le4(out: &mut Vec<u8>, n: u32)
    ensures
        final(out)@ == old(out)@ + le4(n as nat),
{
    let ghost before = out@;
    out.push((n % 256) as u8);
    out.push((n / 256 % 256) as u8);
    out.push((n / 65536 % 256) as u8);
    out.push((n / 16777216 % 256) as u8);
    proof {
        assert(out@ =~= before + le4(n as nat));
    }
}

fn push_tag(out: &mut Vec<u8>, a: u8, b: u8, c: u8, d: u8)
    ensures
        final(out)@ == old(out)@ + seq![a, b, c, d],
{
    let ghost before = out@;
    out.push(a);
    out.push(b);
    out.push(c);
    out.push(d);
    proof {
        assert(out@ =~= before + seq![a, b, c, d]);
    }
}

/// The header of a WAV file with 16-bit stereo PCM.
pub open spec fn wav_header_bytes(data_bytes: nat, sample_rate: nat) -> Seq<u8> {
    seq!['R' as u8, 'I' as u8, 'F' as u8, 'F' as u8] + le4(36 + data_bytes) + seq![
        'W' as u8,
        'A' as u8,
        'V' as u8,
        'E' as u8,
    ] + seq!['f' as u8, 'm' as u8, 't' as u8, ' ' as u8] + le4(16) + le2(1) + le2(2) + le4(
        sample_rate,
    ) + le4(sample_rate * 4) + le2(4) + le2(16) + seq!['d' as u8, 'a' as u8, 't' as u8, 'a' as u8]
        + le4(data_bytes)
}

/// Writes the 44-byte header of a WAV file with 16-bit stereo PCM, of which
/// `data_bytes` bytes follow.
pub fn wav_header(data_bytes: usize, sample_rate: u32) -> (r: Vec<u8>)
    requires
        data_bytes + 36 <= u32::MAX,
        sample_rate * 4 <= u32::MAX,
    ensures
        r@ == wav_header_bytes(data_bytes as nat, sample_rate as nat),
        r@.len() == 44,
{
    let mut header: Vec<u8> = Vec::new();
    push_tag(&mut header, 82, 73, 70, 70);
    push_le4(&mut header, 36 + data_bytes as u32);
    push_tag(&mut header, 87, 65, 86, 69);
    push_tag(&mut header, 102, 109, 116, 32);
    push_le4(&mut header, 16);
    push_le2(&mut header, 1);
    push_le2(&mut header, 2);
    push_le4(&mut header, sample_rate);
    push_le4(&mut header, sample_rate * 4);
    push_le2(&mut header, 4);
    push_le2(&mut header, 16);
    push_tag(&mut header, 100, 97, 116, 97);
    push_le4(&mut header, data_bytes as u32);
    proof {
        assert(header@ =~= wav_header_bytes(data_bytes as nat, sample_rate as nat));
    }
    header
}

/// The two bytes of a signed sample, the low one first.
pub open spec fn sample_bytes(sample: i16) -> Seq<u8> {
    le2(
        (if sample < 0 {
            sample + 65536
        } else {
            sample as int
        }) as nat,
    )
}

/// Samples as bytes, each with its low byte first.
pub open spec fn all_sample_bytes(samples: Seq<i16>) -> Seq<u8> {
    Seq::new(2 * samples.len(), |j: int| sample_bytes(samples[j / 2])[j % 2])
}

/// Samples as bytes, each with its low byte first.
pub fn s16_bytes(samples: &[i16]) -> (r: Vec<u8>)
    ensures
        r@ == all_sample_bytes(samples@),
{
    let ghost wanted = all_sample_bytes(samples@);
    let mut out: Vec<u8> = Vec::new();
    let mut i: usize = 0;
    while i < samples.len()
        invariant
            i <= samples@.len(),
            wanted == all_sample_bytes(samples@),
            out@ == wanted.take(2 * i as int),
        decreases samples@.len() - i,
    {
        let sample: i16 = samples[i];
        let unsigned: u16 = if sample < 0 {
            (sample as i32 + 65536) as u16
        } else {
            sample as u16
        };
        push_le2(&mut out, unsigned);
        i = i + 1;
        proof {
            assert(out@ =~= wanted.take(2 * i as int));
        }
    }
    proof {
        assert(wanted.take(2 * i as int) =~= wanted);
    }
    out
}

/// The overlap is as long as it can be: no length that the request, the held end
/// and the track allow is longer, and one frame of the track is always left.
/// What is held back is as long as it can be as well.
pub proof fn crossfades_are_as_long_as_they_can_be(prev: nat, own: nat, wanted: nat, length: nat)
    requires
        own > 0,
    ensures
        length <= wanted && length <= prev && length < own <==> length <= overlap_of(
            prev,
            own,
            wanted,
        ),
        wanted <= prev && wanted < own ==> overlap_of(prev, own, wanted) == wanted,
        prev <= wanted && prev < own ==> overlap_of(prev, own, wanted) == prev,
        length <= wanted && overlap_of(prev, own, wanted) + length <= own <==> length <= hold_of(
            prev,
            own,
            wanted,
        ),
{
}

/// No frame is lost where two tracks meet: of what the first one held back, all
/// of it is mixed into the second one, as long as that is longer. The second one
/// then plays every frame that it does not hold back itself.
pub proof fn held_frames_are_played_with_the_next_track(
    before: nat,
    first: nat,
    second: nat,
    wanted: nat,
)
    requires
        hold_of(before, first, wanted) < second,
    ensures
        overlap_of(hold_of(before, first, wanted), second, wanted) == hold_of(
            before,
            first,
            wanted,
        ),
        2 * wanted <= second ==> hold_of(hold_of(before, first, wanted), second, wanted) == wanted,
        2 * wanted <= first ==> hold_of(before, first, wanted) == wanted,
{
}

/// The cuts of a track lie behind one another: start, middle and held end are
/// the track again. Where a held end is no longer than the request and shorter
/// than the track, all of it fades out, from its first sample on.
pub proof fn cuts_keep_every_sample<T>(prev_tail: Seq<T>, pcm: Seq<T>, wanted: nat)
    requires
        prev_tail.len() % 2 == 0,
        pcm.len() >= 2,
    ensures
        ({
            let overlap = overlap_of(prev_tail.len() / 2, pcm.len() / 2, wanted);
            let hold = hold_of(prev_tail.len() / 2, pcm.len() / 2, wanted);
            &&& pcm.take(2 * overlap as int) + pcm.subrange(
                2 * overlap as int,
                pcm.len() - 2 * hold,
            ) + pcm.skip(pcm.len() - 2 * hold) == pcm
            &&& prev_tail.len() <= 2 * wanted && prev_tail.len() / 2 < pcm.len() / 2
                ==> prev_tail.skip(prev_tail.len() - 2 * overlap) == prev_tail
        }),
{
    let overlap = overlap_of(prev_tail.len() / 2, pcm.len() / 2, wanted);
    let hold = hold_of(prev_tail.len() / 2, pcm.len() / 2, wanted);
    crossfade_conserves_frames(prev_tail.len() / 2, pcm.len() / 2, wanted);
    assert(pcm.take(2 * overlap as int) + pcm.subrange(2 * overlap as int, pcm.len() - 2 * hold)
        + pcm.skip(pcm.len() - 2 * hold) =~= pcm);
    if prev_tail.len() <= 2 * wanted && prev_tail.len() / 2 < pcm.len() / 2 {
        assert(overlap == prev_tail.len() / 2);
        assert(prev_tail.skip(0) =~= prev_tail);
    }
}

/// Each frame keeps its left and its right sample: mono goes to both sides, and
/// of more channels the first is left and the second is right. There are as many
/// frames as before.
pub proof fn stereo_frames_keep_left_and_right(
    interleaved: Seq<i16>,
    channels: nat,
    frames: nat,
    frame: nat,
)
    requires
        channels > 0,
        interleaved.len() == frames * channels,
        frame < frames,
    ensures
        as_stereo(interleaved, channels).len() == 2 * frames,
        as_stereo(interleaved, channels)[2 * frame as int] == interleaved[(frame * channels) as int],
        as_stereo(interleaved, channels)[2 * frame as int + 1] == interleaved[frame as int * channels + (if channels
            == 1 {
            0int
        } else {
            1int
        })],
{
    let j = 2 * frame as int;
    assert(j / 2 == frame && j % 2 == 0 && (j + 1) / 2 == frame && (j + 1) % 2 == 1);
    assert(frames * channels / channels == frames && (frames * channels) % channels == 0)
        by (nonlinear_arith)
        requires
            channels > 0,
    ;
    if channels == 1 {
        assert(frame * channels == frame && frames * channels == frames) by (nonlinear_arith)
            requires
                channels == 1,
        ;
    } else if channels == 2 {
        assert(frame * channels == 2 * frame && frames * channels == 2 * frames)
            by (nonlinear_arith)
            requires
                channels == 2,
        ;
    } else {
        assert((j / 2) * channels + j % 2 == frame * channels);
        assert(((j + 1) / 2) * channels + (j + 1) % 2 == frame * channels + 1);
    }
}

/// Resampling keeps the time that the frames take: the new number of frames
/// lasts as long at the new rate as the old one at the old rate, but for less
/// than one new frame. Each new frame is made of the old one that plays at its
/// time and of the one behind it, the last one where the track ends.
pub proof fn resampling_keeps_the_duration(
    frames: nat,
    src_rate: nat,
    dst_rate: nat,
    i: nat,
    at: nat,
)
    requires
        src_rate > 0,
        dst_rate > 0,
        frames > 0,
        at * dst_rate <= i * src_rate < (at + 1) * dst_rate,
    ensures
        resampled(frames, src_rate, dst_rate) * src_rate <= frames * dst_rate,
        frames * dst_rate < (resampled(frames, src_rate, dst_rate) + 1) * src_rate,
        neighbours(i, src_rate, dst_rate, frames).0 == (if at < frames {
            at as int
        } else {
            frames - 1
        }),
        neighbours(i, src_rate, dst_rate, frames).1 == (if at + 1 < frames {
            at as int + 1
        } else {
            frames - 1
        }),
{
    let n = frames * dst_rate;
    let q = n / src_rate;
    assert(q * src_rate <= n && n < (q + 1) * src_rate) by (nonlinear_arith)
        requires
            q == n / src_rate,
            src_rate > 0,
    ;
    let m = i * src_rate;
    let p = m / dst_rate;
    assert(p == at) by (nonlinear_arith)
        requires
            p == m / dst_rate,
            dst_rate > 0,
            at * dst_rate <= m < (at + 1) * dst_rate,
    ;
}

/// Every sample of some runs, with the rate that it plays at.
pub open spec fn rated(runs: Seq<(u32, Seq<i16>)>) -> Seq<(u32, i16)>
    decreases runs.len(),
{
    if runs.len() == 0 {
        seq![]
    } else {
        rated(runs.drop_last()) + runs.last().1.map_values(|s: i16| (runs.last().0, s))
    }
}

/// Every sample of some packets as stereo, with the rate that it plays at.
pub open spec fn rated_packets(packets: Seq<DecodedPacket>) -> Seq<(u32, i16)>
    decreases packets.len(),
{
    if packets.len() == 0 {
        seq![]
    } else {
        rated_packets(packets.drop_last()) + as_stereo(
            packets.last().samples@,
            packets.last().channels as nat,
        ).map_values(|s: i16| (packets.last().rate, s))
    }
}

/// A track holds the audio of all of its packets, in their order and each sample
/// at the rate of its packet: nothing is lost, doubled or taken to another rate
/// where the packets of one rate are put together. Its rate is that of its first
/// packet.
pub proof fn decoded_tracks_hold_every_sample(track: DecodedTrack, packets: Seq<DecodedPacket>)
    requires
        is_track_of(track, packets),
    ensures
        rated(runs_model(track.runs@)) == rated_packets(packets),
        track.rate == packets[0].rate,
{
    lemma_runs_hold_every_sample(packets);
}

proof fn lemma_runs_hold_every_sample(packets: Seq<DecodedPacket>)
    ensures
        rated(runs_of(packets)) == rated_packets(packets),
    decreases packets.len(),
{
    if packets.len() > 0 {
        let front = packets.drop_last();
        let packet = packets.last();
        lemma_runs_hold_every_sample(front);
        let runs = runs_of(front);
        let piece = as_stereo(packet.samples@, packet.channels as nat);
        let more = piece.map_values(|s: i16| (packet.rate, s));
        let all = runs_of(packets);
        if runs.len() > 0 && packet.rate == track_rate(packets) && runs.last().0 == track_rate(
            packets,
        ) {
            let last = runs.last();
            let joined = (track_rate(packets), last.1 + piece);
            assert(all == runs.drop_last().push(joined));
            assert(all.drop_last() =~= runs.drop_last());
            assert(all.last() == joined);
            assert((last.1 + piece).map_values(|s: i16| (joined.0, s)) =~= last.1.map_values(
                |s: i16| (last.0, s),
            ) + more);
            assert(rated(all) =~= rated(runs) + more);
        } else {
            assert(all == runs.push((packet.rate, piece)));
            assert(all.drop_last() =~= runs);
            assert(rated(all) =~= rated(runs) + more);
        }
    }
}

/// A stream that is read to its end gives all of its audio: packet by packet, in
/// their order.
pub proof fn whole_streams_are_decoded_completely(
    answers: Seq<ReadModel>,
    track_id: u32,
    audio: Seq<Result<DecodedPacket, MediaFault>>,
    packets: Seq<DecodedPacket>,
    text: Seq<char>,
)
    requires
        answers.len() == audio.len(),
        forall|i: int|
            0 <= i < answers.len() ==> (#[trigger] answers[i]) is Packet && answers[i]->Packet_0
                == track_id,
        forall|i: int| 0 <= i < audio.len() ==> (#[trigger] audio[i]) is Ok,
    ensures
        ending(answers.push(ReadModel::Fault(FaultKind::Io, text)), track_id, audio, packets)
            == Ending::Audio(
            packets + audio.map_values(|a: Result<DecodedPacket, MediaFault>| a->Ok_0),
        ),
    decreases answers.len(),
{
    let all = answers.push(ReadModel::Fault(FaultKind::Io, text));
    let oks = audio.map_values(|a: Result<DecodedPacket, MediaFault>| a->Ok_0);
    if answers.len() == 0 {
        assert(packets + oks =~= packets);
        assert(all[0] == ReadModel::Fault(FaultKind::Io, text));
    } else {
        let rest = answers.skip(1);
        let rest_audio = audio.skip(1);
        assert(all[0] == answers[0]);
        assert(audio[0] is Ok);
        assert(all.skip(1) =~= rest.push(ReadModel::Fault(FaultKind::Io, text)));
        assert forall|i: int| 0 <= i < rest.len() implies (#[trigger] rest[i]) is Packet
            && rest[i]->Packet_0 == track_id by {
            assert(rest[i] == answers[i + 1]);
        }
        assert forall|i: int| 0 <= i < rest_audio.len() implies (#[trigger] rest_audio[i]) is Ok by {
            assert(rest_audio[i] == audio[i + 1]);
        }
        whole_streams_are_decoded_completely(
            rest,
            track_id,
            rest_audio,
            packets.push(audio[0]->Ok_0),
            text,
        );
        assert(packets.push(audio[0]->Ok_0) + rest_audio.map_values(
            |a: Result<DecodedPacket, MediaFault>| a->Ok_0,
        ) =~= packets + oks);
    }
}

/// A packet of another track and a damaged packet are passed over: decoding ends
/// as if they were not there. Every other fault of the decoder fails the track,
/// and so does every fault of the reader but the end of the stream.
pub proof fn bad_packets_are_passed_over(
    answer: ReadModel,
    rest: Seq<ReadModel>,
    track_id: u32,
    fault: MediaFault,
    audio: Seq<Result<DecodedPacket, MediaFault>>,
    packets: Seq<DecodedPacket>,
)
    ensures
        answer is Packet && answer->Packet_0 != track_id ==> ending(
            seq![answer] + rest,
            track_id,
            audio,
            packets,
        ) == ending(rest, track_id, audio, packets),
        answer is Packet && answer->Packet_0 == track_id && fault.kind == FaultKind::Damaged
            ==> ending(
            seq![answer] + rest,
            track_id,
            seq![Err::<DecodedPacket, MediaFault>(fault)] + audio,
            packets,
        ) == ending(rest, track_id, audio, packets),
        answer is Packet && answer->Packet_0 == track_id && fault.kind != FaultKind::Damaged
            ==> ending(
            seq![answer] + rest,
            track_id,
            seq![Err::<DecodedPacket, MediaFault>(fault)] + audio,
            packets,
        ) is Failure,
        answer is Fault && answer->Fault_0 != FaultKind::Io ==> ending(
            seq![answer] + rest,
            track_id,
            audio,
            packets,
        ) is Failure,
{
    let all = seq![answer] + rest;
    let bad: Result<DecodedPacket, MediaFault> = Err(fault);
    let sounds = seq![bad] + audio;
    assert(all[0] == answer);
    assert(all.skip(1) =~= rest);
    assert(sounds[0] == bad);
    assert(sounds.skip(1) =~= audio);
}

/// The number in two bytes, the low one first.
pub open spec fn read2(data: Seq<u8>, at: int) -> int {
    data[at] + 256 * data[at + 1]
}

/// The number in four bytes, the lowest first.
pub open spec fn read4(data: Seq<u8>, at: int) -> int {
    data[at] + 256 * data[at + 1] + 65536 * data[at + 2] + 16777216 * data[at + 3]
}

/// The header of a WAV file reads back as what it was made for: uncompressed
/// 16-bit stereo at the rate, four bytes for each frame, with the sizes of the
/// data and of what follows the first eight bytes.
pub proof fn wav_headers_read_back(data_bytes: nat, sample_rate: nat)
    requires
        36 + data_bytes <= u32::MAX,
        sample_rate * 4 <= u32::MAX,
    ensures
        ({
            let header = wav_header_bytes(data_bytes, sample_rate);
            &&& header.len() == 44
            &&& header.take(4) == seq!['R' as u8, 'I' as u8, 'F' as u8, 'F' as u8]
            &&& read4(header, 4) == 44 + data_bytes - 8
            &&& header.subrange(8, 16) == seq![
                'W' as u8,
                'A' as u8,
                'V' as u8,
                'E' as u8,
                'f' as u8,
                'm' as u8,
                't' as u8,
                ' ' as u8,
            ]
            &&& read4(header, 16) == 16
            &&& read2(header, 20) == 1
            &&& read2(header, 22) == 2
            &&& read4(header, 24) == sample_rate
            &&& read4(header, 28) == 4 * sample_rate
            &&& read2(header, 32) == 4
            &&& read2(header, 34) == 16
            &&& header.subrange(36, 40) == seq!['d' as u8, 'a' as u8, 't' as u8, 'a' as u8]
            &&& read4(header, 40) == data_bytes
        }),
{
    lemma_wav_start(data_bytes, sample_rate);
    lemma_wav_middle(data_bytes, sample_rate);
    lemma_wav_end(data_bytes, sample_rate);
}

#[verifier::spinoff_prover]
proof fn lemma_wav_start(data_bytes: nat, sample_rate: nat)
    requires
        36 + data_bytes <= u32::MAX,
    ensures
        ({
            let header = wav_header_bytes(data_bytes, sample_rate);
            &&& header.len() == 44
            &&& header.take(4) == seq!['R' as u8, 'I' as u8, 'F' as u8, 'F' as u8]
            &&& read4(header, 4) == 36 + data_bytes
            &&& header.subrange(8, 16) == seq![
                'W' as u8,
                'A' as u8,
                'V' as u8,
                'E' as u8,
                'f' as u8,
                'm' as u8,
                't' as u8,
                ' ' as u8,
            ]
            &&& read4(header, 16) == 16
        }),
{
    let header = wav_header_bytes(data_bytes, sample_rate);
    let size = le4(36 + data_bytes);
    lemma_le4(36 + data_bytes);
    lemma_le4(16);
    assert(header[4] == size[0] && header[5] == size[1] && header[6] == size[2] && header[7]
        == size[3]);
    assert(header.take(4) =~= seq!['R' as u8, 'I' as u8, 'F' as u8, 'F' as u8]);
    assert(header.subrange(8, 16) =~= seq![
        'W' as u8,
        'A' as u8,
        'V' as u8,
        'E' as u8,
        'f' as u8,
        'm' as u8,
        't' as u8,
        ' ' as u8,
    ]);
    let fixed = le4(16);
    assert(header[16] == fixed[0] && header[17] == fixed[1] && header[18] == fixed[2] && header[19]
        == fixed[3]);
}

#[verifier::spinoff_prover]
proof fn lemma_wav_middle(data_bytes: nat, sample_rate: nat)
    requires
        sample_rate * 4 <= u32::MAX,
    ensures
        ({
            let header = wav_header_bytes(data_bytes, sample_rate);
            &&& read2(header, 20) == 1
            &&& read2(header, 22) == 2
            &&& read4(header, 24) == sample_rate
            &&& read4(header, 28) == 4 * sample_rate
        }),
{
    let header = wav_header_bytes(data_bytes, sample_rate);
    let rate = le4(sample_rate);
    let bytes = le4(sample_rate * 4);
    lemma_le4(sample_rate);
    lemma_le4(sample_rate * 4);
    assert(header[20] == 1 && header[21] == 0 && header[22] == 2 && header[23] == 0);
    assert(header[24] == rate[0] && header[25] == rate[1] && header[26] == rate[2] && header[27]
        == rate[3]);
    assert(header[28] == bytes[0] && header[29] == bytes[1] && header[30] == bytes[2] && header[31]
        == bytes[3]);
}

#[verifier::spinoff_prover]
proof fn lemma_wav_end(data_bytes: nat, sample_rate: nat)
    requires
        data_bytes <= u32::MAX,
    ensures
        ({
            let header = wav_header_bytes(data_bytes, sample_rate);
            &&& read2(header, 32) == 4
            &&& read2(header, 34) == 16
            &&& header.subrange(36, 40) == seq!['d' as u8, 'a' as u8, 't' as u8, 'a' as u8]
            &&& read4(header, 40) == data_bytes
        }),
{
    let header = wav_header_bytes(data_bytes, sample_rate);
    let size = le4(data_bytes);
    lemma_le4(data_bytes);
    assert(header[32] == 4 && header[33] == 0 && header[34] == 16 && header[35] == 0);
    assert(header.subrange(36, 40) =~= seq!['d' as u8, 'a' as u8, 't' as u8, 'a' as u8]);
    assert(header[40] == size[0] && header[41] == size[1] && header[42] == size[2] && header[43]
        == size[3]);
}

proof fn lemma_le4(n: nat)
    requires
        n <= u32::MAX,
    ensures
        read4(le4(n), 0) == n,
{
}

/// Samples read back from their bytes: two for each, the low one first, as
/// numbers with a sign.
pub proof fn samples_read_back(samples: Seq<i16>, i: int)
    requires
        0 <= i < samples.len(),
    ensures
        all_sample_bytes(samples).len() == 2 * samples.len(),
        samples[i] == (if all_sample_bytes(samples)[2 * i + 1] < 128 {
            read2(all_sample_bytes(samples), 2 * i)
        } else {
            read2(all_sample_bytes(samples), 2 * i) - 65536
        }),
{
    assert((2 * i) / 2 == i && (2 * i) % 2 == 0 && (2 * i + 1) / 2 == i && (2 * i + 1) % 2 == 1);
}

/// Of what a reader gives, the packets of the track are decoded, all of them and
/// in their order, and those of other tracks are not.
pub proof fn own_packets_are_taken_in_order(
    answer: ReadModel,
    rest: Seq<ReadModel>,
    track_id: u32,
)
    ensures
        own_packets(seq![answer] + rest, track_id) == (if answer is Packet && answer->Packet_0
            == track_id {
            seq![answer] + own_packets(rest, track_id)
        } else {
            own_packets(rest, track_id)
        }),
        own_packets(Seq::empty(), track_id).len() == 0,
{
    let all = seq![answer] + rest;
    assert(all[0] == answer);
    assert(all.skip(1) =~= rest);
}

/// Decoding fails where nothing was heard, and otherwise gives the track that its
/// packets make; a failure on the way is the result.
pub proof fn decodings_end_as_their_packets_do(
    r: Result<DecodedTrack, DecodeFailure>,
    packets: Seq<DecodedPacket>,
    words: Seq<char>,
)
    ensures
        is_ending(r, Ending::Audio(packets)) && packets.len() == 0 ==> r == Err::<
            DecodedTrack,
            DecodeFailure,
        >(DecodeFailure::NoAudio),
        is_ending(r, Ending::Audio(packets)) && packets.len() > 0 ==> r is Ok && r->Ok_0.rate
            == packets[0].rate && rated(runs_model(r->Ok_0.runs@)) == rated_packets(packets),
        is_ending(r, Ending::Failure(words)) ==> r is Err,
        !is_ending(r, Ending::Unfinished),
{
    if is_ending(r, Ending::Audio(packets)) && packets.len() > 0 {
        decoded_tracks_hold_every_sample(r->Ok_0, packets);
    }
}

/// MP3 can always be decoded, FLAC where its stream information is taken, and
/// nothing else.
pub proof fn only_mp3_and_flac_are_decoded(setup: Seq<u8>)
    ensures
        is_decodable(MediaCodec::Mp3, setup),
        is_decodable(MediaCodec::Flac, setup) == flac::accepts(setup),
        !is_decodable(MediaCodec::Other, setup),
{
}

/// A crossfade is rendered exactly where it lasts longer than nothing.
pub proof fn crossfades_above_zero_are_rendered(config: CrossfadeConfig)
    ensures
        config.duration_secs.bits == 0 ==> !config.enabled(),
        0 < config.duration_secs.bits <= 0x7f80_0000 ==> config.enabled(),
        config.duration_secs.bits >= 0x8000_0000 ==> !config.enabled(),
{
}

/// One more packet adds its audio behind that of the track, at its own rate, and
/// the rate of the track stays that of its first packet.
pub proof fn packets_add_their_audio(track: DecodedTrack, packet: DecodedPacket)
    ensures
        grown(None, packet) == (
            packet.rate,
            seq![(packet.rate, as_stereo(packet.samples@, packet.channels as nat))],
        ),
        grown(Some(track), packet).0 == track.rate,
        rated(grown(Some(track), packet).1) == rated(runs_model(track.runs@)) + as_stereo(
            packet.samples@,
            packet.channels as nat,
        ).map_values(|s: i16| (packet.rate, s)),
{
    let piece = as_stereo(packet.samples@, packet.channels as nat);
    let first = grown(None, packet).1;
    assert(first =~= seq![(packet.rate, piece)]);
    let runs = runs_model(track.runs@);
    let all = grown(Some(track), packet).1;
    let more = piece.map_values(|s: i16| (packet.rate, s));
    if runs.len() > 0 && packet.rate == track.rate && runs.last().0 == track.rate {
        let last = runs.last();
        let joined = (track.rate, last.1 + piece);
        assert(all.drop_last() =~= runs.drop_last());
        assert(all.last() == joined);
        assert((last.1 + piece).map_values(|s: i16| (joined.0, s)) =~= last.1.map_values(
            |s: i16| (last.0, s),
        ) + more);
        assert(rated(all) =~= rated(runs) + more);
    } else {
        assert(all.drop_last() =~= runs);
        assert(all.last() == (packet.rate, piece));
        assert(rated(all) =~= rated(runs) + more);
    }
}

/// A FLAC packet that does not fit the stream counts as damaged, and the decoder
/// is given all others, in their order.
pub proof fn unfit_packets_count_as_damaged(
    setup: Seq<u8>,
    packets: Seq<ReadModel>,
    id: u32,
    times: Seq<u64>,
    data: Seq<u8>,
)
    ensures
        ({
            let packet = ReadModel::Packet(id, times, data);
            let all = packets.push(packet);
            &&& flac::fits(setup, data) ==> fitting(setup, all) == fitting(setup, packets).push(
                packet,
            ) && heard(setup, all) == flac_sound(setup, fitting(setup, packets).push(packet))
            &&& !flac::fits(setup, data) ==> fitting(setup, all) == fitting(setup, packets) && (
            heard(setup, all) matches SoundModel::Fault(kind, _) && kind == FaultKind::Damaged)
        }),
{
    let packet = ReadModel::Packet(id, times, data);
    assert(packets.push(packet).drop_last() =~= packets);
}

/// Bytes are decoded as probing finds them: a fault of the probe is the failure,
/// bytes without a track have none, and what is neither MP3 nor FLAC is refused.
pub proof fn probing_decides(bytes: Seq<u8>, r: Result<DecodedTrack, DecodeFailure>)
    requires
        is_decoding(bytes, r),
        tags::can_be_passed(bytes, 0),
    ensures
        media_probe(bytes) is Fault ==> (r matches Err(DecodeFailure::Probe(e)) && e@ == media_probe(
            bytes,
        )->Fault_0),
        media_probe(bytes) matches ProbeModel::Reader(None, _, _, _) ==> r == Err::<
            DecodedTrack,
            DecodeFailure,
        >(DecodeFailure::NoTrack),
        media_probe(bytes) matches ProbeModel::Reader(Some(_), codec, _, _) ==> codec
            == MediaCodec::Other ==> r == Err::<DecodedTrack, DecodeFailure>(
            DecodeFailure::UnsupportedCodec,
        ),
{
}

} // verus!
