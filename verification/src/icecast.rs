//! The Icecast source: the pipeline's settings, requests, framing and
//! reconnecting.

use vstd::prelude::*;

use crate::audio;
use crate::audio::CrossfadeConfig;
use crate::cli;
use crate::dsp::{ProcessorChain, Stage, StereoToolConfig};
use crate::json;
use crate::loudness;
use crate::models::TrackFormat;
use crate::real32;
use crate::real32::Real32;
use crate::stereo_lib::StereoLibConfig;
use crate::text;

verus! {

/// Bytes of audio between two metadata blocks.
pub const META_INTERVAL: usize = 16000;

/// Bytes of audio that are sent at once.
pub const CHUNK_SIZE: usize = 32768;

/// Seconds before the next attempt after a connection that lasted.
pub const RECONNECT_DELAY: u64 = 5;

/// Most seconds between two attempts.
pub const MAX_RECONNECT_DELAY: u64 = 300;

/// Tracks that are fetched ahead of the current one.
pub const PREFETCH_AHEAD: usize = 2;

/// Settings of a mount point.
#[derive(Debug, PartialEq)]
pub struct IcecastConfig {
    pub server: String,
    pub mount: String,
    /// Name for basic authentication.
    pub username: String,
    pub password: String,
    /// Whether titles go into the stream as metadata blocks.
    pub metadata: bool,
    pub name: Option<String>,
    pub genre: Option<String>,
    pub url: Option<String>,
    pub public: bool,
    pub playlist: String,
}

/// Settings of the PCM pipeline. Without any of them audio passes through
/// natively.
#[derive(Debug, PartialEq)]
pub struct PipelineConfig {
    /// Overlap between tracks.
    pub crossfade: CrossfadeConfig,
    /// Static gain in decibels.
    pub gain_db: Option<Real32>,
    /// Bitrate of the session in kbps.
    pub bitrate: Option<u32>,
    /// Stereo Tool as a command.
    pub stereo_tool: Option<StereoToolConfig>,
    /// Stereo Tool as a library.
    pub stereo_lib: Option<StereoLibConfig>,
    /// Loudness target in LUFS.
    pub loudness: Option<Real32>,
}

impl Default for PipelineConfig {
    fn default() -> (r: PipelineConfig)
        ensures
            !r.active(),
            r.crossfade.wf(),
            r.gain_db is None,
            r.bitrate is None,
            r.stereo_tool is None,
            r.stereo_lib is None,
            r.loudness is None,
            r.crossfade.duration_secs.bits == 0,
            r.crossfade.curve == audio::CrossfadeCurve::EqualPower,
    {
        PipelineConfig {
            crossfade: CrossfadeConfig::disabled(),
            gain_db: None,
            bitrate: None,
            stereo_tool: None,
            stereo_lib: None,
            loudness: None,
        }
    }
}

/// Whether a bitrate is one that MPEG audio has, in kbps.
pub open spec fn is_mpeg_rate(kbps: int) -> bool {
    kbps == 8 || kbps == 16 || kbps == 24 || kbps == 32 || kbps == 40 || kbps == 48 || kbps == 56
        || kbps == 64 || kbps == 80 || kbps == 96 || kbps == 112 || kbps == 128 || kbps == 144
        || kbps == 160 || kbps == 192 || kbps == 224 || kbps == 256 || kbps == 320
}

/// How far two numbers lie apart.
pub open spec fn distance(a: int, b: int) -> int {
    if a < b {
        b - a
    } else {
        a - b
    }
}

/// Whether `rate` is the MPEG rate nearest to `wanted`, the lower of two that
/// are as near.
pub open spec fn is_nearest_rate(rate: int, wanted: int) -> bool {
    &&& is_mpeg_rate(rate)
    &&& forall|other: int| #[trigger]
        is_mpeg_rate(other) ==> distance(rate, wanted) <= distance(other, wanted) && (distance(
            rate,
            wanted,
        ) == distance(other, wanted) ==> rate <= other)
}

/// The MPEG rate nearest to a bitrate in kbps, the lower of two that are as
/// near.
pub fn nearest_bitrate(kbps: u32) -> (r: u32)
    ensures
        is_nearest_rate(r as int, kbps as int),
{
    if kbps <= 12 {
        8
    } else if kbps <= 20 {
        16
    } else if kbps <= 28 {
        24
    } else if kbps <= 36 {
        32
    } else if kbps <= 44 {
        40
    } else if kbps <= 52 {
        48
    } else if kbps <= 60 {
        56
    } else if kbps <= 72 {
        64
    } else if kbps <= 88 {
        80
    } else if kbps <= 104 {
        96
    } else if kbps <= 120 {
        112
    } else if kbps <= 136 {
        128
    } else if kbps <= 152 {
        144
    } else if kbps <= 176 {
        160
    } else if kbps <= 208 {
        192
    } else if kbps <= 240 {
        224
    } else if kbps <= 288 {
        256
    } else {
        320
    }
}

/// Only one rate is the nearest, and a rate that MPEG audio has is its own.
pub proof fn nearest_rate_is_unique(a: int, b: int, wanted: int)
    requires
        is_nearest_rate(a, wanted),
    ensures
        is_nearest_rate(b, wanted) ==> a == b,
        is_mpeg_rate(wanted) ==> a == wanted,
{
}

/// The bitrate of a format that streams without transcoding, in kbps.
pub open spec fn native_rate(format: TrackFormat) -> Option<u32> {
    match format {
        TrackFormat::Mp3_320 => Some(320),
        TrackFormat::Mp3_128 => Some(128),
        TrackFormat::Flac => None,
    }
}

/// The bitrate of a format that streams without transcoding, in kbps.
pub fn native_bitrate(format: TrackFormat) -> (r: Option<u32>)
    ensures
        r == native_rate(format),
{
    match format {
        TrackFormat::Mp3_320 => Some(320),
        TrackFormat::Mp3_128 => Some(128),
        TrackFormat::Flac => None,
    }
}

/// Whether a gain changes anything.
pub open spec fn gain_counts(gain_db: Option<Real32>) -> bool {
    match gain_db {
        Some(db) => db.place() != 0,
        None => false,
    }
}

impl PipelineConfig {
    /// Whether any stage beyond native passthrough is asked for.
    pub open spec fn active(self) -> bool {
        self.crossfade.enabled() || gain_counts(self.gain_db) || self.bitrate is Some
            || self.stereo_tool is Some || self.stereo_lib is Some || self.loudness is Some
    }

    /// Whether any stage beyond native passthrough is asked for.
    pub fn is_active(&self) -> (r: bool)
        ensures
            r == self.active(),
    {
        let gain = match self.gain_db {
            Some(db) => !db.is_zero(),
            None => false,
        };
        self.crossfade.is_enabled() || gain || self.bitrate.is_some() || self.stereo_tool.is_some()
            || self.stereo_lib.is_some() || self.loudness.is_some()
    }

    /// The stages between the crossfade and the encoder: gain first, then the
    /// Stereo Tool command, then the Stereo Tool library.
    pub fn build_chain(&self) -> (r: ProcessorChain)
        ensures
            r.stages@ == (if gain_counts(self.gain_db) {
                seq![Stage::Gain(self.gain_db->0)]
            } else {
                seq![]
            }) + (match self.stereo_tool {
                Some(config) => seq![Stage::StereoTool(config)],
                None => seq![],
            }) + (match self.stereo_lib {
                Some(config) => seq![Stage::StereoLib(config.reset_per_track)],
                None => seq![],
            }),
    {
        let mut chain = ProcessorChain::new();
        if let Some(db) = self.gain_db {
            if !db.is_zero() {
                chain.push(Stage::Gain(db));
            }
        }
        if let Some(config) = &self.stereo_tool {
            chain.push(Stage::StereoTool(config.copy()));
        }
        if let Some(config) = &self.stereo_lib {
            chain.push(Stage::StereoLib(config.reset_per_track));
        }
        proof {
            assert(chain.stages@ =~= (if gain_counts(self.gain_db) {
                seq![Stage::Gain(self.gain_db->0)]
            } else {
                seq![]
            }) + (match self.stereo_tool {
                Some(config) => seq![Stage::StereoTool(config)],
                None => seq![],
            }) + (match self.stereo_lib {
                Some(config) => seq![Stage::StereoLib(config.reset_per_track)],
                None => seq![],
            }));
        }
        chain
    }

    /// Whether `kbps` is the one bitrate of an active session.
    pub open spec fn is_session_rate(self, format: TrackFormat, kbps: int) -> bool {
        match self.bitrate {
            Some(wanted) => is_nearest_rate(kbps, wanted as int),
            None => match native_rate(format) {
                Some(native) => kbps == native,
                None => kbps == 320,
            },
        }
    }

    /// The one bitrate of an active session: the MPEG rate nearest to the one
    /// asked for, else the native rate of the fetched format, else 320.
    pub fn encode_bitrate(&self, fetch_format: TrackFormat) -> (r: u32)
        ensures
            self.is_session_rate(fetch_format, r as int),
    {
        match self.bitrate {
            Some(wanted) => nearest_bitrate(wanted),
            None => match native_bitrate(fetch_format) {
                Some(native) => native,
                None => 320,
            },
        }
    }
}

/// Why a pipeline cannot run, if it cannot.
pub open spec fn missing_prerequisite(
    pipeline: PipelineConfig,
    binary_exists: bool,
    lib_exists: bool,
    lame_available: bool,
) -> Option<Seq<char>> {
    if pipeline.stereo_tool is Some && !binary_exists {
        Some(
            "stereo-tool binary not found ("@ + pipeline.stereo_tool->0.binary@
                + "); check --stereo-tool"@,
        )
    } else if pipeline.stereo_tool is Some && pipeline.stereo_tool->0.rate != 44100 {
        Some(
            "stereo-tool rate must be 44100 Hz (the bus rate); got "@ + text::decimal(
                pipeline.stereo_tool->0.rate as nat,
            ) + " Hz"@,
        )
    } else if pipeline.stereo_lib is Some && !lib_exists {
        Some(
            "stereo-tool library not found ("@ + pipeline.stereo_lib->0.lib@
                + "); check --stereo-tool-lib"@,
        )
    } else if pipeline.active() && !lame_available {
        Some(
            "the stream pipeline (--crossfade, --gain-db, --bitrate, or --stereo-tool) needs the lame binary; install it (e.g. `apt-get install lame`)"@,
        )
    } else {
        None
    }
}

/// The settings of a stream that are checked before anything else.
#[derive(Debug)]
pub struct StreamOptions {
    /// The source password, from the command line or the environment.
    pub password: Option<String>,
    /// Length of the crossfade in seconds.
    pub crossfade: Real32,
    /// Static gain in decibels.
    pub gain_db: Option<Real32>,
    /// Loudness target in LUFS.
    pub target_lufs: Option<Real32>,
    /// Bitrate of the session in kbps.
    pub bitrate: Option<u32>,
    /// Whether Stereo Tool forgets its state between tracks.
    pub reset_track: bool,
    /// Whether Stereo Tool runs as a library.
    pub has_lib: bool,
}

/// Why the settings of a stream cannot be used, if so: the first fault counts.
pub open spec fn stream_fault(options: StreamOptions) -> Option<Seq<char>> {
    if options.password is None {
        Some(
            "an Icecast source password is required (--password or DEEZCO_ICECAST_PASSWORD)"@,
        )
    } else if !options.crossfade.within(real32::ZERO, audio::MAX_CROSSFADE_SECS) {
        Some("--crossfade must be between 0 and 30 seconds"@)
    } else if options.gain_db matches Some(db) && !db.within(
        real32::MINUS_TWENTY_FOUR,
        real32::TWENTY_FOUR,
    ) {
        Some("--gain-db must be between -24 and +24 dB"@)
    } else if options.target_lufs matches Some(lufs) && !lufs.within(
        loudness::TARGET_MIN_LUFS,
        loudness::TARGET_MAX_LUFS,
    ) {
        Some("--target-lufs must be between -23 and -6 LUFS"@)
    } else if options.bitrate matches Some(rate) && !(8 <= rate <= 320) {
        Some("--bitrate must be between 8 and 320 kbps"@)
    } else if options.reset_track && !options.has_lib {
        Some("--stereo-tool-reset-track requires --stereo-tool-lib"@)
    } else {
        None
    }
}

/// Checks the settings of a stream and hands out the password.
pub fn check_stream_options(options: StreamOptions) -> (r: Result<String, String>)
    ensures
        match stream_fault(options) {
            Some(fault) => r matches Err(message) && message@ == fault,
            None => r == Ok::<String, String>(options.password->0),
        },
{
    let password = match options.password {
        Some(password) => password,
        None => {
            return Err(
                "an Icecast source password is required (--password or DEEZCO_ICECAST_PASSWORD)".to_owned(),
            );
        },
    };
    if !options.crossfade.is_within(real32::ZERO, audio::MAX_CROSSFADE_SECS) {
        return Err("--crossfade must be between 0 and 30 seconds".to_owned());
    }
    if let Some(db) = options.gain_db {
        if !db.is_within(real32::MINUS_TWENTY_FOUR, real32::TWENTY_FOUR) {
            return Err("--gain-db must be between -24 and +24 dB".to_owned());
        }
    }
    if let Some(lufs) = options.target_lufs {
        if !loudness::is_target(lufs) {
            return Err("--target-lufs must be between -23 and -6 LUFS".to_owned());
        }
    }
    if let Some(rate) = options.bitrate {
        if rate < 8 || rate > 320 {
            return Err("--bitrate must be between 8 and 320 kbps".to_owned());
        }
    }
    if options.reset_track && !options.has_lib {
        return Err("--stereo-tool-reset-track requires --stereo-tool-lib".to_owned());
    }
    Ok(password)
}

/// Checks that what a pipeline needs is there. The three facts tell whether the
/// Stereo Tool binary and library exist and whether LAME runs; each counts only
/// where the pipeline needs it.
pub fn check_prerequisites(
    pipeline: &PipelineConfig,
    binary_exists: bool,
    lib_exists: bool,
    lame_available: bool,
) -> (r: Result<(), String>)
    ensures
        match r {
            Ok(_) => missing_prerequisite(
                *pipeline,
                binary_exists,
                lib_exists,
                lame_available,
            ) is None,
            Err(message) => missing_prerequisite(
                *pipeline,
                binary_exists,
                lib_exists,
                lame_available,
            ) == Some(message@),
        },
{
    if let Some(stereo) = &pipeline.stereo_tool {
        if !binary_exists {
            let mut s = "stereo-tool binary not found (".to_owned();
            s.append(stereo.binary.as_str());
            s.append("); check --stereo-tool");
            return Err(s);
        }
        if stereo.rate != audio::BUS_RATE {
            let mut s = "stereo-tool rate must be 44100 Hz (the bus rate); got ".to_owned();
            s.append(text::decimal_text(stereo.rate as u64).as_str());
            s.append(" Hz");
            return Err(s);
        }
    }
    if let Some(stereo) = &pipeline.stereo_lib {
        if !lib_exists {
            let mut s = "stereo-tool library not found (".to_owned();
            s.append(stereo.lib.as_str());
            s.append("); check --stereo-tool-lib");
            return Err(s);
        }
    }
    if pipeline.is_active() && !lame_available {
        return Err(
            "the stream pipeline (--crossfade, --gain-db, --bitrate, or --stereo-tool) needs the lame binary; install it (e.g. `apt-get install lame`)".to_owned(),
        );
    }
    Ok(())
}

/// What a session fetches and sends.
#[derive(Debug, PartialEq)]
pub struct StreamPlan {
    /// The format that tracks are fetched in.
    pub fetch_format: TrackFormat,
    /// The bitrate of the session in kbps, where the pipeline is active.
    pub encode_bps: u32,
}

/// Plans a session: FLAC is fetched as MP3 320 for an active pipeline, and
/// cannot be streamed without one.
pub fn plan_stream(format: TrackFormat, pipeline: &PipelineConfig) -> (r: Result<
    StreamPlan,
    String,
>)
    ensures
        match r {
            Ok(plan) => {
                &&& format != TrackFormat::Flac || pipeline.active()
                &&& plan.fetch_format == (if format == TrackFormat::Flac {
                    TrackFormat::Mp3_320
                } else {
                    format
                })
                &&& pipeline.is_session_rate(plan.fetch_format, plan.encode_bps as int)
            },
            Err(message) => format == TrackFormat::Flac && !pipeline.active() && message@
                == "streaming FLAC to Icecast is not supported; use --quality 320 or 128"@,
        },
{
    if format == TrackFormat::Flac && !pipeline.is_active() {
        return Err(
            "streaming FLAC to Icecast is not supported; use --quality 320 or 128".to_owned(),
        );
    }
    let fetch_format = if format == TrackFormat::Flac {
        TrackFormat::Mp3_320
    } else {
        format
    };
    let encode_bps: u32 = pipeline.encode_bitrate(fetch_format);
    Ok(StreamPlan { fetch_format, encode_bps })
}

/// The seconds between two attempts to connect.
#[derive(Debug, Clone, Copy, PartialEq, Eq, Structural)]
pub struct Backoff {
    delay: u64,
}

/// The delay before the next attempt.
pub open spec fn next_delay(delay: nat, connected: bool) -> nat {
    if connected {
        5
    } else {
        delay
    }
}

/// A delay doubled, up to the most.
pub open spec fn grown(delay: nat) -> nat {
    if 2 * delay < 300 {
        2 * delay
    } else {
        300
    }
}

impl Backoff {
    /// The delay stays between the least and the most.
    pub closed spec fn wf(self) -> bool {
        5 <= self.delay <= 300
    }

    /// The delay before the next attempt, if this one fails.
    pub closed spec fn view(self) -> nat {
        self.delay as nat
    }

    /// A session that has not connected yet.
    pub fn new() -> (r: Backoff)
        ensures
            r.wf(),
            r.view() == 5,
    {
        Backoff { delay: RECONNECT_DELAY }
    }

    /// The seconds to wait after an attempt: from the least on after a
    /// connection that lasted, and twice as long after each that failed.
    pub fn wait_after(&mut self, connected: bool) -> (r: u64)
        requires
            old(self).wf(),
        ensures
            final(self).wf(),
            r == next_delay(old(self).view(), connected),
            5 <= r <= 300,
            final(self).view() == grown(r as nat),
    {
        if connected {
            self.delay = RECONNECT_DELAY;
        }
        let now: u64 = self.delay;
        let doubled: u64 = now * 2;
        self.delay = if doubled < MAX_RECONNECT_DELAY {
            doubled
        } else {
            MAX_RECONNECT_DELAY
        };
        now
    }
}

/// The delay after `failures` failed attempts in a row behind a first one.
pub open spec fn delay_after(failures: nat) -> nat
    decreases failures,
{
    if failures == 0 {
        5
    } else {
        grown(delay_after((failures - 1) as nat))
    }
}

/// Delays never shrink while attempts keep failing, never leave their bounds,
/// and reach the most after six failures.
pub proof fn delays_grow_to_the_most(failures: nat)
    ensures
        5 <= delay_after(failures) <= 300,
        delay_after(failures) <= delay_after(failures + 1),
        failures >= 6 ==> delay_after(failures) == 300,
    decreases failures,
{
    if failures > 0 {
        delays_grow_to_the_most((failures - 1) as nat);
    }
    if failures == 6 {
        reveal_with_fuel(delay_after, 8);
    }
}

/// Whether a byte stands for itself in a URL.
pub open spec fn is_unreserved(b: u8) -> bool {
    ('0' as u8 <= b <= '9' as u8) || ('A' as u8 <= b <= 'Z' as u8) || ('a' as u8 <= b <= 'z' as u8)
        || b == '-' as u8 || b == '_' as u8 || b == '.' as u8 || b == '~' as u8
}

/// The upper-case hexadecimal digit of `n`.
pub open spec fn upper_hex(n: int) -> char {
    if n < 10 {
        (('0' as int) + n) as char
    } else {
        (('A' as int) + n - 10) as char
    }
}

/// What stands for a byte in a URL.
pub open spec fn percent_byte(b: u8) -> Seq<char> {
    if is_unreserved(b) {
        seq![b as char]
    } else {
        seq!['%', upper_hex(b as int / 16), upper_hex(b as int % 16)]
    }
}

/// What stands for bytes in a URL.
pub open spec fn percent(input: Seq<u8>) -> Seq<char>
    decreases input.len(),
{
    if input.len() == 0 {
        Seq::empty()
    } else {
        percent_byte(input[0]) + percent(input.skip(1))
    }
}

fn hex_char(n: u8) -> (r: char)
    requires
        n < 16,
    ensures
        r == upper_hex(n as int),
{
    let code: u8 = if n < 10 {
        48 + n
    } else {
        55 + n
    };
    code as char
}

/// Percent-encodes bytes: letters, digits and `-_.~` stand for themselves, any
/// other byte as a percent sign with two upper-case hexadecimal digits.
pub fn percent_encode(input: &[u8]) -> (r: String)
    ensures
        r@ == percent(input@),
{
    let mut out = String::new();
    let mut i: usize = 0;
    proof {
        assert(input@.skip(0) =~= input@);
        assert(out@ + percent(input@) =~= percent(input@));
    }
    while i < input.len()
        invariant
            i <= input@.len(),
            out@ + percent(input@.skip(i as int)) == percent(input@),
        decreases input@.len() - i,
    {
        let b: u8 = input[i];
        let ghost before = out@;
        if (b >= 48 && b <= 57) || (b >= 65 && b <= 90) || (b >= 97 && b <= 122) || b == 45 || b
            == 95 || b == 46 || b == 126 {
            out.push(b as char);
        } else {
            out.push('%');
            out.push(hex_char(b / 16));
            out.push(hex_char(b % 16));
        }
        proof {
            let rest = input@.skip(i as int);
            assert(rest[0] == b);
            assert(rest.skip(1) =~= input@.skip(i as int + 1));
            assert(out@ =~= before + percent_byte(b));
            assert(out@ + percent(rest.skip(1)) =~= before + (percent_byte(b) + percent(
                rest.skip(1),
            )));
        }
        i = i + 1;
    }
    proof {
        assert(input@.skip(i as int) =~= Seq::empty());
        assert(out@ + percent(Seq::<u8>::empty()) =~= out@);
    }
    out
}

/// The number that an upper-case hexadecimal digit writes.
pub open spec fn hex_value(c: char) -> int {
    if c <= '9' {
        c as int - '0' as int
    } else {
        c as int - 'A' as int + 10
    }
}

/// The bytes that percent-encoded text stands for.
pub open spec fn percent_decoded(s: Seq<char>) -> Seq<u8>
    decreases s.len(),
{
    if s.len() == 0 {
        Seq::empty()
    } else if s[0] == '%' && s.len() >= 3 {
        seq![(hex_value(s[1]) * 16 + hex_value(s[2])) as u8] + percent_decoded(s.skip(3))
    } else {
        seq![s[0] as u8] + percent_decoded(s.skip(1))
    }
}

/// Decoding percent-encoded bytes gives them back, so no two titles or mounts
/// are confused.
pub proof fn percent_encoding_reads_back(input: Seq<u8>)
    ensures
        percent_decoded(percent(input)) == input,
    decreases input.len(),
{
    let s = percent(input);
    if input.len() > 0 {
        let b = input[0];
        let rest = percent(input.skip(1));
        percent_encoding_reads_back(input.skip(1));
        if is_unreserved(b) {
            assert(s.skip(1) =~= rest);
            assert(s[0] == b as char);
            assert(s[0] != '%');
        } else {
            assert(s.skip(3) =~= rest);
            assert(s[0] == '%');
            assert(s[1] == upper_hex(b as int / 16));
            assert(s[2] == upper_hex(b as int % 16));
            assert(hex_value(s[1]) == b as int / 16);
            assert(hex_value(s[2]) == b as int % 16);
        }
        assert(percent_decoded(s) =~= seq![b] + input.skip(1));
        assert(seq![b] + input.skip(1) =~= input);
    } else {
        assert(percent_decoded(s) =~= input);
    }
}

/// Percent-encoded text holds nothing but letters, digits, `-_.~` and `%`.
pub proof fn percent_encoding_is_plain(input: Seq<u8>, i: int)
    requires
        0 <= i < percent(input).len(),
    ensures
        percent(input)[i] == '%' || is_unreserved(percent(input)[i] as u8),
    decreases input.len(),
{
    if input.len() > 0 {
        let head = percent_byte(input[0]);
        if i >= head.len() {
            percent_encoding_is_plain(input.skip(1), i - head.len());
        }
    }
}

/// A text without its single quotes.
pub open spec fn without_quotes(s: Seq<char>) -> Seq<char>
    decreases s.len(),
{
    if s.len() == 0 {
        s
    } else if s.last() == '\'' {
        without_quotes(s.drop_last())
    } else {
        without_quotes(s.drop_last()).push(s.last())
    }
}

/// The text of a metadata block.
pub open spec fn meta_text(title: Seq<char>) -> Seq<u8> {
    vstd::utf8::encode_utf8("StreamTitle='"@ + without_quotes(title) + "';StreamUrl='';"@)
}

/// How much of a metadata text fits into a block.
pub open spec fn meta_len(len: nat) -> nat {
    if len < 4080 {
        len
    } else {
        4080
    }
}

/// A metadata block: its length in units of 16 bytes, the text cut to what fits,
/// and zeros up to that length.
pub open spec fn meta_block(title: Seq<char>) -> Seq<u8> {
    let text = meta_text(title);
    let len = meta_len(text.len());
    let units = (len + 15) as nat / 16;
    seq![units as u8] + text.take(len as int) + Seq::new(
        (units * 16 - len) as nat,
        |i: int| 0u8,
    )
}

/// Writes a metadata block for a title.
pub fn icy_metadata_block(title: &str) -> (r: Vec<u8>)
    ensures
        r@ == meta_block(title@),
{
    let chars = text::chars_of(title);
    let mut meta = "StreamTitle='".to_owned();
    let ghost head = meta@;
    let mut i: usize = 0;
    proof {
        assert(title@.take(0) =~= Seq::empty());
        assert(meta@ =~= head + without_quotes(title@.take(0)));
    }
    while i < chars.len()
        invariant
            chars@ == title@,
            i <= chars@.len(),
            meta@ == head + without_quotes(title@.take(i as int)),
        decreases chars@.len() - i,
    {
        let c = chars[i];
        proof {
            assert(title@.take(i as int + 1).drop_last() =~= title@.take(i as int));
            assert(title@.take(i as int + 1).last() == c);
        }
        if c != '\'' {
            meta.push(c);
        }
        i = i + 1;
        proof {
            assert(meta@ =~= head + without_quotes(title@.take(i as int)));
        }
    }
    proof {
        assert(title@.take(i as int) =~= title@);
    }
    meta.append("';StreamUrl='';");
    proof {
        assert(meta@ =~= "StreamTitle='"@ + without_quotes(title@) + "';StreamUrl='';"@);
    }
    let bytes = meta.as_str().as_bytes();
    let len: usize = if bytes.len() < 4080 {
        bytes.len()
    } else {
        4080
    };
    let units: usize = (len + 15) / 16;
    let mut block: Vec<u8> = Vec::new();
    block.push(units as u8);
    block.extend_from_slice(vstd::slice::slice_subrange(bytes, 0, len));
    let ghost filled = block@;
    let total: usize = 1 + units * 16;
    while block.len() < total
        invariant
            filled.len() <= block@.len() <= total,
            block@ == filled + Seq::new((block@.len() - filled.len()) as nat, |i: int| 0u8),
        decreases total - block@.len(),
    {
        block.push(0u8);
        proof {
            assert(block@ =~= filled + Seq::new(
                (block@.len() - filled.len()) as nat,
                |i: int| 0u8,
            ));
        }
    }
    proof {
        assert(block@ =~= meta_block(title@));
    }
    block
}

/// A metadata block is as long as its first byte says, and never longer than a
/// byte can say.
pub proof fn metadata_blocks_are_well_formed(title: Seq<char>)
    ensures
        meta_block(title).len() == 1 + 16 * meta_block(title)[0],
        1 <= meta_block(title).len() <= 4081,
{
}

/// Bytes per second that a track is sent at: its size over its length, at least
/// 1, where the length is known.
pub fn bytes_per_sec(data_len: usize, duration_secs: u64, nominal_bps: u64) -> (r: u64)
    ensures
        r == (if duration_secs == 0 {
            nominal_bps as int
        } else if data_len < duration_secs {
            1
        } else {
            data_len as int / duration_secs as int
        }),
{
    if duration_secs == 0 {
        return nominal_bps;
    }
    if (data_len as u64) < duration_secs {
        1
    } else {
        data_len as u64 / duration_secs
    }
}

/// Bytes per second of a format.
pub open spec fn nominal_rate(format: TrackFormat) -> u64 {
    match format {
        TrackFormat::Flac => 125000,
        TrackFormat::Mp3_320 => 40000,
        TrackFormat::Mp3_128 => 16000,
    }
}

/// Bytes per second of a format.
pub fn nominal_bytes_per_sec(format: TrackFormat) -> (r: u64)
    ensures
        r == nominal_rate(format),
{
    match format {
        TrackFormat::Flac => 125000,
        TrackFormat::Mp3_320 => 40000,
        TrackFormat::Mp3_128 => 16000,
    }
}

/// A sent rate is never zero where the nominal one is not.
pub proof fn rates_are_positive(data_len: nat, duration_secs: nat)
    requires
        duration_secs > 0,
        data_len >= duration_secs,
    ensures
        data_len / duration_secs >= 1,
{
    assert(data_len / duration_secs >= 1) by (nonlinear_arith)
        requires
            duration_secs > 0,
            data_len >= duration_secs,
    ;
}

/// The track that is being sent.
#[derive(Debug, PartialEq)]
pub struct CurrentTrack {
    pub title: String,
    pub data: Vec<u8>,
    pub pos: usize,
    pub bytes_per_sec: u64,
}

/// Produces the body that is sent to Icecast: audio with metadata blocks in
/// between.
pub struct Producer {
    fetch_format: TrackFormat,
    metadata: bool,
    pipeline_active: bool,
    encode_bps: u32,
    next_seq: u64,
    actual_kbps: Option<u32>,
    current: Option<CurrentTrack>,
    meta_remaining: usize,
}

/// What a producer is about to send.
pub struct ProducerModel {
    /// Whether metadata blocks are sent.
    pub metadata: bool,
    /// Title, bytes, position and rate of the current track.
    pub current: Option<(Seq<char>, Seq<u8>, nat, nat)>,
    /// Bytes of audio before the next metadata block.
    pub remaining: nat,
    /// The bitrate that is announced, in kbps.
    pub kbps: nat,
    /// The number of the next fetch.
    pub next_seq: nat,
}

/// What is sent next.
#[derive(Debug, PartialEq)]
pub enum Chunk {
    /// The next track has to be loaded first.
    NeedTrack,
    /// A metadata block.
    Metadata(Vec<u8>),
    /// Audio, and the bytes per second that it is sent at.
    Audio(Vec<u8>, u64),
}

/// How much audio goes into the next chunk.
pub open spec fn chunk_len(m: ProducerModel) -> nat {
    let (_, data, pos, _) = m.current->0;
    let left = data.len() - pos;
    let most = if m.metadata && m.remaining < 32768 {
        m.remaining as int
    } else {
        32768
    };
    (if left < most {
        left
    } else {
        most
    }) as nat
}

impl Producer {
    /// The position lies within the track, and a block is never overdue.
    pub closed spec fn wf(self) -> bool {
        &&& self.meta_remaining <= META_INTERVAL
        &&& match self.current {
            Some(track) => track.pos <= track.data@.len(),
            None => true,
        }
    }

    /// What the producer is about to send.
    pub closed spec fn view(self) -> ProducerModel {
        ProducerModel {
            metadata: self.metadata,
            current: match self.current {
                Some(track) => Some(
                    (track.title@, track.data@, track.pos as nat, track.bytes_per_sec as nat),
                ),
                None => None,
            },
            remaining: self.meta_remaining as nat,
            kbps: match self.actual_kbps {
                Some(kbps) => kbps as nat,
                None => nominal_rate(self.fetch_format) as nat * 8 / 1000,
            },
            next_seq: self.next_seq as nat,
        }
    }

    /// The format that tracks are fetched in.
    pub closed spec fn format(self) -> TrackFormat {
        self.fetch_format
    }

    /// Whether the pipeline renders the tracks.
    pub closed spec fn renders(self) -> bool {
        self.pipeline_active
    }

    /// The bitrate of the pipeline in kbps.
    pub closed spec fn session_kbps(self) -> u32 {
        self.encode_bps
    }

    /// Bytes per second where a track's length is not known.
    pub open spec fn nominal(self) -> nat {
        if self.renders() {
            self.session_kbps() as nat * 1000 / 8
        } else {
            nominal_rate(self.format()) as nat
        }
    }

    /// A producer with no track yet. The first fetch has the number 0.
    pub fn new(
        fetch_format: TrackFormat,
        metadata: bool,
        pipeline_active: bool,
        encode_bps: u32,
    ) -> (r: Producer)
        ensures
            r.wf(),
            r.format() == fetch_format,
            r.renders() == pipeline_active,
            r.session_kbps() == encode_bps,
            r.view() == (ProducerModel {
                metadata,
                current: None,
                remaining: 16000,
                kbps: nominal_rate(fetch_format) as nat * 8 / 1000,
                next_seq: 0,
            }),
    {
        Producer {
            fetch_format,
            metadata,
            pipeline_active,
            encode_bps,
            next_seq: 0,
            actual_kbps: None,
            current: None,
            meta_remaining: META_INTERVAL,
        }
    }

    /// Whether a track is loaded.
    pub fn is_loaded(&self) -> (r: bool)
        ensures
            r == (self.view().current is Some),
    {
        self.current.is_some()
    }

    /// How many fetches to start so that enough tracks are on their way.
    pub fn missing_prefetches(running: usize) -> (r: usize)
        ensures
            r == (if running < 2 {
                2 - running
            } else {
                0
            }),
    {
        if running < PREFETCH_AHEAD {
            PREFETCH_AHEAD - running
        } else {
            0
        }
    }

    /// The number of the next fetch: numbers follow the order in which tracks
    /// play.
    pub fn claim_seq(&mut self) -> (r: u64)
        requires
            old(self).wf(),
            old(self).view().next_seq < u64::MAX,
        ensures
            final(self).wf(),
            final(self).format() == old(self).format(),
            final(self).renders() == old(self).renders(),
            final(self).session_kbps() == old(self).session_kbps(),
            r == old(self).view().next_seq,
            final(self).view() == (ProducerModel {
                next_seq: old(self).view().next_seq + 1,
                ..old(self).view()
            }),
    {
        let seq: u64 = self.next_seq;
        self.next_seq = seq + 1;
        seq
    }

    /// Makes a fetched track the current one. The announced bitrate becomes that
    /// of the session, or that of the format the track really came in. The count
    /// towards the next metadata block goes on.
    pub fn activate_track(
        &mut self,
        title: String,
        data: Vec<u8>,
        duration_secs: u64,
        available: TrackFormat,
    )
        requires
            old(self).wf(),
        ensures
            final(self).wf(),
            final(self).format() == old(self).format(),
            final(self).renders() == old(self).renders(),
            final(self).session_kbps() == old(self).session_kbps(),
            final(self).view() == (ProducerModel {
                current: Some(
                    (
                        title@,
                        data@,
                        0,
                        (if duration_secs == 0 {
                            old(self).nominal() as int
                        } else if data@.len() < duration_secs {
                            1
                        } else {
                            data@.len() as int / duration_secs as int
                        }) as nat,
                    ),
                ),
                kbps: if old(self).renders() {
                    old(self).session_kbps() as nat
                } else {
                    match native_rate(available) {
                        Some(kbps) => kbps as nat,
                        None => 128,
                    }
                },
                ..old(self).view()
            }),
    {
        let nominal: u64 = if self.pipeline_active {
            self.encode_bps as u64 * 1000 / 8
        } else {
            nominal_bytes_per_sec(self.fetch_format)
        };
        let kbps: u32 = if self.pipeline_active {
            self.encode_bps
        } else {
            match native_bitrate(available) {
                Some(kbps) => kbps,
                None => 128,
            }
        };
        self.actual_kbps = Some(kbps);
        let rate: u64 = bytes_per_sec(data.len(), duration_secs, nominal);
        self.current = Some(CurrentTrack { title, data, pos: 0, bytes_per_sec: rate });
    }

    /// The title of the current track.
    pub fn current_title(&self) -> (r: Option<String>)
        ensures
            json::text_view(r) == (match self.view().current {
                Some(track) => Some(track.0),
                None => None,
            }),
    {
        match &self.current {
            Some(track) => Some(track.title.clone()),
            None => None,
        }
    }

    /// The bitrate that is announced to Icecast, in kbps.
    pub fn advertised_kbps(&self) -> (r: u32)
        ensures
            r == self.view().kbps,
    {
        match self.actual_kbps {
            Some(kbps) => kbps,
            None => (nominal_bytes_per_sec(self.fetch_format) * 8 / 1000) as u32,
        }
    }

    /// Starts over with the count towards the next metadata block, as Icecast
    /// does with each connection.
    pub fn on_connected(&mut self)
        requires
            old(self).wf(),
        ensures
            final(self).wf(),
            final(self).format() == old(self).format(),
            final(self).renders() == old(self).renders(),
            final(self).session_kbps() == old(self).session_kbps(),
            final(self).view() == (ProducerModel { remaining: 16000, ..old(self).view() }),
    {
        self.meta_remaining = META_INTERVAL;
    }

    /// The next piece of the body: a metadata block where one is due, else as
    /// much audio as fits before the next block, into one chunk, and into what
    /// is left of the track. A track that was sent to its end is dropped.
    pub fn next_chunk(&mut self) -> (r: Chunk)
        requires
            old(self).wf(),
        ensures
            final(self).wf(),
            final(self).format() == old(self).format(),
            final(self).renders() == old(self).renders(),
            final(self).session_kbps() == old(self).session_kbps(),
            in_bounds(old(self).view()),
            in_bounds(final(self).view()),
            is_next_chunk(old(self).view(), final(self).view(), r),
    {
        let ghost before = self.view();
        match &mut self.current {
            None => Chunk::NeedTrack,
            Some(track) => {
                if self.metadata && self.meta_remaining == 0 {
                    self.meta_remaining = META_INTERVAL;
                    return Chunk::Metadata(icy_metadata_block(track.title.as_str()));
                }
                let left: usize = track.data.len() - track.pos;
                let most: usize = if self.metadata && self.meta_remaining < CHUNK_SIZE {
                    self.meta_remaining
                } else {
                    CHUNK_SIZE
                };
                let take: usize = if left < most {
                    left
                } else {
                    most
                };
                let mut bytes: Vec<u8> = Vec::new();
                bytes.extend_from_slice(
                    vstd::slice::slice_subrange(
                        track.data.as_slice(),
                        track.pos,
                        track.pos + take,
                    ),
                );
                proof {
                    assert(bytes@ =~= track.data@.subrange(track.pos as int, track.pos + take));
                }
                let rate: u64 = track.bytes_per_sec;
                if self.metadata {
                    self.meta_remaining = self.meta_remaining - take;
                }
                if take == left {
                    self.current = None;
                } else {
                    track.pos = track.pos + take;
                }
                Chunk::Audio(bytes, rate)
            },
        }
    }
}

/// Whether `chunk` and `after` are what follows a state of a producer.
pub open spec fn is_next_chunk(before: ProducerModel, after: ProducerModel, chunk: Chunk) -> bool {
    match before.current {
        None => chunk is NeedTrack && after == before,
        Some((title, data, pos, rate)) => if before.metadata && before.remaining == 0 {
            &&& chunk matches Chunk::Metadata(block)
            &&& block@ == meta_block(title)
            &&& after == (ProducerModel { remaining: 16000, ..before })
        } else {
            let take = chunk_len(before);
            &&& chunk matches Chunk::Audio(bytes, bps)
            &&& bps == rate
            &&& bytes@ == data.subrange(pos as int, (pos + take) as int)
            &&& after == (ProducerModel {
                current: if pos + take == data.len() {
                    None
                } else {
                    Some((title, data, pos + take, rate))
                },
                remaining: if before.metadata {
                    (before.remaining - take) as nat
                } else {
                    before.remaining
                },
                ..before
            })
        },
    }
}

/// One piece of a body as it was sent.
pub enum Sent {
    Audio(Seq<u8>),
    Metadata(Seq<u8>),
}

/// A piece of a body.
pub open spec fn sent_as(chunk: Chunk) -> Sent {
    match chunk {
        Chunk::Metadata(block) => Sent::Metadata(block@),
        Chunk::Audio(bytes, _) => Sent::Audio(bytes@),
        Chunk::NeedTrack => Sent::Audio(Seq::empty()),
    }
}

/// Whether pieces are framed: a metadata block stands where the count of audio
/// has run out, is as long as its first byte says, and starts a new count.
pub open spec fn is_framed(pieces: Seq<Sent>, remaining: nat) -> bool
    decreases pieces.len(),
{
    if pieces.len() == 0 {
        true
    } else {
        match pieces[0] {
            Sent::Audio(bytes) => bytes.len() <= remaining && is_framed(
                pieces.skip(1),
                (remaining - bytes.len()) as nat,
            ),
            Sent::Metadata(block) => remaining == 0 && block.len() > 0 && block.len() == 1 + 16
                * block[0] && is_framed(pieces.skip(1), 16000),
        }
    }
}

/// The bytes of a body.
pub open spec fn wire(pieces: Seq<Sent>) -> Seq<u8>
    decreases pieces.len(),
{
    if pieces.len() == 0 {
        Seq::empty()
    } else {
        (match pieces[0] {
            Sent::Audio(bytes) => bytes,
            Sent::Metadata(block) => block,
        }) + wire(pieces.skip(1))
    }
}

/// The audio of a body.
pub open spec fn audio_of(pieces: Seq<Sent>) -> Seq<u8>
    decreases pieces.len(),
{
    if pieces.len() == 0 {
        Seq::empty()
    } else {
        (match pieces[0] {
            Sent::Audio(bytes) => bytes,
            Sent::Metadata(_) => Seq::empty(),
        }) + audio_of(pieces.skip(1))
    }
}

/// The audio that a receiver hears: it counts bytes of audio and, where the
/// count has run out, reads a metadata block by its first byte.
pub open spec fn received(body: Seq<u8>, remaining: nat) -> Seq<u8>
    decreases body.len(),
{
    if body.len() == 0 {
        Seq::empty()
    } else if remaining > 0 {
        seq![body[0]] + received(body.skip(1), (remaining - 1) as nat)
    } else if body.len() < 1 + 16 * body[0] {
        Seq::empty()
    } else {
        received(body.skip(1 + 16 * body[0]), 16000)
    }
}

proof fn lemma_received_audio(audio: Seq<u8>, rest: Seq<u8>, remaining: nat)
    requires
        audio.len() <= remaining,
    ensures
        received(audio + rest, remaining) == audio + received(
            rest,
            (remaining - audio.len()) as nat,
        ),
    decreases audio.len(),
{
    if audio.len() == 0 {
        assert(audio + rest =~= rest);
        assert(audio + received(rest, remaining) =~= received(rest, remaining));
    } else {
        lemma_received_audio(audio.skip(1), rest, (remaining - 1) as nat);
        assert((audio + rest).skip(1) =~= audio.skip(1) + rest);
        let tail = received(rest, (remaining - audio.len()) as nat);
        assert(seq![audio[0]] + (audio.skip(1) + tail) =~= audio + tail);
    }
}

/// A receiver hears exactly the audio that was sent: metadata blocks never
/// leak into it and never swallow any of it.
pub proof fn receivers_hear_the_audio(pieces: Seq<Sent>, remaining: nat)
    requires
        is_framed(pieces, remaining),
    ensures
        received(wire(pieces), remaining) == audio_of(pieces),
    decreases pieces.len(),
{
    if pieces.len() > 0 {
        let rest = wire(pieces.skip(1));
        match pieces[0] {
            Sent::Audio(bytes) => {
                receivers_hear_the_audio(pieces.skip(1), (remaining - bytes.len()) as nat);
                lemma_received_audio(bytes, rest, remaining);
            },
            Sent::Metadata(block) => {
                receivers_hear_the_audio(pieces.skip(1), 16000);
                assert((block + rest).skip(block.len() as int) =~= rest);
                assert((block + rest)[0] == block[0]);
                assert(audio_of(pieces) =~= audio_of(pieces.skip(1)));
            },
        }
    }
}

/// Whether the position of the current track lies within it.
pub open spec fn in_bounds(m: ProducerModel) -> bool {
    match m.current {
        Some((_, data, pos, _)) => pos <= data.len(),
        None => true,
    }
}

/// Whether the `i`-th step of a run leads from one state to the next.
pub open spec fn is_step(
    states: Seq<(ProducerModel, ProducerModel)>,
    chunks: Seq<Chunk>,
    i: int,
) -> bool {
    in_bounds(states[i].0) && is_next_chunk(states[i].0, states[i].1, chunks[i])
}

/// Whether nothing but loading a track happened behind the `i`-th step.
pub open spec fn goes_on(states: Seq<(ProducerModel, ProducerModel)>, i: int) -> bool {
    states[i].1.remaining == states[i + 1].0.remaining && states[i].1.metadata == states[i
        + 1].0.metadata
}

/// A run of a producer: the states before and after each chunk. Between two
/// chunks a track may have been loaded, which leaves the count towards the next
/// metadata block as it is.
pub open spec fn is_run(states: Seq<(ProducerModel, ProducerModel)>, chunks: Seq<Chunk>) -> bool {
    &&& states.len() == chunks.len()
    &&& forall|i: int| 0 <= i < chunks.len() ==> #[trigger] is_step(states, chunks, i)
    &&& forall|i: int| 0 <= i < chunks.len() - 1 ==> #[trigger] goes_on(states, i)
}

/// The pieces of a run.
pub open spec fn pieces_of(chunks: Seq<Chunk>) -> Seq<Sent> {
    chunks.map_values(|c: Chunk| sent_as(c))
}

/// Whatever tracks are loaded on the way, the body of a connection is framed:
/// metadata blocks come after exactly as many bytes of audio as were announced,
/// across track changes.
pub proof fn bodies_are_framed(
    states: Seq<(ProducerModel, ProducerModel)>,
    chunks: Seq<Chunk>,
    remaining: nat,
)
    requires
        is_run(states, chunks),
        chunks.len() > 0 ==> states[0].0.metadata && states[0].0.remaining == remaining,
    ensures
        is_framed(pieces_of(chunks), remaining),
    decreases chunks.len(),
{
    if chunks.len() > 0 {
        let before = states[0].0;
        let after = states[0].1;
        let pieces = pieces_of(chunks);
        assert(is_step(states, chunks, 0));
        assert(pieces.skip(1) =~= pieces_of(chunks.skip(1)));
        let rest_states = states.skip(1);
        let rest_chunks = chunks.skip(1);
        assert forall|i: int| 0 <= i < rest_chunks.len() implies #[trigger] is_step(
            rest_states,
            rest_chunks,
            i,
        ) by {
            assert(is_step(states, chunks, i + 1));
        }
        assert forall|i: int| 0 <= i < rest_chunks.len() - 1 implies #[trigger] goes_on(
            rest_states,
            i,
        ) by {
            assert(goes_on(states, i + 1));
        }
        if chunks.len() > 1 {
            assert(goes_on(states, 0));
        }
        bodies_are_framed(rest_states, rest_chunks, after.remaining);
        lemma_step_is_framed(before, after, chunks[0]);
        assert(pieces[0] == sent_as(chunks[0]));
    }
}

proof fn lemma_step_is_framed(before: ProducerModel, after: ProducerModel, chunk: Chunk)
    requires
        in_bounds(before),
        before.metadata,
        is_next_chunk(before, after, chunk),
    ensures
        after.metadata,
        match sent_as(chunk) {
            Sent::Audio(bytes) => bytes.len() <= before.remaining && after.remaining
                == before.remaining - bytes.len(),
            Sent::Metadata(block) => before.remaining == 0 && after.remaining == 16000
                && block.len() > 0 && block.len() == 1 + 16 * block[0],
        },
{
    match before.current {
        Some((title, data, pos, rate)) => {
            metadata_blocks_are_well_formed(title);
        },
        None => {},
    }
}

/// No byte of a track is lost or sent twice: a chunk and what is left of the
/// track behind it are what was left before, also across a new connection,
/// which only starts a new count.
pub proof fn tracks_are_sent_whole(before: ProducerModel, after: ProducerModel, chunk: Chunk)
    requires
        is_next_chunk(before, after, chunk),
        before.current is Some,
        in_bounds(before),
    ensures
        ({
            let (_, data, pos, _) = before.current->0;
            let rest = match after.current {
                Some((_, d, p, _)) => d.skip(p as int),
                None => Seq::empty(),
            };
            match sent_as(chunk) {
                Sent::Audio(bytes) => data.skip(pos as int) == bytes + rest,
                Sent::Metadata(_) => data.skip(pos as int) == rest,
            }
        }),
{
    let (_, data, pos, _) = before.current->0;
    if !(before.metadata && before.remaining == 0) {
        let take = chunk_len(before);
        assert(data.skip(pos as int) =~= data.subrange(pos as int, (pos + take) as int) + data.skip(
            (pos + take) as int,
        ));
        if pos + take == data.len() {
            assert(data.skip((pos + take) as int) =~= Seq::empty());
        }
    }
}

/// How a connection ended.
#[derive(Debug, PartialEq)]
pub enum StreamError {
    /// Worth another attempt.
    Transient(String),
    /// The settings are wrong.
    Fatal(String),
}

/// A request to send a stream.
#[derive(Debug, PartialEq)]
pub struct SourceRequest {
    pub url: String,
    /// Names and values of the headers, in order.
    pub headers: Vec<(String, String)>,
}

/// Headers without their representation.
pub open spec fn headers_model(headers: Seq<(String, String)>) -> Seq<(Seq<char>, Seq<char>)> {
    headers.map_values(|h: (String, String)| (h.0@, h.1@))
}

fn push_header(headers: &mut Vec<(String, String)>, name: &str, value: &str)
    ensures
        headers_model(final(headers)@) == headers_model(old(headers)@).push((name@, value@)),
{
    headers.push((name.to_owned(), value.to_owned()));
    proof {
        assert(headers_model(headers@) =~= headers_model(old(headers)@).push((name@, value@)));
    }
}

/// The address of the mount point.
pub open spec fn mount_url(config: IcecastConfig) -> Seq<char> {
    cli::without_slashes(config.server@) + config.mount@
}

/// An optional header.
pub open spec fn optional_header(name: Seq<char>, value: Option<String>) -> Seq<
    (Seq<char>, Seq<char>),
> {
    match value {
        Some(value) => seq![(name, value@)],
        None => seq![],
    }
}

/// The headers of the request that opens a stream.
pub open spec fn source_headers(config: IcecastConfig, kbps: nat) -> Seq<(Seq<char>, Seq<char>)> {
    seq![
        ("Content-Type"@, "audio/mpeg"@),
        (
            "ice-public"@,
            if config.public {
                "1"@
            } else {
                "0"@
            },
        ),
        ("ice-bitrate"@, text::decimal(kbps)),
    ] + (if config.metadata {
        seq![("icy-metaint"@, text::decimal(16000)), ("ice-metadata"@, "1"@)]
    } else {
        seq![]
    }) + optional_header("ice-name"@, config.name) + optional_header("ice-genre"@, config.genre)
        + optional_header("ice-url"@, config.url)
}

/// The request that opens a stream at an announced bitrate in kbps.
pub fn source_request(config: &IcecastConfig, kbps: u32) -> (r: SourceRequest)
    ensures
        r.url@ == mount_url(*config),
        headers_model(r.headers@) == source_headers(*config, kbps as nat),
{
    let mut url = cli::trim_slashes(config.server.as_str());
    url.append(config.mount.as_str());
    let mut headers: Vec<(String, String)> = Vec::new();
    proof {
        assert(headers_model(headers@) =~= Seq::empty());
    }
    push_header(&mut headers, "Content-Type", "audio/mpeg");
    push_header(
        &mut headers,
        "ice-public",
        if config.public {
            "1"
        } else {
            "0"
        },
    );
    push_header(&mut headers, "ice-bitrate", text::decimal_text(kbps as u64).as_str());
    if config.metadata {
        push_header(
            &mut headers,
            "icy-metaint",
            text::decimal_text(META_INTERVAL as u64).as_str(),
        );
        push_header(&mut headers, "ice-metadata", "1");
    }
    if let Some(name) = &config.name {
        push_header(&mut headers, "ice-name", name.as_str());
    }
    if let Some(genre) = &config.genre {
        push_header(&mut headers, "ice-genre", genre.as_str());
    }
    if let Some(url) = &config.url {
        push_header(&mut headers, "ice-url", url.as_str());
    }
    proof {
        assert(headers_model(headers@) =~= source_headers(*config, kbps as nat));
    }
    SourceRequest { url, headers }
}

/// Judges the answer to the request: a refusal is fatal.
pub fn judge_response(success: bool, status: &str) -> (r: Result<(), StreamError>)
    ensures
        match r {
            Ok(_) => success,
            Err(error) => !success && (error matches StreamError::Fatal(message) && message@
                == "Icecast rejected the source connection ("@ + status@
                + "); check the mount point and source password"@),
        },
{
    if success {
        return Ok(());
    }
    let mut s = "Icecast rejected the source connection (".to_owned();
    s.append(status);
    s.append("); check the mount point and source password");
    Err(StreamError::Fatal(s))
}

/// The address of an update of the title through Icecast's admin interface.
pub fn title_update_url(config: &IcecastConfig, title: &str) -> (r: String)
    ensures
        r@ == cli::without_slashes(config.server@)
            + "/admin/metadata?mode=updinfo&charset=UTF-8&mount="@ + percent(
            vstd::utf8::encode_utf8(config.mount@),
        ) + "&song="@ + percent(vstd::utf8::encode_utf8(title@)),
{
    let mut s = cli::trim_slashes(config.server.as_str());
    s.append("/admin/metadata?mode=updinfo&charset=UTF-8&mount=");
    s.append(percent_encode(config.mount.as_str().as_bytes()).as_str());
    s.append("&song=");
    s.append(percent_encode(title.as_bytes()).as_str());
    s
}

/// Judges the answer to an update of the title: Icecast may refuse it with a
/// status of success and words in the body.
pub fn judge_title_update(success: bool, status: &str, body: &str) -> (r: Result<(), String>)
    ensures
        match r {
            Ok(_) => success && !text::holds(body@, "will not accept"@),
            Err(message) => if !success {
                message@ == "Icecast title update rejected: HTTP "@ + status@
            } else {
                text::holds(body@, "will not accept"@) && message@
                    == "Icecast refused the title update: "@ + text::trimmed(body@)
            },
        },
{
    if !success {
        let mut s = "Icecast title update rejected: HTTP ".to_owned();
        s.append(status);
        return Err(s);
    }
    if text::contains(body, "will not accept") {
        let mut s = "Icecast refused the title update: ".to_owned();
        s.append(text::trim(body).as_str());
        return Err(s);
    }
    Ok(())
}

/// Whether a failed update of the title is reported: hosts without the admin
/// interface answer 404, which is not.
pub fn reports_update_failure(message: &str) -> (r: bool)
    ensures
        r == !text::holds(message@, "404"@),
{
    !text::contains(message, "404")
}

/// The handing over of a held end from one track to the next, in order.
#[derive(Debug, PartialEq)]
pub struct Handoff<T> {
    /// How many tracks have handed over or given up.
    pub version: u64,
    /// The held end of the last track that did.
    pub tail: Vec<T>,
}

impl<T> Handoff<T> {
    /// Nothing handed over yet.
    pub fn new() -> (r: Handoff<T>)
        ensures
            r.version == 0,
            r.tail@.len() == 0,
    {
        Handoff { version: 0, tail: Vec::new() }
    }

    /// Whether it is the turn of the track with this number.
    pub fn may_claim(&self, seq: u64) -> (r: bool)
        ensures
            r == (self.version == seq),
    {
        self.version == seq
    }

    /// The track with this number hands over its end.
    pub fn publish(&mut self, seq: u64, tail: Vec<T>)
        requires
            old(self).version == seq,
            seq < u64::MAX,
        ensures
            final(self).version == seq + 1,
            final(self).tail == tail,
    {
        self.tail = tail;
        self.version = seq + 1;
    }

    /// The track with this number gives up: the next one may go on, with the
    /// end that was held before.
    pub fn advance_past(&mut self, seq: u64)
        requires
            seq < u64::MAX,
        ensures
            final(self).version == (if old(self).version > seq {
                old(self).version as int
            } else {
                seq + 1
            }),
            final(self).tail == old(self).tail,
    {
        if self.version <= seq {
            self.version = seq + 1;
        }
    }
}

/// The number of the track whose turn it is, after tracks that each handed over
/// (`true`) or gave up (`false`) when it was their turn.
pub open spec fn turn_after(outcomes: Seq<bool>) -> nat
    decreases outcomes.len(),
{
    if outcomes.len() == 0 {
        0
    } else {
        let before = turn_after(outcomes.drop_last());
        let seq = (outcomes.len() - 1) as nat;
        if outcomes.last() {
            seq + 1
        } else if before > seq {
            before
        } else {
            seq + 1
        }
    }
}

/// Every track gets its turn: however the tracks before it fared, after they
/// are done it is the turn of the next one, and of no other.
pub proof fn every_track_gets_its_turn(outcomes: Seq<bool>)
    ensures
        turn_after(outcomes) == outcomes.len(),
    decreases outcomes.len(),
{
    if outcomes.len() > 0 {
        every_track_gets_its_turn(outcomes.drop_last());
    }
}

/// The wait before the next attempt doubles with each failure, from 5 seconds up
/// to five minutes, and a connection that was made starts it at 5 seconds again.
pub proof fn waits_double(failures: nat, delay: nat)
    ensures
        delay_after(0) == 5,
        2 * delay_after(failures) <= 300 ==> delay_after(failures + 1) == 2 * delay_after(failures),
        2 * delay_after(failures) > 300 ==> delay_after(failures + 1) == 300,
        next_delay(delay, true) == 5,
        next_delay(delay, false) == delay,
{
}

/// In a URL letters, digits and the signs `-`, `.`, `_` and `~` stand for
/// themselves, and every other byte as a percent sign and its two digits. Bytes
/// are written one behind the other.
pub proof fn urls_keep_plain_bytes_alone(b: u8, before: Seq<u8>, behind: Seq<u8>)
    ensures
        (48 <= b <= 57) || (65 <= b <= 90) || (97 <= b <= 122) || b == 45 || b == 46 || b == 95 || b
            == 126 ==> percent(seq![b]) == seq![b as char],
        !((48 <= b <= 57) || (65 <= b <= 90) || (97 <= b <= 122) || b == 45 || b == 46 || b == 95 || b
            == 126) ==> percent(seq![b]).len() == 3 && percent(seq![b])[0] == '%',
        percent(before + behind) == percent(before) + percent(behind),
    decreases before.len(),
{
    let one = seq![b];
    assert(one.skip(1) =~= Seq::<u8>::empty());
    assert(percent(Seq::<u8>::empty()) == Seq::<char>::empty());
    assert(percent(one) =~= percent_byte(one[0]));
    if before.len() > 0 {
        urls_keep_plain_bytes_alone(b, before.skip(1), behind);
        assert((before + behind).skip(1) =~= before.skip(1) + behind);
        assert(percent(before + behind) =~= percent_byte(before[0]) + (percent(before.skip(1))
            + percent(behind)));
        assert(percent(before) + percent(behind) =~= percent_byte(before[0]) + (percent(
            before.skip(1),
        ) + percent(behind)));
    } else {
        assert(before + behind =~= behind);
        assert(percent(before) + percent(behind) =~= percent(behind));
    }
}

/// A title loses its quotes, so that it cannot end early, and nothing else.
pub proof fn titles_lose_their_quotes_alone(title: Seq<char>, c: char)
    ensures
        !without_quotes(title).contains('\''),
        !title.contains('\'') ==> without_quotes(title) == title,
        without_quotes(title.push(c)) == (if c == '\'' {
            without_quotes(title)
        } else {
            without_quotes(title).push(c)
        }),
    decreases title.len(),
{
    assert(title.push(c).drop_last() =~= title);
    if title.len() > 0 {
        let front = title.drop_last();
        titles_lose_their_quotes_alone(front, c);
        assert(front.push(title.last()) =~= title);
        if !title.contains('\'') {
            assert(title[title.len() - 1] != '\'');
            assert forall|i: int| 0 <= i < front.len() implies front[i] != '\'' by {
                assert(title[i] == front[i]);
            }
        }
        if title.last() != '\'' {
            let rest = without_quotes(front);
            assert forall|i: int| 0 <= i < rest.push(title.last()).len() implies rest.push(
                title.last(),
            )[i] != '\'' by {
                if i < rest.len() {
                    assert(rest.contains(rest[i]));
                }
            }
        }
    }
}

/// A metadata block carries the title: behind the byte that counts its units of
/// 16 bytes stands the text, as much of it as 255 units hold, and then zeros
/// alone, fewer than 16 of them.
pub proof fn metadata_blocks_carry_the_title(title: Seq<char>, i: int)
    ensures
        ({
            let words = vstd::utf8::encode_utf8(
                "StreamTitle='"@ + without_quotes(title) + "';StreamUrl='';"@,
            );
            let block = meta_block(title);
            let len = if words.len() < 16 * 255 {
                words.len() as int
            } else {
                4080int
            };
            &&& block.len() == 1 + 16 * block[0]
            &&& len <= 16 * block[0] < len + 16
            &&& block.subrange(1, 1 + len) == words.take(len)
            &&& len < i < block.len() ==> block[i] == 0
        }),
{
    let words = vstd::utf8::encode_utf8(
        "StreamTitle='"@ + without_quotes(title) + "';StreamUrl='';"@,
    );
    let block = meta_block(title);
    let len = if words.len() < 16 * 255 {
        words.len() as int
    } else {
        4080int
    };
    assert(block.subrange(1, 1 + len) =~= words.take(len));
}

/// A chunk of audio is as long as it can be: all that is left of the track, but
/// at most 32 KiB and never past the next metadata block. Wherever something is
/// left, something is sent.
pub proof fn chunks_are_as_long_as_they_can_be(
    before: ProducerModel,
    after: ProducerModel,
    bytes: Vec<u8>,
    rate: u64,
    length: nat,
)
    requires
        in_bounds(before),
        is_next_chunk(before, after, Chunk::Audio(bytes, rate)),
        before.current is Some,
    ensures
        ({
            let (_, data, pos, speed) = before.current->0;
            &&& rate == speed
            &&& (length <= data.len() - pos && length <= 32768 && (before.metadata ==> length
                <= before.remaining)) <==> length <= bytes@.len()
            &&& bytes@.len() == 0 ==> pos == data.len()
            &&& before.metadata ==> before.remaining > 0 && after.remaining == before.remaining
                - bytes@.len()
            &&& !before.metadata ==> after.remaining == before.remaining
        }),
{
}

/// A metadata block comes exactly where it is asked for and the count has run
/// out. It carries the current title, starts a new count of 16000 bytes, and
/// leaves the track where it is.
pub proof fn metadata_comes_every_16000_bytes(
    before: ProducerModel,
    after: ProducerModel,
    chunk: Chunk,
)
    requires
        is_next_chunk(before, after, chunk),
    ensures
        chunk is Metadata <==> before.current is Some && before.metadata && before.remaining == 0,
        chunk is Metadata ==> after.remaining == 16000 && after.current == before.current
            && (before.current matches Some((title, _, _, _)) && chunk->Metadata_0@ == meta_block(
            title,
        )),
        chunk is NeedTrack <==> before.current is None,
        after.metadata == before.metadata && after.kbps == before.kbps && after.next_seq
            == before.next_seq,
{
}

/// The request that opens a stream announces MPEG audio, whether it is public,
/// and its bitrate. With metadata it announces a block every 16000 bytes. Name,
/// genre and address follow where they are given.
pub proof fn streams_announce_what_they_send(config: IcecastConfig, kbps: nat)
    ensures
        ({
            let headers = source_headers(config, kbps);
            &&& headers[0] == ("Content-Type"@, "audio/mpeg"@)
            &&& headers[1] == ("ice-public"@, (if config.public {
                "1"@
            } else {
                "0"@
            }))
            &&& headers[2] == ("ice-bitrate"@, text::decimal(kbps))
            &&& config.metadata ==> headers[3] == ("icy-metaint"@, text::decimal(16000))
                && headers[4] == ("ice-metadata"@, "1"@)
            &&& config.url is Some ==> headers.last() == ("ice-url"@, config.url->0@)
            &&& config.genre is Some ==> headers.contains(("ice-genre"@, config.genre->0@))
            &&& config.name is Some ==> headers[if config.metadata {
                5int
            } else {
                3int
            }] == ("ice-name"@, config.name->0@)
            &&& headers.len() == 3 + (if config.metadata {
                2int
            } else {
                0int
            }) + (if config.name is Some {
                1int
            } else {
                0int
            }) + (if config.genre is Some {
                1int
            } else {
                0int
            }) + (if config.url is Some {
                1int
            } else {
                0int
            })
        }),
{
    let headers = source_headers(config, kbps);
    if config.genre is Some {
        let at = 3 + (if config.metadata {
            2int
        } else {
            0int
        }) + (if config.name is Some {
            1int
        } else {
            0int
        });
        assert(headers[at] == ("ice-genre"@, config.genre->0@));
    }
}

/// A pipeline without stages is passed through, and every single stage makes it
/// active.
pub proof fn every_stage_makes_a_pipeline_active(pipeline: PipelineConfig)
    ensures
        pipeline.bitrate is Some ==> pipeline.active(),
        pipeline.stereo_tool is Some ==> pipeline.active(),
        pipeline.stereo_lib is Some ==> pipeline.active(),
        pipeline.loudness is Some ==> pipeline.active(),
        pipeline.crossfade.enabled() ==> pipeline.active(),
        pipeline.gain_db is Some && pipeline.gain_db->0.place() != 0 ==> pipeline.active(),
        pipeline.bitrate is None && pipeline.stereo_tool is None && pipeline.stereo_lib is None
            && pipeline.loudness is None && !pipeline.crossfade.enabled() && (
        pipeline.gain_db is None || pipeline.gain_db->0.place() == 0) ==> !pipeline.active(),
{
}

/// A pipeline runs exactly where all that it needs is there: the binary and the
/// library that it names, the bus rate of 44100 Hz, and LAME for an active one.
pub proof fn pipelines_run_with_all_they_need(
    pipeline: PipelineConfig,
    binary_exists: bool,
    lib_exists: bool,
    lame_available: bool,
)
    ensures
        missing_prerequisite(pipeline, binary_exists, lib_exists, lame_available) is None <==> (
        pipeline.stereo_tool is Some ==> binary_exists && pipeline.stereo_tool->0.rate == 44100)
            && (pipeline.stereo_lib is Some ==> lib_exists) && (pipeline.active()
            ==> lame_available),
{
}

/// A stream is refused exactly where the password is missing, a setting lies
/// outside its bounds, or a reset is asked for without the library. The crossfade
/// lasts 30 seconds at most, the gain lies between -24 and 24 dB, the loudness
/// between -23 and -6 LUFS, and the bitrate between 8 and 320 kbps.
pub proof fn streams_are_refused_for_a_fault(options: StreamOptions)
    ensures
        stream_fault(options) is None <==> options.password is Some && options.crossfade.within(
            0,
            0x41f0_0000,
        ) && (options.gain_db is Some ==> options.gain_db->0.within(
            0xc1c0_0000,
            0x41c0_0000,
        )) && (options.target_lufs is Some ==> options.target_lufs->0.within(
            0xc1b8_0000,
            0xc0c0_0000,
        )) && (options.bitrate is Some ==> 8 <= options.bitrate->0 <= 320) && (options.reset_track
            ==> options.has_lib),
{
}

/// MPEG audio comes at one of eighteen rates. The nearest one to a bitrate is one
/// of them, and none of the others lies nearer.
pub proof fn mpeg_audio_has_eighteen_rates(rate: int, wanted: int, i: int)
    requires
        is_nearest_rate(rate, wanted),
        0 <= i < 18,
    ensures
        ({
            let rates = seq![
                8int,
                16,
                24,
                32,
                40,
                48,
                56,
                64,
                80,
                96,
                112,
                128,
                144,
                160,
                192,
                224,
                256,
                320,
            ];
            &&& rates.contains(rate)
            &&& (if rate <= wanted {
                wanted - rate
            } else {
                rate - wanted
            }) <= (if rates[i] <= wanted {
                wanted - rates[i]
            } else {
                rates[i] - wanted
            })
        }),
{
    let rates = seq![
        8int,
        16,
        24,
        32,
        40,
        48,
        56,
        64,
        80,
        96,
        112,
        128,
        144,
        160,
        192,
        224,
        256,
        320,
    ];
    assert(is_mpeg_rate(rates[i]));
    assert(rates[0] == 8 && rates[1] == 16 && rates[2] == 24 && rates[3] == 32 && rates[4] == 40
        && rates[5] == 48 && rates[6] == 56 && rates[7] == 64 && rates[8] == 80 && rates[9] == 96
        && rates[10] == 112 && rates[11] == 128 && rates[12] == 144 && rates[13] == 160 && rates[14]
        == 192 && rates[15] == 224 && rates[16] == 256 && rates[17] == 320);
}

/// The bitrate of a session is the one asked for, as near as MPEG audio has it,
/// else that of the format, and 320 kbps for a lossless one. A format streams at
/// an eighth of its bitrate in bytes.
pub proof fn sessions_stream_at_one_rate(pipeline: PipelineConfig, format: TrackFormat, kbps: int)
    requires
        pipeline.is_session_rate(format, kbps),
    ensures
        pipeline.bitrate is Some && is_mpeg_rate(pipeline.bitrate->0 as int) ==> kbps
            == pipeline.bitrate->0,
        pipeline.bitrate is None ==> kbps == (if format == TrackFormat::Mp3_128 {
            128int
        } else {
            320int
        }),
        native_rate(TrackFormat::Mp3_320) == Some(320u32) && native_rate(TrackFormat::Mp3_128)
            == Some(128u32) && native_rate(TrackFormat::Flac) is None,
        nominal_rate(TrackFormat::Mp3_320) * 8 == 320000 && nominal_rate(TrackFormat::Mp3_128) * 8
            == 128000 && nominal_rate(TrackFormat::Flac) * 8 == 1000000,
{
}

/// A stream goes to the mount point behind the server's address, whether that
/// ends with slashes or not.
pub proof fn mounts_stand_behind_the_server(
    config: IcecastConfig,
    server: Seq<char>,
    slashes: Seq<char>,
)
    requires
        config.server@ == server + slashes,
        server.len() == 0 || server.last() != '/',
        forall|k: int| 0 <= k < slashes.len() ==> slashes[k] == '/',
    ensures
        mount_url(config) == server + config.mount@,
{
    cli::slashes_at_the_end_do_not_count(server, slashes);
}

} // verus!
