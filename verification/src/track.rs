//! One track: which format it comes in, where from, and under which name.

use vstd::prelude::*;

use crate::crypto;
use crate::files;
use crate::json;
use crate::models;
use crate::models::{GwTrack, TrackFormat};
use crate::text;

verus! {

/// Whether two texts are equal but for the case of ASCII letters.
pub open spec fn same_ascii(a: Seq<char>, b: Seq<char>) -> bool {
    a.map_values(|c: char| text::ascii_lower(c)) == b.map_values(|c: char| text::ascii_lower(c))
}

fn lower_letter(c: char) -> (r: char)
    ensures
        r == text::ascii_lower(c),
{
    if c >= 'A' && c <= 'Z' {
        let code: u8 = (c as u8) + 32;
        code as char
    } else {
        c
    }
}

fn equals_true(value: &str) -> (r: bool)
    ensures
        r == same_ascii(value@, "true"@),
{
    let mut lower = String::new();
    let chars = text::chars_of(value);
    let mut i: usize = 0;
    let ghost mapped = value@.map_values(|c: char| text::ascii_lower(c));
    while i < chars.len()
        invariant
            chars@ == value@,
            mapped == value@.map_values(|c: char| text::ascii_lower(c)),
            i <= chars@.len(),
            lower@ == mapped.take(i as int),
        decreases chars@.len() - i,
    {
        lower.push(lower_letter(chars[i]));
        i = i + 1;
        proof {
            assert(lower@ =~= mapped.take(i as int));
        }
    }
    proof {
        reveal_strlit("true");
        assert(mapped.take(i as int) =~= mapped);
        assert("true"@.map_values(|c: char| text::ascii_lower(c)) =~= "true"@);
    }
    text::same_text(lower.as_str(), "true")
}

/// Whether the value of `DEEZCO_DEBUG` asks for debug messages.
pub fn debug_enabled(value: Option<&str>) -> (r: bool)
    ensures
        r == (match value {
            Some(v) => v@ == "1"@ || same_ascii(v@, "true"@),
            None => false,
        }),
{
    match value {
        Some(v) => text::same_text(v, "1") || equals_true(v),
        None => false,
    }
}

/// Quality and format settings shared by every download command.
#[derive(Debug, Clone, Copy)]
pub struct DownloadOptions {
    /// Requested audio quality.
    pub format: TrackFormat,
    /// Minimum acceptable quality.
    pub min_format: Option<TrackFormat>,
    /// Download the 30-second preview instead of the full track.
    pub preview: bool,
    /// Download both the preview and the full track.
    pub preview_and_full: bool,
}

/// The first format with a reported size, going down from `format`.
pub open spec fn first_available(track: GwTrack, format: TrackFormat) -> Option<TrackFormat>
    decreases format.order(),
{
    if track.size_of(format) > 0 {
        Some(format)
    } else {
        match format.next_down() {
            Some(lower) => first_available(track, lower),
            None => None,
        }
    }
}

/// The format that a track downloads as: the first with a reported size going
/// down from the requested one, or the requested one where none has a size.
pub open spec fn available(track: GwTrack, format: TrackFormat) -> TrackFormat {
    match first_available(track, format) {
        Some(found) => found,
        None => format,
    }
}

/// The format that a track downloads as.
pub fn available_format(track: &GwTrack, format: TrackFormat) -> (r: TrackFormat)
    ensures
        r == available(*track, format),
{
    let mut current = format;
    loop
        invariant
            first_available(*track, current) == first_available(*track, format),
        decreases current.order(),
    {
        if track.filesize_for_format(current) > 0 {
            return current;
        }
        match current.fallback() {
            Some(lower) => {
                current = lower;
            },
            None => {
                return format;
            },
        }
    }
}

/// A download never goes above the requested format, and it is either a format
/// with a reported size or, where none at or below has one, the requested one.
pub proof fn downloads_never_exceed_the_request(track: GwTrack, format: TrackFormat)
    ensures
        available(track, format).order() <= format.order(),
        track.size_of(available(track, format)) > 0 || available(track, format) == format,
        track.size_of(available(track, format)) == 0 ==> (forall|f: TrackFormat|
            f.order() <= format.order() ==> #[trigger] track.size_of(f) == 0),
        forall|f: TrackFormat|
            available(track, format).order() < f.order() <= format.order()
                ==> #[trigger] track.size_of(f) == 0,
{
    reveal_with_fuel(first_available, 4);
}

/// What to do next to find where a track is served.
#[derive(Debug, PartialEq)]
pub enum UrlStep {
    /// Ask the media server for the track in this format.
    Ask(TrackFormat),
    /// The track is served here, in this format.
    Found(String, TrackFormat),
    /// The track cannot be downloaded.
    Fail(String),
}

/// Whether a track has a token to ask the media server with.
pub open spec fn has_token(track: GwTrack) -> bool {
    match track.track_token {
        Some(token) => token@.len() > 0,
        None => false,
    }
}

/// A step without its representation.
pub enum UrlModel {
    Ask(TrackFormat),
    Found(Seq<char>, TrackFormat),
    Fail(Seq<char>),
}

impl UrlStep {
    /// The step without its representation.
    pub open spec fn model(self) -> UrlModel {
        match self {
            UrlStep::Ask(format) => UrlModel::Ask(format),
            UrlStep::Found(url, format) => UrlModel::Found(url@, format),
            UrlStep::Fail(message) => UrlModel::Fail(message@),
        }
    }
}

/// The outcome without the media server: the URL made from the track's MD5.
pub open spec fn legacy_url(track: GwTrack, requested: TrackFormat) -> UrlModel {
    let md5 = models::text_or(json::text_view(track.md5_origin), ""@);
    if md5.len() == 0 {
        UrlModel::Fail("Track has no MD5, cannot generate download URL"@)
    } else {
        UrlModel::Found(
            crypto::stream_url(
                track.id_view(),
                md5,
                models::written_or(json::value_view(track.media_version), "1"@),
                available(track, requested).code_number(),
            ),
            available(track, requested),
        )
    }
}

fn legacy_step(track: &GwTrack, requested: TrackFormat) -> (r: UrlStep)
    ensures
        r.model() == legacy_url(*track, requested),
{
    let md5 = track.md5();
    let media_version = track.media_ver();
    let sng_id = track.id_str();
    if text::chars_of(md5.as_str()).len() == 0 {
        return UrlStep::Fail("Track has no MD5, cannot generate download URL".to_owned());
    }
    let actual = available_format(track, requested);
    let url = crypto::generate_crypted_stream_url(
        sng_id.as_str(),
        md5.as_str(),
        media_version.as_str(),
        actual.code(),
    );
    UrlStep::Found(url, actual)
}

/// The first step: ask for the requested format, where the track has a token.
pub open spec fn first_url(track: GwTrack, requested: TrackFormat) -> UrlModel {
    if has_token(track) {
        UrlModel::Ask(requested)
    } else {
        legacy_url(track, requested)
    }
}

/// The first step: ask for the requested format, where the track has a token.
pub fn first_url_step(track: &GwTrack, requested: TrackFormat) -> (r: UrlStep)
    ensures
        r.model() == first_url(*track, requested),
{
    if let Some(token) = &track.track_token {
        if text::chars_of(token.as_str()).len() > 0 {
            return UrlStep::Ask(requested);
        }
    }
    legacy_step(track, requested)
}

/// The step after the media server answered for the format `asked`: an answer
/// without a URL goes on to the next format down and, behind the last, to the
/// URL made from the MD5.
pub open spec fn next_url(
    track: GwTrack,
    requested: TrackFormat,
    asked: TrackFormat,
    answer: Option<Seq<char>>,
) -> UrlModel {
    match answer {
        Some(url) => UrlModel::Found(url, asked),
        None => match asked.next_down() {
            Some(lower) => UrlModel::Ask(lower),
            None => legacy_url(track, requested),
        },
    }
}

/// The step after the media server answered for the format `asked`.
pub fn next_url_step(
    track: &GwTrack,
    requested: TrackFormat,
    asked: TrackFormat,
    answer: Option<String>,
) -> (r: UrlStep)
    ensures
        r.model() == next_url(*track, requested, asked, json::text_view(answer)),
{
    match answer {
        Some(url) => UrlStep::Found(url, asked),
        None => match asked.fallback() {
            Some(lower) => UrlStep::Ask(lower),
            None => legacy_step(track, requested),
        },
    }
}

/// The format in which the steps end, if the media server answers `served`
/// formats with a URL and no others, from the step that asks for `asked`.
pub open spec fn served_format(
    track: GwTrack,
    requested: TrackFormat,
    asked: TrackFormat,
    served: spec_fn(TrackFormat) -> bool,
) -> TrackFormat
    decreases asked.order(),
{
    if served(asked) {
        asked
    } else {
        match asked.next_down() {
            Some(lower) => served_format(track, requested, lower, served),
            None => available(track, requested),
        }
    }
}

/// Whatever the media server answers, the format found is never above the
/// requested one; where it serves some format at or below the request, the
/// best of those is found.
pub proof fn served_format_is_the_best_served(
    track: GwTrack,
    requested: TrackFormat,
    served: spec_fn(TrackFormat) -> bool,
)
    ensures
        served_format(track, requested, requested, served).order() <= requested.order(),
        forall|f: TrackFormat|
            f.order() <= requested.order() && #[trigger] served(f) ==> {
                &&& served(served_format(track, requested, requested, served))
                &&& f.order() <= served_format(track, requested, requested, served).order()
            },
{
    reveal_with_fuel(served_format, 4);
    downloads_never_exceed_the_request(track, requested);
}

/// A downloaded track, decrypted.
#[derive(Debug, Clone, PartialEq)]
pub struct FetchedTrack {
    pub data: Vec<u8>,
}

/// How many zero bytes the data begins with.
pub open spec fn leading_zeros(data: Seq<u8>) -> nat
    decreases data.len(),
{
    if data.len() > 0 && data[0] == 0 {
        1 + leading_zeros(data.skip(1))
    } else {
        0
    }
}

/// Whether the data is an MP4 file, which begins with zeros of its own.
pub open spec fn is_mp4(data: Seq<u8>) -> bool {
    data.len() > 8 && data[4] == 'f' as u8 && data[5] == 't' as u8 && data[6] == 'y' as u8 && data[7]
        == 'p' as u8
}

/// The data without the zeros it is padded with at its start; an MP4 file, and
/// data that is nothing but zeros, stay as they are.
pub open spec fn depadded(data: Seq<u8>) -> Seq<u8> {
    if is_mp4(data) || leading_zeros(data) == data.len() {
        data
    } else {
        data.skip(leading_zeros(data) as int)
    }
}

/// Removes the zeros that data is padded with at its start.
pub fn strip_padding(data: Vec<u8>) -> (r: Vec<u8>)
    ensures
        r@ == depadded(data@),
{
    if data.len() > 8 && data[4] == 102 && data[5] == 116 && data[6] == 121 && data[7] == 112 {
        return data;
    }
    let mut start: usize = 0;
    proof {
        assert(data@.skip(0) =~= data@);
    }
    while start < data.len() && data[start] == 0
        invariant
            start <= data@.len(),
            leading_zeros(data@) == start + leading_zeros(data@.skip(start as int)),
        decreases data@.len() - start,
    {
        proof {
            assert(data@.skip(start as int).skip(1) =~= data@.skip(start as int + 1));
        }
        start = start + 1;
    }
    if start == data.len() {
        return data;
    }
    let mut rest: Vec<u8> = Vec::new();
    rest.extend_from_slice(vstd::slice::slice_subrange(data.as_slice(), start, data.len()));
    proof {
        assert(rest@ =~= data@.skip(start as int));
    }
    rest
}

/// What came back for the download of a track.
#[derive(Debug, PartialEq)]
pub enum DownloadReply {
    /// The server refused with this status and body.
    Refused { status: String, body: String },
    /// The whole body of the answer.
    Data(Vec<u8>),
}

/// What a download ends in: audio, or what went wrong.
pub enum AudioModel {
    Audio(Seq<u8>),
    Failure(Seq<char>),
}

/// What the reply to a download of a track amounts to.
pub open spec fn downloaded(reply: DownloadReply, sng_id: Seq<char>) -> AudioModel {
    match reply {
        DownloadReply::Refused { status, body } => AudioModel::Failure(
            "Download failed with status "@ + status@ + " for track "@ + sng_id + ": "@ + body@,
        ),
        DownloadReply::Data(data) => if data@.len() == 0 {
            AudioModel::Failure("Downloaded file is empty"@)
        } else {
            AudioModel::Audio(depadded(crypto::stream_plain(crypto::track_key(sng_id), data@)))
        },
    }
}

/// Turns the reply to a download into audio: decrypts it with the track's key
/// and strips the padding. A refusal and an empty body are errors.
pub fn finish_download(reply: DownloadReply, sng_id: &str) -> (r: Result<FetchedTrack, String>)
    ensures
        match downloaded(reply, sng_id@) {
            AudioModel::Audio(audio) => r matches Ok(fetched) && fetched.data@ == audio,
            AudioModel::Failure(e) => r matches Err(message) && message@ == e,
        },
{
    match reply {
        DownloadReply::Refused { status, body } => {
            let mut message = "Download failed with status ".to_owned();
            message.append(status.as_str());
            message.append(" for track ");
            message.append(sng_id);
            message.append(": ");
            message.append(body.as_str());
            Err(message)
        },
        DownloadReply::Data(data) => {
            if data.len() == 0 {
                return Err("Downloaded file is empty".to_owned());
            }
            let key = crypto::generate_blowfish_key(sng_id);
            let plain = crypto::decrypt_stream(data.as_slice(), key.as_slice());
            Ok(FetchedTrack { data: strip_padding(plain) })
        },
    }
}

/// Stripping padding leaves a tail of the data: it never removes anything but
/// zeros at the start, and never all of it.
pub proof fn padding_is_all_that_goes(data: Seq<u8>)
    ensures
        depadded(data).len() <= data.len(),
        data.skip(data.len() - depadded(data).len()) == depadded(data),
        forall|i: int| 0 <= i < data.len() - depadded(data).len() ==> data[i] == 0,
        data.len() > 0 ==> depadded(data).len() > 0,
        depadded(depadded(data)) == depadded(data) || is_mp4(depadded(data)),
{
    lemma_leading_zeros(data);
    assert(data.skip(0) =~= data);
    let n = leading_zeros(data);
    if !is_mp4(data) && n < data.len() {
        let rest = depadded(data);
        assert(rest[0] == data[n as int]);
        lemma_leading_zeros(rest);
        assert(leading_zeros(rest) == 0);
        assert(rest.skip(0) =~= rest);
    }
}

proof fn lemma_leading_zeros(data: Seq<u8>)
    ensures
        leading_zeros(data) <= data.len(),
        forall|i: int| 0 <= i < leading_zeros(data) ==> data[i] == 0,
        leading_zeros(data) < data.len() ==> data[leading_zeros(data) as int] != 0,
    decreases data.len(),
{
    if data.len() > 0 && data[0] == 0 {
        lemma_leading_zeros(data.skip(1));
        let rest = data.skip(1);
        assert forall|i: int| 0 <= i < leading_zeros(data) implies data[i] == 0 by {
            if i > 0 {
                assert(rest[i - 1] == 0);
            }
        }
    }
}

/// The format of a track in brackets, with a note where it is not the
/// requested one.
pub open spec fn annotation(track: GwTrack, format: TrackFormat) -> Seq<char> {
    let actual = available(track, format);
    if actual == format {
        "["@ + actual.label() + "]"@
    } else {
        "["@ + actual.label() + " — "@ + format.label() + " unavailable]"@
    }
}

/// The format of a track in brackets, with a note where it is not the
/// requested one.
pub fn format_annotation(track: &GwTrack, format: TrackFormat) -> (r: String)
    ensures
        r@ == annotation(*track, format),
{
    let actual = available_format(track, format);
    let mut s = "[".to_owned();
    s.append(actual.api_name());
    if actual == format {
        s.append("]");
    } else {
        s.append(" — ");
        s.append(format.api_name());
        s.append(" unavailable]");
    }
    s
}

/// The line of a track in a dry run.
pub open spec fn dry_run_label(track: GwTrack, options: DownloadOptions) -> Seq<char> {
    track.display_view() + (if options.preview_and_full {
        " [preview + full]"@
    } else if options.preview {
        " [preview]"@
    } else {
        " "@ + annotation(track, options.format)
    })
}

/// The line of a track in a dry run.
pub fn dry_run_track_label(track: &GwTrack, options: DownloadOptions) -> (r: String)
    ensures
        r@ == dry_run_label(*track, options),
{
    let mut s = track.display_name();
    if options.preview_and_full {
        s.append(" [preview + full]");
    } else if options.preview {
        s.append(" [preview]");
    } else {
        s.append(" ");
        s.append(format_annotation(track, options.format).as_str());
        proof {
            assert(s@ =~= dry_run_label(*track, options));
        }
    }
    s
}

/// Whether a format is below the minimum that was asked for.
pub open spec fn below_minimum(options: DownloadOptions, actual: TrackFormat) -> bool {
    match options.min_format {
        Some(min) => actual.order() < min.order(),
        None => false,
    }
}

/// What is said where a format is below the minimum.
pub open spec fn minimum_refusal(options: DownloadOptions, actual: TrackFormat) -> Seq<char> {
    "Requested "@ + options.format.label() + " but only "@ + actual.label()
        + " is available (below --min-quality "@ + options.min_format->0.label() + ")"@
}

/// Refuses a format below the minimum.
pub fn check_minimum(options: DownloadOptions, actual: TrackFormat) -> (r: Result<(), String>)
    ensures
        match r {
            Ok(_) => !below_minimum(options, actual),
            Err(message) => below_minimum(options, actual) && message@ == minimum_refusal(
                options,
                actual,
            ),
        },
{
    match options.min_format {
        Some(min) => {
            if actual.rank() < min.rank() {
                let mut message = "Requested ".to_owned();
                message.append(options.format.api_name());
                message.append(" but only ");
                message.append(actual.api_name());
                message.append(" is available (below --min-quality ");
                message.append(min.api_name());
                message.append(")");
                return Err(message);
            }
            Ok(())
        },
        None => Ok(()),
    }
}

/// The file name of a preview.
pub open spec fn preview_file(artist: Seq<char>, title: Seq<char>) -> Seq<char> {
    artist + " - "@ + title + " (preview).mp3"@
}

/// The file name of a full track.
pub open spec fn full_file(artist: Seq<char>, title: Seq<char>, format: TrackFormat) -> Seq<char> {
    artist + " - "@ + title + format.suffix()
}

/// The file name of a preview.
pub fn preview_file_name(artist: &str, title: &str) -> (r: String)
    ensures
        r@ == preview_file(artist@, title@),
{
    let mut s = artist.to_owned();
    s.append(" - ");
    s.append(title);
    s.append(" (preview).mp3");
    s
}

/// The file name of a full track.
pub fn full_file_name(artist: &str, title: &str, format: TrackFormat) -> (r: String)
    ensures
        r@ == full_file(artist@, title@, format),
{
    let mut s = artist.to_owned();
    s.append(" - ");
    s.append(title);
    s.append(format.extension());
    s
}

/// Whether a track can be downloaded at all: it has an ID, and a title that is
/// not empty as a file name.
pub open spec fn is_valid_track(track: GwTrack) -> bool {
    track.id_view() != "0"@ && files::sanitized(track.title_view()).len() > 0
}

/// The line for a file that is there already.
pub open spec fn skipped(file: Seq<char>) -> Seq<char> {
    "  [skip] "@ + file + " (already exists)"@
}

/// The line for a file that is there already.
pub fn skip_line(file: &str) -> (r: String)
    ensures
        r@ == skipped(file@),
{
    let mut s = "  [skip] ".to_owned();
    s.append(file);
    s.append(" (already exists)");
    s
}

/// A path with one more part; a part that begins with a slash stands alone.
pub open spec fn joined(base: Seq<char>, part: Seq<char>) -> Seq<char> {
    if part.len() > 0 && part[0] == '/' {
        part
    } else if base.len() == 0 || base.last() == '/' {
        base + part
    } else {
        base + "/"@ + part
    }
}

/// Adds a part to a path; a part that begins with a slash stands alone.
pub fn join_path(base: &str, part: &str) -> (r: String)
    ensures
        r@ == joined(base@, part@),
{
    let added = text::chars_of(part);
    if added.len() > 0 && added[0] == '/' {
        return part.to_owned();
    }
    let chars = text::chars_of(base);
    let mut s = base.to_owned();
    if chars.len() > 0 && chars[chars.len() - 1] != '/' {
        s.append("/");
    }
    s.append(part);
    s
}

/// Padding goes as a whole: the zeros before the first other byte, unless the
/// data is an MP4 file, which says so in its fifth to eighth byte. Data of zeros
/// alone stays.
pub proof fn padding_goes_as_a_whole(zeros: Seq<u8>, rest: Seq<u8>)
    requires
        forall|i: int| 0 <= i < zeros.len() ==> #[trigger] zeros[i] == 0,
        rest.len() > 0 ==> rest[0] != 0,
    ensures
        ({
            let data = zeros + rest;
            let mp4 = data.len() > 8 && data[4] == 102 && data[5] == 116 && data[6] == 121 && data[7]
                == 112;
            &&& mp4 ==> depadded(data) == data
            &&& !mp4 && rest.len() > 0 ==> depadded(data) == rest
            &&& rest.len() == 0 ==> depadded(data) == data
        }),
{
    let data = zeros + rest;
    lemma_leading_zeros(data);
    let n = leading_zeros(data) as int;
    if n < zeros.len() {
        assert(data[n] == zeros[n]);
    }
    if n > zeros.len() {
        assert(data[zeros.len() as int] == rest[0]);
    }
    assert(data.skip(zeros.len() as int) =~= rest);
}

/// A body that came for a download is audio: decrypted with the key of the track
/// that was asked for, and without its padding. Nothing, and a refusal, are
/// failures.
pub proof fn bodies_become_audio(reply: DownloadReply, sng_id: Seq<char>)
    ensures
        reply is Refused ==> downloaded(reply, sng_id) is Failure,
        reply matches DownloadReply::Data(data) ==> (downloaded(reply, sng_id) is Failure
            <==> data@.len() == 0),
        reply matches DownloadReply::Data(data) ==> data@.len() > 0 ==> downloaded(reply, sng_id)
            == AudioModel::Audio(
            depadded(crypto::stream_plain(crypto::track_key(sng_id), data@)),
        ),
{
}

/// Without the media server a track with an MD5 is served under the URL that its
/// ID, its MD5 and its version make, in the best format with a size at or below
/// the request. One without an MD5 cannot be downloaded.
pub proof fn legacy_urls_need_an_md5(track: GwTrack, requested: TrackFormat)
    ensures
        track.md5_origin is None || track.md5_origin->0@.len() == 0 ==> legacy_url(
            track,
            requested,
        ) is Fail,
        track.md5_origin is Some && track.md5_origin->0@.len() > 0 && track.media_version is None
            ==> legacy_url(track, requested) == UrlModel::Found(
            crypto::stream_url(
                track.id_view(),
                track.md5_origin->0@,
                "1"@,
                match available(track, requested) {
                    TrackFormat::Flac => 9nat,
                    TrackFormat::Mp3_320 => 3nat,
                    TrackFormat::Mp3_128 => 1nat,
                },
            ),
            available(track, requested),
        ),
{
    reveal_strlit("");
}

/// Formats are tried from the request down: without a URL for one, the next one
/// down is asked for, and behind the last there is the URL made from the MD5. A
/// URL that comes is taken, for the format that it was asked in.
pub proof fn formats_are_tried_from_the_request_down(
    track: GwTrack,
    requested: TrackFormat,
    url: Seq<char>,
)
    ensures
        next_url(track, requested, TrackFormat::Flac, None) == UrlModel::Ask(TrackFormat::Mp3_320),
        next_url(track, requested, TrackFormat::Mp3_320, None) == UrlModel::Ask(
            TrackFormat::Mp3_128,
        ),
        next_url(track, requested, TrackFormat::Mp3_128, None) == legacy_url(track, requested),
        next_url(track, requested, requested, Some(url)) == UrlModel::Found(url, requested),
        track.track_token is Some && track.track_token->0@.len() > 0 ==> first_url(track, requested)
            == UrlModel::Ask(requested),
        track.track_token is None ==> first_url(track, requested) == legacy_url(track, requested),
{
}

/// A minimum is a lower bound that is itself allowed.
pub proof fn the_minimum_itself_is_enough(options: DownloadOptions, actual: TrackFormat)
    ensures
        options.min_format is None ==> !below_minimum(options, actual),
        options.min_format == Some(actual) ==> !below_minimum(options, actual),
        options.min_format == Some(TrackFormat::Flac) && actual != TrackFormat::Flac
            ==> below_minimum(options, actual),
        options.min_format == Some(TrackFormat::Mp3_320) ==> (below_minimum(options, actual)
            <==> actual == TrackFormat::Mp3_128),
        options.min_format == Some(TrackFormat::Mp3_128) ==> !below_minimum(options, actual),
{
}

/// A part goes behind a path with one slash between them, whether the path ends
/// with one or not. A part that starts at the root stands alone.
pub proof fn parts_are_joined_by_one_slash(base: Seq<char>, part: Seq<char>)
    requires
        base.len() > 0,
        base.last() != '/',
    ensures
        part.len() > 0 && part[0] == '/' ==> joined(base, part) == part,
        !(part.len() > 0 && part[0] == '/') ==> joined(base, part) == base.push('/') + part
            && joined(base.push('/'), part) == base.push('/') + part && joined(Seq::empty(), part)
            == part,
{
    reveal_strlit("/");
    assert(base + "/"@ + part =~= base.push('/') + part);
    assert(Seq::<char>::empty() + part =~= part);
}

/// The note on a format says which one the track comes in, and which was
/// requested where that is another.
pub proof fn notes_name_the_format(track: GwTrack, format: TrackFormat)
    ensures
        available(track, format) == format ==> annotation(track, format) == "["@ + format.label()
            + "]"@,
        available(track, format) != format ==> annotation(track, format) == "["@ + available(
            track,
            format,
        ).label() + " — "@ + format.label() + " unavailable]"@,
{
}

/// Two texts that differ in the case of ASCII letters alone are the same, and no
/// others are.
pub proof fn case_alone_makes_no_difference(a: Seq<char>, b: Seq<char>)
    ensures
        same_ascii(a, b) <==> a.len() == b.len() && forall|i: int|
            0 <= i < a.len() ==> (#[trigger] a[i] == b[i] || (65 <= a[i] as int <= 90 && b[i] as int
                == a[i] as int + 32) || (97 <= a[i] as int <= 122 && b[i] as int == a[i] as int
                - 32)),
{
    let x = a.map_values(|c: char| text::ascii_lower(c));
    let y = b.map_values(|c: char| text::ascii_lower(c));
    if same_ascii(a, b) {
        assert(x.len() == a.len() && y.len() == b.len());
        assert forall|i: int| 0 <= i < a.len() implies (#[trigger] a[i] == b[i] || (65
            <= a[i] as int <= 90 && b[i] as int == a[i] as int + 32) || (97 <= a[i] as int <= 122
            && b[i] as int == a[i] as int - 32)) by {
            assert(x[i] == text::ascii_lower(a[i]));
            assert(y[i] == text::ascii_lower(b[i]));
        }
    }
    if a.len() == b.len() && forall|i: int|
        0 <= i < a.len() ==> (#[trigger] a[i] == b[i] || (65 <= a[i] as int <= 90 && b[i] as int
            == a[i] as int + 32) || (97 <= a[i] as int <= 122 && b[i] as int == a[i] as int - 32)) {
        assert forall|i: int| 0 <= i < x.len() implies x[i] == y[i] by {
            assert(a[i] == a[i]);
        }
        assert(x =~= y);
    }
}

/// A dry run says what would be fetched: preview and track, the preview alone, or
/// the track and its format.
pub proof fn dry_runs_say_what_is_fetched(track: GwTrack, options: DownloadOptions)
    ensures
        options.preview_and_full ==> dry_run_label(track, options) == track.display_view()
            + " [preview + full]"@,
        options.preview && !options.preview_and_full ==> dry_run_label(track, options)
            == track.display_view() + " [preview]"@,
        !options.preview && !options.preview_and_full ==> dry_run_label(track, options)
            == track.display_view() + (" "@ + annotation(track, options.format)),
{
}

/// A track can be downloaded exactly where it has an ID other than 0 and a title
/// that leaves something for a file name.
pub proof fn tracks_need_an_id_and_a_title(track: GwTrack)
    ensures
        track.id_view() == "0"@ ==> !is_valid_track(track),
        files::sanitized(track.title_view()).len() == 0 ==> !is_valid_track(track),
        track.id_view() != "0"@ && files::sanitized(track.title_view()).len() > 0
            ==> is_valid_track(track),
{
}

/// A refusal for the quality names what was requested, what there is, and what
/// was asked for at least.
pub proof fn refusals_name_all_formats(
    options: DownloadOptions,
    actual: TrackFormat,
    min: TrackFormat,
)
    requires
        options.min_format == Some(min),
    ensures
        minimum_refusal(options, actual) == "Requested "@ + options.format.label() + " but only "@
            + actual.label() + " is available (below --min-quality "@ + min.label() + ")"@,
{
}

} // verus!
