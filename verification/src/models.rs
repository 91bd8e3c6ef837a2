//! The catalogue: tracks, albums, playlists, users and audio formats.

use vstd::prelude::*;

use crate::json;
use crate::json::{Json, Member};
use crate::text;

verus! {

/// An audio format, from lossless down.
#[derive(Debug, Clone, Copy, PartialEq, Eq, Structural)]
pub enum TrackFormat {
    Flac,
    Mp3_320,
    Mp3_128,
}

impl TrackFormat {
    /// The numeric code of the format in stream paths.
    pub fn code(&self) -> (r: u32)
        ensures
            r == self.code_number(),
    {
        match self {
            TrackFormat::Flac => 9,
            TrackFormat::Mp3_320 => 3,
            TrackFormat::Mp3_128 => 1,
        }
    }

    /// The numeric code of the format in stream paths.
    pub open spec fn code_number(self) -> nat {
        match self {
            TrackFormat::Flac => 9,
            TrackFormat::Mp3_320 => 3,
            TrackFormat::Mp3_128 => 1,
        }
    }

    /// The name of the format in the API and in messages.
    pub open spec fn label(self) -> Seq<char> {
        match self {
            TrackFormat::Flac => "FLAC"@,
            TrackFormat::Mp3_320 => "MP3_320"@,
            TrackFormat::Mp3_128 => "MP3_128"@,
        }
    }

    /// The name of the format in the API and in messages.
    pub fn api_name(&self) -> (r: &'static str)
        ensures
            r@ == self.label(),
    {
        match self {
            TrackFormat::Flac => "FLAC",
            TrackFormat::Mp3_320 => "MP3_320",
            TrackFormat::Mp3_128 => "MP3_128",
        }
    }

    /// The extension of files in this format, with its dot.
    pub open spec fn suffix(self) -> Seq<char> {
        match self {
            TrackFormat::Flac => ".flac"@,
            _ => ".mp3"@,
        }
    }

    /// The extension of files in this format, with its dot.
    pub fn extension(&self) -> (r: &'static str)
        ensures
            r@ == self.suffix(),
    {
        match self {
            TrackFormat::Flac => ".flac",
            TrackFormat::Mp3_320 | TrackFormat::Mp3_128 => ".mp3",
        }
    }

    /// The next format down.
    pub open spec fn next_down(self) -> Option<TrackFormat> {
        match self {
            TrackFormat::Flac => Some(TrackFormat::Mp3_320),
            TrackFormat::Mp3_320 => Some(TrackFormat::Mp3_128),
            TrackFormat::Mp3_128 => None,
        }
    }

    /// The next format down, to try where this one is not available.
    pub fn fallback(&self) -> (r: Option<TrackFormat>)
        ensures
            r == self.next_down(),
    {
        match self {
            TrackFormat::Flac => Some(TrackFormat::Mp3_320),
            TrackFormat::Mp3_320 => Some(TrackFormat::Mp3_128),
            TrackFormat::Mp3_128 => None,
        }
    }

    /// The place of the format among the others: 3 is the best.
    pub open spec fn order(self) -> nat {
        match self {
            TrackFormat::Flac => 3,
            TrackFormat::Mp3_320 => 2,
            TrackFormat::Mp3_128 => 1,
        }
    }

    /// The place of the format among the others: 3 is the best.
    pub fn rank(self) -> (r: u8)
        ensures
            r == self.order(),
    {
        match self {
            TrackFormat::Flac => 3,
            TrackFormat::Mp3_320 => 2,
            TrackFormat::Mp3_128 => 1,
        }
    }

    /// The lower of two formats.
    pub open spec fn lower_of(self, max: TrackFormat) -> TrackFormat {
        if self.order() > max.order() {
            max
        } else {
            self
        }
    }

    /// This format, or `max` where this one is better.
    pub fn capped_by(self, max: TrackFormat) -> (r: TrackFormat)
        ensures
            r == self.lower_of(max),
    {
        if self.rank() > max.rank() {
            max
        } else {
            self
        }
    }
}

/// A track as the gateway describes it. IDs, sizes and lengths come as numbers
/// or as texts, so they are kept as they came.
#[derive(Debug, PartialEq)]
pub struct GwTrack {
    pub sng_id: Json,
    pub sng_title: Option<String>,
    pub duration: Option<Json>,
    pub md5_origin: Option<String>,
    pub media_version: Option<Json>,
    pub art_name: Option<String>,
    pub art_id: Option<Json>,
    pub alb_title: Option<String>,
    pub alb_picture: Option<String>,
    pub alb_id: Option<Json>,
    pub track_number: Option<Json>,
    pub disk_number: Option<Json>,
    pub track_token: Option<String>,
    pub track_token_expire: Option<Json>,
    pub isrc: Option<String>,
    pub filesize_mp3_128: Option<Json>,
    pub filesize_mp3_320: Option<Json>,
    pub filesize_flac: Option<Json>,
    pub filesize_mp3_misc: Option<Json>,
    pub explicit_lyrics: Option<Json>,
    pub gain: Option<Json>,
    pub artists: Option<Vec<Json>>,
    pub lyrics: Option<Json>,
    pub fallback: Option<Json>,
    pub version: Option<String>,
    pub position: Option<Json>,
}

/// An optional array as a value: nothing is `null`.
pub open spec fn list_or_null(items: Option<Vec<Json>>) -> json::JsonModel {
    match items {
        Some(items) => json::JsonModel::Array(json::items_model(items@)),
        None => json::JsonModel::Null,
    }
}

/// The text, or `default` where there is none.
pub open spec fn text_or(s: Option<Seq<char>>, default: Seq<char>) -> Seq<char> {
    match s {
        Some(s) => s,
        None => default,
    }
}

/// The written form of an optional value, or `default`.
pub open spec fn written_or(v: Option<json::JsonModel>, default: Seq<char>) -> Seq<char> {
    match v {
        Some(v) => text_or(json::written(v), default),
        None => default,
    }
}

/// The amount that an optional value states as a number or in digits; 0 where
/// it states none.
pub open spec fn amount(v: Option<json::JsonModel>) -> nat {
    match v {
        Some(json::JsonModel::Unsigned(n)) => n,
        Some(json::JsonModel::Text(s)) => match text::number_in(s, u64::MAX as nat) {
            Some(n) => n,
            None => 0,
        },
        _ => 0,
    }
}

/// The text, or `default` where there is none.
pub fn or_default(s: &Option<String>, default: &str) -> (r: String)
    ensures
        r@ == text_or(json::text_view(*s), default@),
{
    match s {
        Some(s) => s.clone(),
        None => default.to_owned(),
    }
}

/// The written form of an optional value, or `default`.
pub fn write_or(v: &Option<Json>, default: &str) -> (r: String)
    ensures
        r@ == written_or(json::value_view(*v), default@),
{
    match v {
        Some(v) => match v.write_out() {
            Some(s) => s,
            None => default.to_owned(),
        },
        None => default.to_owned(),
    }
}

/// The amount that an optional value states, or 0.
pub fn read_amount(v: &Option<Json>) -> (r: u64)
    ensures
        r == amount(json::value_view(*v)),
{
    match v {
        Some(Json::Unsigned(n)) => *n,
        Some(Json::Text(s)) => match text::parse_number(s.as_str(), u64::MAX) {
            Some(n) => n,
            None => 0,
        },
        _ => 0,
    }
}

impl GwTrack {
    /// A track of which only the ID is known.
    pub fn new(sng_id: Json) -> (r: GwTrack)
        ensures
            r.sng_id == sng_id,
            r.sng_title is None && r.art_name is None && r.duration is None && r.track_token is None,
            r.filesize_flac is None && r.filesize_mp3_320 is None && r.filesize_mp3_128 is None,
            r.json_model() == json::JsonModel::Object(
                bare_members(sng_id.model()),
            ),
    {
        let r = GwTrack {
            sng_id,
            sng_title: None,
            duration: None,
            md5_origin: None,
            media_version: None,
            art_name: None,
            art_id: None,
            alb_title: None,
            alb_picture: None,
            alb_id: None,
            track_number: None,
            disk_number: None,
            track_token: None,
            track_token_expire: None,
            isrc: None,
            filesize_mp3_128: None,
            filesize_mp3_320: None,
            filesize_flac: None,
            filesize_mp3_misc: None,
            explicit_lyrics: None,
            gain: None,
            artists: None,
            lyrics: None,
            fallback: None,
            version: None,
            position: None,
        };
        proof {
            assert(r.json_model()->Object_0 =~= bare_members(sng_id.model()));
        }
        r
    }

    /// The ID of the track, `0` where it has none.
    pub open spec fn id_view(self) -> Seq<char> {
        text_or(json::written(self.sng_id.model()), "0"@)
    }

    /// The title, empty where it has none.
    pub open spec fn title_view(self) -> Seq<char> {
        text_or(json::text_view(self.sng_title), ""@)
    }

    /// The artist, `Unknown` where none is named.
    pub open spec fn artist_view(self) -> Seq<char> {
        text_or(json::text_view(self.art_name), "Unknown"@)
    }

    /// Artist and title.
    pub open spec fn display_view(self) -> Seq<char> {
        self.artist_view() + " - "@ + self.title_view()
    }

    /// The size that is reported for a format, 0 where none is.
    pub open spec fn size_of(self, format: TrackFormat) -> nat {
        amount(
            json::value_view(
                match format {
                    TrackFormat::Flac => self.filesize_flac,
                    TrackFormat::Mp3_320 => self.filesize_mp3_320,
                    TrackFormat::Mp3_128 => self.filesize_mp3_128,
                },
            ),
        )
    }

    /// The length in seconds, 0 where it is not known.
    pub open spec fn seconds(self) -> nat {
        amount(json::value_view(self.duration))
    }

    /// The ID of the track, `0` where it has none.
    pub fn id_str(&self) -> (r: String)
        ensures
            r@ == self.id_view(),
    {
        match self.sng_id.write_out() {
            Some(s) => s,
            None => "0".to_owned(),
        }
    }

    /// The title, empty where it has none.
    pub fn title(&self) -> (r: String)
        ensures
            r@ == self.title_view(),
    {
        or_default(&self.sng_title, "")
    }

    /// The artist, `Unknown` where none is named.
    pub fn artist(&self) -> (r: String)
        ensures
            r@ == self.artist_view(),
    {
        or_default(&self.art_name, "Unknown")
    }

    /// The album title, empty where it has none.
    pub fn album(&self) -> (r: String)
        ensures
            r@ == text_or(json::text_view(self.alb_title), ""@),
    {
        or_default(&self.alb_title, "")
    }

    /// The MD5 of the original file, empty where none is given.
    pub fn md5(&self) -> (r: String)
        ensures
            r@ == text_or(json::text_view(self.md5_origin), ""@),
    {
        or_default(&self.md5_origin, "")
    }

    /// The version of the media, `1` where none is given.
    pub fn media_ver(&self) -> (r: String)
        ensures
            r@ == written_or(json::value_view(self.media_version), "1"@),
    {
        write_or(&self.media_version, "1")
    }

    /// Artist and title.
    pub fn display_name(&self) -> (r: String)
        ensures
            r@ == self.display_view(),
    {
        let mut s = self.artist();
        s.append(" - ");
        s.append(self.title().as_str());
        s
    }

    /// The size that is reported for a format, 0 where none is.
    pub fn filesize_for_format(&self, format: TrackFormat) -> (r: u64)
        ensures
            r == self.size_of(format),
    {
        match format {
            TrackFormat::Flac => read_amount(&self.filesize_flac),
            TrackFormat::Mp3_320 => read_amount(&self.filesize_mp3_320),
            TrackFormat::Mp3_128 => read_amount(&self.filesize_mp3_128),
        }
    }

    /// The length in seconds, 0 where it is not known.
    pub fn duration_secs(&self) -> (r: u64)
        ensures
            r == self.seconds(),
    {
        read_amount(&self.duration)
    }

    /// The members of the track's JSON object, under the gateway's names.
    pub open spec fn json_members(self) -> Seq<(Seq<char>, json::JsonModel)> {
        seq![
                ("SNG_ID"@, self.sng_id.model()),
                ("SNG_TITLE"@, json::text_or_null(json::text_view(self.sng_title))),
                ("DURATION"@, json::or_null(json::value_view(self.duration))),
                ("MD5_ORIGIN"@, json::text_or_null(json::text_view(self.md5_origin))),
                ("MEDIA_VERSION"@, json::or_null(json::value_view(self.media_version))),
                ("ART_NAME"@, json::text_or_null(json::text_view(self.art_name))),
                ("ART_ID"@, json::or_null(json::value_view(self.art_id))),
                ("ALB_TITLE"@, json::text_or_null(json::text_view(self.alb_title))),
                ("ALB_PICTURE"@, json::text_or_null(json::text_view(self.alb_picture))),
                ("ALB_ID"@, json::or_null(json::value_view(self.alb_id))),
                ("TRACK_NUMBER"@, json::or_null(json::value_view(self.track_number))),
                ("DISK_NUMBER"@, json::or_null(json::value_view(self.disk_number))),
                ("TRACK_TOKEN"@, json::text_or_null(json::text_view(self.track_token))),
                ("TRACK_TOKEN_EXPIRE"@, json::or_null(json::value_view(self.track_token_expire))),
                ("ISRC"@, json::text_or_null(json::text_view(self.isrc))),
                ("FILESIZE_MP3_128"@, json::or_null(json::value_view(self.filesize_mp3_128))),
                ("FILESIZE_MP3_320"@, json::or_null(json::value_view(self.filesize_mp3_320))),
                ("FILESIZE_FLAC"@, json::or_null(json::value_view(self.filesize_flac))),
                ("FILESIZE_MP3_MISC"@, json::or_null(json::value_view(self.filesize_mp3_misc))),
                ("EXPLICIT_LYRICS"@, json::or_null(json::value_view(self.explicit_lyrics))),
                ("GAIN"@, json::or_null(json::value_view(self.gain))),
                ("ARTISTS"@, list_or_null(self.artists)),
                ("LYRICS"@, json::or_null(json::value_view(self.lyrics))),
                ("FALLBACK"@, json::or_null(json::value_view(self.fallback))),
                ("VERSION"@, json::text_or_null(json::text_view(self.version))),
                ("POSITION"@, json::or_null(json::value_view(self.position))),
        ]
    }

    /// The track as a JSON object under the gateway's names.
    pub open spec fn json_model(self) -> json::JsonModel {
        json::JsonModel::Object(self.json_members())
    }

    /// The members of the track's JSON object, under the gateway's names.
    pub fn into_members(self) -> (r: Vec<Member>)
        ensures
            json::members_model(r@) == self.json_members(),
    {
        let mut m: Vec<Member> = Vec::new();
        proof {
            assert(json::members_model(m@) =~= Seq::empty());
        }
        json::push_member(&mut m, "SNG_ID", self.sng_id);
        json::push_text(&mut m, "SNG_TITLE", self.sng_title);
        json::push_value(&mut m, "DURATION", self.duration);
        json::push_text(&mut m, "MD5_ORIGIN", self.md5_origin);
        json::push_value(&mut m, "MEDIA_VERSION", self.media_version);
        json::push_text(&mut m, "ART_NAME", self.art_name);
        json::push_value(&mut m, "ART_ID", self.art_id);
        json::push_text(&mut m, "ALB_TITLE", self.alb_title);
        json::push_text(&mut m, "ALB_PICTURE", self.alb_picture);
        json::push_value(&mut m, "ALB_ID", self.alb_id);
        json::push_value(&mut m, "TRACK_NUMBER", self.track_number);
        json::push_value(&mut m, "DISK_NUMBER", self.disk_number);
        json::push_text(&mut m, "TRACK_TOKEN", self.track_token);
        json::push_value(&mut m, "TRACK_TOKEN_EXPIRE", self.track_token_expire);
        json::push_text(&mut m, "ISRC", self.isrc);
        json::push_value(&mut m, "FILESIZE_MP3_128", self.filesize_mp3_128);
        json::push_value(&mut m, "FILESIZE_MP3_320", self.filesize_mp3_320);
        json::push_value(&mut m, "FILESIZE_FLAC", self.filesize_flac);
        json::push_value(&mut m, "FILESIZE_MP3_MISC", self.filesize_mp3_misc);
        json::push_value(&mut m, "EXPLICIT_LYRICS", self.explicit_lyrics);
        json::push_value(&mut m, "GAIN", self.gain);
        match self.artists {
            Some(items) => {
                let list = Json::Array(items);
                proof {
                    json::lemma_model_parts(list);
                }
                json::push_member(&mut m, "ARTISTS", list);
            },
            None => json::push_member(&mut m, "ARTISTS", Json::Null),
        }
        json::push_value(&mut m, "LYRICS", self.lyrics);
        json::push_value(&mut m, "FALLBACK", self.fallback);
        json::push_text(&mut m, "VERSION", self.version);
        json::push_value(&mut m, "POSITION", self.position);
        proof {
            assert(json::members_model(m@) =~= self.json_members());
        }
        m
    }
}

/// The members of a track of which only the ID is known.
pub open spec fn bare_members(sng_id: json::JsonModel) -> Seq<(Seq<char>, json::JsonModel)> {
    seq![
        ("SNG_ID"@, sng_id),
        ("SNG_TITLE"@, json::JsonModel::Null),
        ("DURATION"@, json::JsonModel::Null),
        ("MD5_ORIGIN"@, json::JsonModel::Null),
        ("MEDIA_VERSION"@, json::JsonModel::Null),
        ("ART_NAME"@, json::JsonModel::Null),
        ("ART_ID"@, json::JsonModel::Null),
        ("ALB_TITLE"@, json::JsonModel::Null),
        ("ALB_PICTURE"@, json::JsonModel::Null),
        ("ALB_ID"@, json::JsonModel::Null),
        ("TRACK_NUMBER"@, json::JsonModel::Null),
        ("DISK_NUMBER"@, json::JsonModel::Null),
        ("TRACK_TOKEN"@, json::JsonModel::Null),
        ("TRACK_TOKEN_EXPIRE"@, json::JsonModel::Null),
        ("ISRC"@, json::JsonModel::Null),
        ("FILESIZE_MP3_128"@, json::JsonModel::Null),
        ("FILESIZE_MP3_320"@, json::JsonModel::Null),
        ("FILESIZE_FLAC"@, json::JsonModel::Null),
        ("FILESIZE_MP3_MISC"@, json::JsonModel::Null),
        ("EXPLICIT_LYRICS"@, json::JsonModel::Null),
        ("GAIN"@, json::JsonModel::Null),
        ("ARTISTS"@, json::JsonModel::Null),
        ("LYRICS"@, json::JsonModel::Null),
        ("FALLBACK"@, json::JsonModel::Null),
        ("VERSION"@, json::JsonModel::Null),
        ("POSITION"@, json::JsonModel::Null),
    ]
}

/// A playlist as the gateway describes it.
#[derive(Debug, PartialEq)]
pub struct PlaylistInfo {
    pub playlist_id: Option<Json>,
    pub title: Option<String>,
    pub nb_song: Option<Json>,
    pub parent_username: Option<String>,
    pub playlist_picture: Option<String>,
}

impl PlaylistInfo {
    /// The ID of the playlist, `0` where it has none.
    pub fn id_str(&self) -> (r: String)
        ensures
            r@ == written_or(json::value_view(self.playlist_id), "0"@),
    {
        write_or(&self.playlist_id, "0")
    }

    /// The title of the playlist.
    pub fn display_name(&self) -> (r: String)
        ensures
            r@ == text_or(json::text_view(self.title), "Unknown Playlist"@),
    {
        or_default(&self.title, "Unknown Playlist")
    }
}

/// An album as the gateway describes it.
#[derive(Debug, PartialEq)]
pub struct AlbumInfo {
    pub alb_id: Option<Json>,
    pub alb_title: Option<String>,
    pub art_name: Option<String>,
    pub nb_tracks: Option<Json>,
    pub is_official: Option<bool>,
    pub album_type: Option<Json>,
}

impl AlbumInfo {
    /// The ID of the album, `0` where it has none.
    pub fn id_str(&self) -> (r: String)
        ensures
            r@ == written_or(json::value_view(self.alb_id), "0"@),
    {
        write_or(&self.alb_id, "0")
    }

    /// The title of the album.
    pub open spec fn title_view(self) -> Seq<char> {
        text_or(json::text_view(self.alb_title), "Unknown Album"@)
    }

    /// The title of the album.
    pub fn title_or_unknown(&self) -> (r: String)
        ensures
            r@ == self.title_view(),
    {
        or_default(&self.alb_title, "Unknown Album")
    }
}

/// An artist that the user follows.
#[derive(Debug, Clone, PartialEq)]
pub struct FollowedArtist {
    pub id: u64,
    pub name: String,
    pub nb_album: u64,
    pub best_quality: Option<String>,
}

/// What the user's licence allows.
#[derive(Debug, Clone, PartialEq)]
pub struct UserOptions {
    pub license_token: Option<String>,
    pub web_hq: Option<bool>,
    pub mobile_hq: Option<bool>,
    pub web_lossless: Option<bool>,
    pub mobile_lossless: Option<bool>,
    pub license_country: Option<String>,
}

/// The logged-in user.
#[derive(Debug, Clone, PartialEq)]
pub struct CurrentUser {
    pub id: u64,
    pub name: String,
    pub license_token: String,
}

/// The user as the gateway describes them.
#[derive(Debug, PartialEq)]
pub struct UserInfo {
    pub user_id: Json,
    pub blog_name: Option<String>,
    pub user_picture: Option<String>,
    pub options: Option<UserOptions>,
    pub setting: Option<Json>,
    pub loved_tracks_id: Option<Json>,
}

/// The answer of the gateway to a request for the user's data.
#[derive(Debug, PartialEq)]
pub struct UserData {
    pub user: UserInfo,
    pub check_form: Option<String>,
    pub check_form_login: Option<String>,
}

/// The answer of the gateway to any call.
#[derive(Debug, PartialEq)]
pub struct GwResponse {
    pub error: Json,
    pub results: Json,
}

/// The answer of the media server: one entry for each requested track.
#[derive(Debug, Clone, PartialEq)]
pub struct MediaResponse {
    pub data: Vec<MediaData>,
}

/// The media of one track, or the errors that kept it back.
#[derive(Debug, Clone, PartialEq)]
pub struct MediaData {
    pub media: Option<Vec<MediaInfo>>,
    pub errors: Option<Vec<MediaError>>,
}

/// One encoding of a track.
#[derive(Debug, Clone, PartialEq)]
pub struct MediaInfo {
    pub sources: Vec<MediaSource>,
}

/// One place an encoding is served from.
#[derive(Debug, Clone, PartialEq)]
pub struct MediaSource {
    pub url: String,
}

/// An error of the media server.
#[derive(Debug, Clone, PartialEq)]
pub struct MediaError {
    pub code: i64,
    pub message: Option<String>,
}

/// Capping never raises a format and never leaves it above the cap; a format
/// already within the cap is kept.
pub proof fn capping_stays_within_both(format: TrackFormat, max: TrackFormat)
    ensures
        format.lower_of(max).order() <= format.order(),
        format.lower_of(max).order() <= max.order(),
        format.order() <= max.order() ==> format.lower_of(max) == format,
        format.lower_of(max).lower_of(max) == format.lower_of(max),
{
}

/// Each fallback is one rank below, so the chain ends and never goes up.
pub proof fn fallback_goes_one_rank_down(format: TrackFormat)
    ensures
        match format.next_down() {
            Some(lower) => lower.order() + 1 == format.order(),
            None => format.order() == 1,
        },
{
}

/// Sizes and lengths are read from a number or from its digits alike, up to the
/// largest that fits, and everything else counts as nothing.
pub proof fn amounts_read_numbers_and_digits(n: nat)
    requires
        n <= u64::MAX,
    ensures
        amount(Some(json::JsonModel::Unsigned(n))) == n,
        amount(Some(json::JsonModel::Text(text::decimal(n)))) == n,
        amount(Some(json::JsonModel::Null)) == 0,
        amount(None) == 0,
{
    text::decimal_reads_back(n, u64::MAX as nat);
}

/// A track goes by its own ID, title and artist: a number is written in decimal
/// and a text stays, and what is missing is `0`, nothing and `Unknown`.
pub proof fn tracks_go_by_their_own_names(track: GwTrack, n: nat, s: Seq<char>)
    ensures
        track.sng_id.model() == json::JsonModel::Unsigned(n) ==> track.id_view() == text::decimal(n),
        track.sng_id.model() == json::JsonModel::Text(s) ==> track.id_view() == s,
        track.sng_id.model() == json::JsonModel::Null ==> track.id_view() == "0"@,
        track.sng_title is Some ==> track.title_view() == track.sng_title->0@,
        track.sng_title is None ==> track.title_view() == ""@,
        track.art_name is Some ==> track.artist_view() == track.art_name->0@,
        track.art_name is None ==> track.artist_view() == "Unknown"@,
        track.sng_title is Some && track.art_name is Some ==> track.display_view()
            == track.art_name->0@ + " - "@ + track.sng_title->0@,
{
}

/// The size of a format is the one that the gateway reports for that format, and
/// the length the one that it reports for the track.
pub proof fn sizes_are_those_reported(track: GwTrack, n: nat)
    ensures
        track.filesize_flac is Some && track.filesize_flac->0.model()
            == json::JsonModel::Unsigned(n) ==> track.size_of(TrackFormat::Flac) == n,
        track.filesize_mp3_320 is Some && track.filesize_mp3_320->0.model()
            == json::JsonModel::Unsigned(n) ==> track.size_of(TrackFormat::Mp3_320) == n,
        track.filesize_mp3_128 is Some && track.filesize_mp3_128->0.model()
            == json::JsonModel::Unsigned(n) ==> track.size_of(TrackFormat::Mp3_128) == n,
        track.duration is Some && track.duration->0.model() == json::JsonModel::Unsigned(n)
            ==> track.seconds() == n,
        track.filesize_flac is None ==> track.size_of(TrackFormat::Flac) == 0,
        track.filesize_mp3_320 is None ==> track.size_of(TrackFormat::Mp3_320) == 0,
        track.filesize_mp3_128 is None ==> track.size_of(TrackFormat::Mp3_128) == 0,
        track.duration is None ==> track.seconds() == 0,
{
}

/// A track is printed under the names of the gateway: what came is there as it
/// came, and what is missing as null.
pub proof fn tracks_are_printed_as_they_came(track: GwTrack)
    ensures
        ({
            let members = track.json_members();
            &&& members.len() == 26
            &&& members[0] == ("SNG_ID"@, track.sng_id.model())
            &&& track.sng_title is Some ==> members[1] == (
                "SNG_TITLE"@,
                json::JsonModel::Text(track.sng_title->0@),
            )
            &&& track.sng_title is None ==> members[1] == ("SNG_TITLE"@, json::JsonModel::Null)
            &&& track.duration is Some ==> members[2] == ("DURATION"@, track.duration->0.model())
            &&& track.art_name is Some ==> members[5] == (
                "ART_NAME"@,
                json::JsonModel::Text(track.art_name->0@),
            )
            &&& track.art_id is Some ==> members[6] == ("ART_ID"@, track.art_id->0.model())
            &&& track.alb_title is Some ==> members[7] == (
                "ALB_TITLE"@,
                json::JsonModel::Text(track.alb_title->0@),
            )
            &&& track.filesize_mp3_128 is Some ==> members[15] == (
                "FILESIZE_MP3_128"@,
                track.filesize_mp3_128->0.model(),
            )
            &&& track.filesize_mp3_320 is Some ==> members[16] == (
                "FILESIZE_MP3_320"@,
                track.filesize_mp3_320->0.model(),
            )
            &&& track.filesize_flac is Some ==> members[17] == (
                "FILESIZE_FLAC"@,
                track.filesize_flac->0.model(),
            )
        }),
{
}

} // verus!
