//! What is shown instead of a download: the effective defaults, headers and
//! JSON documents.

use vstd::prelude::*;

use crate::cli;
use crate::cli::{OutputFormat, SortDir, SortKey};
use crate::download;
use crate::json;
use crate::json::{Json, Member};
use crate::models::{FollowedArtist, GwTrack, TrackFormat};
use crate::report;
use crate::report::Line;
use crate::resolve;
use crate::text;
use crate::track::DownloadOptions;

verus! {

/// How many results a search shows where nothing else is asked for.
pub const DEFAULT_LIMIT: u32 = 10;

/// The settings as they were given, and where they may come from.
#[derive(Debug)]
pub struct GivenSettings {
    /// The requested quality.
    pub quality: String,
    /// The exact quality asked for.
    pub exact: Option<String>,
    /// The sort direction asked for.
    pub sort_dir: Option<SortDir>,
    /// Whether an output directory was given.
    pub output_given: bool,
    /// Whether the environment names an output directory.
    pub output_in_env: bool,
    /// Whether a cookie was given.
    pub arl_given: bool,
    /// Whether the environment holds a cookie.
    pub arl_in_env: bool,
    /// Whether an earlier login left a cookie.
    pub arl_stored: bool,
    /// Whether JSON is asked for.
    pub json: bool,
    /// How JSON is laid out.
    pub output_format: OutputFormat,
    /// How many downloads run at once.
    pub concurrency: u64,
    /// Whether nothing is to be downloaded.
    pub dry_run: bool,
    /// How many search results are asked for.
    pub limit: Option<u32>,
}

/// What downloads fetch.
pub open spec fn preview_name(options: DownloadOptions) -> Seq<char> {
    if options.preview_and_full {
        "preview_and_full"@
    } else if options.preview {
        "preview"@
    } else {
        "full"@
    }
}

/// What downloads fetch, for people.
pub open spec fn preview_label(options: DownloadOptions) -> Seq<char> {
    if options.preview_and_full {
        "preview + full (--preview-and-full)"@
    } else if options.preview {
        "preview only (--preview)"@
    } else {
        "full track only"@
    }
}

/// The name of a sort key.
pub open spec fn sort_name(sort: SortKey) -> Seq<char> {
    match sort {
        SortKey::Quality => "quality"@,
        SortKey::Relevance => "relevance"@,
        SortKey::Duration => "duration"@,
    }
}

/// The name of the direction in which a key sorts, if it sorts at all.
pub open spec fn direction_name(sort: SortKey, sort_dir: Option<SortDir>) -> Option<Seq<char>> {
    let down = resolve::goes_down(sort_dir, sort == SortKey::Quality);
    match sort {
        SortKey::Relevance => None,
        _ => Some(
            if down {
                "desc"@
            } else {
                "asc"@
            },
        ),
    }
}

/// The direction in which a key sorts, for people.
pub open spec fn direction_label(sort: SortKey, sort_dir: Option<SortDir>) -> Seq<char> {
    match sort {
        SortKey::Quality => if resolve::goes_down(sort_dir, true) {
            "best first (desc)"@
        } else {
            "lowest first (asc)"@
        },
        SortKey::Duration => if resolve::goes_down(sort_dir, false) {
            "longest first (desc)"@
        } else {
            "shortest first (asc)"@
        },
        SortKey::Relevance => "API order (--sort-dir has no effect)"@,
    }
}

/// Where the output directory comes from.
pub open spec fn output_source(given: GivenSettings) -> Seq<char> {
    if given.output_given {
        "flag"@
    } else if given.output_in_env {
        "env"@
    } else {
        "default"@
    }
}

/// Where the output directory comes from, for people.
pub open spec fn output_label(given: GivenSettings) -> Seq<char> {
    if given.output_given {
        "(--output)"@
    } else if given.output_in_env {
        "(DEEZCO_OUTPUT_DIR)"@
    } else {
        "(default)"@
    }
}

/// Where the cookie comes from.
pub open spec fn arl_source(given: GivenSettings) -> Seq<char> {
    if given.arl_given {
        "flag"@
    } else if given.arl_in_env {
        "env"@
    } else if given.arl_stored {
        "stored"@
    } else {
        "none"@
    }
}

/// Where the cookie comes from, for people.
pub open spec fn arl_label(given: GivenSettings) -> Seq<char> {
    if given.arl_given {
        "--arl flag"@
    } else if given.arl_in_env {
        "DEEZCO_ARL environment variable"@
    } else if given.arl_stored {
        "stored login"@
    } else {
        "none (will prompt interactively)"@
    }
}

/// How JSON is written.
pub open spec fn json_name(given: GivenSettings) -> Seq<char> {
    if given.json {
        match given.output_format {
            OutputFormat::Pretty => "pretty"@,
            OutputFormat::Compact => "compact"@,
        }
    } else {
        "off"@
    }
}

/// How JSON is written, for people.
pub open spec fn json_label(given: GivenSettings) -> Seq<char> {
    if given.json {
        match given.output_format {
            OutputFormat::Pretty => "pretty JSON (--json)"@,
            OutputFormat::Compact => "compact JSON (--json --output-format compact)"@,
        }
    } else {
        "off (human-readable output)"@
    }
}

/// The name of an optional format.
pub open spec fn format_label(format: Option<TrackFormat>) -> Option<Seq<char>> {
    match format {
        Some(format) => Some(format.label()),
        None => None,
    }
}

/// The format of an optional quality.
pub open spec fn exact_format(exact: Option<String>) -> Option<TrackFormat> {
    match exact {
        Some(exact) => Some(cli::quality_format(exact@)),
        None => None,
    }
}

/// How many results a search shows.
pub open spec fn limit_or_default(limit: Option<u32>) -> nat {
    match limit {
        Some(limit) => limit as nat,
        None => 10,
    }
}

fn preview_words(options: DownloadOptions) -> (r: (&'static str, &'static str))
    ensures
        r.0@ == preview_name(options),
        r.1@ == preview_label(options),
{
    if options.preview_and_full {
        ("preview_and_full", "preview + full (--preview-and-full)")
    } else if options.preview {
        ("preview", "preview only (--preview)")
    } else {
        ("full", "full track only")
    }
}

fn sort_words(sort: SortKey, sort_dir: Option<SortDir>) -> (r: (
    &'static str,
    Option<&'static str>,
    &'static str,
))
    ensures
        r.0@ == sort_name(sort),
        match r.1 {
            Some(name) => direction_name(sort, sort_dir) == Some(name@),
            None => direction_name(sort, sort_dir) is None,
        },
        r.2@ == direction_label(sort, sort_dir),
{
    match sort {
        SortKey::Quality => {
            if resolve::direction(sort_dir, true) {
                ("quality", Some("desc"), "best first (desc)")
            } else {
                ("quality", Some("asc"), "lowest first (asc)")
            }
        },
        SortKey::Duration => {
            if resolve::direction(sort_dir, false) {
                ("duration", Some("desc"), "longest first (desc)")
            } else {
                ("duration", Some("asc"), "shortest first (asc)")
            }
        },
        SortKey::Relevance => ("relevance", None, "API order (--sort-dir has no effect)"),
    }
}

fn output_words(given: &GivenSettings) -> (r: (&'static str, &'static str))
    ensures
        r.0@ == output_source(*given),
        r.1@ == output_label(*given),
{
    if given.output_given {
        ("flag", "(--output)")
    } else if given.output_in_env {
        ("env", "(DEEZCO_OUTPUT_DIR)")
    } else {
        ("default", "(default)")
    }
}

fn arl_words(given: &GivenSettings) -> (r: (&'static str, &'static str))
    ensures
        r.0@ == arl_source(*given),
        r.1@ == arl_label(*given),
{
    if given.arl_given {
        ("flag", "--arl flag")
    } else if given.arl_in_env {
        ("env", "DEEZCO_ARL environment variable")
    } else if given.arl_stored {
        ("stored", "stored login")
    } else {
        ("none", "none (will prompt interactively)")
    }
}

fn json_words(given: &GivenSettings) -> (r: (&'static str, &'static str))
    ensures
        r.0@ == json_name(*given),
        r.1@ == json_label(*given),
{
    if given.json {
        match given.output_format {
            OutputFormat::Pretty => ("pretty", "pretty JSON (--json)"),
            OutputFormat::Compact => ("compact", "compact JSON (--json --output-format compact)"),
        }
    } else {
        ("off", "off (human-readable output)")
    }
}

fn format_text(format: Option<TrackFormat>) -> (r: Option<String>)
    ensures
        json::text_view(r) == format_label(format),
{
    match format {
        Some(format) => Some(format.api_name().to_owned()),
        None => None,
    }
}

fn format_or_none(format: Option<TrackFormat>) -> (r: String)
    ensures
        r@ == (match format {
            Some(format) => format.label(),
            None => "none"@,
        }),
{
    match format {
        Some(format) => format.api_name().to_owned(),
        None => "none".to_owned(),
    }
}

fn exact_format_of(exact: &Option<String>) -> (r: Option<TrackFormat>)
    ensures
        r == exact_format(*exact),
{
    match exact {
        Some(exact) => Some(cli::parse_format(exact.as_str())),
        None => None,
    }
}

/// How many results a search shows: ten where nothing else is asked for.
pub fn search_limit(limit: Option<u32>) -> (r: u32)
    ensures
        r == limit_or_default(limit),
{
    match limit {
        Some(limit) => limit,
        None => DEFAULT_LIMIT,
    }
}

/// The effective settings that a quality and a sort key lead to.
#[derive(Debug, Clone, Copy)]
pub struct EffectiveSettings {
    pub format: TrackFormat,
    pub min_format: Option<TrackFormat>,
    pub max_format: Option<TrackFormat>,
    pub options: DownloadOptions,
    pub sort: SortKey,
}

/// The members of the effective defaults.
pub open spec fn defaults_members(
    given: GivenSettings,
    effective: EffectiveSettings,
    output: Seq<char>,
) -> Seq<(Seq<char>, json::JsonModel)> {
    seq![
        ("requested_quality"@, json::JsonModel::Text(given.quality@)),
        ("min_quality"@, json::text_or_null(format_label(effective.min_format))),
        ("max_quality"@, json::text_or_null(format_label(effective.max_format))),
        ("exact_quality"@, json::text_or_null(format_label(exact_format(given.exact)))),
        ("effective_quality"@, json::JsonModel::Text(effective.format.label())),
        ("preview"@, json::JsonModel::Text(preview_name(effective.options))),
        ("sort_key"@, json::JsonModel::Text(sort_name(effective.sort))),
        ("sort_direction"@, json::text_or_null(direction_name(effective.sort, given.sort_dir))),
        ("output"@, json::JsonModel::Text(output)),
        ("output_source"@, json::JsonModel::Text(output_source(given))),
        ("concurrency"@, json::JsonModel::Unsigned(given.concurrency as nat)),
        ("dry_run"@, json::JsonModel::Bool(given.dry_run)),
        ("search_limit"@, json::JsonModel::Unsigned(limit_or_default(given.limit))),
        ("json_output"@, json::JsonModel::Text(json_name(given))),
        ("arl_source"@, json::JsonModel::Text(arl_source(given))),
    ]
}

/// The effective defaults as JSON.
pub fn defaults_json(given: &GivenSettings, effective: EffectiveSettings, output: &str) -> (r: Json)
    ensures
        r.model() == json::JsonModel::Object(defaults_members(*given, effective, output@)),
{
    let mut m: Vec<Member> = Vec::new();
    proof {
        assert(json::members_model(m@) =~= Seq::empty());
    }
    let (preview, _) = preview_words(effective.options);
    let (sort_key, sort_direction, _) = sort_words(effective.sort, given.sort_dir);
    let (output_from, _) = output_words(given);
    let (json_output, _) = json_words(given);
    let (arl_from, _) = arl_words(given);
    json::push_member(&mut m, "requested_quality", json::json_text(given.quality.as_str()));
    json::push_text(&mut m, "min_quality", format_text(effective.min_format));
    json::push_text(&mut m, "max_quality", format_text(effective.max_format));
    json::push_text(&mut m, "exact_quality", format_text(exact_format_of(&given.exact)));
    json::push_member(&mut m, "effective_quality", json::json_text(effective.format.api_name()));
    json::push_member(&mut m, "preview", json::json_text(preview));
    json::push_member(&mut m, "sort_key", json::json_text(sort_key));
    match sort_direction {
        Some(name) => json::push_member(&mut m, "sort_direction", json::json_text(name)),
        None => json::push_member(&mut m, "sort_direction", Json::Null),
    }
    json::push_member(&mut m, "output", json::json_text(output));
    json::push_member(&mut m, "output_source", json::json_text(output_from));
    json::push_member(&mut m, "concurrency", Json::Unsigned(given.concurrency));
    json::push_member(&mut m, "dry_run", Json::Bool(given.dry_run));
    json::push_member(&mut m, "search_limit", Json::Unsigned(search_limit(given.limit) as u64));
    json::push_member(&mut m, "json_output", json::json_text(json_output));
    json::push_member(&mut m, "arl_source", json::json_text(arl_from));
    let r = Json::Object(m);
    proof {
        json::lemma_model_parts(r);
        assert(json::members_model(m@) =~= defaults_members(*given, effective, output@));
    }
    r
}

/// The lines behind the exact quality, if one is asked for.
pub open spec fn exact_lines(exact: Option<String>) -> Seq<Seq<char>> {
    match exact_format(exact) {
        Some(format) => seq!["  Exact quality:      "@ + format.label() + " (--exact)"@],
        None => seq![],
    }
}

/// The lines of the effective defaults, for people.
pub open spec fn defaults_text(
    given: GivenSettings,
    effective: EffectiveSettings,
    output: Seq<char>,
) -> Seq<Seq<char>> {
    seq![
        "Effective defaults (no login or network needed):"@,
        "  Requested quality:  "@ + cli::quality_format(given.quality@).label() + " (-q "@
            + given.quality@ + ")"@,
        "  Min quality:        "@ + or_none(effective.min_format),
        "  Max quality:        "@ + or_none(effective.max_format),
    ] + exact_lines(given.exact) + seq![
        "  Effective quality:  "@ + effective.format.label(),
        "  Preview:            "@ + preview_label(effective.options),
        "  Sort key:           "@ + sort_name(effective.sort),
        "  Sort direction:     "@ + direction_label(effective.sort, given.sort_dir),
        "  Output dir:         "@ + output + " "@ + output_label(given),
        "  Concurrency:        "@ + text::decimal(given.concurrency as nat),
        "  Dry run:            "@ + (if given.dry_run {
            "on"@
        } else {
            "off"@
        }),
        "  Search limit:       "@ + text::decimal(limit_or_default(given.limit)) + " (--limit)"@,
        "  JSON output:        "@ + json_label(given),
        "  ARL:                "@ + arl_label(given),
    ]
}

/// The name of an optional format, for people.
pub open spec fn or_none(format: Option<TrackFormat>) -> Seq<char> {
    match format {
        Some(format) => format.label(),
        None => "none"@,
    }
}

/// Lines on standard output.
pub open spec fn said(texts: Seq<Seq<char>>) -> Seq<report::LineModel> {
    texts.map_values(|s: Seq<char>| report::LineModel::Out(s))
}

fn say_pair(lines: &mut Vec<Line>, name: &str, value: &str)
    ensures
        report::lines_model(final(lines)@) == report::lines_model(old(lines)@).push(
            report::LineModel::Out(name@ + value@),
        ),
{
    let mut s = name.to_owned();
    s.append(value);
    report::say(lines, s);
}

/// The effective defaults, for people.
pub fn defaults_lines(given: &GivenSettings, effective: EffectiveSettings, output: &str) -> (r: Vec<
    Line,
>)
    ensures
        report::lines_model(r@) == said(defaults_text(*given, effective, output@)),
{
    let (_, preview) = preview_words(effective.options);
    let (sort_key, _, sort_direction) = sort_words(effective.sort, given.sort_dir);
    let (_, output_from) = output_words(given);
    let (_, json_output) = json_words(given);
    let (_, arl_from) = arl_words(given);
    let mut lines = report::no_lines();
    say_pair(&mut lines, "Effective defaults (no login or network needed):", "");
    let mut requested = cli::parse_format(given.quality.as_str()).api_name().to_owned();
    requested.append(" (-q ");
    requested.append(given.quality.as_str());
    requested.append(")");
    say_pair(&mut lines, "  Requested quality:  ", requested.as_str());
    say_pair(&mut lines, "  Min quality:        ", format_or_none(effective.min_format).as_str());
    say_pair(&mut lines, "  Max quality:        ", format_or_none(effective.max_format).as_str());
    let ghost first = defaults_text(*given, effective, output@).take(4);
    proof {
        reveal_strlit("");
        assert("Effective defaults (no login or network needed):"@ + ""@
            =~= "Effective defaults (no login or network needed):"@);
        assert(requested@ =~= cli::quality_format(given.quality@).label() + " (-q "@
            + given.quality@ + ")"@);
        assert("  Requested quality:  "@ + requested@ =~= "  Requested quality:  "@
            + cli::quality_format(given.quality@).label() + " (-q "@ + given.quality@ + ")"@);
        assert(report::lines_model(lines@) =~= said(first));
    }
    match exact_format_of(&given.exact) {
        Some(format) => {
            let mut exact = format.api_name().to_owned();
            exact.append(" (--exact)");
            say_pair(&mut lines, "  Exact quality:      ", exact.as_str());
            proof {
                assert("  Exact quality:      "@ + exact@ =~= "  Exact quality:      "@
                    + format.label() + " (--exact)"@);
            }
        },
        None => {},
    }
    let ghost second = first + exact_lines(given.exact);
    proof {
        assert(report::lines_model(lines@) =~= said(second));
    }
    say_pair(&mut lines, "  Effective quality:  ", effective.format.api_name());
    say_pair(&mut lines, "  Preview:            ", preview);
    say_pair(&mut lines, "  Sort key:           ", sort_key);
    say_pair(&mut lines, "  Sort direction:     ", sort_direction);
    let mut place = output.to_owned();
    place.append(" ");
    place.append(output_from);
    say_pair(&mut lines, "  Output dir:         ", place.as_str());
    let concurrency = text::decimal_text(given.concurrency);
    say_pair(&mut lines, "  Concurrency:        ", concurrency.as_str());
    let dry_run = if given.dry_run {
        "on"
    } else {
        "off"
    };
    say_pair(&mut lines, "  Dry run:            ", dry_run);
    let mut limit = text::decimal_text(search_limit(given.limit) as u64);
    limit.append(" (--limit)");
    say_pair(&mut lines, "  Search limit:       ", limit.as_str());
    say_pair(&mut lines, "  JSON output:        ", json_output);
    say_pair(&mut lines, "  ARL:                ", arl_from);
    proof {
        assert("  Output dir:         "@ + place@ =~= "  Output dir:         "@ + output@ + " "@
            + output_label(*given));
        assert("  Search limit:       "@ + limit@ =~= "  Search limit:       "@ + text::decimal(
            limit_or_default(given.limit),
        ) + " (--limit)"@);
        assert(report::lines_model(lines@) =~= said(defaults_text(*given, effective, output@)));
    }
    lines
}

/// The effective defaults: JSON where it is asked for, lines otherwise.
#[derive(Debug)]
pub enum Shown {
    Document(Json),
    Lines(Vec<Line>),
}

/// Shows the effective defaults for every setting.
pub fn print_defaults(given: &GivenSettings, effective: EffectiveSettings, output: &str) -> (r: Shown)
    ensures
        if given.json {
            r matches Shown::Document(value) && value.model() == json::JsonModel::Object(
                defaults_members(*given, effective, output@),
            )
        } else {
            r matches Shown::Lines(lines) && report::lines_model(lines@) == said(
                defaults_text(*given, effective, output@),
            )
        },
{
    if given.json {
        Shown::Document(defaults_json(given, effective, output))
    } else {
        Shown::Lines(defaults_lines(given, effective, output))
    }
}

/// The header of a followed artist.
pub open spec fn header_of(artist: FollowedArtist) -> Seq<char> {
    let noun = if artist.nb_album == 1 {
        "album"@
    } else {
        "albums"@
    };
    let count = "--- "@ + artist.name@ + " ("@ + text::decimal(artist.nb_album as nat) + " "@ + noun;
    match artist.best_quality {
        Some(quality) => count + ", best "@ + quality@ + ") ---"@,
        None => count + ") ---"@,
    }
}

/// Header line for a followed artist, with the release count and, when known,
/// the best available quality.
pub fn artist_header(artist: &FollowedArtist) -> (r: String)
    ensures
        r@ == header_of(*artist),
{
    let mut s = "--- ".to_owned();
    s.append(artist.name.as_str());
    s.append(" (");
    s.append(text::decimal_text(artist.nb_album).as_str());
    s.append(" ");
    if artist.nb_album == 1 {
        s.append("album");
    } else {
        s.append("albums");
    }
    if let Some(quality) = &artist.best_quality {
        s.append(", best ");
        s.append(quality.as_str());
    }
    s.append(") ---");
    s
}

/// Tracks as JSON.
pub open spec fn track_models(tracks: Seq<GwTrack>) -> Seq<json::JsonModel> {
    tracks.map_values(|t: GwTrack| t.json_model())
}

/// Tracks as a JSON array.
pub fn tracks_json(tracks: Vec<GwTrack>) -> (r: Json)
    ensures
        r.model() == json::JsonModel::Array(track_models(tracks@)),
{
    let ghost all = tracks@;
    let mut items: Vec<Json> = Vec::new();
    proof {
        assert(json::items_model(items@) =~= track_models(all).take(0));
    }
    for track in it: tracks.into_iter()
        invariant
            it.seq() == all,
            json::items_model(items@) == track_models(all).take(it.index() as int),
    {
        let ghost before = items@;
        let item = Json::Object(track.into_members());
        proof {
            json::lemma_model_parts(item);
        }
        items.push(item);
        proof {
            let i = it.index() as int;
            assert(json::items_model(items@) =~= json::items_model(before).push(item.model()));
            assert(json::items_model(items@) =~= track_models(all).take(i + 1));
        }
    }
    let r = Json::Array(items);
    proof {
        json::lemma_model_parts(r);
        assert(track_models(all).take(all.len() as int) =~= track_models(all));
    }
    r
}

/// The contents of a playlist as JSON, from its page and its tracks.
pub fn playlist_json(id: &str, info: &Json, tracks: Vec<GwTrack>) -> (r: Json)
    ensures
        r.model() == json::JsonModel::Object(
            seq![
                ("type"@, json::JsonModel::Text("playlist"@)),
                ("id"@, json::JsonModel::Text(id@)),
                ("title"@, json::JsonModel::Text(download::playlist_title(info.model()))),
                ("tracks"@, json::JsonModel::Array(track_models(tracks@))),
            ],
        ),
{
    let ghost all = tracks@;
    let mut m: Vec<Member> = Vec::new();
    proof {
        assert(json::members_model(m@) =~= Seq::empty());
    }
    json::push_member(&mut m, "type", json::json_text("playlist"));
    json::push_member(&mut m, "id", json::json_text(id));
    json::push_member(&mut m, "title", Json::Text(download::playlist_name(info)));
    json::push_member(&mut m, "tracks", tracks_json(tracks));
    let r = Json::Object(m);
    proof {
        json::lemma_model_parts(r);
        assert(json::members_model(m@) =~= seq![
            ("type"@, json::JsonModel::Text("playlist"@)),
            ("id"@, json::JsonModel::Text(id@)),
            ("title"@, json::JsonModel::Text(download::playlist_title(info.model()))),
            ("tracks"@, json::JsonModel::Array(track_models(all))),
        ]);
    }
    r
}

/// The contents of an album as JSON, from its page and its tracks.
pub fn album_json(id: &str, info: &Json, tracks: Vec<GwTrack>) -> (r: Json)
    ensures
        r.model() == json::JsonModel::Object(
            seq![
                ("type"@, json::JsonModel::Text("album"@)),
                ("id"@, json::JsonModel::Text(id@)),
                ("title"@, json::JsonModel::Text(download::named(info.model(), "ALB_TITLE"@, "Unknown Album"@))),
                ("artist"@, json::JsonModel::Text(download::named(info.model(), "ART_NAME"@, "Unknown Artist"@))),
                ("tracks"@, json::JsonModel::Array(track_models(tracks@))),
            ],
        ),
{
    let ghost all = tracks@;
    let mut m: Vec<Member> = Vec::new();
    proof {
        assert(json::members_model(m@) =~= Seq::empty());
    }
    json::push_member(&mut m, "type", json::json_text("album"));
    json::push_member(&mut m, "id", json::json_text(id));
    json::push_member(&mut m, "title", Json::Text(download::album_title(info)));
    json::push_member(&mut m, "artist", Json::Text(download::artist_name(info)));
    json::push_member(&mut m, "tracks", tracks_json(tracks));
    let r = Json::Object(m);
    proof {
        json::lemma_model_parts(r);
        assert(json::members_model(m@) =~= seq![
            ("type"@, json::JsonModel::Text("album"@)),
            ("id"@, json::JsonModel::Text(id@)),
            ("title"@, json::JsonModel::Text(download::named(info.model(), "ALB_TITLE"@, "Unknown Album"@))),
            ("artist"@, json::JsonModel::Text(download::named(info.model(), "ART_NAME"@, "Unknown Artist"@))),
            ("tracks"@, json::JsonModel::Array(track_models(all))),
        ]);
    }
    r
}

/// A followed artist as JSON.
pub open spec fn followed_model(artist: FollowedArtist) -> json::JsonModel {
    json::JsonModel::Object(
        seq![
            ("id"@, json::JsonModel::Unsigned(artist.id as nat)),
            ("name"@, json::JsonModel::Text(artist.name@)),
            ("nb_album"@, json::JsonModel::Unsigned(artist.nb_album as nat)),
            ("best_quality"@, json::text_or_null(json::text_view(artist.best_quality))),
        ],
    )
}

/// A followed artist as JSON.
pub fn followed_json(artist: FollowedArtist) -> (r: Json)
    ensures
        r.model() == followed_model(artist),
{
    let ghost whole = artist;
    let mut m: Vec<Member> = Vec::new();
    proof {
        assert(json::members_model(m@) =~= Seq::empty());
    }
    json::push_member(&mut m, "id", Json::Unsigned(artist.id));
    json::push_member(&mut m, "name", Json::Text(artist.name));
    json::push_member(&mut m, "nb_album", Json::Unsigned(artist.nb_album));
    json::push_text(&mut m, "best_quality", artist.best_quality);
    let r = Json::Object(m);
    proof {
        json::lemma_model_parts(r);
        assert(json::members_model(m@) =~= followed_model(whole)->Object_0);
    }
    r
}

/// Followed artists as JSON.
pub open spec fn followed_models(artists: Seq<FollowedArtist>) -> Seq<json::JsonModel> {
    artists.map_values(|a: FollowedArtist| followed_model(a))
}

/// The followed artists as JSON.
pub open spec fn following_model(artists: Seq<FollowedArtist>) -> json::JsonModel {
    json::JsonModel::Object(
        seq![
            ("type"@, json::JsonModel::Text("following"@)),
            ("artists"@, json::JsonModel::Array(followed_models(artists))),
        ],
    )
}

/// The followed artists as JSON.
pub fn following_json(artists: Vec<FollowedArtist>) -> (r: Json)
    ensures
        r.model() == following_model(artists@),
{
    let ghost all = artists@;
    let mut items: Vec<Json> = Vec::new();
    proof {
        assert(json::items_model(items@) =~= followed_models(all).take(0));
    }
    for artist in it: artists.into_iter()
        invariant
            it.seq() == all,
            json::items_model(items@) == followed_models(all).take(it.index() as int),
    {
        let ghost before = items@;
        let item = followed_json(artist);
        items.push(item);
        proof {
            let i = it.index() as int;
            assert(json::items_model(items@) =~= json::items_model(before).push(item.model()));
            assert(json::items_model(items@) =~= followed_models(all).take(i + 1));
        }
    }
    let list = Json::Array(items);
    let mut m: Vec<Member> = Vec::new();
    proof {
        json::lemma_model_parts(list);
        assert(followed_models(all).take(all.len() as int) =~= followed_models(all));
        assert(json::members_model(m@) =~= Seq::empty());
    }
    json::push_member(&mut m, "type", json::json_text("following"));
    json::push_member(&mut m, "artists", list);
    let r = Json::Object(m);
    proof {
        json::lemma_model_parts(r);
        assert(json::members_model(m@) =~= seq![
            ("type"@, json::JsonModel::Text("following"@)),
            ("artists"@, json::JsonModel::Array(followed_models(all))),
        ]);
    }
    r
}

/// The favorites as JSON, from tracks that carry their durations.
pub fn favorites_json(tracks: Vec<Json>) -> (r: Json)
    ensures
        r.model() == json::JsonModel::Object(
            seq![
                ("type"@, json::JsonModel::Text("favorites"@)),
                ("tracks"@, json::JsonModel::Array(json::items_model(tracks@))),
            ],
        ),
{
    let list = Json::Array(tracks);
    let mut m: Vec<Member> = Vec::new();
    proof {
        json::lemma_model_parts(list);
        assert(json::members_model(m@) =~= Seq::empty());
    }
    json::push_member(&mut m, "type", json::json_text("favorites"));
    json::push_member(&mut m, "tracks", list);
    let r = Json::Object(m);
    proof {
        json::lemma_model_parts(r);
        assert(json::members_model(m@) =~= seq![
            ("type"@, json::JsonModel::Text("favorites"@)),
            ("tracks"@, json::JsonModel::Array(json::items_model(tracks@))),
        ]);
    }
    r
}

/// A setting of the command line comes before one of the environment, and that
/// before what is stored or the default, and the overview says so.
pub proof fn overviews_say_where_settings_come_from(given: GivenSettings)
    ensures
        given.output_given ==> output_source(given) == "flag"@ && output_label(given)
            == "(--output)"@,
        !given.output_given && given.output_in_env ==> output_source(given) == "env"@
            && output_label(given) == "(DEEZCO_OUTPUT_DIR)"@,
        !given.output_given && !given.output_in_env ==> output_source(given) == "default"@
            && output_label(given) == "(default)"@,
        given.arl_given ==> arl_source(given) == "flag"@,
        !given.arl_given && given.arl_in_env ==> arl_source(given) == "env"@,
        !given.arl_given && !given.arl_in_env && given.arl_stored ==> arl_source(given)
            == "stored"@,
        !given.arl_given && !given.arl_in_env && !given.arl_stored ==> arl_source(given)
            == "none"@,
        given.limit is None ==> limit_or_default(given.limit) == 10,
        given.limit is Some ==> limit_or_default(given.limit) == given.limit->0,
        !given.json ==> json_name(given) == "off"@,
{
}

/// The overview names the direction that sorting really has: an explicit one,
/// and else downwards for quality and upwards for duration. Relevance has none.
pub proof fn overviews_name_the_direction(sort_dir: SortDir)
    ensures
        direction_name(SortKey::Quality, None) == Some("desc"@),
        direction_name(SortKey::Duration, None) == Some("asc"@),
        direction_name(SortKey::Relevance, None) is None,
        direction_name(SortKey::Relevance, Some(sort_dir)) is None,
        direction_name(SortKey::Quality, Some(sort_dir)) == Some(
            if sort_dir == SortDir::Desc {
                "desc"@
            } else {
                "asc"@
            },
        ),
        direction_name(SortKey::Duration, Some(sort_dir)) == direction_name(
            SortKey::Quality,
            Some(sort_dir),
        ),
        direction_label(SortKey::Quality, None) == "best first (desc)"@,
        direction_label(SortKey::Duration, None) == "shortest first (asc)"@,
        direction_label(SortKey::Quality, Some(sort_dir)) == (if sort_dir == SortDir::Desc {
            "best first (desc)"@
        } else {
            "lowest first (asc)"@
        }),
        direction_label(SortKey::Duration, Some(sort_dir)) == (if sort_dir == SortDir::Desc {
            "longest first (desc)"@
        } else {
            "shortest first (asc)"@
        }),
{
}

/// The overview as JSON holds the settings as given, the bounds and the format
/// that are in effect, and what downloads, searches and output go by.
pub proof fn overviews_hold_the_settings(
    given: GivenSettings,
    effective: EffectiveSettings,
    output: Seq<char>,
)
    ensures
        ({
            let members = defaults_members(given, effective, output);
            &&& members.len() == 15
            &&& members[0] == ("requested_quality"@, json::JsonModel::Text(given.quality@))
            &&& effective.min_format is Some ==> members[1] == (
                "min_quality"@,
                json::JsonModel::Text(effective.min_format->0.label()),
            )
            &&& effective.min_format is None ==> members[1] == ("min_quality"@, json::JsonModel::Null)
            &&& effective.max_format is Some ==> members[2] == (
                "max_quality"@,
                json::JsonModel::Text(effective.max_format->0.label()),
            )
            &&& effective.max_format is None ==> members[2] == ("max_quality"@, json::JsonModel::Null)
            &&& members[4] == (
                "effective_quality"@,
                json::JsonModel::Text(effective.format.label()),
            )
            &&& members[8] == ("output"@, json::JsonModel::Text(output))
            &&& members[10] == (
                "concurrency"@,
                json::JsonModel::Unsigned(given.concurrency as nat),
            )
            &&& members[11] == ("dry_run"@, json::JsonModel::Bool(given.dry_run))
        }),
{
}

/// What downloads fetch is named for both kinds at once before the preview, and
/// the full track where neither is asked for.
pub proof fn overviews_name_what_is_fetched(options: DownloadOptions)
    ensures
        options.preview_and_full ==> preview_name(options) == "preview_and_full"@,
        options.preview && !options.preview_and_full ==> preview_name(options) == "preview"@,
        !options.preview && !options.preview_and_full ==> preview_name(options) == "full"@,
{
}

/// Artists and tracks are printed in the order in which they stand, each with
/// what is known of it and nothing of another.
pub proof fn lists_are_printed_in_order(
    tracks: Seq<GwTrack>,
    artists: Seq<FollowedArtist>,
    i: int,
)
    ensures
        track_models(tracks).len() == tracks.len(),
        0 <= i < tracks.len() ==> track_models(tracks)[i] == json::JsonModel::Object(
            tracks[i].json_members(),
        ),
        followed_models(artists).len() == artists.len(),
        0 <= i < artists.len() ==> (followed_models(artists)[i] matches json::JsonModel::Object(members)
            && members.len() == 4 && members[0] == (
            "id"@,
            json::JsonModel::Unsigned(artists[i].id as nat),
        ) && members[1] == ("name"@, json::JsonModel::Text(artists[i].name@)) && members[2] == (
            "nb_album"@,
            json::JsonModel::Unsigned(artists[i].nb_album as nat),
        ) && members[3].0 == "best_quality"@ && (artists[i].best_quality is Some ==> members[3].1
            == json::JsonModel::Text(artists[i].best_quality->0@)) && (
        artists[i].best_quality is None ==> members[3].1 == json::JsonModel::Null)),
{
}

/// The header of an artist counts the releases, one album and else albums, and
/// names the best quality only where it is known.
pub proof fn headers_count_the_releases(artist: FollowedArtist)
    ensures
        artist.nb_album == 1 && artist.best_quality is None ==> header_of(artist) == "--- "@
            + artist.name@ + " ("@ + text::decimal(1) + " "@ + "album"@ + ") ---"@,
        artist.nb_album != 1 && artist.best_quality is None ==> header_of(artist) == "--- "@
            + artist.name@ + " ("@ + text::decimal(artist.nb_album as nat) + " "@ + "albums"@
            + ") ---"@,
        artist.nb_album != 1 && artist.best_quality is Some ==> header_of(artist) == "--- "@
            + artist.name@ + " ("@ + text::decimal(artist.nb_album as nat) + " "@ + "albums"@
            + ", best "@ + artist.best_quality->0@ + ") ---"@,
{
}

/// The overview for people holds the same settings: the formats, the folder, how
/// many downloads run at once and how many results a search shows.
pub proof fn overviews_show_the_settings(
    given: GivenSettings,
    effective: EffectiveSettings,
    output: Seq<char>,
)
    requires
        given.exact is None,
    ensures
        ({
            let lines = defaults_text(given, effective, output);
            &&& lines.len() == 14
            &&& lines[2] == "  Min quality:        "@ + (if effective.min_format is Some {
                effective.min_format->0.label()
            } else {
                "none"@
            })
            &&& lines[3] == "  Max quality:        "@ + (if effective.max_format is Some {
                effective.max_format->0.label()
            } else {
                "none"@
            })
            &&& lines[4] == "  Effective quality:  "@ + effective.format.label()
            &&& lines[5] == "  Preview:            "@ + preview_label(effective.options)
            &&& lines[6] == "  Sort key:           "@ + sort_name(effective.sort)
            &&& lines[8] == "  Output dir:         "@ + output + " "@ + output_label(given)
            &&& lines[9] == "  Concurrency:        "@ + text::decimal(given.concurrency as nat)
            &&& lines[10] == "  Dry run:            "@ + (if given.dry_run {
                "on"@
            } else {
                "off"@
            })
            &&& lines[11] == "  Search limit:       "@ + text::decimal(
                limit_or_default(given.limit),
            ) + " (--limit)"@
            &&& lines[13] == "  ARL:                "@ + arl_label(given)
        }),
{
}

/// The words of the overview: what is fetched, how results sort, and where the
/// cookie comes from.
pub proof fn overviews_have_their_words(options: DownloadOptions, given: GivenSettings)
    ensures
        options.preview_and_full ==> preview_label(options)
            == "preview + full (--preview-and-full)"@,
        options.preview && !options.preview_and_full ==> preview_label(options)
            == "preview only (--preview)"@,
        !options.preview && !options.preview_and_full ==> preview_label(options)
            == "full track only"@,
        sort_name(SortKey::Quality) == "quality"@ && sort_name(SortKey::Relevance) == "relevance"@
            && sort_name(SortKey::Duration) == "duration"@,
        given.arl_given ==> arl_label(given) == "--arl flag"@,
        !given.arl_given && given.arl_in_env ==> arl_label(given)
            == "DEEZCO_ARL environment variable"@,
        !given.arl_given && !given.arl_in_env && given.arl_stored ==> arl_label(given)
            == "stored login"@,
        !given.arl_given && !given.arl_in_env && !given.arl_stored ==> arl_label(given)
            == "none (will prompt interactively)"@,
        given.json && given.output_format == OutputFormat::Compact ==> json_name(given)
            == "compact"@,
        given.json && given.output_format == OutputFormat::Pretty ==> json_name(given) == "pretty"@,
{
}

} // verus!
