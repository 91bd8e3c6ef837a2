//! Which settings win: output folders, quality bounds, sort directions.

use vstd::prelude::*;

use crate::cli::SortDir;
use crate::models::{FollowedArtist, GwTrack, TrackFormat};

verus! {

/// The output folder: the one given on the command line, else the one of the
/// environment, else the default.
pub fn resolve_output_dir(
    cli_output: Option<String>,
    env_output: Option<String>,
    default_output: String,
) -> (r: String)
    ensures
        r@ == (match (cli_output, env_output) {
            (Some(dir), _) => dir@,
            (None, Some(dir)) => dir@,
            (None, None) => default_output@,
        }),
{
    match cli_output {
        Some(dir) => dir,
        None => match env_output {
            Some(dir) => dir,
            None => default_output,
        },
    }
}

/// The quality bounds: an exact quality sets both and overrides the others.
pub fn resolve_quality_bounds(
    exact: Option<TrackFormat>,
    min: Option<TrackFormat>,
    max: Option<TrackFormat>,
) -> (r: (Option<TrackFormat>, Option<TrackFormat>))
    ensures
        r == (match exact {
            Some(e) => (Some(e), Some(e)),
            None => (min, max),
        }),
{
    match exact {
        Some(e) => (Some(e), Some(e)),
        None => (min, max),
    }
}

/// The format to ask for under an upper bound.
pub open spec fn effective_format(wanted: TrackFormat, max: Option<TrackFormat>) -> TrackFormat {
    match max {
        Some(max) => wanted.lower_of(max),
        None => wanted,
    }
}

/// Whether no quality satisfies both bounds.
pub open spec fn unsatisfiable(min: Option<TrackFormat>, max: Option<TrackFormat>) -> bool {
    match (min, max) {
        (Some(min), Some(max)) => min.order() > max.order(),
        _ => false,
    }
}

/// Caps the requested format by the upper bound; bounds that no quality can
/// satisfy are refused with the message for the user.
pub fn effective_quality(wanted: TrackFormat, min: Option<TrackFormat>, max: Option<TrackFormat>) -> (r:
    Result<TrackFormat, String>)
    ensures
        match r {
            Ok(format) => !unsatisfiable(min, max) && format == effective_format(wanted, max),
            Err(message) => unsatisfiable(min, max) && message@ == "--min-quality "@
                + min->0.label() + " is higher than --max-quality "@ + max->0.label()
                + "; no quality can satisfy both"@,
        },
{
    match (min, max) {
        (Some(min), Some(max)) => {
            if min.rank() > max.rank() {
                let mut message = "--min-quality ".to_owned();
                message.append(min.api_name());
                message.append(" is higher than --max-quality ");
                message.append(max.api_name());
                message.append("; no quality can satisfy both");
                return Err(message);
            }
        },
        _ => {},
    }
    match max {
        Some(max) => Ok(wanted.capped_by(max)),
        None => Ok(wanted),
    }
}

/// The best format with a reported size.
pub open spec fn best_format(track: GwTrack) -> Option<TrackFormat> {
    if track.size_of(TrackFormat::Flac) > 0 {
        Some(TrackFormat::Flac)
    } else if track.size_of(TrackFormat::Mp3_320) > 0 {
        Some(TrackFormat::Mp3_320)
    } else if track.size_of(TrackFormat::Mp3_128) > 0 {
        Some(TrackFormat::Mp3_128)
    } else {
        None
    }
}

/// The best format that a track has, if any size is reported.
pub fn best_available_format(track: &GwTrack) -> (r: Option<TrackFormat>)
    ensures
        r == best_format(*track),
{
    if track.filesize_for_format(TrackFormat::Flac) > 0 {
        Some(TrackFormat::Flac)
    } else if track.filesize_for_format(TrackFormat::Mp3_320) > 0 {
        Some(TrackFormat::Mp3_320)
    } else if track.filesize_for_format(TrackFormat::Mp3_128) > 0 {
        Some(TrackFormat::Mp3_128)
    } else {
        None
    }
}

/// The rank of an optional format: none ranks below all.
pub open spec fn rank_of(format: Option<TrackFormat>) -> nat {
    match format {
        Some(format) => format.order(),
        None => 0,
    }
}

/// The rank of the best format that a track has, 0 for none.
pub fn quality_rank(track: &GwTrack) -> (r: u8)
    ensures
        r == rank_of(best_format(*track)),
{
    match best_available_format(track) {
        Some(format) => format.rank(),
        None => 0,
    }
}

/// Whether a sort goes down: an explicit direction wins over the natural one.
pub open spec fn goes_down(sort_dir: Option<SortDir>, natural_desc: bool) -> bool {
    match sort_dir {
        Some(SortDir::Desc) => true,
        Some(SortDir::Asc) => false,
        None => natural_desc,
    }
}

/// Whether a sort goes down: an explicit direction wins over the natural one.
pub fn direction(sort_dir: Option<SortDir>, natural_desc: bool) -> (r: bool)
    ensures
        r == goes_down(sort_dir, natural_desc),
{
    match sort_dir {
        Some(SortDir::Desc) => true,
        Some(SortDir::Asc) => false,
        None => natural_desc,
    }
}

/// The better of the best quality so far and that of one more track.
pub fn better_quality(best: Option<TrackFormat>, track: &GwTrack) -> (r: Option<TrackFormat>)
    ensures
        r == (if rank_of(best_format(*track)) > rank_of(best) {
            best_format(*track)
        } else {
            best
        }),
{
    match best_available_format(track) {
        Some(format) => {
            let better = match best {
                Some(current) => format.rank() > current.rank(),
                None => true,
            };
            if better {
                Some(format)
            } else {
                best
            }
        },
        None => best,
    }
}

/// The best quality of a run of tracks, after a best so far.
pub open spec fn best_of(best: Option<TrackFormat>, tracks: Seq<GwTrack>) -> Option<TrackFormat>
    decreases tracks.len(),
{
    if tracks.len() == 0 {
        best
    } else {
        let before = best_of(best, tracks.drop_last());
        if rank_of(best_format(tracks.last())) > rank_of(before) {
            best_format(tracks.last())
        } else {
            before
        }
    }
}

/// The best quality across the tracks of one more album.
pub fn album_best_quality(best: Option<TrackFormat>, tracks: &Vec<GwTrack>) -> (r: Option<
    TrackFormat,
>)
    ensures
        r == best_of(best, tracks@),
{
    let mut current = best;
    let mut i: usize = 0;
    proof {
        assert(tracks@.take(0) =~= Seq::empty());
    }
    while i < tracks.len()
        invariant
            i <= tracks@.len(),
            current == best_of(best, tracks@.take(i as int)),
        decreases tracks@.len() - i,
    {
        current = better_quality(current, &tracks[i]);
        i = i + 1;
        proof {
            assert(tracks@.take(i as int).drop_last() =~= tracks@.take(i - 1));
        }
    }
    proof {
        assert(tracks@.take(i as int) =~= tracks@);
    }
    current
}

/// The best quality of a run of tracks ranks at least as high as each of them.
pub proof fn best_of_is_the_best(best: Option<TrackFormat>, tracks: Seq<GwTrack>, i: int)
    requires
        0 <= i < tracks.len(),
    ensures
        rank_of(best_of(best, tracks)) >= rank_of(best_format(tracks[i])),
        rank_of(best_of(best, tracks)) >= rank_of(best),
    decreases tracks.len(),
{
    if i < tracks.len() - 1 {
        best_of_is_the_best(best, tracks.drop_last(), i);
    } else if tracks.len() > 1 {
        best_of_is_the_best(best, tracks.drop_last(), 0);
    } else {
        assert(tracks.drop_last() =~= Seq::empty());
        assert(best_of(best, Seq::<GwTrack>::empty()) == best);
    }
}

/// Notes the best quality of a followed artist, as far as it could be found out.
pub fn with_best(artist: FollowedArtist, best: Result<Option<TrackFormat>, String>) -> (r: FollowedArtist)
    ensures
        r.id == artist.id,
        r.name == artist.name,
        r.nb_album == artist.nb_album,
        match best {
            Ok(Some(format)) => r.best_quality matches Some(label) && label@ == format.label(),
            _ => r.best_quality is None,
        },
{
    let best_quality = match best {
        Ok(Some(format)) => Some(format.api_name().to_owned()),
        _ => None,
    };
    FollowedArtist { id: artist.id, name: artist.name, nb_album: artist.nb_album, best_quality }
}

/// The best format of a track has a size, and no better one has: lossless before
/// 320 kbps before 128 kbps. A track without any size has none, and ranks below
/// every track that has one.
pub proof fn the_best_format_is_the_best_with_a_size(track: GwTrack, format: TrackFormat)
    ensures
        best_format(track) == Some(format) ==> track.size_of(format) > 0,
        track.size_of(format) > 0 ==> rank_of(best_format(track)) >= rank_of(Some(format)),
        best_format(track) is None <==> track.size_of(TrackFormat::Flac) == 0 && track.size_of(
            TrackFormat::Mp3_320,
        ) == 0 && track.size_of(TrackFormat::Mp3_128) == 0,
        rank_of(Some(TrackFormat::Flac)) > rank_of(Some(TrackFormat::Mp3_320)),
        rank_of(Some(TrackFormat::Mp3_320)) > rank_of(Some(TrackFormat::Mp3_128)),
        rank_of(Some(TrackFormat::Mp3_128)) > rank_of(None),
{
}

/// The format that is asked for is the wanted one, unless that is above the
/// upper bound, and then the bound. Bounds can be met exactly where some format
/// lies between them.
pub proof fn bounds_are_met_where_they_can_be(
    wanted: TrackFormat,
    min: Option<TrackFormat>,
    max: Option<TrackFormat>,
    format: TrackFormat,
)
    ensures
        max is None ==> effective_format(wanted, max) == wanted,
        max is Some && wanted.order() <= max->0.order() ==> effective_format(wanted, max) == wanted,
        max is Some && wanted.order() > max->0.order() ==> effective_format(wanted, max) == max->0,
        (min is Some ==> min->0.order() <= format.order()) && (max is Some ==> format.order()
            <= max->0.order()) ==> !unsatisfiable(min, max),
        unsatisfiable(min, max) ==> min is Some && max is Some && min->0.order() > max->0.order(),
        min is Some && max is Some && min->0.order() > max->0.order() ==> unsatisfiable(min, max),
{
}

/// The best quality of a run of tracks is one that a track of it has, or the one
/// from before.
pub proof fn best_of_is_one_of_them(best: Option<TrackFormat>, tracks: Seq<GwTrack>)
    ensures
        best_of(best, tracks) == best || exists|i: int|
            0 <= i < tracks.len() && best_of(best, tracks) == best_format(#[trigger] tracks[i]),
    decreases tracks.len(),
{
    if tracks.len() > 0 {
        let front = tracks.drop_last();
        best_of_is_one_of_them(best, front);
        if best_of(best, tracks) == best_format(tracks.last()) {
            assert(tracks[tracks.len() - 1] == tracks.last());
        } else if best_of(best, front) != best {
            let i = choose|i: int|
                0 <= i < front.len() && best_of(best, front) == best_format(#[trigger] front[i]);
            assert(tracks[i] == front[i]);
        }
    }
}

/// Albums can be taken one by one: the best of two runs is the best of the
/// second behind that of the first.
pub proof fn best_of_goes_run_by_run(
    best: Option<TrackFormat>,
    first: Seq<GwTrack>,
    second: Seq<GwTrack>,
)
    ensures
        best_of(best, first + second) == best_of(best_of(best, first), second),
    decreases second.len(),
{
    if second.len() > 0 {
        best_of_goes_run_by_run(best, first, second.drop_last());
        assert((first + second).drop_last() =~= first + second.drop_last());
        assert((first + second).last() == second.last());
    } else {
        assert(first + second =~= first);
    }
}

/// An explicit direction is followed, whatever the natural one is; without one
/// the natural one is.
pub proof fn explicit_directions_win(natural_desc: bool)
    ensures
        goes_down(Some(SortDir::Desc), natural_desc),
        !goes_down(Some(SortDir::Asc), natural_desc),
        goes_down(None, natural_desc) == natural_desc,
{
}

} // verus!
