//! Many tracks at once: dry-run listings and summaries.

use vstd::prelude::*;

use crate::models::GwTrack;
use crate::report;
use crate::report::Line;
use crate::text;
use crate::track;
use crate::track::DownloadOptions;

verus! {

/// How many tracks are asked for in one request.
pub const BATCH: usize = 50;

/// Whether a dry run lists a track as rejected.
pub open spec fn is_rejected(track: GwTrack, options: DownloadOptions) -> bool {
    !options.preview && track::below_minimum(options, track::available(track, options.format))
}

/// What a dry run says of a track.
pub open spec fn verdict(track: GwTrack, options: DownloadOptions) -> Seq<char> {
    if is_rejected(track, options) {
        track.display_view() + " [err] below --min-quality "@ + options.min_format->0.label()
            + " (only "@ + track::available(track, options.format).label() + " available)"@
    } else {
        track::dry_run_label(track, options)
    }
}

/// One line of a dry run, numbered from 1.
pub open spec fn numbered(index: nat, total: nat, what: Seq<char>) -> Seq<char> {
    "  ["@ + text::decimal(index) + "/"@ + text::decimal(total) + "] "@ + what
}

/// The lines of a run of tracks, the first of them numbered `first`.
pub open spec fn listing(
    tracks: Seq<GwTrack>,
    options: DownloadOptions,
    first: nat,
    total: nat,
) -> Seq<report::LineModel> {
    Seq::new(
        tracks.len(),
        |i: int|
            report::LineModel::Out(
                numbered((first + i) as nat, total, verdict(tracks[i], options)),
            ),
    )
}

/// How many of the tracks a dry run rejects.
pub open spec fn rejections(tracks: Seq<GwTrack>, options: DownloadOptions) -> nat
    decreases tracks.len(),
{
    if tracks.len() == 0 {
        0
    } else {
        rejections(tracks.drop_last(), options) + (if is_rejected(tracks.last(), options) {
            1nat
        } else {
            0nat
        })
    }
}

/// No more tracks are rejected than there are.
pub proof fn lemma_rejections_bound(tracks: Seq<GwTrack>, options: DownloadOptions)
    ensures
        rejections(tracks, options) <= tracks.len(),
    decreases tracks.len(),
{
    if tracks.len() > 0 {
        lemma_rejections_bound(tracks.drop_last(), options);
    }
}

fn verdict_text(track: &GwTrack, options: DownloadOptions) -> (r: (String, bool))
    ensures
        r.0@ == verdict(*track, options),
        r.1 == is_rejected(*track, options),
{
    if !options.preview {
        let actual = track::available_format(track, options.format);
        if let Some(min) = options.min_format {
            if actual.rank() < min.rank() {
                let mut s = track.display_name();
                s.append(" [err] below --min-quality ");
                s.append(min.api_name());
                s.append(" (only ");
                s.append(actual.api_name());
                s.append(" available)");
                return (s, true);
            }
        }
    }
    (track::dry_run_track_label(track, options), false)
}

/// Lists tracks for a dry run, the first of them numbered `first`, and counts
/// the rejected ones.
pub fn list_tracks(
    lines: &mut Vec<Line>,
    tracks: &Vec<GwTrack>,
    options: DownloadOptions,
    first: usize,
    total: usize,
) -> (rejected: usize)
    requires
        first + tracks@.len() <= usize::MAX,
    ensures
        report::lines_model(final(lines)@) == report::lines_model(old(lines)@) + listing(
            tracks@,
            options,
            first as nat,
            total as nat,
        ),
        rejected == rejections(tracks@, options),
{
    let ghost before = report::lines_model(lines@);
    let ghost all = listing(tracks@, options, first as nat, total as nat);
    let mut rejected: usize = 0;
    let mut i: usize = 0;
    proof {
        assert(tracks@.take(0) =~= Seq::empty());
        assert(report::lines_model(lines@) =~= before + all.take(0));
    }
    while i < tracks.len()
        invariant
            i <= tracks@.len(),
            first + tracks@.len() <= usize::MAX,
            all == listing(tracks@, options, first as nat, total as nat),
            report::lines_model(lines@) == before + all.take(i as int),
            rejected == rejections(tracks@.take(i as int), options),
            rejected <= i,
        decreases tracks@.len() - i,
    {
        let (what, no) = verdict_text(&tracks[i], options);
        let mut s = "  [".to_owned();
        s.append(text::decimal_text((first + i) as u64).as_str());
        s.append("/");
        s.append(text::decimal_text(total as u64).as_str());
        s.append("] ");
        s.append(what.as_str());
        report::say(lines, s);
        if no {
            rejected = rejected + 1;
        }
        i = i + 1;
        proof {
            assert(tracks@.take(i as int).drop_last() =~= tracks@.take(i - 1));
            assert(report::lines_model(lines@) =~= before + all.take(i as int));
        }
    }
    proof {
        assert(tracks@.take(i as int) =~= tracks@);
        assert(all.take(i as int) =~= all);
    }
    rejected
}

/// The closing line of a dry run that rejected tracks.
pub open spec fn rejection_line(rejected: nat) -> Seq<char> {
    "\nDry run: "@ + text::decimal(rejected) + " track(s) would be rejected by --min-quality"@
}

/// Adds the closing line of a dry run, where tracks were rejected.
pub fn close_dry_run(lines: &mut Vec<Line>, rejected: usize)
    ensures
        report::lines_model(final(lines)@) == (if rejected > 0 {
            report::lines_model(old(lines)@).push(
                report::LineModel::Out(rejection_line(rejected as nat)),
            )
        } else {
            report::lines_model(old(lines)@)
        }),
{
    if rejected > 0 {
        let mut s = "\nDry run: ".to_owned();
        s.append(text::decimal_text(rejected as u64).as_str());
        s.append(" track(s) would be rejected by --min-quality");
        report::say(lines, s);
    }
}

/// The opening line of a dry run.
pub open spec fn opening_line(header: Seq<char>, count: nat, kind: Seq<char>) -> Seq<char> {
    "[dry-run] "@ + header + " ("@ + text::decimal(count) + " track(s), "@ + kind + ")\n"@
}

/// Writes the opening line of a dry run.
pub fn opening(header: &str, count: usize, kind: &str) -> (r: String)
    ensures
        r@ == opening_line(header@, count as nat, kind@),
{
    let mut s = "[dry-run] ".to_owned();
    s.append(header);
    s.append(" (");
    s.append(text::decimal_text(count as u64).as_str());
    s.append(" track(s), ");
    s.append(kind);
    s.append(")\n");
    s
}

/// What a listing of tracks would fetch.
pub open spec fn kind_of(options: DownloadOptions) -> Seq<char> {
    if options.preview {
        if options.preview_and_full {
            "preview + full"@
        } else {
            "preview"@
        }
    } else {
        options.format.label()
    }
}

/// The lines of a dry run over a list of tracks.
pub open spec fn dry_run(header: Seq<char>, tracks: Seq<GwTrack>, options: DownloadOptions) -> Seq<
    report::LineModel,
> {
    let rejected = rejections(tracks, options);
    seq![report::LineModel::Out(opening_line(header, tracks.len(), kind_of(options)))] + listing(
        tracks,
        options,
        1,
        tracks.len(),
    ) + (if rejected > 0 {
        seq![report::LineModel::Out(rejection_line(rejected))]
    } else {
        seq![]
    })
}

/// The tracks that a download would fetch, without downloading. Tracks below
/// the minimum quality are flagged, except where only previews are fetched.
pub fn print_dry_run_tracks(header: &str, tracks: &Vec<GwTrack>, options: DownloadOptions) -> (r:
    Vec<Line>)
    requires
        tracks@.len() < usize::MAX,
    ensures
        report::lines_model(r@) == dry_run(header@, tracks@, options),
{
    let mut lines = report::no_lines();
    let kind = if options.preview {
        if options.preview_and_full {
            "preview + full"
        } else {
            "preview"
        }
    } else {
        options.format.api_name()
    };
    report::say(&mut lines, opening(header, tracks.len(), kind));
    let rejected = list_tracks(&mut lines, tracks, options, 1, tracks.len());
    close_dry_run(&mut lines, rejected);
    proof {
        assert(report::lines_model(lines@) =~= dry_run(header@, tracks@, options));
    }
    lines
}

/// The outcome of one download: the path it was saved to, or what went wrong.
#[derive(Debug, PartialEq)]
pub struct Outcome {
    pub display: String,
    pub result: Result<String, String>,
}

/// How many downloads succeeded.
pub open spec fn successes(outcomes: Seq<Outcome>) -> nat
    decreases outcomes.len(),
{
    if outcomes.len() == 0 {
        0
    } else {
        successes(outcomes.drop_last()) + (if outcomes.last().result is Ok {
            1nat
        } else {
            0nat
        })
    }
}

/// No more downloads succeed than there are.
pub proof fn lemma_successes_bound(outcomes: Seq<Outcome>)
    ensures
        successes(outcomes) <= outcomes.len(),
    decreases outcomes.len(),
{
    if outcomes.len() > 0 {
        lemma_successes_bound(outcomes.drop_last());
    }
}

/// The lines for the downloads that failed, in order, behind a margin.
pub open spec fn failure_lines(outcomes: Seq<Outcome>, margin: Seq<char>) -> Seq<report::LineModel>
    decreases outcomes.len(),
{
    if outcomes.len() == 0 {
        seq![]
    } else {
        let before = failure_lines(outcomes.drop_last(), margin);
        match outcomes.last().result {
            Ok(_) => before,
            Err(e) => before.push(
                report::LineModel::Problem(
                    margin + "[err] "@ + outcomes.last().display@ + ": "@ + e@,
                ),
            ),
        }
    }
}

/// Counts downloads and lists the failed ones: `(lines, downloaded, failed)`.
pub fn summarize_downloads(outcomes: &Vec<Outcome>) -> (r: (Vec<Line>, usize, usize))
    ensures
        report::lines_model(r.0@) == failure_lines(outcomes@, ""@),
        r.1 == successes(outcomes@),
        r.1 + r.2 == outcomes@.len(),
{
    let mut lines = report::no_lines();
    let mut downloaded: usize = 0;
    let mut failed: usize = 0;
    let mut i: usize = 0;
    proof {
        assert(outcomes@.take(0) =~= Seq::empty());
    }
    while i < outcomes.len()
        invariant
            i <= outcomes@.len(),
            report::lines_model(lines@) == failure_lines(outcomes@.take(i as int), ""@),
            downloaded == successes(outcomes@.take(i as int)),
            downloaded + failed == i,
        decreases outcomes@.len() - i,
    {
        let ghost so_far = report::lines_model(lines@);
        match &outcomes[i].result {
            Ok(_) => {
                downloaded = downloaded + 1;
            },
            Err(e) => {
                failed = failed + 1;
                let mut s = "[err] ".to_owned();
                s.append(outcomes[i].display.as_str());
                s.append(": ");
                s.append(e.as_str());
                proof {
                    reveal_strlit("");
                    assert(s@ =~= ""@ + "[err] "@ + outcomes@[i as int].display@ + ": "@ + e@);
                }
                report::warn(&mut lines, s);
            },
        }
        i = i + 1;
        proof {
            assert(outcomes@.take(i as int).drop_last() =~= outcomes@.take(i - 1));
            assert(outcomes@.take(i as int).last() == outcomes@[i - 1]);
        }
    }
    proof {
        assert(outcomes@.take(i as int) =~= outcomes@);
    }
    (lines, downloaded, failed)
}

/// The IDs of batch `k`.
pub open spec fn batch_of(ids: Seq<String>, k: int) -> Seq<String> {
    ids.subrange(
        50 * k,
        if 50 * k + 50 <= ids.len() {
            50 * k + 50
        } else {
            ids.len() as int
        },
    )
}

/// The IDs of one batch of 50; the last batch may be shorter.
pub fn nth_batch(ids: &Vec<String>, k: usize) -> (r: Vec<String>)
    requires
        50 * k <= ids@.len(),
    ensures
        r@ == batch_of(ids@, k as int),
{
    assert(50 * k <= ids.len());
    let from: usize = BATCH * k;
    let to: usize = if ids.len() - from > BATCH {
        from + BATCH
    } else {
        ids.len()
    };
    let mut batch: Vec<String> = Vec::new();
    let mut i: usize = from;
    while i < to
        invariant
            from <= i <= to <= ids@.len(),
            batch@ == ids@.subrange(from as int, i as int),
        decreases to - i,
    {
        batch.push(ids[i].clone());
        i = i + 1;
        proof {
            assert(batch@ =~= ids@.subrange(from as int, i as int));
        }
    }
    batch
}

/// Splits IDs into batches of 50 in order; the last may be shorter.
pub fn batches(ids: &Vec<String>) -> (r: Vec<Vec<String>>)
    ensures
        r@.len() == (ids@.len() + 49) / 50,
        forall|k: int| 0 <= k < r@.len() ==> (#[trigger] r@[k])@ == batch_of(ids@, k),
{
    let count: usize = if ids.len() % BATCH == 0 {
        ids.len() / BATCH
    } else {
        ids.len() / BATCH + 1
    };
    let mut out: Vec<Vec<String>> = Vec::new();
    let mut k: usize = 0;
    while k < count
        invariant
            k <= count,
            count == (ids@.len() + 49) / 50,
            out@.len() == k,
            forall|i: int| 0 <= i < out@.len() ==> (#[trigger] out@[i])@ == batch_of(ids@, i),
        decreases count - k,
    {
        out.push(nth_batch(ids, k));
        k = k + 1;
    }
    out
}

/// Listing tracks in two runs, the second numbered on, gives the lines and the
/// rejections of one run over all of them.
pub proof fn listing_in_batches(
    a: Seq<GwTrack>,
    b: Seq<GwTrack>,
    options: DownloadOptions,
    first: nat,
    total: nat,
)
    ensures
        listing(a, options, first, total) + listing(b, options, first + a.len(), total) == listing(
            a + b,
            options,
            first,
            total,
        ),
        rejections(a, options) + rejections(b, options) == rejections(a + b, options),
    decreases b.len(),
{
    assert(listing(a, options, first, total) + listing(b, options, first + a.len(), total)
        =~= listing(a + b, options, first, total));
    if b.len() == 0 {
        assert(a + b =~= a);
    } else {
        listing_in_batches(a, b.drop_last(), options, first, total);
        assert((a + b).drop_last() =~= a + b.drop_last());
    }
}

/// The batches, one after the other, are all the IDs: none is lost, repeated
/// or moved.
pub proof fn batches_cover_all_ids(ids: Seq<String>, i: int)
    requires
        0 <= i < ids.len(),
    ensures
        0 <= i / 50 < (ids.len() + 49) / 50,
        0 <= i % 50 < batch_of(ids, i / 50).len() <= 50,
        batch_of(ids, i / 50)[i % 50] == ids[i],
{
}

/// A dry run rejects a track exactly where its best format at or below the
/// request is below the minimum. Without a minimum, and where previews are
/// fetched, nothing is rejected.
pub proof fn rejections_go_by_the_minimum(track: GwTrack, options: DownloadOptions)
    ensures
        options.preview || options.min_format is None ==> !is_rejected(track, options),
        !options.preview && options.min_format is Some ==> (is_rejected(track, options)
            <==> track::available(track, options.format).order() < options.min_format->0.order()),
        rejections(seq![track], options) == (if is_rejected(track, options) {
            1nat
        } else {
            0nat
        }),
        rejections(Seq::empty(), options) == 0,
{
    let one = seq![track];
    assert(one.drop_last() =~= Seq::<GwTrack>::empty());
    assert(rejections(Seq::<GwTrack>::empty(), options) == 0);
}

/// A dry run opens with its header and the number of tracks, has one line for
/// each track, numbered from 1, and closes with the number of rejected tracks
/// where there are any.
pub proof fn dry_runs_list_every_track(
    header: Seq<char>,
    tracks: Seq<GwTrack>,
    options: DownloadOptions,
    i: int,
)
    requires
        0 <= i < tracks.len(),
    ensures
        ({
            let lines = dry_run(header, tracks, options);
            &&& lines[0] == report::LineModel::Out(
                "[dry-run] "@ + header + " ("@ + text::decimal(tracks.len()) + " track(s), "@
                    + kind_of(options) + ")\n"@,
            )
            &&& lines[i + 1] == report::LineModel::Out(
                "  ["@ + text::decimal((i + 1) as nat) + "/"@ + text::decimal(tracks.len()) + "] "@
                    + verdict(tracks[i], options),
            )
            &&& rejections(tracks, options) == 0 ==> lines.len() == tracks.len() + 1
            &&& rejections(tracks, options) > 0 ==> lines.len() == tracks.len() + 2 && lines.last()
                == report::LineModel::Out(
                "\nDry run: "@ + text::decimal(rejections(tracks, options))
                    + " track(s) would be rejected by --min-quality"@,
            )
        }),
{
}

/// Every download is counted once: those that succeeded, and those that failed,
/// each with a line that names it and says why, in the order of the downloads.
pub proof fn every_download_is_counted_once(outcomes: Seq<Outcome>, outcome: Outcome, margin: Seq<char>)
    ensures
        successes(outcomes) + failure_lines(outcomes, margin).len() == outcomes.len(),
        outcome.result is Ok ==> successes(outcomes.push(outcome)) == successes(outcomes) + 1
            && failure_lines(outcomes.push(outcome), margin) == failure_lines(outcomes, margin),
        outcome.result matches Err(e) ==> successes(outcomes.push(outcome)) == successes(outcomes)
            && failure_lines(outcomes.push(outcome), margin) == failure_lines(outcomes, margin).push(
            report::LineModel::Problem(margin + "[err] "@ + outcome.display@ + ": "@ + e@),
        ),
    decreases outcomes.len(),
{
    assert(outcomes.push(outcome).drop_last() =~= outcomes);
    if outcomes.len() > 0 {
        every_download_is_counted_once(outcomes.drop_last(), outcome, margin);
    }
}

/// A dry run says of a rejected track which format it has and which was asked
/// for at least, and of any other what would be fetched.
pub proof fn verdicts_say_why(track: GwTrack, options: DownloadOptions)
    ensures
        is_rejected(track, options) ==> verdict(track, options) == track.display_view()
            + " [err] below --min-quality "@ + options.min_format->0.label() + " (only "@
            + track::available(track, options.format).label() + " available)"@,
        !is_rejected(track, options) ==> verdict(track, options) == track::dry_run_label(
            track,
            options,
        ),
        options.preview && options.preview_and_full ==> kind_of(options) == "preview + full"@,
        options.preview && !options.preview_and_full ==> kind_of(options) == "preview"@,
        !options.preview ==> kind_of(options) == options.format.label(),
{
}

} // verus!
