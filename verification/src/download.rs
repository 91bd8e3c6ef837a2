//! Whole downloads: playlists, favorites, albums, discographies, single tracks.

use vstd::prelude::*;

use crate::batch;
use crate::batch::Outcome;
use crate::files;
use crate::json;
use crate::json::Json;
use crate::models;
use crate::models::{AlbumInfo, GwTrack};
use crate::report;
use crate::report::Line;
use crate::text;
use crate::track;
use crate::track::DownloadOptions;

verus! {

/// The text member `key` of a value, or `default`.
pub open spec fn named(value: json::JsonModel, key: Seq<char>, default: Seq<char>) -> Seq<char> {
    models::text_or(json::as_text(json::field(value, key)), default)
}

fn name_or(value: &Json, key: &str, default: &str) -> (r: String)
    ensures
        r@ == named(value.model(), key@, default@),
{
    match value.get_text(key) {
        Some(s) => s,
        None => default.to_owned(),
    }
}

/// The title of a playlist in the gateway's answer.
pub open spec fn playlist_title(info: json::JsonModel) -> Seq<char> {
    match json::field(info, "DATA"@) {
        Some(data) => named(data, "TITLE"@, "Unknown Playlist"@),
        None => "Unknown Playlist"@,
    }
}

/// The title of a playlist in the gateway's answer.
pub fn playlist_name(info: &Json) -> (r: String)
    ensures
        r@ == playlist_title(info.model()),
{
    match info.get("DATA") {
        Some(data) => name_or(data, "TITLE", "Unknown Playlist"),
        None => "Unknown Playlist".to_owned(),
    }
}

/// The name of an artist in the gateway's answer.
pub fn artist_name(info: &Json) -> (r: String)
    ensures
        r@ == named(info.model(), "ART_NAME"@, "Unknown Artist"@),
{
    name_or(info, "ART_NAME", "Unknown Artist")
}

/// The title of an album in the gateway's answer.
pub fn album_title(info: &Json) -> (r: String)
    ensures
        r@ == named(info.model(), "ALB_TITLE"@, "Unknown Album"@),
{
    name_or(info, "ALB_TITLE", "Unknown Album")
}

/// The folder of a playlist, or of an artist.
pub open spec fn folder(output: Seq<char>, name: Seq<char>) -> Seq<char> {
    track::joined(output, files::sanitized(name))
}

/// The folder of a playlist, or of an artist.
pub fn folder_for(output: &str, name: &str) -> (r: String)
    ensures
        r@ == folder(output@, name@),
{
    let safe = files::sanitize_filename(name);
    track::join_path(output, safe.as_str())
}

/// The folder of an album below that of its artist.
pub fn album_folder(output: &str, artist: &str, album: &str) -> (r: String)
    ensures
        r@ == folder(folder(output@, artist@), album@),
{
    let artist_dir = folder_for(output, artist);
    folder_for(artist_dir.as_str(), album)
}

/// The closing line of a list of downloads.
pub open spec fn completion(what: Seq<char>, downloaded: nat, failed: nat, total: nat) -> Seq<char> {
    "\n"@ + what + " complete: "@ + text::decimal(downloaded) + " downloaded, "@ + text::decimal(
        failed,
    ) + " failed out of "@ + text::decimal(total) + " tracks"@
}

/// Writes the closing line of a list of downloads.
pub fn completion_line(what: &str, downloaded: usize, failed: usize, total: usize) -> (r: String)
    ensures
        r@ == completion(what@, downloaded as nat, failed as nat, total as nat),
{
    let mut s = "\n".to_owned();
    s.append(what);
    s.append(" complete: ");
    s.append(text::decimal_text(downloaded as u64).as_str());
    s.append(" downloaded, ");
    s.append(text::decimal_text(failed as u64).as_str());
    s.append(" failed out of ");
    s.append(text::decimal_text(total as u64).as_str());
    s.append(" tracks");
    s
}

/// An album with its tracks, or with why they could not be had.
#[derive(Debug, PartialEq)]
pub struct AlbumAnswer {
    pub title: String,
    pub tracks: Result<Vec<GwTrack>, String>,
}

/// What a dry run says of one track of an album.
pub open spec fn artist_verdict(
    track: GwTrack,
    art_id: Seq<char>,
    artist: Seq<char>,
    options: DownloadOptions,
) -> Seq<char> {
    if !files::belongs_to(track, art_id, artist) {
        "    [skip] Not by "@ + artist
    } else if batch::is_rejected(track, options) {
        "    [err] below --min-quality "@ + options.min_format->0.label() + " (only "@
            + track::available(track, options.format).label() + " available) — "@
            + track.display_view()
    } else {
        "    [dry-run] "@ + track::dry_run_label(track, options)
    }
}

/// What a dry run of a discography says and counts.
pub struct ArtistCount {
    pub lines: Seq<report::LineModel>,
    pub total: nat,
    pub rejected: nat,
}

/// A dry run with the first tracks of one more album.
pub open spec fn count_tracks(
    start: ArtistCount,
    tracks: Seq<GwTrack>,
    art_id: Seq<char>,
    artist: Seq<char>,
    options: DownloadOptions,
) -> ArtistCount
    decreases tracks.len(),
{
    if tracks.len() == 0 {
        start
    } else {
        let before = count_tracks(start, tracks.drop_last(), art_id, artist, options);
        let track = tracks.last();
        let mine = files::belongs_to(track, art_id, artist);
        let no = batch::is_rejected(track, options);
        ArtistCount {
            lines: before.lines.push(
                report::LineModel::Out(artist_verdict(track, art_id, artist, options)),
            ),
            total: before.total + (if mine && !no {
                1nat
            } else {
                0nat
            }),
            rejected: before.rejected + (if mine && no {
                1nat
            } else {
                0nat
            }),
        }
    }
}

/// The line that opens an album.
pub open spec fn album_line(title: Seq<char>) -> Seq<char> {
    "--- Album: "@ + title + " ---"@
}

/// A dry run over albums, in the order in which their tracks arrived.
pub open spec fn count_albums(
    albums: Seq<AlbumAnswer>,
    art_id: Seq<char>,
    artist: Seq<char>,
    options: DownloadOptions,
) -> ArtistCount
    decreases albums.len(),
{
    if albums.len() == 0 {
        ArtistCount { lines: seq![], total: 0, rejected: 0 }
    } else {
        let before = count_albums(albums.drop_last(), art_id, artist, options);
        let album = albums.last();
        let opened = ArtistCount {
            lines: before.lines.push(report::LineModel::Out(album_line(album.title@))),
            total: before.total,
            rejected: before.rejected,
        };
        match album.tracks {
            Ok(tracks) => count_tracks(opened, tracks@, art_id, artist, options),
            Err(e) => ArtistCount {
                lines: opened.lines.push(
                    report::LineModel::Problem("  [err] Failed to get album tracks: "@ + e@),
                ),
                total: opened.total,
                rejected: opened.rejected,
            },
        }
    }
}

/// How many tracks the albums hold together.
pub open spec fn track_count(albums: Seq<AlbumAnswer>) -> nat
    decreases albums.len(),
{
    if albums.len() == 0 {
        0
    } else {
        track_count(albums.drop_last()) + (match albums.last().tracks {
            Ok(tracks) => tracks@.len(),
            Err(_) => 0,
        })
    }
}

/// The closing line of a dry run of a discography.
pub open spec fn artist_dry_run_close(total: nat, rejected: nat) -> Seq<char> {
    "\nDry run complete: would download "@ + text::decimal(total) + " track(s), "@ + text::decimal(
        rejected,
    ) + " rejected by --min-quality"@
}

/// A dry run of a discography.
pub open spec fn artist_dry_run_lines(
    albums: Seq<AlbumAnswer>,
    art_id: Seq<char>,
    artist: Seq<char>,
    options: DownloadOptions,
) -> Seq<report::LineModel> {
    let count = count_albums(albums, art_id, artist, options);
    count.lines.push(report::LineModel::Out(artist_dry_run_close(count.total, count.rejected)))
}

fn artist_verdict_text(track: &GwTrack, art_id: &str, artist: &str, options: DownloadOptions) -> (r:
    (String, bool, bool))
    ensures
        r.0@ == artist_verdict(*track, art_id@, artist@, options),
        r.1 == files::belongs_to(*track, art_id@, artist@),
        r.1 ==> r.2 == batch::is_rejected(*track, options),
{
    if !files::track_belongs_to_artist(track, art_id, artist) {
        let mut s = "    [skip] Not by ".to_owned();
        s.append(artist);
        return (s, false, false);
    }
    if !options.preview {
        let actual = track::available_format(track, options.format);
        if let Some(min) = options.min_format {
            if actual.rank() < min.rank() {
                let mut s = "    [err] below --min-quality ".to_owned();
                s.append(min.api_name());
                s.append(" (only ");
                s.append(actual.api_name());
                s.append(" available) — ");
                s.append(track.display_name().as_str());
                return (s, true, true);
            }
        }
    }
    let mut s = "    [dry-run] ".to_owned();
    s.append(track::dry_run_track_label(track, options).as_str());
    (s, true, false)
}

/// A dry run of a discography: every album and track in the order in which the
/// albums' tracks arrived, then how many tracks would be fetched and how many
/// are below the minimum quality.
pub fn artist_dry_run(
    albums: &Vec<AlbumAnswer>,
    art_id: &str,
    artist: &str,
    options: DownloadOptions,
) -> (r: Vec<Line>)
    requires
        track_count(albums@) <= usize::MAX,
    ensures
        report::lines_model(r@) == artist_dry_run_lines(albums@, art_id@, artist@, options),
{
    let mut lines = report::no_lines();
    let mut total: usize = 0;
    let mut rejected: usize = 0;
    let mut i: usize = 0;
    proof {
        assert(albums@.take(0) =~= Seq::empty());
    }
    while i < albums.len()
        invariant
            i <= albums@.len(),
            track_count(albums@) <= usize::MAX,
            report::lines_model(lines@) == count_albums(
                albums@.take(i as int),
                art_id@,
                artist@,
                options,
            ).lines,
            total == count_albums(albums@.take(i as int), art_id@, artist@, options).total,
            rejected == count_albums(albums@.take(i as int), art_id@, artist@, options).rejected,
            total + rejected <= track_count(albums@.take(i as int)),
        decreases albums@.len() - i,
    {
        let album = &albums[i];
        let ghost before = count_albums(albums@.take(i as int), art_id@, artist@, options);
        let ghost seen = track_count(albums@.take(i as int));
        proof {
            assert(albums@.take(i as int + 1).drop_last() =~= albums@.take(i as int));
            lemma_track_count_grows(albums@, i as int + 1);
        }
        let mut s = "--- Album: ".to_owned();
        s.append(album.title.as_str());
        s.append(" ---");
        report::say(&mut lines, s);
        let ghost opened = ArtistCount {
            lines: before.lines.push(report::LineModel::Out(album_line(album.title@))),
            total: before.total,
            rejected: before.rejected,
        };
        match &album.tracks {
            Ok(tracks) => {
                let mut k: usize = 0;
                proof {
                    assert(tracks@.take(0) =~= Seq::empty());
                }
                while k < tracks.len()
                    invariant
                        k <= tracks@.len(),
                        seen + tracks@.len() <= usize::MAX,
                        report::lines_model(lines@) == count_tracks(
                            opened,
                            tracks@.take(k as int),
                            art_id@,
                            artist@,
                            options,
                        ).lines,
                        total == count_tracks(
                            opened,
                            tracks@.take(k as int),
                            art_id@,
                            artist@,
                            options,
                        ).total,
                        rejected == count_tracks(
                            opened,
                            tracks@.take(k as int),
                            art_id@,
                            artist@,
                            options,
                        ).rejected,
                        total + rejected <= seen + k,
                    decreases tracks@.len() - k,
                {
                    let (what, mine, no) = artist_verdict_text(&tracks[k], art_id, artist, options);
                    report::say(&mut lines, what);
                    if mine {
                        if no {
                            rejected = rejected + 1;
                        } else {
                            total = total + 1;
                        }
                    }
                    k = k + 1;
                    proof {
                        assert(tracks@.take(k as int).drop_last() =~= tracks@.take(k - 1));
                    }
                }
                proof {
                    assert(tracks@.take(k as int) =~= tracks@);
                }
            },
            Err(e) => {
                let mut s = "  [err] Failed to get album tracks: ".to_owned();
                s.append(e.as_str());
                report::warn(&mut lines, s);
            },
        }
        i = i + 1;
    }
    proof {
        assert(albums@.take(i as int) =~= albums@);
    }
    let mut s = "\nDry run complete: would download ".to_owned();
    s.append(text::decimal_text(total as u64).as_str());
    s.append(" track(s), ");
    s.append(text::decimal_text(rejected as u64).as_str());
    s.append(" rejected by --min-quality");
    report::say(&mut lines, s);
    lines
}

proof fn lemma_track_count_grows(albums: Seq<AlbumAnswer>, k: int)
    requires
        0 <= k <= albums.len(),
    ensures
        track_count(albums.take(k)) <= track_count(albums),
    decreases albums.len() - k,
{
    if k < albums.len() {
        lemma_track_count_grows(albums, k + 1);
        assert(albums.take(k + 1).drop_last() =~= albums.take(k));
    } else {
        assert(albums.take(k) =~= albums);
    }
}

/// One download to make: a track and the folder it goes to.
#[derive(Debug, PartialEq)]
pub struct Job {
    pub dir: String,
    pub track: GwTrack,
}

/// What the jobs are, whatever holds their folders' names.
pub open spec fn jobs_model(jobs: Seq<Job>) -> Seq<(Seq<char>, GwTrack)> {
    jobs.map_values(|j: Job| (j.dir@, j.track))
}

/// A job for each track, all in one folder.
pub fn jobs_in(dir: &str, tracks: Vec<GwTrack>) -> (r: Vec<Job>)
    ensures
        jobs_model(r@) == tracks@.map_values(|t: GwTrack| (dir@, t)),
{
    let ghost all = tracks@;
    let ghost wanted = tracks@.map_values(|t: GwTrack| (dir@, t));
    let mut jobs: Vec<Job> = Vec::new();
    proof {
        assert(jobs_model(jobs@) =~= wanted.take(0));
    }
    for track in it: tracks.into_iter()
        invariant
            it.seq() == all,
            wanted == all.map_values(|t: GwTrack| (dir@, t)),
            jobs_model(jobs@) == wanted.take(it.index() as int),
    {
        let ghost before = jobs@;
        jobs.push(Job { dir: dir.to_owned(), track });
        proof {
            assert(jobs_model(jobs@) =~= jobs_model(before).push((dir@, track)));
            assert(jobs_model(jobs@) =~= wanted.take(it.index() as int + 1));
        }
    }
    proof {
        assert(wanted.take(all.len() as int) =~= wanted);
    }
    jobs
}

/// The jobs of those tracks that are by the artist, in order.
pub open spec fn own_jobs(
    dir: Seq<char>,
    tracks: Seq<GwTrack>,
    art_id: Seq<char>,
    artist: Seq<char>,
) -> Seq<(Seq<char>, GwTrack)>
    decreases tracks.len(),
{
    if tracks.len() == 0 {
        seq![]
    } else {
        let before = own_jobs(dir, tracks.drop_last(), art_id, artist);
        if files::belongs_to(tracks.last(), art_id, artist) {
            before.push((dir, tracks.last()))
        } else {
            before
        }
    }
}

/// What was gathered from a discography: lines, jobs and counts.
pub struct Gathered {
    pub lines: Seq<report::LineModel>,
    pub jobs: Seq<(Seq<char>, GwTrack)>,
    pub skipped: nat,
    pub failed: nat,
}

/// What is gathered from albums, in the order in which their tracks arrived.
pub open spec fn gathered(
    albums: Seq<AlbumAnswer>,
    artist_dir: Seq<char>,
    art_id: Seq<char>,
    artist: Seq<char>,
) -> Gathered
    decreases albums.len(),
{
    if albums.len() == 0 {
        Gathered { lines: seq![], jobs: seq![], skipped: 0, failed: 0 }
    } else {
        let before = gathered(albums.drop_last(), artist_dir, art_id, artist);
        let album = albums.last();
        match album.tracks {
            Ok(tracks) => {
                let own = own_jobs(folder(artist_dir, album.title@), tracks@, art_id, artist);
                let skipped = (tracks@.len() - own.len()) as nat;
                let opened = before.lines.push(report::LineModel::Out(album_line(album.title@)));
                Gathered {
                    lines: if skipped > 0 {
                        opened.push(
                            report::LineModel::Out(
                                "    [skip] "@ + text::decimal(skipped) + " track(s) not by "@
                                    + artist,
                            ),
                        )
                    } else {
                        opened
                    },
                    jobs: before.jobs + own,
                    skipped: before.skipped + skipped,
                    failed: before.failed,
                }
            },
            Err(e) => Gathered {
                lines: before.lines.push(
                    report::LineModel::Problem(
                        "  [err] Failed to get album tracks for "@ + album.title@ + ": "@ + e@,
                    ),
                ),
                jobs: before.jobs,
                skipped: before.skipped,
                failed: before.failed + 1,
            },
        }
    }
}

fn own_jobs_of(dir: &str, tracks: Vec<GwTrack>, art_id: &str, artist: &str) -> (r: (Vec<Job>, usize))
    ensures
        jobs_model(r.0@) == own_jobs(dir@, tracks@, art_id@, artist@),
        r.0@.len() + r.1 == tracks@.len(),
{
    let ghost all = tracks@;
    let mut jobs: Vec<Job> = Vec::new();
    let mut skipped: usize = 0;
    let count: usize = tracks.len();
    proof {
        assert(all.take(0) =~= Seq::empty());
        assert(jobs_model(jobs@) =~= Seq::empty());
    }
    for track in it: tracks.into_iter()
        invariant
            it.seq() == all,
            count == all.len(),
            jobs_model(jobs@) == own_jobs(dir@, all.take(it.index() as int), art_id@, artist@),
            jobs@.len() + skipped == it.index(),
    {
        let ghost before = jobs@;
        proof {
            assert(all.take(it.index() as int + 1).drop_last() =~= all.take(it.index() as int));
        }
        if files::track_belongs_to_artist(&track, art_id, artist) {
            jobs.push(Job { dir: dir.to_owned(), track });
            proof {
                assert(jobs_model(jobs@) =~= jobs_model(before).push((dir@, track)));
            }
        } else {
            skipped = skipped + 1;
        }
    }
    proof {
        assert(all.take(all.len() as int) =~= all);
    }
    (jobs, skipped)
}

/// Gathers the jobs of a discography: `(lines, jobs, skipped, failed)`. Tracks
/// by other artists are skipped; an album whose tracks could not be had counts
/// as one failure.
pub fn gather_jobs(
    albums: Vec<AlbumAnswer>,
    artist_dir: &str,
    art_id: &str,
    artist: &str,
) -> (r: (Vec<Line>, Vec<Job>, usize, usize))
    requires
        track_count(albums@) <= usize::MAX,
    ensures
        ({
            let g = gathered(albums@, artist_dir@, art_id@, artist@);
            &&& report::lines_model(r.0@) == g.lines
            &&& jobs_model(r.1@) == g.jobs
            &&& r.2 == g.skipped
            &&& r.3 == g.failed
        }),
{
    let ghost all = albums@;
    let count: usize = albums.len();
    let mut lines = report::no_lines();
    let mut jobs: Vec<Job> = Vec::new();
    let mut skipped: usize = 0;
    let mut failed: usize = 0;
    proof {
        assert(all.take(0) =~= Seq::empty());
        assert(jobs_model(jobs@) =~= Seq::empty());
    }
    for album in it: albums.into_iter()
        invariant
            it.seq() == all,
            count == all.len(),
            track_count(all) <= usize::MAX,
            ({
                let g = gathered(all.take(it.index() as int), artist_dir@, art_id@, artist@);
                &&& report::lines_model(lines@) == g.lines
                &&& jobs_model(jobs@) == g.jobs
                &&& skipped == g.skipped
                &&& failed == g.failed
            }),
            skipped <= track_count(all.take(it.index() as int)),
            failed <= it.index(),
    {
        let ghost before = jobs@;
        proof {
            assert(all.take(it.index() as int + 1).drop_last() =~= all.take(it.index() as int));
            lemma_track_count_grows(all, it.index() as int + 1);
        }
        match album.tracks {
            Ok(tracks) => {
                let dir = folder_for(artist_dir, album.title.as_str());
                let (mut own, others) = own_jobs_of(dir.as_str(), tracks, art_id, artist);
                let mut s = "--- Album: ".to_owned();
                s.append(album.title.as_str());
                s.append(" ---");
                report::say(&mut lines, s);
                if others > 0 {
                    let mut s = "    [skip] ".to_owned();
                    s.append(text::decimal_text(others as u64).as_str());
                    s.append(" track(s) not by ");
                    s.append(artist);
                    report::say(&mut lines, s);
                }
                skipped = skipped + others;
                let ghost more = own@;
                jobs.append(&mut own);
                proof {
                    assert(jobs_model(jobs@) =~= jobs_model(before) + jobs_model(more));
                }
            },
            Err(e) => {
                let mut s = "  [err] Failed to get album tracks for ".to_owned();
                s.append(album.title.as_str());
                s.append(": ");
                s.append(e.as_str());
                report::warn(&mut lines, s);
                failed = failed + 1;
            },
        }
    }
    proof {
        assert(all.take(all.len() as int) =~= all);
    }
    (lines, jobs, skipped, failed)
}

/// The counts of a discography's download.
#[derive(Debug, Clone, Copy, PartialEq, Eq, Structural)]
pub struct ArtistTally {
    pub downloaded: usize,
    pub linked: usize,
    pub skipped: usize,
    pub failed: usize,
}

/// What is said of a download that ended.
pub open spec fn outcome_lines(outcome: Outcome, linked: bool) -> Seq<report::LineModel> {
    match outcome.result {
        Ok(_) => if linked {
            seq![
                report::LineModel::Out(
                    "    [link] "@ + outcome.display@
                        + ": duplicate audio linked to existing file"@,
                ),
            ]
        } else {
            seq![]
        },
        Err(e) => seq![
            report::LineModel::Problem("    [err] "@ + outcome.display@ + ": "@ + e@),
        ],
    }
}

impl ArtistTally {
    /// The closing line.
    pub open spec fn closing(self) -> Seq<char> {
        "\nArtist download complete: "@ + text::decimal(self.downloaded as nat) + " downloaded, "@
            + text::decimal(self.linked as nat) + " linked duplicates, "@ + text::decimal(
            self.skipped as nat,
        ) + " skipped, "@ + text::decimal(self.failed as nat) + " failed"@
    }

    /// The counts with one more download, which was a duplicate or not.
    pub open spec fn with(self, outcome: Outcome, linked: bool) -> ArtistTally {
        match outcome.result {
            Ok(_) => ArtistTally {
                downloaded: (self.downloaded + 1) as usize,
                linked: (self.linked + (if linked {
                    1int
                } else {
                    0int
                })) as usize,
                ..self
            },
            Err(_) => ArtistTally { failed: (self.failed + 1) as usize, ..self },
        }
    }

    /// Counts one finished download: a file that was linked to one with the
    /// same audio counts as downloaded and as linked. Says what there is to
    /// say of it.
    pub fn count(&mut self, outcome: &Outcome, linked: bool) -> (r: Option<Line>)
        requires
            old(self).downloaded < usize::MAX,
            old(self).linked < usize::MAX,
            old(self).failed < usize::MAX,
        ensures
            *final(self) == old(self).with(*outcome, linked),
            match r {
                Some(line) => outcome_lines(*outcome, linked) == seq![line.model()],
                None => outcome_lines(*outcome, linked).len() == 0,
            },
    {
        match &outcome.result {
            Ok(_) => {
                self.downloaded = self.downloaded + 1;
                if linked {
                    self.linked = self.linked + 1;
                    let mut s = "    [link] ".to_owned();
                    s.append(outcome.display.as_str());
                    s.append(": duplicate audio linked to existing file");
                    Some(Line::Out(s))
                } else {
                    None
                }
            },
            Err(e) => {
                self.failed = self.failed + 1;
                let mut s = "    [err] ".to_owned();
                s.append(outcome.display.as_str());
                s.append(": ");
                s.append(e.as_str());
                Some(Line::Problem(s))
            },
        }
    }

    /// The closing line.
    pub fn summary(&self) -> (r: String)
        ensures
            r@ == self.closing(),
    {
        let mut s = "\nArtist download complete: ".to_owned();
        s.append(text::decimal_text(self.downloaded as u64).as_str());
        s.append(" downloaded, ");
        s.append(text::decimal_text(self.linked as u64).as_str());
        s.append(" linked duplicates, ");
        s.append(text::decimal_text(self.skipped as u64).as_str());
        s.append(" skipped, ");
        s.append(text::decimal_text(self.failed as u64).as_str());
        s.append(" failed");
        s
    }
}

/// The folders that hold an artist's releases.
pub fn release_folders(output: &str, artist: &str, albums: &Vec<AlbumInfo>) -> (r: Vec<String>)
    ensures
        r@.len() == albums@.len(),
        forall|i: int|
            0 <= i < albums@.len() ==> (#[trigger] r@[i])@ == folder(
                folder(output@, artist@),
                albums@[i].title_view(),
            ),
{
    let artist_dir = folder_for(output, artist);
    let mut out: Vec<String> = Vec::new();
    let mut i: usize = 0;
    while i < albums.len()
        invariant
            i <= albums@.len(),
            artist_dir@ == folder(output@, artist@),
            out@.len() == i,
            forall|k: int|
                0 <= k < i ==> (#[trigger] out@[k])@ == folder(
                    artist_dir@,
                    albums@[k].title_view(),
                ),
        decreases albums@.len() - i,
    {
        let title = albums[i].title_or_unknown();
        out.push(folder_for(artist_dir.as_str(), title.as_str()));
        i = i + 1;
    }
    out
}

/// Whether some path names an audio file.
pub fn contains_audio(paths: &Vec<String>) -> (r: bool)
    ensures
        r == (exists|i: int| 0 <= i < paths@.len() && files::audio_path((#[trigger] paths@[i])@)),
{
    let mut i: usize = 0;
    while i < paths.len()
        invariant
            i <= paths@.len(),
            forall|k: int| 0 <= k < i ==> !files::audio_path((#[trigger] paths@[k])@),
        decreases paths@.len() - i,
    {
        if files::is_audio_file(paths[i].as_str()) {
            return true;
        }
        i = i + 1;
    }
    false
}

/// Whether an artist's discography is on disk: the artist's folder is there,
/// the artist has releases, and the folder of each of them holds audio.
/// `releases` tells, for each release, whether its folder does.
pub fn is_artist_downloaded(artist_dir_exists: bool, releases: &Vec<bool>) -> (r: bool)
    ensures
        r == (artist_dir_exists && releases@.len() > 0 && (forall|i: int|
            0 <= i < releases@.len() ==> #[trigger] releases@[i])),
{
    if !artist_dir_exists || releases.len() == 0 {
        return false;
    }
    let mut i: usize = 0;
    while i < releases.len()
        invariant
            i <= releases@.len(),
            forall|k: int| 0 <= k < i ==> #[trigger] releases@[k],
        decreases releases@.len() - i,
    {
        if !releases[i] {
            return false;
        }
        i = i + 1;
    }
    true
}

/// The file that the dry run of a single track names.
pub open spec fn single_target(track: GwTrack, options: DownloadOptions) -> Seq<char> {
    let artist = files::sanitized(track.artist_view());
    let title = files::sanitized(track.title_view());
    if options.preview {
        track::preview_file(artist, title)
    } else {
        track::full_file(artist, title, track::available(track, options.format))
    }
}

/// The dry run of a single track: what would be downloaded and where to. A
/// format below the minimum is refused, except for previews.
pub fn single_dry_run(track: &GwTrack, options: DownloadOptions, output: &str) -> (r: Result<
    Vec<Line>,
    String,
>)
    ensures
        match r {
            Ok(lines) => {
                &&& !batch::is_rejected(*track, options)
                &&& report::lines_model(lines@) == seq![
                    report::LineModel::Out(
                        "[dry-run] Would download: "@ + track::dry_run_label(*track, options),
                    ),
                    report::LineModel::Out(
                        "[dry-run] Target: "@ + track::joined(
                            track::joined(output@, files::sanitized(track.artist_view())),
                            single_target(*track, options),
                        ),
                    ),
                ]
            },
            Err(message) => batch::is_rejected(*track, options) && message@
                == track::minimum_refusal(options, track::available(*track, options.format)),
        },
{
    let artist = files::sanitize_filename(track.artist().as_str());
    let title = files::sanitize_filename(track.title().as_str());
    let file = if options.preview {
        track::preview_file_name(artist.as_str(), title.as_str())
    } else {
        let actual = track::available_format(track, options.format);
        match track::check_minimum(options, actual) {
            Ok(_) => {},
            Err(message) => {
                return Err(message);
            },
        }
        track::full_file_name(artist.as_str(), title.as_str(), actual)
    };
    let dir = track::join_path(output, artist.as_str());
    let path = track::join_path(dir.as_str(), file.as_str());
    let mut lines = report::no_lines();
    let mut s = "[dry-run] Would download: ".to_owned();
    s.append(track::dry_run_track_label(track, options).as_str());
    report::say(&mut lines, s);
    let mut s = "[dry-run] Target: ".to_owned();
    s.append(path.as_str());
    report::say(&mut lines, s);
    proof {
        assert(report::lines_model(lines@) =~= seq![
            report::LineModel::Out(
                "[dry-run] Would download: "@ + track::dry_run_label(*track, options),
            ),
            report::LineModel::Out(
                "[dry-run] Target: "@ + track::joined(
                    track::joined(output@, files::sanitized(track.artist_view())),
                    single_target(*track, options),
                ),
            ),
        ]);
    }
    Ok(lines)
}

proof fn lemma_own_jobs_bound(
    dir: Seq<char>,
    tracks: Seq<GwTrack>,
    art_id: Seq<char>,
    artist: Seq<char>,
)
    ensures
        own_jobs(dir, tracks, art_id, artist).len() <= tracks.len(),
    decreases tracks.len(),
{
    if tracks.len() > 0 {
        lemma_own_jobs_bound(dir, tracks.drop_last(), art_id, artist);
    }
}

/// Gathering accounts for every track of every album that answered: each is a
/// job or was skipped.
pub proof fn gathering_loses_no_track(
    albums: Seq<AlbumAnswer>,
    artist_dir: Seq<char>,
    art_id: Seq<char>,
    artist: Seq<char>,
)
    ensures
        ({
            let g = gathered(albums, artist_dir, art_id, artist);
            g.jobs.len() + g.skipped == track_count(albums)
        }),
    decreases albums.len(),
{
    if albums.len() > 0 {
        gathering_loses_no_track(albums.drop_last(), artist_dir, art_id, artist);
        match albums.last().tracks {
            Ok(tracks) => lemma_own_jobs_bound(
                folder(artist_dir, albums.last().title@),
                tracks@,
                art_id,
                artist,
            ),
            Err(_) => {},
        }
    }
}

/// A dry run says what a download would do: it lists for download, or as
/// rejected, exactly the tracks that gathering makes jobs of.
pub proof fn dry_run_counts_what_is_gathered(
    albums: Seq<AlbumAnswer>,
    artist_dir: Seq<char>,
    art_id: Seq<char>,
    artist: Seq<char>,
    options: DownloadOptions,
)
    ensures
        ({
            let count = count_albums(albums, art_id, artist, options);
            count.total + count.rejected == gathered(albums, artist_dir, art_id, artist).jobs.len()
        }),
    decreases albums.len(),
{
    if albums.len() > 0 {
        dry_run_counts_what_is_gathered(
            albums.drop_last(),
            artist_dir,
            art_id,
            artist,
            options,
        );
        let album = albums.last();
        match album.tracks {
            Ok(tracks) => {
                let before = count_albums(albums.drop_last(), art_id, artist, options);
                let opened = ArtistCount {
                    lines: before.lines.push(report::LineModel::Out(album_line(album.title@))),
                    total: before.total,
                    rejected: before.rejected,
                };
                lemma_count_is_own(
                    opened,
                    tracks@,
                    folder(artist_dir, album.title@),
                    art_id,
                    artist,
                    options,
                );
            },
            Err(_) => {},
        }
    }
}

proof fn lemma_count_is_own(
    start: ArtistCount,
    tracks: Seq<GwTrack>,
    dir: Seq<char>,
    art_id: Seq<char>,
    artist: Seq<char>,
    options: DownloadOptions,
)
    ensures
        ({
            let count = count_tracks(start, tracks, art_id, artist, options);
            count.total + count.rejected == start.total + start.rejected + own_jobs(
                dir,
                tracks,
                art_id,
                artist,
            ).len()
        }),
    decreases tracks.len(),
{
    if tracks.len() > 0 {
        lemma_count_is_own(start, tracks.drop_last(), dir, art_id, artist, options);
    }
}

/// Of an album the tracks of the artist are downloaded, into the album's folder
/// below the artist's, in the order of the album; all others are left out.
pub proof fn own_tracks_are_downloaded_in_order(
    dir: Seq<char>,
    tracks: Seq<GwTrack>,
    track: GwTrack,
    art_id: Seq<char>,
    artist: Seq<char>,
)
    ensures
        own_jobs(dir, tracks.push(track), art_id, artist) == (if files::belongs_to(
            track,
            art_id,
            artist,
        ) {
            own_jobs(dir, tracks, art_id, artist).push((dir, track))
        } else {
            own_jobs(dir, tracks, art_id, artist)
        }),
        own_jobs(dir, Seq::empty(), art_id, artist).len() == 0,
{
    assert(tracks.push(track).drop_last() =~= tracks);
}

/// Albums are gathered one behind the other: each adds its own tracks, and one
/// whose tracks could not be had adds none and counts as a failure.
pub proof fn albums_are_gathered_in_turn(
    albums: Seq<AlbumAnswer>,
    album: AlbumAnswer,
    artist_dir: Seq<char>,
    art_id: Seq<char>,
    artist: Seq<char>,
)
    ensures
        ({
            let before = gathered(albums, artist_dir, art_id, artist);
            let after = gathered(albums.push(album), artist_dir, art_id, artist);
            match album.tracks {
                Ok(tracks) => after.failed == before.failed && after.jobs == before.jobs + own_jobs(
                    track::joined(artist_dir, files::sanitized(album.title@)),
                    tracks@,
                    art_id,
                    artist,
                ),
                Err(_) => after.failed == before.failed + 1 && after.jobs == before.jobs
                    && after.skipped == before.skipped,
            }
        }),
{
    assert(albums.push(album).drop_last() =~= albums);
}

/// A dry run of a discography says something of every track, and counts it where
/// it is the artist's: as one to download, or as rejected for its quality.
pub proof fn dry_runs_judge_every_track(
    start: ArtistCount,
    tracks: Seq<GwTrack>,
    track: GwTrack,
    art_id: Seq<char>,
    artist: Seq<char>,
    options: DownloadOptions,
)
    ensures
        ({
            let before = count_tracks(start, tracks, art_id, artist, options);
            let after = count_tracks(start, tracks.push(track), art_id, artist, options);
            let mine = files::belongs_to(track, art_id, artist);
            let rejected = batch::is_rejected(track, options);
            &&& after.lines.len() == before.lines.len() + 1
            &&& !mine ==> after.total == before.total && after.rejected == before.rejected
                && after.lines.last() == report::LineModel::Out("    [skip] Not by "@ + artist)
            &&& mine && !rejected ==> after.total == before.total + 1 && after.rejected
                == before.rejected
            &&& mine && rejected ==> after.total == before.total && after.rejected
                == before.rejected + 1
        }),
{
    assert(tracks.push(track).drop_last() =~= tracks);
}

/// A finished download counts once: as failed, or as downloaded, and then as
/// linked too where its audio was there already.
pub proof fn finished_downloads_count_once(tally: ArtistTally, outcome: Outcome, linked: bool)
    requires
        tally.downloaded < usize::MAX,
        tally.linked < usize::MAX,
        tally.failed < usize::MAX,
    ensures
        tally.with(outcome, linked).skipped == tally.skipped,
        outcome.result is Err ==> tally.with(outcome, linked).failed == tally.failed + 1
            && tally.with(outcome, linked).downloaded == tally.downloaded && tally.with(
            outcome,
            linked,
        ).linked == tally.linked,
        outcome.result is Ok ==> tally.with(outcome, linked).failed == tally.failed && tally.with(
            outcome,
            linked,
        ).downloaded == tally.downloaded + 1 && tally.with(outcome, linked).linked == tally.linked
            + (if linked {
            1int
        } else {
            0int
        }),
{
}

/// A playlist goes by the title in the gateway's answer, and by a name of its own
/// where there is none.
pub proof fn playlists_go_by_their_title(
    title: Seq<char>,
    rest: Seq<(Seq<char>, json::JsonModel)>,
    more: Seq<(Seq<char>, json::JsonModel)>,
)
    ensures
        playlist_title(
            json::JsonModel::Object(
                seq![
                    (
                        "DATA"@,
                        json::JsonModel::Object(
                            seq![("TITLE"@, json::JsonModel::Text(title))] + more,
                        ),
                    ),
                ] + rest,
            ),
        ) == title,
        playlist_title(json::JsonModel::Null) == "Unknown Playlist"@,
{
    let data = seq![("TITLE"@, json::JsonModel::Text(title))] + more;
    assert(data[0] == ("TITLE"@, json::JsonModel::Text(title)));
    let all = seq![("DATA"@, json::JsonModel::Object(data))] + rest;
    assert(all[0] == ("DATA"@, json::JsonModel::Object(data)));
}

/// A single track goes into a file named after it: the preview where that is
/// asked for, and else the track in the format that it comes in.
pub proof fn single_tracks_are_named_by_what_they_are(track: GwTrack, options: DownloadOptions)
    ensures
        options.preview ==> single_target(track, options) == files::sanitized(track.artist_view())
            + " - "@ + files::sanitized(track.title_view()) + " (preview).mp3"@,
        !options.preview ==> single_target(track, options) == files::sanitized(track.artist_view())
            + " - "@ + files::sanitized(track.title_view()) + (if track::available(
            track,
            options.format,
        ) == models::TrackFormat::Flac {
            ".flac"@
        } else {
            ".mp3"@
        }),
{
}

/// What is said of a download that ended: nothing of one that was made, that it
/// was linked, or why it failed.
pub proof fn ended_downloads_are_told_of(outcome: Outcome, linked: bool)
    ensures
        outcome.result is Ok && !linked ==> outcome_lines(outcome, linked).len() == 0,
        outcome.result is Ok && linked ==> outcome_lines(outcome, linked) == seq![
            report::LineModel::Out(
                "    [link] "@ + outcome.display@ + ": duplicate audio linked to existing file"@,
            ),
        ],
        outcome.result matches Err(e) ==> outcome_lines(outcome, linked) == seq![
            report::LineModel::Problem("    [err] "@ + outcome.display@ + ": "@ + e@),
        ],
{
}

/// A list of downloads ends with a line that counts them: those that were made,
/// those that failed, and all.
pub proof fn downloads_end_with_their_counts(
    what: Seq<char>,
    downloaded: nat,
    failed: nat,
    total: nat,
    tally: ArtistTally,
)
    ensures
        completion(what, downloaded, failed, total) == "\n"@ + what + " complete: "@
            + text::decimal(downloaded) + " downloaded, "@ + text::decimal(failed)
            + " failed out of "@ + text::decimal(total) + " tracks"@,
        tally.closing() == "\nArtist download complete: "@ + text::decimal(tally.downloaded as nat)
            + " downloaded, "@ + text::decimal(tally.linked as nat) + " linked duplicates, "@
            + text::decimal(tally.skipped as nat) + " skipped, "@ + text::decimal(
            tally.failed as nat,
        ) + " failed"@,
{
}

/// A dry run of a discography ends with what would be downloaded and what is
/// rejected, behind the lines of its albums.
pub proof fn artist_dry_runs_end_with_their_counts(
    albums: Seq<AlbumAnswer>,
    album: AlbumAnswer,
    art_id: Seq<char>,
    artist: Seq<char>,
    options: DownloadOptions,
)
    ensures
        artist_dry_run_lines(albums, art_id, artist, options).last() == report::LineModel::Out(
            "\nDry run complete: would download "@ + text::decimal(
                count_albums(albums, art_id, artist, options).total,
            ) + " track(s), "@ + text::decimal(
                count_albums(albums, art_id, artist, options).rejected,
            ) + " rejected by --min-quality"@,
        ),
        artist_dry_run_lines(albums, art_id, artist, options).drop_last() == count_albums(
            albums,
            art_id,
            artist,
            options,
        ).lines,
        album.tracks matches Err(e) ==> count_albums(albums.push(album), art_id, artist, options).lines
            == count_albums(albums, art_id, artist, options).lines.push(
            report::LineModel::Out("--- Album: "@ + album.title@ + " ---"@),
        ).push(report::LineModel::Problem("  [err] Failed to get album tracks: "@ + e@)),
        album.tracks is Ok ==> count_albums(albums.push(album), art_id, artist, options)
            == count_tracks(
            ArtistCount {
                lines: count_albums(albums, art_id, artist, options).lines.push(
                    report::LineModel::Out("--- Album: "@ + album.title@ + " ---"@),
                ),
                total: count_albums(albums, art_id, artist, options).total,
                rejected: count_albums(albums, art_id, artist, options).rejected,
            },
            album.tracks->Ok_0@,
            art_id,
            artist,
            options,
        ),
{
    let lines = artist_dry_run_lines(albums, art_id, artist, options);
    assert(lines.drop_last() =~= count_albums(albums, art_id, artist, options).lines);
    assert(albums.push(album).drop_last() =~= albums);
}

/// What a dry run says of a track of the artist: that it would be downloaded, or
/// that it is below the minimum, with the format that it has.
pub proof fn artist_dry_runs_say_why(
    track: GwTrack,
    art_id: Seq<char>,
    artist: Seq<char>,
    options: DownloadOptions,
)
    requires
        files::belongs_to(track, art_id, artist),
    ensures
        !batch::is_rejected(track, options) ==> artist_verdict(track, art_id, artist, options)
            == "    [dry-run] "@ + track::dry_run_label(track, options),
        batch::is_rejected(track, options) ==> artist_verdict(track, art_id, artist, options)
            == "    [err] below --min-quality "@ + options.min_format->0.label() + " (only "@
            + track::available(track, options.format).label() + " available) — "@
            + track.display_view(),
{
}

} // verus!
