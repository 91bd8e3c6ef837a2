//! The download of the favorite tracks, step by step.

use vstd::prelude::*;

use crate::batch;
use crate::batch::Outcome;
use crate::download;
use crate::download::Job;
use crate::models::GwTrack;
use crate::report;
use crate::report::Line;
use crate::text;
use crate::track;
use crate::track::DownloadOptions;

verus! {

/// What a download of the favorites is at.
#[derive(Debug, Clone, Copy, PartialEq, Eq, Structural)]
pub enum FavoritesStage {
    /// Asking which tracks are favorites.
    Listing,
    /// Asking for the tracks of a batch.
    Fetching,
    /// Downloading a batch.
    Downloading,
    /// Nothing is left to do.
    Finished,
}

/// What happened.
#[derive(Debug, PartialEq)]
pub enum FavoritesEvent {
    /// The gateway listed the IDs of the favorites.
    Ids(Vec<String>),
    /// The gateway sent the tracks of a batch.
    Tracks(Vec<GwTrack>),
    /// The downloads of a batch, in the order in which they ended.
    Downloaded(Vec<Outcome>),
}

/// What to do next.
#[derive(Debug, PartialEq)]
pub enum FavoritesStep {
    /// Ask the gateway for the IDs of the favorites.
    AskIds,
    /// Ask the gateway for the tracks of these IDs.
    AskTracks(Vec<String>),
    /// Make the downloads.
    Download,
    /// Nothing.
    Done,
}

/// A download of the favorites: `batch` batches were asked for and dealt with,
/// `listed` tracks were listed by a dry run, and `rejected` of them rejected.
pub struct FavoritesModel {
    pub output: Seq<char>,
    pub options: DownloadOptions,
    pub dry_run: bool,
    pub stage: FavoritesStage,
    pub ids: Seq<String>,
    pub batch: nat,
    pub listed: nat,
    pub rejected: nat,
    pub jobs: Seq<(Seq<char>, GwTrack)>,
    pub downloaded: nat,
    pub failed: nat,
}

/// What a dry run of the favorites would fetch.
pub open spec fn favorites_kind(options: DownloadOptions) -> Seq<char> {
    if options.preview_and_full {
        "preview + full"@
    } else if options.preview {
        "preview"@
    } else {
        options.format.label()
    }
}

impl FavoritesModel {
    /// The folder of the favorites.
    pub open spec fn folder(self) -> Seq<char> {
        track::joined(self.output, "Favorites"@)
    }

    /// The download with one more batch dealt with.
    pub open spec fn with_batch_done(self) -> FavoritesModel {
        FavoritesModel {
            batch: self.batch + 1,
            stage: if 50 * (self.batch + 1) >= self.ids.len() {
                FavoritesStage::Finished
            } else {
                FavoritesStage::Fetching
            },
            ..self
        }
    }

    /// What is said once the last batch is dealt with.
    pub open spec fn closing_lines(self) -> Seq<report::LineModel> {
        if self.stage != FavoritesStage::Finished {
            seq![]
        } else if self.dry_run {
            if self.rejected > 0 {
                seq![report::LineModel::Out(batch::rejection_line(self.rejected))]
            } else {
                seq![]
            }
        } else {
            seq![
                report::LineModel::Out(
                    download::completion("Favorites"@, self.downloaded, self.failed, self.ids.len()),
                ),
            ]
        }
    }

    /// The download after an event. One that does not belong there changes
    /// nothing.
    pub open spec fn after(self, event: FavoritesEvent) -> FavoritesModel {
        match (self.stage, event) {
            (FavoritesStage::Listing, FavoritesEvent::Ids(ids)) => FavoritesModel {
                ids: ids@,
                stage: if ids@.len() == 0 {
                    FavoritesStage::Finished
                } else {
                    FavoritesStage::Fetching
                },
                ..self
            },
            (FavoritesStage::Fetching, FavoritesEvent::Tracks(tracks)) => if self.dry_run {
                FavoritesModel {
                    listed: self.listed + tracks@.len(),
                    rejected: self.rejected + batch::rejections(tracks@, self.options),
                    ..self
                }.with_batch_done()
            } else {
                FavoritesModel {
                    jobs: tracks@.map_values(|t: GwTrack| (self.folder(), t)),
                    stage: FavoritesStage::Downloading,
                    ..self
                }
            },
            (FavoritesStage::Downloading, FavoritesEvent::Downloaded(outcomes)) => FavoritesModel {
                downloaded: self.downloaded + batch::successes(outcomes@),
                failed: (self.failed + outcomes@.len() - batch::successes(outcomes@)) as nat,
                ..self
            }.with_batch_done(),
            _ => self,
        }
    }

    /// What is said on an event.
    pub open spec fn says(self, event: FavoritesEvent) -> Seq<report::LineModel> {
        match (self.stage, event) {
            (FavoritesStage::Listing, FavoritesEvent::Ids(ids)) => if ids@.len() == 0 {
                seq![report::LineModel::Out("No favorite tracks found."@)]
            } else if self.dry_run {
                seq![
                    report::LineModel::Out(
                        batch::opening_line(
                            "Favorites"@,
                            ids@.len(),
                            favorites_kind(self.options),
                        ),
                    ),
                ]
            } else {
                seq![
                    report::LineModel::Out(
                        "Found "@ + text::decimal(ids@.len()) + " favorite tracks\n"@,
                    ),
                ]
            },
            (FavoritesStage::Fetching, FavoritesEvent::Tracks(tracks)) => if self.dry_run {
                batch::listing(tracks@, self.options, self.listed + 1, self.ids.len()) + self.after(
                    event,
                ).closing_lines()
            } else {
                seq![]
            },
            (FavoritesStage::Downloading, FavoritesEvent::Downloaded(outcomes)) =>
                batch::failure_lines(outcomes@, ""@) + self.after(event).closing_lines(),
            _ => seq![],
        }
    }

    /// Whether the batches dealt with are within the list, and all of them once
    /// nothing is left to do.
    pub open spec fn wf(self) -> bool {
        &&& self.rejected <= self.listed
        &&& match self.stage {
            FavoritesStage::Listing => self.ids.len() == 0 && self.batch == 0,
            FavoritesStage::Finished => 50 * self.batch >= self.ids.len(),
            _ => 50 * self.batch < self.ids.len(),
        }
    }

    /// Whether there is room to count what an event brings.
    pub open spec fn has_room(self, event: FavoritesEvent) -> bool {
        match event {
            FavoritesEvent::Ids(_) => true,
            FavoritesEvent::Tracks(tracks) => self.listed + tracks@.len() < usize::MAX,
            FavoritesEvent::Downloaded(outcomes) => self.downloaded + self.failed + outcomes@.len()
                <= usize::MAX,
        }
    }
}

/// The download of the favorites.
#[derive(Debug)]
pub struct FavoritesDownload {
    output: String,
    options: DownloadOptions,
    dry_run: bool,
    stage: FavoritesStage,
    ids: Vec<String>,
    batch: usize,
    listed: usize,
    rejected: usize,
    jobs: Vec<Job>,
    downloaded: usize,
    failed: usize,
}

impl FavoritesDownload {
    /// The download as it stands.
    pub closed spec fn view(self) -> FavoritesModel {
        FavoritesModel {
            output: self.output@,
            options: self.options,
            dry_run: self.dry_run,
            stage: self.stage,
            ids: self.ids@,
            batch: self.batch as nat,
            listed: self.listed as nat,
            rejected: self.rejected as nat,
            jobs: download::jobs_model(self.jobs@),
            downloaded: self.downloaded as nat,
            failed: self.failed as nat,
        }
    }

    /// A download that has not begun.
    pub fn new(output: String, options: DownloadOptions, dry_run: bool) -> (r: FavoritesDownload)
        ensures
            r.view().wf(),
            r.view() == (FavoritesModel {
                output: output@,
                options,
                dry_run,
                stage: FavoritesStage::Listing,
                ids: seq![],
                batch: 0,
                listed: 0,
                rejected: 0,
                jobs: seq![],
                downloaded: 0,
                failed: 0,
            }),
    {
        let r = FavoritesDownload {
            output,
            options,
            dry_run,
            stage: FavoritesStage::Listing,
            ids: Vec::new(),
            batch: 0,
            listed: 0,
            rejected: 0,
            jobs: Vec::new(),
            downloaded: 0,
            failed: 0,
        };
        proof {
            assert(download::jobs_model(r.jobs@) =~= seq![]);
        }
        r
    }

    /// What to do next.
    pub fn step(&self) -> (r: FavoritesStep)
        requires
            self.view().wf(),
        ensures
            match self.view().stage {
                FavoritesStage::Listing => r is AskIds,
                FavoritesStage::Fetching => r matches FavoritesStep::AskTracks(ids) && ids@
                    == batch::batch_of(self.view().ids, self.view().batch as int),
                FavoritesStage::Downloading => r is Download,
                FavoritesStage::Finished => r is Done,
            },
    {
        match self.stage {
            FavoritesStage::Listing => FavoritesStep::AskIds,
            FavoritesStage::Fetching => {
                assert(50 * self.batch < self.ids.len());
                FavoritesStep::AskTracks(batch::nth_batch(&self.ids, self.batch))
            },
            FavoritesStage::Downloading => FavoritesStep::Download,
            FavoritesStage::Finished => FavoritesStep::Done,
        }
    }

    /// The downloads to make.
    pub fn jobs(&self) -> (r: &Vec<Job>)
        ensures
            download::jobs_model(r@) == self.view().jobs,
    {
        &self.jobs
    }

    fn finish_batch(&mut self, lines: &mut Vec<Line>)
        requires
            old(self).view().rejected <= old(self).view().listed,
            50 * old(self).view().batch < old(self).view().ids.len(),
        ensures
            final(self).view() == old(self).view().with_batch_done(),
            final(self).view().wf(),
            report::lines_model(final(lines)@) == report::lines_model(old(lines)@)
                + final(self).view().closing_lines(),
    {
        let ghost said = report::lines_model(lines@);
        assert(50 * self.batch < self.ids.len());
        self.batch = self.batch + 1;
        if (self.ids.len() - 1) / batch::BATCH < self.batch {
            self.stage = FavoritesStage::Finished;
            if self.dry_run {
                batch::close_dry_run(lines, self.rejected);
            } else {
                let line = download::completion_line(
                    "Favorites",
                    self.downloaded,
                    self.failed,
                    self.ids.len(),
                );
                report::say(lines, line);
            }
        } else {
            self.stage = FavoritesStage::Fetching;
        }
        proof {
            assert(report::lines_model(lines@) =~= said + self.view().closing_lines());
        }
    }

    /// Takes in what happened; what there is to say of it.
    pub fn on_event(&mut self, event: FavoritesEvent) -> (r: Vec<Line>)
        requires
            old(self).view().wf(),
            old(self).view().has_room(event),
        ensures
            final(self).view().wf(),
            final(self).view() == old(self).view().after(event),
            report::lines_model(r@) == old(self).view().says(event),
    {
        let mut lines = report::no_lines();
        match (self.stage, event) {
            (FavoritesStage::Listing, FavoritesEvent::Ids(ids)) => {
                if ids.len() == 0 {
                    report::say(&mut lines, "No favorite tracks found.".to_owned());
                    self.stage = FavoritesStage::Finished;
                } else {
                    if self.dry_run {
                        let kind = if self.options.preview_and_full {
                            "preview + full"
                        } else if self.options.preview {
                            "preview"
                        } else {
                            self.options.format.api_name()
                        };
                        report::say(&mut lines, batch::opening("Favorites", ids.len(), kind));
                    } else {
                        let mut s = "Found ".to_owned();
                        s.append(text::decimal_text(ids.len() as u64).as_str());
                        s.append(" favorite tracks\n");
                        report::say(&mut lines, s);
                    }
                    self.stage = FavoritesStage::Fetching;
                }
                self.ids = ids;
            },
            (FavoritesStage::Fetching, FavoritesEvent::Tracks(tracks)) => {
                if self.dry_run {
                    let rejected = batch::list_tracks(
                        &mut lines,
                        &tracks,
                        self.options,
                        self.listed + 1,
                        self.ids.len(),
                    );
                    proof {
                        batch::lemma_rejections_bound(tracks@, self.options);
                    }
                    self.listed = self.listed + tracks.len();
                    self.rejected = self.rejected + rejected;
                    self.finish_batch(&mut lines);
                } else {
                    let dir = track::join_path(self.output.as_str(), "Favorites");
                    self.jobs = download::jobs_in(dir.as_str(), tracks);
                    self.stage = FavoritesStage::Downloading;
                }
            },
            (FavoritesStage::Downloading, FavoritesEvent::Downloaded(outcomes)) => {
                let (said, downloaded, failed) = batch::summarize_downloads(&outcomes);
                lines = said;
                self.downloaded = self.downloaded + downloaded;
                self.failed = self.failed + failed;
                self.finish_batch(&mut lines);
            },
            _ => {},
        }
        proof {
            assert(report::lines_model(lines@) =~= old(self).view().says(event));
        }
        lines
    }
}

/// Once nothing is left to do, every favorite was asked for in one of the
/// batches.
pub proof fn every_favorite_is_asked_for(run: FavoritesModel, i: int)
    requires
        run.wf(),
        run.stage == FavoritesStage::Finished,
        0 <= i < run.ids.len(),
    ensures
        0 <= i / 50 < run.batch,
        batch::batch_of(run.ids, i / 50)[i % 50] == run.ids[i],
{
    batch::batches_cover_all_ids(run.ids, i);
}

/// Every event that belongs there brings a download nearer to its end: batch
/// after batch is dealt with, and none twice.
pub proof fn batches_are_dealt_with_in_turn(run: FavoritesModel, event: FavoritesEvent)
    requires
        run.wf(),
        run.stage != FavoritesStage::Listing,
    ensures
        run.after(event).wf(),
        run.after(event).ids == run.ids,
        run.batch <= run.after(event).batch <= run.batch + 1,
        run.after(event).batch == run.batch ==> (run.after(event) == run || run.after(event).stage
            == FavoritesStage::Downloading),
{
    match event {
        FavoritesEvent::Tracks(tracks) => {
            batch::lemma_rejections_bound(tracks@, run.options);
        },
        _ => {},
    }
}

/// A dry run of the favorites downloads nothing, whatever happens.
pub proof fn favorites_dry_runs_only_ask(run: FavoritesModel, event: FavoritesEvent)
    requires
        run.dry_run,
        run.stage != FavoritesStage::Downloading,
    ensures
        run.after(event).dry_run,
        run.after(event).stage != FavoritesStage::Downloading,
{
}

/// Every download of a batch is counted, as done or as failed.
pub proof fn batches_count_every_download(run: FavoritesModel, outcomes: Vec<Outcome>)
    requires
        run.stage == FavoritesStage::Downloading,
    ensures
        ({
            let next = run.after(FavoritesEvent::Downloaded(outcomes));
            next.downloaded + next.failed == run.downloaded + run.failed + outcomes@.len()
        }),
{
    batch::lemma_successes_bound(outcomes@);
}

/// Favorites are asked for in batches of 50, one behind the other, and the
/// download is finished exactly once the last of them was dealt with. Without
/// favorites it is finished at once.
pub proof fn favorites_come_in_batches_of_fifty(
    run: FavoritesModel,
    ids: Vec<String>,
    tracks: Vec<GwTrack>,
    outcomes: Vec<Outcome>,
)
    requires
        run.wf(),
    ensures
        run.stage == FavoritesStage::Listing ==> ({
            let next = run.after(FavoritesEvent::Ids(ids));
            &&& next.ids == ids@
            &&& next.batch == 0
            &&& next.stage == FavoritesStage::Finished <==> ids@.len() == 0
            &&& next.stage == FavoritesStage::Fetching <==> ids@.len() > 0
        }),
        run.stage == FavoritesStage::Fetching && run.dry_run ==> ({
            let next = run.after(FavoritesEvent::Tracks(tracks));
            &&& next.batch == run.batch + 1
            &&& next.listed == run.listed + tracks@.len()
            &&& next.rejected == run.rejected + batch::rejections(tracks@, run.options)
            &&& next.stage == FavoritesStage::Finished <==> run.ids.len() <= 50 * run.batch + 50
        }),
        run.stage == FavoritesStage::Downloading ==> ({
            let next = run.after(FavoritesEvent::Downloaded(outcomes));
            &&& next.batch == run.batch + 1
            &&& next.downloaded == run.downloaded + batch::successes(outcomes@)
            &&& next.stage == FavoritesStage::Finished <==> run.ids.len() <= 50 * run.batch + 50
            &&& next.stage == FavoritesStage::Fetching <==> run.ids.len() > 50 * run.batch + 50
        }),
{
    batch::lemma_successes_bound(outcomes@);
}

/// Every track of a batch is downloaded, into the folder of the favorites below
/// the output folder.
pub proof fn favorites_go_into_their_folder(run: FavoritesModel, tracks: Vec<GwTrack>, i: int)
    requires
        run.stage == FavoritesStage::Fetching,
        !run.dry_run,
        0 <= i < tracks@.len(),
        run.output.len() > 0,
        run.output.last() != '/',
    ensures
        ({
            let next = run.after(FavoritesEvent::Tracks(tracks));
            &&& next.stage == FavoritesStage::Downloading
            &&& next.jobs.len() == tracks@.len()
            &&& next.jobs[i] == (run.output + "/"@ + "Favorites"@, tracks@[i])
        }),
{
    reveal_strlit("Favorites");
}

/// The lines of a dry run are numbered through all batches, out of the number of
/// favorites.
pub proof fn favorites_are_numbered_through(run: FavoritesModel, tracks: Vec<GwTrack>, i: int)
    requires
        run.stage == FavoritesStage::Fetching,
        run.dry_run,
        0 <= i < tracks@.len(),
    ensures
        run.says(FavoritesEvent::Tracks(tracks))[i] == report::LineModel::Out(
            "  ["@ + text::decimal((run.listed + i + 1) as nat) + "/"@ + text::decimal(run.ids.len())
                + "] "@ + batch::verdict(tracks@[i], run.options),
        ),
{
}

/// Once all batches are dealt with, the download says how many favorites were
/// downloaded and how many failed, out of all of them. A dry run says how many
/// would be rejected, where any would.
pub proof fn favorites_end_with_their_counts(run: FavoritesModel)
    ensures
        run.stage != FavoritesStage::Finished ==> run.closing_lines().len() == 0,
        run.stage == FavoritesStage::Finished && !run.dry_run ==> run.closing_lines() == seq![
            report::LineModel::Out(
                "\n"@ + "Favorites"@ + " complete: "@ + text::decimal(run.downloaded)
                    + " downloaded, "@ + text::decimal(run.failed) + " failed out of "@
                    + text::decimal(run.ids.len()) + " tracks"@,
            ),
        ],
        run.stage == FavoritesStage::Finished && run.dry_run && run.rejected == 0
            ==> run.closing_lines().len() == 0,
        run.stage == FavoritesStage::Finished && run.dry_run && run.rejected > 0
            ==> run.closing_lines() == seq![
            report::LineModel::Out(
                "\nDry run: "@ + text::decimal(run.rejected)
                    + " track(s) would be rejected by --min-quality"@,
            ),
        ],
{
}

/// The listing of favorites names what would be fetched: preview and track, the
/// preview, or the format of the track.
pub proof fn favorites_say_what_is_fetched(options: DownloadOptions)
    ensures
        options.preview_and_full ==> favorites_kind(options) == "preview + full"@,
        options.preview && !options.preview_and_full ==> favorites_kind(options) == "preview"@,
        !options.preview && !options.preview_and_full ==> favorites_kind(options)
            == options.format.label(),
{
}

} // verus!
