//! The download of a discography, step by step.

use vstd::prelude::*;

use crate::batch::Outcome;
use crate::download;
use crate::download::{AlbumAnswer, ArtistTally, Job};
use crate::files;
use crate::json;
use crate::json::Json;
use crate::models::{AlbumInfo, GwTrack};
use crate::report;
use crate::report::Line;
use crate::text;
use crate::track;
use crate::track::DownloadOptions;

verus! {

/// What a download of a discography is at.
#[derive(Debug, Clone, Copy, PartialEq, Eq, Structural)]
pub enum ArtistStage {
    /// Asking who the artist is.
    Naming,
    /// Asking for the releases.
    Listing,
    /// Removing the files of others from the artist's folder.
    Cleaning,
    /// Linking the duplicates that are there already.
    Indexing,
    /// Asking for the tracks of the releases.
    Gathering,
    /// Downloading.
    Downloading,
    /// Linking what was downloaded twice.
    Settling,
    /// Nothing is left to do.
    Finished,
}

/// What happened.
#[derive(Debug, PartialEq)]
pub enum ArtistEvent {
    /// The gateway told of the artist.
    Info(Json),
    /// The gateway listed the releases.
    Discography(Vec<AlbumInfo>),
    /// So many files of others were removed.
    Cleaned(usize),
    /// So many duplicates were linked.
    Indexed(usize),
    /// The tracks of the releases, in the order in which they arrived.
    Tracks(Vec<AlbumAnswer>),
    /// The downloads, in the order in which they ended.
    Downloaded(Vec<Outcome>),
    /// Whether the file was a duplicate and was linked.
    Deduped(bool),
}

/// What to do next.
#[derive(Debug, PartialEq)]
pub enum ArtistStep {
    /// Ask the gateway for the artist.
    AskInfo,
    /// Ask the gateway for the releases.
    AskDiscography,
    /// Remove the files in this folder that are not by this artist.
    Clean(String, String),
    /// Link the duplicates in this folder.
    Index(String),
    /// Ask for the tracks of the releases.
    AskTracks,
    /// Make the downloads.
    Download,
    /// Link this file if it is a duplicate.
    Dedupe(String),
    /// Nothing.
    Done,
}

/// A download of a discography. `pending` are the downloads that ended and are
/// not yet counted.
pub struct ArtistModel {
    pub art_id: Seq<char>,
    pub output: Seq<char>,
    pub options: DownloadOptions,
    pub dry_run: bool,
    pub stage: ArtistStage,
    pub name: Seq<char>,
    pub albums: Seq<AlbumInfo>,
    pub jobs: Seq<(Seq<char>, GwTrack)>,
    pub pending: Seq<Outcome>,
    pub tally: ArtistTally,
}

/// How many of the first downloads failed before one that did not.
pub open spec fn leading_failures(outcomes: Seq<Outcome>) -> nat
    decreases outcomes.len(),
{
    if outcomes.len() == 0 || outcomes[0].result is Ok {
        0
    } else {
        1 + leading_failures(outcomes.skip(1))
    }
}

/// What is said of downloads, none of which was a duplicate.
pub open spec fn lines_of_all(outcomes: Seq<Outcome>) -> Seq<report::LineModel>
    decreases outcomes.len(),
{
    if outcomes.len() == 0 {
        seq![]
    } else {
        lines_of_all(outcomes.drop_last()) + download::outcome_lines(outcomes.last(), false)
    }
}

impl ArtistModel {
    /// The artist's folder.
    pub open spec fn folder(self) -> Seq<char> {
        download::folder(self.output, self.name)
    }

    /// Counts the failures at the front; with nothing left, the download is
    /// finished.
    pub open spec fn settled(self) -> ArtistModel {
        let failures = leading_failures(self.pending);
        let rest = self.pending.skip(failures as int);
        ArtistModel {
            tally: ArtistTally { failed: (self.tally.failed + failures) as usize, ..self.tally },
            pending: rest,
            stage: if rest.len() == 0 {
                ArtistStage::Finished
            } else {
                ArtistStage::Settling
            },
            ..self
        }
    }

    /// What is said of the failures at the front, and in the end.
    pub open spec fn settling_lines(self) -> Seq<report::LineModel> {
        let failures = leading_failures(self.pending) as int;
        let said = lines_of_all(self.pending.take(failures));
        if failures == self.pending.len() {
            said.push(report::LineModel::Out(self.settled().tally.closing()))
        } else {
            said
        }
    }

    /// The download after an event. One that does not belong there changes
    /// nothing.
    pub open spec fn after(self, event: ArtistEvent) -> ArtistModel {
        match (self.stage, event) {
            (ArtistStage::Naming, ArtistEvent::Info(info)) => ArtistModel {
                name: download::named(info.model(), "ART_NAME"@, "Unknown Artist"@),
                stage: ArtistStage::Listing,
                ..self
            },
            (ArtistStage::Listing, ArtistEvent::Discography(albums)) => ArtistModel {
                albums: albums@,
                stage: if albums@.len() == 0 {
                    ArtistStage::Finished
                } else if self.dry_run {
                    ArtistStage::Gathering
                } else {
                    ArtistStage::Cleaning
                },
                ..self
            },
            (ArtistStage::Cleaning, ArtistEvent::Cleaned(_)) => ArtistModel {
                stage: ArtistStage::Indexing,
                ..self
            },
            (ArtistStage::Indexing, ArtistEvent::Indexed(linked)) => ArtistModel {
                tally: ArtistTally { linked, ..self.tally },
                stage: ArtistStage::Gathering,
                ..self
            },
            (ArtistStage::Gathering, ArtistEvent::Tracks(answers)) => if self.dry_run {
                ArtistModel { stage: ArtistStage::Finished, ..self }
            } else {
                let g = download::gathered(answers@, self.folder(), self.art_id, self.name);
                ArtistModel {
                    jobs: g.jobs,
                    tally: ArtistTally {
                        skipped: g.skipped as usize,
                        failed: g.failed as usize,
                        ..self.tally
                    },
                    stage: ArtistStage::Downloading,
                    ..self
                }
            },
            (ArtistStage::Downloading, ArtistEvent::Downloaded(outcomes)) => ArtistModel {
                pending: outcomes@,
                ..self
            }.settled(),
            (ArtistStage::Settling, ArtistEvent::Deduped(linked)) => self.counting(
                linked,
            ).settled(),
            _ => self,
        }
    }

    /// The first pending download counted.
    pub open spec fn counting(self, linked: bool) -> ArtistModel {
        ArtistModel {
            tally: self.tally.with(self.pending[0], linked),
            pending: self.pending.skip(1),
            ..self
        }
    }

    /// What is said on an event.
    pub open spec fn says(self, event: ArtistEvent) -> Seq<report::LineModel> {
        match (self.stage, event) {
            (ArtistStage::Naming, ArtistEvent::Info(_)) => seq![
                report::LineModel::Out(
                    "Fetching discography for: "@ + self.after(event).name + "\n"@,
                ),
            ],
            (ArtistStage::Listing, ArtistEvent::Discography(albums)) => if albums@.len() == 0 {
                seq![report::LineModel::Out("No albums found for this artist."@)]
            } else {
                seq![
                    report::LineModel::Out(
                        "Found "@ + text::decimal(albums@.len()) + " albums/releases\n"@,
                    ),
                ]
            },
            (ArtistStage::Cleaning, ArtistEvent::Cleaned(removed)) => if removed > 0 {
                seq![
                    report::LineModel::Out(
                        "Removed "@ + text::decimal(removed as nat) + " non-"@ + self.name
                            + " audio file(s) from the artist folder\n"@,
                    ),
                ]
            } else {
                seq![]
            },
            (ArtistStage::Indexing, ArtistEvent::Indexed(linked)) => if linked > 0 {
                seq![
                    report::LineModel::Out(
                        "Linked "@ + text::decimal(linked as nat)
                            + " duplicate audio file(s) already present in the artist folder\n"@,
                    ),
                ]
            } else {
                seq![]
            },
            (ArtistStage::Gathering, ArtistEvent::Tracks(answers)) => if self.dry_run {
                download::artist_dry_run_lines(answers@, self.art_id, self.name, self.options)
            } else {
                download::gathered(answers@, self.folder(), self.art_id, self.name).lines
            },
            (ArtistStage::Downloading, ArtistEvent::Downloaded(outcomes)) => ArtistModel {
                pending: outcomes@,
                ..self
            }.settling_lines(),
            (ArtistStage::Settling, ArtistEvent::Deduped(linked)) => download::outcome_lines(
                self.pending[0],
                linked,
            ) + self.counting(linked).settling_lines(),
            _ => seq![],
        }
    }

    /// Whether the counts have room for all pending downloads, and a download
    /// that is being settled is one that did not fail.
    pub open spec fn wf(self) -> bool {
        &&& self.tally.downloaded + self.pending.len() <= usize::MAX
        &&& self.tally.linked + self.pending.len() <= usize::MAX
        &&& self.tally.failed + self.pending.len() <= usize::MAX
        &&& self.stage == ArtistStage::Settling <==> self.pending.len() > 0
        &&& self.stage == ArtistStage::Settling ==> self.pending[0].result is Ok
    }

    /// Whether there is room to count what an event brings.
    pub open spec fn has_room(self, event: ArtistEvent) -> bool {
        match event {
            ArtistEvent::Tracks(answers) => download::track_count(answers@) <= usize::MAX,
            ArtistEvent::Downloaded(outcomes) => {
                &&& self.tally.downloaded + outcomes@.len() <= usize::MAX
                &&& self.tally.linked + outcomes@.len() <= usize::MAX
                &&& self.tally.failed + outcomes@.len() <= usize::MAX
            },
            _ => true,
        }
    }
}

/// The download of a discography.
#[derive(Debug)]
pub struct ArtistDownload {
    art_id: String,
    output: String,
    options: DownloadOptions,
    dry_run: bool,
    stage: ArtistStage,
    name: String,
    albums: Vec<AlbumInfo>,
    jobs: Vec<Job>,
    outcomes: Vec<Outcome>,
    next: usize,
    tally: ArtistTally,
}

impl ArtistDownload {
    /// The download as it stands.
    pub closed spec fn view(self) -> ArtistModel {
        ArtistModel {
            art_id: self.art_id@,
            output: self.output@,
            options: self.options,
            dry_run: self.dry_run,
            stage: self.stage,
            name: self.name@,
            albums: self.albums@,
            jobs: download::jobs_model(self.jobs@),
            pending: self.outcomes@.skip(self.next as int),
            tally: self.tally,
        }
    }

    /// Whether the download is in order.
    pub closed spec fn wf(self) -> bool {
        &&& self.next <= self.outcomes@.len()
        &&& self.view().wf()
    }

    /// A download that has not begun.
    pub fn new(art_id: String, output: String, options: DownloadOptions, dry_run: bool) -> (r:
        ArtistDownload)
        ensures
            r.wf(),
            r.view() == (ArtistModel {
                art_id: art_id@,
                output: output@,
                options,
                dry_run,
                stage: ArtistStage::Naming,
                name: ""@,
                albums: seq![],
                jobs: seq![],
                pending: seq![],
                tally: ArtistTally { downloaded: 0, linked: 0, skipped: 0, failed: 0 },
            }),
    {
        let r = ArtistDownload {
            art_id,
            output,
            options,
            dry_run,
            stage: ArtistStage::Naming,
            name: "".to_owned(),
            albums: Vec::new(),
            jobs: Vec::new(),
            outcomes: Vec::new(),
            next: 0,
            tally: ArtistTally { downloaded: 0, linked: 0, skipped: 0, failed: 0 },
        };
        proof {
            assert(download::jobs_model(r.jobs@) =~= seq![]);
            assert(r.outcomes@.skip(0) =~= seq![]);
        }
        r
    }

    /// What to do next.
    pub fn step(&self) -> (r: ArtistStep)
        requires
            self.wf(),
        ensures
            match self.view().stage {
                ArtistStage::Naming => r is AskInfo,
                ArtistStage::Listing => r is AskDiscography,
                ArtistStage::Cleaning => r matches ArtistStep::Clean(dir, name) && dir@
                    == self.view().folder() && name@ == self.view().name,
                ArtistStage::Indexing => r matches ArtistStep::Index(dir) && dir@
                    == self.view().folder(),
                ArtistStage::Gathering => r is AskTracks,
                ArtistStage::Downloading => r is Download,
                ArtistStage::Settling => r matches ArtistStep::Dedupe(path)
                    && self.view().pending[0].result matches Ok(saved) && path@ == saved@,
                ArtistStage::Finished => r is Done,
            },
    {
        match self.stage {
            ArtistStage::Naming => ArtistStep::AskInfo,
            ArtistStage::Listing => ArtistStep::AskDiscography,
            ArtistStage::Cleaning => ArtistStep::Clean(self.folder(), self.name.clone()),
            ArtistStage::Indexing => ArtistStep::Index(self.folder()),
            ArtistStage::Gathering => ArtistStep::AskTracks,
            ArtistStage::Downloading => ArtistStep::Download,
            ArtistStage::Settling => match &self.outcomes[self.next].result {
                Ok(path) => ArtistStep::Dedupe(path.clone()),
                Err(_) => ArtistStep::Done,
            },
            ArtistStage::Finished => ArtistStep::Done,
        }
    }

    fn folder(&self) -> (r: String)
        ensures
            r@ == self.view().folder(),
    {
        download::folder_for(self.output.as_str(), self.name.as_str())
    }

    /// The releases whose tracks are to be asked for.
    pub fn albums(&self) -> (r: &Vec<AlbumInfo>)
        ensures
            r@ == self.view().albums,
    {
        &self.albums
    }

    /// The downloads to make.
    pub fn jobs(&self) -> (r: &Vec<Job>)
        ensures
            download::jobs_model(r@) == self.view().jobs,
    {
        &self.jobs
    }

    /// Counts the failures at the front of the pending downloads.
    fn settle(&mut self, lines: &mut Vec<Line>)
        requires
            old(self).next <= old(self).outcomes@.len(),
            old(self).tally.downloaded + old(self).view().pending.len() <= usize::MAX,
            old(self).tally.linked + old(self).view().pending.len() <= usize::MAX,
            old(self).tally.failed + old(self).view().pending.len() <= usize::MAX,
        ensures
            final(self).wf(),
            final(self).view() == old(self).view().settled(),
            report::lines_model(final(lines)@) == report::lines_model(old(lines)@) + old(
                self,
            ).view().settling_lines(),
    {
        let ghost start = self.view();
        let ghost said = report::lines_model(lines@);
        let ghost mut k: int = 0;
        let ghost from = self.next;
        proof {
            assert(start.pending.skip(0) =~= start.pending);
            assert(start.pending.take(0) =~= seq![]);
            assert(said + lines_of_all(seq![]) =~= said);
        }
        while self.next < self.outcomes.len() && self.outcomes[self.next].result.is_err()
            invariant
                0 <= k <= start.pending.len(),
                self.next == from + k,
                self.next <= self.outcomes@.len(),
                start.pending == self.outcomes@.skip(from as int),
                start.tally.downloaded + start.pending.len() <= usize::MAX,
                start.tally.linked + start.pending.len() <= usize::MAX,
                start.tally.failed + start.pending.len() <= usize::MAX,
                self.view() == (ArtistModel {
                    pending: start.pending.skip(k),
                    tally: ArtistTally { failed: (start.tally.failed + k) as usize, ..start.tally },
                    ..start
                }),
                leading_failures(start.pending) == k + leading_failures(start.pending.skip(k)),
                report::lines_model(lines@) == said + lines_of_all(start.pending.take(k)),
            decreases start.pending.len() - k,
        {
            proof {
                assert(start.pending.skip(k)[0] == self.outcomes@[self.next as int]);
                assert(start.pending.skip(k).skip(1) =~= start.pending.skip(k + 1));
                assert(start.pending.take(k + 1).drop_last() =~= start.pending.take(k));
                assert(start.pending.take(k + 1).last() == self.outcomes@[self.next as int]);
            }
            let ghost before = report::lines_model(lines@);
            let line = self.tally.count(&self.outcomes[self.next], false);
            if let Some(line) = line {
                lines.push(line);
                proof {
                    assert(report::lines_model(lines@) =~= before + seq![line.model()]);
                }
            }
            self.next = self.next + 1;
            proof {
                k = k + 1;
                assert(self.outcomes@.skip(self.next as int) =~= start.pending.skip(k));
                assert(report::lines_model(lines@) =~= said + lines_of_all(start.pending.take(k)));
            }
        }
        if self.next < self.outcomes.len() {
            self.stage = ArtistStage::Settling;
        } else {
            self.stage = ArtistStage::Finished;
            report::say(lines, self.tally.summary());
        }
    }

    /// Takes in what happened; what there is to say of it.
    pub fn on_event(&mut self, event: ArtistEvent) -> (r: Vec<Line>)
        requires
            old(self).wf(),
            old(self).view().has_room(event),
        ensures
            final(self).wf(),
            final(self).view() == old(self).view().after(event),
            report::lines_model(r@) == old(self).view().says(event),
    {
        let mut lines = report::no_lines();
        match (self.stage, event) {
            (ArtistStage::Naming, ArtistEvent::Info(info)) => {
                self.name = download::artist_name(&info);
                self.stage = ArtistStage::Listing;
                let mut s = "Fetching discography for: ".to_owned();
                s.append(self.name.as_str());
                s.append("\n");
                report::say(&mut lines, s);
            },
            (ArtistStage::Listing, ArtistEvent::Discography(albums)) => {
                if albums.len() == 0 {
                    report::say(&mut lines, "No albums found for this artist.".to_owned());
                    self.stage = ArtistStage::Finished;
                } else {
                    let mut s = "Found ".to_owned();
                    s.append(text::decimal_text(albums.len() as u64).as_str());
                    s.append(" albums/releases\n");
                    report::say(&mut lines, s);
                    self.stage = if self.dry_run {
                        ArtistStage::Gathering
                    } else {
                        ArtistStage::Cleaning
                    };
                }
                self.albums = albums;
            },
            (ArtistStage::Cleaning, ArtistEvent::Cleaned(removed)) => {
                if removed > 0 {
                    let mut s = "Removed ".to_owned();
                    s.append(text::decimal_text(removed as u64).as_str());
                    s.append(" non-");
                    s.append(self.name.as_str());
                    s.append(" audio file(s) from the artist folder\n");
                    report::say(&mut lines, s);
                }
                self.stage = ArtistStage::Indexing;
            },
            (ArtistStage::Indexing, ArtistEvent::Indexed(linked)) => {
                if linked > 0 {
                    let mut s = "Linked ".to_owned();
                    s.append(text::decimal_text(linked as u64).as_str());
                    s.append(" duplicate audio file(s) already present in the artist folder\n");
                    report::say(&mut lines, s);
                }
                self.tally.linked = linked;
                self.stage = ArtistStage::Gathering;
            },
            (ArtistStage::Gathering, ArtistEvent::Tracks(answers)) => {
                if self.dry_run {
                    lines = download::artist_dry_run(
                        &answers,
                        self.art_id.as_str(),
                        self.name.as_str(),
                        self.options,
                    );
                    self.stage = ArtistStage::Finished;
                } else {
                    let dir = self.folder();
                    let (said, jobs, skipped, failed) = download::gather_jobs(
                        answers,
                        dir.as_str(),
                        self.art_id.as_str(),
                        self.name.as_str(),
                    );
                    lines = said;
                    self.jobs = jobs;
                    self.tally.skipped = skipped;
                    self.tally.failed = failed;
                    self.stage = ArtistStage::Downloading;
                }
            },
            (ArtistStage::Downloading, ArtistEvent::Downloaded(outcomes)) => {
                self.outcomes = outcomes;
                self.next = 0;
                proof {
                    assert(self.outcomes@.skip(0) =~= self.outcomes@);
                }
                self.settle(&mut lines);
            },
            (ArtistStage::Settling, ArtistEvent::Deduped(linked)) => {
                let ghost before = self.view();
                assert(self.next < self.outcomes.len());
                let line = self.tally.count(&self.outcomes[self.next], linked);
                if let Some(line) = line {
                    lines.push(line);
                    proof {
                        assert(report::lines_model(lines@) =~= seq![line.model()]);
                    }
                }
                self.next = self.next + 1;
                proof {
                    assert(self.outcomes@.skip(self.next as int) =~= before.pending.skip(1));
                    assert(self.view() == before.counting(linked));
                }
                self.settle(&mut lines);
            },
            _ => {},
        }
        proof {
            assert(report::lines_model(lines@) =~= old(self).view().says(event));
        }
        lines
    }
}

/// Whether a stage neither changes files nor downloads.
pub open spec fn only_asks(stage: ArtistStage) -> bool {
    match stage {
        ArtistStage::Naming => true,
        ArtistStage::Listing => true,
        ArtistStage::Gathering => true,
        ArtistStage::Finished => true,
        _ => false,
    }
}

/// A dry run changes no file and downloads nothing, whatever happens.
pub proof fn dry_runs_only_ask(run: ArtistModel, event: ArtistEvent)
    requires
        run.dry_run,
        only_asks(run.stage),
    ensures
        run.after(event).dry_run,
        only_asks(run.after(event).stage),
{
}

/// Settling loses no download: with each, what was counted and what is pending
/// stays the same in number.
pub proof fn settling_counts_every_download(run: ArtistModel, linked: bool)
    requires
        run.wf(),
        run.stage == ArtistStage::Settling,
    ensures
        ({
            let next = run.after(ArtistEvent::Deduped(linked));
            &&& next.wf()
            &&& next.tally.downloaded + next.tally.failed + next.pending.len()
                == run.tally.downloaded + run.tally.failed + run.pending.len()
            &&& next.pending.len() < run.pending.len()
        }),
{
    let counting = run.counting(linked);
    lemma_failures_are_leading(counting.pending);
    assert(counting.pending.skip(leading_failures(counting.pending) as int).len()
        == counting.pending.len() - leading_failures(counting.pending));
}

proof fn lemma_failures_are_leading(outcomes: Seq<Outcome>)
    ensures
        leading_failures(outcomes) <= outcomes.len(),
        leading_failures(outcomes) < outcomes.len() ==> outcomes[leading_failures(
            outcomes,
        ) as int].result is Ok,
    decreases outcomes.len(),
{
    if outcomes.len() > 0 && outcomes[0].result is Err {
        lemma_failures_are_leading(outcomes.skip(1));
    }
}

/// A discography is downloaded step by step: the artist is named, the releases
/// are listed, the folder is cleaned of the files of others, its duplicates are
/// linked, and then the tracks are gathered and downloaded. A dry run goes from
/// the list to the tracks at once, and ends there.
pub proof fn discographies_go_step_by_step(
    run: ArtistModel,
    info: Json,
    albums: Vec<AlbumInfo>,
    removed: usize,
    linked: usize,
    answers: Vec<AlbumAnswer>,
)
    ensures
        run.stage == ArtistStage::Naming ==> run.after(ArtistEvent::Info(info)).stage
            == ArtistStage::Listing,
        run.stage == ArtistStage::Listing ==> ({
            let next = run.after(ArtistEvent::Discography(albums));
            &&& next.albums == albums@
            &&& albums@.len() == 0 ==> next.stage == ArtistStage::Finished
            &&& albums@.len() > 0 && run.dry_run ==> next.stage == ArtistStage::Gathering
            &&& albums@.len() > 0 && !run.dry_run ==> next.stage == ArtistStage::Cleaning
        }),
        run.stage == ArtistStage::Cleaning ==> run.after(ArtistEvent::Cleaned(removed)).stage
            == ArtistStage::Indexing,
        run.stage == ArtistStage::Indexing ==> ({
            let next = run.after(ArtistEvent::Indexed(linked));
            next.stage == ArtistStage::Gathering && next.tally.linked == linked
        }),
        run.stage == ArtistStage::Gathering && run.dry_run ==> run.after(
            ArtistEvent::Tracks(answers),
        ).stage == ArtistStage::Finished,
        run.stage == ArtistStage::Gathering && !run.dry_run ==> run.after(
            ArtistEvent::Tracks(answers),
        ).stage == ArtistStage::Downloading,
{
}

/// Where all downloads failed, all of them are counted as failed and nothing is
/// left to settle.
pub proof fn failures_are_counted_at_once(run: ArtistModel, outcomes: Vec<Outcome>)
    requires
        run.stage == ArtistStage::Downloading,
        run.tally.failed + outcomes@.len() <= usize::MAX,
        forall|i: int| 0 <= i < outcomes@.len() ==> (#[trigger] outcomes@[i]).result is Err,
    ensures
        ({
            let next = run.after(ArtistEvent::Downloaded(outcomes));
            &&& next.stage == ArtistStage::Finished
            &&& next.tally.failed == run.tally.failed + outcomes@.len()
            &&& next.tally.downloaded == run.tally.downloaded
        }),
{
    lemma_all_failures_are_leading(outcomes@);
    assert(outcomes@.skip(outcomes@.len() as int).len() == 0);
}

proof fn lemma_all_failures_are_leading(outcomes: Seq<Outcome>)
    requires
        forall|i: int| 0 <= i < outcomes.len() ==> (#[trigger] outcomes[i]).result is Err,
    ensures
        leading_failures(outcomes) == outcomes.len(),
    decreases outcomes.len(),
{
    if outcomes.len() > 0 {
        assert(outcomes[0].result is Err);
        let rest = outcomes.skip(1);
        assert forall|i: int| 0 <= i < rest.len() implies (#[trigger] rest[i]).result is Err by {
            assert(rest[i] == outcomes[i + 1]);
        }
        lemma_all_failures_are_leading(rest);
    }
}

/// A download that was made is settled next: it counts as downloaded, and as
/// linked too where its audio was there already.
pub proof fn made_downloads_are_counted(run: ArtistModel, linked: bool)
    requires
        run.wf(),
        run.stage == ArtistStage::Settling,
    ensures
        ({
            let next = run.after(ArtistEvent::Deduped(linked));
            &&& next.tally.downloaded == run.tally.downloaded + 1
            &&& next.tally.linked == run.tally.linked + (if linked {
                1int
            } else {
                0int
            })
            &&& next.tally.skipped == run.tally.skipped
        }),
{
}

/// The tracks of the artist are downloaded into the artist's folder below the
/// output folder: the jobs and the counts are those that gathering gave.
pub proof fn discographies_go_into_the_artists_folder(
    run: ArtistModel,
    info: Json,
    name: Seq<char>,
    answers: Vec<AlbumAnswer>,
)
    requires
        download::track_count(answers@) + answers@.len() <= usize::MAX,
    ensures
        run.stage == ArtistStage::Naming && json::field(info.model(), "ART_NAME"@) == Some(
            json::JsonModel::Text(name),
        ) ==> run.after(ArtistEvent::Info(info)).name == name,
        run.stage == ArtistStage::Naming && json::field(info.model(), "ART_NAME"@) is None
            ==> run.after(ArtistEvent::Info(info)).name == "Unknown Artist"@,
        run.stage == ArtistStage::Gathering && !run.dry_run ==> ({
            let next = run.after(ArtistEvent::Tracks(answers));
            let gathered = download::gathered(
                answers@,
                track::joined(run.output, files::sanitized(run.name)),
                run.art_id,
                run.name,
            );
            &&& next.jobs == gathered.jobs
            &&& next.tally.skipped == gathered.skipped
            &&& next.tally.linked == run.tally.linked
            &&& next.tally.downloaded == run.tally.downloaded
        }),
{
    download::gathering_loses_no_track(
        answers@,
        track::joined(run.output, files::sanitized(run.name)),
        run.art_id,
        run.name,
    );
}

} // verus!
