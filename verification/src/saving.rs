//! The download of one track into a folder, step by step.

use vstd::prelude::*;

use crate::files;
use crate::json;
use crate::models::{GwTrack, TrackFormat};
use crate::report;
use crate::report::Line;
use crate::text;
use crate::track;
use crate::track::{DownloadOptions, DownloadReply, UrlStep};

verus! {

/// What a download is at.
#[derive(Debug)]
pub enum SavingStage {
    /// Making the folder.
    Preparing,
    /// Looking whether the preview is there already.
    CheckingPreview,
    /// Asking where the preview is.
    AskingPreview,
    /// Saving the preview from this URL.
    SavingPreview(String),
    /// Asking where the track is served in this format.
    Asking(TrackFormat),
    /// Looking whether the track is there already in this format; it is served
    /// at this URL.
    CheckingTrack(String, TrackFormat),
    /// Fetching the track from this URL.
    Fetching(String, TrackFormat),
    /// Storing this audio.
    Storing(Vec<u8>, TrackFormat),
    /// The file of this path is there.
    Saved(String),
    /// The download failed.
    Failed(String),
}

/// What happened.
#[derive(Debug, PartialEq)]
pub enum SavingEvent {
    /// What was asked for is done: the folder is there, or the file written.
    Done,
    /// Whether the file is there.
    Exists(bool),
    /// Where the preview is, if there is one.
    Preview(Option<String>),
    /// Where the track is served in the format asked for, if it is.
    Url(Option<String>),
    /// What came back for the download.
    Reply(DownloadReply),
}

/// What to do next.
#[derive(Debug, PartialEq)]
pub enum SavingStep {
    /// Make the folder.
    MakeFolder,
    /// Look whether there is a file of this path.
    Look(String),
    /// Ask where the preview of the track of this ID is.
    AskPreview(String),
    /// Save what this URL serves in the file of this path.
    SavePreview(String, String),
    /// Ask where the track is served in this format.
    AskUrl(TrackFormat),
    /// Fetch the track from this URL.
    Fetch(String),
    /// Store the audio in the file of this path.
    Store(String),
    /// Nothing; the file of this path is there.
    Done(String),
    /// Nothing; the download failed.
    Fail(String),
}

/// A stage without its representation.
pub enum SavingStageModel {
    Preparing,
    CheckingPreview,
    AskingPreview,
    SavingPreview(Seq<char>),
    Asking(TrackFormat),
    CheckingTrack(Seq<char>, TrackFormat),
    Fetching(Seq<char>, TrackFormat),
    Storing(Seq<u8>, TrackFormat),
    Saved(Seq<char>),
    Failed(Seq<char>),
}

impl SavingStage {
    /// The stage without its representation.
    pub open spec fn model(self) -> SavingStageModel {
        match self {
            SavingStage::Preparing => SavingStageModel::Preparing,
            SavingStage::CheckingPreview => SavingStageModel::CheckingPreview,
            SavingStage::AskingPreview => SavingStageModel::AskingPreview,
            SavingStage::SavingPreview(url) => SavingStageModel::SavingPreview(url@),
            SavingStage::Asking(format) => SavingStageModel::Asking(format),
            SavingStage::CheckingTrack(url, format) => SavingStageModel::CheckingTrack(url@, format),
            SavingStage::Fetching(url, format) => SavingStageModel::Fetching(url@, format),
            SavingStage::Storing(data, format) => SavingStageModel::Storing(data@, format),
            SavingStage::Saved(path) => SavingStageModel::Saved(path@),
            SavingStage::Failed(e) => SavingStageModel::Failed(e@),
        }
    }
}

/// A download of a track into a folder. One that stands alone tells of files
/// that are there already.
pub struct SavingModel {
    pub track: GwTrack,
    pub dir: Seq<char>,
    pub options: DownloadOptions,
    pub alone: bool,
    pub stage: SavingStageModel,
}

impl SavingModel {
    /// The name of the preview's file.
    pub open spec fn preview_name(self) -> Seq<char> {
        track::preview_file(
            files::sanitized(self.track.artist_view()),
            files::sanitized(self.track.title_view()),
        )
    }

    /// The path of the preview.
    pub open spec fn preview_path(self) -> Seq<char> {
        track::joined(self.dir, self.preview_name())
    }

    /// The name of the track's file in a format.
    pub open spec fn track_name(self, format: TrackFormat) -> Seq<char> {
        track::full_file(
            files::sanitized(self.track.artist_view()),
            files::sanitized(self.track.title_view()),
            format,
        )
    }

    /// The path of the track in a format.
    pub open spec fn track_path(self, format: TrackFormat) -> Seq<char> {
        track::joined(self.dir, self.track_name(format))
    }

    /// The same download at another stage.
    pub open spec fn at(self, stage: SavingStageModel) -> SavingModel {
        SavingModel { stage, ..self }
    }

    /// The download after a step towards the track's URL. A format below the
    /// minimum is refused.
    pub open spec fn located(self, step: track::UrlModel) -> SavingModel {
        match step {
            track::UrlModel::Ask(format) => self.at(SavingStageModel::Asking(format)),
            track::UrlModel::Fail(e) => self.at(SavingStageModel::Failed(e)),
            track::UrlModel::Found(url, format) => if track::below_minimum(self.options, format) {
                self.at(SavingStageModel::Failed(track::minimum_refusal(self.options, format)))
            } else {
                self.at(SavingStageModel::CheckingTrack(url, format))
            },
        }
    }

    /// The download behind its preview: the track, unless only the preview was
    /// asked for.
    pub open spec fn after_preview(self) -> SavingModel {
        if self.options.preview_and_full {
            self.located(track::first_url(self.track, self.options.format))
        } else {
            self.at(SavingStageModel::Saved(self.preview_path()))
        }
    }

    /// The download after an event. One that does not belong there changes
    /// nothing.
    pub open spec fn after(self, event: SavingEvent) -> SavingModel {
        match (self.stage, event) {
            (SavingStageModel::Preparing, SavingEvent::Done) => if self.options.preview {
                self.at(SavingStageModel::CheckingPreview)
            } else {
                self.located(track::first_url(self.track, self.options.format))
            },
            (SavingStageModel::CheckingPreview, SavingEvent::Exists(there)) => if there {
                self.after_preview()
            } else {
                self.at(SavingStageModel::AskingPreview)
            },
            (SavingStageModel::AskingPreview, SavingEvent::Preview(url)) => match url {
                Some(url) => self.at(SavingStageModel::SavingPreview(url@)),
                None => self.at(SavingStageModel::Failed("Track has no preview available"@)),
            },
            (SavingStageModel::SavingPreview(_), SavingEvent::Done) => self.after_preview(),
            (SavingStageModel::Asking(asked), SavingEvent::Url(url)) => self.located(
                track::next_url(self.track, self.options.format, asked, json::text_view(url)),
            ),
            (SavingStageModel::CheckingTrack(url, format), SavingEvent::Exists(there)) => if there {
                self.at(SavingStageModel::Saved(self.track_path(format)))
            } else {
                self.at(SavingStageModel::Fetching(url, format))
            },
            (SavingStageModel::Fetching(_, format), SavingEvent::Reply(reply)) => match
                track::downloaded(reply, self.track.id_view()) {
                track::AudioModel::Audio(data) => self.at(SavingStageModel::Storing(data, format)),
                track::AudioModel::Failure(e) => self.at(SavingStageModel::Failed(e)),
            },
            (SavingStageModel::Storing(_, format), SavingEvent::Done) => self.at(
                SavingStageModel::Saved(self.track_path(format)),
            ),
            _ => self,
        }
    }

    /// What is said on an event.
    pub open spec fn says(self, event: SavingEvent) -> Option<Seq<char>> {
        match (self.stage, event) {
            (SavingStageModel::CheckingPreview, SavingEvent::Exists(true)) => if self.alone {
                Some(track::skipped(self.preview_name()))
            } else {
                None
            },
            (SavingStageModel::CheckingTrack(_, format), SavingEvent::Exists(true)) =>
                if self.alone {
                    Some(track::skipped(self.track_name(format)))
                } else {
                    None
                },
            _ => None,
        }
    }
}

/// The download of a track into a folder.
#[derive(Debug)]
pub struct TrackDownload<'a> {
    track: &'a GwTrack,
    dir: String,
    options: DownloadOptions,
    alone: bool,
    artist: String,
    title: String,
    stage: SavingStage,
}

impl<'a> TrackDownload<'a> {
    /// The download as it stands.
    pub closed spec fn view(self) -> SavingModel {
        SavingModel {
            track: *self.track,
            dir: self.dir@,
            options: self.options,
            alone: self.alone,
            stage: self.stage.model(),
        }
    }

    /// Whether the names in the file names are those of the track.
    pub closed spec fn wf(self) -> bool {
        &&& self.artist@ == files::sanitized(self.track.artist_view())
        &&& self.title@ == files::sanitized(self.track.title_view())
    }

    /// A download that has not begun. A track without an ID or a title fails.
    pub fn new(track: &'a GwTrack, dir: String, options: DownloadOptions, alone: bool) -> (r:
        TrackDownload<'a>)
        ensures
            r.wf(),
            r.view() == (SavingModel {
                track: *track,
                dir: dir@,
                options,
                alone,
                stage: if track::is_valid_track(*track) {
                    SavingStageModel::Preparing
                } else {
                    SavingStageModel::Failed("Invalid track data"@)
                },
            }),
    {
        let artist = files::sanitize_filename(track.artist().as_str());
        let title = files::sanitize_filename(track.title().as_str());
        let sng_id = track.id_str();
        let stage = if text::same_text(sng_id.as_str(), "0") || text::chars_of(
            title.as_str(),
        ).len() == 0 {
            SavingStage::Failed("Invalid track data".to_owned())
        } else {
            SavingStage::Preparing
        };
        TrackDownload { track, dir, options, alone, artist, title, stage }
    }

    fn preview_name(&self) -> (r: String)
        requires
            self.wf(),
        ensures
            r@ == self.view().preview_name(),
    {
        track::preview_file_name(self.artist.as_str(), self.title.as_str())
    }

    fn preview_path(&self) -> (r: String)
        requires
            self.wf(),
        ensures
            r@ == self.view().preview_path(),
    {
        track::join_path(self.dir.as_str(), self.preview_name().as_str())
    }

    fn track_name(&self, format: TrackFormat) -> (r: String)
        requires
            self.wf(),
        ensures
            r@ == self.view().track_name(format),
    {
        track::full_file_name(self.artist.as_str(), self.title.as_str(), format)
    }

    fn track_path(&self, format: TrackFormat) -> (r: String)
        requires
            self.wf(),
        ensures
            r@ == self.view().track_path(format),
    {
        track::join_path(self.dir.as_str(), self.track_name(format).as_str())
    }

    /// What to do next.
    pub fn step(&self) -> (r: SavingStep)
        requires
            self.wf(),
        ensures
            match self.view().stage {
                SavingStageModel::Preparing => r is MakeFolder,
                SavingStageModel::CheckingPreview => r matches SavingStep::Look(path) && path@
                    == self.view().preview_path(),
                SavingStageModel::AskingPreview => r matches SavingStep::AskPreview(id) && id@
                    == self.view().track.id_view(),
                SavingStageModel::SavingPreview(url) => r matches SavingStep::SavePreview(u, path)
                    && u@ == url && path@ == self.view().preview_path(),
                SavingStageModel::Asking(format) => r == SavingStep::AskUrl(format),
                SavingStageModel::CheckingTrack(_, format) => r matches SavingStep::Look(path)
                    && path@ == self.view().track_path(format),
                SavingStageModel::Fetching(url, _) => r matches SavingStep::Fetch(u) && u@ == url,
                SavingStageModel::Storing(_, format) => r matches SavingStep::Store(path) && path@
                    == self.view().track_path(format),
                SavingStageModel::Saved(path) => r matches SavingStep::Done(p) && p@ == path,
                SavingStageModel::Failed(e) => r matches SavingStep::Fail(message) && message@ == e,
            },
    {
        match &self.stage {
            SavingStage::Preparing => SavingStep::MakeFolder,
            SavingStage::CheckingPreview => SavingStep::Look(self.preview_path()),
            SavingStage::AskingPreview => SavingStep::AskPreview(self.track.id_str()),
            SavingStage::SavingPreview(url) => SavingStep::SavePreview(
                url.clone(),
                self.preview_path(),
            ),
            SavingStage::Asking(format) => SavingStep::AskUrl(*format),
            SavingStage::CheckingTrack(_, format) => SavingStep::Look(self.track_path(*format)),
            SavingStage::Fetching(url, _) => SavingStep::Fetch(url.clone()),
            SavingStage::Storing(_, format) => SavingStep::Store(self.track_path(*format)),
            SavingStage::Saved(path) => SavingStep::Done(path.clone()),
            SavingStage::Failed(e) => SavingStep::Fail(e.clone()),
        }
    }

    /// The audio to store, if there is any.
    pub fn audio(&self) -> (r: Option<&Vec<u8>>)
        ensures
            match self.view().stage {
                SavingStageModel::Storing(data, _) => r matches Some(audio) && audio@ == data,
                _ => r is None,
            },
    {
        match &self.stage {
            SavingStage::Storing(data, _) => Some(data),
            _ => None,
        }
    }

    fn located(&self, step: UrlStep) -> (r: SavingStage)
        ensures
            self.view().at(r.model()) == self.view().located(step.model()),
    {
        match step {
            UrlStep::Ask(format) => SavingStage::Asking(format),
            UrlStep::Fail(e) => SavingStage::Failed(e),
            UrlStep::Found(url, format) => match track::check_minimum(self.options, format) {
                Ok(_) => SavingStage::CheckingTrack(url, format),
                Err(message) => SavingStage::Failed(message),
            },
        }
    }

    fn behind_preview(&self) -> (r: SavingStage)
        requires
            self.wf(),
        ensures
            self.view().at(r.model()) == self.view().after_preview(),
    {
        if self.options.preview_and_full {
            self.located(track::first_url_step(self.track, self.options.format))
        } else {
            SavingStage::Saved(self.preview_path())
        }
    }

    /// Takes in what happened; what there is to say of it.
    pub fn on_event(&mut self, event: SavingEvent) -> (r: Option<Line>)
        requires
            old(self).wf(),
        ensures
            final(self).wf(),
            final(self).view() == old(self).view().after(event),
            match old(self).view().says(event) {
                Some(said) => r matches Some(line) && line.model() == report::LineModel::Out(said),
                None => r is None,
            },
    {
        let mut line: Option<Line> = None;
        let mut stage = SavingStage::Preparing;
        std::mem::swap(&mut stage, &mut self.stage);
        let next = match (stage, event) {
            (SavingStage::Preparing, SavingEvent::Done) => {
                if self.options.preview {
                    SavingStage::CheckingPreview
                } else {
                    self.located(track::first_url_step(self.track, self.options.format))
                }
            },
            (SavingStage::CheckingPreview, SavingEvent::Exists(there)) => {
                if there {
                    if self.alone {
                        line = Some(Line::Out(track::skip_line(self.preview_name().as_str())));
                    }
                    self.behind_preview()
                } else {
                    SavingStage::AskingPreview
                }
            },
            (SavingStage::AskingPreview, SavingEvent::Preview(url)) => match url {
                Some(url) => SavingStage::SavingPreview(url),
                None => SavingStage::Failed("Track has no preview available".to_owned()),
            },
            (SavingStage::SavingPreview(_), SavingEvent::Done) => self.behind_preview(),
            (SavingStage::Asking(asked), SavingEvent::Url(url)) => {
                let step = track::next_url_step(self.track, self.options.format, asked, url);
                self.located(step)
            },
            (SavingStage::CheckingTrack(url, format), SavingEvent::Exists(there)) => {
                if there {
                    if self.alone {
                        line = Some(Line::Out(track::skip_line(self.track_name(format).as_str())));
                    }
                    SavingStage::Saved(self.track_path(format))
                } else {
                    SavingStage::Fetching(url, format)
                }
            },
            (SavingStage::Fetching(_, format), SavingEvent::Reply(reply)) => {
                let sng_id = self.track.id_str();
                match track::finish_download(reply, sng_id.as_str()) {
                    Ok(fetched) => SavingStage::Storing(fetched.data, format),
                    Err(message) => SavingStage::Failed(message),
                }
            },
            (SavingStage::Storing(_, format), SavingEvent::Done) => SavingStage::Saved(
                self.track_path(format),
            ),
            (stage, _) => stage,
        };
        self.stage = next;
        line
    }
}

/// Whether the format at hand is at or below the request and, once it is known
/// to be served, not below the minimum.
pub open spec fn within_bounds(run: SavingModel) -> bool {
    match run.stage {
        SavingStageModel::Asking(format) => format.order() <= run.options.format.order(),
        SavingStageModel::CheckingTrack(_, format) => is_acceptable(run.options, format),
        SavingStageModel::Fetching(_, format) => is_acceptable(run.options, format),
        SavingStageModel::Storing(_, format) => is_acceptable(run.options, format),
        _ => true,
    }
}

/// Whether a format is at or below the request and not below the minimum.
pub open spec fn is_acceptable(options: DownloadOptions, format: TrackFormat) -> bool {
    format.order() <= options.format.order() && !track::below_minimum(options, format)
}

/// Whatever happens, no track is fetched or stored in a format above the
/// request or below the minimum.
pub proof fn stored_formats_are_acceptable(run: SavingModel, event: SavingEvent)
    requires
        within_bounds(run),
    ensures
        within_bounds(run.after(event)),
{
    track::downloads_never_exceed_the_request(run.track, run.options.format);
}

/// Where the request is capped at a quality that is also the minimum, a track
/// is stored in exactly that quality.
pub proof fn exact_requests_are_met_exactly(
    options: DownloadOptions,
    exact: TrackFormat,
    format: TrackFormat,
)
    requires
        options.format.order() <= exact.order(),
        options.min_format == Some(exact),
        is_acceptable(options, format),
    ensures
        format == exact,
{
}

/// A file that is there already is neither fetched nor written again: the
/// download of the track ends there.
pub proof fn existing_tracks_are_kept(run: SavingModel)
    requires
        run.stage is CheckingTrack,
    ensures
        run.after(SavingEvent::Exists(true)).stage is Saved,
        run.after(SavingEvent::Exists(false)).stage is Fetching,
{
}

/// A download that is done or failed stays so.
pub proof fn ended_downloads_stay_ended(run: SavingModel, event: SavingEvent)
    requires
        run.stage is Saved || run.stage is Failed,
    ensures
        run.after(event) == run,
        run.says(event) is None,
{
}

/// A download after a run of events.
pub open spec fn after_all(run: SavingModel, events: Seq<SavingEvent>) -> SavingModel
    decreases events.len(),
{
    if events.len() == 0 {
        run
    } else {
        after_all(run, events.drop_last()).after(events.last())
    }
}

/// Where only the preview was asked for, the track itself is never asked for,
/// looked for, fetched or stored, whatever happens: the download stays with the
/// preview until it fails or the preview's file is there.
pub proof fn preview_downloads_leave_the_track_alone(run: SavingModel, events: Seq<SavingEvent>)
    requires
        run.options.preview,
        !run.options.preview_and_full,
        run.stage is Preparing || run.stage is CheckingPreview || run.stage is AskingPreview
            || run.stage is SavingPreview || run.stage is Failed || run.stage
            == SavingStageModel::Saved(run.preview_path()),
    ensures
        ({
            let end = after_all(run, events);
            &&& !(end.stage is Asking) && !(end.stage is CheckingTrack)
            &&& !(end.stage is Fetching) && !(end.stage is Storing)
            &&& end.stage is Saved ==> end.stage == SavingStageModel::Saved(run.preview_path())
            &&& end.track == run.track && end.dir == run.dir && end.options == run.options
            &&& end.alone == run.alone
        }),
    decreases events.len(),
{
    if events.len() > 0 {
        preview_downloads_leave_the_track_alone(run, events.drop_last());
    }
}

/// Where only the preview was asked for, it is looked for first. One that is
/// there ends the download, with its path. Otherwise it is saved from the URL
/// that was given for it, and that ends the download the same way; without a URL
/// the download fails.
pub proof fn previews_end_with_the_previews_file(run: SavingModel, url: String)
    requires
        run.stage is Preparing,
        run.options.preview,
        !run.options.preview_and_full,
    ensures
        ({
            let looking = run.after(SavingEvent::Done);
            let asking = looking.after(SavingEvent::Exists(false));
            let saving = asking.after(SavingEvent::Preview(Some(url)));
            &&& looking.stage is CheckingPreview
            &&& looking.after(SavingEvent::Exists(true)).stage == SavingStageModel::Saved(
                run.preview_path(),
            )
            &&& asking.stage is AskingPreview
            &&& asking.after(SavingEvent::Preview(None)).stage is Failed
            &&& saving.stage == SavingStageModel::SavingPreview(url@)
            &&& saving.after(SavingEvent::Done).stage == SavingStageModel::Saved(run.preview_path())
        }),
{
}

/// Where no preview was asked for, none is looked for, asked for or saved,
/// whatever happens.
pub proof fn plain_downloads_have_no_preview(run: SavingModel, events: Seq<SavingEvent>)
    requires
        !run.options.preview,
        !(run.stage is CheckingPreview) && !(run.stage is AskingPreview) && !(
        run.stage is SavingPreview),
    ensures
        !(after_all(run, events).stage is CheckingPreview),
        !(after_all(run, events).stage is AskingPreview),
        !(after_all(run, events).stage is SavingPreview),
        after_all(run, events).options == run.options,
    decreases events.len(),
{
    if events.len() > 0 {
        plain_downloads_have_no_preview(run, events.drop_last());
    }
}

/// Where preview and track were both asked for, the download goes on to the
/// track behind the preview exactly as it begins without a preview, whether the
/// preview was there or was just saved. It never ends with the preview.
pub proof fn both_means_preview_and_track(run: SavingModel, plain: SavingModel, url: Seq<char>)
    requires
        run.options.preview && run.options.preview_and_full,
        plain == (SavingModel {
            options: DownloadOptions { preview: false, ..run.options },
            stage: SavingStageModel::Preparing,
            ..run
        }),
    ensures
        run.at(SavingStageModel::CheckingPreview).after(SavingEvent::Exists(true)).stage
            == plain.after(SavingEvent::Done).stage,
        run.at(SavingStageModel::SavingPreview(url)).after(SavingEvent::Done).stage == plain.after(
            SavingEvent::Done,
        ).stage,
        !(plain.after(SavingEvent::Done).stage is Saved),
{
}

/// What is found is what is saved. A track with a token is asked for in the
/// requested format first. A URL that comes for a format not below the minimum
/// is the one that is fetched, its audio is stored, and the download ends with
/// the path of that format; without a URL the next format down is asked for.
pub proof fn tracks_are_saved_in_the_format_found(
    run: SavingModel,
    format: TrackFormat,
    url: String,
    reply: DownloadReply,
    audio: Seq<u8>,
)
    requires
        run.stage == SavingStageModel::Asking(format),
        run.options.min_format matches Some(min) ==> min.order() <= format.order(),
        track::downloaded(reply, run.track.id_view()) == track::AudioModel::Audio(audio),
    ensures
        ({
            let found = run.after(SavingEvent::Url(Some(url)));
            let fetching = found.after(SavingEvent::Exists(false));
            let storing = fetching.after(SavingEvent::Reply(reply));
            &&& found.stage == SavingStageModel::CheckingTrack(url@, format)
            &&& found.after(SavingEvent::Exists(true)).stage == SavingStageModel::Saved(
                run.track_path(format),
            )
            &&& fetching.stage == SavingStageModel::Fetching(url@, format)
            &&& storing.stage == SavingStageModel::Storing(audio, format)
            &&& storing.after(SavingEvent::Done).stage == SavingStageModel::Saved(
                run.track_path(format),
            )
            &&& format == TrackFormat::Flac ==> run.after(SavingEvent::Url(None)).stage
                == SavingStageModel::Asking(TrackFormat::Mp3_320)
            &&& format == TrackFormat::Mp3_320 ==> run.after(SavingEvent::Url(None)).stage
                == SavingStageModel::Asking(TrackFormat::Mp3_128)
            &&& format == TrackFormat::Mp3_128 ==> !(run.after(
                SavingEvent::Url(None),
            ).stage is Asking)
        }),
{
}

/// A download begins by asking for the requested format, where the track has a
/// token, and never in another one. A URL for a format below the minimum ends
/// the download in a failure.
pub proof fn downloads_ask_for_the_request_first(
    run: SavingModel,
    asked: TrackFormat,
    min: TrackFormat,
    url: String,
)
    ensures
        run.stage is Preparing && !run.options.preview && run.track.track_token is Some
            && run.track.track_token->0@.len() > 0 ==> run.after(SavingEvent::Done).stage
            == SavingStageModel::Asking(run.options.format),
        run.stage is Preparing && !run.options.preview && (run.track.track_token is None
            || run.track.track_token->0@.len() == 0) ==> !(run.after(
            SavingEvent::Done,
        ).stage is Asking),
        run.stage == SavingStageModel::Asking(asked) && run.options.min_format == Some(min)
            && asked.order() < min.order() ==> run.after(SavingEvent::Url(Some(url))).stage is Failed,
{
}

/// Files are named after the artist and the title, made fit for a file: the
/// preview of a track and the track itself never go by the same name, nor do a
/// lossless file and an MP3 file, and they all lie in the folder of the download.
pub proof fn files_lie_in_the_folder(run: SavingModel, format: TrackFormat)
    requires
        run.dir.len() > 0,
        run.dir.last() != '/',
        files::sanitized(run.track.artist_view()).len() > 0,
    ensures
        run.preview_path() == run.dir + "/"@ + (files::sanitized(run.track.artist_view()) + " - "@
            + files::sanitized(run.track.title_view()) + " (preview).mp3"@),
        run.track_path(format) == run.dir + "/"@ + (files::sanitized(run.track.artist_view())
            + " - "@ + files::sanitized(run.track.title_view()) + (if format == TrackFormat::Flac {
            ".flac"@
        } else {
            ".mp3"@
        })),
        run.preview_path() != run.track_path(format),
        run.track_path(TrackFormat::Flac) != run.track_path(TrackFormat::Mp3_320),
{
    files::sanitized_names_are_safe(run.track.artist_view(), 0);
    lemma_named_in_the_folder(run, TrackFormat::Flac);
    lemma_named_in_the_folder(run, format);
    lemma_named_in_the_folder(run, TrackFormat::Mp3_320);
}

proof fn lemma_named_in_the_folder(run: SavingModel, format: TrackFormat)
    requires
        run.dir.len() > 0,
        run.dir.last() != '/',
        files::sanitized(run.track.artist_view()).len() > 0,
    ensures
        run.preview_path() == run.dir + "/"@ + run.preview_name(),
        run.track_path(format) == run.dir + "/"@ + run.track_name(format),
        run.preview_path().len() == run.dir.len() + "/"@.len() + files::sanitized(
            run.track.artist_view(),
        ).len() + " - "@.len() + files::sanitized(run.track.title_view()).len() + 14,
        run.track_path(format).len() == run.dir.len() + "/"@.len() + files::sanitized(
            run.track.artist_view(),
        ).len() + " - "@.len() + files::sanitized(run.track.title_view()).len() + (if format
            == TrackFormat::Flac {
            5int
        } else {
            4int
        }),
{
    let artist = files::sanitized(run.track.artist_view());
    files::sanitized_names_are_safe(run.track.artist_view(), 0);
    reveal_strlit(" (preview).mp3");
    reveal_strlit(".mp3");
    reveal_strlit(".flac");
    assert(run.preview_name()[0] == artist[0]);
    assert(run.track_name(format)[0] == artist[0]);
}

/// Only a download that stands alone says that a file was there already, and
/// it says nothing else.
pub proof fn only_single_downloads_speak(run: SavingModel, event: SavingEvent)
    ensures
        !run.alone ==> run.says(event) is None,
        run.alone && run.stage is CheckingPreview ==> (run.says(event) == (if event
            == SavingEvent::Exists(true) {
            Some("  [skip] "@ + run.preview_name() + " (already exists)"@)
        } else {
            None
        })),
        run.alone && run.stage is CheckingTrack ==> (run.says(event) == (if event
            == SavingEvent::Exists(true) {
            Some("  [skip] "@ + run.track_name(run.stage->CheckingTrack_1) + " (already exists)"@)
        } else {
            None
        })),
        !(run.stage is CheckingPreview || run.stage is CheckingTrack) ==> run.says(event) is None,
{
}

} // verus!
