//! A source that keeps a stream going: connections to Icecast, and the
//! preparation of the tracks that they send.

use vstd::prelude::*;

use crate::icecast;
use crate::icecast::{Backoff, Handoff, StreamError};
use crate::report;
use crate::report::Line;
use crate::text;

verus! {

/// Seconds before another attempt to prepare a track.
pub const RETRY_DELAY: u64 = 5;

/// What a source is at.
#[derive(Debug)]
pub enum SourcePhase {
    /// Looking whether a track is ready; whether this was announced.
    Checking(bool),
    /// Preparing a track; whether this was announced.
    Warming(bool),
    /// Pausing behind a failed preparation; whether it was announced.
    Pausing(bool),
    /// Connecting, to send at this bitrate.
    Connecting(u32),
    /// Telling the title of the track.
    Titling,
    /// Connected.
    Listening,
    /// Waiting this long before the next attempt.
    Waiting(u64),
    /// The server refused the source.
    Stopped(String),
}

/// What happened.
#[derive(Debug, PartialEq)]
pub enum SourceEvent {
    /// Whether a track is ready.
    Loaded(bool),
    /// A track is ready, to be sent at this bitrate in kbps.
    Ready(u32),
    /// No track could be prepared, for this reason.
    NotReady(String),
    /// The server answered: whether it took the source, and its status.
    Answer(bool, String),
    /// What was asked for is done.
    Done,
    /// The server closed the connection.
    Closed,
    /// The connection failed.
    Broken,
}

/// What to do next.
#[derive(Debug, PartialEq)]
pub enum SourceStep {
    /// Look whether a track is ready.
    Check,
    /// Prepare a track.
    WarmUp,
    /// Pause for so many seconds.
    Pause(u64),
    /// Open a connection that announces this bitrate.
    Connect(u32),
    /// Send the title of the track.
    SendTitle,
    /// Wait until the connection ends.
    Listen,
    /// Give up.
    Stop(String),
}

/// A phase without its representation.
pub enum PhaseModel {
    Checking(bool),
    Warming(bool),
    Pausing(bool),
    Connecting(nat),
    Titling,
    Listening,
    Waiting(nat),
    Stopped(Seq<char>),
}

impl SourcePhase {
    /// The phase without its representation.
    pub open spec fn model(self) -> PhaseModel {
        match self {
            SourcePhase::Checking(announced) => PhaseModel::Checking(announced),
            SourcePhase::Warming(announced) => PhaseModel::Warming(announced),
            SourcePhase::Pausing(announced) => PhaseModel::Pausing(announced),
            SourcePhase::Connecting(kbps) => PhaseModel::Connecting(kbps as nat),
            SourcePhase::Titling => PhaseModel::Titling,
            SourcePhase::Listening => PhaseModel::Listening,
            SourcePhase::Waiting(secs) => PhaseModel::Waiting(secs as nat),
            SourcePhase::Stopped(message) => PhaseModel::Stopped(message@),
        }
    }
}

/// A source: where it connects to, how long it waits behind the next failed
/// attempt, and its phase.
pub struct SourceModel {
    pub url: Seq<char>,
    pub delay: nat,
    pub phase: PhaseModel,
}

/// What is said where the server refused a source.
pub open spec fn refusal(status: Seq<char>) -> Seq<char> {
    "Icecast rejected the source connection ("@ + status
        + "); check the mount point and source password"@
}

impl SourceModel {
    /// The same source in another phase.
    pub open spec fn at(self, phase: PhaseModel) -> SourceModel {
        SourceModel { phase, ..self }
    }

    /// The source once a connection, or an attempt at one, ended.
    pub open spec fn ended(self, connected: bool) -> SourceModel {
        let wait = icecast::next_delay(self.delay, connected);
        SourceModel { delay: icecast::grown(wait), phase: PhaseModel::Waiting(wait), ..self }
    }

    /// The source after an event. One that does not belong there changes
    /// nothing.
    pub open spec fn after(self, event: SourceEvent) -> SourceModel {
        match (self.phase, event) {
            (PhaseModel::Checking(announced), SourceEvent::Loaded(loaded)) => self.at(
                PhaseModel::Warming(announced || !loaded),
            ),
            (PhaseModel::Warming(_), SourceEvent::Ready(kbps)) => self.at(
                PhaseModel::Connecting(kbps as nat),
            ),
            (PhaseModel::Warming(announced), SourceEvent::NotReady(_)) => self.at(
                PhaseModel::Pausing(announced),
            ),
            (PhaseModel::Pausing(announced), SourceEvent::Done) => self.at(
                PhaseModel::Checking(announced),
            ),
            (PhaseModel::Connecting(_), SourceEvent::Answer(taken, status)) => if taken {
                self.at(PhaseModel::Titling)
            } else {
                self.at(PhaseModel::Stopped(refusal(status@)))
            },
            (PhaseModel::Connecting(_), SourceEvent::Broken) => self.ended(false),
            (PhaseModel::Titling, SourceEvent::Done) => self.at(PhaseModel::Listening),
            (PhaseModel::Listening, SourceEvent::Closed) => self.ended(true),
            (PhaseModel::Listening, SourceEvent::Broken) => self.ended(false),
            (PhaseModel::Waiting(_), SourceEvent::Done) => self.at(PhaseModel::Checking(false)),
            _ => self,
        }
    }

    /// What is said where a connection, or an attempt at one, ended.
    pub open spec fn end_lines(self, why: Seq<char>, connected: bool) -> Seq<report::LineModel> {
        seq![
            report::LineModel::Problem("deezco: "@ + why + "; reconnecting"@),
            report::LineModel::Problem(
                "deezco: next connection attempt in "@ + text::decimal(
                    icecast::next_delay(self.delay, connected),
                ) + "s"@,
            ),
        ]
    }

    /// What is said on an event.
    pub open spec fn says(self, event: SourceEvent) -> Seq<report::LineModel> {
        match (self.phase, event) {
            (PhaseModel::Checking(false), SourceEvent::Loaded(false)) => seq![
                report::LineModel::Out("deezco: preparing the first track before connecting"@),
            ],
            (PhaseModel::Warming(_), SourceEvent::Ready(kbps)) => seq![
                report::LineModel::Out(
                    "deezco: streaming at "@ + text::decimal(kbps as nat)
                        + " kbps (actual, after quality fallback)"@,
                ),
            ],
            (PhaseModel::Warming(_), SourceEvent::NotReady(e)) => seq![
                report::LineModel::Problem(
                    "deezco: first track not ready: "@ + e@ + "; retrying"@,
                ),
            ],
            (PhaseModel::Connecting(_), SourceEvent::Answer(true, _)) => seq![
                report::LineModel::Out(
                    "deezco: connected to "@ + self.url + " (listeners can tune in at "@ + self.url
                        + ")"@,
                ),
            ],
            (PhaseModel::Connecting(_), SourceEvent::Broken) => self.end_lines(
                "stream error: Icecast connection failed"@,
                false,
            ),
            (PhaseModel::Listening, SourceEvent::Closed) => self.end_lines(
                "source connection closed by Icecast"@,
                true,
            ),
            (PhaseModel::Listening, SourceEvent::Broken) => self.end_lines(
                "stream error: Icecast source connection error"@,
                false,
            ),
            _ => seq![],
        }
    }
}

/// A source that keeps its stream going.
#[derive(Debug)]
pub struct Source {
    url: String,
    backoff: Backoff,
    phase: SourcePhase,
}

impl Source {
    /// The source as it stands.
    pub closed spec fn view(self) -> SourceModel {
        SourceModel {
            url: self.url@,
            delay: self.backoff.view(),
            phase: self.phase.model(),
        }
    }

    /// Whether the delay is within its bounds.
    pub closed spec fn wf(self) -> bool {
        self.backoff.wf()
    }

    /// A source that has not connected yet.
    pub fn new(url: String) -> (r: Source)
        ensures
            r.wf(),
            r.view() == (SourceModel {
                url: url@,
                delay: 5,
                phase: PhaseModel::Checking(false),
            }),
    {
        Source { url, backoff: Backoff::new(), phase: SourcePhase::Checking(false) }
    }

    /// What to do next.
    pub fn step(&self) -> (r: SourceStep)
        ensures
            match self.view().phase {
                PhaseModel::Checking(_) => r is Check,
                PhaseModel::Warming(_) => r is WarmUp,
                PhaseModel::Pausing(_) => r == SourceStep::Pause(5),
                PhaseModel::Connecting(kbps) => r matches SourceStep::Connect(k) && k == kbps,
                PhaseModel::Titling => r is SendTitle,
                PhaseModel::Listening => r is Listen,
                PhaseModel::Waiting(secs) => r matches SourceStep::Pause(s) && s == secs,
                PhaseModel::Stopped(e) => r matches SourceStep::Stop(message) && message@ == e,
            },
    {
        match &self.phase {
            SourcePhase::Checking(_) => SourceStep::Check,
            SourcePhase::Warming(_) => SourceStep::WarmUp,
            SourcePhase::Pausing(_) => SourceStep::Pause(RETRY_DELAY),
            SourcePhase::Connecting(kbps) => SourceStep::Connect(*kbps),
            SourcePhase::Titling => SourceStep::SendTitle,
            SourcePhase::Listening => SourceStep::Listen,
            SourcePhase::Waiting(secs) => SourceStep::Pause(*secs),
            SourcePhase::Stopped(message) => SourceStep::Stop(message.clone()),
        }
    }

    fn end(&mut self, why: &str, connected: bool) -> (r: Vec<Line>)
        requires
            old(self).wf(),
        ensures
            final(self).wf(),
            final(self).view() == old(self).view().ended(connected),
            report::lines_model(r@) == old(self).view().end_lines(why@, connected),
    {
        let mut lines = report::no_lines();
        let wait = self.backoff.wait_after(connected);
        self.phase = SourcePhase::Waiting(wait);
        let mut s = "deezco: ".to_owned();
        s.append(why);
        s.append("; reconnecting");
        report::warn(&mut lines, s);
        let mut s = "deezco: next connection attempt in ".to_owned();
        s.append(text::decimal_text(wait).as_str());
        s.append("s");
        report::warn(&mut lines, s);
        proof {
            assert(report::lines_model(lines@) =~= old(self).view().end_lines(why@, connected));
        }
        lines
    }

    /// Takes in what happened; what there is to say of it.
    pub fn on_event(&mut self, event: SourceEvent) -> (r: Vec<Line>)
        requires
            old(self).wf(),
        ensures
            final(self).wf(),
            final(self).view() == old(self).view().after(event),
            report::lines_model(r@) == old(self).view().says(event),
    {
        let mut lines = report::no_lines();
        match (&self.phase, event) {
            (SourcePhase::Checking(announced), SourceEvent::Loaded(loaded)) => {
                let known: bool = *announced;
                if !known && !loaded {
                    report::say(
                        &mut lines,
                        "deezco: preparing the first track before connecting".to_owned(),
                    );
                }
                self.phase = SourcePhase::Warming(known || !loaded);
            },
            (SourcePhase::Warming(_), SourceEvent::Ready(kbps)) => {
                let mut s = "deezco: streaming at ".to_owned();
                s.append(text::decimal_text(kbps as u64).as_str());
                s.append(" kbps (actual, after quality fallback)");
                report::say(&mut lines, s);
                self.phase = SourcePhase::Connecting(kbps);
            },
            (SourcePhase::Warming(announced), SourceEvent::NotReady(e)) => {
                let mut s = "deezco: first track not ready: ".to_owned();
                s.append(e.as_str());
                s.append("; retrying");
                report::warn(&mut lines, s);
                self.phase = SourcePhase::Pausing(*announced);
            },
            (SourcePhase::Pausing(announced), SourceEvent::Done) => {
                self.phase = SourcePhase::Checking(*announced);
            },
            (SourcePhase::Connecting(_), SourceEvent::Answer(taken, status)) => {
                match icecast::judge_response(taken, status.as_str()) {
                    Ok(_) => {
                        let mut s = "deezco: connected to ".to_owned();
                        s.append(self.url.as_str());
                        s.append(" (listeners can tune in at ");
                        s.append(self.url.as_str());
                        s.append(")");
                        report::say(&mut lines, s);
                        self.phase = SourcePhase::Titling;
                    },
                    Err(StreamError::Fatal(message)) => {
                        self.phase = SourcePhase::Stopped(message);
                    },
                    Err(StreamError::Transient(_)) => {},
                }
            },
            (SourcePhase::Connecting(_), SourceEvent::Broken) => {
                lines = self.end("stream error: Icecast connection failed", false);
            },
            (SourcePhase::Titling, SourceEvent::Done) => {
                self.phase = SourcePhase::Listening;
            },
            (SourcePhase::Listening, SourceEvent::Closed) => {
                lines = self.end("source connection closed by Icecast", true);
            },
            (SourcePhase::Listening, SourceEvent::Broken) => {
                lines = self.end("stream error: Icecast source connection error", false);
            },
            (SourcePhase::Waiting(_), SourceEvent::Done) => {
                self.phase = SourcePhase::Checking(false);
            },
            _ => {},
        }
        proof {
            assert(report::lines_model(lines@) =~= old(self).view().says(event));
        }
        lines
    }
}

/// A source connects only once a track is ready, so that audio flows at once.
pub proof fn sources_connect_with_a_track(source: SourceModel, event: SourceEvent)
    requires
        !(source.phase is Connecting),
        source.after(event).phase is Connecting,
    ensures
        source.phase is Warming,
        event is Ready,
{
}

/// Nothing but a refusal by the server stops a source.
pub proof fn only_refusals_stop_a_source(source: SourceModel, event: SourceEvent)
    requires
        !(source.phase is Stopped),
        source.after(event).phase is Stopped,
    ensures
        source.phase is Connecting,
        event matches SourceEvent::Answer(taken, _) && !taken,
{
}

/// A connection that ended is tried again: after the least delay where it
/// lasted, and otherwise after a delay that grows up to the most.
pub proof fn ended_connections_are_tried_again(source: SourceModel, event: SourceEvent)
    requires
        5 <= source.delay <= 300,
        source.phase is Connecting || source.phase is Listening,
        event is Closed || event is Broken,
        !(source.phase is Connecting && event is Closed),
    ensures
        ({
            let next = source.after(event);
            &&& next.phase matches PhaseModel::Waiting(secs)
            &&& secs == (if event is Closed {
                5
            } else {
                source.delay
            })
            &&& 5 <= next.delay <= 300
            &&& secs <= next.delay
            &&& next.after(SourceEvent::Done).phase == PhaseModel::Checking(false)
        }),
{
}

/// What the preparation of a track is at.
#[derive(Debug, Clone, Copy, PartialEq, Eq, Structural)]
pub enum PrepStage {
    /// Choosing the track.
    Choosing,
    /// Fetching its audio.
    Fetching,
    /// Decoding it.
    Decoding,
    /// Mixing its start with the end that the track before it held back.
    Mixing,
    /// Processing and encoding it.
    Encoding,
    /// The track is ready.
    Ready,
    /// The track is skipped.
    GivenUp,
}

/// What happened.
#[derive(Debug, PartialEq)]
pub enum PrepEvent<T> {
    /// What was asked for is done.
    Done,
    /// What was asked for failed.
    Failed,
    /// The start was mixed; this end is held back.
    Mixed(Vec<T>),
}

/// The preparation of a track: its number, whether it is processed at all and
/// whether it is mixed with its neighbours, and the stage.
#[derive(Debug, Clone, Copy, PartialEq, Eq, Structural)]
pub struct TrackPrep {
    pub seq: u64,
    /// Whether tracks are decoded and encoded again.
    pub processed: bool,
    /// Whether tracks overlap.
    pub overlapping: bool,
    pub stage: PrepStage,
}

impl TrackPrep {
    /// The preparation after an event. One that does not belong there changes
    /// nothing, nor does mixing out of turn.
    pub open spec fn after<T>(self, event: PrepEvent<T>, turn: u64) -> TrackPrep {
        let stage = match (self.stage, event) {
            (PrepStage::Choosing, PrepEvent::Done) => PrepStage::Fetching,
            (PrepStage::Fetching, PrepEvent::Done) => if self.processed {
                PrepStage::Decoding
            } else {
                PrepStage::Ready
            },
            (PrepStage::Decoding, PrepEvent::Done) => if self.overlapping {
                PrepStage::Mixing
            } else {
                PrepStage::Encoding
            },
            (PrepStage::Mixing, PrepEvent::Mixed(_)) => if turn == self.seq {
                PrepStage::Encoding
            } else {
                PrepStage::Mixing
            },
            (PrepStage::Encoding, PrepEvent::Done) => PrepStage::Ready,
            (PrepStage::Choosing, PrepEvent::Failed) => PrepStage::GivenUp,
            (PrepStage::Fetching, PrepEvent::Failed) => PrepStage::GivenUp,
            (PrepStage::Decoding, PrepEvent::Failed) => PrepStage::GivenUp,
            (PrepStage::Encoding, PrepEvent::Failed) => PrepStage::GivenUp,
            (stage, _) => stage,
        };
        TrackPrep { stage, ..self }
    }

    /// Whose turn it is after an event: a track that is mixed hands over, and
    /// one that gives up before lets the next one go on.
    pub open spec fn turn_after<T>(self, event: PrepEvent<T>, turn: u64) -> u64 {
        match (self.stage, event) {
            (PrepStage::Mixing, PrepEvent::Mixed(_)) => if turn == self.seq {
                (self.seq + 1) as u64
            } else {
                turn
            },
            (PrepStage::Encoding, _) => turn,
            (_, PrepEvent::Failed) => if self.after(event, turn).stage == PrepStage::GivenUp
                && self.stage != PrepStage::GivenUp && turn <= self.seq {
                (self.seq + 1) as u64
            } else {
                turn
            },
            _ => turn,
        }
    }

    /// A preparation that has not begun.
    pub fn new(seq: u64, processed: bool, overlapping: bool) -> (r: TrackPrep)
        ensures
            r == (TrackPrep { seq, processed, overlapping, stage: PrepStage::Choosing }),
    {
        TrackPrep { seq, processed, overlapping, stage: PrepStage::Choosing }
    }

    /// Takes in what happened, and hands over to the next track where it is
    /// time.
    pub fn on_event<T>(&mut self, event: PrepEvent<T>, handoff: &mut Handoff<T>)
        requires
            old(self).seq < u64::MAX,
        ensures
            *final(self) == old(self).after(event, old(handoff).version),
            final(handoff).version == old(self).turn_after(event, old(handoff).version),
            final(handoff).tail == (match event {
                PrepEvent::Mixed(tail) => if old(self).stage == PrepStage::Mixing && old(
                    handoff,
                ).version == old(self).seq {
                    tail
                } else {
                    old(handoff).tail
                },
                _ => old(handoff).tail,
            }),
    {
        match (self.stage, event) {
            (PrepStage::Choosing, PrepEvent::Done) => {
                self.stage = PrepStage::Fetching;
            },
            (PrepStage::Fetching, PrepEvent::Done) => {
                self.stage = if self.processed {
                    PrepStage::Decoding
                } else {
                    PrepStage::Ready
                };
            },
            (PrepStage::Decoding, PrepEvent::Done) => {
                self.stage = if self.overlapping {
                    PrepStage::Mixing
                } else {
                    PrepStage::Encoding
                };
            },
            (PrepStage::Mixing, PrepEvent::Mixed(tail)) => {
                if handoff.may_claim(self.seq) {
                    handoff.publish(self.seq, tail);
                    self.stage = PrepStage::Encoding;
                }
            },
            (PrepStage::Encoding, PrepEvent::Done) => {
                self.stage = PrepStage::Ready;
            },
            (PrepStage::Choosing, PrepEvent::Failed) => {
                handoff.advance_past(self.seq);
                self.stage = PrepStage::GivenUp;
            },
            (PrepStage::Fetching, PrepEvent::Failed) => {
                handoff.advance_past(self.seq);
                self.stage = PrepStage::GivenUp;
            },
            (PrepStage::Decoding, PrepEvent::Failed) => {
                handoff.advance_past(self.seq);
                self.stage = PrepStage::GivenUp;
            },
            (PrepStage::Encoding, PrepEvent::Failed) => {
                self.stage = PrepStage::GivenUp;
            },
            _ => {},
        }
    }
}

/// Whether a preparation is past the point where it hands over: the turn has
/// moved past it.
pub open spec fn has_handed_over(prep: TrackPrep, turn: u64) -> bool {
    match prep.stage {
        PrepStage::Encoding => turn > prep.seq,
        PrepStage::Ready => turn > prep.seq,
        PrepStage::GivenUp => turn > prep.seq,
        _ => true,
    }
}

/// Where tracks overlap, one that is ready or given up has let the next one go
/// on, whatever happened to it, and the turn never goes back.
pub proof fn tracks_hand_over_in_the_end<T>(prep: TrackPrep, event: PrepEvent<T>, turn: u64)
    requires
        prep.seq < u64::MAX,
        prep.processed && prep.overlapping,
        has_handed_over(prep, turn),
    ensures
        has_handed_over(prep.after(event, turn), prep.turn_after(event, turn)),
        prep.turn_after(event, turn) >= turn,
{
}

/// How the fetching of a track ended.
#[derive(Debug, PartialEq)]
pub enum FetchOutcome<T> {
    /// The track is ready.
    Ready(T),
    /// The track could not be fetched, for this reason.
    Failed(String),
    /// The task that fetches it came to no end, for this reason.
    Lost(String),
}

/// What to do once the fetching of a track has ended.
#[derive(Debug, PartialEq)]
pub enum FetchStep<T> {
    /// Play the track.
    Play(T),
    /// Pass the track over, for this reason, and go on with the next one.
    Skip(String),
    /// Try again after so many seconds, for this reason.
    Wait(u64, String),
}

/// Decides what follows the fetching of a track: one that could not be fetched
/// is passed over, and only where its task is lost is there a pause.
pub fn after_fetch<T>(outcome: FetchOutcome<T>) -> (r: FetchStep<T>)
    ensures
        r == (match outcome {
            FetchOutcome::Ready(track) => FetchStep::Play(track),
            FetchOutcome::Failed(why) => FetchStep::Skip(why),
            FetchOutcome::Lost(why) => FetchStep::Wait(5, why),
        }),
{
    match outcome {
        FetchOutcome::Ready(track) => FetchStep::Play(track),
        FetchOutcome::Failed(why) => FetchStep::Skip(why),
        FetchOutcome::Lost(why) => FetchStep::Wait(RETRY_DELAY, why),
    }
}

impl<T> FetchStep<T> {
    /// The warning that goes with the step.
    pub open spec fn warning_words(self) -> Option<Seq<char>> {
        match self {
            FetchStep::Play(_) => None,
            FetchStep::Skip(why) => Some("deezco: track fetch failed: "@ + why@ + "; skipping"@),
            FetchStep::Wait(secs, why) => Some(
                "deezco: track fetch failed: "@ + why@ + "; retrying in "@ + text::decimal(
                    secs as nat,
                ) + "s"@,
            ),
        }
    }

    /// The warning that goes with the step, if there is one.
    pub fn warning(&self) -> (r: Option<String>)
        ensures
            match r {
                Some(s) => self.warning_words() == Some(s@),
                None => self.warning_words() is None,
            },
    {
        match self {
            FetchStep::Play(_) => None,
            FetchStep::Skip(why) => {
                let mut s = "deezco: track fetch failed: ".to_owned();
                s.append(why.as_str());
                s.append("; skipping");
                Some(s)
            },
            FetchStep::Wait(secs, why) => {
                let mut s = "deezco: track fetch failed: ".to_owned();
                s.append(why.as_str());
                s.append("; retrying in ");
                s.append(text::decimal_text(*secs).as_str());
                s.append("s");
                Some(s)
            },
        }
    }
}

/// A source connects once its first track is ready, announces the bitrate of that
/// track, sends the title once it is taken, and then streams. Behind every pause
/// it looks for its track again.
pub proof fn sources_go_step_by_step(source: SourceModel, kbps: u32, loaded: bool, e: String)
    ensures
        source.phase is Checking ==> source.after(SourceEvent::Loaded(loaded)).phase is Warming,
        source.phase is Warming ==> source.after(SourceEvent::Ready(kbps)).phase
            == PhaseModel::Connecting(kbps as nat),
        source.phase is Warming ==> source.after(SourceEvent::NotReady(e)).phase is Pausing,
        source.phase is Pausing ==> source.after(SourceEvent::Done).phase is Checking,
        source.phase is Connecting ==> source.after(SourceEvent::Answer(true, e)).phase is Titling,
        source.phase is Connecting ==> source.after(SourceEvent::Answer(false, e)).phase is Stopped,
        source.phase is Titling ==> source.after(SourceEvent::Done).phase is Listening,
        source.phase is Waiting ==> source.after(SourceEvent::Done).phase is Checking,
{
}

/// The wait grows with each broken attempt, and a connection that was closed
/// after it stood starts it from the least again.
pub proof fn waits_grow_until_a_connection_stands(source: SourceModel)
    requires
        5 <= source.delay <= 300,
        source.phase is Listening,
    ensures
        source.after(SourceEvent::Broken).phase == PhaseModel::Waiting(source.delay),
        source.after(SourceEvent::Broken).delay == (if 2 * source.delay <= 300 {
            2 * source.delay
        } else {
            300
        }),
        source.after(SourceEvent::Closed).phase == PhaseModel::Waiting(5),
        source.after(SourceEvent::Closed).delay == 10,
{
}

/// A track is prepared step by step: chosen, fetched, and where it is processed
/// decoded and encoded, with the mixing between them where tracks overlap. A step
/// that fails gives it up, but for mixing, which waits for its turn.
pub proof fn tracks_are_prepared_step_by_step<T>(prep: TrackPrep, turn: u64, tail: T)
    requires
        prep.seq < u64::MAX,
    ensures
        prep.stage == PrepStage::Choosing ==> prep.after(PrepEvent::<T>::Done, turn).stage
            == PrepStage::Fetching,
        prep.stage == PrepStage::Fetching ==> prep.after(PrepEvent::<T>::Done, turn).stage == (
        if prep.processed {
            PrepStage::Decoding
        } else {
            PrepStage::Ready
        }),
        prep.stage == PrepStage::Decoding ==> prep.after(PrepEvent::<T>::Done, turn).stage == (
        if prep.overlapping {
            PrepStage::Mixing
        } else {
            PrepStage::Encoding
        }),
        prep.stage == PrepStage::Encoding ==> prep.after(PrepEvent::<T>::Done, turn).stage
            == PrepStage::Ready,
        prep.stage == PrepStage::Choosing || prep.stage == PrepStage::Fetching || prep.stage
            == PrepStage::Decoding ==> prep.after(PrepEvent::<T>::Failed, turn).stage
            == PrepStage::GivenUp && prep.turn_after(PrepEvent::<T>::Failed, turn) == (if turn
            <= prep.seq {
            (prep.seq + 1) as u64
        } else {
            turn
        }),
        prep.stage == PrepStage::Ready || prep.stage == PrepStage::GivenUp ==> prep.after(
            PrepEvent::<T>::Done,
            turn,
        ) == prep,
{
}

/// A source speaks of what it does: that it prepares its first track, once, at
/// what bitrate it streams, that it is connected, and how long it waits.
pub proof fn sources_say_what_they_do(source: SourceModel, kbps: u32, status: String)
    ensures
        source.phase == PhaseModel::Checking(false) ==> source.says(SourceEvent::Loaded(false))
            == seq![
            report::LineModel::Out("deezco: preparing the first track before connecting"@),
        ],
        source.phase == PhaseModel::Checking(true) ==> source.says(
            SourceEvent::Loaded(false),
        ).len() == 0,
        source.phase is Checking ==> source.says(SourceEvent::Loaded(true)).len() == 0,
        source.phase is Warming ==> source.says(SourceEvent::Ready(kbps)) == seq![
            report::LineModel::Out(
                "deezco: streaming at "@ + text::decimal(kbps as nat)
                    + " kbps (actual, after quality fallback)"@,
            ),
        ],
        source.phase is Listening ==> source.says(SourceEvent::Closed).last()
            == report::LineModel::Problem(
            "deezco: next connection attempt in "@ + text::decimal(5) + "s"@,
        ),
{
}

/// A track that could not be fetched is passed over with a warning that says
/// why, one whose task was lost is tried again after a pause, and one that is
/// ready plays without a word.
pub proof fn failed_fetches_are_told_of<T>(track: T, why: String, secs: u64)
    ensures
        FetchStep::Play(track).warning_words() is None,
        FetchStep::<T>::Skip(why).warning_words() == Some(
            "deezco: track fetch failed: "@ + why@ + "; skipping"@,
        ),
        FetchStep::<T>::Wait(secs, why).warning_words() == Some(
            "deezco: track fetch failed: "@ + why@ + "; retrying in "@ + text::decimal(secs as nat)
                + "s"@,
        ),
{
}

/// Tracks are mixed in turn: one whose turn it is goes on to the encoder and
/// hands the turn to the next, and any other one waits and changes nothing.
pub proof fn tracks_are_mixed_in_turn<T>(prep: TrackPrep, event: PrepEvent<T>, turn: u64)
    requires
        prep.seq < u64::MAX,
        prep.stage == PrepStage::Mixing,
        event is Mixed,
    ensures
        turn == prep.seq ==> prep.after(event, turn).stage == PrepStage::Encoding
            && prep.turn_after(event, turn) == prep.seq + 1,
        turn != prep.seq ==> prep.after(event, turn) == prep && prep.turn_after(event, turn) == turn,
        prep.after(event, turn).seq == prep.seq,
{
}

} // verus!
