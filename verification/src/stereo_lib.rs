//! The in-process Stereo Tool library: settings, progress and license reports.

use vstd::prelude::*;

use crate::dsp;
use crate::json;
use crate::report::Line;
use crate::report;
use crate::text;

verus! {

/// Frames handed to the library in one call.
pub const PROCESS_BLOCK_FRAMES: usize = 8192;

/// What the running process is labelled with in progress lines.
pub struct ProcessLabel {
    label: Option<String>,
}

impl ProcessLabel {
    /// The label.
    pub closed spec fn view(self) -> Option<Seq<char>> {
        json::text_view(self.label)
    }

    /// No label.
    pub fn none() -> (r: ProcessLabel)
        ensures
            r.view() is None,
    {
        ProcessLabel { label: None }
    }
}

/// Labels the process.
pub fn set_process_label(slot: &mut ProcessLabel, label: String)
    ensures
        final(slot).view() == Some(label@),
{
    slot.label = Some(label);
}

/// Takes the label off again.
pub fn clear_process_label(slot: &mut ProcessLabel)
    ensures
        final(slot).view() is None,
{
    slot.label = None;
}

/// The label of the process.
pub fn current_label(slot: &ProcessLabel) -> (r: Option<String>)
    ensures
        json::text_view(r) == slot.view(),
{
    dsp::copy_text(&slot.label)
}

/// Settings of the shared-library processor.
#[derive(Debug, PartialEq)]
pub struct StereoLibConfig {
    /// Path of the library.
    pub lib: String,
    /// Settings file; the tool's own defaults apply without one.
    pub settings: Option<String>,
    /// License key.
    pub key: Option<String>,
    /// Whether the processor starts over with each track.
    pub reset_per_track: bool,
}

/// The symbols that the library has to have, in the order in which they are
/// looked up.
pub open spec fn symbol_name(i: int) -> Seq<char> {
    if i == 0 {
        "stereoTool_Create2"@
    } else if i == 1 {
        "stereoTool_Delete"@
    } else if i == 2 {
        "stereoTool_Process"@
    } else if i == 3 {
        "stereoTool_LoadPreset"@
    } else if i == 4 {
        "stereoTool_Reset"@
    } else if i == 5 {
        "stereoTool_GetLatency2"@
    } else if i == 6 {
        "stereoTool_CheckLicenseValid"@
    } else if i == 7 {
        "stereoTool_GetSoftwareVersion"@
    } else if i == 8 {
        "stereoTool_GetApiVersion"@
    } else {
        "stereoTool_GetUnlicensedUsedFeatures"@
    }
}

/// The symbols that the library has to have.
pub fn required_symbols() -> (r: Vec<&'static str>)
    ensures
        r@.len() == 10,
        forall|i: int| 0 <= i < 10 ==> (#[trigger] r@[i])@ == symbol_name(i),
{
    let mut r: Vec<&'static str> = Vec::new();
    r.push("stereoTool_Create2");
    r.push("stereoTool_Delete");
    r.push("stereoTool_Process");
    r.push("stereoTool_LoadPreset");
    r.push("stereoTool_Reset");
    r.push("stereoTool_GetLatency2");
    r.push("stereoTool_CheckLicenseValid");
    r.push("stereoTool_GetSoftwareVersion");
    r.push("stereoTool_GetApiVersion");
    r.push("stereoTool_GetUnlicensedUsedFeatures");
    r
}

/// What the opening of the library is at.
#[derive(Debug)]
pub enum OpeningStage {
    /// Loading the file.
    Loading,
    /// Looking up the required symbol of this number.
    Finding(usize),
    /// Making an instance.
    Creating,
    /// Loading the settings.
    Presetting,
    /// Measuring the delay.
    Measuring,
    /// Checking the license.
    Licensing,
    /// Asking what the license lacks.
    Explaining,
    /// The library can be used.
    Open,
    /// The library cannot be used.
    Failed(String),
}

/// What happened.
#[derive(Debug, PartialEq)]
pub enum OpeningEvent {
    /// Whether what was asked for succeeded.
    Done(bool),
    /// The delay that was measured.
    Latency(i32),
    /// Whether only licensed features are used, and what the library says.
    Features(bool, String),
}

/// What to do next.
#[derive(Debug, PartialEq)]
pub enum OpeningStep {
    /// Load the file.
    Load,
    /// Look up this symbol.
    Find(&'static str),
    /// Make an instance.
    Create,
    /// Load the settings.
    LoadPreset,
    /// Measure the delay.
    Measure,
    /// Check the license.
    CheckLicense,
    /// Ask what the license lacks.
    Explain,
    /// Nothing; the library can be used.
    Done,
    /// Nothing; it cannot.
    Fail(String),
}

/// A stage without its representation.
pub enum OpeningStageModel {
    Loading,
    Finding(nat),
    Creating,
    Presetting,
    Measuring,
    Licensing,
    Explaining,
    Open,
    Failed(Seq<char>),
}

impl OpeningStage {
    /// The stage without its representation.
    pub open spec fn model(self) -> OpeningStageModel {
        match self {
            OpeningStage::Loading => OpeningStageModel::Loading,
            OpeningStage::Finding(i) => OpeningStageModel::Finding(i as nat),
            OpeningStage::Creating => OpeningStageModel::Creating,
            OpeningStage::Presetting => OpeningStageModel::Presetting,
            OpeningStage::Measuring => OpeningStageModel::Measuring,
            OpeningStage::Licensing => OpeningStageModel::Licensing,
            OpeningStage::Explaining => OpeningStageModel::Explaining,
            OpeningStage::Open => OpeningStageModel::Open,
            OpeningStage::Failed(e) => OpeningStageModel::Failed(e@),
        }
    }
}

/// An opening of the library: the settings it is opened with, the delay that
/// was measured, and the stage.
pub struct OpeningModel {
    pub config: StereoLibConfig,
    pub latency: nat,
    pub stage: OpeningStageModel,
}

/// Whether a text can be handed to the library: it holds no zero character.
pub open spec fn can_be_passed(s: Seq<char>) -> bool {
    forall|i: int| 0 <= i < s.len() ==> (#[trigger] s[i]) != '\0'
}

fn is_passable(s: &str) -> (r: bool)
    ensures
        r == can_be_passed(s@),
{
    let chars = text::chars_of(s);
    let mut i: usize = 0;
    while i < chars.len()
        invariant
            i <= chars@.len(),
            chars@ == s@,
            forall|k: int| 0 <= k < i ==> (#[trigger] s@[k]) != '\0',
        decreases chars@.len() - i,
    {
        if chars[i] == '\0' {
            assert(s@[i as int] == '\0');
            return false;
        }
        i = i + 1;
    }
    true
}

impl OpeningModel {
    /// The same opening at another stage.
    pub open spec fn at(self, stage: OpeningStageModel) -> OpeningModel {
        OpeningModel { stage, ..self }
    }

    /// The opening where something failed.
    pub open spec fn failed(self, why: Seq<char>) -> OpeningModel {
        self.at(OpeningStageModel::Failed(why))
    }

    /// The opening once all symbols are found: a key that cannot be passed on
    /// ends it.
    pub open spec fn with_symbols(self) -> OpeningModel {
        match self.config.key {
            Some(key) => if can_be_passed(key@) {
                self.at(OpeningStageModel::Creating)
            } else {
                self.failed("stereo-tool key is not valid UTF-8"@)
            },
            None => self.at(OpeningStageModel::Creating),
        }
    }

    /// The opening once there is an instance.
    pub open spec fn with_instance(self) -> OpeningModel {
        match self.config.settings {
            Some(path) => if can_be_passed(path@) {
                self.at(OpeningStageModel::Presetting)
            } else {
                self.failed("stereo-tool settings path is not valid UTF-8"@)
            },
            None => self.at(OpeningStageModel::Measuring),
        }
    }

    /// The opening after an event. One that does not belong there changes
    /// nothing.
    pub open spec fn after(self, event: OpeningEvent) -> OpeningModel {
        match (self.stage, event) {
            (OpeningStageModel::Loading, OpeningEvent::Done(ok)) => if ok {
                self.at(OpeningStageModel::Finding(0))
            } else {
                self.failed("cannot open stereo-tool lib "@ + self.config.lib@)
            },
            (OpeningStageModel::Finding(i), OpeningEvent::Done(ok)) => if !ok {
                self.failed("stereo-tool lib is missing "@ + symbol_name(i as int))
            } else if i + 1 < 10 {
                self.at(OpeningStageModel::Finding(i + 1))
            } else {
                self.with_symbols()
            },
            (OpeningStageModel::Creating, OpeningEvent::Done(ok)) => if ok {
                self.with_instance()
            } else {
                self.failed("stereo-tool lib returned a null instance (out of memory?)"@)
            },
            (OpeningStageModel::Presetting, OpeningEvent::Done(ok)) => if ok {
                self.at(OpeningStageModel::Measuring)
            } else {
                self.failed("stereo-tool lib refused preset "@ + self.config.settings->0@)
            },
            (OpeningStageModel::Measuring, OpeningEvent::Latency(frames)) => OpeningModel {
                latency: if frames > 0 {
                    frames as nat
                } else {
                    0
                },
                stage: OpeningStageModel::Licensing,
                ..self
            },
            (OpeningStageModel::Licensing, OpeningEvent::Done(valid)) => if valid {
                self.at(OpeningStageModel::Open)
            } else {
                self.at(OpeningStageModel::Explaining)
            },
            (OpeningStageModel::Explaining, OpeningEvent::Features(_, _)) => self.at(
                OpeningStageModel::Open,
            ),
            _ => self,
        }
    }

    /// What is said on an event: how the license stands.
    pub open spec fn says(self, event: OpeningEvent) -> Option<report::LineModel> {
        match (self.stage, event) {
            (OpeningStageModel::Licensing, OpeningEvent::Done(true)) => Some(
                report::LineModel::Out("deezco: stereo-tool-lib license OK"@),
            ),
            (OpeningStageModel::Explaining, OpeningEvent::Features(clean, message)) => Some(
                report::LineModel::Problem(
                    if clean {
                        "deezco: stereo-tool-lib license not (yet) verified; unlicensed output adds voice-overs/beeps"@
                    } else {
                        "deezco: stereo-tool-lib license issue: "@ + message@
                    },
                ),
            ),
            _ => None,
        }
    }
}

/// The opening of the library.
#[derive(Debug)]
pub struct Opening<'a> {
    config: &'a StereoLibConfig,
    latency: usize,
    stage: OpeningStage,
}

impl<'a> Opening<'a> {
    /// The opening as it stands.
    pub closed spec fn view(self) -> OpeningModel {
        OpeningModel {
            config: *self.config,
            latency: self.latency as nat,
            stage: self.stage.model(),
        }
    }

    /// Whether the symbol that is looked up is one of the required ones, and
    /// settings are loaded only where there are some.
    pub closed spec fn wf(self) -> bool {
        match self.stage {
            OpeningStage::Finding(i) => i < 10,
            OpeningStage::Presetting => self.config.settings is Some,
            _ => true,
        }
    }

    /// An opening that has not begun.
    pub fn new(config: &'a StereoLibConfig) -> (r: Opening<'a>)
        ensures
            r.wf(),
            r.view() == (OpeningModel {
                config: *config,
                latency: 0,
                stage: OpeningStageModel::Loading,
            }),
    {
        Opening { config, latency: 0, stage: OpeningStage::Loading }
    }

    /// The delay that was measured, in frames.
    pub fn latency_frames(&self) -> (r: usize)
        ensures
            r == self.view().latency,
    {
        self.latency
    }

    /// What to do next.
    pub fn step(&self) -> (r: OpeningStep)
        requires
            self.wf(),
        ensures
            match self.view().stage {
                OpeningStageModel::Loading => r is Load,
                OpeningStageModel::Finding(i) => r matches OpeningStep::Find(name) && name@
                    == symbol_name(i as int),
                OpeningStageModel::Creating => r is Create,
                OpeningStageModel::Presetting => r is LoadPreset,
                OpeningStageModel::Measuring => r is Measure,
                OpeningStageModel::Licensing => r is CheckLicense,
                OpeningStageModel::Explaining => r is Explain,
                OpeningStageModel::Open => r is Done,
                OpeningStageModel::Failed(e) => r matches OpeningStep::Fail(message) && message@
                    == e,
            },
    {
        match &self.stage {
            OpeningStage::Loading => OpeningStep::Load,
            OpeningStage::Finding(i) => OpeningStep::Find(required_symbols()[*i]),
            OpeningStage::Creating => OpeningStep::Create,
            OpeningStage::Presetting => OpeningStep::LoadPreset,
            OpeningStage::Measuring => OpeningStep::Measure,
            OpeningStage::Licensing => OpeningStep::CheckLicense,
            OpeningStage::Explaining => OpeningStep::Explain,
            OpeningStage::Open => OpeningStep::Done,
            OpeningStage::Failed(e) => OpeningStep::Fail(e.clone()),
        }
    }

    fn with_symbols(&self) -> (r: OpeningStage)
        ensures
            self.view().at(r.model()) == self.view().with_symbols(),
            r is Creating || r is Failed,
    {
        if let Some(key) = &self.config.key {
            if !is_passable(key.as_str()) {
                return OpeningStage::Failed("stereo-tool key is not valid UTF-8".to_owned());
            }
        }
        OpeningStage::Creating
    }

    fn with_instance(&self) -> (r: OpeningStage)
        ensures
            self.view().at(r.model()) == self.view().with_instance(),
            r is Presetting ==> self.view().config.settings is Some,
            r is Presetting || r is Measuring || r is Failed,
    {
        match &self.config.settings {
            Some(path) => if is_passable(path.as_str()) {
                OpeningStage::Presetting
            } else {
                OpeningStage::Failed("stereo-tool settings path is not valid UTF-8".to_owned())
            },
            None => OpeningStage::Measuring,
        }
    }

    /// Takes in what happened; what there is to say of it.
    pub fn on_event(&mut self, event: OpeningEvent) -> (r: Option<Line>)
        requires
            old(self).wf(),
        ensures
            final(self).wf(),
            final(self).view() == old(self).view().after(event),
            match old(self).view().says(event) {
                Some(said) => r matches Some(line) && line.model() == said,
                None => r is None,
            },
    {
        match (&self.stage, event) {
            (OpeningStage::Loading, OpeningEvent::Done(ok)) => {
                if ok {
                    self.stage = OpeningStage::Finding(0);
                } else {
                    let mut s = "cannot open stereo-tool lib ".to_owned();
                    s.append(self.config.lib.as_str());
                    self.stage = OpeningStage::Failed(s);
                }
            },
            (OpeningStage::Finding(at), OpeningEvent::Done(ok)) => {
                let i: usize = *at;
                if !ok {
                    let mut s = "stereo-tool lib is missing ".to_owned();
                    s.append(required_symbols()[i]);
                    self.stage = OpeningStage::Failed(s);
                } else if i + 1 < 10 {
                    self.stage = OpeningStage::Finding(i + 1);
                } else {
                    self.stage = self.with_symbols();
                }
            },
            (OpeningStage::Creating, OpeningEvent::Done(ok)) => {
                if ok {
                    self.stage = self.with_instance();
                } else {
                    self.stage = OpeningStage::Failed(
                        "stereo-tool lib returned a null instance (out of memory?)".to_owned(),
                    );
                }
            },
            (OpeningStage::Presetting, OpeningEvent::Done(ok)) => {
                if ok {
                    self.stage = OpeningStage::Measuring;
                } else {
                    let mut s = "stereo-tool lib refused preset ".to_owned();
                    if let Some(settings) = &self.config.settings {
                        s.append(settings.as_str());
                    }
                    self.stage = OpeningStage::Failed(s);
                }
            },
            (OpeningStage::Measuring, OpeningEvent::Latency(frames)) => {
                self.latency = if frames > 0 {
                    frames as usize
                } else {
                    0
                };
                self.stage = OpeningStage::Licensing;
            },
            (OpeningStage::Licensing, OpeningEvent::Done(valid)) => {
                if valid {
                    self.stage = OpeningStage::Open;
                    return Some(Line::Out("deezco: stereo-tool-lib license OK".to_owned()));
                }
                self.stage = OpeningStage::Explaining;
            },
            (OpeningStage::Explaining, OpeningEvent::Features(clean, message)) => {
                self.stage = OpeningStage::Open;
                if clean {
                    return Some(
                        Line::Problem(
                            "deezco: stereo-tool-lib license not (yet) verified; unlicensed output adds voice-overs/beeps".to_owned(),
                        ),
                    );
                }
                let mut s = "deezco: stereo-tool-lib license issue: ".to_owned();
                s.append(message.as_str());
                return Some(Line::Problem(s));
            },
            _ => {},
        }
        None
    }
}

/// An opening that ended stays as it is.
pub proof fn ended_openings_stay(opening: OpeningModel, event: OpeningEvent)
    requires
        opening.stage is Open || opening.stage is Failed,
    ensures
        opening.after(event) == opening,
{
}

/// A license never keeps the library from being used: once the delay is
/// measured, nothing makes an opening fail.
pub proof fn licenses_never_fail_an_opening(opening: OpeningModel, event: OpeningEvent)
    requires
        opening.stage is Licensing || opening.stage is Explaining || opening.stage is Open,
    ensures
        !(opening.after(event).stage is Failed),
        opening.after(event).latency == opening.latency,
{
}

/// How many blocks a number of frames is processed in.
pub open spec fn block_count(frames: nat) -> nat {
    (frames + 8191) as nat / 8192
}

/// How many blocks a number of frames is processed in.
pub fn total_blocks(frames: usize) -> (r: usize)
    ensures
        r == block_count(frames as nat),
{
    let whole: usize = frames / PROCESS_BLOCK_FRAMES;
    if frames % PROCESS_BLOCK_FRAMES == 0 {
        whole
    } else {
        whole + 1
    }
}

/// The progress line behind `done` blocks.
pub open spec fn progress(done: nat, blocks: nat, frames: nat, label: Option<Seq<char>>) -> Seq<
    char,
> {
    "deezco: stereo-tool-lib progress "@ + text::decimal(done * 100 / blocks) + "%"@ + (
    match label {
        Some(l) => " \""@ + l + "\""@,
        None => ""@,
    }) + " ("@ + text::decimal(done) + "/"@ + text::decimal(blocks) + " blocks, "@ + text::decimal(
        frames,
    ) + " frames)"@
}

/// A run over a buffer, block by block.
#[derive(Debug)]
pub struct BlockRun {
    frames: usize,
    done: usize,
    label: Option<String>,
}

/// A run over a buffer of so many frames, of which so many blocks are done.
pub struct BlockRunModel {
    pub frames: nat,
    pub done: nat,
    pub label: Option<Seq<char>>,
}

impl BlockRun {
    /// The run as it stands.
    pub closed spec fn view(self) -> BlockRunModel {
        BlockRunModel {
            frames: self.frames as nat,
            done: self.done as nat,
            label: json::text_view(self.label),
        }
    }

    /// Whether no more blocks are done than there are.
    pub closed spec fn wf(self) -> bool {
        self.done <= block_count(self.frames as nat)
    }

    /// A run that has not begun.
    pub fn new(frames: usize, label: Option<String>) -> (r: BlockRun)
        ensures
            r.wf(),
            r.view() == (BlockRunModel {
                frames: frames as nat,
                done: 0,
                label: json::text_view(label),
            }),
    {
        BlockRun { frames, done: 0, label }
    }

    /// The frames of the next block, from the first up to but not with the
    /// second; none once all are done.
    pub fn next_block(&self) -> (r: Option<(usize, usize)>)
        requires
            self.wf(),
        ensures
            match r {
                Some((from, to)) => {
                    &&& self.view().done < block_count(self.view().frames)
                    &&& from == self.view().done * 8192
                    &&& from < to <= self.view().frames
                    &&& to == (if from + 8192 < self.view().frames {
                        from + 8192
                    } else {
                        self.view().frames as int
                    })
                },
                None => self.view().done == block_count(self.view().frames),
            },
    {
        let blocks = total_blocks(self.frames);
        if self.done == blocks {
            return None;
        }
        proof {
            blocks_cover_the_buffer(self.frames as nat);
        }
        let from: usize = self.done * PROCESS_BLOCK_FRAMES;
        let to: usize = if self.frames - from > PROCESS_BLOCK_FRAMES {
            from + PROCESS_BLOCK_FRAMES
        } else {
            self.frames
        };
        Some((from, to))
    }

    /// Takes in that the next block is done, so many seconds after the last
    /// progress line. There is one behind the last block, and otherwise every
    /// five seconds.
    pub fn on_block(&mut self, seconds_since_last: u64) -> (r: Option<String>)
        requires
            old(self).wf(),
            old(self).view().done < block_count(old(self).view().frames),
        ensures
            final(self).wf(),
            final(self).view() == (BlockRunModel {
                done: old(self).view().done + 1,
                ..old(self).view()
            }),
            ({
                let run = final(self).view();
                let blocks = block_count(run.frames);
                if run.done == blocks || seconds_since_last >= 5 {
                    r matches Some(line) && line@ == progress(
                        run.done,
                        blocks,
                        run.frames,
                        run.label,
                    )
                } else {
                    r is None
                }
            }),
    {
        let blocks = total_blocks(self.frames);
        self.done = self.done + 1;
        if self.done != blocks && seconds_since_last < 5 {
            return None;
        }
        let percent: usize = self.done * 100 / blocks;
        let mut s = "deezco: stereo-tool-lib progress ".to_owned();
        s.append(text::decimal_text(percent as u64).as_str());
        s.append("%");
        match &self.label {
            Some(l) => {
                let ghost head = s@;
                s.append(" \"");
                s.append(l.as_str());
                s.append("\"");
                proof {
                    assert(s@ =~= head + (" \""@ + l@ + "\""@));
                }
            },
            None => {
                proof {
                    reveal_strlit("");
                    assert(s@ + ""@ =~= s@);
                }
            },
        }
        s.append(" (");
        s.append(text::decimal_text(self.done as u64).as_str());
        s.append("/");
        s.append(text::decimal_text(blocks as u64).as_str());
        s.append(" blocks, ");
        s.append(text::decimal_text(self.frames as u64).as_str());
        s.append(" frames)");
        Some(s)
    }
}

/// The blocks of a buffer cover it: the last of them begins within it, and a
/// further one would not.
pub proof fn blocks_cover_the_buffer(frames: nat)
    requires
        frames > 0,
    ensures
        block_count(frames) > 0,
        (block_count(frames) - 1) * 8192 < frames <= block_count(frames) * 8192,
{
}

/// The library opens step by step: it is loaded, its ten symbols are found one
/// after the other, an instance is made, the settings are loaded where there are
/// some, and the delay is measured. Each step that fails ends the opening.
pub proof fn openings_go_step_by_step(opening: OpeningModel, i: nat, ok: bool)
    ensures
        opening.stage is Loading ==> opening.after(OpeningEvent::Done(true)).stage
            == OpeningStageModel::Finding(0),
        opening.stage == OpeningStageModel::Finding(i) && i < 9 ==> opening.after(
            OpeningEvent::Done(true),
        ).stage == OpeningStageModel::Finding(i + 1),
        opening.stage == OpeningStageModel::Finding(9) && opening.config.key is None
            ==> opening.after(OpeningEvent::Done(true)).stage is Creating,
        opening.stage == OpeningStageModel::Finding(9) && opening.config.key is Some ==> (
        opening.after(OpeningEvent::Done(true)).stage is Creating
            <==> !opening.config.key->0@.contains('\0')),
        opening.stage is Creating && opening.config.settings is None ==> opening.after(
            OpeningEvent::Done(true),
        ).stage is Measuring,
        opening.stage is Creating && opening.config.settings is Some ==> (opening.after(
            OpeningEvent::Done(true),
        ).stage is Presetting <==> !opening.config.settings->0@.contains('\0')),
        opening.stage is Presetting ==> opening.after(OpeningEvent::Done(true)).stage is Measuring,
        opening.stage is Loading || opening.stage is Finding || opening.stage is Creating
            || opening.stage is Presetting ==> opening.after(OpeningEvent::Done(false)).stage is Failed,
        opening.after(OpeningEvent::Done(ok)).latency == opening.latency,
        opening.after(OpeningEvent::Done(ok)).config == opening.config,
{
    if opening.config.key is Some {
        lemma_no_zero_character(opening.config.key->0@);
    }
    if opening.config.settings is Some {
        lemma_no_zero_character(opening.config.settings->0@);
    }
}

proof fn lemma_no_zero_character(s: Seq<char>)
    ensures
        can_be_passed(s) == !s.contains('\0'),
{
    if s.contains('\0') {
        let i = choose|i: int| 0 <= i < s.len() && s[i] == '\0';
        assert(s[i] == '\0');
    }
    if !can_be_passed(s) {
        let i = choose|i: int| 0 <= i < s.len() && (#[trigger] s[i]) == '\0';
        assert(s.contains(s[i]));
    }
}

/// The delay that was measured is kept, and what is below nothing counts as none.
pub proof fn delays_are_measured(opening: OpeningModel, frames: i32)
    requires
        opening.stage is Measuring,
    ensures
        opening.after(OpeningEvent::Latency(frames)).latency == (if frames > 0 {
            frames as int
        } else {
            0
        }),
        opening.after(OpeningEvent::Latency(frames)).stage is Licensing,
{
}

/// Progress is said in whole percent of the blocks, rounded down, with the label
/// of the process where it has one.
pub proof fn progress_is_said_in_percent(
    done: nat,
    blocks: nat,
    frames: nat,
    label: Seq<char>,
    percent: nat,
)
    requires
        blocks > 0,
        percent * blocks <= 100 * done < (percent + 1) * blocks,
    ensures
        progress(done, blocks, frames, Some(label)) == "deezco: stereo-tool-lib progress "@
            + text::decimal(percent) + "%"@ + (" \""@ + label + "\""@) + " ("@ + text::decimal(done)
            + "/"@ + text::decimal(blocks) + " blocks, "@ + text::decimal(frames) + " frames)"@,
        progress(done, blocks, frames, None) == "deezco: stereo-tool-lib progress "@
            + text::decimal(percent) + "%"@ + ""@ + " ("@ + text::decimal(done) + "/"@
            + text::decimal(blocks) + " blocks, "@ + text::decimal(frames) + " frames)"@,
{
    assert(done * 100 / blocks == percent) by (nonlinear_arith)
        requires
            blocks > 0,
            percent * blocks <= 100 * done < (percent + 1) * blocks,
    ;
}

} // verus!
