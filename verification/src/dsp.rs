//! The processor chain between the crossfade and the encoder.

use vstd::prelude::*;

use crate::json;
use crate::real32::Real32;

verus! {

/// Settings of the Stereo Tool command-line processor.
#[derive(Debug, PartialEq)]
pub struct StereoToolConfig {
    /// Path of the binary.
    pub binary: String,
    /// Settings file; the tool's own defaults apply without one.
    pub settings: Option<String>,
    /// License key.
    pub key: Option<String>,
    /// Sample rate of the processing in Hz.
    pub rate: u32,
}

/// A copy of an optional text.
pub fn copy_text(s: &Option<String>) -> (r: Option<String>)
    ensures
        r == *s,
{
    match s {
        Some(s) => Some(s.clone()),
        None => None,
    }
}

impl StereoToolConfig {
    /// The same settings once more.
    pub fn copy(&self) -> (r: StereoToolConfig)
        ensures
            r == *self,
    {
        StereoToolConfig {
            binary: self.binary.clone(),
            settings: copy_text(&self.settings),
            key: copy_text(&self.key),
            rate: self.rate,
        }
    }
}

/// The slot of the Stereo Tool: passes audio through and warns once.
#[derive(Debug, PartialEq)]
pub struct StereoToolProcessor {
    config: StereoToolConfig,
    warned: bool,
}

impl StereoToolProcessor {
    /// The settings.
    pub closed spec fn settings(self) -> StereoToolConfig {
        self.config
    }

    /// Whether the warning was given.
    pub closed spec fn has_warned(self) -> bool {
        self.warned
    }

    /// A processor that has not warned yet.
    pub fn new(config: StereoToolConfig) -> (r: StereoToolProcessor)
        ensures
            r.settings() == config,
            !r.has_warned(),
    {
        StereoToolProcessor { config, warned: false }
    }

    /// The name of the processor.
    pub fn name(&self) -> (r: &'static str)
        ensures
            r@ == "stereo-tool"@,
    {
        "stereo-tool"
    }

    /// The warning that audio passes through unchanged, the first time it is
    /// asked for.
    pub fn bypass_warning(&mut self) -> (r: Option<String>)
        ensures
            final(self).settings() == old(self).settings(),
            final(self).has_warned(),
            json::text_view(r) == (if old(self).has_warned() {
                None
            } else {
                Some(
                    "deezco: stereo-tool stub active ("@ + old(self).settings().binary@
                        + "): bypassing, PCM passes through unchanged"@,
                )
            }),
    {
        if self.warned {
            return None;
        }
        self.warned = true;
        let mut s = "deezco: stereo-tool stub active (".to_owned();
        s.append(self.config.binary.as_str());
        s.append("): bypassing, PCM passes through unchanged");
        Some(s)
    }
}

/// One stage of the chain.
#[derive(Debug, PartialEq)]
pub enum Stage {
    /// A static gain in decibels.
    Gain(Real32),
    /// The Stereo Tool command-line processor.
    StereoTool(StereoToolConfig),
    /// The Stereo Tool library, reset before each track or not.
    StereoLib(bool),
}

impl Stage {
    /// The name of the stage.
    pub open spec fn label(self) -> Seq<char> {
        match self {
            Stage::Gain(_) => "gain"@,
            Stage::StereoTool(_) => "stereo-tool"@,
            Stage::StereoLib(_) => "stereo-tool-lib"@,
        }
    }

    /// The name of the stage.
    pub fn name(&self) -> (r: &'static str)
        ensures
            r@ == self.label(),
    {
        match self {
            Stage::Gain(_) => "gain",
            Stage::StereoTool(_) => "stereo-tool",
            Stage::StereoLib(_) => "stereo-tool-lib",
        }
    }
}

/// The stages that audio runs through, in order.
#[derive(Debug, PartialEq)]
pub struct ProcessorChain {
    pub stages: Vec<Stage>,
}

impl ProcessorChain {
    /// A chain without stages, through which audio passes unchanged.
    pub fn new() -> (r: ProcessorChain)
        ensures
            r.stages@ == Seq::<Stage>::empty(),
    {
        ProcessorChain { stages: Vec::new() }
    }

    /// Adds a stage at the end.
    pub fn push(&mut self, stage: Stage)
        ensures
            final(self).stages@ == old(self).stages@.push(stage),
    {
        self.stages.push(stage);
    }

    /// Whether the chain has no stage.
    pub fn is_empty(&self) -> (r: bool)
        ensures
            r == (self.stages@.len() == 0),
    {
        self.stages.len() == 0
    }

    /// How many stages the chain has.
    pub fn len(&self) -> (r: usize)
        ensures
            r == self.stages@.len(),
    {
        self.stages.len()
    }

    /// The names of the stages, in order.
    pub fn names(&self) -> (r: Vec<&'static str>)
        ensures
            r@.len() == self.stages@.len(),
            forall|i: int| 0 <= i < r@.len() ==> (#[trigger] r@[i])@ == self.stages@[i].label(),
    {
        let mut names: Vec<&'static str> = Vec::new();
        let mut i: usize = 0;
        while i < self.stages.len()
            invariant
                i <= self.stages@.len(),
                names@.len() == i,
                forall|k: int| 0 <= k < i ==> (#[trigger] names@[k])@ == self.stages@[k].label(),
            decreases self.stages@.len() - i,
        {
            names.push(self.stages[i].name());
            i = i + 1;
        }
        names
    }
}

} // verus!
