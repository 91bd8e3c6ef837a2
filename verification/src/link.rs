//! Replacing a duplicate by a hard link without ever losing its audio.

use vstd::prelude::*;

use crate::dedupe;
use crate::files;
use crate::text;
use crate::track;

verus! {

/// What a replacement is at.
#[derive(Debug, PartialEq)]
pub enum LinkStage {
    /// Looking for a free name to set the duplicate aside under.
    Probing,
    /// Setting the duplicate aside.
    Renaming,
    /// Linking the kept file in its place.
    Linking,
    /// Removing the duplicate.
    Removing,
    /// Putting the duplicate back, since linking failed for this reason.
    Restoring(String),
    /// The link stands.
    Linked,
    /// The replacement failed.
    Failed(String),
}

/// What happened.
#[derive(Debug, PartialEq)]
pub enum LinkEvent {
    /// Whether the name that was asked about is taken.
    Taken(bool),
    /// The file system did what was asked.
    Success,
    /// The file system refused, for this reason.
    Refusal(String),
}

/// What to do next.
#[derive(Debug, PartialEq)]
pub enum LinkStep {
    /// Ask whether this name is taken.
    Probe(String),
    /// Rename the duplicate to this name.
    Rename(String),
    /// Link the kept file to the name of the duplicate.
    Link,
    /// Remove the file of this name.
    Remove(String),
    /// Rename the file of this name back to that of the duplicate.
    Restore(String),
    /// Nothing; the link stands.
    Done,
    /// Nothing; the replacement failed for this reason.
    Fail(String),
}

/// A stage without its representation.
pub enum StageModel {
    Probing,
    Renaming,
    Linking,
    Removing,
    Restoring(Seq<char>),
    Linked,
    Failed(Seq<char>),
}

impl LinkStage {
    /// The stage without its representation.
    pub open spec fn model(self) -> StageModel {
        match self {
            LinkStage::Probing => StageModel::Probing,
            LinkStage::Renaming => StageModel::Renaming,
            LinkStage::Linking => StageModel::Linking,
            LinkStage::Removing => StageModel::Removing,
            LinkStage::Restoring(e) => StageModel::Restoring(e@),
            LinkStage::Linked => StageModel::Linked,
            LinkStage::Failed(e) => StageModel::Failed(e@),
        }
    }
}

/// A replacement: the kept file, the duplicate, the folder of the duplicate,
/// the number of names that were taken, and the stage.
pub struct LinkModel {
    pub source: Seq<char>,
    pub target: Seq<char>,
    pub parent: Seq<char>,
    pub attempt: nat,
    pub stage: StageModel,
}

impl LinkModel {
    /// The name under which the duplicate is set aside.
    pub open spec fn aside(self) -> Seq<char> {
        track::joined(
            self.parent,
            dedupe::temp_file(
                match files::file_name(self.target) {
                    Some(name) => name,
                    None => "duplicate"@,
                },
                self.attempt,
            ),
        )
    }

    /// What is said where linking failed.
    pub open spec fn link_failure(self) -> Seq<char> {
        "Failed to create hardlink from "@ + self.source + " to "@ + self.target
    }

    /// The same replacement at another stage.
    pub open spec fn at(self, stage: StageModel) -> LinkModel {
        LinkModel { stage, ..self }
    }

    /// The replacement after an event. One that does not belong there changes
    /// nothing.
    pub open spec fn after(self, event: LinkEvent) -> LinkModel {
        match (self.stage, event) {
            (StageModel::Probing, LinkEvent::Taken(taken)) => if taken {
                LinkModel { attempt: self.attempt + 1, ..self }
            } else {
                self.at(StageModel::Renaming)
            },
            (StageModel::Renaming, LinkEvent::Success) => self.at(StageModel::Linking),
            (StageModel::Renaming, LinkEvent::Refusal(_)) => self.at(
                StageModel::Failed("Failed to prepare duplicate file: "@ + self.target),
            ),
            (StageModel::Linking, LinkEvent::Success) => self.at(StageModel::Removing),
            (StageModel::Linking, LinkEvent::Refusal(e)) => self.at(StageModel::Restoring(e@)),
            (StageModel::Removing, LinkEvent::Success) => self.at(StageModel::Linked),
            (StageModel::Removing, LinkEvent::Refusal(_)) => self.at(
                StageModel::Failed("Failed to remove duplicate temp file: "@ + self.aside()),
            ),
            (StageModel::Restoring(_), LinkEvent::Success) => self.at(
                StageModel::Failed(self.link_failure()),
            ),
            (StageModel::Restoring(e), LinkEvent::Refusal(e2)) => self.at(
                StageModel::Failed(
                    self.link_failure() + ": "@ + e + "; also failed to restore duplicate: "@
                        + e2@,
                ),
            ),
            _ => self,
        }
    }
}

/// The replacement of a duplicate by a hard link to a kept file.
#[derive(Debug)]
pub struct LinkJob {
    source: String,
    target: String,
    parent: String,
    attempt: u64,
    stage: LinkStage,
}

impl LinkJob {
    /// The replacement as it stands.
    pub closed spec fn view(self) -> LinkModel {
        LinkModel {
            source: self.source@,
            target: self.target@,
            parent: self.parent@,
            attempt: self.attempt as nat,
            stage: self.stage.model(),
        }
    }

    /// A replacement that has not begun.
    pub fn new(source: String, target: String, parent: String) -> (r: LinkJob)
        ensures
            r.view() == (LinkModel {
                source: source@,
                target: target@,
                parent: parent@,
                attempt: 0,
                stage: StageModel::Probing,
            }),
    {
        LinkJob { source, target, parent, attempt: 0, stage: LinkStage::Probing }
    }

    fn temp(&self) -> (r: String)
        ensures
            r@ == self.view().aside(),
    {
        let name = dedupe::temp_file_name(self.target.as_str(), self.attempt);
        track::join_path(self.parent.as_str(), name.as_str())
    }

    fn failure(&self) -> (r: String)
        ensures
            r@ == self.view().link_failure(),
    {
        let mut s = "Failed to create hardlink from ".to_owned();
        s.append(self.source.as_str());
        s.append(" to ");
        s.append(self.target.as_str());
        s
    }

    /// What to do next.
    pub fn step(&self) -> (r: LinkStep)
        ensures
            match self.view().stage {
                StageModel::Probing => r matches LinkStep::Probe(name) && name@
                    == self.view().aside(),
                StageModel::Renaming => r matches LinkStep::Rename(name) && name@
                    == self.view().aside(),
                StageModel::Linking => r is Link,
                StageModel::Removing => r matches LinkStep::Remove(name) && name@
                    == self.view().aside(),
                StageModel::Restoring(_) => r matches LinkStep::Restore(name) && name@
                    == self.view().aside(),
                StageModel::Linked => r is Done,
                StageModel::Failed(e) => r matches LinkStep::Fail(message) && message@ == e,
            },
    {
        match &self.stage {
            LinkStage::Probing => LinkStep::Probe(self.temp()),
            LinkStage::Renaming => LinkStep::Rename(self.temp()),
            LinkStage::Linking => LinkStep::Link,
            LinkStage::Removing => LinkStep::Remove(self.temp()),
            LinkStage::Restoring(_) => LinkStep::Restore(self.temp()),
            LinkStage::Linked => LinkStep::Done,
            LinkStage::Failed(message) => LinkStep::Fail(message.as_str().to_owned()),
        }
    }

    /// Takes in what happened.
    pub fn on_event(&mut self, event: LinkEvent)
        requires
            old(self).view().attempt < u64::MAX,
        ensures
            final(self).view() == old(self).view().after(event),
    {
        let next: Option<LinkStage> = match (&self.stage, event) {
            (LinkStage::Probing, LinkEvent::Taken(taken)) => {
                if taken {
                    self.attempt = self.attempt + 1;
                    None
                } else {
                    Some(LinkStage::Renaming)
                }
            },
            (LinkStage::Renaming, LinkEvent::Success) => Some(LinkStage::Linking),
            (LinkStage::Renaming, LinkEvent::Refusal(_)) => {
                let mut s = "Failed to prepare duplicate file: ".to_owned();
                s.append(self.target.as_str());
                Some(LinkStage::Failed(s))
            },
            (LinkStage::Linking, LinkEvent::Success) => Some(LinkStage::Removing),
            (LinkStage::Linking, LinkEvent::Refusal(e)) => Some(LinkStage::Restoring(e)),
            (LinkStage::Removing, LinkEvent::Success) => Some(LinkStage::Linked),
            (LinkStage::Removing, LinkEvent::Refusal(_)) => {
                let mut s = "Failed to remove duplicate temp file: ".to_owned();
                s.append(self.temp().as_str());
                Some(LinkStage::Failed(s))
            },
            (LinkStage::Restoring(_), LinkEvent::Success) => {
                Some(LinkStage::Failed(self.failure()))
            },
            (LinkStage::Restoring(e), LinkEvent::Refusal(e2)) => {
                let mut s = self.failure();
                s.append(": ");
                s.append(e.as_str());
                s.append("; also failed to restore duplicate: ");
                s.append(e2.as_str());
                Some(LinkStage::Failed(s))
            },
            _ => None,
        };
        if let Some(stage) = next {
            self.stage = stage;
        }
    }
}

/// Whether the audio of a duplicate stands under its own name, and whether
/// under the name that it was set aside under.
pub struct Disk {
    pub target: bool,
    pub aside: bool,
}

/// The disk after the file system did what was asked at a stage.
pub open spec fn disk_after(stage: StageModel, event: LinkEvent, disk: Disk) -> Disk {
    match (stage, event) {
        (StageModel::Renaming, LinkEvent::Success) => Disk { target: false, aside: true },
        (StageModel::Linking, LinkEvent::Success) => Disk { target: true, ..disk },
        (StageModel::Removing, LinkEvent::Success) => Disk { aside: false, ..disk },
        (StageModel::Restoring(_), LinkEvent::Success) => Disk { target: true, aside: false },
        _ => disk,
    }
}

/// Whether a disk is as a stage leaves it.
pub open spec fn is_consistent(stage: StageModel, disk: Disk) -> bool {
    match stage {
        StageModel::Probing | StageModel::Renaming => disk.target,
        StageModel::Linking | StageModel::Restoring(_) => !disk.target && disk.aside,
        StageModel::Removing => disk.target && disk.aside,
        StageModel::Linked => disk.target && !disk.aside,
        StageModel::Failed(_) => disk.target || disk.aside,
    }
}

/// The audio of a duplicate is never lost: whatever the file system refuses, it
/// stands under its own name or is still set aside.
pub proof fn links_never_lose_audio(m: LinkModel, event: LinkEvent, disk: Disk)
    requires
        is_consistent(m.stage, disk),
    ensures
        is_consistent(m.after(event).stage, disk_after(m.stage, event, disk)),
        ({
            let after = disk_after(m.stage, event, disk);
            after.target || after.aside
        }),
{
}

/// Where only linking itself fails, the duplicate is back under its own name.
pub proof fn failed_links_are_undone(m: LinkModel, reason: String, disk: Disk)
    requires
        m.stage is Linking,
        is_consistent(m.stage, disk),
    ensures
        ({
            let refused = m.after(LinkEvent::Refusal(reason));
            let restored = disk_after(refused.stage, LinkEvent::Success, disk);
            &&& refused.stage is Restoring
            &&& refused.after(LinkEvent::Success).stage is Failed
            &&& restored.target && !restored.aside
        }),
{
}

/// A replacement goes step by step. A name that is taken is passed over for the
/// next one. Then the duplicate is set aside under the free name, the link takes
/// its place, and only once it stands is the duplicate removed.
pub proof fn replacements_go_step_by_step(m: LinkModel, reason: String)
    requires
        m.stage is Probing,
    ensures
        ({
            let renaming = m.after(LinkEvent::Taken(false));
            let linking = renaming.after(LinkEvent::Success);
            let removing = linking.after(LinkEvent::Success);
            &&& m.after(LinkEvent::Taken(true)) == (LinkModel { attempt: m.attempt + 1, ..m })
            &&& renaming.stage is Renaming
            &&& renaming.aside() == m.aside()
            &&& renaming.after(LinkEvent::Refusal(reason)).stage is Failed
            &&& linking.stage is Linking
            &&& removing.stage is Removing
            &&& removing.aside() == m.aside()
            &&& removing.after(LinkEvent::Success).stage is Linked
            &&& removing.after(LinkEvent::Refusal(reason)).stage is Failed
        }),
{
}

/// What is set aside stays in the folder of the duplicate, under its name with an
/// ending of its own, which counts the names that were taken.
pub proof fn duplicates_are_set_aside_beside_themselves(m: LinkModel, name: Seq<char>)
    requires
        files::file_name(m.target) == Some(name),
        m.parent.len() > 0,
        m.parent.last() != '/',
        name.len() > 0,
        name[0] != '/',
    ensures
        m.attempt == 0 ==> m.aside() == m.parent + "/"@ + (name + ".dedupe-tmp"@),
        m.attempt > 0 ==> m.aside() == m.parent + "/"@ + (name + ".dedupe-tmp-"@ + text::decimal(
            m.attempt,
        )),
{
    assert((name + ".dedupe-tmp"@)[0] == name[0]);
    assert((name + ".dedupe-tmp-"@ + text::decimal(m.attempt))[0] == name[0]);
}

} // verus!
