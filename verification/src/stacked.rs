//! An overlay of any number of layers: past the limit of one mount, the trailing layers are
//! stacked into staging directories first, each of which is used as a new layer.

use vstd::prelude::*;

use crate::core_mount::{mount_overlay_core, CoreMount, CorePhase};
use crate::error::MountError;
use crate::host::{MountEffect, Next, Place, Reply, ReplyView, Request};
use crate::layers;
use crate::layers::{split_tail, MAX_LAYERS};
use crate::runs::Machine;
use crate::text;

verus! {

/// What a stacked overlay is to end in.
#[derive(Debug, PartialEq, Eq)]
pub struct StackedGoal<T = String> {
    pub upper: Option<T>,
    pub work: Option<T>,
    pub dest: T,
    /// Where staging directories are created.
    pub staging_root: T,
    pub source: T,
}

/// How far a stacked overlay has come.
#[derive(Debug, PartialEq, Eq)]
pub enum StackedPhase<T = String, L = Vec<String>> {
    /// It asks for a staging directory for the tail of the layers.
    CreateDir { tail: L },
    /// It mounts the tail at the staging directory.
    Staging { dir: T, mount: CoreMount<T> },
    /// It reports the staging directory.
    Report { dir: T },
    /// It mounts the layers that are left.
    Last(CoreMount<T>),
    /// It has failed before the last mount.
    Failed(MountError<T>),
}

/// A stacked overlay in progress.
#[derive(Debug, PartialEq, Eq)]
pub struct StackedMount<T = String, L = Vec<String>> {
    /// The layers that are left, from the highest priority to the lowest.
    pub layers: L,
    pub goal: StackedGoal<T>,
    pub phase: StackedPhase<T, L>,
}

/// A stacked overlay as the contracts see it.
pub type StackedView = StackedMount<Seq<char>, Seq<Seq<char>>>;

impl View for StackedGoal {
    type V = StackedGoal<Seq<char>>;

    open spec fn view(&self) -> StackedGoal<Seq<char>> {
        StackedGoal {
            upper: text::opt_text(self.upper),
            work: text::opt_text(self.work),
            dest: self.dest@,
            staging_root: self.staging_root@,
            source: self.source@,
        }
    }
}

impl View for StackedPhase {
    type V = StackedPhase<Seq<char>, Seq<Seq<char>>>;

    open spec fn view(&self) -> StackedPhase<Seq<char>, Seq<Seq<char>>> {
        match *self {
            StackedPhase::CreateDir { tail } => StackedPhase::CreateDir {
                tail: text::texts(tail@),
            },
            StackedPhase::Staging { dir, mount } => StackedPhase::Staging {
                dir: dir@,
                mount: mount@,
            },
            StackedPhase::Report { dir } => StackedPhase::Report { dir: dir@ },
            StackedPhase::Last(mount) => StackedPhase::Last(mount@),
            StackedPhase::Failed(e) => StackedPhase::Failed(e@),
        }
    }
}

impl View for StackedMount {
    type V = StackedView;

    open spec fn view(&self) -> StackedView {
        StackedMount {
            layers: text::texts(self.layers@),
            goal: self.goal@,
            phase: self.phase@,
        }
    }
}

impl StackedGoal<Seq<char>> {
    /// On to the next staging directory, or to the last mount once that can hold all layers.
    pub open spec fn with_layers(self, layers: Seq<Seq<char>>) -> StackedView {
        if layers.len() > MAX_LAYERS {
            StackedMount {
                layers: layers::kept(layers),
                goal: self,
                phase: StackedPhase::CreateDir { tail: layers::tail(layers) },
            }
        } else {
            StackedMount {
                layers,
                goal: self,
                phase: StackedPhase::Last(
                    CoreMount::started(
                        layers,
                        self.upper,
                        self.work,
                        Place::Target(self.dest),
                        self.source,
                    ),
                ),
            }
        }
    }

    /// Goes on with the mount at a staging directory, which may be over.
    pub open spec fn with_staging(
        self,
        layers: Seq<Seq<char>>,
        dir: Seq<char>,
        mount: CoreMount<Seq<char>>,
    ) -> StackedView {
        StackedMount {
            layers,
            goal: self,
            phase: match mount.phase {
                CorePhase::Finished(Ok(_)) => StackedPhase::Report { dir },
                CorePhase::Finished(Err(e)) => StackedPhase::Failed(e),
                _ => StackedPhase::Staging { dir, mount },
            },
        }
    }
}

impl StackedMount<Seq<char>, Seq<Seq<char>>> {
    pub open spec fn with_phase(self, phase: StackedPhase<Seq<char>, Seq<Seq<char>>>) -> Self {
        StackedMount { phase, ..self }
    }

    /// A stacked overlay that is about to begin.
    pub open spec fn started(
        lower_dirs: Seq<Seq<char>>,
        lowest: Seq<char>,
        goal: StackedGoal<Seq<char>>,
    ) -> Self {
        goal.with_layers(lower_dirs.push(lowest))
    }
}

impl Machine for StackedMount<Seq<char>, Seq<Seq<char>>> {
    /// What the overlay does next.
    open spec fn pending(self) -> Next<Seq<char>> {
        match self.phase {
            StackedPhase::CreateDir { .. } => Next::Ask(
                Request::CreateStagingDir { root: self.goal.staging_root },
            ),
            StackedPhase::Staging { mount, .. } => mount.pending(),
            StackedPhase::Report { dir } => Next::Ask(Request::Report(MountEffect::Staging(dir))),
            StackedPhase::Last(mount) => mount.pending(),
            StackedPhase::Failed(e) => Next::Finished(Err(e)),
        }
    }

    /// The overlay after the host's reply. A reply of another kind than the request asks for
    /// changes nothing.
    open spec fn resumed(self, reply: ReplyView) -> Self {
        match (self.phase, reply) {
            (StackedPhase::CreateDir { tail }, Reply::Directory(Ok(dir))) => self.goal.with_staging(
                self.layers,
                dir,
                CoreMount::started(tail, None, None, Place::Staging(dir), self.goal.source),
            ),
            (StackedPhase::CreateDir { .. }, Reply::Directory(Err(cause))) => self.with_phase(
                StackedPhase::Failed(MountError::Host(cause)),
            ),
            (StackedPhase::Staging { dir, mount }, _) => self.goal.with_staging(
                self.layers,
                dir,
                mount.resumed(reply),
            ),
            (StackedPhase::Report { dir }, Reply::Done) => self.goal.with_layers(
                self.layers.push(dir),
            ),
            (StackedPhase::Last(mount), _) => self.with_phase(
                StackedPhase::Last(mount.resumed(reply)),
            ),
            _ => self,
        }
    }
}

/// Stacks `lower_dirs` plus `lowest` onto `dest`, staging first when there are more layers than
/// one mount can hold.
pub fn mount_overlayfs(
    lower_dirs: &[String],
    lowest: &str,
    upperdir: Option<String>,
    workdir: Option<String>,
    dest: &str,
    staging_root: &str,
    mount_source: &str,
) -> (mount: StackedMount)
    ensures
        mount@ == StackedMount::started(
            text::texts(lower_dirs@),
            lowest@,
            (StackedGoal {
                upper: text::opt_text(upperdir),
                work: text::opt_text(workdir),
                dest: dest@,
                staging_root: staging_root@,
                source: mount_source@,
            }),
        ),
{
    let mut current_layers: Vec<String> = text::copy_list(lower_dirs);
    current_layers.push(text::copy_text(lowest));
    assert(text::texts(current_layers@) =~= text::texts(lower_dirs@).push(lowest@));
    StackedGoal {
        upper: upperdir,
        work: workdir,
        dest: text::copy_text(dest),
        staging_root: text::copy_text(staging_root),
        source: text::copy_text(mount_source),
    }.stack(current_layers)
}

impl StackedGoal {
    fn stack(self, current_layers: Vec<String>) -> (mount: StackedMount)
        ensures
            mount@ == self@.with_layers(text::texts(current_layers@)),
    {
        let mut current: Vec<String> = current_layers;
        let ghost all = text::texts(current@);
        if current.len() > MAX_LAYERS {
            let tail: Vec<String> = split_tail(&mut current);
            assert(text::texts(current@) =~= layers::kept(all));
            assert(text::texts(tail@) =~= layers::tail(all));
            StackedMount { layers: current, goal: self, phase: StackedPhase::CreateDir { tail } }
        } else {
            let last = mount_overlay_core(
                current.as_slice(),
                text::copy_opt(&self.upper),
                text::copy_opt(&self.work),
                Place::Target(text::copy_text(self.dest.as_str())),
                self.source.as_str(),
            );
            StackedMount { layers: current, goal: self, phase: StackedPhase::Last(last) }
        }
    }

    fn at_staging(self, layers: Vec<String>, dir: String, mount: CoreMount) -> (stacked:
        StackedMount)
        ensures
            stacked@ == self@.with_staging(text::texts(layers@), dir@, mount@),
    {
        let phase = match mount.phase {
            CorePhase::Finished(Ok(_)) => StackedPhase::Report { dir },
            CorePhase::Finished(Err(e)) => StackedPhase::Failed(e),
            phase => StackedPhase::Staging { dir, mount: CoreMount { phase, ..mount } },
        };
        StackedMount { layers, goal: self, phase }
    }
}

impl StackedMount {
    /// What the overlay does next.
    pub fn next(&self) -> (next: Next)
        ensures
            next@ == self@.pending(),
    {
        match &self.phase {
            StackedPhase::CreateDir { .. } => Next::Ask(
                Request::CreateStagingDir {
                    root: text::copy_text(self.goal.staging_root.as_str()),
                },
            ),
            StackedPhase::Staging { mount, .. } => mount.next(),
            StackedPhase::Report { dir } => Next::Ask(
                Request::Report(MountEffect::Staging(text::copy_text(dir.as_str()))),
            ),
            StackedPhase::Last(mount) => mount.next(),
            StackedPhase::Failed(e) => Next::Finished(Err(e.copy())),
        }
    }

    /// Goes on with the host's reply.
    pub fn resume(self, reply: Reply) -> (mount: StackedMount)
        ensures
            mount@ == self@.resumed(reply@),
    {
        match (self.phase, reply) {
            (StackedPhase::CreateDir { tail }, Reply::Directory(Ok(dir))) => {
                let staging = mount_overlay_core(
                    tail.as_slice(),
                    None,
                    None,
                    Place::Staging(text::copy_text(dir.as_str())),
                    self.goal.source.as_str(),
                );
                self.goal.at_staging(self.layers, dir, staging)
            },
            (StackedPhase::CreateDir { .. }, Reply::Directory(Err(cause))) => StackedMount {
                phase: StackedPhase::Failed(MountError::Host(cause)),
                ..self
            },
            (StackedPhase::Staging { dir, mount }, reply) => self.goal.at_staging(
                self.layers,
                dir,
                mount.resume(reply),
            ),
            (StackedPhase::Report { dir }, Reply::Done) => {
                let mut current: Vec<String> = self.layers;
                let ghost before = text::texts(current@);
                let ghost d = dir@;
                current.push(dir);
                assert(text::texts(current@) =~= before.push(d));
                self.goal.stack(current)
            },
            (StackedPhase::Last(mount), reply) => StackedMount {
                phase: StackedPhase::Last(mount.resume(reply)),
                ..self
            },
            (phase, _) => StackedMount { phase, ..self },
        }
    }
}

} // verus!
