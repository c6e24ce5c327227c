//! A sub-mount of the root, rebuilt as an overlay where a module has something for it, and
//! bound back as it was where none has.

use vstd::prelude::*;

use crate::bind::{bind_mount, BindMount};
use crate::error;
use crate::error::MountError;
use crate::host::{MountEffect, Next, Reply, ReplyView, Request};
use crate::stacked::{mount_overlayfs, StackedGoal, StackedMount, StackedView};
use crate::runs::Machine;
use crate::text;

verus! {

/// What is to become of a sub-mount.
#[derive(Debug, PartialEq, Eq)]
pub struct ChildGoal<T = String, L = Vec<String>> {
    pub mount_point: T,
    /// The path of the mount point below the root.
    pub relative: T,
    /// The roots of the modules, from the highest priority to the lowest.
    pub module_roots: L,
    /// Where the contents of the sub-mount can still be reached.
    pub stock_root: T,
    /// Where staging directories are created.
    pub staging_root: T,
    pub source: T,
    /// Whether the mount is to be registered as one that may be unmounted.
    pub register: bool,
}

/// How far a sub-mount has come.
#[derive(Debug, PartialEq, Eq)]
#[allow(inconsistent_fields)]
pub enum ChildPhase<T = String, L = Vec<String>> {
    /// It asks whether a module has something for the sub-mount; `next` is the module after.
    AnyExists { dir: T, next: usize },
    /// It binds the contents back.
    Binding(BindMount<T>),
    /// It asks whether the sub-mount is a directory.
    StockIsDir,
    /// It asks whether a module has a directory for the sub-mount; `found` are those that have.
    LowerIsDir { dir: T, next: usize, found: L },
    /// It asks whether what is not a directory exists at all.
    LowerExists { dir: T, next: usize, found: L },
    /// It mounts the overlay.
    Overlay(StackedMount<T, L>),
    /// It registers the mount as one that may be unmounted.
    Unmountable,
    /// It reports the mount.
    Report,
    /// It is done.
    Finished(Result<(), MountError<T>>),
}

/// A sub-mount in progress.
#[derive(Debug, PartialEq, Eq)]
pub struct ChildMount<T = String, L = Vec<String>> {
    pub goal: ChildGoal<T, L>,
    pub phase: ChildPhase<T, L>,
}

/// The goal for a sub-mount as the contracts see it.
pub type ChildGoalView = ChildGoal<Seq<char>, Seq<Seq<char>>>;

/// The progress of a sub-mount as the contracts see it.
pub type ChildPhaseView = ChildPhase<Seq<char>, Seq<Seq<char>>>;

/// A sub-mount as the contracts see it.
pub type ChildView = ChildMount<Seq<char>, Seq<Seq<char>>>;

impl View for ChildGoal {
    type V = ChildGoalView;

    open spec fn view(&self) -> ChildGoalView {
        ChildGoal {
            mount_point: self.mount_point@,
            relative: self.relative@,
            module_roots: text::texts(self.module_roots@),
            stock_root: self.stock_root@,
            staging_root: self.staging_root@,
            source: self.source@,
            register: self.register,
        }
    }
}

impl View for ChildPhase {
    type V = ChildPhaseView;

    open spec fn view(&self) -> ChildPhaseView {
        match *self {
            ChildPhase::AnyExists { dir, next } => ChildPhase::AnyExists { dir: dir@, next },
            ChildPhase::Binding(mount) => ChildPhase::Binding(mount@),
            ChildPhase::StockIsDir => ChildPhase::StockIsDir,
            ChildPhase::LowerIsDir { dir, next, found } => ChildPhase::LowerIsDir {
                dir: dir@,
                next,
                found: text::texts(found@),
            },
            ChildPhase::LowerExists { dir, next, found } => ChildPhase::LowerExists {
                dir: dir@,
                next,
                found: text::texts(found@),
            },
            ChildPhase::Overlay(mount) => ChildPhase::Overlay(mount@),
            ChildPhase::Unmountable => ChildPhase::Unmountable,
            ChildPhase::Report => ChildPhase::Report,
            ChildPhase::Finished(r) => ChildPhase::Finished(error::result_view(r)),
        }
    }
}

impl View for ChildMount {
    type V = ChildView;

    open spec fn view(&self) -> ChildView {
        ChildMount { goal: self.goal@, phase: self.phase@ }
    }
}

impl ChildGoal<Seq<char>, Seq<Seq<char>>> {
    /// Where a module keeps what it has for the sub-mount.
    pub open spec fn lower_dir(self, index: int) -> Seq<char> {
        self.module_roots[index] + self.relative
    }

    /// What the overlay of the sub-mount is to end in: it has lower directories alone.
    pub open spec fn overlay_goal(self) -> StackedGoal<Seq<char>> {
        StackedGoal {
            upper: None,
            work: None,
            dest: self.mount_point,
            staging_root: self.staging_root,
            source: self.source,
        }
    }

    /// On to the module at `index` in the search for one that has something for the sub-mount;
    /// after the last, the contents are bound back.
    pub open spec fn search(self, index: int) -> ChildPhaseView {
        if index < self.module_roots.len() {
            ChildPhase::AnyExists { dir: self.lower_dir(index), next: (index + 1) as usize }
        } else {
            ChildPhase::Binding(BindMount::started(self.stock_root, self.mount_point))
        }
    }

    /// Once the sub-mount is mounted.
    pub open spec fn mounted(self) -> ChildPhaseView {
        if self.register {
            ChildPhase::Unmountable
        } else {
            ChildPhase::Report
        }
    }

    /// Goes on with the bind mount, which may be over.
    pub open spec fn with_bind(self, mount: BindMount<Seq<char>>) -> ChildPhaseView {
        match mount.pending() {
            Next::Ask(_) => ChildPhase::Binding(mount),
            Next::Finished(Ok(_)) => self.mounted(),
            Next::Finished(Err(e)) => ChildPhase::Finished(Err(e)),
        }
    }

    /// Goes on with the overlay, which may be over.
    pub open spec fn with_overlay(self, mount: StackedView) -> ChildPhaseView {
        match mount.pending() {
            Next::Ask(_) => ChildPhase::Overlay(mount),
            Next::Finished(Ok(_)) => self.mounted(),
            Next::Finished(Err(e)) => ChildPhase::Finished(
                Err(MountError::ChildOverlay { mount_point: self.mount_point, cause: e.text() }),
            ),
        }
    }

    /// On to the module at `index` in the collection of lower directories; after the last, they
    /// are stacked over the contents of the sub-mount, if there are any.
    pub open spec fn collect(self, index: int, found: Seq<Seq<char>>) -> ChildPhaseView {
        if index < self.module_roots.len() {
            ChildPhase::LowerIsDir {
                dir: self.lower_dir(index),
                next: (index + 1) as usize,
                found,
            }
        } else if found.len() == 0 {
            ChildPhase::Finished(Ok(()))
        } else {
            self.with_overlay(
                StackedMount::started(found, self.stock_root, self.overlay_goal()),
            )
        }
    }
}

impl ChildMount<Seq<char>, Seq<Seq<char>>> {
    /// A sub-mount that is about to begin.
    pub open spec fn started(goal: ChildGoalView) -> Self {
        ChildMount { goal, phase: goal.search(0) }
    }
}

impl Machine for ChildMount<Seq<char>, Seq<Seq<char>>> {
    /// What the sub-mount does next.
    open spec fn pending(self) -> Next<Seq<char>> {
        match self.phase {
            ChildPhase::AnyExists { dir, .. } => Next::Ask(Request::Exists(dir)),
            ChildPhase::Binding(mount) => mount.pending(),
            ChildPhase::StockIsDir => Next::Ask(Request::IsDir(self.goal.stock_root)),
            ChildPhase::LowerIsDir { dir, .. } => Next::Ask(Request::IsDir(dir)),
            ChildPhase::LowerExists { dir, .. } => Next::Ask(Request::Exists(dir)),
            ChildPhase::Overlay(mount) => mount.pending(),
            ChildPhase::Unmountable => Next::Ask(
                Request::SendUnmountable(self.goal.mount_point),
            ),
            ChildPhase::Report => Next::Ask(
                Request::Report(MountEffect::Target(self.goal.mount_point)),
            ),
            ChildPhase::Finished(r) => Next::Finished(r),
        }
    }

    /// The sub-mount after the host's reply. A reply of another kind than the request asks for
    /// changes nothing.
    open spec fn resumed(self, reply: ReplyView) -> Self {
        let goal = self.goal;
        let phase = match (self.phase, reply) {
            (ChildPhase::AnyExists { next, .. }, Reply::Flag(exists)) => if exists {
                ChildPhase::StockIsDir
            } else {
                goal.search(next as int)
            },
            (ChildPhase::Binding(mount), _) => goal.with_bind(mount.resumed(reply)),
            (ChildPhase::StockIsDir, Reply::Flag(is_dir)) => if is_dir {
                goal.collect(0, seq![])
            } else {
                ChildPhase::Finished(Ok(()))
            },
            (ChildPhase::LowerIsDir { dir, next, found }, Reply::Flag(is_dir)) => if is_dir {
                goal.collect(next as int, found.push(dir))
            } else {
                ChildPhase::LowerExists { dir, next, found }
            },
            (ChildPhase::LowerExists { next, found, .. }, Reply::Flag(exists)) => if exists {
                ChildPhase::Finished(Ok(()))
            } else {
                goal.collect(next as int, found)
            },
            (ChildPhase::Overlay(mount), _) => goal.with_overlay(mount.resumed(reply)),
            (ChildPhase::Unmountable, Reply::Done) => ChildPhase::Report,
            (ChildPhase::Report, Reply::Done) => ChildPhase::Finished(Ok(())),
            (phase, _) => phase,
        };
        ChildMount { goal, phase }
    }
}

/// Begins to rebuild the sub-mount at `mount_point`, which is `relative` below the root.
pub fn mount_overlay_child(
    mount_point: &str,
    relative: &str,
    module_roots: &[String],
    stock_root: &str,
    staging_root: &str,
    mount_source: &str,
    register_unmountable: bool,
) -> (mount: ChildMount)
    ensures
        mount@ == ChildMount::started(
            ChildGoal {
                mount_point: mount_point@,
                relative: relative@,
                module_roots: text::texts(module_roots@),
                stock_root: stock_root@,
                staging_root: staging_root@,
                source: mount_source@,
                register: register_unmountable,
            },
        ),
{
    let goal = ChildGoal {
        mount_point: text::copy_text(mount_point),
        relative: text::copy_text(relative),
        module_roots: text::copy_list(module_roots),
        stock_root: text::copy_text(stock_root),
        staging_root: text::copy_text(staging_root),
        source: text::copy_text(mount_source),
        register: register_unmountable,
    };
    let phase = goal.go_search(0);
    ChildMount { goal, phase }
}

impl ChildGoal {
    fn go_search(&self, index: usize) -> (phase: ChildPhase)
        ensures
            phase@ == self@.search(index as int),
    {
        if index < self.module_roots.len() {
            assert(self@.module_roots[index as int] == self.module_roots@[index as int]@);
            ChildPhase::AnyExists {
                dir: text::concat(self.module_roots[index].as_str(), self.relative.as_str()),
                next: index + 1,
            }
        } else {
            ChildPhase::Binding(bind_mount(self.stock_root.as_str(), self.mount_point.as_str()))
        }
    }

    fn go_mounted(&self) -> (phase: ChildPhase)
        ensures
            phase@ == self@.mounted(),
    {
        if self.register {
            ChildPhase::Unmountable
        } else {
            ChildPhase::Report
        }
    }

    fn go_bind(&self, mount: BindMount) -> (phase: ChildPhase)
        ensures
            phase@ == self@.with_bind(mount@),
    {
        match mount.next() {
            Next::Ask(_) => ChildPhase::Binding(mount),
            Next::Finished(Ok(_)) => self.go_mounted(),
            Next::Finished(Err(e)) => ChildPhase::Finished(Err(e)),
        }
    }

    fn go_overlay(&self, mount: StackedMount) -> (phase: ChildPhase)
        ensures
            phase@ == self@.with_overlay(mount@),
    {
        match mount.next() {
            Next::Ask(_) => ChildPhase::Overlay(mount),
            Next::Finished(Ok(_)) => self.go_mounted(),
            Next::Finished(Err(e)) => ChildPhase::Finished(
                Err(
                    MountError::ChildOverlay {
                        mount_point: text::copy_text(self.mount_point.as_str()),
                        cause: e.message(),
                    },
                ),
            ),
        }
    }

    fn go_collect(&self, index: usize, found: Vec<String>) -> (phase: ChildPhase)
        ensures
            phase@ == self@.collect(index as int, text::texts(found@)),
    {
        if index < self.module_roots.len() {
            assert(self@.module_roots[index as int] == self.module_roots@[index as int]@);
            ChildPhase::LowerIsDir {
                dir: text::concat(self.module_roots[index].as_str(), self.relative.as_str()),
                next: index + 1,
                found,
            }
        } else if found.len() == 0 {
            ChildPhase::Finished(Ok(()))
        } else {
            self.go_overlay(
                mount_overlayfs(
                    found.as_slice(),
                    self.stock_root.as_str(),
                    None,
                    None,
                    self.mount_point.as_str(),
                    self.staging_root.as_str(),
                    self.source.as_str(),
                ),
            )
        }
    }
}

impl ChildMount {
    /// What the sub-mount does next.
    pub fn next(&self) -> (next: Next)
        ensures
            next@ == self@.pending(),
    {
        match &self.phase {
            ChildPhase::AnyExists { dir, .. } => Next::Ask(
                Request::Exists(text::copy_text(dir.as_str())),
            ),
            ChildPhase::Binding(mount) => mount.next(),
            ChildPhase::StockIsDir => Next::Ask(
                Request::IsDir(text::copy_text(self.goal.stock_root.as_str())),
            ),
            ChildPhase::LowerIsDir { dir, .. } => Next::Ask(
                Request::IsDir(text::copy_text(dir.as_str())),
            ),
            ChildPhase::LowerExists { dir, .. } => Next::Ask(
                Request::Exists(text::copy_text(dir.as_str())),
            ),
            ChildPhase::Overlay(mount) => mount.next(),
            ChildPhase::Unmountable => Next::Ask(
                Request::SendUnmountable(text::copy_text(self.goal.mount_point.as_str())),
            ),
            ChildPhase::Report => Next::Ask(
                Request::Report(
                    MountEffect::Target(text::copy_text(self.goal.mount_point.as_str())),
                ),
            ),
            ChildPhase::Finished(r) => Next::Finished(error::copy_result(r)),
        }
    }

    /// Goes on with the host's reply.
    pub fn resume(self, reply: Reply) -> (mount: ChildMount)
        ensures
            mount@ == self@.resumed(reply@),
    {
        let goal = self.goal;
        let phase: ChildPhase = match (self.phase, reply) {
            (ChildPhase::AnyExists { next, .. }, Reply::Flag(exists)) => {
                if exists {
                    ChildPhase::StockIsDir
                } else {
                    goal.go_search(next)
                }
            },
            (ChildPhase::Binding(mount), reply) => goal.go_bind(mount.resume(reply)),
            (ChildPhase::StockIsDir, Reply::Flag(is_dir)) => {
                if is_dir {
                    let found: Vec<String> = Vec::new();
                    assert(text::texts(found@) =~= seq![]);
                    goal.go_collect(0, found)
                } else {
                    ChildPhase::Finished(Ok(()))
                }
            },
            (ChildPhase::LowerIsDir { dir, next, found }, Reply::Flag(is_dir)) => {
                if is_dir {
                    let mut more: Vec<String> = found;
                    let ghost before = text::texts(more@);
                    let ghost d = dir@;
                    more.push(dir);
                    assert(text::texts(more@) =~= before.push(d));
                    goal.go_collect(next, more)
                } else {
                    ChildPhase::LowerExists { dir, next, found }
                }
            },
            (ChildPhase::LowerExists { next, found, .. }, Reply::Flag(exists)) => {
                if exists {
                    ChildPhase::Finished(Ok(()))
                } else {
                    goal.go_collect(next, found)
                }
            },
            (ChildPhase::Overlay(mount), reply) => goal.go_overlay(mount.resume(reply)),
            (ChildPhase::Unmountable, Reply::Done) => ChildPhase::Report,
            (ChildPhase::Report, Reply::Done) => ChildPhase::Finished(Ok(())),
            (phase, _) => phase,
        };
        ChildMount { goal, phase }
    }
}

} // verus!
