//! The overlay of a root and, after it, of the sub-mounts that the root had.

use vstd::prelude::*;

use crate::child::{mount_overlay_child, ChildGoal, ChildMount, ChildView};
use crate::error;
use crate::error::MountError;
use crate::host::{MountEffect, Next, Reply, ReplyView, Request};
use crate::paths;
use crate::paths::{child_relative_path, collect_child_mount_points};
use crate::stacked::{mount_overlayfs, StackedGoal, StackedMount, StackedView};
use crate::runs::Machine;
use crate::text;

verus! {

/// What is to become of a root.
#[derive(Debug, PartialEq, Eq)]
pub struct OverlayGoal<T = String, L = Vec<String>> {
    pub root: T,
    /// The roots of the modules, from the highest priority to the lowest.
    pub module_roots: L,
    pub work: Option<T>,
    pub upper: Option<T>,
    /// Where staging directories are created.
    pub staging_root: T,
    pub source: T,
    /// Whether sub-mounts are to be registered as ones that may be unmounted.
    pub register: bool,
}

/// How far the overlay of a root has come.
#[derive(Debug, PartialEq, Eq)]
#[allow(inconsistent_fields)]
pub enum OverlayPhase<T = String, L = Vec<String>> {
    /// It asks for the current directory to be kept.
    ReadCurrentDir,
    /// It asks for the root to be made the current directory.
    ChangeDir,
    /// It asks for the mount points.
    ReadMounts,
    /// It mounts the root; `children` are the sub-mounts that the root had before.
    Root { children: L, mount: StackedMount<T, L> },
    /// It reports the root.
    ReportRoot { children: L },
    /// It asks whether a sub-mount can still be reached; `next` is the sub-mount after.
    StockExists { children: L, next: usize, mount_point: T, relative: T },
    /// It rebuilds a sub-mount.
    Child { children: L, next: usize, mount: ChildMount<T, L> },
    /// It asks for the previous current directory; what it holds is the result to come.
    Restore(Result<(), MountError<T>>),
    /// It is done.
    Finished(Result<(), MountError<T>>),
}

/// The overlay of a root in progress.
#[derive(Debug, PartialEq, Eq)]
pub struct OverlayMount<T = String, L = Vec<String>> {
    pub goal: OverlayGoal<T, L>,
    pub phase: OverlayPhase<T, L>,
}

/// The goal for a root as the contracts see it.
pub type OverlayGoalView = OverlayGoal<Seq<char>, Seq<Seq<char>>>;

/// The progress of a root as the contracts see it.
pub type OverlayPhaseView = OverlayPhase<Seq<char>, Seq<Seq<char>>>;

/// The overlay of a root as the contracts see it.
pub type OverlayView = OverlayMount<Seq<char>, Seq<Seq<char>>>;

impl View for OverlayGoal {
    type V = OverlayGoalView;

    open spec fn view(&self) -> OverlayGoalView {
        OverlayGoal {
            root: self.root@,
            module_roots: text::texts(self.module_roots@),
            work: text::opt_text(self.work),
            upper: text::opt_text(self.upper),
            staging_root: self.staging_root@,
            source: self.source@,
            register: self.register,
        }
    }
}

impl View for OverlayPhase {
    type V = OverlayPhaseView;

    open spec fn view(&self) -> OverlayPhaseView {
        match *self {
            OverlayPhase::ReadCurrentDir => OverlayPhase::ReadCurrentDir,
            OverlayPhase::ChangeDir => OverlayPhase::ChangeDir,
            OverlayPhase::ReadMounts => OverlayPhase::ReadMounts,
            OverlayPhase::Root { children, mount } => OverlayPhase::Root {
                children: text::texts(children@),
                mount: mount@,
            },
            OverlayPhase::ReportRoot { children } => OverlayPhase::ReportRoot {
                children: text::texts(children@),
            },
            OverlayPhase::StockExists { children, next, mount_point, relative } =>
            OverlayPhase::StockExists {
                children: text::texts(children@),
                next,
                mount_point: mount_point@,
                relative: relative@,
            },
            OverlayPhase::Child { children, next, mount } => OverlayPhase::Child {
                children: text::texts(children@),
                next,
                mount: mount@,
            },
            OverlayPhase::Restore(r) => OverlayPhase::Restore(error::result_view(r)),
            OverlayPhase::Finished(r) => OverlayPhase::Finished(error::result_view(r)),
        }
    }
}

impl View for OverlayMount {
    type V = OverlayView;

    open spec fn view(&self) -> OverlayView {
        OverlayMount { goal: self.goal@, phase: self.phase@ }
    }
}

/// Where the contents of a sub-mount can still be reached from the current directory.
pub open spec fn stock_root(relative: Seq<char>) -> Seq<char> {
    "."@ + relative
}

impl OverlayGoal<Seq<char>, Seq<Seq<char>>> {
    /// What the overlay of the root itself is to end in.
    pub open spec fn root_goal(self) -> StackedGoal<Seq<char>> {
        StackedGoal {
            upper: self.upper,
            work: self.work,
            dest: self.root,
            staging_root: self.staging_root,
            source: self.source,
        }
    }

    /// Goes on with the overlay of the root itself, which may be over.
    pub open spec fn with_root(
        self,
        children: Seq<Seq<char>>,
        mount: StackedView,
    ) -> OverlayPhaseView {
        match mount.pending() {
            Next::Ask(_) => OverlayPhase::Root { children, mount },
            Next::Finished(Ok(_)) => OverlayPhase::ReportRoot { children },
            Next::Finished(Err(e)) => OverlayPhase::Restore(
                Err(MountError::RootOverlay(e.text())),
            ),
        }
    }

    /// On to the first sub-mount from `index` on that has a relative path.
    pub open spec fn next_child(self, children: Seq<Seq<char>>, index: int) -> OverlayPhaseView
        decreases children.len() - index,
    {
        if index >= children.len() {
            OverlayPhase::Restore(Ok(()))
        } else {
            match paths::relative_path(self.root, children[index]) {
                Some(relative) => OverlayPhase::StockExists {
                    children,
                    next: (index + 1) as usize,
                    mount_point: children[index],
                    relative,
                },
                None => self.next_child(children, index + 1),
            }
        }
    }

    /// Goes on with a sub-mount, which may be over.
    pub open spec fn with_child(
        self,
        children: Seq<Seq<char>>,
        next: usize,
        mount: ChildView,
    ) -> OverlayPhaseView {
        match mount.pending() {
            Next::Ask(_) => OverlayPhase::Child { children, next, mount },
            Next::Finished(Ok(_)) => self.next_child(children, next as int),
            Next::Finished(Err(e)) => OverlayPhase::Restore(Err(e)),
        }
    }

    /// The goal for the sub-mount at `mount_point`.
    pub open spec fn child_goal(
        self,
        mount_point: Seq<char>,
        relative: Seq<char>,
    ) -> ChildGoal<Seq<char>, Seq<Seq<char>>> {
        ChildGoal {
            mount_point,
            relative,
            module_roots: self.module_roots,
            stock_root: stock_root(relative),
            staging_root: self.staging_root,
            source: self.source,
            register: self.register,
        }
    }
}

impl OverlayMount<Seq<char>, Seq<Seq<char>>> {
    /// The overlay of a root that is about to begin.
    pub open spec fn started(goal: OverlayGoalView) -> Self {
        OverlayMount { goal, phase: OverlayPhase::ReadCurrentDir }
    }
}

impl Machine for OverlayMount<Seq<char>, Seq<Seq<char>>> {
    /// What the overlay does next.
    open spec fn pending(self) -> Next<Seq<char>> {
        match self.phase {
            OverlayPhase::ReadCurrentDir => Next::Ask(Request::ReadCurrentDir),
            OverlayPhase::ChangeDir => Next::Ask(Request::ChangeDir(self.goal.root)),
            OverlayPhase::ReadMounts => Next::Ask(Request::ReadMounts),
            OverlayPhase::Root { mount, .. } => mount.pending(),
            OverlayPhase::ReportRoot { .. } => Next::Ask(
                Request::Report(MountEffect::Target(self.goal.root)),
            ),
            OverlayPhase::StockExists { relative, .. } => Next::Ask(
                Request::Exists(stock_root(relative)),
            ),
            OverlayPhase::Child { mount, .. } => mount.pending(),
            OverlayPhase::Restore(_) => Next::Ask(Request::RestoreDir),
            OverlayPhase::Finished(r) => Next::Finished(r),
        }
    }

    /// The overlay after the host's reply. A reply of another kind than the request asks for
    /// changes nothing.
    open spec fn resumed(self, reply: ReplyView) -> Self {
        let goal = self.goal;
        let phase = match (self.phase, reply) {
            (OverlayPhase::ReadCurrentDir, Reply::Outcome(Ok(_))) => OverlayPhase::ChangeDir,
            (OverlayPhase::ReadCurrentDir, Reply::Outcome(Err(cause))) => OverlayPhase::Finished(
                Err(MountError::ReadCurrentDir(cause)),
            ),
            (OverlayPhase::ChangeDir, Reply::Outcome(Ok(_))) => OverlayPhase::ReadMounts,
            (OverlayPhase::ChangeDir, Reply::Outcome(Err(cause))) => OverlayPhase::Finished(
                Err(MountError::ChangeDir { path: goal.root, cause }),
            ),
            (OverlayPhase::ReadMounts, Reply::Mounts(Ok(mounts))) => goal.with_root(
                paths::child_listing(goal.root, mounts),
                StackedMount::started(goal.module_roots, goal.root, goal.root_goal()),
            ),
            (OverlayPhase::ReadMounts, Reply::Mounts(Err(cause))) => OverlayPhase::Restore(
                Err(MountError::Host(cause)),
            ),
            (OverlayPhase::Root { children, mount }, _) => goal.with_root(
                children,
                mount.resumed(reply),
            ),
            (OverlayPhase::ReportRoot { children }, Reply::Done) => goal.next_child(children, 0),
            (
                OverlayPhase::StockExists { children, next, mount_point, relative },
                Reply::Flag(exists),
            ) => if exists {
                goal.with_child(
                    children,
                    next,
                    ChildMount::started(goal.child_goal(mount_point, relative)),
                )
            } else {
                goal.next_child(children, next as int)
            },
            (OverlayPhase::Child { children, next, mount }, _) => goal.with_child(
                children,
                next,
                mount.resumed(reply),
            ),
            (OverlayPhase::Restore(r), Reply::Done) => OverlayPhase::Finished(r),
            (phase, _) => phase,
        };
        OverlayMount { goal, phase }
    }
}

/// Begins to mount the root overlay and to rebuild its sub-mounts.
pub fn mount_overlay(
    root: &str,
    module_roots: &[String],
    workdir: Option<String>,
    upperdir: Option<String>,
    staging_root: &str,
    mount_source: &str,
    register_unmountable: bool,
) -> (mount: OverlayMount)
    ensures
        mount@ == OverlayMount::started(
            OverlayGoal {
                root: root@,
                module_roots: text::texts(module_roots@),
                work: text::opt_text(workdir),
                upper: text::opt_text(upperdir),
                staging_root: staging_root@,
                source: mount_source@,
                register: register_unmountable,
            },
        ),
{
    OverlayMount {
        goal: OverlayGoal {
            root: text::copy_text(root),
            module_roots: text::copy_list(module_roots),
            work: workdir,
            upper: upperdir,
            staging_root: text::copy_text(staging_root),
            source: text::copy_text(mount_source),
            register: register_unmountable,
        },
        phase: OverlayPhase::ReadCurrentDir,
    }
}

impl OverlayGoal {
    fn go_root(&self, children: Vec<String>, mount: StackedMount) -> (phase: OverlayPhase)
        ensures
            phase@ == self@.with_root(text::texts(children@), mount@),
    {
        match mount.next() {
            Next::Ask(_) => OverlayPhase::Root { children, mount },
            Next::Finished(Ok(_)) => OverlayPhase::ReportRoot { children },
            Next::Finished(Err(e)) => OverlayPhase::Restore(
                Err(MountError::RootOverlay(e.message())),
            ),
        }
    }

    fn go_next_child(&self, children: Vec<String>, index: usize) -> (phase: OverlayPhase)
        ensures
            phase@ == self@.next_child(text::texts(children@), index as int),
    {
        let ghost list = text::texts(children@);
        let mut at: usize = index;
        while at < children.len()
            invariant
                list == text::texts(children@),
                self@.next_child(list, at as int) == self@.next_child(list, index as int),
            decreases children@.len() - at,
        {
            assert(list[at as int] == children@[at as int]@);
            match child_relative_path(self.root.as_str(), children[at].as_str()) {
                Some(relative) => {
                    let mount_point: String = text::copy_text(children[at].as_str());
                    return OverlayPhase::StockExists {
                        children,
                        next: at + 1,
                        mount_point,
                        relative,
                    };
                },
                None => {},
            }
            at = at + 1;
        }
        OverlayPhase::Restore(Ok(()))
    }

    fn go_child(&self, children: Vec<String>, next: usize, mount: ChildMount) -> (phase:
        OverlayPhase)
        ensures
            phase@ == self@.with_child(text::texts(children@), next, mount@),
    {
        match mount.next() {
            Next::Ask(_) => OverlayPhase::Child { children, next, mount },
            Next::Finished(Ok(_)) => self.go_next_child(children, next),
            Next::Finished(Err(e)) => OverlayPhase::Restore(Err(e)),
        }
    }
}

impl OverlayMount {
    /// What the overlay does next.
    pub fn next(&self) -> (next: Next)
        ensures
            next@ == self@.pending(),
    {
        match &self.phase {
            OverlayPhase::ReadCurrentDir => Next::Ask(Request::ReadCurrentDir),
            OverlayPhase::ChangeDir => Next::Ask(
                Request::ChangeDir(text::copy_text(self.goal.root.as_str())),
            ),
            OverlayPhase::ReadMounts => Next::Ask(Request::ReadMounts),
            OverlayPhase::Root { mount, .. } => mount.next(),
            OverlayPhase::ReportRoot { .. } => Next::Ask(
                Request::Report(MountEffect::Target(text::copy_text(self.goal.root.as_str()))),
            ),
            OverlayPhase::StockExists { relative, .. } => Next::Ask(
                Request::Exists(text::concat(".", relative.as_str())),
            ),
            OverlayPhase::Child { mount, .. } => mount.next(),
            OverlayPhase::Restore(_) => Next::Ask(Request::RestoreDir),
            OverlayPhase::Finished(r) => Next::Finished(error::copy_result(r)),
        }
    }

    /// Goes on with the host's reply.
    pub fn resume(self, reply: Reply) -> (mount: OverlayMount)
        ensures
            mount@ == self@.resumed(reply@),
    {
        let goal = self.goal;
        let phase: OverlayPhase = match (self.phase, reply) {
            (OverlayPhase::ReadCurrentDir, Reply::Outcome(Ok(_))) => OverlayPhase::ChangeDir,
            (OverlayPhase::ReadCurrentDir, Reply::Outcome(Err(cause))) => OverlayPhase::Finished(
                Err(MountError::ReadCurrentDir(cause)),
            ),
            (OverlayPhase::ChangeDir, Reply::Outcome(Ok(_))) => OverlayPhase::ReadMounts,
            (OverlayPhase::ChangeDir, Reply::Outcome(Err(cause))) => OverlayPhase::Finished(
                Err(MountError::ChangeDir { path: text::copy_text(goal.root.as_str()), cause }),
            ),
            (OverlayPhase::ReadMounts, Reply::Mounts(Ok(mounts))) => {
                let children: Vec<String> = collect_child_mount_points(
                    goal.root.as_str(),
                    &mounts,
                );
                proof {
                    paths::child_listing_is_unique(
                        goal.root@,
                        paths::byte_lists(mounts@),
                        text::texts(children@),
                    );
                }
                let mount = mount_overlayfs(
                    goal.module_roots.as_slice(),
                    goal.root.as_str(),
                    text::copy_opt(&goal.upper),
                    text::copy_opt(&goal.work),
                    goal.root.as_str(),
                    goal.staging_root.as_str(),
                    goal.source.as_str(),
                );
                goal.go_root(children, mount)
            },
            (OverlayPhase::ReadMounts, Reply::Mounts(Err(cause))) => OverlayPhase::Restore(
                Err(MountError::Host(cause)),
            ),
            (OverlayPhase::Root { children, mount }, reply) => goal.go_root(
                children,
                mount.resume(reply),
            ),
            (OverlayPhase::ReportRoot { children }, Reply::Done) => goal.go_next_child(
                children,
                0,
            ),
            (
                OverlayPhase::StockExists { children, next, mount_point, relative },
                Reply::Flag(exists),
            ) => {
                if exists {
                    let stock: String = text::concat(".", relative.as_str());
                    let mount = mount_overlay_child(
                        mount_point.as_str(),
                        relative.as_str(),
                        goal.module_roots.as_slice(),
                        stock.as_str(),
                        goal.staging_root.as_str(),
                        goal.source.as_str(),
                        goal.register,
                    );
                    goal.go_child(children, next, mount)
                } else {
                    goal.go_next_child(children, next)
                }
            },
            (OverlayPhase::Child { children, next, mount }, reply) => goal.go_child(
                children,
                next,
                mount.resume(reply),
            ),
            (OverlayPhase::Restore(r), Reply::Done) => OverlayPhase::Finished(r),
            (phase, _) => phase,
        };
        OverlayMount { goal, phase }
    }
}

} // verus!
