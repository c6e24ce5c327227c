//! One overlay mount: `fsopen("overlay")` is the primary path, with an escaped traditional
//! `mount(2)` as the fallback.

use vstd::prelude::*;

use crate::error;
use crate::error::MountError;
use crate::host::{MountFlags, Next, Place, Reply, ReplyView, Request};
use crate::runs::Machine;
use crate::text;

verus! {

/// What a single overlay mount is to mount.
#[derive(Debug, PartialEq, Eq)]
pub struct CorePlan<T = String> {
    /// The layers, joined as they are.
    pub lowerdir: T,
    /// The layers, escaped and joined.
    pub safe_lower: T,
    /// The upper directory, once it was found to exist.
    pub upper: Option<T>,
    /// The work directory, once it was found to exist.
    pub work: Option<T>,
    /// Whether the traditional mount is the only path.
    pub legacy_only: bool,
    pub source: T,
    pub dest: Place<T>,
}

/// How far a single overlay mount has come.
#[derive(Debug, PartialEq, Eq)]
pub enum CorePhase<T = String> {
    /// It asks whether the upper directory exists; the work directory comes next.
    Upper { upper: T, work: Option<T> },
    /// It asks whether the work directory exists.
    Work(T),
    /// It asks for the mount through `fsopen`.
    Fsopen,
    /// It asks for the traditional mount.
    Legacy,
    /// It is done.
    Finished(Result<(), MountError<T>>),
}

/// A single overlay mount in progress.
#[derive(Debug, PartialEq, Eq)]
pub struct CoreMount<T = String> {
    pub plan: CorePlan<T>,
    pub phase: CorePhase<T>,
}

impl View for CorePlan {
    type V = CorePlan<Seq<char>>;

    open spec fn view(&self) -> CorePlan<Seq<char>> {
        CorePlan {
            lowerdir: self.lowerdir@,
            safe_lower: self.safe_lower@,
            upper: text::opt_text(self.upper),
            work: text::opt_text(self.work),
            legacy_only: self.legacy_only,
            source: self.source@,
            dest: self.dest@,
        }
    }
}

impl View for CorePhase {
    type V = CorePhase<Seq<char>>;

    open spec fn view(&self) -> CorePhase<Seq<char>> {
        match *self {
            CorePhase::Upper { upper, work } => CorePhase::Upper {
                upper: upper@,
                work: text::opt_text(work),
            },
            CorePhase::Work(work) => CorePhase::Work(work@),
            CorePhase::Fsopen => CorePhase::Fsopen,
            CorePhase::Legacy => CorePhase::Legacy,
            CorePhase::Finished(r) => CorePhase::Finished(error::result_view(r)),
        }
    }
}

impl View for CoreMount {
    type V = CoreMount<Seq<char>>;

    open spec fn view(&self) -> CoreMount<Seq<char>> {
        CoreMount { plan: self.plan@, phase: self.phase@ }
    }
}

/// Whether a mount has to keep its source tag, which only the traditional mount does: it is a KSU
/// mount of lower directories alone.
pub open spec fn prefers_legacy<T>(
    source: Seq<char>,
    upper: Option<T>,
    work: Option<T>,
) -> bool {
    source == "KSU"@ && upper is None && work is None
}

impl CorePlan<Seq<char>> {
    /// The plan for a mount of `layers`, before it is known which directories exist.
    pub open spec fn of(
        layers: Seq<Seq<char>>,
        legacy_only: bool,
        dest: Place<Seq<char>>,
        source: Seq<char>,
    ) -> Self {
        CorePlan {
            lowerdir: text::joined(layers, ':'),
            safe_lower: text::joined(text::escaped_all(layers), ':'),
            upper: None,
            work: None,
            legacy_only,
            source,
            dest,
        }
    }

    /// The data of the traditional mount. Upper and work directory are in it only together.
    pub open spec fn legacy_data(self) -> Seq<char> {
        let lower = "lowerdir="@ + self.safe_lower;
        match (self.upper, self.work) {
            (Some(u), Some(w)) => lower + ",upperdir="@ + text::escaped(u) + ",workdir="@
                + text::escaped(w),
            _ => lower,
        }
    }

    /// On to the traditional mount, unless its data cannot be passed on.
    pub open spec fn to_legacy(self) -> CoreMount<Seq<char>> {
        CoreMount {
            plan: self,
            phase: if self.legacy_data().contains('\0') {
                CorePhase::Finished(Err(MountError::NulInData))
            } else {
                CorePhase::Legacy
            },
        }
    }

    /// On to the first mount call.
    pub open spec fn to_mount(self) -> CoreMount<Seq<char>> {
        if self.legacy_only {
            self.to_legacy()
        } else {
            CoreMount { plan: self, phase: CorePhase::Fsopen }
        }
    }

    /// On to the work directory, where there is one.
    pub open spec fn to_work(self, work: Option<Seq<char>>) -> CoreMount<Seq<char>> {
        match work {
            Some(dir) => CoreMount { plan: self, phase: CorePhase::Work(dir) },
            None => self.to_mount(),
        }
    }
}

impl CoreMount<Seq<char>> {
    /// A mount of `layers` that is about to begin.
    pub open spec fn started(
        layers: Seq<Seq<char>>,
        upper: Option<Seq<char>>,
        work: Option<Seq<char>>,
        dest: Place<Seq<char>>,
        source: Seq<char>,
    ) -> Self {
        let plan = CorePlan::of(layers, prefers_legacy(source, upper, work), dest, source);
        match upper {
            Some(dir) => CoreMount { plan, phase: CorePhase::Upper { upper: dir, work } },
            None => plan.to_work(work),
        }
    }
}

impl Machine for CoreMount<Seq<char>> {
    /// What the mount does next.
    open spec fn pending(self) -> Next<Seq<char>> {
        match self.phase {
            CorePhase::Upper { upper, .. } => Next::Ask(Request::UpperExists(upper)),
            CorePhase::Work(work) => Next::Ask(Request::WorkExists(work)),
            CorePhase::Fsopen => Next::Ask(
                Request::Fsopen {
                    upper: self.plan.upper,
                    work: self.plan.work,
                    lowerdir: self.plan.lowerdir,
                    source: self.plan.source,
                    dest: self.plan.dest,
                },
            ),
            CorePhase::Legacy => Next::Ask(
                Request::Mount {
                    source: self.plan.source,
                    target: self.plan.dest,
                    fstype: "overlay"@,
                    flags: MountFlags { bind: false, recursive: false },
                    data: Some(self.plan.legacy_data()),
                },
            ),
            CorePhase::Finished(r) => Next::Finished(r),
        }
    }

    /// The mount after the host's reply. A reply of another kind than the request asks for
    /// changes nothing.
    open spec fn resumed(self, reply: ReplyView) -> Self {
        match (self.phase, reply) {
            (CorePhase::Upper { upper, work }, Reply::Flag(exists)) => CorePlan {
                upper: if exists {
                    Some(upper)
                } else {
                    None
                },
                ..self.plan
            }.to_work(work),
            (CorePhase::Work(work), Reply::Flag(exists)) => CorePlan {
                work: if exists {
                    Some(work)
                } else {
                    None
                },
                ..self.plan
            }.to_mount(),
            (CorePhase::Fsopen, Reply::Outcome(Ok(_))) => CoreMount {
                phase: CorePhase::Finished(Ok(())),
                ..self
            },
            (CorePhase::Fsopen, Reply::Outcome(Err(_))) => self.plan.to_legacy(),
            (CorePhase::Legacy, Reply::Outcome(Ok(_))) => CoreMount {
                phase: CorePhase::Finished(Ok(())),
                ..self
            },
            (CorePhase::Legacy, Reply::Outcome(Err(cause))) => CoreMount {
                phase: CorePhase::Finished(
                    Err(MountError::LegacyMount { dest: self.plan.dest.path(), cause }),
                ),
                ..self
            },
            _ => self,
        }
    }
}

/// Some kernels accept a source for lower-only OverlayFS mounts through `fsopen` but still show
/// another one in the mount table. The cleanup of KSU mounts needs the observable source tag, so
/// lower-only KSU overlays stay on the traditional mount, which preserves it.
pub fn prefer_legacy_ksu_lower_only(
    mount_source: &str,
    upperdir: Option<&str>,
    workdir: Option<&str>,
) -> (prefer: bool)
    ensures
        prefer == prefers_legacy(mount_source@, upperdir, workdir),
{
    text::same_text(mount_source, "KSU") && upperdir.is_none() && workdir.is_none()
}

/// Begins a mount of `lower_dirs`, from the highest priority to the lowest, at `dest`. Upper and
/// work directory take part in it only where they exist.
pub fn mount_overlay_core(
    lower_dirs: &[String],
    upperdir: Option<String>,
    workdir: Option<String>,
    dest: Place,
    mount_source: &str,
) -> (mount: CoreMount)
    ensures
        mount@ == CoreMount::started(
            text::texts(lower_dirs@),
            text::opt_text(upperdir),
            text::opt_text(workdir),
            dest@,
            mount_source@,
        ),
{
    let legacy_only: bool = prefer_legacy_ksu_lower_only(
        mount_source,
        text::borrow_opt(&upperdir),
        text::borrow_opt(&workdir),
    );
    let plan = CorePlan {
        lowerdir: text::join_colon(lower_dirs),
        safe_lower: text::join_escaped(lower_dirs),
        upper: None,
        work: None,
        legacy_only,
        source: text::copy_text(mount_source),
        dest,
    };
    match upperdir {
        Some(upper) => CoreMount { plan, phase: CorePhase::Upper { upper, work: workdir } },
        None => plan.into_work(workdir),
    }
}

impl CorePlan {
    fn write_legacy_data(&self) -> (data: String)
        ensures
            data@ == self@.legacy_data(),
    {
        let mut data: String = text::concat("lowerdir=", self.safe_lower.as_str());
        match (&self.upper, &self.work) {
            (Some(u), Some(w)) => {
                data.append(",upperdir=");
                data.append(text::escape_mount_option_value(u.as_str()).as_str());
                data.append(",workdir=");
                data.append(text::escape_mount_option_value(w.as_str()).as_str());
                data
            },
            _ => data,
        }
    }

    fn into_legacy(self) -> (mount: CoreMount)
        ensures
            mount@ == self@.to_legacy(),
    {
        let data: String = self.write_legacy_data();
        if text::has_nul(data.as_str()) {
            CoreMount { plan: self, phase: CorePhase::Finished(Err(MountError::NulInData)) }
        } else {
            CoreMount { plan: self, phase: CorePhase::Legacy }
        }
    }

    fn into_mount(self) -> (mount: CoreMount)
        ensures
            mount@ == self@.to_mount(),
    {
        if self.legacy_only {
            self.into_legacy()
        } else {
            CoreMount { plan: self, phase: CorePhase::Fsopen }
        }
    }

    fn into_work(self, work: Option<String>) -> (mount: CoreMount)
        ensures
            mount@ == self@.to_work(text::opt_text(work)),
    {
        match work {
            Some(dir) => CoreMount { plan: self, phase: CorePhase::Work(dir) },
            None => self.into_mount(),
        }
    }
}

impl CoreMount {
    /// What the mount does next.
    pub fn next(&self) -> (next: Next)
        ensures
            next@ == self@.pending(),
    {
        match &self.phase {
            CorePhase::Upper { upper, .. } => Next::Ask(
                Request::UpperExists(text::copy_text(upper.as_str())),
            ),
            CorePhase::Work(work) => Next::Ask(
                Request::WorkExists(text::copy_text(work.as_str())),
            ),
            CorePhase::Fsopen => Next::Ask(
                Request::Fsopen {
                    upper: text::copy_opt(&self.plan.upper),
                    work: text::copy_opt(&self.plan.work),
                    lowerdir: text::copy_text(self.plan.lowerdir.as_str()),
                    source: text::copy_text(self.plan.source.as_str()),
                    dest: self.plan.dest.copy(),
                },
            ),
            CorePhase::Legacy => Next::Ask(
                Request::Mount {
                    source: text::copy_text(self.plan.source.as_str()),
                    target: self.plan.dest.copy(),
                    fstype: text::copy_text("overlay"),
                    flags: MountFlags { bind: false, recursive: false },
                    data: Some(self.plan.write_legacy_data()),
                },
            ),
            CorePhase::Finished(r) => Next::Finished(error::copy_result(r)),
        }
    }

    /// Goes on with the host's reply.
    pub fn resume(self, reply: Reply) -> (mount: CoreMount)
        ensures
            mount@ == self@.resumed(reply@),
    {
        match (self.phase, reply) {
            (CorePhase::Upper { upper, work }, Reply::Flag(exists)) => {
                let found: Option<String> = if exists {
                    Some(upper)
                } else {
                    None
                };
                CorePlan { upper: found, ..self.plan }.into_work(work)
            },
            (CorePhase::Work(work), Reply::Flag(exists)) => {
                let found: Option<String> = if exists {
                    Some(work)
                } else {
                    None
                };
                CorePlan { work: found, ..self.plan }.into_mount()
            },
            (CorePhase::Fsopen, Reply::Outcome(Ok(_))) => CoreMount {
                phase: CorePhase::Finished(Ok(())),
                ..self
            },
            (CorePhase::Fsopen, Reply::Outcome(Err(_))) => self.plan.into_legacy(),
            (CorePhase::Legacy, Reply::Outcome(Ok(_))) => CoreMount {
                phase: CorePhase::Finished(Ok(())),
                ..self
            },
            (CorePhase::Legacy, Reply::Outcome(Err(cause))) => {
                let dest: String = self.plan.dest.display();
                CoreMount {
                    phase: CorePhase::Finished(Err(MountError::LegacyMount { dest, cause })),
                    ..self
                }
            },
            (phase, _) => CoreMount { phase, ..self },
        }
    }
}

} // verus!
