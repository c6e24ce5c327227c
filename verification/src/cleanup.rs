//! The removal of a staging directory, with whatever is still mounted on it.

use vstd::prelude::*;

use crate::error;
use crate::error::MountError;
use crate::host::{Next, Reply, ReplyView, Request};
use crate::runs;
use crate::runs::Machine;
use crate::text;

verus! {

/// The number of `Errno::NOENT`, which `Errno::raw_os_error` gives as 2.
#[verifier::external_body]
fn noent() -> (number: i32)
    ensures
        number == 2,
{
    rustix::io::Errno::NOENT.raw_os_error()
}

/// The number of `Errno::INVAL`, which `Errno::raw_os_error` gives as 22.
#[verifier::external_body]
fn inval() -> (number: i32)
    ensures
        number == 22,
{
    rustix::io::Errno::INVAL.raw_os_error()
}

/// Whether an unmount that failed with this error number says that nothing is mounted there:
/// there is no such path (2), or it is no mount point (22).
pub open spec fn means_not_mounted(errno: i32) -> bool {
    errno == 2 || errno == 22
}

/// How far a cleanup has come.
#[derive(Debug, PartialEq, Eq)]
pub enum CleanupPhase<T = String> {
    /// It asks whether the directory is mounted.
    Probe,
    /// It asks for a lazy unmount.
    Detach,
    /// It asks again whether the directory is mounted.
    Recheck,
    /// It asks whether the removal is to fail.
    Fault,
    /// It asks for the removal.
    Remove,
    /// It is done.
    Finished(Result<(), MountError<T>>),
}

/// A cleanup in progress.
#[derive(Debug, PartialEq, Eq)]
pub struct StagingCleanup<T = String> {
    pub path: T,
    pub phase: CleanupPhase<T>,
}

impl View for CleanupPhase {
    type V = CleanupPhase<Seq<char>>;

    open spec fn view(&self) -> CleanupPhase<Seq<char>> {
        match *self {
            CleanupPhase::Probe => CleanupPhase::Probe,
            CleanupPhase::Detach => CleanupPhase::Detach,
            CleanupPhase::Recheck => CleanupPhase::Recheck,
            CleanupPhase::Fault => CleanupPhase::Fault,
            CleanupPhase::Remove => CleanupPhase::Remove,
            CleanupPhase::Finished(r) => CleanupPhase::Finished(error::result_view(r)),
        }
    }
}

impl View for StagingCleanup {
    type V = StagingCleanup<Seq<char>>;

    open spec fn view(&self) -> StagingCleanup<Seq<char>> {
        StagingCleanup { path: self.path@, phase: self.phase@ }
    }
}

impl StagingCleanup<Seq<char>> {
    /// A cleanup that is about to begin.
    pub open spec fn started(path: Seq<char>) -> Self {
        StagingCleanup { path, phase: CleanupPhase::Probe }
    }
}

impl Machine for StagingCleanup<Seq<char>> {
    /// What the cleanup does next.
    open spec fn pending(self) -> Next<Seq<char>> {
        match self.phase {
            CleanupPhase::Probe => Next::Ask(Request::IsMounted(self.path)),
            CleanupPhase::Detach => Next::Ask(
                Request::Unmount { path: self.path, detach: true },
            ),
            CleanupPhase::Recheck => Next::Ask(Request::IsMounted(self.path)),
            CleanupPhase::Fault => Next::Ask(Request::RemoveFault),
            CleanupPhase::Remove => Next::Ask(Request::RemoveDirAll(self.path)),
            CleanupPhase::Finished(r) => Next::Finished(r),
        }
    }

    /// The cleanup after the host's reply. A reply of another kind than the request asks for
    /// changes nothing.
    open spec fn resumed(self, reply: ReplyView) -> Self {
        let phase = match (self.phase, reply) {
            // A failed lookup is never taken for "not mounted".
            (CleanupPhase::Probe, Reply::Checked(Err(cause))) => CleanupPhase::Finished(
                Err(MountError::Host(cause)),
            ),
            (CleanupPhase::Probe, Reply::Checked(Ok(mounted))) => if mounted {
                CleanupPhase::Detach
            } else {
                CleanupPhase::Recheck
            },
            (CleanupPhase::Detach, Reply::Unmounted(Ok(_))) => CleanupPhase::Recheck,
            (CleanupPhase::Detach, Reply::Unmounted(Err((errno, cause)))) => if means_not_mounted(
                errno,
            ) {
                CleanupPhase::Recheck
            } else {
                CleanupPhase::Finished(Err(MountError::Detach { path: self.path, cause }))
            },
            (CleanupPhase::Recheck, Reply::Checked(Err(cause))) => CleanupPhase::Finished(
                Err(MountError::Host(cause)),
            ),
            (CleanupPhase::Recheck, Reply::Checked(Ok(mounted))) => if mounted {
                CleanupPhase::Finished(Err(MountError::StillMounted(self.path)))
            } else {
                CleanupPhase::Fault
            },
            (CleanupPhase::Fault, Reply::Flag(fail)) => if fail {
                CleanupPhase::Finished(Err(MountError::InjectedRemove(self.path)))
            } else {
                CleanupPhase::Remove
            },
            (CleanupPhase::Remove, Reply::Removed(Ok(_))) => CleanupPhase::Finished(Ok(())),
            (CleanupPhase::Remove, Reply::Removed(Err((missing, cause)))) => if missing {
                CleanupPhase::Finished(Ok(()))
            } else {
                CleanupPhase::Finished(Err(MountError::Remove { path: self.path, cause }))
            },
            (phase, _) => phase,
        };
        StagingCleanup { phase, ..self }
    }
}

/// Begins the cleanup of the staging directory at `path`.
pub fn cleanup_staging_mount(path: &str) -> (cleanup: StagingCleanup)
    ensures
        cleanup@ == StagingCleanup::started(path@),
{
    StagingCleanup { path: text::copy_text(path), phase: CleanupPhase::Probe }
}

impl StagingCleanup {
    /// What the cleanup does next.
    pub fn next(&self) -> (next: Next)
        ensures
            next@ == self@.pending(),
    {
        match &self.phase {
            CleanupPhase::Probe => Next::Ask(
                Request::IsMounted(text::copy_text(self.path.as_str())),
            ),
            CleanupPhase::Detach => Next::Ask(
                Request::Unmount { path: text::copy_text(self.path.as_str()), detach: true },
            ),
            CleanupPhase::Recheck => Next::Ask(
                Request::IsMounted(text::copy_text(self.path.as_str())),
            ),
            CleanupPhase::Fault => Next::Ask(Request::RemoveFault),
            CleanupPhase::Remove => Next::Ask(
                Request::RemoveDirAll(text::copy_text(self.path.as_str())),
            ),
            CleanupPhase::Finished(r) => Next::Finished(error::copy_result(r)),
        }
    }

    /// Goes on with the host's reply.
    pub fn resume(self, reply: Reply) -> (cleanup: StagingCleanup)
        ensures
            cleanup@ == self@.resumed(reply@),
    {
        let phase: CleanupPhase = match (self.phase, reply) {
            (CleanupPhase::Probe, Reply::Checked(Err(cause))) => CleanupPhase::Finished(
                Err(MountError::Host(cause)),
            ),
            (CleanupPhase::Probe, Reply::Checked(Ok(mounted))) => {
                if mounted {
                    CleanupPhase::Detach
                } else {
                    CleanupPhase::Recheck
                }
            },
            (CleanupPhase::Detach, Reply::Unmounted(Ok(_))) => CleanupPhase::Recheck,
            (CleanupPhase::Detach, Reply::Unmounted(Err((errno, cause)))) => {
                if errno == noent() || errno == inval() {
                    CleanupPhase::Recheck
                } else {
                    CleanupPhase::Finished(
                        Err(
                            MountError::Detach {
                                path: text::copy_text(self.path.as_str()),
                                cause,
                            },
                        ),
                    )
                }
            },
            (CleanupPhase::Recheck, Reply::Checked(Err(cause))) => CleanupPhase::Finished(
                Err(MountError::Host(cause)),
            ),
            (CleanupPhase::Recheck, Reply::Checked(Ok(mounted))) => {
                if mounted {
                    CleanupPhase::Finished(
                        Err(MountError::StillMounted(text::copy_text(self.path.as_str()))),
                    )
                } else {
                    CleanupPhase::Fault
                }
            },
            (CleanupPhase::Fault, Reply::Flag(fail)) => {
                if fail {
                    CleanupPhase::Finished(
                        Err(MountError::InjectedRemove(text::copy_text(self.path.as_str()))),
                    )
                } else {
                    CleanupPhase::Remove
                }
            },
            (CleanupPhase::Remove, Reply::Removed(Ok(_))) => CleanupPhase::Finished(Ok(())),
            (CleanupPhase::Remove, Reply::Removed(Err((missing, cause)))) => {
                if missing {
                    CleanupPhase::Finished(Ok(()))
                } else {
                    CleanupPhase::Finished(
                        Err(
                            MountError::Remove {
                                path: text::copy_text(self.path.as_str()),
                                cause,
                            },
                        ),
                    )
                }
            },
            (phase, _) => phase,
        };
        StagingCleanup { phase, ..self }
    }
}

/// How a host answers a cleanup.
pub struct CleanupAnswers {
    pub probe: Result<bool, Seq<char>>,
    pub unmount: Result<(), (i32, Seq<char>)>,
    pub recheck: Result<bool, Seq<char>>,
    pub fault: bool,
    pub removal: Result<(), (bool, Seq<char>)>,
}

impl CleanupAnswers {
    /// The replies to a removal, with the request before them and the result after them.
    pub open spec fn from_remove(self, path: Seq<char>) -> (
        Seq<ReplyView>,
        Seq<Next<Seq<char>>>,
    ) {
        (
            seq![Reply::Removed(self.removal)],
            seq![
                Next::Ask(Request::RemoveDirAll(path)),
                Next::Finished(
                    match self.removal {
                        Ok(_) => Ok(()),
                        Err((missing, cause)) => if missing {
                            Ok(())
                        } else {
                            Err(MountError::Remove { path, cause })
                        },
                    },
                ),
            ],
        )
    }

    /// The same from the question about an injected fault on.
    pub open spec fn from_fault(self, path: Seq<char>) -> (
        Seq<ReplyView>,
        Seq<Next<Seq<char>>>,
    ) {
        let rest = if self.fault {
            (seq![], seq![Next::Finished(Err(MountError::InjectedRemove(path)))])
        } else {
            self.from_remove(path)
        };
        (seq![Reply::Flag(self.fault)] + rest.0, seq![Next::Ask(Request::RemoveFault)] + rest.1)
    }

    /// The same from the second lookup on.
    pub open spec fn from_recheck(self, path: Seq<char>) -> (
        Seq<ReplyView>,
        Seq<Next<Seq<char>>>,
    ) {
        let rest = match self.recheck {
            Err(cause) => (seq![], seq![Next::Finished(Err(MountError::Host(cause)))]),
            Ok(mounted) => if mounted {
                (seq![], seq![Next::Finished(Err(MountError::StillMounted(path)))])
            } else {
                self.from_fault(path)
            },
        };
        (
            seq![Reply::Checked(self.recheck)] + rest.0,
            seq![Next::Ask(Request::IsMounted(path))] + rest.1,
        )
    }

    /// The same from the unmount on.
    pub open spec fn from_detach(self, path: Seq<char>) -> (
        Seq<ReplyView>,
        Seq<Next<Seq<char>>>,
    ) {
        let rest = match self.unmount {
            Err((errno, cause)) => if errno == 2 || errno == 22 {
                self.from_recheck(path)
            } else {
                (seq![], seq![Next::Finished(Err(MountError::Detach { path, cause }))])
            },
            Ok(_) => self.from_recheck(path),
        };
        (
            seq![Reply::Unmounted(self.unmount)] + rest.0,
            seq![Next::Ask(Request::Unmount { path, detach: true })] + rest.1,
        )
    }

    /// The same from the beginning on.
    pub open spec fn from_probe(self, path: Seq<char>) -> (
        Seq<ReplyView>,
        Seq<Next<Seq<char>>>,
    ) {
        let rest = match self.probe {
            Err(cause) => (seq![], seq![Next::Finished(Err(MountError::Host(cause)))]),
            Ok(mounted) => if mounted {
                self.from_detach(path)
            } else {
                self.from_recheck(path)
            },
        };
        (
            seq![Reply::Checked(self.probe)] + rest.0,
            seq![Next::Ask(Request::IsMounted(path))] + rest.1,
        )
    }

    /// Whether these answers let a cleanup succeed: both lookups worked, nothing was left mounted
    /// in the end, and the directory was removed or was not there.
    pub open spec fn all_clear(self) -> bool {
        &&& self.probe matches Ok(mounted)
        &&& mounted ==> (self.unmount matches Err((errno, _)) ==> errno == 2 || errno == 22)
        &&& self.recheck matches Ok(still_mounted)
        &&& !still_mounted
        &&& !self.fault
        &&& self.removal matches Err((missing, _)) ==> missing
    }
}

proof fn lemma_trace_step(
    machine: StagingCleanup<Seq<char>>,
    reply: ReplyView,
    rest: Seq<ReplyView>,
    tail: Seq<Next<Seq<char>>>,
)
    requires
        runs::trace(machine.resumed(reply), rest) == tail,
    ensures
        runs::trace(machine, seq![reply] + rest) == seq![machine.pending()] + tail,
{
    runs::lemma_run_first(machine, reply, rest);
}

/// A cleanup, from its beginning to its result, for every way in which the host can answer.
pub proof fn cleanup_runs_through(path: Seq<char>, answers: CleanupAnswers)
    ensures
        runs::trace(StagingCleanup::started(path), answers.from_probe(path).0)
            == answers.from_probe(path).1,
        answers.from_probe(path).1.last() == Next::<Seq<char>>::Finished(Ok(()))
            <==> answers.all_clear(),
{
    let probe = StagingCleanup::started(path);
    let detach = StagingCleanup { path, phase: CleanupPhase::Detach };
    let recheck = StagingCleanup { path, phase: CleanupPhase::Recheck };
    let fault = StagingCleanup { path, phase: CleanupPhase::Fault };
    let remove = StagingCleanup { path, phase: CleanupPhase::Remove };
    let none: Seq<ReplyView> = seq![];
    runs::lemma_run_one(remove, Reply::Removed(answers.removal));
    assert(runs::trace(remove, answers.from_remove(path).0) =~= answers.from_remove(path).1);
    let after_fault = fault.resumed(Reply::Flag(answers.fault));
    let fault_rest = if answers.fault {
        none
    } else {
        answers.from_remove(path).0
    };
    lemma_trace_step(
        fault,
        Reply::Flag(answers.fault),
        fault_rest,
        runs::trace(after_fault, fault_rest),
    );
    assert(runs::trace(fault, answers.from_fault(path).0) == answers.from_fault(path).1);
    let after_recheck = recheck.resumed(Reply::Checked(answers.recheck));
    let recheck_rest = if answers.recheck == Ok::<bool, Seq<char>>(false) {
        answers.from_fault(path).0
    } else {
        none
    };
    lemma_trace_step(
        recheck,
        Reply::Checked(answers.recheck),
        recheck_rest,
        runs::trace(after_recheck, recheck_rest),
    );
    assert(runs::trace(recheck, answers.from_recheck(path).0) == answers.from_recheck(path).1);
    let after_detach = detach.resumed(Reply::Unmounted(answers.unmount));
    let detach_rest = if after_detach.phase is Recheck {
        answers.from_recheck(path).0
    } else {
        none
    };
    lemma_trace_step(
        detach,
        Reply::Unmounted(answers.unmount),
        detach_rest,
        runs::trace(after_detach, detach_rest),
    );
    assert(runs::trace(detach, answers.from_detach(path).0) == answers.from_detach(path).1);
    let after_probe = probe.resumed(Reply::Checked(answers.probe));
    let probe_rest = match answers.probe {
        Err(_) => none,
        Ok(mounted) => if mounted {
            answers.from_detach(path).0
        } else {
            answers.from_recheck(path).0
        },
    };
    lemma_trace_step(
        probe,
        Reply::Checked(answers.probe),
        probe_rest,
        runs::trace(after_probe, probe_rest),
    );
    assert(runs::trace(probe, answers.from_probe(path).0) == answers.from_probe(path).1);
}

/// A staging directory is removed only after a lookup that worked found nothing mounted on it.
pub proof fn removal_follows_a_clear_lookup(path: Seq<char>, replies: Seq<ReplyView>)
    requires
        runs::run(StagingCleanup::started(path), replies).phase is Remove,
    ensures
        exists|i: int| #![trigger replies[i]]
            0 <= i < replies.len() && replies[i] == Reply::<Seq<char>, Seq<Seq<u8>>>::Checked(
                Ok(false),
            ) && runs::run(StagingCleanup::started(path), replies.take(i)).phase is Recheck,
{
    lemma_clear_lookup(path, replies);
}

proof fn lemma_clear_lookup(path: Seq<char>, replies: Seq<ReplyView>)
    ensures
        ({
            let phase = runs::run(StagingCleanup::started(path), replies).phase;
            phase is Fault || phase is Remove ==> exists|i: int| #![trigger replies[i]]
                0 <= i < replies.len() && replies[i] == Reply::<Seq<char>, Seq<Seq<u8>>>::Checked(
                    Ok(false),
                ) && runs::run(StagingCleanup::started(path), replies.take(i)).phase is Recheck
        }),
    decreases replies.len(),
{
    let start = StagingCleanup::started(path);
    if replies.len() > 0 {
        let head = replies.drop_last();
        let n = replies.len() - 1;
        lemma_clear_lookup(path, head);
        let before = runs::run(start, head).phase;
        let phase = runs::run(start, replies).phase;
        if phase is Fault || phase is Remove {
            if before is Recheck {
                assert(replies.take(n) =~= head);
                assert(replies[n] == replies.last());
            } else {
                let i = choose|i: int| #![trigger head[i]]
                    0 <= i < head.len() && head[i] == Reply::<
                        Seq<char>,
                        Seq<Seq<u8>>,
                    >::Checked(Ok(false)) && runs::run(start, head.take(i)).phase is Recheck;
                assert(replies[i] == head[i]);
                assert(replies.take(i) =~= head.take(i));
            }
        }
    }
}

} // verus!
