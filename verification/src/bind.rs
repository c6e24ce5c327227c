//! A recursive bind mount: `open_tree` and `move_mount` first, falling back to a traditional bind.

use vstd::prelude::*;

use crate::error;
use crate::error::MountError;
use crate::host::{MountFlags, Next, Place, Reply, ReplyView, Request, TreeFlags};
use crate::runs;
use crate::runs::Machine;
use crate::text;

verus! {

/// How far a bind mount has come.
#[derive(Debug, PartialEq, Eq)]
pub enum BindPhase<T = String> {
    /// It asks for a clone of the tree at the source.
    OpenTree,
    /// It asks for the clone to be moved to the target.
    MoveMount,
    /// It asks for the traditional bind.
    Mount,
    /// It is done.
    Finished(Result<(), MountError<T>>),
}

/// A bind mount in progress.
#[derive(Debug, PartialEq, Eq)]
pub struct BindMount<T = String> {
    pub from: T,
    pub to: T,
    pub phase: BindPhase<T>,
}

impl View for BindPhase {
    type V = BindPhase<Seq<char>>;

    open spec fn view(&self) -> BindPhase<Seq<char>> {
        match *self {
            BindPhase::OpenTree => BindPhase::OpenTree,
            BindPhase::MoveMount => BindPhase::MoveMount,
            BindPhase::Mount => BindPhase::Mount,
            BindPhase::Finished(r) => BindPhase::Finished(error::result_view(r)),
        }
    }
}

impl View for BindMount {
    type V = BindMount<Seq<char>>;

    open spec fn view(&self) -> BindMount<Seq<char>> {
        BindMount { from: self.from@, to: self.to@, phase: self.phase@ }
    }
}

impl BindMount<Seq<char>> {
    /// A bind mount that is about to begin.
    pub open spec fn started(from: Seq<char>, to: Seq<char>) -> Self {
        BindMount { from, to, phase: BindPhase::OpenTree }
    }
}

impl Machine for BindMount<Seq<char>> {
    /// What the bind mount does next.
    open spec fn pending(self) -> Next<Seq<char>> {
        match self.phase {
            BindPhase::OpenTree => Next::Ask(
                Request::OpenTree {
                    path: self.from,
                    flags: TreeFlags { cloexec: true, clone: true, recursive: true },
                },
            ),
            BindPhase::MoveMount => Next::Ask(
                Request::MoveMount { to: self.to, empty_path: true },
            ),
            BindPhase::Mount => Next::Ask(
                Request::Mount {
                    source: self.from,
                    target: Place::Target(self.to),
                    fstype: ""@,
                    flags: MountFlags { bind: true, recursive: true },
                    data: None,
                },
            ),
            BindPhase::Finished(r) => Next::Finished(r),
        }
    }

    /// The bind mount after the host's reply. A reply of another kind than the request asks for
    /// changes nothing.
    open spec fn resumed(self, reply: ReplyView) -> Self {
        let phase = match (self.phase, reply) {
            (BindPhase::OpenTree, Reply::Outcome(Ok(_))) => BindPhase::MoveMount,
            (BindPhase::OpenTree, Reply::Outcome(Err(_))) => BindPhase::Mount,
            (BindPhase::MoveMount, Reply::Outcome(Ok(_))) => BindPhase::Finished(Ok(())),
            (BindPhase::MoveMount, Reply::Outcome(Err(_))) => BindPhase::Mount,
            (BindPhase::Mount, Reply::Outcome(Ok(_))) => BindPhase::Finished(Ok(())),
            (BindPhase::Mount, Reply::Outcome(Err(cause))) => BindPhase::Finished(
                Err(MountError::BindMount { from: self.from, to: self.to, cause }),
            ),
            (phase, _) => phase,
        };
        BindMount { phase, ..self }
    }
}

/// Begins a recursive bind mount of `from` at `to`.
pub fn bind_mount(from: &str, to: &str) -> (mount: BindMount)
    ensures
        mount@ == BindMount::started(from@, to@),
{
    BindMount {
        from: text::copy_text(from),
        to: text::copy_text(to),
        phase: BindPhase::OpenTree,
    }
}

impl BindMount {
    /// What the bind mount does next.
    pub fn next(&self) -> (next: Next)
        ensures
            next@ == self@.pending(),
    {
        match &self.phase {
            BindPhase::OpenTree => Next::Ask(
                Request::OpenTree {
                    path: text::copy_text(self.from.as_str()),
                    flags: TreeFlags { cloexec: true, clone: true, recursive: true },
                },
            ),
            BindPhase::MoveMount => Next::Ask(
                Request::MoveMount { to: text::copy_text(self.to.as_str()), empty_path: true },
            ),
            BindPhase::Mount => Next::Ask(
                Request::Mount {
                    source: text::copy_text(self.from.as_str()),
                    target: Place::Target(text::copy_text(self.to.as_str())),
                    fstype: text::copy_text(""),
                    flags: MountFlags { bind: true, recursive: true },
                    data: None,
                },
            ),
            BindPhase::Finished(r) => Next::Finished(error::copy_result(r)),
        }
    }

    /// Goes on with the host's reply.
    pub fn resume(self, reply: Reply) -> (mount: BindMount)
        ensures
            mount@ == self@.resumed(reply@),
    {
        let phase: BindPhase = match (self.phase, reply) {
            (BindPhase::OpenTree, Reply::Outcome(Ok(_))) => BindPhase::MoveMount,
            (BindPhase::OpenTree, Reply::Outcome(Err(_))) => BindPhase::Mount,
            (BindPhase::MoveMount, Reply::Outcome(Ok(_))) => BindPhase::Finished(Ok(())),
            (BindPhase::MoveMount, Reply::Outcome(Err(_))) => BindPhase::Mount,
            (BindPhase::Mount, Reply::Outcome(Ok(_))) => BindPhase::Finished(Ok(())),
            (BindPhase::Mount, Reply::Outcome(Err(cause))) => BindPhase::Finished(
                Err(
                    MountError::BindMount {
                        from: text::copy_text(self.from.as_str()),
                        to: text::copy_text(self.to.as_str()),
                        cause,
                    },
                ),
            ),
            (phase, _) => phase,
        };
        BindMount { phase, ..self }
    }
}

/// The calls of a bind mount in order, with the result that they come to, given how the host
/// answers each of them.
pub open spec fn bind_calls(
    from: Seq<char>,
    to: Seq<char>,
    opened: Result<(), Seq<char>>,
    moved: Result<(), Seq<char>>,
    bound: Result<(), Seq<char>>,
) -> Seq<Next<Seq<char>>> {
    let open: Next<Seq<char>> = Next::Ask(
        Request::OpenTree {
            path: from,
            flags: TreeFlags { cloexec: true, clone: true, recursive: true },
        },
    );
    let shift: Next<Seq<char>> = Next::Ask(Request::MoveMount { to, empty_path: true });
    let traditional: Seq<Next<Seq<char>>> = seq![
        Next::Ask(
            Request::Mount {
                source: from,
                target: Place::Target(to),
                fstype: ""@,
                flags: MountFlags { bind: true, recursive: true },
                data: None,
            },
        ),
        Next::Finished(
            match bound {
                Ok(_) => Ok(()),
                Err(cause) => Err(MountError::BindMount { from, to, cause }),
            },
        ),
    ];
    if opened is Err {
        seq![open] + traditional
    } else if moved is Err {
        seq![open, shift] + traditional
    } else {
        seq![open, shift, Next::Finished(Ok(()))]
    }
}

/// The host's replies to the calls of a bind mount.
pub open spec fn bind_replies(
    opened: Result<(), Seq<char>>,
    moved: Result<(), Seq<char>>,
    bound: Result<(), Seq<char>>,
) -> Seq<ReplyView> {
    if opened is Err {
        seq![Reply::Outcome(opened), Reply::Outcome(bound)]
    } else if moved is Err {
        seq![Reply::Outcome(opened), Reply::Outcome(moved), Reply::Outcome(bound)]
    } else {
        seq![Reply::Outcome(opened), Reply::Outcome(moved)]
    }
}

/// A bind mount, from its beginning to its result, for every way in which the host can answer: it
/// falls back to the traditional bind where either of the two first calls fails, and only a
/// failure of the traditional bind is one of the operation.
pub proof fn bind_mount_runs_through(
    from: Seq<char>,
    to: Seq<char>,
    opened: Result<(), Seq<char>>,
    moved: Result<(), Seq<char>>,
    bound: Result<(), Seq<char>>,
)
    ensures
        runs::trace(BindMount::started(from, to), bind_replies(opened, moved, bound))
            == bind_calls(from, to, opened, moved, bound),
{
    let r1: ReplyView = Reply::Outcome(opened);
    let r2: ReplyView = Reply::Outcome(moved);
    let r3: ReplyView = Reply::Outcome(bound);
    let m0 = BindMount::started(from, to);
    let m1 = m0.resumed(r1);
    let m2 = m1.resumed(r2);
    runs::lemma_run_one(m1, r2);
    runs::lemma_run_one(m1, r3);
    runs::lemma_run_one(m2, r3);
    runs::lemma_run_first(m1, r2, seq![r3]);
    runs::lemma_run_first(m0, r1, seq![r3]);
    runs::lemma_run_first(m0, r1, seq![r2]);
    runs::lemma_run_first(m0, r1, seq![r2] + seq![r3]);
    let replies = bind_replies(opened, moved, bound);
    if opened is Err {
        assert(replies =~= seq![r1] + seq![r3]);
    } else if moved is Err {
        assert(replies =~= seq![r1] + (seq![r2] + seq![r3]));
    } else {
        assert(replies =~= seq![r1] + seq![r2]);
    }
    assert(runs::trace(m0, replies) =~= bind_calls(from, to, opened, moved, bound));
}

} // verus!
