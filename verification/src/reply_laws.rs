//! What a machine makes of a reply that does not answer its request.

use vstd::prelude::*;

use crate::bind::BindMount;
use crate::child::ChildView;
use crate::cleanup::StagingCleanup;
use crate::core_mount::CoreMount;
use crate::host;
use crate::host::{Next, ReplyView};
use crate::overlay::OverlayView;
use crate::runs::Machine;
use crate::stacked::StackedView;

verus! {

/// A reply of another kind than the request asks for changes nothing: a single mount still asks the
/// same, and so does a stacked overlay.
pub proof fn mounts_wait_for_their_answer(
    single: CoreMount<Seq<char>>,
    stacked: StackedView,
    reply: ReplyView,
)
    ensures
        single.pending() matches Next::Ask(request) && !host::answers(request, reply)
            ==> single.resumed(reply) == single,
        stacked.pending() matches Next::Ask(request) && !host::answers(request, reply)
            ==> stacked.resumed(reply) == stacked,
{
}

/// A reply of another kind than the request asks for changes nothing about a bind mount or a
/// cleanup.
pub proof fn bind_and_cleanup_wait_for_their_answer(
    bind: BindMount<Seq<char>>,
    cleanup: StagingCleanup<Seq<char>>,
    reply: ReplyView,
)
    ensures
        bind.pending() matches Next::Ask(request) && !host::answers(request, reply)
            ==> bind.resumed(reply) == bind,
        cleanup.pending() matches Next::Ask(request) && !host::answers(request, reply)
            ==> cleanup.resumed(reply) == cleanup,
{
}

/// A reply of another kind than the request asks for changes nothing about a sub-mount or about the
/// overlay of a root.
pub proof fn overlays_wait_for_their_answer(
    child: ChildView,
    overlay: OverlayView,
    reply: ReplyView,
)
    ensures
        child.pending() matches Next::Ask(request) && !host::answers(request, reply)
            ==> child.resumed(reply) == child,
        overlay.pending() matches Next::Ask(request) && !host::answers(request, reply)
            ==> overlay.resumed(reply) == overlay,
{
}

/// What is done stays done: a finished single mount, bind mount, cleanup or sub-mount keeps its
/// result, whatever reply comes.
pub proof fn finished_operations_keep_their_result(
    single: CoreMount<Seq<char>>,
    bind: BindMount<Seq<char>>,
    cleanup: StagingCleanup<Seq<char>>,
    child: ChildView,
    reply: ReplyView,
)
    ensures
        single.pending() is Finished ==> single.resumed(reply) == single,
        bind.pending() is Finished ==> bind.resumed(reply) == bind,
        cleanup.pending() is Finished ==> cleanup.resumed(reply) == cleanup,
        child.phase is Finished ==> child.resumed(reply) == child,
{
}

} // verus!
