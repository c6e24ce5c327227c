//! Machines seen as a whole: what they do while the host answers them.

use vstd::prelude::*;

use crate::host::{Next, ReplyView};

verus! {

/// A machine as the contracts see it.
pub trait Machine: Sized {
    /// What the machine does next.
    spec fn pending(self) -> Next<Seq<char>>;

    /// The machine after the host's reply. A reply of another kind than the request asks for
    /// changes nothing.
    spec fn resumed(self, reply: ReplyView) -> Self;
}

/// The machine after a number of replies.
pub open spec fn run<M: Machine>(machine: M, replies: Seq<ReplyView>) -> M
    decreases replies.len(),
{
    if replies.len() == 0 {
        machine
    } else {
        run(machine, replies.drop_last()).resumed(replies.last())
    }
}

/// Everything that the machine does while it gets these replies: its requests, and what comes
/// after the last reply.
pub open spec fn trace<M: Machine>(machine: M, replies: Seq<ReplyView>) -> Seq<Next<Seq<char>>>
    decreases replies.len(),
{
    if replies.len() == 0 {
        seq![machine.pending()]
    } else {
        trace(machine, replies.drop_last()).push(run(machine, replies).pending())
    }
}

/// What comes after the last reply of a trace is what the machine then does.
pub proof fn trace_ends_in_the_machine<M: Machine>(machine: M, replies: Seq<ReplyView>)
    ensures
        trace(machine, replies).len() == replies.len() + 1,
        trace(machine, replies).last() == run(machine, replies).pending(),
    decreases replies.len(),
{
    if replies.len() > 0 {
        trace_ends_in_the_machine(machine, replies.drop_last());
    }
}

/// A run can be cut anywhere: the second part is the run of the machine that the first part left.
pub proof fn runs_compose<M: Machine>(machine: M, a: Seq<ReplyView>, b: Seq<ReplyView>)
    ensures
        run(machine, a + b) == run(run(machine, a), b),
        trace(machine, a + b) == trace(machine, a).drop_last() + trace(run(machine, a), b),
    decreases b.len(),
{
    trace_ends_in_the_machine(machine, a);
    if b.len() == 0 {
        assert(a + b =~= a);
        assert(trace(machine, a) =~= trace(machine, a).drop_last() + trace(run(machine, a), b));
    } else {
        runs_compose(machine, a, b.drop_last());
        assert((a + b).drop_last() =~= a + b.drop_last());
        assert(trace(machine, a + b) =~= trace(machine, a).drop_last() + trace(
            run(machine, a),
            b,
        ));
    }
}

/// Whether the machine asks for each of these replies: it has not come to its end before the last.
pub open spec fn awaits<M: Machine>(machine: M, replies: Seq<ReplyView>) -> bool {
    forall|i: int|
        0 <= i < replies.len() ==> (#[trigger] run(machine, replies.take(i))).pending() is Ask
}

/// A machine that asks for each of some replies asks for each of the first of them.
pub(crate) proof fn lemma_awaits_head<M: Machine>(machine: M, replies: Seq<ReplyView>)
    requires
        replies.len() > 0,
        awaits(machine, replies),
    ensures
        awaits(machine, replies.drop_last()),
        run(machine, replies.drop_last()).pending() is Ask,
{
    let head = replies.drop_last();
    assert forall|i: int| 0 <= i < head.len() implies (#[trigger] run(
        machine,
        head.take(i),
    )).pending() is Ask by {
        assert(head.take(i) =~= replies.take(i));
    }
    assert(replies.take(head.len() as int) =~= head);
}

/// A run of one reply.
pub(crate) proof fn lemma_run_one<M: Machine>(machine: M, reply: ReplyView)
    ensures
        run(machine, seq![reply]) == machine.resumed(reply),
        trace(machine, seq![reply]) == seq![machine.pending(), machine.resumed(reply).pending()],
{
    let one = seq![reply];
    assert(one.drop_last() =~= seq![]);
    assert(run(machine, one.drop_last()) == machine);
    assert(trace(machine, one.drop_last()) == seq![machine.pending()]);
    assert(trace(machine, one) =~= seq![machine.pending(), machine.resumed(reply).pending()]);
}

/// A run with one reply more at its beginning.
pub(crate) proof fn lemma_run_first<M: Machine>(machine: M, reply: ReplyView, rest: Seq<ReplyView>)
    ensures
        run(machine, seq![reply] + rest) == run(machine.resumed(reply), rest),
        trace(machine, seq![reply] + rest) == seq![machine.pending()] + trace(
            machine.resumed(reply),
            rest,
        ),
{
    runs_compose(machine, seq![reply], rest);
    lemma_run_one(machine, reply);
    assert(trace(machine, seq![reply]).drop_last() =~= seq![machine.pending()]);
}

} // verus!
