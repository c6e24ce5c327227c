//! What an operation has mounted against what it has reported: the caller undoes what was reported
//! to it, so that has to be all that is mounted.

use vstd::prelude::*;

use crate::child::{ChildGoalView, ChildMount, ChildPhase, ChildView};
use crate::core_mount::CorePhase;
use crate::host::{MountEffect, Next, Place, Reply, ReplyView, Request};
use crate::overlay::{OverlayGoalView, OverlayMount, OverlayPhase, OverlayView};
use crate::overlay_laws;
use crate::runs;
use crate::runs::Machine;
use crate::stacked::{StackedGoal, StackedMount, StackedPhase, StackedView};

verus! {

/// A mount as the contracts see it.
pub type EffectView = MountEffect<Seq<char>>;

/// What a mount at a place leaves mounted.
pub open spec fn effect_at(place: Place<Seq<char>>) -> EffectView {
    match place {
        Place::Target(path) => MountEffect::Target(path),
        Place::Staging(path) => MountEffect::Staging(path),
    }
}

/// What the host has mounted with its reply: something where a mount call succeeded, else nothing.
pub open spec fn effect_made(next: Next<Seq<char>>, reply: ReplyView) -> Seq<EffectView> {
    match (next, reply) {
        (Next::Ask(Request::Fsopen { dest, .. }), Reply::Outcome(Ok(_))) => seq![effect_at(dest)],
        (Next::Ask(Request::Mount { target, .. }), Reply::Outcome(Ok(_))) => seq![
            effect_at(target),
        ],
        (Next::Ask(Request::MoveMount { to, .. }), Reply::Outcome(Ok(_))) => seq![
            MountEffect::Target(to),
        ],
        _ => seq![],
    }
}

/// What the host has taken notice of with its reply: an effect where one was reported to it.
pub open spec fn effect_reported(next: Next<Seq<char>>, reply: ReplyView) -> Seq<EffectView> {
    match (next, reply) {
        (Next::Ask(Request::Report(effect)), Reply::Done) => seq![effect],
        _ => seq![],
    }
}

/// All that has been mounted while the machine got these replies, in order.
pub open spec fn made<M: Machine>(machine: M, replies: Seq<ReplyView>) -> Seq<EffectView>
    decreases replies.len(),
{
    if replies.len() == 0 {
        seq![]
    } else {
        let before = replies.drop_last();
        made(machine, before) + effect_made(runs::run(machine, before).pending(), replies.last())
    }
}

/// All that has been reported while the machine got these replies, in order.
pub open spec fn reported<M: Machine>(machine: M, replies: Seq<ReplyView>) -> Seq<EffectView>
    decreases replies.len(),
{
    if replies.len() == 0 {
        seq![]
    } else {
        let before = replies.drop_last();
        reported(machine, before) + effect_reported(
            runs::run(machine, before).pending(),
            replies.last(),
        )
    }
}

/// The paths of the effects that are at targets, in order.
pub open spec fn targets(effects: Seq<EffectView>) -> Seq<Seq<char>>
    decreases effects.len(),
{
    if effects.len() == 0 {
        seq![]
    } else {
        match effects.last() {
            MountEffect::Target(path) => targets(effects.drop_last()).push(path),
            MountEffect::Staging(_) => targets(effects.drop_last()),
        }
    }
}

/// What a stacked overlay has mounted and not reported. Its last mount is left to its caller to
/// report.
pub open spec fn stacked_owes(mount: StackedView) -> Seq<EffectView> {
    match mount.phase {
        StackedPhase::Report { dir } => seq![MountEffect::Staging(dir)],
        StackedPhase::Last(last) => if last.phase matches CorePhase::Finished(Ok(_)) {
            seq![MountEffect::Target(mount.goal.dest)]
        } else {
            seq![]
        },
        _ => seq![],
    }
}

/// What a sub-mount has mounted and not reported.
pub open spec fn child_owes(mount: ChildView) -> Seq<EffectView> {
    match mount.phase {
        ChildPhase::Overlay(stacked) => stacked_owes(stacked),
        ChildPhase::Unmountable => seq![MountEffect::Target(mount.goal.mount_point)],
        ChildPhase::Report => seq![MountEffect::Target(mount.goal.mount_point)],
        _ => seq![],
    }
}

/// What the overlay of a root has mounted and not reported.
pub open spec fn overlay_owes(mount: OverlayView) -> Seq<EffectView> {
    match mount.phase {
        OverlayPhase::Root { mount: stacked, .. } => stacked_owes(stacked),
        OverlayPhase::ReportRoot { .. } => seq![MountEffect::Target(mount.goal.root)],
        OverlayPhase::Child { mount: child, .. } => child_owes(child),
        _ => seq![],
    }
}

/// A stacked overlay mounts where it should: staging layers at their directories, and the last
/// mount at the destination.
spec fn stacked_in_place(mount: StackedView) -> bool {
    match mount.phase {
        StackedPhase::Staging { dir, mount: staging } => staging.plan.dest == Place::Staging(dir)
            && !(staging.phase is Finished),
        StackedPhase::Last(last) => last.plan.dest == Place::Target(mount.goal.dest),
        _ => true,
    }
}

/// A sub-mount mounts at its mount point.
spec fn child_in_place(mount: ChildView) -> bool {
    match mount.phase {
        ChildPhase::Binding(bind) => bind.to == mount.goal.mount_point && bind.pending() is Ask,
        ChildPhase::Overlay(stacked) => stacked_in_place(stacked) && stacked.goal.dest
            == mount.goal.mount_point && stacked.pending() is Ask,
        _ => true,
    }
}

/// The overlay of a root mounts at the root, and its sub-mounts at theirs.
spec fn overlay_in_place(mount: OverlayView) -> bool {
    match mount.phase {
        OverlayPhase::Root { mount: stacked, .. } => stacked_in_place(stacked) && stacked.goal.dest
            == mount.goal.root && stacked.pending() is Ask,
        OverlayPhase::Child { mount: child, .. } => child_in_place(child) && child.pending() is Ask,
        _ => true,
    }
}

proof fn lemma_stacked_step(mount: StackedView, reply: ReplyView)
    requires
        stacked_in_place(mount),
    ensures
        stacked_in_place(mount.resumed(reply)),
        mount.resumed(reply).goal == mount.goal,
        stacked_owes(mount) + effect_made(mount.pending(), reply) == effect_reported(
            mount.pending(),
            reply,
        ) + stacked_owes(mount.resumed(reply)),
{
}

proof fn lemma_child_step(mount: ChildView, reply: ReplyView)
    requires
        child_in_place(mount),
    ensures
        child_in_place(mount.resumed(reply)),
        mount.resumed(reply).goal == mount.goal,
        child_owes(mount) + effect_made(mount.pending(), reply) == effect_reported(
            mount.pending(),
            reply,
        ) + child_owes(mount.resumed(reply)),
{
    if let ChildPhase::Overlay(stacked) = mount.phase {
        lemma_stacked_step(stacked, reply);
    }
}

proof fn lemma_overlay_step(mount: OverlayView, reply: ReplyView)
    requires
        overlay_in_place(mount),
    ensures
        overlay_in_place(mount.resumed(reply)),
        mount.resumed(reply).goal == mount.goal,
        overlay_owes(mount) + effect_made(mount.pending(), reply) == effect_reported(
            mount.pending(),
            reply,
        ) + overlay_owes(mount.resumed(reply)),
{
    match mount.phase {
        OverlayPhase::Root { mount: stacked, .. } => {
            lemma_stacked_step(stacked, reply);
        },
        OverlayPhase::ReportRoot { children } => {
            overlay_laws::lemma_next_child_kind(mount.goal, children, 0);
        },
        OverlayPhase::StockExists { children, next, .. } => {
            overlay_laws::lemma_next_child_kind(mount.goal, children, next as int);
        },
        OverlayPhase::Child { children, next, mount: child } => {
            lemma_child_step(child, reply);
            overlay_laws::lemma_next_child_kind(mount.goal, children, next as int);
        },
        _ => {},
    }
}

/// At every moment a stacked overlay has reported all that it has mounted, in order, but for what
/// it owes.
pub proof fn stacked_overlay_reports_in_order(
    lower_dirs: Seq<Seq<char>>,
    lowest: Seq<char>,
    goal: StackedGoal<Seq<char>>,
    replies: Seq<ReplyView>,
)
    ensures
        ({
            let start = StackedMount::started(lower_dirs, lowest, goal);
            let mount = runs::run(start, replies);
            &&& made(start, replies) == reported(start, replies) + stacked_owes(mount)
            &&& mount.pending() matches Next::Finished(Ok(_)) ==> stacked_owes(mount) == seq![
                EffectView::Target(goal.dest),
            ]
            &&& mount.pending() matches Next::Finished(Err(_)) ==> stacked_owes(mount)
                == Seq::<EffectView>::empty()
        }),
{
    lemma_stacked_run(lower_dirs, lowest, goal, replies);
}

proof fn lemma_stacked_run(
    lower_dirs: Seq<Seq<char>>,
    lowest: Seq<char>,
    goal: StackedGoal<Seq<char>>,
    replies: Seq<ReplyView>,
)
    ensures
        ({
            let start = StackedMount::started(lower_dirs, lowest, goal);
            let mount = runs::run(start, replies);
            &&& stacked_in_place(mount)
            &&& mount.goal == goal
            &&& made(start, replies) == reported(start, replies) + stacked_owes(mount)
        }),
    decreases replies.len(),
{
    let start = StackedMount::started(lower_dirs, lowest, goal);
    if replies.len() > 0 {
        let before = replies.drop_last();
        let mount = runs::run(start, before);
        lemma_stacked_run(lower_dirs, lowest, goal, before);
        lemma_stacked_step(mount, replies.last());
        lemma_in_order(
            reported(start, before),
            stacked_owes(mount),
            effect_made(mount.pending(), replies.last()),
            effect_reported(mount.pending(), replies.last()),
            stacked_owes(runs::run(start, replies)),
        );
    }
}

/// Where a mount and a report keep the books between them, so does the list of all of them.
proof fn lemma_in_order(
    reported: Seq<EffectView>,
    owed: Seq<EffectView>,
    made: Seq<EffectView>,
    report: Seq<EffectView>,
    owes: Seq<EffectView>,
)
    requires
        owed + made == report + owes,
    ensures
        reported + owed + made == reported + report + owes,
{
    assert(reported + owed + made =~= reported + (owed + made));
    assert(reported + report + owes =~= reported + (report + owes));
}

/// At every moment a sub-mount has reported all that it has mounted, in order, but for what it
/// owes, and at its end it owes nothing.
pub proof fn child_reports_what_it_mounts(goal: ChildGoalView, replies: Seq<ReplyView>)
    ensures
        ({
            let start = ChildMount::started(goal);
            let mount = runs::run(start, replies);
            &&& made(start, replies) == reported(start, replies) + child_owes(mount)
            &&& mount.pending() is Finished ==> made(start, replies) == reported(start, replies)
        }),
{
    lemma_child_run(goal, replies);
}

proof fn lemma_child_run(goal: ChildGoalView, replies: Seq<ReplyView>)
    ensures
        ({
            let start = ChildMount::started(goal);
            let mount = runs::run(start, replies);
            &&& child_in_place(mount)
            &&& mount.goal == goal
            &&& made(start, replies) == reported(start, replies) + child_owes(mount)
        }),
    decreases replies.len(),
{
    let start = ChildMount::started(goal);
    if replies.len() > 0 {
        let before = replies.drop_last();
        let mount = runs::run(start, before);
        lemma_child_run(goal, before);
        lemma_child_step(mount, replies.last());
        lemma_in_order(
            reported(start, before),
            child_owes(mount),
            effect_made(mount.pending(), replies.last()),
            effect_reported(mount.pending(), replies.last()),
            child_owes(runs::run(start, replies)),
        );
    }
}

/// Whenever the overlay of a root asks for the previous current directory, or is done, whether it
/// has succeeded or failed, it has reported exactly what it has mounted, in order. At every other
/// moment at most one mount is still to be reported.
pub proof fn overlay_reports_what_it_mounts(goal: OverlayGoalView, replies: Seq<ReplyView>)
    ensures
        ({
            let start = OverlayMount::started(goal);
            let mount = runs::run(start, replies);
            &&& mount.pending() == Next::<Seq<char>>::Ask(Request::RestoreDir) ==> reported(
                start,
                replies,
            ) == made(start, replies)
            &&& mount.pending() is Finished ==> reported(start, replies) == made(start, replies)
            &&& made(start, replies) == reported(start, replies) + overlay_owes(mount)
            &&& overlay_owes(mount).len() <= 1
        }),
{
    lemma_overlay_run(goal, replies);
}

proof fn lemma_overlay_run(goal: OverlayGoalView, replies: Seq<ReplyView>)
    ensures
        ({
            let start = OverlayMount::started(goal);
            let mount = runs::run(start, replies);
            &&& overlay_in_place(mount)
            &&& mount.goal == goal
            &&& made(start, replies) == reported(start, replies) + overlay_owes(mount)
        }),
    decreases replies.len(),
{
    let start = OverlayMount::started(goal);
    if replies.len() > 0 {
        let before = replies.drop_last();
        let mount = runs::run(start, before);
        lemma_overlay_run(goal, before);
        lemma_overlay_step(mount, replies.last());
        lemma_in_order(
            reported(start, before),
            overlay_owes(mount),
            effect_made(mount.pending(), replies.last()),
            effect_reported(mount.pending(), replies.last()),
            overlay_owes(runs::run(start, replies)),
        );
    }
}

proof fn lemma_targets_concat(a: Seq<EffectView>, b: Seq<EffectView>)
    ensures
        targets(a + b) == targets(a) + targets(b),
    decreases b.len(),
{
    if b.len() == 0 {
        assert(a + b =~= a);
    } else {
        lemma_targets_concat(a, b.drop_last());
        assert((a + b).drop_last() =~= a + b.drop_last());
        assert(targets(a + b) =~= targets(a) + targets(b));
    }
}

/// How the targets that are mounted go with the progress of the overlay.
spec fn root_leads(mount: OverlayView, mounted: Seq<Seq<char>>) -> bool {
    let led = mounted.len() > 0 && mounted[0] == mount.goal.root;
    match mount.phase {
        OverlayPhase::ReportRoot { .. } => led,
        OverlayPhase::StockExists { .. } => led,
        OverlayPhase::Child { .. } => led,
        OverlayPhase::Restore(Ok(_)) => led,
        OverlayPhase::Finished(Ok(_)) => led,
        OverlayPhase::Restore(Err(_)) => led || mounted.len() == 0,
        OverlayPhase::Finished(Err(_)) => led || mounted.len() == 0,
        _ => mounted.len() == 0,
    }
}

proof fn lemma_root_leads(goal: OverlayGoalView, replies: Seq<ReplyView>)
    ensures
        ({
            let start = OverlayMount::started(goal);
            root_leads(runs::run(start, replies), targets(made(start, replies)))
        }),
    decreases replies.len(),
{
    let start = OverlayMount::started(goal);
    if replies.len() > 0 {
        let before = replies.drop_last();
        let mount = runs::run(start, before);
        let effects = effect_made(mount.pending(), replies.last());
        lemma_root_leads(goal, before);
        lemma_overlay_run(goal, before);
        lemma_overlay_step(mount, replies.last());
        lemma_targets_concat(made(start, before), effects);
        reveal_with_fuel(targets, 2);
        match mount.phase {
            OverlayPhase::Root { mount: stacked, .. } => {
                lemma_stacked_step(stacked, replies.last());
            },
            OverlayPhase::ReportRoot { children } => {
                overlay_laws::lemma_next_child_kind(goal, children, 0);
            },
            OverlayPhase::StockExists { children, next, .. } => {
                overlay_laws::lemma_next_child_kind(goal, children, next as int);
            },
            OverlayPhase::Child { children, next, .. } => {
                overlay_laws::lemma_next_child_kind(goal, children, next as int);
            },
            _ => {},
        }
    }
}

/// The first target that the overlay of a root reports is the root itself, and it has reported the
/// root wherever it comes to a success.
pub proof fn overlay_reports_the_root_first(goal: OverlayGoalView, replies: Seq<ReplyView>)
    ensures
        ({
            let start = OverlayMount::started(goal);
            let told = targets(reported(start, replies));
            &&& told.len() > 0 ==> told[0] == goal.root
            &&& runs::run(start, replies).pending() matches Next::Finished(Ok(_)) ==> told.len() > 0
        }),
{
    let start = OverlayMount::started(goal);
    lemma_root_leads(goal, replies);
    lemma_overlay_run(goal, replies);
    lemma_targets_concat(
        reported(start, replies),
        overlay_owes(runs::run(start, replies)),
    );
}

} // verus!
