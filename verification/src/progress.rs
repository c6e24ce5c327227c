//! Why every operation comes to an end: each reply that a machine takes brings it closer.

use vstd::prelude::*;

use crate::bind::{BindMount, BindPhase};
use crate::child::{ChildGoalView, ChildMount, ChildPhase, ChildPhaseView, ChildView};
use crate::cleanup::{CleanupPhase, StagingCleanup};
use crate::core_mount::{CoreMount, CorePhase};
use crate::host::ReplyView;
use crate::layers;
use crate::layers::MAX_LAYERS;
use crate::overlay::{OverlayGoalView, OverlayPhase, OverlayPhaseView, OverlayView};
use crate::paths;
use crate::runs::Machine;
use crate::stacked::{StackedGoal, StackedPhase, StackedView};

verus! {

/// How many replies a single mount can at most still take.
pub open spec fn core_rank(mount: CoreMount<Seq<char>>) -> int {
    match mount.phase {
        CorePhase::Upper { .. } => 4,
        CorePhase::Work(_) => 3,
        CorePhase::Fsopen => 2,
        CorePhase::Legacy => 1,
        CorePhase::Finished(_) => 0,
    }
}

/// Each reply that a single mount takes brings it closer to its end.
pub proof fn core_mount_comes_to_an_end(mount: CoreMount<Seq<char>>, reply: ReplyView)
    ensures
        0 <= core_rank(mount) <= 4,
        mount.resumed(reply) == mount || core_rank(mount.resumed(reply)) < core_rank(mount),
{
}

/// How many replies a bind mount can at most still take.
pub open spec fn bind_rank(mount: BindMount<Seq<char>>) -> int {
    match mount.phase {
        BindPhase::OpenTree => 3,
        BindPhase::MoveMount => 2,
        BindPhase::Mount => 1,
        BindPhase::Finished(_) => 0,
    }
}

/// Each reply that a bind mount takes brings it closer to its end.
pub proof fn bind_mount_comes_to_an_end(mount: BindMount<Seq<char>>, reply: ReplyView)
    ensures
        0 <= bind_rank(mount) <= 3,
        mount.resumed(reply) == mount || bind_rank(mount.resumed(reply)) < bind_rank(mount),
{
}

/// How many replies a cleanup can at most still take.
pub open spec fn cleanup_rank(cleanup: StagingCleanup<Seq<char>>) -> int {
    match cleanup.phase {
        CleanupPhase::Probe => 5,
        CleanupPhase::Detach => 4,
        CleanupPhase::Recheck => 3,
        CleanupPhase::Fault => 2,
        CleanupPhase::Remove => 1,
        CleanupPhase::Finished(_) => 0,
    }
}

/// Each reply that a cleanup takes brings it closer to its end.
pub proof fn cleanup_comes_to_an_end(cleanup: StagingCleanup<Seq<char>>, reply: ReplyView)
    ensures
        0 <= cleanup_rank(cleanup) <= 5,
        cleanup.resumed(reply) == cleanup || cleanup_rank(cleanup.resumed(reply)) < cleanup_rank(
            cleanup,
        ),
{
}

/// A bound on the replies that a stacked overlay of `count` layers can take.
pub open spec fn stacked_bound(count: nat) -> int {
    5 * (layers::staging_steps(count) as int) + 4
}

/// A bound on the replies that a stacked overlay can still take.
pub open spec fn stacked_rank(mount: StackedView) -> int {
    let later = stacked_bound(mount.layers.len() + 1);
    match mount.phase {
        StackedPhase::CreateDir { .. } => later + 5,
        StackedPhase::Staging { mount: staging, .. } => later + 2 + core_rank(staging),
        StackedPhase::Report { .. } => later + 1,
        StackedPhase::Last(last) => core_rank(last),
        StackedPhase::Failed(_) => 0,
    }
}

/// Each reply that a stacked overlay takes brings it closer to its end.
pub proof fn stacked_overlay_comes_to_an_end(mount: StackedView, reply: ReplyView)
    ensures
        0 <= stacked_rank(mount),
        mount.resumed(reply) == mount || stacked_rank(mount.resumed(reply)) < stacked_rank(mount),
{
    match mount.phase {
        StackedPhase::Staging { mount: staging, .. } => {
            core_mount_comes_to_an_end(staging, reply);
        },
        StackedPhase::Last(last) => {
            core_mount_comes_to_an_end(last, reply);
        },
        StackedPhase::Report { dir } => {
            let more = mount.layers.push(dir);
            lemma_stacked_start(mount.goal, more);
        },
        _ => {},
    }
}

proof fn lemma_stacked_start(
    goal: StackedGoal<Seq<char>>,
    all: Seq<Seq<char>>,
)
    ensures
        stacked_rank(goal.with_layers(all)) <= stacked_bound(all.len()),
{
    if all.len() > MAX_LAYERS {
        assert(layers::staging_steps(all.len()) == 1 + layers::staging_steps(
            (layers::split_index(all.len()) + 1) as nat,
        ));
    }
}

/// Fewer layers never take more staging steps.
proof fn lemma_steps_monotonic(a: nat, b: nat)
    requires
        a <= b,
    ensures
        layers::staging_steps(a) <= layers::staging_steps(b),
    decreases b,
{
    if a > MAX_LAYERS {
        lemma_steps_monotonic(
            (layers::split_index(a) + 1) as nat,
            (layers::split_index(b) + 1) as nat,
        );
    }
}

/// How many modules come from `next` on.
pub open spec fn modules_left(goal: ChildGoalView, next: usize) -> int {
    if next <= goal.module_roots.len() {
        goal.module_roots.len() - next
    } else {
        0
    }
}

/// A bound on the replies that the rebuilding of a sub-mount can still take.
pub open spec fn child_rank(goal: ChildGoalView, phase: ChildPhaseView) -> int {
    let count = goal.module_roots.len() as int;
    match phase {
        ChildPhase::AnyExists { next, .. } => modules_left(goal, next) + 2 * count + 6
            + stacked_bound((count + 1) as nat),
        ChildPhase::StockIsDir => 2 * count + 5 + stacked_bound((count + 1) as nat),
        ChildPhase::LowerIsDir { next, found, .. } => 2 * modules_left(goal, next) + 6
            + stacked_bound((found.len() + modules_left(goal, next) + 2) as nat),
        ChildPhase::LowerExists { next, found, .. } => 2 * modules_left(goal, next) + 5
            + stacked_bound((found.len() + modules_left(goal, next) + 2) as nat),
        ChildPhase::Binding(mount) => 3 + bind_rank(mount),
        ChildPhase::Overlay(mount) => 3 + stacked_rank(mount),
        ChildPhase::Unmountable => 2,
        ChildPhase::Report => 1,
        ChildPhase::Finished(_) => 0,
    }
}

/// A bound on the replies that the rebuilding of a sub-mount can take.
pub open spec fn child_bound(goal: ChildGoalView) -> int {
    let count = goal.module_roots.len() as int;
    3 * count + 6 + stacked_bound((count + 1) as nat)
}

proof fn lemma_collect_rank(goal: ChildGoalView, next: usize, found: Seq<Seq<char>>)
    requires
        goal.module_roots.len() <= usize::MAX,
    ensures
        child_rank(goal, goal.collect(next as int, found)) <= 2 * modules_left(goal, next) + 4
            + stacked_bound((found.len() + modules_left(goal, next) + 1) as nat),
{
    if next < goal.module_roots.len() {
    } else if found.len() > 0 {
        lemma_stacked_start(goal.overlay_goal(), found.push(goal.stock_root));
    }
}

/// Each reply that the rebuilding of a sub-mount takes brings it closer to its end.
pub proof fn child_mount_comes_to_an_end(mount: ChildView, reply: ReplyView)
    requires
        mount.goal.module_roots.len() <= usize::MAX,
    ensures
        0 <= child_rank(mount.goal, mount.phase),
        mount.resumed(reply) == mount || child_rank(mount.goal, mount.resumed(reply).phase)
            < child_rank(mount.goal, mount.phase),
{
    let goal = mount.goal;
    match mount.phase {
        ChildPhase::AnyExists { next, .. } => {},
        ChildPhase::Binding(bind) => {
            bind_mount_comes_to_an_end(bind, reply);
        },
        ChildPhase::StockIsDir => {
            lemma_collect_rank(goal, 0, seq![]);
        },
        ChildPhase::LowerIsDir { dir, next, found } => {
            lemma_collect_rank(goal, next, found.push(dir));
        },
        ChildPhase::LowerExists { next, found, .. } => {
            lemma_collect_rank(goal, next, found);
            let left = modules_left(goal, next);
            lemma_steps_monotonic(
                (found.len() + left + 1) as nat,
                (found.len() + left + 2) as nat,
            );
        },
        ChildPhase::Overlay(overlay) => {
            stacked_overlay_comes_to_an_end(overlay, reply);
        },
        _ => {},
    }
}

/// A bound on the replies between two sub-mounts of a listing.
pub open spec fn child_cost(goal: OverlayGoalView) -> int {
    child_bound(goal.child_goal(seq![], seq![])) + 3
}

/// How many sub-mounts of a listing come from `next` on.
pub open spec fn children_left(children: Seq<Seq<char>>, next: usize) -> int {
    if next <= children.len() {
        children.len() - next
    } else {
        0
    }
}

/// A bound on the replies that an overlay which has its listing can still take.
pub open spec fn overlay_rank(goal: OverlayGoalView, phase: OverlayPhaseView) -> int {
    let cost = child_cost(goal);
    match phase {
        OverlayPhase::Root { children, mount } => 3 + children.len() * cost + stacked_rank(mount),
        OverlayPhase::ReportRoot { children } => 2 + children.len() * cost,
        OverlayPhase::StockExists { children, next, .. } => children_left(children, next) * cost
            + cost,
        OverlayPhase::Child { children, next, mount } => children_left(children, next) * cost + 2
            + child_rank(mount.goal, mount.phase),
        OverlayPhase::Restore(_) => 1,
        _ => 0,
    }
}

/// How many steps an overlay is away from its listing.
pub open spec fn opening_rank(phase: OverlayPhaseView) -> int {
    match phase {
        OverlayPhase::ReadCurrentDir => 3,
        OverlayPhase::ChangeDir => 2,
        OverlayPhase::ReadMounts => 1,
        _ => 0,
    }
}

/// The listing of an overlay that has one.
pub open spec fn listing_of(phase: OverlayPhaseView) -> Seq<Seq<char>> {
    match phase {
        OverlayPhase::Root { children, .. } => children,
        OverlayPhase::ReportRoot { children } => children,
        OverlayPhase::StockExists { children, .. } => children,
        OverlayPhase::Child { children, .. } => children,
        _ => seq![],
    }
}

proof fn lemma_next_child_rank(goal: OverlayGoalView, children: Seq<Seq<char>>, index: int)
    requires
        0 <= index,
        children.len() <= usize::MAX,
        0 < child_cost(goal),
    ensures
        overlay_rank(goal, goal.next_child(children, index)) <= (if index < children.len() {
            (children.len() - index) * child_cost(goal)
        } else {
            0
        }) + 1,
        goal.next_child(children, index) is StockExists ==> overlay_rank(
            goal,
            goal.next_child(children, index),
        ) <= (children.len() - index) * child_cost(goal),
        goal.next_child(children, index) is StockExists || goal.next_child(
            children,
            index,
        ) is Restore,
    decreases children.len() - index,
{
    let cost = child_cost(goal);
    if index < children.len() {
        let left = children.len() - index;
        assert((left - 1) * cost + cost == left * cost) by (nonlinear_arith);
        assert(left * cost >= 0) by (nonlinear_arith)
            requires
                left > 0,
                cost > 0,
        ;
        if paths::relative_path(goal.root, children[index]) is None {
            lemma_next_child_rank(goal, children, index + 1);
        }
    }
}

/// Each reply that an overlay takes brings it closer to its end: before it has its listing, one
/// step closer to that, and from then on, by the rank.
pub proof fn overlay_comes_to_an_end(mount: OverlayView, reply: ReplyView)
    requires
        mount.goal.module_roots.len() <= usize::MAX,
        listing_of(mount.phase).len() <= usize::MAX,
        mount.phase matches OverlayPhase::Child { mount: child, .. }
            ==> child.goal.module_roots.len() <= usize::MAX,
    ensures
        0 <= overlay_rank(mount.goal, mount.phase),
        mount.resumed(reply) == mount || opening_rank(mount.resumed(reply).phase) < opening_rank(
            mount.phase,
        ) || (opening_rank(mount.phase) == 0 && overlay_rank(
            mount.goal,
            mount.resumed(reply).phase,
        ) < overlay_rank(mount.goal, mount.phase)),
{
    let goal = mount.goal;
    let cost = child_cost(goal);
    let children = listing_of(mount.phase);
    assert(cost > 1);
    assert(children.len() * cost >= 0) by (nonlinear_arith)
        requires
            cost > 0,
    ;
    match mount.phase {
        OverlayPhase::Root { mount: root, .. } => {
            stacked_overlay_comes_to_an_end(root, reply);
        },
        OverlayPhase::ReportRoot { .. } => {
            lemma_next_child_rank(goal, children, 0);
        },
        OverlayPhase::StockExists { next, mount_point, relative, .. } => {
            let left = children_left(children, next);
            assert(left * cost >= 0) by (nonlinear_arith)
                requires
                    left >= 0,
                    cost > 0,
            ;
            lemma_next_child_rank(goal, children, next as int);
            let child = ChildMount::started(goal.child_goal(mount_point, relative));
            assert(child_rank(child.goal, child.phase) <= child_bound(child.goal));
            child_mount_comes_to_an_end(child, reply);
        },
        OverlayPhase::Child { next, mount: child, .. } => {
            let left = children_left(children, next);
            assert(left * cost >= 0) by (nonlinear_arith)
                requires
                    left >= 0,
                    cost > 0,
            ;
            lemma_next_child_rank(goal, children, next as int);
            child_mount_comes_to_an_end(child, reply);
        },
        _ => {},
    }
}

} // verus!
