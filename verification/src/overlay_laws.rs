//! What holds of every overlay of a root and its sub-mounts.

use vstd::prelude::*;

use crate::child::{ChildGoal, ChildMount, ChildPhase};
use crate::child_laws;
use crate::error::MountError;
use crate::host::{MountEffect, Next, Reply, ReplyView, Request};
use crate::overlay::{OverlayGoalView, OverlayMount, OverlayPhase, OverlayView};
use crate::paths;
use crate::runs;
use crate::runs::Machine;
use crate::stacked::{StackedGoal, StackedMount};

verus! {

/// The replies of a host up to the point where the root is about to be mounted.
pub open spec fn opening_replies(mounts: Seq<Seq<u8>>) -> Seq<ReplyView> {
    seq![Reply::Outcome(Ok(())), Reply::Outcome(Ok(())), Reply::Mounts(Ok(mounts))]
}

/// The overlay of the root alone, before the host has answered anything about it.
pub open spec fn root_overlay(goal: OverlayGoalView) -> StackedMount<Seq<char>, Seq<Seq<char>>> {
    StackedMount::started(goal.module_roots, goal.root, goal.root_goal())
}

/// An overlay keeps the current directory, goes to the root, reads the mount points there, and then
/// begins to mount the modules over the root.
pub proof fn overlay_opens_with_the_listing(goal: OverlayGoalView, mounts: Seq<Seq<u8>>)
    ensures
        runs::trace(OverlayMount::started(goal), opening_replies(mounts)).take(3) == seq![
            Next::Ask(Request::ReadCurrentDir),
            Next::Ask(Request::ChangeDir(goal.root)),
            Next::Ask(Request::ReadMounts),
        ],
        runs::run(OverlayMount::started(goal), opening_replies(mounts)) == (OverlayMount {
            goal,
            phase: goal.with_root(paths::child_listing(goal.root, mounts), root_overlay(goal)),
        }),
{
    let m0 = OverlayMount::started(goal);
    let r1: ReplyView = Reply::Outcome(Ok(()));
    let r3: ReplyView = Reply::Mounts(Ok(mounts));
    let m1 = m0.resumed(r1);
    let m2 = m1.resumed(r1);
    runs::lemma_run_one(m2, r3);
    runs::lemma_run_first(m1, r1, seq![r3]);
    runs::lemma_run_first(m0, r1, seq![r1] + seq![r3]);
    assert(opening_replies(mounts) =~= seq![r1] + (seq![r1] + seq![r3]));
    assert(runs::trace(m0, opening_replies(mounts)).take(3) =~= seq![
        Next::Ask(Request::ReadCurrentDir),
        Next::Ask(Request::ChangeDir(goal.root)),
        Next::Ask(Request::ReadMounts),
    ]);
}

/// A failure before the root is mounted ends the overlay, with the error that belongs to it.
pub proof fn failed_opening_ends_the_overlay(goal: OverlayGoalView, cause: Seq<char>)
    ensures
        ({
            let failed: ReplyView = Reply::Outcome(Err(cause));
            let worked: ReplyView = Reply::Outcome(Ok(()));
            let start = OverlayMount::started(goal);
            &&& runs::run(start, seq![failed]).pending() == Next::Finished(
                Err(MountError::ReadCurrentDir(cause)),
            )
            &&& runs::run(start, seq![worked] + seq![failed]).pending() == Next::Finished(
                Err(MountError::ChangeDir { path: goal.root, cause }),
            )
            &&& runs::run(
                start,
                seq![worked] + (seq![worked] + seq![Reply::Mounts(Err(cause))]),
            ).phase == OverlayPhase::<Seq<char>, Seq<Seq<char>>>::Restore(
                Err(MountError::Host(cause)),
            )
        }),
{
    let failed: ReplyView = Reply::Outcome(Err(cause));
    let worked: ReplyView = Reply::Outcome(Ok(()));
    let unread: ReplyView = Reply::Mounts(Err(cause));
    let m0 = OverlayMount::started(goal);
    let m1 = m0.resumed(worked);
    let m2 = m1.resumed(worked);
    runs::lemma_run_one(m0, failed);
    runs::lemma_run_one(m1, failed);
    runs::lemma_run_one(m2, unread);
    runs::lemma_run_first(m0, worked, seq![failed]);
    runs::lemma_run_first(m1, worked, seq![unread]);
    runs::lemma_run_first(m0, worked, seq![worked] + seq![unread]);
}

/// Where the overlay of the root fails, no sub-mount is touched, and the error says that the root
/// failed, and why.
pub proof fn failed_root_ends_the_overlay(
    mount: OverlayView,
    reply: ReplyView,
    e: MountError<Seq<char>>,
)
    requires
        mount.phase matches OverlayPhase::Root { mount: root, .. } && root.resumed(reply).pending()
            == Next::Finished(Err(e)),
    ensures
        mount.resumed(reply).phase == OverlayPhase::<Seq<char>, Seq<Seq<char>>>::Restore(
            Err(MountError::RootOverlay(e.text())),
        ),
{
}

/// The first sub-mount that fails ends the overlay, with its own error; what was mounted before
/// stays, for the caller to roll back what was reported.
pub proof fn failed_child_ends_the_overlay(
    mount: OverlayView,
    reply: ReplyView,
    e: MountError<Seq<char>>,
)
    requires
        mount.phase matches OverlayPhase::Child { mount: child, .. } && child.resumed(
            reply,
        ).pending() == Next::Finished(Err(e)),
    ensures
        mount.resumed(reply).phase == OverlayPhase::<Seq<char>, Seq<Seq<char>>>::Restore(Err(e)),
{
}

/// A finished overlay asks for nothing more and keeps its result.
pub proof fn finished_root_is_final(mount: OverlayView, reply: ReplyView)
    requires
        mount.phase is Finished,
    ensures
        mount.resumed(reply) == mount,
{
}

/// Whether an overlay is at a sub-mount of `children`, and if so, at the right one.
pub open spec fn at_listed_child(mount: OverlayView, children: Seq<Seq<char>>) -> bool {
    match mount.phase {
        OverlayPhase::Root { children: list, .. } => list == children,
        OverlayPhase::ReportRoot { children: list } => list == children,
        OverlayPhase::StockExists { children: list, next, mount_point, relative } => {
            &&& list == children
            &&& 1 <= next <= children.len()
            &&& mount_point == children[next - 1]
            &&& paths::relative_path(mount.goal.root, mount_point) == Some(relative)
        },
        OverlayPhase::Child { children: list, next, mount: child } => {
            &&& list == children
            &&& 1 <= next <= children.len()
            &&& child.goal.mount_point == children[next - 1]
            &&& paths::relative_path(mount.goal.root, children[next - 1]) == Some(
                child.goal.relative,
            )
            &&& child.goal == mount.goal.child_goal(child.goal.mount_point, child.goal.relative)
        },
        OverlayPhase::Restore(_) => true,
        OverlayPhase::Finished(_) => true,
        _ => false,
    }
}

proof fn lemma_next_child(goal: OverlayGoalView, children: Seq<Seq<char>>, index: int)
    requires
        0 <= index,
        children.len() <= usize::MAX,
    ensures
        ({
            let phase = goal.next_child(children, index);
            &&& at_listed_child(OverlayMount { goal, phase }, children)
            &&& (phase is StockExists || (phase matches OverlayPhase::Restore(Ok(_))))
            &&& phase matches OverlayPhase::StockExists { next, .. } ==> {
                &&& index < next
                &&& forall|i: int|
                    index <= i < next - 1 ==> paths::relative_path(
                        goal.root,
                        #[trigger] children[i],
                    ) is None
            }
            &&& phase is Restore ==> forall|i: int|
                index <= i < children.len() ==> paths::relative_path(
                    goal.root,
                    #[trigger] children[i],
                ) is None
        }),
    decreases children.len() - index,
{
    if index < children.len() && paths::relative_path(goal.root, children[index]) is None {
        lemma_next_child(goal, children, index + 1);
    }
}

/// The search for the next sub-mount ends at one or with a success.
pub(crate) proof fn lemma_next_child_kind(
    goal: OverlayGoalView,
    children: Seq<Seq<char>>,
    index: int,
)
    ensures
        goal.next_child(children, index) is StockExists || (goal.next_child(
            children,
            index,
        ) matches OverlayPhase::Restore(Ok(_))),
    decreases children.len() - index,
{
    if index < children.len() && paths::relative_path(goal.root, children[index]) is None {
        lemma_next_child_kind(goal, children, index + 1);
    }
}

/// Whatever the host replies, the sub-mounts that an overlay works on are those that the mount
/// points read at the beginning list below the root, each with its own relative path.
pub proof fn overlay_works_on_listed_children(
    goal: OverlayGoalView,
    mounts: Seq<Seq<u8>>,
    replies: Seq<ReplyView>,
)
    requires
        paths::child_listing(goal.root, mounts).len() <= usize::MAX,
    ensures
        ({
            let mount = runs::run(
                OverlayMount::started(goal),
                opening_replies(mounts) + replies,
            );
            &&& mount.goal == goal
            &&& at_listed_child(mount, paths::child_listing(goal.root, mounts))
            &&& mount.phase matches OverlayPhase::StockExists { mount_point, .. }
                ==> paths::is_child_mount(goal.root, mounts, mount_point)
            &&& mount.phase matches OverlayPhase::Child { mount: child, .. }
                ==> paths::is_child_mount(goal.root, mounts, child.goal.mount_point)
        }),
    decreases replies.len(),
{
    let start = OverlayMount::started(goal);
    let children = paths::child_listing(goal.root, mounts);
    let opening = opening_replies(mounts);
    overlay_opens_with_the_listing(goal, mounts);
    if replies.len() == 0 {
        assert(opening + replies =~= opening);
    } else {
        let head = replies.drop_last();
        overlay_works_on_listed_children(goal, mounts, head);
        assert((opening + replies).drop_last() =~= opening + head);
        assert((opening + replies).last() == replies.last());
        let before = runs::run(start, opening + head);
        match before.phase {
            OverlayPhase::ReportRoot { .. } => {
                lemma_next_child(goal, children, 0);
            },
            OverlayPhase::StockExists { next, mount_point, relative, .. } => {
                lemma_next_child(goal, children, next as int);
            },
            OverlayPhase::Child { next, mount: child, .. } => {
                lemma_next_child(goal, children, next as int);
                lemma_child_goal_kept(child, replies.last());
            },
            _ => {},
        }
        let mount = runs::run(start, opening + replies);
        let (list, next) = position(mount);
        if mount.phase is StockExists || mount.phase is Child {
            paths::child_listing_exists(goal.root, mounts);
            assert(children.contains(children[next - 1]));
        }
    }
}

proof fn lemma_child_goal_kept(
    child: ChildMount<Seq<char>, Seq<Seq<char>>>,
    reply: ReplyView,
)
    ensures
        child.resumed(reply).goal == child.goal,
{
}

/// The listing of an overlay that is at its sub-mounts, and how many of them are behind it.
pub open spec fn position(mount: OverlayView) -> (Seq<Seq<char>>, int) {
    match mount.phase {
        OverlayPhase::ReportRoot { children } => (children, 0),
        OverlayPhase::StockExists { children, next, .. } => (children, next as int),
        OverlayPhase::Child { children, next, .. } => (children, next as int),
        _ => (seq![], 0),
    }
}

/// The sub-mounts are rebuilt in the order of the listing, each at most once: an overlay that has
/// come to one of them goes on to a later one only, and passes over those alone that have no
/// relative path.
pub proof fn children_come_in_order(mount: OverlayView, reply: ReplyView)
    requires
        position(mount).0.len() <= usize::MAX,
        mount.phase is ReportRoot || mount.phase is StockExists || mount.phase is Child,
        mount.resumed(reply).phase is StockExists,
        mount.resumed(reply) != mount,
    ensures
        ({
            let (children, at) = position(mount);
            let (list, next) = position(mount.resumed(reply));
            &&& list == children
            &&& at < next
            &&& forall|i: int|
                at <= i < next - 1 ==> paths::relative_path(
                    mount.goal.root,
                    #[trigger] children[i],
                ) is None
        }),
{
    lemma_next_child(mount.goal, position(mount).0, position(mount).1);
}

/// An overlay succeeds only once it has gone through the whole listing: what is left of it then
/// has no relative path.
pub proof fn overlay_succeeds_at_the_end_of_the_listing(mount: OverlayView, reply: ReplyView)
    requires
        position(mount).0.len() <= usize::MAX,
        mount.phase !is Restore,
        mount.resumed(reply).phase matches OverlayPhase::Restore(Ok(_)),
    ensures
        mount.phase is ReportRoot || mount.phase is StockExists || mount.phase is Child,
        forall|i: int|
            position(mount).1 <= i < position(mount).0.len() ==> paths::relative_path(
                mount.goal.root,
                #[trigger] position(mount).0[i],
            ) is None,
{
    lemma_next_child(mount.goal, position(mount).0, position(mount).1);
}

/// An overlay that has gone to the root goes back before it is finished, whatever its result: its
/// last request is for the previous current directory. Only where the current directory could not
/// be read or changed is there nothing to go back from.
pub proof fn overlay_restores_the_current_directory(goal: OverlayGoalView, replies: Seq<ReplyView>)
    requires
        runs::run(OverlayMount::started(goal), replies).phase is Finished,
    ensures
        ({
            let result = runs::run(OverlayMount::started(goal), replies).phase->Finished_0;
            ||| result matches Err(MountError::ReadCurrentDir(_))
            ||| result matches Err(MountError::ChangeDir { .. })
            ||| exists|i: int| #![trigger replies[i]]
                0 <= i < replies.len() && replies[i] is Done && runs::run(
                    OverlayMount::started(goal),
                    replies.take(i),
                ).phase == OverlayPhase::<Seq<char>, Seq<Seq<char>>>::Restore(result)
        }),
    decreases replies.len(),
{
    let start = OverlayMount::started(goal);
    assert(replies.len() > 0);
    let head = replies.drop_last();
    let n = replies.len() - 1;
    let before = runs::run(start, head);
    lemma_next_child_kind(before.goal, position(before).0, position(before).1);
    match before.phase {
        OverlayPhase::Finished(result) => {
            overlay_restores_the_current_directory(goal, head);
            if !(result matches Err(MountError::ReadCurrentDir(_)))
                && !(result matches Err(MountError::ChangeDir { .. })) {
                let i = choose|i: int| #![trigger head[i]]
                    0 <= i < head.len() && head[i] is Done && runs::run(
                        start,
                        head.take(i),
                    ).phase == OverlayPhase::<Seq<char>, Seq<Seq<char>>>::Restore(result);
                assert(replies[i] == head[i]);
                assert(replies.take(i) =~= head.take(i));
            }
        },
        OverlayPhase::Restore(_) => {
            assert(replies.take(n) =~= head);
            assert(replies[n] == replies.last());
        },
        _ => {},
    }
}

/// No sub-mount is touched before the root has been mounted and reported.
pub proof fn children_come_after_the_root(goal: OverlayGoalView, replies: Seq<ReplyView>)
    requires
        ({
            let phase = runs::run(OverlayMount::started(goal), replies).phase;
            phase is StockExists || phase is Child
        }),
    ensures
        exists|i: int| #![trigger replies[i]]
            0 <= i < replies.len() && replies[i] is Done && runs::run(
                OverlayMount::started(goal),
                replies.take(i),
            ).pending() == Next::Ask(Request::Report(MountEffect::Target(goal.root))),
    decreases replies.len(),
{
    let start = OverlayMount::started(goal);
    assert(replies.len() > 0);
    let head = replies.drop_last();
    let n = replies.len() - 1;
    let before = runs::run(start, head);
    lemma_goal_kept(goal, head);
    if before.phase is StockExists || before.phase is Child {
        children_come_after_the_root(goal, head);
        let i = choose|i: int| #![trigger head[i]]
            0 <= i < head.len() && head[i] is Done && runs::run(start, head.take(i)).pending()
                == Next::Ask(Request::Report(MountEffect::Target(goal.root)));
        assert(replies[i] == head[i]);
        assert(replies.take(i) =~= head.take(i));
    } else {
        assert(before.phase is ReportRoot);
        assert(replies.take(n) =~= head);
        assert(replies[n] == replies.last());
    }
}

proof fn lemma_goal_kept(goal: OverlayGoalView, replies: Seq<ReplyView>)
    ensures
        runs::run(OverlayMount::started(goal), replies).goal == goal,
    decreases replies.len(),
{
    if replies.len() > 0 {
        lemma_goal_kept(goal, replies.drop_last());
    }
}

/// Without the wish to register mounts, an overlay registers none.
pub proof fn overlay_registers_only_on_request(goal: OverlayGoalView, replies: Seq<ReplyView>)
    requires
        !goal.register,
    ensures
        !(runs::run(OverlayMount::started(goal), replies).pending() matches Next::Ask(
            Request::SendUnmountable(_),
        )),
{
    lemma_register(goal, replies);
}

proof fn lemma_register(goal: OverlayGoalView, replies: Seq<ReplyView>)
    requires
        !goal.register,
    ensures
        ({
            let mount = runs::run(OverlayMount::started(goal), replies);
            &&& mount.goal == goal
            &&& mount.phase matches OverlayPhase::Child { mount: child, .. }
                ==> !child.goal.register && !(child.phase is Unmountable)
        }),
    decreases replies.len(),
{
    if replies.len() > 0 {
        let before = runs::run(OverlayMount::started(goal), replies.drop_last());
        lemma_register(goal, replies.drop_last());
        lemma_next_child_kind(goal, position(before).0, position(before).1);
    }
}

/// The sub-mounts of a KSU overlay never go through `fsopen`, whatever the host replies, so their
/// source tags stay observable.
pub proof fn ksu_children_never_use_fsopen(goal: OverlayGoalView, replies: Seq<ReplyView>)
    requires
        goal.source == "KSU"@,
        runs::run(OverlayMount::started(goal), replies).phase is Child,
    ensures
        !(runs::run(OverlayMount::started(goal), replies).pending() matches Next::Ask(
            Request::Fsopen { .. },
        )),
{
    lemma_ksu_children(goal, replies);
}

proof fn lemma_ksu_children(goal: OverlayGoalView, replies: Seq<ReplyView>)
    requires
        goal.source == "KSU"@,
    ensures
        ({
            let mount = runs::run(OverlayMount::started(goal), replies);
            &&& mount.goal == goal
            &&& mount.phase matches OverlayPhase::Child { mount: child, .. } ==> {
                &&& child.goal.source == "KSU"@
                &&& child.phase matches ChildPhase::Overlay(overlay)
                    ==> child_laws::is_legacy_bound(overlay)
            }
        }),
    decreases replies.len(),
{
    if replies.len() > 0 {
        let before = runs::run(OverlayMount::started(goal), replies.drop_last());
        lemma_ksu_children(goal, replies.drop_last());
        lemma_next_child_kind(goal, position(before).0, position(before).1);
    }
}

/// The overlay of a root hands its staging root on to all that it mounts.
spec fn hands_on_staging_root(mount: OverlayView) -> bool {
    match mount.phase {
        OverlayPhase::Root { mount: stacked, .. } => stacked.goal.staging_root
            == mount.goal.staging_root,
        OverlayPhase::Child { mount: child, .. } => {
            &&& child.goal.staging_root == mount.goal.staging_root
            &&& child.phase matches ChildPhase::Overlay(stacked) ==> stacked.goal.staging_root
                == mount.goal.staging_root
        },
        _ => true,
    }
}

proof fn lemma_hands_on_staging_root(goal: OverlayGoalView, replies: Seq<ReplyView>)
    ensures
        ({
            let mount = runs::run(OverlayMount::started(goal), replies);
            mount.goal == goal && hands_on_staging_root(mount)
        }),
    decreases replies.len(),
{
    if replies.len() > 0 {
        let before = runs::run(OverlayMount::started(goal), replies.drop_last());
        lemma_hands_on_staging_root(goal, replies.drop_last());
        match before.phase {
            OverlayPhase::ReportRoot { children } => {
                lemma_next_child_kind(goal, children, 0);
            },
            OverlayPhase::StockExists { children, next, .. } => {
                lemma_next_child_kind(goal, children, next as int);
            },
            OverlayPhase::Child { children, next, .. } => {
                lemma_next_child_kind(goal, children, next as int);
            },
            _ => {},
        }
    }
}

/// Every staging directory, of the root and of each sub-mount, is asked for below the staging root
/// that the overlay was given.
pub proof fn overlay_stages_below_its_staging_root(goal: OverlayGoalView, replies: Seq<ReplyView>)
    ensures
        runs::run(OverlayMount::started(goal), replies).pending() matches Next::Ask(
            Request::CreateStagingDir { root },
        ) ==> root == goal.staging_root,
{
    lemma_hands_on_staging_root(goal, replies);
}

/// Once the mount points are read, the overlay of a root is the stacked overlay of its module roots,
/// in order, over the root itself, at the root, with the upper and work directory, the staging root
/// and the source that it was given: it makes the same requests. Where that fails, the overlay goes
/// back to the previous directory and says that the root failed, and why. Where it succeeds, the root
/// is reported.
pub proof fn root_is_a_stacked_overlay(
    goal: OverlayGoalView,
    mounts: Seq<Seq<u8>>,
    replies: Seq<ReplyView>,
)
    requires
        runs::awaits(
            StackedMount::started(
                goal.module_roots,
                goal.root,
                (StackedGoal {
                    upper: goal.upper,
                    work: goal.work,
                    dest: goal.root,
                    staging_root: goal.staging_root,
                    source: goal.source,
                }),
            ),
            replies,
        ),
    ensures
        ({
            let root = runs::run(
                StackedMount::started(
                    goal.module_roots,
                    goal.root,
                    StackedGoal {
                        upper: goal.upper,
                        work: goal.work,
                        dest: goal.root,
                        staging_root: goal.staging_root,
                        source: goal.source,
                    },
                ),
                replies,
            );
            let overlay = runs::run(
                OverlayMount::started(goal),
                opening_replies(mounts) + replies,
            );
            match root.pending() {
                Next::Ask(request) => overlay.pending() == Next::Ask(request),
                Next::Finished(Err(e)) => {
                    &&& overlay.pending() == Next::<Seq<char>>::Ask(Request::RestoreDir)
                    &&& overlay.resumed(Reply::Done).pending() == Next::<Seq<char>>::Finished(
                        Err(MountError::RootOverlay(e.text())),
                    )
                },
                Next::Finished(Ok(_)) => {
                    &&& overlay.pending() == Next::Ask(
                        Request::Report(MountEffect::Target(goal.root)),
                    )
                    &&& overlay.goal == goal
                    &&& position(overlay) == (paths::child_listing(goal.root, mounts), 0int)
                    &&& overlay.phase is ReportRoot
                },
            }
        }),
{
    lemma_root_run(goal, mounts, replies);
}

proof fn lemma_root_run(goal: OverlayGoalView, mounts: Seq<Seq<u8>>, replies: Seq<ReplyView>)
    requires
        runs::awaits(
            StackedMount::started(
                goal.module_roots,
                goal.root,
                (StackedGoal {
                    upper: goal.upper,
                    work: goal.work,
                    dest: goal.root,
                    staging_root: goal.staging_root,
                    source: goal.source,
                }),
            ),
            replies,
        ),
    ensures
        runs::run(OverlayMount::started(goal), opening_replies(mounts) + replies)
            == (OverlayMount {
            goal,
            phase: goal.with_root(
                paths::child_listing(goal.root, mounts),
                runs::run(
                    StackedMount::started(
                        goal.module_roots,
                        goal.root,
                        StackedGoal {
                            upper: goal.upper,
                            work: goal.work,
                            dest: goal.root,
                            staging_root: goal.staging_root,
                            source: goal.source,
                        },
                    ),
                    replies,
                ),
            ),
        }),
    decreases replies.len(),
{
    let opening = opening_replies(mounts);
    if replies.len() == 0 {
        assert(opening + replies =~= opening);
        overlay_opens_with_the_listing(goal, mounts);
    } else {
        let head = replies.drop_last();
        runs::lemma_awaits_head(
            StackedMount::started(
                goal.module_roots,
                goal.root,
                StackedGoal {
                    upper: goal.upper,
                    work: goal.work,
                    dest: goal.root,
                    staging_root: goal.staging_root,
                    source: goal.source,
                },
            ),
            replies,
        );
        lemma_root_run(goal, mounts, head);
        assert((opening + replies).drop_last() =~= opening + head);
        assert((opening + replies).last() == replies.last());
    }
}

/// After the root, and after each sub-mount that cannot be reached, the overlay comes to the next
/// sub-mount of the listing that has a relative path, and asks whether that path below the previous
/// root can be reached. Where no such sub-mount is left, it goes back to the previous directory and
/// has succeeded.
pub proof fn overlay_goes_through_the_listing(mount: OverlayView)
    requires
        mount.phase is ReportRoot || mount.phase is StockExists,
        position(mount).0.len() <= usize::MAX,
    ensures
        ({
            let (children, at) = position(mount);
            let after = mount.resumed(
                if mount.phase is ReportRoot {
                    Reply::Done
                } else {
                    Reply::Flag(false)
                },
            );
            match after.phase {
                OverlayPhase::StockExists { children: list, next, mount_point, relative } => {
                    &&& list == children
                    &&& at < next <= children.len()
                    &&& mount_point == children[next - 1]
                    &&& paths::relative_path(mount.goal.root, mount_point) == Some(relative)
                    &&& forall|i: int|
                        at <= i < next - 1 ==> paths::relative_path(
                            mount.goal.root,
                            #[trigger] children[i],
                        ) is None
                    &&& after.goal == mount.goal
                    &&& after.pending() == Next::Ask(Request::Exists("."@ + relative))
                },
                _ => {
                    &&& forall|i: int|
                        at <= i < children.len() ==> paths::relative_path(
                            mount.goal.root,
                            #[trigger] children[i],
                        ) is None
                    &&& after.pending() == Next::<Seq<char>>::Ask(Request::RestoreDir)
                    &&& after.resumed(Reply::Done).pending() matches Next::Finished(Ok(_))
                },
            }
        }),
{
    let (children, at) = position(mount);
    lemma_next_child(mount.goal, children, at);
}

/// A sub-mount that can be reached is rebuilt as `mount_overlay_child` rebuilds it, out of the mount
/// point, its relative path, all module roots in the order in which they were given, the relative
/// path below the previous root as its contents, and the staging root, the source and the wish to
/// register that the overlay was given: the overlay makes the same requests. Where that fails, it
/// goes back to the previous directory and fails with the same error. Where it succeeds, the overlay
/// goes on exactly as past a sub-mount that cannot be reached.
pub proof fn reached_child_is_rebuilt(
    mount: OverlayView,
    mount_point: Seq<char>,
    relative: Seq<char>,
    replies: Seq<ReplyView>,
)
    requires
        mount.phase matches OverlayPhase::StockExists { mount_point: p, relative: r, .. } && p
            == mount_point && r == relative,
        runs::awaits(
            ChildMount::started(
                (ChildGoal {
                    mount_point,
                    relative,
                    module_roots: mount.goal.module_roots,
                    stock_root: "."@ + relative,
                    staging_root: mount.goal.staging_root,
                    source: mount.goal.source,
                    register: mount.goal.register,
                }),
            ),
            replies,
        ),
    ensures
        ({
            let child = runs::run(
                ChildMount::started(
                    ChildGoal {
                        mount_point,
                        relative,
                        module_roots: mount.goal.module_roots,
                        stock_root: "."@ + relative,
                        staging_root: mount.goal.staging_root,
                        source: mount.goal.source,
                        register: mount.goal.register,
                    },
                ),
                replies,
            );
            let overlay = runs::run(mount, seq![Reply::Flag(true)] + replies);
            match child.pending() {
                Next::Ask(request) => overlay.pending() == Next::Ask(request),
                Next::Finished(Err(e)) => {
                    &&& overlay.pending() == Next::<Seq<char>>::Ask(Request::RestoreDir)
                    &&& overlay.resumed(Reply::Done).pending() == Next::Finished(Err(e))
                },
                Next::Finished(Ok(_)) => overlay == mount.resumed(Reply::Flag(false)),
            }
        }),
{
    lemma_child_run(mount, mount_point, relative, replies);
}

proof fn lemma_child_run(
    mount: OverlayView,
    mount_point: Seq<char>,
    relative: Seq<char>,
    replies: Seq<ReplyView>,
)
    requires
        mount.phase matches OverlayPhase::StockExists { mount_point: p, relative: r, .. } && p
            == mount_point && r == relative,
        runs::awaits(
            ChildMount::started(
                (ChildGoal {
                    mount_point,
                    relative,
                    module_roots: mount.goal.module_roots,
                    stock_root: "."@ + relative,
                    staging_root: mount.goal.staging_root,
                    source: mount.goal.source,
                    register: mount.goal.register,
                }),
            ),
            replies,
        ),
    ensures
        mount.phase matches OverlayPhase::StockExists { children, next, .. } ==> runs::run(
            mount,
            seq![Reply::Flag(true)] + replies,
        ) == (OverlayMount {
            goal: mount.goal,
            phase: mount.goal.with_child(
                children,
                next,
                runs::run(
                    ChildMount::started(
                        ChildGoal {
                            mount_point,
                            relative,
                            module_roots: mount.goal.module_roots,
                            stock_root: "."@ + relative,
                            staging_root: mount.goal.staging_root,
                            source: mount.goal.source,
                            register: mount.goal.register,
                        },
                    ),
                    replies,
                ),
            ),
        }),
    decreases replies.len(),
{
    let first: Seq<ReplyView> = seq![Reply::Flag(true)];
    if replies.len() == 0 {
        assert(first + replies =~= first);
        runs::lemma_run_one(mount, Reply::Flag(true));
    } else {
        let head = replies.drop_last();
        runs::lemma_awaits_head(
            ChildMount::started(
                ChildGoal {
                    mount_point,
                    relative,
                    module_roots: mount.goal.module_roots,
                    stock_root: "."@ + relative,
                    staging_root: mount.goal.staging_root,
                    source: mount.goal.source,
                    register: mount.goal.register,
                },
            ),
            replies,
        );
        lemma_child_run(mount, mount_point, relative, head);
        assert((first + replies).drop_last() =~= first + head);
        assert((first + replies).last() == replies.last());
    }
}

/// Whatever the host replies, each sub-mount that the overlay of a root works on has all the module
/// roots that the overlay was given, in the same order, and its source, its staging root and its
/// wish to register; its contents are looked for at its relative path below the previous root.
pub proof fn children_have_the_modules_of_the_root(goal: OverlayGoalView, replies: Seq<ReplyView>)
    ensures
        runs::run(OverlayMount::started(goal), replies).phase matches OverlayPhase::Child {
            mount: child,
            ..
        } ==> {
            &&& child.goal.module_roots == goal.module_roots
            &&& child.goal.source == goal.source
            &&& child.goal.staging_root == goal.staging_root
            &&& child.goal.register == goal.register
            &&& child.goal.stock_root == "."@ + child.goal.relative
            &&& paths::relative_path(goal.root, child.goal.mount_point) == Some(child.goal.relative)
        },
{
    lemma_child_fields(goal, replies);
}

proof fn lemma_next_relative(goal: OverlayGoalView, children: Seq<Seq<char>>, index: int)
    ensures
        goal.next_child(children, index) matches OverlayPhase::StockExists {
            mount_point,
            relative,
            ..
        } ==> paths::relative_path(goal.root, mount_point) == Some(relative),
    decreases children.len() - index,
{
    if index < children.len() && paths::relative_path(goal.root, children[index]) is None {
        lemma_next_relative(goal, children, index + 1);
    }
}

proof fn lemma_child_fields(goal: OverlayGoalView, replies: Seq<ReplyView>)
    ensures
        ({
            let mount = runs::run(OverlayMount::started(goal), replies);
            &&& mount.goal == goal
            &&& mount.phase matches OverlayPhase::StockExists { mount_point, relative, .. }
                ==> paths::relative_path(goal.root, mount_point) == Some(relative)
            &&& mount.phase matches OverlayPhase::Child { mount: child, .. } ==> {
                &&& child.goal.module_roots == goal.module_roots
                &&& child.goal.source == goal.source
                &&& child.goal.staging_root == goal.staging_root
                &&& child.goal.register == goal.register
                &&& child.goal.stock_root == "."@ + child.goal.relative
                &&& paths::relative_path(goal.root, child.goal.mount_point) == Some(
                    child.goal.relative,
                )
            }
        }),
    decreases replies.len(),
{
    if replies.len() > 0 {
        let before = runs::run(OverlayMount::started(goal), replies.drop_last());
        lemma_child_fields(goal, replies.drop_last());
        lemma_next_child_kind(goal, position(before).0, position(before).1);
        lemma_next_relative(goal, position(before).0, position(before).1);
        if let OverlayPhase::Child { mount: child, .. } = before.phase {
            lemma_child_goal_kept(child, replies.last());
        }
    }
}

/// Whether the overlay of a root has asked whether this path can be reached.
pub open spec fn has_asked_for(
    goal: OverlayGoalView,
    replies: Seq<ReplyView>,
    path: Seq<char>,
) -> bool {
    exists|i: int| #![trigger replies[i]]
        0 <= i < replies.len() && (replies[i] is Flag) && runs::run(
            OverlayMount::started(goal),
            replies.take(i),
        ).phase is StockExists && runs::run(
            OverlayMount::started(goal),
            replies.take(i),
        ).pending() == Next::Ask(Request::Exists(path))
}

proof fn lemma_asked_before(goal: OverlayGoalView, replies: Seq<ReplyView>, path: Seq<char>)
    requires
        replies.len() > 0,
        has_asked_for(goal, replies.drop_last(), path),
    ensures
        has_asked_for(goal, replies, path),
{
    let head = replies.drop_last();
    let start = OverlayMount::started(goal);
    let i = choose|i: int| #![trigger head[i]]
        0 <= i < head.len() && (head[i] is Flag) && runs::run(
            start,
            head.take(i),
        ).phase is StockExists && runs::run(start, head.take(i)).pending() == Next::Ask(
            Request::Exists(path),
        );
    assert(replies[i] == head[i]);
    assert(replies.take(i) =~= head.take(i));
}

/// How many sub-mounts of a listing an overlay has dealt with, the one at hand not among them.
spec fn dealt_with(mount: OverlayView, count: int) -> int {
    match mount.phase {
        OverlayPhase::StockExists { next, .. } => next - 1,
        OverlayPhase::Child { next, .. } => next as int,
        OverlayPhase::Restore(Ok(_)) => count,
        OverlayPhase::Finished(Ok(_)) => count,
        _ => 0,
    }
}

/// An overlay that comes to a success has asked about every mount point of the listing that has a
/// relative path whether it can be reached: it has passed over none.
pub proof fn successful_overlay_has_passed_over_none(
    goal: OverlayGoalView,
    mounts: Seq<Seq<u8>>,
    replies: Seq<ReplyView>,
    point: Seq<char>,
)
    requires
        paths::child_listing(goal.root, mounts).len() <= usize::MAX,
        paths::child_listing(goal.root, mounts).contains(point),
        paths::relative_path(goal.root, point) is Some,
        runs::run(
            OverlayMount::started(goal),
            opening_replies(mounts) + replies,
        ).pending() matches Next::Finished(Ok(_)),
    ensures
        has_asked_for(
            goal,
            opening_replies(mounts) + replies,
            "."@ + paths::relative_path(goal.root, point)->0,
        ),
{
    let children = paths::child_listing(goal.root, mounts);
    overlay_works_on_listed_children(goal, mounts, replies);
    lemma_passed_over_none(goal, mounts, replies);
    let k = choose|k: int| 0 <= k < children.len() && children[k] == point;
    lemma_only_finished(goal, opening_replies(mounts) + replies);
}

proof fn lemma_only_finished(goal: OverlayGoalView, replies: Seq<ReplyView>)
    ensures
        ({
            let mount = runs::run(OverlayMount::started(goal), replies);
            mount.pending() is Finished ==> mount.phase is Finished
        }),
    decreases replies.len(),
{
    if replies.len() > 0 {
        let before = runs::run(OverlayMount::started(goal), replies.drop_last());
        lemma_only_finished(goal, replies.drop_last());
        lemma_next_child_kind(before.goal, position(before).0, position(before).1);
    }
}

proof fn lemma_passed_over_none(
    goal: OverlayGoalView,
    mounts: Seq<Seq<u8>>,
    replies: Seq<ReplyView>,
)
    requires
        paths::child_listing(goal.root, mounts).len() <= usize::MAX,
    ensures
        ({
            let children = paths::child_listing(goal.root, mounts);
            let all = opening_replies(mounts) + replies;
            let mount = runs::run(OverlayMount::started(goal), all);
            forall|j: int|
                0 <= j < dealt_with(mount, children.len() as int) && paths::relative_path(
                    goal.root,
                    #[trigger] children[j],
                ) is Some ==> has_asked_for(
                    goal,
                    all,
                    "."@ + paths::relative_path(goal.root, children[j])->0,
                )
        }),
    decreases replies.len(),
{
    let children = paths::child_listing(goal.root, mounts);
    let count = children.len() as int;
    let opening = opening_replies(mounts);
    let start = OverlayMount::started(goal);
    if replies.len() == 0 {
        assert(opening + replies =~= opening);
        overlay_opens_with_the_listing(goal, mounts);
    } else {
        let head = replies.drop_last();
        let all = opening + replies;
        let reply = replies.last();
        assert(all.drop_last() =~= opening + head);
        assert(all.last() == reply);
        let before = runs::run(start, opening + head);
        let after = runs::run(start, all);
        lemma_passed_over_none(goal, mounts, head);
        overlay_works_on_listed_children(goal, mounts, head);
        overlay_works_on_listed_children(goal, mounts, replies);
        let n = all.len() - 1;
        assert(all.take(n) =~= opening + head);
        assert(all[n] == reply);
        assert forall|j: int|
            0 <= j < dealt_with(after, count) && paths::relative_path(
                goal.root,
                #[trigger] children[j],
            ) is Some implies has_asked_for(
            goal,
            all,
            "."@ + paths::relative_path(goal.root, children[j])->0,
        ) by {
            let path = "."@ + paths::relative_path(goal.root, children[j])->0;
            if j < dealt_with(before, count) {
                lemma_asked_before(goal, all, path);
            } else {
                match before.phase {
                    OverlayPhase::ReportRoot { .. } => {
                        lemma_next_child(goal, children, 0);
                    },
                    OverlayPhase::StockExists { next, .. } => {
                        lemma_next_child(goal, children, next as int);
                        if j == next - 1 {
                            assert(before.pending() == Next::Ask(Request::Exists(path)));
                            assert(reply is Flag);
                        }
                    },
                    OverlayPhase::Child { next, .. } => {
                        lemma_next_child(goal, children, next as int);
                    },
                    _ => {},
                }
            }
        }
    }
}

/// An overlay that has come to a result, whichever, asks for the previous directory and then tells
/// that result; where the mount points could not be read, that is the error of the host.
pub proof fn overlay_tells_its_result_after_going_back(
    goal: OverlayGoalView,
    mount: OverlayView,
    r: Result<(), MountError<Seq<char>>>,
    cause: Seq<char>,
)
    requires
        mount.phase == OverlayPhase::<Seq<char>, Seq<Seq<char>>>::Restore(r),
    ensures
        mount.pending() == Next::<Seq<char>>::Ask(Request::RestoreDir),
        mount.resumed(Reply::Done).pending() == Next::Finished(r),
        ({
            let worked: ReplyView = Reply::Outcome(Ok(()));
            let unread = runs::run(
                OverlayMount::started(goal),
                seq![worked] + (seq![worked] + seq![Reply::Mounts(Err(cause))]),
            );
            &&& unread.pending() == Next::<Seq<char>>::Ask(Request::RestoreDir)
            &&& unread.resumed(Reply::Done).pending() == Next::<Seq<char>>::Finished(
                Err(MountError::Host(cause)),
            )
        }),
{
    failed_opening_ends_the_overlay(goal, cause);
}

} // verus!
