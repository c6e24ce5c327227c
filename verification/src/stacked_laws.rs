//! What holds of every stacked overlay, whatever the host replies.

use vstd::prelude::*;

use crate::core_mount;
use crate::core_mount::{CoreMount, CorePlan};
use crate::error::MountError;
use crate::host::{MountEffect, Next, Place, Reply, ReplyView, Request};
use crate::layers;
use crate::layers::MAX_LAYERS;
use crate::runs;
use crate::runs::Machine;
use crate::stacked::{StackedGoal, StackedMount, StackedPhase, StackedView};

verus! {

/// The staging directories that were reported on the way, in order.
pub open spec fn reported_dirs(mount: StackedView, replies: Seq<ReplyView>) -> Seq<Seq<char>>
    decreases replies.len(),
{
    if replies.len() == 0 {
        seq![]
    } else {
        let before = reported_dirs(mount, replies.drop_last());
        match (runs::run(mount, replies.drop_last()).phase, replies.last()) {
            (StackedPhase::Report { dir }, Reply::Done) => before.push(dir),
            _ => before,
        }
    }
}

/// The plan of a staging mount: the tail of the layers, with no upper or work directory.
pub open spec fn staging_plan(
    current: Seq<Seq<char>>,
    dir: Seq<char>,
    source: Seq<char>,
) -> CorePlan<Seq<char>> {
    CorePlan::of(
        layers::tail(current),
        core_mount::prefers_legacy(source, None::<Seq<char>>, None::<Seq<char>>),
        Place::Staging(dir),
        source,
    )
}

/// Whether an overlay is where it has to be when `current` are the layers it has come to.
pub open spec fn on_track(
    mount: StackedView,
    goal: StackedGoal<Seq<char>>,
    current: Seq<Seq<char>>,
) -> bool {
    &&& mount.goal == goal
    &&& match mount.phase {
        StackedPhase::CreateDir { tail } => {
            &&& current.len() > MAX_LAYERS
            &&& mount.layers == layers::kept(current)
            &&& tail == layers::tail(current)
        },
        StackedPhase::Staging { dir, mount: staging } => {
            &&& current.len() > MAX_LAYERS
            &&& mount.layers == layers::kept(current)
            &&& staging.plan == staging_plan(current, dir, goal.source)
            &&& staging.phase is Fsopen || staging.phase is Legacy
        },
        StackedPhase::Report { .. } => {
            &&& current.len() > MAX_LAYERS
            &&& mount.layers == layers::kept(current)
        },
        StackedPhase::Last(last) => {
            let whole = CorePlan::of(
                current,
                core_mount::prefers_legacy(goal.source, goal.upper, goal.work),
                Place::Target(goal.dest),
                goal.source,
            );
            &&& current.len() <= MAX_LAYERS
            &&& mount.layers == current
            &&& CorePlan { upper: None, work: None, ..last.plan } == whole
        },
        StackedPhase::Failed(_) => current.len() > MAX_LAYERS,
    }
}

/// However the host replies, the overlay keeps to its layers: at each point it works on the
/// original layers, collapsed with the staging directories that were reported so far. Every
/// staging mount takes the low-priority tail of those, and the last mount takes all of them, once
/// they fit.
pub proof fn stacked_overlay_keeps_to_its_layers(
    lower_dirs: Seq<Seq<char>>,
    lowest: Seq<char>,
    goal: StackedGoal<Seq<char>>,
    replies: Seq<ReplyView>,
)
    ensures
        ({
            let start = StackedMount::started(lower_dirs, lowest, goal);
            let all = lower_dirs.push(lowest);
            let staged = reported_dirs(start, replies);
            &&& staged.len() <= layers::staging_steps(all.len())
            &&& on_track(runs::run(start, replies), goal, layers::collapsed(all, staged))
        }),
    decreases replies.len(),
{
    let start = StackedMount::started(lower_dirs, lowest, goal);
    let all = lower_dirs.push(lowest);
    if replies.len() == 0 {
    } else {
        let head = replies.drop_last();
        let reply = replies.last();
        stacked_overlay_keeps_to_its_layers(lower_dirs, lowest, goal, head);
        let before = runs::run(start, head);
        let staged = reported_dirs(start, head);
        let current = layers::collapsed(all, staged);
        layers::collapsed_fits(all, staged);
        match (before.phase, reply) {
            (StackedPhase::Report { dir }, Reply::Done) => {
                layers::lemma_collapsed_push(all, staged, dir);
                assert(staged.len() < layers::staging_steps(all.len()));
                assert(runs::run(start, replies) == goal.with_layers(
                    layers::collapsed(all, staged.push(dir)),
                ));
            },
            _ => {},
        }
    }
}

/// No single mount of an overlay gets more layers than one mount can hold: a staging mount gets one
/// less than the limit, and the last mount as many as are left. Those cover all layers of the
/// overlay in order, provided that each staging directory covers what was mounted on it.
pub proof fn stacked_overlay_covers_every_layer<A>(
    lower_dirs: Seq<Seq<char>>,
    lowest: Seq<char>,
    goal: StackedGoal<Seq<char>>,
    replies: Seq<ReplyView>,
    cover: spec_fn(Seq<char>) -> Seq<A>,
)
    requires
        ({
            let start = StackedMount::started(lower_dirs, lowest, goal);
            let all = lower_dirs.push(lowest);
            let staged = reported_dirs(start, replies);
            forall|k: int|
                0 <= k < staged.len() ==> cover(#[trigger] staged[k]) == layers::coverage(
                    layers::tail(layers::collapsed(all, staged.take(k))),
                    cover,
                )
        }),
    ensures
        ({
            let start = StackedMount::started(lower_dirs, lowest, goal);
            let end = runs::run(start, replies);
            let staged = reported_dirs(start, replies);
            let all = lower_dirs.push(lowest);
            &&& end.phase matches StackedPhase::CreateDir { tail } ==> tail.len() == MAX_LAYERS - 1
            &&& end.phase is Last ==> {
                &&& 0 < end.layers.len() <= MAX_LAYERS
                &&& staged.len() == layers::staging_steps(all.len())
                &&& layers::coverage(end.layers, cover) == layers::coverage(all, cover)
            }
        }),
{
    let start = StackedMount::started(lower_dirs, lowest, goal);
    let staged = reported_dirs(start, replies);
    let all = lower_dirs.push(lowest);
    stacked_overlay_keeps_to_its_layers(lower_dirs, lowest, goal, replies);
    layers::collapsed_fits(all, staged);
    layers::collapsed_keeps_coverage(all, staged, cover);
    if staged.len() == 0 {
        assert(layers::collapsed(all, staged) == all);
    }
}

/// A staging directory is reported only once a mount at it has succeeded.
pub proof fn staging_report_follows_its_mount(
    lower_dirs: Seq<Seq<char>>,
    lowest: Seq<char>,
    goal: StackedGoal<Seq<char>>,
    replies: Seq<ReplyView>,
    reply: ReplyView,
)
    requires
        ({
            let start = StackedMount::started(lower_dirs, lowest, goal);
            let before = runs::run(start, replies);
            before.phase !is Report && before.resumed(reply).phase is Report
        }),
    ensures
        ({
            let start = StackedMount::started(lower_dirs, lowest, goal);
            let before = runs::run(start, replies);
            &&& reply matches Reply::Outcome(Ok(_))
            &&& before.phase matches StackedPhase::Staging { dir, mount: staging }
            &&& staging.plan.dest == Place::Staging(dir)
            &&& staging.phase is Fsopen || staging.phase is Legacy
            &&& before.resumed(reply).phase == StackedPhase::<Seq<char>, Seq<Seq<char>>>::Report {
                dir,
            }
        }),
{
    stacked_overlay_keeps_to_its_layers(lower_dirs, lowest, goal, replies);
}

/// The first mount that fails ends the overlay, with its error.
pub proof fn failed_mount_ends_the_overlay(
    mount: StackedView,
    reply: ReplyView,
    e: MountError<Seq<char>>,
)
    requires
        match mount.phase {
            StackedPhase::Staging { mount: staging, .. } => staging.resumed(reply).pending()
                == Next::Finished(Err(e)),
            StackedPhase::Last(last) => last.resumed(reply).pending() == Next::Finished(Err(e)),
            _ => false,
        },
    ensures
        mount.resumed(reply).pending() == Next::Finished(Err(e)),
{
}

/// A finished overlay asks for nothing more and keeps its result.
pub proof fn finished_overlay_is_final(
    lower_dirs: Seq<Seq<char>>,
    lowest: Seq<char>,
    goal: StackedGoal<Seq<char>>,
    replies: Seq<ReplyView>,
    reply: ReplyView,
)
    requires
        runs::run(
            StackedMount::started(lower_dirs, lowest, goal),
            replies,
        ).pending() is Finished,
    ensures
        ({
            let start = StackedMount::started(lower_dirs, lowest, goal);
            runs::run(start, replies).resumed(reply) == runs::run(start, replies)
        }),
{
    stacked_overlay_keeps_to_its_layers(lower_dirs, lowest, goal, replies);
}

/// The replies of a host on which every staging step succeeds, with these directories.
pub open spec fn staging_replies(dirs: Seq<Seq<char>>) -> Seq<ReplyView>
    decreases dirs.len(),
{
    if dirs.len() == 0 {
        seq![]
    } else {
        staging_replies(dirs.drop_last()) + seq![
            Reply::Directory(Ok(dirs.last())),
            Reply::Outcome(Ok(())),
            Reply::Done,
        ]
    }
}

/// Where every staging step succeeds, the overlay comes to its last mount after exactly the steps
/// that the number of layers asks for, and that mount gets the collapsed layers. (A traditional
/// mount whose data would hold a NUL fails before any call, so such layers are left out where it
/// is the only path.)
pub proof fn stacked_overlay_comes_to_its_last_mount(
    lower_dirs: Seq<Seq<char>>,
    lowest: Seq<char>,
    goal: StackedGoal<Seq<char>>,
    dirs: Seq<Seq<char>>,
)
    requires
        dirs.len() <= layers::staging_steps(lower_dirs.push(lowest).len()),
        forall|k: int|
            0 <= k < dirs.len() ==> {
                let plan = staging_plan(
                    layers::collapsed(lower_dirs.push(lowest), dirs.take(k)),
                    #[trigger] dirs[k],
                    goal.source,
                );
                plan.legacy_only ==> !plan.legacy_data().contains('\0')
            },
    ensures
        runs::run(
            StackedMount::started(lower_dirs, lowest, goal),
            staging_replies(dirs),
        ) == goal.with_layers(layers::collapsed(lower_dirs.push(lowest), dirs)),
        reported_dirs(
            StackedMount::started(lower_dirs, lowest, goal),
            staging_replies(dirs),
        ) == dirs,
        dirs.len() == layers::staging_steps(lower_dirs.push(lowest).len()) ==> goal.with_layers(
            layers::collapsed(lower_dirs.push(lowest), dirs),
        ).phase is Last,
    decreases dirs.len(),
{
    let all = lower_dirs.push(lowest);
    let start = StackedMount::started(lower_dirs, lowest, goal);
    layers::collapsed_fits(all, dirs);
    if dirs.len() > 0 {
        let head = dirs.drop_last();
        let dir = dirs.last();
        assert forall|k: int| 0 <= k < head.len() implies {
            let plan = staging_plan(
                layers::collapsed(all, head.take(k)),
                #[trigger] head[k],
                goal.source,
            );
            plan.legacy_only ==> !plan.legacy_data().contains('\0')
        } by {
            assert(head[k] == dirs[k]);
            assert(head.take(k) =~= dirs.take(k));
        }
        stacked_overlay_comes_to_its_last_mount(lower_dirs, lowest, goal, head);
        layers::collapsed_fits(all, head);
        assert(dirs.take(dirs.len() - 1) =~= head);
        assert(dirs[dirs.len() - 1] == dir);
        let current = layers::collapsed(all, head);
        assert(head.push(dir) =~= dirs);
        layers::lemma_collapsed_push(all, head, dir);
        let s0 = staging_replies(head);
        let r1: ReplyView = Reply::Directory(Ok(dir));
        let r2: ReplyView = Reply::Outcome(Ok(()));
        let r3: ReplyView = Reply::Done;
        let s1 = s0.push(r1);
        let s2 = s1.push(r2);
        let s3 = s2.push(r3);
        assert(staging_replies(dirs) =~= s3);
        assert(s1.drop_last() =~= s0);
        assert(s2.drop_last() =~= s1);
        assert(s3.drop_last() =~= s2);
        let m0 = goal.with_layers(current);
        assert(m0.phase is CreateDir);
        let m1 = m0.resumed(r1);
        assert(m1.phase is Staging);
        let m2 = m1.resumed(r2);
        assert(m2.phase is Report);
        assert(runs::run(start, s1) == m1);
        assert(runs::run(start, s2) == m2);
        assert(reported_dirs(start, s1) == head);
        assert(reported_dirs(start, s2) == head);
        assert(reported_dirs(start, s3) == head.push(dir));
    }
}

/// Where a KSU overlay has no upper and no work directory, none of its mounts goes through
/// `fsopen`: neither a staging mount nor the last one.
pub proof fn ksu_lower_only_overlay_never_uses_fsopen(
    lower_dirs: Seq<Seq<char>>,
    lowest: Seq<char>,
    goal: StackedGoal<Seq<char>>,
    replies: Seq<ReplyView>,
)
    requires
        core_mount::prefers_legacy(goal.source, goal.upper, goal.work),
    ensures
        !(runs::run(
            StackedMount::started(lower_dirs, lowest, goal),
            replies,
        ).pending() matches Next::Ask(Request::Fsopen { .. })),
{
    lemma_ksu_phases(lower_dirs, lowest, goal, replies);
}

proof fn lemma_ksu_phases(
    lower_dirs: Seq<Seq<char>>,
    lowest: Seq<char>,
    goal: StackedGoal<Seq<char>>,
    replies: Seq<ReplyView>,
)
    requires
        core_mount::prefers_legacy(goal.source, goal.upper, goal.work),
    ensures
        ({
            let mount = runs::run(StackedMount::started(lower_dirs, lowest, goal), replies);
            &&& mount.goal == goal
            &&& mount.phase matches StackedPhase::Staging { mount: staging, .. }
                ==> staging.phase is Legacy
            &&& mount.phase matches StackedPhase::Last(last) ==> last.phase is Legacy
                || last.phase is Finished
        }),
    decreases replies.len(),
{
    if replies.len() > 0 {
        lemma_ksu_phases(lower_dirs, lowest, goal, replies.drop_last());
    }
}

/// Every staging directory that an overlay asks for is to be created below its staging root.
pub proof fn staging_directories_are_made_below_the_staging_root(
    lower_dirs: Seq<Seq<char>>,
    lowest: Seq<char>,
    goal: StackedGoal<Seq<char>>,
    replies: Seq<ReplyView>,
)
    ensures
        runs::run(
            StackedMount::started(lower_dirs, lowest, goal),
            replies,
        ).pending() matches Next::Ask(Request::CreateStagingDir { root }) ==> root
            == goal.staging_root,
{
    stacked_overlay_keeps_to_its_layers(lower_dirs, lowest, goal, replies);
}

/// An overlay of no more layers than one mount can hold is that one mount, with the upper and work
/// directory that it was given, at its destination and with its source: it makes the same requests
/// and comes to the same result, whatever the host replies.
pub proof fn few_layers_are_mounted_as_they_are(
    lower_dirs: Seq<Seq<char>>,
    lowest: Seq<char>,
    goal: StackedGoal<Seq<char>>,
    replies: Seq<ReplyView>,
)
    requires
        lower_dirs.len() < 64,
    ensures
        ({
            let single = CoreMount::started(
                lower_dirs.push(lowest),
                goal.upper,
                goal.work,
                Place::Target(goal.dest),
                goal.source,
            );
            let overlay = StackedMount::started(lower_dirs, lowest, goal);
            &&& runs::run(overlay, replies).pending() == runs::run(single, replies).pending()
            &&& runs::trace(overlay, replies) == runs::trace(single, replies)
        }),
    decreases replies.len(),
{
    lemma_few_layers(lower_dirs, lowest, goal, replies);
    if replies.len() > 0 {
        few_layers_are_mounted_as_they_are(lower_dirs, lowest, goal, replies.drop_last());
    }
}

proof fn lemma_few_layers(
    lower_dirs: Seq<Seq<char>>,
    lowest: Seq<char>,
    goal: StackedGoal<Seq<char>>,
    replies: Seq<ReplyView>,
)
    requires
        lower_dirs.len() < 64,
    ensures
        runs::run(StackedMount::started(lower_dirs, lowest, goal), replies).phase
            == StackedPhase::<Seq<char>, Seq<Seq<char>>>::Last(
            runs::run(
                CoreMount::started(
                    lower_dirs.push(lowest),
                    goal.upper,
                    goal.work,
                    Place::Target(goal.dest),
                    goal.source,
                ),
                replies,
            ),
        ),
    decreases replies.len(),
{
    if replies.len() > 0 {
        lemma_few_layers(lower_dirs, lowest, goal, replies.drop_last());
    }
}

/// An overlay of more layers than one mount can hold asks for a directory below its staging root
/// first. There it mounts its last 63 layers, with no upper and no work directory and with its own
/// source, exactly as a single mount does. Once that has succeeded and was reported, it is the
/// overlay of the other layers with the directory as the lowest, and to the same end. A failure on
/// the way is its own.
pub proof fn many_layers_are_staged_from_the_end(
    lower_dirs: Seq<Seq<char>>,
    lowest: Seq<char>,
    goal: StackedGoal<Seq<char>>,
    dir: Seq<char>,
    cause: Seq<char>,
    replies: Seq<ReplyView>,
)
    requires
        lower_dirs.len() >= 64,
        ({
            let all = lower_dirs.push(lowest);
            runs::awaits(
                CoreMount::started(
                    all.skip(all.len() - 63),
                    None,
                    None,
                    Place::Staging(dir),
                    goal.source,
                ),
                replies,
            )
        }),
    ensures
        ({
            let all = lower_dirs.push(lowest);
            let overlay = StackedMount::started(lower_dirs, lowest, goal);
            let staging = runs::run(
                CoreMount::started(
                    all.skip(all.len() - 63),
                    None,
                    None,
                    Place::Staging(dir),
                    goal.source,
                ),
                replies,
            );
            let after = runs::run(overlay, seq![Reply::Directory(Ok(dir))] + replies);
            &&& overlay.pending() == Next::Ask(
                Request::CreateStagingDir { root: goal.staging_root },
            )
            &&& overlay.resumed(Reply::Directory(Err(cause))).pending() == Next::<
                Seq<char>,
            >::Finished(Err(MountError::Host(cause)))
            &&& match staging.pending() {
                Next::Ask(request) => after.pending() == Next::Ask(request),
                Next::Finished(Err(e)) => after.pending() == Next::Finished(Err(e)),
                Next::Finished(Ok(_)) => {
                    &&& after.pending() == Next::Ask(Request::Report(MountEffect::Staging(dir)))
                    &&& after.resumed(Reply::Done) == StackedMount::started(
                        all.take(all.len() - 63),
                        dir,
                        goal,
                    )
                },
            }
        }),
{
    lemma_many_layers(lower_dirs, lowest, goal, dir, replies);
}

proof fn lemma_many_layers(
    lower_dirs: Seq<Seq<char>>,
    lowest: Seq<char>,
    goal: StackedGoal<Seq<char>>,
    dir: Seq<char>,
    replies: Seq<ReplyView>,
)
    requires
        lower_dirs.len() >= 64,
        ({
            let all = lower_dirs.push(lowest);
            runs::awaits(
                CoreMount::started(
                    all.skip(all.len() - 63),
                    None,
                    None,
                    Place::Staging(dir),
                    goal.source,
                ),
                replies,
            )
        }),
    ensures
        ({
            let all = lower_dirs.push(lowest);
            runs::run(
                StackedMount::started(lower_dirs, lowest, goal),
                seq![Reply::Directory(Ok(dir))] + replies,
            ) == goal.with_staging(
                all.take(all.len() - 63),
                dir,
                runs::run(
                    CoreMount::started(
                        all.skip(all.len() - 63),
                        None,
                        None,
                        Place::Staging(dir),
                        goal.source,
                    ),
                    replies,
                ),
            )
        }),
    decreases replies.len(),
{
    let all = lower_dirs.push(lowest);
    let overlay = StackedMount::started(lower_dirs, lowest, goal);
    let staging = CoreMount::started(
        all.skip(all.len() - 63),
        None,
        None,
        Place::Staging(dir),
        goal.source,
    );
    let first: Seq<ReplyView> = seq![Reply::Directory(Ok(dir))];
    if replies.len() == 0 {
        assert(first + replies =~= first);
        runs::lemma_run_one(overlay, Reply::Directory(Ok(dir)));
    } else {
        let head = replies.drop_last();
        runs::lemma_awaits_head(staging, replies);
        lemma_many_layers(lower_dirs, lowest, goal, dir, head);
        assert((first + replies).drop_last() =~= first + head);
        assert((first + replies).last() == replies.last());
    }
}

} // verus!
