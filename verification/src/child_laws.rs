//! What holds of every sub-mount that is rebuilt.

use vstd::prelude::*;

use crate::bind::BindMount;
use crate::child::{ChildGoalView, ChildMount, ChildPhase, ChildView};
use crate::core_mount::CoreMount;
use crate::error::MountError;
use crate::host::{MountEffect, Next, Place, Reply, ReplyView, Request};
use crate::runs;
use crate::runs::Machine;
use crate::stacked::{StackedGoal, StackedMount, StackedPhase, StackedView};

verus! {

/// That many answers "no".
pub open spec fn all_missing(count: nat) -> Seq<ReplyView> {
    Seq::new(count, |i: int| Reply::Flag(false))
}

/// The questions whether the first `count` modules have something for the sub-mount.
pub open spec fn existence_questions(goal: ChildGoalView, count: nat) -> Seq<Next<Seq<char>>> {
    Seq::new(count, |i: int| Next::Ask(Request::Exists(goal.module_roots[i] + goal.relative)))
}

/// The modules are asked in order, for as long as none has something for the sub-mount.
pub proof fn search_asks_each_module(goal: ChildGoalView, count: nat)
    requires
        count <= goal.module_roots.len() <= usize::MAX,
    ensures
        runs::run(ChildMount::started(goal), all_missing(count)) == (ChildMount {
            goal,
            phase: goal.search(count as int),
        }),
        runs::trace(ChildMount::started(goal), all_missing(count)).drop_last()
            == existence_questions(goal, count),
    decreases count,
{
    let start = ChildMount::started(goal);
    runs::trace_ends_in_the_machine(start, all_missing(count));
    if count > 0 {
        let before = (count - 1) as nat;
        search_asks_each_module(goal, before);
        assert(all_missing(count).drop_last() =~= all_missing(before));
        runs::trace_ends_in_the_machine(start, all_missing(before));
        assert(runs::trace(start, all_missing(before)).last() == Next::Ask(
            Request::Exists(goal.lower_dir(before as int)),
        ));
        assert(runs::trace(start, all_missing(count)).drop_last() =~= runs::trace(
            start,
            all_missing(before),
        ));
        let asked = runs::trace(start, all_missing(before));
        assert(asked =~= asked.drop_last().push(asked.last()));
        assert(existence_questions(goal, count) =~= existence_questions(goal, before).push(
            asked.last(),
        ));
    } else {
        assert(all_missing(count) =~= seq![]);
        assert(runs::trace(start, all_missing(count)).drop_last() =~= existence_questions(
            goal,
            count,
        ));
    }
}

/// Where no module has anything for a sub-mount, its contents are bound back to where they were.
pub proof fn untouched_child_is_bound_back(goal: ChildGoalView)
    requires
        goal.module_roots.len() <= usize::MAX,
    ensures
        runs::run(
            ChildMount::started(goal),
            all_missing(goal.module_roots.len()),
        ).phase == ChildPhase::<Seq<char>, Seq<Seq<char>>>::Binding(
            BindMount::started(goal.stock_root, goal.mount_point),
        ),
{
    search_asks_each_module(goal, goal.module_roots.len());
}

/// The lower directories of the first `count` modules, without those that have none.
pub open spec fn directories(goal: ChildGoalView, is_dir: Seq<bool>, count: int) -> Seq<Seq<char>>
    decreases count,
{
    if count <= 0 {
        seq![]
    } else {
        let before = directories(goal, is_dir, count - 1);
        if is_dir[count - 1] {
            before.push(goal.module_roots[count - 1] + goal.relative)
        } else {
            before
        }
    }
}

/// The answers about the first `count` modules, none of which has something that is not a
/// directory.
pub open spec fn directory_answers(is_dir: Seq<bool>, count: int) -> Seq<ReplyView>
    decreases count,
{
    if count <= 0 {
        seq![]
    } else {
        let before = directory_answers(is_dir, count - 1);
        if is_dir[count - 1] {
            before.push(Reply::Flag(true))
        } else {
            before.push(Reply::Flag(false)).push(Reply::Flag(false))
        }
    }
}

/// The directories that modules have for a sub-mount are collected in the order of the modules.
pub proof fn collection_keeps_the_order_of_modules(
    goal: ChildGoalView,
    is_dir: Seq<bool>,
    count: int,
)
    requires
        goal.module_roots.len() <= usize::MAX,
        is_dir.len() == goal.module_roots.len(),
        0 <= count <= is_dir.len(),
    ensures
        runs::run(
            (ChildMount { goal, phase: goal.collect(0, seq![]) }),
            directory_answers(is_dir, count),
        ) == (ChildMount {
            goal,
            phase: goal.collect(count, directories(goal, is_dir, count)),
        }),
    decreases count,
{
    let start = ChildMount { goal, phase: goal.collect(0, seq![]) };
    if count > 0 {
        collection_keeps_the_order_of_modules(goal, is_dir, count - 1);
        let before = directory_answers(is_dir, count - 1);
        let answers = directory_answers(is_dir, count);
        let asked = ChildMount {
            goal,
            phase: goal.collect(count - 1, directories(goal, is_dir, count - 1)),
        };
        assert(asked.phase is LowerIsDir);
        if is_dir[count - 1] {
            assert(answers.drop_last() =~= before);
        } else {
            let half = before.push(Reply::Flag(false));
            assert(answers.drop_last() =~= half);
            assert(half.drop_last() =~= before);
            assert(runs::run(start, half) == asked.resumed(Reply::Flag(false)));
            assert(runs::run(start, half).phase is LowerExists);
        }
    }
}

/// A whole decision: the first `missing` modules have nothing for the sub-mount and the next one
/// has, the sub-mount is a directory, and no module has something else than a directory for it.
/// Then the directories that there are, in the order of the modules, are stacked over the contents
/// of the sub-mount.
pub proof fn child_with_directories_becomes_an_overlay(
    goal: ChildGoalView,
    missing: nat,
    is_dir: Seq<bool>,
)
    requires
        missing < goal.module_roots.len() <= usize::MAX,
        is_dir.len() == goal.module_roots.len(),
        directories(goal, is_dir, is_dir.len() as int).len() > 0,
    ensures
        runs::run(
            ChildMount::started(goal),
            all_missing(missing) + seq![Reply::Flag(true)] + seq![Reply::Flag(true)]
                + directory_answers(is_dir, is_dir.len() as int),
        ).phase == goal.with_overlay(
            StackedMount::started(
                directories(goal, is_dir, is_dir.len() as int),
                goal.stock_root,
                goal.overlay_goal(),
            ),
        ),
{
    let start = ChildMount::started(goal);
    let yes: Seq<ReplyView> = seq![Reply::Flag(true)];
    search_asks_each_module(goal, missing);
    let asked = ChildMount { goal, phase: goal.search(missing as int) };
    runs::lemma_run_one(asked, Reply::Flag(true));
    runs::runs_compose(start, all_missing(missing), yes);
    let found = ChildMount { goal, phase: ChildPhase::StockIsDir };
    runs::lemma_run_one(found, Reply::Flag(true));
    runs::runs_compose(start, all_missing(missing) + yes, yes);
    runs::runs_compose(
        start,
        all_missing(missing) + yes + yes,
        directory_answers(is_dir, is_dir.len() as int),
    );
    collection_keeps_the_order_of_modules(goal, is_dir, is_dir.len() as int);
}

/// Where a module has something for a sub-mount that is not a directory, the sub-mount is left
/// alone and the operation succeeds; so too where the sub-mount itself is not a directory. Here
/// the first `missing` modules have nothing for it, and the first `count` modules have only
/// directories, or nothing.
pub proof fn child_without_a_directory_is_left_alone(
    goal: ChildGoalView,
    missing: nat,
    is_dir: Seq<bool>,
    count: int,
)
    requires
        missing < goal.module_roots.len() <= usize::MAX,
        is_dir.len() == goal.module_roots.len(),
        0 <= count < is_dir.len(),
    ensures
        runs::run(
            ChildMount::started(goal),
            all_missing(missing) + seq![Reply::Flag(true)] + seq![Reply::Flag(false)],
        ).phase == ChildPhase::<Seq<char>, Seq<Seq<char>>>::Finished(Ok(())),
        runs::run(
            ChildMount::started(goal),
            all_missing(missing) + seq![Reply::Flag(true)] + seq![Reply::Flag(true)]
                + directory_answers(is_dir, count) + seq![Reply::Flag(false)] + seq![
                Reply::Flag(true),
            ],
        ).phase == ChildPhase::<Seq<char>, Seq<Seq<char>>>::Finished(Ok(())),
{
    let start = ChildMount::started(goal);
    let yes: Seq<ReplyView> = seq![Reply::Flag(true)];
    let no: Seq<ReplyView> = seq![Reply::Flag(false)];
    let answers = directory_answers(is_dir, count);
    search_asks_each_module(goal, missing);
    let asked = ChildMount { goal, phase: goal.search(missing as int) };
    runs::lemma_run_one(asked, Reply::Flag(true));
    runs::runs_compose(start, all_missing(missing), yes);
    let found = ChildMount { goal, phase: ChildPhase::StockIsDir };
    runs::lemma_run_one(found, Reply::Flag(false));
    runs::lemma_run_one(found, Reply::Flag(true));
    let s1 = all_missing(missing) + yes;
    runs::runs_compose(start, s1, no);
    runs::runs_compose(start, s1, yes);
    runs::runs_compose(start, s1 + yes, answers);
    collection_keeps_the_order_of_modules(goal, is_dir, count);
    let s2 = s1 + yes + answers;
    let at = runs::run(start, s2);
    assert(at.phase is LowerIsDir);
    runs::lemma_run_one(at, Reply::Flag(false));
    runs::runs_compose(start, s2, no);
    let half = at.resumed(Reply::Flag(false));
    assert(half.phase is LowerExists);
    runs::lemma_run_one(half, Reply::Flag(true));
    runs::runs_compose(start, s2 + no, yes);
}

/// Once a sub-mount is mounted, it is registered where that was asked for, then reported as a
/// target, and then the operation succeeds.
pub proof fn mounted_child_is_reported(goal: ChildGoalView)
    ensures
        ({
            let mounted = ChildMount { goal, phase: goal.mounted() };
            let report = Next::Ask(Request::Report(MountEffect::Target(goal.mount_point)));
            let done = Next::<Seq<char>>::Finished(Ok(()));
            &&& goal.register ==> runs::trace(mounted, seq![Reply::Done, Reply::Done]) == seq![
                Next::Ask(Request::SendUnmountable(goal.mount_point)),
                report,
                done,
            ]
            &&& !goal.register ==> runs::trace(mounted, seq![Reply::Done]) == seq![report, done]
        }),
{
    let mounted = ChildMount { goal, phase: goal.mounted() };
    let report = ChildMount { goal, phase: ChildPhase::Report };
    let one: Seq<ReplyView> = seq![Reply::Done];
    let two: Seq<ReplyView> = seq![Reply::Done, Reply::Done];
    runs::lemma_run_one(report, Reply::Done);
    runs::lemma_run_first(mounted, Reply::Done, one);
    assert(two =~= one + one);
    assert(goal.register ==> runs::trace(mounted, two) =~= seq![
        Next::Ask(Request::SendUnmountable(goal.mount_point)),
        Next::Ask(Request::Report(MountEffect::Target(goal.mount_point))),
        Next::<Seq<char>>::Finished(Ok(())),
    ]);
}

/// A sub-mount is registered and reported only once its bind mount or its overlay has succeeded.
pub proof fn child_report_follows_its_mount(mount: ChildView, reply: ReplyView)
    requires
        !(mount.phase is Unmountable || mount.phase is Report),
        mount.resumed(reply).phase is Unmountable || mount.resumed(reply).phase is Report,
    ensures
        match mount.phase {
            ChildPhase::Binding(bind) => bind.resumed(reply).pending() matches Next::Finished(
                Ok(_),
            ),
            ChildPhase::Overlay(overlay) => overlay.resumed(
                reply,
            ).pending() matches Next::Finished(Ok(_)),
            _ => false,
        },
{
    match mount.phase {
        ChildPhase::StockIsDir => {
            let none: Seq<Seq<char>> = seq![];
            assert(none.len() == 0);
            assert(!(mount.goal.collect(0, none) is Report));
            assert(!(mount.goal.collect(0, none) is Unmountable));
        },
        ChildPhase::LowerIsDir { dir, found, .. } => {
            lemma_fresh_overlay_not_done(mount.goal, found.push(dir));
        },
        ChildPhase::LowerExists { found, .. } => {
            lemma_fresh_overlay_not_done(mount.goal, found);
        },
        _ => {},
    }
}

proof fn lemma_fresh_overlay_not_done(goal: ChildGoalView, found: Seq<Seq<char>>)
    ensures
        !(StackedMount::started(
            found,
            goal.stock_root,
            goal.overlay_goal(),
        ).pending() matches Next::Finished(Ok(_))),
{
}

/// Whether a stacked overlay is bound to traditional mounts.
pub open spec fn is_legacy_bound(mount: StackedView) -> bool {
    &&& mount.goal.source == "KSU"@
    &&& mount.goal.upper is None
    &&& mount.goal.work is None
    &&& mount.phase matches StackedPhase::Staging { mount: staging, .. }
        ==> staging.phase is Legacy || staging.phase is Finished
    &&& mount.phase matches StackedPhase::Last(last) ==> last.phase is Legacy
        || last.phase is Finished
}

/// A rebuilt KSU sub-mount never goes through `fsopen`, whatever the host replies, so its source
/// tag stays observable.
pub proof fn ksu_child_never_uses_fsopen(goal: ChildGoalView, replies: Seq<ReplyView>)
    requires
        goal.source == "KSU"@,
    ensures
        !(runs::run(ChildMount::started(goal), replies).pending() matches Next::Ask(
            Request::Fsopen { .. },
        )),
{
    lemma_ksu_child(goal, replies);
}

proof fn lemma_ksu_child(goal: ChildGoalView, replies: Seq<ReplyView>)
    requires
        goal.source == "KSU"@,
    ensures
        ({
            let mount = runs::run(ChildMount::started(goal), replies);
            &&& mount.goal == goal
            &&& mount.phase matches ChildPhase::Overlay(overlay) ==> is_legacy_bound(overlay)
        }),
    decreases replies.len(),
{
    if replies.len() > 0 {
        lemma_ksu_child(goal, replies.drop_last());
    }
}

/// A sub-mount is registered as one that may be unmounted only where that was asked for.
pub proof fn child_is_registered_only_on_request(goal: ChildGoalView, replies: Seq<ReplyView>)
    requires
        !goal.register,
    ensures
        !(runs::run(ChildMount::started(goal), replies).phase is Unmountable),
        runs::run(ChildMount::started(goal), replies).goal == goal,
    decreases replies.len(),
{
    if replies.len() > 0 {
        child_is_registered_only_on_request(goal, replies.drop_last());
    }
}

/// What a sub-mount does once it is mounted: it registers the mount point where that was asked for,
/// then reports it as a target, and then has succeeded.
pub open spec fn winds_up(mount: ChildView, mount_point: Seq<char>, register: bool) -> bool {
    let telling = if register {
        mount.resumed(Reply::Done)
    } else {
        mount
    };
    &&& register ==> mount.pending() == Next::Ask(Request::SendUnmountable(mount_point))
    &&& telling.pending() == Next::Ask(Request::Report(MountEffect::Target(mount_point)))
    &&& telling.resumed(Reply::Done).pending() == Next::<Seq<char>>::Finished(Ok(()))
}

/// Where no module has anything for a sub-mount, the modules having been asked in order, it is the
/// bind mount of its contents to its mount point: it makes the same requests, fails with the same
/// error, and after a success winds up.
pub proof fn untouched_child_is_a_bind_mount(goal: ChildGoalView, replies: Seq<ReplyView>)
    requires
        goal.module_roots.len() <= usize::MAX,
        runs::awaits(BindMount::started(goal.stock_root, goal.mount_point), replies),
    ensures
        ({
            let bind = runs::run(BindMount::started(goal.stock_root, goal.mount_point), replies);
            let child = runs::run(
                ChildMount::started(goal),
                all_missing(goal.module_roots.len()) + replies,
            );
            match bind.pending() {
                Next::Ask(request) => child.pending() == Next::Ask(request),
                Next::Finished(Err(e)) => child.pending() == Next::Finished(Err(e)),
                Next::Finished(Ok(_)) => winds_up(child, goal.mount_point, goal.register),
            }
        }),
{
    lemma_untouched_child(goal, replies);
}

proof fn lemma_untouched_child(goal: ChildGoalView, replies: Seq<ReplyView>)
    requires
        goal.module_roots.len() <= usize::MAX,
        runs::awaits(BindMount::started(goal.stock_root, goal.mount_point), replies),
    ensures
        runs::run(
            ChildMount::started(goal),
            all_missing(goal.module_roots.len()) + replies,
        ) == (ChildMount {
            goal,
            phase: goal.with_bind(
                runs::run(BindMount::started(goal.stock_root, goal.mount_point), replies),
            ),
        }),
    decreases replies.len(),
{
    let asked = all_missing(goal.module_roots.len());
    let start = ChildMount::started(goal);
    if replies.len() == 0 {
        assert(asked + replies =~= asked);
        search_asks_each_module(goal, goal.module_roots.len());
    } else {
        let head = replies.drop_last();
        runs::lemma_awaits_head(
            BindMount::started(goal.stock_root, goal.mount_point),
            replies,
        );
        lemma_untouched_child(goal, head);
        assert((asked + replies).drop_last() =~= asked + head);
        assert((asked + replies).last() == replies.last());
    }
}

/// The answers that bring a sub-mount to the collection of its lower directories, and there past
/// the first `count` modules: the first `missing` modules have nothing for it and the next one has,
/// the sub-mount is a directory, and of those `count` modules none has something else than a
/// directory.
pub open spec fn collecting_answers(missing: nat, is_dir: Seq<bool>, count: int) -> Seq<ReplyView> {
    all_missing(missing) + seq![Reply::Flag(true)] + seq![Reply::Flag(true)] + directory_answers(
        is_dir,
        count,
    )
}

proof fn lemma_collecting(goal: ChildGoalView, missing: nat, is_dir: Seq<bool>, count: int)
    requires
        missing < goal.module_roots.len() <= usize::MAX,
        is_dir.len() == goal.module_roots.len(),
        0 <= count <= is_dir.len(),
    ensures
        runs::run(ChildMount::started(goal), collecting_answers(missing, is_dir, count))
            == (ChildMount { goal, phase: goal.collect(count, directories(goal, is_dir, count)) }),
        runs::run(ChildMount::started(goal), all_missing(missing) + seq![Reply::Flag(true)])
            == (ChildMount { goal, phase: ChildPhase::StockIsDir }),
{
    let start = ChildMount::started(goal);
    let yes: Seq<ReplyView> = seq![Reply::Flag(true)];
    search_asks_each_module(goal, missing);
    let asked = ChildMount { goal, phase: goal.search(missing as int) };
    runs::lemma_run_one(asked, Reply::Flag(true));
    runs::runs_compose(start, all_missing(missing), yes);
    let found = ChildMount { goal, phase: ChildPhase::StockIsDir };
    runs::lemma_run_one(found, Reply::Flag(true));
    runs::runs_compose(start, all_missing(missing) + yes, yes);
    runs::runs_compose(
        start,
        all_missing(missing) + yes + yes,
        directory_answers(is_dir, count),
    );
    collection_keeps_the_order_of_modules(goal, is_dir, count);
}

/// What a sub-mount asks on its way to an overlay. The modules are asked in order, until one has
/// something, whether they have something at the relative path below their roots; then whether the
/// contents of the sub-mount are a directory; then each module, in order, whether it has a directory
/// there, and if not, whether it has anything. Where the contents are no directory, or a module has
/// something else than a directory, the operation ends there and has succeeded.
pub proof fn child_asks_modules_in_order(
    goal: ChildGoalView,
    missing: nat,
    is_dir: Seq<bool>,
    count: int,
)
    requires
        missing < goal.module_roots.len() <= usize::MAX,
        is_dir.len() == goal.module_roots.len(),
        0 <= count < is_dir.len(),
    ensures
        ({
            let start = ChildMount::started(goal);
            let searching = runs::run(start, all_missing(missing));
            let found = searching.resumed(Reply::Flag(true));
            let collecting = runs::run(start, collecting_answers(missing, is_dir, count));
            let lower = goal.module_roots[count] + goal.relative;
            let unsure = collecting.resumed(Reply::Flag(false));
            &&& searching.pending() == Next::Ask(
                Request::Exists(goal.module_roots[missing as int] + goal.relative),
            )
            &&& found.pending() == Next::Ask(Request::IsDir(goal.stock_root))
            &&& found.resumed(Reply::Flag(false)).pending() == Next::<Seq<char>>::Finished(Ok(()))
            &&& collecting.pending() == Next::Ask(Request::IsDir(lower))
            &&& unsure.pending() == Next::Ask(Request::Exists(lower))
            &&& unsure.resumed(Reply::Flag(true)).pending() == Next::<Seq<char>>::Finished(Ok(()))
        }),
{
    search_asks_each_module(goal, missing);
    lemma_collecting(goal, missing, is_dir, count);
    runs::runs_compose(ChildMount::started(goal), all_missing(missing), seq![Reply::Flag(true)]);
    runs::lemma_run_one(
        runs::run(ChildMount::started(goal), all_missing(missing)),
        Reply::Flag(true),
    );
}

/// Where modules have directories for a sub-mount, and none has something else, it is the stacked
/// overlay of these directories, in the order of the modules, over the contents of the sub-mount, at
/// its mount point, with its own staging root and source and with neither upper nor work directory:
/// it makes the same requests, a failure is told with the mount point, and after a success it winds
/// up. Where after all no module has a directory, nothing is mounted and the operation succeeds.
pub proof fn touched_child_is_a_stacked_overlay(
    goal: ChildGoalView,
    missing: nat,
    is_dir: Seq<bool>,
    replies: Seq<ReplyView>,
)
    requires
        missing < goal.module_roots.len() <= usize::MAX,
        is_dir.len() == goal.module_roots.len(),
        runs::awaits(
            StackedMount::started(
                directories(goal, is_dir, is_dir.len() as int),
                goal.stock_root,
                (StackedGoal {
                    upper: None,
                    work: None,
                    dest: goal.mount_point,
                    staging_root: goal.staging_root,
                    source: goal.source,
                }),
            ),
            replies,
        ),
    ensures
        ({
            let found = directories(goal, is_dir, is_dir.len() as int);
            let answers = collecting_answers(missing, is_dir, is_dir.len() as int);
            let overlay = runs::run(
                StackedMount::started(
                    found,
                    goal.stock_root,
                    StackedGoal {
                        upper: None,
                        work: None,
                        dest: goal.mount_point,
                        staging_root: goal.staging_root,
                        source: goal.source,
                    },
                ),
                replies,
            );
            let child = runs::run(ChildMount::started(goal), answers + replies);
            &&& found.len() == 0 ==> runs::run(ChildMount::started(goal), answers).pending()
                == Next::<Seq<char>>::Finished(Ok(()))
            &&& found.len() > 0 ==> match overlay.pending() {
                Next::Ask(request) => child.pending() == Next::Ask(request),
                Next::Finished(Err(e)) => child.pending() == Next::<Seq<char>>::Finished(
                    Err(
                        MountError::ChildOverlay {
                            mount_point: goal.mount_point,
                            cause: e.text(),
                        },
                    ),
                ),
                Next::Finished(Ok(_)) => winds_up(child, goal.mount_point, goal.register),
            }
        }),
{
    lemma_collecting(goal, missing, is_dir, is_dir.len() as int);
    if directories(goal, is_dir, is_dir.len() as int).len() > 0 {
        lemma_touched_child(goal, missing, is_dir, replies);
    }
}

proof fn lemma_touched_child(
    goal: ChildGoalView,
    missing: nat,
    is_dir: Seq<bool>,
    replies: Seq<ReplyView>,
)
    requires
        missing < goal.module_roots.len() <= usize::MAX,
        is_dir.len() == goal.module_roots.len(),
        directories(goal, is_dir, is_dir.len() as int).len() > 0,
        runs::awaits(
            StackedMount::started(
                directories(goal, is_dir, is_dir.len() as int),
                goal.stock_root,
                (StackedGoal {
                    upper: None,
                    work: None,
                    dest: goal.mount_point,
                    staging_root: goal.staging_root,
                    source: goal.source,
                }),
            ),
            replies,
        ),
    ensures
        runs::run(
            ChildMount::started(goal),
            collecting_answers(missing, is_dir, is_dir.len() as int) + replies,
        ) == (ChildMount {
            goal,
            phase: goal.with_overlay(
                runs::run(
                    StackedMount::started(
                        directories(goal, is_dir, is_dir.len() as int),
                        goal.stock_root,
                        StackedGoal {
                            upper: None,
                            work: None,
                            dest: goal.mount_point,
                            staging_root: goal.staging_root,
                            source: goal.source,
                        },
                    ),
                    replies,
                ),
            ),
        }),
    decreases replies.len(),
{
    let answers = collecting_answers(missing, is_dir, is_dir.len() as int);
    if replies.len() == 0 {
        assert(answers + replies =~= answers);
        lemma_collecting(goal, missing, is_dir, is_dir.len() as int);
    } else {
        let head = replies.drop_last();
        runs::lemma_awaits_head(
            StackedMount::started(
                directories(goal, is_dir, is_dir.len() as int),
                goal.stock_root,
                StackedGoal {
                    upper: None,
                    work: None,
                    dest: goal.mount_point,
                    staging_root: goal.staging_root,
                    source: goal.source,
                },
            ),
            replies,
        );
        lemma_touched_child(goal, missing, is_dir, head);
        assert((answers + replies).drop_last() =~= answers + head);
        assert((answers + replies).last() == replies.last());
    }
}

/// Whatever the host replies, each overlay mount that a sub-mount asks for carries the source that
/// it was given, through `fsopen` and traditionally, and none has an upper or work directory. Each
/// goes to the mount point or to a staging directory. Where the source is not `KSU`, a traditional
/// overlay mount is asked for only once `fsopen` was tried at the same place and failed.
pub proof fn child_mounts_carry_its_source(goal: ChildGoalView, replies: Seq<ReplyView>)
    ensures
        ({
            let child = runs::run(ChildMount::started(goal), replies);
            &&& child.pending() matches Next::Ask(
                Request::Fsopen { upper, work, source, dest, .. },
            ) ==> {
                &&& source == goal.source
                &&& upper is None
                &&& work is None
                &&& dest is Target ==> dest == Place::Target(goal.mount_point)
            }
            &&& child.pending() matches Next::Ask(
                Request::Mount { source, target, flags, data, .. },
            ) ==> {
                &&& target is Target ==> target == Place::Target(goal.mount_point)
                &&& data is Some ==> source == goal.source
                &&& data is None ==> source == goal.stock_root && flags.bind && flags.recursive
                &&& data is Some && goal.source != "KSU"@ ==> fsopen_has_failed_at(
                    goal,
                    replies,
                    target,
                )
            }
        }),
{
    lemma_child_sources(goal, replies);
}

/// Whether `fsopen` was tried for a sub-mount at this place and has failed.
pub open spec fn fsopen_has_failed_at(
    goal: ChildGoalView,
    replies: Seq<ReplyView>,
    place: Place<Seq<char>>,
) -> bool {
    exists|i: int| #![trigger replies[i]]
        0 <= i < replies.len() && (replies[i] matches Reply::Outcome(Err(_))) && (runs::run(
            ChildMount::started(goal),
            replies.take(i),
        ).pending() matches Next::Ask(Request::Fsopen { dest, .. }) && dest == place)
}

proof fn lemma_failed_before(
    goal: ChildGoalView,
    replies: Seq<ReplyView>,
    place: Place<Seq<char>>,
)
    requires
        replies.len() > 0,
        fsopen_has_failed_at(goal, replies.drop_last(), place),
    ensures
        fsopen_has_failed_at(goal, replies, place),
{
    let head = replies.drop_last();
    let i = choose|i: int| #![trigger head[i]]
        0 <= i < head.len() && (head[i] matches Reply::Outcome(Err(_))) && (runs::run(
            ChildMount::started(goal),
            head.take(i),
        ).pending() matches Next::Ask(Request::Fsopen { dest, .. }) && dest == place);
    assert(replies[i] == head[i]);
    assert(replies.take(i) =~= head.take(i));
}

/// What the mounts of a stacked overlay carry, and that a traditional one follows a failed `fsopen`.
spec fn carries(goal: ChildGoalView, replies: Seq<ReplyView>, stacked: StackedView) -> bool {
    &&& stacked.goal.source == goal.source
    &&& stacked.goal.dest == goal.mount_point
    &&& stacked.goal.upper is None
    &&& stacked.goal.work is None
    &&& stacked.phase matches StackedPhase::Staging { mount, .. } ==> {
        &&& mount.plan.dest is Staging
        &&& single_carries(goal, replies, mount)
    }
    &&& stacked.phase matches StackedPhase::Last(mount) ==> {
        &&& mount.plan.dest == Place::Target(goal.mount_point)
        &&& single_carries(goal, replies, mount)
    }
}

spec fn single_carries(
    goal: ChildGoalView,
    replies: Seq<ReplyView>,
    mount: CoreMount<Seq<char>>,
) -> bool {
    &&& mount.plan.source == goal.source
    &&& mount.plan.upper is None
    &&& mount.plan.work is None
    &&& mount.plan.legacy_only ==> goal.source == "KSU"@
    &&& !(mount.phase is Upper) && !(mount.phase is Work)
    &&& mount.phase is Legacy && goal.source != "KSU"@ ==> fsopen_has_failed_at(
        goal,
        replies,
        mount.plan.dest,
    )
}

proof fn lemma_child_sources(goal: ChildGoalView, replies: Seq<ReplyView>)
    ensures
        ({
            let child = runs::run(ChildMount::started(goal), replies);
            &&& child.goal == goal
            &&& child.phase matches ChildPhase::Overlay(stacked) ==> carries(goal, replies, stacked)
            &&& child.phase matches ChildPhase::Binding(bind) ==> bind.to == goal.mount_point
                && bind.from == goal.stock_root
        }),
    decreases replies.len(),
{
    if replies.len() > 0 {
        let head = replies.drop_last();
        let n = replies.len() - 1;
        let before = runs::run(ChildMount::started(goal), head);
        lemma_child_sources(goal, head);
        assert(replies.take(n) =~= head);
        assert(replies[n] == replies.last());
        if let ChildPhase::Overlay(stacked) = before.phase {
            let mount = match stacked.phase {
                StackedPhase::Staging { mount, .. } => Some(mount),
                StackedPhase::Last(mount) => Some(mount),
                _ => None,
            };
            if let Some(mount) = mount {
                if mount.phase is Legacy && goal.source != "KSU"@ {
                    lemma_failed_before(goal, replies, mount.plan.dest);
                }
                if mount.phase is Fsopen && mount.resumed(replies.last()).phase is Legacy {
                    assert(before.pending() matches Next::Ask(Request::Fsopen { dest, .. }) && dest
                        == mount.plan.dest);
                    assert(fsopen_has_failed_at(goal, replies, mount.plan.dest));
                }
            }
        }
    }
}

} // verus!
