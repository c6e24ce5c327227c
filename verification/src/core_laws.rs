//! What holds of every single overlay mount, from its beginning to its end.

use vstd::prelude::*;

use crate::core_mount::{CoreMount, CorePhase, CorePlan};
use crate::error::MountError;
use crate::host::{MountFlags, Next, Place, Reply, ReplyView, Request};
use crate::core_mount;
use crate::runs;
use crate::runs::Machine;
use crate::text;

verus! {

/// The question about a directory, where there is one to ask about, and its answer.
pub open spec fn probe<R>(dir: Option<Seq<char>>, item: R) -> Seq<R> {
    if dir is Some {
        seq![item]
    } else {
        seq![]
    }
}

/// What the upper or work directory is once it is known whether it exists.
pub open spec fn present(dir: Option<Seq<char>>, exists: bool) -> Option<Seq<char>> {
    if exists {
        dir
    } else {
        None
    }
}

/// The calls of a mount in order, with the result that they come to, given how the host answers
/// `fsopen` and the traditional mount.
pub open spec fn mount_calls(
    plan: CorePlan<Seq<char>>,
    fsopen: Result<(), Seq<char>>,
    legacy: Result<(), Seq<char>>,
) -> Seq<Next<Seq<char>>> {
    let primary: Next<Seq<char>> = Next::Ask(
        Request::Fsopen {
            upper: plan.upper,
            work: plan.work,
            lowerdir: plan.lowerdir,
            source: plan.source,
            dest: plan.dest,
        },
    );
    let fallback: Next<Seq<char>> = Next::Ask(
        Request::Mount {
            source: plan.source,
            target: plan.dest,
            fstype: "overlay"@,
            flags: MountFlags { bind: false, recursive: false },
            data: Some(plan.legacy_data()),
        },
    );
    let traditional: Seq<Next<Seq<char>>> = if plan.legacy_data().contains('\0') {
        seq![Next::Finished(Err(MountError::NulInData))]
    } else {
        seq![
            fallback,
            Next::Finished(
                match legacy {
                    Ok(_) => Ok(()),
                    Err(cause) => Err(MountError::LegacyMount { dest: plan.dest.path(), cause }),
                },
            ),
        ]
    };
    if plan.legacy_only {
        traditional
    } else if fsopen is Ok {
        seq![primary, Next::Finished(Ok(()))]
    } else {
        seq![primary] + traditional
    }
}

/// The host's replies to the calls of a mount.
pub open spec fn mount_replies(
    plan: CorePlan<Seq<char>>,
    fsopen: Result<(), Seq<char>>,
    legacy: Result<(), Seq<char>>,
) -> Seq<ReplyView> {
    let traditional: Seq<ReplyView> = if plan.legacy_data().contains('\0') {
        seq![]
    } else {
        seq![Reply::Outcome(legacy)]
    };
    if plan.legacy_only {
        traditional
    } else if fsopen is Ok {
        seq![Reply::Outcome(fsopen)]
    } else {
        seq![Reply::Outcome(fsopen)] + traditional
    }
}

/// From the first call on, the calls are those of the plan.
proof fn lemma_mount_calls(
    plan: CorePlan<Seq<char>>,
    fsopen: Result<(), Seq<char>>,
    legacy: Result<(), Seq<char>>,
)
    ensures
        runs::trace(plan.to_mount(), mount_replies(plan, fsopen, legacy)) == mount_calls(
            plan,
            fsopen,
            legacy,
        ),
{
    let mount = plan.to_mount();
    let replies = mount_replies(plan, fsopen, legacy);
    reveal_with_fuel(runs::run, 3);
    reveal_with_fuel(runs::trace, 3);
    if replies.len() == 2 {
        assert(replies.drop_last() =~= seq![Reply::Outcome(fsopen)]);
        assert(replies.drop_last().drop_last() =~= seq![]);
    } else if replies.len() == 1 {
        assert(replies.drop_last() =~= seq![]);
    }
    assert(runs::trace(mount, replies) =~= mount_calls(plan, fsopen, legacy));
}

/// A mount, from its beginning to its result, for every way in which the host can answer: it asks
/// about the upper and the work directory where it was given one, and then makes the calls of the
/// plan, in which only directories that exist take part.
pub proof fn core_mount_runs_through(
    layers: Seq<Seq<char>>,
    upper: Option<Seq<char>>,
    work: Option<Seq<char>>,
    dest: Place<Seq<char>>,
    source: Seq<char>,
    upper_exists: bool,
    work_exists: bool,
    fsopen: Result<(), Seq<char>>,
    legacy: Result<(), Seq<char>>,
)
    ensures
        ({
            let plan = CorePlan {
                upper: present(upper, upper_exists),
                work: present(work, work_exists),
                ..CorePlan::of(
                    layers,
                    core_mount::prefers_legacy(source, upper, work),
                    dest,
                    source,
                )
            };
            runs::trace(
                CoreMount::started(layers, upper, work, dest, source),
                probe(upper, Reply::Flag(upper_exists)) + probe(work, Reply::Flag(work_exists))
                    + mount_replies(plan, fsopen, legacy),
            ) == probe(upper, Next::Ask(Request::UpperExists(upper.unwrap()))) + probe(
                work,
                Next::Ask(Request::WorkExists(work.unwrap())),
            ) + mount_calls(plan, fsopen, legacy)
        }),
{
    let legacy_only = core_mount::prefers_legacy(source, upper, work);
    let bare = CorePlan::of(layers, legacy_only, dest, source);
    let half = CorePlan { upper: present(upper, upper_exists), ..bare };
    let plan = CorePlan { work: present(work, work_exists), ..half };
    let start = CoreMount::started(layers, upper, work, dest, source);
    let first: Seq<ReplyView> = probe(upper, Reply::Flag(upper_exists));
    let second: Seq<ReplyView> = probe(work, Reply::Flag(work_exists));
    let calls = mount_replies(plan, fsopen, legacy);
    reveal_with_fuel(runs::run, 2);
    reveal_with_fuel(runs::trace, 2);
    assert(runs::run(start, first) == half.to_work(work)) by {
        if upper is Some {
            assert(first.drop_last() =~= seq![]);
        }
    }
    let mid = half.to_work(work);
    assert(runs::run(mid, second) == plan.to_mount()) by {
        if work is Some {
            assert(second.drop_last() =~= seq![]);
        }
    }
    runs::runs_compose(start, first, second);
    runs::runs_compose(start, first + second, calls);
    lemma_mount_calls(plan, fsopen, legacy);
    assert(runs::trace(start, first).drop_last() =~= probe(
        upper,
        Next::Ask(Request::UpperExists(upper.unwrap())),
    )) by {
        if upper is Some {
            assert(first.drop_last() =~= seq![]);
        }
    }
    assert(runs::trace(mid, second).drop_last() =~= probe(
        work,
        Next::Ask(Request::WorkExists(work.unwrap())),
    )) by {
        if work is Some {
            assert(second.drop_last() =~= seq![]);
        }
    }
    runs::runs_compose(mid, second, seq![]);
    assert(runs::trace(start, first + second).drop_last() =~= runs::trace(start, first).drop_last()
        + runs::trace(mid, second).drop_last());
}

/// Whatever the host replies, the layers, the source and the place of a mount stay what they were.
pub proof fn core_plan_is_kept(mount: CoreMount<Seq<char>>, replies: Seq<ReplyView>)
    ensures
        ({
            let before = mount.plan;
            let after = runs::run(mount, replies).plan;
            CorePlan { upper: before.upper, work: before.work, ..after } == before
        }),
    decreases replies.len(),
{
    if replies.len() > 0 {
        core_plan_is_kept(mount, replies.drop_last());
    }
}

/// A KSU overlay of lower directories alone never goes through `fsopen`, whatever the host
/// replies, so its source tag stays observable.
pub proof fn ksu_lower_only_never_uses_fsopen(
    layers: Seq<Seq<char>>,
    dest: Place<Seq<char>>,
    replies: Seq<ReplyView>,
)
    ensures
        runs::run(CoreMount::started(layers, None, None, dest, "KSU"@), replies).phase is Legacy
            || runs::run(
            CoreMount::started(layers, None, None, dest, "KSU"@),
            replies,
        ).phase is Finished,
    decreases replies.len(),
{
    if replies.len() > 0 {
        ksu_lower_only_never_uses_fsopen(layers, dest, replies.drop_last());
    }
}

/// A mount that may use `fsopen` comes to the traditional mount only by a failure of `fsopen`.
pub proof fn legacy_only_after_fsopen_failed(mount: CoreMount<Seq<char>>, reply: ReplyView)
    requires
        !mount.plan.legacy_only,
        mount.phase !is Legacy,
        mount.resumed(reply).phase is Legacy,
    ensures
        mount.phase is Fsopen,
        reply matches Reply::Outcome(Err(_)),
{
}

proof fn lemma_scan_text(text: Seq<char>, plain: Seq<char>, sep: char)
    requires
        !text::scan(text, sep, true).quoted,
        forall|i: int| 0 <= i < plain.len() ==> plain[i] != sep && plain[i] != '\\',
        text::scan(text, sep, true).fields.len() > 0,
    ensures
        text::scan(text + plain, sep, true) == text::scan(text, sep, true).extended(plain),
    decreases plain.len(),
{
    let start = text::scan(text, sep, true);
    if plain.len() == 0 {
        assert(text + plain =~= text);
        assert(start.extended(plain).fields =~= start.fields);
    } else {
        lemma_scan_text(text, plain.drop_last(), sep);
        assert((text + plain).drop_last() =~= text + plain.drop_last());
        assert(start.fields.last() + plain.drop_last() + seq![plain.last()] =~= start.fields.last()
            + plain);
        assert(text::scan(text + plain, sep, true).fields =~= start.extended(plain).fields);
    }
}

proof fn lemma_scan_comma(text: Seq<char>)
    requires
        !text::scan(text, ',', true).quoted,
    ensures
        text::scan(text.push(','), ',', true) == (text::Scan {
            fields: text::scan(text, ',', true).fields.push(seq![]),
            quoted: false,
        }),
{
    assert(text.push(',').drop_last() =~= text);
}

/// The reader of the mount data gets back what was put into it: the options, none of them cut
/// short or run together, and in them the layers in order and the two directories.
pub proof fn legacy_data_reads_back(
    layers: Seq<Seq<char>>,
    upper: Option<Seq<char>>,
    work: Option<Seq<char>>,
    legacy_only: bool,
    dest: Place<Seq<char>>,
    source: Seq<char>,
)
    requires
        layers.len() > 0,
    ensures
        ({
            let plan = CorePlan {
                upper,
                work,
                ..CorePlan::of(layers, legacy_only, dest, source)
            };
            let lower = "lowerdir="@ + plan.safe_lower;
            &&& text::raw_fields(plan.legacy_data(), ',') == match (upper, work) {
                (Some(u), Some(w)) => seq![
                    lower,
                    "upperdir="@ + text::escaped(u),
                    "workdir="@ + text::escaped(w),
                ],
                _ => seq![lower],
            }
            &&& text::values(plan.safe_lower, ':') == layers
            &&& upper matches Some(u) ==> text::values(text::escaped(u), ',') == seq![u]
            &&& work matches Some(w) ==> text::values(text::escaped(w), ',') == seq![w]
        }),
{
    let plan = CorePlan { upper, work, ..CorePlan::of(layers, legacy_only, dest, source) };
    let none: Seq<char> = seq![];
    let name = "lowerdir="@;
    reveal_strlit("lowerdir=");
    reveal_strlit("upperdir=");
    reveal_strlit("workdir=");
    reveal_strlit(",upperdir=");
    reveal_strlit(",workdir=");
    text::joined_layers_read_back(layers);
    lemma_scan_text(none, name, ',');
    assert(none + name =~= name);
    text::lemma_scan_joined(name, layers);
    let lower = name + plan.safe_lower;
    let fields = text::scan(lower, ',', true);
    assert(fields.fields =~= seq![lower]);
    match (upper, work) {
        (Some(u), Some(w)) => {
            text::escaped_value_reads_back(u, ',');
            text::escaped_value_reads_back(w, ',');
            let t1 = lower.push(',');
            lemma_scan_comma(lower);
            lemma_scan_text(t1, "upperdir="@, ',');
            text::lemma_scan_escaped(t1 + "upperdir="@, u, ',', true);
            let t2 = t1 + "upperdir="@ + text::escaped(u);
            let f2 = "upperdir="@ + text::escaped(u);
            assert(none + "upperdir="@ + text::escaped(u) =~= f2);
            assert(text::scan(t2, ',', true).fields =~= seq![lower, f2]);
            let t3 = t2.push(',');
            lemma_scan_comma(t2);
            lemma_scan_text(t3, "workdir="@, ',');
            text::lemma_scan_escaped(t3 + "workdir="@, w, ',', true);
            let t4 = t3 + "workdir="@ + text::escaped(w);
            let f4 = "workdir="@ + text::escaped(w);
            assert(none + "workdir="@ + text::escaped(w) =~= f4);
            assert(text::scan(t4, ',', true).fields =~= seq![lower, f2, f4]);
            assert(",upperdir="@ =~= seq![','] + "upperdir="@);
            assert(",workdir="@ =~= seq![','] + "workdir="@);
            assert(plan.legacy_data() =~= t4);
        },
        _ => {
            if let Some(u) = upper {
                text::escaped_value_reads_back(u, ',');
            }
            if let Some(w) = work {
                text::escaped_value_reads_back(w, ',');
            }
        },
    }
}

/// Whether there is a NUL in what the traditional mount writes: in a layer, or in the upper or work
/// directory where both take part.
pub open spec fn nul_in_paths(
    layers: Seq<Seq<char>>,
    upper: Option<Seq<char>>,
    work: Option<Seq<char>>,
) -> bool {
    ||| exists|i: int| 0 <= i < layers.len() && (#[trigger] layers[i]).contains('\0')
    ||| upper is Some && work is Some && (upper->0.contains('\0') || work->0.contains('\0'))
}

/// The data that a traditional mount hands over, out of the paths that take part.
pub open spec fn written_data(
    layers: Seq<Seq<char>>,
    upper: Option<Seq<char>>,
    work: Option<Seq<char>>,
) -> Seq<char> {
    let lower = "lowerdir="@ + text::joined(
        layers.map_values(|layer: Seq<char>| text::escaped(layer)),
        ':',
    );
    if upper is Some && work is Some {
        lower + ",upperdir="@ + text::escaped(upper->0) + ",workdir="@ + text::escaped(work->0)
    } else {
        lower
    }
}

proof fn lemma_written_nul(
    layers: Seq<Seq<char>>,
    upper: Option<Seq<char>>,
    work: Option<Seq<char>>,
)
    ensures
        written_data(layers, upper, work).contains('\0') <==> nul_in_paths(layers, upper, work),
{
    let each = layers.map_values(|layer: Seq<char>| text::escaped(layer));
    let list = text::joined(each, ':');
    reveal_strlit("lowerdir=");
    reveal_strlit(",upperdir=");
    reveal_strlit(",workdir=");
    text::lemma_joined_nul(each);
    assert(list.contains('\0') <==> exists|i: int|
        0 <= i < layers.len() && (#[trigger] layers[i]).contains('\0')) by {
        assert forall|i: int| 0 <= i < layers.len() implies (#[trigger] each[i]).contains('\0')
            == layers[i].contains('\0') by {
            text::lemma_escaped_nul(layers[i]);
        }
        if list.contains('\0') {
            let i = choose|i: int| 0 <= i < each.len() && (#[trigger] each[i]).contains('\0');
            assert(layers[i].contains('\0'));
        }
        if exists|i: int| 0 <= i < layers.len() && (#[trigger] layers[i]).contains('\0') {
            let i = choose|i: int| 0 <= i < layers.len() && (#[trigger] layers[i]).contains('\0');
            assert(each[i].contains('\0'));
        }
    }
    assert(!"lowerdir="@.contains('\0'));
    assert(!",upperdir="@.contains('\0'));
    assert(!",workdir="@.contains('\0'));
    text::lemma_concat_contains("lowerdir="@, list, '\0');
    if upper is Some && work is Some {
        let u = text::escaped(upper->0);
        let w = text::escaped(work->0);
        let lower = "lowerdir="@ + list;
        text::lemma_escaped_nul(upper->0);
        text::lemma_escaped_nul(work->0);
        text::lemma_concat_contains(lower, ",upperdir="@, '\0');
        text::lemma_concat_contains(lower + ",upperdir="@, u, '\0');
        text::lemma_concat_contains(lower + ",upperdir="@ + u, ",workdir="@, '\0');
        text::lemma_concat_contains(lower + ",upperdir="@ + u + ",workdir="@, w, '\0');
    }
}

/// A single mount hands on exactly what it was given. It asks about the upper and the work directory
/// where there is one, and only those that exist take part. A KSU mount of lower directories alone
/// goes straight to the traditional mount; every other one tries `fsopen` first, with all layers in
/// order, and comes to the traditional mount by its failure. That writes the same layers, escaped,
/// and upper and work directory where both take part, unless there is a NUL in them.
pub proof fn core_mount_hands_on_what_it_was_given(
    layers: Seq<Seq<char>>,
    upper: Option<Seq<char>>,
    work: Option<Seq<char>>,
    dest: Place<Seq<char>>,
    source: Seq<char>,
    upper_exists: bool,
    work_exists: bool,
    cause: Seq<char>,
)
    ensures
        ({
            let start = CoreMount::started(layers, upper, work, dest, source);
            let asked = probe(upper, Reply::Flag(upper_exists)) + probe(
                work,
                Reply::Flag(work_exists),
            );
            let worked: ReplyView = Reply::Outcome(Ok(()));
            let failed: ReplyView = Reply::Outcome(Err(cause));
            let ready = runs::run(start, asked);
            let tagged = source == "KSU"@ && upper is None && work is None;
            let u = present(upper, upper_exists);
            let w = present(work, work_exists);
            let fallback = if tagged {
                ready
            } else {
                ready.resumed(failed)
            };
            &&& upper is Some ==> start.pending() == Next::Ask(Request::UpperExists(upper->0))
            &&& work is Some ==> runs::run(
                start,
                probe(upper, Reply::Flag(upper_exists)),
            ).pending() == Next::Ask(Request::WorkExists(work->0))
            &&& !tagged ==> ready.pending() == Next::Ask(
                Request::Fsopen {
                    upper: u,
                    work: w,
                    lowerdir: text::joined(layers, ':'),
                    source,
                    dest,
                },
            )
            &&& !tagged ==> ready.resumed(worked).pending() == Next::<Seq<char>>::Finished(Ok(()))
            &&& nul_in_paths(layers, u, w) ==> fallback.pending() == Next::<Seq<char>>::Finished(
                Err(MountError::NulInData),
            )
            &&& !nul_in_paths(layers, u, w) ==> {
                &&& fallback.pending() == Next::Ask(
                    Request::Mount {
                        source,
                        target: dest,
                        fstype: "overlay"@,
                        flags: MountFlags { bind: false, recursive: false },
                        data: Some(written_data(layers, u, w)),
                    },
                )
                &&& fallback.resumed(worked).pending() == Next::<Seq<char>>::Finished(Ok(()))
                &&& fallback.resumed(failed).pending() == Next::<Seq<char>>::Finished(
                    Err(
                        MountError::LegacyMount {
                            dest: match dest {
                                Place::Target(path) => path,
                                Place::Staging(path) => path,
                            },
                            cause,
                        },
                    ),
                )
            }
        }),
{
    let start = CoreMount::started(layers, upper, work, dest, source);
    let first: Seq<ReplyView> = probe(upper, Reply::Flag(upper_exists));
    let second: Seq<ReplyView> = probe(work, Reply::Flag(work_exists));
    let u = present(upper, upper_exists);
    let w = present(work, work_exists);
    reveal_with_fuel(runs::run, 2);
    if upper is Some {
        assert(first.drop_last() =~= seq![]);
    }
    let mid = runs::run(start, first);
    if work is Some {
        assert(second.drop_last() =~= seq![]);
    }
    runs::runs_compose(start, first, second);
    lemma_written_nul(layers, u, w);
    assert(text::escaped_all(layers) =~= layers.map_values(
        |layer: Seq<char>| text::escaped(layer),
    ));
    assert(runs::run(mid, second).plan.legacy_data() =~= written_data(layers, u, w));
}

/// Whatever the host replies, each mount request of a single mount carries the given source and goes
/// to the given place, and what `fsopen` gets as lower directories are the given layers: where none
/// of them holds a colon, cutting at the colons gives them back, all of them and in order. A layer
/// more at the end is a colon and that layer more at the end.
pub proof fn every_mount_request_keeps_layers_source_and_place(
    layers: Seq<Seq<char>>,
    upper: Option<Seq<char>>,
    work: Option<Seq<char>>,
    dest: Place<Seq<char>>,
    source: Seq<char>,
    replies: Seq<ReplyView>,
)
    ensures
        ({
            let mount = runs::run(CoreMount::started(layers, upper, work, dest, source), replies);
            &&& mount.pending() matches Next::Ask(
                Request::Fsopen { upper: u, work: w, lowerdir, source: tag, dest: place },
            ) ==> {
                &&& tag == source
                &&& place == dest
                &&& u is Some ==> u == upper
                &&& w is Some ==> w == work
                &&& layers.len() == 1 ==> lowerdir == layers[0]
                &&& layers.len() > 1 ==> lowerdir == text::joined(layers.drop_last(), ':')
                    + seq![':'] + layers.last()
                &&& layers.len() > 0 && (forall|i: int|
                    0 <= i < layers.len() ==> !(#[trigger] layers[i]).contains(':'))
                    ==> text::pieces(lowerdir, ':') == layers
            }
            &&& mount.pending() matches Next::Ask(
                Request::Mount { source: tag, target, fstype, flags, .. },
            ) ==> {
                &&& tag == source
                &&& target == dest
                &&& fstype == "overlay"@
                &&& !flags.bind && !flags.recursive
            }
        }),
{
    let start = CoreMount::started(layers, upper, work, dest, source);
    core_plan_is_kept(start, replies);
    lemma_directories_kept(layers, upper, work, dest, source, replies);
    if layers.len() > 0 && forall|i: int|
        0 <= i < layers.len() ==> !(#[trigger] layers[i]).contains(':') {
        text::joined_parts_split_back(layers, ':');
    }
    if layers.len() > 1 {
        let head = text::joined(layers.drop_last(), ':');
        assert(head.push(':') =~= head + seq![':']);
    }
}

proof fn lemma_directories_kept(
    layers: Seq<Seq<char>>,
    upper: Option<Seq<char>>,
    work: Option<Seq<char>>,
    dest: Place<Seq<char>>,
    source: Seq<char>,
    replies: Seq<ReplyView>,
)
    ensures
        ({
            let mount = runs::run(CoreMount::started(layers, upper, work, dest, source), replies);
            &&& mount.plan.upper is Some ==> mount.plan.upper == upper
            &&& mount.plan.work is Some ==> mount.plan.work == work
            &&& mount.phase matches CorePhase::Upper { upper: u, work: w } ==> upper == Some(u)
                && w == work
            &&& mount.phase matches CorePhase::Work(w) ==> work == Some(w)
        }),
    decreases replies.len(),
{
    if replies.len() > 0 {
        lemma_directories_kept(layers, upper, work, dest, source, replies.drop_last());
    }
}

/// A mount keeps its source tag on the traditional path exactly where that was asked for: for the
/// source `KSU`, with neither upper nor work directory.
pub proof fn legacy_is_preferred_for_ksu_alone<T>(
    source: Seq<char>,
    upper: Option<T>,
    work: Option<T>,
)
    ensures
        core_mount::prefers_legacy(source, upper, work) <==> source == "KSU"@ && upper is None
            && work is None,
{
}

} // verus!
