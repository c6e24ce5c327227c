//! Layer lists that are longer than one OverlayFS mount can hold.

use vstd::prelude::*;

verus! {

/// Maximum layers accepted in a single overlayfs mount.
pub const MAX_LAYERS: usize = 64;

/// How many layers of a list stay as they are when its low-priority tail is staged.
pub open spec fn split_index(count: nat) -> int {
    count - (MAX_LAYERS - 1)
}

/// The layers that one staging step leaves alone.
pub open spec fn kept<T>(layers: Seq<T>) -> Seq<T> {
    layers.take(split_index(layers.len()))
}

/// The low-priority tail that one staging step puts into a single staging layer.
pub open spec fn tail<T>(layers: Seq<T>) -> Seq<T> {
    layers.skip(split_index(layers.len()))
}

/// What becomes of `layers` when `staged` are the staging layers that were created, in turn.
pub open spec fn collapsed<T>(layers: Seq<T>, staged: Seq<T>) -> Seq<T>
    decreases staged.len(),
{
    if staged.len() == 0 {
        layers
    } else {
        collapsed(kept(layers).push(staged[0]), staged.drop_first())
    }
}

/// How many staging steps a list of `count` layers takes.
pub open spec fn staging_steps(count: nat) -> nat
    decreases count,
{
    if count <= MAX_LAYERS {
        0
    } else {
        1 + staging_steps((split_index(count) + 1) as nat)
    }
}

/// Whether the low-priority tail of `layers` may be answered with `reply`, where `answers` says which
/// replies a list of layers may get.
pub open spec fn tail_reply<E>(
    answers: spec_fn(Seq<String>, Result<String, E>) -> bool,
    layers: Seq<String>,
    reply: Result<String, E>,
) -> bool {
    answers(tail(layers), reply)
}

/// Whether collapsing `layers` may end with the layers `out` and the result `r`: each tail in turn
/// is answered, and the layer that comes back takes the tail's place, until the list fits into one
/// mount or the answer is a failure.
pub open spec fn collapse_outcome<E>(
    answers: spec_fn(Seq<String>, Result<String, E>) -> bool,
    layers: Seq<String>,
    out: Seq<String>,
    r: Result<(), E>,
) -> bool
    decreases layers.len(),
{
    if layers.len() <= MAX_LAYERS {
        r is Ok && out == layers
    } else {
        exists|reply: Result<String, E>| #[trigger]
            tail_reply(answers, layers, reply) && match reply {
                Ok(layer) => collapse_outcome(answers, kept(layers).push(layer), out, r),
                Err(e) => r == Err::<(), E>(e) && out == kept(layers),
            }
    }
}

/// Whether `staged` may be the staging layers that were created so far, in turn: each of them answers
/// the tail that was the next to be staged.
pub open spec fn staged_in_turn<E>(
    answers: spec_fn(Seq<String>, Result<String, E>) -> bool,
    layers: Seq<String>,
    staged: Seq<String>,
) -> bool {
    forall|k: int|
        0 <= k < staged.len() ==> tail_reply(
            answers,
            collapsed(layers, staged.take(k)),
            Ok::<String, E>(#[trigger] staged[k]),
        )
}

/// One staging layer more collapses what the others left.
pub(crate) proof fn lemma_collapsed_push<T>(layers: Seq<T>, staged: Seq<T>, next: T)
    ensures
        collapsed(layers, staged.push(next)) == kept(collapsed(layers, staged)).push(next),
    decreases staged.len(),
{
    let more = staged.push(next);
    if staged.len() == 0 {
        assert(more.drop_first() =~= seq![]);
        reveal_with_fuel(collapsed, 2);
    } else {
        assert(more.drop_first() =~= staged.drop_first().push(next));
        lemma_collapsed_push(kept(layers).push(staged[0]), staged.drop_first(), next);
    }
}

/// Takes the low-priority tail off a list that is too long for one mount.
pub(crate) fn split_tail(current_layers: &mut Vec<String>) -> (staging_layers: Vec<String>)
    requires
        old(current_layers)@.len() > MAX_LAYERS,
    ensures
        final(current_layers)@ == kept(old(current_layers)@),
        staging_layers@ == tail(old(current_layers)@),
{
    let split_idx: usize = current_layers.len() - (MAX_LAYERS - 1);
    let staging_layers: Vec<String> = current_layers.split_off(split_idx);
    assert(current_layers@ =~= kept(old(current_layers)@));
    assert(staging_layers@ =~= tail(old(current_layers)@));
    staging_layers
}

/// Collapse low-priority tails until one OverlayFS mount can hold the result.
/// Each generated staging layer is inserted immediately so the next iteration
/// includes it instead of planning against stale original inputs.
///
/// `create_staging_layer` is called on nothing but the tails that come up in turn, given what it has
/// answered before, and so not at all where one mount can hold the list.
pub fn collapse_staging_layers<E, F: FnMut(&[String]) -> Result<String, E>>(
    current_layers: &mut Vec<String>,
    mut create_staging_layer: F,
) -> (r: Result<(), E>)
    requires
        forall|staged: Seq<String>, chunk: &[String]|
            staged.len() < staging_steps(old(current_layers)@.len()) && staged_in_turn(
                (|layers: Seq<String>, reply: Result<String, E>|
                    exists|given: &[String]| #[trigger]
                        call_ensures(create_staging_layer, (given,), reply) && given@ == layers),
                old(current_layers)@,
                staged,
            ) && chunk@ == tail(#[trigger] collapsed(old(current_layers)@, staged))
                ==> #[trigger] call_requires(create_staging_layer, (chunk,)),
    ensures
        collapse_outcome(
            (|layers: Seq<String>, reply: Result<String, E>|
                exists|chunk: &[String]| #[trigger]
                    call_ensures(create_staging_layer, (chunk,), reply) && chunk@ == layers),
            old(current_layers)@,
            final(current_layers)@,
            r,
        ),
        old(current_layers)@.len() <= MAX_LAYERS ==> r is Ok && final(current_layers)@ == old(
            current_layers,
        )@,
        r is Ok ==> final(current_layers)@.len() <= MAX_LAYERS,
{
    let ghost all = current_layers@;
    let ghost create = create_staging_layer;
    let ghost answers = |layers: Seq<String>, reply: Result<String, E>|
        exists|chunk: &[String]| #[trigger]
            call_ensures(create, (chunk,), reply) && chunk@ == layers;
    let ghost mut staged: Seq<String> = seq![];
    #[verifier::loop_isolation(false)]
    while current_layers.len() > MAX_LAYERS
        invariant
            create == create_staging_layer,
            staged.len() <= staging_steps(all.len()),
            staged_in_turn(answers, all, staged),
            current_layers@ == collapsed(all, staged),
            forall|out: Seq<String>, r: Result<(), E>|
                collapse_outcome(answers, current_layers@, out, r) ==> collapse_outcome(
                    answers,
                    all,
                    out,
                    r,
                ),
        decreases current_layers.len(),
    {
        let ghost layers = current_layers@;
        proof {
            collapsed_fits(all, staged);
        }
        let staging_layers: Vec<String> = split_tail(current_layers);
        let reply: Result<String, E> = create_staging_layer(staging_layers.as_slice());
        assert(tail_reply(answers, layers, reply));
        match reply {
            Ok(staging_layer) => {
                proof {
                    let more = staged.push(staging_layer);
                    lemma_collapsed_push(all, staged, staging_layer);
                    assert(more.take(staged.len() as int) =~= staged);
                    assert forall|k: int| 0 <= k < more.len() implies tail_reply(
                        answers,
                        collapsed(all, more.take(k)),
                        Ok::<String, E>(#[trigger] more[k]),
                    ) by {
                        if k < staged.len() {
                            assert(more[k] == staged[k]);
                            assert(more.take(k) =~= staged.take(k));
                        }
                    }
                    staged = more;
                }
                current_layers.push(staging_layer);
            },
            Err(e) => {
                assert(collapse_outcome(answers, layers, current_layers@, Err::<(), E>(e)));
                return Err(e);
            },
        }
    }
    Ok(())
}

/// Everything that a list of layers covers, in order, where `cover` says what one layer covers.
pub open spec fn coverage<T, A>(layers: Seq<T>, cover: spec_fn(T) -> Seq<A>) -> Seq<A>
    decreases layers.len(),
{
    if layers.len() == 0 {
        seq![]
    } else {
        coverage(layers.drop_last(), cover) + cover(layers.last())
    }
}

proof fn lemma_coverage_concat<T, A>(a: Seq<T>, b: Seq<T>, cover: spec_fn(T) -> Seq<A>)
    ensures
        coverage(a + b, cover) == coverage(a, cover) + coverage(b, cover),
    decreases b.len(),
{
    if b.len() == 0 {
        assert(a + b =~= a);
        assert(coverage(a, cover) + coverage(b, cover) =~= coverage(a, cover));
    } else {
        lemma_coverage_concat(a, b.drop_last(), cover);
        assert((a + b).drop_last() =~= a + b.drop_last());
        assert(coverage(a, cover) + coverage(b.drop_last(), cover) + cover(b.last()) =~= coverage(
            a,
            cover,
        ) + coverage(b, cover));
    }
}

/// One staging step covers what the layers covered, in the same order, provided that the staging
/// layer covers its tail.
pub proof fn staging_step_keeps_coverage<T, A>(
    layers: Seq<T>,
    layer: T,
    cover: spec_fn(T) -> Seq<A>,
)
    requires
        layers.len() > MAX_LAYERS,
        cover(layer) == coverage(tail(layers), cover),
    ensures
        coverage(kept(layers).push(layer), cover) == coverage(layers, cover),
{
    lemma_coverage_concat(kept(layers), tail(layers), cover);
    assert(kept(layers) + tail(layers) =~= layers);
    assert(kept(layers).push(layer).drop_last() =~= kept(layers));
}

/// The number of staging steps: none up to the limit, and past it one for each 62 layers, or part
/// of 62, above the limit.
pub proof fn staging_steps_formula(count: nat)
    ensures
        count <= MAX_LAYERS ==> staging_steps(count) == 0,
        count > MAX_LAYERS ==> staging_steps(count) == (count - MAX_LAYERS + 61) / 62,
    decreases count,
{
    if count > MAX_LAYERS {
        staging_steps_formula((split_index(count) + 1) as nat);
    }
}

/// Collapsing with as many staging layers as the count asks for ends within the limit, takes
/// 62 layers off the count at each step, and leaves a prefix of the layers, which are those of
/// the highest priority, followed by the last staging layer.
pub proof fn collapsed_fits<T>(layers: Seq<T>, staged: Seq<T>)
    requires
        staged.len() <= staging_steps(layers.len()),
    ensures
        collapsed(layers, staged).len() == layers.len() - 62 * staged.len(),
        staged.len() == staging_steps(layers.len()) <==> collapsed(layers, staged).len()
            <= MAX_LAYERS,
        staged.len() > 0 ==> collapsed(layers, staged) == layers.take(
            collapsed(layers, staged).len() - 1,
        ).push(staged.last()),
    decreases staged.len(),
{
    if staged.len() > 0 {
        let next = kept(layers).push(staged[0]);
        let rest = staged.drop_first();
        assert(staging_steps(layers.len()) == 1 + staging_steps(next.len()));
        collapsed_fits(next, rest);
        let out = collapsed(next, rest);
        if rest.len() == 0 {
            assert(out =~= layers.take(out.len() - 1).push(staged.last()));
        } else {
            assert(out.len() - 1 <= kept(layers).len());
            assert(next.take(out.len() - 1) =~= layers.take(out.len() - 1));
        }
    }
}

/// A whole collapse covers every layer in order, provided that each staging layer covers the tail
/// that it stands for.
pub proof fn collapsed_keeps_coverage<T, A>(
    layers: Seq<T>,
    staged: Seq<T>,
    cover: spec_fn(T) -> Seq<A>,
)
    requires
        staged.len() <= staging_steps(layers.len()),
        forall|k: int|
            0 <= k < staged.len() ==> cover(#[trigger] staged[k]) == coverage(
                tail(collapsed(layers, staged.take(k))),
                cover,
            ),
    ensures
        coverage(collapsed(layers, staged), cover) == coverage(layers, cover),
    decreases staged.len(),
{
    if staged.len() > 0 {
        let next = kept(layers).push(staged[0]);
        let rest = staged.drop_first();
        assert(collapsed(layers, staged.take(0)) == layers);
        staging_step_keeps_coverage(layers, staged[0], cover);
        assert(staging_steps(layers.len()) == 1 + staging_steps(next.len()));
        assert forall|k: int| 0 <= k < rest.len() implies cover(#[trigger] rest[k]) == coverage(
            tail(collapsed(next, rest.take(k))),
            cover,
        ) by {
            assert(rest[k] == staged[k + 1]);
            let upto = staged.take(k + 1);
            assert(upto.drop_first() =~= rest.take(k));
            assert(collapsed(layers, upto) == collapsed(next, rest.take(k)));
        }
        collapsed_keeps_coverage(next, rest, cover);
    }
}

/// Every outcome of a collapse is explained by the staging layers that were created: a success
/// took exactly the steps that the count asks for, and a failure took fewer, stopped at the
/// reported error and left the layers that the failing step keeps.
pub proof fn collapse_outcome_explained<E>(
    answers: spec_fn(Seq<String>, Result<String, E>) -> bool,
    layers: Seq<String>,
    out: Seq<String>,
    r: Result<(), E>,
) -> (staged: Seq<String>)
    requires
        collapse_outcome(answers, layers, out, r),
    ensures
        staged_in_turn(answers, layers, staged),
        r is Ok ==> staged.len() == staging_steps(layers.len()) && out == collapsed(layers, staged),
        r matches Err(e) ==> {
            &&& staged.len() < staging_steps(layers.len())
            &&& out == kept(collapsed(layers, staged))
            &&& tail_reply(answers, collapsed(layers, staged), Err::<String, E>(e))
        },
    decreases layers.len(),
{
    if layers.len() <= MAX_LAYERS {
        seq![]
    } else {
        let reply = choose|reply: Result<String, E>| #[trigger]
            tail_reply(answers, layers, reply) && match reply {
                Ok(layer) => collapse_outcome(answers, kept(layers).push(layer), out, r),
                Err(e) => r == Err::<(), E>(e) && out == kept(layers),
            };
        match reply {
            Err(_) => seq![],
            Ok(layer) => {
                let next = kept(layers).push(layer);
                let rest = collapse_outcome_explained(answers, next, out, r);
                let staged = seq![layer] + rest;
                assert(staged.drop_first() =~= rest);
                assert forall|k: int| 0 <= k < staged.len() implies tail_reply(
                    answers,
                    collapsed(layers, staged.take(k)),
                    Ok::<String, E>(#[trigger] staged[k]),
                ) by {
                    if k == 0 {
                        assert(collapsed(layers, staged.take(0)) == layers);
                    } else {
                        assert(staged[k] == rest[k - 1]);
                        assert(staged.take(k).drop_first() =~= rest.take(k - 1));
                        assert(staged.take(k)[0] == layer);
                    }
                }
                staged
            },
        }
    }
}

/// Whatever the number of layers, a successful collapse preserves every layer in order, provided
/// that each layer that comes back covers the tail it stands for.
pub proof fn collapse_preserves_every_layer_in_order<A, E>(
    answers: spec_fn(Seq<String>, Result<String, E>) -> bool,
    layers: Seq<String>,
    out: Seq<String>,
    cover: spec_fn(String) -> Seq<A>,
)
    requires
        collapse_outcome(answers, layers, out, Ok::<(), E>(())),
        forall|chunk: Seq<String>, layer: String| #[trigger]
            answers(chunk, Ok::<String, E>(layer)) ==> cover(layer) == coverage(chunk, cover),
    ensures
        out.len() <= MAX_LAYERS,
        coverage(out, cover) == coverage(layers, cover),
{
    let staged = collapse_outcome_explained(answers, layers, out, Ok::<(), E>(()));
    collapsed_fits(layers, staged);
    collapsed_keeps_coverage(layers, staged, cover);
}

/// A collapse goes step by step. A list of no more than 64 layers stays as it is. Of a longer one the
/// last 63 layers are handed over, and with the layer that comes back in their place the collapse
/// goes on; where a failure comes back, it ends with that, and the other layers are left.
pub proof fn collapse_goes_step_by_step<E>(
    answers: spec_fn(Seq<String>, Result<String, E>) -> bool,
    layers: Seq<String>,
    out: Seq<String>,
    r: Result<(), E>,
)
    ensures
        layers.len() <= 64 ==> (collapse_outcome(answers, layers, out, r) <==> r is Ok && out
            == layers),
        layers.len() > 64 ==> (collapse_outcome(answers, layers, out, r) <==> exists|
            reply: Result<String, E>,
        |
            {
                &&& #[trigger] answers(layers.skip(layers.len() - 63), reply)
                &&& match reply {
                    Ok(layer) => collapse_outcome(
                        answers,
                        layers.take(layers.len() - 63).push(layer),
                        out,
                        r,
                    ),
                    Err(e) => r == Err::<(), E>(e) && out == layers.take(layers.len() - 63),
                }
            }),
{
    if layers.len() > 64 {
        assert(tail(layers) == layers.skip(layers.len() - 63));
        assert(kept(layers) == layers.take(layers.len() - 63));
        if collapse_outcome(answers, layers, out, r) {
            let reply = choose|reply: Result<String, E>| #[trigger]
                tail_reply(answers, layers, reply) && match reply {
                    Ok(layer) => collapse_outcome(answers, kept(layers).push(layer), out, r),
                    Err(e) => r == Err::<(), E>(e) && out == kept(layers),
                };
            assert(answers(layers.skip(layers.len() - 63), reply));
        }
        if exists|reply: Result<String, E>|
            {
                &&& #[trigger] answers(layers.skip(layers.len() - 63), reply)
                &&& match reply {
                    Ok(layer) => collapse_outcome(
                        answers,
                        layers.take(layers.len() - 63).push(layer),
                        out,
                        r,
                    ),
                    Err(e) => r == Err::<(), E>(e) && out == layers.take(layers.len() - 63),
                }
            } {
            let reply = choose|reply: Result<String, E>|
                {
                    &&& #[trigger] answers(layers.skip(layers.len() - 63), reply)
                    &&& match reply {
                        Ok(layer) => collapse_outcome(
                            answers,
                            layers.take(layers.len() - 63).push(layer),
                            out,
                            r,
                        ),
                        Err(e) => r == Err::<(), E>(e) && out == layers.take(layers.len() - 63),
                    }
                };
            assert(tail_reply(answers, layers, reply));
        }
    }
}

} // verus!
