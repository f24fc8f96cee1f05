//! What holds of loader tasks over any number of steps: the order of their
//! visits, what is sent and cached, and how often a view is loaded.

use crate::outside::{data_bytes, data_is_shared, data_shape, data_type, seeded_words, shuffle_draw};
use crate::scene_loader::{
    cached_bytes, law_epoch_visits_every_view_once, lemma_fill_slot, view_indices, visit_order, BatchCache,
    CacheState, LoaderAction, LoaderEvent, LoaderTask, SceneBatch, SceneLoader, TaskState, Turn,
};
use burn::tensor::TensorData;
use std::sync::Arc;
use vstd::arithmetic::mul::*;
use vstd::prelude::*;

verus! {

/// Whether a task visits these views one after the other, going through these
/// states.
pub open spec fn is_run(states: Seq<TaskState>, indices: Seq<usize>) -> bool {
    &&& states.len() == indices.len() + 1
    &&& forall|i: int| 0 <= i < indices.len() ==> states[i].visits(#[trigger] indices[i], states[i + 1])
}

/// The `k`-th epoch of these visits.
pub open spec fn epoch_of(indices: Seq<usize>, n_views: nat, k: nat) -> Seq<usize> {
    indices.subrange((k * n_views) as int, ((k + 1) * n_views) as int)
}

/// Whether each view comes exactly once: none is skipped, and none comes
/// twice.
pub open spec fn is_round_trip(epoch: Seq<usize>, n_views: nat) -> bool {
    &&& epoch.len() == n_views
    &&& epoch.no_duplicates()
    &&& forall|index: usize| epoch.contains(index) <==> index < n_views
}

/// The views that a task visits over a run follow from the number of views,
/// what is left of its epoch and the random words ahead, and so, for a task
/// from its start, from the number of views and the seed. What the cache holds
/// plays no part.
pub proof fn law_visits_follow_the_seed(states: Seq<TaskState>, indices: Seq<usize>)
    requires
        is_run(states, indices),
    ensures
        indices == visit_order(states[0].n_views, states[0].pending, states[0].words, indices.len()),
        forall|n_views: nat, seed: u64|
            states[0] == #[trigger] TaskState::fresh(n_views, seed) ==> indices == visit_order(
                n_views,
                Seq::empty(),
                seeded_words(seed),
                indices.len(),
            ),
    decreases indices.len(),
{
    if indices.len() > 0 {
        let (later_states, later) = (states.skip(1), indices.skip(1));
        assert forall|i: int| 0 <= i < later.len() implies later_states[i].visits(
            #[trigger] later[i],
            later_states[i + 1],
        ) by {
            assert(states[i + 1].visits(indices[i + 1], states[i + 2]));
        }
        law_visits_follow_the_seed(later_states, later);
        assert(states[0].visits(indices[0], states[1]));
        assert(indices == seq![indices[0]] + later);
    }
}

/// The number of views stays over a run.
proof fn lemma_views_stay(states: Seq<TaskState>, indices: Seq<usize>, i: int)
    requires
        is_run(states, indices),
        0 <= i <= indices.len(),
    ensures
        states[i].n_views == states[0].n_views,
    decreases i,
{
    if i > 0 {
        lemma_views_stay(states, indices, i - 1);
        assert(states[i - 1].visits(indices[i - 1], states[i]));
    }
}

/// Within an epoch that begins at `p`, the views come from the end of its
/// order.
proof fn lemma_within_epoch(states: Seq<TaskState>, indices: Seq<usize>, p: int, j: int)
    requires
        is_run(states, indices),
        0 <= p,
        1 <= j <= states[p].epoch().0.len(),
        p + states[p].epoch().0.len() <= indices.len(),
        states[p].pending.len() == 0,
    ensures
        states[p + j].pending == states[p].epoch().0.take(states[p].epoch().0.len() - j),
        forall|t: int| 0 <= t < j ==> indices[p + t] == #[trigger] states[p].epoch().0.reverse()[t],
    decreases j,
{
    let order = states[p].epoch().0;
    if j == 1 {
        assert(states[p].visits(indices[p], states[p + 1]));
        assert(order.drop_last() == order.take(order.len() - 1));
    } else {
        lemma_within_epoch(states, indices, p, j - 1);
        let before = states[p + j - 1];
        assert(before.visits(indices[p + j - 1], states[p + j - 1 + 1]));
        assert(before.pending.drop_last() == order.take(order.len() - j));
        assert(order.reverse()[j - 1] == before.pending.last());
    }
}

/// An epoch begins after every `n_views` visits.
proof fn lemma_epoch_begins(states: Seq<TaskState>, indices: Seq<usize>, n_views: nat, k: nat)
    requires
        is_run(states, indices),
        states[0].pending.len() == 0,
        states[0].n_views == n_views,
        0 < n_views <= usize::MAX,
        k * n_views <= indices.len(),
    ensures
        states[(k * n_views) as int].pending.len() == 0,
        states[(k * n_views) as int].n_views == n_views,
        k * n_views < indices.len() ==> states[(k * n_views) as int].epoch().0.to_multiset() == view_indices(
            n_views,
        ).to_multiset(),
    decreases k,
{
    let p = (k * n_views) as int;
    lemma_views_stay(states, indices, p);
    if k > 0 {
        let before = (k - 1) as nat;
        let q = (before * n_views) as int;
        lemma_mul_is_distributive_add_other_way(n_views as int, before as int, 1);
        lemma_epoch_begins(states, indices, n_views, before);
        law_epoch_visits_every_view_once(states[q].epoch().0, n_views);
        lemma_within_epoch(states, indices, q, n_views as int);
    }
    if p < indices.len() {
        assert(states[p].visits(indices[p], states[p + 1]));
    }
}

/// In every epoch of a run, the first and all later ones, each view comes
/// exactly once: none is skipped, and none comes twice. They come from the end
/// of what shuffling them with the words ahead gives.
pub proof fn law_every_epoch_visits_every_view_once(
    states: Seq<TaskState>,
    indices: Seq<usize>,
    n_views: nat,
    k: nat,
)
    requires
        is_run(states, indices),
        states[0].pending.len() == 0,
        states[0].n_views == n_views,
        0 < n_views <= usize::MAX,
        (k + 1) * n_views <= indices.len(),
    ensures
        is_round_trip(epoch_of(indices, n_views, k), n_views),
        epoch_of(indices, n_views, k) == shuffle_draw(
            Seq::new(n_views, |i: int| i as usize),
            states[(k * n_views) as int].words,
        ).0.reverse(),
{
    let p = (k * n_views) as int;
    lemma_mul_is_distributive_add_other_way(n_views as int, k as int, 1);
    lemma_epoch_begins(states, indices, n_views, k);
    let order = states[p].epoch().0;
    law_epoch_visits_every_view_once(order, n_views);
    lemma_within_epoch(states, indices, p, n_views as int);
    let epoch = epoch_of(indices, n_views, k);
    assert forall|t: int| 0 <= t < n_views implies epoch[t] == order.reverse()[t] by {
        assert(indices[p + t] == order.reverse()[t]);
    }
    assert(epoch == order.reverse());
    assert forall|index: usize| epoch.contains(index) <==> index < n_views by {
        if epoch.contains(index) {
            let i = choose|i: int| 0 <= i < epoch.len() && epoch[i] == index;
            assert(order[order.len() - 1 - i] == index);
            assert(order.contains(index));
        }
        if index < n_views {
            assert(order.contains(index));
            let i = choose|i: int| 0 <= i < order.len() && order[i] == index;
            assert(epoch[order.len() - 1 - i] == index);
        }
    }
}

/// Whether tasks take these turns one after the other on one cache, whichever
/// task each of them is.
pub open spec fn is_history<A, C>(turns: Seq<Turn<A, C>>) -> bool {
    &&& forall|i: int| 0 <= i < turns.len() ==> (#[trigger] turns[i]).is_due() && turns[i].happens()
    &&& forall|i: int| 0 < i < turns.len() ==> (#[trigger] turns[i]).cache == turns[i - 1].cache_after
}

/// A history without its last turn is a history.
proof fn lemma_history_without_last<A, C>(turns: Seq<Turn<A, C>>)
    requires
        is_history(turns),
        turns.len() > 0,
    ensures
        is_history(turns.drop_last()),
{
    let earlier = turns.drop_last();
    assert forall|i: int| 0 <= i < earlier.len() implies (#[trigger] earlier[i]).is_due() && earlier[i].happens() by {
        assert(turns[i].is_due());
    }
    assert forall|i: int| 0 < i < earlier.len() implies (#[trigger] earlier[i]).cache == earlier[i - 1].cache_after by {
        assert(turns[i].cache == turns[i - 1].cache_after);
    }
}

/// The bytes that all tasks together have cached never pass the budget, and
/// the budget stays what it is.
pub proof fn law_budget_is_kept_by_all_tasks<A, C>(turns: Seq<Turn<A, C>>)
    requires
        is_history(turns),
        turns.len() > 0 ==> turns[0].cache.wf(),
    ensures
        forall|i: int|
            0 <= i < turns.len() ==> {
                &&& (#[trigger] turns[i]).cache.wf()
                &&& turns[i].cache_after.budget == turns[0].cache.budget
                &&& cached_bytes(turns[i].cache_after.slots) <= turns[0].cache.budget
            },
    decreases turns.len(),
{
    if turns.len() > 0 {
        let earlier = turns.drop_last();
        let last = turns.len() - 1;
        lemma_history_without_last(turns);
        law_budget_is_kept_by_all_tasks(earlier);
        let turn = turns[last];
        if last > 0 {
            assert(turn.cache == earlier[last - 1].cache_after);
        }
        assert(turn.is_due() && turn.happens());
        if turn.cache_after != turn.cache {
            lemma_fill_slot(turn.cache.slots, turn.view_index() as int, turn.action->Send_batch);
        }
        assert forall|i: int| 0 <= i < turns.len() implies {
            &&& (#[trigger] turns[i]).cache.wf()
            &&& turns[i].cache_after.budget == turns[0].cache.budget
            &&& cached_bytes(turns[i].cache_after.slots) <= turns[0].cache.budget
        } by {
            if i < last {
                assert(earlier[i].cache.wf());
            }
        }
    }
}

/// Every batch that is sent for a view shows what loading the view gives,
/// equally where it comes from the cache, where it is loaded and cached, and
/// where it is loaded and not cached; whichever of the tasks that share the
/// cache loaded it first.
pub proof fn law_every_batch_shows_its_view<A, C>(turns: Seq<Turn<A, C>>, images: spec_fn(int) -> SceneBatch<A, C>)
    requires
        is_history(turns),
        turns.len() > 0 ==> turns[0].cache.holds_only(images),
        forall|i: int|
            0 <= i < turns.len() ==> ((#[trigger] turns[i]).event matches LoaderEvent::Loaded {
                img_packed,
                has_alpha,
                alpha_mode,
                camera,
            } ==> {
                let image = images(turns[i].view_index() as int);
                &&& data_bytes(img_packed) == data_bytes(image.img_packed)
                &&& data_shape(img_packed) == data_shape(image.img_packed)
                &&& data_type(img_packed) == data_type(image.img_packed)
                &&& has_alpha == image.has_alpha
                &&& alpha_mode == image.alpha_mode
                &&& camera == image.camera
            }),
    ensures
        forall|i: int|
            0 <= i < turns.len() ==> {
                let image = images(turns[i].view_index() as int);
                &&& (#[trigger] turns[i]).cache_after.holds_only(images)
                &&& turns[i].action matches LoaderAction::Send { batch } ==> {
                    &&& data_bytes(batch.img_packed) == data_bytes(image.img_packed)
                    &&& data_shape(batch.img_packed) == data_shape(image.img_packed)
                    &&& data_type(batch.img_packed) == data_type(image.img_packed)
                    &&& batch.has_alpha == image.has_alpha
                    &&& batch.alpha_mode == image.alpha_mode
                    &&& batch.camera == image.camera
                }
            },
    decreases turns.len(),
{
    if turns.len() > 0 {
        let earlier = turns.drop_last();
        let last = turns.len() - 1;
        lemma_history_without_last(turns);
        assert forall|i: int| 0 <= i < earlier.len() implies #[trigger] earlier[i] == turns[i] by {}
        law_every_batch_shows_its_view(earlier, images);
        let turn = turns[last];
        if last > 0 {
            assert(turn.cache == earlier[last - 1].cache_after);
        }
        assert(turn.cache.holds_only(images));
        assert(turn.is_due() && turn.happens());
        assert(turn.cache_after.holds_only(images));
        assert forall|i: int| 0 <= i < turns.len() implies {
            &&& (#[trigger] turns[i]).cache_after.holds_only(images)
            &&& turns[i].action matches LoaderAction::Send { batch } ==> batch.shows(
                images(turns[i].view_index() as int),
            )
        } by {
            if i < last {
                assert(earlier[i].cache_after.holds_only(images));
            }
        }
    }
}

/// A batch that comes from the cache has its pixels shared, so that handing it
/// out copies none, and so has a batch that was just taken into the cache.
pub proof fn law_hits_copy_no_pixels<A, C>(turns: Seq<Turn<A, C>>)
    requires
        is_history(turns),
        turns.len() > 0 ==> turns[0].cache.holds_shared(),
    ensures
        forall|i: int|
            0 <= i < turns.len() ==> {
                &&& (#[trigger] turns[i]).cache_after.holds_shared()
                &&& turns[i].action matches LoaderAction::Send { batch } ==> turns[i].cache_after.slots[
                    turns[i].view_index() as int
                ] == Some(batch) ==> batch.is_shared()
            },
    decreases turns.len(),
{
    if turns.len() > 0 {
        let earlier = turns.drop_last();
        let last = turns.len() - 1;
        lemma_history_without_last(turns);
        law_hits_copy_no_pixels(earlier);
        let turn = turns[last];
        if last > 0 {
            assert(turn.cache == earlier[last - 1].cache_after);
        }
        assert(turn.cache.holds_shared());
        assert(turn.is_due() && turn.happens());
        assert(turn.cache_after.holds_shared());
        assert forall|i: int| 0 <= i < turns.len() implies {
            &&& (#[trigger] turns[i]).cache_after.holds_shared()
            &&& turns[i].action matches LoaderAction::Send { batch } ==> turns[i].cache_after.slots[
                turns[i].view_index() as int
            ] == Some(batch) ==> batch.is_shared()
        } by {
            if i < last {
                assert(earlier[i].cache_after.holds_shared());
            }
        }
    }
}

/// What was loaded is sent as it is: the very camera, alpha mode and presence
/// of alpha that came with the pixels, and the pixels in their form. Where the
/// view has nothing cached and the pixels still fit the budget, the cache holds
/// that very batch from then on, its pixels shared; else it stays as it was.
pub proof fn law_loaded_view_is_sent_as_it_came<A: Copy, C: Copy>(
    task: &mut LoaderTask,
    cache: &mut BatchCache<A, C>,
    img_packed: TensorData,
    has_alpha: bool,
    alpha_mode: A,
    camera: C,
    action: LoaderAction<A, C>,
)
    requires
        old(task).wf(),
        old(task)@.n_views > 0,
        old(cache).wf(),
        old(cache)@.slots.len() == old(task)@.n_views,
        old(task)@.loading is Some,
        call_ensures(
            LoaderTask::step::<A, C>,
            (task, cache, LoaderEvent::Loaded { img_packed, has_alpha, alpha_mode, camera }),
            action,
        ),
    ensures
        action matches LoaderAction::Send { batch } && {
            let index = old(task)@.loading->Some_0 as int;
            &&& batch.has_alpha == has_alpha
            &&& batch.alpha_mode == alpha_mode
            &&& batch.camera == camera
            &&& data_bytes(batch.img_packed) == data_bytes(img_packed)
            &&& data_shape(batch.img_packed) == data_shape(img_packed)
            &&& data_type(batch.img_packed) == data_type(img_packed)
            &&& if old(cache)@.slots[index] is None && cached_bytes(old(cache)@.slots) + data_bytes(img_packed).len()
                <= old(cache)@.budget {
                &&& data_is_shared(batch.img_packed)
                &&& final(cache)@.slots == old(cache)@.slots.update(index, Some(batch))
                &&& final(cache)@.budget == old(cache)@.budget
            } else {
                final(cache)@ == old(cache)@
            }
        },
        final(task)@.loading is None,
        final(task)@.pending == old(task)@.pending,
{
}

/// What a task does at its start and once a batch went out: it goes to the
/// last of the views that are left of its epoch, or of a shuffle of all views
/// from their own order, and sends what is cached for it, that very batch, or
/// asks for it to be loaded. It stops where nobody takes batches any more. The
/// cache stays as it is.
pub proof fn law_next_view_is_sent_or_loaded<A: Copy, C: Copy>(
    task: &mut LoaderTask,
    cache: &mut BatchCache<A, C>,
    event: LoaderEvent<A, C>,
    action: LoaderAction<A, C>,
)
    requires
        old(task).wf(),
        old(task)@.n_views > 0,
        old(cache).wf(),
        old(cache)@.slots.len() == old(task)@.n_views,
        !(event is Loaded),
        call_ensures(LoaderTask::step::<A, C>, (task, cache, event), action),
    ensures
        final(cache)@ == old(cache)@,
        action is Stop <==> event == (LoaderEvent::<A, C>::Sent { accepted: false }),
        !(action is Stop) ==> {
            let left = if old(task)@.pending.len() == 0 {
                shuffle_draw(Seq::new(old(task)@.n_views, |i: int| i as usize), old(task)@.words).0
            } else {
                old(task)@.pending
            };
            let index = left.last();
            &&& index < old(task)@.n_views
            &&& final(task)@.pending == left.drop_last()
            &&& match old(cache)@.slots[index as int] {
                Some(cached) => action == (LoaderAction::Send { batch: cached }) && final(task)@.loading is None,
                None => action == (LoaderAction::<A, C>::Load { index }) && final(task)@.loading == Some(index),
            }
        },
        action is Stop ==> final(task)@ == old(task)@,
{
    assert(view_indices(old(task)@.n_views) == Seq::new(old(task)@.n_views, |i: int| i as usize));
}

/// A new task has nothing left of an epoch and nothing under way: it has the
/// views that it was given, and all the words of its seed ahead.
pub proof fn law_new_task_has_all_ahead(n_views: usize, seed: u64, task: LoaderTask)
    requires
        call_ensures(LoaderTask::new, (n_views, seed), task),
    ensures
        task@.n_views == n_views,
        task@.pending.len() == 0,
        task@.loading is None,
        task@.words == seeded_words(seed),
{
}

/// A task begins as it goes on: its first view is the last of what shuffling
/// all views with the words of its seed gives.
pub proof fn law_first_view_follows_the_seed(
    n_views: usize,
    seed: u64,
    fresh: LoaderTask,
    task: &mut LoaderTask,
    index: usize,
)
    requires
        n_views > 0,
        call_ensures(LoaderTask::new, (n_views, seed), fresh),
        *old(task) == fresh,
        call_ensures(LoaderTask::next_index, (task,), index),
    ensures
        index == shuffle_draw(Seq::new(n_views as nat, |i: int| i as usize), seeded_words(seed)).0.last(),
        index < n_views,
        final(task)@.pending == shuffle_draw(
            Seq::new(n_views as nat, |i: int| i as usize),
            seeded_words(seed),
        ).0.drop_last(),
        final(task)@.words == shuffle_draw(Seq::new(n_views as nat, |i: int| i as usize), seeded_words(seed)).1,
{
    assert(view_indices(n_views as nat) == Seq::new(n_views as nat, |i: int| i as usize));
}

/// The views that are left of an epoch are taken from their end, and no words
/// are used up on the way; with none left, all views are shuffled anew.
pub proof fn law_next_view_is_taken_from_the_end(task: &mut LoaderTask, index: usize)
    requires
        old(task).wf(),
        old(task)@.n_views > 0,
        call_ensures(LoaderTask::next_index, (task,), index),
    ensures
        index < old(task)@.n_views,
        final(task)@.n_views == old(task)@.n_views,
        final(task)@.loading == old(task)@.loading,
        old(task)@.pending.len() > 0 ==> {
            &&& old(task)@.pending == final(task)@.pending.push(index)
            &&& final(task)@.words == old(task)@.words
        },
        old(task)@.pending.len() == 0 ==> {
            let drawn = shuffle_draw(Seq::new(old(task)@.n_views, |i: int| i as usize), old(task)@.words);
            &&& drawn.0 == final(task)@.pending.push(index)
            &&& final(task)@.words == drawn.1
        },
{
    let views = Seq::new(old(task)@.n_views, |i: int| i as usize);
    assert(view_indices(old(task)@.n_views) == views);
    let order = old(task)@.epoch().0;
    assert(order == order.drop_last().push(order.last()));
}

/// A cache takes a batch exactly where it has none for the view and the bytes
/// of all that it holds, together with those of the batch, do not pass the
/// budget. What it took is what it gives for the view from then on, and for
/// the other views it gives what it gave before.
pub proof fn law_cache_gives_what_it_took<A, C>(
    cache: &mut BatchCache<A, C>,
    index: usize,
    batch: Arc<SceneBatch<A, C>>,
    taken: bool,
    later: BatchCache<A, C>,
    other: usize,
    before: Option<Arc<SceneBatch<A, C>>>,
    given: Option<Arc<SceneBatch<A, C>>>,
)
    requires
        old(cache).wf(),
        index < old(cache)@.slots.len(),
        other < old(cache)@.slots.len(),
        call_ensures(BatchCache::<A, C>::admits, (&*old(cache), index, &*batch), taken),
        call_ensures(BatchCache::<A, C>::get, (&*old(cache), other), before),
        call_ensures(BatchCache::<A, C>::insert, (cache, index, batch), ()),
        later == *final(cache),
        call_ensures(BatchCache::<A, C>::get, (&later, other), given),
    ensures
        taken <==> old(cache)@.slots[index as int] is None && cached_bytes(old(cache)@.slots) + data_bytes(
            batch.img_packed,
        ).len() <= old(cache)@.budget,
        taken && other == index ==> given == Some(batch),
        !(taken && other == index) ==> given == before,
        cached_bytes(later@.slots) <= later@.budget,
        later@.budget == old(cache)@.budget,
        taken ==> cached_bytes(later@.slots) == cached_bytes(old(cache)@.slots) + data_bytes(batch.img_packed).len(),
{
}

/// A fresh cache holds nothing for any view.
pub proof fn law_fresh_cache_gives_nothing<A, C>(
    n_views: usize,
    budget: u64,
    cache: BatchCache<A, C>,
    index: usize,
    given: Option<Arc<SceneBatch<A, C>>>,
)
    requires
        call_ensures(BatchCache::<A, C>::new, (n_views, budget), cache),
        index < n_views,
        call_ensures(BatchCache::<A, C>::get, (&cache, index), given),
    ensures
        given is None,
        cache@.slots.len() == n_views,
        cache@.budget == budget,
        cached_bytes(cache@.slots) == 0,
{
}

/// A batch is as large as its packed pixels, and a copy of it is the same.
pub proof fn law_batch_is_its_pixels<A: Copy, C: Copy>(batch: SceneBatch<A, C>, n: u64, copy: SceneBatch<A, C>)
    requires
        call_ensures(SceneBatch::<A, C>::packed_bytes, (&batch,), n),
        call_ensures(SceneBatch::<A, C>::duplicate, (&batch,), copy),
    ensures
        n == data_bytes(batch.img_packed).len(),
        copy == batch,
{
}

/// A loader runs two tasks on each of its actors: as many actors as the
/// machine runs in parallel, eight where it does not say, and one where all
/// share a loop. The tasks count their seeds up from the given one, through
/// zero where they must. Four batches may wait, and all tasks share a cache
/// that holds nothing yet.
pub proof fn law_loader_has_two_tasks_per_actor<A, C>(
    n_views: usize,
    seed: u64,
    budget: u64,
    single_loop: bool,
    parallelism: Option<usize>,
    loader: SceneLoader<A, C>,
    actor: int,
    task: int,
)
    requires
        call_ensures(SceneLoader::<A, C>::new, (n_views, seed, budget, single_loop, parallelism), loader),
        0 <= actor < loader.task_seeds@.len(),
        0 <= task < loader.task_seeds@[actor]@.len(),
        loader.task_seeds@.len() * 2 <= u64::MAX,
    ensures
        loader.task_seeds@.len() == (match parallelism {
            _ if single_loop => 1,
            Some(n) => n as nat,
            None => 8,
        }),
        loader.task_seeds@[actor]@.len() == 2,
        loader.task_seeds@[actor]@[task] == (seed + 2 * actor + task) % 0x1_0000_0000_0000_0000,
        loader.prefetch == 4,
        loader.cache@.slots.len() == n_views,
        loader.cache@.budget == budget,
        forall|i: int| 0 <= i < n_views ==> loader.cache@.slots[i] is None,
{
}

/// One visit of a task, from its choice of a view to the batch that is sent.
pub struct Round<A, C> {
    pub task: TaskState,
    pub cache: CacheState<A, C>,
    pub index: usize,
    /// What loading the view gives, where it is loaded.
    pub image: SceneBatch<A, C>,
    pub task_after: TaskState,
    pub cache_after: CacheState<A, C>,
}

impl<A, C> Round<A, C> {
    /// Whether the view is loaded: nothing is cached for it.
    pub open spec fn loads(self) -> bool {
        self.cache.slots[self.index as int] is None
    }

    /// Whether the view is visited in this way: its image is loaded where it
    /// is not cached, and cached where the cache takes it.
    pub open spec fn happens(self) -> bool {
        &&& self.task.visits(self.index, self.task_after)
        &&& self.cache.slots.len() == self.task.n_views
        &&& if self.loads() && self.cache.takes(self.index as int, self.image.size()) {
            &&& self.cache_after.slots[self.index as int] matches Some(kept) && kept.shows(self.image)
            &&& self.cache_after == self.cache.filled(
                self.index as int,
                self.cache_after.slots[self.index as int]->Some_0,
            )
        } else {
            self.cache_after == self.cache
        }
    }
}

/// The turns of a task make up its visits: a turn that chooses a view, and,
/// where that asks for the view to be loaded, the turn in which it comes.
pub proof fn law_turns_make_a_round<A, C>(choice: Turn<A, C>, load: Turn<A, C>) -> (round: Round<A, C>)
    requires
        choice.is_due(),
        choice.happens(),
        choice.event is Started || choice.event == (LoaderEvent::<A, C>::Sent { accepted: true }),
        choice.action is Load ==> {
            &&& load.is_due()
            &&& load.happens()
            &&& load.event is Loaded
            &&& load.task == choice.task_after
            &&& load.cache == choice.cache_after
        },
    ensures
        round.happens(),
        round.task == choice.task,
        round.cache == choice.cache,
        round.index == choice.view_index(),
        round.loads() <==> choice.action == (LoaderAction::<A, C>::Load { index: round.index }),
        if choice.action is Load {
            &&& round.image == load.loaded()
            &&& load.event == (LoaderEvent::Loaded {
                img_packed: round.image.img_packed,
                has_alpha: round.image.has_alpha,
                alpha_mode: round.image.alpha_mode,
                camera: round.image.camera,
            })
            &&& round.task_after == load.task_after
            &&& round.cache_after == load.cache_after
        } else {
            &&& round.task_after == choice.task_after
            &&& round.cache_after == choice.cache_after
        },
{
    let last = if choice.action is Load {
        load
    } else {
        choice
    };
    let round = Round {
        task: choice.task,
        cache: choice.cache,
        index: choice.view_index(),
        image: load.loaded(),
        task_after: last.task_after,
        cache_after: last.cache_after,
    };
    if choice.action is Load && round.cache.takes(round.index as int, round.image.size()) {
        let batch = load.action->Send_batch;
        assert(round.cache_after.slots[round.index as int] == Some(batch));
    }
    round
}

/// A task that shares its cache goes on in the same way: whatever other tasks
/// do to the cache in between, the turn that chooses a view and the turn in
/// which it comes are one visit to that view, and the task is left as the
/// visit leaves it.
pub proof fn law_turns_visit_one_view<A, C>(choice: Turn<A, C>, load: Turn<A, C>)
    requires
        choice.is_due(),
        choice.happens(),
        choice.event is Started || choice.event == (LoaderEvent::<A, C>::Sent { accepted: true }),
        choice.action is Load ==> {
            &&& load.is_due()
            &&& load.happens()
            &&& load.event is Loaded
            &&& load.task == choice.task_after
        },
    ensures
        choice.action is Load || choice.action is Send,
        choice.action is Load ==> load.view_index() == choice.view_index() && load.action is Send,
        choice.task.visits(
            choice.view_index(),
            if choice.action is Load {
                load.task_after
            } else {
                choice.task_after
            },
        ),
{
}

/// Whether one task makes these visits one after the other on a cache of its
/// own that holds nothing at first, from the beginning of an epoch, where
/// loading a view gives its image.
pub open spec fn is_alone<A, C>(
    rounds: Seq<Round<A, C>>,
    images: spec_fn(int) -> SceneBatch<A, C>,
    n_views: nat,
    budget: nat,
) -> bool {
    &&& 0 < n_views <= usize::MAX
    &&& rounds.len() > 0
    &&& rounds[0].task.n_views == n_views
    &&& rounds[0].task.pending.len() == 0
    &&& rounds[0].cache == CacheState::<A, C>::fresh(n_views, budget)
    &&& forall|i: int| 0 <= i < rounds.len() ==> (#[trigger] rounds[i]).happens()
    &&& forall|i: int|
        0 < i < rounds.len() ==> {
            &&& (#[trigger] rounds[i]).task == rounds[i - 1].task_after
            &&& rounds[i].cache == rounds[i - 1].cache_after
        }
    &&& forall|i: int|
        0 <= i < rounds.len() ==> (#[trigger] rounds[i]).image.shows(images(rounds[i].index as int))
}

/// The views that are visited.
pub open spec fn visited<A, C>(rounds: Seq<Round<A, C>>) -> Seq<usize> {
    Seq::new(rounds.len(), |i: int| rounds[i].index)
}

/// The bytes of the first `n_views` images together.
pub open spec fn image_bytes<A, C>(images: spec_fn(int) -> SceneBatch<A, C>, n_views: nat) -> nat
    decreases n_views,
{
    if n_views == 0 {
        0
    } else {
        image_bytes(images, (n_views - 1) as nat) + images(n_views - 1).size()
    }
}

/// In every epoch of these visits each view comes exactly once.
proof fn lemma_rounds_cover<A, C>(
    rounds: Seq<Round<A, C>>,
    images: spec_fn(int) -> SceneBatch<A, C>,
    n_views: nat,
    budget: nat,
    k: nat,
)
    requires
        is_alone(rounds, images, n_views, budget),
        (k + 1) * n_views <= rounds.len(),
    ensures
        is_round_trip(epoch_of(visited(rounds), n_views, k), n_views),
{
    let last = rounds.len() - 1;
    let states = Seq::new(
        rounds.len() + 1,
        |i: int|
            if i <= last {
                rounds[i].task
            } else {
                rounds[last].task_after
            },
    );
    let indices = visited(rounds);
    assert forall|i: int| 0 <= i < indices.len() implies states[i].visits(#[trigger] indices[i], states[i + 1]) by {
        assert(rounds[i].happens());
        if i < last {
            assert(rounds[i + 1].task == rounds[i].task_after);
        }
    }
    law_every_epoch_visits_every_view_once(states, indices, n_views, k);
}

/// Over visits, the cache keeps its budget and a slot per view, and holds
/// images alone.
proof fn lemma_rounds_hold<A, C>(
    rounds: Seq<Round<A, C>>,
    images: spec_fn(int) -> SceneBatch<A, C>,
    n_views: nat,
    budget: nat,
    i: int,
)
    requires
        is_alone(rounds, images, n_views, budget),
        0 <= i < rounds.len(),
    ensures
        rounds[i].cache.slots.len() == n_views,
        rounds[i].cache.budget == budget,
        rounds[i].cache.holds_only(images),
    decreases i,
{
    if i > 0 {
        lemma_rounds_hold(rounds, images, n_views, budget, i - 1);
        let round = rounds[i - 1];
        assert(round.happens());
        assert(round.image.shows(images(round.index as int)));
        assert(rounds[i].cache == round.cache_after);
    }
}

/// What is cached for a view stays, and a view that is not visited gets
/// nothing cached.
proof fn lemma_rounds_keep<A, C>(
    rounds: Seq<Round<A, C>>,
    images: spec_fn(int) -> SceneBatch<A, C>,
    n_views: nat,
    budget: nat,
    index: usize,
    i: int,
    j: int,
)
    requires
        is_alone(rounds, images, n_views, budget),
        0 <= i <= j < rounds.len(),
        index < n_views,
    ensures
        rounds[i].cache.slots[index as int] is Some ==> rounds[j].cache.slots[index as int] is Some,
        (forall|t: int| i <= t < j ==> (#[trigger] rounds[t]).index != index) ==> rounds[j].cache.slots[index as int]
            == rounds[i].cache.slots[index as int],
    decreases j - i,
{
    if i < j {
        lemma_rounds_keep(rounds, images, n_views, budget, index, i, j - 1);
        lemma_rounds_hold(rounds, images, n_views, budget, j - 1);
        assert(rounds[j - 1].happens());
        assert(rounds[j].cache == rounds[j - 1].cache_after);
    }
}

/// A cache that holds images alone has room for one more of them within the
/// bytes of all of them.
proof fn lemma_room_for_all<A, C>(
    slots: Seq<Option<SceneBatch<A, C>>>,
    images: spec_fn(int) -> SceneBatch<A, C>,
    index: int,
)
    requires
        forall|i: int|
            0 <= i < slots.len() ==> (#[trigger] slots[i] matches Some(batch) ==> batch.shows(images(i))),
    ensures
        cached_bytes(slots) <= image_bytes(images, slots.len()),
        0 <= index < slots.len() && slots[index] is None ==> cached_bytes(slots) + images(index).size()
            <= image_bytes(images, slots.len()),
    decreases slots.len(),
{
    if slots.len() > 0 {
        let fewer = slots.drop_last();
        assert forall|i: int| 0 <= i < fewer.len() implies (#[trigger] fewer[i] matches Some(batch) ==> batch.shows(
            images(i),
        )) by {
            assert(fewer[i] == slots[i]);
        }
        lemma_room_for_all(fewer, images, index);
        assert(slots[slots.len() - 1] == slots.last());
    }
}

/// With a budget for all images, each view is loaded exactly once, however
/// many epochs there are.
pub proof fn law_large_cache_loads_each_view_once<A, C>(
    rounds: Seq<Round<A, C>>,
    images: spec_fn(int) -> SceneBatch<A, C>,
    n_views: nat,
    budget: nat,
    index: usize,
) -> (first: int)
    requires
        is_alone(rounds, images, n_views, budget),
        n_views <= rounds.len(),
        image_bytes(images, n_views) <= budget,
        index < n_views,
    ensures
        0 <= first < rounds.len(),
        rounds[first].index == index && rounds[first].loads(),
        forall|i: int|
            0 <= i < rounds.len() && (#[trigger] rounds[i]).index == index && rounds[i].loads() ==> i == first,
{
    lemma_mul_basics(n_views as int);
    lemma_rounds_cover(rounds, images, n_views, budget, 0);
    let epoch = epoch_of(visited(rounds), n_views, 0);
    assert(epoch.contains(index));
    let first = choose|i: int| 0 <= i < epoch.len() && epoch[i] == index;
    assert forall|t: int| 0 <= t < first implies (#[trigger] rounds[t]).index != index by {
        assert(epoch[t] == rounds[t].index);
    }
    lemma_rounds_keep(rounds, images, n_views, budget, index, 0, first);
    assert(rounds[first].loads());
    assert forall|i: int, j: int|
        0 <= i < j < rounds.len() && (#[trigger] rounds[i]).index == index && rounds[i].loads() && (
        #[trigger] rounds[j]).index == index implies !rounds[j].loads() by {
        lemma_rounds_hold(rounds, images, n_views, budget, i);
        lemma_room_for_all(rounds[i].cache.slots, images, index as int);
        assert(rounds[i].happens());
        assert(rounds[i].image.shows(images(index as int)));
        assert(rounds[i + 1].cache == rounds[i].cache_after);
        lemma_rounds_keep(rounds, images, n_views, budget, index, i + 1, j);
    }
    first
}

/// With no budget, each view is loaded on every visit, once in every epoch.
/// Images of no bytes at all fit any budget, so they are left out.
pub proof fn law_no_budget_loads_on_every_visit<A, C>(
    rounds: Seq<Round<A, C>>,
    images: spec_fn(int) -> SceneBatch<A, C>,
    n_views: nat,
    k: nat,
)
    requires
        is_alone(rounds, images, n_views, 0),
        forall|i: int| 0 <= i < n_views ==> (#[trigger] images(i)).size() > 0,
        (k + 1) * n_views <= rounds.len(),
    ensures
        forall|i: int| 0 <= i < rounds.len() ==> (#[trigger] rounds[i]).loads(),
        is_round_trip(epoch_of(visited(rounds), n_views, k), n_views),
{
    lemma_rounds_cover(rounds, images, n_views, 0, k);
    assert forall|i: int| 0 <= i < rounds.len() implies (#[trigger] rounds[i]).loads() by {
        lemma_nothing_is_cached(rounds, images, n_views, i);
        assert(rounds[i].happens());
    }
}

/// With no budget, nothing is ever cached.
proof fn lemma_nothing_is_cached<A, C>(
    rounds: Seq<Round<A, C>>,
    images: spec_fn(int) -> SceneBatch<A, C>,
    n_views: nat,
    i: int,
)
    requires
        is_alone(rounds, images, n_views, 0),
        forall|i: int| 0 <= i < n_views ==> (#[trigger] images(i)).size() > 0,
        0 <= i < rounds.len(),
    ensures
        rounds[i].cache == CacheState::<A, C>::fresh(n_views, 0),
        rounds[i].index < n_views,
    decreases i,
{
    assert(rounds[i].happens());
    if i > 0 {
        lemma_nothing_is_cached(rounds, images, n_views, i - 1);
        let round = rounds[i - 1];
        assert(round.happens());
        assert(round.image.shows(images(round.index as int)));
        assert(images(round.index as int).size() > 0);
        assert(rounds[i].cache == round.cache_after);
    }
}

} // verus!
