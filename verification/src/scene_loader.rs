//! Loading of scene batches: a cache of packed batches under a byte budget,
//! and the loader tasks that visit the views of a scene in shuffled epochs.

use crate::outside::{
    clone_arc, clone_data, data_bytes, data_is_shared, data_len, data_shape, data_type, seed_rng, seeded_words,
    share_data, shuffle, shuffle_draw, upcoming_words,
};
use burn::tensor::TensorData;
use rand::rngs::StdRng;
use std::sync::Arc;
use vstd::prelude::*;

verus! {

/// One view of a scene, packed and ready for upload. How its alpha channel is
/// to be read (`A`) and the camera that took it (`C`) are carried along
/// unread.
pub struct SceneBatch<A, C> {
    pub img_packed: TensorData,
    pub has_alpha: bool,
    pub alpha_mode: A,
    pub camera: C,
}

impl<A, C> SceneBatch<A, C> {
    /// The number of bytes that the packed pixels take.
    pub open spec fn size(&self) -> nat {
        data_bytes(self.img_packed).len()
    }

    /// Whether the pixels are shared, so that a copy of the batch does not copy
    /// them.
    pub open spec fn is_shared(&self) -> bool {
        data_is_shared(self.img_packed)
    }

    /// Whether the batch shows what `other` does: the same pixels in the same
    /// form, seen by the same camera. Who else holds the pixels plays no part.
    pub open spec fn shows(&self, other: Self) -> bool {
        &&& data_bytes(self.img_packed) == data_bytes(other.img_packed)
        &&& data_shape(self.img_packed) == data_shape(other.img_packed)
        &&& data_type(self.img_packed) == data_type(other.img_packed)
        &&& self.has_alpha == other.has_alpha
        &&& self.alpha_mode == other.alpha_mode
        &&& self.camera == other.camera
    }

    /// The number of bytes that the packed pixels take.
    pub fn packed_bytes(&self) -> (n: u64)
        ensures
            n == self.size(),
    {
        data_len(&self.img_packed) as u64
    }
}

impl<A: Copy, C: Copy> SceneBatch<A, C> {
    /// A copy of the batch. Where the pixels are shared it does not copy them.
    pub fn duplicate(&self) -> (copy: Self)
        ensures
            copy == *self,
    {
        SceneBatch {
            img_packed: clone_data(&self.img_packed),
            has_alpha: self.has_alpha,
            alpha_mode: self.alpha_mode,
            camera: self.camera,
        }
    }

    /// The batch with its pixels shared.
    fn shared(self) -> (shared: Self)
        ensures
            shared.shows(self),
            shared.is_shared(),
    {
        SceneBatch {
            img_packed: share_data(self.img_packed),
            has_alpha: self.has_alpha,
            alpha_mode: self.alpha_mode,
            camera: self.camera,
        }
    }
}

/// The bytes that the filled slots hold together.
pub open spec fn cached_bytes<A, C>(slots: Seq<Option<SceneBatch<A, C>>>) -> nat
    decreases slots.len(),
{
    if slots.len() == 0 {
        0
    } else {
        cached_bytes(slots.drop_last()) + slot_bytes(slots.last())
    }
}

/// The bytes that one slot holds.
pub open spec fn slot_bytes<A, C>(slot: Option<SceneBatch<A, C>>) -> nat {
    match slot {
        Some(batch) => batch.size(),
        None => 0,
    }
}

/// A cache as such: a slot per view, and the bytes that it may hold.
#[verifier::ext_equal]
pub struct CacheState<A, C> {
    pub slots: Seq<Option<SceneBatch<A, C>>>,
    pub budget: nat,
}

impl<A, C> CacheState<A, C> {
    /// A cache that holds nothing yet.
    pub open spec fn fresh(n_views: nat, budget: nat) -> Self {
        CacheState { slots: Seq::new(n_views, |i: int| None), budget }
    }

    /// What is held fits the budget.
    pub open spec fn wf(self) -> bool {
        cached_bytes(self.slots) <= self.budget
    }

    /// Whether a batch of `size` bytes would be taken at `index`: nothing is
    /// cached there yet, and it still fits the budget.
    pub open spec fn takes(self, index: int, size: nat) -> bool {
        self.slots[index] is None && cached_bytes(self.slots) + size <= self.budget
    }

    /// The cache with a batch at `index`.
    pub open spec fn filled(self, index: int, batch: SceneBatch<A, C>) -> Self {
        CacheState { slots: self.slots.update(index, Some(batch)), budget: self.budget }
    }

    /// The cache once `batch` has been offered at `index`: it is held where it
    /// is taken, and else nothing changes.
    pub open spec fn offered(self, index: int, batch: SceneBatch<A, C>) -> Self {
        if self.takes(index, batch.size()) {
            self.filled(index, batch)
        } else {
            self
        }
    }

    /// The cache once batches have been offered at views, one after the other.
    pub open spec fn offered_all(self, offers: Seq<(int, SceneBatch<A, C>)>) -> Self
        decreases offers.len(),
    {
        if offers.len() == 0 {
            self
        } else {
            self.offered_all(offers.drop_last()).offered(offers.last().0, offers.last().1)
        }
    }

    /// Whether the `i`-th of these offers is taken, and at `index`.
    pub open spec fn admitted(self, offers: Seq<(int, SceneBatch<A, C>)>, i: int, index: int) -> bool {
        &&& 0 <= i < offers.len()
        &&& offers[i].0 == index
        &&& self.offered_all(offers.take(i)).takes(index, offers[i].1.size())
    }

    /// What a visit to a view asks for: its batch is sent where it is cached,
    /// and else the view is loaded.
    pub open spec fn visit_action(self, index: usize) -> LoaderAction<A, C> {
        match self.slots[index as int] {
            Some(cached) => LoaderAction::Send { batch: cached },
            None => LoaderAction::Load { index },
        }
    }

    /// Whether all that is held has its pixels shared.
    pub open spec fn holds_shared(self) -> bool {
        forall|i: int|
            0 <= i < self.slots.len() ==> (#[trigger] self.slots[i] matches Some(batch) ==> batch.is_shared())
    }

    /// Whether all that is held shows what these images do.
    pub open spec fn holds_only(self, images: spec_fn(int) -> SceneBatch<A, C>) -> bool {
        forall|i: int|
            0 <= i < self.slots.len() ==> (#[trigger] self.slots[i] matches Some(batch) ==> batch.shows(images(i)))
    }
}

/// Shared cache of batches. Each slot holds at most one batch; a batch that
/// would bring the total past the budget is left out, and its view is decoded
/// and packed again on every visit.
pub struct BatchCache<A, C> {
    slots: Vec<Option<Arc<SceneBatch<A, C>>>>,
    used_bytes: u64,
    budget_bytes: u64,
}

/// What a slot holds.
spec fn held<A, C>(slot: Option<Arc<SceneBatch<A, C>>>) -> Option<SceneBatch<A, C>> {
    match slot {
        Some(batch) => Some(*batch),
        None => None,
    }
}

impl<A, C> View for BatchCache<A, C> {
    type V = CacheState<A, C>;

    closed spec fn view(&self) -> CacheState<A, C> {
        CacheState {
            slots: Seq::new(self.slots@.len(), |i: int| held(self.slots@[i])),
            budget: self.budget_bytes as nat,
        }
    }
}

impl<A, C> BatchCache<A, C> {
    /// The count is exact, and what is held fits the budget.
    pub closed spec fn wf(&self) -> bool {
        self@.wf() && self.used_bytes == cached_bytes(self@.slots)
    }

    pub fn new(n_views: usize, budget_bytes: u64) -> (cache: Self)
        ensures
            cache.wf(),
            cache@.wf(),
            cache@ == CacheState::<A, C>::fresh(n_views as nat, budget_bytes as nat),
            cached_bytes(cache@.slots) == 0,
    {
        let mut slots: Vec<Option<Arc<SceneBatch<A, C>>>> = Vec::new();
        let mut i: usize = 0;
        while i < n_views
            invariant
                i <= n_views,
                slots@.len() == i,
                forall|j: int| 0 <= j < i ==> slots@[j] is None,
            decreases n_views - i,
        {
            slots.push(None);
            i += 1;
        }
        let cache = BatchCache { slots, used_bytes: 0, budget_bytes };
        proof {
            assert(cache@ == CacheState::<A, C>::fresh(n_views as nat, budget_bytes as nat));
            lemma_fresh_holds_nothing::<A, C>(n_views as nat, budget_bytes as nat);
        }
        cache
    }

    /// What is cached for a view, if anything.
    pub fn get(&self, index: usize) -> (batch: Option<Arc<SceneBatch<A, C>>>)
        requires
            index < self@.slots.len(),
        ensures
            match batch {
                Some(batch) => self@.slots[index as int] == Some(*batch),
                None => self@.slots[index as int] is None,
            },
    {
        match &self.slots[index] {
            Some(batch) => Some(clone_arc(batch)),
            None => None,
        }
    }

    /// Whether `insert` would take this batch. Asked before caching, so that
    /// the pixels are shared only where they are going to be kept.
    pub fn admits(&self, index: usize, batch: &SceneBatch<A, C>) -> (taken: bool)
        requires
            self.wf(),
            index < self@.slots.len(),
        ensures
            taken == self@.takes(index as int, batch.size()),
    {
        self.slots[index].is_none() && batch.packed_bytes() <= self.budget_bytes - self.used_bytes
    }

    /// Caches the batch for a view where it is admitted, and else changes
    /// nothing.
    pub fn insert(&mut self, index: usize, batch: Arc<SceneBatch<A, C>>)
        requires
            old(self).wf(),
            index < old(self)@.slots.len(),
        ensures
            final(self).wf(),
            final(self)@.wf(),
            final(self)@ == old(self)@.offered(index as int, *batch),
            cached_bytes(final(self)@.slots) == cached_bytes(old(self)@.slots) + if old(self)@.takes(
                index as int,
                batch.size(),
            ) {
                batch.size()
            } else {
                0
            },
    {
        if !self.admits(index, &batch) {
            return;
        }
        let ghost kept = held(Some(batch))->Some_0;
        proof {
            lemma_fill_slot(self@.slots, index as int, kept);
        }
        self.used_bytes = self.used_bytes + batch.packed_bytes();
        self.slots.set(index, Some(batch));
        proof {
            assert(self@ == old(self)@.filled(index as int, kept));
        }
    }
}

/// What a valid cache holds fits its budget.
pub proof fn law_valid_cache_fits_its_budget<A, C>(cache: &BatchCache<A, C>)
    requires
        cache.wf(),
    ensures
        cache@.wf(),
{
}

/// A fresh cache holds no bytes.
proof fn lemma_fresh_holds_nothing<A, C>(n_views: nat, budget: nat)
    ensures
        cached_bytes(CacheState::<A, C>::fresh(n_views, budget).slots) == 0,
    decreases n_views,
{
    let slots = CacheState::<A, C>::fresh(n_views, budget).slots;
    if n_views > 0 {
        let fewer = (n_views - 1) as nat;
        lemma_fresh_holds_nothing::<A, C>(fewer, budget);
        assert(slots.drop_last() == CacheState::<A, C>::fresh(fewer, budget).slots);
    }
}

/// Filling an empty slot adds the bytes of what fills it.
pub proof fn lemma_fill_slot<A, C>(slots: Seq<Option<SceneBatch<A, C>>>, index: int, batch: SceneBatch<A, C>)
    requires
        0 <= index < slots.len(),
        slots[index] is None,
    ensures
        cached_bytes(slots.update(index, Some(batch))) == cached_bytes(slots) + batch.size(),
    decreases slots.len(),
{
    let filled = slots.update(index, Some(batch));
    if index == slots.len() - 1 {
        assert(filled.drop_last() == slots.drop_last());
    } else {
        assert(filled.drop_last() == slots.drop_last().update(index, Some(batch)));
        lemma_fill_slot(slots.drop_last(), index, batch);
    }
}

/// The cached bytes never pass the budget, whatever is offered to a cache.
pub proof fn law_budget_is_kept<A, C>(
    n_views: nat,
    budget: nat,
    offers: Seq<(int, SceneBatch<A, C>)>,
)
    requires
        forall|i: int| 0 <= i < offers.len() ==> 0 <= (#[trigger] offers[i]).0 < n_views,
    ensures
        CacheState::<A, C>::fresh(n_views, budget).offered_all(offers).slots.len() == n_views,
        CacheState::<A, C>::fresh(n_views, budget).offered_all(offers).budget == budget,
        cached_bytes(CacheState::<A, C>::fresh(n_views, budget).offered_all(offers).slots) <= budget,
    decreases offers.len(),
{
    if offers.len() == 0 {
        lemma_fresh_holds_nothing::<A, C>(n_views, budget);
    } else {
        law_budget_is_kept::<A, C>(n_views, budget, offers.drop_last());
        let before = CacheState::<A, C>::fresh(n_views, budget).offered_all(offers.drop_last());
        let (index, batch) = offers.last();
        assert(offers[offers.len() - 1] == offers.last());
        if before.takes(index, batch.size()) {
            lemma_fill_slot(before.slots, index, batch);
        }
    }
}

/// Over any sequence of offers, a view has a batch exactly where some offer
/// for it was taken. No other offer for it is taken then, and the batch is the
/// one that was, however many offers followed.
pub proof fn law_first_admitted_batch_stays<A, C>(
    n_views: nat,
    budget: nat,
    offers: Seq<(int, SceneBatch<A, C>)>,
    index: int,
)
    requires
        forall|i: int| 0 <= i < offers.len() ==> 0 <= (#[trigger] offers[i]).0 < n_views,
        0 <= index < n_views,
    ensures
        ({
            let fresh = CacheState::<A, C>::fresh(n_views, budget);
            let slot = fresh.offered_all(offers).slots[index];
            &&& slot is Some <==> exists|i: int| fresh.admitted(offers, i, index)
            &&& forall|i: int| #[trigger] fresh.admitted(offers, i, index) ==> slot == Some(offers[i].1)
            &&& forall|i: int, j: int|
                #[trigger] fresh.admitted(offers, i, index) && #[trigger] fresh.admitted(offers, j, index) ==> i == j
        }),
    decreases offers.len(),
{
    let fresh = CacheState::<A, C>::fresh(n_views, budget);
    if offers.len() > 0 {
        let fewer = offers.drop_last();
        let last = offers.len() - 1;
        law_first_admitted_batch_stays::<A, C>(n_views, budget, fewer, index);
        law_budget_is_kept::<A, C>(n_views, budget, fewer);
        let before = fresh.offered_all(fewer);
        let slot = fresh.offered_all(offers).slots[index];
        assert(offers.take(last) == fewer);
        assert(offers[last] == offers.last());
        assert forall|i: int| i < last implies #[trigger] fresh.admitted(offers, i, index) == fresh.admitted(
            fewer,
            i,
            index,
        ) by {
            if 0 <= i {
                assert(offers.take(i) == fewer.take(i));
            }
        }
        if before.slots[index] is Some {
            let i = choose|i: int| fresh.admitted(fewer, i, index);
            assert(fresh.admitted(offers, i, index));
            assert(!fresh.admitted(offers, last, index));
        } else if fresh.admitted(offers, last, index) {
            assert(slot == Some(offers[last].1));
        } else {
            assert(slot is None);
            assert forall|i: int| !fresh.admitted(offers, i, index) by {
                if i < last && fresh.admitted(offers, i, index) {
                    assert(fresh.admitted(fewer, i, index));
                }
            }
        }
    }
}

/// The views `0..n_views` in their own order.
pub open spec fn view_indices(n_views: nat) -> Seq<usize> {
    Seq::new(n_views, |i: int| i as usize)
}

/// The views that a visit is taken from, where `pending` is left of the last
/// epoch, and the random words ahead by then.
pub open spec fn epoch_from(n_views: nat, pending: Seq<usize>, words: Map<nat, u32>) -> (Seq<usize>, Map<nat, u32>) {
    if pending.len() == 0 {
        shuffle_draw(view_indices(n_views), words)
    } else {
        (pending, words)
    }
}

/// The next `count` views that a task visits.
pub open spec fn visit_order(n_views: nat, pending: Seq<usize>, words: Map<nat, u32>, count: nat) -> Seq<usize>
    decreases count,
{
    if count == 0 {
        Seq::empty()
    } else {
        let (order, ahead) = epoch_from(n_views, pending, words);
        seq![order.last()] + visit_order(n_views, order.drop_last(), ahead, (count - 1) as nat)
    }
}

/// What a loader task is told.
pub enum LoaderEvent<A, C> {
    /// The task begins.
    Started,
    /// The view that was asked for has been decoded and packed.
    Loaded { img_packed: TensorData, has_alpha: bool, alpha_mode: A, camera: C },
    /// The batch went out, or nobody takes batches any more.
    Sent { accepted: bool },
}

/// What a loader task wants done.
pub enum LoaderAction<A, C> {
    /// Decode and pack this view.
    Load { index: usize },
    /// Hand this batch to the trainer.
    Send { batch: SceneBatch<A, C> },
    /// Nothing more: the task is over.
    Stop,
}

/// A loader task as such.
#[verifier::ext_equal]
pub struct TaskState {
    pub n_views: nat,
    /// The views that are left of this epoch.
    pub pending: Seq<usize>,
    /// The random words ahead.
    pub words: Map<nat, u32>,
    /// The view that is being decoded, if one is.
    pub loading: Option<usize>,
}

impl TaskState {
    /// A task before its first visit.
    pub open spec fn fresh(n_views: nat, seed: u64) -> Self {
        TaskState { n_views, pending: Seq::empty(), words: seeded_words(seed), loading: None }
    }

    /// What is left of the epoch are views of the scene, none of them twice.
    pub open spec fn wf(self) -> bool {
        &&& self.n_views <= usize::MAX
        &&& self.pending.no_duplicates()
        &&& forall|i: int| 0 <= i < self.pending.len() ==> self.pending[i] < self.n_views
        &&& self.loading matches Some(index) ==> index < self.n_views
    }

    /// The views that the next visit is taken from, and the random words
    /// ahead by then: a new epoch begins where the last one is used up.
    pub open spec fn epoch(self) -> (Seq<usize>, Map<nat, u32>) {
        epoch_from(self.n_views, self.pending, self.words)
    }

    /// Whether the task visits the view `index` next and is `after` then, but
    /// for what it is loading. A new epoch is a permutation of the views.
    pub open spec fn visits(self, index: usize, after: Self) -> bool {
        let (order, ahead) = self.epoch();
        &&& order.len() > 0
        &&& index == order.last()
        &&& index < self.n_views
        &&& after.n_views == self.n_views
        &&& after.pending == order.drop_last()
        &&& after.words == ahead
        &&& self.pending.len() == 0 ==> order.to_multiset() == view_indices(self.n_views).to_multiset()
    }
}

/// One task of the loader. It visits the views of a scene in epochs: each
/// epoch is a fresh shuffle of all views, taken from its end.
pub struct LoaderTask {
    n_views: usize,
    pending: Vec<usize>,
    rng: StdRng,
    loading: Option<usize>,
}

impl View for LoaderTask {
    type V = TaskState;

    closed spec fn view(&self) -> TaskState {
        TaskState {
            n_views: self.n_views as nat,
            pending: self.pending@,
            words: upcoming_words(self.rng),
            loading: self.loading,
        }
    }
}

/// One thing that a task is told, and what comes of it.
pub struct Turn<A, C> {
    pub task: TaskState,
    pub cache: CacheState<A, C>,
    pub event: LoaderEvent<A, C>,
    pub action: LoaderAction<A, C>,
    pub task_after: TaskState,
    pub cache_after: CacheState<A, C>,
}

impl<A, C> Turn<A, C> {
    /// Whether the task can be told this: a view is loaded only where one was
    /// asked for.
    pub open spec fn is_due(self) -> bool {
        &&& self.task.wf()
        &&& self.task.n_views > 0
        &&& self.cache.slots.len() == self.task.n_views
        &&& self.event is Loaded ==> self.task.loading is Some
    }

    /// The view that this is about.
    pub open spec fn view_index(self) -> usize {
        if self.event is Loaded {
            self.task.loading->Some_0
        } else {
            self.task.epoch().0.last()
        }
    }

    /// What was loaded, where something was.
    pub open spec fn loaded(self) -> SceneBatch<A, C> {
        match self.event {
            LoaderEvent::Loaded { img_packed, has_alpha, alpha_mode, camera } => SceneBatch {
                img_packed,
                has_alpha,
                alpha_mode,
                camera,
            },
            _ => arbitrary(),
        }
    }

    /// Whether this comes of what the task is told. What was loaded is sent as
    /// it is, or, where the cache takes it, with its pixels shared, and the
    /// cache holds what is sent. Otherwise the next view is visited: what is
    /// cached for it is sent, or it is loaded. When nobody takes batches any
    /// more, the task stops.
    pub open spec fn happens(self) -> bool {
        let index = self.view_index();
        match self.event {
            LoaderEvent::Sent { accepted: false } => {
                &&& self.action == LoaderAction::<A, C>::Stop
                &&& self.task_after == self.task
                &&& self.cache_after == self.cache
            },
            LoaderEvent::Loaded { img_packed, has_alpha, alpha_mode, camera } => {
                &&& self.task_after == (TaskState { loading: None, ..self.task })
                &&& self.action matches LoaderAction::Send { batch } && {
                    &&& batch.has_alpha == has_alpha
                    &&& batch.alpha_mode == alpha_mode
                    &&& batch.camera == camera
                    &&& if self.cache.takes(index as int, data_bytes(img_packed).len()) {
                        &&& data_bytes(batch.img_packed) == data_bytes(img_packed)
                        &&& data_shape(batch.img_packed) == data_shape(img_packed)
                        &&& data_type(batch.img_packed) == data_type(img_packed)
                        &&& data_is_shared(batch.img_packed)
                        &&& self.cache_after == self.cache.filled(index as int, batch)
                    } else {
                        &&& batch.img_packed == img_packed
                        &&& self.cache_after == self.cache
                    }
                }
            },
            _ => {
                &&& self.task.visits(index, self.task_after)
                &&& self.cache_after == self.cache
                &&& self.action == self.cache.visit_action(index)
                &&& self.task_after.loading == if self.action is Load {
                    Some(index)
                } else {
                    None
                }
            },
        }
    }
}

impl LoaderTask {
    /// What is left of the epoch are views of the scene, none of them twice.
    pub open spec fn wf(&self) -> bool {
        self@.wf()
    }

    /// A task before its first visit.
    pub fn new(n_views: usize, seed: u64) -> (task: Self)
        ensures
            task.wf(),
            task@ == TaskState::fresh(n_views as nat, seed),
    {
        let task = LoaderTask { n_views, pending: Vec::new(), rng: seed_rng(seed), loading: None };
        proof {
            assert(task@ == TaskState::fresh(n_views as nat, seed));
        }
        task
    }

    /// Takes the next view of the epoch.
    pub fn next_index(&mut self) -> (index: usize)
        requires
            old(self).wf(),
            old(self)@.n_views > 0,
        ensures
            final(self).wf(),
            old(self)@.visits(index, final(self)@),
            final(self)@.loading == old(self)@.loading,
    {
        if self.pending.len() == 0 {
            let mut order: Vec<usize> = Vec::new();
            let mut i: usize = 0;
            while i < self.n_views
                invariant
                    i <= self.n_views,
                    order@ == view_indices(i as nat),
                decreases self.n_views - i,
            {
                order.push(i);
                i += 1;
            }
            proof {
                assert(order@ == view_indices(self.n_views as nat));
            }
            shuffle(&mut order, &mut self.rng);
            proof {
                law_epoch_visits_every_view_once(order@, self.n_views as nat);
                assert forall|j: int| 0 <= j < order@.len() implies order@[j] < self.n_views by {
                    assert(order@.contains(order@[j]));
                }
            }
            self.pending = order;
        }
        let ghost order = self.pending@;
        let index: usize = self.pending[self.pending.len() - 1];
        self.pending.pop();
        proof {
            assert(self.pending@ == order.drop_last());
        }
        index
    }

    /// What the task does next, from what it has just been told.
    pub fn step<A: Copy, C: Copy>(&mut self, cache: &mut BatchCache<A, C>, event: LoaderEvent<A, C>) -> (action:
        LoaderAction<A, C>)
        requires
            old(self).wf(),
            old(self)@.n_views > 0,
            old(cache).wf(),
            old(cache)@.slots.len() == old(self)@.n_views,
            event is Loaded ==> old(self)@.loading is Some,
        ensures
            final(self).wf(),
            final(cache).wf(),
            final(cache)@.wf(),
            final(cache)@.slots.len() == old(cache)@.slots.len(),
            final(self)@.n_views == old(self)@.n_views,
            ({
                let turn = Turn {
                    task: old(self)@,
                    cache: old(cache)@,
                    event,
                    action,
                    task_after: final(self)@,
                    cache_after: final(cache)@,
                };
                turn.is_due() && turn.happens()
            }),
    {
        match event {
            LoaderEvent::Sent { accepted: false } => LoaderAction::Stop,
            LoaderEvent::Loaded { img_packed, has_alpha, alpha_mode, camera } => {
                let index: usize = match self.loading {
                    Some(index) => index,
                    None => 0,
                };
                self.loading = None;
                let batch = SceneBatch { img_packed, has_alpha, alpha_mode, camera };
                if cache.admits(index, &batch) {
                    let shared = batch.shared();
                    cache.insert(index, Arc::new(shared.duplicate()));
                    LoaderAction::Send { batch: shared }
                } else {
                    LoaderAction::Send { batch }
                }
            },
            _ => {
                let index: usize = self.next_index();
                match cache.get(index) {
                    Some(cached) => {
                        self.loading = None;
                        LoaderAction::Send { batch: cached.duplicate() }
                    },
                    None => {
                        self.loading = Some(index);
                        LoaderAction::Load { index }
                    },
                }
            },
        }
    }
}

/// Every view comes exactly once in an epoch: a permutation of the views has
/// their number, holds each of them, and none of them twice.
pub proof fn law_epoch_visits_every_view_once(order: Seq<usize>, n_views: nat)
    requires
        order.to_multiset() == view_indices(n_views).to_multiset(),
        n_views <= usize::MAX,
    ensures
        order.len() == n_views,
        order.no_duplicates(),
        forall|index: usize| order.contains(index) <==> index < n_views,
{
    let indices = view_indices(n_views);
    assert(indices.no_duplicates());
    indices.lemma_multiset_has_no_duplicates();
    order.lemma_multiset_has_no_duplicates_conv();
    indices.to_multiset_ensures();
    order.to_multiset_ensures();
    assert forall|index: usize| order.contains(index) <==> index < n_views by {
        assert(order.contains(index) <==> order.to_multiset().count(index) > 0);
        assert(indices.contains(index) <==> indices.to_multiset().count(index) > 0);
        if index < n_views {
            assert(indices[index as int] == index);
        }
    }
}

/// How many batches may wait ahead of the trainer.
pub const PREFETCH: usize = 4;

/// How many tasks share an actor, so that one task's reading overlaps with
/// the other's decoding and upload.
pub const TASKS_PER_ACTOR: usize = 2;

/// How many actors run where the machine does not say how parallel it is.
pub const DEFAULT_ACTORS: usize = 8;

/// How a scene is loaded: the tasks of each actor by their seeds, and the
/// cache that all of them share.
pub struct SceneLoader<A, C> {
    pub prefetch: usize,
    pub task_seeds: Vec<Vec<u64>>,
    pub cache: BatchCache<A, C>,
}

/// The number of actors: one where everything shares one event loop, else as
/// many as the machine runs in parallel.
pub open spec fn actor_count(single_loop: bool, parallelism: Option<usize>) -> nat {
    if single_loop {
        1
    } else {
        match parallelism {
            Some(n) => n as nat,
            None => DEFAULT_ACTORS as nat,
        }
    }
}

/// The seed of a task, counted over all actors.
pub open spec fn task_seed(seed: u64, task: nat) -> u64 {
    seed.wrapping_add(task as u64)
}

impl<A, C> SceneLoader<A, C> {
    pub fn new(n_views: usize, seed: u64, cache_budget: u64, single_loop: bool, parallelism: Option<usize>) -> (loader: Self)
        requires
            actor_count(single_loop, parallelism) * TASKS_PER_ACTOR <= u64::MAX,
        ensures
            loader.prefetch == PREFETCH,
            loader.task_seeds@.len() == actor_count(single_loop, parallelism),
            forall|actor: int|
                0 <= actor < loader.task_seeds@.len() ==> #[trigger] loader.task_seeds@[actor]@ == Seq::new(
                    TASKS_PER_ACTOR as nat,
                    |task: int| task_seed(seed, (actor * TASKS_PER_ACTOR + task) as nat),
                ),
            loader.cache.wf(),
            loader.cache@.wf(),
            loader.cache@ == CacheState::<A, C>::fresh(n_views as nat, cache_budget as nat),
            cached_bytes(loader.cache@.slots) == 0,
    {
        let n_actors: usize = if single_loop {
            1
        } else {
            match parallelism {
                Some(n) => n,
                None => DEFAULT_ACTORS,
            }
        };
        let mut task_seeds: Vec<Vec<u64>> = Vec::new();
        let mut task_idx: u64 = 0;
        let mut actor: usize = 0;
        while actor < n_actors
            invariant
                actor <= n_actors,
                n_actors * TASKS_PER_ACTOR <= u64::MAX,
                task_idx == actor * TASKS_PER_ACTOR,
                task_seeds@.len() == actor,
                forall|a: int|
                    0 <= a < actor ==> #[trigger] task_seeds@[a]@ == Seq::new(
                        TASKS_PER_ACTOR as nat,
                        |task: int| task_seed(seed, (a * TASKS_PER_ACTOR + task) as nat),
                    ),
            decreases n_actors - actor,
        {
            let mut seeds: Vec<u64> = Vec::new();
            let mut task: usize = 0;
            while task < TASKS_PER_ACTOR
                invariant
                    task <= TASKS_PER_ACTOR,
                    actor < n_actors,
                    n_actors * TASKS_PER_ACTOR <= u64::MAX,
                    task_idx == actor * TASKS_PER_ACTOR + task,
                    seeds@ == Seq::new(
                        task as nat,
                        |t: int| task_seed(seed, (actor * TASKS_PER_ACTOR + t) as nat),
                    ),
                decreases TASKS_PER_ACTOR - task,
            {
                seeds.push(seed.wrapping_add(task_idx));
                task_idx += 1;
                task += 1;
            }
            task_seeds.push(seeds);
            actor += 1;
        }
        SceneLoader { prefetch: PREFETCH, task_seeds, cache: BatchCache::new(n_views, cache_budget) }
    }
}

/// No two tasks of a loader draw from the same seed.
pub proof fn law_task_seeds_differ(seed: u64, a: nat, b: nat)
    requires
        a <= u64::MAX,
        b <= u64::MAX,
        a != b,
    ensures
        task_seed(seed, a) != task_seed(seed, b),
{
}

} // verus!
