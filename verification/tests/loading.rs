use std::sync::Arc;

use brush::scene_loader::{
    BatchCache, LoaderAction, LoaderEvent, LoaderTask, SceneBatch, SceneLoader,
};
use burn::tensor::TensorData;

fn pixels(n: usize, value: u8) -> TensorData {
    TensorData::new(vec![value; n], [n])
}

fn batch(n: usize, value: u8) -> SceneBatch<char, u32> {
    SceneBatch {
        img_packed: pixels(n, value),
        has_alpha: true,
        alpha_mode: 'm',
        camera: 7,
    }
}

fn loaded(n: usize, value: u8) -> LoaderEvent<char, u32> {
    LoaderEvent::Loaded {
        img_packed: pixels(n, value),
        has_alpha: false,
        alpha_mode: 't',
        camera: value as u32,
    }
}

#[test]
fn cache_counts_exact_bytes() {
    let mut cache: BatchCache<char, u32> = BatchCache::new(4, 100);
    assert_eq!(batch(40, 1).packed_bytes(), 40);
    assert!(cache.get(0).is_none());
    cache.insert(0, Arc::new(batch(40, 1)));
    // What would bring the total past the budget is left out.
    assert!(!cache.admits(1, &batch(61, 2)));
    cache.insert(1, Arc::new(batch(61, 2)));
    assert!(cache.get(1).is_none());
    cache.insert(1, Arc::new(batch(59, 2)));
    assert!(cache.get(1).is_some());
    assert!(!cache.admits(2, &batch(2, 3)));
    // What just fits is taken.
    assert!(cache.admits(2, &batch(1, 3)));
    cache.insert(2, Arc::new(batch(1, 3)));
    assert!(!cache.admits(3, &batch(1, 4)));
    assert!(cache.admits(3, &batch(0, 4)));
}

#[test]
fn a_batch_may_fill_the_budget() {
    let mut cache: BatchCache<char, u32> = BatchCache::new(1, 100);
    assert!(!cache.admits(0, &batch(101, 1)));
    assert!(cache.admits(0, &batch(100, 1)));
    cache.insert(0, Arc::new(batch(100, 1)));
    assert_eq!(cache.get(0).unwrap().img_packed, pixels(100, 1));
}

#[test]
fn the_first_admitted_batch_stays() {
    let mut cache: BatchCache<char, u32> = BatchCache::new(2, 100);
    cache.insert(0, Arc::new(batch(101, 9)));
    let first = Arc::new(batch(10, 1));
    cache.insert(0, first.clone());
    assert!(!cache.admits(0, &batch(5, 2)));
    cache.insert(0, Arc::new(batch(5, 2)));
    cache.insert(1, Arc::new(batch(20, 3)));
    cache.insert(0, Arc::new(batch(10, 4)));
    assert!(Arc::ptr_eq(&cache.get(0).unwrap(), &first));
    assert_eq!(cache.get(1).unwrap().img_packed, pixels(20, 3));
    assert!(cache.get(1).unwrap().img_packed != pixels(20, 1));
}

#[test]
fn no_budget_takes_no_byte() {
    let cache: BatchCache<char, u32> = BatchCache::new(1, 0);
    assert!(!cache.admits(0, &batch(1, 1)));
    assert!(cache.admits(0, &batch(0, 1)));
}

#[test]
fn duplicates_hold_the_same() {
    let first = batch(3, 9);
    let copy = first.duplicate();
    assert_eq!(copy.img_packed, first.img_packed);
    assert!(copy.has_alpha);
    assert_eq!(copy.alpha_mode, 'm');
    assert_eq!(copy.camera, 7);
}

fn visits(task: &mut LoaderTask, count: usize) -> Vec<usize> {
    (0..count).map(|_| task.next_index()).collect()
}

#[test]
fn every_view_comes_once_in_an_epoch() {
    let mut task = LoaderTask::new(20, 42);
    let mut epochs = Vec::new();
    for _ in 0..3 {
        let epoch = visits(&mut task, 20);
        let mut sorted = epoch.clone();
        sorted.sort();
        assert_eq!(sorted, (0..20).collect::<Vec<usize>>());
        epochs.push(epoch);
    }
    assert_ne!(epochs[0], (0..20).collect::<Vec<usize>>());
    assert_ne!(epochs[0], epochs[1]);
    assert_ne!(epochs[1], epochs[2]);
}

#[test]
fn visits_depend_on_the_seed_alone() {
    let first = visits(&mut LoaderTask::new(20, 42), 50);
    assert_eq!(first, visits(&mut LoaderTask::new(20, 42), 50));
    assert_ne!(first, visits(&mut LoaderTask::new(20, 43), 50));
}

#[test]
fn a_loaded_view_is_sent_and_then_comes_from_the_cache() {
    let mut task = LoaderTask::new(1, 0);
    let mut cache: BatchCache<char, u32> = BatchCache::new(1, 100);
    assert!(matches!(
        task.step(&mut cache, LoaderEvent::Started),
        LoaderAction::Load { index: 0 }
    ));
    let sent = match task.step(&mut cache, loaded(8, 5)) {
        LoaderAction::Send { batch } => batch,
        _ => panic!("a loaded view is sent"),
    };
    assert_eq!(sent.img_packed, pixels(8, 5));
    assert!(!sent.has_alpha);
    assert_eq!((sent.alpha_mode, sent.camera), ('t', 5));

    let again = match task.step(&mut cache, LoaderEvent::Sent { accepted: true }) {
        LoaderAction::Send { batch } => batch,
        _ => panic!("a cached view is sent"),
    };
    assert_eq!(again.img_packed, pixels(8, 5));
    // The pixels are shared, not copied.
    let address = |data: &TensorData| data.bytes().as_ptr();
    assert_eq!(address(&sent.img_packed), address(&again.img_packed));
    assert_eq!(
        address(&sent.img_packed),
        address(&cache.get(0).unwrap().img_packed)
    );

    assert!(matches!(
        task.step(&mut cache, LoaderEvent::Sent { accepted: false }),
        LoaderAction::Stop
    ));
}

/// Runs a task for so many batches and counts how often each view is loaded.
fn loads(n_views: usize, budget: u64, batches: usize) -> Vec<usize> {
    let size = |index: usize| 10 + index;
    let mut task = LoaderTask::new(n_views, 3);
    let mut cache: BatchCache<char, u32> = BatchCache::new(n_views, budget);
    let mut counts = vec![0; n_views];
    let mut visits = LoaderTask::new(n_views, 3);
    let mut event = LoaderEvent::Started;
    for _ in 0..batches {
        let index = visits.next_index();
        let mut action = task.step(&mut cache, event);
        if let LoaderAction::Load { index: asked } = action {
            assert_eq!(asked, index);
            counts[asked] += 1;
            action = task.step(&mut cache, loaded(size(asked), asked as u8));
        }
        match action {
            LoaderAction::Send { batch } => {
                assert_eq!(batch.img_packed, pixels(size(index), index as u8));
                assert_eq!(batch.camera, index as u32);
            }
            _ => panic!("a batch is sent for every visit"),
        }
        event = LoaderEvent::Sent { accepted: true };
    }
    counts
}

#[test]
fn a_large_cache_loads_each_view_once() {
    assert_eq!(loads(4, 10 + 11 + 12 + 13, 20), [1; 4]);
    assert_eq!(loads(4, 1000, 4), [1; 4]);
}

#[test]
fn without_a_budget_each_visit_loads() {
    assert_eq!(loads(4, 0, 20), [5; 4]);
    assert_eq!(loads(4, 9, 8), [2; 4]);
}

#[test]
fn a_small_cache_loads_the_rest_again() {
    // One view short of all of them.
    let counts = loads(4, 10 + 11 + 12 + 13 - 1, 20);
    assert_eq!(counts.iter().filter(|n| **n == 1).count(), 3);
    assert_eq!(counts.iter().filter(|n| **n == 5).count(), 1);
}

#[test]
fn a_loader_has_two_tasks_per_actor() {
    let loader: SceneLoader<char, u32> = SceneLoader::new(5, 100, 64, false, Some(3));
    assert_eq!(loader.prefetch, 4);
    assert_eq!(
        loader.task_seeds,
        [vec![100, 101], vec![102, 103], vec![104, 105]]
    );
    assert!((0..5).all(|i| loader.cache.get(i).is_none()));
    assert!(loader.cache.admits(4, &batch(64, 1)));
    assert!(!loader.cache.admits(4, &batch(65, 1)));

    let unknown: SceneLoader<char, u32> = SceneLoader::new(5, 0, 64, false, None);
    assert_eq!(unknown.task_seeds.len(), 8);
    let single: SceneLoader<char, u32> = SceneLoader::new(5, u64::MAX, 64, true, Some(16));
    assert_eq!(single.task_seeds, [vec![u64::MAX, 0]]);
}

#[test]
fn tasks_that_share_a_cache_keep_its_budget() {
    let n_views = 5;
    let budget = 35;
    let mut cache: BatchCache<char, u32> = BatchCache::new(n_views, budget);
    let mut tasks = [LoaderTask::new(n_views, 1), LoaderTask::new(n_views, 2)];
    let mut asked = [None, None];
    for turn in 0..60 {
        let who = turn % 2;
        let event = match asked[who].take() {
            Some(index) => loaded(10, index as u8),
            None => LoaderEvent::Sent { accepted: true },
        };
        if let LoaderAction::Load { index } = tasks[who].step(&mut cache, event) {
            asked[who] = Some(index);
        }
        let held: u64 = (0..n_views)
            .filter_map(|i| cache.get(i))
            .map(|batch| batch.packed_bytes())
            .sum();
        assert!(held <= budget);
    }
    let cached = (0..n_views).filter(|i| cache.get(*i).is_some()).count();
    assert_eq!(cached, 3);
}
