use std::sync::Arc;

use futures_orchestra::active::{ActiveSlots, DeferredRegistry};
use futures_orchestra::task::{LabelSet, TaskCore};
use futures_orchestra::token::TokenTable;

fn labels(names: &[&str]) -> LabelSet {
    LabelSet::from_labels(names.iter().map(|s| (*s).to_string()).collect())
}

fn task_core(id: u64, names: &[&str]) -> Arc<TaskCore> {
    Arc::new(TaskCore::new(id, labels(names)))
}

/// A control block whose task has a token.
fn live_core(tokens: &mut TokenTable, id: u64, names: &[&str]) -> Arc<TaskCore> {
    tokens.register(id);
    task_core(id, names)
}

#[test]
fn insert_and_remove_tracks_len() {
    let mut slots = ActiveSlots::with_capacity(4);
    assert_eq!(slots.len(), 0);

    let a = slots.insert(task_core(1, &[]));
    let b = slots.insert(task_core(2, &[]));
    assert_eq!(slots.len(), 2);

    slots.remove(a);
    assert_eq!(slots.len(), 1);
    slots.remove(b);
    assert_eq!(slots.len(), 0);
}

#[test]
fn freed_slots_are_reused() {
    let mut slots = ActiveSlots::with_capacity(4);
    let a = slots.insert(task_core(1, &[]));
    slots.remove(a);
    let b = slots.insert(task_core(2, &[]));

    assert_eq!(a, b);
    assert_eq!(slots.slot_count(), 1);
}

#[test]
fn removing_an_empty_slot_is_inert() {
    let mut slots = ActiveSlots::with_capacity(4);
    let a = slots.insert(task_core(1, &[]));
    slots.remove(a);
    slots.remove(a);
    slots.remove(99);

    assert_eq!(slots.len(), 0);
    assert_eq!(slots.insert(task_core(2, &[])), a);
}

#[test]
fn matches_only_overlapping_labels() {
    let mut slots = ActiveSlots::with_capacity(4);
    slots.insert(task_core(1, &["red"]));
    slots.insert(task_core(2, &["blue"]));
    slots.insert(task_core(3, &["red", "green"]));

    let wanted = labels(&["red"]);
    let mut matched: Vec<u64> = slots
        .tokens_matching(&wanted)
        .into_iter()
        .map(|c| c.task_id())
        .collect();
    matched.sort_unstable();

    assert_eq!(matched, vec![1, 3]);
}

#[test]
fn removed_entries_stop_matching() {
    let mut slots = ActiveSlots::with_capacity(4);
    let a = slots.insert(task_core(1, &["red"]));
    slots.insert(task_core(2, &["red"]));
    slots.remove(a);

    let wanted = labels(&["red"]);
    assert_eq!(slots.tokens_matching(&wanted).len(), 1);
    assert_eq!(slots.all_tokens().len(), 1);
}

#[test]
fn deferred_insert_and_finish_track_len() {
    let mut tokens = TokenTable::new();
    let mut registry = DeferredRegistry::with_capacity(4);
    assert_eq!(registry.len(), 0);

    let a = live_core(&mut tokens, 1, &[]);
    let b = live_core(&mut tokens, 2, &[]);
    registry.insert(a.clone(), &tokens);
    registry.insert(b.clone(), &tokens);
    assert_eq!(registry.len(), 2);

    tokens.mark_finished(a.task_id());
    registry.finish();
    assert_eq!(registry.len(), 1);
    tokens.mark_finished(b.task_id());
    registry.finish();
    assert_eq!(registry.len(), 0);
}

#[test]
fn deferred_finished_entries_are_invisible_before_the_sweep() {
    let mut tokens = TokenTable::new();
    let mut registry = DeferredRegistry::with_capacity(4);
    let a = live_core(&mut tokens, 1, &["red"]);
    let b = live_core(&mut tokens, 2, &["red"]);
    registry.insert(a.clone(), &tokens);
    registry.insert(b, &tokens);
    tokens.mark_finished(a.task_id());
    registry.finish();

    let wanted = labels(&["red"]);
    assert_eq!(registry.tokens_matching(&wanted, &tokens).len(), 1);
    assert_eq!(registry.all_tokens(&tokens).len(), 1);
}

#[test]
fn deferred_sweep_reclaims_finished_slots() {
    let mut tokens = TokenTable::new();
    let mut registry = DeferredRegistry::with_capacity(2);

    for round in 0..20u64 {
        let batch: Vec<Arc<TaskCore>> = (0..4)
            .map(|i| live_core(&mut tokens, round * 4 + i, &[]))
            .collect();
        for c in &batch {
            registry.insert(c.clone(), &tokens);
        }
        for c in &batch {
            tokens.mark_finished(c.task_id());
            registry.finish();
        }
    }

    assert_eq!(registry.len(), 0);
    assert!(
        registry.slot_count() <= 8,
        "sweep failed to reclaim slots: array grew to {}",
        registry.slot_count()
    );
}

#[test]
fn deferred_grows_when_nothing_has_finished() {
    let mut tokens = TokenTable::new();
    let mut registry = DeferredRegistry::with_capacity(1);
    for id in 0..8 {
        let c = live_core(&mut tokens, id, &[]);
        registry.insert(c, &tokens);
    }
    assert_eq!(registry.len(), 8);
    assert_eq!(registry.all_tokens(&tokens).len(), 8);
}

#[test]
fn tokens_come_in_slot_order() {
    let mut slots = ActiveSlots::with_capacity(0);
    let a = slots.insert(task_core(10, &["x"]));
    slots.insert(task_core(11, &["y"]));
    slots.insert(task_core(12, &["x", "z"]));
    slots.remove(a);
    slots.insert(task_core(13, &["x"]));

    let all: Vec<u64> = slots.all_tokens().iter().map(|c| c.task_id()).collect();
    assert_eq!(all, vec![13, 11, 12]);
    let some: Vec<u64> = slots
        .tokens_matching(&labels(&["x"]))
        .iter()
        .map(|c| c.task_id())
        .collect();
    assert_eq!(some, vec![13, 12]);
    assert!(slots.tokens_matching(&labels(&[])).is_empty());
}

#[test]
fn the_slot_freed_last_is_reused_first() {
    let mut slots = ActiveSlots::with_capacity(4);
    let a = slots.insert(task_core(1, &[]));
    let b = slots.insert(task_core(2, &[]));
    let c = slots.insert(task_core(3, &[]));
    assert_eq!((a, b, c), (0, 1, 2));
    slots.remove(a);
    slots.remove(c);
    assert!(slots.has_free());
    assert_eq!(slots.insert(task_core(4, &[])), 2);
    assert_eq!(slots.insert(task_core(5, &[])), 0);
    assert!(!slots.has_free());
    assert_eq!(slots.insert(task_core(6, &[])), 3);
}

#[test]
fn a_sweep_empties_the_slots_of_finished_tasks_only() {
    let mut tokens = TokenTable::new();
    let mut slots = ActiveSlots::with_capacity(4);
    for id in 0..4 {
        let c = live_core(&mut tokens, id, &[]);
        slots.insert(c);
    }
    tokens.mark_finished(1);
    tokens.mark_finished(3);
    slots.sweep_finished(&tokens);
    assert_eq!(slots.len(), 2);
    assert_eq!(slots.slot_count(), 4);
    let left: Vec<u64> = slots.all_tokens().iter().map(|c| c.task_id()).collect();
    assert_eq!(left, vec![0, 2]);
    assert_eq!(slots.insert(task_core(9, &[])), 3);
}

#[test]
fn an_insertion_keeps_unfinished_tasks() {
    let mut tokens = TokenTable::new();
    let mut registry = DeferredRegistry::with_capacity(1);
    for id in 0..3 {
        let c = live_core(&mut tokens, id, &[]);
        registry.insert(c, &tokens);
    }
    tokens.mark_finished(1);
    registry.finish();
    let c = live_core(&mut tokens, 7, &[]);
    registry.insert(c, &tokens);
    assert_eq!(registry.slot_count(), 3);
    let ids: Vec<u64> = registry
        .all_tokens(&tokens)
        .iter()
        .map(|c| c.task_id())
        .collect();
    assert_eq!(ids, vec![0, 7, 2]);
}
