use mtg_engine::layers::{application_order_of, topo_sort_layer, CeOrderKey};
use mtg_engine::{CeReads, CeWrites, ContinuousLayer};

fn key(reads: Vec<CeReads>, writes: Vec<CeWrites>, timestamp: u32) -> CeOrderKey {
    CeOrderKey { layer: ContinuousLayer::L7PowerToughness, reads, writes, timestamp }
}

fn layered(layer: ContinuousLayer, reads: Vec<CeReads>, writes: Vec<CeWrites>, timestamp: u32) -> CeOrderKey {
    CeOrderKey { layer, reads, writes, timestamp }
}

#[test]
fn independent_effects_follow_timestamps() {
    let st = vec![key(vec![], vec![], 5), key(vec![], vec![], 2), key(vec![], vec![], 9)];
    let mut out = Vec::new();
    topo_sort_layer(&[0, 1, 2], &st, &[], &mut out);
    assert_eq!(out, vec![1, 0, 2]);
}

#[test]
fn equal_timestamps_keep_layer_position() {
    let st = vec![key(vec![], vec![], 4), key(vec![], vec![], 4)];
    let mut out = Vec::new();
    topo_sort_layer(&[1, 0], &st, &[], &mut out);
    assert_eq!(out, vec![1, 0]);
}

#[test]
fn dependency_overrides_timestamp() {
    // Entry 1 reads power/toughness written by entry 2, so it waits for it
    // although its timestamp is the earliest; then it beats entry 0.
    let st = vec![
        key(vec![], vec![], 3),
        key(vec![CeReads::PowerToughness], vec![], 1),
        key(vec![], vec![CeWrites::PowerToughness], 2),
    ];
    let mut out = Vec::new();
    topo_sort_layer(&[0, 1, 2], &st, &[], &mut out);
    assert_eq!(out, vec![2, 1, 0]);
}

#[test]
fn ephemeral_entries_follow_static_indices() {
    let st = vec![key(vec![CeReads::Color], vec![], 1)];
    let ep = vec![key(vec![], vec![CeWrites::Color], 7)];
    let mut out = vec![42];
    topo_sort_layer(&[0, 1], &st, &ep, &mut out);
    assert_eq!(out, vec![42, 1, 0]);
}

#[test]
fn cycle_falls_back_to_layer_position() {
    // Entries 0 and 1 depend on each other; entry 2 is free.
    let st = vec![
        key(vec![CeReads::Abilities], vec![CeWrites::CardTypes], 1),
        key(vec![CeReads::CardTypes], vec![CeWrites::Abilities], 2),
        key(vec![], vec![], 3),
    ];
    let mut out = vec![7];
    topo_sort_layer(&[0, 1, 2], &st, &[], &mut out);
    assert_eq!(out, vec![7, 2, 0, 1]);
}

#[test]
fn self_dependency_is_ignored() {
    let st = vec![key(vec![CeReads::LandTypes], vec![CeWrites::LandTypes], 1)];
    let mut out = Vec::new();
    topo_sort_layer(&[0], &st, &[], &mut out);
    assert_eq!(out, vec![0]);
}

#[test]
fn application_order_goes_layer_by_layer_with_dependencies_inside() {
    let st = vec![
        layered(ContinuousLayer::L7PowerToughness, vec![], vec![], 5),
        layered(ContinuousLayer::L6AbilityEffects, vec![], vec![], 1),
        layered(ContinuousLayer::L7PowerToughness, vec![CeReads::PowerToughness], vec![], 2),
    ];
    let ep = vec![layered(ContinuousLayer::L7PowerToughness, vec![], vec![CeWrites::PowerToughness], 3)];
    assert_eq!(application_order_of(&st, &ep), vec![1, 3, 2, 0]);
}

#[test]
fn application_order_breaks_timestamp_ties_by_index() {
    let st = vec![
        layered(ContinuousLayer::L4TypeEffects, vec![], vec![], 2),
        layered(ContinuousLayer::L1CopyEffects, vec![], vec![], 9),
    ];
    let ep = vec![layered(ContinuousLayer::L4TypeEffects, vec![], vec![], 2)];
    assert_eq!(application_order_of(&st, &ep), vec![1, 0, 2]);
}

#[test]
fn application_order_of_nothing_is_empty() {
    assert!(application_order_of(&[], &[]).is_empty());
}
