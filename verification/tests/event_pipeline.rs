use mtg_engine::event_pipeline::{begin_event, end_event, EventPipeline, FireStage, ReplCandidate};

fn cand(source: u64, index: usize, matches: bool) -> ReplCandidate {
    ReplCandidate { source, index, matches }
}

#[test]
fn prohibited_event_is_suppressed_before_replacements() {
    let mut p = EventPipeline { applied: vec![], depth: 0 };
    let r = begin_event(&mut p, true, &vec![cand(7, 0, true)]);
    assert_eq!(r, FireStage::Prohibited);
    assert_eq!(p.depth, 0);
    assert!(p.applied.is_empty());
}

#[test]
fn first_matching_replacement_wins_and_is_recorded() {
    let mut p = EventPipeline { applied: vec![], depth: 0 };
    let cands = vec![cand(3, 0, false), cand(4, 1, true), cand(5, 0, true)];
    let r = begin_event(&mut p, false, &cands);
    assert_eq!(r, FireStage::Replace { source: 4, index: 1 });
    assert_eq!(p.applied, vec![(4, 1)]);
    assert_eq!(p.depth, 1);
    // The replacement fires a nested event: the same replacement is skipped.
    let r2 = begin_event(&mut p, false, &cands);
    assert_eq!(r2, FireStage::Replace { source: 5, index: 0 });
    let r3 = begin_event(&mut p, false, &cands);
    assert_eq!(r3, FireStage::Apply);
    assert!(!end_event(&mut p, r3));
    assert!(!end_event(&mut p, r2));
    assert!(!end_event(&mut p, r));
    assert_eq!(p.depth, 0);
}

#[test]
fn applied_event_at_top_level_triggers_recompute() {
    let mut p = EventPipeline { applied: vec![(9, 9)], depth: 0 };
    let r = begin_event(&mut p, false, &vec![cand(9, 9, true)]);
    // A new chain forgets the replacements of the previous one.
    assert_eq!(r, FireStage::Replace { source: 9, index: 9 });
    let inner = begin_event(&mut p, false, &vec![cand(9, 9, true)]);
    assert_eq!(inner, FireStage::Apply);
    assert!(!end_event(&mut p, inner));
    assert!(!end_event(&mut p, r));
    let top = begin_event(&mut p, false, &vec![]);
    assert_eq!(top, FireStage::Apply);
    assert!(end_event(&mut p, top));
}
