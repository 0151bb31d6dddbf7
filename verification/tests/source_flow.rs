use scrolls::buffer::BufferBlocks;
use scrolls::model::Point;
use scrolls::source::{
    Cursor, FinalizeConfig, IntersectConfig, RawBlockPayload, RollbackBuffer, RollbackEffect,
    Source, intersect_candidates, require_intersect, should_finalize,
};

fn point(slot: u64) -> Point {
    Point::Specific(slot, vec![slot as u8; 4])
}

#[test]
fn window_absorbs_rollback_inside_it() {
    // Points 10..=14 in the window, rollback to 12: nothing is emitted and
    // the window becomes 10..=12.
    let mut w = RollbackBuffer::new();
    for slot in 10..=14u64 {
        w.roll_forward(point(slot));
    }
    let effect = w.roll_back(&point(12));
    assert_eq!(effect, RollbackEffect::Handled);
    assert_eq!(w.len(), 3);
}

#[test]
fn window_clears_on_out_of_scope_rollback() {
    let mut w = RollbackBuffer::new();
    for slot in 10..=14u64 {
        w.roll_forward(point(slot));
    }
    let effect = w.roll_back(&point(5));
    assert_eq!(effect, RollbackEffect::OutOfScope);
    assert_eq!(w.len(), 0);
}

#[test]
fn window_pops_points_below_min_depth() {
    let mut w = RollbackBuffer::new();
    for slot in 1..=5u64 {
        w.roll_forward(point(slot));
    }
    let ready = w.pop_with_depth(3);
    assert_eq!(ready.len(), 2);
    assert_eq!(ready[0].slot_or_default(), 1);
    assert_eq!(ready[1].slot_or_default(), 2);
    assert_eq!(w.len(), 3);
}

#[test]
fn source_replays_rollbacks_before_anything_else() {
    // Blocks already drained downstream; an out-of-scope rollback queues
    // them and the next ticks emit them highest slot first.
    let mut blocks = BufferBlocks::with_cap(100);
    for slot in 10..=15u64 {
        blocks.insert_block(&point(slot), &vec![slot as u8]);
    }
    let mut source = Source::new(blocks, 2, None);
    let effect = source.on_rollback(&point(12));
    assert_eq!(effect, RollbackEffect::OutOfScope);
    let mut drained: Vec<Vec<u8>> = Vec::new();
    while let Some(payload) = source.drain_one() {
        match payload {
            RawBlockPayload::RollBack(bytes) => drained.push(bytes),
            RawBlockPayload::RollForward(_) => panic!("no roll-forward while draining"),
        }
    }
    assert_eq!(drained, vec![vec![15u8], vec![14u8], vec![13u8]]);
}

#[test]
fn source_emits_ready_points_as_roll_forwards() {
    let blocks = BufferBlocks::with_cap(100);
    let mut source = Source::new(blocks, 1, None);
    source.on_roll_forward(point(10));
    source.on_roll_forward(point(11));
    let ready = source.ready_points();
    assert_eq!(ready.len(), 1);
    assert_eq!(ready[0].slot_or_default(), 10);
    let payload = source.record_fetched(&ready[0], vec![0xb0]);
    match payload {
        RawBlockPayload::RollForward(bytes) => assert_eq!(bytes, vec![0xb0]),
        RawBlockPayload::RollBack(_) => panic!("a fetched block rolls forward"),
    }
    assert_eq!(source.blocks.get_block_at_point(&point(10)), Some(vec![0xb0]));
}

#[test]
fn finalize_reacts_to_slot_and_hash() {
    let by_slot = Some(FinalizeConfig { until_hash: None, max_block_slot: Some(100) });
    assert!(!should_finalize(&by_slot, &point(99)));
    assert!(should_finalize(&by_slot, &point(100)));
    assert!(should_finalize(&by_slot, &point(101)));
    let by_hash = Some(FinalizeConfig {
        until_hash: Some(vec![7u8; 4]),
        max_block_slot: None,
    });
    assert!(should_finalize(&by_hash, &point(7)));
    assert!(!should_finalize(&by_hash, &point(8)));
    assert!(!should_finalize(&None, &point(7)));
}

#[test]
fn intersect_prefers_the_cursor() {
    // A stored cursor wins over the configured intersect, so a restart
    // resumes where the sink last acknowledged.
    let cursor = Some(point(100));
    let candidates = intersect_candidates(&cursor, &IntersectConfig::Origin);
    assert_eq!(candidates.len(), 1);
    assert_eq!(candidates[0].slot_or_default(), 100);
    let no_cursor: Option<Point> = None;
    let from_config = intersect_candidates(&no_cursor, &IntersectConfig::Point(55, vec![5]));
    assert_eq!(from_config.len(), 1);
    assert_eq!(from_config[0].slot_or_default(), 55);
    let tip = intersect_candidates(&no_cursor, &IntersectConfig::Tip);
    assert!(tip.is_empty());
}

#[test]
fn cursor_advances_forward_monotonically() {
    // The persisted cursor never moves backwards on the forward path; only
    // a rollback that reached the sink may lower it.
    let mut c = Cursor::new(None);
    c.advance(point(10), false);
    c.advance(point(11), false);
    assert_eq!(c.read().as_ref().unwrap().slot_or_default(), 11);
    c.advance(point(8), true);
    assert_eq!(c.read().as_ref().unwrap().slot_or_default(), 8);
    c.advance(point(9), false);
    assert_eq!(c.read().as_ref().unwrap().slot_or_default(), 9);
}

#[test]
fn intersect_falls_back_through_the_configured_points() {
    let no_cursor: Option<Point> = None;
    let candidates = intersect_candidates(
        &no_cursor,
        &IntersectConfig::Fallbacks(vec![point(30), point(20), point(10)]),
    );
    assert_eq!(candidates.len(), 3);
    assert_eq!(candidates[0].slot_or_default(), 30);
    assert_eq!(candidates[2].slot_or_default(), 10);
}

#[test]
fn buffered_tip_and_lookback_follow_the_slots() {
    let mut b = BufferBlocks::with_cap(10);
    assert!(b.tip_block().is_none());
    b.insert_block(&point(5), &vec![5u8]);
    b.insert_block(&point(9), &vec![9u8]);
    assert_eq!(b.tip_block(), Some(vec![9u8]));
    assert_eq!(b.last_from(9), Some(vec![5u8]));
    assert_eq!(b.last_from(5), None);
}

#[test]
fn missing_intersect_is_fatal_at_bootstrap() {
    match require_intersect(Some(point(42))) {
        Ok(p) => assert_eq!(p.slot_or_default(), 42),
        Err(_) => panic!("an agreed point starts the stream"),
    }
    match require_intersect(None) {
        Ok(_) => panic!("no agreed point is fatal"),
        Err(e) => assert_eq!(e.kind_name(), "intersect not found"),
    }
}
