use rendering_engine::voxel::chunk::ChunkPos;
use rendering_engine::voxel::world::{needed_positions, rank_positions, ChunkLoader, MAX_LOAD_PER_FRAME};

fn p(x: i32, z: i32) -> ChunkPos {
    ChunkPos { x, z }
}

#[test]
fn needed_positions_scan_x_outermost() {
    let s = needed_positions(p(10, -4), 1);
    assert_eq!(
        s,
        vec![p(9, -5), p(9, -4), p(9, -3), p(10, -5), p(10, -4), p(10, -3), p(11, -5), p(11, -4), p(11, -3)]
    );
    assert!(needed_positions(p(0, 0), -1).is_empty());
    assert_eq!(needed_positions(p(0, 0), 0), vec![p(0, 0)]);
    assert_eq!(needed_positions(p(0, 0), 3).len(), 49);
}

#[test]
fn ranking_puts_visible_then_near_then_scan_order() {
    let src = vec![p(0, 0), p(5, 0), p(1, 0), p(0, 1), p(2, 2)];
    let flags = vec![false, true, false, false, true];
    let keep = vec![true, true, true, true, false];
    let q = rank_positions(&src, &flags, &keep, p(0, 0));
    assert_eq!(q, vec![p(5, 0), p(0, 0), p(1, 0), p(0, 1)]);
}

#[test]
fn first_entry_queues_by_distance() {
    let mut w = ChunkLoader::new(1);
    assert_eq!(w.player_chunk(), p(i32::MAX, i32::MAX));
    let visible = vec![true; 9];
    let removed = w.enter_chunk(p(0, 0), &visible);
    assert!(removed.is_empty());
    assert_eq!(w.player_chunk(), p(0, 0));
    assert_eq!(
        w.load_queue().clone(),
        vec![p(0, 0), p(-1, 0), p(0, -1), p(0, 1), p(1, 0), p(-1, -1), p(-1, 1), p(1, -1), p(1, 1)]
    );
}

#[test]
fn dispatch_respects_the_in_flight_limit() {
    let mut w = ChunkLoader::new(1);
    w.enter_chunk(p(0, 0), &vec![true; 9]);
    let started = w.dispatch();
    assert_eq!(started, vec![p(0, 0), p(-1, 0), p(0, -1), p(0, 1)]);
    assert_eq!(started.len(), MAX_LOAD_PER_FRAME);
    assert_eq!(w.loading_count(), 4);
    assert!(w.dispatch().is_empty());

    w.mark_loaded(p(0, 0));
    assert_eq!(w.loading_count(), 3);
    assert!(w.is_known(p(0, 0)));
    assert_eq!(w.dispatch(), vec![p(1, 0)]);
    assert_eq!(w.load_queue().len(), 4);
}

#[test]
fn invisible_positions_wait_behind_visible_ones() {
    let mut w = ChunkLoader::new(1);
    // Only the x = 1 column is in view.
    let scan = needed_positions(p(0, 0), 1);
    let visible: Vec<bool> = scan.iter().map(|c| c.x == 1).collect();
    w.enter_chunk(p(0, 0), &visible);
    assert_eq!(
        w.load_queue().clone(),
        vec![p(1, 0), p(1, -1), p(1, 1), p(0, 0), p(-1, 0), p(0, -1), p(0, 1), p(-1, -1), p(-1, 1)]
    );
}

#[test]
fn reprioritize_reorders_existing_queue() {
    let mut w = ChunkLoader::new(1);
    w.enter_chunk(p(0, 0), &vec![true; 9]);
    let q = w.load_queue().clone();
    let visible: Vec<bool> = q.iter().map(|c| c.z == -1).collect();
    w.reprioritize(&visible);
    assert_eq!(
        w.load_queue().clone(),
        vec![p(0, -1), p(-1, -1), p(1, -1), p(0, 0), p(-1, 0), p(0, 1), p(1, 0), p(-1, 1), p(1, 1)]
    );
}

#[test]
fn moving_away_drops_loaded_chunks_out_of_range() {
    let mut w = ChunkLoader::new(1);
    w.enter_chunk(p(0, 0), &vec![true; 9]);
    let started = w.dispatch();
    for c in &started {
        w.mark_loaded(*c);
    }
    let mut in_flight = w.dispatch();
    assert_eq!(in_flight, vec![p(1, 0), p(-1, -1), p(-1, 1), p(1, -1)]);
    // Finish (1, 0) only; the others stay in flight.
    w.mark_loaded(p(1, 0));
    in_flight.retain(|c| *c != p(1, 0));

    let removed = w.enter_chunk(p(2, 0), &vec![true; 9]);
    let mut removed_sorted = removed.clone();
    removed_sorted.sort_by_key(|c| (c.x, c.z));
    assert_eq!(removed_sorted, vec![p(-1, 0), p(0, -1), p(0, 0), p(0, 1)]);
    assert!(w.is_known(p(1, 0)));
    for c in &in_flight {
        assert!(w.is_known(*c));
    }
    assert_eq!(w.loading_count(), 3);
    // Chunks loading or loaded are not queued again.
    assert!(!w.load_queue().contains(&p(1, 0)));
    assert!(!w.load_queue().contains(&p(1, -1)));
    assert_eq!(w.load_queue()[0], p(2, 0));
}

#[test]
fn negative_render_distance_keeps_nothing() {
    let mut w = ChunkLoader::new(-1);
    let removed = w.enter_chunk(p(0, 0), &Vec::new());
    assert!(removed.is_empty());
    assert!(w.load_queue().is_empty());
    assert!(w.dispatch().is_empty());
    assert_eq!(w.render_distance(), -1);
}
