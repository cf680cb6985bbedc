use forceframe::cell_matrix::CellMatrix;
use forceframe::worker::{collision_pairs, lock_order, partition_rows, RoundBarrier, RowRange};
use forceframe::world::{plan_layout, tick_plan, ConfigError, TickPhase};

#[test]
fn pairs_skip_the_body_itself() {
    let mut m = CellMatrix::new(2, 1, 10);
    m.add_object_to_cell(0, 0, 4);
    m.add_object_to_cell(0, 0, 9);
    m.add_object_to_cell(0, 1, 2);
    let pairs = collision_pairs(&m, 0, 0);
    assert_eq!(pairs, vec![(4, 9), (4, 2), (9, 4), (9, 2)]);
    for (a, b) in pairs {
        assert_ne!(a, b);
    }
}

#[test]
fn single_body_has_no_pairs() {
    let mut m = CellMatrix::new(3, 3, 10);
    m.add_object_to_cell(1, 1, 0);
    assert!(collision_pairs(&m, 1, 1).is_empty());
}

#[test]
fn lock_order_takes_lower_first() {
    assert_eq!(lock_order(3, 8), (3, 8));
    assert_eq!(lock_order(8, 3), (3, 8));
    assert_eq!(lock_order(5, 5), (5, 5));
}

#[test]
fn partition_spreads_remainder_over_first_threads() {
    let bands = partition_rows(26, 12);
    assert_eq!(bands.len(), 12);
    assert_eq!(bands[0], RowRange { start_index: 0, row_cnt: 2, extra_pass: true });
    assert_eq!(bands[1], RowRange { start_index: 3, row_cnt: 2, extra_pass: true });
    assert_eq!(bands[2], RowRange { start_index: 6, row_cnt: 2, extra_pass: false });
    assert_eq!(bands[11], RowRange { start_index: 24, row_cnt: 2, extra_pass: false });
    let mut next = 0u64;
    for b in &bands {
        assert_eq!(b.start_index as u64, next);
        next += b.total();
    }
    assert_eq!(next, 26);
}

#[test]
fn partition_with_fewer_rows_than_threads() {
    let bands = partition_rows(3, 5);
    let totals: Vec<u64> = bands.iter().map(|b| b.total()).collect();
    assert_eq!(totals, vec![1, 1, 1, 0, 0]);
    assert_eq!(bands[4].start_index, 3);
}

#[test]
fn barrier_after_extra_row_is_extra() {
    let band = RowRange { start_index: 3, row_cnt: 2, extra_pass: true };
    assert_eq!(band.barrier_after(3), RoundBarrier::Regular);
    assert_eq!(band.barrier_after(4), RoundBarrier::Regular);
    assert_eq!(band.barrier_after(5), RoundBarrier::Extra);
    let plain = RowRange { start_index: 6, row_cnt: 2, extra_pass: false };
    assert_eq!(plain.barrier_after(7), RoundBarrier::Regular);
}

#[test]
fn layout_refuses_bad_configuration() {
    assert_eq!(plan_layout(0, 32, 10, 10).err(), Some(ConfigError::ZeroThreadCount));
    assert_eq!(plan_layout(12, 0, 10, 10).err(), Some(ConfigError::ZeroCellSize));
    assert_eq!(plan_layout(12, 32, 0, 10).err(), Some(ConfigError::ZeroGridDimension));
    assert_eq!(plan_layout(12, 32, 10, 0).err(), Some(ConfigError::ZeroGridDimension));
}

#[test]
fn layout_builds_grid_and_bands() {
    let layout = plan_layout(12, 32, 29, 29).ok().unwrap();
    assert_eq!(layout.matrix.get_width(), 29);
    assert_eq!(layout.matrix.get_height(), 29);
    assert_eq!(layout.matrix.get_cell_size(), 32);
    assert_eq!(layout.bands, partition_rows(29, 12));
    assert!(layout.matrix.get_objects_in_cell(28, 28).is_empty());
}

#[test]
fn tick_plan_repeats_substep_phases() {
    let plan = tick_plan(2);
    let step = vec![
        TickPhase::ApplyGravity,
        TickPhase::ApplyConstraints,
        TickPhase::ResolveCollisions,
        TickPhase::Integrate,
        TickPhase::ApplyConstraints,
    ];
    assert_eq!(plan.len(), 10);
    assert_eq!(plan[..5].to_vec(), step);
    assert_eq!(plan[5..].to_vec(), step);
    assert!(tick_plan(0).is_empty());
}
