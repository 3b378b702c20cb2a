//! Construction, observation and the editing operations.

use wireworld::{Cell, World};

#[test]
fn new_world_is_all_empty() {
    for (width, height) in [(1u32, 1u32), (2, 2), (3, 5), (64, 64), (7, 1), (1, 9)] {
        let world = World::new(width, height);
        assert_eq!(world.width(), width);
        assert_eq!(world.height(), height);
        assert_eq!(world.get_cells().len(), (width * height) as usize);
        assert!(world.get_cells().iter().all(|cell| *cell == Cell::Empty));
        assert_eq!(world.cells(), vec![0u8; (width * height) as usize]);
    }
}

#[test]
fn dimensions_survive_every_operation() {
    let mut world = World::new(5, 3);
    world.toggle_cell(2, 4);
    world.set_electronhead(2, 4);
    world.set_cells(&[(0, 0, Cell::ElectronTail)]);
    world.tick();
    assert_eq!(world.width(), 5);
    assert_eq!(world.height(), 3);
    assert_eq!(world.get_cells().len(), 15);
    assert_eq!(world.cells().len(), 15);
}

#[test]
fn cells_are_row_major_bytes() {
    let mut world = World::new(3, 2);
    world.set_cells(&[
        (0, 0, Cell::Empty),
        (0, 1, Cell::ElectronHead),
        (0, 2, Cell::ElectronTail),
        (1, 0, Cell::Conductor),
        (1, 2, Cell::ElectronHead),
    ]);
    assert_eq!(world.cells(), vec![0u8, 1, 2, 3, 0, 1]);
    assert_eq!(
        world.get_cells(),
        &[
            Cell::Empty,
            Cell::ElectronHead,
            Cell::ElectronTail,
            Cell::Conductor,
            Cell::Empty,
            Cell::ElectronHead,
        ]
    );
}

#[test]
fn cells_stay_bytes_of_the_four_states() {
    let mut world = World::new(8, 8);
    let mut writes = Vec::new();
    for row in 0..8u32 {
        for col in 0..8u32 {
            let cell = match (row * 3 + col * 5) % 4 {
                0 => Cell::Empty,
                1 => Cell::ElectronHead,
                2 => Cell::ElectronTail,
                _ => Cell::Conductor,
            };
            writes.push((row, col, cell));
        }
    }
    world.set_cells(&writes);
    for round in 0..20u32 {
        world.toggle_cell(round % 8, (round * 3) % 8);
        world.set_electronhead((round * 5) % 8, round % 8);
        world.tick();
        let bytes = world.cells();
        assert_eq!(bytes.len(), 64);
        assert!(bytes.iter().all(|byte| *byte <= 3));
        for (byte, cell) in bytes.iter().zip(world.get_cells()) {
            assert_eq!(*byte, cell.byte());
        }
    }
}

#[test]
fn cells_is_a_snapshot() {
    let mut world = World::new(2, 1);
    let before = world.cells();
    world.toggle_cell(0, 1);
    assert_eq!(before, vec![0u8, 0]);
    assert_eq!(world.cells(), vec![0u8, 3]);
}

#[test]
fn toggle_swaps_empty_and_conductor() {
    let mut world = World::new(3, 2);
    world.toggle_cell(1, 2);
    assert_eq!(
        world.get_cells(),
        &[Cell::Empty, Cell::Empty, Cell::Empty, Cell::Empty, Cell::Empty, Cell::Conductor]
    );
    world.toggle_cell(1, 2);
    assert_eq!(world.get_cells(), &[Cell::Empty; 6]);
}

#[test]
fn toggle_leaves_electrons_alone() {
    let mut world = World::new(2, 2);
    world.set_cells(&[
        (0, 0, Cell::ElectronHead),
        (0, 1, Cell::ElectronTail),
        (1, 0, Cell::Conductor),
    ]);
    let before = world.get_cells().to_vec();
    world.toggle_cell(0, 0);
    assert_eq!(world.get_cells(), &before[..]);
    world.toggle_cell(0, 1);
    assert_eq!(world.get_cells(), &before[..]);
}

#[test]
fn toggle_does_not_advance_time() {
    let mut world = World::new(2, 2);
    world.set_cells(&[(0, 0, Cell::ElectronHead)]);
    world.toggle_cell(1, 1);
    assert_eq!(
        world.get_cells(),
        &[Cell::ElectronHead, Cell::Empty, Cell::Empty, Cell::Conductor]
    );
}

#[test]
fn set_electronhead_ignites_only_conductors() {
    let mut world = World::new(2, 2);
    world.set_cells(&[
        (0, 0, Cell::Empty),
        (0, 1, Cell::ElectronHead),
        (1, 0, Cell::ElectronTail),
        (1, 1, Cell::Conductor),
    ]);
    world.set_electronhead(0, 0);
    world.set_electronhead(0, 1);
    world.set_electronhead(1, 0);
    assert_eq!(
        world.get_cells(),
        &[Cell::Empty, Cell::ElectronHead, Cell::ElectronTail, Cell::Conductor]
    );
    world.set_electronhead(1, 1);
    assert_eq!(
        world.get_cells(),
        &[Cell::Empty, Cell::ElectronHead, Cell::ElectronTail, Cell::ElectronHead]
    );
}

#[test]
fn set_cells_overwrites_any_state() {
    let mut world = World::new(2, 1);
    world.set_cells(&[(0, 0, Cell::ElectronHead), (0, 1, Cell::ElectronTail)]);
    world.set_cells(&[(0, 0, Cell::Empty), (0, 1, Cell::ElectronHead)]);
    assert_eq!(world.get_cells(), &[Cell::Empty, Cell::ElectronHead]);
}

#[test]
fn set_cells_last_write_wins() {
    let mut world = World::new(2, 2);
    world.set_cells(&[
        (1, 0, Cell::Conductor),
        (1, 0, Cell::ElectronHead),
        (0, 1, Cell::ElectronTail),
        (1, 0, Cell::ElectronTail),
        (0, 1, Cell::Empty),
    ]);
    assert_eq!(
        world.get_cells(),
        &[Cell::Empty, Cell::Empty, Cell::ElectronTail, Cell::Empty]
    );
}

#[test]
fn set_cells_with_no_entries_changes_nothing() {
    let mut world = World::new(2, 2);
    world.toggle_cell(0, 0);
    world.set_cells(&[]);
    assert_eq!(
        world.get_cells(),
        &[Cell::Conductor, Cell::Empty, Cell::Empty, Cell::Empty]
    );
}

#[test]
fn set_cells_uses_row_times_width_plus_column() {
    let mut world = World::new(4, 3);
    world.set_cells(&[(2, 1, Cell::Conductor)]);
    for (k, cell) in world.get_cells().iter().enumerate() {
        assert_eq!(*cell == Cell::Conductor, k == 2 * 4 + 1);
    }
}

#[test]
fn tick_is_deterministic() {
    let pattern = [
        (0u32, 0u32, Cell::ElectronHead),
        (0, 1, Cell::Conductor),
        (1, 1, Cell::Conductor),
        (2, 2, Cell::ElectronTail),
        (3, 0, Cell::Conductor),
    ];
    let mut first = World::new(4, 4);
    first.set_cells(&pattern);
    let mut second = World::new(4, 4);
    second.set_cells(&pattern);
    for _ in 0..6 {
        first.tick();
        second.tick();
        assert_eq!(first.get_cells(), second.get_cells());
    }
}

#[test]
fn full_write_then_tick_forgets_history() {
    let mut writes = Vec::new();
    for row in 0..3u32 {
        for col in 0..3u32 {
            let cell = if (row + col) % 2 == 0 { Cell::Conductor } else { Cell::ElectronHead };
            writes.push((row, col, cell));
        }
    }

    let mut fresh = World::new(3, 3);
    fresh.set_cells(&writes);
    fresh.tick();

    let mut used = World::new(3, 3);
    used.toggle_cell(1, 1);
    used.set_electronhead(1, 1);
    used.tick();
    used.set_cells(&[(2, 2, Cell::ElectronTail)]);
    used.tick();
    used.set_cells(&writes);
    used.tick();

    assert_eq!(fresh.get_cells(), used.get_cells());
}

#[test]
fn partial_write_keeps_what_it_does_not_name() {
    let mut fresh = World::new(1, 1);
    fresh.set_cells(&[]);
    fresh.tick();

    let mut used = World::new(1, 1);
    used.toggle_cell(0, 0);
    used.set_cells(&[]);
    used.tick();

    assert_eq!(fresh.get_cells(), &[Cell::Empty]);
    assert_eq!(used.get_cells(), &[Cell::Conductor]);
}

#[test]
fn empty_cells_stay_empty_under_ticks_and_injections() {
    let mut world = World::new(4, 4);
    world.set_cells(&[
        (1, 0, Cell::ElectronHead),
        (1, 1, Cell::Conductor),
        (1, 2, Cell::Conductor),
        (1, 3, Cell::Conductor),
    ]);
    for round in 0..12u32 {
        world.set_electronhead(0, round % 4);
        world.set_electronhead(1, round % 4);
        world.tick();
        for row in [0usize, 2, 3] {
            for col in 0..4usize {
                assert_eq!(world.get_cells()[row * 4 + col], Cell::Empty);
            }
        }
    }
}
