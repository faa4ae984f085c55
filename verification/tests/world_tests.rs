use glowlife::CellState;
use glowlife::World;
use glowlife::WorldError;

fn new_world(w: usize, h: usize) -> World {
    World::new(w, h, 192, 2).unwrap()
}

#[test]
fn new_world_is_all_dead_with_zero_decay() {
    let w = new_world(4, 3);
    assert_eq!(w.width, 4);
    assert_eq!(w.height, 3);
    for y in 0..3 {
        for x in 0..4 {
            assert_eq!(w.get(x, y).unwrap(), CellState::Dead);
            assert_eq!(w.get_decay(x, y).unwrap(), 0);
        }
    }
}

#[test]
fn new_rejects_bad_dimensions() {
    assert_eq!(World::new(0, 5, 192, 2).unwrap_err(), WorldError::InvalidDimensions);
    assert_eq!(World::new(5, 0, 192, 2).unwrap_err(), WorldError::InvalidDimensions);
    assert_eq!(
        World::new(usize::MAX / 2, 2, 192, 2).unwrap_err(),
        WorldError::InvalidDimensions
    );
    assert_eq!(
        World::new(usize::MAX, usize::MAX, 192, 2).unwrap_err(),
        WorldError::InvalidDimensions
    );
}

#[test]
fn toggle_flips_cell_and_keeps_decay() {
    let mut w = new_world(3, 3);
    w.set_decay(1, 2, 7).unwrap();
    w.change_cell(1, 2).unwrap();
    assert_eq!(w.get(1, 2).unwrap(), CellState::Alive);
    assert_eq!(w.get_decay(1, 2).unwrap(), 7);
    assert_eq!(w.get(2, 1).unwrap(), CellState::Dead);
    w.change_cell(1, 2).unwrap();
    assert_eq!(w.get(1, 2).unwrap(), CellState::Dead);
    assert_eq!(w.get_decay(1, 2).unwrap(), 7);
}

#[test]
fn out_of_range_access_is_rejected() {
    let mut w = new_world(3, 3);
    assert_eq!(w.change_cell(3, 0).unwrap_err(), WorldError::OutOfBounds);
    assert_eq!(w.change_cell(0, 3).unwrap_err(), WorldError::OutOfBounds);
    assert_eq!(w.get(9, 0).unwrap_err(), WorldError::OutOfBounds);
    assert_eq!(w.get_decay(0, 9).unwrap_err(), WorldError::OutOfBounds);
    assert_eq!(w.set(3, 3, CellState::Alive).unwrap_err(), WorldError::OutOfBounds);
    assert_eq!(w.set_decay(3, 3, 1).unwrap_err(), WorldError::OutOfBounds);
    // The rejected calls changed nothing.
    for y in 0..3 {
        for x in 0..3 {
            assert_eq!(w.get(x, y).unwrap(), CellState::Dead);
            assert_eq!(w.get_decay(x, y).unwrap(), 0);
        }
    }
}

#[test]
fn birth_with_exactly_three_neighbors() {
    let mut w = new_world(3, 3);
    w.set(0, 0, CellState::Alive).unwrap();
    w.set(1, 0, CellState::Alive).unwrap();
    w.set(2, 0, CellState::Alive).unwrap();
    assert_eq!(w.count_neighbours(1, 1), 3);
    w.update();
    assert_eq!(w.get(1, 1).unwrap(), CellState::Alive);
    // A live cell with 2 neighbors survives, decay untouched.
    assert_eq!(w.get(1, 0).unwrap(), CellState::Alive);
    assert_eq!(w.get_decay(1, 0).unwrap(), 0);
}

#[test]
fn lonely_and_crowded_cells_die_with_flash() {
    let mut w = new_world(5, 5);
    // A lone cell has 0 live neighbors.
    w.set(4, 4, CellState::Alive).unwrap();
    // The center of a full 3x3 block has 8.
    for y in 0..3 {
        for x in 0..3 {
            w.set(x, y, CellState::Alive).unwrap();
        }
    }
    assert_eq!(w.count_neighbours(4, 4), 0);
    assert_eq!(w.count_neighbours(1, 1), 8);
    w.update();
    assert_eq!(w.get(4, 4).unwrap(), CellState::Dead);
    assert_eq!(w.get_decay(4, 4).unwrap(), 192);
    assert_eq!(w.get(1, 1).unwrap(), CellState::Dead);
    assert_eq!(w.get_decay(1, 1).unwrap(), 192);
}

#[test]
fn decay_fades_by_two_and_clamps_at_zero() {
    let mut w = new_world(3, 3);
    w.set_decay(1, 1, 5).unwrap();
    w.update();
    assert_eq!(w.get_decay(1, 1).unwrap(), 3);
    w.update();
    assert_eq!(w.get_decay(1, 1).unwrap(), 1);
    w.update();
    assert_eq!(w.get_decay(1, 1).unwrap(), 0);
    w.update();
    assert_eq!(w.get_decay(1, 1).unwrap(), 0);
}

#[test]
fn corner_and_edge_neighbor_counts() {
    let mut w = new_world(4, 4);
    for y in 0..4 {
        for x in 0..4 {
            w.set(x, y, CellState::Alive).unwrap();
        }
    }
    // A corner sees only 3 valid neighbors, a left-edge cell 5, an interior
    // cell all 8.
    assert_eq!(w.count_neighbours(0, 0), 3);
    assert_eq!(w.count_neighbours(3, 3), 3);
    assert_eq!(w.count_neighbours(0, 1), 5);
    assert_eq!(w.count_neighbours(2, 0), 5);
    assert_eq!(w.count_neighbours(1, 2), 8);
}

#[test]
fn update_is_deterministic() {
    let mut a = new_world(6, 6);
    let mut b = new_world(6, 6);
    for (x, y) in [(1usize, 1usize), (2, 1), (3, 2), (1, 3), (4, 4)] {
        a.set(x, y, CellState::Alive).unwrap();
        b.set(x, y, CellState::Alive).unwrap();
        a.set_decay(x, y, 40).unwrap();
        b.set_decay(x, y, 40).unwrap();
    }
    a.update();
    b.update();
    for y in 0..6 {
        for x in 0..6 {
            assert_eq!(a.get(x, y).unwrap(), b.get(x, y).unwrap());
            assert_eq!(a.get_decay(x, y).unwrap(), b.get_decay(x, y).unwrap());
        }
    }
}

#[test]
fn draw_twice_gives_identical_buffers() {
    let mut w = new_world(4, 4);
    w.set(1, 1, CellState::Alive).unwrap();
    w.set(2, 2, CellState::Alive).unwrap();
    w.set_decay(3, 0, 100).unwrap();
    let mut first = vec![0u8; 4 * 4 * 4];
    let mut second = vec![1u8; 4 * 4 * 4];
    w.draw(&mut first).unwrap();
    w.draw(&mut second).unwrap();
    assert_eq!(first, second);
}

#[test]
fn draw_writes_exact_colors_row_major() {
    let mut w = new_world(2, 2);
    w.set(1, 0, CellState::Alive).unwrap();
    w.set_decay(0, 1, 37).unwrap();
    let mut frame = vec![9u8; 16];
    w.draw(&mut frame).unwrap();
    // (0,0): dead, decay 0.
    assert_eq!(&frame[0..4], &[255, 0, 0, 0]);
    // (1,0): alive.
    assert_eq!(&frame[4..8], &[255, 255, 255, 240]);
    // (0,1): dead, decay 37.
    assert_eq!(&frame[8..12], &[255, 37, 0, 37]);
    // (1,1): dead, decay 0.
    assert_eq!(&frame[12..16], &[255, 0, 0, 0]);
}

#[test]
fn draw_rejects_mismatched_buffer() {
    let w = new_world(2, 2);
    let mut short = vec![5u8; 15];
    assert_eq!(w.draw(&mut short).unwrap_err(), WorldError::SizeMismatch);
    assert_eq!(short, vec![5u8; 15]);
    let mut long = vec![5u8; 17];
    assert_eq!(w.draw(&mut long).unwrap_err(), WorldError::SizeMismatch);
    assert_eq!(long, vec![5u8; 17]);
}

#[test]
fn regenerate_empty_clears_everything() {
    let mut w = new_world(10, 10);
    for (x, y) in [(0usize, 0usize), (5, 5), (9, 9)] {
        w.set(x, y, CellState::Alive).unwrap();
        w.set_decay(x, y, 80).unwrap();
    }
    w.generate_world(true);
    for y in 0..10 {
        for x in 0..10 {
            assert_eq!(w.get(x, y).unwrap(), CellState::Dead);
            assert_eq!(w.get_decay(x, y).unwrap(), 0);
        }
    }
}

#[test]
fn regenerate_random_is_about_two_thirds_alive() {
    let mut w = new_world(100, 100);
    w.generate_world(false);
    let mut alive: u32 = 0;
    for y in 0..100 {
        for x in 0..100 {
            if w.get(x, y).unwrap() == CellState::Alive {
                alive += 1;
            }
            assert_eq!(w.get_decay(x, y).unwrap(), 0);
        }
    }
    // Expected 2/3 of 10000; a wide tolerance band keeps the test stable.
    assert!(alive > 6000 && alive < 7300, "alive fraction off: {alive}");
}

#[test]
fn glider_advances_one_generation() {
    let mut w = new_world(5, 5);
    let start = [(1usize, 0usize), (2, 1), (0, 2), (1, 2), (2, 2)];
    for (x, y) in start {
        w.set(x, y, CellState::Alive).unwrap();
    }
    w.update();
    let expected = [(0usize, 1usize), (2, 1), (1, 2), (2, 2), (1, 3)];
    for y in 0..5 {
        for x in 0..5 {
            let should_live = expected.contains(&(x, y));
            let state = w.get(x, y).unwrap();
            if should_live {
                assert_eq!(state, CellState::Alive, "expected ({x},{y}) alive");
            } else {
                assert_eq!(state, CellState::Dead, "expected ({x},{y}) dead");
            }
        }
    }
}

#[test]
fn swap_buffers_exchanges_active_and_scratch() {
    let mut w = new_world(2, 2);
    w.set(0, 0, CellState::Alive).unwrap();
    w.swap_buffers();
    // The scratch buffer of a fresh world is all dead.
    assert_eq!(w.get(0, 0).unwrap(), CellState::Dead);
    w.swap_buffers();
    assert_eq!(w.get(0, 0).unwrap(), CellState::Alive);
}

#[test]
fn roll_maps_zero_to_dead_and_rest_to_alive() {
    assert_eq!(glowlife::world::cell_from_roll(0), CellState::Dead);
    assert_eq!(glowlife::world::cell_from_roll(1), CellState::Alive);
    assert_eq!(glowlife::world::cell_from_roll(2), CellState::Alive);
}
