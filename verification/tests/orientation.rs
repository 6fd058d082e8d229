use super_prime_mover::adjacency;
use super_prime_mover::Orientation;

#[test]
fn vectors_match_screen_convention() {
    assert_eq!(Orientation::North.to_vector(), (0, -1));
    assert_eq!(Orientation::South.to_vector(), (0, 1));
    assert_eq!(Orientation::West.to_vector(), (-1, 0));
    assert_eq!(Orientation::East.to_vector(), (1, 0));
}

#[test]
fn opposites_pair_up() {
    assert_eq!(Orientation::North.opposite(), Orientation::South);
    assert_eq!(Orientation::South.opposite(), Orientation::North);
    assert_eq!(Orientation::East.opposite(), Orientation::West);
    assert_eq!(Orientation::West.opposite(), Orientation::East);
}

#[test]
fn step_moves_one_cell() {
    assert_eq!(Orientation::North.step(3, 4), (3, 3));
    assert_eq!(Orientation::South.step(3, 4), (3, 5));
    assert_eq!(Orientation::West.step(3, 4), (2, 4));
    assert_eq!(Orientation::East.step(3, 4), (4, 4));
}

#[test]
fn step_wraps_at_the_origin() {
    // the wrapped coordinate is out of range for every real grid
    assert_eq!(Orientation::North.step(0, 0), (0, usize::MAX));
    assert_eq!(Orientation::West.step(0, 0), (usize::MAX, 0));
}

#[test]
fn adjacency_recovers_the_direction() {
    assert_eq!(adjacency(2, 2, 2, 3), Some(Orientation::South));
    assert_eq!(adjacency(2, 3, 2, 2), Some(Orientation::North));
    assert_eq!(adjacency(2, 2, 3, 2), Some(Orientation::East));
    assert_eq!(adjacency(3, 2, 2, 2), Some(Orientation::West));
}

#[test]
fn adjacency_rejects_non_neighbors() {
    assert_eq!(adjacency(2, 2, 2, 2), None);
    assert_eq!(adjacency(2, 2, 3, 3), None);
    assert_eq!(adjacency(2, 2, 2, 4), None);
    assert_eq!(adjacency(0, 0, 5, 0), None);
}
