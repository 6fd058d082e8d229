use super_prime_mover::Board;
use super_prime_mover::Connection;
use super_prime_mover::Game;
use super_prime_mover::Orientation;
use super_prime_mover::Tile;

fn wire() -> Tile {
    Tile::Wire { slow: false }
}

/// An 8x8 board with a wire at (2, 2) and wires on all four of its
/// neighbors, so that every edge of (2, 2) has a tolerant endpoint.
fn cross_of_wires() -> Board {
    let mut b = Board::default();
    b.set_tile(2, 2, wire());
    b.set_tile(2, 1, wire());
    b.set_tile(2, 3, wire());
    b.set_tile(1, 2, wire());
    b.set_tile(3, 2, wire());
    b
}

#[test]
fn two_wires_connect_south() {
    let mut b = Board::default();
    b.set_tile(2, 2, wire());
    b.set_tile(2, 3, wire());
    b.connect(2, 2, Orientation::South);
    assert_eq!(b.get_connections(2, 2), [false, false, true, false]);
    assert_eq!(b.get_connections(2, 3), [true, false, false, false]);
}

#[test]
fn eviction_removes_the_oldest_edge() {
    let mut b = cross_of_wires();
    b.connect(2, 2, Orientation::North); // oldest
    b.connect(2, 2, Orientation::South);
    assert_eq!(b.get_connections(2, 2), [true, false, true, false]);
    b.connect(2, 2, Orientation::East); // wire capacity is 2: North must go
    assert_eq!(b.get_connections(2, 2), [false, true, true, false]);
    assert_eq!(b.get_connections(2, 1), [false, false, false, false]);
}

#[test]
fn saturated_wire_keeps_count_two() {
    let mut b = cross_of_wires();
    b.connect(2, 2, Orientation::North);
    b.connect(2, 2, Orientation::South);
    b.connect(2, 2, Orientation::East);
    let conns = b.get_connections(2, 2);
    let count = conns.iter().filter(|c| **c).count();
    assert_eq!(count, 2);
    assert!(conns[1], "the new edge must survive over strictly older ones");
    assert!(!conns[0], "the oldest of the previous edges must be evicted");
}

#[test]
fn reconnecting_refreshes_the_timestamp() {
    let mut b = cross_of_wires();
    b.connect(2, 2, Orientation::North);
    b.connect(2, 2, Orientation::South);
    b.connect(2, 2, Orientation::North); // North is now the newest again
    b.connect(2, 2, Orientation::East); // South is the oldest: it goes
    assert_eq!(b.get_connections(2, 2), [true, true, false, false]);
}

#[test]
fn connecting_between_empty_tiles_is_undone() {
    // both endpoints have capacity 0, so the new edge is evicted at once
    let mut b = Board::default();
    b.connect(2, 2, Orientation::South);
    assert_eq!(b.get_connections(2, 2), [false, false, false, false]);
    assert_eq!(b.get_connections(2, 3), [false, false, false, false]);
}

#[test]
fn placing_over_edges_leaves_them_until_revalidation() {
    let mut b = cross_of_wires();
    b.set_tile(2, 2, Tile::Cloner); // capacity 3
    b.connect(2, 2, Orientation::North);
    b.connect(2, 2, Orientation::South);
    b.connect(2, 2, Orientation::East);
    assert_eq!(b.get_connections(2, 2), [true, true, true, false]);

    // placing a smaller tile over three live edges leaves it over capacity
    b.set_tile(2, 2, wire());
    let count = b.get_connections(2, 2).iter().filter(|c| **c).count();
    assert_eq!(count, 3);

    // ... until the next connect touching the tile prunes it to capacity,
    // keeping the two newest edges
    b.connect(2, 2, Orientation::West);
    assert_eq!(b.get_connections(2, 2), [false, true, false, true]);
}

#[test]
fn boundary_directions_read_disconnected() {
    let b = Board::default();
    assert_eq!(b.get_connections(0, 0), [false, false, false, false]);
    assert_eq!(b.get_connections(7, 7), [false, false, false, false]);
    assert_eq!(b.get_connections(0, 7), [false, false, false, false]);
    assert_eq!(b.get_connections(7, 0), [false, false, false, false]);
}

#[test]
fn out_of_range_reads_are_soft() {
    let b = Board::default();
    assert_eq!(b.get_connections(100, 100), [false, false, false, false]);
    assert_eq!(b.get_connections(usize::MAX, 0), [false, false, false, false]);
    assert!(b.get_tile(8, 0).is_none());
    assert!(b.get_tile(0, 8).is_none());
}

#[test]
fn out_of_range_place_is_a_no_op() {
    let mut b = Board::default();
    b.set_tile(100, 100, wire());
    for y in 0..8 {
        for x in 0..8 {
            assert!(matches!(b.get_tile(x, y), Some(Tile::Empty)));
        }
    }
}

#[test]
fn placed_tiles_are_read_back() {
    let mut b = Board::default();
    assert!(matches!(b.get_tile(4, 5), Some(Tile::Empty)));
    b.set_tile(4, 5, Tile::Lock { locked: true });
    assert!(matches!(b.get_tile(4, 5), Some(Tile::Lock { locked: true })));
    assert!(matches!(b.get_tile(5, 4), Some(Tile::Empty)));
}

#[test]
fn capacity_table() {
    assert_eq!(Tile::Empty.max_connections(), 0);
    assert_eq!(Tile::Unusable { broken: true }.max_connections(), 0);
    assert_eq!(Tile::Wire { slow: false }.max_connections(), 2);
    assert_eq!(Tile::Button { orientation: Orientation::North }.max_connections(), 2);
    assert_eq!(Tile::Lock { locked: false }.max_connections(), 2);
    assert_eq!(Tile::Cloner.max_connections(), 3);
    assert_eq!(Tile::Flipflop { orientation: Orientation::East, reversed: false }.max_connections(), 3);
    assert_eq!(Tile::Sorter { orientation: Orientation::South, reversed: true }.max_connections(), 3);
    assert_eq!(Tile::Joiner { orientation: Orientation::West }.max_connections(), 4);
    assert_eq!(Tile::Incrementer { reversed: false }.max_connections(), 4);
    assert_eq!(Tile::Deleter.max_connections(), 4);
    assert_eq!(Tile::Bridge.max_connections(), 4);
    let sub = Tile::SubBoard {
        contents: Board::default(),
        icon: super_prime_mover::BoardIcon::Green,
    };
    assert_eq!(sub.max_connections(), 4);
}

#[test]
fn connections_seen_from_both_sides() {
    let mut b = cross_of_wires();
    b.connect(2, 2, Orientation::East);
    assert_eq!(b.get_connections(2, 2), [false, true, false, false]);
    assert_eq!(b.get_connections(3, 2), [false, false, false, true]);
}

#[test]
fn cloner_holds_three_edges() {
    let mut b = cross_of_wires();
    b.set_tile(2, 2, Tile::Cloner);
    b.connect(2, 2, Orientation::North);
    b.connect(2, 2, Orientation::South);
    b.connect(2, 2, Orientation::East);
    assert_eq!(b.get_connections(2, 2), [true, true, true, false]);
    b.connect(2, 2, Orientation::West); // fourth edge: the oldest (North) goes
    assert_eq!(b.get_connections(2, 2), [false, true, true, true]);
}

#[test]
fn disconnected_sentinel_value() {
    let c = Connection::disconnected();
    assert_eq!(c.timestamp, 0);
    assert!(!c.is_connected);
}

#[test]
fn game_wraps_a_board() {
    let mut b = Board::default();
    b.set_tile(1, 1, wire());
    let _game = Game::with(b);
}
