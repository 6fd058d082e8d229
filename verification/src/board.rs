//! Tiles, edge records, and the board that composes them.
//!
//! The board stores its tiles in one dense grid and its edges in two more:
//! horizontal edges (connecting `(x, y)` to `(x + 1, y)`) in a grid one
//! column narrower than the tile grid, vertical edges (connecting `(x, y)`
//! to `(x, y + 1)`) in a grid one row shorter.  An edge lookup that falls
//! outside those grids reads as a constant disconnected sentinel.

use vstd::prelude::*;

use crate::array2d::Array2D;
use crate::array2d::GridDefault;
use crate::orientation::Orientation;
use crate::orientation::spec_dec;

verus! {

/// One directional edge record: whether the edge is active, and the tick at
/// which it was (last) created.  Timestamps order eviction: when a tile goes
/// over capacity, its oldest connected edges are deactivated first.
#[derive(Debug, Clone, Copy, PartialEq, Eq, Structural)]
pub struct Connection {
    /// The tick at which this connection was created.
    pub timestamp: usize,
    pub is_connected: bool,
}

impl Connection {
    /// The sentinel read for any edge position outside the edge grids.
    pub open spec fn spec_disconnected() -> Connection {
        Connection { timestamp: 0, is_connected: false }
    }

    pub fn disconnected() -> (r: Connection)
        ensures
            r == Connection::spec_disconnected(),
    {
        Connection { timestamp: 0, is_connected: false }
    }
}

impl Default for Connection {
    fn default() -> (r: Connection)
        ensures
            r == Connection::spec_disconnected(),
    {
        Connection::disconnected()
    }
}

impl GridDefault for Connection {
    open spec fn spec_default() -> Connection {
        Connection::spec_disconnected()
    }

    fn default_cell() -> Connection {
        Connection::disconnected()
    }
}

/// The icon drawn for a nested board tile.
#[derive(Debug, Clone)]
pub enum BoardIcon {
    Green,
    Red,
    Blue,
    Other { png_data: Vec<u8> },
}

/// One cell's logical content.  Each variant permits a fixed maximum number
/// of simultaneously connected edges; the payloads are opaque to this core.
#[derive(Debug)]
pub enum Tile {
    Empty,
    Unusable {
        /// If true, this tile is a vanilla game "broken" tile on which
        /// nothing can get placed.  If false, it is an "invisible" tile that
        /// may be used as a pseudo input.
        broken: bool,
    },
    Wire { slow: bool },
    Bridge,
    Joiner { orientation: Orientation },
    Cloner,
    Sorter { orientation: Orientation, reversed: bool },
    Deleter,
    Flipflop { orientation: Orientation, reversed: bool },
    Incrementer { reversed: bool },
    Button { orientation: Orientation },
    Lock { locked: bool },
    SubBoard { contents: Board, icon: BoardIcon },
}

impl Default for Tile {
    fn default() -> (r: Tile)
        ensures
            r == Tile::Empty,
    {
        Tile::Empty
    }
}

impl GridDefault for Tile {
    open spec fn spec_default() -> Tile {
        Tile::Empty
    }

    fn default_cell() -> Tile {
        Tile::Empty
    }
}

impl Tile {
    /// The maximum number of simultaneously connected edges this tile's
    /// variant permits, ignoring its payload.
    pub open spec fn spec_max_connections(self) -> usize {
        match self {
            Tile::Button { .. } => 2usize,
            Tile::Wire { .. } => 2usize,
            Tile::Lock { .. } => 2usize,
            Tile::Cloner => 3usize,
            Tile::Flipflop { .. } => 3usize,
            Tile::Sorter { .. } => 3usize,
            Tile::SubBoard { .. } => 4usize,
            Tile::Joiner { .. } => 4usize,
            Tile::Incrementer { .. } => 4usize,
            Tile::Deleter => 4usize,
            Tile::Bridge => 4usize,
            Tile::Empty => 0usize,
            Tile::Unusable { .. } => 0usize,
        }
    }

    pub fn max_connections(&self) -> (r: usize)
        ensures
            r == self.spec_max_connections(),
    {
        match self {
            Tile::Button { .. } => 2,
            Tile::Wire { .. } => 2,
            Tile::Lock { .. } => 2,
            Tile::Cloner => 3,
            Tile::Flipflop { .. } => 3,
            Tile::Sorter { .. } => 3,
            Tile::SubBoard { .. } => 4,
            Tile::Joiner { .. } => 4,
            Tile::Incrementer { .. } => 4,
            Tile::Deleter => 4,
            Tile::Bridge => 4,
            _ => 0,
        }
    }
}

/// Whether direction `o` addresses the horizontal edge grid (East/West) or
/// the vertical one (North/South).
pub open spec fn dir_is_h(o: Orientation) -> bool {
    o == Orientation::East || o == Orientation::West
}

/// Row-major positions are injective on the cells of one grid.
proof fn lemma_pos_injective(w: int, x1: int, y1: int, x2: int, y2: int)
    by (nonlinear_arith)
    requires
        1 <= w,
        0 <= x1 < w,
        0 <= x2 < w,
        0 <= y1,
        0 <= y2,
        y1 * w + x1 == y2 * w + x2,
    ensures
        x1 == x2,
        y1 == y2,
{
}

/// A row-major position below the grid's total size pins its row below the
/// grid's row count.
proof fn lemma_row_bound(w: int, h: int, x: int, y: int)
    by (nonlinear_arith)
    requires
        1 <= w,
        0 <= x < w,
        0 <= y,
        y * w + x < w * h,
    ensures
        y < h,
{
}

/// A cell inside a grid's column and row counts has its row-major position
/// below the grid's total size.
proof fn lemma_pos_bound(w: int, h: int, x: int, y: int)
    by (nonlinear_arith)
    requires
        0 <= x < w,
        0 <= y < h,
    ensures
        y * w + x < w * h,
{
}

/// The four edge records seen from one tile are pairwise distinct.
proof fn lemma_tile_dirs_distinct(b: Board, x: usize, y: usize)
    ensures
        forall|d1: Orientation, d2: Orientation|
            d1 != d2 ==> !#[trigger] b.same_dir_edge(x, y, d1, x, y, d2),
{
}

/// How many of the four records are connected and strictly newer than `t`.
fn count_newer(t: usize, n: Connection, e: Connection, s: Connection, w: Connection) -> (r: usize)
    ensures
        r == (if n.is_connected && n.timestamp > t {
            1int
        } else {
            0int
        }) + (if e.is_connected && e.timestamp > t {
            1int
        } else {
            0int
        }) + (if s.is_connected && s.timestamp > t {
            1int
        } else {
            0int
        }) + (if w.is_connected && w.timestamp > t {
            1int
        } else {
            0int
        }),
{
    let mut r: usize = 0;
    if n.is_connected && n.timestamp > t {
        r += 1;
    }
    if e.is_connected && e.timestamp > t {
        r += 1;
    }
    if s.is_connected && s.timestamp > t {
        r += 1;
    }
    if w.is_connected && w.timestamp > t {
        r += 1;
    }
    r
}

/// Multiplying by a factor of at least one does not shrink a nonnegative
/// number.
proof fn lemma_mul_ge(a: int, b: int)
    by (nonlinear_arith)
    requires
        0 <= a,
        1 <= b,
    ensures
        a <= a * b,
{
}

/// Geometry of one `connect` call on a well-formed board: the stamped edge
/// exists, so both of its endpoint tiles are stored, the neighbor sees the
/// same record through the opposite direction, no other direction of either
/// endpoint sees an edge of the other endpoint, and the only viewers of the
/// stamped record are the two endpoints.
proof fn lemma_adjacent_geometry(b: Board, x: usize, y: usize, o: Orientation)
    requires
        b.wf_geometry(),
        b.can_connect(x, y, o),
    ensures
        x < b.spec_width(),
        y < b.spec_height(),
        o.spec_step(x, y).0 < b.spec_width(),
        o.spec_step(x, y).1 < b.spec_height(),
        b.same_dir_edge(x, y, o, o.spec_step(x, y).0, o.spec_step(x, y).1, o.spec_opposite()),
        forall|d: Orientation|
            d != o.spec_opposite() ==> !#[trigger] b.touches(
                x,
                y,
                o.spec_step(x, y).0,
                o.spec_step(x, y).1,
                d,
            ),
        forall|d: Orientation|
            d != o ==> !#[trigger] b.touches(o.spec_step(x, y).0, o.spec_step(x, y).1, x, y, d),
        forall|a: usize, bb: usize, d: Orientation|
            #[trigger] b.same_dir_edge(x, y, o, a, bb, d) ==> (a == x && bb == y && d == o) || (a
                == o.spec_step(x, y).0 && bb == o.spec_step(x, y).1 && d == o.spec_opposite()),
{
    let h = b.spec_height();
    let ex = b.dir_ex(x, y, o);
    let ey = b.dir_ey(x, y, o);
    if dir_is_h(o) {
        lemma_row_bound(b.hconn_width(), h, ex, ey);
    } else {
        if h == 1 {
            assert(b.vconn().len() == b.spec_width() * 0 == 0) by (nonlinear_arith)
                requires b.vconn().len() == b.spec_width() * (h - 1) && h == 1;
        }
        lemma_row_bound(b.vconn_width(), h - 1, ex, ey);
    }
}

/// The relation between a board and the same board right after one tile's
/// re-validation: sizes, tiles and counter unchanged, every timestamp kept,
/// connectivity only ever cleared, records away from the tile untouched,
/// and the tile's own directions reduced to exactly the kept set.
pub open spec fn revalidated(pre: Board, post: Board, x: usize, y: usize) -> bool {
    &&& post.wf()
    &&& post.spec_width() == pre.spec_width()
    &&& post.spec_height() == pre.spec_height()
    &&& post.spec_counter() == pre.spec_counter()
    &&& post.tiles_width() == pre.tiles_width()
    &&& post.tiles_seq() == pre.tiles_seq()
    &&& post.hconn_width() == pre.hconn_width()
    &&& post.vconn_width() == pre.vconn_width()
    &&& post.hconn().len() == pre.hconn().len()
    &&& post.vconn().len() == pre.vconn().len()
    &&& forall|d: Orientation| #[trigger] post.connected_in_dir(x, y, d) == pre.keeps(x, y, d)
    &&& forall|a: usize, b: usize, d: Orientation|
        (#[trigger] post.conn_in_dir(a, b, d)).timestamp == pre.conn_in_dir(a, b, d).timestamp
    &&& forall|a: usize, b: usize, d: Orientation| #[trigger]
        post.connected_in_dir(a, b, d) ==> pre.connected_in_dir(a, b, d)
    &&& forall|a: usize, b: usize, d: Orientation|
        !pre.touches(x, y, a, b, d) ==> #[trigger] post.conn_in_dir(a, b, d) == pre.conn_in_dir(
            a,
            b,
            d,
        )
}

/// The relation between a board and the same board right after the edge
/// toward `o` from `(x, y)` was stamped with the counter and the counter
/// was bumped: exactly the target record is rewritten, and the source
/// tile's pending re-validation outcome is `source_keeps`.
pub open spec fn stamped_rel(pre: Board, post: Board, x: usize, y: usize, o: Orientation) -> bool {
    &&& post.wf()
    &&& post.spec_width() == pre.spec_width()
    &&& post.spec_height() == pre.spec_height()
    &&& post.spec_counter() == pre.spec_counter() + 1
    &&& post.tiles_width() == pre.tiles_width()
    &&& post.tiles_seq() == pre.tiles_seq()
    &&& post.hconn_width() == pre.hconn_width()
    &&& post.vconn_width() == pre.vconn_width()
    &&& post.hconn().len() == pre.hconn().len()
    &&& post.vconn().len() == pre.vconn().len()
    &&& forall|a: usize, b: usize, d: Orientation|
        pre.same_dir_edge(x, y, o, a, b, d) ==> #[trigger] post.conn_in_dir(a, b, d)
            == (Connection { timestamp: pre.spec_counter() as usize, is_connected: true })
    &&& forall|a: usize, b: usize, d: Orientation|
        !pre.same_dir_edge(x, y, o, a, b, d) ==> #[trigger] post.conn_in_dir(a, b, d)
            == pre.conn_in_dir(a, b, d)
    &&& forall|d: Orientation| #[trigger] post.keeps(x, y, d) == pre.source_keeps(x, y, o, d)
}

/// Effect of stamping the new edge: writing a connected record carrying the
/// current counter into the target position, then bumping the counter,
/// preserves well-formedness, rewrites exactly the target record, and makes
/// the source tile's re-validation outcome equal `source_keeps`.
#[verifier::rlimit(100)]
#[verifier::spinoff_prover]
proof fn lemma_stamp(pre: Board, post: Board, x: usize, y: usize, o: Orientation)
    requires
        pre.wf(),
        pre.can_connect(x, y, o),
        pre.spec_counter() < usize::MAX,
        post.spec_width() == pre.spec_width(),
        post.spec_height() == pre.spec_height(),
        post.spec_counter() == pre.spec_counter() + 1,
        post.tiles_width() == pre.tiles_width(),
        post.tiles_seq() == pre.tiles_seq(),
        post.hconn_width() == pre.hconn_width(),
        post.vconn_width() == pre.vconn_width(),
        dir_is_h(o) ==> post.hconn() == pre.hconn().update(
            pre.dir_pos(x, y, o),
            (Connection { timestamp: pre.spec_counter() as usize, is_connected: true }),
        ) && post.vconn() == pre.vconn(),
        !dir_is_h(o) ==> post.vconn() == pre.vconn().update(
            pre.dir_pos(x, y, o),
            (Connection { timestamp: pre.spec_counter() as usize, is_connected: true }),
        ) && post.hconn() == pre.hconn(),
    ensures
        stamped_rel(pre, post, x, y, o),
{
    let ex = pre.dir_ex(x, y, o);
    let ey = pre.dir_ey(x, y, o);
    assert forall|a: usize, b: usize, d: Orientation|
        !pre.same_dir_edge(x, y, o, a, b, d) implies #[trigger] post.conn_in_dir(a, b, d)
        == pre.conn_in_dir(a, b, d) by {
        let ax = pre.dir_ex(a, b, d);
        let ay = pre.dir_ey(a, b, d);
        if dir_is_h(d) == dir_is_h(o) {
            if dir_is_h(o) {
                if pre.h_in_bounds(ax, ay) && ay * pre.hconn_width() + ax == ey * pre.hconn_width()
                    + ex {
                    lemma_pos_injective(pre.hconn_width(), ax, ay, ex, ey);
                }
            } else {
                if pre.v_in_bounds(ax, ay) && ay * pre.vconn_width() + ax == ey * pre.vconn_width()
                    + ex {
                    lemma_pos_injective(pre.vconn_width(), ax, ay, ex, ey);
                }
            }
        }
    }
    lemma_tile_dirs_distinct(pre, x, y);
}

/// After stamping and re-validating the source, the neighbor's records are
/// exactly what the `nb_*` view of the original board describes, so its
/// re-validation outcome equals `nb_keeps`.
proof fn lemma_nb_keeps(pre: Board, mid: Board, x: usize, y: usize, o: Orientation)
    requires
        pre.wf(),
        pre.can_connect(x, y, o),
        pre.spec_counter() < usize::MAX,
        mid.tiles_width() == pre.tiles_width(),
        mid.tiles_seq() == pre.tiles_seq(),
        mid.connected_in_dir(o.spec_step(x, y).0, o.spec_step(x, y).1, o.spec_opposite())
            == pre.source_keeps(x, y, o, o),
        mid.conn_in_dir(o.spec_step(x, y).0, o.spec_step(x, y).1, o.spec_opposite()).timestamp
            == pre.spec_counter() as usize,
        forall|d: Orientation|
            d != o.spec_opposite() ==> #[trigger] mid.conn_in_dir(
                o.spec_step(x, y).0,
                o.spec_step(x, y).1,
                d,
            ) == pre.conn_in_dir(o.spec_step(x, y).0, o.spec_step(x, y).1, d),
    ensures
        forall|d: Orientation| #[trigger] mid.keeps(o.spec_step(x, y).0, o.spec_step(x, y).1, d)
            == pre.nb_keeps(x, y, o, d),
{
}

/// Assembly of one `connect` call from its three steps: stamping the target
/// edge, re-validating the source tile, re-validating the neighbor.
#[verifier::rlimit(100)]
#[verifier::spinoff_prover]
proof fn lemma_connect_post(
    pre: Board,
    mid1: Board,
    mid2: Board,
    post: Board,
    x: usize,
    y: usize,
    o: Orientation,
)
    requires
        pre.wf(),
        pre.can_connect(x, y, o),
        pre.spec_counter() < usize::MAX,
        stamped_rel(pre, mid1, x, y, o),
        revalidated(mid1, mid2, x, y),
        revalidated(mid2, post, o.spec_step(x, y).0, o.spec_step(x, y).1),
    ensures
        post.wf(),
        post.spec_width() == pre.spec_width(),
        post.spec_height() == pre.spec_height(),
        post.spec_counter() == pre.spec_counter() + 1,
        post.tiles_width() == pre.tiles_width(),
        post.tiles_seq() == pre.tiles_seq(),
        post.hconn_width() == pre.hconn_width(),
        post.vconn_width() == pre.vconn_width(),
        post.hconn().len() == pre.hconn().len(),
        post.vconn().len() == pre.vconn().len(),
        post.conn_in_dir(x, y, o).timestamp == pre.spec_counter() as usize,
        forall|d: Orientation|
            d != o ==> #[trigger] post.connected_in_dir(x, y, d) == pre.source_keeps(x, y, o, d),
        post.connected_in_dir(x, y, o) == pre.nb_keeps(x, y, o, o.spec_opposite()),
        forall|d: Orientation| #[trigger]
            post.connected_in_dir(o.spec_step(x, y).0, o.spec_step(x, y).1, d) == pre.nb_keeps(
                x,
                y,
                o,
                d,
            ),
        forall|a: usize, b: usize, d: Orientation|
            !pre.touches(x, y, a, b, d) && !pre.touches(
                o.spec_step(x, y).0,
                o.spec_step(x, y).1,
                a,
                b,
                d,
            ) ==> #[trigger] post.conn_in_dir(a, b, d) == pre.conn_in_dir(a, b, d),
        forall|a: usize, b: usize, d: Orientation|
            !pre.same_dir_edge(x, y, o, a, b, d) ==> (#[trigger] post.conn_in_dir(
                a,
                b,
                d,
            )).timestamp == pre.conn_in_dir(a, b, d).timestamp && (post.connected_in_dir(a, b, d)
                ==> pre.connected_in_dir(a, b, d)),
        post.degree(x, y) <= pre.cap_at(x as int, y as int),
        post.degree(o.spec_step(x, y).0, o.spec_step(x, y).1) <= pre.cap_at(
            o.spec_step(x, y).0 as int,
            o.spec_step(x, y).1 as int,
        ),
        pre.cap_ok() ==> post.cap_ok(),
{
    lemma_adjacent_geometry(pre, x, y, o);
    let nx = o.spec_step(x, y).0;
    let ny = o.spec_step(x, y).1;
    let back = o.spec_opposite();
    assert forall|d: Orientation|
        d != back implies #[trigger] mid2.conn_in_dir(nx, ny, d) == pre.conn_in_dir(nx, ny, d) by {
        assert(!pre.touches(x, y, nx, ny, d));
        assert(!mid1.touches(x, y, nx, ny, d));
        assert(!pre.same_dir_edge(x, y, o, nx, ny, d));
        assert(mid1.conn_in_dir(nx, ny, d) == pre.conn_in_dir(nx, ny, d));
    }
    assert(pre.same_dir_edge(x, y, o, nx, ny, back));
    assert(mid1.conn_in_dir(nx, ny, back) == (Connection {
        timestamp: pre.spec_counter() as usize,
        is_connected: true,
    }));
    assert(mid2.conn_in_dir(nx, ny, back) == mid2.conn_in_dir(x, y, o));
    assert(mid2.connected_in_dir(x, y, o) == mid1.keeps(x, y, o));
    assert(mid2.conn_in_dir(nx, ny, back).timestamp == mid1.conn_in_dir(nx, ny, back).timestamp);
    lemma_nb_keeps(pre, mid2, x, y, o);
    lemma_keeps_within_cap(mid1, x, y);
    lemma_keeps_within_cap(mid2, nx, ny);
    assert(post.conn_in_dir(x, y, o) == post.conn_in_dir(nx, ny, back));
    assert forall|d: Orientation|
        d != o implies #[trigger] post.connected_in_dir(x, y, d) == pre.source_keeps(
        x,
        y,
        o,
        d,
    ) by {
        assert(!pre.touches(nx, ny, x, y, d));
        assert(!mid2.touches(nx, ny, x, y, d));
        assert(post.conn_in_dir(x, y, d) == mid2.conn_in_dir(x, y, d));
        assert(mid2.connected_in_dir(x, y, d) == mid1.keeps(x, y, d));
    }
    assert forall|a: usize, b: usize, d: Orientation|
        !pre.same_dir_edge(x, y, o, a, b, d) implies (#[trigger] post.conn_in_dir(
        a,
        b,
        d,
    )).timestamp == pre.conn_in_dir(a, b, d).timestamp && (post.connected_in_dir(a, b, d)
        ==> pre.connected_in_dir(a, b, d)) by {
        assert(mid1.conn_in_dir(a, b, d) == pre.conn_in_dir(a, b, d));
        assert(post.conn_in_dir(a, b, d).timestamp == mid2.conn_in_dir(a, b, d).timestamp);
        assert(mid2.conn_in_dir(a, b, d).timestamp == mid1.conn_in_dir(a, b, d).timestamp);
    }
    assert(post.connected_in_dir(nx, ny, back) == mid2.keeps(nx, ny, back));
    assert(post.connected_in_dir(x, y, o) == post.connected_in_dir(nx, ny, back));
    assert(post.degree(x, y) <= pre.cap_at(x as int, y as int)) by {
        assert(post.connected_in_dir(x, y, o) ==> mid2.connected_in_dir(nx, ny, back));
        assert(post.connected_in_dir(x, y, o) ==> mid1.keeps(x, y, o));
        assert(mid1.kept_degree(x, y) <= mid1.cap_at(x as int, y as int));
    }
    assert(post.degree(nx, ny) <= pre.cap_at(nx as int, ny as int)) by {
        assert(mid2.kept_degree(nx, ny) <= mid2.cap_at(nx as int, ny as int));
    }
    if pre.cap_ok() {
        assert forall|a: usize, b: usize|
            a < post.spec_width() && b < post.spec_height() implies #[trigger] post.degree(a, b)
            <= post.cap_at(a as int, b as int) by {
            if !(a == x && b == y) && !(a == nx && b == ny) {
                assert forall|d: Orientation| #[trigger]
                    post.connected_in_dir(a, b, d) implies pre.connected_in_dir(a, b, d) by {
                    if pre.same_dir_edge(x, y, o, a, b, d) {
                        assert(false);
                    }
                }
                assert(pre.degree(a, b) <= pre.cap_at(a as int, b as int));
            }
        }
    }
}

/// Distinct connected edges of one tile carry distinct timestamps.
proof fn lemma_dir_records_distinct(b: Board, x: usize, y: usize)
    requires
        b.wf(),
    ensures
        forall|d1: Orientation, d2: Orientation|
            #![trigger b.conn_in_dir(x, y, d1), b.conn_in_dir(x, y, d2)]
            !b.same_dir_edge(x, y, d1, x, y, d2) && b.connected_in_dir(x, y, d1)
                && b.connected_in_dir(x, y, d2) ==> b.conn_in_dir(x, y, d1).timestamp
                != b.conn_in_dir(x, y, d2).timestamp,
{
    assert forall|d1: Orientation, d2: Orientation|
        !b.same_dir_edge(x, y, d1, x, y, d2) && b.connected_in_dir(x, y, d1)
            && b.connected_in_dir(x, y, d2) implies #[trigger] b.conn_in_dir(x, y, d1).timestamp
        != #[trigger] b.conn_in_dir(x, y, d2).timestamp by {
        let ex1 = b.dir_ex(x, y, d1);
        let ey1 = b.dir_ey(x, y, d1);
        let ex2 = b.dir_ex(x, y, d2);
        let ey2 = b.dir_ey(x, y, d2);
        if dir_is_h(d1) && dir_is_h(d2) {
            if ey1 * b.hconn_width() + ex1 == ey2 * b.hconn_width() + ex2 {
                lemma_pos_injective(b.hconn_width(), ex1, ey1, ex2, ey2);
            }
        } else if !dir_is_h(d1) && !dir_is_h(d2) {
            if ey1 * b.vconn_width() + ex1 == ey2 * b.vconn_width() + ex2 {
                lemma_pos_injective(b.vconn_width(), ex1, ey1, ex2, ey2);
            }
        }
    }
}

/// Re-validation keeps at most `capacity` edges connected: if more edges
/// were kept, the oldest kept edge would itself count at least `capacity`
/// newer connected edges and would not have been kept.
proof fn lemma_keeps_within_cap(b: Board, x: usize, y: usize)
    requires
        b.wf(),
    ensures
        b.kept_degree(x, y) <= b.cap_at(x as int, y as int),
{
    lemma_dir_records_distinct(b, x, y);
}

/// Every connected record of `s` carries a timestamp below `c`.
pub open spec fn ts_below(s: Seq<Connection>, c: int) -> bool {
    forall|i: int| 0 <= i < s.len() && s[i].is_connected ==> #[trigger] s[i].timestamp < c
}

/// No two connected records of `s` share a timestamp.
pub open spec fn ts_distinct_within(s: Seq<Connection>) -> bool {
    forall|i: int, j: int|
        #![trigger s[i].timestamp, s[j].timestamp]
        0 <= i < s.len() && 0 <= j < s.len() && i != j && s[i].is_connected && s[j].is_connected
            ==> s[i].timestamp != s[j].timestamp
}

/// No connected record of `s1` shares a timestamp with one of `s2`.
pub open spec fn ts_distinct_across(s1: Seq<Connection>, s2: Seq<Connection>) -> bool {
    forall|i: int, j: int|
        #![trigger s1[i].timestamp, s2[j].timestamp]
        0 <= i < s1.len() && 0 <= j < s2.len() && s1[i].is_connected && s2[j].is_connected
            ==> s1[i].timestamp != s2[j].timestamp
}

/// The logic board: a grid of tiles and the two edge grids between them,
/// together with the monotonically increasing edge-creation counter.
#[derive(Debug)]
pub struct Board {
    tiles: Array2D<Tile>,
    connections_v: Array2D<Connection>,
    connections_h: Array2D<Connection>,
    width: usize,
    height: usize,
    connection_counter: usize,
}

impl Board {
    /// The tiles, flat in row-major order.
    pub closed spec fn tiles_seq(self) -> Seq<Tile> {
        self.tiles.contents()
    }

    /// The horizontal edge records, flat in row-major order.
    pub closed spec fn hconn(self) -> Seq<Connection> {
        self.connections_h.contents()
    }

    /// The vertical edge records, flat in row-major order.
    pub closed spec fn vconn(self) -> Seq<Connection> {
        self.connections_v.contents()
    }

    pub closed spec fn spec_width(self) -> int {
        self.width as int
    }

    pub closed spec fn spec_height(self) -> int {
        self.height as int
    }

    pub closed spec fn spec_counter(self) -> int {
        self.connection_counter as int
    }

    /// The column count of the tile grid.
    pub closed spec fn tiles_width(self) -> int {
        self.tiles.spec_width()
    }

    /// The column count of the horizontal edge grid.
    pub closed spec fn hconn_width(self) -> int {
        self.connections_h.spec_width()
    }

    /// The column count of the vertical edge grid.
    pub closed spec fn vconn_width(self) -> int {
        self.connections_v.spec_width()
    }

    /// Whether `(x, y)` addresses a stored tile.
    pub open spec fn tile_in_bounds(self, x: int, y: int) -> bool {
        &&& 0 <= x < self.tiles_width()
        &&& 0 <= y
        &&& y * self.tiles_width() + x < self.tiles_seq().len()
    }

    /// The tile stored at `(x, y)`.
    pub open spec fn tile_at(self, x: int, y: int) -> Tile {
        self.tiles_seq()[y * self.tiles_width() + x]
    }

    /// The capacity of the tile at `(x, y)`.
    pub open spec fn cap_at(self, x: int, y: int) -> int {
        self.tile_at(x, y).spec_max_connections() as int
    }

    /// Whether `(x, y)` addresses a stored horizontal edge record.
    pub open spec fn h_in_bounds(self, x: int, y: int) -> bool {
        &&& 0 <= x < self.hconn_width()
        &&& 0 <= y
        &&& y * self.hconn_width() + x < self.hconn().len()
    }

    /// Whether `(x, y)` addresses a stored vertical edge record.
    pub open spec fn v_in_bounds(self, x: int, y: int) -> bool {
        &&& 0 <= x < self.vconn_width()
        &&& 0 <= y
        &&& y * self.vconn_width() + x < self.vconn().len()
    }

    /// The horizontal edge record at `(x, y)`, or the disconnected sentinel
    /// when the position is outside the grid.
    pub open spec fn h_lookup(self, x: int, y: int) -> Connection {
        if self.h_in_bounds(x, y) {
            self.hconn()[y * self.hconn_width() + x]
        } else {
            Connection::spec_disconnected()
        }
    }

    /// The vertical edge record at `(x, y)`, or the disconnected sentinel
    /// when the position is outside the grid.
    pub open spec fn v_lookup(self, x: int, y: int) -> Connection {
        if self.v_in_bounds(x, y) {
            self.vconn()[y * self.vconn_width() + x]
        } else {
            Connection::spec_disconnected()
        }
    }

    /// The grid column of the edge record seen from `(x, y)` in direction
    /// `o`.  West addresses the record one column to the left, wrapping
    /// below zero; the bounds check rejects the wrapped coordinate.
    pub open spec fn dir_ex(self, x: usize, y: usize, o: Orientation) -> int {
        match o {
            Orientation::North => x as int,
            Orientation::South => x as int,
            Orientation::East => x as int,
            Orientation::West => spec_dec(x) as int,
        }
    }

    /// The grid row of the edge record seen from `(x, y)` in direction `o`.
    /// North addresses the record one row up, wrapping below zero.
    pub open spec fn dir_ey(self, x: usize, y: usize, o: Orientation) -> int {
        match o {
            Orientation::North => spec_dec(y) as int,
            Orientation::South => y as int,
            Orientation::East => y as int,
            Orientation::West => y as int,
        }
    }

    /// Whether the edge record seen from `(x, y)` in direction `o` exists in
    /// its grid.
    pub open spec fn dir_in_bounds(self, x: usize, y: usize, o: Orientation) -> bool {
        if dir_is_h(o) {
            self.h_in_bounds(self.dir_ex(x, y, o), self.dir_ey(x, y, o))
        } else {
            self.v_in_bounds(self.dir_ex(x, y, o), self.dir_ey(x, y, o))
        }
    }

    /// The flat position of the edge record seen from `(x, y)` in `o`.
    pub open spec fn dir_pos(self, x: usize, y: usize, o: Orientation) -> int {
        if dir_is_h(o) {
            self.dir_ey(x, y, o) * self.hconn_width() + self.dir_ex(x, y, o)
        } else {
            self.dir_ey(x, y, o) * self.vconn_width() + self.dir_ex(x, y, o)
        }
    }

    /// Whether `(x1, y1)` looking in `o1` and `(x2, y2)` looking in `o2`
    /// address the same stored edge record.
    pub open spec fn same_dir_edge(
        self,
        x1: usize,
        y1: usize,
        o1: Orientation,
        x2: usize,
        y2: usize,
        o2: Orientation,
    ) -> bool {
        &&& dir_is_h(o1) == dir_is_h(o2)
        &&& self.dir_ex(x1, y1, o1) == self.dir_ex(x2, y2, o2)
        &&& self.dir_ey(x1, y1, o1) == self.dir_ey(x2, y2, o2)
    }

    /// The edge record seen from tile `(x, y)` in direction `o`.
    ///
    /// North and West address the edge at the lower index, so the coordinate
    /// wraps below zero and the bounds check rejects it at the grid border:
    /// there the sentinel is read.
    pub open spec fn conn_in_dir(self, x: usize, y: usize, o: Orientation) -> Connection {
        if dir_is_h(o) {
            self.h_lookup(self.dir_ex(x, y, o), self.dir_ey(x, y, o))
        } else {
            self.v_lookup(self.dir_ex(x, y, o), self.dir_ey(x, y, o))
        }
    }

    /// Whether tile `(x, y)` has a connected edge in direction `o`.
    pub open spec fn connected_in_dir(self, x: usize, y: usize, o: Orientation) -> bool {
        self.conn_in_dir(x, y, o).is_connected
    }

    /// The number of connected edges touching tile `(x, y)`.
    pub open spec fn degree(self, x: usize, y: usize) -> int {
        (if self.connected_in_dir(x, y, Orientation::North) {
            1int
        } else {
            0int
        }) + (if self.connected_in_dir(x, y, Orientation::East) {
            1int
        } else {
            0int
        }) + (if self.connected_in_dir(x, y, Orientation::South) {
            1int
        } else {
            0int
        }) + (if self.connected_in_dir(x, y, Orientation::West) {
            1int
        } else {
            0int
        })
    }

    /// Whether direction `e` of tile `(x, y)` holds a connected edge whose
    /// timestamp is strictly above `t`.
    pub open spec fn newer_flag(self, x: usize, y: usize, e: Orientation, t: int) -> bool {
        self.connected_in_dir(x, y, e) && self.conn_in_dir(x, y, e).timestamp > t
    }

    /// How many connected edges of tile `(x, y)` are strictly newer than the
    /// edge in direction `d`.
    pub open spec fn newer_count(self, x: usize, y: usize, d: Orientation) -> int {
        let t = self.conn_in_dir(x, y, d).timestamp as int;
        (if self.newer_flag(x, y, Orientation::North, t) {
            1int
        } else {
            0int
        }) + (if self.newer_flag(x, y, Orientation::East, t) {
            1int
        } else {
            0int
        }) + (if self.newer_flag(x, y, Orientation::South, t) {
            1int
        } else {
            0int
        }) + (if self.newer_flag(x, y, Orientation::West, t) {
            1int
        } else {
            0int
        })
    }

    /// Whether re-validating tile `(x, y)` keeps direction `d` connected:
    /// the edge is connected and fewer than `capacity` connected edges of
    /// the tile are newer.  Since timestamps are distinct, this keeps
    /// exactly the newest `capacity` edges and evicts the oldest.
    pub open spec fn keeps(self, x: usize, y: usize, d: Orientation) -> bool {
        self.connected_in_dir(x, y, d) && self.newer_count(x, y, d) < self.cap_at(
            x as int,
            y as int,
        )
    }

    /// The number of edges of tile `(x, y)` that re-validation keeps.
    pub open spec fn kept_degree(self, x: usize, y: usize) -> int {
        (if self.keeps(x, y, Orientation::North) {
            1int
        } else {
            0int
        }) + (if self.keeps(x, y, Orientation::East) {
            1int
        } else {
            0int
        }) + (if self.keeps(x, y, Orientation::South) {
            1int
        } else {
            0int
        }) + (if self.keeps(x, y, Orientation::West) {
            1int
        } else {
            0int
        })
    }

    /// Whether `(a, b)` looking in `d` sees one of the four edge records
    /// incident to tile `(x, y)`.
    pub open spec fn touches(self, x: usize, y: usize, a: usize, b: usize, d: Orientation) -> bool {
        ||| self.same_dir_edge(x, y, Orientation::North, a, b, d)
        ||| self.same_dir_edge(x, y, Orientation::East, a, b, d)
        ||| self.same_dir_edge(x, y, Orientation::South, a, b, d)
        ||| self.same_dir_edge(x, y, Orientation::West, a, b, d)
    }

    /// Connectivity seen from `(x, y)` in `d` right after the edge toward
    /// `o` has been activated, before any re-validation.
    pub open spec fn stamped_conn(self, x: usize, y: usize, o: Orientation, d: Orientation) -> bool {
        d == o || self.connected_in_dir(x, y, d)
    }

    /// Timestamp seen from `(x, y)` in `d` right after the edge toward `o`
    /// has been stamped with the current counter.
    pub open spec fn stamped_ts(self, x: usize, y: usize, o: Orientation, d: Orientation) -> int {
        if d == o {
            self.spec_counter()
        } else {
            self.conn_in_dir(x, y, d).timestamp as int
        }
    }

    /// How many edges of `(x, y)` are connected and strictly newer than the
    /// one in `d`, right after the edge toward `o` has been stamped.
    pub open spec fn stamped_newer_count(
        self,
        x: usize,
        y: usize,
        o: Orientation,
        d: Orientation,
    ) -> int {
        let t = self.stamped_ts(x, y, o, d);
        (if self.stamped_conn(x, y, o, Orientation::North) && self.stamped_ts(
            x,
            y,
            o,
            Orientation::North,
        ) > t {
            1int
        } else {
            0int
        }) + (if self.stamped_conn(x, y, o, Orientation::East) && self.stamped_ts(
            x,
            y,
            o,
            Orientation::East,
        ) > t {
            1int
        } else {
            0int
        }) + (if self.stamped_conn(x, y, o, Orientation::South) && self.stamped_ts(
            x,
            y,
            o,
            Orientation::South,
        ) > t {
            1int
        } else {
            0int
        }) + (if self.stamped_conn(x, y, o, Orientation::West) && self.stamped_ts(
            x,
            y,
            o,
            Orientation::West,
        ) > t {
            1int
        } else {
            0int
        })
    }

    /// Whether re-validating `(x, y)` right after `connect(x, y, o)` stamped
    /// its new edge keeps direction `d` connected.
    pub open spec fn source_keeps(self, x: usize, y: usize, o: Orientation, d: Orientation) -> bool {
        self.stamped_conn(x, y, o, d) && self.stamped_newer_count(x, y, o, d) < self.cap_at(
            x as int,
            y as int,
        )
    }

    /// Connectivity seen from the neighbor of `(x, y)` across `o` in
    /// direction `d`, after the new edge was stamped and `(x, y)` was
    /// re-validated: the back edge holds whatever the source re-validation
    /// left of the new edge, every other direction is untouched.
    pub open spec fn nb_conn(self, x: usize, y: usize, o: Orientation, d: Orientation) -> bool {
        if d == o.spec_opposite() {
            self.source_keeps(x, y, o, o)
        } else {
            self.connected_in_dir(o.spec_step(x, y).0, o.spec_step(x, y).1, d)
        }
    }

    /// Timestamp seen from the neighbor of `(x, y)` across `o` in `d` at the
    /// same point: the back edge carries the fresh counter value.
    pub open spec fn nb_ts(self, x: usize, y: usize, o: Orientation, d: Orientation) -> int {
        if d == o.spec_opposite() {
            self.spec_counter()
        } else {
            self.conn_in_dir(o.spec_step(x, y).0, o.spec_step(x, y).1, d).timestamp as int
        }
    }

    /// How many edges of the neighbor are connected and strictly newer than
    /// the one in `d`, at the point its re-validation runs.
    pub open spec fn nb_newer_count(self, x: usize, y: usize, o: Orientation, d: Orientation) -> int {
        let t = self.nb_ts(x, y, o, d);
        (if self.nb_conn(x, y, o, Orientation::North) && self.nb_ts(x, y, o, Orientation::North)
            > t {
            1int
        } else {
            0int
        }) + (if self.nb_conn(x, y, o, Orientation::East) && self.nb_ts(x, y, o, Orientation::East)
            > t {
            1int
        } else {
            0int
        }) + (if self.nb_conn(x, y, o, Orientation::South) && self.nb_ts(
            x,
            y,
            o,
            Orientation::South,
        ) > t {
            1int
        } else {
            0int
        }) + (if self.nb_conn(x, y, o, Orientation::West) && self.nb_ts(x, y, o, Orientation::West)
            > t {
            1int
        } else {
            0int
        })
    }

    /// Whether the neighbor's re-validation, the last step of
    /// `connect(x, y, o)`, leaves its direction `d` connected.
    pub open spec fn nb_keeps(self, x: usize, y: usize, o: Orientation, d: Orientation) -> bool {
        self.nb_conn(x, y, o, d) && self.nb_newer_count(x, y, o, d) < self.cap_at(
            o.spec_step(x, y).0 as int,
            o.spec_step(x, y).1 as int,
        )
    }

    /// Whether `connect(x, y, o)` addresses an edge record that exists.
    /// Connecting toward the outside of the grid (for example North from the
    /// top row) is a caller contract violation, not a recoverable error.
    pub open spec fn can_connect(self, x: usize, y: usize, o: Orientation) -> bool {
        self.dir_in_bounds(x, y, o)
    }

    /// Every stored tile is within its capacity.
    pub open spec fn cap_ok(self) -> bool {
        forall|x: usize, y: usize|
            x < self.spec_width() && y < self.spec_height() ==> #[trigger] self.degree(x, y)
                <= self.cap_at(x as int, y as int)
    }

    /// The geometric part of well-formedness: the edge grids are exactly one
    /// column (respectively row) smaller than the tile grid.
    pub open spec fn wf_geometry(self) -> bool {
        &&& 1 <= self.spec_width()
        &&& 1 <= self.spec_height()
        &&& self.spec_width() * self.spec_height() <= usize::MAX
        &&& self.tiles_width() == self.spec_width()
        &&& self.tiles_seq().len() == self.spec_width() * self.spec_height()
        &&& self.hconn_width() == self.spec_width() - 1
        &&& self.hconn().len() == (self.spec_width() - 1) * self.spec_height()
        &&& self.vconn_width() == self.spec_width()
        &&& self.vconn().len() == self.spec_width() * (self.spec_height() - 1)
    }

    /// Well-formedness: the grids have matching sizes, every connected edge
    /// was stamped below the current counter, and no two connected edges
    /// share a timestamp.
    pub open spec fn wf(self) -> bool {
        &&& self.wf_geometry()
        &&& ts_below(self.hconn(), self.spec_counter())
        &&& ts_below(self.vconn(), self.spec_counter())
        &&& ts_distinct_within(self.hconn())
        &&& ts_distinct_within(self.vconn())
        &&& ts_distinct_across(self.hconn(), self.vconn())
    }

    /// A board of `width * height` empty tiles with every edge disconnected.
    pub fn new(width: usize, height: usize) -> (r: Board)
        requires
            1 <= width,
            1 <= height,
            width * height <= usize::MAX,
        ensures
            r.wf(),
            r.cap_ok(),
            r.spec_width() == width,
            r.spec_height() == height,
            r.spec_counter() == 0,
            forall|i: int| 0 <= i < r.tiles_seq().len() ==> r.tiles_seq()[i] == Tile::Empty,
            forall|i: int|
                0 <= i < r.hconn().len() ==> r.hconn()[i] == Connection::spec_disconnected(),
            forall|i: int|
                0 <= i < r.vconn().len() ==> r.vconn()[i] == Connection::spec_disconnected(),
    {
        proof {
            assert((width - 1) * height <= width * height && width * (height - 1) <= width * height)
                by (nonlinear_arith)
                requires 1 <= width && 1 <= height;
        }
        let tiles = Array2D::<Tile>::new(width, height);
        let connections_h = Array2D::<Connection>::new(width - 1, height);
        let connections_v = Array2D::<Connection>::new(width, height - 1);
        let r = Board { tiles, connections_v, connections_h, width, height, connection_counter: 0 };
        proof {
            assert forall|x: usize, y: usize| x < r.spec_width() && y < r.spec_height() implies #[trigger] r.degree(
                x,
                y,
            ) <= r.cap_at(x as int, y as int) by {
                assert(r.degree(x, y) == 0);
            }
        }
        r
    }

    /// Read access to the tile at `(x, y)`; nothing when out of range.
    pub fn get_tile(&self, x: usize, y: usize) -> (r: Option<&Tile>)
        ensures
            match r {
                Some(t) => self.tile_in_bounds(x as int, y as int) && *t == self.tile_at(
                    x as int,
                    y as int,
                ),
                None => !self.tile_in_bounds(x as int, y as int),
            },
    {
        self.tiles.get(x, y)
    }

    /// Replace the tile at `(x, y)`; a no-op when out of range.
    ///
    /// Existing edges at that cell are deliberately left untouched, so the
    /// new tile can sit over more connected edges than its capacity allows
    /// until the next `connect` touching it re-validates the cell.
    pub fn set_tile(&mut self, x: usize, y: usize, tile: Tile)
        ensures
            final(self).spec_width() == old(self).spec_width(),
            final(self).spec_height() == old(self).spec_height(),
            final(self).spec_counter() == old(self).spec_counter(),
            final(self).tiles_width() == old(self).tiles_width(),
            final(self).hconn_width() == old(self).hconn_width(),
            final(self).vconn_width() == old(self).vconn_width(),
            final(self).hconn() == old(self).hconn(),
            final(self).vconn() == old(self).vconn(),
            old(self).tile_in_bounds(x as int, y as int) ==> final(self).tiles_seq() == old(
                self,
            ).tiles_seq().update(y as int * old(self).tiles_width() + x as int, tile),
            !old(self).tile_in_bounds(x as int, y as int) ==> final(self).tiles_seq() == old(
                self,
            ).tiles_seq(),
            old(self).wf() ==> final(self).wf(),
    {
        match self.tiles.get_mut(x, y) {
            Some(v) => {
                *v = tile;
            },
            None => {},
        }
    }

    /// The connected state seen from tile `(x, y)` in each direction, in the
    /// fixed order `[north, east, south, west]`.  Directions whose edge would
    /// fall outside the grid read as disconnected; no input is an error.
    pub fn get_connections(&self, x: usize, y: usize) -> (r: [bool; 4])
        ensures
            r[0] == self.connected_in_dir(x, y, Orientation::North),
            r[1] == self.connected_in_dir(x, y, Orientation::East),
            r[2] == self.connected_in_dir(x, y, Orientation::South),
            r[3] == self.connected_in_dir(x, y, Orientation::West),
    {
        let north = self.record_in_dir(x, y, Orientation::North);
        let east = self.record_in_dir(x, y, Orientation::East);
        let south = self.record_in_dir(x, y, Orientation::South);
        let west = self.record_in_dir(x, y, Orientation::West);
        [north.is_connected, east.is_connected, south.is_connected, west.is_connected]
    }

    /// Create (or re-create) the edge between tile `(x, y)` and its neighbor
    /// in direction `orientation`.
    ///
    /// The edge is marked connected and stamped with the board's counter,
    /// which then increases; afterwards both endpoint tiles are re-validated
    /// in turn, each evicting its oldest connected edges until it is back
    /// within capacity.  The new edge outlives every strictly older one, but
    /// can itself be evicted when an endpoint's capacity forces it.
    ///
    /// The target edge must exist: connecting toward the outside of the grid
    /// (for example North from the top row) is a caller contract violation,
    /// excluded here rather than tolerated, and callers are expected to have
    /// validated adjacency beforehand via the orientation algebra.
    #[verifier::rlimit(100)]
    pub fn connect(&mut self, tile_x: usize, tile_y: usize, orientation: Orientation)
        requires
            old(self).wf(),
            old(self).can_connect(tile_x, tile_y, orientation),
            old(self).spec_counter() < usize::MAX,
        ensures
            final(self).wf(),
            final(self).spec_width() == old(self).spec_width(),
            final(self).spec_height() == old(self).spec_height(),
            final(self).spec_counter() == old(self).spec_counter() + 1,
            final(self).tiles_width() == old(self).tiles_width(),
            final(self).tiles_seq() == old(self).tiles_seq(),
            final(self).hconn_width() == old(self).hconn_width(),
            final(self).vconn_width() == old(self).vconn_width(),
            final(self).hconn().len() == old(self).hconn().len(),
            final(self).vconn().len() == old(self).vconn().len(),
            final(self).conn_in_dir(tile_x, tile_y, orientation).timestamp == old(
                self,
            ).spec_counter() as usize,
            forall|d: Orientation|
                d != orientation ==> #[trigger] final(self).connected_in_dir(tile_x, tile_y, d)
                    == old(self).source_keeps(tile_x, tile_y, orientation, d),
            final(self).connected_in_dir(tile_x, tile_y, orientation) == old(self).nb_keeps(
                tile_x,
                tile_y,
                orientation,
                orientation.spec_opposite(),
            ),
            forall|d: Orientation| #[trigger]
                final(self).connected_in_dir(
                    orientation.spec_step(tile_x, tile_y).0,
                    orientation.spec_step(tile_x, tile_y).1,
                    d,
                ) == old(self).nb_keeps(tile_x, tile_y, orientation, d),
            forall|a: usize, b: usize, d: Orientation|
                !old(self).touches(tile_x, tile_y, a, b, d) && !old(self).touches(
                    orientation.spec_step(tile_x, tile_y).0,
                    orientation.spec_step(tile_x, tile_y).1,
                    a,
                    b,
                    d,
                ) ==> #[trigger] final(self).conn_in_dir(a, b, d) == old(self).conn_in_dir(a, b, d),
            forall|a: usize, b: usize, d: Orientation|
                !old(self).same_dir_edge(tile_x, tile_y, orientation, a, b, d)
                    ==> (#[trigger] final(self).conn_in_dir(a, b, d)).timestamp == old(
                    self,
                ).conn_in_dir(a, b, d).timestamp && (final(self).connected_in_dir(a, b, d) ==> old(
                    self,
                ).connected_in_dir(a, b, d)),
            final(self).degree(tile_x, tile_y) <= old(self).cap_at(tile_x as int, tile_y as int),
            final(self).degree(
                orientation.spec_step(tile_x, tile_y).0,
                orientation.spec_step(tile_x, tile_y).1,
            ) <= old(self).cap_at(
                orientation.spec_step(tile_x, tile_y).0 as int,
                orientation.spec_step(tile_x, tile_y).1 as int,
            ),
            old(self).cap_ok() ==> final(self).cap_ok(),
    {
        proof {
            lemma_adjacent_geometry(*old(self), tile_x, tile_y, orientation);
        }
        let stamp = Connection { timestamp: self.connection_counter, is_connected: true };
        match orientation {
            Orientation::North => {
                let ey = if tile_y == 0 {
                    usize::MAX
                } else {
                    tile_y - 1
                };
                self.connections_v.set_at(tile_x, ey, stamp);
            },
            Orientation::South => {
                self.connections_v.set_at(tile_x, tile_y, stamp);
            },
            Orientation::West => {
                let ex = if tile_x == 0 {
                    usize::MAX
                } else {
                    tile_x - 1
                };
                self.connections_h.set_at(ex, tile_y, stamp);
            },
            Orientation::East => {
                self.connections_h.set_at(tile_x, tile_y, stamp);
            },
        }
        self.connection_counter = self.connection_counter + 1;
        let ghost pre = *old(self);
        let ghost mid1 = *self;
        proof {
            lemma_stamp(pre, mid1, tile_x, tile_y, orientation);
        }
        self.update_tile(tile_x, tile_y);
        let ghost mid2 = *self;
        let neighbor = orientation.step(tile_x, tile_y);
        self.update_tile(neighbor.0, neighbor.1);
        proof {
            lemma_connect_post(pre, mid1, mid2, *self, tile_x, tile_y, orientation);
        }
    }

    /// Re-validate tile `(x, y)`: if more connected edges touch it than its
    /// capacity allows, deactivate the oldest ones (by creation timestamp)
    /// until the count equals the capacity.  Per direction, an edge stays
    /// exactly when fewer than `capacity` connected edges of this tile are
    /// newer than it.
    #[verifier::rlimit(100)]
    #[verifier::spinoff_prover]
    fn update_tile(&mut self, x: usize, y: usize)
        requires
            old(self).wf(),
            x < old(self).spec_width(),
            y < old(self).spec_height(),
        ensures
            revalidated(*old(self), *final(self), x, y),
    {
        let cap = match self.tiles.get(x, y) {
            Some(t) => t.max_connections(),
            None => 0,
        };
        proof {
            lemma_pos_bound(
                old(self).spec_width(),
                old(self).spec_height(),
                x as int,
                y as int,
            );
        }
        let n = self.record_in_dir(x, y, Orientation::North);
        let e = self.record_in_dir(x, y, Orientation::East);
        let s = self.record_in_dir(x, y, Orientation::South);
        let w = self.record_in_dir(x, y, Orientation::West);
        let evict_n = n.is_connected && count_newer(n.timestamp, n, e, s, w) >= cap;
        let evict_e = e.is_connected && count_newer(e.timestamp, n, e, s, w) >= cap;
        let evict_s = s.is_connected && count_newer(s.timestamp, n, e, s, w) >= cap;
        let evict_w = w.is_connected && count_newer(w.timestamp, n, e, s, w) >= cap;
        proof {
            lemma_tile_dirs_distinct(*old(self), x, y);
        }
        if evict_n {
            self.clear_dir(x, y, Orientation::North);
        }
        if evict_e {
            self.clear_dir(x, y, Orientation::East);
        }
        if evict_s {
            self.clear_dir(x, y, Orientation::South);
        }
        if evict_w {
            self.clear_dir(x, y, Orientation::West);
        }
    }

    /// Deactivate the edge seen from `(x, y)` in direction `o`, keeping its
    /// timestamp.  The edge must currently be connected (hence stored).
    fn clear_dir(&mut self, x: usize, y: usize, o: Orientation)
        requires
            old(self).wf(),
            old(self).connected_in_dir(x, y, o),
        ensures
            final(self).wf(),
            final(self).spec_width() == old(self).spec_width(),
            final(self).spec_height() == old(self).spec_height(),
            final(self).spec_counter() == old(self).spec_counter(),
            final(self).tiles_width() == old(self).tiles_width(),
            final(self).tiles_seq() == old(self).tiles_seq(),
            final(self).hconn_width() == old(self).hconn_width(),
            final(self).vconn_width() == old(self).vconn_width(),
            final(self).hconn().len() == old(self).hconn().len(),
            final(self).vconn().len() == old(self).vconn().len(),
            forall|i: int|
                0 <= i < old(self).hconn().len() ==> (#[trigger] final(self).hconn()[i]).timestamp
                    == old(self).hconn()[i].timestamp && (final(self).hconn()[i].is_connected
                    ==> old(self).hconn()[i].is_connected),
            forall|i: int|
                0 <= i < old(self).vconn().len() ==> (#[trigger] final(self).vconn()[i]).timestamp
                    == old(self).vconn()[i].timestamp && (final(self).vconn()[i].is_connected
                    ==> old(self).vconn()[i].is_connected),
            forall|a: usize, b: usize, d: Orientation|
                !old(self).same_dir_edge(x, y, o, a, b, d) ==> #[trigger] final(self).conn_in_dir(
                    a,
                    b,
                    d,
                ) == old(self).conn_in_dir(a, b, d),
            forall|a: usize, b: usize, d: Orientation|
                old(self).same_dir_edge(x, y, o, a, b, d) ==> #[trigger] final(self).conn_in_dir(
                    a,
                    b,
                    d,
                ) == (Connection {
                    timestamp: old(self).conn_in_dir(x, y, o).timestamp,
                    is_connected: false,
                }),
    {
        let c = self.record_in_dir(x, y, o);
        let cleared = Connection { timestamp: c.timestamp, is_connected: false };
        match o {
            Orientation::North => {
                let ey = if y == 0 {
                    usize::MAX
                } else {
                    y - 1
                };
                self.connections_v.set_at(x, ey, cleared);
            },
            Orientation::South => {
                self.connections_v.set_at(x, y, cleared);
            },
            Orientation::West => {
                let ex = if x == 0 {
                    usize::MAX
                } else {
                    x - 1
                };
                self.connections_h.set_at(ex, y, cleared);
            },
            Orientation::East => {
                self.connections_h.set_at(x, y, cleared);
            },
        }
        proof {
            let pre = *old(self);
            let post = *self;
            let ex = pre.dir_ex(x, y, o);
            let ey = pre.dir_ey(x, y, o);
            assert forall|a: usize, b: usize, d: Orientation|
                !pre.same_dir_edge(x, y, o, a, b, d) implies #[trigger] post.conn_in_dir(a, b, d)
                == pre.conn_in_dir(a, b, d) by {
                let ax = pre.dir_ex(a, b, d);
                let ay = pre.dir_ey(a, b, d);
                if dir_is_h(d) == dir_is_h(o) {
                    if dir_is_h(o) {
                        if pre.h_in_bounds(ax, ay) && ay * pre.hconn_width() + ax == ey
                            * pre.hconn_width() + ex {
                            lemma_pos_injective(pre.hconn_width(), ax, ay, ex, ey);
                        }
                    } else {
                        if pre.v_in_bounds(ax, ay) && ay * pre.vconn_width() + ax == ey
                            * pre.vconn_width() + ex {
                            lemma_pos_injective(pre.vconn_width(), ax, ay, ex, ey);
                        }
                    }
                }
            }
        }
    }

    /// The edge record seen from tile `(x, y)` in direction `o`, reading the
    /// disconnected sentinel where the position falls outside the edge grid.
    fn record_in_dir(&self, x: usize, y: usize, o: Orientation) -> (c: Connection)
        ensures
            c == self.conn_in_dir(x, y, o),
    {
        let r = match o {
            Orientation::North => self.connections_v.get(x, if y == 0 {
                usize::MAX
            } else {
                y - 1
            }),
            Orientation::South => self.connections_v.get(x, y),
            Orientation::West => self.connections_h.get(if x == 0 {
                usize::MAX
            } else {
                x - 1
            }, y),
            Orientation::East => self.connections_h.get(x, y),
        };
        match r {
            Some(c) => *c,
            None => Connection::disconnected(),
        }
    }
}

impl Default for Board {
    /// The default board: 8 by 8, all tiles empty, no edge connected.
    fn default() -> (r: Board)
        ensures
            r.wf(),
            r.cap_ok(),
            r.spec_width() == 8,
            r.spec_height() == 8,
            r.spec_counter() == 0,
            forall|i: int| 0 <= i < r.tiles_seq().len() ==> r.tiles_seq()[i] == Tile::Empty,
            forall|i: int|
                0 <= i < r.hconn().len() ==> r.hconn()[i] == Connection::spec_disconnected(),
            forall|i: int|
                0 <= i < r.vconn().len() ==> r.vconn()[i] == Connection::spec_disconnected(),
    {
        Board::new(8, 8)
    }
}

/// Two connected edges stored in different records never share a timestamp,
/// and every connected edge was stamped strictly below the board's counter:
/// timestamps order edge creation unambiguously, with no ties.
pub proof fn lemma_timestamps_unique(
    b: Board,
    x1: usize,
    y1: usize,
    d1: Orientation,
    x2: usize,
    y2: usize,
    d2: Orientation,
)
    requires
        b.wf(),
        !b.same_dir_edge(x1, y1, d1, x2, y2, d2),
        b.connected_in_dir(x1, y1, d1),
        b.connected_in_dir(x2, y2, d2),
    ensures
        b.conn_in_dir(x1, y1, d1).timestamp != b.conn_in_dir(x2, y2, d2).timestamp,
        b.conn_in_dir(x1, y1, d1).timestamp < b.spec_counter(),
{
    let ex1 = b.dir_ex(x1, y1, d1);
    let ey1 = b.dir_ey(x1, y1, d1);
    let ex2 = b.dir_ex(x2, y2, d2);
    let ey2 = b.dir_ey(x2, y2, d2);
    if dir_is_h(d1) && dir_is_h(d2) {
        if ey1 * b.hconn_width() + ex1 == ey2 * b.hconn_width() + ex2 {
            lemma_pos_injective(b.hconn_width(), ex1, ey1, ex2, ey2);
        }
    } else if !dir_is_h(d1) && !dir_is_h(d2) {
        if ey1 * b.vconn_width() + ex1 == ey2 * b.vconn_width() + ex2 {
            lemma_pos_injective(b.vconn_width(), ex1, ey1, ex2, ey2);
        }
    }
}

/// At the border of a well-formed board, the direction pointing off the
/// grid always reads as disconnected: the lookup lands on the sentinel,
/// never on an error.
pub proof fn lemma_boundary_sentinel(b: Board, x: usize, y: usize)
    requires
        b.wf(),
        x < b.spec_width(),
        y < b.spec_height(),
    ensures
        y == 0 ==> !b.connected_in_dir(x, y, Orientation::North),
        x == 0 ==> !b.connected_in_dir(x, y, Orientation::West),
        x == b.spec_width() - 1 ==> !b.connected_in_dir(x, y, Orientation::East),
        y == b.spec_height() - 1 ==> !b.connected_in_dir(x, y, Orientation::South),
{
    lemma_mul_ge(usize::MAX as int, b.spec_width());
    assert(b.spec_width() * (b.spec_height() - 1) <= b.spec_width() * b.spec_height())
        by (nonlinear_arith)
        requires 1 <= b.spec_width() && 1 <= b.spec_height();
    if y == b.spec_height() - 1 {
        assert((b.spec_height() - 1) * b.spec_width() + x >= b.spec_width() * (b.spec_height() - 1))
            by (nonlinear_arith)
            requires 0 <= x;
    }
}

/// `connect` can never target North from the top row: no vertical edge
/// record exists above row zero, so such a call violates `connect`'s
/// contract instead of silently doing nothing.
pub proof fn lemma_no_edge_north_of_top_row(b: Board, x: usize)
    requires
        b.wf(),
    ensures
        !b.can_connect(x, 0, Orientation::North),
{
    lemma_mul_ge(usize::MAX as int, b.spec_width());
    assert(b.spec_width() * (b.spec_height() - 1) <= b.spec_width() * b.spec_height())
        by (nonlinear_arith)
        requires 1 <= b.spec_width() && 1 <= b.spec_height();
}

/// Which `connect` targets exist, in plain coordinate terms: exactly the
/// directions whose edge stays on the grid.
pub proof fn lemma_can_connect_in_coords(b: Board, x: usize, y: usize, o: Orientation)
    requires
        b.wf(),
    ensures
        b.can_connect(x, y, o) == (match o {
            Orientation::North => x < b.spec_width() && 1 <= y && y < b.spec_height(),
            Orientation::South => x < b.spec_width() && y + 1 < b.spec_height(),
            Orientation::West => 1 <= x && x < b.spec_width() && y < b.spec_height(),
            Orientation::East => x + 1 < b.spec_width() && y < b.spec_height(),
        }),
{
    let w = b.spec_width();
    let h = b.spec_height();
    lemma_mul_ge(usize::MAX as int, w);
    assert(w * (h - 1) <= w * h && 0 * w == 0) by (nonlinear_arith)
        requires 1 <= w && 1 <= h;
    let ex = b.dir_ex(x, y, o);
    let ey = b.dir_ey(x, y, o);
    match o {
        Orientation::North => {
            if x < w && 1 <= y && y < h {
                lemma_pos_bound(b.vconn_width(), h - 1, ex, ey);
            }
            if b.v_in_bounds(ex, ey) {
                lemma_row_bound(b.vconn_width(), h - 1, ex, ey);
            }
        },
        Orientation::South => {
            if x < w && y + 1 < h {
                lemma_pos_bound(b.vconn_width(), h - 1, ex, ey);
            }
            if b.v_in_bounds(ex, ey) {
                lemma_row_bound(b.vconn_width(), h - 1, ex, ey);
            }
        },
        Orientation::West => {
            if 1 <= x && x < w && y < h {
                lemma_pos_bound(b.hconn_width(), h, ex, ey);
            }
            if b.h_in_bounds(ex, ey) {
                lemma_row_bound(b.hconn_width(), h, ex, ey);
            }
        },
        Orientation::East => {
            if x + 1 < w && y < h {
                lemma_pos_bound(b.hconn_width(), h, ex, ey);
            }
            if b.h_in_bounds(ex, ey) {
                lemma_row_bound(b.hconn_width(), h, ex, ey);
            }
        },
    }
}

/// Re-validation evicts no more edges than necessary: of a tile's
/// connected edges it keeps exactly the capacity's worth when there are too
/// many, and all of them otherwise.
pub proof fn lemma_keeps_exact_count(b: Board, x: usize, y: usize)
    requires
        b.wf(),
    ensures
        b.kept_degree(x, y) == (if b.degree(x, y) <= b.cap_at(x as int, y as int) {
            b.degree(x, y)
        } else {
            b.cap_at(x as int, y as int)
        }),
{
    lemma_dir_records_distinct(b, x, y);
    lemma_tile_dirs_distinct(b, x, y);
}

/// The two endpoints of a stored edge always read the same record: what
/// `(x, y)` sees in direction `o`, its neighbor across `o` sees in the
/// opposite direction.
pub proof fn lemma_neighbors_agree(b: Board, x: usize, y: usize, o: Orientation)
    requires
        b.wf(),
        b.dir_in_bounds(x, y, o),
    ensures
        b.conn_in_dir(x, y, o) == b.conn_in_dir(
            o.spec_step(x, y).0,
            o.spec_step(x, y).1,
            o.spec_opposite(),
        ),
{
    lemma_adjacent_geometry(b, x, y, o);
}

/// A signal traveling across the board; the tick simulation that will move
/// it is a not-yet-specified extension point.
pub struct Signal {
    #[allow(dead_code)]
    direction: Orientation,
}

/// A running game: a board plus the signals in flight.
pub struct Game {
    board: Board,
    signals: Vec<Signal>,
}

impl Game {
    pub closed spec fn spec_board(self) -> Board {
        self.board
    }

    pub closed spec fn spec_signals(self) -> Seq<Signal> {
        self.signals@
    }

    /// A game over `board` with no signal in flight.
    pub fn with(board: Board) -> (r: Game)
        ensures
            r.spec_board() == board,
            r.spec_signals().len() == 0,
    {
        Game { board, signals: Vec::new() }
    }
}

} // verus!

