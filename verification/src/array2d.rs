//! Dense two-dimensional storage in row-major order, with bounds-checked
//! single-cell access and bounds-checked dual-cell mutable access.

use vstd::prelude::*;

verus! {

/// The value a freshly allocated grid cell holds.
///
/// `Array2D::new` fills the grid with this value; the specification side
/// names it so that the contents of a new grid are fully determined.
pub trait GridDefault: Sized {
    spec fn spec_default() -> Self;

    fn default_cell() -> (r: Self)
        ensures
            r == Self::spec_default(),
    ;
}

impl GridDefault for i32 {
    open spec fn spec_default() -> i32 {
        0
    }

    fn default_cell() -> i32 {
        0
    }
}

/// Writing two distinct positions of a sequence, each through its own
/// sub-slice, is the same as updating the sequence at those two positions.
proof fn lemma_two_point_update<T>(s: Seq<T>, p1: int, p2: int, v1: T, v2: T)
    requires
        0 <= p1 < p2 < s.len(),
    ensures
        s.subrange(0, p1) + s.subrange(p1, p2).update(0, v1) + s.subrange(
            p2,
            s.len() as int,
        ).update(0, v2) == s.update(p1, v1).update(p2, v2),
{
    assert(s.subrange(0, p1) + s.subrange(p1, p2).update(0, v1) + s.subrange(
        p2,
        s.len() as int,
    ).update(0, v2) =~= s.update(p1, v1).update(p2, v2));
}

/// A `width`-column grid stored as one flat row-major vector.
///
/// The cell `(x, y)` lives at linear position `y * width + x`.  The number
/// of rows is implicit: it is the storage length divided by the width.
#[derive(Debug, Clone)]
pub struct Array2D<T> {
    inner: Vec<T>,
    width: usize,
}

impl<T> Array2D<T> {
    /// The flat row-major contents.
    pub closed spec fn contents(&self) -> Seq<T> {
        self.inner@
    }

    /// The number of columns.
    pub closed spec fn spec_width(&self) -> int {
        self.width as int
    }

    /// The linear position of cell `(x, y)`.
    pub open spec fn pos(&self, x: int, y: int) -> int {
        y * self.spec_width() + x
    }

    /// Whether `(x, y)` addresses a stored cell: the column must exist and
    /// the linear position must fall inside the storage.
    pub open spec fn in_bounds(&self, x: int, y: int) -> bool {
        &&& 0 <= x < self.spec_width()
        &&& 0 <= y
        &&& self.pos(x, y) < self.contents().len()
    }

    /// A grid of `width * height` default cells.
    pub fn new(width: usize, height: usize) -> (r: Array2D<T>) where T: GridDefault
        requires
            width * height <= usize::MAX,
        ensures
            r.spec_width() == width,
            r.contents().len() == width * height,
            forall|i: int| 0 <= i < r.contents().len() ==> r.contents()[i] == T::spec_default(),
    {
        let count = width * height;
        let mut inner: Vec<T> = Vec::new();
        while inner.len() < count
            invariant
                inner.len() <= count,
                count == width * height,
                forall|i: int| 0 <= i < inner.len() ==> inner@[i] == T::spec_default(),
            decreases count - inner.len(),
        {
            inner.push(T::default_cell());
        }
        Array2D { inner, width }
    }

    /// The linear position of `(x, y)`, validated against the storage.
    fn index_of(&self, x: usize, y: usize) -> (r: Option<usize>)
        ensures
            match r {
                Some(p) => self.in_bounds(x as int, y as int) && p == self.pos(x as int, y as int),
                None => !self.in_bounds(x as int, y as int),
            },
    {
        if x >= self.width {
            return None;
        }
        let l = self.inner.len();
        match y.checked_mul(self.width) {
            Some(q) => match q.checked_add(x) {
                Some(p) => if p < l {
                    Some(p)
                } else {
                    None
                },
                None => None,
            },
            None => None,
        }
    }

    /// Read access to cell `(x, y)`; nothing when out of range.
    pub fn get(&self, x: usize, y: usize) -> (r: Option<&T>)
        ensures
            match r {
                Some(v) => self.in_bounds(x as int, y as int) && *v == self.contents()[self.pos(
                    x as int,
                    y as int,
                )],
                None => !self.in_bounds(x as int, y as int),
            },
    {
        match self.index_of(x, y) {
            Some(p) => Some(&self.inner[p]),
            None => None,
        }
    }

    /// Write access to cell `(x, y)`; nothing when out of range.
    pub fn get_mut(&mut self, x: usize, y: usize) -> (r: Option<&mut T>)
        ensures
            final(self).spec_width() == old(self).spec_width(),
            old(self).in_bounds(x as int, y as int) ==> {
                &&& r.is_some()
                &&& *r.unwrap() == old(self).contents()[old(self).pos(x as int, y as int)]
                &&& final(self).contents() == old(self).contents().update(
                    old(self).pos(x as int, y as int),
                    *final(r.unwrap()),
                )
            },
            !old(self).in_bounds(x as int, y as int) ==> r.is_none() && final(self).contents()
                == old(self).contents(),
    {
        match self.index_of(x, y) {
            Some(p) => Some(&mut self.inner[p]),
            None => None,
        }
    }

    /// Whether `(x1, y1)` and `(x2, y2)` surely address different storage:
    /// either some linear position overflows the machine word, or the two
    /// positions differ.  `get_mut2` demands this of its callers; two equal
    /// computed positions are a caller error, never silent aliasing.
    pub open spec fn positions_distinct(&self, x1: int, y1: int, x2: int, y2: int) -> bool {
        ||| self.pos(x1, y1) > usize::MAX
        ||| self.pos(x2, y2) > usize::MAX
        ||| self.pos(x1, y1) != self.pos(x2, y2)
    }

    /// Mutable access to two distinct cells at once.
    ///
    /// Each slot resolves like `get_mut`: a cell out of range yields nothing
    /// in its slot without disturbing the other.  The two returned references
    /// never alias: each writes to its own linear position.
    pub fn get_mut2(&mut self, x1: usize, y1: usize, x2: usize, y2: usize) -> (r: (
        Option<&mut T>,
        Option<&mut T>,
    ))
        requires
            old(self).positions_distinct(x1 as int, y1 as int, x2 as int, y2 as int),
        ensures
            final(self).spec_width() == old(self).spec_width(),
            old(self).in_bounds(x1 as int, y1 as int) ==> r.0.is_some() && *r.0.unwrap() == old(
                self,
            ).contents()[old(self).pos(x1 as int, y1 as int)],
            old(self).in_bounds(x2 as int, y2 as int) ==> r.1.is_some() && *r.1.unwrap() == old(
                self,
            ).contents()[old(self).pos(x2 as int, y2 as int)],
            !old(self).in_bounds(x1 as int, y1 as int) ==> r.0.is_none(),
            !old(self).in_bounds(x2 as int, y2 as int) ==> r.1.is_none(),
            final(self).contents() == (if old(self).in_bounds(x1 as int, y1 as int) && old(
                self,
            ).in_bounds(x2 as int, y2 as int) {
                old(self).contents().update(
                    old(self).pos(x1 as int, y1 as int),
                    *final(r.0.unwrap()),
                ).update(old(self).pos(x2 as int, y2 as int), *final(r.1.unwrap()))
            } else if old(self).in_bounds(x1 as int, y1 as int) {
                old(self).contents().update(
                    old(self).pos(x1 as int, y1 as int),
                    *final(r.0.unwrap()),
                )
            } else if old(self).in_bounds(x2 as int, y2 as int) {
                old(self).contents().update(
                    old(self).pos(x2 as int, y2 as int),
                    *final(r.1.unwrap()),
                )
            } else {
                old(self).contents()
            }),
    {
        let p1o = self.index_of(x1, y1);
        let p2o = self.index_of(x2, y2);
        match (p1o, p2o) {
            (Some(p1), Some(p2)) => {
                let ghost s = self.contents();
                let slice = self.inner.as_mut_slice();
                if p1 < p2 {
                    let (a, b) = slice.split_at_mut(p2);
                    let r2 = b.first_mut();
                    let (_a0, a1) = a.split_at_mut(p1);
                    let r1 = a1.first_mut();
                    proof {
                        lemma_two_point_update(
                            s,
                            p1 as int,
                            p2 as int,
                            *final(r1.unwrap()),
                            *final(r2.unwrap()),
                        );
                    }
                    (r1, r2)
                } else {
                    let (a, b) = slice.split_at_mut(p1);
                    let r1 = b.first_mut();
                    let (_a0, a1) = a.split_at_mut(p2);
                    let r2 = a1.first_mut();
                    proof {
                        lemma_two_point_update(
                            s,
                            p2 as int,
                            p1 as int,
                            *final(r2.unwrap()),
                            *final(r1.unwrap()),
                        );
                        assert(s.update(p2 as int, *final(r2.unwrap())).update(
                            p1 as int,
                            *final(r1.unwrap()),
                        ) =~= s.update(p1 as int, *final(r1.unwrap())).update(
                            p2 as int,
                            *final(r2.unwrap()),
                        ));
                    }
                    (r1, r2)
                }
            },
            (Some(_), None) => (self.get_mut(x1, y1), None),
            (None, Some(_)) => (None, self.get_mut(x2, y2)),
            (None, None) => (None, None),
        }
    }

    /// Overwrite cell `(x, y)`, which must be in range.
    pub(crate) fn set_at(&mut self, x: usize, y: usize, v: T)
        requires
            old(self).in_bounds(x as int, y as int),
        ensures
            final(self).spec_width() == old(self).spec_width(),
            final(self).contents() == old(self).contents().update(
                old(self).pos(x as int, y as int),
                v,
            ),
    {
        let l = self.inner.len();
        let p = y * self.width + x;
        self.inner[p] = v;
    }
}

} // verus!
