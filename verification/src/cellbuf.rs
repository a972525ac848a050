//! The grid of cells: a front plane that holds what the terminal shows and a
//! back plane that is drawn on, side by side in one piece of storage.

use crate::{blank, Attr, Cell, DEFAULT};
use vstd::prelude::*;

verus! {

/// The storage for a grid of the size asked for cannot be had.
#[derive(Debug, Clone, Copy, PartialEq, Eq, Structural)]
pub struct AllocErr;

/// The cell at column `x` of row `y` in a plane of the given width.
pub open spec fn cell_at(plane: Seq<Cell>, width: nat, x: nat, y: nat) -> Cell {
    plane[(y * width + x) as int]
}

/// `new` is a plane of `w` by `h` cells that keeps the cells of `old`, a plane
/// of `ow` by `oh`, where the two overlap, and is blank in the default colours
/// elsewhere.
pub open spec fn is_resize_of(new: Seq<Cell>, w: nat, h: nat, old: Seq<Cell>, ow: nat, oh: nat) -> bool {
    &&& new.len() == w * h
    &&& forall|x: nat, y: nat|
        x < w && y < h ==> #[trigger] cell_at(new, w, x, y) == if x < ow && y < oh {
            cell_at(old, ow, x, y)
        } else {
            blank(Attr { bits: DEFAULT }, Attr { bits: DEFAULT })
        }
}

/// `new` is the plane `old` with the rectangle of `w` by `h` cells at
/// `(x, y)` replaced by the cells of `src`, row after row.
pub open spec fn is_blit_of(
    new: Seq<Cell>,
    old: Seq<Cell>,
    width: nat,
    height: nat,
    src: Seq<Cell>,
    x: nat,
    y: nat,
    w: nat,
    h: nat,
) -> bool {
    &&& new.len() == old.len()
    &&& forall|cx: nat, cy: nat|
        cx < width && cy < height ==> #[trigger] cell_at(new, width, cx, cy) == if x <= cx < x + w
            && y <= cy < y + h {
            cell_at(src, w, (cx - x) as nat, (cy - y) as nat)
        } else {
            cell_at(old, width, cx, cy)
        }
}

/// Whether a rectangle lies inside a grid and `len` cells suffice to fill it.
pub open spec fn blit_fits(width: nat, height: nat, len: nat, x: nat, y: nat, w: nat, h: nat) -> bool {
    x + w <= width && y + h <= height && w * h <= len
}

/// The index of `(x, y)` lies inside a plane of `w` by `h` cells, and rows do
/// not overlap.
pub proof fn lemma_index(w: nat, h: nat, x: nat, y: nat)
    requires
        x < w,
        y < h,
    ensures
        y * w + x < w * h,
        y * w + w <= w * h,
        w * h == h * w,
{
    assert(y * w + w <= w * h && w * h == h * w) by (nonlinear_arith)
        requires
            y < h,
    ;
}

/// Two positions of a plane share an index only if they are the same.
pub proof fn lemma_index_injective(w: nat, x1: nat, y1: nat, x2: nat, y2: nat)
    requires
        x1 < w,
        x2 < w,
        y1 * w + x1 == y2 * w + x2,
    ensures
        x1 == x2,
        y1 == y2,
{
    if y1 < y2 {
        assert(y1 * w + w <= y2 * w) by (nonlinear_arith)
            requires
                y1 < y2,
        ;
    } else if y2 < y1 {
        assert(y2 * w + w <= y1 * w) by (nonlinear_arith)
            requires
                y2 < y1,
        ;
    }
}

/// Whether a resize from `ow` by `oh` to `w` by `h` is sure to fail: the
/// size changes and the cells of the new size, both planes together, cannot
/// be counted.
pub open spec fn resize_fails(ow: nat, oh: nat, w: nat, h: nat) -> bool {
    (w != ow || h != oh) && 2 * (w * h) > usize::MAX
}

/// Whether a resize from `ow` by `oh` to `w` by `h` is sure to succeed: the
/// size stays, or the new size has no cells.
pub open spec fn resize_succeeds(ow: nat, oh: nat, w: nat, h: nat) -> bool {
    (w == ow && h == oh) || w * h == 0
}

/// A plane is a resize of itself to its own size.
pub proof fn lemma_resize_same(plane: Seq<Cell>, w: nat, h: nat)
    requires
        plane.len() == w * h,
    ensures
        is_resize_of(plane, w, h, plane, w, h),
{
}

/// A position in an earlier row has a smaller index than any in a later row.
pub proof fn lemma_rows(w: nat, x: nat, y1: nat, y2: nat)
    requires
        x < w,
        y1 < y2,
    ensures
        y1 * w + x < y2 * w,
        y1 * w + w <= y2 * w,
{
    assert(y1 * w + w <= y2 * w) by (nonlinear_arith)
        requires
            y1 < y2,
    ;
}

/// A plane of `n` cells, each a space in the given colours.
pub open spec fn blanks(n: nat, fg: Attr, bg: Attr) -> Seq<Cell> {
    Seq::new(n, |i: int| blank(fg, bg))
}

/// Every index of a plane is the index of a position in it.
pub proof fn lemma_position(w: nat, h: nat, i: int)
    requires
        0 <= i < w * h,
    ensures
        w > 0,
        0 <= i % (w as int) < w,
        0 <= i / (w as int) < h,
        (i / (w as int)) * w + i % (w as int) == i,
{
    if w == 0 {
        assert(w * h == 0) by (nonlinear_arith)
            requires
                w == 0,
        ;
    }
    let d = w as int;
    vstd::arithmetic::div_mod::lemma_fundamental_div_mod(i, d);
    vstd::arithmetic::div_mod::lemma_mod_bound(i, d);
    vstd::arithmetic::div_mod::lemma_multiply_divide_lt(i, d, h as int);
    vstd::arithmetic::div_mod::lemma_div_pos_is_pos(i, d);
    assert((i / d) * w == d * (i / d)) by (nonlinear_arith)
        requires
            d == w,
    ;
}

/// The position of an index of a plane is the one it was computed from.
pub proof fn lemma_position_of(w: int, x: int, y: int)
    requires
        0 <= x < w,
        0 <= y,
    ensures
        (y * w + x) % w == x,
        (y * w + x) / w == y,
{
    vstd::arithmetic::div_mod::lemma_fundamental_div_mod_converse(y * w + x, w, y, x);
}

/// A plane whose cells at all positions are the same blank cell is the
/// blank plane.
pub proof fn lemma_all_blank(plane: Seq<Cell>, w: nat, h: nat, fg: Attr, bg: Attr)
    requires
        plane.len() == w * h,
        forall|x: nat, y: nat| x < w && y < h ==> #[trigger] cell_at(plane, w, x, y) == blank(fg, bg),
    ensures
        plane == blanks(w * h, fg, bg),
{
    assert forall|i: int| 0 <= i < w * h implies plane[i] == blank(fg, bg) by {
        lemma_position(w, h, i);
        let x = (i % (w as int)) as nat;
        let y = (i / (w as int)) as nat;
        assert(cell_at(plane, w, x, y) == blank(fg, bg));
    }
    assert(plane =~= blanks(w * h, fg, bg));
}

/// Resizing a plane and resizing it back restores every cell that lies inside
/// both sizes; the cells that the other size did not have come back blank in
/// the default colours.
pub proof fn lemma_resize_round_trip(
    a: Seq<Cell>,
    w1: nat,
    h1: nat,
    b: Seq<Cell>,
    w2: nat,
    h2: nat,
    c: Seq<Cell>,
)
    requires
        is_resize_of(b, w2, h2, a, w1, h1),
        is_resize_of(c, w1, h1, b, w2, h2),
    ensures
        c.len() == w1 * h1,
        forall|x: nat, y: nat|
            x < w1 && y < h1 ==> #[trigger] cell_at(c, w1, x, y) == if x < w2 && y < h2 {
                cell_at(a, w1, x, y)
            } else {
                blank(Attr { bits: DEFAULT }, Attr { bits: DEFAULT })
            },
{
    assert forall|x: nat, y: nat| x < w1 && y < h1 implies #[trigger] cell_at(c, w1, x, y) == if x
        < w2 && y < h2 {
        cell_at(a, w1, x, y)
    } else {
        blank(Attr { bits: DEFAULT }, Attr { bits: DEFAULT })
    } by {
        if x < w2 && y < h2 {
            assert(cell_at(b, w2, x, y) == cell_at(a, w1, x, y));
        }
    }
}

/// One plane of a grid, borrowed for reading and writing.
#[derive(Debug)]
pub struct CellsMut<'a> {
    pub width: usize,
    pub height: usize,
    pub cells: &'a mut [Cell],
}

impl<'a> CellsMut<'a> {
    /// The plane has as many cells as its size says.
    pub open spec fn wf(&self) -> bool {
        self.cells@.len() == self.width * self.height
    }

    /// The cells, row after row.
    pub open spec fn view(&self) -> Seq<Cell> {
        self.cells@
    }

    /// Makes every cell a space in the given colours.
    pub fn clear(&mut self, fg: Attr, bg: Attr)
        ensures
            final(self)@ == Seq::new(old(self)@.len(), |i: int| blank(fg, bg)),
            final(self).width == old(self).width,
            final(self).height == old(self).height,
            final(final(self).cells)@ == final(old(self).cells)@,
    {
        let n = self.cells.len();
        let mut i: usize = 0;
        while i < n
            invariant
                i <= n,
                n == self.cells@.len(),
                n == old(self).cells@.len(),
                self.width == old(self).width,
                self.height == old(self).height,
                final(self.cells)@ == final(old(self).cells)@,
                forall|j: int| 0 <= j < i ==> self.cells@[j] == blank(fg, bg),
            decreases n - i,
        {
            self.cells[i] = Cell { ch: 32, fg, bg };
            i = i + 1;
        }
        assert(self@ =~= Seq::new(old(self)@.len(), |i: int| blank(fg, bg)));
    }

    /// The cell at `(x, y)`, or `None` outside the plane.
    pub fn at(&self, x: usize, y: usize) -> (r: Option<&Cell>)
        requires
            self.wf(),
        ensures
            r is Some <==> x < self.width && y < self.height,
            r is Some ==> *r.unwrap() == cell_at(self@, self.width as nat, x as nat, y as nat),
    {
        if x >= self.width || y >= self.height {
            None
        } else {
            Some(self.at_unchecked(x, y))
        }
    }

    /// The cell at `(x, y)` for writing, or `None` outside the plane.
    pub fn at_mut(&mut self, x: usize, y: usize) -> (r: Option<&mut Cell>)
        requires
            old(self).wf(),
        ensures
            r is Some <==> x < old(self).width && y < old(self).height,
            r is None ==> final(self)@ == old(self)@,
            r is Some ==> *r.unwrap() == cell_at(
                old(self)@,
                old(self).width as nat,
                x as nat,
                y as nat,
            ) && final(self)@ == old(self)@.update(y * old(self).width + x, *final(r.unwrap())),
            final(self).wf(),
            final(self).width == old(self).width,
            final(self).height == old(self).height,
            final(final(self).cells)@ == final(old(self).cells)@,
    {
        if x >= self.width || y >= self.height {
            None
        } else {
            Some(self.at_unchecked_mut(x, y))
        }
    }

    /// The cell at `(x, y)` of a position known to lie inside the plane.
    pub fn at_unchecked(&self, x: usize, y: usize) -> (r: &Cell)
        requires
            self.wf(),
            x < self.width,
            y < self.height,
        ensures
            *r == cell_at(self@, self.width as nat, x as nat, y as nat),
    {
        let n = self.cells.len();
        proof {
            lemma_index(self.width as nat, self.height as nat, x as nat, y as nat);
        }
        &self.cells[y * self.width + x]
    }

    /// The cell at `(x, y)`, for writing, of a position known to lie inside
    /// the plane.
    pub fn at_unchecked_mut(&mut self, x: usize, y: usize) -> (r: &mut Cell)
        requires
            old(self).wf(),
            x < old(self).width,
            y < old(self).height,
        ensures
            *r == cell_at(old(self)@, old(self).width as nat, x as nat, y as nat),
            final(self)@ == old(self)@.update(y * old(self).width + x, *final(r)),
            final(self).wf(),
            y * old(self).width + x < old(self)@.len(),
            final(self).width == old(self).width,
            final(self).height == old(self).height,
            final(final(self).cells)@ == final(old(self).cells)@,
    {
        let n = self.cells.len();
        proof {
            lemma_index(self.width as nat, self.height as nat, x as nat, y as nat);
        }
        &mut self.cells[y * self.width + x]
    }
}

/// An empty vector with room for `n` cells, the storage of a grid, or `None`
/// when the room cannot be had. No room is asked for when `n` is zero.
fn reserved(n: usize) -> (r: Option<Vec<Cell>>)
    ensures
        n == 0 ==> r is Some,
        r is Some ==> r.unwrap()@.len() == 0,
{
    let mut v: Vec<Cell> = Vec::new();
    if n > 0 && v.try_reserve(n).is_err() {
        return None;
    }
    Some(v)
}

/// Appends to `v` a plane of `w` by `h` cells that keeps the cells of `src`,
/// a plane of `ow` by `oh`, where the two overlap, and is blank in the
/// default colours elsewhere.
fn push_resized_plane(v: &mut Vec<Cell>, src: &[Cell], ow: usize, oh: usize, w: usize, h: usize)
    requires
        src@.len() == ow * oh,
    ensures
        final(v)@.len() == old(v)@.len() + w * h,
        final(v)@.subrange(0, old(v)@.len() as int) == old(v)@,
        is_resize_of(
            final(v)@.subrange(old(v)@.len() as int, final(v)@.len() as int),
            w as nat,
            h as nat,
            src@,
            ow as nat,
            oh as nat,
        ),
{
    let n = src.len();
    let ghost base = v@.len() as int;
    let mut y: usize = 0;
    assert(v@.subrange(0, base) =~= old(v)@);
    while y < h
        invariant
            y <= h,
            n == src@.len(),
            n == ow * oh,
            base == old(v)@.len(),
            v@.len() == base + y * w,
            v@.subrange(0, base) == old(v)@,
            forall|cx: nat, cy: nat|
                cx < w && cy < y ==> #[trigger] cell_at(
                    v@.subrange(base, v@.len() as int),
                    w as nat,
                    cx,
                    cy,
                ) == if cx < ow && cy < oh {
                    cell_at(src@, ow as nat, cx, cy)
                } else {
                    blank(Attr { bits: DEFAULT }, Attr { bits: DEFAULT })
                },
        decreases h - y,
    {
        let mut x: usize = 0;
        while x < w
            invariant
                x <= w,
                y < h,
                n == src@.len(),
                n == ow * oh,
                base == old(v)@.len(),
                v@.len() == base + y * w + x,
                v@.subrange(0, base) == old(v)@,
                forall|cx: nat, cy: nat|
                    cx < w && (cy < y || (cy == y && cx < x)) ==> #[trigger] cell_at(
                        v@.subrange(base, v@.len() as int),
                        w as nat,
                        cx,
                        cy,
                    ) == if cx < ow && cy < oh {
                        cell_at(src@, ow as nat, cx, cy)
                    } else {
                        blank(Attr { bits: DEFAULT }, Attr { bits: DEFAULT })
                    },
            decreases w - x,
        {
            let ghost before = v@.subrange(base, v@.len() as int);
            let c = if x < ow && y < oh {
                proof {
                    lemma_index(ow as nat, oh as nat, x as nat, y as nat);
                }
                src[y * ow + x]
            } else {
                Cell { ch: 32, fg: Attr { bits: DEFAULT }, bg: Attr { bits: DEFAULT } }
            };
            v.push(c);
            let ghost plane = v@.subrange(base, v@.len() as int);
            assert(plane =~= before.push(c));
            assert(v@.subrange(0, base) =~= old(v)@);
            assert forall|cx: nat, cy: nat|
                cx < w && (cy < y || (cy == y && cx < x + 1)) implies #[trigger] cell_at(
                plane,
                w as nat,
                cx,
                cy,
            ) == if cx < ow && cy < oh {
                cell_at(src@, ow as nat, cx, cy)
            } else {
                blank(Attr { bits: DEFAULT }, Attr { bits: DEFAULT })
            } by {
                if cy < y {
                    lemma_index(w as nat, y as nat, cx, cy);
                    assert(cell_at(plane, w as nat, cx, cy) == cell_at(before, w as nat, cx, cy));
                } else if cx < x {
                    assert(cell_at(plane, w as nat, cx, cy) == cell_at(before, w as nat, cx, cy));
                }
            }
            x = x + 1;
        }
        assert(y * w + w == (y + 1) * w) by (nonlinear_arith);
        y = y + 1;
    }
    assert(h * w == w * h) by (nonlinear_arith);
}

/// The grid: two planes of `width` by `height` cells each, the front plane
/// first.
#[derive(Debug)]
pub struct CellBuf {
    width: usize,
    height: usize,
    cells: Vec<Cell>,
}

impl CellBuf {
    /// The storage holds exactly the two planes.
    pub closed spec fn wf(&self) -> bool {
        self.cells@.len() == 2 * (self.width * self.height)
    }

    /// Width of the grid.
    pub closed spec fn spec_width(&self) -> nat {
        self.width as nat
    }

    /// Height of the grid.
    pub closed spec fn spec_height(&self) -> nat {
        self.height as nat
    }

    /// All cells: the front plane, then the back plane.
    pub closed spec fn all(&self) -> Seq<Cell> {
        self.cells@
    }

    /// Number of cells in one plane.
    pub open spec fn area(&self) -> nat {
        self.spec_width() * self.spec_height()
    }

    /// The plane that holds what was last shown.
    pub open spec fn front(&self) -> Seq<Cell> {
        self.all().subrange(0, self.area() as int)
    }

    /// The plane that is drawn on.
    pub open spec fn back(&self) -> Seq<Cell> {
        self.all().subrange(self.area() as int, 2 * self.area() as int)
    }

    /// Each plane of a well-formed grid has as many cells as its size says.
    pub proof fn lemma_planes(&self)
        requires
            self.wf(),
        ensures
            self.front().len() == self.area(),
            self.back().len() == self.area(),
            self.all() == self.front() + self.back(),
    {
        assert(self.all() =~= self.front() + self.back());
    }

    /// A grid with no cells.
    pub fn new_in() -> (r: CellBuf)
        ensures
            r.wf(),
            r.spec_width() == 0,
            r.spec_height() == 0,
    {
        CellBuf { width: 0, height: 0, cells: Vec::new() }
    }

    /// Width of the grid.
    pub fn width(&self) -> (w: usize)
        ensures
            w == self.spec_width(),
    {
        self.width
    }

    /// Height of the grid.
    pub fn height(&self) -> (h: usize)
        ensures
            h == self.spec_height(),
    {
        self.height
    }

    /// Number of cells that a grid of `width` by `height` stores, if that
    /// number can be counted.
    fn storage_size(width: usize, height: usize) -> (r: Option<usize>)
        ensures
            r is Some <==> 2 * (width * height) <= usize::MAX,
            r is Some ==> r.unwrap() == 2 * (width * height),
    {
        match width.checked_mul(height) {
            Some(area) => area.checked_mul(2),
            None => None,
        }
    }

    /// Gives the grid the size `width` by `height`, in new storage: both
    /// planes keep their cells where the old and the new size overlap.
    fn init(&mut self, width: usize, height: usize) -> (r: Result<(), AllocErr>)
        requires
            old(self).wf(),
        ensures
            2 * (width * height) > usize::MAX ==> r is Err,
            width * height == 0 ==> r is Ok,
            r is Err ==> *final(self) == *old(self),
            r is Ok ==> final(self).wf(),
            r is Ok ==> final(self).spec_width() == width && final(self).spec_height() == height,
            r is Ok ==> is_resize_of(
                final(self).front(),
                width as nat,
                height as nat,
                old(self).front(),
                old(self).spec_width(),
                old(self).spec_height(),
            ),
            r is Ok ==> is_resize_of(
                final(self).back(),
                width as nat,
                height as nat,
                old(self).back(),
                old(self).spec_width(),
                old(self).spec_height(),
            ),
    {
        let size = match CellBuf::storage_size(width, height) {
            Some(size) => size,
            None => {
                return Err(AllocErr);
            },
        };
        let mut cells = match reserved(size) {
            Some(v) => v,
            None => {
                return Err(AllocErr);
            },
        };
        let (ow, oh) = (self.width, self.height);
        let total = self.cells.len();
        assert(ow * oh + ow * oh == 2 * (ow * oh));
        let area = ow * oh;
        let (front, back) = self.cells.as_slice().split_at(area);
        push_resized_plane(&mut cells, front, ow, oh, width, height);
        let ghost new_front = cells@;
        push_resized_plane(&mut cells, back, ow, oh, width, height);
        let ghost new_back = cells@.subrange(new_front.len() as int, cells@.len() as int);
        self.cells = cells;
        self.width = width;
        self.height = height;
        assert(new_front =~= new_front.subrange(0, new_front.len() as int));
        assert(self.front() =~= new_front);
        assert(self.back() =~= new_back);
        Ok(())
    }

    /// Gives the grid a new size. Both planes keep their cells where the old
    /// and the new size overlap; every other cell is blank in the default
    /// colours.
    ///
    /// Nothing is done when the size is the one the grid has. Otherwise the
    /// cells move to new storage. Where that storage cannot be had the call
    /// fails and the grid stays as it is: always when the cells of the new
    /// size cannot be counted, never when the new size has no cells.
    pub fn resize(&mut self, width: usize, height: usize) -> (r: Result<(), AllocErr>)
        requires
            old(self).wf(),
        ensures
            final(self).wf(),
            resize_fails(
                old(self).spec_width(),
                old(self).spec_height(),
                width as nat,
                height as nat,
            ) ==> r is Err,
            resize_succeeds(
                old(self).spec_width(),
                old(self).spec_height(),
                width as nat,
                height as nat,
            ) ==> r is Ok,
            r is Err ==> *final(self) == *old(self),
            r is Ok ==> final(self).spec_width() == width && final(self).spec_height() == height,
            r is Ok ==> is_resize_of(
                final(self).front(),
                width as nat,
                height as nat,
                old(self).front(),
                old(self).spec_width(),
                old(self).spec_height(),
            ),
            r is Ok ==> is_resize_of(
                final(self).back(),
                width as nat,
                height as nat,
                old(self).back(),
                old(self).spec_width(),
                old(self).spec_height(),
            ),
            width == old(self).spec_width() && height == old(self).spec_height() ==> *final(self)
                == *old(self),
    {
        if width == self.width && height == self.height {
            proof {
                self.lemma_planes();
                lemma_resize_same(self.front(), width as nat, height as nat);
                lemma_resize_same(self.back(), width as nat, height as nat);
            }
            return Ok(());
        }
        self.init(width, height)
    }

    /// All cells of the grid: the front plane, then the back plane.
    pub fn cell_ptr(&self) -> (r: &[Cell])
        ensures
            r@ == self.all(),
    {
        self.cells.as_slice()
    }

    /// Both planes for reading and writing: the front plane, then the back
    /// plane. What is written to them is written to the grid.
    pub fn cells_mut(&mut self) -> (r: (CellsMut<'_>, CellsMut<'_>))
        requires
            old(self).wf(),
        ensures
            r.0.wf(),
            r.1.wf(),
            r.0.width == old(self).spec_width() && r.0.height == old(self).spec_height(),
            r.1.width == old(self).spec_width() && r.1.height == old(self).spec_height(),
            r.0@ == old(self).front(),
            r.1@ == old(self).back(),
            final(self).spec_width() == old(self).spec_width(),
            final(self).spec_height() == old(self).spec_height(),
            final(self).all() == final(r.0.cells)@ + final(r.1.cells)@,
            final(r.0.cells)@.len() == r.0@.len() && final(r.1.cells)@.len() == r.1@.len()
                ==> final(self).wf(),
            final(r.0.cells)@.len() == r.0@.len() && final(r.1.cells)@.len() == r.1@.len()
                ==> final(self).front() == final(r.0.cells)@,
            final(r.0.cells)@.len() == r.0@.len() && final(r.1.cells)@.len() == r.1@.len()
                ==> final(self).back() == final(r.1.cells)@,
    {
        let (width, height) = (self.width, self.height);
        let total = self.cells.len();
        let area = width * height;
        let (front, back) = self.cells.as_mut_slice().split_at_mut(area);
        assert(final(front)@.len() == area ==> (final(front)@ + final(back)@).subrange(
            0,
            area as int,
        ) =~= final(front)@);
        assert(final(front)@.len() == area && final(back)@.len() == area ==> (final(front)@
            + final(back)@).subrange(area as int, 2 * area) =~= final(back)@);
        (CellsMut { width, height, cells: front }, CellsMut { width, height, cells: back })
    }

    /// Writes the rectangle of `w` by `h` cells held in `src`, row after row,
    /// into the back plane with its corner at `(x, y)`. Does nothing when the
    /// rectangle does not lie inside the grid or `src` is too short for it.
    pub fn blit_from_raw(&mut self, src: &[Cell], x: usize, y: usize, w: usize, h: usize)
        requires
            old(self).wf(),
        ensures
            final(self).wf(),
            final(self).spec_width() == old(self).spec_width(),
            final(self).spec_height() == old(self).spec_height(),
            final(self).front() == old(self).front(),
            blit_fits(
                old(self).spec_width(),
                old(self).spec_height(),
                src@.len(),
                x as nat,
                y as nat,
                w as nat,
                h as nat,
            ) ==> is_blit_of(
                final(self).back(),
                old(self).back(),
                old(self).spec_width(),
                old(self).spec_height(),
                src@,
                x as nat,
                y as nat,
                w as nat,
                h as nat,
            ),
            !blit_fits(
                old(self).spec_width(),
                old(self).spec_height(),
                src@.len(),
                x as nat,
                y as nat,
                w as nat,
                h as nat,
            ) ==> final(self).back() == old(self).back(),
    {
        let width = self.width;
        let height = self.height;
        let total = self.cells.len();
        let len = src.len();
        if w > width || x > width - w || h > height || y > height - h {
            return ;
        }
        assert(w * h <= width * height) by (nonlinear_arith)
            requires
                w <= width,
                h <= height,
        ;
        if w * h > len {
            return ;
        }
        let area = width * height;
        let ghost old_back = self.back();
        let ghost old_front = self.front();
        let mut r: usize = 0;
        while r < h
            invariant
                r <= h,
                x + w <= width,
                y + h <= height,
                w * h <= len,
                len == src@.len(),
                area == width * height,
                total == 2 * area,
                self.cells@.len() == total,
                self.width == width,
                self.height == height,
                self.front() == old_front,
                old_back.len() == area,
                is_blit_of(
                    self.back(),
                    old_back,
                    width as nat,
                    height as nat,
                    src@,
                    x as nat,
                    y as nat,
                    w as nat,
                    r as nat,
                ),
            decreases h - r,
        {
            proof {
                assert(r * w + w <= w * h) by (nonlinear_arith)
                    requires
                        r < h,
                ;
                assert((y + r) * width + width <= width * height) by (nonlinear_arith)
                    requires
                        y + r < height,
                ;
            }
            let from = r * w;
            let at = area + (y + r) * width + x;
            let row = vstd::slice::slice_subrange(src, from, from + w);
            let ghost prev = self.cells@;
            let ghost prev_back = self.back();
            crate::util::copy_from_slice(self.cells.as_mut_slice(), at, row);
            proof {
                assert(self.front() =~= old_front);
                assert forall|cx: nat, cy: nat| cx < width && cy < height implies #[trigger] cell_at(
                    self.back(),
                    width as nat,
                    cx,
                    cy,
                ) == if x <= cx < x + w && y <= cy < y + (r + 1) {
                    cell_at(src@, w as nat, (cx - x) as nat, (cy - y) as nat)
                } else {
                    cell_at(old_back, width as nat, cx, cy)
                } by {
                    lemma_index(width as nat, height as nat, cx, cy);
                    let i = area + cy * width + cx;
                    assert(cell_at(self.back(), width as nat, cx, cy) == self.cells@[i]);
                    assert(cell_at(prev_back, width as nat, cx, cy) == prev[i]);
                    if cy < y + r {
                        lemma_rows(width as nat, cx, cy, (y + r) as nat);
                        assert(self.cells@[i] == prev[i]);
                    } else if cy > y + r {
                        lemma_rows(width as nat, 0, (y + r) as nat, cy);
                        assert(self.cells@[i] == prev[i]);
                    } else if x <= cx < x + w {
                        assert(self.cells@[i] == row@[i - at]);
                        assert(row@[i - at] == src@[from + (cx - x)]);
                    } else {
                        assert(self.cells@[i] == prev[i]);
                    }
                }
            }
            r = r + 1;
        }
    }

    /// The cell at `(x, y)` of the back plane.
    pub fn back_cell(&self, x: usize, y: usize) -> (c: Cell)
        requires
            self.wf(),
            x < self.spec_width(),
            y < self.spec_height(),
        ensures
            c == cell_at(self.back(), self.spec_width(), x as nat, y as nat),
    {
        let total = self.cells.len();
        proof {
            lemma_index(self.width as nat, self.height as nat, x as nat, y as nat);
        }
        self.cells[self.width * self.height + y * self.width + x]
    }

    /// The cell at `(x, y)` of the front plane.
    pub fn front_cell(&self, x: usize, y: usize) -> (c: Cell)
        requires
            self.wf(),
            x < self.spec_width(),
            y < self.spec_height(),
        ensures
            c == cell_at(self.front(), self.spec_width(), x as nat, y as nat),
    {
        let total = self.cells.len();
        proof {
            lemma_index(self.width as nat, self.height as nat, x as nat, y as nat);
        }
        self.cells[y * self.width + x]
    }

    /// Sets the cell at `(x, y)` of the front plane.
    pub fn set_front_cell(&mut self, x: usize, y: usize, c: Cell)
        requires
            old(self).wf(),
            x < old(self).spec_width(),
            y < old(self).spec_height(),
        ensures
            final(self).wf(),
            final(self).spec_width() == old(self).spec_width(),
            final(self).spec_height() == old(self).spec_height(),
            final(self).back() == old(self).back(),
            final(self).front() == old(self).front().update(y * old(self).spec_width() + x, c),
    {
        let total = self.cells.len();
        proof {
            lemma_index(self.width as nat, self.height as nat, x as nat, y as nat);
        }
        let i = y * self.width + x;
        self.cells[i] = c;
        assert(self.back() =~= old(self).back());
        assert(self.front() =~= old(self).front().update(i as int, c));
    }
}

} // verus!
