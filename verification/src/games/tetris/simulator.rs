use vstd::prelude::*;
use crate::games::tetris::bits::{
    bit, pack, lemma_bit_logic, lemma_bit_shl, lemma_bit_shr, lemma_bit_unit, lemma_is_pack,
    lemma_pack_bits, lemma_bit_extensional, lemma_high_bits_clear, lemma_high_bits_of_small,
    lemma_width_bounds, lemma_xor_twice,
};
use crate::games::tetris::board::{
    Glass, Point, BOARD_HEIGHT, BOARD_HEIGHT_I32, BOARD_WIDTH, BOARD_WIDTH_I32, FULL_ROW, filled,
    rows_wf, column_height, top_of, lemma_top_of, lemma_top_of_unique, rendered,
};
use crate::games::tetris::figure::{Figure, Shape};
use crate::games::tetris::heuristic::{Evaluator, score};

verus! {

/// How far the window of a figure reaches above and below its centre.
pub const RADIUS: i32 = 2;

/// A figure whose centre would come to rest fewer than this many rows below the
/// rim of the well tops out, and is no move.
pub const TOP_MARGIN: i32 = 2;

/// Whether `center` is a legal centre for the figure: one from which the figure
/// reaches past neither side wall. The row of the centre is free: what lies
/// above the rim or below the floor is cut off.
pub open spec fn fits(shape: Shape, center: Point) -> bool {
    &&& shape.left() <= center.x
    &&& center.x + shape.right() < BOARD_WIDTH
}

/// Whether row `y` of the well lies in the window of a figure centred in row `cy`.
pub open spec fn in_window(y: int, cy: int) -> bool {
    cy - RADIUS <= y <= cy + RADIUS && 0 <= y < BOARD_HEIGHT
}

/// A row of a figure as it lies in the well when the centre is in column `cx`:
/// bit `b` of the figure's row becomes column `cx + 2 - b`.
pub open spec fn laid(row: u32, cx: int) -> u32 {
    pack(|x: int| bit(row, cx + 2 - x), BOARD_WIDTH as int)
}

/// Whether a figure centred at `center` covers the cell in column `x` of row `y` of the well.
pub open spec fn covered(shape: Shape, center: Point, x: int, y: int) -> bool {
    0 <= x < BOARD_WIDTH && 0 <= y < BOARD_HEIGHT && shape.covers(x - center.x, y - center.y)
}

/// The rows of the well after the cells that a figure covers have been toggled:
/// each row of the window is combined by exclusive or with the figure's row laid on it.
pub open spec fn toggled(rows: Seq<u32>, shape: Shape, center: Point) -> Seq<u32> {
    Seq::new(
        rows.len(),
        |y: int|
            if in_window(y, center.y as int) {
                rows[y] ^ laid(shape.rows[y + RADIUS - center.y], center.x as int)
            } else {
                rows[y]
            },
    )
}

/// Whether the figure, laid on row `y` of its window, meets a filled cell there.
pub open spec fn hits(rows: Seq<u32>, shape: Shape, center: Point, y: int) -> bool {
    in_window(y, center.y as int) && rows[y] & laid(
        shape.rows[y + RADIUS - center.y],
        center.x as int,
    ) != 0
}

/// Whether a figure centred at `center` would cover a cell that is already filled.
pub open spec fn collides(rows: Seq<u32>, shape: Shape, center: Point) -> bool {
    exists|y: int| hits(rows, shape, center, y)
}

/// The columns that a laid row fills are those that the figure covers.
pub proof fn lemma_laid_bits(shape: Shape, center: Point, y: int)
    requires
        shape.in_window(),
        in_window(y, center.y as int),
    ensures
        laid(shape.rows[y + RADIUS - center.y], center.x as int) <= FULL_ROW,
        forall|x: int| #[trigger]
            bit(laid(shape.rows[y + RADIUS - center.y], center.x as int), x) == covered(
                shape,
                center,
                x,
                y,
            ),
{
    let row = shape.rows[y + RADIUS - center.y];
    let cx = center.x as int;
    let l = laid(row, cx);
    lemma_pack_bits(|x: int| bit(row, cx + 2 - x), BOARD_WIDTH as int);
    lemma_width_bounds(row);
    lemma_high_bits_of_small(row, 5);
    lemma_high_bits_clear(l, 18);
    lemma_width_bounds(l);
    assert forall|x: int| #[trigger] bit(l, x) == covered(shape, center, x, y) by {
        assert(shape.covers(x - center.x, y - center.y) == shape.has(cx + 2 - x, y - center.y + 2));
    }
}

/// Toggling flips exactly the cells that the figure covers.
pub proof fn lemma_toggled_cells(rows: Seq<u32>, shape: Shape, center: Point)
    requires
        rows.len() == BOARD_HEIGHT,
        shape.in_window(),
    ensures
        forall|x: int, y: int| #[trigger]
            filled(toggled(rows, shape, center), x, y) == (filled(rows, x, y) != covered(
                shape,
                center,
                x,
                y,
            )),
{
    let after = toggled(rows, shape, center);
    assert forall|x: int, y: int| #[trigger]
        filled(after, x, y) == (filled(rows, x, y) != covered(shape, center, x, y)) by {
        if 0 <= y < BOARD_HEIGHT && 0 <= x < BOARD_WIDTH {
            if in_window(y, center.y as int) {
                let l = laid(shape.rows[y + RADIUS - center.y], center.x as int);
                lemma_laid_bits(shape, center, y);
                lemma_bit_logic(rows[y], l);
                assert(bit(rows[y] ^ l, x) == (bit(rows[y], x) != bit(l, x)));
            } else {
                assert(!shape.covers(x - center.x, y - center.y));
            }
        }
    }
}

/// Toggling the same figure at the same centre twice gives back the rows.
pub proof fn lemma_toggled_twice(rows: Seq<u32>, shape: Shape, center: Point)
    ensures
        toggled(toggled(rows, shape, center), shape, center) == rows,
{
    let once = toggled(rows, shape, center);
    let twice = toggled(once, shape, center);
    assert forall|y: int| 0 <= y < rows.len() implies twice[y] == rows[y] by {
        if in_window(y, center.y as int) {
            lemma_xor_twice(rows[y], laid(shape.rows[y + RADIUS - center.y], center.x as int));
        }
    }
    assert(twice =~= rows);
}

/// Toggling keeps every row within the eighteen columns.
pub proof fn lemma_toggled_wf(rows: Seq<u32>, shape: Shape, center: Point)
    requires
        rows_wf(rows),
        shape.in_window(),
    ensures
        rows_wf(toggled(rows, shape, center)),
{
    let after = toggled(rows, shape, center);
    assert forall|y: int| 0 <= y < BOARD_HEIGHT implies #[trigger] after[y] <= FULL_ROW by {
        if in_window(y, center.y as int) {
            let l = laid(shape.rows[y + RADIUS - center.y], center.x as int);
            lemma_laid_bits(shape, center, y);
            lemma_bit_logic(rows[y], l);
            lemma_width_bounds(rows[y]);
            lemma_width_bounds(l);
            lemma_high_bits_of_small(rows[y], 18);
            lemma_high_bits_of_small(l, 18);
            lemma_high_bits_clear(rows[y] ^ l, 18);
            lemma_width_bounds(rows[y] ^ l);
        }
    }
}

/// A figure collides exactly when it covers a cell that is filled.
pub proof fn lemma_collides_cells(rows: Seq<u32>, shape: Shape, center: Point)
    requires
        rows.len() == BOARD_HEIGHT,
        shape.in_window(),
    ensures
        collides(rows, shape, center) == (exists|x: int, y: int|
            filled(rows, x, y) && #[trigger] covered(shape, center, x, y)),
{
    lemma_bit_unit(0);
    if collides(rows, shape, center) {
        let y = choose|y: int| hits(rows, shape, center, y);
        let l = laid(shape.rows[y + RADIUS - center.y], center.x as int);
        let both = rows[y] & l;
        lemma_laid_bits(shape, center, y);
        lemma_bit_logic(rows[y], l);
        if forall|k: int| 0 <= k < 32 ==> !bit(both, k) {
            lemma_bit_extensional(both, 0);
        }
        let k = choose|k: int| 0 <= k < 32 && bit(both, k);
        assert(bit(both, k) == (bit(rows[y], k) && bit(l, k)));
        assert(filled(rows, k, y) && covered(shape, center, k, y));
    }
    if exists|x: int, y: int| filled(rows, x, y) && #[trigger] covered(shape, center, x, y) {
        let (x, y) = choose|x: int, y: int|
            filled(rows, x, y) && #[trigger] covered(shape, center, x, y);
        let l = laid(shape.rows[y + RADIUS - center.y], center.x as int);
        assert(in_window(y, center.y as int));
        lemma_laid_bits(shape, center, y);
        lemma_bit_logic(rows[y], l);
        assert(bit(rows[y] & l, x));
        assert(hits(rows, shape, center, y));
    }
}

proof fn bv_reverse(row: u32, m: u32, k: u32)
    by (bit_vector)
    requires
        m == ((row & 1) << 4) | ((row & 2) << 2) | (row & 4) | ((row & 8) >> 2) | ((row & 16) >> 4),
        k < 32,
    ensures
        m < 32,
        ((m >> k) & 1 == 1) == (k < 5 && ((row >> ((4 - k) as u32)) & 1 == 1)),
{
}

/// Lays a row of a figure on the well with the centre in column `cx`: the row is
/// mirrored, because its bit 4 is its leftmost cell, and shifted so that its
/// middle bit comes to column `cx`.
fn lay(row: u32, cx: i32) -> (bits: u32)
    requires
        row < 32,
        0 <= cx < BOARD_WIDTH,
        forall|b: int| bit(row, b) ==> 0 <= cx + 2 - b < BOARD_WIDTH,
    ensures
        bits == laid(row, cx as int),
{
    let mirror = ((row & 1) << 4) | ((row & 2) << 2) | (row & 4) | ((row & 8) >> 2) | ((row & 16)
        >> 4);
    let mut bits = mirror << (cx as u32);
    bits >>= RADIUS as u32;
    proof {
        lemma_bit_shl(mirror, cx as u32);
        lemma_bit_shr(mirror << (cx as u32), 2);
        lemma_width_bounds(row);
        lemma_high_bits_of_small(row, 5);
        assert forall|k: int| 0 <= k < 32 implies bit(bits, k) == (k < BOARD_WIDTH && bit(
            row,
            cx + 2 - k,
        )) by {
            let j = k + 2 - cx;
            assert(bit(bits, k) == bit(mirror << (cx as u32), k + 2));
            assert(bit(mirror << (cx as u32), k + 2) == (cx <= k + 2 < 32 && bit(mirror, j)));
            if 0 <= j < 32 {
                bv_reverse(row, mirror, j as u32);
                assert(bit(mirror, j) == (j < 5 && bit(row, 4 - j)));
            }
        }
        lemma_is_pack(bits, |x: int| bit(row, cx + 2 - x), BOARD_WIDTH as int);
    }
    bits
}

/// A well-formed figure at a legal centre lays every cell of each row within the well.
proof fn lemma_row_lands(shape: Shape, center: Point, r: int)
    requires
        shape.wf(),
        fits(shape, center),
        0 <= r < 5,
    ensures
        shape.rows[r] < 32,
        forall|b: int| bit(shape.rows[r], b) ==> 0 <= center.x + 2 - b < BOARD_WIDTH,
{
    lemma_width_bounds(shape.rows[r]);
    lemma_high_bits_of_small(shape.rows[r], 5);
    assert forall|b: int| bit(shape.rows[r], b) implies 0 <= center.x + 2 - b < BOARD_WIDTH by {
        assert(shape.has(b, r));
    }
}

/// The height of a column depends on the cells of that column only.
proof fn lemma_top_of_same(a: Seq<u32>, b: Seq<u32>, x: int, n: int)
    requires
        forall|y: int| 0 <= y < n ==> filled(a, x, y) == filled(b, x, y),
    ensures
        top_of(a, x, n) == top_of(b, x, n),
    decreases n,
{
    if n > 0 {
        lemma_top_of_same(a, b, x, n - 1);
    }
}

/// Toggling leaves the height of every column outside the figure's span as it was.
proof fn lemma_untouched_column(rows: Seq<u32>, shape: Shape, center: Point, x: int)
    requires
        rows.len() == BOARD_HEIGHT,
        shape.wf(),
        x < center.x - shape.left() || center.x + shape.right() < x,
    ensures
        column_height(toggled(rows, shape, center), x) == column_height(rows, x),
{
    lemma_toggled_cells(rows, shape, center);
    let after = toggled(rows, shape, center);
    assert forall|y: int| 0 <= y < BOARD_HEIGHT implies filled(after, x, y) == filled(rows, x, y) by {
        assert(filled(after, x, y) == (filled(rows, x, y) != covered(shape, center, x, y)));
        if covered(shape, center, x, y) {
            assert(shape.has(2 - (x - center.x), y - center.y + 2));
        }
    }
    lemma_top_of_same(after, rows, x, BOARD_HEIGHT as int);
}

/// The height of a column after toggling, where `edge` is one past the highest
/// cell that the figure covers in it. A figure that reaches above the column
/// raises it to `edge`; one that ends below the column's top leaves the height.
proof fn lemma_height_after(rows: Seq<u32>, shape: Shape, center: Point, x: int, edge: int)
    requires
        rows.len() == BOARD_HEIGHT,
        shape.in_window(),
        0 <= edge <= BOARD_HEIGHT,
        edge > 0 ==> covered(shape, center, x, edge - 1),
        forall|y: int| edge <= y ==> !covered(shape, center, x, y),
    ensures
        edge > column_height(rows, x) ==> column_height(toggled(rows, shape, center), x) == edge,
        edge < column_height(rows, x) || edge == 0 ==> column_height(
            toggled(rows, shape, center),
            x,
        ) == column_height(rows, x),
{
    let after = toggled(rows, shape, center);
    let h = column_height(rows, x);
    lemma_toggled_cells(rows, shape, center);
    lemma_top_of(rows, x, BOARD_HEIGHT as int);
    if edge > h {
        assert(filled(after, x, edge - 1) == (filled(rows, x, edge - 1) != covered(
            shape,
            center,
            x,
            edge - 1,
        )));
        assert forall|y: int| edge <= y < BOARD_HEIGHT implies !filled(after, x, y) by {
            assert(filled(after, x, y) == (filled(rows, x, y) != covered(shape, center, x, y)));
        }
        lemma_top_of_unique(after, x, BOARD_HEIGHT as int, edge);
    } else if edge < h || edge == 0 {
        if h > 0 {
            assert(filled(after, x, h - 1) == (filled(rows, x, h - 1) != covered(
                shape,
                center,
                x,
                h - 1,
            )));
        }
        assert forall|y: int| h <= y < BOARD_HEIGHT implies !filled(after, x, y) by {
            assert(filled(after, x, y) == (filled(rows, x, y) != covered(shape, center, x, y)));
        }
        lemma_top_of_unique(after, x, BOARD_HEIGHT as int, h);
    }
}

/// The highest of the resting rows that the first `n` columns of the figure's
/// span ask for, and at least 0. A column asks for its own height plus the
/// number of cells that the figure has there in the two lowest rows of its window.
pub open spec fn drop_upto(rows: Seq<u32>, shape: Shape, x: int, n: int) -> int
    decreases n,
{
    if n <= 0 {
        0
    } else {
        let t = n - 1 - shape.left();
        let rest = drop_upto(rows, shape, x, n - 1);
        let here = column_height(rows, x + t) + shape.bottoms(t + 2);
        if here > rest {
            here
        } else {
            rest
        }
    }
}

/// The row in which the centre of a figure comes to rest when it is dropped
/// with its centre in column `x`: the highest of what the columns of its span ask for.
pub open spec fn drop_row(rows: Seq<u32>, shape: Shape, x: int) -> int {
    drop_upto(rows, shape, x, shape.left() + shape.right() + 1)
}

/// The move with the centre in column `x`, if there is one: there is none where
/// the centre would rest in one of the two highest rows, or the figure would
/// cover a filled cell.
pub open spec fn candidate(rows: Seq<u32>, shape: Shape, x: int) -> Option<Point> {
    let center = Point { x: x as i32, y: drop_row(rows, shape, x) as i32 };
    if drop_row(rows, shape, x) >= BOARD_HEIGHT - TOP_MARGIN || collides(rows, shape, center) {
        None
    } else {
        Some(center)
    }
}

/// The moves with the centre in one of the first `n` columns in which the figure fits.
pub open spec fn moves_upto(rows: Seq<u32>, shape: Shape, n: int) -> Seq<Point>
    decreases n,
{
    if n <= 0 {
        Seq::empty()
    } else {
        match candidate(rows, shape, shape.left() + n - 1) {
            Some(center) => moves_upto(rows, shape, n - 1).push(center),
            None => moves_upto(rows, shape, n - 1),
        }
    }
}

/// The moves that a figure has in a well, by ascending column: for each column
/// in which it fits between the walls, the centre in its resting row, unless
/// the figure tops out or collides there.
pub open spec fn valid_moves_of(rows: Seq<u32>, shape: Shape) -> Seq<Point> {
    moves_upto(rows, shape, BOARD_WIDTH - shape.left() - shape.right())
}

/// The resting row is the highest of what the columns of the span ask for: it
/// is no lower than any of them asks, and it is what one of them asks, or 0.
pub proof fn lemma_drop_is_highest(rows: Seq<u32>, shape: Shape, x: int, n: int)
    requires
        0 <= n,
    ensures
        forall|t: int|
            -shape.left() <= t < n - shape.left() ==> column_height(rows, x + t)
                + #[trigger] shape.bottoms(t + 2) <= drop_upto(rows, shape, x, n),
        drop_upto(rows, shape, x, n) == 0 || exists|t: int|
            -shape.left() <= t < n - shape.left() && drop_upto(rows, shape, x, n) == column_height(
                rows,
                x + t,
            ) + #[trigger] shape.bottoms(t + 2),
    decreases n,
{
    if n > 0 {
        lemma_drop_is_highest(rows, shape, x, n - 1);
        let last = n - 1 - shape.left();
        let before = drop_upto(rows, shape, x, n - 1);
        let here = column_height(rows, x + last) + shape.bottoms(last + 2);
        if here > before {
            assert(drop_upto(rows, shape, x, n) == column_height(rows, x + last) + shape.bottoms(
                last + 2,
            ));
        } else if before != 0 {
            let t = choose|t: int|
                -shape.left() <= t < n - 1 - shape.left() && before == column_height(rows, x + t)
                    + #[trigger] shape.bottoms(t + 2);
            assert(drop_upto(rows, shape, x, n) == column_height(rows, x + t) + shape.bottoms(
                t + 2,
            ));
        }
    }
}

/// The resting row is at least 0 and at most 20.
pub proof fn lemma_drop_bounds(rows: Seq<u32>, shape: Shape, x: int, n: int)
    ensures
        0 <= drop_upto(rows, shape, x, n) <= BOARD_HEIGHT + 2,
    decreases n,
{
    if n > 0 {
        lemma_drop_bounds(rows, shape, x, n - 1);
        lemma_top_of(rows, x + n - 1 - shape.left(), BOARD_HEIGHT as int);
    }
}

/// Whether `center` is a legal centre for the figure.
pub fn fits_at(figure: &Figure, center: Point) -> (legal: bool)
    ensures
        legal == fits(figure@, center),
{
    figure.left() <= center.x && center.x < BOARD_WIDTH_I32 - figure.right()
}

/// The well together with the height of each of its columns, kept up to date
/// as figures are placed and taken away.
#[derive(Clone, Copy, Debug)]
pub struct Simulator<'a> {
    glass: Glass,
    heights: [i32; 18],
    evaluator: &'a Evaluator,
}

impl<'a> View for Simulator<'a> {
    type V = Seq<u32>;

    /// The rows of the well.
    closed spec fn view(&self) -> Seq<u32> {
        self.glass@
    }
}

impl<'a> Simulator<'a> {
    /// The cached height of each column.
    pub closed spec fn cache(&self) -> Seq<i32> {
        self.heights@
    }

    /// The evaluator that scores the well.
    pub closed spec fn evaluator(&self) -> Evaluator {
        *self.evaluator
    }

    /// The rows are those of a well, and the cached height of every column is
    /// the height that the rows give it.
    pub open spec fn wf(&self) -> bool {
        &&& rows_wf(self@)
        &&& self.evaluator().wf()
        &&& self.cache().len() == BOARD_WIDTH
        &&& forall|x: int|
            0 <= x < BOARD_WIDTH ==> #[trigger] self.cache()[x] == column_height(self@, x)
    }

    /// The well that the simulator holds.
    pub fn glass(&self) -> (glass: &Glass)
        ensures
            glass@ == self@,
    {
        &self.glass
    }

    /// The cached heights of the columns.
    pub fn heights(&self) -> (heights: [i32; 18])
        ensures
            heights@ == self.cache(),
    {
        self.heights
    }

    /// Toggles the cells that the figure covers; the cached heights are left as they are.
    fn toggle_figure(&mut self, figure: &Figure, center: Point)
        requires
            rows_wf(old(self)@),
            figure@.wf(),
            fits(figure@, center),
        ensures
            final(self)@ == toggled(old(self)@, figure@, center),
            rows_wf(final(self)@),
            final(self).cache() == old(self).cache(),
            final(self).evaluator() == old(self).evaluator(),
    {
        let radius = RADIUS as i64;
        let middle = center.y as i64;
        let bottom_row = if middle - radius > 0 {
            middle - radius
        } else {
            0
        };
        let top_row = if middle + radius + 1 < BOARD_HEIGHT as i64 {
            middle + radius + 1
        } else {
            BOARD_HEIGHT as i64
        };
        let ghost before = self@;
        let ghost after = toggled(before, figure@, center);
        proof {
            lemma_toggled_wf(before, figure@, center);
        }
        let mut y = bottom_row;
        while y < top_row
            invariant
                radius == RADIUS,
                0 <= center.x < BOARD_WIDTH,
                figure@.wf(),
                fits(figure@, center),
                rows_wf(after),
                after == toggled(before, figure@, center),
                before.len() == BOARD_HEIGHT,
                self@.len() == BOARD_HEIGHT,
                self.cache() == old(self).cache(),
                self.evaluator() == old(self).evaluator(),
                middle == center.y,
                0 <= bottom_row <= y,
                top_row <= BOARD_HEIGHT,
                bottom_row == (if center.y - RADIUS > 0 {
                    center.y - RADIUS
                } else {
                    0
                }),
                top_row == (if center.y + RADIUS + 1 < BOARD_HEIGHT {
                    center.y + RADIUS + 1
                } else {
                    BOARD_HEIGHT as int
                }),
                forall|k: int|
                    0 <= k < BOARD_HEIGHT ==> self@[k] == (if bottom_row <= k < y && k < top_row {
                        after[k]
                    } else {
                        before[k]
                    }),
            decreases top_row - y,
        {
            let row = self.glass.get_row(y as usize);
            proof {
                lemma_row_lands(figure@, center, y + RADIUS - center.y);
            }
            let figure_row = lay(figure.get_row((y + radius - middle) as i32), center.x);
            assert(after[y as int] == row ^ figure_row);
            self.glass.set_row(y as usize, row ^ figure_row);
            y += 1;
        }
        proof {
            assert(self@ =~= after);
        }
    }

    /// Whether the figure, centred at `center`, would cover a cell that is already filled.
    pub fn intersect_figure(&self, figure: &Figure, center: Point) -> (hit: bool)
        requires
            rows_wf(self@),
            figure@.wf(),
            fits(figure@, center),
        ensures
            hit == collides(self@, figure@, center),
    {
        let radius = RADIUS as i64;
        let middle = center.y as i64;
        let bottom_row = if middle - radius > 0 {
            middle - radius
        } else {
            0
        };
        let top_row = if middle + radius + 1 < BOARD_HEIGHT as i64 {
            middle + radius + 1
        } else {
            BOARD_HEIGHT as i64
        };
        let mut y = bottom_row;
        while y < top_row
            invariant
                radius == RADIUS,
                0 <= center.x < BOARD_WIDTH,
                figure@.wf(),
                fits(figure@, center),
                self@.len() == BOARD_HEIGHT,
                middle == center.y,
                0 <= bottom_row <= y,
                top_row <= BOARD_HEIGHT,
                bottom_row == (if center.y - RADIUS > 0 {
                    center.y - RADIUS
                } else {
                    0
                }),
                top_row == (if center.y + RADIUS + 1 < BOARD_HEIGHT {
                    center.y + RADIUS + 1
                } else {
                    BOARD_HEIGHT as int
                }),
                forall|k: int| bottom_row <= k < y ==> !hits(self@, figure@, center, k),
            decreases top_row - y,
        {
            let row = self.glass.get_row(y as usize);
            proof {
                lemma_row_lands(figure@, center, y + RADIUS - center.y);
            }
            let figure_row = lay(figure.get_row((y + radius - middle) as i32), center.x);
            if (row & figure_row) != 0 {
                assert(hits(self@, figure@, center, y as int));
                return true;
            }
            y += 1;
        }
        false
    }

    /// Measures every column anew.
    fn recalc_heights(&mut self)
        ensures
            final(self)@ == old(self)@,
            final(self).evaluator() == old(self).evaluator(),
            final(self).cache().len() == BOARD_WIDTH,
            forall|x: int|
                0 <= x < BOARD_WIDTH ==> #[trigger] final(self).cache()[x] == column_height(
                    final(self)@,
                    x,
                ),
    {
        for x in 0..BOARD_WIDTH
            invariant
                self@ == old(self)@,
                self.evaluator() == old(self).evaluator(),
                forall|k: int|
                    0 <= k < x ==> #[trigger] self.cache()[k] == column_height(self@, k),
        {
            let height = self.glass.height(x);
            let ghost held = self.cache();
            self.heights[x] = height;
            assert(self.cache() == held.update(x as int, height));
        }
    }

    /// One past the highest row of the well that the figure covers in column
    /// `x`, which is column `fx` of its window; 0 if it covers none. `top_count`
    /// says how many of the two highest rows of the window the figure fills in
    /// that column: where it fills neither, the search starts at the centre row.
    fn top_edge(figure: &Figure, x: usize, fx: usize, center: Point, top_count: i32) -> (edge: i32)
        requires
            figure@.wf(),
            fits(figure@, center),
            2 - figure@.left() <= fx <= 2 + figure@.right(),
            x == center.x + fx - 2,
            top_count == figure@.tops(fx as int),
        ensures
            0 <= edge <= BOARD_HEIGHT,
            edge > 0 ==> covered(figure@, center, x as int, edge - 1),
            forall|y: int| edge <= y ==> !covered(figure@, center, x as int, y),
    {
        let mut r: i32 = if top_count == 0 {
            2
        } else {
            4
        };
        while r >= 0
            invariant
                figure@.wf(),
                fits(figure@, center),
                x == center.x + fx - 2,
                fx < 5,
                -1 <= r <= 4,
                forall|k: int|
                    r < k < 5 ==> !(#[trigger] figure@.has(4 - fx, k) && 0 <= center.y - RADIUS + k
                        < BOARD_HEIGHT),
            decreases r + 1,
        {
            let y = center.y as i64 - RADIUS as i64 + r as i64;
            if 0 <= y && y < BOARD_HEIGHT as i64 {
                let row = figure.get_row(r);
                let shift = (4 - fx) as u32;
                proof {
                    crate::games::tetris::bits::lemma_low_bit(row >> shift);
                    lemma_bit_shr(row, shift);
                    assert(bit(row >> shift, 0) == bit(row, shift as int));
                }
                if (row >> shift) & 1 == 1 {
                    assert(figure@.has(4 - fx, r as int));
                    assert forall|k: int| y + 1 <= k implies !covered(figure@, center, x as int, k) by {
                        if covered(figure@, center, x as int, k) {
                            assert(figure@.has(4 - fx, k - center.y + 2));
                        }
                    }
                    return (y + 1) as i32;
                }
            }
            r -= 1;
        }
        proof {
            assert forall|k: int| 0 <= k implies !covered(figure@, center, x as int, k) by {
                if covered(figure@, center, x as int, k) {
                    assert(figure@.has(4 - fx, k - center.y + 2));
                }
            }
        }
        0
    }

    /// Puts the figure into the well with its centre at `center` and brings the
    /// heights of the columns it spans up to date.
    pub fn place_figure(&mut self, figure: &Figure, center: Point)
        requires
            old(self).wf(),
            figure@.wf(),
            fits(figure@, center),
        ensures
            final(self)@ == toggled(old(self)@, figure@, center),
            final(self).evaluator() == old(self).evaluator(),
            final(self).wf(),
    {
        let ghost before = self@;
        let ghost after = toggled(before, figure@, center);
        self.toggle_figure(figure, center);
        let tops = figure.tops();
        let left = figure.left();
        let right = figure.right();
        let mut t = -left;
        while t <= right
            invariant
                figure@.wf(),
                fits(figure@, center),
                left == figure@.left(),
                right == figure@.right(),
                -left <= t <= right + 1,
                rows_wf(before),
                rows_wf(after),
                after == toggled(before, figure@, center),
                self@ == after,
                self.evaluator() == old(self).evaluator(),
                self.evaluator().wf(),
                self.cache().len() == BOARD_WIDTH,
                forall|fx: int| 0 <= fx < 5 ==> #[trigger] tops@[fx] == figure@.tops(fx),
                forall|x: int|
                    0 <= x < BOARD_WIDTH ==> #[trigger] self.cache()[x] == (if center.x - left <= x
                        < center.x + t {
                        column_height(after, x)
                    } else {
                        column_height(before, x)
                    }),
            decreases right + 1 - t,
        {
            let x = (center.x + t) as usize;
            let fx = (t + 2) as usize;
            let edge = Self::top_edge(figure, x, fx, center, tops[fx]);
            let height = self.heights[x];
            proof {
                lemma_height_after(before, figure@, center, x as int, edge as int);
            }
            if edge > height {
                self.heights[x] = edge;
            } else if edge == height && edge > 0 {
                self.heights[x] = self.glass.height(x);
            }
            t += 1;
        }
        proof {
            assert forall|x: int| 0 <= x < BOARD_WIDTH implies #[trigger] self.cache()[x]
                == column_height(after, x) by {
                if !(center.x - left <= x <= center.x + right) {
                    lemma_untouched_column(before, figure@, center, x);
                }
            }
        }
    }

    /// Takes the figure out of the well again: toggles the same cells and
    /// measures every column anew.
    pub fn unplace_figure(&mut self, figure: &Figure, center: Point)
        requires
            rows_wf(old(self)@),
            old(self).evaluator().wf(),
            figure@.wf(),
            fits(figure@, center),
        ensures
            final(self)@ == toggled(old(self)@, figure@, center),
            final(self).evaluator() == old(self).evaluator(),
            final(self).wf(),
    {
        self.toggle_figure(figure, center);
        self.recalc_heights();
    }

    /// A simulator for the given well, with the height of every column
    /// measured. The evaluator is made once and lent to every simulator.
    pub fn new(glass: &Glass, evaluator: &'a Evaluator) -> (simulator: Simulator<'a>)
        requires
            glass.wf(),
            evaluator.wf(),
        ensures
            simulator@ == glass@,
            simulator.evaluator() == *evaluator,
            simulator.wf(),
    {
        let mut simulator = Simulator { glass: *glass, heights: [0; BOARD_WIDTH], evaluator };
        simulator.recalc_heights();
        simulator
    }

    /// Draws the well as text, top row first.
    pub fn visualize(&self) -> (text: String)
        ensures
            text@ == rendered(self@),
    {
        self.glass.visualize()
    }

    /// The score of the well as it stands: the higher, the better.
    pub fn evaluate(&self) -> (value: i64)
        requires
            self.wf(),
        ensures
            value == score(self@, self.evaluator()@),
    {
        self.evaluator.score(&self.glass, &self.heights)
    }

    /// The moves that the figure has in the well, by ascending column.
    pub fn valid_moves(&mut self, figure: &Figure) -> (moves: Vec<Point>)
        requires
            old(self).wf(),
            figure@.wf(),
        ensures
            *final(self) == *old(self),
            moves@ == valid_moves_of(old(self)@, figure@),
            forall|i: int|
                0 <= i < moves@.len() ==> fits(figure@, #[trigger] moves@[i]) && !collides(
                    old(self)@,
                    figure@,
                    moves@[i],
                ) && moves@[i].y == drop_row(old(self)@, figure@, moves@[i].x as int) && 0
                    <= moves@[i].y < BOARD_HEIGHT - TOP_MARGIN && 0 <= moves@[i].x < BOARD_WIDTH,
            forall|i: int, j: int|
                0 <= i < j < moves@.len() ==> (#[trigger] moves@[i]).x < (#[trigger] moves@[j]).x,
    {
        let mut moves: Vec<Point> = Vec::with_capacity(BOARD_WIDTH);
        let bottoms = figure.bottoms();
        let left = figure.left();
        let right = figure.right();
        let mut x = left;
        while x < BOARD_WIDTH_I32 - right
            invariant
                self.wf(),
                *self == *old(self),
                figure@.wf(),
                left == figure@.left(),
                right == figure@.right(),
                left <= x <= BOARD_WIDTH - right,
                forall|fx: int| 0 <= fx < 5 ==> #[trigger] bottoms@[fx] == figure@.bottoms(fx),
                moves@ == moves_upto(self@, figure@, x - left),
                forall|i: int|
                    0 <= i < moves@.len() ==> fits(figure@, #[trigger] moves@[i]) && !collides(
                        self@,
                        figure@,
                        moves@[i],
                    ) && moves@[i].y == drop_row(self@, figure@, moves@[i].x as int) && 0
                        <= moves@[i].y < BOARD_HEIGHT - TOP_MARGIN && 0 <= moves@[i].x < x,
                forall|i: int, j: int|
                    0 <= i < j < moves@.len() ==> (#[trigger] moves@[i]).x < (
                    #[trigger] moves@[j]).x,
            decreases BOARD_WIDTH - right - x,
        {
            let mut y: i32 = 0;
            let mut t = -left;
            while t <= right
                invariant
                    self.wf(),
                    figure@.wf(),
                    left == figure@.left(),
                    right == figure@.right(),
                    left <= x < BOARD_WIDTH - right,
                    -left <= t <= right + 1,
                    forall|fx: int| 0 <= fx < 5 ==> #[trigger] bottoms@[fx] == figure@.bottoms(fx),
                    y == drop_upto(self@, figure@, x as int, t + left),
                decreases right + 1 - t,
            {
                proof {
                    lemma_drop_bounds(self@, figure@, x as int, t + left);
                    lemma_top_of(self@, x + t, BOARD_HEIGHT as int);
                }
                let here = self.heights[(x + t) as usize] + bottoms[(t + 2) as usize];
                if here > y {
                    y = here;
                }
                t += 1;
            }
            proof {
                lemma_drop_bounds(self@, figure@, x as int, left + right + 1);
            }
            if y < BOARD_HEIGHT_I32 - TOP_MARGIN {
                let center = Point::new(x, y);
                if !self.intersect_figure(figure, center) {
                    moves.push(center);
                }
            }
            x += 1;
        }
        moves
    }
}

} // verus!
