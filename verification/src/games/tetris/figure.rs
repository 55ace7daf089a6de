use vstd::prelude::*;
use crate::games::tetris::bits::{
    bit, pack, lemma_bit_logic, lemma_bit_shl, lemma_bit_shr, lemma_bit_unit, lemma_low_bit,
    lemma_is_pack, lemma_pack_bits, lemma_bit_extensional, lemma_high_bits_clear,
    lemma_high_bits_of_small, lemma_width_bounds,
};
use crate::games::tetris::board::FigureType;
use crate::games::tetris::solver::Rotation;

verus! {

/// What a figure is to the contracts: its five rows, row 0 lowest, and the word
/// that holds its four extents.
///
/// Bit `b` of a row is the cell `2 - b` columns to the right of the centre, so
/// bit 4 is the leftmost cell and bit 0 the rightmost. Row `r` lies `r - 2` rows
/// above the centre. The extents are the bytes of `sides`, from the highest
/// down: top, left, bottom, right.
pub struct Shape {
    pub rows: Seq<u32>,
    pub sides: u32,
}

/// The word `s` with its bytes moved round to the right by `n` bits.
pub open spec fn turned(s: u32, n: u32) -> u32 {
    (s >> n) | (s << ((32 - n) as u32))
}

/// By how many bits a rotation moves the extents round.
pub open spec fn turn_of(rotation: Rotation) -> u32 {
    match rotation {
        Rotation::Identity => 0,
        Rotation::Left => 8,
        Rotation::Flip => 16,
        Rotation::Right => 24,
    }
}

/// Where a rotation takes the cell at bit `b` of row `r`: to which bit of which row.
pub open spec fn target(rotation: Rotation, b: int, r: int) -> (int, int) {
    match rotation {
        Rotation::Identity => (b, r),
        Rotation::Left => (r, 4 - b),
        Rotation::Flip => (4 - b, 4 - r),
        Rotation::Right => (4 - r, b),
    }
}

/// From where a rotation brings the cell at bit `b` of row `r`.
pub open spec fn source(rotation: Rotation, b: int, r: int) -> (int, int) {
    match rotation {
        Rotation::Identity => (b, r),
        Rotation::Left => (4 - r, b),
        Rotation::Flip => (4 - b, 4 - r),
        Rotation::Right => (r, 4 - b),
    }
}

impl Shape {
    /// Whether the cell at bit `b` of row `r` belongs to the figure.
    pub open spec fn has(self, b: int, r: int) -> bool {
        0 <= b < 5 && 0 <= r < 5 && r < self.rows.len() && bit(self.rows[r], b)
    }

    /// Whether the figure covers the cell `dx` columns to the right of its centre
    /// and `dy` rows above it.
    pub open spec fn covers(self, dx: int, dy: int) -> bool {
        self.has(2 - dx, dy + 2)
    }

    /// How many rows the figure reaches above its centre.
    pub open spec fn top(self) -> int {
        (self.sides >> 24) as int
    }

    /// How many columns the figure reaches to the left of its centre.
    pub open spec fn left(self) -> int {
        ((self.sides >> 16) & 255) as int
    }

    /// How many rows the figure reaches below its centre.
    pub open spec fn bottom(self) -> int {
        ((self.sides >> 8) & 255) as int
    }

    /// How many columns the figure reaches to the right of its centre.
    pub open spec fn right(self) -> int {
        (self.sides & 255) as int
    }

    /// Five rows, no bit outside the five columns.
    pub open spec fn in_window(self) -> bool {
        &&& self.rows.len() == 5
        &&& forall|r: int| 0 <= r < 5 ==> #[trigger] self.rows[r] < 32
    }

    /// The figure lies in its window, no extent is more than 2, and no cell lies
    /// further from the centre than the extents say.
    pub open spec fn wf(self) -> bool {
        &&& self.in_window()
        &&& self.top() <= 2
        &&& self.left() <= 2
        &&& self.bottom() <= 2
        &&& self.right() <= 2
        &&& forall|b: int, r: int| #[trigger]
            self.has(b, r) ==> 2 - self.right() <= b <= 2 + self.left() && 2 - self.bottom() <= r
                <= 2 + self.top()
    }

    /// The figure after a rotation about its centre. Each cell goes where
    /// `target` says, and the extents move round with it.
    pub open spec fn rotated(self, rotation: Rotation) -> Shape {
        if rotation == Rotation::Identity {
            self
        } else {
            Shape {
                rows: Seq::new(
                    5,
                    |r: int|
                        pack(
                            |b: int| self.has(source(rotation, b, r).0, source(rotation, b, r).1),
                            5,
                        ),
                ),
                sides: turned(self.sides, turn_of(rotation)),
            }
        }
    }

    /// How many of the two lowest rows the figure fills in the column `fx` of its
    /// window (column 2 is the centre); 0 outside its span.
    pub open spec fn bottoms(self, fx: int) -> int {
        if 2 - self.left() <= fx <= 2 + self.right() {
            (if self.has(4 - fx, 0) {
                1int
            } else {
                0int
            }) + (if self.has(4 - fx, 1) {
                1int
            } else {
                0int
            })
        } else {
            0
        }
    }

    /// How many of the two highest rows the figure fills in the column `fx` of its
    /// window; 0 outside its span.
    pub open spec fn tops(self, fx: int) -> int {
        if 2 - self.left() <= fx <= 2 + self.right() {
            (if self.has(4 - fx, 3) {
                1int
            } else {
                0int
            }) + (if self.has(4 - fx, 4) {
                1int
            } else {
                0int
            })
        } else {
            0
        }
    }
}

/// The shape of each kind of figure before any rotation.
pub open spec fn canonical(ty: FigureType) -> Shape {
    match ty {
        FigureType::I => Shape { rows: seq![4u32, 4u32, 4u32, 4u32, 0u32], sides: 0x01000200 },
        FigureType::O => Shape { rows: seq![0u32, 6u32, 6u32, 0u32, 0u32], sides: 0x00000101 },
        FigureType::L => Shape { rows: seq![0u32, 6u32, 4u32, 4u32, 0u32], sides: 0x01000101 },
        FigureType::J => Shape { rows: seq![0u32, 12u32, 4u32, 4u32, 0u32], sides: 0x01010100 },
        FigureType::S => Shape { rows: seq![0u32, 0u32, 12u32, 6u32, 0u32], sides: 0x01010001 },
        FigureType::Z => Shape { rows: seq![0u32, 0u32, 6u32, 12u32, 0u32], sides: 0x01010001 },
        FigureType::T => Shape { rows: seq![0u32, 0u32, 14u32, 4u32, 0u32], sides: 0x01010001 },
    }
}

proof fn bv_bytes(s: u32)
    by (bit_vector)
    ensures
        (s >> 24) <= 255,
        (s >> 16) & 255 <= 255,
        (s >> 8) & 255 <= 255,
        s & 255 <= 255,
{
}

proof fn bv_turned(s: u32, t: u32)
    by (bit_vector)
    requires
        t == (s >> 8) | (s << 24),
    ensures
        t >> 24 == s & 255,
        (t >> 16) & 255 == s >> 24,
        (t >> 8) & 255 == (s >> 16) & 255,
        t & 255 == (s >> 8) & 255,
        (s >> 16) | (s << 16) == (t >> 8) | (t << 24),
        (s >> 24) | (s << 8) == (((t >> 8) | (t << 24)) >> 8) | (((t >> 8) | (t << 24)) << 24),
{
}

proof fn bv_full_turn(s: u32)
    by (bit_vector)
    ensures
        (((s >> 24) | (s << 8)) >> 8) | (((s >> 24) | (s << 8)) << 24) == s,
        (((s >> 16) | (s << 16)) >> 16) | (((s >> 16) | (s << 16)) << 16) == s,
{
}

proof fn bv_table(k: u32)
    by (bit_vector)
    requires
        k < 32,
    ensures
        ((0u32 >> k) & 1 == 1) == false,
        ((4u32 >> k) & 1 == 1) == (k == 2),
        ((6u32 >> k) & 1 == 1) == (k == 1 || k == 2),
        ((12u32 >> k) & 1 == 1) == (k == 2 || k == 3),
        ((14u32 >> k) & 1 == 1) == (k == 1 || k == 2 || k == 3),
        0x01000200u32 >> 24 == 1 && (0x01000200u32 >> 16) & 255 == 0 && (0x01000200u32 >> 8) & 255
            == 2 && 0x01000200u32 & 255 == 0,
        0x00000101u32 >> 24 == 0 && (0x00000101u32 >> 16) & 255 == 0 && (0x00000101u32 >> 8) & 255
            == 1 && 0x00000101u32 & 255 == 1,
        0x01000101u32 >> 24 == 1 && (0x01000101u32 >> 16) & 255 == 0 && (0x01000101u32 >> 8) & 255
            == 1 && 0x01000101u32 & 255 == 1,
        0x01010100u32 >> 24 == 1 && (0x01010100u32 >> 16) & 255 == 1 && (0x01010100u32 >> 8) & 255
            == 1 && 0x01010100u32 & 255 == 0,
        0x01010001u32 >> 24 == 1 && (0x01010001u32 >> 16) & 255 == 1 && (0x01010001u32 >> 8) & 255
            == 0 && 0x01010001u32 & 255 == 1,
{
}

/// How the extents move when the word that holds them is turned by a quarter,
/// a half or three quarters.
pub proof fn lemma_turned_extents(s: Shape, rotation: Rotation)
    ensures
        ({
            let t = Shape { rows: s.rows, sides: turned(s.sides, turn_of(rotation)) };
            match rotation {
                Rotation::Identity => true,
                Rotation::Left => t.top() == s.right() && t.left() == s.top() && t.bottom()
                    == s.left() && t.right() == s.bottom(),
                Rotation::Flip => t.top() == s.bottom() && t.left() == s.right() && t.bottom()
                    == s.top() && t.right() == s.left(),
                Rotation::Right => t.top() == s.left() && t.left() == s.bottom() && t.bottom()
                    == s.right() && t.right() == s.top(),
            }
        }),
{
    let q1 = (s.sides >> 8) | (s.sides << 24);
    let q2 = (q1 >> 8) | (q1 << 24);
    let q3 = (q2 >> 8) | (q2 << 24);
    bv_turned(s.sides, q1);
    bv_turned(q1, q2);
    bv_turned(q2, q3);
}

/// After a rotation the cell at bit `b` of row `r` is the one that `source` names.
pub proof fn lemma_rotated_has(s: Shape, rotation: Rotation)
    requires
        rotation != Rotation::Identity,
    ensures
        s.rotated(rotation).in_window(),
        forall|b: int, r: int| #[trigger]
            s.rotated(rotation).has(b, r) == (0 <= b < 5 && 0 <= r < 5 && s.has(
                source(rotation, b, r).0,
                source(rotation, b, r).1,
            )),
{
    let t = s.rotated(rotation);
    assert forall|r: int| 0 <= r < 5 implies #[trigger] t.rows[r] < 32 && (forall|b: int| #[trigger]
        t.has(b, r) == (0 <= b < 5 && s.has(
            source(rotation, b, r).0,
            source(rotation, b, r).1,
        ))) by {
        lemma_pack_bits(|b: int| s.has(source(rotation, b, r).0, source(rotation, b, r).1), 5);
        lemma_high_bits_clear(t.rows[r], 5);
        lemma_width_bounds(t.rows[r]);
    }
}

/// A rotation of a well-formed shape is well formed.
pub proof fn lemma_rotated_wf(s: Shape, rotation: Rotation)
    requires
        s.wf(),
    ensures
        s.rotated(rotation).wf(),
{
    if rotation != Rotation::Identity {
        lemma_rotated_has(s, rotation);
        lemma_turned_extents(s, rotation);
        let t = s.rotated(rotation);
        assert forall|b: int, r: int| #[trigger] t.has(b, r) implies 2 - t.right() <= b <= 2
            + t.left() && 2 - t.bottom() <= r <= 2 + t.top() by {
            assert(s.has(source(rotation, b, r).0, source(rotation, b, r).1));
        }
    }
}

/// Two shapes in their windows with the same cells and the same extents are the same shape.
pub proof fn lemma_shape_equal(s: Shape, t: Shape)
    requires
        s.in_window(),
        t.in_window(),
        s.sides == t.sides,
        forall|b: int, r: int| 0 <= b < 5 && 0 <= r < 5 ==> s.has(b, r) == t.has(b, r),
    ensures
        s == t,
{
    assert forall|r: int| 0 <= r < 5 implies s.rows[r] == t.rows[r] by {
        lemma_width_bounds(s.rows[r]);
        lemma_width_bounds(t.rows[r]);
        lemma_high_bits_of_small(s.rows[r], 5);
        lemma_high_bits_of_small(t.rows[r], 5);
        assert forall|k: int| 0 <= k < 32 implies bit(s.rows[r], k) == bit(t.rows[r], k) by {
            if k < 5 {
                assert(s.has(k, r) == t.has(k, r));
            }
        }
        lemma_bit_extensional(s.rows[r], t.rows[r]);
    }
    assert(s.rows =~= t.rows);
}

/// Four quarter turns to the left give back the shape and its extents, and so do
/// four to the right and two half turns.
pub proof fn lemma_rotation_closure(s: Shape)
    requires
        s.in_window(),
    ensures
        s.rotated(Rotation::Left).rotated(Rotation::Left).rotated(Rotation::Left).rotated(
            Rotation::Left,
        ) == s,
        s.rotated(Rotation::Right).rotated(Rotation::Right).rotated(Rotation::Right).rotated(
            Rotation::Right,
        ) == s,
        s.rotated(Rotation::Flip).rotated(Rotation::Flip) == s,
        s.rotated(Rotation::Identity) == s,
{
    lemma_round_trip(s, Rotation::Left);
    lemma_round_trip(s, Rotation::Right);
    let h = s.rotated(Rotation::Flip);
    lemma_rotated_has(s, Rotation::Flip);
    lemma_rotated_has(h, Rotation::Flip);
    bv_full_turn(s.sides);
    lemma_shape_equal(h.rotated(Rotation::Flip), s);
}

proof fn lemma_round_trip(s: Shape, rotation: Rotation)
    requires
        s.in_window(),
        rotation == Rotation::Left || rotation == Rotation::Right,
    ensures
        s.rotated(rotation).rotated(rotation).rotated(rotation).rotated(rotation) == s,
{
    let a = s.rotated(rotation);
    let b = a.rotated(rotation);
    let c = b.rotated(rotation);
    let d = c.rotated(rotation);
    lemma_rotated_has(s, rotation);
    lemma_rotated_has(a, rotation);
    lemma_rotated_has(b, rotation);
    lemma_rotated_has(c, rotation);
    let q1 = (s.sides >> 8) | (s.sides << 24);
    let q2 = (q1 >> 8) | (q1 << 24);
    let q3 = (q2 >> 8) | (q2 << 24);
    bv_turned(s.sides, q1);
    bv_turned(q1, q2);
    bv_turned(q2, q3);
    bv_full_turn(s.sides);
    bv_quarters(s.sides);
    assert(d.sides == s.sides);
    assert forall|x: int, y: int| 0 <= x < 5 && 0 <= y < 5 implies d.has(x, y) == s.has(x, y) by {
        let once = source(rotation, x, y);
        let twice = source(rotation, once.0, once.1);
        let thrice = source(rotation, twice.0, twice.1);
        assert(d.has(x, y) == c.has(once.0, once.1));
        assert(c.has(once.0, once.1) == b.has(twice.0, twice.1));
        assert(b.has(twice.0, twice.1) == a.has(thrice.0, thrice.1));
        assert(a.has(thrice.0, thrice.1) == s.has(x, y));
    }
    lemma_shape_equal(d, s);
}

proof fn bv_quarters(s: u32)
    by (bit_vector)
    ensures
        ({
            let a = (s >> 8) | (s << 24);
            let b = (a >> 8) | (a << 24);
            let c = (b >> 8) | (b << 24);
            (c >> 8) | (c << 24)
        }) == s,
        ({
            let a = (s >> 24) | (s << 8);
            let b = (a >> 24) | (a << 8);
            let c = (b >> 24) | (b << 8);
            (c >> 24) | (c << 8)
        }) == s,
{
}

/// The seven canonical shapes are well formed.
pub proof fn lemma_canonical_wf(ty: FigureType)
    ensures
        canonical(ty).wf(),
{
    let s = canonical(ty);
    bv_table(0);
    assert forall|b: int, r: int| #[trigger] s.has(b, r) implies 2 - s.right() <= b <= 2 + s.left()
        && 2 - s.bottom() <= r <= 2 + s.top() by {
        bv_table(b as u32);
    }
}

/// How far each canonical shape reaches to the left and to the right of its centre.
pub proof fn lemma_canonical_extents(ty: FigureType)
    ensures
        canonical(ty).left() == (match ty {
            FigureType::I | FigureType::O | FigureType::L => 0int,
            _ => 1int,
        }),
        canonical(ty).right() == (match ty {
            FigureType::I | FigureType::J => 0int,
            _ => 1int,
        }),
{
    bv_table(0);
}

/// A figure: a shape in a window of five rows by five columns round its centre,
/// with how far it reaches from the centre in each direction.
#[derive(Clone, Copy, Debug, PartialEq, Eq)]
pub struct Figure {
    matrix: [u32; 5],
    sides: u32,
}

impl View for Figure {
    type V = Shape;

    closed spec fn view(&self) -> Shape {
        Shape { rows: self.matrix@, sides: self.sides }
    }
}

impl vstd::std_specs::convert::FromSpecImpl<FigureType> for Figure {
    open spec fn obeys_from_spec() -> bool {
        true
    }

    closed spec fn from_spec(ty: FigureType) -> Figure {
        match ty {
            FigureType::I => Figure { matrix: [4, 4, 4, 4, 0], sides: 0x01000200 },
            FigureType::O => Figure { matrix: [0, 6, 6, 0, 0], sides: 0x00000101 },
            FigureType::L => Figure { matrix: [0, 6, 4, 4, 0], sides: 0x01000101 },
            FigureType::J => Figure { matrix: [0, 12, 4, 4, 0], sides: 0x01010100 },
            FigureType::S => Figure { matrix: [0, 0, 12, 6, 0], sides: 0x01010001 },
            FigureType::Z => Figure { matrix: [0, 0, 6, 12, 0], sides: 0x01010001 },
            FigureType::T => Figure { matrix: [0, 0, 14, 4, 0], sides: 0x01010001 },
        }
    }
}

impl From<FigureType> for Figure {
    /// The figure of the given kind, not rotated.
    fn from(ty: FigureType) -> (f: Figure)
        ensures
            f@ == canonical(ty),
            f@.wf(),
    {
        let matrix: [u32; 5] = match ty {
            FigureType::I => [4, 4, 4, 4, 0],
            FigureType::O => [0, 6, 6, 0, 0],
            FigureType::L => [0, 6, 4, 4, 0],
            FigureType::J => [0, 12, 4, 4, 0],
            FigureType::S => [0, 0, 12, 6, 0],
            FigureType::Z => [0, 0, 6, 12, 0],
            FigureType::T => [0, 0, 14, 4, 0],
        };
        let sides: u32 = match ty {
            FigureType::I => 0x01000200,
            FigureType::O => 0x00000101,
            FigureType::L => 0x01000101,
            FigureType::J => 0x01010100,
            FigureType::S => 0x01010001,
            FigureType::Z => 0x01010001,
            FigureType::T => 0x01010001,
        };
        let f = Figure { matrix, sides };
        proof {
            assert(f@.rows =~= canonical(ty).rows);
            lemma_canonical_wf(ty);
        }
        f
    }
}

/// Whether the rotation loop, when it stands at bit `x` of row `y`, has already
/// moved the cell at bit `b` of row `r`.
spec fn passed(b: int, r: int, y: int, x: int) -> bool {
    r < y || (r == y && b < x)
}

/// Whether the rotation loop, when it stands at bit `x` of row `y`, has set bit
/// `k` of row `nr` of what it builds.
spec fn moved(s: Shape, rotation: Rotation, k: int, nr: int, y: int, x: int) -> bool {
    let from = source(rotation, k, nr);
    0 <= k < 5 && passed(from.0, from.1, y, x) && s.has(from.0, from.1)
}

impl Figure {
    /// Row `y` of the window; row 0 is the lowest.
    pub fn get_row(&self, y: i32) -> (bits: u32)
        requires
            0 <= y < 5,
        ensures
            bits == self@.rows[y as int],
    {
        self.matrix[y as usize]
    }

    /// Turns the figure about its centre.
    pub fn rotate(&mut self, rotation: Rotation)
        ensures
            final(self)@ == old(self)@.rotated(rotation),
            old(self)@.wf() ==> final(self)@.wf(),
    {
        proof {
            if old(self)@.wf() {
                lemma_rotated_wf(old(self)@, rotation);
            }
        }
        match rotation {
            Rotation::Identity => {},
            Rotation::Left => self.rotate_template(Rotation::Left, 8),
            Rotation::Flip => self.rotate_template(Rotation::Flip, 16),
            Rotation::Right => self.rotate_template(Rotation::Right, 24),
        }
    }

    /// How many columns the figure reaches to the left of its centre.
    pub fn left(&self) -> (extent: i32)
        ensures
            extent == self@.left(),
            0 <= extent <= 255,
    {
        proof {
            bv_bytes(self.sides);
        }
        ((self.sides >> 16) & 255) as i32
    }

    /// For each column of the window, how many of the two lowest rows the figure fills there.
    pub fn bottoms(&self) -> (profile: [i32; 5])
        requires
            self@.left() <= 2,
            self@.right() <= 2,
        ensures
            forall|fx: int| 0 <= fx < 5 ==> #[trigger] profile@[fx] == self@.bottoms(fx),
    {
        self.profile(0)
    }

    /// For each column of the window, how many of the two highest rows the figure fills there.
    pub fn tops(&self) -> (profile: [i32; 5])
        requires
            self@.left() <= 2,
            self@.right() <= 2,
        ensures
            forall|fx: int| 0 <= fx < 5 ==> #[trigger] profile@[fx] == self@.tops(fx),
    {
        self.profile(3)
    }

    /// How many columns the figure reaches to the right of its centre.
    pub fn right(&self) -> (extent: i32)
        ensures
            extent == self@.right(),
            0 <= extent <= 255,
    {
        proof {
            bv_bytes(self.sides);
        }
        (self.sides & 255) as i32
    }

    /// For each column of the span, how many of the rows `low` and `low + 1` the figure fills there.
    fn profile(&self, low: usize) -> (profile: [i32; 5])
        requires
            self@.left() <= 2,
            self@.right() <= 2,
            low == 0 || low == 3,
        ensures
            forall|fx: int|
                0 <= fx < 5 ==> #[trigger] profile@[fx] == (if 2 - self@.left() <= fx <= 2
                    + self@.right() {
                    (if self@.has(4 - fx, low as int) {
                        1int
                    } else {
                        0int
                    }) + (if self@.has(4 - fx, low + 1) {
                        1int
                    } else {
                        0int
                    })
                } else {
                    0
                }),
    {
        let mut profile: [i32; 5] = [0; 5];
        let first = 2 - self.left();
        let last = 2 + self.right();
        let mut x = first;
        while x <= last
            invariant
                low == 0 || low == 3,
                first == 2 - self@.left(),
                last == 2 + self@.right(),
                0 <= first <= x <= last + 1 <= 5,
                forall|fx: int|
                    0 <= fx < 5 ==> #[trigger] profile@[fx] == (if first <= fx < x {
                        (if self@.has(4 - fx, low as int) {
                            1int
                        } else {
                            0int
                        }) + (if self@.has(4 - fx, low + 1) {
                            1int
                        } else {
                            0int
                        })
                    } else {
                        0
                    }),
            decreases last + 1 - x,
        {
            let shift = (4 - x) as u32;
            let lower = self.matrix[low];
            let upper = self.matrix[low + 1];
            proof {
                lemma_low_bit(lower >> shift);
                lemma_bit_shr(lower, shift);
                assert(bit(lower >> shift, 0) == bit(lower, shift as int));
                lemma_low_bit(upper >> shift);
                lemma_bit_shr(upper, shift);
                assert(bit(upper >> shift, 0) == bit(upper, shift as int));
            }
            let count = ((lower >> shift) & 1) as i32 + ((upper >> shift) & 1) as i32;
            profile[x as usize] = count;
            x += 1;
        }
        profile
    }

    fn left_coord(x: usize, y: usize) -> (to: (usize, usize))
        requires
            x < 5,
            y < 5,
        ensures
            (to.0 as int, to.1 as int) == target(Rotation::Left, x as int, y as int),
    {
        (y, 4 - x)
    }

    fn flip_coord(x: usize, y: usize) -> (to: (usize, usize))
        requires
            x < 5,
            y < 5,
        ensures
            (to.0 as int, to.1 as int) == target(Rotation::Flip, x as int, y as int),
    {
        (4 - x, 4 - y)
    }

    fn right_coord(x: usize, y: usize) -> (to: (usize, usize))
        requires
            x < 5,
            y < 5,
        ensures
            (to.0 as int, to.1 as int) == target(Rotation::Right, x as int, y as int),
    {
        (4 - y, x)
    }

    /// Moves every cell of the window to where the rotation takes it, and the
    /// extents round by `rot` bits.
    fn rotate_template(&mut self, rotation: Rotation, rot: u32)
        requires
            rotation != Rotation::Identity,
            rot == turn_of(rotation),
        ensures
            final(self)@ == old(self)@.rotated(rotation),
    {
        let ghost shape = self@;
        let mut temp: [u32; 5] = [0; 5];
        proof {
            lemma_bit_unit(0);
        }
        for y in 0..5usize
            invariant
                rotation != Rotation::Identity,
                self@ == shape,
                forall|nr: int, k: int|
                    0 <= nr < 5 && 0 <= k < 32 ==> #[trigger] bit(temp@[nr], k) == moved(
                        shape,
                        rotation,
                        k,
                        nr,
                        y as int,
                        0,
                    ),
        {
            for x in 0..5usize
                invariant
                    rotation != Rotation::Identity,
                    y < 5,
                    self@ == shape,
                    forall|nr: int, k: int|
                        0 <= nr < 5 && 0 <= k < 32 ==> #[trigger] bit(temp@[nr], k) == moved(
                            shape,
                            rotation,
                            k,
                            nr,
                            y as int,
                            x as int,
                        ),
            {
                let row = self.matrix[y];
                let cell = (row >> (x as u32)) & 1;
                let (new_x, new_y) = match rotation {
                    Rotation::Left => Self::left_coord(x, y),
                    Rotation::Flip => Self::flip_coord(x, y),
                    _ => Self::right_coord(x, y),
                };
                let ghost before = temp@;
                let held = temp[new_y];
                temp[new_y] = held | (cell << (new_x as u32));
                proof {
                    lemma_low_bit(row >> (x as u32));
                    lemma_bit_shr(row, x as u32);
                    assert(bit(row >> (x as u32), 0) == bit(row, x as int));
                    lemma_bit_unit(cell);
                    lemma_bit_shl(cell, new_x as u32);
                    lemma_bit_logic(held, cell << (new_x as u32));
                    assert forall|nr: int, k: int| 0 <= nr < 5 && 0 <= k < 32 implies #[trigger] bit(
                        temp@[nr],
                        k,
                    ) == moved(shape, rotation, k, nr, y as int, x + 1) by {
                        assert(bit(before[nr], k) == moved(shape, rotation, k, nr, y as int, x as int));
                        if nr == new_y {
                            assert(bit(cell << (new_x as u32), k) == (new_x <= k < 32 && bit(
                                cell,
                                k - new_x,
                            )));
                        }
                    }
                }
            }
        }
        proof {
            assert forall|nr: int| 0 <= nr < 5 implies temp@[nr] == shape.rotated(rotation).rows[nr] by {
                assert forall|k: int| 0 <= k < 32 implies bit(temp@[nr], k) == (k < 5 && shape.has(
                    source(rotation, k, nr).0,
                    source(rotation, k, nr).1,
                )) by {
                    assert(bit(temp@[nr], k) == moved(shape, rotation, k, nr, 5, 0));
                }
                lemma_is_pack(
                    temp@[nr],
                    |b: int| shape.has(source(rotation, b, nr).0, source(rotation, b, nr).1),
                    5,
                );
            }
            assert(temp@ =~= shape.rotated(rotation).rows);
        }
        self.matrix = temp;
        self.sides = (self.sides >> rot) | (self.sides << (32 - rot));
    }
}

} // verus!
