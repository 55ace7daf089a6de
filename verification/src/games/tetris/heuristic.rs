use vstd::prelude::*;
use crate::games::tetris::bits::{
    bit, count_bits, count_where, lemma_bit_logic, lemma_bit_shl, lemma_bit_shr, lemma_bit_unit,
    lemma_count_bits_shift, lemma_count_bits_where, lemma_count_where_bounds,
    lemma_high_bits_clear, lemma_high_bits_of_small, lemma_low_bit, lemma_low_eighteen,
    lemma_width_bounds,
};
use crate::games::tetris::board::{
    Glass, BOARD_HEIGHT, BOARD_WIDTH, FULL_ROW, column_height, filled, lemma_height_above,
    lemma_top_of,
};

verus! {

/// The highest exponent that a depth may be raised to.
pub const MAX_DEGREE: u32 = 8;

/// The largest coefficient.
pub const MAX_WEIGHT: u32 = 100_000;

/// The eighth power of 18: no weight of a row is larger.
pub const POWER_MAX: i64 = 11_019_960_576;

/// The largest penalty that the buried cells of a well can add up to.
pub const BURIED_MAX: i64 = 3_570_467_226_624;

/// The largest penalty that the shaded cells of a well can add up to.
pub const SHADED_MAX: i64 = 7_140_934_453_248;

/// The number of words of at most eighteen bits.
pub const PATTERNS: usize = 262144;

/// The parameters of the evaluation: the size of each coefficient of the score,
/// and the exponents by which the penalty for a hole grows with its depth.
///
/// The signs are fixed: completed lines add to the score; the heights of the
/// columns, the holes of both kinds and the bumpiness take from it.
#[derive(Clone, Copy, Debug, PartialEq, Eq, Structural)]
pub struct Weights {
    /// Taken from the score for each row of height of each column.
    pub aggregate_height: u32,
    /// Taken from the score for each unit of the penalty for buried cells.
    pub holes: u32,
    /// Taken from the score for each unit of the penalty for shaded cells.
    pub side_holes: u32,
    /// Added to the score for each row that is full.
    pub completed_lines: u32,
    /// Taken from the score for each row by which two neighbouring columns differ in height.
    pub bumpiness: u32,
    /// The exponent of the depth in the penalty for an empty cell under a filled cell of its own column.
    pub hole_degree: u32,
    /// The exponent of the depth in the penalty for an empty cell beside a column that reaches its row.
    pub side_degree: u32,
}

/// `base` to the power `exp`.
pub open spec fn power(base: int, exp: nat) -> int
    decreases exp,
{
    if exp == 0 {
        1
    } else {
        base * power(base, (exp - 1) as nat)
    }
}

/// The depth of row `y`: how many rows lie between it and the rim, itself
/// included. The top row has depth 1, the bottom row depth 18.
pub open spec fn depth(y: int) -> int {
    BOARD_HEIGHT - y
}

/// Whether the cell is empty with a filled cell above it in its own column.
pub open spec fn buried(rows: Seq<u32>, x: int, y: int) -> bool {
    0 <= x < BOARD_WIDTH && 0 <= y < BOARD_HEIGHT && !filled(rows, x, y) && y < column_height(
        rows,
        x,
    )
}

/// Whether the cell is empty and the column `dx` to its right (to its left,
/// for -1) has a filled cell in its row or above.
pub open spec fn shaded(rows: Seq<u32>, x: int, y: int, dx: int) -> bool {
    0 <= x < BOARD_WIDTH && 0 <= y < BOARD_HEIGHT && !filled(rows, x, y) && y < column_height(
        rows,
        x + dx,
    )
}

/// The number of buried cells in row `y`.
pub open spec fn buried_in_row(rows: Seq<u32>, y: int) -> int {
    count_where(|x: int| buried(rows, x, y), BOARD_WIDTH as int)
}

/// The number of cells in row `y` shaded from the left, plus the number shaded
/// from the right: a cell shaded from both sides counts twice.
pub open spec fn shaded_in_row(rows: Seq<u32>, y: int) -> int {
    count_where(|x: int| shaded(rows, x, y, -1), BOARD_WIDTH as int) + count_where(
        |x: int| shaded(rows, x, y, 1),
        BOARD_WIDTH as int,
    )
}

/// The penalty for the buried cells from row `y` up to the top: each costs the
/// depth of its row to the power `hole_degree`.
pub open spec fn buried_from(rows: Seq<u32>, weights: Weights, y: int) -> int
    decreases BOARD_HEIGHT - y,
{
    if y >= BOARD_HEIGHT {
        0
    } else {
        power(depth(y), weights.hole_degree as nat) * buried_in_row(rows, y) + buried_from(
            rows,
            weights,
            y + 1,
        )
    }
}

/// The penalty for the shaded cells from row `y` up to the top: each shading
/// costs the depth of its row to the power `side_degree`.
pub open spec fn shaded_from(rows: Seq<u32>, weights: Weights, y: int) -> int
    decreases BOARD_HEIGHT - y,
{
    if y >= BOARD_HEIGHT {
        0
    } else {
        power(depth(y), weights.side_degree as nat) * shaded_in_row(rows, y) + shaded_from(
            rows,
            weights,
            y + 1,
        )
    }
}

/// The penalty for the buried cells of the well.
pub open spec fn buried_penalty(rows: Seq<u32>, weights: Weights) -> int {
    buried_from(rows, weights, 0)
}

/// The penalty for the shaded cells of the well.
pub open spec fn shaded_penalty(rows: Seq<u32>, weights: Weights) -> int {
    shaded_from(rows, weights, 0)
}

/// The heights of the first `n` columns, added up.
pub open spec fn heights_upto(rows: Seq<u32>, n: int) -> int
    decreases n,
{
    if n <= 0 {
        0
    } else {
        heights_upto(rows, n - 1) + column_height(rows, n - 1)
    }
}

/// The heights of all columns, added up.
pub open spec fn aggregate_height(rows: Seq<u32>) -> int {
    heights_upto(rows, BOARD_WIDTH as int)
}

/// The number of rows in which every cell is filled.
pub open spec fn full_rows(rows: Seq<u32>) -> int {
    count_where(|y: int| rows[y] == FULL_ROW, BOARD_HEIGHT as int)
}

/// The differences in height between each of the first `n` columns and its
/// right neighbour, added up without sign.
pub open spec fn bumps_upto(rows: Seq<u32>, n: int) -> int
    decreases n,
{
    if n <= 0 {
        0
    } else {
        let a = column_height(rows, n - 1);
        let b = column_height(rows, n as int);
        bumps_upto(rows, n - 1) + (if a > b {
            a - b
        } else {
            b - a
        })
    }
}

/// The bumpiness of the well: the differences in height between neighbouring
/// columns, added up without sign.
pub open spec fn bumpiness(rows: Seq<u32>) -> int {
    bumps_upto(rows, BOARD_WIDTH - 1)
}

/// The score of a well: the higher, the better.
pub open spec fn score(rows: Seq<u32>, weights: Weights) -> int {
    weights.completed_lines * full_rows(rows) - weights.aggregate_height * aggregate_height(rows)
        - weights.holes * buried_penalty(rows, weights) - weights.side_holes * shaded_penalty(
        rows,
        weights,
    ) - weights.bumpiness * bumpiness(rows)
}

impl Weights {
    /// Every coefficient is at most `MAX_WEIGHT` and every exponent at most `MAX_DEGREE`.
    pub open spec fn wf(self) -> bool {
        &&& self.aggregate_height <= MAX_WEIGHT
        &&& self.holes <= MAX_WEIGHT
        &&& self.side_holes <= MAX_WEIGHT
        &&& self.completed_lines <= MAX_WEIGHT
        &&& self.bumpiness <= MAX_WEIGHT
        &&& self.hole_degree <= MAX_DEGREE
        &&& self.side_degree <= MAX_DEGREE
    }

    /// Whether the parameters are within their limits.
    pub fn is_valid(&self) -> (valid: bool)
        ensures
            valid == self.wf(),
    {
        self.aggregate_height <= MAX_WEIGHT && self.holes <= MAX_WEIGHT && self.side_holes
            <= MAX_WEIGHT && self.completed_lines
            <= MAX_WEIGHT && self.bumpiness <= MAX_WEIGHT && self.hole_degree <= MAX_DEGREE
            && self.side_degree <= MAX_DEGREE
    }
}

/// The weights used unless others are given. Holes alone count, of both
/// kinds: a buried cell costs the fourth power of its depth, a shading the second.
pub open spec fn default_weights() -> Weights {
    Weights {
        aggregate_height: 0,
        holes: 1,
        side_holes: 1,
        completed_lines: 0,
        bumpiness: 0,
        hole_degree: 4,
        side_degree: 2,
    }
}

impl Default for Weights {
    fn default() -> (weights: Weights)
        ensures
            weights == default_weights(),
            weights.wf(),
    {
        Weights {
            aggregate_height: 0,
            holes: 1,
            side_holes: 1,
            completed_lines: 0,
            bumpiness: 0,
            hole_degree: 4,
            side_degree: 2,
        }
    }
}

/// A power of a number between 0 and 18 is at most the same power of 18.
proof fn lemma_power_le(base: int, exp: nat)
    requires
        0 <= base <= 18,
    ensures
        0 <= power(base, exp) <= power(18, exp),
    decreases exp,
{
    if exp > 0 {
        lemma_power_le(base, (exp - 1) as nat);
        let p = power(base, (exp - 1) as nat);
        let q = power(18, (exp - 1) as nat);
        assert(0 <= base * p <= 18 * q) by (nonlinear_arith)
            requires
                0 <= base <= 18,
                0 <= p <= q,
        ;
    }
}

/// The powers of 18 up to the eighth are at most `POWER_MAX`.
proof fn lemma_power_of_18(exp: nat)
    requires
        exp <= MAX_DEGREE,
    ensures
        power(18, exp) <= POWER_MAX,
{
    reveal_with_fuel(power, 10);
}

/// A power of a depth, with an exponent within the limit, lies between 0 and `POWER_MAX`.
pub proof fn lemma_power_bounds(base: int, exp: nat)
    requires
        0 <= base <= 18,
        exp <= MAX_DEGREE,
    ensures
        0 <= power(base, exp) <= POWER_MAX,
{
    lemma_power_le(base, exp);
    lemma_power_of_18(exp);
}

fn power_of(base: i64, exp: u32) -> (result: i64)
    requires
        0 <= base <= 18,
        exp <= MAX_DEGREE,
    ensures
        result == power(base as int, exp as nat),
        0 <= result <= POWER_MAX,
{
    let mut result: i64 = 1;
    for i in 0..exp
        invariant
            0 <= base <= 18,
            exp <= MAX_DEGREE,
            result == power(base as int, i as nat),
    {
        proof {
            lemma_power_bounds(base as int, i as nat);
            lemma_power_bounds(base as int, (i + 1) as nat);
            assert(power(base as int, (i + 1) as nat) == base * power(base as int, i as nat));
            assert(base * result == result * base) by (nonlinear_arith);
        }
        result = result * base;
    }
    proof {
        lemma_power_bounds(base as int, exp as nat);
    }
    result
}

/// A column outside the well has height 0, and every height is between 0 and 18.
pub proof fn lemma_height_bounds(rows: Seq<u32>, x: int)
    ensures
        0 <= column_height(rows, x) <= BOARD_HEIGHT,
        !(0 <= x < BOARD_WIDTH) ==> column_height(rows, x) == 0,
{
    lemma_top_of(rows, x, BOARD_HEIGHT as int);
}

/// The penalties of one row are at most 18 and 36 times `POWER_MAX`: at most 18
/// cells can be buried in a row, and at most 36 shadings fall on it.
proof fn lemma_row_bounds(rows: Seq<u32>, weights: Weights, y: int)
    requires
        weights.wf(),
        0 <= y < BOARD_HEIGHT,
    ensures
        0 <= power(depth(y), weights.hole_degree as nat) * buried_in_row(rows, y)
            <= 198_359_290_368,
        0 <= power(depth(y), weights.side_degree as nat) * shaded_in_row(rows, y)
            <= 396_718_580_736,
        0 <= buried_in_row(rows, y) <= 18,
        0 <= shaded_in_row(rows, y) <= 36,
{
    let a = power(depth(y), weights.hole_degree as nat);
    let b = power(depth(y), weights.side_degree as nat);
    let m = buried_in_row(rows, y);
    let n = shaded_in_row(rows, y);
    lemma_power_bounds(depth(y), weights.hole_degree as nat);
    lemma_power_bounds(depth(y), weights.side_degree as nat);
    lemma_count_where_bounds(|x: int| buried(rows, x, y), BOARD_WIDTH as int);
    lemma_count_where_bounds(|x: int| shaded(rows, x, y, -1), BOARD_WIDTH as int);
    lemma_count_where_bounds(|x: int| shaded(rows, x, y, 1), BOARD_WIDTH as int);
    assert(0 <= a * m <= 11_019_960_576 * 18) by (nonlinear_arith)
        requires
            0 <= a <= 11_019_960_576,
            0 <= m <= 18,
    ;
    assert(0 <= b * n <= 11_019_960_576 * 36) by (nonlinear_arith)
        requires
            0 <= b <= 11_019_960_576,
            0 <= n <= 36,
    ;
}

/// The evaluation, made ready once and then only read: the parameters, the
/// number of set bits of every row pattern, and the weight of a hole in each row.
#[derive(Debug)]
pub struct Evaluator {
    weights: Weights,
    set_ones: Vec<u8>,
    hole_weight: [i64; 18],
    side_weight: [i64; 18],
}

impl View for Evaluator {
    type V = Weights;

    /// The parameters that the evaluator was made with.
    closed spec fn view(&self) -> Weights {
        self.weights
    }
}

impl Evaluator {
    /// The parameters are within their limits and the tables hold what they stand for.
    pub closed spec fn wf(&self) -> bool {
        &&& self.weights.wf()
        &&& self.set_ones@.len() == PATTERNS
        &&& forall|v: int|
            0 <= v < PATTERNS ==> #[trigger] self.set_ones@[v] == count_bits(v as u32, 18)
        &&& forall|y: int|
            0 <= y < BOARD_HEIGHT ==> #[trigger] self.hole_weight@[y] == power(
                depth(y),
                self.weights.hole_degree as nat,
            )
        &&& forall|y: int|
            0 <= y < BOARD_HEIGHT ==> #[trigger] self.side_weight@[y] == power(
                depth(y),
                self.weights.side_degree as nat,
            )
    }

    /// Builds the tables for the given parameters.
    pub fn new(weights: Weights) -> (evaluator: Evaluator)
        requires
            weights.wf(),
        ensures
            evaluator@ == weights,
            evaluator.wf(),
    {
        let mut set_ones: Vec<u8> = Vec::with_capacity(PATTERNS);
        set_ones.push(0);
        proof {
            lemma_count_bits_zero(18);
        }
        let mut v: u32 = 1;
        while v < 262144
            invariant
                1 <= v <= 262144,
                set_ones@.len() == v,
                forall|k: int| 0 <= k < v ==> #[trigger] set_ones@[k] == count_bits(k as u32, 18),
                forall|k: int| 0 <= k < v ==> #[trigger] set_ones@[k] <= 18,
            decreases 262144 - v,
        {
            proof {
                lemma_count_bits_shift(v, 17);
                lemma_low_bit(v);
                lemma_bit_shr(v, 1);
                lemma_width_bounds(v);
                lemma_high_bits_of_small(v, 18);
                assert(!bit(v >> 1, 17));
                assert(count_bits(v >> 1, 18) == count_bits(v >> 1, 17));
                assert((v >> 1) < v) by (bit_vector)
                    requires
                        v >= 1,
                ;
                lemma_count_bits_bounds(v, 18);
            }
            let half = set_ones[(v >> 1) as usize];
            let low = (v & 1) as u8;
            set_ones.push(half + low);
            v += 1;
        }
        let mut hole_weight: [i64; 18] = [0; 18];
        let mut side_weight: [i64; 18] = [0; 18];
        for y in 0..BOARD_HEIGHT
            invariant
                weights.wf(),
                forall|k: int|
                    0 <= k < y ==> #[trigger] hole_weight@[k] == power(
                        depth(k),
                        weights.hole_degree as nat,
                    ),
                forall|k: int|
                    0 <= k < y ==> #[trigger] side_weight@[k] == power(
                        depth(k),
                        weights.side_degree as nat,
                    ),
        {
            let base = (BOARD_HEIGHT - y) as i64;
            hole_weight[y] = power_of(base, weights.hole_degree);
            side_weight[y] = power_of(base, weights.side_degree);
        }
        Evaluator { weights, set_ones, hole_weight, side_weight }
    }

    /// The parameters that the evaluator was made with.
    pub fn weights(&self) -> (weights: Weights)
        ensures
            weights == self@,
    {
        self.weights
    }

    /// The number of set bits of a row pattern, read from the table.
    pub fn count_ones(&self, bits: u32) -> (ones: u8)
        requires
            self.wf(),
            bits <= FULL_ROW,
        ensures
            ones == count_bits(bits, 18),
            ones <= 18,
    {
        proof {
            lemma_count_bits_bounds(bits, 18);
        }
        self.set_ones[bits as usize]
    }

    /// The score of a well whose columns have the given heights.
    pub fn score(&self, glass: &Glass, heights: &[i32; 18]) -> (value: i64)
        requires
            self.wf(),
            glass.wf(),
            forall|x: int| 0 <= x < BOARD_WIDTH ==> #[trigger] heights@[x] == column_height(
                glass@,
                x,
            ),
        ensures
            value == score(glass@, self@),
    {
        let ghost rows = glass@;
        let mut lines: i64 = 0;
        for y in 0..BOARD_HEIGHT
            invariant
                rows == glass@,
                lines == count_where(|k: int| rows[k] == FULL_ROW, y as int),
                0 <= lines <= y,
        {
            if glass.get_row(y) == FULL_ROW {
                lines += 1;
            }
        }
        let mut height: i64 = 0;
        for x in 0..BOARD_WIDTH
            invariant
                forall|k: int| 0 <= k < BOARD_WIDTH ==> #[trigger] heights@[k] == column_height(rows, k),
                height == heights_upto(rows, x as int),
                0 <= height <= 18 * x,
        {
            proof {
                lemma_height_bounds(rows, x as int);
            }
            height += heights[x] as i64;
        }
        let mut bumps: i64 = 0;
        for x in 0..BOARD_WIDTH - 1
            invariant
                forall|k: int| 0 <= k < BOARD_WIDTH ==> #[trigger] heights@[k] == column_height(rows, k),
                bumps == bumps_upto(rows, x as int),
                0 <= bumps <= 18 * x,
        {
            proof {
                lemma_height_bounds(rows, x as int);
                lemma_height_bounds(rows, x + 1);
            }
            let a = heights[x];
            let b = heights[x + 1];
            if a > b {
                bumps += (a - b) as i64;
            } else {
                bumps += (b - a) as i64;
            }
        }
        let (holes, side_holes) = self.penalty(glass);
        let for_lines = self.weights.completed_lines as i64;
        let for_height = self.weights.aggregate_height as i64;
        let for_holes = self.weights.holes as i64;
        let for_sides = self.weights.side_holes as i64;
        let for_bumps = self.weights.bumpiness as i64;
        assert(0 <= for_lines * lines <= 100_000 * 18) by (nonlinear_arith)
            requires
                0 <= for_lines <= 100_000,
                0 <= lines <= 18,
        ;
        assert(0 <= for_height * height <= 100_000 * 324) by (nonlinear_arith)
            requires
                0 <= for_height <= 100_000,
                0 <= height <= 324,
        ;
        assert(0 <= for_holes * holes <= 100_000 * 3_570_467_226_624) by (nonlinear_arith)
            requires
                0 <= for_holes <= 100_000,
                0 <= holes <= 3_570_467_226_624,
        ;
        assert(0 <= for_sides * side_holes <= 100_000 * 7_140_934_453_248) by (nonlinear_arith)
            requires
                0 <= for_sides <= 100_000,
                0 <= side_holes <= 7_140_934_453_248,
        ;
        assert(0 <= for_bumps * bumps <= 100_000 * 306) by (nonlinear_arith)
            requires
                0 <= for_bumps <= 100_000,
                0 <= bumps <= 306,
        ;
        for_lines * lines - for_height * height - for_holes * holes - for_sides * side_holes
            - for_bumps * bumps
    }

    /// The penalties for the buried and for the shaded cells of the well. The
    /// rows are read from the top down while three masks gather the columns
    /// that have reached the row: the column itself, its left neighbour and its
    /// right neighbour.
    fn penalty(&self, glass: &Glass) -> (total: (i64, i64))
        requires
            self.wf(),
            glass.wf(),
        ensures
            total.0 == buried_penalty(glass@, self@),
            total.1 == shaded_penalty(glass@, self@),
            0 <= total.0 <= BURIED_MAX,
            0 <= total.1 <= SHADED_MAX,
    {
        let ghost rows = glass@;
        let mut under_mask: u32 = 0;
        let mut ln_mask: u32 = 0;
        let mut rn_mask: u32 = 0;
        let mut holes_count: i64 = 0;
        let mut sides_count: i64 = 0;
        let mut y: usize = BOARD_HEIGHT;
        proof {
            lemma_bit_unit(0);
            assert forall|x: int| 0 <= x < 32 implies (#[trigger] bit(0u32, x) == (x < BOARD_WIDTH
                && column_height(rows, x) > BOARD_HEIGHT)) && (bit(0u32, x) == (column_height(
                rows,
                x - 1,
            ) > BOARD_HEIGHT)) && (bit(0u32, x) == (column_height(rows, x + 1) > BOARD_HEIGHT)) by {
                lemma_height_bounds(rows, x);
                lemma_height_bounds(rows, x - 1);
                lemma_height_bounds(rows, x + 1);
            }
        }
        while y > 0
            invariant
                self.wf(),
                glass.wf(),
                rows == glass@,
                y <= BOARD_HEIGHT,
                forall|x: int|
                    0 <= x < 32 ==> bit(under_mask, x) == (x < BOARD_WIDTH && column_height(rows, x)
                        > y),
                forall|x: int|
                    0 <= x < 32 ==> bit(ln_mask, x) == (column_height(rows, x - 1) > y),
                forall|x: int|
                    0 <= x < 32 ==> bit(rn_mask, x) == (column_height(rows, x + 1) > y),
                holes_count == buried_from(rows, self@, y as int),
                sides_count == shaded_from(rows, self@, y as int),
                0 <= holes_count <= (BOARD_HEIGHT - y) * 198_359_290_368,
                0 <= sides_count <= (BOARD_HEIGHT - y) * 396_718_580_736,
            decreases y,
        {
            y -= 1;
            let filled_row = glass.get_row(y);
            let line = !filled_row & FULL_ROW;
            let ghost under_before = under_mask;
            let ghost ln_before = ln_mask;
            let ghost rn_before = rn_mask;
            under_mask |= filled_row;
            ln_mask |= filled_row << 1;
            rn_mask |= filled_row >> 1;
            proof {
                lemma_bit_logic(under_before, filled_row);
                lemma_bit_logic(ln_before, filled_row << 1);
                lemma_bit_logic(rn_before, filled_row >> 1);
                lemma_bit_logic(!filled_row, FULL_ROW);
                lemma_bit_logic(filled_row, filled_row);
                lemma_bit_logic(under_mask, line);
                lemma_bit_logic(ln_mask, line);
                lemma_bit_logic(rn_mask, line);
                lemma_bit_shl(filled_row, 1);
                lemma_bit_shr(filled_row, 1);
                lemma_low_eighteen();
                lemma_width_bounds(filled_row);
                lemma_high_bits_of_small(filled_row, 18);
                assert forall|x: int| 0 <= x < 32 implies bit(line, x) == (x < BOARD_WIDTH && !filled(
                    rows,
                    x,
                    y as int,
                )) by {
                    assert(bit(line, x) == (bit(!filled_row, x) && bit(FULL_ROW, x)));
                }
                assert forall|x: int| 0 <= x < 32 implies (bit(under_mask, x) == (x < BOARD_WIDTH
                    && column_height(rows, x) > y)) && (bit(ln_mask, x) == (column_height(
                    rows,
                    x - 1,
                ) > y)) && (bit(rn_mask, x) == (column_height(rows, x + 1) > y)) by {
                    lemma_height_above(rows, x, y as int);
                    lemma_height_above(rows, x - 1, y as int);
                    lemma_height_above(rows, x + 1, y as int);
                    lemma_height_bounds(rows, x);
                    lemma_height_bounds(rows, x - 1);
                    lemma_height_bounds(rows, x + 1);
                    assert(bit(under_mask, x) == (bit(under_before, x) || bit(filled_row, x)));
                    assert(bit(ln_mask, x) == (bit(ln_before, x) || bit(filled_row << 1, x)));
                    assert(bit(rn_mask, x) == (bit(rn_before, x) || bit(filled_row >> 1, x)));
                    assert(bit(filled_row << 1, x) == (1 <= x < 32 && bit(filled_row, x - 1)));
                    assert(bit(filled_row >> 1, x) == bit(filled_row, x + 1));
                }
                assert forall|x: int| 0 <= x < 32 implies (bit(under_mask & line, x) == buried(
                    rows,
                    x,
                    y as int,
                )) && (bit(ln_mask & line, x) == shaded(rows, x, y as int, -1)) && (bit(
                    rn_mask & line,
                    x,
                ) == shaded(rows, x, y as int, 1)) by {
                    assert(bit(under_mask & line, x) == (bit(under_mask, x) && bit(line, x)));
                    assert(bit(ln_mask & line, x) == (bit(ln_mask, x) && bit(line, x)));
                    assert(bit(rn_mask & line, x) == (bit(rn_mask, x) && bit(line, x)));
                }
                lemma_high_bits_clear(under_mask & line, 18);
                lemma_high_bits_clear(ln_mask & line, 18);
                lemma_high_bits_clear(rn_mask & line, 18);
                lemma_width_bounds(under_mask & line);
                lemma_width_bounds(ln_mask & line);
                lemma_width_bounds(rn_mask & line);
                lemma_count_bits_where(
                    under_mask & line,
                    |x: int| buried(rows, x, y as int),
                    BOARD_WIDTH as int,
                );
                lemma_count_bits_where(
                    ln_mask & line,
                    |x: int| shaded(rows, x, y as int, -1),
                    BOARD_WIDTH as int,
                );
                lemma_count_bits_where(
                    rn_mask & line,
                    |x: int| shaded(rows, x, y as int, 1),
                    BOARD_WIDTH as int,
                );
                lemma_row_bounds(rows, self@, y as int);
                lemma_power_bounds(depth(y as int), self@.hole_degree as nat);
                lemma_power_bounds(depth(y as int), self@.side_degree as nat);
            }
            let inside = self.count_ones(under_mask & line) as i64;
            let beside = self.count_ones(ln_mask & line) as i64 + self.count_ones(
                rn_mask & line,
            ) as i64;
            let inside_factor = self.hole_weight[y];
            let side_factor = self.side_weight[y];
            assert(inside == buried_in_row(rows, y as int));
            assert(beside == shaded_in_row(rows, y as int));
            assert(inside_factor * inside == power(depth(y as int), self@.hole_degree as nat)
                * buried_in_row(rows, y as int));
            assert(side_factor * beside == power(depth(y as int), self@.side_degree as nat)
                * shaded_in_row(rows, y as int));
            holes_count += inside_factor * inside;
            sides_count += side_factor * beside;
        }
        (holes_count, sides_count)
    }
}

/// The word 0 has no bit set.
proof fn lemma_count_bits_zero(n: int)
    ensures
        count_bits(0, n) == 0,
    decreases n,
{
    lemma_bit_unit(0);
    if n > 0 {
        lemma_count_bits_zero(n - 1);
    }
}

/// A count of bits among the `n` lowest lies between 0 and `n`.
proof fn lemma_count_bits_bounds(v: u32, n: int)
    requires
        0 <= n,
    ensures
        0 <= count_bits(v, n) <= n,
    decreases n,
{
    if n > 0 {
        lemma_count_bits_bounds(v, n - 1);
    }
}

} // verus!
