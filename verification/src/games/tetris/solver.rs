use vstd::prelude::*;
use rayon::iter::{IntoParallelRefIterator, ParallelIterator};
use crate::engine;
use crate::games::tetris::bits::{count_bits, count_where};
use crate::games::tetris::board::{
    Board, FigureType, Glass, Point, BOARD_HEIGHT, BOARD_WIDTH, BOARD_WIDTH_I32, FULL_ROW, rows_wf,
};
use crate::games::tetris::commands::Command;
use crate::games::tetris::figure::{Figure, Shape, canonical, lemma_canonical_extents};
use crate::games::tetris::heuristic::{Evaluator, Weights, default_weights, full_rows, score};
use crate::games::tetris::simulator::{
    Simulator, fits, toggled, valid_moves_of, lemma_toggled_twice,
};

verus! {

/// How many figures the search looks at unless it is told otherwise: the
/// falling one and three to come.
pub const SIMULATION_DEPTH: usize = 4;

/// The four orientations of a figure: as it is (`Identity`), or turned a quarter to the left,
/// a quarter to the right, or half round.
#[derive(Clone, Copy, Debug, PartialEq, Eq, Structural, PartialOrd, Ord)]
pub enum Rotation {
    Identity,
    Left,
    Right,
    Flip,
}

/// When to skip the search for a long bar, and where to send it then.
#[derive(Clone, Copy, Debug, PartialEq, Eq, Structural)]
pub struct Shortcut {
    /// How many rows must be ready, counted in half rows: a full row counts
    /// two, a row that is at least half filled counts one.
    pub rows: u32,
    /// Whether the bar goes to the left wall; otherwise it goes to the right wall.
    pub to_left: bool,
}

/// What can be set about the search.
#[derive(Clone, Copy, Debug)]
pub struct Settings {
    /// How many figures the search looks at, the falling one included.
    pub depth: usize,
    /// The parameters of the evaluation.
    pub weights: Weights,
    /// The shortcut for the long bar, if there is to be one.
    pub shortcut: Option<Shortcut>,
}

impl Settings {
    /// The search looks at one figure at least, and the weights are within their limits.
    pub open spec fn wf(self) -> bool {
        self.depth >= 1 && self.weights.wf()
    }

    /// Whether the settings can be used.
    pub fn is_valid(&self) -> (valid: bool)
        ensures
            valid == self.wf(),
    {
        self.depth >= 1 && self.weights.is_valid()
    }
}

impl Default for Settings {
    /// Four figures deep, the default weights, no shortcut.
    fn default() -> (settings: Settings)
        ensures
            settings.depth == SIMULATION_DEPTH,
            settings.weights == default_weights(),
            settings.shortcut.is_none(),
            settings.wf(),
    {
        Settings { depth: SIMULATION_DEPTH, weights: Weights::default(), shortcut: None }
    }
}

/// The rotations that are tried for each kind of figure: those that give it a
/// look of its own.
pub open spec fn allowed(ty: FigureType) -> Seq<Rotation> {
    match ty {
        FigureType::I => seq![Rotation::Identity, Rotation::Left],
        FigureType::O => seq![Rotation::Identity],
        FigureType::L => seq![Rotation::Identity, Rotation::Left, Rotation::Flip, Rotation::Right],
        FigureType::J => seq![Rotation::Identity, Rotation::Left, Rotation::Flip, Rotation::Right],
        FigureType::S => seq![Rotation::Identity, Rotation::Left],
        FigureType::Z => seq![Rotation::Identity, Rotation::Left],
        FigureType::T => seq![Rotation::Identity, Rotation::Left, Rotation::Flip, Rotation::Right],
    }
}

/// The value of a position in which the figure has no move.
pub open spec fn lowest() -> int {
    i64::MIN as int
}

/// The larger of two values; the first where they are equal.
pub open spec fn larger(a: int, b: int) -> int {
    if b > a {
        b
    } else {
        a
    }
}

/// The value of the rows that the move of ply `ply` has led to: their score
/// where that was the last figure of the queue, else the best that the next
/// figure can reach from them.
pub open spec fn branch_value(rows: Seq<u32>, queue: Seq<FigureType>, ply: int, weights: Weights) -> int
    decreases queue.len() - ply, 0int, 0int,
{
    if 0 <= ply && ply + 1 < queue.len() {
        best_value(rows, queue, ply + 1, weights)
    } else {
        score(rows, weights)
    }
}

/// The best value among the first `n` moves of the figure of ply `ply` in the given orientation.
pub open spec fn best_of_moves(
    rows: Seq<u32>,
    queue: Seq<FigureType>,
    ply: int,
    weights: Weights,
    shape: Shape,
    n: int,
) -> int
    decreases queue.len() - ply, 1int, n,
{
    if n <= 0 {
        lowest()
    } else {
        larger(
            best_of_moves(rows, queue, ply, weights, shape, n - 1),
            branch_value(
                toggled(rows, shape, valid_moves_of(rows, shape)[n - 1]),
                queue,
                ply,
                weights,
            ),
        )
    }
}

/// The best value among all moves of the figure of ply `ply` in the first `n`
/// of its rotations.
pub open spec fn best_of_rotations(
    rows: Seq<u32>,
    queue: Seq<FigureType>,
    ply: int,
    weights: Weights,
    n: int,
) -> int
    decreases queue.len() - ply, 2int, n,
{
    if n <= 0 || !(0 <= ply < queue.len()) {
        lowest()
    } else {
        let shape = canonical(queue[ply]).rotated(allowed(queue[ply])[n - 1]);
        larger(
            best_of_rotations(rows, queue, ply, weights, n - 1),
            best_of_moves(
                rows,
                queue,
                ply,
                weights,
                shape,
                valid_moves_of(rows, shape).len() as int,
            ),
        )
    }
}

/// The best score that can be reached from the rows by placing the figures of
/// the queue from ply `ply` on, each in the best way; `lowest()` where a
/// figure has no move.
pub open spec fn best_value(rows: Seq<u32>, queue: Seq<FigureType>, ply: int, weights: Weights) -> int
    decreases queue.len() - ply, 3int, 0int,
{
    if 0 <= ply < queue.len() {
        best_of_rotations(rows, queue, ply, weights, allowed(queue[ply]).len() as int)
    } else {
        lowest()
    }
}

/// The value of the `j`-th move of the figure of ply `ply` in the `k`-th of its rotations.
#[verifier::opaque]
pub open spec fn move_value(
    rows: Seq<u32>,
    queue: Seq<FigureType>,
    ply: int,
    weights: Weights,
    k: int,
    j: int,
) -> int {
    let shape = canonical(queue[ply]).rotated(allowed(queue[ply])[k]);
    branch_value(toggled(rows, shape, valid_moves_of(rows, shape)[j]), queue, ply, weights)
}

/// The number of moves that the figure of ply `ply` has in the `k`-th of its rotations.
pub open spec fn moves_of(rows: Seq<u32>, queue: Seq<FigureType>, ply: int, k: int) -> int {
    valid_moves_of(rows, canonical(queue[ply]).rotated(allowed(queue[ply])[k])).len() as int
}

proof fn lemma_best_of_moves(
    rows: Seq<u32>,
    queue: Seq<FigureType>,
    ply: int,
    weights: Weights,
    k: int,
    n: int,
)
    requires
        0 <= n,
    ensures
        ({
            let shape = canonical(queue[ply]).rotated(allowed(queue[ply])[k]);
            let best = best_of_moves(rows, queue, ply, weights, shape, n);
            &&& best >= lowest()
            &&& forall|j: int|
                0 <= j < n ==> #[trigger] move_value(rows, queue, ply, weights, k, j) <= best
            &&& best == lowest() || exists|j: int|
                0 <= j < n && best == #[trigger] move_value(rows, queue, ply, weights, k, j)
        }),
    decreases n,
{
    reveal(move_value);
    if n > 0 {
        lemma_best_of_moves(rows, queue, ply, weights, k, n - 1);
        let shape = canonical(queue[ply]).rotated(allowed(queue[ply])[k]);
        let before = best_of_moves(rows, queue, ply, weights, shape, n - 1);
        let best = best_of_moves(rows, queue, ply, weights, shape, n);
        let last = move_value(rows, queue, ply, weights, k, n - 1);
        assert(best == larger(before, last));
        if last > before {
            assert(best == move_value(rows, queue, ply, weights, k, n - 1));
        } else if before != lowest() {
            let j = choose|j: int|
                0 <= j < n - 1 && before == #[trigger] move_value(rows, queue, ply, weights, k, j);
            assert(best == move_value(rows, queue, ply, weights, k, j));
        }
    }
}

proof fn lemma_best_of_rotations(
    rows: Seq<u32>,
    queue: Seq<FigureType>,
    ply: int,
    weights: Weights,
    n: int,
)
    requires
        0 <= ply < queue.len(),
        0 <= n,
    ensures
        ({
            let best = best_of_rotations(rows, queue, ply, weights, n);
            &&& best >= lowest()
            &&& forall|k: int, j: int|
                0 <= k < n && 0 <= j < moves_of(rows, queue, ply, k) ==> #[trigger] move_value(
                    rows,
                    queue,
                    ply,
                    weights,
                    k,
                    j,
                ) <= best
            &&& best == lowest() || exists|k: int, j: int|
                0 <= k < n && 0 <= j < moves_of(rows, queue, ply, k) && best
                    == #[trigger] move_value(rows, queue, ply, weights, k, j)
        }),
    decreases n,
{
    if n > 0 {
        lemma_best_of_rotations(rows, queue, ply, weights, n - 1);
        let count = moves_of(rows, queue, ply, n - 1);
        lemma_best_of_moves(rows, queue, ply, weights, n - 1, count);
        let shape = canonical(queue[ply]).rotated(allowed(queue[ply])[n - 1]);
        let before = best_of_rotations(rows, queue, ply, weights, n - 1);
        let here = best_of_moves(rows, queue, ply, weights, shape, count);
        let best = best_of_rotations(rows, queue, ply, weights, n);
        assert(best == larger(before, here));
        if here > before {
            let j = choose|j: int|
                0 <= j < count && here == #[trigger] move_value(rows, queue, ply, weights, n - 1, j);
            assert(best == move_value(rows, queue, ply, weights, n - 1, j));
        } else if before != lowest() {
            let (k, j) = choose|k: int, j: int|
                0 <= k < n - 1 && 0 <= j < moves_of(rows, queue, ply, k) && before
                    == #[trigger] move_value(rows, queue, ply, weights, k, j);
            assert(best == move_value(rows, queue, ply, weights, k, j));
        }
    }
}

/// The best value is the highest of the values of all moves of the figure, in
/// all the rotations that are tried for it; where the figure has no move, it is
/// `lowest()`.
pub proof fn lemma_best_value_is_highest(
    rows: Seq<u32>,
    queue: Seq<FigureType>,
    ply: int,
    weights: Weights,
)
    requires
        0 <= ply < queue.len(),
    ensures
        ({
            let best = best_value(rows, queue, ply, weights);
            let tried = allowed(queue[ply]).len();
            &&& forall|k: int, j: int|
                0 <= k < tried && 0 <= j < moves_of(rows, queue, ply, k) ==> #[trigger] move_value(
                    rows,
                    queue,
                    ply,
                    weights,
                    k,
                    j,
                ) <= best
            &&& best == lowest() || exists|k: int, j: int|
                0 <= k < tried && 0 <= j < moves_of(rows, queue, ply, k) && best
                    == #[trigger] move_value(rows, queue, ply, weights, k, j)
        }),
{
    lemma_best_of_rotations(rows, queue, ply, weights, allowed(queue[ply]).len() as int);
}

/// A move, as the rotation and the number of columns to shift to the right
/// (to the left where it is negative), with the value that it reaches.
#[derive(Clone, Copy, Debug, PartialEq, Eq, Structural)]
pub struct Candidate {
    pub value: i64,
    pub offset: i32,
    pub rotation: Rotation,
}

impl Candidate {
    /// What stands for no move at all: the lowest value, no shift and no turn.
    pub open spec fn nothing() -> Candidate {
        Candidate { value: i64::MIN, offset: 0, rotation: Rotation::Identity }
    }

    /// Of a candidate and one that comes after it, the one to prefer: the later
    /// one only where its value is higher.
    pub open spec fn preferred(self, next: Candidate) -> Candidate {
        if next.value > self.value {
            next
        } else {
            self
        }
    }

    /// What stands for no move at all.
    pub fn none() -> (candidate: Candidate)
        ensures
            candidate == Candidate::nothing(),
    {
        Candidate { value: i64::MIN, offset: 0, rotation: Rotation::Identity }
    }

    /// Of this candidate and one that comes after it, the one to prefer.
    pub fn better(self, next: Candidate) -> (candidate: Candidate)
        ensures
            candidate == self.preferred(next),
    {
        if next.value > self.value {
            next
        } else {
            self
        }
    }
}

/// The candidate that the `n`-th move of the falling figure in the given rotation makes.
#[verifier::opaque]
pub open spec fn candidate_of(
    rows: Seq<u32>,
    queue: Seq<FigureType>,
    weights: Weights,
    anchor: Point,
    rotation: Rotation,
    n: int,
) -> Candidate {
    let shape = canonical(queue[0]).rotated(rotation);
    let center = valid_moves_of(rows, shape)[n];
    Candidate {
        value: branch_value(toggled(rows, shape, center), queue, 0, weights) as i64,
        offset: (center.x - anchor.x) as i32,
        rotation,
    }
}

/// The candidate preferred among `start` and the first `n` moves of the
/// falling figure in the given rotation, taken by ascending column.
pub open spec fn pick_of_moves(
    start: Candidate,
    rows: Seq<u32>,
    queue: Seq<FigureType>,
    weights: Weights,
    anchor: Point,
    rotation: Rotation,
    n: int,
) -> Candidate
    decreases n,
{
    if n <= 0 {
        start
    } else {
        pick_of_moves(start, rows, queue, weights, anchor, rotation, n - 1).preferred(
            candidate_of(rows, queue, weights, anchor, rotation, n - 1),
        )
    }
}

/// The candidate preferred among all moves of the falling figure in the first
/// `n` of its rotations.
pub open spec fn pick_of_rotations(
    rows: Seq<u32>,
    queue: Seq<FigureType>,
    weights: Weights,
    anchor: Point,
    n: int,
) -> Candidate
    decreases n,
{
    if n <= 0 {
        Candidate::nothing()
    } else {
        let rotation = allowed(queue[0])[n - 1];
        pick_of_moves(
            pick_of_rotations(rows, queue, weights, anchor, n - 1),
            rows,
            queue,
            weights,
            anchor,
            rotation,
            valid_moves_of(rows, canonical(queue[0]).rotated(rotation)).len() as int,
        )
    }
}

/// The number of moves that the falling figure has in the `k`-th of its rotations.
pub open spec fn moves_in(rows: Seq<u32>, queue: Seq<FigureType>, k: int) -> int {
    valid_moves_of(rows, canonical(queue[0]).rotated(allowed(queue[0])[k])).len() as int
}

/// The candidate that the `j`-th move of the falling figure in the `k`-th of its rotations makes.
pub open spec fn nth_candidate(
    rows: Seq<u32>,
    queue: Seq<FigureType>,
    weights: Weights,
    anchor: Point,
    k: int,
    j: int,
) -> Candidate {
    candidate_of(rows, queue, weights, anchor, allowed(queue[0])[k], j)
}

/// Whether the move `b` of rotation `a` comes before the move `j` of rotation
/// `k`: an earlier rotation, or the same rotation and an earlier column.
pub open spec fn comes_before(a: int, b: int, k: int, j: int) -> bool {
    a < k || (a == k && b < j)
}

/// Whether the move `j` of one rotation is the first of its moves with a value
/// above all that came before it and above the start.
pub open spec fn leads_rotation(
    start: Candidate,
    rows: Seq<u32>,
    queue: Seq<FigureType>,
    weights: Weights,
    anchor: Point,
    rotation: Rotation,
    j: int,
) -> bool {
    &&& start.value < candidate_of(rows, queue, weights, anchor, rotation, j).value
    &&& forall|i: int|
        0 <= i < j ==> (#[trigger] candidate_of(rows, queue, weights, anchor, rotation, i)).value
            < candidate_of(rows, queue, weights, anchor, rotation, j).value
}

/// What is preferred among a start and the moves of one rotation: its value is
/// no lower than the start's or any move's, and it is the start unless a move
/// has a higher value, and then the first of the moves with the highest value.
pub proof fn lemma_pick_of_moves(
    start: Candidate,
    rows: Seq<u32>,
    queue: Seq<FigureType>,
    weights: Weights,
    anchor: Point,
    rotation: Rotation,
    n: int,
)
    requires
        0 <= n,
    ensures
        ({
            let chosen = pick_of_moves(start, rows, queue, weights, anchor, rotation, n);
            &&& chosen.value >= start.value
            &&& forall|j: int|
                0 <= j < n ==> (#[trigger] candidate_of(
                    rows,
                    queue,
                    weights,
                    anchor,
                    rotation,
                    j,
                )).value <= chosen.value
            &&& chosen == start || exists|j: int|
                0 <= j < n && chosen == candidate_of(rows, queue, weights, anchor, rotation, j)
                    && #[trigger] leads_rotation(start, rows, queue, weights, anchor, rotation, j)
        }),
    decreases n,
{
    if n > 0 {
        lemma_pick_of_moves(start, rows, queue, weights, anchor, rotation, n - 1);
        let before = pick_of_moves(start, rows, queue, weights, anchor, rotation, n - 1);
        let last = candidate_of(rows, queue, weights, anchor, rotation, n - 1);
        let chosen = pick_of_moves(start, rows, queue, weights, anchor, rotation, n);
        assert(chosen == before.preferred(last));
        if last.value > before.value {
            assert(leads_rotation(start, rows, queue, weights, anchor, rotation, n - 1));
        } else if before != start {
            let j = choose|j: int|
                0 <= j < n - 1 && before == candidate_of(rows, queue, weights, anchor, rotation, j)
                    && #[trigger] leads_rotation(start, rows, queue, weights, anchor, rotation, j);
            assert(leads_rotation(start, rows, queue, weights, anchor, rotation, j));
        }
    }
}

/// No move of the falling figure has a higher value than the one that is chosen.
pub proof fn lemma_chosen_is_highest(
    rows: Seq<u32>,
    queue: Seq<FigureType>,
    weights: Weights,
    anchor: Point,
    n: int,
)
    requires
        0 <= n,
    ensures
        forall|k: int, j: int|
            0 <= k < n && 0 <= j < moves_in(rows, queue, k) ==> (#[trigger] nth_candidate(
                rows,
                queue,
                weights,
                anchor,
                k,
                j,
            )).value <= pick_of_rotations(rows, queue, weights, anchor, n).value,
    decreases n,
{
    if n > 0 {
        lemma_chosen_is_highest(rows, queue, weights, anchor, n - 1);
        let start = pick_of_rotations(rows, queue, weights, anchor, n - 1);
        let rotation = allowed(queue[0])[n - 1];
        let count = moves_in(rows, queue, n - 1);
        let chosen = pick_of_rotations(rows, queue, weights, anchor, n);
        lemma_pick_of_moves(start, rows, queue, weights, anchor, rotation, count);
        assert(chosen == pick_of_moves(start, rows, queue, weights, anchor, rotation, count));
        assert forall|k: int, j: int|
            0 <= k < n && 0 <= j < moves_in(rows, queue, k) implies (#[trigger] nth_candidate(
            rows,
            queue,
            weights,
            anchor,
            k,
            j,
        )).value <= chosen.value by {
            if k == n - 1 {
                assert(candidate_of(rows, queue, weights, anchor, rotation, j).value
                    <= chosen.value);
            } else {
                assert(nth_candidate(rows, queue, weights, anchor, k, j).value <= start.value);
            }
        }
    }
}

/// Whether the move `j` of rotation `k` has more than the lowest value, and
/// more than every move that comes before it.
pub open spec fn leads(
    rows: Seq<u32>,
    queue: Seq<FigureType>,
    weights: Weights,
    anchor: Point,
    k: int,
    j: int,
) -> bool {
    &&& nth_candidate(rows, queue, weights, anchor, k, j).value > i64::MIN
    &&& forall|a: int, b: int|
        0 <= a && 0 <= b < moves_in(rows, queue, a) && comes_before(a, b, k, j) ==> (
        #[trigger] nth_candidate(rows, queue, weights, anchor, a, b)).value < nth_candidate(
            rows,
            queue,
            weights,
            anchor,
            k,
            j,
        ).value
}

/// The move that the search chooses is, of the moves of the falling figure
/// with the highest value, the first: first by the order in which the
/// rotations are tried, then by column. Where there is no move, or none with
/// more than the lowest value, it is no move at all.
pub proof fn lemma_first_of_the_best(
    rows: Seq<u32>,
    queue: Seq<FigureType>,
    weights: Weights,
    anchor: Point,
    n: int,
)
    requires
        0 <= n,
    ensures
        ({
            let chosen = pick_of_rotations(rows, queue, weights, anchor, n);
            chosen == Candidate::nothing() || exists|k: int, j: int|
                0 <= k < n && 0 <= j < moves_in(rows, queue, k) && chosen == nth_candidate(
                    rows,
                    queue,
                    weights,
                    anchor,
                    k,
                    j,
                ) && #[trigger] leads(rows, queue, weights, anchor, k, j)
        }),
    decreases n,
{
    if n > 0 {
        lemma_first_of_the_best(rows, queue, weights, anchor, n - 1);
        lemma_chosen_is_highest(rows, queue, weights, anchor, n - 1);
        let start = pick_of_rotations(rows, queue, weights, anchor, n - 1);
        let rotation = allowed(queue[0])[n - 1];
        let count = moves_in(rows, queue, n - 1);
        let chosen = pick_of_rotations(rows, queue, weights, anchor, n);
        lemma_pick_of_moves(start, rows, queue, weights, anchor, rotation, count);
        assert(chosen == pick_of_moves(start, rows, queue, weights, anchor, rotation, count));
        if chosen == start {
            if start != Candidate::nothing() {
                let (k, j) = choose|k: int, j: int|
                    0 <= k < n - 1 && 0 <= j < moves_in(rows, queue, k) && start == nth_candidate(
                        rows,
                        queue,
                        weights,
                        anchor,
                        k,
                        j,
                    ) && #[trigger] leads(rows, queue, weights, anchor, k, j);
                assert(leads(rows, queue, weights, anchor, k, j));
            }
        } else {
            let j = choose|j: int|
                0 <= j < count && chosen == candidate_of(rows, queue, weights, anchor, rotation, j)
                    && #[trigger] leads_rotation(start, rows, queue, weights, anchor, rotation, j);
            assert(chosen == nth_candidate(rows, queue, weights, anchor, n - 1, j));
            assert forall|a: int, b: int|
                0 <= a && 0 <= b < moves_in(rows, queue, a) && comes_before(
                    a,
                    b,
                    n - 1,
                    j,
                ) implies (#[trigger] nth_candidate(rows, queue, weights, anchor, a, b)).value
                < chosen.value by {
                if a == n - 1 {
                    assert(candidate_of(rows, queue, weights, anchor, rotation, b).value
                        < chosen.value);
                } else {
                    assert(nth_candidate(rows, queue, weights, anchor, a, b).value <= start.value);
                }
            }
            assert(leads(rows, queue, weights, anchor, n - 1, j));
        }
    }
}

/// The number of rows that are at least half filled, and not full.
pub open spec fn half_rows(rows: Seq<u32>) -> int {
    count_where(
        |y: int| rows[y] != FULL_ROW && count_bits(rows[y], BOARD_WIDTH as int) >= 9,
        BOARD_HEIGHT as int,
    )
}

/// How many rows are ready, counted in half rows: a full row counts two, a
/// row that is at least half filled counts one.
pub open spec fn ready_rows(rows: Seq<u32>) -> int {
    2 * full_rows(rows) + half_rows(rows)
}

/// The move that the shortcut makes: the bar, not turned, goes to a side wall.
pub open spec fn shortcut_move(anchor: Point, shortcut: Shortcut) -> (int, Rotation) {
    if shortcut.to_left {
        (canonical(FigureType::I).left() - anchor.x, Rotation::Identity)
    } else {
        (BOARD_WIDTH - 1 - canonical(FigureType::I).right() - anchor.x, Rotation::Identity)
    }
}

/// The well without the falling figure: the snapshot shows the figure in the
/// well, so its cells are toggled away before anything is tried.
pub open spec fn lifted(glass: Seq<u32>, queue: Seq<FigureType>, anchor: Point) -> Seq<u32> {
    toggled(glass, canonical(queue[0]), anchor)
}

/// The move that is chosen for the falling figure. Where the settings hold a
/// shortcut, the falling figure is the long bar and enough rows are ready, it
/// is the shortcut's move. Else it is, of the moves of the falling figure with
/// the highest value, the first in the order of the rotations tried and, within
/// a rotation, of the columns; and no shift and no turn where there is no move
/// or none has more than the lowest value.
pub open spec fn best_move(
    glass: Seq<u32>,
    queue: Seq<FigureType>,
    anchor: Point,
    settings: Settings,
) -> (int, Rotation) {
    let rows = lifted(glass, queue, anchor);
    match settings.shortcut {
        Some(shortcut) if queue[0] == FigureType::I && ready_rows(rows) >= shortcut.rows => shortcut_move(
            anchor,
            shortcut,
        ),
        _ => {
            let chosen = pick_of_rotations(
                rows,
                queue,
                settings.weights,
                anchor,
                allowed(queue[0]).len() as int,
            );
            (chosen.offset as int, chosen.rotation)
        },
    }
}

/// The queue that a snapshot gives: the falling figure, and of those to come
/// as many as the search looks at, or all of them where they are fewer.
pub open spec fn loaded(current: FigureType, future: Seq<FigureType>, depth: int) -> Seq<FigureType> {
    seq![current] + future.subrange(
        0,
        if future.len() < depth - 1 {
            future.len() as int
        } else {
            depth - 1
        },
    )
}

/// The commands for a move: the turn, if there is one; then one shift for each
/// column, all to the same side; then eighteen times down.
pub open spec fn batch(offset: int, rotation: Rotation) -> Seq<Command> {
    (if rotation != Rotation::Identity {
        seq![<Command as vstd::std_specs::convert::FromSpec<Rotation>>::from_spec(rotation)]
    } else {
        Seq::<Command>::empty()
    }) + Seq::new(
        (if offset < 0 {
            -offset
        } else {
            offset
        }) as nat,
        |i: int|
            if offset < 0 {
                Command::Left
            } else {
                Command::Right
            },
    ) + Seq::new(BOARD_HEIGHT as nat, |i: int| Command::Down)
}

/// Every rotation that is tried for the square leaves its matrix and its
/// extents as they are.
pub proof fn lemma_square_symmetry(rotation: Rotation)
    requires
        allowed(FigureType::O).contains(rotation),
    ensures
        canonical(FigureType::O).rotated(rotation) == canonical(FigureType::O),
{
    let i = choose|i: int| 0 <= i < allowed(FigureType::O).len() && allowed(FigureType::O)[i] == rotation;
    assert(allowed(FigureType::O)[i] == Rotation::Identity);
}

/// The strategy: it looks a few figures ahead and takes the move from which
/// the best score can be reached.
pub struct Solver {
    next_figures: Vec<FigureType>,
    center: Point,
    settings: Settings,
    evaluator: Evaluator,
}

impl Solver {
    /// The falling figure and those to come that the search looks at.
    pub closed spec fn queue(&self) -> Seq<FigureType> {
        self.next_figures@
    }

    /// The centre of the falling figure.
    pub closed spec fn anchor(&self) -> Point {
        self.center
    }

    /// The settings that the solver was made with.
    pub closed spec fn settings(&self) -> Settings {
        self.settings
    }

    /// The evaluator that the solver lends to its simulators.
    pub closed spec fn evaluator(&self) -> Evaluator {
        self.evaluator
    }

    /// The queue holds the falling figure and no more figures than the search
    /// looks at, the evaluator is made for the weights of the settings, and the
    /// centre of the falling figure is legal.
    pub open spec fn wf(&self) -> bool {
        &&& self.settings().wf()
        &&& 1 <= self.queue().len() <= self.settings().depth
        &&& self.evaluator().wf()
        &&& self.evaluator()@ == self.settings().weights
        &&& fits(canonical(self.queue()[0]), self.anchor())
    }

    /// The rotations that are tried for a kind of figure.
    pub fn rotations(ty: FigureType) -> (list: Vec<Rotation>)
        ensures
            list@ == allowed(ty),
    {
        let list = match ty {
            FigureType::I => vec![Rotation::Identity, Rotation::Left],
            FigureType::O => vec![Rotation::Identity],
            FigureType::L => vec![Rotation::Identity, Rotation::Left, Rotation::Flip, Rotation::Right],
            FigureType::J => vec![Rotation::Identity, Rotation::Left, Rotation::Flip, Rotation::Right],
            FigureType::S => vec![Rotation::Identity, Rotation::Left],
            FigureType::Z => vec![Rotation::Identity, Rotation::Left],
            FigureType::T => vec![Rotation::Identity, Rotation::Left, Rotation::Flip, Rotation::Right],
        };
        assert(list@ =~= allowed(ty));
        list
    }

    /// The value of one move of the figure of ply `depth`: the figure is
    /// placed, the rest of the queue is searched, and the figure is taken away again.
    pub fn branch(&self, simulator: &mut Simulator, figure: &Figure, center: Point, depth: usize) -> (value: i64)
        requires
            self.wf(),
            old(simulator).wf(),
            old(simulator).evaluator() == self.evaluator(),
            depth < self.queue().len(),
            figure@.wf(),
            fits(figure@, center),
        ensures
            value == branch_value(
                toggled(old(simulator)@, figure@, center),
                self.queue(),
                depth as int,
                self.settings().weights,
            ),
            final(simulator)@ == old(simulator)@,
            final(simulator).evaluator() == old(simulator).evaluator(),
            final(simulator).wf(),
        decreases self.queue().len() - depth, 0int,
    {
        simulator.place_figure(figure, center);
        let value = if depth == self.next_figures.len() - 1 {
            simulator.evaluate()
        } else {
            self.search(simulator, depth + 1)
        };
        simulator.unplace_figure(figure, center);
        proof {
            lemma_toggled_twice(old(simulator)@, figure@, center);
        }
        value
    }

    /// The best value that the figures of the queue from ply `depth` on can
    /// reach from the well as it stands. The well is left as it was found.
    pub fn search(&self, simulator: &mut Simulator, depth: usize) -> (best: i64)
        requires
            self.wf(),
            old(simulator).wf(),
            old(simulator).evaluator() == self.evaluator(),
            depth < self.queue().len(),
        ensures
            best == best_value(old(simulator)@, self.queue(), depth as int, self.settings().weights),
            final(simulator)@ == old(simulator)@,
            final(simulator).evaluator() == old(simulator).evaluator(),
            final(simulator).wf(),
        decreases self.queue().len() - depth, 1int,
    {
        let ghost rows = simulator@;
        let ghost queue = self.queue();
        let ghost weights = self.settings().weights;
        let mut best_evaluation = i64::MIN;
        let figure_type = self.next_figures[depth];
        let figure = Figure::from(figure_type);
        let rotations = Self::rotations(figure_type);
        let mut k: usize = 0;
        while k < rotations.len()
            invariant
                self.wf(),
                simulator.wf(),
                simulator.evaluator() == self.evaluator(),
                simulator@ == rows,
                queue == self.queue(),
                weights == self.settings().weights,
                depth < queue.len(),
                figure_type == queue[depth as int],
                figure@ == canonical(figure_type),
                figure@.wf(),
                rotations@ == allowed(figure_type),
                k <= rotations.len(),
                best_evaluation == best_of_rotations(rows, queue, depth as int, weights, k as int),
            decreases rotations.len() - k,
        {
            let mut turned = figure;
            turned.rotate(rotations[k]);
            let moves = simulator.valid_moves(&turned);
            let ghost before = best_evaluation as int;
            let mut j: usize = 0;
            while j < moves.len()
                invariant
                    self.wf(),
                    simulator.wf(),
                    simulator.evaluator() == self.evaluator(),
                    simulator@ == rows,
                    queue == self.queue(),
                    weights == self.settings().weights,
                    depth < queue.len(),
                    turned@.wf(),
                    moves@ == valid_moves_of(rows, turned@),
                    forall|i: int| 0 <= i < moves@.len() ==> fits(turned@, #[trigger] moves@[i]),
                    j <= moves.len(),
                    best_evaluation == larger(
                        before,
                        best_of_moves(rows, queue, depth as int, weights, turned@, j as int),
                    ),
                decreases moves.len() - j,
            {
                let evaluation = self.branch(simulator, &turned, moves[j], depth);
                if evaluation > best_evaluation {
                    best_evaluation = evaluation;
                }
                j += 1;
            }
            k += 1;
        }
        best_evaluation
    }

    /// A solver with the default settings. Until a snapshot is loaded its queue
    /// holds long bars and the falling one has its centre in the bottom left corner.
    pub fn new() -> (solver: Solver)
        ensures
            solver.wf(),
            solver.settings().depth == SIMULATION_DEPTH,
            solver.settings().weights == default_weights(),
            solver.settings().shortcut.is_none(),
            solver.queue() == Seq::new(SIMULATION_DEPTH as nat, |i: int| FigureType::I),
            solver.anchor() == (Point { x: 0, y: 0 }),
    {
        Self::with_settings(Settings::default())
    }

    /// A solver with the given settings.
    pub fn with_settings(settings: Settings) -> (solver: Solver)
        requires
            settings.wf(),
        ensures
            solver.wf(),
            solver.settings() == settings,
            solver.queue() == Seq::new(settings.depth as nat, |i: int| FigureType::I),
            solver.anchor() == (Point { x: 0, y: 0 }),
    {
        let mut next_figures: Vec<FigureType> = Vec::new();
        let mut i: usize = 0;
        while i < settings.depth
            invariant
                i <= settings.depth,
                next_figures@ == Seq::new(i as nat, |i: int| FigureType::I),
            decreases settings.depth - i,
        {
            next_figures.push(FigureType::I);
            assert(next_figures@ =~= Seq::new((i + 1) as nat, |i: int| FigureType::I));
            i += 1;
        }
        proof {
            lemma_canonical_extents(FigureType::I);
        }
        Solver {
            next_figures,
            center: Point::new(0, 0),
            settings,
            evaluator: Evaluator::new(settings.weights),
        }
    }

    /// The kind of the falling figure.
    pub fn current_figure_type(&self) -> (ty: FigureType)
        requires
            self.wf(),
        ensures
            ty == self.queue()[0],
    {
        self.next_figures[0]
    }

    /// The centre of the falling figure.
    pub fn current_figure_point(&self) -> (center: Point)
        ensures
            center == self.anchor(),
    {
        self.center
    }

    /// Takes the falling figure, its centre and the figures to come from a snapshot.
    pub fn load(&mut self, board: &Board)
        requires
            old(self).wf(),
            board.wf(),
        ensures
            final(self).wf(),
            final(self).settings() == old(self).settings(),
            final(self).evaluator() == old(self).evaluator(),
            final(self).anchor() == board@.anchor,
            final(self).queue() == loaded(
                board@.current,
                board@.future,
                old(self).settings().depth as int,
            ),
    {
        let future = board.future_figures_types();
        let mut next_figures: Vec<FigureType> = Vec::new();
        next_figures.push(board.current_figure_type());
        let mut i: usize = 0;
        while i < future.len() && i < self.settings.depth - 1
            invariant
                self.settings.depth >= 1,
                i <= future@.len(),
                i <= self.settings.depth - 1,
                next_figures@ == seq![board@.current] + future@.subrange(0, i as int),
            decreases future@.len() - i,
        {
            next_figures.push(future[i]);
            assert(next_figures@ =~= seq![board@.current] + future@.subrange(0, i + 1));
            i += 1;
        }
        self.next_figures = next_figures;
        self.center = board.current_figure_point();
    }

    /// A simulator for the well of a snapshot, with the falling figure taken out of it.
    pub fn lift<'a>(&'a self, glass: &Glass) -> (simulator: Simulator<'a>)
        requires
            self.wf(),
            glass.wf(),
        ensures
            simulator@ == lifted(glass@, self.queue(), self.anchor()),
            simulator.evaluator() == self.evaluator(),
            simulator.wf(),
    {
        let figure = Figure::from(self.next_figures[0]);
        let mut simulator = Simulator::new(glass, &self.evaluator);
        simulator.unplace_figure(&figure, self.center);
        simulator
    }

    /// The move of the shortcut, where the settings hold one, the falling
    /// figure is the long bar and enough rows of the well are ready.
    pub fn shortcut(&self, simulator: &Simulator) -> (choice: Option<(i32, Rotation)>)
        requires
            self.wf(),
            simulator.wf(),
        ensures
            match self.settings().shortcut {
                Some(shortcut) if self.queue()[0] == FigureType::I && ready_rows(simulator@)
                    >= shortcut.rows => choice.is_some() && (
                choice.unwrap().0 as int,
                choice.unwrap().1,
                ) == shortcut_move(self.anchor(), shortcut),
                _ => choice.is_none(),
            },
    {
        match self.settings.shortcut {
            Some(shortcut) => {
                if !matches!(self.next_figures[0], FigureType::I) {
                    return None;
                }
                let glass = simulator.glass();
                let mut ready: u32 = 0;
                for y in 0..BOARD_HEIGHT
                    invariant
                        self.wf(),
                        rows_wf(glass@),
                        glass@ == simulator@,
                        ready == 2 * count_where(|k: int| glass@[k] == FULL_ROW, y as int)
                            + count_where(
                            |k: int|
                                glass@[k] != FULL_ROW && count_bits(glass@[k], BOARD_WIDTH as int)
                                    >= 9,
                            y as int,
                        ),
                        ready <= 2 * y,
                {
                    let row = glass.get_row(y);
                    if row == FULL_ROW {
                        ready += 2;
                    } else if self.evaluator.count_ones(row) >= 9 {
                        ready += 1;
                    }
                }
                if ready < shortcut.rows {
                    return None;
                }
                let bar = Figure::from(FigureType::I);
                proof {
                    lemma_canonical_extents(FigureType::I);
                }
                if shortcut.to_left {
                    Some((bar.left() - self.center.x, Rotation::Identity))
                } else {
                    Some((BOARD_WIDTH_I32 - 1 - bar.right() - self.center.x, Rotation::Identity))
                }
            },
            None => None,
        }
    }

    /// Hands the moves of the falling figure out to worker threads: rayon's
    /// `par_iter` over the moves, `map_with` with the simulator, and `collect`
    /// into a vector. Believed of them: every move is handed, with a copy of the
    /// simulator, to one call of `branch`, and the vector holds what the calls
    /// returned in the order of the moves. `branch` leaves the copy that it
    /// worked on as it found it, so each call meets the same well.
    #[verifier::external_body]
    fn values_of(&self, simulator: &Simulator, figure: &Figure, moves: &Vec<Point>) -> (values: Vec<
        i64,
    >)
        requires
            self.wf(),
            simulator.wf(),
            simulator.evaluator() == self.evaluator(),
            figure@.wf(),
            forall|i: int| 0 <= i < moves@.len() ==> fits(figure@, #[trigger] moves@[i]),
        ensures
            values@.len() == moves@.len(),
            forall|i: int|
                0 <= i < moves@.len() ==> #[trigger] values@[i] == branch_value(
                    toggled(simulator@, figure@, moves@[i]),
                    self.queue(),
                    0,
                    self.settings().weights,
                ),
    {
        moves
            .par_iter()
            .map_with(*simulator, |simulator, center| self.branch(simulator, figure, *center, 0))
            .collect()
    }

    /// The move for the falling figure: how many columns to shift it to the
    /// right (to the left where the number is negative), and how to turn it.
    /// The moves of the falling figure are valued by worker threads, each on a
    /// copy of the simulator; the choice among them is made here, in the order
    /// of the moves, so that it does not depend on which worker ends first.
    pub fn find_best_move(&self, glass: &Glass) -> (choice: (i32, Rotation))
        requires
            self.wf(),
            glass.wf(),
        ensures
            (choice.0 as int, choice.1) == best_move(
                glass@,
                self.queue(),
                self.anchor(),
                self.settings(),
            ),
            -BOARD_WIDTH < choice.0 < BOARD_WIDTH,
    {
        let mut simulator = self.lift(glass);
        match self.shortcut(&simulator) {
            Some(choice) => {
                proof {
                    lemma_canonical_extents(FigureType::I);
                }
                return choice;
            },
            None => {},
        }
        let ghost rows = simulator@;
        let ghost queue = self.queue();
        let ghost weights = self.settings().weights;
        let mut best = Candidate::none();
        let figure_type = self.next_figures[0];
        let figure = Figure::from(figure_type);
        let rotations = Self::rotations(figure_type);
        let mut k: usize = 0;
        while k < rotations.len()
            invariant
                self.wf(),
                simulator.wf(),
                simulator.evaluator() == self.evaluator(),
                simulator@ == rows,
                queue == self.queue(),
                weights == self.settings().weights,
                figure_type == queue[0],
                figure@ == canonical(figure_type),
                figure@.wf(),
                rotations@ == allowed(figure_type),
                k <= rotations.len(),
                best == pick_of_rotations(rows, queue, weights, self.anchor(), k as int),
                -BOARD_WIDTH < best.offset < BOARD_WIDTH,
            decreases rotations.len() - k,
        {
            let rotation = rotations[k];
            let mut turned = figure;
            turned.rotate(rotation);
            let moves = simulator.valid_moves(&turned);
            let values = self.values_of(&simulator, &turned, &moves);
            let ghost before = best;
            let mut j: usize = 0;
            while j < moves.len()
                invariant
                    queue == self.queue(),
                    weights == self.settings().weights,
                    simulator@ == rows,
                    turned@ == canonical(queue[0]).rotated(rotation),
                    moves@ == valid_moves_of(rows, turned@),
                    values@.len() == moves@.len(),
                    forall|i: int|
                        0 <= i < moves@.len() ==> #[trigger] values@[i] == branch_value(
                            toggled(rows, turned@, moves@[i]),
                            queue,
                            0,
                            weights,
                        ),
                    forall|i: int|
                        0 <= i < moves@.len() ==> 0 <= (#[trigger] moves@[i]).x < BOARD_WIDTH,
                    0 <= self.anchor().x < BOARD_WIDTH,
                    j <= moves.len(),
                    best == pick_of_moves(
                        before,
                        rows,
                        queue,
                        weights,
                        self.anchor(),
                        rotation,
                        j as int,
                    ),
                    -BOARD_WIDTH < best.offset < BOARD_WIDTH,
                decreases moves.len() - j,
            {
                let mov = moves[j];
                proof {
                    reveal(candidate_of);
                }
                best = best.better(
                    Candidate { value: values[j], offset: mov.x - self.center.x, rotation },
                );
                j += 1;
            }
            k += 1;
        }
        (best.offset, best.rotation)
    }

    /// The move for the falling figure, found on the calling thread alone.
    pub fn find_best_move_sequential(&self, glass: &Glass) -> (choice: (i32, Rotation))
        requires
            self.wf(),
            glass.wf(),
        ensures
            (choice.0 as int, choice.1) == best_move(
                glass@,
                self.queue(),
                self.anchor(),
                self.settings(),
            ),
            -BOARD_WIDTH < choice.0 < BOARD_WIDTH,
    {
        let mut simulator = self.lift(glass);
        match self.shortcut(&simulator) {
            Some(choice) => {
                proof {
                    lemma_canonical_extents(FigureType::I);
                }
                return choice;
            },
            None => {},
        }
        let ghost rows = simulator@;
        let ghost queue = self.queue();
        let ghost weights = self.settings().weights;
        let mut best = Candidate::none();
        let figure_type = self.next_figures[0];
        let figure = Figure::from(figure_type);
        let rotations = Self::rotations(figure_type);
        let mut k: usize = 0;
        while k < rotations.len()
            invariant
                self.wf(),
                simulator.wf(),
                simulator.evaluator() == self.evaluator(),
                simulator@ == rows,
                queue == self.queue(),
                weights == self.settings().weights,
                figure_type == queue[0],
                figure@ == canonical(figure_type),
                figure@.wf(),
                rotations@ == allowed(figure_type),
                k <= rotations.len(),
                best == pick_of_rotations(rows, queue, weights, self.anchor(), k as int),
                -BOARD_WIDTH < best.offset < BOARD_WIDTH,
            decreases rotations.len() - k,
        {
            let rotation = rotations[k];
            let mut turned = figure;
            turned.rotate(rotation);
            let moves = simulator.valid_moves(&turned);
            let ghost before = best;
            let mut j: usize = 0;
            while j < moves.len()
                invariant
                    self.wf(),
                    simulator.wf(),
                    simulator.evaluator() == self.evaluator(),
                    simulator@ == rows,
                    queue == self.queue(),
                    weights == self.settings().weights,
                    turned@.wf(),
                    turned@ == canonical(queue[0]).rotated(rotation),
                    moves@ == valid_moves_of(rows, turned@),
                    forall|i: int| 0 <= i < moves@.len() ==> fits(turned@, #[trigger] moves@[i]),
                    j <= moves.len(),
                    best == pick_of_moves(
                        before,
                        rows,
                        queue,
                        weights,
                        self.anchor(),
                        rotation,
                        j as int,
                    ),
                    -BOARD_WIDTH < best.offset < BOARD_WIDTH,
                decreases moves.len() - j,
            {
                let mov = moves[j];
                let value = self.branch(&mut simulator, &turned, mov, 0);
                proof {
                    reveal(candidate_of);
                }
                best = best.better(Candidate { value, offset: mov.x - self.center.x, rotation });
                j += 1;
            }
            k += 1;
        }
        (best.offset, best.rotation)
    }

    /// Adds the commands for a move.
    pub fn emit(commands: &mut engine::Commands<Command>, offset: i32, rotation: Rotation)
        requires
            -BOARD_WIDTH < offset < BOARD_WIDTH,
        ensures
            final(commands)@ == old(commands)@ + batch(offset as int, rotation),
    {
        let ghost start = commands@;
        if rotation != Rotation::Identity {
            commands.add(Command::from(rotation));
        }
        let ghost turn = commands@;
        let command = if offset < 0 {
            Command::Left
        } else {
            Command::Right
        };
        let shifts = if offset < 0 {
            -offset
        } else {
            offset
        };
        for i in 0..shifts
            invariant
                commands@ == turn + Seq::new(i as nat, |k: int| command),
        {
            commands.add(command);
            assert(commands@ =~= turn + Seq::new((i + 1) as nat, |k: int| command));
        }
        let ghost shifted = commands@;
        for i in 0..BOARD_HEIGHT
            invariant
                commands@ == shifted + Seq::new(i as nat, |k: int| Command::Down),
        {
            commands.add(Command::Down);
            assert(commands@ =~= shifted + Seq::new((i + 1) as nat, |k: int| Command::Down));
        }
        assert(commands@ =~= start + batch(offset as int, rotation));
    }
}

impl engine::Solver<Command, Board> for Solver {
    open spec fn ready(&self) -> bool {
        self.wf()
    }

    /// The snapshots with a well-formed well and a legal centre for the falling figure.
    open spec fn accepts(&self, board: &Board) -> bool {
        board.wf()
    }

    /// Asks for the arena to be cleared.
    fn start(&mut self, commands: &mut engine::Commands<Command>)
        ensures
            final(commands)@ == old(commands)@.push(Command::Clear),
            final(self).queue() == old(self).queue(),
            final(self).anchor() == old(self).anchor(),
            final(self).settings() == old(self).settings(),
    {
        commands.add(Command::Clear)
    }

    /// Loads the snapshot and adds the commands for the move that is chosen.
    fn solve(&mut self, commands: &mut engine::Commands<Command>, board: &Board)
        ensures
            final(self).settings() == old(self).settings(),
            final(self).anchor() == board@.anchor,
            final(self).queue() == loaded(
                board@.current,
                board@.future,
                old(self).settings().depth as int,
            ),
            final(commands)@ == old(commands)@ + batch(
                best_move(
                    board@.glass,
                    final(self).queue(),
                    board@.anchor,
                    old(self).settings(),
                ).0,
                best_move(
                    board@.glass,
                    final(self).queue(),
                    board@.anchor,
                    old(self).settings(),
                ).1,
            ),
    {
        self.load(board);
        let (offset, rotation) = self.find_best_move(board.glass());
        Self::emit(commands, offset, rotation);
    }
}

} // verus!
