use vstd::prelude::*;
use vstd::string::*;
use crate::games::tetris::figure::{Figure, canonical};
use crate::games::tetris::simulator::{fits, fits_at};
use crate::games::tetris::bits::{
    bit, pack, lemma_bit_logic, lemma_bit_shl, lemma_bit_shr, lemma_bit_unit, lemma_low_bit,
    lemma_is_pack, lemma_pack_bits, lemma_high_bits_clear, lemma_width_bounds,
};

verus! {

/// Number of columns of the well.
pub const BOARD_WIDTH: usize = 18;

/// Number of rows of the well.
pub const BOARD_HEIGHT: usize = 18;

/// Number of columns of the well, for use with coordinates.
pub const BOARD_WIDTH_I32: i32 = 18;

/// Number of rows of the well, for use with coordinates.
pub const BOARD_HEIGHT_I32: i32 = 18;

/// A row with every column filled.
pub const FULL_ROW: u32 = 0x3FFFF;

/// A board coordinate: `x` counts columns from the left, `y` rows from the bottom.
#[derive(Clone, Copy, Debug, PartialEq, Eq, Structural)]
pub struct Point {
    pub x: i32,
    pub y: i32,
}

/// How far the player has come; the search does not look at it.
#[derive(Clone, Copy, Debug, PartialEq, Eq, Structural)]
pub struct LevelProgress {
    pub total: i32,
    pub current: i32,
    pub last_passed: i32,
}

/// The seven tetromino kinds.
#[derive(Clone, Copy, Debug, PartialEq, Eq, Structural)]
pub enum FigureType {
    I,
    O,
    L,
    J,
    S,
    Z,
    T,
}

impl Point {
    /// The point with the given coordinates.
    pub fn new(x: i32, y: i32) -> (p: Point)
        ensures
            p == (Point { x, y }),
    {
        Point { x, y }
    }
}

/// The rows of a well are eighteen words of at most eighteen bits each.
pub open spec fn rows_wf(rows: Seq<u32>) -> bool {
    &&& rows.len() == BOARD_HEIGHT
    &&& forall|y: int| 0 <= y < BOARD_HEIGHT ==> #[trigger] rows[y] <= FULL_ROW
}

/// Whether the cell in column `x` of row `y` is filled: bit `x` of row `y`.
/// Cells outside the well are not filled.
pub open spec fn filled(rows: Seq<u32>, x: int, y: int) -> bool {
    0 <= x < BOARD_WIDTH && 0 <= y < BOARD_HEIGHT && y < rows.len() && bit(rows[y], x)
}

/// Column `x` as a word: bit `y` says whether the cell in row `y` is filled.
pub open spec fn column(rows: Seq<u32>, x: int) -> u32 {
    pack(|y: int| filled(rows, x, y), BOARD_HEIGHT as int)
}

/// One past the highest filled row of column `x` among the rows below `n`; 0 if none is filled.
pub open spec fn top_of(rows: Seq<u32>, x: int, n: int) -> int
    decreases n,
{
    if n <= 0 {
        0
    } else if filled(rows, x, n - 1) {
        n
    } else {
        top_of(rows, x, n - 1)
    }
}

/// The height of column `x`: one past its highest filled row, 0 for an empty column.
pub open spec fn column_height(rows: Seq<u32>, x: int) -> int {
    top_of(rows, x, BOARD_HEIGHT as int)
}

/// What `top_of` returns: a filled cell just below it, none from it up to `n`.
pub proof fn lemma_top_of(rows: Seq<u32>, x: int, n: int)
    requires
        0 <= n,
    ensures
        0 <= top_of(rows, x, n) <= n,
        top_of(rows, x, n) > 0 ==> filled(rows, x, top_of(rows, x, n) - 1),
        forall|y: int| top_of(rows, x, n) <= y < n ==> !filled(rows, x, y),
    decreases n,
{
    if n > 0 && !filled(rows, x, n - 1) {
        lemma_top_of(rows, x, n - 1);
    }
}

/// Only one number has a filled cell just below it and none from it up to `n`.
pub proof fn lemma_top_of_unique(rows: Seq<u32>, x: int, n: int, h: int)
    requires
        0 <= h <= n,
        h > 0 ==> filled(rows, x, h - 1),
        forall|y: int| h <= y < n ==> !filled(rows, x, y),
    ensures
        top_of(rows, x, n) == h,
    decreases n,
{
    if n > h {
        lemma_top_of_unique(rows, x, n - 1, h);
    }
}

/// A column is higher than `y` exactly when it is higher than `y + 1` or its
/// cell in row `y` is filled.
pub proof fn lemma_height_above(rows: Seq<u32>, x: int, y: int)
    requires
        0 <= y < BOARD_HEIGHT,
    ensures
        (column_height(rows, x) > y) == (column_height(rows, x) > y + 1 || filled(rows, x, y)),
{
    lemma_top_of(rows, x, BOARD_HEIGHT as int);
}

/// The height of a column read off its word: 32 less the number of leading zeros.
pub proof fn lemma_height_from_column(rows: Seq<u32>, x: int)
    ensures
        column_height(rows, x) == 32 - vstd::std_specs::bits::u32_leading_zeros(column(rows, x)),
{
    let col = column(rows, x);
    let lz = vstd::std_specs::bits::u32_leading_zeros(col);
    let h = 32 - lz;
    vstd::std_specs::bits::axiom_u32_leading_zeros(col);
    lemma_pack_bits(|y: int| filled(rows, x, y), BOARD_HEIGHT as int);
    if h > 0 {
        let top = (31 - lz) as u32;
        lemma_low_bit(col >> top);
        lemma_bit_shr(col, top);
        assert(bit(col >> top, 0) == bit(col, top as int));
        assert(bit(col, h - 1));
    }
    assert forall|y: int| h <= y < BOARD_HEIGHT implies !filled(rows, x, y) by {
        let j = y as u32;
        assert((col >> j) & 1u32 == 0u32);
        assert(!bit(col, y));
    }
    lemma_top_of_unique(rows, x, BOARD_HEIGHT as int, h);
}

/// The well: one word per row, row 0 at the bottom, bit `x` of a row for column `x`.
#[derive(Clone, Copy, Debug, PartialEq, Eq)]
pub struct Glass {
    layers: [u32; 18],
}

impl View for Glass {
    type V = Seq<u32>;

    closed spec fn view(&self) -> Seq<u32> {
        self.layers@
    }
}

impl Glass {
    /// No row holds a bit outside the eighteen columns.
    pub open spec fn wf(&self) -> bool {
        rows_wf(self@)
    }

    /// A well with no filled cell.
    pub fn empty() -> (g: Glass)
        ensures
            g.wf(),
            forall|y: int| 0 <= y < BOARD_HEIGHT ==> g@[y] == 0,
    {
        Glass { layers: [0; BOARD_HEIGHT] }
    }

    /// Row `y` as a word: bit `x` says whether the cell in column `x` is filled.
    pub fn get_row(&self, y: usize) -> (bits: u32)
        requires
            y < BOARD_HEIGHT,
        ensures
            bits == self@[y as int],
    {
        self.layers[y]
    }

    /// Puts a word of at most eighteen bits in the place of row `y`.
    pub fn set_row(&mut self, y: usize, val: u32)
        requires
            y < BOARD_HEIGHT,
            val <= FULL_ROW,
        ensures
            final(self)@ == old(self)@.update(y as int, val),
            old(self).wf() ==> final(self).wf(),
    {
        self.layers[y] = val;
    }

    /// Column `x` as a word: bit `y` says whether the cell in row `y` is filled.
    pub fn get_col(&self, x: usize) -> (bits: u32)
        requires
            x < BOARD_WIDTH,
        ensures
            bits == column(self@, x as int),
            bits <= FULL_ROW,
    {
        let mut col: u32 = 0;
        proof {
            lemma_bit_unit(0);
        }
        for y in 0..BOARD_HEIGHT
            invariant
                x < BOARD_WIDTH,
                forall|k: int| 0 <= k < 32 ==> bit(col, k) == (k < y && filled(self@, x as int, k)),
        {
            let row = self.layers[y];
            let cell = (row >> (x as u32)) & 1;
            proof {
                lemma_low_bit(row >> (x as u32));
                lemma_bit_shr(row, x as u32);
                assert(bit(row >> (x as u32), 0) == bit(row, x as int));
                lemma_bit_unit(cell);
                lemma_bit_shl(cell, y as u32);
                lemma_bit_logic(col, cell << (y as u32));
                assert forall|k: int| 0 <= k < 32 implies bit(col | (cell << (y as u32)), k) == (k
                    < y + 1 && filled(self@, x as int, k)) by {
                    assert(bit(cell << (y as u32), k) == (y <= k < 32 && bit(cell, k - y)));
                }
            }
            col |= cell << (y as u32);
        }
        proof {
            lemma_is_pack(col, |y: int| filled(self@, x as int, y), BOARD_HEIGHT as int);
            lemma_high_bits_clear(col, 18);
            lemma_width_bounds(col);
        }
        col
    }

    /// The height of column `x`: one past its highest filled row.
    pub fn height(&self, x: usize) -> (h: i32)
        requires
            x < BOARD_WIDTH,
        ensures
            h == column_height(self@, x as int),
            0 <= h <= BOARD_HEIGHT,
    {
        let col = self.get_col(x);
        proof {
            lemma_height_from_column(self@, x as int);
            lemma_top_of(self@, x as int, BOARD_HEIGHT as int);
            vstd::std_specs::bits::axiom_u32_leading_zeros(col);
        }
        (32 - col.leading_zeros()) as i32
    }
}

/// The byte that stands for an empty cell in a well's text; any other byte is a filled cell.
pub const EMPTY_CELL: u8 = 0x2E;

/// The number of bytes in a well's text: one per cell.
pub const TEXT_LEN: usize = 324;

/// A text that does not hold one byte for each cell of the well.
#[derive(Clone, Copy, Debug, PartialEq, Eq, Structural)]
pub struct FormatError {
    /// The number of bytes that the text holds.
    pub len: usize,
}

impl FormatError {
    /// The complaint in words.
    pub fn message(&self) -> (text: String)
        ensures
            text@ == "Board sizes are incorrect!"@,
    {
        String::from_str("Board sizes are incorrect!")
    }
}

/// Whether the text marks the cell in column `x` of the `line`-th line from the top as filled.
pub open spec fn marked(text: Seq<u8>, line: int, x: int) -> bool {
    text[line * BOARD_WIDTH + x] != EMPTY_CELL
}

/// The rows that a text of 324 bytes describes. The text runs line by line from the
/// top of the well, so its first line is row 17; within a line it runs from column 0.
pub open spec fn parsed_rows(text: Seq<u8>) -> Seq<u32> {
    Seq::new(
        BOARD_HEIGHT as nat,
        |y: int| pack(|x: int| marked(text, BOARD_HEIGHT - 1 - y, x), BOARD_WIDTH as int),
    )
}

/// The cells of the rows that a text describes: the cell in column `x` of row
/// `y` is filled exactly when the text marks column `x` of its line
/// `17 - y`; and the rows are those of a well.
pub proof fn lemma_parsed_cells(text: Seq<u8>)
    ensures
        rows_wf(parsed_rows(text)),
        forall|x: int, y: int| #[trigger]
            filled(parsed_rows(text), x, y) == (0 <= x < BOARD_WIDTH && 0 <= y < BOARD_HEIGHT
                && marked(text, BOARD_HEIGHT - 1 - y, x)),
{
    let rows = parsed_rows(text);
    assert forall|y: int| 0 <= y < BOARD_HEIGHT implies #[trigger] rows[y] <= FULL_ROW && (forall|
        x: int,
    | #[trigger]
        filled(rows, x, y) == (0 <= x < BOARD_WIDTH && marked(text, BOARD_HEIGHT - 1 - y, x))) by {
        lemma_pack_bits(|x: int| marked(text, BOARD_HEIGHT - 1 - y, x), BOARD_WIDTH as int);
        lemma_high_bits_clear(rows[y], 18);
        lemma_width_bounds(rows[y]);
    }
}

/// The glyph at place `i` of the picture of a well. The picture has a line of 19
/// glyphs for each row, from the top row down: one glyph for each column from
/// column 0, `#` for a filled cell and `.` for an empty one, then a line feed.
pub open spec fn glyph(rows: Seq<u32>, i: int) -> char {
    if i % 19 == 18 {
        '\n'
    } else if filled(rows, i % 19, BOARD_HEIGHT - 1 - i / 19) {
        '#'
    } else {
        '.'
    }
}

/// The picture of a well: 342 glyphs.
pub open spec fn rendered(rows: Seq<u32>) -> Seq<char> {
    Seq::new(342, |i: int| glyph(rows, i))
}

impl Glass {
    /// Reads a well from its text. The text is rejected unless it holds exactly 324 bytes.
    pub fn parse(data: &str) -> (r: Result<Glass, FormatError>)
        ensures
            match r {
                Ok(g) => data.spec_bytes().len() == TEXT_LEN && g@ == parsed_rows(
                    data.spec_bytes(),
                ) && g.wf(),
                Err(e) => data.spec_bytes().len() != TEXT_LEN && e.len == data.spec_bytes().len(),
            },
    {
        let bytes = data.as_bytes();
        if bytes.len() != TEXT_LEN {
            return Err(FormatError { len: bytes.len() });
        }
        let ghost text = data.spec_bytes();
        let mut layers: [u32; 18] = [0; BOARD_HEIGHT];
        for line in 0..BOARD_HEIGHT
            invariant
                bytes@ == text,
                text.len() == TEXT_LEN,
                forall|y: int|
                    BOARD_HEIGHT - line <= y < BOARD_HEIGHT ==> #[trigger] layers@[y] == pack(
                        |x: int| marked(text, BOARD_HEIGHT - 1 - y, x),
                        BOARD_WIDTH as int,
                    ),
                forall|y: int| 0 <= y < BOARD_HEIGHT - line ==> #[trigger] layers@[y] == 0,
        {
            let y = BOARD_HEIGHT - line - 1;
            let mut row: u32 = 0;
            proof {
                lemma_bit_unit(0);
            }
            for x in 0..BOARD_WIDTH
                invariant
                    bytes@ == text,
                    text.len() == TEXT_LEN,
                    line < BOARD_HEIGHT,
                    forall|k: int|
                        0 <= k < 32 ==> bit(row, k) == (k < x && marked(text, line as int, k)),
            {
                proof {
                    lemma_bit_shl(1, x as u32);
                    lemma_bit_unit(1);
                    lemma_bit_logic(row, 1u32 << (x as u32));
                }
                if bytes[line * BOARD_WIDTH + x] != EMPTY_CELL {
                    row |= 1u32 << (x as u32);
                }
            }
            proof {
                lemma_is_pack(row, |x: int| marked(text, line as int, x), BOARD_WIDTH as int);
            }
            layers[y] = row;
        }
        let g = Glass { layers };
        proof {
            assert(g@ =~= parsed_rows(text));
            lemma_parsed_cells(text);
        }
        Ok(g)
    }

    /// Draws the well as text, top row first.
    pub fn visualize(&self) -> (text: String)
        ensures
            text@ == rendered(self@),
    {
        let mut result = String::new();
        for line in 0..BOARD_HEIGHT
            invariant
                result@ == rendered(self@).subrange(0, line * 19),
        {
            let row = self.layers[BOARD_HEIGHT - line - 1];
            for x in 0..BOARD_WIDTH
                invariant
                    line < BOARD_HEIGHT,
                    row == self@[BOARD_HEIGHT - line - 1],
                    result@ == rendered(self@).subrange(0, line * 19 + x),
            {
                proof {
                    lemma_low_bit(row >> (x as u32));
                    lemma_bit_shr(row, x as u32);
                    assert(bit(row >> (x as u32), 0) == bit(row, x as int));
                }
                if (row >> (x as u32)) & 1 == 1 {
                    result.append("#");
                } else {
                    result.append(".");
                }
                proof {
                    reveal_strlit("#");
                    reveal_strlit(".");
                    let i = line * 19 + x;
                    assert(i / 19 == line && i % 19 == x);
                    assert(glyph(self@, i) == (if bit(row, x as int) {
                        '#'
                    } else {
                        '.'
                    }));
                    assert(result@ =~= rendered(self@).subrange(0, i + 1));
                }
            }
            result.append("\n");
            proof {
                reveal_strlit("\n");
                let i = line * 19 + 18;
                assert(i / 19 == line && i % 19 == 18);
                assert(result@ =~= rendered(self@).subrange(0, (line + 1) * 19));
            }
        }
        proof {
            assert(result@ =~= rendered(self@));
        }
        result
    }
}

impl Default for Glass {
    fn default() -> (g: Glass)
        ensures
            g.wf(),
            forall|y: int| 0 <= y < BOARD_HEIGHT ==> g@[y] == 0,
    {
        Glass::empty()
    }
}

impl core::str::FromStr for Glass {
    type Err = FormatError;

    fn from_str(data: &str) -> (r: Result<Glass, FormatError>)
        ensures
            match r {
                Ok(g) => data.spec_bytes().len() == TEXT_LEN && g@ == parsed_rows(
                    data.spec_bytes(),
                ) && g.wf(),
                Err(e) => data.spec_bytes().len() != TEXT_LEN && e.len == data.spec_bytes().len(),
            },
    {
        Glass::parse(data)
    }
}

/// What a snapshot of the game says.
pub struct Snapshot {
    /// The kind of the falling figure.
    pub current: FigureType,
    /// The kinds of the figures to come, the next one first.
    pub future: Seq<FigureType>,
    /// The rows of the well.
    pub glass: Seq<u32>,
    /// The centre of the falling figure.
    pub anchor: Point,
}

/// A snapshot of the game as the server sends it.
#[derive(Debug)]
pub struct Board {
    current_figure_type: FigureType,
    future_figures: Vec<FigureType>,
    layers: Vec<Glass>,
    current_figure_point: Point,
    level_progress: LevelProgress,
}

/// Why a snapshot cannot be played.
#[derive(Clone, Copy, Debug, PartialEq, Eq, Structural)]
pub enum BoardError {
    /// The snapshot holds no well.
    NoGlass,
    /// The centre of the falling figure is no cell of the well, or the figure
    /// would reach past a side wall from there.
    AnchorOutside,
}

impl View for Board {
    type V = Snapshot;

    closed spec fn view(&self) -> Snapshot {
        Snapshot {
            current: self.current_figure_type,
            future: self.future_figures@,
            glass: self.layers@[0]@,
            anchor: self.current_figure_point,
        }
    }
}

impl Board {
    /// The snapshot holds a well.
    pub closed spec fn has_glass(&self) -> bool {
        self.layers@.len() > 0
    }

    /// The snapshot holds a well whose rows are well formed, and the centre of
    /// the falling figure is legal for the figure of its kind, not rotated.
    pub open spec fn wf(&self) -> bool {
        &&& self.has_glass()
        &&& rows_wf(self@.glass)
        &&& fits(canonical(self@.current), self@.anchor)
    }

    /// Puts a snapshot together, unless it cannot be played. The first of the
    /// layers is the well.
    pub fn new(
        current_figure_type: FigureType,
        future_figures: Vec<FigureType>,
        layers: Vec<Glass>,
        current_figure_point: Point,
        level_progress: LevelProgress,
    ) -> (board: Result<Board, BoardError>)
        requires
            layers@.len() > 0 ==> layers@[0].wf(),
        ensures
            match board {
                Ok(board) => board.wf() && board@ == (Snapshot {
                    current: current_figure_type,
                    future: future_figures@,
                    glass: layers@[0]@,
                    anchor: current_figure_point,
                }) && layers@.len() > 0,
                Err(BoardError::NoGlass) => layers@.len() == 0,
                Err(BoardError::AnchorOutside) => layers@.len() > 0 && !fits(
                    canonical(current_figure_type),
                    current_figure_point,
                ),
            },
    {
        if layers.len() == 0 {
            return Err(BoardError::NoGlass);
        }
        let figure = Figure::from(current_figure_type);
        if !fits_at(&figure, current_figure_point) {
            return Err(BoardError::AnchorOutside);
        }
        Ok(
            Board {
                current_figure_type,
                future_figures,
                layers,
                current_figure_point,
                level_progress,
            },
        )
    }

    /// The kind of the falling figure.
    pub fn current_figure_type(&self) -> (ty: FigureType)
        ensures
            ty == self@.current,
    {
        self.current_figure_type
    }

    /// The kinds of the figures to come, the next one first.
    pub fn future_figures_types(&self) -> (types: &[FigureType])
        ensures
            types@ == self@.future,
    {
        self.future_figures.as_slice()
    }

    /// The well.
    pub fn glass(&self) -> (glass: &Glass)
        requires
            self.has_glass(),
        ensures
            glass@ == self@.glass,
    {
        &self.layers[0]
    }

    /// The centre of the falling figure.
    pub fn current_figure_point(&self) -> (point: Point)
        ensures
            point == self@.anchor,
    {
        self.current_figure_point
    }
}

} // verus!
