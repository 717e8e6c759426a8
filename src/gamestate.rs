use vstd::prelude::*;
use vstd::std_specs::bits::u64_trailing_ones;
use crate::color::{Color, Gameover};

verus! {

broadcast use vstd::std_specs::bits::group_bits_axioms;

/// Every playable cell: six low bits in each of the seven seven-bit column groups.
pub const FULL_BOARD_MASK: u64 = 0b_0111111_0111111_0111111_0111111_0111111_0111111_0111111;

/// The six playable bits of one column group.
pub const COLUMN_MASK: u64 = 0b111111;

/// The color to move on a board read from text that holds as many pieces of
/// each color.
pub const DEFAULT_STARTING_PLAYER: Color = Color::Red;

/// A board: one bitboard per color, seven bits per column (six rows and a
/// guard bit), column 0 in the lowest bits, row 0 at the bottom.
#[derive(Clone, Copy, PartialEq, Eq, Hash, Debug, Structural)]
pub struct GameState {
    pub red: u64,
    pub yellow: u64,
    pub current_player: Color,
}

/// The bit of the cell at `column` and `row`.
pub open spec fn cell_mask(column: u64, row: u64) -> u64 {
    1u64 << ((7 * column + row) as u64)
}

/// The six playable bits of `column`, shifted down to bits 0..6.
pub open spec fn column_bits(bits: u64, column: u64) -> u64 {
    (bits >> ((7 * column) as u64)) & COLUMN_MASK
}

/// The lowest `h` bits set, for `h <= 6`.
pub open spec fn low_cells(h: u64) -> u64 {
    COLUMN_MASK >> ((6 - h) as u64)
}

/// The number of set bits among the lowest `n` bits of `x`.
pub open spec fn ones_below(x: u64, n: nat) -> nat
    decreases n,
{
    if n == 0 {
        0
    } else {
        ones_below(x, (n - 1) as nat) + if (x >> ((n - 1) as u64)) & 1u64 == 1u64 {
            1nat
        } else {
            0nat
        }
    }
}

/// Four set bits in a row, each `step` above the one before.
pub open spec fn line_of_four(bits: u64, step: u64) -> bool {
    let pairs = bits & (bits >> step);
    pairs & (pairs >> ((2 * step) as u64)) != 0
}

/// Four in a row in some direction: vertically (step 1), horizontally (step 7)
/// or along either diagonal (steps 6 and 8).
pub open spec fn has_four(bits: u64) -> bool {
    line_of_four(bits, 1) || line_of_four(bits, 7) || line_of_four(bits, 6) || line_of_four(bits, 8)
}

/// What the text reader holds after some characters: the two bitboards, the
/// row it writes to next (below the board once it is `-1`) and the column.
pub type TextCursor = (u64, u64, int, int);

/// The reader's state before any character.
pub open spec fn text_start() -> TextCursor {
    (0u64, 0u64, 5int, 0int)
}

/// One character read: `r` and `y` place a piece and `.` leaves a cell empty,
/// each moving one column right; `/` moves one row down and back to column 0;
/// anything else is skipped. Cells off the board are never written.
pub open spec fn text_step(st: TextCursor, ch: char) -> TextCursor {
    let (red, yellow, row, col) = st;
    if ch == 'r' || ch == 'y' || ch == '.' {
        if col >= 7 {
            st
        } else if ch == '.' || row < 0 {
            (red, yellow, row, col + 1)
        } else if ch == 'r' {
            (red | cell_mask(col as u64, row as u64), yellow, row, col + 1)
        } else {
            (red, yellow | cell_mask(col as u64, row as u64), row, col + 1)
        }
    } else if ch == '/' {
        (red, yellow, if row >= 0 { row - 1 } else { row }, 0)
    } else {
        st
    }
}

/// The reader's state after reading all of `s`, starting from `st`.
pub open spec fn text_run(st: TextCursor, s: Seq<char>) -> TextCursor
    decreases s.len(),
{
    if s.len() == 0 {
        st
    } else {
        text_step(text_run(st, s.drop_last()), s.last())
    }
}

/// The board that `s` describes; the color to move is `color` when given,
/// else the default starting color when both colors hold as many pieces, and
/// the other color when they do not.
pub open spec fn from_text(s: Seq<char>, color: Option<Color>) -> GameState {
    let (red, yellow, _, _) = text_run(text_start(), s);
    GameState {
        red,
        yellow,
        current_player: match color {
            Some(c) => c,
            None => if ones_below(red, 64) == ones_below(yellow, 64) {
                DEFAULT_STARTING_PLAYER
            } else {
                DEFAULT_STARTING_PLAYER.other()
            },
        },
    }
}

impl GameState {
    /// The number of pieces on playable cells.
    pub open spec fn piece_count(self) -> nat {
        ones_below(self.occupied() & FULL_BOARD_MASK, 64)
    }

    /// The piece on one cell, if any.
    pub open spec fn cell(self, column: u64, row: u64) -> Option<Color> {
        if self.red & cell_mask(column, row) != 0 {
            Some(Color::Red)
        } else if self.yellow & cell_mask(column, row) != 0 {
            Some(Color::Yellow)
        } else {
            None
        }
    }

    /// The character for one cell: `r`, `y` or `.`.
    pub open spec fn cell_char(self, column: u64, row: u64) -> char {
        if self.red & cell_mask(column, row) != 0 {
            'r'
        } else if self.yellow & cell_mask(column, row) != 0 {
            'y'
        } else {
            '.'
        }
    }

    /// One row of the text, columns left to right.
    pub open spec fn row_text(self, row: int) -> Seq<char> {
        Seq::new(7, |c: int| self.cell_char(c as u64, row as u64))
    }

    /// The text of rows 5 down to `row`, each but row 0 followed by `/`.
    pub open spec fn text_above(self, row: int) -> Seq<char>
        decreases 6 - row,
    {
        if row >= 6 {
            Seq::empty()
        } else {
            self.text_above(row + 1) + self.row_text(row) + if row > 0 {
                seq!['/']
            } else {
                Seq::empty()
            }
        }
    }

    /// The board as text: rows top to bottom joined by `/`.
    pub open spec fn text(self) -> Seq<char> {
        self.text_above(0)
    }

    /// Only the player who moved last can have won, and only once seven pieces
    /// stand; a board with all 42 cells filled and no such win is a tie.
    pub open spec fn outcome(self) -> Gameover {
        let n = self.piece_count();
        let last = self.current_player.other();
        if n < 7 {
            Gameover::Ongoing
        } else if has_four(self.pieces(last)) {
            Gameover::Win(last)
        } else if n == 42 {
            Gameover::Tie
        } else {
            Gameover::Ongoing
        }
    }
}

/// The number of set bits of `x`.
fn count_ones(x: u64) -> (r: u32)
    ensures
        r == ones_below(x, 64),
{
    let mut n: u32 = 0;
    let mut i: u64 = 0;
    while i < 64
        invariant
            i <= 64,
            n == ones_below(x, i as nat),
            n <= i,
        decreases 64 - i,
    {
        if (x >> i) & 1 == 1 {
            n = n + 1;
        }
        i = i + 1;
    }
    n
}

/// Whether `bits` holds four in a row along `step`.
fn line_of_four_along(bits: u64, step: u64) -> (r: bool)
    requires
        step <= 8,
    ensures
        r == line_of_four(bits, step),
{
    let pairs = bits & (bits >> step);
    pairs & (pairs >> (step * 2)) != 0
}

/// Relies on `String::push`, which appends one character to the end.
#[verifier::external_body]
fn push_char(s: &mut String, c: char)
    ensures
        final(s)@ == old(s)@.push(c),
{
    s.push(c)
}

impl GameState {
    /// The cells held by either color.
    pub open spec fn occupied(self) -> u64 {
        self.red | self.yellow
    }

    /// The bitboard of `color`.
    pub open spec fn pieces(self, color: Color) -> u64 {
        match color {
            Color::Red => self.red,
            Color::Yellow => self.yellow,
        }
    }

    /// The number of contiguous occupied cells from the bottom of `column`.
    pub open spec fn height(self, column: u64) -> u64 {
        u64_trailing_ones(column_bits(self.occupied(), column)) as u64
    }

    /// Pieces stand only on playable cells, never on both colors at once, and
    /// each column is filled from the bottom without gaps.
    pub open spec fn wf(self) -> bool {
        &&& self.red & self.yellow == 0
        &&& self.occupied() & !FULL_BOARD_MASK == 0
        &&& forall|c: u64|
            c < 7 ==> #[trigger] column_bits(self.occupied(), c) == low_cells(self.height(c))
    }

    /// The board after the player to move drops a piece into `column`.
    pub open spec fn applied(self, column: u64) -> GameState {
        let m = cell_mask(column, self.height(column));
        match self.current_player {
            Color::Yellow => GameState { yellow: self.yellow | m, current_player: Color::Red, ..self },
            Color::Red => GameState { red: self.red | m, current_player: Color::Yellow, ..self },
        }
    }

    /// The board after the top piece of `column`, which the player who is not
    /// to move placed, is lifted and that player is to move again.
    pub open spec fn undone(self, column: u64) -> GameState {
        let m = cell_mask(column, (self.height(column) - 1) as u64);
        match self.current_player {
            Color::Yellow => GameState { red: self.red & !m, current_player: Color::Red, ..self },
            Color::Red => GameState { yellow: self.yellow & !m, current_player: Color::Yellow, ..self },
        }
    }

    /// The empty board, yellow to move.
    pub open spec fn empty() -> GameState {
        GameState { red: 0, yellow: 0, current_player: Color::Yellow }
    }

    /// The board after `n` moves into `column`, starting from this one.
    pub open spec fn applied_times(self, column: u64, n: nat) -> GameState
        decreases n,
    {
        if n == 0 {
            self
        } else {
            self.applied_times(column, (n - 1) as nat).applied(column)
        }
    }

    /// An empty board with yellow to move.
    pub fn new() -> (r: GameState)
        ensures
            r == GameState::empty(),
            r.wf(),
    {
        let r = GameState { red: 0, yellow: 0, current_player: Color::Yellow };
        proof {
            assert forall|c: u64| c < 7 implies #[trigger] column_bits(r.occupied(), c)
                == low_cells(r.height(c)) by {
                lemma_empty_column(c);
                lemma_height_of_low_cells(0);
            }
            assert(0u64 & 0u64 == 0 && (0u64 | 0u64) & !FULL_BOARD_MASK == 0) by (bit_vector);
        }
        r
    }

    /// Sets the color to move.
    pub fn override_current_player(&mut self, color: Color)
        ensures
            *final(self) == (GameState { current_player: color, ..*old(self) }),
    {
        self.current_player = color;
    }

    /// The cells held by either color.
    pub fn filled(&self) -> (r: u64)
        ensures
            r == self.occupied(),
    {
        self.red | self.yellow
    }

    /// Drops a piece of the player to move into `column` and passes the turn.
    /// Returns `false`, changing nothing, when the column is full.
    pub fn make_move(&mut self, column: u8) -> (r: bool)
        requires
            column < 7,
        ensures
            r == (old(self).height(column as u64) < 6),
            r ==> *final(self) == old(self).applied(column as u64),
            !r ==> *final(self) == *old(self),
    {
        let height = self.get_height(column);
        if height >= 6 {
            return false;
        }
        let bit_index = column as u64 * 7 + height as u64;
        let mask = 1u64 << bit_index;
        match self.current_player {
            Color::Yellow => {
                self.yellow = self.yellow | mask;
                self.current_player = Color::Red;
            },
            Color::Red => {
                self.red = self.red | mask;
                self.current_player = Color::Yellow;
            },
        }
        true
    }

    /// Lifts the top piece of `column`, which the player who is not to move
    /// placed, and gives that player the turn back.
    pub fn undo_move(&mut self, column: u8)
        requires
            column < 7,
            old(self).height(column as u64) >= 1,
        ensures
            *final(self) == old(self).undone(column as u64),
    {
        let bit_index = column as u64 * 7 + self.get_height(column) as u64 - 1;
        let mask = 1u64 << bit_index;
        match self.current_player {
            Color::Yellow => {
                self.red = self.red & !mask;
                self.current_player = Color::Red;
            },
            Color::Red => {
                self.yellow = self.yellow & !mask;
                self.current_player = Color::Yellow;
            },
        }
    }

    /// Reads a board from text: rows top to bottom separated by `/`, `r` and
    /// `y` for pieces and `.` for an empty cell. Without `color`, the color to
    /// move follows from the piece counts.
    pub fn from_fen(s: &str, color: Option<Color>) -> (r: GameState)
        ensures
            r == from_text(s@, color),
    {
        let mut red: u64 = 0;
        let mut yellow: u64 = 0;
        let mut row: i8 = 5;
        let mut col: u8 = 0;
        for ch in it: s.chars()
            invariant
                it.seq() == s@,
                -1 <= row <= 5,
                col <= 7,
                text_run(text_start(), s@.take(it.index() as int)) == (
                    red,
                    yellow,
                    row as int,
                    col as int,
                ),
        {
            proof {
                let prefix = s@.take(it.index() as int);
                assert(s@.take(it.index() + 1) =~= prefix.push(ch));
                assert(prefix.push(ch).drop_last() =~= prefix);
            }
            if ch == 'r' || ch == 'y' || ch == '.' {
                if col < 7 {
                    if ch != '.' && row >= 0 {
                        let mask = 1u64 << (col as u64 * 7 + row as u64);
                        if ch == 'r' {
                            red = red | mask;
                        } else {
                            yellow = yellow | mask;
                        }
                    }
                    col = col + 1;
                }
            } else if ch == '/' {
                if row >= 0 {
                    row = row - 1;
                }
                col = 0;
            }
        }
        proof {
            assert(s@.take(s@.len() as int) =~= s@);
        }
        let current_player = match color {
            Some(c) => c,
            None => if count_ones(red) == count_ones(yellow) {
                DEFAULT_STARTING_PLAYER
            } else {
                DEFAULT_STARTING_PLAYER.opposite()
            },
        };
        GameState { red, yellow, current_player }
    }

    /// The board as text: rows top to bottom, columns left to right, `r`,
    /// `y` or `.` for each cell, rows joined by `/`.
    pub fn to_fen(&self) -> (r: String)
        ensures
            r@ == self.text(),
    {
        let mut result = String::new();
        let mut row: u64 = 6;
        while row > 0
            invariant
                row <= 6,
                result@ == self.text_above(row as int),
            decreases row,
        {
            row = row - 1;
            let mut col: u64 = 0;
            while col < 7
                invariant
                    row < 6,
                    col <= 7,
                    result@ == self.text_above(row + 1) + self.row_text(row as int).take(col as int),
                decreases 7 - col,
            {
                let mask = 1u64 << (col * 7 + row);
                let ch = if self.red & mask != 0 {
                    'r'
                } else if self.yellow & mask != 0 {
                    'y'
                } else {
                    '.'
                };
                push_char(&mut result, ch);
                proof {
                    assert(self.row_text(row as int).take(col + 1) =~= self.row_text(
                        row as int,
                    ).take(col as int).push(ch));
                }
                col = col + 1;
            }
            assert(self.row_text(row as int).take(7) =~= self.row_text(row as int));
            if row > 0 {
                push_char(&mut result, '/');
            }
            assert(result@ =~= self.text_above(row as int));
        }
        result
    }

    /// Whether the game is won, tied or still going. Only the player who moved
    /// last is tested for a win.
    pub fn gameover_state(&self) -> (r: Gameover)
        ensures
            r == self.outcome(),
            r matches Gameover::Win(c) ==> c == self.current_player.other(),
    {
        let piece_count = count_ones(self.filled() & FULL_BOARD_MASK);
        if piece_count < 7 {
            return Gameover::Ongoing;
        }
        match self.current_player {
            Color::Yellow => {
                if Self::has_won(self.red) {
                    return Gameover::Win(Color::Red);
                }
            },
            Color::Red => {
                if Self::has_won(self.yellow) {
                    return Gameover::Win(Color::Yellow);
                }
            },
        }
        if piece_count == 42 {
            Gameover::Tie
        } else {
            Gameover::Ongoing
        }
    }

    /// Whether `board` holds four in a row in any direction.
    fn has_won(board: u64) -> (r: bool)
        ensures
            r == has_four(board),
    {
        line_of_four_along(board, 1) || line_of_four_along(board, 7) || line_of_four_along(board, 6)
            || line_of_four_along(board, 8)
    }

    /// The piece on the cell at `column` and `row`, if any.
    pub fn piece_at(&self, column: u8, row: u8) -> (r: Option<Color>)
        requires
            column < 7,
            row < 6,
        ensures
            r == self.cell(column as u64, row as u64),
    {
        let mask = 1u64 << (column as u64 * 7 + row as u64);
        if self.red & mask != 0 {
            Some(Color::Red)
        } else if self.yellow & mask != 0 {
            Some(Color::Yellow)
        } else {
            None
        }
    }

    /// Whether the board is well formed: no cell held twice, no piece off the
    /// playable cells, no gap below a piece.
    pub fn is_well_formed(&self) -> (r: bool)
        ensures
            r == self.wf(),
    {
        if self.red & self.yellow != 0 {
            return false;
        }
        let occupied = self.filled();
        if occupied & !FULL_BOARD_MASK != 0 {
            return false;
        }
        let mut column: u8 = 0;
        while column < 7
            invariant
                column <= 7,
                occupied == self.occupied(),
                forall|c: u64|
                    c < column ==> #[trigger] column_bits(self.occupied(), c) == low_cells(
                        self.height(c),
                    ),
            decreases 7 - column,
        {
            let height = self.get_height(column);
            let bits = (occupied >> (column as u64 * 7)) & COLUMN_MASK;
            assert(bits == column_bits(self.occupied(), column as u64));
            if bits != COLUMN_MASK >> (6 - height as u64) {
                return false;
            }
            column = column + 1;
        }
        true
    }

    /// The number of pieces in `column`, counted from the bottom.
    pub fn get_height(&self, column: u8) -> (r: u8)
        requires
            column < 7,
        ensures
            r as u64 == self.height(column as u64),
            r <= 6,
    {
        let col_bits = (self.filled() >> (column as u64 * 7)) & COLUMN_MASK;
        proof {
            assert(col_bits == column_bits(self.occupied(), column as u64));
            lemma_height_bound(self.occupied() >> (column as u64 * 7));
        }
        col_bits.trailing_ones() as u8
    }
}

proof fn lemma_empty_column(c: u64)
    by (bit_vector)
    requires
        c < 7,
    ensures
        column_bits(0u64 | 0u64, c) == low_cells(0),
{
}

proof fn lemma_low_cells_bits(h: u64)
    by (bit_vector)
    requires
        h <= 6,
    ensures
        forall|j: u64| j < h ==> #[trigger] ((low_cells(h) >> j) & 1u64) == 1u64,
        (low_cells(h) >> h) & 1u64 == 0u64,
{
}

/// A column group whose bits are the lowest `h` has height `h`.
pub proof fn lemma_height_of_low_cells(h: u64)
    requires
        h <= 6,
    ensures
        u64_trailing_ones(low_cells(h)) == h,
{
    let x = low_cells(h);
    let t = u64_trailing_ones(x);
    lemma_low_cells_bits(h);
    if t < h {
        assert((x >> (t as u64)) & 1u64 == 1u64);
    }
    if t > h {
        assert((x >> h) & 1u64 == 1u64);
    }
}

proof fn lemma_six_bits(x: u64)
    by (bit_vector)
    ensures
        ((x & COLUMN_MASK) >> 6u64) & 1u64 == 0u64,
{
}

/// Six bits hold at most six trailing ones.
pub proof fn lemma_height_bound(x: u64)
    ensures
        u64_trailing_ones(x & COLUMN_MASK) <= 6,
{
    lemma_six_bits(x);
    if u64_trailing_ones(x & COLUMN_MASK) > 6 {
        assert(((x & COLUMN_MASK) >> 6u64) & 1u64 == 1u64);
    }
}

proof fn lemma_place_bits(x: u64, c: u64, h: u64)
    by (bit_vector)
    requires
        c < 7,
        h < 6,
        column_bits(x, c) == low_cells(h),
    ensures
        x & cell_mask(c, h) == 0,
        column_bits(x | cell_mask(c, h), c) == low_cells((h + 1) as u64),
        forall|d: u64|
            d < 7 && d != c ==> #[trigger] column_bits(x | cell_mask(c, h), d) == column_bits(x, d),
        cell_mask(c, h) & !FULL_BOARD_MASK == 0,
{
}

proof fn lemma_union_facts(r: u64, y: u64, m: u64)
    by (bit_vector)
    ensures
        (r | y) & m == 0 && r & y == 0 ==> r & (y | m) == 0 && (r | m) & y == 0,
        r | (y | m) == (r | y) | m,
        (r | m) | y == (r | y) | m,
        (r | y) & !FULL_BOARD_MASK == 0 && m & !FULL_BOARD_MASK == 0 ==> ((r | y) | m)
            & !FULL_BOARD_MASK == 0,
        (r | y) & m == 0 ==> (y | m) & !m == y && (r | m) & !m == r,
{
}

/// A move into a column that is not full keeps the board well formed, raises
/// that column by one, leaves the other columns as they were, and is undone by
/// `undone`.
pub proof fn lemma_apply(b: GameState, column: u64)
    requires
        b.wf(),
        column < 7,
        b.height(column) < 6,
    ensures
        b.applied(column).wf(),
        b.applied(column).height(column) == b.height(column) + 1,
        forall|d: u64| d < 7 && d != column ==> #[trigger] b.applied(column).height(d) == b.height(d),
        b.occupied() & cell_mask(column, b.height(column)) == 0,
        b.applied(column).occupied() == b.occupied() | cell_mask(column, b.height(column)),
        b.applied(column).pieces(b.current_player) == b.pieces(b.current_player) | cell_mask(
            column,
            b.height(column),
        ),
        b.applied(column).pieces(b.current_player.other()) == b.pieces(b.current_player.other()),
        b.applied(column).current_player == b.current_player.other(),
        b.applied(column).undone(column) == b,
{
    let h = b.height(column);
    let m = cell_mask(column, h);
    let a = b.applied(column);
    lemma_place_bits(b.occupied(), column, h);
    lemma_union_facts(b.red, b.yellow, m);
    lemma_height_of_low_cells((h + 1) as u64);
    assert(a.occupied() == b.occupied() | m);
    assert forall|c: u64| c < 7 implies #[trigger] column_bits(a.occupied(), c) == low_cells(
        a.height(c),
    ) by {
        if c != column {
            assert(column_bits(a.occupied(), c) == column_bits(b.occupied(), c));
        }
    }
    assert(a.height(column) == h + 1);
}

/// The cells of `row` in columns below `k`.
pub open spec fn row_cells(row: u64, k: u64) -> u64
    decreases k,
{
    if k == 0 {
        0
    } else {
        row_cells(row, (k - 1) as u64) | cell_mask((k - 1) as u64, row)
    }
}

/// The cells of rows `row` and above.
pub open spec fn rows_from(row: u64) -> u64
    decreases 6 - row,
{
    if row >= 6 {
        0
    } else {
        rows_from((row + 1) as u64) | row_cells(row, 7)
    }
}

proof fn lemma_all_rows()
    by (bit_vector)
    ensures
        rows_from(0) == FULL_BOARD_MASK,
{
}

proof fn lemma_read_cell(red: u64, yellow: u64, done: u64, c: u64, r: u64)
    by (bit_vector)
    requires
        c < 7,
        r < 6,
        red & yellow == 0,
    ensures
        red & cell_mask(c, r) != 0 ==> (red & done) | cell_mask(c, r) == red & (done | cell_mask(
            c,
            r,
        )) && yellow & done == yellow & (done | cell_mask(c, r)),
        red & cell_mask(c, r) == 0 && yellow & cell_mask(c, r) != 0 ==> (yellow & done)
            | cell_mask(c, r) == yellow & (done | cell_mask(c, r)) && red & done == red & (done
            | cell_mask(c, r)),
        red & cell_mask(c, r) == 0 && yellow & cell_mask(c, r) == 0 ==> red & done == red & (done
            | cell_mask(c, r)) && yellow & done == yellow & (done | cell_mask(c, r)),
        red & 0 == 0,
{
}

/// Reading `s1` then `s2` is reading their concatenation.
pub proof fn lemma_text_run_concat(st: TextCursor, s1: Seq<char>, s2: Seq<char>)
    ensures
        text_run(st, s1 + s2) == text_run(text_run(st, s1), s2),
    decreases s2.len(),
{
    if s2.len() == 0 {
        assert(s1 + s2 =~= s1);
    } else {
        assert((s1 + s2).drop_last() =~= s1 + s2.drop_last());
        lemma_text_run_concat(st, s1, s2.drop_last());
    }
}

proof fn lemma_read_row(b: GameState, row: u64, k: u64)
    requires
        b.wf(),
        row < 6,
        k <= 7,
    ensures
        text_run(
            (b.red & rows_from((row + 1) as u64), b.yellow & rows_from((row + 1) as u64), row as int, 0),
            b.row_text(row as int).take(k as int),
        ) == (
            b.red & (rows_from((row + 1) as u64) | row_cells(row, k)),
            b.yellow & (rows_from((row + 1) as u64) | row_cells(row, k)),
            row as int,
            k as int,
        ),
    decreases k,
{
    let above = rows_from((row + 1) as u64);
    if k == 0 {
        assert(b.row_text(row as int).take(0) =~= Seq::<char>::empty());
        assert(above | 0u64 == above) by (bit_vector);
    } else {
        let j = (k - 1) as u64;
        lemma_read_row(b, row, j);
        let prefix = b.row_text(row as int).take(j as int);
        assert(b.row_text(row as int).take(k as int) =~= prefix.push(b.cell_char(j, row)));
        assert(prefix.push(b.cell_char(j, row)).drop_last() =~= prefix);
        let done = above | row_cells(row, j);
        lemma_read_cell(b.red, b.yellow, done, j, row);
        let cells = row_cells(row, j);
        let m = cell_mask(j, row);
        assert((above | cells) | m == above | (cells | m)) by (bit_vector);
    }
}

proof fn lemma_read_rows(b: GameState, row: u64)
    requires
        b.wf(),
        row <= 6,
    ensures
        text_run(text_start(), b.text_above(row as int)) == (
            b.red & rows_from(row),
            b.yellow & rows_from(row),
            if row == 0 { 0int } else { row - 1 },
            if row == 0 { 7int } else { 0int },
        ),
    decreases 6 - row,
{
    if row == 6 {
        let red = b.red;
        let yellow = b.yellow;
        assert(red & 0 == 0 && yellow & 0 == 0) by (bit_vector);
        assert(b.text_above(6) =~= Seq::<char>::empty());
    } else {
        let next = (row + 1) as u64;
        lemma_read_rows(b, next);
        let sep: Seq<char> = if row > 0 { seq!['/'] } else { Seq::empty() };
        lemma_text_run_concat(text_start(), b.text_above(next as int), b.row_text(row as int) + sep);
        lemma_text_run_concat(
            text_run(text_start(), b.text_above(next as int)),
            b.row_text(row as int),
            sep,
        );
        assert(b.text_above(row as int) =~= b.text_above(next as int) + (b.row_text(row as int)
            + sep));
        lemma_read_row(b, row, 7);
        assert(b.row_text(row as int).take(7) =~= b.row_text(row as int));
        assert(rows_from(row) == rows_from(next) | row_cells(row, 7));
        let after_row = text_run(text_run(text_start(), b.text_above(next as int)), b.row_text(
            row as int,
        ));
        if row > 0 {
            assert(seq!['/'].drop_last() =~= Seq::<char>::empty());
            assert(text_run(after_row, sep) == text_step(text_run(after_row, Seq::empty()), '/'));
        } else {
            assert(text_run(after_row, sep) == after_row);
        }
    }
}

/// Reading back the text of a well-formed board, with its color to move,
/// gives the same board.
pub proof fn lemma_text_round_trip(b: GameState)
    requires
        b.wf(),
    ensures
        from_text(b.text(), Some(b.current_player)) == b,
{
    lemma_read_rows(b, 0);
    lemma_all_rows();
    let red = b.red;
    let yellow = b.yellow;
    assert((red | yellow) & !FULL_BOARD_MASK == 0 ==> red & FULL_BOARD_MASK == red && yellow
        & FULL_BOARD_MASK == yellow) by (bit_vector);
}

/// From the empty board, each of six moves into one column raises it by one;
/// the column is then full, so a seventh `make_move` there fails and changes
/// nothing.
pub proof fn lemma_fill_column(column: u64)
    requires
        column < 7,
    ensures
        forall|n: nat|
            n <= 6 ==> (#[trigger] GameState::empty().applied_times(column, n)).wf()
                && GameState::empty().applied_times(column, n).height(column) == n,
        GameState::empty().applied_times(column, 6).height(column) == 6,
{
    assert forall|n: nat| n <= 6 implies (#[trigger] GameState::empty().applied_times(
        column,
        n,
    )).wf() && GameState::empty().applied_times(column, n).height(column) == n by {
        lemma_fill_steps(column, n);
    }
    lemma_fill_steps(column, 6);
}

proof fn lemma_fill_steps(column: u64, n: nat)
    requires
        column < 7,
        n <= 6,
    ensures
        GameState::empty().applied_times(column, n).wf(),
        GameState::empty().applied_times(column, n).height(column) == n,
    decreases n,
{
    let e = GameState::empty();
    if n == 0 {
        lemma_empty_column(column);
        lemma_height_of_low_cells(0);
        assert forall|c: u64| c < 7 implies #[trigger] column_bits(e.occupied(), c) == low_cells(
            e.height(c),
        ) by {
            lemma_empty_column(c);
        }
        assert(0u64 & 0u64 == 0 && (0u64 | 0u64) & !FULL_BOARD_MASK == 0) by (bit_vector);
    } else {
        lemma_fill_steps(column, (n - 1) as nat);
        lemma_apply(e.applied_times(column, (n - 1) as nat), column);
    }
}

} // verus!
