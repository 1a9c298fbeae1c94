//! A text-mode display driver: a fixed 25 x 80 grid of character cells with an
//! active color attribute, a cursor column on the bottom row, line wrapping and
//! scrolling.

use vstd::prelude::*;
use vstd::string::StringSliceAdditionalSpecFns;
use volatile::Volatile;
use crate::volatile_cell::{cell_value, vol_new, vol_read, vol_write};

verus! {

/// Number of rows of the display grid.
pub const BUFFER_HEIGHT: usize = 25;

/// Number of columns of the display grid.
pub const BUFFER_WIDTH: usize = 80;

/// The control code that triggers a line-advance instead of placing a cell.
pub const NEWLINE: u8 = 0x0a;

/// The glyph substituted for a byte outside the printable range.
pub const SUBSTITUTE: u8 = 0xfe;

/// The character byte of a blank cell.
pub const BLANK: u8 = 0x20;

/// The sixteen colors the display hardware can show, each with a fixed 4-bit code.
#[derive(Debug, Copy, Clone, PartialEq, Eq, Structural)]
pub enum Color {
    Black,
    Blue,
    Green,
    Cyan,
    Red,
    Magenta,
    Brown,
    LightGray,
    DarkGray,
    LightBlue,
    LightGreen,
    LightCyan,
    LightRed,
    Pink,
    Yellow,
    White,
}

impl Color {
    /// The 4-bit numeric code of this color.
    pub open spec fn spec_code(self) -> u8 {
        match self {
            Color::Black => 0,
            Color::Blue => 1,
            Color::Green => 2,
            Color::Cyan => 3,
            Color::Red => 4,
            Color::Magenta => 5,
            Color::Brown => 6,
            Color::LightGray => 7,
            Color::DarkGray => 8,
            Color::LightBlue => 9,
            Color::LightGreen => 10,
            Color::LightCyan => 11,
            Color::LightRed => 12,
            Color::Pink => 13,
            Color::Yellow => 14,
            Color::White => 15,
        }
    }

    /// The 4-bit numeric code of this color.
    #[verifier::when_used_as_spec(spec_code)]
    pub fn code(self) -> (r: u8)
        ensures
            r == self.spec_code(),
    {
        match self {
            Color::Black => 0,
            Color::Blue => 1,
            Color::Green => 2,
            Color::Cyan => 3,
            Color::Red => 4,
            Color::Magenta => 5,
            Color::Brown => 6,
            Color::LightGray => 7,
            Color::DarkGray => 8,
            Color::LightBlue => 9,
            Color::LightGreen => 10,
            Color::LightCyan => 11,
            Color::LightRed => 12,
            Color::Pink => 13,
            Color::Yellow => 14,
            Color::White => 15,
        }
    }
}

/// A packed color byte: the background code in the high four bits, the
/// foreground code in the low four bits.
#[derive(Debug, Copy, Clone, PartialEq, Eq, Structural)]
pub struct ColorCode(pub u8);

/// The packed byte that a foreground/background pair produces.
pub open spec fn attribute(foreground: Color, background: Color) -> ColorCode {
    ColorCode((background.spec_code() << 4) | foreground.spec_code())
}

impl ColorCode {
    pub fn new(foreground: Color, background: Color) -> (r: ColorCode)
        ensures
            r == attribute(foreground, background),
            r.0 == (background.spec_code() << 4) | foreground.spec_code(),
    {
        ColorCode((background.code() << 4) | foreground.code())
    }
}

/// One displayable cell: a character byte plus its color attribute.
#[derive(Debug, Copy, Clone, PartialEq, Eq, Structural)]
pub struct ScreenChar {
    pub ascii_character: u8,
    pub color_code: ColorCode,
}

/// A blank cell in the given color.
pub open spec fn blank_char(color: ColorCode) -> ScreenChar {
    ScreenChar { ascii_character: BLANK, color_code: color }
}

/// A whole row of blank cells in the given color.
pub open spec fn blank_row(color: ColorCode) -> Seq<ScreenChar> {
    Seq::new(BUFFER_WIDTH as nat, |c: int| blank_char(color))
}

/// A whole grid of blank cells in the given color.
pub open spec fn blank_grid(color: ColorCode) -> Seq<Seq<ScreenChar>> {
    Seq::new(BUFFER_HEIGHT as nat, |r: int| blank_row(color))
}

/// The abstract state of the display: the grid contents, the cursor column on
/// the bottom row, and the active color attribute.
#[verifier::ext_equal]
pub ghost struct DisplayModel {
    pub grid: Seq<Seq<ScreenChar>>,
    pub col: int,
    pub color: ColorCode,
}

/// A well-formed display state: a 25 x 80 grid, cursor column at most 80.
pub open spec fn wf_model(m: DisplayModel) -> bool {
    &&& m.grid.len() == BUFFER_HEIGHT
    &&& forall|r: int| 0 <= r < BUFFER_HEIGHT ==> (#[trigger] m.grid[r]).len() == BUFFER_WIDTH
    &&& 0 <= m.col <= BUFFER_WIDTH
}

/// The state at driver construction: a blank grid, cursor at column 0.
pub open spec fn initial_model(color: ColorCode) -> DisplayModel {
    DisplayModel { grid: blank_grid(color), col: 0, color }
}

/// The grid after a line-advance: every row moved up by one, the bottom row
/// blank in the given color.
pub open spec fn scrolled(g: Seq<Seq<ScreenChar>>, color: ColorCode) -> Seq<Seq<ScreenChar>> {
    Seq::new(
        BUFFER_HEIGHT as nat,
        |r: int| if r < BUFFER_HEIGHT - 1 { g[r + 1] } else { blank_row(color) },
    )
}

/// The state after a line-advance: the grid scrolled, the cursor back at column 0.
pub open spec fn advanced(m: DisplayModel) -> DisplayModel {
    DisplayModel { grid: scrolled(m.grid, m.color), col: 0, color: m.color }
}

/// The state after placing byte `b` at the cursor: one cell of the bottom row
/// overwritten, the cursor moved one column to the right.
pub open spec fn placed(m: DisplayModel, b: u8) -> DisplayModel {
    DisplayModel {
        grid: m.grid.update(
            BUFFER_HEIGHT - 1,
            m.grid[BUFFER_HEIGHT - 1].update(
                m.col,
                ScreenChar { ascii_character: b, color_code: m.color },
            ),
        ),
        col: m.col + 1,
        color: m.color,
    }
}

/// What one byte handed to `Writer::write_byte` does to the display: a newline
/// advances the line; any other byte is placed at the cursor, after a
/// line-advance if the bottom row is already full.
pub open spec fn step_byte(m: DisplayModel, b: u8) -> DisplayModel {
    if b == NEWLINE {
        advanced(m)
    } else if m.col >= BUFFER_WIDTH {
        placed(advanced(m), b)
    } else {
        placed(m, b)
    }
}

/// Whether the display can show byte `b` as a glyph.
pub open spec fn printable(b: u8) -> bool {
    0x20 <= b <= 0x7e
}

/// What `Writer::write_string` forwards for one input byte: printable bytes and
/// the newline pass unchanged, everything else becomes the substitute glyph.
pub open spec fn translate(b: u8) -> u8 {
    if printable(b) || b == NEWLINE {
        b
    } else {
        SUBSTITUTE
    }
}

/// What a whole byte sequence does to the display, front to back, with the
/// substitution applied to each byte.
pub open spec fn step_bytes(m: DisplayModel, bytes: Seq<u8>) -> DisplayModel
    decreases bytes.len(),
{
    if bytes.len() == 0 {
        m
    } else {
        step_bytes(step_byte(m, translate(bytes[0])), bytes.drop_first())
    }
}

/// The character grid. Each cell sits behind a volatile wrapper and is touched
/// only through the trusted volatile accesses; the cells are stored flat, row
/// after row, as the hardware lays them out.
pub struct Buffer {
    pub cells: Vec<Volatile<ScreenChar>>,
}

impl Buffer {
    /// The grid holds exactly 25 x 80 cells.
    pub open spec fn wf(self) -> bool {
        self.cells@.len() == BUFFER_HEIGHT * BUFFER_WIDTH
    }

    /// The grid contents, row by row.
    pub open spec fn grid(self) -> Seq<Seq<ScreenChar>> {
        Seq::new(
            BUFFER_HEIGHT as nat,
            |r: int|
                Seq::new(
                    BUFFER_WIDTH as nat,
                    |c: int| cell_value(self.cells@[r * (BUFFER_WIDTH as int) + c]),
                ),
        )
    }
}

/// The display driver: the grid plus the cursor column and the active color.
pub struct Writer {
    pub column_position: usize,
    pub color_code: ColorCode,
    pub buffer: Buffer,
}

impl Writer {
    /// A well-formed writer: full-size grid, cursor column at most 80.
    pub open spec fn wf(self) -> bool {
        &&& self.buffer.wf()
        &&& self.column_position <= BUFFER_WIDTH
    }

    /// The abstract display state this writer is in.
    pub open spec fn model(self) -> DisplayModel {
        DisplayModel {
            grid: self.buffer.grid(),
            col: self.column_position as int,
            color: self.color_code,
        }
    }

    /// Builds a driver over a cleared grid: every cell blank in the given
    /// colors, cursor at column 0.
    pub fn new(foreground: Color, background: Color) -> (w: Writer)
        ensures
            w.wf(),
            w.model() == initial_model(attribute(foreground, background)),
    {
        let color_code = ColorCode::new(foreground, background);
        let blank_screen = ScreenChar { ascii_character: BLANK, color_code };
        let mut cells: Vec<Volatile<ScreenChar>> = Vec::new();
        let mut i: usize = 0;
        while i < BUFFER_HEIGHT * BUFFER_WIDTH
            invariant
                i <= BUFFER_HEIGHT * BUFFER_WIDTH,
                cells@.len() == i,
                blank_screen == blank_char(color_code),
                forall|j: int| 0 <= j < i ==> cell_value(#[trigger] cells@[j]) == blank_char(color_code),
            decreases BUFFER_HEIGHT * BUFFER_WIDTH - i,
        {
            cells.push(vol_new(blank_screen));
            i = i + 1;
        }
        let w = Writer { column_position: 0, color_code, buffer: Buffer { cells } };
        proof {
            assert forall|r: int| 0 <= r < BUFFER_HEIGHT implies #[trigger] w.buffer.grid()[r]
                =~= blank_row(color_code) by {
                assert forall|c: int| 0 <= c < BUFFER_WIDTH implies #[trigger] w.buffer.grid()[r][c]
                    == blank_char(color_code) by {
                    assert(0 <= r * (BUFFER_WIDTH as int) + c < BUFFER_HEIGHT * BUFFER_WIDTH);
                }
            }
            assert(w.model() =~~= initial_model(attribute(foreground, background)));
        }
        w
    }

    /// Overwrites every cell of row `row` with a blank cell in the active color.
    fn clear_row(&mut self, row: usize)
        requires
            old(self).wf(),
            row < BUFFER_HEIGHT,
        ensures
            final(self).wf(),
            final(self).column_position == old(self).column_position,
            final(self).color_code == old(self).color_code,
            final(self).buffer.grid() == old(self).buffer.grid().update(
                row as int,
                blank_row(old(self).color_code),
            ),
    {
        let blank_screen = ScreenChar { ascii_character: BLANK, color_code: self.color_code };
        let ghost b0 = self.buffer;
        let w = BUFFER_WIDTH;
        let mut col: usize = 0;
        while col < BUFFER_WIDTH
            invariant
                col <= BUFFER_WIDTH,
                w == BUFFER_WIDTH,
                row < BUFFER_HEIGHT,
                self.wf(),
                self.column_position == old(self).column_position,
                self.color_code == old(self).color_code,
                blank_screen == blank_char(old(self).color_code),
                b0 == old(self).buffer,
                forall|j: int|
                    0 <= j < BUFFER_HEIGHT * BUFFER_WIDTH && !(row * (w as int) <= j < row * (
                    w as int) + col) ==> #[trigger] self.buffer.cells@[j] == b0.cells@[j],
                forall|j: int|
                    row * (w as int) <= j < row * (w as int) + col ==> cell_value(
                        #[trigger] self.buffer.cells@[j],
                    ) == blank_char(old(self).color_code),
            decreases BUFFER_WIDTH - col,
        {
            vol_write(&mut self.buffer.cells, row * w + col, blank_screen);
            col = col + 1;
        }
        proof {
            let target = b0.grid().update(row as int, blank_row(old(self).color_code));
            assert forall|r: int| 0 <= r < BUFFER_HEIGHT implies #[trigger] self.buffer.grid()[r]
                =~= target[r] by {
                assert forall|c: int| 0 <= c < BUFFER_WIDTH implies #[trigger] self.buffer.grid(
                )[r][c] == target[r][c] by {
                    assert(0 <= r * (BUFFER_WIDTH as int) + c < BUFFER_HEIGHT * BUFFER_WIDTH);
                    if r != row {
                        assert(!(row * (BUFFER_WIDTH as int) <= r * (BUFFER_WIDTH as int) + c < row
                            * (BUFFER_WIDTH as int) + BUFFER_WIDTH));
                    }
                }
            }
            assert(self.buffer.grid() =~~= target);
        }
    }

    /// Line-advance: every row moves up by one (row 0's prior contents are
    /// discarded), the bottom row is cleared to blanks in the active color, and
    /// the cursor column resets to 0.
    fn new_line(&mut self)
        requires
            old(self).wf(),
        ensures
            final(self).wf(),
            final(self).model() == advanced(old(self).model()),
            final(self).column_position == 0,
            final(self).color_code == old(self).color_code,
            forall|r: int|
                1 <= r < BUFFER_HEIGHT ==> final(self).model().grid[r - 1] == old(
                    self,
                ).model().grid[r],
            final(self).model().grid[BUFFER_HEIGHT - 1] == blank_row(old(self).color_code),
    {
        let ghost b0 = self.buffer;
        let w = BUFFER_WIDTH;
        let ghost total = (BUFFER_HEIGHT * BUFFER_WIDTH) as int;
        let mut row: usize = 1;
        while row < BUFFER_HEIGHT
            invariant
                1 <= row <= BUFFER_HEIGHT,
                w == BUFFER_WIDTH,
                total == BUFFER_HEIGHT * BUFFER_WIDTH,
                self.wf(),
                self.column_position == old(self).column_position,
                self.color_code == old(self).color_code,
                b0 == old(self).buffer,
                forall|j: int|
                    0 <= j < (row - 1) * (w as int) ==> cell_value(
                        #[trigger] self.buffer.cells@[j],
                    ) == cell_value(b0.cells@[j + w]),
                forall|j: int|
                    (row - 1) * (w as int) <= j < total ==> #[trigger] self.buffer.cells@[j]
                        == b0.cells@[j],
            decreases BUFFER_HEIGHT - row,
        {
            let mut col: usize = 0;
            while col < BUFFER_WIDTH
                invariant
                    1 <= row < BUFFER_HEIGHT,
                    col <= BUFFER_WIDTH,
                    w == BUFFER_WIDTH,
                    total == BUFFER_HEIGHT * BUFFER_WIDTH,
                    self.wf(),
                    self.column_position == old(self).column_position,
                    self.color_code == old(self).color_code,
                    b0 == old(self).buffer,
                    forall|j: int|
                        0 <= j < (row - 1) * (w as int) + col ==> cell_value(
                            #[trigger] self.buffer.cells@[j],
                        ) == cell_value(b0.cells@[j + w]),
                    forall|j: int|
                        (row - 1) * (w as int) + col <= j < total ==> #[trigger] self.buffer.cells@[j]
                            == b0.cells@[j],
                decreases BUFFER_WIDTH - col,
            {
                let character = vol_read(&self.buffer.cells, row * w + col);
                vol_write(&mut self.buffer.cells, (row - 1) * w + col, character);
                col = col + 1;
            }
            row = row + 1;
        }
        self.column_position = 0;
        let ghost b_shift = self.buffer;
        self.clear_row(BUFFER_HEIGHT - 1);
        proof {
            let gold = b0.grid();
            let target = scrolled(gold, old(self).color_code);
            assert forall|r: int| 0 <= r < BUFFER_HEIGHT - 1 implies #[trigger] b_shift.grid()[r]
                =~= gold[r + 1] by {
                assert forall|c: int| 0 <= c < BUFFER_WIDTH implies #[trigger] b_shift.grid()[r][c]
                    == gold[r + 1][c] by {
                    assert(0 <= r * (BUFFER_WIDTH as int) + c < (BUFFER_HEIGHT - 1) * (
                    BUFFER_WIDTH as int));
                    assert(r * (BUFFER_WIDTH as int) + c + BUFFER_WIDTH == (r + 1) * (
                    BUFFER_WIDTH as int) + c);
                }
            }
            assert forall|r: int| 0 <= r < BUFFER_HEIGHT implies #[trigger] self.buffer.grid()[r]
                =~= target[r] by {
                if r < BUFFER_HEIGHT - 1 {
                    assert(self.buffer.grid()[r] == b_shift.grid()[r]);
                }
            }
            assert(self.buffer.grid() =~~= target);
            assert(self.model() =~~= advanced(old(self).model()));
        }
    }

    /// Writes one byte at the cursor. A newline triggers a line-advance and
    /// places no cell; any other byte is placed at the cursor in the active
    /// color, after a line-advance if the bottom row is already full. The byte
    /// is not validated for printability here: filtering happens one layer up,
    /// in `write_string`.
    pub fn write_byte(&mut self, byte: u8)
        requires
            old(self).wf(),
        ensures
            final(self).wf(),
            final(self).model() == step_byte(old(self).model(), byte),
    {
        if byte == NEWLINE {
            self.new_line();
        } else {
            if self.column_position >= BUFFER_WIDTH {
                self.new_line();
            }
            let ghost m_mid = self.model();
            let ghost b_mid = self.buffer;
            let row = BUFFER_HEIGHT - 1;
            let col = self.column_position;
            let color_code = self.color_code;
            vol_write(
                &mut self.buffer.cells,
                row * BUFFER_WIDTH + col,
                ScreenChar { ascii_character: byte, color_code },
            );
            self.column_position = col + 1;
            proof {
                lemma_buffer_update(b_mid, self.buffer, BUFFER_HEIGHT - 1, col as int);
                assert(self.model() =~~= placed(m_mid, byte));
            }
        }
    }
}

impl Writer {
    /// Writes a byte sequence front to back: printable bytes and newlines are
    /// forwarded to `write_byte` unchanged, every other byte is substituted by
    /// the fallback glyph. Every input byte produces exactly one write.
    pub fn write_bytes(&mut self, bytes: &[u8])
        requires
            old(self).wf(),
        ensures
            final(self).wf(),
            final(self).model() == step_bytes(old(self).model(), bytes@),
    {
        let ghost m0 = self.model();
        let n = bytes.len();
        let mut i: usize = 0;
        while i < n
            invariant
                i <= n,
                n == bytes@.len(),
                self.wf(),
                self.model() == step_bytes(m0, bytes@.take(i as int)),
            decreases n - i,
        {
            let b = bytes[i];
            if 0x20 <= b && b <= 0x7e || b == NEWLINE {
                self.write_byte(b);
            } else {
                self.write_byte(SUBSTITUTE);
            }
            proof {
                let ghost prefix = bytes@.take(i as int);
                lemma_step_bytes_append(m0, prefix, seq![bytes@[i as int]]);
                lemma_step_bytes_singleton(step_bytes(m0, prefix), bytes@[i as int]);
                assert(prefix + seq![bytes@[i as int]] =~= bytes@.take(i + 1));
            }
            i = i + 1;
        }
        proof {
            assert(bytes@.take(n as int) =~= bytes@);
        }
    }

    /// Writes a string: each byte of its UTF-8 encoding, in order, with the
    /// printability filter applied.
    pub fn write_string(&mut self, s: &str)
        requires
            old(self).wf(),
        ensures
            final(self).wf(),
            final(self).model() == step_bytes(old(self).model(), s.spec_bytes()),
    {
        self.write_bytes(s.as_bytes());
    }

    /// The current cursor column.
    pub fn column(&self) -> (r: usize)
        ensures
            r == self.model().col,
    {
        self.column_position
    }

    /// The active color attribute.
    pub fn color(&self) -> (r: ColorCode)
        ensures
            r == self.model().color,
    {
        self.color_code
    }

    /// The cell currently shown at the given grid position.
    pub fn char_at(&self, row: usize, col: usize) -> (r: ScreenChar)
        requires
            self.wf(),
            row < BUFFER_HEIGHT,
            col < BUFFER_WIDTH,
        ensures
            r == self.model().grid[row as int][col as int],
    {
        vol_read(&self.buffer.cells, row * BUFFER_WIDTH + col)
    }
}

/// Builds a fresh green-on-black driver over a cleared grid and prints the
/// demonstration greeting to it. The caller keeps the returned driver and
/// routes any further output through it.
pub fn print_something() -> (w: Writer)
    ensures
        w.wf(),
        w.model() == step_bytes(
            initial_model(attribute(Color::Green, Color::Black)),
            "Hello paulita i love you. You are very very beautiful do you now that? I am very proud of you baby gorl".spec_bytes(),
        ),
{
    let mut writer: Writer = Writer::new(Color::Green, Color::Black);
    writer.write_string(
        "Hello paulita i love you. You are very very beautiful do you now that? I am very proud of you baby gorl",
    );
    writer
}

/// Processing a single byte is one step on its translation.
pub proof fn lemma_step_bytes_singleton(m: DisplayModel, b: u8)
    ensures
        step_bytes(m, seq![b]) == step_byte(m, translate(b)),
{
    reveal_with_fuel(step_bytes, 2);
    assert(seq![b].drop_first() =~= Seq::<u8>::empty());
    assert(step_bytes(m, seq![b]) == step_bytes(
        step_byte(m, translate(b)),
        seq![b].drop_first(),
    ));
}

/// Processing a concatenation is processing the first part, then the second.
pub proof fn lemma_step_bytes_append(m: DisplayModel, s1: Seq<u8>, s2: Seq<u8>)
    ensures
        step_bytes(m, s1 + s2) == step_bytes(step_bytes(m, s1), s2),
    decreases s1.len(),
{
    if s1.len() == 0 {
        assert(s1 + s2 =~= s2);
    } else {
        assert((s1 + s2)[0] == s1[0]);
        assert((s1 + s2).drop_first() =~= s1.drop_first() + s2);
        lemma_step_bytes_append(step_byte(m, translate(s1[0])), s1.drop_first(), s2);
    }
}

/// A printable byte written with the cursor at column `m.col < 80` lands at
/// row 24, column `m.col`, carrying the active attribute; the cursor advances
/// by one; no other cell changes.
pub proof fn lemma_printable_write(m: DisplayModel, b: u8)
    requires
        wf_model(m),
        printable(b),
        m.col < BUFFER_WIDTH,
    ensures
        step_byte(m, b).grid[BUFFER_HEIGHT - 1][m.col] == (ScreenChar {
            ascii_character: b,
            color_code: m.color,
        }),
        step_byte(m, b).col == m.col + 1,
        step_byte(m, b).color == m.color,
        forall|r: int| 0 <= r < BUFFER_HEIGHT - 1 ==> step_byte(m, b).grid[r] == m.grid[r],
        forall|c: int|
            0 <= c < BUFFER_WIDTH && c != m.col ==> #[trigger] step_byte(m, b).grid[BUFFER_HEIGHT
                - 1][c] == m.grid[BUFFER_HEIGHT - 1][c],
{
    assert(b != NEWLINE);
    assert(step_byte(m, b) == placed(m, b));
}

/// A byte outside the printable range that is not the newline is written
/// exactly as the substitute glyph would be: the substitution is what the
/// string path does with it, nothing is dropped.
pub proof fn lemma_substitution(m: DisplayModel, b: u8)
    requires
        !printable(b),
        b != NEWLINE,
    ensures
        step_bytes(m, seq![b]) == step_byte(m, SUBSTITUTE),
{
    lemma_step_bytes_singleton(m, b);
    assert(translate(b) == SUBSTITUTE);
}

/// Printable bytes that fit on the bottom row fill it left to right from the
/// cursor, advance the cursor by their number, and touch nothing else.
pub proof fn lemma_row_fill(m: DisplayModel, bs: Seq<u8>)
    requires
        wf_model(m),
        forall|i: int| 0 <= i < bs.len() ==> printable(#[trigger] bs[i]),
        m.col + bs.len() <= BUFFER_WIDTH,
    ensures
        wf_model(step_bytes(m, bs)),
        step_bytes(m, bs).col == m.col + bs.len(),
        step_bytes(m, bs).color == m.color,
        forall|r: int| 0 <= r < BUFFER_HEIGHT - 1 ==> step_bytes(m, bs).grid[r] == m.grid[r],
        forall|c: int|
            0 <= c < m.col ==> #[trigger] step_bytes(m, bs).grid[BUFFER_HEIGHT - 1][c]
                == m.grid[BUFFER_HEIGHT - 1][c],
        forall|c: int|
            m.col <= c < m.col + bs.len() ==> #[trigger] step_bytes(m, bs).grid[BUFFER_HEIGHT
                - 1][c] == (ScreenChar { ascii_character: bs[c - m.col], color_code: m.color }),
        forall|c: int|
            m.col + bs.len() <= c < BUFFER_WIDTH ==> #[trigger] step_bytes(m, bs).grid[BUFFER_HEIGHT
                - 1][c] == m.grid[BUFFER_HEIGHT - 1][c],
    decreases bs.len(),
{
    if bs.len() > 0 {
        let b = bs[0];
        assert(translate(b) == b);
        let m1 = step_byte(m, b);
        assert(m1 == placed(m, b));
        assert(wf_model(m1));
        lemma_row_fill(m1, bs.drop_first());
        assert(step_bytes(m, bs) == step_bytes(m1, bs.drop_first()));
        assert forall|r: int| 0 <= r < BUFFER_HEIGHT - 1 implies #[trigger] step_bytes(
            m,
            bs,
        ).grid[r] == m.grid[r] by {
            assert(step_bytes(m, bs).grid[r] == step_bytes(m1, bs.drop_first()).grid[r]);
            assert(m1.grid[r] == m.grid[r]);
        }
        assert forall|c: int| m.col <= c < m.col + bs.len() implies #[trigger] step_bytes(
            m,
            bs,
        ).grid[BUFFER_HEIGHT - 1][c] == (ScreenChar {
            ascii_character: bs[c - m.col],
            color_code: m.color,
        }) by {
            if c > m.col {
                assert(bs.drop_first()[c - m1.col] == bs[c - m.col]);
            }
        }
    }
}

/// Eighty printable bytes starting at column 0 fill the bottom row without any
/// line-advance; the eighty-first triggers exactly one line-advance before it
/// is placed at row 24, column 0.
pub proof fn lemma_wrap_after_eighty(m: DisplayModel, bs: Seq<u8>)
    requires
        wf_model(m),
        m.col == 0,
        bs.len() == BUFFER_WIDTH + 1,
        forall|i: int| 0 <= i < bs.len() ==> printable(#[trigger] bs[i]),
    ensures
        step_bytes(m, bs.take(BUFFER_WIDTH as int)).col == BUFFER_WIDTH,
        forall|r: int|
            0 <= r < BUFFER_HEIGHT - 1 ==> step_bytes(m, bs.take(BUFFER_WIDTH as int)).grid[r]
                == m.grid[r],
        step_bytes(m, bs) == placed(
            advanced(step_bytes(m, bs.take(BUFFER_WIDTH as int))),
            bs[BUFFER_WIDTH as int],
        ),
        step_bytes(m, bs).grid[BUFFER_HEIGHT - 1][0] == (ScreenChar {
            ascii_character: bs[BUFFER_WIDTH as int],
            color_code: m.color,
        }),
        step_bytes(m, bs).col == 1,
{
    let width = BUFFER_WIDTH as int;
    let p = bs.take(width);
    let last = bs[width];
    assert(forall|i: int| 0 <= i < p.len() ==> printable(#[trigger] p[i]));
    lemma_row_fill(m, p);
    let m80 = step_bytes(m, p);
    lemma_step_bytes_append(m, p, seq![last]);
    lemma_step_bytes_singleton(m80, last);
    assert(p + seq![last] =~= bs);
    assert(translate(last) == last);
    assert(last != NEWLINE);
    assert(step_byte(m80, last) == placed(advanced(m80), last));
    assert(placed(advanced(m80), last).grid[BUFFER_HEIGHT - 1][0] == (ScreenChar {
        ascii_character: last,
        color_code: m.color,
    }));
}

/// Line-advance: every row `r` in `1..25` moves to `r - 1`, the bottom row
/// becomes entirely blank in the active color, and the cursor column resets
/// to 0.
pub proof fn lemma_line_advance(m: DisplayModel)
    requires
        wf_model(m),
    ensures
        forall|r: int| 1 <= r < BUFFER_HEIGHT ==> advanced(m).grid[r - 1] == m.grid[r],
        advanced(m).grid[BUFFER_HEIGHT - 1] == blank_row(m.color),
        advanced(m).col == 0,
        advanced(m).color == m.color,
{
}

/// A change of exactly one flat cell changes exactly one grid position.
proof fn lemma_buffer_update(b0: Buffer, b1: Buffer, row: int, col: int)
    requires
        b0.wf(),
        b1.wf(),
        0 <= row < BUFFER_HEIGHT,
        0 <= col < BUFFER_WIDTH,
        forall|j: int|
            0 <= j < BUFFER_HEIGHT * BUFFER_WIDTH && j != row * (BUFFER_WIDTH as int) + col
                ==> b1.cells@[j] == b0.cells@[j],
    ensures
        b1.grid() == b0.grid().update(
            row,
            b0.grid()[row].update(col, cell_value(b1.cells@[row * (BUFFER_WIDTH as int) + col])),
        ),
{
    let target = b0.grid().update(
        row,
        b0.grid()[row].update(col, cell_value(b1.cells@[row * (BUFFER_WIDTH as int) + col])),
    );
    assert forall|r: int| 0 <= r < BUFFER_HEIGHT implies #[trigger] b1.grid()[r] =~= target[r] by {
        assert forall|c: int| 0 <= c < BUFFER_WIDTH implies #[trigger] b1.grid()[r][c]
            == target[r][c] by {
            assert(0 <= r * (BUFFER_WIDTH as int) + c < BUFFER_HEIGHT * BUFFER_WIDTH);
            if r != row || c != col {
                assert(r * (BUFFER_WIDTH as int) + c != row * (BUFFER_WIDTH as int) + col);
            }
        }
    }
    assert(b1.grid() =~~= target);
}

} // verus!

