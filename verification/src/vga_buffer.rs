//! Text-screen writer: a model of the VGA text buffer as owned rows of
//! screen characters. Writing always happens on the bottom row; a newline
//! (or running past the right edge) scrolls every row up by one and blanks
//! the bottom row. The hardware half — blitting these rows into video
//! memory — is not part of the library.

use vstd::prelude::*;

verus! {

use vstd::string::StringSliceAdditionalSpecFns;

/// Number of text rows on the screen.
pub const BUFFER_HEIGHT: usize = 25;

/// Number of text columns on the screen.
pub const BUFFER_WIDTH: usize = 80;

/// The sixteen colors of the VGA text palette.
#[derive(Debug, Clone, Copy, PartialEq, Eq, Structural)]
pub enum Color {
    Black,
    Blue,
    Green,
    Cyan,
    Red,
    Magenta,
    Brown,
    LightGray,
    DarkGray,
    LightBlue,
    LightGreen,
    LightCyan,
    LightRed,
    Pink,
    Yellow,
    White,
}

impl Color {
    /// The palette number of this color, 0 through 15.
    pub open spec fn spec_code(self) -> u8 {
        match self {
            Color::Black => 0,
            Color::Blue => 1,
            Color::Green => 2,
            Color::Cyan => 3,
            Color::Red => 4,
            Color::Magenta => 5,
            Color::Brown => 6,
            Color::LightGray => 7,
            Color::DarkGray => 8,
            Color::LightBlue => 9,
            Color::LightGreen => 10,
            Color::LightCyan => 11,
            Color::LightRed => 12,
            Color::Pink => 13,
            Color::Yellow => 14,
            Color::White => 15,
        }
    }

    /// The palette number of this color.
    pub fn code(self) -> (c: u8)
        ensures
            c == self.spec_code(),
            c < 16,
    {
        match self {
            Color::Black => 0,
            Color::Blue => 1,
            Color::Green => 2,
            Color::Cyan => 3,
            Color::Red => 4,
            Color::Magenta => 5,
            Color::Brown => 6,
            Color::LightGray => 7,
            Color::DarkGray => 8,
            Color::LightBlue => 9,
            Color::LightGreen => 10,
            Color::LightCyan => 11,
            Color::LightRed => 12,
            Color::Pink => 13,
            Color::Yellow => 14,
            Color::White => 15,
        }
    }
}

/// One attribute byte: background palette number in the high four bits,
/// foreground in the low four.
#[derive(Debug, Clone, Copy, PartialEq, Eq, Structural)]
pub struct ColorCode(pub u8);

impl ColorCode {
    /// Pack a foreground and a background color into one attribute byte.
    pub fn new(foreground: Color, background: Color) -> (c: ColorCode)
        ensures
            c.0 == background.spec_code() * 16 + foreground.spec_code(),
    {
        let bg = background.code();
        let fg = foreground.code();
        proof {
            assert((bg << 4) | fg == bg * 16 + fg) by (bit_vector)
                requires
                    bg < 16,
                    fg < 16,
            ;
        }
        ColorCode((bg << 4) | fg)
    }
}

/// One screen cell: an ASCII byte and its attribute byte.
#[derive(Debug, Clone, Copy, PartialEq, Eq, Structural)]
pub struct ScreenChar {
    pub ascii_char: u8,
    pub color_code: ColorCode,
}

/// Ghost view of the screen: its rows of cells and the cursor column on
/// the bottom row.
pub struct ScreenState {
    pub rows: Seq<Seq<ScreenChar>>,
    pub column: nat,
}

/// A blank cell: a space in the given attribute.
pub open spec fn spec_blank(color: ColorCode) -> ScreenChar {
    ScreenChar { ascii_char: 32, color_code: color }
}

/// A whole row of blank cells.
pub open spec fn spec_blank_row(color: ColorCode) -> Seq<ScreenChar> {
    Seq::new(BUFFER_WIDTH as nat, |c: int| spec_blank(color))
}

/// Scrolling: every row moves up by one and the bottom row becomes blank.
pub open spec fn spec_scroll(rows: Seq<Seq<ScreenChar>>, color: ColorCode) -> Seq<
    Seq<ScreenChar>,
> {
    rows.drop_first().push(spec_blank_row(color))
}

/// Effect of writing one byte: a newline scrolls and rewinds the cursor; a
/// full bottom row scrolls first; otherwise the byte lands in the cursor
/// cell of the bottom row and the cursor moves right.
pub open spec fn spec_write_byte(s: ScreenState, color: ColorCode, byte: u8) -> ScreenState {
    if byte == 10 {
        ScreenState { rows: spec_scroll(s.rows, color), column: 0 }
    } else if s.column >= BUFFER_WIDTH {
        let scrolled = spec_scroll(s.rows, color);
        ScreenState {
            rows: scrolled.update(
                BUFFER_HEIGHT - 1,
                scrolled[BUFFER_HEIGHT - 1].update(
                    0,
                    ScreenChar { ascii_char: byte, color_code: color },
                ),
            ),
            column: 1,
        }
    } else {
        ScreenState {
            rows: s.rows.update(
                BUFFER_HEIGHT - 1,
                s.rows[BUFFER_HEIGHT - 1].update(
                    s.column as int,
                    ScreenChar { ascii_char: byte, color_code: color },
                ),
            ),
            column: s.column + 1,
        }
    }
}

/// The byte a string write actually prints for `b`: printable ASCII and
/// newline go through, anything else prints the fallback glyph 0xfe.
pub open spec fn spec_filter_byte(b: u8) -> u8 {
    if (0x20 <= b <= 0x7e) || b == 10 {
        b
    } else {
        0xfe
    }
}

/// Effect of writing a whole byte string, front to back.
pub open spec fn spec_write_bytes(s: ScreenState, color: ColorCode, bytes: Seq<u8>) -> ScreenState
    decreases bytes.len(),
{
    if bytes.len() == 0 {
        s
    } else {
        spec_write_bytes(
            spec_write_byte(s, color, spec_filter_byte(bytes[0])),
            color,
            bytes.drop_first(),
        )
    }
}

/// Writer over an owned text screen: always writes into the bottom row at
/// the cursor column, in one fixed attribute.
pub struct Writer {
    /// Cursor column on the bottom row; `BUFFER_WIDTH` means the row is
    /// full and the next byte scrolls first.
    pub column_position: usize,
    /// Attribute every written cell gets.
    pub color_code: ColorCode,
    /// The screen: `BUFFER_HEIGHT` rows of `BUFFER_WIDTH` cells.
    pub buffer: Vec<Vec<ScreenChar>>,
}

impl View for Writer {
    type V = ScreenState;

    open spec fn view(&self) -> ScreenState {
        ScreenState {
            rows: self.buffer@.map_values(|row: Vec<ScreenChar>| row@),
            column: self.column_position as nat,
        }
    }
}

/// Build one blank row in the given attribute.
fn blank_row(color_code: ColorCode) -> (row: Vec<ScreenChar>)
    ensures
        row@ == spec_blank_row(color_code),
{
    let mut row: Vec<ScreenChar> = Vec::new();
    let mut c: usize = 0;
    while c < BUFFER_WIDTH
        invariant
            c <= BUFFER_WIDTH,
            row@.len() == c,
            forall|k: int| 0 <= k < c ==> #[trigger] row@[k] == spec_blank(color_code),
        decreases BUFFER_WIDTH - c,
    {
        row.push(ScreenChar { ascii_char: 32, color_code });
        c = c + 1;
    }
    proof {
        assert(row@ =~= spec_blank_row(color_code));
    }
    row
}

impl Writer {
    /// The screen has its full shape and the cursor is on it.
    pub open spec fn wf(self) -> bool {
        &&& self.column_position <= BUFFER_WIDTH
        &&& self.buffer@.len() == BUFFER_HEIGHT
        &&& (forall|r: int|
            0 <= r < BUFFER_HEIGHT ==> (#[trigger] self.buffer@[r])@.len() == BUFFER_WIDTH)
    }

    /// A writer over a blank screen, cursor at the left edge.
    pub fn new(color_code: ColorCode) -> (w: Writer)
        ensures
            w.wf(),
            w.color_code == color_code,
            w@.column == 0,
            w@.rows == Seq::new(BUFFER_HEIGHT as nat, |r: int| spec_blank_row(color_code)),
    {
        let mut buffer: Vec<Vec<ScreenChar>> = Vec::new();
        let mut r: usize = 0;
        while r < BUFFER_HEIGHT
            invariant
                r <= BUFFER_HEIGHT,
                buffer@.len() == r,
                forall|k: int|
                    0 <= k < r ==> (#[trigger] buffer@[k])@ == spec_blank_row(color_code),
            decreases BUFFER_HEIGHT - r,
        {
            buffer.push(blank_row(color_code));
            r = r + 1;
        }
        let w = Writer { column_position: 0, color_code, buffer };
        proof {
            assert(w@.rows =~= Seq::new(
                BUFFER_HEIGHT as nat,
                |r: int| spec_blank_row(color_code),
            ));
        }
        w
    }

    /// Replace row `row` with a fresh blank row in the current attribute.
    fn clear_row(&mut self, row: usize)
        requires
            row < old(self).buffer@.len(),
        ensures
            final(self).column_position == old(self).column_position,
            final(self).color_code == old(self).color_code,
            final(self).buffer@.len() == old(self).buffer@.len(),
            (final(self).buffer@[row as int])@ == spec_blank_row(old(self).color_code),
            forall|k: int|
                0 <= k < old(self).buffer@.len() && k != row ==> final(self).buffer@[k] == old(
                    self,
                ).buffer@[k],
    {
        let fresh = blank_row(self.color_code);
        self.buffer[row] = fresh;
    }

    /// Scroll: every row moves up by one, the bottom row becomes blank,
    /// and the cursor rewinds to the left edge.
    fn new_line(&mut self)
        requires
            old(self).wf(),
        ensures
            final(self).wf(),
            final(self).color_code == old(self).color_code,
            final(self)@.rows == spec_scroll(old(self)@.rows, old(self).color_code),
            final(self)@.column == 0,
    {
        let _top = self.buffer.remove(0);
        self.buffer.push(Vec::new());
        let last = BUFFER_HEIGHT - 1;
        self.clear_row(last);
        self.column_position = 0;
        proof {
            assert(final(self)@.rows =~~= spec_scroll(old(self)@.rows, old(self).color_code));
        }
    }

    /// Write one byte into the cursor cell of the bottom row, scrolling
    /// first on a newline or a full row.
    pub fn write_byte(&mut self, byte: u8)
        requires
            old(self).wf(),
        ensures
            final(self).wf(),
            final(self).color_code == old(self).color_code,
            final(self)@ == spec_write_byte(old(self)@, old(self).color_code, byte),
    {
        if byte == 10 {
            self.new_line();
            proof {
                assert(final(self)@ == spec_write_byte(old(self)@, old(self).color_code, byte));
            }
        } else {
            let ghost pre = *old(self);
            let scrolled = self.column_position >= BUFFER_WIDTH;
            if scrolled {
                self.new_line();
            }
            let ghost mid = *self;
            let row = BUFFER_HEIGHT - 1;
            let col = self.column_position;
            let color_code = self.color_code;
            self.buffer[row][col] = ScreenChar { ascii_char: byte, color_code };
            self.column_position = self.column_position + 1;
            proof {
                let target = spec_write_byte(pre@, pre.color_code, byte);
                assert(self@.rows =~~= target.rows);
                assert(self@.column == target.column);
            }
        }
    }

    /// Write a whole string: printable ASCII bytes and newlines go to
    /// `write_byte` as they are, every other byte prints the fallback
    /// glyph 0xfe.
    pub fn write_string(&mut self, s: &str)
        requires
            old(self).wf(),
        ensures
            final(self).wf(),
            final(self).color_code == old(self).color_code,
            final(self)@ == spec_write_bytes(old(self)@, old(self).color_code, s.spec_bytes()),
    {
        let bytes = s.as_bytes();
        let n = bytes.len();
        let mut i: usize = 0;
        proof {
            assert(bytes@.skip(0) =~= bytes@);
        }
        while i < n
            invariant
                self.wf(),
                self.color_code == old(self).color_code,
                n == bytes@.len(),
                bytes@ == s.spec_bytes(),
                i <= n,
                spec_write_bytes(old(self)@, old(self).color_code, bytes@) == spec_write_bytes(
                    self@,
                    self.color_code,
                    bytes@.skip(i as int),
                ),
            decreases n - i,
        {
            proof {
                assert(bytes@.skip(i as int).drop_first() =~= bytes@.skip(i as int + 1));
                assert(bytes@.skip(i as int)[0] == bytes@[i as int]);
            }
            let byte = bytes[i];
            if (byte >= 0x20 && byte <= 0x7e) || byte == 10 {
                self.write_byte(byte);
            } else {
                self.write_byte(0xfe);
            }
            i = i + 1;
        }
        proof {
            assert(bytes@.skip(n as int) =~= Seq::<u8>::empty());
        }
    }
}

} // verus!
