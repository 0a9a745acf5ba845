use vstd::prelude::*;
use vstd::string::StringSliceAdditionalSpecFns;

verus! {

/// Rows of the text screen.
pub const BUFFER_HEIGHT: usize = 25;

/// Columns of the text screen.
pub const BUFFER_WIDTH: usize = 80;

/// Cells of the text screen.
pub const BUFFER_SIZE: usize = 2000;

/// The sixteen text colours.
#[derive(Debug, Clone, Copy, PartialEq, Eq, Structural)]
pub enum Color {
    Black,
    Blue,
    Green,
    Cyan,
    Red,
    Magenta,
    Brown,
    LightGray,
    DarkGray,
    LightBlue,
    LightGreen,
    LightCyan,
    LightRed,
    Pink,
    Yellow,
    White,
}

/// The hardware number of a colour.
pub open spec fn color_number(c: Color) -> u8 {
    match c {
        Color::Black => 0,
        Color::Blue => 1,
        Color::Green => 2,
        Color::Cyan => 3,
        Color::Red => 4,
        Color::Magenta => 5,
        Color::Brown => 6,
        Color::LightGray => 7,
        Color::DarkGray => 8,
        Color::LightBlue => 9,
        Color::LightGreen => 10,
        Color::LightCyan => 11,
        Color::LightRed => 12,
        Color::Pink => 13,
        Color::Yellow => 14,
        Color::White => 15,
    }
}

impl Color {
    /// The hardware number of the colour.
    pub fn number(&self) -> (r: u8)
        ensures
            r == color_number(*self),
    {
        match self {
            Color::Black => 0,
            Color::Blue => 1,
            Color::Green => 2,
            Color::Cyan => 3,
            Color::Red => 4,
            Color::Magenta => 5,
            Color::Brown => 6,
            Color::LightGray => 7,
            Color::DarkGray => 8,
            Color::LightBlue => 9,
            Color::LightGreen => 10,
            Color::LightCyan => 11,
            Color::LightRed => 12,
            Color::Pink => 13,
            Color::Yellow => 14,
            Color::White => 15,
        }
    }
}

/// Foreground colour in the low four bits, background in the high four.
#[derive(Debug, Clone, Copy, PartialEq, Eq, Structural)]
pub struct ColorCode(pub u8);

impl ColorCode {
    pub fn new(foreground: Color, background: Color) -> (r: ColorCode)
        ensures
            r.0 == color_number(background) * 16 + color_number(foreground),
    {
        ColorCode(background.number() * 16 + foreground.number())
    }
}

/// One cell of the screen: a character and its colours.
#[derive(Debug, Clone, Copy, PartialEq, Eq, Structural)]
pub struct ScreenChar {
    pub ascii_character: u8,
    pub color_code: ColorCode,
}

/// Writes text into a 80 x 25 screen of cells, scrolling up when the text
/// runs past the last row.
pub struct Writer {
    pub column_position: usize,
    pub row_position: usize,
    pub color_code: ColorCode,
    pub buffer: Vec<ScreenChar>,
}

/// A blank cell in `color`.
pub open spec fn blank(color: ColorCode) -> ScreenChar {
    ScreenChar { ascii_character: 0x20, color_code: color }
}

/// The screen moved up one row, with a blank last row.
pub open spec fn scrolled(buf: Seq<ScreenChar>, color: ColorCode) -> Seq<ScreenChar> {
    buf.subrange(80, 2000) + Seq::new(80, |i: int| blank(color))
}

/// Row, column and screen after writing byte `b` from row `row` and column
/// `col`: a newline moves to the start of the next row; another byte fills
/// cell `row * 80 + col` and moves one column on (past column 79 the cells
/// of the following rows are filled in turn). Past the last row the screen
/// scrolls up.
pub open spec fn after_byte(row: int, col: int, buf: Seq<ScreenChar>, color: ColorCode, b: u8) -> (
    int,
    int,
    Seq<ScreenChar>,
) {
    if b == 0x0A {
        if row + 1 > 24 {
            (24, 0, scrolled(buf, color))
        } else {
            (row + 1, 0, buf)
        }
    } else {
        (row, col + 1, buf.update(row * 80 + col, ScreenChar { ascii_character: b, color_code: color }))
    }
}

/// Byte `b` can be written at row `row` and column `col`: it is a newline,
/// or its cell lies on the screen.
pub open spec fn byte_fits(row: int, col: int, b: u8) -> bool {
    b == 0x0A || row * 80 + col < 2000
}

/// Each of the bytes `s`, written in order, can be written where it falls.
pub open spec fn bytes_fit(row: int, col: int, buf: Seq<ScreenChar>, color: ColorCode, s: Seq<u8>) -> bool
    decreases s.len(),
{
    if s.len() == 0 {
        true
    } else {
        let (r, c, b) = after_byte(row, col, buf, color, s[0]);
        byte_fits(row, col, s[0]) && bytes_fit(r, c, b, color, s.subrange(1, s.len() as int))
    }
}

/// Row, column and screen after writing the bytes `s` in order.
pub open spec fn after_bytes(
    row: int,
    col: int,
    buf: Seq<ScreenChar>,
    color: ColorCode,
    s: Seq<u8>,
) -> (int, int, Seq<ScreenChar>)
    decreases s.len(),
{
    if s.len() == 0 {
        (row, col, buf)
    } else {
        let (r, c, b) = after_byte(row, col, buf, color, s[0]);
        after_bytes(r, c, b, color, s.subrange(1, s.len() as int))
    }
}

impl Writer {
    /// The cursor is on the screen and the screen has all its cells.
    pub open spec fn wf(&self) -> bool {
        &&& self.row_position < 25
        &&& self.buffer@.len() == 2000
    }

    /// A blank screen in `color`, with the cursor at the top left.
    pub fn new(color_code: ColorCode) -> (r: Writer)
        ensures
            r.wf(),
            r.row_position == 0,
            r.column_position == 0,
            r.color_code == color_code,
            r.buffer@ == Seq::new(2000, |i: int| blank(color_code)),
    {
        let mut buffer: Vec<ScreenChar> = Vec::new();
        let mut i: usize = 0;
        while i < BUFFER_SIZE
            invariant
                i <= 2000,
                buffer@ == Seq::new(i as nat, |j: int| blank(color_code)),
            decreases 2000 - i,
        {
            buffer.push(ScreenChar { ascii_character: 0x20, color_code });
            i += 1;
            assert(buffer@ =~= Seq::new(i as nat, |j: int| blank(color_code)));
        }
        Writer { column_position: 0, row_position: 0, color_code, buffer }
    }

    /// Writes one byte at the cursor.
    pub fn write_byte(&mut self, byte: u8)
        requires
            old(self).wf(),
            byte_fits(old(self).row_position as int, old(self).column_position as int, byte),
        ensures
            final(self).wf(),
            final(self).color_code == old(self).color_code,
            (final(self).row_position as int, final(self).column_position as int, final(self).buffer@)
                == after_byte(
                old(self).row_position as int,
                old(self).column_position as int,
                old(self).buffer@,
                old(self).color_code,
                byte,
            ),
    {
        if byte == 0x0A {
            self.new_line();
        } else {
            let row = self.row_position;
            let col = self.column_position;
            self.buffer.set(
                row * BUFFER_WIDTH + col,
                ScreenChar { ascii_character: byte, color_code: self.color_code },
            );
            self.column_position = col + 1;
        }
        self.scroll();
    }

    /// Past the last row, moves the screen up one row and blanks the last.
    fn scroll(&mut self)
        requires
            old(self).row_position <= 25,
            old(self).buffer@.len() == 2000,
        ensures
            final(self).wf(),
            final(self).color_code == old(self).color_code,
            final(self).column_position == old(self).column_position,
            old(self).row_position > 24 ==> final(self).row_position == 24 && final(self).buffer@
                == scrolled(old(self).buffer@, old(self).color_code),
            old(self).row_position <= 24 ==> final(self).row_position == old(self).row_position
                && final(self).buffer@ == old(self).buffer@,
    {
        if self.row_position > BUFFER_HEIGHT - 1 {
            let space = ScreenChar { ascii_character: 0x20, color_code: self.color_code };
            let ghost before = self.buffer@;
            let mut i: usize = 0;
            while i < (BUFFER_HEIGHT - 1) * BUFFER_WIDTH
                invariant
                    i <= 1920,
                    self.buffer@.len() == 2000,
                    self.row_position == old(self).row_position,
                    self.column_position == old(self).column_position,
                    self.color_code == old(self).color_code,
                    space == blank(self.color_code),
                    forall|j: int| 0 <= j < i ==> #[trigger] self.buffer@[j] == before[j + 80],
                    forall|j: int| i <= j < 2000 ==> #[trigger] self.buffer@[j] == before[j],
                decreases 1920 - i,
            {
                let c = self.buffer[i + BUFFER_WIDTH];
                self.buffer.set(i, c);
                i += 1;
            }
            while i < BUFFER_SIZE
                invariant
                    1920 <= i <= 2000,
                    self.buffer@.len() == 2000,
                    self.row_position == old(self).row_position,
                    self.column_position == old(self).column_position,
                    self.color_code == old(self).color_code,
                    space == blank(self.color_code),
                    forall|j: int| 0 <= j < 1920 ==> #[trigger] self.buffer@[j] == before[j + 80],
                    forall|j: int| 1920 <= j < i ==> #[trigger] self.buffer@[j] == space,
                decreases 2000 - i,
            {
                self.buffer.set(i, space);
                i += 1;
            }
            self.row_position = BUFFER_HEIGHT - 1;
            assert(self.buffer@ =~= scrolled(before, self.color_code));
        }
    }

    /// Moves the cursor to the start of the next row.
    fn new_line(&mut self)
        requires
            old(self).row_position < 25,
        ensures
            *final(self) == (Writer {
                column_position: 0,
                row_position: (old(self).row_position + 1) as usize,
                ..*old(self)
            }),
    {
        self.column_position = 0;
        self.row_position = self.row_position + 1;
    }

    /// Blanks the whole screen; the cursor stays.
    pub fn clear(&mut self)
        requires
            old(self).wf(),
        ensures
            final(self).wf(),
            final(self).row_position == old(self).row_position,
            final(self).column_position == old(self).column_position,
            final(self).color_code == old(self).color_code,
            final(self).buffer@ == Seq::new(2000, |i: int| blank(old(self).color_code)),
    {
        let space = ScreenChar { ascii_character: 0x20, color_code: self.color_code };
        let mut i: usize = 0;
        while i < BUFFER_SIZE
            invariant
                i <= 2000,
                self.buffer@.len() == 2000,
                self.row_position == old(self).row_position,
                self.column_position == old(self).column_position,
                self.color_code == old(self).color_code,
                space == blank(self.color_code),
                forall|j: int| 0 <= j < i ==> #[trigger] self.buffer@[j] == space,
            decreases 2000 - i,
        {
            self.buffer.set(i, space);
            i += 1;
        }
        assert(self.buffer@ =~= Seq::new(2000, |i: int| blank(self.color_code)));
    }

    /// Blanks the cursor's row; the cursor stays.
    pub fn clear_row(&mut self)
        requires
            old(self).wf(),
        ensures
            final(self).wf(),
            final(self).row_position == old(self).row_position,
            final(self).column_position == old(self).column_position,
            final(self).color_code == old(self).color_code,
            forall|j: int|
                0 <= j < 2000 ==> #[trigger] final(self).buffer@[j] == if old(self).row_position
                    * 80 <= j < old(self).row_position * 80 + 80 {
                    blank(old(self).color_code)
                } else {
                    old(self).buffer@[j]
                },
    {
        let space = ScreenChar { ascii_character: 0x20, color_code: self.color_code };
        let row = self.row_position;
        let mut i: usize = row * BUFFER_WIDTH;
        while i < row * BUFFER_WIDTH + BUFFER_WIDTH
            invariant
                row == old(self).row_position,
                row < 25,
                row * 80 <= i <= row * 80 + 80,
                self.buffer@.len() == 2000,
                self.row_position == old(self).row_position,
                self.column_position == old(self).column_position,
                self.color_code == old(self).color_code,
                forall|j: int|
                    0 <= j < 2000 ==> #[trigger] self.buffer@[j] == if row * 80 <= j < i {
                        space
                    } else {
                        old(self).buffer@[j]
                    },
            decreases row * 80 + 80 - i,
        {
            self.buffer.set(i, space);
            i += 1;
        }
    }

    /// Writes the bytes of `s` in order.
    pub fn write_str(&mut self, s: &str)
        requires
            old(self).wf(),
            bytes_fit(
                old(self).row_position as int,
                old(self).column_position as int,
                old(self).buffer@,
                old(self).color_code,
                s.spec_bytes(),
            ),
        ensures
            final(self).wf(),
            final(self).color_code == old(self).color_code,
            (final(self).row_position as int, final(self).column_position as int, final(self).buffer@)
                == after_bytes(
                old(self).row_position as int,
                old(self).column_position as int,
                old(self).buffer@,
                old(self).color_code,
                s.spec_bytes(),
            ),
    {
        let bytes = s.as_bytes();
        assert(bytes@.subrange(0, bytes@.len() as int) =~= bytes@);
        let mut i: usize = 0;
        while i < bytes.len()
            invariant
                self.wf(),
                self.color_code == old(self).color_code,
                i <= bytes@.len(),
                bytes_fit(
                    self.row_position as int,
                    self.column_position as int,
                    self.buffer@,
                    self.color_code,
                    bytes@.subrange(i as int, bytes@.len() as int),
                ),
                after_bytes(
                    old(self).row_position as int,
                    old(self).column_position as int,
                    old(self).buffer@,
                    old(self).color_code,
                    bytes@,
                ) == after_bytes(
                    self.row_position as int,
                    self.column_position as int,
                    self.buffer@,
                    self.color_code,
                    bytes@.subrange(i as int, bytes@.len() as int),
                ),
            decreases bytes@.len() - i,
        {
            let ghost rest = bytes@.subrange(i as int, bytes@.len() as int);
            assert(rest.subrange(1, rest.len() as int) =~= bytes@.subrange(
                i + 1,
                bytes@.len() as int,
            ));
            self.write_byte(bytes[i]);
            i += 1;
        }
        assert(bytes@.subrange(i as int, bytes@.len() as int) =~= Seq::<u8>::empty());
        self.scroll();
    }
}

/// Blanks the screen of `writer`.
pub fn clear_screen(writer: &mut Writer)
    requires
        old(writer).wf(),
    ensures
        final(writer).wf(),
        final(writer).buffer@ == Seq::new(2000, |i: int| blank(old(writer).color_code)),
{
    writer.clear();
}

} // verus!
