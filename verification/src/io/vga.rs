//! The text console: an 80 by 25 grid of cells and a cursor that walks it.
use vstd::prelude::*;
use vstd::string::StringSliceAdditionalSpecFns;

verus! {

/// Cells in one row of the screen.
pub const VGA_WIDTH: usize = 80;

/// Rows of the screen.
pub const VGA_HEIGHT: usize = 25;

/// The space character, which an empty cell shows.
pub const BLANK: u8 = 32;

/// The line feed, which ends a row.
pub const LINE_FEED: u8 = 10;

/// The sixteen colours of text mode, in the order of their codes.
#[derive(Clone, Copy, Debug, PartialEq, Eq, Structural)]
pub enum VgaColor {
    VgaColorBlack,
    VgaColorBlue,
    VgaColorGreen,
    VgaColorCyan,
    VgaColorRed,
    VgaColorMagenta,
    VgaColorBrown,
    VgaColorLightGrey,
    VgaColorDarkGrey,
    VgaColorLightBlue,
    VgaColorLightGreen,
    VgaColorLightCyan,
    VgaColorLightRed,
    VgaColorLightMagenta,
    VgaColorLightBrown,
    VgaColorWhite,
}

impl VgaColor {
    /// The hardware code of a colour: its place in the list, from 0.
    pub open spec fn spec_code(self) -> u8 {
        match self {
            VgaColor::VgaColorBlack => 0,
            VgaColor::VgaColorBlue => 1,
            VgaColor::VgaColorGreen => 2,
            VgaColor::VgaColorCyan => 3,
            VgaColor::VgaColorRed => 4,
            VgaColor::VgaColorMagenta => 5,
            VgaColor::VgaColorBrown => 6,
            VgaColor::VgaColorLightGrey => 7,
            VgaColor::VgaColorDarkGrey => 8,
            VgaColor::VgaColorLightBlue => 9,
            VgaColor::VgaColorLightGreen => 10,
            VgaColor::VgaColorLightCyan => 11,
            VgaColor::VgaColorLightRed => 12,
            VgaColor::VgaColorLightMagenta => 13,
            VgaColor::VgaColorLightBrown => 14,
            VgaColor::VgaColorWhite => 15,
        }
    }

    #[verifier::when_used_as_spec(spec_code)]
    pub fn code(self) -> (code: u8)
        ensures
            code == self.spec_code(),
            code < 16,
    {
        match self {
            VgaColor::VgaColorBlack => 0,
            VgaColor::VgaColorBlue => 1,
            VgaColor::VgaColorGreen => 2,
            VgaColor::VgaColorCyan => 3,
            VgaColor::VgaColorRed => 4,
            VgaColor::VgaColorMagenta => 5,
            VgaColor::VgaColorBrown => 6,
            VgaColor::VgaColorLightGrey => 7,
            VgaColor::VgaColorDarkGrey => 8,
            VgaColor::VgaColorLightBlue => 9,
            VgaColor::VgaColorLightGreen => 10,
            VgaColor::VgaColorLightCyan => 11,
            VgaColor::VgaColorLightRed => 12,
            VgaColor::VgaColorLightMagenta => 13,
            VgaColor::VgaColorLightBrown => 14,
            VgaColor::VgaColorWhite => 15,
        }
    }
}

/// The attribute byte of a cell: foreground in the low four bits, background
/// in the high four. Bits of `bg` above the fourth fall off the top.
pub open spec fn spec_entry_color(fg: u8, bg: u8) -> u8 {
    fg | (((bg as nat % 16) * 16) as u8)
}

/// A cell: the character in the low byte, the attribute in the high byte.
pub open spec fn spec_entry(uc: u8, color: u8) -> u16 {
    (uc as nat + 256 * color as nat) as u16
}

#[verifier::when_used_as_spec(spec_entry_color)]
pub fn vga_entry_color(fg: u8, bg: u8) -> (attribute: u8)
    ensures
        attribute == spec_entry_color(fg, bg),
        fg < 16 && bg < 16 ==> attribute == fg + 16 * bg,
{
    assert((bg << 4) == (((bg as nat % 16) * 16) as u8)) by (bit_vector);
    assert(fg < 16 && bg < 16 ==> fg | (bg << 4) == fg + 16 * bg) by (bit_vector);
    fg | bg << 4
}

#[verifier::when_used_as_spec(spec_entry)]
pub fn vga_entry(uc: u8, color: u8) -> (cell: u16)
    ensures
        cell == spec_entry(uc, color),
{
    assert((uc as u16) | ((color as u16) << 8) == (uc as nat + 256 * color as nat) as u16) by (bit_vector);
    uc as u16 | (color as u16) << 8
}

/// What a console shows and where its cursor stands.
pub ghost struct Screen {
    pub row: nat,
    pub column: nat,
    pub color: u8,
    /// The cells, row after row.
    pub cells: Seq<u16>,
}

impl Screen {
    /// The cursor is on a row of the screen, or just below the last one,
    /// from where the next character takes it back to the top.
    pub open spec fn valid(self) -> bool {
        &&& self.cells.len() == VGA_WIDTH * VGA_HEIGHT
        &&& self.row <= VGA_HEIGHT
        &&& self.column < VGA_WIDTH
    }

    /// The row a character lands on: the cursor's, or the top one where the
    /// cursor stands below the screen.
    pub open spec fn landing_row(self) -> nat {
        if self.row >= VGA_HEIGHT {
            0
        } else {
            self.row
        }
    }

    /// The screen after one byte. A line feed moves the cursor to the start
    /// of the next row and draws nothing. Any other byte is drawn at the
    /// cursor in the current colour, and the cursor moves one cell on: from
    /// the end of a row to the start of the next, from the end of the last
    /// row to the top.
    pub open spec fn after_putchar(self, c: u8) -> Screen {
        let row = self.landing_row();
        if c == LINE_FEED {
            Screen { row: row + 1, column: 0, ..self }
        } else {
            let cells = self.cells.update(row * VGA_WIDTH + self.column, spec_entry(c, self.color));
            if self.column + 1 == VGA_WIDTH {
                Screen {
                    row: if row + 1 == VGA_HEIGHT {
                        0
                    } else {
                        row + 1
                    },
                    column: 0,
                    cells,
                    ..self
                }
            } else {
                Screen { row, column: self.column + 1, cells, ..self }
            }
        }
    }

    /// The screen after a run of bytes, one after the other.
    pub open spec fn after_write(self, data: Seq<u8>) -> Screen
        decreases data.len(),
    {
        if data.len() == 0 {
            self
        } else {
            self.after_write(data.drop_last()).after_putchar(data.last())
        }
    }

    /// One byte leaves the screen valid.
    pub proof fn lemma_putchar_valid(self, c: u8)
        requires
            self.valid(),
        ensures
            self.after_putchar(c).valid(),
    {
    }

    /// A run of bytes leaves the screen valid, and draws in no colour but
    /// the console's.
    pub proof fn lemma_write_valid(self, data: Seq<u8>)
        requires
            self.valid(),
        ensures
            self.after_write(data).valid(),
            self.after_write(data).color == self.color,
        decreases data.len(),
    {
        if data.len() > 0 {
            self.lemma_write_valid(data.drop_last());
        }
    }

    /// Writing one run and then another is writing the two as one.
    pub proof fn lemma_write_append(self, head: Seq<u8>, tail: Seq<u8>)
        ensures
            self.after_write(head + tail) == self.after_write(head).after_write(tail),
        decreases tail.len(),
    {
        if tail.len() == 0 {
            assert(head + tail =~= head);
        } else {
            assert((head + tail).drop_last() =~= head + tail.drop_last());
            self.lemma_write_append(head, tail.drop_last());
        }
    }
}

/// Where a console's cursor stands and in what colour it draws.
pub ghost struct Cursor {
    pub row: nat,
    pub column: nat,
    pub color: u8,
}

/// A console. It does not own the screen buffer: the caller lends it to
/// every call.
pub struct VGATerminalWriter {
    row: usize,
    column: usize,
    color: u8,
}

impl View for VGATerminalWriter {
    type V = Cursor;

    closed spec fn view(&self) -> Cursor {
        Cursor { row: self.row as nat, column: self.column as nat, color: self.color }
    }
}

impl VGATerminalWriter {
    /// The screen that the console and the cells of its buffer make up.
    pub open spec fn screen(&self, cells: Seq<u16>) -> Screen {
        Screen { row: self@.row, column: self@.column, color: self@.color, cells }
    }

    /// A console with the cursor at the top left, drawing light grey on
    /// black.
    pub fn new() -> (writer: VGATerminalWriter)
        ensures
            writer@ == (Cursor { row: 0, column: 0, color: 7 }),
    {
        let color = vga_entry_color(VgaColor::VgaColorLightGrey.code(), VgaColor::VgaColorBlack.code());
        VGATerminalWriter { row: 0, column: 0, color }
    }

    /// Row of the cursor.
    pub fn row(&self) -> (row: usize)
        ensures
            row == self@.row,
    {
        self.row
    }

    /// Column of the cursor.
    pub fn column(&self) -> (column: usize)
        ensures
            column == self@.column,
    {
        self.column
    }

    /// Colour of what is drawn from now on.
    pub fn color(&self) -> (color: u8)
        ensures
            color == self@.color,
    {
        self.color
    }

    /// Sets the colour of what is drawn from now on.
    pub fn setcolor(&mut self, color: u8)
        ensures
            final(self)@ == (Cursor { color, ..old(self)@ }),
    {
        self.color = color;
    }

    /// Draws `c` in `color` at column `x` of row `y`. The cursor stays.
    pub fn putentryat(&self, buffer: &mut [u16], c: u8, color: u8, x: usize, y: usize)
        requires
            old(buffer)@.len() == VGA_WIDTH * VGA_HEIGHT,
            x < VGA_WIDTH,
            y < VGA_HEIGHT,
        ensures
            final(buffer)@ == old(buffer)@.update(y * VGA_WIDTH + x, spec_entry(c, color)),
    {
        let index = y * VGA_WIDTH + x;
        buffer[index] = vga_entry(c, color);
    }

    /// Puts one byte on the screen and moves the cursor.
    pub fn putchar(&mut self, buffer: &mut [u16], c: u8)
        requires
            old(self).screen(old(buffer)@).valid(),
        ensures
            final(self).screen(final(buffer)@) == old(self).screen(old(buffer)@).after_putchar(c),
            final(self).screen(final(buffer)@).valid(),
    {
        if self.row >= VGA_HEIGHT {
            self.row = 0;
        }
        if c == LINE_FEED {
            self.row += 1;
            self.column = 0;
        } else {
            self.putentryat(buffer, c, self.color, self.column, self.row);
            self.column += 1;
            if self.column == VGA_WIDTH {
                self.column = 0;
                self.row += 1;
                if self.row == VGA_HEIGHT {
                    self.row = 0;
                }
            }
        }
    }

    /// Puts a run of bytes on the screen, one after the other.
    pub fn write(&mut self, buffer: &mut [u16], data: &[u8])
        requires
            old(self).screen(old(buffer)@).valid(),
        ensures
            final(self).screen(final(buffer)@) == old(self).screen(old(buffer)@).after_write(data@),
            final(self).screen(final(buffer)@).valid(),
    {
        let mut i: usize = 0;
        while i < data.len()
            invariant
                0 <= i <= data.len(),
                self.screen(buffer@).valid(),
                self.screen(buffer@) == old(self).screen(old(buffer)@).after_write(data@.take(i as int)),
            decreases data.len() - i,
        {
            proof {
                assert(data@.take(i + 1).drop_last() =~= data@.take(i as int));
            }
            self.putchar(buffer, data[i]);
            i = i + 1;
        }
        proof {
            assert(data@.take(i as int) =~= data@);
        }
    }
}

/// Blanks the whole screen in the console's colour. The cursor stays.
pub fn init(writer: &VGATerminalWriter, buffer: &mut [u16])
    requires
        old(buffer)@.len() == VGA_WIDTH * VGA_HEIGHT,
    ensures
        final(buffer)@.len() == VGA_WIDTH * VGA_HEIGHT,
        forall|i: int| 0 <= i < VGA_WIDTH * VGA_HEIGHT ==> final(buffer)@[i] == spec_entry(BLANK, writer@.color),
{
    let mut y: usize = 0;
    while y < VGA_HEIGHT
        invariant
            0 <= y <= VGA_HEIGHT,
            buffer@.len() == VGA_WIDTH * VGA_HEIGHT,
            forall|i: int| 0 <= i < y * VGA_WIDTH ==> buffer@[i] == spec_entry(BLANK, writer@.color),
        decreases VGA_HEIGHT - y,
    {
        let mut x: usize = 0;
        while x < VGA_WIDTH
            invariant
                0 <= x <= VGA_WIDTH,
                y < VGA_HEIGHT,
                buffer@.len() == VGA_WIDTH * VGA_HEIGHT,
                forall|i: int| 0 <= i < y * VGA_WIDTH + x ==> buffer@[i] == spec_entry(BLANK, writer@.color),
            decreases VGA_WIDTH - x,
        {
            writer.putentryat(buffer, BLANK, writer.color(), x, y);
            x = x + 1;
        }
        y = y + 1;
    }
}

/// The console that the whole image shares.
pub struct StaticVGATerminalWriter {
    inner: VGATerminalWriter,
}

impl View for StaticVGATerminalWriter {
    type V = Cursor;

    closed spec fn view(&self) -> Cursor {
        self.inner@
    }
}

impl StaticVGATerminalWriter {
    /// The screen that the console and the cells of its buffer make up.
    pub open spec fn screen(&self, cells: Seq<u16>) -> Screen {
        Screen { row: self@.row, column: self@.column, color: self@.color, cells }
    }

    /// Wraps a console in its first state.
    pub fn new() -> (shared: StaticVGATerminalWriter)
        ensures
            shared@ == (Cursor { row: 0, column: 0, color: 7 }),
    {
        StaticVGATerminalWriter { inner: VGATerminalWriter::new() }
    }

    /// The console inside.
    pub fn writer(&self) -> (inner: &VGATerminalWriter)
        ensures
            inner@ == self@,
    {
        &self.inner
    }

    /// Puts the bytes of `s` on the screen.
    pub fn write_str(&mut self, buffer: &mut [u16], s: &str)
        requires
            old(self).screen(old(buffer)@).valid(),
        ensures
            final(self).screen(final(buffer)@) == old(self).screen(old(buffer)@).after_write(s.spec_bytes()),
            final(self).screen(final(buffer)@).valid(),
    {
        self.inner.write(buffer, s.as_bytes());
    }
}

} // verus!
