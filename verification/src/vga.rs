//! Console sink: a line-buffered character grid with a 16-colour palette
//! and cursor position.  The grid is held by value; pushing it to the
//! display adapter and moving the hardware cursor are left to the
//! machine-facing layer, which reads the grid and cursor through the
//! accessors here.
use vstd::prelude::*;

verus! {

/// Rows of the text screen.
pub const SCREEN_HEIGHT: usize = 25;
/// Columns of the text screen.
pub const SCREEN_WIDTH: usize = 80;

/// The 16-colour palette, in hardware order starting at black.
#[derive(Debug, Clone, Copy, PartialEq, Eq, Structural)]
pub enum Colour {
    Black,
    Blue,
    Green,
    Cyan,
    Red,
    Magenta,
    Brown,
    LightGray,
    DarkGray,
    LightBlue,
    LightGreen,
    LightCyan,
    LightRed,
    Pink,
    Yellow,
    White,
}

/// The palette index of a colour.
pub open spec fn colour_code(c: Colour) -> u8 {
    match c {
        Colour::Black => 0,
        Colour::Blue => 1,
        Colour::Green => 2,
        Colour::Cyan => 3,
        Colour::Red => 4,
        Colour::Magenta => 5,
        Colour::Brown => 6,
        Colour::LightGray => 7,
        Colour::DarkGray => 8,
        Colour::LightBlue => 9,
        Colour::LightGreen => 10,
        Colour::LightCyan => 11,
        Colour::LightRed => 12,
        Colour::Pink => 13,
        Colour::Yellow => 14,
        Colour::White => 15,
    }
}

impl Colour {
    /// The palette index of this colour.
    pub fn code(self) -> (r: u8)
        ensures
            r == colour_code(self),
            r < 16,
    {
        match self {
            Colour::Black => 0,
            Colour::Blue => 1,
            Colour::Green => 2,
            Colour::Cyan => 3,
            Colour::Red => 4,
            Colour::Magenta => 5,
            Colour::Brown => 6,
            Colour::LightGray => 7,
            Colour::DarkGray => 8,
            Colour::LightBlue => 9,
            Colour::LightGreen => 10,
            Colour::LightCyan => 11,
            Colour::LightRed => 12,
            Colour::Pink => 13,
            Colour::Yellow => 14,
            Colour::White => 15,
        }
    }

    /// The colour with the given palette index.
    pub fn from_code(v: u8) -> (r: Colour)
        requires
            v < 16,
        ensures
            colour_code(r) == v,
    {
        match v {
            0 => Colour::Black,
            1 => Colour::Blue,
            2 => Colour::Green,
            3 => Colour::Cyan,
            4 => Colour::Red,
            5 => Colour::Magenta,
            6 => Colour::Brown,
            7 => Colour::LightGray,
            8 => Colour::DarkGray,
            9 => Colour::LightBlue,
            10 => Colour::LightGreen,
            11 => Colour::LightCyan,
            12 => Colour::LightRed,
            13 => Colour::Pink,
            14 => Colour::Yellow,
            _ => Colour::White,
        }
    }
}

/// A packed attribute byte: background palette index in the high four
/// bits, foreground in the low four.
#[derive(Debug, Clone, Copy, PartialEq, Eq, Structural)]
pub struct VgaColour(pub u8);

impl VgaColour {
    /// Pack a background and a foreground colour.
    pub fn new(bg: Colour, fg: Colour) -> (r: VgaColour)
        ensures
            r.0 == colour_code(bg) * 16 + colour_code(fg),
    {
        let b = bg.code();
        let f = fg.code();
        VgaColour(b * 16 + f)
    }

    /// The background colour.
    pub fn bg(&self) -> (r: Colour)
        ensures
            colour_code(r) == self.0 / 16,
    {
        let v = self.0;
        proof {
            assert(v / 16 < 16) by (bit_vector);
            assert(v >> 4 == v / 16) by (bit_vector);
        }
        Colour::from_code(v >> 4)
    }

    /// The foreground colour.
    pub fn fg(&self) -> (r: Colour)
        ensures
            colour_code(r) == self.0 % 16,
    {
        let v = self.0;
        proof {
            assert(v % 16 < 16) by (bit_vector);
            assert(v & 0xf == v % 16) by (bit_vector);
        }
        Colour::from_code(v & 0xf)
    }
}

/// One cell of the text grid: a character code and its attribute byte.
#[derive(Debug, Clone, Copy, PartialEq, Eq, Structural)]
pub struct VgaChar {
    pub char_code: u8,
    pub color: VgaColour,
}

/// The cell an empty screen is filled with.
pub open spec fn blank_char() -> VgaChar {
    VgaChar { char_code: 0, color: VgaColour(15) }
}

/// Ghost state of the writer: cursor position, current colour, and the
/// grid of cells.
#[verifier::ext_equal]
pub struct WriterView {
    pub col: int,
    pub row: int,
    pub colour: VgaColour,
    pub grid: Seq<Seq<VgaChar>>,
}

impl WriterView {
    /// The grid is full size and the cursor within it (the column may
    /// rest one past the last cell until the next write wraps it).
    pub open spec fn wf(self) -> bool {
        &&& self.grid.len() == SCREEN_HEIGHT
        &&& forall|r: int| 0 <= r < SCREEN_HEIGHT ==> (#[trigger] self.grid[r]).len() == SCREEN_WIDTH
        &&& 0 <= self.row < SCREEN_HEIGHT
        &&& 0 <= self.col <= SCREEN_WIDTH
    }
}

/// A fresh blank row.
pub open spec fn blank_row() -> Seq<VgaChar> {
    Seq::new(SCREEN_WIDTH as nat, |i: int| blank_char())
}

/// Advancing to the next line: move down, or scroll everything up one
/// row and blank the last when already on the bottom line.
pub open spec fn spec_new_line(v: WriterView) -> WriterView {
    if v.row + 1 < SCREEN_HEIGHT {
        WriterView { row: v.row + 1, col: 0, ..v }
    } else {
        WriterView {
            row: (SCREEN_HEIGHT - 1) as int,
            col: 0,
            grid: v.grid.subrange(1, SCREEN_HEIGHT as int).push(blank_row()),
            ..v
        }
    }
}

/// Writing one byte: a newline advances the line; anything else lands at
/// the cursor in the current colour (wrapping first when the line is
/// full) and moves the cursor right.
pub open spec fn spec_write(v: WriterView, byte: u8) -> WriterView {
    if byte == 10 {
        spec_new_line(v)
    } else {
        let v2 = if v.col >= SCREEN_WIDTH {
            spec_new_line(v)
        } else {
            v
        };
        WriterView {
            col: v2.col + 1,
            grid: v2.grid.update(
                v2.row,
                v2.grid[v2.row].update(v2.col, VgaChar { char_code: byte, color: v2.colour }),
            ),
            ..v2
        }
    }
}

/// Writing a sequence of bytes, left to right.
pub open spec fn spec_write_seq(v: WriterView, bytes: Seq<u8>) -> WriterView
    decreases bytes.len(),
{
    if bytes.len() == 0 {
        v
    } else {
        spec_write_seq(spec_write(v, bytes[0]), bytes.drop_first())
    }
}

/// The byte a character is displayed as: printable characters and the
/// newline pass through, anything else shows as a replacement mark.
pub open spec fn displayed_byte(b: u8) -> u8 {
    if (0x20 <= b < 0x7f) || b == 10 {
        b
    } else {
        0xfe
    }
}

/// The line-buffered console writer.
pub struct Writer {
    pub column_position: usize,
    pub row_position: usize,
    pub colour: VgaColour,
    pub buffer: Vec<Vec<VgaChar>>,
}

impl View for Writer {
    type V = WriterView;

    open spec fn view(&self) -> WriterView {
        WriterView {
            col: self.column_position as int,
            row: self.row_position as int,
            colour: self.colour,
            grid: Seq::new(self.buffer@.len(), |r: int| self.buffer@[r]@),
        }
    }
}

impl Writer {
    /// A writer over a blank screen, white on black, cursor at the top
    /// left.
    pub fn new() -> (w: Writer)
        ensures
            w@.wf(),
            w@.col == 0,
            w@.row == 0,
            w@.colour == VgaColour(15),
            forall|r: int, c: int|
                0 <= r < SCREEN_HEIGHT && 0 <= c < SCREEN_WIDTH ==> w@.grid[r][c] == blank_char(),
    {
        let mut buffer: Vec<Vec<VgaChar>> = Vec::new();
        let mut r: usize = 0;
        while r < SCREEN_HEIGHT
            invariant
                r <= SCREEN_HEIGHT,
                buffer@.len() == r,
                forall|i: int| 0 <= i < r ==> (#[trigger] buffer@[i])@ =~= blank_row(),
            decreases SCREEN_HEIGHT - r,
        {
            buffer.push(Self::make_blank_row());
            r += 1;
        }
        let w = Writer {
            column_position: 0,
            row_position: 0,
            colour: VgaColour(15),
            buffer,
        };
        proof {
            assert forall|r0: int, c0: int|
                0 <= r0 < SCREEN_HEIGHT && 0 <= c0 < SCREEN_WIDTH implies w@.grid[r0][c0]
                == blank_char() by {
            }
        }
        w
    }

    /// One blank row of cells.
    fn make_blank_row() -> (row: Vec<VgaChar>)
        ensures
            row@ =~= blank_row(),
    {
        let mut row: Vec<VgaChar> = Vec::new();
        let mut c: usize = 0;
        while c < SCREEN_WIDTH
            invariant
                c <= SCREEN_WIDTH,
                row@.len() == c,
                forall|i: int| 0 <= i < c ==> row@[i] == blank_char(),
            decreases SCREEN_WIDTH - c,
        {
            row.push(VgaChar { char_code: 0, color: VgaColour(15) });
            c += 1;
        }
        row
    }

    /// Select the colour later writes use.
    pub fn set_colour(&mut self, colour: VgaColour)
        ensures
            *final(self) == (Writer { colour, ..*old(self) }),
    {
        self.colour = colour;
    }

    /// Move to the next line, scrolling when on the bottom one.
    fn new_line(&mut self)
        requires
            old(self)@.wf(),
        ensures
            final(self)@.wf(),
            final(self)@ == spec_new_line(old(self)@),
    {
        self.column_position = 0;
        if self.row_position + 1 < SCREEN_HEIGHT {
            self.row_position = self.row_position + 1;
            proof {
                assert(self@ =~~= spec_new_line(old(self)@));
            }
        } else {
            self.buffer.remove(0);
            self.buffer.push(Self::make_blank_row());
            self.row_position = SCREEN_HEIGHT - 1;
            proof {
                assert(self@.grid =~~= spec_new_line(old(self)@).grid);
                assert(self@ =~~= spec_new_line(old(self)@));
            }
        }
    }

    /// Write one byte at the cursor.
    pub fn write(&mut self, byte: u8)
        requires
            old(self)@.wf(),
        ensures
            final(self)@.wf(),
            final(self)@ == spec_write(old(self)@, byte),
    {
        if byte == 10 {
            self.new_line();
        } else {
            if self.column_position >= SCREEN_WIDTH {
                self.new_line();
            }
            let ghost v2 = self@;
            proof {
                assert(self@.grid[self.row_position as int].len() == SCREEN_WIDTH);
            }
            let mut row = self.buffer.remove(self.row_position);
            row.set(self.column_position, VgaChar { char_code: byte, color: self.colour });
            self.buffer.insert(self.row_position, row);
            self.column_position = self.column_position + 1;
            proof {
                assert(self@.grid =~~= spec_write(old(self)@, byte).grid);
                assert(self@ =~~= spec_write(old(self)@, byte));
            }
        }
    }

    /// Write a string of bytes, printable characters as themselves and
    /// anything unprintable as a replacement mark.
    pub fn write_string(&mut self, s: &[u8])
        requires
            old(self)@.wf(),
        ensures
            final(self)@.wf(),
            final(self)@ == spec_write_seq(old(self)@, s@.map_values(|b: u8| displayed_byte(b))),
    {
        let ghost shown = s@.map_values(|b: u8| displayed_byte(b));
        let mut i: usize = 0;
        proof {
            assert(shown.skip(0) =~= shown);
        }
        while i < s.len()
            invariant
                self@.wf(),
                i <= s@.len(),
                shown == s@.map_values(|b: u8| displayed_byte(b)),
                spec_write_seq(old(self)@, shown) == spec_write_seq(self@, shown.skip(i as int)),
            decreases s@.len() - i,
        {
            let b = s[i];
            proof {
                assert(shown.skip(i as int)[0] == displayed_byte(b));
                assert(shown.skip(i as int).drop_first() =~= shown.skip(i + 1));
            }
            if (0x20 <= b && b < 0x7f) || b == 10 {
                self.write(b);
            } else {
                self.write(0xfe);
            }
            i += 1;
        }
        proof {
            assert(shown.skip(s@.len() as int) =~= Seq::<u8>::empty());
        }
    }

    /// Blank the screen and home the cursor; the colour is kept.
    pub fn clear(&mut self)
        requires
            old(self)@.wf(),
        ensures
            final(self)@.wf(),
            final(self)@.row == 0,
            final(self)@.col == 0,
            final(self)@.colour == old(self)@.colour,
            forall|r: int, c: int|
                0 <= r < SCREEN_HEIGHT && 0 <= c < SCREEN_WIDTH ==> final(self)@.grid[r][c]
                    == blank_char(),
    {
        let colour = self.colour;
        let mut fresh = Writer::new();
        fresh.colour = colour;
        *self = fresh;
    }
}

/// Blank a writer's screen; the colour is kept.
pub fn clear_screen(writer: &mut Writer)
    requires
        old(writer)@.wf(),
    ensures
        final(writer)@.wf(),
        final(writer)@.row == 0,
        final(writer)@.col == 0,
        final(writer)@.colour == old(writer)@.colour,
        forall|r: int, c: int|
            0 <= r < SCREEN_HEIGHT && 0 <= c < SCREEN_WIDTH ==> final(writer)@.grid[r][c]
                == blank_char(),
{
    writer.clear();
}

/// Select a writer's colour pair.
pub fn set_colour(writer: &mut Writer, bg: Colour, fg: Colour)
    ensures
        final(writer)@.colour.0 == colour_code(bg) * 16 + colour_code(fg),
        final(writer)@.grid == old(writer)@.grid,
        final(writer)@.row == old(writer)@.row,
        final(writer)@.col == old(writer)@.col,
{
    let c = VgaColour::new(bg, fg);
    writer.set_colour(c);
    proof {
        assert(writer@.grid =~~= old(writer)@.grid);
    }
}

/// The colour a writer currently uses.
pub fn get_colour(writer: &Writer) -> (r: VgaColour)
    ensures
        r == writer@.colour,
{
    writer.colour
}

} // verus!
