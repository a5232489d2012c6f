//! VGA text mode: colours, and the cursor logic of a writer that fills the
//! 80x25 screen line by line and scrolls at the bottom.
use vstd::prelude::*;
use vstd::string::StringSliceAdditionalSpecFns;

verus! {

/// Physical address of the text buffer.
pub const VGA_PHYS: u64 = 0xB8000;
/// Where the text buffer is mapped in the higher half.
pub const VGA_HIGHER_HALF: u64 = 0xFFFF_8000_000B_8000;
pub const VGA_WIDTH: usize = 80;
pub const VGA_HEIGHT: usize = 25;

#[derive(Clone, Copy, Debug, PartialEq, Eq, Structural)]
pub enum Color {
    Black,
    Blue,
    Green,
    Cyan,
    Red,
    Magenta,
    Brown,
    LightGray,
    DarkGray,
    LightBlue,
    LightGreen,
    LightCyan,
    LightRed,
    Pink,
    Yellow,
    White,
}

/// The 4-bit VGA palette number of a colour, in declaration order.
pub open spec fn color_number(c: Color) -> u8 {
    match c {
        Color::Black => 0,
        Color::Blue => 1,
        Color::Green => 2,
        Color::Cyan => 3,
        Color::Red => 4,
        Color::Magenta => 5,
        Color::Brown => 6,
        Color::LightGray => 7,
        Color::DarkGray => 8,
        Color::LightBlue => 9,
        Color::LightGreen => 10,
        Color::LightCyan => 11,
        Color::LightRed => 12,
        Color::Pink => 13,
        Color::Yellow => 14,
        Color::White => 15,
    }
}

impl Color {
    /// The palette number.
    pub fn number(&self) -> (r: u8)
        ensures
            r == color_number(*self),
    {
        match self {
            Color::Black => 0,
            Color::Blue => 1,
            Color::Green => 2,
            Color::Cyan => 3,
            Color::Red => 4,
            Color::Magenta => 5,
            Color::Brown => 6,
            Color::LightGray => 7,
            Color::DarkGray => 8,
            Color::LightBlue => 9,
            Color::LightGreen => 10,
            Color::LightCyan => 11,
            Color::LightRed => 12,
            Color::Pink => 13,
            Color::Yellow => 14,
            Color::White => 15,
        }
    }
}

/// An attribute byte: background in the high nibble, foreground in the low.
#[derive(Clone, Copy, Debug, PartialEq, Eq, Structural)]
pub struct ColorCode(pub u8);

impl ColorCode {
    pub fn new(fg: Color, bg: Color) -> (c: ColorCode)
        ensures
            c.0 == color_number(bg) * 16 + color_number(fg),
    {
        let b = bg.number();
        let f = fg.number();
        assert((b << 4u8) | f == b * 16 + f) by (bit_vector)
            requires b < 16, f < 16;
        ColorCode((b << 4u8) | f)
    }
}

/// A screen cell: the character in the low byte, its attribute in the high.
pub open spec fn cell(byte: u8, color: u8) -> u16 {
    (color as u16 * 256 + byte as u16) as u16
}

/// What the writer asks of the screen for one byte: first scroll one line
/// up (clearing the bottom line with `blank`) if `scroll`, then write
/// `cell` at index `index` of the buffer if `put` is set.
#[derive(Clone, Copy, Debug, PartialEq, Eq, Structural)]
pub struct VgaOutput {
    pub scroll: bool,
    pub blank: u16,
    pub put: bool,
    pub index: usize,
    pub cell: u16,
}

/// Cursor position and colour of a text writer.
#[derive(Clone, Copy, Debug, PartialEq, Eq, Structural)]
pub struct VgaWriter {
    pub column: usize,
    pub row: usize,
    pub color: ColorCode,
}

/// The cursor after a line break from row `row`: column 0 of the next row,
/// or of the bottom row after a scroll.
pub open spec fn after_newline(row: usize) -> (usize, bool) {
    if row < VGA_HEIGHT - 1 { ((row + 1) as usize, false) } else { (row, true) }
}

/// The writer and screen request after writing `byte`: a newline breaks the
/// line; another byte first breaks the line when the row is full, then is
/// put at the cursor, which moves right.
pub open spec fn write_byte_spec(w: VgaWriter, byte: u8) -> (VgaWriter, VgaOutput) {
    let blank = cell(0x20, w.color.0);
    if byte == 0x0A {
        let (row, scroll) = after_newline(w.row);
        (VgaWriter { column: 0, row, ..w }, VgaOutput { scroll, blank, put: false, index: 0, cell: 0 })
    } else {
        let (row, scroll) = if w.column >= VGA_WIDTH { after_newline(w.row) } else { (w.row, false) };
        let col: usize = if w.column >= VGA_WIDTH { 0 } else { w.column };
        (
            VgaWriter { column: (col + 1) as usize, row, ..w },
            VgaOutput { scroll, blank, put: true, index: (row * VGA_WIDTH + col) as usize, cell: cell(byte, w.color.0) },
        )
    }
}

impl VgaWriter {
    /// The cursor stays on the screen (the column may sit just past the end
    /// of a full row).
    pub open spec fn wf(&self) -> bool {
        self.row < VGA_HEIGHT && self.column <= VGA_WIDTH
    }

    /// A writer at the top left, light gray on black.
    pub fn new() -> (w: VgaWriter)
        ensures
            w == (VgaWriter { column: 0, row: 0, color: ColorCode(0x07) }),
            w.wf(),
    {
        VgaWriter { column: 0, row: 0, color: ColorCode::new(Color::LightGray, Color::Black) }
    }

    /// A writer at the top left in the given colours.
    pub fn with_colors(fg: Color, bg: Color) -> (w: VgaWriter)
        ensures
            w.column == 0,
            w.row == 0,
            w.color.0 == color_number(bg) * 16 + color_number(fg),
            w.wf(),
    {
        VgaWriter { column: 0, row: 0, color: ColorCode::new(fg, bg) }
    }

    /// The cell with a blank in the writer's colour.
    pub fn blank(&self) -> (c: u16)
        ensures
            c == cell(0x20, self.color.0),
    {
        self.cell_for(0x20)
    }

    /// The cell showing `byte` in the writer's colour.
    pub fn cell_for(&self, byte: u8) -> (c: u16)
        ensures
            c == cell(byte, self.color.0),
    {
        (self.color.0 as u16) * 256 + byte as u16
    }

    /// Home the cursor and give the cleared screen: all of its cells blank
    /// in the writer's colour, row by row.
    pub fn clear_screen(&mut self) -> (cells: Vec<u16>)
        ensures
            *final(self) == (VgaWriter { column: 0, row: 0, ..*old(self) }),
            cells@ == Seq::new((VGA_WIDTH * VGA_HEIGHT) as nat, |i: int| cell(0x20, old(self).color.0)),
    {
        let blank = self.blank();
        let mut cells: Vec<u16> = Vec::new();
        let mut i: usize = 0;
        while i < VGA_WIDTH * VGA_HEIGHT
            invariant
                i <= VGA_WIDTH * VGA_HEIGHT,
                blank == cell(0x20, self.color.0),
                cells@ == Seq::new(i as nat, |k: int| blank),
            decreases VGA_WIDTH * VGA_HEIGHT - i,
        {
            cells.push(blank);
            i = i + 1;
        }
        self.row = 0;
        self.column = 0;
        cells
    }

    fn new_line(&mut self) -> (scroll: bool)
        requires
            old(self).wf(),
        ensures
            (final(self).row, scroll) == after_newline(old(self).row),
            final(self).column == 0,
            final(self).color == old(self).color,
            final(self).wf(),
    {
        self.column = 0;
        if self.row < VGA_HEIGHT - 1 {
            self.row += 1;
            false
        } else {
            true
        }
    }

    /// Write one byte (see `write_byte_spec`).
    pub fn write_byte(&mut self, byte: u8) -> (out: VgaOutput)
        requires
            old(self).wf(),
        ensures
            final(self).wf(),
            (*final(self), out) == write_byte_spec(*old(self), byte),
    {
        let blank = self.blank();
        if byte == 0x0A {
            let scroll = self.new_line();
            VgaOutput { scroll, blank, put: false, index: 0, cell: 0 }
        } else {
            let mut scroll = false;
            if self.column >= VGA_WIDTH {
                scroll = self.new_line();
            }
            let index = self.row * VGA_WIDTH + self.column;
            let c = self.cell_for(byte);
            self.column += 1;
            VgaOutput { scroll, blank, put: true, index, cell: c }
        }
    }

    /// Write each byte of `text` in turn; the screen requests come out in
    /// order.
    pub fn write_str(&mut self, text: &str) -> (outs: Vec<VgaOutput>)
        requires
            old(self).wf(),
        ensures
            final(self).wf(),
            outs@.len() == text.spec_bytes().len(),
            (*final(self), outs@) == write_all_spec(*old(self), text.spec_bytes()),
    {
        let s = text.as_bytes();
        let mut outs: Vec<VgaOutput> = Vec::new();
        let mut i: usize = 0;
        while i < s.len()
            invariant
                self.wf(),
                i <= s@.len(),
                outs@.len() == i,
                (*self, outs@) == write_all_spec(*old(self), s@.subrange(0, i as int)),
            decreases s@.len() - i,
        {
            proof {
                assert(s@.subrange(0, i + 1).drop_last() == s@.subrange(0, i as int));
            }
            let o = self.write_byte(s[i]);
            outs.push(o);
            i = i + 1;
        }
        assert(s@.subrange(0, i as int) == s@);
        outs
    }
}

/// Writing the bytes of `s` one after the other.
pub open spec fn write_all_spec(w: VgaWriter, s: Seq<u8>) -> (VgaWriter, Seq<VgaOutput>)
    decreases s.len(),
{
    if s.len() == 0 {
        (w, Seq::empty())
    } else {
        let (w1, outs) = write_all_spec(w, s.drop_last());
        let (w2, o) = write_byte_spec(w1, s.last());
        (w2, outs.push(o))
    }
}

/// The screen after a request: rows move up by one and the bottom row is
/// blanked when scrolling, then the cell is written.
pub open spec fn apply_output(screen: Seq<u16>, o: VgaOutput) -> Seq<u16> {
    let scrolled = if o.scroll {
        Seq::new(screen.len(), |i: int| if i + VGA_WIDTH < screen.len() { screen[i + VGA_WIDTH] } else { o.blank })
    } else {
        screen
    };
    if o.put { scrolled.update(o.index as int, o.cell) } else { scrolled }
}

/// A printable byte written on a well-formed writer lands on the screen in
/// the writer's colour at the cell the cursor pointed to (the start of the
/// next line when the row was full), and the cursor moves past it.
pub proof fn lemma_byte_lands_at_cursor(w: VgaWriter, byte: u8, screen: Seq<u16>)
    requires
        w.wf(),
        byte != 0x0A,
        screen.len() == VGA_WIDTH * VGA_HEIGHT,
    ensures
        ({
            let (w2, o) = write_byte_spec(w, byte);
            &&& w2.wf()
            &&& w2.column >= 1
            &&& o.index == w2.row * VGA_WIDTH + w2.column - 1
            &&& apply_output(screen, o)[o.index as int] == cell(byte, w.color.0)
            &&& apply_output(screen, o).len() == screen.len()
        }),
{
    let (w2, o) = write_byte_spec(w, byte);
    assert(o.index < VGA_WIDTH * VGA_HEIGHT) by (nonlinear_arith)
        requires o.index == w2.row * 80 + w2.column - 1, w2.row < 25, 1 <= w2.column <= 80;
}

/// A byte written when the row is full goes where it would go after a line
/// break: the writer and the screen end up as if a newline had been written
/// first, so on the bottom row the screen scrolls rather than the full line
/// being overwritten. A request scrolls exactly when the cursor leaves the
/// bottom row by a line break.
pub proof fn lemma_full_row_wraps(w: VgaWriter, byte: u8)
    requires
        w.wf(),
    ensures
        ({
            let (w1, o) = write_byte_spec(w, byte);
            let (wn, on) = write_byte_spec(w, 0x0A);
            let (w2, o2) = write_byte_spec(wn, byte);
            &&& o.scroll == (w.row == VGA_HEIGHT - 1 && (byte == 0x0A || w.column >= VGA_WIDTH))
            &&& byte != 0x0A && w.column >= VGA_WIDTH ==> {
                &&& w1 == w2
                &&& o.scroll == on.scroll
                &&& !o2.scroll
                &&& o.put && o2.put && o.index == o2.index && o.cell == o2.cell
            }
            &&& byte != 0x0A ==> o.put && o.cell == cell(byte, w.color.0) && w1.color == w.color
        }),
{
}

} // verus!
