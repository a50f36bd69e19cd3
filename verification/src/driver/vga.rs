//! The VGA text console: 25 lines of 80 characters that scroll.

use vstd::prelude::*;

verus! {

pub const HEIGHT: usize = 25;

pub const WIDTH: usize = 80;

/// The colour of the text: white on black.
pub const COLOUR: u8 = 15;

/// Line feed.
pub const NEWLINE: u8 = 0x0a;

/// One character cell.
#[derive(Clone, Copy, Debug, PartialEq, Eq, Structural)]
pub struct VgaChar {
    pub c: u8,
    pub col: u8,
}

/// What the console shows: the cells line by line, and where the next
/// character goes.
pub struct Screen {
    pub cells: Seq<VgaChar>,
    pub x: int,
    pub y: int,
}

/// An empty cell.
pub open spec fn blank() -> VgaChar {
    VgaChar { c: 0, col: 0 }
}

impl Screen {
    /// The screen has all its cells and the cursor is on it; the cursor may
    /// stand behind the last cell of its line.
    pub open spec fn wf(&self) -> bool {
        &&& self.cells.len() == HEIGHT * WIDTH
        &&& 0 <= self.x <= WIDTH
        &&& 0 <= self.y < HEIGHT
    }

    /// The empty screen with the cursor in its first cell.
    pub open spec fn cleared() -> Screen {
        Screen { cells: Seq::new((HEIGHT * WIDTH) as nat, |i: int| blank()), x: 0, y: 0 }
    }

    /// The cells moved up by a line, the last line empty.
    pub open spec fn scrolled(cells: Seq<VgaChar>) -> Seq<VgaChar> {
        Seq::new(
            cells.len(),
            |i: int|
                if i + WIDTH < cells.len() {
                    cells[i + WIDTH]
                } else {
                    blank()
                },
        )
    }

    /// The screen after a line feed: the cursor is at the start of the next
    /// line, for which the screen scrolls if the cursor was on the last.
    pub open spec fn new_line(self) -> Screen {
        if self.y + 1 == HEIGHT {
            Screen { cells: Self::scrolled(self.cells), x: 0, y: self.y }
        } else {
            Screen { cells: self.cells, x: 0, y: self.y + 1 }
        }
    }

    /// The screen after byte `b` was written: a printable character goes
    /// to the cursor's cell, after a line feed if the line is full; a line
    /// feed moves the cursor; any other byte is dropped.
    pub open spec fn put(self, b: u8) -> Screen {
        if 0x20 <= b <= 0x7e {
            let s = if self.x == WIDTH {
                self.new_line()
            } else {
                self
            };
            Screen {
                cells: s.cells.update(s.y * WIDTH + s.x, VgaChar { c: b, col: COLOUR }),
                x: s.x + 1,
                y: s.y,
            }
        } else if b == NEWLINE {
            self.new_line()
        } else {
            self
        }
    }

    /// The screen after the bytes `s` were written one after the other.
    pub open spec fn written(self, s: Seq<u8>) -> Screen
        decreases s.len(),
    {
        if s.len() == 0 {
            self
        } else {
            self.written(s.drop_last()).put(s.last())
        }
    }
}

/// Writing keeps the screen well formed.
pub proof fn lemma_put_wf(s: Screen, b: u8)
    requires
        s.wf(),
    ensures
        s.put(b).wf(),
        s.new_line().wf(),
{
}

/// The console.
pub struct VGA {
    buffer: Vec<VgaChar>,
    x: usize,
    y: usize,
}

impl View for VGA {
    type V = Screen;

    closed spec fn view(&self) -> Screen {
        Screen { cells: self.buffer@, x: self.x as int, y: self.y as int }
    }
}

impl VGA {
    /// An empty console.
    pub fn new() -> (v: VGA)
        ensures
            v@.wf(),
            v@ == Screen::cleared(),
    {
        let mut buffer: Vec<VgaChar> = Vec::new();
        let mut i: usize = 0;
        while i < HEIGHT * WIDTH
            invariant
                i <= HEIGHT * WIDTH,
                buffer@.len() == i,
                forall|k: int| 0 <= k < i ==> buffer@[k] == blank(),
            decreases HEIGHT * WIDTH - i,
        {
            buffer.push(VgaChar { c: 0, col: 0 });
            i = i + 1;
        }
        let v = VGA { buffer, x: 0, y: 0 };
        assert(v@.cells =~= Screen::cleared().cells);
        v
    }

    /// Empties the console.
    pub fn clear(&mut self)
        requires
            old(self)@.wf(),
        ensures
            final(self)@ == Screen::cleared(),
            final(self)@.wf(),
    {
        let mut i: usize = 0;
        while i < HEIGHT * WIDTH
            invariant
                i <= HEIGHT * WIDTH,
                self.buffer@.len() == HEIGHT * WIDTH,
                forall|k: int| 0 <= k < i ==> self.buffer@[k] == blank(),
            decreases HEIGHT * WIDTH - i,
        {
            self.buffer[i] = VgaChar { c: 0, col: 0 };
            i = i + 1;
        }
        self.x = 0;
        self.y = 0;
        assert(self@.cells =~= Screen::cleared().cells);
    }

    /// Moves the cursor to the start of the next line and scrolls if there
    /// is none.
    pub fn new_line(&mut self)
        requires
            old(self)@.wf(),
        ensures
            final(self)@ == old(self)@.new_line(),
            final(self)@.wf(),
    {
        self.y = self.y + 1;
        self.x = 0;
        if self.y == HEIGHT {
            let mut i: usize = 0;
            while i < HEIGHT * WIDTH
                invariant
                    i <= HEIGHT * WIDTH,
                    self.x == 0,
                    self.y == HEIGHT,
                    old(self)@.cells.len() == HEIGHT * WIDTH,
                    self.buffer@.len() == HEIGHT * WIDTH,
                    forall|k: int|
                        0 <= k < i ==> self.buffer@[k] == Screen::scrolled(old(self)@.cells)[k],
                    forall|k: int| i <= k < HEIGHT * WIDTH ==> self.buffer@[k] == old(self)@.cells[k],
                decreases HEIGHT * WIDTH - i,
            {
                if i + WIDTH < HEIGHT * WIDTH {
                    self.buffer[i] = self.buffer[i + WIDTH];
                } else {
                    self.buffer[i] = VgaChar { c: 0, col: 0 };
                }
                i = i + 1;
            }
            self.y = HEIGHT - 1;
            assert(self@.cells =~= Screen::scrolled(old(self)@.cells));
        }
    }

    /// Writes the bytes of `s`.
    pub fn puts(&mut self, s: &[u8])
        requires
            old(self)@.wf(),
        ensures
            final(self)@ == old(self)@.written(s@),
            final(self)@.wf(),
    {
        let mut i: usize = 0;
        assert(s@.subrange(0, 0) =~= Seq::<u8>::empty());
        while i < s.len()
            invariant
                i <= s@.len(),
                self@.wf(),
                self@ == old(self)@.written(s@.subrange(0, i as int)),
            decreases s@.len() - i,
        {
            let b: u8 = s[i];
            let ghost before = self@;
            if 0x20 <= b && b <= 0x7e {
                if self.x == WIDTH {
                    self.new_line();
                }
                self.buffer[self.y * WIDTH + self.x] = VgaChar { c: b, col: COLOUR };
                self.x = self.x + 1;
            } else if b == NEWLINE {
                self.new_line();
            }
            proof {
                assert(s@.subrange(0, i + 1).drop_last() =~= s@.subrange(0, i as int));
                assert(self@.cells =~= before.put(b).cells);
            }
            i = i + 1;
        }
        assert(s@.subrange(0, s@.len() as int) =~= s@);
    }

    /// The cell in line `row` and column `column`.
    pub fn cell(&self, row: usize, column: usize) -> (c: VgaChar)
        requires
            self@.wf(),
            row < HEIGHT,
            column < WIDTH,
        ensures
            c == self@.cells[row * WIDTH + column],
    {
        self.buffer[row * WIDTH + column]
    }

    /// Column and line of the cursor.
    pub fn cursor(&self) -> (at: (usize, usize))
        ensures
            at.0 == self@.x,
            at.1 == self@.y,
    {
        (self.x, self.y)
    }
}

} // verus!
