//! Display backends: the pixel interface the renderer draws through, a
//! plain in-memory backend for tests and debugging, and the encoder for a
//! cascade of 8x8 LED matrix modules driven over a synchronous serial bus
//! (the bus write itself happens outside this crate).

use vstd::prelude::*;

use crate::blocks::{lemma_row_bit_clear_mask, lemma_row_bit_or_mask, row_bit};

verus! {

/// Comparing against a single-column mask tests exactly that column bit.
proof fn lemma_row_bit_eq_mask(r: u8, x: u8)
    by (bit_vector)
    requires
        x < 8,
    ensures
        (r & (0x80u8 >> x) == (0x80u8 >> x)) == row_bit(r, x),
{
}

/// No-operation opcode of a matrix module.
pub const OP_NOOP: u8 = 0x00;

/// Opcode of the first row register; row r is addressed by this plus r.
pub const OP_DIGIT0: u8 = 0x01;

/// Opcode selecting how the module decodes row data.
pub const OP_DECODEMODE: u8 = 0x09;

/// Opcode setting the brightness.
pub const OP_INTENSITY: u8 = 0x0a;

/// Opcode setting how many rows the module scans.
pub const OP_SCANLIMIT: u8 = 0x0b;

/// Opcode enabling or disabling the display.
pub const OP_SHUTDOWN: u8 = 0x0c;

/// Opcode enabling or disabling test mode.
pub const OP_DISPLAYTEST: u8 = 0x0f;

/// A pixel surface the game renders into: eight columns wide, any number
/// of rows. Writes outside the surface are dropped, so a piece may stick
/// out above the grid while being drawn.
pub trait Display: Sized {
    /// Structural well-formedness of the backend.
    spec fn wf(&self) -> bool;

    /// The height of the surface in pixels.
    spec fn height(&self) -> int;

    /// The pixel at (x, y); false outside the surface.
    spec fn pixel(&self, x: int, y: int) -> bool;

    /// Set every pixel of the surface to the given value.
    fn fill(&mut self, value: bool)
        requires
            old(self).wf(),
        ensures
            final(self).wf(),
            final(self).height() == old(self).height(),
            forall|x: int, y: int| final(self).pixel(x, y) == (0 <= x < 8 && 0 <= y < old(
                self,
            ).height() && value),
    ;

    /// Set one pixel; coordinates outside the surface are ignored.
    fn set_pixel(&mut self, x: u8, y: u8, value: bool)
        requires
            old(self).wf(),
        ensures
            final(self).wf(),
            final(self).height() == old(self).height(),
            (x < 8 && (y as int) < old(self).height()) ==> forall|x2: int, y2: int|
                final(self).pixel(x2, y2) == (if x2 == x && y2 == y {
                    value
                } else {
                    old(self).pixel(x2, y2)
                }),
            !(x < 8 && (y as int) < old(self).height()) ==> forall|x2: int, y2: int|
                final(self).pixel(x2, y2) == old(self).pixel(x2, y2),
    ;
}

/// A plain in-memory backend: one mask byte per row, for tests and for
/// rendering without hardware.
pub struct TextDisplay {
    pub data: Vec<u8>,
}

impl TextDisplay {
    pub fn new() -> (r: TextDisplay)
        ensures
            r.wf(),
            forall|x: int, y: int| !r.pixel(x, y),
    {
        let mut data: Vec<u8> = Vec::new();
        let mut i: usize = 0;
        while i < 32
            invariant
                i <= 32,
                data@.len() == i,
                forall|y: int| 0 <= y < i ==> data@[y] == 0u8,
            decreases 32 - i,
        {
            data.push(0u8);
            i = i + 1;
        }
        let r = TextDisplay { data };
        proof {
            assert forall|x: int, y: int| !r.pixel(x, y) by {
                if 0 <= x < 8 && 0 <= y < 32 {
                    crate::blocks::lemma_row_bit_const(x as u8);
                }
            }
        }
        r
    }

    /// Reset every pixel to off.
    pub fn reset(&mut self)
        requires
            old(self).wf(),
        ensures
            final(self).wf(),
            forall|x: int, y: int| !final(self).pixel(x, y),
    {
        self.fill(false);
    }

    pub open spec fn spec_has_position(x: u8, y: u8) -> bool {
        x < 8 && y < 32
    }

    pub fn has_position(x: u8, y: u8) -> (r: bool)
        ensures
            r == TextDisplay::spec_has_position(x, y),
    {
        x < 8 && y < 32
    }

    /// Read one pixel of the surface.
    pub fn get_pixel(&self, x: u8, y: u8) -> (r: bool)
        requires
            self.wf(),
            TextDisplay::spec_has_position(x, y),
        ensures
            r == self.pixel(x as int, y as int),
    {
        let line = self.data[y as usize];
        let mask: u8 = 0x80u8 >> x;
        proof {
            lemma_row_bit_eq_mask(line, x);
        }
        (line & mask) == mask
    }
}

impl Display for TextDisplay {
    open spec fn wf(&self) -> bool {
        self.data@.len() == 32
    }

    open spec fn height(&self) -> int {
        32
    }

    open spec fn pixel(&self, x: int, y: int) -> bool {
        0 <= x < 8 && 0 <= y < 32 && row_bit(self.data@[y], x as u8)
    }

    fn fill(&mut self, value: bool) {
        let line: u8 = if value {
            0xff
        } else {
            0x00
        };
        let mut y: usize = 0;
        while y < 32
            invariant
                self.data@.len() == 32,
                y <= 32,
                forall|j: int| 0 <= j < y ==> self.data@[j] == line,
                forall|j: int| y <= j < 32 ==> self.data@[j] == old(self).data@[j],
            decreases 32 - y,
        {
            self.data.set(y, line);
            y = y + 1;
        }
        proof {
            assert forall|x: int, y2: int| self.pixel(x, y2) == (0 <= x < 8 && 0 <= y2 < 32
                && value) by {
                if 0 <= x < 8 && 0 <= y2 < 32 {
                    crate::blocks::lemma_row_bit_const(x as u8);
                }
            }
        }
    }

    fn set_pixel(&mut self, x: u8, y: u8, value: bool) {
        if x >= 8 || y >= 32 {
            return;
        }
        let mask: u8 = 0x80u8 >> x;
        let line = self.data[y as usize];
        let updated: u8 = if value {
            line | mask
        } else {
            line & !mask
        };
        self.data.set(y as usize, updated);
        proof {
            assert forall|x2: int, y2: int| self.pixel(x2, y2) == (if x2 == x && y2 == y {
                value
            } else {
                old(self).pixel(x2, y2)
            }) by {
                if 0 <= x2 < 8 && 0 <= y2 < 32 && y2 == y {
                    if value {
                        lemma_row_bit_or_mask(old(self).data@[y as int], x, x2 as u8);
                    } else {
                        lemma_row_bit_clear_mask(old(self).data@[y as int], x, x2 as u8);
                    }
                }
            }
        }
    }
}

/// A point on the debug matrix surface.
#[derive(Clone, Copy, PartialEq, Eq, Structural, Debug)]
pub struct Point2d {
    pub x: u8,
    pub y: u8,
}

impl Point2d {
    pub fn new(x: u8, y: u8) -> (r: Point2d)
        ensures
            r == (Point2d { x, y }),
    {
        Point2d { x, y }
    }
}

/// A standalone in-memory matrix surface addressed by points; positions
/// must be on the surface.
pub struct MatrixDisplay {
    pub data: Vec<u8>,
}

impl MatrixDisplay {
    pub open spec fn wf(self) -> bool {
        self.data@.len() == 32
    }

    pub open spec fn spec_pixel(self, x: int, y: int) -> bool {
        0 <= x < 8 && 0 <= y < 32 && row_bit(self.data@[y], x as u8)
    }

    pub open spec fn spec_has_position(pos: Point2d) -> bool {
        pos.x < 8 && pos.y < 32
    }

    pub fn new() -> (r: MatrixDisplay)
        ensures
            r.wf(),
            forall|x: int, y: int| !r.spec_pixel(x, y),
    {
        let mut data: Vec<u8> = Vec::new();
        let mut i: usize = 0;
        while i < 32
            invariant
                i <= 32,
                data@.len() == i,
                forall|y: int| 0 <= y < i ==> data@[y] == 0u8,
            decreases 32 - i,
        {
            data.push(0u8);
            i = i + 1;
        }
        let r = MatrixDisplay { data };
        proof {
            assert forall|x: int, y: int| !r.spec_pixel(x, y) by {
                if 0 <= x < 8 && 0 <= y < 32 {
                    crate::blocks::lemma_row_bit_const(x as u8);
                }
            }
        }
        r
    }

    /// Reset every pixel to off.
    pub fn reset(&mut self)
        requires
            old(self).wf(),
        ensures
            final(self).wf(),
            forall|x: int, y: int| !final(self).spec_pixel(x, y),
    {
        let mut y: usize = 0;
        while y < 32
            invariant
                self.data@.len() == 32,
                y <= 32,
                forall|j: int| 0 <= j < y ==> self.data@[j] == 0u8,
            decreases 32 - y,
        {
            self.data.set(y, 0u8);
            y = y + 1;
        }
        proof {
            assert forall|x: int, y2: int| !self.spec_pixel(x, y2) by {
                if 0 <= x < 8 && 0 <= y2 < 32 {
                    crate::blocks::lemma_row_bit_const(x as u8);
                }
            }
        }
    }

    pub fn has_position(pos: Point2d) -> (r: bool)
        ensures
            r == MatrixDisplay::spec_has_position(pos),
    {
        pos.x < 8 && pos.y < 32
    }

    /// Set one pixel of the surface.
    pub fn set_pixel(&mut self, pos: Point2d, value: bool)
        requires
            old(self).wf(),
            MatrixDisplay::spec_has_position(pos),
        ensures
            final(self).wf(),
            forall|x2: int, y2: int| final(self).spec_pixel(x2, y2) == (if x2 == pos.x && y2
                == pos.y {
                value
            } else {
                old(self).spec_pixel(x2, y2)
            }),
    {
        let mask: u8 = 0x80u8 >> pos.x;
        let line = self.data[pos.y as usize];
        let updated: u8 = if value {
            line | mask
        } else {
            line & !mask
        };
        self.data.set(pos.y as usize, updated);
        proof {
            assert forall|x2: int, y2: int| self.spec_pixel(x2, y2) == (if x2 == pos.x && y2
                == pos.y {
                value
            } else {
                old(self).spec_pixel(x2, y2)
            }) by {
                if 0 <= x2 < 8 && 0 <= y2 < 32 && y2 == pos.y {
                    if value {
                        lemma_row_bit_or_mask(old(self).data@[pos.y as int], pos.x, x2 as u8);
                    } else {
                        lemma_row_bit_clear_mask(old(self).data@[pos.y as int], pos.x, x2 as u8);
                    }
                }
            }
        }
    }

    /// Read one pixel of the surface.
    pub fn get_pixel(&self, pos: Point2d) -> (r: bool)
        requires
            self.wf(),
            MatrixDisplay::spec_has_position(pos),
        ensures
            r == self.spec_pixel(pos.x as int, pos.y as int),
    {
        let line = self.data[pos.y as usize];
        let mask: u8 = 0x80u8 >> pos.x;
        proof {
            lemma_row_bit_eq_mask(line, pos.x);
        }
        (line & mask) == mask
    }
}

} // verus!
