//! Encoder for a cascade of 8x8 LED matrix modules: the device-layout
//! bitmap with per-module quarter-turn correction, and the (opcode, data)
//! frames of the wire protocol. Writing the frames to the bus happens
//! outside this crate.

use vstd::prelude::*;

use crate::display::{
    Display, OP_DECODEMODE, OP_DIGIT0, OP_DISPLAYTEST, OP_INTENSITY, OP_SCANLIMIT, OP_SHUTDOWN,
};

verus! {

/// A quarter-turn mounting correction of one module.
#[derive(Clone, Copy, PartialEq, Eq, Structural, Debug)]
pub enum Rotation {
    Deg0,
    Deg90,
    Deg180,
    Deg270,
}

/// Whether bit i (counted from the least significant end) is set; the
/// device stores one local column per byte, one local row per bit.
pub open spec fn col_bit(b: u8, i: u8) -> bool {
    b & (1u8 << i) != 0
}

/// Setting or clearing one bit touches exactly that bit.
proof fn lemma_col_bit_update(b: u8, i: u8, j: u8)
    by (bit_vector)
    requires
        i < 8,
        j < 8,
    ensures
        col_bit(b | (1u8 << i), j) == (i == j || col_bit(b, j)),
        col_bit(b & !(1u8 << i), j) == (i != j && col_bit(b, j)),
        !col_bit(0u8, j),
        col_bit(0xffu8, j),
{
}

/// The local coordinates after a module's quarter-turn correction: a
/// quarter turn swaps the axes and flips one of them, a half turn flips
/// both.
pub open spec fn rot_coords(r: Rotation, lx: int, ly: int) -> (int, int) {
    match r {
        Rotation::Deg0 => (lx, ly),
        Rotation::Deg90 => (ly, 7 - lx),
        Rotation::Deg180 => (7 - lx, 7 - ly),
        Rotation::Deg270 => (7 - ly, lx),
    }
}

/// The encoder state: one byte per (module, local column) in device
/// layout, the module count, and each module's mounting rotation.
pub struct Max72xx {
    pub bitmap: Vec<u8>,
    pub displays: usize,
    pub rotations: Vec<Rotation>,
}

impl Max72xx {
    pub open spec fn spec_wf(self) -> bool {
        &&& self.bitmap@.len() == self.displays * 8
        &&& self.rotations@.len() == self.displays
        &&& self.displays <= 4096
    }

    /// A fresh encoder for the given number of cascaded modules, blank,
    /// with no mounting correction.
    pub fn new(displays: usize) -> (r: Max72xx)
        requires
            displays <= 4096,
        ensures
            r.spec_wf(),
            r.displays == displays,
            forall|x: int, y: int| !r.pixel(x, y),
            forall|i: int| 0 <= i < displays ==> r.rotations@[i] == Rotation::Deg0,
    {
        let mut bitmap: Vec<u8> = Vec::new();
        let mut i: usize = 0;
        while i < displays * 8
            invariant
                i <= displays * 8,
                displays <= 4096,
                bitmap@.len() == i,
                forall|j: int| 0 <= j < i ==> bitmap@[j] == 0u8,
            decreases displays * 8 - i,
        {
            bitmap.push(0u8);
            i = i + 1;
        }
        let mut rotations: Vec<Rotation> = Vec::new();
        let mut d: usize = 0;
        while d < displays
            invariant
                d <= displays,
                rotations@.len() == d,
                forall|j: int| 0 <= j < d ==> rotations@[j] == Rotation::Deg0,
            decreases displays - d,
        {
            rotations.push(Rotation::Deg0);
            d = d + 1;
        }
        let r = Max72xx { bitmap, displays, rotations };
        proof {
            assert forall|x: int, y: int| !r.pixel(x, y) by {
                if 0 <= x < 8 && 0 <= y < r.displays * 8 {
                    lemma_col_bit_update(0u8, 0, (rot_coords(
                        r.rotations@[y / 8],
                        x,
                        y % 8,
                    ).1) as u8);
                }
            }
        }
        r
    }

    /// The initialization sequence, one (opcode, data) pair each: leave
    /// test mode, scan all rows, decode nothing, enable the display, and
    /// set a medium brightness. Each pair is sent once to every module.
    pub fn reset(&self) -> (r: Vec<(u8, u8)>)
        ensures
            r@.len() == 5,
            r@[0] == (OP_DISPLAYTEST, 0u8),
            r@[1] == (OP_SCANLIMIT, 7u8),
            r@[2] == (OP_DECODEMODE, 0u8),
            r@[3] == (OP_SHUTDOWN, 1u8),
            r@[4] == (OP_INTENSITY, 2u8),
    {
        let mut r: Vec<(u8, u8)> = Vec::new();
        r.push((OP_DISPLAYTEST, 0u8));
        r.push((OP_SCANLIMIT, 7u8));
        r.push((OP_DECODEMODE, 0u8));
        r.push(self.set_shutdown(false));
        r.push(self.set_intensity(2));
        r
    }

    /// The pair that enables (data one) or disables (data zero) the
    /// display.
    pub fn set_shutdown(&self, value: bool) -> (r: (u8, u8))
        ensures
            r == (OP_SHUTDOWN, if value {
                0u8
            } else {
                1u8
            }),
    {
        (OP_SHUTDOWN, if value {
            0
        } else {
            1
        })
    }

    /// The pair that sets the brightness.
    pub fn set_intensity(&self, intensity: u8) -> (r: (u8, u8))
        ensures
            r == (OP_INTENSITY, intensity),
    {
        (OP_INTENSITY, intensity)
    }

    /// The wire bytes of one row refresh: one (row opcode, data byte)
    /// pair per module, last module of the cascade first, because the bus
    /// shifts the frame through the chain.
    pub fn transfer_row(&self, row: u8) -> (r: Vec<u8>)
        requires
            self.spec_wf(),
            row < 8,
        ensures
            r@.len() == 2 * self.displays,
            forall|i: int| 0 <= i < self.displays ==> (#[trigger] r@[2 * i]) == OP_DIGIT0 + row
                && r@[2 * i + 1] == self.bitmap@[(self.displays - 1 - i) * 8 + row],
    {
        let opcode = OP_DIGIT0 + row;
        let mut buffer: Vec<u8> = Vec::new();
        let mut i: usize = 0;
        while i < self.displays
            invariant
                self.spec_wf(),
                row < 8,
                i <= self.displays,
                opcode == OP_DIGIT0 + row,
                buffer@.len() == 2 * i,
                forall|j: int| 0 <= j < i ==> (#[trigger] buffer@[2 * j]) == OP_DIGIT0 + row
                    && buffer@[2 * j + 1] == self.bitmap@[(self.displays - 1 - j) * 8 + row],
            decreases self.displays - i,
        {
            let ghost pre: Seq<u8> = buffer@;
            let display = self.displays - 1 - i;
            buffer.push(opcode);
            buffer.push(self.bitmap[display * 8 + row as usize]);
            proof {
                assert forall|j: int| 0 <= j < i + 1 implies (#[trigger] buffer@[2 * j]) == OP_DIGIT0
                    + row && buffer@[2 * j + 1] == self.bitmap@[(self.displays - 1 - j) * 8
                    + row] by {
                    if j < i {
                        assert(buffer@[2 * j] == pre[2 * j]);
                        assert(buffer@[2 * j + 1] == pre[2 * j + 1]);
                    } else {
                        assert(buffer@[2 * j] == opcode);
                    }
                }
            }
            i = i + 1;
        }
        buffer
    }

    /// The wire bytes of a full refresh: the eight row frames in order.
    pub fn transfer_bitmap(&self) -> (r: Vec<Vec<u8>>)
        requires
            self.spec_wf(),
        ensures
            r@.len() == 8,
            forall|row: int| 0 <= row < 8 ==> (#[trigger] r@[row])@.len() == 2 * self.displays,
            forall|row: int, i: int| 0 <= row < 8 && 0 <= i < self.displays ==> (
            #[trigger] r@[row]@[2 * i]) == OP_DIGIT0 + row && r@[row]@[2 * i + 1] == self.bitmap@[(
            self.displays - 1 - i) * 8 + row],
    {
        let mut r: Vec<Vec<u8>> = Vec::new();
        let mut row: u8 = 0;
        while row < 8
            invariant
                self.spec_wf(),
                row <= 8,
                r@.len() == row,
                forall|rr: int| 0 <= rr < row ==> (#[trigger] r@[rr])@.len() == 2 * self.displays,
                forall|rr: int, i: int| 0 <= rr < row && 0 <= i < self.displays ==> (
                #[trigger] r@[rr]@[2 * i]) == OP_DIGIT0 + rr && r@[rr]@[2 * i + 1] == self.bitmap@[(
                self.displays - 1 - i) * 8 + rr],
            decreases 8 - row,
        {
            let frame = self.transfer_row(row);
            let ghost pre: Seq<Vec<u8>> = r@;
            let ghost framev: Seq<u8> = frame@;
            r.push(frame);
            proof {
                assert forall|rr: int, i2: int| 0 <= rr < row + 1 && 0 <= i2 < self.displays
                    implies (#[trigger] r@[rr]@[2 * i2]) == OP_DIGIT0 + rr && r@[rr]@[2 * i2 + 1]
                    == self.bitmap@[(self.displays - 1 - i2) * 8 + rr] by {
                    if rr < row {
                        assert(r@[rr] == pre[rr]);
                        assert((#[trigger] pre[rr]@[2 * i2]) == OP_DIGIT0 + rr);
                    } else {
                        assert(r@[rr] == frame);
                        assert(framev[2 * i2] == OP_DIGIT0 + row);
                    }
                }
                assert forall|rr: int| 0 <= rr < row + 1 implies (#[trigger] r@[rr])@.len() == 2
                    * self.displays by {
                    if rr < row {
                        assert(r@[rr] == pre[rr]);
                    }
                }
            }
            row = row + 1;
        }
        r
    }
}

impl Display for Max72xx {
    open spec fn wf(&self) -> bool {
        self.spec_wf()
    }

    open spec fn height(&self) -> int {
        self.displays * 8
    }

    open spec fn pixel(&self, x: int, y: int) -> bool {
        &&& 0 <= x < 8
        &&& 0 <= y < self.displays * 8
        &&& {
            let d = y / 8;
            let (nx, ny) = rot_coords(self.rotations@[d], x, y % 8);
            col_bit(self.bitmap@[d * 8 + nx], ny as u8)
        }
    }

    fn fill(&mut self, value: bool) {
        let line: u8 = if value {
            0xff
        } else {
            0x00
        };
        let n = self.bitmap.len();
        let mut i: usize = 0;
        while i < n
            invariant
                self.bitmap@.len() == n,
                self.displays == old(self).displays,
                self.rotations@ == old(self).rotations@,
                i <= n,
                forall|j: int| 0 <= j < i ==> self.bitmap@[j] == line,
                forall|j: int| i <= j < n ==> self.bitmap@[j] == old(self).bitmap@[j],
            decreases n - i,
        {
            self.bitmap.set(i, line);
            i = i + 1;
        }
        proof {
            assert forall|x: int, y: int| self.pixel(x, y) == (0 <= x < 8 && 0 <= y < old(
                self,
            ).height() && value) by {
                if 0 <= x < 8 && 0 <= y < self.displays * 8 {
                    let d = y / 8;
                    let (nx, ny) = rot_coords(self.rotations@[d], x, y % 8);
                    lemma_col_bit_update(line, 0, ny as u8);
                    assert(0 <= d * 8 + nx < self.displays * 8) by {
                        vstd::arithmetic::div_mod::lemma_fundamental_div_mod(y, 8);
                    }
                }
            }
        }
    }

    fn set_pixel(&mut self, x: u8, y: u8, value: bool) {
        if x >= 8 {
            return;
        }
        let total = self.displays * 8;
        if y as usize >= total {
            return;
        }
        let display = (y / 8) as usize;
        let lx = x;
        let ly = y % 8;
        proof {
            vstd::arithmetic::div_mod::lemma_fundamental_div_mod(y as int, 8);
        }
        let rotation = self.rotations[display];
        let (nx, ny): (u8, u8) = match rotation {
            Rotation::Deg0 => (lx, ly),
            Rotation::Deg90 => (ly, 7 - lx),
            Rotation::Deg180 => (7 - lx, 7 - ly),
            Rotation::Deg270 => (7 - ly, lx),
        };
        let index = display * 8 + nx as usize;
        let mask: u8 = 1u8 << ny;
        let b = self.bitmap[index];
        let updated: u8 = if value {
            b | mask
        } else {
            b & !mask
        };
        self.bitmap.set(index, updated);
        proof {
            assert forall|x2: int, y2: int| self.pixel(x2, y2) == (if x2 == x && y2 == y {
                value
            } else {
                old(self).pixel(x2, y2)
            }) by {
                if 0 <= x2 < 8 && 0 <= y2 < self.displays * 8 {
                    let d2 = y2 / 8;
                    let ly2 = y2 % 8;
                    vstd::arithmetic::div_mod::lemma_fundamental_div_mod(y2, 8);
                    let (nx2, ny2) = rot_coords(self.rotations@[d2], x2, ly2);
                    assert(0 <= nx2 < 8 && 0 <= ny2 < 8);
                    if d2 == display {
                        lemma_col_bit_update(b, ny, ny2 as u8);
                        if x2 == x && y2 == y {
                            assert(nx2 == nx && ny2 == ny);
                        } else {
                            assert((x2, ly2) != (x as int, ly as int));
                            assert((nx2, ny2) != (nx as int, ny as int));
                        }
                    } else {
                        assert(d2 * 8 + nx2 != index);
                    }
                }
            }
        }
    }
}

} // verus!
