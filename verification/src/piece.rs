//! Tetromino geometry: the seven piece kinds, their occupied-cell tables,
//! rotation states with per-kind centering corrections, and spawning.

use vstd::prelude::*;

verus! {

/// The seven tetromino shapes.
#[derive(Clone, Copy, PartialEq, Eq, Structural, Debug)]
pub enum PieceKind {
    O,
    T,
    S,
    Z,
    J,
    L,
    I,
}

/// A rotation state (or a rotation step), in quarter turns.
#[derive(Clone, Copy, PartialEq, Eq, Structural, Debug)]
pub enum Rotation {
    Deg0,
    Deg90,
    Deg180,
    Deg270,
}

impl Rotation {
    /// The angle of this rotation state, in degrees.
    pub open spec fn spec_to_u16(self) -> u16 {
        match self {
            Rotation::Deg0 => 0,
            Rotation::Deg90 => 90,
            Rotation::Deg180 => 180,
            Rotation::Deg270 => 270,
        }
    }

    /// The rotation state with the given angle; callers must pass a
    /// multiple of ninety below three hundred and sixty.
    pub open spec fn spec_from_int(v: int) -> Rotation {
        if v == 0 {
            Rotation::Deg0
        } else if v == 90 {
            Rotation::Deg90
        } else if v == 180 {
            Rotation::Deg180
        } else {
            Rotation::Deg270
        }
    }

    pub fn to_u16(self) -> (r: u16)
        ensures
            r == self.spec_to_u16(),
    {
        match self {
            Rotation::Deg0 => 0,
            Rotation::Deg90 => 90,
            Rotation::Deg180 => 180,
            Rotation::Deg270 => 270,
        }
    }

    pub fn from_u16(v: u16) -> (r: Rotation)
        requires
            v == 0 || v == 90 || v == 180 || v == 270,
        ensures
            r == Rotation::spec_from_int(v as int),
    {
        if v == 0 {
            Rotation::Deg0
        } else if v == 90 {
            Rotation::Deg90
        } else if v == 180 {
            Rotation::Deg180
        } else {
            Rotation::Deg270
        }
    }
}

/// Composition of two rotation states: angles add modulo a full turn.
pub open spec fn rot_add(a: Rotation, b: Rotation) -> Rotation {
    Rotation::spec_from_int((a.spec_to_u16() + b.spec_to_u16()) % 360)
}

impl PieceKind {
    /// The four occupied cells of this kind in its base orientation,
    /// as (x, y) offsets from the piece position.
    pub open spec fn spec_block_offset(self, i: int) -> (int, int) {
        match self {
            PieceKind::O => if i == 0 { (0, 0) } else if i == 1 { (1, 0) } else if i == 2 { (0, 1) } else { (1, 1) },
            PieceKind::T => if i == 0 { (0, 0) } else if i == 1 { (0, 1) } else if i == 2 { (1, 1) } else { (0, 2) },
            PieceKind::S => if i == 0 { (0, 0) } else if i == 1 { (0, 1) } else if i == 2 { (1, 1) } else { (1, 2) },
            PieceKind::Z => if i == 0 { (1, 0) } else if i == 1 { (0, 1) } else if i == 2 { (1, 1) } else { (0, 2) },
            PieceKind::J => if i == 0 { (1, 0) } else if i == 1 { (1, 1) } else if i == 2 { (0, 2) } else { (1, 2) },
            PieceKind::L => if i == 0 { (0, 0) } else if i == 1 { (0, 1) } else if i == 2 { (0, 2) } else { (1, 2) },
            PieceKind::I => if i == 0 { (0, 0) } else if i == 1 { (1, 0) } else if i == 2 { (2, 0) } else { (3, 0) },
        }
    }

    /// Width and height of this kind's bounding box in the base orientation.
    pub open spec fn spec_dims(self) -> (int, int) {
        match self {
            PieceKind::I => (4, 1),
            PieceKind::O => (2, 2),
            _ => (2, 3),
        }
    }

    /// The per-kind centering correction applied after rotating to the
    /// given state, so that rotated shapes do not drift.
    pub open spec fn spec_rot_offset(self, rotation: Rotation) -> (int, int) {
        match self {
            PieceKind::O => match rotation {
                Rotation::Deg0 => (0, 0),
                Rotation::Deg90 => (0, -1),
                Rotation::Deg180 => (-1, -1),
                Rotation::Deg270 => (-1, 0),
            },
            PieceKind::T => match rotation {
                Rotation::Deg0 => (0, 0),
                Rotation::Deg90 => (-1, -1),
                Rotation::Deg180 => (-2, -1),
                Rotation::Deg270 => (-2, 1),
            },
            PieceKind::S => match rotation {
                Rotation::Deg0 => (0, 0),
                Rotation::Deg90 => (0, 0),
                Rotation::Deg180 => (-1, -1),
                Rotation::Deg270 => (-1, 1),
            },
            PieceKind::Z => match rotation {
                Rotation::Deg0 => (0, 0),
                Rotation::Deg90 => (-1, 0),
                Rotation::Deg180 => (-1, -1),
                Rotation::Deg270 => (-2, 1),
            },
            PieceKind::L | PieceKind::J => match rotation {
                Rotation::Deg0 => (0, 0),
                Rotation::Deg90 => (-1, 0),
                Rotation::Deg180 => (-1, 0),
                Rotation::Deg270 => (-1, 1),
            },
            PieceKind::I => match rotation {
                Rotation::Deg0 => (0, 0),
                Rotation::Deg90 => (2, -2),
                Rotation::Deg180 => (-1, -1),
                Rotation::Deg270 => (0, -1),
            },
        }
    }

    /// The base occupied-cell table of this kind.
    pub fn block_offsets(self) -> (r: Vec<(i8, i8)>)
        ensures
            r@.len() == 4,
            forall|i: int| 0 <= i < 4 ==> (#[trigger] r@[i]).0 == self.spec_block_offset(i).0
                && r@[i].1 == self.spec_block_offset(i).1,
    {
        match self {
            PieceKind::O => vec![(0i8, 0i8), (1, 0), (0, 1), (1, 1)],
            PieceKind::T => vec![(0i8, 0i8), (0, 1), (1, 1), (0, 2)],
            PieceKind::S => vec![(0i8, 0i8), (0, 1), (1, 1), (1, 2)],
            PieceKind::Z => vec![(1i8, 0i8), (0, 1), (1, 1), (0, 2)],
            PieceKind::J => vec![(1i8, 0i8), (1, 1), (0, 2), (1, 2)],
            PieceKind::L => vec![(0i8, 0i8), (0, 1), (0, 2), (1, 2)],
            PieceKind::I => vec![(0i8, 0i8), (1, 0), (2, 0), (3, 0)],
        }
    }

    /// Bounding-box dimensions of this kind in the base orientation.
    pub fn dims(self) -> (r: (u8, u8))
        ensures
            r.0 == self.spec_dims().0,
            r.1 == self.spec_dims().1,
    {
        match self {
            PieceKind::I => (4, 1),
            PieceKind::O => (2, 2),
            _ => (2, 3),
        }
    }

    /// The centering correction for the given rotation state.
    pub fn offset_for_rotation(self, rotation: Rotation) -> (r: (i16, i16))
        ensures
            r.0 == self.spec_rot_offset(rotation).0,
            r.1 == self.spec_rot_offset(rotation).1,
    {
        match self {
            PieceKind::O => match rotation {
                Rotation::Deg0 => (0, 0),
                Rotation::Deg90 => (0, -1),
                Rotation::Deg180 => (-1, -1),
                Rotation::Deg270 => (-1, 0),
            },
            PieceKind::T => match rotation {
                Rotation::Deg0 => (0, 0),
                Rotation::Deg90 => (-1, -1),
                Rotation::Deg180 => (-2, -1),
                Rotation::Deg270 => (-2, 1),
            },
            PieceKind::S => match rotation {
                Rotation::Deg0 => (0, 0),
                Rotation::Deg90 => (0, 0),
                Rotation::Deg180 => (-1, -1),
                Rotation::Deg270 => (-1, 1),
            },
            PieceKind::Z => match rotation {
                Rotation::Deg0 => (0, 0),
                Rotation::Deg90 => (-1, 0),
                Rotation::Deg180 => (-1, -1),
                Rotation::Deg270 => (-2, 1),
            },
            PieceKind::L | PieceKind::J => match rotation {
                Rotation::Deg0 => (0, 0),
                Rotation::Deg90 => (-1, 0),
                Rotation::Deg180 => (-1, 0),
                Rotation::Deg270 => (-1, 1),
            },
            PieceKind::I => match rotation {
                Rotation::Deg0 => (0, 0),
                Rotation::Deg90 => (2, -2),
                Rotation::Deg180 => (-1, -1),
                Rotation::Deg270 => (0, -1),
            },
        }
    }
}

/// A falling piece: shape identity, position and rotation state. The four
/// occupied cells derive purely from these fields.
#[derive(Clone, Copy, PartialEq, Eq, Structural, Debug)]
pub struct Piece {
    pub x: i16,
    pub y: i16,
    pub kind: PieceKind,
    pub rotation: Rotation,
}

/// Horizontal offset of the i-th occupied cell from the piece position,
/// after rotation and centering.
pub open spec fn cell_dx(kind: PieceKind, rotation: Rotation, i: int) -> int {
    let (ox, oy) = kind.spec_block_offset(i);
    let (w, h) = kind.spec_dims();
    let rx = match rotation {
        Rotation::Deg0 => ox,
        Rotation::Deg90 => oy,
        Rotation::Deg180 => w - ox,
        Rotation::Deg270 => h - oy,
    };
    rx + kind.spec_rot_offset(rotation).0
}

/// Vertical offset of the i-th occupied cell from the piece position,
/// after rotation and centering.
pub open spec fn cell_dy(kind: PieceKind, rotation: Rotation, i: int) -> int {
    let (ox, oy) = kind.spec_block_offset(i);
    let (w, h) = kind.spec_dims();
    let ry = match rotation {
        Rotation::Deg0 => oy,
        Rotation::Deg90 => w - ox,
        Rotation::Deg180 => h - oy,
        Rotation::Deg270 => ox,
    };
    ry + kind.spec_rot_offset(rotation).1
}

/// The i-th occupied cell of a piece, as absolute (x, y) coordinates.
pub open spec fn spec_cell(p: Piece, i: int) -> (int, int) {
    (p.x + cell_dx(p.kind, p.rotation, i), p.y + cell_dy(p.kind, p.rotation, i))
}

/// Cell offsets stay within a small fixed box around the piece position.
pub proof fn lemma_cell_offset_bounds(kind: PieceKind, rotation: Rotation, i: int)
    requires
        0 <= i < 4,
    ensures
        -4 <= cell_dx(kind, rotation, i) <= 6,
        -2 <= cell_dy(kind, rotation, i) <= 6,
{
}

/// The piece as it stands after one rotation step: only the rotation
/// state changes, by angle addition.
pub open spec fn spec_rotated(p: Piece, by: Rotation) -> Piece {
    Piece { rotation: rot_add(p.rotation, by), ..p }
}

impl Piece {
    pub fn new(x: i16, y: i16, kind: PieceKind) -> (r: Piece)
        ensures
            r == (Piece { x, y, kind, rotation: Rotation::Deg0 }),
    {
        Piece { x, y, kind, rotation: Rotation::Deg0 }
    }

    /// Advance the rotation state by the given step; position and kind
    /// are untouched.
    pub fn rotate(&mut self, by: Rotation)
        ensures
            *final(self) == spec_rotated(*old(self), by),
    {
        self.rotation = Rotation::from_u16((self.rotation.to_u16() + by.to_u16()) % 360);
    }

    pub fn move_to(&mut self, x: i16, y: i16)
        ensures
            *final(self) == (Piece { x, y, ..*old(self) }),
    {
        self.x = x;
        self.y = y;
    }

    pub fn move_by(&mut self, dx: i16, dy: i16)
        requires
            i16::MIN <= old(self).x + dx <= i16::MAX,
            i16::MIN <= old(self).y + dy <= i16::MAX,
        ensures
            *final(self) == (Piece {
                x: (old(self).x + dx) as i16,
                y: (old(self).y + dy) as i16,
                ..*old(self)
            }),
    {
        self.x = self.x + dx;
        self.y = self.y + dy;
    }

    /// The four occupied cells, derived from kind, rotation and position.
    pub fn block_positions(&self) -> (r: Vec<(i16, i16)>)
        requires
            i16::MIN + 16 <= self.x <= i16::MAX - 16,
            i16::MIN + 16 <= self.y <= i16::MAX - 16,
        ensures
            r@.len() == 4,
            forall|i: int| 0 <= i < 4 ==> (#[trigger] r@[i]).0 == spec_cell(*self, i).0
                && r@[i].1 == spec_cell(*self, i).1,
    {
        let offs = self.kind.block_offsets();
        let (w, h) = self.kind.dims();
        let (mx, my) = self.kind.offset_for_rotation(self.rotation);
        let mut r: Vec<(i16, i16)> = Vec::new();
        let mut i: usize = 0;
        while i < 4
            invariant
                0 <= i <= 4,
                r@.len() == i,
                offs@.len() == 4,
                i16::MIN + 16 <= self.x <= i16::MAX - 16,
                i16::MIN + 16 <= self.y <= i16::MAX - 16,
                w == self.kind.spec_dims().0,
                h == self.kind.spec_dims().1,
                mx == self.kind.spec_rot_offset(self.rotation).0,
                my == self.kind.spec_rot_offset(self.rotation).1,
                forall|j: int| 0 <= j < 4 ==> (#[trigger] offs@[j]).0 == self.kind.spec_block_offset(j).0
                    && offs@[j].1 == self.kind.spec_block_offset(j).1,
                forall|j: int| 0 <= j < i ==> (#[trigger] r@[j]).0 == spec_cell(*self, j).0
                    && r@[j].1 == spec_cell(*self, j).1,
            decreases 4 - i,
        {
            proof {
                lemma_cell_offset_bounds(self.kind, self.rotation, i as int);
            }
            let (ox, oy) = offs[i];
            let (rx, ry): (i16, i16) = match self.rotation {
                Rotation::Deg0 => (ox as i16, oy as i16),
                Rotation::Deg90 => (oy as i16, w as i16 - ox as i16),
                Rotation::Deg180 => (w as i16 - ox as i16, h as i16 - oy as i16),
                Rotation::Deg270 => (h as i16 - oy as i16, ox as i16),
            };
            r.push((self.x + rx + mx, self.y + ry + my));
            i = i + 1;
        }
        r
    }

    /// Axis-aligned bounding box of the occupied cells:
    /// ((min x, min y), (max x, max y)).
    #[verifier::rlimit(30)]
    pub fn aabb(&self) -> (r: ((i16, i16), (i16, i16)))
        requires
            i16::MIN + 16 <= self.x <= i16::MAX - 16,
            i16::MIN + 16 <= self.y <= i16::MAX - 16,
        ensures
            forall|i: int| 0 <= i < 4 ==> r.0.0 <= #[trigger] spec_cell(*self, i).0 <= r.1.0
                && r.0.1 <= spec_cell(*self, i).1 <= r.1.1,
            exists|i: int| 0 <= i < 4 && r.0.0 == #[trigger] spec_cell(*self, i).0,
            exists|i: int| 0 <= i < 4 && r.0.1 == #[trigger] spec_cell(*self, i).1,
            exists|i: int| 0 <= i < 4 && r.1.0 == #[trigger] spec_cell(*self, i).0,
            exists|i: int| 0 <= i < 4 && r.1.1 == #[trigger] spec_cell(*self, i).1,
    {
        let cells = self.block_positions();
        let (c0x, c0y) = cells[0];
        let mut min_x = c0x;
        let mut min_y = c0y;
        let mut max_x = c0x;
        let mut max_y = c0y;
        let mut i: usize = 1;
        #[verifier::loop_isolation(true)]
        while i < 4
            invariant
                1 <= i <= 4,
                cells@.len() == 4,
                forall|j: int| 0 <= j < i ==> min_x <= (#[trigger] cells@[j]).0 <= max_x
                    && min_y <= cells@[j].1 <= max_y,
                exists|j: int| 0 <= j < i && min_x == (#[trigger] cells@[j]).0,
                exists|j: int| 0 <= j < i && min_y == (#[trigger] cells@[j]).1,
                exists|j: int| 0 <= j < i && max_x == (#[trigger] cells@[j]).0,
                exists|j: int| 0 <= j < i && max_y == (#[trigger] cells@[j]).1,
            decreases 4 - i,
        {
            let (cx, cy) = cells[i];
            if cx < min_x {
                min_x = cx;
            }
            if cy < min_y {
                min_y = cy;
            }
            if cx > max_x {
                max_x = cx;
            }
            if cy > max_y {
                max_y = cy;
            }
            i = i + 1;
        }
        proof {
            assert forall|j: int| 0 <= j < 4 implies min_x <= #[trigger] spec_cell(*self, j).0
                <= max_x && min_y <= spec_cell(*self, j).1 <= max_y by {
                assert(cells@[j].0 == spec_cell(*self, j).0);
                assert(cells@[j].1 == spec_cell(*self, j).1);
            }
            let jx = choose|j: int| 0 <= j < 4 && min_x == (#[trigger] cells@[j]).0;
            assert(min_x == spec_cell(*self, jx).0);
            let jy = choose|j: int| 0 <= j < 4 && min_y == (#[trigger] cells@[j]).1;
            assert(min_y == spec_cell(*self, jy).1);
            let kx = choose|j: int| 0 <= j < 4 && max_x == (#[trigger] cells@[j]).0;
            assert(max_x == spec_cell(*self, kx).0);
            let ky = choose|j: int| 0 <= j < 4 && max_y == (#[trigger] cells@[j]).1;
            assert(max_y == spec_cell(*self, ky).1);
        }
        ((min_x, min_y), (max_x, max_y))
    }
}

/// The spawn variant of the given index: each kind at its fixed spawn
/// offset, rotation state zero.
pub open spec fn spec_spawn(i: int) -> Piece {
    if i == 0 {
        Piece { x: 3, y: 3, kind: PieceKind::O, rotation: Rotation::Deg0 }
    } else if i == 1 {
        Piece { x: 3, y: 2, kind: PieceKind::T, rotation: Rotation::Deg0 }
    } else if i == 2 {
        Piece { x: 3, y: 2, kind: PieceKind::S, rotation: Rotation::Deg0 }
    } else if i == 3 {
        Piece { x: 3, y: 2, kind: PieceKind::Z, rotation: Rotation::Deg0 }
    } else if i == 4 {
        Piece { x: 3, y: 2, kind: PieceKind::J, rotation: Rotation::Deg0 }
    } else if i == 5 {
        Piece { x: 3, y: 2, kind: PieceKind::L, rotation: Rotation::Deg0 }
    } else {
        Piece { x: 2, y: 3, kind: PieceKind::I, rotation: Rotation::Deg0 }
    }
}

/// Whether a piece is one of the seven spawn variants.
pub open spec fn is_spawn_piece(p: Piece) -> bool {
    exists|i: int| 0 <= i < 7 && p == spec_spawn(i)
}

/// Relies on rand::random_range over the range below n: the draw lies
/// within the range; the range is non-empty by the precondition.
#[verifier::external_body]
fn random_under(n: usize) -> (r: usize)
    requires
        n >= 1,
    ensures
        r < n,
{
    rand::random_range(0..n)
}

impl Piece {
    /// The i-th spawn variant.
    pub fn spawn_variant(i: usize) -> (r: Piece)
        requires
            i < 7,
        ensures
            r == spec_spawn(i as int),
    {
        if i == 0 {
            Piece::new(3, 3, PieceKind::O)
        } else if i == 1 {
            Piece::new(3, 2, PieceKind::T)
        } else if i == 2 {
            Piece::new(3, 2, PieceKind::S)
        } else if i == 3 {
            Piece::new(3, 2, PieceKind::Z)
        } else if i == 4 {
            Piece::new(3, 2, PieceKind::J)
        } else if i == 5 {
            Piece::new(3, 2, PieceKind::L)
        } else {
            Piece::new(2, 3, PieceKind::I)
        }
    }

    /// A uniformly drawn spawn variant.
    pub fn random() -> (r: Piece)
        ensures
            is_spawn_piece(r),
    {
        let i = random_under(7);
        let p = Piece::spawn_variant(i);
        proof {
            assert(0 <= i < 7 && p == spec_spawn(i as int));
        }
        p
    }
}

/// Four equal rotation steps return the piece to its original state, so
/// the occupied-cell set is unchanged.
pub proof fn lemma_rotate_four_identity(p: Piece, by: Rotation)
    ensures
        spec_rotated(spec_rotated(spec_rotated(spec_rotated(p, by), by), by), by) == p,
        forall|i: int| 0 <= i < 4 ==> #[trigger] spec_cell(
            spec_rotated(spec_rotated(spec_rotated(spec_rotated(p, by), by), by), by),
            i,
        ) == spec_cell(p, i),
{
}

} // verus!
