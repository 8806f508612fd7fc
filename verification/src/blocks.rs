//! The bit-packed playfield: one mask byte per row, occupancy queries with
//! horizontal wrap, piece placement, and full-row clearing with the
//! re-check-same-index cascade.

use vstd::prelude::*;

use crate::piece::{spec_cell, Piece};

verus! {

/// Whether the bit of column x (leftmost column is the highest bit) is set
/// in a row mask.
pub open spec fn row_bit(row: u8, x: u8) -> bool {
    row & (0x80u8 >> x) != 0
}

/// Setting one column bit sets exactly that column.
pub proof fn lemma_row_bit_or_mask(r: u8, x: u8, x2: u8)
    by (bit_vector)
    requires
        x < 8,
        x2 < 8,
    ensures
        row_bit(r | (0x80u8 >> x), x2) == (x2 == x || row_bit(r, x2)),
{
}

/// Clearing one column bit clears exactly that column.
pub proof fn lemma_row_bit_clear_mask(r: u8, x: u8, x2: u8)
    by (bit_vector)
    requires
        x < 8,
        x2 < 8,
    ensures
        row_bit(r & !(0x80u8 >> x), x2) == (x2 != x && row_bit(r, x2)),
{
}

/// A bit of a union of masks is a bit of one of them.
pub proof fn lemma_row_bit_or(a: u8, b: u8, x: u8)
    by (bit_vector)
    ensures
        row_bit(a | b, x) == (row_bit(a, x) || row_bit(b, x)),
{
}

/// The empty row has no bit set; the full row has every column bit set.
pub proof fn lemma_row_bit_const(x: u8)
    by (bit_vector)
    requires
        x < 8,
    ensures
        !row_bit(0u8, x),
        row_bit(0xffu8, x),
{
}

/// A single-column mask holds exactly that column's bit.
pub proof fn lemma_row_bit_single(x: u8, x2: u8)
    by (bit_vector)
    requires
        x < 8,
        x2 < 8,
    ensures
        row_bit(0x80u8 >> x, x2) == (x2 == x),
{
}

/// Union with the empty mask changes nothing; union is associative.
pub proof fn lemma_or_basics(a: u8, b: u8, c: u8)
    by (bit_vector)
    ensures
        a | 0u8 == a,
        (a | b) | c == a | (b | c),
{
}

/// The rows that survive a clearing pass: every row that is not fully set,
/// in order.
pub open spec fn surviving_rows(data: Seq<u8>) -> Seq<u8> {
    data.filter(|row: u8| row != 0xff)
}

/// The playfield after a clearing pass: fresh empty rows on top, then the
/// surviving rows, keeping the total height.
pub open spec fn cleared_rows(data: Seq<u8>) -> Seq<u8> {
    Seq::new((data.len() - surviving_rows(data).len()) as nat, |i: int| 0u8) + surviving_rows(
        data,
    )
}

/// The column mask contributed to row y by the i-th cell of a piece
/// (column wrapped), or the empty mask if the cell lies in another row.
pub open spec fn cell_mask_one(p: Piece, i: int, y: int) -> u8 {
    if spec_cell(p, i).1 == y {
        0x80u8 >> ((spec_cell(p, i).0 % 8) as u8)
    } else {
        0u8
    }
}

/// The column masks contributed to row y by the first k cells of a piece.
pub open spec fn piece_row_mask_upto(p: Piece, y: int, k: int) -> u8
    decreases k,
{
    if k <= 0 {
        0u8
    } else {
        piece_row_mask_upto(p, y, k - 1) | cell_mask_one(p, k - 1, y)
    }
}

/// The column mask a piece contributes to row y.
pub open spec fn piece_row_mask(p: Piece, y: int) -> u8 {
    piece_row_mask_upto(p, y, 4)
}

/// Whether some occupied cell of the piece, column wrapped, lands on (x, y).
pub open spec fn piece_covers(p: Piece, x: int, y: int) -> bool {
    exists|i: int| 0 <= i < 4 && spec_cell(p, i).0 % 8 == x && spec_cell(p, i).1 == y
}

/// The bit-packed playfield: one mask byte per row, top row first.
pub struct Blocks {
    pub data: Vec<u8>,
}

impl Blocks {
    pub open spec fn wf(self) -> bool {
        self.data@.len() == 32
    }

    /// Occupancy of a single position under the boundary rules: the floor
    /// is occupied, the space above the grid is free.
    pub open spec fn occ(self, x: int, y: int) -> bool {
        if y >= 32 {
            true
        } else if y < 0 {
            false
        } else if x < 0 || x >= 8 {
            false
        } else {
            row_bit(self.data@[y], x as u8)
        }
    }

    /// Whether any occupied cell of the piece, column wrapped, lands on an
    /// occupied position.
    pub open spec fn spec_intersects(self, p: Piece) -> bool {
        exists|i: int| 0 <= i < 4 && self.occ(#[trigger] spec_cell(p, i).0 % 8, spec_cell(p, i).1)
    }

    /// An empty playfield.
    pub fn new() -> (r: Blocks)
        ensures
            r.wf(),
            forall|y: int| 0 <= y < 32 ==> r.data@[y] == 0u8,
    {
        let mut data: Vec<u8> = Vec::new();
        let mut i: usize = 0;
        while i < 32
            invariant
                i <= 32,
                data@.len() == i,
                forall|y: int| 0 <= y < i ==> data@[y] == 0u8,
            decreases 32 - i,
        {
            data.push(0u8);
            i = i + 1;
        }
        Blocks { data }
    }

    pub fn get(&self, x: i16, y: i16) -> (r: bool)
        requires
            self.wf(),
        ensures
            r == self.occ(x as int, y as int),
    {
        if y >= 32 {
            return true;
        }
        if y < 0 {
            return false;
        }
        if x < 0 || x >= 8 {
            return false;
        }
        let mask: u8 = 0x80u8 >> (x as u8);
        (self.data[y as usize] & mask) != 0
    }

    /// Set the position (x, y); positions outside the grid are left alone.
    pub fn set(&mut self, x: i16, y: i16)
        requires
            old(self).wf(),
        ensures
            final(self).wf(),
            (0 <= x < 8 && 0 <= y < 32) ==> final(self).data@ == old(self).data@.update(
                y as int,
                old(self).data@[y as int] | (0x80u8 >> (x as u8)),
            ),
            !(0 <= x < 8 && 0 <= y < 32) ==> final(self).data@ == old(self).data@,
            forall|x2: int, y2: int|
                final(self).occ(x2, y2) == (old(self).occ(x2, y2) || (x2 == x && y2 == y && 0 <= x
                    < 8 && 0 <= y < 32)),
    {
        if x < 0 || x >= 8 || y < 0 || y >= 32 {
            return;
        }
        let mask: u8 = 0x80u8 >> (x as u8);
        let row = self.data[y as usize];
        self.data.set(y as usize, row | mask);
        proof {
            assert forall|x2: int, y2: int|
                self.occ(x2, y2) == (old(self).occ(x2, y2) || (x2 == x && y2 == y)) by {
                if 0 <= x2 < 8 && 0 <= y2 < 32 {
                    if y2 == y {
                        lemma_row_bit_or_mask(old(self).data@[y as int], x as u8, x2 as u8);
                    }
                }
            }
        }
    }

    /// The row masks, top row first.
    pub fn rows(&self) -> (r: &Vec<u8>)
        ensures
            r@ == self.data@,
    {
        &self.data
    }

    pub fn intersects(&self, piece: &Piece) -> (r: bool)
        requires
            self.wf(),
            i16::MIN + 16 <= piece.x <= i16::MAX - 16,
            i16::MIN + 16 <= piece.y <= i16::MAX - 16,
        ensures
            r == self.spec_intersects(*piece),
    {
        let cells = piece.block_positions();
        let mut i: usize = 0;
        while i < 4
            invariant
                i <= 4,
                cells@.len() == 4,
                self.wf(),
                forall|j: int| 0 <= j < 4 ==> (#[trigger] cells@[j]).0 == spec_cell(*piece, j).0
                    && cells@[j].1 == spec_cell(*piece, j).1,
                forall|j: int| 0 <= j < i ==> !self.occ(
                    #[trigger] spec_cell(*piece, j).0 % 8,
                    spec_cell(*piece, j).1,
                ),
            decreases 4 - i,
        {
            let (cx, cy) = cells[i];
            let wx = wrap_x(cx);
            if self.get(wx as i16, cy) {
                proof {
                    assert(self.occ(spec_cell(*piece, i as int).0 % 8, spec_cell(*piece, i as int).1));
                }
                return true;
            }
            i = i + 1;
        }
        false
    }

    /// Lock a piece into the grid: set every occupied cell, columns
    /// wrapped; cells above or below the grid are dropped.
    pub fn place_piece(&mut self, piece: &Piece)
        requires
            old(self).wf(),
            i16::MIN + 16 <= piece.x <= i16::MAX - 16,
            i16::MIN + 16 <= piece.y <= i16::MAX - 16,
        ensures
            final(self).wf(),
            forall|y: int| 0 <= y < 32 ==> final(self).data@[y] == (old(self).data@[y]
                | piece_row_mask(*piece, y)),
    {
        let cells = piece.block_positions();
        proof {
            assert forall|y: int| 0 <= y < 32 implies old(self).data@[y] == (old(self).data@[y]
                | piece_row_mask_upto(*piece, y, 0)) by {
                lemma_or_basics(old(self).data@[y], 0u8, 0u8);
            }
        }
        let mut i: usize = 0;
        while i < 4
            invariant
                i <= 4,
                cells@.len() == 4,
                self.wf(),
                old(self).data@.len() == 32,
                i16::MIN + 16 <= piece.x <= i16::MAX - 16,
                i16::MIN + 16 <= piece.y <= i16::MAX - 16,
                forall|j: int| 0 <= j < 4 ==> (#[trigger] cells@[j]).0 == spec_cell(*piece, j).0
                    && cells@[j].1 == spec_cell(*piece, j).1,
                forall|y: int| 0 <= y < 32 ==> self.data@[y] == (old(self).data@[y]
                    | piece_row_mask_upto(*piece, y, i as int)),
            decreases 4 - i,
        {
            let ghost pre: Seq<u8> = self.data@;
            let (cx, cy) = cells[i];
            let wx = wrap_x(cx);
            self.set(wx as i16, cy);
            proof {
                assert forall|y: int| 0 <= y < 32 implies self.data@[y] == (old(self).data@[y]
                    | piece_row_mask_upto(*piece, y, i + 1)) by {
                    let m = cell_mask_one(*piece, i as int, y);
                    assert(piece_row_mask_upto(*piece, y, i + 1) == piece_row_mask_upto(
                        *piece,
                        y,
                        i as int,
                    ) | m);
                    lemma_or_basics(old(self).data@[y], piece_row_mask_upto(*piece, y, i as int), m);
                    lemma_or_basics(pre[y], 0u8, 0u8);
                    if 0 <= cy < 32 && y == cy as int {
                        assert(m == 0x80u8 >> wx);
                        assert(self.data@[y] == pre[y] | m);
                    } else {
                        assert(m == 0u8);
                        assert(self.data@[y] == pre[y]);
                    }
                }
            }
            i = i + 1;
        }
    }

    /// Scan from the bottom row upward; remove every fully set row, shift
    /// the rows above it down one, insert an empty row on top, and
    /// re-examine the same index (the row that slid in may itself be
    /// full). Returns how many rows were removed.
    pub fn remove_full_rows(&mut self) -> (removed: u32)
        requires
            old(self).wf(),
        ensures
            final(self).wf(),
            final(self).data@ == cleared_rows(old(self).data@),
            removed == 32 - surviving_rows(old(self).data@).len(),
    {
        let ghost orig: Seq<u8> = self.data@;
        proof {
            Seq::lemma_filter_len(orig, |row: u8| row != 0xff);
            assert(orig.skip(32) =~= Seq::<u8>::empty());
            assert(Seq::<u8>::empty().filter(|row: u8| row != 0xff) =~= Seq::<u8>::empty());
            assert(self.data@ =~= Seq::new(0nat, |i: int| 0u8) + orig.take(32) + surviving_rows(
                orig.skip(32),
            ));
        }
        let mut removed: u32 = 0;
        let mut pos: usize = 32;
        while pos > 0
            invariant
                self.wf(),
                pos <= 32,
                removed <= 32,
                orig.len() == 32,
                clear_pass_state(self.data@, orig, pos as int, removed as int),
            decreases pos + 32 - removed,
        {
            if self.data[pos - 1] == 0xff {
                proof {
                    lemma_clear_state_full(self.data@, orig, pos as int, removed as int);
                }
                let ghost m: int = pos - removed;
                let ghost snap: Seq<u8> = self.data@;
                let mut j: usize = pos - 1;
                while j >= 1
                    invariant
                        self.wf(),
                        snap.len() == 32,
                        j < pos <= 32,
                        forall|k: int| j < k < pos ==> self.data@[k] == snap[k - 1],
                        forall|k: int| 0 <= k <= j ==> self.data@[k] == snap[k],
                        forall|k: int| pos <= k < 32 ==> self.data@[k] == snap[k],
                    decreases j,
                {
                    let v = self.data[j - 1];
                    self.data.set(j, v);
                    j = j - 1;
                }
                self.data.set(0, 0u8);
                removed = removed + 1;
                proof {
                    let r0 = removed - 1;
                    lemma_surviving_unskip(orig, m);
                    let target = Seq::new(removed as nat, |i: int| 0u8) + orig.take(m - 1)
                        + surviving_rows(orig.skip(m - 1));
                    assert(target.len() == 32);
                    assert forall|k: int| 0 <= k < 32 implies self.data@[k] == target[k] by {
                        if k == 0 {
                            assert(target[k] == 0u8);
                        } else if k < removed {
                            assert(self.data@[k] == snap[k - 1]);
                            assert(snap[k - 1] == 0u8);
                        } else if k < pos {
                            assert(self.data@[k] == snap[k - 1]);
                            assert(snap[k - 1] == orig.take(m)[k - 1 - r0]);
                            assert(target[k] == orig.take(m - 1)[k - removed]);
                        } else {
                            assert(self.data@[k] == snap[k]);
                            assert(snap[k] == surviving_rows(orig.skip(m))[k - r0 - m]);
                        }
                    }
                    assert(self.data@ =~= target);
                }
            } else {
                proof {
                    let m = if pos - removed >= 0 { pos - removed } else { 0 };
                    if m >= 1 {
                        assert(self.data@[pos - 1] == orig.take(m)[m - 1]);
                        lemma_surviving_unskip(orig, m);
                        assert(orig.take(m) =~= orig.take(m - 1) + seq![orig[m - 1]]);
                        assert(self.data@ =~= Seq::new(removed as nat, |i: int| 0u8) + orig.take(
                            m - 1,
                        ) + surviving_rows(orig.skip(m - 1)));
                    }
                }
                pos = pos - 1;
            }
        }
        proof {
            assert(self.data@ =~= cleared_rows(orig));
        }
        removed
    }
}

/// Wrap a column index onto the grid: indices are taken modulo the width.
pub fn wrap_x(x: i16) -> (r: u8)
    ensures
        r as int == (x as int) % 8,
{
    let m = x % 8;
    if m < 0 {
        (m + 8) as u8
    } else {
        m as u8
    }
}

/// The invariant of the clearing pass: the rows below the scan position
/// are exactly the surviving rows of the suffix already examined, the rows
/// above it are the untouched original prefix, and the removed count in
/// fresh empty rows sits on top.
spec fn clear_pass_state(data: Seq<u8>, orig: Seq<u8>, pos: int, removed: int) -> bool {
    let m = if pos - removed >= 0 {
        pos - removed
    } else {
        0
    };
    &&& data == Seq::new(removed as nat, |i: int| 0u8) + orig.take(m) + surviving_rows(
        orig.skip(m),
    )
    &&& removed == (orig.len() - m) - surviving_rows(orig.skip(m)).len()
}

/// In the state of a clearing pass, a fully set row at the scan position
/// must come from the untouched original prefix.
proof fn lemma_clear_state_full(data: Seq<u8>, orig: Seq<u8>, pos: int, removed: int)
    requires
        clear_pass_state(data, orig, pos, removed),
        orig.len() == 32,
        1 <= pos <= 32,
        0 <= removed,
        data[pos - 1] == 0xff,
    ensures
        pos - removed >= 1,
        orig[pos - removed - 1] == 0xff,
        removed <= 31,
{
    let m = if pos - removed >= 0 {
        pos - removed
    } else {
        0
    };
    Seq::lemma_filter_len(orig.skip(m), |row: u8| row != 0xff);
    if pos - removed < 1 {
        assert(data[pos - 1] == 0u8);
    }
    assert(data[pos - 1] == orig.take(m)[pos - 1 - removed]);
}

/// Splitting one row off the front of a suffix: a fully set row is
/// dropped by the clearing filter, any other row is kept in front.
proof fn lemma_surviving_unskip(s: Seq<u8>, m: int)
    requires
        1 <= m <= s.len(),
    ensures
        s[m - 1] == 0xff ==> surviving_rows(s.skip(m - 1)) == surviving_rows(s.skip(m)),
        s[m - 1] != 0xff ==> surviving_rows(s.skip(m - 1)) == seq![s[m - 1]] + surviving_rows(
            s.skip(m),
        ),
        surviving_rows(s.skip(m)).len() <= s.len() - m,
{
    let pred = |row: u8| row != 0xff;
    let single: Seq<u8> = seq![s[m - 1]];
    assert(s.skip(m - 1) =~= single + s.skip(m));
    Seq::filter_distributes_over_add(single, s.skip(m), pred);
    reveal_with_fuel(Seq::filter, 2);
    assert(single.drop_last() =~= Seq::<u8>::empty());
    assert(single.drop_last().filter(pred) =~= Seq::<u8>::empty());
    if s[m - 1] != 0xff {
        assert(single.filter(pred) =~= seq![s[m - 1]]);
    } else {
        assert(single.filter(pred) =~= Seq::<u8>::empty());
        assert(Seq::<u8>::empty() + s.skip(m).filter(pred) =~= s.skip(m).filter(pred));
    }
    Seq::lemma_filter_len(s.skip(m), pred);
}

/// The boundary rules of collision, cell by cell: a piece intersects
/// whenever any of its occupied cells, column wrapped, coincides with a
/// set cell or lies on or below the bottom boundary; a cell above the top
/// boundary is free and never contributes.
pub proof fn lemma_intersects_rule(b: Blocks, p: Piece, i: int)
    requires
        b.wf(),
        0 <= i < 4,
    ensures
        b.occ(spec_cell(p, i).0 % 8, spec_cell(p, i).1) ==> b.spec_intersects(p),
        spec_cell(p, i).1 >= 32 ==> b.spec_intersects(p),
        spec_cell(p, i).1 < 0 ==> !b.occ(spec_cell(p, i).0 % 8, spec_cell(p, i).1),
{
    if spec_cell(p, i).1 >= 32 {
        assert(b.occ(spec_cell(p, i).0 % 8, spec_cell(p, i).1));
    }
}

/// What placement means cell by cell: placing sets all occupied cells of
/// the piece into the grid — after the rows have taken the piece's masks,
/// a position is occupied exactly when it was occupied before or the
/// piece covers it (columns wrapped; cells outside the grid are dropped).
pub proof fn lemma_place_covers(pre: Blocks, post: Blocks, p: Piece)
    requires
        pre.wf(),
        post.wf(),
        forall|y: int| 0 <= y < 32 ==> post.data@[y] == (pre.data@[y] | piece_row_mask(p, y)),
    ensures
        forall|x: int, y: int| post.occ(x, y) == (pre.occ(x, y) || (0 <= y < 32 && piece_covers(
            p,
            x,
            y,
        ))),
{
    assert forall|x: int, y: int| post.occ(x, y) == (pre.occ(x, y) || (0 <= y < 32 && piece_covers(
        p,
        x,
        y,
    ))) by {
        if 0 <= x < 8 && 0 <= y < 32 {
            assert(post.data@[y] == pre.data@[y] | piece_row_mask(p, y));
            lemma_row_bit_or(pre.data@[y], piece_row_mask(p, y), x as u8);
            lemma_mask_covers(p, x as u8, y);
            assert((x as u8) as int == x);
            assert(post.occ(x, y) == (row_bit(pre.data@[y], x as u8) || piece_covers(p, x, y)));
        } else if 0 <= y < 32 {
            assert(!post.occ(x, y));
            assert(!pre.occ(x, y));
            assert(!piece_covers(p, x, y));
        }
    }
}

/// A piece's mask for a row holds exactly the wrapped columns of the cells
/// that lie in that row.
proof fn lemma_mask_covers(p: Piece, x: u8, y: int)
    requires
        x < 8,
    ensures
        row_bit(piece_row_mask(p, y), x) == piece_covers(p, x as int, y),
{
    let m0 = cell_mask_one(p, 0, y);
    let m1 = cell_mask_one(p, 1, y);
    let m2 = cell_mask_one(p, 2, y);
    let m3 = cell_mask_one(p, 3, y);
    assert(piece_row_mask_upto(p, y, 0) == 0u8);
    assert(piece_row_mask_upto(p, y, 1) == 0u8 | m0);
    assert(piece_row_mask_upto(p, y, 2) == (0u8 | m0) | m1);
    assert(piece_row_mask_upto(p, y, 3) == ((0u8 | m0) | m1) | m2);
    assert(piece_row_mask(p, y) == (((0u8 | m0) | m1) | m2) | m3);
    lemma_row_bit_or(((0u8 | m0) | m1) | m2, m3, x);
    lemma_row_bit_or((0u8 | m0) | m1, m2, x);
    lemma_row_bit_or(0u8 | m0, m1, x);
    lemma_row_bit_or(0u8, m0, x);
    lemma_row_bit_const(x);
    assert forall|i: int| 0 <= i < 4 implies row_bit(#[trigger] cell_mask_one(p, i, y), x) == (
    spec_cell(p, i).1 == y && spec_cell(p, i).0 % 8 == x) by {
        if spec_cell(p, i).1 == y {
            lemma_row_bit_single((spec_cell(p, i).0 % 8) as u8, x);
        } else {
            assert(cell_mask_one(p, i, y) == 0u8);
        }
    }
    if piece_covers(p, x as int, y) {
        let i = choose|i: int| 0 <= i < 4 && spec_cell(p, i).0 % 8 == x as int && spec_cell(
            p,
            i,
        ).1 == y;
        assert(row_bit(cell_mask_one(p, i, y), x));
    }
    if row_bit(piece_row_mask(p, y), x) {
        assert(row_bit(m0, x) || row_bit(m1, x) || row_bit(m2, x) || row_bit(m3, x));
    }
}

} // verus!
