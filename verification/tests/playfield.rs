use tetris_core::blocks::{wrap_x, Blocks};
use tetris_core::piece::{Piece, PieceKind};

fn fill_row(b: &mut Blocks, y: i16) {
    for x in 0..8i16 {
        b.set(x, y);
    }
}

#[test]
fn wrap_x_wraps_into_grid() {
    assert_eq!(wrap_x(0), 0);
    assert_eq!(wrap_x(7), 7);
    assert_eq!(wrap_x(8), 0);
    assert_eq!(wrap_x(-1), 7);
    assert_eq!(wrap_x(-9), 7);
    assert_eq!(wrap_x(17), 1);
}

#[test]
fn get_boundary_rules() {
    let b = Blocks::new();
    // The floor is occupied, the space above the grid is free.
    assert!(b.get(3, 32));
    assert!(b.get(0, 100));
    assert!(!b.get(3, -1));
    assert!(!b.get(3, 0));
    // Columns outside the grid are free.
    assert!(!b.get(-1, 10));
    assert!(!b.get(8, 10));
}

#[test]
fn set_and_get_one_cell() {
    let mut b = Blocks::new();
    b.set(2, 10);
    assert!(b.get(2, 10));
    assert!(!b.get(3, 10));
    assert!(!b.get(2, 11));
    // Writes outside the grid are dropped.
    b.set(-1, 10);
    b.set(3, -2);
    assert!(!b.get(7, 10));
}

#[test]
fn intersects_on_floor_and_cells() {
    let b = Blocks::new();
    // A piece whose cells reach the bottom boundary intersects.
    let low = Piece::new(3, 31, PieceKind::O);
    assert!(b.intersects(&low));
    // A piece above the top boundary does not.
    let high = Piece::new(3, -6, PieceKind::O);
    assert!(!b.intersects(&high));
    // A set cell is hit, with the column wrapped.
    let mut b2 = Blocks::new();
    b2.set(7, 10);
    let wrapped = Piece::new(-1, 10, PieceKind::O);
    assert!(b2.intersects(&wrapped));
}

#[test]
fn place_piece_sets_wrapped_cells() {
    let mut b = Blocks::new();
    let p = Piece::new(7, 10, PieceKind::O);
    b.place_piece(&p);
    // Columns 7 and 0 (wrapped), rows 10 and 11.
    assert!(b.get(7, 10));
    assert!(b.get(0, 10));
    assert!(b.get(7, 11));
    assert!(b.get(0, 11));
    assert!(!b.get(1, 10));
}

#[test]
fn clear_single_full_row() {
    let mut b = Blocks::new();
    b.set(0, 19);
    b.set(1, 19);
    fill_row(&mut b, 20);
    b.set(6, 21);
    let removed = b.remove_full_rows();
    assert_eq!(removed, 1);
    // The full row disappears, the partial row above slides down one,
    // the row below stays, and the top row is empty.
    assert!(b.get(0, 20) && b.get(1, 20) && !b.get(2, 20));
    assert!(b.get(6, 21));
    assert_eq!(b.rows()[0], 0);
    assert!(!b.get(0, 19));
}

#[test]
fn clear_two_stacked_full_rows() {
    let mut b = Blocks::new();
    fill_row(&mut b, 20);
    fill_row(&mut b, 21);
    let removed = b.remove_full_rows();
    assert_eq!(removed, 2);
    for y in 0..32i16 {
        for x in 0..8i16 {
            assert!(!b.get(x, y));
        }
    }
}

#[test]
fn clear_all_rows() {
    let mut b = Blocks::new();
    for y in 0..32i16 {
        fill_row(&mut b, y);
    }
    let removed = b.remove_full_rows();
    assert_eq!(removed, 32);
    assert!(b.rows().iter().all(|r| *r == 0));
}

#[test]
fn clear_keeps_row_order() {
    let mut b = Blocks::new();
    b.set(0, 18);
    fill_row(&mut b, 19);
    b.set(1, 20);
    fill_row(&mut b, 21);
    b.set(2, 22);
    let removed = b.remove_full_rows();
    assert_eq!(removed, 2);
    // Surviving rows keep their order, shifted to the bottom.
    assert!(b.get(0, 20));
    assert!(b.get(1, 21));
    assert!(b.get(2, 22));
}
