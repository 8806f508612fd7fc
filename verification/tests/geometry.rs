use tetris_core::piece::{Piece, PieceKind, Rotation};

fn cells(p: &Piece) -> Vec<(i16, i16)> {
    p.block_positions()
}

#[test]
fn rotate_four_times_restores_cells() {
    for i in 0..7usize {
        let mut p = Piece::spawn_variant(i);
        let before = cells(&p);
        for _ in 0..4 {
            p.rotate(Rotation::Deg90);
        }
        assert_eq!(cells(&p), before);
    }
}

#[test]
fn rotate_four_times_any_step() {
    for i in 0..7usize {
        for by in [Rotation::Deg0, Rotation::Deg90, Rotation::Deg180, Rotation::Deg270] {
            let mut p = Piece::spawn_variant(i);
            let before = cells(&p);
            for _ in 0..4 {
                p.rotate(by);
            }
            assert_eq!(cells(&p), before);
        }
    }
}

#[test]
fn t_piece_base_cells() {
    let p = Piece::new(3, 2, PieceKind::T);
    assert_eq!(cells(&p), vec![(3, 2), (3, 3), (4, 3), (3, 4)]);
}

#[test]
fn i_piece_base_cells() {
    let p = Piece::new(2, 3, PieceKind::I);
    assert_eq!(cells(&p), vec![(2, 3), (3, 3), (4, 3), (5, 3)]);
}

#[test]
fn rotation_applies_centering_correction() {
    // I piece rotated a quarter turn: cells (oy, width - ox) plus the
    // (2, -2) correction.
    let mut p = Piece::new(2, 3, PieceKind::I);
    p.rotate(Rotation::Deg90);
    assert_eq!(cells(&p), vec![(4, 5), (4, 4), (4, 3), (4, 2)]);
}

#[test]
fn move_by_translates() {
    let mut p = Piece::new(3, 2, PieceKind::O);
    p.move_by(-1, 2);
    assert_eq!((p.x, p.y), (2, 4));
    p.move_to(5, 6);
    assert_eq!((p.x, p.y), (5, 6));
}

#[test]
fn aabb_bounds_cells() {
    let p = Piece::new(3, 2, PieceKind::T);
    let ((min_x, min_y), (max_x, max_y)) = p.aabb();
    assert_eq!((min_x, min_y), (3, 2));
    assert_eq!((max_x, max_y), (4, 4));
}

#[test]
fn rotation_angle_round_trip() {
    assert_eq!(Rotation::Deg90.to_u16(), 90);
    assert!(matches!(Rotation::from_u16(270), Rotation::Deg270));
}

#[test]
fn random_piece_is_a_spawn_variant() {
    for _ in 0..50 {
        let p = Piece::random();
        let mut found = false;
        for i in 0..7usize {
            if p == Piece::spawn_variant(i) {
                found = true;
            }
        }
        assert!(found);
        assert!(matches!(p.rotation, Rotation::Deg0));
    }
}
