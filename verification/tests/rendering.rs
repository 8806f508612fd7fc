use tetris_core::display::{Display, MatrixDisplay, Point2d, TextDisplay};
use tetris_core::logic::{GameState, InStartState, StartMenuPhase};
use tetris_core::max72xx::{Max72xx, Rotation};
use tetris_core::render::{render, render_score};

#[test]
fn text_display_set_and_get() {
    let mut d = TextDisplay::new();
    assert!(!d.get_pixel(3, 5));
    d.set_pixel(3, 5, true);
    assert!(d.get_pixel(3, 5));
    assert!(!d.get_pixel(4, 5));
    d.set_pixel(3, 5, false);
    assert!(!d.get_pixel(3, 5));
}

#[test]
fn text_display_ignores_out_of_range() {
    let mut d = TextDisplay::new();
    d.set_pixel(9, 5, true);
    d.set_pixel(0, 40, true);
    for y in 0..32 {
        for x in 0..8 {
            assert!(!d.get_pixel(x, y));
        }
    }
}

#[test]
fn matrix_display_points() {
    let mut d = MatrixDisplay::new();
    let p = Point2d::new(2, 9);
    assert!(!d.get_pixel(p));
    d.set_pixel(p, true);
    assert!(d.get_pixel(p));
    d.reset();
    assert!(!d.get_pixel(p));
}

#[test]
fn score_glyphs_render() {
    let mut d = TextDisplay::new();
    render_score(40, &mut d);
    // Blocks show 0, 0, 4, 0. The top row of the digit four glyph is
    // 0b00001100: columns 4 and 5.
    assert!(d.get_pixel(4, 16));
    assert!(d.get_pixel(5, 16));
    assert!(!d.get_pixel(0, 16));
    // The zero glyph's top row is 0b00111100: columns 2 through 5.
    assert!(d.get_pixel(2, 0));
    assert!(!d.get_pixel(1, 0));
}

#[test]
fn render_dispatches_game_over() {
    let mut d = TextDisplay::new();
    let mut g = GameState::GameOver(40);
    render(&mut g, &mut d, 0);
    assert!(d.get_pixel(4, 16));
    assert!(matches!(g, GameState::GameOver(40)));
}

#[test]
fn menu_animation_advances_after_delay() {
    let mut d = TextDisplay::new();
    let mut g = GameState::StartMenu(InStartState { phase: StartMenuPhase::Text, last_update_ms: 0 });
    // Before the phase delay nothing changes.
    render(&mut g, &mut d, 2999);
    match &g {
        GameState::StartMenu(m) => assert!(matches!(m.phase, StartMenuPhase::Text)),
        _ => panic!("still in the menu"),
    }
    assert!(!d.get_pixel(3, 2));
    // After it the raised-button frame is drawn in every block.
    render(&mut g, &mut d, 3000);
    match &g {
        GameState::StartMenu(m) => {
            assert!(matches!(m.phase, StartMenuPhase::ButtonStart));
            assert_eq!(m.last_update_ms, 3000);
        },
        _ => panic!("still in the menu"),
    }
    // The raised button glyph has row 2 equal to 0b00011000.
    assert!(d.get_pixel(3, 2));
    assert!(d.get_pixel(4, 10));
    assert!(!d.get_pixel(0, 2));
}

#[test]
fn max72xx_reset_sequence() {
    let m = Max72xx::new(4);
    assert_eq!(
        m.reset(),
        vec![(0x0f, 0u8), (0x0b, 7), (0x09, 0), (0x0c, 1), (0x0a, 2)]
    );
    assert_eq!(m.set_shutdown(true), (0x0c, 0));
    assert_eq!(m.set_intensity(5), (0x0a, 5));
}

#[test]
fn max72xx_row_frame_reverses_cascade() {
    let mut m = Max72xx::new(4);
    // Pixel (0, 0) sits in module 0; with no rotation the byte of local
    // column 0 gets its lowest bit.
    m.set_pixel(0, 0, true);
    assert_eq!(m.bitmap[0], 1);
    let frame = m.transfer_row(0);
    // Modules are addressed in reverse order: module 0 comes last.
    assert_eq!(frame, vec![1, 0, 1, 0, 1, 0, 1, 1]);
    let all = m.transfer_bitmap();
    assert_eq!(all.len(), 8);
    assert_eq!(all[0], frame);
}

#[test]
fn max72xx_rotation_remaps_coordinates() {
    let mut m = Max72xx::new(4);
    m.rotations[0] = Rotation::Deg90;
    // A quarter turn swaps the axes and flips one: (1, 2) lands in local
    // column 2, bit 6.
    m.set_pixel(1, 2, true);
    assert_eq!(m.bitmap[2], 0x40);
    let mut m2 = Max72xx::new(1);
    m2.rotations[0] = Rotation::Deg180;
    // A half turn flips both axes: (0, 0) lands in column 7, bit 7.
    m2.set_pixel(0, 0, true);
    assert_eq!(m2.bitmap[7], 0x80);
}

#[test]
fn menu_text_frame_draws_letters() {
    let mut d = TextDisplay::new();
    // From the released-button phase the animation cycles back to the
    // text frame.
    let mut g = GameState::StartMenu(InStartState {
        phase: StartMenuPhase::ButtonReleased,
        last_update_ms: 0,
    });
    render(&mut g, &mut d, 500);
    match &g {
        GameState::StartMenu(m) => assert!(matches!(m.phase, StartMenuPhase::Text)),
        _ => panic!("still in the menu"),
    }
    // The first letter glyph's top row is 0b01111110: columns 1 through 6.
    assert!(d.get_pixel(1, 0));
    assert!(d.get_pixel(6, 0));
    assert!(!d.get_pixel(0, 0));
    assert!(!d.get_pixel(7, 0));
}
