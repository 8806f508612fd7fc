use tetris_core::blocks::Blocks;
use tetris_core::logic::{ButtonAction, GameState, InGameState, PieceEvent, StartMenuPhase};
use tetris_core::piece::{Piece, PieceKind};

fn fresh_state(piece: Piece) -> InGameState {
    InGameState {
        blocks: Blocks::new(),
        score: 0,
        current_piece: piece,
        next_piece: None,
        time_last_move_ms: 0,
    }
}

#[test]
fn move_left_wraps_horizontally() {
    let mut st = fresh_state(Piece::new(0, 10, PieceKind::O));
    // One left press per tick, no auto-drop (the clock stands still).
    let actions = vec![ButtonAction::MoveLeft];
    let (next, handed) = GameState::InGame(st).update(&actions, 0);
    assert!(handed.is_none());
    match next {
        GameState::InGame(s2) => {
            assert_eq!(s2.current_piece.x, 7);
            assert_eq!(s2.current_piece.y, 10);
            st = s2;
        },
        _ => panic!("game should continue"),
    }
    // Rendering places the bits in the wrapped columns 7 and 0.
    let mut display = tetris_core::display::TextDisplay::new();
    tetris_core::render::render_in_game(&st, &mut display);
    assert!(display.get_pixel(7, 10));
    assert!(display.get_pixel(0, 10));
    assert!(!display.get_pixel(1, 10));
}

#[test]
fn auto_drop_ticks_drop_and_lock() {
    // An O piece at its spawn offset falls under auto-drop alone and
    // locks on the floor; no rows complete, so the score stays zero and a
    // new piece spawns.
    let st = fresh_state(Piece::new(3, 3, PieceKind::O));
    let mut game = GameState::InGame(st);
    let mut now: u64 = 0;
    let empty: Vec<ButtonAction> = Vec::new();
    for _ in 0..28 {
        now += 500;
        let (next, handed) = game.update(&empty, now);
        assert!(handed.is_none());
        game = next;
    }
    match game {
        GameState::InGame(s2) => {
            assert_eq!(s2.score, 0);
            // The O piece locked on the floor: columns 3 and 4 of the two
            // bottom rows are set.
            assert!(s2.blocks.get(3, 30) && s2.blocks.get(4, 30));
            assert!(s2.blocks.get(3, 31) && s2.blocks.get(4, 31));
            // A fresh piece replaced the locked one near the spawn rows.
            assert!(s2.current_piece.y <= 3);
        },
        _ => panic!("game should continue"),
    }
}

#[test]
fn completed_row_scores_ten_points() {
    // Fill the bottom row except columns 3 and 4, then drop an O piece
    // there: the bottom row completes once, the row above it survives.
    let mut st = fresh_state(Piece::new(3, 3, PieceKind::O));
    for x in 0..8i16 {
        if x != 3 && x != 4 {
            st.blocks.set(x, 31);
        }
    }
    let mut game = GameState::InGame(st);
    // A hard drop moves the piece to its lowest free position; the next
    // blocked auto-drop locks it there.
    let actions = vec![ButtonAction::MoveDown];
    let (next, handed) = game.update(&actions, 0);
    assert!(handed.is_none());
    game = next;
    match &game {
        GameState::InGame(s2) => assert_eq!(s2.current_piece.y, 30),
        _ => panic!("game should continue"),
    }
    let empty: Vec<ButtonAction> = Vec::new();
    let (next, handed) = game.update(&empty, 500);
    assert!(handed.is_none());
    game = next;
    match game {
        GameState::InGame(s2) => {
            assert_eq!(s2.score, 10);
            // Row 31 completed and was removed; what remains of the piece
            // is its upper half, shifted down onto the floor row.
            assert!(s2.blocks.get(3, 31) && s2.blocks.get(4, 31));
            assert!(!s2.blocks.get(0, 31));
        },
        _ => panic!("game should continue"),
    }
}

#[test]
fn game_over_hands_score_once() {
    // A piece resting just above the watched top row locks immediately
    // when the auto-drop is blocked, leaving row 7 occupied.
    let mut st = fresh_state(Piece::new(3, 6, PieceKind::O));
    st.blocks.set(3, 8);
    let empty: Vec<ButtonAction> = Vec::new();
    let (next, handed) = GameState::InGame(st).update(&empty, 500);
    match next {
        GameState::GameOver(score) => {
            assert_eq!(score, 0);
            assert_eq!(handed, Some(0));
        },
        _ => panic!("game should be over"),
    }
}

#[test]
fn start_menu_starts_on_any_press() {
    let menu = GameState::StartMenu(tetris_core::logic::InStartState {
        phase: StartMenuPhase::Text,
        last_update_ms: 0,
    });
    let actions = vec![ButtonAction::Rotate];
    let (next, handed) = menu.update(&actions, 1234);
    assert!(handed.is_none());
    match next {
        GameState::InGame(st) => {
            assert_eq!(st.score, 0);
            assert!(st.next_piece.is_none());
            assert_eq!(st.time_last_move_ms, 1234);
        },
        _ => panic!("a press starts the game"),
    }
}

#[test]
fn start_menu_waits_without_press() {
    let menu = GameState::StartMenu(tetris_core::logic::InStartState {
        phase: StartMenuPhase::ButtonStart,
        last_update_ms: 7,
    });
    let empty: Vec<ButtonAction> = Vec::new();
    let (next, handed) = menu.update(&empty, 1234);
    assert!(handed.is_none());
    match next {
        GameState::StartMenu(m) => {
            assert!(matches!(m.phase, StartMenuPhase::ButtonStart));
            assert_eq!(m.last_update_ms, 7);
        },
        _ => panic!("the menu stays without a press"),
    }
}

#[test]
fn game_over_returns_to_menu_on_press() {
    let over = GameState::GameOver(120);
    let empty: Vec<ButtonAction> = Vec::new();
    let (same, _) = over.update(&empty, 5000);
    assert!(matches!(same, GameState::GameOver(120)));
    let actions = vec![ButtonAction::MoveLeft];
    let (next, handed) = same.update(&actions, 5000);
    assert!(handed.is_none());
    match next {
        GameState::StartMenu(m) => {
            assert!(matches!(m.phase, StartMenuPhase::ButtonReleased));
            assert_eq!(m.last_update_ms, 4000);
        },
        _ => panic!("a press returns to the menu"),
    }
}

#[test]
fn rotate_event_turns_piece() {
    let st = fresh_state(Piece::new(3, 10, PieceKind::T));
    let actions = vec![ButtonAction::Rotate];
    let (next, _) = GameState::InGame(st).update(&actions, 0);
    match next {
        GameState::InGame(s2) => {
            assert!(matches!(
                s2.current_piece.rotation,
                tetris_core::piece::Rotation::Deg90
            ));
        },
        _ => panic!("game should continue"),
    }
}

#[test]
fn next_piece_revealed_after_descent() {
    // Once the falling piece has descended past the preview area, a
    // preview piece is drawn and held.
    let st = fresh_state(Piece::new(3, 12, PieceKind::O));
    let empty: Vec<ButtonAction> = Vec::new();
    let (next, _) = GameState::InGame(st).update(&empty, 500);
    match next {
        GameState::InGame(s2) => {
            assert!(s2.next_piece.is_some());
        },
        _ => panic!("game should continue"),
    }
}

#[test]
fn events_match_buttons() {
    // The fixed button-to-event mapping.
    assert!(matches!(PieceEvent::Drop, PieceEvent::Drop));
    let st = fresh_state(Piece::new(3, 10, PieceKind::O));
    let actions = vec![ButtonAction::MoveRight];
    let (next, _) = GameState::InGame(st).update(&actions, 0);
    match next {
        GameState::InGame(s2) => assert_eq!(s2.current_piece.x, 4),
        _ => panic!("game should continue"),
    }
}
