//! Rendering: rebuild the logical framebuffer from the game state each
//! tick — the playfield with the falling and preview pieces, the score
//! glyphs, or the start-menu animation frames.

use vstd::prelude::*;

use crate::blocks::{piece_covers, row_bit, wrap_x};
use crate::display::Display;
use crate::logic::{
    piece_in_range, GameState, InGameState, InStartState, StartMenuPhase,
};
use crate::piece::{spec_cell, Piece};

verus! {

/// The leftmost pixel of a glyph row is its highest bit.
proof fn lemma_left_mask(x: u8)
    by (bit_vector)
    requires
        x < 8,
    ensures
        (1u8 << (7 - x) as u8) == (0x80u8 >> x),
{
}

/// An eight-row glyph from its row masks.
fn bitmap8(b0: u8, b1: u8, b2: u8, b3: u8, b4: u8, b5: u8, b6: u8, b7: u8) -> (r: Vec<u8>)
    ensures
        r@ == seq![b0, b1, b2, b3, b4, b5, b6, b7],
{
    let mut v: Vec<u8> = Vec::new();
    v.push(b0);
    v.push(b1);
    v.push(b2);
    v.push(b3);
    v.push(b4);
    v.push(b5);
    v.push(b6);
    v.push(b7);
    proof {
        assert(v@ =~= seq![b0, b1, b2, b3, b4, b5, b6, b7]);
    }
    v
}

/// The glyph of a decimal digit, one mask byte per row.
pub open spec fn spec_digit_rows(d: int) -> Seq<u8> {
    if d == 0 {
        seq![0x3cu8, 0x66, 0x6e, 0x76, 0x66, 0x66, 0x3c, 0x00]
    } else if d == 1 {
        seq![0x18u8, 0x38, 0x18, 0x18, 0x18, 0x18, 0x3c, 0x00]
    } else if d == 2 {
        seq![0x3cu8, 0x66, 0x06, 0x0c, 0x18, 0x60, 0x7e, 0x00]
    } else if d == 3 {
        seq![0x3cu8, 0x66, 0x06, 0x1c, 0x06, 0x66, 0x3c, 0x00]
    } else if d == 4 {
        seq![0x0cu8, 0x1c, 0x2c, 0x4c, 0x7e, 0x0c, 0x0c, 0x00]
    } else if d == 5 {
        seq![0x7eu8, 0x60, 0x7c, 0x06, 0x06, 0x66, 0x3c, 0x00]
    } else if d == 6 {
        seq![0x3cu8, 0x66, 0x60, 0x7c, 0x66, 0x66, 0x3c, 0x00]
    } else if d == 7 {
        seq![0x7eu8, 0x66, 0x06, 0x0c, 0x18, 0x18, 0x18, 0x00]
    } else if d == 8 {
        seq![0x3cu8, 0x66, 0x66, 0x3c, 0x66, 0x66, 0x3c, 0x00]
    } else {
        seq![0x3cu8, 0x66, 0x66, 0x3e, 0x06, 0x66, 0x3c, 0x00]
    }
}

/// The glyph of one menu text letter; rows without a letter are blank.
pub open spec fn spec_letter_rows(c: int) -> Seq<u8> {
    if c == 0 {
        seq![0x7eu8, 0x18, 0x18, 0x18, 0x00, 0x7e, 0x60, 0x7c]
    } else if c == 1 {
        seq![0x60u8, 0x7e, 0x00, 0x7e, 0x18, 0x18, 0x18, 0x00]
    } else if c == 2 {
        seq![0x7cu8, 0x6c, 0x7c, 0x6c, 0x66, 0x00, 0x18, 0x18]
    } else if c == 3 {
        seq![0x18u8, 0x18, 0x00, 0x7e, 0x60, 0x7e, 0x06, 0x7e]
    } else {
        seq![0u8, 0, 0, 0, 0, 0, 0, 0]
    }
}

/// The glyph of the prompt button, raised or pressed.
pub open spec fn spec_button_rows(pressed: bool) -> Seq<u8> {
    if pressed {
        seq![0x00u8, 0x00, 0x18, 0x18, 0x7e, 0x7e, 0x00, 0x00]
    } else {
        seq![0x00u8, 0x00, 0x00, 0x00, 0x7e, 0x7e, 0x00, 0x00]
    }
}

/// The glyph of a decimal digit.
pub fn digit_bitmap(digit: u32) -> (r: Vec<u8>)
    requires
        digit < 10,
    ensures
        r@ == spec_digit_rows(digit as int),
{
    if digit == 0 {
        bitmap8(0x3c, 0x66, 0x6e, 0x76, 0x66, 0x66, 0x3c, 0x00)
    } else if digit == 1 {
        bitmap8(0x18, 0x38, 0x18, 0x18, 0x18, 0x18, 0x3c, 0x00)
    } else if digit == 2 {
        bitmap8(0x3c, 0x66, 0x06, 0x0c, 0x18, 0x60, 0x7e, 0x00)
    } else if digit == 3 {
        bitmap8(0x3c, 0x66, 0x06, 0x1c, 0x06, 0x66, 0x3c, 0x00)
    } else if digit == 4 {
        bitmap8(0x0c, 0x1c, 0x2c, 0x4c, 0x7e, 0x0c, 0x0c, 0x00)
    } else if digit == 5 {
        bitmap8(0x7e, 0x60, 0x7c, 0x06, 0x06, 0x66, 0x3c, 0x00)
    } else if digit == 6 {
        bitmap8(0x3c, 0x66, 0x60, 0x7c, 0x66, 0x66, 0x3c, 0x00)
    } else if digit == 7 {
        bitmap8(0x7e, 0x66, 0x06, 0x0c, 0x18, 0x18, 0x18, 0x00)
    } else if digit == 8 {
        bitmap8(0x3c, 0x66, 0x66, 0x3c, 0x66, 0x66, 0x3c, 0x00)
    } else {
        bitmap8(0x3c, 0x66, 0x66, 0x3e, 0x06, 0x66, 0x3c, 0x00)
    }
}

/// The glyph of one menu text letter.
pub fn letter_bitmap(c: u8) -> (r: Vec<u8>)
    ensures
        r@ == spec_letter_rows(c as int),
{
    if c == 0 {
        bitmap8(0x7e, 0x18, 0x18, 0x18, 0x00, 0x7e, 0x60, 0x7c)
    } else if c == 1 {
        bitmap8(0x60, 0x7e, 0x00, 0x7e, 0x18, 0x18, 0x18, 0x00)
    } else if c == 2 {
        bitmap8(0x7c, 0x6c, 0x7c, 0x6c, 0x66, 0x00, 0x18, 0x18)
    } else if c == 3 {
        bitmap8(0x18, 0x18, 0x00, 0x7e, 0x60, 0x7e, 0x06, 0x7e)
    } else {
        bitmap8(0, 0, 0, 0, 0, 0, 0, 0)
    }
}

/// The glyph of the prompt button.
pub fn button_bitmap(b: bool) -> (r: Vec<u8>)
    ensures
        r@ == spec_button_rows(b),
{
    if b {
        bitmap8(0x00, 0x00, 0x18, 0x18, 0x7e, 0x7e, 0x00, 0x00)
    } else {
        bitmap8(0x00, 0x00, 0x00, 0x00, 0x7e, 0x7e, 0x00, 0x00)
    }
}

/// Draw the set pixels of an eight-row glyph at a vertical offset;
/// pixels the glyph leaves blank keep their value.
fn render_bitmap_rows<D: Display>(bitmap: &Vec<u8>, offset_y: u8, display: &mut D)
    requires
        old(display).wf(),
        bitmap@.len() == 8,
        offset_y + 8 <= old(display).height(),
        offset_y <= 247,
    ensures
        final(display).wf(),
        final(display).height() == old(display).height(),
        forall|x: int, y: int| final(display).pixel(x, y) == (old(display).pixel(x, y) || (0 <= x
            < 8 && offset_y <= y < offset_y + 8 && row_bit(bitmap@[y - offset_y], x as u8))),
{
    let mut y: u8 = 0;
    while y < 8
        invariant
            display.wf(),
            display.height() == old(display).height(),
            bitmap@.len() == 8,
            offset_y + 8 <= display.height(),
            offset_y <= 247,
            y <= 8,
            forall|x2: int, y2: int| display.pixel(x2, y2) == (old(display).pixel(x2, y2) || (0
                <= x2 < 8 && offset_y <= y2 < offset_y + y && row_bit(
                bitmap@[y2 - offset_y],
                x2 as u8,
            ))),
        decreases 8 - y,
    {
        let row = bitmap[y as usize];
        let mut x: u8 = 0;
        while x < 8
            invariant
                display.wf(),
                display.height() == old(display).height(),
                bitmap@.len() == 8,
                offset_y + 8 <= display.height(),
                offset_y <= 247,
                y < 8,
                x <= 8,
                row == bitmap@[y as int],
                forall|x2: int, y2: int| display.pixel(x2, y2) == (old(display).pixel(x2, y2) || (0
                    <= x2 < 8 && offset_y <= y2 < offset_y + y && row_bit(
                    bitmap@[y2 - offset_y],
                    x2 as u8,
                )) || (0 <= x2 < x && y2 == offset_y + y && row_bit(row, x2 as u8))),
            decreases 8 - x,
        {
            let mask: u8 = 1u8 << (7 - x);
            let pixel_on = (row & mask) != 0;
            proof {
                lemma_left_mask(x);
            }
            if pixel_on {
                display.set_pixel(x, offset_y + y, true);
            }
            x = x + 1;
        }
        y = y + 1;
    }
}

/// Draw the occupied cells of a piece, columns wrapped; cells above or
/// below the surface are dropped.
pub fn render_piece<D: Display>(piece: &Piece, display: &mut D)
    requires
        old(display).wf(),
        old(display).height() == 32,
        piece_in_range(*piece),
    ensures
        final(display).wf(),
        final(display).height() == 32,
        forall|x: int, y: int|
            #![trigger final(display).pixel(x, y)]
            final(display).pixel(x, y) == (old(display).pixel(x, y) || (0 <= y < 32
                && piece_covers(*piece, x, y))),
{
    let cells = piece.block_positions();
    let mut i: usize = 0;
    while i < 4
        invariant
            display.wf(),
            display.height() == 32,
            piece_in_range(*piece),
            cells@.len() == 4,
            i <= 4,
            forall|j: int| 0 <= j < 4 ==> (#[trigger] cells@[j]).0 == spec_cell(*piece, j).0
                && cells@[j].1 == spec_cell(*piece, j).1,
            forall|x2: int, y2: int| display.pixel(x2, y2) == (old(display).pixel(x2, y2) || (0
                <= y2 < 32 && exists|j: int| 0 <= j < i && #[trigger] spec_cell(*piece, j).0 % 8
                    == x2 && spec_cell(*piece, j).1 == y2)),
        decreases 4 - i,
    {
        let (cx, cy) = cells[i];
        let wx = wrap_x(cx);
        proof {
            crate::piece::lemma_cell_offset_bounds(piece.kind, piece.rotation, i as int);
        }
        if 0 <= cy && cy < 32 {
            display.set_pixel(wx, cy as u8, true);
        }
        proof {
            assert forall|x2: int, y2: int| display.pixel(x2, y2) == (old(display).pixel(x2, y2)
                || (0 <= y2 < 32 && exists|j: int| 0 <= j < i + 1 && #[trigger] spec_cell(
                *piece,
                j,
            ).0 % 8 == x2 && spec_cell(*piece, j).1 == y2)) by {
                if 0 <= cy < 32 {
                    if x2 == wx && y2 == cy {
                        assert(spec_cell(*piece, i as int).0 % 8 == x2);
                    }
                }
            }
        }
        i = i + 1;
    }
}

/// Render the running game: the playfield bits, the falling piece, the
/// divider row, and the preview piece below it.
pub open spec fn in_game_pixel(st: InGameState, x: int, y: int) -> bool {
    &&& 0 <= x < 8
    &&& 0 <= y < 32
    &&& (st.blocks.occ(x, y) || piece_covers(st.current_piece, x, y) || y == 7 || (st.next_piece
        matches Some(np) && piece_covers(np, x, y)))
}

pub fn render_in_game<D: Display>(state: &InGameState, display: &mut D)
    requires
        old(display).wf(),
        old(display).height() == 32,
        state.wf(),
    ensures
        final(display).wf(),
        final(display).height() == 32,
        forall|x: int, y: int| 0 <= x < 8 && 0 <= y < 32 ==> final(display).pixel(x, y)
            == in_game_pixel(*state, x, y),
{
    let mut x: u8 = 0;
    while x < 8
        invariant
            display.wf(),
            display.height() == 32,
            state.wf(),
            x <= 8,
            forall|x2: int, y2: int| 0 <= x2 < x && 0 <= y2 < 32 ==> display.pixel(x2, y2)
                == state.blocks.occ(x2, y2),
        decreases 8 - x,
    {
        let mut y: u8 = 0;
        while y < 32
            invariant
                display.wf(),
                display.height() == 32,
                state.wf(),
                x < 8,
                y <= 32,
                forall|x2: int, y2: int| 0 <= x2 < x && 0 <= y2 < 32 ==> display.pixel(x2, y2)
                    == state.blocks.occ(x2, y2),
                forall|y2: int| 0 <= y2 < y ==> display.pixel(x as int, y2) == state.blocks.occ(
                    x as int,
                    y2,
                ),
            decreases 32 - y,
        {
            let v = state.blocks.get(x as i16, y as i16);
            display.set_pixel(x, y, v);
            y = y + 1;
        }
        x = x + 1;
    }
    render_piece(&state.current_piece, display);
    proof {
        assert forall|x: int, y: int| 0 <= x < 8 && 0 <= y < 32 implies display.pixel(x, y) == (
        state.blocks.occ(x, y) || piece_covers(state.current_piece, x, y)) by {}
    }
    let mut i: u8 = 0;
    while i < 8
        invariant
            display.wf(),
            display.height() == 32,
            state.wf(),
            i <= 8,
            forall|x2: int, y2: int| 0 <= x2 < 8 && 0 <= y2 < 32 ==> display.pixel(x2, y2) == (
            state.blocks.occ(x2, y2) || piece_covers(state.current_piece, x2, y2) || (x2 < i && y2
                == 7)),
        decreases 8 - i,
    {
        display.set_pixel(i, 7, true);
        i = i + 1;
    }
    if let Some(next_piece) = &state.next_piece {
        render_piece(next_piece, display);
        proof {
            assert forall|x: int, y: int| 0 <= x < 8 && 0 <= y < 32 implies display.pixel(x, y)
                == in_game_pixel(*state, x, y) by {}
        }
    } else {
        proof {
            assert forall|x: int, y: int| 0 <= x < 8 && 0 <= y < 32 implies display.pixel(x, y)
                == in_game_pixel(*state, x, y) by {}
        }
    }
}

/// The digit of the four-digit decimal score shown in block i of the
/// display, most significant block first.
pub open spec fn spec_score_digit(score: u32, i: int) -> int {
    if i == 0 {
        ((score as int) / 1000) % 10
    } else if i == 1 {
        ((score as int) / 100) % 10
    } else if i == 2 {
        ((score as int) / 10) % 10
    } else {
        (score as int) % 10
    }
}

/// The terminal screen: the last four decimal digits of the score, one
/// glyph per module.
pub open spec fn score_pixel(score: u32, x: int, y: int) -> bool {
    &&& 0 <= x < 8
    &&& 0 <= y < 32
    &&& row_bit(spec_digit_rows(spec_score_digit(score, y / 8))[y % 8], x as u8)
}

/// Draw one digit glyph at a vertical offset.
pub fn render_digit<D: Display>(digit: u32, offset: u8, display: &mut D)
    requires
        old(display).wf(),
        digit < 10,
        offset + 8 <= old(display).height(),
        offset <= 247,
    ensures
        final(display).wf(),
        final(display).height() == old(display).height(),
        forall|x: int, y: int| final(display).pixel(x, y) == (old(display).pixel(x, y) || (0 <= x
            < 8 && offset <= y < offset + 8 && row_bit(
            spec_digit_rows(digit as int)[y - offset],
            x as u8,
        ))),
{
    let bitmap = digit_bitmap(digit);
    render_bitmap_rows(&bitmap, offset, display);
}

/// Render the final score as four decimal digit glyphs.
pub fn render_score<D: Display>(score: u32, display: &mut D)
    requires
        old(display).wf(),
        old(display).height() == 32,
    ensures
        final(display).wf(),
        final(display).height() == 32,
        forall|x: int, y: int| final(display).pixel(x, y) == score_pixel(score, x, y),
{
    display.fill(false);
    let d0 = (score / 1000) % 10;
    let d1 = (score / 100) % 10;
    let d2 = (score / 10) % 10;
    let d3 = score % 10;
    render_digit(d0, 0, display);
    render_digit(d1, 8, display);
    render_digit(d2, 16, display);
    render_digit(d3, 24, display);
    proof {
        assert forall|x: int, y: int| display.pixel(x, y) == score_pixel(score, x, y) by {
            if 0 <= x < 8 && 0 <= y < 32 {
                assert(y / 8 == 0 || y / 8 == 1 || y / 8 == 2 || y / 8 == 3);
                assert(y % 8 == y - (y / 8) * 8);
            }
        }
    }
}

/// The next phase of the start-menu animation cycle.
pub open spec fn next_phase(p: StartMenuPhase) -> StartMenuPhase {
    match p {
        StartMenuPhase::Text => StartMenuPhase::ButtonStart,
        StartMenuPhase::ButtonStart => StartMenuPhase::ButtonPressed,
        StartMenuPhase::ButtonPressed => StartMenuPhase::ButtonReleased,
        StartMenuPhase::ButtonReleased => StartMenuPhase::Text,
    }
}

/// How long a phase is shown before the animation advances, in
/// milliseconds.
pub open spec fn phase_delay(p: StartMenuPhase) -> int {
    match p {
        StartMenuPhase::Text => 3000,
        _ => 500,
    }
}

/// The menu frame of a phase: the four text letters, or the prompt button
/// (raised or pressed) in each block.
pub open spec fn menu_glyph_row(p: StartMenuPhase, y: int) -> u8 {
    match p {
        StartMenuPhase::Text => spec_letter_rows(y / 8)[y % 8],
        StartMenuPhase::ButtonStart => spec_button_rows(true)[y % 8],
        StartMenuPhase::ButtonPressed => spec_button_rows(false)[y % 8],
        StartMenuPhase::ButtonReleased => spec_button_rows(true)[y % 8],
    }
}

pub open spec fn menu_pixel(p: StartMenuPhase, x: int, y: int) -> bool {
    &&& 0 <= x < 8
    &&& 0 <= y < 32
    &&& row_bit(menu_glyph_row(p, y), x as u8)
}

/// Draw one menu text letter at a vertical offset.
pub fn render_letter<D: Display>(row: u8, offset: u8, display: &mut D)
    requires
        old(display).wf(),
        offset + 8 <= old(display).height(),
        offset <= 247,
    ensures
        final(display).wf(),
        final(display).height() == old(display).height(),
        forall|x: int, y: int| final(display).pixel(x, y) == (old(display).pixel(x, y) || (0 <= x
            < 8 && offset <= y < offset + 8 && row_bit(
            spec_letter_rows(row as int)[y - offset],
            x as u8,
        ))),
{
    let bitmap = letter_bitmap(row);
    render_bitmap_rows(&bitmap, offset, display);
}

/// Draw the prompt button glyph at a vertical offset.
pub fn render_button<D: Display>(pressed: bool, offset: u8, display: &mut D)
    requires
        old(display).wf(),
        offset + 8 <= old(display).height(),
        offset <= 247,
    ensures
        final(display).wf(),
        final(display).height() == old(display).height(),
        forall|x: int, y: int| final(display).pixel(x, y) == (old(display).pixel(x, y) || (0 <= x
            < 8 && offset <= y < offset + 8 && row_bit(
            spec_button_rows(pressed)[y - offset],
            x as u8,
        ))),
{
    let bitmap = button_bitmap(pressed);
    render_bitmap_rows(&bitmap, offset, display);
}

/// Advance the start-menu animation once its phase delay has elapsed and
/// draw the frame of the phase it advances to; before that, nothing
/// changes.
pub fn render_start<D: Display>(state: &mut InStartState, now_ms: u64, display: &mut D)
    requires
        old(display).wf(),
        old(display).height() == 32,
        old(state).last_update_ms <= now_ms,
    ensures
        final(display).wf(),
        final(display).height() == 32,
        now_ms - old(state).last_update_ms < phase_delay(old(state).phase) ==> *final(state)
            == *old(state) && (forall|x: int, y: int| final(display).pixel(x, y) == old(
            display,
        ).pixel(x, y)),
        now_ms - old(state).last_update_ms >= phase_delay(old(state).phase) ==> final(state).phase
            == next_phase(old(state).phase) && final(state).last_update_ms == now_ms && (forall|
            x: int,
            y: int,
        |
            final(display).pixel(x, y) == menu_pixel(next_phase(old(state).phase), x, y)),
{
    let required_delay: u64 = match state.phase {
        StartMenuPhase::Text => 3000,
        _ => 500,
    };
    if now_ms - state.last_update_ms >= required_delay {
        let next = match state.phase {
            StartMenuPhase::Text => StartMenuPhase::ButtonStart,
            StartMenuPhase::ButtonStart => StartMenuPhase::ButtonPressed,
            StartMenuPhase::ButtonPressed => StartMenuPhase::ButtonReleased,
            StartMenuPhase::ButtonReleased => StartMenuPhase::Text,
        };
        display.fill(false);
        match next {
            StartMenuPhase::Text => {
                render_letter(0, 0, display);
                render_letter(1, 8, display);
                render_letter(2, 16, display);
                render_letter(3, 24, display);
            },
            StartMenuPhase::ButtonStart => {
                render_button(true, 0, display);
                render_button(true, 8, display);
                render_button(true, 16, display);
                render_button(true, 24, display);
            },
            StartMenuPhase::ButtonPressed => {
                render_button(false, 0, display);
                render_button(false, 8, display);
                render_button(false, 16, display);
                render_button(false, 24, display);
            },
            StartMenuPhase::ButtonReleased => {
                render_button(true, 0, display);
                render_button(true, 8, display);
                render_button(true, 16, display);
                render_button(true, 24, display);
            },
        }
        state.phase = next;
        state.last_update_ms = now_ms;
        proof {
            assert forall|x: int, y: int| display.pixel(x, y) == menu_pixel(next, x, y) by {
                if 0 <= x < 8 && 0 <= y < 32 {
                    assert(y / 8 == 0 || y / 8 == 1 || y / 8 == 2 || y / 8 == 3);
                    assert(y % 8 == y - (y / 8) * 8);
                }
            }
        }
    }
}

/// Render the whole state: the menu animation, the running game, or the
/// final score.
pub fn render<D: Display>(game_state: &mut GameState, display: &mut D, now_ms: u64)
    requires
        old(display).wf(),
        old(display).height() == 32,
        old(game_state).wf(),
        *old(game_state) matches GameState::StartMenu(m) ==> m.last_update_ms <= now_ms,
    ensures
        final(display).wf(),
        final(display).height() == 32,
        *old(game_state) matches GameState::InGame(st) ==> *final(game_state) == *old(game_state)
            && (forall|x: int, y: int| 0 <= x < 8 && 0 <= y < 32 ==> final(display).pixel(x, y)
            == in_game_pixel(st, x, y)),
        *old(game_state) matches GameState::GameOver(sc) ==> *final(game_state) == *old(game_state)
            && (forall|x: int, y: int| final(display).pixel(x, y) == score_pixel(sc, x, y)),
        *old(game_state) matches GameState::StartMenu(m) ==> (*final(game_state) matches
            GameState::StartMenu(m2) && (now_ms - m.last_update_ms < phase_delay(m.phase) ==> m2
            == m && (forall|x: int, y: int| final(display).pixel(x, y) == old(display).pixel(x, y)))
            && (now_ms - m.last_update_ms >= phase_delay(m.phase) ==> m2.phase == next_phase(
            m.phase,
        ) && m2.last_update_ms == now_ms && (forall|x: int, y: int| final(display).pixel(x, y)
            == menu_pixel(next_phase(m.phase), x, y)))),
{
    match game_state {
        GameState::StartMenu(state) => render_start(state, now_ms, display),
        GameState::InGame(state) => render_in_game(state, display),
        GameState::GameOver(score) => render_score(*score, display),
    }
}

} // verus!
