//! The tick-driven game state machine: menu, play and game-over states,
//! per-event piece movement with collision handling, row clearing with
//! scoring, and the next-piece preview.

use vstd::prelude::*;

use crate::blocks::{cleared_rows, piece_row_mask, surviving_rows, wrap_x, Blocks};
use crate::piece::{
    is_spawn_piece, lemma_cell_offset_bounds, spec_cell, spec_rotated, Piece, Rotation,
};

verus! {

/// A piece-level event of one tick: a hard drop, a translation, or a
/// rotation step.
#[derive(Clone, Copy, PartialEq, Eq, Structural, Debug)]
pub enum PieceEvent {
    Drop,
    MoveBy(i16, i16),
    Rotate(Rotation),
}

/// A debounced button press, as handed over by the input pipeline.
#[derive(Clone, Copy, PartialEq, Eq, Structural, Debug)]
pub enum ButtonAction {
    MoveLeft,
    MoveRight,
    MoveDown,
    Rotate,
}

/// The piece events the game processes: unit translations and quarter
/// turns; anything else never reaches the tick.
pub open spec fn event_ok(e: PieceEvent) -> bool {
    match e {
        PieceEvent::MoveBy(dx, dy) => -1 <= dx <= 1 && 0 <= dy <= 1,
        _ => true,
    }
}

/// The fixed mapping from a button press to its piece event.
pub open spec fn btn_event(a: ButtonAction) -> PieceEvent {
    match a {
        ButtonAction::MoveLeft => PieceEvent::MoveBy(-1i16, 0i16),
        ButtonAction::MoveRight => PieceEvent::MoveBy(1i16, 0i16),
        ButtonAction::MoveDown => PieceEvent::Drop,
        ButtonAction::Rotate => PieceEvent::Rotate(Rotation::Deg90),
    }
}

/// Bounds kept by every piece the game holds: the column is stored
/// wrapped, and the row stays inside a fixed band around the grid.
pub open spec fn piece_in_range(p: Piece) -> bool {
    0 <= p.x < 8 && -8 <= p.y <= 34
}

/// The piece translated by (dx, dy), with the column wrapped back onto
/// the grid (the board wraps horizontally, so only the wrapped column is
/// ever observable).
pub open spec fn spec_moved(p: Piece, dx: int, dy: int) -> Piece {
    Piece { x: ((p.x + dx) % 8) as i16, y: (p.y + dy) as i16, ..p }
}

/// The same piece at another row.
pub open spec fn with_y(p: Piece, y: int) -> Piece {
    Piece { y: y as i16, ..p }
}

/// What a hard drop returns: the same shape and column, moved down to the
/// last row (at or one above the start) whose positions are all free,
/// with the row below it blocked.
pub open spec fn drop_candidate_rel(b: Blocks, p: Piece, c: Piece) -> bool {
    &&& c.x == p.x
    &&& c.kind == p.kind
    &&& c.rotation == p.rotation
    &&& p.y - 1 <= c.y
    &&& b.spec_intersects(with_y(p, c.y + 1))
    &&& forall|yy: int| p.y <= yy <= c.y ==> !b.spec_intersects(#[trigger] with_y(p, yy))
}

/// The candidate piece an event proposes, before collision is judged.
pub open spec fn candidate_rel(b: Blocks, p: Piece, e: PieceEvent, c: Piece) -> bool {
    match e {
        PieceEvent::MoveBy(dx, dy) => c == spec_moved(p, dx as int, dy as int),
        PieceEvent::Rotate(r) => c == spec_rotated(p, r),
        PieceEvent::Drop => drop_candidate_rel(b, p, c),
    }
}

/// A piece that deep in the floor always intersects: every cell lies on
/// or below the bottom boundary.
pub proof fn lemma_low_piece_intersects(b: Blocks, p: Piece)
    requires
        p.y >= 34,
    ensures
        b.spec_intersects(p),
{
    lemma_cell_offset_bounds(p.kind, p.rotation, 0);
    assert(spec_cell(p, 0).1 >= 32);
    assert(b.occ(spec_cell(p, 0).0 % 8, spec_cell(p, 0).1));
}

/// A piece that high above the grid never intersects: every cell lies
/// above the top boundary, and that space is free.
pub proof fn lemma_high_piece_free(b: Blocks, p: Piece)
    requires
        p.y <= -7,
    ensures
        !b.spec_intersects(p),
{
    assert forall|i: int| 0 <= i < 4 implies !b.occ(
        #[trigger] spec_cell(p, i).0 % 8,
        spec_cell(p, i).1,
    ) by {
        lemma_cell_offset_bounds(p.kind, p.rotation, i);
        assert(spec_cell(p, i).1 < 0);
    }
}

/// Compute the piece an event proposes: a unit move (column wrapped), a
/// rotation step, or a hard drop down to the lowest free row.
fn compute_candidate(blocks: &Blocks, piece: &Piece, event: PieceEvent) -> (c: Piece)
    requires
        blocks.wf(),
        piece_in_range(*piece),
        event_ok(event),
    ensures
        candidate_rel(*blocks, *piece, event, c),
        0 <= c.x < 8,
        -8 <= c.y <= 35,
{
    match event {
        PieceEvent::MoveBy(dx, dy) => {
            let nx = wrap_x(piece.x + dx) as i16;
            let ny = piece.y + dy;
            Piece { x: nx, y: ny, kind: piece.kind, rotation: piece.rotation }
        },
        PieceEvent::Rotate(r) => {
            let mut c = *piece;
            c.rotate(r);
            c
        },
        PieceEvent::Drop => {
            let mut c = *piece;
            while !blocks.intersects(&c)
                invariant
                    blocks.wf(),
                    c.x == piece.x,
                    c.kind == piece.kind,
                    c.rotation == piece.rotation,
                    piece_in_range(*piece),
                    piece.y <= c.y <= 34,
                    c == with_y(*piece, c.y as int),
                    forall|yy: int| piece.y <= yy < c.y ==> !blocks.spec_intersects(
                        #[trigger] with_y(*piece, yy),
                    ),
                ensures
                    blocks.spec_intersects(c),
                    piece.y <= c.y <= 34,
                    c == with_y(*piece, c.y as int),
                    forall|yy: int| piece.y <= yy < c.y ==> !blocks.spec_intersects(
                        #[trigger] with_y(*piece, yy),
                    ),
                decreases 34 - c.y,
            {
                proof {
                    if c.y >= 34 {
                        lemma_low_piece_intersects(*blocks, c);
                    }
                }
                c.move_by(0, 1);
            }
            c.move_by(0, -1);
            proof {
                if c.y + 1 <= -7 {
                    lemma_high_piece_free(*blocks, with_y(*piece, c.y + 1));
                }
                assert(c == with_y(*piece, c.y as int));
            }
            c
        },
    }
}

/// The in-play state: playfield, score, falling piece, optional preview
/// piece, and the time of the last auto-drop.
pub struct InGameState {
    pub blocks: Blocks,
    pub score: u32,
    pub current_piece: Piece,
    pub next_piece: Option<Piece>,
    pub time_last_move_ms: u64,
}

/// The smaller of two integers.
pub open spec fn imin(a: int, b: int) -> int {
    if a <= b {
        a
    } else {
        b
    }
}

/// The topmost row any occupied cell of the piece reaches.
pub open spec fn spec_min_cell_y(p: Piece) -> int {
    imin(
        imin(spec_cell(p, 0).1, spec_cell(p, 1).1),
        imin(spec_cell(p, 2).1, spec_cell(p, 3).1),
    )
}

/// Every spawn variant lies in the band the game keeps its pieces in.
pub proof fn lemma_spawn_in_range(p: Piece)
    requires
        is_spawn_piece(p),
    ensures
        piece_in_range(p),
{
    let i = choose|i: int| 0 <= i < 7 && p == crate::piece::spec_spawn(i);
}

/// The topmost row the piece's cells reach, read off its bounding box.
fn min_cell_y(p: &Piece) -> (r: i16)
    requires
        piece_in_range(*p),
    ensures
        r == spec_min_cell_y(*p),
{
    let bb = p.aabb();
    let min_y = bb.0.1;
    proof {
        let c0x = spec_cell(*p, 0).0;
        let c1x = spec_cell(*p, 1).0;
        let c2x = spec_cell(*p, 2).0;
        let c3x = spec_cell(*p, 3).0;
        let i = choose|i: int| 0 <= i < 4 && min_y == #[trigger] spec_cell(*p, i).1;
        assert(min_y <= spec_cell(*p, 0).1);
        assert(min_y <= spec_cell(*p, 1).1);
        assert(min_y <= spec_cell(*p, 2).1);
        assert(min_y <= spec_cell(*p, 3).1);
    }
    min_y
}

/// The playfield rows after a piece's cells are set into them.
pub open spec fn place_rows(data: Seq<u8>, p: Piece) -> Seq<u8> {
    Seq::new(data.len(), |y: int| data[y] | piece_row_mask(p, y))
}

/// The score after clearing: a fixed award of ten points per removed row,
/// saturating at the top of the counter.
pub open spec fn spec_score_after(score: u32, removed: int) -> u32 {
    if score + removed * 10 > u32::MAX {
        u32::MAX
    } else {
        (score + removed * 10) as u32
    }
}

/// How the preview piece changes after an event: once no preview is held
/// and the falling piece has descended past the preview area, a fresh
/// spawn piece is drawn and held; otherwise the preview is untouched.
pub open spec fn reveal_rel(cur: Piece, next_before: Option<Piece>, next_after: Option<
    Piece,
>) -> bool {
    if next_before is None && spec_min_cell_y(cur) > 8 {
        next_after is Some && is_spawn_piece(next_after->0)
    } else {
        next_after == next_before
    }
}

/// What locking the falling piece does: its cells are set into the grid,
/// full rows are removed, ten points per removed row are awarded, and the
/// game ends if the watched top row is still occupied; otherwise the held
/// preview piece (or a fresh draw) becomes current.
pub open spec fn lock_rel(pre: InGameState, post: InGameState, over: bool) -> bool {
    let placed = place_rows(pre.blocks.data@, pre.current_piece);
    let removed = placed.len() - surviving_rows(placed).len();
    &&& post.blocks.data@ == cleared_rows(placed)
    &&& post.score == spec_score_after(pre.score, removed)
    &&& over == (cleared_rows(placed)[7] != 0u8)
    &&& if over {
        post.current_piece == pre.current_piece && post.next_piece == pre.next_piece
    } else {
        &&& (match pre.next_piece {
            Some(np) => post.current_piece == np,
            None => is_spawn_piece(post.current_piece),
        })
        &&& reveal_rel(post.current_piece, None, post.next_piece)
    }
}

/// One event step, given the candidate piece the event proposed: a free
/// candidate becomes the falling piece; a blocked one locks the current
/// piece instead.
pub open spec fn step_rel_with(pre: InGameState, cand: Piece, post: InGameState, over: bool) -> bool {
    &&& post.time_last_move_ms == pre.time_last_move_ms
    &&& if pre.blocks.spec_intersects(cand) {
        lock_rel(pre, post, over)
    } else {
        &&& post.blocks.data@ == pre.blocks.data@
        &&& post.score == pre.score
        &&& !over
        &&& post.current_piece == cand
        &&& reveal_rel(cand, pre.next_piece, post.next_piece)
    }
}

/// One event step of the tick: what the state becomes and whether the
/// game ended.
pub open spec fn step_rel(pre: InGameState, event: PieceEvent, post: InGameState, over: bool) -> bool {
    exists|cand: Piece| #[trigger] candidate_rel(pre.blocks, pre.current_piece, event, cand)
        && step_rel_with(pre, cand, post, over)
}

impl InGameState {
    pub open spec fn wf(self) -> bool {
        &&& self.blocks.wf()
        &&& piece_in_range(self.current_piece)
        &&& (self.next_piece matches Some(np) ==> piece_in_range(np))
    }

    /// A fresh game: empty playfield, zero score, one drawn piece, no
    /// preview yet.
    pub fn new(now_ms: u64) -> (r: InGameState)
        ensures
            r.wf(),
            r.blocks.wf(),
            forall|y: int| 0 <= y < 32 ==> r.blocks.data@[y] == 0u8,
            r.score == 0,
            is_spawn_piece(r.current_piece),
            r.next_piece is None,
            r.time_last_move_ms == now_ms,
    {
        let current_piece = Piece::random();
        proof {
            lemma_spawn_in_range(current_piece);
        }
        InGameState {
            blocks: Blocks::new(),
            score: 0,
            current_piece,
            next_piece: None,
            time_last_move_ms: now_ms,
        }
    }

    /// Apply one piece event: move or rotate the falling piece if the
    /// proposed position is free; otherwise lock it, clear full rows,
    /// award the score and advance to the next piece. Returns whether the
    /// game is over.
    #[verifier::rlimit(60)]
    pub fn update_piece_and_blocks(&mut self, event: PieceEvent) -> (over: bool)
        requires
            old(self).wf(),
            event_ok(event),
        ensures
            final(self).wf(),
            step_rel(*old(self), event, *final(self), over),
    {
        let ghost pre: InGameState = *old(self);
        let cand = compute_candidate(&self.blocks, &self.current_piece, event);
        let will_intersect = self.blocks.intersects(&cand);
        if will_intersect {
            // Lock the current (non-candidate) piece into the playfield.
            self.blocks.place_piece(&self.current_piece);
            proof {
                assert(self.blocks.data@ =~= place_rows(pre.blocks.data@, pre.current_piece));
            }
            let ghost placed: Seq<u8> = self.blocks.data@;
            let removed = self.blocks.remove_full_rows();
            self.score = self.score.saturating_add(removed * 10);
            let game_over = self.blocks.data[7] != 0x00;
            if game_over {
                proof {
                    assert(lock_rel(pre, *self, true));
                    assert(step_rel_with(pre, cand, *self, true));
                    assert(candidate_rel(pre.blocks, pre.current_piece, event, cand));
                }
                return true;
            }
            if self.next_piece.is_some() {
                self.current_piece = self.next_piece.unwrap();
                self.next_piece = None;
            } else {
                self.current_piece = Piece::random();
                proof {
                    lemma_spawn_in_range(self.current_piece);
                }
            }
        } else {
            self.current_piece = cand;
            proof {
                if cand.y > 33 {
                    lemma_low_piece_intersects(pre.blocks, cand);
                }
            }
        }
        let ghost mid: InGameState = *self;
        let min_y = min_cell_y(&self.current_piece);
        if self.next_piece.is_none() && min_y > 8 {
            let drawn = Piece::random();
            proof {
                lemma_spawn_in_range(drawn);
            }
            self.next_piece = Some(drawn);
        }
        proof {
            assert(reveal_rel(mid.current_piece, mid.next_piece, self.next_piece));
            assert(step_rel_with(pre, cand, *self, false));
            assert(candidate_rel(pre.blocks, pre.current_piece, event, cand));
        }
        false
    }
}

/// The ordered piece events of one tick: one event per drained button
/// press, then one synthetic downward move if the auto-drop cadence has
/// elapsed.
pub open spec fn spec_events(actions: Seq<ButtonAction>, auto_drop: bool) -> Seq<PieceEvent> {
    actions.map_values(|a: ButtonAction| btn_event(a)) + if auto_drop {
        seq![PieceEvent::MoveBy(0i16, 1i16)]
    } else {
        Seq::<PieceEvent>::empty()
    }
}

/// The in-play state a tick starts from: the auto-drop clock is reset at
/// the start of the tick whose cadence has elapsed, and by nothing else.
pub open spec fn tick_start(pre: InGameState, now_ms: u64) -> InGameState {
    if now_ms - pre.time_last_move_ms >= 500 {
        InGameState { time_last_move_ms: now_ms, ..pre }
    } else {
        pre
    }
}

/// The events of one tick applied in order, stopping at the first event
/// that ends the game; `over` says whether some event did.
#[verifier::opaque]
pub open spec fn steps_rel(
    pre: InGameState,
    events: Seq<PieceEvent>,
    post: InGameState,
    over: bool,
) -> bool
    decreases events.len(),
{
    if events.len() == 0 {
        post == pre && !over
    } else {
        exists|mid: InGameState, mid_over: bool|
            #[trigger] step_rel(pre, events[0], mid, mid_over) && if mid_over {
                over == true && post == mid
            } else {
                steps_rel(mid, events.skip(1), post, over)
            }
    }
}

/// Event traces compose: a trace that has not ended the game, followed by
/// a trace from its final state, is a trace of the concatenation.
pub proof fn lemma_steps_through(
    pre: InGameState,
    evs: Seq<PieceEvent>,
    mid: InGameState,
    tail: Seq<PieceEvent>,
    post: InGameState,
    over: bool,
)
    requires
        steps_rel(pre, evs, mid, false),
        steps_rel(mid, tail, post, over),
    ensures
        steps_rel(pre, evs + tail, post, over),
    decreases evs.len(),
{
    reveal(steps_rel);
    if evs.len() == 0 {
        assert(evs + tail =~= tail);
    } else {
        let (m1, m1_over): (InGameState, bool) = choose|m1: InGameState, m1_over: bool|
            #[trigger] step_rel(pre, evs[0], m1, m1_over) && if m1_over {
                false == true && mid == m1
            } else {
                steps_rel(m1, evs.skip(1), mid, false)
            };
        assert(!m1_over);
        lemma_steps_through(m1, evs.skip(1), mid, tail, post, over);
        assert((evs + tail).skip(1) =~= evs.skip(1) + tail);
        assert((evs + tail)[0] == evs[0]);
        assert(step_rel(pre, (evs + tail)[0], m1, false));
    }
}

/// What one in-play tick guarantees: the drained presses followed by the
/// due auto-drop were applied in order; play continues with the resulting
/// state, or the game ended at some event and the final score is handed
/// over exactly once.
pub open spec fn in_game_tick_post(
    pre: InGameState,
    actions: Seq<ButtonAction>,
    now_ms: u64,
    g: GameState,
    handed: Option<u32>,
) -> bool {
    let pre1 = tick_start(pre, now_ms);
    let events = spec_events(actions, now_ms - pre.time_last_move_ms >= 500);
    match g {
        GameState::InGame(st2) => st2.wf() && steps_rel(pre1, events, st2, false) && handed
            is None,
        GameState::GameOver(sc) => handed == Some(sc) && exists|stf: InGameState|
            #[trigger] steps_rel(pre1, events, stf, true) && stf.score == sc,
        _ => false,
    }
}

impl InGameState {
    /// One tick while in play: drain the pending button presses into
    /// piece events, add the auto-drop move once its cadence has elapsed,
    /// and apply the events in order until one ends the game. On game
    /// over the final score is returned beside the new state, to be
    /// handed to the persistence collaborator exactly once.
    #[verifier::loop_isolation(false)]
    pub fn update(self, actions: &Vec<ButtonAction>, now_ms: u64) -> (r: (
        GameState,
        Option<u32>,
    ))
        requires
            self.wf(),
            self.time_last_move_ms <= now_ms,
        ensures
            in_game_tick_post(self, actions@, now_ms, r.0, r.1),
    {
        // Snapshot the entry state: the contract speaks of `self`, which
        // moves into the working state right below.
        let ghost entry: InGameState = self;
        let mut cur = self;
        let auto_drop = now_ms - cur.time_last_move_ms >= 500;
        if auto_drop {
            cur.time_last_move_ms = now_ms;
        }
        let ghost pre1: InGameState = cur;
        let mut events: Vec<PieceEvent> = Vec::new();
        let mut i: usize = 0;
        while i < actions.len()
            invariant
                i <= actions@.len(),
                events@.len() == i,
                forall|j: int| 0 <= j < i ==> events@[j] == btn_event(actions@[j]),
            decreases actions@.len() - i,
        {
            let e = match actions[i] {
                ButtonAction::MoveLeft => PieceEvent::MoveBy(-1, 0),
                ButtonAction::MoveRight => PieceEvent::MoveBy(1, 0),
                ButtonAction::MoveDown => PieceEvent::Drop,
                ButtonAction::Rotate => PieceEvent::Rotate(Rotation::Deg90),
            };
            events.push(e);
            i = i + 1;
        }
        if auto_drop {
            events.push(PieceEvent::MoveBy(0, 1));
        }
        proof {
            assert(events@ =~= spec_events(actions@, auto_drop));
            assert(steps_rel(pre1, events@.take(0), cur, false)) by {
                reveal(steps_rel);
                assert(events@.take(0) =~= Seq::<PieceEvent>::empty());
            }
        }
        let n = events.len();
        let mut k: usize = 0;
        while k < n
            invariant
                k <= n,
                n == events@.len(),
                events@ == spec_events(actions@, auto_drop),
                forall|j: int| 0 <= j < n ==> event_ok(#[trigger] events@[j]),
                cur.wf(),
                steps_rel(pre1, events@.take(k as int), cur, false),
            decreases n - k,
        {
            let e = events[k];
            let ghost before: InGameState = cur;
            let over = cur.update_piece_and_blocks(e);
            if over {
                proof {
                    assert(steps_rel(before, events@.skip(k as int), cur, true)) by {
                        reveal(steps_rel);
                        assert(events@.skip(k as int)[0] == e);
                        assert(step_rel(before, e, cur, true));
                    }
                    lemma_steps_through(
                        pre1,
                        events@.take(k as int),
                        before,
                        events@.skip(k as int),
                        cur,
                        true,
                    );
                    assert(events@.take(k as int) + events@.skip(k as int) =~= events@);
                    assert(pre1 == tick_start(self, now_ms));
                    assert(events@ == spec_events(actions@, now_ms - self.time_last_move_ms >= 500));
                    assert(steps_rel(
                        tick_start(self, now_ms),
                        spec_events(actions@, now_ms - self.time_last_move_ms >= 500),
                        cur,
                        true,
                    ));
                    assert(in_game_tick_post(
                        self,
                        actions@,
                        now_ms,
                        GameState::GameOver(cur.score),
                        Some(cur.score),
                    ));
                }
                let score = cur.score;
                return (GameState::GameOver(score), Some(score));
            }
            proof {
                assert(steps_rel(before, seq![events@[k as int]], cur, false)) by {
                    reveal(steps_rel);
                    assert(seq![events@[k as int]].skip(1) =~= Seq::<PieceEvent>::empty());
                    assert(seq![events@[k as int]][0] == e);
                    assert(step_rel(before, e, cur, false));
                    assert(steps_rel(cur, seq![events@[k as int]].skip(1), cur, false));
                }
                lemma_steps_through(
                    pre1,
                    events@.take(k as int),
                    before,
                    seq![events@[k as int]],
                    cur,
                    false,
                );
                assert(events@.take(k as int) + seq![events@[k as int]] =~= events@.take(
                    k as int + 1,
                ));
            }
            k = k + 1;
        }
        proof {
            assert(events@.take(n as int) =~= events@);
            assert(in_game_tick_post(self, actions@, now_ms, GameState::InGame(cur), None));
        }
        (GameState::InGame(cur), None)
    }
}

/// The phases of the start-menu animation.
#[derive(Clone, Copy, PartialEq, Eq, Structural, Debug)]
pub enum StartMenuPhase {
    Text,
    ButtonStart,
    ButtonPressed,
    ButtonReleased,
}

/// The start-menu state: the animation phase and when it last advanced.
pub struct InStartState {
    pub phase: StartMenuPhase,
    pub last_update_ms: u64,
}

/// The top-level state: exactly one of the menu, a running game, or the
/// terminal score screen is live.
pub enum GameState {
    StartMenu(InStartState),
    InGame(InGameState),
    GameOver(u32),
}

impl GameState {
    pub open spec fn wf(self) -> bool {
        match self {
            GameState::InGame(st) => st.wf(),
            _ => true,
        }
    }

    /// One tick of the state machine. Any button press starts a game from
    /// the menu or returns to the menu from the score screen; in play the
    /// tick applies the drained presses and the auto-drop. The second
    /// component is the score to hand to the persistence collaborator,
    /// returned exactly once per finished game.
    #[verifier::rlimit(100)]
    #[verifier::spinoff_prover]
    pub fn update(self, actions: &Vec<ButtonAction>, now_ms: u64) -> (r: (
        GameState,
        Option<u32>,
    ))
        requires
            self.wf(),
            self matches GameState::InGame(st) ==> st.time_last_move_ms <= now_ms,
        ensures
            r.0.wf(),
            self matches GameState::StartMenu(menu) ==> r.1 is None,
            (self matches GameState::StartMenu(menu) && actions@.len() == 0) ==> r.0 == self,
            (self matches GameState::StartMenu(menu) && actions@.len() > 0) ==> (
            r.0 matches GameState::InGame(st) && st.score == 0 && is_spawn_piece(st.current_piece)
                && st.next_piece is None && st.time_last_move_ms == now_ms && (forall|y: int|
                0 <= y < 32 ==> st.blocks.data@[y] == 0u8)),
            self matches GameState::InGame(st) ==> in_game_tick_post(
                st,
                actions@,
                now_ms,
                r.0,
                r.1,
            ),
            self matches GameState::GameOver(score) ==> r.1 is None,
            (self matches GameState::GameOver(score) && actions@.len() == 0) ==> r.0 == self,
            (self matches GameState::GameOver(score) && actions@.len() > 0) ==> (
            r.0 matches GameState::StartMenu(m2) && m2.phase == StartMenuPhase::ButtonReleased
                && m2.last_update_ms == (if now_ms >= 1000 {
                (now_ms - 1000) as u64
            } else {
                0u64
            })),
    {
        match self {
            GameState::StartMenu(menu) => {
                if actions.len() == 0 {
                    (GameState::StartMenu(menu), None)
                } else {
                    (GameState::InGame(InGameState::new(now_ms)), None)
                }
            },
            GameState::InGame(st) => st.update(actions, now_ms),
            GameState::GameOver(score) => {
                if actions.len() == 0 {
                    (GameState::GameOver(score), None)
                } else {
                    (
                        GameState::StartMenu(
                            InStartState {
                                phase: StartMenuPhase::ButtonReleased,
                                last_update_ms: now_ms.saturating_sub(1000),
                            },
                        ),
                        None,
                    )
                }
            },
        }
    }
}

} // verus!
