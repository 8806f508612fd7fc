//! The input pipeline: per-button debounce records and the lock-free
//! hand-off queue from interrupt context to the tick loop. The hardware
//! side (GPIO configuration, interrupt subscription) lives outside; the
//! handlers here take the shared state as explicit handles.

use vstd::prelude::*;

use crate::logic::ButtonAction;

verus! {

/// The hand-off queue from interrupt context to the tick loop, backed by
/// the outside crate's lock-free single-producer single-consumer queue
/// (its sealed storage parameter keeps the container type itself from
/// being declared here, so it lives behind this opaque holder).
#[verifier::external_body]
pub struct ActionQueue {
    inner: heapless::spsc::Queue<ButtonAction, 32>,
}

/// The actions held by the hand-off queue, oldest first.
pub uninterp spec fn queue_contents(q: ActionQueue) -> Seq<ButtonAction>;

/// Relies on heapless::spsc::Queue::new: a fresh queue holds nothing.
#[verifier::external_body]
pub fn action_queue_new() -> (q: ActionQueue)
    ensures
        queue_contents(q) == Seq::<ButtonAction>::empty(),
{
    ActionQueue { inner: heapless::spsc::Queue::new() }
}

/// Relies on heapless::spsc::Queue::enqueue: the item is appended at the
/// tail and the call succeeds, unless the queue already holds its
/// capacity of 31 items, in which case it is left unchanged and the item
/// comes back as the error.
#[verifier::external_body]
pub(crate) fn action_queue_enqueue(q: &mut ActionQueue, a: ButtonAction) -> (r: bool)
    ensures
        queue_contents(*old(q)).len() < 31 ==> r && queue_contents(*final(q)) == queue_contents(
            *old(q),
        ).push(a),
        queue_contents(*old(q)).len() >= 31 ==> !r && queue_contents(*final(q)) == queue_contents(
            *old(q),
        ),
{
    match q.inner.enqueue(a) {
        Ok(()) => true,
        Err(_) => false,
    }
}

/// Relies on heapless::spsc::Queue::dequeue: the item at the head is
/// removed and returned; an empty queue stays empty and yields nothing.
#[verifier::external_body]
pub(crate) fn action_queue_dequeue(q: &mut ActionQueue) -> (r: Option<ButtonAction>)
    ensures
        queue_contents(*old(q)).len() == 0 ==> r is None && queue_contents(*final(q))
            == queue_contents(*old(q)),
        queue_contents(*old(q)).len() > 0 ==> r == Some(queue_contents(*old(q))[0])
            && queue_contents(*final(q)) == queue_contents(*old(q)).skip(1),
{
    q.inner.dequeue()
}

/// Relies on heapless::spsc::Queue::len: how many items are held.
#[verifier::external_body]
pub(crate) fn action_queue_len(q: &ActionQueue) -> (r: usize)
    ensures
        r == queue_contents(*q).len(),
{
    q.inner.len()
}

/// One button's debounce record: when its last accepted trigger happened,
/// if it has ever fired.
#[derive(Clone, Copy, PartialEq, Eq, Structural, Debug)]
pub struct DebounceState {
    pub last_press_ms: Option<u64>,
}

impl DebounceState {
    pub fn new() -> (r: DebounceState)
        ensures
            r.last_press_ms is None,
    {
        DebounceState { last_press_ms: None }
    }
}

/// Whether a trigger at `now_ms` is accepted: always on the first trigger,
/// afterwards only once the debounce window has elapsed since the last
/// accepted one (a clock that stepped backwards counts as no elapsed
/// time).
pub open spec fn debounce_accepts(last: Option<u64>, now_ms: u64, window_ms: u64) -> bool {
    match last {
        None => true,
        Some(t) => (if now_ms >= t {
            now_ms - t
        } else {
            0
        }) >= window_ms,
    }
}

/// What one handled trigger guarantees: at most one enqueued action per
/// debounce window — a trigger inside the window changes nothing, an
/// accepted one records its time and appends its action (unless the queue
/// is full, in which case only the time is recorded).
pub open spec fn trigger_post(
    pre_last: DebounceState,
    pre_q: Seq<ButtonAction>,
    post_last: DebounceState,
    post_q: Seq<ButtonAction>,
    accepted: bool,
    now_ms: u64,
    window_ms: u64,
    action: ButtonAction,
) -> bool {
    &&& accepted == debounce_accepts(pre_last.last_press_ms, now_ms, window_ms)
    &&& accepted ==> post_last.last_press_ms == Some(now_ms) && (pre_q.len() < 31 ==> post_q
        == pre_q.push(action)) && (pre_q.len() >= 31 ==> post_q == pre_q)
    &&& !accepted ==> post_last == pre_last && post_q == pre_q
}

/// Handle one interrupt-level trigger of a button: debounce it against
/// the button's record, and enqueue the action only for the trigger that
/// wins the window.
pub fn handle_trigger(
    last: &mut DebounceState,
    queue: &mut ActionQueue,
    now_ms: u64,
    window_ms: u64,
    action: ButtonAction,
) -> (accepted: bool)
    ensures
        trigger_post(
            *old(last),
            queue_contents(*old(queue)),
            *final(last),
            queue_contents(*final(queue)),
            accepted,
            now_ms,
            window_ms,
            action,
        ),
{
    let accept = match last.last_press_ms {
        None => true,
        Some(t) => (if now_ms >= t {
            now_ms - t
        } else {
            0
        }) >= window_ms,
    };
    if accept {
        let _ = action_queue_enqueue(queue, action);
        last.last_press_ms = Some(now_ms);
        true
    } else {
        false
    }
}

/// Interrupt handler body for the first button: a debounced move-left.
pub fn gpio_04(
    last: &mut DebounceState,
    queue: &mut ActionQueue,
    now_ms: u64,
) -> (accepted: bool)
    ensures
        trigger_post(
            *old(last),
            queue_contents(*old(queue)),
            *final(last),
            queue_contents(*final(queue)),
            accepted,
            now_ms,
            100,
            ButtonAction::MoveLeft,
        ),
{
    handle_trigger(last, queue, now_ms, 100, ButtonAction::MoveLeft)
}

/// Interrupt handler body for the second button: a debounced move-right.
pub fn gpio_05(
    last: &mut DebounceState,
    queue: &mut ActionQueue,
    now_ms: u64,
) -> (accepted: bool)
    ensures
        trigger_post(
            *old(last),
            queue_contents(*old(queue)),
            *final(last),
            queue_contents(*final(queue)),
            accepted,
            now_ms,
            100,
            ButtonAction::MoveRight,
        ),
{
    handle_trigger(last, queue, now_ms, 100, ButtonAction::MoveRight)
}

/// Interrupt handler body for the third button: a debounced drop, with a
/// longer window.
pub fn gpio_06(
    last: &mut DebounceState,
    queue: &mut ActionQueue,
    now_ms: u64,
) -> (accepted: bool)
    ensures
        trigger_post(
            *old(last),
            queue_contents(*old(queue)),
            *final(last),
            queue_contents(*final(queue)),
            accepted,
            now_ms,
            200,
            ButtonAction::MoveDown,
        ),
{
    handle_trigger(last, queue, now_ms, 200, ButtonAction::MoveDown)
}

/// Interrupt handler body for the fourth button: a debounced rotation.
pub fn gpio_07(
    last: &mut DebounceState,
    queue: &mut ActionQueue,
    now_ms: u64,
) -> (accepted: bool)
    ensures
        trigger_post(
            *old(last),
            queue_contents(*old(queue)),
            *final(last),
            queue_contents(*final(queue)),
            accepted,
            now_ms,
            100,
            ButtonAction::Rotate,
        ),
{
    handle_trigger(last, queue, now_ms, 100, ButtonAction::Rotate)
}

/// Drain the whole queue into an ordered list, oldest first, as the tick
/// loop does once per tick.
pub fn drain_actions(queue: &mut ActionQueue) -> (r: Vec<ButtonAction>)
    ensures
        r@ == queue_contents(*old(queue)),
        queue_contents(*final(queue)) == Seq::<ButtonAction>::empty(),
{
    let mut out: Vec<ButtonAction> = Vec::new();
    loop
        invariant_except_break
            out@ + queue_contents(*queue) == queue_contents(*old(queue)),
        ensures
            out@ == queue_contents(*old(queue)),
            queue_contents(*queue) == Seq::<ButtonAction>::empty(),
        decreases queue_contents(*queue).len(),
    {
        let ghost pre_q: Seq<ButtonAction> = queue_contents(*queue);
        let next = action_queue_dequeue(queue);
        match next {
            Some(a) => {
                out.push(a);
                proof {
                    assert(out@ + queue_contents(*queue) =~= out@.drop_last() + pre_q);
                }
            },
            None => {
                proof {
                    assert(queue_contents(*queue) =~= Seq::<ButtonAction>::empty());
                    assert(out@ + queue_contents(*queue) =~= out@);
                }
                break ;
            },
        }
    }
    out
}

/// Two triggers of one button inside the same debounce window enqueue at
/// most one action: once a trigger is accepted, any further trigger less
/// than a window later is rejected.
pub proof fn lemma_debounce_window(t1: u64, t2: u64, window_ms: u64)
    requires
        t2 >= t1,
        t2 - t1 < window_ms,
    ensures
        !debounce_accepts(Some(t1), t2, window_ms),
{
}

} // verus!
