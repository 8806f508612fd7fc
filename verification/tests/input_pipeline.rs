use tetris_core::input::{
    action_queue_new, drain_actions, gpio_04, gpio_05, gpio_06, gpio_07, DebounceState,
};
use tetris_core::logic::ButtonAction;

#[test]
fn debounce_window_drops_close_triggers() {
    let mut q = action_queue_new();
    let mut b = DebounceState::new();
    // Two triggers closer together than the window enqueue exactly one
    // action.
    assert!(gpio_04(&mut b, &mut q, 1000));
    assert!(!gpio_04(&mut b, &mut q, 1050));
    let drained = drain_actions(&mut q);
    assert_eq!(drained, vec![ButtonAction::MoveLeft]);
}

#[test]
fn debounce_window_passes_spaced_triggers() {
    let mut q = action_queue_new();
    let mut b = DebounceState::new();
    // Two triggers farther apart than the window enqueue two actions.
    assert!(gpio_04(&mut b, &mut q, 1000));
    assert!(gpio_04(&mut b, &mut q, 1150));
    let drained = drain_actions(&mut q);
    assert_eq!(drained, vec![ButtonAction::MoveLeft, ButtonAction::MoveLeft]);
}

#[test]
fn rejected_trigger_keeps_record() {
    let mut q = action_queue_new();
    let mut b = DebounceState::new();
    assert!(gpio_04(&mut b, &mut q, 1000));
    // The rejected trigger does not move the window: a third trigger a
    // full window after the first is accepted.
    assert!(!gpio_04(&mut b, &mut q, 1099));
    assert!(gpio_04(&mut b, &mut q, 1100));
    assert_eq!(drain_actions(&mut q).len(), 2);
}

#[test]
fn buttons_map_to_their_actions() {
    let mut q = action_queue_new();
    let mut b1 = DebounceState::new();
    let mut b2 = DebounceState::new();
    let mut b3 = DebounceState::new();
    let mut b4 = DebounceState::new();
    assert!(gpio_04(&mut b1, &mut q, 10));
    assert!(gpio_05(&mut b2, &mut q, 10));
    assert!(gpio_06(&mut b3, &mut q, 10));
    assert!(gpio_07(&mut b4, &mut q, 10));
    let drained = drain_actions(&mut q);
    assert_eq!(
        drained,
        vec![
            ButtonAction::MoveLeft,
            ButtonAction::MoveRight,
            ButtonAction::MoveDown,
            ButtonAction::Rotate,
        ]
    );
    assert!(drain_actions(&mut q).is_empty());
}

#[test]
fn drop_button_has_longer_window() {
    let mut q = action_queue_new();
    let mut b = DebounceState::new();
    assert!(gpio_06(&mut b, &mut q, 1000));
    // Inside the 200 ms window of the drop button.
    assert!(!gpio_06(&mut b, &mut q, 1150));
    assert!(gpio_06(&mut b, &mut q, 1200));
    assert_eq!(drain_actions(&mut q).len(), 2);
}

#[test]
fn queue_keeps_order_and_capacity() {
    let mut q = action_queue_new();
    let mut left = DebounceState::new();
    let mut rotate = DebounceState::new();
    // The queue holds 31 items; the accepted triggers past its capacity
    // lose their action but nothing already queued.
    let mut now: u64 = 0;
    for i in 0..16 {
        now += 1000;
        assert!(gpio_04(&mut left, &mut q, now));
        if i < 15 {
            assert!(gpio_07(&mut rotate, &mut q, now));
        }
    }
    now += 1000;
    assert!(gpio_07(&mut rotate, &mut q, now));
    let drained = drain_actions(&mut q);
    assert_eq!(drained.len(), 31);
    assert_eq!(drained[0], ButtonAction::MoveLeft);
    assert_eq!(drained[1], ButtonAction::Rotate);
    assert_eq!(drained[30], ButtonAction::MoveLeft);
}

#[test]
fn drain_empty_queue_yields_nothing() {
    let mut q = action_queue_new();
    assert!(drain_actions(&mut q).is_empty());
    assert!(drain_actions(&mut q).is_empty());
}
