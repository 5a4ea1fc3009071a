//! Simulations of the debounce and key-priority engine against a scripted
//! clock: one outbound event per gesture, for holds and for taps.

use picolink::engine::KeypadEngine;
use picolink::keys::{active_key, ButtonSample, KeyboardCodes};

fn sample(down: bool, up: bool, left: bool, right: bool, ok: bool) -> ButtonSample {
    ButtonSample {
        down,
        up,
        left,
        right,
        ok,
    }
}

fn idle_sample() -> ButtonSample {
    sample(false, false, false, false, false)
}

/// Run the engine over `total_us` microseconds in `step_us` steps, with the
/// buttons given by `buttons_at`, collecting every emitted event.
fn run(
    engine: &mut KeypadEngine,
    from_us: u64,
    total_us: u64,
    step_us: u64,
    buttons_at: impl Fn(u64) -> ButtonSample,
) -> Vec<(KeyboardCodes, u64)> {
    let mut events = Vec::new();
    let mut t = from_us;
    while t <= from_us + total_us {
        let buttons = buttons_at(t);
        engine.sample(active_key(&buttons), t);
        if let Some(ev) = engine.poll_send(t, true) {
            events.push((ev.key, ev.hold_ms));
        }
        t += step_us;
    }
    events
}

#[test]
fn long_hold_sends_exactly_one_event() {
    let mut engine = KeypadEngine::new(0);
    // Down pressed for 1200 ms, then released; run on for two more seconds.
    let events = run(&mut engine, 0, 3_200_000, 10_000, |t| {
        if t <= 1_200_000 {
            sample(true, false, false, false, false)
        } else {
            idle_sample()
        }
    });
    assert_eq!(events.len(), 1);
    assert_eq!(events[0].0, KeyboardCodes::Down);
    assert!(events[0].1 >= 1000);
}

#[test]
fn fast_tap_still_sends_exactly_one_event() {
    let mut engine = KeypadEngine::new(0);
    // Down pressed for 50 ms and released well before the first 250 ms poll.
    let events = run(&mut engine, 0, 2_000_000, 10_000, |t| {
        if t < 50_000 {
            sample(true, false, false, false, false)
        } else {
            idle_sample()
        }
    });
    assert_eq!(events.len(), 1);
    assert_eq!(events[0].0, KeyboardCodes::Down);
}

#[test]
fn very_long_hold_still_sends_only_once() {
    let mut engine = KeypadEngine::new(0);
    // Down held for five full seconds.
    let events = run(&mut engine, 0, 5_000_000, 10_000, |t| {
        if t <= 5_000_000 {
            sample(true, false, false, false, false)
        } else {
            idle_sample()
        }
    });
    assert_eq!(events.len(), 1);
    assert_eq!(events[0].0, KeyboardCodes::Down);
    assert!(events[0].1 >= 1000);
}

#[test]
fn two_separate_taps_send_two_events() {
    let mut engine = KeypadEngine::new(0);
    let events = run(&mut engine, 0, 4_000_000, 10_000, |t| {
        if t < 50_000 || (1_500_000..1_600_000).contains(&t) {
            sample(false, false, true, false, false)
        } else {
            idle_sample()
        }
    });
    assert_eq!(events.len(), 2);
    assert_eq!(events[0].0, KeyboardCodes::Left);
    assert_eq!(events[1].0, KeyboardCodes::Left);
}

#[test]
fn no_buttons_send_nothing() {
    let mut engine = KeypadEngine::new(0);
    let events = run(&mut engine, 0, 2_000_000, 10_000, |_| idle_sample());
    assert!(events.is_empty());
}

#[test]
fn unwritable_transmitter_postpones_the_event() {
    let mut engine = KeypadEngine::new(0);
    engine.sample(active_key(&sample(false, true, false, false, false)), 0);
    engine.sample(active_key(&idle_sample()), 50_000);
    // The first due poll cannot write; the event must not be lost.
    assert_eq!(engine.poll_send(300_000, false), None);
    let ev = engine.poll_send(600_000, true).unwrap();
    assert_eq!(ev.key, KeyboardCodes::Up);
}

#[test]
fn priority_prefers_down_over_all_others() {
    assert_eq!(
        active_key(&sample(true, true, true, true, true)),
        Some(KeyboardCodes::Down)
    );
    assert_eq!(
        active_key(&sample(false, true, true, true, true)),
        Some(KeyboardCodes::Up)
    );
    assert_eq!(
        active_key(&sample(false, false, true, true, true)),
        Some(KeyboardCodes::Left)
    );
    assert_eq!(
        active_key(&sample(false, false, false, true, true)),
        Some(KeyboardCodes::Right)
    );
    assert_eq!(
        active_key(&sample(false, false, false, false, true)),
        Some(KeyboardCodes::Okay)
    );
    assert_eq!(active_key(&idle_sample()), None);
}

#[test]
fn repress_of_same_key_resumes_the_gesture_timer() {
    let mut engine = KeypadEngine::new(0);
    // Tap, release for 20 ms, press again and hold: one merged gesture whose
    // duration runs from the first press.
    let events = run(&mut engine, 0, 2_500_000, 10_000, |t| {
        if t < 100_000 || (120_000..1_300_000).contains(&t) {
            sample(true, false, false, false, false)
        } else {
            idle_sample()
        }
    });
    assert_eq!(events.len(), 1);
    assert_eq!(events[0].0, KeyboardCodes::Down);
    assert!(events[0].1 >= 1000);
}
