use std::cell::Cell;

use frugger::{Bencher, ButtonState, FrugInputs, FrugTimer, RollingAverage};

#[test]
fn button_queries() {
    assert!(ButtonState::PRESSED.down() && ButtonState::DOWN.down());
    assert!(!ButtonState::UP.down() && !ButtonState::RELEASED.down());
    assert!(ButtonState::UP.up() && ButtonState::RELEASED.up());
    assert!(ButtonState::PRESSED.pressed() && !ButtonState::DOWN.pressed());
    assert!(ButtonState::RELEASED.released() && !ButtonState::UP.released());
    assert_eq!(ButtonState::default(), ButtonState::UP);
}

#[test]
fn button_moves_through_a_press() {
    let mut b = ButtonState::default();
    b.set_button_state(true);
    assert_eq!(b, ButtonState::PRESSED);
    b.advance();
    assert_eq!(b, ButtonState::DOWN);
    b.set_button_state(true);
    assert_eq!(b, ButtonState::DOWN);
    b.set_button_state(false);
    assert_eq!(b, ButtonState::RELEASED);
    b.advance();
    assert_eq!(b, ButtonState::UP);
    b.set_button_state(false);
    assert_eq!(b, ButtonState::UP);
}

#[test]
fn inputs_advance_together() {
    let mut inputs = FrugInputs::default();
    inputs.a = ButtonState::PRESSED;
    inputs.left = ButtonState::RELEASED;
    inputs.right = ButtonState::DOWN;
    inputs.advance();
    assert_eq!(inputs.a, ButtonState::DOWN);
    assert_eq!(inputs.left, ButtonState::UP);
    assert_eq!(inputs.right, ButtonState::DOWN);
    assert_eq!(inputs.b, ButtonState::UP);
}

#[test]
fn rolling_average_of_last_ten() {
    let mut avg = RollingAverage::new();
    assert_eq!(avg.average(), 0);
    avg.add(100);
    assert_eq!(avg.average(), 10);
    for _ in 0..10 {
        avg.add(7);
    }
    assert_eq!(avg.average(), 7);
    avg.add(u64::MAX);
    assert_eq!(avg.average(), ((u64::MAX as u128 + 9 * 7) / 10) as u64);
}

struct FakeTimer {
    now: Cell<u64>,
}

impl FrugTimer for FakeTimer {
    fn ticks(&self) -> u64 {
        let t = self.now.get();
        self.now.set(t + 5);
        t
    }

    fn delay_ms(&mut self, ms: u64) {
        self.now.set(self.now.get() + ms);
    }
}

#[test]
fn bencher_reports_ticks_between_checkpoints() {
    let timer = FakeTimer { now: Cell::new(100) };
    let mut b = Bencher::new(&timer);
    assert_eq!(b.cp(), 5);
    timer.now.set(timer.now.get() + 20);
    assert_eq!(b.cp(), 25);
    b.start();
    assert_eq!(b.cp(), 5);
}
