use minesweeper::mouse::Mouse;
use minesweeper::timer::Timer;

#[test]
fn new_timer_is_zero_and_stopped() {
    let timer = Timer::new();
    assert_eq!(timer.get(), 0);
    assert!(!timer.is_running());
}

#[test]
fn stopped_timer_does_not_count() {
    let mut timer = Timer::new();
    timer.update();
    timer.update();
    assert_eq!(timer.get(), 0);
}

#[test]
fn running_timer_counts_one_tick_per_update() {
    let mut timer = Timer::new();
    timer.start();
    assert!(timer.is_running());
    assert_eq!(timer.get(), 0);
    timer.update();
    assert_eq!(timer.get(), 1);
    timer.update();
    timer.update();
    assert_eq!(timer.get(), 3);
}

#[test]
fn stop_freezes_the_count() {
    let mut timer = Timer::new();
    timer.start();
    timer.update();
    timer.update();
    timer.stop();
    assert!(!timer.is_running());
    timer.update();
    assert_eq!(timer.get(), 2);
    timer.start();
    timer.update();
    assert_eq!(timer.get(), 3);
}

#[test]
fn mouse_reports_what_it_was_given() {
    let mouse = Mouse::new(12, -3, true, false);
    assert_eq!(mouse.coordinates(), (12, -3));
    assert!(mouse.left_clicked());
    assert!(!mouse.right_clicked());
    let other = Mouse::new(0, 0, false, true);
    assert!(!other.left_clicked());
    assert!(other.right_clicked());
}

#[test]
fn mouse_update_clears_the_clicks_only() {
    let mut mouse = Mouse::new(7, 9, true, true);
    mouse.update();
    assert_eq!(mouse, Mouse::new(7, 9, false, false));
    mouse.update();
    assert_eq!(mouse.coordinates(), (7, 9));
    assert!(!mouse.left_clicked());
    assert!(!mouse.right_clicked());
}
