use binglish::idle_detector::{idle_seconds_from_ticks, parse_hid_idle_seconds};
use binglish::scheduler::{rest_step, seconds_until_next_10am, seconds_until_ten, RestAction, RestEvent, RestPhase};

#[test]
fn next_ten_oclock() {
    assert_eq!(seconds_until_ten(0, 0), 36000);
    assert_eq!(seconds_until_ten(9 * 3600, 0), 3600);
    assert_eq!(seconds_until_ten(9 * 3600, 500_000_000), 3599);
    assert_eq!(seconds_until_ten(35990, 0), 60);
    assert_eq!(seconds_until_ten(36000, 0), 86400);
    assert_eq!(seconds_until_ten(36000, 1), 86399);
    assert_eq!(seconds_until_ten(86399, 0), 36001);
    let w = seconds_until_next_10am();
    assert!((60..=86400).contains(&w));
}

fn settings(enabled: bool, showing: bool) -> RestEvent {
    RestEvent::Settings { enabled, interval: 2700, idle_reset: 300, showing }
}

#[test]
fn rest_round_shows_the_overlay() {
    let (p, a) = rest_step(RestPhase::Start, settings(true, false));
    assert_eq!(a, RestAction::ReadIdle);
    let (p, a) = rest_step(p, RestEvent::Idle { idle_seconds: Some(10) });
    assert_eq!(a, RestAction::ReadWork);
    let (p, a) = rest_step(p, RestEvent::Work { work_seconds: 2700 });
    assert_eq!(a, RestAction::CheckFullscreen);
    let (p, a) = rest_step(p, RestEvent::Fullscreen { on: false });
    assert_eq!(a, RestAction::ShowOverlay);
    assert_eq!(p, RestPhase::Start);
}

#[test]
fn rest_round_stops_early() {
    assert_eq!(rest_step(RestPhase::Start, settings(false, false)).1, RestAction::Sleep);
    assert_eq!(rest_step(RestPhase::Start, settings(true, true)).1, RestAction::Sleep);
    let (p, _) = rest_step(RestPhase::Start, settings(true, false));
    assert_eq!(rest_step(p, RestEvent::Idle { idle_seconds: None }).1, RestAction::Sleep);
    assert_eq!(rest_step(p, RestEvent::Idle { idle_seconds: Some(300) }).1, RestAction::ResetTimers);
    let (p, _) = rest_step(p, RestEvent::Idle { idle_seconds: Some(0) });
    assert_eq!(rest_step(p, RestEvent::Work { work_seconds: 2699 }).1, RestAction::Sleep);
    let (p, _) = rest_step(p, RestEvent::Work { work_seconds: 9999 });
    assert_eq!(rest_step(p, RestEvent::Fullscreen { on: true }).1, RestAction::Sleep);
    assert_eq!(rest_step(RestPhase::Start, RestEvent::Fullscreen { on: false }), (RestPhase::Start, RestAction::Sleep));
}

#[test]
fn idle_ticks_wrap() {
    assert_eq!(idle_seconds_from_ticks(5000, 2000), 3);
    assert_eq!(idle_seconds_from_ticks(1000, u32::MAX - 999), 2);
    assert_eq!(idle_seconds_from_ticks(7, 7), 0);
}

#[test]
fn hid_idle_time_from_ioreg() {
    let out = "+-o IOHIDSystem  <class IOHIDSystem>\n    | {\n    |   \"HIDIdleTime\" = 12345678901\n    | }\n";
    assert_eq!(parse_hid_idle_seconds(out), Some(12));
    let crlf = "\"HIDIdleTime\" = 2000000000\r\n";
    assert_eq!(parse_hid_idle_seconds(crlf), Some(2));
    let skip = "\"HIDIdleTime\" = junk\n\"HIDIdleTime\" = 3000000000";
    assert_eq!(parse_hid_idle_seconds(skip), Some(3));
    assert_eq!(parse_hid_idle_seconds("nothing here\n"), None);
    assert_eq!(parse_hid_idle_seconds(""), None);
    assert_eq!(parse_hid_idle_seconds("HIDIdleTime=a=+5000000000"), Some(5));
}
