use cobalt::offset::{parse_i64, Offset};
use cobalt::state::{EngineState, TimerInner};

fn chars(s: &str) -> Vec<char> {
    s.chars().collect()
}

#[test]
fn offset_parses_hours_minutes_seconds() {
    assert_eq!(Offset::parse("01:30:15"), Some(Offset { seconds: 5415 }));
    assert_eq!(Offset::parse("0:0:0"), Some(Offset { seconds: 0 }));
    assert_eq!(Offset::parse("-1:00:00"), Some(Offset { seconds: -3600 }));
    assert_eq!(Offset::parse("+2:90:00"), Some(Offset { seconds: 12600 }));
}

#[test]
fn offset_rejects_malformed_text() {
    assert_eq!(Offset::parse("01:30"), None);
    assert_eq!(Offset::parse("01:30:15:00"), None);
    assert_eq!(Offset::parse("aa:00:00"), None);
    assert_eq!(Offset::parse("01::00"), None);
    assert_eq!(Offset::parse(" 1:00:00"), None);
    assert_eq!(Offset::parse("9223372036854775807:00:00"), None);
}

#[test]
fn offset_text_form() {
    assert_eq!(Offset { seconds: 5415 }.to_text(), "01:30:15");
    assert_eq!(Offset { seconds: 0 }.to_text(), "00:00:00");
    assert_eq!(Offset { seconds: 360000 }.to_text(), "100:00:00");
    assert_eq!(Offset { seconds: -3661 }.to_text(), format!("{:02}:{:02}:{:02}", -1, -1, -1));
}

#[test]
fn integers_parse_like_std() {
    for s in ["0", "42", "-42", "+7", "007", "9223372036854775807", "-9223372036854775808"] {
        assert_eq!(parse_i64(&chars(s)), s.parse::<i64>().ok(), "{}", s);
    }
    for s in ["", "-", "+", "1a", "9223372036854775808", "-9223372036854775809", " 1", "--1"] {
        assert_eq!(parse_i64(&chars(s)), None, "{}", s);
    }
}

#[test]
fn timer_start_stop_resume() {
    let mut t = TimerInner::new(3600);
    assert_eq!(t.time_remaining(0), 3600);
    assert!(!t.is_scoring());
    t.start(100);
    assert!(t.is_scoring());
    assert_eq!(t.time_remaining(160), 3540);
    t.start(150);
    assert_eq!(t.time_remaining(160), 3540);
    t.stop(200);
    assert_eq!(t.engine_state, EngineState::Stopped { time_remaining: 3500 });
    assert_eq!(t.time_remaining(10_000), 3500);
    t.start(300);
    assert_eq!(t.time_remaining(400), 3400);
    t.reset();
    assert_eq!(t.engine_state, EngineState::Uninitialized);
    assert_eq!(EngineState::default(), EngineState::Uninitialized);
}

#[test]
fn offset_text_reads_back() {
    for s in [0i64, 59, 61, 3599, 3600, 5415, 360000, -1, -3661, i64::MAX, i64::MIN] {
        let o = Offset { seconds: s };
        assert_eq!(Offset::parse(&o.to_text()), Some(o), "{}", s);
    }
}
