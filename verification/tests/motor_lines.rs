use collector_controller::decimal::{decimal_chars, parse_u8_chars};
use collector_controller::log::push_log;
use collector_controller::motor::{
    interpret_line, query_command, start_command, stop_command, LineEvent, MotorStatus,
};
use collector_controller::text::{first_word_chars, trim_chars};
use std::collections::VecDeque;

fn chars(s: &str) -> Vec<char> {
    s.chars().collect()
}

#[test]
fn reported_rpm_line_keeps_text_after_prefix() {
    assert_eq!(interpret_line("RPM:12.5"), LineEvent::ReportedRpm("12.5".to_string()));
    assert_eq!(interpret_line("RPM:"), LineEvent::ReportedRpm(String::new()));
}

#[test]
fn state_line_with_all_fields() {
    assert_eq!(
        interpret_line("STATE:RUNNING RPM:8.000 DIR:0"),
        LineEvent::State { running: true, rpm_text: Some("8.000".to_string()), direction: Some(0) }
    );
}

#[test]
fn state_line_without_fields() {
    assert_eq!(
        interpret_line("STATE:STOPPED"),
        LineEvent::State { running: false, rpm_text: None, direction: None }
    );
}

#[test]
fn state_line_bad_direction_reads_as_one() {
    assert_eq!(
        interpret_line("STATE:STOPPED DIR:x"),
        LineEvent::State { running: false, rpm_text: None, direction: Some(1) }
    );
    assert_eq!(
        interpret_line("STATE:STOPPED DIR:256"),
        LineEvent::State { running: false, rpm_text: None, direction: Some(1) }
    );
}

#[test]
fn state_line_direction_is_trimmed_and_may_carry_plus() {
    assert_eq!(
        interpret_line("STATE:RUNNING DIR: 0 "),
        LineEvent::State { running: true, rpm_text: None, direction: Some(0) }
    );
    assert_eq!(
        interpret_line("STATE:RUNNING DIR:+7"),
        LineEvent::State { running: true, rpm_text: None, direction: Some(7) }
    );
}

#[test]
fn state_line_rpm_field_takes_first_word_up_to_next_tag() {
    assert_eq!(
        interpret_line("STATE:RUNNING RPM:   DIR:1"),
        LineEvent::State { running: true, rpm_text: Some("DIR:1".to_string()), direction: Some(1) }
    );
    assert_eq!(
        interpret_line("STATE:RUNNING RPM: RPM:5"),
        LineEvent::State { running: true, rpm_text: Some(String::new()), direction: None }
    );
    assert_eq!(
        interpret_line("STATE:STOPPED RPM:3.25 RPM:9"),
        LineEvent::State { running: false, rpm_text: Some("3.25".to_string()), direction: None }
    );
}

#[test]
fn running_flag_is_any_occurrence_of_running() {
    assert_eq!(
        interpret_line("STATE:NOTRUNNING"),
        LineEvent::State { running: true, rpm_text: None, direction: None }
    );
}

#[test]
fn whole_line_words() {
    assert_eq!(interpret_line("RUNNING"), LineEvent::Running);
    assert_eq!(interpret_line("STOPPED"), LineEvent::Stopped);
    assert_eq!(interpret_line("RUNNING "), LineEvent::Other);
    assert_eq!(interpret_line("STOPPEDX"), LineEvent::Other);
}

#[test]
fn rpm_set_line_keeps_text_after_prefix() {
    assert_eq!(interpret_line("RPM_SET:3.500"), LineEvent::RpmSet("3.500".to_string()));
}

#[test]
fn other_lines() {
    assert_eq!(interpret_line("hello board"), LineEvent::Other);
    assert_eq!(interpret_line(""), LineEvent::Other);
    assert_eq!(interpret_line("rpm:1"), LineEvent::Other);
}

#[test]
fn handle_line_updates_status_and_log() {
    let mut status = MotorStatus::new();
    let mut log = VecDeque::new();
    status.handle_line("STATE:STOPPED RPM:1.000 DIR:0", &mut log);
    assert_eq!(status, MotorStatus { running: false, direction: 0 });
    assert_eq!(log, VecDeque::from(vec!["STATE:STOPPED RPM:1.000 DIR:0".to_string()]));
    status.handle_line("RUNNING", &mut log);
    assert!(status.running);
    assert_eq!(log.len(), 1);
    status.handle_line("STOPPED", &mut log);
    assert!(!status.running);
    status.handle_line("STATE:RUNNING", &mut log);
    assert_eq!(status, MotorStatus { running: true, direction: 0 });
    let ev = status.handle_line("RPM:4.2", &mut log);
    assert_eq!(ev, LineEvent::ReportedRpm("4.2".to_string()));
    status.handle_line("something else", &mut log);
    assert_eq!(log.len(), 3);
    assert_eq!(log[2], "something else");
    status.handle_line("RPM_SET:2.000", &mut log);
    assert_eq!(log.len(), 3);
}

#[test]
fn status_defaults_and_reset() {
    let mut status = MotorStatus::default();
    assert_eq!(status, MotorStatus { running: true, direction: 1 });
    status.toggle_running();
    status.set_direction(0);
    assert_eq!(status, MotorStatus { running: false, direction: 0 });
    status.reset();
    assert_eq!(status, MotorStatus::new());
}

#[test]
fn toggle_returns_new_state() {
    let mut status = MotorStatus::new();
    assert!(!status.toggle_running());
    assert!(status.toggle_running());
}

#[test]
fn direction_commands() {
    let mut status = MotorStatus::new();
    assert_eq!(status.direction_command(), "D1");
    status.set_direction(0);
    assert_eq!(status.direction_command(), "D0");
    status.set_direction(10);
    assert_eq!(status.direction_command(), "D10");
    status.set_direction(255);
    assert_eq!(status.direction_command(), "D255");
}

#[test]
fn direction_command_reads_back_from_status_line() {
    for d in [0u8, 1, 9, 42, 100, 255] {
        let mut status = MotorStatus::new();
        status.set_direction(d);
        let cmd = status.direction_command();
        let line = format!("STATE:RUNNING DIR:{}", &cmd[1..]);
        assert_eq!(
            interpret_line(&line),
            LineEvent::State { running: true, rpm_text: None, direction: Some(d) }
        );
    }
}

#[test]
fn fixed_commands() {
    assert_eq!(start_command(), "START");
    assert_eq!(stop_command(), "STOP");
    assert_eq!(query_command(), "?");
}

#[test]
fn parse_u8_like_std() {
    for s in ["0", "7", "+5", "007", "255", "256", "-5", "-0", "", "+", "1a", " 1", "99999999999"] {
        let expected = s.parse::<u8>().ok();
        assert_eq!(parse_u8_chars(&chars(s)), expected, "input {:?}", s);
    }
}

#[test]
fn decimal_like_std() {
    for n in 0..=255u8 {
        let v: String = decimal_chars(n).into_iter().collect();
        assert_eq!(v, n.to_string());
    }
}

#[test]
fn trim_like_std() {
    for s in ["  a b  ", "\u{3000}x\u{a0}", "\r\nline\r", "", "   ", "\u{85}y"] {
        let t: String = trim_chars(&chars(s)).into_iter().collect();
        assert_eq!(t, s.trim());
    }
}

#[test]
fn first_word_like_std() {
    for s in ["  a b  ", "x", "", "   ", "\u{2003}w1\u{2003}w2"] {
        let t: String = first_word_chars(&chars(s)).into_iter().collect();
        assert_eq!(t, s.split_whitespace().next().unwrap_or(""));
    }
}

#[test]
fn log_appends_in_order() {
    let mut log = VecDeque::new();
    push_log(&mut log, "one");
    push_log(&mut log, "two");
    assert_eq!(log, VecDeque::from(vec!["one".to_string(), "two".to_string()]));
}

#[test]
fn log_keeps_latest_sixty() {
    let mut log = VecDeque::new();
    for i in 0..100 {
        push_log(&mut log, &format!("m{}", i));
        assert!(log.len() <= 60);
        assert_eq!(log.back().unwrap(), &format!("m{}", i));
    }
    assert_eq!(log.len(), 60);
    assert_eq!(log[0], "m40");
    assert_eq!(log[59], "m99");
}
