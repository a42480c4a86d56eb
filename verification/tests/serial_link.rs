use collector_controller::serial::{frame, port_scan_due, ConnectionIntent, SerialConnection};
use std::collections::VecDeque;

fn ports(names: &[&str]) -> Vec<String> {
    names.iter().map(|s| s.to_string()).collect()
}

#[test]
fn new_link_is_disconnected_and_auto() {
    let c = SerialConnection::new(ports(&["/dev/ttyACM0"]));
    assert_eq!(c.port_name, "");
    assert_eq!(c.available_ports, ports(&["/dev/ttyACM0"]));
    assert_eq!(c.intent, ConnectionIntent::AutoConnect);
    assert!(!c.connected);
}

#[test]
fn frame_appends_line_feed() {
    assert_eq!(frame("S1.000"), "S1.000\n");
    assert_eq!(frame(""), "\n");
}

#[test]
fn poll_splits_lines_across_reads() {
    let mut c = SerialConnection::new(Vec::new());
    assert_eq!(c.poll(b"RPM:1.0\nSTA"), vec!["RPM:1.0".to_string()]);
    assert_eq!(c.poll(b"TE:RUNNING\r\n\n   \nRUN"), vec!["STATE:RUNNING".to_string()]);
    assert_eq!(c.poll(b"NING\n"), vec!["RUNNING".to_string()]);
    assert!(c.poll(b"").is_empty());
}

#[test]
fn poll_in_pieces_equals_poll_at_once() {
    let text = b"  a \nb\n\nc d\r\ne";
    let mut whole = SerialConnection::new(Vec::new());
    let all = whole.poll(text);
    for cut in 1..text.len() {
        let mut split = SerialConnection::new(Vec::new());
        let mut got = split.poll(&text[..cut]);
        got.extend(split.poll(&text[cut..]));
        assert_eq!(got, all);
    }
    assert_eq!(all, vec!["a".to_string(), "b".to_string(), "c d".to_string()]);
}

#[test]
fn framed_command_comes_back_as_one_line() {
    let mut c = SerialConnection::new(Vec::new());
    let f = frame("D1");
    assert_eq!(c.poll(f.as_bytes()), vec!["D1".to_string()]);
}

#[test]
fn poll_replaces_invalid_utf8() {
    let mut c = SerialConnection::new(Vec::new());
    let lines = c.poll(&[b'R', 0xff, b'X', b'\n']);
    assert_eq!(lines, vec!["R\u{fffd}X".to_string()]);
    let lines = c.poll("é\n".as_bytes());
    assert_eq!(lines, vec!["é".to_string()]);
}

#[test]
fn connect_success_and_failure_are_logged() {
    let mut c = SerialConnection::new(Vec::new());
    c.port_name = "COM3".to_string();
    let mut log = VecDeque::new();
    assert!(!c.connect(Err("no such device".to_string()), &mut log));
    assert!(!c.connected);
    assert_eq!(log[0], "Failed to connect to COM3: no such device");
    assert!(c.connect(Ok(()), &mut log));
    assert!(c.connected);
    assert_eq!(log[1], "Connected to COM3");
}

#[test]
fn disconnect_and_loss() {
    let mut c = SerialConnection::new(Vec::new());
    let mut log = VecDeque::new();
    c.connect(Ok(()), &mut log);
    c.request_disconnect(&mut log);
    assert!(!c.connected);
    assert_eq!(c.intent, ConnectionIntent::ManuallyDisconnected);
    assert_eq!(log.back().unwrap(), "Disconnected.");
    c.connect(Ok(()), &mut log);
    c.mark_disconnected(&mut log);
    assert!(!c.connected);
    assert_eq!(c.intent, ConnectionIntent::AutoConnect);
    assert_eq!(log.back().unwrap(), "Connection lost.");
}

#[test]
fn plain_disconnect_keeps_intent() {
    let mut c = SerialConnection::new(Vec::new());
    let mut log = VecDeque::new();
    c.connect(Ok(()), &mut log);
    c.disconnect(&mut log);
    assert!(!c.connected);
    assert_eq!(c.intent, ConnectionIntent::AutoConnect);
}

#[test]
fn failed_write_breaks_link() {
    let mut c = SerialConnection::new(Vec::new());
    let mut log = VecDeque::new();
    c.connect(Ok(()), &mut log);
    c.after_send(false, &mut log);
    assert!(c.connected);
    assert_eq!(log.len(), 1);
    c.after_send(true, &mut log);
    assert!(!c.connected);
    assert_eq!(log.back().unwrap(), "Connection lost.");
}

#[test]
fn health_check_outcomes() {
    let mut c = SerialConnection::new(Vec::new());
    let mut log = VecDeque::new();
    c.connect(Ok(()), &mut log);
    assert!(!c.health_check(true, &mut log));
    assert!(c.connected);
    assert!(c.health_check(false, &mut log));
    assert!(!c.connected);
}

#[test]
fn timing_thresholds() {
    assert!(!port_scan_due(2_000_000_000));
    assert!(port_scan_due(2_000_000_001));
    let mut c = SerialConnection::new(Vec::new());
    assert!(!c.ping_due(10_000_000_000));
    assert!(!c.health_check_due(10_000_000_000));
    c.connected = true;
    assert!(!c.ping_due(2_000_000_000));
    assert!(c.ping_due(2_000_000_001));
    assert!(!c.health_check_due(3_000_000_000));
    assert!(c.health_check_due(3_000_000_001));
}

#[test]
fn scan_prefers_newly_appeared_port() {
    let mut c = SerialConnection::new(ports(&["A", "B"]));
    let pick = c.apply_port_scan(ports(&["A", "B", "C", "D"]));
    assert_eq!(pick, Some("C".to_string()));
    assert_eq!(c.port_name, "C");
    assert_eq!(c.available_ports, ports(&["A", "B", "C", "D"]));
}

#[test]
fn scan_falls_back_to_first_port() {
    let mut c = SerialConnection::new(ports(&["A", "B"]));
    assert_eq!(c.apply_port_scan(ports(&["B", "A"])), Some("B".to_string()));
    assert_eq!(c.port_name, "B");
}

#[test]
fn scan_with_no_ports_picks_none() {
    let mut c = SerialConnection::new(ports(&["A"]));
    assert_eq!(c.apply_port_scan(Vec::new()), None);
    assert_eq!(c.port_name, "");
    assert!(c.available_ports.is_empty());
}

#[test]
fn scan_does_not_pick_when_connected_or_manual() {
    let mut log = VecDeque::new();
    let mut c = SerialConnection::new(ports(&["A"]));
    c.port_name = "A".to_string();
    c.connect(Ok(()), &mut log);
    assert_eq!(c.apply_port_scan(ports(&["A", "B"])), None);
    assert_eq!(c.port_name, "A");
    c.request_disconnect(&mut log);
    assert_eq!(c.apply_port_scan(ports(&["A", "B", "C"])), None);
    assert_eq!(c.available_ports, ports(&["A", "B", "C"]));
    c.mark_disconnected(&mut log);
    assert_eq!(c.apply_port_scan(ports(&["A", "B", "C", "E"])), Some("E".to_string()));
}

#[test]
fn connect_request_needs_a_port() {
    let mut c = SerialConnection::new(Vec::new());
    let mut log = VecDeque::new();
    c.request_disconnect(&mut log);
    assert!(!c.request_connect());
    assert_eq!(c.intent, ConnectionIntent::ManuallyDisconnected);
    c.port_name = "A".to_string();
    assert!(c.request_connect());
    assert_eq!(c.intent, ConnectionIntent::AutoConnect);
}

#[test]
fn labels() {
    let mut c = SerialConnection::new(Vec::new());
    assert_eq!(c.status_label(), "OFFLINE");
    assert_eq!(c.port_label(), "Select...");
    c.connected = true;
    c.port_name = "COM4".to_string();
    assert_eq!(c.status_label(), "ONLINE");
    assert_eq!(c.port_label(), "COM4");
}

#[test]
fn many_reads_split_as_one_text() {
    let text = "STATE:RUNNING RPM:1.5 DIR:0\r\n  \nRPM:2.0\nδir é\nRUNNING\nSTOP";
    let mut whole = SerialConnection::new(Vec::new());
    let all = whole.poll(text.as_bytes());
    let boundaries: Vec<usize> = (0..=text.len()).filter(|&i| text.is_char_boundary(i)).collect();
    for step in 1..6 {
        let mut c = SerialConnection::new(Vec::new());
        let mut got = Vec::new();
        let mut start = 0;
        for &b in boundaries.iter().step_by(step).chain(std::iter::once(&text.len())) {
            if b < start {
                continue;
            }
            got.extend(c.poll(text[start..b].as_bytes()));
            start = b;
        }
        assert_eq!(got, all);
        assert_eq!(c.poll(b"\n"), vec!["STOP".to_string()]);
    }
    assert_eq!(
        all,
        vec![
            "STATE:RUNNING RPM:1.5 DIR:0".to_string(),
            "RPM:2.0".to_string(),
            "δir é".to_string(),
            "RUNNING".to_string(),
        ]
    );
}
