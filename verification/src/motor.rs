//! The motor's state as the board reports it, and the reading of the status
//! lines that the board sends.

use crate::decimal::{
    decimal, decimal_chars, is_digit, lemma_decimal_digits, lemma_decimal_round_trip,
    parse_u8, parse_u8_chars,
};
use crate::log::{log_after_push, push_log};
use crate::text::{
    chars_of, is_white_space, trim_end, trim_start, contains, contains_chars, equal_chars, first_word, first_word_chars, piece_after,
    piece_after_chars, starts_with, starts_with_chars, string_from_chars, trim, trim_chars,
};
use std::collections::VecDeque;
use vstd::prelude::*;

verus! {

/// `RPM:`, which opens a report of the measured speed.
pub open spec fn rpm_tag() -> Seq<char> {
    seq!['R', 'P', 'M', ':']
}

/// `STATE:`, which opens a status line.
pub open spec fn state_tag() -> Seq<char> {
    seq!['S', 'T', 'A', 'T', 'E', ':']
}

/// `RPM_SET:`, which opens the acknowledgement of a new speed.
pub open spec fn rpm_set_tag() -> Seq<char> {
    seq!['R', 'P', 'M', '_', 'S', 'E', 'T', ':']
}

/// `DIR:`, which opens the direction field of a status line.
pub open spec fn dir_tag() -> Seq<char> {
    seq!['D', 'I', 'R', ':']
}

/// `RUNNING`.
pub open spec fn running_word() -> Seq<char> {
    seq!['R', 'U', 'N', 'N', 'I', 'N', 'G']
}

/// `STOPPED`.
pub open spec fn stopped_word() -> Seq<char> {
    seq!['S', 'T', 'O', 'P', 'P', 'E', 'D']
}

/// What a line from the board says, as far as it can be read without
/// reading decimal fractions.
pub enum LineKind {
    /// `RPM:<text>`: the measured speed, written as `text`.
    ReportedRpm { text: Seq<char> },
    /// `STATE:...`: whether the motor runs, the set speed as written after
    /// `RPM:` (if there), and the direction after `DIR:` (if there).
    State { running: bool, rpm_text: Option<Seq<char>>, direction: Option<u8> },
    /// `RUNNING`.
    Running,
    /// `STOPPED`.
    Stopped,
    /// `RPM_SET:<text>`: the board took `text` as its new set speed.
    RpmSet { text: Seq<char> },
    /// Anything else.
    Other,
}

/// The direction that a status line's `DIR:` field gives: the field, trimmed,
/// read as a `u8`, or 1 when it does not read as one.
pub open spec fn direction_field(piece: Seq<char>) -> u8 {
    match parse_u8(trim(piece)) {
        Some(d) => d,
        None => 1,
    }
}

/// How a line from the board is read. The checks are made in this order:
/// `RPM:` prefix, `STATE:` prefix, the whole line `RUNNING`, the whole line
/// `STOPPED`, `RPM_SET:` prefix.
pub open spec fn classify(line: Seq<char>) -> LineKind {
    if starts_with(line, rpm_tag()) {
        LineKind::ReportedRpm { text: line.subrange(4, line.len() as int) }
    } else if starts_with(line, state_tag()) {
        LineKind::State {
            running: contains(line, running_word()),
            rpm_text: match piece_after(line, rpm_tag()) {
                Some(p) => Some(first_word(p)),
                None => None,
            },
            direction: match piece_after(line, dir_tag()) {
                Some(p) => Some(direction_field(p)),
                None => None,
            },
        }
    } else if line == running_word() {
        LineKind::Running
    } else if line == stopped_word() {
        LineKind::Stopped
    } else if starts_with(line, rpm_set_tag()) {
        LineKind::RpmSet { text: line.subrange(8, line.len() as int) }
    } else {
        LineKind::Other
    }
}

/// A line from the board, read.
#[derive(Debug, PartialEq, Eq)]
pub enum LineEvent {
    /// The measured speed, as text.
    ReportedRpm(String),
    /// A status line: whether the motor runs, the set speed as text, and the
    /// direction.
    State { running: bool, rpm_text: Option<String>, direction: Option<u8> },
    /// The motor started.
    Running,
    /// The motor stopped.
    Stopped,
    /// The board took a new set speed, as text.
    RpmSet(String),
    /// Any other line.
    Other,
}

impl View for LineEvent {
    type V = LineKind;

    open spec fn view(&self) -> LineKind {
        match self {
            LineEvent::ReportedRpm(t) => LineKind::ReportedRpm { text: t@ },
            LineEvent::State { running, rpm_text, direction } => LineKind::State {
                running: *running,
                rpm_text: match rpm_text {
                    Some(t) => Some(t@),
                    None => None,
                },
                direction: *direction,
            },
            LineEvent::Running => LineKind::Running,
            LineEvent::Stopped => LineKind::Stopped,
            LineEvent::RpmSet(t) => LineKind::RpmSet { text: t@ },
            LineEvent::Other => LineKind::Other,
        }
    }
}

/// What the motor board last said about the motor, apart from speeds.
#[derive(Debug, Clone, Copy, PartialEq, Eq, Structural)]
pub struct MotorStatus {
    /// Whether the motor runs.
    pub running: bool,
    /// The direction of turning: 0 clockwise, 1 counter-clockwise.
    pub direction: u8,
}

/// The status that the board starts with: running, direction 1.
pub open spec fn initial_status() -> MotorStatus {
    MotorStatus { running: true, direction: 1 }
}

/// The status after the board has sent a line read as `kind`.
pub open spec fn status_after(s: MotorStatus, kind: LineKind) -> MotorStatus {
    match kind {
        LineKind::State { running, direction, .. } => MotorStatus {
            running,
            direction: match direction {
                Some(d) => d,
                None => s.direction,
            },
        },
        LineKind::Running => MotorStatus { running: true, ..s },
        LineKind::Stopped => MotorStatus { running: false, ..s },
        _ => s,
    }
}

/// Whether a line read as `kind` goes into the message log as it is.
pub open spec fn logged_as_is(kind: LineKind) -> bool {
    kind is State || kind is Other
}

fn rpm_tag_chars() -> (v: Vec<char>)
    ensures
        v@ == rpm_tag(),
{
    let v = vec!['R', 'P', 'M', ':'];
    assert(v@ =~= rpm_tag());
    v
}

fn state_tag_chars() -> (v: Vec<char>)
    ensures
        v@ == state_tag(),
{
    let v = vec!['S', 'T', 'A', 'T', 'E', ':'];
    assert(v@ =~= state_tag());
    v
}

fn rpm_set_tag_chars() -> (v: Vec<char>)
    ensures
        v@ == rpm_set_tag(),
{
    let v = vec!['R', 'P', 'M', '_', 'S', 'E', 'T', ':'];
    assert(v@ =~= rpm_set_tag());
    v
}

fn dir_tag_chars() -> (v: Vec<char>)
    ensures
        v@ == dir_tag(),
{
    let v = vec!['D', 'I', 'R', ':'];
    assert(v@ =~= dir_tag());
    v
}

fn running_word_chars() -> (v: Vec<char>)
    ensures
        v@ == running_word(),
{
    let v = vec!['R', 'U', 'N', 'N', 'I', 'N', 'G'];
    assert(v@ =~= running_word());
    v
}

fn stopped_word_chars() -> (v: Vec<char>)
    ensures
        v@ == stopped_word(),
{
    let v = vec!['S', 'T', 'O', 'P', 'P', 'E', 'D'];
    assert(v@ =~= stopped_word());
    v
}

/// Reads a line from the board.
pub fn interpret_line(line: &str) -> (ev: LineEvent)
    ensures
        ev@ == classify(line@),
{
    let l = chars_of(line);
    let s = l.as_slice();
    let rpm = rpm_tag_chars();
    if starts_with_chars(s, rpm.as_slice()) {
        let rest = string_from_chars(crate::text::copy_range(s, 4, l.len()).as_slice());
        return LineEvent::ReportedRpm(rest);
    }
    let state = state_tag_chars();
    if starts_with_chars(s, state.as_slice()) {
        let running = contains_chars(s, running_word_chars().as_slice());
        let rpm_text = match piece_after_chars(s, rpm.as_slice()) {
            Some(p) => Some(string_from_chars(first_word_chars(p.as_slice()).as_slice())),
            None => None,
        };
        let direction = match piece_after_chars(s, dir_tag_chars().as_slice()) {
            Some(p) => {
                let field = trim_chars(p.as_slice());
                match parse_u8_chars(field.as_slice()) {
                    Some(d) => Some(d),
                    None => Some(1u8),
                }
            },
            None => None,
        };
        return LineEvent::State { running, rpm_text, direction };
    }
    if equal_chars(s, running_word_chars().as_slice()) {
        return LineEvent::Running;
    }
    if equal_chars(s, stopped_word_chars().as_slice()) {
        return LineEvent::Stopped;
    }
    if starts_with_chars(s, rpm_set_tag_chars().as_slice()) {
        let rest = string_from_chars(crate::text::copy_range(s, 8, l.len()).as_slice());
        return LineEvent::RpmSet(rest);
    }
    LineEvent::Other
}

/// `D` followed by the decimal form of `direction`: the command that sets the
/// direction of turning.
pub open spec fn direction_command_text(direction: u8) -> Seq<char> {
    seq!['D'] + decimal(direction as nat)
}

/// `START`.
pub open spec fn start_word() -> Seq<char> {
    seq!['S', 'T', 'A', 'R', 'T']
}

/// `STOP`.
pub open spec fn stop_word() -> Seq<char> {
    seq!['S', 'T', 'O', 'P']
}

/// `?`, which asks the board for its status.
pub open spec fn query_word() -> Seq<char> {
    seq!['?']
}

impl Default for MotorStatus {
    fn default() -> (s: MotorStatus)
        ensures
            s == initial_status(),
    {
        MotorStatus { running: true, direction: 1 }
    }
}

impl MotorStatus {
    /// The status that the board starts with.
    pub fn new() -> (s: MotorStatus)
        ensures
            s == initial_status(),
    {
        MotorStatus { running: true, direction: 1 }
    }

    /// Goes back to the status that the board starts with.
    pub fn reset(&mut self)
        ensures
            *final(self) == initial_status(),
    {
        *self = MotorStatus::new();
    }

    /// Takes in a line from the board: updates the status, logs the line when
    /// it is a status line or unknown, and returns how it was read, so that
    /// the speeds in it can be read too.
    pub fn handle_line(&mut self, line: &str, log: &mut VecDeque<String>) -> (ev: LineEvent)
        ensures
            ev@ == classify(line@),
            *final(self) == status_after(*old(self), classify(line@)),
            final(log).deep_view() == if logged_as_is(classify(line@)) {
                log_after_push(old(log).deep_view(), line@)
            } else {
                old(log).deep_view()
            },
            !starts_with(line@, state_tag()) && line@ != running_word() && line@ != stopped_word()
                ==> *final(self) == *old(self),
            final(self).direction != old(self).direction ==> starts_with(line@, state_tag())
                && contains(line@, dir_tag()),
            line@ == running_word() ==> *final(self) == (MotorStatus { running: true, ..*old(self) }),
            line@ == stopped_word() ==> *final(self) == (MotorStatus { running: false, ..*old(self) }),
            starts_with(line@, state_tag()) ==> final(self).running == contains(line@, running_word()),
    {
        proof {
            lemma_running_words(*old(self), line@);
            lemma_only_status_lines_change_status(*old(self), line@);
            lemma_direction_changes_only_by_dir_field(*old(self), line@);
        }
        let ev = interpret_line(line);
        match &ev {
            LineEvent::State { running, direction, .. } => {
                self.running = *running;
                if let Some(d) = direction {
                    self.direction = *d;
                }
                push_log(log, line);
            },
            LineEvent::Running => {
                self.running = true;
            },
            LineEvent::Stopped => {
                self.running = false;
            },
            LineEvent::Other => {
                push_log(log, line);
            },
            _ => {},
        }
        ev
    }

    /// Flips between running and stopped, and returns whether the motor now
    /// runs.
    pub fn toggle_running(&mut self) -> (now_running: bool)
        ensures
            now_running == !old(self).running,
            *final(self) == (MotorStatus { running: now_running, ..*old(self) }),
    {
        self.running = !self.running;
        self.running
    }

    /// Chooses the direction of turning.
    pub fn set_direction(&mut self, direction: u8)
        ensures
            *final(self) == (MotorStatus { direction, ..*old(self) }),
    {
        self.direction = direction;
    }

    /// The command that sets the board's direction to this status's one.
    pub fn direction_command(&self) -> (cmd: String)
        ensures
            cmd@ == direction_command_text(self.direction),
    {
        let mut cs: Vec<char> = vec!['D'];
        let mut digits = decimal_chars(self.direction);
        cs.append(&mut digits);
        assert(cs@ =~= direction_command_text(self.direction));
        string_from_chars(cs.as_slice())
    }
}

/// The command that starts the motor.
pub fn start_command() -> (cmd: String)
    ensures
        cmd@ == start_word(),
{
    let cs = vec!['S', 'T', 'A', 'R', 'T'];
    assert(cs@ =~= start_word());
    string_from_chars(cs.as_slice())
}

/// The command that stops the motor.
pub fn stop_command() -> (cmd: String)
    ensures
        cmd@ == stop_word(),
{
    let cs = vec!['S', 'T', 'O', 'P'];
    assert(cs@ =~= stop_word());
    string_from_chars(cs.as_slice())
}

/// The command that asks the board for its status.
pub fn query_command() -> (cmd: String)
    ensures
        cmd@ == query_word(),
{
    let cs = vec!['?'];
    assert(cs@ =~= query_word());
    string_from_chars(cs.as_slice())
}

/// The direction that `direction_command` sends reads back as the same
/// direction from a status line's `DIR:` field that holds its digits.
pub proof fn lemma_direction_round_trip(direction: u8)
    ensures
        direction_field(decimal(direction as nat)) == direction,
{
    let s = decimal(direction as nat);
    lemma_decimal_digits(direction as nat);
    assert(is_digit(s[0]) && is_digit(s.last()));
    assert(!is_white_space(s[0]));
    assert(trim_start(s) == s);
    assert(!is_white_space(s.last()));
    assert(trim_end(s) == s);
    lemma_decimal_round_trip(direction);
}

/// Only a status line, `RUNNING` or `STOPPED` changes the motor's status: a
/// speed report (`RPM:`), a speed acknowledgement (`RPM_SET:`) and any other
/// line leave both the running state and the direction as they were.
pub proof fn lemma_only_status_lines_change_status(s: MotorStatus, line: Seq<char>)
    ensures
        !starts_with(line, state_tag()) && line != running_word() && line != stopped_word()
            ==> status_after(s, classify(line)) == s,
{
}

/// Whatever the text, a speed acknowledgement, a speed report and an unknown
/// line keep the status.
pub proof fn lemma_speed_lines_keep_status(s: MotorStatus, text: Seq<char>)
    ensures
        status_after(s, LineKind::RpmSet { text }) == s,
        status_after(s, LineKind::ReportedRpm { text }) == s,
        status_after(s, LineKind::Other) == s,
{
}

/// The direction changes only through a status line that has a `DIR:` field.
pub proof fn lemma_direction_changes_only_by_dir_field(s: MotorStatus, line: Seq<char>)
    ensures
        status_after(s, classify(line)).direction != s.direction ==> starts_with(line, state_tag())
            && contains(line, dir_tag()),
{
}

/// `RUNNING` marks the motor running and `STOPPED` marks it stopped, keeping
/// the direction; a status line marks it running exactly when it contains
/// `RUNNING`.
pub proof fn lemma_running_words(s: MotorStatus, line: Seq<char>)
    ensures
        status_after(s, classify(running_word())) == (MotorStatus { running: true, ..s }),
        status_after(s, classify(stopped_word())) == (MotorStatus { running: false, ..s }),
        starts_with(line, state_tag()) ==> status_after(s, classify(line)).running == contains(
            line,
            running_word(),
        ),
{
    assert(!starts_with(running_word(), rpm_tag())) by {
        assert(running_word()[1] != rpm_tag()[1]);
        assert(running_word().subrange(0, 4)[1] == running_word()[1]);
    }
    assert(!starts_with(running_word(), state_tag())) by {
        assert(running_word()[0] != state_tag()[0]);
        assert(running_word().subrange(0, 6)[0] == running_word()[0]);
    }
    assert(!starts_with(stopped_word(), rpm_tag())) by {
        assert(stopped_word()[0] != rpm_tag()[0]);
        assert(stopped_word().subrange(0, 4)[0] == stopped_word()[0]);
    }
    assert(!starts_with(stopped_word(), state_tag())) by {
        assert(stopped_word()[2] != state_tag()[2]);
        assert(stopped_word().subrange(0, 6)[2] == stopped_word()[2]);
    }
    assert(stopped_word() != running_word()) by {
        assert(stopped_word()[0] != running_word()[0]);
    }
}

} // verus!
