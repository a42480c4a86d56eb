//! The serial link to the motor board, apart from the port itself: the
//! connection's state, the framing of commands, the splitting of what
//! arrives into lines, and when to scan, ping and check the link.

use crate::lines::{feed_result, lemma_feed_in_pieces, lemma_line_comes_back, LineBuffer, SplitState};
use crate::log::{log_after_push, push_log};
use crate::text::{chars_of, string_from_chars, trim};
use std::collections::VecDeque;
use vstd::prelude::*;
use vstd::utf8::{
    decode_utf8, decode_utf8_encode_utf8, encode_utf8, encode_utf8_decode_utf8, valid_utf8,
    valid_utf8_concat,
};

verus! {

/// Whether the link should reconnect by itself.
#[derive(Debug, Clone, Copy, PartialEq, Eq, Structural)]
pub enum ConnectionIntent {
    /// Connect to a port as soon as one is there.
    AutoConnect,
    /// The operator disconnected: stay disconnected.
    ManuallyDisconnected,
}

/// The text that `String::from_utf8_lossy` makes of `bytes`.
pub uninterp spec fn utf8_lossy(bytes: Seq<u8>) -> Seq<char>;

/// Decodes `bytes` by calling `String::from_utf8_lossy`. Claimed: the result
/// is `utf8_lossy` of the bytes, and, where the bytes are valid UTF-8, it is
/// exactly their decoding, as that function's documentation says. What
/// replaces invalid sequences is left unsaid.
#[verifier::external_body]
fn decode_lossy(bytes: &[u8]) -> (text: String)
    ensures
        text@ == utf8_lossy(bytes@),
        valid_utf8(bytes@) ==> text@ == decode_utf8(bytes@),
{
    String::from_utf8_lossy(bytes).into_owned()
}

/// How long, in nanoseconds, the link waits between two scans for ports.
pub const PORT_SCAN_PERIOD_NANOS: u128 = 2_000_000_000;

/// How long, in nanoseconds, a connected link waits between two status queries.
pub const PING_PERIOD_NANOS: u128 = 2_000_000_000;

/// How long, in nanoseconds, a connected link waits between two health checks.
pub const HEALTH_CHECK_PERIOD_NANOS: u128 = 3_000_000_000;

/// `cmd` followed by a line feed, as it goes over the wire.
pub open spec fn framed(cmd: Seq<char>) -> Seq<char> {
    cmd.push('\n')
}

/// `Connected to ` followed by the port's name.
pub open spec fn connected_message(port: Seq<char>) -> Seq<char> {
    seq!['C', 'o', 'n', 'n', 'e', 'c', 't', 'e', 'd', ' ', 't', 'o', ' '] + port
}

/// `Failed to connect to <port>: <error>`.
pub open spec fn failed_message(port: Seq<char>, error: Seq<char>) -> Seq<char> {
    seq![
        'F', 'a', 'i', 'l', 'e', 'd', ' ', 't', 'o', ' ', 'c', 'o', 'n', 'n', 'e', 'c', 't', ' ', 't', 'o', ' '
    ] + port + seq![':', ' '] + error
}

/// `Disconnected.`
pub open spec fn disconnected_message() -> Seq<char> {
    seq!['D', 'i', 's', 'c', 'o', 'n', 'n', 'e', 'c', 't', 'e', 'd', '.']
}

/// `Connection lost.`
pub open spec fn lost_message() -> Seq<char> {
    seq!['C', 'o', 'n', 'n', 'e', 'c', 't', 'i', 'o', 'n', ' ', 'l', 'o', 's', 't', '.']
}

/// `ONLINE`.
pub open spec fn online_label() -> Seq<char> {
    seq!['O', 'N', 'L', 'I', 'N', 'E']
}

/// `OFFLINE`.
pub open spec fn offline_label() -> Seq<char> {
    seq!['O', 'F', 'F', 'L', 'I', 'N', 'E']
}

/// `Select...`.
pub open spec fn select_label() -> Seq<char> {
    seq!['S', 'e', 'l', 'e', 'c', 't', '.', '.', '.']
}

/// The first port of `new` that is not in `old`.
pub open spec fn first_new_port(old: Seq<Seq<char>>, new: Seq<Seq<char>>) -> Option<Seq<char>>
    decreases new.len(),
{
    if new.len() == 0 {
        None
    } else if !old.contains(new[0]) {
        Some(new[0])
    } else {
        first_new_port(old, new.drop_first())
    }
}

/// The port to try when a scan finds `new` after `old`: the first port that
/// was not there before, else the first port found, else none.
pub open spec fn scan_candidate(old: Seq<Seq<char>>, new: Seq<Seq<char>>) -> Option<Seq<char>> {
    match first_new_port(old, new) {
        Some(p) => Some(p),
        None => if new.len() > 0 {
            Some(new[0])
        } else {
            None
        },
    }
}

/// The port to connect to after a scan that found `new`: only a link that is
/// disconnected and meant to reconnect by itself picks one.
pub open spec fn scan_choice(
    connected: bool,
    intent: ConnectionIntent,
    old: Seq<Seq<char>>,
    new: Seq<Seq<char>>,
) -> Option<Seq<char>> {
    if !connected && intent == ConnectionIntent::AutoConnect {
        scan_candidate(old, new)
    } else {
        None
    }
}

/// Whether `ports` holds a port named `name`.
fn has_port(ports: &Vec<String>, name: &String) -> (b: bool)
    ensures
        b == ports.deep_view().contains(name@),
{
    let mut j: usize = 0;
    while j < ports.len()
        invariant
            j <= ports@.len(),
            forall|k: int| 0 <= k < j ==> ports.deep_view()[k] != name@,
        decreases ports@.len() - j,
    {
        if ports[j] == *name {
            assert(ports.deep_view()[j as int] == name@);
            return true;
        }
        j = j + 1;
    }
    false
}

/// The port to try when a scan finds `new` after `old` (see `scan_candidate`).
fn pick_candidate(old: &Vec<String>, new: &Vec<String>) -> (r: Option<String>)
    ensures
        match r {
            Some(p) => scan_candidate(old.deep_view(), new.deep_view()) == Some(p@),
            None => scan_candidate(old.deep_view(), new.deep_view()) is None,
        },
{
    let ghost o = old.deep_view();
    let ghost n = new.deep_view();
    let mut i: usize = 0;
    assert(n.subrange(0, n.len() as int) =~= n);
    while i < new.len()
        invariant
            i <= new@.len(),
            n == new.deep_view(),
            o == old.deep_view(),
            first_new_port(o, n) == first_new_port(o, n.subrange(i as int, n.len() as int)),
        decreases new@.len() - i,
    {
        let ghost rest = n.subrange(i as int, n.len() as int);
        assert(rest[0] == n[i as int]);
        if !has_port(old, &new[i]) {
            return Some(new[i].clone());
        }
        assert(rest.drop_first() =~= n.subrange(i + 1, n.len() as int));
        i = i + 1;
    }
    assert(n.subrange(i as int, n.len() as int).len() == 0);
    if new.len() > 0 {
        Some(new[0].clone())
    } else {
        None
    }
}

/// The text `msg` as a string.
fn message(msg: Vec<char>) -> (s: String)
    ensures
        s@ == msg@,
{
    string_from_chars(msg.as_slice())
}

/// `cmd` followed by a line feed.
pub fn frame(cmd: &str) -> (line: String)
    ensures
        line@ == framed(cmd@),
{
    let mut cs = chars_of(cmd);
    cs.push('\n');
    string_from_chars(cs.as_slice())
}

/// Whether the next scan for ports is due, `since_last_scan` nanoseconds
/// after the last one.
pub fn port_scan_due(since_last_scan: u128) -> (due: bool)
    ensures
        due == (since_last_scan > PORT_SCAN_PERIOD_NANOS),
{
    since_last_scan > PORT_SCAN_PERIOD_NANOS
}

/// The state of the serial link, apart from the open port.
pub struct SerialConnection {
    /// The port chosen to connect to.
    pub port_name: String,
    /// The ports found by the last scan.
    pub available_ports: Vec<String>,
    /// Whether to reconnect by itself.
    pub intent: ConnectionIntent,
    /// Whether a port is open.
    pub connected: bool,
    /// The partial line received so far.
    pub buf: LineBuffer,
}

impl SerialConnection {
    /// The partial line received so far.
    pub open spec fn pending(&self) -> Seq<char> {
        self.buf@
    }

    /// A disconnected link that knows the ports `ports` and has chosen none.
    pub fn new(ports: Vec<String>) -> (c: SerialConnection)
        ensures
            c.port_name@ == Seq::<char>::empty(),
            c.available_ports@ == ports@,
            c.intent == ConnectionIntent::AutoConnect,
            !c.connected,
            c.pending() == Seq::<char>::empty(),
    {
        SerialConnection {
            port_name: String::new(),
            available_ports: ports,
            intent: ConnectionIntent::AutoConnect,
            connected: false,
            buf: LineBuffer::new(),
        }
    }

    /// Records how opening the chosen port went: `Ok` connects the link and
    /// logs it; `Err` with the error's text logs the failure and changes
    /// nothing else. Returns whether the link is now connected.
    pub fn connect(&mut self, opened: Result<(), String>, log: &mut VecDeque<String>) -> (now_connected: bool)
        ensures
            now_connected == opened is Ok,
            final(self).connected == (opened is Ok || old(self).connected),
            final(self).port_name == old(self).port_name,
            final(self).available_ports == old(self).available_ports,
            final(self).intent == old(self).intent,
            final(self).pending() == old(self).pending(),
            final(log).deep_view() == match opened {
                Ok(_) => log_after_push(old(log).deep_view(), connected_message(old(self).port_name@)),
                Err(e) => log_after_push(
                    old(log).deep_view(),
                    failed_message(old(self).port_name@, e@),
                ),
            },
    {
        match opened {
            Ok(()) => {
                self.connected = true;
                let mut cs = vec!['C', 'o', 'n', 'n', 'e', 'c', 't', 'e', 'd', ' ', 't', 'o', ' '];
                let mut name = chars_of(self.port_name.as_str());
                cs.append(&mut name);
                assert(cs@ =~= connected_message(old(self).port_name@));
                let m = message(cs);
                push_log(log, m.as_str());
                true
            },
            Err(e) => {
                let mut cs = vec![
                    'F', 'a', 'i', 'l', 'e', 'd', ' ', 't', 'o', ' ', 'c', 'o', 'n', 'n', 'e', 'c', 't', ' ', 't', 'o', ' '
                ];
                let mut name = chars_of(self.port_name.as_str());
                cs.append(&mut name);
                let mut sep = vec![':', ' '];
                cs.append(&mut sep);
                let mut err = chars_of(e.as_str());
                cs.append(&mut err);
                assert(cs@ =~= failed_message(old(self).port_name@, e@));
                let m = message(cs);
                push_log(log, m.as_str());
                false
            },
        }
    }

    /// The operator's disconnect: the link is no longer connected, and this
    /// is logged.
    pub fn disconnect(&mut self, log: &mut VecDeque<String>)
        ensures
            !final(self).connected,
            final(self).port_name == old(self).port_name,
            final(self).available_ports == old(self).available_ports,
            final(self).intent == old(self).intent,
            final(self).pending() == old(self).pending(),
            final(log).deep_view() == log_after_push(old(log).deep_view(), disconnected_message()),
    {
        self.connected = false;
        let cs = vec!['D', 'i', 's', 'c', 'o', 'n', 'n', 'e', 'c', 't', 'e', 'd', '.'];
        assert(cs@ =~= disconnected_message());
        let m = message(cs);
        push_log(log, m.as_str());
    }

    /// The link broke: it is no longer connected, reconnects by itself from
    /// now on, and this is logged.
    pub fn mark_disconnected(&mut self, log: &mut VecDeque<String>)
        ensures
            !final(self).connected,
            final(self).intent == ConnectionIntent::AutoConnect,
            final(self).port_name == old(self).port_name,
            final(self).available_ports == old(self).available_ports,
            final(self).pending() == old(self).pending(),
            final(log).deep_view() == log_after_push(old(log).deep_view(), lost_message()),
    {
        self.connected = false;
        self.intent = ConnectionIntent::AutoConnect;
        let cs = vec!['C', 'o', 'n', 'n', 'e', 'c', 't', 'i', 'o', 'n', ' ', 'l', 'o', 's', 't', '.'];
        assert(cs@ =~= lost_message());
        let m = message(cs);
        push_log(log, m.as_str());
    }

    /// Records how writing a command went: a failed write means the link broke.
    pub fn after_send(&mut self, write_failed: bool, log: &mut VecDeque<String>)
        ensures
            write_failed ==> !final(self).connected && final(self).intent
                == ConnectionIntent::AutoConnect && final(log).deep_view() == log_after_push(
                old(log).deep_view(),
                lost_message(),
            ),
            !write_failed ==> final(self).connected == old(self).connected && final(self).intent
                == old(self).intent && final(log).deep_view() == old(log).deep_view(),
            final(self).port_name == old(self).port_name,
            final(self).available_ports == old(self).available_ports,
            final(self).pending() == old(self).pending(),
    {
        if write_failed {
            self.mark_disconnected(log);
        }
    }

    /// Takes in the bytes `received` from the port and returns the lines that
    /// they complete (see `LineBuffer::feed`); no bytes complete no line.
    pub fn poll(&mut self, received: &[u8]) -> (lines: Vec<String>)
        ensures
            received@.len() == 0 ==> lines@.len() == 0 && final(self).pending() == old(
                self,
            ).pending(),
            received@.len() > 0 ==> lines.deep_view() == feed_result(
                old(self).pending(),
                utf8_lossy(received@),
            ).0 && final(self).pending() == feed_result(
                old(self).pending(),
                utf8_lossy(received@),
            ).1,
            received@.len() > 0 && valid_utf8(received@) ==> lines.deep_view() == feed_result(
                old(self).pending(),
                decode_utf8(received@),
            ).0 && final(self).pending() == feed_result(
                old(self).pending(),
                decode_utf8(received@),
            ).1,
            !final(self).pending().contains('\n'),
            valid_utf8(received@) ==> (lines.deep_view(), final(self).pending()) == lines_of_reads(
                old(self).pending(),
                seq![received@],
            ),
            final(self).port_name == old(self).port_name,
            final(self).available_ports == old(self).available_ports,
            final(self).intent == old(self).intent,
            final(self).connected == old(self).connected,
    {
        proof {
            use_type_invariant(&self.buf);
            let one = seq![received@];
            let p = old(self).pending();
            assert(one.drop_last() =~= Seq::<Seq<u8>>::empty());
            assert(one.last() == received@);
            assert(lines_of_reads(p, Seq::<Seq<u8>>::empty()) == (Seq::<Seq<char>>::empty(), p));
            if valid_utf8(received@) {
                let fr = feed_result(p, decode_utf8(received@));
                assert(Seq::<Seq<char>>::empty() + fr.0 =~= fr.0);
                assert(lines_of_reads(p, one) == fr);
                if received@.len() == 0 {
                    assert(decode_utf8(received@) =~= Seq::<char>::empty());
                    assert(fr == (Seq::<Seq<char>>::empty(), p));
                }
            }
        }
        if received.len() == 0 {
            let none: Vec<String> = Vec::new();
            assert(none.deep_view() =~= Seq::<Seq<char>>::empty());
            return none;
        }
        let text = decode_lossy(received);
        self.buf.feed(text.as_str())
    }

    /// Takes in the ports `new_ports` that a scan found. A disconnected link
    /// meant to reconnect by itself chooses the port to try (see
    /// `scan_candidate`) and returns it; the found ports replace the known ones.
    pub fn apply_port_scan(&mut self, new_ports: Vec<String>) -> (to_connect: Option<String>)
        ensures
            match to_connect {
                Some(p) => scan_choice(
                    old(self).connected,
                    old(self).intent,
                    old(self).available_ports.deep_view(),
                    new_ports.deep_view(),
                ) == Some(p@) && final(self).port_name@ == p@,
                None => scan_choice(
                    old(self).connected,
                    old(self).intent,
                    old(self).available_ports.deep_view(),
                    new_ports.deep_view(),
                ) is None && final(self).port_name == old(self).port_name,
            },
            old(self).connected ==> to_connect is None && final(self).port_name == old(
                self,
            ).port_name,
            old(self).intent == ConnectionIntent::ManuallyDisconnected ==> to_connect is None,
            to_connect matches Some(p) ==> new_ports.deep_view().contains(p@),
            to_connect matches Some(p) ==> exists|i: int|
                0 <= i < new_ports@.len() && new_ports.deep_view()[i] == p@ && (forall|j: int|
                    0 <= j < i ==> old(self).available_ports.deep_view().contains(
                        #[trigger] new_ports.deep_view()[j],
                    )) && (!old(self).available_ports.deep_view().contains(p@) || forall|j: int|
                    0 <= j < new_ports@.len() ==> old(self).available_ports.deep_view().contains(
                        #[trigger] new_ports.deep_view()[j],
                    )),
            !old(self).connected && old(self).intent == ConnectionIntent::AutoConnect
                && new_ports@.len() > 0 && (forall|i: int|
                0 <= i < new_ports@.len() ==> old(self).available_ports.deep_view().contains(
                    #[trigger] new_ports.deep_view()[i],
                )) ==> (to_connect matches Some(p) && p@ == new_ports.deep_view()[0]),
            final(self).available_ports == new_ports,
            final(self).intent == old(self).intent,
            final(self).connected == old(self).connected,
            final(self).pending() == old(self).pending(),
    {
        proof {
            let o = self.available_ports.deep_view();
            let n = new_ports.deep_view();
            lemma_connected_link_picks_nothing(self.intent, o, n);
            lemma_manual_disconnect_holds(self.connected, o, n);
            lemma_lost_link_reconnects(o, n);
            lemma_pick_is_first_new_or_first(o, n);
            if n.len() > 0 && (forall|i: int| 0 <= i < n.len() ==> o.contains(#[trigger] n[i])) {
                lemma_no_new_port_takes_first(o, n);
            }
        }
        let choice: Option<String> = if !self.connected && self.intent
            == ConnectionIntent::AutoConnect {
            pick_candidate(&self.available_ports, &new_ports)
        } else {
            None
        };
        match &choice {
            Some(p) => {
                self.port_name = p.clone();
            },
            None => {},
        }
        self.available_ports = new_ports;
        choice
    }

    /// The operator asks to connect: granted when a port has been chosen,
    /// and then the link reconnects by itself again. Returns whether to open
    /// the port.
    pub fn request_connect(&mut self) -> (go: bool)
        ensures
            go == (old(self).port_name@.len() > 0),
            final(self).intent == if go {
                ConnectionIntent::AutoConnect
            } else {
                old(self).intent
            },
            final(self).connected == old(self).connected,
            final(self).port_name == old(self).port_name,
            final(self).available_ports == old(self).available_ports,
            final(self).pending() == old(self).pending(),
    {
        let go = !self.port_name.as_str().is_empty();
        if go {
            self.intent = ConnectionIntent::AutoConnect;
        }
        go
    }

    /// The operator disconnects: the link stays disconnected until the
    /// operator connects again.
    pub fn request_disconnect(&mut self, log: &mut VecDeque<String>)
        ensures
            !final(self).connected,
            final(self).intent == ConnectionIntent::ManuallyDisconnected,
            final(self).port_name == old(self).port_name,
            final(self).available_ports == old(self).available_ports,
            final(self).pending() == old(self).pending(),
            final(log).deep_view() == log_after_push(old(log).deep_view(), disconnected_message()),
    {
        self.intent = ConnectionIntent::ManuallyDisconnected;
        self.disconnect(log);
    }

    /// The label of the link's state: `ONLINE` or `OFFLINE`.
    pub fn status_label(&self) -> (label: String)
        ensures
            label@ == if self.connected {
                online_label()
            } else {
                offline_label()
            },
    {
        if self.connected {
            let cs = vec!['O', 'N', 'L', 'I', 'N', 'E'];
            assert(cs@ =~= online_label());
            message(cs)
        } else {
            let cs = vec!['O', 'F', 'F', 'L', 'I', 'N', 'E'];
            assert(cs@ =~= offline_label());
            message(cs)
        }
    }

    /// The label of the port choice: the chosen port, or `Select...` when
    /// none is chosen.
    pub fn port_label(&self) -> (label: String)
        ensures
            label@ == if self.port_name@.len() == 0 {
                select_label()
            } else {
                self.port_name@
            },
    {
        if self.port_name.as_str().is_empty() {
            let cs = vec!['S', 'e', 'l', 'e', 'c', 't', '.', '.', '.'];
            assert(cs@ =~= select_label());
            message(cs)
        } else {
            self.port_name.clone()
        }
    }

    /// Whether the next status query is due, `since_last_ping` nanoseconds
    /// after the last one.
    pub fn ping_due(&self, since_last_ping: u128) -> (due: bool)
        ensures
            due == (self.connected && since_last_ping > PING_PERIOD_NANOS),
    {
        self.connected && since_last_ping > PING_PERIOD_NANOS
    }

    /// Whether the next health check is due, `since_last_check` nanoseconds
    /// after the last one.
    pub fn health_check_due(&self, since_last_check: u128) -> (due: bool)
        ensures
            due == (self.connected && since_last_check > HEALTH_CHECK_PERIOD_NANOS),
    {
        self.connected && since_last_check > HEALTH_CHECK_PERIOD_NANOS
    }

    /// Records the outcome of a health check: a port that is no longer alive
    /// means the link broke. Returns whether the motor's state must be reset.
    pub fn health_check(&mut self, alive: bool, log: &mut VecDeque<String>) -> (reset_motor: bool)
        ensures
            reset_motor == !alive,
            !alive ==> !final(self).connected && final(self).intent
                == ConnectionIntent::AutoConnect && final(log).deep_view() == log_after_push(
                old(log).deep_view(),
                lost_message(),
            ),
            alive ==> final(self).connected == old(self).connected && final(self).intent
                == old(self).intent && final(log).deep_view() == old(log).deep_view(),
            final(self).port_name == old(self).port_name,
            final(self).available_ports == old(self).available_ports,
            final(self).pending() == old(self).pending(),
    {
        if !alive {
            self.mark_disconnected(log);
        }
        !alive
    }
}

/// A link that the operator disconnected never picks a port by itself.
pub proof fn lemma_manual_disconnect_holds(
    connected: bool,
    old: Seq<Seq<char>>,
    new: Seq<Seq<char>>,
)
    ensures
        scan_choice(connected, ConnectionIntent::ManuallyDisconnected, old, new) is None,
{
}

/// A lost link, meant to reconnect by itself, picks a port exactly when a
/// scan finds one, and picks one of the ports found.
pub proof fn lemma_lost_link_reconnects(old: Seq<Seq<char>>, new: Seq<Seq<char>>)
    ensures
        scan_choice(false, ConnectionIntent::AutoConnect, old, new) is Some <==> new.len() > 0,
        scan_choice(false, ConnectionIntent::AutoConnect, old, new) matches Some(p)
            ==> new.contains(p),
{
    lemma_first_new_port(old, new);
    if new.len() > 0 {
        assert(new.contains(new[0]));
    }
}

/// A port that appeared since the last scan is preferred: the pick is then
/// one that was not there before, and no earlier port in the scan is new.
pub proof fn lemma_new_port_preferred(old: Seq<Seq<char>>, new: Seq<Seq<char>>, k: int)
    requires
        0 <= k < new.len(),
        !old.contains(new[k]),
    ensures
        scan_candidate(old, new) matches Some(p) && !old.contains(p) && exists|i: int|
            0 <= i <= k && new[i] == p && forall|j: int| 0 <= j < i ==> old.contains(
                #[trigger] new[j],
            ),
    decreases k,
{
    lemma_first_new_port(old, new);
    if !old.contains(new[0]) {
        assert(new[0] == new[0]);
    } else {
        let rest = new.drop_first();
        assert(rest[k - 1] == new[k]);
        lemma_new_port_preferred(old, rest, k - 1);
        let p = scan_candidate(old, rest)->0;
        let i = choose|i: int|
            0 <= i <= k - 1 && rest[i] == p && forall|j: int| 0 <= j < i ==> old.contains(
                #[trigger] rest[j],
            );
        assert(new[i + 1] == p);
        assert forall|j: int| 0 <= j < i + 1 implies old.contains(#[trigger] new[j]) by {
            if j > 0 {
                assert(new[j] == rest[j - 1]);
            }
        }
    }
}

/// Where `first_new_port` stops: at the first port of the scan that is not
/// known, with every earlier one known; or, finding none, every port known.
proof fn lemma_first_new_port_index(old: Seq<Seq<char>>, new: Seq<Seq<char>>)
    ensures
        first_new_port(old, new) matches Some(p) ==> exists|i: int|
            0 <= i < new.len() && new[i] == p && !old.contains(p) && forall|j: int|
                0 <= j < i ==> old.contains(#[trigger] new[j]),
        first_new_port(old, new) is None ==> forall|j: int|
            0 <= j < new.len() ==> old.contains(#[trigger] new[j]),
    decreases new.len(),
{
    if new.len() > 0 {
        if !old.contains(new[0]) {
            assert(new[0] == new[0]);
        } else {
            let rest = new.drop_first();
            lemma_first_new_port_index(old, rest);
            if first_new_port(old, rest) is Some {
                let p = first_new_port(old, rest)->0;
                let i = choose|i: int|
                    0 <= i < rest.len() && rest[i] == p && !old.contains(p) && forall|j: int|
                        0 <= j < i ==> old.contains(#[trigger] rest[j]);
                assert(new[i + 1] == p);
                assert forall|j: int| 0 <= j < i + 1 implies old.contains(#[trigger] new[j]) by {
                    if j > 0 {
                        assert(new[j] == rest[j - 1]);
                    }
                }
            } else {
                assert forall|j: int| 0 <= j < new.len() implies old.contains(#[trigger] new[j]) by {
                    if j > 0 {
                        assert(new[j] == rest[j - 1]);
                    }
                }
            }
        }
    }
}

/// The port a scan picks is the first port of the scan that was not known
/// before, or, when every port found was known, the first port found; a
/// scan that finds no port picks none.
pub proof fn lemma_pick_is_first_new_or_first(old: Seq<Seq<char>>, new: Seq<Seq<char>>)
    ensures
        scan_candidate(old, new) is None <==> new.len() == 0,
        scan_candidate(old, new) matches Some(p) ==> exists|i: int|
            0 <= i < new.len() && new[i] == p && (forall|j: int|
                0 <= j < i ==> old.contains(#[trigger] new[j])) && (!old.contains(p) || forall|j: int|
                0 <= j < new.len() ==> old.contains(#[trigger] new[j])),
{
    lemma_first_new_port_index(old, new);
    if first_new_port(old, new) is None && new.len() > 0 {
        assert(new[0] == new[0]);
    }
}

/// A connected link never chooses a port on a scan, whatever it intends and
/// whatever the scan finds.
pub proof fn lemma_connected_link_picks_nothing(
    intent: ConnectionIntent,
    old: Seq<Seq<char>>,
    new: Seq<Seq<char>>,
)
    ensures
        scan_choice(true, intent, old, new) is None,
{
}

/// When a scan finds ports but none that was not known before, the pick is
/// the first port of the scan.
pub proof fn lemma_no_new_port_takes_first(old: Seq<Seq<char>>, new: Seq<Seq<char>>)
    requires
        new.len() > 0,
        forall|i: int| 0 <= i < new.len() ==> old.contains(#[trigger] new[i]),
    ensures
        scan_candidate(old, new) == Some(new[0]),
{
    lemma_first_new_port(old, new);
    if first_new_port(old, new) is Some {
        let p = first_new_port(old, new)->0;
        let i = choose|i: int| 0 <= i < new.len() && new[i] == p;
        assert(old.contains(new[i]));
    }
}

/// What `first_new_port` reports is a port of the scan that is not known.
proof fn lemma_first_new_port(old: Seq<Seq<char>>, new: Seq<Seq<char>>)
    ensures
        first_new_port(old, new) matches Some(p) ==> new.contains(p) && !old.contains(p),
    decreases new.len(),
{
    if new.len() > 0 && old.contains(new[0]) {
        lemma_first_new_port(old, new.drop_first());
        if first_new_port(old, new) is Some {
            let p = first_new_port(old, new)->0;
            let i = choose|i: int| 0 <= i < new.drop_first().len() && new.drop_first()[i] == p;
            assert(new[i + 1] == p);
        }
    } else if new.len() > 0 {
        assert(new[0] == new[0]);
    }
}

/// A command framed for the wire, sent as the UTF-8 bytes of its text and
/// read back by a link with no partial line, comes out as exactly that
/// command, when the command is non-empty, holds no line feed and has no
/// white space at its ends.
pub proof fn lemma_framed_command_reads_back(cmd: Seq<char>)
    requires
        cmd.len() > 0,
        !cmd.contains('\n'),
        trim(cmd) == cmd,
    ensures
        feed_result(Seq::empty(), decode_utf8(encode_utf8(framed(cmd)))) == (
            seq![cmd],
            Seq::<char>::empty(),
        ),
{
    encode_utf8_decode_utf8(framed(cmd));
    lemma_line_comes_back(cmd);
}

/// The bytes of the reads `chunks`, one after the other.
pub open spec fn joined(chunks: Seq<Seq<u8>>) -> Seq<u8>
    decreases chunks.len(),
{
    if chunks.len() == 0 {
        Seq::empty()
    } else {
        joined(chunks.drop_last()) + chunks.last()
    }
}

/// What successive calls of `poll` on the reads `chunks` (each valid UTF-8)
/// return, one call's lines after the other's, and the partial line left,
/// starting from the partial line `pending`: each call as its contract gives it.
pub open spec fn lines_of_reads(pending: Seq<char>, chunks: Seq<Seq<u8>>) -> SplitState
    decreases chunks.len(),
{
    if chunks.len() == 0 {
        (Seq::empty(), pending)
    } else {
        let before = lines_of_reads(pending, chunks.drop_last());
        let last = feed_result(before.1, decode_utf8(chunks.last()));
        (before.0 + last.0, last.1)
    }
}

/// Encoding two texts one after the other gives the two encodings one after
/// the other.
proof fn lemma_encode_concat(a: Seq<char>, b: Seq<char>)
    ensures
        encode_utf8(a + b) == encode_utf8(a) + encode_utf8(b),
    decreases a.len(),
{
    if a.len() == 0 {
        assert(a + b =~= b);
        assert(Seq::<u8>::empty() + encode_utf8(b) =~= encode_utf8(b));
    } else {
        assert((a + b).drop_first() =~= a.drop_first() + b);
        assert((a + b)[0] == a[0]);
        lemma_encode_concat(a.drop_first(), b);
        assert(encode_utf8(a + b) =~= encode_utf8(a) + encode_utf8(b));
    }
}

/// Two valid UTF-8 byte strings, one after the other, decode to their two
/// decodings one after the other.
proof fn lemma_decode_concat(a: Seq<u8>, b: Seq<u8>)
    requires
        valid_utf8(a),
        valid_utf8(b),
    ensures
        valid_utf8(a + b),
        decode_utf8(a + b) == decode_utf8(a) + decode_utf8(b),
{
    valid_utf8_concat(a, b);
    decode_utf8_encode_utf8(a);
    decode_utf8_encode_utf8(b);
    lemma_encode_concat(decode_utf8(a), decode_utf8(b));
    encode_utf8_decode_utf8(decode_utf8(a) + decode_utf8(b));
}

/// Lines received over any number of reads, each of them valid UTF-8, are
/// split as if all the bytes had arrived in one read: every line that ends in
/// a line feed is returned once, trimmed, in order, leaving out those that
/// hold nothing but white space, by the call that brings its line feed; the
/// text after the last line feed is kept for a later call.
pub proof fn lemma_reads_split_as_one_text(pending: Seq<char>, chunks: Seq<Seq<u8>>)
    requires
        forall|i: int| 0 <= i < chunks.len() ==> valid_utf8(#[trigger] chunks[i]),
    ensures
        valid_utf8(joined(chunks)),
        lines_of_reads(pending, chunks) == feed_result(pending, decode_utf8(joined(chunks))),
    decreases chunks.len(),
{
    if chunks.len() == 0 {
        assert(decode_utf8(Seq::<u8>::empty()) =~= Seq::<char>::empty());
        assert(feed_result(pending, Seq::<char>::empty()) == (Seq::<Seq<char>>::empty(), pending));
    } else {
        let front = chunks.drop_last();
        assert forall|i: int| 0 <= i < front.len() implies valid_utf8(#[trigger] front[i]) by {
            assert(front[i] == chunks[i]);
        }
        lemma_reads_split_as_one_text(pending, front);
        assert(valid_utf8(chunks.last())) by {
            assert(chunks[chunks.len() - 1] == chunks.last());
        }
        lemma_decode_concat(joined(front), chunks.last());
        lemma_feed_in_pieces(pending, decode_utf8(joined(front)), decode_utf8(chunks.last()));
    }
}

} // verus!
