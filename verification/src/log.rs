//! The bounded message log shown to the operator.

use std::collections::VecDeque;
use vstd::prelude::*;

verus! {

/// The most entries that the message log keeps.
pub const LOG_CAPACITY: usize = 60;

/// The log `log` after appending `msg`: when the log then holds more than
/// `LOG_CAPACITY` entries, its oldest entry is dropped.
pub open spec fn log_after_push(log: Seq<Seq<char>>, msg: Seq<char>) -> Seq<Seq<char>> {
    let pushed = log.push(msg);
    if pushed.len() > LOG_CAPACITY {
        pushed.drop_first()
    } else {
        pushed
    }
}

/// Appends `msg` to the log, dropping the oldest entry once more than
/// `LOG_CAPACITY` entries would be kept.
pub fn push_log(log: &mut VecDeque<String>, msg: &str)
    ensures
        final(log).deep_view() == log_after_push(old(log).deep_view(), msg@),
{
    let entry: String = msg.to_owned();
    log.push_back(entry);
    if log.len() > LOG_CAPACITY {
        log.pop_front();
    }
    assert(log.deep_view() =~= log_after_push(old(log).deep_view(), msg@));
}

/// The log after appending each of `msgs` in turn.
pub open spec fn log_after_pushes(log: Seq<Seq<char>>, msgs: Seq<Seq<char>>) -> Seq<Seq<char>>
    decreases msgs.len(),
{
    if msgs.len() == 0 {
        log
    } else {
        log_after_push(log_after_pushes(log, msgs.drop_last()), msgs.last())
    }
}

/// A log that holds at most `LOG_CAPACITY` entries still does after a push,
/// and its newest entry is the message pushed.
pub proof fn lemma_push_keeps_bound(log: Seq<Seq<char>>, msg: Seq<char>)
    requires
        log.len() <= LOG_CAPACITY,
    ensures
        log_after_push(log, msg).len() <= LOG_CAPACITY,
        log_after_push(log, msg).len() > 0,
        log_after_push(log, msg).last() == msg,
{
}

/// A log that starts empty holds the last `LOG_CAPACITY` messages pushed onto
/// it (all of them while there are fewer), oldest first.
pub proof fn lemma_log_keeps_latest(msgs: Seq<Seq<char>>)
    ensures
        log_after_pushes(Seq::empty(), msgs) == if msgs.len() <= LOG_CAPACITY {
            msgs
        } else {
            msgs.subrange(msgs.len() - LOG_CAPACITY, msgs.len() as int)
        },
    decreases msgs.len(),
{
    if msgs.len() > 0 {
        let prev = msgs.drop_last();
        lemma_log_keeps_latest(prev);
        if prev.len() < LOG_CAPACITY {
            assert(prev.push(msgs.last()) =~= msgs);
        } else if prev.len() == LOG_CAPACITY {
            assert(prev.push(msgs.last()).drop_first() =~= msgs.subrange(
                msgs.len() - LOG_CAPACITY,
                msgs.len() as int,
            ));
        } else {
            assert(prev.subrange(prev.len() - LOG_CAPACITY, prev.len() as int).push(
                msgs.last(),
            ).drop_first() =~= msgs.subrange(msgs.len() - LOG_CAPACITY, msgs.len() as int));
        }
    }
}

} // verus!
