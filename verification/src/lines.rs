//! Splitting the text that arrives from the serial link into lines.

use crate::text::{chars_of, string_from_chars, trim, trim_chars};
use vstd::prelude::*;

verus! {

/// The state of the splitter: the finished lines and the partial line.
pub type SplitState = (Seq<Seq<char>>, Seq<char>);

/// The splitter after reading the character `c`: a line feed ends the partial
/// line, which is kept, trimmed, when something other than white space is
/// left of it; any other character extends the partial line.
pub open spec fn split_step(st: SplitState, c: char) -> SplitState {
    if c == '\n' {
        let line = trim(st.1);
        (if line.len() > 0 {
            st.0.push(line)
        } else {
            st.0
        }, Seq::empty())
    } else {
        (st.0, st.1.push(c))
    }
}

/// The splitter after reading the text `t`, character by character.
pub open spec fn split_text(st: SplitState, t: Seq<char>) -> SplitState
    decreases t.len(),
{
    if t.len() == 0 {
        st
    } else {
        split_step(split_text(st, t.drop_last()), t.last())
    }
}

/// The lines finished, and the partial line left, when the text `t` arrives
/// after the partial line `pending`.
pub open spec fn feed_result(pending: Seq<char>, t: Seq<char>) -> SplitState {
    split_text((Seq::empty(), pending), t)
}

/// The partial line of a line buffer, which never holds a line feed.
pub struct LineBuffer {
    pending: Vec<char>,
}

impl View for LineBuffer {
    type V = Seq<char>;

    closed spec fn view(&self) -> Seq<char> {
        self.pending@
    }
}

impl LineBuffer {
    #[verifier::type_invariant]
    pub(crate) open spec fn no_line_feed(self) -> bool {
        !self@.contains('\n')
    }

    /// An empty line buffer.
    pub fn new() -> (b: LineBuffer)
        ensures
            b@ == Seq::<char>::empty(),
    {
        LineBuffer { pending: Vec::new() }
    }

    /// Takes in the text `text` and returns the lines that it completes,
    /// trimmed, leaving out those that hold nothing but white space.
    pub fn feed(&mut self, text: &str) -> (lines: Vec<String>)
        ensures
            lines.deep_view() == feed_result(old(self)@, text@).0,
            final(self)@ == feed_result(old(self)@, text@).1,
            !final(self)@.contains('\n'),
    {
        proof {
            use_type_invariant(&*self);
        }
        let t = chars_of(text);
        let mut pending: Vec<char> = Vec::new();
        std::mem::swap(&mut pending, &mut self.pending);
        let ghost start = pending@;
        let mut lines: Vec<String> = Vec::new();
        let mut i: usize = 0;
        assert(t@.subrange(0, 0) =~= Seq::<char>::empty());
        assert(lines.deep_view() =~= Seq::<Seq<char>>::empty());
        while i < t.len()
            invariant
                i <= t@.len(),
                t@ == text@,
                (lines.deep_view(), pending@) == split_text(
                    (Seq::empty(), start),
                    t@.subrange(0, i as int),
                ),
            decreases t@.len() - i,
        {
            let c = t[i];
            let ghost prefix = t@.subrange(0, i + 1);
            assert(prefix.drop_last() =~= t@.subrange(0, i as int));
            if c == '\n' {
                let line = trim_chars(pending.as_slice());
                if line.len() > 0 {
                    let s = string_from_chars(line.as_slice());
                    let ghost before = lines.deep_view();
                    lines.push(s);
                    assert(lines.deep_view() =~= before.push(line@));
                }
                pending = Vec::new();
            } else {
                pending.push(c);
            }
            i = i + 1;
        }
        assert(t@.subrange(0, t@.len() as int) =~= t@);
        proof {
            lemma_split_keeps_no_line_feed((Seq::empty(), start), t@);
        }
        self.pending = pending;
        lines
    }
}

/// A partial line without line feeds stays without them, whatever arrives.
pub proof fn lemma_split_keeps_no_line_feed(st: SplitState, t: Seq<char>)
    requires
        !st.1.contains('\n'),
    ensures
        !split_text(st, t).1.contains('\n'),
    decreases t.len(),
{
    if t.len() > 0 {
        lemma_split_keeps_no_line_feed(st, t.drop_last());
        let mid = split_text(st, t.drop_last());
        if t.last() != '\n' {
            assert forall|k: int| 0 <= k < mid.1.push(t.last()).len() implies mid.1.push(
                t.last(),
            )[k] != '\n' by {
                if k < mid.1.len() {
                    assert(mid.1.push(t.last())[k] == mid.1[k]);
                }
            }
        }
    }
}

/// Reading `a` and then `b` is reading `a + b`.
pub proof fn lemma_split_concat(st: SplitState, a: Seq<char>, b: Seq<char>)
    ensures
        split_text(st, a + b) == split_text(split_text(st, a), b),
    decreases b.len(),
{
    if b.len() == 0 {
        assert(a + b =~= a);
    } else {
        lemma_split_concat(st, a, b.drop_last());
        assert((a + b).drop_last() =~= a + b.drop_last());
        assert((a + b).last() == b.last());
    }
}

/// The lines finished before the text arrives stay in front of the lines that
/// it finishes, and do not change the partial line.
pub proof fn lemma_split_keeps_earlier_lines(done: Seq<Seq<char>>, p: Seq<char>, t: Seq<char>)
    ensures
        split_text((done, p), t) == (done + split_text((Seq::empty(), p), t).0, split_text(
            (Seq::empty(), p),
            t,
        ).1),
    decreases t.len(),
{
    if t.len() > 0 {
        lemma_split_keeps_earlier_lines(done, p, t.drop_last());
        let inner = split_text((Seq::empty(), p), t.drop_last());
        let line = trim(inner.1);
        if t.last() == '\n' && line.len() > 0 {
            assert((done + inner.0).push(line) =~= done + inner.0.push(line));
        }
    }
}

/// Text that arrives in two pieces is split as if it had arrived at once: the
/// lines of the first piece, then those of the second, and the same partial
/// line at the end.
pub proof fn lemma_feed_in_pieces(pending: Seq<char>, a: Seq<char>, b: Seq<char>)
    ensures
        feed_result(pending, a + b) == (feed_result(pending, a).0 + feed_result(
            feed_result(pending, a).1,
            b,
        ).0, feed_result(feed_result(pending, a).1, b).1),
{
    lemma_split_concat((Seq::empty(), pending), a, b);
    let mid = feed_result(pending, a);
    lemma_split_keeps_earlier_lines(mid.0, mid.1, b);
}

/// Text without line feeds only extends the partial line.
pub proof fn lemma_split_without_line_feed(st: SplitState, t: Seq<char>)
    requires
        !t.contains('\n'),
    ensures
        split_text(st, t) == (st.0, st.1 + t),
    decreases t.len(),
{
    if t.len() > 0 {
        assert(!t.drop_last().contains('\n')) by {
            if t.drop_last().contains('\n') {
                let k = choose|k: int| 0 <= k < t.drop_last().len() && t.drop_last()[k] == '\n';
                assert(t[k] == '\n');
            }
        }
        lemma_split_without_line_feed(st, t.drop_last());
        assert(t.last() != '\n') by {
            assert(t[t.len() - 1] == t.last());
        }
        assert((st.1 + t.drop_last()).push(t.last()) =~= st.1 + t);
    }
}

/// A line followed by a line feed, arriving at an empty buffer, comes out as
/// exactly that line, leaving the buffer empty, when the line is non-empty,
/// holds no line feed and has no white space at its ends.
pub proof fn lemma_line_comes_back(line: Seq<char>)
    requires
        line.len() > 0,
        !line.contains('\n'),
        trim(line) == line,
    ensures
        feed_result(Seq::empty(), line.push('\n')) == (seq![line], Seq::<char>::empty()),
{
    lemma_split_without_line_feed((Seq::empty(), Seq::empty()), line);
    assert(Seq::<char>::empty() + line =~= line);
    assert(line.push('\n').drop_last() =~= line);
    assert(Seq::<Seq<char>>::empty().push(line) =~= seq![line]);
}

} // verus!
