//! The byte handling of streams: the line buffer of an output backend, and a
//! pipe that carries bytes from a writer to a reader.
use std::collections::VecDeque;
use vstd::prelude::*;

verus! {

/// Line feed.
pub const NEWLINE: u8 = 0x0a;

/// Carriage return.
pub const CARRIAGE_RETURN: u8 = 0x0d;

/// The chunks one after another.
pub open spec fn concat_all(chunks: Seq<Seq<u8>>) -> Seq<u8>
    decreases chunks.len(),
{
    if chunks.len() == 0 {
        seq![]
    } else {
        concat_all(chunks.drop_last()) + chunks.last()
    }
}

/// A byte that ends a line on screen.
pub open spec fn ends_line(b: u8) -> bool {
    b == NEWLINE || b == CARRIAGE_RETURN
}

/// Some byte of `s` ends a line.
pub open spec fn has_line_end(s: Seq<u8>) -> bool {
    exists|i: int| 0 <= i < s.len() && ends_line(#[trigger] s[i])
}

/// The bytes a line buffer hands out, none when it hands out nothing.
pub open spec fn emitted(r: Option<Vec<u8>>) -> Seq<u8> {
    match r {
        Some(v) => v@,
        None => Seq::<u8>::empty(),
    }
}

/// Bytes held back until a line ends or a flush is asked for.
pub struct LineBuffer {
    pending: Vec<u8>,
}

impl LineBuffer {
    /// The bytes held back.
    pub closed spec fn held(&self) -> Seq<u8> {
        self.pending@
    }

    /// An empty buffer.
    pub fn new() -> (r: LineBuffer)
        ensures
            r.held() == Seq::<u8>::empty(),
    {
        LineBuffer { pending: Vec::new() }
    }

    /// Take `bytes`. If one of them ends a line, everything held so far and
    /// all of `bytes` are to be written now; otherwise they are held.
    pub fn push(&mut self, bytes: &[u8]) -> (r: Option<Vec<u8>>)
        ensures
            has_line_end(bytes@) ==> r is Some && r->0@ == old(self).held() + bytes@ && final(self).held()
                == Seq::<u8>::empty(),
            !has_line_end(bytes@) ==> r is None && final(self).held() == old(self).held() + bytes@,
            emitted(r) + final(self).held() == old(self).held() + bytes@,
    {
        let ghost h0 = self.pending@;
        let mut flush = false;
        let mut i: usize = 0;
        while i < bytes.len()
            invariant
                i <= bytes@.len(),
                self.pending@ == h0 + bytes@.subrange(0, i as int),
                flush == has_line_end(bytes@.subrange(0, i as int)),
            decreases bytes@.len() - i,
        {
            let b = bytes[i];
            self.pending.push(b);
            proof {
                let p = bytes@.subrange(0, i as int);
                let q = bytes@.subrange(0, i + 1);
                assert(q =~= p.push(b));
                if has_line_end(p) {
                    let j = choose|j: int| 0 <= j < p.len() && ends_line(#[trigger] p[j]);
                    assert(q[j] == p[j]);
                }
                if ends_line(b) {
                    assert(q[i as int] == b);
                }
                if has_line_end(q) && !ends_line(b) {
                    let j = choose|j: int| 0 <= j < q.len() && ends_line(#[trigger] q[j]);
                    assert(p[j] == q[j]);
                }
            }
            if b == NEWLINE || b == CARRIAGE_RETURN {
                flush = true;
            }
            i = i + 1;
            assert(self.pending@ =~= h0 + bytes@.subrange(0, i as int));
        }
        assert(bytes@.subrange(0, i as int) =~= bytes@);
        if flush {
            let mut out: Vec<u8> = Vec::new();
            std::mem::swap(&mut out, &mut self.pending);
            Some(out)
        } else {
            None
        }
    }

    /// Everything held, if anything: it is to be written now.
    pub fn flush(&mut self) -> (r: Option<Vec<u8>>)
        ensures
            old(self).held().len() > 0 ==> r is Some && r->0@ == old(self).held(),
            old(self).held().len() == 0 ==> r is None,
            final(self).held() == Seq::<u8>::empty(),
            emitted(r) + final(self).held() == old(self).held(),
    {
        if self.pending.len() > 0 {
            let mut out: Vec<u8> = Vec::new();
            std::mem::swap(&mut out, &mut self.pending);
            Some(out)
        } else {
            assert(self.pending@ =~= Seq::<u8>::empty());
            None
        }
    }
}

/// What a read from a pipe found.
#[derive(Clone, Debug, PartialEq, Eq)]
pub enum LineRead {
    /// A line, without its line feed.
    Line(Vec<u8>),
    /// No whole line yet, and the writer is still open.
    Pending,
    /// The writer has shut down and everything has been read.
    End,
}

/// The first line feed in `s`.
pub open spec fn newline_at(s: Seq<u8>) -> Option<int>
    decreases s.len(),
{
    if s.len() == 0 {
        None
    } else if s[0] == NEWLINE {
        Some(0)
    } else {
        match newline_at(s.drop_first()) {
            Some(k) => Some(k + 1),
            None => None,
        }
    }
}

proof fn lemma_newline_at(s: Seq<u8>, k: int)
    requires
        0 <= k <= s.len(),
        forall|j: int| 0 <= j < k ==> s[j] != NEWLINE,
    ensures
        k < s.len() && s[k] == NEWLINE ==> newline_at(s) == Some(k),
        k == s.len() ==> newline_at(s) is None,
    decreases k,
{
    if k > 0 {
        let t = s.drop_first();
        assert forall|j: int| 0 <= j < k - 1 implies t[j] != NEWLINE by {
            assert(t[j] == s[j + 1]);
        }
        lemma_newline_at(t, k - 1);
    }
}

/// A pipe: what the writer sends passes its line buffer and then waits,
/// in order, for the reader.
pub struct Pipe {
    buffer: LineBuffer,
    channel: VecDeque<u8>,
    closed: bool,
}

impl Pipe {
    /// Bytes the writer has sent that the reader has not taken, in order.
    pub closed spec fn unread(&self) -> Seq<u8> {
        self.channel@
    }

    /// Bytes in the writer's line buffer.
    pub closed spec fn held(&self) -> Seq<u8> {
        self.buffer.held()
    }

    /// Whether the writer has shut down.
    pub closed spec fn is_closed(&self) -> bool {
        self.closed
    }

    /// A pipe with nothing in it.
    pub fn new() -> (r: Pipe)
        ensures
            r.unread() == Seq::<u8>::empty(),
            r.held() == Seq::<u8>::empty(),
            !r.is_closed(),
    {
        Pipe { buffer: LineBuffer::new(), channel: VecDeque::new(), closed: false }
    }

    fn deliver(&mut self, out: Option<Vec<u8>>)
        ensures
            final(self).buffer == old(self).buffer,
            final(self).closed == old(self).closed,
            final(self).channel@ == old(self).channel@ + match out {
                Some(v) => v@,
                None => Seq::<u8>::empty(),
            },
    {
        match out {
            Some(v) => {
                let mut i: usize = 0;
                let ghost c0 = self.channel@;
                while i < v.len()
                    invariant
                        i <= v@.len(),
                        self.channel@ == c0 + v@.subrange(0, i as int),
                        self.buffer == old(self).buffer,
                        self.closed == old(self).closed,
                    decreases v@.len() - i,
                {
                    self.channel.push_back(v[i]);
                    i = i + 1;
                    assert(self.channel@ =~= c0 + v@.subrange(0, i as int));
                }
                assert(v@.subrange(0, i as int) =~= v@);
            },
            None => {
                assert(self.channel@ =~= self.channel@ + Seq::<u8>::empty());
            },
        }
    }

    /// The writer sends `bytes`; writing after shutdown is a broken pipe.
    pub fn write(&mut self, bytes: &[u8]) -> (r: Result<(), ()>)
        ensures
            old(self).is_closed() ==> r is Err && *final(self) == *old(self),
            !old(self).is_closed() ==> r is Ok && !final(self).is_closed() && final(self).unread()
                + final(self).held() == old(self).unread() + old(self).held() + bytes@,
            !old(self).is_closed() && has_line_end(bytes@) ==> final(self).unread() == old(self).unread()
                + old(self).held() + bytes@ && final(self).held() == Seq::<u8>::empty(),
            !old(self).is_closed() && !has_line_end(bytes@) ==> final(self).unread() == old(self).unread()
                && final(self).held() == old(self).held() + bytes@,
    {
        if self.closed {
            return Err(());
        }
        let out = self.buffer.push(bytes);
        self.deliver(out);
        Ok(())
    }

    /// The writer flushes its line buffer into the pipe.
    pub fn flush(&mut self)
        ensures
            final(self).unread() == old(self).unread() + old(self).held(),
            final(self).held() == Seq::<u8>::empty(),
            final(self).is_closed() == old(self).is_closed(),
    {
        let out = self.buffer.flush();
        self.deliver(out);
    }

    /// The writer shuts down: what it held goes into the pipe, and the
    /// reader sees the end once it has read everything.
    pub fn shutdown(&mut self)
        ensures
            final(self).unread() == old(self).unread() + old(self).held(),
            final(self).held() == Seq::<u8>::empty(),
            final(self).is_closed(),
    {
        self.flush();
        self.closed = true;
    }

    /// The reader takes one byte: `Some` while bytes wait, `None` when there
    /// are none (the end, once the writer has shut down).
    pub fn read_byte(&mut self) -> (r: Option<u8>)
        ensures
            old(self).unread().len() > 0 ==> r == Some(old(self).unread()[0]) && final(self).unread()
                == old(self).unread().drop_first(),
            old(self).unread().len() == 0 ==> r is None && final(self).unread() == old(self).unread(),
            final(self).held() == old(self).held(),
            final(self).is_closed() == old(self).is_closed(),
    {
        self.channel.pop_front()
    }

    /// The reader takes a line: the bytes up to the first line feed, which
    /// is dropped. Once the writer has shut down, a last line without a line
    /// feed is read whole, and after it the end.
    pub fn get_line(&mut self) -> (r: LineRead)
        ensures
            final(self).held() == old(self).held(),
            final(self).is_closed() == old(self).is_closed(),
            ({
                let u = old(self).unread();
                match newline_at(u) {
                    Some(k) => r is Line && r->Line_0@ == u.subrange(0, k) && final(self).unread() == u.subrange(
                        k + 1,
                        u.len() as int,
                    ),
                    None => if !old(self).is_closed() {
                        r == LineRead::Pending && final(self).unread() == u
                    } else if u.len() > 0 {
                        r is Line && r->Line_0@ == u && final(self).unread() == Seq::<u8>::empty()
                    } else {
                        r == LineRead::End && final(self).unread() == u
                    },
                }
            }),
    {
        let ghost u = self.channel@;
        let mut k: usize = 0;
        let n = self.channel.len();
        while k < n && self.channel[k] != NEWLINE
            invariant
                k <= n,
                n == u.len(),
                self.channel@ == u,
                self.buffer == old(self).buffer,
                self.closed == old(self).closed,
                forall|j: int| 0 <= j < k ==> u[j] != NEWLINE,
            decreases n - k,
        {
            k = k + 1;
        }
        proof {
            lemma_newline_at(u, k as int);
        }
        if k == n && !self.closed {
            return LineRead::Pending;
        }
        if k == n && n == 0 {
            return LineRead::End;
        }
        let mut line: Vec<u8> = Vec::new();
        let mut i: usize = 0;
        while i < k
            invariant
                i <= k,
                k <= n,
                n == u.len(),
                line@ == u.subrange(0, i as int),
                self.channel@ == u.subrange(i as int, u.len() as int),
                self.buffer == old(self).buffer,
                self.closed == old(self).closed,
            decreases k - i,
        {
            let b = self.channel.pop_front().unwrap();
            line.push(b);
            i = i + 1;
            assert(line@ =~= u.subrange(0, i as int));
            assert(self.channel@ =~= u.subrange(i as int, u.len() as int));
        }
        if k < n {
            self.channel.pop_front();
            assert(self.channel@ =~= u.subrange(k + 1, u.len() as int));
        } else {
            assert(self.channel@ =~= Seq::<u8>::empty());
            assert(line@ =~= u);
        }
        LineRead::Line(line)
    }
}

/// Whatever the chunks the writer sends, once it has shut down the reader
/// finds exactly their bytes, in order. `sent[i]` is what the pipe holds
/// (unread, held back) after `i` writes, each as `Pipe::write` states it;
/// `done` is what the reader finds after `Pipe::shutdown`.
pub proof fn lemma_pipe_keeps_bytes(chunks: Seq<Seq<u8>>, sent: Seq<(Seq<u8>, Seq<u8>)>, done: Seq<u8>)
    requires
        sent.len() == chunks.len() + 1,
        sent[0].0 == Seq::<u8>::empty(),
        sent[0].1 == Seq::<u8>::empty(),
        forall|i: int|
            0 <= i < chunks.len() ==> #[trigger] sent[i + 1].0 + sent[i + 1].1 == sent[i].0 + sent[i].1
                + chunks[i],
        done == sent.last().0 + sent.last().1,
    ensures
        done == concat_all(chunks),
{
    lemma_sent_prefix(chunks, sent, chunks.len() as int);
    assert(chunks.subrange(0, chunks.len() as int) =~= chunks);
}

proof fn lemma_sent_prefix(chunks: Seq<Seq<u8>>, sent: Seq<(Seq<u8>, Seq<u8>)>, n: int)
    requires
        0 <= n <= chunks.len(),
        sent.len() == chunks.len() + 1,
        sent[0].0 == Seq::<u8>::empty(),
        sent[0].1 == Seq::<u8>::empty(),
        forall|i: int|
            0 <= i < chunks.len() ==> #[trigger] sent[i + 1].0 + sent[i + 1].1 == sent[i].0 + sent[i].1
                + chunks[i],
    ensures
        sent[n].0 + sent[n].1 == concat_all(chunks.subrange(0, n)),
    decreases n,
{
    if n == 0 {
        assert(sent[0].0 + sent[0].1 =~= Seq::<u8>::empty());
    } else {
        lemma_sent_prefix(chunks, sent, n - 1);
        let c = chunks.subrange(0, n);
        assert(c.drop_last() =~= chunks.subrange(0, n - 1));
        assert(sent[(n - 1) + 1].0 + sent[(n - 1) + 1].1 == sent[n - 1].0 + sent[n - 1].1 + chunks[n - 1]);
        assert(sent[n].0 + sent[n].1 =~= concat_all(c.drop_last()) + c.last());
    }
}

/// A line buffer hands out every byte it takes, once and in order: `held[i]`
/// is what it holds before step `i`, which takes `taken[i]` (nothing for a
/// flush) and hands out `given[i]`, each as `LineBuffer::push` and
/// `LineBuffer::flush` state it. After a last flush it holds nothing, so what
/// it gave is exactly what it took.
pub proof fn lemma_line_buffer_keeps_order(taken: Seq<Seq<u8>>, given: Seq<Seq<u8>>, held: Seq<Seq<u8>>)
    requires
        given.len() == taken.len(),
        held.len() == taken.len() + 1,
        held[0] == Seq::<u8>::empty(),
        forall|i: int| 0 <= i < taken.len() ==> #[trigger] given[i] + held[i + 1] == held[i] + taken[i],
    ensures
        concat_all(given) + held.last() == concat_all(taken),
        held.last() == Seq::<u8>::empty() ==> concat_all(given) == concat_all(taken),
{
    lemma_buffer_prefix(taken, given, held, taken.len() as int);
    assert(taken.subrange(0, taken.len() as int) =~= taken);
    assert(given.subrange(0, given.len() as int) =~= given);
    assert(concat_all(given) + Seq::<u8>::empty() =~= concat_all(given));
}

proof fn lemma_buffer_prefix(taken: Seq<Seq<u8>>, given: Seq<Seq<u8>>, held: Seq<Seq<u8>>, n: int)
    requires
        0 <= n <= taken.len(),
        given.len() == taken.len(),
        held.len() == taken.len() + 1,
        held[0] == Seq::<u8>::empty(),
        forall|i: int| 0 <= i < taken.len() ==> #[trigger] given[i] + held[i + 1] == held[i] + taken[i],
    ensures
        concat_all(given.subrange(0, n)) + held[n] == concat_all(taken.subrange(0, n)),
    decreases n,
{
    if n == 0 {
        assert(concat_all(given.subrange(0, 0)) + held[0] =~= Seq::<u8>::empty());
    } else {
        lemma_buffer_prefix(taken, given, held, n - 1);
        let g = given.subrange(0, n);
        let t = taken.subrange(0, n);
        assert(g.drop_last() =~= given.subrange(0, n - 1));
        assert(t.drop_last() =~= taken.subrange(0, n - 1));
        assert(given[(n - 1)] + held[(n - 1) + 1] == held[n - 1] + taken[n - 1]);
        let a = concat_all(given.subrange(0, n - 1));
        assert(concat_all(g) + held[n] =~= a + (given[n - 1] + held[n]));
        assert(a + (held[n - 1] + taken[n - 1]) =~= (a + held[n - 1]) + taken[n - 1]);
    }
}

} // verus!
