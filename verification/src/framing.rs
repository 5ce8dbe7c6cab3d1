//! The byte-stream framer: accumulates raw bytes into candidate protocol
//! lines. A line is flushed when a line feed arrives or when the buffer
//! reaches its capacity; a peer disconnect discards any partial line.

use vstd::prelude::*;

verus! {

/// One byte arriving at a framer with buffer `buf` and capacity `cap`:
/// the line flushed (if any) and the buffer afterwards. A line feed, or a
/// buffer grown to capacity, flushes the accumulated bytes including the
/// byte just pushed.
pub open spec fn frame_step(buf: Seq<u8>, c: u8, cap: int) -> (Option<Seq<u8>>, Seq<u8>) {
    if c == 10 || buf.len() + 1 == cap {
        (Some(buf.push(c)), Seq::<u8>::empty())
    } else {
        (None, buf.push(c))
    }
}

/// Every line flushed while feeding `chunk` byte by byte, and the buffer
/// left at the end.
pub open spec fn frame_feed(buf: Seq<u8>, chunk: Seq<u8>, cap: int) -> (Seq<Seq<u8>>, Seq<u8>)
    decreases chunk.len(),
{
    if chunk.len() == 0 {
        (Seq::<Seq<u8>>::empty(), buf)
    } else {
        let stepped = frame_step(buf, chunk[0], cap);
        let rest = frame_feed(stepped.1, chunk.skip(1), cap);
        match stepped.0 {
            Some(l) => (seq![l] + rest.0, rest.1),
            None => rest,
        }
    }
}

/// A byte that fills the buffer to capacity flushes the accumulated
/// bytes as a candidate line even without a terminator, and the buffer
/// restarts empty: later bytes begin a fresh line instead of bleeding
/// across the boundary.
pub proof fn lemma_overflow_flushes(buf: Seq<u8>, c: u8, cap: int)
    requires
        buf.len() + 1 == cap,
    ensures
        frame_step(buf, c, cap).0 == Some(buf.push(c)),
        frame_step(buf, c, cap).1 == Seq::<u8>::empty(),
{
}

/// The stateful framer: a fixed-capacity accumulation buffer.
pub struct FrameDecoder {
    buf: Vec<u8>,
    cap: usize,
}

impl FrameDecoder {
    /// The bytes accumulated so far.
    pub closed spec fn buffer(&self) -> Seq<u8> {
        self.buf@
    }

    /// The fixed flush threshold.
    pub closed spec fn capacity(&self) -> int {
        self.cap as int
    }

    /// The buffer always stays strictly below capacity: reaching it
    /// flushes.
    pub open spec fn wf(&self) -> bool {
        self.buffer().len() < self.capacity()
    }

    pub fn new(cap: usize) -> (r: FrameDecoder)
        requires
            cap >= 1,
        ensures
            r.wf(),
            r.buffer() == Seq::<u8>::empty(),
            r.capacity() == cap as int,
    {
        FrameDecoder { buf: Vec::new(), cap }
    }

    /// Accumulates one byte; hands back the flushed candidate line, if
    /// this byte completes one.
    pub fn push_byte(&mut self, c: u8) -> (r: Option<Vec<u8>>)
        requires
            old(self).wf(),
        ensures
            final(self).wf(),
            final(self).capacity() == old(self).capacity(),
            match r {
                Some(l) => frame_step(old(self).buffer(), c, old(self).capacity()) == (
                    Some(l@),
                    final(self).buffer(),
                ),
                None => frame_step(old(self).buffer(), c, old(self).capacity()) == (
                    Option::<Seq<u8>>::None,
                    final(self).buffer(),
                ),
            },
    {
        self.buf.push(c);
        if c == 10 || self.buf.len() == self.cap {
            let mut line: Vec<u8> = Vec::new();
            core::mem::swap(&mut line, &mut self.buf);
            Some(line)
        } else {
            None
        }
    }

    /// Feeds a whole chunk of raw bytes, collecting every candidate line
    /// it completes, in order.
    pub fn feed(&mut self, chunk: &[u8]) -> (lines: Vec<Vec<u8>>)
        requires
            old(self).wf(),
        ensures
            final(self).wf(),
            final(self).capacity() == old(self).capacity(),
            frame_feed(old(self).buffer(), chunk@, old(self).capacity()) == (
                lines@.map_values(|l: Vec<u8>| l@),
                final(self).buffer(),
            ),
    {
        let n = chunk.len();
        let mut lines: Vec<Vec<u8>> = Vec::new();
        let mut i: usize = 0;
        proof {
            assert(chunk@.skip(0) =~= chunk@);
            assert(lines@.map_values(|l: Vec<u8>| l@) =~= Seq::<Seq<u8>>::empty());
            assert(lines@.map_values(|l: Vec<u8>| l@) + frame_feed(
                self.buffer(),
                chunk@,
                self.capacity(),
            ).0 =~= frame_feed(self.buffer(), chunk@, self.capacity()).0);
        }
        while i < n
            invariant
                0 <= i <= n,
                n == chunk@.len(),
                self.wf(),
                self.capacity() == old(self).capacity(),
                frame_feed(old(self).buffer(), chunk@, old(self).capacity()) == {
                    let rest = frame_feed(self.buffer(), chunk@.skip(i as int), self.capacity());
                    (lines@.map_values(|l: Vec<u8>| l@) + rest.0, rest.1)
                },
            decreases n - i,
        {
            let ghost pre_lines = lines@.map_values(|l: Vec<u8>| l@);
            let ghost pre_buf = self.buffer();
            let ghost rem = chunk@.skip(i as int);
            let line = self.push_byte(chunk[i]);
            match line {
                Some(l) => {
                    lines.push(l);
                },
                None => {},
            }
            i += 1;
            proof {
                assert(rem[0] == chunk@[i - 1]);
                assert(rem.skip(1) =~= chunk@.skip(i as int));
                let stepped = frame_step(pre_buf, chunk@[i - 1], self.capacity());
                let rest = frame_feed(self.buffer(), chunk@.skip(i as int), self.capacity());
                assert(frame_feed(pre_buf, rem, self.capacity()) == (match stepped.0 {
                    Some(l) => (seq![l] + rest.0, rest.1),
                    None => rest,
                }));
                if stepped.0 is Some {
                    assert(lines@.map_values(|l: Vec<u8>| l@) =~= pre_lines + seq![
                        stepped.0.unwrap(),
                    ]);
                    assert(pre_lines + (seq![stepped.0.unwrap()] + rest.0) =~= (pre_lines + seq![
                        stepped.0.unwrap(),
                    ]) + rest.0);
                } else {
                    assert(lines@.map_values(|l: Vec<u8>| l@) == pre_lines);
                }
            }
        }
        proof {
            assert(chunk@.skip(n as int) =~= Seq::<u8>::empty());
            assert(lines@.map_values(|l: Vec<u8>| l@) + Seq::<Seq<u8>>::empty() =~= lines@.map_values(
                |l: Vec<u8>| l@,
            ));
        }
        lines
    }

    /// Discards any partial line, as on a peer disconnect.
    pub fn reset(&mut self)
        ensures
            final(self).wf() == (final(self).capacity() > 0),
            final(self).buffer() == Seq::<u8>::empty(),
            final(self).capacity() == old(self).capacity(),
    {
        self.buf.clear();
    }
}

} // verus!
