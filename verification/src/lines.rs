use vstd::prelude::*;

verus! {

/// The line terminator byte (`\n`).
pub const LINE_TERMINATOR: u8 = 10;

/// How many terminator bytes the data holds.
pub open spec fn newline_count(data: Seq<u8>) -> int
    decreases data.len(),
{
    if data.len() == 0 {
        0
    } else {
        newline_count(data.drop_last()) + if data.last() == LINE_TERMINATOR {
            1int
        } else {
            0int
        }
    }
}

/// The number of lines in the data: one per terminator byte, plus one for a
/// trailing unterminated run of bytes at the end.
pub open spec fn line_count(data: Seq<u8>) -> int {
    newline_count(data) + if data.len() > 0 && data.last() != LINE_TERMINATOR {
        1int
    } else {
        0int
    }
}

pub proof fn lemma_newline_count_le_len(data: Seq<u8>)
    ensures
        0 <= newline_count(data) <= data.len(),
    decreases data.len(),
{
    if data.len() > 0 {
        lemma_newline_count_le_len(data.drop_last());
    }
}

/// Data ending exactly at a terminator has as many lines as terminators;
/// data with trailing unterminated content has one line more; empty data has
/// no lines.
pub proof fn lemma_line_count_terminators(data: Seq<u8>)
    ensures
        data.len() > 0 && data.last() == LINE_TERMINATOR ==> line_count(data) == newline_count(
            data,
        ),
        data.len() > 0 && data.last() != LINE_TERMINATOR ==> line_count(data) == newline_count(
            data,
        ) + 1,
        data.len() == 0 ==> line_count(data) == 0,
{
}

/// Streaming line counter: bytes are fed in arbitrary chunks and the final
/// count is read once the stream ends. Counts match `line_count` over the
/// concatenation of everything fed so far.
pub struct LineCounter {
    terminators: u64,
    pending: bool,
    history: Ghost<Seq<u8>>,
}

impl LineCounter {
    /// All bytes fed so far, in order.
    pub closed spec fn bytes(self) -> Seq<u8> {
        self.history@
    }

    pub closed spec fn wf(self) -> bool {
        &&& self.terminators == newline_count(self.history@)
        &&& self.pending == (self.history@.len() > 0 && self.history@.last() != LINE_TERMINATOR)
        &&& (self.pending ==> self.terminators < u64::MAX)
    }

    pub fn new() -> (r: LineCounter)
        ensures
            r.wf(),
            r.bytes() == Seq::<u8>::empty(),
    {
        LineCounter { terminators: 0, pending: false, history: Ghost(Seq::empty()) }
    }

    /// Account one more chunk of the stream.
    pub fn feed(&mut self, chunk: &[u8])
        requires
            old(self).wf(),
            old(self).bytes().len() + chunk@.len() <= u64::MAX,
        ensures
            final(self).wf(),
            final(self).bytes() == old(self).bytes() + chunk@,
    {
        proof {
            lemma_newline_count_le_len(self.history@);
        }
        let mut i: usize = 0;
        while i < chunk.len()
            invariant
                i <= chunk@.len(),
                self.wf(),
                self.history@ == old(self).bytes() + chunk@.subrange(0, i as int),
                self.history@.len() == old(self).bytes().len() + i,
                old(self).bytes().len() + chunk@.len() <= u64::MAX,
                newline_count(self.history@) >= newline_count(old(self).bytes()),
            decreases chunk@.len() - i,
        {
            let b = chunk[i];
            proof {
                let h = self.history@;
                assert(h.push(b).drop_last() == h);
                lemma_newline_count_le_len(h);
                assert(newline_count(h) <= old(self).bytes().len() + i);
            }
            if b == LINE_TERMINATOR {
                self.terminators = self.terminators + 1;
                self.pending = false;
            } else {
                self.pending = true;
            }
            proof {
                self.history@ = self.history@.push(b);
                assert(self.history@ =~= old(self).bytes() + chunk@.subrange(0, i + 1));
            }
            i += 1;
        }
        proof {
            assert(chunk@.subrange(0, chunk@.len() as int) == chunk@);
        }
    }

    /// The number of lines in the bytes fed so far.
    pub fn finish(&self) -> (r: u64)
        requires
            self.wf(),
        ensures
            r == line_count(self.bytes()),
    {
        if self.pending {
            self.terminators + 1
        } else {
            self.terminators
        }
    }
}

/// Count the lines of a complete in-memory byte sequence.
pub fn count_lines_bytes(data: &[u8]) -> (r: u64)
    requires
        data@.len() <= u64::MAX,
    ensures
        r == line_count(data@),
{
    let mut counter = LineCounter::new();
    counter.feed(data);
    proof {
        assert(counter.bytes() =~= data@);
    }
    counter.finish()
}

} // verus!
