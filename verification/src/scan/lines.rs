//! Text-versus-binary classification and line counting over a file's bytes,
//! fed in chunks as the caller reads them.
//!
//! A NUL byte in the first 8 KiB marks a file binary: the cheap heuristic Git
//! and `grep` use, which is wrong on rare inputs (UTF-16 text reads as
//! binary). Lines are `\n` occurrences, plus one when the file is non-empty
//! and does not end in a newline; an empty file is text with zero lines.
use vstd::prelude::*;

verus! {

/// How much of a file's start is searched for a NUL byte.
pub const BINARY_SCAN_WINDOW: usize = 8192;

/// What reading a file's contents established.
#[derive(Debug, Clone, Copy, PartialEq, Eq)]
pub enum FileText {
    /// Read as text, with this many lines.
    Text { lines: u64 },
    /// A NUL byte in the first 8 KiB.
    Binary,
    /// The file could not be opened or read.
    Unreadable,
}

/// A NUL byte occurs within the first [`BINARY_SCAN_WINDOW`] bytes.
pub open spec fn nul_in_window(b: Seq<u8>) -> bool {
    exists|i: int| 0 <= i < b.len() && i < BINARY_SCAN_WINDOW && #[trigger] b[i] == 0
}

/// `\n` bytes in `b`.
pub open spec fn newline_count(b: Seq<u8>) -> nat
    decreases b.len(),
{
    if b.len() == 0 {
        0
    } else {
        newline_count(b.drop_last()) + if b.last() == 10 {
            1nat
        } else {
            0nat
        }
    }
}

/// Lines in `b`: newlines, plus one for a final line with no newline after it.
pub open spec fn line_count(b: Seq<u8>) -> nat {
    newline_count(b) + if b.len() > 0 && b.last() != 10 {
        1nat
    } else {
        0nat
    }
}

/// How a file with contents `b` is classified.
pub open spec fn classify(b: Seq<u8>) -> FileText {
    if nul_in_window(b) {
        FileText::Binary
    } else {
        FileText::Text { lines: line_count(b) as u64 }
    }
}

/// A file is binary exactly when a zero byte lies in its first 8 KiB: any
/// zero byte at an index below 8192 makes it binary, and a file with none
/// there is text, whatever follows.
pub proof fn binary_exactly_when_a_nul_is_in_the_first_8_kib(b: Seq<u8>)
    ensures
        (exists|i: int| 0 <= i < b.len() && i < 8192 && b[i] == 0) ==> classify(b) == FileText::Binary,
        (forall|i: int| 0 <= i < b.len() && i < 8192 ==> b[i] != 0) ==> classify(b) is Text,
{
    if exists|i: int| 0 <= i < b.len() && i < 8192 && b[i] == 0 {
        let i = choose|i: int| 0 <= i < b.len() && i < 8192 && b[i] == 0;
        assert(b[i] == 0);
    }
}

proof fn lemma_newline_count_concat(a: Seq<u8>, b: Seq<u8>)
    ensures
        newline_count(a + b) == newline_count(a) + newline_count(b),
    decreases b.len(),
{
    if b.len() == 0 {
        assert(a + b =~= a);
    } else {
        lemma_newline_count_concat(a, b.drop_last());
        assert((a + b).drop_last() =~= a + b.drop_last());
    }
}

/// Lines add up across a line break: text that ends in a newline followed
/// by more text has the lines of both; an empty file has none, and one
/// line with no newline counts as one.
pub proof fn lines_add_up_across_a_line_break(a: Seq<u8>, b: Seq<u8>)
    ensures
        a.len() > 0 && a.last() == 10 ==> line_count(a + b) == line_count(a) + line_count(b),
        line_count(Seq::<u8>::empty()) == 0,
        (forall|i: int| 0 <= i < a.len() ==> a[i] != 10) && a.len() > 0 ==> line_count(a) == 1,
        line_count(a.push(10)) == newline_count(a) + 1,
{
    lemma_newline_count_concat(a, b);
    if b.len() > 0 {
        assert((a + b).last() == b.last());
    } else {
        assert(a + b =~= a);
    }
    assert(a.push(10).drop_last() =~= a);
    if (forall|i: int| 0 <= i < a.len() ==> a[i] != 10) && a.len() > 0 {
        lemma_no_newlines(a);
    }
}

proof fn lemma_no_newlines(a: Seq<u8>)
    requires
        forall|i: int| 0 <= i < a.len() ==> a[i] != 10,
    ensures
        newline_count(a) == 0,
    decreases a.len(),
{
    if a.len() > 0 {
        assert(a.last() == a[a.len() - 1]);
        assert forall|i: int| 0 <= i < a.drop_last().len() implies a.drop_last()[i] != 10 by {
            assert(a.drop_last()[i] == a[i]);
        }
        lemma_no_newlines(a.drop_last());
    }
}

proof fn lemma_newline_count_bound(b: Seq<u8>)
    ensures
        newline_count(b) <= b.len(),
        line_count(b) <= b.len(),
    decreases b.len(),
{
    if b.len() > 0 {
        lemma_newline_count_bound(b.drop_last());
    }
}

/// Accumulates a file's classification as its bytes arrive.
pub struct LineCounter {
    seen_len: usize,
    newlines: u64,
    last_byte: Option<u8>,
    binary: bool,
    seen: Ghost<Seq<u8>>,
}

impl LineCounter {
    /// Every byte fed so far, in order.
    pub closed spec fn seen(&self) -> Seq<u8> {
        self.seen@
    }

    pub closed spec fn wf(&self) -> bool {
        &&& self.seen_len == self.seen@.len()
        &&& self.binary == nul_in_window(self.seen@)
        &&& !self.binary ==> self.newlines == newline_count(self.seen@)
        &&& self.last_byte == if self.seen@.len() > 0 {
            Some(self.seen@.last())
        } else {
            None
        }
    }

    pub fn new() -> (counter: Self)
        ensures
            counter.wf(),
            counter.seen() == Seq::<u8>::empty(),
    {
        LineCounter { seen_len: 0, newlines: 0, last_byte: None, binary: false, seen: Ghost(Seq::empty()) }
    }

    /// True once a NUL has been seen in the window: nothing more needs reading.
    pub fn is_binary(&self) -> (binary: bool)
        requires
            self.wf(),
        ensures
            binary == nul_in_window(self.seen()),
    {
        self.binary
    }

    /// How many bytes have been fed so far.
    pub fn bytes_seen(&self) -> (n: usize)
        requires
            self.wf(),
        ensures
            n == self.seen().len(),
    {
        self.seen_len
    }

    #[verifier::loop_isolation(false)]
    /// Takes the next chunk of the file. Returns whether reading should go on:
    /// false once the file is known to be binary.
    pub fn feed(&mut self, chunk: &[u8]) -> (more: bool)
        requires
            old(self).wf(),
            !nul_in_window(old(self).seen()),
            old(self).seen().len() + chunk@.len() <= usize::MAX,
        ensures
            final(self).wf(),
            final(self).seen() == old(self).seen() + chunk@,
            more == !nul_in_window(final(self).seen()),
    {
        let ghost before = self.seen@;
        assert(self.newlines == newline_count(before));
        assert(!self.binary);
        let n = chunk.len();
        let ghost after = before + chunk@;
        if self.seen_len < BINARY_SCAN_WINDOW {
            let window = if BINARY_SCAN_WINDOW - self.seen_len < n {
                BINARY_SCAN_WINDOW - self.seen_len
            } else {
                n
            };
            let mut i: usize = 0;
            while i < window
                invariant
                    i <= window <= n == chunk@.len(),
                    self.seen_len == before.len(),
                    before.len() + n <= usize::MAX,
                    after == before + chunk@,
                    window <= BINARY_SCAN_WINDOW - before.len(),
                    self.newlines == newline_count(before),
                    !self.binary,
                    self.seen@ == before,
                    self.last_byte == old(self).last_byte,
                    forall|j: int| 0 <= j < i ==> chunk@[j] != 0,
                decreases window - i,
            {
                if chunk[i] == 0 {
                    self.binary = true;
                    self.seen_len = self.seen_len + n;
                    self.seen = Ghost(after);
                    if n > 0 {
                        self.last_byte = Some(chunk[n - 1]);
                    }
                    proof {
                        assert(after[before.len() + i] == 0);
                        assert(nul_in_window(after));
                        if n > 0 {
                            assert(after.last() == chunk@[n - 1]);
                        }
                    }
                    return false;
                }
                i += 1;
            }
            proof {
                assert forall|j: int| 0 <= j < after.len() && j < BINARY_SCAN_WINDOW implies #[trigger] after[j] != 0 by {
                    if j >= before.len() {
                        assert(after[j] == chunk@[j - before.len()]);
                    } else {
                        assert(after[j] == before[j]);
                    }
                }
            }
        } else {
            proof {
                assert forall|j: int| 0 <= j < after.len() && j < BINARY_SCAN_WINDOW implies #[trigger] after[j] != 0 by {
                    assert(after[j] == before[j]);
                }
            }
        }
        assert(!nul_in_window(after));
        assert(self.newlines == newline_count(before));
        let mut k: usize = 0;
        let mut count = self.newlines;
        assert(before + chunk@.subrange(0, 0) =~= before);
        while k < n
            invariant
                k <= n == chunk@.len(),
                before.len() + n <= usize::MAX,
                count == newline_count(before + chunk@.subrange(0, k as int)),
            decreases n - k,
        {
            proof {
                assert((before + chunk@.subrange(0, k + 1)).drop_last() =~= before + chunk@.subrange(0, k as int));
                lemma_newline_count_bound(before + chunk@.subrange(0, k as int));
            }
            if chunk[k] == 10 {
                count = count + 1;
            }
            k += 1;
        }
        assert(chunk@.subrange(0, n as int) =~= chunk@);
        self.newlines = count;
        self.seen_len = self.seen_len + n;
        self.seen = Ghost(after);
        if n > 0 {
            self.last_byte = Some(chunk[n - 1]);
            assert(after.last() == chunk@[n - 1]);
        } else {
            assert(after =~= before);
        }
        true
    }

    /// The classification of everything fed so far.
    pub fn finish(&self) -> (text: FileText)
        requires
            self.wf(),
        ensures
            text == classify(self.seen()),
    {
        if self.binary {
            return FileText::Binary;
        }
        proof {
            lemma_newline_count_bound(self.seen@);
        }
        match self.last_byte {
            Some(last) => {
                if last != 10 {
                    FileText::Text { lines: self.newlines + 1 }
                } else {
                    FileText::Text { lines: self.newlines }
                }
            },
            None => FileText::Text { lines: self.newlines },
        }
    }
}

} // verus!
