//! Newline-delimited line reassembly: byte chunks may arrive at arbitrary
//! boundaries, so a residual buffer carries a partial line from one chunk to
//! the next.

use vstd::prelude::*;

verus! {

/// The byte that separates records on the wire.
pub open spec fn is_newline(b: u8) -> bool {
    b == 10
}

/// Index of the first newline in `s`, or `s.len()` if there is none.
pub open spec fn first_nl(s: Seq<u8>) -> nat
    decreases s.len(),
{
    if s.len() == 0 {
        0
    } else if is_newline(s[0]) {
        0
    } else {
        1 + first_nl(s.subrange(1, s.len() as int))
    }
}

/// The complete lines in `s`, in order, each without its trailing newline.
pub open spec fn lines_of(s: Seq<u8>) -> Seq<Seq<u8>>
    decreases s.len(),
{
    let k = first_nl(s);
    if k < s.len() {
        seq![s.subrange(0, k as int)] + lines_of(s.subrange(k as int + 1, s.len() as int))
    } else {
        Seq::empty()
    }
}

/// The bytes after the last newline in `s`: a partial line still waiting for
/// its terminator.
pub open spec fn line_rest(s: Seq<u8>) -> Seq<u8>
    decreases s.len(),
{
    let k = first_nl(s);
    if k < s.len() {
        line_rest(s.subrange(k as int + 1, s.len() as int))
    } else {
        s
    }
}

pub proof fn lemma_first_nl_props(s: Seq<u8>)
    ensures
        first_nl(s) <= s.len(),
        first_nl(s) < s.len() ==> is_newline(s[first_nl(s) as int]),
        forall|j: int| 0 <= j < first_nl(s) ==> !is_newline(s[j]),
    decreases s.len(),
{
    if s.len() == 0 {
    } else if is_newline(s[0]) {
    } else {
        let t = s.subrange(1, s.len() as int);
        lemma_first_nl_props(t);
        if first_nl(s) < s.len() {
            assert(s[first_nl(s) as int] == t[first_nl(t) as int]);
        }
        assert forall|j: int| 0 <= j < first_nl(s) implies !is_newline(s[j]) by {
            if j > 0 {
                assert(s[j] == t[j - 1]);
            }
        }
    }
}

pub proof fn lemma_first_nl_at(s: Seq<u8>, k: int)
    requires
        0 <= k < s.len(),
        is_newline(s[k]),
        forall|j: int| 0 <= j < k ==> !is_newline(s[j]),
    ensures
        first_nl(s) == k,
    decreases s.len(),
{
    if k == 0 {
    } else {
        let t = s.subrange(1, s.len() as int);
        assert(t[k - 1] == s[k]);
        assert forall|j: int| 0 <= j < k - 1 implies !is_newline(t[j]) by {
            assert(t[j] == s[j + 1]);
        }
        lemma_first_nl_at(t, k - 1);
    }
}

/// Splits a byte stream into newline-terminated lines, carrying the residue
/// of a partial line across chunk boundaries.
pub struct LineSplitter {
    carry: Vec<u8>,
}

impl View for LineSplitter {
    type V = Seq<u8>;

    closed spec fn view(&self) -> Seq<u8> {
        self.carry@
    }
}

impl LineSplitter {
    pub fn new() -> (r: Self)
        ensures
            r@ == Seq::<u8>::empty(),
    {
        LineSplitter { carry: Vec::new() }
    }

    /// Appends `chunk` to the carried bytes and returns every complete line
    /// now available, in order and without its newline; the bytes after the
    /// last newline stay carried.
    pub fn push_chunk(&mut self, chunk: &[u8]) -> (lines: Vec<Vec<u8>>)
        ensures
            final(self)@ == line_rest(old(self)@ + chunk@),
            lines.deep_view() == lines_of(old(self)@ + chunk@),
    {
        let m: usize = chunk.len();
        let mut i: usize = 0;
        while i < m
            invariant
                i <= m == chunk@.len(),
                self.carry@ == old(self)@ + chunk@.subrange(0, i as int),
            decreases m - i,
        {
            let byte: u8 = chunk[i];
            self.carry.push(byte);
            proof {
                assert(old(self)@ + chunk@.subrange(0, i as int + 1) =~= (old(self)@
                    + chunk@.subrange(0, i as int)).push(chunk@[i as int]));
            }
            i += 1;
        }
        let ghost b: Seq<u8> = old(self)@ + chunk@;
        proof {
            assert(chunk@.subrange(0, m as int) =~= chunk@);
        }
        let n: usize = self.carry.len();
        let mut lines: Vec<Vec<u8>> = Vec::new();
        let mut start: usize = 0;
        let mut k: usize = 0;
        proof {
            assert(b.subrange(0, n as int) =~= b);
            assert(lines.deep_view() =~= Seq::<Seq<u8>>::empty());
            assert(lines.deep_view() + lines_of(b) =~= lines_of(b));
        }
        while k < n
            invariant
                n == b.len(),
                self.carry@ == b,
                start <= k <= n,
                forall|j: int| start <= j < k ==> !is_newline(b[j]),
                lines_of(b) == lines.deep_view() + lines_of(b.subrange(start as int, n as int)),
                line_rest(b) == line_rest(b.subrange(start as int, n as int)),
            decreases n - k,
        {
            let byte: u8 = self.carry[k];
            if byte == 10 {
                let mut line: Vec<u8> = Vec::new();
                let mut j: usize = start;
                while j < k
                    invariant
                        start <= j <= k <= n == b.len(),
                        self.carry@ == b,
                        line@ == b.subrange(start as int, j as int),
                    decreases k - j,
                {
                    line.push(self.carry[j]);
                    proof {
                        assert(b.subrange(start as int, j as int + 1) =~= b.subrange(
                            start as int,
                            j as int,
                        ).push(b[j as int]));
                    }
                    j += 1;
                }
                proof {
                    let t = b.subrange(start as int, n as int);
                    assert forall|j2: int| 0 <= j2 < k - start implies !is_newline(t[j2]) by {
                        assert(t[j2] == b[j2 + start]);
                    }
                    assert(t[k - start] == b[k as int]);
                    lemma_first_nl_at(t, k - start);
                    assert(t.subrange(0, k - start) =~= b.subrange(start as int, k as int));
                    assert(t.subrange(k - start + 1, t.len() as int) =~= b.subrange(
                        k as int + 1,
                        n as int,
                    ));
                    assert(lines_of(t) == seq![b.subrange(start as int, k as int)] + lines_of(
                        b.subrange(k as int + 1, n as int),
                    ));
                }
                let ghost lines_before: Seq<Seq<u8>> = lines.deep_view();
                lines.push(line);
                proof {
                    assert(lines.deep_view() =~~= lines_before + seq![b.subrange(
                        start as int,
                        k as int,
                    )]);
                    assert(lines_before + (seq![b.subrange(start as int, k as int)] + lines_of(
                        b.subrange(k as int + 1, n as int),
                    )) =~~= (lines_before + seq![b.subrange(start as int, k as int)]) + lines_of(
                        b.subrange(k as int + 1, n as int),
                    ));
                }
                start = k + 1;
            }
            k += 1;
        }
        proof {
            let t = b.subrange(start as int, n as int);
            lemma_first_nl_props(t);
            assert forall|j: int| 0 <= j < t.len() implies !is_newline(t[j]) by {
                assert(t[j] == b[j + start]);
            }
            assert(first_nl(t) == t.len());
            assert(lines.deep_view() + lines_of(t) =~~= lines.deep_view());
        }
        let mut tail: Vec<u8> = Vec::new();
        let mut j: usize = start;
        while j < n
            invariant
                start <= j <= n == b.len(),
                self.carry@ == b,
                tail@ == b.subrange(start as int, j as int),
            decreases n - j,
        {
            tail.push(self.carry[j]);
            proof {
                assert(b.subrange(start as int, j as int + 1) =~= b.subrange(
                    start as int,
                    j as int,
                ).push(b[j as int]));
            }
            j += 1;
        }
        self.carry = tail;
        lines
    }

    /// Hands out the carried partial line and leaves the splitter empty;
    /// used at end-of-stream, where no further newline will arrive.
    pub fn take_rest(&mut self) -> (r: Vec<u8>)
        ensures
            r@ == old(self)@,
            final(self)@ == Seq::<u8>::empty(),
    {
        let mut taken: Vec<u8> = Vec::new();
        core::mem::swap(&mut taken, &mut self.carry);
        taken
    }
}

} // verus!
