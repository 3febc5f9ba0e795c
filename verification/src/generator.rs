//! The streaming generator: drives chunked response bytes through line
//! splitting, JSON decoding and sentence accumulation, under cooperative
//! cancellation, and tracks the terminal status of the run.

use crate::accumulator::SentenceAccumulator;
use crate::accumulator::fold_emitted;
use crate::accumulator::fold_pending;
use crate::accumulator::rest_of;
use crate::accumulator::sentences_of;
use crate::decode::decode_line;
use crate::decode::decoded_fragments;
use crate::decode::decoded_response;
use crate::lines::LineSplitter;
use crate::lines::line_rest;
use crate::lines::lines_of;
use vstd::prelude::*;

verus! {

/// The lifecycle of one generation run; every state but `Running` is
/// terminal.
#[derive(Clone, Copy, PartialEq, Eq, Structural, Debug)]
pub enum GenStatus {
    Running,
    Completed,
    Cancelled,
    Failed,
}

/// One observation made by the driving loop: a chunk of response bytes, a
/// natural end of stream, or a transport-level failure.
pub enum StreamEvent {
    Chunk(Vec<u8>),
    End,
    TransportFailure,
}

/// The fragments contributed by the carried partial line at end-of-stream:
/// an empty carry contributes nothing, a malformed one is skipped.
pub open spec fn tail_fragments(carried: Seq<u8>) -> Seq<Seq<char>> {
    if carried.len() == 0 {
        Seq::empty()
    } else {
        match decoded_response(carried) {
            Some(frag) => seq![frag],
            None => Seq::empty(),
        }
    }
}

/// Everything a natural end of stream delivers: the sentences completed by
/// the carried final line, then the flushed remainder if it is non-empty.
pub open spec fn final_output(pending: Seq<char>, carried: Seq<u8>) -> Seq<Seq<char>> {
    let emitted = fold_emitted(pending, tail_fragments(carried));
    let leftover = fold_pending(pending, tail_fragments(carried));
    if leftover.len() == 0 {
        emitted
    } else {
        emitted.push(leftover)
    }
}

/// Turns an unbounded sequence of partial byte chunks into discrete,
/// sentence-terminated text units, in producer order.
pub struct StreamingGenerator {
    splitter: LineSplitter,
    acc: SentenceAccumulator,
    status: GenStatus,
}

impl StreamingGenerator {
    /// The bytes of a partial line carried across chunk boundaries.
    pub closed spec fn carried(&self) -> Seq<u8> {
        self.splitter@
    }

    /// The decoded text still waiting for a sentence terminator.
    pub closed spec fn pending(&self) -> Seq<char> {
        self.acc@
    }

    pub closed spec fn status(&self) -> GenStatus {
        self.status
    }

    pub fn new() -> (r: Self)
        ensures
            r.status() is Running,
            r.carried() == Seq::<u8>::empty(),
            r.pending() == Seq::<char>::empty(),
    {
        StreamingGenerator {
            splitter: LineSplitter::new(),
            acc: SentenceAccumulator::new(),
            status: GenStatus::Running,
        }
    }

    pub fn current_status(&self) -> (s: GenStatus)
        ensures
            s == self.status(),
    {
        self.status
    }

    /// Feeds one network chunk through line splitting, JSON decoding and
    /// sentence accumulation; returns the sentences completed by it, in
    /// order. A malformed line is skipped and does not stop the stream.
    pub fn process_chunk(&mut self, chunk: &[u8]) -> (out: Vec<String>)
        requires
            old(self).status() is Running,
        ensures
            final(self).status() is Running,
            final(self).carried() == line_rest(old(self).carried() + chunk@),
            final(self).pending() == fold_pending(
                old(self).pending(),
                decoded_fragments(lines_of(old(self).carried() + chunk@)),
            ),
            out.deep_view() == fold_emitted(
                old(self).pending(),
                decoded_fragments(lines_of(old(self).carried() + chunk@)),
            ),
    {
        let ghost p0: Seq<char> = self.acc@;
        let lines: Vec<Vec<u8>> = self.splitter.push_chunk(chunk);
        let ghost lv: Seq<Seq<u8>> = lines.deep_view();
        let n: usize = lines.len();
        let mut out: Vec<String> = Vec::new();
        let mut i: usize = 0;
        proof {
            assert(lv.take(0) =~= Seq::<Seq<u8>>::empty());
            assert(out.deep_view() =~= Seq::<Seq<char>>::empty());
        }
        while i < n
            invariant
                n == lv.len(),
                lines.deep_view() == lv,
                i <= n,
                self.splitter@ == line_rest(old(self).carried() + chunk@),
                self.status() == old(self).status(),
                self.acc@ == fold_pending(p0, decoded_fragments(lv.take(i as int))),
                out.deep_view() == fold_emitted(p0, decoded_fragments(lv.take(i as int))),
            decreases n - i,
        {
            let ghost fr_before: Seq<Seq<char>> = decoded_fragments(lv.take(i as int));
            proof {
                assert(lv.take(i as int + 1).drop_last() =~= lv.take(i as int));
                assert(lv.take(i as int + 1).last() == lv[i as int]);
            }
            let line: &Vec<u8> = &lines[i];
            proof {
                assert(line@ =~= lv[i as int]);
            }
            match decode_line(line.as_slice()) {
                Some(frag) => {
                    proof {
                        assert(decoded_response(lv[i as int]) == Some(frag@));
                        assert(decoded_fragments(lv.take(i as int + 1)) == fr_before.push(frag@));
                        assert(fr_before.push(frag@).drop_last() =~= fr_before);
                        assert(fr_before.push(frag@).last() == frag@);
                        assert(fold_pending(p0, fr_before.push(frag@)) == rest_of(
                            fold_pending(p0, fr_before) + frag@,
                        ));
                        assert(fold_emitted(p0, fr_before.push(frag@)) == fold_emitted(
                            p0,
                            fr_before,
                        ) + sentences_of(fold_pending(p0, fr_before) + frag@));
                    }
                    let mut sentences: Vec<String> = self.acc.feed(frag.as_str());
                    let ghost out_before: Seq<Seq<char>> = out.deep_view();
                    let ghost sent_dv: Seq<Seq<char>> = sentences.deep_view();
                    out.append(&mut sentences);
                    proof {
                        assert(out.deep_view() =~~= out_before + sent_dv);
                    }
                },
                None => {
                    proof {
                        assert(decoded_response(lv[i as int]) is None);
                        assert(decoded_fragments(lv.take(i as int + 1)) == fr_before);
                    }
                },
            }
            i += 1;
        }
        proof {
            assert(lv.take(n as int) =~= lv);
        }
        out
    }

    /// Ends the stream naturally: decodes the carried partial line, if any,
    /// flushes the accumulator so no decoded text is lost, and reports
    /// `Completed`.
    pub fn finish(&mut self) -> (out: Vec<String>)
        requires
            old(self).status() is Running,
        ensures
            final(self).status() is Completed,
            final(self).carried() == Seq::<u8>::empty(),
            final(self).pending() == Seq::<char>::empty(),
            out.deep_view() == final_output(old(self).pending(), old(self).carried()),
    {
        let ghost p0: Seq<char> = self.acc@;
        let rest_bytes: Vec<u8> = self.splitter.take_rest();
        let ghost frags: Seq<Seq<char>> = tail_fragments(old(self).carried());
        let mut out: Vec<String> = Vec::new();
        if rest_bytes.len() > 0 {
            match decode_line(rest_bytes.as_slice()) {
                Some(frag) => {
                    proof {
                        assert(frags =~= seq![frag@]);
                        assert(frags.drop_last() =~= Seq::<Seq<char>>::empty());
                        assert(frags.last() == frag@);
                        assert(fold_pending(p0, Seq::<Seq<char>>::empty()) == p0);
                        assert(fold_emitted(p0, Seq::<Seq<char>>::empty())
                            == Seq::<Seq<char>>::empty());
                        assert(fold_pending(p0, frags) == rest_of(p0 + frag@));
                        assert(fold_emitted(p0, frags) == fold_emitted(
                            p0,
                            Seq::empty(),
                        ) + sentences_of(p0 + frag@));
                    }
                    let mut sentences: Vec<String> = self.acc.feed(frag.as_str());
                    out.append(&mut sentences);
                    proof {
                        assert(out.deep_view() =~~= Seq::<Seq<char>>::empty() + sentences_of(
                            p0 + frag@,
                        ));
                        assert(out.deep_view() =~~= fold_emitted(p0, frags));
                    }
                },
                None => {
                    proof {
                        assert(frags =~= Seq::<Seq<char>>::empty());
                        assert(out.deep_view() =~= fold_emitted(p0, frags));
                    }
                },
            }
        } else {
            proof {
                assert(frags =~= Seq::<Seq<char>>::empty());
                assert(out.deep_view() =~= fold_emitted(p0, frags));
            }
        }
        proof {
            assert(self.acc@ == fold_pending(p0, frags));
        }
        let ghost emitted_so_far: Seq<Seq<char>> = out.deep_view();
        match self.acc.flush() {
            Some(leftover) => {
                out.push(leftover);
                proof {
                    assert(out.deep_view() =~~= emitted_so_far.push(fold_pending(p0, frags)));
                }
            },
            None => {},
        }
        self.status = GenStatus::Completed;
        out
    }

    /// One turn of the driving loop. The cancellation signal is checked
    /// before the event is handled: once it is observed, nothing more is
    /// emitted and the run is `Cancelled`; the undelivered remainder is
    /// intentionally discarded, not flushed. Otherwise a chunk is processed,
    /// an end of stream completes the run, and a transport failure ends it
    /// as `Failed` without retracting sentences already delivered.
    pub fn step(&mut self, cancel_requested: bool, event: StreamEvent) -> (out: Vec<String>)
        requires
            old(self).status() is Running,
        ensures
            cancel_requested ==> {
                &&& final(self).status() is Cancelled
                &&& out@.len() == 0
                &&& final(self).carried() == old(self).carried()
                &&& final(self).pending() == old(self).pending()
            },
            !cancel_requested ==> (event matches StreamEvent::Chunk(chunk) ==> {
                &&& final(self).status() is Running
                &&& final(self).carried() == line_rest(old(self).carried() + chunk@)
                &&& final(self).pending() == fold_pending(
                    old(self).pending(),
                    decoded_fragments(lines_of(old(self).carried() + chunk@)),
                )
                &&& out.deep_view() == fold_emitted(
                    old(self).pending(),
                    decoded_fragments(lines_of(old(self).carried() + chunk@)),
                )
            }),
            !cancel_requested && event is End ==> {
                &&& final(self).status() is Completed
                &&& out.deep_view() == final_output(old(self).pending(), old(self).carried())
            },
            !cancel_requested && event is TransportFailure ==> {
                &&& final(self).status() is Failed
                &&& out@.len() == 0
                &&& final(self).carried() == old(self).carried()
                &&& final(self).pending() == old(self).pending()
            },
    {
        if cancel_requested {
            self.status = GenStatus::Cancelled;
            Vec::new()
        } else {
            match event {
                StreamEvent::Chunk(chunk) => self.process_chunk(chunk.as_slice()),
                StreamEvent::End => self.finish(),
                StreamEvent::TransportFailure => {
                    self.status = GenStatus::Failed;
                    Vec::new()
                },
            }
        }
    }
}

} // verus!
