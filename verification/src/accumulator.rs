//! Sentence-boundary accumulation: a pure text state machine that consumes
//! fragments and emits completed sentences.

use vstd::prelude::*;
use vstd::string::StrSliceExecFns;
use vstd::string::StringExecFns;

verus! {

/// A character that ends a sentence.
pub open spec fn is_terminator(c: char) -> bool {
    c == '.' || c == '?' || c == '!'
}

/// Index of the first sentence terminator in `s`, or `s.len()` if there is none.
pub open spec fn first_term(s: Seq<char>) -> nat
    decreases s.len(),
{
    if s.len() == 0 {
        0
    } else if is_terminator(s[0]) {
        0
    } else {
        1 + first_term(s.subrange(1, s.len() as int))
    }
}

/// The completed sentences in `s`, in order: each runs from the end of the
/// previous sentence through the next terminator, terminator included.
pub open spec fn sentences_of(s: Seq<char>) -> Seq<Seq<char>>
    decreases s.len(),
{
    let k = first_term(s);
    if k < s.len() {
        seq![s.subrange(0, k as int + 1)] + sentences_of(s.subrange(k as int + 1, s.len() as int))
    } else {
        Seq::empty()
    }
}

/// The tail of `s` after its last terminator: the text still waiting for one.
pub open spec fn rest_of(s: Seq<char>) -> Seq<char>
    decreases s.len(),
{
    let k = first_term(s);
    if k < s.len() {
        rest_of(s.subrange(k as int + 1, s.len() as int))
    } else {
        s
    }
}

/// The concatenation of a sequence of character sequences.
pub open spec fn concat_all(ss: Seq<Seq<char>>) -> Seq<char>
    decreases ss.len(),
{
    if ss.len() == 0 {
        Seq::empty()
    } else {
        ss[0] + concat_all(ss.drop_first())
    }
}

/// The pending text after feeding `frags` in order into an accumulator whose
/// pending text was `p`.
pub open spec fn fold_pending(p: Seq<char>, frags: Seq<Seq<char>>) -> Seq<char>
    decreases frags.len(),
{
    if frags.len() == 0 {
        p
    } else {
        rest_of(fold_pending(p, frags.drop_last()) + frags.last())
    }
}

/// Every sentence emitted while feeding `frags` in order into an accumulator
/// whose pending text was `p`.
pub open spec fn fold_emitted(p: Seq<char>, frags: Seq<Seq<char>>) -> Seq<Seq<char>>
    decreases frags.len(),
{
    if frags.len() == 0 {
        Seq::empty()
    } else {
        fold_emitted(p, frags.drop_last()) + sentences_of(
            fold_pending(p, frags.drop_last()) + frags.last(),
        )
    }
}

pub proof fn lemma_first_term_props(s: Seq<char>)
    ensures
        first_term(s) <= s.len(),
        first_term(s) < s.len() ==> is_terminator(s[first_term(s) as int]),
        forall|j: int| 0 <= j < first_term(s) ==> !is_terminator(s[j]),
    decreases s.len(),
{
    if s.len() == 0 {
    } else if is_terminator(s[0]) {
    } else {
        let t = s.subrange(1, s.len() as int);
        lemma_first_term_props(t);
        if first_term(s) < s.len() {
            assert(s[first_term(s) as int] == t[first_term(t) as int]);
        }
        assert forall|j: int| 0 <= j < first_term(s) implies !is_terminator(s[j]) by {
            if j > 0 {
                assert(s[j] == t[j - 1]);
            }
        }
    }
}

pub proof fn lemma_first_term_at(s: Seq<char>, k: int)
    requires
        0 <= k < s.len(),
        is_terminator(s[k]),
        forall|j: int| 0 <= j < k ==> !is_terminator(s[j]),
    ensures
        first_term(s) == k,
    decreases s.len(),
{
    if k == 0 {
    } else {
        let t = s.subrange(1, s.len() as int);
        assert(t[k - 1] == s[k]);
        assert forall|j: int| 0 <= j < k - 1 implies !is_terminator(t[j]) by {
            assert(t[j] == s[j + 1]);
        }
        lemma_first_term_at(t, k - 1);
    }
}

pub proof fn lemma_concat_all_append(a: Seq<Seq<char>>, b: Seq<Seq<char>>)
    ensures
        concat_all(a + b) == concat_all(a) + concat_all(b),
    decreases a.len(),
{
    if a.len() == 0 {
        assert(a + b =~= b);
        assert(concat_all(a) + concat_all(b) =~= concat_all(b));
    } else {
        assert((a + b).drop_first() =~= a.drop_first() + b);
        lemma_concat_all_append(a.drop_first(), b);
        assert((a + b)[0] == a[0]);
        assert(a[0] + (concat_all(a.drop_first()) + concat_all(b)) =~= (a[0] + concat_all(
            a.drop_first(),
        )) + concat_all(b));
    }
}

/// Splitting a buffer into sentences loses nothing: the sentences followed by
/// the remainder reassemble the buffer.
pub proof fn lemma_sentences_concat(s: Seq<char>)
    ensures
        concat_all(sentences_of(s)) + rest_of(s) == s,
    decreases s.len(),
{
    let k = first_term(s);
    lemma_first_term_props(s);
    if k < s.len() {
        let head = s.subrange(0, k as int + 1);
        let tail = s.subrange(k as int + 1, s.len() as int);
        lemma_sentences_concat(tail);
        let ss = sentences_of(tail);
        assert((seq![head] + ss).drop_first() =~= ss);
        assert(concat_all(seq![head] + ss) == head + concat_all(ss));
        assert((head + concat_all(ss)) + rest_of(tail) =~= head + (concat_all(ss) + rest_of(
            tail,
        )));
        assert(head + tail =~= s);
    } else {
        assert(concat_all(sentences_of(s)) + rest_of(s) =~= s);
    }
}

/// No data loss, no duplication: over any fragment sequence, the emitted
/// sentences followed by the final pending text reassemble exactly the
/// initial pending text followed by the fragments.
pub proof fn lemma_feed_no_data_loss(p: Seq<char>, frags: Seq<Seq<char>>)
    ensures
        concat_all(fold_emitted(p, frags)) + fold_pending(p, frags) == p + concat_all(frags),
    decreases frags.len(),
{
    if frags.len() == 0 {
        assert(concat_all(fold_emitted(p, frags)) + fold_pending(p, frags) =~= p + concat_all(
            frags,
        ));
    } else {
        let fs = frags.drop_last();
        let f = frags.last();
        lemma_feed_no_data_loss(p, fs);
        let q = fold_pending(p, fs);
        let emitted = fold_emitted(p, fs);
        lemma_sentences_concat(q + f);
        lemma_concat_all_append(emitted, sentences_of(q + f));
        assert(concat_all(emitted + sentences_of(q + f)) + rest_of(q + f) =~= concat_all(emitted)
            + (concat_all(sentences_of(q + f)) + rest_of(q + f)));
        assert(concat_all(emitted) + (q + f) =~= (concat_all(emitted) + q) + f);
        assert(fs + seq![f] =~= frags);
        lemma_concat_all_append(fs, seq![f]);
        let single: Seq<Seq<char>> = seq![f];
        assert(single.drop_first() =~= Seq::<Seq<char>>::empty());
        assert(concat_all(single.drop_first()) == Seq::<char>::empty());
        assert(concat_all(single) == single[0] + concat_all(single.drop_first()));
        assert(concat_all(single) =~= f);
        assert((p + concat_all(fs)) + f =~= p + concat_all(frags));
    }
}

/// No data loss from a fresh accumulator: the concatenation of every emitted
/// sentence plus the final pending text equals the concatenation of the
/// fragments fed.
pub proof fn lemma_feed_no_data_loss_from_start(frags: Seq<Seq<char>>)
    ensures
        concat_all(fold_emitted(Seq::empty(), frags)) + fold_pending(Seq::empty(), frags)
            == concat_all(frags),
{
    lemma_feed_no_data_loss(Seq::empty(), frags);
    assert(Seq::<char>::empty() + concat_all(frags) =~= concat_all(frags));
}

/// Consumes text fragments and emits completed sentences; text that has not
/// yet seen a terminator stays pending.
pub struct SentenceAccumulator {
    pending: String,
}

impl View for SentenceAccumulator {
    type V = Seq<char>;

    closed spec fn view(&self) -> Seq<char> {
        self.pending@
    }
}

impl SentenceAccumulator {
    pub fn new() -> (r: Self)
        ensures
            r@ == Seq::<char>::empty(),
    {
        SentenceAccumulator { pending: String::new() }
    }

    /// Appends `fragment` to the pending text and returns every completed
    /// sentence now available, in order; the tail after the last terminator
    /// stays pending.
    pub fn feed(&mut self, fragment: &str) -> (out: Vec<String>)
        ensures
            final(self)@ == rest_of(old(self)@ + fragment@),
            out.deep_view() == sentences_of(old(self)@ + fragment@),
    {
        self.pending.append(fragment);
        let ghost b: Seq<char> = self.pending@;
        let n: usize = self.pending.as_str().unicode_len();
        let mut out: Vec<String> = Vec::new();
        let mut start: usize = 0;
        let mut i: usize = 0;
        proof {
            assert(b.subrange(0, n as int) =~= b);
            assert(out.deep_view() =~= Seq::<Seq<char>>::empty());
            assert(out.deep_view() + sentences_of(b) =~= sentences_of(b));
        }
        while i < n
            invariant
                n == b.len(),
                self.pending@ == b,
                start <= i <= n,
                forall|j: int| start <= j < i ==> !is_terminator(b[j]),
                sentences_of(b) == out.deep_view() + sentences_of(
                    b.subrange(start as int, n as int),
                ),
                rest_of(b) == rest_of(b.subrange(start as int, n as int)),
            decreases n - i,
        {
            let c = self.pending.as_str().get_char(i);
            if c == '.' || c == '?' || c == '!' {
                let sentence: String = self.pending.as_str().substring_char(start, i + 1)
                    .to_owned();
                proof {
                    let t = b.subrange(start as int, n as int);
                    assert forall|j: int| 0 <= j < i - start implies !is_terminator(t[j]) by {
                        assert(t[j] == b[j + start]);
                    }
                    assert(t[i - start] == b[i as int]);
                    lemma_first_term_at(t, i - start);
                    assert(t.subrange(0, i - start + 1) =~= b.subrange(start as int, i as int + 1));
                    assert(t.subrange(i - start + 1, t.len() as int) =~= b.subrange(
                        i as int + 1,
                        n as int,
                    ));
                    assert(sentences_of(t) == seq![b.subrange(start as int, i as int + 1)]
                        + sentences_of(b.subrange(i as int + 1, n as int)));
                }
                let ghost out_before: Seq<Seq<char>> = out.deep_view();
                out.push(sentence);
                proof {
                    assert(out.deep_view() =~~= out_before + seq![b.subrange(
                        start as int,
                        i as int + 1,
                    )]);
                    assert(out_before + (seq![b.subrange(start as int, i as int + 1)]
                        + sentences_of(b.subrange(i as int + 1, n as int))) =~~= (out_before
                        + seq![b.subrange(start as int, i as int + 1)]) + sentences_of(
                        b.subrange(i as int + 1, n as int),
                    ));
                }
                start = i + 1;
            }
            i += 1;
        }
        proof {
            let t = b.subrange(start as int, n as int);
            lemma_first_term_props(t);
            assert forall|j: int| 0 <= j < t.len() implies !is_terminator(t[j]) by {
                assert(t[j] == b[j + start]);
            }
            assert(first_term(t) == t.len());
            assert(out.deep_view() + sentences_of(t) =~~= out.deep_view());
        }
        let tail: String = self.pending.as_str().substring_char(start, n).to_owned();
        self.pending = tail;
        out
    }

    /// Returns the pending text, if any, and leaves the accumulator empty;
    /// used at end-of-stream so no trailing text is silently dropped.
    pub fn flush(&mut self) -> (r: Option<String>)
        ensures
            final(self)@ == Seq::<char>::empty(),
            r.deep_view() == if old(self)@.len() == 0 {
                Option::<Seq<char>>::None
            } else {
                Option::<Seq<char>>::Some(old(self)@)
            },
    {
        if self.pending.as_str().is_empty() {
            None
        } else {
            let text = self.pending.clone();
            self.pending = String::new();
            Some(text)
        }
    }
}

} // verus!
