//! The worker registry: at most one live worker handle per logical task
//! name. The caller that owns the registry serializes start and stop, so
//! the single-instance decision here is the linearization point.

use vstd::prelude::*;
use vstd::string::StrSliceExecFns;

verus! {

/// A start may go ahead exactly when no handle is registered for the name.
pub open spec fn can_start<T>(m: Map<Seq<char>, T>, name: Seq<char>) -> bool {
    !m.dom().contains(name)
}

/// The registry after a successful start: the name now holds the signal.
pub open spec fn after_start<T>(m: Map<Seq<char>, T>, name: Seq<char>, signal: T) -> Map<
    Seq<char>,
    T,
> {
    m.insert(name, signal)
}

/// Two starts for one name cannot both succeed: whatever a successful start
/// registered, a second start for the same name is refused until the handle
/// is cleared again.
pub proof fn lemma_start_twice_second_refused<T>(m: Map<Seq<char>, T>, name: Seq<char>, signal: T)
    requires
        can_start(m, name),
    ensures
        !can_start(after_start(m, name, signal), name),
{
}

/// Outcome of `start`: on `AlreadyRunning` nothing was registered and the
/// caller gets its signal back.
pub enum StartOutcome<T> {
    Started,
    AlreadyRunning(T),
}

/// Outcome of `stop`: on `Stopped` the removed handle's cancellation signal
/// is handed back, for the caller to fire.
pub enum StopOutcome<T> {
    Stopped(T),
    NotRunning,
}

spec fn entries_map<T>(s: Seq<(String, T)>) -> Map<Seq<char>, T>
    decreases s.len(),
{
    if s.len() == 0 {
        Map::empty()
    } else {
        entries_map(s.drop_last()).insert(s.last().0@, s.last().1)
    }
}

spec fn names_unique<T>(s: Seq<(String, T)>) -> bool {
    forall|i: int, j: int| 0 <= i < j < s.len() ==> s[i].0@ != s[j].0@
}

proof fn lemma_entries_map_contains<T>(s: Seq<(String, T)>, nm: Seq<char>)
    ensures
        entries_map(s).dom().contains(nm) <==> exists|k: int| 0 <= k < s.len() && s[k].0@ == nm,
    decreases s.len(),
{
    if s.len() == 0 {
    } else {
        lemma_entries_map_contains(s.drop_last(), nm);
        if s.last().0@ == nm {
            assert(s[s.len() - 1].0@ == nm);
        } else if entries_map(s).dom().contains(nm) {
            let k = choose|k: int| 0 <= k < s.len() - 1 && s.drop_last()[k].0@ == nm;
            assert(s[k].0@ == nm);
        } else {
            assert forall|k: int| 0 <= k < s.len() implies s[k].0@ != nm by {
                if k < s.len() - 1 {
                    assert(s.drop_last()[k].0@ == s[k].0@);
                }
            }
        }
    }
}

proof fn lemma_entries_map_index<T>(s: Seq<(String, T)>, k: int)
    requires
        names_unique(s),
        0 <= k < s.len(),
    ensures
        entries_map(s).dom().contains(s[k].0@),
        entries_map(s)[s[k].0@] == s[k].1,
    decreases s.len(),
{
    if k == s.len() - 1 {
        lemma_entries_map_contains(s, s[k].0@);
    } else {
        assert(s.drop_last()[k] == s[k]);
        lemma_entries_map_index(s.drop_last(), k);
        assert(s.last().0@ != s[k].0@);
    }
}

proof fn lemma_entries_map_remove<T>(s: Seq<(String, T)>, j: int)
    requires
        names_unique(s),
        0 <= j < s.len(),
    ensures
        entries_map(s.remove(j)) == entries_map(s).remove(s[j].0@),
        names_unique(s.remove(j)),
    decreases s.len(),
{
    let nm = s[j].0@;
    assert forall|a: int, b: int| 0 <= a < b < s.remove(j).len() implies s.remove(j)[a].0@
        != s.remove(j)[b].0@ by {
        let a2 = if a < j {
            a
        } else {
            a + 1
        };
        let b2 = if b < j {
            b
        } else {
            b + 1
        };
        assert(s.remove(j)[a] == s[a2]);
        assert(s.remove(j)[b] == s[b2]);
    }
    if j == s.len() - 1 {
        assert(s.remove(j) =~= s.drop_last());
        lemma_entries_map_contains(s.drop_last(), nm);
        assert forall|k: int| 0 <= k < s.len() - 1 implies s.drop_last()[k].0@ != nm by {
            assert(s.drop_last()[k] == s[k]);
        }
        assert(!entries_map(s.drop_last()).dom().contains(nm));
        assert(entries_map(s.drop_last()).insert(nm, s[j].1).remove(nm) =~= entries_map(
            s.drop_last(),
        ));
    } else {
        let sp = s.drop_last();
        let e = s.last();
        assert forall|a: int, b: int| 0 <= a < b < sp.len() implies sp[a].0@ != sp[b].0@ by {
            assert(sp[a] == s[a]);
            assert(sp[b] == s[b]);
        }
        lemma_entries_map_remove(sp, j);
        assert(s.remove(j) =~= sp.remove(j).push(e));
        assert(s.remove(j).drop_last() =~= sp.remove(j));
        assert(s.remove(j).last() == e);
        assert(entries_map(s.remove(j)) == entries_map(sp.remove(j)).insert(e.0@, e.1));
        assert(sp[j] == s[j]);
        assert(e.0@ != nm);
        assert(entries_map(sp).remove(nm).insert(e.0@, e.1) =~= entries_map(sp).insert(
            e.0@,
            e.1,
        ).remove(nm));
    }
}

/// Verified character-for-character string comparison.
fn str_eq(a: &str, b: &str) -> (r: bool)
    ensures
        r == (a@ == b@),
{
    let la: usize = a.unicode_len();
    let lb: usize = b.unicode_len();
    if la != lb {
        proof {
            assert(a@ != b@) by {
                if a@ == b@ {
                    assert(a@.len() == b@.len());
                }
            }
        }
        return false;
    }
    let mut i: usize = 0;
    while i < la
        invariant
            i <= la,
            la == a@.len() == b@.len(),
            forall|k: int| 0 <= k < i ==> a@[k] == b@[k],
        decreases la - i,
    {
        if a.get_char(i) != b.get_char(i) {
            return false;
        }
        i += 1;
    }
    proof {
        assert(a@ =~= b@);
    }
    true
}

/// Maps each logical task name to the cancellation signal of its one live
/// worker. Created on start, the handle is cleared on stop or on natural
/// completion.
pub struct WorkerRegistry<T> {
    entries: Vec<(String, T)>,
}

impl<T> View for WorkerRegistry<T> {
    type V = Map<Seq<char>, T>;

    closed spec fn view(&self) -> Map<Seq<char>, T> {
        entries_map(self.entries@)
    }
}

impl<T> WorkerRegistry<T> {
    /// Registered names are pairwise distinct.
    pub closed spec fn wf(&self) -> bool {
        names_unique(self.entries@)
    }

    pub fn new() -> (r: Self)
        ensures
            r.wf(),
            r@ == Map::<Seq<char>, T>::empty(),
    {
        WorkerRegistry { entries: Vec::new() }
    }

    /// Registers a worker handle for `name` unless one is already live:
    /// exactly one of two racing starts can succeed, because the decision
    /// and the registration are one step under the owner's lock.
    pub fn start(&mut self, name: String, signal: T) -> (r: StartOutcome<T>)
        requires
            old(self).wf(),
        ensures
            final(self).wf(),
            !can_start(old(self)@, name@) ==> (r matches StartOutcome::AlreadyRunning(s) && s
                == signal && *final(self) == *old(self)),
            can_start(old(self)@, name@) ==> r is Started && final(self)@ == after_start(
                old(self)@,
                name@,
                signal,
            ),
    {
        let n: usize = self.entries.len();
        let mut j: usize = 0;
        while j < n
            invariant
                j <= n == self.entries@.len(),
                old(self).wf(),
                *self == *old(self),
                forall|k: int| 0 <= k < j ==> self.entries@[k].0@ != name@,
            decreases n - j,
        {
            if str_eq(self.entries[j].0.as_str(), name.as_str()) {
                proof {
                    lemma_entries_map_index(self.entries@, j as int);
                }
                return StartOutcome::AlreadyRunning(signal);
            }
            j += 1;
        }
        proof {
            lemma_entries_map_contains(self.entries@, name@);
        }
        let ghost before: Seq<(String, T)> = self.entries@;
        self.entries.push((name, signal));
        proof {
            assert(self.entries@.drop_last() =~= before);
            assert forall|a: int, b: int| 0 <= a < b < self.entries@.len() implies self.entries@[
                a
            ].0@ != self.entries@[b].0@ by {
                if b < self.entries@.len() - 1 {
                    assert(self.entries@[a] == before[a]);
                    assert(self.entries@[b] == before[b]);
                } else {
                    assert(self.entries@[a] == before[a]);
                }
            }
        }
        StartOutcome::Started
    }

    /// Removes the handle for `name` and hands its cancellation signal
    /// back; reports `NotRunning`, with no side effect, when no worker is
    /// live under that name.
    pub fn stop(&mut self, name: &str) -> (r: StopOutcome<T>)
        requires
            old(self).wf(),
        ensures
            final(self).wf(),
            !old(self)@.dom().contains(name@) ==> r is NotRunning && *final(self) == *old(self),
            old(self)@.dom().contains(name@) ==> (r matches StopOutcome::Stopped(s) && s == old(
                self,
            )@[name@] && final(self)@ == old(self)@.remove(name@)),
    {
        let n: usize = self.entries.len();
        let mut j: usize = 0;
        while j < n
            invariant
                j <= n == self.entries@.len(),
                old(self).wf(),
                *self == *old(self),
                forall|k: int| 0 <= k < j ==> self.entries@[k].0@ != name@,
            decreases n - j,
        {
            if str_eq(self.entries[j].0.as_str(), name) {
                proof {
                    lemma_entries_map_index(self.entries@, j as int);
                    lemma_entries_map_remove(self.entries@, j as int);
                }
                let removed: (String, T) = self.entries.remove(j);
                return StopOutcome::Stopped(removed.1);
            }
            j += 1;
        }
        proof {
            lemma_entries_map_contains(self.entries@, name@);
        }
        StopOutcome::NotRunning
    }

    /// Clears the handle for `name` after its worker finished on its own;
    /// the signal is discarded, nobody is left to observe it.
    pub fn clear_finished(&mut self, name: &str) -> (r: bool)
        requires
            old(self).wf(),
        ensures
            final(self).wf(),
            r == old(self)@.dom().contains(name@),
            r ==> final(self)@ == old(self)@.remove(name@),
            !r ==> *final(self) == *old(self),
    {
        match self.stop(name) {
            StopOutcome::Stopped(_) => true,
            StopOutcome::NotRunning => false,
        }
    }
}

} // verus!
