//! Registry of in-flight snapshot transfers, keyed by (identity, direction).
//!
//! The registry gates duplicate concurrent transfers and cleanup elsewhere in
//! the engine.  Besides its current contents it keeps a ghost history of
//! every registration and deregistration, so that the guaranteed-release
//! discipline — exactly one deregistration per successful registration — can
//! be stated and proved of the code that uses it.

use vstd::prelude::*;

use crate::msg::{SnapEntry, SnapKey};

verus! {

/// One event in the registry's history.
#[derive(Clone, Copy, PartialEq, Eq, Structural, Debug)]
pub enum RegEvent {
    Registered(SnapKey, SnapEntry),
    Deregistered(SnapKey, SnapEntry),
}

/// Tracker of transfers currently in flight.
pub struct Registry {
    entries: Vec<(SnapKey, SnapEntry)>,
    hist: Ghost<Seq<RegEvent>>,
}

impl View for Registry {
    type V = Set<(SnapKey, SnapEntry)>;

    /// The set of (identity, direction) pairs registered right now.
    closed spec fn view(&self) -> Set<(SnapKey, SnapEntry)> {
        self.entries@.to_set()
    }
}

impl Registry {
    /// At most one entry per (identity, direction) pair.
    pub closed spec fn wf(&self) -> bool {
        forall|i: int, j: int|
            0 <= i < j < self.entries@.len() ==> #[trigger] self.entries@[i]
                != #[trigger] self.entries@[j]
    }

    /// All registrations and deregistrations so far, in order.
    pub closed spec fn history(&self) -> Seq<RegEvent> {
        self.hist@
    }

    /// An empty registry with an empty history.
    pub fn new() -> (r: Registry)
        ensures
            r.wf(),
            r@ == Set::<(SnapKey, SnapEntry)>::empty(),
            r.history() == Seq::<RegEvent>::empty(),
    {
        let r = Registry { entries: Vec::new(), hist: Ghost(Seq::empty()) };
        proof {
            assert(r@ =~= Set::<(SnapKey, SnapEntry)>::empty());
        }
        r
    }

    /// The index holding `(key, entry)`, if any.
    fn find(&self, key: SnapKey, entry: SnapEntry) -> (r: Option<usize>)
        ensures
            match r {
                Option::Some(i) => i < self.entries@.len() && self.entries@[i as int] == (
                key,
                entry,
                ),
                Option::None => !self@.contains((key, entry)),
            },
    {
        let n = self.entries.len();
        let mut i: usize = 0;
        while i < n
            invariant
                i <= n,
                n == self.entries@.len(),
                forall|j: int| 0 <= j < i ==> #[trigger] self.entries@[j] != (key, entry),
            decreases n - i,
        {
            if self.entries[i].0 == key && self.entries[i].1 == entry {
                return Some(i);
            }
            i = i + 1;
        }
        proof {
            assert(!self.entries@.contains((key, entry)));
        }
        None
    }

    /// Whether `(key, entry)` is registered right now.
    pub fn contains(&self, key: SnapKey, entry: SnapEntry) -> (r: bool)
        ensures
            r == self@.contains((key, entry)),
    {
        match self.find(key, entry) {
            Some(i) => {
                proof {
                    assert(self.entries@.contains((key, entry)));
                }
                true
            },
            None => false,
        }
    }

    /// Registers `(key, entry)`.  A pair already present stays registered
    /// once: the contents are a set, and the history records the attempt.
    pub fn register(&mut self, key: SnapKey, entry: SnapEntry)
        requires
            old(self).wf(),
        ensures
            final(self).wf(),
            final(self)@ == old(self)@.insert((key, entry)),
            final(self).history() == old(self).history().push(RegEvent::Registered(key, entry)),
    {
        let present = self.contains(key, entry);
        if !present {
            self.entries.push((key, entry));
            proof {
                assert forall|x: (SnapKey, SnapEntry)| self.entries@.contains(x) implies old(
                    self,
                ).entries@.contains(x) || x == (key, entry) by {
                    let i = choose|i: int|
                        0 <= i < self.entries@.len() && self.entries@[i] == x;
                    if i < old(self).entries@.len() {
                        assert(old(self).entries@[i] == x);
                    }
                }
                assert forall|x: (SnapKey, SnapEntry)| old(self).entries@.contains(x) implies self
                    .entries@.contains(x) by {
                    let i = choose|i: int|
                        0 <= i < old(self).entries@.len() && old(self).entries@[i] == x;
                    assert(self.entries@[i] == x);
                }
                assert(self.entries@[self.entries@.len() - 1] == (key, entry));
                assert(self.entries@.contains((key, entry)));
                assert(self@ =~= old(self)@.insert((key, entry)));
                assert forall|i: int, j: int|
                    0 <= i < j < self.entries@.len() implies #[trigger] self.entries@[i]
                    != #[trigger] self.entries@[j] by {
                    if j == self.entries@.len() - 1 {
                        assert(old(self).entries@.contains(old(self).entries@[i]));
                    }
                }
            }
        } else {
            proof {
                assert(self@ =~= old(self)@.insert((key, entry)));
            }
        }
        proof {
            self.hist@ = self.hist@.push(RegEvent::Registered(key, entry));
        }
    }

    /// Deregisters `(key, entry)`.  Safe to call for a pair that is not
    /// registered: the contents are unchanged and only the history grows.
    pub fn deregister(&mut self, key: SnapKey, entry: SnapEntry)
        requires
            old(self).wf(),
        ensures
            final(self).wf(),
            final(self)@ == old(self)@.remove((key, entry)),
            final(self).history() == old(self).history().push(RegEvent::Deregistered(key, entry)),
    {
        match self.find(key, entry) {
            Some(i) => {
                self.entries.remove(i);
                proof {
                    let oldv = old(self).entries@;
                    let newv = self.entries@;
                    assert forall|x: (SnapKey, SnapEntry)| newv.contains(x) implies oldv.contains(
                        x,
                    ) && x != (key, entry) by {
                        let j = choose|j: int| 0 <= j < newv.len() && newv[j] == x;
                        if j < i {
                            assert(oldv[j] == x);
                        } else {
                            assert(oldv[j + 1] == x);
                        }
                    }
                    assert forall|x: (SnapKey, SnapEntry)|
                        oldv.contains(x) && x != (key, entry) implies newv.contains(x) by {
                        let j = choose|j: int| 0 <= j < oldv.len() && oldv[j] == x;
                        if j < i {
                            assert(newv[j] == x);
                        } else {
                            assert(j != i);
                            assert(newv[j - 1] == x);
                        }
                    }
                    assert(self@ =~= old(self)@.remove((key, entry)));
                    assert forall|a: int, b: int|
                        0 <= a < b < newv.len() implies #[trigger] newv[a] != #[trigger] newv[b] by {
                        let a0 = if a < i {
                            a
                        } else {
                            a + 1
                        };
                        let b0 = if b < i {
                            b
                        } else {
                            b + 1
                        };
                        assert(oldv[a0] == newv[a]);
                        assert(oldv[b0] == newv[b]);
                    }
                }
            },
            None => {
                proof {
                    assert(self@ =~= old(self)@.remove((key, entry)));
                }
            },
        }
        proof {
            self.hist@ = self.hist@.push(RegEvent::Deregistered(key, entry));
        }
    }
}

} // verus!
