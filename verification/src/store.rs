//! The committed snapshot files, keyed by identity: a model of the on-disk
//! snapshot directory.  A key is present exactly when a complete file for
//! that identity exists; saving commits the received bytes, deleting removes
//! the file after a confirmed send.

use vstd::prelude::*;

use crate::msg::SnapKey;

verus! {

/// Whether some entry of `s` holds `k`.
spec fn has_key(s: Seq<(SnapKey, Vec<u8>)>, k: SnapKey) -> bool {
    exists|i: int| 0 <= i < s.len() && s[i].0 == k
}

/// The bytes stored under `k` (meaningful only when `has_key`).
spec fn val_of(s: Seq<(SnapKey, Vec<u8>)>, k: SnapKey) -> Seq<u8> {
    s[choose|i: int| 0 <= i < s.len() && s[i].0 == k].1@
}

/// The map an entry sequence denotes.
spec fn store_map(s: Seq<(SnapKey, Vec<u8>)>) -> Map<SnapKey, Seq<u8>> {
    Map::new(|k: SnapKey| has_key(s, k), |k: SnapKey| val_of(s, k))
}

/// Each identity appears at most once.
spec fn distinct_keys(s: Seq<(SnapKey, Vec<u8>)>) -> bool {
    forall|i: int, j: int| 0 <= i < j < s.len() ==> (#[trigger] s[i]).0 != (#[trigger] s[j]).0
}

proof fn lemma_store_at(s: Seq<(SnapKey, Vec<u8>)>, i: int)
    requires
        distinct_keys(s),
        0 <= i < s.len(),
    ensures
        has_key(s, s[i].0),
        store_map(s)[s[i].0] == s[i].1@,
{
    let k = s[i].0;
    assert(has_key(s, k));
    let j = choose|j: int| 0 <= j < s.len() && s[j].0 == k;
    assert(j == i);
}

proof fn lemma_store_push(s: Seq<(SnapKey, Vec<u8>)>, key: SnapKey, data: Vec<u8>)
    requires
        distinct_keys(s),
        !has_key(s, key),
    ensures
        distinct_keys(s.push((key, data))),
        store_map(s.push((key, data))) == store_map(s).insert(key, data@),
{
    let t = s.push((key, data));
    assert forall|i: int, j: int| 0 <= i < j < t.len() implies (#[trigger] t[i]).0
        != (#[trigger] t[j]).0 by {
        if j == t.len() - 1 {
            assert(has_key(s, s[i].0));
        } else {
            assert(s[i] == t[i] && s[j] == t[j]);
        }
    }
    assert forall|k: SnapKey| #[trigger] has_key(t, k) implies has_key(s, k) || k == key by {
        let i = choose|i: int| 0 <= i < t.len() && t[i].0 == k;
        if i < s.len() {
            assert(s[i].0 == k);
        }
    }
    assert forall|k: SnapKey| has_key(s, k) implies #[trigger] has_key(t, k) by {
        let i = choose|i: int| 0 <= i < s.len() && s[i].0 == k;
        assert(t[i].0 == k);
    }
    assert(t[t.len() - 1].0 == key);
    assert(has_key(t, key));
    assert forall|k: SnapKey| has_key(t, k) implies store_map(t)[k] == store_map(s).insert(
        key,
        data@,
    )[k] by {
        let i = choose|i: int| 0 <= i < t.len() && t[i].0 == k;
        lemma_store_at(t, i);
        if k == key {
            assert(i == t.len() - 1);
        } else {
            assert(i < s.len());
            lemma_store_at(s, i);
        }
    }
    assert(store_map(t) =~= store_map(s).insert(key, data@));
}

proof fn lemma_store_remove_at(s: Seq<(SnapKey, Vec<u8>)>, i: int)
    requires
        distinct_keys(s),
        0 <= i < s.len(),
    ensures
        distinct_keys(s.remove(i)),
        store_map(s.remove(i)) == store_map(s).remove(s[i].0),
{
    let key = s[i].0;
    let t = s.remove(i);
    assert forall|a: int, b: int| 0 <= a < b < t.len() implies (#[trigger] t[a]).0
        != (#[trigger] t[b]).0 by {
        let a0 = if a < i {
            a
        } else {
            a + 1
        };
        let b0 = if b < i {
            b
        } else {
            b + 1
        };
        assert(s[a0] == t[a] && s[b0] == t[b]);
    }
    assert forall|k: SnapKey| #[trigger] has_key(t, k) implies has_key(s, k) && k != key by {
        let j = choose|j: int| 0 <= j < t.len() && t[j].0 == k;
        let j0 = if j < i {
            j
        } else {
            j + 1
        };
        assert(s[j0] == t[j]);
    }
    assert forall|k: SnapKey| has_key(s, k) && k != key implies #[trigger] has_key(t, k) by {
        let j = choose|j: int| 0 <= j < s.len() && s[j].0 == k;
        assert(j != i);
        if j < i {
            assert(t[j].0 == k);
        } else {
            assert(t[j - 1].0 == k);
        }
    }
    assert forall|k: SnapKey| has_key(t, k) implies store_map(t)[k] == store_map(s).remove(key)[k]
        by {
        let j = choose|j: int| 0 <= j < t.len() && t[j].0 == k;
        lemma_store_at(t, j);
        let j0 = if j < i {
            j
        } else {
            j + 1
        };
        assert(s[j0] == t[j]);
        lemma_store_at(s, j0);
    }
    assert(store_map(t) =~= store_map(s).remove(key));
}

/// The committed snapshot files.
pub struct SnapStore {
    entries: Vec<(SnapKey, Vec<u8>)>,
}

impl View for SnapStore {
    type V = Map<SnapKey, Seq<u8>>;

    /// Identity to file contents, for the complete files.
    closed spec fn view(&self) -> Map<SnapKey, Seq<u8>> {
        store_map(self.entries@)
    }
}

impl SnapStore {
    /// Each identity holds at most one file.
    pub closed spec fn wf(&self) -> bool {
        distinct_keys(self.entries@)
    }

    /// An empty store: no snapshot file exists yet.
    pub fn new() -> (r: SnapStore)
        ensures
            r.wf(),
            r@ == Map::<SnapKey, Seq<u8>>::empty(),
    {
        let r = SnapStore { entries: Vec::new() };
        proof {
            assert(r@ =~= Map::<SnapKey, Seq<u8>>::empty());
        }
        r
    }

    /// The index holding `key`, if any.
    fn find(&self, key: SnapKey) -> (r: Option<usize>)
        ensures
            match r {
                Option::Some(i) => i < self.entries@.len() && self.entries@[i as int].0 == key,
                Option::None => !has_key(self.entries@, key),
            },
    {
        let n = self.entries.len();
        let mut i: usize = 0;
        while i < n
            invariant
                i <= n,
                n == self.entries@.len(),
                forall|j: int| 0 <= j < i ==> (#[trigger] self.entries@[j]).0 != key,
            decreases n - i,
        {
            if self.entries[i].0 == key {
                return Some(i);
            }
            i = i + 1;
        }
        None
    }

    /// Whether a complete file for `key` exists.
    pub fn has(&self, key: SnapKey) -> (r: bool)
        ensures
            r == self@.contains_key(key),
    {
        match self.find(key) {
            Some(_) => {
                proof {
                    assert(has_key(self.entries@, key));
                }
                true
            },
            None => false,
        }
    }

    /// The contents of the file for `key`, if one exists.
    pub fn read(&self, key: SnapKey) -> (r: Option<Vec<u8>>)
        requires
            self.wf(),
        ensures
            match r {
                Option::Some(v) => self@.contains_key(key) && v@ == self@[key],
                Option::None => !self@.contains_key(key),
            },
    {
        match self.find(key) {
            Some(i) => {
                proof {
                    lemma_store_at(self.entries@, i as int);
                }
                let src = &self.entries[i].1;
                let n = src.len();
                let mut out: Vec<u8> = Vec::new();
                let mut j: usize = 0;
                while j < n
                    invariant
                        j <= n,
                        n == src@.len(),
                        out@ == src@.take(j as int),
                    decreases n - j,
                {
                    out.push(src[j]);
                    assert(out@ =~= src@.take(j + 1));
                    j = j + 1;
                }
                proof {
                    assert(out@ =~= src@);
                }
                Some(out)
            },
            None => None,
        }
    }

    /// Commits `data` as the complete file for `key`, replacing any file
    /// already there.
    pub fn save(&mut self, key: SnapKey, data: Vec<u8>)
        requires
            old(self).wf(),
        ensures
            final(self).wf(),
            final(self)@ == old(self)@.insert(key, data@),
    {
        self.delete(key);
        proof {
            assert(!self@.contains_key(key));
            assert(!has_key(self.entries@, key));
            lemma_store_push(self.entries@, key, data);
        }
        self.entries.push((key, data));
        proof {
            assert(self@ =~= old(self)@.insert(key, data@));
        }
    }

    /// Removes the file for `key`; a missing file is left missing.
    pub fn delete(&mut self, key: SnapKey)
        requires
            old(self).wf(),
        ensures
            final(self).wf(),
            final(self)@ == old(self)@.remove(key),
    {
        match self.find(key) {
            Some(i) => {
                proof {
                    lemma_store_remove_at(self.entries@, i as int);
                }
                self.entries.remove(i);
            },
            None => {
                proof {
                    assert(self@ =~= old(self)@.remove(key));
                }
            },
        }
    }
}

} // verus!
