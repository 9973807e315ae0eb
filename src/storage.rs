//! The in-memory mirror of the head block's top-level storage, and the diffs
//! that a verified block applies to it.
use vstd::prelude::*;

use crate::bytes::{
    bytes_eq, bytes_lt, bytes_starts_with, copy_bytes, lemma_lex_lt_irreflexive, lemma_lex_lt_total,
    lemma_lex_lt_transitive, lex_lt,
};

verus! {

/// Storage after applying `diff` to `state`: a key that the diff names takes
/// the diff's value, or disappears where that value is `None`; every other key
/// keeps its value.
pub open spec fn apply_diff_spec(
    state: Map<Seq<u8>, Seq<u8>>,
    diff: Map<Seq<u8>, Option<Seq<u8>>>,
) -> Map<Seq<u8>, Seq<u8>> {
    Map::new(
        |k: Seq<u8>|
            if diff.contains_key(k) {
                diff[k] is Some
            } else {
                state.contains_key(k)
            },
        |k: Seq<u8>|
            if diff.contains_key(k) {
                diff[k]->Some_0
            } else {
                state[k]
            },
    )
}

/// Storage after applying each diff of `diffs` in order to `state`.
pub open spec fn replay_diffs(
    state: Map<Seq<u8>, Seq<u8>>,
    diffs: Seq<Map<Seq<u8>, Option<Seq<u8>>>>,
) -> Map<Seq<u8>, Seq<u8>>
    decreases diffs.len(),
{
    if diffs.len() == 0 {
        state
    } else {
        apply_diff_spec(replay_diffs(state, diffs.drop_last()), diffs.last())
    }
}

/// Importing a linear chain: where each storage state is the previous one
/// with the next block's diff applied, the last state is every diff replayed
/// in order on the first (the empty state, for a chain that starts there).
pub proof fn lemma_chain_replays_diffs(
    states: Seq<Map<Seq<u8>, Seq<u8>>>,
    diffs: Seq<Map<Seq<u8>, Option<Seq<u8>>>>,
)
    requires
        states.len() == diffs.len() + 1,
        forall|i: int| 0 <= i < diffs.len() ==> #[trigger] states[i + 1] == apply_diff_spec(states[i], diffs[i]),
    ensures
        states.last() == replay_diffs(states[0], diffs),
    decreases diffs.len(),
{
    if diffs.len() > 0 {
        let n = diffs.len() - 1;
        assert(states[n + 1] == apply_diff_spec(states[n], diffs[n]));
        lemma_chain_replays_diffs(states.drop_last(), diffs.drop_last());
        assert(states.drop_last().last() == states[n]);
    }
}

/// Whether `r` is the least key of `state` that comes strictly after `key`.
pub open spec fn is_next_key(state: Map<Seq<u8>, Seq<u8>>, key: Seq<u8>, r: Seq<u8>) -> bool {
    &&& state.contains_key(r)
    &&& lex_lt(key, r)
    &&& forall|k: Seq<u8>| #[trigger]
        state.contains_key(k) && lex_lt(key, k) ==> !lex_lt(k, r)
}

/// Key/value storage of one block, keyed by byte strings.
pub struct StorageMirror {
    entries: Vec<(Vec<u8>, Vec<u8>)>,
    model: Ghost<Map<Seq<u8>, Seq<u8>>>,
}

impl View for StorageMirror {
    type V = Map<Seq<u8>, Seq<u8>>;

    closed spec fn view(&self) -> Map<Seq<u8>, Seq<u8>> {
        self.model@
    }
}

impl StorageMirror {
    /// Each key is held once, and the entries are exactly the view.
    pub closed spec fn wf(&self) -> bool {
        &&& forall|i: int, j: int|
            0 <= i < self.entries@.len() && 0 <= j < self.entries@.len() && i != j
                ==> #[trigger] self.entries@[i].0@ != #[trigger] self.entries@[j].0@
        &&& forall|i: int|
            0 <= i < self.entries@.len() ==> self.model@.contains_key(#[trigger] self.entries@[i].0@)
                && self.model@[self.entries@[i].0@] == self.entries@[i].1@
        &&& forall|k: Seq<u8>| #[trigger]
            self.model@.contains_key(k) ==> exists|i: int|
                0 <= i < self.entries@.len() && #[trigger] self.entries@[i].0@ == k
    }

    /// An empty storage.
    pub fn new() -> (r: Self)
        ensures
            r.wf(),
            r@ == Map::<Seq<u8>, Seq<u8>>::empty(),
    {
        StorageMirror { entries: Vec::new(), model: Ghost(Map::empty()) }
    }

    /// Number of keys held.
    pub fn len(&self) -> (r: usize)
        requires
            self.wf(),
        ensures
            r == self@.dom().len(),
    {
        proof {
            self.lemma_dom_len();
        }
        self.entries.len()
    }

    proof fn lemma_dom_len(&self)
        requires
            self.wf(),
        ensures
            self@.dom().finite(),
            self@.dom().len() == self.entries@.len(),
    {
        let keys = self.entries@.map_values(|e: (Vec<u8>, Vec<u8>)| e.0@);
        assert forall|i: int, j: int| 0 <= i < keys.len() && 0 <= j < keys.len() && i != j
            implies keys[i] != keys[j] by {
            assert(self.entries@[i].0@ != self.entries@[j].0@);
        }
        keys.unique_seq_to_set();
        assert forall|k: Seq<u8>| #[trigger] self@.contains_key(k) <==> keys.contains(k) by {
            if self@.contains_key(k) {
                let i = choose|i: int| 0 <= i < self.entries@.len() && #[trigger] self.entries@[i].0@ == k;
                assert(keys[i] == k);
            }
            if keys.contains(k) {
                let i = choose|i: int| 0 <= i < keys.len() && keys[i] == k;
                assert(self.entries@[i].0@ == k);
            }
        }
        assert(self@.dom() =~= keys.to_set());
    }

    fn find(&self, key: &Vec<u8>) -> (r: Option<usize>)
        requires
            self.wf(),
        ensures
            match r {
                Some(i) => i < self.entries@.len() && self.entries@[i as int].0@ == key@,
                None => !self@.contains_key(key@),
            },
    {
        let mut i: usize = 0;
        while i < self.entries.len()
            invariant
                self.wf(),
                i <= self.entries@.len(),
                forall|j: int| 0 <= j < i ==> self.entries@[j].0@ != key@,
            decreases self.entries@.len() - i,
        {
            if bytes_eq(&self.entries[i].0, key) {
                return Some(i);
            }
            i = i + 1;
        }
        None
    }

    /// The value held under `key`, if any.
    pub fn get(&self, key: &Vec<u8>) -> (r: Option<&Vec<u8>>)
        requires
            self.wf(),
        ensures
            match r {
                Some(v) => self@.contains_key(key@) && self@[key@] == v@,
                None => !self@.contains_key(key@),
            },
    {
        match self.find(key) {
            Some(i) => Some(&self.entries[i].1),
            None => None,
        }
    }

    /// Sets the value of `key`.
    pub fn insert(&mut self, key: Vec<u8>, value: Vec<u8>)
        requires
            old(self).wf(),
        ensures
            final(self).wf(),
            final(self)@ == old(self)@.insert(key@, value@),
    {
        let ghost k = key@;
        let ghost v = value@;
        let ghost before = self.entries@;
        let ghost mut pos: int = 0;
        match self.find(&key) {
            Some(i) => {
                self.entries.set(i, (key, value));
                proof {
                    pos = i as int;
                }
            },
            None => {
                self.entries.push((key, value));
                proof {
                    pos = before.len() as int;
                    assert forall|j: int| 0 <= j < before.len() implies before[j].0@ != k by {
                        assert(old(self).model@.contains_key(before[j].0@));
                    }
                }
            },
        }
        self.model = Ghost(self.model@.insert(k, v));
        assert(self.entries@[pos].0@ == k && self.entries@[pos].1@ == v);
        assert forall|j: int| 0 <= j < self.entries@.len() && j != pos implies #[trigger] self.entries@[j] == before[j]
            && before[j].0@ != k by {}
        assert forall|k2: Seq<u8>| #[trigger] self.model@.contains_key(k2) implies exists|i: int|
            0 <= i < self.entries@.len() && #[trigger] self.entries@[i].0@ == k2 by {
            if k2 != k {
                let i = choose|i: int| 0 <= i < before.len() && #[trigger] before[i].0@ == k2;
                assert(self.entries@[i].0@ == k2);
            } else {
                assert(self.entries@[pos].0@ == k2);
            }
        }
        assert forall|a: int, b: int|
            0 <= a < self.entries@.len() && 0 <= b < self.entries@.len() && a != b
                implies #[trigger] self.entries@[a].0@ != #[trigger] self.entries@[b].0@ by {
            if a != pos && b != pos {
                assert(before[a].0@ != before[b].0@);
            }
        }
    }

    /// Takes `key` out of the storage, if it is there.
    pub fn remove(&mut self, key: &Vec<u8>)
        requires
            old(self).wf(),
        ensures
            final(self).wf(),
            final(self)@ == old(self)@.remove(key@),
    {
        match self.find(key) {
            Some(i) => {
                let ghost before = self.entries@;
                self.entries.remove(i);
                self.model = Ghost(self.model@.remove(key@));
                assert forall|j: int| 0 <= j < self.entries@.len() implies #[trigger] self.entries@[j] == (
                if j < i { before[j] } else { before[j + 1] }) by {}
                assert forall|j: int| 0 <= j < self.entries@.len() implies self.model@.contains_key(
                    #[trigger] self.entries@[j].0@) && self.model@[self.entries@[j].0@] == self.entries@[j].1@ by {
                    let jj = if j < i { j } else { j + 1 };
                    assert(before[jj].0@ != before[i as int].0@);
                }
                assert forall|k2: Seq<u8>| #[trigger] self.model@.contains_key(k2) implies exists|j: int|
                    0 <= j < self.entries@.len() && #[trigger] self.entries@[j].0@ == k2 by {
                    let jj = choose|jj: int| 0 <= jj < before.len() && #[trigger] before[jj].0@ == k2;
                    if jj < i {
                        assert(self.entries@[jj].0@ == k2);
                    } else {
                        assert(self.entries@[jj - 1].0@ == k2);
                    }
                }
                assert forall|a: int, b: int|
                    0 <= a < self.entries@.len() && 0 <= b < self.entries@.len() && a != b
                        implies #[trigger] self.entries@[a].0@ != #[trigger] self.entries@[b].0@ by {
                    let aa = if a < i { a } else { a + 1 };
                    let bb = if b < i { b } else { b + 1 };
                    assert(before[aa].0@ != before[bb].0@);
                }
            },
            None => {
                assert(self.model@.remove(key@) =~= self.model@);
            },
        }
    }

    /// The least key held that comes strictly after `key`, if there is one.
    pub fn next_key(&self, key: &Vec<u8>) -> (r: Option<Vec<u8>>)
        requires
            self.wf(),
        ensures
            match r {
                Some(n) => is_next_key(self@, key@, n@),
                None => forall|k: Seq<u8>| #[trigger] self@.contains_key(k) ==> !lex_lt(key@, k),
            },
    {
        let mut best: Option<usize> = None;
        let mut i: usize = 0;
        while i < self.entries.len()
            invariant
                self.wf(),
                i <= self.entries@.len(),
                match best {
                    Some(b) => b < i && lex_lt(key@, self.entries@[b as int].0@) && forall|j: int|
                        0 <= j < i && lex_lt(key@, #[trigger] self.entries@[j].0@)
                            ==> !lex_lt(self.entries@[j].0@, self.entries@[b as int].0@),
                    None => forall|j: int| 0 <= j < i ==> !lex_lt(key@, #[trigger] self.entries@[j].0@),
                },
            decreases self.entries@.len() - i,
        {
            let k = &self.entries[i].0;
            if bytes_lt(key, k) {
                match best {
                    Some(b) => {
                        if bytes_lt(k, &self.entries[b].0) {
                            let ghost kb = self.entries@[b as int].0@;
                            assert forall|j: int|
                                0 <= j < i + 1 && lex_lt(key@, #[trigger] self.entries@[j].0@)
                                    implies !lex_lt(self.entries@[j].0@, k@) by {
                                if j < i && lex_lt(self.entries@[j].0@, k@) {
                                    lemma_lex_lt_transitive(self.entries@[j].0@, k@, kb);
                                }
                                if j == i {
                                    lemma_lex_lt_irreflexive(k@);
                                }
                            }
                            best = Some(i);
                        }
                    },
                    None => {
                        proof {
                            lemma_lex_lt_irreflexive(k@);
                        }
                        best = Some(i);
                    },
                }
            }
            i = i + 1;
        }
        match best {
            Some(b) => {
                let ghost kb = self.entries@[b as int].0@;
                assert forall|k2: Seq<u8>| #[trigger]
                    self@.contains_key(k2) && lex_lt(key@, k2) implies !lex_lt(k2, kb) by {
                    let j = choose|j: int| 0 <= j < self.entries@.len() && #[trigger] self.entries@[j].0@ == k2;
                }
                Some(copy_bytes(&self.entries[b].0))
            },
            None => {
                assert forall|k2: Seq<u8>| #[trigger] self@.contains_key(k2) implies !lex_lt(key@, k2) by {
                    let j = choose|j: int| 0 <= j < self.entries@.len() && #[trigger] self.entries@[j].0@ == k2;
                }
                None
            },
        }
    }

    /// Every key held that starts with `prefix`, in ascending order.
    pub fn keys_with_prefix(&self, prefix: &Vec<u8>) -> (r: Vec<Vec<u8>>)
        requires
            self.wf(),
        ensures
            forall|i: int, j: int| 0 <= i < j < r@.len() ==> lex_lt(#[trigger] r@[i]@, #[trigger] r@[j]@),
            forall|i: int| 0 <= i < r@.len() ==> self@.contains_key(#[trigger] r@[i]@) && prefix@.is_prefix_of(r@[i]@),
            forall|k: Seq<u8>| #[trigger] self@.contains_key(k) && prefix@.is_prefix_of(k) ==> exists|i: int|
                0 <= i < r@.len() && #[trigger] r@[i]@ == k,
    {
        let mut r: Vec<Vec<u8>> = Vec::new();
        let mut i: usize = 0;
        while i < self.entries.len()
            invariant
                self.wf(),
                i <= self.entries@.len(),
                r@.len() <= i,
                forall|a: int| 0 <= a < r@.len() ==> exists|j: int| 0 <= j < i && #[trigger] r@[a]@ == self.entries@[j].0@,
                forall|a: int, b: int| 0 <= a < b < r@.len() ==> lex_lt(#[trigger] r@[a]@, #[trigger] r@[b]@),
                forall|a: int| 0 <= a < r@.len() ==> self@.contains_key(#[trigger] r@[a]@) && prefix@.is_prefix_of(r@[a]@),
                forall|j: int| 0 <= j < i && prefix@.is_prefix_of(#[trigger] self.entries@[j].0@) ==> exists|a: int|
                    0 <= a < r@.len() && #[trigger] r@[a]@ == self.entries@[j].0@,
            decreases self.entries@.len() - i,
        {
            let k = &self.entries[i].0;
            if bytes_starts_with(k, prefix) {
                let ghost old_r = r@;
                assert forall|a: int| 0 <= a < old_r.len() implies #[trigger] old_r[a]@ != k@ by {
                    let j = choose|j: int| 0 <= j < i && #[trigger] old_r[a]@ == self.entries@[j].0@;
                    assert(self.entries@[j].0@ != self.entries@[i as int].0@);
                }
                let mut p: usize = 0;
                while p < r.len() && bytes_lt(&r[p], k)
                    invariant
                        r@ == old_r,
                        p <= old_r.len(),
                        forall|a: int| 0 <= a < p ==> lex_lt(#[trigger] old_r[a]@, k@),
                    decreases old_r.len() - p,
                {
                    p = p + 1;
                }
                proof {
                    assert forall|a: int| p <= a < old_r.len() implies lex_lt(k@, #[trigger] old_r[a]@) by {
                        lemma_lex_lt_total(old_r[p as int]@, k@);
                        if a > p {
                            lemma_lex_lt_transitive(k@, old_r[p as int]@, old_r[a]@);
                        }
                    }
                }
                r.insert(p, copy_bytes(k));
                assert forall|a: int| 0 <= a < r@.len() implies #[trigger] r@[a] == (if a < p {
                    old_r[a]
                } else if a == p {
                    r@[a]
                } else {
                    old_r[a - 1]
                }) by {}
                assert(r@[p as int]@ == k@);
                assert forall|a: int, b: int| 0 <= a < b < r@.len() implies lex_lt(#[trigger] r@[a]@, #[trigger] r@[b]@) by {
                    if a < p && b > p {
                        lemma_lex_lt_transitive(old_r[a]@, k@, old_r[b - 1]@);
                    }
                }
                assert forall|a: int| 0 <= a < r@.len() implies exists|j: int| 0 <= j < i + 1 && #[trigger] r@[a]@ == self.entries@[j].0@ by {
                    if a < p {
                        let j = choose|j: int| 0 <= j < i && #[trigger] old_r[a]@ == self.entries@[j].0@;
                        assert(r@[a]@ == self.entries@[j].0@);
                    } else if a == p {
                        assert(r@[a]@ == self.entries@[i as int].0@);
                    } else {
                        let j = choose|j: int| 0 <= j < i && #[trigger] old_r[a - 1]@ == self.entries@[j].0@;
                        assert(r@[a]@ == self.entries@[j].0@);
                    }
                }
                assert forall|a: int| 0 <= a < r@.len() implies self@.contains_key(#[trigger] r@[a]@) && prefix@.is_prefix_of(r@[a]@) by {
                    if a > p {
                        assert(r@[a] == old_r[a - 1]);
                    }
                }
                assert forall|j: int| 0 <= j < i + 1 && prefix@.is_prefix_of(#[trigger] self.entries@[j].0@) implies exists|a: int|
                    0 <= a < r@.len() && #[trigger] r@[a]@ == self.entries@[j].0@ by {
                    if j < i {
                        let a = choose|a: int| 0 <= a < old_r.len() && #[trigger] old_r[a]@ == self.entries@[j].0@;
                        if a < p {
                            assert(r@[a]@ == self.entries@[j].0@);
                        } else {
                            assert(r@[a + 1]@ == self.entries@[j].0@);
                        }
                    } else {
                        assert(r@[p as int]@ == self.entries@[j].0@);
                    }
                }
            }
            i = i + 1;
        }
        assert forall|k2: Seq<u8>| #[trigger] self@.contains_key(k2) && prefix@.is_prefix_of(k2) implies exists|a: int|
            0 <= a < r@.len() && #[trigger] r@[a]@ == k2 by {
            let j = choose|j: int| 0 <= j < self.entries@.len() && #[trigger] self.entries@[j].0@ == k2;
        }
        r
    }

    /// Applies every change of `diff`.
    pub fn apply_diff(&mut self, diff: &StorageDiff)
        requires
            old(self).wf(),
            diff.wf(),
        ensures
            final(self).wf(),
            final(self)@ == apply_diff_spec(old(self)@, diff@),
    {
        let ghost mut applied: Map<Seq<u8>, Option<Seq<u8>>> = Map::empty();
        assert(apply_diff_spec(self@, applied) =~= self@);
        let mut i: usize = 0;
        while i < diff.entries.len()
            invariant
                self.wf(),
                diff.wf(),
                i <= diff.entries@.len(),
                self@ == apply_diff_spec(old(self)@, applied),
                forall|k: Seq<u8>| #[trigger] applied.contains_key(k) ==> diff@.contains_key(k) && applied[k] == diff@[k],
                forall|j: int| 0 <= j < i ==> applied.contains_key(#[trigger] diff.entries@[j].0@),
            decreases diff.entries@.len() - i,
        {
            let key = &diff.entries[i].0;
            let ghost kv = key@;
            let ghost vv = opt_bytes(diff.entries@[i as int].1);
            match &diff.entries[i].1 {
                Some(v) => {
                    self.insert(copy_bytes(key), copy_bytes(v));
                },
                None => {
                    self.remove(key);
                },
            }
            proof {
                let prev = applied;
                applied = applied.insert(kv, vv);
                assert(self@ =~= apply_diff_spec(old(self)@, applied));
                assert forall|j: int| 0 <= j < i + 1 implies applied.contains_key(#[trigger] diff.entries@[j].0@) by {
                    if j < i {
                        assert(prev.contains_key(diff.entries@[j].0@));
                    }
                }
            }
            i = i + 1;
        }
        assert forall|k: Seq<u8>| #[trigger] diff@.contains_key(k) implies applied.contains_key(k) by {
            let j = choose|j: int| 0 <= j < diff.entries@.len() && #[trigger] diff.entries@[j].0@ == k;
        }
        assert(applied =~= diff@);
    }
}

/// The view of an optional byte string.
pub open spec fn opt_bytes(o: Option<Vec<u8>>) -> Option<Seq<u8>> {
    match o {
        Some(v) => Some(v@),
        None => None,
    }
}

/// The changes that one block makes to storage: for each key it names, the
/// new value, or `None` where the key is deleted.
pub struct StorageDiff {
    entries: Vec<(Vec<u8>, Option<Vec<u8>>)>,
    model: Ghost<Map<Seq<u8>, Option<Seq<u8>>>>,
}

impl View for StorageDiff {
    type V = Map<Seq<u8>, Option<Seq<u8>>>;

    closed spec fn view(&self) -> Map<Seq<u8>, Option<Seq<u8>>> {
        self.model@
    }
}

impl StorageDiff {
    /// Each key is named once, and the entries are exactly the view.
    pub closed spec fn wf(&self) -> bool {
        &&& forall|i: int, j: int|
            0 <= i < self.entries@.len() && 0 <= j < self.entries@.len() && i != j
                ==> #[trigger] self.entries@[i].0@ != #[trigger] self.entries@[j].0@
        &&& forall|i: int|
            0 <= i < self.entries@.len() ==> self.model@.contains_key(#[trigger] self.entries@[i].0@)
                && self.model@[self.entries@[i].0@] == opt_bytes(self.entries@[i].1)
        &&& forall|k: Seq<u8>| #[trigger]
            self.model@.contains_key(k) ==> exists|i: int|
                0 <= i < self.entries@.len() && #[trigger] self.entries@[i].0@ == k
    }

    /// A diff that changes nothing.
    pub fn new() -> (r: Self)
        ensures
            r.wf(),
            r@ == Map::<Seq<u8>, Option<Seq<u8>>>::empty(),
    {
        StorageDiff { entries: Vec::new(), model: Ghost(Map::empty()) }
    }

    fn find(&self, key: &Vec<u8>) -> (r: Option<usize>)
        requires
            self.wf(),
        ensures
            match r {
                Some(i) => i < self.entries@.len() && self.entries@[i as int].0@ == key@,
                None => !self@.contains_key(key@),
            },
    {
        let mut i: usize = 0;
        while i < self.entries.len()
            invariant
                self.wf(),
                i <= self.entries@.len(),
                forall|j: int| 0 <= j < i ==> self.entries@[j].0@ != key@,
            decreases self.entries@.len() - i,
        {
            if bytes_eq(&self.entries[i].0, key) {
                return Some(i);
            }
            i = i + 1;
        }
        None
    }

    /// What the diff says of `key`: `Some(None)` where it deletes the key.
    pub fn get(&self, key: &Vec<u8>) -> (r: Option<&Option<Vec<u8>>>)
        requires
            self.wf(),
        ensures
            match r {
                Some(v) => self@.contains_key(key@) && self@[key@] == opt_bytes(*v),
                None => !self@.contains_key(key@),
            },
    {
        match self.find(key) {
            Some(i) => Some(&self.entries[i].1),
            None => None,
        }
    }

    /// Whether the diff names `key`.
    pub fn touches(&self, key: &Vec<u8>) -> (r: bool)
        requires
            self.wf(),
        ensures
            r == self@.contains_key(key@),
    {
        self.find(key).is_some()
    }

    /// Records that `key` takes `value` (`None`: is deleted), replacing what
    /// the diff said of it before.
    pub fn set(&mut self, key: Vec<u8>, value: Option<Vec<u8>>)
        requires
            old(self).wf(),
        ensures
            final(self).wf(),
            final(self)@ == old(self)@.insert(key@, opt_bytes(value)),
    {
        let ghost k = key@;
        let ghost v = opt_bytes(value);
        let ghost before = self.entries@;
        let ghost mut pos: int = 0;
        match self.find(&key) {
            Some(i) => {
                self.entries.set(i, (key, value));
                proof {
                    pos = i as int;
                }
            },
            None => {
                self.entries.push((key, value));
                proof {
                    pos = before.len() as int;
                    assert forall|j: int| 0 <= j < before.len() implies before[j].0@ != k by {
                        assert(old(self).model@.contains_key(before[j].0@));
                    }
                }
            },
        }
        self.model = Ghost(self.model@.insert(k, v));
        assert(self.entries@[pos].0@ == k && opt_bytes(self.entries@[pos].1) == v);
        assert forall|j: int| 0 <= j < self.entries@.len() && j != pos implies #[trigger] self.entries@[j] == before[j]
            && before[j].0@ != k by {}
        assert forall|k2: Seq<u8>| #[trigger] self.model@.contains_key(k2) implies exists|i: int|
            0 <= i < self.entries@.len() && #[trigger] self.entries@[i].0@ == k2 by {
            if k2 != k {
                let i = choose|i: int| 0 <= i < before.len() && #[trigger] before[i].0@ == k2;
                assert(self.entries@[i].0@ == k2);
            } else {
                assert(self.entries@[pos].0@ == k2);
            }
        }
        assert forall|a: int, b: int|
            0 <= a < self.entries@.len() && 0 <= b < self.entries@.len() && a != b
                implies #[trigger] self.entries@[a].0@ != #[trigger] self.entries@[b].0@ by {
            if a != pos && b != pos {
                assert(before[a].0@ != before[b].0@);
            }
        }
    }

    /// Every key that the diff names, each once.
    pub fn keys(&self) -> (r: Vec<Vec<u8>>)
        requires
            self.wf(),
        ensures
            forall|i: int, j: int|
                0 <= i < r@.len() && 0 <= j < r@.len() && i != j ==> #[trigger] r@[i]@ != #[trigger] r@[j]@,
            forall|i: int| 0 <= i < r@.len() ==> self@.contains_key(#[trigger] r@[i]@),
            forall|k: Seq<u8>| #[trigger] self@.contains_key(k) ==> exists|i: int|
                0 <= i < r@.len() && #[trigger] r@[i]@ == k,
    {
        let mut r: Vec<Vec<u8>> = Vec::new();
        let mut i: usize = 0;
        while i < self.entries.len()
            invariant
                self.wf(),
                i <= self.entries@.len(),
                r@.len() == i,
                forall|a: int| 0 <= a < i ==> #[trigger] r@[a]@ == self.entries@[a].0@,
            decreases self.entries@.len() - i,
        {
            r.push(copy_bytes(&self.entries[i].0));
            i = i + 1;
        }
        assert forall|a: int, b: int|
            0 <= a < r@.len() && 0 <= b < r@.len() && a != b implies #[trigger] r@[a]@ != #[trigger] r@[b]@ by {
            assert(self.entries@[a].0@ != self.entries@[b].0@);
        }
        assert forall|k: Seq<u8>| #[trigger] self@.contains_key(k) implies exists|a: int|
            0 <= a < r@.len() && #[trigger] r@[a]@ == k by {
            let j = choose|j: int| 0 <= j < self.entries@.len() && #[trigger] self.entries@[j].0@ == k;
            assert(r@[j]@ == k);
        }
        r
    }
}

} // verus!
