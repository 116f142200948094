//! Key-to-value-or-tombstone tables: the sorted table of consensus changes,
//! keyed by strings, and the table of non-consensus changes, keyed by bytes.
use vstd::prelude::*;

use crate::keys::{bytes_less, bytes_lt, lemma_bytes_lt_total, lemma_bytes_lt_transitive, has_prefix, key_less, key_lt, lemma_key_lt_irreflexive, lemma_key_lt_total, lemma_key_lt_transitive, starts_with};

verus! {

/// What an optional byte vector holds.
pub open spec fn bytes_opt(o: Option<Vec<u8>>) -> Option<Seq<u8>> {
    match o {
        Some(v) => Some(v@),
        None => None,
    }
}

/// The entries of `m` that hold a value (tombstones dropped).
pub open spec fn present<K>(m: Map<K, Option<Seq<u8>>>) -> Map<K, Seq<u8>> {
    Map::new(|k: K| m.contains_key(k) && m[k] is Some, |k: K| m[k]->Some_0)
}

/// A read of `k` in `m`: the value, or absent.
pub open spec fn read<K>(m: Map<K, Seq<u8>>, k: K) -> Option<Seq<u8>> {
    if m.contains_key(k) {
        Some(m[k])
    } else {
        None
    }
}

/// The view through `changes` onto `base`: a pending value replaces the base
/// entry, a pending tombstone hides it, and other keys fall through.
pub open spec fn overlay<K>(base: Map<K, Seq<u8>>, changes: Map<K, Option<Seq<u8>>>) -> Map<K, Seq<u8>> {
    Map::new(
        |k: K|
            if changes.contains_key(k) {
                changes[k] is Some
            } else {
                base.contains_key(k)
            },
        |k: K|
            if changes.contains_key(k) {
                changes[k]->Some_0
            } else {
                base[k]
            },
    )
}

/// `r` lists exactly the entries of `m` whose key starts with `p`, each once,
/// in strictly ascending key order.
pub open spec fn is_listing(r: Seq<(Seq<char>, Seq<u8>)>, m: Map<Seq<char>, Seq<u8>>, p: Seq<char>) -> bool {
    &&& forall|i: int, j: int| 0 <= i < j < r.len() ==> key_lt(#[trigger] r[i].0, #[trigger] r[j].0)
    &&& forall|i: int|
        0 <= i < r.len() ==> has_prefix(#[trigger] r[i].0, p) && m.contains_key(r[i].0) && m[r[i].0]
            == r[i].1
    &&& forall|k: Seq<char>|
        #![trigger m.contains_key(k)]
        m.contains_key(k) && has_prefix(k, p) ==> exists|i: int| 0 <= i < r.len() && r[i].0 == k
}

/// The plain values of a listing.
pub open spec fn listing_view(v: Seq<(String, Vec<u8>)>) -> Seq<(Seq<char>, Seq<u8>)> {
    v.map_values(|e: (String, Vec<u8>)| (e.0@, e.1@))
}

/// Copies a byte vector.
pub fn copy_bytes(v: &Vec<u8>) -> (r: Vec<u8>)
    ensures
        r@ == v@,
{
    let mut r: Vec<u8> = Vec::new();
    let mut i: usize = 0;
    while i < v.len()
        invariant
            i <= v.len(),
            r@ == v@.subrange(0, i as int),
        decreases v.len() - i,
    {
        r.push(v[i]);
        i = i + 1;
        proof {
            assert(r@ =~= v@.subrange(0, i as int));
        }
    }
    proof {
        assert(r@ =~= v@);
    }
    r
}

/// Copies an optional byte vector.
pub fn copy_opt(o: &Option<Vec<u8>>) -> (r: Option<Vec<u8>>)
    ensures
        bytes_opt(r) == bytes_opt(*o),
{
    match o {
        Some(v) => Some(copy_bytes(v)),
        None => None,
    }
}

/// Pending changes to consensus keys: one slot per key, value or tombstone,
/// held in ascending key order.
pub struct ChangeSet {
    entries: Vec<(String, Option<Vec<u8>>)>,
    contents: Ghost<Map<Seq<char>, Option<Seq<u8>>>>,
}

impl ChangeSet {
    pub closed spec fn len_spec(&self) -> nat {
        self.entries@.len()
    }

    pub closed spec fn key_at(&self, i: int) -> Seq<char> {
        self.entries@[i].0@
    }

    pub closed spec fn val_at(&self, i: int) -> Option<Seq<u8>> {
        bytes_opt(self.entries@[i].1)
    }

    pub closed spec fn view(&self) -> Map<Seq<char>, Option<Seq<u8>>> {
        self.contents@
    }

    pub closed spec fn wf(&self) -> bool {
        &&& forall|i: int, j: int|
            0 <= i < j < self.len_spec() ==> key_lt(#[trigger] self.key_at(i), #[trigger] self.key_at(j))
        &&& forall|i: int|
            0 <= i < self.len_spec() ==> self@.contains_key(#[trigger] self.key_at(i)) && self@[self.key_at(i)]
                == self.val_at(i)
        &&& forall|k: Seq<char>|
            #![trigger self@.contains_key(k)]
            self@.contains_key(k) ==> exists|i: int| 0 <= i < self.len_spec() && self.key_at(i) == k
    }

    /// An empty table.
    pub fn new() -> (r: ChangeSet)
        ensures
            r.wf(),
            r@ == Map::<Seq<char>, Option<Seq<u8>>>::empty(),
    {
        ChangeSet { entries: Vec::new(), contents: Ghost(Map::empty()) }
    }

    /// The position of `key`: every earlier entry sorts before it, and the
    /// entry there, if any, is `key` itself (`true`) or sorts after it.
    fn find(&self, key: &str) -> (r: (bool, usize))
        requires
            self.wf(),
        ensures
            r.1 <= self.len_spec(),
            forall|i: int| 0 <= i < r.1 ==> key_lt(#[trigger] self.key_at(i), key@),
            forall|i: int| r.1 < i < self.len_spec() ==> key_lt(key@, #[trigger] self.key_at(i)),
            r.0 ==> r.1 < self.len_spec() && self.key_at(r.1 as int) == key@,
            !r.0 ==> r.1 == self.len_spec() || key_lt(key@, self.key_at(r.1 as int)),
    {
        let mut i: usize = 0;
        while i < self.entries.len()
            invariant
                self.wf(),
                i <= self.len_spec(),
                forall|j: int| 0 <= j < i ==> key_lt(#[trigger] self.key_at(j), key@),
            decreases self.entries.len() - i,
        {
            let k = &self.entries[i].0;
            if !key_less(k.as_str(), key) {
                let found = !key_less(key, k.as_str());
                proof {
                    lemma_key_lt_total(key@, self.key_at(i as int));
                    if found {
                        lemma_key_lt_irreflexive(key@);
                    }
                    assert forall|j: int| i < j < self.len_spec() implies key_lt(key@, #[trigger] self.key_at(j)) by {
                        if found {
                            assert(key_lt(self.key_at(i as int), self.key_at(j)));
                        } else {
                            lemma_key_lt_transitive(key@, self.key_at(i as int), self.key_at(j));
                        }
                    }
                }
                return (found, i);
            }
            i = i + 1;
        }
        (false, i)
    }

    /// The pending slot for `key`: `None` when the table has none, else the
    /// value or tombstone staged there.
    pub fn get(&self, key: &str) -> (r: Option<Option<Vec<u8>>>)
        requires
            self.wf(),
        ensures
            r is Some <==> self@.contains_key(key@),
            r is Some ==> bytes_opt(r->Some_0) == self@[key@],
    {
        let (found, i) = self.find(key);
        if found {
            Some(copy_opt(&self.entries[i].1))
        } else {
            proof {
                if self@.contains_key(key@) {
                    let j = choose|j: int| 0 <= j < self.len_spec() && self.key_at(j) == key@;
                    lemma_key_lt_irreflexive(key@);
                    if j == i {
                    } else {
                        assert(key_lt(self.key_at(j), key@) || key_lt(key@, self.key_at(j)));
                    }
                }
            }
            None
        }
    }

    /// Stages `value` for `key`, replacing whatever was staged for it.
    pub fn insert(&mut self, key: String, value: Option<Vec<u8>>)
        requires
            old(self).wf(),
        ensures
            final(self).wf(),
            final(self)@ == old(self)@.insert(key@, bytes_opt(value)),
    {
        let (found, i) = self.find(key.as_str());
        let ghost k = key@;
        let ghost v = bytes_opt(value);
        let ghost pre = *self;
        if found {
            self.entries.set(i, (key, value));
        } else {
            self.entries.insert(i, (key, value));
        }
        self.contents = Ghost(self.contents@.insert(k, v));
        proof {
            if found {
                assert forall|j: int| 0 <= j < self.len_spec() && j != i implies #[trigger] self.key_at(j)
                    == pre.key_at(j) && self.val_at(j) == pre.val_at(j) by {}
                assert forall|j: int| 0 <= j < self.len_spec() && j != i implies #[trigger] self.key_at(j)
                    != k by {
                    lemma_key_lt_irreflexive(k);
                }
                assert forall|kk: Seq<char>| #![trigger self@.contains_key(kk)] self@.contains_key(kk)
                    implies exists|j: int| 0 <= j < self.len_spec() && self.key_at(j) == kk by {
                    if kk != k {
                        let j = choose|j: int| 0 <= j < pre.len_spec() && pre.key_at(j) == kk;
                        assert(self.key_at(j) == kk);
                    } else {
                        assert(self.key_at(i as int) == kk);
                    }
                }
            } else {
                assert forall|j: int| 0 <= j < i implies #[trigger] self.key_at(j) == pre.key_at(j)
                    && self.val_at(j) == pre.val_at(j) by {}
                assert forall|j: int| i < j < self.len_spec() implies #[trigger] self.key_at(j)
                    == pre.key_at(j - 1) && self.val_at(j) == pre.val_at(j - 1) by {}
                assert(self.key_at(i as int) == k);
                assert forall|a: int, b: int| 0 <= a < b < self.len_spec() implies key_lt(
                    #[trigger] self.key_at(a),
                    #[trigger] self.key_at(b),
                ) by {
                    if b < i {
                    } else if a < i && b == i {
                    } else if a < i {
                        assert(key_lt(pre.key_at(a), pre.key_at(b - 1)));
                    } else if a == i {
                        if b - 1 > i {
                            assert(key_lt(k, pre.key_at(b - 1)));
                        }
                    } else {
                        assert(key_lt(pre.key_at(a - 1), pre.key_at(b - 1)));
                    }
                }
                assert forall|j: int| 0 <= j < self.len_spec() && j != i implies #[trigger] self.key_at(j)
                    != k by {
                    lemma_key_lt_irreflexive(k);
                }
                assert forall|kk: Seq<char>| #![trigger self@.contains_key(kk)] self@.contains_key(kk)
                    implies exists|j: int| 0 <= j < self.len_spec() && self.key_at(j) == kk by {
                    if kk != k {
                        let j = choose|j: int| 0 <= j < pre.len_spec() && pre.key_at(j) == kk;
                        if j < i {
                            assert(self.key_at(j) == kk);
                        } else {
                            assert(self.key_at(j + 1) == kk);
                        }
                    } else {
                        assert(self.key_at(i as int) == kk);
                    }
                }
            }
        }
    }

    /// Stages every slot of `other` over this table; where both hold a key,
    /// the slot of `other` wins.
    pub fn extend(&mut self, other: &ChangeSet)
        requires
            old(self).wf(),
            other.wf(),
        ensures
            final(self).wf(),
            final(self)@ == old(self)@.union_prefer_right(other@),
    {
        let ghost start = self@;
        let mut i: usize = 0;
        while i < other.entries.len()
            invariant
                self.wf(),
                other.wf(),
                i <= other.len_spec(),
                forall|k: Seq<char>|
                    #[trigger] self@.contains_key(k) <==> start.contains_key(k) || exists|j: int|
                        0 <= j < i && other.key_at(j) == k,
                forall|j: int| 0 <= j < i ==> self@[#[trigger] other.key_at(j)] == other.val_at(j),
                forall|k: Seq<char>|
                    start.contains_key(k) && !(exists|j: int| 0 <= j < i && other.key_at(j) == k)
                        ==> #[trigger] self@[k] == start[k],
            decreases other.entries.len() - i,
        {
            let key = other.entries[i].0.clone();
            let value = copy_opt(&other.entries[i].1);
            let ghost pre = self@;
            self.insert(key, value);
            proof {
                assert forall|j: int| 0 <= j < i implies other.key_at(j) != other.key_at(i as int) by {
                    lemma_key_lt_irreflexive(other.key_at(j));
                }
                assert forall|k: Seq<char>| start.contains_key(k)
                    || exists|j: int| 0 <= j < i + 1 && other.key_at(j) == k implies #[trigger] self@.contains_key(k) by {
                    if exists|j: int| 0 <= j < i + 1 && other.key_at(j) == k {
                        let j = choose|j: int| 0 <= j < i + 1 && other.key_at(j) == k;
                        if j < i {
                            assert(pre.contains_key(k));
                        }
                    }
                }
                assert forall|k: Seq<char>| #[trigger] self@.contains_key(k) implies start.contains_key(k)
                    || exists|j: int| 0 <= j < i + 1 && other.key_at(j) == k by {
                    if k != other.key_at(i as int) {
                        assert(pre.contains_key(k));
                        if !start.contains_key(k) {
                            let j = choose|j: int| 0 <= j < i && other.key_at(j) == k;
                            assert(0 <= j < i + 1 && other.key_at(j) == k);
                        }
                    } else {
                        assert(0 <= i < i + 1 && other.key_at(i as int) == k);
                    }
                }
                assert forall|k: Seq<char>|
                    start.contains_key(k) && !(exists|j: int| 0 <= j < i + 1 && other.key_at(j) == k)
                        implies #[trigger] self@[k] == start[k] by {
                    assert(other.key_at(i as int) != k);
                }
            }
            i = i + 1;
        }
        proof {
            assert forall|k: Seq<char>| #[trigger] other@.contains_key(k) implies exists|j: int|
                0 <= j < other.len_spec() && other.key_at(j) == k by {}
            assert(self@ =~= start.union_prefer_right(other@));
        }
    }

    /// A copy of this table.
    pub fn duplicate(&self) -> (r: ChangeSet)
        requires
            self.wf(),
        ensures
            r.wf(),
            r@ == self@,
    {
        let mut r = ChangeSet::new();
        r.extend(self);
        proof {
            assert(r@ =~= self@);
        }
        r
    }

    /// The entries that hold a value and whose key starts with `prefix`, in
    /// ascending key order.
    pub fn scan_prefix(&self, prefix: &str) -> (r: Vec<(String, Vec<u8>)>)
        requires
            self.wf(),
        ensures
            is_listing(listing_view(r@), present(self@), prefix@),
    {
        let mut r: Vec<(String, Vec<u8>)> = Vec::new();
        let mut i: usize = 0;
        while i < self.entries.len()
            invariant
                self.wf(),
                i <= self.len_spec(),
                forall|a: int, j: int| 0 <= a < r@.len() && i <= j < self.len_spec() ==> key_lt(#[trigger] listing_view(r@)[a].0, #[trigger] self.key_at(j)),
                forall|a: int, b: int| 0 <= a < b < r@.len() ==> key_lt(#[trigger] listing_view(r@)[a].0, #[trigger] listing_view(r@)[b].0),
                forall|a: int| 0 <= a < r@.len() ==> has_prefix(#[trigger] listing_view(r@)[a].0, prefix@)
                    && present(self@).contains_key(listing_view(r@)[a].0)
                    && present(self@)[listing_view(r@)[a].0] == listing_view(r@)[a].1,
                forall|j: int| 0 <= j < i && has_prefix(self.key_at(j), prefix@) && self.val_at(j) is Some
                    ==> exists|a: int| 0 <= a < r@.len() && #[trigger] listing_view(r@)[a].0 == #[trigger] self.key_at(j),
            decreases self.entries.len() - i,
        {
            let k = &self.entries[i].0;
            if starts_with(k.as_str(), prefix) {
                match &self.entries[i].1 {
                    Some(v) => {
                        let ghost pre = r@;
                        r.push((k.clone(), copy_bytes(v)));
                        proof {
                            assert(listing_view(r@) =~= listing_view(pre).push((self.key_at(i as int), self.val_at(i as int)->Some_0)));
                            assert forall|a: int, j: int| 0 <= a < r@.len() && i + 1 <= j < self.len_spec() implies key_lt(#[trigger] listing_view(r@)[a].0, #[trigger] self.key_at(j)) by {
                                if a < pre.len() {
                                    assert(listing_view(r@)[a] == listing_view(pre)[a]);
                                } else {
                                    assert(listing_view(r@)[a].0 == self.key_at(i as int));
                                }
                            }
                            assert forall|a: int, b: int| 0 <= a < b < r@.len() implies key_lt(#[trigger] listing_view(r@)[a].0, #[trigger] listing_view(r@)[b].0) by {
                                if b == pre.len() {
                                    assert(listing_view(r@)[a] == listing_view(pre)[a]);
                                    assert(key_lt(listing_view(pre)[a].0, self.key_at(i as int)));
                                } else {
                                    assert(listing_view(r@)[a] == listing_view(pre)[a]);
                                    assert(listing_view(r@)[b] == listing_view(pre)[b]);
                                }
                            }
                            assert forall|a: int| 0 <= a < r@.len() implies has_prefix(#[trigger] listing_view(r@)[a].0, prefix@)
                                && present(self@).contains_key(listing_view(r@)[a].0)
                                && present(self@)[listing_view(r@)[a].0] == listing_view(r@)[a].1 by {
                                if a < pre.len() {
                                    assert(listing_view(r@)[a] == listing_view(pre)[a]);
                                }
                            }
                            assert forall|j: int| 0 <= j < i + 1 && has_prefix(self.key_at(j), prefix@) && self.val_at(j) is Some
                                implies exists|a: int| 0 <= a < r@.len() && #[trigger] listing_view(r@)[a].0 == #[trigger] self.key_at(j) by {
                                if j < i {
                                    let a = choose|a: int| 0 <= a < pre.len() && #[trigger] listing_view(pre)[a].0 == self.key_at(j);
                                    assert(listing_view(r@)[a] == listing_view(pre)[a]);
                                } else {
                                    assert(listing_view(r@)[pre.len() as int].0 == self.key_at(j));
                                }
                            }
                        }
                    },
                    None => {},
                }
            }
            i = i + 1;
        }
        proof {
            let m = present(self@);
            assert forall|k: Seq<char>| #![trigger m.contains_key(k)] m.contains_key(k) && has_prefix(k, prefix@)
                implies exists|a: int| 0 <= a < listing_view(r@).len() && listing_view(r@)[a].0 == k by {
                assert(self@.contains_key(k));
                let j = choose|j: int| 0 <= j < self.len_spec() && self.key_at(j) == k;
                assert(self.val_at(j) is Some);
                let a = choose|a: int| 0 <= a < r@.len() && #[trigger] listing_view(r@)[a].0 == #[trigger] self.key_at(j);
            }
        }
        r
    }
}

/// Tests two byte strings for equality.
pub fn bytes_equal(a: &[u8], b: &[u8]) -> (r: bool)
    ensures
        r == (a@ == b@),
{
    if a.len() != b.len() {
        return false;
    }
    let mut i: usize = 0;
    while i < a.len()
        invariant
            a@.len() == b@.len(),
            i <= a@.len(),
            forall|j: int| 0 <= j < i ==> a@[j] == b@[j],
        decreases a.len() - i,
    {
        if a[i] != b[i] {
            return false;
        }
        i = i + 1;
    }
    proof {
        assert(a@ =~= b@);
    }
    true
}

/// Pending changes to non-consensus keys: one slot per byte key, value or
/// tombstone.
pub struct ByteChanges {
    entries: Vec<(Vec<u8>, Option<Vec<u8>>)>,
    contents: Ghost<Map<Seq<u8>, Option<Seq<u8>>>>,
}

impl ByteChanges {
    pub closed spec fn len_spec(&self) -> nat {
        self.entries@.len()
    }

    pub closed spec fn key_at(&self, i: int) -> Seq<u8> {
        self.entries@[i].0@
    }

    pub closed spec fn val_at(&self, i: int) -> Option<Seq<u8>> {
        bytes_opt(self.entries@[i].1)
    }

    pub closed spec fn view(&self) -> Map<Seq<u8>, Option<Seq<u8>>> {
        self.contents@
    }

    pub closed spec fn wf(&self) -> bool {
        &&& forall|i: int, j: int|
            0 <= i < j < self.len_spec() ==> #[trigger] self.key_at(i) != #[trigger] self.key_at(j)
        &&& forall|i: int|
            0 <= i < self.len_spec() ==> self@.contains_key(#[trigger] self.key_at(i)) && self@[self.key_at(i)]
                == self.val_at(i)
        &&& forall|k: Seq<u8>|
            #![trigger self@.contains_key(k)]
            self@.contains_key(k) ==> exists|i: int| 0 <= i < self.len_spec() && self.key_at(i) == k
    }

    /// An empty table.
    pub fn new() -> (r: ByteChanges)
        ensures
            r.wf(),
            r@ == Map::<Seq<u8>, Option<Seq<u8>>>::empty(),
    {
        ByteChanges { entries: Vec::new(), contents: Ghost(Map::empty()) }
    }

    /// The index of `key`, if the table holds it.
    fn find(&self, key: &[u8]) -> (r: Option<usize>)
        requires
            self.wf(),
        ensures
            r is Some ==> r->Some_0 < self.len_spec() && self.key_at(r->Some_0 as int) == key@,
            r is None ==> !self@.contains_key(key@),
    {
        let mut i: usize = 0;
        while i < self.entries.len()
            invariant
                self.wf(),
                i <= self.len_spec(),
                forall|j: int| 0 <= j < i ==> #[trigger] self.key_at(j) != key@,
            decreases self.entries.len() - i,
        {
            if bytes_equal(self.entries[i].0.as_slice(), key) {
                return Some(i);
            }
            i = i + 1;
        }
        None
    }

    /// The pending slot for `key`: `None` when the table has none, else the
    /// value or tombstone staged there.
    pub fn get(&self, key: &[u8]) -> (r: Option<Option<Vec<u8>>>)
        requires
            self.wf(),
        ensures
            r is Some <==> self@.contains_key(key@),
            r is Some ==> bytes_opt(r->Some_0) == self@[key@],
    {
        match self.find(key) {
            Some(i) => Some(copy_opt(&self.entries[i].1)),
            None => None,
        }
    }

    /// Stages `value` for `key`, replacing whatever was staged for it.
    pub fn insert(&mut self, key: Vec<u8>, value: Option<Vec<u8>>)
        requires
            old(self).wf(),
        ensures
            final(self).wf(),
            final(self)@ == old(self)@.insert(key@, bytes_opt(value)),
    {
        let found = self.find(key.as_slice());
        let ghost k = key@;
        let ghost v = bytes_opt(value);
        let ghost pre = *self;
        match found {
            Some(i) => {
                self.entries.set(i, (key, value));
                self.contents = Ghost(self.contents@.insert(k, v));
                proof {
                    assert forall|j: int| 0 <= j < self.len_spec() && j != i implies #[trigger] self.key_at(j)
                        == pre.key_at(j) && self.val_at(j) == pre.val_at(j) && self.key_at(j) != k by {}
                    assert forall|kk: Seq<u8>| #![trigger self@.contains_key(kk)] self@.contains_key(kk)
                        implies exists|j: int| 0 <= j < self.len_spec() && self.key_at(j) == kk by {
                        if kk != k {
                            let j = choose|j: int| 0 <= j < pre.len_spec() && pre.key_at(j) == kk;
                            assert(self.key_at(j) == kk);
                        } else {
                            assert(self.key_at(i as int) == kk);
                        }
                    }
                }
            },
            None => {
                self.entries.push((key, value));
                self.contents = Ghost(self.contents@.insert(k, v));
                proof {
                    let n = pre.len_spec() as int;
                    assert forall|j: int| 0 <= j < n implies #[trigger] self.key_at(j) == pre.key_at(j)
                        && self.val_at(j) == pre.val_at(j) && pre.key_at(j) != k by {
                        assert(pre@.contains_key(pre.key_at(j)));
                    }
                    assert(self.key_at(n) == k);
                    assert forall|kk: Seq<u8>| #![trigger self@.contains_key(kk)] self@.contains_key(kk)
                        implies exists|j: int| 0 <= j < self.len_spec() && self.key_at(j) == kk by {
                        if kk != k {
                            let j = choose|j: int| 0 <= j < pre.len_spec() && pre.key_at(j) == kk;
                            assert(self.key_at(j) == kk);
                        } else {
                            assert(self.key_at(n) == kk);
                        }
                    }
                }
            },
        }
    }

    /// Stages every slot of `other` over this table; where both hold a key,
    /// the slot of `other` wins.
    pub fn extend(&mut self, other: &ByteChanges)
        requires
            old(self).wf(),
            other.wf(),
        ensures
            final(self).wf(),
            final(self)@ == old(self)@.union_prefer_right(other@),
    {
        let ghost start = self@;
        let mut i: usize = 0;
        while i < other.entries.len()
            invariant
                self.wf(),
                other.wf(),
                i <= other.len_spec(),
                forall|k: Seq<u8>|
                    #[trigger] self@.contains_key(k) <==> start.contains_key(k) || exists|j: int|
                        0 <= j < i && other.key_at(j) == k,
                forall|j: int| 0 <= j < i ==> self@[#[trigger] other.key_at(j)] == other.val_at(j),
                forall|k: Seq<u8>|
                    start.contains_key(k) && !(exists|j: int| 0 <= j < i && other.key_at(j) == k)
                        ==> #[trigger] self@[k] == start[k],
            decreases other.entries.len() - i,
        {
            let key = copy_bytes(&other.entries[i].0);
            let value = copy_opt(&other.entries[i].1);
            let ghost pre = self@;
            self.insert(key, value);
            proof {
                assert forall|j: int| 0 <= j < i implies other.key_at(j) != other.key_at(i as int) by {}
                assert forall|k: Seq<u8>| start.contains_key(k)
                    || exists|j: int| 0 <= j < i + 1 && other.key_at(j) == k implies #[trigger] self@.contains_key(k) by {
                    if exists|j: int| 0 <= j < i + 1 && other.key_at(j) == k {
                        let j = choose|j: int| 0 <= j < i + 1 && other.key_at(j) == k;
                        if j < i {
                            assert(pre.contains_key(k));
                        }
                    }
                }
                assert forall|k: Seq<u8>| #[trigger] self@.contains_key(k) implies start.contains_key(k)
                    || exists|j: int| 0 <= j < i + 1 && other.key_at(j) == k by {
                    if k != other.key_at(i as int) {
                        assert(pre.contains_key(k));
                        if !start.contains_key(k) {
                            let j = choose|j: int| 0 <= j < i && other.key_at(j) == k;
                            assert(0 <= j < i + 1 && other.key_at(j) == k);
                        }
                    } else {
                        assert(0 <= i < i + 1 && other.key_at(i as int) == k);
                    }
                }
                assert forall|k: Seq<u8>|
                    start.contains_key(k) && !(exists|j: int| 0 <= j < i + 1 && other.key_at(j) == k)
                        implies #[trigger] self@[k] == start[k] by {
                    assert(other.key_at(i as int) != k);
                }
            }
            i = i + 1;
        }
        proof {
            assert forall|k: Seq<u8>| #[trigger] other@.contains_key(k) implies exists|j: int|
                0 <= j < other.len_spec() && other.key_at(j) == k by {}
            assert(self@ =~= start.union_prefer_right(other@));
        }
    }

    /// The entry with the greatest key in byte order among those that hold a
    /// value, or `None` when none does.
    pub fn last_present(&self) -> (r: Option<(Vec<u8>, Vec<u8>)>)
        requires
            self.wf(),
        ensures
            r is None <==> present(self@) == Map::<Seq<u8>, Seq<u8>>::empty(),
            r matches Some(e) ==> present(self@).contains_key(e.0@) && present(self@)[e.0@] == e.1@ && forall|k: Seq<u8>|
                #[trigger] present(self@).contains_key(k) ==> k == e.0@ || bytes_lt(k, e.0@),
    {
        let mut best: Option<usize> = None;
        let mut i: usize = 0;
        while i < self.entries.len()
            invariant
                self.wf(),
                i <= self.len_spec(),
                best matches Some(b) ==> b < i && self.val_at(b as int) is Some,
                best matches Some(b) ==> forall|j: int| 0 <= j < i && self.val_at(j) is Some ==> #[trigger] self.key_at(j)
                    == self.key_at(b as int) || bytes_lt(self.key_at(j), self.key_at(b as int)),
                best is None ==> forall|j: int| 0 <= j < i ==> !(#[trigger] self.val_at(j) is Some),
            decreases self.entries.len() - i,
        {
            if self.entries[i].1.is_some() {
                match best {
                    None => {
                        best = Some(i);
                    },
                    Some(b) => {
                        if bytes_less(self.entries[b].0.as_slice(), self.entries[i].0.as_slice()) {
                            proof {
                                assert forall|j: int| 0 <= j < i + 1 && self.val_at(j) is Some implies #[trigger] self.key_at(j)
                                    == self.key_at(i as int) || bytes_lt(self.key_at(j), self.key_at(i as int)) by {
                                    if j < i && self.key_at(j) != self.key_at(b as int) {
                                        lemma_bytes_lt_transitive(self.key_at(j), self.key_at(b as int), self.key_at(i as int));
                                    }
                                }
                            }
                            best = Some(i);
                        } else {
                            proof {
                                lemma_bytes_lt_total(self.key_at(b as int), self.key_at(i as int));
                            }
                        }
                    },
                }
            }
            i = i + 1;
        }
        match best {
            None => {
                proof {
                    assert forall|k: Seq<u8>| !#[trigger] present(self@).contains_key(k) by {
                        if self@.contains_key(k) {
                            let j = choose|j: int| 0 <= j < self.len_spec() && self.key_at(j) == k;
                            assert(!(self.val_at(j) is Some));
                        }
                    }
                    assert(present(self@) =~= Map::<Seq<u8>, Seq<u8>>::empty());
                }
                None
            },
            Some(b) => {
                let k = copy_bytes(&self.entries[b].0);
                let v = match &self.entries[b].1 {
                    Some(v) => copy_bytes(v),
                    None => Vec::new(),
                };
                proof {
                    assert(self@.contains_key(self.key_at(b as int)));
                    assert(present(self@).contains_key(k@));
                    assert(present(self@) != Map::<Seq<u8>, Seq<u8>>::empty());
                    assert forall|kk: Seq<u8>| #[trigger] present(self@).contains_key(kk) implies kk == k@ || bytes_lt(kk, k@) by {
                        let j = choose|j: int| 0 <= j < self.len_spec() && self.key_at(j) == kk;
                        assert(self.val_at(j) is Some);
                    }
                }
                Some((k, v))
            },
        }
    }

    /// A copy of this table.
    pub fn duplicate(&self) -> (r: ByteChanges)
        requires
            self.wf(),
        ensures
            r.wf(),
            r@ == self@,
    {
        let mut r = ByteChanges::new();
        r.extend(self);
        proof {
            assert(r@ =~= self@);
        }
        r
    }
}

/// `m1` and `m2` hold the same entries under every key that starts with `p`.
pub open spec fn agree_under(m1: Map<Seq<char>, Seq<u8>>, m2: Map<Seq<char>, Seq<u8>>, p: Seq<char>) -> bool {
    forall|k: Seq<char>|
        has_prefix(k, p) ==> (#[trigger] m1.contains_key(k) <==> m2.contains_key(k)) && (m1.contains_key(k)
            ==> m1[k] == m2[k])
}

/// Dropping tombstones after merging two tables is the overlay of the second
/// on the entries of the first.
pub proof fn lemma_present_union<K>(a: Map<K, Option<Seq<u8>>>, b: Map<K, Option<Seq<u8>>>)
    ensures
        present(a.union_prefer_right(b)) == overlay(present(a), b),
{
    assert(present(a.union_prefer_right(b)) =~= overlay(present(a), b));
}

/// A listing depends only on the entries under its prefix.
pub proof fn lemma_listing_agree(r: Seq<(Seq<char>, Seq<u8>)>, m1: Map<Seq<char>, Seq<u8>>, m2: Map<Seq<char>, Seq<u8>>, p: Seq<char>)
    requires
        is_listing(r, m1, p),
        agree_under(m1, m2, p),
    ensures
        is_listing(r, m2, p),
{
    assert forall|i: int| 0 <= i < r.len() implies has_prefix(#[trigger] r[i].0, p) && m2.contains_key(r[i].0)
        && m2[r[i].0] == r[i].1 by {
        assert(m1.contains_key(r[i].0));
    }
    assert forall|k: Seq<char>| #![trigger m2.contains_key(k)] m2.contains_key(k) && has_prefix(k, p)
        implies exists|i: int| 0 <= i < r.len() && r[i].0 == k by {
        assert(m1.contains_key(k));
    }
}

/// Lays `changes` over a listing of the base under `prefix`: the listing of
/// the overlay under the same prefix.
pub fn overlay_listing(base: Vec<(String, Vec<u8>)>, changes: &ChangeSet, prefix: &str) -> (r: Vec<(String, Vec<u8>)>)
    requires
        changes.wf(),
    ensures
        forall|m: Map<Seq<char>, Seq<u8>>|
            #![trigger is_listing(listing_view(base@), m, prefix@)]
            is_listing(listing_view(base@), m, prefix@) ==> is_listing(listing_view(r@), overlay(m, changes@), prefix@),
{
    let ghost lb = listing_view(base@);
    let mut merged = ChangeSet::new();
    let mut i: usize = 0;
    while i < base.len()
        invariant
            merged.wf(),
            lb == listing_view(base@),
            i <= base@.len(),
            forall|k: Seq<char>| #[trigger] merged@.contains_key(k) ==> exists|j: int| 0 <= j < i && lb[j].0 == k && merged@[k] == Some(lb[j].1),
            forall|j: int| 0 <= j < i ==> merged@.contains_key(#[trigger] lb[j].0),
        decreases base.len() - i,
    {
        let ghost pre = merged@;
        merged.insert(base[i].0.clone(), Some(copy_bytes(&base[i].1)));
        proof {
            assert(lb[i as int] == (base@[i as int].0@, base@[i as int].1@));
            assert forall|k: Seq<char>| #[trigger] merged@.contains_key(k) implies exists|j: int| 0 <= j < i + 1 && lb[j].0 == k && merged@[k] == Some(lb[j].1) by {
                if k != lb[i as int].0 {
                    assert(pre.contains_key(k));
                    let j = choose|j: int| 0 <= j < i && lb[j].0 == k && pre[k] == Some(lb[j].1);
                    assert(0 <= j < i + 1 && lb[j].0 == k && merged@[k] == Some(lb[j].1));
                } else {
                    assert(0 <= i < i + 1 && lb[i as int].0 == k && merged@[k] == Some(lb[i as int].1));
                }
            }
            assert forall|j: int| 0 <= j < i + 1 implies merged@.contains_key(#[trigger] lb[j].0) by {
                if j < i {
                    assert(pre.contains_key(lb[j].0));
                }
            }
        }
        i = i + 1;
    }
    let ghost before = merged@;
    merged.extend(changes);
    let r = merged.scan_prefix(prefix);
    proof {
        lemma_present_union(before, changes@);
        assert forall|m: Map<Seq<char>, Seq<u8>>|
            #![trigger is_listing(listing_view(base@), m, prefix@)]
            is_listing(listing_view(base@), m, prefix@) implies is_listing(listing_view(r@), overlay(m, changes@), prefix@) by {
            assert forall|j: int| 0 <= j < lb.len() implies #[trigger] before[lb[j].0] == Some(lb[j].1) by {
                assert(before.contains_key(lb[j].0));
                let jj = choose|jj: int| 0 <= jj < lb.len() && lb[jj].0 == lb[j].0 && before[lb[j].0] == Some(lb[jj].1);
                if jj != j {
                    if jj < j {
                        assert(key_lt(lb[jj].0, lb[j].0));
                    } else {
                        assert(key_lt(lb[j].0, lb[jj].0));
                    }
                    lemma_key_lt_irreflexive(lb[j].0);
                }
            }
            assert forall|k: Seq<char>| has_prefix(k, prefix@) implies
                (#[trigger] present(before).contains_key(k) <==> m.contains_key(k))
                && (present(before).contains_key(k) ==> present(before)[k] == m[k]) by {
                if m.contains_key(k) {
                    let j = choose|j: int| 0 <= j < lb.len() && lb[j].0 == k;
                    assert(before.contains_key(k));
                }
                if before.contains_key(k) {
                    let j = choose|j: int| 0 <= j < lb.len() && lb[j].0 == k && before[k] == Some(lb[j].1);
                    assert(m.contains_key(lb[j].0));
                }
            }
            let ov1 = overlay(present(before), changes@);
            let ov2 = overlay(m, changes@);
            assert forall|k: Seq<char>| has_prefix(k, prefix@) implies (#[trigger] ov1.contains_key(k) <==> ov2.contains_key(k))
                && (ov1.contains_key(k) ==> ov1[k] == ov2[k]) by {
                assert(present(before).contains_key(k) <==> m.contains_key(k));
            }
            lemma_listing_agree(listing_view(r@), ov1, ov2, prefix@);
        }
    }
    r
}

} // verus!
