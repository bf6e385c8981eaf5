//! An ordered key-value table with atomic batched writes.
//!
//! This is the in-memory model of one named table of the node's ordered
//! key-value storage engine: unique integer keys held in ascending order,
//! point reads, and a batch of staged writes applied as one unit. Its
//! specification view is the finite map from keys to values; a staged
//! batch is a sequence of operations applied left to right, so the net
//! effect for any key is "last write wins", as a real batched write has.

use vstd::prelude::*;

verus! {

/// One staged write: an upsert of a key to a value, or a deletion of a
/// key.
#[derive(Clone, Copy, Debug)]
pub enum TableOp<V> {
    Put(u128, V),
    Del(u128),
}

/// The effect of one staged write on the table's map.
pub open spec fn apply_op<V>(m: Map<u128, V>, op: TableOp<V>) -> Map<u128, V> {
    match op {
        TableOp::Put(k, v) => m.insert(k, v),
        TableOp::Del(k) => m.remove(k),
    }
}

/// The effect of a whole batch, applied left to right.
pub open spec fn apply_ops<V>(m: Map<u128, V>, ops: Seq<TableOp<V>>) -> Map<u128, V>
    decreases ops.len(),
{
    if ops.len() == 0 {
        m
    } else {
        apply_op(apply_ops(m, ops.drop_last()), ops.last())
    }
}

/// A batch of one operation has exactly that operation's effect.
pub proof fn lemma_apply_ops_singleton<V>(m: Map<u128, V>, op: TableOp<V>)
    ensures
        apply_ops(m, seq![op]) == apply_op(m, op),
{
    assert(seq![op].drop_last() =~= Seq::<TableOp<V>>::empty());
    assert(seq![op].last() == op);
    assert(apply_ops(m, Seq::<TableOp<V>>::empty()) == m);
}

/// Batches compose: applying a concatenation is applying the two parts
/// in turn.
pub proof fn lemma_apply_ops_concat<V>(m: Map<u128, V>, a: Seq<TableOp<V>>, b: Seq<TableOp<V>>)
    ensures
        apply_ops(m, a + b) == apply_ops(apply_ops(m, a), b),
    decreases b.len(),
{
    if b.len() == 0 {
        assert(a + b =~= a);
    } else {
        assert((a + b).drop_last() =~= a + b.drop_last());
        assert((a + b).last() == b.last());
        lemma_apply_ops_concat(m, a, b.drop_last());
    }
}

/// The map held by a sequence of key-value entries.
pub open spec fn map_of<V>(s: Seq<(u128, V)>) -> Map<u128, V>
    decreases s.len(),
{
    if s.len() == 0 {
        Map::empty()
    } else {
        map_of(s.drop_last()).insert(s.last().0, s.last().1)
    }
}

/// Entries in strictly ascending key order; in particular, keys are
/// unique.
pub open spec fn entries_sorted<V>(s: Seq<(u128, V)>) -> bool {
    forall|i: int, j: int| 0 <= i < j < s.len() ==> s[i].0 < s[j].0
}

/// One named ordered table: entries kept in strictly ascending key
/// order.
pub struct IndexTable<V> {
    entries: Vec<(u128, V)>,
}

impl<V> View for IndexTable<V> {
    type V = Map<u128, V>;

    closed spec fn view(&self) -> Map<u128, V> {
        map_of(self.entries@)
    }
}

/// A key is in the map of `s` exactly when some entry of `s` carries it.
pub proof fn lemma_map_of_domain<V>(s: Seq<(u128, V)>)
    ensures
        forall|k: u128| #[trigger] map_of(s).contains_key(k)
            <==> exists|i: int| 0 <= i < s.len() && (#[trigger] s[i]).0 == k,
    decreases s.len(),
{
    if s.len() > 0 {
        lemma_map_of_domain(s.drop_last());
        assert forall|k: u128| #[trigger] map_of(s).contains_key(k)
            implies exists|i: int| 0 <= i < s.len() && (#[trigger] s[i]).0 == k by {
            if k == s.last().0 {
                assert(s[s.len() - 1].0 == k);
            } else {
                assert(map_of(s) == map_of(s.drop_last()).insert(s.last().0, s.last().1));
                assert(map_of(s.drop_last()).contains_key(k));
                let i = choose|i: int| 0 <= i < s.drop_last().len()
                    && (#[trigger] s.drop_last()[i]).0 == k;
                assert(s.drop_last()[i] == s[i]);
                assert(s[i].0 == k);
            }
        };
        assert forall|k: u128| (exists|i: int| 0 <= i < s.len() && (#[trigger] s[i]).0 == k)
            implies map_of(s).contains_key(k) by {
            let i = choose|i: int| 0 <= i < s.len() && (#[trigger] s[i]).0 == k;
            assert(map_of(s) == map_of(s.drop_last()).insert(s.last().0, s.last().1));
            if i < s.len() - 1 {
                assert(s.drop_last()[i].0 == k);
                assert(exists|j: int| 0 <= j < s.drop_last().len()
                    && (#[trigger] s.drop_last()[j]).0 == k);
                assert(map_of(s.drop_last()).contains_key(k));
            } else {
                assert(k == s.last().0);
            }
        };
    }
}

/// With unique keys, each entry of `s` is the map's binding for its key.
pub proof fn lemma_map_of_index<V>(s: Seq<(u128, V)>)
    requires
        entries_sorted(s),
    ensures
        forall|i: int| 0 <= i < s.len()
            ==> map_of(s).contains_key((#[trigger] s[i]).0) && map_of(s)[s[i].0] == s[i].1,
    decreases s.len(),
{
    lemma_map_of_domain(s);
    if s.len() > 0 {
        lemma_map_of_index(s.drop_last());
        assert forall|i: int| 0 <= i < s.len()
            implies map_of(s).contains_key((#[trigger] s[i]).0) && map_of(s)[s[i].0] == s[i].1 by {
            if i < s.len() - 1 {
                assert(s.drop_last()[i] == s[i]);
                assert(s[i].0 != s.last().0);
            }
        };
    }
}

/// Inserting an entry with a fresh key anywhere in `s` adds exactly that
/// binding to the map.
pub proof fn lemma_map_of_insert_at<V>(s: Seq<(u128, V)>, p: int, k: u128, v: V)
    requires
        0 <= p <= s.len(),
        forall|i: int| 0 <= i < s.len() ==> (#[trigger] s[i]).0 != k,
    ensures
        map_of(s.insert(p, (k, v))) == map_of(s).insert(k, v),
    decreases s.len(),
{
    let t = s.insert(p, (k, v));
    if p == s.len() {
        assert(t.drop_last() =~= s);
        assert(t.last() == (k, v));
    } else {
        assert(t.drop_last() =~= s.drop_last().insert(p, (k, v)));
        assert(forall|i: int| 0 <= i < s.drop_last().len()
            ==> (#[trigger] s.drop_last()[i]).0 != k);
        lemma_map_of_insert_at(s.drop_last(), p, k, v);
        assert(t.last() == s.last());
        assert(s[s.len() - 1].0 != k);
        assert(map_of(s.drop_last()).insert(k, v).insert(s.last().0, s.last().1)
            =~= map_of(s.drop_last()).insert(s.last().0, s.last().1).insert(k, v));
    }
}

/// Overwriting the entry that carries key `k` updates exactly that
/// binding of the map.
pub proof fn lemma_map_of_update_at<V>(s: Seq<(u128, V)>, p: int, v: V)
    requires
        entries_sorted(s),
        0 <= p < s.len(),
    ensures
        map_of(s.update(p, (s[p].0, v))) == map_of(s).insert(s[p].0, v),
    decreases s.len(),
{
    let k = s[p].0;
    let t = s.update(p, (k, v));
    if p == s.len() - 1 {
        assert(t.drop_last() =~= s.drop_last());
        assert(t.last() == (k, v));
        assert(map_of(s.drop_last()).insert(k, v)
            =~= map_of(s.drop_last()).insert(k, s.last().1).insert(k, v));
    } else {
        assert(t.drop_last() =~= s.drop_last().update(p, (k, v)));
        lemma_map_of_update_at(s.drop_last(), p, v);
        assert(t.last() == s.last());
        assert(s[p].0 != s.last().0);
        assert(map_of(s.drop_last()).insert(k, v).insert(s.last().0, s.last().1)
            =~= map_of(s.drop_last()).insert(s.last().0, s.last().1).insert(k, v));
    }
}

/// Removing the entry that carries key `k` removes exactly that binding
/// of the map.
pub proof fn lemma_map_of_remove_at<V>(s: Seq<(u128, V)>, p: int)
    requires
        entries_sorted(s),
        0 <= p < s.len(),
    ensures
        map_of(s.remove(p)) == map_of(s).remove(s[p].0),
    decreases s.len(),
{
    let k = s[p].0;
    let t = s.remove(p);
    lemma_map_of_domain(s.drop_last());
    if p == s.len() - 1 {
        assert(t =~= s.drop_last());
        assert(!map_of(s.drop_last()).contains_key(k));
        assert(map_of(s.drop_last()) =~= map_of(s.drop_last()).insert(k, s.last().1).remove(k));
    } else {
        assert(t.drop_last() =~= s.drop_last().remove(p));
        lemma_map_of_remove_at(s.drop_last(), p);
        assert(t.last() == s.last());
        assert(s[p].0 != s.last().0);
        assert(map_of(s.drop_last()).remove(k).insert(s.last().0, s.last().1)
            =~= map_of(s.drop_last()).insert(s.last().0, s.last().1).remove(k));
    }
}

impl<V: Copy> IndexTable<V> {
    /// The table's representation invariant: entries strictly ascending
    /// by key.
    pub closed spec fn wf(self) -> bool {
        entries_sorted(self.entries@)
    }

    /// A new table holding nothing.
    pub fn new() -> (t: Self)
        ensures
            t.wf(),
            t@ == Map::<u128, V>::empty(),
    {
        Self { entries: Vec::new() }
    }

    /// True exactly when the table holds no entry.
    pub fn is_empty(&self) -> (r: bool)
        requires
            self.wf(),
        ensures
            r <==> self@ == Map::<u128, V>::empty(),
    {
        proof {
            lemma_map_of_domain(self.entries@);
            if self.entries@.len() == 0 {
                assert(self@ =~= Map::<u128, V>::empty());
            } else {
                assert(self@.contains_key(self.entries@[0].0));
            }
        }
        self.entries.len() == 0
    }

    /// Reads the value stored under `k`, if any.
    pub fn get(&self, k: u128) -> (r: Option<V>)
        requires
            self.wf(),
        ensures
            match r {
                Some(v) => self@.contains_key(k) && self@[k] == v,
                None => !self@.contains_key(k),
            },
    {
        proof {
            lemma_map_of_domain(self.entries@);
            lemma_map_of_index(self.entries@);
        }
        let n = self.entries.len();
        let mut i: usize = 0;
        while i < n
            invariant
                n == self.entries@.len(),
                0 <= i <= n,
                self.wf(),
                forall|j: int| 0 <= j < i ==> (#[trigger] self.entries@[j]).0 != k,
                forall|j: int| 0 <= j < self.entries@.len()
                    ==> map_of(self.entries@).contains_key((#[trigger] self.entries@[j]).0)
                        && map_of(self.entries@)[self.entries@[j].0] == self.entries@[j].1,
                forall|kk: u128| #[trigger] map_of(self.entries@).contains_key(kk)
                    ==> exists|j: int| 0 <= j < self.entries@.len()
                        && (#[trigger] self.entries@[j]).0 == kk,
            decreases n - i,
        {
            if self.entries[i].0 == k {
                return Some(self.entries[i].1);
            }
            i += 1;
        }
        None
    }

    /// Inserts or overwrites the binding of `k`, keeping key order.
    pub fn insert(&mut self, k: u128, v: V)
        requires
            old(self).wf(),
        ensures
            final(self).wf(),
            final(self)@ == old(self)@.insert(k, v),
    {
        let n = self.entries.len();
        let mut i: usize = 0;
        while i < n && self.entries[i].0 < k
            invariant
                n == self.entries@.len(),
                0 <= i <= n,
                self.wf(),
                self == old(self),
                forall|j: int| 0 <= j < i ==> (#[trigger] self.entries@[j]).0 < k,
            decreases n - i,
        {
            i += 1;
        }
        if i < n && self.entries[i].0 == k {
            let ghost s = self.entries@;
            proof {
                lemma_map_of_update_at(s, i as int, v);
            }
            *vstd::std_specs::vec::vec_index_mut(&mut self.entries, i) = (k, v);
            proof {
                assert(self.entries@ =~= s.update(i as int, (k, v)));
            }
        } else {
            let ghost s = self.entries@;
            proof {
                assert forall|j: int| 0 <= j < s.len() implies (#[trigger] s[j]).0 != k by {
                    if j >= i {
                        assert(s[i as int].0 <= s[j].0);
                    }
                };
                lemma_map_of_insert_at(s, i as int, k, v);
            }
            self.entries.insert(i, (k, v));
            proof {
                assert(self.entries@ == s.insert(i as int, (k, v)));
                assert forall|a: int, b: int| 0 <= a < b < self.entries@.len()
                    implies self.entries@[a].0 < self.entries@[b].0 by {
                    assert(forall|j: int| i <= j < s.len() ==> k < (#[trigger] s[j]).0);
                };
            }
        }
    }

    /// Deletes the binding of `k`; a no-op when the table does not hold
    /// `k`.
    pub fn remove(&mut self, k: u128)
        requires
            old(self).wf(),
        ensures
            final(self).wf(),
            final(self)@ == old(self)@.remove(k),
    {
        proof {
            lemma_map_of_domain(self.entries@);
        }
        let n = self.entries.len();
        let mut i: usize = 0;
        while i < n
            invariant
                n == self.entries@.len(),
                0 <= i <= n,
                self.wf(),
                self == old(self),
                forall|j: int| 0 <= j < i ==> (#[trigger] self.entries@[j]).0 != k,
                forall|kk: u128| #[trigger] map_of(self.entries@).contains_key(kk)
                    ==> exists|j: int| 0 <= j < self.entries@.len()
                        && (#[trigger] self.entries@[j]).0 == kk,
            decreases n - i,
        {
            if self.entries[i].0 == k {
                let ghost s = self.entries@;
                proof {
                    lemma_map_of_remove_at(s, i as int);
                }
                self.entries.remove(i);
                proof {
                    assert(self.entries@ == s.remove(i as int));
                    assert forall|a: int, b: int| 0 <= a < b < self.entries@.len()
                        implies self.entries@[a].0 < self.entries@[b].0 by {
                        if b >= i {
                            assert(self.entries@[b] == s[b + 1]);
                        }
                    };
                }
                return;
            }
            i += 1;
        }
        proof {
            assert(!self@.contains_key(k));
            assert(self@ =~= self@.remove(k));
        }
    }

    /// Reads every entry whose key lies in `[lo, hi]`, in ascending key
    /// order: exactly the table's bindings in that range, each once.
    #[verifier::loop_isolation(false)]
    #[verifier::rlimit(30)]
    pub fn range(&self, lo: u128, hi: u128) -> (r: Vec<(u128, V)>)
        requires
            self.wf(),
        ensures
            forall|j: int| 0 <= j < r@.len()
                ==> lo <= (#[trigger] r@[j]).0 <= hi && self@.contains_key(r@[j].0)
                    && self@[r@[j].0] == r@[j].1,
            forall|k: u128| #[trigger] self@.contains_key(k) && lo <= k <= hi
                ==> exists|j: int| 0 <= j < r@.len() && (#[trigger] r@[j]).0 == k,
            forall|i: int, j: int| 0 <= i < j < r@.len() ==> r@[i].0 < r@[j].0,
    {
        proof {
            lemma_map_of_domain(self.entries@);
            lemma_map_of_index(self.entries@);
        }
        let mut r: Vec<(u128, V)> = Vec::new();
        let n = self.entries.len();
        let mut i: usize = 0;
        while i < n
            invariant
                0 <= i <= n,
                forall|j: int| 0 <= j < r@.len()
                    ==> exists|e: int| 0 <= e < i && self.entries@[e] == (#[trigger] r@[j]),
                forall|e: int| 0 <= e < i && lo <= (#[trigger] self.entries@[e]).0 <= hi
                    ==> exists|j: int| 0 <= j < r@.len()
                        && (#[trigger] r@[j]).0 == self.entries@[e].0,
                forall|j: int| 0 <= j < r@.len() ==> lo <= (#[trigger] r@[j]).0 <= hi,
                forall|a: int, b: int| 0 <= a < b < r@.len() ==> r@[a].0 < r@[b].0,
            decreases n - i,
        {
            let key = self.entries[i].0;
            if lo <= key && key <= hi {
                let ghost r_old = r@;
                r.push(self.entries[i]);
                proof {
                    assert(self.entries@[i as int] == r@[r@.len() - 1]);
                    assert forall|a: int, b: int| 0 <= a < b < r@.len()
                        implies r@[a].0 < r@[b].0 by {
                        if b == r@.len() - 1 {
                            let e = choose|e: int|
                                0 <= e < i && self.entries@[e] == (#[trigger] r_old[a]);
                            assert(self.entries@[e].0 < self.entries@[i as int].0);
                        }
                    };
                    assert forall|e: int| 0 <= e < i + 1 && lo <= (
                    #[trigger] self.entries@[e]).0 <= hi implies exists|j: int|
                        0 <= j < r@.len() && (#[trigger] r@[j]).0 == self.entries@[e].0 by {
                        if e < i {
                            let j = choose|j: int|
                                0 <= j < r_old.len() && (#[trigger] r_old[j]).0
                                    == self.entries@[e].0;
                            assert(r@[j].0 == self.entries@[e].0);
                        } else {
                            assert(r@[r@.len() - 1].0 == self.entries@[e].0);
                        }
                    };
                }
            }
            i += 1;
        }
        proof {
            assert forall|k: u128| #[trigger] self@.contains_key(k) && lo <= k <= hi
                implies exists|j: int| 0 <= j < r@.len() && (#[trigger] r@[j]).0 == k by {
                let e = choose|e: int|
                    0 <= e < self.entries@.len() && (#[trigger] self.entries@[e]).0 == k;
            };
            assert forall|j: int| 0 <= j < r@.len()
                implies self@.contains_key((#[trigger] r@[j]).0) && self@[r@[j].0] == r@[j].1 by {
                let e = choose|e: int|
                    0 <= e < self.entries@.len() && self.entries@[e] == (#[trigger] r@[j]);
            };
        }
        r
    }

    /// Applies a staged batch of writes as one unit, left to right.
    pub fn write_batch(&mut self, ops: Vec<TableOp<V>>)
        requires
            old(self).wf(),
        ensures
            final(self).wf(),
            final(self)@ == apply_ops(old(self)@, ops@),
    {
        let ghost m0 = self@;
        let n = ops.len();
        let mut i: usize = 0;
        while i < n
            invariant
                n == ops@.len(),
                0 <= i <= n,
                self.wf(),
                self@ == apply_ops(m0, ops@.take(i as int)),
            decreases n - i,
        {
            let ghost done = ops@.take(i as int);
            match &ops[i] {
                TableOp::Put(k, v) => {
                    self.insert(*k, *v);
                },
                TableOp::Del(k) => {
                    self.remove(*k);
                },
            }
            proof {
                assert(ops@.take(i + 1 as int).drop_last() =~= done);
                assert(ops@.take(i + 1 as int).last() == ops@[i as int]);
            }
            i += 1;
        }
        proof {
            assert(ops@.take(n as int) =~= ops@);
        }
    }
}

} // verus!
