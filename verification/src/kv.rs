//! A string-keyed association list kept sorted by key. It stands in for
//! the hash maps the node keeps (netmap, topology map, file tags), with a
//! canonical order so every serialisation comes out sorted.
use vstd::prelude::*;

use crate::strutil::{lemma_str_lt_trans, lemma_str_lt_trichotomy, str_less, str_lt};

verus! {

pub struct KvList<V> {
    pub keys: Vec<String>,
    pub vals: Vec<V>,
}

impl<V> KvList<V> {
    /// The keys as character sequences, in storage order.
    pub open spec fn key_seq(self) -> Seq<Seq<char>> {
        self.keys@.map_values(|s: String| s@)
    }

    pub open spec fn val_seq(self) -> Seq<V> {
        self.vals@
    }

    /// Keys strictly increasing, one value per key.
    pub open spec fn wf(self) -> bool {
        &&& self.keys@.len() == self.vals@.len()
        &&& forall|i: int|
            0 <= i && i + 1 < self.keys@.len() ==> #[trigger] str_lt(
                self.key_seq()[i],
                self.key_seq()[i + 1],
            )
    }

    pub open spec fn spec_len(self) -> nat {
        self.keys@.len()
    }

    /// Whether some entry has key `k`.
    pub open spec fn has_key(self, k: Seq<char>) -> bool {
        exists|i: int| 0 <= i < self.key_seq().len() && self.key_seq()[i] == k
    }

    /// The index of key `k`, meaningful only when `has_key`.
    pub open spec fn key_idx(self, k: Seq<char>) -> int {
        choose|i: int| 0 <= i < self.key_seq().len() && self.key_seq()[i] == k
    }

    /// The value stored under `k`, meaningful only when `has_key`.
    pub open spec fn spec_get(self, k: Seq<char>) -> V {
        self.val_seq()[self.key_idx(k)]
    }

    /// In a well-formed list earlier keys are strictly below later ones.
    pub proof fn lemma_sorted(self, i: int, j: int)
        requires
            self.wf(),
            0 <= i < j < self.spec_len(),
        ensures
            str_lt(self.key_seq()[i], self.key_seq()[j]),
        decreases j - i,
    {
        if i + 1 < j {
            self.lemma_sorted(i + 1, j);
            lemma_str_lt_trans(self.key_seq()[i], self.key_seq()[i + 1], self.key_seq()[j]);
        }
    }

    /// Keys of a well-formed list are distinct.
    pub proof fn lemma_distinct(self, i: int, j: int)
        requires
            self.wf(),
            0 <= i < self.spec_len(),
            0 <= j < self.spec_len(),
            i != j,
        ensures
            self.key_seq()[i] != self.key_seq()[j],
    {
        if i < j {
            self.lemma_sorted(i, j);
            lemma_str_lt_trichotomy(self.key_seq()[i], self.key_seq()[j]);
        } else {
            self.lemma_sorted(j, i);
            lemma_str_lt_trichotomy(self.key_seq()[j], self.key_seq()[i]);
        }
    }

    pub fn new() -> (r: Self)
        ensures
            r.wf(),
            r.spec_len() == 0,
    {
        KvList { keys: Vec::new(), vals: Vec::new() }
    }

    pub fn len(&self) -> (r: usize)
        ensures
            r == self.spec_len(),
    {
        self.keys.len()
    }

    pub fn clear(&mut self)
        ensures
            final (self).wf(),
            final (self).spec_len() == 0,
    {
        self.keys.clear();
        self.vals.clear();
    }

    pub fn key_at(&self, i: usize) -> (r: &String)
        requires
            i < self.spec_len(),
        ensures
            r@ == self.key_seq()[i as int],
    {
        &self.keys[i]
    }

    pub fn val_at(&self, i: usize) -> (r: &V)
        requires
            self.wf(),
            i < self.spec_len(),
        ensures
            *r == self.val_seq()[i as int],
    {
        &self.vals[i]
    }

    /// Look a key up by linear scan.
    pub fn get(&self, k: &str) -> (r: Option<&V>)
        requires
            self.wf(),
        ensures
            match r {
                Some(v) => self.has_key(k@) && *v == self.spec_get(k@),
                None => !self.has_key(k@),
            },
    {
        let n = self.keys.len();
        let mut i: usize = 0;
        while i < n
            invariant
                self.wf(),
                i <= n,
                n == self.spec_len(),
                forall|j: int| 0 <= j < i ==> self.key_seq()[j] != k@,
            decreases n - i,
        {
            let below = str_less(self.keys[i].as_str(), k);
            let above = str_less(k, self.keys[i].as_str());
            proof {
                lemma_str_lt_trichotomy(self.key_seq()[i as int], k@);
            }
            if !below && !above {
                proof {
                    if self.key_idx(k@) != i as int {
                        self.lemma_distinct(self.key_idx(k@), i as int);
                    }
                }
                return Some(&self.vals[i]);
            }
            i = i + 1;
        }
        None
    }

    /// Insert or replace: the entry for `k` becomes `v`, every other
    /// entry is kept, and the order stays sorted.
    pub fn insert(&mut self, k: String, v: V)
        requires
            old(self).wf(),
        ensures
            final (self).wf(),
            final (self).has_key(k@),
            final (self).spec_get(k@) == v,
            // every other key keeps its value
            forall|k2: Seq<char>|
                k2 != k@ ==> (final (self).has_key(k2) == old(self).has_key(k2) && (old(
                    self,
                ).has_key(k2) ==> final (self).spec_get(k2) == old(self).spec_get(k2))),
            // the size grows only for a fresh key
            final (self).spec_len() == if old(self).has_key(k@) {
                old(self).spec_len()
            } else {
                old(self).spec_len() + 1
            },
    {
        let n = self.keys.len();
        let mut i: usize = 0;
        while i < n && str_less(self.keys[i].as_str(), &k)
            invariant
                self.wf(),
                i <= n,
                n == self.spec_len(),
                forall|j: int| 0 <= j < i ==> str_lt(self.key_seq()[j], k@),
            decreases n - i,
        {
            i = i + 1;
        }
        let ghost pre = *self;
        if i < n && !str_less(&k, self.keys[i].as_str()) {
            // equal key: replace the value
            proof {
                lemma_str_lt_trichotomy(self.key_seq()[i as int], k@);
                assert(self.key_seq()[i as int] == k@);
            }
            self.vals.set(i, v);
            proof {
                assert(final (self).key_seq() =~= pre.key_seq());
                lemma_insert_frame(pre, *self, k@, i as int);
            }
        } else {
            proof {
                if i < n {
                    lemma_str_lt_trichotomy(self.key_seq()[i as int], k@);
                }
                // k is absent: below position i everything is smaller,
                // from i on everything is larger
                assert(forall|j: int| i <= j < n ==> str_lt(k@, pre.key_seq()[j])) by {
                    assert forall|j: int| i <= j < n implies str_lt(k@, pre.key_seq()[j]) by {
                        if i < n && j > i {
                            pre.lemma_sorted(i as int, j);
                            lemma_str_lt_trans(k@, pre.key_seq()[i as int], pre.key_seq()[j]);
                        }
                    }
                }
            }
            self.keys.insert(i, k);
            self.vals.insert(i, v);
            proof {
                assert(final (self).key_seq() =~= pre.key_seq().insert(i as int, k@));
                lemma_insert_fresh_frame(pre, *self, k@, i as int);
            }
        }
    }
}

/// After replacing the value at the index of `k`, every lookup result
/// except `k`'s is unchanged.
proof fn lemma_insert_frame<V>(pre: KvList<V>, post: KvList<V>, k: Seq<char>, i: int)
    requires
        pre.wf(),
        0 <= i < pre.spec_len(),
        pre.key_seq()[i] == k,
        post.key_seq() == pre.key_seq(),
        post.val_seq() == pre.val_seq().update(i, post.val_seq()[i]),
    ensures
        post.wf(),
        post.has_key(k),
        post.spec_get(k) == post.val_seq()[i],
        forall|k2: Seq<char>|
            k2 != k ==> (post.has_key(k2) == pre.has_key(k2) && (pre.has_key(k2)
                ==> post.spec_get(k2) == pre.spec_get(k2))),
{
    assert(post.key_seq().len() == post.keys@.len());
    assert forall|a: int| 0 <= a && a + 1 < post.keys@.len() implies #[trigger] str_lt(
        post.key_seq()[a],
        post.key_seq()[a + 1],
    ) by {
        assert(post.key_seq()[a] == pre.key_seq()[a]);
        assert(post.key_seq()[a + 1] == pre.key_seq()[a + 1]);
        assert(str_lt(pre.key_seq()[a], pre.key_seq()[a + 1]));
    }
    assert(post.wf());
    assert(post.key_seq()[i] == k);
    assert(post.has_key(k));
    if post.key_idx(k) != i {
        post.lemma_distinct(post.key_idx(k), i);
    }
    assert forall|k2: Seq<char>| k2 != k implies (post.has_key(k2) == pre.has_key(k2) && (
    pre.has_key(k2) ==> post.spec_get(k2) == pre.spec_get(k2))) by {
        if pre.has_key(k2) {
            let j = pre.key_idx(k2);
            assert(post.key_seq()[j] == k2);
            assert(post.has_key(k2));
            let j2 = post.key_idx(k2);
            if j2 != j {
                post.lemma_distinct(j2, j);
            }
            assert(j != i);
        }
        if post.has_key(k2) {
            let j = post.key_idx(k2);
            assert(pre.key_seq()[j] == k2);
            assert(pre.has_key(k2));
        }
    }
}

/// After inserting a fresh key `k` at its sorted position, the list is
/// still sorted and every other lookup is unchanged.
proof fn lemma_insert_fresh_frame<V>(pre: KvList<V>, post: KvList<V>, k: Seq<char>, i: int)
    requires
        pre.wf(),
        0 <= i <= pre.spec_len(),
        forall|j: int| 0 <= j < i ==> str_lt(pre.key_seq()[j], k),
        forall|j: int| i <= j < pre.spec_len() ==> str_lt(k, pre.key_seq()[j]),
        post.key_seq() == pre.key_seq().insert(i, k),
        post.val_seq() == pre.val_seq().insert(i, post.val_seq()[i]),
    ensures
        post.wf(),
        post.has_key(k),
        post.spec_get(k) == post.val_seq()[i],
        post.spec_len() == pre.spec_len() + 1,
        forall|k2: Seq<char>|
            k2 != k ==> (post.has_key(k2) == pre.has_key(k2) && (pre.has_key(k2)
                ==> post.spec_get(k2) == pre.spec_get(k2))),
        !pre.has_key(k),
{
    let ks = post.key_seq();
    pre.key_seq().insert_ensures(i, k);
    pre.val_seq().insert_ensures(i, post.val_seq()[i]);
    assert(ks.len() == pre.key_seq().len() + 1);
    assert forall|a: int| 0 <= a < ks.len() implies ks[a] == if a < i {
        pre.key_seq()[a]
    } else if a == i {
        k
    } else {
        pre.key_seq()[a - 1]
    } by {
        lemma_insert_idx(pre.key_seq(), k, i, a);
    }
    assert forall|a: int| 0 <= a < post.val_seq().len() implies post.val_seq()[a] == if a < i {
        pre.val_seq()[a]
    } else if a == i {
        post.val_seq()[i]
    } else {
        pre.val_seq()[a - 1]
    } by {
        lemma_insert_idx(pre.val_seq(), post.val_seq()[i], i, a);
    }
    assert forall|a: int| 0 <= a && a + 1 < ks.len() implies #[trigger] str_lt(ks[a], ks[a + 1]) by {
        if a + 1 < i {
            assert(str_lt(pre.key_seq()[a], pre.key_seq()[a + 1]));
        } else if a + 1 == i {
            assert(str_lt(pre.key_seq()[a], k));
        } else if a == i {
            assert(str_lt(k, pre.key_seq()[a]));
        } else {
            assert(str_lt(pre.key_seq()[a - 1], pre.key_seq()[a]));
        }
    }
    assert(post.wf());
    assert(ks[i] == k);
    assert(post.has_key(k));
    if post.key_idx(k) != i {
        post.lemma_distinct(post.key_idx(k), i);
    }
    assert forall|j: int| 0 <= j < pre.spec_len() implies pre.key_seq()[j] != k by {
        lemma_str_lt_trichotomy(pre.key_seq()[j], k);
    }
    assert(!pre.has_key(k));
    assert forall|k2: Seq<char>| k2 != k implies (post.has_key(k2) == pre.has_key(k2) && (
    pre.has_key(k2) ==> post.spec_get(k2) == pre.spec_get(k2))) by {
        if pre.has_key(k2) {
            let j = pre.key_idx(k2);
            let j2: int = if j < i {
                j
            } else {
                j + 1
            };
            assert(post.key_seq()[j2] == k2);
            assert(post.has_key(k2));
            let jj = post.key_idx(k2);
            if jj != j2 {
                post.lemma_distinct(jj, j2);
            }
            assert(post.val_seq()[j2] == pre.val_seq()[j]);
        }
        if post.has_key(k2) {
            let j2 = post.key_idx(k2);
            assert(j2 != i);
            let j: int = if j2 < i {
                j2
            } else {
                j2 - 1
            };
            assert(pre.key_seq()[j] == k2);
            assert(pre.has_key(k2));
        }
    }
}

} // verus!

verus! {

/// Whether some pair of the list carries key `k`.
pub open spec fn list_has_key<V>(l: Seq<(Seq<char>, V)>, k: Seq<char>) -> bool {
    exists|i: int| 0 <= i < l.len() && l[i].0 == k
}

/// The value of the last pair carrying `k`: a later entry overrides an
/// earlier one. Meaningful only under `list_has_key`.
pub open spec fn list_last_val<V>(l: Seq<(Seq<char>, V)>, k: Seq<char>) -> V
    decreases l.len(),
{
    if l.len() == 0 {
        vstd::pervasive::arbitrary()
    } else if l.last().0 == k {
        l.last().1
    } else {
        list_last_val(l.drop_last(), k)
    }
}

pub proof fn lemma_list_push<V>(l: Seq<(Seq<char>, V)>, p: (Seq<char>, V), k: Seq<char>)
    ensures
        list_has_key(l.push(p), k) == (list_has_key(l, k) || p.0 == k),
        list_last_val(l.push(p), k) == if p.0 == k {
            p.1
        } else {
            list_last_val(l, k)
        },
{
    let lp = l.push(p);
    assert(lp.drop_last() =~= l);
    assert(lp.last() == p);
    if list_has_key(l, k) {
        let i = choose|i: int| 0 <= i < l.len() && l[i].0 == k;
        assert(lp[i].0 == k);
    }
    if list_has_key(lp, k) && p.0 != k {
        let i = choose|i: int| 0 <= i < lp.len() && lp[i].0 == k;
        assert(i < l.len() && l[i].0 == k);
    }
}

/// With pairwise-distinct keys, the last value for a key is the one
/// value stored beside it.
pub proof fn lemma_list_last_distinct<V>(l: Seq<(Seq<char>, V)>, i: int, k: Seq<char>)
    requires
        0 <= i < l.len(),
        l[i].0 == k,
        forall|a: int, b: int|
            0 <= a < l.len() && 0 <= b < l.len() && a != b ==> (#[trigger] l[a].0) != (
            #[trigger] l[b].0),
    ensures
        list_last_val(l, k) == l[i].1,
    decreases l.len(),
{
    if l.last().0 == k {
        assert(i == l.len() - 1);
    } else {
        assert(i < l.len() - 1);
        let t = l.drop_last();
        assert(t[i] == l[i]);
        assert(forall|a: int, b: int|
            0 <= a < t.len() && 0 <= b < t.len() && a != b ==> (#[trigger] t[a].0) != (
            #[trigger] t[b].0));
        lemma_list_last_distinct(t, i, k);
    }
}

/// What `Seq::insert` holds at each index.
proof fn lemma_insert_idx<A>(s: Seq<A>, e: A, pos: int, j: int)
    requires
        0 <= pos <= s.len(),
        0 <= j <= s.len(),
    ensures
        s.insert(pos, e)[j] == if j < pos {
            s[j]
        } else if j == pos {
            e
        } else {
            s[j - 1]
        },
{
    s.insert_ensures(pos, e);
    if j > pos {
        assert(s.insert(pos, e)[(j - 1) + 1] == s[j - 1]);
    }
}

} // verus!
