//! The key/value section of a full stat response.

use vstd::prelude::*;

verus! {

/// The index of the first pair with the key `k`, or the number of pairs.
pub open spec fn key_index(p: Seq<(Seq<char>, Seq<char>)>, k: Seq<char>) -> int
    decreases p.len(),
{
    if p.len() == 0 || p[0].0 == k {
        0
    } else {
        1 + key_index(p.drop_first(), k)
    }
}

/// True where no key occurs twice.
pub open spec fn distinct_keys(p: Seq<(Seq<char>, Seq<char>)>) -> bool {
    forall|i: int, j: int| 0 <= i < j < p.len() ==> (#[trigger] p[i]).0 != (#[trigger] p[j]).0
}

/// The pairs with `k` set to `v`: in its place where it is present, behind all
/// others where it is not.
pub open spec fn put(p: Seq<(Seq<char>, Seq<char>)>, k: Seq<char>, v: Seq<char>) -> Seq<
    (Seq<char>, Seq<char>),
> {
    let i = key_index(p, k);
    if i < p.len() {
        p.update(i, (k, v))
    } else {
        p.push((k, v))
    }
}

/// The pairs as a map.
pub open spec fn pairs_map(p: Seq<(Seq<char>, Seq<char>)>) -> Map<Seq<char>, Seq<char>> {
    Map::new(|k: Seq<char>| key_index(p, k) < p.len(), |k: Seq<char>| p[key_index(p, k)].1)
}

/// `key_index` is the first pair with the key, or the number of pairs.
pub proof fn lemma_key_index(p: Seq<(Seq<char>, Seq<char>)>, k: Seq<char>)
    ensures
        0 <= key_index(p, k) <= p.len(),
        key_index(p, k) < p.len() ==> p[key_index(p, k)].0 == k,
        forall|i: int| 0 <= i < key_index(p, k) ==> (#[trigger] p[i]).0 != k,
    decreases p.len(),
{
    if p.len() != 0 && p[0].0 != k {
        let tail = p.drop_first();
        lemma_key_index(tail, k);
        assert forall|i: int| 0 <= i < key_index(p, k) implies (#[trigger] p[i]).0 != k by {
            if i > 0 {
                assert(p[i] == tail[i - 1]);
            }
        }
    }
}

/// The first place of a key is `key_index`.
pub proof fn lemma_key_index_unique(p: Seq<(Seq<char>, Seq<char>)>, k: Seq<char>, n: int)
    requires
        0 <= n <= p.len(),
        n < p.len() ==> p[n].0 == k,
        forall|i: int| 0 <= i < n ==> (#[trigger] p[i]).0 != k,
    ensures
        key_index(p, k) == n,
{
    lemma_key_index(p, k);
}

/// Setting a key keeps the keys distinct, and sets it in the map.
pub proof fn lemma_put(p: Seq<(Seq<char>, Seq<char>)>, k: Seq<char>, v: Seq<char>)
    requires
        distinct_keys(p),
    ensures
        distinct_keys(put(p, k, v)),
        pairs_map(put(p, k, v)) == pairs_map(p).insert(k, v),
{
    let q = put(p, k, v);
    let n = key_index(p, k);
    lemma_key_index(p, k);
    assert forall|j: Seq<char>| #[trigger] key_index(q, j) == if j == k {
        n
    } else if key_index(p, j) < p.len() {
        key_index(p, j)
    } else {
        q.len() as int
    } by {
        lemma_key_index(p, j);
        if j == k {
            assert forall|i: int| 0 <= i < n implies (#[trigger] q[i]).0 != j by {
                assert(q[i] == p[i]);
            }
            lemma_key_index_unique(q, j, n);
        } else {
            let m = if key_index(p, j) < p.len() {
                key_index(p, j)
            } else {
                q.len() as int
            };
            assert forall|i: int| 0 <= i < m implies (#[trigger] q[i]).0 != j by {
                if i != n {
                    assert(q[i] == p[i]);
                }
            }
            lemma_key_index_unique(q, j, m);
        }
    }
    assert(pairs_map(q) =~= pairs_map(p).insert(k, v)) by {
        assert forall|j: Seq<char>| pairs_map(q).dom().contains(j) == pairs_map(p).insert(k, v)
            .dom().contains(j) by {
            lemma_key_index(p, j);
            assert(key_index(q, j) == key_index(q, j));
        }
        assert forall|j: Seq<char>| pairs_map(q).dom().contains(j) implies pairs_map(q)[j]
            == pairs_map(p).insert(k, v)[j] by {
            lemma_key_index(p, j);
            assert(key_index(q, j) == key_index(q, j));
        }
    }
}

/// Setting a key that is not present puts it behind all others.
pub proof fn lemma_put_new(p: Seq<(Seq<char>, Seq<char>)>, k: Seq<char>, v: Seq<char>)
    requires
        forall|i: int| 0 <= i < p.len() ==> (#[trigger] p[i]).0 != k,
    ensures
        put(p, k, v) == p.push((k, v)),
{
    lemma_key_index_unique(p, k, p.len() as int);
}

/// The texts of a pair of strings.
pub open spec fn pair_view(e: (String, String)) -> (Seq<char>, Seq<char>) {
    (e.0@, e.1@)
}

/// Pairs of strings with distinct keys, in the order in which the keys came.
#[derive(Debug)]
pub struct KvSection {
    entries: Vec<(String, String)>,
}

impl View for KvSection {
    type V = Seq<(Seq<char>, Seq<char>)>;

    closed spec fn view(&self) -> Self::V {
        self.entries@.map_values(|e: (String, String)| pair_view(e))
    }
}

impl KvSection {
    #[verifier::type_invariant]
    spec fn keys_are_distinct(self) -> bool {
        distinct_keys(self@)
    }

    /// No pairs.
    pub fn new() -> (kv: Self)
        ensures
            kv@ == Seq::<(Seq<char>, Seq<char>)>::empty(),
    {
        let kv = KvSection { entries: Vec::new() };
        assert(kv@ =~= Seq::<(Seq<char>, Seq<char>)>::empty());
        kv
    }

    /// The number of pairs.
    pub fn len(&self) -> (n: usize)
        ensures
            n == self@.len(),
            distinct_keys(self@),
    {
        proof {
            use_type_invariant(&*self);
        }
        self.entries.len()
    }

    /// The key of the pair at `i`.
    pub fn key(&self, i: usize) -> (k: &String)
        requires
            i < self@.len(),
        ensures
            k@ == self@[i as int].0,
    {
        &self.entries[i].0
    }

    /// The value of the pair at `i`.
    pub fn value(&self, i: usize) -> (v: &String)
        requires
            i < self@.len(),
        ensures
            v@ == self@[i as int].1,
    {
        &self.entries[i].1
    }

    fn find(&self, k: &String) -> (i: usize)
        ensures
            i == key_index(self@, k@),
            i <= self@.len(),
    {
        let mut i: usize = 0;
        while i < self.entries.len()
            invariant
                i <= self.entries@.len() == self@.len(),
                forall|j: int| 0 <= j < i ==> (#[trigger] self@[j]).0 != k@,
            decreases self.entries@.len() - i,
        {
            assert(self@[i as int] == pair_view(self.entries@[i as int]));
            if self.entries[i].0 == *k {
                proof {
                    lemma_key_index_unique(self@, k@, i as int);
                }
                return i;
            }
            i = i + 1;
        }
        proof {
            lemma_key_index_unique(self@, k@, i as int);
        }
        i
    }

    /// The value of the key `k`, where it is present.
    pub fn get(&self, k: &str) -> (res: Option<&String>)
        ensures
            match res {
                Some(v) => pairs_map(self@).contains_key(k@) && v@ == pairs_map(self@)[k@],
                None => !pairs_map(self@).contains_key(k@),
            },
    {
        let key: String = k.to_owned();
        let i: usize = self.find(&key);
        if i < self.entries.len() {
            Some(self.value(i))
        } else {
            None
        }
    }

    /// Sets the key `k` to `v`.
    pub fn insert(&mut self, k: String, v: String)
        ensures
            final(self)@ == put(old(self)@, k@, v@),
            distinct_keys(final(self)@),
            pairs_map(final(self)@) == pairs_map(old(self)@).insert(k@, v@),
    {
        proof {
            use_type_invariant(&*self);
            lemma_put(self@, k@, v@);
        }
        let i: usize = self.find(&k);
        let ghost before = self@;
        let mut entries: Vec<(String, String)> = Vec::new();
        std::mem::swap(&mut entries, &mut self.entries);
        let ghost pair = (k@, v@);
        if i < entries.len() {
            entries.set(i, (k, v));
        } else {
            entries.push((k, v));
        }
        proof {
            let now = entries@.map_values(|e: (String, String)| pair_view(e));
            assert(now =~= put(before, pair.0, pair.1));
        }
        self.entries = entries;
    }
}

} // verus!
