//! Keyed tables: the flat registries that the mesh state is made of.
//!
//! A `Table` is a finite map whose keys and values are compared and copied
//! through their views. It keeps its entries in arrival order, so that callers
//! can also walk it by position.

use vstd::prelude::*;

verus! {

/// A value that can be copied; the copy stands for the same thing.
pub trait Record: View + Sized {
    fn duplicate(&self) -> (r: Self)
        ensures
            r@ == self@,
    ;
}

/// A record that can serve as a key: two keys are the same exactly when
/// their views are equal.
pub trait Key: Record {
    fn same(&self, other: &Self) -> (r: bool)
        ensures
            r == (self@ == other@),
    ;
}

/// The key views of a sequence of entries, in order.
pub open spec fn entry_keys<K: View, V>(s: Seq<(K, V)>) -> Seq<K::V> {
    Seq::new(s.len(), |i: int| s[i].0@)
}

/// The map that a sequence of entries stands for: each key is bound to the
/// value of an entry that carries it.
pub open spec fn entry_map<K: View, V: View>(s: Seq<(K, V)>) -> Map<K::V, V::V> {
    Map::new(
        |k: K::V| entry_keys(s).contains(k),
        |k: K::V| s[entry_keys(s).index_of(k)].1@,
    )
}

/// The views of a list of keys.
pub open spec fn key_views<K: View>(s: Seq<K>) -> Seq<K::V> {
    Seq::new(s.len(), |i: int| s[i]@)
}

/// `m` with each key of `ks` bound to `v`.
pub open spec fn bind<A, B>(m: Map<A, B>, ks: Set<A>, v: B) -> Map<A, B> {
    Map::new(
        |k: A| m.contains_key(k) || ks.contains(k),
        |k: A|
            if ks.contains(k) {
                v
            } else {
                m[k]
            },
    )
}

/// `ks` lists the domain of `m`, each key once.
pub open spec fn lists<A, B>(ks: Seq<A>, m: Map<A, B>) -> bool {
    &&& ks.no_duplicates()
    &&& forall|k: A| m.contains_key(k) <==> ks.contains(k)
}

/// One more item of a sequence taken: what the longer prefix holds is what
/// the shorter one holds, and the item at the position between them.
pub proof fn lemma_take_step<A>(s: Seq<A>, i: int)
    requires
        0 <= i < s.len(),
    ensures
        s.take(i + 1) == s.take(i).push(s[i]),
        forall|x: A| #[trigger] s.take(i + 1).contains(x) <==> (s.take(i).contains(x) || x == s[i]),
{
    let done = s.take(i);
    let next = s.take(i + 1);
    assert(next =~= done.push(s[i]));
    assert forall|x: A| #[trigger] next.contains(x) <==> (done.contains(x) || x == s[i]) by {
        if next.contains(x) {
            let j = choose|j: int| 0 <= j < next.len() && next[j] == x;
            if j < i {
                assert(done[j] == x);
            }
        }
        if done.contains(x) {
            let j = choose|j: int| 0 <= j < done.len() && done[j] == x;
            assert(next[j] == x);
        }
        if x == s[i] {
            assert(next[i] == x);
        }
    }
}

/// The whole of a sequence taken is the sequence, and nothing taken holds nothing.
pub proof fn lemma_take_ends<A>(s: Seq<A>)
    ensures
        s.take(s.len() as int) == s,
        forall|x: A| !(#[trigger] s.take(0).contains(x)),
{
    assert(s.take(s.len() as int) =~= s);
}

/// Each item of `s` read by `f`, in order; the error of the first item
/// that `f` refuses.
pub open spec fn try_map<A, B, E>(s: Seq<A>, f: spec_fn(A) -> Result<B, E>) -> Result<Seq<B>, E>
    decreases s.len(),
{
    if s.len() == 0 {
        Ok(Seq::empty())
    } else {
        match try_map(s.drop_last(), f) {
            Err(e) => Err(e),
            Ok(front) => match f(s.last()) {
                Err(e) => Err(e),
                Ok(b) => Ok(front.push(b)),
            },
        }
    }
}

/// Reading one more item: the items before it were read, then it is.
pub proof fn lemma_try_map_step<A, B, E>(s: Seq<A>, f: spec_fn(A) -> Result<B, E>, i: int)
    requires
        0 <= i < s.len(),
    ensures
        try_map(s.take(i + 1), f) == match try_map(s.take(i), f) {
            Err(e) => Err(e),
            Ok(front) => match f(s[i]) {
                Err(e) => Err(e),
                Ok(b) => Ok(front.push(b)),
            },
        },
        try_map(s.take(0), f) == Ok::<Seq<B>, E>(Seq::empty()),
        try_map(s.take(s.len() as int), f) == try_map(s, f),
{
    assert(s.take(i + 1).drop_last() =~= s.take(i));
    assert(s.take(i + 1).last() == s[i]);
    assert(s.take(s.len() as int) =~= s);
}

/// A fault among the first `i` items is a fault of the whole list, and
/// the same one.
pub proof fn lemma_try_map_fail<A, B, E>(s: Seq<A>, f: spec_fn(A) -> Result<B, E>, i: int)
    requires
        0 <= i <= s.len(),
        try_map(s.take(i), f) is Err,
    ensures
        try_map(s, f) == try_map(s.take(i), f),
    decreases s.len() - i,
{
    if i < s.len() {
        lemma_try_map_step(s, f, i);
        lemma_try_map_fail(s, f, i + 1);
    } else {
        assert(s.take(i) =~= s);
    }
}

/// With distinct keys, the entry at position `i` is what the map binds its key to.
pub proof fn lemma_entry_at<K: View, V: View>(s: Seq<(K, V)>, i: int)
    requires
        entry_keys(s).no_duplicates(),
        0 <= i < s.len(),
    ensures
        entry_map(s).contains_key(s[i].0@),
        entry_map(s)[s[i].0@] == s[i].1@,
{
    let ks = entry_keys(s);
    assert(ks[i] == s[i].0@);
    assert(ks.contains(s[i].0@));
    let j = ks.index_of(s[i].0@);
    assert(0 <= j < ks.len() && ks[j] == ks[i]);
}

/// A key that the map binds sits at some position of the entries.
pub proof fn lemma_entry_of<K: View, V: View>(s: Seq<(K, V)>, k: K::V) -> (i: int)
    requires
        entry_keys(s).no_duplicates(),
        entry_map(s).contains_key(k),
    ensures
        0 <= i < s.len(),
        s[i].0@ == k,
        entry_map(s)[k] == s[i].1@,
{
    let ks = entry_keys(s);
    assert(ks.contains(k));
    let i = ks.index_of(k);
    assert(ks[i] == s[i].0@);
    i
}

/// A finite map from keys to records, held as a list of entries with
/// distinct keys.
#[derive(Debug, PartialEq, Eq)]
pub struct Table<K: Key, V: Record> {
    entries: Vec<(K, V)>,
}

impl<K: Key, V: Record> View for Table<K, V> {
    type V = Map<K::V, V::V>;

    closed spec fn view(&self) -> Map<K::V, V::V> {
        entry_map(self.entries@)
    }
}

impl<K: Key, V: Record> Table<K, V> {
    /// The keys in the order in which the table holds them.
    pub closed spec fn keys(&self) -> Seq<K::V> {
        entry_keys(self.entries@)
    }

    /// Whether no key stands twice among the entries. Every table is so.
    #[verifier::type_invariant]
    pub closed spec fn distinct(&self) -> bool {
        entry_keys(self.entries@).no_duplicates()
    }

    /// Every table of distinct keys lists its own domain.
    pub proof fn lemma_lists(&self)
        requires
            self.distinct(),
        ensures
            lists(self.keys(), self@),
            self@.dom().finite(),
            self@.len() == self.keys().len(),
    {
        let ks = self.keys();
        assert(self@.dom() =~= ks.to_set());
        ks.unique_seq_to_set();
        vstd::seq_lib::seq_to_set_is_finite(ks);
    }

    /// The table that binds nothing.
    pub fn new() -> (t: Self)
        ensures
            t@ == Map::<K::V, V::V>::empty(),
            t.keys() == Seq::<K::V>::empty(),
    {
        let t = Table { entries: Vec::new() };
        assert(t@ =~= Map::<K::V, V::V>::empty());
        assert(t.keys() =~= Seq::<K::V>::empty());
        t
    }

    /// The number of entries, with the facts that let a caller walk the
    /// table by position.
    pub fn len(&self) -> (n: usize)
        ensures
            n == self.keys().len(),
            n == self@.len(),
            self@.dom().finite(),
            lists(self.keys(), self@),
    {
        proof {
            use_type_invariant(&*self);
            self.lemma_lists();
        }
        self.entries.len()
    }

    /// Whether the table binds nothing.
    pub fn is_empty(&self) -> (r: bool)
        ensures
            r == (self@ == Map::<K::V, V::V>::empty()),
            r == (self.keys().len() == 0),
    {
        proof {
            use_type_invariant(&*self);
            if self.entries@.len() == 0 {
                assert(self@ =~= Map::<K::V, V::V>::empty());
            } else {
                lemma_entry_at(self.entries@, 0);
            }
        }
        self.entries.len() == 0
    }

    fn position(&self, key: &K) -> (r: Option<usize>)
        ensures
            match r {
                Some(i) => i < self.entries@.len() && self.entries@[i as int].0@ == key@,
                None => !entry_keys(self.entries@).contains(key@),
            },
    {
        let mut i: usize = 0;
        while i < self.entries.len()
            invariant
                i <= self.entries@.len(),
                forall|j: int| 0 <= j < i ==> self.entries@[j].0@ != key@,
            decreases self.entries@.len() - i,
        {
            if self.entries[i].0.same(key) {
                return Some(i);
            }
            i += 1;
        }
        proof {
            let ks = entry_keys(self.entries@);
            assert forall|j: int| 0 <= j < ks.len() implies ks[j] != key@ by {
                assert(ks[j] == self.entries@[j].0@);
            }
        }
        None
    }

    /// Whether the table binds the key.
    pub fn contains_key(&self, key: &K) -> (r: bool)
        ensures
            r == self@.contains_key(key@),
    {
        proof {
            use_type_invariant(&*self);
        }
        match self.position(key) {
            Some(i) => {
                proof {
                    lemma_entry_at(self.entries@, i as int);
                }
                true
            },
            None => false,
        }
    }

    /// What the table binds the key to, if it binds it.
    pub fn get(&self, key: &K) -> (r: Option<&V>)
        ensures
            match r {
                Some(v) => self@.contains_key(key@) && v@ == self@[key@],
                None => !self@.contains_key(key@),
            },
    {
        proof {
            use_type_invariant(&*self);
        }
        match self.position(key) {
            Some(i) => {
                proof {
                    lemma_entry_at(self.entries@, i as int);
                }
                Some(&self.entries[i].1)
            },
            None => None,
        }
    }

    /// The key at position `i`.
    pub fn key_at(&self, i: usize) -> (k: &K)
        requires
            i < self.keys().len(),
        ensures
            k@ == self.keys()[i as int],
            self@.contains_key(k@),
    {
        proof {
            use_type_invariant(&*self);
            lemma_entry_at(self.entries@, i as int);
        }
        &self.entries[i].0
    }

    /// The value bound to the key at position `i`.
    pub fn value_at(&self, i: usize) -> (v: &V)
        requires
            i < self.keys().len(),
        ensures
            self@.contains_key(self.keys()[i as int]),
            v@ == self@[self.keys()[i as int]],
    {
        proof {
            use_type_invariant(&*self);
            lemma_entry_at(self.entries@, i as int);
        }
        &self.entries[i].1
    }

    /// Binds `key` to `value`, replacing what it was bound to. A new key
    /// goes to the end of the order; a known key keeps its position.
    pub fn insert(&mut self, key: K, value: V)
        ensures
            final(self)@ == old(self)@.insert(key@, value@),
            final(self).keys() == if old(self)@.contains_key(key@) {
                old(self).keys()
            } else {
                old(self).keys().push(key@)
            },
    {
        proof {
            use_type_invariant(&*self);
        }
        let found = self.position(&key);
        let mut entries: Vec<(K, V)> = Vec::new();
        std::mem::swap(&mut entries, &mut self.entries);
        let ghost before = entries@;
        let ghost kv = key@;
        let ghost vv = value@;
        match found {
            Some(i) => {
                entries.set(i, (key, value));
                proof {
                    lemma_entry_at(before, i as int);
                    assert(entry_keys(entries@) =~= entry_keys(before));
                }
            },
            None => {
                entries.push((key, value));
                proof {
                    assert(entry_keys(entries@) =~= entry_keys(before).push(kv));
                }
            },
        }
        proof {
            let after = entries@;
            assert(entry_keys(after).no_duplicates());
            assert forall|k: K::V| #[trigger]
                entry_map(after).contains_key(k) == entry_map(before).insert(
                    kv,
                    vv,
                ).contains_key(k) by {
                if entry_map(after).contains_key(k) {
                    let j = lemma_entry_of(after, k);
                    if j < before.len() && k != kv {
                        lemma_entry_at(before, j);
                    }
                }
                if entry_map(before).contains_key(k) {
                    let j = lemma_entry_of(before, k);
                    lemma_entry_at(after, j);
                }
                if k == kv {
                    match found {
                        Some(i) => lemma_entry_at(after, i as int),
                        None => lemma_entry_at(after, before.len() as int),
                    }
                }
            }
            assert forall|k: K::V| #[trigger]
                entry_map(after).contains_key(k) implies entry_map(after)[k] == entry_map(
                before,
            ).insert(kv, vv)[k] by {
                let j = lemma_entry_of(after, k);
                if k != kv {
                    lemma_entry_at(before, j);
                } else {
                    match found {
                        Some(i) => lemma_entry_at(after, i as int),
                        None => lemma_entry_at(after, before.len() as int),
                    }
                }
            }
            assert(entry_map(after) =~= entry_map(before).insert(kv, vv));
        }
        self.entries = entries;
    }

    /// Unbinds `key` and hands back what it was bound to.
    pub fn remove(&mut self, key: &K) -> (r: Option<V>)
        ensures
            final(self)@ == old(self)@.remove(key@),
            match r {
                Some(v) => old(self)@.contains_key(key@) && v@ == old(self)@[key@],
                None => !old(self)@.contains_key(key@),
            },
            final(self).keys() == if old(self)@.contains_key(key@) {
                old(self).keys().remove(old(self).keys().index_of(key@))
            } else {
                old(self).keys()
            },
    {
        proof {
            use_type_invariant(&*self);
        }
        let found = self.position(key);
        match found {
            Some(i) => {
                let mut entries: Vec<(K, V)> = Vec::new();
                std::mem::swap(&mut entries, &mut self.entries);
                let ghost before = entries@;
                let ghost kv = key@;
                let entry = entries.remove(i);
                proof {
                    let after = entries@;
                    let ks = entry_keys(before);
                    lemma_entry_at(before, i as int);
                    assert(ks[i as int] == kv);
                    let c = ks.index_of(kv);
                    assert(0 <= c < ks.len() && ks[c] == kv);
                    assert(c == i);
                    assert(entry_keys(after) =~= ks.remove(i as int));
                    assert(entry_keys(after).no_duplicates());
                    assert forall|k: K::V| #[trigger]
                        entry_map(after).contains_key(k) == entry_map(before).remove(
                            kv,
                        ).contains_key(k) by {
                        if entry_map(after).contains_key(k) {
                            let j = lemma_entry_of(after, k);
                            if j < i {
                                lemma_entry_at(before, j);
                            } else {
                                lemma_entry_at(before, j + 1);
                            }
                        }
                        if entry_map(before).contains_key(k) && k != kv {
                            let j = lemma_entry_of(before, k);
                            if j < i {
                                lemma_entry_at(after, j);
                            } else {
                                lemma_entry_at(after, j - 1);
                            }
                        }
                    }
                    assert forall|k: K::V| #[trigger]
                        entry_map(after).contains_key(k) implies entry_map(after)[k]
                        == entry_map(before).remove(kv)[k] by {
                        let j = lemma_entry_of(after, k);
                        if j < i {
                            lemma_entry_at(before, j);
                        } else {
                            lemma_entry_at(before, j + 1);
                        }
                    }
                    assert(entry_map(after) =~= entry_map(before).remove(kv));
                }
                self.entries = entries;
                Some(entry.1)
            },
            None => {
                proof {
                    assert(self@.remove(key@) =~= self@);
                }
                None
            },
        }
    }

    /// Replaces the value at position `i`; keys and order stay.
    pub fn set_value_at(&mut self, i: usize, value: V)
        requires
            i < old(self).keys().len(),
        ensures
            final(self).keys() == old(self).keys(),
            final(self)@ == old(self)@.insert(old(self).keys()[i as int], value@),
    {
        proof {
            use_type_invariant(&*self);
        }
        let key = self.entries[i].0.duplicate();
        proof {
            lemma_entry_at(self.entries@, i as int);
        }
        self.insert(key, value);
    }
}

impl<K: Key, V: Record> Table<K, V> {
    /// Copies of the keys, in the order of the table.
    pub fn key_list(&self) -> (r: Vec<K>)
        ensures
            r@.len() == self.keys().len(),
            forall|i: int| 0 <= i < r@.len() ==> (#[trigger] r@[i])@ == self.keys()[i],
            lists(self.keys(), self@),
    {
        let n = self.len();
        let mut r: Vec<K> = Vec::new();
        let mut i: usize = 0;
        while i < n
            invariant
                i <= n,
                n == self.keys().len(),
                r@.len() == i,
                forall|j: int| 0 <= j < i ==> (#[trigger] r@[j])@ == self.keys()[j],
            decreases n - i,
        {
            r.push(self.key_at(i).duplicate());
            i += 1;
        }
        r
    }

    /// Unbinds each of `keys`.
    pub fn remove_all(&mut self, keys: &Vec<K>)
        ensures
            final(self)@ == old(self)@.remove_keys(key_views(keys@).to_set()),
    {
        let ghost kv = key_views(keys@);
        let n = keys.len();
        let mut i: usize = 0;
        proof {
            lemma_take_ends(kv);
            assert(self@ =~= old(self)@.remove_keys(kv.take(0).to_set()));
        }
        while i < n
            invariant
                i <= n,
                n == keys@.len(),
                kv == key_views(keys@),
                self@ == old(self)@.remove_keys(kv.take(i as int).to_set()),
            decreases n - i,
        {
            self.remove(&keys[i]);
            proof {
                lemma_take_step(kv, i as int);
                assert(self@ =~= old(self)@.remove_keys(kv.take(i + 1).to_set()));
            }
            i += 1;
        }
        proof {
            lemma_take_ends(kv);
        }
    }

    /// Binds each of `keys` to a copy of `value`.
    pub fn insert_all(&mut self, keys: &Vec<K>, value: &V)
        ensures
            final(self)@ == bind(old(self)@, key_views(keys@).to_set(), value@),
    {
        let ghost kv = key_views(keys@);
        let n = keys.len();
        let mut i: usize = 0;
        proof {
            lemma_take_ends(kv);
            assert(self@ =~= bind(old(self)@, kv.take(0).to_set(), value@));
        }
        while i < n
            invariant
                i <= n,
                n == keys@.len(),
                kv == key_views(keys@),
                self@ == bind(old(self)@, kv.take(i as int).to_set(), value@),
            decreases n - i,
        {
            self.insert(keys[i].duplicate(), value.duplicate());
            proof {
                lemma_take_step(kv, i as int);
                assert(self@ =~= bind(old(self)@, kv.take(i + 1).to_set(), value@));
            }
            i += 1;
        }
        proof {
            lemma_take_ends(kv);
        }
    }

    /// Takes over every binding of `other`; where both bind a key, the
    /// binding of `other` stands.
    pub fn absorb(&mut self, other: &Table<K, V>)
        ensures
            final(self)@ == old(self)@.union_prefer_right(other@),
    {
        let n = other.len();
        let mut i: usize = 0;
        while i < n
            invariant
                i <= n,
                n == other.keys().len(),
                lists(other.keys(), other@),
                self@ == old(self)@.union_prefer_right(
                    other@.restrict(other.keys().take(i as int).to_set()),
                ),
            decreases n - i,
        {
            let k = other.key_at(i).duplicate();
            let v = other.value_at(i).duplicate();
            let ghost before = self@;
            self.insert(k, v);
            proof {
                let ks = other.keys();
                let done = ks.take(i as int);
                let next = ks.take(i + 1);
                assert(next =~= done.push(ks[i as int]));
                assert forall|x: K::V| next.to_set().contains(x) <==> (done.to_set().contains(x)
                    || x == ks[i as int]) by {
                    if next.contains(x) {
                        let j = choose|j: int| 0 <= j < next.len() && next[j] == x;
                        if j < i {
                            assert(done[j] == x);
                        }
                    }
                    if done.contains(x) {
                        let j = choose|j: int| 0 <= j < done.len() && done[j] == x;
                        assert(next[j] == x);
                    }
                    if x == ks[i as int] {
                        assert(next[i as int] == x);
                    }
                }
                assert(self@ =~= old(self)@.union_prefer_right(other@.restrict(next.to_set())));
            }
            i += 1;
        }
        proof {
            let ks = other.keys();
            assert(ks.take(n as int) =~= ks);
            assert(other@.restrict(ks.to_set()) =~= other@);
        }
    }
}

impl<K: Key, V: Record> Record for Table<K, V> {
    fn duplicate(&self) -> (r: Self) {
        proof {
            use_type_invariant(&*self);
        }
        let mut entries: Vec<(K, V)> = Vec::new();
        let mut i: usize = 0;
        while i < self.entries.len()
            invariant
                i <= self.entries@.len(),
                entries@.len() == i,
                forall|j: int|
                    0 <= j < i ==> entries@[j].0@ == self.entries@[j].0@ && entries@[j].1@
                        == self.entries@[j].1@,
            decreases self.entries@.len() - i,
        {
            let k = self.entries[i].0.duplicate();
            let v = self.entries[i].1.duplicate();
            entries.push((k, v));
            i += 1;
        }
        proof {
            assert(entry_keys(entries@) =~= entry_keys(self.entries@));
            assert forall|k: K::V| #[trigger]
                entry_map(entries@).contains_key(k) implies entry_map(entries@)[k] == entry_map(
                self.entries@,
            )[k] by {
                let j = lemma_entry_of(entries@, k);
                lemma_entry_at(self.entries@, j);
            }
            assert(entry_map(entries@) =~= entry_map(self.entries@));
        }
        Table { entries }
    }
}

impl<K: Key, V: Record> Clone for Table<K, V> {
    fn clone(&self) -> (r: Self)
        ensures
            r@ == self@,
    {
        self.duplicate()
    }
}

impl Record for String {
    fn duplicate(&self) -> (r: Self) {
        self.clone()
    }
}

impl Key for String {
    fn same(&self, other: &Self) -> (r: bool) {
        *self == *other
    }
}

impl Record for () {
    fn duplicate(&self) -> (r: Self) {
        ()
    }
}

impl Record for u16 {
    fn duplicate(&self) -> (r: Self) {
        *self
    }
}

impl Key for u16 {
    fn same(&self, other: &Self) -> (r: bool) {
        *self == *other
    }
}

} // verus!
