use vstd::prelude::*;

verus! {

/// Keys of a [`Table`]: plain values compared field by field.
pub trait TableKey: Copy + Sized {
    fn same_key(&self, other: &Self) -> (b: bool)
        ensures
            b == (*self == *other),
    ;
}

/// No key occurs twice in an association list.
pub open spec fn keys_unique<K>(s: Seq<(K, Seq<char>)>) -> bool {
    forall|i: int, j: int| 0 <= i < s.len() && 0 <= j < s.len() && i != j ==> s[i].0 != s[j].0
}

/// `k` is the key of some entry of `s`.
pub open spec fn has_key<K>(s: Seq<(K, Seq<char>)>, k: K) -> bool {
    exists|i: int| 0 <= i < s.len() && s[i].0 == k
}

/// The position of the entry with key `k` (meaningful where `has_key`).
pub open spec fn key_index<K>(s: Seq<(K, Seq<char>)>, k: K) -> int {
    choose|i: int| 0 <= i < s.len() && s[i].0 == k
}

/// The value stored under `k`, if any.
pub open spec fn assoc_lookup<K>(s: Seq<(K, Seq<char>)>, k: K) -> Option<Seq<char>> {
    if has_key(s, k) {
        Some(s[key_index(s, k)].1)
    } else {
        None
    }
}

/// What `HashMap::insert` does to the entries of a map kept as an
/// association list: the value of an existing key is replaced in place, a
/// new key is appended.
pub open spec fn assoc_insert<K>(s: Seq<(K, Seq<char>)>, k: K, v: Seq<char>) -> Seq<(K, Seq<char>)> {
    if has_key(s, k) {
        s.update(key_index(s, k), (k, v))
    } else {
        s.push((k, v))
    }
}

/// With unique keys, the entry found by `key_index` is the only one.
pub proof fn lemma_key_index_unique<K>(s: Seq<(K, Seq<char>)>, k: K, i: int)
    requires
        keys_unique(s),
        0 <= i < s.len(),
        s[i].0 == k,
    ensures
        key_index(s, k) == i,
        assoc_lookup(s, k) == Some(s[i].1),
{
}

/// Where the last entry has another key, looking a key up ignores it.
pub proof fn lemma_lookup_drop_last<K>(s: Seq<(K, Seq<char>)>, k: K)
    requires
        keys_unique(s),
        s.len() > 0,
        s.last().0 != k,
    ensures
        assoc_lookup(s, k) == assoc_lookup(s.drop_last(), k),
{
    let t = s.drop_last();
    if has_key(t, k) {
        let i = key_index(t, k);
        assert(s[i].0 == k);
        lemma_key_index_unique(s, k, i);
        lemma_key_index_unique(t, k, i);
    } else if has_key(s, k) {
        let j = key_index(s, k);
        assert(j != s.len() - 1);
        assert(t[j].0 == k);
    }
}

/// Inserting keeps the keys unique.
pub proof fn lemma_insert_unique<K>(s: Seq<(K, Seq<char>)>, k: K, v: Seq<char>)
    requires
        keys_unique(s),
    ensures
        keys_unique(assoc_insert(s, k, v)),
        has_key(assoc_insert(s, k, v), k),
{
    if has_key(s, k) {
        let i = key_index(s, k);
        assert(assoc_insert(s, k, v)[i].0 == k);
    } else {
        assert(assoc_insert(s, k, v)[s.len() as int].0 == k);
    }
}

/// Reading a key back after an insert gives the value written, and every
/// other key keeps its value.
pub proof fn lemma_insert_lookup<K>(s: Seq<(K, Seq<char>)>, k: K, v: Seq<char>, other: K)
    requires
        keys_unique(s),
    ensures
        assoc_lookup(assoc_insert(s, k, v), k) == Some(v),
        other != k ==> assoc_lookup(assoc_insert(s, k, v), other) == assoc_lookup(s, other),
{
    lemma_insert_unique(s, k, v);
    let t = assoc_insert(s, k, v);
    if has_key(s, k) {
        let i = key_index(s, k);
        lemma_key_index_unique(t, k, i);
    } else {
        lemma_key_index_unique(t, k, s.len() as int);
    }
    if other != k {
        if has_key(s, other) {
            let j = key_index(s, other);
            assert(t[j].0 == other);
            lemma_key_index_unique(t, other, j);
        } else {
            if has_key(t, other) {
                let j = key_index(t, other);
                assert(s[j].0 == other);
            }
        }
    }
}

/// The keys after an insert are the keys before and the key inserted; the
/// length grows by one exactly when the key is new.
pub proof fn lemma_insert_keys<K>(s: Seq<(K, Seq<char>)>, k: K, v: Seq<char>, x: K)
    ensures
        has_key(assoc_insert(s, k, v), x) <==> (has_key(s, x) || x == k),
        assoc_insert(s, k, v).len() == (if has_key(s, k) { s.len() } else { s.len() + 1 }),
{
    let t = assoc_insert(s, k, v);
    if has_key(s, k) {
        let i = key_index(s, k);
        assert(t[i].0 == k);
        if has_key(s, x) && x != k {
            let j = key_index(s, x);
            assert(t[j].0 == x);
        }
        if has_key(t, x) && x != k {
            let j = key_index(t, x);
            assert(s[j].0 == x);
        }
    } else {
        assert(t[s.len() as int].0 == k);
        if has_key(s, x) {
            let j = key_index(s, x);
            assert(t[j].0 == x);
        }
        if has_key(t, x) && x != k {
            let j = key_index(t, x);
            assert(j < s.len());
            assert(s[j].0 == x);
        }
    }
}

/// A map from keys to strings kept as an association list: the entries
/// stay in the order in which their keys were first inserted, and no key
/// occurs twice.
pub struct Table<K> {
    entries: Vec<(K, String)>,
}

impl<K> View for Table<K> {
    type V = Seq<(K, Seq<char>)>;

    closed spec fn view(&self) -> Seq<(K, Seq<char>)> {
        self.entries@.map_values(|e: (K, String)| (e.0, e.1@))
    }
}

impl<K: TableKey> Table<K> {
    /// The table is well formed: no key occurs twice.
    pub open spec fn wf(&self) -> bool {
        keys_unique(self@)
    }

    /// An empty table.
    pub fn new() -> (t: Self)
        ensures
            t@ == Seq::<(K, Seq<char>)>::empty(),
            t.wf(),
    {
        let t = Table { entries: Vec::new() };
        assert(t@ =~= Seq::<(K, Seq<char>)>::empty());
        t
    }

    /// The number of entries.
    pub fn len(&self) -> (n: usize)
        ensures
            n == self@.len(),
    {
        self.entries.len()
    }

    /// The key of the `i`-th entry.
    pub fn key_at(&self, i: usize) -> (k: K)
        requires
            i < self@.len(),
        ensures
            k == self@[i as int].0,
    {
        self.entries[i].0
    }

    /// A copy of the value of the `i`-th entry.
    pub fn value_at(&self, i: usize) -> (v: String)
        requires
            i < self@.len(),
        ensures
            v@ == self@[i as int].1,
    {
        self.entries[i].1.clone()
    }

    /// The position of the entry with key `k`, if there is one.
    fn find(&self, k: &K) -> (r: Option<usize>)
        requires
            self.wf(),
        ensures
            match r {
                Some(i) => i < self@.len() && self@[i as int].0 == *k && key_index(self@, *k) == i,
                None => !has_key(self@, *k),
            },
    {
        let n = self.entries.len();
        let mut i: usize = 0;
        while i < n
            invariant
                self.wf(),
                n == self@.len(),
                self.entries@.len() == n,
                i <= n,
                forall|j: int| 0 <= j < i ==> self@[j].0 != *k,
            decreases n - i,
        {
            if self.entries[i].0.same_key(k) {
                proof {
                    lemma_key_index_unique(self@, *k, i as int);
                }
                return Some(i);
            }
            i = i + 1;
        }
        None
    }

    /// A copy of the value stored under `k`, if any.
    pub fn get(&self, k: &K) -> (r: Option<String>)
        requires
            self.wf(),
        ensures
            match r {
                Some(v) => assoc_lookup(self@, *k) == Some(v@),
                None => assoc_lookup(self@, *k) is None,
            },
    {
        match self.find(k) {
            Some(i) => Some(self.entries[i].1.clone()),
            None => None,
        }
    }

    /// Whether some entry has key `k`.
    pub fn contains_key(&self, k: &K) -> (b: bool)
        requires
            self.wf(),
        ensures
            b == has_key(self@, *k),
    {
        self.find(k).is_some()
    }

    /// Stores `v` under `k`, replacing an older value of that key.
    pub fn insert(&mut self, k: K, v: String)
        requires
            old(self).wf(),
        ensures
            final(self).wf(),
            final(self)@ == assoc_insert(old(self)@, k, v@),
    {
        proof {
            lemma_insert_unique(self@, k, v@);
        }
        match self.find(&k) {
            Some(i) => {
                self.entries.set(i, (k, v));
            },
            None => {
                self.entries.push((k, v));
            },
        }
        assert(self@ =~= assoc_insert(old(self)@, k, v@));
    }
}


/// A set of names kept in the order in which they were first added.
pub struct NameList {
    names: Vec<String>,
}

impl View for NameList {
    type V = Seq<Seq<char>>;

    closed spec fn view(&self) -> Seq<Seq<char>> {
        self.names@.map_values(|n: String| n@)
    }
}

impl NameList {
    /// No name occurs twice.
    pub open spec fn wf(&self) -> bool {
        self@.no_duplicates()
    }

    /// An empty list.
    pub fn new() -> (l: Self)
        ensures
            l@ == Seq::<Seq<char>>::empty(),
            l.wf(),
    {
        let l = NameList { names: Vec::new() };
        assert(l@ =~= Seq::<Seq<char>>::empty());
        l
    }

    /// The number of names.
    pub fn len(&self) -> (n: usize)
        ensures
            n == self@.len(),
    {
        self.names.len()
    }

    /// A copy of the `i`-th name.
    pub fn name_at(&self, i: usize) -> (n: String)
        requires
            i < self@.len(),
        ensures
            n@ == self@[i as int],
    {
        self.names[i].clone()
    }

    /// Copies of all names, in order.
    pub fn names(&self) -> (v: Vec<String>)
        ensures
            v@.map_values(|n: String| n@) == self@,
    {
        let n = self.names.len();
        let mut v: Vec<String> = Vec::new();
        let mut i: usize = 0;
        while i < n
            invariant
                n == self@.len(),
                self.names@.len() == n,
                i <= n,
                v@.map_values(|n: String| n@) == self@.take(i as int),
            decreases n - i,
        {
            let ghost prev = v@;
            let s = self.names[i].clone();
            v.push(s);
            assert(v@ =~= prev.push(s));
            assert(v@.map_values(|n: String| n@) =~= prev.map_values(|n: String| n@).push(s@));
            assert(self@.take(i + 1) =~= self@.take(i as int).push(self@[i as int]));
            i = i + 1;
        }
        assert(self@.take(n as int) =~= self@);
        v
    }

    /// Whether `name` is in the list.
    pub fn contains(&self, name: &String) -> (b: bool)
        ensures
            b == self@.contains(name@),
    {
        let n = self.names.len();
        let mut i: usize = 0;
        while i < n
            invariant
                n == self@.len(),
                self.names@.len() == n,
                i <= n,
                forall|j: int| 0 <= j < i ==> self@[j] != name@,
            decreases n - i,
        {
            if self.names[i] == *name {
                assert(self@[i as int] == name@);
                return true;
            }
            i = i + 1;
        }
        false
    }

    /// Adds `name` unless it is already there.
    pub fn insert(&mut self, name: String)
        requires
            old(self).wf(),
        ensures
            final(self).wf(),
            final(self)@ == (if old(self)@.contains(name@) { old(self)@ } else { old(self)@.push(name@) }),
    {
        if !self.contains(&name) {
            self.names.push(name);
            assert(self@ =~= old(self)@.push(name@));
        }
    }
}

} // verus!
