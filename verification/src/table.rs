//! A table from text keys to lists of texts, with at most one entry per key:
//! the shape of the reply settings and of the reply cache.

use vstd::prelude::*;

verus! {

/// The entries of a table, in order: each key with its list of texts.
pub type TableView = Seq<(Seq<char>, Seq<Seq<char>>)>;

/// The list stored under `k`.
pub open spec fn table_get(t: TableView, k: Seq<char>) -> Option<Seq<Seq<char>>>
    decreases t.len(),
{
    if t.len() == 0 {
        None
    } else if t[0].0 == k {
        Some(t[0].1)
    } else {
        table_get(t.drop_first(), k)
    }
}

/// The table with the list under `k` set to `v`: the entry of `k` keeps its
/// place if there is one, else a new entry comes last.
pub open spec fn table_set(t: TableView, k: Seq<char>, v: Seq<Seq<char>>) -> TableView
    decreases t.len(),
{
    if t.len() == 0 {
        seq![(k, v)]
    } else if t[0].0 == k {
        seq![(k, v)] + t.drop_first()
    } else {
        seq![t[0]] + table_set(t.drop_first(), k, v)
    }
}

/// The table with `x` added at the end of the list under `k` (a new entry
/// holding `x` alone where `k` has none).
pub open spec fn table_append(t: TableView, k: Seq<char>, x: Seq<char>) -> TableView {
    let old_list = match table_get(t, k) {
        Some(l) => l,
        None => Seq::<Seq<char>>::empty(),
    };
    table_set(t, k, old_list.push(x))
}

/// Every list of the table holds at least one text.
pub open spec fn lists_nonempty(t: TableView) -> bool {
    forall|i: int| 0 <= i < t.len() ==> #[trigger] t[i].1.len() > 0
}

/// No key has two entries.
pub open spec fn keys_distinct(t: TableView) -> bool {
    forall|i: int, j: int| 0 <= i < j < t.len() ==> t[i].0 != t[j].0
}

pub open spec fn entry_view(e: (String, Vec<String>)) -> (Seq<char>, Seq<Seq<char>>) {
    (e.0@, e.1.deep_view())
}

proof fn lemma_get_at(t: TableView, k: Seq<char>, i: int)
    requires
        0 <= i < t.len(),
        t[i].0 == k,
        forall|j: int| 0 <= j < i ==> t[j].0 != k,
    ensures
        table_get(t, k) == Some(t[i].1),
    decreases i,
{
    if i > 0 {
        lemma_get_at(t.drop_first(), k, i - 1);
    }
}

proof fn lemma_get_none(t: TableView, k: Seq<char>)
    requires
        forall|j: int| 0 <= j < t.len() ==> t[j].0 != k,
    ensures
        table_get(t, k) is None,
    decreases t.len(),
{
    if t.len() > 0 {
        lemma_get_none(t.drop_first(), k);
    }
}

proof fn lemma_set_at(t: TableView, k: Seq<char>, v: Seq<Seq<char>>, i: int)
    requires
        0 <= i < t.len(),
        t[i].0 == k,
        forall|j: int| 0 <= j < i ==> t[j].0 != k,
    ensures
        table_set(t, k, v) == t.update(i, (k, v)),
    decreases i,
{
    if i > 0 {
        lemma_set_at(t.drop_first(), k, v, i - 1);
        assert(table_set(t, k, v) =~= t.update(i, (k, v)));
    } else {
        assert(table_set(t, k, v) =~= t.update(i, (k, v)));
    }
}

proof fn lemma_set_none(t: TableView, k: Seq<char>, v: Seq<Seq<char>>)
    requires
        forall|j: int| 0 <= j < t.len() ==> t[j].0 != k,
    ensures
        table_set(t, k, v) == t.push((k, v)),
    decreases t.len(),
{
    if t.len() > 0 {
        lemma_set_none(t.drop_first(), k, v);
        assert(table_set(t, k, v) =~= t.push((k, v)));
    } else {
        assert(table_set(t, k, v) =~= t.push((k, v)));
    }
}

/// Reading a key after setting it gives back what was set, and setting a key
/// leaves every other key as it was.
pub proof fn get_after_set(t: TableView, k: Seq<char>, v: Seq<Seq<char>>, k2: Seq<char>)
    ensures
        table_get(table_set(t, k, v), k2) == (if k2 == k {
            Some(v)
        } else {
            table_get(t, k2)
        }),
    decreases t.len(),
{
    let s = table_set(t, k, v);
    if t.len() == 0 {
        assert(s[0] == (k, v));
        assert(s.drop_first() =~= Seq::<(Seq<char>, Seq<Seq<char>>)>::empty());
        assert(table_get(s, k2) == (if k2 == k { Some(v) } else { table_get(s.drop_first(), k2) }));
    } else if t[0].0 == k {
        assert(s[0] == (k, v));
        assert(s.drop_first() =~= t.drop_first());
        assert(table_get(s, k2) == (if k2 == k { Some(v) } else { table_get(s.drop_first(), k2) }));
        assert(k2 != k ==> table_get(t, k2) == table_get(t.drop_first(), k2));
    } else {
        get_after_set(t.drop_first(), k, v, k2);
        assert(s[0] == t[0]);
        assert(s.drop_first() =~= table_set(t.drop_first(), k, v));
    }
}

/// What a read gives is the list of an entry with that key, and a read gives
/// nothing only where no entry has that key.
pub proof fn get_is_entry(t: TableView, k: Seq<char>)
    ensures
        table_get(t, k) matches Some(l) ==> exists|i: int|
            0 <= i < t.len() && #[trigger] t[i].0 == k && t[i].1 == l,
        table_get(t, k) is None ==> forall|i: int| 0 <= i < t.len() ==> #[trigger] t[i].0 != k,
    decreases t.len(),
{
    if t.len() > 0 {
        if t[0].0 == k {
            assert(t[0].0 == k && t[0].1 == t[0].1);
        } else {
            get_is_entry(t.drop_first(), k);
            if let Some(l) = table_get(t, k) {
                let j = choose|j: int|
                    0 <= j < t.drop_first().len() && #[trigger] t.drop_first()[j].0 == k
                        && t.drop_first()[j].1 == l;
                assert(t[j + 1] == t.drop_first()[j]);
            } else {
                assert forall|i: int| 0 <= i < t.len() implies #[trigger] t[i].0 != k by {
                    if i > 0 {
                        assert(t[i] == t.drop_first()[i - 1]);
                    }
                }
            }
        }
    }
}

/// Setting a key keeps the keys distinct.
pub proof fn set_keeps_keys_distinct(t: TableView, k: Seq<char>, v: Seq<Seq<char>>)
    requires
        keys_distinct(t),
    ensures
        keys_distinct(table_set(t, k, v)),
{
    if exists|i: int| 0 <= i < t.len() && t[i].0 == k {
        let i = choose|i: int| 0 <= i < t.len() && t[i].0 == k;
        lemma_set_at(t, k, v, i);
    } else {
        lemma_set_none(t, k, v);
    }
}

/// A table of text lists, at most one entry per key.
pub struct ReplyTable {
    entries: Vec<(String, Vec<String>)>,
}

impl View for ReplyTable {
    type V = TableView;

    closed spec fn view(&self) -> TableView {
        self.entries@.map_values(|e: (String, Vec<String>)| entry_view(e))
    }
}

impl ReplyTable {
    #[verifier::type_invariant]
    closed spec fn inv(self) -> bool {
        keys_distinct(self@)
    }

    /// An empty table.
    pub fn new() -> (t: ReplyTable)
        ensures
            t@ == Seq::<(Seq<char>, Seq<Seq<char>>)>::empty(),
    {
        let t = ReplyTable { entries: Vec::new() };
        assert(t@ =~= Seq::<(Seq<char>, Seq<Seq<char>>)>::empty());
        t
    }

    /// The number of entries.
    pub fn len(&self) -> (n: usize)
        ensures
            n == self@.len(),
    {
        self.entries.len()
    }

    /// Whether every list of the table holds at least one text.
    pub fn lists_nonempty(&self) -> (b: bool)
        ensures
            b == lists_nonempty(self@),
    {
        let n: usize = self.entries.len();
        let mut i: usize = 0;
        while i < n
            invariant
                n == self@.len(),
                i <= n,
                forall|j: int| 0 <= j < i ==> #[trigger] self@[j].1.len() > 0,
            decreases n - i,
        {
            if self.entries[i].1.len() == 0 {
                assert(self@[i as int].1.len() == 0);
                return false;
            }
            i = i + 1;
        }
        true
    }

    /// The key of entry `i`.
    pub fn key_at(&self, i: usize) -> (k: &String)
        requires
            i < self@.len(),
        ensures
            k@ == self@[i as int].0,
    {
        &self.entries[i].0
    }

    /// The list of entry `i`.
    pub fn values_at(&self, i: usize) -> (v: &Vec<String>)
        requires
            i < self@.len(),
        ensures
            v.deep_view() == self@[i as int].1,
    {
        &self.entries[i].1
    }

    /// The position of the entry of `key`.
    fn index_of(&self, key: &String) -> (r: Option<usize>)
        ensures
            r matches Some(i) ==> {
                &&& i < self@.len()
                &&& self@[i as int].0 == key@
                &&& forall|j: int| 0 <= j < i ==> self@[j].0 != key@
            },
            r is None ==> forall|j: int| 0 <= j < self@.len() ==> self@[j].0 != key@,
    {
        let n: usize = self.entries.len();
        let mut i: usize = 0;
        while i < n
            invariant
                n == self.entries@.len(),
                i <= n,
                forall|j: int| 0 <= j < i ==> self@[j].0 != key@,
            decreases n - i,
        {
            if self.entries[i].0 == *key {
                return Some(i);
            }
            i = i + 1;
        }
        None
    }

    /// The list stored under `key`.
    pub fn get(&self, key: &str) -> (r: Option<&Vec<String>>)
        ensures
            r is None <==> table_get(self@, key@) is None,
            r matches Some(v) ==> table_get(self@, key@) == Some(v.deep_view()),
    {
        let k = String::from_str(key);
        match self.index_of(&k) {
            Some(i) => {
                proof {
                    lemma_get_at(self@, key@, i as int);
                }
                Some(&self.entries[i].1)
            },
            None => {
                proof {
                    lemma_get_none(self@, key@);
                }
                None
            },
        }
    }

    /// Sets the list under `key` to `values`, as `HashMap::insert` does.
    pub fn insert(&mut self, key: String, values: Vec<String>)
        ensures
            final(self)@ == table_set(old(self)@, key@, values.deep_view()),
    {
        proof {
            use_type_invariant(&*self);
        }
        let ghost t = self@;
        let ghost kv = key@;
        let ghost vv = values.deep_view();
        let found = self.index_of(&key);
        let mut entries: Vec<(String, Vec<String>)> = Vec::new();
        std::mem::swap(&mut entries, &mut self.entries);
        assert(entries@.map_values(|e: (String, Vec<String>)| entry_view(e)) == t);
        match found {
            Some(i) => {
                entries.set(i, (key, values));
                proof {
                    lemma_set_at(t, kv, vv, i as int);
                    assert(entries@.map_values(|e: (String, Vec<String>)| entry_view(e))
                        =~= t.update(i as int, (kv, vv)));
                }
            },
            None => {
                entries.push((key, values));
                proof {
                    lemma_set_none(t, kv, vv);
                    assert(entries@.map_values(|e: (String, Vec<String>)| entry_view(e))
                        =~= t.push((kv, vv)));
                }
            },
        }
        proof {
            set_keeps_keys_distinct(t, kv, vv);
        }
        self.entries = entries;
    }

    /// Adds `value` at the end of the list under `key`, starting a list
    /// where `key` has none.
    pub fn append(&mut self, key: String, value: String)
        ensures
            final(self)@ == table_append(old(self)@, key@, value@),
    {
        proof {
            use_type_invariant(&*self);
        }
        let ghost t = self@;
        let ghost kv = key@;
        let found = self.index_of(&key);
        match found {
            Some(i) => {
                proof {
                    lemma_get_at(t, kv, i as int);
                }
                let mut entries: Vec<(String, Vec<String>)> = Vec::new();
                std::mem::swap(&mut entries, &mut self.entries);
                assert(entries@.map_values(|e: (String, Vec<String>)| entry_view(e)) == t);
                let mut e: (String, Vec<String>) = (String::new(), Vec::new());
                entries.set_and_swap(i, &mut e);
                let ghost old_list = e.1.deep_view();
                assert(old_list == t[i as int].1);
                let ghost vv = old_list.push(value@);
                e.1.push(value);
                assert(e.1.deep_view() =~= vv);
                entries.set_and_swap(i, &mut e);
                proof {
                    lemma_set_at(t, kv, vv, i as int);
                    assert(entries@.map_values(|e: (String, Vec<String>)| entry_view(e))
                        =~= t.update(i as int, (kv, vv)));
                    set_keeps_keys_distinct(t, kv, vv);
                }
                self.entries = entries;
            },
            None => {
                proof {
                    lemma_get_none(t, kv);
                }
                let mut list: Vec<String> = Vec::new();
                list.push(value);
                assert(list.deep_view() =~= Seq::<Seq<char>>::empty().push(value@));
                self.insert(key, list);
            },
        }
    }
}

} // verus!
