use vstd::prelude::*;

verus! {

/// A value of the store's attribute union, tagged by wire type.
#[derive(Debug, PartialEq)]
pub enum AttrValue {
    /// A string.
    S(String),
    /// A numeral, carried as text.
    N(String),
    /// An ordered list of values.
    L(Vec<AttrValue>),
    /// A nested map from attribute names to values.
    M(Item),
}

/// A map from attribute names to tagged values: one record of the store.
///
/// The entries hold each name at most once; the order of the entries is the
/// order in which the names were first inserted.
#[derive(Debug, PartialEq)]
pub struct Item {
    entries: Vec<(String, AttrValue)>,
}

/// The map that a sequence of entries denotes, a later entry taking precedence.
pub open spec fn entries_map(s: Seq<(String, AttrValue)>) -> Map<Seq<char>, AttrValue>
    decreases s.len(),
{
    if s.len() == 0 {
        Map::empty()
    } else {
        entries_map(s.drop_last()).insert(s.last().0@, s.last().1)
    }
}

/// No attribute name occurs twice.
pub open spec fn keys_unique(s: Seq<(String, AttrValue)>) -> bool {
    forall|i: int, j: int| 0 <= i < j < s.len() ==> s[i].0@ != s[j].0@
}

/// `v` is the string `s`, tagged as a string.
pub open spec fn is_s(v: AttrValue, s: Seq<char>) -> bool {
    v matches AttrValue::S(x) && x@ == s
}

/// `v` is the numeral `s`, tagged as a number.
pub open spec fn is_n(v: AttrValue, s: Seq<char>) -> bool {
    v matches AttrValue::N(x) && x@ == s
}

proof fn lemma_entries_map_dom(s: Seq<(String, AttrValue)>, k: Seq<char>)
    ensures
        entries_map(s).contains_key(k) <==> exists|i: int| 0 <= i < s.len() && s[i].0@ == k,
    decreases s.len(),
{
    if s.len() > 0 {
        lemma_entries_map_dom(s.drop_last(), k);
        if entries_map(s).contains_key(k) && s.last().0@ != k {
            let i = choose|i: int| 0 <= i < s.len() - 1 && s.drop_last()[i].0@ == k;
            assert(s[i].0@ == k);
        }
        if exists|i: int| 0 <= i < s.len() && s[i].0@ == k {
            let i = choose|i: int| 0 <= i < s.len() && s[i].0@ == k;
            if i < s.len() - 1 {
                assert(s.drop_last()[i].0@ == k);
            }
        }
    }
}

proof fn lemma_entries_map_value(s: Seq<(String, AttrValue)>, i: int)
    requires
        keys_unique(s),
        0 <= i < s.len(),
    ensures
        entries_map(s).contains_key(s[i].0@),
        entries_map(s)[s[i].0@] == s[i].1,
    decreases s.len(),
{
    if i < s.len() - 1 {
        let t = s.drop_last();
        assert(t[i] == s[i]);
        lemma_entries_map_value(t, i);
    }
}

impl Item {
    /// The map that this item holds.
    pub closed spec fn view(&self) -> Map<Seq<char>, AttrValue> {
        entries_map(self.entries@)
    }

    /// The entries hold each name at most once.
    pub closed spec fn wf(&self) -> bool {
        keys_unique(self.entries@)
    }

    /// The entries in the order of first insertion.
    pub closed spec fn spec_entries(&self) -> Seq<(String, AttrValue)> {
        self.entries@
    }

    /// An item with no attributes.
    pub fn new() -> (r: Item)
        ensures
            r.wf(),
            r@ == Map::<Seq<char>, AttrValue>::empty(),
    {
        Item { entries: Vec::new() }
    }

    /// Sets attribute `k` to `v`, replacing the value that `k` had.
    pub fn insert(&mut self, k: String, v: AttrValue)
        requires
            old(self).wf(),
        ensures
            final(self).wf(),
            final(self)@ == old(self)@.insert(k@, v),
    {
        let n = self.entries.len();
        let mut i: usize = 0;
        while i < n
            invariant
                n == self.entries@.len(),
                i <= n,
                forall|j: int| 0 <= j < i ==> self.entries@[j].0@ != k@,
                keys_unique(self.entries@),
                self.entries@ == old(self).entries@,
            decreases n - i,
        {
            if self.entries[i].0 == k {
                let ghost s0 = self.entries@;
                self.entries.set(i, (k, v));
                proof {
                    let s1 = self.entries@;
                    assert(keys_unique(s1)) by {
                        assert forall|a: int, b: int| 0 <= a < b < s1.len() implies s1[a].0@
                            != s1[b].0@ by {
                            if a != i && b != i {
                                assert(s0[a] == s1[a] && s0[b] == s1[b]);
                            } else if a == i {
                                assert(s0[b] == s1[b]);
                            } else {
                                assert(s0[a] == s1[a]);
                            }
                        }
                    }
                    let m0 = entries_map(s0).insert(s1[i as int].0@, v);
                    assert forall|key: Seq<char>| #[trigger] entries_map(s1).contains_key(key)
                        <==> m0.contains_key(key) by {
                        lemma_entries_map_dom(s0, key);
                        lemma_entries_map_dom(s1, key);
                        if m0.contains_key(key) && key != s1[i as int].0@ {
                            let j = choose|j: int| 0 <= j < s0.len() && s0[j].0@ == key;
                            assert(s1[j].0@ == key);
                        }
                        if entries_map(s1).contains_key(key) {
                            let j = choose|j: int| 0 <= j < s1.len() && s1[j].0@ == key;
                            if j != i {
                                assert(s0[j].0@ == key);
                            }
                        }
                    }
                    assert forall|key: Seq<char>| #[trigger] entries_map(s1).contains_key(key)
                        implies entries_map(s1)[key] == m0[key] by {
                        lemma_entries_map_dom(s1, key);
                        let j = choose|j: int| 0 <= j < s1.len() && s1[j].0@ == key;
                        lemma_entries_map_value(s1, j);
                        if j != i {
                            lemma_entries_map_value(s0, j);
                        }
                    }
                    assert(entries_map(s1) =~= m0);
                }
                return;
            }
            i = i + 1;
        }
        let ghost s0 = self.entries@;
        self.entries.push((k, v));
        proof {
            assert(self.entries@.drop_last() =~= s0);
            let s1 = self.entries@;
            assert forall|a: int, b: int| 0 <= a < b < s1.len() implies s1[a].0@ != s1[b].0@ by {
                if b < s1.len() - 1 {
                    assert(s0[a] == s1[a] && s0[b] == s1[b]);
                } else {
                    assert(s0[a] == s1[a]);
                }
            }
        }
    }

    /// The value of attribute `k`, if the item has one.
    pub fn get(&self, k: &String) -> (r: Option<&AttrValue>)
        requires
            self.wf(),
        ensures
            r is Some <==> self@.contains_key(k@),
            r is Some ==> *r->Some_0 == self@[k@],
    {
        let n = self.entries.len();
        let mut i: usize = 0;
        while i < n
            invariant
                n == self.entries@.len(),
                i <= n,
                forall|j: int| 0 <= j < i ==> self.entries@[j].0@ != k@,
                keys_unique(self.entries@),
            decreases n - i,
        {
            if self.entries[i].0 == *k {
                proof {
                    lemma_entries_map_value(self.entries@, i as int);
                }
                return Some(&self.entries[i].1);
            }
            i = i + 1;
        }
        proof {
            lemma_entries_map_dom(self.entries@, k@);
        }
        None
    }

    /// The number of attributes.
    pub fn len(&self) -> (r: usize)
        requires
            self.wf(),
        ensures
            r == self@.len(),
    {
        proof {
            self.lemma_len();
        }
        self.entries.len()
    }

    proof fn lemma_len(&self)
        requires
            self.wf(),
        ensures
            self@.len() == self.entries@.len(),
    {
        lemma_unique_entries_len(self.entries@);
    }

    /// The entries, each name once, in the order of first insertion.
    pub fn entries(&self) -> (r: &Vec<(String, AttrValue)>)
        ensures
            r@ == self.spec_entries(),
            entries_map(r@) == self@,
    {
        &self.entries
    }
}

proof fn lemma_unique_entries_len(s: Seq<(String, AttrValue)>)
    requires
        keys_unique(s),
    ensures
        entries_map(s).len() == s.len(),
        entries_map(s).dom().finite(),
    decreases s.len(),
{
    if s.len() > 0 {
        let t = s.drop_last();
        lemma_unique_entries_len(t);
        lemma_entries_map_dom(t, s.last().0@);
        if entries_map(t).contains_key(s.last().0@) {
            let j = choose|j: int| 0 <= j < t.len() && t[j].0@ == s.last().0@;
            assert(s[j].0@ == s[s.len() - 1].0@);
        }
    }
}

} // verus!
