use vstd::prelude::*;

verus! {

/// The index of the entry named `k`, if there is one.
pub open spec fn index_of_name(entries: Seq<(Seq<char>, Seq<char>)>, k: Seq<char>) -> Option<int> {
    if exists|i: int| 0 <= i < entries.len() && entries[i].0 == k {
        Some(choose|i: int| 0 <= i < entries.len() && entries[i].0 == k)
    } else {
        None
    }
}

/// The value of the entry named `k`, if there is one.
pub open spec fn lookup(entries: Seq<(Seq<char>, Seq<char>)>, k: Seq<char>) -> Option<Seq<char>> {
    match index_of_name(entries, k) {
        Some(i) => Some(entries[i].1),
        None => None,
    }
}

/// The entries after setting `k` to `v`: an entry named `k` keeps its place and
/// takes the value; otherwise a new entry comes last.
pub open spec fn inserted(entries: Seq<(Seq<char>, Seq<char>)>, k: Seq<char>, v: Seq<char>) -> Seq<(Seq<char>, Seq<char>)> {
    match index_of_name(entries, k) {
        Some(i) => entries.update(i, (k, v)),
        None => entries.push((k, v)),
    }
}

/// Whether no two entries have the same name.
pub open spec fn names_distinct(entries: Seq<(Seq<char>, Seq<char>)>) -> bool {
    forall|i: int, j: int|
        0 <= i < entries.len() && 0 <= j < entries.len() && i != j ==> entries[i].0 != entries[j].0
}

/// A map from strings to strings that keeps its entries in the order in which
/// their names were first inserted; no name occurs twice.
#[derive(Debug)]
pub struct StringMap {
    entries: Vec<(String, String)>,
}

impl View for StringMap {
    type V = Seq<(Seq<char>, Seq<char>)>;

    closed spec fn view(&self) -> Seq<(Seq<char>, Seq<char>)> {
        self.entries@.map_values(|e: (String, String)| (e.0@, e.1@))
    }
}

impl StringMap {
    #[verifier::type_invariant]
    spec fn inv(self) -> bool {
        names_distinct(self@)
    }

    /// An empty map.
    pub fn new() -> (m: Self)
        ensures
            m@ == Seq::<(Seq<char>, Seq<char>)>::empty(),
    {
        let m = StringMap { entries: Vec::new() };
        assert(m@ =~= Seq::<(Seq<char>, Seq<char>)>::empty());
        m
    }

    /// The number of entries.
    pub fn len(&self) -> (n: usize)
        ensures
            n == self@.len(),
    {
        self.entries.len()
    }

    /// The name and value of the entry at position `i`.
    pub fn entry(&self, i: usize) -> (e: (&String, &String))
        requires
            i < self@.len(),
        ensures
            (e.0@, e.1@) == self@[i as int],
    {
        let e = &self.entries[i];
        (&e.0, &e.1)
    }

    /// The value of the entry named `k`.
    pub fn get(&self, k: &str) -> (v: Option<&String>)
        ensures
            match v {
                Some(v) => lookup(self@, k@) == Some(v@),
                None => lookup(self@, k@) is None,
            },
    {
        proof {
            use_type_invariant(self);
        }
        let key = k.to_owned();
        let mut i: usize = 0;
        while i < self.entries.len()
            invariant
                i <= self.entries.len(),
                key@ == k@,
                names_distinct(self@),
                forall|j: int| 0 <= j < i ==> self@[j].0 != k@,
            decreases self.entries.len() - i,
        {
            assert(self@[i as int] == (self.entries@[i as int].0@, self.entries@[i as int].1@));
            if self.entries[i].0 == key {
                let ghost c = choose|c: int| 0 <= c < self@.len() && self@[c].0 == k@;
                assert(0 <= i < self@.len() && self@[i as int].0 == k@);
                assert(c == i);
                return Some(&self.entries[i].1);
            }
            i = i + 1;
        }
        None
    }

    /// Sets the value of `k`: an entry of that name keeps its place and takes the
    /// new value; otherwise a new entry comes last.
    pub fn insert(&mut self, k: String, v: String)
        ensures
            final(self)@ == inserted(old(self)@, k@, v@),
    {
        proof {
            use_type_invariant(&*self);
        }
        let ghost before = self@;
        let mut i: usize = 0;
        let mut found = false;
        while i < self.entries.len()
            invariant_except_break
                !found,
            invariant
                i <= self.entries.len(),
                before == self@,
                names_distinct(before),
                forall|j: int| 0 <= j < i ==> before[j].0 != k@,
            ensures
                found ==> i < before.len() && before[i as int].0 == k@,
                !found ==> forall|j: int| 0 <= j < before.len() ==> before[j].0 != k@,
            decreases self.entries.len() - i,
        {
            assert(before[i as int] == (self.entries@[i as int].0@, self.entries@[i as int].1@));
            if self.entries[i].0 == k {
                found = true;
                break;
            }
            i = i + 1;
        }
        let mut entries: Vec<(String, String)> = Vec::new();
        std::mem::swap(&mut entries, &mut self.entries);
        if found {
            let ghost c = choose|c: int| 0 <= c < before.len() && before[c].0 == k@;
            assert(0 <= i < before.len() && before[i as int].0 == k@);
            assert(c == i);
            entries.set(i, (k, v));
            assert(entries@.map_values(|e: (String, String)| (e.0@, e.1@)) =~= before.update(i as int, (k@, v@)));
            assert(names_distinct(before.update(i as int, (k@, v@))));
        } else {
            entries.push((k, v));
            assert(entries@.map_values(|e: (String, String)| (e.0@, e.1@)) =~= before.push((k@, v@)));
            assert(names_distinct(before.push((k@, v@))));
        }
        self.entries = entries;
    }
}


/// Reading a key after writing it gives the written value, and leaves the other
/// keys as they were, as long as no name occurs twice.
pub proof fn lemma_lookup_after_insert(
    m: Seq<(Seq<char>, Seq<char>)>,
    k: Seq<char>,
    v: Seq<char>,
    other: Seq<char>,
)
    requires
        names_distinct(m),
    ensures
        names_distinct(inserted(m, k, v)),
        lookup(inserted(m, k, v), k) == Some(v),
        other != k ==> lookup(inserted(m, k, v), other) == lookup(m, other),
{
    let m2 = inserted(m, k, v);
    let w: int = match index_of_name(m, k) {
        Some(i) => i,
        None => m.len() as int,
    };
    match index_of_name(m, k) {
        Some(i) => {
            assert(0 <= i < m.len() && m[i].0 == k);
            assert(m2 == m.update(i, (k, v)));
        },
        None => {
            assert(m2 == m.push((k, v)));
        },
    }
    assert(0 <= w < m2.len() && m2[w] == (k, v));
    assert(names_distinct(m2));
    assert(exists|j: int| 0 <= j < m2.len() && m2[j].0 == k);
    let j = choose|j: int| 0 <= j < m2.len() && m2[j].0 == k;
    assert(j == w);
    assert(m2[j].1 == v);
    if other != k {
        if exists|a: int| 0 <= a < m.len() && m[a].0 == other {
            let a = choose|a: int| 0 <= a < m.len() && m[a].0 == other;
            assert(m2[a] == m[a]);
            let b = choose|b: int| 0 <= b < m2.len() && m2[b].0 == other;
            assert(b == a);
        } else {
            assert(!(exists|b: int| 0 <= b < m2.len() && m2[b].0 == other)) by {
                if exists|b: int| 0 <= b < m2.len() && m2[b].0 == other {
                    let b = choose|b: int| 0 <= b < m2.len() && m2[b].0 == other;
                    assert(b < m.len());
                    assert(m[b].0 == other);
                }
            }
        }
    }
}

/// The entries after setting each pair in turn.
pub open spec fn inserted_all(
    entries: Seq<(Seq<char>, Seq<char>)>,
    pairs: Seq<(Seq<char>, Seq<char>)>,
) -> Seq<(Seq<char>, Seq<char>)>
    decreases pairs.len(),
{
    if pairs.len() == 0 {
        entries
    } else {
        inserted(inserted_all(entries, pairs.drop_last()), pairs.last().0, pairs.last().1)
    }
}

/// The value of the last pair named `k`, if there is one.
pub open spec fn last_value(pairs: Seq<(Seq<char>, Seq<char>)>, k: Seq<char>) -> Option<Seq<char>>
    decreases pairs.len(),
{
    if pairs.len() == 0 {
        None
    } else if pairs.last().0 == k {
        Some(pairs.last().1)
    } else {
        last_value(pairs.drop_last(), k)
    }
}

/// After setting a sequence of pairs, a name reads as the value of its last pair,
/// or as before when no pair names it; no name occurs twice.
pub proof fn lemma_lookup_after_inserts(
    m: Seq<(Seq<char>, Seq<char>)>,
    pairs: Seq<(Seq<char>, Seq<char>)>,
    k: Seq<char>,
)
    requires
        names_distinct(m),
    ensures
        names_distinct(inserted_all(m, pairs)),
        lookup(inserted_all(m, pairs), k) == match last_value(pairs, k) {
            Some(v) => Some(v),
            None => lookup(m, k),
        },
    decreases pairs.len(),
{
    if pairs.len() > 0 {
        lemma_lookup_after_inserts(m, pairs.drop_last(), k);
        lemma_lookup_after_insert(inserted_all(m, pairs.drop_last()), pairs.last().0, pairs.last().1, k);
    }
}

impl StringMap {
    /// A map that holds the pairs set in turn: where a name repeats, its entry
    /// keeps the place of its first pair and the value of its last.
    pub fn from_pairs(pairs: Vec<(String, String)>) -> (m: Self)
        ensures
            m@ == inserted_all(Seq::empty(), pairs@.map_values(|e: (String, String)| (e.0@, e.1@))),
            forall|k: Seq<char>| #[trigger] lookup(m@, k) == last_value(pairs@.map_values(|e: (String, String)| (e.0@, e.1@)), k),
    {
        let ghost pv = pairs@.map_values(|e: (String, String)| (e.0@, e.1@));
        let mut m = StringMap::new();
        for e in it: pairs
            invariant
                pv == it.seq().map_values(|e: (String, String)| (e.0@, e.1@)),
                m@ == inserted_all(Seq::empty(), pv.take(it.index() as int)),
        {
            let ghost j = it.index() as int;
            assert(pv.take(j + 1).drop_last() =~= pv.take(j));
            assert(pv.take(j + 1).last() == pv[j]);
            assert(e == it.seq()[j]);
            m.insert(e.0, e.1);
        }
        assert(pv.take(pv.len() as int) =~= pv);
        assert forall|k: Seq<char>| #[trigger] lookup(m@, k) == last_value(pv, k) by {
            lemma_lookup_after_inserts(Seq::empty(), pv, k);
        }
        m
    }
}

} // verus!
