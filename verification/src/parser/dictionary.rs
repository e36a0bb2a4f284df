use vstd::prelude::*;

verus! {

/// The map that a sequence of `(key, value)` entries describes, a later entry
/// overriding an earlier one with the same key.
pub open spec fn map_of_entries(es: Seq<(Seq<char>, Seq<char>)>) -> Map<Seq<char>, Seq<char>>
    decreases es.len(),
{
    if es.len() == 0 {
        Map::empty()
    } else {
        map_of_entries(es.drop_last()).insert(es.last().0, es.last().1)
    }
}

/// No key occurs twice.
pub open spec fn distinct_keys(es: Seq<(Seq<char>, Seq<char>)>) -> bool {
    forall|i: int, j: int| 0 <= i < j < es.len() ==> #[trigger] es[i].0 != #[trigger] es[j].0
}

/// `es` with `(k, v)` written into it: the entry that holds `k` takes the
/// value `v` in its place, and where no entry holds `k`, `(k, v)` is
/// appended. Keys thus stay in the order in which they were first written,
/// each with the value written last.
pub open spec fn insert_entry(es: Seq<(Seq<char>, Seq<char>)>, k: Seq<char>, v: Seq<char>) -> Seq<
    (Seq<char>, Seq<char>),
> {
    if exists|i: int| 0 <= i < es.len() && (#[trigger] es[i]).0 == k {
        let i = choose|i: int| 0 <= i < es.len() && (#[trigger] es[i]).0 == k;
        es.update(i, (k, v))
    } else {
        es.push((k, v))
    }
}

/// In entries with distinct keys, a key is in the map exactly when an entry
/// holds it, and maps to that entry's value.
pub proof fn lemma_map_of_distinct_entries(es: Seq<(Seq<char>, Seq<char>)>)
    requires
        distinct_keys(es),
    ensures
        forall|k: Seq<char>|
            #[trigger] map_of_entries(es).contains_key(k) <==> exists|i: int|
                0 <= i < es.len() && (#[trigger] es[i]).0 == k,
        forall|i: int| 0 <= i < es.len() ==> #[trigger] map_of_entries(es)[es[i].0] == es[i].1,
    decreases es.len(),
{
    if es.len() > 0 {
        let init = es.drop_last();
        assert(distinct_keys(init));
        lemma_map_of_distinct_entries(init);
        assert forall|k: Seq<char>|
            #[trigger] map_of_entries(es).contains_key(k) <==> exists|i: int|
                0 <= i < es.len() && (#[trigger] es[i]).0 == k by {
            if map_of_entries(es).contains_key(k) {
                if k == es.last().0 {
                    assert(es[es.len() - 1].0 == k);
                } else {
                    assert(map_of_entries(init).contains_key(k));
                    let i = choose|i: int| 0 <= i < init.len() && (#[trigger] init[i]).0 == k;
                    assert(es[i] == init[i]);
                }
            }
            if exists|i: int| 0 <= i < es.len() && (#[trigger] es[i]).0 == k {
                let i = choose|i: int| 0 <= i < es.len() && (#[trigger] es[i]).0 == k;
                if i < es.len() - 1 {
                    assert(init[i] == es[i]);
                    assert(map_of_entries(init).contains_key(k));
                }
            }
        }
        assert forall|i: int| 0 <= i < es.len() implies #[trigger] map_of_entries(es)[es[i].0]
            == es[i].1 by {
            let last = es[es.len() - 1];
            assert(map_of_entries(es) == map_of_entries(init).insert(last.0, last.1));
            if i < es.len() - 1 {
                assert(init[i] == es[i]);
                assert(es[i].0 != last.0);
                assert(map_of_entries(init)[init[i].0] == init[i].1);
            }
        }
    }
}

/// Reading back what was written: after `insert(key, value)`, `get(key)`
/// gives `value`, and every other key keeps the value it had, or its
/// absence.
pub proof fn lemma_get_after_insert(
    before: Map<Seq<char>, Seq<char>>,
    key: Seq<char>,
    value: Seq<char>,
    other: Seq<char>,
)
    ensures
        before.insert(key, value).contains_key(key),
        before.insert(key, value)[key] == value,
        other != key ==> before.insert(key, value).contains_key(other) == before.contains_key(other),
        other != key && before.contains_key(other) ==> before.insert(key, value)[other] == before[other],
{
}

/// The key/value pairs of a `SPLIT` or `INIT` statement: each key at most
/// once, with the value written last for it.
#[derive(Debug)]
pub struct Dictionary {
    entries: Vec<(String, String)>,
}

pub open spec fn entry_view(e: (String, String)) -> (Seq<char>, Seq<char>) {
    (e.0@, e.1@)
}

impl View for Dictionary {
    type V = Map<Seq<char>, Seq<char>>;

    open spec fn view(&self) -> Map<Seq<char>, Seq<char>> {
        map_of_entries(self.entries_view())
    }
}

impl Dictionary {
    /// The entries, in the order in which their keys were first inserted.
    pub closed spec fn entries_view(&self) -> Seq<(Seq<char>, Seq<char>)> {
        self.entries@.map_values(|e: (String, String)| entry_view(e))
    }

    pub closed spec fn wf(&self) -> bool {
        distinct_keys(self.entries_view())
    }

    /// An empty dictionary.
    pub fn new() -> (res: Self)
        ensures
            res.wf(),
            res@ == Map::<Seq<char>, Seq<char>>::empty(),
            res.entries_view() == Seq::<(Seq<char>, Seq<char>)>::empty(),
    {
        let res = Dictionary { entries: Vec::new() };
        assert(res.entries_view() =~= Seq::<(Seq<char>, Seq<char>)>::empty());
        res
    }

    /// Sets the value of `key`, replacing the value it had.
    pub fn insert(&mut self, key: String, value: String)
        requires
            old(self).wf(),
        ensures
            final(self).wf(),
            final(self)@ == old(self)@.insert(key@, value@),
            final(self).entries_view() == insert_entry(old(self).entries_view(), key@, value@),
    {
        let ghost es = self.entries_view();
        proof {
            lemma_map_of_distinct_entries(es);
        }
        let mut i: usize = 0;
        while i < self.entries.len()
            invariant
                i <= self.entries@.len(),
                es == self.entries_view(),
                es == old(self).entries_view(),
                distinct_keys(es),
                forall|j: int| 0 <= j < i ==> (#[trigger] es[j]).0 != key@,
            decreases self.entries@.len() - i,
        {
            if self.entries[i].0 == key {
                proof {
                    lemma_map_of_distinct_entries(es);
                }
                assert(es[i as int] == entry_view(self.entries@[i as int]));
                assert(es[i as int].0 == key@);
                self.entries.set(i, (key, value));
                proof {
                    let es2 = self.entries_view();
                    assert(es2 =~= es.update(i as int, (key@, value@)));
                    assert(distinct_keys(es2)) by {
                        assert forall|a: int, b: int| 0 <= a < b < es2.len() implies #[trigger] es2[a].0
                            != #[trigger] es2[b].0 by {
                            assert(es2[a].0 == es[a].0);
                            assert(es2[b].0 == es[b].0);
                        }
                    }
                    lemma_map_of_distinct_entries(es2);
                    let m1 = map_of_entries(es2);
                    let m2 = map_of_entries(es).insert(key@, value@);
                    assert forall|k: Seq<char>| m1.contains_key(k) <==> m2.contains_key(k) by {
                        if m2.contains_key(k) && k != key@ {
                            assert(map_of_entries(es).contains_key(k));
                            let j = choose|j: int| 0 <= j < es.len() && (#[trigger] es[j]).0 == k;
                            assert(es2[j].0 == k);
                        }
                        if m2.contains_key(k) && k == key@ {
                            assert(es2[i as int].0 == k);
                        }
                        if m1.contains_key(k) {
                            let j = choose|j: int| 0 <= j < es2.len() && (#[trigger] es2[j]).0 == k;
                            if j != i {
                                assert(es[j].0 == k);
                            }
                        }
                    }
                    assert forall|k: Seq<char>| m1.contains_key(k) implies m1[k] == m2[k] by {
                        let j = choose|j: int| 0 <= j < es2.len() && (#[trigger] es2[j]).0 == k;
                        assert(m1[es2[j].0] == es2[j].1);
                        if j != i {
                            assert(m2[es[j].0] == es[j].1);
                        }
                    }
                    assert(m1 =~= m2);
                    assert(es[i as int].0 == key@);
                    let j = choose|j: int| 0 <= j < es.len() && (#[trigger] es[j]).0 == key@;
                    assert(j == i as int);
                    assert(es2 == insert_entry(es, key@, value@));
                }
                return;
            }
            i += 1;
        }
        self.entries.push((key, value));
        proof {
            lemma_map_of_distinct_entries(es);
            if map_of_entries(es).contains_key(key@) {
                let j = choose|j: int| 0 <= j < es.len() && (#[trigger] es[j]).0 == key@;
                assert(es[j].0 != key@);
            }
            let es2 = self.entries_view();
            assert(es2 =~= es.push((key@, value@)));
            assert(!exists|j: int| 0 <= j < es.len() && (#[trigger] es[j]).0 == key@);
            assert(es2 == insert_entry(es, key@, value@));
            assert(es2.drop_last() =~= es);
            assert(distinct_keys(es2)) by {
                assert forall|a: int, b: int| 0 <= a < b < es2.len() implies #[trigger] es2[a].0
                    != #[trigger] es2[b].0 by {
                    if b == es.len() {
                        assert(es2[a] == es[a]);
                    } else {
                        assert(es2[a] == es[a]);
                        assert(es2[b] == es[b]);
                    }
                }
            }
        }
    }

    /// The value of `key`, if it has one.
    pub fn get(&self, key: &str) -> (res: Option<&String>)
        requires
            self.wf(),
        ensures
            match res {
                Some(v) => self@.contains_key(key@) && self@[key@] == v@,
                None => !self@.contains_key(key@),
            },
    {
        let ghost es = self.entries_view();
        proof {
            lemma_map_of_distinct_entries(es);
        }
        let wanted = String::from_str(key);
        let mut i: usize = 0;
        while i < self.entries.len()
            invariant
                i <= self.entries@.len(),
                es == self.entries_view(),
                distinct_keys(es),
                wanted@ == key@,
                forall|j: int| 0 <= j < i ==> (#[trigger] es[j]).0 != key@,
            decreases self.entries@.len() - i,
        {
            if self.entries[i].0 == wanted {
                proof {
                    lemma_map_of_distinct_entries(es);
                }
                assert(es[i as int] == entry_view(self.entries@[i as int]));
                assert(es[i as int].0 == key@);
                assert(self@[es[i as int].0] == es[i as int].1);
                return Some(&self.entries[i].1);
            }
            i += 1;
        }
        None
    }

    /// The entries, in the order in which their keys were first inserted.
    pub fn entries(&self) -> (res: &Vec<(String, String)>)
        ensures
            res@.map_values(|e: (String, String)| entry_view(e)) == self.entries_view(),
    {
        &self.entries
    }
}

} // verus!
