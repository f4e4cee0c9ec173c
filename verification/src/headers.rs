//! The header mapping: keys to values, last write wins on a repeated key.
//! It is kept as an ordered list of entries with pairwise-distinct keys, and
//! its contracts speak of the mapping the entries make up.

use vstd::prelude::*;

use crate::text::str_eq;

verus! {

/// The first index of an entry with key `k`, or `-1`.
pub open spec fn spec_entry_index(es: Seq<(Seq<char>, Seq<char>)>, k: Seq<char>) -> int
    decreases es.len(),
{
    if es.len() == 0 {
        -1
    } else if es[0].0 == k {
        0
    } else {
        let r = spec_entry_index(es.subrange(1, es.len() as int), k);
        if r == -1 {
            -1
        } else {
            r + 1
        }
    }
}

/// The mapping the entries make up: every entry written in order, so a later
/// entry with the same key wins.
pub open spec fn spec_entries_map(es: Seq<(Seq<char>, Seq<char>)>) -> Map<Seq<char>, Seq<char>>
    decreases es.len(),
{
    if es.len() == 0 {
        Map::empty()
    } else {
        spec_entries_map(es.drop_last()).insert(es.last().0, es.last().1)
    }
}

/// No two entries share a key.
pub open spec fn spec_keys_distinct(es: Seq<(Seq<char>, Seq<char>)>) -> bool {
    forall|i: int, j: int| 0 <= i < j < es.len() ==> (#[trigger] es[i]).0 != (#[trigger] es[j]).0
}

/// A key is in the mapping exactly when some entry holds it.
pub proof fn lemma_entries_map_dom(es: Seq<(Seq<char>, Seq<char>)>, k: Seq<char>)
    ensures
        spec_entries_map(es).contains_key(k) <==> exists|i: int|
            0 <= i < es.len() && (#[trigger] es[i]).0 == k,
    decreases es.len(),
{
    if es.len() > 0 {
        lemma_entries_map_dom(es.drop_last(), k);
        if es.last().0 == k {
            assert(es[es.len() - 1].0 == k);
        } else {
            if exists|i: int| 0 <= i < es.drop_last().len() && (#[trigger] es.drop_last()[i]).0
                == k {
                let i = choose|i: int|
                    0 <= i < es.drop_last().len() && (#[trigger] es.drop_last()[i]).0 == k;
                assert(es[i].0 == k);
            }
            if exists|i: int| 0 <= i < es.len() && (#[trigger] es[i]).0 == k {
                let i = choose|i: int| 0 <= i < es.len() && (#[trigger] es[i]).0 == k;
                assert(es.drop_last()[i].0 == k);
            }
        }
    }
}

/// With distinct keys, the entry holding a key gives that key's value in the
/// mapping.
pub proof fn lemma_entries_map_at(es: Seq<(Seq<char>, Seq<char>)>, i: int)
    requires
        spec_keys_distinct(es),
        0 <= i < es.len(),
    ensures
        spec_entries_map(es).contains_key(es[i].0),
        spec_entries_map(es)[es[i].0] == es[i].1,
    decreases es.len(),
{
    if i == es.len() - 1 {
    } else {
        assert(spec_keys_distinct(es.drop_last()));
        assert(es.drop_last()[i] == es[i]);
        lemma_entries_map_at(es.drop_last(), i);
        assert(es[es.len() - 1].0 != es[i].0);
    }
}

/// A mapping of keys to values.  A later `insert` of a key already present
/// replaces that key's value in place.
#[derive(Debug)]
pub struct Headers {
    entries: Vec<(String, String)>,
}

impl View for Headers {
    type V = Seq<(Seq<char>, Seq<char>)>;

    /// The entries in order, as character sequences.
    closed spec fn view(&self) -> Seq<(Seq<char>, Seq<char>)> {
        Seq::new(self.entries@.len(), |i: int| (self.entries@[i].0@, self.entries@[i].1@))
    }
}

impl Headers {
    /// The mapping the headers make up.
    pub open spec fn spec_map(&self) -> Map<Seq<char>, Seq<char>> {
        spec_entries_map(self@)
    }

    /// The entries never share a key.
    pub open spec fn wf(&self) -> bool {
        spec_keys_distinct(self@)
    }

    /// An empty mapping.
    pub fn new() -> (r: Headers)
        ensures
            r@ == Seq::<(Seq<char>, Seq<char>)>::empty(),
            r.wf(),
    {
        let r = Headers { entries: Vec::new() };
        proof {
            assert(r@ =~= Seq::<(Seq<char>, Seq<char>)>::empty());
        }
        r
    }

    /// How many keys are present.
    pub fn len(&self) -> (r: usize)
        ensures
            r == self@.len(),
    {
        self.entries.len()
    }

    /// The entry at `i`, for walking the headers in order.
    pub fn entry_at(&self, i: usize) -> (r: (&String, &String))
        requires
            i < self@.len(),
        ensures
            r.0@ == self@[i as int].0,
            r.1@ == self@[i as int].1,
    {
        let e = &self.entries[i];
        (&e.0, &e.1)
    }

    /// The first index of an entry with key `k`, walking forward.
    fn index_of(&self, key: &str) -> (r: Option<usize>)
        ensures
            match r {
                Some(i) => i < self@.len() && self@[i as int].0 == key@ && spec_entry_index(
                    self@,
                    key@,
                ) == i as int,
                None => spec_entry_index(self@, key@) == -1,
            },
{
        let n = self.entries.len();
        proof {
            assert(self@.subrange(0, n as int) =~= self@);
        }
        let mut i: usize = 0;
        while i < n
            invariant
                i <= n,
                n == self@.len(),
                spec_entry_index(self@, key@) == if spec_entry_index(
                    self@.subrange(i as int, n as int),
                    key@,
                ) == -1 {
                    -1int
                } else {
                    spec_entry_index(self@.subrange(i as int, n as int), key@) + i
                },
            decreases n - i,
        {
            if str_eq(self.entries[i].0.as_str(), key) {
                proof {
                    assert(self@.subrange(i as int, n as int)[0] == self@[i as int]);
                }
                return Some(i);
            }
            proof {
                let tail = self@.subrange(i as int, n as int);
                let tail2 = self@.subrange(i + 1 as int, n as int);
                assert(tail[0] == self@[i as int]);
                assert(tail.subrange(1, tail.len() as int) =~= tail2);
                lemma_entry_index_bounds(tail2, key@);
                assert(spec_entry_index(tail, key@) == if spec_entry_index(tail2, key@) == -1 {
                    -1int
                } else {
                    spec_entry_index(tail2, key@) + 1
                });
            }
            i = i + 1;
        }
        proof {
            assert(self@.subrange(n as int, n as int) =~= Seq::<(Seq<char>, Seq<char>)>::empty());
        }
        None
    }

    /// The value stored under `key`, if any.
    pub fn get(&self, key: &str) -> (r: Option<&String>)
        requires
            self.wf(),
        ensures
            match r {
                Some(v) => self.spec_map().contains_key(key@) && v@ == self.spec_map()[key@],
                None => !self.spec_map().contains_key(key@),
            },
    {
        proof {
            lemma_entries_map_dom(self@, key@);
        }
        match self.index_of(key) {
            Some(i) => {
                proof {
                    lemma_entries_map_at(self@, i as int);
                }
                Some(&self.entries[i].1)
            },
            None => {
                proof {
                    if exists|j: int| 0 <= j < self@.len() && (#[trigger] self@[j]).0 == key@ {
                        let j = choose|j: int|
                            0 <= j < self@.len() && (#[trigger] self@[j]).0 == key@;
                        lemma_entry_index_finds(self@, key@, j);
                    }
                }
                None
            },
        }
    }

    /// Whether `key` is present.
    pub fn contains_key(&self, key: &str) -> (r: bool)
        requires
            self.wf(),
        ensures
            r == self.spec_map().contains_key(key@),
    {
        self.get(key).is_some()
    }

    /// Stores `value` under `key`: the mapping afterwards is the mapping
    /// before with that one key bound to that one value.
    pub fn insert(&mut self, key: String, value: String)
        requires
            old(self).wf(),
        ensures
            final(self).wf(),
            final(self).spec_map() == old(self).spec_map().insert(key@, value@),
            final(self)@.len() <= old(self)@.len() + 1,
    {
        let ghost old_es = self@;
        match self.index_of(key.as_str()) {
            Some(i) => {
                self.entries.remove(i);
                self.entries.insert(i, (key, value));
                proof {
                    assert(self@ =~= old_es.update(i as int, (key@, value@)));
                    assert(final(self).wf()) by {
                        assert forall|a: int, b: int| 0 <= a < b < self@.len() implies (
                        #[trigger] self@[a]).0 != (#[trigger] self@[b]).0 by {
                            lemma_entry_index_first(old_es, key@, i as int);
                        }
                    }
                    lemma_entries_map_update(old_es, i as int, key@, value@);
                }
            },
            None => {
                self.entries.push((key, value));
                proof {
                    assert(self@ =~= old_es.push((key@, value@)));
                    assert(self@.drop_last() =~= old_es);
                    assert forall|a: int, b: int| 0 <= a < b < self@.len() implies (
                    #[trigger] self@[a]).0 != (#[trigger] self@[b]).0 by {
                        if b == self@.len() - 1 && self@[a].0 == key@ {
                            lemma_entry_index_finds(old_es, key@, a);
                        }
                    }
                }
            },
        }
    }
}

/// `spec_entry_index` stays within the entries, or is `-1`.
proof fn lemma_entry_index_bounds(es: Seq<(Seq<char>, Seq<char>)>, k: Seq<char>)
    ensures
        -1 <= spec_entry_index(es, k) < es.len(),
    decreases es.len(),
{
    if es.len() > 0 && es[0].0 != k {
        lemma_entry_index_bounds(es.subrange(1, es.len() as int), k);
    }
}

/// If some entry holds key `k`, `spec_entry_index` does not return `-1`.
proof fn lemma_entry_index_finds(es: Seq<(Seq<char>, Seq<char>)>, k: Seq<char>, j: int)
    requires
        0 <= j < es.len(),
        es[j].0 == k,
    ensures
        spec_entry_index(es, k) != -1,
    decreases es.len(),
{
    if es[0].0 == k {
    } else {
        let tail = es.subrange(1, es.len() as int);
        assert(tail[j - 1] == es[j]);
        lemma_entry_index_finds(tail, k, j - 1);
        lemma_entry_index_bounds(tail, k);
    }
}

/// `spec_entry_index` returns the first index holding `k`.
proof fn lemma_entry_index_first(es: Seq<(Seq<char>, Seq<char>)>, k: Seq<char>, i: int)
    requires
        spec_entry_index(es, k) == i,
        0 <= i < es.len(),
    ensures
        es[i].0 == k,
        forall|j: int| 0 <= j < i ==> (#[trigger] es[j]).0 != k,
    decreases es.len(),
{
    if es.len() > 0 && es[0].0 != k {
        let tail = es.subrange(1, es.len() as int);
        lemma_entry_index_first(tail, k, i - 1);
        assert forall|j: int| 0 <= j < i implies (#[trigger] es[j]).0 != k by {
            if j > 0 {
                assert(tail[j - 1] == es[j]);
            }
        }
        assert(tail[i - 1] == es[i]);
    }
}

/// Replacing the entry that holds a key is, on the mapping, one insert of
/// that key.
proof fn lemma_entries_map_update(
    es: Seq<(Seq<char>, Seq<char>)>,
    i: int,
    k: Seq<char>,
    v: Seq<char>,
)
    requires
        0 <= i < es.len(),
        es[i].0 == k,
        spec_keys_distinct(es),
    ensures
        spec_entries_map(es.update(i, (k, v))) == spec_entries_map(es).insert(k, v),
    decreases es.len(),
{
    let es2 = es.update(i, (k, v));
    if i == es.len() - 1 {
        assert(es2.drop_last() =~= es.drop_last());
        assert(spec_entries_map(es2) == spec_entries_map(es.drop_last()).insert(k, v));
        assert(spec_entries_map(es.drop_last()).insert(es.last().0, es.last().1).insert(k, v)
            =~= spec_entries_map(es.drop_last()).insert(k, v));
    } else {
        assert(es2.drop_last() =~= es.drop_last().update(i, (k, v)));
        assert(spec_keys_distinct(es.drop_last()));
        assert(es.drop_last()[i] == es[i]);
        lemma_entries_map_update(es.drop_last(), i, k, v);
        assert(es2.last() == es.last());
        assert(es.last().0 != k);
        assert(spec_entries_map(es.drop_last()).insert(k, v).insert(es.last().0, es.last().1)
            =~= spec_entries_map(es.drop_last()).insert(es.last().0, es.last().1).insert(k, v));
    }
}

} // verus!
