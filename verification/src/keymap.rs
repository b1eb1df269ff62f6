//! A small map keyed by clip identifier, viewed as a `Map<Seq<char>, V>`.
//!
//! Both shared tables of the core are instances of it: the registry's
//! believed play/stop flags and the coordinator's table of active
//! rendering tokens.

use vstd::prelude::*;

use crate::stringops::str_eq;

verus! {

/// Association list with unique keys, the backing store for both maps.
pub struct KeyMap<V> {
    entries: Vec<(String, V)>,
}

/// The value the first entry of `s` with key `id` holds, if any.
pub open spec fn entry_for<V>(s: Seq<(String, V)>, id: Seq<char>) -> Option<V>
    decreases s.len(),
{
    if s.len() == 0 {
        None
    } else if s[0].0@ == id {
        Some(s[0].1)
    } else {
        entry_for(s.drop_first(), id)
    }
}

impl<V: Copy> KeyMap<V> {
    /// The map this table denotes.
    pub closed spec fn view(&self) -> Map<Seq<char>, V> {
        Map::new(
            |id: Seq<char>| entry_for(self.entries@, id) is Some,
            |id: Seq<char>| entry_for(self.entries@, id)->Some_0,
        )
    }

    /// No two entries share a key, so the first match is the only match.
    pub closed spec fn wf(&self) -> bool {
        forall|i: int, j: int|
            0 <= i < j < self.entries@.len() ==> (#[trigger] self.entries@[i].0@) != (
            #[trigger] self.entries@[j].0@)
    }

    pub fn new() -> (m: KeyMap<V>)
        ensures
            m.wf(),
            m@ == Map::<Seq<char>, V>::empty(),
    {
        let m = KeyMap { entries: Vec::new() };
        proof {
            assert(m@ =~= Map::<Seq<char>, V>::empty());
        }
        m
    }

    pub fn get(&self, id: &str) -> (r: Option<V>)
        requires
            self.wf(),
        ensures
            r == if self@.contains_key(id@) {
                Some(self@[id@])
            } else {
                None::<V>
            },
    {
        let n = self.entries.len();
        let ghost s = self.entries@;
        for i in 0..n
            invariant
                n == s.len(),
                s == self.entries@,
                forall|j: int| 0 <= j < i ==> (#[trigger] s[j].0@) != id@,
        {
            if str_eq(self.entries[i].0.as_str(), id) {
                proof {
                    lemma_entry_at_index(s, id@, i as int);
                }
                return Some(self.entries[i].1);
            }
        }
        proof {
            lemma_entry_absent(s, id@);
        }
        None
    }

    /// Insert or replace: afterwards `id` maps to `v` and nothing else moved.
    pub fn set(&mut self, id: &str, v: V)
        requires
            old(self).wf(),
        ensures
            final(self).wf(),
            final(self)@ == old(self)@.insert(id@, v),
    {
        let n = self.entries.len();
        let ghost s = self.entries@;
        for i in 0..n
            invariant
                n == s.len(),
                s == self.entries@,
                s == old(self).entries@,
                self.wf(),
                forall|j: int| 0 <= j < i ==> (#[trigger] s[j].0@) != id@,
        {
            if str_eq(self.entries[i].0.as_str(), id) {
                let ghost svec = self.entries@;
                self.entries[i].1 = v;
                proof {
                    assert(self.entries@ =~= svec.update(i as int, (svec[i as int].0, v)));
                    lemma_set_update(svec, id@, v, i as int);
                    assert(self@ =~= old(self)@.insert(id@, v));
                }
                return ;
            }
        }
        let owned: String = id.to_owned();
        let ghost w = owned;
        self.entries.push((owned, v));
        proof {
            lemma_set_push(s, w, v);
            assert(self@ =~= old(self)@.insert(id@, v));
        }
    }

    /// Remove the entry for `id`, a no-op when there is none.
    pub fn remove(&mut self, id: &str) -> (r: Option<V>)
        requires
            old(self).wf(),
        ensures
            final(self).wf(),
            final(self)@ == old(self)@.remove(id@),
            r == if old(self)@.contains_key(id@) {
                Some(old(self)@[id@])
            } else {
                None::<V>
            },
    {
        let n = self.entries.len();
        let ghost s = self.entries@;
        for i in 0..n
            invariant
                n == s.len(),
                s == self.entries@,
                s == old(self).entries@,
                self.wf(),
                forall|j: int| 0 <= j < i ==> (#[trigger] s[j].0@) != id@,
        {
            if str_eq(self.entries[i].0.as_str(), id) {
                let ghost svec = self.entries@;
                let entry = self.entries.remove(i);
                proof {
                    lemma_entry_at_index(svec, id@, i as int);
                    lemma_remove_at(svec, id@, i as int);
                    assert(self@ =~= old(self)@.remove(id@));
                }
                return Some(entry.1);
            }
        }
        proof {
            lemma_entry_absent(s, id@);
            assert(self@ =~= old(self)@.remove(id@));
        }
        None
    }

    /// Empty the table and hand back every value it held.
    pub fn drain_values(&mut self) -> (vals: Vec<V>)
        requires
            old(self).wf(),
        ensures
            final(self).wf(),
            final(self)@ == Map::<Seq<char>, V>::empty(),
            forall|id: Seq<char>|
                old(self)@.contains_key(id) ==> vals@.contains(#[trigger] old(self)@[id]),
            forall|k: int| 0 <= k < vals@.len() ==> old(self)@.contains_value(#[trigger] vals@[k]),
    {
        let mut vals: Vec<V> = Vec::new();
        let n = self.entries.len();
        let ghost s = self.entries@;
        for i in 0..n
            invariant
                n == s.len(),
                s == self.entries@,
                s == old(self).entries@,
                self.wf(),
                vals@.len() == i,
                forall|j: int| 0 <= j < i ==> vals@[j] == (#[trigger] s[j]).1,
        {
            vals.push(self.entries[i].1);
        }
        self.entries = Vec::new();
        proof {
            assert(self@ =~= Map::<Seq<char>, V>::empty());
            assert forall|id: Seq<char>| old(self)@.contains_key(id) implies vals@.contains(
                old(self)@[id],
            ) by {
                lemma_entry_some_index(s, id);
                let i = choose|i: int|
                    0 <= i < s.len() && s[i].0@ == id && #[trigger] s[i].1 == entry_for(
                        s,
                        id,
                    )->Some_0;
                assert(vals@[i] == old(self)@[id]);
            }
            assert forall|k: int| 0 <= k < vals@.len() implies old(self)@.contains_value(
                vals@[k],
            ) by {
                lemma_entry_at_index(s, s[k].0@, k);
                assert(entry_for(s, s[k].0@) == Some(s[k].1));
                assert(old(self)@.dom().contains(s[k].0@));
                assert(old(self)@[s[k].0@] == vals@[k]);
            }
        }
        vals
    }
}

/// If `id` first occurs at index `i`, the denoted map sends `id` to that value.
proof fn lemma_entry_at_index<V>(s: Seq<(String, V)>, id: Seq<char>, i: int)
    requires
        0 <= i < s.len(),
        s[i].0@ == id,
        forall|j: int| 0 <= j < i ==> (#[trigger] s[j].0@) != id,
    ensures
        entry_for(s, id) == Some(s[i].1),
    decreases i,
{
    if i == 0 {
    } else {
        lemma_entry_at_index(s.drop_first(), id, i - 1);
    }
}

/// A key no entry carries is absent from the denoted map.
proof fn lemma_entry_absent<V>(s: Seq<(String, V)>, id: Seq<char>)
    requires
        forall|j: int| 0 <= j < s.len() ==> (#[trigger] s[j].0@) != id,
    ensures
        entry_for(s, id) is None,
    decreases s.len(),
{
    if s.len() > 0 {
        lemma_entry_absent(s.drop_first(), id);
    }
}

/// A present key has a witnessing index.
proof fn lemma_entry_some_index<V>(s: Seq<(String, V)>, id: Seq<char>)
    requires
        entry_for(s, id) is Some,
    ensures
        exists|i: int|
            0 <= i < s.len() && s[i].0@ == id && #[trigger] s[i].1 == entry_for(s, id)->Some_0,
    decreases s.len(),
{
    if s.len() == 0 {
    } else if s[0].0@ == id {
        assert(s[0].1 == entry_for(s, id)->Some_0);
    } else {
        lemma_entry_some_index(s.drop_first(), id);
        let i = choose|i: int|
            0 <= i < s.drop_first().len() && s.drop_first()[i].0@ == id
                && #[trigger] s.drop_first()[i].1 == entry_for(s.drop_first(), id)->Some_0;
        assert(s[i + 1].1 == entry_for(s, id)->Some_0);
    }
}

/// Replacing the value at the matching index rewrites exactly that key.
proof fn lemma_set_update<V>(s: Seq<(String, V)>, id: Seq<char>, v: V, i: int)
    requires
        0 <= i < s.len(),
        s[i].0@ == id,
        forall|j: int| 0 <= j < i ==> (#[trigger] s[j].0@) != id,
    ensures
        forall|q: Seq<char>|
            #[trigger] entry_for(s.update(i, (s[i].0, v)), q) == if q == id {
                Some(v)
            } else {
                entry_for(s, q)
            },
    decreases i,
{
    let t = s.update(i, (s[i].0, v));
    if i == 0 {
        assert forall|q: Seq<char>| #[trigger] entry_for(t, q) == (if q == id {
            Some(v)
        } else {
            entry_for(s, q)
        }) by {
            assert(t.drop_first() =~= s.drop_first());
        }
    } else {
        lemma_set_update(s.drop_first(), id, v, i - 1);
        assert forall|q: Seq<char>| #[trigger] entry_for(t, q) == (if q == id {
            Some(v)
        } else {
            entry_for(s, q)
        }) by {
            assert(t.drop_first() =~= s.drop_first().update(i - 1, (s[i].0, v)));
            assert(entry_for(s.drop_first().update(i - 1, (s.drop_first()[i - 1].0, v)), q) == (if q
                == id {
                Some(v)
            } else {
                entry_for(s.drop_first(), q)
            }));
        }
    }
}

/// Appending a fresh key adds exactly that binding.
proof fn lemma_set_push<V>(s: Seq<(String, V)>, w: String, v: V)
    requires
        forall|j: int| 0 <= j < s.len() ==> (#[trigger] s[j].0@) != w@,
    ensures
        forall|q: Seq<char>|
            #[trigger] entry_for(s.push((w, v)), q) == if q == w@ {
                Some(v)
            } else {
                entry_for(s, q)
            },
    decreases s.len(),
{
    if s.len() == 0 {
        assert forall|q: Seq<char>| #[trigger] entry_for(s.push((w, v)), q) == (if q == w@ {
            Some(v)
        } else {
            entry_for(s, q)
        }) by {
            assert(s.push((w, v)).drop_first() =~= s);
        }
    } else {
        lemma_set_push(s.drop_first(), w, v);
        assert forall|q: Seq<char>| #[trigger] entry_for(s.push((w, v)), q) == (if q == w@ {
            Some(v)
        } else {
            entry_for(s, q)
        }) by {
            assert(s.push((w, v)).drop_first() =~= s.drop_first().push((w, v)));
            assert(entry_for(s.drop_first().push((w, v)), q) == if q == w@ {
                Some(v)
            } else {
                entry_for(s.drop_first(), q)
            });
        }
    }
}

/// Removing the only entry with a key deletes exactly that key.
proof fn lemma_remove_at<V>(s: Seq<(String, V)>, id: Seq<char>, i: int)
    requires
        0 <= i < s.len(),
        s[i].0@ == id,
        forall|j: int| 0 <= j < i ==> (#[trigger] s[j].0@) != id,
        forall|a: int, b: int| 0 <= a < b < s.len() ==> (#[trigger] s[a].0@) != (#[trigger] s[b].0@),
    ensures
        forall|q: Seq<char>|
            #[trigger] entry_for(s.remove(i), q) == if q == id {
                None::<V>
            } else {
                entry_for(s, q)
            },
    decreases i,
{
    let t = s.remove(i);
    if i == 0 {
        assert forall|q: Seq<char>| #[trigger] entry_for(t, q) == (if q == id {
            None::<V>
        } else {
            entry_for(s, q)
        }) by {
            assert(t =~= s.drop_first());
            if q == id {
                lemma_entry_absent_tail(s, id);
            }
        }
    } else {
        assert(forall|a: int, b: int|
            0 <= a < b < s.drop_first().len() ==> (#[trigger] s.drop_first()[a].0@) != (
            #[trigger] s.drop_first()[b].0@));
        lemma_remove_at(s.drop_first(), id, i - 1);
        assert forall|q: Seq<char>| #[trigger] entry_for(t, q) == (if q == id {
            None::<V>
        } else {
            entry_for(s, q)
        }) by {
            assert(t.drop_first() =~= s.drop_first().remove(i - 1));
            assert(entry_for(s.drop_first().remove(i - 1), q) == if q == id {
                None::<V>
            } else {
                entry_for(s.drop_first(), q)
            });
        }
    }
}

/// With unique keys, a key matched at the head does not recur in the tail.
proof fn lemma_entry_absent_tail<V>(s: Seq<(String, V)>, id: Seq<char>)
    requires
        s.len() > 0,
        s[0].0@ == id,
        forall|i: int, j: int|
            0 <= i < j < s.len() ==> (#[trigger] s[i].0@) != (#[trigger] s[j].0@),
    ensures
        entry_for(s.drop_first(), id) is None,
{
    assert(forall|j: int| 0 <= j < s.drop_first().len() ==> (#[trigger] s.drop_first()[j].0@) != id);
    lemma_entry_absent(s.drop_first(), id);
}

} // verus!
