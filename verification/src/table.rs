//! A table that keeps one value under each name.

use crate::text::{copy_of, same_text};
use vstd::prelude::*;

verus! {

/// A value under each of some names.
pub struct Table<V> {
    entries: Vec<(String, V)>,
}

/// What a run of entries holds, under their names.
spec fn entry_map<V>(es: Seq<(String, V)>) -> Map<Seq<char>, V>
    decreases es.len(),
{
    if es.len() == 0 {
        Map::empty()
    } else {
        entry_map(es.drop_last()).insert(es.last().0@, es.last().1)
    }
}

/// No name is there twice.
spec fn distinct_names<V>(es: Seq<(String, V)>) -> bool {
    forall|i: int, j: int|
        0 <= i < j < es.len() ==> (#[trigger] es[i]).0@ != (#[trigger] es[j]).0@
}

/// A name is in the map exactly where some entry has it, and with the value of
/// that entry.
proof fn lemma_entry_map<V>(es: Seq<(String, V)>)
    requires
        distinct_names(es),
    ensures
        forall|i: int|
            #![trigger es[i]]
            0 <= i < es.len() ==> entry_map(es).contains_key(es[i].0@) && entry_map(
                es,
            )[es[i].0@] == es[i].1,
        forall|p: Seq<char>| #[trigger]
            entry_map(es).contains_key(p) ==> exists|i: int|
                #![trigger es[i]]
                0 <= i < es.len() && es[i].0@ == p,
    decreases es.len(),
{
    if es.len() > 0 {
        let front = es.drop_last();
        assert(distinct_names(front));
        lemma_entry_map(front);
        assert forall|i: int|
            #![trigger es[i]]
            0 <= i < es.len() implies entry_map(es).contains_key(es[i].0@) && entry_map(
            es,
        )[es[i].0@] == es[i].1 by {
            if i < front.len() {
                assert(front[i] == es[i]);
                assert(es[i].0@ != es[es.len() - 1].0@);
            }
        }
        assert forall|p: Seq<char>| #[trigger] entry_map(es).contains_key(p) implies exists|i: int|
            #![trigger es[i]]
            0 <= i < es.len() && es[i].0@ == p by {
            if p != es.last().0@ {
                assert(entry_map(front).contains_key(p));
                let i = choose|i: int|
                    #![trigger front[i]]
                    0 <= i < front.len() && front[i].0@ == p;
                assert(es[i].0@ == p);
            } else {
                assert(es[es.len() - 1].0@ == p);
            }
        }
    }
}

/// Writing over one entry writes over its name in the map.
proof fn lemma_entry_update<V>(es: Seq<(String, V)>, i: int, e: (String, V))
    requires
        distinct_names(es),
        0 <= i < es.len(),
        e.0@ == es[i].0@,
    ensures
        distinct_names(es.update(i, e)),
        entry_map(es.update(i, e)) == entry_map(es).insert(e.0@, e.1),
    decreases es.len(),
{
    let front = es.drop_last();
    assert(distinct_names(front));
    if i == es.len() - 1 {
        assert(es.update(i, e).drop_last() =~= front);
    } else {
        lemma_entry_update(front, i, e);
        assert(es.update(i, e).drop_last() =~= front.update(i, e));
        assert(es[i].0@ != es[es.len() - 1].0@);
    }
    assert(entry_map(es.update(i, e)) =~= entry_map(es).insert(e.0@, e.1));
}

/// Taking one entry out takes its name out of the map.
proof fn lemma_entry_remove<V>(es: Seq<(String, V)>, i: int)
    requires
        distinct_names(es),
        0 <= i < es.len(),
    ensures
        distinct_names(es.remove(i)),
        entry_map(es.remove(i)) == entry_map(es).remove(es[i].0@),
    decreases es.len(),
{
    let front = es.drop_last();
    assert(distinct_names(front));
    lemma_entry_map(front);
    if i == es.len() - 1 {
        assert(es.remove(i) =~= front);
        assert(!entry_map(front).contains_key(es[i].0@)) by {
            if entry_map(front).contains_key(es[i].0@) {
                let k = choose|k: int|
                    #![trigger front[k]]
                    0 <= k < front.len() && front[k].0@ == es[i].0@;
                assert(es[k].0@ != es[i].0@);
            }
        }
    } else {
        lemma_entry_remove(front, i);
        assert(es.remove(i).drop_last() =~= front.remove(i));
        assert(es[i].0@ != es[es.len() - 1].0@);
    }
    assert(entry_map(es.remove(i)) =~= entry_map(es).remove(es[i].0@));
}

impl<V> View for Table<V> {
    type V = Map<Seq<char>, V>;

    closed spec fn view(&self) -> Map<Seq<char>, V> {
        entry_map(self.entries@)
    }
}

impl<V> Table<V> {
    /// No name is there twice.
    pub closed spec fn wf(&self) -> bool {
        distinct_names(self.entries@)
    }

    /// A table that holds nothing.
    pub fn new() -> (out: Self)
        ensures
            out.wf(),
            out@ == Map::<Seq<char>, V>::empty(),
    {
        Table { entries: Vec::new() }
    }

    /// The place of the entry under `name`, or the number of entries.
    fn place_of(&self, name: &str) -> (out: usize)
        requires
            self.wf(),
        ensures
            out <= self.entries@.len(),
            out < self.entries@.len() <==> self@.contains_key(name@),
            out < self.entries@.len() ==> self.entries@[out as int].0@ == name@ && self@[name@]
                == self.entries@[out as int].1,
    {
        let mut i: usize = 0;
        while i < self.entries.len()
            invariant
                i <= self.entries.len(),
                self.wf(),
                forall|j: int| 0 <= j < i ==> (#[trigger] self.entries@[j]).0@ != name@,
            decreases self.entries.len() - i,
        {
            if same_text(self.entries[i].0.as_str(), name) {
                proof {
                    lemma_entry_map(self.entries@);
                }
                return i;
            }
            i += 1;
        }
        proof {
            lemma_entry_map(self.entries@);
        }
        i
    }

    /// The value under `name`.
    pub fn get(&self, name: &str) -> (out: Option<&V>)
        requires
            self.wf(),
        ensures
            match out {
                Some(v) => self@.contains_key(name@) && *v == self@[name@],
                None => !self@.contains_key(name@),
            },
    {
        let i: usize = self.place_of(name);
        if i < self.entries.len() {
            Some(&self.entries[i].1)
        } else {
            None
        }
    }

    /// Keeps `value` under `name`, in place of what was there.
    pub fn put(&mut self, name: &str, value: V)
        requires
            old(self).wf(),
        ensures
            final(self).wf(),
            final(self)@ == old(self)@.insert(name@, value),
    {
        let i: usize = self.place_of(name);
        let entry: (String, V) = (copy_of(name), value);
        let ghost was = self.entries@;
        if i < self.entries.len() {
            proof {
                lemma_entry_update(was, i as int, entry);
            }
            self.entries[i] = entry;
        } else {
            proof {
                lemma_entry_map(was);
                assert(was.push(entry).drop_last() =~= was);
            }
            self.entries.push(entry);
        }
    }

    /// Takes out what is under `name`.
    pub fn take(&mut self, name: &str) -> (out: Option<V>)
        requires
            old(self).wf(),
        ensures
            final(self).wf(),
            final(self)@ == old(self)@.remove(name@),
            match out {
                Some(v) => old(self)@.contains_key(name@) && v == old(self)@[name@],
                None => !old(self)@.contains_key(name@),
            },
    {
        let i: usize = self.place_of(name);
        if i < self.entries.len() {
            proof {
                lemma_entry_remove(self.entries@, i as int);
            }
            let entry: (String, V) = self.entries.remove(i);
            Some(entry.1)
        } else {
            assert(self@ =~= old(self)@.remove(name@));
            None
        }
    }

    /// Takes out everything.
    pub fn clear(&mut self)
        ensures
            final(self).wf(),
            final(self)@ == Map::<Seq<char>, V>::empty(),
    {
        self.entries.clear();
    }
}

} // verus!
