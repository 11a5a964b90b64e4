//! The owned header mapping used by adapted requests and by responses:
//! insertion-ordered (name, value) entries with distinct names, viewed
//! as a mathematical map. Inserting an existing name overwrites its
//! value: the later header wins and duplicates are not preserved.
use vstd::prelude::*;

use crate::text::bytes_eq;
use crate::text::copy_range;

verus! {

/// The mapping denoted by an entry sequence: later entries win.
pub open spec fn map_of(es: Seq<(Seq<u8>, Seq<u8>)>) -> Map<Seq<u8>, Seq<u8>>
    decreases es.len(),
{
    if es.len() == 0 {
        Map::empty()
    } else {
        map_of(es.drop_last()).insert(es.last().0, es.last().1)
    }
}

/// No two entries share a name.
pub open spec fn distinct_names(es: Seq<(Seq<u8>, Seq<u8>)>) -> bool {
    forall|a: int, b: int| 0 <= a < b < es.len() ==> es[a].0 != es[b].0
}

pub proof fn lemma_map_of_push(es: Seq<(Seq<u8>, Seq<u8>)>, k: Seq<u8>, v: Seq<u8>)
    ensures
        map_of(es.push((k, v))) == map_of(es).insert(k, v),
{
    assert(es.push((k, v)).drop_last() =~= es);
}

pub proof fn lemma_map_of_absent(es: Seq<(Seq<u8>, Seq<u8>)>, k: Seq<u8>)
    requires
        forall|i: int| 0 <= i < es.len() ==> es[i].0 != k,
    ensures
        !map_of(es).contains_key(k),
    decreases es.len(),
{
    if es.len() > 0 {
        lemma_map_of_absent(es.drop_last(), k);
    }
}

pub proof fn lemma_map_of_index(es: Seq<(Seq<u8>, Seq<u8>)>, i: int)
    requires
        0 <= i < es.len(),
        distinct_names(es),
    ensures
        map_of(es).contains_key(es[i].0),
        map_of(es)[es[i].0] == es[i].1,
    decreases es.len(),
{
    if i < es.len() - 1 {
        assert(distinct_names(es.drop_last()));
        lemma_map_of_index(es.drop_last(), i);
    }
}

pub proof fn lemma_map_of_remove(es: Seq<(Seq<u8>, Seq<u8>)>, i: int)
    requires
        0 <= i < es.len(),
        distinct_names(es),
    ensures
        map_of(es.remove(i)) == map_of(es).remove(es[i].0),
    decreases es.len(),
{
    if i == es.len() - 1 {
        assert(es.remove(i) =~= es.drop_last());
        lemma_map_of_absent(es.drop_last(), es[i].0);
        assert(map_of(es.drop_last()) =~= map_of(es.drop_last()).remove(es[i].0));
        assert(map_of(es).remove(es[i].0) =~= map_of(es.drop_last()));
    } else {
        let k = es[i].0;
        assert(distinct_names(es.drop_last()));
        lemma_map_of_remove(es.drop_last(), i);
        assert(es.remove(i).drop_last() =~= es.drop_last().remove(i));
        assert(es.remove(i).last() == es.last());
        assert(es.last().0 != k);
        assert(map_of(es.drop_last()).remove(k).insert(es.last().0, es.last().1) =~= map_of(
            es.drop_last(),
        ).insert(es.last().0, es.last().1).remove(k));
    }
}

/// Removing the entry of `k` and pushing a fresh entry of `k` keeps the
/// names distinct.
proof fn lemma_distinct_after_replace(es: Seq<(Seq<u8>, Seq<u8>)>, i: int, k: Seq<u8>, v: Seq<u8>)
    requires
        0 <= i < es.len(),
        distinct_names(es),
        es[i].0 == k,
    ensures
        distinct_names(es.remove(i).push((k, v))),
{
    let es1 = es.remove(i);
    let es2 = es1.push((k, v));
    assert forall|a: int, b: int| 0 <= a < b < es2.len() implies es2[a].0 != es2[b].0 by {
        if b == es1.len() {
            if a < i {
                assert(es1[a] == es[a]);
            } else {
                assert(es1[a] == es[a + 1]);
            }
        } else {
            if a < i {
                assert(es1[a] == es[a]);
            } else {
                assert(es1[a] == es[a + 1]);
            }
            if b < i {
                assert(es1[b] == es[b]);
            } else {
                assert(es1[b] == es[b + 1]);
            }
        }
    }
}

/// An insertion-ordered mapping from header name to value, with names
/// held distinct; names are compared byte for byte (callers lower-case
/// them where the mapping must be case-insensitive).
#[derive(Debug)]
pub struct HeaderMap {
    entries: Vec<(Vec<u8>, Vec<u8>)>,
}

impl View for HeaderMap {
    type V = Map<Seq<u8>, Seq<u8>>;

    closed spec fn view(&self) -> Map<Seq<u8>, Seq<u8>> {
        map_of(self.entries_seq())
    }
}

impl HeaderMap {
    /// The entries in insertion order, as abstract byte sequences.
    pub closed spec fn entries_seq(self) -> Seq<(Seq<u8>, Seq<u8>)> {
        Seq::new(self.entries@.len(), |i: int| (self.entries@[i].0@, self.entries@[i].1@))
    }

    /// Well-formed: no two entries share a name.
    pub closed spec fn wf(self) -> bool {
        distinct_names(self.entries_seq())
    }

    pub fn new() -> (r: HeaderMap)
        ensures
            r.wf(),
            r@ == Map::<Seq<u8>, Seq<u8>>::empty(),
            r.entries_seq() == Seq::<(Seq<u8>, Seq<u8>)>::empty(),
    {
        let r = HeaderMap { entries: Vec::new() };
        proof {
            assert(r.entries_seq() =~= Seq::<(Seq<u8>, Seq<u8>)>::empty());
        }
        r
    }

    /// The number of entries, which under well-formedness is the number
    /// of distinct names held.
    pub fn len(&self) -> (r: usize)
        ensures
            r == self.entries_seq().len(),
    {
        self.entries.len()
    }

    /// The entry at position `i` in insertion order, copied out.
    pub fn entry_at(&self, i: usize) -> (r: (Vec<u8>, Vec<u8>))
        requires
            i < self.entries_seq().len(),
        ensures
            r.0@ == self.entries_seq()[i as int].0,
            r.1@ == self.entries_seq()[i as int].1,
    {
        let name = &self.entries[i].0;
        let value = &self.entries[i].1;
        let n = copy_range(name.as_slice(), 0, name.len());
        let v = copy_range(value.as_slice(), 0, value.len());
        proof {
            assert(name@.subrange(0, name@.len() as int) =~= name@);
            assert(value@.subrange(0, value@.len() as int) =~= value@);
        }
        (n, v)
    }

    /// The position of the entry named `name`, if one is held.
    fn find_entry(entries: &Vec<(Vec<u8>, Vec<u8>)>, name: &[u8]) -> (r: Option<usize>)
        ensures
            (match r {
                Some(i) => i < entries@.len() && entries@[i as int].0@ == name@,
                None => forall|j: int| 0 <= j < entries@.len() ==> entries@[j].0@ != name@,
            }),
    {
        let mut idx: usize = 0;
        while idx < entries.len()
            invariant
                idx <= entries@.len(),
                forall|j: int| 0 <= j < idx ==> entries@[j].0@ != name@,
            decreases entries@.len() - idx,
        {
            if bytes_eq(entries[idx].0.as_slice(), name) {
                return Some(idx);
            }
            idx = idx + 1;
        }
        None
    }

    /// Inserts `value` under `name`. A later insert of a name already
    /// present overwrites the earlier value: the mapping keeps the last
    /// write and no duplicate entry remains.
    pub fn insert(&mut self, name: Vec<u8>, value: Vec<u8>)
        requires
            old(self).wf(),
        ensures
            final(self).wf(),
            final(self)@ == old(self)@.insert(name@, value@),
    {
        let ghost es0 = self.entries_seq();
        match Self::find_entry(&self.entries, name.as_slice()) {
            Some(idx) => {
                proof {
                    assert(es0[idx as int].0 == name@);
                    lemma_map_of_remove(es0, idx as int);
                    lemma_distinct_after_replace(es0, idx as int, name@, value@);
                }
                self.entries.remove(idx);
                proof {
                    assert(self.entries_seq() =~= es0.remove(idx as int));
                }
                let ghost es1 = self.entries_seq();
                self.entries.push((name, value));
                proof {
                    assert(self.entries_seq() =~= es1.push((name@, value@)));
                    lemma_map_of_push(es1, name@, value@);
                    assert(map_of(es0).remove(name@).insert(name@, value@) =~= map_of(es0).insert(
                        name@,
                        value@,
                    ));
                }
            },
            None => {
                self.entries.push((name, value));
                proof {
                    assert(self.entries_seq() =~= es0.push((name@, value@)));
                    lemma_map_of_push(es0, name@, value@);
                    assert forall|a: int, b: int|
                        0 <= a < b < self.entries_seq().len() implies self.entries_seq()[a].0
                        != self.entries_seq()[b].0 by {
                        if b == es0.len() {
                            assert(es0[a].0 != name@);
                        }
                    }
                }
            },
        }
    }

    /// Looks `name` up and copies its value out, if present.
    pub fn get(&self, name: &[u8]) -> (r: Option<Vec<u8>>)
        requires
            self.wf(),
        ensures
            (match r {
                Some(v) => self@.contains_key(name@) && v@ == self@[name@],
                None => !self@.contains_key(name@),
            }),
    {
        match Self::find_entry(&self.entries, name) {
            Some(idx) => {
                proof {
                    lemma_map_of_index(self.entries_seq(), idx as int);
                }
                let value = &self.entries[idx].1;
                let v = copy_range(value.as_slice(), 0, value.len());
                proof {
                    assert(value@.subrange(0, value@.len() as int) =~= value@);
                }
                Some(v)
            },
            None => {
                proof {
                    lemma_map_of_absent(self.entries_seq(), name@);
                }
                None
            },
        }
    }
}

} // verus!
