//! A string-keyed mapping of variable names to values.
//!
//! The substitution engine and the variable-file loader both look
//! variables up by name. The mapping is kept as a vector of key/value
//! pairs with distinct keys; its view is the finite `Map` the pairs
//! denote, later insertions overriding earlier ones.

use vstd::prelude::*;

use crate::strutil::chars_eq_str;

verus! {

/// The map denoted by a sequence of key/value pairs, later pairs winning.
pub open spec fn map_of(entries: Seq<(String, String)>) -> Map<Seq<char>, Seq<char>>
    decreases entries.len(),
{
    if entries.len() == 0 {
        Map::empty()
    } else {
        map_of(entries.drop_last()).insert(entries.last().0@, entries.last().1@)
    }
}

/// No two pairs share a key.
pub open spec fn distinct_keys(entries: Seq<(String, String)>) -> bool {
    forall|i: int, j: int|
        0 <= i < j < entries.len() ==> (#[trigger] entries[i]).0@ != (#[trigger] entries[j]).0@
}

/// A key is in the map exactly when some pair holds it.
pub proof fn lemma_map_of_dom(entries: Seq<(String, String)>, k: Seq<char>)
    ensures
        map_of(entries).contains_key(k) <==> (exists|i: int|
            0 <= i < entries.len() && (#[trigger] entries[i]).0@ == k),
    decreases entries.len(),
{
    if entries.len() > 0 {
        lemma_map_of_dom(entries.drop_last(), k);
        if entries.last().0@ == k {
            assert(entries[entries.len() - 1].0@ == k);
        } else if map_of(entries).contains_key(k) {
            let i = choose|i: int|
                0 <= i < entries.drop_last().len() && (#[trigger] entries.drop_last()[i]).0@ == k;
            assert(entries[i].0@ == k);
        } else {
            assert forall|i: int|
                0 <= i < entries.len() && (#[trigger] entries[i]).0@ == k implies false by {
                assert(i < entries.len() - 1);
                assert(entries.drop_last()[i].0@ == k);
            }
        }
    }
}

/// With distinct keys, each pair is mapped to its own value.
pub proof fn lemma_map_of_index(entries: Seq<(String, String)>, i: int)
    requires
        distinct_keys(entries),
        0 <= i < entries.len(),
    ensures
        map_of(entries).contains_key(entries[i].0@),
        map_of(entries)[entries[i].0@] == entries[i].1@,
    decreases entries.len(),
{
    if i == entries.len() - 1 {
    } else {
        assert(distinct_keys(entries.drop_last())) by {
            assert forall|a: int, b: int|
                0 <= a < b < entries.drop_last().len() implies (#[trigger] entries.drop_last()[a]).0@
                != (#[trigger] entries.drop_last()[b]).0@ by {
                assert(entries[a].0@ != entries[b].0@);
            }
        }
        assert(entries.drop_last()[i] == entries[i]);
        lemma_map_of_index(entries.drop_last(), i);
        assert(entries[i].0@ != entries.last().0@);
    }
}

/// With distinct keys, the map has exactly one entry per pair.
pub proof fn lemma_map_of_dom_len(entries: Seq<(String, String)>)
    requires
        distinct_keys(entries),
    ensures
        map_of(entries).dom().finite(),
        map_of(entries).dom().len() == entries.len(),
    decreases entries.len(),
{
    if entries.len() > 0 {
        let prefix = entries.drop_last();
        assert(distinct_keys(prefix)) by {
            assert forall|a: int, b: int| 0 <= a < b < prefix.len() implies (
            #[trigger] prefix[a]).0@ != (#[trigger] prefix[b]).0@ by {
                assert(entries[a].0@ != entries[b].0@);
            }
        }
        lemma_map_of_dom_len(prefix);
        lemma_map_of_dom(prefix, entries.last().0@);
        assert forall|i: int|
            0 <= i < prefix.len() implies (#[trigger] prefix[i]).0@ != entries.last().0@ by {
            assert(entries[i].0@ != entries[entries.len() - 1].0@);
        }
        assert(!map_of(prefix).contains_key(entries.last().0@));
        assert(map_of(entries).dom() =~= map_of(prefix).dom().insert(entries.last().0@));
    }
}

/// A mapping from variable names to values, later insertions overriding
/// earlier ones.
#[derive(Debug)]
pub struct VarMap {
    entries: Vec<(String, String)>,
}

impl View for VarMap {
    type V = Map<Seq<char>, Seq<char>>;

    closed spec fn view(&self) -> Map<Seq<char>, Seq<char>> {
        map_of(self.entries@)
    }
}

impl VarMap {
    #[verifier::type_invariant]
    closed spec fn wf(self) -> bool {
        distinct_keys(self.entries@)
    }

    /// An empty mapping.
    pub fn new() -> (r: VarMap)
        ensures
            r@ == Map::<Seq<char>, Seq<char>>::empty(),
    {
        VarMap { entries: Vec::new() }
    }

    /// How many variables are defined.
    pub fn len(&self) -> (n: usize)
        ensures
            n == self@.dom().len(),
    {
        proof {
            use_type_invariant(self);
            lemma_map_of_dom_len(self.entries@);
        }
        self.entries.len()
    }

    /// Whether no variable is defined.
    pub fn is_empty(&self) -> (r: bool)
        ensures
            r == (self@.dom().len() == 0),
    {
        self.len() == 0
    }

    /// Define `key` as `value`, replacing any earlier definition.
    pub fn insert(&mut self, key: String, value: String)
        ensures
            final(self)@ == old(self)@.insert(key@, value@),
    {
        proof {
            use_type_invariant(&*self);
        }
        let mut entries: Vec<(String, String)> = Vec::new();
        core::mem::swap(&mut entries, &mut self.entries);
        let ghost e0 = entries@;
        let n = entries.len();
        let mut i: usize = 0;
        while i < n
            invariant
                n == entries@.len(),
                i <= n,
                entries@ == e0,
                distinct_keys(e0),
                old(self)@ == map_of(e0),
                forall|j: int| 0 <= j < i ==> (#[trigger] e0[j]).0@ != key@,
            decreases n - i,
        {
            if entries[i].0.eq(&key) {
                let ghost removed = e0.remove(i as int);
                entries.remove(i);
                proof {
                    lemma_map_of_remove(e0, i as int);
                    assert(distinct_keys(removed)) by {
                        assert forall|a: int, b: int|
                            0 <= a < b < removed.len() implies (#[trigger] removed[a]).0@ != (
                        #[trigger] removed[b]).0@ by {
                            if b < i {
                                assert(removed[a] == e0[a] && removed[b] == e0[b]);
                            } else if a < i {
                                assert(removed[a] == e0[a] && removed[b] == e0[b + 1]);
                            } else {
                                assert(removed[a] == e0[a + 1] && removed[b] == e0[b + 1]);
                            }
                        }
                    }
                }
                entries.push((key, value));
                proof {
                    assert(entries@.drop_last() =~= removed);
                    assert(map_of(entries@) =~= map_of(e0).insert(
                        entries@.last().0@,
                        entries@.last().1@,
                    ));
                    assert(distinct_keys(entries@)) by {
                        assert forall|a: int, b: int|
                            0 <= a < b < entries@.len() implies (
                        #[trigger] entries@[a]).0@ != (#[trigger] entries@[b]).0@ by {
                            if b == entries@.len() - 1 {
                                assert(entries@[a] == removed[a]);
                                if a < i {
                                    assert(removed[a] == e0[a]);
                                } else {
                                    assert(removed[a] == e0[a + 1]);
                                }
                            } else {
                                assert(entries@[a] == removed[a] && entries@[b]
                                    == removed[b]);
                            }
                        }
                    }
                }
                core::mem::swap(&mut entries, &mut self.entries);
                return ;
            }
            i = i + 1;
        }
        entries.push((key, value));
        proof {
            assert(entries@.drop_last() =~= e0);
            assert(map_of(entries@) =~= map_of(e0).insert(
                entries@.last().0@,
                entries@.last().1@,
            ));
            assert(distinct_keys(entries@)) by {
                assert forall|a: int, b: int|
                    0 <= a < b < entries@.len() implies (#[trigger] entries@[a]).0@ != (
                #[trigger] entries@[b]).0@ by {
                    if b == entries@.len() - 1 {
                        assert(entries@[a] == e0[a]);
                    } else {
                        assert(entries@[a] == e0[a] && entries@[b] == e0[b]);
                    }
                }
            }
        }
        core::mem::swap(&mut entries, &mut self.entries);
    }

    /// The value of the variable spelled by the characters of `name`.
    pub fn get_chars(&self, name: &Vec<char>) -> (r: Option<&String>)
        ensures
            match r {
                Some(v) => self@.contains_key(name@) && self@[name@] == v@,
                None => !self@.contains_key(name@),
            },
    {
        proof {
            use_type_invariant(self);
        }
        let n = self.entries.len();
        let mut i: usize = 0;
        while i < n
            invariant
                n == self.entries@.len(),
                i <= n,
                distinct_keys(self.entries@),
                self@ == map_of(self.entries@),
                forall|j: int| 0 <= j < i ==> (#[trigger] self.entries@[j]).0@ != name@,
            decreases n - i,
        {
            if chars_eq_str(name, self.entries[i].0.as_str()) {
                proof {
                    lemma_map_of_index(self.entries@, i as int);
                }
                return Some(&self.entries[i].1);
            }
            i = i + 1;
        }
        proof {
            lemma_map_of_dom(self.entries@, name@);
        }
        None
    }

    /// The value of the variable `name`.
    pub fn get(&self, name: &str) -> (r: Option<&String>)
        ensures
            match r {
                Some(v) => self@.contains_key(name@) && self@[name@] == v@,
                None => !self@.contains_key(name@),
            },
    {
        let chars = crate::strutil::to_chars(name);
        self.get_chars(&chars)
    }

    /// Take over every definition of `other`, overriding earlier ones.
    pub fn extend_from(&mut self, other: &VarMap)
        ensures
            final(self)@ == old(self)@.union_prefer_right(other@),
    {
        proof {
            use_type_invariant(other);
        }
        let n = other.entries.len();
        let mut i: usize = 0;
        proof {
            assert(other.entries@.take(0) =~= Seq::<(String, String)>::empty());
            assert(self@ =~= old(self)@.union_prefer_right(map_of(other.entries@.take(0))));
        }
        while i < n
            invariant
                n == other.entries@.len(),
                i <= n,
                other@ == map_of(other.entries@),
                self@ == old(self)@.union_prefer_right(map_of(other.entries@.take(i as int))),
            decreases n - i,
        {
            let key = other.entries[i].0.clone();
            let value = other.entries[i].1.clone();
            self.insert(key, value);
            i = i + 1;
            proof {
                let t = other.entries@.take(i as int);
                assert(t.drop_last() =~= other.entries@.take(i as int - 1));
                assert(map_of(t) == map_of(t.drop_last()).insert(t.last().0@, t.last().1@));
                assert(self@ =~= old(self)@.union_prefer_right(map_of(t)));
            }
        }
        proof {
            assert(other.entries@.take(n as int) =~= other.entries@);
        }
    }
}

/// Removing the one pair that holds a key removes that key from the map.
proof fn lemma_map_of_remove(entries: Seq<(String, String)>, i: int)
    requires
        distinct_keys(entries),
        0 <= i < entries.len(),
    ensures
        map_of(entries.remove(i)) == map_of(entries).remove(entries[i].0@),
    decreases entries.len(),
{
    let k = entries[i].0@;
    if i == entries.len() - 1 {
        assert(entries.remove(i) =~= entries.drop_last());
        lemma_map_of_dom(entries.drop_last(), k);
        assert forall|j: int|
            0 <= j < entries.drop_last().len() implies (#[trigger] entries.drop_last()[j]).0@
            != k by {
            assert(entries[j].0@ != entries[entries.len() - 1].0@);
        }
        assert(!map_of(entries.drop_last()).contains_key(k));
        assert(map_of(entries).remove(k) =~= map_of(entries.drop_last()));
    } else {
        let prefix = entries.drop_last();
        assert(distinct_keys(prefix)) by {
            assert forall|a: int, b: int| 0 <= a < b < prefix.len() implies (
            #[trigger] prefix[a]).0@ != (#[trigger] prefix[b]).0@ by {
                assert(entries[a].0@ != entries[b].0@);
            }
        }
        assert(prefix[i] == entries[i]);
        lemma_map_of_remove(prefix, i);
        assert(entries.remove(i).drop_last() =~= prefix.remove(i));
        assert(entries.remove(i).last() == entries.last());
        assert(map_of(entries.remove(i)) == map_of(prefix.remove(i)).insert(
            entries.last().0@,
            entries.last().1@,
        ));
        assert(entries.last().0@ != k) by {
            assert(entries[i].0@ != entries[entries.len() - 1].0@);
        }
        assert(map_of(entries).remove(k) =~= map_of(prefix).remove(k).insert(
            entries.last().0@,
            entries.last().1@,
        ));
    }
}

} // verus!
