//! A table from names to nodes, kept as a list of entries in which the
//! first entry of a name is the one that counts.

use vstd::prelude::*;
use crate::ast::{ASTNode, Node};

verus! {

/// One entry of a table: a name and the node bound to it.
#[derive(Debug)]
pub struct Entry {
    pub name: String,
    pub value: ASTNode,
}

/// A table from names to nodes.
#[derive(Debug)]
pub struct Table {
    pub entries: Vec<Entry>,
}

/// The index of the first entry of `name` at or after `from`, or the number
/// of entries if there is none.
pub open spec fn index_of(entries: Seq<Entry>, name: Seq<char>, from: int) -> int
    decreases entries.len() - from,
{
    if from < 0 || from >= entries.len() {
        entries.len() as int
    } else if entries[from].name@ == name {
        from
    } else {
        index_of(entries, name, from + 1)
    }
}

/// The table that a list of entries stands for.
pub open spec fn map_of(entries: Seq<Entry>) -> Map<Seq<char>, Node> {
    Map::new(
        |name: Seq<char>| index_of(entries, name, 0) < entries.len(),
        |name: Seq<char>| entries[index_of(entries, name, 0)].value@,
    )
}

/// `index_of` finds the first entry of the name: no entry before it has the
/// name, and it has the name unless it is the number of entries.
pub proof fn lemma_index_of(entries: Seq<Entry>, name: Seq<char>, from: int)
    requires
        0 <= from <= entries.len(),
    ensures
        from <= index_of(entries, name, from) <= entries.len(),
        index_of(entries, name, from) < entries.len() ==> entries[index_of(
            entries,
            name,
            from,
        )].name@ == name,
        forall|i: int| from <= i < index_of(entries, name, from) ==> entries[i].name@ != name,
    decreases entries.len() - from,
{
    if from < entries.len() && entries[from].name@ != name {
        lemma_index_of(entries, name, from + 1);
    }
}

/// An index that has the two properties of `lemma_index_of` is the one that
/// `index_of` finds.
pub proof fn lemma_index_is(entries: Seq<Entry>, name: Seq<char>, from: int, at: int)
    requires
        0 <= from <= at <= entries.len(),
        at < entries.len() ==> entries[at].name@ == name,
        forall|i: int| from <= i < at ==> entries[i].name@ != name,
    ensures
        index_of(entries, name, from) == at,
    decreases at - from,
{
    if from < at {
        lemma_index_is(entries, name, from + 1, at);
    }
}

impl Table {
    /// The table as a map from names to the values of the nodes.
    pub open spec fn view(&self) -> Map<Seq<char>, Node> {
        map_of(self.entries@)
    }

    /// The empty table.
    pub fn new() -> (r: Table)
        ensures
            r@ == Map::<Seq<char>, Node>::empty(),
    {
        let r = Table { entries: Vec::new() };
        assert(r@ =~= Map::<Seq<char>, Node>::empty());
        r
    }

    /// The index of the first entry of `name`, or the number of entries.
    fn find(&self, name: &String) -> (r: usize)
        ensures
            r == index_of(self.entries@, name@, 0),
            r <= self.entries.len(),
            r < self.entries.len() <==> self@.contains_key(name@),
            r < self.entries.len() ==> self@[name@] == self.entries@[r as int].value@,
    {
        let mut i: usize = 0;
        while i < self.entries.len() && !(self.entries[i].name == *name)
            invariant
                i <= self.entries.len(),
                index_of(self.entries@, name@, i as int) == index_of(self.entries@, name@, 0),
            decreases self.entries.len() - i,
        {
            i += 1;
        }
        i
    }

    /// Whether `name` has an entry.
    pub fn contains(&self, name: &String) -> (r: bool)
        ensures
            r == self@.contains_key(name@),
    {
        self.find(name) < self.entries.len()
    }

    /// The node bound to `name`, if there is one.
    pub fn get(&self, name: &String) -> (r: Option<&ASTNode>)
        ensures
            match r {
                Some(node) => self@.contains_key(name@) && node@ == self@[name@],
                None => !self@.contains_key(name@),
            },
    {
        let i = self.find(name);
        if i < self.entries.len() {
            Some(&self.entries[i].value)
        } else {
            None
        }
    }

    /// Binds `name` to `value`, in place of what it was bound to.
    pub fn put(&mut self, name: String, value: ASTNode)
        ensures
            final(self)@ == old(self)@.insert(name@, value@),
    {
        let ghost before = self.entries@;
        let ghost key = name@;
        let ghost node = value@;
        let i = self.find(&name);
        if i < self.entries.len() {
            self.entries.set(i, Entry { name, value });
        } else {
            self.entries.push(Entry { name, value });
        }
        proof {
            let after = self.entries@;
            lemma_index_of(before, key, 0);
            assert(after[i as int].name@ == key);
            assert(forall|j: int| 0 <= j < before.len() ==> after[j].name@ == before[j].name@);
            let target = map_of(before).insert(key, node);
            assert forall|k: Seq<char>|
                #![trigger map_of(after).dom().contains(k)]
                #![trigger target.dom().contains(k)]
                map_of(after).dom().contains(k) == target.dom().contains(k) && (
                target.dom().contains(k) ==> map_of(after)[k] == target[k]) by {
                lemma_index_of(before, k, 0);
                let at = if k == key {
                    i as int
                } else if index_of(before, k, 0) < before.len() {
                    index_of(before, k, 0)
                } else {
                    after.len() as int
                };
                lemma_index_is(after, k, 0, at);
            }
            assert(map_of(after) =~= map_of(before).insert(key, node));
        }
    }

    /// Removes the entries of `name`.
    pub fn remove(&mut self, name: &String)
        ensures
            final(self)@ == old(self)@.remove(name@),
    {
        let ghost start = self@;
        let mut i = self.find(name);
        while i < self.entries.len()
            invariant
                i == index_of(self.entries@, name@, 0),
                i <= self.entries.len(),
                self@.remove(name@) == start.remove(name@),
            decreases self.entries.len(),
        {
            let ghost before = self.entries@;
            self.entries.remove(i);
            proof {
                let after = self.entries@;
                let key = name@;
                lemma_index_of(before, key, 0);
                assert forall|k: Seq<char>|
                    #![trigger map_of(after).dom().contains(k)]
                    #![trigger map_of(before).dom().contains(k)]
                    k != key implies map_of(after).dom().contains(k) == map_of(
                        before,
                    ).dom().contains(k) && (map_of(before).dom().contains(k) ==> map_of(after)[k]
                        == map_of(before)[k]) by {
                    lemma_index_of(before, k, 0);
                    let was = index_of(before, k, 0);
                    let at = if was < i {
                        was
                    } else {
                        was - 1
                    };
                    lemma_index_is(after, k, 0, at);
                }
                assert(map_of(after).remove(key) =~= map_of(before).remove(key));
            }
            i = self.find(name);
        }
        assert(self@ =~= self@.remove(name@));
    }

    /// A copy of the table and of all that it owns.
    pub fn copy(&self) -> (r: Table)
        ensures
            r@ == self@,
    {
        let mut out: Vec<Entry> = Vec::new();
        let mut i: usize = 0;
        while i < self.entries.len()
            invariant
                i <= self.entries.len(),
                out@.len() == i,
                forall|j: int|
                    0 <= j < i ==> out@[j].name@ == self.entries@[j].name@ && out@[j].value@
                        == self.entries@[j].value@,
            decreases self.entries.len() - i,
        {
            out.push(Entry { name: self.entries[i].name.clone(), value: self.entries[i].value.copy() });
            i += 1;
        }
        let r = Table { entries: out };
        proof {
            assert forall|k: Seq<char>|
                #![trigger r@.dom().contains(k)]
                #![trigger self@.dom().contains(k)]
                r@.dom().contains(k) == self@.dom().contains(k) && (self@.dom().contains(k)
                    ==> r@[k] == self@[k]) by {
                lemma_index_of(self.entries@, k, 0);
                lemma_index_is(r.entries@, k, 0, index_of(self.entries@, k, 0));
            }
            assert(r@ =~= self@);
        }
        r
    }
}

} // verus!
