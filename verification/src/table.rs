//! A map from names to values, kept as a list of bindings.
use vstd::prelude::*;

verus! {

/// The map that a list of bindings stands for: a later binding of a name hides an earlier one.
pub open spec fn bindings<T: View>(entries: Seq<(String, T)>) -> Map<Seq<char>, T::V>
    decreases entries.len(),
{
    if entries.len() == 0 {
        Map::empty()
    } else {
        bindings(entries.drop_last()).insert(entries.last().0@, entries.last().1@)
    }
}

/// A name that no binding from index `from` on carries is bound as it is before `from`.
proof fn lemma_bindings_skip<T: View>(entries: Seq<(String, T)>, from: int, key: Seq<char>)
    requires
        0 <= from <= entries.len(),
        forall|j: int| from <= j < entries.len() ==> (#[trigger] entries[j]).0@ != key,
    ensures
        bindings(entries).contains_key(key) == bindings(entries.take(from)).contains_key(key),
        bindings(entries).contains_key(key) ==> bindings(entries)[key] == bindings(
            entries.take(from),
        )[key],
    decreases entries.len(),
{
    if from == entries.len() {
        assert(entries.take(from) =~= entries);
    } else {
        let shorter = entries.drop_last();
        assert(shorter.take(from) =~= entries.take(from));
        lemma_bindings_skip(shorter, from, key);
    }
}

/// A map from names to values of type `T`.
pub struct Table<T> {
    entries: Vec<(String, T)>,
}

impl<T: View> Table<T> {
    /// The map from each bound name to its value.
    pub closed spec fn view(&self) -> Map<Seq<char>, T::V> {
        bindings(self.entries@)
    }

    /// A table without bindings.
    pub fn new() -> (res: Table<T>)
        ensures
            res@ == Map::<Seq<char>, T::V>::empty(),
    {
        Table { entries: Vec::new() }
    }

    /// Binds `key` to `value`, in place of what `key` was bound to.
    pub fn insert(&mut self, key: String, value: T)
        ensures
            final(self)@ == old(self)@.insert(key@, value@),
    {
        self.entries.push((key, value));
        assert(self.entries@.drop_last() =~= old(self).entries@);
    }

    /// The value that `key` is bound to.
    pub fn get(&self, key: &String) -> (res: Option<&T>)
        ensures
            match res {
                Some(value) => self@.contains_key(key@) && self@[key@] == value@,
                None => !self@.contains_key(key@),
            },
    {
        let mut i: usize = self.entries.len();
        while i > 0
            invariant
                i <= self.entries.len(),
                forall|j: int| i <= j < self.entries.len() ==> (#[trigger] self.entries[j]).0@ != key@,
            decreases i,
        {
            i -= 1;
            if self.entries[i].0 == *key {
                proof {
                    let upto = self.entries@.take(i + 1);
                    lemma_bindings_skip(self.entries@, i + 1, key@);
                    assert(upto.last() == self.entries[i as int]);
                }
                return Some(&self.entries[i].1);
            }
        }
        proof {
            lemma_bindings_skip(self.entries@, 0, key@);
        }
        None
    }
}

} // verus!
