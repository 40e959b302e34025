//! A table from names to values in which a later binding shadows an earlier
//! one, so that a scope is opened by noting the length and closed by cutting
//! back to it.
use vstd::prelude::*;
use crate::text::str_eq;

verus! {

/// The value bound to `name` by the last binding of it, if any.
pub open spec fn lookup<T>(bindings: Seq<(Seq<char>, T)>, name: Seq<char>) -> Option<T>
    decreases bindings.len(),
{
    if bindings.len() == 0 {
        None
    } else if bindings.last().0 == name {
        Some(bindings.last().1)
    } else {
        lookup(bindings.drop_last(), name)
    }
}

/// The names that `bindings` make known, each with the value of its last
/// binding.
pub open spec fn as_map<T>(bindings: Seq<(Seq<char>, T)>) -> Map<Seq<char>, T>
    decreases bindings.len(),
{
    if bindings.len() == 0 {
        Map::empty()
    } else {
        as_map(bindings.drop_last()).insert(bindings.last().0, bindings.last().1)
    }
}

/// `lookup` finds what `as_map` holds.
pub proof fn lemma_lookup_as_map<T>(bindings: Seq<(Seq<char>, T)>, name: Seq<char>)
    ensures
        match lookup(bindings, name) {
            Some(value) => as_map(bindings).contains_key(name) && as_map(bindings)[name] == value,
            None => !as_map(bindings).contains_key(name),
        },
    decreases bindings.len(),
{
    if bindings.len() > 0 {
        lemma_lookup_as_map(bindings.drop_last(), name);
    }
}

/// A binding added at the end is an insertion into the map.
pub proof fn lemma_as_map_push<T>(bindings: Seq<(Seq<char>, T)>, name: Seq<char>, value: T)
    ensures
        as_map(bindings.push((name, value))) == as_map(bindings).insert(name, value),
{
    assert(bindings.push((name, value)).drop_last() =~= bindings);
}

/// Whether `after` is `before` with more at its end.
pub open spec fn extends<T>(after: Seq<T>, before: Seq<T>) -> bool {
    before.len() <= after.len() && forall|i: int|
        0 <= i < before.len() ==> #[trigger] after[i] == before[i]
}

/// A table of bindings, oldest first.
pub struct NameMap<T> {
    entries: Vec<(String, T)>,
}

impl<T> View for NameMap<T> {
    type V = Seq<(Seq<char>, T)>;

    closed spec fn view(&self) -> Seq<(Seq<char>, T)> {
        Seq::new(self.entries@.len(), |i: int| (self.entries@[i].0@, self.entries@[i].1))
    }
}

impl<T> NameMap<T> {
    /// A table without bindings.
    pub fn new() -> (table: NameMap<T>)
        ensures
            table@ == Seq::<(Seq<char>, T)>::empty(),
    {
        let table = NameMap { entries: Vec::new() };
        assert(table@ =~= Seq::<(Seq<char>, T)>::empty());
        table
    }

    /// The number of bindings, shadowed ones included.
    pub fn len(&self) -> (n: usize)
        ensures
            n == self@.len(),
    {
        self.entries.len()
    }

    /// The value that `name` is bound to.
    pub fn get(&self, name: &str) -> (found: Option<&T>)
        ensures
            match found {
                Some(value) => lookup(self@, name@) == Some(*value),
                None => lookup(self@, name@) is None,
            },
    {
        let mut i: usize = self.entries.len();
        assert(self@.take(i as int) =~= self@);
        while i > 0
            invariant
                i <= self.entries.len(),
                lookup(self@, name@) == lookup(self@.take(i as int), name@),
            decreases i,
        {
            i -= 1;
            assert(self@.take(i as int + 1).drop_last() =~= self@.take(i as int));
            assert(self@.take(i as int + 1).last() == self@[i as int]);
            if str_eq(self.entries[i].0.as_str(), name) {
                return Some(&self.entries[i].1);
            }
        }
        None
    }

    /// Binds `name` to `value`, shadowing any earlier binding of it.
    pub fn insert(&mut self, name: String, value: T)
        ensures
            final(self)@ == old(self)@.push((name@, value)),
    {
        self.entries.push((name, value));
        assert(self@ =~= old(self)@.push((name@, value)));
    }

    /// Drops every binding after the first `len`.
    pub fn truncate(&mut self, len: usize)
        ensures
            final(self)@ == if len <= old(self)@.len() {
                old(self)@.take(len as int)
            } else {
                old(self)@
            },
    {
        self.entries.truncate(len);
        assert(self@ =~= if len <= old(self)@.len() {
            old(self)@.take(len as int)
        } else {
            old(self)@
        });
    }
}

} // verus!
