//! Tables keyed by symbol.
use vstd::prelude::*;

verus! {

/// Whether no two entries have the same key.
pub open spec fn distinct_keys<V>(entries: Seq<(Seq<char>, V)>) -> bool {
    forall|i: int, j: int|
        0 <= i < j < entries.len() ==> #[trigger] entries[i].0 != #[trigger] entries[j].0
}

/// The value that stands under a key.
pub open spec fn find<V>(entries: Seq<(Seq<char>, V)>, key: Seq<char>) -> Option<V>
    decreases entries.len(),
{
    if entries.len() == 0 {
        None
    } else if entries[0].0 == key {
        Some(entries[0].1)
    } else {
        find(entries.drop_first(), key)
    }
}

/// The entries after a value has been put under a key: in place of the value
/// that stood there, or behind all others.
pub open spec fn put<V>(entries: Seq<(Seq<char>, V)>, key: Seq<char>, value: V) -> Seq<
    (Seq<char>, V),
>
    decreases entries.len(),
{
    if entries.len() == 0 {
        seq![(key, value)]
    } else if entries[0].0 == key {
        entries.update(0, (key, value))
    } else {
        seq![entries[0]] + put(entries.drop_first(), key, value)
    }
}

/// The entries with each value replaced by what `f` gives for it.
pub open spec fn mapped<V, W>(entries: Seq<(Seq<char>, V)>, f: spec_fn(V) -> W) -> Seq<
    (Seq<char>, W),
> {
    entries.map_values(|entry: (Seq<char>, V)| (entry.0, f(entry.1)))
}

/// A table from symbols to values, which keeps the order in which the symbols
/// came.
pub struct SymbolMap<V> {
    entries: Vec<(String, V)>,
}

impl<V> View for SymbolMap<V> {
    type V = Seq<(Seq<char>, V)>;

    closed spec fn view(&self) -> Seq<(Seq<char>, V)> {
        Seq::new(self.entries@.len(), |i: int| (self.entries@[i].0@, self.entries@[i].1))
    }
}

impl<V> SymbolMap<V> {
    #[verifier::type_invariant]
    spec fn keys_are_distinct(self) -> bool {
        distinct_keys(self@)
    }

    /// An empty table.
    pub fn new() -> (r: Self)
        ensures
            r@ == Seq::<(Seq<char>, V)>::empty(),
    {
        SymbolMap { entries: Vec::new() }
    }

    /// The number of symbols.
    pub fn len(&self) -> (n: usize)
        ensures
            n == self@.len(),
    {
        self.entries.len()
    }

    /// The symbol at a position.
    pub fn key_at(&self, i: usize) -> (key: &String)
        requires
            i < self@.len(),
        ensures
            key@ == self@[i as int].0,
    {
        &self.entries[i].0
    }

    /// The value at a position.
    pub fn value_at(&self, i: usize) -> (value: &V)
        requires
            i < self@.len(),
        ensures
            *value == self@[i as int].1,
    {
        &self.entries[i].1
    }

    /// The position of a symbol.
    fn position(&self, key: &String) -> (r: Option<usize>)
        ensures
            match r {
                Some(i) => i < self@.len() && self@[i as int].0 == key@,
                None => forall|i: int| 0 <= i < self@.len() ==> #[trigger] self@[i].0 != key@,
            },
    {
        let mut i: usize = 0;
        while i < self.entries.len()
            invariant
                i <= self@.len(),
                self@.len() == self.entries@.len(),
                forall|j: int| 0 <= j < i ==> #[trigger] self@[j].0 != key@,
            decreases self.entries@.len() - i,
        {
            if self.entries[i].0 == *key {
                return Some(i);
            }
            i += 1;
        }
        None
    }

    /// The value that stands under a symbol.
    pub fn get(&self, key: &String) -> (r: Option<&V>)
        ensures
            match r {
                Some(v) => find(self@, key@) == Some(*v),
                None => find(self@, key@) is None,
            },
    {
        proof {
            use_type_invariant(self);
        }
        match self.position(key) {
            Some(i) => {
                proof {
                    lemma_find_at(self@, i as int);
                }
                Some(&self.entries[i].1)
            },
            None => {
                proof {
                    lemma_find_absent(self@, key@);
                }
                None
            },
        }
    }

    /// Puts a value under a symbol.
    pub fn insert(&mut self, key: String, value: V)
        ensures
            final(self)@ == put(old(self)@, key@, value),
    {
        proof {
            use_type_invariant(&*self);
            lemma_put_distinct(self@, key@, value);
        }
        let ghost before = self@;
        match self.position(&key) {
            Some(i) => {
                let mut entries: Vec<(String, V)> = Vec::new();
                std::mem::swap(&mut entries, &mut self.entries);
                let ghost old_entries = entries@;
                entries.set(i, (key, value));
                proof {
                    lemma_put_at(before, i as int, value);
                    assert(Seq::new(entries@.len(), |j: int| (entries@[j].0@, entries@[j].1))
                        =~= before.update(i as int, (key@, value)));
                }
                self.entries = entries;
            },
            None => {
                let mut entries: Vec<(String, V)> = Vec::new();
                std::mem::swap(&mut entries, &mut self.entries);
                entries.push((key, value));
                proof {
                    lemma_put_absent(before, key@, value);
                    assert(Seq::new(entries@.len(), |j: int| (entries@[j].0@, entries@[j].1))
                        =~= before.push((key@, value)));
                }
                self.entries = entries;
            },
        }
    }
}

impl<V> Default for SymbolMap<V> {
    fn default() -> (r: Self)
        ensures
            r@ == Seq::<(Seq<char>, V)>::empty(),
    {
        SymbolMap::new()
    }
}

pub proof fn lemma_find_at<V>(entries: Seq<(Seq<char>, V)>, i: int)
    requires
        distinct_keys(entries),
        0 <= i < entries.len(),
    ensures
        find(entries, entries[i].0) == Some(entries[i].1),
    decreases entries.len(),
{
    if i > 0 {
        assert(entries[0].0 != entries[i].0);
        lemma_find_at(entries.drop_first(), i - 1);
    }
}

pub proof fn lemma_find_absent<V>(entries: Seq<(Seq<char>, V)>, key: Seq<char>)
    requires
        forall|i: int| 0 <= i < entries.len() ==> #[trigger] entries[i].0 != key,
    ensures
        find(entries, key) is None,
    decreases entries.len(),
{
    if entries.len() > 0 {
        assert(entries[0].0 != key);
        lemma_find_absent(entries.drop_first(), key);
    }
}

/// A write under a symbol that has a value changes that value in its place.
pub proof fn lemma_put_at<V>(entries: Seq<(Seq<char>, V)>, i: int, value: V)
    requires
        distinct_keys(entries),
        0 <= i < entries.len(),
    ensures
        put(entries, entries[i].0, value) == entries.update(i, (entries[i].0, value)),
    decreases entries.len(),
{
    if i > 0 {
        assert(entries[0].0 != entries[i].0);
        let rest = entries.drop_first();
        lemma_put_at(rest, i - 1, value);
        assert(seq![entries[0]] + rest.update(i - 1, (entries[i].0, value)) =~= entries.update(
            i,
            (entries[i].0, value),
        ));
    }
}

/// A write under a new symbol comes behind all others.
pub proof fn lemma_put_absent<V>(entries: Seq<(Seq<char>, V)>, key: Seq<char>, value: V)
    requires
        forall|i: int| 0 <= i < entries.len() ==> #[trigger] entries[i].0 != key,
    ensures
        put(entries, key, value) == entries.push((key, value)),
    decreases entries.len(),
{
    if entries.len() > 0 {
        assert(entries[0].0 != key);
        let rest = entries.drop_first();
        lemma_put_absent(rest, key, value);
        assert(seq![entries[0]] + rest.push((key, value)) =~= entries.push((key, value)));
    } else {
        assert(seq![(key, value)] =~= entries.push((key, value)));
    }
}

proof fn lemma_put_distinct<V>(entries: Seq<(Seq<char>, V)>, key: Seq<char>, value: V)
    requires
        distinct_keys(entries),
    ensures
        distinct_keys(put(entries, key, value)),
{
    if exists|i: int| 0 <= i < entries.len() && #[trigger] entries[i].0 == key {
        let i = choose|i: int| 0 <= i < entries.len() && #[trigger] entries[i].0 == key;
        lemma_put_at(entries, i, value);
    } else {
        lemma_put_absent(entries, key, value);
    }
}

/// A read after a write gives the value that was written under that symbol,
/// and under every other symbol the value that stood there before.
pub proof fn lemma_find_after_put<V>(
    entries: Seq<(Seq<char>, V)>,
    key: Seq<char>,
    value: V,
    other: Seq<char>,
)
    ensures
        find(put(entries, key, value), other) == (if other == key {
            Some(value)
        } else {
            find(entries, other)
        }),
    decreases entries.len(),
{
    reveal_with_fuel(find, 2);
    let after = put(entries, key, value);
    if entries.len() == 0 {
        assert(after.drop_first() =~= Seq::<(Seq<char>, V)>::empty());
    } else if entries[0].0 == key {
        assert(after.drop_first() =~= entries.drop_first());
    } else {
        assert(after.drop_first() =~= put(entries.drop_first(), key, value));
        lemma_find_after_put(entries.drop_first(), key, value, other);
    }
}

pub proof fn lemma_find_mapped<V, W>(
    entries: Seq<(Seq<char>, V)>,
    f: spec_fn(V) -> W,
    key: Seq<char>,
)
    ensures
        find(mapped(entries, f), key) == (match find(entries, key) {
            Some(value) => Some(f(value)),
            None => None,
        }),
    decreases entries.len(),
{
    if entries.len() > 0 {
        lemma_find_mapped(entries.drop_first(), f, key);
        assert(mapped(entries, f).drop_first() =~= mapped(entries.drop_first(), f));
    }
}

pub proof fn lemma_put_mapped<V, W>(
    entries: Seq<(Seq<char>, V)>,
    f: spec_fn(V) -> W,
    key: Seq<char>,
    value: V,
)
    ensures
        put(mapped(entries, f), key, f(value)) == mapped(put(entries, key, value), f),
    decreases entries.len(),
{
    if entries.len() > 0 {
        lemma_put_mapped(entries.drop_first(), f, key, value);
        assert(mapped(entries, f).drop_first() =~= mapped(entries.drop_first(), f));
    }
    assert(put(mapped(entries, f), key, f(value)) =~= mapped(put(entries, key, value), f));
}

/// Every entry after a write is the one that was written or was there before.
pub proof fn lemma_put_members<V>(
    entries: Seq<(Seq<char>, V)>,
    key: Seq<char>,
    value: V,
    i: int,
)
    requires
        0 <= i < put(entries, key, value).len(),
    ensures
        put(entries, key, value)[i] == (key, value) || entries.contains(
            put(entries, key, value)[i],
        ),
    decreases entries.len(),
{
    if entries.len() > 0 {
        let rest = entries.drop_first();
        if entries[0].0 == key {
            if i > 0 {
                assert(entries[i] == put(entries, key, value)[i]);
            }
        } else if i == 0 {
            assert(entries[0] == put(entries, key, value)[0]);
        } else {
            lemma_put_members(rest, key, value, i - 1);
            assert(put(entries, key, value)[i] == put(rest, key, value)[i - 1]);
            if rest.contains(put(rest, key, value)[i - 1]) {
                let j = choose|j: int|
                    0 <= j < rest.len() && rest[j] == put(rest, key, value)[i - 1];
                assert(entries[j + 1] == rest[j]);
            }
        }
    }
}

} // verus!
