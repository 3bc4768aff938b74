//! A map from texts to values that keeps its keys in ascending order.

use crate::text;
use vstd::prelude::*;

verus! {

/// Whether each of a list of texts comes before all that follow it.
pub open spec fn ascending(keys: Seq<Seq<char>>) -> bool {
    forall|i: int, j: int|
        0 <= i < j < keys.len() ==> text::precedes(#[trigger] keys[i], #[trigger] keys[j])
}

/// Whether `keys` lists the members of `set` in ascending order.
pub open spec fn lists(keys: Seq<Seq<char>>, set: Set<Seq<char>>) -> bool {
    ascending(keys) && forall|k: Seq<char>| #[trigger] set.contains(k) <==> keys.contains(k)
}

/// The members of `set` in ascending order.
pub open spec fn sorted(set: Set<Seq<char>>) -> Seq<Seq<char>> {
    choose|keys: Seq<Seq<char>>| lists(keys, set)
}

/// There is only one way to list a set in ascending order.
pub proof fn listing_is_unique(a: Seq<Seq<char>>, b: Seq<Seq<char>>, set: Set<Seq<char>>)
    requires
        lists(a, set),
        lists(b, set),
    ensures
        a == b,
    decreases a.len(),
{
    if a.len() == 0 {
        if b.len() > 0 {
            assert(b.contains(b[0]));
            assert(set.contains(b[0]));
        }
        assert(a =~= b);
    } else {
        assert(a.contains(a.last()));
        assert(set.contains(a.last()));
        assert(b.contains(a.last()));
        let j = b.index_of(a.last());
        assert(b.contains(b.last()));
        assert(set.contains(b.last()));
        assert(a.contains(b.last()));
        let i = a.index_of(b.last());
        if j < b.len() - 1 {
            assert(text::precedes(b[j], b[b.len() - 1]));
            text::precedes_is_strict(a.last(), b.last());
            if i < a.len() - 1 {
                assert(text::precedes(a[i], a[a.len() - 1]));
            }
        }
        assert(a.last() == b.last());
        let rest = set.remove(a.last());
        lemma_without_last(a, set);
        lemma_without_last(b, set);
        listing_is_unique(a.drop_last(), b.drop_last(), rest);
        assert(a =~= a.drop_last().push(a.last()));
        assert(b =~= b.drop_last().push(b.last()));
    }
}

/// A listing without its last member lists the set without it.
proof fn lemma_without_last(keys: Seq<Seq<char>>, set: Set<Seq<char>>)
    requires
        lists(keys, set),
        keys.len() > 0,
    ensures
        lists(keys.drop_last(), set.remove(keys.last())),
{
    let front = keys.drop_last();
    let rest = set.remove(keys.last());
    assert forall|k: Seq<char>| #[trigger] rest.contains(k) <==> front.contains(k) by {
        if rest.contains(k) {
            assert(set.contains(k));
            let i = keys.index_of(k);
            assert(front[i] == k);
        }
        if front.contains(k) {
            let i = front.index_of(k);
            assert(keys[i] == k);
            assert(keys.contains(k));
            assert(set.contains(k));
            assert(text::precedes(keys[i], keys[keys.len() - 1]));
            text::precedes_is_strict(k, keys.last());
        }
    }
}

/// A list in ascending order is the listing of the set of its members.
pub proof fn sorted_is(keys: Seq<Seq<char>>, set: Set<Seq<char>>)
    requires
        lists(keys, set),
    ensures
        sorted(set) == keys,
{
    assert(lists(sorted(set), set));
    listing_is_unique(keys, sorted(set), set);
}

/// `keys` with `key` at its place.
spec fn put_in(keys: Seq<Seq<char>>, key: Seq<char>) -> Seq<Seq<char>>
    decreases keys.len(),
{
    if keys.len() == 0 || text::precedes(keys.last(), key) {
        keys.push(key)
    } else {
        put_in(keys.drop_last(), key).push(keys.last())
    }
}

/// Putting a new member in at its place lists the larger set.
proof fn lemma_put_in(keys: Seq<Seq<char>>, set: Set<Seq<char>>, key: Seq<char>)
    requires
        lists(keys, set),
        !set.contains(key),
    ensures
        lists(put_in(keys, key), set.insert(key)),
    decreases keys.len(),
{
    let after = put_in(keys, key);
    let larger = set.insert(key);
    if keys.len() == 0 || text::precedes(keys.last(), key) {
        assert forall|i: int, j: int| 0 <= i < j < after.len() implies text::precedes(
            #[trigger] after[i],
            #[trigger] after[j],
        ) by {
            if j == keys.len() && i < keys.len() - 1 {
                assert(text::precedes(keys[i], keys[keys.len() - 1]));
                text::precedes_is_transitive(keys[i], keys.last(), key);
            }
        }
        assert(after.last() == key);
        assert forall|k: Seq<char>| #[trigger] larger.contains(k) <==> after.contains(k) by {
            if keys.contains(k) {
                assert(after[keys.index_of(k)] == k);
            }
            if after.contains(k) && k != key {
                assert(keys[after.index_of(k)] == k);
            }
        }
    } else {
        let last = keys.last();
        let front = keys.drop_last();
        let rest = set.remove(last);
        lemma_without_last(keys, set);
        lemma_put_in(front, rest, key);
        let mid = put_in(front, key);
        assert(keys.contains(last));
        assert(set.contains(last));
        text::precedes_is_strict(last, key);
        assert forall|k: Seq<char>| mid.contains(k) implies text::precedes(k, last) by {
            assert(rest.insert(key).contains(k));
            if k != key {
                assert(front.contains(k));
                let i = front.index_of(k);
                assert(text::precedes(keys[i], keys[keys.len() - 1]));
            }
        }
        assert forall|i: int, j: int| 0 <= i < j < after.len() implies text::precedes(
            #[trigger] after[i],
            #[trigger] after[j],
        ) by {
            if j == mid.len() {
                assert(mid.contains(mid[i]));
            } else {
                assert(text::precedes(mid[i], mid[j]));
            }
        }
        assert(after.last() == last);
        assert forall|k: Seq<char>| #[trigger] larger.contains(k) <==> after.contains(k) by {
            if larger.contains(k) && k != last {
                assert(rest.insert(key).contains(k));
                assert(mid.contains(k));
                assert(after[mid.index_of(k)] == k);
            }
            if after.contains(k) && k != last {
                assert(mid[after.index_of(k)] == k);
                assert(mid.contains(k));
                assert(rest.insert(key).contains(k));
            }
        }
    }
}

/// Every finite set of texts can be listed in ascending order.
pub proof fn finite_sets_are_listed(set: Set<Seq<char>>)
    requires
        set.finite(),
    ensures
        lists(sorted(set), set),
    decreases set.len(),
{
    if set.len() == 0 {
        let none = Seq::<Seq<char>>::empty();
        assert forall|k: Seq<char>| #[trigger] set.contains(k) <==> none.contains(k) by {
            if set.contains(k) {
                assert(set.remove(k).len() < set.len());
            }
        }
        assert(lists(none, set));
    } else {
        let key = set.choose();
        let rest = set.remove(key);
        finite_sets_are_listed(rest);
        lemma_put_in(sorted(rest), rest, key);
        assert(rest.insert(key) =~= set);
        assert(lists(put_in(sorted(rest), key), set));
    }
}

/// A map whose entries stand in ascending order of their keys.
pub struct OrderedMap<T> {
    entries: Vec<(String, T)>,
}

/// The keys of a list of entries.
pub open spec fn keys_of<T>(entries: Seq<(String, T)>) -> Seq<Seq<char>> {
    Seq::new(entries.len(), |i: int| entries[i].0@)
}

/// The mapping that a list of entries with different keys makes.
pub open spec fn mapping<T>(entries: Seq<(String, T)>) -> Map<Seq<char>, T> {
    Map::new(
        |k: Seq<char>| keys_of(entries).contains(k),
        |k: Seq<char>| entries[keys_of(entries).index_of(k)].1,
    )
}

/// In a list of entries in ascending order, each key maps to its own entry.
proof fn lemma_mapping<T>(entries: Seq<(String, T)>)
    requires
        ascending(keys_of(entries)),
    ensures
        lists(keys_of(entries), mapping(entries).dom()),
        forall|i: int|
            0 <= i < entries.len() ==> {
                &&& mapping(entries).contains_key((#[trigger] entries[i]).0@)
                &&& mapping(entries)[entries[i].0@] == entries[i].1
            },
{
    let keys = keys_of(entries);
    assert forall|i: int| 0 <= i < entries.len() implies {
        &&& mapping(entries).contains_key((#[trigger] entries[i]).0@)
        &&& mapping(entries)[entries[i].0@] == entries[i].1
    } by {
        assert(keys[i] == entries[i].0@);
        assert(keys.contains(keys[i]));
        let j = keys.index_of(keys[i]);
        text::precedes_is_strict(keys[i], keys[j]);
        if i < j {
            assert(text::precedes(keys[i], keys[j]));
        } else if j < i {
            assert(text::precedes(keys[j], keys[i]));
        }
    }
}

/// Whether `r` is the place of `key` among `entries`: what stands from `r` on
/// comes behind it, and what stands just before `r` does not.
spec fn placed<T>(entries: Seq<(String, T)>, key: Seq<char>, r: int) -> bool {
    &&& 0 <= r <= entries.len()
    &&& forall|j: int|
        r <= j < entries.len() ==> text::precedes(key, (#[trigger] entries[j]).0@)
    &&& r > 0 ==> !text::precedes(key, entries[r - 1].0@)
}

/// A key that is there stands just before its place, and all else before its
/// place comes before it.
proof fn lemma_placed<T>(entries: Seq<(String, T)>, key: Seq<char>, r: int)
    requires
        ascending(keys_of(entries)),
        placed(entries, key, r),
    ensures
        keys_of(entries).contains(key) <==> r > 0 && entries[r - 1].0@ == key,
        forall|j: int|
            0 <= j < r && (#[trigger] entries[j]).0@ != key ==> text::precedes(
                entries[j].0@,
                key,
            ),
{
    let keys = keys_of(entries);
    if r > 0 {
        let near = keys[r - 1];
        text::precedes_is_strict(key, near);
        assert forall|j: int| 0 <= j < r && (#[trigger] entries[j]).0@ != key implies text::precedes(
            entries[j].0@,
            key,
        ) by {
            if j < r - 1 {
                assert(text::precedes(keys[j], keys[r - 1]));
                if near != key {
                    text::precedes_is_transitive(keys[j], near, key);
                }
            }
        }
        if near == key {
            assert(keys[r - 1] == key);
        }
    }
    if keys.contains(key) {
        let i = keys.index_of(key);
        assert(entries[i].0@ == key);
        text::precedes_is_strict(key, key);
        if i >= r {
            assert(text::precedes(key, entries[i].0@));
        } else if i < r - 1 {
            assert(text::precedes(keys[i], keys[r - 1]));
        }
    }
}

/// Taking an entry out takes its key out of the mapping.
proof fn lemma_removed<T>(entries: Seq<(String, T)>, i: int)
    requires
        ascending(keys_of(entries)),
        0 <= i < entries.len(),
    ensures
        ascending(keys_of(entries.remove(i))),
        mapping(entries.remove(i)) == mapping(entries).remove(entries[i].0@),
{
    let after = entries.remove(i);
    let keys = keys_of(entries);
    let key = entries[i].0@;
    assert forall|a: int, b: int| 0 <= a < b < after.len() implies text::precedes(
        #[trigger] keys_of(after)[a],
        #[trigger] keys_of(after)[b],
    ) by {
        let x = if a < i {
            a
        } else {
            a + 1
        };
        let y = if b < i {
            b
        } else {
            b + 1
        };
        assert(text::precedes(keys[x], keys[y]));
    }
    lemma_mapping(entries);
    lemma_mapping(after);
    let left = mapping(after);
    let right = mapping(entries).remove(key);
    assert forall|k: Seq<char>| left.contains_key(k) <==> right.contains_key(k) by {
        if left.contains_key(k) {
            let a = keys_of(after).index_of(k);
            let x = if a < i {
                a
            } else {
                a + 1
            };
            assert(entries[x].0@ == k);
            if x < i {
                assert(text::precedes(keys[x], keys[i]));
            } else {
                assert(text::precedes(keys[i], keys[x]));
            }
            text::precedes_is_strict(keys[x], keys[i]);
            text::precedes_is_strict(keys[i], keys[x]);
        }
        if right.contains_key(k) {
            let x = keys.index_of(k);
            let a = if x < i {
                x
            } else {
                x - 1
            };
            assert(after[a].0@ == k);
        }
    }
    assert forall|k: Seq<char>| left.contains_key(k) implies left[k] == right[k] by {
        let a = keys_of(after).index_of(k);
        let x = if a < i {
            a
        } else {
            a + 1
        };
        assert(entries[x] == after[a]);
        assert(entries[x].0@ == k);
    }
    assert(left =~= right);
}

/// Putting an entry in at its place puts its key into the mapping.
proof fn lemma_inserted<T>(entries: Seq<(String, T)>, r: int, key: String, value: T)
    requires
        ascending(keys_of(entries)),
        placed(entries, key@, r),
        !keys_of(entries).contains(key@),
    ensures
        ascending(keys_of(entries.insert(r, (key, value)))),
        mapping(entries.insert(r, (key, value))) == mapping(entries).insert(key@, value),
{
    let after = entries.insert(r, (key, value));
    let keys = keys_of(entries);
    lemma_placed(entries, key@, r);
    assert forall|j: int| 0 <= j < r implies (#[trigger] entries[j]).0@ != key@ by {
        assert(keys[j] == entries[j].0@);
    }
    assert forall|a: int, b: int| 0 <= a < b < after.len() implies text::precedes(
        #[trigger] keys_of(after)[a],
        #[trigger] keys_of(after)[b],
    ) by {
        let x = if a < r {
            a
        } else {
            a - 1
        };
        let y = if b < r {
            b
        } else {
            b - 1
        };
        if a == r {
            assert(text::precedes(key@, entries[y].0@));
        } else if b == r {
            assert(text::precedes(entries[x].0@, key@));
        } else {
            assert(text::precedes(keys[x], keys[y]));
        }
    }
    lemma_mapping(entries);
    lemma_mapping(after);
    let left = mapping(after);
    let right = mapping(entries).insert(key@, value);
    assert(after[r] == (key, value));
    assert forall|k: Seq<char>| left.contains_key(k) <==> right.contains_key(k) by {
        if left.contains_key(k) {
            let a = keys_of(after).index_of(k);
            if a != r {
                let x = if a < r {
                    a
                } else {
                    a - 1
                };
                assert(entries[x].0@ == k);
            }
        }
        if right.contains_key(k) && k != key@ {
            let x = keys.index_of(k);
            let a = if x < r {
                x
            } else {
                x + 1
            };
            assert(after[a].0@ == k);
        }
    }
    assert forall|k: Seq<char>| left.contains_key(k) implies left[k] == right[k] by {
        let a = keys_of(after).index_of(k);
        if a == r {
            assert(k == key@);
        } else {
            let x = if a < r {
                a
            } else {
                a - 1
            };
            assert(entries[x] == after[a]);
            assert(entries[x].0@ == k);
            assert(keys[x] == k);
        }
    }
    assert(left =~= right);
}

impl<T> View for OrderedMap<T> {
    type V = Map<Seq<char>, T>;

    closed spec fn view(&self) -> Map<Seq<char>, T> {
        mapping(self.entries@)
    }
}

impl<T> OrderedMap<T> {
    /// Whether the entries stand in ascending order of their keys.
    #[verifier::type_invariant]
    closed spec fn in_order(self) -> bool {
        ascending(keys_of(self.entries@))
    }

    /// A map without entries.
    pub fn new() -> (r: OrderedMap<T>)
        ensures
            r@ == Map::<Seq<char>, T>::empty(),
    {
        let r: OrderedMap<T> = OrderedMap { entries: Vec::new() };
        assert(r@ =~= Map::<Seq<char>, T>::empty());
        r
    }

    /// The place of `key`.
    fn place(&self, key: &str) -> (r: usize)
        ensures
            placed(self.entries@, key@, r as int),
    {
        let mut i: usize = self.entries.len();
        while i > 0 && text::comes_before(key, self.entries[i - 1].0.as_str())
            invariant
                i <= self.entries@.len(),
                forall|j: int|
                    i <= j < self.entries@.len() ==> text::precedes(
                        key@,
                        (#[trigger] self.entries@[j]).0@,
                    ),
            decreases i,
        {
            i -= 1;
        }
        i
    }

    /// Takes the value of `key` out.
    pub fn remove(&mut self, key: &str) -> (r: Option<T>)
        ensures
            match r {
                Some(v) => old(self)@.contains_key(key@) && v == old(self)@[key@],
                None => !old(self)@.contains_key(key@),
            },
            final(self)@ == old(self)@.remove(key@),
    {
        proof {
            use_type_invariant(&*self);
        }
        let i: usize = self.place(key);
        let ghost before = self.entries@;
        proof {
            lemma_mapping(before);
            lemma_placed(before, key@, i as int);
        }
        if i > 0 && text::same_text(self.entries[i - 1].0.as_str(), key) {
            let mut entries: Vec<(String, T)> = Vec::new();
            std::mem::swap(&mut entries, &mut self.entries);
            let (_, value): (String, T) = entries.remove(i - 1);
            proof {
                lemma_removed(before, i - 1);
            }
            self.entries = entries;
            Some(value)
        } else {
            assert(self@ =~= old(self)@.remove(key@));
            None
        }
    }

    /// Sets the value of `key`.
    pub fn insert(&mut self, key: String, value: T)
        ensures
            final(self)@ == old(self)@.insert(key@, value),
    {
        let ghost start = self@;
        let _ = self.remove(key.as_str());
        proof {
            use_type_invariant(&*self);
            lemma_mapping(self.entries@);
            assert(start.remove(key@).insert(key@, value) =~= start.insert(key@, value));
            assert(!self@.contains_key(key@));
        }
        let i: usize = self.place(key.as_str());
        let mut entries: Vec<(String, T)> = Vec::new();
        std::mem::swap(&mut entries, &mut self.entries);
        proof {
            lemma_inserted(entries@, i as int, key, value);
        }
        entries.insert(i, (key, value));
        self.entries = entries;
    }

    /// The entries in ascending order of their keys.
    pub fn into_entries(self) -> (r: Vec<(String, T)>)
        ensures
            keys_of(r@) == sorted(self@.dom()),
            forall|i: int|
                0 <= i < r@.len() ==> {
                    &&& self@.contains_key((#[trigger] r@[i]).0@)
                    &&& r@[i].1 == self@[r@[i].0@]
                },
    {
        proof {
            use_type_invariant(&self);
            lemma_mapping(self.entries@);
            let keys = keys_of(self.entries@);
            assert(lists(sorted(self@.dom()), self@.dom()));
            listing_is_unique(keys, sorted(self@.dom()), self@.dom());
        }
        self.entries
    }
}

} // verus!
