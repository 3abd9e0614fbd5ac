//! Lists of named entries read as maps: where a name occurs more than once,
//! the entry added last counts.
use vstd::prelude::*;

verus! {

/// The map that a list of named entries denotes, each entry seen through
/// `f`. Later entries shadow earlier ones of the same name.
pub open spec fn bindings<T, V>(entries: Seq<(String, T)>, f: spec_fn(T) -> V) -> Map<
    Seq<char>,
    V,
>
    decreases entries.len(),
{
    if entries.len() == 0 {
        Map::empty()
    } else {
        bindings(entries.drop_last(), f).insert(entries.last().0@, f(entries.last().1))
    }
}

/// Whether `i` is the place of the last entry named `key`.
pub open spec fn is_last_binding<T>(entries: Seq<(String, T)>, key: Seq<char>, i: int) -> bool {
    &&& 0 <= i < entries.len()
    &&& entries[i].0@ == key
    &&& forall|j: int| i < j < entries.len() ==> (#[trigger] entries[j]).0@ != key
}

/// Whether no entry is named `key`.
pub open spec fn unbound<T>(entries: Seq<(String, T)>, key: Seq<char>) -> bool {
    forall|j: int| 0 <= j < entries.len() ==> (#[trigger] entries[j]).0@ != key
}

/// The last entry of a name is the one that the map holds.
pub proof fn lemma_bound<T, V>(
    entries: Seq<(String, T)>,
    f: spec_fn(T) -> V,
    key: Seq<char>,
    i: int,
)
    requires
        is_last_binding(entries, key, i),
    ensures
        bindings(entries, f).contains_key(key),
        bindings(entries, f)[key] == f(entries[i].1),
    decreases entries.len(),
{
    if i < entries.len() - 1 {
        let front = entries.drop_last();
        assert(entries.last().0@ != key);
        assert(is_last_binding(front, key, i)) by {
            assert forall|j: int| i < j < front.len() implies (#[trigger] front[j]).0@ != key by {
                assert(front[j] == entries[j]);
            }
        }
        lemma_bound(front, f, key, i);
    }
}

/// A name that no entry has is no key of the map.
pub proof fn lemma_unbound<T, V>(entries: Seq<(String, T)>, f: spec_fn(T) -> V, key: Seq<char>)
    requires
        unbound(entries, key),
    ensures
        !bindings(entries, f).contains_key(key),
    decreases entries.len(),
{
    if entries.len() > 0 {
        let front = entries.drop_last();
        assert(entries.last().0@ != key);
        assert(unbound(front, key)) by {
            assert forall|j: int| 0 <= j < front.len() implies (#[trigger] front[j]).0@ != key by {
                assert(front[j] == entries[j]);
            }
        }
        lemma_unbound(front, f, key);
    }
}

/// Adding an entry at the end inserts it in the map.
pub proof fn lemma_push<T, V>(
    entries: Seq<(String, T)>,
    f: spec_fn(T) -> V,
    name: String,
    value: T,
)
    ensures
        bindings(entries.push((name, value)), f) == bindings(entries, f).insert(name@, f(value)),
{
    assert(entries.push((name, value)).drop_last() =~= entries);
}

/// Replacing the value of the last entry of a name replaces the name's
/// value in the map.
pub proof fn lemma_update<T, V>(
    entries: Seq<(String, T)>,
    f: spec_fn(T) -> V,
    i: int,
    value: T,
)
    requires
        0 <= i < entries.len(),
        is_last_binding(entries, entries[i].0@, i),
    ensures
        bindings(entries.update(i, (entries[i].0, value)), f) =~= bindings(entries, f).insert(
            entries[i].0@,
            f(value),
        ),
    decreases entries.len(),
{
    let key = entries[i].0@;
    let changed = entries.update(i, (entries[i].0, value));
    if i == entries.len() - 1 {
        assert(changed.drop_last() =~= entries.drop_last());
    } else {
        let front = entries.drop_last();
        assert(entries.last().0@ != key);
        assert(is_last_binding(front, key, i)) by {
            assert forall|j: int| i < j < front.len() implies (#[trigger] front[j]).0@ != key by {
                assert(front[j] == entries[j]);
            }
        }
        lemma_update(front, f, i, value);
        assert(changed.drop_last() =~= front.update(i, (front[i].0, value)));
        assert(changed.last() == entries.last());
    }
}

/// Finds the last entry named `key`.
pub fn find_last<T>(entries: &Vec<(String, T)>, key: &str) -> (r: Option<usize>)
    ensures
        match r {
            Some(i) => is_last_binding(entries@, key@, i as int),
            None => unbound(entries@, key@),
        },
{
    let wanted = key.to_owned();
    let mut i: usize = entries.len();
    while i > 0
        invariant
            i <= entries.len(),
            wanted@ == key@,
            forall|j: int| i <= j < entries.len() ==> (#[trigger] entries@[j]).0@ != key@,
        decreases i,
    {
        i -= 1;
        if entries[i].0 == wanted {
            return Some(i);
        }
    }
    None
}

} // verus!
