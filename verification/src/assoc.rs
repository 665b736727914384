//! Association lists keyed by strings: the in-memory model shared by both
//! caches. Keys are compared by their character sequences, and the first
//! match wins.

use vstd::prelude::*;

verus! {

/// First-match lookup in an association list of (key, value) pairs.
pub open spec fn assoc_lookup<V>(entries: Seq<(String, V)>, key: Seq<char>) -> Option<V>
    decreases entries.len(),
{
    if entries.len() == 0 {
        None
    } else if entries[0].0@ == key {
        Some(entries[0].1)
    } else {
        assoc_lookup(entries.drop_first(), key)
    }
}

/// A lookup misses exactly when no entry carries the key.
pub proof fn lemma_assoc_lookup_none<V>(entries: Seq<(String, V)>, key: Seq<char>)
    ensures
        (assoc_lookup(entries, key) is None) <==> (forall|i: int|
            0 <= i < entries.len() ==> entries[i].0@ != key),
    decreases entries.len(),
{
    if entries.len() > 0 {
        let tail = entries.drop_first();
        lemma_assoc_lookup_none(tail, key);
        assert forall|i: int| 0 <= i < tail.len() implies tail[i] == entries[i + 1] by {}
        if entries[0].0@ == key {
            assert(!(forall|i: int| 0 <= i < entries.len() ==> entries[i].0@ != key)) by {
                assert(entries[0].0@ == key);
            }
        } else {
            if assoc_lookup(entries, key) is None {
                assert forall|i: int| 0 <= i < entries.len() implies entries[i].0@ != key by {
                    if i > 0 {
                        assert(tail[i - 1].0@ != key);
                    }
                }
            } else {
                if forall|i: int| 0 <= i < entries.len() ==> entries[i].0@ != key {
                    assert forall|i: int| 0 <= i < tail.len() implies tail[i].0@ != key by {
                        assert(entries[i + 1].0@ != key);
                    }
                    assert(assoc_lookup(tail, key) is None);
                    assert(false);
                }
            }
        }
    }
}

/// A hit returns the value of the first entry that carries the key.
pub proof fn lemma_assoc_lookup_at<V>(entries: Seq<(String, V)>, key: Seq<char>, i: int)
    requires
        0 <= i < entries.len(),
        entries[i].0@ == key,
        forall|j: int| 0 <= j < i ==> entries[j].0@ != key,
    ensures
        assoc_lookup(entries, key) == Some(entries[i].1),
    decreases i,
{
    if i > 0 {
        lemma_assoc_lookup_at(entries.drop_first(), key, i - 1);
    }
}

/// A hit returns a value that some entry carries.
pub proof fn lemma_assoc_lookup_some<V>(entries: Seq<(String, V)>, key: Seq<char>)
    requires
        assoc_lookup(entries, key) is Some,
    ensures
        exists|i: int|
            #![auto]
            0 <= i < entries.len() && entries[i].0@ == key && entries[i].1 == assoc_lookup(
                entries,
                key,
            )->Some_0,
    decreases entries.len(),
{
    if entries.len() > 0 && entries[0].0@ != key {
        let tail = entries.drop_first();
        lemma_assoc_lookup_some(tail, key);
        let i = choose|i: int|
            #![auto]
            0 <= i < tail.len() && tail[i].0@ == key && tail[i].1 == assoc_lookup(tail, key)->Some_0;
        assert(entries[i + 1] == tail[i]);
    }
}

/// Overwriting the entry that holds a key changes the lookup for that key to
/// the new value and leaves every other key's lookup unchanged.
pub proof fn lemma_assoc_update<V>(
    entries: Seq<(String, V)>,
    i: int,
    key: String,
    value: V,
)
    requires
        0 <= i < entries.len(),
        entries[i].0@ == key@,
        forall|j: int| 0 <= j < i ==> entries[j].0@ != key@,
    ensures
        assoc_lookup(entries.update(i, (key, value)), key@) == Some(value),
        forall|k: Seq<char>| k != key@ ==> #[trigger] assoc_lookup(entries.update(i, (key, value)), k)
            == assoc_lookup(entries, k),
    decreases i,
{
    let updated = entries.update(i, (key, value));
    if i == 0 {
        assert(updated[0] == (key, value));
        assert forall|k: Seq<char>| k != key@ implies #[trigger] assoc_lookup(updated, k)
            == assoc_lookup(entries, k) by {
            assert(updated.drop_first() =~= entries.drop_first());
        }
    } else {
        lemma_assoc_update(entries.drop_first(), i - 1, key, value);
        assert(updated.drop_first() =~= entries.drop_first().update(i - 1, (key, value)));
        assert(updated[0] == entries[0]);
        assert forall|k: Seq<char>| k != key@ implies #[trigger] assoc_lookup(updated, k)
            == assoc_lookup(entries, k) by {
            if updated[0].0@ == k {
            } else {
                assert(assoc_lookup(updated, k) == assoc_lookup(updated.drop_first(), k));
                assert(assoc_lookup(entries, k) == assoc_lookup(entries.drop_first(), k));
            }
        }
    }
}

/// Appending an entry under a key that is absent makes the lookup for that
/// key return the new value and leaves every other key's lookup unchanged.
///
/// Together with [`lemma_assoc_update`] this is the cache-idempotence law:
/// after a successful write of `value` under `key`, a lookup for `key`
/// answers `value` straight from the table, so a second resolution of the
/// same normalized name is served from the cache.
pub proof fn lemma_assoc_push<V>(entries: Seq<(String, V)>, key: String, value: V)
    requires
        assoc_lookup(entries, key@) is None,
    ensures
        assoc_lookup(entries.push((key, value)), key@) == Some(value),
        forall|k: Seq<char>| k != key@ ==> #[trigger] assoc_lookup(entries.push((key, value)), k)
            == assoc_lookup(entries, k),
    decreases entries.len(),
{
    let pushed = entries.push((key, value));
    if entries.len() == 0 {
        assert(pushed[0] == (key, value));
        assert(pushed.drop_first() =~= Seq::<(String, V)>::empty());
        assert forall|k: Seq<char>| k != key@ implies #[trigger] assoc_lookup(pushed, k)
            == assoc_lookup(entries, k) by {
            assert(assoc_lookup(pushed, k) == assoc_lookup(pushed.drop_first(), k));
        }
    } else {
        lemma_assoc_push(entries.drop_first(), key, value);
        assert(pushed.drop_first() =~= entries.drop_first().push((key, value)));
        assert(pushed[0] == entries[0]);
        assert forall|k: Seq<char>| k != key@ implies #[trigger] assoc_lookup(pushed, k)
            == assoc_lookup(entries, k) by {
            if pushed[0].0@ == k {
            } else {
                assert(assoc_lookup(pushed, k) == assoc_lookup(pushed.drop_first(), k));
                assert(assoc_lookup(entries, k) == assoc_lookup(entries.drop_first(), k));
            }
        }
    }
}

} // verus!
