use vstd::prelude::*;

verus! {

// A keyed ledger column is stored as a vector of (key, value) pairs with
// pairwise-distinct keys. An absent key stands for the amount zero. The
// spec functions below give such a vector its mathematical reading; the
// lemmas relate that reading to the push and update operations the
// executable code performs.

/// The value stored under `key`, if any entry carries it (first match).
pub open spec fn value_of<V>(entries: Seq<(String, V)>, key: Seq<char>) -> Option<V>
    decreases entries.len(),
{
    if entries.len() == 0 {
        None
    } else if entries[0].0@ == key {
        Some(entries[0].1)
    } else {
        value_of(entries.drop_first(), key)
    }
}

/// Whether some entry carries `key`.
pub open spec fn has_key<V>(entries: Seq<(String, V)>, key: Seq<char>) -> bool {
    value_of(entries, key) is Some
}

/// The amount recorded under `key`; zero when no entry exists.
pub open spec fn amount_of(entries: Seq<(String, u128)>, key: Seq<char>) -> u128 {
    match value_of(entries, key) {
        Some(v) => v,
        None => 0,
    }
}

/// No two entries share a key.
pub open spec fn distinct_keys<V>(entries: Seq<(String, V)>) -> bool {
    forall|i: int, j: int|
        0 <= i < j < entries.len() ==> entries[i].0@ != entries[j].0@
}

/// The sum of all recorded amounts.
pub open spec fn sum_of(entries: Seq<(String, u128)>) -> int
    decreases entries.len(),
{
    if entries.len() == 0 {
        0
    } else {
        entries[0].1 + sum_of(entries.drop_first())
    }
}

/// A key is present exactly when some index carries it.
pub proof fn lemma_has_key_index<V>(entries: Seq<(String, V)>, key: Seq<char>)
    ensures
        has_key(entries, key) <==> exists|i: int|
            0 <= i < entries.len() && entries[i].0@ == key,
    decreases entries.len(),
{
    if entries.len() > 0 && entries[0].0@ != key {
        lemma_has_key_index(entries.drop_first(), key);
        if has_key(entries, key) {
            let i = choose|i: int|
                0 <= i < entries.drop_first().len() && entries.drop_first()[i].0@ == key;
            assert(entries[i + 1].0@ == key);
        }
        if exists|i: int| 0 <= i < entries.len() && entries[i].0@ == key {
            let i = choose|i: int| 0 <= i < entries.len() && entries[i].0@ == key;
            assert(entries.drop_first()[i - 1].0@ == key);
        }
    }
}

/// The first index whose key matches determines the stored value.
pub proof fn lemma_value_at_first_match<V>(entries: Seq<(String, V)>, key: Seq<char>, i: int)
    requires
        0 <= i < entries.len(),
        entries[i].0@ == key,
        forall|j: int| 0 <= j < i ==> entries[j].0@ != key,
    ensures
        value_of(entries, key) == Some(entries[i].1),
    decreases entries.len(),
{
    if i > 0 {
        lemma_value_at_first_match(entries.drop_first(), key, i - 1);
    }
}

/// Appending a fresh key stores its value and leaves every other key alone.
pub proof fn lemma_push_entry<V>(entries: Seq<(String, V)>, entry: (String, V))
    requires
        !has_key(entries, entry.0@),
    ensures
        value_of(entries.push(entry), entry.0@) == Some(entry.1),
        forall|k: Seq<char>|
            k != entry.0@ ==> value_of(entries.push(entry), k) == value_of(entries, k),
        distinct_keys(entries) ==> distinct_keys(entries.push(entry)),
    decreases entries.len(),
{
    lemma_has_key_index(entries, entry.0@);
    if entries.len() == 0 {
        assert(entries.push(entry).drop_first() =~= Seq::<(String, V)>::empty());
        assert forall|k: Seq<char>| k != entry.0@ implies
            value_of(entries.push(entry), k) == value_of(entries, k) by {
            assert(value_of(entries.push(entry), k)
                == value_of(entries.push(entry).drop_first(), k));
        }
    } else {
        assert(entries.push(entry).drop_first() =~= entries.drop_first().push(entry));
        lemma_push_entry(entries.drop_first(), entry);
        assert(entries.push(entry)[0] == entries[0]);
        assert forall|k: Seq<char>| k != entry.0@ implies
            value_of(entries.push(entry), k) == value_of(entries, k) by {
            if entries[0].0@ != k {
                assert(value_of(entries.push(entry), k)
                    == value_of(entries.drop_first().push(entry), k));
                assert(value_of(entries, k) == value_of(entries.drop_first(), k));
            }
        }
    }
}

/// Replacing the value at index `i` (keeping its key) rewrites that key's
/// stored value and leaves every other key alone.
pub proof fn lemma_update_entry<V>(entries: Seq<(String, V)>, i: int, v: V)
    requires
        distinct_keys(entries),
        0 <= i < entries.len(),
    ensures
        value_of(entries.update(i, (entries[i].0, v)), entries[i].0@) == Some(v),
        forall|k: Seq<char>|
            k != entries[i].0@ ==> value_of(entries.update(i, (entries[i].0, v)), k)
                == value_of(entries, k),
        distinct_keys(entries.update(i, (entries[i].0, v))),
    decreases entries.len(),
{
    let updated = entries.update(i, (entries[i].0, v));
    assert(forall|p: int, q: int|
        0 <= p < q < updated.len() ==> updated[p].0@ != updated[q].0@);
    if i == 0 {
        assert(updated.drop_first() =~= entries.drop_first());
        assert forall|k: Seq<char>| k != entries[0].0@ implies
            value_of(updated, k) == value_of(entries, k) by {
            assert(value_of(updated, k) == value_of(updated.drop_first(), k));
            assert(value_of(entries, k) == value_of(entries.drop_first(), k));
        }
    } else {
        assert(updated.drop_first() =~= entries.drop_first().update(i - 1, (entries[i].0, v)));
        lemma_update_entry(entries.drop_first(), i - 1, v);
        assert(updated[0] == entries[0]);
        assert forall|k: Seq<char>| k != entries[i].0@ implies
            value_of(updated, k) == value_of(entries, k) by {
            if entries[0].0@ != k {
                assert(value_of(updated, k)
                    == value_of(entries.drop_first().update(i - 1, (entries[i].0, v)), k));
                assert(value_of(entries, k) == value_of(entries.drop_first(), k));
            }
        }
    }
}

/// Every partial sum of amounts is non-negative.
pub proof fn lemma_sum_nonneg(entries: Seq<(String, u128)>)
    ensures
        sum_of(entries) >= 0,
    decreases entries.len(),
{
    if entries.len() > 0 {
        lemma_sum_nonneg(entries.drop_first());
    }
}

/// Appending an entry adds its amount to the sum.
pub proof fn lemma_sum_push(entries: Seq<(String, u128)>, entry: (String, u128))
    ensures
        sum_of(entries.push(entry)) == sum_of(entries) + entry.1,
    decreases entries.len(),
{
    if entries.len() == 0 {
        assert(entries.push(entry).drop_first() =~= Seq::<(String, u128)>::empty());
        assert(sum_of(entries.push(entry))
            == entry.1 + sum_of(entries.push(entry).drop_first()));
    } else {
        assert(entries.push(entry).drop_first() =~= entries.drop_first().push(entry));
        lemma_sum_push(entries.drop_first(), entry);
        assert(sum_of(entries.push(entry))
            == entries[0].1 + sum_of(entries.push(entry).drop_first()));
    }
}

/// Replacing the value at index `i` (keeping its key) shifts the sum by
/// the difference of the new and old amounts.
pub proof fn lemma_sum_update(entries: Seq<(String, u128)>, i: int, v: u128)
    requires
        0 <= i < entries.len(),
    ensures
        sum_of(entries.update(i, (entries[i].0, v))) == sum_of(entries) - entries[i].1 + v,
    decreases entries.len(),
{
    let updated = entries.update(i, (entries[i].0, v));
    if i == 0 {
        assert(updated.drop_first() =~= entries.drop_first());
    } else {
        assert(updated.drop_first() =~= entries.drop_first().update(i - 1, (entries[i].0, v)));
        lemma_sum_update(entries.drop_first(), i - 1, v);
    }
}

/// No single recorded amount exceeds the sum of all of them.
pub proof fn lemma_amount_le_sum(entries: Seq<(String, u128)>, key: Seq<char>)
    ensures
        amount_of(entries, key) <= sum_of(entries),
    decreases entries.len(),
{
    if entries.len() > 0 {
        lemma_amount_le_sum(entries.drop_first(), key);
        lemma_sum_nonneg(entries.drop_first());
    }
}

/// Borrow the amount stored under `key`, or zero when absent.
pub(crate) fn amount_ref<'a>(entries: &'a Vec<(String, u128)>, key: &str) -> (r: &'a u128)
    ensures
        *r == amount_of(entries@, key@),
{
    match position_of(entries, key) {
        Some(i) => &entries[i].1,
        None => &0,
    }
}

/// The index of the first entry carrying `key`, if any entry does.
pub(crate) fn position_of<V>(entries: &Vec<(String, V)>, key: &str) -> (r: Option<usize>)
    ensures
        match r {
            Some(i) => {
                &&& i < entries@.len()
                &&& entries@[i as int].0@ == key@
                &&& forall|j: int| 0 <= j < i ==> entries@[j].0@ != key@
                &&& value_of(entries@, key@) == Some(entries@[i as int].1)
            },
            None => !has_key(entries@, key@),
        },
{
    let target: String = key.to_owned();
    let n: usize = entries.len();
    let mut i: usize = 0;
    while i < n
        invariant
            n == entries@.len(),
            target@ == key@,
            i <= n,
            forall|j: int| 0 <= j < i ==> entries@[j].0@ != key@,
        decreases n - i,
    {
        if entries[i].0 == target {
            proof {
                lemma_value_at_first_match(entries@, key@, i as int);
            }
            return Some(i);
        }
        i += 1;
    }
    proof {
        lemma_has_key_index(entries@, key@);
    }
    None
}

} // verus!
