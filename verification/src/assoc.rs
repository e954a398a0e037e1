//! Lists of keys and values, in which a key stands once.
use vstd::prelude::*;

use crate::text::{copy_of, same_text};

verus! {

/// The value of the first entry with this key.
pub open spec fn value_of<K, V>(list: Seq<(K, V)>, key: K) -> Option<V>
    decreases list.len(),
{
    if list.len() == 0 {
        None
    } else if list[0].0 == key {
        Some(list[0].1)
    } else {
        value_of(list.skip(1), key)
    }
}

/// No key stands twice.
pub open spec fn distinct_keys<K, V>(list: Seq<(K, V)>) -> bool {
    forall|i: int, j: int| 0 <= i < j < list.len() ==> #[trigger] list[i].0 != #[trigger] list[j].0
}

/// The entries, with the text of each key.
pub open spec fn by_text<V>(list: Seq<(String, V)>) -> Seq<(Seq<char>, V)> {
    Seq::new(list.len(), |i: int| (list[i].0@, list[i].1))
}

/// The entry at `i` is the first with its key, so its value is the key's.
pub proof fn lemma_found<K, V>(list: Seq<(K, V)>, i: int)
    requires
        0 <= i < list.len(),
        forall|j: int| 0 <= j < i ==> #[trigger] list[j].0 != list[i].0,
    ensures
        value_of(list, list[i].0) == Some(list[i].1),
    decreases i,
{
    if i > 0 {
        let rest = list.skip(1);
        assert(list[0].0 != list[i].0);
        assert forall|j: int| 0 <= j < i - 1 implies #[trigger] rest[j].0 != rest[i - 1].0 by {
            assert(list[j + 1].0 != list[i].0);
        }
        lemma_found(rest, i - 1);
    }
}

/// A key that no entry has has no value, and the other way round.
pub proof fn lemma_absent<K, V>(list: Seq<(K, V)>, key: K)
    ensures
        value_of(list, key) is None <==> forall|j: int|
            0 <= j < list.len() ==> #[trigger] list[j].0 != key,
    decreases list.len(),
{
    if list.len() > 0 {
        let rest = list.skip(1);
        lemma_absent(rest, key);
        if value_of(list, key) is None {
            assert forall|j: int| 0 <= j < list.len() implies #[trigger] list[j].0 != key by {
                if j > 0 {
                    assert(rest[j - 1].0 != key);
                }
            }
        } else if list[0].0 != key {
            let j = choose|j: int| 0 <= j < rest.len() && #[trigger] rest[j].0 == key;
            assert(list[j + 1].0 == key);
        }
    }
}

/// To replace an entry by one with the same key leaves the other keys alone.
pub proof fn lemma_update<K, V>(list: Seq<(K, V)>, i: int, v: V)
    requires
        0 <= i < list.len(),
        distinct_keys(list),
    ensures
        ({
            let changed = list.update(i, (list[i].0, v));
            &&& distinct_keys(changed)
            &&& value_of(changed, list[i].0) == Some(v)
            &&& forall|k: K| k != list[i].0 ==> #[trigger] value_of(changed, k) == value_of(list, k)
        }),
{
    let changed = list.update(i, (list[i].0, v));
    assert forall|a: int, b: int| 0 <= a < b < changed.len() implies #[trigger] changed[a].0
        != #[trigger] changed[b].0 by {
        assert(changed[a].0 == list[a].0 && changed[b].0 == list[b].0);
    }
    lemma_found(changed, i);
    assert forall|k: K| k != list[i].0 implies #[trigger] value_of(changed, k) == value_of(
        list,
        k,
    ) by {
        lemma_update_other(list, i, v, k);
    }
}

proof fn lemma_update_other<K, V>(list: Seq<(K, V)>, i: int, v: V, k: K)
    requires
        0 <= i < list.len(),
        k != list[i].0,
    ensures
        value_of(list.update(i, (list[i].0, v)), k) == value_of(list, k),
    decreases list.len(),
{
    let changed = list.update(i, (list[i].0, v));
    if i == 0 {
        assert(changed.skip(1) =~= list.skip(1));
    } else {
        assert(changed.skip(1) =~= list.skip(1).update(i - 1, (list.skip(1)[i - 1].0, v)));
        lemma_update_other(list.skip(1), i - 1, v, k);
    }
}

/// To remove an entry takes its key away and leaves the others alone.
pub proof fn lemma_remove<K, V>(list: Seq<(K, V)>, i: int)
    requires
        0 <= i < list.len(),
        distinct_keys(list),
    ensures
        ({
            let shorter = list.remove(i);
            &&& distinct_keys(shorter)
            &&& value_of(shorter, list[i].0) is None
            &&& forall|k: K| k != list[i].0 ==> #[trigger] value_of(shorter, k) == value_of(list, k)
        }),
{
    let shorter = list.remove(i);
    assert forall|a: int, b: int| 0 <= a < b < shorter.len() implies #[trigger] shorter[a].0
        != #[trigger] shorter[b].0 by {
        let x = if a < i { a } else { a + 1 };
        let y = if b < i { b } else { b + 1 };
        assert(shorter[a] == list[x] && shorter[b] == list[y]);
    }
    lemma_absent(shorter, list[i].0);
    assert forall|j: int| 0 <= j < shorter.len() implies #[trigger] shorter[j].0 != list[i].0 by {
        let x = if j < i { j } else { j + 1 };
        assert(shorter[j] == list[x]);
        if x < i {
            assert(list[x].0 != list[i].0);
        } else {
            assert(list[i].0 != list[x].0);
        }
    }
    assert forall|k: K| k != list[i].0 implies #[trigger] value_of(shorter, k) == value_of(
        list,
        k,
    ) by {
        lemma_remove_other(list, i, k);
    }
}

proof fn lemma_remove_other<K, V>(list: Seq<(K, V)>, i: int, k: K)
    requires
        0 <= i < list.len(),
        k != list[i].0,
    ensures
        value_of(list.remove(i), k) == value_of(list, k),
    decreases list.len(),
{
    let shorter = list.remove(i);
    if i == 0 {
        assert(shorter =~= list.skip(1));
    } else {
        assert(shorter.skip(1) =~= list.skip(1).remove(i - 1));
        lemma_remove_other(list.skip(1), i - 1, k);
    }
}

/// A new entry gives its key a value and leaves the others alone.
pub proof fn lemma_push<K, V>(list: Seq<(K, V)>, key: K, v: V)
    requires
        distinct_keys(list),
        value_of(list, key) is None,
    ensures
        ({
            let longer = list.push((key, v));
            &&& distinct_keys(longer)
            &&& value_of(longer, key) == Some(v)
            &&& forall|k: K| k != key ==> #[trigger] value_of(longer, k) == value_of(list, k)
        }),
{
    let longer = list.push((key, v));
    lemma_absent(list, key);
    assert forall|a: int, b: int| 0 <= a < b < longer.len() implies #[trigger] longer[a].0
        != #[trigger] longer[b].0 by {
        assert(longer[a] == list[a]);
        assert(list[a].0 != key);
        if b < list.len() {
            assert(longer[b] == list[b]);
        }
    }
    assert forall|j: int| 0 <= j < list.len() implies #[trigger] longer[j].0
        != longer[list.len() as int].0 by {
        assert(longer[j] == list[j]);
        assert(list[j].0 != key);
    }
    lemma_found(longer, list.len() as int);
    assert forall|k: K| k != key implies #[trigger] value_of(longer, k) == value_of(list, k) by {
        lemma_push_other(list, key, v, k);
    }
}

proof fn lemma_push_other<K, V>(list: Seq<(K, V)>, key: K, v: V, k: K)
    requires
        k != key,
    ensures
        value_of(list.push((key, v)), k) == value_of(list, k),
    decreases list.len(),
{
    let longer = list.push((key, v));
    if list.len() == 0 {
        assert(longer.skip(1) =~= Seq::<(K, V)>::empty());
    } else {
        assert(longer.skip(1) =~= list.skip(1).push((key, v)));
        lemma_push_other(list.skip(1), key, v, k);
    }
}

/// Where the first entry with this key stands.
pub fn find_text<V>(list: &Vec<(String, V)>, key: &str) -> (r: Option<usize>)
    ensures
        match r {
            Some(i) => i < list@.len() && by_text(list@)[i as int].0 == key@ && value_of(
                by_text(list@),
                key@,
            ) == Some(list@[i as int].1),
            None => value_of(by_text(list@), key@) is None,
        },
{
    let mut i: usize = 0;
    while i < list.len()
        invariant
            i <= list.len(),
            forall|j: int| 0 <= j < i ==> #[trigger] by_text(list@)[j].0 != key@,
        decreases list.len() - i,
    {
        if same_text(list[i].0.as_str(), key) {
            proof {
                lemma_found(by_text(list@), i as int);
            }
            return Some(i);
        }
        i += 1;
    }
    proof {
        lemma_absent(by_text(list@), key@);
    }
    None
}

/// Where the first entry with this number stands.
pub fn find_number<V>(list: &Vec<(u128, V)>, key: u128) -> (r: Option<usize>)
    ensures
        match r {
            Some(i) => i < list@.len() && list@[i as int].0 == key && value_of(list@, key) == Some(
                list@[i as int].1,
            ),
            None => value_of(list@, key) is None,
        },
{
    let mut i: usize = 0;
    while i < list.len()
        invariant
            i <= list.len(),
            forall|j: int| 0 <= j < i ==> #[trigger] list@[j].0 != key,
        decreases list.len() - i,
    {
        if list[i].0 == key {
            proof {
                lemma_found(list@, i as int);
            }
            return Some(i);
        }
        i += 1;
    }
    proof {
        lemma_absent(list@, key);
    }
    None
}

/// Gives a key a value, in place of the one it had.
pub fn put_text<V>(list: &mut Vec<(String, V)>, key: &str, v: V)
    requires
        distinct_keys(by_text(old(list)@)),
    ensures
        distinct_keys(by_text(final(list)@)),
        value_of(by_text(final(list)@), key@) == Some(v),
        forall|k: Seq<char>|
            k != key@ ==> #[trigger] value_of(by_text(final(list)@), k) == value_of(
                by_text(old(list)@),
                k,
            ),
{
    let ghost before = by_text(list@);
    match find_text(list, key) {
        Some(i) => {
            let (name, _) = list.remove(i);
            list.insert(i, (name, v));
            proof {
                lemma_update(before, i as int, v);
                assert(by_text(list@) =~= before.update(i as int, (before[i as int].0, v)));
            }
        },
        None => {
            list.push((copy_of(key), v));
            proof {
                lemma_push(before, key@, v);
                assert(by_text(list@) =~= before.push((key@, v)));
            }
        },
    }
}

/// Takes a key and its value out.
pub fn remove_text<V>(list: &mut Vec<(String, V)>, key: &str)
    requires
        distinct_keys(by_text(old(list)@)),
    ensures
        distinct_keys(by_text(final(list)@)),
        value_of(by_text(final(list)@), key@) is None,
        forall|k: Seq<char>|
            k != key@ ==> #[trigger] value_of(by_text(final(list)@), k) == value_of(
                by_text(old(list)@),
                k,
            ),
{
    let ghost before = by_text(list@);
    if let Some(i) = find_text(list, key) {
        proof {
            lemma_remove(before, i as int);
        }
        list.remove(i);
        assert(by_text(list@) =~= before.remove(i as int));
    }
}

/// The value of a key.
pub fn get_text<'a, V>(list: &'a Vec<(String, V)>, key: &str) -> (r: Option<&'a V>)
    ensures
        match r {
            Some(v) => value_of(by_text(list@), key@) == Some(*v),
            None => value_of(by_text(list@), key@) is None,
        },
{
    match find_text(list, key) {
        Some(i) => Some(&list[i].1),
        None => None,
    }
}

} // verus!
