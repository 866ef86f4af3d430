//! Keys in increasing order: their places in a list, and the order of those of a map.
use std::collections::BTreeMap;
use vstd::prelude::*;
use vstd::std_specs::btree::increasing_seq;
use vstd::std_specs::cmp::OrdSpec;

verus! {

/// Every key is smaller than the keys behind it.
pub open spec fn increasing(keys: Seq<u32>) -> bool {
    forall|i: int, j: int| 0 <= i < j < keys.len() ==> #[trigger] keys[i] < #[trigger] keys[j]
}

/// The place of a key in an increasing list: behind all smaller keys.
pub open spec fn rank(keys: Seq<u32>, key: u32) -> int
    decreases keys.len(),
{
    if keys.len() == 0 || keys.last() < key {
        keys.len() as int
    } else {
        rank(keys.drop_last(), key)
    }
}

/// The list with a key in its place.
pub open spec fn with_key(keys: Seq<u32>, key: u32) -> Seq<u32> {
    if keys.contains(key) {
        keys
    } else {
        keys.insert(rank(keys, key), key)
    }
}

/// A place parts the smaller keys from the others.
pub proof fn lemma_rank(keys: Seq<u32>, key: u32)
    requires
        increasing(keys),
    ensures
        0 <= rank(keys, key) <= keys.len(),
        forall|i: int| 0 <= i < rank(keys, key) ==> #[trigger] keys[i] < key,
        forall|i: int| rank(keys, key) <= i < keys.len() ==> #[trigger] keys[i] >= key,
        keys.contains(key) <==> rank(keys, key) < keys.len() && keys[rank(keys, key)] == key,
    decreases keys.len(),
{
    if keys.len() > 0 && keys.last() >= key {
        let shorter = keys.drop_last();
        lemma_rank(shorter, key);
        let r = rank(shorter, key);
        assert forall|i: int| 0 <= i < r implies #[trigger] keys[i] < key by {
            assert(shorter[i] == keys[i]);
        }
        assert forall|i: int| r <= i < keys.len() implies #[trigger] keys[i] >= key by {
            if i < shorter.len() {
                assert(shorter[i] == keys[i]);
            }
        }
    }
    let r = rank(keys, key);
    if keys.contains(key) {
        let i = choose|i: int| 0 <= i < keys.len() && keys[i] == key;
        if r < i {
            assert(keys[r] < keys[i]);
        }
    }
}

/// A key in its place keeps the list increasing.
pub proof fn lemma_with_key(keys: Seq<u32>, key: u32)
    requires
        increasing(keys),
    ensures
        increasing(with_key(keys, key)),
        with_key(keys, key).contains(key),
        rank(with_key(keys, key), key) == rank(keys, key),
        with_key(keys, key)[rank(keys, key)] == key,
        rank(keys, key) < with_key(keys, key).len(),
        forall|other: u32|
            other != key ==> (#[trigger] with_key(keys, key).contains(other) <==> keys.contains(
                other,
            )),
{
    lemma_rank(keys, key);
    let r = rank(keys, key);
    let more = with_key(keys, key);
    if !keys.contains(key) {
        assert forall|i: int, j: int| 0 <= i < j < more.len() implies #[trigger] more[i]
            < #[trigger] more[j] by {
            let a = if i < r {
                i
            } else {
                i - 1
            };
            let b = if j < r {
                j
            } else {
                j - 1
            };
            if i != r && j != r {
                assert(keys[a] < keys[b]);
            }
        }
        assert(more[r] == key);
        assert forall|other: u32| other != key implies (#[trigger] more.contains(other)
            <==> keys.contains(other)) by {
            if keys.contains(other) {
                let i = choose|i: int| 0 <= i < keys.len() && keys[i] == other;
                if i < r {
                    assert(more[i] == other);
                } else {
                    assert(more[i + 1] == other);
                }
            }
            if more.contains(other) {
                let i = choose|i: int| 0 <= i < more.len() && more[i] == other;
                if i < r {
                    assert(keys[i] == other);
                } else {
                    assert(keys[i - 1] == other);
                }
            }
        }
    }
    lemma_rank(more, key);
    let s = rank(more, key);
    if s < r {
        assert(more[s] == keys[s]);
    }
    if r < s {
        assert(more[r] < key);
    }
}

/// A list holds the keys of a set in increasing order.
pub open spec fn orders(keys: Seq<u32>, set: Set<u32>) -> bool {
    &&& increasing(keys)
    &&& forall|key: u32| #[trigger] keys.contains(key) <==> set.contains(key)
}

/// The keys of a set in increasing order.
pub open spec fn ordered(set: Set<u32>) -> Seq<u32> {
    choose|keys: Seq<u32>| orders(keys, set)
}

/// There is but one increasing list of the same keys.
proof fn lemma_one_order(a: Seq<u32>, b: Seq<u32>)
    requires
        increasing(a),
        increasing(b),
        forall|key: u32| #[trigger] a.contains(key) <==> b.contains(key),
    ensures
        a == b,
    decreases a.len(),
{
    if a.len() == 0 {
        if b.len() > 0 {
            assert(a.contains(b[0]));
        }
        assert(a =~= b);
    } else {
        assert(a.contains(a.last()));
        assert(b.contains(a.last()));
        assert(b.contains(b.last()));
        assert(a.contains(b.last()));
        let i = choose|i: int| 0 <= i < b.len() && b[i] == a.last();
        let j = choose|j: int| 0 <= j < a.len() && a[j] == b.last();
        if i < b.len() - 1 {
            assert(b[i] < b[b.len() - 1]);
        }
        if j < a.len() - 1 {
            assert(a[j] < a[a.len() - 1]);
        }
        assert(a.last() == b.last());
        let c = a.drop_last();
        let d = b.drop_last();
        assert forall|key: u32| #[trigger] c.contains(key) <==> d.contains(key) by {
            if c.contains(key) {
                let k = choose|k: int| 0 <= k < c.len() && c[k] == key;
                assert(a[k] < a[a.len() - 1]);
                assert(a.contains(key));
                let m = choose|m: int| 0 <= m < b.len() && b[m] == key;
                assert(d[m] == key);
            }
            if d.contains(key) {
                let k = choose|k: int| 0 <= k < d.len() && d[k] == key;
                assert(b[k] < b[b.len() - 1]);
                assert(b.contains(key));
                assert(a.contains(key));
                let m = choose|m: int| 0 <= m < a.len() && a[m] == key;
                assert(c[m] == key);
            }
        }
        lemma_one_order(c, d);
        assert(a =~= c.push(a.last()));
        assert(b =~= d.push(b.last()));
    }
}

/// An increasing list of the keys of a set is the one meant.
pub proof fn lemma_ordered_is(keys: Seq<u32>, set: Set<u32>)
    requires
        orders(keys, set),
    ensures
        ordered(set) == keys,
{
    let other = ordered(set);
    assert(orders(other, set));
    assert forall|key: u32| #[trigger] keys.contains(key) <==> other.contains(key) by {
        assert(set.contains(key) <==> other.contains(key));
    }
    lemma_one_order(keys, other);
}

/// The keys of a finite set can be put in order.
pub proof fn lemma_ordered(set: Set<u32>)
    requires
        set.finite(),
    ensures
        orders(ordered(set), set),
    decreases set.len(),
{
    if set.len() == 0 {
        assert(set =~= Set::empty());
        assert(orders(seq![], set));
    } else {
        let key = set.choose();
        lemma_ordered(set.remove(key));
        lemma_with_key(ordered(set.remove(key)), key);
        let keys = with_key(ordered(set.remove(key)), key);
        assert forall|other: u32| #[trigger] keys.contains(other) <==> set.contains(other) by {
            if other != key {
                assert(keys.contains(other) <==> ordered(set.remove(key)).contains(other));
                assert(ordered(set.remove(key)).contains(other) <==> set.remove(key).contains(
                    other,
                ));
            }
        }
        assert(orders(keys, set));
    }
}

/// A key that a set gains takes its place.
pub proof fn lemma_ordered_insert(set: Set<u32>, key: u32)
    requires
        set.finite(),
    ensures
        ordered(set.insert(key)) == with_key(ordered(set), key),
{
    lemma_ordered(set);
    lemma_with_key(ordered(set), key);
    let keys = with_key(ordered(set), key);
    assert forall|other: u32| #[trigger] keys.contains(other) <==> set.insert(key).contains(
        other,
    ) by {
        if other != key {
            assert(keys.contains(other) <==> ordered(set).contains(other));
            assert(ordered(set).contains(other) <==> set.contains(other));
        }
    }
    lemma_ordered_is(keys, set.insert(key));
}

/// What a map holds, in the order of its keys.
pub open spec fn in_key_order<V: DeepView>(map: Map<u32, V>) -> Seq<V::V> {
    ordered(map.dom()).map_values(|key: u32| map[key].deep_view())
}

/// The keys of a map in order, with what the map holds for each.
pub proof fn lemma_key_order<V: DeepView>(map: Map<u32, V>, key: u32)
    requires
        map.dom().finite(),
    ensures
        increasing(ordered(map.dom())),
        in_key_order(map).len() == ordered(map.dom()).len(),
        ordered(map.dom()).contains(key) <==> map.contains_key(key),
        map.contains_key(key) ==> in_key_order(map)[rank(ordered(map.dom()), key)]
            == map[key].deep_view(),
{
    lemma_ordered(map.dom());
    lemma_rank(ordered(map.dom()), key);
}

/// A value that a map takes in stands at the place of its key, before it or instead of what was
/// there.
pub proof fn lemma_key_order_insert<V: DeepView>(map: Map<u32, V>, key: u32, value: V)
    requires
        map.dom().finite(),
    ensures
        ordered(map.insert(key, value).dom()) == with_key(ordered(map.dom()), key),
        in_key_order(map.insert(key, value)) == if map.contains_key(key) {
            in_key_order(map).update(rank(ordered(map.dom()), key), value.deep_view())
        } else {
            in_key_order(map).insert(rank(ordered(map.dom()), key), value.deep_view())
        },
{
    let keys = ordered(map.dom());
    let r = rank(keys, key);
    let after = map.insert(key, value);
    assert(after.dom() =~= map.dom().insert(key));
    lemma_ordered(map.dom());
    lemma_ordered_insert(map.dom(), key);
    lemma_rank(keys, key);
    lemma_with_key(keys, key);
    let values = in_key_order(after);
    if map.contains_key(key) {
        assert forall|i: int| 0 <= i < keys.len() && i != r implies keys[i] != key by {
            if i < r {
                assert(keys[i] < keys[r]);
            } else {
                assert(keys[r] < keys[i]);
            }
        }
        assert(values =~= in_key_order(map).update(r, value.deep_view()));
    } else {
        let wanted = in_key_order(map).insert(r, value.deep_view());
        assert(values.len() == wanted.len());
        assert forall|i: int| 0 <= i < values.len() implies values[i] == wanted[i] by {
            if i < r {
                assert(keys.contains(keys[i]));
            } else if i > r {
                assert(keys.contains(keys[i - 1]));
            }
        }
        assert(values =~= wanted);
    }
}

/// The order of `u32` is that of the numbers.
proof fn lemma_increasing(keys: Seq<u32>)
    requires
        increasing_seq(keys),
    ensures
        increasing(keys),
{
    broadcast use vstd::laws_cmp::group_laws_cmp;

    assert(vstd::laws_cmp::obeys_cmp::<u32>());
    assert forall|i: int, j: int| 0 <= i < j < keys.len() implies #[trigger] keys[i]
        < #[trigger] keys[j] by {
        assert(keys[i].cmp_spec(&keys[j]) is Less);
    }
}

/// The keys of a map in increasing order.
pub fn keys_in_order<V>(map: &BTreeMap<u32, V>) -> (res: Vec<u32>)
    ensures
        res@ == ordered(map@.dom()),
{
    let mut keys: Vec<u32> = Vec::new();
    for entry in it: map.iter()
        invariant
            keys@.len() == it.index(),
            forall|i: int| 0 <= i < keys@.len() ==> #[trigger] keys@[i] == *it.seq()[i].0,
            increasing_seq(it.seq().map_values(|entry: (&u32, &V)| *entry.0)),
            forall|i: int|
                0 <= i < it.seq().len() ==> map@.contains_key(*(#[trigger] it.seq()[i]).0),
            forall|key: u32| #[trigger]
                map@.contains_key(key) ==> it.seq().contains((&key, &map@[key])),
            increasing(keys@),
            forall|i: int| 0 <= i < keys@.len() ==> map@.contains_key(#[trigger] keys@[i]),
            forall|key: u32|
                #![trigger map@.contains_key(key)]
                map@.contains_key(key) ==> keys@.contains(key) || exists|j: int|
                    it.index() <= j < it.seq().len() && *(#[trigger] it.seq()[j]).0 == key,
    {
        let ghost before = keys@;
        keys.push(*entry.0);
        proof {
            lemma_increasing(it.seq().map_values(|entry: (&u32, &V)| *entry.0));
            assert forall|i: int| 0 <= i < before.len() implies #[trigger] before[i]
                < *entry.0 by {
                assert(it.seq().map_values(|entry: (&u32, &V)| *entry.0)[i] == before[i]);
                assert(it.seq().map_values(|entry: (&u32, &V)| *entry.0)[it.index()] == *entry.0);
            }
            assert forall|key: u32| #[trigger] map@.contains_key(key) implies keys@.contains(key)
                || exists|j: int|
                it.index() + 1 <= j < it.seq().len() && *(#[trigger] it.seq()[j]).0 == key by {
                if before.contains(key) {
                    let i = choose|i: int| 0 <= i < before.len() && before[i] == key;
                    assert(keys@[i] == key);
                } else {
                    let j = choose|j: int|
                        it.index() <= j < it.seq().len() && *(#[trigger] it.seq()[j]).0 == key;
                    if j == it.index() {
                        assert(keys@[it.index()] == key);
                    }
                }
            }
        }
    }
    proof {
        assert(orders(keys@, map@.dom()));
        lemma_ordered_is(keys@, map@.dom());
    }
    keys
}

} // verus!
