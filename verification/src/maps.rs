//! What the tables of this library need beyond what the standard map offers.

use crate::in_track::ascending;
use std::collections::HashMap;
use vstd::prelude::*;
use vstd::std_specs::hash::spec_keys_iter;
use vstd::std_specs::iter::IteratorSpec;

verus! {

/// The keys of a map, each once, in the order in which the map yields them.
pub fn keys_of<V>(m: &HashMap<u64, V>) -> (v: Vec<u64>)
    ensures
        v@.to_set() == m@.dom(),
        v@.no_duplicates(),
{
    broadcast use vstd::std_specs::hash::group_hash_axioms;

    let mut v: Vec<u64> = Vec::new();
    let ghost all: Seq<u64> = spec_keys_iter(m).remaining().unref();
    for k in it: m.keys()
        invariant
            v@ == it.seq().take(it.index() as int).unref(),
            it.seq().unref().to_set() == m@.dom(),
            it.seq().unref().no_duplicates(),
            all == it.seq().unref(),
            it.index() <= it.seq().len(),
    {
        v.push(*k);
    }
    assert(v@ =~= all);
    v
}

/// The keys that are marked: `keys[i]` for each `i` with `marks[i]`, in the
/// order of `keys`.
pub fn retain_marked(keys: &Vec<u64>, marks: &Vec<bool>) -> (r: Vec<u64>)
    requires
        keys@.no_duplicates(),
        marks@.len() == keys@.len(),
    ensures
        r@.no_duplicates(),
        forall|x: u64|
            r@.contains(x) <==> exists|i: int| 0 <= i < keys@.len() && keys@[i] == x && marks@[i],
{
    let mut r: Vec<u64> = Vec::new();
    let mut n: usize = 0;
    while n < keys.len()
        invariant
            n <= keys@.len(),
            keys@.no_duplicates(),
            marks@.len() == keys@.len(),
            r@.no_duplicates(),
            forall|x: u64|
                r@.contains(x) <==> exists|i: int| 0 <= i < n && keys@[i] == x && marks@[i],
        decreases keys@.len() - n,
    {
        let ghost before = r@;
        let key = keys[n];
        if marks[n] {
            assert(!before.contains(key)) by {
                if before.contains(key) {
                    let i = choose|i: int| 0 <= i < n && keys@[i] == key && marks@[i];
                    assert(keys@[i] == keys@[n as int]);
                }
            }
            r.push(key);
            assert forall|x: u64| r@.contains(x) <==> exists|i: int|
                0 <= i < n + 1 && keys@[i] == x && marks@[i] by {
                if r@.contains(x) {
                    let j = choose|j: int| 0 <= j < r@.len() && r@[j] == x;
                    if j < before.len() {
                        assert(before[j] == x);
                        assert(before.contains(x));
                        let i = choose|i: int| 0 <= i < n && keys@[i] == x && marks@[i];
                        assert(0 <= i < n + 1 && keys@[i] == x && marks@[i]);
                    } else {
                        assert(0 <= n < n + 1 && keys@[n as int] == x && marks@[n as int]);
                    }
                }
                if exists|i: int| 0 <= i < n + 1 && keys@[i] == x && marks@[i] {
                    let i = choose|i: int| 0 <= i < n + 1 && keys@[i] == x && marks@[i];
                    if i < n {
                        assert(before.contains(x));
                        let j = choose|j: int| 0 <= j < before.len() && before[j] == x;
                        assert(r@[j] == x);
                    } else {
                        assert(r@[before.len() as int] == x);
                    }
                }
            }
        } else {
            assert forall|x: u64| r@.contains(x) <==> exists|i: int|
                0 <= i < n + 1 && keys@[i] == x && marks@[i] by {
                if r@.contains(x) {
                    let i = choose|i: int| 0 <= i < n && keys@[i] == x && marks@[i];
                    assert(0 <= i < n + 1 && keys@[i] == x && marks@[i]);
                }
                if exists|i: int| 0 <= i < n + 1 && keys@[i] == x && marks@[i] {
                    let i = choose|i: int| 0 <= i < n + 1 && keys@[i] == x && marks@[i];
                    assert(i < n);
                }
            }
        }
        n += 1;
    }
    r
}

/// The numbers of `v` in ascending order.
pub fn in_ascending_order(v: &Vec<u64>) -> (r: Vec<u64>)
    requires
        v@.no_duplicates(),
    ensures
        ascending(r@),
        r@.to_set() == v@.to_set(),
{
    let mut out: Vec<u64> = Vec::new();
    let mut i: usize = 0;
    while i < v.len()
        invariant
            i <= v@.len(),
            v@.no_duplicates(),
            ascending(out@),
            out@.len() == i,
            forall|x: u64| out@.contains(x) <==> exists|k: int| 0 <= k < i && v@[k] == x,
        decreases v@.len() - i,
    {
        let x = v[i];
        let mut j: usize = 0;
        while j < out.len() && out[j] < x
            invariant
                j <= out@.len(),
                ascending(out@),
                forall|k: int| 0 <= k < j ==> out@[k] < x,
            decreases out@.len() - j,
        {
            j += 1;
        }
        let ghost before = out@;
        proof {
            if j < before.len() && before[j as int] == x {
                assert(before.contains(x));
                let k = choose|k: int| 0 <= k < i && v@[k] == x;
                assert(v@[k] == v@[i as int]);
            }
        }
        out.insert(j, x);
        proof {
            assert forall|a: int, b: int| 0 <= a < b < out@.len() implies out@[a] < out@[b] by {
                if a < j && b > j {
                    assert(out@[a] == before[a] && out@[b] == before[b - 1]);
                } else if a > j {
                    assert(out@[a] == before[a - 1] && out@[b] == before[b - 1]);
                }
            }
            assert forall|y: u64| out@.contains(y) <==> exists|k: int|
                0 <= k < i + 1 && v@[k] == y by {
                if out@.contains(y) {
                    let a = choose|a: int| 0 <= a < out@.len() && out@[a] == y;
                    if a < j {
                        assert(before[a] == y);
                        assert(before.contains(y));
                    } else if a > j {
                        assert(before[a - 1] == y);
                        assert(before.contains(y));
                    } else {
                        assert(v@[i as int] == y);
                    }
                }
                if exists|k: int| 0 <= k < i + 1 && v@[k] == y {
                    let k = choose|k: int| 0 <= k < i + 1 && v@[k] == y;
                    if k < i {
                        assert(before.contains(y));
                        let a = choose|a: int| 0 <= a < before.len() && before[a] == y;
                        if a < j {
                            assert(out@[a] == y);
                        } else {
                            assert(out@[a + 1] == y);
                        }
                    } else {
                        assert(out@[j as int] == y);
                    }
                }
            }
        }
        i += 1;
    }
    proof {
        assert forall|x: u64| out@.to_set().contains(x) <==> v@.to_set().contains(x) by {
            if v@.contains(x) {
                let k = choose|k: int| 0 <= k < v@.len() && v@[k] == x;
                assert(0 <= k < i && v@[k] == x);
            }
        }
        assert(out@.to_set() =~= v@.to_set());
    }
    out
}

} // verus!
