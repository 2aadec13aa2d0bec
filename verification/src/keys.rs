//! The keys of a map in ascending order.

use std::collections::HashMap;
use vstd::prelude::*;

verus! {

broadcast use vstd::std_specs::hash::group_hash_axioms;

/// Whether each number is greater than the one before it.
pub open spec fn ascending_s(v: Seq<i32>) -> bool {
    forall|i: int, j: int| 0 <= i < j < v.len() ==> v[i] < v[j]
}

/// Whether these are the keys of a map, in ascending order.
pub open spec fn keys_in_order_s<V>(m: Map<i32, V>, ids: Seq<i32>) -> bool {
    ascending_s(ids) && forall|k: i32| #[trigger] m.contains_key(k) <==> ids.contains(k)
}

/// Where a number belongs among ascending ones.
fn place(v: &Vec<i32>, x: i32) -> (r: usize)
    ensures
        r <= v@.len(),
        forall|i: int| 0 <= i < r ==> v@[i] < x,
        r < v@.len() ==> x <= v@[r as int],
{
    let mut at: usize = 0;
    while at < v.len()
        invariant
            at <= v@.len(),
            forall|i: int| 0 <= i < at ==> v@[i] < x,
        decreases v@.len() - at,
    {
        if x <= v[at] {
            return at;
        }
        at = at + 1;
    }
    at
}

/// The keys of a map, in ascending order.
pub fn sorted_keys<V>(m: &HashMap<i32, V>) -> (r: Vec<i32>)
    ensures
        keys_in_order_s(m@, r@),
        r@.len() == m@.len(),
{
    let mut out: Vec<i32> = Vec::new();
    for k in it: m.keys()
        invariant
            ascending_s(out@),
            out@.len() == it.index(),
            forall|x: i32| #[trigger] out@.contains(x) <==> it.seq().unref().take(it.index()).contains(x),
            it.seq().unref().to_set() == m@.dom(),
            it.seq().no_duplicates(),
            it.seq().len() == m@.len(),
            it.index() == it.seq().len() ==> forall|x: i32| #[trigger]
                m@.contains_key(x) <==> out@.contains(x),
    {
        let ghost all = it.seq().unref();
        let ghost i = it.index();
        let ghost was = out@;
        assert(all[i] == *k);
        assert(!was.contains(*k)) by {
            if was.contains(*k) {
                assert(all.take(i).contains(*k));
                let j = choose|j: int| 0 <= j < i && all.take(i)[j] == *k;
                assert(it.seq()[j] == it.seq()[i]);
            }
        }
        let at = place(&out, *k);
        out.insert(at, *k);
        proof {
            assert(all.take(i + 1) =~= all.take(i).push(*k));
            lemma_inserted(was, at as int, *k);
            assert forall|x: i32| #[trigger] out@.contains(x) <==> all.take(i + 1).contains(x) by {
                assert(out@.contains(x) <==> was.contains(x) || x == *k);
                lemma_pushed(all.take(i), *k, x);
            }
            assert(i + 1 == all.len() ==> all.take(i + 1) =~= all);
            assert forall|x: i32| i + 1 == all.len() implies (#[trigger] m@.contains_key(x)
                <==> out@.contains(x)) by {
                assert(m@.contains_key(x) <==> all.to_set().contains(x));
                assert(out@.contains(x) <==> all.take(i + 1).contains(x));
            }
        }
    }
    out
}

proof fn lemma_pushed(v: Seq<i32>, x: i32, y: i32)
    ensures
        v.push(x).contains(y) <==> v.contains(y) || x == y,
{
    let w = v.push(x);
    if v.contains(y) {
        let i = choose|i: int| 0 <= i < v.len() && v[i] == y;
        assert(w[i] == y);
    }
    if x == y {
        assert(w[v.len() as int] == y);
    }
    if w.contains(y) {
        let i = choose|i: int| 0 <= i < w.len() && w[i] == y;
        if i < v.len() {
            assert(v[i] == y);
        }
    }
}

proof fn lemma_inserted(v: Seq<i32>, at: int, x: i32)
    requires
        0 <= at <= v.len(),
        ascending_s(v),
        !v.contains(x),
        forall|i: int| 0 <= i < at ==> v[i] < x,
        at < v.len() ==> x <= v[at],
    ensures
        ascending_s(v.insert(at, x)),
        forall|y: i32| #[trigger] v.insert(at, x).contains(y) <==> v.contains(y) || x == y,
{
    let w = v.insert(at, x);
    if at < v.len() {
        assert(v.contains(v[at]));
    }
    assert forall|i: int, j: int| 0 <= i < j < w.len() implies w[i] < w[j] by {
        let a = if i < at {
            i
        } else {
            i - 1
        };
        let b = if j < at {
            j
        } else {
            j - 1
        };
        if i != at && j != at {
            assert(v[a] < v[b]);
        } else if i == at {
            if b > at {
                assert(v[at] < v[b]);
            }
        }
    }
    assert forall|y: i32| #[trigger] w.contains(y) <==> v.contains(y) || x == y by {
        if v.contains(y) {
            let i = choose|i: int| 0 <= i < v.len() && v[i] == y;
            assert(w[if i < at { i } else { i + 1 }] == y);
        }
        if x == y {
            assert(w[at] == y);
        }
        if w.contains(y) {
            let i = choose|i: int| 0 <= i < w.len() && w[i] == y;
            if i != at {
                assert(v[if i < at { i } else { i - 1 }] == y);
            }
        }
    }
}

} // verus!
