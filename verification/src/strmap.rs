//! A map keyed by text, kept in insertion order.
//!
//! The view is the sequence of entries. Reading finds the first entry of a key, writing replaces
//! it in place or appends, and removing drops every entry of the key. A map holds each key once.

use vstd::prelude::*;
use crate::strs::str_eq;

verus! {

/// An insertion-ordered map from text to `V`.
pub struct StrMap<V> {
    entries: Vec<(String, V)>,
}

/// The index of the first entry called `key` from `from` on; the length where there is none.
pub open spec fn at_s<T>(m: Seq<(Seq<char>, T)>, key: Seq<char>, from: int) -> int
    decreases m.len() - from,
{
    if 0 <= from < m.len() {
        if m[from].0 == key {
            from
        } else {
            at_s(m, key, from + 1)
        }
    } else {
        m.len() as int
    }
}

pub open spec fn has_s<T>(m: Seq<(Seq<char>, T)>, key: Seq<char>) -> bool {
    at_s(m, key, 0) < m.len()
}

/// The value of `key`.
pub open spec fn get_s<T>(m: Seq<(Seq<char>, T)>, key: Seq<char>) -> Option<T> {
    if has_s(m, key) {
        Some(m[at_s(m, key, 0)].1)
    } else {
        None
    }
}

/// The entries with `key` set to `value`: in place, or at the end.
pub open spec fn put_s<T>(m: Seq<(Seq<char>, T)>, key: Seq<char>, value: T) -> Seq<(Seq<char>, T)> {
    if has_s(m, key) {
        m.update(at_s(m, key, 0), (key, value))
    } else {
        m.push((key, value))
    }
}

/// The entries with `key` set to `value` unless it is set already.
pub open spec fn put_new_s<T>(m: Seq<(Seq<char>, T)>, key: Seq<char>, value: T) -> Seq<(Seq<char>, T)> {
    if has_s(m, key) {
        m
    } else {
        m.push((key, value))
    }
}

/// The entries without those of `key`.
pub open spec fn without_s<T>(m: Seq<(Seq<char>, T)>, key: Seq<char>) -> Seq<(Seq<char>, T)>
    decreases m.len(),
{
    if m.len() == 0 {
        Seq::empty()
    } else {
        let rest = without_s(m.drop_last(), key);
        if m.last().0 == key {
            rest
        } else {
            rest.push(m.last())
        }
    }
}

/// Whether no key occurs twice.
pub open spec fn distinct_s<T>(m: Seq<(Seq<char>, T)>) -> bool {
    forall|i: int, j: int| 0 <= i < j < m.len() ==> (#[trigger] m[i]).0 != (#[trigger] m[j]).0
}

pub proof fn lemma_at<T>(m: Seq<(Seq<char>, T)>, key: Seq<char>, from: int)
    requires
        0 <= from <= m.len(),
    ensures
        from <= at_s(m, key, from) <= m.len(),
        at_s(m, key, from) < m.len() ==> m[at_s(m, key, from)].0 == key,
        forall|i: int| from <= i < at_s(m, key, from) ==> (#[trigger] m[i]).0 != key,
    decreases m.len() - from,
{
    if from < m.len() && m[from].0 != key {
        lemma_at(m, key, from + 1);
    }
}

/// The index that `at_s` finds is determined by what it says of it.
pub proof fn lemma_at_is<T>(m: Seq<(Seq<char>, T)>, key: Seq<char>, at: int)
    requires
        0 <= at <= m.len(),
        forall|i: int| 0 <= i < at ==> (#[trigger] m[i]).0 != key,
        at < m.len() ==> m[at].0 == key,
    ensures
        at_s(m, key, 0) == at,
{
    lemma_at(m, key, 0);
    let x = at_s(m, key, 0);
    if x < at {
        assert(m[x].0 == key);
    }
    if at < x {
        assert(m[at].0 != key);
    }
}

/// What was put under a key is read back, and every other key reads as before.
pub proof fn law_put_then_get<T>(m: Seq<(Seq<char>, T)>, key: Seq<char>, value: T, other: Seq<char>)
    ensures
        get_s(put_s(m, key, value), key) == Some(value),
        other != key ==> get_s(put_s(m, key, value), other) == get_s(m, other),
{
    lemma_at(m, key, 0);
    lemma_at(m, other, 0);
    let p = put_s(m, key, value);
    lemma_at_is(p, key, at_s(m, key, 0));
    if other != key {
        let o = at_s(m, other, 0);
        if o < m.len() {
            lemma_at_is(p, other, o);
        } else {
            lemma_at_is(p, other, p.len() as int);
        }
    }
}

/// Putting keeps keys distinct.
pub proof fn lemma_put_distinct<T>(m: Seq<(Seq<char>, T)>, key: Seq<char>, value: T)
    requires
        distinct_s(m),
    ensures
        distinct_s(put_s(m, key, value)),
{
    lemma_at(m, key, 0);
}

proof fn lemma_without<T>(m: Seq<(Seq<char>, T)>, key: Seq<char>)
    ensures
        forall|i: int| 0 <= i < without_s(m, key).len() ==> (#[trigger] without_s(m, key)[i]).0
            != key && exists|j: int| 0 <= j < m.len() && m[j] == without_s(m, key)[i],
        distinct_s(m) ==> distinct_s(without_s(m, key)),
    decreases m.len(),
{
    if m.len() > 0 {
        let rest = without_s(m.drop_last(), key);
        lemma_without(m.drop_last(), key);
        assert forall|i: int| 0 <= i < without_s(m, key).len() implies (#[trigger] without_s(m, key)[i]).0
            != key && exists|j: int| 0 <= j < m.len() && m[j] == without_s(m, key)[i] by {
            if i < rest.len() {
                assert(without_s(m, key)[i] == rest[i]);
                let j = choose|j: int| 0 <= j < m.drop_last().len() && m.drop_last()[j] == rest[i];
                assert(m[j] == rest[i]);
            } else {
                assert(m[m.len() - 1] == without_s(m, key)[i]);
            }
        }
        if distinct_s(m) {
            assert forall|i: int, j: int| 0 <= i < j < m.drop_last().len() implies (
            #[trigger] m.drop_last()[i]).0 != (#[trigger] m.drop_last()[j]).0 by {
                assert(m[i].0 != m[j].0);
            }
            let w = without_s(m, key);
            assert forall|i: int, j: int| 0 <= i < j < w.len() implies (#[trigger] w[i]).0 != (
            #[trigger] w[j]).0 by {
                assert(w[i] == rest[i]);
                let k = choose|k: int| 0 <= k < m.drop_last().len() && m.drop_last()[k] == rest[i];
                assert(m[k] == w[i]);
                if j < rest.len() {
                    assert(w[j] == rest[j]);
                } else {
                    assert(w[j] == m[m.len() - 1]);
                }
            }
        }
    }
}

/// A removed key reads as unset.
pub proof fn law_without_then_get<T>(m: Seq<(Seq<char>, T)>, key: Seq<char>)
    ensures
        get_s(without_s(m, key), key) is None,
{
    lemma_without(m, key);
    lemma_at(without_s(m, key), key, 0);
}

proof fn lemma_at_prefix<T>(m: Seq<(Seq<char>, T)>, key: Seq<char>)
    requires
        m.len() > 0,
    ensures
        has_s(m.drop_last(), key) ==> get_s(m, key) == get_s(m.drop_last(), key),
        !has_s(m.drop_last(), key) ==> get_s(m, key) == (if m.last().0 == key {
            Some(m.last().1)
        } else {
            None
        }),
{
    let h = m.drop_last();
    lemma_at(h, key, 0);
    let k = at_s(h, key, 0);
    assert forall|i: int| 0 <= i < k implies (#[trigger] m[i]).0 != key by {
        assert(h[i] == m[i]);
    }
    if k < h.len() {
        assert(m[k] == h[k]);
        lemma_at_is(m, key, k);
    } else if m.last().0 == key {
        lemma_at_is(m, key, m.len() - 1);
    } else {
        lemma_at_is(m, key, m.len() as int);
    }
}

/// Removing a key leaves every other one, and does nothing where the key is not set.
pub proof fn law_without_keeps_the_others<T>(m: Seq<(Seq<char>, T)>, key: Seq<char>, other: Seq<char>)
    ensures
        other != key ==> get_s(without_s(m, key), other) == get_s(m, other),
        !has_s(m, key) ==> without_s(m, key) == m,
    decreases m.len(),
{
    if m.len() > 0 {
        let h = m.drop_last();
        law_without_keeps_the_others(h, key, other);
        lemma_at_prefix(m, other);
        lemma_at_prefix(m, key);
        let w = without_s(m, key);
        if m.last().0 != key {
            assert(w.drop_last() =~= without_s(h, key));
            lemma_at_prefix(w, other);
            if !has_s(m, key) {
                assert(h.push(m.last()) =~= m);
            }
        } else if other != key {
            assert(w == without_s(h, key));
        }
    }
}

/// Putting what is already there does nothing.
pub proof fn law_put_again_changes_nothing<T>(m: Seq<(Seq<char>, T)>, key: Seq<char>, value: T)
    requires
        get_s(m, key) == Some(value),
    ensures
        put_s(m, key, value) == m,
{
    lemma_at(m, key, 0);
    assert(put_s(m, key, value) =~= m);
}

/// What is put where nothing is reads back; every other key reads as before.
pub proof fn law_put_new_then_get<T>(m: Seq<(Seq<char>, T)>, key: Seq<char>, value: T, other: Seq<char>)
    ensures
        get_s(put_new_s(m, key, value), key) == (if has_s(m, key) {
            get_s(m, key)
        } else {
            Some(value)
        }),
        other != key ==> get_s(put_new_s(m, key, value), other) == get_s(m, other),
{
    if !has_s(m, key) {
        law_put_then_get(m, key, value, other);
    }
}

/// The value of a list of entries.
pub open spec fn entries_s<V: View>(v: Seq<(String, V)>) -> Seq<(Seq<char>, V::V)> {
    Seq::new(v.len(), |i: int| (v[i].0@, v[i].1@))
}

impl<V: View> View for StrMap<V> {
    type V = Seq<(Seq<char>, V::V)>;

    closed spec fn view(&self) -> Seq<(Seq<char>, V::V)> {
        entries_s(self.entries@)
    }
}

impl<V> StrMap<V> {
    /// No key occurs twice.
    #[verifier::type_invariant]
    pub closed spec fn each_key_once(&self) -> bool {
        forall|i: int, j: int|
            0 <= i < j < self.entries@.len() ==> (#[trigger] self.entries@[i]).0@ != (
            #[trigger] self.entries@[j]).0@
    }
}

/// No key of a map occurs twice.
pub proof fn lemma_each_key_once<V: View>(m: &StrMap<V>)
    requires
        m.each_key_once(),
    ensures
        distinct_s(m@),
{
    assert forall|i: int, j: int| 0 <= i < j < m@.len() implies (#[trigger] m@[i]).0 != (
    #[trigger] m@[j]).0 by {
        assert(m.entries@[i].0@ != m.entries@[j].0@);
    }
}

/// Entries whose keys are distinct are those of a map.
proof fn lemma_keys_apart<V: View>(v: Seq<(String, V)>)
    requires
        distinct_s(entries_s(v)),
    ensures
        forall|i: int, j: int|
            0 <= i < j < v.len() ==> (#[trigger] v[i]).0@ != (#[trigger] v[j]).0@,
{
    let w = entries_s(v);
    assert forall|i: int, j: int| 0 <= i < j < v.len() implies (#[trigger] v[i]).0@ != (
    #[trigger] v[j]).0@ by {
        assert(w[i].0 != w[j].0);
    }
}

impl<V: View> StrMap<V> {
    pub fn new() -> (r: Self)
        ensures
            r@ == Seq::<(Seq<char>, V::V)>::empty(),
    {
        let r = StrMap { entries: Vec::new() };
        assert(r@ =~= Seq::<(Seq<char>, V::V)>::empty());
        r
    }

    pub fn len(&self) -> (r: usize)
        ensures
            r == self@.len(),
    {
        self.entries.len()
    }

    fn index_of(&self, key: &str) -> (r: usize)
        ensures
            r == at_s(self@, key@, 0),
            r <= self.entries@.len(),
    {
        let mut i: usize = 0;
        while i < self.entries.len()
            invariant
                i <= self.entries@.len(),
                at_s(self@, key@, 0) == at_s(self@, key@, i as int),
            decreases self.entries@.len() - i,
        {
            assert(self@[i as int].0 == self.entries@[i as int].0@);
            if str_eq(self.entries[i].0.as_str(), key) {
                return i;
            }
            i = i + 1;
        }
        i
    }

    /// The value of `key`.
    pub fn get(&self, key: &str) -> (r: Option<&V>)
        ensures
            r matches Some(v) ==> get_s(self@, key@) == Some(v@),
            r is None ==> get_s(self@, key@) is None,
    {
        let i = self.index_of(key);
        if i < self.entries.len() {
            assert(self@[i as int].1 == self.entries@[i as int].1@);
            Some(&self.entries[i].1)
        } else {
            None
        }
    }

    pub fn contains_key(&self, key: &str) -> (r: bool)
        ensures
            r == has_s(self@, key@),
    {
        self.index_of(key) < self.entries.len()
    }

    /// The entries, taken out of the map.
    fn take(&mut self) -> (r: Vec<(String, V)>)
        ensures
            entries_s(r@) == old(self)@,
            distinct_s(entries_s(r@)),
    {
        proof {
            use_type_invariant(&*self);
            lemma_each_key_once(&*self);
        }
        let mut v: Vec<(String, V)> = Vec::new();
        std::mem::swap(&mut v, &mut self.entries);
        v
    }

    /// Set `key` to `value`.
    pub fn insert(&mut self, key: &str, value: V)
        ensures
            final(self)@ == put_s(old(self)@, key@, value@),
    {
        let i = self.index_of(key);
        let ghost was = self@;
        let ghost x = value@;
        let mut v = self.take();
        if i < v.len() {
            v.set(i, (key.to_string(), value));
            assert(entries_s(v@) =~= was.update(i as int, (key@, x)));
        } else {
            v.push((key.to_string(), value));
            assert(entries_s(v@) =~= was.push((key@, x)));
        }
        proof {
            lemma_put_distinct(was, key@, x);
            lemma_keys_apart(v@);
        }
        self.entries = v;
    }

    /// Set `key` to `value` unless it is set already.
    pub fn insert_new(&mut self, key: &str, value: V)
        ensures
            final(self)@ == put_new_s(old(self)@, key@, value@),
    {
        if !self.contains_key(key) {
            self.insert(key, value);
        }
    }

    /// Drop `key`.
    pub fn remove(&mut self, key: &str)
        ensures
            final(self)@ == without_s(old(self)@, key@),
    {
        let ghost was = self@;
        let mut v = self.take();
        let mut i: usize = 0;
        let mut done: Ghost<int> = Ghost(0);
        assert(entries_s(v@).subrange(0, 0) =~= without_s(was.subrange(0, 0), key@));
        assert(entries_s(v@).subrange(0, was.len() as int) =~= was.subrange(0, was.len() as int));
        while i < v.len()
            invariant
                i <= v@.len(),
                0 <= done@ <= was.len(),
                v@.len() == i + (was.len() - done@),
                entries_s(v@).subrange(0, i as int) == without_s(was.subrange(0, done@), key@),
                entries_s(v@).subrange(i as int, v@.len() as int) == was.subrange(
                    done@,
                    was.len() as int,
                ),
            decreases was.len() - done@,
        {
            let ghost d = done@;
            let ghost cur = entries_s(v@);
            proof {
                assert(cur[i as int] == cur.subrange(i as int, cur.len() as int)[0]);
                assert(cur[i as int] == was[d]);
                assert(was.subrange(0, d + 1).drop_last() =~= was.subrange(0, d));
                assert(was.subrange(0, d + 1).last() == was[d]);
            }
            if str_eq(v[i].0.as_str(), key) {
                v.remove(i);
                proof {
                    let now = entries_s(v@);
                    assert(now =~= cur.remove(i as int));
                    assert(now.subrange(0, i as int) =~= cur.subrange(0, i as int));
                    assert(now.subrange(i as int, now.len() as int) =~= was.subrange(
                        d + 1,
                        was.len() as int,
                    )) by {
                        assert forall|k: int| 0 <= k < was.len() - d - 1 implies now.subrange(
                            i as int,
                            now.len() as int,
                        )[k] == was.subrange(d + 1, was.len() as int)[k] by {
                            assert(cur.subrange(i as int, cur.len() as int)[k + 1] == was.subrange(
                                d,
                                was.len() as int,
                            )[k + 1]);
                        }
                    }
                }
            } else {
                i = i + 1;
                proof {
                    assert(cur.subrange(0, i as int) =~= cur.subrange(0, i - 1).push(was[d]));
                    assert(cur.subrange(i as int, cur.len() as int) =~= was.subrange(
                        d + 1,
                        was.len() as int,
                    )) by {
                        assert forall|k: int| 0 <= k < was.len() - d - 1 implies cur.subrange(
                            i as int,
                            cur.len() as int,
                        )[k] == was.subrange(d + 1, was.len() as int)[k] by {
                            assert(cur.subrange(i - 1, cur.len() as int)[k + 1] == was.subrange(
                                d,
                                was.len() as int,
                            )[k + 1]);
                        }
                    }
                }
            }
            proof {
                done@ = d + 1;
            }
        }
        proof {
            let now = entries_s(v@);
            assert(now.subrange(0, i as int) =~= now);
            assert(done@ == was.len());
            assert(was.subrange(0, done@) =~= was);
            lemma_without(was, key@);
            lemma_keys_apart(v@);
        }
        self.entries = v;
    }

    /// The key of entry `i`.
    pub fn key_at(&self, i: usize) -> (r: &str)
        requires
            i < self@.len(),
        ensures
            r@ == self@[i as int].0,
    {
        self.entries[i].0.as_str()
    }

    /// The value of entry `i`.
    pub fn value_at(&self, i: usize) -> (r: &V)
        requires
            i < self@.len(),
        ensures
            r@ == self@[i as int].1,
    {
        &self.entries[i].1
    }
}

} // verus!
