//! Association lists: the verified building block behind every cache table.
//!
//! Each cache table is a vector of key/value pairs read and written through
//! `get`/`set` pairs whose contracts speak of `assoc`, the first value paired
//! with a key.  `set` replaces the first binding or appends a fresh one, so a
//! table that starts without duplicate keys never acquires any.

use vstd::prelude::*;

verus! {

// ---------------------------------------------------------------- String keys
/// First value bound to the key, by string view.
pub open spec fn assoc_s<V: View>(s: Seq<(String, V)>, key: Seq<char>) -> Option<V::V>
    decreases s.len(),
{
    if s.len() == 0 {
        None
    } else if s[0].0@ == key {
        Some(s[0].1@)
    } else {
        assoc_s(s.drop_first(), key)
    }
}

/// No two entries share a key.
pub open spec fn distinct_s<V>(s: Seq<(String, V)>) -> bool {
    forall|i: int, j: int| 0 <= i < j < s.len() ==> s[i].0@ != s[j].0@
}

pub proof fn lemma_assoc_s_skip<V: View>(s: Seq<(String, V)>, i: int, key: Seq<char>)
    requires
        0 <= i <= s.len(),
        forall|j: int| 0 <= j < i ==> s[j].0@ != key,
    ensures
        assoc_s(s, key) == assoc_s(s.skip(i), key),
    decreases i,
{
    if i > 0 {
        lemma_assoc_s_skip(s.drop_first(), i - 1, key);
        assert(s.drop_first().skip(i - 1) =~= s.skip(i));
    } else {
        assert(s.skip(0) =~= s);
    }
}

pub proof fn lemma_assoc_s_update<V: View>(s: Seq<(String, V)>, i: int, p: (String, V))
    requires
        0 <= i < s.len(),
        s[i].0@ == p.0@,
        forall|j: int| 0 <= j < i ==> s[j].0@ != p.0@,
    ensures
        forall|k: Seq<char>| #![auto]
            assoc_s(s.update(i, p), k) == (if k == p.0@ {
                Some(p.1@)
            } else {
                assoc_s(s, k)
            }),
    decreases i,
{
    let t = s.update(i, p);
    if i == 0 {
        assert(t.drop_first() =~= s.drop_first());
        assert forall|k: Seq<char>|
            assoc_s(t, k) == (if k == p.0@ {
                Some(p.1@)
            } else {
                assoc_s(s, k)
            }) by {
            if k != p.0@ {
                assert(assoc_s(t, k) == assoc_s(t.drop_first(), k));
                assert(assoc_s(s, k) == assoc_s(s.drop_first(), k));
            }
        }
    } else {
        lemma_assoc_s_update(s.drop_first(), i - 1, p);
        assert(t.drop_first() =~= s.drop_first().update(i - 1, p));
        assert(t[0] == s[0]);
        assert forall|k: Seq<char>|
            assoc_s(t, k) == (if k == p.0@ {
                Some(p.1@)
            } else {
                assoc_s(s, k)
            }) by {
            if s[0].0@ != k {
                assert(assoc_s(t, k) == assoc_s(t.drop_first(), k));
                assert(assoc_s(t.drop_first(), k) == assoc_s(
                    s.drop_first().update(i - 1, p),
                    k,
                ));
                assert(assoc_s(s, k) == assoc_s(s.drop_first(), k));
            }
        }
    }
}

pub proof fn lemma_assoc_s_push<V: View>(s: Seq<(String, V)>, p: (String, V))
    requires
        forall|j: int| 0 <= j < s.len() ==> s[j].0@ != p.0@,
    ensures
        forall|k: Seq<char>| #![auto]
            assoc_s(s.push(p), k) == (if k == p.0@ {
                Some(p.1@)
            } else {
                assoc_s(s, k)
            }),
    decreases s.len(),
{
    let t = s.push(p);
    if s.len() == 0 {
        assert(t.drop_first() =~= Seq::<(String, V)>::empty());
        assert(t[0] == p);
        assert forall|k: Seq<char>|
            assoc_s(t, k) == (if k == p.0@ {
                Some(p.1@)
            } else {
                assoc_s(s, k)
            }) by {
            if k != p.0@ {
                assert(assoc_s(t, k) == assoc_s(t.drop_first(), k));
                assert(assoc_s(t.drop_first(), k) == None::<V::V>);
            }
        }
    } else {
        lemma_assoc_s_push(s.drop_first(), p);
        assert(t.drop_first() =~= s.drop_first().push(p));
        assert(t[0] == s[0]);
        assert forall|k: Seq<char>|
            assoc_s(t, k) == (if k == p.0@ {
                Some(p.1@)
            } else {
                assoc_s(s, k)
            }) by {
            if s[0].0@ != k {
                assert(assoc_s(t, k) == assoc_s(t.drop_first(), k));
                assert(assoc_s(t.drop_first(), k) == assoc_s(s.drop_first().push(p), k));
                assert(assoc_s(s, k) == assoc_s(s.drop_first(), k));
            }
        }
    }
}

/// Reference to the first value bound to the key.
pub fn get_s<'a, V: View>(v: &'a Vec<(String, V)>, key: &String) -> (r: Option<&'a V>)
    ensures
        match r {
            Some(x) => assoc_s(v@, key@) == Some(x@),
            None => assoc_s(v@, key@) == None::<V::V>,
        },
{
    let mut i: usize = 0;
    while i < v.len()
        invariant
            0 <= i <= v@.len(),
            forall|j: int| 0 <= j < i ==> v@[j].0@ != key@,
        decreases v@.len() - i,
    {
        if v[i].0 == *key {
            proof {
                lemma_assoc_s_skip(v@, i as int, key@);
                assert(v@.skip(i as int)[0] == v@[i as int]);
            }
            return Some(&v[i].1);
        }
        i += 1;
    }
    proof {
        lemma_assoc_s_skip(v@, v@.len() as int, key@);
        assert(v@.skip(v@.len() as int) =~= Seq::<(String, V)>::empty());
    }
    None
}

/// Binds the key to the value, replacing the first binding or appending one.
pub fn set_s<V: View>(v: &mut Vec<(String, V)>, key: &String, val: V)
    ensures
        forall|k: Seq<char>| #![auto]
            assoc_s(final(v)@, k) == (if k == key@ {
                Some(val@)
            } else {
                assoc_s(old(v)@, k)
            }),
        distinct_s(old(v)@) ==> distinct_s(final(v)@),
        final(v)@.len() <= old(v)@.len() + 1,
        forall|j: int| #![auto]
            0 <= j < final(v)@.len() && j < old(v)@.len() ==> final(v)@[j].0@
                == old(v)@[j].0@,
        final(v)@.len() > old(v)@.len() ==> final(v)@[old(v)@.len() as int].0@ == key@,
        forall|j: int| #![auto]
            0 <= j < final(v)@.len() ==> ((j < old(v)@.len() && final(v)@[j] == old(v)@[j]) || (
            final(v)@[j].0@ == key@ && final(v)@[j].1@ == val@)),
{
    let mut i: usize = 0;
    while i < v.len()
        invariant
            0 <= i <= v@.len(),
            v@ == old(v)@,
            forall|j: int| 0 <= j < i ==> v@[j].0@ != key@,
        decreases v@.len() - i,
    {
        if v[i].0 == *key {
            let ghost olds = v@;
            let _ = v.remove(i);
            v.insert(i, (key.clone(), val));
            proof {
                assert(v@ =~= olds.update(i as int, v@[i as int]));
                assert(v@[i as int].0@ == key@);
                lemma_assoc_s_update(olds, i as int, v@[i as int]);
                assert(forall|j: int| #![auto]
                    0 <= j < v@.len() ==> v@[j].0@ == olds[j].0@);
                if distinct_s(olds) {
                    assert forall|a: int, b: int|
                        0 <= a < b < v@.len() implies v@[a].0@ != v@[b].0@ by {
                        assert(olds[a].0@ != olds[b].0@);
                    }
                }
            }
            return;
        }
        i += 1;
    }
    let ghost olds = v@;
    v.push((key.clone(), val));
    proof {
        assert(v@ =~= olds.push(v@[olds.len() as int]));
        assert(v@[olds.len() as int].0@ == key@);
        lemma_assoc_s_push(olds, v@[olds.len() as int]);
        if distinct_s(olds) {
            assert forall|a: int, b: int|
                0 <= a < b < v@.len() implies v@[a].0@ != v@[b].0@ by {
                if b < olds.len() {
                    assert(olds[a].0@ != olds[b].0@);
                } else {
                    assert(olds[a].0@ != key@);
                }
            }
        }
    }
}

// ------------------------------------------------------------------ u32 keys
/// First value bound to the numeric key.
pub open spec fn assoc_u<V: View>(s: Seq<(u32, V)>, key: u32) -> Option<V::V>
    decreases s.len(),
{
    if s.len() == 0 {
        None
    } else if s[0].0 == key {
        Some(s[0].1@)
    } else {
        assoc_u(s.drop_first(), key)
    }
}

/// No two entries share a key.
pub open spec fn distinct_u<V>(s: Seq<(u32, V)>) -> bool {
    forall|i: int, j: int| 0 <= i < j < s.len() ==> s[i].0 != s[j].0
}

pub proof fn lemma_assoc_u_skip<V: View>(s: Seq<(u32, V)>, i: int, key: u32)
    requires
        0 <= i <= s.len(),
        forall|j: int| 0 <= j < i ==> s[j].0 != key,
    ensures
        assoc_u(s, key) == assoc_u(s.skip(i), key),
    decreases i,
{
    if i > 0 {
        lemma_assoc_u_skip(s.drop_first(), i - 1, key);
        assert(s.drop_first().skip(i - 1) =~= s.skip(i));
    } else {
        assert(s.skip(0) =~= s);
    }
}

pub proof fn lemma_assoc_u_update<V: View>(s: Seq<(u32, V)>, i: int, p: (u32, V))
    requires
        0 <= i < s.len(),
        s[i].0 == p.0,
        forall|j: int| 0 <= j < i ==> s[j].0 != p.0,
    ensures
        forall|k: u32| #![auto]
            assoc_u(s.update(i, p), k) == (if k == p.0 {
                Some(p.1@)
            } else {
                assoc_u(s, k)
            }),
    decreases i,
{
    let t = s.update(i, p);
    if i == 0 {
        assert(t.drop_first() =~= s.drop_first());
        assert forall|k: u32|
            assoc_u(t, k) == (if k == p.0 {
                Some(p.1@)
            } else {
                assoc_u(s, k)
            }) by {
            if k != p.0 {
                assert(assoc_u(t, k) == assoc_u(t.drop_first(), k));
                assert(assoc_u(s, k) == assoc_u(s.drop_first(), k));
            }
        }
    } else {
        lemma_assoc_u_update(s.drop_first(), i - 1, p);
        assert(t.drop_first() =~= s.drop_first().update(i - 1, p));
        assert(t[0] == s[0]);
        assert forall|k: u32|
            assoc_u(t, k) == (if k == p.0 {
                Some(p.1@)
            } else {
                assoc_u(s, k)
            }) by {
            if s[0].0 != k {
                assert(assoc_u(t, k) == assoc_u(t.drop_first(), k));
                assert(assoc_u(t.drop_first(), k) == assoc_u(
                    s.drop_first().update(i - 1, p),
                    k,
                ));
                assert(assoc_u(s, k) == assoc_u(s.drop_first(), k));
            }
        }
    }
}

pub proof fn lemma_assoc_u_push<V: View>(s: Seq<(u32, V)>, p: (u32, V))
    requires
        forall|j: int| 0 <= j < s.len() ==> s[j].0 != p.0,
    ensures
        forall|k: u32| #![auto]
            assoc_u(s.push(p), k) == (if k == p.0 {
                Some(p.1@)
            } else {
                assoc_u(s, k)
            }),
    decreases s.len(),
{
    let t = s.push(p);
    if s.len() == 0 {
        assert(t.drop_first() =~= Seq::<(u32, V)>::empty());
        assert(t[0] == p);
        assert forall|k: u32|
            assoc_u(t, k) == (if k == p.0 {
                Some(p.1@)
            } else {
                assoc_u(s, k)
            }) by {
            if k != p.0 {
                assert(assoc_u(t, k) == assoc_u(t.drop_first(), k));
                assert(assoc_u(t.drop_first(), k) == None::<V::V>);
            }
        }
    } else {
        lemma_assoc_u_push(s.drop_first(), p);
        assert(t.drop_first() =~= s.drop_first().push(p));
        assert(t[0] == s[0]);
        assert forall|k: u32|
            assoc_u(t, k) == (if k == p.0 {
                Some(p.1@)
            } else {
                assoc_u(s, k)
            }) by {
            if s[0].0 != k {
                assert(assoc_u(t, k) == assoc_u(t.drop_first(), k));
                assert(assoc_u(t.drop_first(), k) == assoc_u(s.drop_first().push(p), k));
                assert(assoc_u(s, k) == assoc_u(s.drop_first(), k));
            }
        }
    }
}

/// Reference to the first value bound to the numeric key.
pub fn get_u<'a, V: View>(v: &'a Vec<(u32, V)>, key: u32) -> (r: Option<&'a V>)
    ensures
        match r {
            Some(x) => assoc_u(v@, key) == Some(x@),
            None => assoc_u(v@, key) == None::<V::V>,
        },
{
    let mut i: usize = 0;
    while i < v.len()
        invariant
            0 <= i <= v@.len(),
            forall|j: int| 0 <= j < i ==> v@[j].0 != key,
        decreases v@.len() - i,
    {
        if v[i].0 == key {
            proof {
                lemma_assoc_u_skip(v@, i as int, key);
                assert(v@.skip(i as int)[0] == v@[i as int]);
            }
            return Some(&v[i].1);
        }
        i += 1;
    }
    proof {
        lemma_assoc_u_skip(v@, v@.len() as int, key);
        assert(v@.skip(v@.len() as int) =~= Seq::<(u32, V)>::empty());
    }
    None
}

/// Binds the numeric key to the value.
pub fn set_u<V: View>(v: &mut Vec<(u32, V)>, key: u32, val: V)
    ensures
        forall|k: u32| #![auto]
            assoc_u(final(v)@, k) == (if k == key {
                Some(val@)
            } else {
                assoc_u(old(v)@, k)
            }),
        distinct_u(old(v)@) ==> distinct_u(final(v)@),
        final(v)@.len() <= old(v)@.len() + 1,
{
    let mut i: usize = 0;
    while i < v.len()
        invariant
            0 <= i <= v@.len(),
            v@ == old(v)@,
            forall|j: int| 0 <= j < i ==> v@[j].0 != key,
        decreases v@.len() - i,
    {
        if v[i].0 == key {
            let ghost olds = v@;
            let _ = v.remove(i);
            v.insert(i, (key, val));
            proof {
                assert(v@ =~= olds.update(i as int, v@[i as int]));
                assert(v@[i as int].0 == key);
                lemma_assoc_u_update(olds, i as int, v@[i as int]);
                assert(forall|j: int| #![auto]
                    0 <= j < v@.len() ==> v@[j].0 == olds[j].0);
                if distinct_u(olds) {
                    assert forall|a: int, b: int|
                        0 <= a < b < v@.len() implies v@[a].0 != v@[b].0 by {
                        assert(olds[a].0 != olds[b].0);
                    }
                }
            }
            return;
        }
        i += 1;
    }
    let ghost olds = v@;
    v.push((key, val));
    proof {
        assert(v@ =~= olds.push(v@[olds.len() as int]));
        assert(v@[olds.len() as int].0 == key);
        lemma_assoc_u_push(olds, v@[olds.len() as int]);
        if distinct_u(olds) {
            assert forall|a: int, b: int|
                0 <= a < b < v@.len() implies v@[a].0 != v@[b].0 by {
                if b < olds.len() {
                    assert(olds[a].0 != olds[b].0);
                } else {
                    assert(olds[a].0 != key);
                }
            }
        }
    }
}

// ---------------------------------------------------- (era, name) keys
/// First value bound to the era/name pair.
pub open spec fn assoc_es<V: View>(s: Seq<((u32, String), V)>, e: u32, n: Seq<char>) -> Option<
    V::V,
>
    decreases s.len(),
{
    if s.len() == 0 {
        None
    } else if s[0].0.0 == e && s[0].0.1@ == n {
        Some(s[0].1@)
    } else {
        assoc_es(s.drop_first(), e, n)
    }
}

/// No two entries share a key.
pub open spec fn distinct_es<V>(s: Seq<((u32, String), V)>) -> bool {
    forall|i: int, j: int|
        0 <= i < j < s.len() ==> !(s[i].0.0 == s[j].0.0 && s[i].0.1@ == s[j].0.1@)
}

pub proof fn lemma_assoc_es_skip<V: View>(s: Seq<((u32, String), V)>, i: int, e: u32, n: Seq<char>)
    requires
        0 <= i <= s.len(),
        forall|j: int| 0 <= j < i ==> !(s[j].0.0 == e && s[j].0.1@ == n),
    ensures
        assoc_es(s, e, n) == assoc_es(s.skip(i), e, n),
    decreases i,
{
    if i > 0 {
        lemma_assoc_es_skip(s.drop_first(), i - 1, e, n);
        assert(s.drop_first().skip(i - 1) =~= s.skip(i));
    } else {
        assert(s.skip(0) =~= s);
    }
}

pub proof fn lemma_assoc_es_update<V: View>(s: Seq<((u32, String), V)>, i: int, p: ((u32, String), V))
    requires
        0 <= i < s.len(),
        s[i].0.0 == p.0.0 && s[i].0.1@ == p.0.1@,
        forall|j: int| 0 <= j < i ==> !(s[j].0.0 == p.0.0 && s[j].0.1@ == p.0.1@),
    ensures
        forall|e: u32, n: Seq<char>| #![auto]
            assoc_es(s.update(i, p), e, n) == (if e == p.0.0 && n == p.0.1@ {
                Some(p.1@)
            } else {
                assoc_es(s, e, n)
            }),
    decreases i,
{
    let t = s.update(i, p);
    if i == 0 {
        assert(t.drop_first() =~= s.drop_first());
        assert forall|e: u32, n: Seq<char>|
            assoc_es(t, e, n) == (if e == p.0.0 && n == p.0.1@ {
                Some(p.1@)
            } else {
                assoc_es(s, e, n)
            }) by {
            if !(e == p.0.0 && n == p.0.1@) {
                assert(assoc_es(t, e, n) == assoc_es(t.drop_first(), e, n));
                assert(assoc_es(s, e, n) == assoc_es(s.drop_first(), e, n));
            }
        }
    } else {
        lemma_assoc_es_update(s.drop_first(), i - 1, p);
        assert(t.drop_first() =~= s.drop_first().update(i - 1, p));
        assert(t[0] == s[0]);
        assert forall|e: u32, n: Seq<char>|
            assoc_es(t, e, n) == (if e == p.0.0 && n == p.0.1@ {
                Some(p.1@)
            } else {
                assoc_es(s, e, n)
            }) by {
            if !(s[0].0.0 == e && s[0].0.1@ == n) {
                assert(assoc_es(t, e, n) == assoc_es(t.drop_first(), e, n));
                assert(assoc_es(t.drop_first(), e, n) == assoc_es(
                    s.drop_first().update(i - 1, p),
                    e,
                    n,
                ));
                assert(assoc_es(s, e, n) == assoc_es(s.drop_first(), e, n));
            }
        }
    }
}

pub proof fn lemma_assoc_es_push<V: View>(s: Seq<((u32, String), V)>, p: ((u32, String), V))
    requires
        forall|j: int| 0 <= j < s.len() ==> !(s[j].0.0 == p.0.0 && s[j].0.1@ == p.0.1@),
    ensures
        forall|e: u32, n: Seq<char>| #![auto]
            assoc_es(s.push(p), e, n) == (if e == p.0.0 && n == p.0.1@ {
                Some(p.1@)
            } else {
                assoc_es(s, e, n)
            }),
    decreases s.len(),
{
    let t = s.push(p);
    if s.len() == 0 {
        assert(t.drop_first() =~= Seq::<((u32, String), V)>::empty());
        assert(t[0] == p);
        assert forall|e: u32, n: Seq<char>|
            assoc_es(t, e, n) == (if e == p.0.0 && n == p.0.1@ {
                Some(p.1@)
            } else {
                assoc_es(s, e, n)
            }) by {
            if !(e == p.0.0 && n == p.0.1@) {
                assert(assoc_es(t, e, n) == assoc_es(t.drop_first(), e, n));
                assert(assoc_es(t.drop_first(), e, n) == None::<V::V>);
            }
        }
    } else {
        lemma_assoc_es_push(s.drop_first(), p);
        assert(t.drop_first() =~= s.drop_first().push(p));
        assert(t[0] == s[0]);
        assert forall|e: u32, n: Seq<char>|
            assoc_es(t, e, n) == (if e == p.0.0 && n == p.0.1@ {
                Some(p.1@)
            } else {
                assoc_es(s, e, n)
            }) by {
            if !(s[0].0.0 == e && s[0].0.1@ == n) {
                assert(assoc_es(t, e, n) == assoc_es(t.drop_first(), e, n));
                assert(assoc_es(t.drop_first(), e, n) == assoc_es(
                    s.drop_first().push(p),
                    e,
                    n,
                ));
                assert(assoc_es(s, e, n) == assoc_es(s.drop_first(), e, n));
            }
        }
    }
}

/// Reference to the first value bound to the era/name pair.
pub fn get_es<'a, V: View>(v: &'a Vec<((u32, String), V)>, e: u32, n: &String) -> (r: Option<
    &'a V,
>)
    ensures
        match r {
            Some(x) => assoc_es(v@, e, n@) == Some(x@),
            None => assoc_es(v@, e, n@) == None::<V::V>,
        },
{
    let mut i: usize = 0;
    while i < v.len()
        invariant
            0 <= i <= v@.len(),
            forall|j: int| 0 <= j < i ==> !(v@[j].0.0 == e && v@[j].0.1@ == n@),
        decreases v@.len() - i,
    {
        if v[i].0.0 == e && v[i].0.1 == *n {
            proof {
                lemma_assoc_es_skip(v@, i as int, e, n@);
                assert(v@.skip(i as int)[0] == v@[i as int]);
            }
            return Some(&v[i].1);
        }
        i += 1;
    }
    proof {
        lemma_assoc_es_skip(v@, v@.len() as int, e, n@);
        assert(v@.skip(v@.len() as int) =~= Seq::<((u32, String), V)>::empty());
    }
    None
}

/// Binds the era/name pair to the value.
pub fn set_es<V: View>(v: &mut Vec<((u32, String), V)>, e: u32, n: &String, val: V)
    ensures
        forall|e2: u32, n2: Seq<char>| #![auto]
            assoc_es(final(v)@, e2, n2) == (if e2 == e && n2 == n@ {
                Some(val@)
            } else {
                assoc_es(old(v)@, e2, n2)
            }),
        distinct_es(old(v)@) ==> distinct_es(final(v)@),
        final(v)@.len() <= old(v)@.len() + 1,
{
    let mut i: usize = 0;
    while i < v.len()
        invariant
            0 <= i <= v@.len(),
            v@ == old(v)@,
            forall|j: int| 0 <= j < i ==> !(v@[j].0.0 == e && v@[j].0.1@ == n@),
        decreases v@.len() - i,
    {
        if v[i].0.0 == e && v[i].0.1 == *n {
            let ghost olds = v@;
            let _ = v.remove(i);
            v.insert(i, ((e, n.clone()), val));
            proof {
                assert(v@ =~= olds.update(i as int, v@[i as int]));
                assert(v@[i as int].0.0 == e && v@[i as int].0.1@ == n@);
                lemma_assoc_es_update(olds, i as int, v@[i as int]);
                assert(forall|j: int| #![auto]
                    0 <= j < v@.len() ==> v@[j].0.0 == olds[j].0.0 && v@[j].0.1@
                        == olds[j].0.1@);
                if distinct_es(olds) {
                    assert forall|a: int, b: int|
                        0 <= a < b < v@.len() implies !(v@[a].0.0 == v@[b].0.0 && v@[a].0.1@
                        == v@[b].0.1@) by {
                        assert(!(olds[a].0.0 == olds[b].0.0 && olds[a].0.1@ == olds[b].0.1@));
                    }
                }
            }
            return;
        }
        i += 1;
    }
    let ghost olds = v@;
    v.push(((e, n.clone()), val));
    proof {
        assert(v@ =~= olds.push(v@[olds.len() as int]));
        assert(v@[olds.len() as int].0.0 == e && v@[olds.len() as int].0.1@ == n@);
        lemma_assoc_es_push(olds, v@[olds.len() as int]);
        if distinct_es(olds) {
            assert forall|a: int, b: int|
                0 <= a < b < v@.len() implies !(v@[a].0.0 == v@[b].0.0 && v@[a].0.1@
                == v@[b].0.1@) by {
                if b < olds.len() {
                    assert(!(olds[a].0.0 == olds[b].0.0 && olds[a].0.1@ == olds[b].0.1@));
                } else {
                    assert(!(olds[a].0.0 == e && olds[a].0.1@ == n@));
                }
            }
        }
    }
}

// ---------------------------------------------------- (era, name, member) keys
/// First value bound to the era/name/member triple.
pub open spec fn assoc_esm<V: View>(s: Seq<((u32, String, String), V)>, e: u32, n: Seq<char>, m: Seq<char>) -> Option<
    V::V,
>
    decreases s.len(),
{
    if s.len() == 0 {
        None
    } else if s[0].0.0 == e && s[0].0.1@ == n && s[0].0.2@ == m && s[0].0.2@ == m {
        Some(s[0].1@)
    } else {
        assoc_esm(s.drop_first(), e, n, m)
    }
}

/// No two entries share a key.
pub open spec fn distinct_esm<V>(s: Seq<((u32, String, String), V)>) -> bool {
    forall|i: int, j: int|
        0 <= i < j < s.len() ==> !(s[i].0.0 == s[j].0.0 && s[i].0.1@ == s[j].0.1@
            && s[i].0.2@ == s[j].0.2@)
}

pub proof fn lemma_assoc_esm_skip<V: View>(s: Seq<((u32, String, String), V)>, i: int, e: u32, n: Seq<char>, m: Seq<char>)
    requires
        0 <= i <= s.len(),
        forall|j: int| 0 <= j < i ==> !(s[j].0.0 == e && s[j].0.1@ == n && s[j].0.2@ == m),
    ensures
        assoc_esm(s, e, n, m) == assoc_esm(s.skip(i), e, n, m),
    decreases i,
{
    if i > 0 {
        lemma_assoc_esm_skip(s.drop_first(), i - 1, e, n, m);
        assert(s.drop_first().skip(i - 1) =~= s.skip(i));
    } else {
        assert(s.skip(0) =~= s);
    }
}

pub proof fn lemma_assoc_esm_update<V: View>(s: Seq<((u32, String, String), V)>, i: int, p: ((u32, String, String), V))
    requires
        0 <= i < s.len(),
        s[i].0.0 == p.0.0 && s[i].0.1@ == p.0.1@ && s[i].0.2@ == p.0.2@,
        forall|j: int| 0 <= j < i ==> !(s[j].0.0 == p.0.0 && s[j].0.1@ == p.0.1@ && s[j].0.2@ == p.0.2@),
    ensures
        forall|e: u32, n: Seq<char>, m: Seq<char>| #![auto]
            assoc_esm(s.update(i, p), e, n, m) == (if e == p.0.0 && n == p.0.1@ && m == p.0.2@ {
                Some(p.1@)
            } else {
                assoc_esm(s, e, n, m)
            }),
    decreases i,
{
    let t = s.update(i, p);
    if i == 0 {
        assert(t.drop_first() =~= s.drop_first());
        assert forall|e: u32, n: Seq<char>, m: Seq<char>|
            assoc_esm(t, e, n, m) == (if e == p.0.0 && n == p.0.1@ && m == p.0.2@ {
                Some(p.1@)
            } else {
                assoc_esm(s, e, n, m)
            }) by {
            if !(e == p.0.0 && n == p.0.1@ && m == p.0.2@) {
                assert(assoc_esm(t, e, n, m) == assoc_esm(t.drop_first(), e, n, m));
                assert(assoc_esm(s, e, n, m) == assoc_esm(s.drop_first(), e, n, m));
            }
        }
    } else {
        lemma_assoc_esm_update(s.drop_first(), i - 1, p);
        assert(t.drop_first() =~= s.drop_first().update(i - 1, p));
        assert(t[0] == s[0]);
        assert forall|e: u32, n: Seq<char>, m: Seq<char>|
            assoc_esm(t, e, n, m) == (if e == p.0.0 && n == p.0.1@ && m == p.0.2@ {
                Some(p.1@)
            } else {
                assoc_esm(s, e, n, m)
            }) by {
            if !(s[0].0.0 == e && s[0].0.1@ == n && s[0].0.2@ == m && s[0].0.2@ == m) {
                assert(assoc_esm(t, e, n, m) == assoc_esm(t.drop_first(), e, n, m));
                assert(assoc_esm(t.drop_first(), e, n, m) == assoc_esm(
                    s.drop_first().update(i - 1, p),
                    e,
                    n,
                    m,
                ));
                assert(assoc_esm(s, e, n, m) == assoc_esm(s.drop_first(), e, n, m));
            }
        }
    }
}

pub proof fn lemma_assoc_esm_push<V: View>(s: Seq<((u32, String, String), V)>, p: ((u32, String, String), V))
    requires
        forall|j: int| 0 <= j < s.len() ==> !(s[j].0.0 == p.0.0 && s[j].0.1@ == p.0.1@ && s[j].0.2@ == p.0.2@),
    ensures
        forall|e: u32, n: Seq<char>, m: Seq<char>| #![auto]
            assoc_esm(s.push(p), e, n, m) == (if e == p.0.0 && n == p.0.1@ && m == p.0.2@ {
                Some(p.1@)
            } else {
                assoc_esm(s, e, n, m)
            }),
    decreases s.len(),
{
    let t = s.push(p);
    if s.len() == 0 {
        assert(t.drop_first() =~= Seq::<((u32, String, String), V)>::empty());
        assert(t[0] == p);
        assert forall|e: u32, n: Seq<char>, m: Seq<char>|
            assoc_esm(t, e, n, m) == (if e == p.0.0 && n == p.0.1@ && m == p.0.2@ {
                Some(p.1@)
            } else {
                assoc_esm(s, e, n, m)
            }) by {
            if !(e == p.0.0 && n == p.0.1@ && m == p.0.2@) {
                assert(assoc_esm(t, e, n, m) == assoc_esm(t.drop_first(), e, n, m));
                assert(assoc_esm(t.drop_first(), e, n, m) == None::<V::V>);
            }
        }
    } else {
        lemma_assoc_esm_push(s.drop_first(), p);
        assert(t.drop_first() =~= s.drop_first().push(p));
        assert(t[0] == s[0]);
        assert forall|e: u32, n: Seq<char>, m: Seq<char>|
            assoc_esm(t, e, n, m) == (if e == p.0.0 && n == p.0.1@ && m == p.0.2@ {
                Some(p.1@)
            } else {
                assoc_esm(s, e, n, m)
            }) by {
            if !(s[0].0.0 == e && s[0].0.1@ == n && s[0].0.2@ == m && s[0].0.2@ == m) {
                assert(assoc_esm(t, e, n, m) == assoc_esm(t.drop_first(), e, n, m));
                assert(assoc_esm(t.drop_first(), e, n, m) == assoc_esm(
                    s.drop_first().push(p),
                    e,
                    n,
                    m,
                ));
                assert(assoc_esm(s, e, n, m) == assoc_esm(s.drop_first(), e, n, m));
            }
        }
    }
}

/// Reference to the first value bound to the era/name/member triple.
pub fn get_esm<'a, V: View>(v: &'a Vec<((u32, String, String), V)>, e: u32, n: &String, m: &String) -> (r: Option<
    &'a V,
>)
    ensures
        match r {
            Some(x) => assoc_esm(v@, e, n@, m@) == Some(x@),
            None => assoc_esm(v@, e, n@, m@) == None::<V::V>,
        },
{
    let mut i: usize = 0;
    while i < v.len()
        invariant
            0 <= i <= v@.len(),
            forall|j: int| 0 <= j < i ==> !(v@[j].0.0 == e && v@[j].0.1@ == n@ && v@[j].0.2@ == m@),
        decreases v@.len() - i,
    {
        if v[i].0.0 == e && v[i].0.1 == *n && v[i].0.2 == *m {
            proof {
                lemma_assoc_esm_skip(v@, i as int, e, n@, m@);
                assert(v@.skip(i as int)[0] == v@[i as int]);
            }
            return Some(&v[i].1);
        }
        i += 1;
    }
    proof {
        lemma_assoc_esm_skip(v@, v@.len() as int, e, n@, m@);
        assert(v@.skip(v@.len() as int) =~= Seq::<((u32, String, String), V)>::empty());
    }
    None
}

/// Binds the era/name/member triple to the value.
pub fn set_esm<V: View>(v: &mut Vec<((u32, String, String), V)>, e: u32, n: &String, m: &String, val: V)
    ensures
        forall|e2: u32, n2: Seq<char>, m2: Seq<char>| #![auto]
            assoc_esm(final(v)@, e2, n2, m2) == (if e2 == e && n2 == n@ && m2 == m@ {
                Some(val@)
            } else {
                assoc_esm(old(v)@, e2, n2, m2)
            }),
        distinct_esm(old(v)@) ==> distinct_esm(final(v)@),
        final(v)@.len() <= old(v)@.len() + 1,
{
    let mut i: usize = 0;
    while i < v.len()
        invariant
            0 <= i <= v@.len(),
            v@ == old(v)@,
            forall|j: int| 0 <= j < i ==> !(v@[j].0.0 == e && v@[j].0.1@ == n@ && v@[j].0.2@ == m@),
        decreases v@.len() - i,
    {
        if v[i].0.0 == e && v[i].0.1 == *n && v[i].0.2 == *m {
            let ghost olds = v@;
            let _ = v.remove(i);
            v.insert(i, ((e, n.clone(), m.clone()), val));
            proof {
                assert(v@ =~= olds.update(i as int, v@[i as int]));
                assert(v@[i as int].0.0 == e && v@[i as int].0.1@ == n@ && v@[i as int].0.2@ == m@);
                lemma_assoc_esm_update(olds, i as int, v@[i as int]);
                assert(forall|j: int| #![auto]
                    0 <= j < v@.len() ==> v@[j].0.0 == olds[j].0.0 && v@[j].0.1@
                        == olds[j].0.1@ && v@[j].0.2@ == olds[j].0.2@);
                if distinct_esm(olds) {
                    assert forall|a: int, b: int|
                        0 <= a < b < v@.len() implies !(v@[a].0.0 == v@[b].0.0 && v@[a].0.1@
                        == v@[b].0.1@ && v@[a].0.2@ == v@[b].0.2@) by {
                        assert(!(olds[a].0.0 == olds[b].0.0 && olds[a].0.1@ == olds[b].0.1@ && olds[a].0.2@ == olds[b].0.2@));
                    }
                }
            }
            return;
        }
        i += 1;
    }
    let ghost olds = v@;
    v.push(((e, n.clone(), m.clone()), val));
    proof {
        assert(v@ =~= olds.push(v@[olds.len() as int]));
        assert(v@[olds.len() as int].0.0 == e && v@[olds.len() as int].0.1@ == n@ && v@[olds.len() as int].0.2@ == m@);
        lemma_assoc_esm_push(olds, v@[olds.len() as int]);
        if distinct_esm(olds) {
            assert forall|a: int, b: int|
                0 <= a < b < v@.len() implies !(v@[a].0.0 == v@[b].0.0 && v@[a].0.1@
                == v@[b].0.1@ && v@[a].0.2@ == v@[b].0.2@) by {
                if b < olds.len() {
                    assert(!(olds[a].0.0 == olds[b].0.0 && olds[a].0.1@ == olds[b].0.1@ && olds[a].0.2@ == olds[b].0.2@));
                } else {
                    assert(!(olds[a].0.0 == e && olds[a].0.1@ == n@ && olds[a].0.2@ == m@));
                }
            }
        }
    }
}

} // verus!
