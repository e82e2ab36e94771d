//! Small association tables, kept as vectors of pairs in insertion order.
//!
//! The registry needs maps whose iteration order is the insertion order
//! (matchmaking scans games oldest first), so each index is a vector of
//! key/value pairs with pairwise-distinct keys.  Lookup is characterized by
//! the recursive `*_find` functions: every registry invariant and every
//! dispatcher contract speaks through them.

use vstd::prelude::*;

verus! {

// ---------------------------------------------------------------- String keys
/// The value at the first pair of `s` whose key reads `k`, if any.
pub open spec fn str_find<V>(s: Seq<(String, V)>, k: Seq<char>) -> Option<V>
    decreases s.len(),
{
    if s.len() == 0 {
        None
    } else if s[0].0@ == k {
        Some(s[0].1)
    } else {
        str_find(s.drop_first(), k)
    }
}

/// Pairwise-distinct keys.
pub open spec fn str_unique<V>(s: Seq<(String, V)>) -> bool {
    forall|i: int, j: int| 0 <= i < j < s.len() ==> s[i].0@ != s[j].0@
}

/// A key absent from every pair is not found.
pub proof fn lemma_str_find_absent<V>(s: Seq<(String, V)>, k: Seq<char>)
    requires
        forall|i: int| 0 <= i < s.len() ==> s[i].0@ != k,
    ensures
        str_find(s, k) is None,
    decreases s.len(),
{
    if s.len() > 0 {
        lemma_str_find_absent(s.drop_first(), k);
    }
}

/// With distinct keys, the pair at any index is what lookup of its key finds.
pub proof fn lemma_str_find_index<V>(s: Seq<(String, V)>, i: int)
    requires
        str_unique(s),
        0 <= i < s.len(),
    ensures
        str_find(s, s[i].0@) == Some(s[i].1),
    decreases i,
{
    if i > 0 {
        lemma_str_find_index(s.drop_first(), i - 1);
    }
}

/// Lookup after appending a pair with a fresh key.
pub proof fn lemma_str_find_push<V>(s: Seq<(String, V)>, p: (String, V), k: Seq<char>)
    requires
        str_find(s, p.0@) is None,
    ensures
        str_find(s.push(p), k) == if k == p.0@ {
            Some(p.1)
        } else {
            str_find(s, k)
        },
    decreases s.len(),
{
    if s.len() == 0 {
        assert(s.push(p).drop_first() =~= s);
    } else {
        assert(s.push(p).drop_first() =~= s.drop_first().push(p));
        lemma_str_find_push(s.drop_first(), p, k);
    }
}

/// Appending a fresh key keeps the keys distinct.
pub proof fn lemma_str_unique_push<V>(s: Seq<(String, V)>, p: (String, V))
    requires
        str_unique(s),
        str_find(s, p.0@) is None,
    ensures
        str_unique(s.push(p)),
{
    assert forall|i: int, j: int| 0 <= i < j < s.push(p).len() implies s.push(p)[i].0@ != s.push(
        p,
    )[j].0@ by {
        if j == s.len() {
            if s[i].0@ == p.0@ {
                lemma_str_find_index(s, i);
            }
        }
    }
}

/// Lookup after removing the pair at index `i`, under distinct keys.
pub proof fn lemma_str_find_remove<V>(s: Seq<(String, V)>, i: int, k: Seq<char>)
    requires
        str_unique(s),
        0 <= i < s.len(),
    ensures
        str_find(s.remove(i), k) == if k == s[i].0@ {
            None
        } else {
            str_find(s, k)
        },
    decreases i,
{
    if i == 0 {
        assert(s.remove(0) =~= s.drop_first());
        if k == s[0].0@ {
            assert(forall|j: int|
                0 <= j < s.drop_first().len() ==> s.drop_first()[j].0@ != k);
            lemma_str_find_absent(s.drop_first(), k);
        }
    } else {
        assert(s.remove(i).drop_first() =~= s.drop_first().remove(i - 1));
        if s[0].0@ != k {
            lemma_str_find_remove(s.drop_first(), i - 1, k);
        }
    }
}

/// Removing a pair keeps the keys distinct.
pub proof fn lemma_str_unique_remove<V>(s: Seq<(String, V)>, i: int)
    requires
        str_unique(s),
        0 <= i < s.len(),
    ensures
        str_unique(s.remove(i)),
{
    assert forall|a: int, b: int|
        0 <= a < b < s.remove(i).len() implies s.remove(i)[a].0@ != s.remove(i)[b].0@ by {
        let a0 = if a < i {
            a
        } else {
            a + 1
        };
        let b0 = if b < i {
            b
        } else {
            b + 1
        };
        assert(s.remove(i)[a] == s[a0]);
        assert(s.remove(i)[b] == s[b0]);
    }
}

/// A borrow of the value under `k`, or `None` when the key is absent.
pub fn str_get<'a, V>(m: &'a Vec<(String, V)>, k: &String) -> (r: Option<&'a V>)
    ensures
        match r {
            Some(v) => str_find(m@, k@) == Some(*v),
            None => str_find(m@, k@) is None,
        },
{
    let n = m.len();
    let mut i: usize = 0;
    proof {
        assert(m@.skip(0) =~= m@);
    }
    while i < n
        invariant
            i <= n,
            n == m@.len(),
            str_find(m@, k@) == str_find(m@.skip(i as int), k@),
        decreases n - i,
    {
        if m[i].0 == *k {
            proof {
                assert(m@.skip(i as int)[0] == m@[i as int]);
            }
            return Some(&m[i].1);
        }
        proof {
            assert(m@.skip(i as int).drop_first() =~= m@.skip(i as int + 1));
        }
        i = i + 1;
    }
    proof {
        assert(m@.skip(n as int) =~= Seq::<(String, V)>::empty());
    }
    None
}

/// Add a pair under a key that is not yet present.
pub fn str_insert<V>(m: &mut Vec<(String, V)>, k: String, v: V)
    requires
        str_find(old(m)@, k@) is None,
        str_unique(old(m)@),
    ensures
        final(m)@ == old(m)@.push((k, v)),
        str_unique(final(m)@),
        forall|k2: Seq<char>| #![auto]
            str_find(final(m)@, k2) == if k2 == k@ {
                Some((k, v).1)
            } else {
                str_find(old(m)@, k2)
            },
{
    let ghost s = m@;
    let ghost p = (k, v);
    m.push((k, v));
    proof {
        lemma_str_unique_push(s, p);
        assert forall|k2: Seq<char>| #![auto]
            str_find(m@, k2) == if k2 == p.0@ {
                Some(p.1)
            } else {
                str_find(s, k2)
            } by {
            lemma_str_find_push(s, p, k2);
        }
    }
}

/// Remove the pair under `k`, handing its value back.
pub fn str_remove<V>(m: &mut Vec<(String, V)>, k: &String) -> (r: Option<V>)
    requires
        str_unique(old(m)@),
    ensures
        str_unique(final(m)@),
        r == str_find(old(m)@, k@),
        r is None ==> final(m)@ == old(m)@,
        forall|k2: Seq<char>| #![auto]
            str_find(final(m)@, k2) == if k2 == k@ {
                None
            } else {
                str_find(old(m)@, k2)
            },
{
    let n = m.len();
    let mut i: usize = 0;
    while i < n
        invariant
            i <= n,
            n == m@.len(),
            m@ == old(m)@,
            str_unique(m@),
            forall|j: int| 0 <= j < i ==> m@[j].0@ != k@,
        decreases n - i,
    {
        if m[i].0 == *k {
            proof {
                lemma_str_find_index(m@, i as int);
                assert forall|k2: Seq<char>| #![auto]
                    str_find(m@.remove(i as int), k2) == if k2 == k@ {
                        None
                    } else {
                        str_find(m@, k2)
                    } by {
                    lemma_str_find_remove(m@, i as int, k2);
                }
                lemma_str_unique_remove(m@, i as int);
            }
            let pair = m.remove(i);
            return Some(pair.1);
        }
        i = i + 1;
    }
    proof {
        lemma_str_find_absent(m@, k@);
    }
    None
}

// ------------------------------------------------------------------ u64 keys
/// The value at the first pair of `s` whose key is `k`, if any.
pub open spec fn u64_find<V>(s: Seq<(u64, V)>, k: u64) -> Option<V>
    decreases s.len(),
{
    if s.len() == 0 {
        None
    } else if s[0].0 == k {
        Some(s[0].1)
    } else {
        u64_find(s.drop_first(), k)
    }
}

/// Pairwise-distinct keys.
pub open spec fn u64_unique<V>(s: Seq<(u64, V)>) -> bool {
    forall|i: int, j: int| 0 <= i < j < s.len() ==> s[i].0 != s[j].0
}

/// A key absent from every pair is not found.
pub proof fn lemma_u64_find_absent<V>(s: Seq<(u64, V)>, k: u64)
    requires
        forall|i: int| 0 <= i < s.len() ==> s[i].0 != k,
    ensures
        u64_find(s, k) is None,
    decreases s.len(),
{
    if s.len() > 0 {
        lemma_u64_find_absent(s.drop_first(), k);
    }
}

/// With distinct keys, the pair at any index is what lookup of its key finds.
pub proof fn lemma_u64_find_index<V>(s: Seq<(u64, V)>, i: int)
    requires
        u64_unique(s),
        0 <= i < s.len(),
    ensures
        u64_find(s, s[i].0) == Some(s[i].1),
    decreases i,
{
    if i > 0 {
        lemma_u64_find_index(s.drop_first(), i - 1);
    }
}

/// Lookup after appending a pair with a fresh key.
pub proof fn lemma_u64_find_push<V>(s: Seq<(u64, V)>, p: (u64, V), k: u64)
    requires
        u64_find(s, p.0) is None,
    ensures
        u64_find(s.push(p), k) == if k == p.0 {
            Some(p.1)
        } else {
            u64_find(s, k)
        },
    decreases s.len(),
{
    if s.len() == 0 {
        assert(s.push(p).drop_first() =~= s);
    } else {
        assert(s.push(p).drop_first() =~= s.drop_first().push(p));
        lemma_u64_find_push(s.drop_first(), p, k);
    }
}

/// Appending a fresh key keeps the keys distinct.
pub proof fn lemma_u64_unique_push<V>(s: Seq<(u64, V)>, p: (u64, V))
    requires
        u64_unique(s),
        u64_find(s, p.0) is None,
    ensures
        u64_unique(s.push(p)),
{
    assert forall|i: int, j: int| 0 <= i < j < s.push(p).len() implies s.push(p)[i].0 != s.push(
        p,
    )[j].0 by {
        if j == s.len() {
            if s[i].0 == p.0 {
                lemma_u64_find_index(s, i);
            }
        }
    }
}

/// Lookup after removing the pair at index `i`, under distinct keys.
pub proof fn lemma_u64_find_remove<V>(s: Seq<(u64, V)>, i: int, k: u64)
    requires
        u64_unique(s),
        0 <= i < s.len(),
    ensures
        u64_find(s.remove(i), k) == if k == s[i].0 {
            None
        } else {
            u64_find(s, k)
        },
    decreases i,
{
    if i == 0 {
        assert(s.remove(0) =~= s.drop_first());
        if k == s[0].0 {
            lemma_u64_find_absent(s.drop_first(), k);
        }
    } else {
        assert(s.remove(i).drop_first() =~= s.drop_first().remove(i - 1));
        if s[0].0 != k {
            lemma_u64_find_remove(s.drop_first(), i - 1, k);
        }
    }
}

/// Removing a pair keeps the keys distinct.
pub proof fn lemma_u64_unique_remove<V>(s: Seq<(u64, V)>, i: int)
    requires
        u64_unique(s),
        0 <= i < s.len(),
    ensures
        u64_unique(s.remove(i)),
{
    assert forall|a: int, b: int|
        0 <= a < b < s.remove(i).len() implies s.remove(i)[a].0 != s.remove(i)[b].0 by {
        let a0 = if a < i {
            a
        } else {
            a + 1
        };
        let b0 = if b < i {
            b
        } else {
            b + 1
        };
        assert(s.remove(i)[a] == s[a0]);
        assert(s.remove(i)[b] == s[b0]);
    }
}

/// A borrow of the value under `k`, or `None` when the key is absent.
pub fn u64_get<'a, V>(m: &'a Vec<(u64, V)>, k: u64) -> (r: Option<&'a V>)
    ensures
        match r {
            Some(v) => u64_find(m@, k) == Some(*v),
            None => u64_find(m@, k) is None,
        },
{
    let n = m.len();
    let mut i: usize = 0;
    proof {
        assert(m@.skip(0) =~= m@);
    }
    while i < n
        invariant
            i <= n,
            n == m@.len(),
            u64_find(m@, k) == u64_find(m@.skip(i as int), k),
        decreases n - i,
    {
        if m[i].0 == k {
            proof {
                assert(m@.skip(i as int)[0] == m@[i as int]);
            }
            return Some(&m[i].1);
        }
        proof {
            assert(m@.skip(i as int).drop_first() =~= m@.skip(i as int + 1));
        }
        i = i + 1;
    }
    proof {
        assert(m@.skip(n as int) =~= Seq::<(u64, V)>::empty());
    }
    None
}

/// Add a pair under a key that is not yet present.
pub fn u64_insert<V>(m: &mut Vec<(u64, V)>, k: u64, v: V)
    requires
        u64_find(old(m)@, k) is None,
        u64_unique(old(m)@),
    ensures
        final(m)@ == old(m)@.push((k, v)),
        u64_unique(final(m)@),
        forall|k2: u64| #![auto]
            u64_find(final(m)@, k2) == if k2 == k {
                Some((k, v).1)
            } else {
                u64_find(old(m)@, k2)
            },
{
    let ghost s = m@;
    let ghost p = (k, v);
    m.push((k, v));
    proof {
        lemma_u64_unique_push(s, p);
        assert forall|k2: u64| #![auto]
            u64_find(m@, k2) == if k2 == p.0 {
                Some(p.1)
            } else {
                u64_find(s, k2)
            } by {
            lemma_u64_find_push(s, p, k2);
        }
    }
}

/// Remove the pair under `k`, handing its value back.
pub fn u64_remove<V>(m: &mut Vec<(u64, V)>, k: u64) -> (r: Option<V>)
    requires
        u64_unique(old(m)@),
    ensures
        u64_unique(final(m)@),
        r == u64_find(old(m)@, k),
        r is None ==> final(m)@ == old(m)@,
        forall|k2: u64| #![auto]
            u64_find(final(m)@, k2) == if k2 == k {
                None
            } else {
                u64_find(old(m)@, k2)
            },
{
    let n = m.len();
    let mut i: usize = 0;
    while i < n
        invariant
            i <= n,
            n == m@.len(),
            m@ == old(m)@,
            u64_unique(m@),
            forall|j: int| 0 <= j < i ==> m@[j].0 != k,
        decreases n - i,
    {
        if m[i].0 == k {
            proof {
                lemma_u64_find_index(m@, i as int);
                assert forall|k2: u64| #![auto]
                    u64_find(m@.remove(i as int), k2) == if k2 == k {
                        None
                    } else {
                        u64_find(m@, k2)
                    } by {
                    lemma_u64_find_remove(m@, i as int, k2);
                }
                lemma_u64_unique_remove(m@, i as int);
            }
            let pair = m.remove(i);
            return Some(pair.1);
        }
        i = i + 1;
    }
    proof {
        lemma_u64_find_absent(m@, k);
    }
    None
}

/// Pairwise-distinct addresses.
pub open spec fn nodup_u64(s: Seq<u64>) -> bool {
    forall|i: int, j: int| 0 <= i < j < s.len() ==> s[i] != s[j]
}

/// Whether `a` is one of the addresses in `v`.
pub fn u64_set_contains(v: &Vec<u64>, a: u64) -> (r: bool)
    ensures
        r == v@.contains(a),
{
    let n = v.len();
    let mut i: usize = 0;
    while i < n
        invariant
            i <= n,
            n == v@.len(),
            forall|j: int| 0 <= j < i ==> v@[j] != a,
        decreases n - i,
    {
        if v[i] == a {
            return true;
        }
        i = i + 1;
    }
    proof {
        if v@.contains(a) {
            let x = choose|x: int| 0 <= x < v@.len() && v@[x] == a;
        }
    }
    false
}

/// Remove `a` from the address set `v`, if present.
pub fn u64_set_remove(v: &mut Vec<u64>, a: u64) -> (was: bool)
    requires
        nodup_u64(old(v)@),
    ensures
        nodup_u64(final(v)@),
        was == old(v)@.contains(a),
        forall|x: u64| #[trigger] final(v)@.contains(x) <==> (old(v)@.contains(x) && x != a),
{
    let n = v.len();
    let mut i: usize = 0;
    while i < n
        invariant
            i <= n,
            n == v@.len(),
            v@ == old(v)@,
            nodup_u64(v@),
            forall|j: int| 0 <= j < i ==> v@[j] != a,
        decreases n - i,
    {
        if v[i] == a {
            let ghost oldv = v@;
            v.remove(i);
            proof {
                assert(oldv[i as int] == a);
                assert forall|x: int, y: int|
                    0 <= x < y < v@.len() implies v@[x] != v@[y] by {
                    let x0 = if x < i as int {
                        x
                    } else {
                        x + 1
                    };
                    let y0 = if y < i as int {
                        y
                    } else {
                        y + 1
                    };
                    assert(v@[x] == oldv[x0]);
                    assert(v@[y] == oldv[y0]);
                }
                assert forall|x: u64| #[trigger]
                    v@.contains(x) <==> (oldv.contains(x) && x != a) by {
                    if v@.contains(x) {
                        let p = choose|p: int| 0 <= p < v@.len() && v@[p] == x;
                        let p0 = if p < i as int {
                            p
                        } else {
                            p + 1
                        };
                        assert(oldv[p0] == x);
                        assert(p0 != i as int);
                        assert(oldv[p0] != oldv[i as int]);
                    }
                    if oldv.contains(x) && x != a {
                        let p = choose|p: int| 0 <= p < oldv.len() && oldv[p] == x;
                        assert(p != i as int);
                        let p1 = if p < i as int {
                            p
                        } else {
                            p - 1
                        };
                        assert(v@[p1] == x);
                    }
                }
            }
            return true;
        }
        i = i + 1;
    }
    proof {
        assert(!old(v)@.contains(a));
    }
    false
}

// ------------------------------------------------------------------ u32 keys
/// The value at the first pair of `s` whose key is `k`, if any.
pub open spec fn u32_find<V>(s: Seq<(u32, V)>, k: u32) -> Option<V>
    decreases s.len(),
{
    if s.len() == 0 {
        None
    } else if s[0].0 == k {
        Some(s[0].1)
    } else {
        u32_find(s.drop_first(), k)
    }
}

/// Pairwise-distinct keys.
pub open spec fn u32_unique<V>(s: Seq<(u32, V)>) -> bool {
    forall|i: int, j: int| 0 <= i < j < s.len() ==> s[i].0 != s[j].0
}

/// A key absent from every pair is not found.
pub proof fn lemma_u32_find_absent<V>(s: Seq<(u32, V)>, k: u32)
    requires
        forall|i: int| 0 <= i < s.len() ==> s[i].0 != k,
    ensures
        u32_find(s, k) is None,
    decreases s.len(),
{
    if s.len() > 0 {
        lemma_u32_find_absent(s.drop_first(), k);
    }
}

/// With distinct keys, the pair at any index is what lookup of its key finds.
pub proof fn lemma_u32_find_index<V>(s: Seq<(u32, V)>, i: int)
    requires
        u32_unique(s),
        0 <= i < s.len(),
    ensures
        u32_find(s, s[i].0) == Some(s[i].1),
    decreases i,
{
    if i > 0 {
        lemma_u32_find_index(s.drop_first(), i - 1);
    }
}

/// Lookup after appending a pair with a fresh key.
pub proof fn lemma_u32_find_push<V>(s: Seq<(u32, V)>, p: (u32, V), k: u32)
    requires
        u32_find(s, p.0) is None,
    ensures
        u32_find(s.push(p), k) == if k == p.0 {
            Some(p.1)
        } else {
            u32_find(s, k)
        },
    decreases s.len(),
{
    if s.len() == 0 {
        assert(s.push(p).drop_first() =~= s);
    } else {
        assert(s.push(p).drop_first() =~= s.drop_first().push(p));
        lemma_u32_find_push(s.drop_first(), p, k);
    }
}

/// Appending a fresh key keeps the keys distinct.
pub proof fn lemma_u32_unique_push<V>(s: Seq<(u32, V)>, p: (u32, V))
    requires
        u32_unique(s),
        u32_find(s, p.0) is None,
    ensures
        u32_unique(s.push(p)),
{
    assert forall|i: int, j: int| 0 <= i < j < s.push(p).len() implies s.push(p)[i].0 != s.push(
        p,
    )[j].0 by {
        if j == s.len() {
            if s[i].0 == p.0 {
                lemma_u32_find_index(s, i);
            }
        }
    }
}

/// Lookup after removing the pair at index `i`, under distinct keys.
pub proof fn lemma_u32_find_remove<V>(s: Seq<(u32, V)>, i: int, k: u32)
    requires
        u32_unique(s),
        0 <= i < s.len(),
    ensures
        u32_find(s.remove(i), k) == if k == s[i].0 {
            None
        } else {
            u32_find(s, k)
        },
    decreases i,
{
    if i == 0 {
        assert(s.remove(0) =~= s.drop_first());
        if k == s[0].0 {
            lemma_u32_find_absent(s.drop_first(), k);
        }
    } else {
        assert(s.remove(i).drop_first() =~= s.drop_first().remove(i - 1));
        if s[0].0 != k {
            lemma_u32_find_remove(s.drop_first(), i - 1, k);
        }
    }
}

/// Removing a pair keeps the keys distinct.
pub proof fn lemma_u32_unique_remove<V>(s: Seq<(u32, V)>, i: int)
    requires
        u32_unique(s),
        0 <= i < s.len(),
    ensures
        u32_unique(s.remove(i)),
{
    assert forall|a: int, b: int|
        0 <= a < b < s.remove(i).len() implies s.remove(i)[a].0 != s.remove(i)[b].0 by {
        let a0 = if a < i {
            a
        } else {
            a + 1
        };
        let b0 = if b < i {
            b
        } else {
            b + 1
        };
        assert(s.remove(i)[a] == s[a0]);
        assert(s.remove(i)[b] == s[b0]);
    }
}

/// A borrow of the value under `k`, or `None` when the key is absent.
pub fn u32_get<'a, V>(m: &'a Vec<(u32, V)>, k: u32) -> (r: Option<&'a V>)
    ensures
        match r {
            Some(v) => u32_find(m@, k) == Some(*v),
            None => u32_find(m@, k) is None,
        },
{
    let n = m.len();
    let mut i: usize = 0;
    proof {
        assert(m@.skip(0) =~= m@);
    }
    while i < n
        invariant
            i <= n,
            n == m@.len(),
            u32_find(m@, k) == u32_find(m@.skip(i as int), k),
        decreases n - i,
    {
        if m[i].0 == k {
            proof {
                assert(m@.skip(i as int)[0] == m@[i as int]);
            }
            return Some(&m[i].1);
        }
        proof {
            assert(m@.skip(i as int).drop_first() =~= m@.skip(i as int + 1));
        }
        i = i + 1;
    }
    proof {
        assert(m@.skip(n as int) =~= Seq::<(u32, V)>::empty());
    }
    None
}

/// Add a pair under a key that is not yet present.
pub fn u32_insert<V>(m: &mut Vec<(u32, V)>, k: u32, v: V)
    requires
        u32_find(old(m)@, k) is None,
        u32_unique(old(m)@),
    ensures
        final(m)@ == old(m)@.push((k, v)),
        u32_unique(final(m)@),
        forall|k2: u32| #![auto]
            u32_find(final(m)@, k2) == if k2 == k {
                Some((k, v).1)
            } else {
                u32_find(old(m)@, k2)
            },
{
    let ghost s = m@;
    let ghost p = (k, v);
    m.push((k, v));
    proof {
        lemma_u32_unique_push(s, p);
        assert forall|k2: u32| #![auto]
            u32_find(m@, k2) == if k2 == p.0 {
                Some(p.1)
            } else {
                u32_find(s, k2)
            } by {
            lemma_u32_find_push(s, p, k2);
        }
    }
}

/// Remove the pair under `k`, handing its value back.
pub fn u32_remove<V>(m: &mut Vec<(u32, V)>, k: u32) -> (r: Option<V>)
    requires
        u32_unique(old(m)@),
    ensures
        u32_unique(final(m)@),
        r is Some <==> u32_find(old(m)@, k) is Some,
        r is None ==> final(m)@ == old(m)@ && u32_find(old(m)@, k) is None,
        r matches Some(v) ==> u32_find(old(m)@, k) == Some(v),
        forall|k2: u32| #![auto]
            u32_find(final(m)@, k2) == if k2 == k {
                None
            } else {
                u32_find(old(m)@, k2)
            },
{
    let n = m.len();
    let mut i: usize = 0;
    while i < n
        invariant
            i <= n,
            n == m@.len(),
            m@ == old(m)@,
            u32_unique(m@),
            forall|j: int| 0 <= j < i ==> m@[j].0 != k,
        decreases n - i,
    {
        if m[i].0 == k {
            proof {
                lemma_u32_find_index(m@, i as int);
                assert forall|k2: u32| #![auto]
                    u32_find(m@.remove(i as int), k2) == if k2 == k {
                        None
                    } else {
                        u32_find(m@, k2)
                    } by {
                    lemma_u32_find_remove(m@, i as int, k2);
                }
                lemma_u32_unique_remove(m@, i as int);
            }
            let pair = m.remove(i);
            return Some(pair.1);
        }
        i = i + 1;
    }
    proof {
        lemma_u32_find_absent(m@, k);
    }
    None
}

} // verus!
