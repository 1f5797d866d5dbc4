//! Ordered-by-key association lists.
//!
//! Catalogues map server names to entries, and entries map environment
//! variable names to values. Both are kept as key-sorted lists with unique
//! keys, which makes serialization order stable and makes parsing a
//! serialized list give the list back.

use vstd::prelude::*;

verus! {

/// Strict lexicographic order on character sequences, by code point.
pub open spec fn str_lt(a: Seq<char>, b: Seq<char>) -> bool
    decreases a.len(),
{
    if b.len() == 0 {
        false
    } else if a.len() == 0 {
        true
    } else if (a[0] as u32) < (b[0] as u32) {
        true
    } else if a[0] == b[0] {
        str_lt(a.drop_first(), b.drop_first())
    } else {
        false
    }
}

/// The order is irreflexive.
pub proof fn lemma_str_lt_irrefl(a: Seq<char>)
    ensures
        !str_lt(a, a),
    decreases a.len(),
{
    if a.len() > 0 {
        lemma_str_lt_irrefl(a.drop_first());
    }
}

/// The order is transitive.
pub proof fn lemma_str_lt_trans(a: Seq<char>, b: Seq<char>, c: Seq<char>)
    requires
        str_lt(a, b),
        str_lt(b, c),
    ensures
        str_lt(a, c),
    decreases a.len(),
{
    if a.len() > 0 && b.len() > 0 && c.len() > 0 {
        if a[0] == b[0] && b[0] == c[0] {
            lemma_str_lt_trans(a.drop_first(), b.drop_first(), c.drop_first());
        }
    }
}

/// The order is total: two sequences compare one way, the other, or are equal.
pub proof fn lemma_str_lt_total(a: Seq<char>, b: Seq<char>)
    ensures
        str_lt(a, b) || str_lt(b, a) || a == b,
    decreases a.len(),
{
    if a.len() == 0 && b.len() == 0 {
        assert(a =~= b);
    } else if a.len() > 0 && b.len() > 0 {
        if a[0] == b[0] {
            lemma_str_lt_total(a.drop_first(), b.drop_first());
            if a.drop_first() == b.drop_first() {
                assert(a =~= seq![a[0]] + a.drop_first());
                assert(b =~= seq![b[0]] + b.drop_first());
            }
        } else {
            vstd::utf8::char_u32_cast(a[0], a[0] as u32);
            vstd::utf8::char_u32_cast(b[0], b[0] as u32);
            assert((a[0] as u32) != (b[0] as u32));
        }
    }
}

/// Keys strictly ascend, which also makes them unique.
pub open spec fn kv_sorted<X>(s: Seq<(Seq<char>, X)>) -> bool {
    forall|i: int, j: int| 0 <= i < j < s.len() ==> str_lt(#[trigger] s[i].0, #[trigger] s[j].0)
}

/// Value bound to `k`, if any (first occurrence).
pub open spec fn kv_get<X>(s: Seq<(Seq<char>, X)>, k: Seq<char>) -> Option<X>
    decreases s.len(),
{
    if s.len() == 0 {
        None
    } else if s[0].0 == k {
        Some(s[0].1)
    } else {
        kv_get(s.drop_first(), k)
    }
}

/// Does a binding for `k` exist?
pub open spec fn kv_has<X>(s: Seq<(Seq<char>, X)>, k: Seq<char>) -> bool {
    kv_get(s, k) is Some
}

/// Bind `k` to `v`: replace an existing binding in place, else insert in
/// key order.
pub open spec fn kv_insert_spec<X>(s: Seq<(Seq<char>, X)>, k: Seq<char>, v: X) -> Seq<
    (Seq<char>, X),
>
    decreases s.len(),
{
    if s.len() == 0 {
        seq![(k, v)]
    } else if str_lt(s[0].0, k) {
        seq![s[0]] + kv_insert_spec(s.drop_first(), k, v)
    } else if s[0].0 == k {
        seq![(k, v)] + s.drop_first()
    } else {
        seq![(k, v)] + s
    }
}

/// Remove the binding for `k`, if any (first occurrence).
pub open spec fn kv_remove_spec<X>(s: Seq<(Seq<char>, X)>, k: Seq<char>) -> Seq<(Seq<char>, X)>
    decreases s.len(),
{
    if s.len() == 0 {
        s
    } else if s[0].0 == k {
        s.drop_first()
    } else {
        seq![s[0]] + kv_remove_spec(s.drop_first(), k)
    }
}

/// Every key of an inserted list is the new key or one of the old keys.
pub proof fn lemma_kv_insert_keys<X>(s: Seq<(Seq<char>, X)>, k: Seq<char>, v: X)
    ensures
        forall|m: int|
            0 <= m < kv_insert_spec(s, k, v).len() ==> (#[trigger] kv_insert_spec(s, k, v)[m]).0
                == k || (exists|n: int| 0 <= n < s.len() && s[n].0 == kv_insert_spec(s, k, v)[m].0),
    decreases s.len(),
{
    let r = kv_insert_spec(s, k, v);
    if s.len() == 0 {
    } else if str_lt(s[0].0, k) {
        lemma_kv_insert_keys(s.drop_first(), k, v);
        assert forall|m: int| 0 <= m < r.len() implies (#[trigger] r[m]).0 == k || (exists|n: int|
            0 <= n < s.len() && s[n].0 == r[m].0) by {
            if m == 0 {
                assert(s[0].0 == r[0].0);
            } else {
                let rr = kv_insert_spec(s.drop_first(), k, v);
                assert(r[m] == rr[m - 1]);
                if rr[m - 1].0 != k {
                    let n = choose|n: int|
                        0 <= n < s.drop_first().len() && s.drop_first()[n].0 == rr[m - 1].0;
                    assert(s[n + 1].0 == r[m].0);
                }
            }
        }
    } else if s[0].0 == k {
        assert forall|m: int| 0 <= m < r.len() implies (#[trigger] r[m]).0 == k || (exists|n: int|
            0 <= n < s.len() && s[n].0 == r[m].0) by {
            if m > 0 {
                assert(r[m] == s.drop_first()[m - 1]);
                assert(s[m].0 == r[m].0);
            }
        }
    } else {
        assert forall|m: int| 0 <= m < r.len() implies (#[trigger] r[m]).0 == k || (exists|n: int|
            0 <= n < s.len() && s[n].0 == r[m].0) by {
            if m > 0 {
                assert(r[m] == s[m - 1]);
                assert(s[m - 1].0 == r[m].0);
            }
        }
    }
}

/// Insertion keeps the list sorted.
pub proof fn lemma_kv_insert_sorted<X>(s: Seq<(Seq<char>, X)>, k: Seq<char>, v: X)
    requires
        kv_sorted(s),
    ensures
        kv_sorted(kv_insert_spec(s, k, v)),
    decreases s.len(),
{
    let r = kv_insert_spec(s, k, v);
    if s.len() == 0 {
    } else if str_lt(s[0].0, k) {
        let d = s.drop_first();
        assert(kv_sorted(d)) by {
            assert forall|i: int, j: int| 0 <= i < j < d.len() implies str_lt(
                #[trigger] d[i].0,
                #[trigger] d[j].0,
            ) by {
                assert(d[i] == s[i + 1] && d[j] == s[j + 1]);
            }
        }
        lemma_kv_insert_sorted(d, k, v);
        lemma_kv_insert_keys(d, k, v);
        let rr = kv_insert_spec(d, k, v);
        assert forall|i: int, j: int| 0 <= i < j < r.len() implies str_lt(
            #[trigger] r[i].0,
            #[trigger] r[j].0,
        ) by {
            if i == 0 {
                assert(r[j] == rr[j - 1]);
                if rr[j - 1].0 == k {
                } else {
                    let n = choose|n: int| 0 <= n < d.len() && d[n].0 == rr[j - 1].0;
                    assert(d[n] == s[n + 1]);
                    assert(str_lt(s[0].0, s[n + 1].0));
                }
            } else {
                assert(r[i] == rr[i - 1] && r[j] == rr[j - 1]);
            }
        }
    } else if s[0].0 == k {
        assert forall|i: int, j: int| 0 <= i < j < r.len() implies str_lt(
            #[trigger] r[i].0,
            #[trigger] r[j].0,
        ) by {
            if i == 0 {
                assert(r[j] == s[j]);
                assert(str_lt(s[0].0, s[j].0));
            } else {
                assert(r[i] == s[i] && r[j] == s[j]);
            }
        }
    } else {
        lemma_str_lt_total(s[0].0, k);
        assert(str_lt(k, s[0].0));
        assert forall|i: int, j: int| 0 <= i < j < r.len() implies str_lt(
            #[trigger] r[i].0,
            #[trigger] r[j].0,
        ) by {
            if i == 0 {
                assert(r[j] == s[j - 1]);
                if j > 1 {
                    lemma_str_lt_trans(k, s[0].0, s[j - 1].0);
                }
            } else {
                assert(r[i] == s[i - 1] && r[j] == s[j - 1]);
            }
        }
    }
}

/// Inserting a key greater than every present key appends at the end.
pub proof fn lemma_kv_insert_append<X>(s: Seq<(Seq<char>, X)>, k: Seq<char>, v: X)
    requires
        forall|m: int| 0 <= m < s.len() ==> str_lt((#[trigger] s[m]).0, k),
    ensures
        kv_insert_spec(s, k, v) == s.push((k, v)),
    decreases s.len(),
{
    if s.len() == 0 {
        assert(kv_insert_spec(s, k, v) =~= s.push((k, v)));
    } else {
        let d = s.drop_first();
        assert forall|m: int| 0 <= m < d.len() implies str_lt((#[trigger] d[m]).0, k) by {
            assert(d[m] == s[m + 1]);
        }
        lemma_kv_insert_append(d, k, v);
        assert(kv_insert_spec(s, k, v) =~= s.push((k, v)));
    }
}

/// Folding the bindings of a sorted list, in order, onto a smaller sorted
/// prefix reproduces the concatenation. The working form used is: inserting
/// the bindings of `s` one after another into `acc` yields `acc + s`.
pub open spec fn kv_fold<X>(acc: Seq<(Seq<char>, X)>, s: Seq<(Seq<char>, X)>) -> Seq<
    (Seq<char>, X),
>
    decreases s.len(),
{
    if s.len() == 0 {
        acc
    } else {
        kv_fold(kv_insert_spec(acc, s[0].0, s[0].1), s.drop_first())
    }
}

/// Folding a sorted list whose keys all exceed those of the accumulator
/// appends it verbatim.
pub proof fn lemma_kv_fold_append<X>(acc: Seq<(Seq<char>, X)>, s: Seq<(Seq<char>, X)>)
    requires
        kv_sorted(acc + s),
    ensures
        kv_fold(acc, s) == acc + s,
    decreases s.len(),
{
    if s.len() == 0 {
        assert(kv_fold(acc, s) =~= acc + s);
    } else {
        let w = acc + s;
        assert forall|m: int| 0 <= m < acc.len() implies str_lt((#[trigger] acc[m]).0, s[0].0) by {
            assert(w[m] == acc[m] && w[acc.len() as int] == s[0]);
        }
        lemma_kv_insert_append(acc, s[0].0, s[0].1);
        let acc2 = acc.push((s[0].0, s[0].1));
        assert(acc2 =~= acc + seq![s[0]]);
        assert(acc2 + s.drop_first() =~= acc + s);
        lemma_kv_fold_append(acc2, s.drop_first());
    }
}

// ---------------------------------------------------------------------------
// Executable operations
// ---------------------------------------------------------------------------

/// View of an association vector: keys and values abstracted together.
pub open spec fn kvv<V: View>(s: Seq<(String, V)>) -> Seq<(Seq<char>, V::V)> {
    Seq::new(s.len(), |i: int| (s[i].0@, s[i].1@))
}

/// Is `a` lexicographically before `b`?
pub fn str_lt_exec(a: &String, b: &String) -> (r: bool)
    ensures
        r == str_lt(a@, b@),
{
    let r = str_lt_from(a.as_str(), b.as_str(), 0);
    proof {
        assert(a@.skip(0) =~= a@);
        assert(b@.skip(0) =~= b@);
    }
    r
}

fn str_lt_from(a: &str, b: &str, i: usize) -> (r: bool)
    requires
        i <= a@.len(),
        i <= b@.len(),
    ensures
        r == str_lt(a@.skip(i as int), b@.skip(i as int)),
    decreases a@.len() - i,
{
    let ghost sa = a@.skip(i as int);
    let ghost sb = b@.skip(i as int);
    let na = a.unicode_len();
    let nb = b.unicode_len();
    if i >= nb {
        false
    } else if i >= na {
        true
    } else {
        let ca = a.get_char(i);
        let cb = b.get_char(i);
        proof {
            assert(sa[0] == a@[i as int] && sb[0] == b@[i as int]);
        }
        if (ca as u32) < (cb as u32) {
            true
        } else if ca == cb {
            let r = str_lt_from(a, b, i + 1);
            proof {
                assert(sa.drop_first() =~= a@.skip(i + 1));
                assert(sb.drop_first() =~= b@.skip(i + 1));
            }
            r
        } else {
            false
        }
    }
}

/// Are two texts equal, character for character?
pub fn str_eq_exec(a: &str, b: &str) -> (r: bool)
    ensures
        r == (a@ == b@),
{
    let na = a.unicode_len();
    let nb = b.unicode_len();
    if na != nb {
        proof {
            assert(a@ != b@);
        }
        return false;
    }
    let mut k: usize = 0;
    while k < na
        invariant
            na == a@.len(),
            na == b@.len(),
            k <= na,
            forall|m: int| 0 <= m < k ==> a@[m] == b@[m],
        decreases na - k,
    {
        if a.get_char(k) != b.get_char(k) {
            return false;
        }
        k = k + 1;
    }
    proof {
        assert(a@ =~= b@);
    }
    true
}

/// Value bound to `key`, if any.
pub fn kv_find<'a, V: View>(list: &'a Vec<(String, V)>, key: &str) -> (r: Option<&'a V>)
    ensures
        match r {
            Some(v) => kv_get(kvv(list@), key@) == Some(v@),
            None => kv_get(kvv(list@), key@) is None,
        },
{
    let n = list.len();
    let mut p: usize = 0;
    proof {
        assert(kvv(list@).skip(0) =~= kvv(list@));
    }
    while p < n
        invariant
            n == list@.len(),
            p <= n,
            kv_get(kvv(list@), key@) == kv_get(kvv(list@).skip(p as int), key@),
        decreases n - p,
    {
        let ghost tail = kvv(list@).skip(p as int);
        proof {
            assert(tail[0] == (list@[p as int].0@, list@[p as int].1@));
            assert(tail.drop_first() =~= kvv(list@).skip(p + 1));
        }
        if str_eq_exec(list[p].0.as_str(), key) {
            return Some(&list[p].1);
        }
        p = p + 1;
    }
    proof {
        assert(kvv(list@).skip(p as int) =~= Seq::<(Seq<char>, V::V)>::empty());
    }
    None
}

/// Does a binding for `key` exist?
pub fn kv_contains<V: View>(list: &Vec<(String, V)>, key: &str) -> (r: bool)
    ensures
        r == kv_has(kvv(list@), key@),
{
    kv_find(list, key).is_some()
}

/// Positional characterization of [`kv_insert_spec`].
proof fn lemma_kv_insert_at<X>(s: Seq<(Seq<char>, X)>, k: Seq<char>, v: X, p: int)
    requires
        0 <= p <= s.len(),
        forall|m: int| 0 <= m < p ==> str_lt((#[trigger] s[m]).0, k),
        p < s.len() ==> !str_lt(s[p].0, k),
    ensures
        kv_insert_spec(s, k, v) == if p < s.len() && s[p].0 == k {
            s.update(p, (k, v))
        } else {
            s.subrange(0, p) + seq![(k, v)] + s.subrange(p, s.len() as int)
        },
    decreases p,
{
    if p == 0 {
        if 0 < s.len() && s[0].0 == k {
            assert(kv_insert_spec(s, k, v) =~= s.update(0, (k, v)));
        } else {
            assert(kv_insert_spec(s, k, v) =~= s.subrange(0, 0) + seq![(k, v)] + s.subrange(
                0,
                s.len() as int,
            ));
        }
    } else {
        let d = s.drop_first();
        assert forall|m: int| 0 <= m < p - 1 implies str_lt((#[trigger] d[m]).0, k) by {
            assert(d[m] == s[m + 1]);
        }
        assert(p - 1 < d.len() ==> d[p - 1] == s[p]);
        lemma_kv_insert_at(d, k, v, p - 1);
        assert(str_lt(s[0].0, k));
        if p < s.len() && s[p].0 == k {
            assert(kv_insert_spec(s, k, v) =~= s.update(p, (k, v)));
        } else {
            assert(kv_insert_spec(s, k, v) =~= s.subrange(0, p) + seq![(k, v)] + s.subrange(
                p,
                s.len() as int,
            ));
        }
    }
}

/// Bind `key` to `val`, replacing in place or inserting in key order.
pub fn kv_insert<V: View>(list: &mut Vec<(String, V)>, key: String, val: V)
    ensures
        kvv(final(list)@) == kv_insert_spec(kvv(old(list)@), key@, val@),
{
    let ghost s = kvv(old(list)@);
    let n = list.len();
    let mut p: usize = 0;
    while p < n && str_lt_exec(&list[p].0, &key)
        invariant
            n == list@.len(),
            p <= n,
            list@ == old(list)@,
            s == kvv(list@),
            forall|m: int| 0 <= m < p ==> str_lt((#[trigger] s[m]).0, key@),
        decreases n - p,
    {
        proof {
            assert(s[p as int] == (list@[p as int].0@, list@[p as int].1@));
        }
        p = p + 1;
    }
    proof {
        if p < n {
            assert(s[p as int].0 == list@[p as int].0@);
        }
        lemma_kv_insert_at(s, key@, val@, p as int);
    }
    let same = if p < n {
        str_eq_exec(list[p].0.as_str(), key.as_str())
    } else {
        false
    };
    if same {
        let p = p;
        list.remove(p);
        list.insert(p, (key, val));
        proof {
            assert(kvv(list@) =~= s.update(p as int, (key@, val@)));
        }
    } else {
        list.insert(p, (key, val));
        proof {
            assert(kvv(list@) =~= s.subrange(0, p as int) + seq![(key@, val@)] + s.subrange(
                p as int,
                s.len() as int,
            ));
        }
    }
}

/// Positional characterization of [`kv_remove_spec`].
proof fn lemma_kv_remove_at<X>(s: Seq<(Seq<char>, X)>, k: Seq<char>, p: int)
    requires
        0 <= p <= s.len(),
        forall|m: int| 0 <= m < p ==> (#[trigger] s[m]).0 != k,
        p < s.len() ==> s[p].0 == k,
    ensures
        kv_remove_spec(s, k) == if p < s.len() {
            s.subrange(0, p) + s.subrange(p + 1, s.len() as int)
        } else {
            s
        },
    decreases p,
{
    if p == 0 {
        if 0 < s.len() {
            assert(kv_remove_spec(s, k) =~= s.subrange(0, 0) + s.subrange(1, s.len() as int));
        }
    } else {
        let d = s.drop_first();
        assert forall|m: int| 0 <= m < p - 1 implies (#[trigger] d[m]).0 != k by {
            assert(d[m] == s[m + 1]);
        }
        assert(p - 1 < d.len() ==> d[p - 1] == s[p]);
        lemma_kv_remove_at(d, k, p - 1);
        if p < s.len() {
            assert(kv_remove_spec(s, k) =~= s.subrange(0, p) + s.subrange(p + 1, s.len() as int));
        } else {
            assert(kv_remove_spec(s, k) =~= s);
        }
    }
}

/// Remove the binding for `key`; reports whether one was removed.
pub fn kv_remove<V: View>(list: &mut Vec<(String, V)>, key: &str) -> (removed: bool)
    ensures
        kvv(final(list)@) == kv_remove_spec(kvv(old(list)@), key@),
        removed == kv_has(kvv(old(list)@), key@),
{
    let ghost s = kvv(old(list)@);
    let n = list.len();
    let mut p: usize = 0;
    proof {
        assert(s.skip(0) =~= s);
    }
    while p < n && !str_eq_exec(list[p].0.as_str(), key)
        invariant
            n == list@.len(),
            p <= n,
            list@ == old(list)@,
            s == kvv(list@),
            forall|m: int| 0 <= m < p ==> (#[trigger] s[m]).0 != key@,
            kv_get(s, key@) == kv_get(s.skip(p as int), key@),
        decreases n - p,
    {
        let ghost tail = s.skip(p as int);
        proof {
            assert(s[p as int] == (list@[p as int].0@, list@[p as int].1@));
            assert(tail[0] == s[p as int]);
            assert(tail.drop_first() =~= s.skip(p + 1));
        }
        p = p + 1;
    }
    proof {
        if p < n {
            assert(s[p as int].0 == list@[p as int].0@);
        }
        lemma_kv_remove_at(s, key@, p as int);
    }
    if p < n {
        list.remove(p);
        proof {
            assert(kvv(list@) =~= s.subrange(0, p as int) + s.subrange(p + 1, s.len() as int));
            let tail = s.skip(p as int);
            assert(tail[0] == s[p as int]);
        }
        true
    } else {
        proof {
            assert(s.skip(p as int) =~= Seq::<(Seq<char>, V::V)>::empty());
        }
        false
    }
}

} // verus!
