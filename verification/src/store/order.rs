//! Rows of a room are kept in `ORDER BY created_at, id` order: by creation
//! time, then by identifier in code point order.
use vstd::prelude::*;

use crate::text::{lemma_seq_lt_total, lemma_seq_lt_transitive, seq_lt, str_lt};

verus! {

/// `a` sorts before `b` by creation time, then identifier.
pub open spec fn key_lt(a: (i64, Seq<char>), b: (i64, Seq<char>)) -> bool {
    a.0 < b.0 || (a.0 == b.0 && seq_lt(a.1, b.1))
}

/// Each key sorts strictly before every later key.
pub open spec fn strictly_sorted(s: Seq<(i64, Seq<char>)>) -> bool {
    forall|i: int, j: int| 0 <= i < j < s.len() ==> key_lt(#[trigger] s[i], #[trigger] s[j])
}

/// Where a new key goes: after every key that sorts before it.
pub open spec fn insert_pos(s: Seq<(i64, Seq<char>)>, k: (i64, Seq<char>)) -> int
    decreases s.len(),
{
    if s.len() == 0 {
        0
    } else if key_lt(k, s.last()) {
        insert_pos(s.drop_last(), k)
    } else {
        s.len() as int
    }
}

/// No two keys carry the same identifier.
pub open spec fn idents_distinct(s: Seq<(i64, Seq<char>)>) -> bool {
    forall|i: int, j: int|
        0 <= i < s.len() && 0 <= j < s.len() && i != j ==> (#[trigger] s[i]).1 != (#[trigger] s[j]).1
}

/// Inserting a key with a fresh identifier keeps identifiers distinct.
pub proof fn lemma_idents_insert(s: Seq<(i64, Seq<char>)>, p: int, k: (i64, Seq<char>))
    requires
        idents_distinct(s),
        ident_fresh(s, k.1),
        0 <= p <= s.len(),
    ensures
        idents_distinct(s.insert(p, k)),
{
    let r = s.insert(p, k);
    assert forall|i: int, j: int| 0 <= i < r.len() && 0 <= j < r.len() && i != j implies (#[trigger] r[i]).1
        != (#[trigger] r[j]).1 by {
        let i2 = if i < p { i } else { i - 1 };
        let j2 = if j < p { j } else { j - 1 };
        if i != p && j != p {
            assert(r[i] == s[i2] && r[j] == s[j2]);
        } else if i == p {
            assert(r[j] == s[j2]);
        } else {
            assert(r[i] == s[i2]);
        }
    }
}

/// A run of consecutive keys keeps identifiers distinct.
pub proof fn lemma_idents_subrange(s: Seq<(i64, Seq<char>)>, a: int, b: int)
    requires
        idents_distinct(s),
        0 <= a <= b <= s.len(),
    ensures
        idents_distinct(s.subrange(a, b)),
{
    let r = s.subrange(a, b);
    assert forall|i: int, j: int| 0 <= i < r.len() && 0 <= j < r.len() && i != j implies (#[trigger] r[i]).1
        != (#[trigger] r[j]).1 by {
        assert(r[i] == s[i + a] && r[j] == s[j + a]);
    }
}

/// No key of `s` carries the identifier `id`.
pub open spec fn ident_fresh(s: Seq<(i64, Seq<char>)>, id: Seq<char>) -> bool {
    forall|i: int| 0 <= i < s.len() ==> (#[trigger] s[i]).1 != id
}

pub proof fn lemma_key_lt_transitive(a: (i64, Seq<char>), b: (i64, Seq<char>), c: (i64, Seq<char>))
    requires
        key_lt(a, b),
        key_lt(b, c),
    ensures
        key_lt(a, c),
{
    if a.0 == b.0 && b.0 == c.0 {
        lemma_seq_lt_transitive(a.1, b.1, c.1);
    }
}

pub proof fn lemma_key_lt_total(a: (i64, Seq<char>), b: (i64, Seq<char>))
    requires
        a.1 != b.1,
    ensures
        key_lt(a, b) || key_lt(b, a),
{
    lemma_seq_lt_total(a.1, b.1);
}

/// The insertion point splits a sorted sequence into the keys before and
/// after the new one, and inserting there keeps it sorted.
pub proof fn lemma_insert_pos(s: Seq<(i64, Seq<char>)>, k: (i64, Seq<char>))
    requires
        strictly_sorted(s),
        ident_fresh(s, k.1),
    ensures
        0 <= insert_pos(s, k) <= s.len(),
        forall|i: int| 0 <= i < insert_pos(s, k) ==> key_lt(#[trigger] s[i], k),
        forall|i: int| insert_pos(s, k) <= i < s.len() ==> key_lt(k, #[trigger] s[i]),
        strictly_sorted(s.insert(insert_pos(s, k), k)),
    decreases s.len(),
{
    let p = insert_pos(s, k);
    if s.len() == 0 {
    } else if key_lt(k, s.last()) {
        let t = s.drop_last();
        assert(strictly_sorted(t));
        assert(ident_fresh(t, k.1));
        lemma_insert_pos(t, k);
        assert forall|i: int| 0 <= i < p implies key_lt(#[trigger] s[i], k) by {
            assert(t[i] == s[i]);
        }
        assert forall|i: int| p <= i < s.len() implies key_lt(k, #[trigger] s[i]) by {
            if i < s.len() - 1 {
                assert(t[i] == s[i]);
            }
        }
    } else {
        lemma_key_lt_total(k, s.last());
        assert forall|i: int| 0 <= i < p implies key_lt(#[trigger] s[i], k) by {
            if i < s.len() - 1 {
                lemma_key_lt_transitive(s[i], s.last(), k);
            }
        }
    }
    let r = s.insert(p, k);
    assert forall|i: int, j: int| 0 <= i < j < r.len() implies key_lt(#[trigger] r[i], #[trigger] r[j]) by {
        if j < p {
        } else if j == p {
        } else if i < p {
            lemma_key_lt_transitive(r[i], k, r[j]);
        } else if i == p {
        } else {
        }
    }
}

/// A row with a creation time and an identifier.
pub trait Ordered {
    spec fn order_key(&self) -> (i64, Seq<char>);

    fn created(&self) -> (t: i64)
        ensures
            t == self.order_key().0,
    ;

    fn ident(&self) -> (s: &str)
        ensures
            s@ == self.order_key().1,
    ;
}

pub open spec fn keys_of<T: Ordered>(s: Seq<T>) -> Seq<(i64, Seq<char>)> {
    s.map_values(|e: T| e.order_key())
}

/// Whether key `(at, aid)` sorts before `(bt, bid)`.
pub fn key_before(at: i64, aid: &str, bt: i64, bid: &str) -> (r: bool)
    ensures
        r == key_lt((at, aid@), (bt, bid@)),
{
    at < bt || (at == bt && str_lt(aid, bid))
}

/// Inserts `x` at its place in the order.
pub fn insert_ordered<T: Ordered>(v: &mut Vec<T>, x: T)
    ensures
        final(v)@ == old(v)@.insert(insert_pos(keys_of(old(v)@), x.order_key()), x),
{
    let ghost keys = keys_of(v@);
    let mut p: usize = v.len();
    assert(keys.subrange(0, p as int) =~= keys);
    while p > 0 && key_before(x.created(), x.ident(), v[p - 1].created(), v[p - 1].ident())
        invariant
            p <= v@.len(),
            keys == keys_of(v@),
            insert_pos(keys.subrange(0, p as int), x.order_key()) == insert_pos(
                keys,
                x.order_key(),
            ),
        decreases p,
    {
        assert(keys.subrange(0, p as int).drop_last() =~= keys.subrange(0, p - 1));
        assert(keys.subrange(0, p as int).last() == keys[p - 1]);
        p = p - 1;
    }
    if p > 0 {
        assert(keys.subrange(0, p as int).last() == keys[p - 1]);
    }
    v.insert(p, x);
}

} // verus!
