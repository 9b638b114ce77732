use vstd::prelude::*;

use crate::params::Order;
use crate::text::{lemma_text_le_total, lemma_text_le_trans, text_le, text_leq};

verus! {

/// The value a row is sorted by: absent values come first, then numbers,
/// then texts.
pub enum SortKey {
    Missing,
    Num(i64),
    Text(Vec<char>),
}

pub enum KeyView {
    Missing,
    Num(int),
    Text(Seq<char>),
}

impl View for SortKey {
    type V = KeyView;

    open spec fn view(&self) -> KeyView {
        match self {
            SortKey::Missing => KeyView::Missing,
            SortKey::Num(n) => KeyView::Num(*n as int),
            SortKey::Text(t) => KeyView::Text(t@),
        }
    }
}

pub open spec fn key_le(a: KeyView, b: KeyView) -> bool {
    match (a, b) {
        (KeyView::Missing, _) => true,
        (_, KeyView::Missing) => false,
        (KeyView::Num(x), KeyView::Num(y)) => x <= y,
        (KeyView::Num(_), KeyView::Text(_)) => true,
        (KeyView::Text(_), KeyView::Num(_)) => false,
        (KeyView::Text(x), KeyView::Text(y)) => text_le(x, y),
    }
}

/// `a` may stand before `b` in a listing sorted in direction `o`.
pub open spec fn in_order(a: KeyView, b: KeyView, o: Order) -> bool {
    match o {
        Order::ASC => key_le(a, b),
        Order::DESC => key_le(b, a),
    }
}

pub proof fn lemma_in_order_total(a: KeyView, b: KeyView, o: Order)
    ensures
        in_order(a, b, o) || in_order(b, a, o),
{
    if let (KeyView::Text(x), KeyView::Text(y)) = (a, b) {
        lemma_text_le_total(x, y);
    }
}

pub proof fn lemma_in_order_trans(a: KeyView, b: KeyView, c: KeyView, o: Order)
    requires
        in_order(a, b, o),
        in_order(b, c, o),
    ensures
        in_order(a, c, o),
{
    if let (KeyView::Text(x), KeyView::Text(y), KeyView::Text(z)) = (a, b, c) {
        match o {
            Order::ASC => lemma_text_le_trans(x, y, z),
            Order::DESC => lemma_text_le_trans(z, y, x),
        }
    }
}

/// `p` lists each position below `n` exactly once.
pub open spec fn is_ordering(p: Seq<usize>, n: nat) -> bool {
    &&& p.len() == n
    &&& forall|i: int| 0 <= i < p.len() ==> #[trigger] p[i] < n
    &&& forall|i: int, j: int| 0 <= i < j < p.len() ==> p[i] != p[j]
}

/// Positions `p` list `keys` in direction `o`.
pub open spec fn orders_keys(p: Seq<usize>, keys: Seq<KeyView>, o: Order) -> bool {
    forall|i: int, j: int|
        0 <= i < j < p.len() ==> in_order(
            #[trigger] keys[p[i] as int],
            #[trigger] keys[p[j] as int],
            o,
        )
}

/// The rows `rows` taken in the order of positions `p`.
pub open spec fn arrange<V>(rows: Seq<V>, p: Seq<usize>) -> Seq<V> {
    Seq::new(p.len(), |k: int| rows[p[k] as int])
}

/// The window of a sorted listing that a page shows.
pub open spec fn window<V>(s: Seq<V>, offset: int, limit: int) -> Seq<V> {
    if offset >= s.len() {
        Seq::empty()
    } else if offset + limit >= s.len() {
        s.subrange(offset, s.len() as int)
    } else {
        s.subrange(offset, offset + limit)
    }
}

pub open spec fn key_views(keys: Seq<SortKey>) -> Seq<KeyView> {
    keys.map_values(|k: SortKey| k@)
}

pub fn key_leq(a: &SortKey, b: &SortKey) -> (r: bool)
    ensures
        r == key_le(a@, b@),
{
    match (a, b) {
        (SortKey::Missing, _) => true,
        (_, SortKey::Missing) => false,
        (SortKey::Num(x), SortKey::Num(y)) => *x <= *y,
        (SortKey::Num(_), SortKey::Text(_)) => true,
        (SortKey::Text(_), SortKey::Num(_)) => false,
        (SortKey::Text(x), SortKey::Text(y)) => text_leq(x, y),
    }
}

fn keys_in_order(a: &SortKey, b: &SortKey, o: Order) -> (r: bool)
    ensures
        r == in_order(a@, b@, o),
{
    match o {
        Order::ASC => key_leq(a, b),
        Order::DESC => key_leq(b, a),
    }
}

/// Positions `p` keep rows whose keys tie in stored order.
pub open spec fn keeps_ties(p: Seq<usize>, keys: Seq<KeyView>, o: Order) -> bool {
    forall|i: int, j: int|
        0 <= i < j < p.len() && in_order(
            #[trigger] keys[p[j] as int],
            #[trigger] keys[p[i] as int],
            o,
        ) ==> p[i] < p[j]
}

/// Where insertion puts position `x` into `out`, scanning from `start`:
/// before the first entry that may not stand before it.
pub open spec fn insert_at(out: Seq<usize>, keys: Seq<KeyView>, o: Order, x: int, start: int) -> int
    decreases out.len() - start,
{
    if start < 0 || start >= out.len() || !in_order(keys[out[start] as int], keys[x], o) {
        start
    } else {
        insert_at(out, keys, o, x, start + 1)
    }
}

/// The first `n` positions of `keys` sorted by insertion, one after another.
pub open spec fn sorted_order(keys: Seq<KeyView>, o: Order, n: nat) -> Seq<usize>
    decreases n,
{
    if n == 0 {
        Seq::empty()
    } else {
        let prev = sorted_order(keys, o, (n - 1) as nat);
        prev.insert(insert_at(prev, keys, o, n - 1, 0), (n - 1) as usize)
    }
}

pub proof fn lemma_insert_at(out: Seq<usize>, keys: Seq<KeyView>, o: Order, x: int, start: int)
    requires
        0 <= start <= out.len(),
    ensures
        start <= insert_at(out, keys, o, x, start) <= out.len(),
        forall|k: int|
            start <= k < insert_at(out, keys, o, x, start) ==> in_order(
                #[trigger] keys[out[k] as int],
                keys[x],
                o,
            ),
        insert_at(out, keys, o, x, start) < out.len() ==> !in_order(
            keys[out[insert_at(out, keys, o, x, start)] as int],
            keys[x],
            o,
        ),
    decreases out.len() - start,
{
    if start < out.len() && in_order(keys[out[start] as int], keys[x], o) {
        lemma_insert_at(out, keys, o, x, start + 1);
    }
}

/// The insertion order lists each position once, sorted, with ties in
/// stored order.
pub proof fn lemma_sorted_order(keys: Seq<KeyView>, o: Order, n: nat)
    requires
        n <= keys.len(),
        n <= usize::MAX,
    ensures
        is_ordering(sorted_order(keys, o, n), n),
        orders_keys(sorted_order(keys, o, n), keys, o),
        keeps_ties(sorted_order(keys, o, n), keys, o),
    decreases n,
{
    if n > 0 {
        let i = n - 1;
        let before = sorted_order(keys, o, i as nat);
        lemma_sorted_order(keys, o, i as nat);
        let pos = insert_at(before, keys, o, i, 0);
        lemma_insert_at(before, keys, o, i, 0);
        let out = before.insert(pos, i as usize);
        assert(out == sorted_order(keys, o, n));
        assert forall|q: int| 0 <= q < out.len() implies #[trigger] out[q] == (if q < pos {
            before[q]
        } else if q == pos {
            i as usize
        } else {
            before[q - 1]
        }) by {}
        assert forall|q: int| 0 <= q < before.len() implies #[trigger] before[q] < i by {}
        if pos < before.len() {
            lemma_in_order_total(keys[before[pos] as int], keys[i], o);
            assert forall|b: int| pos < b < before.len() implies in_order(
                keys[i],
                #[trigger] keys[before[b] as int],
                o,
            ) && !in_order(keys[before[b] as int], keys[i], o) by {
                lemma_in_order_trans(keys[i], keys[before[pos] as int], keys[before[b] as int], o);
                if in_order(keys[before[b] as int], keys[i], o) {
                    lemma_in_order_trans(keys[before[pos] as int], keys[before[b] as int], keys[i], o);
                }
            }
        }
        assert forall|a: int, b: int| 0 <= a < b < out.len() implies in_order(
            #[trigger] keys[out[a] as int],
            #[trigger] keys[out[b] as int],
            o,
        ) by {
            if b < pos {
            } else if b == pos {
            } else if a < pos {
                assert(in_order(keys[before[a] as int], keys[i], o));
                assert(in_order(keys[i], keys[before[b - 1] as int], o));
                lemma_in_order_trans(keys[before[a] as int], keys[i], keys[before[b - 1] as int], o);
            } else if a == pos {
                assert(in_order(keys[i], keys[before[b - 1] as int], o));
            } else {
                assert(in_order(keys[before[a - 1] as int], keys[before[b - 1] as int], o));
            }
        }
        assert forall|a: int, b: int|
            0 <= a < b < out.len() && in_order(
                #[trigger] keys[out[b] as int],
                #[trigger] keys[out[a] as int],
                o,
            ) implies out[a] < out[b] by {
            if b < pos {
                assert(in_order(keys[before[b] as int], keys[before[a] as int], o));
            } else if b == pos {
                assert(before[a] < i);
            } else if a < pos {
                assert(in_order(keys[before[b - 1] as int], keys[before[a] as int], o));
            } else if a == pos {
                assert(!in_order(keys[before[b - 1] as int], keys[i], o));
            } else {
                assert(in_order(keys[before[b - 1] as int], keys[before[a - 1] as int], o));
                assert(before[a - 1] < before[b - 1]);
            }
        }
        assert forall|q: int| 0 <= q < out.len() implies #[trigger] out[q] < n by {
            if q != pos {
                assert(before[if q < pos { q } else { q - 1 }] < i);
            }
        }
        assert forall|a: int, b: int| 0 <= a < b < out.len() implies out[a] != out[b] by {
            if a != pos && b != pos {
                let a0 = if a < pos { a } else { a - 1 };
                let b0 = if b < pos { b } else { b - 1 };
                assert(before[a0] != before[b0]);
            } else if a == pos {
                assert(before[b - 1] < i);
            } else {
                assert(before[a] < i);
            }
        }
    }
}

/// The positions of `keys` in sorted order, by insertion.
pub fn sorted_positions(keys: &Vec<SortKey>, o: Order) -> (p: Vec<usize>)
    ensures
        p@ == sorted_order(key_views(keys@), o, keys@.len()),
        is_ordering(p@, keys@.len()),
        orders_keys(p@, key_views(keys@), o),
        keeps_ties(p@, key_views(keys@), o),
{
    let ghost kv = key_views(keys@);
    let n = keys.len();
    let mut out: Vec<usize> = Vec::new();
    let mut i: usize = 0;
    while i < n
        invariant
            n == keys@.len(),
            kv == key_views(keys@),
            i <= n,
            out@ == sorted_order(kv, o, i as nat),
        decreases n - i,
    {
        proof {
            lemma_sorted_order(kv, o, i as nat);
        }
        let mut pos: usize = 0;
        while pos < out.len() && keys_in_order(&keys[out[pos]], &keys[i], o)
            invariant
                n == keys@.len(),
                kv == key_views(keys@),
                i < n,
                is_ordering(out@, i as nat),
                pos <= out@.len(),
                insert_at(out@, kv, o, i as int, 0) == insert_at(out@, kv, o, i as int, pos as int),
            decreases out@.len() - pos,
        {
            pos = pos + 1;
        }
        out.insert(pos, i);
        i = i + 1;
    }
    proof {
        lemma_sorted_order(kv, o, n as nat);
    }
    out
}

} // verus!
