//! The recursive-length-prefix wire format, restricted to what the protocol
//! sends: unsigned integers, lists of integers, and lists of such lists.
use vstd::prelude::*;

verus! {

/// 256 to the power `k`.
pub open spec fn pow256(k: nat) -> nat
    decreases k,
{
    if k == 0 {
        1
    } else {
        256 * pow256((k - 1) as nat)
    }
}

/// Minimal big-endian bytes of `x`: empty for zero, no leading zero byte otherwise.
pub open spec fn be_bytes(x: nat) -> Seq<u8>
    decreases x,
{
    if x == 0 {
        Seq::empty()
    } else {
        be_bytes(x / 256).push((x % 256) as u8)
    }
}

/// Encoding of one unsigned integer as a byte string item.
pub open spec fn rlp_u64(x: u64) -> Seq<u8> {
    if x == 0 {
        seq![0x80u8]
    } else if x < 0x80 {
        seq![x as u8]
    } else {
        seq![(0x80 + be_bytes(x as nat).len()) as u8] + be_bytes(x as nat)
    }
}

/// Encoding of a list item whose items, already encoded, make up `payload`.
pub open spec fn rlp_list(payload: Seq<u8>) -> Seq<u8> {
    if payload.len() <= 55 {
        seq![(0xc0 + payload.len()) as u8] + payload
    } else {
        seq![(0xf7 + be_bytes(payload.len()).len()) as u8] + be_bytes(payload.len()) + payload
    }
}

/// The byte strings of `items`, one after the other.
pub open spec fn join(items: Seq<Seq<u8>>) -> Seq<u8>
    decreases items.len(),
{
    if items.len() == 0 {
        Seq::empty()
    } else {
        items[0] + join(items.drop_first())
    }
}

/// Concatenated encodings of a sequence of integers.
pub open spec fn u64_items(v: Seq<u64>) -> Seq<u8> {
    join(v.map_values(|x: u64| rlp_u64(x)))
}

/// Encoding of a list of integers.
pub open spec fn u64_list_rlp(v: Seq<u64>) -> Seq<u8> {
    rlp_list(u64_items(v))
}

/// Concatenated encodings of a sequence of integer lists.
pub open spec fn row_items(rows: Seq<Seq<u64>>) -> Seq<u8> {
    join(rows.map_values(|r: Seq<u64>| u64_list_rlp(r)))
}

/// Encoding of a list of integer lists.
pub open spec fn rows_rlp(rows: Seq<Seq<u64>>) -> Seq<u8> {
    rlp_list(row_items(rows))
}

/// Largest payload length a list header can carry here (four length bytes).
pub open spec fn payload_fits(payload: Seq<u8>) -> bool {
    payload.len() < 0x1_0000_0000
}

pub proof fn lemma_be_bytes_bound(x: nat, k: nat)
    requires
        x < pow256(k),
    ensures
        be_bytes(x).len() <= k,
    decreases x,
{
    if x > 0 {
        assert(k > 0);
        let p = pow256((k - 1) as nat);
        assert(x / 256 < p) by (nonlinear_arith)
            requires
                x < 256 * p,
        ;
        lemma_be_bytes_bound(x / 256, (k - 1) as nat);
    }
}

pub proof fn lemma_be_bytes_u64(x: u64)
    ensures
        be_bytes(x as nat).len() <= 8,
        x > 0 ==> be_bytes(x as nat).len() >= 1,
{
    reveal_with_fuel(pow256, 9);
    assert(pow256(8) == 0x1_0000_0000_0000_0000);
    lemma_be_bytes_bound(x as nat, 8);
}

pub proof fn lemma_be_bytes_u32(x: nat)
    requires
        x < 0x1_0000_0000,
    ensures
        be_bytes(x).len() <= 4,
        x > 0 ==> be_bytes(x).len() >= 1,
{
    reveal_with_fuel(pow256, 5);
    assert(pow256(4) == 0x1_0000_0000);
    lemma_be_bytes_bound(x, 4);
}

pub proof fn lemma_be_bytes_injective(x: nat, y: nat)
    requires
        be_bytes(x) == be_bytes(y),
    ensures
        x == y,
    decreases x,
{
    if x != 0 && y != 0 {
        let bx = be_bytes(x);
        let by = be_bytes(y);
        assert(bx.drop_last() == be_bytes(x / 256));
        assert(by.drop_last() == be_bytes(y / 256));
        lemma_be_bytes_injective(x / 256, y / 256);
        assert(bx.last() == (x % 256) as u8);
        assert(x % 256 == y % 256);
        assert(x == y) by (nonlinear_arith)
            requires
                x / 256 == y / 256,
                x % 256 == y % 256,
        ;
    } else if x != 0 {
        assert(be_bytes(x).len() > 0);
    } else if y != 0 {
        assert(be_bytes(y).len() > 0);
    }
}

/// Length of an item as its first byte announces it, for items of at most
/// 55 payload bytes.
pub open spec fn short_item_len(first: u8) -> int {
    if first < 0x80 {
        1
    } else if first <= 0xb7 {
        first - 0x7f
    } else {
        first - 0xbf
    }
}

pub proof fn lemma_rlp_u64_shape(x: u64)
    ensures
        rlp_u64(x).len() >= 1,
        rlp_u64(x).len() <= 9,
        rlp_u64(x)[0] <= 0xb7,
        rlp_u64(x).len() == short_item_len(rlp_u64(x)[0]),
{
    lemma_be_bytes_u64(x);
}

pub proof fn lemma_rlp_u64_injective(x: u64, y: u64)
    requires
        rlp_u64(x) == rlp_u64(y),
    ensures
        x == y,
{
    lemma_be_bytes_u64(x);
    lemma_be_bytes_u64(y);
    let ex = rlp_u64(x);
    if x >= 0x80 && y >= 0x80 {
        assert(be_bytes(x as nat) == ex.subrange(1, ex.len() as int));
        assert(be_bytes(y as nat) == ex.subrange(1, ex.len() as int));
        lemma_be_bytes_injective(x as nat, y as nat);
    } else if x >= 0x80 || y >= 0x80 {
        assert(ex.len() != rlp_u64(y).len() || ex[0] != rlp_u64(y)[0]);
    } else {
        assert(ex[0] == rlp_u64(y)[0]);
    }
}

/// Splitting `a + s` where `a` is an item of known length.
pub proof fn lemma_split(a: Seq<u8>, s: Seq<u8>, b: Seq<u8>, t: Seq<u8>)
    requires
        a + s == b + t,
        a.len() == b.len(),
    ensures
        a == b,
        s == t,
{
    assert(a == (a + s).subrange(0, a.len() as int));
    assert(b == (b + t).subrange(0, b.len() as int));
    assert(s == (a + s).subrange(a.len() as int, (a + s).len() as int));
    assert(t == (b + t).subrange(b.len() as int, (b + t).len() as int));
}

pub proof fn lemma_rlp_u64_prefix(x: u64, s: Seq<u8>, y: u64, t: Seq<u8>)
    requires
        rlp_u64(x) + s == rlp_u64(y) + t,
    ensures
        x == y,
        s == t,
{
    lemma_rlp_u64_shape(x);
    lemma_rlp_u64_shape(y);
    assert(rlp_u64(x)[0] == (rlp_u64(x) + s)[0]);
    assert(rlp_u64(y)[0] == (rlp_u64(y) + t)[0]);
    lemma_split(rlp_u64(x), s, rlp_u64(y), t);
    lemma_rlp_u64_injective(x, y);
}

pub proof fn lemma_rlp_list_prefix(p: Seq<u8>, s: Seq<u8>, q: Seq<u8>, t: Seq<u8>)
    requires
        payload_fits(p),
        payload_fits(q),
        rlp_list(p) + s == rlp_list(q) + t,
    ensures
        p == q,
        s == t,
{
    lemma_be_bytes_u32(p.len());
    lemma_be_bytes_u32(q.len());
    let lp = rlp_list(p);
    let lq = rlp_list(q);
    assert(lp[0] == (lp + s)[0]);
    assert(lq[0] == (lq + t)[0]);
    if p.len() <= 55 && q.len() <= 55 {
        lemma_split(lp, s, lq, t);
        assert(p == lp.subrange(1, lp.len() as int));
        assert(q == lq.subrange(1, lq.len() as int));
    } else if p.len() > 55 && q.len() > 55 {
        let bp = be_bytes(p.len());
        let bq = be_bytes(q.len());
        assert(bp.len() == bq.len());
        assert(lp == seq![lp[0]] + (bp + p));
        assert(lq == seq![lq[0]] + (bq + q));
        assert(lp + s == seq![lp[0]] + (bp + (p + s)));
        assert(lq + t == seq![lq[0]] + (bq + (q + t)));
        lemma_split(seq![lp[0]], bp + (p + s), seq![lq[0]], bq + (q + t));
        assert(bp + (p + s) == bq + (q + t));
        lemma_split(bp, p + s, bq, q + t);
        lemma_be_bytes_injective(p.len(), q.len());
        lemma_split(p, s, q, t);
    }
}

pub proof fn lemma_rlp_list_shape(p: Seq<u8>)
    requires
        payload_fits(p),
    ensures
        rlp_list(p).len() >= 1,
        rlp_list(p).len() <= p.len() + 5,
{
    lemma_be_bytes_u32(p.len());
}

pub proof fn lemma_join_push(items: Seq<Seq<u8>>, x: Seq<u8>)
    ensures
        join(items.push(x)) == join(items) + x,
    decreases items.len(),
{
    if items.len() == 0 {
        assert(items.push(x).drop_first() =~= Seq::<Seq<u8>>::empty());
        assert(join(Seq::<Seq<u8>>::empty()) =~= Seq::empty());
        assert(items.push(x)[0] == x);
        assert(join(items.push(x)) =~= x);
    } else {
        assert(items.push(x).drop_first() =~= items.drop_first().push(x));
        lemma_join_push(items.drop_first(), x);
        assert(join(items.push(x)) =~= join(items) + x);
    }
}

pub proof fn lemma_u64_items_injective(a: Seq<u64>, b: Seq<u64>)
    requires
        u64_items(a) == u64_items(b),
    ensures
        a == b,
    decreases a.len(),
{
    let ma = a.map_values(|x: u64| rlp_u64(x));
    let mb = b.map_values(|x: u64| rlp_u64(x));
    if a.len() > 0 && b.len() > 0 {
        assert(ma.drop_first() =~= a.drop_first().map_values(|x: u64| rlp_u64(x)));
        assert(mb.drop_first() =~= b.drop_first().map_values(|x: u64| rlp_u64(x)));
        lemma_rlp_u64_prefix(a[0], join(ma.drop_first()), b[0], join(mb.drop_first()));
        lemma_u64_items_injective(a.drop_first(), b.drop_first());
        assert(a =~= seq![a[0]] + a.drop_first());
        assert(b =~= seq![b[0]] + b.drop_first());
    } else if a.len() > 0 {
        lemma_rlp_u64_shape(a[0]);
        assert(u64_items(a).len() > 0);
    } else if b.len() > 0 {
        lemma_rlp_u64_shape(b[0]);
        assert(u64_items(b).len() > 0);
    } else {
        assert(a =~= b);
    }
}

pub proof fn lemma_u64_list_injective(a: Seq<u64>, b: Seq<u64>)
    requires
        payload_fits(u64_items(a)),
        payload_fits(u64_items(b)),
        u64_list_rlp(a) == u64_list_rlp(b),
    ensures
        a == b,
{
    assert(u64_list_rlp(a) + Seq::empty() == u64_list_rlp(b) + Seq::empty());
    lemma_rlp_list_prefix(u64_items(a), Seq::empty(), u64_items(b), Seq::empty());
    lemma_u64_items_injective(a, b);
}

/// Every list of `rows`, and the outer list, fits its header.
pub open spec fn rows_fit(rows: Seq<Seq<u64>>) -> bool {
    &&& payload_fits(row_items(rows))
    &&& forall|k: int| 0 <= k < rows.len() ==> payload_fits(#[trigger] u64_items(rows[k]))
}

pub proof fn lemma_u64_items_push(v: Seq<u64>, x: u64)
    ensures
        u64_items(v.push(x)) == u64_items(v) + rlp_u64(x),
{
    assert(v.push(x).map_values(|y: u64| rlp_u64(y)) =~= v.map_values(|y: u64| rlp_u64(y)).push(
        rlp_u64(x),
    ));
    lemma_join_push(v.map_values(|y: u64| rlp_u64(y)), rlp_u64(x));
}

pub proof fn lemma_row_items_push(rows: Seq<Seq<u64>>, r: Seq<u64>)
    ensures
        row_items(rows.push(r)) == row_items(rows) + u64_list_rlp(r),
{
    assert(rows.push(r).map_values(|y: Seq<u64>| u64_list_rlp(y)) =~= rows.map_values(
        |y: Seq<u64>| u64_list_rlp(y),
    ).push(u64_list_rlp(r)));
    lemma_join_push(rows.map_values(|y: Seq<u64>| u64_list_rlp(y)), u64_list_rlp(r));
}

pub proof fn lemma_row_items_injective(a: Seq<Seq<u64>>, b: Seq<Seq<u64>>)
    requires
        forall|k: int| 0 <= k < a.len() ==> payload_fits(#[trigger] u64_items(a[k])),
        forall|k: int| 0 <= k < b.len() ==> payload_fits(#[trigger] u64_items(b[k])),
        row_items(a) == row_items(b),
    ensures
        a == b,
    decreases a.len(),
{
    let ma = a.map_values(|r: Seq<u64>| u64_list_rlp(r));
    let mb = b.map_values(|r: Seq<u64>| u64_list_rlp(r));
    if a.len() > 0 && b.len() > 0 {
        assert(ma.drop_first() =~= a.drop_first().map_values(|r: Seq<u64>| u64_list_rlp(r)));
        assert(mb.drop_first() =~= b.drop_first().map_values(|r: Seq<u64>| u64_list_rlp(r)));
        assert(payload_fits(u64_items(a[0])));
        assert(payload_fits(u64_items(b[0])));
        lemma_rlp_list_prefix(
            u64_items(a[0]),
            join(ma.drop_first()),
            u64_items(b[0]),
            join(mb.drop_first()),
        );
        lemma_u64_items_injective(a[0], b[0]);
        assert forall|k: int| 0 <= k < a.drop_first().len() implies payload_fits(
            #[trigger] u64_items(a.drop_first()[k]),
        ) by {
            assert(a.drop_first()[k] == a[k + 1]);
        }
        assert forall|k: int| 0 <= k < b.drop_first().len() implies payload_fits(
            #[trigger] u64_items(b.drop_first()[k]),
        ) by {
            assert(b.drop_first()[k] == b[k + 1]);
        }
        lemma_row_items_injective(a.drop_first(), b.drop_first());
        assert(a =~= seq![a[0]] + a.drop_first());
        assert(b =~= seq![b[0]] + b.drop_first());
    } else if a.len() > 0 {
        assert(payload_fits(u64_items(a[0])));
        lemma_rlp_list_shape(u64_items(a[0]));
        assert(row_items(a).len() > 0);
    } else if b.len() > 0 {
        assert(payload_fits(u64_items(b[0])));
        lemma_rlp_list_shape(u64_items(b[0]));
        assert(row_items(b).len() > 0);
    } else {
        assert(a =~= b);
    }
}

pub proof fn lemma_rows_injective(a: Seq<Seq<u64>>, b: Seq<Seq<u64>>)
    requires
        rows_fit(a),
        rows_fit(b),
        rows_rlp(a) == rows_rlp(b),
    ensures
        a == b,
{
    assert(rows_rlp(a) + Seq::empty() == rows_rlp(b) + Seq::empty());
    lemma_rlp_list_prefix(row_items(a), Seq::empty(), row_items(b), Seq::empty());
    lemma_row_items_injective(a, b);
}

/// The integers whose list encoding is `b`, if `b` is one.
pub open spec fn decoded_u64_list(b: Seq<u8>) -> Option<Seq<u64>> {
    if exists|v: Seq<u64>| u64_list_rlp(v) == b && payload_fits(u64_items(v)) {
        Some(choose|v: Seq<u64>| u64_list_rlp(v) == b && payload_fits(u64_items(v)))
    } else {
        None
    }
}

/// The integer lists whose encoding is `b`, if `b` is one.
pub open spec fn decoded_rows(b: Seq<u8>) -> Option<Seq<Seq<u64>>> {
    if exists|rows: Seq<Seq<u64>>| rows_rlp(rows) == b && rows_fit(rows) {
        Some(choose|rows: Seq<Seq<u64>>| rows_rlp(rows) == b && rows_fit(rows))
    } else {
        None
    }
}

/// A list of integers is read back from its encoding unchanged.
pub proof fn lemma_u64_list_round_trip(v: Seq<u64>)
    requires
        payload_fits(u64_items(v)),
    ensures
        decoded_u64_list(u64_list_rlp(v)) == Some(v),
{
    let b = u64_list_rlp(v);
    assert(u64_list_rlp(v) == b && payload_fits(u64_items(v)));
    let w = choose|w: Seq<u64>| u64_list_rlp(w) == b && payload_fits(u64_items(w));
    lemma_u64_list_injective(w, v);
}

/// A list of integer lists is read back from its encoding unchanged.
pub proof fn lemma_rows_round_trip(rows: Seq<Seq<u64>>)
    requires
        rows_fit(rows),
    ensures
        decoded_rows(rows_rlp(rows)) == Some(rows),
{
    let b = rows_rlp(rows);
    assert(rows_rlp(rows) == b && rows_fit(rows));
    let w = choose|w: Seq<Seq<u64>>| rows_rlp(w) == b && rows_fit(w);
    lemma_rows_injective(w, rows);
}

} // verus!
