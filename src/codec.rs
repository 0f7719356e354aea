//! Encoding and decoding of the two payload shapes the protocol uses: a list
//! of integers and a list of integer lists. The byte work is done by the
//! `rlp` crate; the framing of items into lists is done here.
use crate::rlp_format::{
    lemma_row_items_push, lemma_rows_round_trip, lemma_u64_items_push,
    lemma_u64_list_round_trip, payload_fits, rlp_list, decoded_rows, decoded_u64_list, rlp_u64, row_items, rows_fit,
    rows_rlp, u64_items, u64_list_rlp,
};
use vstd::prelude::*;

verus! {

#[verifier::external_type_specification]
#[verifier::external_body]
pub struct ExDecoderError(rlp::DecoderError);

/// Why a payload could not be read.
#[derive(Debug, Clone, Copy, PartialEq, Eq, Structural)]
pub enum DecodeError {
    /// The bytes are not a well-formed encoding of the expected shape.
    Malformed,
    /// The bytes are well formed but hold the wrong number of fields.
    WrongFieldCount,
}

/// Relies on `rlp::encode` for `u64`: the minimal big-endian bytes of the
/// value as one string item (`0x80` for zero, the byte itself below `0x80`).
#[verifier::external_body]
fn rlp_encode_u64(x: u64) -> (r: Vec<u8>)
    ensures
        r@ == rlp_u64(x),
{
    rlp::encode(&x).to_vec()
}

/// Relies on `rlp::RlpStream::new_list` and `append_raw`: once the `count`
/// announced items are appended, the stream puts the list header for the
/// payload length before them.
#[verifier::external_body]
fn rlp_wrap_list(payload: &[u8], count: usize) -> (r: Vec<u8>)
    requires
        payload@.len() < 0x1_0000_0000,
        count == 0 ==> payload@.len() == 0,
    ensures
        r@ == rlp_list(payload@),
{
    let mut stream = rlp::RlpStream::new_list(count);
    stream.append_raw(payload, count);
    stream.out().to_vec()
}

/// Relies on `rlp::Rlp::as_list::<u64>`: a list of canonical integer items
/// decodes to those integers.
#[verifier::external_body]
fn rlp_decode_u64_list(b: &[u8]) -> (r: Result<Vec<u64>, rlp::DecoderError>)
    ensures
        decoded_u64_list(b@) is Some ==> list_result_is(r, decoded_u64_list(b@)->0),
{
    rlp::Rlp::new(b).as_list::<u64>()
}

/// Relies on `rlp::Rlp::item_count`: the number of items of a list.
#[verifier::external_body]
fn rlp_item_count(b: &[u8]) -> (r: Result<usize, rlp::DecoderError>)
    ensures
        decoded_rows(b@) is Some ==> count_result_is(r, decoded_rows(b@)->0.len() as int),
{
    rlp::Rlp::new(b).item_count()
}

/// Relies on `rlp::Rlp::list_at::<u64>`: the integers of the list item at
/// position `i` of a list.
#[verifier::external_body]
fn rlp_u64_list_at(b: &[u8], i: usize) -> (r: Result<Vec<u64>, rlp::DecoderError>)
    ensures
        row_at(decoded_rows(b@), i as int) is Some ==> list_result_is(r, row_at(decoded_rows(b@), i as int)->0),
{
    rlp::Rlp::new(b).list_at::<u64>(i)
}

/// Whether a decoder result is the integer list `v`.
pub open spec fn list_result_is(r: Result<Vec<u64>, rlp::DecoderError>, v: Seq<u64>) -> bool {
    r matches Ok(w) && w@ == v
}

/// Whether a decoder result is the count `n`.
pub open spec fn count_result_is(r: Result<usize, rlp::DecoderError>, n: int) -> bool {
    r matches Ok(c) && c == n
}

/// The row at position `i` of a decoded list, if there is one.
pub open spec fn row_at(rows: Option<Seq<Seq<u64>>>, i: int) -> Option<Seq<u64>> {
    match rows {
        Some(rs) => if 0 <= i < rs.len() {
            Some(rs[i])
        } else {
            None
        },
        None => None,
    }
}

/// The integer lists held by a vector of vectors.
pub open spec fn rows_view(rows: Seq<Vec<u64>>) -> Seq<Seq<u64>> {
    rows.map_values(|r: Vec<u64>| r@)
}

/// Encodes a list of integers; `None` when the payload is too long for a list header.
pub fn encode_u64_list(v: &[u64]) -> (r: Option<Vec<u8>>)
    ensures
        r is Some <==> payload_fits(u64_items(v@)),
        r matches Some(b) ==> b@ == u64_list_rlp(v@),
{
    let mut payload: Vec<u8> = Vec::new();
    let mut i: usize = 0;
    while i < v.len()
        invariant
            i <= v@.len(),
            payload@ == u64_items(v@.subrange(0, i as int)),
        decreases v@.len() - i,
    {
        let mut item = rlp_encode_u64(v[i]);
        proof {
            lemma_u64_items_push(v@.subrange(0, i as int), v@[i as int]);
            assert(v@.subrange(0, i as int).push(v@[i as int]) =~= v@.subrange(0, i + 1));
        }
        payload.append(&mut item);
        i = i + 1;
    }
    assert(v@.subrange(0, v@.len() as int) =~= v@);
    if (payload.len() as u64) < 0x1_0000_0000u64 {
        proof {
            if v@.len() == 0 {
                assert(payload@ =~= Seq::<u8>::empty());
            }
        }
        Some(rlp_wrap_list(payload.as_slice(), v.len()))
    } else {
        None
    }
}

/// Encodes a list of integer lists; `None` when some payload is too long for a list header.
pub fn encode_rows(rows: &Vec<Vec<u64>>) -> (r: Option<Vec<u8>>)
    ensures
        r is Some <==> rows_fit(rows_view(rows@)),
        r matches Some(b) ==> b@ == rows_rlp(rows_view(rows@)),
{
    let ghost view = rows_view(rows@);
    let mut payload: Vec<u8> = Vec::new();
    let mut i: usize = 0;
    while i < rows.len()
        invariant
            i <= rows@.len(),
            view == rows_view(rows@),
            payload@ == row_items(view.subrange(0, i as int)),
            forall|k: int| 0 <= k < i ==> payload_fits(#[trigger] u64_items(view[k])),
        decreases rows@.len() - i,
    {
        match encode_u64_list(rows[i].as_slice()) {
            Some(item) => {
                let mut item = item;
                proof {
                    lemma_row_items_push(view.subrange(0, i as int), view[i as int]);
                    assert(view.subrange(0, i as int).push(view[i as int]) =~= view.subrange(
                        0,
                        i + 1,
                    ));
                }
                payload.append(&mut item);
            },
            None => {
                assert(!payload_fits(u64_items(view[i as int])));
                return None;
            },
        }
        i = i + 1;
    }
    assert(view.subrange(0, view.len() as int) =~= view);
    if (payload.len() as u64) < 0x1_0000_0000u64 {
        proof {
            if rows@.len() == 0 {
                assert(payload@ =~= Seq::<u8>::empty());
            }
        }
        Some(rlp_wrap_list(payload.as_slice(), rows.len()))
    } else {
        None
    }
}

/// Whether two byte strings are equal.
fn same_bytes(a: &[u8], b: &[u8]) -> (r: bool)
    ensures
        r <==> a@ == b@,
{
    if a.len() != b.len() {
        return false;
    }
    let mut i: usize = 0;
    while i < a.len()
        invariant
            a@.len() == b@.len(),
            i <= a@.len(),
            a@.subrange(0, i as int) == b@.subrange(0, i as int),
        decreases a@.len() - i,
    {
        if a[i] != b[i] {
            assert(a@.subrange(0, i + 1)[i as int] != b@.subrange(0, i + 1)[i as int]);
            return false;
        }
        i = i + 1;
        assert(a@.subrange(0, i as int) =~= b@.subrange(0, i as int));
    }
    assert(a@ =~= a@.subrange(0, a@.len() as int));
    assert(b@ =~= b@.subrange(0, b@.len() as int));
    true
}

/// Decodes a list of integers. Exactly the encodings that `encode_u64_list`
/// makes decode; malformed, truncated or padded bytes are refused.
pub fn decode_u64_list(b: &[u8]) -> (r: Result<Vec<u64>, DecodeError>)
    ensures
        r is Ok <==> decoded_u64_list(b@) is Some,
        r matches Ok(w) ==> decoded_u64_list(b@) == Some(w@),
{
    let v = match rlp_decode_u64_list(b) {
        Ok(v) => v,
        Err(_) => {
            return Err(DecodeError::Malformed);
        },
    };
    match encode_u64_list(v.as_slice()) {
        Some(again) => {
            if same_bytes(again.as_slice(), b) {
                proof {
                    lemma_u64_list_round_trip(v@);
                }
                Ok(v)
            } else {
                proof {
                    if let Some(d) = decoded_u64_list(b@) {
                        assert(v@ == d);
                    }
                }
                Err(DecodeError::Malformed)
            }
        },
        None => {
            proof {
                if let Some(d) = decoded_u64_list(b@) {
                    assert(v@ == d);
                }
            }
            Err(DecodeError::Malformed)
        },
    }
}

/// Decodes a list of integer lists. Exactly the encodings that `encode_rows`
/// makes decode; malformed, truncated or padded bytes are refused.
pub fn decode_rows(b: &[u8]) -> (r: Result<Vec<Vec<u64>>, DecodeError>)
    ensures
        r is Ok <==> decoded_rows(b@) is Some,
        r matches Ok(w) ==> decoded_rows(b@) == Some(rows_view(w@)),
{
    let n = match rlp_item_count(b) {
        Ok(n) => n,
        Err(_) => {
            return Err(DecodeError::Malformed);
        },
    };
    let mut out: Vec<Vec<u64>> = Vec::new();
    let mut i: usize = 0;
    while i < n
        invariant
            i <= n,
            out@.len() == i,
            decoded_rows(b@) matches Some(rows) ==> n == rows.len() && rows_view(out@)
                == rows.subrange(0, i as int),
        decreases n - i,
    {
        let row = match rlp_u64_list_at(b, i) {
            Ok(row) => row,
            Err(_) => {
                return Err(DecodeError::Malformed);
            },
        };
        let ghost before = out@;
        out.push(row);
        proof {
            if let Some(rows) = decoded_rows(b@) {
                assert(rows_view(out@) =~= rows_view(before).push(row@));
                assert(rows.subrange(0, i + 1) =~= rows.subrange(0, i as int).push(rows[i as int]));
            }
        }
        i = i + 1;
    }
    proof {
        if let Some(rows) = decoded_rows(b@) {
            assert(rows.subrange(0, n as int) =~= rows);
        }
    }
    match encode_rows(&out) {
        Some(again) => {
            if same_bytes(again.as_slice(), b) {
                proof {
                    lemma_rows_round_trip(rows_view(out@));
                }
                Ok(out)
            } else {
                Err(DecodeError::Malformed)
            }
        },
        None => Err(DecodeError::Malformed),
    }
}

} // verus!
