//! The protocol's messages, their payload encodings and the envelope that
//! prefixes a payload with its kind's tag.
use crate::codec::{decode_rows, decode_u64_list, encode_rows, encode_u64_list, rows_view, DecodeError};
use crate::kind::MessageKind;
use crate::rlp_format::{
    decoded_rows, decoded_u64_list, lemma_rlp_u64_shape, lemma_rows_round_trip,
    lemma_u64_list_round_trip, payload_fits, rlp_u64, rows_fit, rows_rlp, u64_items, u64_list_rlp,
};
use vstd::prelude::*;

verus! {

/// Bound on `u64_items` that makes short lists always fit.
pub proof fn lemma_u64_items_len(v: Seq<u64>)
    ensures
        u64_items(v).len() <= 9 * v.len(),
    decreases v.len(),
{
    if v.len() > 0 {
        let m = v.map_values(|x: u64| rlp_u64(x));
        assert(m.drop_first() =~= v.drop_first().map_values(|x: u64| rlp_u64(x)));
        lemma_rlp_u64_shape(v[0]);
        lemma_u64_items_len(v.drop_first());
    }
}

/// A peer's declared chain height.
#[derive(Debug, Clone, Copy, PartialEq, Eq, Structural)]
pub struct Handshake {
    pub latest_block_index: u64,
}

/// A range query: `limit` blocks from `start_block_index`, `skip` apart.
#[derive(Debug, Clone, Copy, PartialEq, Eq, Structural)]
pub struct GetBlockHeaders {
    pub start_block_index: u64,
    pub skip: u64,
    pub limit: u64,
}

/// The block indices whose full blocks are wanted.
#[derive(Debug, Clone, PartialEq, Eq)]
pub struct GetBlockBodies {
    pub block_indexes: Vec<u64>,
}

/// A block without its body.
#[derive(Debug, Clone, Copy, PartialEq, Eq, Structural)]
pub struct BlockHeader {
    pub index: u64,
    pub timestamp: u64,
    pub previous_hash: u64,
    pub hash: u64,
}

/// A full block: header fields and body words.
#[derive(Debug, Clone, PartialEq, Eq)]
pub struct Block {
    pub index: u64,
    pub timestamp: u64,
    pub previous_hash: u64,
    pub hash: u64,
    pub data: Vec<u64>,
}

/// Headers in ascending index order.
#[derive(Debug, Clone, PartialEq, Eq)]
pub struct BlockHeaders {
    pub block_headers: Vec<BlockHeader>,
}

/// Full blocks, each carrying its own index.
#[derive(Debug, Clone, PartialEq, Eq)]
pub struct BlockBodies {
    pub blocks: Vec<Block>,
}

/// The envelope for `payload`: the kind's tag, then the payload bytes.
pub fn encode_message(kind: MessageKind, payload: &[u8]) -> (r: Vec<u8>)
    ensures
        r@ == seq![kind.tag()] + payload@,
{
    let mut out: Vec<u8> = Vec::new();
    out.push(kind.as_byte());
    let mut i: usize = 0;
    while i < payload.len()
        invariant
            i <= payload@.len(),
            out@ == seq![kind.tag()] + payload@.subrange(0, i as int),
        decreases payload@.len() - i,
    {
        out.push(payload[i]);
        i = i + 1;
        assert(out@ =~= seq![kind.tag()] + payload@.subrange(0, i as int));
    }
    assert(payload@.subrange(0, payload@.len() as int) =~= payload@);
    out
}

// ---- Handshake ----
impl Handshake {
    pub open spec fn wire(self) -> Seq<u8> {
        u64_list_rlp(seq![self.latest_block_index])
    }

    pub fn encode(&self) -> (r: Vec<u8>)
        ensures
            r@ == self.wire(),
    {
        let v: Vec<u64> = vec![self.latest_block_index];
        proof {
            lemma_u64_items_len(v@);
            assert(v@ =~= seq![self.latest_block_index]);
        }
        encode_u64_list(v.as_slice()).unwrap()
    }

    pub fn decode(b: &[u8]) -> (r: Result<Handshake, DecodeError>)
        ensures
            r is Ok <==> decoded_handshake(b@) is Some,
            r matches Ok(h) ==> decoded_handshake(b@) == Some(h),
    {
        let v = decode_u64_list(b)?;
        if v.len() != 1 {
            return Err(DecodeError::WrongFieldCount);
        }
        Ok(Handshake { latest_block_index: v[0] })
    }
}

/// The handshake whose encoding is `b`, if `b` is one.
pub open spec fn decoded_handshake(b: Seq<u8>) -> Option<Handshake> {
    match decoded_u64_list(b) {
        Some(v) => if v.len() == 1 {
            Some(Handshake { latest_block_index: v[0] })
        } else {
            None
        },
        None => None,
    }
}

/// Decoding an encoded handshake gives it back.
pub proof fn lemma_handshake_round_trip(h: Handshake)
    ensures
        decoded_handshake(h.wire()) == Some(h),
{
    lemma_u64_items_len(seq![h.latest_block_index]);
    lemma_u64_list_round_trip(seq![h.latest_block_index]);
}

// ---- GetBlockHeaders ----
impl GetBlockHeaders {
    pub open spec fn words(self) -> Seq<u64> {
        seq![self.start_block_index, self.skip, self.limit]
    }

    pub open spec fn wire(self) -> Seq<u8> {
        u64_list_rlp(self.words())
    }

    pub fn encode(&self) -> (r: Vec<u8>)
        ensures
            r@ == self.wire(),
    {
        let v: Vec<u64> = vec![self.start_block_index, self.skip, self.limit];
        proof {
            lemma_u64_items_len(v@);
            assert(v@ =~= self.words());
        }
        encode_u64_list(v.as_slice()).unwrap()
    }

    pub fn decode(b: &[u8]) -> (r: Result<GetBlockHeaders, DecodeError>)
        ensures
            r is Ok <==> decoded_get_block_headers(b@) is Some,
            r matches Ok(g) ==> decoded_get_block_headers(b@) == Some(g),
    {
        let v = decode_u64_list(b)?;
        if v.len() != 3 {
            return Err(DecodeError::WrongFieldCount);
        }
        Ok(GetBlockHeaders { start_block_index: v[0], skip: v[1], limit: v[2] })
    }
}

/// The range query whose encoding is `b`, if `b` is one.
pub open spec fn decoded_get_block_headers(b: Seq<u8>) -> Option<GetBlockHeaders> {
    match decoded_u64_list(b) {
        Some(v) => if v.len() == 3 {
            Some(GetBlockHeaders { start_block_index: v[0], skip: v[1], limit: v[2] })
        } else {
            None
        },
        None => None,
    }
}

/// Decoding an encoded range query gives it back.
pub proof fn lemma_get_block_headers_round_trip(g: GetBlockHeaders)
    ensures
        decoded_get_block_headers(g.wire()) == Some(g),
{
    lemma_u64_items_len(g.words());
    lemma_u64_list_round_trip(g.words());
}

// ---- GetBlockBodies ----
impl GetBlockBodies {
    pub open spec fn wire(self) -> Seq<u8> {
        u64_list_rlp(self.block_indexes@)
    }

    /// Whether the encoding fits a list header.
    pub open spec fn fits(self) -> bool {
        payload_fits(u64_items(self.block_indexes@))
    }

    pub fn encode(&self) -> (r: Option<Vec<u8>>)
        ensures
            r is Some <==> self.fits(),
            r matches Some(b) ==> b@ == self.wire(),
    {
        encode_u64_list(self.block_indexes.as_slice())
    }

    pub fn decode(b: &[u8]) -> (r: Result<GetBlockBodies, DecodeError>)
        ensures
            r is Ok <==> decoded_u64_list(b@) is Some,
            r matches Ok(g) ==> decoded_u64_list(b@) == Some(g.block_indexes@),
    {
        let v = decode_u64_list(b)?;
        Ok(GetBlockBodies { block_indexes: v })
    }
}

/// Decoding an encoded index list gives it back.
pub proof fn lemma_get_block_bodies_round_trip(g: GetBlockBodies)
    requires
        g.fits(),
    ensures
        decoded_u64_list(g.wire()) == Some(g.block_indexes@),
{
    lemma_u64_list_round_trip(g.block_indexes@);
}

// ---- headers and blocks ----
impl BlockHeader {
    pub open spec fn row(self) -> Seq<u64> {
        seq![self.index, self.timestamp, self.previous_hash, self.hash]
    }

    fn to_row(&self) -> (r: Vec<u64>)
        ensures
            r@ == self.row(),
    {
        let r: Vec<u64> = vec![self.index, self.timestamp, self.previous_hash, self.hash];
        assert(r@ =~= self.row());
        r
    }
}

/// The header a four-word row stands for.
pub open spec fn header_of_row(r: Seq<u64>) -> BlockHeader {
    BlockHeader { index: r[0], timestamp: r[1], previous_hash: r[2], hash: r[3] }
}

impl Block {
    /// The header fields followed by the body words.
    pub open spec fn row(self) -> Seq<u64> {
        seq![self.index, self.timestamp, self.previous_hash, self.hash] + self.data@
    }

    /// The header of this block.
    pub open spec fn header(self) -> BlockHeader {
        BlockHeader {
            index: self.index,
            timestamp: self.timestamp,
            previous_hash: self.previous_hash,
            hash: self.hash,
        }
    }

    pub fn to_block_header(&self) -> (r: BlockHeader)
        ensures
            r == self.header(),
    {
        BlockHeader {
            index: self.index,
            timestamp: self.timestamp,
            previous_hash: self.previous_hash,
            hash: self.hash,
        }
    }

    fn to_row(&self) -> (r: Vec<u64>)
        ensures
            r@ == self.row(),
    {
        let mut r: Vec<u64> = vec![self.index, self.timestamp, self.previous_hash, self.hash];
        let mut i: usize = 0;
        while i < self.data.len()
            invariant
                i <= self.data@.len(),
                r@ == seq![self.index, self.timestamp, self.previous_hash, self.hash]
                    + self.data@.subrange(0, i as int),
            decreases self.data@.len() - i,
        {
            r.push(self.data[i]);
            i = i + 1;
            assert(r@ =~= seq![self.index, self.timestamp, self.previous_hash, self.hash]
                + self.data@.subrange(0, i as int));
        }
        assert(self.data@.subrange(0, self.data@.len() as int) =~= self.data@);
        r
    }

    /// The block a row of at least four words stands for.
    fn from_row(r: &Vec<u64>) -> (b: Block)
        requires
            r@.len() >= 4,
        ensures
            b.row() == r@,
    {
        let mut data: Vec<u64> = Vec::new();
        let mut i: usize = 4;
        while i < r.len()
            invariant
                4 <= i <= r@.len(),
                data@ == r@.subrange(4, i as int),
            decreases r@.len() - i,
        {
            data.push(r[i]);
            i = i + 1;
            assert(data@ =~= r@.subrange(4, i as int));
        }
        let b = Block { index: r[0], timestamp: r[1], previous_hash: r[2], hash: r[3], data };
        assert(b.row() =~= r@);
        b
    }
}

/// Rows of a sequence of headers.
pub open spec fn header_rows(hs: Seq<BlockHeader>) -> Seq<Seq<u64>> {
    hs.map_values(|h: BlockHeader| h.row())
}

/// Rows of a sequence of blocks.
pub open spec fn block_rows(bs: Seq<Block>) -> Seq<Seq<u64>> {
    bs.map_values(|b: Block| b.row())
}

// ---- BlockHeaders ----
impl BlockHeaders {
    pub open spec fn wire(self) -> Seq<u8> {
        rows_rlp(header_rows(self.block_headers@))
    }

    pub open spec fn fits(self) -> bool {
        rows_fit(header_rows(self.block_headers@))
    }

    pub fn encode(&self) -> (r: Option<Vec<u8>>)
        ensures
            r is Some <==> self.fits(),
            r matches Some(b) ==> b@ == self.wire(),
    {
        let mut rows: Vec<Vec<u64>> = Vec::new();
        let mut i: usize = 0;
        while i < self.block_headers.len()
            invariant
                i <= self.block_headers@.len(),
                rows_view(rows@) == header_rows(self.block_headers@.subrange(0, i as int)),
            decreases self.block_headers@.len() - i,
        {
            let row = self.block_headers[i].to_row();
            let ghost prev = rows@;
            rows.push(row);
            proof {
                assert(rows_view(rows@) =~= rows_view(prev).push(row@));
                assert(self.block_headers@.subrange(0, i + 1) =~= self.block_headers@.subrange(
                    0,
                    i as int,
                ).push(self.block_headers@[i as int]));
                assert(header_rows(self.block_headers@.subrange(0, i + 1)) =~= header_rows(
                    self.block_headers@.subrange(0, i as int),
                ).push(self.block_headers@[i as int].row()));
            }
            i = i + 1;
        }
        assert(self.block_headers@.subrange(0, self.block_headers@.len() as int)
            =~= self.block_headers@);
        encode_rows(&rows)
    }

    pub fn decode(b: &[u8]) -> (r: Result<BlockHeaders, DecodeError>)
        ensures
            r is Ok <==> decoded_block_headers(b@) is Some,
            r matches Ok(m) ==> decoded_block_headers(b@) == Some(m.block_headers@),
    {
        let rows = decode_rows(b)?;
        let mut hs: Vec<BlockHeader> = Vec::new();
        let mut i: usize = 0;
        while i < rows.len()
            invariant
                i <= rows@.len(),
                decoded_rows(b@) == Some(rows_view(rows@)),
                forall|k: int| 0 <= k < i ==> (#[trigger] rows_view(rows@)[k]).len() == 4,
                hs@ == rows_view(rows@).subrange(0, i as int).map_values(
                    |r: Seq<u64>| header_of_row(r),
                ),
            decreases rows@.len() - i,
        {
            if rows[i].len() != 4 {
                proof {
                    if let Some(rr) = decoded_rows(b@) {
                        assert(rr[i as int] == rows@[i as int]@);
                        assert(rr[i as int].len() != 4);
                    }
                }
                return Err(DecodeError::WrongFieldCount);
            }
            let h = BlockHeader {
                index: rows[i][0],
                timestamp: rows[i][1],
                previous_hash: rows[i][2],
                hash: rows[i][3],
            };
            hs.push(h);
            i = i + 1;
            assert(hs@ =~= rows_view(rows@).subrange(0, i as int).map_values(
                |r: Seq<u64>| header_of_row(r),
            ));
        }
        assert(rows_view(rows@).subrange(0, rows@.len() as int) =~= rows_view(rows@));
        Ok(BlockHeaders { block_headers: hs })
    }

    pub fn to_block_indexes(&self) -> (r: Vec<u64>)
        ensures
            r@ == self.block_headers@.map_values(|h: BlockHeader| h.index),
    {
        let mut out: Vec<u64> = Vec::new();
        let mut i: usize = 0;
        while i < self.block_headers.len()
            invariant
                i <= self.block_headers@.len(),
                out@ == self.block_headers@.subrange(0, i as int).map_values(
                    |h: BlockHeader| h.index,
                ),
            decreases self.block_headers@.len() - i,
        {
            out.push(self.block_headers[i].index);
            i = i + 1;
            assert(out@ =~= self.block_headers@.subrange(0, i as int).map_values(
                |h: BlockHeader| h.index,
            ));
        }
        assert(self.block_headers@.subrange(0, self.block_headers@.len() as int)
            =~= self.block_headers@);
        out
    }
}

/// The headers whose encoding is `b`, if `b` is one.
pub open spec fn decoded_block_headers(b: Seq<u8>) -> Option<Seq<BlockHeader>> {
    match decoded_rows(b) {
        Some(rows) => if forall|k: int| 0 <= k < rows.len() ==> (#[trigger] rows[k]).len() == 4 {
            Some(rows.map_values(|r: Seq<u64>| header_of_row(r)))
        } else {
            None
        },
        None => None,
    }
}

/// Decoding encoded headers gives them back.
pub proof fn lemma_block_headers_round_trip(m: BlockHeaders)
    requires
        m.fits(),
    ensures
        decoded_block_headers(m.wire()) == Some(m.block_headers@),
{
    let rows = header_rows(m.block_headers@);
    lemma_rows_round_trip(rows);
    assert(rows.map_values(|r: Seq<u64>| header_of_row(r)) =~= m.block_headers@);
}

// ---- BlockBodies ----
impl BlockBodies {
    pub open spec fn wire(self) -> Seq<u8> {
        rows_rlp(block_rows(self.blocks@))
    }

    pub open spec fn fits(self) -> bool {
        rows_fit(block_rows(self.blocks@))
    }

    pub fn encode(&self) -> (r: Option<Vec<u8>>)
        ensures
            r is Some <==> self.fits(),
            r matches Some(b) ==> b@ == self.wire(),
    {
        let mut rows: Vec<Vec<u64>> = Vec::new();
        let mut i: usize = 0;
        while i < self.blocks.len()
            invariant
                i <= self.blocks@.len(),
                rows_view(rows@) == block_rows(self.blocks@.subrange(0, i as int)),
            decreases self.blocks@.len() - i,
        {
            let row = self.blocks[i].to_row();
            let ghost prev = rows@;
            rows.push(row);
            proof {
                assert(rows_view(rows@) =~= rows_view(prev).push(row@));
                assert(self.blocks@.subrange(0, i + 1) =~= self.blocks@.subrange(0, i as int).push(
                    self.blocks@[i as int],
                ));
                assert(block_rows(self.blocks@.subrange(0, i + 1)) =~= block_rows(
                    self.blocks@.subrange(0, i as int),
                ).push(self.blocks@[i as int].row()));
            }
            i = i + 1;
        }
        assert(self.blocks@.subrange(0, self.blocks@.len() as int) =~= self.blocks@);
        encode_rows(&rows)
    }

    pub fn decode(b: &[u8]) -> (r: Result<BlockBodies, DecodeError>)
        ensures
            r is Ok <==> decoded_block_bodies(b@) is Some,
            r matches Ok(m) ==> decoded_block_bodies(b@) == Some(block_rows(m.blocks@)),
    {
        let rows = decode_rows(b)?;
        let mut bs: Vec<Block> = Vec::new();
        let mut i: usize = 0;
        while i < rows.len()
            invariant
                i <= rows@.len(),
                decoded_rows(b@) matches Some(rr) ==> rr == rows_view(rows@),
                block_rows(bs@) == rows_view(rows@).subrange(0, i as int),
            decreases rows@.len() - i,
        {
            if rows[i].len() < 4 {
                proof {
                    if let Some(rr) = decoded_rows(b@) {
                        assert(rr[i as int] == rows@[i as int]@);
                        assert(rr[i as int].len() < 4);
                    }
                }
                return Err(DecodeError::WrongFieldCount);
            }
            let blk = Block::from_row(&rows[i]);
            let ghost prev = bs@;
            bs.push(blk);
            proof {
                assert(block_rows(bs@) =~= block_rows(prev).push(blk.row()));
                assert(rows_view(rows@).subrange(0, i + 1) =~= rows_view(rows@).subrange(
                    0,
                    i as int,
                ).push(rows@[i as int]@));
            }
            i = i + 1;
        }
        assert(rows_view(rows@).subrange(0, rows@.len() as int) =~= rows_view(rows@));
        Ok(BlockBodies { blocks: bs })
    }
}

/// The block rows whose encoding is `b`, if `b` is one.
pub open spec fn decoded_block_bodies(b: Seq<u8>) -> Option<Seq<Seq<u64>>> {
    match decoded_rows(b) {
        Some(rows) => if forall|k: int| 0 <= k < rows.len() ==> (#[trigger] rows[k]).len() >= 4 {
            Some(rows)
        } else {
            None
        },
        None => None,
    }
}

/// Decoding encoded blocks gives back blocks with the same fields and bodies.
pub proof fn lemma_block_bodies_round_trip(m: BlockBodies)
    requires
        m.fits(),
    ensures
        decoded_block_bodies(m.wire()) == Some(block_rows(m.blocks@)),
{
    lemma_rows_round_trip(block_rows(m.blocks@));
}

} // verus!
