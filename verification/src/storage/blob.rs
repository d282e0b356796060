//! Lists of node positions stored as binary blobs, in bincode's format: the
//! length as 8 little-endian bytes, then each entry as 4 little-endian bytes
//! of its two's complement.
use vstd::prelude::*;

verus! {

#[verifier::external_type_specification]
#[verifier::external_body]
pub struct ExBincodeErrorKind(bincode::ErrorKind);

/// The `n` little-endian bytes of `v` (taken modulo 256^n).
pub open spec fn le_bytes(v: nat, n: nat) -> Seq<u8>
    decreases n,
{
    if n == 0 {
        seq![]
    } else {
        seq![(v % 256) as u8] + le_bytes(v / 256, (n - 1) as nat)
    }
}

/// The number whose little-endian bytes are `b`.
pub open spec fn le_value(b: Seq<u8>) -> nat
    decreases b.len(),
{
    if b.len() == 0 {
        0
    } else {
        b[0] as nat + 256 * le_value(b.drop_first())
    }
}

/// The 32-bit two's complement of `x`.
pub open spec fn twos(x: i32) -> nat {
    if x >= 0 { x as nat } else { (x + 0x1_0000_0000) as nat }
}

/// The `i32` whose 32-bit two's complement is `v`.
pub open spec fn from_twos(v: nat) -> i32 {
    if v < 0x8000_0000 { v as i32 } else { (v - 0x1_0000_0000) as i32 }
}

/// The entries of a list, 4 bytes each.
pub open spec fn ids_payload(ids: Seq<i32>) -> Seq<u8>
    decreases ids.len(),
{
    if ids.len() == 0 {
        seq![]
    } else {
        ids_payload(ids.drop_last()) + le_bytes(twos(ids.last()), 4)
    }
}

/// bincode's encoding of a list of `i32` with its default options.
pub open spec fn ids_encoding(ids: Seq<i32>) -> Seq<u8> {
    le_bytes(ids.len(), 8) + ids_payload(ids)
}

/// What bincode reads from `b` as a list of `i32` with its default options:
/// the 8-byte length must be followed by that many 4-byte entries; bytes
/// after them are ignored.
pub open spec fn ids_decoding(b: Seq<u8>) -> Option<Seq<i32>> {
    if b.len() < 8 {
        None
    } else {
        let n = le_value(b.subrange(0, 8));
        if b.len() < 8 + 4 * n {
            None
        } else {
            Some(Seq::new(n, |i: int| from_twos(le_value(b.subrange(8 + 4 * i, 12 + 4 * i)))))
        }
    }
}

/// Calls `bincode::serialize` on a list of `i32`. The contract claims that
/// it succeeds and yields [`ids_encoding`] of the list, as bincode's
/// default options (fixed-width integers, little endian, no size limit)
/// write it.
#[verifier::external_body]
fn bincode_serialize_ids(ids: &Vec<i32>) -> (r: Result<Vec<u8>, bincode::Error>)
    ensures
        r is Ok,
        r matches Ok(b) ==> b@ == ids_encoding(ids@),
{
    bincode::serialize(ids)
}

/// Calls `bincode::deserialize` for a list of `i32`. The contract claims
/// that it succeeds exactly when [`ids_decoding`] reads a list from the
/// bytes, and yields that list.
#[verifier::external_body]
fn bincode_deserialize_ids(bytes: &[u8]) -> (r: Result<Vec<i32>, bincode::Error>)
    ensures
        match r {
            Ok(v) => ids_decoding(bytes@) == Some(v@),
            Err(_) => ids_decoding(bytes@) is None,
        },
{
    bincode::deserialize(bytes)
}

/// Blob bytes that do not hold a list of node positions.
#[derive(Debug)]
pub struct BlobError;

/// The positions of a folder's children, as stored in a blob.
#[derive(Debug)]
pub struct ChildIds(pub Vec<i32>);

/// The name the storage layer uses for the same blob.
pub type BlobVecI32 = ChildIds;

impl ChildIds {
    /// The blob bytes of this list.
    pub fn to_blob(&self) -> (r: Vec<u8>)
        ensures
            r@ == ids_encoding(self.0@),
    {
        match bincode_serialize_ids(&self.0) {
            Ok(bytes) => bytes,
            Err(_) => Vec::new(),
        }
    }

    /// The list held by blob bytes; bytes too short for the length they
    /// announce are an error.
    pub fn from_blob(bytes: &[u8]) -> (r: Result<ChildIds, BlobError>)
        ensures
            match ids_decoding(bytes@) {
                Some(ids) => r matches Ok(c) && c.0@ == ids,
                None => r is Err,
            },
    {
        match bincode_deserialize_ids(bytes) {
            Ok(ints) => Ok(ints.into()),
            Err(_) => Err(BlobError),
        }
    }
}

impl From<Vec<i32>> for ChildIds {
    fn from(vec: Vec<i32>) -> (r: Self) {
        ChildIds(vec)
    }
}

impl vstd::std_specs::convert::FromSpecImpl<Vec<i32>> for ChildIds {
    open spec fn obeys_from_spec() -> bool {
        true
    }

    open spec fn from_spec(v: Vec<i32>) -> ChildIds {
        ChildIds(v)
    }
}

impl From<ChildIds> for Vec<i32> {
    fn from(ids: ChildIds) -> (r: Self) {
        ids.0
    }
}

impl vstd::std_specs::convert::FromSpecImpl<ChildIds> for Vec<i32> {
    open spec fn obeys_from_spec() -> bool {
        true
    }

    open spec fn from_spec(v: ChildIds) -> Vec<i32> {
        v.0
    }
}


/// 256 to the power `n`.
pub open spec fn pow256(n: nat) -> nat
    decreases n,
{
    if n == 0 { 1 } else { 256 * pow256((n - 1) as nat) }
}

proof fn lemma_le_bytes_len(v: nat, n: nat)
    ensures
        le_bytes(v, n).len() == n,
    decreases n,
{
    if n > 0 {
        lemma_le_bytes_len(v / 256, (n - 1) as nat);
    }
}

proof fn lemma_le_round_trip(v: nat, n: nat)
    requires
        v < pow256(n),
    ensures
        le_value(le_bytes(v, n)) == v,
    decreases n,
{
    if n > 0 {
        let q = v / 256;
        let r = v % 256;
        let p = pow256((n - 1) as nat);
        assert(v == 256 * q + r && q < p) by (nonlinear_arith)
            requires
                v < 256 * p,
                q == v / 256,
                r == v % 256,
        ;
        lemma_le_round_trip(q, (n - 1) as nat);
        let s = le_bytes(v, n);
        assert(s.drop_first() =~= le_bytes(q, (n - 1) as nat));
    }
}

proof fn lemma_payload(ids: Seq<i32>)
    ensures
        ids_payload(ids).len() == 4 * ids.len(),
        forall|i: int| 0 <= i < ids.len() ==>
            #[trigger] ids_payload(ids).subrange(4 * i, 4 * i + 4) == le_bytes(twos(ids[i]), 4),
    decreases ids.len(),
{
    if ids.len() > 0 {
        let init = ids.drop_last();
        lemma_payload(init);
        lemma_le_bytes_len(twos(ids.last()), 4);
        let p = ids_payload(ids);
        assert forall|i: int| 0 <= i < ids.len() implies
            #[trigger] ids_payload(ids).subrange(4 * i, 4 * i + 4) == le_bytes(twos(ids[i]), 4) by {
            if i < init.len() {
                assert(p.subrange(4 * i, 4 * i + 4) =~= ids_payload(init).subrange(4 * i, 4 * i + 4));
                assert(init[i] == ids[i]);
            } else {
                assert(p.subrange(4 * i, 4 * i + 4) =~= le_bytes(twos(ids.last()), 4));
            }
        }
    }
}

/// Reading back the blob of a list gives the list: bincode's decoding
/// undoes its encoding.
pub proof fn lemma_blob_round_trip(ids: Seq<i32>)
    requires
        ids.len() <= u64::MAX,
    ensures
        ids_decoding(ids_encoding(ids)) == Some(ids),
{
    let b = ids_encoding(ids);
    let n = ids.len();
    lemma_le_bytes_len(n, 8);
    lemma_payload(ids);
    reveal_with_fuel(pow256, 9);
    assert(pow256(8) == 0x1_0000_0000_0000_0000);
    assert(pow256(4) == 0x1_0000_0000);
    lemma_le_round_trip(n, 8);
    assert(b.subrange(0, 8) =~= le_bytes(n, 8));
    let d = Seq::new(n, |i: int| from_twos(le_value(b.subrange(8 + 4 * i, 12 + 4 * i))));
    assert forall|i: int| 0 <= i < n implies d[i] == ids[i] by {
        assert(b.subrange(8 + 4 * i, 12 + 4 * i) =~= ids_payload(ids).subrange(4 * i, 4 * i + 4));
        lemma_le_round_trip(twos(ids[i]), 4);
    }
    assert(d =~= ids);
}

} // verus!
