//! The frame header: a fixed validation marker followed by the body length
//! as an eight-byte big-endian integer.

use vstd::arithmetic::div_mod::{lemma_fundamental_div_mod_converse, lemma_mod_breakdown};
use vstd::prelude::*;

verus! {

/// Number of bytes in the validation marker.
pub const MARKER_LEN: usize = 69;

/// Number of bytes in the length field.
pub const LENGTH_FIELD_LEN: usize = 8;

/// Number of bytes in a serialized header.
pub const HEADER_SIZE: usize = MARKER_LEN + LENGTH_FIELD_LEN;

/// The validation marker that opens every header.
pub open spec fn marker() -> Seq<u8> {
    seq![
        97u8, 108, 107, 115, 106, 100, 108, 102, 105, 50, 104, 51, 117, 105, 110, 113, 105, 117,
        51, 52, 57, 56, 104, 103, 113, 105, 51, 114, 107, 98, 104, 51, 32, 109, 105, 117, 104,
        113, 114, 57, 103, 56, 32, 57, 52, 117, 113, 57, 49, 50, 52, 50, 51, 53, 54, 50, 51, 52,
        53, 121, 121, 106, 101, 116, 121, 91, 91, 93, 97,
    ]
}

fn marker_bytes() -> (r: Vec<u8>)
    ensures
        r@ == marker(),
{
    let r: Vec<u8> = vec![
        97u8, 108, 107, 115, 106, 100, 108, 102, 105, 50, 104, 51, 117, 105, 110, 113, 105, 117,
        51, 52, 57, 56, 104, 103, 113, 105, 51, 114, 107, 98, 104, 51, 32, 109, 105, 117, 104,
        113, 114, 57, 103, 56, 32, 57, 52, 117, 113, 57, 49, 50, 52, 50, 51, 53, 54, 50, 51, 52,
        53, 121, 121, 106, 101, 116, 121, 91, 91, 93, 97,
    ];
    assert(r@ =~= marker());
    r
}


/// `256` to the power `n`.
pub open spec fn pow256(n: nat) -> nat
    decreases n,
{
    if n == 0 {
        1
    } else {
        256 * pow256((n - 1) as nat)
    }
}

/// The value of `s` read as a big-endian unsigned integer.
pub open spec fn be_value(s: Seq<u8>) -> nat
    decreases s.len(),
{
    if s.len() == 0 {
        0
    } else {
        be_value(s.drop_last()) * 256 + s.last() as nat
    }
}

/// The `n` low-order bytes of `v`, most significant first.
pub open spec fn be_bytes(v: nat, n: nat) -> Seq<u8>
    decreases n,
{
    if n == 0 {
        Seq::empty()
    } else {
        be_bytes(v / 256, (n - 1) as nat).push((v % 256) as u8)
    }
}

/// The serialized header of a body of `size` bytes.
pub open spec fn header_bytes(size: nat) -> Seq<u8> {
    marker() + be_bytes(size, LENGTH_FIELD_LEN as nat)
}

pub proof fn lemma_be_bytes_len(v: nat, n: nat)
    ensures
        be_bytes(v, n).len() == n,
    decreases n,
{
    if n > 0 {
        lemma_be_bytes_len(v / 256, (n - 1) as nat);
    }
}

/// Reading back the `n`-byte encoding of `v` gives `v` modulo `256^n`.
pub proof fn lemma_be_value_of_bytes(v: nat, n: nat)
    ensures
        be_value(be_bytes(v, n)) == v % pow256(n),
    decreases n,
{
    if n == 0 {
        assert(v % 1 == 0) by (nonlinear_arith);
    } else {
        let m = (n - 1) as nat;
        lemma_be_value_of_bytes(v / 256, m);
        let s = be_bytes(v, n);
        assert(s.drop_last() =~= be_bytes(v / 256, m));
        lemma_pow256_positive(m);
        lemma_mod_breakdown(v as int, 256, pow256(m) as int);
    }
}

/// Encoding the value of an `n`-byte sequence on `n` bytes gives it back.
pub proof fn lemma_be_bytes_of_value(s: Seq<u8>)
    ensures
        be_bytes(be_value(s), s.len()) == s,
    decreases s.len(),
{
    if s.len() > 0 {
        let d = s.drop_last();
        lemma_be_bytes_of_value(d);
        lemma_fundamental_div_mod_converse(
            be_value(s) as int,
            256,
            be_value(d) as int,
            s.last() as int,
        );
        assert(be_bytes(be_value(s), s.len()) =~= s);
    }
}

pub proof fn lemma_pow256_positive(n: nat)
    ensures
        pow256(n) > 0,
    decreases n,
{
    if n > 0 {
        lemma_pow256_positive((n - 1) as nat);
    }
}

pub proof fn lemma_pow256_monotonic(a: nat, b: nat)
    requires
        a <= b,
    ensures
        pow256(a) <= pow256(b),
    decreases b,
{
    if a < b {
        lemma_pow256_monotonic(a, (b - 1) as nat);
    }
}

/// A big-endian value fits in as many bytes as it was read from.
pub proof fn lemma_be_value_bound(s: Seq<u8>)
    ensures
        be_value(s) < pow256(s.len()),
    decreases s.len(),
{
    if s.len() > 0 {
        let d = s.drop_last();
        lemma_be_value_bound(d);
        let a = be_value(d);
        let p = pow256(d.len());
        let b = s.last() as nat;
        assert(a * 256 + b < 256 * p) by (nonlinear_arith)
            requires
                a < p,
                b < 256,
        ;
    }
}

pub proof fn lemma_pow256_eight()
    ensures
        pow256(8) == 0x1_0000_0000_0000_0000,
        pow256(7) == 0x100_0000_0000_0000,
{
    reveal_with_fuel(pow256, 9);
}

/// The eight-byte encoding of a `u64` reads back as that value.
pub proof fn lemma_be_u64_round_trip(v: u64)
    ensures
        be_value(be_bytes(v as nat, 8)) == v,
        be_bytes(v as nat, 8).len() == 8,
{
    lemma_be_value_of_bytes(v as nat, 8);
    lemma_be_bytes_len(v as nat, 8);
    lemma_pow256_eight();
}

/// Encodes the `n` low-order bytes of `v`, most significant first.
pub(crate) fn be_encode(v: u64, n: usize) -> (r: Vec<u8>)
    ensures
        r@ == be_bytes(v as nat, n as nat),
    decreases n,
{
    if n == 0 {
        Vec::new()
    } else {
        let mut r = be_encode(v / 256, n - 1);
        r.push((v % 256) as u8);
        r
    }
}

/// Reads at most eight bytes as a big-endian unsigned integer.
pub(crate) fn be_decode(s: &[u8]) -> (r: u64)
    requires
        s@.len() <= 8,
    ensures
        r == be_value(s@),
{
    let mut v: u64 = 0;
    let mut i: usize = 0;
    while i < s.len()
        invariant
            i <= s@.len() <= 8,
            v == be_value(s@.take(i as int)),
        decreases s@.len() - i,
    {
        proof {
            lemma_be_value_bound(s@.take(i as int));
            lemma_pow256_monotonic(i as nat, 7);
            lemma_pow256_eight();
            assert(s@.take(i + 1).drop_last() =~= s@.take(i as int));
        }
        v = v * 256 + s[i] as u64;
        i = i + 1;
    }
    assert(s@.take(i as int) =~= s@);
    v
}

/// Why a byte sequence is not a valid header.
#[derive(Clone, Copy, Debug, PartialEq, Eq)]
pub enum DecodeHeaderError {
    /// The sequence does not have the header's size: (expected, found).
    InvalidSize(usize, usize),
    /// The sequence does not open with the validation marker.
    InvalidMarker,
}

/// The header that precedes each message body: the body's length in bytes.
#[derive(Clone, Copy, Debug, PartialEq, Eq)]
pub struct Header {
    size: u64,
}

impl View for Header {
    type V = u64;

    closed spec fn view(&self) -> u64 {
        self.size
    }
}

impl Header {
    /// The header of `body`.
    pub fn header_for(body: &[u8]) -> (r: Header)
        ensures
            r@ == body@.len(),
    {
        Header { size: body.len() as u64 }
    }

    /// Size of a serialized header in bytes.
    pub fn header_byte_size() -> (r: usize)
        ensures
            r == HEADER_SIZE,
    {
        HEADER_SIZE
    }

    /// Reads a header from exactly `HEADER_SIZE` bytes.
    pub fn decode_from_bytes(bytes: &[u8]) -> (r: Result<Header, DecodeHeaderError>)
        ensures
            bytes@.len() != HEADER_SIZE ==> r == Err::<Header, DecodeHeaderError>(
                DecodeHeaderError::InvalidSize(HEADER_SIZE, bytes@.len() as usize),
            ),
            bytes@.len() == HEADER_SIZE && bytes@.take(MARKER_LEN as int) != marker() ==> r
                == Err::<Header, DecodeHeaderError>(DecodeHeaderError::InvalidMarker),
            bytes@.len() == HEADER_SIZE && bytes@.take(MARKER_LEN as int) == marker() ==> r is Ok
                && r->Ok_0@ == be_value(bytes@.skip(MARKER_LEN as int)) && header_bytes(
                r->Ok_0@ as nat,
            ) == bytes@,
    {
        if bytes.len() != HEADER_SIZE {
            return Err(DecodeHeaderError::InvalidSize(HEADER_SIZE, bytes.len()));
        }
        let m = marker_bytes();
        let mut i: usize = 0;
        while i < MARKER_LEN
            invariant
                i <= MARKER_LEN,
                m@ == marker(),
                bytes@.len() == HEADER_SIZE,
                bytes@.take(i as int) == marker().take(i as int),
            decreases MARKER_LEN - i,
        {
            if bytes[i] != m[i] {
                assert(bytes@.take(MARKER_LEN as int)[i as int] != marker()[i as int]);
                return Err(DecodeHeaderError::InvalidMarker);
            }
            assert(bytes@.take(i + 1) =~= marker().take(i + 1));
            i = i + 1;
        }
        assert(marker().take(MARKER_LEN as int) =~= marker());
        let mut field: Vec<u8> = Vec::new();
        let mut j: usize = MARKER_LEN;
        while j < HEADER_SIZE
            invariant
                MARKER_LEN <= j <= HEADER_SIZE,
                bytes@.len() == HEADER_SIZE,
                field@ == bytes@.subrange(MARKER_LEN as int, j as int),
            decreases HEADER_SIZE - j,
        {
            field.push(bytes[j]);
            assert(field@ =~= bytes@.subrange(MARKER_LEN as int, j + 1));
            j = j + 1;
        }
        assert(field@ =~= bytes@.skip(MARKER_LEN as int));
        let size = be_decode(field.as_slice());
        proof {
            lemma_be_bytes_of_value(field@);
            assert(bytes@ =~= bytes@.take(MARKER_LEN as int) + bytes@.skip(MARKER_LEN as int));
        }
        Ok(Header { size })
    }

    /// The body length.
    pub fn into_raw_parts(self) -> (r: u64)
        ensures
            r == self@,
    {
        self.size
    }

    /// The body length.
    pub fn size(&self) -> (r: u64)
        ensures
            r == self@,
    {
        self.size
    }

    /// The header's bytes: the marker, then the body length in big-endian order.
    pub fn serialize_header(&self) -> (r: Vec<u8>)
        ensures
            r@ == header_bytes(self@ as nat),
            r@.len() == HEADER_SIZE,
    {
        let mut b = marker_bytes();
        let mut len = be_encode(self.size, LENGTH_FIELD_LEN);
        b.append(&mut len);
        proof {
            lemma_be_bytes_len(self.size as nat, 8);
        }
        b
    }
}

} // verus!
