//! Hashing and byte encodings: BLAKE3 digests, lowercase hex, and
//! little-endian integers.
use vstd::prelude::*;

verus! {

/// What `blake3::hash` gives for the given bytes: a 32-byte digest.
pub uninterp spec fn blake3_digest(data: Seq<u8>) -> Seq<u8>;

/// The BLAKE3 digest of `data`.
///
/// Trusted: calls `blake3::hash(data)` and copies out `Hash::as_bytes`, the
/// 32 bytes of the digest. blake3 documents that hashing at once equals
/// feeding the same bytes to a `Hasher` in pieces. The digest depends on the
/// bytes alone; the contract names it and says nothing more of it.
#[verifier::external_body]
pub(crate) fn blake3_hash(data: &[u8]) -> (r: [u8; 32])
    ensures
        r@ == blake3_digest(data@),
{
    *blake3::hash(data).as_bytes()
}

/// The lowercase hex digit of a value below 16.
pub open spec fn hex_digit(n: int) -> char {
    if n == 0 { '0' } else if n == 1 { '1' } else if n == 2 { '2' } else if n == 3 { '3' }
    else if n == 4 { '4' } else if n == 5 { '5' } else if n == 6 { '6' } else if n == 7 { '7' }
    else if n == 8 { '8' } else if n == 9 { '9' } else if n == 10 { 'a' } else if n == 11 { 'b' }
    else if n == 12 { 'c' } else if n == 13 { 'd' } else if n == 14 { 'e' } else { 'f' }
}

/// Lowercase hex: two digits per byte, high nibble first.
pub open spec fn hex_lower(b: Seq<u8>) -> Seq<char>
    decreases b.len(),
{
    if b.len() == 0 {
        Seq::empty()
    } else {
        hex_lower(b.drop_last()) + seq![hex_digit(b.last() as int / 16), hex_digit(b.last() as int % 16)]
    }
}

/// Hex has two digits per byte.
pub proof fn lemma_hex_len(b: Seq<u8>)
    ensures
        hex_lower(b).len() == 2 * b.len(),
    decreases b.len(),
{
    if b.len() > 0 {
        lemma_hex_len(b.drop_last());
    }
}

/// Different bytes have different hex.
pub proof fn lemma_hex_injective(a: Seq<u8>, b: Seq<u8>)
    requires
        hex_lower(a) == hex_lower(b),
    ensures
        a == b,
    decreases a.len(),
{
    lemma_hex_len(a);
    lemma_hex_len(b);
    if a.len() > 0 {
        let ha = hex_lower(a);
        let n = ha.len();
        assert(ha[n - 2] == hex_digit(a.last() as int / 16) && ha[n - 1] == hex_digit(a.last() as int % 16));
        assert(ha[n - 2] == hex_digit(b.last() as int / 16) && ha[n - 1] == hex_digit(b.last() as int % 16));
        assert(a.last() / 16 == b.last() / 16);
        assert(a.last() % 16 == b.last() % 16);
        lemma_hex_len(a.drop_last());
        lemma_hex_len(b.drop_last());
        assert(hex_lower(a.drop_last()) =~= ha.take(n - 2));
        assert(hex_lower(b.drop_last()) =~= ha.take(n - 2));
        lemma_hex_injective(a.drop_last(), b.drop_last());
        assert(a =~= a.drop_last().push(a.last()));
        assert(b =~= b.drop_last().push(b.last()));
    } else {
        assert(a =~= b);
    }
}

/// Lowercase hex encoding of `data`.
///
/// Trusted: calls `hex::encode`, which maps each byte, in order, to the
/// characters of `"0123456789abcdef"` at its high then its low nibble.
#[verifier::external_body]
pub(crate) fn hex_encode(data: &[u8]) -> (r: String)
    ensures
        r@ == hex_lower(data@),
{
    hex::encode(data)
}

/// The `n` low bytes of `v`, least significant first.
pub open spec fn le_bytes_n(v: nat, n: nat) -> Seq<u8>
    decreases n,
{
    if n == 0 {
        Seq::empty()
    } else {
        seq![(v % 256) as u8] + le_bytes_n(v / 256, (n - 1) as nat)
    }
}

/// The eight bytes of a `u64`, least significant first, as `u64::to_le_bytes`
/// gives them.
pub open spec fn le_bytes(v: u64) -> Seq<u8> {
    le_bytes_n(v as nat, 8)
}

/// The little-endian bytes of `v`.
pub fn u64_le_bytes(v: u64) -> (r: Vec<u8>)
    ensures
        r@ == le_bytes(v),
{
    let mut out: Vec<u8> = Vec::new();
    let mut x: u64 = v;
    let mut i: u64 = 0;
    while i < 8
        invariant
            i <= 8,
            out@ + le_bytes_n(x as nat, (8 - i) as nat) == le_bytes(v),
        decreases 8 - i,
    {
        let ghost before = out@;
        out.push((x % 256) as u8);
        proof {
            let rest = le_bytes_n((x / 256) as nat, (8 - i - 1) as nat);
            assert(le_bytes_n(x as nat, (8 - i) as nat) == seq![(x % 256) as u8] + rest);
            assert(out@ + rest =~= before + (seq![(x % 256) as u8] + rest));
        }
        x = x / 256;
        i = i + 1;
    }
    proof {
        assert(out@ + Seq::<u8>::empty() =~= out@);
    }
    out
}

/// Appends bytes to a byte buffer.
pub fn extend_bytes(out: &mut Vec<u8>, data: &[u8])
    ensures
        final(out)@ == old(out)@ + data@,
{
    let mut i: usize = 0;
    while i < data.len()
        invariant
            i <= data.len(),
            out@ == old(out)@ + data@.take(i as int),
        decreases data.len() - i,
    {
        out.push(data[i]);
        proof {
            assert(data@.take(i + 1) =~= data@.take(i as int).push(data@[i as int]));
            assert(out@ =~= old(out)@ + data@.take(i + 1));
        }
        i = i + 1;
    }
    proof {
        assert(data@.take(data@.len() as int) =~= data@);
    }
}

} // verus!
