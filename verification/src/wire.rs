//! Canonical TLV wire format — tag-length-value over LEB128.
//!
//! Two wire types: VARINT (0) for integers and booleans, LEN (2) for bytes,
//! strings and nested messages. Canonical form: fields sorted by
//! (field number, wire type, value) and minimal varints, so every message has
//! exactly one byte form.
use vstd::prelude::*;
use vstd::relations::*;

verus! {

/// Wire type for integer/boolean values.
pub const VARINT: u8 = 0;
/// Wire type for byte/string/nested values.
pub const LEN: u8 = 2;

/// 2^64, the modulus of `u64` arithmetic.
pub open spec fn two64() -> int {
    0x1_0000_0000_0000_0000
}

/// 128 raised to the power `k`.
pub open spec fn pow128(k: nat) -> int
    decreases k,
{
    if k == 0 {
        1
    } else {
        128 * pow128((k - 1) as nat)
    }
}

/// The minimal LEB128 encoding of `v`: seven bits per byte, least significant
/// group first, high bit set on every byte but the last.
pub open spec fn leb_bytes(v: u64) -> Seq<u8>
    decreases v,
{
    if v < 128 {
        seq![v as u8]
    } else {
        seq![((v % 128) + 128) as u8] + leb_bytes(v / 128)
    }
}

/// The number a sequence of LEB128 groups denotes (the continuation bits are
/// ignored), without any width limit.
pub open spec fn leb_value(s: Seq<u8>) -> int
    decreases s.len(),
{
    if s.len() == 0 {
        0
    } else {
        (s[0] % 128) as int + 128 * leb_value(s.drop_first())
    }
}

/// Where a LEB128 number starting at `pos` ends. `k` counts the bytes already
/// read; after ten bytes that all carry a continuation bit the number is too
/// long.
pub enum LebScan {
    Done(int),
    Truncated,
    TooLong,
}

pub open spec fn leb_scan(data: Seq<u8>, pos: int, k: nat) -> LebScan
    decreases 10 - k,
{
    if pos < 0 || pos >= data.len() {
        LebScan::Truncated
    } else if data[pos] < 128 {
        LebScan::Done(pos + 1)
    } else if k + 1 >= 10 {
        LebScan::TooLong
    } else {
        leb_scan(data, pos + 1, k + 1)
    }
}

/// Decoding a LEB128 number at `offset`: its value modulo 2^64 and the offset
/// just after it, or why there is none.
pub open spec fn spec_decode_uleb(data: Seq<u8>, offset: int) -> LebDecoded {
    match leb_scan(data, offset, 0) {
        LebScan::Done(end) => LebDecoded::Decoded(
            (leb_value(data.subrange(offset, end)) % two64()) as u64,
            end,
        ),
        LebScan::Truncated => LebDecoded::Truncated,
        LebScan::TooLong => LebDecoded::TooLong,
    }
}

/// The outcome of decoding one LEB128 number.
pub enum LebDecoded {
    Decoded(u64, int),
    Truncated,
    TooLong,
}

/// Errors during wire encoding/decoding.
#[derive(Debug, Clone, PartialEq, Eq)]
pub enum WireError {
    InvalidFieldNumber(u32),
    UnknownWireType(u8),
    BadVarint(String),
    Truncated { offset: usize, needed: usize, have: usize },
    NonCanonical,
}

proof fn lemma_pow128_values()
    ensures
        pow128(0) == 1,
        pow128(1) == 0x80,
        pow128(2) == 0x4000,
        pow128(3) == 0x20_0000,
        pow128(4) == 0x1000_0000,
        pow128(5) == 0x8_0000_0000,
        pow128(6) == 0x400_0000_0000,
        pow128(7) == 0x2_0000_0000_0000,
        pow128(8) == 0x100_0000_0000_0000,
        pow128(9) == 0x8000_0000_0000_0000,
        pow128(10) == 0x40_0000_0000_0000_0000,
{
    reveal_with_fuel(pow128, 11);
}

proof fn lemma_pow128_pos(k: nat)
    ensures
        pow128(k) >= 1,
    decreases k,
{
    if k > 0 {
        lemma_pow128_pos((k - 1) as nat);
    }
}

/// Adding one more seven-bit group at position `k` of the number.
proof fn lemma_or_shift(r: u64, x: u64, k: u64)
    requires
        k <= 9,
        (r as int) < pow128(k as nat),
        x < 128,
    ensures
        (r | (x << (7 * k))) as int == ((r as int) + (x as int) * pow128(k as nat)) % two64(),
{
    lemma_pow128_values();
    if k == 0 {
        assert((r | (x << 0u64)) == r + x) by (bit_vector)
            requires r < 1u64, x < 128u64;
    } else if k == 1 {
        assert((r | (x << 7u64)) == r + x * 0x80) by (bit_vector)
            requires r < 0x80u64, x < 128u64;
    } else if k == 2 {
        assert((r | (x << 14u64)) == r + x * 0x4000) by (bit_vector)
            requires r < 0x4000u64, x < 128u64;
    } else if k == 3 {
        assert((r | (x << 21u64)) == r + x * 0x20_0000) by (bit_vector)
            requires r < 0x20_0000u64, x < 128u64;
    } else if k == 4 {
        assert((r | (x << 28u64)) == r + x * 0x1000_0000) by (bit_vector)
            requires r < 0x1000_0000u64, x < 128u64;
    } else if k == 5 {
        assert((r | (x << 35u64)) == r + x * 0x8_0000_0000) by (bit_vector)
            requires r < 0x8_0000_0000u64, x < 128u64;
    } else if k == 6 {
        assert((r | (x << 42u64)) == r + x * 0x400_0000_0000) by (bit_vector)
            requires r < 0x400_0000_0000u64, x < 128u64;
    } else if k == 7 {
        assert((r | (x << 49u64)) == r + x * 0x2_0000_0000_0000) by (bit_vector)
            requires r < 0x2_0000_0000_0000u64, x < 128u64;
    } else if k == 8 {
        assert((r | (x << 56u64)) == r + x * 0x100_0000_0000_0000) by (bit_vector)
            requires r < 0x100_0000_0000_0000u64, x < 128u64;
    } else {
        assert((r | (x << 63u64)) == r + (x % 2) * 0x8000_0000_0000_0000) by (bit_vector)
            requires r < 0x8000_0000_0000_0000u64, x < 128u64;
        assert(((r as int) + (x as int) * 0x8000_0000_0000_0000) % two64()
            == (r as int) + (x as int % 2) * 0x8000_0000_0000_0000) by (nonlinear_arith)
            requires (r as int) < 0x8000_0000_0000_0000, 0 <= x < 128;
    }
}

/// The value of a group sequence grows by the new group times 128^len.
proof fn lemma_leb_value_push(s: Seq<u8>, b: u8)
    ensures
        leb_value(s.push(b)) == leb_value(s) + (b % 128) as int * pow128(s.len()),
    decreases s.len(),
{
    if s.len() == 0 {
        assert(s.push(b).drop_first() =~= Seq::<u8>::empty());
        assert(leb_value(Seq::<u8>::empty()) == 0);
    } else {
        assert(s.push(b).drop_first() =~= s.drop_first().push(b));
        lemma_leb_value_push(s.drop_first(), b);
        assert(pow128(s.len()) == 128 * pow128((s.len() - 1) as nat));
        assert(128 * ((b % 128) as int * pow128((s.len() - 1) as nat)) == (b % 128) as int * pow128(s.len())) by (nonlinear_arith)
            requires pow128(s.len()) == 128 * pow128((s.len() - 1) as nat);
    }
}

/// A value of fewer than `k` groups is below 128^k.
proof fn lemma_leb_value_bound(s: Seq<u8>)
    ensures
        0 <= leb_value(s) < pow128(s.len()),
    decreases s.len(),
{
    if s.len() > 0 {
        lemma_leb_value_bound(s.drop_first());
        assert(0 <= leb_value(s) < pow128(s.len())) by (nonlinear_arith)
            requires
                leb_value(s) == (s[0] % 128) as int + 128 * leb_value(s.drop_first()),
                0 <= leb_value(s.drop_first()) < pow128((s.len() - 1) as nat),
                pow128(s.len()) == 128 * pow128((s.len() - 1) as nat),
                0 <= (s[0] % 128) < 128;
    }
}

proof fn lemma_byte_bits(b: u8)
    ensures
        (b & 0x7F) == b % 128,
        ((b & 0x80) == 0) == (b < 128),
{
    assert((b & 0x7F) == b % 128) by (bit_vector);
    assert(((b & 0x80) == 0) == (b < 128)) by (bit_vector);
}

/// Encode a u64 as LEB128.
pub fn encode_uleb128(value: u64) -> (out: Vec<u8>)
    ensures
        out@ == leb_bytes(value),
{
    let ghost orig = value;
    let mut value = value;
    let mut out: Vec<u8> = Vec::new();
    loop
        invariant_except_break
            out@ + leb_bytes(value) == leb_bytes(orig),
        ensures
            out@ == leb_bytes(orig),
        decreases value,
    {
        let ghost v = value;
        let mut byte = (value & 0x7F) as u8;
        value = value >> 7;
        assert(v & 0x7F == v % 128) by (bit_vector);
        assert(v >> 7 == v / 128) by (bit_vector);
        if value != 0 {
            assert((((v % 128) as u8) | 0x80) == ((v % 128) + 128) as u8) by (bit_vector);
            byte = byte | 0x80;
        }
        out.push(byte);
        proof {
            if value != 0 {
                assert(leb_bytes(v) == seq![byte] + leb_bytes(value));
                assert(out@ + leb_bytes(value) =~= (out@.drop_last() + seq![byte]) + leb_bytes(value));
            } else {
                assert(leb_bytes(v) == seq![byte]);
            }
        }
        if value == 0 {
            break;
        }
    }
    out
}

/// Scanning a prefix of continuation bytes moves the start along.
proof fn lemma_scan_step(data: Seq<u8>, start: int, pos: int)
    requires
        0 <= start <= pos,
        pos - start < 10,
        pos > start ==> pos <= data.len(),
        forall|j: int| #![trigger data[j]] start <= j < pos ==> data[j] >= 128,
    ensures
        leb_scan(data, start, 0) == leb_scan(data, pos, (pos - start) as nat),
    decreases pos - start,
{
    if pos > start {
        lemma_scan_step(data, start, pos - 1);
        let k = (pos - 1 - start) as nat;
        assert(leb_scan(data, pos - 1, k) == leb_scan(data, pos, k + 1));
    }
}

/// Shape and value of the minimal encoding: one to ten bytes, continuation
/// bits on all but the last, denoting exactly `v`.
pub proof fn lemma_leb_bytes(v: u64)
    ensures
        1 <= leb_bytes(v).len() <= 10,
        forall|j: int| 0 <= j < leb_bytes(v).len() - 1 ==> leb_bytes(v)[j] >= 128,
        leb_bytes(v)[leb_bytes(v).len() - 1] < 128,
        leb_value(leb_bytes(v)) == v as int,
{
    lemma_pow128_values();
    lemma_leb_bytes_len(v, 10);
    lemma_leb_bytes_shape(v);
}

proof fn lemma_leb_bytes_len(v: u64, j: nat)
    requires
        j >= 1,
        (v as int) < pow128(j),
    ensures
        leb_bytes(v).len() <= j,
    decreases v,
{
    if v >= 128 {
        assert(pow128(j) == 128 * pow128((j - 1) as nat));
        assert(((v / 128) as int) < pow128((j - 1) as nat)) by (nonlinear_arith)
            requires (v as int) < 128 * pow128((j - 1) as nat), v >= 128;
        if j == 1 {
            assert(pow128(0) == 1);
        }
        lemma_leb_bytes_len(v / 128, (j - 1) as nat);
    }
}

proof fn lemma_leb_bytes_shape(v: u64)
    ensures
        leb_bytes(v).len() >= 1,
        forall|j: int| 0 <= j < leb_bytes(v).len() - 1 ==> leb_bytes(v)[j] >= 128,
        leb_bytes(v)[leb_bytes(v).len() - 1] < 128,
        leb_value(leb_bytes(v)) == v as int,
    decreases v,
{
    let s = leb_bytes(v);
    if v < 128 {
        assert(s.drop_first() =~= Seq::<u8>::empty());
        assert(leb_value(Seq::<u8>::empty()) == 0);
    } else {
        lemma_leb_bytes_shape(v / 128);
        let t = leb_bytes(v / 128);
        assert(s.drop_first() =~= t);
        assert forall|j: int| 0 <= j < s.len() - 1 implies s[j] >= 128 by {
            if j > 0 {
                assert(s[j] == t[j - 1]);
            }
        }
        assert(s[s.len() - 1] == t[t.len() - 1]);
        assert(((v % 128) + 128) as u8 % 128 == v % 128);
        assert(v as int == (v % 128) as int + 128 * (v / 128) as int);
    }
}

/// Decoding at an offset where the minimal encoding of `v` stands yields `v`
/// and the offset just after it.
pub proof fn lemma_decode_leb_at(data: Seq<u8>, off: int, v: u64)
    requires
        0 <= off,
        off + leb_bytes(v).len() <= data.len(),
        data.subrange(off, off + leb_bytes(v).len()) == leb_bytes(v),
    ensures
        spec_decode_uleb(data, off) == LebDecoded::Decoded(v, off + leb_bytes(v).len()),
{
    let s = leb_bytes(v);
    let n = s.len() as int;
    lemma_leb_bytes(v);
    assert forall|j: int| #![trigger data[j]] off <= j < off + n - 1 implies data[j] >= 128 by {
        assert(data[j] == data.subrange(off, off + n)[j - off]);
    }
    lemma_scan_step(data, off, off + n - 1);
    assert(data[off + n - 1] == s[n - 1]);
    assert(leb_scan(data, off, 0) == LebScan::Done(off + n));
    assert((v as int) % two64() == v as int);
}

/// LEB128 round trip: decoding the encoding of any `u64` gives it back and
/// consumes exactly the encoding.
pub proof fn law_uleb_roundtrip(v: u64)
    ensures
        spec_decode_uleb(leb_bytes(v), 0) == LebDecoded::Decoded(v, leb_bytes(v).len() as int),
{
    assert(leb_bytes(v).subrange(0, leb_bytes(v).len() as int) =~= leb_bytes(v));
    lemma_decode_leb_at(leb_bytes(v), 0, v);
}

/// The minimal encoding is injective: different numbers never share bytes.
pub proof fn law_uleb_injective(a: u64, b: u64)
    requires
        leb_bytes(a) == leb_bytes(b),
    ensures
        a == b,
{
    lemma_leb_bytes(a);
    lemma_leb_bytes(b);
}

/// Decode a LEB128 u64 from bytes at offset.
pub fn decode_uleb128(data: &[u8], offset: usize) -> (r: Result<(u64, usize), WireError>)
    ensures
        match spec_decode_uleb(data@, offset as int) {
            LebDecoded::Decoded(v, end) => r matches Ok((rv, rend)) && rv == v && rend == end,
            LebDecoded::Truncated => r matches Err(WireError::BadVarint(m)) && m@ == "truncated"@,
            LebDecoded::TooLong => r matches Err(WireError::BadVarint(m)) && m@ == "too long"@,
        },
{
    let mut result: u64 = 0;
    let mut shift: u64 = 0;
    let mut pos = offset;
    loop
        invariant
            offset <= pos,
            pos - offset <= 9,
            shift == 7 * (pos - offset),
            pos > offset ==> pos <= data@.len(),
            forall|j: int| #![trigger data@[j]] offset <= j < pos ==> data@[j] >= 128,
            pos == offset ==> result == 0,
            pos > offset ==> result as int == leb_value(data@.subrange(offset as int, pos as int)),
        decreases 10 - (pos - offset),
    {
        proof {
            lemma_scan_step(data@, offset as int, pos as int);
        }
        if pos >= data.len() {
            return Err(WireError::BadVarint(crate::text::str_from("truncated")));
        }
        let byte = data[pos];
        let ghost prefix = data@.subrange(offset as int, pos as int);
        proof {
            if pos == offset {
                assert(prefix =~= Seq::<u8>::empty());
            }
            lemma_byte_bits(byte);
            lemma_leb_value_bound(prefix);
            lemma_or_shift(result, (byte % 128) as u64, (pos - offset) as u64);
            lemma_leb_value_push(prefix, byte);
            assert(data@.subrange(offset as int, pos + 1) =~= prefix.push(byte));
        }
        result = result | (((byte & 0x7F) as u64) << shift);
        pos = pos + 1;
        if byte & 0x80 == 0 {
            return Ok((result, pos));
        }
        shift = shift + 7;
        if shift >= 64 {
            return Err(WireError::BadVarint(crate::text::str_from("too long")));
        }
        proof {
            lemma_pow128_values();
            lemma_leb_value_bound(data@.subrange(offset as int, pos as int));
            assert(pow128((pos - offset) as nat) <= pow128(9));
            assert(leb_value(data@.subrange(offset as int, pos as int)) < two64());
        }
    }
}

/// A TLV field: (field number, wire type, value).
#[derive(Debug, Clone, PartialEq, Eq)]
#[allow(inconsistent_fields)]
pub enum Field {
    /// Integer field.
    Varint { field_no: u32, value: u64 },
    /// Bytes field.
    Len { field_no: u32, value: Vec<u8> },
}

/// The mathematical content of a field.
#[allow(inconsistent_fields)]
pub enum FieldView {
    Varint { field_no: u32, value: u64 },
    Len { field_no: u32, value: Seq<u8> },
}

impl View for Field {
    type V = FieldView;

    open spec fn view(&self) -> FieldView {
        match self {
            Field::Varint { field_no, value } => FieldView::Varint { field_no: *field_no, value: *value },
            Field::Len { field_no, value } => FieldView::Len { field_no: *field_no, value: value@ },
        }
    }
}

/// The contents of a list of fields.
pub open spec fn fields_view(s: Seq<Field>) -> Seq<FieldView> {
    s.map_values(|f: Field| f@)
}

pub open spec fn fv_no(f: FieldView) -> u32 {
    match f {
        FieldView::Varint { field_no, .. } => field_no,
        FieldView::Len { field_no, .. } => field_no,
    }
}

/// The second component of the sort key: 0 for VARINT, 1 for LEN.
pub open spec fn fv_rank(f: FieldView) -> u8 {
    match f {
        FieldView::Varint { .. } => 0,
        FieldView::Len { .. } => 1,
    }
}

/// The third component of the sort key: the varint's encoding, or the bytes.
pub open spec fn fv_key(f: FieldView) -> Seq<u8> {
    match f {
        FieldView::Varint { value, .. } => leb_bytes(value),
        FieldView::Len { value, .. } => value,
    }
}

/// Lexicographic order on byte strings (a proper prefix comes first).
pub open spec fn bytes_le(a: Seq<u8>, b: Seq<u8>) -> bool
    decreases a.len(),
{
    if a.len() == 0 {
        true
    } else if b.len() == 0 {
        false
    } else if a[0] != b[0] {
        a[0] < b[0]
    } else {
        bytes_le(a.drop_first(), b.drop_first())
    }
}

/// The canonical order of fields: by field number, then wire type, then value.
pub open spec fn field_le(a: FieldView, b: FieldView) -> bool {
    ||| fv_no(a) < fv_no(b)
    ||| (fv_no(a) == fv_no(b) && fv_rank(a) < fv_rank(b))
    ||| (fv_no(a) == fv_no(b) && fv_rank(a) == fv_rank(b) && bytes_le(fv_key(a), fv_key(b)))
}

pub open spec fn field_order() -> spec_fn(FieldView, FieldView) -> bool {
    |a: FieldView, b: FieldView| field_le(a, b)
}

proof fn lemma_bytes_le_refl(a: Seq<u8>)
    ensures
        bytes_le(a, a),
    decreases a.len(),
{
    if a.len() > 0 {
        lemma_bytes_le_refl(a.drop_first());
    }
}

proof fn lemma_bytes_le_antisym(a: Seq<u8>, b: Seq<u8>)
    requires
        bytes_le(a, b),
        bytes_le(b, a),
    ensures
        a == b,
    decreases a.len(),
{
    if a.len() == 0 {
        assert(b.len() == 0);
        assert(a =~= b);
    } else {
        lemma_bytes_le_antisym(a.drop_first(), b.drop_first());
        assert(a =~= seq![a[0]] + a.drop_first());
        assert(b =~= seq![b[0]] + b.drop_first());
    }
}

proof fn lemma_bytes_le_trans(a: Seq<u8>, b: Seq<u8>, c: Seq<u8>)
    requires
        bytes_le(a, b),
        bytes_le(b, c),
    ensures
        bytes_le(a, c),
    decreases a.len(),
{
    if a.len() > 0 && a[0] == b[0] && b[0] == c[0] {
        lemma_bytes_le_trans(a.drop_first(), b.drop_first(), c.drop_first());
    }
}

proof fn lemma_bytes_le_total(a: Seq<u8>, b: Seq<u8>)
    ensures
        bytes_le(a, b) || bytes_le(b, a),
    decreases a.len(),
{
    if a.len() > 0 && b.len() > 0 && a[0] == b[0] {
        lemma_bytes_le_total(a.drop_first(), b.drop_first());
    }
}

/// Equal sort keys mean equal fields.
proof fn lemma_key_injective(a: FieldView, b: FieldView)
    requires
        fv_no(a) == fv_no(b),
        fv_rank(a) == fv_rank(b),
        fv_key(a) == fv_key(b),
    ensures
        a == b,
{
    match (a, b) {
        (FieldView::Varint { value: x, .. }, FieldView::Varint { value: y, .. }) => {
            law_uleb_injective(x, y);
        },
        _ => {},
    }
}

/// The canonical field order is a total order.
pub proof fn lemma_field_order_total()
    ensures
        total_ordering(field_order()),
{
    assert forall|x: FieldView| #[trigger] field_order()(x, x) by {
        lemma_bytes_le_refl(fv_key(x));
    }
    assert forall|x: FieldView, y: FieldView|
        #[trigger] field_order()(x, y) && #[trigger] field_order()(y, x) implies x == y by {
        lemma_bytes_le_antisym(fv_key(x), fv_key(y));
        lemma_key_injective(x, y);
    }
    assert forall|x: FieldView, y: FieldView, z: FieldView|
        #[trigger] field_order()(x, y) && #[trigger] field_order()(y, z) implies field_order()(x, z) by {
        if fv_no(x) == fv_no(y) && fv_no(y) == fv_no(z) && fv_rank(x) == fv_rank(y) && fv_rank(y) == fv_rank(z) {
            lemma_bytes_le_trans(fv_key(x), fv_key(y), fv_key(z));
        }
    }
    assert forall|x: FieldView, y: FieldView|
        #[trigger] field_order()(x, y) || #[trigger] field_order()(y, x) by {
        lemma_bytes_le_total(fv_key(x), fv_key(y));
    }
}

/// Lexicographic comparison of two byte strings.
fn bytes_le_exec(a: &[u8], b: &[u8]) -> (r: bool)
    ensures
        r == bytes_le(a@, b@),
{
    let mut i: usize = 0;
    proof {
        assert(a@.skip(0) =~= a@);
        assert(b@.skip(0) =~= b@);
    }
    while i < a.len() && i < b.len()
        invariant
            i <= a.len(),
            i <= b.len(),
            bytes_le(a@, b@) == bytes_le(a@.skip(i as int), b@.skip(i as int)),
        decreases a.len() - i,
    {
        if a[i] != b[i] {
            proof {
                assert(a@.skip(i as int)[0] == a@[i as int]);
                assert(b@.skip(i as int)[0] == b@[i as int]);
            }
            return a[i] < b[i];
        }
        proof {
            assert(a@.skip(i as int).drop_first() =~= a@.skip(i + 1));
            assert(b@.skip(i as int).drop_first() =~= b@.skip(i + 1));
        }
        i = i + 1;
    }
    i == a.len()
}

/// The sort key of a field: (field number, 0 for VARINT or 1 for LEN, the
/// varint's encoding or the bytes).
fn field_sort_key(f: &Field) -> (k: (u32, u8, Vec<u8>))
    ensures
        k.0 == fv_no(f@),
        k.1 == fv_rank(f@),
        k.2@ == fv_key(f@),
{
    match f {
        Field::Varint { field_no, value } => (*field_no, 0, encode_uleb128(*value)),
        Field::Len { field_no, value } => (*field_no, 1, copy_bytes(value.as_slice())),
    }
}

/// Whether `a` comes no later than `b` in the canonical order.
fn field_le_exec(a: &Field, b: &Field) -> (r: bool)
    ensures
        r == field_le(a@, b@),
{
    let ka = field_sort_key(a);
    let kb = field_sort_key(b);
    if ka.0 != kb.0 {
        return ka.0 < kb.0;
    }
    if ka.1 != kb.1 {
        return ka.1 < kb.1;
    }
    bytes_le_exec(ka.2.as_slice(), kb.2.as_slice())
}

/// A copy of a field.
fn copy_field(f: &Field) -> (r: Field)
    ensures
        r@ == f@,
{
    match f {
        Field::Varint { field_no, value } => Field::Varint { field_no: *field_no, value: *value },
        Field::Len { field_no, value } => Field::Len { field_no: *field_no, value: copy_bytes(value.as_slice()) },
    }
}

/// A copy of a byte slice.
fn copy_bytes(b: &[u8]) -> (r: Vec<u8>)
    ensures
        r@ == b@,
{
    copy_range(b, 0, b.len())
}

/// A copy of `data[from..to]`.
fn copy_range(data: &[u8], from: usize, to: usize) -> (r: Vec<u8>)
    requires
        from <= to <= data.len(),
    ensures
        r@ == data@.subrange(from as int, to as int),
{
    let mut r: Vec<u8> = Vec::new();
    let mut i = from;
    while i < to
        invariant
            from <= i <= to,
            to <= data.len(),
            r@ == data@.subrange(from as int, i as int),
        decreases to - i,
    {
        r.push(data[i]);
        proof {
            assert(data@.subrange(from as int, i + 1) =~= data@.subrange(from as int, i as int).push(data@[i as int]));
        }
        i = i + 1;
    }
    r
}

/// The fields in canonical order (a stable insertion sort).
fn sorted_fields(fields: &[Field]) -> (out: Vec<Field>)
    ensures
        fields_view(out@) == fields_view(fields@).sort_by(field_order()),
{
    proof {
        lemma_field_order_total();
    }
    let mut out: Vec<Field> = Vec::new();
    proof {
        assert(fields_view(fields@.take(0)) =~= fields_view(out@));
    }
    let mut i: usize = 0;
    while i < fields.len()
        invariant
            i <= fields.len(),
            total_ordering(field_order()),
            sorted_by(fields_view(out@), field_order()),
            fields_view(out@).to_multiset() == fields_view(fields@.take(i as int)).to_multiset(),
        decreases fields.len() - i,
    {
        let f = copy_field(&fields[i]);
        let mut j: usize = 0;
        while j < out.len() && field_le_exec(&out[j], &f)
            invariant
                j <= out.len(),
                forall|k: int| 0 <= k < j ==> field_le(#[trigger] out@[k]@, f@),
            decreases out.len() - j,
        {
            j = j + 1;
        }
        let ghost old_view = fields_view(out@);
        let ghost fv = f@;
        out.insert(j, f);
        proof {
            assert(fields_view(out@) =~= old_view.insert(j as int, fv));
            assert forall|a: int, b: int| 0 <= a < b < fields_view(out@).len() implies
                #[trigger] field_order()(fields_view(out@)[a], fields_view(out@)[b]) by {
                let s = fields_view(out@);
                if b < j {
                    assert(field_order()(old_view[a], old_view[b]));
                } else if b == j {
                    assert(s[a] == out@[a]@);
                } else if a < j {
                    assert(field_le(out@[a]@, fv));
                    if j < old_view.len() {
                        assert(!field_order()(old_view[j as int], fv));
                        assert(field_order()(fv, old_view[j as int]));
                        if b - 1 > j {
                            assert(field_order()(old_view[j as int], old_view[b - 1]));
                        }
                    }
                } else if a == j {
                    assert(!field_order()(old_view[j as int], fv));
                    assert(field_order()(fv, old_view[j as int]));
                    if b - 1 > j {
                        assert(field_order()(old_view[j as int], old_view[b - 1]));
                    }
                } else {
                    assert(field_order()(old_view[a - 1], old_view[b - 1]));
                }
            }
            assert(fields_view(fields@.take(i + 1)) =~= fields_view(fields@.take(i as int)).push(fv));
            assert(fv == fields_view(fields@)[i as int]);
            vstd::seq_lib::to_multiset_insert(old_view, j as int, fv);
            vstd::seq_lib::to_multiset_build(fields_view(fields@.take(i as int)), fv);
        }
        i = i + 1;
    }
    proof {
        assert(fields@.take(fields@.len() as int) =~= fields@);
        fields_view(fields@).lemma_sort_by_ensures(field_order());
        vstd::seq_lib::lemma_sorted_unique(
            fields_view(out@),
            fields_view(fields@).sort_by(field_order()),
            field_order(),
        );
    }
    out
}

/// The tag of a field: `(field_no << 3) | wire_type`, computed in `u32`.
pub open spec fn field_tag(no: u32, wt: u32) -> u64 {
    ((no << 3u32) | wt) as u64
}

/// The bytes of one field: its tag, then the varint, or the length and the bytes.
pub open spec fn field_bytes(f: FieldView) -> Seq<u8> {
    match f {
        FieldView::Varint { field_no, value } => leb_bytes(field_tag(field_no, 0)) + leb_bytes(value),
        FieldView::Len { field_no, value } => leb_bytes(field_tag(field_no, 2))
            + leb_bytes(value.len() as u64) + value,
    }
}

/// The bytes of a list of fields in the given order; fields numbered 0 are skipped.
pub open spec fn serialize(s: Seq<FieldView>) -> Seq<u8>
    decreases s.len(),
{
    if s.len() == 0 {
        Seq::empty()
    } else {
        (if fv_no(s[0]) == 0 { Seq::empty() } else { field_bytes(s[0]) }) + serialize(s.drop_first())
    }
}

/// What `encode` produces: the fields in canonical order, serialized.
pub open spec fn spec_encode(fs: Seq<FieldView>) -> Seq<u8> {
    serialize(fs.sort_by(field_order()))
}

proof fn lemma_serialize_push(s: Seq<FieldView>, f: FieldView)
    ensures
        serialize(s.push(f)) == serialize(s) + (if fv_no(f) == 0 { Seq::<u8>::empty() } else { field_bytes(f) }),
    decreases s.len(),
{
    if s.len() == 0 {
        assert(s.push(f).drop_first() =~= Seq::<FieldView>::empty());
        assert(serialize(Seq::<FieldView>::empty()) =~= Seq::<u8>::empty());
        assert(s.push(f)[0] == f);
        assert(serialize(s.push(f)) =~= serialize(s) + (if fv_no(f) == 0 { Seq::<u8>::empty() } else { field_bytes(f) }));
    } else {
        assert(s.push(f).drop_first() =~= s.drop_first().push(f));
        lemma_serialize_push(s.drop_first(), f);
        assert(serialize(s.push(f)) =~= serialize(s) + (if fv_no(f) == 0 { Seq::<u8>::empty() } else { field_bytes(f) }));
    }
}

/// Append all of `b` to `a`.
fn append_bytes(a: &mut Vec<u8>, b: &[u8])
    ensures
        final(a)@ == old(a)@ + b@,
{
    let mut i: usize = 0;
    while i < b.len()
        invariant
            i <= b.len(),
            a@ == old(a)@ + b@.take(i as int),
        decreases b.len() - i,
    {
        a.push(b[i]);
        proof {
            assert(b@.take(i + 1) =~= b@.take(i as int).push(b@[i as int]));
        }
        i = i + 1;
    }
    proof {
        assert(b@.take(b@.len() as int) =~= b@);
    }
}

/// Encode fields into canonical TLV bytes.
///
/// Fields are sorted by (field_no, wire_type, value); fields numbered 0 are
/// skipped.
pub fn encode(fields: &[Field]) -> (out: Vec<u8>)
    ensures
        out@ == spec_encode(fields_view(fields@)),
{
    let sorted = sorted_fields(fields);
    let mut out: Vec<u8> = Vec::new();
    let mut i: usize = 0;
    proof {
        assert(fields_view(sorted@).take(0) =~= Seq::<FieldView>::empty());
    }
    while i < sorted.len()
        invariant
            i <= sorted.len(),
            out@ == serialize(fields_view(sorted@).take(i as int)),
        decreases sorted.len() - i,
    {
        let ghost prev = out@;
        let ghost fv = sorted@[i as int]@;
        match &sorted[i] {
            Field::Varint { field_no, value } => {
                if *field_no != 0 {
                    let tag: u32 = (*field_no << 3u32) | (VARINT as u32);
                    append_bytes(&mut out, encode_uleb128(tag as u64).as_slice());
                    append_bytes(&mut out, encode_uleb128(*value).as_slice());
                }
            },
            Field::Len { field_no, value } => {
                if *field_no != 0 {
                    let tag: u32 = (*field_no << 3u32) | (LEN as u32);
                    append_bytes(&mut out, encode_uleb128(tag as u64).as_slice());
                    append_bytes(&mut out, encode_uleb128(value.len() as u64).as_slice());
                    append_bytes(&mut out, value.as_slice());
                }
            },
        }
        proof {
            assert(fields_view(sorted@).take(i + 1) =~= fields_view(sorted@).take(i as int).push(fv));
            lemma_serialize_push(fields_view(sorted@).take(i as int), fv);
            assert(out@ =~= prev + (if fv_no(fv) == 0 { Seq::<u8>::empty() } else { field_bytes(fv) }));
        }
        i = i + 1;
    }
    proof {
        assert(fields_view(sorted@).take(sorted@.len() as int) =~= fields_view(sorted@));
    }
    out
}

/// A decoded LEB128 number ends after its start and within the data.
pub proof fn lemma_decode_uleb_bounds(data: Seq<u8>, pos: int)
    ensures
        spec_decode_uleb(data, pos) matches LebDecoded::Decoded(_, end) ==> pos < end <= data.len(),
{
    lemma_scan_bounds(data, pos, 0);
}

proof fn lemma_scan_bounds(data: Seq<u8>, pos: int, k: nat)
    ensures
        leb_scan(data, pos, k) matches LebScan::Done(end) ==> pos < end <= data.len(),
    decreases 10 - k,
{
    if 0 <= pos < data.len() && data[pos] >= 128 && k + 1 < 10 {
        lemma_scan_bounds(data, pos + 1, k + 1);
    }
}

/// Why decoding failed, with the information the error carries.
pub enum DecodeFailure {
    /// The tag varint at this offset is malformed.
    TagVarint(int, LebDecoded),
    /// The tag names field number 0.
    InvalidFieldNumber,
    /// The value varint of this field is malformed.
    ValueVarint(u32, LebDecoded),
    /// The length varint of this field is malformed.
    LengthVarint(u32, LebDecoded),
    /// A LEN field runs past the end: (offset, needed, have).
    Truncated(int, u64, int),
    /// The tag names an unknown wire type.
    UnknownWireType(u8),
}

/// Put one decoded field in front of the rest.
pub open spec fn prepend(f: FieldView, r: Result<Seq<FieldView>, DecodeFailure>) -> Result<Seq<FieldView>, DecodeFailure> {
    match r {
        Ok(rest) => Ok(seq![f] + rest),
        Err(e) => Err(e),
    }
}

/// Put decoded fields in front of the rest.
pub open spec fn prepend_all(pre: Seq<FieldView>, r: Result<Seq<FieldView>, DecodeFailure>) -> Result<Seq<FieldView>, DecodeFailure> {
    match r {
        Ok(rest) => Ok(pre + rest),
        Err(e) => Err(e),
    }
}

/// Decoding the fields that start at `offset`, in stream order.
pub open spec fn spec_decode_from(data: Seq<u8>, offset: int) -> Result<Seq<FieldView>, DecodeFailure>
    decreases data.len() - offset,
{
    if offset < 0 || offset >= data.len() {
        Ok(Seq::empty())
    } else {
        match spec_decode_uleb(data, offset) {
            LebDecoded::Decoded(tag, p1) => {
                let no = (tag >> 3u64) as u32;
                let wt = (tag & 7u64) as u8;
                if no == 0 {
                    Err(DecodeFailure::InvalidFieldNumber)
                } else if wt == VARINT {
                    match spec_decode_uleb(data, p1) {
                        LebDecoded::Decoded(v, p2) => {
                            proof {
                                lemma_decode_uleb_bounds(data, offset);
                                lemma_decode_uleb_bounds(data, p1);
                            }
                            prepend(FieldView::Varint { field_no: no, value: v }, spec_decode_from(data, p2))
                        },
                        e => Err(DecodeFailure::ValueVarint(no, e)),
                    }
                } else if wt == LEN {
                    match spec_decode_uleb(data, p1) {
                        LebDecoded::Decoded(len, p2) => {
                            if p2 + len > data.len() {
                                Err(DecodeFailure::Truncated(p2, len, data.len() - p2))
                            } else {
                                proof {
                                    lemma_decode_uleb_bounds(data, offset);
                                    lemma_decode_uleb_bounds(data, p1);
                                }
                                prepend(
                                    FieldView::Len { field_no: no, value: data.subrange(p2, p2 + len) },
                                    spec_decode_from(data, p2 + len),
                                )
                            }
                        },
                        e => Err(DecodeFailure::LengthVarint(no, e)),
                    }
                } else {
                    Err(DecodeFailure::UnknownWireType(wt))
                }
            },
            e => Err(DecodeFailure::TagVarint(offset, e)),
        }
    }
}

/// What `decode` produces.
pub open spec fn spec_decode(data: Seq<u8>) -> Result<Seq<FieldView>, DecodeFailure> {
    spec_decode_from(data, 0)
}

/// The text a malformed varint is described with.
pub open spec fn leb_failure_text(e: LebDecoded) -> Seq<char> {
    match e {
        LebDecoded::TooLong => "too long"@,
        _ => "truncated"@,
    }
}

/// The error `decode` reports for a failure.
pub open spec fn error_reports(err: WireError, f: DecodeFailure) -> bool {
    match f {
        DecodeFailure::TagVarint(off, e) => err matches WireError::BadVarint(m) && m@ == "tag at "@
            + crate::text::decimal(off as nat) + ": bad varint: "@ + leb_failure_text(e),
        DecodeFailure::InvalidFieldNumber => err matches WireError::InvalidFieldNumber(n) && n == 0,
        DecodeFailure::ValueVarint(no, e) => err matches WireError::BadVarint(m) && m@ == "value for field "@
            + crate::text::decimal(no as nat) + ": bad varint: "@ + leb_failure_text(e),
        DecodeFailure::LengthVarint(no, e) => err matches WireError::BadVarint(m) && m@ == "length for field "@
            + crate::text::decimal(no as nat) + ": bad varint: "@ + leb_failure_text(e),
        DecodeFailure::Truncated(off, needed, have) => err matches WireError::Truncated { offset: o, needed: n, have: h }
            && o == off && n == needed as usize && h == have,
        DecodeFailure::UnknownWireType(wt) => err matches WireError::UnknownWireType(w) && w == wt,
    }
}

/// The message of a malformed varint error: `"{prefix}{n}: bad varint: {inner}"`.
fn varint_message(prefix: &str, n: u64, e: WireError) -> (m: String)
    ensures
        m@ == prefix@ + crate::text::decimal(n as nat) + ": bad varint: "@ + match e {
            WireError::BadVarint(inner) => inner@,
            _ => Seq::<char>::empty(),
        },
{
    let mut m = crate::text::str_from(prefix);
    m.append(crate::text::u64_decimal(n).as_str());
    m.append(": bad varint: ");
    match e {
        WireError::BadVarint(inner) => m.append(inner.as_str()),
        _ => {},
    }
    m
}

/// Decode TLV bytes into fields, preserving all fields in stream order.
pub fn decode(data: &[u8]) -> (r: Result<Vec<Field>, WireError>)
    ensures
        match spec_decode(data@) {
            Ok(fs) => r matches Ok(v) && fields_view(v@) == fs,
            Err(f) => r matches Err(e) && error_reports(e, f),
        },
{
    let mut fields: Vec<Field> = Vec::new();
    let mut offset: usize = 0;
    while offset < data.len()
        invariant
            offset <= data.len(),
            spec_decode(data@) == prepend_all(fields_view(fields@), spec_decode_from(data@, offset as int)),
        decreases data.len() - offset,
    {
        proof {
            lemma_decode_uleb_bounds(data@, offset as int);
        }
        let (tag, p1) = match decode_uleb128(data, offset) {
            Ok(pair) => pair,
            Err(e) => {
                return Err(WireError::BadVarint(varint_message("tag at ", offset as u64, e)));
            },
        };
        let field_no = (tag >> 3) as u32;
        let wire_type = (tag & 0x7) as u8;
        if field_no == 0 {
            return Err(WireError::InvalidFieldNumber(0));
        }
        proof {
            lemma_decode_uleb_bounds(data@, p1 as int);
        }
        if wire_type == VARINT {
            let (value, p2) = match decode_uleb128(data, p1) {
                Ok(pair) => pair,
                Err(e) => {
                    return Err(WireError::BadVarint(varint_message("value for field ", field_no as u64, e)));
                },
            };
            let ghost before = fields_view(fields@);
            fields.push(Field::Varint { field_no, value });
            proof {
                assert(fields_view(fields@) =~= before.push(FieldView::Varint { field_no, value }));
                assert(before + (seq![FieldView::Varint { field_no, value }] + Seq::<FieldView>::empty())
                    =~= before.push(FieldView::Varint { field_no, value }) + Seq::<FieldView>::empty());
                match spec_decode_from(data@, p2 as int) {
                    Ok(rest) => {
                        assert(before + (seq![FieldView::Varint { field_no, value }] + rest)
                            =~= before.push(FieldView::Varint { field_no, value }) + rest);
                    },
                    Err(_) => {},
                }
            }
            offset = p2;
        } else if wire_type == LEN {
            let (length, p2) = match decode_uleb128(data, p1) {
                Ok(pair) => pair,
                Err(e) => {
                    return Err(WireError::BadVarint(varint_message("length for field ", field_no as u64, e)));
                },
            };
            if length > (data.len() - p2) as u64 {
                return Err(WireError::Truncated { offset: p2, needed: length as usize, have: data.len() - p2 });
            }
            let end = p2 + length as usize;
            let value = copy_range(data, p2, end);
            let ghost before = fields_view(fields@);
            let ghost fv = FieldView::Len { field_no, value: data@.subrange(p2 as int, end as int) };
            fields.push(Field::Len { field_no, value });
            proof {
                assert(fields_view(fields@) =~= before.push(fv));
                match spec_decode_from(data@, end as int) {
                    Ok(rest) => {
                        assert(before + (seq![fv] + rest) =~= before.push(fv) + rest);
                    },
                    Err(_) => {},
                }
            }
            offset = end;
        } else {
            return Err(WireError::UnknownWireType(wire_type));
        }
    }
    proof {
        assert(fields_view(fields@) + Seq::<FieldView>::empty() =~= fields_view(fields@));
    }
    Ok(fields)
}

/// What `decode_canonical` produces: the decoded fields, provided encoding
/// them again gives back exactly the input.
pub enum CanonicalFailure {
    Decode(DecodeFailure),
    NonCanonical,
}

pub open spec fn spec_decode_canonical(data: Seq<u8>) -> Result<Seq<FieldView>, CanonicalFailure> {
    match spec_decode(data) {
        Ok(fs) => if spec_encode(fs) == data { Ok(fs) } else { Err(CanonicalFailure::NonCanonical) },
        Err(f) => Err(CanonicalFailure::Decode(f)),
    }
}

/// Whether two byte strings are equal.
fn bytes_equal(a: &[u8], b: &[u8]) -> (r: bool)
    ensures
        r == (a@ == b@),
{
    if a.len() != b.len() {
        return false;
    }
    let mut i: usize = 0;
    while i < a.len()
        invariant
            i <= a.len(),
            a.len() == b.len(),
            forall|k: int| 0 <= k < i ==> a@[k] == b@[k],
        decreases a.len() - i,
    {
        if a[i] != b[i] {
            return false;
        }
        i = i + 1;
    }
    proof {
        assert(a@ =~= b@);
    }
    true
}

/// Decode AND enforce canonicality: the input must be byte-identical to
/// re-encoding what was decoded.
pub fn decode_canonical(data: &[u8]) -> (r: Result<Vec<Field>, WireError>)
    ensures
        match spec_decode_canonical(data@) {
            Ok(fs) => r matches Ok(v) && fields_view(v@) == fs,
            Err(CanonicalFailure::NonCanonical) => r matches Err(WireError::NonCanonical),
            Err(CanonicalFailure::Decode(f)) => r matches Err(e) && error_reports(e, f),
        },
{
    let fields = match decode(data) {
        Ok(v) => v,
        Err(e) => return Err(e),
    };
    let re_encoded = encode(fields.as_slice());
    if !bytes_equal(re_encoded.as_slice(), data) {
        return Err(WireError::NonCanonical);
    }
    Ok(fields)
}

/// A field number the format can carry: at least 1, and small enough that
/// `field_no << 3` loses no bits.
pub open spec fn valid_field_no(no: u32) -> bool {
    1 <= no < 0x2000_0000
}

/// A field the format carries unchanged: a valid number, and (for LEN) a
/// length that fits the `u64` length prefix, as every `Vec` does.
pub open spec fn valid_field(f: FieldView) -> bool {
    &&& valid_field_no(fv_no(f))
    &&& (f matches FieldView::Len { value, .. } ==> value.len() <= u64::MAX)
}

proof fn lemma_tag_bits(no: u32, wt: u32)
    requires
        valid_field_no(no),
        wt < 8,
    ensures
        (field_tag(no, wt) >> 3u64) as u32 == no,
        (field_tag(no, wt) & 7u64) as u8 == wt as u8,
{
    assert((((((no << 3u32) | wt) as u64) >> 3u64) as u32) == no) by (bit_vector)
        requires no < 0x2000_0000u32, wt < 8u32;
    assert((((((no << 3u32) | wt) as u64) & 7u64) as u8) == wt as u8) by (bit_vector)
        requires no < 0x2000_0000u32, wt < 8u32;
}

/// Decoding the serialization of valid fields, wherever it stands at the end
/// of the data, gives the fields back.
#[verifier::spinoff_prover]
#[verifier::rlimit(30)]
proof fn lemma_decode_serialized(d: Seq<u8>, off: int, s: Seq<FieldView>)
    requires
        0 <= off <= d.len(),
        forall|i: int| 0 <= i < s.len() ==> valid_field(#[trigger] s[i]),
        d.subrange(off, d.len() as int) == serialize(s),
    ensures
        spec_decode_from(d, off) == Ok::<Seq<FieldView>, DecodeFailure>(s),
    decreases s.len(),
{
    if s.len() == 0 {
        assert(serialize(s) =~= Seq::<u8>::empty());
        assert(off == d.len());
        assert(s =~= Seq::<FieldView>::empty());
    } else {
        let f = s[0];
        let rest = s.drop_first();
        assert(valid_field(f));
        assert forall|i: int| 0 <= i < rest.len() implies valid_field(#[trigger] rest[i]) by {
            assert(rest[i] == s[i + 1]);
        }
        let tail = d.subrange(off, d.len() as int);
        assert(tail == field_bytes(f) + serialize(rest));
        match f {
            FieldView::Varint { field_no, value } => {
                let tag = field_tag(field_no, 0);
                let tb = leb_bytes(tag);
                let vb = leb_bytes(value);
                lemma_leb_bytes(tag);
                lemma_leb_bytes(value);
                lemma_tag_bits(field_no, 0);
                let p1 = off + tb.len();
                let p2 = p1 + vb.len();
                assert(tail =~= tb + vb + serialize(rest));
                assert(d.subrange(off, p1) =~= tail.subrange(0, tb.len() as int));
                assert(tail.subrange(0, tb.len() as int) =~= tb);
                lemma_decode_leb_at(d, off, tag);
                assert(d.subrange(p1, p2) =~= tail.subrange(tb.len() as int, (tb.len() + vb.len()) as int));
                assert(tail.subrange(tb.len() as int, (tb.len() + vb.len()) as int) =~= vb);
                lemma_decode_leb_at(d, p1, value);
                assert(d.subrange(p2, d.len() as int) =~= tail.subrange((tb.len() + vb.len()) as int, tail.len() as int));
                assert(tail.subrange((tb.len() + vb.len()) as int, tail.len() as int) =~= serialize(rest));
                lemma_decode_serialized(d, p2, rest);
                assert(seq![f] + rest =~= s);
            },
            FieldView::Len { field_no, value } => {
                let tag = field_tag(field_no, 2);
                let tb = leb_bytes(tag);
                let n = value.len() as u64;
                let lb = leb_bytes(n);
                lemma_leb_bytes(tag);
                lemma_leb_bytes(n);
                lemma_tag_bits(field_no, 2);
                let p1 = off + tb.len();
                let p2 = p1 + lb.len();
                let p3 = p2 + value.len();
                assert(tail =~= tb + lb + value + serialize(rest));
                assert(d.subrange(off, p1) =~= tail.subrange(0, tb.len() as int));
                assert(tail.subrange(0, tb.len() as int) =~= tb);
                lemma_decode_leb_at(d, off, tag);
                assert(d.subrange(p1, p2) =~= tail.subrange(tb.len() as int, (tb.len() + lb.len()) as int));
                assert(tail.subrange(tb.len() as int, (tb.len() + lb.len()) as int) =~= lb);
                lemma_decode_leb_at(d, p1, n);
                assert(d.subrange(p2, p3) =~= tail.subrange((tb.len() + lb.len()) as int, (tb.len() + lb.len() + value.len()) as int));
                assert(tail.subrange((tb.len() + lb.len()) as int, (tb.len() + lb.len() + value.len()) as int) =~= value);
                assert(d.subrange(p3, d.len() as int) =~= tail.subrange((tb.len() + lb.len() + value.len()) as int, tail.len() as int));
                assert(tail.subrange((tb.len() + lb.len() + value.len()) as int, tail.len() as int) =~= serialize(rest));
                lemma_decode_serialized(d, p3, rest);
                assert(seq![f] + rest =~= s);
            },
        }
    }
}

/// Wire round trip: decoding the encoding of fields with valid numbers gives
/// the fields back in canonical order; fields already in canonical order come
/// back unchanged. (Fields numbered 0 are skipped by `encode`, and numbers of
/// 2^29 and above lose bits in the tag, so both are left out.)
pub proof fn law_wire_roundtrip(fs: Seq<FieldView>)
    requires
        forall|i: int| 0 <= i < fs.len() ==> valid_field(#[trigger] fs[i]),
    ensures
        spec_decode(spec_encode(fs)) == Ok::<Seq<FieldView>, DecodeFailure>(fs.sort_by(field_order())),
        sorted_by(fs, field_order()) ==> spec_decode(spec_encode(fs)) == Ok::<Seq<FieldView>, DecodeFailure>(fs),
{
    let sorted = fs.sort_by(field_order());
    lemma_field_order_total();
    fs.lemma_sort_by_ensures(field_order());
    assert forall|i: int| 0 <= i < sorted.len() implies valid_field(#[trigger] sorted[i]) by {
        assert(sorted.contains(sorted[i]));
        assert(fs.contains(sorted[i]));
        let j = choose|j: int| 0 <= j < fs.len() && fs[j] == sorted[i];
        assert(valid_field(fs[j]));
    }
    let d = spec_encode(fs);
    assert(d.subrange(0, d.len() as int) =~= d);
    lemma_decode_serialized(d, 0, sorted);
    if sorted_by(fs, field_order()) {
        vstd::seq_lib::lemma_sorted_unique(fs, sorted, field_order());
    }
}

/// The encoding depends only on which fields there are, not on their order.
pub proof fn law_encode_order_independent(a: Seq<FieldView>, b: Seq<FieldView>)
    requires
        a.to_multiset() == b.to_multiset(),
    ensures
        spec_encode(a) == spec_encode(b),
{
    lemma_field_order_total();
    a.lemma_sort_by_ensures(field_order());
    b.lemma_sort_by_ensures(field_order());
    vstd::seq_lib::lemma_sorted_unique(a.sort_by(field_order()), b.sort_by(field_order()), field_order());
}

/// The test "is not numbered 0".
pub open spec fn numbered() -> spec_fn(FieldView) -> bool {
    |f: FieldView| fv_no(f) != 0
}

/// Serializing skips the fields numbered 0, so dropping them first changes
/// nothing.
proof fn lemma_serialize_filter(s: Seq<FieldView>)
    ensures
        serialize(s.filter(numbered())) == serialize(s),
    decreases s.len(),
{
    reveal(Seq::filter);
    if s.len() > 0 {
        let d = s.drop_last();
        lemma_serialize_filter(d);
        assert(s =~= d.push(s.last()));
        lemma_serialize_push(d, s.last());
        if fv_no(s.last()) != 0 {
            lemma_serialize_push(d.filter(numbered()), s.last());
        }
    }
}

/// The multiset of a filtered sequence is the filtered multiset.
proof fn lemma_filter_multiset(s: Seq<FieldView>, p: spec_fn(FieldView) -> bool)
    ensures
        s.filter(p).to_multiset() =~= s.to_multiset().filter(p),
    decreases s.len(),
{
    broadcast use vstd::multiset::group_multiset_axioms, vstd::seq_lib::group_seq_properties;
    reveal(Seq::filter);
    if s.len() == 0 {
        assert(s.to_multiset() =~= vstd::multiset::Multiset::<FieldView>::empty());
        assert(s.filter(p) =~= s);
    } else {
        let d = s.drop_last();
        lemma_filter_multiset(d, p);
        assert(s =~= d.push(s.last()));
        vstd::seq_lib::to_multiset_build(d, s.last());
        if p(s.last()) {
            vstd::seq_lib::to_multiset_build(d.filter(p), s.last());
        }
    }
}

/// Filtering keeps a sorted sequence sorted.
proof fn lemma_filter_sorted(s: Seq<FieldView>, p: spec_fn(FieldView) -> bool)
    requires
        sorted_by(s, field_order()),
    ensures
        sorted_by(s.filter(p), field_order()),
    decreases s.len(),
{
    reveal(Seq::filter);
    if s.len() > 0 {
        let d = s.drop_last();
        assert(sorted_by(d, field_order())) by {
            assert forall|i: int, j: int| 0 <= i < j < d.len() implies #[trigger] (field_order())(d[i], d[j]) by {
                assert(d[i] == s[i] && d[j] == s[j]);
            }
        }
        lemma_filter_sorted(d, p);
        if p(s.last()) {
            let f = d.filter(p);
            let g = f.push(s.last());
            assert forall|i: int, j: int| 0 <= i < j < g.len() implies #[trigger] (field_order())(g[i], g[j]) by {
                if j == g.len() - 1 {
                    assert(f.contains(g[i])) by {
                        assert(f[i] == g[i]);
                    }
                    d.lemma_filter_contains_rev(p, g[i]);
                    let k = choose|k: int| 0 <= k < d.len() && d[k] == g[i];
                    assert(s[k] == d[k]);
                    assert((field_order())(s[k], s[s.len() - 1]));
                } else {
                    assert(g[i] == f[i] && g[j] == f[j]);
                }
            }
        }
    }
}

/// Fields numbered 0 are never emitted: dropping them leaves the encoding
/// unchanged.
pub proof fn law_encode_skips_field_zero(fs: Seq<FieldView>)
    ensures
        spec_encode(fs.filter(numbered())) == spec_encode(fs),
{
    lemma_field_order_total();
    let sorted = fs.sort_by(field_order());
    let kept = fs.filter(numbered());
    fs.lemma_sort_by_ensures(field_order());
    kept.lemma_sort_by_ensures(field_order());
    lemma_filter_sorted(sorted, numbered());
    lemma_filter_multiset(sorted, numbered());
    lemma_filter_multiset(fs, numbered());
    vstd::seq_lib::lemma_sorted_unique(sorted.filter(numbered()), kept.sort_by(field_order()), field_order());
    lemma_serialize_filter(sorted);
}

/// Canonical round trip: the encoding of fields with valid numbers is accepted
/// by `decode_canonical`, which gives the fields back in canonical order.
pub proof fn law_canonical_roundtrip(fs: Seq<FieldView>)
    requires
        forall|i: int| 0 <= i < fs.len() ==> valid_field(#[trigger] fs[i]),
    ensures
        spec_decode_canonical(spec_encode(fs)) == Ok::<Seq<FieldView>, CanonicalFailure>(fs.sort_by(field_order())),
{
    law_wire_roundtrip(fs);
    lemma_field_order_total();
    fs.lemma_sort_by_ensures(field_order());
    law_encode_order_independent(fs.sort_by(field_order()), fs);
}

/// One byte form per message: whatever `decode_canonical` accepts is exactly
/// the encoding of what it returns.
pub proof fn law_canonical_unique(data: Seq<u8>)
    ensures
        spec_decode_canonical(data) matches Ok(fs) ==> spec_encode(fs) == data,
{
}

/// `decode_canonical` accepts exactly what `decode` accepts and `encode`
/// gives back byte for byte; decode errors pass through and a message in
/// another byte form is `NonCanonical`; the encoding of valid fields is
/// accepted, giving them in canonical order; and two byte strings accepted
/// as the same message are the same.
pub proof fn law_decode_canonical(data: Seq<u8>, other: Seq<u8>, fs: Seq<FieldView>)
    requires
        forall|i: int| 0 <= i < fs.len() ==> valid_field(#[trigger] fs[i]),
    ensures
        spec_decode_canonical(data) is Ok <==> (spec_decode(data) matches Ok(x) && spec_encode(x) == data),
        spec_decode_canonical(data) matches Ok(x) ==> spec_decode(data) == Ok::<Seq<FieldView>, DecodeFailure>(x)
            && spec_encode(x) == data,
        spec_decode(data) matches Err(f) ==> spec_decode_canonical(data) == Err::<Seq<FieldView>, CanonicalFailure>(
            CanonicalFailure::Decode(f),
        ),
        spec_decode(data) matches Ok(x) && spec_encode(x) != data ==> spec_decode_canonical(data) == Err::<
            Seq<FieldView>,
            CanonicalFailure,
        >(CanonicalFailure::NonCanonical),
        spec_decode_canonical(spec_encode(fs)) == Ok::<Seq<FieldView>, CanonicalFailure>(fs.sort_by(field_order())),
        spec_decode_canonical(data) is Ok && spec_decode_canonical(data) == spec_decode_canonical(other) ==> data == other,
{
    law_canonical_roundtrip(fs);
}

} // verus!
