//! Ledger data codec: the binary-packed wire format for revocation status
//! list entries, `[fixed-size accumulator][bit-packed revocation bitmap]`.
use vstd::prelude::*;

use crate::errors::DlrError;
use crate::ACCUMULATOR_BYTE_SIZE;

verus! {

/// Whether bit `k` (0 = low bit, 7 = high bit) of `b` is set.
pub open spec fn byte_bit(b: u8, k: int) -> bool
    recommends
        0 <= k < 8,
{
    (b >> (k as u8)) & 1 == 1
}

/// The bit of the packed byte string that carries logical bit `i`: bit
/// `7 - i % 8` of byte `i / 8` (big-endian packing within each byte).
pub open spec fn packed_bit(bytes: Seq<u8>, i: int) -> bool
    recommends
        0 <= i < bytes.len() * 8,
{
    byte_bit(bytes[i / 8], 7 - i % 8)
}

/// The packed form of a bitmap: `ceil(len / 8)` bytes, logical bit `i` at
/// byte `i / 8`, bit position `7 - i % 8`, and unused trailing bit positions
/// clear.
pub open spec fn is_packed_form(bits: Seq<bool>, bytes: Seq<u8>) -> bool {
    &&& bytes.len() == (bits.len() + 7) / 8
    &&& forall|i: int| 0 <= i < bits.len() ==> #[trigger] packed_bit(bytes, i) == bits[i]
    &&& forall|i: int|
        bits.len() <= i < bytes.len() * 8 ==> #[trigger] packed_bit(bytes, i) == false
}

/// The bitmap read back from a packed byte string: one bit per bit position,
/// eight per byte.
pub open spec fn unpacked_bits(bytes: Seq<u8>) -> Seq<bool> {
    Seq::new(bytes.len() * 8, |i: int| packed_bit(bytes, i))
}

/// Logical bit `i` of a bitmap as 0 or 1, with 0 past the end.
pub open spec fn spec_bit_at(bits: Seq<bool>, i: int) -> u8 {
    if 0 <= i < bits.len() && bits[i] {
        1
    } else {
        0
    }
}

/// Byte `j` of the packed form, assembled bit by bit, high bit first.
pub open spec fn spec_packed_byte(bits: Seq<bool>, j: int) -> u8 {
    (spec_bit_at(bits, j * 8) << 7u8) | (spec_bit_at(bits, j * 8 + 1) << 6u8) | (spec_bit_at(
        bits,
        j * 8 + 2,
    ) << 5u8) | (spec_bit_at(bits, j * 8 + 3) << 4u8) | (spec_bit_at(bits, j * 8 + 4) << 3u8) | (
    spec_bit_at(bits, j * 8 + 5) << 2u8) | (spec_bit_at(bits, j * 8 + 6) << 1u8) | (spec_bit_at(
        bits,
        j * 8 + 7,
    ) << 0u8)
}

/// The packed byte string of a bitmap.
pub open spec fn packed_bytes(bits: Seq<bool>) -> Seq<u8> {
    Seq::new(((bits.len() + 7) / 8) as nat, |j: int| spec_packed_byte(bits, j))
}

/// Types whose values can be written to and read back from the byte
/// representation stored on the ledger.
pub trait LedgerDataTransformer: Sized {
    /// Which values may be encoded at all.
    spec fn wf(&self) -> bool;

    /// The byte representation of the value.
    spec fn spec_ledger_bytes(&self) -> Seq<u8>;

    /// Whether a byte representation decodes at all.
    spec fn decodable(bytes: Seq<u8>) -> bool;

    /// What a decoded value holds, in terms of the byte representation it
    /// was read from.
    spec fn decodes_to(bytes: Seq<u8>, v: &Self) -> bool;

    /// Encodes the value for the ledger.
    fn into_ledger_bytes(self) -> (r: Vec<u8>)
        requires
            self.wf(),
        ensures
            r@ == self.spec_ledger_bytes(),
    ;

    /// Decodes a ledger byte string; fails on byte strings shorter than the
    /// type's minimum size.
    fn from_ledger_bytes(bytes: &[u8]) -> (r: Result<Self, DlrError>)
        ensures
            match r {
                Ok(v) => Self::decodable(bytes@) && Self::decodes_to(bytes@, &v) && v.wf(),
                Err(e) => e == DlrError::DataTooShort && !Self::decodable(bytes@),
            },
    ;
}

/// A revocation status list entry as stored on the ledger: the current
/// accumulator element and the revocation bitmap, bit `i` telling whether
/// credential index `i` is revoked.
#[derive(Debug, Clone, PartialEq, Eq)]
pub struct StatusListUpdateLedgerData {
    /// The fixed-size cryptographic accumulator element.
    pub accumulator: Vec<u8>,
    /// One bit per credential index; `true` means revoked.
    pub rev_list: Vec<bool>,
}

impl LedgerDataTransformer for StatusListUpdateLedgerData {
    /// The accumulator must have exactly the fixed size.
    open spec fn wf(&self) -> bool {
        self.accumulator@.len() == ACCUMULATOR_BYTE_SIZE
    }

    /// Wire form: the accumulator bytes followed by the packed bitmap.
    open spec fn spec_ledger_bytes(&self) -> Seq<u8> {
        self.accumulator@ + packed_bytes(self.rev_list@)
    }

    /// A byte string decodes exactly when it can hold the accumulator.
    open spec fn decodable(bytes: Seq<u8>) -> bool {
        bytes.len() >= ACCUMULATOR_BYTE_SIZE
    }

    /// Decoding slices the accumulator off the front and unpacks the rest
    /// as the revocation bitmap.
    open spec fn decodes_to(bytes: Seq<u8>, v: &StatusListUpdateLedgerData) -> bool {
        &&& v.accumulator@ == bytes.take(ACCUMULATOR_BYTE_SIZE as int)
        &&& v.rev_list@ == unpacked_bits(bytes.skip(ACCUMULATOR_BYTE_SIZE as int))
    }

    fn into_ledger_bytes(self) -> (r: Vec<u8>) {
        let mut out = self.accumulator;
        let ghost accum = out@;
        let packed = bitmap_to_bytes(&self.rev_list);
        let ghost packed_view = packed@;
        let mut packed = packed;
        out.append(&mut packed);
        proof {
            lemma_packed_bytes_is_packed_form(self.rev_list@);
            lemma_packed_form_unique(self.rev_list@, packed_view, packed_bytes(self.rev_list@));
            assert(out@ =~= accum + packed_view);
        }
        out
    }

    fn from_ledger_bytes(bytes: &[u8]) -> (r: Result<Self, DlrError>) {
        if bytes.len() < ACCUMULATOR_BYTE_SIZE {
            return Err(DlrError::DataTooShort);
        }
        let accumulator = slice_to_vec_range(bytes, 0, ACCUMULATOR_BYTE_SIZE);
        let bitmap_bytes = slice_to_vec_range(bytes, ACCUMULATOR_BYTE_SIZE, bytes.len());
        let rev_list = bytes_to_bitmap(&bitmap_bytes);
        let v = StatusListUpdateLedgerData { accumulator, rev_list };
        proof {
            assert(v.accumulator@ =~= bytes@.take(ACCUMULATOR_BYTE_SIZE as int));
            assert(v.rev_list@ =~= unpacked_bits(bytes@.skip(ACCUMULATOR_BYTE_SIZE as int)));
        }
        Ok(v)
    }
}

/// Two packed forms of one bitmap are equal byte for byte.
proof fn lemma_packed_form_unique(bits: Seq<bool>, a: Seq<u8>, b: Seq<u8>)
    requires
        is_packed_form(bits, a),
        is_packed_form(bits, b),
    ensures
        a == b,
{
    assert forall|j: int| 0 <= j < a.len() implies a[j] == b[j] by {
        assert forall|k: int| 0 <= k < 8 implies byte_bit(a[j], k) == byte_bit(b[j], k) by {
            let i = j * 8 + (7 - k);
            assert(i / 8 == j && 7 - i % 8 == k) by (nonlinear_arith)
                requires
                    0 <= k < 8 && i == j * 8 + (7 - k) && j >= 0,
            ;
            assert(packed_bit(a, i) == byte_bit(a[j], k));
            assert(packed_bit(b, i) == byte_bit(b[j], k));
            if i < bits.len() {
                assert(packed_bit(a, i) == bits[i] && packed_bit(b, i) == bits[i]);
            } else {
                assert(i < a.len() * 8 && i < b.len() * 8) by (nonlinear_arith)
                    requires
                        0 <= j < a.len() && a.len() == b.len() && i < j * 8 + 8,
                ;
            }
        }
        lemma_byte_from_bits(a[j], b[j]);
    }
    assert(a =~= b);
}

/// Bytes that agree on every bit are equal.
proof fn lemma_byte_from_bits(x: u8, y: u8)
    requires
        forall|k: int| 0 <= k < 8 ==> #[trigger] byte_bit(x, k) == byte_bit(y, k),
    ensures
        x == y,
{
    assert(byte_bit(x, 0) == byte_bit(y, 0) && byte_bit(x, 1) == byte_bit(y, 1) && byte_bit(x, 2)
        == byte_bit(y, 2) && byte_bit(x, 3) == byte_bit(y, 3) && byte_bit(x, 4) == byte_bit(y, 4)
        && byte_bit(x, 5) == byte_bit(y, 5) && byte_bit(x, 6) == byte_bit(y, 6) && byte_bit(x, 7)
        == byte_bit(y, 7));
    assert((((x >> 0u8) & 1 == 1) == ((y >> 0u8) & 1 == 1) && ((x >> 1u8) & 1 == 1) == ((y >> 1u8)
        & 1 == 1) && ((x >> 2u8) & 1 == 1) == ((y >> 2u8) & 1 == 1) && ((x >> 3u8) & 1 == 1) == ((y
        >> 3u8) & 1 == 1) && ((x >> 4u8) & 1 == 1) == ((y >> 4u8) & 1 == 1) && ((x >> 5u8) & 1 == 1)
        == ((y >> 5u8) & 1 == 1) && ((x >> 6u8) & 1 == 1) == ((y >> 6u8) & 1 == 1) && ((x >> 7u8) & 1
        == 1) == ((y >> 7u8) & 1 == 1)) ==> x == y) by (bit_vector);
}

/// Copies `slice[from..to]` into a fresh vector.
fn slice_to_vec_range(slice: &[u8], from: usize, to: usize) -> (r: Vec<u8>)
    requires
        from <= to <= slice@.len(),
    ensures
        r@ == slice@.subrange(from as int, to as int),
{
    let mut out: Vec<u8> = Vec::new();
    let mut i: usize = from;
    while i < to
        invariant
            from <= i <= to <= slice@.len(),
            out@ == slice@.subrange(from as int, i as int),
        decreases to - i,
    {
        out.push(slice[i]);
        proof {
            assert(out@ =~= slice@.subrange(from as int, i + 1));
        }
        i = i + 1;
    }
    out
}

/// Packs a bitmap into bytes: bit `i` goes to byte `i / 8`, bit position
/// `7 - i % 8`; the last byte's unused positions stay clear.
pub fn bitmap_to_bytes(bits: &Vec<bool>) -> (r: Vec<u8>)
    ensures
        is_packed_form(bits@, r@),
{
    let n = bits.len();
    let byte_len = n / 8 + if n % 8 == 0 {
        0usize
    } else {
        1usize
    };
    assert(byte_len == (n + 7) / 8);
    let mut out: Vec<u8> = Vec::new();
    let mut j: usize = 0;
    while j < byte_len
        invariant
            j <= byte_len,
            out@.len() == j,
            n == bits@.len(),
            byte_len == (n + 7) / 8,
            forall|i: int| 0 <= i < j * 8 && i < n ==> #[trigger] packed_bit(out@, i) == bits@[i],
            forall|i: int| 0 <= i < j * 8 && i >= n ==> #[trigger] packed_bit(out@, i) == false,
        decreases byte_len - j,
    {
        let mut b: u8 = 0;
        proof {
            assert forall|t: int| 0 <= t < 8 implies !byte_bit(0u8, t) by {
                let tb = t as u8;
                assert(tb < 8 ==> ((0u8 >> tb) & 1) == 0) by (bit_vector);
            }
        }
        let mut k: usize = 0;
        while k < 8
            invariant
                k <= 8,
                j * 8 + 8 <= (n + 7) / 8 * 8,
                n == bits@.len(),
                forall|t: int|
                    8 - k <= t < 8 ==> #[trigger] byte_bit(b, t) == (j * 8 + (7 - t) < n
                        && bits@[j * 8 + (7 - t)]),
                forall|t: int| 0 <= t < 8 - k ==> #[trigger] byte_bit(b, t) == false,
            decreases 8 - k,
        {
            let i = j * 8 + k;
            proof {
                assert(j * 8 + k < (n + 7) / 8 * 8);
            }
            let bit = if i < n {
                bits[i]
            } else {
                false
            };
            let ghost old_b = b;
            if bit {
                b = b | (1u8 << (7 - k as u8));
            }
            proof {
                let ghost shift_i: int = 7 - k;
                if bit {
                    assert forall|t: int| 0 <= t < 8 implies #[trigger] byte_bit(b, t) == (if t
                        == shift_i {
                        true
                    } else {
                        byte_bit(old_b, t)
                    }) by {
                        let tb = t as u8;
                        let sh = (7 - k) as u8;
                        assert(tb < 8 && sh < 8 ==> (((old_b | (1u8 << sh)) >> tb) & 1) == (if tb
                            == sh {
                            1u8
                        } else {
                            (old_b >> tb) & 1
                        })) by (bit_vector);
                    }
                }
            }
            k = k + 1;
        }
        let ghost out_before = out@;
        out.push(b);
        proof {
            assert forall|i: int| 0 <= i < (j + 1) * 8 implies #[trigger] packed_bit(out@, i) == (i
                < n && bits@[i]) by {
                let bj = i / 8;
                assert(0 <= bj <= j && 0 <= i % 8 < 8) by (nonlinear_arith)
                    requires
                        0 <= i < (j + 1) * 8 && bj == i / 8,
                ;
                if bj == j {
                    assert(out@[bj] == b);
                    let t = 7 - i % 8;
                    assert(j * 8 + (7 - t) == i) by (nonlinear_arith)
                        requires
                            i / 8 == j && t == 7 - i % 8 && i >= 0,
                    ;
                    assert(byte_bit(b, t) == (i < n && bits@[i]));
                } else {
                    assert(out@[bj] == out_before[bj]);
                    assert(packed_bit(out_before, i) == packed_bit(out@, i));
                    assert(i < j * 8) by (nonlinear_arith)
                        requires
                            i / 8 == bj && bj < j && i >= 0,
                    ;
                }
            }
        }
        j = j + 1;
    }
    proof {
        assert(out@.len() * 8 == byte_len * 8);
        assert(n <= byte_len * 8 < n + 8) by (nonlinear_arith)
            requires
                byte_len == (n + 7) / 8,
        ;
    }
    out
}

/// Unpacks a byte string into its bitmap: eight bits per byte, high bit
/// first.
pub fn bytes_to_bitmap(bytes: &Vec<u8>) -> (r: Vec<bool>)
    ensures
        r@ == unpacked_bits(bytes@),
{
    let mut out: Vec<bool> = Vec::new();
    let mut j: usize = 0;
    while j < bytes.len()
        invariant
            j <= bytes@.len(),
            out@.len() == j * 8,
            forall|i: int| 0 <= i < j * 8 ==> #[trigger] out@[i] == packed_bit(bytes@, i),
        decreases bytes@.len() - j,
    {
        let b = bytes[j];
        let mut k: usize = 0;
        while k < 8
            invariant
                k <= 8,
                j < bytes@.len(),
                b == bytes@[j as int],
                out@.len() == j * 8 + k,
                forall|i: int| 0 <= i < j * 8 ==> #[trigger] out@[i] == packed_bit(bytes@, i),
                forall|i: int|
                    j * 8 <= i < j * 8 + k ==> #[trigger] out@[i] == packed_bit(bytes@, i),
            decreases 8 - k,
        {
            let bit = (b >> (7 - k as u8)) & 1 == 1;
            out.push(bit);
            proof {
                let i = j * 8 + k;
                assert(i / 8 == j && i % 8 == k) by (nonlinear_arith)
                    requires
                        i == j * 8 + k && 0 <= k < 8 && j >= 0,
                ;
                assert(packed_bit(bytes@, i as int) == byte_bit(b, 7 - k));
            }
            k = k + 1;
        }
        j = j + 1;
    }
    proof {
        assert(out@ =~= unpacked_bits(bytes@));
    }
    out
}

/// Decoding an encoding, for a bitmap of any length: the accumulator comes
/// back exactly; the bitmap comes back padded to whole bytes, its original
/// bits unchanged and the padding bits clear. (The wire format does not
/// carry the bit count, so a bitmap that does not fill its last byte gains
/// clear padding bits on the way back.)
pub proof fn lemma_status_list_codec_padding(
    data: StatusListUpdateLedgerData,
    back: StatusListUpdateLedgerData,
)
    requires
        data.wf(),
        StatusListUpdateLedgerData::decodes_to(data.spec_ledger_bytes(), &back),
    ensures
        StatusListUpdateLedgerData::decodable(data.spec_ledger_bytes()),
        back.accumulator@ == data.accumulator@,
        back.rev_list@.len() == 8 * ((data.rev_list@.len() + 7) / 8),
        forall|i: int|
            0 <= i < data.rev_list@.len() ==> #[trigger] back.rev_list@[i] == data.rev_list@[i],
        forall|i: int|
            data.rev_list@.len() <= i < back.rev_list@.len() ==> #[trigger] back.rev_list@[i]
                == false,
{
    let bits = data.rev_list@;
    let packed = packed_bytes(bits);
    lemma_packed_bytes_is_packed_form(bits);
    let enc = data.spec_ledger_bytes();
    assert(enc.take(ACCUMULATOR_BYTE_SIZE as int) =~= data.accumulator@);
    assert(enc.skip(ACCUMULATOR_BYTE_SIZE as int) =~= packed);
    assert(back.rev_list@ == unpacked_bits(packed));
    assert(bits.len() <= packed.len() * 8) by (nonlinear_arith)
        requires
            packed.len() == (bits.len() + 7) / 8,
    ;
}

/// Codec round trip: the encoding of any status list whose bitmap fills
/// whole bytes is decodable, anything it decodes to holds exactly the
/// accumulator and bitmap it was built from, and the encoding is the
/// accumulator size plus `ceil(bit count / 8)` bytes long.
pub proof fn lemma_status_list_codec_round_trip(
    data: StatusListUpdateLedgerData,
    back: StatusListUpdateLedgerData,
)
    requires
        data.wf(),
        data.rev_list@.len() % 8 == 0,
        StatusListUpdateLedgerData::decodes_to(data.spec_ledger_bytes(), &back),
    ensures
        StatusListUpdateLedgerData::decodable(data.spec_ledger_bytes()),
        back.accumulator@ == data.accumulator@,
        back.rev_list@ == data.rev_list@,
        data.spec_ledger_bytes().len() == ACCUMULATOR_BYTE_SIZE + (data.rev_list@.len() + 7) / 8,
{
    let bits = data.rev_list@;
    let packed = packed_bytes(bits);
    lemma_packed_bytes_is_packed_form(bits);
    let enc = data.spec_ledger_bytes();
    assert(enc.len() == ACCUMULATOR_BYTE_SIZE + (bits.len() + 7) / 8);
    assert(enc.take(ACCUMULATOR_BYTE_SIZE as int) =~= data.accumulator@);
    assert(enc.skip(ACCUMULATOR_BYTE_SIZE as int) =~= packed);
    assert(packed.len() * 8 == bits.len()) by (nonlinear_arith)
        requires
            packed.len() == (bits.len() + 7) / 8 && bits.len() % 8 == 0,
    ;
    assert(unpacked_bits(packed) =~= bits);
}

/// The deterministic packed byte string is a packed form of its bitmap.
pub proof fn lemma_packed_bytes_is_packed_form(bits: Seq<bool>)
    ensures
        is_packed_form(bits, packed_bytes(bits)),
{
    let p = packed_bytes(bits);
    assert forall|i: int| 0 <= i < bits.len() implies #[trigger] packed_bit(p, i) == bits[i] by {
        lemma_spec_packed_byte_bit(bits, i);
    }
    assert forall|i: int| bits.len() <= i < p.len() * 8 implies #[trigger] packed_bit(p, i)
        == false by {
        lemma_spec_packed_byte_bit(bits, i);
    }
}

/// Bit `7 - i % 8` of packed byte `i / 8` is logical bit `i`.
proof fn lemma_spec_packed_byte_bit(bits: Seq<bool>, i: int)
    requires
        0 <= i,
    ensures
        byte_bit(spec_packed_byte(bits, i / 8), 7 - i % 8) == (i < bits.len() && bits[i]),
{
    let j = i / 8;
    let b0 = spec_bit_at(bits, j * 8);
    let b1 = spec_bit_at(bits, j * 8 + 1);
    let b2 = spec_bit_at(bits, j * 8 + 2);
    let b3 = spec_bit_at(bits, j * 8 + 3);
    let b4 = spec_bit_at(bits, j * 8 + 4);
    let b5 = spec_bit_at(bits, j * 8 + 5);
    let b6 = spec_bit_at(bits, j * 8 + 6);
    let b7 = spec_bit_at(bits, j * 8 + 7);
    let r = i % 8;
    assert(j * 8 + r == i) by (nonlinear_arith)
        requires
            j == i / 8 && r == i % 8 && i >= 0,
    ;
    let k = (7 - r) as u8;
    assert(b0 <= 1 && b1 <= 1 && b2 <= 1 && b3 <= 1 && b4 <= 1 && b5 <= 1 && b6 <= 1 && b7 <= 1);
    assert(k < 8 && b0 <= 1 && b1 <= 1 && b2 <= 1 && b3 <= 1 && b4 <= 1 && b5 <= 1 && b6 <= 1 && b7
        <= 1 ==> (((b0 << 7u8) | (b1 << 6u8) | (b2 << 5u8) | (b3 << 4u8) | (b4 << 3u8) | (b5
        << 2u8) | (b6 << 1u8) | (b7 << 0u8)) >> k) & 1 == (if k == 7 {
        b0
    } else if k == 6 {
        b1
    } else if k == 5 {
        b2
    } else if k == 4 {
        b3
    } else if k == 3 {
        b4
    } else if k == 2 {
        b5
    } else if k == 1 {
        b6
    } else {
        b7
    })) by (bit_vector);
}

} // verus!
