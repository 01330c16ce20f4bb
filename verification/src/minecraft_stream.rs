//! Primitive binary codec over [`MemStream`]: fixed-width little-endian
//! integers, variable-length integers (varint/varlong: 7 payload bits per
//! byte, high bit as continuation flag, least-significant group first), and
//! length-prefixed UTF-8 strings.

use vstd::prelude::*;
use vstd::string::StrSliceExecFns;
use vstd::utf8::{decode_utf8, encode_utf8, valid_utf8};

use crate::mem_stream::MemStream;

verus! {

/// Failure of a codec read.
#[derive(Debug, PartialEq, Eq, Structural, Clone, Copy)]
pub enum ReadError {
    /// Fewer bytes were available than the field needed.
    EndOfStream,
    /// A varint ran past its maximum of 5 groups.
    VarIntTooBig,
    /// A varlong ran past its maximum of 10 groups.
    VarLongTooBig,
    /// A string's bytes are not valid UTF-8.
    InvalidEncoding,
    /// The underlying transport failed (decompression failure, socket reset).
    IOError,
}

/// 128 to the `n`th power: the number of values `n` varint groups can hold.
pub open spec fn pow128(n: nat) -> nat
    decreases n,
{
    if n == 0 {
        1
    } else {
        128 * pow128((n - 1) as nat)
    }
}

/// 256 to the `n`th power: the number of values `n` bytes can hold.
pub open spec fn pow256(n: nat) -> nat
    decreases n,
{
    if n == 0 {
        1
    } else {
        256 * pow256((n - 1) as nat)
    }
}

/// The minimal varint encoding of `v`: 7-bit groups, least significant
/// first, continuation bit set on every group but the last.
pub open spec fn varint_groups(v: nat) -> Seq<u8>
    decreases v,
{
    if v < 128 {
        seq![v as u8]
    } else {
        seq![((v % 128) + 128) as u8] + varint_groups(v / 128)
    }
}

/// Outcome of reading a variable-length integer from the front of a byte
/// sequence, allowing at most `max` groups.
pub enum VarParse {
    /// A terminated varint of `length` bytes denoting `value` (the full
    /// accumulated value, before any truncation to the target width).
    Done { value: nat, length: nat },
    /// `max` groups passed without a terminating byte.
    TooBig,
    /// The sequence ended while every byte so far had the continuation bit.
    Incomplete,
}

/// Reads a varint from the front of `s`, allowing at most `max` groups.
pub open spec fn varint_parse(s: Seq<u8>, max: nat) -> VarParse
    decreases max,
{
    if max == 0 {
        VarParse::TooBig
    } else if s.len() == 0 {
        VarParse::Incomplete
    } else if s[0] < 128 {
        VarParse::Done { value: s[0] as nat, length: 1 }
    } else {
        match varint_parse(s.subrange(1, s.len() as int), (max - 1) as nat) {
            VarParse::Done { value, length } => VarParse::Done {
                value: ((s[0] - 128) + 128 * value) as nat,
                length: length + 1,
            },
            r => r,
        }
    }
}

/// The low 32 bits of a decoded varint value.
pub open spec fn truncate_u32(v: nat) -> u32 {
    (v % 0x1_0000_0000) as u32
}

/// The low 64 bits of a decoded varlong value.
pub open spec fn truncate_u64(v: nat) -> u64 {
    (v % 0x1_0000_0000_0000_0000) as u64
}

/// `pow128` does not shrink as its argument grows.
pub proof fn lemma_pow128_le(a: nat, b: nat)
    requires
        a <= b,
    ensures
        pow128(a) <= pow128(b),
    decreases b,
{
    if a < b {
        lemma_pow128_le(a, (b - 1) as nat);
    }
}

/// Concrete values of `pow128` at the group limits.
pub proof fn lemma_pow128_values()
    ensures
        pow128(1) == 128,
        pow128(5) == 0x8_0000_0000,
        pow128(9) == 0x8000_0000_0000_0000,
        pow128(10) == 0x40_0000_0000_0000_0000,
{
    reveal_with_fuel(pow128, 11);
}

/// `pow256` does not shrink as its argument grows.
pub proof fn lemma_pow256_le(a: nat, b: nat)
    requires
        a <= b,
    ensures
        pow256(a) <= pow256(b),
    decreases b,
{
    if a < b {
        lemma_pow256_le(a, (b - 1) as nat);
    }
}

/// Concrete values of `pow256` at the field widths.
pub proof fn lemma_pow256_values()
    ensures
        pow256(2) == 0x1_0000,
        pow256(4) == 0x1_0000_0000,
        pow256(7) == 0x100_0000_0000_0000,
        pow256(8) == 0x1_0000_0000_0000_0000,
{
    reveal_with_fuel(pow256, 9);
}

/// The unsigned value of a little-endian byte sequence.
pub open spec fn le_value(s: Seq<u8>) -> nat
    decreases s.len(),
{
    if s.len() == 0 {
        0
    } else {
        (s[0] + 256 * le_value(s.subrange(1, s.len() as int))) as nat
    }
}

/// The `n`-byte little-endian encoding of `v` (high bits beyond `n` bytes
/// are dropped).
pub open spec fn le_bytes(v: nat, n: nat) -> Seq<u8>
    decreases n,
{
    if n == 0 {
        seq![]
    } else {
        seq![(v % 256) as u8] + le_bytes(v / 256, (n - 1) as nat)
    }
}

/// The encoding of `v` in `n` bytes takes exactly `n` bytes.
pub proof fn lemma_le_bytes_len(v: nat, n: nat)
    ensures
        le_bytes(v, n).len() == n,
    decreases n,
{
    if n > 0 {
        lemma_le_bytes_len(v / 256, (n - 1) as nat);
    }
}

/// A little-endian sequence's value fits in its own width.
pub proof fn lemma_le_value_bound(s: Seq<u8>)
    ensures
        le_value(s) < pow256(s.len()),
    decreases s.len(),
{
    if s.len() > 0 {
        lemma_le_value_bound(s.subrange(1, s.len() as int));
    }
}

/// Law: the fixed-width round trip. Encoding a value that fits in `n`
/// bytes and reading the bytes back yields the value.
pub proof fn lemma_le_round_trip(v: nat, n: nat)
    requires
        v < pow256(n),
    ensures
        le_value(le_bytes(v, n)) == v,
    decreases n,
{
    if n > 0 {
        vstd::arithmetic::div_mod::lemma_fundamental_div_mod(v as int, 256);
        lemma_le_round_trip(v / 256, (n - 1) as nat);
        lemma_le_bytes_len(v, n);
        assert(le_bytes(v, n).subrange(1, le_bytes(v, n).len() as int) =~= le_bytes(
            v / 256,
            (n - 1) as nat,
        ));
    }
}

/// The wire encoding of a string: a varint byte-length prefix, then the
/// UTF-8 bytes themselves.
pub open spec fn string_encoding(chars: Seq<char>) -> Seq<u8> {
    varint_groups(encode_utf8(chars).len()) + encode_utf8(chars)
}

/// Outcome of reading a length-prefixed string from the front of a byte
/// sequence.
pub enum StrParse {
    /// The decoded characters and the total bytes consumed, prefix
    /// included.
    Done { chars: Seq<char>, length: nat },
    /// The length prefix itself exceeds the varint group limit.
    BadPrefix,
    /// The declared string runs past the end of the data (a negative
    /// declared length counts as such); `consumed` bytes of prefix were
    /// read.
    Incomplete { consumed: nat },
    /// The declared bytes are not valid UTF-8; prefix and body consumed.
    NotUtf8 { consumed: nat },
}

/// Reads a length-prefixed string from the front of `s`.
pub open spec fn string_parse(s: Seq<u8>) -> StrParse {
    match varint_parse(s, 5) {
        VarParse::TooBig => StrParse::BadPrefix,
        VarParse::Incomplete => StrParse::Incomplete { consumed: s.len() },
        VarParse::Done { value, length } => {
            let n = truncate_u32(value) as i32;
            if n < 0 || s.len() - length < n {
                StrParse::Incomplete { consumed: length }
            } else if valid_utf8(s.subrange(length as int, length + n)) {
                StrParse::Done {
                    chars: decode_utf8(s.subrange(length as int, length + n)),
                    length: (length + n) as nat,
                }
            } else {
                StrParse::NotUtf8 { consumed: (length + n) as nat }
            }
        },
    }
}

/// Relies on `String::from_utf8` from std: it succeeds exactly when the
/// bytes are valid UTF-8, and then returns the string those bytes spell.
#[verifier::external_body]
fn bytes_to_string(bytes: Vec<u8>) -> (r: Result<String, ReadError>)
    ensures
        match r {
            Ok(s) => valid_utf8(bytes@) && s@ == decode_utf8(bytes@),
            Err(e) => e == ReadError::InvalidEncoding && !valid_utf8(bytes@),
        },
{
    match String::from_utf8(bytes) {
        Ok(s) => Ok(s),
        Err(_) => Err(ReadError::InvalidEncoding),
    }
}

/// Law: the string round trip. Parsing the wire encoding of any character
/// sequence whose UTF-8 form fits the length prefix yields the same
/// characters back and consumes exactly the encoding, whatever follows it.
pub proof fn lemma_string_round_trip(chars: Seq<char>, rest: Seq<u8>)
    requires
        encode_utf8(chars).len() < 0x8000_0000,
    ensures
        string_parse(string_encoding(chars) + rest) == (StrParse::Done {
            chars,
            length: string_encoding(chars).len(),
        }),
{
    let bytes = encode_utf8(chars);
    let prefix = varint_groups(bytes.len());
    let s = string_encoding(chars) + rest;
    lemma_pow128_values();
    assert(s =~= prefix + (bytes + rest));
    lemma_varint_parse_groups(bytes.len(), bytes + rest, 5);
    assert(s.subrange(prefix.len() as int, (prefix.len() + bytes.len()) as int) =~= bytes);
    vstd::utf8::encode_utf8_valid_utf8(chars);
    vstd::utf8::encode_utf8_decode_utf8(chars);
}

/// Outcome of scanning a variable-length integer off a stream.
enum VarScan {
    /// The accumulated value and the number of bytes consumed.
    Done(u128, usize),
    TooBig,
    Incomplete,
}

/// Consumes one varint of at most `max` groups from the stream, mirroring
/// [`varint_parse`] on the stream's remaining bytes.
fn read_var_groups(stream: &mut MemStream, max: usize) -> (r: VarScan)
    requires
        old(stream).wf(),
        max <= 10,
    ensures
        final(stream).wf(),
        final(stream).data() == old(stream).data(),
        match r {
            VarScan::Done(value, length) => {
                &&& varint_parse(old(stream).remaining(), max as nat) == (VarParse::Done {
                    value: value as nat,
                    length: length as nat,
                })
                &&& value < pow128(max as nat)
                &&& 1 <= length <= max
                &&& final(stream).pos() == old(stream).pos() + length
            },
            VarScan::TooBig => {
                &&& varint_parse(old(stream).remaining(), max as nat) == VarParse::TooBig
                &&& final(stream).pos() == old(stream).pos() + max
            },
            VarScan::Incomplete => {
                &&& varint_parse(old(stream).remaining(), max as nat) == VarParse::Incomplete
                &&& final(stream).pos() == old(stream).data().len()
            },
        },
    decreases max,
{
    if max == 0 {
        return VarScan::TooBig;
    }
    match stream.read_byte() {
        Err(_) => VarScan::Incomplete,
        Ok(b) => {
            if b < 128 {
                proof {
                    lemma_pow128_values();
                    lemma_pow128_le(1, max as nat);
                }
                VarScan::Done(b as u128, 1)
            } else {
                proof {
                    assert(stream.remaining() =~= old(stream).remaining().subrange(
                        1,
                        old(stream).remaining().len() as int,
                    ));
                }
                match read_var_groups(stream, max - 1) {
                    VarScan::Done(v, l) => {
                        proof {
                            lemma_pow128_le((max - 1) as nat, 9);
                            lemma_pow128_values();
                        }
                        VarScan::Done((b - 128) as u128 + 128 * v, l + 1)
                    },
                    VarScan::TooBig => VarScan::TooBig,
                    VarScan::Incomplete => VarScan::Incomplete,
                }
            }
        },
    }
}

/// Appends the minimal varint encoding of `v`, returning its byte count.
fn write_var_groups(stream: &mut MemStream, v: u64) -> (r: usize)
    requires
        old(stream).wf(),
    ensures
        final(stream).wf(),
        final(stream).data() == old(stream).data() + varint_groups(v as nat),
        final(stream).pos() == old(stream).pos() + varint_groups(v as nat).len(),
        r == varint_groups(v as nat).len(),
        1 <= r <= 10,
    decreases v,
{
    proof {
        lemma_pow128_values();
        lemma_varint_groups_len(v as nat, 10);
    }
    if v < 128 {
        stream.write_byte(v as u8);
        proof {
            assert(varint_groups(v as nat) =~= seq![v as u8]);
        }
        1
    } else {
        let b: u8 = (v % 128 + 128) as u8;
        stream.write_byte(b);
        let rest = write_var_groups(stream, v / 128);
        proof {
            assert(varint_groups(v as nat) =~= seq![b] + varint_groups((v / 128) as nat));
            assert(old(stream).data() + varint_groups(v as nat) =~= (old(stream).data()
                + seq![b]) + varint_groups((v / 128) as nat));
        }
        rest + 1
    }
}

/// The minimal encoding of a value below `pow128(k)` takes at most `k`
/// groups (and always at least one).
pub proof fn lemma_varint_groups_len(v: nat, k: nat)
    requires
        v < pow128(k),
        1 <= k,
    ensures
        1 <= varint_groups(v).len() <= k,
    decreases v,
{
    if v >= 128 {
        lemma_pow128_values();
        assert(k >= 2);
        vstd::arithmetic::div_mod::lemma_fundamental_div_mod(v as int, 128);
        lemma_varint_groups_len(v / 128, (k - 1) as nat);
    }
}

/// When the minimal encoding takes more than one group, the value reaches
/// the capacity of one group fewer.
pub proof fn lemma_varint_groups_len_lower(v: nat)
    ensures
        varint_groups(v).len() >= 1,
        varint_groups(v).len() > 1 ==> pow128((varint_groups(v).len() - 1) as nat) <= v,
    decreases v,
{
    if v >= 128 {
        vstd::arithmetic::div_mod::lemma_fundamental_div_mod(v as int, 128);
        lemma_varint_groups_len_lower(v / 128);
        let lq = varint_groups(v / 128).len();
        assert(varint_groups(v).len() == lq + 1);
        if lq == 1 {
            lemma_pow128_values();
        } else {
            assert(pow128(lq) == 128 * pow128((lq - 1) as nat));
            assert(128 * pow128((lq - 1) as nat) <= 128 * (v / 128));
            assert(128 * (v / 128) <= v);
        }
    }
}

/// Law: parsing the minimal encoding of `v` yields exactly `v` back and
/// consumes exactly that encoding, whatever bytes follow it.
pub proof fn lemma_varint_parse_groups(v: nat, rest: Seq<u8>, max: nat)
    requires
        v < pow128(max),
        1 <= max,
    ensures
        varint_parse(varint_groups(v) + rest, max) == (VarParse::Done {
            value: v,
            length: varint_groups(v).len(),
        }),
    decreases v,
{
    let s = varint_groups(v) + rest;
    if v < 128 {
        assert(s[0] == v as u8);
    } else {
        assert(s[0] == ((v % 128) + 128) as u8);
        assert(s.subrange(1, s.len() as int) =~= varint_groups(v / 128) + rest);
        lemma_pow128_values();
        lemma_pow128_le(1, max);
        assert(max >= 2);
        vstd::arithmetic::div_mod::lemma_fundamental_div_mod(v as int, 128);
        lemma_varint_parse_groups(v / 128, rest, (max - 1) as nat);
    }
}

/// Law: a value the parser accepts in `length` bytes fits in `length`
/// groups.
pub proof fn lemma_varint_parse_value_bound(s: Seq<u8>, max: nat, value: nat, length: nat)
    requires
        varint_parse(s, max) == (VarParse::Done { value, length }),
    ensures
        value < pow128(length),
        1 <= length <= max,
    decreases max,
{
    if max > 0 && s.len() > 0 && s[0] < 128 {
        lemma_pow128_values();
    }
    if max > 0 && s.len() > 0 && s[0] >= 128 {
        let tail = s.subrange(1, s.len() as int);
        match varint_parse(tail, (max - 1) as nat) {
            VarParse::Done { value: v2, length: l2 } => {
                lemma_varint_parse_value_bound(tail, (max - 1) as nat, v2, l2);
                assert(pow128(l2 + 1) == 128 * pow128(l2));
            },
            _ => {},
        }
    }
}

/// Law: no byte sequence the parser accepts for a value is shorter than the
/// minimal encoding the encoder emits for it.
pub proof fn lemma_varint_groups_minimal(s: Seq<u8>, max: nat, value: nat, length: nat)
    requires
        varint_parse(s, max) == (VarParse::Done { value, length }),
    ensures
        varint_groups(value).len() <= length,
{
    lemma_varint_parse_value_bound(s, max, value, length);
    lemma_varint_groups_len_lower(value);
    if varint_groups(value).len() > length {
        lemma_pow128_le(length, (varint_groups(value).len() - 1) as nat);
    }
}

/// Law: when the first `max` bytes all carry the continuation bit, the
/// parser reports the varint too big, whatever follows them.
pub proof fn lemma_varint_overflow(s: Seq<u8>, max: nat)
    requires
        s.len() >= max,
        forall|i: int| 0 <= i < max ==> s[i] >= 128,
    ensures
        varint_parse(s, max) == VarParse::TooBig,
    decreases max,
{
    if max > 0 {
        lemma_varint_overflow(s.subrange(1, s.len() as int), (max - 1) as nat);
    }
}

/// Law: the varint round trip for `i32`. Writing any value and parsing the
/// bytes back recovers exactly that value.
pub proof fn lemma_varint_round_trip(value: i32, rest: Seq<u8>)
    ensures
        varint_parse(varint_groups((value as u32) as nat) + rest, 5) == (VarParse::Done {
            value: (value as u32) as nat,
            length: varint_groups((value as u32) as nat).len(),
        }),
        truncate_u32((value as u32) as nat) as i32 == value,
{
    lemma_pow128_values();
    lemma_varint_parse_groups((value as u32) as nat, rest, 5);
    assert(truncate_u32((value as u32) as nat) == value as u32);
    assert((value as u32) as i32 == value) by (bit_vector);
}

/// Law: the varlong round trip for `i64`. Writing any value and parsing the
/// bytes back recovers exactly that value.
pub proof fn lemma_varlong_round_trip(value: i64, rest: Seq<u8>)
    ensures
        varint_parse(varint_groups((value as u64) as nat) + rest, 10) == (VarParse::Done {
            value: (value as u64) as nat,
            length: varint_groups((value as u64) as nat).len(),
        }),
        truncate_u64((value as u64) as nat) as i64 == value,
{
    lemma_pow128_values();
    lemma_varint_parse_groups((value as u64) as nat, rest, 10);
    assert(truncate_u64((value as u64) as nat) == value as u64);
    assert((value as u64) as i64 == value) by (bit_vector);
}

impl MemStream {
    /// Reads one byte, or fails with `EndOfStream` leaving the stream as it
    /// was.
    pub fn read_byte(&mut self) -> (r: Result<u8, ReadError>)
        requires
            old(self).wf(),
        ensures
            final(self).wf(),
            final(self).data() == old(self).data(),
            match r {
                Ok(b) => {
                    &&& old(self).remaining().len() >= 1
                    &&& b == old(self).remaining()[0]
                    &&& final(self).pos() == old(self).pos() + 1
                },
                Err(e) => {
                    &&& e == ReadError::EndOfStream
                    &&& old(self).remaining().len() == 0
                    &&& final(self).pos() == old(self).pos()
                },
            },
    {
        match self.read_exact(1) {
            Ok(v) => Ok(v[0]),
            Err(_) => Err(ReadError::EndOfStream),
        }
    }

    /// Appends one byte.
    pub fn write_byte(&mut self, value: u8)
        requires
            old(self).wf(),
        ensures
            final(self).wf(),
            final(self).data() == old(self).data() + seq![value],
            final(self).pos() == old(self).pos() + 1,
    {
        let mut one: Vec<u8> = Vec::new();
        one.push(value);
        self.write(&one);
    }

    /// Reads `n` bytes (at most 8) as a little-endian unsigned value, or
    /// fails with `EndOfStream` leaving the stream as it was.
    fn read_le(&mut self, n: usize) -> (r: Result<u64, ReadError>)
        requires
            old(self).wf(),
            n <= 8,
        ensures
            final(self).wf(),
            final(self).data() == old(self).data(),
            match r {
                Ok(v) => {
                    &&& n <= old(self).remaining().len()
                    &&& v as nat == le_value(old(self).remaining().subrange(0, n as int))
                    &&& final(self).pos() == old(self).pos() + n
                },
                Err(e) => {
                    &&& e == ReadError::EndOfStream
                    &&& old(self).remaining().len() < n
                    &&& final(self).pos() == old(self).pos()
                },
            },
    {
        let bytes = match self.read_exact(n) {
            Ok(b) => b,
            Err(_) => {
                return Err(ReadError::EndOfStream);
            },
        };
        let mut acc: u64 = 0;
        let mut i: usize = n;
        while i > 0
            invariant
                i <= n,
                n <= 8,
                bytes@.len() == n,
                acc as nat == le_value(bytes@.subrange(i as int, n as int)),
                acc < pow256((n - i) as nat),
            decreases i,
        {
            i = i - 1;
            proof {
                lemma_pow256_values();
                lemma_pow256_le((n - i - 1) as nat, 7);
                assert(bytes@.subrange(i as int, n as int).subrange(1, (n - i) as int)
                    =~= bytes@.subrange(i + 1, n as int));
            }
            acc = bytes[i] as u64 + 256 * acc;
        }
        proof {
            assert(bytes@.subrange(0, n as int) =~= bytes@);
        }
        Ok(acc)
    }

    /// Appends the `n`-byte little-endian encoding of `v`.
    fn write_le(&mut self, v: u64, n: usize)
        requires
            old(self).wf(),
        ensures
            final(self).wf(),
            final(self).data() == old(self).data() + le_bytes(v as nat, n as nat),
            final(self).pos() == old(self).pos() + n,
        decreases n,
    {
        proof {
            lemma_le_bytes_len(v as nat, n as nat);
        }
        if n == 0 {
            proof {
                assert(old(self).data() + le_bytes(v as nat, 0) =~= old(self).data());
            }
            return;
        }
        let b: u8 = (v % 256) as u8;
        self.write_byte(b);
        self.write_le(v / 256, n - 1);
        proof {
            assert(le_bytes(v as nat, n as nat) =~= seq![b] + le_bytes(
                (v / 256) as nat,
                (n - 1) as nat,
            ));
            assert(old(self).data() + le_bytes(v as nat, n as nat) =~= (old(self).data()
                + seq![b]) + le_bytes((v / 256) as nat, (n - 1) as nat));
        }
    }

    /// Reads a varint: at most 5 groups, truncated to the low 32 bits as
    /// the wire protocol prescribes.
    pub fn read_varint(&mut self) -> (r: Result<i32, ReadError>)
        requires
            old(self).wf(),
        ensures
            final(self).wf(),
            final(self).data() == old(self).data(),
            match varint_parse(old(self).remaining(), 5) {
                VarParse::Done { value, length } => {
                    &&& r == Ok::<i32, ReadError>(truncate_u32(value) as i32)
                    &&& final(self).pos() == old(self).pos() + length
                },
                VarParse::TooBig => {
                    &&& r == Err::<i32, ReadError>(ReadError::VarIntTooBig)
                    &&& final(self).pos() == old(self).pos() + 5
                },
                VarParse::Incomplete => {
                    &&& r == Err::<i32, ReadError>(ReadError::EndOfStream)
                    &&& final(self).pos() == old(self).data().len()
                },
            },
    {
        match read_var_groups(self, 5) {
            VarScan::Done(v, _) => Ok(((v % 0x1_0000_0000) as u32) as i32),
            VarScan::TooBig => Err(ReadError::VarIntTooBig),
            VarScan::Incomplete => Err(ReadError::EndOfStream),
        }
    }

    /// Reads a varlong: at most 10 groups, truncated to the low 64 bits.
    pub fn read_varlong(&mut self) -> (r: Result<i64, ReadError>)
        requires
            old(self).wf(),
        ensures
            final(self).wf(),
            final(self).data() == old(self).data(),
            match varint_parse(old(self).remaining(), 10) {
                VarParse::Done { value, length } => {
                    &&& r == Ok::<i64, ReadError>(truncate_u64(value) as i64)
                    &&& final(self).pos() == old(self).pos() + length
                },
                VarParse::TooBig => {
                    &&& r == Err::<i64, ReadError>(ReadError::VarLongTooBig)
                    &&& final(self).pos() == old(self).pos() + 10
                },
                VarParse::Incomplete => {
                    &&& r == Err::<i64, ReadError>(ReadError::EndOfStream)
                    &&& final(self).pos() == old(self).data().len()
                },
            },
    {
        match read_var_groups(self, 10) {
            VarScan::Done(v, _) => Ok(((v % 0x1_0000_0000_0000_0000) as u64) as i64),
            VarScan::TooBig => Err(ReadError::VarLongTooBig),
            VarScan::Incomplete => Err(ReadError::EndOfStream),
        }
    }

    /// Appends the minimal varint encoding of `value` (5 groups at most),
    /// returning how many bytes it took.
    pub fn write_varint(&mut self, value: i32) -> (r: i32)
        requires
            old(self).wf(),
        ensures
            final(self).wf(),
            final(self).data() == old(self).data() + varint_groups((value as u32) as nat),
            final(self).pos() == old(self).pos() + varint_groups((value as u32) as nat).len(),
            r == varint_groups((value as u32) as nat).len(),
    {
        let n = write_var_groups(self, (value as u32) as u64);
        n as i32
    }

    /// Appends the minimal varint encoding of `value` (10 groups at most),
    /// returning how many bytes it took.
    pub fn write_varlong(&mut self, value: i64) -> (r: i32)
        requires
            old(self).wf(),
        ensures
            final(self).wf(),
            final(self).data() == old(self).data() + varint_groups((value as u64) as nat),
            final(self).pos() == old(self).pos() + varint_groups((value as u64) as nat).len(),
            r == varint_groups((value as u64) as nat).len(),
    {
        let n = write_var_groups(self, value as u64);
        n as i32
    }

    /// Reads a little-endian `i16`.
    pub fn read_short(&mut self) -> (r: Result<i16, ReadError>)
        requires
            old(self).wf(),
        ensures
            final(self).wf(),
            final(self).data() == old(self).data(),
            match r {
                Ok(v) => {
                    &&& old(self).remaining().len() >= 2
                    &&& v == (le_value(old(self).remaining().subrange(0, 2)) as u16) as i16
                    &&& final(self).pos() == old(self).pos() + 2
                },
                Err(e) => {
                    &&& e == ReadError::EndOfStream
                    &&& old(self).remaining().len() < 2
                    &&& final(self).pos() == old(self).pos()
                },
            },
    {
        proof {
            lemma_le_value_bound(old(self).remaining().subrange(0, 2));
            lemma_pow256_values();
        }
        match self.read_le(2) {
            Ok(v) => Ok((v as u16) as i16),
            Err(e) => Err(e),
        }
    }

    /// Appends `value` as a little-endian `i16`.
    pub fn write_short(&mut self, value: i16)
        requires
            old(self).wf(),
        ensures
            final(self).wf(),
            final(self).data() == old(self).data() + le_bytes((value as u16) as nat, 2),
            final(self).pos() == old(self).pos() + 2,
    {
        self.write_le((value as u16) as u64, 2);
    }

    /// Reads a little-endian `u16`.
    pub fn read_ushort(&mut self) -> (r: Result<u16, ReadError>)
        requires
            old(self).wf(),
        ensures
            final(self).wf(),
            final(self).data() == old(self).data(),
            match r {
                Ok(v) => {
                    &&& old(self).remaining().len() >= 2
                    &&& v as nat == le_value(old(self).remaining().subrange(0, 2))
                    &&& final(self).pos() == old(self).pos() + 2
                },
                Err(e) => {
                    &&& e == ReadError::EndOfStream
                    &&& old(self).remaining().len() < 2
                    &&& final(self).pos() == old(self).pos()
                },
            },
    {
        proof {
            lemma_le_value_bound(old(self).remaining().subrange(0, 2));
            lemma_pow256_values();
        }
        match self.read_le(2) {
            Ok(v) => Ok(v as u16),
            Err(e) => Err(e),
        }
    }

    /// Appends `value` as a little-endian `u16`.
    pub fn write_ushort(&mut self, value: u16)
        requires
            old(self).wf(),
        ensures
            final(self).wf(),
            final(self).data() == old(self).data() + le_bytes(value as nat, 2),
            final(self).pos() == old(self).pos() + 2,
    {
        self.write_le(value as u64, 2);
    }

    /// Reads a little-endian `i32`.
    pub fn read_int(&mut self) -> (r: Result<i32, ReadError>)
        requires
            old(self).wf(),
        ensures
            final(self).wf(),
            final(self).data() == old(self).data(),
            match r {
                Ok(v) => {
                    &&& old(self).remaining().len() >= 4
                    &&& v == (le_value(old(self).remaining().subrange(0, 4)) as u32) as i32
                    &&& final(self).pos() == old(self).pos() + 4
                },
                Err(e) => {
                    &&& e == ReadError::EndOfStream
                    &&& old(self).remaining().len() < 4
                    &&& final(self).pos() == old(self).pos()
                },
            },
    {
        proof {
            lemma_le_value_bound(old(self).remaining().subrange(0, 4));
            lemma_pow256_values();
        }
        match self.read_le(4) {
            Ok(v) => Ok((v as u32) as i32),
            Err(e) => Err(e),
        }
    }

    /// Appends `value` as a little-endian `i32`.
    pub fn write_int(&mut self, value: i32)
        requires
            old(self).wf(),
        ensures
            final(self).wf(),
            final(self).data() == old(self).data() + le_bytes((value as u32) as nat, 4),
            final(self).pos() == old(self).pos() + 4,
    {
        self.write_le((value as u32) as u64, 4);
    }

    /// Reads a little-endian `u32`.
    pub fn read_uint(&mut self) -> (r: Result<u32, ReadError>)
        requires
            old(self).wf(),
        ensures
            final(self).wf(),
            final(self).data() == old(self).data(),
            match r {
                Ok(v) => {
                    &&& old(self).remaining().len() >= 4
                    &&& v as nat == le_value(old(self).remaining().subrange(0, 4))
                    &&& final(self).pos() == old(self).pos() + 4
                },
                Err(e) => {
                    &&& e == ReadError::EndOfStream
                    &&& old(self).remaining().len() < 4
                    &&& final(self).pos() == old(self).pos()
                },
            },
    {
        proof {
            lemma_le_value_bound(old(self).remaining().subrange(0, 4));
            lemma_pow256_values();
        }
        match self.read_le(4) {
            Ok(v) => Ok(v as u32),
            Err(e) => Err(e),
        }
    }

    /// Appends `value` as a little-endian `u32`.
    pub fn write_uint(&mut self, value: u32)
        requires
            old(self).wf(),
        ensures
            final(self).wf(),
            final(self).data() == old(self).data() + le_bytes(value as nat, 4),
            final(self).pos() == old(self).pos() + 4,
    {
        self.write_le(value as u64, 4);
    }

    /// Reads a little-endian `i64`.
    pub fn read_long(&mut self) -> (r: Result<i64, ReadError>)
        requires
            old(self).wf(),
        ensures
            final(self).wf(),
            final(self).data() == old(self).data(),
            match r {
                Ok(v) => {
                    &&& old(self).remaining().len() >= 8
                    &&& v == (le_value(old(self).remaining().subrange(0, 8)) as u64) as i64
                    &&& final(self).pos() == old(self).pos() + 8
                },
                Err(e) => {
                    &&& e == ReadError::EndOfStream
                    &&& old(self).remaining().len() < 8
                    &&& final(self).pos() == old(self).pos()
                },
            },
    {
        proof {
            lemma_le_value_bound(old(self).remaining().subrange(0, 8));
            lemma_pow256_values();
        }
        match self.read_le(8) {
            Ok(v) => Ok(v as i64),
            Err(e) => Err(e),
        }
    }

    /// Appends `value` as a little-endian `i64`.
    pub fn write_long(&mut self, value: i64)
        requires
            old(self).wf(),
        ensures
            final(self).wf(),
            final(self).data() == old(self).data() + le_bytes((value as u64) as nat, 8),
            final(self).pos() == old(self).pos() + 8,
    {
        self.write_le(value as u64, 8);
    }

    /// Reads a little-endian `u64`.
    pub fn read_ulong(&mut self) -> (r: Result<u64, ReadError>)
        requires
            old(self).wf(),
        ensures
            final(self).wf(),
            final(self).data() == old(self).data(),
            match r {
                Ok(v) => {
                    &&& old(self).remaining().len() >= 8
                    &&& v as nat == le_value(old(self).remaining().subrange(0, 8))
                    &&& final(self).pos() == old(self).pos() + 8
                },
                Err(e) => {
                    &&& e == ReadError::EndOfStream
                    &&& old(self).remaining().len() < 8
                    &&& final(self).pos() == old(self).pos()
                },
            },
    {
        self.read_le(8)
    }

    /// Reads a length-prefixed UTF-8 string: a varint byte length, then
    /// that many bytes, decoded as UTF-8 or failing with
    /// `InvalidEncoding`.
    pub fn read_string(&mut self) -> (r: Result<String, ReadError>)
        requires
            old(self).wf(),
        ensures
            final(self).wf(),
            final(self).data() == old(self).data(),
            match string_parse(old(self).remaining()) {
                StrParse::Done { chars, length } => {
                    &&& r matches Ok(s) && s@ == chars
                    &&& final(self).pos() == old(self).pos() + length
                },
                StrParse::BadPrefix => {
                    &&& r == Err::<String, ReadError>(ReadError::VarIntTooBig)
                    &&& final(self).pos() == old(self).pos() + 5
                },
                StrParse::Incomplete { consumed } => {
                    &&& r == Err::<String, ReadError>(ReadError::EndOfStream)
                    &&& final(self).pos() == old(self).pos() + consumed
                },
                StrParse::NotUtf8 { consumed } => {
                    &&& r == Err::<String, ReadError>(ReadError::InvalidEncoding)
                    &&& final(self).pos() == old(self).pos() + consumed
                },
            },
    {
        let ghost rem = old(self).remaining();
        let n = match self.read_varint() {
            Ok(n) => n,
            Err(e) => {
                return Err(e);
            },
        };
        let ghost plen = match varint_parse(rem, 5) {
            VarParse::Done { value: _, length } => length,
            _ => 0,
        };
        if n < 0 {
            return Err(ReadError::EndOfStream);
        }
        proof {
            assert(self.remaining() =~= rem.subrange(plen as int, rem.len() as int));
        }
        let bytes = match self.read_exact(n as usize) {
            Ok(b) => b,
            Err(_) => {
                return Err(ReadError::EndOfStream);
            },
        };
        proof {
            assert(bytes@ =~= rem.subrange(plen as int, plen + n));
        }
        bytes_to_string(bytes)
    }

    /// Appends the wire encoding of `value` — a varint byte length, then
    /// the UTF-8 bytes — and reports `true`. A string whose UTF-8 form
    /// cannot carry its length in an `i32` varint is refused with `false`,
    /// leaving the stream as it was.
    pub fn write_string(&mut self, value: &str) -> (r: bool)
        requires
            old(self).wf(),
        ensures
            final(self).wf(),
            r == (encode_utf8(value@).len() < 0x8000_0000),
            r ==> final(self).data() == old(self).data() + string_encoding(value@)
                && final(self).pos() == old(self).pos() + string_encoding(value@).len(),
            !r ==> final(self).data() == old(self).data() && final(self).pos() == old(
                self,
            ).pos(),
    {
        let bytes = value.as_bytes_vec();
        if bytes.len() > 0x7FFF_FFFF {
            return false;
        }
        let n: i32 = bytes.len() as i32;
        self.write_varint(n);
        self.write(&bytes);
        proof {
            assert((old(self).data() + varint_groups((n as u32) as nat)) + bytes@ =~= old(
                self,
            ).data() + string_encoding(value@));
        }
        true
    }

    /// Appends `value` as a little-endian `u64`.
    pub fn write_ulong(&mut self, value: u64)
        requires
            old(self).wf(),
        ensures
            final(self).wf(),
            final(self).data() == old(self).data() + le_bytes(value as nat, 8),
            final(self).pos() == old(self).pos() + 8,
    {
        self.write_le(value, 8);
    }
}

} // verus!
