//! A growable, consumable byte container. Reads consume from the front
//! through an explicit cursor over a contiguous backing store, writes append
//! at the tail, and a prepend operation inserts at the head (used to stamp a
//! frame's length prefix once its body is known). Every read is atomic: when
//! it fails, the unread contents are exactly what they were before the call,
//! so a short read leaves the buffer reusable once more data arrives.

use vstd::arithmetic::mul::lemma_mul_inequality;
use vstd::prelude::*;
use vstd::utf8::decode_utf8;
use vstd::utf8::encode_utf8;
use vstd::utf8::valid_utf8;

use crate::varint::le_base128;
use crate::varint::lemma_le_base128_bound;
use crate::varint::lemma_le_base128_take;
use crate::varint::lemma_vi_cases;
use crate::varint::lemma_vi_scan_eq;
use crate::varint::lemma_vi_scan_ge;
use crate::varint::lemma_vi_scan_le;
use crate::varint::p128;
use crate::varint::spec_var_int;
use crate::varint::u_of_i32;
use crate::varint::vi_encode_nat;
use crate::varint::vi_incomplete;
use crate::varint::vi_nbytes;
use crate::varint::vi_ok;
use crate::varint::vi_too_long;
use crate::varint::vi_value;

verus! {

/// The ways a buffer operation can fail.
#[derive(Debug, Clone, Copy, PartialEq, Eq, Structural)]
pub enum BufferError {
    /// A read asked for more bytes than remain unread.
    OutOfBounds { want: usize, remaining: usize },
    /// A VarInt ran past the width of a 32-bit value.
    InvalidVarIntSize { position: usize, limit: usize },
    /// A string carried a negative length prefix.
    InvalidStringLength(i32),
    /// A string's bytes are not valid UTF-8.
    InvalidUTF8String,
}

pub type BufferResult<T> = Result<T, BufferError>;

/// 256 raised to the power `k`.
pub open spec fn p256(k: nat) -> int
    decreases k,
{
    if k == 0 {
        1
    } else {
        0x100 * p256((k - 1) as nat)
    }
}

pub proof fn lemma_p256_vals()
    ensures
        p256(0) == 1,
        p256(1) == 0x100,
        p256(2) == 0x1_0000,
        p256(3) == 0x100_0000,
        p256(4) == 0x1_0000_0000,
        p256(5) == 0x100_0000_0000,
        p256(6) == 0x1_0000_0000_0000,
        p256(7) == 0x100_0000_0000_0000,
        p256(8) == 0x1_0000_0000_0000_0000,
{
    assert(p256(0) == 1);
    assert(p256(1) == 0x100);
    assert(p256(2) == 0x1_0000);
    assert(p256(3) == 0x100_0000);
    assert(p256(4) == 0x1_0000_0000);
    assert(p256(5) == 0x100_0000_0000);
    assert(p256(6) == 0x1_0000_0000_0000);
    assert(p256(7) == 0x100_0000_0000_0000);
}

pub proof fn lemma_p128_vals()
    ensures
        p128(0) == 1,
        p128(1) == 0x80,
        p128(2) == 0x4000,
        p128(3) == 0x20_0000,
        p128(4) == 0x1000_0000,
        p128(5) == 0x8_0000_0000,
{
    assert(p128(0) == 1);
    assert(p128(1) == 0x80);
    assert(p128(2) == 0x4000);
    assert(p128(3) == 0x20_0000);
    assert(p128(4) == 0x1000_0000);
}

/// Big-endian value of a byte sequence.
pub open spec fn be_bytes(s: Seq<u8>) -> int
    decreases s.len(),
{
    if s.len() == 0 {
        0
    } else {
        0x100 * be_bytes(s.take(s.len() - 1)) + s[s.len() - 1]
    }
}

pub proof fn lemma_be_bytes_bound(s: Seq<u8>)
    ensures
        0 <= be_bytes(s) < p256(s.len()),
    decreases s.len(),
{
    if s.len() != 0 {
        lemma_be_bytes_bound(s.take(s.len() - 1));
    }
}

/// Big-endian value of the first two unread bytes.
pub open spec fn be16(s: Seq<u8>) -> int {
    s[0] * 0x100 + s[1]
}

/// Two's-complement reading of an unsigned 64-bit quantity.
pub open spec fn as_i64(m: int) -> int {
    let r = m % 0x1_0000_0000_0000_0000;
    if r < 0x8000_0000_0000_0000 {
        r
    } else {
        r - 0x1_0000_0000_0000_0000
    }
}

/// The unsigned 64-bit quantity with the same bit pattern as the signed
/// value `v`.
pub open spec fn u_of_i64(v: int) -> int {
    if v >= 0 {
        v
    } else {
        v + 0x1_0000_0000_0000_0000
    }
}

/// Big-endian encoding of `u` into `k` bytes.
pub open spec fn be_enc(u: int, k: nat) -> Seq<u8>
    decreases k,
{
    if k == 0 {
        Seq::empty()
    } else {
        be_enc(u / 0x100, (k - 1) as nat).push((u % 0x100) as u8)
    }
}

/// The eight bytes `write_i64` appends for `v`.
pub open spec fn spec_i64_bytes(v: i64) -> Seq<u8> {
    be_enc(u_of_i64(v as int), 8)
}

/// The two bytes `write_u16` appends for `v`.
pub open spec fn spec_u16_bytes(v: u16) -> Seq<u8> {
    seq![(v / 0x100) as u8, (v % 0x100) as u8]
}

/// The bytes `write_string` appends for a string with the characters `cs`:
/// a VarInt byte-length prefix followed by the UTF-8 encoding.
pub open spec fn spec_string(cs: Seq<char>) -> Seq<u8> {
    spec_var_int(encode_utf8(cs).len() as i32) + encode_utf8(cs)
}

/// A non-negative VarInt length prefix stands at the front of `s`.
pub open spec fn string_length_ok(s: Seq<u8>) -> bool {
    vi_ok(s) && vi_value(s) >= 0
}

/// The full string payload announced by the length prefix has arrived.
pub open spec fn string_available(s: Seq<u8>) -> bool {
    string_length_ok(s) && vi_value(s) <= s.len() - vi_nbytes(s)
}

/// The payload bytes of the string at the front of `s`.
pub open spec fn string_payload(s: Seq<u8>) -> Seq<u8> {
    s.skip(vi_nbytes(s)).take(vi_value(s))
}

/// The error a VarInt decode of `s` reports when no complete VarInt is
/// present.
pub open spec fn vi_err(s: Seq<u8>) -> BufferError {
    if vi_too_long(s) {
        BufferError::InvalidVarIntSize { position: 35, limit: 32 }
    } else {
        BufferError::OutOfBounds { want: 1, remaining: 0 }
    }
}

/// A complete, valid length-prefixed UTF-8 string stands at the front of `s`.
pub open spec fn string_decodes(s: Seq<u8>) -> bool {
    string_available(s) && valid_utf8(string_payload(s))
}

/// Bytes a successful string decode consumes.
pub open spec fn string_used(s: Seq<u8>) -> int {
    vi_nbytes(s) + vi_value(s)
}

/// Characters of the string at the front of `s`.
pub open spec fn string_chars(s: Seq<u8>) -> Seq<char> {
    decode_utf8(string_payload(s))
}

/// The error a string decode of `s` reports when `!string_decodes(s)`.
pub open spec fn string_err(s: Seq<u8>) -> BufferError {
    if !vi_ok(s) {
        vi_err(s)
    } else if vi_value(s) < 0 {
        BufferError::InvalidStringLength(vi_value(s) as i32)
    } else if !string_available(s) {
        BufferError::OutOfBounds {
            want: vi_value(s) as usize,
            remaining: (s.len() - vi_nbytes(s)) as usize,
        }
    } else {
        BufferError::InvalidUTF8String
    }
}

/// Relies on `String::from_utf8`: it succeeds exactly on UTF-8 input, and the
/// returned string holds the input bytes, so its characters are their UTF-8
/// decoding, which vstd models as `decode_utf8`.
#[verifier::external_body]
fn bytes_to_string(bytes: Vec<u8>) -> (r: Option<String>)
    ensures
        r is Some <==> valid_utf8(bytes@),
        r matches Some(s) ==> s@ == decode_utf8(bytes@),
{
    match String::from_utf8(bytes) {
        Ok(s) => Some(s),
        Err(_) => None,
    }
}

/// A consumable byte buffer. Its abstract value is the sequence of unread
/// bytes: reads shorten it from the front, writes lengthen it at the back.
pub struct Buffer {
    data: Vec<u8>,
    pos: usize,
}

impl View for Buffer {
    type V = Seq<u8>;

    closed spec fn view(&self) -> Seq<u8> {
        self.data@.skip(self.pos as int)
    }
}

impl Buffer {
    /// Well-formed: the read cursor never runs past the backing store.
    /// Every constructor establishes it and every method preserves it.
    pub closed spec fn wf(&self) -> bool {
        self.pos <= self.data.len()
    }

    /// An empty buffer.
    pub fn new() -> (b: Buffer)
        ensures
            b.wf(),
            b@ == Seq::<u8>::empty(),
    {
        Buffer { data: Vec::new(), pos: 0 }
    }

    /// A buffer whose unread contents are exactly `v`.
    pub fn from_vec(v: Vec<u8>) -> (b: Buffer)
        ensures
            b.wf(),
            b@ == v@,
    {
        Buffer { data: v, pos: 0 }
    }

    /// Count of unread bytes.
    pub fn remaining(&self) -> (n: usize)
        requires
            self.wf(),
        ensures
            n == self@.len(),
    {
        self.data.len() - self.pos
    }

    /// Append one byte at the tail.
    pub fn push_byte(&mut self, byte: u8)
        requires
            old(self).wf(),
        ensures
            final(self).wf(),
            final(self)@ == old(self)@.push(byte),
    {
        self.data.push(byte);
    }

    /// Append a run of bytes at the tail.
    pub fn push_slice(&mut self, slice: &[u8])
        requires
            old(self).wf(),
        ensures
            final(self).wf(),
            final(self)@ == old(self)@ + slice@,
    {
        self.data.extend_from_slice(slice);
    }

    /// Insert a run of bytes at the head, in front of every unread byte.
    pub fn prepend_slice(&mut self, slice: &[u8])
        requires
            old(self).wf(),
        ensures
            final(self).wf(),
            final(self)@ == slice@ + old(self)@,
    {
        let mut v: Vec<u8> = Vec::new();
        v.extend_from_slice(slice);
        let n: usize = self.data.len();
        let tail: &[u8] = &self.data.as_slice()[self.pos..n];
        v.extend_from_slice(tail);
        self.pos = 0;
        self.data = v;
    }

    /// Move the unread contents of `buf` in front of this buffer's unread
    /// contents, leaving `buf` empty.
    pub fn prepend_buffer(&mut self, buf: &mut Buffer)
        requires
            old(self).wf(),
            old(buf).wf(),
        ensures
            final(self).wf(),
            final(buf).wf(),
            final(self)@ == old(buf)@ + old(self)@,
            final(buf)@ == Seq::<u8>::empty(),
    {
        let n: usize = buf.data.len();
        let head: &[u8] = &buf.data.as_slice()[buf.pos..n];
        self.prepend_slice(head);
        buf.pos = 0;
        buf.data.clear();
    }

    /// Succeeds exactly when `want` unread bytes are present.
    pub fn check_bytes(&self, want: usize) -> (r: BufferResult<()>)
        requires
            self.wf(),
        ensures
            r is Ok <==> want <= self@.len(),
            r matches Err(e) ==> e == (BufferError::OutOfBounds {
                want,
                remaining: self@.len() as usize,
            }),
    {
        let remaining: usize = self.data.len() - self.pos;
        if remaining < want {
            Err(BufferError::OutOfBounds { want, remaining })
        } else {
            Ok(())
        }
    }

    /// Consume and return the first unread byte.
    pub fn read_u8(&mut self) -> (r: BufferResult<u8>)
        requires
            old(self).wf(),
        ensures
            final(self).wf(),
            old(self)@.len() >= 1 ==> r == Ok::<u8, BufferError>(old(self)@[0]) && final(self)@
                == old(self)@.skip(1),
            old(self)@.len() == 0 ==> r == Err::<u8, BufferError>(
                (BufferError::OutOfBounds { want: 1, remaining: 0 }),
            ) && final(self)@ == old(self)@,
    {
        if self.pos < self.data.len() {
            let b: u8 = self.data[self.pos];
            self.pos = self.pos + 1;
            Ok(b)
        } else {
            Err(BufferError::OutOfBounds { want: 1, remaining: 0 })
        }
    }

    /// Append one byte at the tail.
    pub fn write_u8(&mut self, value: u8)
        requires
            old(self).wf(),
        ensures
            final(self).wf(),
            final(self)@ == old(self)@.push(value),
    {
        self.push_byte(value);
    }

    /// Decode the VarInt at the front without consuming anything; on success
    /// the result carries the value and the number of bytes it occupies.
    pub fn peek_var_int(&self) -> (r: BufferResult<(i32, usize)>)
        requires
            self.wf(),
        ensures
            vi_ok(self@) ==> (r matches Ok(p) && p.0 as int == vi_value(self@) && p.1
                == vi_nbytes(self@)),
            vi_too_long(self@) ==> r == Err::<(i32, usize), BufferError>(
                (BufferError::InvalidVarIntSize { position: 35, limit: 32 }),
            ),
            vi_incomplete(self@) ==> r == Err::<(i32, usize), BufferError>(
                (BufferError::OutOfBounds { want: 1, remaining: 0 }),
            ),
            r is Ok <==> vi_ok(self@),
            r matches Ok(p) ==> 1 <= p.1 <= 5 && p.1 <= self@.len(),
    {
        proof {
            lemma_vi_cases(self@);
        }
        let ghost s = self@;
        let rem: usize = self.data.len() - self.pos;
        let mut k: usize = 0;
        let mut acc: u64 = 0;
        let mut mult: u64 = 1;
        proof {
            assert(s.take(0) =~= Seq::<u8>::empty());
            lemma_p128_vals();
        }
        loop
            invariant
                s == self@,
                self.pos <= self.data.len(),
                rem == self.data@.len() - self.pos,
                k <= 4,
                k <= rem,
                forall|j: int| 0 <= j < k ==> s[j] >= 0x80,
                acc == le_base128(s.take(k as int)),
                mult == p128(k as nat),
                mult <= 0x1000_0000,
            decreases 5 - k,
        {
            proof {
                lemma_vi_cases(s);
                lemma_le_base128_bound(s.take(k as int));
                lemma_p128_vals();
            }
            if k >= rem {
                proof {
                    lemma_vi_scan_ge(s, k as int);
                    lemma_vi_scan_le(s);
                }
                return Err(BufferError::OutOfBounds { want: 1, remaining: 0 });
            }
            let b: u8 = self.data[self.pos + k];
            proof {
                assert(s[k as int] == self.data@[self.pos + k as int]);
            }
            let group: u8 = b % 0x80;
            proof {
                lemma_le_base128_take(s, k as int);
                lemma_mul_inequality(group as int, 0x7f, mult as int);
                assert(group as int * mult as int == p128(k as nat) * ((s[k as int] % 0x80) as int))
                    by (nonlinear_arith)
                    requires
                        group as int == (s[k as int] % 0x80) as int,
                        mult as int == p128(k as nat),
                ;
            }
            let acc2: u64 = acc + (group as u64) * mult;
            proof {
                assert(acc2 == le_base128(s.take(k as int + 1)));
            }
            if b < 0x80 {
                proof {
                    lemma_vi_scan_eq(s, k as int);
                }
                let ghost m = le_base128(s.take(k as int + 1));
                let low: u64 = acc2 % 0x1_0000_0000u64;
                proof {
                    assert(low == m % 0x1_0000_0000);
                }
                let v: i32 = if low < 0x8000_0000u64 {
                    low as i32
                } else {
                    ((low as i64) - 0x1_0000_0000i64) as i32
                };
                return Ok((v, k + 1));
            }
            if k == 4 {
                proof {
                    lemma_vi_scan_ge(s, 5);
                }
                return Err(BufferError::InvalidVarIntSize { position: 35, limit: 32 });
            }
            k = k + 1;
            acc = acc2;
            mult = mult * 0x80;
        }
    }

    /// Decode and consume the VarInt at the front. On failure nothing is
    /// consumed.
    pub fn read_var_int(&mut self) -> (r: BufferResult<i32>)
        requires
            old(self).wf(),
        ensures
            final(self).wf(),
            vi_ok(old(self)@) ==> (r matches Ok(v) && v as int == vi_value(old(self)@) && final(self)@ == old(self)@.skip(vi_nbytes(old(self)@))),
            vi_too_long(old(self)@) ==> r == Err::<i32, BufferError>(
                (BufferError::InvalidVarIntSize { position: 35, limit: 32 }),
            ) && final(self)@ == old(self)@,
            vi_incomplete(old(self)@) ==> r == Err::<i32, BufferError>(
                (BufferError::OutOfBounds { want: 1, remaining: 0 }),
            ) && final(self)@ == old(self)@,
            r is Ok <==> vi_ok(old(self)@),
    {
        proof {
            lemma_vi_cases(old(self)@);
        }
        match self.peek_var_int() {
            Ok((v, n)) => {
                self.pos = self.pos + n;
                Ok(v)
            },
            Err(e) => Err(e),
        }
    }

    /// Append the VarInt encoding of `value` at the tail.
    pub fn write_var_int(&mut self, value: i32)
        requires
            old(self).wf(),
        ensures
            final(self).wf(),
            final(self)@ == old(self)@ + spec_var_int(value),
    {
        let mut u: u32 = if value >= 0 {
            value as u32
        } else {
            ((value as i64) + 0x1_0000_0000i64) as u32
        };
        proof {
            assert(u as int == u_of_i32(value as int));
            assert(vi_encode_nat(u as nat) == spec_var_int(value));
        }
        loop
            invariant_except_break
                self@ + vi_encode_nat(u as nat) == old(self)@ + spec_var_int(value),
            invariant
                self.pos <= self.data.len(),
            ensures
                self.pos <= self.data.len(),
                self@ == old(self)@ + spec_var_int(value),
            decreases u,
        {
            let group: u8 = (u % 0x80) as u8;
            let next: u32 = u / 0x80;
            if next != 0 {
                let ghost before = self@;
                self.data.push(group + 0x80);
                proof {
                    assert(self@ =~= before.push((group + 0x80) as u8));
                    assert(vi_encode_nat(u as nat) =~= seq![(group + 0x80) as u8] + vi_encode_nat(
                        next as nat,
                    ));
                    assert(self@ + vi_encode_nat(next as nat) =~= before + vi_encode_nat(u as nat));
                }
            } else {
                let ghost before = self@;
                self.data.push(group);
                proof {
                    assert(self@ =~= before.push(group));
                    assert(vi_encode_nat(u as nat) =~= seq![group]);
                    assert(self@ =~= before + vi_encode_nat(u as nat));
                }
                break ;
            }
            u = next;
        }
    }

    /// Consume exactly `length` bytes and return them. On failure nothing is
    /// consumed.
    pub fn read_bytes(&mut self, length: usize) -> (r: BufferResult<Vec<u8>>)
        requires
            old(self).wf(),
        ensures
            final(self).wf(),
            length <= old(self)@.len() ==> (r matches Ok(v) && v@ == old(self)@.take(length as int)
                && final(self)@ == old(self)@.skip(length as int)),
            length > old(self)@.len() ==> (r matches Err(e) && e == (BufferError::OutOfBounds {
                want: length,
                remaining: (old(self)@.len() as usize),
            }) && final(self)@ == old(self)@),
    {
        let ghost s = self@;
        let remaining: usize = self.data.len() - self.pos;
        if remaining < length {
            return Err(BufferError::OutOfBounds { want: length, remaining });
        }
        let mut out: Vec<u8> = Vec::new();
        let mut i: usize = 0;
        proof {
            assert(s.take(0) =~= Seq::<u8>::empty());
        }
        while i < length
            invariant
                s == self@,
                self.pos <= self.data.len(),
                i <= length,
                length <= self.data@.len() - self.pos,
                out@ == s.take(i as int),
            decreases length - i,
        {
            out.push(self.data[self.pos + i]);
            proof {
                assert(s[i as int] == self.data@[self.pos + i as int]);
                assert(out@ =~= s.take(i as int + 1));
            }
            i = i + 1;
        }
        self.pos = self.pos + length;
        Ok(out)
    }

    /// Fill `into`, replacing its contents with as many bytes as it held,
    /// consumed from the front. On failure neither buffer changes.
    pub fn read_bytes_into(&mut self, into: &mut Vec<u8>) -> (r: BufferResult<()>)
        requires
            old(self).wf(),
        ensures
            final(self).wf(),
            old(into)@.len() <= old(self)@.len() ==> r == Ok::<(), BufferError>(()) && final(into)@
                == old(self)@.take(old(into)@.len() as int) && final(self)@ == old(self)@.skip(
                old(into)@.len() as int,
            ),
            old(into)@.len() > old(self)@.len() ==> (r matches Err(e) && e
                == (BufferError::OutOfBounds {
                want: (old(into)@.len() as usize),
                remaining: (old(self)@.len() as usize),
            }) && final(into)@ == old(into)@ && final(self)@ == old(self)@),
    {
        let n: usize = into.len();
        match self.read_bytes(n) {
            Ok(v) => {
                *into = v;
                Ok(())
            },
            Err(e) => Err(e),
        }
    }

    /// Consume exactly `length` bytes into a new buffer of its own, so a
    /// frame's payload can be parsed independently of this stream. On failure
    /// nothing is consumed.
    pub fn read_buffer(&mut self, length: usize) -> (r: BufferResult<Buffer>)
        requires
            old(self).wf(),
        ensures
            final(self).wf(),
            r matches Ok(b) ==> b.wf(),
            length <= old(self)@.len() ==> (r matches Ok(b) && b@ == old(self)@.take(length as int)
                && final(self)@ == old(self)@.skip(length as int)),
            length > old(self)@.len() ==> (r matches Err(e) && e == (BufferError::OutOfBounds {
                want: length,
                remaining: (old(self)@.len() as usize),
            }) && final(self)@ == old(self)@),
    {
        match self.read_bytes(length) {
            Ok(v) => Ok(Buffer::from_vec(v)),
            Err(e) => Err(e),
        }
    }

    /// Consume a length-prefixed UTF-8 string: a VarInt byte count, which
    /// must be non-negative, followed by that many bytes. On any failure
    /// nothing is consumed.
    pub fn read_string(&mut self) -> (r: BufferResult<String>)
        requires
            old(self).wf(),
        ensures
            final(self).wf(),
            r is Ok <==> string_decodes(old(self)@),
            vi_too_long(old(self)@) ==> r == Err::<String, BufferError>(
                (BufferError::InvalidVarIntSize { position: 35, limit: 32 }),
            ) && final(self)@ == old(self)@,
            vi_incomplete(old(self)@) ==> r == Err::<String, BufferError>(
                (BufferError::OutOfBounds { want: 1, remaining: 0 }),
            ) && final(self)@ == old(self)@,
            vi_ok(old(self)@) && vi_value(old(self)@) < 0 ==> (r matches Err(e) && e
                == (BufferError::InvalidStringLength((vi_value(old(self)@) as i32))) && final(self)@ == old(self)@),
            string_length_ok(old(self)@) && !string_available(old(self)@) ==> (r matches Err(e)
                && e == (BufferError::OutOfBounds {
                want: (vi_value(old(self)@) as usize),
                remaining: ((old(self)@.len() - vi_nbytes(old(self)@)) as usize),
            }) && final(self)@ == old(self)@),
            string_available(old(self)@) && valid_utf8(string_payload(old(self)@)) ==> (r matches
            Ok(st) && st@ == decode_utf8(string_payload(old(self)@)) && final(self)@ == old(
                self,
            )@.skip(vi_nbytes(old(self)@) + vi_value(old(self)@))),
            string_available(old(self)@) && !valid_utf8(string_payload(old(self)@)) ==> r == Err::<
                String,
                BufferError,
            >(BufferError::InvalidUTF8String) && final(self)@ == old(self)@,
    {
        proof {
            lemma_vi_cases(self@);
        }
        let ghost s = self@;
        let (length, n): (i32, usize) = match self.peek_var_int() {
            Ok(p) => p,
            Err(e) => {
                return Err(e);
            },
        };
        if length < 0 {
            return Err(BufferError::InvalidStringLength(length));
        }
        let len_us: usize = length as usize;
        let rem_after: usize = self.data.len() - self.pos - n;
        if rem_after < len_us {
            return Err(BufferError::OutOfBounds { want: len_us, remaining: rem_after });
        }
        let mut bytes: Vec<u8> = Vec::new();
        let mut i: usize = 0;
        proof {
            assert(s.skip(n as int).take(0) =~= Seq::<u8>::empty());
        }
        while i < len_us
            invariant
                s == self@,
                self.pos <= self.data.len(),
                n + len_us <= self.data@.len() - self.pos,
                i <= len_us,
                bytes@ == s.skip(n as int).take(i as int),
            decreases len_us - i,
        {
            bytes.push(self.data[self.pos + n + i]);
            proof {
                assert(s[n + i as int] == self.data@[self.pos + n + i as int]);
                assert(s.skip(n as int)[i as int] == s[n + i as int]);
                assert(bytes@ =~= s.skip(n as int).take(i as int + 1));
            }
            i = i + 1;
        }
        proof {
            assert(bytes@ == string_payload(s));
        }
        match bytes_to_string(bytes) {
            Some(st) => {
                self.pos = self.pos + n + len_us;
                proof {
                    assert(self@ =~= s.skip(vi_nbytes(s) + vi_value(s)));
                }
                Ok(st)
            },
            None => Err(BufferError::InvalidUTF8String),
        }
    }

    /// Append a VarInt byte-length prefix and the string's UTF-8 bytes.
    pub fn write_string(&mut self, string: &str)
        requires
            old(self).wf(),
            encode_utf8(string@).len() <= 0x7fff_ffff,
        ensures
            final(self).wf(),
            final(self)@ == old(self)@ + spec_string(string@),
    {
        let bytes: &[u8] = string.as_bytes();
        let len: i32 = bytes.len() as i32;
        self.write_var_int(len);
        self.push_slice(bytes);
    }

    /// Consume two bytes as a big-endian unsigned 16-bit value. On failure
    /// nothing is consumed.
    pub fn read_u16(&mut self) -> (r: BufferResult<u16>)
        requires
            old(self).wf(),
        ensures
            final(self).wf(),
            old(self)@.len() >= 2 ==> (r matches Ok(v) && v as int == be16(old(self)@) && final(self)@ == old(self)@.skip(2)),
            old(self)@.len() < 2 ==> (r matches Err(e) && e == (BufferError::OutOfBounds {
                want: 2,
                remaining: (old(self)@.len() as usize),
            }) && final(self)@ == old(self)@),
    {
        let remaining: usize = self.data.len() - self.pos;
        if remaining < 2 {
            return Err(BufferError::OutOfBounds { want: 2, remaining });
        }
        let b0: u8 = self.data[self.pos];
        let b1: u8 = self.data[self.pos + 1];
        self.pos = self.pos + 2;
        Ok((b0 as u16) * 0x100 + (b1 as u16))
    }

    /// Append a big-endian unsigned 16-bit value.
    pub fn write_u16(&mut self, value: u16)
        requires
            old(self).wf(),
        ensures
            final(self).wf(),
            final(self)@ == old(self)@ + spec_u16_bytes(value),
    {
        self.push_byte((value / 0x100) as u8);
        self.push_byte((value % 0x100) as u8);
    }

    /// Consume eight bytes as a big-endian signed 64-bit value. On failure
    /// nothing is consumed.
    pub fn read_i64(&mut self) -> (r: BufferResult<i64>)
        requires
            old(self).wf(),
        ensures
            final(self).wf(),
            old(self)@.len() >= 8 ==> (r matches Ok(v) && v as int == as_i64(
                be_bytes(old(self)@.take(8)),
            ) && final(self)@ == old(self)@.skip(8)),
            old(self)@.len() < 8 ==> (r matches Err(e) && e == (BufferError::OutOfBounds {
                want: 8,
                remaining: (old(self)@.len() as usize),
            }) && final(self)@ == old(self)@),
    {
        let ghost s = self@;
        let remaining: usize = self.data.len() - self.pos;
        if remaining < 8 {
            return Err(BufferError::OutOfBounds { want: 8, remaining });
        }
        let mut acc: u64 = 0;
        let mut i: usize = 0;
        proof {
            assert(s.take(0) =~= Seq::<u8>::empty());
            lemma_p256_vals();
        }
        while i < 8
            invariant
                s == self@,
                self.pos <= self.data.len(),
                8 <= self.data@.len() - self.pos,
                i <= 8,
                acc == be_bytes(s.take(i as int)),
            decreases 8 - i,
        {
            proof {
                lemma_be_bytes_bound(s.take(i as int));
                lemma_p256_vals();
                assert(p256(i as nat) <= p256(7)) by {
                    lemma_p256_monotone(i as nat, 7);
                }
                assert(s[i as int] == self.data@[self.pos + i as int]);
            }
            let b: u8 = self.data[self.pos + i];
            acc = acc * 0x100 + (b as u64);
            proof {
                assert(s.take(i as int + 1).take(i as int) =~= s.take(i as int));
                assert(s.take(i as int + 1)[i as int] == s[i as int]);
            }
            i = i + 1;
        }
        self.pos = self.pos + 8;
        let v: i64 = if acc < 0x8000_0000_0000_0000u64 {
            acc as i64
        } else {
            ((acc as i128) - 0x1_0000_0000_0000_0000i128) as i64
        };
        proof {
            lemma_be_bytes_bound(s.take(8));
            lemma_p256_vals();
        }
        Ok(v)
    }

    /// Append a big-endian signed 64-bit value.
    pub fn write_i64(&mut self, value: i64)
        requires
            old(self).wf(),
        ensures
            final(self).wf(),
            final(self)@ == old(self)@ + spec_i64_bytes(value),
    {
        proof {
            lemma_p256_vals();
        }
        let u: u64 = if value >= 0 {
            value as u64
        } else {
            ((value as i128) + 0x1_0000_0000_0000_0000i128) as u64
        };
        proof {
            assert(u as int == u_of_i64(value as int));
        }
        let mut divisor: u64 = 0x100_0000_0000_0000;
        let mut i: usize = 0;
        proof {
            assert(be_enc(u as int / p256(8), 0) =~= Seq::<u8>::empty());
            assert(self@ + be_enc(u as int / p256(8), 0) =~= self@);
        }
        while i < 8
            invariant
                self.pos <= self.data.len(),
                i <= 8,
                u as int == u_of_i64(value as int),
                i < 8 ==> divisor as int == p256((7 - i) as nat),
                self@ == old(self)@ + be_enc(u as int / p256((8 - i) as nat), i as nat),
            decreases 8 - i,
        {
            proof {
                lemma_p256_vals();
                lemma_p256_pos((7 - i) as nat);
            }
            let byte: u8 = ((u / divisor) % 0x100) as u8;
            let ghost before = self@;
            self.data.push(byte);
            proof {
                let w = u as int / p256((7 - i) as nat);
                assert((u as int / p256((7 - i) as nat)) / 0x100 == u as int / p256(
                    (8 - i) as nat,
                )) by {
                    vstd::arithmetic::div_mod::lemma_div_denominator(
                        u as int,
                        p256((7 - i) as nat),
                        0x100,
                    );
                    assert(p256((7 - i) as nat) * 0x100 == p256((8 - i) as nat)) by {
                        vstd::arithmetic::mul::lemma_mul_is_commutative(
                            p256((7 - i) as nat),
                            0x100,
                        );
                    }
                }
                assert(byte as int == w % 0x100);
                assert(be_enc(w, (i + 1) as nat) =~= be_enc(u as int / p256((8 - i) as nat), i as nat).push(
                    byte,
                ));
                assert(self@ =~= before.push(byte));
                assert(self@ =~= old(self)@ + be_enc(w, (i + 1) as nat));
            }
            if i < 7 {
                divisor = divisor / 0x100;
                proof {
                    lemma_p256_vals();
                }
            }
            i = i + 1;
        }
        proof {
            assert(u as int / p256(0) == u as int);
            assert(spec_i64_bytes(value) == be_enc(u as int, 8));
        }
    }

    /// Consume two bytes as a big-endian unsigned 16-bit value. On failure
    /// nothing is consumed.
    pub fn read_ushort(&mut self) -> (r: BufferResult<u16>)
        requires
            old(self).wf(),
        ensures
            final(self).wf(),
            old(self)@.len() >= 2 ==> (r matches Ok(v) && v as int == be16(old(self)@) && final(self)@ == old(self)@.skip(2)),
            old(self)@.len() < 2 ==> (r matches Err(e) && e == (BufferError::OutOfBounds {
                want: 2,
                remaining: (old(self)@.len() as usize),
            }) && final(self)@ == old(self)@),
    {
        self.read_u16()
    }
}

pub proof fn lemma_p256_pos(k: nat)
    ensures
        p256(k) >= 1,
    decreases k,
{
    if k > 0 {
        lemma_p256_pos((k - 1) as nat);
    }
}

pub proof fn lemma_p256_monotone(j: nat, k: nat)
    requires
        j <= k,
    ensures
        p256(j) <= p256(k),
    decreases k,
{
    if j < k {
        lemma_p256_monotone(j, (k - 1) as nat);
        lemma_p256_pos((k - 1) as nat);
    }
}

} // verus!
