//! The variable-length integer encoding used throughout the wire protocol:
//! seven data bits per byte, least-significant group first, with the high bit
//! of every byte but the last set as a continuation marker. A value is a
//! signed 32-bit integer; a decoder rejects any sequence whose bit offset
//! would reach 32 before a terminating byte appears, so it reads at most five
//! bytes.

use vstd::arithmetic::mul::lemma_mul_is_distributive_add;
use vstd::arithmetic::mul::lemma_mul_is_associative;
use vstd::prelude::*;

verus! {

/// Value of a byte sequence read as little-endian base-128 groups: each byte
/// contributes its low seven bits, the continuation bit is ignored.
pub open spec fn le_base128(s: Seq<u8>) -> int
    decreases s.len(),
{
    if s.len() == 0 {
        0
    } else {
        (s[0] % 0x80) + 0x80 * le_base128(s.skip(1))
    }
}

/// Index of the first byte with the continuation bit clear, or `s.len()` when
/// every byte of `s` has it set.
pub open spec fn vi_scan(s: Seq<u8>) -> nat
    decreases s.len(),
{
    if s.len() == 0 {
        0
    } else if s[0] < 0x80 {
        0
    } else {
        1 + vi_scan(s.skip(1))
    }
}

/// A complete VarInt stands at the front of `s`: a terminating byte occurs
/// within the first five bytes.
pub open spec fn vi_ok(s: Seq<u8>) -> bool {
    vi_scan(s) < 5 && vi_scan(s) < s.len()
}

/// The first five bytes of `s` all carry the continuation bit, so a decoder
/// must reject the sequence as over-long.
pub open spec fn vi_too_long(s: Seq<u8>) -> bool {
    s.len() >= 5 && vi_scan(s) >= 5
}

/// `s` is a proper prefix of a VarInt: every byte so far carries the
/// continuation bit and fewer than five bytes have arrived.
pub open spec fn vi_incomplete(s: Seq<u8>) -> bool {
    s.len() < 5 && vi_scan(s) == s.len()
}

/// Number of bytes a successful decode of `s` consumes.
pub open spec fn vi_nbytes(s: Seq<u8>) -> int {
    vi_scan(s) as int + 1
}

/// Two's-complement reading of an unsigned 32-bit quantity.
pub open spec fn as_i32(m: int) -> int {
    let r = m % 0x1_0000_0000;
    if r < 0x8000_0000 {
        r
    } else {
        r - 0x1_0000_0000
    }
}

/// The unsigned 32-bit quantity with the same bit pattern as the signed
/// value `v`.
pub open spec fn u_of_i32(v: int) -> int {
    if v >= 0 {
        v
    } else {
        v + 0x1_0000_0000
    }
}

/// The value a successful decode of `s` returns.
pub open spec fn vi_value(s: Seq<u8>) -> int {
    as_i32(le_base128(s.take(vi_nbytes(s))))
}

/// 128 raised to the power `k`.
pub open spec fn p128(k: nat) -> int
    decreases k,
{
    if k == 0 {
        1
    } else {
        0x80 * p128((k - 1) as nat)
    }
}

/// Canonical encoding of an unsigned quantity, least-significant group first.
pub open spec fn vi_encode_nat(u: nat) -> Seq<u8>
    decreases u,
{
    if u < 0x80 {
        seq![u as u8]
    } else {
        seq![(u % 0x80 + 0x80) as u8] + vi_encode_nat((u / 0x80) as nat)
    }
}

/// The byte sequence that encoding the signed value `v` emits.
pub open spec fn spec_var_int(v: i32) -> Seq<u8> {
    vi_encode_nat(u_of_i32(v as int) as nat)
}

pub proof fn lemma_p128_pos(k: nat)
    ensures
        p128(k) >= 1,
    decreases k,
{
    if k > 0 {
        lemma_p128_pos((k - 1) as nat);
    }
}

/// The scan never runs past the end of the sequence.
pub proof fn lemma_vi_scan_le(s: Seq<u8>)
    ensures
        vi_scan(s) <= s.len(),
    decreases s.len(),
{
    if s.len() != 0 && s[0] >= 0x80 {
        lemma_vi_scan_le(s.skip(1));
    }
}

/// If the first `k` bytes all carry the continuation bit, the scan reaches
/// at least `k`.
pub proof fn lemma_vi_scan_ge(s: Seq<u8>, k: int)
    requires
        0 <= k <= s.len(),
        forall|j: int| 0 <= j < k ==> s[j] >= 0x80,
    ensures
        vi_scan(s) >= k,
    decreases k,
{
    if k > 0 {
        assert(s[0] >= 0x80);
        assert forall|j: int| 0 <= j < k - 1 implies s.skip(1)[j] >= 0x80 by {
            assert(s.skip(1)[j] == s[j + 1]);
        }
        lemma_vi_scan_ge(s.skip(1), k - 1);
    }
}

/// If byte `k` terminates and all bytes before it continue, the scan lands
/// exactly on `k`.
pub proof fn lemma_vi_scan_eq(s: Seq<u8>, k: int)
    requires
        0 <= k < s.len(),
        s[k] < 0x80,
        forall|j: int| 0 <= j < k ==> s[j] >= 0x80,
    ensures
        vi_scan(s) == k,
    decreases k,
{
    if k == 0 {
    } else {
        assert(s[0] >= 0x80);
        assert forall|j: int| 0 <= j < k - 1 implies s.skip(1)[j] >= 0x80 by {
            assert(s.skip(1)[j] == s[j + 1]);
        }
        assert(s.skip(1)[k - 1] == s[k]);
        lemma_vi_scan_eq(s.skip(1), k - 1);
    }
}

/// The byte the scan stops on terminates, and all bytes before it continue.
pub proof fn lemma_vi_scan_props(s: Seq<u8>)
    ensures
        vi_scan(s) <= s.len(),
        vi_scan(s) < s.len() ==> s[vi_scan(s) as int] < 0x80,
        forall|j: int| 0 <= j < vi_scan(s) ==> s[j] >= 0x80,
    decreases s.len(),
{
    lemma_vi_scan_le(s);
    if s.len() == 0 {
    } else if s[0] < 0x80 {
    } else {
        lemma_vi_scan_props(s.skip(1));
        let k = vi_scan(s) as int;
        if vi_scan(s) < s.len() {
            assert(s.skip(1)[k - 1] == s[k]);
        }
        assert forall|j: int| 0 <= j < k implies s[j] >= 0x80 by {
            if j > 0 {
                assert(s.skip(1)[j - 1] == s[j]);
            }
        }
    }
}

/// Every byte sequence falls in exactly one of the three decode outcomes.
pub proof fn lemma_vi_cases(s: Seq<u8>)
    ensures
        vi_ok(s) || vi_too_long(s) || vi_incomplete(s),
        vi_ok(s) ==> !vi_too_long(s) && !vi_incomplete(s),
        vi_too_long(s) ==> !vi_incomplete(s),
{
    lemma_vi_scan_le(s);
}

/// Adding a group at index `k` raises the base-128 value by that group times
/// the place value of `k`.
pub proof fn lemma_le_base128_take(s: Seq<u8>, k: int)
    requires
        0 <= k < s.len(),
    ensures
        le_base128(s.take(k + 1)) == le_base128(s.take(k)) + p128(k as nat) * (s[k] % 0x80),
    decreases k,
{
    if k == 0 {
        assert(s.take(1)[0] == s[0]);
        assert(s.take(1).skip(1) =~= Seq::<u8>::empty());
        assert(s.take(0) =~= Seq::<u8>::empty());
    } else {
        lemma_le_base128_take(s.skip(1), k - 1);
        let g = (s[k] % 0x80) as int;
        assert(s.take(k + 1).skip(1) =~= s.skip(1).take(k));
        assert(s.take(k).skip(1) =~= s.skip(1).take(k - 1));
        assert(s.take(k + 1)[0] == s[0]);
        assert(s.take(k)[0] == s[0]);
        assert(s.skip(1)[k - 1] == s[k]);
        assert(0x80 * (le_base128(s.skip(1).take(k - 1)) + p128((k - 1) as nat) * g) == 0x80
            * le_base128(s.skip(1).take(k - 1)) + 0x80 * (p128((k - 1) as nat) * g)) by {
            lemma_mul_is_distributive_add(
                0x80,
                le_base128(s.skip(1).take(k - 1)),
                p128((k - 1) as nat) * g,
            );
        }
        assert(0x80 * (p128((k - 1) as nat) * g) == (0x80 * p128((k - 1) as nat)) * g) by {
            lemma_mul_is_associative(0x80, p128((k - 1) as nat), g);
        }
    }
}

/// The base-128 value of `s` is bounded by the place value of its length.
pub proof fn lemma_le_base128_bound(s: Seq<u8>)
    ensures
        0 <= le_base128(s) < p128(s.len()),
    decreases s.len(),
{
    if s.len() == 0 {
    } else {
        lemma_le_base128_bound(s.skip(1));
        lemma_p128_pos((s.len() - 1) as nat);
        let rest = le_base128(s.skip(1));
        let p = p128((s.len() - 1) as nat);
        assert(0x80 * rest <= 0x80 * (p - 1)) by {
            lemma_mul_le_const(rest, p - 1);
        }
    }
}

proof fn lemma_mul_le_const(a: int, b: int)
    requires
        a <= b,
    ensures
        0x80 * a <= 0x80 * b,
{
}

/// The canonical encoding ends in a terminating byte, carries the
/// continuation bit everywhere else, and reads back as the encoded quantity.
pub proof fn lemma_vi_encode_props(u: nat)
    ensures
        vi_encode_nat(u).len() >= 1,
        le_base128(vi_encode_nat(u)) == u,
        vi_encode_nat(u)[vi_encode_nat(u).len() - 1] < 0x80,
        forall|j: int| 0 <= j < vi_encode_nat(u).len() - 1 ==> vi_encode_nat(u)[j] >= 0x80,
    decreases u,
{
    let e = vi_encode_nat(u);
    if u < 0x80 {
        assert(e[0] == u as u8);
        assert(e.skip(1) =~= Seq::<u8>::empty());
        assert((u as u8) as int == u as int);
        assert(le_base128(e) == ((u as u8) % 0x80) + 0x80 * le_base128(e.skip(1)));
        assert(((u as u8) % 0x80) as int == u as int);
    } else {
        let u2 = (u / 0x80) as nat;
        lemma_vi_encode_props(u2);
        let rest = vi_encode_nat(u2);
        let b = (u % 0x80 + 0x80) as u8;
        assert(e.skip(1) =~= rest);
        assert(e[0] == b);
        assert(le_base128(e) == (b % 0x80) + 0x80 * le_base128(rest));
        assert(b as int == u % 0x80 + 0x80);
        assert((b % 0x80) as int == u % 0x80);
        assert(u % 0x80 + 0x80 * (u / 0x80) == u) by {
            vstd::arithmetic::div_mod::lemma_fundamental_div_mod(u as int, 0x80);
        }
        assert(le_base128(e) == u);
        assert forall|j: int| 0 <= j < e.len() - 1 implies e[j] >= 0x80 by {
            if j > 0 {
                assert(e[j] == rest[j - 1]);
            }
        }
        assert(e[e.len() - 1] == rest[rest.len() - 1]);
    }
}

/// An unsigned quantity below 2^32 encodes in at most five bytes.
pub proof fn lemma_vi_encode_len(u: nat)
    requires
        u < 0x1_0000_0000,
    ensures
        vi_encode_nat(u).len() <= 5,
{
    if u >= 0x80 {
        let u1 = (u / 0x80) as nat;
        assert(u1 < 0x200_0000) by (nonlinear_arith)
            requires
                u < 0x1_0000_0000,
                u1 == u / 0x80,
        ;
        assert(vi_encode_nat(u).len() == 1 + vi_encode_nat(u1).len());
        if u1 >= 0x80 {
            let u2 = (u1 / 0x80) as nat;
            assert(u2 < 0x4_0000) by (nonlinear_arith)
                requires
                    u1 < 0x200_0000,
                    u2 == u1 / 0x80,
            ;
            assert(vi_encode_nat(u1).len() == 1 + vi_encode_nat(u2).len());
            if u2 >= 0x80 {
                let u3 = (u2 / 0x80) as nat;
                assert(u3 < 0x800) by (nonlinear_arith)
                    requires
                        u2 < 0x4_0000,
                        u3 == u2 / 0x80,
                ;
                assert(vi_encode_nat(u2).len() == 1 + vi_encode_nat(u3).len());
                if u3 >= 0x80 {
                    let u4 = (u3 / 0x80) as nat;
                    assert(u4 < 0x10) by (nonlinear_arith)
                        requires
                            u3 < 0x800,
                            u4 == u3 / 0x80,
                    ;
                    assert(vi_encode_nat(u3).len() == 1 + vi_encode_nat(u4).len());
                    assert(vi_encode_nat(u4).len() == 1);
                } else {
                    assert(vi_encode_nat(u3).len() == 1);
                }
            } else {
                assert(vi_encode_nat(u2).len() == 1);
            }
        } else {
            assert(vi_encode_nat(u1).len() == 1);
        }
    }
}

/// Law: decoding the encoding of any signed 32-bit value yields the value
/// back, consuming exactly the encoded bytes.
pub proof fn lemma_var_int_round_trip(v: i32)
    ensures
        vi_ok(spec_var_int(v)),
        vi_nbytes(spec_var_int(v)) == spec_var_int(v).len(),
        vi_value(spec_var_int(v)) == v,
        1 <= spec_var_int(v).len() <= 5,
{
    let u = u_of_i32(v as int) as nat;
    lemma_vi_encode_props(u);
    lemma_vi_encode_len(u);
    let e = spec_var_int(v);
    lemma_vi_scan_eq(e, e.len() - 1);
    assert(e.take(e.len() as int) =~= e);
    assert(le_base128(e) == u);
    if v as int >= 0 {
        assert(as_i32(u as int) == v as int);
    } else {
        assert(u as int == v as int + 0x1_0000_0000);
        assert(as_i32(u as int) == v as int);
    }
}

/// A complete VarInt at the front of `s` is unaffected by bytes appended
/// behind it.
pub proof fn lemma_vi_append(s: Seq<u8>, t: Seq<u8>)
    requires
        vi_ok(s),
    ensures
        vi_ok(s + t),
        vi_scan(s + t) == vi_scan(s),
        vi_nbytes(s + t) == vi_nbytes(s),
        vi_value(s + t) == vi_value(s),
    decreases 0nat,
{
    let k = vi_scan(s) as int;
    lemma_vi_scan_props(s);
    assert forall|j: int| 0 <= j < k implies (s + t)[j] >= 0x80 by {
        assert((s + t)[j] == s[j]);
    }
    assert((s + t)[k] == s[k]);
    lemma_vi_scan_eq(s + t, k);
    assert((s + t).take(k + 1) =~= s.take(k + 1));
}

/// Law: a sequence opening with five continuation-bit bytes is rejected as
/// over-long, whatever follows them.
pub proof fn lemma_var_int_overflow(s: Seq<u8>)
    requires
        s.len() >= 5,
        forall|j: int| 0 <= j < 5 ==> s[j] >= 0x80,
    ensures
        vi_too_long(s),
        !vi_ok(s),
{
    lemma_vi_scan_ge(s, 5);
}

/// Law: a sequence whose terminating byte arrives within the first five
/// bytes always decodes successfully.
pub proof fn lemma_var_int_terminated(s: Seq<u8>, k: int)
    requires
        0 <= k < s.len(),
        k <= 4,
        s[k] < 0x80,
        forall|j: int| 0 <= j < k ==> s[j] >= 0x80,
    ensures
        vi_ok(s),
        vi_nbytes(s) == k + 1,
{
    lemma_vi_scan_eq(s, k);
}

} // verus!
