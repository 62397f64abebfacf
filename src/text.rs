use vstd::prelude::*;
use vstd::slice::slice_subrange;
use vstd::string::StringSliceAdditionalSpecFns;
use vstd::arithmetic::div_mod::lemma_mod_breakdown;
use std::hash::BuildHasher;
use crate::error::ErrorKind;

verus! {

/// Lower-case hex digit for a value below 16.
pub open spec fn hex_digit(d: nat) -> u8 {
    if d < 10 {
        (48 + d) as u8
    } else {
        (87 + d) as u8
    }
}

/// The last `n` hex digits of `x`, most significant first.
pub open spec fn hex_fixed(x: nat, n: nat) -> Seq<u8>
    decreases n,
{
    if n == 0 {
        Seq::empty()
    } else {
        hex_fixed(x / 16, (n - 1) as nat).push(hex_digit(x % 16))
    }
}

/// An address as it is printed: `0x` and sixteen hex digits.
pub open spec fn addr_text(x: u64) -> Seq<u8> {
    seq![48u8, 120u8] + hex_fixed(x as nat, 16)
}

/// Decimal digits of `x`, without leading zeros.
pub open spec fn dec_digits(x: nat) -> Seq<u8>
    decreases x,
{
    if x < 10 {
        seq![(48 + x) as u8]
    } else {
        dec_digits(x / 10).push((48 + x % 10) as u8)
    }
}

pub open spec fn spaces(n: nat) -> Seq<u8> {
    Seq::new(n, |i: int| 32u8)
}

/// `s` right-aligned in a field of `width` bytes.
pub open spec fn pad_left(s: Seq<u8>, width: nat) -> Seq<u8> {
    if s.len() < width {
        spaces((width - s.len()) as nat) + s
    } else {
        s
    }
}

pub open spec fn is_hex_char(c: u8) -> bool {
    (48 <= c <= 57) || (97 <= c <= 102) || (65 <= c <= 70)
}

pub open spec fn hex_val(c: u8) -> nat {
    if c <= 57 {
        (c - 48) as nat
    } else if c <= 70 {
        (c - 55) as nat
    } else {
        (c - 87) as nat
    }
}

pub open spec fn all_hex(s: Seq<u8>) -> bool {
    forall|i: int| 0 <= i < s.len() ==> is_hex_char(s[i])
}

/// The number that the hex digits `s` spell, most significant first.
pub open spec fn hex_value(s: Seq<u8>) -> nat
    decreases s.len(),
{
    if s.len() == 0 {
        0
    } else {
        hex_value(s.drop_last()) * 16 + hex_val(s.last())
    }
}

/// Bytes decoded from pairs of hex digits.
pub open spec fn hex_pairs(s: Seq<u8>) -> Seq<u8> {
    Seq::new(s.len() / 2, |i: int| (hex_val(s[2 * i]) * 16 + hex_val(s[2 * i + 1])) as u8)
}

pub open spec fn is_dec_char(c: u8) -> bool {
    48 <= c <= 57
}

pub open spec fn dec_value(s: Seq<u8>) -> nat
    decreases s.len(),
{
    if s.len() == 0 {
        0
    } else {
        dec_value(s.drop_last()) * 10 + (s.last() - 48) as nat
    }
}

/// An unsigned decimal as std reads it: an optional `+`, then one or more
/// digits, with a value that fits in 64 bits.
pub open spec fn dec_parse(s: Seq<u8>) -> Option<u64> {
    let d = if s.len() > 0 && s[0] == 43 {
        s.drop_first()
    } else {
        s
    };
    if d.len() > 0 && (forall|i: int| 0 <= i < d.len() ==> is_dec_char(d[i])) && dec_value(d)
        <= u64::MAX {
        Some(dec_value(d) as u64)
    } else {
        None
    }
}

/// An address argument: `0x` and at most sixteen hex digits, in either
/// case; or else a decimal number.
pub open spec fn u64ptr_spec(b: Seq<u8>) -> Option<u64> {
    if b.len() >= 2 && b[0] == 48 && b[1] == 120 {
        let r = b.subrange(2, b.len() as int);
        if r.len() <= 16 && all_hex(r) {
            Some(hex_value(r) as u64)
        } else {
            None
        }
    } else {
        dec_parse(b)
    }
}

pub open spec fn pow16(n: nat) -> nat
    decreases n,
{
    if n == 0 {
        1
    } else {
        16 * pow16((n - 1) as nat)
    }
}

/// The eight bytes of `x`, least significant first.
pub open spec fn le_bytes(x: u64) -> Seq<u8> {
    Seq::new(8, |i: int| (x >> (8 * i) as u64) as u8)
}

/// Two lower-case hex digits per byte.
pub open spec fn hex_text(b: Seq<u8>) -> Seq<char>
    decreases b.len(),
{
    if b.len() == 0 {
        Seq::empty()
    } else {
        hex_text(b.drop_last()).push(hex_digit(b.last() as nat / 16) as char).push(
            hex_digit(b.last() as nat % 16) as char,
        )
    }
}

/// What std's default hasher, built with fixed keys, gives for these bytes.
pub uninterp spec fn default_hash(b: Seq<u8>) -> u64;

#[verifier::external_type_specification]
#[verifier::external_body]
pub struct ExDecodeError(data_encoding::DecodeError);

#[verifier::external_type_specification]
#[verifier::external_body]
pub struct ExParseIntError(core::num::ParseIntError);

/// Relies on `data_encoding::HEXLOWER_PERMISSIVE.decode`: hex digits of
/// either case, two per byte; an odd length or another character fails.
#[verifier::external_body]
fn hex_decode(s: &[u8]) -> (r: Result<Vec<u8>, data_encoding::DecodeError>)
    requires
        s@.len() <= usize::MAX / 8,
    ensures
        r is Ok <==> (s@.len() % 2 == 0 && all_hex(s@)),
        r matches Ok(v) ==> v@ == hex_pairs(s@),
{
    data_encoding::HEXLOWER_PERMISSIVE.decode(s)
}

/// Relies on `data_encoding::HEXLOWER.encode`: two lower-case hex digits per
/// byte.
#[verifier::external_body]
fn hex_encode(b: &[u8]) -> (r: String)
    ensures
        r@ == hex_text(b@),
{
    data_encoding::HEXLOWER.encode(b)
}

/// Relies on `<u64 as FromStr>::from_str`: an optional `+` and decimal
/// digits whose value fits.
#[verifier::external_body]
fn parse_decimal(s: &str) -> (r: Result<u64, core::num::ParseIntError>)
    ensures
        match r {
            Ok(v) => dec_parse(s.spec_bytes()) == Some(v),
            Err(_) => dec_parse(s.spec_bytes()) is None,
        },
{
    s.parse::<u64>()
}

/// Relies on `BuildHasher::hash_one` over std's `DefaultHasher` with its
/// fixed keys: the hash depends on the bytes alone.
#[verifier::external_body]
fn hash_bytes(b: &[u8]) -> (r: u64)
    ensures
        r == default_hash(b@),
{
    std::hash::BuildHasherDefault::<std::hash::DefaultHasher>::default().hash_one(b)
}

/// Appends the last `n` hex digits of `x`.
pub fn push_hex_fixed(out: &mut Vec<u8>, x: u64, n: usize)
    requires
        n <= 16,
    ensures
        final(out)@ == old(out)@ + hex_fixed(x as nat, n as nat),
    decreases n,
{
    if n > 0 {
        push_hex_fixed(out, x / 16, n - 1);
        let d = (x % 16) as u8;
        out.push(
            if d < 10 {
                48 + d
            } else {
                87 + d
            },
        );
        assert(final(out)@ =~= old(out)@ + hex_fixed(x as nat, n as nat));
    } else {
        assert(final(out)@ =~= old(out)@ + hex_fixed(x as nat, n as nat));
    }
}

/// Appends an address as `0x` and sixteen hex digits.
pub fn push_addr(out: &mut Vec<u8>, x: u64)
    ensures
        final(out)@ == old(out)@ + addr_text(x),
{
    out.push(48);
    out.push(120);
    push_hex_fixed(out, x, 16);
    assert(final(out)@ =~= old(out)@ + addr_text(x));
}

/// Appends the decimal digits of `x`.
pub fn push_dec(out: &mut Vec<u8>, x: u128)
    ensures
        final(out)@ == old(out)@ + dec_digits(x as nat),
    decreases x,
{
    if x >= 10 {
        push_dec(out, x / 10);
    }
    out.push(48 + (x % 10) as u8);
    assert(final(out)@ =~= old(out)@ + dec_digits(x as nat));
}

/// Appends all of `src`.
pub fn push_all(out: &mut Vec<u8>, src: &[u8])
    ensures
        final(out)@ == old(out)@ + src@,
{
    let mut i: usize = 0;
    while i < src.len()
        invariant
            i <= src@.len(),
            out@ == old(out)@ + src@.subrange(0, i as int),
        decreases src@.len() - i,
    {
        out.push(src[i]);
        i = i + 1;
        assert(out@ =~= old(out)@ + src@.subrange(0, i as int));
    }
    assert(src@.subrange(0, src@.len() as int) =~= src@);
}

/// Appends `n` spaces.
pub fn push_spaces(out: &mut Vec<u8>, n: usize)
    ensures
        final(out)@ == old(out)@ + spaces(n as nat),
{
    let mut i: usize = 0;
    while i < n
        invariant
            i <= n,
            out@ == old(out)@ + spaces(i as nat),
        decreases n - i,
    {
        out.push(32);
        i = i + 1;
        assert(out@ =~= old(out)@ + spaces(i as nat));
    }
}

/// Appends `x` in decimal, right-aligned in `width` columns.
pub fn push_dec_padded(out: &mut Vec<u8>, x: u128, width: usize)
    ensures
        final(out)@ == old(out)@ + pad_left(dec_digits(x as nat), width as nat),
{
    let mut digits: Vec<u8> = Vec::new();
    push_dec(&mut digits, x);
    assert(digits@ =~= dec_digits(x as nat));
    if digits.len() < width {
        push_spaces(out, width - digits.len());
    }
    push_all(out, digits.as_slice());
    assert(final(out)@ =~= old(out)@ + pad_left(dec_digits(x as nat), width as nat));
}

proof fn lemma_hex_value_step(s: Seq<u8>, i: int)
    requires
        0 <= i,
        2 * i + 2 <= s.len(),
    ensures
        hex_value(s.subrange(0, 2 * i + 2)) == hex_value(s.subrange(0, 2 * i)) * 256 + hex_val(
            s[2 * i],
        ) * 16 + hex_val(s[2 * i + 1]),
{
    assert(s.subrange(0, 2 * i + 2).drop_last() =~= s.subrange(0, 2 * i + 1));
    assert(s.subrange(0, 2 * i + 1).drop_last() =~= s.subrange(0, 2 * i));
    let v = hex_value(s.subrange(0, 2 * i));
    let h = hex_val(s[2 * i]);
    let l = hex_val(s[2 * i + 1]);
    assert(hex_value(s.subrange(0, 2 * i + 1)) == v * 16 + h);
    assert(hex_value(s.subrange(0, 2 * i + 2)) == (v * 16 + h) * 16 + l);
    assert((v * 16 + h) * 16 + l == v * 256 + h * 16 + l) by (nonlinear_arith);
}

proof fn lemma_hex_value_leading_zero(s: Seq<u8>)
    ensures
        hex_value(seq![48u8] + s) == hex_value(s),
    decreases s.len(),
{
    if s.len() == 0 {
        let z = seq![48u8] + s;
        assert(z.drop_last() =~= Seq::<u8>::empty());
        assert(z.last() == 48u8);
        assert(hex_value(z) == hex_value(z.drop_last()) * 16 + hex_val(z.last()));
        assert(hex_value(Seq::<u8>::empty()) == 0);
    } else {
        lemma_hex_value_leading_zero(s.drop_last());
        let z = seq![48u8] + s;
        assert(z.drop_last() =~= seq![48u8] + s.drop_last());
        assert(z.last() == s.last());
    }
}

proof fn lemma_hex_value_bound(s: Seq<u8>)
    requires
        all_hex(s),
    ensures
        hex_value(s) < pow16(s.len()),
    decreases s.len(),
{
    if s.len() > 0 {
        lemma_hex_value_bound(s.drop_last());
        let v = hex_value(s.drop_last());
        let p = pow16((s.len() - 1) as nat);
        assert(hex_val(s.last()) < 16);
        assert(v * 16 + hex_val(s.last()) < 16 * p) by (nonlinear_arith)
            requires
                v < p,
                hex_val(s.last()) < 16,
        ;
    }
}

proof fn lemma_pow16_mono(a: nat, b: nat)
    requires
        a <= b,
    ensures
        pow16(a) <= pow16(b),
    decreases b,
{
    if a < b {
        lemma_pow16_mono(a, (b - 1) as nat);
    }
}

proof fn lemma_pow16_16()
    ensures
        pow16(16) == 0x1_0000_0000_0000_0000,
{
    reveal_with_fuel(pow16, 17);
}

/// Reads an address argument: `0x` and hex digits, or a decimal number.
pub fn u64ptr(value: &str) -> (r: Result<u64, ErrorKind>)
    ensures
        match r {
            Ok(v) => u64ptr_spec(value.spec_bytes()) == Some(v),
            Err(e) => u64ptr_spec(value.spec_bytes()) is None && e == ErrorKind::Decode,
        },
{
    let b = value.as_bytes();
    if b.len() >= 2 && b[0] == 48 && b[1] == 120 {
        let rest = slice_subrange(b, 2, b.len());
        if rest.len() > 16 {
            return Err(ErrorKind::Decode);
        }
        let mut digits: Vec<u8> = Vec::new();
        if rest.len() % 2 != 0 {
            digits.push(48);
        }
        push_all(&mut digits, rest);
        proof {
            if rest@.len() % 2 != 0 {
                assert(digits@ =~= seq![48u8] + rest@);
                lemma_hex_value_leading_zero(rest@);
                assert(all_hex(digits@) <==> all_hex(rest@)) by {
                    if all_hex(rest@) {
                        assert forall|i: int| 0 <= i < digits@.len() implies is_hex_char(digits@[i]) by {
                            if i > 0 {
                                assert(digits@[i] == rest@[i - 1]);
                            }
                        }
                    }
                    if all_hex(digits@) {
                        assert forall|i: int| 0 <= i < rest@.len() implies is_hex_char(rest@[i]) by {
                            assert(digits@[i + 1] == rest@[i]);
                        }
                    }
                }
            } else {
                assert(digits@ =~= rest@);
            }
        }
        let bytes = match hex_decode(digits.as_slice()) {
            Ok(bytes) => bytes,
            Err(_) => {
                return Err(ErrorKind::Decode);
            },
        };
        proof {
            lemma_pow16_16();
        }
        let mut v: u64 = 0;
        let mut i: usize = 0;
        while i < bytes.len()
            invariant
                all_hex(digits@),
                digits@.len() <= 16,
                bytes@ == hex_pairs(digits@),
                i <= bytes@.len(),
                v as nat == hex_value(digits@.subrange(0, 2 * i)),
                pow16(16) == 0x1_0000_0000_0000_0000,
            decreases bytes@.len() - i,
        {
            proof {
                lemma_hex_value_step(digits@, i as int);
                let t = digits@.subrange(0, 2 * i + 2);
                assert(all_hex(t));
                lemma_hex_value_bound(t);
                lemma_pow16_mono(t.len(), 16);
            }
            v = v * 256 + bytes[i] as u64;
            i = i + 1;
        }
        assert(digits@.subrange(0, digits@.len() as int) =~= digits@);
        assert(hex_value(digits@) == hex_value(rest@));
        Ok(v)
    } else {
        match parse_decimal(value) {
            Ok(v) => Ok(v),
            Err(_) => Err(ErrorKind::Decode),
        }
    }
}

/// Sixteen hex digits: the bytes of `x`, least significant first.
pub fn hex_u64_le(x: u64) -> (r: String)
    ensures
        r@ == hex_text(le_bytes(x)),
{
    let mut b: Vec<u8> = Vec::new();
    let mut i: u64 = 0;
    while i < 8
        invariant
            i <= 8,
            b@.len() == i,
            forall|k: int| 0 <= k < i ==> b@[k] == (x >> (8 * k) as u64) as u8,
        decreases 8 - i,
    {
        b.push((x >> (8 * i)) as u8);
        i = i + 1;
    }
    assert(b@ =~= le_bytes(x));
    hex_encode(b.as_slice())
}

/// The session-name component for a path: a stable hash of its bytes, as
/// sixteen hex digits.
pub fn hashpath(path: &[u8]) -> (r: String)
    ensures
        r@ == hex_text(le_bytes(default_hash(path@))),
{
    hex_u64_le(hash_bytes(path))
}

proof fn lemma_hex_digit_roundtrip(d: nat)
    requires
        d < 16,
    ensures
        is_hex_char(hex_digit(d)),
        hex_val(hex_digit(d)) == d,
{
}

proof fn lemma_hex_fixed_value(x: nat, n: nat)
    ensures
        hex_fixed(x, n).len() == n,
        all_hex(hex_fixed(x, n)),
        hex_value(hex_fixed(x, n)) == x % pow16(n),
    decreases n,
{
    if n > 0 {
        lemma_hex_fixed_value(x / 16, (n - 1) as nat);
        lemma_hex_digit_roundtrip(x % 16);
        let s = hex_fixed(x, n);
        assert(s.drop_last() =~= hex_fixed(x / 16, (n - 1) as nat));
        let p = pow16((n - 1) as nat);
        assert(p > 0) by {
            lemma_pow16_mono(0, (n - 1) as nat);
        }
        lemma_mod_breakdown(x as int, 16, p as int);
        assert(hex_value(s) == (x / 16 % p) * 16 + x % 16);
        assert(x % (16 * p) == 16 * ((x / 16) % p) + x % 16);
    } else {
        assert(x % 1 == 0);
    }
}

/// `0x` and any number from one to sixteen of the hex digits of `x`, with
/// leading zeros or without, reads back as `x`.
pub proof fn lemma_u64ptr_reads_hex(x: u64, n: nat)
    requires
        1 <= n <= 16,
        x < pow16(n),
    ensures
        u64ptr_spec(seq![48u8, 120u8] + hex_fixed(x as nat, n)) == Some(x),
{
    let b = seq![48u8, 120u8] + hex_fixed(x as nat, n);
    lemma_hex_fixed_value(x as nat, n);
    vstd::arithmetic::div_mod::lemma_small_mod(x as nat, pow16(n));
    assert(b.subrange(2, b.len() as int) =~= hex_fixed(x as nat, n));
}

/// A printed address reads back as the same number.
pub proof fn lemma_u64ptr_reads_printed_address(x: u64)
    ensures
        u64ptr_spec(addr_text(x)) == Some(x),
{
    lemma_pow16_16();
    lemma_u64ptr_reads_hex(x, 16);
}

/// The session-name component is a function of the path's bytes alone.
pub proof fn lemma_hashpath_depends_on_bytes(p: Seq<u8>, q: Seq<u8>)
    requires
        p == q,
    ensures
        hex_text(le_bytes(default_hash(p))) == hex_text(le_bytes(default_hash(q))),
{
}

} // verus!
