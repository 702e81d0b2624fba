use vstd::prelude::*;
use vstd::arithmetic::power2::{pow2, lemma2_to64, lemma2_to64_rest, lemma_pow2_adds, lemma_pow2_pos, lemma_pow2_unfold};
use vstd::arithmetic::div_mod::{lemma_basic_div, lemma_fundamental_div_mod, lemma_mod_breakdown, lemma_small_mod};

verus! {

/// Sign bit of an IEEE-754 binary32 bit pattern.
pub open spec fn f32_negative(b: u32) -> bool {
    (b >> 31u32) == 1u32
}

/// Biased exponent field of a binary32 bit pattern.
pub open spec fn f32_biased_exp(b: u32) -> u32 {
    (b >> 23u32) & 0xffu32
}

/// Fraction field of a binary32 bit pattern.
pub open spec fn f32_fraction(b: u32) -> u32 {
    b & 0x7fffffu32
}

pub open spec fn f32_is_nan(b: u32) -> bool {
    f32_biased_exp(b) == 255 && f32_fraction(b) != 0
}

pub open spec fn f32_is_infinite(b: u32) -> bool {
    f32_biased_exp(b) == 255 && f32_fraction(b) == 0
}

/// Integer significand of a finite binary32 value: its magnitude is
/// `f32_significand(b) * 2^f32_exponent(b)`.
pub open spec fn f32_significand(b: u32) -> nat {
    if f32_biased_exp(b) == 0 {
        f32_fraction(b) as nat
    } else {
        f32_fraction(b) as nat + 0x800000
    }
}

pub open spec fn f32_exponent(b: u32) -> int {
    if f32_biased_exp(b) == 0 {
        -149
    } else {
        f32_biased_exp(b) - 150
    }
}

/// |value| * scale, rounded to the nearest integer with ties away from zero.
pub open spec fn scaled_magnitude(b: u32, scale: u32) -> nat {
    let n: int = f32_significand(b) * scale;
    let e = f32_exponent(b);
    if e >= 0 {
        (n * pow2(e as nat)) as nat
    } else {
        ((2 * n + pow2((-e) as nat)) / (pow2((1 - e) as nat) as int)) as nat
    }
}

/// value * scale, rounded to the nearest integer with ties away from zero.
pub open spec fn scaled_rounded(b: u32, scale: u32) -> int {
    if f32_negative(b) {
        -scaled_magnitude(b, scale)
    } else {
        scaled_magnitude(b, scale) as int
    }
}

/// Element widths, in bytes, that the quantizer supports.
pub open spec fn valid_width(w: u32) -> bool {
    w == 1 || w == 2 || w == 4
}

/// Half the number of values of a signed integer of `w` bytes: the range is
/// `-half_range(w) ..= half_range(w) - 1`.
pub open spec fn half_range(w: u32) -> int {
    if w == 1 {
        128
    } else if w == 2 {
        32768
    } else {
        2147483648
    }
}

/// Whether quantizing the value to `w` bytes at `scale` leaves the
/// representable range (NaN and infinities always do).
pub open spec fn clamps(b: u32, w: u32, scale: u32) -> bool {
    f32_is_nan(b) || f32_is_infinite(b) || scaled_rounded(b, scale) < -half_range(w)
        || scaled_rounded(b, scale) > half_range(w) - 1
}

/// The integer that a value quantizes to: scaled, rounded, then clamped to the
/// signed range of `w` bytes. NaN becomes zero; infinities take the bound on
/// their side.
pub open spec fn quantized(b: u32, w: u32, scale: u32) -> int {
    if f32_is_nan(b) {
        0
    } else if f32_is_infinite(b) {
        if f32_negative(b) {
            -half_range(w)
        } else {
            half_range(w) - 1
        }
    } else if scaled_rounded(b, scale) < -half_range(w) {
        -half_range(w)
    } else if scaled_rounded(b, scale) > half_range(w) - 1 {
        half_range(w) - 1
    } else {
        scaled_rounded(b, scale)
    }
}

pub open spec fn pow256(n: nat) -> nat
    decreases n,
{
    if n == 0 {
        1
    } else {
        256 * pow256((n - 1) as nat)
    }
}

/// Two's complement of `q` on `w` bytes.
pub open spec fn twos_complement(q: int, w: nat) -> nat {
    if q >= 0 {
        q as nat
    } else {
        (q + pow256(w)) as nat
    }
}

/// The `n` low bytes of `v`, least significant first.
pub open spec fn le_bytes(v: nat, n: nat) -> Seq<u8>
    decreases n,
{
    if n == 0 {
        seq![]
    } else {
        seq![(v % 256) as u8] + le_bytes(v / 256, (n - 1) as nat)
    }
}

/// A signed integer stored little-endian on `w` bytes.
pub open spec fn encode_int(q: int, w: nat) -> Seq<u8> {
    le_bytes(twos_complement(q, w), w)
}

/// The bytes of a sequence of values quantized to `w` bytes each, in order.
pub open spec fn quantized_bytes(vals: Seq<u32>, w: u32, scale: u32) -> Seq<u8>
    decreases vals.len(),
{
    if vals.len() == 0 {
        seq![]
    } else {
        quantized_bytes(vals.drop_last(), w, scale) + encode_int(
            quantized(vals.last(), w, scale),
            w as nat,
        )
    }
}

/// How many of the values clamp.
pub open spec fn clamp_count(vals: Seq<u32>, w: u32, scale: u32) -> nat
    decreases vals.len(),
{
    if vals.len() == 0 {
        0
    } else {
        clamp_count(vals.drop_last(), w, scale) + if clamps(vals.last(), w, scale) {
            1nat
        } else {
            0nat
        }
    }
}

pub proof fn lemma_clamp_count_bound(vals: Seq<u32>, w: u32, scale: u32)
    ensures
        clamp_count(vals, w, scale) <= vals.len(),
    decreases vals.len(),
{
    if vals.len() > 0 {
        lemma_clamp_count_bound(vals.drop_last(), w, scale);
    }
}

/// Largest magnitude that is tracked exactly; anything above clamps at every width.
pub const MAGNITUDE_CAP: u64 = 0x8000_0000;

/// |value| * scale rounded, exact up to `MAGNITUDE_CAP`; above it, only known
/// to be above it.
fn scaled_magnitude_capped(b: u32, scale: u32) -> (r: u64)
    requires
        !f32_is_nan(b),
        !f32_is_infinite(b),
    ensures
        r as int == scaled_magnitude(b, scale) || (r > MAGNITUDE_CAP && scaled_magnitude(
            b,
            scale,
        ) > MAGNITUDE_CAP),
{
    let biased: u32 = (b >> 23u32) & 0xffu32;
    let fraction: u32 = b & 0x7fffffu32;
    assert(fraction <= 0x7fffff) by (bit_vector)
        requires
            fraction == b & 0x7fffffu32,
    ;
    assert(biased <= 0xff) by (bit_vector)
        requires
            biased == (b >> 23u32) & 0xffu32,
    ;
    let sig: u64 = if biased == 0 {
        fraction as u64
    } else {
        fraction as u64 + 0x800000
    };
    assert(sig * scale < 0x100_0000_0000_0000) by (nonlinear_arith)
        requires
            sig < 0x1000000,
            scale <= 0xffff_ffff,
    ;
    let n: u64 = sig * scale as u64;
    if biased >= 150 {
        let e: u32 = biased - 150;
        let mut v: u64 = n;
        let mut i: u32 = 0;
        proof {
            lemma2_to64();
            lemma2_to64_rest();
        }
        while i < e && v <= MAGNITUDE_CAP
            invariant
                i <= e,
                e == f32_exponent(b),
                n == f32_significand(b) * scale,
                v as int == n * pow2(i as nat),
                v < 0x100_0000_0000_0000,
            decreases e - i,
        {
            proof {
                lemma_pow2_unfold((i + 1) as nat);
                assert(n * pow2((i + 1) as nat) == 2 * (n * pow2(i as nat))) by (nonlinear_arith)
                    requires
                        pow2((i + 1) as nat) == 2 * pow2(i as nat),
                ;
            }
            v = v * 2;
            i = i + 1;
        }
        proof {
            if i < e {
                let rest = (e - i) as nat;
                lemma_pow2_adds(i as nat, rest);
                lemma_pow2_pos(rest);
                assert(n * pow2(e as nat) == v * pow2(rest)) by (nonlinear_arith)
                    requires
                        v == n * pow2(i as nat),
                        pow2(e as nat) == pow2(i as nat) * pow2(rest),
                        e == i + rest,
                ;
                assert(v * pow2(rest) >= v) by (nonlinear_arith)
                    requires
                        pow2(rest) > 0,
                ;
            }
        }
        v
    } else {
        let k: u32 = if biased == 0 {
            149
        } else {
            150 - biased
        };
        proof {
            lemma2_to64();
            lemma2_to64_rest();
            lemma_pow2_unfold((k + 1) as nat);
        }
        assert(f32_exponent(b) == -k);
        if k >= 57 {
            proof {
                lemma_pow2_adds(57, (k - 57) as nat);
                lemma_pow2_pos((k - 57) as nat);
                assert(pow2(k as nat) >= pow2(57)) by (nonlinear_arith)
                    requires
                        pow2(k as nat) == pow2(57) * pow2((k - 57) as nat),
                        pow2((k - 57) as nat) > 0,
                ;
                assert(pow2(57) == 0x200_0000_0000_0000);
                assert(n < 0x100_0000_0000_0000);
                assert(2 * n < pow2(k as nat));
                lemma_basic_div(2 * n + pow2(k as nat), pow2((k + 1) as nat) as int);
            }
            0
        } else {
            let mut d: u64 = 1;
            let mut j: u32 = 0;
            while j < k
                invariant
                    j <= k,
                    k <= 56,
                    d as int == pow2(j as nat),
                    1 <= d <= 0x200_0000_0000_0000,
                    n < 0x100_0000_0000_0000,
                    n == f32_significand(b) * scale,
                    pow2((k + 1) as nat) == 2 * pow2(k as nat),
                decreases k - j,
            {
                proof {
                    lemma2_to64();
            lemma2_to64_rest();
                    lemma_pow2_unfold((j + 1) as nat);
                    lemma_pow2_adds(j as nat, (56 - j) as nat);
                    lemma_pow2_pos((56 - j) as nat);
                    assert(pow2(j as nat) <= pow2(56)) by (nonlinear_arith)
                        requires
                            pow2(56) == pow2(j as nat) * pow2((56 - j) as nat),
                            pow2((56 - j) as nat) > 0,
                    ;
                }
                d = d * 2;
                j = j + 1;
            }
            (2 * n + d) / (2 * d)
        }
    }
}

/// Quantizes one value: multiplies it by `scale`, rounds to the nearest
/// integer (ties away from zero) and clamps to the signed range of `width`
/// bytes. Also says whether the value had to be clamped.
pub fn quantize_value(bits: u32, width: u32, scale: u32) -> (r: (i32, bool))
    requires
        valid_width(width),
    ensures
        r.0 as int == quantized(bits, width, scale),
        r.1 == clamps(bits, width, scale),
{
    let half: u64 = if width == 1 {
        128
    } else if width == 2 {
        32768
    } else {
        0x8000_0000
    };
    let negative: bool = (bits >> 31u32) == 1u32;
    let biased: u32 = (bits >> 23u32) & 0xffu32;
    let fraction: u32 = bits & 0x7fffffu32;
    if biased == 255 {
        if fraction != 0 {
            (0, true)
        } else if negative {
            ((0 - half as i64) as i32, true)
        } else {
            ((half - 1) as i32, true)
        }
    } else {
        let mag: u64 = scaled_magnitude_capped(bits, scale);
        if negative {
            if mag > half {
                ((0 - half as i64) as i32, true)
            } else {
                ((0 - mag as i64) as i32, false)
            }
        } else {
            if mag > half - 1 {
                ((half - 1) as i32, true)
            } else {
                (mag as i32, false)
            }
        }
    }
}


/// Appends the `n` low bytes of `v`, least significant first.
pub fn push_le(v: u64, n: u32, out: &mut Vec<u8>)
    ensures
        final(out)@ == old(out)@ + le_bytes(v as nat, n as nat),
{
    let mut t: u64 = v;
    let mut i: u32 = 0;
    while i < n
        invariant
            i <= n,
            out@ + le_bytes(t as nat, (n - i) as nat) == old(out)@ + le_bytes(v as nat, n as nat),
        decreases n - i,
    {
        let ghost before = out@;
        assert(le_bytes(t as nat, (n - i) as nat) == seq![(t % 256) as u8] + le_bytes(
            (t / 256) as nat,
            (n - i - 1) as nat,
        ));
        out.push((t % 256) as u8);
        assert(out@ + le_bytes((t / 256) as nat, (n - i - 1) as nat) =~= before + le_bytes(
            t as nat,
            (n - i) as nat,
        ));
        t = t / 256;
        i = i + 1;
    }
    assert(le_bytes(t as nat, 0) =~= Seq::<u8>::empty());
    assert(out@ =~= out@ + le_bytes(t as nat, 0));
}

/// Appends `q` as a little-endian two's-complement integer of `width` bytes.
pub fn encode_le(q: i32, width: u32, out: &mut Vec<u8>)
    requires
        valid_width(width),
        -half_range(width) <= q < half_range(width),
    ensures
        final(out)@ == old(out)@ + encode_int(q as int, width as nat),
{
    proof {
        reveal_with_fuel(pow256, 5);
    }
    let modulus: i64 = if width == 1 {
        256
    } else if width == 2 {
        65536
    } else {
        0x1_0000_0000
    };
    assert(modulus == pow256(width as nat));
    let t: u64 = if q >= 0 {
        q as u64
    } else {
        (q as i64 + modulus) as u64
    };
    assert(t as nat == twos_complement(q as int, width as nat));
    push_le(t, width, out);
}

/// The result of quantizing a tensor: its bytes, and how many of its values
/// were clamped.
pub struct Quantized {
    pub bytes: Vec<u8>,
    pub clamped: usize,
}

/// The one way quantization can fail: an element width other than 1, 2 or 4.
#[derive(Clone, Copy, Debug, PartialEq, Eq)]
pub struct InvalidWidth {
    pub width: u32,
}

/// Quantizes every value (IEEE-754 binary32 bit patterns) to `width` bytes at
/// `scale`, little-endian, in order, and counts the clamped values.
pub fn quantize(values: &Vec<u32>, width: u32, scale: u32) -> (r: Result<Quantized, InvalidWidth>)
    ensures
        match r {
            Ok(q) => valid_width(width) && q.bytes@ == quantized_bytes(values@, width, scale)
                && q.clamped == clamp_count(values@, width, scale),
            Err(e) => !valid_width(width) && e.width == width,
        },
{
    if !(width == 1 || width == 2 || width == 4) {
        return Err(InvalidWidth { width });
    }
    let mut out = Quantized { bytes: Vec::new(), clamped: 0 };
    let n: usize = values.len();
    assert(out.clamped + values@.len() == n);
    append_quantized(values, width, scale, &mut out);
    Ok(out)
}

/// Appends the quantized bytes of `values` to `out` and adds their clamp count.
pub fn append_quantized(values: &Vec<u32>, width: u32, scale: u32, out: &mut Quantized)
    requires
        valid_width(width),
        old(out).clamped + values@.len() <= usize::MAX,
    ensures
        final(out).bytes@ == old(out).bytes@ + quantized_bytes(values@, width, scale),
        final(out).clamped == old(out).clamped + clamp_count(values@, width, scale),
{
    let ghost start = out.bytes@;
    let ghost start_clamped = out.clamped;
    let mut i: usize = 0;
    while i < values.len()
        invariant
            valid_width(width),
            i <= values@.len(),
            out.bytes@ == start + quantized_bytes(values@.subrange(0, i as int), width, scale),
            start_clamped + values@.len() <= usize::MAX,
            out.clamped == start_clamped + clamp_count(values@.subrange(0, i as int), width, scale),
        decreases values@.len() - i,
    {
        proof {
            lemma_clamp_count_bound(values@.subrange(0, i as int), width, scale);
        }
        let (q, c) = quantize_value(values[i], width, scale);
        let ghost before = out.bytes@;
        encode_le(q, width, &mut out.bytes);
        if c {
            out.clamped = out.clamped + 1;
        }
        proof {
            let next = values@.subrange(0, i + 1);
            assert(next.drop_last() =~= values@.subrange(0, i as int));
            assert(next.last() == values@[i as int]);
            assert(out.bytes@ =~= start + quantized_bytes(next, width, scale));
        }
        i = i + 1;
    }
    assert(values@.subrange(0, values@.len() as int) =~= values@);
}

/// The unsigned value of little-endian bytes.
pub open spec fn le_value(s: Seq<u8>) -> nat
    decreases s.len(),
{
    if s.len() == 0 {
        0
    } else {
        s[0] as nat + 256 * le_value(s.drop_first())
    }
}

/// How a reader takes back a signed little-endian integer of `s.len()` bytes.
pub open spec fn read_int(s: Seq<u8>) -> int {
    let u = le_value(s);
    if u >= pow256(s.len()) / 2 {
        u - pow256(s.len())
    } else {
        u as int
    }
}

/// `q` is value * scale up to one half: the value of the element is
/// `±significand * 2^exponent`, and `q / scale` lies within `0.5 / scale` of it.
pub open spec fn within_half(b: u32, scale: u32, q: int) -> bool {
    let n: int = if f32_negative(b) {
        -(f32_significand(b) * scale)
    } else {
        f32_significand(b) * scale
    };
    let e = f32_exponent(b);
    if e >= 0 {
        q == n * pow2(e as nat)
    } else {
        let d = pow2((-e) as nat) as int;
        -d <= 2 * q * d - 2 * n <= d
    }
}

pub proof fn lemma_le_value_of_bytes(v: nat, n: nat)
    ensures
        le_value(le_bytes(v, n)) == v % pow256(n),
        le_bytes(v, n).len() == n,
    decreases n,
{
    if n == 0 {
        assert(v % 1 == 0);
    } else {
        let rest = le_bytes(v / 256, (n - 1) as nat);
        lemma_le_value_of_bytes(v / 256, (n - 1) as nat);
        assert(le_bytes(v, n).drop_first() =~= rest);
        lemma_pow256_pos((n - 1) as nat);
        lemma_mod_breakdown(v as int, 256, pow256((n - 1) as nat) as int);
    }
}

pub proof fn lemma_pow256_pos(n: nat)
    ensures
        pow256(n) > 0,
    decreases n,
{
    if n > 0 {
        lemma_pow256_pos((n - 1) as nat);
    }
}

/// Reading back an encoded integer in range gives the integer.
pub proof fn lemma_read_encoded(q: int, w: u32)
    requires
        valid_width(w),
        -half_range(w) <= q < half_range(w),
    ensures
        read_int(encode_int(q, w as nat)) == q,
        encode_int(q, w as nat).len() == w,
{
    reveal_with_fuel(pow256, 5);
    let t = twos_complement(q, w as nat);
    lemma_le_value_of_bytes(t, w as nat);
    lemma_small_mod(t, pow256(w as nat));
}

/// The bytes of element `i` are the `i`-th run of `w` bytes.
pub proof fn lemma_element_bytes(vals: Seq<u32>, w: u32, scale: u32, i: int)
    requires
        valid_width(w),
        0 <= i < vals.len(),
    ensures
        quantized_bytes(vals, w, scale).len() == vals.len() * w,
        quantized_bytes(vals, w, scale).subrange(i * w, i * w + w) == encode_int(
            quantized(vals[i], w, scale),
            w as nat,
        ),
    decreases vals.len(),
{
    let prev = vals.drop_last();
    let q = quantized(vals.last(), w, scale);
    lemma_le_value_of_bytes(twos_complement(q, w as nat), w as nat);
    if prev.len() > 0 {
        lemma_element_bytes(prev, w, scale, if i < prev.len() { i } else { 0 });
    } else {
        assert(quantized_bytes(prev, w, scale) =~= Seq::<u8>::empty());
    }
    let whole = quantized_bytes(vals, w, scale);
    let head = quantized_bytes(prev, w, scale);
    assert(whole == head + encode_int(q, w as nat));
    assert(prev.len() * w + w == vals.len() * w) by (nonlinear_arith)
        requires
            prev.len() + 1 == vals.len(),
    ;
    if i < prev.len() {
        assert(i * w + w <= prev.len() * w) by (nonlinear_arith)
            requires
                i + 1 <= prev.len(),
                w >= 1,
        ;
        assert(0 <= i * w) by (nonlinear_arith)
            requires
                i >= 0,
                w >= 1,
        ;
        assert(whole.subrange(i * w, i * w + w) =~= head.subrange(i * w, i * w + w));
        assert(vals[i] == prev[i]);
    } else {
        assert(i == prev.len());
        assert(whole.subrange(i * w, i * w + w) =~= encode_int(q, w as nat));
    }
}

/// The rounded magnitude lies within one half of the exact product.
proof fn lemma_rounding_error(b: u32, scale: u32)
    requires
        f32_exponent(b) < 0,
    ensures
        ({
            let n: int = f32_significand(b) * scale;
            let d = pow2((-f32_exponent(b)) as nat) as int;
            let m = scaled_magnitude(b, scale) as int;
            -d < 2 * m * d - 2 * n <= d
        }),
{
    let n: int = f32_significand(b) * scale;
    let k = (-f32_exponent(b)) as nat;
    let d = pow2(k) as int;
    lemma_pow2_unfold(k + 1);
    lemma_pow2_pos(k);
    assert((1 - f32_exponent(b)) as nat == k + 1);
    let m = scaled_magnitude(b, scale) as int;
    assert(n >= 0) by (nonlinear_arith)
        requires
            n == f32_significand(b) * scale,
    ;
    lemma_fundamental_div_mod(2 * n + d, 2 * d);
    assert(m == (2 * n + d) / (2 * d));
    let r = (2 * n + d) % (2 * d);
    assert(0 <= r < 2 * d);
    assert(2 * n + d == 2 * d * m + r);
    assert(2 * m * d == 2 * d * m) by (nonlinear_arith);
}

/// Round trip: a reader of the quantized bytes gets back, for every element,
/// the integer it was quantized to; where the element did not clamp, that
/// integer divided by `scale` is within `0.5 / scale` of the element's value.
pub proof fn lemma_round_trip(vals: Seq<u32>, w: u32, scale: u32, i: int)
    requires
        valid_width(w),
        0 <= i < vals.len(),
    ensures
        read_int(quantized_bytes(vals, w, scale).subrange(i * w, i * w + w)) == quantized(
            vals[i],
            w,
            scale,
        ),
        !clamps(vals[i], w, scale) ==> within_half(vals[i], scale, quantized(vals[i], w, scale)),
{
    let b = vals[i];
    let q = quantized(b, w, scale);
    lemma_element_bytes(vals, w, scale, i);
    lemma_read_encoded(q, w);
    if !clamps(b, w, scale) && f32_exponent(b) < 0 {
        lemma_rounding_error(b, scale);
        let n: int = f32_significand(b) * scale;
        let d = pow2((-f32_exponent(b)) as nat) as int;
        let m = scaled_magnitude(b, scale) as int;
        if f32_negative(b) {
            assert(2 * (-m) * d - 2 * (-n) == -(2 * m * d - 2 * n)) by (nonlinear_arith);
        }
    } else if !clamps(b, w, scale) {
        let n: int = f32_significand(b) * scale;
        let p = pow2(f32_exponent(b) as nat) as int;
        assert(n * p >= 0) by (nonlinear_arith)
            requires
                n == f32_significand(b) * scale,
                p >= 0,
        ;
        assert((-n) * p == -(n * p)) by (nonlinear_arith);
    }
}

} // verus!
