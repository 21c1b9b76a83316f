//! Packed-binary primitives.
//!
//! Every machine word is a string of `'0'`/`'1'` characters, held as a
//! `Vec<char>`.  Working on character strings rather than native integers
//! lets a word be wider than the host word; these functions encode, decode,
//! shift and mask such strings, and their contracts are stated over the
//! mathematical value of the bits.

use vstd::prelude::*;
use vstd::arithmetic::power2::{pow2, lemma_pow2_unfold, lemma_pow2_pos};
use vstd::arithmetic::div_mod::{
    lemma_fundamental_div_mod, lemma_fundamental_div_mod_converse, lemma_mod_bound,
    lemma_small_mod,
};

verus! {

/// True when every character of the string is a binary digit.
pub open spec fn is_binary(s: Seq<char>) -> bool {
    forall|i: int| 0 <= i < s.len() ==> s[i] == '0' || s[i] == '1'
}

/// The numeric weight of one binary character.
pub open spec fn bit_val(c: char) -> nat {
    if c == '1' {
        1
    } else {
        0
    }
}

/// The character for one bit value.
pub open spec fn bit_char(b: nat) -> char {
    if b == 1 {
        '1'
    } else {
        '0'
    }
}

/// The unsigned value of a binary string, most significant bit first.
pub open spec fn binary_value(s: Seq<char>) -> nat
    decreases s.len(),
{
    if s.len() == 0 {
        0
    } else {
        binary_value(s.drop_last()) * 2 + bit_val(s.last())
    }
}

/// The signed (sign-magnitude) value of a binary string: the first
/// character is the sign, the rest the magnitude.
pub open spec fn signed_value(s: Seq<char>) -> int
    recommends
        s.len() >= 1,
{
    if s[0] == '1' {
        -(binary_value(s.skip(1)) as int)
    } else {
        binary_value(s.skip(1)) as int
    }
}

/// `n` copies of the character `c`.
pub open spec fn repeat_char_seq(c: char, n: nat) -> Seq<char> {
    Seq::new(n, |i: int| c)
}

/// The low `b` bits of `v`, most significant first.
pub open spec fn unsigned_bits(v: nat, b: nat) -> Seq<char>
    decreases b,
{
    if b == 0 {
        Seq::empty()
    } else {
        unsigned_bits(v / 2, (b - 1) as nat).push(bit_char(v % 2))
    }
}

/// The minimum number of bits needed to represent `v`: the position of the
/// highest set bit plus one, and 0 for `v == 0`.
pub open spec fn spec_number_bits(v: nat) -> nat
    decreases v,
{
    if v == 0 {
        0
    } else {
        1 + spec_number_bits(v / 2)
    }
}

/// What `unsigned_int` returns: `bits` is first clamped to at least 1, and
/// the value wrapped into `[0, 2^bits)` with the mathematical modulo.
pub open spec fn spec_unsigned_int(value: int, bits: int) -> Seq<char> {
    let b = if bits < 1 {
        1
    } else {
        bits
    };
    unsigned_bits((value % (pow2(b as nat) as int)) as nat, b as nat)
}

/// What `signed_int` returns: `bits` is first clamped to at least 2; a sign
/// character is followed by the magnitude wrapped into `bits - 1` bits.
pub open spec fn spec_signed_int(value: int, bits: int) -> Seq<char> {
    let b = if bits < 2 {
        2
    } else {
        bits
    };
    let mag = if value < 0 {
        -value
    } else {
        value
    };
    seq![if value < 0 { '1' } else { '0' }] + unsigned_bits(
        (mag % (pow2((b - 1) as nat) as int)) as nat,
        (b - 1) as nat,
    )
}

/// The string rotated left by `k` positions (`0 <= k <= len`).
pub open spec fn rotate_left(s: Seq<char>, k: int) -> Seq<char>
    recommends
        0 <= k <= s.len(),
{
    s.subrange(k, s.len() as int) + s.subrange(0, k)
}

/// Character-wise AND of two binary strings, truncated to the shorter.
pub open spec fn spec_bitwise_and(l: Seq<char>, r: Seq<char>) -> Seq<char> {
    Seq::new(if l.len() <= r.len() { l.len() } else { r.len() },
        |i: int| bit_char(if bit_val(l[i]) == 1 && bit_val(r[i]) == 1 { 1 } else { 0 }))
}

/// Character-wise OR of two binary strings, truncated to the shorter.
pub open spec fn spec_bitwise_or(l: Seq<char>, r: Seq<char>) -> Seq<char> {
    Seq::new(if l.len() <= r.len() { l.len() } else { r.len() },
        |i: int| bit_char(if bit_val(l[i]) + bit_val(r[i]) >= 1 { 1 } else { 0 }))
}

/// Character-wise XOR of two binary strings, truncated to the shorter.
pub open spec fn spec_bitwise_xor(l: Seq<char>, r: Seq<char>) -> Seq<char> {
    Seq::new(if l.len() <= r.len() { l.len() } else { r.len() },
        |i: int| bit_char((bit_val(l[i]) + bit_val(r[i])) % 2))
}

/// Character-wise NOT of a binary string.
pub open spec fn spec_bitwise_not(s: Seq<char>) -> Seq<char> {
    Seq::new(s.len(), |i: int| bit_char((bit_val(s[i]) + 1) % 2))
}

/// Generate the binary string for a value with the minimum number of bits
/// needed to represent it (a single `'0'` for zero).
pub fn to_binary(value: u64) -> (r: Vec<char>)
    ensures
        r@ == unsigned_bits(
            value as nat,
            if value == 0 { 1nat } else { spec_number_bits(value as nat) },
        ),
{
    if value == 0 {
        let mut r: Vec<char> = Vec::new();
        r.push('0');
        proof {
            reveal_with_fuel(unsigned_bits, 3);
            assert(r@ =~= unsigned_bits(0, 1));
        }
        r
    } else {
        let width = number_bits(value);
        unsigned_bits_exec(value, width)
    }
}

/// Return the minimum number of bits needed to represent `value`.
pub fn number_bits(value: u64) -> (r: u64)
    ensures
        r == spec_number_bits(value as nat),
{
    proof {
        vstd::arithmetic::power2::lemma2_to64_rest();
        lemma_number_bits_le(value as nat, 64);
    }
    let mut v: u64 = value;
    let mut count: u64 = 0;
    while v > 0
        invariant
            count + spec_number_bits(v as nat) == spec_number_bits(value as nat),
            spec_number_bits(value as nat) <= 64,
        decreases v,
    {
        v = v / 2;
        count = count + 1;
    }
    count
}

/// A value below `2^k` needs at most `k` bits.
pub proof fn lemma_number_bits_le(v: nat, k: nat)
    requires
        v < pow2(k),
    ensures
        spec_number_bits(v) <= k,
    decreases k,
{
    if v > 0 {
        if k == 0 {
            assert(pow2(0) == 1) by {
                vstd::arithmetic::power2::lemma2_to64();
            }
        } else {
            lemma_pow2_unfold(k);
            lemma_number_bits_le(v / 2, (k - 1) as nat);
        }
    }
}

/// Build the low `b` bits of `v`, most significant character first.
fn unsigned_bits_exec(v: u64, b: u64) -> (r: Vec<char>)
    ensures
        r@ == unsigned_bits(v as nat, b as nat),
    decreases b,
{
    if b == 0 {
        Vec::new()
    } else {
        let mut r = unsigned_bits_exec(v / 2, b - 1);
        r.push(if v % 2 == 1 {
            '1'
        } else {
            '0'
        });
        r
    }
}

/// Left-pad a binary string `n` times with the given character; `None` when
/// `n` is negative.
pub fn pad_binary(binary_string: &Vec<char>, n: i64, bit: char) -> (r: Option<Vec<char>>)
    requires
        n <= usize::MAX - binary_string@.len(),
    ensures
        r is Some <==> n >= 0,
        n >= 0 ==> r.unwrap()@ == repeat_char_seq(bit, n as nat) + binary_string@,
{
    if n < 0 {
        None
    } else {
        let mut r: Vec<char> = Vec::new();
        let mut i: i64 = 0;
        while i < n
            invariant
                0 <= i <= n,
                r@ =~= repeat_char_seq(bit, i as nat),
            decreases n - i,
        {
            r.push(bit);
            assert(r@ =~= repeat_char_seq(bit, (i + 1) as nat));
            i = i + 1;
        }
        let mut j: usize = 0;
        while j < binary_string.len()
            invariant
                j <= binary_string@.len(),
                r@ =~= repeat_char_seq(bit, n as nat) + binary_string@.subrange(0, j as int),
            decreases binary_string@.len() - j,
        {
            r.push(binary_string[j]);
            assert(r@ =~= repeat_char_seq(bit, n as nat) + binary_string@.subrange(
                0,
                j + 1,
            ));
            j = j + 1;
        }
        assert(binary_string@.subrange(0, binary_string@.len() as int) =~= binary_string@);
        Some(r)
    }
}

/// Compute `2^bits` as an `i64`.
fn pow2_i64(bits: u64) -> (r: i64)
    requires
        bits <= 62,
    ensures
        r == pow2(bits as nat),
        r >= 1,
{
    proof {
        lemma_pow2_pos(bits as nat);
        vstd::arithmetic::power2::lemma2_to64();
    }
    let mut r: i64 = 1;
    let mut i: u64 = 0;
    while i < bits
        invariant
            i <= bits <= 62,
            r == pow2(i as nat),
            1 <= r,
        decreases bits - i,
    {
        proof {
            lemma_pow2_unfold((i + 1) as nat);
            lemma_pow2_monotonic(i as nat, 61);
            lemma_pow2_61();
        }
        r = r * 2;
        i = i + 1;
    }
    r
}

pub proof fn lemma_pow2_monotonic(a: nat, b: nat)
    requires
        a <= b,
    ensures
        pow2(a) <= pow2(b),
    decreases b - a,
{
    if a < b {
        lemma_pow2_monotonic(a, (b - 1) as nat);
        lemma_pow2_unfold(b);
        lemma_pow2_pos((b - 1) as nat);
    }
}

pub proof fn lemma_pow2_61()
    ensures
        pow2(61) == 0x2000_0000_0000_0000,
{
    vstd::arithmetic::power2::lemma2_to64_rest();
}

/// `(-y - 1) % m == m - 1 - (y % m)` for `y >= 0`, `m > 0`.
proof fn lemma_mod_negative(y: int, m: int)
    requires
        y >= 0,
        m > 0,
    ensures
        (-y - 1) % m == m - 1 - (y % m),
{
    let q = y / m;
    let s = y % m;
    lemma_fundamental_div_mod(y, m);
    lemma_mod_bound(y, m);
    assert(y == q * m + s);
    assert(-y - 1 == (-q - 1) * m + (m - s - 1)) by (nonlinear_arith)
        requires
            y == q * m + s,
    ;
    lemma_fundamental_div_mod_converse(-y - 1, m, -q - 1, m - s - 1);
}

/// Wrap an integer value into the range `[0, 2^bits)` with the mathematical
/// modulo.
pub fn overflow(value: i64, bits: u64) -> (r: i64)
    requires
        bits <= 62,
    ensures
        r == (value as int) % (pow2(bits as nat) as int),
        0 <= r < pow2(bits as nat),
{
    let m = pow2_i64(bits);
    proof {
        lemma_mod_bound(value as int, m as int);
    }
    if value >= 0 {
        value % m
    } else {
        let y = -(value + 1);
        let k = y % m;
        proof {
            lemma_mod_negative(y as int, m as int);
            lemma_mod_bound(y as int, m as int);
        }
        m - 1 - k
    }
}

/// Generate an unsigned binary string for `value`, `bits` wide (clamped to
/// at least 1 bit).
pub fn unsigned_int(value: i64, bits: i64) -> (r: Vec<char>)
    requires
        bits <= 62,
    ensures
        r@ == spec_unsigned_int(value as int, bits as int),
        r@.len() == if bits < 1 { 1int } else { bits as int },
        is_binary(r@),
        binary_value(r@) == (value as int) % (pow2(r@.len() as nat) as int),
{
    let b: i64 = if bits < 1 {
        1
    } else {
        bits
    };
    let w = overflow(value, b as u64);
    let r = unsigned_bits_exec(w as u64, b as u64);
    proof {
        lemma_unsigned_bits_props(w as nat, b as nat);
        lemma_pow2_pos(b as nat);
        vstd::arithmetic::div_mod::lemma_small_mod(w as nat, pow2(b as nat));
    }
    r
}

/// Generate a signed (sign-magnitude) binary string for `value`, `bits`
/// wide (clamped to at least 2 bits): a sign character, then the magnitude
/// wrapped into `bits - 1` bits.
pub fn signed_int(value: i64, bits: i64) -> (r: Vec<char>)
    requires
        bits <= 63,
        value > i64::MIN,
    ensures
        r@ == spec_signed_int(value as int, bits as int),
        r@.len() == if bits < 2 { 2int } else { bits as int },
        is_binary(r@),
{
    let b: i64 = if bits < 2 {
        2
    } else {
        bits
    };
    let sign_bit: char = if value < 0 {
        '1'
    } else {
        '0'
    };
    let mag: i64 = if value < 0 {
        -value
    } else {
        value
    };
    let w = overflow(mag, (b - 1) as u64);
    let tail = unsigned_bits_exec(w as u64, (b - 1) as u64);
    let mut r: Vec<char> = Vec::new();
    r.push(sign_bit);
    let mut j: usize = 0;
    proof {
        lemma_unsigned_bits_props(w as nat, (b - 1) as nat);
    }
    while j < tail.len()
        invariant
            j <= tail@.len(),
            r@ =~= seq![sign_bit] + tail@.subrange(0, j as int),
        decreases tail@.len() - j,
    {
        r.push(tail[j]);
        assert(r@ =~= seq![sign_bit] + tail@.subrange(0, j + 1));
        j = j + 1;
    }
    proof {
        assert(tail@.subrange(0, tail@.len() as int) =~= tail@);
        lemma_pow2_pos((b - 1) as nat);
        vstd::arithmetic::div_mod::lemma_small_mod(w as nat, pow2((b - 1) as nat));
        assert(r@ =~= spec_signed_int(value as int, bits as int));
    }
    r
}

/// The bits produced by `unsigned_bits` are `b` binary characters whose
/// value is `v % 2^b`.
pub proof fn lemma_unsigned_bits_props(v: nat, b: nat)
    ensures
        unsigned_bits(v, b).len() == b,
        is_binary(unsigned_bits(v, b)),
        binary_value(unsigned_bits(v, b)) == v % pow2(b),
    decreases b,
{
    if b == 0 {
        assert(pow2(0) == 1) by {
            vstd::arithmetic::power2::lemma2_to64();
        }
    } else {
        lemma_unsigned_bits_props(v / 2, (b - 1) as nat);
        let s = unsigned_bits(v, b);
        let t = unsigned_bits(v / 2, (b - 1) as nat);
        assert(s == t.push(bit_char(v % 2)));
        assert(s.drop_last() =~= t);
        assert(binary_value(s) == binary_value(t) * 2 + bit_val(bit_char(v % 2)));
        assert(bit_val(bit_char(v % 2)) == v % 2);
        lemma_pow2_unfold(b);
        lemma_pow2_pos((b - 1) as nat);
        lemma_mod_halves(v as int, pow2((b - 1) as nat) as int);
    }
}

/// `v % (2 * m) == 2 * ((v / 2) % m) + v % 2` for `v >= 0`, `m > 0`.
proof fn lemma_mod_halves(v: int, m: int)
    requires
        v >= 0,
        m > 0,
    ensures
        ((v / 2) % m) * 2 + v % 2 == v % (2 * m),
{
    let q = v / 2;
    let r = v % 2;
    lemma_fundamental_div_mod(v, 2);
    lemma_mod_bound(v, 2);
    let qq = q / m;
    let rr = q % m;
    lemma_fundamental_div_mod(q, m);
    lemma_mod_bound(q, m);
    assert(v == (qq * m + rr) * 2 + r);
    assert(v == qq * (2 * m) + (rr * 2 + r)) by (nonlinear_arith)
        requires
            v == (qq * m + rr) * 2 + r,
    ;
    lemma_fundamental_div_mod_converse(v, 2 * m, qq, rr * 2 + r);
}

/// Every binary string's value is below `2^len`.
pub proof fn lemma_binary_value_bound(s: Seq<char>)
    ensures
        binary_value(s) < pow2(s.len()),
    decreases s.len(),
{
    if s.len() == 0 {
        assert(pow2(0) == 1) by {
            vstd::arithmetic::power2::lemma2_to64();
        }
    } else {
        lemma_binary_value_bound(s.drop_last());
        lemma_pow2_unfold(s.len());
    }
}

/// Interpret an unsigned binary string as an integer.  `None` when the
/// string is empty, holds a non-binary character, or does not fit in `i64`.
pub fn read_unsigned_int(binary_string: &Vec<char>) -> (r: Option<i64>)
    ensures
        r is Some <==> binary_string@.len() >= 1 && is_binary(binary_string@) && binary_value(
            binary_string@,
        ) <= i64::MAX,
        r is Some ==> r.unwrap() == binary_value(binary_string@),
{
    if binary_string.len() == 0 {
        return None;
    }
    let mut acc: i64 = 0;
    let mut i: usize = 0;
    while i < binary_string.len()
        invariant
            i <= binary_string@.len(),
            is_binary(binary_string@.subrange(0, i as int)),
            acc == binary_value(binary_string@.subrange(0, i as int)),
            0 <= acc <= i64::MAX,
        decreases binary_string@.len() - i,
    {
        let c = binary_string[i];
        if c != '0' && c != '1' {
            return None;
        }
        let bit: i64 = if c == '1' {
            1
        } else {
            0
        };
        if acc > (i64::MAX - bit) / 2 {
            proof {
                lemma_binary_value_prefix_bound(binary_string@, i as int);
                lemma_fundamental_div_mod(i64::MAX - bit, 2);
                lemma_mod_bound(i64::MAX - bit, 2);
                assert(binary_value(binary_string@) > i64::MAX);
            }
            return None;
        }
        proof {
            assert(binary_string@.subrange(0, i + 1).drop_last() =~= binary_string@.subrange(
                0,
                i as int,
            ));
        }
        acc = acc * 2 + bit;
        i = i + 1;
    }
    proof {
        assert(binary_string@.subrange(0, binary_string@.len() as int) =~= binary_string@);
    }
    Some(acc)
}

/// When a prefix of a binary string is already worth more than the whole
/// range can grow back, the whole string is worth more still.
proof fn lemma_binary_value_prefix_bound(s: Seq<char>, i: int)
    requires
        0 <= i < s.len(),
    ensures
        binary_value(s) >= binary_value(s.subrange(0, i)) * 2 + bit_val(s[i]),
    decreases s.len() - i,
{
    if i == s.len() - 1 {
        assert(s.drop_last() =~= s.subrange(0, i));
        assert(s.last() == s[i]);
    } else {
        lemma_binary_value_prefix_bound(s, i + 1);
        assert(s.subrange(0, i + 1).drop_last() =~= s.subrange(0, i));
        assert(binary_value(s.subrange(0, i + 1)) == binary_value(s.subrange(0, i)) * 2 + bit_val(
            s[i],
        ));
        assert(binary_value(s) >= binary_value(s.subrange(0, i + 1)) * 2 + bit_val(s[i + 1]));
    }
}

/// Interpret a signed (sign-magnitude) binary string as an integer.  `None`
/// when the string is shorter than two characters, holds a non-binary
/// character, or its magnitude does not fit in `i64`.
pub fn read_signed_int(binary_string: &Vec<char>) -> (r: Option<i64>)
    ensures
        r is Some <==> binary_string@.len() >= 2 && is_binary(binary_string@) && binary_value(
            binary_string@.skip(1),
        ) <= i64::MAX,
        r is Some ==> r.unwrap() == signed_value(binary_string@),
{
    if binary_string.len() < 2 {
        return None;
    }
    let sign_char = binary_string[0];
    if sign_char != '0' && sign_char != '1' {
        return None;
    }
    let mut rest: Vec<char> = Vec::new();
    let mut i: usize = 1;
    while i < binary_string.len()
        invariant
            1 <= i <= binary_string@.len(),
            rest@ =~= binary_string@.subrange(1, i as int),
        decreases binary_string@.len() - i,
    {
        rest.push(binary_string[i]);
        assert(rest@ =~= binary_string@.subrange(1, i + 1));
        i = i + 1;
    }
    proof {
        assert(rest@ =~= binary_string@.skip(1));
        assert(is_binary(binary_string@) <==> is_binary(binary_string@.skip(1))) by {
            if is_binary(binary_string@.skip(1)) {
                assert forall|j: int| 0 <= j < binary_string@.len() implies binary_string@[j]
                    == '0' || binary_string@[j] == '1' by {
                    if j > 0 {
                        assert(binary_string@.skip(1)[j - 1] == binary_string@[j]);
                    }
                }
            }
        }
    }
    let magnitude = read_unsigned_int(&rest);
    match magnitude {
        Some(v) => {
            if sign_char == '1' {
                Some(-v)
            } else {
                Some(v)
            }
        },
        None => None,
    }
}

/// Logical left shift by `n`: drop the leftmost `n` characters, append `n`
/// zeros; the carry is the character that was at position `n - 1`.  `None`
/// when `n < 1`; all zeros with carry `'0'` when `n` exceeds the length.
pub fn logical_shift_left(binary_string: &Vec<char>, n: i64) -> (r: Option<(char, Vec<char>)>)
    ensures
        r is Some <==> n >= 1,
        n >= 1 && n > binary_string@.len() ==> r.unwrap().0 == '0' && r.unwrap().1@
            == repeat_char_seq('0', binary_string@.len()),
        1 <= n <= binary_string@.len() ==> r.unwrap().0 == binary_string@[n - 1]
            && r.unwrap().1@ == binary_string@.skip(n as int) + repeat_char_seq('0', n as nat),
{
    if n < 1 {
        return None;
    }
    let length = binary_string.len();
    if n as u64 > length as u64 {
        Some(('0', repeat_char('0', length)))
    } else {
        let k = n as usize;
        let mut out = subrange_vec(binary_string, k, length);
        let mut zeros = repeat_char('0', k);
        out.append(&mut zeros);
        proof {
            assert(binary_string@.subrange(k as int, binary_string@.len() as int)
                =~= binary_string@.skip(n as int));
        }
        Some((binary_string[k - 1], out))
    }
}

/// Logical right shift by `n`: prepend `n` zeros, drop the rightmost `n`
/// characters; the carry is the character at position `len - n`.  `None`
/// when `n < 1`; all zeros with carry `'0'` when `n` exceeds the length.
pub fn logical_shift_right(binary_string: &Vec<char>, n: i64) -> (r: Option<(char, Vec<char>)>)
    ensures
        r is Some <==> n >= 1,
        n >= 1 && n > binary_string@.len() ==> r.unwrap().0 == '0' && r.unwrap().1@
            == repeat_char_seq('0', binary_string@.len()),
        1 <= n <= binary_string@.len() ==> r.unwrap().0 == binary_string@[binary_string@.len()
            - n] && r.unwrap().1@ == repeat_char_seq('0', n as nat) + binary_string@.take(
            binary_string@.len() - n,
        ),
{
    if n < 1 {
        return None;
    }
    let length = binary_string.len();
    if n as u64 > length as u64 {
        Some(('0', repeat_char('0', length)))
    } else {
        let k = n as usize;
        let mut out = repeat_char('0', k);
        let mut kept = subrange_vec(binary_string, 0, length - k);
        out.append(&mut kept);
        proof {
            assert(binary_string@.subrange(0, (length - k) as int) =~= binary_string@.take(
                binary_string@.len() - n,
            ));
        }
        Some((binary_string[length - k], out))
    }
}

/// An arithmetic left shift is the same as a logical left shift.
pub fn arithmetic_shift_left(binary_string: &Vec<char>, n: i64) -> (r: Option<(char, Vec<char>)>)
    ensures
        r is Some <==> n >= 1,
        n >= 1 && n > binary_string@.len() ==> r.unwrap().0 == '0' && r.unwrap().1@
            == repeat_char_seq('0', binary_string@.len()),
        1 <= n <= binary_string@.len() ==> r.unwrap().0 == binary_string@[n - 1]
            && r.unwrap().1@ == binary_string@.skip(n as int) + repeat_char_seq('0', n as nat),
{
    logical_shift_left(binary_string, n)
}

/// Arithmetic right shift by `n`: prepend `n` copies of the sign character,
/// drop the rightmost `n`; the carry is the character at `len - n`.  `None`
/// when `n < 1`; `len` copies of the sign with the sign as carry when `n`
/// exceeds the length.
pub fn arithmetic_shift_right(binary_string: &Vec<char>, n: i64) -> (r: Option<(char, Vec<char>)>)
    requires
        n < 1 || binary_string@.len() >= 1,
    ensures
        r is Some <==> n >= 1,
        n >= 1 && n > binary_string@.len() ==> r.unwrap().0 == binary_string@[0]
            && r.unwrap().1@ == repeat_char_seq(binary_string@[0], binary_string@.len()),
        1 <= n <= binary_string@.len() ==> r.unwrap().0 == binary_string@[binary_string@.len()
            - n] && r.unwrap().1@ == repeat_char_seq(binary_string@[0], n as nat)
            + binary_string@.take(binary_string@.len() - n),
{
    if n < 1 {
        return None;
    }
    let length = binary_string.len();
    let sign = binary_string[0];
    if n as u64 > length as u64 {
        Some((sign, repeat_char(sign, length)))
    } else {
        let k = n as usize;
        let mut out = repeat_char(sign, k);
        let mut kept = subrange_vec(binary_string, 0, length - k);
        out.append(&mut kept);
        proof {
            assert(binary_string@.subrange(0, (length - k) as int) =~= binary_string@.take(
                binary_string@.len() - n,
            ));
        }
        Some((binary_string[length - k], out))
    }
}

/// Circular left shift by `n`.  `None` when `n < 1` or when `n` is a
/// multiple of the length (the value would be unchanged).
pub fn circular_shift_left(binary_string: &Vec<char>, n: i64) -> (r: Option<Vec<char>>)
    requires
        n < 1 || binary_string@.len() >= 1,
    ensures
        r is Some <==> n >= 1 && (n as int) % (binary_string@.len() as int) != 0,
        r is Some ==> r.unwrap()@ == rotate_left(
            binary_string@,
            n as int % binary_string@.len() as int,
        ),
{
    if n < 1 {
        return None;
    }
    let length = binary_string.len();
    let k = (n as u64 % length as u64) as usize;
    if k == 0 {
        None
    } else {
        let mut out = subrange_vec(binary_string, k, length);
        let mut front = subrange_vec(binary_string, 0, k);
        out.append(&mut front);
        Some(out)
    }
}

/// Circular right shift by `n`: a left rotation by `len - (n % len)`.
/// `None` when `n < 1` or when `n` is a multiple of the length.
pub fn circular_shift_right(binary_string: &Vec<char>, n: i64) -> (r: Option<Vec<char>>)
    requires
        n < 1 || binary_string@.len() >= 1,
    ensures
        r is Some <==> n >= 1 && (n as int) % (binary_string@.len() as int) != 0,
        r is Some ==> r.unwrap()@ == rotate_left(
            binary_string@,
            binary_string@.len() - n as int % binary_string@.len() as int,
        ),
{
    if n < 1 {
        return None;
    }
    let length = binary_string.len();
    let k = (n as u64 % length as u64) as usize;
    if k == 0 {
        None
    } else {
        let i = length - k;
        let mut out = subrange_vec(binary_string, i, length);
        let mut front = subrange_vec(binary_string, 0, i);
        out.append(&mut front);
        Some(out)
    }
}

/// Circular left shift with carry: the carry character is prepended, the
/// extended string rotated left by `n`, and the first character of the
/// result split back off as the new carry.
pub fn circular_shift_left_carry(binary_string: &Vec<char>, carry_bit: char, n: i64) -> (r: Option<
    (char, Vec<char>),
>)
    ensures
        r is Some <==> n >= 1 && (n as int) % (binary_string@.len() + 1) as int != 0,
        r is Some ==> {
            let rotated = rotate_left(
                seq![carry_bit] + binary_string@,
                n as int % (binary_string@.len() + 1) as int,
            );
            r.unwrap().0 == rotated[0] && r.unwrap().1@ == rotated.skip(1)
        },
{
    let mut extended: Vec<char> = Vec::new();
    extended.push(carry_bit);
    let mut rest = subrange_vec(binary_string, 0, binary_string.len());
    extended.append(&mut rest);
    proof {
        assert(binary_string@.subrange(0, binary_string@.len() as int) =~= binary_string@);
    }
    let rotated = circular_shift_left(&extended, n);
    match rotated {
        Some(bits) => {
            let out = subrange_vec(&bits, 1, bits.len());
            proof {
                assert(bits@.subrange(1, bits@.len() as int) =~= bits@.skip(1));
            }
            Some((bits[0], out))
        },
        None => None,
    }
}

/// Circular right shift with carry: the carry character is appended, the
/// extended string rotated right by `n`, and the last character of the
/// result split back off as the new carry.
pub fn circular_shift_right_carry(binary_string: &Vec<char>, carry_bit: char, n: i64) -> (r:
    Option<(char, Vec<char>)>)
    ensures
        r is Some <==> n >= 1 && (n as int) % (binary_string@.len() + 1) as int != 0,
        r is Some ==> {
            let rotated = rotate_left(
                binary_string@ + seq![carry_bit],
                (binary_string@.len() + 1) - n as int % (binary_string@.len() + 1) as int,
            );
            r.unwrap().0 == rotated.last() && r.unwrap().1@ == rotated.drop_last()
        },
{
    let mut extended = subrange_vec(binary_string, 0, binary_string.len());
    extended.push(carry_bit);
    proof {
        assert(binary_string@.subrange(0, binary_string@.len() as int) =~= binary_string@);
        assert(extended@ =~= binary_string@ + seq![carry_bit]);
    }
    let rotated = circular_shift_right(&extended, n);
    match rotated {
        Some(bits) => {
            let i = bits.len() - 1;
            let out = subrange_vec(&bits, 0, i);
            proof {
                assert(bits@.subrange(0, bits@.len() - 1) =~= bits@.drop_last());
            }
            Some((bits[i], out))
        },
        None => None,
    }
}

/// Character-wise AND of two binary strings, truncated to the shorter.
pub fn bitwise_and(left: &Vec<char>, right: &Vec<char>) -> (r: Vec<char>)
    requires
        is_binary(left@),
        is_binary(right@),
    ensures
        r@ == spec_bitwise_and(left@, right@),
{
    let len = if left.len() <= right.len() {
        left.len()
    } else {
        right.len()
    };
    let mut bits: Vec<char> = Vec::new();
    let mut i: usize = 0;
    while i < len
        invariant
            i <= len,
            len == if left@.len() <= right@.len() { left@.len() } else { right@.len() },
            is_binary(left@),
            is_binary(right@),
            bits@ =~= spec_bitwise_and(left@, right@).take(i as int),
        decreases len - i,
    {
        let c = if left[i] == '1' && right[i] == '1' {
            '1'
        } else {
            '0'
        };
        bits.push(c);
        assert(bits@ =~= spec_bitwise_and(left@, right@).take(i + 1));
        i = i + 1;
    }
    assert(bits@ =~= spec_bitwise_and(left@, right@));
    bits
}

/// Character-wise OR of two binary strings, truncated to the shorter.
pub fn bitwise_or(left: &Vec<char>, right: &Vec<char>) -> (r: Vec<char>)
    requires
        is_binary(left@),
        is_binary(right@),
    ensures
        r@ == spec_bitwise_or(left@, right@),
{
    let len = if left.len() <= right.len() {
        left.len()
    } else {
        right.len()
    };
    let mut bits: Vec<char> = Vec::new();
    let mut i: usize = 0;
    while i < len
        invariant
            i <= len,
            len == if left@.len() <= right@.len() { left@.len() } else { right@.len() },
            is_binary(left@),
            is_binary(right@),
            bits@ =~= spec_bitwise_or(left@, right@).take(i as int),
        decreases len - i,
    {
        let c = if left[i] == '1' || right[i] == '1' {
            '1'
        } else {
            '0'
        };
        bits.push(c);
        assert(bits@ =~= spec_bitwise_or(left@, right@).take(i + 1));
        i = i + 1;
    }
    assert(bits@ =~= spec_bitwise_or(left@, right@));
    bits
}

/// Character-wise NOT of a binary string.
pub fn bitwise_not(binary: &Vec<char>) -> (r: Vec<char>)
    requires
        is_binary(binary@),
    ensures
        r@ == spec_bitwise_not(binary@),
{
    let mut bits: Vec<char> = Vec::new();
    let mut i: usize = 0;
    while i < binary.len()
        invariant
            i <= binary@.len(),
            is_binary(binary@),
            bits@ =~= spec_bitwise_not(binary@).take(i as int),
        decreases binary@.len() - i,
    {
        let c = if binary[i] == '1' {
            '0'
        } else {
            '1'
        };
        bits.push(c);
        assert(bits@ =~= spec_bitwise_not(binary@).take(i + 1));
        i = i + 1;
    }
    assert(bits@ =~= spec_bitwise_not(binary@));
    bits
}

/// Character-wise XOR of two binary strings, truncated to the shorter.
pub fn bitwise_xor(left: &Vec<char>, right: &Vec<char>) -> (r: Vec<char>)
    requires
        is_binary(left@),
        is_binary(right@),
    ensures
        r@ == spec_bitwise_xor(left@, right@),
{
    let len = if left.len() <= right.len() {
        left.len()
    } else {
        right.len()
    };
    let mut bits: Vec<char> = Vec::new();
    let mut i: usize = 0;
    while i < len
        invariant
            i <= len,
            len == if left@.len() <= right@.len() { left@.len() } else { right@.len() },
            is_binary(left@),
            is_binary(right@),
            bits@ =~= spec_bitwise_xor(left@, right@).take(i as int),
        decreases len - i,
    {
        let c = if (left[i] == '1') != (right[i] == '1') {
            '1'
        } else {
            '0'
        };
        bits.push(c);
        assert(bits@ =~= spec_bitwise_xor(left@, right@).take(i + 1));
        i = i + 1;
    }
    assert(bits@ =~= spec_bitwise_xor(left@, right@));
    bits
}


/// Encoding an integer into `b >= 1` unsigned bits and reading the bits
/// back yields the value wrapped into `[0, 2^b)`.
pub proof fn lemma_unsigned_round_trip(v: int, b: int)
    requires
        b >= 1,
    ensures
        binary_value(spec_unsigned_int(v, b)) == ((v % (pow2(b as nat) as int)) + pow2(
            b as nat,
        ) as int) % (pow2(b as nat) as int),
{
    let m = pow2(b as nat) as int;
    lemma_pow2_pos(b as nat);
    let w = v % m;
    lemma_mod_bound(v, m);
    lemma_unsigned_bits_props(w as nat, b as nat);
    lemma_small_mod(w as nat, m as nat);
    vstd::arithmetic::div_mod::lemma_mod_multiples_vanish(1, w, m);
}

/// Encoding an integer into `b >= 2` signed (sign-magnitude) bits and
/// reading the bits back yields a value with the sign of the input and the
/// magnitude of the input wrapped into `[0, 2^(b-1))`.
pub proof fn lemma_signed_round_trip(v: int, b: int)
    requires
        b >= 2,
    ensures
        signed_value(spec_signed_int(v, b)) == if v < 0 {
            -((-v) % (pow2((b - 1) as nat) as int))
        } else {
            v % (pow2((b - 1) as nat) as int)
        },
{
    let m = pow2((b - 1) as nat) as int;
    lemma_pow2_pos((b - 1) as nat);
    let mag = if v < 0 { -v } else { v };
    let w = mag % m;
    lemma_mod_bound(mag, m);
    let s = spec_signed_int(v, b);
    assert(s.skip(1) =~= unsigned_bits(w as nat, (b - 1) as nat));
    lemma_unsigned_bits_props(w as nat, (b - 1) as nat);
    lemma_small_mod(w as nat, m as nat);
}

/// Bitwise NOT is an involution on binary strings.
pub proof fn lemma_bitwise_not_involution(s: Seq<char>)
    requires
        is_binary(s),
    ensures
        spec_bitwise_not(spec_bitwise_not(s)) == s,
{
    assert(spec_bitwise_not(spec_bitwise_not(s)) =~= s);
}

/// ANDing a binary string with itself leaves it unchanged.
pub proof fn lemma_bitwise_and_self(s: Seq<char>)
    requires
        is_binary(s),
    ensures
        spec_bitwise_and(s, s) == s,
{
    assert(spec_bitwise_and(s, s) =~= s);
}

/// ORing a binary string with itself leaves it unchanged.
pub proof fn lemma_bitwise_or_self(s: Seq<char>)
    requires
        is_binary(s),
    ensures
        spec_bitwise_or(s, s) == s,
{
    assert(spec_bitwise_or(s, s) =~= s);
}

/// XORing a binary string with itself gives all zeros of the same length.
pub proof fn lemma_bitwise_xor_self(s: Seq<char>)
    requires
        is_binary(s),
    ensures
        spec_bitwise_xor(s, s) == repeat_char_seq('0', s.len()),
{
    assert(spec_bitwise_xor(s, s) =~= repeat_char_seq('0', s.len()));
}

/// A circular left shift by `n` followed by a circular right shift by `n`
/// is the identity for every `1 <= n < len`.  (A right rotation by `n` is
/// the left rotation by `len - n` that `circular_shift_right` performs.)
pub proof fn lemma_circular_round_trip(s: Seq<char>, n: int)
    requires
        1 <= n < s.len(),
    ensures
        rotate_left(rotate_left(s, n), s.len() - n) == s,
{
    assert(rotate_left(rotate_left(s, n), s.len() - n) =~= s);
}


/// Powers of two up to `2^61` fit comfortably in a signed 64-bit word.
pub proof fn lemma_pow2_le_61(e: nat)
    requires
        e <= 61,
    ensures
        pow2(e) <= 0x2000_0000_0000_0000,
{
    lemma_pow2_monotonic(e, 61);
    lemma_pow2_61();
}

/// Compare two character vectors for equality of their contents.
pub fn chars_equal(a: &Vec<char>, b: &Vec<char>) -> (r: bool)
    ensures
        r == (a@ == b@),
{
    if a.len() != b.len() {
        proof {
            assert(a@.len() != b@.len());
        }
        return false;
    }
    let mut i: usize = 0;
    while i < a.len()
        invariant
            i <= a@.len(),
            a@.len() == b@.len(),
            forall|j: int| 0 <= j < i ==> a@[j] == b@[j],
        decreases a@.len() - i,
    {
        if a[i] != b[i] {
            return false;
        }
        i = i + 1;
    }
    proof {
        assert(a@ =~= b@);
    }
    true
}


/// Concatenating binary strings yields a binary string.
pub proof fn lemma_is_binary_concat(a: Seq<char>, b: Seq<char>)
    requires
        is_binary(a),
        is_binary(b),
    ensures
        is_binary(a + b),
{
    assert forall|i: int| 0 <= i < (a + b).len() implies (a + b)[i] == '0' || (a + b)[i]
        == '1' by {
        if i < a.len() {
            assert((a + b)[i] == a[i]);
        } else {
            assert((a + b)[i] == b[i - a.len()]);
        }
    }
}

/// Build a vector of `n` copies of `c`.
pub fn repeat_char(c: char, n: usize) -> (r: Vec<char>)
    ensures
        r@ == repeat_char_seq(c, n as nat),
{
    let mut r: Vec<char> = Vec::new();
    let mut i: usize = 0;
    while i < n
        invariant
            i <= n,
            r@ =~= repeat_char_seq(c, i as nat),
        decreases n - i,
    {
        r.push(c);
        assert(r@ =~= repeat_char_seq(c, (i + 1) as nat));
        i = i + 1;
    }
    r
}

/// Copy the characters of `s` between `from` (inclusive) and `to`
/// (exclusive) into a fresh vector.
pub fn subrange_vec(s: &Vec<char>, from: usize, to: usize) -> (r: Vec<char>)
    requires
        from <= to <= s@.len(),
    ensures
        r@ == s@.subrange(from as int, to as int),
{
    let mut r: Vec<char> = Vec::new();
    let mut i: usize = from;
    while i < to
        invariant
            from <= i <= to <= s@.len(),
            r@ =~= s@.subrange(from as int, i as int),
        decreases to - i,
    {
        r.push(s[i]);
        assert(r@ =~= s@.subrange(from as int, i + 1));
        i = i + 1;
    }
    r
}

} // verus!
