//! Numbers of the language are IEEE-754 doubles, held as their 64-bit
//! patterns: the sign in the top bit, then eleven bits of exponent, then
//! fifty-two bits of fraction. This module holds what can be said of them
//! in whole numbers: order, equality, negation, the whole part of a number,
//! and the double nearest to a whole number.

use vstd::arithmetic::div_mod::{lemma_div_denominator, lemma_fundamental_div_mod_converse};
use vstd::arithmetic::power2::{
    lemma2_to64,
    lemma2_to64_rest,
    lemma_pow2_adds,
    lemma_pow2_pos,
    lemma_pow2_strictly_increases,
    lemma_pow2_unfold,
    pow2,
};
use vstd::prelude::*;

verus! {

/// The pattern with only the sign bit set.
pub const SIGN_BIT: u64 = 0x8000_0000_0000_0000;

/// The pattern of positive infinity: every exponent bit set, no fraction.
pub const INFINITY: u64 = 0x7FF0_0000_0000_0000;

/// Two to the power fifty-two: the lowest exponent bit, and the leading bit
/// of a mantissa that the pattern leaves out.
pub const HIDDEN_BIT: u64 = 0x0010_0000_0000_0000;

/// The pattern without its sign.
pub open spec fn magnitude(bits: u64) -> u64 {
    bits % SIGN_BIT
}

/// Whether the sign bit is set.
pub open spec fn is_negative(bits: u64) -> bool {
    bits >= SIGN_BIT
}

/// Whether the pattern is not a number: every exponent bit set and some
/// fraction bit.
pub open spec fn is_nan(bits: u64) -> bool {
    magnitude(bits) > INFINITY
}

/// A whole number that orders the patterns of numbers as their values are
/// ordered: the magnitude, counted below zero where the sign is set. Both
/// zeros get zero.
pub open spec fn order_key(bits: u64) -> int {
    if is_negative(bits) {
        -(magnitude(bits) as int)
    } else {
        magnitude(bits) as int
    }
}

/// Whether two numbers have the same value. What is not a number equals
/// nothing, itself included; the two zeros are equal.
pub open spec fn equal(a: u64, b: u64) -> bool {
    !is_nan(a) && !is_nan(b) && order_key(a) == order_key(b)
}

/// Whether the value of `a` is greater than that of `b`. What is not a
/// number is neither greater nor less than anything.
pub open spec fn greater(a: u64, b: u64) -> bool {
    !is_nan(a) && !is_nan(b) && order_key(a) > order_key(b)
}

/// The pattern with the other sign.
pub open spec fn negated(bits: u64) -> u64 {
    if bits >= SIGN_BIT {
        (bits - SIGN_BIT) as u64
    } else {
        (bits + SIGN_BIT) as u64
    }
}

/// The whole part of a number that is zero or more, cut off at the largest
/// `usize`: zero below one, the largest `usize` for infinity and for what
/// is not a number, as for every value of two to the sixty-fourth and
/// beyond.
pub open spec fn whole_part(bits: u64) -> usize {
    let exponent = magnitude(bits) / HIDDEN_BIT;
    let mantissa = magnitude(bits) % HIDDEN_BIT + HIDDEN_BIT;
    if exponent < 1023 {
        0
    } else if exponent >= 1023 + 64 {
        usize::MAX
    } else {
        let whole = if exponent >= 1023 + 52 {
            mantissa * pow2((exponent - 1075) as nat)
        } else {
            (mantissa as nat / pow2((1075 - exponent) as nat)) as int
        };
        if whole > usize::MAX {
            usize::MAX
        } else {
            whole as usize
        }
    }
}

/// The place in a sequence that a number names: its whole part. A number
/// below zero and what is not a number name no place.
pub open spec fn index_of(bits: u64) -> Option<usize> {
    if is_nan(bits) || order_key(bits) < 0 {
        None
    } else {
        Some(whole_part(bits))
    }
}

/// How often a number asks for something to be repeated: its whole part,
/// and zero times for a number below zero and for what is not a number.
pub open spec fn repeat_count(bits: u64) -> usize {
    match index_of(bits) {
        Some(count) => count,
        None => 0,
    }
}

pub fn number_is_nan(bits: u64) -> (nan: bool)
    ensures
        nan == is_nan(bits),
{
    bits % SIGN_BIT > INFINITY
}

pub fn number_equal(a: u64, b: u64) -> (same: bool)
    ensures
        same == equal(a, b),
{
    if number_is_nan(a) || number_is_nan(b) {
        return false;
    }
    let ma = a % SIGN_BIT;
    let mb = b % SIGN_BIT;
    if ma == 0 && mb == 0 {
        true
    } else {
        a == b
    }
}

pub fn number_greater(a: u64, b: u64) -> (more: bool)
    ensures
        more == greater(a, b),
{
    if number_is_nan(a) || number_is_nan(b) {
        return false;
    }
    let ma = a % SIGN_BIT;
    let mb = b % SIGN_BIT;
    if a >= SIGN_BIT {
        if b >= SIGN_BIT {
            ma < mb
        } else {
            false
        }
    } else {
        if b >= SIGN_BIT {
            ma > 0 || mb > 0
        } else {
            ma > mb
        }
    }
}

pub fn number_negate(bits: u64) -> (other: u64)
    ensures
        other == negated(bits),
{
    if bits >= SIGN_BIT {
        bits - SIGN_BIT
    } else {
        bits + SIGN_BIT
    }
}

/// The place in a sequence that a number names.
pub fn number_index(bits: u64) -> (index: Option<usize>)
    ensures
        index == index_of(bits),
{
    if number_is_nan(bits) {
        return None;
    }
    let mag = bits % SIGN_BIT;
    if bits >= SIGN_BIT && mag > 0 {
        return None;
    }
    let exponent = mag / HIDDEN_BIT;
    let mantissa = mag % HIDDEN_BIT + HIDDEN_BIT;
    if exponent < 1023 {
        return Some(0);
    }
    if exponent >= 1023 + 64 {
        return Some(usize::MAX);
    }
    proof {
        lemma2_to64();
        lemma2_to64_rest();
    }
    let mut whole: u64 = mantissa;
    if exponent >= 1075 {
        let steps = exponent - 1075;
        let mut j: u64 = 0;
        while j < steps
            invariant
                j <= steps <= 11,
                HIDDEN_BIT <= mantissa < 2 * HIDDEN_BIT,
                whole == mantissa * pow2(j as nat),
                pow2(j as nat) <= pow2(11),
                pow2(11) == 2048,
            decreases steps - j,
        {
            proof {
                lemma_pow2_unfold((j + 1) as nat);
                if j + 1 < 11 {
                    lemma_pow2_strictly_increases((j + 1) as nat, 11);
                }
                assert(mantissa * pow2((j + 1) as nat) == 2 * (mantissa * pow2(j as nat)))
                    by (nonlinear_arith)
                    requires
                        pow2((j + 1) as nat) == 2 * pow2(j as nat),
                ;
                assert(mantissa * pow2((j + 1) as nat) <= mantissa * 2048) by (nonlinear_arith)
                    requires
                        pow2((j + 1) as nat) <= 2048,
                ;
            }
            whole = whole * 2;
            j = j + 1;
        }
    } else {
        let steps = 1075 - exponent;
        let mut j: u64 = 0;
        while j < steps
            invariant
                j <= steps <= 52,
                whole == mantissa as nat / pow2(j as nat),
            decreases steps - j,
        {
            proof {
                lemma_pow2_unfold((j + 1) as nat);
                lemma_pow2_pos(j as nat);
                lemma_div_denominator(mantissa as int, pow2(j as nat) as int, 2);
                assert(pow2(j as nat) * 2 == pow2((j + 1) as nat));
            }
            whole = whole / 2;
            j = j + 1;
        }
    }
    if whole > usize::MAX as u64 {
        Some(usize::MAX)
    } else {
        Some(whole as usize)
    }
}

/// How often a number asks for something to be repeated.
pub fn number_repeat_count(bits: u64) -> (count: usize)
    ensures
        count == repeat_count(bits),
{
    match number_index(bits) {
        Some(count) => count,
        None => 0,
    }
}

/// The number of binary digits of a whole number.
pub open spec fn bit_length(n: nat) -> nat
    decreases n,
{
    if n == 0 {
        0
    } else {
        1 + bit_length(n / 2)
    }
}

/// The pattern of the double nearest to a whole number. A whole number of
/// at most fifty-three binary digits is a double itself. A longer one keeps
/// its fifty-three leading digits, and counts one up where what it drops is
/// more than half a step, or is half a step and the kept digits are odd.
/// From two to the power 1024 on the double is infinity; the formula gives
/// infinity by itself where counting up carries that far.
pub open spec fn nearest_double(n: nat) -> u64 {
    if n == 0 {
        0
    } else {
        let exponent = (bit_length(n) - 1) as nat;
        if exponent >= 1024 {
            INFINITY
        } else if exponent <= 52 {
            ((exponent + 1023) * pow2(52) + n * pow2((52 - exponent) as nat) - pow2(52)) as u64
        } else {
            let dropped = (exponent - 52) as nat;
            let kept = n / pow2(dropped);
            let rest = n % pow2(dropped);
            let half = pow2((dropped - 1) as nat);
            let up: nat = if rest > half || (rest == half && kept % 2 == 1) {
                1
            } else {
                0
            };
            ((exponent + 1023) * pow2(52) + kept + up - pow2(52)) as u64
        }
    }
}

/// The whole number that the lowest `k` binary digits stand for, the lowest
/// digit first in the sequence.
pub open spec fn low_value(bits: Seq<bool>, k: int) -> nat
    decreases k,
{
    if k <= 0 {
        0
    } else {
        low_value(bits, k - 1) + if bits[k - 1] {
            pow2((k - 1) as nat)
        } else {
            0
        }
    }
}

/// The whole number that the binary digits from place `k` on stand for,
/// taken as if place `k` were the lowest.
pub open spec fn high_value(bits: Seq<bool>, k: int) -> nat
    decreases bits.len() - k,
{
    if k >= bits.len() || k < 0 {
        0
    } else {
        (if bits[k] {
            1nat
        } else {
            0nat
        }) + 2 * high_value(bits, k + 1)
    }
}

proof fn lemma_low_bound(bits: Seq<bool>, k: int)
    requires
        0 <= k,
    ensures
        low_value(bits, k) < pow2(k as nat),
    decreases k,
{
    if k > 0 {
        lemma_low_bound(bits, k - 1);
        lemma_pow2_unfold(k as nat);
    } else {
        lemma2_to64();
    }
}

proof fn lemma_low_prefix(a: Seq<bool>, b: Seq<bool>, k: int)
    requires
        0 <= k <= a.len(),
        k <= b.len(),
        forall|i: int| 0 <= i < k ==> a[i] == b[i],
    ensures
        low_value(a, k) == low_value(b, k),
    decreases k,
{
    if k > 0 {
        lemma_low_prefix(a, b, k - 1);
    }
}

proof fn lemma_high_bound(bits: Seq<bool>, k: int)
    requires
        0 <= k <= bits.len(),
    ensures
        high_value(bits, k) < pow2((bits.len() - k) as nat),
    decreases bits.len() - k,
{
    if k < bits.len() {
        lemma_high_bound(bits, k + 1);
        lemma_pow2_unfold((bits.len() - k) as nat);
    } else {
        lemma2_to64();
    }
}

/// The digits above place `k` and those below it make up the whole.
proof fn lemma_split(bits: Seq<bool>, k: int)
    requires
        0 <= k <= bits.len(),
    ensures
        low_value(bits, bits.len() as int) == high_value(bits, k) * pow2(k as nat) + low_value(
            bits,
            k,
        ),
    decreases bits.len() - k,
{
    if k < bits.len() {
        lemma_split(bits, k + 1);
        lemma_pow2_unfold((k + 1) as nat);
        let h = high_value(bits, k + 1);
        let p = pow2(k as nat);
        let b: nat = if bits[k] {
            1
        } else {
            0
        };
        assert(h * (2 * p) + (low_value(bits, k) + b * p) == (b + 2 * h) * p + low_value(bits, k))
            by (nonlinear_arith);
        assert(b * p == if bits[k] {
            p
        } else {
            0
        }) by (nonlinear_arith)
            requires
                b == if bits[k] {
                    1nat
                } else {
                    0nat
                },
        ;
    } else {
        assert(high_value(bits, k) == 0);
        assert(high_value(bits, k) * pow2(k as nat) == 0) by (nonlinear_arith)
            requires
                high_value(bits, k) == 0,
        ;
    }
}

proof fn lemma_bit_length_between(n: nat, len: nat)
    requires
        len >= 1,
        pow2((len - 1) as nat) <= n < pow2(len),
    ensures
        bit_length(n) == len,
    decreases len,
{
    lemma2_to64();
    lemma_pow2_unfold(len);
    if len > 1 {
        lemma_pow2_unfold((len - 1) as nat);
        lemma_bit_length_between(n / 2, (len - 1) as nat);
    } else {
        assert(n == 1);
        assert(bit_length(1) == 1 + bit_length(0));
    }
}

proof fn lemma_bit_length_at_least(n: nat, len: nat)
    requires
        pow2(len) <= n,
    ensures
        bit_length(n) >= len + 1,
    decreases len,
{
    lemma2_to64();
    lemma_pow2_pos(len);
    if len > 0 {
        lemma_pow2_unfold(len);
        lemma_bit_length_at_least(n / 2, (len - 1) as nat);
    }
}

/// The double nearest to the whole number whose binary digits are `bits`,
/// the lowest first and the highest set.
fn round_bits(bits: &Vec<bool>) -> (pattern: u64)
    requires
        bits@.len() >= 1,
        bits@[bits@.len() - 1],
    ensures
        pattern == nearest_double(low_value(bits@, bits@.len() as int)),
{
    let len = bits.len();
    let ghost n = low_value(bits@, len as int);
    let ghost exponent = (len - 1) as nat;
    proof {
        lemma2_to64();
        lemma2_to64_rest();
        lemma_low_bound(bits@, len as int);
        lemma_low_bound(bits@, len - 1);
        lemma_bit_length_between(n, len as nat);
    }
    if len - 1 >= 1024 {
        return INFINITY;
    }
    let dropped: usize = if len > 53 {
        len - 53
    } else {
        0
    };
    // The digits that are kept, read from the top down.
    let mut kept: u64 = 0;
    let mut i: usize = len;
    while i > dropped
        invariant
            dropped <= i <= len,
            len == bits@.len(),
            len - dropped <= 53,
            kept == high_value(bits@, i as int),
            kept < pow2((len - i) as nat),
            pow2(53) == 0x20_0000_0000_0000,
        decreases i,
    {
        proof {
            lemma_high_bound(bits@, i - 1);
            if len - (i - 1) < 53 {
                lemma_pow2_strictly_increases((len - (i - 1)) as nat, 53);
            }
        }
        i = i - 1;
        kept = kept * 2 + if bits[i] {
            1
        } else {
            0
        };
    }
    proof {
        lemma_split(bits@, dropped as int);
        lemma_high_bound(bits@, dropped as int);
        if len - dropped < 53 {
            lemma_pow2_strictly_increases((len - dropped) as nat, 53);
        }
    }
    let biased: u64 = (len - 1) as u64 + 1023;
    assert(biased * HIDDEN_BIT <= 2046 * HIDDEN_BIT) by (nonlinear_arith)
        requires
            biased <= 2046,
    ;
    if len <= 53 {
        // Nothing is dropped: the digits move up to the top of the mantissa.
        proof {
            assert(kept == n) by {
                assert(high_value(bits@, 0) * pow2(0) == high_value(bits@, 0)) by (nonlinear_arith)
                    requires
                        pow2(0) == 1,
                ;
            }
        }
        let steps = 53 - len;
        let mut moved: u64 = kept;
        let mut j: usize = 0;
        while j < steps
            invariant
                j <= steps,
                steps == 53 - len,
                1 <= len <= 53,
                moved == n * pow2(j as nat),
                n < pow2(len as nat),
                moved < pow2((len + j) as nat),
                pow2(53) == 0x20_0000_0000_0000,
            decreases steps - j,
        {
            proof {
                lemma_pow2_unfold((j + 1) as nat);
                lemma_pow2_unfold((len + j + 1) as nat);
                if len + j + 1 < 53 {
                    lemma_pow2_strictly_increases((len + j + 1) as nat, 53);
                }
                assert(n * pow2((j + 1) as nat) == 2 * (n * pow2(j as nat))) by (nonlinear_arith)
                    requires
                        pow2((j + 1) as nat) == 2 * pow2(j as nat),
                ;
            }
            moved = moved * 2;
            j = j + 1;
        }
        proof {
            lemma_pow2_adds((len - 1) as nat, steps as nat);
            assert(n * pow2(steps as nat) >= pow2((len - 1) as nat) * pow2(steps as nat))
                by (nonlinear_arith)
                requires
                    n >= pow2((len - 1) as nat),
            ;
        }
        biased * HIDDEN_BIT + moved - HIDDEN_BIT
    } else {
        // The half-step digit, and whether anything is set below it.
        let half_set = bits[dropped - 1];
        let mut below: bool = false;
        let mut k: usize = 0;
        while k < dropped - 1
            invariant
                k <= dropped - 1,
                dropped <= bits@.len(),
                below == (low_value(bits@, k as int) > 0),
            decreases dropped - 1 - k,
        {
            proof {
                lemma_pow2_pos(k as nat);
            }
            if bits[k] {
                below = true;
            }
            k = k + 1;
        }
        let up: u64 = if half_set && (below || kept % 2 == 1) {
            1
        } else {
            0
        };
        proof {
            let rest = low_value(bits@, dropped as int);
            lemma_low_bound(bits@, dropped as int);
            lemma_low_bound(bits@, dropped - 1);
            lemma_pow2_pos(dropped as nat);
            assert(n == kept * pow2(dropped as nat) + rest);
            assert(n == pow2(dropped as nat) * kept + rest) by (nonlinear_arith)
                requires
                    n == kept * pow2(dropped as nat) + rest,
            ;
            lemma_fundamental_div_mod_converse(
                n as int,
                pow2(dropped as nat) as int,
                kept as int,
                rest as int,
            );
            assert(kept >= pow2(52)) by {
                // the top digit is among those kept
                lemma_pow2_adds(52, dropped as nat);
                assert(n >= pow2((len - 1) as nat));
                assert(pow2((len - 1) as nat) == pow2(52) * pow2(dropped as nat));
                if kept < pow2(52) {
                    assert(kept * pow2(dropped as nat) + pow2(dropped as nat) <= pow2(52) * pow2(
                        dropped as nat,
                    )) by (nonlinear_arith)
                        requires
                            kept + 1 <= pow2(52),
                    ;
                }
            }
        }
        biased * HIDDEN_BIT + kept + up - HIDDEN_BIT
    }
}

/// The pattern of the double nearest to `n`.
pub fn number_from_usize(n: usize) -> (pattern: u64)
    ensures
        pattern == nearest_double(n as nat),
{
    if n == 0 {
        return 0;
    }
    let mut bits: Vec<bool> = Vec::new();
    let mut rest: usize = n;
    proof {
        lemma2_to64();
        assert(rest * pow2(0) == rest) by (nonlinear_arith)
            requires
                pow2(0) == 1,
        ;
    }
    while rest > 0
        invariant
            n == rest * pow2(bits@.len()) + low_value(bits@, bits@.len() as int),
            rest == 0 ==> bits@.len() >= 1 && bits@[bits@.len() - 1],
        decreases rest,
    {
        let ghost before = bits@;
        let ghost len = bits@.len();
        bits.push(rest % 2 == 1);
        proof {
            lemma_low_prefix(before, bits@, len as int);
            lemma_pow2_unfold((len + 1) as nat);
            let b: nat = if rest % 2 == 1 {
                1
            } else {
                0
            };
            assert(rest * pow2(len) == (rest / 2) * (2 * pow2(len)) + b * pow2(len))
                by (nonlinear_arith)
                requires
                    rest == 2 * (rest / 2) + b,
            ;
            assert(b * pow2(len) == if rest % 2 == 1 {
                pow2(len)
            } else {
                0
            }) by (nonlinear_arith)
                requires
                    b == if rest % 2 == 1 {
                        1nat
                    } else {
                        0nat
                    },
            ;
        }
        rest = rest / 2;
    }
    assert(n == low_value(bits@, bits@.len() as int)) by (nonlinear_arith)
        requires
            n == rest * pow2(bits@.len()) + low_value(bits@, bits@.len() as int),
            rest == 0,
    ;
    round_bits(&bits)
}

/// The value of a decimal digit character.
pub open spec fn digit_value(c: char) -> nat {
    (c as nat - '0' as nat) as nat
}

/// Whether every character is one of the ten ASCII digits.
pub open spec fn all_digits(text: Seq<char>) -> bool {
    forall|i: int| 0 <= i < text.len() ==> '0' <= #[trigger] text[i] <= '9'
}

/// The whole number that a run of decimal digits stands for.
pub open spec fn decimal_value(text: Seq<char>) -> nat
    decreases text.len(),
{
    if text.len() == 0 {
        0
    } else {
        10 * decimal_value(text.drop_last()) + digit_value(text.last())
    }
}

/// The whole number that a list of digits stands for, the highest first.
pub open spec fn digits_number(digits: Seq<u8>) -> nat
    decreases digits.len(),
{
    if digits.len() == 0 {
        0
    } else {
        10 * digits_number(digits.drop_last()) + digits.last() as nat
    }
}

/// The digits of half the number, and whether one was left over.
fn halve(digits: &Vec<u8>) -> (res: (Vec<u8>, bool, bool))
    requires
        forall|i: int| 0 <= i < digits@.len() ==> digits@[i] < 10,
    ensures
        forall|i: int| 0 <= i < res.0@.len() ==> res.0@[i] < 10,
        digits_number(digits@) == 2 * digits_number(res.0@) + if res.1 {
            1nat
        } else {
            0nat
        },
        res.2 == (digits_number(res.0@) == 0),
{
    let mut half: Vec<u8> = Vec::new();
    let mut carry: u8 = 0;
    let mut zero = true;
    let mut i: usize = 0;
    assert(digits@.take(0) =~= Seq::<u8>::empty());
    while i < digits.len()
        invariant
            i <= digits@.len(),
            carry <= 1,
            forall|j: int| 0 <= j < digits@.len() ==> digits@[j] < 10,
            forall|j: int| 0 <= j < half@.len() ==> half@[j] < 10,
            digits_number(digits@.take(i as int)) == 2 * digits_number(half@) + carry,
            zero == (digits_number(half@) == 0),
        decreases digits@.len() - i,
    {
        let current = carry * 10 + digits[i];
        let ghost before = half@;
        half.push(current / 2);
        carry = current % 2;
        proof {
            assert(half@.drop_last() =~= before);
            assert(digits@.take(i + 1).drop_last() =~= digits@.take(i as int));
            assert(digits@.take(i + 1).last() == digits@[i as int]);
        }
        if current / 2 != 0 {
            zero = false;
        }
        i = i + 1;
    }
    assert(digits@.take(digits@.len() as int) =~= digits@);
    (half, carry == 1, zero)
}

/// Reads a run of decimal digits as a number: the pattern of the double
/// nearest to the whole number they stand for. Text that is empty or holds
/// anything but digits is no number.
pub fn number_from_digits(text: &str) -> (pattern: Option<u64>)
    ensures
        pattern is Some <==> text@.len() > 0 && all_digits(text@),
        pattern matches Some(bits) ==> bits == nearest_double(decimal_value(text@)),
{
    let mut digits: Vec<u8> = Vec::new();
    let mut zero = true;
    for c in iter: text.chars()
        invariant
            iter.seq() == text@,
            digits@.len() == iter.index(),
            all_digits(text@.take(iter.index() as int)),
            forall|j: int| 0 <= j < digits@.len() ==> digits@[j] < 10,
            digits_number(digits@) == decimal_value(text@.take(iter.index() as int)),
            zero == (digits_number(digits@) == 0),
    {
        if !(c >= '0' && c <= '9') {
            proof {
                assert(text@[iter.index() as int] == c);
            }
            return None;
        }
        let ghost before = digits@;
        let ghost k = iter.index() as int;
        let d: u8 = ((c as u32) - ('0' as u32)) as u8;
        digits.push(d);
        if d != 0 {
            zero = false;
        }
        proof {
            assert(digits@.drop_last() =~= before);
            assert(text@.take(k + 1).drop_last() =~= text@.take(k));
            assert(text@.take(k + 1).last() == c);
            assert forall|j: int| 0 <= j < k + 1 implies '0' <= #[trigger] text@.take(k + 1)[j]
                <= '9' by {
                if j < k {
                    assert(text@.take(k)[j] == text@.take(k + 1)[j]);
                }
            }
        }
    }
    proof {
        assert(text@.take(text@.len() as int) =~= text@);
    }
    if digits.len() == 0 {
        return None;
    }
    if zero {
        return Some(0);
    }
    let ghost n = decimal_value(text@);
    let mut bits: Vec<bool> = Vec::new();
    proof {
        lemma2_to64();
        assert(digits_number(digits@) * pow2(0) == digits_number(digits@)) by (nonlinear_arith)
            requires
                pow2(0) == 1,
        ;
    }
    while !zero && bits.len() <= 1024
        invariant
            forall|j: int| 0 <= j < digits@.len() ==> digits@[j] < 10,
            zero == (digits_number(digits@) == 0),
            n == digits_number(digits@) * pow2(bits@.len()) + low_value(
                bits@,
                bits@.len() as int,
            ),
            n > 0,
            bits@.len() <= 1025,
            zero ==> bits@.len() >= 1 && bits@[bits@.len() - 1],
        decreases 1025 - bits@.len(),
    {
        let (half, odd, half_zero) = halve(&digits);
        let ghost before = bits@;
        let ghost len = bits@.len();
        let ghost whole = digits_number(digits@);
        bits.push(odd);
        proof {
            let rest = digits_number(half@);
            lemma_low_prefix(before, bits@, len as int);
            lemma_pow2_unfold((len + 1) as nat);
            let b: nat = if odd {
                1
            } else {
                0
            };
            assert(whole * pow2(len) == rest * (2 * pow2(len)) + b * pow2(len))
                by (nonlinear_arith)
                requires
                    whole == 2 * rest + b,
            ;
            assert(b * pow2(len) == if odd {
                pow2(len)
            } else {
                0
            }) by (nonlinear_arith)
                requires
                    b == if odd {
                        1nat
                    } else {
                        0nat
                    },
            ;
        }
        digits = half;
        zero = half_zero;
    }
    if !zero {
        proof {
            // Digits are left after 1025 halvings: the number is out of range.
            let rest = digits_number(digits@);
            assert(rest * pow2(1025) >= pow2(1025)) by (nonlinear_arith)
                requires
                    rest >= 1,
            ;
            lemma_bit_length_at_least(n, 1025);
        }
        return Some(INFINITY);
    }
    assert(n == low_value(bits@, bits@.len() as int)) by (nonlinear_arith)
        requires
            n == digits_number(digits@) * pow2(bits@.len()) + low_value(
                bits@,
                bits@.len() as int,
            ),
            digits_number(digits@) == 0,
    ;
    Some(round_bits(&bits))
}

} // verus!
