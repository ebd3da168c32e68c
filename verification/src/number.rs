//! Numbers: unsigned integers in decimal and hexadecimal text, and IEEE 754
//! numbers held by their bit patterns.

use vstd::arithmetic::div_mod::*;
use vstd::arithmetic::power2::*;
use vstd::prelude::*;

verus! {

/// The size of a non-negative IEEE 754 number in units of its format's least
/// positive number. `magnitude` is the bit pattern without the sign bit, and
/// `p` is the number of fraction bits (52 in a double, 23 in a single); the
/// bits above the fraction are the biased exponent.
pub open spec fn ieee_size(magnitude: nat, p: nat) -> nat {
    let exponent = magnitude / pow2(p);
    let fraction = magnitude % pow2(p);
    if exponent == 0 {
        fraction
    } else {
        (pow2(p) + fraction) * pow2((exponent - 1) as nat)
    }
}

/// Larger bit patterns stand for larger numbers.
pub proof fn ieee_size_increasing(a: nat, b: nat, p: nat)
    requires
        a < b,
    ensures
        ieee_size(a, p) < ieee_size(b, p),
{
    let d = pow2(p);
    lemma_pow2_pos(p);
    let (ea, fa) = (a / d, a % d);
    let (eb, fb) = (b / d, b % d);
    lemma_fundamental_div_mod(a as int, d as int);
    lemma_fundamental_div_mod(b as int, d as int);
    lemma_div_is_ordered(a as int, b as int, d as int);
    assert(ea <= eb);
    assert(0 <= fa < d && 0 <= fb < d);
    if ea == eb {
        assert(fa < fb) by (nonlinear_arith)
            requires
                a == d * ea + fa,
                b == d * eb + fb,
                a < b,
                ea == eb,
        ;
        if ea > 0 {
            let k = pow2((ea - 1) as nat);
            lemma_pow2_pos((ea - 1) as nat);
            assert((d + fa) * k < (d + fb) * k) by (nonlinear_arith)
                requires
                    fa < fb,
                    k > 0,
            ;
        }
    } else {
        let kb = pow2((eb - 1) as nat);
        lemma_pow2_pos((eb - 1) as nat);
        assert((d + fb) * kb >= d * kb) by (nonlinear_arith)
            requires
                fb >= 0,
                kb > 0,
        ;
        assert(d * kb >= d) by (nonlinear_arith)
            requires
                kb >= 1,
                d > 0,
        ;
        if ea > 0 {
            let ka = pow2((ea - 1) as nat);
            lemma_pow2_pos((ea - 1) as nat);
            lemma_pow2_adds(1, (ea - 1) as nat);
            assert(pow2(1) == 2) by {
                lemma2_to64();
            }
            if ea < eb - 1 {
                lemma_pow2_strictly_increases(ea, (eb - 1) as nat);
            }
            assert(2 * ka <= kb);
            assert((d + fa) * ka < d * kb) by (nonlinear_arith)
                requires
                    fa < d,
                    ka > 0,
                    2 * ka <= kb,
                    d > 0,
            ;
        }
    }
}

/// Whether a double is neither infinite nor a NaN: its exponent bits are not
/// all set.
pub open spec fn double_finite(bits: u64) -> bool {
    (bits / 0x10_0000_0000_0000) % 2048 != 2047
}

/// The size of a double, without its sign, in units of 2 to the power -1074.
pub open spec fn double_size(bits: u64) -> nat {
    ieee_size((bits % 0x8000_0000_0000_0000) as nat, 52)
}

/// Whether a double is a finite number from `-limit` to `limit`.
pub open spec fn double_within(bits: u64, limit: nat) -> bool {
    double_finite(bits) && double_size(bits) <= limit * pow2(1074)
}

/// The bit patterns of 90 and 180.
pub const DOUBLE_90: u64 = 0x4056_8000_0000_0000;

pub const DOUBLE_180: u64 = 0x4066_8000_0000_0000;

proof fn double_limits()
    ensures
        double_size(DOUBLE_90) == 90 * pow2(1074),
        double_size(DOUBLE_180) == 180 * pow2(1074),
{
    lemma2_to64();
    lemma2_to64_rest();
    assert(0x4056_8000_0000_0000nat / 0x10_0000_0000_0000nat == 1029);
    assert(0x4056_8000_0000_0000nat % 0x10_0000_0000_0000nat == 0x6_8000_0000_0000);
    assert(0x4066_8000_0000_0000nat / 0x10_0000_0000_0000nat == 1030);
    assert(0x4066_8000_0000_0000nat % 0x10_0000_0000_0000nat == 0x6_8000_0000_0000);
    lemma_pow2_adds(46, 1028);
    lemma_pow2_adds(46, 1029);
    lemma_pow2_adds(1, 1074);
    assert(double_size(DOUBLE_90) == 90 * pow2(1074)) by (nonlinear_arith)
        requires
            double_size(DOUBLE_90) == (pow2(52) + 0x6_8000_0000_0000) * pow2(1028),
            pow2(52) == 0x10_0000_0000_0000,
            pow2(46) == 0x4000_0000_0000,
            pow2(1074) == pow2(46) * pow2(1028),
    ;
    assert(double_size(DOUBLE_180) == 180 * pow2(1074)) by (nonlinear_arith)
        requires
            double_size(DOUBLE_180) == (pow2(52) + 0x6_8000_0000_0000) * pow2(1029),
            pow2(52) == 0x10_0000_0000_0000,
            pow2(46) == 0x4000_0000_0000,
            pow2(1) == 2,
            pow2(1075) == pow2(46) * pow2(1029),
            pow2(1075) == pow2(1) * pow2(1074),
    ;
}

/// Whether the double is a finite number of at most the size of `limit`.
fn double_at_most(bits: u64, limit: u64) -> (r: bool)
    requires
        limit < 0x7ff0_0000_0000_0000,
    ensures
        r == (double_finite(bits) && double_size(bits) <= double_size(limit)),
{
    let magnitude: u64 = bits % 0x8000_0000_0000_0000;
    proof {
        if magnitude <= limit {
            assert(magnitude / 0x10_0000_0000_0000 < 2047);
            assert(magnitude / 0x10_0000_0000_0000 == (bits / 0x10_0000_0000_0000) % 2048);
            if magnitude < limit {
                ieee_size_increasing(magnitude as nat, limit as nat, 52);
            }
        } else {
            ieee_size_increasing(limit as nat, magnitude as nat, 52);
        }
    }
    magnitude <= limit
}

/// Tests whether the double is a latitude: a finite number from -90 to 90.
pub fn is_latitude(bits: u64) -> (r: bool)
    ensures
        r == double_within(bits, 90),
{
    proof {
        double_limits();
    }
    double_at_most(bits, DOUBLE_90)
}

/// Tests whether the double is a longitude: a finite number from -180 to 180.
pub fn is_longitude(bits: u64) -> (r: bool)
    ensures
        r == double_within(bits, 180),
{
    proof {
        double_limits();
    }
    double_at_most(bits, DOUBLE_180)
}

/// Whether a single is neither infinite nor a NaN.
pub open spec fn single_finite(bits: u32) -> bool {
    (bits / 0x80_0000) % 256 != 255
}

/// The size of a single, without its sign, in units of 2 to the power -149.
pub open spec fn single_size(bits: u32) -> nat {
    ieee_size((bits % 0x8000_0000) as nat, 23)
}

/// Whether the sign bit of a single is set.
pub open spec fn single_negative(bits: u32) -> bool {
    bits >= 0x8000_0000
}

/// The value of a finite single in units of 2 to the power -149.
pub open spec fn single_value(bits: u32) -> int {
    if single_negative(bits) {
        -(single_size(bits) as int)
    } else {
        single_size(bits) as int
    }
}

/// Whether a single is a finite number from 0 to `limit`.
pub open spec fn single_up_to(bits: u32, limit: nat) -> bool {
    single_finite(bits) && 0 <= single_value(bits) <= limit * pow2(149)
}

/// The bit patterns of 1, 4 and 1000, and of the fixed line widths 0.5 and 1.5.
pub const SINGLE_1: u32 = 0x3f80_0000;

pub const SINGLE_4: u32 = 0x4080_0000;

pub const SINGLE_1000: u32 = 0x447a_0000;

pub const SINGLE_HALF: u32 = 0x3f00_0000;

pub const SINGLE_1_AND_HALF: u32 = 0x3fc0_0000;

proof fn single_limits()
    ensures
        single_size(0) == 0,
        single_size(SINGLE_1) == pow2(149),
        single_size(SINGLE_1000) == 1000 * pow2(149),
{
    lemma2_to64();
    assert(0x3f80_0000nat / 0x80_0000nat == 127);
    assert(0x3f80_0000nat % 0x80_0000nat == 0);
    assert(0x447a_0000nat / 0x80_0000nat == 136);
    assert(0x447a_0000nat % 0x80_0000nat == 0x7a_0000);
    lemma_pow2_adds(23, 126);
    lemma_pow2_adds(14, 135);
    assert(single_size(SINGLE_1000) == 1000 * pow2(149)) by (nonlinear_arith)
        requires
            single_size(SINGLE_1000) == (pow2(23) + 0x7a_0000) * pow2(135),
            pow2(23) == 0x80_0000,
            pow2(14) == 0x4000,
            pow2(149) == pow2(14) * pow2(135),
    ;
}

/// Tests whether the single is a stroke weight: a finite number from 0 to 1000.
pub fn is_weight(bits: u32) -> (r: bool)
    ensures
        r == single_up_to(bits, 1000),
{
    let magnitude: u32 = bits % 0x8000_0000;
    proof {
        single_limits();
        if magnitude > 0 {
            ieee_size_increasing(0, magnitude as nat, 23);
        }
        if magnitude <= SINGLE_1000 {
            assert(magnitude / 0x80_0000 == (bits / 0x80_0000) % 256);
            assert(magnitude / 0x80_0000 < 255);
            if magnitude < SINGLE_1000 {
                ieee_size_increasing(magnitude as nat, SINGLE_1000 as nat, 23);
            }
        } else {
            ieee_size_increasing(SINGLE_1000 as nat, magnitude as nat, 23);
        }
    }
    magnitude <= SINGLE_1000 && (bits < 0x8000_0000 || magnitude == 0)
}

/// The fixed line widths are stroke weights.
pub proof fn fixed_widths_are_weights()
    ensures
        single_up_to(0, 1000),
        single_up_to(SINGLE_HALF, 1000),
        single_up_to(SINGLE_1, 1000),
        single_up_to(SINGLE_1_AND_HALF, 1000),
        single_up_to(SINGLE_4, 1000),
{
    single_limits();
    ieee_size_increasing(0, SINGLE_1000 as nat, 23);
    ieee_size_increasing(SINGLE_HALF as nat, SINGLE_1000 as nat, 23);
    ieee_size_increasing(SINGLE_1 as nat, SINGLE_1000 as nat, 23);
    ieee_size_increasing(SINGLE_1_AND_HALF as nat, SINGLE_1000 as nat, 23);
    ieee_size_increasing(SINGLE_4 as nat, SINGLE_1000 as nat, 23);
}

/// Whether a single is a NaN.
pub open spec fn single_nan(bits: u32) -> bool {
    bits % 0x8000_0000 > 0x7f80_0000
}

/// Whether a single is greater than 1. An infinity is, by its bit pattern, the
/// size next above the greatest finite number; a NaN is not greater than
/// anything.
pub open spec fn single_over_one(bits: u32) -> bool {
    !single_nan(bits) && single_value(bits) > pow2(149)
}

/// Tests whether the single is greater than 1.
pub fn is_over_one(bits: u32) -> (r: bool)
    ensures
        r == single_over_one(bits),
{
    let magnitude: u32 = bits % 0x8000_0000;
    proof {
        single_limits();
        lemma_pow2_pos(149);
        if magnitude < SINGLE_1 {
            ieee_size_increasing(magnitude as nat, SINGLE_1 as nat, 23);
        } else if magnitude > SINGLE_1 {
            ieee_size_increasing(SINGLE_1 as nat, magnitude as nat, 23);
        }
    }
    bits < 0x8000_0000 && magnitude > SINGLE_1 && magnitude <= 0x7f80_0000
}

// ---------------------------------------------------------------------------
// Integers as text
// ---------------------------------------------------------------------------

/// Why a text is not an unsigned integer of the wanted range.
#[derive(Clone, Copy, Debug, PartialEq, Eq, Structural)]
pub enum IntError {
    /// The text is empty.
    Empty,
    /// A character is not a decimal digit.
    InvalidDigit,
    /// The number is greater than the largest one accepted.
    TooLarge,
}

/// Whether `c` is a decimal digit.
pub open spec fn is_digit(c: char) -> bool {
    '0' <= c <= '9'
}

/// The number that a decimal digit stands for.
pub open spec fn digit_value(c: char) -> nat {
    (c as u8 - '0' as u8) as nat
}

/// The number that a run of decimal digits stands for.
pub open spec fn digits_value(s: Seq<char>) -> nat
    decreases s.len(),
{
    if s.len() == 0 {
        0
    } else {
        digits_value(s.drop_last()) * 10 + digit_value(s.last())
    }
}

/// Reads decimal digits from the left; the first character that is no digit,
/// or the first that takes the number past `max`, ends the reading.
pub open spec fn read_digits(s: Seq<char>, max: nat) -> Result<nat, IntError>
    decreases s.len(),
{
    if s.len() == 0 {
        Ok(0)
    } else {
        match read_digits(s.drop_last(), max) {
            Err(e) => Err(e),
            Ok(v) => if !is_digit(s.last()) {
                Err(IntError::InvalidDigit)
            } else if v * 10 + digit_value(s.last()) > max {
                Err(IntError::TooLarge)
            } else {
                Ok(v * 10 + digit_value(s.last()))
            },
        }
    }
}

/// The digits of an unsigned integer: a `+` in front of them is skipped.
pub open spec fn after_plus(s: Seq<char>) -> Seq<char> {
    if s.len() > 1 && s[0] == '+' {
        s.skip(1)
    } else {
        s
    }
}

/// The unsigned integer up to `max` that the whole text spells.
pub open spec fn unsigned(s: Seq<char>, max: nat) -> Result<nat, IntError> {
    if s.len() == 0 {
        Err(IntError::Empty)
    } else {
        read_digits(after_plus(s), max)
    }
}

/// A text is read as a number exactly where it is not empty, all of it (but
/// for a `+` in front) is digits, and the number is at most `max`; the result
/// is that number.
pub proof fn unsigned_characterized(s: Seq<char>, max: nat)
    ensures
        unsigned(s, max) is Ok <==> {
            &&& s.len() > 0
            &&& forall|i: int| 0 <= i < after_plus(s).len() ==> is_digit(#[trigger] after_plus(s)[i])
            &&& digits_value(after_plus(s)) <= max
        },
        unsigned(s, max) matches Ok(v) ==> v == digits_value(after_plus(s)) && v <= max,
        unsigned(s, max) == Err::<nat, IntError>(IntError::Empty) <==> s.len() == 0,
{
    read_digits_characterized(after_plus(s), max);
}

proof fn read_digits_characterized(s: Seq<char>, max: nat)
    ensures
        read_digits(s, max) is Ok <==> (forall|i: int|
            0 <= i < s.len() ==> is_digit(#[trigger] s[i])) && digits_value(s) <= max,
        read_digits(s, max) matches Ok(v) ==> v == digits_value(s),
        read_digits(s, max) != Err::<nat, IntError>(IntError::Empty),
    decreases s.len(),
{
    if s.len() > 0 {
        let front = s.drop_last();
        read_digits_characterized(front, max);
        if read_digits(s, max) is Ok {
            assert forall|i: int| 0 <= i < s.len() implies is_digit(#[trigger] s[i]) by {
                if i < s.len() - 1 {
                    assert(s[i] == front[i]);
                }
            }
        }
        if (forall|i: int| 0 <= i < s.len() ==> is_digit(#[trigger] s[i])) && digits_value(s)
            <= max {
            assert forall|i: int| 0 <= i < front.len() implies is_digit(#[trigger] front[i]) by {
                assert(s[i] == front[i]);
            }
            assert(is_digit(s[s.len() - 1]));
        }
    }
}

/// Reads the whole of `s` as an unsigned integer of at most `max`.
pub fn parse_unsigned(s: &[char], max: u64) -> (r: Result<u64, IntError>)
    ensures
        match r {
            Ok(v) => unsigned(s@, max as nat) == Ok::<nat, IntError>(v as nat) && v <= max,
            Err(e) => unsigned(s@, max as nat) == Err::<nat, IntError>(e),
        },
{
    if s.len() == 0 {
        return Err(IntError::Empty);
    }
    let start: usize = if s.len() > 1 && s[0] == '+' { 1 } else { 0 };
    let ghost digits = after_plus(s@);
    assert(digits =~= s@.skip(start as int));
    let mut v: u64 = 0;
    let mut i: usize = start;
    while i < s.len()
        invariant
            start <= i <= s@.len(),
            digits == s@.skip(start as int),
            v <= max,
            read_digits(digits.take(i - start), max as nat) == Ok::<nat, IntError>(v as nat),
            digits == after_plus(s@),
            s@.len() > 0,
        decreases s@.len() - i,
    {
        assert(digits.take(i + 1 - start).drop_last() =~= digits.take(i - start));
        let c = s[i];
        if c < '0' || c > '9' {
            proof {
                read_digits_prefix(digits, i + 1 - start, max as nat);
            }
            return Err(IntError::InvalidDigit);
        }
        let d: u64 = (c as u8 - '0' as u8) as u64;
        if v > max / 10 || d > max - v * 10 {
            proof {
                read_digits_prefix(digits, i + 1 - start, max as nat);
            }
            return Err(IntError::TooLarge);
        }
        v = v * 10 + d;
        i += 1;
    }
    assert(digits.take(i - start) =~= digits);
    Ok(v)
}

/// An error in a prefix is the error of the whole.
proof fn read_digits_prefix(s: Seq<char>, n: int, max: nat)
    requires
        0 <= n <= s.len(),
        read_digits(s.take(n), max) is Err,
    ensures
        read_digits(s, max) == read_digits(s.take(n), max),
    decreases s.len(),
{
    if n < s.len() {
        assert(s.drop_last().take(n) =~= s.take(n));
        read_digits_prefix(s.drop_last(), n, max);
    } else {
        assert(s.take(n) =~= s);
    }
}

/// The decimal digit for a number below ten.
pub open spec fn digit_char(d: nat) -> char {
    (('0' as u8 + d) as u8) as char
}

/// A number in decimal, without leading zeros.
pub open spec fn decimal(n: nat) -> Seq<char>
    decreases n,
{
    if n < 10 {
        seq![digit_char(n)]
    } else {
        decimal(n / 10).push(digit_char(n % 10))
    }
}

/// Writes a number in decimal.
pub fn to_decimal(n: u64) -> (r: String)
    ensures
        r@ == decimal(n as nat),
    decreases n,
{
    let d: u8 = (n % 10) as u8;
    if n < 10 {
        let mut r = String::new();
        r.push((48 + d) as char);
        assert(r@ =~= decimal(n as nat));
        r
    } else {
        let mut r = to_decimal(n / 10);
        r.push((48 + d) as char);
        r
    }
}

/// A number written in decimal reads back as that number.
pub proof fn decimal_reads_back(n: nat, max: nat)
    requires
        n <= max,
    ensures
        unsigned(decimal(n), max) == Ok::<nat, IntError>(n),
{
    decimal_digits(n, max);
    assert(after_plus(decimal(n)) == decimal(n)) by {
        assert(is_digit(decimal(n)[0]));
    }
}

/// A number in decimal has only digits.
pub proof fn decimal_has_digits(n: nat)
    ensures
        forall|i: int| 0 <= i < decimal(n).len() ==> is_digit(#[trigger] decimal(n)[i]),
    decreases n,
{
    if n >= 10 {
        decimal_has_digits(n / 10);
        let s = decimal(n);
        assert forall|i: int| 0 <= i < s.len() implies is_digit(#[trigger] s[i]) by {
            if i < s.len() - 1 {
                assert(s[i] == decimal(n / 10)[i]);
            }
        }
    }
}

proof fn decimal_digits(n: nat, max: nat)
    requires
        n <= max,
    ensures
        decimal(n).len() > 0,
        is_digit(decimal(n)[0]),
        read_digits(decimal(n), max) == Ok::<nat, IntError>(n),
    decreases n,
{
    let s = decimal(n);
    if n < 10 {
        assert(s.drop_last() =~= Seq::empty());
        assert(read_digits(s.drop_last(), max) == Ok::<nat, IntError>(0));
    } else {
        decimal_digits(n / 10, max);
        assert(s.drop_last() =~= decimal(n / 10));
    }
}

/// The hexadecimal digit for a number below sixteen.
pub open spec fn hex_char(d: nat) -> char {
    if d < 10 {
        digit_char(d)
    } else {
        (('a' as u8 + (d - 10)) as u8) as char
    }
}

/// The last `width` hexadecimal digits of a number, with leading zeros.
pub open spec fn hex(n: nat, width: nat) -> Seq<char>
    decreases width,
{
    if width == 0 {
        Seq::empty()
    } else {
        hex(n / 16, (width - 1) as nat).push(hex_char(n % 16))
    }
}

/// Writes the last `width` hexadecimal digits of a number.
pub fn to_hex(n: u64, width: u8) -> (r: String)
    ensures
        r@ == hex(n as nat, width as nat),
    decreases width,
{
    if width == 0 {
        String::new()
    } else {
        let mut r = to_hex(n / 16, width - 1);
        let d: u8 = (n % 16) as u8;
        if d < 10 {
            r.push((48 + d) as char);
        } else {
            r.push((87 + d) as char);
        }
        r
    }
}

/// A double is a latitude or a longitude by its bits: the sign aside, these are
/// ordered as the numbers are, and those of 90 and 180 are the greatest.
pub proof fn ranges_of_degrees(bits: u64)
    ensures
        double_within(bits, 90) <==> bits % 0x8000_0000_0000_0000 <= 0x4056_8000_0000_0000,
        double_within(bits, 180) <==> bits % 0x8000_0000_0000_0000 <= 0x4066_8000_0000_0000,
{
    double_limits();
    double_range(bits, DOUBLE_90);
    double_range(bits, DOUBLE_180);
}

proof fn double_range(bits: u64, limit: u64)
    requires
        limit < 0x7ff0_0000_0000_0000,
    ensures
        double_finite(bits) && double_size(bits) <= double_size(limit) <==> bits
            % 0x8000_0000_0000_0000 <= limit,
{
    let magnitude: u64 = bits % 0x8000_0000_0000_0000;
    if magnitude <= limit {
        assert(magnitude / 0x10_0000_0000_0000 < 2047);
        assert(magnitude / 0x10_0000_0000_0000 == (bits / 0x10_0000_0000_0000) % 2048);
        if magnitude < limit {
            ieee_size_increasing(magnitude as nat, limit as nat, 52);
        }
    } else {
        ieee_size_increasing(limit as nat, magnitude as nat, 52);
    }
}

/// A single is a weight by its bits: not negative, unless it is zero, and up to
/// those of 1000. It is over 1 by its bits too.
pub proof fn ranges_of_weights(bits: u32)
    ensures
        single_up_to(bits, 1000) <==> bits <= 0x447a_0000 || bits == 0x8000_0000,
        single_over_one(bits) <==> 0x3f80_0000 < bits <= 0x7f80_0000,
{
    let magnitude: u32 = bits % 0x8000_0000;
    single_limits();
    lemma_pow2_pos(149);
    if magnitude > 0 {
        ieee_size_increasing(0, magnitude as nat, 23);
    }
    if magnitude <= SINGLE_1000 {
        assert(magnitude / 0x80_0000 == (bits / 0x80_0000) % 256);
        assert(magnitude / 0x80_0000 < 255);
        if magnitude < SINGLE_1000 {
            ieee_size_increasing(magnitude as nat, SINGLE_1000 as nat, 23);
        }
    } else {
        ieee_size_increasing(SINGLE_1000 as nat, magnitude as nat, 23);
    }
    if magnitude < SINGLE_1 {
        ieee_size_increasing(magnitude as nat, SINGLE_1 as nat, 23);
    } else if magnitude > SINGLE_1 {
        ieee_size_increasing(SINGLE_1 as nat, magnitude as nat, 23);
    }
}

/// A text that is no number is refused for the first thing that is wrong with
/// it: a character that is no digit, or digits that stand for too much.
pub proof fn refusal_of_digits(a: Seq<char>, c: char, b: Seq<char>, max: nat)
    requires
        forall|i: int| 0 <= i < a.len() ==> is_digit(#[trigger] a[i]),
        digits_value(a) <= max,
    ensures
        !is_digit(c) ==> read_digits(a.push(c) + b, max) == Err::<nat, IntError>(
            IntError::InvalidDigit,
        ),
        is_digit(c) && digits_value(a) * 10 + (c as int - '0' as int) > max ==> read_digits(
            a.push(c) + b,
            max,
        ) == Err::<nat, IntError>(IntError::TooLarge),
    decreases b.len(),
{
    let s = a.push(c) + b;
    if b.len() == 0 {
        assert(s =~= a.push(c));
        assert(s.drop_last() =~= a);
        read_digits_characterized(a, max);
        assert(read_digits(a, max) == Ok::<nat, IntError>(digits_value(a)));
    } else {
        assert(s.drop_last() =~= a.push(c) + b.drop_last());
        refusal_of_digits(a, c, b.drop_last(), max);
    }
}

/// A number is its digits, ten times what stands before the last one and the
/// last one; written, it has no zero in front.
pub proof fn digits_stand_for_numbers(s: Seq<char>, d: nat, n: nat)
    requires
        d < 10,
    ensures
        digits_value(Seq::empty()) == 0,
        digits_value(s.push(digit_char(d))) == 10 * digits_value(s) + d,
        digit_char(d) as int == '0' as int + d,
        n > 0 ==> decimal(n)[0] != '0',
        digits_value(decimal(n)) == n,
{
    assert(s.push(digit_char(d)).drop_last() =~= s);
    decimal_value(n);
}

proof fn decimal_value(n: nat)
    ensures
        decimal(n).len() > 0,
        n > 0 ==> decimal(n)[0] != '0',
        digits_value(decimal(n)) == n,
    decreases n,
{
    let s = decimal(n);
    if n < 10 {
        assert(s.drop_last() =~= Seq::empty());
        assert(digits_value(s.drop_last()) == 0);
    } else {
        decimal_value(n / 10);
        assert(s.drop_last() =~= decimal(n / 10));
        assert(s[0] == decimal(n / 10)[0]);
    }
}

/// A number in hexadecimal has the digit of its remainder by 16 behind those of
/// its quotient.
pub proof fn hexadecimal_digits(n: nat, width: nat)
    ensures
        hex(n, 0) == Seq::<char>::empty(),
        hex(n, width + 1) == hex(n / 16, width).push("0123456789abcdef"@[(n % 16) as int]),
{
    reveal_strlit("0123456789abcdef");
    assert(hex(n, width + 1) == hex(n / 16, width).push(hex_char(n % 16)));
}

} // verus!
