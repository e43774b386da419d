//! Whole numbers in text: reading them in any radix and writing them in decimal or hexadecimal.
use vstd::prelude::*;
use crate::text::{all_digits, chars_of, is_digit, part, string_of};

verus! {

// ---------------------------------------------------------------------------
// Reading
// ---------------------------------------------------------------------------

/// What a character stands for as a digit: `0` to `9`, then the letters of either case; 36 and
/// above where it is no digit in any radix.
pub open spec fn digit_value(c: char) -> int {
    if '0' <= c <= '9' {
        c as int - '0' as int
    } else if 'a' <= c <= 'z' {
        c as int - 'a' as int + 10
    } else if 'A' <= c <= 'Z' {
        c as int - 'A' as int + 10
    } else {
        36
    }
}

/// What a character stands for as a digit.
pub fn value_of_digit(c: char) -> (r: u64)
    ensures
        r == digit_value(c),
{
    if '0' <= c && c <= '9' {
        (c as u64) - 48
    } else if 'a' <= c && c <= 'z' {
        (c as u64) - 97 + 10
    } else if 'A' <= c && c <= 'Z' {
        (c as u64) - 65 + 10
    } else {
        36
    }
}

/// Every character is a digit in the radix.
pub open spec fn digits_in(s: Seq<char>, radix: int) -> bool {
    forall|i: int| 0 <= i < s.len() ==> digit_value(#[trigger] s[i]) < radix
}

/// The number that a run of digits writes.
pub open spec fn digits_value(s: Seq<char>, radix: int) -> int
    decreases s.len(),
{
    if s.len() == 0 {
        0
    } else {
        digits_value(s.drop_last(), radix) * radix + digit_value(s.last())
    }
}

/// An unsigned number as text: an optional `+`, then one or more digits, and a value of at most
/// `max`.
pub open spec fn unsigned(s: Seq<char>, radix: int, max: int) -> Option<int> {
    let body = if s.len() > 0 && s[0] == '+' {
        s.skip(1)
    } else {
        s
    };
    if body.len() == 0 || !digits_in(body, radix) || digits_value(body, radix) > max {
        None
    } else {
        Some(digits_value(body, radix))
    }
}

/// More digits never make a smaller number.
pub proof fn lemma_prefix_value(s: Seq<char>, n: int, radix: int)
    requires
        0 <= n <= s.len(),
        2 <= radix <= 36,
    ensures
        0 <= digits_value(s.take(n), radix) <= digits_value(s, radix),
    decreases s.len(),
{
    if s.len() == 0 {
        assert(s.take(n) =~= s);
    } else {
        lemma_prefix_value(s.drop_last(), 0, radix);
        assert(s.drop_last().take(0) =~= Seq::<char>::empty());
        let v = digits_value(s.drop_last(), radix);
        assert(v * radix >= v) by (nonlinear_arith)
            requires
                v >= 0,
                radix >= 1,
        ;
        if n < s.len() {
            lemma_prefix_value(s.drop_last(), n, radix);
            assert(s.drop_last().take(n) =~= s.take(n));
        } else {
            assert(s.take(n) =~= s);
        }
    }
}

/// Reads an unsigned number of at most `max`.
pub fn read_unsigned(s: &[char], radix: u64, max: u64) -> (r: Option<u64>)
    requires
        2 <= radix <= 36,
    ensures
        r is Some <==> unsigned(s@, radix as int, max as int) is Some,
        r is Some ==> r->0 == unsigned(s@, radix as int, max as int)->0,
        r is Some ==> r->0 <= max,
{
    let body: &[char] = if s.len() > 0 && s[0] == '+' {
        part(s, 1, s.len())
    } else {
        s
    };
    if body.len() == 0 {
        return None;
    }
    let mut value: u64 = 0;
    let mut i: usize = 0;
    while i < body.len()
        invariant
            2 <= radix <= 36,
            i <= body@.len(),
            value <= max,
            value == digits_value(body@.take(i as int), radix as int),
            digits_in(body@.take(i as int), radix as int),
            body@.len() > 0,
            body@ == (if s@.len() > 0 && s@[0] == '+' { s@.skip(1) } else { s@ }),
        decreases body.len() - i,
    {
        let d: u64 = value_of_digit(body[i]);
        assert(body@.take(i + 1).drop_last() =~= body@.take(i as int));
        if d >= radix {
            assert(!digits_in(body@, radix as int));
            return None;
        }
        proof {
            assert(value * radix <= u64::MAX * 36) by (nonlinear_arith)
                requires
                    0 <= value <= u64::MAX,
                    0 <= radix <= 36,
            ;
        }
        let wide: u128 = (value as u128) * (radix as u128) + (d as u128);
        if wide > max as u128 {
            proof {
                lemma_prefix_value(body@, i + 1, radix as int);
            }
            return None;
        }
        value = wide as u64;
        i = i + 1;
    }
    assert(body@.take(i as int) =~= body@);
    Some(value)
}

/// The decimal `u64` that a text writes.
pub open spec fn u64_of(s: Seq<char>) -> Option<u64> {
    match unsigned(s, 10, u64::MAX as int) {
        Some(v) => Some(v as u64),
        None => None,
    }
}

/// Reads a decimal `u64`.
pub fn read_u64(s: &[char]) -> (r: Option<u64>)
    ensures
        r == u64_of(s@),
{
    read_unsigned(s, 10, u64::MAX)
}

/// The decimal `u32` that a text writes.
pub open spec fn u32_of(s: Seq<char>) -> Option<u32> {
    match unsigned(s, 10, u32::MAX as int) {
        Some(v) => Some(v as u32),
        None => None,
    }
}

/// Reads a decimal `u32`.
pub fn read_u32(s: &[char]) -> (r: Option<u32>)
    ensures
        r == u32_of(s@),
{
    match read_unsigned(s, 10, u32::MAX as u64) {
        Some(v) => Some(v as u32),
        None => None,
    }
}

/// The hexadecimal `u16` that a text writes.
pub open spec fn hex_u16_of(s: Seq<char>) -> Option<u16> {
    match unsigned(s, 16, u16::MAX as int) {
        Some(v) => Some(v as u16),
        None => None,
    }
}

/// Reads a hexadecimal `u16`.
pub fn read_hex_u16(s: &[char]) -> (r: Option<u16>)
    ensures
        r == hex_u16_of(s@),
{
    match read_unsigned(s, 16, u16::MAX as u64) {
        Some(v) => Some(v as u16),
        None => None,
    }
}

// ---------------------------------------------------------------------------
// Writing
// ---------------------------------------------------------------------------

/// The character of a digit below sixteen, letters in lower case.
pub open spec fn digit_char(d: int) -> char {
    if d < 10 {
        ('0' as int + d) as char
    } else {
        ('a' as int + d - 10) as char
    }
}

/// The character of a digit below sixteen.
pub fn char_of_digit(d: u64) -> (r: char)
    requires
        d < 16,
    ensures
        r == digit_char(d as int),
{
    match d {
        0 => '0',
        1 => '1',
        2 => '2',
        3 => '3',
        4 => '4',
        5 => '5',
        6 => '6',
        7 => '7',
        8 => '8',
        9 => '9',
        10 => 'a',
        11 => 'b',
        12 => 'c',
        13 => 'd',
        14 => 'e',
        _ => 'f',
    }
}

/// A number in a radix of at most sixteen, without leading zeros.
pub open spec fn written(n: int, radix: int) -> Seq<char>
    decreases n,
{
    if n < radix || radix < 2 {
        seq![digit_char(n)]
    } else {
        proof {
            assert(0 <= n / radix < n) by (nonlinear_arith)
                requires
                    n >= radix,
                    radix >= 2,
            ;
        }
        written(n / radix, radix).push(digit_char(n % radix))
    }
}

/// A number in decimal.
pub open spec fn decimal(n: int) -> Seq<char> {
    written(n, 10)
}

fn write_in(n: u64, radix: u64) -> (r: Vec<char>)
    requires
        radix == 10 || radix == 16,
    ensures
        r@ == written(n as int, radix as int),
    decreases n,
{
    if n < radix {
        let mut out: Vec<char> = Vec::new();
        out.push(char_of_digit(n));
        assert(out@ =~= written(n as int, radix as int));
        out
    } else {
        let mut out = write_in(n / radix, radix);
        out.push(char_of_digit(n % radix));
        out
    }
}

/// Writes a number in decimal.
pub fn decimal_of(n: u64) -> (r: String)
    ensures
        r@ == decimal(n as int),
{
    string_of(&write_in(n, 10))
}

/// Writes a number in lower-case hexadecimal.
pub fn hex_of(n: u64) -> (r: String)
    ensures
        r@ == written(n as int, 16),
{
    string_of(&write_in(n, 16))
}

/// A text preceded by as many zeros as it takes to be `width` long.
pub open spec fn zero_padded(s: Seq<char>, width: int) -> Seq<char>
    decreases width - s.len(),
{
    if s.len() >= width {
        s
    } else {
        zero_padded(seq!['0'] + s, width)
    }
}

fn pad(s: Vec<char>, width: usize) -> (r: Vec<char>)
    ensures
        r@ == zero_padded(s@, width as int),
{
    let mut out: Vec<char> = s;
    while out.len() < width
        invariant
            zero_padded(out@, width as int) == zero_padded(s@, width as int),
        decreases width - out.len(),
    {
        let ghost before = out@;
        out.insert(0, '0');
        assert(out@ =~= seq!['0'] + before);
    }
    out
}

/// Writes a number in decimal, padded with zeros to a width.
pub fn padded_decimal(n: u64, width: usize) -> (r: String)
    ensures
        r@ == zero_padded(decimal(n as int), width as int),
{
    string_of(&pad(write_in(n, 10), width))
}

/// Writes a number in hexadecimal, padded with zeros to a width.
pub fn padded_hex(n: u64, width: usize) -> (r: String)
    ensures
        r@ == zero_padded(written(n as int, 16), width as int),
{
    string_of(&pad(write_in(n, 16), width))
}

proof fn lemma_digit_back(d: int, radix: int)
    requires
        0 <= d < radix <= 16,
    ensures
        digit_value(digit_char(d)) == d,
        radix <= 10 ==> is_digit(digit_char(d)),
        digit_char(d) != '+',
{
}

/// A written number is a run of digits, and the number it writes is the one it was made from.
pub proof fn lemma_written(n: int, radix: int)
    requires
        0 <= n,
        2 <= radix <= 16,
    ensures
        written(n, radix).len() > 0,
        digits_in(written(n, radix), radix),
        digits_value(written(n, radix), radix) == n,
        written(n, radix)[0] != '+',
        radix <= 10 ==> all_digits(written(n, radix)),
    decreases n,
{
    let w = written(n, radix);
    if n < radix {
        lemma_digit_back(n, radix);
        reveal_with_fuel(digits_value, 2);
        assert(w.drop_last() =~= Seq::<char>::empty());
    } else {
        let q = n / radix;
        let m = n % radix;
        assert(0 <= q < n && 0 <= m < radix && q * radix + m == n) by (nonlinear_arith)
            requires
                n >= radix,
                radix >= 2,
                q == n / radix,
                m == n % radix,
        ;
        lemma_written(q, radix);
        lemma_digit_back(m, radix);
        assert(w.drop_last() =~= written(q, radix));
    }
}

/// Reading back what was written gives the number, in decimal and in hexadecimal.
pub proof fn written_reads_back(n: int, radix: int, max: int)
    requires
        0 <= n <= max,
        2 <= radix <= 16,
    ensures
        unsigned(written(n, radix), radix, max) == Some(n),
{
    lemma_written(n, radix);
}

// ---------------------------------------------------------------------------
// Decimal fractions
// ---------------------------------------------------------------------------

/// How many digits stand at the start of a text.
pub open spec fn digit_run(s: Seq<char>) -> int
    decreases s.len(),
{
    if s.len() == 0 || !is_digit(s[0]) {
        0
    } else {
        1 + digit_run(s.skip(1))
    }
}

/// The digits at the start of a text end within it.
pub proof fn lemma_digit_run(s: Seq<char>)
    ensures
        0 <= digit_run(s) <= s.len(),
    decreases s.len(),
{
    if s.len() > 0 && is_digit(s[0]) {
        lemma_digit_run(s.skip(1));
    }
}

/// Counts the digits at the start of a text.
pub fn run_of_digits(s: &[char]) -> (r: usize)
    ensures
        r == digit_run(s@),
        r <= s@.len(),
{
    let mut i: usize = 0;
    assert(s@.skip(0) =~= s@);
    while i < s.len() && '0' <= s[i] && s[i] <= '9'
        invariant
            i <= s.len(),
            digit_run(s@) == i + digit_run(s@.skip(i as int)),
        decreases s.len() - i,
    {
        assert(s@.skip(i as int).skip(1) =~= s@.skip(i + 1));
        i = i + 1;
    }
    i
}

/// A text without the one sign it may start with.
pub open spec fn unsign(s: Seq<char>) -> Seq<char> {
    if s.len() > 0 && (s[0] == '+' || s[0] == '-') {
        s.skip(1)
    } else {
        s
    }
}

fn without_sign(s: &[char]) -> (r: &[char])
    ensures
        r@ == unsign(s@),
{
    if s.len() > 0 && (s[0] == '+' || s[0] == '-') {
        part(s, 1, s.len())
    } else {
        s
    }
}

/// An exponent: nothing, or `e`, an optional sign and at least one digit, and nothing after it.
pub open spec fn is_exponent(s: Seq<char>) -> bool {
    s.len() == 0 || ((s[0] == 'e' || s[0] == 'E') && {
        let digits = unsign(s.skip(1));
        digits.len() > 0 && all_digits(digits)
    })
}

/// Digits with an optional point, at least one digit on either side of it, and an exponent.
pub open spec fn is_decimal(s: Seq<char>) -> bool {
    let whole = digit_run(s);
    let rest = s.skip(whole);
    if rest.len() > 0 && rest[0] == '.' {
        let after = rest.skip(1);
        let fraction = digit_run(after);
        whole + fraction > 0 && is_exponent(after.skip(fraction))
    } else {
        whole > 0 && is_exponent(rest)
    }
}

/// Two texts differ at most in the case of ASCII letters.
pub open spec fn same_but_case(a: Seq<char>, b: Seq<char>) -> bool {
    crate::text::ascii_lowercase(a) == crate::text::ascii_lowercase(b)
}

/// Whether two texts differ at most in the case of ASCII letters.
pub fn equal_but_case(a: &[char], b: &str) -> (r: bool)
    ensures
        r == same_but_case(a@, b@),
{
    let a = crate::text::lowercase_ascii(a);
    let b = chars_of(b);
    let b = crate::text::lowercase_ascii(&b);
    crate::text::same(&a, &b)
}

/// The texts that read as a floating-point number: an optional sign, then a decimal, `inf`,
/// `infinity` or `nan` in any case.
pub open spec fn is_real(s: Seq<char>) -> bool {
    let body = unsign(s);
    is_decimal(body) || same_but_case(body, "inf"@) || same_but_case(body, "infinity"@)
        || same_but_case(body, "nan"@)
}

fn reads_as_exponent(s: &[char]) -> (r: bool)
    ensures
        r == is_exponent(s@),
{
    if s.len() == 0 {
        return true;
    }
    if s[0] != 'e' && s[0] != 'E' {
        return false;
    }
    let digits = without_sign(part(s, 1, s.len()));
    digits.len() > 0 && crate::text::only_digits(digits)
}

/// Whether a text reads as a floating-point number.
pub fn reads_as_real(s: &[char]) -> (r: bool)
    ensures
        r == is_real(s@),
{
    let body = without_sign(s);
    if equal_but_case(body, "inf") || equal_but_case(body, "infinity") || equal_but_case(
        body,
        "nan",
    ) {
        return true;
    }
    let whole: usize = run_of_digits(body);
    let rest = part(body, whole, body.len());
    assert(rest@ =~= body@.skip(whole as int));
    if rest.len() > 0 && rest[0] == '.' {
        let after = part(rest, 1, rest.len());
        assert(after@ =~= rest@.skip(1));
        let fraction: usize = run_of_digits(after);
        let tail = part(after, fraction, after.len());
        assert(tail@ =~= after@.skip(fraction as int));
        (whole > 0 || fraction > 0) && reads_as_exponent(tail)
    } else {
        whole > 0 && reads_as_exponent(rest)
    }
}

/// A decimal is written with the ten digits, each for its own number, the higher places first.
pub proof fn decimals_are_written_place_by_place(n: int, d: int)
    requires
        0 <= d < 10,
        n > 0,
    ensures
        decimal(d) == seq![('0' as int + d) as char],
        decimal(10 * n + d) == decimal(n).push(('0' as int + d) as char),
{
    assert((10 * n + d) / 10 == n);
    assert((10 * n + d) % 10 == d);
}

/// Hexadecimal goes on after nine with the small letters from `a` to `f`.
pub proof fn hexadecimals_are_written_place_by_place(n: int, d: int)
    requires
        0 <= d < 16,
        n > 0,
    ensures
        d >= 10 ==> written(d, 16) == seq![('a' as int + d - 10) as char],
        d < 10 ==> written(d, 16) == seq![('0' as int + d) as char],
        written(16 * n + d, 16) == written(n, 16) + written(d, 16),
{
    assert((16 * n + d) / 16 == n);
    assert((16 * n + d) % 16 == d);
    assert(written(n, 16).push(digit_char(d)) =~= written(n, 16) + seq![digit_char(d)]);
}

/// A number is read place by place: a digit more makes ten times as much and the digit, as long as that
/// still fits; anything but a digit is no number, and neither is nothing.
pub proof fn numbers_are_read_place_by_place(s: Seq<char>, d: char, max: int)
    requires
        s.len() > 0,
        crate::text::all_digits(s),
    ensures
        '0' <= d <= '9' && digits_value(s, 10) * 10 + (d as int - '0' as int) <= max ==> unsigned(
            s.push(d),
            10,
            max,
        ) == Some(digits_value(s, 10) * 10 + (d as int - '0' as int)),
        '0' <= d <= '9' && digits_value(s, 10) * 10 + (d as int - '0' as int) > max ==> unsigned(
            s.push(d),
            10,
            max,
        ) is None,
        !('0' <= d <= '9') ==> unsigned(s.push(d), 10, max) is None,
        '0' <= d <= '9' && max >= 9 ==> unsigned(seq![d], 10, max) == Some(d as int - '0' as int),
        unsigned(Seq::empty(), 10, max) is None,
        unsigned(seq!['+'], 10, max) is None,
        unsigned(seq!['+'] + s, 10, max) == unsigned(s, 10, max),
        unsigned(seq!['-'] + s, 10, max) is None,
{
    let t = s.push(d);
    assert(t.drop_last() =~= s);
    assert(t.last() == d);
    assert(crate::text::is_digit(s[0]));
    assert(t[0] == s[0]);
    assert forall|i: int| 0 <= i < s.len() implies digit_value(#[trigger] s[i]) < 10 by {
        assert(crate::text::is_digit(s[i]));
    }
    if '0' <= d <= '9' {
        assert forall|i: int| 0 <= i < t.len() implies digit_value(#[trigger] t[i]) < 10 by {
            if i < s.len() {
                assert(t[i] == s[i]);
            }
        }
    } else {
        assert(t[s.len() as int] == d);
        assert(digit_value(d) >= 10);
    }
    assert(seq![d].drop_last() =~= Seq::empty());
    assert(digits_value(seq![d].drop_last(), 10) == 0);
    assert(digits_value(seq![d], 10) == digit_value(d));
    assert(seq![d][0] == d);
    assert((seq!['+'] + s).skip(1) =~= s);
    assert(seq!['+'].skip(1) =~= Seq::<char>::empty());
    let minus = seq!['-'] + s;
    assert(minus[0] == '-');
    assert(digit_value('-') >= 10);
}

/// Zeros are put in front, and only as many as it takes.
pub proof fn padding_fills_up_with_zeros(s: Seq<char>, zeros: Seq<char>)
    requires
        forall|i: int| 0 <= i < zeros.len() ==> #[trigger] zeros[i] == '0',
    ensures
        zero_padded(s, (zeros.len() + s.len()) as int) == zeros + s,
        zero_padded(s, s.len() as int) == s,
    decreases zeros.len(),
{
    if zeros.len() > 0 {
        let fewer = zeros.drop_last();
        assert forall|i: int| 0 <= i < fewer.len() implies #[trigger] fewer[i] == '0' by {
            assert(fewer[i] == zeros[i]);
        }
        padding_fills_up_with_zeros(seq!['0'] + s, fewer);
        assert(zeros[zeros.len() - 1] == '0');
        assert(fewer + (seq!['0'] + s) =~= zeros + s);
    } else {
        assert(zeros + s =~= s);
    }
}

} // verus!
