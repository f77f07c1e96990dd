//! Numbers in text: decimal, hexadecimal and big-endian bytes.

use crate::text::from_chars;
use vstd::prelude::*;
use vstd::string::*;

verus! {

// *** Decimal

/// The digit character of `d`.
pub open spec fn digit(d: int) -> char {
    (d + 48) as char
}

/// The value of a decimal digit character.
pub open spec fn digit_value(c: char) -> Option<int> {
    if '0' <= c <= '9' {
        Some(c as int - 48)
    } else {
        None
    }
}

/// `n` in decimal, without leading zeros.
pub open spec fn decimal(n: nat) -> Seq<char>
    decreases n,
{
    if n < 10 {
        seq![digit(n as int)]
    } else {
        decimal(n / 10).push(digit((n % 10) as int))
    }
}

fn digit_char(d: u8) -> (r: char)
    requires
        d < 10,
    ensures
        r == digit(d as int),
{
    (d + 48) as char
}

fn char_digit(c: char) -> (r: Option<u8>)
    ensures
        match r {
            Some(d) => digit_value(c) == Some(d as int) && d < 10,
            None => digit_value(c) is None,
        },
{
    let n: u32 = c as u32;
    if 48 <= n && n <= 57 {
        Some((n - 48) as u8)
    } else {
        None
    }
}

fn push_decimal(n: u128, out: &mut Vec<char>)
    ensures
        final(out)@ == old(out)@ + decimal(n as nat),
    decreases n,
{
    if n >= 10 {
        push_decimal(n / 10, out);
    }
    let ghost before = out@;
    out.push(digit_char((n % 10) as u8));
    assert(out@ =~= old(out)@ + decimal(n as nat));
}

/// Writes `n` in decimal.
pub fn decimal_text(n: u64) -> (r: String)
    ensures
        r@ == decimal(n as nat),
{
    wide_decimal_text(n as u128)
}

/// Writes a wide `n` in decimal.
pub fn wide_decimal_text(n: u128) -> (r: String)
    ensures
        r@ == decimal(n as nat),
{
    let mut out: Vec<char> = Vec::new();
    push_decimal(n, &mut out);
    assert(out@ =~= decimal(n as nat));
    from_chars(&out)
}

/// A number with a sign where it is negative.
pub open spec fn signed_decimal(n: int) -> Seq<char> {
    if n < 0 {
        "-"@ + decimal((-n) as nat)
    } else {
        decimal(n as nat)
    }
}

/// Writes `n` in decimal, with a sign where it is negative.
pub fn signed_decimal_text(n: i64) -> (r: String)
    ensures
        r@ == signed_decimal(n as int),
{
    if n < 0 {
        let mut r = "-".to_owned();
        r.append(wide_decimal_text((-(n as i128)) as u128).as_str());
        r
    } else {
        decimal_text(n as u64)
    }
}

/// Why a text is not a number.
#[derive(Debug, Clone, Copy, PartialEq, Eq, Structural)]
pub enum NumberError {
    /// There is nothing to read.
    Empty,
    /// A character is not a digit.
    InvalidDigit,
    /// The number is above the range.
    TooLarge,
    /// The number is below the range.
    TooSmall,
}

impl NumberError {
    /// The message of the error.
    pub open spec fn text(self) -> Seq<char> {
        match self {
            NumberError::Empty => "cannot parse integer from empty string"@,
            NumberError::InvalidDigit => "invalid digit found in string"@,
            NumberError::TooLarge => "number too large to fit in target type"@,
            NumberError::TooSmall => "number too small to fit in target type"@,
        }
    }

    /// The message of the error.
    pub fn message(self) -> (r: String)
        ensures
            r@ == self.text(),
    {
        match self {
            NumberError::Empty => "cannot parse integer from empty string".to_owned(),
            NumberError::InvalidDigit => "invalid digit found in string".to_owned(),
            NumberError::TooLarge => "number too large to fit in target type".to_owned(),
            NumberError::TooSmall => "number too small to fit in target type".to_owned(),
        }
    }
}

/// Reads digits from left to right; the first character that is no digit, or
/// that takes the value above `max`, decides the error.
pub open spec fn scan(s: Seq<char>, max: nat, over: NumberError) -> Result<nat, NumberError>
    decreases s.len(),
{
    if s.len() == 0 {
        Ok(0)
    } else {
        match scan(s.drop_last(), max, over) {
            Err(e) => Err(e),
            Ok(v) => match digit_value(s.last()) {
                None => Err(NumberError::InvalidDigit),
                Some(d) => if v * 10 + d > max {
                    Err(over)
                } else {
                    Ok((v * 10 + d) as nat)
                },
            },
        }
    }
}

/// The unsigned number that `s` denotes: an optional plus sign, then digits, at
/// most `max`.
pub open spec fn parse_unsigned(s: Seq<char>, max: nat) -> Result<nat, NumberError> {
    if s.len() == 0 {
        Err(NumberError::Empty)
    } else if s.len() == 1 && (s[0] == '+' || s[0] == '-') {
        Err(NumberError::InvalidDigit)
    } else if s[0] == '+' {
        scan(s.skip(1), max, NumberError::TooLarge)
    } else {
        scan(s, max, NumberError::TooLarge)
    }
}

/// The signed 64-bit number that `s` denotes: an optional sign, then digits.
pub open spec fn parse_signed(s: Seq<char>) -> Result<int, NumberError> {
    if s.len() == 0 {
        Err(NumberError::Empty)
    } else if s.len() == 1 && (s[0] == '+' || s[0] == '-') {
        Err(NumberError::InvalidDigit)
    } else if s[0] == '-' {
        match scan(s.skip(1), 0x8000_0000_0000_0000, NumberError::TooSmall) {
            Ok(v) => Ok(-(v as int)),
            Err(e) => Err(e),
        }
    } else {
        match scan(
            if s[0] == '+' {
                s.skip(1)
            } else {
                s
            },
            0x7fff_ffff_ffff_ffff,
            NumberError::TooLarge,
        ) {
            Ok(v) => Ok(v as int),
            Err(e) => Err(e),
        }
    }
}

fn scan_from(s: &[char], from: usize, max: u64, over: NumberError) -> (r: Result<u64, NumberError>)
    requires
        from <= s@.len(),
    ensures
        match r {
            Ok(v) => scan(s@.skip(from as int), max as nat, over) == Ok::<nat, NumberError>(v as nat),
            Err(e) => scan(s@.skip(from as int), max as nat, over) == Err::<nat, NumberError>(e),
        },
{
    let mut v: u64 = 0;
    let ghost all = s@.skip(from as int);
    assert(all.take(0) =~= Seq::<char>::empty());
    for i in from..s.len()
        invariant
            from <= i <= s@.len(),
            all == s@.skip(from as int),
            v <= max,
            scan(all.take(i - from), max as nat, over) == Ok::<nat, NumberError>(v as nat),
    {
        assert(all.take(i - from + 1).drop_last() =~= all.take(i - from));
        assert(all.take(i - from + 1).last() == s@[i as int]);
        match char_digit(s[i]) {
            None => {
                proof {
                    lemma_scan_error(all, i - from + 1, max as nat, over);
                }
                return Err(NumberError::InvalidDigit);
            },
            Some(d) => {
                let wide: u128 = v as u128 * 10 + d as u128;
                if wide > max as u128 {
                    proof {
                        lemma_scan_error(all, i - from + 1, max as nat, over);
                    }
                    return Err(over);
                }
                v = wide as u64;
            },
        }
    }
    assert(all.take(s@.len() - from) =~= all);
    Ok(v)
}

proof fn lemma_scan_error(s: Seq<char>, i: int, max: nat, over: NumberError)
    requires
        0 <= i <= s.len(),
        scan(s.take(i), max, over) is Err,
    ensures
        scan(s, max, over) == scan(s.take(i), max, over),
    decreases s.len() - i,
{
    if i == s.len() {
        assert(s.take(i) =~= s);
    } else {
        assert(s.take(i + 1).drop_last() =~= s.take(i));
        lemma_scan_error(s, i + 1, max, over);
    }
}

/// Reads an unsigned number of at most `max`.
pub fn read_unsigned(s: &[char], max: u64) -> (r: Result<u64, NumberError>)
    ensures
        match r {
            Ok(v) => parse_unsigned(s@, max as nat) == Ok::<nat, NumberError>(v as nat) && v <= max,
            Err(e) => parse_unsigned(s@, max as nat) == Err::<nat, NumberError>(e),
        },
{
    if s.len() == 0 {
        return Err(NumberError::Empty);
    }
    if s.len() == 1 && (s[0] == '+' || s[0] == '-') {
        return Err(NumberError::InvalidDigit);
    }
    assert(s@.skip(0) =~= s@);
    proof {
        lemma_scan_bound(s@, max as nat, NumberError::TooLarge);
        lemma_scan_bound(s@.skip(1), max as nat, NumberError::TooLarge);
    }
    if s[0] == '+' {
        scan_from(s, 1, max, NumberError::TooLarge)
    } else {
        scan_from(s, 0, max, NumberError::TooLarge)
    }
}

/// What is read never lies above the limit.
pub proof fn lemma_scan_bound(s: Seq<char>, max: nat, over: NumberError)
    ensures
        match scan(s, max, over) {
            Ok(v) => v <= max,
            Err(_) => true,
        },
    decreases s.len(),
{
    if s.len() > 0 {
        lemma_scan_bound(s.drop_last(), max, over);
    }
}

/// Reads a signed 64-bit number.
pub fn read_signed(s: &[char]) -> (r: Result<i64, NumberError>)
    ensures
        match r {
            Ok(v) => parse_signed(s@) == Ok::<int, NumberError>(v as int),
            Err(e) => parse_signed(s@) == Err::<int, NumberError>(e),
        },
{
    if s.len() == 0 {
        return Err(NumberError::Empty);
    }
    if s.len() == 1 && (s[0] == '+' || s[0] == '-') {
        return Err(NumberError::InvalidDigit);
    }
    assert(s@.skip(0) =~= s@);
    if s[0] == '-' {
        proof {
            lemma_scan_bound(s@.skip(1), 0x8000_0000_0000_0000, NumberError::TooSmall);
        }
        match scan_from(s, 1, 0x8000_0000_0000_0000, NumberError::TooSmall) {
            Ok(v) => if v == 0x8000_0000_0000_0000 {
                Ok(i64::MIN)
            } else {
                Ok(-(v as i64))
            },
            Err(e) => Err(e),
        }
    } else {
        let from: usize = if s[0] == '+' {
            1
        } else {
            0
        };
        proof {
            lemma_scan_bound(s@.skip(from as int), 0x7fff_ffff_ffff_ffff, NumberError::TooLarge);
        }
        match scan_from(s, from, 0x7fff_ffff_ffff_ffff, NumberError::TooLarge) {
            Ok(v) => Ok(v as i64),
            Err(e) => Err(e),
        }
    }
}

/// Decimal digits are digits, so a decimal holds no other character.
pub proof fn lemma_decimal_digits(n: nat)
    ensures
        decimal(n).len() > 0,
        forall|i: int| 0 <= i < decimal(n).len() ==> '0' <= #[trigger] decimal(n)[i] <= '9',
    decreases n,
{
    if n >= 10 {
        lemma_decimal_digits(n / 10);
    }
}

/// Reading a decimal gives the number back.
pub proof fn lemma_decimal_scan(n: nat, max: nat, over: NumberError)
    requires
        n <= max,
    ensures
        scan(decimal(n), max, over) == Ok::<nat, NumberError>(n),
    decreases n,
{
    if n < 10 {
        assert(decimal(n).drop_last() =~= Seq::<char>::empty());
        assert(scan(Seq::<char>::empty(), max, over) == Ok::<nat, NumberError>(0));
    } else {
        lemma_decimal_scan(n / 10, max, over);
        assert(decimal(n).drop_last() =~= decimal(n / 10));
        assert((n / 10) * 10 + n % 10 == n);
    }
}

/// Reading the decimal of a number gives the number back.
pub proof fn lemma_parse_decimal(n: nat, max: nat)
    requires
        n <= max,
    ensures
        parse_unsigned(decimal(n), max) == Ok::<nat, NumberError>(n),
{
    lemma_decimal_digits(n);
    lemma_decimal_scan(n, max, NumberError::TooLarge);
    assert('0' <= decimal(n)[0] <= '9');
}

/// Reading a signed decimal gives the number back.
pub proof fn lemma_parse_signed_decimal(n: int)
    requires
        i64::MIN <= n <= i64::MAX,
    ensures
        parse_signed(signed_decimal(n)) == Ok::<int, NumberError>(n),
{
    reveal_strlit("-");
    let s = signed_decimal(n);
    if n < 0 {
        let m = (-n) as nat;
        lemma_decimal_digits(m);
        lemma_decimal_scan(m, 0x8000_0000_0000_0000, NumberError::TooSmall);
        assert(s.skip(1) =~= decimal(m));
        assert(s[0] == '-');
    } else {
        lemma_decimal_digits(n as nat);
        lemma_decimal_scan(n as nat, 0x7fff_ffff_ffff_ffff, NumberError::TooLarge);
        assert('0' <= s[0] <= '9');
    }
}

/// A number above the limit is too large, and a signed one below the range too
/// small.
pub proof fn lemma_out_of_range(n: nat, max: nat)
    requires
        n > max,
    ensures
        parse_unsigned(decimal(n), max) == Err::<nat, NumberError>(NumberError::TooLarge),
        max == i64::MAX ==> parse_signed(decimal(n)) == Err::<int, NumberError>(
            NumberError::TooLarge,
        ),
        max == 0x8000_0000_0000_0000 ==> parse_signed("-"@ + decimal(n)) == Err::<int, NumberError>(
            NumberError::TooSmall,
        ),
{
    reveal_strlit("-");
    lemma_decimal_digits(n);
    lemma_scan_over(n, max, NumberError::TooLarge);
    lemma_scan_over(n, max, NumberError::TooSmall);
    assert('0' <= decimal(n)[0] <= '9');
    assert(("-"@ + decimal(n)).skip(1) =~= decimal(n));
}

proof fn lemma_scan_over(n: nat, max: nat, over: NumberError)
    requires
        n > max,
    ensures
        scan(decimal(n), max, over) == Err::<nat, NumberError>(over),
    decreases n,
{
    if n < 10 {
        assert(decimal(n).drop_last() =~= Seq::<char>::empty());
        assert(scan(Seq::<char>::empty(), max, over) == Ok::<nat, NumberError>(0));
    } else {
        assert(decimal(n).drop_last() =~= decimal(n / 10));
        assert((n / 10) * 10 + n % 10 == n);
        if n / 10 > max {
            lemma_scan_over(n / 10, max, over);
        } else {
            lemma_decimal_scan(n / 10, max, over);
        }
    }
}

/// Leading zeros and a plus sign do not matter.
pub proof fn lemma_same_number(s: Seq<char>, max: nat)
    requires
        s.len() > 0,
        '0' <= s[0] <= '9',
    ensures
        parse_unsigned(seq!['0'] + s, max) == parse_unsigned(s, max),
        parse_unsigned(seq!['+'] + s, max) == parse_unsigned(s, max),
        parse_signed(seq!['0'] + s) == parse_signed(s),
        parse_signed(seq!['+'] + s) == parse_signed(s),
{
    lemma_scan_zero(s, max, NumberError::TooLarge);
    lemma_scan_zero(s, 0x7fff_ffff_ffff_ffff, NumberError::TooLarge);
    assert((seq!['+'] + s).skip(1) =~= s);
}

proof fn lemma_scan_zero(s: Seq<char>, max: nat, over: NumberError)
    ensures
        scan(seq!['0'] + s, max, over) == scan(s, max, over),
    decreases s.len(),
{
    let z = seq!['0'] + s;
    if s.len() == 0 {
        assert(z.drop_last() =~= s);
        assert(scan(z.drop_last(), max, over) == Ok::<nat, NumberError>(0));
    } else {
        assert(z.drop_last() =~= seq!['0'] + s.drop_last());
        lemma_scan_zero(s.drop_last(), max, over);
    }
}

/// A text with anything but digits, behind a sign, is no number; nor is a text
/// without digits.
pub proof fn lemma_no_number(s: Seq<char>, i: int, max: nat)
    requires
        0 <= i < s.len() ==> !('0' <= s[i] <= '9') && (i > 0 || (s[i] != '+' && s[i] != '-')),
        i < 0 || i >= s.len() ==> s.len() == 0 || (s.len() == 1 && (s[0] == '+' || s[0] == '-')),
    ensures
        parse_unsigned(s, max) is Err,
        parse_signed(s) is Err,
        s.len() == 0 ==> parse_unsigned(s, max) == Err::<nat, NumberError>(NumberError::Empty),
{
    if 0 <= i < s.len() {
        lemma_scan_no_digit(s, i, max, NumberError::TooLarge);
        lemma_scan_no_digit(s, i, 0x7fff_ffff_ffff_ffff, NumberError::TooLarge);
        if i > 0 {
            let t = s.skip(1);
            assert(t[i - 1] == s[i]);
            lemma_scan_no_digit(t, i - 1, max, NumberError::TooLarge);
            lemma_scan_no_digit(t, i - 1, 0x7fff_ffff_ffff_ffff, NumberError::TooLarge);
            lemma_scan_no_digit(t, i - 1, 0x8000_0000_0000_0000, NumberError::TooSmall);
        }
    }
}

proof fn lemma_scan_no_digit(s: Seq<char>, i: int, max: nat, over: NumberError)
    requires
        0 <= i < s.len(),
        !('0' <= s[i] <= '9'),
    ensures
        scan(s, max, over) is Err,
    decreases s.len(),
{
    if i < s.len() - 1 {
        lemma_scan_no_digit(s.drop_last(), i, max, over);
    }
}

/// A decimal has no leading zero, and ends in the last digit of the number.
pub proof fn lemma_decimal_form(n: nat)
    ensures
        decimal(n).last() as int == '0' as int + n % 10,
        n >= 10 ==> decimal(n).drop_last() == decimal(n / 10),
        n > 0 ==> decimal(n)[0] != '0',
    decreases n,
{
    lemma_decimal_digits(n);
    if n >= 10 {
        lemma_decimal_form(n / 10);
        lemma_decimal_digits(n / 10);
        assert(decimal(n).drop_last() =~= decimal(n / 10));
    }
}

/// Numbers in decimal, separated by a comma and a space.
pub open spec fn decimals(v: Seq<nat>) -> Seq<char>
    decreases v.len(),
{
    if v.len() == 0 {
        Seq::empty()
    } else if v.len() == 1 {
        decimal(v[0])
    } else {
        decimals(v.drop_last()) + ", "@ + decimal(v.last())
    }
}

/// Numbers in decimal, in square brackets.
pub open spec fn decimal_list(v: Seq<nat>) -> Seq<char> {
    "["@ + decimals(v) + "]"@
}

/// The numbers that machine numbers stand for.
pub open spec fn nats(v: Seq<u64>) -> Seq<nat> {
    Seq::new(v.len(), |i: int| v[i] as nat)
}

/// A list of numbers stands in square brackets, with a comma and a space
/// between two numbers.
pub proof fn lemma_decimal_list(v: Seq<nat>, n: nat)
    ensures
        decimal_list(Seq::<nat>::empty()) == "[]"@,
        decimal_list(seq![n]) == "["@ + decimal(n) + "]"@,
        v.len() > 0 ==> decimal_list(v.push(n)) == decimal_list(v).drop_last() + ", "@ + decimal(n)
            + "]"@,
{
    reveal_strlit("[");
    reveal_strlit("]");
    reveal_strlit("[]");
    reveal_strlit(", ");
    assert(decimal_list(Seq::<nat>::empty()) =~= "[]"@);
    assert(v.push(n).drop_last() =~= v);
    assert(decimal_list(v).drop_last() =~= "["@ + decimals(v));
    assert("["@ + (decimals(v) + ", "@ + decimal(n)) =~= "["@ + decimals(v) + ", "@ + decimal(n));
}

/// Writes numbers in square brackets.
pub fn decimal_list_text(v: &[u64]) -> (r: String)
    ensures
        r@ == decimal_list(nats(v@)),
{
    let mut r = String::new();
    let ghost all = nats(v@);
    for i in 0..v.len()
        invariant
            all == nats(v@),
            r@ == decimals(all.take(i as int)),
    {
        let ghost upto = all.take(i + 1);
        assert(upto.drop_last() =~= all.take(i as int));
        if i > 0 {
            r.append(", ");
        } else {
            assert(r@ + decimal(upto[0]) =~= decimal(upto[0]));
        }
        r.append(decimal_text(v[i]).as_str());
    }
    assert(all.take(all.len() as int) =~= all);
    let mut out = "[".to_owned();
    out.append(r.as_str());
    out.append("]");
    out
}

// *** Hexadecimal

/// The upper-case hexadecimal digit of `d`.
pub open spec fn hex_digit(d: int) -> char {
    if d < 10 {
        (d + 48) as char
    } else {
        (d + 55) as char
    }
}

/// A byte as two upper-case hexadecimal digits.
pub open spec fn hex_byte(b: u8) -> Seq<char> {
    seq![hex_digit(b as int / 16), hex_digit(b as int % 16)]
}

fn hex_char(d: u8) -> (r: char)
    requires
        d < 16,
    ensures
        r == hex_digit(d as int),
{
    if d < 10 {
        (d + 48) as char
    } else {
        (d + 55) as char
    }
}

/// Writes a byte as two upper-case hexadecimal digits.
pub fn hex_text(b: u8) -> (r: String)
    ensures
        r@ == hex_byte(b),
{
    let mut r = String::new();
    r.push(hex_char(b / 16));
    r.push(hex_char(b % 16));
    assert(r@ =~= hex_byte(b));
    r
}

// *** Big-endian bytes

/// The value of `bytes`, most significant first.
pub open spec fn be_value(bytes: Seq<u8>) -> nat
    decreases bytes.len(),
{
    if bytes.len() == 0 {
        0
    } else {
        be_value(bytes.drop_last()) * 256 + bytes.last() as nat
    }
}

/// The lowest `count` bytes of `n`, most significant first.
pub open spec fn be_bytes(n: nat, count: nat) -> Seq<u8>
    decreases count,
{
    if count == 0 {
        Seq::empty()
    } else {
        be_bytes(n / 256, (count - 1) as nat).push((n % 256) as u8)
    }
}

/// `256` to the power `count`.
pub open spec fn be_range(count: nat) -> nat
    decreases count,
{
    if count == 0 {
        1
    } else {
        be_range((count - 1) as nat) * 256
    }
}

fn push_be(n: u64, count: usize, out: &mut Vec<u8>)
    ensures
        final(out)@ == old(out)@ + be_bytes(n as nat, count as nat),
    decreases count,
{
    if count > 0 {
        push_be(n / 256, count - 1, out);
        out.push((n % 256) as u8);
    }
    assert(out@ =~= old(out)@ + be_bytes(n as nat, count as nat));
}

/// The eight bytes of `n`, most significant first.
pub fn be_bytes_of(n: u64) -> (r: Vec<u8>)
    ensures
        r@ == be_bytes(n as nat, 8),
        r@.len() == 8,
{
    let mut out: Vec<u8> = Vec::new();
    push_be(n, 8, &mut out);
    assert(out@ =~= be_bytes(n as nat, 8));
    proof {
        lemma_be_len(n as nat, 8);
    }
    out
}

/// The number whose eight bytes are `bytes`.
pub fn be_value_of(bytes: &[u8]) -> (r: u64)
    requires
        bytes@.len() == 8,
    ensures
        r == be_value(bytes@),
{
    let mut v: u64 = 0;
    assert(bytes@.take(0) =~= Seq::<u8>::empty());
    for i in 0..8usize
        invariant
            bytes@.len() == 8,
            v == be_value(bytes@.take(i as int)),
            v < be_range(i as nat),
    {
        proof {
            lemma_be_range_fits(i as nat);
            assert(bytes@.take(i + 1).drop_last() =~= bytes@.take(i as int));
        }
        v = v * 256 + bytes[i] as u64;
    }
    assert(bytes@.take(8) =~= bytes@);
    v
}

proof fn lemma_be_range_fits(i: nat)
    requires
        i < 8,
    ensures
        be_range(i) * 256 == be_range(i + 1),
        be_range(i + 1) <= 0x1_0000_0000_0000_0000,
{
    reveal_with_fuel(be_range, 10);
    assert(be_range(8) == 0x1_0000_0000_0000_0000);
}

/// There are as many bytes as asked for.
pub proof fn lemma_be_len(n: nat, count: nat)
    ensures
        be_bytes(n, count).len() == count,
    decreases count,
{
    if count > 0 {
        lemma_be_len(n / 256, (count - 1) as nat);
    }
}

/// The bytes of a number that fits have that number as their value.
pub proof fn lemma_be_round_trip(n: nat, count: nat)
    requires
        n < be_range(count),
    ensures
        be_value(be_bytes(n, count)) == n,
    decreases count,
{
    if count > 0 {
        assert(n / 256 < be_range((count - 1) as nat));
        lemma_be_round_trip(n / 256, (count - 1) as nat);
        assert(be_bytes(n, count).drop_last() =~= be_bytes(n / 256, (count - 1) as nat));
    }
}

/// What eight bytes stand for, most significant first.
pub proof fn lemma_be_value_eight(b: Seq<u8>)
    requires
        b.len() == 8,
    ensures
        be_value(b) == b[0] as nat * 0x100_0000_0000_0000 + b[1] as nat * 0x1_0000_0000_0000
            + b[2] as nat * 0x100_0000_0000 + b[3] as nat * 0x1_0000_0000 + b[4] as nat * 0x100_0000
            + b[5] as nat * 0x1_0000 + b[6] as nat * 0x100 + b[7] as nat,
{
    reveal_with_fuel(be_value, 9);
    let c1 = b.drop_last();
    let c2 = c1.drop_last();
    let c3 = c2.drop_last();
    let c4 = c3.drop_last();
    let c5 = c4.drop_last();
    let c6 = c5.drop_last();
    let c7 = c6.drop_last();
    assert(c7.drop_last() =~= Seq::<u8>::empty());
    assert(be_value(c7) == b[0]);
    assert(be_value(c6) == be_value(c7) * 256 + b[1]);
    assert(be_value(c5) == be_value(c6) * 256 + b[2]);
    assert(be_value(c4) == be_value(c5) * 256 + b[3]);
    assert(be_value(c3) == be_value(c4) * 256 + b[4]);
    assert(be_value(c2) == be_value(c3) * 256 + b[5]);
    assert(be_value(c1) == be_value(c2) * 256 + b[6]);
}

/// Eight bytes hold the numbers below two to the power of sixty-four.
pub proof fn lemma_be_range_eight()
    ensures
        be_range(8) == 0x1_0000_0000_0000_0000,
{
    reveal_with_fuel(be_range, 9);
}

/// Eight bytes hold every 64-bit number.
pub proof fn lemma_be_round_trip_64(n: u64)
    ensures
        be_value(be_bytes(n as nat, 8)) == n,
        be_bytes(n as nat, 8).len() == 8,
{
    reveal_with_fuel(be_range, 10);
    assert(be_range(8) == 0x1_0000_0000_0000_0000);
    lemma_be_round_trip(n as nat, 8);
    lemma_be_len(n as nat, 8);
}

} // verus!
