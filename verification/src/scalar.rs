//! Parsing of scalar text into typed values: integers with the grammar and
//! error messages of Rust's `FromStr` for integers, booleans, and strings.
use vstd::prelude::*;
use crate::text::{chars_of, digit_char, int_text, nat_text, owned, str_eq};

verus! {

/// Why an integer could not be read.
pub enum IntError {
    Empty,
    InvalidDigit,
    PosOverflow,
    NegOverflow,
}

/// The message for each kind of integer failure.
pub open spec fn int_error_text(e: IntError) -> Seq<char> {
    match e {
        IntError::Empty => "cannot parse integer from empty string"@,
        IntError::InvalidDigit => "invalid digit found in string"@,
        IntError::PosOverflow => "number too large to fit in target type"@,
        IntError::NegOverflow => "number too small to fit in target type"@,
    }
}

/// The value of an ASCII decimal digit, or `None`.
pub open spec fn digit_value(c: char) -> Option<int> {
    if '0' <= c && c <= '9' {
        Some((c as int) - ('0' as int))
    } else {
        None
    }
}

/// Reads `d` left to right onto `acc`: each character must be a digit,
/// and the running value must stay within `[min, max]` (adding digits
/// when `pos`, subtracting them otherwise).
pub open spec fn scan_digits(d: Seq<char>, pos: bool, min: int, max: int, acc: int) -> Result<
    int,
    IntError,
>
    decreases d.len(),
{
    if d.len() == 0 {
        Ok(acc)
    } else {
        match digit_value(d[0]) {
            None => Err(IntError::InvalidDigit),
            Some(x) => {
                let next = if pos {
                    acc * 10 + x
                } else {
                    acc * 10 - x
                };
                if pos && next > max {
                    Err(IntError::PosOverflow)
                } else if !pos && next < min {
                    Err(IntError::NegOverflow)
                } else {
                    scan_digits(d.drop_first(), pos, min, max, next)
                }
            },
        }
    }
}

/// What `str::parse` gives for an integer type with bounds `[min, max]`:
/// an optional `+` (or `-` when the type is signed) followed by ASCII digits.
pub open spec fn int_parse(s: Seq<char>, signed: bool, min: int, max: int) -> Result<int, IntError> {
    if s.len() == 0 {
        Err(IntError::Empty)
    } else if (s[0] == '+' || s[0] == '-') && s.len() == 1 {
        Err(IntError::InvalidDigit)
    } else if s[0] == '+' {
        scan_digits(s.drop_first(), true, min, max, 0)
    } else if s[0] == '-' && signed {
        scan_digits(s.drop_first(), false, min, max, 0)
    } else {
        scan_digits(s, true, min, max, 0)
    }
}

pub proof fn lemma_digit_char_value(d: nat)
    requires
        d < 10,
    ensures
        digit_value(digit_char(d)) == Some(d as int),
{
}

/// The decimal rendering of a natural number is a non-empty string of
/// ASCII digits.
pub proof fn lemma_nat_text_digits(n: nat)
    ensures
        nat_text(n).len() > 0,
        forall|i: int| 0 <= i < nat_text(n).len() ==> (#[trigger] digit_value(nat_text(n)[i])) is Some,
    decreases n,
{
    if n < 10 {
        lemma_digit_char_value(n);
    } else {
        lemma_nat_text_digits(n / 10);
        lemma_digit_char_value(n % 10);
        let p = nat_text(n / 10);
        assert forall|i: int| 0 <= i < nat_text(n).len() implies (#[trigger] digit_value(nat_text(n)[i])) is Some by {
            if i < p.len() {
                assert(nat_text(n)[i] == p[i]);
            }
        }
    }
}

proof fn lemma_scan_append(a: Seq<char>, b: Seq<char>, pos: bool, min: int, max: int, acc: int)
    ensures
        scan_digits(a + b, pos, min, max, acc) == match scan_digits(a, pos, min, max, acc) {
            Ok(v) => scan_digits(b, pos, min, max, v),
            Err(e) => Err(e),
        },
    decreases a.len(),
{
    if a.len() == 0 {
        assert(a + b =~= b);
    } else {
        assert((a + b).drop_first() =~= a.drop_first() + b);
        assert((a + b)[0] == a[0]);
        match digit_value(a[0]) {
            None => {},
            Some(x) => {
                let next = if pos {
                    acc * 10 + x
                } else {
                    acc * 10 - x
                };
                lemma_scan_append(a.drop_first(), b, pos, min, max, next);
            },
        }
    }
}

proof fn lemma_scan_nat_text(n: nat, pos: bool, min: int, max: int)
    requires
        min <= 0 <= max,
    ensures
        scan_digits(nat_text(n), pos, min, max, 0) == if pos {
            if n <= max {
                Ok::<int, IntError>(n as int)
            } else {
                Err(IntError::PosOverflow)
            }
        } else {
            if -n >= min {
                Ok::<int, IntError>(-n)
            } else {
                Err(IntError::NegOverflow)
            }
        },
    decreases n,
{
    if n < 10 {
        lemma_digit_char_value(n);
        let c = seq![digit_char(n)];
        assert(nat_text(n) == c);
        assert(c.drop_first() =~= Seq::<char>::empty());
        assert(c[0] == digit_char(n));
        assert(scan_digits(c, pos, min, max, 0) == if pos {
            if n > max {
                Err::<int, IntError>(IntError::PosOverflow)
            } else {
                scan_digits(c.drop_first(), pos, min, max, n as int)
            }
        } else {
            if -n < min {
                Err::<int, IntError>(IntError::NegOverflow)
            } else {
                scan_digits(c.drop_first(), pos, min, max, -n)
            }
        });
    } else {
        let q = n / 10;
        let r = n % 10;
        assert(n == q * 10 + r) by (nonlinear_arith)
            requires q == n / 10, r == n % 10;
        assert(q <= n) by (nonlinear_arith)
            requires q == n / 10, n >= 10;
        lemma_scan_nat_text(q, pos, min, max);
        lemma_digit_char_value(r);
        let c = seq![digit_char(r)];
        assert(nat_text(n) =~= nat_text(q) + c);
        lemma_scan_append(nat_text(q), c, pos, min, max, 0);
        assert(c.drop_first() =~= Seq::<char>::empty());
        assert(c[0] == digit_char(r));
        if pos && q <= max {
            assert(scan_digits(c, true, min, max, q as int) == if q * 10 + r > max {
                Err::<int, IntError>(IntError::PosOverflow)
            } else {
                scan_digits(c.drop_first(), true, min, max, (q * 10 + r) as int)
            });
        } else if !pos && -q >= min {
            assert(scan_digits(c, false, min, max, -q) == if -q * 10 - r < min {
                Err::<int, IntError>(IntError::NegOverflow)
            } else {
                scan_digits(c.drop_first(), false, min, max, -q * 10 - r)
            });
        }
    }
}

/// Reading the decimal rendering of an integer gives the integer back when
/// it lies in `[min, max]`, and the overflow on the side it leaves that
/// range otherwise; negative integers need a signed type.
pub proof fn lemma_int_parse_rendering(i: int, signed: bool, min: int, max: int)
    requires
        min <= 0 <= max,
        i < 0 ==> signed,
    ensures
        int_parse(int_text(i), signed, min, max) == if min <= i <= max {
            Ok::<int, IntError>(i)
        } else if i > max {
            Err(IntError::PosOverflow)
        } else {
            Err(IntError::NegOverflow)
        },
{
    if i >= 0 {
        lemma_nat_text_digits(i as nat);
        assert(digit_value(nat_text(i as nat)[0]) is Some);
        lemma_scan_nat_text(i as nat, true, min, max);
    } else {
        let m = (-i) as nat;
        lemma_nat_text_digits(m);
        let t = seq!['-'] + nat_text(m);
        assert(t[0] == '-');
        assert(t.drop_first() =~= nat_text(m));
        lemma_scan_nat_text(m, false, min, max);
    }
}

/// Reads an integer in `[min, max]` from `s`.
pub fn parse_int(s: &Vec<char>, signed: bool, min: i128, max: i128) -> (r: Result<i128, IntError>)
    requires
        min <= 0 <= max,
        -0x1_0000_0000_0000_0000 <= min,
        max <= 0x1_0000_0000_0000_0000,
    ensures
        match r {
            Ok(v) => int_parse(s@, signed, min as int, max as int) == Ok::<int, IntError>(v as int)
                && min <= v <= max,
            Err(e) => int_parse(s@, signed, min as int, max as int) == Err::<int, IntError>(e),
        },
{
    if s.len() == 0 {
        return Err(IntError::Empty);
    }
    if (s[0] == '+' || s[0] == '-') && s.len() == 1 {
        return Err(IntError::InvalidDigit);
    }
    let (pos, start): (bool, usize) = if s[0] == '+' {
        (true, 1)
    } else if s[0] == '-' && signed {
        (false, 1)
    } else {
        (true, 0)
    };
    let ghost d = s@.subrange(start as int, s@.len() as int);
    assert(start == 1 ==> d =~= s@.drop_first());
    assert(start == 0 ==> d =~= s@);
    assert(int_parse(s@, signed, min as int, max as int) == scan_digits(d, pos, min as int, max as int, 0));
    let mut acc: i128 = 0;
    let mut i: usize = start;
    while i < s.len()
        invariant
            start <= i <= s@.len(),
            d == s@.subrange(start as int, s@.len() as int),
            int_parse(s@, signed, min as int, max as int) == scan_digits(d, pos, min as int, max as int, 0),
            min <= acc <= max,
            pos ==> acc >= 0,
            !pos ==> acc <= 0,
            min <= 0 <= max,
            -0x1_0000_0000_0000_0000 <= min,
            max <= 0x1_0000_0000_0000_0000,
            scan_digits(d, pos, min as int, max as int, 0) == scan_digits(
                s@.subrange(i as int, s@.len() as int),
                pos,
                min as int,
                max as int,
                acc as int,
            ),
        decreases s@.len() - i,
    {
        let ghost rest = s@.subrange(i as int, s@.len() as int);
        assert(rest[0] == s@[i as int]);
        assert(rest.drop_first() =~= s@.subrange(i + 1, s@.len() as int));
        let c = s[i];
        if !('0' <= c && c <= '9') {
            assert(digit_value(rest[0]) is None);
            return Err(IntError::InvalidDigit);
        }
        let x: i128 = (c as u32 - '0' as u32) as i128;
        let next: i128 = if pos {
            acc * 10 + x
        } else {
            acc * 10 - x
        };
        if pos && next > max {
            return Err(IntError::PosOverflow);
        }
        if !pos && next < min {
            return Err(IntError::NegOverflow);
        }
        acc = next;
        i = i + 1;
    }
    assert(s@.subrange(i as int, s@.len() as int) =~= Seq::<char>::empty());
    Ok(acc)
}

/// Reads a `u128` from `s`.
pub fn parse_u128(s: &Vec<char>) -> (r: Result<u128, IntError>)
    ensures
        match r {
            Ok(v) => int_parse(s@, false, 0, u128::MAX as int) == Ok::<int, IntError>(v as int),
            Err(e) => int_parse(s@, false, 0, u128::MAX as int) == Err::<int, IntError>(e),
        },
{
    let ghost max = u128::MAX as int;
    if s.len() == 0 {
        return Err(IntError::Empty);
    }
    if (s[0] == '+' || s[0] == '-') && s.len() == 1 {
        return Err(IntError::InvalidDigit);
    }
    let start: usize = if s[0] == '+' {
        1
    } else {
        0
    };
    let ghost d = s@.subrange(start as int, s@.len() as int);
    assert(start == 1 ==> d =~= s@.drop_first());
    assert(start == 0 ==> d =~= s@);
    assert(int_parse(s@, false, 0, max) == scan_digits(d, true, 0, max, 0));
    let mut acc: u128 = 0;
    let mut i: usize = start;
    while i < s.len()
        invariant
            start <= i <= s@.len(),
            d == s@.subrange(start as int, s@.len() as int),
            max == u128::MAX as int,
            int_parse(s@, false, 0, max) == scan_digits(d, true, 0, max, 0),
            scan_digits(d, true, 0, max, 0) == scan_digits(
                s@.subrange(i as int, s@.len() as int),
                true,
                0,
                max,
                acc as int,
            ),
        decreases s@.len() - i,
    {
        let ghost rest = s@.subrange(i as int, s@.len() as int);
        assert(rest[0] == s@[i as int]);
        assert(rest.drop_first() =~= s@.subrange(i + 1, s@.len() as int));
        let c = s[i];
        if !('0' <= c && c <= '9') {
            assert(digit_value(rest[0]) is None);
            return Err(IntError::InvalidDigit);
        }
        let x: u128 = (c as u32 - '0' as u32) as u128;
        let next = match acc.checked_mul(10) {
            Some(t) => t.checked_add(x),
            None => None,
        };
        match next {
            Some(n) => {
                acc = n;
            },
            None => {
                return Err(IntError::PosOverflow);
            },
        }
        i = i + 1;
    }
    assert(s@.subrange(i as int, s@.len() as int) =~= Seq::<char>::empty());
    Ok(acc)
}

/// Reads an `i128` from `s`.
pub fn parse_i128(s: &Vec<char>) -> (r: Result<i128, IntError>)
    ensures
        match r {
            Ok(v) => int_parse(s@, true, i128::MIN as int, i128::MAX as int) == Ok::<int, IntError>(v as int),
            Err(e) => int_parse(s@, true, i128::MIN as int, i128::MAX as int) == Err::<int, IntError>(e),
        },
{
    let ghost min = i128::MIN as int;
    let ghost max = i128::MAX as int;
    if s.len() == 0 {
        return Err(IntError::Empty);
    }
    if (s[0] == '+' || s[0] == '-') && s.len() == 1 {
        return Err(IntError::InvalidDigit);
    }
    let (pos, start): (bool, usize) = if s[0] == '+' {
        (true, 1)
    } else if s[0] == '-' {
        (false, 1)
    } else {
        (true, 0)
    };
    let ghost d = s@.subrange(start as int, s@.len() as int);
    assert(start == 1 ==> d =~= s@.drop_first());
    assert(start == 0 ==> d =~= s@);
    assert(int_parse(s@, true, min, max) == scan_digits(d, pos, min, max, 0));
    let mut acc: i128 = 0;
    let mut i: usize = start;
    while i < s.len()
        invariant
            start <= i <= s@.len(),
            d == s@.subrange(start as int, s@.len() as int),
            min == i128::MIN as int,
            max == i128::MAX as int,
            pos ==> acc >= 0,
            !pos ==> acc <= 0,
            int_parse(s@, true, min, max) == scan_digits(d, pos, min, max, 0),
            scan_digits(d, pos, min, max, 0) == scan_digits(
                s@.subrange(i as int, s@.len() as int),
                pos,
                min,
                max,
                acc as int,
            ),
        decreases s@.len() - i,
    {
        let ghost rest = s@.subrange(i as int, s@.len() as int);
        assert(rest[0] == s@[i as int]);
        assert(rest.drop_first() =~= s@.subrange(i + 1, s@.len() as int));
        let c = s[i];
        if !('0' <= c && c <= '9') {
            assert(digit_value(rest[0]) is None);
            return Err(IntError::InvalidDigit);
        }
        let x: i128 = (c as u32 - '0' as u32) as i128;
        let next = match acc.checked_mul(10) {
            Some(t) => if pos {
                t.checked_add(x)
            } else {
                t.checked_sub(x)
            },
            None => None,
        };
        match next {
            Some(n) => {
                acc = n;
            },
            None => {
                if pos {
                    return Err(IntError::PosOverflow);
                } else {
                    return Err(IntError::NegOverflow);
                }
            },
        }
        i = i + 1;
    }
    assert(s@.subrange(i as int, s@.len() as int) =~= Seq::<char>::empty());
    Ok(acc)
}

/// The message for an integer failure.
pub fn int_error_message(e: &IntError) -> (r: String)
    ensures
        r@ == int_error_text(*e),
{
    match e {
        IntError::Empty => owned("cannot parse integer from empty string"),
        IntError::InvalidDigit => owned("invalid digit found in string"),
        IntError::PosOverflow => owned("number too large to fit in target type"),
        IntError::NegOverflow => owned("number too small to fit in target type"),
    }
}

/// What reading a typed integer gives: the value, or the failure message.
pub open spec fn int_parse_result(s: Seq<char>, signed: bool, min: int, max: int) -> Result<
    int,
    Seq<char>,
> {
    match int_parse(s, signed, min, max) {
        Ok(v) => Ok(v),
        Err(e) => Err(int_error_text(e)),
    }
}

/// A type that a config value can be coerced to from its text.
pub trait ConfigScalar: Sized + View {
    /// What reading `text` gives: the value's view, or the failure message.
    spec fn parsed(text: Seq<char>) -> Result<Self::V, Seq<char>>;

    /// Reads a value from `text`.
    fn parse_text(text: &str) -> (r: Result<Self, String>)
        ensures
            match r {
                Ok(v) => Self::parsed(text@) == Ok::<Self::V, Seq<char>>(v@),
                Err(e) => Self::parsed(text@) == Err::<Self::V, Seq<char>>(e@),
            },
    ;
}

/// The `bool` grammar: exactly `true` or `false`.
pub open spec fn bool_parse(text: Seq<char>) -> Result<bool, Seq<char>> {
    if text == "true"@ {
        Ok(true)
    } else if text == "false"@ {
        Ok(false)
    } else {
        Err("provided string was not `true` or `false`"@)
    }
}

impl ConfigScalar for bool {
    open spec fn parsed(text: Seq<char>) -> Result<bool, Seq<char>> {
        bool_parse(text)
    }

    fn parse_text(text: &str) -> (r: Result<bool, String>) {
        if str_eq(text, "true") {
            Ok(true)
        } else if str_eq(text, "false") {
            Ok(false)
        } else {
            Err(owned("provided string was not `true` or `false`"))
        }
    }
}

/// The `char` grammar: exactly one character.
pub open spec fn char_parse(text: Seq<char>) -> Result<char, Seq<char>> {
    if text.len() == 0 {
        Err("cannot parse char from empty string"@)
    } else if text.len() == 1 {
        Ok(text[0])
    } else {
        Err("too many characters in string"@)
    }
}

impl ConfigScalar for char {
    open spec fn parsed(text: Seq<char>) -> Result<char, Seq<char>> {
        char_parse(text)
    }

    fn parse_text(text: &str) -> (r: Result<char, String>) {
        let cs = chars_of(text);
        if cs.len() == 0 {
            Err(owned("cannot parse char from empty string"))
        } else if cs.len() == 1 {
            Ok(cs[0])
        } else {
            Err(owned("too many characters in string"))
        }
    }
}

impl ConfigScalar for String {
    open spec fn parsed(text: Seq<char>) -> Result<Seq<char>, Seq<char>> {
        Ok(text)
    }

    fn parse_text(text: &str) -> (r: Result<String, String>) {
        Ok(owned(text))
    }
}

impl ConfigScalar for u8 {
    open spec fn parsed(text: Seq<char>) -> Result<u8, Seq<char>> {
        match int_parse_result(text, false, 0, 255) {
            Ok(v) => Ok(v as u8),
            Err(m) => Err(m),
        }
    }

    fn parse_text(text: &str) -> (r: Result<u8, String>) {
        let cs = chars_of(text);
        match parse_int(&cs, false, 0i128, 255i128) {
            Ok(v) => Ok(v as u8),
            Err(e) => Err(int_error_message(&e)),
        }
    }
}

impl ConfigScalar for u16 {
    open spec fn parsed(text: Seq<char>) -> Result<u16, Seq<char>> {
        match int_parse_result(text, false, 0, 65535) {
            Ok(v) => Ok(v as u16),
            Err(m) => Err(m),
        }
    }

    fn parse_text(text: &str) -> (r: Result<u16, String>) {
        let cs = chars_of(text);
        match parse_int(&cs, false, 0i128, 65535i128) {
            Ok(v) => Ok(v as u16),
            Err(e) => Err(int_error_message(&e)),
        }
    }
}

impl ConfigScalar for u32 {
    open spec fn parsed(text: Seq<char>) -> Result<u32, Seq<char>> {
        match int_parse_result(text, false, 0, 4294967295) {
            Ok(v) => Ok(v as u32),
            Err(m) => Err(m),
        }
    }

    fn parse_text(text: &str) -> (r: Result<u32, String>) {
        let cs = chars_of(text);
        match parse_int(&cs, false, 0i128, 4294967295i128) {
            Ok(v) => Ok(v as u32),
            Err(e) => Err(int_error_message(&e)),
        }
    }
}

impl ConfigScalar for u64 {
    open spec fn parsed(text: Seq<char>) -> Result<u64, Seq<char>> {
        match int_parse_result(text, false, 0, 18446744073709551615) {
            Ok(v) => Ok(v as u64),
            Err(m) => Err(m),
        }
    }

    fn parse_text(text: &str) -> (r: Result<u64, String>) {
        let cs = chars_of(text);
        match parse_int(&cs, false, 0i128, 18446744073709551615i128) {
            Ok(v) => Ok(v as u64),
            Err(e) => Err(int_error_message(&e)),
        }
    }
}

impl ConfigScalar for usize {
    open spec fn parsed(text: Seq<char>) -> Result<usize, Seq<char>> {
        match int_parse_result(text, false, 0, usize::MAX as int) {
            Ok(v) => Ok(v as usize),
            Err(m) => Err(m),
        }
    }

    fn parse_text(text: &str) -> (r: Result<usize, String>) {
        let cs = chars_of(text);
        match parse_int(&cs, false, 0i128, usize::MAX as i128) {
            Ok(v) => Ok(v as usize),
            Err(e) => Err(int_error_message(&e)),
        }
    }
}

impl ConfigScalar for i8 {
    open spec fn parsed(text: Seq<char>) -> Result<i8, Seq<char>> {
        match int_parse_result(text, true, -128, 127) {
            Ok(v) => Ok(v as i8),
            Err(m) => Err(m),
        }
    }

    fn parse_text(text: &str) -> (r: Result<i8, String>) {
        let cs = chars_of(text);
        match parse_int(&cs, true, -128i128, 127i128) {
            Ok(v) => Ok(v as i8),
            Err(e) => Err(int_error_message(&e)),
        }
    }
}

impl ConfigScalar for i16 {
    open spec fn parsed(text: Seq<char>) -> Result<i16, Seq<char>> {
        match int_parse_result(text, true, -32768, 32767) {
            Ok(v) => Ok(v as i16),
            Err(m) => Err(m),
        }
    }

    fn parse_text(text: &str) -> (r: Result<i16, String>) {
        let cs = chars_of(text);
        match parse_int(&cs, true, -32768i128, 32767i128) {
            Ok(v) => Ok(v as i16),
            Err(e) => Err(int_error_message(&e)),
        }
    }
}

impl ConfigScalar for i32 {
    open spec fn parsed(text: Seq<char>) -> Result<i32, Seq<char>> {
        match int_parse_result(text, true, -2147483648, 2147483647) {
            Ok(v) => Ok(v as i32),
            Err(m) => Err(m),
        }
    }

    fn parse_text(text: &str) -> (r: Result<i32, String>) {
        let cs = chars_of(text);
        match parse_int(&cs, true, -2147483648i128, 2147483647i128) {
            Ok(v) => Ok(v as i32),
            Err(e) => Err(int_error_message(&e)),
        }
    }
}

impl ConfigScalar for i64 {
    open spec fn parsed(text: Seq<char>) -> Result<i64, Seq<char>> {
        match int_parse_result(text, true, -9223372036854775808, 9223372036854775807) {
            Ok(v) => Ok(v as i64),
            Err(m) => Err(m),
        }
    }

    fn parse_text(text: &str) -> (r: Result<i64, String>) {
        let cs = chars_of(text);
        match parse_int(&cs, true, -9223372036854775808i128, 9223372036854775807i128) {
            Ok(v) => Ok(v as i64),
            Err(e) => Err(int_error_message(&e)),
        }
    }
}

impl ConfigScalar for u128 {
    open spec fn parsed(text: Seq<char>) -> Result<u128, Seq<char>> {
        match int_parse_result(text, false, 0, u128::MAX as int) {
            Ok(v) => Ok(v as u128),
            Err(m) => Err(m),
        }
    }

    fn parse_text(text: &str) -> (r: Result<u128, String>) {
        let cs = chars_of(text);
        match parse_u128(&cs) {
            Ok(v) => Ok(v),
            Err(e) => Err(int_error_message(&e)),
        }
    }
}

impl ConfigScalar for i128 {
    open spec fn parsed(text: Seq<char>) -> Result<i128, Seq<char>> {
        match int_parse_result(text, true, i128::MIN as int, i128::MAX as int) {
            Ok(v) => Ok(v as i128),
            Err(m) => Err(m),
        }
    }

    fn parse_text(text: &str) -> (r: Result<i128, String>) {
        let cs = chars_of(text);
        match parse_i128(&cs) {
            Ok(v) => Ok(v),
            Err(e) => Err(int_error_message(&e)),
        }
    }
}

impl ConfigScalar for isize {
    open spec fn parsed(text: Seq<char>) -> Result<isize, Seq<char>> {
        match int_parse_result(text, true, isize::MIN as int, isize::MAX as int) {
            Ok(v) => Ok(v as isize),
            Err(m) => Err(m),
        }
    }

    fn parse_text(text: &str) -> (r: Result<isize, String>) {
        let cs = chars_of(text);
        match parse_int(&cs, true, isize::MIN as i128, isize::MAX as i128) {
            Ok(v) => Ok(v as isize),
            Err(e) => Err(int_error_message(&e)),
        }
    }
}


/// Every integer type reads back the decimal rendering of each of its
/// values, and refuses the rendering of an integer beyond its range with
/// the overflow message of that side.
pub proof fn lemma_integers_read_their_range(n: int)
    ensures
        0 <= n <= u8::MAX ==> <u8 as ConfigScalar>::parsed(int_text(n)) == Ok::<u8, Seq<char>>(n as u8),
        n > u8::MAX ==> <u8 as ConfigScalar>::parsed(int_text(n)) == Err::<u8, Seq<char>>(int_error_text(IntError::PosOverflow)),
        0 <= n <= u16::MAX ==> <u16 as ConfigScalar>::parsed(int_text(n)) == Ok::<u16, Seq<char>>(n as u16),
        n > u16::MAX ==> <u16 as ConfigScalar>::parsed(int_text(n)) == Err::<u16, Seq<char>>(int_error_text(IntError::PosOverflow)),
        0 <= n <= u32::MAX ==> <u32 as ConfigScalar>::parsed(int_text(n)) == Ok::<u32, Seq<char>>(n as u32),
        n > u32::MAX ==> <u32 as ConfigScalar>::parsed(int_text(n)) == Err::<u32, Seq<char>>(int_error_text(IntError::PosOverflow)),
        0 <= n <= u64::MAX ==> <u64 as ConfigScalar>::parsed(int_text(n)) == Ok::<u64, Seq<char>>(n as u64),
        n > u64::MAX ==> <u64 as ConfigScalar>::parsed(int_text(n)) == Err::<u64, Seq<char>>(int_error_text(IntError::PosOverflow)),
        0 <= n <= usize::MAX ==> <usize as ConfigScalar>::parsed(int_text(n)) == Ok::<usize, Seq<char>>(n as usize),
        n > usize::MAX ==> <usize as ConfigScalar>::parsed(int_text(n)) == Err::<usize, Seq<char>>(int_error_text(IntError::PosOverflow)),
        0 <= n <= u128::MAX ==> <u128 as ConfigScalar>::parsed(int_text(n)) == Ok::<u128, Seq<char>>(n as u128),
        n > u128::MAX ==> <u128 as ConfigScalar>::parsed(int_text(n)) == Err::<u128, Seq<char>>(int_error_text(IntError::PosOverflow)),
        i8::MIN <= n <= i8::MAX ==> <i8 as ConfigScalar>::parsed(int_text(n)) == Ok::<i8, Seq<char>>(n as i8),
        n > i8::MAX ==> <i8 as ConfigScalar>::parsed(int_text(n)) == Err::<i8, Seq<char>>(int_error_text(IntError::PosOverflow)),
        n < i8::MIN ==> <i8 as ConfigScalar>::parsed(int_text(n)) == Err::<i8, Seq<char>>(int_error_text(IntError::NegOverflow)),
        i16::MIN <= n <= i16::MAX ==> <i16 as ConfigScalar>::parsed(int_text(n)) == Ok::<i16, Seq<char>>(n as i16),
        n > i16::MAX ==> <i16 as ConfigScalar>::parsed(int_text(n)) == Err::<i16, Seq<char>>(int_error_text(IntError::PosOverflow)),
        n < i16::MIN ==> <i16 as ConfigScalar>::parsed(int_text(n)) == Err::<i16, Seq<char>>(int_error_text(IntError::NegOverflow)),
        i32::MIN <= n <= i32::MAX ==> <i32 as ConfigScalar>::parsed(int_text(n)) == Ok::<i32, Seq<char>>(n as i32),
        n > i32::MAX ==> <i32 as ConfigScalar>::parsed(int_text(n)) == Err::<i32, Seq<char>>(int_error_text(IntError::PosOverflow)),
        n < i32::MIN ==> <i32 as ConfigScalar>::parsed(int_text(n)) == Err::<i32, Seq<char>>(int_error_text(IntError::NegOverflow)),
        i64::MIN <= n <= i64::MAX ==> <i64 as ConfigScalar>::parsed(int_text(n)) == Ok::<i64, Seq<char>>(n as i64),
        n > i64::MAX ==> <i64 as ConfigScalar>::parsed(int_text(n)) == Err::<i64, Seq<char>>(int_error_text(IntError::PosOverflow)),
        n < i64::MIN ==> <i64 as ConfigScalar>::parsed(int_text(n)) == Err::<i64, Seq<char>>(int_error_text(IntError::NegOverflow)),
        isize::MIN <= n <= isize::MAX ==> <isize as ConfigScalar>::parsed(int_text(n)) == Ok::<isize, Seq<char>>(n as isize),
        n > isize::MAX ==> <isize as ConfigScalar>::parsed(int_text(n)) == Err::<isize, Seq<char>>(int_error_text(IntError::PosOverflow)),
        n < isize::MIN ==> <isize as ConfigScalar>::parsed(int_text(n)) == Err::<isize, Seq<char>>(int_error_text(IntError::NegOverflow)),
        i128::MIN <= n <= i128::MAX ==> <i128 as ConfigScalar>::parsed(int_text(n)) == Ok::<i128, Seq<char>>(n as i128),
        n > i128::MAX ==> <i128 as ConfigScalar>::parsed(int_text(n)) == Err::<i128, Seq<char>>(int_error_text(IntError::PosOverflow)),
        n < i128::MIN ==> <i128 as ConfigScalar>::parsed(int_text(n)) == Err::<i128, Seq<char>>(int_error_text(IntError::NegOverflow)),
{
    if n >= 0 {
        lemma_int_parse_rendering(n, false, 0, u8::MAX as int);
    }
    if n >= 0 {
        lemma_int_parse_rendering(n, false, 0, u16::MAX as int);
    }
    if n >= 0 {
        lemma_int_parse_rendering(n, false, 0, u32::MAX as int);
    }
    if n >= 0 {
        lemma_int_parse_rendering(n, false, 0, u64::MAX as int);
    }
    if n >= 0 {
        lemma_int_parse_rendering(n, false, 0, usize::MAX as int);
    }
    if n >= 0 {
        lemma_int_parse_rendering(n, false, 0, u128::MAX as int);
    }
    lemma_int_parse_rendering(n, true, i8::MIN as int, i8::MAX as int);
    lemma_int_parse_rendering(n, true, i16::MIN as int, i16::MAX as int);
    lemma_int_parse_rendering(n, true, i32::MIN as int, i32::MAX as int);
    lemma_int_parse_rendering(n, true, i64::MIN as int, i64::MAX as int);
    lemma_int_parse_rendering(n, true, isize::MIN as int, isize::MAX as int);
    lemma_int_parse_rendering(n, true, i128::MIN as int, i128::MAX as int);
}

/// A `char` field reads back any single character, and refuses every text
/// that is not exactly one character; `bool` reads back the renderings of
/// its two values.
pub proof fn lemma_char_and_bool_read_back(c: char, t: Seq<char>, b: bool)
    ensures
        <char as ConfigScalar>::parsed(seq![c]) == Ok::<char, Seq<char>>(c),
        t.len() != 1 ==> <char as ConfigScalar>::parsed(t) is Err,
        <bool as ConfigScalar>::parsed(if b { "true"@ } else { "false"@ }) == Ok::<bool, Seq<char>>(b),
{
    reveal_strlit("true");
    reveal_strlit("false");
    assert("true"@.len() == 4);
    assert("false"@.len() == 5);
    assert("false"@ != "true"@);
}

} // verus!
