//! The built-in deserializer that reads a number of seconds.
use vstd::prelude::*;
use crate::error::{parse_error_view, ConfigError, ErrorView};
use crate::field::{DeserializeFn, FieldMeta};
use crate::scalar::{digit_value, int_error_message, int_parse_result, lemma_digit_char_value, lemma_nat_text_digits, parse_int};
use crate::text::{chars_of, digit_char, int_text, lemma_split_then, lemma_split_without_sep, nat_text, split_chars, split_on, trim, trimmed};
use crate::value::{display, ConfigValue, ValueView};

verus! {

/// Whether every character of `s` is an ASCII digit.
pub open spec fn all_digits(s: Seq<char>) -> bool {
    forall|i: int| 0 <= i < s.len() ==> (#[trigger] digit_value(s[i])) is Some
}

/// Whether every character of `s` is `'0'`.
pub open spec fn all_zero(s: Seq<char>) -> bool {
    forall|i: int| 0 <= i < s.len() ==> #[trigger] s[i] == '0'
}

/// The value of a string of ASCII digits.
pub open spec fn digits_nat(s: Seq<char>) -> nat
    decreases s.len(),
{
    if s.len() == 0 {
        0
    } else {
        digits_nat(s.drop_last()) * 10 + match digit_value(s.last()) {
            Some(d) => d as nat,
            None => 0,
        }
    }
}

/// A decimal rendering `-?digits(.digits)?` split into its sign, integer
/// digits and fractional digits.
pub open spec fn decimal_parts(t: Seq<char>) -> Option<(bool, Seq<char>, Seq<char>)> {
    let neg = t.len() > 0 && t[0] == '-';
    let body = if neg {
        t.drop_first()
    } else {
        t
    };
    let pieces = split_on(body, '.');
    if pieces.len() == 1 && pieces[0].len() > 0 && all_digits(pieces[0]) {
        Some((neg, pieces[0], Seq::empty()))
    } else if pieces.len() == 2 && pieces[0].len() > 0 && pieces[1].len() > 0 && all_digits(
        pieces[0],
    ) && all_digits(pieces[1]) {
        Some((neg, pieces[0], pieces[1]))
    } else {
        None
    }
}

/// Whether the number rendered as `t` is below zero (`-0` is not).
pub open spec fn float_text_negative(t: Seq<char>) -> bool {
    t == "-inf"@ || match decimal_parts(t) {
        Some((neg, ip, fp)) => neg && !(all_zero(ip) && all_zero(fp)),
        None => false,
    }
}

/// The non-negative number rendered as `t`, rounded half away from zero and
/// converted to `i64` as `as` converts: `NaN` gives 0, values above
/// `i64::MAX` (and `inf`) give `i64::MAX`.
pub open spec fn float_text_rounded(t: Seq<char>) -> int {
    if t == "inf"@ {
        i64::MAX as int
    } else {
        match decimal_parts(t) {
            Some((_, ip, fp)) => {
                let bump: nat = if fp.len() > 0 && match digit_value(fp[0]) {
                    Some(d) => d >= 5,
                    None => false,
                } {
                    1
                } else {
                    0
                };
                let v = digits_nat(ip) + bump;
                if v > i64::MAX {
                    i64::MAX as int
                } else {
                    v as int
                }
            },
            None => 0,
        }
    }
}

/// What `duration_from_secs` gives for a value: a non-negative number of
/// seconds as an `Integer`, or the error for that kind of value.
pub open spec fn duration_view(v: ValueView, field: FieldMeta) -> Result<ValueView, ErrorView> {
    match v {
        ValueView::Int(n) => if n < 0 {
            Err(parse_error_view(field, int_text(n), "duration cannot be negative"@))
        } else {
            Ok(ValueView::Int(n))
        },
        ValueView::Str(s) => match int_parse_result(trim(s), false, 0, u64::MAX as int) {
            Ok(secs) => if secs > i64::MAX {
                Err(parse_error_view(field, s, "number too large to fit in target type"@))
            } else {
                Ok(ValueView::Int(secs))
            },
            Err(c) => Err(parse_error_view(field, s, c)),
        },
        ValueView::Float(t) => if float_text_negative(t) {
            Err(parse_error_view(field, t, "duration cannot be negative"@))
        } else {
            Ok(ValueView::Int(float_text_rounded(t)))
        },
        ValueView::Bool(_) => Err(
            parse_error_view(field, display(v), "cannot convert bool to duration"@),
        ),
        ValueView::Array(_) => Err(
            parse_error_view(field, display(v), "cannot convert array to duration"@),
        ),
        ValueView::Table(_) => Err(
            parse_error_view(field, display(v), "cannot convert table to duration"@),
        ),
    }
}

fn all_digits_exec(s: &Vec<char>) -> (r: bool)
    ensures
        r == all_digits(s@),
{
    let mut i: usize = 0;
    while i < s.len()
        invariant
            i <= s@.len(),
            forall|j: int| 0 <= j < i ==> (#[trigger] digit_value(s@[j])) is Some,
        decreases s@.len() - i,
    {
        let c = s[i];
        if !('0' <= c && c <= '9') {
            assert(digit_value(s@[i as int]) is None);
            return false;
        }
        i = i + 1;
    }
    true
}

fn all_zero_exec(s: &Vec<char>) -> (r: bool)
    ensures
        r == all_zero(s@),
{
    let mut i: usize = 0;
    while i < s.len()
        invariant
            i <= s@.len(),
            forall|j: int| 0 <= j < i ==> #[trigger] s@[j] == '0',
        decreases s@.len() - i,
    {
        if s[i] != '0' {
            return false;
        }
        i = i + 1;
    }
    true
}

proof fn lemma_digits_nat_push(s: Seq<char>, c: char)
    requires
        digit_value(c) is Some,
    ensures
        digits_nat(s.push(c)) == digits_nat(s) * 10 + digit_value(c)->0,
{
    assert(s.push(c).drop_last() =~= s);
}

/// The value of a string of ASCII digits, capped at `i64::MAX + 1`.
fn digits_capped(s: &Vec<char>) -> (r: u64)
    requires
        all_digits(s@),
    ensures
        r as int == if digits_nat(s@) > i64::MAX as int + 1 {
            i64::MAX as int + 1
        } else {
            digits_nat(s@) as int
        },
{
    let cap: u128 = 9223372036854775808u128;
    let mut acc: u128 = 0;
    let mut i: usize = 0;
    while i < s.len()
        invariant
            i <= s@.len(),
            all_digits(s@),
            cap == i64::MAX as int + 1,
            acc as int == if digits_nat(s@.subrange(0, i as int)) > cap as int {
                cap as int
            } else {
                digits_nat(s@.subrange(0, i as int)) as int
            },
        decreases s@.len() - i,
    {
        let c = s[i];
        assert(digit_value(s@[i as int]) is Some);
        let d: u128 = (c as u32 - '0' as u32) as u128;
        proof {
            assert(s@.subrange(0, i + 1) =~= s@.subrange(0, i as int).push(c));
            lemma_digits_nat_push(s@.subrange(0, i as int), c);
        }
        if acc >= cap {
            acc = cap;
        } else {
            let next: u128 = acc * 10 + d;
            acc = if next > cap {
                cap
            } else {
                next
            };
        }
        i = i + 1;
    }
    assert(s@.subrange(0, s@.len() as int) =~= s@);
    acc as u64
}

/// Splits a decimal rendering into sign, integer digits and fraction digits.
fn decimal_parts_exec(t: &Vec<char>) -> (r: Option<(bool, Vec<char>, Vec<char>)>)
    ensures
        match r {
            Some((neg, ip, fp)) => decimal_parts(t@) == Some((neg, ip@, fp@)),
            None => decimal_parts(t@) is None,
        },
{
    let neg = t.len() > 0 && t[0] == '-';
    let mut body: Vec<char> = Vec::new();
    let start: usize = if neg {
        1
    } else {
        0
    };
    let mut i: usize = start;
    while i < t.len()
        invariant
            start <= i <= t@.len(),
            body@ == t@.subrange(start as int, i as int),
        decreases t@.len() - i,
    {
        body.push(t[i]);
        i = i + 1;
        assert(body@ =~= t@.subrange(start as int, i as int));
    }
    assert(neg ==> body@ =~= t@.drop_first());
    assert(!neg ==> body@ =~= t@);
    let mut pieces = split_chars(&body, '.');
    if pieces.len() == 1 {
        let p0 = pieces.pop().unwrap();
        if p0.len() > 0 && all_digits_exec(&p0) {
            let empty: Vec<char> = Vec::new();
            assert(empty@ =~= Seq::<char>::empty());
            return Some((neg, p0, empty));
        }
        return None;
    }
    if pieces.len() == 2 {
        let p1 = pieces.pop().unwrap();
        let p0 = pieces.pop().unwrap();
        assert(p0@ == split_on(body@, '.')[0]);
        assert(p1@ == split_on(body@, '.')[1]);
        if p0.len() > 0 && p1.len() > 0 && all_digits_exec(&p0) && all_digits_exec(&p1) {
            return Some((neg, p0, p1));
        }
        return None;
    }
    None
}

/// Reads a floating-point rendering: whether it is negative, and its value
/// rounded and converted to `i64`.
fn float_text_parts(t: &Vec<char>) -> (r: (bool, i64))
    ensures
        r.0 == float_text_negative(t@),
        !r.0 ==> r.1 as int == float_text_rounded(t@),
{
    let inf = chars_of("inf");
    let ninf = chars_of("-inf");
    let is_inf = crate::value::chars_eq(t, &inf);
    let is_ninf = crate::value::chars_eq(t, &ninf);
    if is_ninf {
        return (true, 0);
    }
    match decimal_parts_exec(t) {
        None => {
            if is_inf {
                (false, 9223372036854775807i64)
            } else {
                (false, 0)
            }
        },
        Some((neg, ip, fp)) => {
            let negative = neg && !(all_zero_exec(&ip) && all_zero_exec(&fp));
            if negative {
                return (true, 0);
            }
            if is_inf {
                return (false, 9223372036854775807i64);
            }
            let v = digits_capped(&ip);
            let bump: u64 = if fp.len() > 0 && fp[0] >= '5' {
                1
            } else {
                0
            };
            let total: u64 = v + bump;
            if total > 9223372036854775807u64 {
                (false, 9223372036854775807i64)
            } else {
                (false, total as i64)
            }
        },
    }
}

/// Reads a number of seconds from a value, normalised to an `Integer`:
/// an `Integer` must not be negative, a `String` is trimmed and read as a
/// `u64` that must also fit in an `i64`, a `Float` must not be negative and
/// is rounded; other kinds are refused.
pub fn duration_from_secs(value: &ConfigValue, field: &FieldMeta) -> (r: Result<ConfigValue, ConfigError>)
    ensures
        match r {
            Ok(v) => duration_view(value.model(), *field) == Ok::<ValueView, ErrorView>(v.model()),
            Err(e) => duration_view(value.model(), *field) == Err::<ValueView, ErrorView>(e@),
        },
{
    match value {
        ConfigValue::Integer(n) => {
            if *n < 0 {
                let shown = crate::text::i64_text(*n);
                return Err(ConfigError::parse(field, shown.as_str(), "duration cannot be negative"));
            }
            Ok(ConfigValue::Integer(*n))
        },
        ConfigValue::String(s) => {
            let cs = chars_of(s.as_str());
            let t = trimmed(&cs);
            match parse_int(&t, false, 0, 18446744073709551615i128) {
                Ok(secs) => {
                    if secs > 9223372036854775807i128 {
                        return Err(
                            ConfigError::parse(field, s.as_str(), "number too large to fit in target type"),
                        );
                    }
                    Ok(ConfigValue::Integer(secs as i64))
                },
                Err(e) => {
                    let msg = int_error_message(&e);
                    Err(ConfigError::parse(field, s.as_str(), msg.as_str()))
                },
            }
        },
        ConfigValue::Float(t) => {
            let cs = chars_of(t.as_str());
            let (negative, rounded) = float_text_parts(&cs);
            if negative {
                return Err(ConfigError::parse(field, t.as_str(), "duration cannot be negative"));
            }
            Ok(ConfigValue::Integer(rounded))
        },
        other => {
            let shown = other.to_string();
            let msg = match other {
                ConfigValue::Bool(_) => "cannot convert bool to duration",
                ConfigValue::Array(_) => "cannot convert array to duration",
                _ => "cannot convert table to duration",
            };
            Err(ConfigError::parse(field, shown.as_str(), msg))
        },
    }
}

impl DeserializeFn {
    /// What applying this conversion to a value gives. A function of the
    /// user's is called by the code that the derive generates, after this
    /// step, so here the value passes unchanged.
    pub open spec fn applied(self, v: ValueView, field: FieldMeta) -> Result<ValueView, ErrorView> {
        match self {
            DeserializeFn::DurationFromSecs => duration_view(v, field),
            DeserializeFn::Named(_) => Ok(v),
        }
    }

    /// Applies the built-in conversion to a raw value; a function of the
    /// user's leaves it unchanged here.
    pub fn apply(&self, value: &ConfigValue, field: &FieldMeta) -> (r: Result<ConfigValue, ConfigError>)
        ensures
            match r {
                Ok(v) => self.applied(value.model(), *field) == Ok::<ValueView, ErrorView>(v.model()),
                Err(e) => self.applied(value.model(), *field) == Err::<ValueView, ErrorView>(e@),
            },
    {
        match self {
            DeserializeFn::DurationFromSecs => duration_from_secs(value, field),
            DeserializeFn::Named(_) => Ok(value.duplicate()),
        }
    }
}


proof fn lemma_digits_of_rendering(n: nat)
    ensures
        digits_nat(nat_text(n)) == n,
    decreases n,
{
    if n < 10 {
        lemma_digit_char_value(n);
        assert(nat_text(n).drop_last() =~= Seq::<char>::empty());
        assert(nat_text(n).last() == digit_char(n));
        assert(digits_nat(nat_text(n)) == digits_nat(nat_text(n).drop_last()) * 10 + n);
    } else {
        let q = n / 10;
        let r = n % 10;
        assert(n == q * 10 + r) by (nonlinear_arith)
            requires q == n / 10, r == n % 10;
        lemma_digits_of_rendering(q);
        lemma_digit_char_value(r);
        lemma_nat_text_digits(n);
        assert(nat_text(n).drop_last() =~= nat_text(q));
        assert(nat_text(n).last() == digit_char(r));
        assert(digit_value(nat_text(n)[nat_text(n).len() - 1]) is Some);
        assert(digits_nat(nat_text(n)) == digits_nat(nat_text(q)) * 10 + r);
    }
}

proof fn lemma_rendering_has_no(n: nat, c: char)
    requires
        digit_value(c) is None,
    ensures
        !nat_text(n).contains(c),
{
    lemma_nat_text_digits(n);
    if nat_text(n).contains(c) {
        let i = choose|i: int| 0 <= i < nat_text(n).len() && nat_text(n)[i] == c;
        assert(digit_value(nat_text(n)[i]) is Some);
    }
}

/// A non-negative number of seconds `n.f`, in the rendering `Display` gives
/// it, is rounded half away from zero: `n`, plus one when the first
/// fractional digit is 5 or more, capped at `i64::MAX`.
pub proof fn lemma_duration_rounds_fraction(n: nat, fp: Seq<char>, field: FieldMeta)
    requires
        fp.len() > 0,
        all_digits(fp),
    ensures
        duration_view(ValueView::Float(nat_text(n) + seq!['.'] + fp), field) == Ok::<ValueView, ErrorView>(
            ValueView::Int(
                {
                    let up: int = if digit_value(fp[0])->0 >= 5 {
                        1
                    } else {
                        0
                    };
                    if n + up > i64::MAX {
                        i64::MAX as int
                    } else {
                        n + up
                    }
                },
            ),
        ),
{
    let ip = nat_text(n);
    let t = ip + seq!['.'] + fp;
    lemma_nat_text_digits(n);
    lemma_digits_of_rendering(n);
    assert(digit_value(ip[0]) is Some);
    assert(t[0] == ip[0]);
    assert(!fp.contains('.')) by {
        if fp.contains('.') {
            let i = choose|i: int| 0 <= i < fp.len() && fp[i] == '.';
            assert(digit_value(fp[i]) is Some);
        }
    }
    assert(t =~= ip.push('.') + fp);
    lemma_rendering_has_no(n, '.');
    lemma_split_without_sep(ip, '.');
    lemma_split_then(ip, '.', fp);
    assert(split_on(t, '.') =~= seq![ip, fp]);
    assert(all_digits(ip));
    reveal_strlit("inf");
    reveal_strlit("-inf");
    assert(t != "inf"@) by {
        assert("inf"@[0] == 'i');
    }
    assert(t != "-inf"@) by {
        assert("-inf"@[0] == '-');
    }
    assert(decimal_parts(t) == Some((false, ip, fp)));
}

/// A whole number of seconds `n`, in the rendering `Display` gives it, is
/// `n` seconds, capped at `i64::MAX`.
pub proof fn lemma_duration_whole_seconds(n: nat, field: FieldMeta)
    ensures
        duration_view(ValueView::Float(nat_text(n)), field) == Ok::<ValueView, ErrorView>(
            ValueView::Int(
                if n > i64::MAX {
                    i64::MAX as int
                } else {
                    n as int
                },
            ),
        ),
{
    let ip = nat_text(n);
    lemma_nat_text_digits(n);
    lemma_digits_of_rendering(n);
    assert(digit_value(ip[0]) is Some);
    lemma_rendering_has_no(n, '.');
    lemma_split_without_sep(ip, '.');
    assert(all_digits(ip));
    reveal_strlit("inf");
    reveal_strlit("-inf");
    assert(ip != "inf"@) by {
        assert("inf"@[0] == 'i');
    }
    assert(ip != "-inf"@) by {
        assert("-inf"@[0] == '-');
    }
    assert(decimal_parts(ip) == Some((false, ip, Seq::<char>::empty())));
}

} // verus!
