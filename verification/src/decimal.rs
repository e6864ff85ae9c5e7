//! Decimal rendering and parsing of integers, as `to_string` and
//! `str::parse` treat them.
use vstd::prelude::*;

verus! {

/// The ASCII digit for a value below ten.
pub open spec fn digit_char(d: int) -> char {
    ((d + 48) as u32) as char
}

/// Whether `c` is an ASCII digit.
pub open spec fn is_digit(c: char) -> bool {
    '0' <= c && c <= '9'
}

/// The value of an ASCII digit.
pub open spec fn digit_value(c: char) -> int {
    (c as u32) - 48
}

/// The digits of `n` in base ten, most significant first, without leading
/// zeros (`0` is the single digit `0`).
pub open spec fn digits(n: nat) -> Seq<char>
    decreases n,
{
    if n < 10 {
        seq![digit_char(n as int)]
    } else {
        digits(n / 10).push(digit_char((n % 10) as int))
    }
}

/// `n` written in base ten, with a leading `-` when negative.
pub open spec fn decimal(n: int) -> Seq<char> {
    if n < 0 {
        seq!['-'] + digits((-n) as nat)
    } else {
        digits(n as nat)
    }
}

/// Whether every character of `s` is an ASCII digit.
pub open spec fn all_digits(s: Seq<char>) -> bool {
    forall|i: int| 0 <= i < s.len() ==> is_digit(#[trigger] s[i])
}

/// The value of a run of digits, read left to right.
pub open spec fn digits_value(s: Seq<char>) -> int
    decreases s.len(),
{
    if s.len() == 0 {
        0
    } else {
        digits_value(s.drop_last()) * 10 + digit_value(s.last())
    }
}

/// What `str::parse` gives for a signed integer type spanning `[lo, hi]`: an
/// optional `+` or `-`, then one or more ASCII digits, whose value must fit.
pub open spec fn parse_int(s: Seq<char>, lo: int, hi: int) -> Option<int> {
    let neg = s.len() > 0 && s[0] == '-';
    let body = if s.len() > 0 && (s[0] == '-' || s[0] == '+') {
        s.drop_first()
    } else {
        s
    };
    if body.len() == 0 || !all_digits(body) {
        None
    } else {
        let v = if neg {
            -digits_value(body)
        } else {
            digits_value(body)
        };
        if lo <= v && v <= hi {
            Some(v)
        } else {
            None
        }
    }
}

/// What `str::parse` gives for an unsigned integer type up to `hi`: an
/// optional `+`, then one or more ASCII digits, whose value must fit.
pub open spec fn parse_uint(s: Seq<char>, hi: int) -> Option<int> {
    let body = if s.len() > 0 && s[0] == '+' {
        s.drop_first()
    } else {
        s
    };
    if body.len() == 0 || !all_digits(body) {
        None
    } else if digits_value(body) <= hi {
        Some(digits_value(body))
    } else {
        None
    }
}

proof fn lemma_digit_char(d: int)
    requires
        0 <= d < 10,
    ensures
        is_digit(digit_char(d)),
        digit_value(digit_char(d)) == d,
{
}

pub proof fn lemma_digits_roundtrip(n: nat)
    ensures
        digits(n).len() >= 1,
        all_digits(digits(n)),
        digits_value(digits(n)) == n,
        digits(n)[0] != '-' && digits(n)[0] != '+',
    decreases n,
{
    if n < 10 {
        lemma_digit_char(n as int);
        assert(digits(n).drop_last() =~= Seq::<char>::empty());
        assert(digits_value(Seq::<char>::empty()) == 0);
    } else {
        lemma_digits_roundtrip(n / 10);
        lemma_digit_char((n % 10) as int);
        let s = digits(n);
        assert(s.drop_last() =~= digits(n / 10));
        assert(s.last() == digit_char((n % 10) as int));
        assert(digits_value(s) == digits_value(digits(n / 10)) * 10 + digit_value(s.last()));
        assert((n / 10) * 10 + n % 10 == n);
        assert forall|i: int| 0 <= i < s.len() implies is_digit(#[trigger] s[i]) by {
            if i < s.len() - 1 {
                assert(s[i] == digits(n / 10)[i]);
            }
        }
        assert(s[0] == digits(n / 10)[0]);
    }
}

/// Parsing a rendered integer gives it back.
pub proof fn lemma_parse_decimal(n: int, lo: int, hi: int)
    requires
        lo <= n <= hi,
    ensures
        parse_int(decimal(n), lo, hi) == Some(n),
{
    if n < 0 {
        lemma_digits_roundtrip((-n) as nat);
        let s = decimal(n);
        assert(s.drop_first() =~= digits((-n) as nat));
    } else {
        lemma_digits_roundtrip(n as nat);
    }
}

proof fn lemma_digits_value_grows(s: Seq<char>, k: int)
    requires
        all_digits(s),
        0 <= k <= s.len(),
    ensures
        digits_value(s.take(k)) <= digits_value(s),
        digits_value(s.take(k)) >= 0,
    decreases s.len() - k,
{
    if k == s.len() {
        assert(s.take(k) =~= s);
        lemma_digits_value_nonneg(s);
    } else {
        let t = s.drop_last();
        assert forall|i: int| 0 <= i < t.len() implies is_digit(#[trigger] t[i]) by {
            assert(t[i] == s[i]);
        }
        lemma_digits_value_grows(t, k);
        assert(t.take(k) =~= s.take(k));
        assert(is_digit(s[s.len() - 1]));
        lemma_digits_value_nonneg(t);
    }
}

proof fn lemma_digits_value_nonneg(s: Seq<char>)
    requires
        all_digits(s),
    ensures
        digits_value(s) >= 0,
    decreases s.len(),
{
    if s.len() > 0 {
        let t = s.drop_last();
        assert forall|i: int| 0 <= i < t.len() implies is_digit(#[trigger] t[i]) by {
            assert(t[i] == s[i]);
        }
        lemma_digits_value_nonneg(t);
        assert(is_digit(s[s.len() - 1]));
    }
}

/// The base-ten digits of `n`.
fn digits_of(n: u64) -> (out: Vec<char>)
    ensures
        out@ == digits(n as nat),
    decreases n,
{
    if n < 10 {
        let c = char_of_digit(n);
        let mut v = Vec::new();
        v.push(c);
        assert(v@ =~= seq![digit_char(n as int)]);
        v
    } else {
        let mut v = digits_of(n / 10);
        let c = char_of_digit(n % 10);
        v.push(c);
        v
    }
}

fn char_of_digit(d: u64) -> (c: char)
    requires
        d < 10,
    ensures
        c == digit_char(d as int),
{
    match d {
        0 => '0',
        1 => '1',
        2 => '2',
        3 => '3',
        4 => '4',
        5 => '5',
        6 => '6',
        7 => '7',
        8 => '8',
        _ => '9',
    }
}

/// `n` in base ten, as `i64::to_string` writes it.
pub fn i64_to_string(n: i64) -> (out: String)
    ensures
        out@ == decimal(n as int),
{
    let magnitude: u64 = if n < 0 {
        if n == i64::MIN {
            9223372036854775808u64
        } else {
            (-n) as u64
        }
    } else {
        n as u64
    };
    let ds = digits_of(magnitude);
    let mut out = String::new();
    if n < 0 {
        out.append("-");
        proof {
            reveal_strlit("-");
        }
    }
    let mut i: usize = 0;
    while i < ds.len()
        invariant
            i <= ds.len(),
            out@ == (if n < 0 {
                seq!['-']
            } else {
                seq![]
            }) + ds@.take(i as int),
        decreases ds.len() - i,
    {
        crate::text::push_char(&mut out, ds[i]);
        i = i + 1;
        assert(out@ =~= (if n < 0 {
            seq!['-']
        } else {
            seq![]
        }) + ds@.take(i as int));
    }
    assert(ds@.take(ds.len() as int) =~= ds@);
    if n < 0 {
        assert(out@ =~= decimal(n as int));
    } else {
        assert(out@ =~= decimal(n as int));
    }
    out
}

/// `n` in base ten, as `u64::to_string` writes it.
pub fn u64_to_string(n: u64) -> (out: String)
    ensures
        out@ == decimal(n as int),
{
    let ds = digits_of(n);
    let mut out = String::new();
    let mut i: usize = 0;
    while i < ds.len()
        invariant
            i <= ds.len(),
            out@ == ds@.take(i as int),
        decreases ds.len() - i,
    {
        crate::text::push_char(&mut out, ds[i]);
        i = i + 1;
        assert(out@ =~= ds@.take(i as int));
    }
    assert(ds@.take(ds.len() as int) =~= ds@);
    out
}

/// Parse `s` as `str::parse::<i64>` would, keeping only values in `[lo, hi]`.
pub fn parse_bounded(s: &Vec<char>, lo: i64, hi: i64) -> (r: Option<i64>)
    ensures
        r matches Some(v) ==> parse_int(s@, lo as int, hi as int) == Some(v as int),
        r is None ==> parse_int(s@, lo as int, hi as int) is None,
{
    let n = s.len();
    let neg = n > 0 && s[0] == '-';
    let start: usize = if n > 0 && (s[0] == '-' || s[0] == '+') {
        1
    } else {
        0
    };
    let ghost body = if s@.len() > 0 && (s@[0] == '-' || s@[0] == '+') {
        s@.drop_first()
    } else {
        s@
    };
    assert(body =~= s@.skip(start as int));
    if start == n {
        return None;
    }
    let mut acc: u64 = 0;
    let mut i: usize = start;
    while i < n
        invariant
            start <= i <= n,
            n == s.len(),
            body == s@.skip(start as int),
            body == (if s@.len() > 0 && (s@[0] == '-' || s@[0] == '+') {
                s@.drop_first()
            } else {
                s@
            }),
            body.len() > 0,
            forall|j: int| start <= j < i ==> is_digit(#[trigger] s@[j]),
            acc as int == digits_value(body.take(i - start)),
            acc <= 9223372036854775808u64,
        decreases n - i,
    {
        let c = s[i];
        if !('0' <= c && c <= '9') {
            assert(body[i - start] == s@[i as int]);
            assert(!is_digit(body[i - start]));
            assert(!all_digits(body));
            assert(parse_int(s@, lo as int, hi as int) is None);
            return None;
        }
        let d: u64 = (c as u32 - 48) as u64;
        proof {
            assert(body.take(i - start + 1).drop_last() =~= body.take(i - start));
            assert(body.take(i - start + 1).last() == c);
        }
        if acc > 922337203685477580u64 || (acc == 922337203685477580u64 && d > 8) {
            proof {
                let b = body.take(i - start + 1);
                assert forall|j: int| 0 <= j < b.len() implies is_digit(#[trigger] b[j]) by {
                    assert(b[j] == s@[j + start]);
                }
                assert(digit_value(c) == d);
                assert(digits_value(b) == digits_value(b.drop_last()) * 10 + digit_value(b.last()));
                assert(b.drop_last() =~= body.take(i - start));
                assert(digits_value(b) > 9223372036854775808);
                if all_digits(body) {
                    lemma_digits_value_grows(body, i - start + 1);
                    assert(body.take(i - start + 1) =~= b);
                    assert(digits_value(body) > 9223372036854775808);
                }
                assert(parse_int(s@, lo as int, hi as int) is None);
            }
            return None;
        }
        acc = acc * 10 + d;
        i = i + 1;
    }
    assert(body.take(n - start) =~= body);
    assert(all_digits(body)) by {
        assert forall|j: int| 0 <= j < body.len() implies is_digit(#[trigger] body[j]) by {
            assert(body[j] == s@[j + start]);
        }
    }
    if neg {
        if acc > 9223372036854775808u64 {
            return None;
        }
        let v: i128 = -(acc as i128);
        if v < lo as i128 || v > hi as i128 {
            None
        } else {
            Some(v as i64)
        }
    } else {
        let v: i128 = acc as i128;
        if v < lo as i128 || v > hi as i128 {
            None
        } else {
            Some(v as i64)
        }
    }
}

/// Parse `s` as `str::parse` does for an unsigned type whose maximum is `hi`.
pub fn parse_unsigned(s: &Vec<char>, hi: u64) -> (r: Option<u64>)
    ensures
        r matches Some(v) ==> parse_uint(s@, hi as int) == Some(v as int),
        r is None ==> parse_uint(s@, hi as int) is None,
{
    let n = s.len();
    let start: usize = if n > 0 && s[0] == '+' {
        1
    } else {
        0
    };
    let ghost body = if s@.len() > 0 && s@[0] == '+' {
        s@.drop_first()
    } else {
        s@
    };
    assert(body =~= s@.skip(start as int));
    if start == n {
        return None;
    }
    let mut acc: u64 = 0;
    let mut i: usize = start;
    while i < n
        invariant
            start <= i <= n,
            n == s.len(),
            body == s@.skip(start as int),
            body == (if s@.len() > 0 && s@[0] == '+' {
                s@.drop_first()
            } else {
                s@
            }),
            body.len() > 0,
            forall|j: int| start <= j < i ==> is_digit(#[trigger] s@[j]),
            acc as int == digits_value(body.take(i - start)),
            acc <= hi,
        decreases n - i,
    {
        let c = s[i];
        if !('0' <= c && c <= '9') {
            assert(body[i - start] == s@[i as int]);
            assert(!is_digit(body[i - start]));
            assert(!all_digits(body));
            return None;
        }
        let d: u64 = (c as u32 - 48) as u64;
        proof {
            assert(body.take(i - start + 1).drop_last() =~= body.take(i - start));
            assert(body.take(i - start + 1).last() == c);
        }
        if d > hi || acc > (hi - d) / 10 {
            proof {
                let b = body.take(i - start + 1);
                assert forall|j: int| 0 <= j < b.len() implies is_digit(#[trigger] b[j]) by {
                    assert(b[j] == s@[j + start]);
                }
                assert(digit_value(c) == d);
                assert(digits_value(b) == digits_value(b.drop_last()) * 10 + digit_value(b.last()));
                assert(b.drop_last() =~= body.take(i - start));
                if d <= hi {
                    assert(acc * 10 + d > hi) by (nonlinear_arith)
                        requires
                            acc > (hi - d) / 10,
                            d <= hi,
                    ;
                }
                if all_digits(body) {
                    lemma_digits_value_grows(body, i - start + 1);
                    assert(body.take(i - start + 1) =~= b);
                }
                assert(parse_uint(s@, hi as int) is None);
            }
            return None;
        }
        acc = acc * 10 + d;
        i = i + 1;
    }
    assert(body.take(n - start) =~= body);
    assert(all_digits(body)) by {
        assert forall|j: int| 0 <= j < body.len() implies is_digit(#[trigger] body[j]) by {
            assert(body[j] == s@[j + start]);
        }
    }
    Some(acc)
}

} // verus!
