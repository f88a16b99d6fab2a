use vstd::prelude::*;
use vstd::string::*;

verus! {

pub open spec fn is_digit(c: char) -> bool {
    '0' <= c && c <= '9'
}

pub open spec fn all_digits(s: Seq<char>) -> bool {
    forall|i: int| 0 <= i < s.len() ==> is_digit(#[trigger] s[i])
}

/// The number that a run of decimal digits writes, most significant first.
pub open spec fn digits_value(s: Seq<char>) -> int
    decreases s.len(),
{
    if s.len() == 0 {
        0
    } else {
        digits_value(s.drop_last()) * 10 + (s.last() as int - '0' as int)
    }
}

/// The integer that `s` writes in decimal: an optional `+` (or `-`, where
/// `signed`) and then one or more digits, nothing else.
pub open spec fn integer_value(s: Seq<char>, signed: bool) -> Option<int> {
    if s.len() > 0 && (s[0] == '+' || (signed && s[0] == '-')) {
        let d = s.drop_first();
        if d.len() > 0 && all_digits(d) {
            Some(if s[0] == '-' { -digits_value(d) } else { digits_value(d) })
        } else {
            None
        }
    } else if s.len() > 0 && all_digits(s) {
        Some(digits_value(s))
    } else {
        None
    }
}

/// The integer that `s` writes, where it lies in `lo..=hi`.
pub open spec fn integer_in(s: Seq<char>, signed: bool, lo: int, hi: int) -> Option<int> {
    match integer_value(s, signed) {
        Some(n) => if lo <= n && n <= hi {
            Some(n)
        } else {
            None
        },
        None => None,
    }
}

proof fn lemma_digits_nonneg(s: Seq<char>)
    requires
        all_digits(s),
    ensures
        digits_value(s) >= 0,
    decreases s.len(),
{
    if s.len() > 0 {
        lemma_digits_nonneg(s.drop_last());
    }
}

/// Digits appended to a run never make its value smaller.
proof fn lemma_digits_prefix(s: Seq<char>, k: int)
    requires
        all_digits(s),
        0 <= k <= s.len(),
    ensures
        digits_value(s) >= digits_value(s.subrange(0, k)),
    decreases s.len(),
{
    if k == s.len() {
        assert(s.subrange(0, k) =~= s);
    } else {
        let t = s.drop_last();
        lemma_digits_prefix(t, k);
        lemma_digits_nonneg(t);
        assert(t.subrange(0, k) =~= s.subrange(0, k));
    }
}

/// Reads the digits of `s` from `start` to its end, as long as their value
/// stays within `limit`.
fn digits_within(s: &str, start: usize, limit: u128) -> (r: Option<u128>)
    requires
        start <= s@.len(),
    ensures
        ({
            let d = s@.subrange(start as int, s@.len() as int);
            match r {
                Some(n) => d.len() > 0 && all_digits(d) && n == digits_value(d),
                None => !(d.len() > 0 && all_digits(d) && digits_value(d) <= limit),
            }
        }),
        r matches Some(n) ==> n <= limit,
{
    let len = s.unicode_len();
    if start == len {
        return None;
    }
    let mut acc: u128 = 0;
    let mut i: usize = start;
    while i < len
        invariant
            len == s@.len(),
            start <= i <= len,
            acc <= limit,
            all_digits(s@.subrange(start as int, i as int)),
            acc == digits_value(s@.subrange(start as int, i as int)),
        decreases len - i,
    {
        let c = s.get_char(i);
        let ghost full = s@.subrange(start as int, len as int);
        let ghost next = s@.subrange(start as int, i + 1);
        assert(next.drop_last() =~= s@.subrange(start as int, i as int));
        if c < '0' || c > '9' {
            assert(!is_digit(full[i - start]));
            return None;
        }
        let d: u128 = (c as u32 - '0' as u32) as u128;
        if d > limit || acc > (limit - d) / 10 {
            proof {
                assert(acc * 10 + d > limit) by (nonlinear_arith)
                    requires
                        d > limit || acc > (limit - d) / 10,
                        acc >= 0,
                ;
                if all_digits(full) {
                    lemma_digits_prefix(full, i + 1 - start);
                    assert(full.subrange(0, i + 1 - start) =~= next);
                }
            }
            return None;
        }
        proof {
            assert(acc * 10 + d <= limit) by (nonlinear_arith)
                requires
                    acc <= (limit - d) / 10,
                    d <= 9,
            ;
        }
        acc = acc * 10 + d;
        i = i + 1;
    }
    Some(acc)
}

/// Parses `s` as an unsigned decimal integer of at most `max`.
pub fn parse_unsigned(s: &str, max: u128) -> (r: Option<u128>)
    ensures
        match r {
            Some(n) => integer_in(s@, false, 0, max as int) == Some(n as int),
            None => integer_in(s@, false, 0, max as int) is None,
        },
{
    let len = s.unicode_len();
    if len == 0 {
        return None;
    }
    let start: usize = if s.get_char(0) == '+' { 1 } else { 0 };
    let r = digits_within(s, start, max);
    proof {
        assert(s@.subrange(0, len as int) =~= s@);
        assert(s@.subrange(1, len as int) =~= s@.drop_first());
        if start == 0 && r is None && s@.len() > 0 && all_digits(s@) {
            lemma_digits_nonneg(s@);
        }
        if start == 1 && r is None && all_digits(s@.drop_first()) {
            lemma_digits_nonneg(s@.drop_first());
        }
        if start == 0 && s@[0] == '-' {
            assert(!is_digit(s@[0]));
        }
    }
    r
}

/// Parses `s` as a signed decimal integer in `min..=max`.
pub fn parse_signed(s: &str, min: i128, max: i128) -> (r: Option<i128>)
    ensures
        match r {
            Some(n) => integer_in(s@, true, min as int, max as int) == Some(n as int),
            None => integer_in(s@, true, min as int, max as int) is None,
        },
{
    let len = s.unicode_len();
    if len == 0 {
        return None;
    }
    let first = s.get_char(0);
    proof {
        assert(s@.subrange(0, len as int) =~= s@);
        assert(s@.subrange(1, len as int) =~= s@.drop_first());
        if all_digits(s@.drop_first()) {
            lemma_digits_nonneg(s@.drop_first());
        }
        if all_digits(s@) {
            lemma_digits_nonneg(s@);
        }
    }
    if first == '-' {
        if min > 0 {
            // A written negative is at most zero.
            return None;
        }
        let limit: u128 = if min == 0 {
            0
        } else {
            (-(min + 1)) as u128 + 1
        };
        assert(limit == -(min as int));
        match digits_within(s, 1, limit) {
            Some(m) => {
                let v: i128 = if m == 0 {
                    0
                } else {
                    -((m - 1) as i128) - 1
                };
                if v > max {
                    None
                } else {
                    Some(v)
                }
            },
            None => None,
        }
    } else {
        if max < 0 {
            // A number written without `-` is at least zero.
            return None;
        }
        let start: usize = if first == '+' { 1 } else { 0 };
        let r = digits_within(s, start, max as u128);
        match r {
            Some(n) => {
                if (n as i128) < min {
                    None
                } else {
                    Some(n as i128)
                }
            },
            None => None,
        }
    }
}

/// The digit that writes `d`, for `d` in `0..10`.
pub open spec fn digit_char(d: int) -> char {
    seq!['0', '1', '2', '3', '4', '5', '6', '7', '8', '9'][d]
}

/// The shortest decimal digits of `n`.
pub open spec fn digits_text(n: nat) -> Seq<char>
    decreases n,
{
    if n < 10 {
        seq![digit_char(n as int)]
    } else {
        digits_text(n / 10).push(digit_char((n % 10) as int))
    }
}

/// The canonical decimal text of `n`: `-` before the digits of a negative
/// number, no sign otherwise.
pub open spec fn decimal_text(n: int) -> Seq<char> {
    if n < 0 {
        seq!['-'] + digits_text((-n) as nat)
    } else {
        digits_text(n as nat)
    }
}

proof fn lemma_digit_char(d: int)
    requires
        0 <= d < 10,
    ensures
        is_digit(digit_char(d)),
        digit_char(d) as int - '0' as int == d,
{
    let t = seq!['0', '1', '2', '3', '4', '5', '6', '7', '8', '9'];
    assert(t[0] == '0' && t[1] == '1' && t[2] == '2' && t[3] == '3' && t[4] == '4');
    assert(t[5] == '5' && t[6] == '6' && t[7] == '7' && t[8] == '8' && t[9] == '9');
}

proof fn lemma_digits_text(n: nat)
    ensures
        digits_text(n).len() > 0,
        all_digits(digits_text(n)),
        digits_value(digits_text(n)) == n,
    decreases n,
{
    if n < 10 {
        lemma_digit_char(n as int);
        assert(digits_text(n).drop_last() =~= Seq::<char>::empty());
        assert(digits_value(Seq::<char>::empty()) == 0);
    } else {
        lemma_digits_text(n / 10);
        lemma_digit_char((n % 10) as int);
        let t = digits_text(n);
        assert(t.drop_last() =~= digits_text(n / 10));
        assert(t.last() == digit_char((n % 10) as int));
        assert((n / 10) * 10 + n % 10 == n) by (nonlinear_arith);
        assert forall|i: int| 0 <= i < t.len() implies is_digit(#[trigger] t[i]) by {
            if i < t.len() - 1 {
                assert(t[i] == digits_text(n / 10)[i]);
            }
        }
    }
}

/// The canonical decimal text of an integer reads back as that integer
/// (a negative one where a sign is allowed).
pub proof fn lemma_decimal_text_value(n: int, signed: bool)
    requires
        signed || n >= 0,
    ensures
        integer_value(decimal_text(n), signed) == Some(n),
{
    if n < 0 {
        let d = digits_text((-n) as nat);
        lemma_digits_text((-n) as nat);
        assert(decimal_text(n).drop_first() =~= d);
    } else {
        let d = digits_text(n as nat);
        lemma_digits_text(n as nat);
        assert(is_digit(d[0]));
    }
}

} // verus!
