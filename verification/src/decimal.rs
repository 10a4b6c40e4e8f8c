//! Decimal numbers as text.
use crate::bytes::DASH;
use vstd::arithmetic::power::pow;
use vstd::prelude::*;

verus! {

/// The byte `+`.
pub const PLUS: u8 = 0x2b;

/// The byte `0`.
pub const ZERO: u8 = 0x30;

/// The byte `9`.
pub const NINE: u8 = 0x39;

/// Whether a byte is a decimal digit.
pub open spec fn is_digit(b: u8) -> bool {
    ZERO <= b <= NINE
}

/// Whether a byte string is made of decimal digits.
pub open spec fn all_digits(s: Seq<u8>) -> bool {
    forall|i: int| 0 <= i < s.len() ==> is_digit(#[trigger] s[i])
}

/// The number that a string of decimal digits denotes.
pub open spec fn digits_value(s: Seq<u8>) -> int
    decreases s.len(),
{
    if s.len() == 0 {
        0
    } else {
        10 * digits_value(s.drop_last()) + (s.last() - ZERO)
    }
}

/// A number in decimal, without leading zeros.
pub open spec fn decimal(n: nat) -> Seq<u8>
    decreases n,
{
    if n < 10 {
        seq![(ZERO + n) as u8]
    } else {
        decimal(n / 10).push((ZERO + n % 10) as u8)
    }
}

/// An integer in decimal, with `-` before a negative one.
pub open spec fn signed_decimal(n: int) -> Seq<u8> {
    if n < 0 {
        seq![DASH] + decimal((-n) as nat)
    } else {
        decimal(n as nat)
    }
}

/// The number that follows an optional `+`, if what follows is at least one
/// digit and nothing else.
pub open spec fn unsigned_value(s: Seq<u8>) -> Option<int> {
    let body = if s.len() > 0 && s[0] == PLUS {
        s.skip(1)
    } else {
        s
    };
    if body.len() > 0 && all_digits(body) {
        Some(digits_value(body))
    } else {
        None
    }
}

/// The number that `s` denotes with an optional sign before its digits.
pub open spec fn signed_value(s: Seq<u8>) -> Option<int> {
    if s.len() > 0 && s[0] == DASH {
        let body = s.skip(1);
        if body.len() > 0 && all_digits(body) {
            Some(-digits_value(body))
        } else {
            None
        }
    } else {
        unsigned_value(s)
    }
}

/// The `u32` that `s` denotes: an optional `+`, then at least one digit and
/// nothing else, with a value that fits.
pub open spec fn as_u32(s: Seq<u8>) -> Option<u32> {
    match unsigned_value(s) {
        Some(v) => if v <= u32::MAX {
            Some(v as u32)
        } else {
            None
        },
        None => None,
    }
}

/// The `i32` that `s` denotes: an optional sign, then at least one digit and
/// nothing else, with a value that fits.
pub open spec fn as_i32(s: Seq<u8>) -> Option<i32> {
    match signed_value(s) {
        Some(v) => if i32::MIN <= v <= i32::MAX {
            Some(v as i32)
        } else {
            None
        },
        None => None,
    }
}

proof fn lemma_digits_value_bounds(s: Seq<u8>)
    requires
        all_digits(s),
    ensures
        digits_value(s) >= 0,
    decreases s.len(),
{
    if s.len() > 0 {
        assert(is_digit(s[s.len() - 1]));
        assert forall|i: int| 0 <= i < s.drop_last().len() implies is_digit(
            #[trigger] s.drop_last()[i],
        ) by {
            assert(s.drop_last()[i] == s[i]);
        }
        lemma_digits_value_bounds(s.drop_last());
    }
}

proof fn lemma_digits_value_grows(s: Seq<u8>, k: int)
    requires
        all_digits(s),
        0 <= k <= s.len(),
    ensures
        digits_value(s.take(k)) <= digits_value(s),
    decreases s.len() - k,
{
    if k == s.len() {
        assert(s.take(k) =~= s);
    } else {
        lemma_digits_value_grows(s, k + 1);
        let t = s.take(k + 1);
        assert(t.drop_last() =~= s.take(k));
        assert(t.last() == s[k]);
        assert(is_digit(s[k]));
        assert forall|i: int| 0 <= i < s.take(k).len() implies is_digit(
            #[trigger] s.take(k)[i],
        ) by {
            assert(s.take(k)[i] == s[i]);
        }
        lemma_digits_value_bounds(s.take(k));
    }
}

/// A number in decimal is a string of digits that denotes the number.
pub proof fn decimal_denotes(n: nat)
    ensures
        decimal(n).len() >= 1,
        all_digits(decimal(n)),
        digits_value(decimal(n)) == n,
    decreases n,
{
    if n < 10 {
        let d = decimal(n);
        assert(d.drop_last() =~= Seq::<u8>::empty());
        assert(digits_value(d.drop_last()) == 0);
    } else {
        decimal_denotes(n / 10);
        let d = decimal(n);
        assert(d.drop_last() =~= decimal(n / 10));
        assert forall|i: int| 0 <= i < d.len() implies is_digit(#[trigger] d[i]) by {
            if i < d.len() - 1 {
                assert(d[i] == decimal(n / 10)[i]);
            }
        }
    }
}

/// Reading a number back from its decimal form gives the number.
pub proof fn decimal_reads_back(n: u32)
    ensures
        as_u32(decimal(n as nat)) == Some(n),
{
    decimal_denotes(n as nat);
    let d = decimal(n as nat);
    assert(is_digit(d[0]));
}

/// Reading an integer back from its signed decimal form gives the integer.
pub proof fn signed_decimal_reads_back(n: i32)
    ensures
        as_i32(signed_decimal(n as int)) == Some(n),
{
    let m: nat = if n < 0 {
        (-n) as nat
    } else {
        n as nat
    };
    decimal_denotes(m);
    let d = decimal(m);
    assert(is_digit(d[0]));
    if n < 0 {
        assert(signed_decimal(n as int).skip(1) =~= d);
    }
}

/// The value of the digits from `from` on, up to `limit`.
fn read_digits(s: &[u8], from: usize, limit: u64) -> (r: Option<u64>)
    requires
        from <= s@.len(),
        limit <= 0xffff_ffff,
    ensures
        ({
            let body = s@.skip(from as int);
            match r {
                Some(v) => body.len() > 0 && all_digits(body) && digits_value(body) == v && v
                    <= limit,
                None => !(body.len() > 0 && all_digits(body) && digits_value(body) <= limit),
            }
        }),
{
    let ghost body = s@.skip(from as int);
    if from == s.len() {
        return None;
    }
    let mut i: usize = from;
    let mut v: u64 = 0;
    proof {
        assert(body.take(0) =~= Seq::<u8>::empty());
    }
    while i < s.len()
        invariant
            from <= i <= s@.len(),
            body == s@.skip(from as int),
            limit <= 0xffff_ffff,
            v <= limit,
            forall|j: int| 0 <= j < i - from ==> is_digit(#[trigger] body[j]),
            digits_value(body.take(i - from)) == v,
        decreases s@.len() - i,
    {
        let b = s[i];
        assert(b == body[i - from]);
        if b < ZERO || b > NINE {
            return None;
        }
        let d: u8 = b - ZERO;
        let next: u64 = v * 10 + d as u64;
        proof {
            let t = body.take(i - from + 1);
            assert(t.drop_last() =~= body.take(i - from));
            assert(t.last() == b);
            assert(digits_value(t) == next);
        }
        if next > limit {
            proof {
                if all_digits(body) {
                    lemma_digits_value_grows(body, i - from + 1);
                }
            }
            return None;
        }
        v = next;
        i += 1;
    }
    assert(body.take(i - from) =~= body);
    Some(v)
}

/// Reads a `u32`: an optional `+`, then digits and nothing else.
pub(crate) fn parse_u32(s: &[u8]) -> (r: Option<u32>)
    ensures
        r == as_u32(s@),
{
    let from: usize = if s.len() > 0 && s[0] == PLUS {
        1
    } else {
        0
    };
    assert(s@.skip(0) =~= s@);
    match read_digits(s, from, 0xffff_ffff) {
        Some(v) => Some(v as u32),
        None => None,
    }
}

/// Reads an `i32`: an optional sign, then digits and nothing else.
pub(crate) fn parse_i32(s: &[u8]) -> (r: Option<i32>)
    ensures
        r == as_i32(s@),
{
    assert(s@.skip(0) =~= s@);
    if s.len() > 0 && s[0] == DASH {
        match read_digits(s, 1, 0x8000_0000) {
            Some(v) => Some((-(v as i64)) as i32),
            None => None,
        }
    } else {
        let from: usize = if s.len() > 0 && s[0] == PLUS {
            1
        } else {
            0
        };
        proof {
            let body = s@.skip(from as int);
            if all_digits(body) {
                lemma_digits_value_bounds(body);
            }
        }
        match read_digits(s, from, 0x7fff_ffff) {
            Some(v) => Some(v as i32),
            None => None,
        }
    }
}

/// Appends a number in decimal.
pub(crate) fn push_decimal(out: &mut Vec<u8>, n: u64)
    ensures
        final(out)@ == old(out)@ + decimal(n as nat),
    decreases n,
{
    if n < 10 {
        out.push(ZERO + n as u8);
        assert(out@ =~= old(out)@ + decimal(n as nat));
    } else {
        push_decimal(out, n / 10);
        out.push(ZERO + (n % 10) as u8);
        assert(out@ =~= old(out)@ + decimal(n as nat));
    }
}

/// Appends an integer in decimal.
pub(crate) fn push_signed_decimal(out: &mut Vec<u8>, n: i32)
    ensures
        final(out)@ == old(out)@ + signed_decimal(n as int),
{
    let wide: i64 = n as i64;
    if wide < 0 {
        out.push(DASH);
        push_decimal(out, (-wide) as u64);
        assert(out@ =~= old(out)@ + signed_decimal(n as int));
    } else {
        push_decimal(out, wide as u64);
    }
}

/// Digits have their values, and the value of a string of digits is
/// positional: the first part counts as many times ten as digits follow it.
pub proof fn digits_are_positional(digit: u8, a: Seq<u8>, b: Seq<u8>)
    ensures
        digits_value(seq![digit]) == digit - 0x30,
        digits_value(a + b) == digits_value(a) * pow(10, b.len()) + digits_value(b),
    decreases b.len(),
{
    reveal(pow);
    assert(seq![digit].drop_last() =~= Seq::<u8>::empty());
    assert(digits_value(seq![digit].drop_last()) == 0);
    if b.len() == 0 {
        assert(a + b =~= a);
    } else {
        digits_are_positional(digit, a, b.drop_last());
        assert((a + b).drop_last() =~= a + b.drop_last());
        assert((a + b).last() == b.last());
        let v = digits_value(a);
        let p = pow(10, (b.len() - 1) as nat);
        assert(10 * (v * p) == v * (10 * p)) by (nonlinear_arith);
    }
}

/// A number in decimal has no leading zero, and is made of the digits from
/// `0` to `9` only.
pub proof fn decimals_are_plain(n: nat)
    ensures
        decimal(n).len() > 1 ==> decimal(n)[0] != 0x30,
        n > 0 ==> decimal(n)[0] != 0x30,
        forall|i: int| 0 <= i < decimal(n).len() ==> 0x30 <= #[trigger] decimal(n)[i] <= 0x39,
    decreases n,
{
    decimal_denotes(n);
    assert forall|i: int| 0 <= i < decimal(n).len() implies 0x30 <= #[trigger] decimal(n)[i]
        <= 0x39 by {
        assert(is_digit(decimal(n)[i]));
    }
    if n >= 10 {
        decimals_are_plain(n / 10);
        decimal_denotes(n / 10);
        assert(decimal(n)[0] == decimal(n / 10)[0]);
    }
}

proof fn lemma_zero_in_front(s: Seq<u8>)
    requires
        all_digits(s),
    ensures
        all_digits(seq![0x30u8] + s),
        digits_value(seq![0x30u8] + s) == digits_value(s),
{
    let t = seq![0x30u8] + s;
    digits_are_positional(0x30, seq![0x30u8], s);
    assert(digits_value(seq![0x30u8]) == 0);
    assert forall|i: int| 0 <= i < t.len() implies is_digit(#[trigger] t[i]) by {
        if i > 0 {
            assert(t[i] == s[i - 1]);
        }
    }
    let p = pow(10, s.len());
    assert(0 * p == 0);
}

/// A number without sign may have one `+` before it, and any zeros before
/// its digits. Nothing else may stand in it, and it must fit.
pub proof fn numbers_are_read_strictly(s: Seq<u8>, i: int, n: nat)
    ensures
        !(s.len() > 0 && s[0] == 0x2b) ==> as_u32(seq![0x2bu8] + s) == as_u32(s),
        s.len() > 0 && all_digits(s) ==> as_u32(seq![0x30u8] + s) == as_u32(s),
        0 <= i < s.len() && !(0x30 <= s[i] <= 0x39) && !(i == 0 && s[0] == 0x2b) ==> as_u32(s)
            is None,
        as_u32(Seq::empty()) is None,
        as_u32(seq![0x2bu8]) is None,
        n > u32::MAX ==> as_u32(decimal(n)) is None,
{
    let plus = seq![0x2bu8] + s;
    assert(plus.skip(1) =~= s);
    assert(plus[0] == PLUS);
    if s.len() > 0 && all_digits(s) {
        assert(is_digit(s[0]));
        lemma_zero_in_front(s);
        assert((seq![0x30u8] + s)[0] == 0x30);
    }
    if 0 <= i < s.len() && !(0x30 <= s[i] <= 0x39) && !(i == 0 && s[0] == 0x2b) {
        if s[0] == PLUS {
            assert(s.skip(1)[i - 1] == s[i]);
            assert(!is_digit(s.skip(1)[i - 1]));
        } else {
            assert(!is_digit(s[i]));
        }
    }
    assert(seq![0x2bu8].skip(1) =~= Seq::empty());
    decimal_denotes(n);
    assert(is_digit(decimal(n)[0]));
}

/// A number with sign may have one `+` or `-` before it, and any zeros before
/// its digits. The `-` makes it negative. Nothing else may stand in it, and
/// it must fit.
pub proof fn signed_numbers_are_read_strictly(s: Seq<u8>, i: int, n: nat)
    ensures
        !(s.len() > 0 && (s[0] == 0x2b || s[0] == 0x2d)) ==> as_i32(seq![0x2bu8] + s) == as_i32(s),
        s.len() > 0 && all_digits(s) ==> as_i32(seq![0x30u8] + s) == as_i32(s),
        s.len() > 0 && all_digits(s) ==> as_i32(seq![0x2du8, 0x30u8] + s) == as_i32(
            seq![0x2du8] + s,
        ),
        as_i32(s) matches Some(v) ==> v > i32::MIN && s[0] != 0x2d && s[0] != 0x2b ==> as_i32(
            seq![0x2du8] + s,
        ) == Some((-v) as i32),
        0 <= i < s.len() && !(0x30 <= s[i] <= 0x39) && !(i == 0 && (s[0] == 0x2b || s[0] == 0x2d))
            ==> as_i32(s) is None,
        as_i32(Seq::empty()) is None,
        as_i32(seq![0x2bu8]) is None,
        as_i32(seq![0x2du8]) is None,
        n > i32::MAX ==> as_i32(decimal(n)) is None,
        n > i32::MAX + 1 ==> as_i32(seq![0x2du8] + decimal(n)) is None,
{
    let plus = seq![0x2bu8] + s;
    let minus = seq![0x2du8] + s;
    assert(plus.skip(1) =~= s);
    assert(plus[0] == PLUS);
    assert(minus.skip(1) =~= s);
    assert(minus[0] == DASH);
    if s.len() > 0 && all_digits(s) {
        assert(is_digit(s[0]));
        lemma_zero_in_front(s);
        assert((seq![0x30u8] + s)[0] == 0x30);
        let both = seq![0x2du8, 0x30u8] + s;
        assert(both.skip(1) =~= seq![0x30u8] + s);
        assert(both[0] == DASH);
    }
    if 0 <= i < s.len() && !(0x30 <= s[i] <= 0x39) && !(i == 0 && (s[0] == 0x2b || s[0] == 0x2d)) {
        if s[0] == PLUS || s[0] == DASH {
            assert(s.skip(1)[i - 1] == s[i]);
            assert(!is_digit(s.skip(1)[i - 1]));
        } else {
            assert(!is_digit(s[i]));
        }
    }
    assert(seq![0x2bu8].skip(1) =~= Seq::empty());
    assert(seq![0x2du8].skip(1) =~= Seq::empty());
    decimal_denotes(n);
    assert(is_digit(decimal(n)[0]));
    assert((seq![0x2du8] + decimal(n)).skip(1) =~= decimal(n));
    assert((seq![0x2du8] + decimal(n))[0] == DASH);
}

} // verus!
