//! Decimal integers: parsing as `str::parse` does and formatting as
//! `Display` does.
use vstd::prelude::*;

verus! {

/// The value of an ASCII decimal digit.
pub open spec fn digit_value(c: char) -> int {
    (c as int) - ('0' as int)
}

/// Whether `c` is one of `0`..=`9`.
pub open spec fn is_digit(c: char) -> bool {
    '0' <= c && c <= '9'
}

/// The value of a string of ASCII digits, most significant first.
pub open spec fn digits_value(d: Seq<char>) -> int
    decreases d.len(),
{
    if d.len() == 0 {
        0
    } else {
        digits_value(d.drop_last()) * 10 + digit_value(d.last())
    }
}

/// Every character is an ASCII digit.
pub open spec fn all_digits(d: Seq<char>) -> bool {
    forall|k: int| 0 <= k < d.len() ==> is_digit(#[trigger] d[k])
}

/// `str::parse` for an integer type, before the range check: an optional
/// `+` (or, for signed types, `-`) followed by at least one ASCII digit.
pub open spec fn parse_int_spec(s: Seq<char>, signed: bool) -> Option<int> {
    if s.len() == 0 {
        None
    } else {
        let neg = signed && s[0] == '-';
        let d = if s[0] == '+' || neg {
            s.drop_first()
        } else {
            s
        };
        if d.len() > 0 && all_digits(d) {
            Some(
                if neg {
                    -digits_value(d)
                } else {
                    digits_value(d)
                },
            )
        } else {
            None
        }
    }
}

/// `s.parse::<i64>()`.
pub open spec fn parse_i64_spec(s: Seq<char>) -> Option<i64> {
    match parse_int_spec(s, true) {
        Some(v) => if i64::MIN <= v <= i64::MAX {
            Some(v as i64)
        } else {
            None
        },
        None => None,
    }
}

/// `s.parse::<u32>()` (also the range of `parse::<usize>` on small values).
pub open spec fn parse_u32_spec(s: Seq<char>) -> Option<u32> {
    match parse_int_spec(s, false) {
        Some(v) => if 0 <= v <= u32::MAX {
            Some(v as u32)
        } else {
            None
        },
        None => None,
    }
}

/// `s.parse::<i32>()`.
pub open spec fn parse_i32_spec(s: Seq<char>) -> Option<i32> {
    match parse_int_spec(s, true) {
        Some(v) => if i32::MIN <= v <= i32::MAX {
            Some(v as i32)
        } else {
            None
        },
        None => None,
    }
}

/// `s.parse::<usize>()`.
pub open spec fn parse_usize_spec(s: Seq<char>) -> Option<usize> {
    match parse_int_spec(s, false) {
        Some(v) => if 0 <= v <= usize::MAX {
            Some(v as usize)
        } else {
            None
        },
        None => None,
    }
}

proof fn lemma_digits_value_nonneg(d: Seq<char>)
    requires
        all_digits(d),
    ensures
        digits_value(d) >= 0,
    decreases d.len(),
{
    if d.len() > 0 {
        assert(is_digit(d[d.len() - 1]));
        assert(all_digits(d.drop_last())) by {
            assert forall|k: int| 0 <= k < d.drop_last().len() implies is_digit(
                #[trigger] d.drop_last()[k],
            ) by {
                assert(d.drop_last()[k] == d[k]);
            }
        }
        lemma_digits_value_nonneg(d.drop_last());
    }
}

proof fn lemma_digits_value_mono(d: Seq<char>, j: int)
    requires
        all_digits(d),
        0 <= j <= d.len(),
    ensures
        digits_value(d.take(j)) <= digits_value(d),
    decreases d.len(),
{
    if j < d.len() {
        let p = d.drop_last();
        assert(all_digits(p)) by {
            assert forall|k: int| 0 <= k < p.len() implies is_digit(#[trigger] p[k]) by {
                assert(p[k] == d[k]);
            }
        }
        lemma_digits_value_mono(p, j);
        assert(p.take(j) =~= d.take(j));
        lemma_digits_value_nonneg(p);
        assert(is_digit(d[d.len() - 1]));
    } else {
        assert(d.take(j) =~= d);
    }
}

/// Parses an optionally signed decimal integer as `str::parse` does.
/// `None` when the syntax is wrong or the magnitude exceeds `u64::MAX`.
pub fn parse_integer(s: &[char], signed: bool) -> (r: Option<i128>)
    ensures
        r matches Some(v) ==> parse_int_spec(s@, signed) == Some(v as int),
        r is None ==> match parse_int_spec(s@, signed) {
            Some(v) => v > u64::MAX || v < -(u64::MAX as int),
            None => true,
        },
{
    if s.len() == 0 {
        return None;
    }
    let neg = signed && s[0] == '-';
    let start: usize = if s[0] == '+' || neg {
        1
    } else {
        0
    };
    let ghost d = if s@[0] == '+' || neg {
        s@.drop_first()
    } else {
        s@
    };
    assert(d =~= s@.skip(start as int));
    if start >= s.len() {
        return None;
    }
    let mut acc: u64 = 0;
    let mut i = start;
    while i < s.len()
        invariant
            start <= i <= s.len(),
            s.len() > 0,
            d == s@.skip(start as int),
            neg == (signed && s@[0] == '-'),
            d == (if s@[0] == '+' || neg {
                s@.drop_first()
            } else {
                s@
            }),
            d.len() > 0,
            all_digits(d.take(i - start)),
            acc as int == digits_value(d.take(i - start)),
        decreases s.len() - i,
    {
        let c = s[i];
        assert(d[i - start] == c);
        if !('0' <= c && c <= '9') {
            proof {
                assert(!is_digit(d[i - start]));
                assert(!all_digits(d));
                assert(parse_int_spec(s@, signed) is None);
            }
            return None;
        }
        let dv = (c as u64) - ('0' as u64);
        assert(d.take(i - start + 1).drop_last() =~= d.take(i - start));
        assert(all_digits(d.take(i - start + 1))) by {
            assert forall|k: int| 0 <= k < i - start + 1 implies is_digit(
                #[trigger] d.take(i - start + 1)[k],
            ) by {
                if k < i - start {
                    assert(d.take(i - start + 1)[k] == d.take(i - start)[k]);
                }
            }
        }
        match acc.checked_mul(10) {
            Some(m) => match m.checked_add(dv) {
                Some(n) => {
                    acc = n;
                },
                None => {
                    proof {
                        if all_digits(d) {
                            lemma_digits_value_mono(d, i - start + 1);
                            assert(digits_value(d.take(i - start + 1)) == m + dv);
                            lemma_digits_value_nonneg(d);
                        }
                    }
                    return None;
                },
            },
            None => {
                proof {
                    if all_digits(d) {
                        lemma_digits_value_mono(d, i - start + 1);
                        assert(digits_value(d.take(i - start + 1)) == acc * 10 + dv);
                        assert(acc * 10 > u64::MAX);
                        lemma_digits_value_nonneg(d);
                    }
                }
                return None;
            },
        }
        i = i + 1;
    }
    assert(d.take(i - start) =~= d);
    proof {
        lemma_digits_value_nonneg(d);
    }
    if neg {
        Some(-(acc as i128))
    } else {
        Some(acc as i128)
    }
}

/// `s.parse::<i64>()`.
pub fn parse_i64(s: &[char]) -> (r: Option<i64>)
    ensures
        r == parse_i64_spec(s@),
{
    match parse_integer(s, true) {
        Some(v) => if v >= i64::MIN as i128 && v <= i64::MAX as i128 {
            Some(v as i64)
        } else {
            None
        },
        None => None,
    }
}

/// `s.parse::<i32>()`.
pub fn parse_i32(s: &[char]) -> (r: Option<i32>)
    ensures
        r == parse_i32_spec(s@),
{
    match parse_integer(s, true) {
        Some(v) => if v >= i32::MIN as i128 && v <= i32::MAX as i128 {
            Some(v as i32)
        } else {
            None
        },
        None => None,
    }
}

/// `s.parse::<u32>()`.
pub fn parse_u32(s: &[char]) -> (r: Option<u32>)
    ensures
        r == parse_u32_spec(s@),
{
    match parse_integer(s, false) {
        Some(v) => if v >= 0 && v <= u32::MAX as i128 {
            Some(v as u32)
        } else {
            None
        },
        None => None,
    }
}

/// `s.parse::<usize>()`.
pub fn parse_usize(s: &[char]) -> (r: Option<usize>)
    ensures
        r == parse_usize_spec(s@),
{
    match parse_integer(s, false) {
        Some(v) => if v >= 0 && v <= usize::MAX as i128 {
            Some(v as usize)
        } else {
            None
        },
        None => None,
    }
}

/// The character of a decimal digit.
pub open spec fn digit_char(d: int) -> char {
    (('0' as int) + d) as char
}

/// Decimal digits of `n` without leading zeros (`"0"` for zero).
pub open spec fn nat_digits(n: nat) -> Seq<char>
    decreases n,
{
    if n < 10 {
        seq![digit_char(n as int)]
    } else {
        nat_digits(n / 10).push(digit_char((n % 10) as int))
    }
}

/// `n` as `Display` writes it.
pub open spec fn int_decimal(n: int) -> Seq<char> {
    if n < 0 {
        seq!['-'] + nat_digits((-n) as nat)
    } else {
        nat_digits(n as nat)
    }
}

/// `n` zero-padded on the left to at least `width` characters, after the
/// sign (`format!("{n:0width$}")`).
pub open spec fn int_padded(n: int, width: nat) -> Seq<char> {
    if n < 0 {
        seq!['-'] + zero_pad(nat_digits((-n) as nat), if width > 0 {
            (width - 1) as nat
        } else {
            0
        })
    } else {
        zero_pad(nat_digits(n as nat), width)
    }
}

/// `d` with `'0'`s in front until it is `width` long.
pub open spec fn zero_pad(d: Seq<char>, width: nat) -> Seq<char> {
    if d.len() >= width {
        d
    } else {
        Seq::new((width - d.len()) as nat, |i: int| '0') + d
    }
}

fn digit_to_char(d: u64) -> (c: char)
    requires
        d < 10,
    ensures
        c == digit_char(d as int),
{
    ((48u8 + d as u8) as char)
}

/// Decimal digits of `n`.
pub fn u64_chars(n: u64) -> (out: Vec<char>)
    ensures
        out@ == nat_digits(n as nat),
{
    let mut m = n;
    let mut acc: Vec<char> = Vec::new();
    assert(nat_digits(n as nat) =~= nat_digits(m as nat) + acc@);
    while m >= 10
        invariant
            nat_digits(n as nat) == nat_digits(m as nat) + acc@,
        decreases m,
    {
        let c = digit_to_char(m % 10);
        let ghost prev = acc@;
        proof {
            assert(nat_digits(m as nat) == nat_digits((m / 10) as nat).push(c));
            assert(nat_digits(m as nat) + prev =~= nat_digits((m / 10) as nat) + (seq![c]
                + prev));
        }
        acc.insert(0, c);
        assert(acc@ =~= seq![c] + prev);
        m = m / 10;
    }
    let c = digit_to_char(m);
    let ghost prev = acc@;
    acc.insert(0, c);
    assert(acc@ =~= seq![c] + prev);
    assert(nat_digits(m as nat) =~= seq![c]);
    acc
}

/// `n` as `Display` writes it.
pub fn i64_chars(n: i64) -> (out: Vec<char>)
    ensures
        out@ == int_decimal(n as int),
{
    if n < 0 {
        let mag: u64 = if n == i64::MIN {
            9223372036854775808u64
        } else {
            (-n) as u64
        };
        let d = u64_chars(mag);
        let mut out: Vec<char> = Vec::new();
        out.push('-');
        let mut d2 = d;
        out.append(&mut d2);
        assert(out@ =~= seq!['-'] + nat_digits((-n) as nat));
        out
    } else {
        u64_chars(n as u64)
    }
}

/// `n` zero-padded to `width` characters after the sign.
pub fn i64_padded(n: i64, width: usize) -> (out: Vec<char>)
    ensures
        out@ == int_padded(n as int, width as nat),
{
    let neg = n < 0;
    let mag: u64 = if n == i64::MIN {
        9223372036854775808u64
    } else if neg {
        (-n) as u64
    } else {
        n as u64
    };
    let digits = u64_chars(mag);
    let w: usize = if neg {
        if width > 0 {
            width - 1
        } else {
            0
        }
    } else {
        width
    };
    let mut out: Vec<char> = Vec::new();
    if neg {
        out.push('-');
    }
    let ghost head = out@;
    let mut k: usize = digits.len();
    while k < w
        invariant
            digits.len() <= k <= w || (w < digits.len() && k == digits.len()),
            out@ == head + Seq::new((k - digits.len()) as nat, |i: int| '0'),
        decreases w - k,
    {
        out.push('0');
        k = k + 1;
        assert(out@ =~= head + Seq::new((k - digits.len()) as nat, |i: int| '0'));
    }
    let ghost zeros = out@;
    let mut d2 = digits;
    out.append(&mut d2);
    proof {
        let pad = zero_pad(nat_digits(mag as nat), w as nat);
        if digits@.len() >= w {
            assert(k == digits.len());
            assert(out@ =~= head + pad);
        } else {
            assert(k == w);
            assert(out@ =~= head + pad);
        }
        if neg {
            assert(head =~= seq!['-']);
        } else {
            assert(head =~= Seq::<char>::empty());
            assert(out@ =~= pad);
        }
    }
    out
}

/// `10` to the power `k`.
pub open spec fn pow10(k: nat) -> nat
    decreases k,
{
    if k == 0 {
        1
    } else {
        10 * pow10((k - 1) as nat)
    }
}

/// The decimal digits of `n` are digits, at least one of them, and read
/// back as `n`.
pub proof fn lemma_nat_digits(n: nat)
    ensures
        nat_digits(n).len() >= 1,
        all_digits(nat_digits(n)),
        digits_value(nat_digits(n)) == n,
    decreases n,
{
    if n >= 10 {
        lemma_nat_digits(n / 10);
        let d = nat_digits(n / 10);
        let e = nat_digits(n);
        assert(e == d.push(digit_char((n % 10) as int)));
        assert(e.drop_last() =~= d);
        assert forall|k: int| 0 <= k < e.len() implies is_digit(#[trigger] e[k]) by {
            if k < d.len() {
                assert(e[k] == d[k]);
            }
        }
        assert(digit_value(digit_char((n % 10) as int)) == n % 10);
        assert(e.last() == digit_char((n % 10) as int));
        assert(digits_value(e) == digits_value(e.drop_last()) * 10 + digit_value(e.last()));
        assert(digits_value(e) == digits_value(d) * 10 + n % 10);
        assert((n / 10) * 10 + n % 10 == n) by (nonlinear_arith);
    } else {
        let e = nat_digits(n);
        assert(digit_value(digit_char(n as int)) == n);
        assert(e.drop_last() =~= Seq::<char>::empty());
        assert(e.last() == digit_char(n as int));
        assert(digits_value(e.drop_last()) == 0);
        assert(digits_value(e) == digits_value(e.drop_last()) * 10 + digit_value(e.last()));
    }
}

/// A number below `10^k` has at most `k` decimal digits (`k >= 1`).
pub proof fn lemma_nat_digits_len(n: nat, k: nat)
    requires
        k >= 1,
        n < pow10(k),
    ensures
        nat_digits(n).len() <= k,
    decreases n,
{
    if n >= 10 {
        let k1 = (k - 1) as nat;
        assert(pow10(k) == 10 * pow10(k1));
        assert(n / 10 < pow10(k1)) by (nonlinear_arith)
            requires
                n < 10 * pow10(k1),
                n >= 10,
        {
        }
        if k1 == 0 {
            assert(pow10(0) == 1);
        } else {
            lemma_nat_digits_len(n / 10, k1);
        }
    }
}

/// `int_decimal` is one-to-one, and its characters are digits or a
/// leading `-`.
pub proof fn lemma_int_decimal_injective(n: int, m: int)
    requires
        int_decimal(n) == int_decimal(m),
    ensures
        n == m,
{
    if n < 0 {
        lemma_nat_digits((-n) as nat);
    } else {
        lemma_nat_digits(n as nat);
    }
    if m < 0 {
        lemma_nat_digits((-m) as nat);
    } else {
        lemma_nat_digits(m as nat);
    }
    let a = int_decimal(n);
    if n < 0 && m < 0 {
        assert(a.drop_first() =~= nat_digits((-n) as nat));
        assert(int_decimal(m).drop_first() =~= nat_digits((-m) as nat));
    } else if n < 0 {
        assert(a[0] == '-');
        assert(is_digit(nat_digits(m as nat)[0]));
    } else if m < 0 {
        assert(int_decimal(m)[0] == '-');
        assert(is_digit(nat_digits(n as nat)[0]));
    }
}

/// The characters of `int_decimal(n)` are digits, or a `-` in front.
pub proof fn lemma_int_decimal_chars(n: int)
    ensures
        forall|k: int|
            0 <= k < int_decimal(n).len() ==> is_digit(#[trigger] int_decimal(n)[k]) || (k == 0
                && int_decimal(n)[k] == '-'),
        int_decimal(n).len() >= 1,
{
    if n < 0 {
        lemma_nat_digits((-n) as nat);
        let d = nat_digits((-n) as nat);
        assert forall|k: int| 0 <= k < int_decimal(n).len() implies is_digit(
            #[trigger] int_decimal(n)[k],
        ) || (k == 0 && int_decimal(n)[k] == '-') by {
            if k > 0 {
                assert(int_decimal(n)[k] == d[k - 1]);
            }
        }
    } else {
        lemma_nat_digits(n as nat);
    }
}

/// An `i64` has at most 20 characters in decimal.
pub proof fn lemma_i64_decimal_len(n: i64)
    ensures
        int_decimal(n as int).len() <= 20,
{
    assert(pow10(19) == 10000000000000000000nat) by {
        reveal_with_fuel(pow10, 20);
    }
    if n < 0 {
        lemma_nat_digits_len((-n) as nat, 19);
    } else {
        lemma_nat_digits_len(n as nat, 19);
    }
}

} // verus!
