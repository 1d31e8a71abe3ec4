//! Small verified text helpers: decimal rendering, zero padding and string comparison.
use vstd::prelude::*;

verus! {

/// The decimal digit character for `d` (0..=9).
pub open spec fn digit_char(d: int) -> char {
    seq!['0', '1', '2', '3', '4', '5', '6', '7', '8', '9'][d]
}

/// The decimal rendering of `n`, without leading zeros ("0" for zero).
pub open spec fn decimal(n: nat) -> Seq<char>
    decreases n,
{
    if n < 10 {
        seq![digit_char(n as int)]
    } else {
        decimal(n / 10).push(digit_char((n % 10) as int))
    }
}

/// `s` left-padded with '0' up to `width` characters.
pub open spec fn zero_pad(s: Seq<char>, width: nat) -> Seq<char> {
    if s.len() >= width {
        s
    } else {
        Seq::new((width - s.len()) as nat, |i: int| '0') + s
    }
}

fn digit_str(d: u64) -> (r: &'static str)
    requires
        d < 10,
    ensures
        r@ == seq![digit_char(d as int)],
{
    proof {
        reveal_strlit("0");
        reveal_strlit("1");
        reveal_strlit("2");
        reveal_strlit("3");
        reveal_strlit("4");
        reveal_strlit("5");
        reveal_strlit("6");
        reveal_strlit("7");
        reveal_strlit("8");
        reveal_strlit("9");
    }
    match d {
        0 => "0",
        1 => "1",
        2 => "2",
        3 => "3",
        4 => "4",
        5 => "5",
        6 => "6",
        7 => "7",
        8 => "8",
        _ => "9",
    }
}

/// Appends the decimal rendering of `n` to `s`.
pub fn push_decimal(s: &mut String, n: u128)
    ensures
        final(s)@ == old(s)@ + decimal(n as nat),
    decreases n,
{
    if n >= 10 {
        push_decimal(s, n / 10);
    }
    let d = digit_str((n % 10) as u64);
    s.append(d);
}


proof fn lemma_decimal_len(n: nat)
    ensures
        decimal(n).len() >= 1,
        n < 10 ==> decimal(n).len() == 1,
        n >= 10 ==> decimal(n).len() == decimal(n / 10).len() + 1,
    decreases n,
{
    if n >= 10 {
        lemma_decimal_len(n / 10);
    }
}

pub open spec fn pow10(k: nat) -> nat
    decreases k,
{
    if k == 0 {
        1
    } else {
        10 * pow10((k - 1) as nat)
    }
}

proof fn lemma_decimal_len_bound(n: nat, k: nat)
    requires
        1 <= k,
        n < pow10(k),
    ensures
        decimal(n).len() <= k,
    decreases n,
{
    lemma_decimal_len(n);
    if n >= 10 {
        if k == 1 {
            assert(pow10(1) == 10) by {
                reveal_with_fuel(pow10, 2);
            }
        } else {
            let p = pow10((k - 1) as nat);
            assert(n / 10 < p) by (nonlinear_arith)
                requires
                    n < 10 * p,
            ;
            lemma_decimal_len_bound(n / 10, (k - 1) as nat);
        }
    }
}

proof fn lemma_decimal_len_u64(n: u64)
    ensures
        decimal(n as nat).len() <= 20,
{
    assert(pow10(20) == 100000000000000000000) by {
        reveal_with_fuel(pow10, 21);
    }
    lemma_decimal_len_bound(n as nat, 20);
}

/// Appends the decimal rendering of `n`, zero-padded to `width` characters.
pub fn push_padded(s: &mut String, n: u64, width: u64)
    ensures
        final(s)@ == old(s)@ + zero_pad(decimal(n as nat), width as nat),
{
    let ghost digits = decimal(n as nat);
    proof {
        lemma_decimal_len_u64(n);
    }
    let mut len: u64 = 1;
    let mut m: u64 = n;
    while m >= 10
        invariant
            1 <= len,
            m <= n,
            digits == decimal(n as nat),
            digits.len() <= 20,
            digits.len() == decimal(m as nat).len() + len - 1,
        decreases m,
    {
        proof {
            lemma_decimal_len(m as nat);
            lemma_decimal_len((m / 10) as nat);
        }
        m = m / 10;
        len = len + 1;
    }
    proof {
        lemma_decimal_len(m as nat);
    }
    assert(len == digits.len());
    let ghost start = s@;
    let mut pad: u64 = len;
    while pad < width
        invariant
            len <= pad,
            pad == len || pad <= width,
            s@ == start + Seq::new((pad - len) as nat, |i: int| '0'),
        decreases width - pad,
    {
        proof {
            reveal_strlit("0");
        }
        s.append("0");
        assert(s@ =~= start + Seq::new((pad + 1 - len) as nat, |i: int| '0'));
        pad = pad + 1;
    }
    push_decimal(s, n as u128);
    proof {
        if (len as nat) < width as nat {
            assert(s@ =~= start + (Seq::new((width - len) as nat, |i: int| '0') + digits));
        } else {
            assert(s@ =~= start + digits);
        }
    }
}

/// Whether two strings hold the same characters.
pub fn str_eq(a: &str, b: &str) -> (r: bool)
    ensures
        r == (a@ == b@),
{
    let x = String::from_str(a);
    let y = String::from_str(b);
    x == y
}

/// The characters Rust's `char::is_whitespace` accepts (Unicode White_Space).
pub open spec fn is_white(c: char) -> bool {
    c == ' ' || ('\t' <= c && c <= '\r') || c == '\u{85}' || c == '\u{a0}' || c == '\u{1680}' || (
    '\u{2000}' <= c && c <= '\u{200a}') || c == '\u{2028}' || c == '\u{2029}' || c == '\u{202f}'
        || c == '\u{205f}' || c == '\u{3000}'
}

/// Nothing but white space: what is left empty by trimming.
pub open spec fn blank(s: Seq<char>) -> bool {
    forall|i: int| 0 <= i < s.len() ==> is_white(#[trigger] s[i])
}

/// Whether `s` holds nothing but white space.
pub fn is_blank(s: &str) -> (r: bool)
    ensures
        r == blank(s@),
{
    let n = s.unicode_len();
    let mut i: usize = 0;
    while i < n
        invariant
            n == s@.len(),
            i <= n,
            forall|k: int| 0 <= k < i ==> is_white(#[trigger] s@[k]),
        decreases n - i,
    {
        let c = s.get_char(i);
        let white = c == ' ' || ('\t' <= c && c <= '\r') || c == '\u{85}' || c == '\u{a0}' || c
            == '\u{1680}' || ('\u{2000}' <= c && c <= '\u{200a}') || c == '\u{2028}' || c
            == '\u{2029}' || c == '\u{202f}' || c == '\u{205f}' || c == '\u{3000}';
        if !white {
            return false;
        }
        i = i + 1;
    }
    true
}

/// Whether two byte strings are equal.
pub fn bytes_eq(a: &[u8], b: &[u8]) -> (r: bool)
    ensures
        r == (a@ == b@),
{
    if a.len() != b.len() {
        return false;
    }
    let mut i: usize = 0;
    while i < a.len()
        invariant
            a@.len() == b@.len(),
            i <= a@.len(),
            forall|k: int| 0 <= k < i ==> a@[k] == b@[k],
        decreases a@.len() - i,
    {
        if a[i] != b[i] {
            return false;
        }
        i = i + 1;
    }
    assert(a@ =~= b@);
    true
}

/// `v` base units (1e-8) as a decimal number with `decimals` fraction digits,
/// truncated: a '-' for negatives, the whole part, '.', then the fraction.
pub open spec fn fixed_text(v: int, decimals: nat) -> Seq<char> {
    let m = if v < 0 {
        -v
    } else {
        v
    };
    (if v < 0 {
        seq!['-']
    } else {
        Seq::empty()
    }) + decimal((m / 100_000_000) as nat) + seq!['.'] + zero_pad(
        decimal((m % 100_000_000 / pow10((8 - decimals) as nat) as int) as nat),
        decimals,
    )
}

/// Appends `v` base units as a decimal number with `decimals` fraction digits.
pub fn push_fixed(s: &mut String, v: i128, decimals: u64)
    requires
        v > i128::MIN,
        decimals <= 8,
    ensures
        final(s)@ == old(s)@ + fixed_text(v as int, decimals as nat),
{
    let ghost start = s@;
    let m: u128 = if v < 0 {
        (-v) as u128
    } else {
        v as u128
    };
    proof {
        reveal_strlit("-");
        reveal_strlit(".");
    }
    if v < 0 {
        s.append("-");
    }
    let ghost sign = s@;
    push_decimal(s, m / 100_000_000);
    s.append(".");
    let mut p: u64 = 1;
    let mut k: u64 = 0;
    while k < 8 - decimals
        invariant
            decimals <= 8,
            k <= 8 - decimals,
            p == pow10(k as nat),
            p <= 100_000_000,
        decreases 8 - decimals - k,
    {
        proof {
            reveal_with_fuel(pow10, 2);
            assert(pow10((k + 1) as nat) == 10 * pow10(k as nat));
            lemma_pow10_bound(k as nat);
        }
        p = p * 10;
        k = k + 1;
    }
    proof {
        lemma_pow10_pos(k as nat);
    }
    let frac = ((m % 100_000_000) as u64) / p;
    push_padded(s, frac, decimals);
    proof {
        if v < 0 {
            assert(sign == start + seq!['-']);
        } else {
            assert(sign == start);
        }
        assert(s@ =~= start + fixed_text(v as int, decimals as nat));
    }
}

proof fn lemma_pow10_pos(k: nat)
    ensures
        pow10(k) >= 1,
    decreases k,
{
    if k > 0 {
        lemma_pow10_pos((k - 1) as nat);
    }
}

proof fn lemma_pow10_bound(k: nat)
    requires
        k < 8,
    ensures
        pow10(k + 1) <= 100_000_000,
{
    reveal_with_fuel(pow10, 9);
    assert(k == 0 || k == 1 || k == 2 || k == 3 || k == 4 || k == 5 || k == 6 || k == 7);
}

} // verus!
