//! Decimal numbers as text: reading `-12.5e-3` and the like into integers.
use vstd::prelude::*;
use vstd::arithmetic::div_mod::lemma_div_denominator;

verus! {

/// The most digits, before and after the point together, that are read.
pub const MAX_DIGITS: usize = 30;

/// The most digits of an exponent that are read.
pub const MAX_EXPONENT_DIGITS: usize = 4;

/// A decimal number: `digits * 10^exponent`, negated where `negative`.
#[derive(Debug, Clone, Copy, PartialEq, Eq, Structural)]
pub struct Decimal {
    pub negative: bool,
    pub digits: u128,
    pub exponent: i32,
}

/// A decimal number as plain mathematical values.
pub struct DecimalView {
    pub negative: bool,
    pub digits: nat,
    pub exponent: int,
}

impl View for Decimal {
    type V = DecimalView;

    open spec fn view(&self) -> DecimalView {
        DecimalView {
            negative: self.negative,
            digits: self.digits as nat,
            exponent: self.exponent as int,
        }
    }
}

/// Whether `c` is one of `0` to `9`.
pub open spec fn is_digit(c: char) -> bool {
    '0' <= c <= '9'
}

/// The value of the digit `c`.
pub open spec fn digit_value(c: char) -> nat {
    (c as int - '0' as int) as nat
}

/// Ten to the `n`.
pub open spec fn pow10(n: nat) -> nat
    decreases n,
{
    if n == 0 {
        1
    } else {
        10 * pow10((n - 1) as nat)
    }
}

/// Where the run of digits that starts at `from` ends: the index of the
/// first character at or after `from` that is no digit.
pub open spec fn digits_end(s: Seq<char>, from: int) -> int
    decreases s.len() - from,
{
    if from < 0 || from >= s.len() || !is_digit(s[from]) {
        from
    } else {
        digits_end(s, from + 1)
    }
}

/// The number written by `lead` followed by the digits `s[from..to]`.
pub open spec fn digits_value(lead: nat, s: Seq<char>, from: int, to: int) -> nat
    decreases to - from,
{
    if to <= from {
        lead
    } else {
        digits_value(lead, s, from, to - 1) * 10 + digit_value(s[to - 1])
    }
}

/// Whether `s` has the character `c` at index `i`.
pub open spec fn has_char(s: Seq<char>, i: int, c: char) -> bool {
    0 <= i < s.len() && s[i] == c
}

/// Where the parts of a decimal text lie: an optional `-`, digits, an
/// optional point with digits after it, and an optional `e` or `E` with an
/// optional sign and digits after it.
pub struct Layout {
    /// Whether the text starts with `-`.
    pub negative: bool,
    /// Where the digits before the point start and end.
    pub int_start: int,
    pub int_end: int,
    /// Where the digits after the point start and end; both at `int_end`
    /// where there is no point.
    pub frac_start: int,
    pub frac_end: int,
    /// Whether an exponent follows, and whether it is negative.
    pub has_exponent: bool,
    pub exponent_negative: bool,
    /// Where the digits of the exponent start and end; both at `frac_end`
    /// where there is no exponent.
    pub exp_start: int,
    pub exp_end: int,
}

/// The layout of `s`, read from the left.
pub open spec fn layout_of(s: Seq<char>) -> Layout {
    let negative = has_char(s, 0, '-');
    let int_start = if negative { 1int } else { 0int };
    let int_end = digits_end(s, int_start);
    let has_point = has_char(s, int_end, '.');
    let frac_start = if has_point { int_end + 1 } else { int_end };
    let frac_end = if has_point { digits_end(s, frac_start) } else { int_end };
    let has_exponent = has_char(s, frac_end, 'e') || has_char(s, frac_end, 'E');
    let exponent_negative = has_exponent && has_char(s, frac_end + 1, '-');
    let exp_start = if !has_exponent {
        frac_end
    } else if has_char(s, frac_end + 1, '-') || has_char(s, frac_end + 1, '+') {
        frac_end + 2
    } else {
        frac_end + 1
    };
    let exp_end = if has_exponent { digits_end(s, exp_start) } else { frac_end };
    Layout {
        negative,
        int_start,
        int_end,
        frac_start,
        frac_end,
        has_exponent,
        exponent_negative,
        exp_start,
        exp_end,
    }
}

/// Whether `s` is a decimal number that is read: it has digits before the
/// point, digits after a point and after an `e` where it has these, nothing
/// after them, at most `MAX_DIGITS` digits before and after the point
/// together, and at most `MAX_EXPONENT_DIGITS` digits of exponent.
pub open spec fn is_decimal(s: Seq<char>) -> bool {
    let l = layout_of(s);
    &&& l.int_end > l.int_start
    &&& l.frac_start > l.int_end ==> l.frac_end > l.frac_start
    &&& l.has_exponent ==> l.exp_end > l.exp_start
    &&& l.exp_end == s.len()
    &&& (l.int_end - l.int_start) + (l.frac_end - l.frac_start) <= MAX_DIGITS
    &&& l.exp_end - l.exp_start <= MAX_EXPONENT_DIGITS
}

/// The number that the decimal text `s` writes, or `None` where `s` is not
/// read.
pub open spec fn parse_decimal(s: Seq<char>) -> Option<DecimalView> {
    let l = layout_of(s);
    if is_decimal(s) {
        let written = digits_value(0, s, l.exp_start, l.exp_end) as int;
        Some(
            DecimalView {
                negative: l.negative,
                digits: digits_value(
                    digits_value(0, s, l.int_start, l.int_end),
                    s,
                    l.frac_start,
                    l.frac_end,
                ),
                exponent: (if l.exponent_negative {
                    -written
                } else {
                    written
                }) - (l.frac_end - l.frac_start),
            },
        )
    } else {
        None
    }
}

/// `digits * 10^exponent`, rounded down.
pub open spec fn shifted(digits: nat, exponent: int) -> nat {
    if exponent >= 0 {
        digits * pow10(exponent as nat)
    } else {
        digits / pow10((-exponent) as nat)
    }
}

/// The smaller of two numbers.
pub open spec fn at_most(x: nat, cap: nat) -> nat {
    if x <= cap {
        x
    } else {
        cap
    }
}

impl DecimalView {
    /// The number as a count: rounded toward zero, zero where it is
    /// negative, `usize::MAX` where it is larger.
    pub open spec fn to_count(self) -> nat {
        if self.negative {
            0
        } else {
            at_most(shifted(self.digits, self.exponent), usize::MAX as nat)
        }
    }

    /// The number in millionths: rounded toward zero, and at most
    /// `i64::MAX` in size.
    pub open spec fn to_fixed(self) -> int {
        let size = at_most(shifted(self.digits, self.exponent + 6), i64::MAX as nat);
        if self.negative {
            -size
        } else {
            size as int
        }
    }
}

/// Powers of ten are positive.
pub proof fn lemma_pow10_positive(n: nat)
    ensures
        pow10(n) > 0,
    decreases n,
{
    if n > 0 {
        lemma_pow10_positive((n - 1) as nat);
    }
}

/// A run of at most `n` digits after `lead` writes a number below
/// `(lead + 1) * 10^n`.
pub proof fn lemma_digits_bounded(lead: nat, s: Seq<char>, from: int, to: int)
    requires
        0 <= from <= to <= s.len(),
        forall|i: int| from <= i < to ==> is_digit(#[trigger] s[i]),
    ensures
        digits_value(lead, s, from, to) < (lead + 1) * pow10((to - from) as nat),
    decreases to - from,
{
    if to > from {
        lemma_digits_bounded(lead, s, from, to - 1);
        let before = digits_value(lead, s, from, to - 1);
        let p = pow10((to - 1 - from) as nat);
        assert(is_digit(s[to - 1]));
        assert(before * 10 + 9 < (lead + 1) * (10 * p)) by (nonlinear_arith)
            requires
                before < (lead + 1) * p,
        ;
    } else {
        assert((lead + 1) * 1 == lead + 1) by (nonlinear_arith);
    }
}

/// Finds the end of the run of digits that starts at `from`.
pub fn scan_digits(text: &Vec<char>, from: usize) -> (r: usize)
    requires
        from <= text@.len(),
    ensures
        r == digits_end(text@, from as int),
        from <= r <= text@.len(),
        forall|i: int| from <= i < r ==> is_digit(#[trigger] text@[i]),
{
    let mut i: usize = from;
    while i < text.len() && text[i] >= '0' && text[i] <= '9'
        invariant
            from <= i <= text@.len(),
            digits_end(text@, from as int) == digits_end(text@, i as int),
            forall|j: int| from <= j < i ==> is_digit(#[trigger] text@[j]),
        decreases text@.len() - i,
    {
        i += 1;
    }
    i
}

/// Reads the digits `text[from..to]` after `lead`.
pub fn read_digits(lead: u128, text: &Vec<char>, from: usize, to: usize) -> (r: u128)
    requires
        from <= to <= text@.len(),
        forall|i: int| from <= i < to ==> is_digit(#[trigger] text@[i]),
        (lead + 1) * pow10((to - from) as nat) <= u128::MAX,
    ensures
        r == digits_value(lead as nat, text@, from as int, to as int),
{
    let mut value: u128 = lead;
    let mut i: usize = from;
    while i < to
        invariant
            from <= i <= to <= text@.len(),
            forall|j: int| from <= j < to ==> is_digit(#[trigger] text@[j]),
            (lead + 1) * pow10((to - from) as nat) <= u128::MAX,
            value == digits_value(lead as nat, text@, from as int, i as int),
        decreases to - i,
    {
        proof {
            lemma_digits_bounded(lead as nat, text@, from as int, i as int + 1);
            lemma_pow10_grows((i + 1 - from) as nat, (to - from) as nat);
            assert((lead + 1) * pow10((i + 1 - from) as nat) <= (lead + 1) * pow10(
                (to - from) as nat,
            )) by (nonlinear_arith)
                requires
                    pow10((i + 1 - from) as nat) <= pow10((to - from) as nat),
                    lead >= 0,
            ;
            assert(is_digit(text@[i as int]));
        }
        let digit: u128 = ((text[i] as u32) - ('0' as u32)) as u128;
        value = value * 10 + digit;
        i += 1;
    }
    value
}

/// Powers of ten grow with the exponent.
pub proof fn lemma_pow10_grows(m: nat, n: nat)
    requires
        m <= n,
    ensures
        pow10(m) <= pow10(n),
    decreases n,
{
    if m < n {
        lemma_pow10_grows(m, (n - 1) as nat);
    }
}

/// The product of two powers of ten is the power of the summed exponents.
pub proof fn lemma_pow10_adds(m: nat, n: nat)
    ensures
        pow10(m) * pow10(n) == pow10(m + n),
    decreases n,
{
    if n > 0 {
        lemma_pow10_adds(m, (n - 1) as nat);
        assert(pow10(m) * (10 * pow10((n - 1) as nat)) == 10 * (pow10(m) * pow10((n - 1) as nat)))
            by (nonlinear_arith);
    } else {
        assert(pow10(m) * 1 == pow10(m)) by (nonlinear_arith);
    }
}

/// Ten to the thirtieth, written out.
pub proof fn lemma_pow10_thirty()
    ensures
        pow10(30) == 1_000_000_000_000_000_000_000_000_000_000,
        pow10(4) == 10_000,
{
    reveal_with_fuel(pow10, 31);
}

/// The characters of a text, one by one.
pub fn text_chars(text: &str) -> (r: Vec<char>)
    ensures
        r@ == text@,
{
    let mut out: Vec<char> = Vec::new();
    for c in it: text.chars()
        invariant
            out@ == it.seq().take(it.index() as int),
            it.seq() == text@,
    {
        out.push(c);
    }
    out
}

/// Reads a decimal number from its text.
pub fn parse_decimal_text(text: &str) -> (r: Option<Decimal>)
    ensures
        match r {
            Some(d) => parse_decimal(text@) == Some(d@),
            None => parse_decimal(text@) is None,
        },
{
    let chars = text_chars(text);
    parse_decimal_chars(&chars)
}

/// Reads a decimal number from its characters.
pub fn parse_decimal_chars(text: &Vec<char>) -> (r: Option<Decimal>)
    ensures
        match r {
            Some(d) => parse_decimal(text@) == Some(d@),
            None => parse_decimal(text@) is None,
        },
{
    let n = text.len();
    let ghost l = layout_of(text@);
    let negative = n > 0 && text[0] == '-';
    let int_start: usize = if negative { 1 } else { 0 };
    let int_end = scan_digits(text, int_start);
    if int_end == int_start {
        return None;
    }
    let has_point = int_end < n && text[int_end] == '.';
    let frac_start: usize = if has_point { int_end + 1 } else { int_end };
    let frac_end: usize = if has_point { scan_digits(text, frac_start) } else { int_end };
    if has_point && frac_end == frac_start {
        return None;
    }
    let has_exponent = frac_end < n && (text[frac_end] == 'e' || text[frac_end] == 'E');
    let signed = has_exponent && frac_end + 1 < n && (text[frac_end + 1] == '-' || text[frac_end
        + 1] == '+');
    let exponent_negative = signed && text[frac_end + 1] == '-';
    let exp_start: usize = if !has_exponent {
        frac_end
    } else if signed {
        frac_end + 2
    } else {
        frac_end + 1
    };
    let exp_end: usize = if has_exponent { scan_digits(text, exp_start) } else { frac_end };
    assert(l.int_start == int_start && l.int_end == int_end && l.frac_start == frac_start
        && l.frac_end == frac_end && l.exp_start == exp_start && l.exp_end == exp_end
        && l.negative == negative && l.has_exponent == has_exponent && l.exponent_negative
        == exponent_negative);
    if has_exponent && exp_end == exp_start {
        return None;
    }
    if exp_end != n {
        return None;
    }
    let int_len = int_end - int_start;
    let frac_len = frac_end - frac_start;
    if int_len + frac_len > MAX_DIGITS || exp_end - exp_start > MAX_EXPONENT_DIGITS {
        return None;
    }
    proof {
        lemma_pow10_thirty();
        lemma_pow10_grows(int_len as nat, 30);
        lemma_pow10_grows((exp_end - exp_start) as nat, 4);
        lemma_pow10_grows((int_len + frac_len) as nat, 30);
        lemma_pow10_adds(int_len as nat, frac_len as nat);
        lemma_digits_bounded(0, text@, int_start as int, int_end as int);
        lemma_digits_bounded(0, text@, exp_start as int, exp_end as int);
        assert(1 * pow10(int_len as nat) == pow10(int_len as nat)) by (nonlinear_arith);
        assert(1 * pow10((exp_end - exp_start) as nat) == pow10((exp_end - exp_start) as nat))
            by (nonlinear_arith);
    }
    let whole = read_digits(0, text, int_start, int_end);
    proof {
        assert((whole + 1) * pow10(frac_len as nat) <= pow10(int_len as nat) * pow10(
            frac_len as nat,
        )) by (nonlinear_arith)
            requires
                whole + 1 <= pow10(int_len as nat),
        ;
    }
    let digits = read_digits(whole, text, frac_start, frac_end);
    let written = read_digits(0, text, exp_start, exp_end);
    let exponent: i32 = if exponent_negative {
        -(written as i32) - (frac_len as i32)
    } else {
        (written as i32) - (frac_len as i32)
    };
    Some(Decimal { negative, digits, exponent })
}

/// Once a number has reached the cap, more powers of ten keep it there;
/// and zero stays zero.
pub proof fn lemma_shift_settled(digits: nat, k: nat, n: nat, cap: nat)
    requires
        k <= n,
        digits * pow10(k) >= cap || digits * pow10(k) == 0,
    ensures
        at_most(digits * pow10(n), cap) == at_most(digits * pow10(k), cap),
{
    lemma_pow10_grows(k, n);
    lemma_pow10_positive(k);
    assert(digits * pow10(k) <= digits * pow10(n)) by (nonlinear_arith)
        requires
            pow10(k) <= pow10(n),
    ;
    if digits * pow10(k) == 0 {
        assert(digits == 0) by (nonlinear_arith)
            requires
                digits * pow10(k) == 0,
                pow10(k) > 0,
        ;
        assert(digits * pow10(n) == 0) by (nonlinear_arith)
            requires
                digits == 0,
        ;
    }
}

/// Once dividing by a power of ten has left nothing, dividing by a larger
/// one leaves nothing.
pub proof fn lemma_shift_vanished(digits: nat, k: nat, n: nat)
    requires
        k <= n,
        digits / pow10(k) == 0,
    ensures
        digits / pow10(n) == 0,
{
    lemma_pow10_grows(k, n);
    lemma_pow10_positive(k);
    assert(digits / pow10(n) == 0) by (nonlinear_arith)
        requires
            digits / pow10(k) == 0,
            0 < pow10(k) <= pow10(n),
    ;
}

/// Computes `digits * 10^exponent`, rounded down and capped at `cap`.
pub fn shift_capped(digits: u128, exponent: i64, cap: u64) -> (r: u64)
    ensures
        r == at_most(shifted(digits as nat, exponent as int), cap as nat),
{
    if exponent >= 0 {
        let mut x: u128 = if digits <= cap as u128 { digits } else { cap as u128 };
        let mut k: i64 = 0;
        assert(digits * pow10(0) == digits) by (nonlinear_arith)
            requires
                pow10(0) == 1,
        ;
        while k < exponent && 0 < x && x < cap as u128
            invariant
                0 <= k <= exponent,
                x == at_most(digits as nat * pow10(k as nat), cap as nat),
            decreases exponent - k,
        {
            proof {
                let a = digits as nat * pow10(k as nat);
                assert(digits as nat * pow10((k + 1) as nat) == a * 10) by (nonlinear_arith)
                    requires
                        pow10((k + 1) as nat) == 10 * pow10(k as nat),
                        a == digits as nat * pow10(k as nat),
                ;
            }
            let next: u128 = x * 10;
            x = if next <= cap as u128 { next } else { cap as u128 };
            k += 1;
        }
        proof {
            if k < exponent {
                lemma_shift_settled(digits as nat, k as nat, exponent as nat, cap as nat);
            }
        }
        x as u64
    } else {
        let mut x: u128 = digits;
        let mut k: i64 = 0;
        assert(digits as int / 1 == digits);
        while k > exponent && x > 0
            invariant
                exponent <= k <= 0,
                x == digits as nat / pow10((-k) as nat),
            decreases k - exponent,
        {
            proof {
                lemma_pow10_positive((-k) as nat);
                lemma_div_denominator(digits as int, pow10((-k) as nat) as int, 10);
                assert(pow10((-k) as nat) * 10 == pow10((-(k - 1)) as nat));
            }
            x = x / 10;
            k -= 1;
        }
        proof {
            if k > exponent {
                lemma_shift_vanished(digits as nat, (-k) as nat, (-exponent) as nat);
            }
        }
        if x <= cap as u128 {
            x as u64
        } else {
            cap
        }
    }
}

impl Decimal {
    /// The number as a count: rounded toward zero, zero where it is
    /// negative, `usize::MAX` where it is larger.
    pub fn to_count(&self) -> (r: usize)
        ensures
            r == self@.to_count(),
    {
        if self.negative {
            0
        } else {
            shift_capped(self.digits, self.exponent as i64, usize::MAX as u64) as usize
        }
    }

    /// The number in millionths: rounded toward zero, and at most
    /// `i64::MAX` in size.
    pub fn to_fixed(&self) -> (r: i64)
        ensures
            r == self@.to_fixed(),
    {
        let size = shift_capped(self.digits, (self.exponent as i64) + 6, i64::MAX as u64);
        if self.negative {
            -(size as i64)
        } else {
            size as i64
        }
    }
}

} // verus!
