//! Exact decimal numbers: the numeric fields of a record are kept as the
//! decimal that their text denotes, `mantissa / 10^scale`.
use vstd::prelude::*;

use crate::text::copy_range;

verus! {

/// Most significant digits that a decimal keeps.
pub const MAX_DIGITS: usize = 18;

/// The number `mantissa / 10^scale`.
#[derive(Clone, Copy, Debug, PartialEq, Eq, Structural)]
pub struct Decimal {
    pub mantissa: i64,
    pub scale: u32,
}

pub open spec fn pow10(n: nat) -> nat
    decreases n,
{
    if n == 0 {
        1
    } else {
        10 * pow10((n - 1) as nat)
    }
}

impl Decimal {
    /// At most `MAX_DIGITS` digits in all, at most `MAX_DIGITS` of them after the point.
    pub open spec fn wf(&self) -> bool {
        &&& self.scale <= MAX_DIGITS
        &&& -pow10(MAX_DIGITS as nat) < self.mantissa < pow10(MAX_DIGITS as nat)
    }

    /// Absolute value of the mantissa.
    pub open spec fn magnitude(&self) -> nat {
        vstd::math::abs(self.mantissa as int)
    }
}

pub open spec fn is_digit_char(c: char) -> bool {
    '0' <= c && c <= '9'
}

pub open spec fn digit_of(c: char) -> nat {
    ((c as u32) - ('0' as u32)) as nat
}

/// Length of the run of decimal digits at the start of `s`.
pub open spec fn digit_run(s: Seq<char>) -> nat
    decreases s.len(),
{
    if s.len() > 0 && is_digit_char(s[0]) {
        1 + digit_run(s.drop_first())
    } else {
        0
    }
}

/// The number that a string of decimal digits denotes.
pub open spec fn digits_value(s: Seq<char>) -> nat
    decreases s.len(),
{
    if s.len() == 0 {
        0
    } else {
        digits_value(s.drop_last()) * 10 + digit_of(s.last())
    }
}

pub open spec fn sign_len(s: Seq<char>) -> int {
    if s.len() > 0 && (s[0] == '+' || s[0] == '-') {
        1
    } else {
        0
    }
}

/// The decimal written by `s`: an optional sign, digits, and optionally a
/// point followed by digits, with at least one digit and at most
/// `MAX_DIGITS` in all. `None` for any other text.
pub open spec fn decimal_of(s: Seq<char>) -> Option<Decimal> {
    let b = s.subrange(sign_len(s), s.len() as int);
    let k = digit_run(b) as int;
    let whole = b.subrange(0, k);
    let rest = b.subrange(k, b.len() as int);
    let frac = if rest.len() > 0 {
        rest.drop_first()
    } else {
        Seq::empty()
    };
    if rest.len() > 0 && (rest[0] != '.' || digit_run(frac) < frac.len()) {
        None
    } else {
        decimal_from_digits(s.len() > 0 && s[0] == '-', whole + frac, frac.len())
    }
}

pub open spec fn decimal_from_digits(negative: bool, ds: Seq<char>, scale: nat) -> Option<
    Decimal,
> {
    if ds.len() == 0 || ds.len() > MAX_DIGITS {
        None
    } else {
        let v = digits_value(ds) as int;
        Some(Decimal { mantissa: (if negative { -v } else { v }) as i64, scale: scale as u32 })
    }
}

pub proof fn lemma_digit_run(s: Seq<char>)
    ensures
        digit_run(s) <= s.len(),
        forall|i: int| 0 <= i < digit_run(s) ==> is_digit_char(#[trigger] s[i]),
        digit_run(s) < s.len() ==> !is_digit_char(s[digit_run(s) as int]),
    decreases s.len(),
{
    if s.len() > 0 && is_digit_char(s[0]) {
        lemma_digit_run(s.drop_first());
        assert forall|i: int| 0 <= i < digit_run(s) implies is_digit_char(#[trigger] s[i]) by {
            if i > 0 {
                assert(s[i] == s.drop_first()[i - 1]);
            }
        }
    }
}

pub proof fn lemma_pow10_mono(a: nat, b: nat)
    requires
        a <= b,
    ensures
        1 <= pow10(a) <= pow10(b),
    decreases b,
{
    if b > a {
        lemma_pow10_mono(a, (b - 1) as nat);
    } else if a > 0 {
        lemma_pow10_mono((a - 1) as nat, (a - 1) as nat);
    }
}

pub proof fn lemma_pow10_values()
    ensures
        pow10(4) == 10_000,
        pow10(6) == 1_000_000,
        pow10(18) == 1_000_000_000_000_000_000,
        pow10(26) == 100_000_000_000_000_000_000_000_000,
{
    reveal_with_fuel(pow10, 27);
}

/// Value bound of a string of digits.
pub proof fn lemma_digits_value_bound(s: Seq<char>)
    requires
        forall|i: int| 0 <= i < s.len() ==> is_digit_char(#[trigger] s[i]),
    ensures
        digits_value(s) < pow10(s.len()),
    decreases s.len(),
{
    if s.len() > 0 {
        let p = s.drop_last();
        assert forall|i: int| 0 <= i < p.len() implies is_digit_char(#[trigger] p[i]) by {
            assert(p[i] == s[i]);
        }
        lemma_digits_value_bound(p);
        assert(is_digit_char(s[s.len() - 1]));
        let v = digits_value(p);
        let d = digit_of(s.last());
        let q = pow10(p.len());
        assert(v * 10 + d < 10 * q) by (nonlinear_arith)
            requires
                v < q,
                d <= 9,
        ;
    }
}

pub proof fn lemma_digit_run_all(s: Seq<char>)
    requires
        forall|i: int| 0 <= i < s.len() ==> is_digit_char(#[trigger] s[i]),
    ensures
        digit_run(s) == s.len(),
    decreases s.len(),
{
    if s.len() > 0 {
        let t = s.drop_first();
        assert forall|i: int| 0 <= i < t.len() implies is_digit_char(#[trigger] t[i]) by {
            assert(t[i] == s[i + 1]);
        }
        lemma_digit_run_all(t);
    }
}

/// A prefix of a string of digits denotes at most what the whole string does.
pub proof fn lemma_digits_value_prefix(s: Seq<char>, k: int)
    requires
        0 <= k <= s.len(),
    ensures
        digits_value(s.subrange(0, k)) <= digits_value(s),
    decreases s.len(),
{
    if k == s.len() {
        assert(s.subrange(0, k) =~= s);
    } else {
        let p = s.drop_last();
        assert(p.subrange(0, k) =~= s.subrange(0, k));
        lemma_digits_value_prefix(p, k);
    }
}

/// One past the last index of the run of digits that starts at `from`.
fn digit_run_end(t: &[char], from: usize) -> (e: usize)
    requires
        from <= t@.len(),
    ensures
        from <= e <= t@.len(),
        e - from == digit_run(t@.subrange(from as int, t@.len() as int)),
{
    let n = t.len();
    let mut i: usize = from;
    assert(t@.subrange(i as int, n as int).len() == n - i);
    while i < n && '0' <= t[i] && t[i] <= '9'
        invariant
            from <= i <= n == t@.len(),
            digit_run(t@.subrange(from as int, n as int)) == (i - from) + digit_run(
                t@.subrange(i as int, n as int),
            ),
        decreases n - i,
    {
        assert(t@.subrange(i as int, n as int).drop_first() =~= t@.subrange(i + 1, n as int));
        i += 1;
    }
    i
}

/// The number that a string of at most `MAX_DIGITS` digits denotes.
fn digits_to_u64(ds: &[char]) -> (r: u64)
    requires
        ds@.len() <= MAX_DIGITS,
        forall|i: int| 0 <= i < ds@.len() ==> is_digit_char(#[trigger] ds@[i]),
    ensures
        r == digits_value(ds@),
        r < pow10(ds@.len()),
{
    let mut m: u64 = 0;
    let mut i: usize = 0;
    proof {
        lemma_pow10_values();
        lemma_pow10_mono(ds@.len(), MAX_DIGITS as nat);
    }
    while i < ds.len()
        invariant
            i <= ds@.len() <= MAX_DIGITS,
            pow10(ds@.len()) <= pow10(MAX_DIGITS as nat),
            pow10(MAX_DIGITS as nat) == 1_000_000_000_000_000_000,
            forall|j: int| 0 <= j < ds@.len() ==> is_digit_char(#[trigger] ds@[j]),
            m == digits_value(ds@.subrange(0, i as int)),
        decreases ds@.len() - i,
    {
        let ghost pre = ds@.subrange(0, i as int);
        let ghost next = ds@.subrange(0, i + 1);
        assert(next.drop_last() =~= pre);
        assert forall|j: int| 0 <= j < next.len() implies is_digit_char(#[trigger] next[j]) by {
            assert(next[j] == ds@[j]);
        }
        proof {
            lemma_digits_value_bound(next);
            lemma_pow10_mono(next.len(), ds@.len());
        }
        let d = (ds[i] as u32 - '0' as u32) as u64;
        m = m * 10 + d;
        i += 1;
    }
    assert(ds@.subrange(0, ds@.len() as int) =~= ds@);
    proof {
        lemma_digits_value_bound(ds@);
    }
    m
}

impl Decimal {
    /// Reads a decimal from text that has no surrounding whitespace.
    pub fn parse_chars(t: &[char]) -> (r: Option<Decimal>)
        ensures
            r == decimal_of(t@),
            r matches Some(d) ==> d.wf(),
    {
        let n = t.len();
        let negative = n > 0 && t[0] == '-';
        let start: usize = if n > 0 && (t[0] == '+' || t[0] == '-') {
            1
        } else {
            0
        };
        let ghost b = t@.subrange(start as int, n as int);
        let k_end = digit_run_end(t, start);
        assert(b.subrange(0, (k_end - start) as int) =~= t@.subrange(start as int, k_end as int));
        assert(b.subrange((k_end - start) as int, b.len() as int) =~= t@.subrange(
            k_end as int,
            n as int,
        ));
        let mut ds = copy_range(t, start, k_end);
        let mut scale: usize = 0;
        if k_end < n {
            if t[k_end] != '.' {
                return None;
            }
            let f_end = digit_run_end(t, k_end + 1);
            assert(t@.subrange(k_end as int, n as int).drop_first() =~= t@.subrange(
                k_end + 1,
                n as int,
            ));
            if f_end != n {
                return None;
            }
            let mut frac = copy_range(t, k_end + 1, n);
            scale = n - (k_end + 1);
            ds.append(&mut frac);
        } else {
            assert(ds@ + Seq::<char>::empty() =~= ds@);
        }
        if ds.len() == 0 || ds.len() > MAX_DIGITS {
            return None;
        }
        proof {
            lemma_digit_run(b);
            let fr = t@.subrange(k_end + 1, n as int);
            if k_end < n {
                lemma_digit_run(fr);
            }
            assert forall|i: int| 0 <= i < ds@.len() implies is_digit_char(#[trigger] ds@[i]) by {
                if i < k_end - start {
                    assert(ds@[i] == b[i]);
                } else {
                    assert(ds@[i] == fr[i - (k_end - start)]);
                }
            }
            lemma_pow10_values();
        }
        let v = digits_to_u64(ds.as_slice());
        proof {
            lemma_pow10_mono(ds@.len(), MAX_DIGITS as nat);
        }
        let m: i64 = if negative {
            -(v as i64)
        } else {
            v as i64
        };
        Some(Decimal { mantissa: m, scale: scale as u32 })
    }
}


/// The character of the decimal digit `d`.
pub open spec fn digit_char(d: nat) -> char {
    seq!['0', '1', '2', '3', '4', '5', '6', '7', '8', '9'][d as int]
}

/// Decimal digits of `n`, without leading zeros.
pub open spec fn nat_text(n: nat) -> Seq<char>
    decreases n,
{
    if n < 10 {
        seq![digit_char(n)]
    } else {
        nat_text(n / 10).push(digit_char(n % 10))
    }
}

/// The last `width` decimal digits of `n`, with leading zeros.
pub open spec fn padded_text(n: nat, width: nat) -> Seq<char>
    decreases width,
{
    if width == 0 {
        Seq::empty()
    } else {
        padded_text(n / 10, (width - 1) as nat).push(digit_char(n % 10))
    }
}

/// The number `v / 10^places` written with exactly `places` digits after the
/// point (no point when `places` is 0), after a minus sign when `negative`.
pub open spec fn fixed_text(negative: bool, v: nat, places: nat) -> Seq<char> {
    let sign = if negative {
        seq!['-']
    } else {
        Seq::empty()
    };
    let whole = nat_text(v / pow10(places));
    if places == 0 {
        sign + whole
    } else {
        sign + whole + seq!['.'] + padded_text(v % pow10(places), places)
    }
}

/// `n / d` rounded to the nearest integer, halves upwards.
pub open spec fn round_div(n: nat, d: nat) -> nat {
    (2 * n + d) / (2 * d)
}

/// `v / 10^s` with the trailing zeros of the fraction dropped.
pub open spec fn strip_zeros(v: nat, s: nat) -> (nat, nat)
    decreases s,
{
    if s > 0 && v % 10 == 0 {
        strip_zeros(v / 10, (s - 1) as nat)
    } else {
        (v, s)
    }
}

/// The shortest text of `d`: no trailing zeros after the point, and no point
/// for a whole number.
pub open spec fn plain_text(d: Decimal) -> Seq<char> {
    let (v, s) = strip_zeros(d.magnitude(), d.scale as nat);
    fixed_text(d.mantissa < 0, v, s)
}

/// `d * factor / 10^shift`, rounded to `places` digits after the point
/// (halves away from zero).
pub open spec fn scaled_text(d: Decimal, factor: nat, shift: nat, places: nat) -> Seq<char> {
    fixed_text(
        d.mantissa < 0,
        round_div(d.magnitude() * factor * pow10(places), pow10((d.scale + shift) as nat)),
        places,
    )
}

fn digit_char_of(d: u128) -> (c: char)
    requires
        d < 10,
    ensures
        c == digit_char(d as nat),
{
    let table: [char; 10] = ['0', '1', '2', '3', '4', '5', '6', '7', '8', '9'];
    assert(table@ =~= seq!['0', '1', '2', '3', '4', '5', '6', '7', '8', '9']);
    table[d as usize]
}

fn push_nat(out: &mut Vec<char>, n: u128)
    ensures
        final(out)@ == old(out)@ + nat_text(n as nat),
    decreases n,
{
    if n < 10 {
        out.push(digit_char_of(n));
        assert(final(out)@ =~= old(out)@ + nat_text(n as nat));
    } else {
        push_nat(out, n / 10);
        out.push(digit_char_of(n % 10));
        assert(out@ =~= old(out)@ + nat_text(n as nat));
    }
}

fn push_padded(out: &mut Vec<char>, n: u128, width: u32)
    ensures
        final(out)@ == old(out)@ + padded_text(n as nat, width as nat),
    decreases width,
{
    if width == 0 {
        assert(final(out)@ =~= old(out)@ + padded_text(n as nat, width as nat));
    } else {
        push_padded(out, n / 10, width - 1);
        out.push(digit_char_of(n % 10));
        assert(out@ =~= old(out)@ + padded_text(n as nat, width as nat));
    }
}

fn pow10_u128(n: u32) -> (r: u128)
    requires
        n <= 30,
    ensures
        r == pow10(n as nat),
{
    let mut r: u128 = 1;
    let mut i: u32 = 0;
    proof {
        lemma_pow10_mono(n as nat, 30);
        reveal_with_fuel(pow10, 31);
    }
    while i < n
        invariant
            i <= n <= 30,
            r == pow10(i as nat),
            pow10(n as nat) <= pow10(30),
            pow10(30) == 1_000_000_000_000_000_000_000_000_000_000,
        decreases n - i,
    {
        proof {
            lemma_pow10_mono((i + 1) as nat, n as nat);
        }
        r = r * 10;
        i += 1;
    }
    r
}

/// Appends `fixed_text(negative, v, places)`.
fn push_fixed(out: &mut Vec<char>, negative: bool, v: u128, places: u32)
    requires
        places <= 30,
    ensures
        final(out)@ == old(out)@ + fixed_text(negative, v as nat, places as nat),
{
    if negative {
        out.push('-');
    }
    let p = pow10_u128(places);
    proof {
        lemma_pow10_mono(0, places as nat);
    }
    push_nat(out, v / p);
    if places > 0 {
        out.push('.');
        push_padded(out, v % p, places);
    }
    assert(out@ =~= old(out)@ + fixed_text(negative, v as nat, places as nat));
}

fn magnitude_of(d: Decimal) -> (r: u64)
    requires
        d.wf(),
    ensures
        r == d.magnitude(),
        r < pow10(MAX_DIGITS as nat),
{
    proof {
        lemma_pow10_values();
    }
    if d.mantissa < 0 {
        (-d.mantissa) as u64
    } else {
        d.mantissa as u64
    }
}

/// Appends `plain_text(d)`.
pub fn push_plain(out: &mut Vec<char>, d: Decimal)
    requires
        d.wf(),
    ensures
        final(out)@ == old(out)@ + plain_text(d),
{
    let mut v = magnitude_of(d);
    let mut s: u32 = d.scale;
    while s > 0 && v % 10 == 0
        invariant
            strip_zeros(d.magnitude(), d.scale as nat) == strip_zeros(v as nat, s as nat),
            s <= MAX_DIGITS,
        decreases s,
    {
        v = v / 10;
        s = s - 1;
    }
    push_fixed(out, d.mantissa < 0, v as u128, s);
}

/// Appends `scaled_text(d, factor, shift, places)`.
pub fn push_scaled(out: &mut Vec<char>, d: Decimal, factor: u32, shift: u32, places: u32)
    requires
        d.wf(),
        factor <= 1_000_000,
        shift <= 6,
        places <= 6,
    ensures
        final(out)@ == old(out)@ + scaled_text(d, factor as nat, shift as nat, places as nat),
{
    let m = magnitude_of(d) as u128;
    proof {
        lemma_pow10_values();
        lemma_pow10_mono(places as nat, 6);
        lemma_pow10_mono((d.scale + shift) as nat, 24);
        lemma_pow10_mono(0, (d.scale + shift) as nat);
        lemma_pow10_mono(24, 26);
    }
    let pp = pow10_u128(places);
    let q = pow10_u128(d.scale + shift);
    assert(m * factor < 1_000_000_000_000_000_000_000_000) by (nonlinear_arith)
        requires
            m < 1_000_000_000_000_000_000,
            factor <= 1_000_000,
    ;
    let n = m * (factor as u128);
    assert(n * pp <= 1_000_000_000_000_000_000_000_000_000_000) by (nonlinear_arith)
        requires
            n < 1_000_000_000_000_000_000_000_000,
            pp <= 1_000_000,
    ;
    let n2 = n * pp;
    let v = (2 * n2 + q) / (2 * q);
    push_fixed(out, d.mantissa < 0, v, places);
}

impl Decimal {
    /// Whether this value is well formed, as every value that `parse` returns is.
    pub fn is_well_formed(&self) -> (r: bool)
        ensures
            r == self.wf(),
    {
        proof {
            lemma_pow10_values();
        }
        self.scale <= 18 && -1_000_000_000_000_000_000 < self.mantissa && self.mantissa
            < 1_000_000_000_000_000_000
    }

    /// Reads a decimal from text, ignoring surrounding whitespace.
    pub fn parse(s: &str) -> (r: Option<Decimal>)
        ensures
            r == decimal_of(crate::text::trim(s@)),
            r matches Some(d) ==> d.wf(),
    {
        let cs = crate::text::chars_of(s);
        let t = crate::text::trim_chars(cs.as_slice());
        Decimal::parse_chars(t.as_slice())
    }

    /// The shortest text of this number.
    pub fn to_text(&self) -> (r: String)
        requires
            self.wf(),
        ensures
            r@ == plain_text(*self),
    {
        let mut out: Vec<char> = Vec::new();
        push_plain(&mut out, *self);
        crate::text::string_of(out.as_slice())
    }

    /// The text of this number rounded to `places` digits after the point.
    pub fn to_fixed(&self, places: u32) -> (r: String)
        requires
            self.wf(),
            places <= 6,
        ensures
            r@ == scaled_text(*self, 1, 0, places as nat),
    {
        let mut out: Vec<char> = Vec::new();
        push_scaled(&mut out, *self, 1, 0, places);
        crate::text::string_of(out.as_slice())
    }
}

} // verus!
