//! Exact decimal arithmetic in billionths.

use vstd::prelude::*;
use vstd::string::*;
use crate::exact::pow10;
use crate::number::{strictly_ordered, Analytic, Number, Quantity};
use crate::text::{char_place, digits, zero_filled, zero_filled_text, zeros};

verus! {

/// How many units make one.
pub const UNITS: i128 = 1_000_000_000;

/// A decimal number with nine places. It is undefined where a result would be out of range, or
/// does not exist.
#[derive(Debug, Clone, Copy, PartialEq, Eq, Structural)]
pub struct Decimal {
    /// The number in billionths.
    pub units: Option<i128>,
}

/// The decimal of so many units, if they are in range.
pub open spec fn of_units(units: int) -> Decimal {
    Decimal {
        units: if i128::MIN <= units <= i128::MAX {
            Some(units as i128)
        } else {
            None
        },
    }
}

/// The undefined decimal.
pub open spec fn undefined() -> Decimal {
    Decimal { units: None }
}

/// A quotient with its fraction dropped.
pub open spec fn dropped(a: int, b: int) -> int {
    if a < 0 {
        -((-a) / b)
    } else {
        a / b
    }
}

/// The size of a number.
pub open spec fn size(a: int) -> nat {
    if a < 0 {
        (-a) as nat
    } else {
        a as nat
    }
}

/// A quotient to the nearest whole number, halves away from zero.
pub open spec fn nearest_quotient(a: int, d: int) -> int {
    let n = size(a) as int;
    let q = n / d + if 2 * (n % d) >= d {
        1int
    } else {
        0
    };
    if a < 0 {
        -q
    } else {
        q
    }
}

/// A quotient to the nearest whole number, halves to the even one.
pub open spec fn even_quotient(n: int, d: int) -> int {
    let q = n / d;
    let r = n % d;
    if 2 * r > d || 2 * r == d && q % 2 == 1 {
        q + 1
    } else {
        q
    }
}

/// A value held to a range.
pub open spec fn clamped(v: int, low: int, high: int) -> int {
    if v < low {
        low
    } else if v > high {
        high
    } else {
        v
    }
}

/// The text of a decimal: at least one digit before the point, and `places` digits after it,
/// rounded to the nearest, halves to the even digit.
pub open spec fn decimal_text(x: Decimal, places: nat) -> Seq<char> {
    match x.units {
        None => "NaN"@,
        Some(u) => {
            let n = size(u as int) as int;
            let sign = if u < 0 {
                "-"@
            } else {
                ""@
            };
            if places == 0 {
                sign + digits(even_quotient(n, 1_000_000_000) as nat)
            } else if places <= 9 {
                let q = even_quotient(n, pow10((9 - places) as nat));
                sign + digits((q / pow10(places)) as nat) + "."@ + zero_filled(
                    (q % pow10(places)) as nat,
                    places as int,
                )
            } else {
                sign + digits((n / 1_000_000_000) as nat) + "."@ + zero_filled(
                    (n % 1_000_000_000) as nat,
                    9,
                ) + zeros(places as int, 9)
            }
        },
    }
}

/// The value of a decimal digit.
pub open spec fn digit_of(c: char) -> Option<nat> {
    if '0' <= c <= '9' {
        Some((c as int - '0' as int) as nat)
    } else {
        None
    }
}

/// The number that the digits from `from` up to `to` write.
pub open spec fn number_of(text: Seq<char>, from: int, to: int) -> Option<nat>
    decreases to - from,
{
    if to <= from {
        Some(0)
    } else {
        match (number_of(text, from, to - 1), digit_of(text[to - 1])) {
            (Some(n), Some(d)) => Some(10 * n + d),
            _ => None,
        }
    }
}

/// Where the digits of a text start: behind its sign, if it has one.
pub open spec fn digits_start(text: Seq<char>) -> int {
    if text.len() > 0 && (text[0] == '-' || text[0] == '+') {
        1
    } else {
        0
    }
}

/// The decimal that a text writes: a sign if any, one to twenty-eight digits, and after a point,
/// if any, at most nine more.
pub open spec fn decimal_in_text(text: Seq<char>) -> Option<Decimal> {
    let start = digits_start(text);
    let point = char_place(text, '.', start);
    let places = if point < text.len() {
        text.len() - point - 1
    } else {
        0
    };
    let whole = number_of(text, start, point);
    let part = number_of(text, point + 1, text.len() as int);
    if !(1 <= point - start <= 28 && places <= 9) {
        None
    } else {
        match (whole, part) {
            (Some(w), Some(p)) => {
                let n = w * 1_000_000_000 + p * pow10((9 - places) as nat);
                Some(
                    of_units(
                        if text[0] == '-' {
                            -n
                        } else {
                            n
                        },
                    ),
                )
            },
            _ => None,
        }
    }
}

/// Whether `r` is the whole part of the square root of `n`.
pub open spec fn is_root(n: int, r: int) -> bool {
    0 <= r && r * r <= n < (r + 1) * (r + 1)
}

/// The whole part of a square root.
pub open spec fn root_of(n: int) -> int {
    choose|r: int| is_root(n, r)
}

impl Quantity for Decimal {
    open spec fn spec_add(self, other: Self) -> Self {
        match (self.units, other.units) {
            (Some(a), Some(b)) => of_units(a + b),
            _ => undefined(),
        }
    }

    open spec fn spec_sub(self, other: Self) -> Self {
        match (self.units, other.units) {
            (Some(a), Some(b)) => of_units(a - b),
            _ => undefined(),
        }
    }

    open spec fn spec_mul(self, other: Self) -> Self {
        match (self.units, other.units) {
            (Some(a), Some(b)) => if i128::MIN <= a * b <= i128::MAX {
                of_units(dropped(a * b, 1_000_000_000))
            } else {
                undefined()
            },
            _ => undefined(),
        }
    }

    open spec fn spec_euclidean_or_real_div(self, other: Self) -> Self {
        match (self.units, other.units) {
            (Some(a), Some(b)) => if b != 0 && i128::MIN <= a * 1_000_000_000 <= i128::MAX {
                of_units(dropped(a * 1_000_000_000, b as int))
            } else {
                undefined()
            },
            _ => undefined(),
        }
    }

    open spec fn spec_neg(self) -> Self {
        match self.units {
            Some(a) => of_units(-a),
            None => undefined(),
        }
    }

    open spec fn spec_lt(self, other: Self) -> bool {
        match (self.units, other.units) {
            (Some(a), Some(b)) => a < b,
            _ => false,
        }
    }

    open spec fn spec_le(self, other: Self) -> bool {
        match (self.units, other.units) {
            (Some(a), Some(b)) => a <= b,
            _ => false,
        }
    }

    open spec fn spec_abs(self) -> Self {
        match self.units {
            Some(a) => of_units(size(a as int) as int),
            None => undefined(),
        }
    }

    open spec fn spec_max(self, other: Self) -> Self {
        match (self.units, other.units) {
            (Some(a), Some(b)) => if a < b {
                other
            } else {
                self
            },
            (Some(_), None) => self,
            (None, _) => other,
        }
    }

    open spec fn spec_min(self, other: Self) -> Self {
        match (self.units, other.units) {
            (Some(a), Some(b)) => if b < a {
                other
            } else {
                self
            },
            (Some(_), None) => self,
            (None, _) => other,
        }
    }

    open spec fn spec_is_nan(self) -> bool {
        self.units is None
    }

    open spec fn spec_is_finite(self) -> bool {
        self.units is Some
    }

    open spec fn spec_nan() -> Self {
        undefined()
    }

    open spec fn spec_decimal(mantissa: int, places: nat) -> Self {
        if places <= 9 {
            of_units(mantissa * pow10((9 - places) as nat))
        } else if places <= 47 {
            of_units(nearest_quotient(mantissa, pow10((places - 9) as nat)))
        } else {
            of_units(0)
        }
    }

    open spec fn spec_round_u64(self) -> u64 {
        match self.units {
            Some(a) => clamped(
                nearest_quotient(a as int, 1_000_000_000),
                0,
                u64::MAX as int,
            ) as u64,
            None => 0,
        }
    }

    open spec fn spec_round_i64(self) -> i64 {
        match self.units {
            Some(a) => clamped(
                nearest_quotient(a as int, 1_000_000_000),
                i64::MIN as int,
                i64::MAX as int,
            ) as i64,
            None => 0,
        }
    }

    open spec fn spec_trunc_u64(self) -> u64 {
        match self.units {
            Some(a) => clamped(dropped(a as int, 1_000_000_000), 0, u64::MAX as int) as u64,
            None => 0,
        }
    }

    open spec fn spec_text(self, places: nat) -> Seq<char> {
        decimal_text(self, places)
    }

    open spec fn spec_parse(text: Seq<char>) -> Option<Self> {
        decimal_in_text(text)
    }

    open spec fn spec_exp(self) -> Self {
        if self.units == Some(0i128) {
            of_units(1_000_000_000)
        } else {
            undefined()
        }
    }

    open spec fn spec_ln(self) -> Self {
        if self.units == Some(1_000_000_000i128) {
            of_units(0)
        } else {
            undefined()
        }
    }

    open spec fn spec_sqrt(self) -> Self {
        match self.units {
            Some(a) => if a >= 0 && a * 1_000_000_000 <= i128::MAX {
                of_units(root_of(a * 1_000_000_000))
            } else {
                undefined()
            },
            None => undefined(),
        }
    }

    open spec fn spec_signum(self) -> Self {
        match self.units {
            Some(a) => if a < 0 {
                of_units(-1_000_000_000)
            } else {
                of_units(1_000_000_000)
            },
            None => undefined(),
        }
    }
}

/// Decimals are strictly ordered.
pub proof fn law_decimals_strictly_ordered()
    ensures
        strictly_ordered::<Decimal>(),
{
}

proof fn lemma_some_powers()
    ensures
        pow10(9) == 1_000_000_000,
        pow10(28) == 10_000_000_000_000_000_000_000_000_000int,
        pow10(38) == 100_000_000_000_000_000_000_000_000_000_000_000_000int,
{
    reveal_with_fuel(pow10, 39);
}

proof fn lemma_pow10(n: nat)
    requires
        n <= 38,
    ensures
        1 <= pow10(n) <= pow10(38),
{
    lemma_ten_positive(n);
    lemma_ten_monotone(n, 38);
}

fn power_of_ten(n: u32) -> (r: i128)
    requires
        n <= 38,
    ensures
        r == pow10(n as nat),
        r >= 1,
{
    let mut power: i128 = 1;
    let mut i: u32 = 0;
    while i < n
        invariant
            i <= n <= 38,
            power == pow10(i as nat),
            power >= 1,
        decreases n - i,
    {
        proof {
            lemma_some_powers();
            lemma_pow10(i as nat + 1);
        }
        power = power * 10;
        i = i + 1;
    }
    power
}

fn round_quotient(a: i128, d: i128) -> (r: i128)
    requires
        1 < d,
    ensures
        r == nearest_quotient(a as int, d as int),
{
    let q = a / d;
    let rest = a % d;
    proof {
        let n = size(a as int) as int;
        assert(size(rest as int) == n % (d as int));
        assert(size(q as int) == n / (d as int));
        assert(n / (d as int) <= n / 2) by (nonlinear_arith)
            requires
                1 < d,
                0 <= n,
        ;
    }
    if a < 0 {
        if -rest >= d + rest {
            q - 1
        } else {
            q
        }
    } else if rest >= d - rest {
        q + 1
    } else {
        q
    }
}

/// The quotient of two numbers of units is in range, but for one.
proof fn lemma_quotient_in_range(p: int, b: int)
    requires
        i128::MIN <= p <= i128::MAX,
        b != 0,
        !(p == i128::MIN && b == -1),
    ensures
        i128::MIN <= dropped(p, b) <= i128::MAX,
{
    let n = size(p) as int;
    let q = n / b;
    vstd::arithmetic::div_mod::lemma_fundamental_div_mod(n, b);
    let r = n % b;
    if b == 1 {
        assert(n / 1 == n);
    } else if b == -1 {
        assert(n / -1 == -n);
    } else {
        assert(-n <= 2 * q <= n) by (nonlinear_arith)
            requires
                n == b * q + r,
                0 <= n,
                b >= 2 && 0 <= r < b || b <= -2 && 0 <= r < -b,
        ;
    }
}

fn undefined_decimal() -> (r: Decimal)
    ensures
        r == undefined(),
{
    Decimal { units: None }
}

/// The square of a number of at most 64 bits.
fn square(r: u128) -> (s: u128)
    requires
        r <= 0xffff_ffff_ffff_ffff,
    ensures
        s == r * r,
{
    assert(r * r <= 0xffff_ffff_ffff_ffff * 0xffff_ffff_ffff_ffff) by (nonlinear_arith)
        requires
            0 <= r <= 0xffff_ffff_ffff_ffff,
    ;
    r * r
}

proof fn lemma_root_unique(n: int, a: int, b: int)
    requires
        is_root(n, a),
        is_root(n, b),
    ensures
        a == b,
{
    if a < b {
        assert((a + 1) * (a + 1) <= b * b) by (nonlinear_arith)
            requires
                0 <= a,
                a + 1 <= b,
        ;
    } else if b < a {
        assert((b + 1) * (b + 1) <= a * a) by (nonlinear_arith)
            requires
                0 <= b,
                b + 1 <= a,
        ;
    }
}

fn whole_root(n: u128) -> (r: u128)
    requires
        n <= i128::MAX,
    ensures
        r == root_of(n as int),
        r <= i128::MAX,
{
    // The root lies in `low .. high`.
    let mut low: u128 = 0;
    let mut high: u128 = 0xffff_ffff_ffff_ffff;
    assert(0xffff_ffff_ffff_ffffu128 * 0xffff_ffff_ffff_ffffu128 > i128::MAX);
    while high - low > 1
        invariant
            low < high <= 0xffff_ffff_ffff_ffff,
            low * low <= n,
            n < high * high,
        decreases high - low,
    {
        let mid = low + (high - low) / 2;
        if square(mid) <= n {
            low = mid;
        } else {
            high = mid;
        }
    }
    proof {
        assert(high == low + 1);
        assert(is_root(n as int, low as int));
        lemma_root_unique(n as int, low as int, root_of(n as int));
    }
    low
}

/// The size of a number of units.
fn unsigned(u: i128) -> (r: u128)
    ensures
        r == size(u as int),
{
    if u < 0 {
        (-(u + 1)) as u128 + 1
    } else {
        u as u128
    }
}

fn round_even(n: u128, d: u128) -> (r: u128)
    requires
        1 <= d <= i128::MAX,
        n <= 0x8000_0000_0000_0000_0000_0000_0000_0000,
    ensures
        r == even_quotient(n as int, d as int),
{
    let q = n / d;
    let rest = n % d;
    proof {
        assert(n as int / d as int <= n) by (nonlinear_arith)
            requires
                1 <= d,
                0 <= n,
        ;
    }
    if rest > d - rest || (rest == d - rest && q % 2 == 1) {
        q + 1
    } else {
        q
    }
}

fn write_decimal(x: Decimal, places: u32) -> (r: String)
    ensures
        r@ == decimal_text(x, places as nat),
{
    let u = match x.units {
        None => {
            return String::from_str("NaN");
        },
        Some(u) => u,
    };
    let n = unsigned(u);
    let mut text = if u < 0 {
        String::from_str("-")
    } else {
        String::from_str("")
    };
    if places == 0 {
        text.append(zero_filled_text(round_even(n, 1_000_000_000), 0).as_str());
        proof {
            let q = even_quotient(n as int, 1_000_000_000) as nat;
            assert(zeros(0, digits(q).len() as int) =~= Seq::empty());
            assert(zero_filled(q, 0) =~= digits(q));
        }
    } else if places <= 9 {
        let scale = power_of_ten(9 - places) as u128;
        let q = round_even(n, scale);
        let unit = power_of_ten(places) as u128;
        proof {
            let w = (q as int / unit as int) as nat;
            assert(zeros(0, digits(w).len() as int) =~= Seq::empty());
            assert(zero_filled(w, 0) =~= digits(w));
        }
        text.append(zero_filled_text(q / unit, 0).as_str());
        text.append(".");
        text.append(zero_filled_text(q % unit, places as usize).as_str());
    } else {
        let whole = n / 1_000_000_000;
        proof {
            assert(zeros(0, digits(whole as nat).len() as int) =~= Seq::empty());
            assert(zero_filled(whole as nat, 0) =~= digits(whole as nat));
        }
        text.append(zero_filled_text(whole, 0).as_str());
        text.append(".");
        text.append(zero_filled_text(n % 1_000_000_000, 9).as_str());
        let ghost before = text@;
        let mut k: u32 = 9;
        proof {
            reveal_strlit("0");
        }
        assert(text@ =~= before + zeros(k as int, 9));
        while k < places
            invariant
                9 <= k <= places,
                text@ == before + zeros(k as int, 9),
                "0"@ == seq!['0'],
            decreases places - k,
        {
            text.append("0");
            k = k + 1;
            assert(text@ =~= before + zeros(k as int, 9));
        }
    }
    text
}

proof fn lemma_number_bound(text: Seq<char>, from: int, to: int, k: nat)
    requires
        to - from <= k,
    ensures
        number_of(text, from, to) matches Some(n) ==> n < pow10(k),
    decreases k,
{
    if to > from {
        lemma_number_bound(text, from, to - 1, (k - 1) as nat);
    } else {
        lemma_ten_positive(k);
    }
}

proof fn lemma_ten_positive(k: nat)
    ensures
        pow10(k) >= 1,
    decreases k,
{
    if k > 0 {
        lemma_ten_positive((k - 1) as nat);
    }
}

fn read_digits(text: &str, from: usize, to: usize) -> (r: Option<u128>)
    requires
        from <= to <= text@.len(),
        to - from <= 28,
    ensures
        match r {
            Some(n) => number_of(text@, from as int, to as int) == Some(n as nat) && n < pow10(
                28,
            ),
            None => number_of(text@, from as int, to as int) is None,
        },
{
    let mut n: u128 = 0;
    let mut i: usize = from;
    proof {
        lemma_some_powers();
    }
    while i < to
        invariant
            from <= i <= to <= text@.len(),
            to - from <= 28,
            number_of(text@, from as int, i as int) == Some(n as nat),
            n < pow10((i - from) as nat),
            pow10(28) == 10_000_000_000_000_000_000_000_000_000int,
        decreases to - i,
    {
        let c = text.get_char(i);
        proof {
            lemma_number_bound(text@, from as int, i + 1, (i + 1 - from) as nat);
            lemma_ten_monotone((i - from) as nat, 28);
            lemma_ten_monotone((i + 1 - from) as nat, 28);
        }
        if '0' <= c && c <= '9' {
            let d = (c as u32 - 48) as u128;
            n = 10 * n + d;
            i = i + 1;
        } else {
            proof {
                lemma_number_none(text@, from as int, i + 1, to as int);
            }
            return None;
        }
    }
    proof {
        lemma_ten_monotone((i - from) as nat, 28);
    }
    Some(n)
}

proof fn lemma_ten_monotone(a: nat, b: nat)
    requires
        a <= b,
    ensures
        pow10(a) <= pow10(b),
    decreases b - a,
{
    if a < b {
        lemma_ten_monotone(a, (b - 1) as nat);
        lemma_ten_positive((b - 1) as nat);
    }
}

proof fn lemma_number_none(text: Seq<char>, from: int, m: int, to: int)
    requires
        from < m <= to,
        number_of(text, from, m) is None,
    ensures
        number_of(text, from, to) is None,
    decreases to - m,
{
    if m < to {
        lemma_number_none(text, from, m, to - 1);
    }
}

proof fn lemma_char_place_bounds(text: Seq<char>, c: char, from: int)
    requires
        0 <= from <= text.len(),
    ensures
        from <= char_place(text, c, from) <= text.len(),
    decreases text.len() - from,
{
    if from < text.len() && text[from] != c {
        lemma_char_place_bounds(text, c, from + 1);
    }
}

/// The units of a number from the digits in front of the point and behind it.
fn assemble(whole: u128, part: u128, places: u32) -> (r: u128)
    requires
        places <= 9,
        whole < pow10(28),
        part < pow10(places as nat),
    ensures
        r == whole * 1_000_000_000 + part * pow10((9 - places) as nat),
        r <= i128::MAX,
{
    let scale = power_of_ten(9 - places) as u128;
    proof {
        lemma_some_powers();
        lemma_ten_monotone(places as nat, 9);
        lemma_ten_monotone((9 - places) as nat, 9);
        assert(part * scale <= 1_000_000_000_000_000_000) by (nonlinear_arith)
            requires
                0 <= part < 1_000_000_000,
                0 <= scale <= 1_000_000_000,
        ;
    }
    whole * 1_000_000_000 + part * scale
}

fn read_decimal(text: &str) -> (r: Option<Decimal>)
    ensures
        r == decimal_in_text(text@),
{
    let len = text.unicode_len();
    let mut start: usize = 0;
    let mut negative = false;
    if len > 0 {
        let c = text.get_char(0);
        if c == '-' {
            negative = true;
            start = 1;
        } else if c == '+' {
            start = 1;
        }
    }
    let mut point: usize = start;
    while point < len && text.get_char(point) != '.'
        invariant
            start <= point <= len,
            len == text@.len(),
            char_place(text@, '.', start as int) == char_place(text@, '.', point as int),
        decreases len - point,
    {
        point = point + 1;
    }
    let places: usize = if point < len {
        len - point - 1
    } else {
        0
    };
    if point == start || point - start > 28 || places > 9 {
        return None;
    }
    let whole = match read_digits(text, start, point) {
        Some(n) => n,
        None => {
            return None;
        },
    };
    let part: u128 = if point < len {
        match read_digits(text, point + 1, len) {
            Some(n) => n,
            None => {
                return None;
            },
        }
    } else {
        0
    };
    proof {
        lemma_number_bound(text@, point + 1, len as int, places as nat);
        lemma_ten_positive(places as nat);
    }
    let n = assemble(whole, part, places as u32);
    let units: i128 = if negative {
        -(n as i128)
    } else {
        n as i128
    };
    Some(Decimal { units: Some(units) })
}

impl Number for Decimal {
    fn plus(self, other: Self) -> (r: Self) {
        match (self.units, other.units) {
            (Some(a), Some(b)) => Decimal { units: a.checked_add(b) },
            _ => undefined_decimal(),
        }
    }

    fn minus(self, other: Self) -> (r: Self) {
        match (self.units, other.units) {
            (Some(a), Some(b)) => Decimal { units: a.checked_sub(b) },
            _ => undefined_decimal(),
        }
    }

    fn times(self, other: Self) -> (r: Self) {
        match (self.units, other.units) {
            (Some(a), Some(b)) => match a.checked_mul(b) {
                Some(p) => Decimal { units: Some(p / UNITS) },
                None => undefined_decimal(),
            },
            _ => undefined_decimal(),
        }
    }

    fn over(self, other: Self) -> (r: Self) {
        match (self.units, other.units) {
            (Some(a), Some(b)) => {
                if b == 0 {
                    return undefined_decimal();
                }
                match a.checked_mul(UNITS) {
                    Some(p) => {
                        if p == i128::MIN && b == -1 {
                            assert(dropped(p as int, b as int) == -(i128::MIN as int));
                            undefined_decimal()
                        } else {
                            proof {
                                lemma_quotient_in_range(p as int, b as int);
                            }
                            Decimal { units: Some(p / b) }
                        }
                    },
                    None => undefined_decimal(),
                }
            },
            _ => undefined_decimal(),
        }
    }

    fn negated(self) -> (r: Self) {
        match self.units {
            Some(a) => {
                if a == i128::MIN {
                    undefined_decimal()
                } else {
                    Decimal { units: Some(-a) }
                }
            },
            None => undefined_decimal(),
        }
    }

    fn lt(self, other: Self) -> (r: bool) {
        match (self.units, other.units) {
            (Some(a), Some(b)) => a < b,
            _ => false,
        }
    }

    fn le(self, other: Self) -> (r: bool) {
        match (self.units, other.units) {
            (Some(a), Some(b)) => a <= b,
            _ => false,
        }
    }

    fn abs(self) -> (r: Self) {
        match self.units {
            Some(a) => {
                if a == i128::MIN {
                    undefined_decimal()
                } else if a < 0 {
                    Decimal { units: Some(-a) }
                } else {
                    self
                }
            },
            None => undefined_decimal(),
        }
    }

    fn signum(self) -> (r: Self) {
        match self.units {
            Some(a) => {
                if a < 0 {
                    Decimal { units: Some(-UNITS) }
                } else {
                    Decimal { units: Some(UNITS) }
                }
            },
            None => undefined_decimal(),
        }
    }

    fn max(self, other: Self) -> (r: Self) {
        match (self.units, other.units) {
            (Some(a), Some(b)) => {
                if a < b {
                    other
                } else {
                    self
                }
            },
            (Some(_), None) => self,
            (None, _) => other,
        }
    }

    fn min(self, other: Self) -> (r: Self) {
        match (self.units, other.units) {
            (Some(a), Some(b)) => {
                if b < a {
                    other
                } else {
                    self
                }
            },
            (Some(_), None) => self,
            (None, _) => other,
        }
    }

    fn is_nan(self) -> (r: bool) {
        self.units.is_none()
    }

    fn is_finite(self) -> (r: bool) {
        self.units.is_some()
    }

    fn nan() -> (r: Self) {
        undefined_decimal()
    }

    fn decimal(mantissa: i128, places: u32) -> (r: Self) {
        if places <= 9 {
            Decimal { units: mantissa.checked_mul(power_of_ten(9 - places)) }
        } else if places <= 47 {
            let d = power_of_ten(places - 9);
            proof {
                assert(pow10((places - 9) as nat) == 10 * pow10((places - 10) as nat));
                lemma_ten_positive((places - 10) as nat);
            }
            Decimal { units: Some(round_quotient(mantissa, d)) }
        } else {
            Decimal { units: Some(0) }
        }
    }

    fn round_u64(self) -> (r: u64) {
        match self.units {
            Some(a) => {
                let q = round_quotient(a, UNITS);
                if q < 0 {
                    0
                } else if q > u64::MAX as i128 {
                    u64::MAX
                } else {
                    q as u64
                }
            },
            None => 0,
        }
    }

    fn round_i64(self) -> (r: i64) {
        match self.units {
            Some(a) => {
                let q = round_quotient(a, UNITS);
                if q < i64::MIN as i128 {
                    i64::MIN
                } else if q > i64::MAX as i128 {
                    i64::MAX
                } else {
                    q as i64
                }
            },
            None => 0,
        }
    }

    fn trunc_u64(self) -> (r: u64) {
        match self.units {
            Some(a) => {
                let q = a / UNITS;
                if q < 0 {
                    0
                } else if q > u64::MAX as i128 {
                    u64::MAX
                } else {
                    q as u64
                }
            },
            None => 0,
        }
    }

    fn text(self, places: u32) -> (r: String) {
        write_decimal(self, places)
    }

    fn parse(text: &str) -> (r: Option<Self>) {
        read_decimal(text)
    }
}

impl Analytic for Decimal {
    fn exp(self) -> (r: Self) {
        if self.units == Some(0i128) {
            Decimal { units: Some(UNITS) }
        } else {
            undefined_decimal()
        }
    }

    fn ln(self) -> (r: Self) {
        if self.units == Some(UNITS) {
            Decimal { units: Some(0) }
        } else {
            undefined_decimal()
        }
    }

    fn sqrt(self) -> (r: Self) {
        match self.units {
            Some(a) => {
                if a < 0 {
                    return undefined_decimal();
                }
                match a.checked_mul(UNITS) {
                    Some(p) => Decimal { units: Some(whole_root(p as u128) as i128) },
                    None => undefined_decimal(),
                }
            },
            None => undefined_decimal(),
        }
    }
}

} // verus!
