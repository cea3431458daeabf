//! Fixed-point decimal numbers, kept to twelve places. A pico is one part in
//! a million millions of one.

use vstd::prelude::*;
use vstd::slice::slice_subrange;

verus! {

/// Picos in one whole unit.
pub const PICOS_PER_UNIT: i64 = 1_000_000_000_000;

/// Largest magnitude, in whole units, that a [`Decimal`] holds.
pub const UNITS_LIMIT: i64 = 100_000;

/// Largest magnitude, in picos, that a [`Decimal`] holds.
pub const DECIMAL_LIMIT: i64 = 100_000_000_000_000_000;

/// `x` brought into the closed range from `lo` to `hi`.
pub open spec fn clamp_int(x: int, lo: int, hi: int) -> int {
    if x < lo {
        lo
    } else if x > hi {
        hi
    } else {
        x
    }
}

/// A decimal number with twelve fractional digits. Its view is the number of
/// picos it stands for; the magnitude never exceeds [`DECIMAL_LIMIT`].
#[derive(Clone, Copy, Debug)]
pub struct Decimal {
    picos: i64,
}

impl View for Decimal {
    type V = int;

    closed spec fn view(&self) -> int {
        self.picos as int
    }
}

impl Decimal {
    #[verifier::type_invariant]
    spec fn in_range(self) -> bool {
        -DECIMAL_LIMIT <= self.picos <= DECIMAL_LIMIT
    }

    /// The number of `picos` picos, saturated at the limit.
    pub fn from_picos(picos: i64) -> (d: Decimal)
        ensures
            d@ == clamp_int(picos as int, -DECIMAL_LIMIT as int, DECIMAL_LIMIT as int),
    {
        if picos < -DECIMAL_LIMIT {
            Decimal { picos: -DECIMAL_LIMIT }
        } else if picos > DECIMAL_LIMIT {
            Decimal { picos: DECIMAL_LIMIT }
        } else {
            Decimal { picos }
        }
    }

    /// The whole number `units`, saturated at the limit.
    pub fn from_units(units: i64) -> (d: Decimal)
        ensures
            d@ == clamp_int(
                units as int * PICOS_PER_UNIT as int,
                -DECIMAL_LIMIT as int,
                DECIMAL_LIMIT as int,
            ),
    {
        if units < -UNITS_LIMIT {
            Decimal { picos: -DECIMAL_LIMIT }
        } else if units > UNITS_LIMIT {
            Decimal { picos: DECIMAL_LIMIT }
        } else {
            Decimal { picos: units * PICOS_PER_UNIT }
        }
    }

    /// The picos this number stands for.
    pub fn picos(&self) -> (m: i64)
        ensures
            m == self@,
            -DECIMAL_LIMIT <= m <= DECIMAL_LIMIT,
    {
        proof {
            use_type_invariant(self);
        }
        self.picos
    }
}

/// Whether `c` is one of the ten decimal digits.
pub open spec fn is_digit(c: char) -> bool {
    0x30 <= c as u32 <= 0x39
}

/// The number that the decimal digit `c` stands for.
pub open spec fn digit_value(c: char) -> int {
    c as u32 - 0x30
}

/// The number written by the decimal digits `s`, most significant first.
pub open spec fn digits_value(s: Seq<char>) -> int
    decreases s.len(),
{
    if s.len() == 0 {
        0
    } else {
        digits_value(s.drop_last()) * 10 + digit_value(s.last())
    }
}

/// The length of the run of decimal digits at the start of `s`.
pub open spec fn digit_run(s: Seq<char>) -> nat
    decreases s.len(),
{
    if s.len() > 0 && is_digit(s[0]) {
        1 + digit_run(s.drop_first())
    } else {
        0
    }
}

/// Ten to the power `n`.
pub open spec fn pow10(n: nat) -> int
    decreases n,
{
    if n == 0 {
        1
    } else {
        10 * pow10((n - 1) as nat)
    }
}

/// The number written by the digits `ds` with the point moved `k` places to
/// the right (to the left where `k` is negative), rounded down: digits that
/// fall behind the point are dropped.
pub open spec fn scaled_digits(ds: Seq<char>, k: int) -> int {
    if k >= 0 {
        digits_value(ds) * pow10(k as nat)
    } else if ds.len() + k <= 0 {
        0
    } else {
        digits_value(ds.take(ds.len() + k))
    }
}

/// The exponent written by `s`: an optional sign and at least one digit.
pub open spec fn exponent_value(s: Seq<char>) -> Option<int> {
    let signed = s.len() > 0 && (s[0] == '-' || s[0] == '+');
    let d = if signed {
        s.drop_first()
    } else {
        s
    };
    if d.len() > 0 && digit_run(d) == d.len() {
        Some(
            if signed && s[0] == '-' {
                -digits_value(d)
            } else {
                digits_value(d)
            },
        )
    } else {
        None
    }
}

/// The digits of the number at the start of `s`: those before the point and
/// those after it.
pub open spec fn number_digits(s: Seq<char>, whole: int, frac: int) -> Seq<char> {
    s.take(whole) + s.skip(whole + 1).take(frac)
}

/// The picos written by an unsigned decimal token, rounded down:
/// digits, optionally a point and more digits, with at least one digit in
/// all, and optionally `e` or `E` with an exponent.
pub open spec fn unsigned_picos(s: Seq<char>) -> Option<int> {
    let whole = digit_run(s) as int;
    let pointed = whole < s.len() && s[whole] == '.';
    let frac = if pointed {
        digit_run(s.skip(whole + 1)) as int
    } else {
        0
    };
    let mark = if pointed {
        whole + 1 + frac
    } else {
        whole
    };
    let digits = number_digits(s, whole, frac);
    if whole + frac == 0 {
        None
    } else if mark == s.len() {
        Some(scaled_digits(digits, 12 - frac))
    } else if s[mark] == 'e' || s[mark] == 'E' {
        match exponent_value(s.skip(mark + 1)) {
            Some(e) => Some(scaled_digits(digits, e + 12 - frac)),
            None => None,
        }
    } else {
        None
    }
}

/// The code of `c`, with the capital letters of ASCII taken as small ones.
pub open spec fn lower_code(c: char) -> int {
    if 0x41 <= c as u32 <= 0x5A {
        c as u32 + 0x20
    } else {
        c as u32 as int
    }
}

/// Whether `s` is the word `word`, in either case of its letters.
pub open spec fn is_word(s: Seq<char>, word: Seq<char>) -> bool {
    s.len() == word.len() && forall|i: int|
        0 <= i < s.len() ==> lower_code(#[trigger] s[i]) == word[i] as u32
}

/// The picos written by a token without its sign. The words `inf` and
/// `infinity` stand for the largest number held, and `nan` for zero.
pub open spec fn magnitude_picos(s: Seq<char>) -> Option<int> {
    if is_word(s, seq!['i', 'n', 'f']) || is_word(
        s,
        seq!['i', 'n', 'f', 'i', 'n', 'i', 't', 'y'],
    ) {
        Some(DECIMAL_LIMIT as int)
    } else if is_word(s, seq!['n', 'a', 'n']) {
        Some(0)
    } else {
        unsigned_picos(s)
    }
}

/// The picos written by a decimal token with an optional sign, or `None`
/// where `s` is no such token.
pub open spec fn decimal_picos(s: Seq<char>) -> Option<int> {
    if s.len() > 0 && s[0] == '-' {
        match magnitude_picos(s.drop_first()) {
            Some(v) => Some(-v),
            None => None,
        }
    } else if s.len() > 0 && s[0] == '+' {
        magnitude_picos(s.drop_first())
    } else {
        magnitude_picos(s)
    }
}

/// What [`parse_decimal`] returns for the token `s`: the value it writes,
/// saturated at the limit.
pub open spec fn parsed_decimal(s: Seq<char>) -> Option<int> {
    match decimal_picos(s) {
        Some(v) => Some(clamp_int(v, -DECIMAL_LIMIT as int, DECIMAL_LIMIT as int)),
        None => None,
    }
}

/// The powers of ten that the parser meets.
pub proof fn lemma_pow10_values()
    ensures
        pow10(0) == 1,
        pow10(1) == 10,
        pow10(12) == 1_000_000_000_000,
        pow10(18) == 1_000_000_000_000_000_000,
{
    reveal_with_fuel(pow10, 19);
}

/// Powers of ten are positive and grow with the exponent.
pub proof fn lemma_pow10_grows(a: nat, b: nat)
    requires
        a <= b,
    ensures
        1 <= pow10(a) <= pow10(b),
    decreases b,
{
    if b > 0 {
        if a < b {
            lemma_pow10_grows(a, (b - 1) as nat);
        } else {
            lemma_pow10_grows((a - 1) as nat, (b - 1) as nat);
        }
    }
}

proof fn lemma_digit_run(s: Seq<char>, k: int)
    requires
        0 <= k <= s.len(),
        forall|j: int| 0 <= j < k ==> is_digit(#[trigger] s[j]),
        k == s.len() || !is_digit(s[k]),
    ensures
        digit_run(s) == k,
    decreases k,
{
    if k > 0 {
        let t = s.drop_first();
        assert forall|j: int| 0 <= j < k - 1 implies is_digit(#[trigger] t[j]) by {
            assert(t[j] == s[j + 1]);
        }
        lemma_digit_run(t, k - 1);
    }
}

proof fn lemma_digits_value_sign(s: Seq<char>)
    requires
        forall|j: int| 0 <= j < s.len() ==> is_digit(#[trigger] s[j]),
    ensures
        0 <= digits_value(s),
    decreases s.len(),
{
    if s.len() > 0 {
        let t = s.drop_last();
        assert forall|j: int| 0 <= j < t.len() implies is_digit(#[trigger] t[j]) by {
            assert(t[j] == s[j]);
        }
        lemma_digits_value_sign(t);
        assert(is_digit(s[s.len() - 1]));
    }
}

proof fn lemma_scaled_sign(ds: Seq<char>, k: int)
    requires
        forall|i: int| 0 <= i < ds.len() ==> is_digit(#[trigger] ds[i]),
    ensures
        0 <= scaled_digits(ds, k),
{
    lemma_digits_value_sign(ds);
    if k >= 0 {
        lemma_pow10_grows(0, k as nat);
        assert(digits_value(ds) * pow10(k as nat) >= 0) by (nonlinear_arith)
            requires
                digits_value(ds) >= 0,
                pow10(k as nat) >= 1,
        ;
    } else if ds.len() + k > 0 {
        let kept = ds.take(ds.len() + k);
        assert forall|i: int| 0 <= i < kept.len() implies is_digit(#[trigger] kept[i]) by {
            assert(kept[i] == ds[i]);
        }
        lemma_digits_value_sign(kept);
    }
}

/// Past eighteen places to the right every number but zero is beyond the
/// limit, and past its own length to the left every number is zero: two
/// shifts on the same side of these bounds give the same saturated value.
proof fn lemma_far_shifts_agree(ds: Seq<char>, k: int, j: int)
    requires
        forall|i: int| 0 <= i < ds.len() ==> is_digit(#[trigger] ds[i]),
        (k >= 18 && j >= 18) || (ds.len() + k <= 0 && ds.len() + j <= 0),
    ensures
        clamp_int(scaled_digits(ds, k), 0, DECIMAL_LIMIT as int) == clamp_int(
            scaled_digits(ds, j),
            0,
            DECIMAL_LIMIT as int,
        ),
{
    lemma_digits_value_sign(ds);
    lemma_pow10_values();
    if k >= 18 {
        lemma_pow10_grows(18, k as nat);
        lemma_pow10_grows(18, j as nat);
        let v = digits_value(ds);
        if v > 0 {
            assert(v * pow10(k as nat) >= pow10(18)) by (nonlinear_arith)
                requires
                    v >= 1,
                    pow10(k as nat) >= pow10(18),
                    pow10(18) >= 1,
            ;
            assert(v * pow10(j as nat) >= pow10(18)) by (nonlinear_arith)
                requires
                    v >= 1,
                    pow10(j as nat) >= pow10(18),
                    pow10(18) >= 1,
            ;
        } else {
            assert(v * pow10(k as nat) == 0) by (nonlinear_arith)
                requires
                    v == 0,
            ;
            assert(v * pow10(j as nat) == 0) by (nonlinear_arith)
                requires
                    v == 0,
            ;
        }
    }
}

/// Tests one character for a decimal digit.
pub fn is_decimal_digit(c: char) -> (b: bool)
    ensures
        b == is_digit(c),
{
    let n: u32 = c as u32;
    0x30 <= n && n <= 0x39
}

/// Tests `s` for a word, in either case of its letters.
fn is_word_of(s: &[char], word: &[char]) -> (b: bool)
    ensures
        b == is_word(s@, word@),
{
    if s.len() != word.len() {
        return false;
    }
    let mut i: usize = 0;
    while i < s.len()
        invariant
            s@.len() == word@.len(),
            i <= s@.len(),
            forall|j: int| 0 <= j < i ==> lower_code(#[trigger] s@[j]) == word@[j] as u32,
        decreases s@.len() - i,
    {
        let code: u32 = s[i] as u32;
        let low: u32 = if 0x41 <= code && code <= 0x5A {
            code + 0x20
        } else {
            code
        };
        if low != word[i] as u32 {
            return false;
        }
        i += 1;
    }
    true
}

/// The length of the run of digits in `s` from `from` on.
fn digits_from(s: &[char], from: usize) -> (count: usize)
    requires
        from <= s@.len(),
    ensures
        count == digit_run(s@.skip(from as int)),
        from + count <= s@.len(),
        forall|j: int| from <= j < from + count ==> is_digit(#[trigger] s@[j]),
{
    let n: usize = s.len();
    let ghost rest = s@.skip(from as int);
    let mut i: usize = from;
    while i < n && is_decimal_digit(s[i])
        invariant
            n == s@.len(),
            from <= i <= n,
            rest == s@.skip(from as int),
            forall|j: int| from <= j < i ==> is_digit(#[trigger] s@[j]),
        decreases n - i,
    {
        i += 1;
    }
    proof {
        assert forall|j: int| 0 <= j < i - from implies is_digit(#[trigger] rest[j]) by {
            assert(rest[j] == s@[from + j]);
        }
        if i < n {
            assert(rest[i - from] == s@[i as int]);
        }
        lemma_digit_run(rest, i - from);
    }
    i - from
}

/// Reads the exponent that begins at `from`; what is beyond `10^30` either
/// way is cut there.
fn exponent_from(s: &[char], from: usize) -> (r: Option<i128>)
    requires
        from <= s@.len(),
    ensures
        match exponent_value(s@.skip(from as int)) {
            Some(e) => r == Some(
                clamp_int(
                    e,
                    -1_000_000_000_000_000_000_000_000_000_000,
                    1_000_000_000_000_000_000_000_000_000_000,
                ) as i128,
            ),
            None => r is None,
        },
{
    let n: usize = s.len();
    let ghost text = s@.skip(from as int);
    let negative: bool = from < n && s[from] == '-';
    let signed: bool = from < n && (s[from] == '-' || s[from] == '+');
    let start: usize = if signed {
        from + 1
    } else {
        from
    };
    proof {
        if from < n {
            assert(text[0] == s@[from as int]);
        }
        if signed {
            assert(text.drop_first() =~= s@.skip(start as int));
        }
    }
    let ghost d = s@.skip(start as int);
    let count = digits_from(s, start);
    if count == 0 || start + count != n {
        return None;
    }
    let mut e: i128 = 0;
    let mut i: usize = start;
    assert(d.take(0) =~= Seq::<char>::empty());
    while i < n
        invariant
            n == s@.len(),
            start <= i <= n,
            d == s@.skip(start as int),
            forall|j: int| start <= j < n ==> is_digit(#[trigger] s@[j]),
            0 <= digits_value(d.take(i - start)),
            e == clamp_int(
                digits_value(d.take(i - start)),
                0,
                1_000_000_000_000_000_000_000_000_000_000,
            ),
        decreases n - i,
    {
        let digit: i128 = (s[i] as u32 - 0x30) as i128;
        assert(d.take(i - start + 1).drop_last() =~= d.take(i - start));
        assert(d.take(i - start + 1).last() == s@[i as int]);
        let next: i128 = e * 10 + digit;
        e = if next > 1_000_000_000_000_000_000_000_000_000_000 {
            1_000_000_000_000_000_000_000_000_000_000
        } else {
            next
        };
        i += 1;
    }
    assert(d.take(n - start) =~= d);
    if negative {
        Some(-e)
    } else {
        Some(e)
    }
}

/// Whether the number at the start of `s` has `whole` digits before its
/// point and `frac` after it.
spec fn digits_at(s: Seq<char>, whole: int, frac: int) -> bool {
    &&& 0 <= whole <= s.len()
    &&& 0 <= frac
    &&& frac > 0 ==> whole + 1 + frac <= s.len()
    &&& forall|j: int| 0 <= j < whole ==> is_digit(#[trigger] s[j])
    &&& forall|j: int| whole + 1 <= j < whole + 1 + frac ==> is_digit(#[trigger] s[j])
}

proof fn lemma_number_digits(s: Seq<char>, whole: int, frac: int)
    requires
        digits_at(s, whole, frac),
    ensures
        number_digits(s, whole, frac).len() == whole + frac,
        forall|i: int|
            0 <= i < whole + frac ==> is_digit(#[trigger] number_digits(s, whole, frac)[i]),
        forall|i: int| 0 <= i < whole ==> number_digits(s, whole, frac)[i] == s[i],
        forall|i: int| whole <= i < whole + frac ==> number_digits(s, whole, frac)[i] == s[i + 1],
{
    let digits = number_digits(s, whole, frac);
    assert forall|i: int| 0 <= i < whole + frac implies is_digit(#[trigger] digits[i]) by {
        if i < whole {
            assert(digits[i] == s[i]);
        } else {
            assert(digits[i] == s[i + 1]);
        }
    }
}

/// The value of the first `take` digits of the number at the start of `s`,
/// saturated at the limit.
fn digits_prefix(s: &[char], whole: usize, frac: usize, take: usize) -> (v: i64)
    requires
        digits_at(s@, whole as int, frac as int),
        take <= whole + frac,
    ensures
        0 <= digits_value(number_digits(s@, whole as int, frac as int).take(take as int)),
        v == clamp_int(
            digits_value(number_digits(s@, whole as int, frac as int).take(take as int)),
            0,
            DECIMAL_LIMIT as int,
        ),
{
    let ghost digits = number_digits(s@, whole as int, frac as int);
    proof {
        lemma_number_digits(s@, whole as int, frac as int);
    }
    let mut v: i64 = 0;
    let mut j: usize = 0;
    assert(digits.take(0) =~= Seq::<char>::empty());
    while j < take
        invariant
            j <= take <= whole + frac,
            frac > 0 ==> whole + 1 + frac <= s@.len(),
            whole <= s@.len(),
            digits.len() == whole + frac,
            forall|i: int| 0 <= i < whole + frac ==> is_digit(#[trigger] digits[i]),
            forall|i: int| 0 <= i < whole ==> digits[i] == s@[i],
            forall|i: int| whole <= i < whole + frac ==> digits[i] == s@[i + 1],
            0 <= digits_value(digits.take(j as int)),
            v == clamp_int(digits_value(digits.take(j as int)), 0, DECIMAL_LIMIT as int),
        decreases take - j,
    {
        let c: char = if j < whole {
            s[j]
        } else {
            s[j + 1]
        };
        proof {
            assert(digits[j as int] == c);
            assert(is_digit(digits[j as int]));
            assert(digits.take(j as int + 1).drop_last() =~= digits.take(j as int));
            assert(digits.take(j as int + 1).last() == c);
        }
        let digit: i64 = (c as u32 - 0x30) as i64;
        let next: i64 = v * 10 + digit;
        v = if next > DECIMAL_LIMIT {
            DECIMAL_LIMIT
        } else {
            next
        };
        j += 1;
    }
    v
}

/// The saturated value of a number of non-negative `base` moved `k` places
/// to the right, from its saturated value `v`.
fn move_right(v: i64, k: i128, Ghost(base): Ghost<int>) -> (moved: i64)
    requires
        0 <= k,
        0 <= base,
        v == clamp_int(base, 0, DECIMAL_LIMIT as int),
    ensures
        moved == clamp_int(base * pow10(k as nat), 0, DECIMAL_LIMIT as int),
{
    let mut v: i64 = v;
    let mut done: i128 = 0;
    proof {
        lemma_pow10_values();
        assert(base * pow10(0) == base) by (nonlinear_arith)
            requires
                pow10(0) == 1,
        ;
    }
    while done < k && done < 18
        invariant
            0 <= done <= k,
            done <= 18,
            0 <= base,
            v == clamp_int(base * pow10(done as nat), 0, DECIMAL_LIMIT as int),
        decreases 18 - done,
    {
        proof {
            lemma_pow10_grows(0, done as nat);
            assert(base * pow10(done as nat + 1) == 10 * (base * pow10(done as nat)))
                by (nonlinear_arith)
                requires
                    pow10(done as nat + 1) == 10 * pow10(done as nat),
            ;
            assert(base * pow10(done as nat) >= 0) by (nonlinear_arith)
                requires
                    base >= 0,
                    pow10(done as nat) >= 1,
            ;
        }
        let next: i64 = v * 10;
        v = if next > DECIMAL_LIMIT {
            DECIMAL_LIMIT
        } else {
            next
        };
        done += 1;
    }
    proof {
        if done < k {
            lemma_pow10_values();
            lemma_pow10_grows(18, k as nat);
            if base > 0 {
                assert(base * pow10(k as nat) >= pow10(18)) by (nonlinear_arith)
                    requires
                        base >= 1,
                        pow10(k as nat) >= pow10(18),
                        pow10(18) >= 1,
                ;
                assert(base * pow10(18) >= pow10(18)) by (nonlinear_arith)
                    requires
                        base >= 1,
                        pow10(18) >= 1,
                ;
            } else {
                assert(base * pow10(k as nat) == 0) by (nonlinear_arith)
                    requires
                        base == 0,
                ;
                assert(base * pow10(18) == 0) by (nonlinear_arith)
                    requires
                        base == 0,
                ;
            }
        }
    }
    v
}

/// The saturated value of the number at the start of `s` with the exponent
/// `shift`, which stands for `exact` cut at `10^30` either way.
fn scaled_value(s: &[char], whole: usize, frac: usize, shift: i128, Ghost(exact): Ghost<int>) -> (v:
    i64)
    requires
        digits_at(s@, whole as int, frac as int),
        shift == clamp_int(
            exact,
            -1_000_000_000_000_000_000_000_000_000_000,
            1_000_000_000_000_000_000_000_000_000_000,
        ),
    ensures
        0 <= scaled_digits(number_digits(s@, whole as int, frac as int), exact + 12 - frac),
        v == clamp_int(
            scaled_digits(number_digits(s@, whole as int, frac as int), exact + 12 - frac),
            0,
            DECIMAL_LIMIT as int,
        ),
{
    let ghost digits = number_digits(s@, whole as int, frac as int);
    let n: usize = s.len();
    assert(whole + frac <= n);
    let k: i128 = shift + 12 - frac as i128;
    let count: usize = whole + frac;
    proof {
        lemma_number_digits(s@, whole as int, frac as int);
        lemma_digits_value_sign(digits);
        lemma_scaled_sign(digits, exact + 12 - frac);
        if shift != exact {
            lemma_far_shifts_agree(digits, exact + 12 - frac, k as int);
        }
        assert(digits.take(digits.len() as int) =~= digits);
    }
    if k < 0 {
        if count as i128 + k <= 0 {
            return 0;
        }
        let take: usize = (count as i128 + k) as usize;
        return digits_prefix(s, whole, frac, take);
    }
    let all: i64 = digits_prefix(s, whole, frac, count);
    move_right(all, k, Ghost(digits_value(digits)))
}

/// Reads the unsigned token `s`; the value saturates at the limit.
fn parse_unsigned(s: &[char]) -> (r: Option<i64>)
    ensures
        match unsigned_picos(s@) {
            Some(v) => r == Some(clamp_int(v, 0, DECIMAL_LIMIT as int) as i64) && v >= 0,
            None => r is None,
        },
{
    let n: usize = s.len();
    assert(s@.skip(0) =~= s@);
    let whole: usize = digits_from(s, 0);
    let pointed: bool = whole < n && s[whole] == '.';
    let frac: usize = if pointed {
        digits_from(s, whole + 1)
    } else {
        0
    };
    let mark: usize = if pointed {
        whole + 1 + frac
    } else {
        whole
    };
    if whole == 0 && frac == 0 {
        return None;
    }
    if mark == n {
        return Some(scaled_value(s, whole, frac, 0, Ghost(0)));
    }
    if s[mark] == 'e' || s[mark] == 'E' {
        match exponent_from(s, mark + 1) {
            Some(e) => Some(
                scaled_value(
                    s,
                    whole,
                    frac,
                    e,
                    Ghost(exponent_value(s@.skip(mark + 1)).unwrap()),
                ),
            ),
            None => None,
        }
    } else {
        None
    }
}

/// Reads a token without its sign: a number, or one of the words for
/// infinity and for what is no number.
fn parse_magnitude(s: &[char]) -> (r: Option<i64>)
    ensures
        match magnitude_picos(s@) {
            Some(v) => r == Some(clamp_int(v, 0, DECIMAL_LIMIT as int) as i64) && v >= 0,
            None => r is None,
        },
{
    let inf = ['i', 'n', 'f'];
    let infinity = ['i', 'n', 'f', 'i', 'n', 'i', 't', 'y'];
    let nan = ['n', 'a', 'n'];
    assert(inf@ =~= seq!['i', 'n', 'f']);
    assert(infinity@ =~= seq!['i', 'n', 'f', 'i', 'n', 'i', 't', 'y']);
    assert(nan@ =~= seq!['n', 'a', 'n']);
    if is_word_of(s, inf.as_slice()) || is_word_of(s, infinity.as_slice()) {
        Some(DECIMAL_LIMIT)
    } else if is_word_of(s, nan.as_slice()) {
        Some(0)
    } else {
        parse_unsigned(s)
    }
}

/// Reads a decimal token: an optional sign, then digits with an optional
/// point, at least one digit in all, and an optional exponent; or, after
/// the sign, `inf` or `infinity` for the largest number held and `nan` for
/// zero, in either case of the letters. The value is read to twelve places,
/// rounded towards zero, and saturates at the limit; anything else is no
/// number.
pub fn parse_decimal(s: &[char]) -> (r: Option<Decimal>)
    ensures
        match parsed_decimal(s@) {
            Some(v) => r is Some && r.unwrap()@ == v,
            None => r is None,
        },
{
    if s.len() > 0 && s[0] == '-' {
        assert(s@.drop_first() =~= s@.subrange(1, s@.len() as int));
        match parse_magnitude(slice_subrange(s, 1, s.len())) {
            Some(v) => Some(Decimal { picos: -v }),
            None => None,
        }
    } else if s.len() > 0 && s[0] == '+' {
        assert(s@.drop_first() =~= s@.subrange(1, s@.len() as int));
        match parse_magnitude(slice_subrange(s, 1, s.len())) {
            Some(v) => Some(Decimal { picos: v }),
            None => None,
        }
    } else {
        match parse_magnitude(s) {
            Some(v) => Some(Decimal { picos: v }),
            None => None,
        }
    }
}

} // verus!
