//! The appearance resolver: colour strings to luminance, luminance to a text
//! colour, and settings to the full set of style strings.

use crate::decimal::{clamp_int, parse_decimal, parsed_decimal, Decimal, PICOS_PER_UNIT};
use crate::text::{
    chars_of, decimal_string, decimal_text, has_prefix, is_space, is_whitespace, starts_with,
    str_eq, strip_leading_repeats, strip_leading_spaces, strip_trailing_char, trim_end_char,
    trim_spaces, trim_start_repeats, trimmed,
};
use vstd::prelude::*;
use vstd::slice::slice_subrange;

verus! {

/// The parts that make a luminance of one: a luminance is a whole number of
/// parts, so that the weighted sum of three channels of twelve places is
/// exact.
pub const LUMA_SCALE: i64 = 255_000_000_000_000_000;

/// The luminance, in parts, given to a colour that cannot be read: one half.
pub const NEUTRAL_LUMINANCE: i64 = 127_500_000_000_000_000;

/// The luminance, in parts, above which a surface reads as light: 0.45.
pub const LIGHT_THRESHOLD: i64 = 114_750_000_000_000_000;

/// The luminance, in parts, of the gray that a neutral bubble is drawn with
/// over a dark image: 0.35.
pub const GRAY_LUMINANCE: i64 = 89_250_000_000_000_000;

/// The brightness, in picos, above which an image reads as light: 127.5.
pub const MIDDLE_BRIGHTNESS: i64 = 127_500_000_000_000;

/// The largest channel value, in picos.
pub const MAX_CHANNEL: i64 = 255_000_000_000_000;

/// The channel value given to a pair of hex digits that cannot be read.
pub const DEFAULT_CHANNEL: u8 = 128;

/// A luminance from 0 to 1, held exactly. Its view is the number of parts
/// of [`LUMA_SCALE`] that it stands for.
#[derive(Clone, Copy, Debug)]
pub struct Luminance {
    parts: i64,
}

impl View for Luminance {
    type V = int;

    closed spec fn view(&self) -> int {
        self.parts as int
    }
}

impl Luminance {
    #[verifier::type_invariant]
    spec fn in_range(self) -> bool {
        0 <= self.parts <= LUMA_SCALE
    }

    /// The luminance of `d`, brought into the range from 0 to 1.
    pub fn from_decimal(d: Decimal) -> (lum: Luminance)
        ensures
            lum@ == clamp_int(d@, 0, PICOS_PER_UNIT as int) * 255_000,
    {
        let m: i64 = d.picos();
        if m < 0 {
            Luminance { parts: 0 }
        } else if m > PICOS_PER_UNIT {
            Luminance { parts: LUMA_SCALE }
        } else {
            Luminance { parts: m * 255_000 }
        }
    }

    /// The parts this luminance stands for.
    pub fn parts(&self) -> (p: i64)
        ensures
            p == self@,
            0 <= p <= LUMA_SCALE,
    {
        proof {
            use_type_invariant(self);
        }
        self.parts
    }

    /// The luminance as a decimal, cut to twelve places.
    pub fn to_decimal(&self) -> (d: Decimal)
        ensures
            d@ == self@ / 255_000,
    {
        proof {
            use_type_invariant(self);
        }
        Decimal::from_picos(self.parts / 255_000)
    }
}

/// The number that the hex digit `c` stands for, in either case.
pub open spec fn hex_digit(c: char) -> Option<int> {
    let n = c as u32;
    if 0x30 <= n <= 0x39 {
        Some(n - 0x30)
    } else if 0x61 <= n <= 0x66 {
        Some(n - 0x61 + 10)
    } else if 0x41 <= n <= 0x46 {
        Some(n - 0x41 + 10)
    } else {
        None
    }
}

/// The channel value written by the two characters `hi` and `lo`: two hex
/// digits, or a plus sign and one hex digit. Any other pair gives the default.
pub open spec fn hex_byte(hi: char, lo: char) -> int {
    match (hex_digit(hi), hex_digit(lo)) {
        (Some(h), Some(l)) => 16 * h + l,
        (None, Some(l)) => if hi == '+' {
            l
        } else {
            DEFAULT_CHANNEL as int
        },
        _ => DEFAULT_CHANNEL as int,
    }
}

/// The channel `v`, in picos, brought into the range from 0 to 255.
pub open spec fn channel_picos(v: int) -> int {
    clamp_int(v, 0, MAX_CHANNEL as int)
}

/// The luminance, in parts, of a colour whose channels are `r`, `g` and `b`
/// picos: the weighted sum `0.299 r + 0.587 g + 0.114 b` over 255 of the
/// channels, each brought into its range. Nothing is rounded.
pub open spec fn luma_parts(r: int, g: int, b: int) -> int {
    299 * channel_picos(r) + 587 * channel_picos(g) + 114 * channel_picos(b)
}

/// The luminance of a colour with the channel bytes `r`, `g` and `b`.
pub open spec fn byte_luma(r: int, g: int, b: int) -> int {
    luma_parts(
        r * PICOS_PER_UNIT as int,
        g * PICOS_PER_UNIT as int,
        b * PICOS_PER_UNIT as int,
    )
}

/// The number of bytes that `c` takes in UTF-8.
pub open spec fn utf8_len(c: char) -> nat {
    let n = c as u32;
    if n < 0x80 {
        1
    } else if n < 0x800 {
        2
    } else if n < 0x10000 {
        3
    } else {
        4
    }
}

/// The number of bytes that `s` takes in UTF-8.
pub open spec fn byte_len(s: Seq<char>) -> nat
    decreases s.len(),
{
    if s.len() == 0 {
        0
    } else {
        byte_len(s.drop_last()) + utf8_len(s.last())
    }
}

/// The channel written by the next two bytes of `s`, and what follows them.
/// Two characters of one byte each are read as a pair of hex digits; one
/// character of two bytes cannot be read and gives the default. There is no
/// channel where two bytes end inside a character.
pub open spec fn hex_pair(s: Seq<char>) -> Option<(int, Seq<char>)> {
    if s.len() >= 1 && utf8_len(s[0]) == 2 {
        Some((DEFAULT_CHANNEL as int, s.skip(1)))
    } else if s.len() >= 2 && utf8_len(s[0]) == 1 && utf8_len(s[1]) == 1 {
        Some((hex_byte(s[0], s[1]), s.skip(2)))
    } else {
        None
    }
}

/// The luminance of the three channels written by the first six bytes of
/// `hex`; neutral where a channel ends inside a character.
pub open spec fn long_hex_luminance(hex: Seq<char>) -> int {
    match hex_pair(hex) {
        Some((r, after_r)) => match hex_pair(after_r) {
            Some((g, after_g)) => match hex_pair(after_g) {
                Some((b, _)) => byte_luma(r, g, b),
                None => NEUTRAL_LUMINANCE as int,
            },
            None => NEUTRAL_LUMINANCE as int,
        },
        None => NEUTRAL_LUMINANCE as int,
    }
}

/// The luminance, in parts, written by what follows the `#`. The form goes
/// by the length in bytes: three bytes are three digits, each standing for a
/// doubled pair; six bytes, or eight with two of alpha, are three pairs.
/// Any other length, and three bytes that are not three characters, give
/// the neutral value.
pub open spec fn hex_luminance(hex: Seq<char>) -> int {
    let n = byte_len(hex);
    if n == 3 {
        if hex.len() == 3 {
            byte_luma(hex_byte(hex[0], hex[0]), hex_byte(hex[1], hex[1]), hex_byte(hex[2], hex[2]))
        } else {
            NEUTRAL_LUMINANCE as int
        }
    } else if n == 6 || n == 8 {
        long_hex_luminance(hex)
    } else {
        NEUTRAL_LUMINANCE as int
    }
}

fn hex_digit_of(c: char) -> (r: Option<u8>)
    ensures
        match hex_digit(c) {
            Some(v) => r == Some(v as u8) && 0 <= v < 16,
            None => r is None,
        },
{
    let n: u32 = c as u32;
    if 0x30 <= n && n <= 0x39 {
        Some((n - 0x30) as u8)
    } else if 0x61 <= n && n <= 0x66 {
        Some((n - 0x61 + 10) as u8)
    } else if 0x41 <= n && n <= 0x46 {
        Some((n - 0x41 + 10) as u8)
    } else {
        None
    }
}

/// Reads one channel from a pair of characters.
pub fn parse_hex_byte(hi: char, lo: char) -> (r: u8)
    ensures
        r == hex_byte(hi, lo),
{
    match (hex_digit_of(hi), hex_digit_of(lo)) {
        (Some(h), Some(l)) => 16 * h + l,
        (None, Some(l)) => if hi == '+' {
            l
        } else {
            DEFAULT_CHANNEL
        },
        _ => DEFAULT_CHANNEL,
    }
}

/// The number of bytes that one character takes in UTF-8.
pub fn utf8_len_of(c: char) -> (n: usize)
    ensures
        n == utf8_len(c),
        1 <= n <= 4,
{
    let code: u32 = c as u32;
    if code < 0x80 {
        1
    } else if code < 0x800 {
        2
    } else if code < 0x10000 {
        3
    } else {
        4
    }
}

proof fn lemma_byte_len_covers(s: Seq<char>)
    ensures
        byte_len(s) >= s.len(),
    decreases s.len(),
{
    if s.len() > 0 {
        lemma_byte_len_covers(s.drop_last());
    }
}

/// The weighted luminance of three channels on the scale from 0 to 255, each
/// brought into that range.
pub fn weighted_luminance(r: Decimal, g: Decimal, b: Decimal) -> (lum: Luminance)
    ensures
        lum@ == luma_parts(r@, g@, b@),
{
    let r: i64 = channel_of(r);
    let g: i64 = channel_of(g);
    let b: i64 = channel_of(b);
    Luminance { parts: 299 * r + 587 * g + 114 * b }
}

fn channel_of(v: Decimal) -> (c: i64)
    ensures
        c == channel_picos(v@),
{
    let m: i64 = v.picos();
    if m < 0 {
        0
    } else if m > MAX_CHANNEL {
        MAX_CHANNEL
    } else {
        m
    }
}

fn neutral() -> (lum: Luminance)
    ensures
        lum@ == NEUTRAL_LUMINANCE,
{
    Luminance { parts: NEUTRAL_LUMINANCE }
}

fn luminance_of_bytes(r: u8, g: u8, b: u8) -> (lum: Luminance)
    ensures
        lum@ == byte_luma(r as int, g as int, b as int),
{
    weighted_luminance(
        Decimal::from_units(r as i64),
        Decimal::from_units(g as i64),
        Decimal::from_units(b as i64),
    )
}

fn read_pair(s: &[char], at: usize) -> (r: Option<(u8, usize)>)
    requires
        at <= s@.len(),
    ensures
        match r {
            Some((v, next)) => at < next <= s@.len() && hex_pair(s@.skip(at as int)) == Some(
                (v as int, s@.skip(next as int)),
            ),
            None => hex_pair(s@.skip(at as int)) is None,
        },
{
    let ghost rest = s@.skip(at as int);
    if at < s.len() && utf8_len_of(s[at]) == 2 {
        assert(rest[0] == s@[at as int]);
        assert(rest.skip(1) =~= s@.skip(at as int + 1));
        return Some((DEFAULT_CHANNEL, at + 1));
    }
    if at < s.len() && s.len() - at >= 2 && utf8_len_of(s[at]) == 1 && utf8_len_of(s[at + 1]) == 1 {
        assert(rest[0] == s@[at as int]);
        assert(rest[1] == s@[at as int + 1]);
        assert(rest.skip(2) =~= s@.skip(at as int + 2));
        return Some((parse_hex_byte(s[at], s[at + 1]), at + 2));
    }
    proof {
        if rest.len() >= 1 {
            assert(rest[0] == s@[at as int]);
        }
        if rest.len() >= 2 {
            assert(rest[1] == s@[at as int + 1]);
        }
    }
    None
}

fn luminance_of_hex(hex: &[char]) -> (lum: Luminance)
    ensures
        lum@ == hex_luminance(hex@),
{
    proof {
        lemma_byte_len_covers(hex@);
    }
    if hex.len() > 8 {
        return neutral();
    }
    let mut bytes: usize = 0;
    let mut i: usize = 0;
    while i < hex.len()
        invariant
            i <= hex@.len() <= 8,
            bytes == byte_len(hex@.take(i as int)),
            bytes <= 4 * i,
        decreases hex@.len() - i,
    {
        assert(hex@.take(i as int + 1).drop_last() =~= hex@.take(i as int));
        bytes += utf8_len_of(hex[i]);
        i += 1;
    }
    assert(hex@.take(hex@.len() as int) =~= hex@);
    if bytes == 3 {
        if hex.len() == 3 {
            luminance_of_bytes(
                parse_hex_byte(hex[0], hex[0]),
                parse_hex_byte(hex[1], hex[1]),
                parse_hex_byte(hex[2], hex[2]),
            )
        } else {
            neutral()
        }
    } else if bytes == 6 || bytes == 8 {
        assert(hex@.skip(0) =~= hex@);
        match read_pair(hex, 0) {
            Some((r, after_r)) => match read_pair(hex, after_r) {
                Some((g, after_g)) => match read_pair(hex, after_g) {
                    Some((b, _)) => luminance_of_bytes(r, g, b),
                    None => neutral(),
                },
                None => neutral(),
            },
            None => neutral(),
        }
    } else {
        neutral()
    }
}

/// Whether `c` parts two channel fields: a comma or a space.
pub open spec fn is_separator(c: char) -> bool {
    c == ',' || c == ' '
}

/// The length of the run of characters at the start of `s` that are no
/// separators.
pub open spec fn field_len(s: Seq<char>) -> nat
    decreases s.len(),
{
    if s.len() > 0 && !is_separator(s[0]) {
        1 + field_len(s.drop_first())
    } else {
        0
    }
}

/// The numbers among the fields of `s`, in order and in picos. Fields
/// are parted by single separators; each is trimmed, and one that is no
/// number is passed over.
pub open spec fn channel_values(s: Seq<char>) -> Seq<int>
    decreases s.len(),
{
    let n = field_len(s) as int;
    let here = match parsed_decimal(trimmed(s.take(n))) {
        Some(v) => seq![v],
        None => Seq::<int>::empty(),
    };
    if n >= s.len() {
        here
    } else {
        here + channel_values(s.skip(n + 1))
    }
}

/// The text between the brackets of a functional colour `t` that begins with
/// `rgb`: every leading `rgba(`, then every leading `rgb(`, and every closing
/// bracket at the end are removed.
pub open spec fn rgb_inner(t: Seq<char>) -> Seq<char> {
    strip_trailing_char(
        strip_leading_repeats(
            strip_leading_repeats(t, seq!['r', 'g', 'b', 'a', '(']),
            seq!['r', 'g', 'b', '('],
        ),
        ')',
    )
}

/// The text between the brackets of a colour `t` that begins with `oklch(`.
pub open spec fn oklch_inner(t: Seq<char>) -> Seq<char> {
    strip_trailing_char(strip_leading_repeats(t, seq!['o', 'k', 'l', 'c', 'h', '(']), ')')
}

/// The length of the run of characters at the start of `s` that are no white
/// space.
pub open spec fn word_len(s: Seq<char>) -> nat
    decreases s.len(),
{
    if s.len() > 0 && !is_space(s[0]) {
        1 + word_len(s.drop_first())
    } else {
        0
    }
}

/// The first run of characters in `s` that holds no white space; empty where
/// there is none.
pub open spec fn first_word(s: Seq<char>) -> Seq<char> {
    let t = strip_leading_spaces(s);
    t.take(word_len(t) as int)
}

/// The lightness, in parts, written by the first word of `inner`. A word
/// that ends in `%` is a percentage, and any other a fraction of one; each is
/// brought into its range, and a word that cannot be read gives one half.
pub open spec fn lightness_parts(inner: Seq<char>) -> int {
    let w = first_word(inner);
    if w.len() > 0 && w.last() == '%' {
        match parsed_decimal(strip_trailing_char(w, '%')) {
            Some(v) => clamp_int(v, 0, 100 * PICOS_PER_UNIT as int) * 2_550,
            None => NEUTRAL_LUMINANCE as int,
        }
    } else {
        match parsed_decimal(w) {
            Some(v) => clamp_int(v, 0, PICOS_PER_UNIT as int) * 255_000,
            None => NEUTRAL_LUMINANCE as int,
        }
    }
}

/// The luminance, in parts, that the colour string `css` stands for.
///
/// After trimming, a string that begins with `#` is read as hex digits; one
/// that begins with `rgb` and holds at least three numbers is read as
/// channels; one that begins with `oklch(` is read by its lightness; any
/// other has the neutral luminance.
pub open spec fn luminance_parts(css: Seq<char>) -> int {
    let t = trimmed(css);
    if t.len() > 0 && t[0] == '#' {
        hex_luminance(t.drop_first())
    } else if has_prefix(t, seq!['r', 'g', 'b']) && channel_values(rgb_inner(t)).len() >= 3 {
        let v = channel_values(rgb_inner(t));
        luma_parts(v[0], v[1], v[2])
    } else if has_prefix(t, seq!['o', 'k', 'l', 'c', 'h', '(']) {
        lightness_parts(oklch_inner(t))
    } else {
        NEUTRAL_LUMINANCE as int
    }
}

proof fn lemma_field_len(s: Seq<char>, k: int)
    requires
        0 <= k <= s.len(),
        forall|j: int| 0 <= j < k ==> !is_separator(#[trigger] s[j]),
        k == s.len() || is_separator(s[k]),
    ensures
        field_len(s) == k,
    decreases k,
{
    if k > 0 {
        let t = s.drop_first();
        assert forall|j: int| 0 <= j < k - 1 implies !is_separator(#[trigger] t[j]) by {
            assert(t[j] == s[j + 1]);
        }
        lemma_field_len(t, k - 1);
    }
}

proof fn lemma_word_len(s: Seq<char>, k: int)
    requires
        0 <= k <= s.len(),
        forall|j: int| 0 <= j < k ==> !is_space(#[trigger] s[j]),
        k == s.len() || is_space(s[k]),
    ensures
        word_len(s) == k,
    decreases k,
{
    if k > 0 {
        let t = s.drop_first();
        assert forall|j: int| 0 <= j < k - 1 implies !is_space(#[trigger] t[j]) by {
            assert(t[j] == s[j + 1]);
        }
        lemma_word_len(t, k - 1);
    }
}

/// Collects the numbers among the fields of `s`.
pub fn read_channels(s: &[char]) -> (out: Vec<Decimal>)
    ensures
        out@.len() == channel_values(s@).len(),
        forall|i: int| 0 <= i < out@.len() ==> (#[trigger] out@[i])@ == channel_values(s@)[i],
{
    let n: usize = s.len();
    let mut out: Vec<Decimal> = Vec::new();
    let ghost mut acc: Seq<int> = Seq::empty();
    let mut pos: usize = 0;
    let mut done: bool = false;
    assert(s@.skip(0) =~= s@);
    while !done
        invariant
            n == s@.len(),
            pos <= n,
            out@.len() == acc.len(),
            forall|i: int| 0 <= i < out@.len() ==> (#[trigger] out@[i])@ == acc[i],
            !done ==> channel_values(s@) == acc + channel_values(s@.skip(pos as int)),
            done ==> channel_values(s@) == acc,
        decreases
            (if done {
                0
            } else {
                n - pos + 1
            }),
    {
        let ghost rest = s@.skip(pos as int);
        let mut end: usize = pos;
        while end < n && !(s[end] == ',' || s[end] == ' ')
            invariant
                n == s@.len(),
                pos <= end <= n,
                rest == s@.skip(pos as int),
                forall|j: int| 0 <= j < end - pos ==> !is_separator(#[trigger] rest[j]),
            decreases n - end,
        {
            end += 1;
        }
        proof {
            lemma_field_len(rest, end - pos);
            assert(rest.take(end - pos) =~= s@.subrange(pos as int, end as int));
            if end < n {
                assert(rest.skip(end - pos + 1) =~= s@.skip(end as int + 1));
            }
        }
        let field = trim_spaces(slice_subrange(s, pos, end));
        let ghost before = acc;
        match parse_decimal(field) {
            Some(d) => {
                out.push(d);
                proof {
                    acc = acc.push(d@);
                    assert(acc =~= before + seq![d@]);
                }
            },
            None => {
                proof {
                    assert(acc =~= before + Seq::<int>::empty());
                }
            },
        }
        if end >= n {
            done = true;
        } else {
            proof {
                let here = match parsed_decimal(trimmed(rest.take(end - pos))) {
                    Some(v) => seq![v],
                    None => Seq::<int>::empty(),
                };
                assert(acc == before + here);
                assert(before + (here + channel_values(s@.skip(end as int + 1))) =~= (before
                    + here) + channel_values(s@.skip(end as int + 1)));
            }
            pos = end + 1;
        }
    }
    out
}

/// Reads the lightness from the text between the brackets.
pub fn read_lightness(inner: &[char]) -> (lum: Luminance)
    ensures
        lum@ == lightness_parts(inner@),
{
    let n: usize = inner.len();
    let mut start: usize = 0;
    assert(inner@.subrange(0, n as int) =~= inner@);
    while start < n && is_whitespace(inner[start])
        invariant
            n == inner@.len(),
            start <= n,
            strip_leading_spaces(inner@) == strip_leading_spaces(
                inner@.subrange(start as int, n as int),
            ),
        decreases n - start,
    {
        assert(inner@.subrange(start as int, n as int).drop_first() =~= inner@.subrange(
            start as int + 1,
            n as int,
        ));
        start += 1;
    }
    let ghost t = inner@.subrange(start as int, n as int);
    assert(strip_leading_spaces(inner@) == t);
    let mut end: usize = start;
    while end < n && !is_whitespace(inner[end])
        invariant
            n == inner@.len(),
            start <= end <= n,
            t == inner@.subrange(start as int, n as int),
            forall|j: int| 0 <= j < end - start ==> !is_space(#[trigger] t[j]),
        decreases n - end,
    {
        end += 1;
    }
    proof {
        lemma_word_len(t, end - start);
        assert(t.take(end - start) =~= inner@.subrange(start as int, end as int));
    }
    let word = slice_subrange(inner, start, end);
    if word.len() > 0 && word[word.len() - 1] == '%' {
        match parse_decimal(trim_end_char(word, '%')) {
            Some(v) => {
                let m: i64 = v.picos();
                if m < 0 {
                    Luminance { parts: 0 }
                } else if m > 100 * PICOS_PER_UNIT {
                    Luminance { parts: LUMA_SCALE }
                } else {
                    Luminance { parts: m * 2_550 }
                }
            },
            None => neutral(),
        }
    } else {
        match parse_decimal(word) {
            Some(v) => Luminance::from_decimal(v),
            None => neutral(),
        }
    }
}

/// The approximate luminance of a colour string: hex digits, `rgb` or `rgba`
/// channels, or the lightness of `oklch`. A string in no such form has the
/// neutral luminance, one half.
pub fn color_to_luminance(color: &str) -> (lum: Luminance)
    ensures
        lum@ == luminance_parts(color@),
        0 <= lum@ <= LUMA_SCALE,
{
    let chars = chars_of(color);
    let t = trim_spaces(chars.as_slice());
    if t.len() > 0 && t[0] == '#' {
        assert(t@.drop_first() =~= t@.subrange(1, t@.len() as int));
        let lum = luminance_of_hex(slice_subrange(t, 1, t.len()));
        proof {
            use_type_invariant(&lum);
        }
        return lum;
    }
    let rgb = ['r', 'g', 'b'];
    let rgb_open = ['r', 'g', 'b', '('];
    let rgba_open = ['r', 'g', 'b', 'a', '('];
    let oklch_open = ['o', 'k', 'l', 'c', 'h', '('];
    assert(rgb@ =~= seq!['r', 'g', 'b']);
    assert(rgb_open@ =~= seq!['r', 'g', 'b', '(']);
    assert(rgba_open@ =~= seq!['r', 'g', 'b', 'a', '(']);
    assert(oklch_open@ =~= seq!['o', 'k', 'l', 'c', 'h', '(']);
    if starts_with(t, rgb.as_slice()) {
        let inner = trim_end_char(
            trim_start_repeats(trim_start_repeats(t, rgba_open.as_slice()), rgb_open.as_slice()),
            ')',
        );
        let nums = read_channels(inner);
        if nums.len() >= 3 {
            let lum = weighted_luminance(nums[0], nums[1], nums[2]);
            proof {
            use_type_invariant(&lum);
        }
            return lum;
        }
    }
    if starts_with(t, oklch_open.as_slice()) {
        let lum = read_lightness(
            trim_end_char(trim_start_repeats(t, oklch_open.as_slice()), ')'),
        );
        proof {
            use_type_invariant(&lum);
        }
        return lum;
    }
    neutral()
}

/// The settings of the chat's appearance, as the interface hands them over.
#[derive(Debug)]
pub struct ChatAppearanceInput {
    /// The colour token of the user's bubbles.
    pub user_bubble_color: String,
    /// The colour token of the assistant's bubbles, or `neutral`.
    pub assistant_bubble_color: String,
    /// The opacity of the bubbles, a percentage.
    pub bubble_opacity: Decimal,
    /// `light` or `dark` to force a text colour; anything else decides by
    /// luminance.
    pub text_mode: String,
}

/// The colour strings that the two bubble tokens resolve to.
#[derive(Debug)]
pub struct ResolvedColors {
    /// The colour behind the user's token.
    pub user_color_css: String,
    /// The colour behind the assistant's token.
    pub assistant_color_css: String,
}

/// The style strings of one theme.
#[derive(Debug, Clone)]
pub struct ThemeColors {
    pub assistant_bg: String,
    pub assistant_border: String,
    pub assistant_text: String,
    pub user_bg: String,
    pub user_border: String,
    pub user_text: String,
    pub header_overlay: String,
    pub footer_overlay: String,
    pub content_overlay: String,
}

/// The characters of the nine style strings of a theme.
pub struct ThemeText {
    pub assistant_bg: Seq<char>,
    pub assistant_border: Seq<char>,
    pub assistant_text: Seq<char>,
    pub user_bg: Seq<char>,
    pub user_border: Seq<char>,
    pub user_text: Seq<char>,
    pub header_overlay: Seq<char>,
    pub footer_overlay: Seq<char>,
    pub content_overlay: Seq<char>,
}

impl View for ThemeColors {
    type V = ThemeText;

    open spec fn view(&self) -> ThemeText {
        ThemeText {
            assistant_bg: self.assistant_bg@,
            assistant_border: self.assistant_border@,
            assistant_text: self.assistant_text@,
            user_bg: self.user_bg@,
            user_border: self.user_border@,
            user_text: self.user_text@,
            header_overlay: self.header_overlay@,
            footer_overlay: self.footer_overlay@,
            content_overlay: self.content_overlay@,
        }
    }
}

/// The picos of an optional number.
pub open spec fn picos_of(d: Option<Decimal>) -> Option<int> {
    match d {
        Some(v) => Some(v@),
        None => None,
    }
}

/// Whether what lies behind the text reads as light: whether its luminance
/// is above 0.45.
///
/// With no background image it is the bubble's luminance, `lum` parts.
/// Over an image of brightness `b` picos on the scale from 0 to 255 it
/// is the blend `o * lum + (1 - o) * b / 255`, where the opacity `o` is
/// `opacity` over `scale`. Both sides of the comparison are multiplied out,
/// so that nothing is rounded.
pub open spec fn reads_light(bg: Option<int>, lum: int, opacity: int, scale: int) -> bool {
    match bg {
        None => lum > LIGHT_THRESHOLD,
        Some(b) => opacity * lum + 1_000 * ((scale - opacity) * b) > LIGHT_THRESHOLD * scale,
    }
}

/// The text colour for a bubble: forced by the mode `light` or `dark`, and
/// else dark on what reads light and light on what does not.
pub open spec fn text_color(
    bg: Option<int>,
    lum: int,
    opacity: int,
    scale: int,
    mode: Seq<char>,
) -> Seq<char> {
    if mode == "light"@ {
        "text-white"@
    } else if mode == "dark"@ {
        "text-gray-900"@
    } else if reads_light(bg, lum, opacity, scale) {
        "text-gray-900"@
    } else {
        "text-white/95"@
    }
}

fn text_color_at(
    bg_brightness: Option<Decimal>,
    bubble_luminance: Luminance,
    opacity: Decimal,
    scale: i64,
    text_mode: &str,
) -> (color: String)
    requires
        0 < scale <= 100 * PICOS_PER_UNIT,
    ensures
        color@ == text_color(
            picos_of(bg_brightness),
            bubble_luminance@,
            opacity@,
            scale as int,
            text_mode@,
        ),
{
    if str_eq(text_mode, "light") {
        return String::from_str("text-white");
    }
    if str_eq(text_mode, "dark") {
        return String::from_str("text-gray-900");
    }
    let lum: i128 = bubble_luminance.parts() as i128;
    let light: bool = match bg_brightness {
        None => lum > LIGHT_THRESHOLD as i128,
        Some(bg) => {
            let b: i128 = bg.picos() as i128;
            let o: i128 = opacity.picos() as i128;
            let rest: i128 = scale as i128 - o;
            assert(-100_000_000_000_000_000 * 255_000_000_000_000_000 <= o * lum
                <= 100_000_000_000_000_000 * 255_000_000_000_000_000) by (nonlinear_arith)
                requires
                    -100_000_000_000_000_000 <= o <= 100_000_000_000_000_000,
                    0 <= lum <= 255_000_000_000_000_000,
            ;
            assert(-100_100_000_000_000_000 * 100_000_000_000_000_000 <= rest * b
                <= 100_100_000_000_000_000 * 100_000_000_000_000_000) by (nonlinear_arith)
                requires
                    -100_100_000_000_000_000 <= rest <= 100_100_000_000_000_000,
                    -100_000_000_000_000_000 <= b <= 100_000_000_000_000_000,
            ;
            o * lum + 1_000 * (rest * b) > 114_750_000_000_000_000 * (scale as i128)
        },
    };
    if light {
        String::from_str("text-gray-900")
    } else {
        String::from_str("text-white/95")
    }
}

/// Picks the text colour of a bubble from its luminance, its opacity as a
/// fraction of one, the brightness of the background image where one is
/// shown, and the text mode.
pub fn compute_text_color(
    bg_brightness: Option<Decimal>,
    bubble_luminance: Luminance,
    bubble_opacity_01: Decimal,
    text_mode: &str,
) -> (color: String)
    ensures
        color@ == text_color(
            picos_of(bg_brightness),
            bubble_luminance@,
            bubble_opacity_01@,
            PICOS_PER_UNIT as int,
            text_mode@,
        ),
{
    text_color_at(bg_brightness, bubble_luminance, bubble_opacity_01, PICOS_PER_UNIT, text_mode)
}

/// The picos of a percent that make an opacity of one.
pub const PERCENT_SCALE: i64 = 100_000_000_000_000;

/// The opacity as a whole percentage: rounded to the nearest, halves up, and
/// nothing below zero.
pub open spec fn opacity_percent(opacity: int) -> nat {
    if opacity < 0 {
        0
    } else {
        ((opacity + 500_000_000_000) / PICOS_PER_UNIT as int) as nat
    }
}

/// The percentage of a neutral bubble over a dark image: 85 hundredths of
/// `pct`, rounded to the nearest.
pub open spec fn reduced_percent(pct: nat) -> nat {
    (85 * pct + 50) / 100
}

/// Whether an image of brightness `b` picos reads as light: above 127.5.
pub open spec fn is_light(b: int) -> bool {
    b > MIDDLE_BRIGHTNESS
}

/// The luminance, in parts, of what a neutral bubble is drawn with over an
/// image: black over a light one, a gray of 0.35 over a dark one.
pub open spec fn neutral_bubble_luminance(b: int) -> int {
    if is_light(b) {
        0
    } else {
        GRAY_LUMINANCE as int
    }
}

/// Whether the token is the one that stands for a bubble without a colour.
pub open spec fn is_neutral(token: Seq<char>) -> bool {
    token == "neutral"@
}

/// The fill of a coloured bubble: the token at the percentage `pct`.
pub open spec fn token_fill(token: Seq<char>, pct: nat) -> Seq<char> {
    "bg-"@ + token + "/"@ + decimal_text(pct)
}

/// The border of a coloured bubble: the token at one half.
pub open spec fn token_border(token: Seq<char>) -> Seq<char> {
    "border-"@ + token + "/50"@
}

/// The fill of the assistant's bubble.
pub open spec fn assistant_fill(token: Seq<char>, pct: nat, bg: Option<int>) -> Seq<char> {
    if !is_neutral(token) {
        token_fill(token, pct)
    } else {
        match bg {
            None => "bg-fg/5"@,
            Some(b) => if is_light(b) {
                "bg-black/"@ + decimal_text(pct)
            } else {
                "bg-gray-600/"@ + decimal_text(reduced_percent(pct))
            },
        }
    }
}

/// The border of the assistant's bubble.
pub open spec fn assistant_edge(token: Seq<char>, bg: Option<int>) -> Seq<char> {
    if !is_neutral(token) {
        token_border(token)
    } else {
        match bg {
            None => "border-fg/10"@,
            Some(b) => if is_light(b) {
                "border-black/40"@
            } else {
                "border-gray-400/40"@
            },
        }
    }
}

/// The text colour of the assistant's bubble, for an opacity of `percent`
/// picos of a percent. A neutral bubble takes the ambient colour where
/// no image is shown, and over an image is judged by what it is drawn with,
/// not by its resolved colour `lum`.
pub open spec fn assistant_ink(
    token: Seq<char>,
    bg: Option<int>,
    lum: int,
    percent: int,
    mode: Seq<char>,
) -> Seq<char> {
    if !is_neutral(token) {
        text_color(bg, lum, percent, PERCENT_SCALE as int, mode)
    } else {
        match bg {
            None => "text-fg"@,
            Some(b) => text_color(
                bg,
                neutral_bubble_luminance(b),
                percent,
                PERCENT_SCALE as int,
                mode,
            ),
        }
    }
}

/// The overlay behind the header.
pub open spec fn header_panel(bg: Option<int>) -> Seq<char> {
    match bg {
        None => Seq::<char>::empty(),
        Some(b) => if is_light(b) {
            "bg-white/45 backdrop-blur-md"@
        } else {
            "bg-[#050505]/40 backdrop-blur-md"@
        },
    }
}

/// The overlay behind the footer.
pub open spec fn footer_panel(bg: Option<int>) -> Seq<char> {
    match bg {
        None => Seq::<char>::empty(),
        Some(b) => if is_light(b) {
            "bg-white/50 backdrop-blur-md"@
        } else {
            "bg-[#050505]/45 backdrop-blur-md"@
        },
    }
}

/// The colour laid over the content.
pub open spec fn content_tint(bg: Option<int>) -> Seq<char> {
    match bg {
        None => Seq::<char>::empty(),
        Some(b) => if is_light(b) {
            "rgba(255, 255, 255, 0.20)"@
        } else {
            "rgba(5, 5, 5, 0.15)"@
        },
    }
}

/// The theme for the given settings, background brightness and resolved
/// colours.
pub open spec fn composed_theme(
    settings: ChatAppearanceInput,
    bg_brightness: Option<Decimal>,
    resolved: ResolvedColors,
) -> ThemeText {
    let bg = picos_of(bg_brightness);
    let pct = opacity_percent(settings.bubble_opacity@);
    let percent = settings.bubble_opacity@;
    let mode = settings.text_mode@;
    ThemeText {
        assistant_bg: assistant_fill(settings.assistant_bubble_color@, pct, bg),
        assistant_border: assistant_edge(settings.assistant_bubble_color@, bg),
        assistant_text: assistant_ink(
            settings.assistant_bubble_color@,
            bg,
            luminance_parts(resolved.assistant_color_css@),
            percent,
            mode,
        ),
        user_bg: token_fill(settings.user_bubble_color@, pct),
        user_border: token_border(settings.user_bubble_color@),
        user_text: text_color(
            bg,
            luminance_parts(resolved.user_color_css@),
            percent,
            PERCENT_SCALE as int,
            mode,
        ),
        header_overlay: header_panel(bg),
        footer_overlay: footer_panel(bg),
        content_overlay: content_tint(bg),
    }
}

fn percent_of(opacity: Decimal) -> (pct: u32)
    ensures
        pct == opacity_percent(opacity@),
        pct <= 100_001,
{
    let m: i64 = opacity.picos();
    if m < 0 {
        0
    } else {
        ((m + 500_000_000_000) / PICOS_PER_UNIT) as u32
    }
}

fn fill_string(prefix: &str, token: &str, pct: u32) -> (r: String)
    ensures
        r@ == prefix@ + token@ + "/"@ + decimal_text(pct as nat),
{
    let mut r = String::from_str(prefix);
    r.append(token);
    r.append("/");
    let digits = decimal_string(pct);
    r.append(digits.as_str());
    r
}

fn percent_string(prefix: &str, pct: u32) -> (r: String)
    ensures
        r@ == prefix@ + decimal_text(pct as nat),
{
    let mut r = String::from_str(prefix);
    let digits = decimal_string(pct);
    r.append(digits.as_str());
    r
}

fn border_string(token: &str) -> (r: String)
    ensures
        r@ == token_border(token@),
{
    let mut r = String::from_str("border-");
    r.append(token);
    r.append("/50");
    r
}

/// Composes the theme of the chat from the appearance settings, the
/// brightness of the background image where one is shown (on the scale from
/// 0 to 255), and the colours that the two bubble tokens resolve to. It
/// always succeeds.
pub fn compute_chat_theme(
    settings: ChatAppearanceInput,
    bg_brightness: Option<Decimal>,
    resolved: ResolvedColors,
) -> (theme: Result<ThemeColors, String>)
    ensures
        theme is Ok,
        theme.unwrap()@ == composed_theme(settings, bg_brightness, resolved),
{
    let pct: u32 = percent_of(settings.bubble_opacity);
    let opacity = settings.bubble_opacity;
    let user_lum = color_to_luminance(resolved.user_color_css.as_str());
    let assistant_lum = color_to_luminance(resolved.assistant_color_css.as_str());
    let mode = settings.text_mode.as_str();
    let user_token = settings.user_bubble_color.as_str();
    let assistant_token = settings.assistant_bubble_color.as_str();
    let neutral: bool = str_eq(assistant_token, "neutral");

    let user_text = text_color_at(bg_brightness, user_lum, opacity, PERCENT_SCALE, mode);
    let assistant_text = if !neutral {
        text_color_at(bg_brightness, assistant_lum, opacity, PERCENT_SCALE, mode)
    } else {
        match bg_brightness {
            None => String::from_str("text-fg"),
            Some(b) => {
                let drawn = if b.picos() > MIDDLE_BRIGHTNESS {
                    Luminance { parts: 0 }
                } else {
                    Luminance { parts: GRAY_LUMINANCE }
                };
                text_color_at(bg_brightness, drawn, opacity, PERCENT_SCALE, mode)
            },
        }
    };
    let user_bg = fill_string("bg-", user_token, pct);
    let user_border = border_string(user_token);
    let assistant_bg = if !neutral {
        fill_string("bg-", assistant_token, pct)
    } else {
        match bg_brightness {
            None => String::from_str("bg-fg/5"),
            Some(b) => if b.picos() > MIDDLE_BRIGHTNESS {
                percent_string("bg-black/", pct)
            } else {
                percent_string("bg-gray-600/", (85 * pct + 50) / 100)
            },
        }
    };
    let assistant_border = if !neutral {
        border_string(assistant_token)
    } else {
        match bg_brightness {
            None => String::from_str("border-fg/10"),
            Some(b) => if b.picos() > MIDDLE_BRIGHTNESS {
                String::from_str("border-black/40")
            } else {
                String::from_str("border-gray-400/40")
            },
        }
    };
    let (header_overlay, footer_overlay, content_overlay) = match bg_brightness {
        None => (String::new(), String::new(), String::new()),
        Some(b) => if b.picos() > MIDDLE_BRIGHTNESS {
            (
                String::from_str("bg-white/45 backdrop-blur-md"),
                String::from_str("bg-white/50 backdrop-blur-md"),
                String::from_str("rgba(255, 255, 255, 0.20)"),
            )
        } else {
            (
                String::from_str("bg-[#050505]/40 backdrop-blur-md"),
                String::from_str("bg-[#050505]/45 backdrop-blur-md"),
                String::from_str("rgba(5, 5, 5, 0.15)"),
            )
        },
    };
    Ok(
        ThemeColors {
            assistant_bg,
            assistant_border,
            assistant_text,
            user_bg,
            user_border,
            user_text,
            header_overlay,
            footer_overlay,
            content_overlay,
        },
    )
}

} // verus!
