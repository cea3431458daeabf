//! What holds of the resolver on every input, proved from its definitions.

use crate::chat_appearance::{
    byte_len, byte_luma, composed_theme, hex_digit, is_light, is_neutral, luminance_parts,
    opacity_percent, picos_of, reduced_percent, text_color, utf8_len, ChatAppearanceInput,
    ResolvedColors, ThemeColors, GRAY_LUMINANCE, LIGHT_THRESHOLD, LUMA_SCALE, MAX_CHANNEL,
    MIDDLE_BRIGHTNESS, NEUTRAL_LUMINANCE, PERCENT_SCALE,
};
use crate::decimal::{Decimal, PICOS_PER_UNIT};
use crate::text::{decimal_text, is_space, trimmed};
use vstd::prelude::*;

verus! {

/// A string that neither begins nor ends with white space is its own trim.
pub proof fn lemma_trimmed_is_identity(s: Seq<char>)
    requires
        s.len() > 0,
        !is_space(s[0]),
        !is_space(s.last()),
    ensures
        trimmed(s) == s,
{
}

/// A hex digit is no white space.
pub proof fn lemma_hex_digit_is_no_space(c: char)
    requires
        hex_digit(c) is Some,
    ensures
        !is_space(c),
{
}

/// A run of characters of one byte each takes as many bytes as it has
/// characters.
pub proof fn lemma_byte_len_of_single_bytes(s: Seq<char>)
    requires
        forall|i: int| 0 <= i < s.len() ==> utf8_len(#[trigger] s[i]) == 1,
    ensures
        byte_len(s) == s.len(),
    decreases s.len(),
{
    if s.len() > 0 {
        let front = s.drop_last();
        assert forall|i: int| 0 <= i < front.len() implies utf8_len(#[trigger] front[i]) == 1 by {
            assert(front[i] == s[i]);
        }
        lemma_byte_len_of_single_bytes(front);
    }
}

/// Two hex digits of alpha after a colour of six hex digits leave its
/// luminance as it was.
pub proof fn lemma_alpha_suffix_is_ignored(color: Seq<char>, alpha: Seq<char>)
    requires
        color.len() == 7,
        color[0] == '#',
        forall|i: int| 1 <= i < 7 ==> hex_digit(#[trigger] color[i]) is Some,
        alpha.len() == 2,
        forall|i: int| 0 <= i < 2 ==> hex_digit(#[trigger] alpha[i]) is Some,
    ensures
        luminance_parts(color + alpha) == luminance_parts(color),
{
    let long = color + alpha;
    lemma_hex_digit_is_no_space(color[6]);
    lemma_hex_digit_is_no_space(alpha[1]);
    assert(long.last() == alpha[1]);
    assert(long[0] == '#');
    lemma_trimmed_is_identity(color);
    lemma_trimmed_is_identity(long);
    let a = color.drop_first();
    let b = long.drop_first();
    assert(a.len() == 6 && b.len() == 8);
    assert forall|i: int| 0 <= i < 6 implies a[i] == b[i] && hex_digit(a[i]) is Some by {
        assert(a[i] == color[i + 1]);
        assert(b[i] == long[i + 1]);
    }
    assert forall|i: int| 0 <= i < 8 implies utf8_len(#[trigger] b[i]) == 1 by {
        if i < 6 {
            assert(hex_digit(b[i]) is Some);
        } else {
            assert(b[i] == alpha[i - 6]);
            assert(hex_digit(alpha[i - 6]) is Some);
        }
    }
    assert forall|i: int| 0 <= i < 6 implies utf8_len(#[trigger] a[i]) == 1 by {
        assert(hex_digit(a[i]) is Some);
    }
    lemma_byte_len_of_single_bytes(a);
    lemma_byte_len_of_single_bytes(b);
    assert(a.skip(2)[0] == a[2] && a.skip(2)[1] == a[3]);
    assert(b.skip(2)[0] == b[2] && b.skip(2)[1] == b[3]);
    assert(a.skip(2).skip(2)[0] == a[4] && a.skip(2).skip(2)[1] == a[5]);
    assert(b.skip(2).skip(2)[0] == b[4] && b.skip(2).skip(2)[1] == b[5]);
}

/// The named values are the fractions they are named for: one half, 0.45
/// and 0.35 of a luminance of one, the middle of the channel's range, and a
/// hundred percent.
pub proof fn lemma_named_values()
    ensures
        2 * NEUTRAL_LUMINANCE == LUMA_SCALE,
        100 * LIGHT_THRESHOLD == 45 * LUMA_SCALE,
        100 * GRAY_LUMINANCE == 35 * LUMA_SCALE,
        2 * MIDDLE_BRIGHTNESS == MAX_CHANNEL,
        MAX_CHANNEL == 255 * PICOS_PER_UNIT,
        LUMA_SCALE == 1_000 * MAX_CHANNEL,
        PERCENT_SCALE == 100 * PICOS_PER_UNIT,
{
}

/// The luminance of every string is a fraction of one.
pub proof fn lemma_luminance_is_a_fraction(css: Seq<char>)
    ensures
        0 <= luminance_parts(css) <= LUMA_SCALE,
{
}

/// The weighted sum of three channel bytes is exact: of `LUMA_SCALE` parts
/// it is `299 r + 587 g + 114 b` millions, which is the sum over 255 000.
pub proof fn lemma_byte_luma_is_exact(r: int, g: int, b: int)
    requires
        0 <= r <= 255,
        0 <= g <= 255,
        0 <= b <= 255,
    ensures
        byte_luma(r, g, b) * 255_000 == (299 * r + 587 * g + 114 * b) * LUMA_SCALE,
{
}

/// The same opacity written as a fraction of one and as a percentage decides
/// alike.
pub proof fn lemma_opacity_scale(
    bg: Option<int>,
    lum: int,
    fraction: int,
    mode: Seq<char>,
)
    ensures
        text_color(bg, lum, fraction, PICOS_PER_UNIT as int, mode) == text_color(
            bg,
            lum,
            100 * fraction,
            PERCENT_SCALE as int,
            mode,
        ),
{
    match bg {
        Some(b) => {
            let left = fraction * lum + 1_000 * ((1_000_000_000_000 - fraction) * b);
            assert((100 * fraction) * lum + 1_000 * ((100_000_000_000_000 - 100 * fraction) * b)
                == 100 * left) by (nonlinear_arith)
                requires
                    left == fraction * lum + 1_000 * ((1_000_000_000_000 - fraction) * b),
            ;
        },
        None => {},
    }
}

/// The mode `light` gives the light text colour, whatever the luminance, the
/// opacity and the background.
pub proof fn lemma_light_mode_is_forced(bg: Option<int>, lum: int, opacity: int, scale: int)
    ensures
        text_color(bg, lum, opacity, scale, "light"@) == "text-white"@,
{
}

/// The mode `dark` gives the dark text colour, whatever the luminance, the
/// opacity and the background.
pub proof fn lemma_dark_mode_is_forced(bg: Option<int>, lum: int, opacity: int, scale: int)
    ensures
        text_color(bg, lum, opacity, scale, "dark"@) == "text-gray-900"@,
{
    reveal_strlit("light");
    reveal_strlit("dark");
    assert("light"@.len() != "dark"@.len());
}

/// Two themes composed from inputs that read alike are alike, string for
/// string.
pub proof fn lemma_theme_is_determined(
    first: ThemeColors,
    second: ThemeColors,
    settings_a: ChatAppearanceInput,
    settings_b: ChatAppearanceInput,
    bg_a: Option<Decimal>,
    bg_b: Option<Decimal>,
    resolved_a: ResolvedColors,
    resolved_b: ResolvedColors,
)
    requires
        settings_a.user_bubble_color@ == settings_b.user_bubble_color@,
        settings_a.assistant_bubble_color@ == settings_b.assistant_bubble_color@,
        settings_a.bubble_opacity@ == settings_b.bubble_opacity@,
        settings_a.text_mode@ == settings_b.text_mode@,
        picos_of(bg_a) == picos_of(bg_b),
        resolved_a.user_color_css@ == resolved_b.user_color_css@,
        resolved_a.assistant_color_css@ == resolved_b.assistant_color_css@,
        first@ == composed_theme(settings_a, bg_a, resolved_a),
        second@ == composed_theme(settings_b, bg_b, resolved_b),
    ensures
        first@ == second@,
{
}

/// With no background image the three overlays are empty, and a neutral
/// assistant bubble has its fixed fill and border at every opacity.
pub proof fn lemma_no_background(settings: ChatAppearanceInput, resolved: ResolvedColors)
    ensures
        composed_theme(settings, None, resolved).header_overlay.len() == 0,
        composed_theme(settings, None, resolved).footer_overlay.len() == 0,
        composed_theme(settings, None, resolved).content_overlay.len() == 0,
        is_neutral(settings.assistant_bubble_color@) ==> {
            &&& composed_theme(settings, None, resolved).assistant_bg == "bg-fg/5"@
            &&& composed_theme(settings, None, resolved).assistant_border == "border-fg/10"@
            &&& composed_theme(settings, None, resolved).assistant_text == "text-fg"@
        },
{
}

/// Over a dark image a neutral assistant bubble is gray at 85 hundredths of
/// the percentage, which is never more than the percentage itself; 40 gives
/// 34.
pub proof fn lemma_dark_background_neutral(
    settings: ChatAppearanceInput,
    bg: Decimal,
    resolved: ResolvedColors,
)
    requires
        is_neutral(settings.assistant_bubble_color@),
        !is_light(bg@),
    ensures
        composed_theme(settings, Some(bg), resolved).assistant_bg == "bg-gray-600/"@
            + decimal_text(reduced_percent(opacity_percent(settings.bubble_opacity@))),
        composed_theme(settings, Some(bg), resolved).assistant_border == "border-gray-400/40"@,
        reduced_percent(opacity_percent(settings.bubble_opacity@)) <= opacity_percent(
            settings.bubble_opacity@,
        ),
        reduced_percent(40) == 34,
{
}

} // verus!
