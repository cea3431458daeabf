use chat_appearance::chat_appearance::{
    color_to_luminance, parse_hex_byte, read_channels, read_lightness, utf8_len_of,
    weighted_luminance, Luminance,
};
use chat_appearance::decimal::{parse_decimal, Decimal};

/// Picos in a millionth.
const M: i64 = 1_000_000;
const ONE: i64 = 255_000_000_000_000_000;
const HALF: i64 = 127_500_000_000_000_000;

fn lum(css: &str) -> f64 {
    color_to_luminance(css).parts() as f64 / ONE as f64
}

fn parts(css: &str) -> i64 {
    color_to_luminance(css).parts()
}

fn chars(s: &str) -> Vec<char> {
    s.chars().collect()
}

#[test]
fn test_hex_luminance() {
    assert!((lum("#ffffff") - 1.0).abs() < 0.01);
    assert!((lum("#000000") - 0.0).abs() < 0.01);
    assert!((lum("#808080") - 0.5).abs() < 0.05);
}

#[test]
fn test_rgb_luminance() {
    assert!((lum("rgb(255, 255, 255)") - 1.0).abs() < 0.01);
    assert!((lum("rgb(0, 0, 0)") - 0.0).abs() < 0.01);
}

#[test]
fn test_oklch_luminance() {
    assert!((lum("oklch(0.8 0.1 200)") - 0.8).abs() < 0.01);
    assert!((lum("oklch(50% 0.1 200)") - 0.5).abs() < 0.01);
}

#[test]
fn hex_exact_values() {
    assert_eq!(parts("#ffffff"), ONE);
    assert_eq!(parts("#000000"), 0 * M);
    assert_eq!(parts("#808080"), 128_000_000_000 * M);
    assert_eq!(parts("#ff0000"), 76_245_000_000 * M);
    assert_eq!(parts("#00ff00"), 149_685_000_000 * M);
    assert_eq!(parts("#0000ff"), 29_070_000_000 * M);
    assert_eq!(parts("#3B82F6"), 121_995_000_000 * M);
}

#[test]
fn hex_is_the_weighted_sum_of_its_bytes() {
    for r in [0u8, 1, 59, 127, 128, 200, 255] {
        for g in [0u8, 2, 130, 254, 255] {
            for b in [0u8, 3, 128, 246, 255] {
                let want = (0.299 * r as f64 + 0.587 * g as f64 + 0.114 * b as f64) / 255.0;
                let long = format!("#{r:02x}{g:02X}{b:02x}");
                assert!((lum(&long) - want).abs() < 1e-9);
                assert_eq!(
                    parts(&long),
                    (299 * r as i64 + 587 * g as i64 + 114 * b as i64) * 1_000_000 * M
                );
            }
        }
    }
    for (short, long) in [("#abc", "#aabbcc"), ("#F09", "#FF0099"), ("#000", "#000000")] {
        assert_eq!(parts(short), parts(long));
    }
}

#[test]
fn hex_short_form_doubles_each_digit() {
    assert_eq!(parts("#fff"), ONE);
    assert_eq!(parts("#000"), 0 * M);
    assert_eq!(parts("#abc"), parts("#aabbcc"));
    assert_eq!(parts("#f00"), 76_245_000_000 * M);
}

#[test]
fn hex_alpha_suffix_is_ignored() {
    for base in ["#3b82f6", "#000000", "#ffffff", "#808080", "#A1b2C3"] {
        for alpha in ["00", "80", "ff", "7F"] {
            let long = format!("{base}{alpha}");
            assert_eq!(parts(&long), parts(base));
        }
    }
}

#[test]
fn hex_of_other_lengths_is_neutral() {
    for css in ["#", "#1", "#12", "#1234", "#12345", "#1234567", "#123456789"] {
        assert_eq!(parts(css), HALF);
        assert_eq!(lum(css), 0.5);
    }
}

#[test]
fn hex_form_goes_by_bytes() {
    // three characters in four bytes: no form
    assert_eq!(parts("#\u{e9}ab"), HALF);
    // four characters in six bytes: two pairs that cannot be read, then 0x12
    assert_eq!(parts("#\u{e9}\u{e9}12"), (299 * 128 + 587 * 128 + 114 * 0x12) * 1_000_000 * M);
    assert_eq!(parts("#\u{e9}a123"), (299 * 128 + 587 * 0xa1 + 114 * 0x23) * 1_000_000 * M);
    assert_eq!(parts("#12\u{e9}34"), (299 * 0x12 + 587 * 128 + 114 * 0x34) * 1_000_000 * M);
    // eight bytes: the last two are alpha
    assert_eq!(parts("#\u{e9}\u{e9}\u{e9}12"), 128_000_000_000 * M);
    assert_eq!(parts("#112233\u{e9}"), parts("#112233"));
}

#[test]
fn hex_cut_inside_a_character_is_neutral() {
    // three bytes that are not three characters
    assert_eq!(parts("#\u{20ac}"), HALF);
    assert_eq!(parts("#a\u{e9}"), HALF);
    assert_eq!(parts("#\u{e9}a"), HALF);
    // six bytes where a pair ends inside a character
    assert_eq!(parts("#a\u{20ac}12"), HALF);
    assert_eq!(parts("#a\u{e9}123"), HALF);
    assert_eq!(parts("#12a\u{e9}3"), HALF);
    assert_eq!(parts("#1234\u{1f600}"), HALF);
    assert_eq!(parts("#\u{20ac}\u{20ac}"), HALF);
    // eight bytes where the sixth is inside a character
    assert_eq!(parts("#12345\u{20ac}"), HALF);
}

#[test]
fn utf8_length_is_what_the_encoding_takes() {
    for n in 0..=0x10ffffu32 {
        if let Some(c) = char::from_u32(n) {
            assert_eq!(utf8_len_of(c), c.len_utf8());
        }
    }
}

#[test]
fn hex_pair_that_cannot_be_read_is_mid_gray() {
    assert_eq!(parse_hex_byte('g', 'g'), 128);
    assert_eq!(parse_hex_byte('f', 'x'), 128);
    assert_eq!(parse_hex_byte('-', '1'), 128);
    assert_eq!(parse_hex_byte('+', '+'), 128);
    assert_eq!(parse_hex_byte('+', 'f'), 15);
    assert_eq!(parse_hex_byte('0', '0'), 0);
    assert_eq!(parse_hex_byte('f', 'F'), 255);
    assert_eq!(parse_hex_byte('7', 'f'), 127);
    assert_eq!(parts("#gg0000"), 299 * 128 * 1_000_000 * M);
    assert_eq!(parts("#zzzzzz"), 128_000_000_000 * M);
}

#[test]
fn surrounding_white_space_is_trimmed() {
    assert_eq!(parts("  #ffffff\t\n"), ONE);
    assert_eq!(parts("\u{a0}rgb(255,255,255)\u{3000}"), ONE);
    assert_eq!(parts(" oklch(0.25 0 0) "), ONE / 4);
}

#[test]
fn rgb_exact_values() {
    assert_eq!(parts("rgb(255,255,255)"), ONE);
    assert_eq!(parts("rgb(0,0,0)"), 0 * M);
    assert_eq!(parts("rgb(59, 130, 246)"), 121_995_000_000 * M);
    assert_eq!(parts("rgb(59 130 246)"), 121_995_000_000 * M);
    assert_eq!(parts("rgb(127.5, 127.5, 127.5)"), HALF);
    assert_eq!(parts("rgb(0.000001, 0, 0)"), 299 * M);
    assert_eq!(parts("rgb(0, 0.000000000001, 0)"), 587);
    assert_eq!(parts("rgb(0, 0, 0.0000000000019)"), 114);
}

#[test]
fn rgba_alpha_is_ignored() {
    assert_eq!(parts("rgba(59, 130, 246, 0.5)"), 121_995_000_000 * M);
    assert_eq!(parts("rgba(255, 255, 255, 0)"), ONE);
}

#[test]
fn rgb_with_fewer_than_three_numbers_is_neutral() {
    for css in ["rgb(1, 2)", "rgb()", "rgb(a, b, c)", "rgb", "rgb(10%, 20%, 30%)"] {
        assert_eq!(parts(css), HALF);
        assert_eq!(lum(css), 0.5);
    }
}

#[test]
fn rgb_passes_over_fields_that_are_no_numbers() {
    assert_eq!(parts("rgb(255, x, 255, 255)"), ONE);
    assert_eq!(parts("rgb 255 255 255"), ONE);
}

#[test]
fn rgb_channels_are_brought_into_their_range() {
    assert_eq!(parts("rgb(510, 510, 510)"), ONE);
    assert_eq!(parts("rgb(-255, -255, -255)"), 0 * M);
    assert_eq!(parts("rgb(300, 0, 0)"), 76_245_000_000 * M);
    assert_eq!(parts("rgb(-1, 255, -1)"), 149_685_000_000 * M);
    assert_eq!(parts("rgb(1e9, 1e9, 1e9)"), ONE);
}

#[test]
fn rgb_reads_exponents_and_the_words_for_infinity() {
    assert_eq!(parts("rgb(1e2,1e2,1e2)"), 100_000_000_000 * M);
    assert!((lum("rgb(1e2,1e2,1e2)") - 100.0 / 255.0).abs() < 1e-9);
    assert_eq!(parts("rgb(2.55E2, 25.5e1, 2550e-1)"), ONE);
    assert_eq!(parts("rgb(inf, 0, 0)"), 76_245_000_000 * M);
    assert_eq!(parts("rgb(-inf, Infinity, 0)"), 149_685_000_000 * M);
    // a field that is no number stands for zero and keeps its place
    assert_eq!(parts("rgb(nan, 255, 0)"), 149_685_000_000 * M);
    assert_eq!(parts("rgb(NaN, NaN, 255)"), 29_070_000_000 * M);
}

#[test]
fn read_channels_collects_every_number() {
    let got: Vec<i64> = read_channels(&chars("1, 2.5,,x ,-3"))
        .iter()
        .map(|d| d.picos())
        .collect();
    assert_eq!(got, vec![1_000_000 * M, 2_500_000 * M, -3_000_000 * M]);
    assert!(read_channels(&chars("")).is_empty());
}

#[test]
fn weighted_luminance_is_exact() {
    let one = Decimal::from_picos(1);
    assert_eq!(weighted_luminance(one, one, one).parts(), 1_000);
    let (r, g, b) = (Decimal::from_picos(1), Decimal::from_picos(10), Decimal::from_picos(100));
    assert_eq!(weighted_luminance(r, g, b).parts(), 299 + 5_870 + 11_400);
    let minus = Decimal::from_picos(-1);
    assert_eq!(weighted_luminance(minus, minus, minus).parts(), 0);
    let full = Decimal::from_units(255);
    assert_eq!(weighted_luminance(full, full, full).parts(), ONE);
    let over = Decimal::from_units(256);
    assert_eq!(weighted_luminance(over, over, over).parts(), ONE);
}

#[test]
fn luminance_to_and_from_decimals() {
    assert_eq!(
        Luminance::from_decimal(Decimal::from_picos(300_000 * M)).parts(),
        76_500_000_000 * M
    );
    assert_eq!(Luminance::from_decimal(Decimal::from_picos(1)).parts(), 255_000);
    assert_eq!(Luminance::from_decimal(Decimal::from_picos(-1)).parts(), 0);
    assert_eq!(Luminance::from_decimal(Decimal::from_units(2)).parts(), ONE);
    assert_eq!(color_to_luminance("#808080").to_decimal().picos(), 501_960_784_313);
    assert_eq!(color_to_luminance("#ffffff").to_decimal().picos(), 1_000_000 * M);
}

#[test]
fn oklch_exact_values() {
    assert_eq!(parts("oklch(0.8 0.1 200)"), 204_000_000_000 * M);
    assert_eq!(parts("oklch(50% 0.1 200)"), HALF);
    assert_eq!(parts("oklch(0.623 0.214 259.815)"), 158_865_000_000 * M);
    assert_eq!(parts("oklch(62.3% 0.214 259.815)"), 158_865_000_000 * M);
    assert_eq!(parts("oklch(0.000001% 0 0)"), 2_550 * M);
    assert_eq!(parts("oklch(0.000000000001% 0 0)"), 2_550);
    assert_eq!(parts("oklch(0.000000000001 0 0)"), 255_000);
    assert_eq!(parts("oklch(5e-1 0 0)"), HALF);
}

#[test]
fn numbers_are_read_to_twelve_places() {
    for (css, want) in [
        ("oklch(0.1234567891 0 0)", 0.1234567891),
        ("oklch(0.450000000001 0 0)", 0.450000000001),
        ("oklch(12.34567891234% 0 0)", 0.1234567891234),
        ("oklch(0.999999999999 0 0)", 0.999999999999),
    ] {
        assert!((lum(css) - want).abs() < 1e-12);
    }
    assert_eq!(parts("oklch(0.450000000001 0 0)"), 114_750_000_000_255_000);
    let want = (0.299 * 12.3456789012 + 0.587 * 200.000000001 + 0.114 * 0.5) / 255.0;
    assert!((lum("rgb(12.3456789012, 200.000000001, 0.5)") - want).abs() < 1e-12);
    // what lies behind the twelfth place is dropped
    assert_eq!(parts("oklch(0.0000000000019 0 0)"), 255_000);
    assert_eq!(parts("oklch(0.0000000000009 0 0)"), 0);
}

#[test]
fn oklch_is_clamped() {
    assert_eq!(parts("oklch(1.5 0 0)"), ONE);
    assert_eq!(parts("oklch(-0.2 0 0)"), 0 * M);
    assert_eq!(parts("oklch(150% 0 0)"), ONE);
    assert_eq!(parts("oklch(-5% 0 0)"), 0 * M);
    assert_eq!(parts("oklch(inf 0 0)"), ONE);
    assert_eq!(parts("oklch(nan 0 0)"), 0 * M);
}

#[test]
fn oklch_that_cannot_be_read_is_one_half() {
    assert_eq!(parts("oklch(none 0 0)"), HALF);
    assert_eq!(parts("oklch(x% 0 0)"), HALF);
    assert_eq!(parts("oklch()"), HALF);
    assert_eq!(parts("oklch("), HALF);
}

#[test]
fn read_lightness_takes_the_first_word() {
    assert_eq!(read_lightness(&chars("  0.25\t0.1 200")).parts(), ONE / 4);
    assert_eq!(read_lightness(&chars("75%% 0 0")).parts(), ONE / 4 * 3);
    assert_eq!(read_lightness(&chars("")).parts(), HALF);
}

#[test]
fn unrecognized_colors_are_neutral() {
    for css in ["", "   ", "red", "hsl(0, 100%, 50%)", "color(srgb 1 1 1)", "oklab(0.5 0 0)"] {
        assert_eq!(parts(css), HALF);
        assert_eq!(lum(css), 0.5);
    }
}

#[test]
fn luminance_of_every_string_is_a_fraction() {
    for css in [
        "#123456", "#fed", "#00000000", "rgb(12, 200, 255)", "oklch(0.4 0.2 10)", "x",
        "rgb(510,510,510)", "rgb(-1,-1,-1)", "rgb(inf,inf,inf)", "rgb(nan,nan,nan)",
        "rgb(1e400,1e400,1e400)", "oklch(1e9 0 0)", "oklch(-1e9% 0 0)", "#\u{e9}ab",
    ] {
        let p = parts(css);
        assert!((0..=ONE).contains(&p));
        assert!((0.0..=1.0).contains(&lum(css)));
    }
}

#[test]
fn decimal_tokens() {
    let read = |s: &str| parse_decimal(&chars(s)).map(|d| d.picos());
    assert_eq!(read("0"), Some(0));
    assert_eq!(read("12.5"), Some(12_500_000 * M));
    assert_eq!(read("-0.000001"), Some(-M));
    assert_eq!(read("-0.000000000001"), Some(-1));
    assert_eq!(read("+3"), Some(3_000_000 * M));
    assert_eq!(read("5."), Some(5_000_000 * M));
    assert_eq!(read(".5"), Some(500_000 * M));
    assert_eq!(read("-.25"), Some(-250_000 * M));
    assert_eq!(read("1.2345678"), Some(1_234_567_800_000));
    assert_eq!(read("1.2345678901234"), Some(1_234_567_890_123));
    assert_eq!(read("0.0000000000009"), Some(0));
    assert_eq!(read("007"), Some(7_000_000 * M));
    assert_eq!(read(""), None);
    assert_eq!(read("."), None);
    assert_eq!(read("+"), None);
    assert_eq!(read("-"), None);
    assert_eq!(read("12px"), None);
    assert_eq!(read("0x10"), None);
    assert_eq!(read("1.2.3"), None);
    assert_eq!(read("--1"), None);
    assert_eq!(read(" 1"), None);
}

#[test]
fn decimal_tokens_with_exponents() {
    let read = |s: &str| parse_decimal(&chars(s)).map(|d| d.picos());
    assert_eq!(read("1e3"), Some(1_000_000_000 * M));
    assert_eq!(read("1E2"), Some(100_000_000 * M));
    assert_eq!(read("1e+2"), Some(100_000_000 * M));
    assert_eq!(read("1.5e-3"), Some(1_500 * M));
    assert_eq!(read("12345e-2"), Some(123_450_000 * M));
    assert_eq!(read("-2.5e1"), Some(-25_000_000 * M));
    assert_eq!(read(".5e1"), Some(5_000_000 * M));
    assert_eq!(read("5.e0"), Some(5_000_000 * M));
    assert_eq!(read("1e-6"), Some(M));
    assert_eq!(read("1e-12"), Some(1));
    assert_eq!(read("1e-13"), Some(0));
    assert_eq!(read("19e-13"), Some(1));
    assert_eq!(read("0.0000019e3"), Some(1_900 * M));
    assert_eq!(read("1e0"), Some(1_000_000 * M));
    assert_eq!(read("1e-0"), Some(1_000_000 * M));
    assert_eq!(read("1e004"), Some(10_000_000_000 * M));
    assert_eq!(read("1e"), None);
    assert_eq!(read("1e+"), None);
    assert_eq!(read("e5"), None);
    assert_eq!(read(".e5"), None);
    assert_eq!(read("1e5.5"), None);
    assert_eq!(read("1e5e5"), None);
    assert_eq!(read("1e 5"), None);
}

#[test]
fn decimal_exponents_far_out_saturate() {
    let read = |s: &str| parse_decimal(&chars(s)).map(|d| d.picos());
    let limit = 100_000_000_000_000_000;
    let nines = "9".repeat(60);
    assert_eq!(read(&format!("1e{nines}")), Some(limit));
    assert_eq!(read(&format!("-1e{nines}")), Some(-limit));
    assert_eq!(read(&format!("0e{nines}")), Some(0));
    assert_eq!(read(&format!("0.000e{nines}")), Some(0));
    assert_eq!(read(&format!("1e-{nines}")), Some(0));
    assert_eq!(read(&format!("{nines}e-{nines}")), Some(0));
    assert_eq!(read(&format!("{nines}e-55")), Some(99_999_999_999_999_999));
    assert_eq!(read(&format!("{nines}e-54")), Some(limit));
    assert_eq!(read(&format!("0.{}1e41", "0".repeat(40))), Some(1_000_000 * M));
    assert_eq!(read("1e4"), Some(10_000_000_000 * M));
    assert_eq!(read("1e5"), Some(limit));
    assert_eq!(read("1e6"), Some(limit));
    assert_eq!(read("1e18"), Some(limit));
    assert_eq!(read("1e19"), Some(limit));
}

#[test]
fn decimal_words() {
    let read = |s: &str| parse_decimal(&chars(s)).map(|d| d.picos());
    let limit = 100_000_000_000_000_000;
    for word in ["inf", "INF", "Inf", "infinity", "Infinity", "INFINITY", "+inf", "+Infinity"] {
        assert_eq!(read(word), Some(limit));
    }
    assert_eq!(read("-inf"), Some(-limit));
    assert_eq!(read("-iNfInItY"), Some(-limit));
    for word in ["nan", "NaN", "NAN", "+nan", "-nan"] {
        assert_eq!(read(word), Some(0));
    }
    for word in ["in", "infi", "infinit", "infinityy", "nano", "na", "none", "++inf", "i\u{307}nf"] {
        assert_eq!(read(word), None);
    }
}

#[test]
fn decimal_saturates_at_its_limit() {
    let read = |s: &str| parse_decimal(&chars(s)).map(|d| d.picos());
    let limit = 100_000_000_000_000_000;
    assert_eq!(read("100000"), Some(limit));
    assert_eq!(read("100000.5"), Some(limit));
    assert_eq!(read("99999.999999999999"), Some(99_999_999_999_999_999));
    assert_eq!(read("99999999999999999999999999"), Some(limit));
    assert_eq!(read("-99999999999999999999999999"), Some(-limit));
    assert_eq!(Decimal::from_picos(i64::MAX).picos(), limit);
    assert_eq!(Decimal::from_picos(i64::MIN).picos(), -limit);
    assert_eq!(Decimal::from_units(i64::MAX).picos(), limit);
    assert_eq!(Decimal::from_units(100_001).picos(), limit);
    assert_eq!(Decimal::from_units(-3).picos(), -3_000_000 * M);
}
