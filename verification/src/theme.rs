//! What a theme override sets.
//!
//! A theme's fields are numbers of three kinds (font sizes and thicknesses,
//! pixel sizes, colors). An override `key = value` names one field and gives
//! its new value; this module decides which field it sets and with what, or
//! why the override is refused.
use vstd::prelude::*;
use crate::aesthetic::{
    hex_byte, hex_pairs_readable, hex_pairs_whole, lemma_ascii_text, lemma_hex_byte_ascii, read_hex_byte, strip_hashes,
    trim_hashes,
};
use crate::ast::LiteralValue;
use crate::error::{error_message, error_with_detail, theme_key_error, GglangError};
use crate::grammar::{digits_value, SLiteral};
use crate::lexer::{digits_end, is_digit, scan_digits};
use crate::text::{chars_equal, chars_of};

verus! {

/// Fields that hold a size in (fractional) points or pixels.
#[derive(Debug, Clone, Copy, PartialEq, Eq, Structural)]
pub enum ScalarField {
    TitleFontSize,
    AxisLabelFontSize,
    TickLabelFontSize,
    CaptionFontSize,
    LegendLabelFontSize,
    FacetLabelFontSize,
    PanelBorderThickness,
}

/// Fields that hold a whole number of pixels.
#[derive(Debug, Clone, Copy, PartialEq, Eq, Structural)]
pub enum PixelField {
    TitleHeight,
    CaptionHeight,
    XGutterHeight,
    YGutterWidth,
    YAxisLabelWidth,
    LegendWidth,
    LegendMargin,
    GutterSpacerHeight,
    FacetLabelHeight,
    FacetGap,
    FacetRowLabelWidth,
}

/// Fields that hold an RGBA color.
#[derive(Debug, Clone, Copy, PartialEq, Eq, Structural)]
pub enum ColorField {
    AxisColor,
    FacetLabelBgColor,
    PanelBorderColor,
}

/// The field that a theme key names.
#[derive(Debug, Clone, Copy, PartialEq, Eq, Structural)]
pub enum ThemeKey {
    Scalar(ScalarField),
    Pixels(PixelField),
    WindowMargin,
    Color(ColorField),
}

/// A field and its new value: a scalar as written (the theme converts it),
/// a pixel count, the window margin in pixels, or a color as four 8-bit
/// channels (red, green, blue, alpha).
pub enum ThemeSetting {
    Scalar(ScalarField, String),
    Pixels(PixelField, u32),
    WindowMargin(u32),
    Color(ColorField, [u8; 4]),
}

pub enum SThemeSetting {
    Scalar(ScalarField, Seq<char>),
    Pixels(PixelField, u32),
    WindowMargin(u32),
    Color(ColorField, [u8; 4]),
}

impl DeepView for ThemeSetting {
    type V = SThemeSetting;

    open spec fn deep_view(&self) -> SThemeSetting {
        match self {
            ThemeSetting::Scalar(f, s) => SThemeSetting::Scalar(*f, s@),
            ThemeSetting::Pixels(f, v) => SThemeSetting::Pixels(*f, *v),
            ThemeSetting::WindowMargin(v) => SThemeSetting::WindowMargin(*v),
            ThemeSetting::Color(f, c) => SThemeSetting::Color(*f, *c),
        }
    }
}

pub open spec fn spec_theme_key(k: Seq<char>) -> Option<ThemeKey> {
    if k == "title_font_size"@ {
        Some(ThemeKey::Scalar(ScalarField::TitleFontSize))
    } else if k == "axis_label_font_size"@ {
        Some(ThemeKey::Scalar(ScalarField::AxisLabelFontSize))
    } else if k == "tick_label_font_size"@ {
        Some(ThemeKey::Scalar(ScalarField::TickLabelFontSize))
    } else if k == "caption_font_size"@ {
        Some(ThemeKey::Scalar(ScalarField::CaptionFontSize))
    } else if k == "legend_label_font_size"@ {
        Some(ThemeKey::Scalar(ScalarField::LegendLabelFontSize))
    } else if k == "facet_label_font_size"@ {
        Some(ThemeKey::Scalar(ScalarField::FacetLabelFontSize))
    } else if k == "panel_border_thickness"@ {
        Some(ThemeKey::Scalar(ScalarField::PanelBorderThickness))
    } else if k == "title_height"@ {
        Some(ThemeKey::Pixels(PixelField::TitleHeight))
    } else if k == "caption_height"@ {
        Some(ThemeKey::Pixels(PixelField::CaptionHeight))
    } else if k == "x_gutter_height"@ {
        Some(ThemeKey::Pixels(PixelField::XGutterHeight))
    } else if k == "y_gutter_width"@ {
        Some(ThemeKey::Pixels(PixelField::YGutterWidth))
    } else if k == "y_axis_label_width"@ {
        Some(ThemeKey::Pixels(PixelField::YAxisLabelWidth))
    } else if k == "legend_width"@ {
        Some(ThemeKey::Pixels(PixelField::LegendWidth))
    } else if k == "legend_margin"@ {
        Some(ThemeKey::Pixels(PixelField::LegendMargin))
    } else if k == "gutter_spacer_height"@ {
        Some(ThemeKey::Pixels(PixelField::GutterSpacerHeight))
    } else if k == "facet_label_height"@ {
        Some(ThemeKey::Pixels(PixelField::FacetLabelHeight))
    } else if k == "facet_gap"@ {
        Some(ThemeKey::Pixels(PixelField::FacetGap))
    } else if k == "facet_row_label_width"@ {
        Some(ThemeKey::Pixels(PixelField::FacetRowLabelWidth))
    } else if k == "window_margin"@ {
        Some(ThemeKey::WindowMargin)
    } else if k == "axis_color"@ {
        Some(ThemeKey::Color(ColorField::AxisColor))
    } else if k == "facet_label_bg_color"@ {
        Some(ThemeKey::Color(ColorField::FacetLabelBgColor))
    } else if k == "panel_border_color"@ {
        Some(ThemeKey::Color(ColorField::PanelBorderColor))
    } else {
        None
    }
}

/// The field a theme key names, if it names one.
pub fn theme_key(k: &str) -> (r: Option<ThemeKey>)
    ensures
        r == spec_theme_key(k@),
{
    let w = chars_of(k);
    if chars_equal(&w, "title_font_size") {
        Some(ThemeKey::Scalar(ScalarField::TitleFontSize))
    } else if chars_equal(&w, "axis_label_font_size") {
        Some(ThemeKey::Scalar(ScalarField::AxisLabelFontSize))
    } else if chars_equal(&w, "tick_label_font_size") {
        Some(ThemeKey::Scalar(ScalarField::TickLabelFontSize))
    } else if chars_equal(&w, "caption_font_size") {
        Some(ThemeKey::Scalar(ScalarField::CaptionFontSize))
    } else if chars_equal(&w, "legend_label_font_size") {
        Some(ThemeKey::Scalar(ScalarField::LegendLabelFontSize))
    } else if chars_equal(&w, "facet_label_font_size") {
        Some(ThemeKey::Scalar(ScalarField::FacetLabelFontSize))
    } else if chars_equal(&w, "panel_border_thickness") {
        Some(ThemeKey::Scalar(ScalarField::PanelBorderThickness))
    } else if chars_equal(&w, "title_height") {
        Some(ThemeKey::Pixels(PixelField::TitleHeight))
    } else if chars_equal(&w, "caption_height") {
        Some(ThemeKey::Pixels(PixelField::CaptionHeight))
    } else if chars_equal(&w, "x_gutter_height") {
        Some(ThemeKey::Pixels(PixelField::XGutterHeight))
    } else if chars_equal(&w, "y_gutter_width") {
        Some(ThemeKey::Pixels(PixelField::YGutterWidth))
    } else if chars_equal(&w, "y_axis_label_width") {
        Some(ThemeKey::Pixels(PixelField::YAxisLabelWidth))
    } else if chars_equal(&w, "legend_width") {
        Some(ThemeKey::Pixels(PixelField::LegendWidth))
    } else if chars_equal(&w, "legend_margin") {
        Some(ThemeKey::Pixels(PixelField::LegendMargin))
    } else if chars_equal(&w, "gutter_spacer_height") {
        Some(ThemeKey::Pixels(PixelField::GutterSpacerHeight))
    } else if chars_equal(&w, "facet_label_height") {
        Some(ThemeKey::Pixels(PixelField::FacetLabelHeight))
    } else if chars_equal(&w, "facet_gap") {
        Some(ThemeKey::Pixels(PixelField::FacetGap))
    } else if chars_equal(&w, "facet_row_label_width") {
        Some(ThemeKey::Pixels(PixelField::FacetRowLabelWidth))
    } else if chars_equal(&w, "window_margin") {
        Some(ThemeKey::WindowMargin)
    } else if chars_equal(&w, "axis_color") {
        Some(ThemeKey::Color(ColorField::AxisColor))
    } else if chars_equal(&w, "facet_label_bg_color") {
        Some(ThemeKey::Color(ColorField::FacetLabelBgColor))
    } else if chars_equal(&w, "panel_border_color") {
        Some(ThemeKey::Color(ColorField::PanelBorderColor))
    } else {
        None
    }
}

// ---------------------------------------------------------------------------
// Numbers as pixel counts

/// The digits of a numeral before its decimal point (after any `-`).
pub open spec fn integer_part(n: Seq<char>) -> Seq<char> {
    let body = if n.len() > 0 && n[0] == '-' { n.drop_first() } else { n };
    body.take(digits_end(body, 0))
}

/// A numeral is below zero when it has a `-` and a digit other than `0`.
pub open spec fn numeral_is_negative(n: Seq<char>) -> bool {
    n.len() > 0 && n[0] == '-' && exists|k: int| 1 <= k < n.len() && is_digit(n[k]) && #[trigger] n[k] != '0'
}

pub open spec fn saturate_u32(v: nat) -> u32 {
    if v > u32::MAX { u32::MAX } else { v as u32 }
}

/// A non-negative numeral as a whole number of pixels: its integer part,
/// capped at `u32::MAX`; `None` for a negative numeral.
pub open spec fn numeral_as_u32(n: Seq<char>) -> Option<u32> {
    if numeral_is_negative(n) {
        None
    } else {
        Some(saturate_u32(digits_value(integer_part(n))))
    }
}

/// A numeral without its sign.
pub open spec fn numeral_body(n: Seq<char>) -> Seq<char> {
    if n.len() > 0 && n[0] == '-' { n.drop_first() } else { n }
}

/// The digits of a numeral after its decimal point.
pub open spec fn fraction_part(n: Seq<char>) -> Seq<char> {
    let body = numeral_body(n);
    let d = digits_end(body, 0);
    if d < body.len() { body.skip(d + 1) } else { seq![] }
}

/// Digits without their leading zeros (one `0` stays where all are zeros).
pub open spec fn strip_leading_zeros(s: Seq<char>) -> Seq<char>
    decreases s.len(),
{
    if s.len() > 1 && s[0] == '0' { strip_leading_zeros(s.drop_first()) } else { s }
}

/// Digits without their trailing zeros.
pub open spec fn strip_trailing_zeros(s: Seq<char>) -> Seq<char>
    decreases s.len(),
{
    if s.len() > 0 && s.last() == '0' { strip_trailing_zeros(s.drop_last()) } else { s }
}

/// A numeral as a number prints: its sign, its integer part without leading
/// zeros, and its fraction without trailing zeros (no point where none is
/// left); `-5.0` prints as `-5`, `007.250` as `7.25`. This is how a
/// double prints where the numeral has at most 15 significant digits; a
/// longer numeral would print rounded to the nearest double, which is not
/// computed here.
pub open spec fn canonical_numeral(n: Seq<char>) -> Seq<char> {
    let sign = if n.len() > 0 && n[0] == '-' { seq!['-'] } else { seq![] };
    let f = strip_trailing_zeros(fraction_part(n));
    sign + strip_leading_zeros(integer_part(n)) + if f.len() > 0 { seq!['.'] + f } else { seq![] }
}

/// Appends characters `a..b` of `v`.
fn push_chars(r: &mut String, v: &Vec<char>, a: usize, b: usize)
    requires
        a <= b <= v.len(),
    ensures
        final(r)@ == old(r)@ + v@.subrange(a as int, b as int),
{
    let mut k: usize = a;
    while k < b
        invariant
            a <= k <= b <= v.len(),
            r@ == old(r)@ + v@.subrange(a as int, k as int),
        decreases b - k,
    {
        crate::text::push_char(r, v[k]);
        assert(v@.subrange(a as int, k as int + 1) =~= v@.subrange(a as int, k as int).push(v@[k as int]));
        k = k + 1;
    }
}

/// Where the digits `0..d` of `v` start once leading zeros are dropped.
fn leading_zeros_end(v: &Vec<char>, d: usize) -> (i: usize)
    requires
        d <= v.len(),
    ensures
        i <= d,
        strip_leading_zeros(v@.take(d as int)) == v@.subrange(i as int, d as int),
{
    let mut i: usize = 0;
    assert(v@.take(d as int) =~= v@.subrange(0, d as int));
    while d > 0 && i < d - 1 && v[i] == '0'
        invariant
            i <= d <= v.len(),
            strip_leading_zeros(v@.take(d as int)) == strip_leading_zeros(v@.subrange(i as int, d as int)),
        decreases d - i,
    {
        assert(v@.subrange(i as int, d as int).drop_first() =~= v@.subrange(i as int + 1, d as int));
        i = i + 1;
    }
    if i < d {
        assert(v@.subrange(i as int, d as int)[0] == v@[i as int]);
    }
    i
}

/// Where the characters `fs..` of `v` end once trailing zeros are dropped.
fn trailing_zeros_start(v: &Vec<char>, fs: usize) -> (e: usize)
    requires
        fs <= v.len(),
    ensures
        fs <= e <= v.len(),
        strip_trailing_zeros(v@.skip(fs as int)) == v@.subrange(fs as int, e as int),
{
    let mut e: usize = v.len();
    assert(v@.skip(fs as int) =~= v@.subrange(fs as int, e as int));
    while e > fs && v[e - 1] == '0'
        invariant
            fs <= e <= v.len(),
            strip_trailing_zeros(v@.skip(fs as int)) == strip_trailing_zeros(v@.subrange(fs as int, e as int)),
        decreases e,
    {
        assert(v@.subrange(fs as int, e as int).drop_last() =~= v@.subrange(fs as int, e as int - 1));
        e = e - 1;
    }
    if e > fs {
        assert(v@.subrange(fs as int, e as int).last() == v@[e - 1]);
    }
    e
}

/// Writes a numeral as a number prints (see `canonical_numeral`).
pub fn canonical_numeral_string(n: &str) -> (r: String)
    ensures
        r@ == canonical_numeral(n@),
{
    let cs = chars_of(n);
    let neg = cs.len() > 0 && cs[0] == '-';
    let start: usize = if neg { 1 } else { 0 };
    let mut body: Vec<char> = Vec::new();
    let mut m: usize = start;
    while m < cs.len()
        invariant
            start <= m <= cs.len(),
            body@ == cs@.subrange(start as int, m as int),
        decreases cs.len() - m,
    {
        body.push(cs[m]);
        m = m + 1;
    }
    assert(body@ =~= numeral_body(n@));
    let d = scan_digits(&body, 0);
    proof {
        crate::lexer::lemma_digits_end(body@, 0);
    }
    let i0 = leading_zeros_end(&body, d);
    let fs: usize = if d < body.len() { d + 1 } else { body.len() };
    let e = trailing_zeros_start(&body, fs);
    proof {
        assert(fraction_part(n@) =~= body@.skip(fs as int));
    }
    let mut r = String::new();
    if neg {
        crate::text::push_char(&mut r, '-');
    }
    let ghost sign = r@;
    assert(sign =~= (if n@.len() > 0 && n@[0] == '-' { seq!['-'] } else { Seq::<char>::empty() }));
    push_chars(&mut r, &body, i0, d);
    let ghost head = r@;
    let ghost f = body@.subrange(fs as int, e as int);
    if e > fs {
        crate::text::push_char(&mut r, '.');
        push_chars(&mut r, &body, fs, e);
        assert(r@ =~= head + (seq!['.'] + f));
    } else {
        assert(r@ =~= head + Seq::<char>::empty());
    }
    r
}

/// Reads a numeral as a whole number of pixels (see `numeral_as_u32`).
pub fn numeral_to_u32(n: &str) -> (r: Option<u32>)
    ensures
        r == numeral_as_u32(n@),
{
    let cs = chars_of(n);
    let neg_sign = cs.len() > 0 && cs[0] == '-';
    let start: usize = if neg_sign { 1 } else { 0 };
    // Negative unless every digit is zero.
    if neg_sign {
        let mut k: usize = 1;
        while k < cs.len()
            invariant
                1 <= k <= cs.len(),
                cs@ == n@,
                cs@[0] == '-',
                forall|m: int| 1 <= m < k ==> !(is_digit(cs@[m]) && #[trigger] cs@[m] != '0'),
            decreases cs.len() - k,
        {
            if '0' <= cs[k] && cs[k] <= '9' && cs[k] != '0' {
                assert(numeral_is_negative(n@));
                return None;
            }
            k = k + 1;
        }
    }
    assert(!numeral_is_negative(n@));
    let ghost body = if neg_sign { cs@.drop_first() } else { cs@ };
    let mut acc: u32 = 0;
    let mut k: usize = start;
    proof {
        assert(body.take(0) =~= Seq::<char>::empty());
    }
    while k < cs.len() && '0' <= cs[k] && cs[k] <= '9'
        invariant
            start <= k <= cs.len(),
            cs@ == n@,
            body == cs@.skip(start as int),
            digits_end(body, 0) == digits_end(body, (k - start) as int),
            acc == saturate_u32(digits_value(body.take((k - start) as int))),
        decreases cs.len() - k,
    {
        let d = (cs[k] as u32 - '0' as u32);
        let ghost j = (k - start) as int;
        proof {
            assert(body.take(j + 1).drop_last() =~= body.take(j));
            assert(body.take(j + 1).last() == cs@[k as int]);
            assert(body[j] == cs@[k as int]);
        }
        let ghost prev = digits_value(body.take(j));
        if acc == u32::MAX || acc > (u32::MAX - d) / 10 {
            proof {
                assert(prev * 10 + d > u32::MAX) by (nonlinear_arith)
                    requires
                        acc == saturate_u32(prev),
                        acc == u32::MAX || acc > (u32::MAX - d) / 10,
                        d <= 9,
                ;
            }
            acc = u32::MAX;
        } else {
            proof {
                assert(prev * 10 + d <= u32::MAX) by (nonlinear_arith)
                    requires
                        acc == saturate_u32(prev),
                        acc < u32::MAX,
                        acc <= (u32::MAX - d) / 10,
                        d <= 9,
                ;
            }
            acc = acc * 10 + d;
        }
        k = k + 1;
    }
    proof {
        let j = (k - start) as int;
        if k < cs.len() {
            assert(!is_digit(body[j]));
        }
        crate::lexer::lemma_digits_end(body, j);
    }
    Some(acc)
}

// ---------------------------------------------------------------------------
// RGBA colors

/// The channels that `#RRGGBB` (alpha 255) or `#RRGGBBAA` spells.
pub open spec fn spec_hex_rgba(s: Seq<char>) -> Option<[u8; 4]> {
    let t = trim_hashes(s);
    if t.len() == 6 {
        match (hex_byte(t[0], t[1]), hex_byte(t[2], t[3]), hex_byte(t[4], t[5])) {
            (Some(r), Some(g), Some(b)) => Some([r, g, b, 255u8]),
            _ => None,
        }
    } else if t.len() == 8 {
        match (hex_byte(t[0], t[1]), hex_byte(t[2], t[3]), hex_byte(t[4], t[5]), hex_byte(t[6], t[7])) {
            (Some(r), Some(g), Some(b), Some(a)) => Some([r, g, b, a]),
            _ => None,
        }
    } else {
        None
    }
}

/// An `#RRGGBB` or `#RRGGBBAA` color is ASCII after its `#`, so its digits
/// can be read in byte pairs.
pub proof fn lemma_hex_rgba_ascii(s: Seq<char>)
    requires
        spec_hex_rgba(s) is Some,
    ensures
        hex_pairs_whole(s, 6),
        hex_pairs_whole(s, 8),
{
    let t = trim_hashes(s);
    lemma_hex_byte_ascii(t[0], t[1]);
    lemma_hex_byte_ascii(t[2], t[3]);
    lemma_hex_byte_ascii(t[4], t[5]);
    if t.len() == 8 {
        lemma_hex_byte_ascii(t[6], t[7]);
    }
    assert forall|i: int| 0 <= i < t.len() implies (#[trigger] t[i] as u32) < 0x80 by {
        assert(i == 0 || i == 1 || i == 2 || i == 3 || i == 4 || i == 5 || i == 6 || i == 7);
    }
    lemma_ascii_text(t);
}

/// Parses `#RRGGBB` or `#RRGGBBAA` into four channels; `None` on anything
/// else. The digits are read two bytes at a time, so a six- or eight-byte
/// text whose characters straddle those pairs is left out.
pub fn parse_hex_rgba(s: &str) -> (r: Option<[u8; 4]>)
    requires
        hex_pairs_whole(s@, 6),
        hex_pairs_whole(s@, 8),
    ensures
        r == spec_hex_rgba(s@),
{
    let t = strip_hashes(s);
    if t.len() == 6 {
        match (read_hex_byte(t[0], t[1]), read_hex_byte(t[2], t[3]), read_hex_byte(t[4], t[5])) {
            (Some(r), Some(g), Some(b)) => Some([r, g, b, 255u8]),
            _ => None,
        }
    } else if t.len() == 8 {
        match (read_hex_byte(t[0], t[1]), read_hex_byte(t[2], t[3]), read_hex_byte(t[4], t[5]), read_hex_byte(t[6], t[7])) {
            (Some(r), Some(g), Some(b), Some(a)) => Some([r, g, b, a]),
            _ => None,
        }
    } else {
        None
    }
}

// ---------------------------------------------------------------------------
// Overrides

/// What an override sets, or `None` where it is refused: an unknown key, a
/// string for a number field, a number for a color field, a negative pixel
/// size, or a color that is not `#RRGGBB` / `#RRGGBBAA`.
pub open spec fn spec_theme_setting(key: Seq<char>, value: SLiteral) -> Option<SThemeSetting> {
    match spec_theme_key(key) {
        Some(ThemeKey::Scalar(f)) => match value {
            SLiteral::Number(n) => Some(SThemeSetting::Scalar(f, n)),
            SLiteral::Str(_) => None,
        },
        Some(ThemeKey::Pixels(f)) => match value {
            SLiteral::Number(n) => match numeral_as_u32(n) {
                Some(v) => Some(SThemeSetting::Pixels(f, v)),
                None => None,
            },
            SLiteral::Str(_) => None,
        },
        Some(ThemeKey::WindowMargin) => match value {
            SLiteral::Number(n) => match numeral_as_u32(n) {
                Some(v) => Some(SThemeSetting::WindowMargin(v)),
                None => None,
            },
            SLiteral::Str(_) => None,
        },
        Some(ThemeKey::Color(f)) => match value {
            SLiteral::Str(s) => match spec_hex_rgba(s) {
                Some(c) => Some(SThemeSetting::Color(f, c)),
                None => None,
            },
            SLiteral::Number(_) => None,
        },
        None => None,
    }
}

/// Why an override is refused (where `spec_theme_setting` refuses it).
pub open spec fn spec_theme_refusal(key: Seq<char>, value: SLiteral) -> Seq<char> {
    let about = "Theme key '"@ + key;
    match spec_theme_key(key) {
        Some(ThemeKey::Scalar(_)) => about + "' expects a number, got a string"@,
        Some(ThemeKey::Pixels(_)) | Some(ThemeKey::WindowMargin) => match value {
            SLiteral::Number(n) => about + "' expects a non-negative integer, got "@ + canonical_numeral(n),
            SLiteral::Str(_) => about + "' expects a number, got a string"@,
        },
        Some(ThemeKey::Color(_)) => match value {
            SLiteral::Str(s) => about + "': expected 6- or 8-digit hex color, got #"@ + trim_hashes(s),
            SLiteral::Number(_) => about + "' expects a hex color string, got a number"@,
        },
        None => "Unknown theme key: "@ + key,
    }
}

impl ThemeSetting {
    /// Decides what the override `key = value` sets (see `spec_theme_setting`);
    /// a refusal is a compile error.
    pub fn from_override(key: &str, value: &LiteralValue) -> (r: Result<ThemeSetting, GglangError>)
        ensures
            match r {
                Ok(s) => spec_theme_setting(key@, value.deep_view()) == Some(s.deep_view()),
                Err(e) => spec_theme_setting(key@, value.deep_view()) is None && e is Compile
                    && error_message(e) == spec_theme_refusal(key@, value.deep_view()),
            },
    {
        proof {
            reveal_strlit("");
        }
        match theme_key(key) {
            Some(ThemeKey::Scalar(f)) => match value {
                LiteralValue::Number(n) => Ok(ThemeSetting::Scalar(f, n.clone())),
                LiteralValue::Str(_) => Err(theme_key_error(key, "' expects a number, got a string", "")),
            },
            Some(ThemeKey::Pixels(f)) => match value {
                LiteralValue::Number(n) => match numeral_to_u32(n.as_str()) {
                    Some(v) => Ok(ThemeSetting::Pixels(f, v)),
                    None => Err(theme_key_error(key, "' expects a non-negative integer, got ", canonical_numeral_string(n.as_str()).as_str())),
                },
                LiteralValue::Str(_) => Err(theme_key_error(key, "' expects a number, got a string", "")),
            },
            Some(ThemeKey::WindowMargin) => match value {
                LiteralValue::Number(n) => match numeral_to_u32(n.as_str()) {
                    Some(v) => Ok(ThemeSetting::WindowMargin(v)),
                    None => Err(theme_key_error(key, "' expects a non-negative integer, got ", canonical_numeral_string(n.as_str()).as_str())),
                },
                LiteralValue::Str(_) => Err(theme_key_error(key, "' expects a number, got a string", "")),
            },
            Some(ThemeKey::Color(f)) => match value {
                LiteralValue::Str(s) => {
                    let readable = hex_pairs_readable(s.as_str(), 6) && hex_pairs_readable(s.as_str(), 8);
                    let parsed = if readable {
                        parse_hex_rgba(s.as_str())
                    } else {
                        proof {
                            if spec_hex_rgba(s@) is Some {
                                lemma_hex_rgba_ascii(s@);
                            }
                        }
                        None
                    };
                    match parsed {
                        Some(c) => Ok(ThemeSetting::Color(f, c)),
                        None => {
                            let digits = crate::text::string_of(&strip_hashes(s.as_str()));
                            Err(theme_key_error(key, "': expected 6- or 8-digit hex color, got #", digits.as_str()))
                        },
                    }
                },
                LiteralValue::Number(_) => Err(theme_key_error(key, "' expects a hex color string, got a number", "")),
            },
            None => Err(error_with_detail(false, "Unknown theme key: ", key)),
        }
    }
}

} // verus!

verus! {

/// The whole-pixel sizes of a theme: the window margin and the sizes of the
/// layout's fixed regions.
#[derive(Debug, Clone, Copy, PartialEq, Eq, Structural)]
pub struct ThemeSizes {
    pub window_margin: u32,
    pub title_height: u32,
    pub caption_height: u32,
    pub x_gutter_height: u32,
    pub y_gutter_width: u32,
    pub y_axis_label_width: u32,
    pub legend_width: u32,
    pub legend_margin: u32,
    pub gutter_spacer_height: u32,
    pub facet_label_height: u32,
    pub facet_gap: u32,
    pub facet_row_label_width: u32,
}

/// The default theme's sizes.
pub open spec fn default_sizes() -> ThemeSizes {
    ThemeSizes {
        window_margin: 30,
        title_height: 110,
        caption_height: 50,
        x_gutter_height: 50,
        y_gutter_width: 80,
        y_axis_label_width: 55,
        legend_width: 200,
        legend_margin: 16,
        gutter_spacer_height: 20,
        facet_label_height: 36,
        facet_gap: 16,
        facet_row_label_width: 40,
    }
}

/// The sizes after a setting: a pixel setting or the window margin replaces
/// its field; other settings leave the sizes as they are.
pub open spec fn spec_apply_size(s: ThemeSizes, setting: SThemeSetting) -> ThemeSizes {
    match setting {
        SThemeSetting::WindowMargin(v) => ThemeSizes { window_margin: v, ..s },
        SThemeSetting::Pixels(f, v) => match f {
            PixelField::TitleHeight => ThemeSizes { title_height: v, ..s },
            PixelField::CaptionHeight => ThemeSizes { caption_height: v, ..s },
            PixelField::XGutterHeight => ThemeSizes { x_gutter_height: v, ..s },
            PixelField::YGutterWidth => ThemeSizes { y_gutter_width: v, ..s },
            PixelField::YAxisLabelWidth => ThemeSizes { y_axis_label_width: v, ..s },
            PixelField::LegendWidth => ThemeSizes { legend_width: v, ..s },
            PixelField::LegendMargin => ThemeSizes { legend_margin: v, ..s },
            PixelField::GutterSpacerHeight => ThemeSizes { gutter_spacer_height: v, ..s },
            PixelField::FacetLabelHeight => ThemeSizes { facet_label_height: v, ..s },
            PixelField::FacetGap => ThemeSizes { facet_gap: v, ..s },
            PixelField::FacetRowLabelWidth => ThemeSizes { facet_row_label_width: v, ..s },
        },
        _ => s,
    }
}

/// The size that a pixel field names: the field of `ThemeSizes` of the same name.
pub open spec fn size_of(s: ThemeSizes, f: PixelField) -> u32 {
    match f {
        PixelField::TitleHeight => s.title_height,
        PixelField::CaptionHeight => s.caption_height,
        PixelField::XGutterHeight => s.x_gutter_height,
        PixelField::YGutterWidth => s.y_gutter_width,
        PixelField::YAxisLabelWidth => s.y_axis_label_width,
        PixelField::LegendWidth => s.legend_width,
        PixelField::LegendMargin => s.legend_margin,
        PixelField::GutterSpacerHeight => s.gutter_spacer_height,
        PixelField::FacetLabelHeight => s.facet_label_height,
        PixelField::FacetGap => s.facet_gap,
        PixelField::FacetRowLabelWidth => s.facet_row_label_width,
    }
}

/// Setting a pixel field sets the size of that name to the value and
/// leaves every other size, and the window margin, as it was.
pub proof fn law_pixel_setting_sets_its_field(s: ThemeSizes, f: PixelField, v: u32)
    ensures
        size_of(spec_apply_size(s, SThemeSetting::Pixels(f, v)), f) == v,
        forall|g: PixelField| g != f ==> #[trigger] size_of(spec_apply_size(s, SThemeSetting::Pixels(f, v)), g) == size_of(s, g),
        spec_apply_size(s, SThemeSetting::Pixels(f, v)).window_margin == s.window_margin,
{
}

/// Setting the window margin sets it and leaves every pixel size as it was;
/// scalar and color settings leave all sizes as they were.
pub proof fn law_other_settings_keep_sizes(s: ThemeSizes, setting: SThemeSetting, v: u32)
    ensures
        spec_apply_size(s, SThemeSetting::WindowMargin(v)).window_margin == v,
        forall|g: PixelField| #[trigger] size_of(spec_apply_size(s, SThemeSetting::WindowMargin(v)), g) == size_of(s, g),
        (setting is Scalar || setting is Color) ==> spec_apply_size(s, setting) == s,
{
}

/// The key that a setting assigns.
pub open spec fn setting_key(s: SThemeSetting) -> ThemeKey {
    match s {
        SThemeSetting::Scalar(f, _) => ThemeKey::Scalar(f),
        SThemeSetting::Pixels(f, _) => ThemeKey::Pixels(f),
        SThemeSetting::WindowMargin(_) => ThemeKey::WindowMargin,
        SThemeSetting::Color(f, _) => ThemeKey::Color(f),
    }
}

/// A later setting of a key overrides an earlier setting of the same key:
/// applying both is applying the later one alone.
pub proof fn law_later_setting_wins(s: ThemeSizes, earlier: SThemeSetting, later: SThemeSetting)
    requires
        setting_key(earlier) == setting_key(later),
    ensures
        spec_apply_size(spec_apply_size(s, earlier), later) == spec_apply_size(s, later),
{
}

/// Settings of different keys do not interfere: the order in which they are
/// applied does not matter.
pub proof fn law_distinct_settings_commute(s: ThemeSizes, a: SThemeSetting, b: SThemeSetting)
    requires
        setting_key(a) != setting_key(b),
    ensures
        spec_apply_size(spec_apply_size(s, a), b) == spec_apply_size(spec_apply_size(s, b), a),
{
}

impl Default for ThemeSizes {
    fn default() -> (r: Self)
        ensures
            r == default_sizes(),
    {
        ThemeSizes {
            window_margin: 30,
            title_height: 110,
            caption_height: 50,
            x_gutter_height: 50,
            y_gutter_width: 80,
            y_axis_label_width: 55,
            legend_width: 200,
            legend_margin: 16,
            gutter_spacer_height: 20,
            facet_label_height: 36,
            facet_gap: 16,
            facet_row_label_width: 40,
        }
    }
}

impl ThemeSizes {
    /// Applies a setting (see `spec_apply_size`).
    pub fn apply(&mut self, setting: &ThemeSetting)
        ensures
            *final(self) == spec_apply_size(*old(self), setting.deep_view()),
    {
        match setting {
            ThemeSetting::WindowMargin(v) => self.window_margin = *v,
            ThemeSetting::Pixels(f, v) => match f {
                PixelField::TitleHeight => self.title_height = *v,
                PixelField::CaptionHeight => self.caption_height = *v,
                PixelField::XGutterHeight => self.x_gutter_height = *v,
                PixelField::YGutterWidth => self.y_gutter_width = *v,
                PixelField::YAxisLabelWidth => self.y_axis_label_width = *v,
                PixelField::LegendWidth => self.legend_width = *v,
                PixelField::LegendMargin => self.legend_margin = *v,
                PixelField::GutterSpacerHeight => self.gutter_spacer_height = *v,
                PixelField::FacetLabelHeight => self.facet_label_height = *v,
                PixelField::FacetGap => self.facet_gap = *v,
                PixelField::FacetRowLabelWidth => self.facet_row_label_width = *v,
            },
            _ => {},
        }
    }
}

} // verus!
