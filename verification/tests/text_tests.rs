use ggc::aesthetic::{parse_hex_color, Aesthetic};
use ggc::error::GglangError;
use ggc::svg::{escape_xml, wrap_words};
use ggc::text::decimal_string;
use ggc::theme::{ColorField, PixelField, ScalarField, ThemeSetting, ThemeSizes};
use ggc::ast::LiteralValue;

#[test]
fn escape_xml_replaces_markup() {
    assert_eq!(escape_xml("a < b & \"c\" > d"), "a &lt; b &amp; &quot;c&quot; &gt; d");
    assert_eq!(escape_xml("plain"), "plain");
    assert_eq!(escape_xml("&amp;"), "&amp;amp;");
}

#[test]
fn wrap_words_greedy() {
    assert_eq!(wrap_words("the quick brown fox", 10), vec!["the quick", "brown fox"]);
    assert_eq!(wrap_words("  a   b  ", 10), vec!["a b"]);
    assert_eq!(wrap_words("", 10), vec![""]);
    assert_eq!(wrap_words("unbreakable word", 4), vec!["unbreakable", "word"]);
    assert_eq!(wrap_words("é é", 4), vec!["é", "é"]);
    assert_eq!(wrap_words("é é", 5), vec!["é é"]);
}

#[test]
fn decimal_numerals() {
    assert_eq!(decimal_string(0), "0");
    assert_eq!(decimal_string(42), "42");
    assert_eq!(decimal_string(1000), "1000");
}

#[test]
fn error_descriptions() {
    let e = GglangError::Parse { message: "bad".to_string() };
    assert_eq!(e.describe(), "Parse error: bad");
    let e = GglangError::Export { message: "x".to_string() };
    assert_eq!(e.describe(), "Export error: x");
}

#[test]
fn hex_colors() {
    assert_eq!(parse_hex_color("#FF8000").unwrap(), [255, 128, 0]);
    assert_eq!(parse_hex_color("00ff00").unwrap(), [0, 255, 0]);
    assert!(parse_hex_color("#FFF").is_err());
    assert!(parse_hex_color("#GG0000").is_err());
}

#[test]
fn aesthetic_names_and_families() {
    let all = Aesthetic::all();
    assert_eq!(all.len(), 6);
    let names: Vec<&str> = all.iter().map(|a| a.name()).collect();
    assert_eq!(names, vec!["x", "y", "color", "fill", "group", "alpha"]);
    for (i, a) in all.iter().enumerate() {
        assert_eq!(a.index(), i);
    }
}

#[test]
fn theme_overrides() {
    let s = ThemeSetting::from_override("legend_width", &LiteralValue::Number("150.7".to_string())).unwrap();
    assert!(matches!(s, ThemeSetting::Pixels(PixelField::LegendWidth, 150)));
    let s = ThemeSetting::from_override("axis_color", &LiteralValue::Str("#10203040".to_string())).unwrap();
    assert!(matches!(s, ThemeSetting::Color(ColorField::AxisColor, [16, 32, 48, 64])));
    let s = ThemeSetting::from_override("title_font_size", &LiteralValue::Number("12.5".to_string())).unwrap();
    match s {
        ThemeSetting::Scalar(ScalarField::TitleFontSize, v) => assert_eq!(v, "12.5"),
        _ => panic!("Expected a scalar setting"),
    }
    let e = ThemeSetting::from_override("facet_gap", &LiteralValue::Number("-3".to_string())).err().unwrap();
    assert_eq!(e.describe(), "Compile error: Theme key 'facet_gap' expects a non-negative integer, got -3");
    let e = ThemeSetting::from_override("axis_color", &LiteralValue::Str("#12".to_string())).err().unwrap();
    assert_eq!(e.describe(), "Compile error: Theme key 'axis_color': expected 6- or 8-digit hex color, got #12");
    let e = ThemeSetting::from_override("title_height", &LiteralValue::Str("big".to_string())).err().unwrap();
    assert_eq!(e.describe(), "Compile error: Theme key 'title_height' expects a number, got a string");
    assert!(ThemeSetting::from_override("axis_color", &LiteralValue::Number("1".to_string())).is_err());
}

#[test]
fn theme_sizes_apply() {
    let mut sizes = ThemeSizes::default();
    assert_eq!(sizes.title_height, 110);
    sizes.apply(&ThemeSetting::Pixels(PixelField::TitleHeight, 90));
    sizes.apply(&ThemeSetting::WindowMargin(5));
    sizes.apply(&ThemeSetting::Color(ColorField::AxisColor, [0, 0, 0, 255]));
    assert_eq!(sizes.title_height, 90);
    assert_eq!(sizes.window_margin, 5);
    assert_eq!(sizes.legend_width, 200);
}

#[test]
fn theme_later_setting_of_a_key_wins() {
    let mut sizes = ThemeSizes::default();
    sizes.apply(&ThemeSetting::Pixels(PixelField::LegendWidth, 120));
    sizes.apply(&ThemeSetting::WindowMargin(7));
    sizes.apply(&ThemeSetting::Pixels(PixelField::LegendWidth, 90));
    assert_eq!(sizes.legend_width, 90);
    assert_eq!(sizes.window_margin, 7);
    assert_eq!(sizes.title_height, ThemeSizes::default().title_height);
}

#[test]
fn escape_xml_output_reads_back_to_its_input() {
    let s = "a<b & \"c\">";
    let e = escape_xml(s);
    assert_eq!(e, "a&lt;b &amp; &quot;c&quot;&gt;");
    assert!(!e.contains('<') && !e.contains('>') && !e.contains('"'));
    let back = e
        .replace("&lt;", "<")
        .replace("&gt;", ">")
        .replace("&quot;", "\"")
        .replace("&amp;", "&");
    assert_eq!(back, s);
}

#[test]
fn hex_colors_count_bytes() {
    // Six bytes in three two-byte characters: the length is right, the digits are not.
    assert_eq!(parse_hex_color("#ééé").unwrap_err(), "invalid digit found in string");
    // Six characters but eight bytes: the length is wrong.
    assert_eq!(parse_hex_color("#ééaaaa").unwrap_err(), "Expected 6-digit hex color, got: #ééaaaa");
    assert_eq!(parse_hex_color("+f+f+f").unwrap(), [15, 15, 15]);
}

#[test]
fn negative_pixel_sizes_print_as_numbers() {
    let e = ThemeSetting::from_override("facet_gap", &LiteralValue::Number("-5.0".to_string())).err().unwrap();
    assert_eq!(e.describe(), "Compile error: Theme key 'facet_gap' expects a non-negative integer, got -5");
    let e = ThemeSetting::from_override("window_margin", &LiteralValue::Number("-007.250".to_string())).err().unwrap();
    assert_eq!(e.describe(), "Compile error: Theme key 'window_margin' expects a non-negative integer, got -7.25");
    let e = ThemeSetting::from_override("axis_color", &LiteralValue::Str("#éééé".to_string())).err().unwrap();
    assert_eq!(e.describe(), "Compile error: Theme key 'axis_color': expected 6- or 8-digit hex color, got #éééé");
}
