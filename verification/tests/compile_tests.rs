use ggc::aesthetic::{Aesthetic, ConstantValue};
use ggc::ast::parse;
use ggc::compile::{ast_aesthetic_to_aesthetic, compile};
use ggc::ast::AstAesthetic;
use ggc::error::GglangError;
use ggc::geom::{BarPosition, LayerGeometry};
use ggc::plot::{CoordinateSystem, LayerStat, ThemeStep};
use ggc::scale::{Axis, ScaleKind};
use ggc::theme::{PixelField, ThemeSetting};

fn compile_source(source: &str) -> Result<ggc::plot::Blueprint, GglangError> {
    let program = parse(source).expect("Parse should succeed");
    compile(&program)
}

#[test]
fn compile_rejects_position_on_point() {
    let source = "GEOM POINT DODGE";
    let program = parse(source).unwrap();
    let result = compile(&program);
    match result {
        Err(e) => assert!(e.describe().contains("Position adjustment")),
        Ok(_) => panic!("Expected compile error for GEOM POINT DODGE"),
    }
}

#[test]
fn compile_map_and_point_layer() {
    let bp = compile_source("MAP x=:x, y=:y\nGEOM POINT").unwrap();
    assert_eq!(bp.mappings.len(), 2);
    assert_eq!(bp.mappings[0].aesthetic, Aesthetic::X);
    assert_eq!(bp.mappings[0].variable, "x");
    assert_eq!(bp.mappings[1].aesthetic, Aesthetic::Y);
    assert_eq!(bp.layers.len(), 1);
    assert!(matches!(bp.layers[0].geometry, LayerGeometry::Point(_)));
    assert_eq!(bp.layers[0].stat, LayerStat::Identity);
    assert!(bp.scales.is_empty());
}

#[test]
fn compile_bar_without_y_counts() {
    let bp = compile_source("MAP x=:category\nGEOM BAR").unwrap();
    assert_eq!(bp.layers[0].stat, LayerStat::Count);
    match bp.layers[0].geometry {
        LayerGeometry::Bar(b) => assert_eq!(b.position, BarPosition::Stack),
        _ => panic!("Expected a bar layer"),
    }
}

#[test]
fn compile_bar_with_y_is_identity() {
    let bp = compile_source("MAP x=:category, y=:value\nGEOM BAR").unwrap();
    assert_eq!(bp.layers[0].stat, LayerStat::Identity);
}

#[test]
fn compile_bar_with_layer_y_is_identity() {
    let bp = compile_source("MAP x=:category\nGEOM BAR { y=:value }").unwrap();
    assert_eq!(bp.layers[0].stat, LayerStat::Identity);
    assert_eq!(bp.layers[0].mappings.len(), 1);
    assert_eq!(bp.layers[0].mappings[0].variable, "value");
}

#[test]
fn compile_bar_y_mapped_later_still_counts() {
    let bp = compile_source("MAP x=:category\nGEOM BAR\nMAP y=:value").unwrap();
    assert_eq!(bp.layers[0].stat, LayerStat::Count);
    assert_eq!(bp.mappings.len(), 2);
}

#[test]
fn compile_bar_dodge() {
    let bp = compile_source("MAP x=:x, y=:y, fill=:g\nGEOM BAR DODGE\nSCALE X DISCRETE").unwrap();
    match bp.layers[0].geometry {
        LayerGeometry::Bar(b) => assert_eq!(b.position, BarPosition::Dodge),
        _ => panic!("Expected a bar layer"),
    }
    assert_eq!(bp.scales, vec![ScaleKind::PositionDiscrete(Axis::X)]);
}

#[test]
fn compile_constant_color() {
    let bp = compile_source("MAP x=:x, y=:y\nGEOM POINT { color=\"#FF0000\" }").unwrap();
    match bp.layers[0].constants.get(Aesthetic::Color) {
        Some(ConstantValue::Color(c)) => assert_eq!(*c, [255, 0, 0]),
        _ => panic!("Expected a color constant"),
    }
    assert!(!bp.layers[0].constants.contains(Aesthetic::X));
}

#[test]
fn compile_constant_number_kept_as_written() {
    let bp = compile_source("GEOM POINT { alpha=0.3 }").unwrap();
    match bp.layers[0].constants.get(Aesthetic::Alpha) {
        Some(ConstantValue::Float(n)) => assert_eq!(n, "0.3"),
        _ => panic!("Expected a number constant"),
    }
}

#[test]
fn compile_last_constant_wins() {
    let bp = compile_source("GEOM POINT { color=\"#FF0000\", color=\"#00FF00\" }").unwrap();
    match bp.layers[0].constants.get(Aesthetic::Color) {
        Some(ConstantValue::Color(c)) => assert_eq!(*c, [0, 255, 0]),
        _ => panic!("Expected a color constant"),
    }
}

#[test]
fn compile_rejects_bad_color() {
    let err = compile_source("GEOM POINT { color=\"red\" }").err().expect("Expected an error");
    assert!(matches!(err, GglangError::Compile { .. }));
    assert_eq!(err.describe(), "Compile error: Expected 6-digit hex color, got: #red");
    let err = compile_source("GEOM POINT { color=\"#12345G\" }").err().expect("Expected an error");
    assert_eq!(err.describe(), "Compile error: invalid digit found in string");
}

#[test]
fn compile_rejects_label_aesthetic() {
    let err = compile_source("MAP label=:name").err().expect("Expected an error");
    assert!(matches!(err, GglangError::Compile { .. }));
    assert_eq!(err.describe(), "Compile error: Aesthetic 'label' is not supported");
}

#[test]
fn compile_rejects_text_geometry() {
    let err = compile_source("GEOM TEXT").err().expect("Expected an error");
    assert_eq!(err.describe(), "Compile error: GEOM TEXT is not supported");
}

#[test]
fn compile_rejects_log_scale() {
    let err = compile_source("SCALE Y LOG").err().expect("Expected an error");
    assert_eq!(err.describe(), "Compile error: Unsupported SCALE combination for aesthetic 'y'");
}

#[test]
fn compile_labels_and_title() {
    let bp = compile_source("TITLE \"A\"\nCAPTION \"B\"\nXLABEL \"C\"\nYLABEL \"D\"\nTITLE \"E\"").unwrap();
    assert_eq!(bp.title.as_deref(), Some("E"));
    assert_eq!(bp.caption.as_deref(), Some("B"));
    assert_eq!(bp.x_label.as_deref(), Some("C"));
    assert_eq!(bp.y_label.as_deref(), Some("D"));
}

#[test]
fn compile_coord_polar() {
    let bp = compile_source("COORD POLAR START 1.57").unwrap();
    match &bp.coordinates {
        CoordinateSystem::Polar { start } => assert_eq!(start, "1.57"),
        _ => panic!("Expected polar coordinates"),
    }
}

#[test]
fn compile_theme_steps() {
    let bp = compile_source("THEME { title_height = 90 }\nTHEME FILE \"dark.theme\"").unwrap();
    assert_eq!(bp.theme_steps.len(), 2);
    match &bp.theme_steps[0] {
        ThemeStep::Settings(s) => {
            assert_eq!(s.len(), 1);
            assert!(matches!(s[0], ThemeSetting::Pixels(PixelField::TitleHeight, 90)));
        }
        _ => panic!("Expected inline settings"),
    }
    match &bp.theme_steps[1] {
        ThemeStep::File(p) => assert_eq!(p, "dark.theme"),
        _ => panic!("Expected a theme file"),
    }
}

#[test]
fn compile_rejects_unknown_theme_key() {
    let err = compile_source("THEME { nonsense = 1 }").err().expect("Expected an error");
    assert_eq!(err.describe(), "Compile error: Unknown theme key: nonsense");
}

#[test]
fn compile_one_layer_per_geom() {
    let bp = compile_source("GEOM POINT\nMAP x=:a\nGEOM LINE\nGEOM BAR").unwrap();
    assert_eq!(bp.layers.len(), 3);
}

#[test]
fn compile_refusal_is_final() {
    let err = compile_source("GEOM LINE STACK\nSCALE Y LOG\nGEOM POINT").err().expect("Expected an error");
    assert_eq!(err.describe(), "Compile error: Position adjustment (STACK/DODGE) is only supported on GEOM BAR");
}

#[test]
fn ast_aesthetic_conversion() {
    assert_eq!(ast_aesthetic_to_aesthetic(&AstAesthetic::Fill).unwrap(), Aesthetic::Fill);
    assert!(ast_aesthetic_to_aesthetic(&AstAesthetic::Shape).is_err());
}
