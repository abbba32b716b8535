use ggc::aesthetic::{Aesthetic, ConstantValue, Mapping};
use ggc::geom::{GeomLine, GeomPoint, LayerGeometry};
use ggc::plot::{Blueprint, Layer, LayerConstants, LayerStat};
use ggc::render::{Binding, ColumnInfo};
use ggc::scale::{Axis, ColumnKind, ScaleKind};
use ggc::aesthetic::AestheticFamily;

fn col(name: &str, kind: ColumnKind) -> ColumnInfo {
    ColumnInfo { name: name.to_string(), kind }
}

fn point_layer() -> Layer {
    Layer::new(LayerGeometry::Point(GeomPoint), vec![], LayerConstants::new(), LayerStat::Identity)
}

fn mapping(a: Aesthetic, v: &str) -> Mapping {
    Mapping { aesthetic: a, variable: v.to_string() }
}

#[test]
fn auto_map_from_column_names() {
    let mut bp = Blueprint::new().with_layer(point_layer());
    let columns = vec![col("x", ColumnKind::Float), col("y", ColumnKind::Float)];
    let bindings = bp.plan_render(&columns).expect("auto-mapping should work");
    assert_eq!(bindings.len(), 1);
    assert_eq!(
        bindings[0],
        vec![Binding { aesthetic: Aesthetic::X, column: 0 }, Binding { aesthetic: Aesthetic::Y, column: 1 }]
    );
    assert_eq!(bp.scales, vec![ScaleKind::PositionContinuous(Axis::X), ScaleKind::PositionContinuous(Axis::Y)]);
}

#[test]
fn auto_map_with_color() {
    let mut bp = Blueprint::new().with_layer(point_layer());
    let columns = vec![col("x", ColumnKind::Float), col("y", ColumnKind::Float), col("color", ColumnKind::Text)];
    let bindings = bp.plan_render(&columns).expect("auto-mapping with color should work");
    assert_eq!(bindings[0].len(), 3);
    assert!(bp.has_legend());
    assert!(bp.scales.contains(&ScaleKind::ColorDiscrete(AestheticFamily::Color)));
}

#[test]
fn auto_map_produces_axis_labels() {
    let mut bp = Blueprint::new().with_layer(point_layer());
    let columns = vec![col("x", ColumnKind::Float), col("y", ColumnKind::Float)];
    bp.plan_render(&columns).unwrap();
    let (x, y) = bp.axis_labels();
    assert_eq!(x.as_deref(), Some("x"));
    assert_eq!(y.as_deref(), Some("y"));
}

#[test]
fn explicit_mapping_overrides_auto() {
    let mut bp = Blueprint::new()
        .with_layer(point_layer())
        .with_mapping(mapping(Aesthetic::X, "year"))
        .with_mapping(mapping(Aesthetic::Y, "y"))
        .with_scale(ScaleKind::PositionContinuous(Axis::X))
        .with_scale(ScaleKind::PositionContinuous(Axis::Y));
    let columns = vec![col("x", ColumnKind::Float), col("year", ColumnKind::Float), col("y", ColumnKind::Float)];
    let bindings = bp.plan_render(&columns).expect("explicit mapping should take precedence");
    assert_eq!(bp.mappings.len(), 2);
    assert_eq!(bindings[0][0], Binding { aesthetic: Aesthetic::X, column: 1 });
    assert_eq!(bp.scales.len(), 2);
}

#[test]
fn create_blueprint() {
    let layer = Layer::new(
        LayerGeometry::Point(GeomPoint),
        vec![mapping(Aesthetic::X, "x"), mapping(Aesthetic::Y, "y")],
        LayerConstants::new(),
        LayerStat::Identity,
    );
    let bp = Blueprint::new()
        .with_layer(layer)
        .with_scale(ScaleKind::PositionContinuous(Axis::X))
        .with_scale(ScaleKind::PositionContinuous(Axis::Y));
    assert_eq!(bp.layers.len(), 1);
    assert_eq!(bp.scales.len(), 2);
}

#[test]
fn plan_render_missing_column() {
    let mut bp = Blueprint::new().with_layer(point_layer()).with_mapping(mapping(Aesthetic::X, "nope"));
    let columns = vec![col("y", ColumnKind::Float)];
    let err = bp.plan_render(&columns).err().expect("Expected an error");
    assert_eq!(err.describe(), "Render error: Column 'nope' not found in data");
}

#[test]
fn plan_render_missing_required() {
    let mut bp = Blueprint::new().with_layer(point_layer());
    let columns = vec![col("x", ColumnKind::Float)];
    let err = bp.plan_render(&columns).err().expect("Expected an error");
    assert_eq!(err.describe(), "Render error: Missing required aesthetic 'y'");
}

#[test]
fn plan_render_constant_satisfies_required() {
    let mut constants = LayerConstants::new();
    constants.insert(Aesthetic::Y, ConstantValue::Float("2.5".to_string()));
    let layer = Layer::new(LayerGeometry::Point(GeomPoint), vec![], constants, LayerStat::Identity);
    let mut bp = Blueprint::new().with_layer(layer).with_mapping(mapping(Aesthetic::Y, "y"));
    let columns = vec![col("x", ColumnKind::Float), col("y", ColumnKind::Float)];
    let bindings = bp.plan_render(&columns).expect("constant y should do");
    assert_eq!(bindings[0], vec![Binding { aesthetic: Aesthetic::X, column: 0 }]);
}

#[test]
fn per_layer_mapping_override_uses_correct_column() {
    let line = Layer::new(
        LayerGeometry::Line(GeomLine),
        vec![mapping(Aesthetic::Y, "b")],
        LayerConstants::new(),
        LayerStat::Identity,
    );
    let bp = Blueprint::new()
        .with_layer(point_layer())
        .with_layer(line)
        .with_mapping(mapping(Aesthetic::X, "x"))
        .with_mapping(mapping(Aesthetic::Y, "a"));
    let columns = vec![col("x", ColumnKind::Float), col("a", ColumnKind::Float), col("b", ColumnKind::Float)];
    let bindings = bp.bind_layers(&columns).unwrap();
    assert_eq!(bindings[0][1], Binding { aesthetic: Aesthetic::Y, column: 1 });
    assert_eq!(bindings[1][1], Binding { aesthetic: Aesthetic::Y, column: 2 });
}

#[test]
fn text_column_gets_discrete_position_scale() {
    let mut bp = Blueprint::new()
        .with_layer(point_layer())
        .with_mapping(mapping(Aesthetic::X, "category"))
        .with_mapping(mapping(Aesthetic::Y, "value"));
    let columns = vec![col("category", ColumnKind::Text), col("value", ColumnKind::Float)];
    bp.plan_render(&columns).unwrap();
    assert_eq!(bp.scales, vec![ScaleKind::PositionDiscrete(Axis::X), ScaleKind::PositionContinuous(Axis::Y)]);
    assert!(!bp.has_legend());
}

#[test]
fn later_column_of_same_name_wins() {
    let columns = vec![col("x", ColumnKind::Text), col("x", ColumnKind::Float)];
    assert_eq!(ggc::render::find_column(&columns, &"x".to_string()), Some(1));
    assert_eq!(ggc::render::find_column(&columns, &"z".to_string()), None);
}

#[test]
fn auto_map_twice_changes_nothing_more() {
    let mut bp = Blueprint::new().with_layer(point_layer());
    let columns = vec![col("x", ColumnKind::Float), col("y", ColumnKind::Text), col("fill", ColumnKind::Text)];
    bp.auto_map(&columns);
    let mappings = bp.mappings.len();
    let scales = bp.scales.clone();
    bp.auto_map(&columns);
    assert_eq!(bp.mappings.len(), mappings);
    assert_eq!(bp.scales, scales);
    assert_eq!(mappings, 3);
}

#[test]
fn explicit_labels_win() {
    let bp = Blueprint::new()
        .with_mapping(mapping(Aesthetic::X, "a"))
        .with_mapping(mapping(Aesthetic::X, "b"))
        .with_y_label("Height".to_string());
    let (x, y) = bp.axis_labels();
    assert_eq!(x.as_deref(), Some("a"));
    assert_eq!(y.as_deref(), Some("Height"));
}

#[test]
fn counting_bars_get_a_y_scale() {
    let program = ggc::ast::parse("MAP x=:category\nGEOM BAR").unwrap();
    let mut bp = ggc::compile::compile(&program).unwrap();
    let columns = vec![col("category", ColumnKind::Text)];
    let bindings = bp.plan_render(&columns).unwrap();
    assert_eq!(bindings[0], vec![Binding { aesthetic: Aesthetic::X, column: 0 }]);
    assert_eq!(bp.scales, vec![ScaleKind::PositionDiscrete(Axis::X), ScaleKind::PositionContinuous(Axis::Y)]);
}
