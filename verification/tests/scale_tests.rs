use ggc::aesthetic::{Aesthetic, AestheticFamily};
use ggc::scale::{default_scale_for, Axis, ColumnKind, ScaleKind, ScalePositionDiscrete, StatCount};

fn strings(v: &[&str]) -> Vec<String> {
    v.iter().map(|s| s.to_string()).collect()
}

fn ndc(index: usize, n: usize) -> f64 {
    (2 * index + 1) as f64 / n as f64 - 1.0
}

#[test]
fn scale_position_discrete_round_trip() {
    let mut scale = ScalePositionDiscrete::new(Axis::X);
    let input = strings(&["a", "b", "c", "a"]);
    scale.append(&input).unwrap();
    let mapped = scale.map(&input).unwrap();
    assert_eq!(mapped.len(), 4);
    assert_eq!(mapped[0], mapped[3]);
    assert_ne!(mapped[0], mapped[1]);
    assert_ne!(mapped[1], mapped[2]);
}

#[test]
fn scale_position_discrete_preserves_insertion_order() {
    let mut scale = ScalePositionDiscrete::new(Axis::X);
    let input = strings(&["banana", "apple", "banana"]);
    scale.append(&input).unwrap();
    let mapped = scale.map(&input).unwrap();
    let n = scale.len();
    assert_eq!(ndc(mapped[0], n), -0.5);
    assert_eq!(ndc(mapped[1], n), 0.5);
    assert_eq!(ndc(mapped[2], n), -0.5);
}

#[test]
fn scale_position_discrete_numeric_as_categorical() {
    let mut scale = ScalePositionDiscrete::new(Axis::X);
    let input = strings(&["2021", "2022", "2023"]);
    scale.append(&input).unwrap();
    let mapped = scale.map(&input).unwrap();
    assert_eq!(mapped.len(), 3);
    assert_ne!(mapped[0], mapped[1]);
    assert_ne!(mapped[1], mapped[2]);
}

#[test]
fn scale_position_discrete_band_width() {
    let mut scale = ScalePositionDiscrete::new(Axis::X);
    scale.append(&strings(&["a", "b", "c", "d"])).unwrap();
    let bw = 2.0 / scale.len() as f64;
    assert!((bw - 0.5).abs() < 1e-6);
}

#[test]
fn scale_position_discrete_rejects_empty_and_unknown() {
    let mut scale = ScalePositionDiscrete::new(Axis::Y);
    assert!(scale.append(&Vec::new()).is_err());
    scale.append(&strings(&["a"])).unwrap();
    assert!(scale.map(&strings(&["b"])).is_err());
    assert_eq!(scale.axis(), Axis::Y);
    assert_eq!(scale.categories(), &strings(&["a"]));
}

#[test]
fn scale_position_discrete_error_messages() {
    let mut scale = ScalePositionDiscrete::new(Axis::X);
    let e = scale.append(&Vec::new()).unwrap_err();
    assert_eq!(e.describe(), "Render error: ScalePositionDiscrete requires non-empty input");
    scale.append(&strings(&["a", "b"])).unwrap();
    let e = scale.map(&strings(&["a", "z", "y"])).unwrap_err();
    assert_eq!(e.describe(), "Render error: Category 'z' not found in discrete scale");
}

#[test]
fn stat_count_groups_by_x() {
    let table = StatCount.count(&strings(&["a", "b", "a", "c"]), None);
    assert_eq!(table.x, strings(&["a", "b", "c"]));
    assert_eq!(table.count, vec![2, 1, 1]);
    assert!(table.fill.is_none());
}

#[test]
fn stat_count_groups_by_x_and_fill() {
    let fill = strings(&["g1", "g2", "g1", "g2"]);
    let table = StatCount.count(&strings(&["a", "a", "b", "b"]), Some(&fill));
    assert_eq!(table.x, strings(&["a", "a", "b", "b"]));
    assert_eq!(table.count, vec![1, 1, 1, 1]);
    assert_eq!(table.fill, Some(strings(&["g1", "g2", "g1", "g2"])));
}

#[test]
fn default_scale_for_color_float_gives_continuous() {
    let scale = default_scale_for(&Aesthetic::Color, Some(ColumnKind::Float));
    assert!(scale.is_some());
    assert_eq!(scale.unwrap().aesthetic_family(), AestheticFamily::Color);
    assert_eq!(scale, Some(ScaleKind::ColorContinuous));
}

#[test]
fn default_scale_for_color_string_gives_discrete() {
    let scale = default_scale_for(&Aesthetic::Color, Some(ColumnKind::Text));
    assert!(scale.is_some());
    assert_eq!(scale.unwrap().aesthetic_family(), AestheticFamily::Color);
    assert_eq!(scale, Some(ScaleKind::ColorDiscrete(AestheticFamily::Color)));
}

#[test]
fn default_scale_for_group_is_none() {
    assert_eq!(default_scale_for(&Aesthetic::Group, Some(ColumnKind::Text)), None);
    assert_eq!(default_scale_for(&Aesthetic::X, Some(ColumnKind::Int)), Some(ScaleKind::PositionContinuous(Axis::X)));
}

#[test]
fn stat_count_no_x_returns_data_unchanged() {
    // A layer with only a y column: no x to count, so its data passes unchanged.
    assert!(StatCount.transform(None, None).is_none());
}

#[test]
fn stat_count_transform_counts_when_x_is_there() {
    let fill = strings(&["a", "b"]);
    assert!(StatCount.transform(None, Some(&fill)).is_none());
    let x = strings(&["p", "q", "p"]);
    let t = StatCount.transform(Some(&x), None).unwrap();
    assert_eq!(t.x, strings(&["p", "q"]));
    assert_eq!(t.count, vec![2, 1]);
}
