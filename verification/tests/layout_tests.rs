use ggc::layout::{
    faceted_grid_layout, faceted_wrap_layout, standard_plot_layout, LayoutNode, PlotRegion, RegionKey,
    SizeSpec, SplitAxis,
};
use ggc::theme::ThemeSizes;

fn has(regions: &[RegionKey], k: RegionKey) -> bool {
    regions.contains(&k)
}

#[test]
fn spacer_not_in_resolved_map() {
    let layout = standard_plot_layout(true, true, true, &ThemeSizes::default());
    let regions = layout.regions();
    assert!(!has(&regions, RegionKey::shared(PlotRegion::Spacer)));
}

#[test]
fn layout_with_legend_has_all_regions() {
    let layout = standard_plot_layout(true, true, true, &ThemeSizes::default());
    let regions = layout.regions();
    assert!(has(&regions, RegionKey::shared(PlotRegion::DataArea)));
    assert!(has(&regions, RegionKey::shared(PlotRegion::XAxisGutter)));
    assert!(has(&regions, RegionKey::shared(PlotRegion::YAxisGutter)));
    assert!(has(&regions, RegionKey::shared(PlotRegion::Title)));
    assert!(has(&regions, RegionKey::shared(PlotRegion::Legend)));
    assert!(has(&regions, RegionKey::shared(PlotRegion::Caption)));
}

#[test]
fn layout_without_optional_regions() {
    let layout = standard_plot_layout(false, false, false, &ThemeSizes::default());
    let regions = layout.regions();
    assert!(!has(&regions, RegionKey::shared(PlotRegion::Title)));
    assert!(!has(&regions, RegionKey::shared(PlotRegion::Legend)));
    assert!(!has(&regions, RegionKey::shared(PlotRegion::Caption)));
    assert!(has(&regions, RegionKey::shared(PlotRegion::DataArea)));
}

#[test]
fn standard_layout_shape() {
    let sizes = ThemeSizes::default();
    let layout = standard_plot_layout(true, false, false, &sizes);
    match &layout {
        LayoutNode::Split { axis: SplitAxis::Vertical, children } => {
            assert_eq!(children.len(), 2);
            assert_eq!(children[0].0, SizeSpec::Pixels(110));
            assert!(matches!(children[0].1, LayoutNode::Leaf(k) if k == RegionKey::shared(PlotRegion::Title)));
            assert_eq!(children[1].0, SizeSpec::Flex(1));
        }
        _ => panic!("Expected a vertical split"),
    }
    assert_eq!(
        layout.regions(),
        vec![
            RegionKey::shared(PlotRegion::Title),
            RegionKey::shared(PlotRegion::YAxisGutter),
            RegionKey::shared(PlotRegion::DataArea),
            RegionKey::shared(PlotRegion::XAxisGutter),
        ]
    );
}

#[test]
fn faceted_wrap_layout_resolves_all_panels() {
    let layout = faceted_wrap_layout(3, None, true, false, false, false, &ThemeSizes::default());
    let regions = layout.regions();
    for i in 0..3 {
        assert!(has(&regions, RegionKey::panel(PlotRegion::DataArea, i)), "panel {} DataArea missing", i);
        assert!(has(&regions, RegionKey::panel(PlotRegion::FacetLabel, i)), "panel {} FacetLabel missing", i);
    }
    assert!(has(&regions, RegionKey::panel(PlotRegion::YAxisGutter, 0)));
    assert!(has(&regions, RegionKey::panel(PlotRegion::YAxisGutter, 1)));
    assert!(has(&regions, RegionKey::shared(PlotRegion::Title)));
}

#[test]
fn facet_columns_override() {
    let layout = faceted_wrap_layout(4, Some(4), false, false, false, false, &ThemeSizes::default());
    let regions = layout.regions();
    for i in 0..4 {
        assert!(has(&regions, RegionKey::panel(PlotRegion::DataArea, i)));
    }
    assert!(!has(&regions, RegionKey::panel(PlotRegion::YAxisGutter, 1)));
}

#[test]
fn facet_wrap_free_y_gives_each_panel_a_gutter() {
    let layout = faceted_wrap_layout(5, None, false, false, true, true, &ThemeSizes::default());
    let regions = layout.regions();
    for i in 0..5 {
        assert!(has(&regions, RegionKey::panel(PlotRegion::YAxisGutter, i)));
    }
    assert!(!has(&regions, RegionKey::panel(PlotRegion::DataArea, 5)));
    assert!(has(&regions, RegionKey::shared(PlotRegion::Legend)));
}

#[test]
fn facet_grid_layout_resolves() {
    let layout = faceted_grid_layout(2, 3, true, false, false, &ThemeSizes::default());
    let regions = layout.regions();
    for i in 0..6 {
        assert!(has(&regions, RegionKey::panel(PlotRegion::DataArea, i)), "panel {} DataArea missing", i);
    }
    for i in 0..3 {
        assert!(has(&regions, RegionKey::panel(PlotRegion::FacetColLabel, i)), "col label {} missing", i);
    }
    for i in 0..2 {
        assert!(has(&regions, RegionKey::panel(PlotRegion::FacetRowLabel, i)), "row label {} missing", i);
    }
}
