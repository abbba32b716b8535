use ggc::ast::ScaleFreedom;
use ggc::aesthetic::AestheticFamily;
use ggc::facet::{
    family_is_free, grid_row_has_x_axis, line_series_rows, panel_cells, grid_scale_sharing, panel_rows, partition_rows, stack_bars, wrap_columns,
    wrap_panel_has_x_axis, wrap_rows, x_free, y_free,
};

fn strings(v: &[&str]) -> Vec<String> {
    v.iter().map(|s| s.to_string()).collect()
}

#[test]
fn facet_wrap_splits_data_into_panels() {
    let p = partition_rows(&strings(&["a", "a", "b", "b"]));
    assert_eq!(p.keys, strings(&["a", "b"]));
    assert_eq!(p.rows, vec![vec![0, 1], vec![2, 3]]);
}

#[test]
fn geom_line_with_group_partitions() {
    let p = partition_rows(&strings(&["b", "a", "b", "c", "a"]));
    assert_eq!(p.keys, strings(&["b", "a", "c"]));
    assert_eq!(p.rows, vec![vec![0, 2], vec![1, 4], vec![3]]);
}

#[test]
fn partition_of_nothing_is_empty() {
    let p = partition_rows(&Vec::new());
    assert!(p.keys.is_empty());
    assert!(p.rows.is_empty());
}

#[test]
fn wrap_columns_default_is_ceiling_square_root() {
    assert_eq!(wrap_columns(0, None), 1);
    assert_eq!(wrap_columns(1, None), 1);
    assert_eq!(wrap_columns(3, None), 2);
    assert_eq!(wrap_columns(4, None), 2);
    assert_eq!(wrap_columns(5, None), 3);
    assert_eq!(wrap_columns(10, None), 4);
    assert_eq!(wrap_columns(10, Some(3)), 3);
    assert_eq!(wrap_columns(10, Some(0)), 1);
}

#[test]
fn wrap_rows_round_up() {
    assert_eq!(wrap_rows(0, 3), 0);
    assert_eq!(wrap_rows(3, 2), 2);
    assert_eq!(wrap_rows(4, 2), 2);
    assert_eq!(wrap_rows(7, 3), 3);
}

#[test]
fn grid_panel_rows_intersect() {
    let rows = vec![0, 2, 4, 6];
    let cols = vec![1, 2, 3, 6];
    assert_eq!(panel_rows(Some(&rows), Some(&cols), 8), vec![2, 6]);
    assert_eq!(panel_rows(Some(&rows), None, 8), rows);
    assert_eq!(panel_rows(None, Some(&cols), 8), cols);
    assert_eq!(panel_rows(None, None, 3), vec![0, 1, 2]);
}

#[test]
fn scale_freedom_flags() {
    assert!(x_free(ScaleFreedom::Free) && y_free(ScaleFreedom::Free));
    assert!(x_free(ScaleFreedom::FreeX) && !y_free(ScaleFreedom::FreeX));
    assert!(!x_free(ScaleFreedom::Fixed) && !y_free(ScaleFreedom::Fixed));
    let s = grid_scale_sharing(ScaleFreedom::FreeY, false, true);
    assert!(!s.y_per_row && s.y_per_col && !s.x_per_col && !s.x_per_row);
    let s = grid_scale_sharing(ScaleFreedom::Free, true, true);
    assert!(s.y_per_row && !s.y_per_col && s.x_per_col && !s.x_per_row);
}

#[test]
fn axis_placement_in_facets() {
    assert!(family_is_free(ScaleFreedom::FreeY, AestheticFamily::VerticalPosition));
    assert!(!family_is_free(ScaleFreedom::FreeY, AestheticFamily::HorizontalPosition));
    assert!(!family_is_free(ScaleFreedom::Free, AestheticFamily::Color));
    // 5 panels in 3 columns: panels 2, 3 and 4 end their columns
    assert!(!wrap_panel_has_x_axis(0, 3, 5, false));
    assert!(!wrap_panel_has_x_axis(1, 3, 5, false));
    assert!(wrap_panel_has_x_axis(2, 3, 5, false));
    assert!(wrap_panel_has_x_axis(3, 3, 5, false));
    assert!(wrap_panel_has_x_axis(0, 3, 5, true));
    assert!(grid_row_has_x_axis(1, 2, false));
    assert!(!grid_row_has_x_axis(0, 2, false));
    assert!(grid_row_has_x_axis(0, 2, true));
}

#[test]
fn stacked_bars_follow_fill_groups_and_stack_per_slot() {
    let slots = vec![0, 1, 0, 1, 0];
    let fill = strings(&["a", "b", "b", "a", "a"]);
    let bars = stack_bars(&slots, &fill);
    let rows: Vec<usize> = bars.iter().map(|b| b.row).collect();
    assert_eq!(rows, vec![0, 3, 4, 1, 2]);
    let below: Vec<Vec<usize>> = bars.iter().map(|b| b.below.clone()).collect();
    assert_eq!(below, vec![vec![], vec![], vec![0], vec![3], vec![0, 4]]);
}

#[test]
fn line_series_need_two_rows() {
    let group = strings(&["a", "b", "a", "c", "c", "a"]);
    assert_eq!(line_series_rows(Some(&group), 6), vec![vec![0, 2, 5], vec![3, 4]]);
    assert_eq!(line_series_rows(None, 3), vec![vec![0, 1, 2]]);
    assert!(line_series_rows(None, 1).is_empty());
}

#[test]
fn panel_cells_fill_rows_and_mark_bottom_axes() {
    let cells = panel_cells(5, 2, false);
    let rc: Vec<(usize, usize, usize)> = cells.iter().map(|c| (c.panel, c.row, c.col)).collect();
    assert_eq!(rc, vec![(0, 0, 0), (1, 0, 1), (2, 1, 0), (3, 1, 1), (4, 2, 0)]);
    let axes: Vec<bool> = cells.iter().map(|c| c.x_axis).collect();
    assert_eq!(axes, vec![false, false, false, true, true]);
    assert!(panel_cells(4, 2, true).iter().all(|c| c.x_axis));
    // A 2 x 3 grid: only the bottom row draws x axes.
    let grid: Vec<bool> = panel_cells(6, 3, false).iter().map(|c| c.x_axis).collect();
    assert_eq!(grid, vec![false, false, false, true, true, true]);
}
