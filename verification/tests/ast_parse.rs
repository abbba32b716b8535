use ggc::ast::{
    parse, AstAesthetic, CoordType, FacetSpec, GeomAttribute, GeometryType, LiteralValue,
    PositionAdjustment, ScaleFreedom, ScaleType, Statement,
};

#[test]
fn test_parse_basic() {
    let source = "MAP x=:x, y=:y\nGEOM POINT";
    let program = parse(source).expect("Parse should succeed");
    assert_eq!(program.statements.len(), 2);

    match &program.statements[0] {
        Statement::Mappings(mappings) => {
            assert_eq!(mappings.len(), 2);
            assert_eq!(mappings[0].column, "x");
            assert!(matches!(mappings[0].aesthetic, AstAesthetic::X));
            assert_eq!(mappings[1].column, "y");
            assert!(matches!(mappings[1].aesthetic, AstAesthetic::Y));
        }
        _ => panic!("Expected Map statement"),
    }

    match &program.statements[1] {
        Statement::Geom(GeometryType::Point, attrs, _, _) => assert!(attrs.is_empty()),
        _ => panic!("Expected Geom Point statement"),
    }
}

#[test]
fn test_parse_color_aesthetic() {
    let source = "MAP x=:x, y=:y, color=:species\nGEOM POINT";
    let program = parse(source).expect("Parse should succeed");
    assert_eq!(program.statements.len(), 2);

    match &program.statements[0] {
        Statement::Mappings(mappings) => {
            assert_eq!(mappings.len(), 3);
            assert_eq!(mappings[2].column, "species");
            assert!(matches!(mappings[2].aesthetic, AstAesthetic::Color));
        }
        _ => panic!("Expected Map statement"),
    }
}

#[test]
fn test_parse_geom_line_with_group() {
    let source = "MAP x=:day, y=:price, group=:ticker\nGEOM LINE";
    let program = parse(source).expect("Parse should succeed");
    assert_eq!(program.statements.len(), 2);

    match &program.statements[0] {
        Statement::Mappings(mappings) => {
            assert_eq!(mappings.len(), 3);
            assert_eq!(mappings[0].column, "day");
            assert!(matches!(mappings[0].aesthetic, AstAesthetic::X));
            assert_eq!(mappings[1].column, "price");
            assert!(matches!(mappings[1].aesthetic, AstAesthetic::Y));
            assert_eq!(mappings[2].column, "ticker");
            assert!(matches!(mappings[2].aesthetic, AstAesthetic::Group));
        }
        _ => panic!("Expected Map statement"),
    }

    match &program.statements[1] {
        Statement::Geom(GeometryType::Line, attrs, _, _) => assert!(attrs.is_empty()),
        _ => panic!("Expected Geom Line statement"),
    }
}

#[test]
fn test_parse_labels() {
    let source = "MAP x=:x, y=:y\nGEOM POINT\nTITLE \"My Plot\"\nXLABEL \"X Axis\"\nYLABEL \"Y Axis\"\nCAPTION \"Source: data\"";
    let program = parse(source).expect("Parse should succeed");
    assert_eq!(program.statements.len(), 6);

    match &program.statements[2] {
        Statement::Title(s) => assert_eq!(s, "My Plot"),
        _ => panic!("Expected Title statement"),
    }
    match &program.statements[3] {
        Statement::XLabel(s) => assert_eq!(s, "X Axis"),
        _ => panic!("Expected XLabel statement"),
    }
    match &program.statements[4] {
        Statement::YLabel(s) => assert_eq!(s, "Y Axis"),
        _ => panic!("Expected YLabel statement"),
    }
    match &program.statements[5] {
        Statement::Caption(s) => assert_eq!(s, "Source: data"),
        _ => panic!("Expected Caption statement"),
    }
}

#[test]
fn test_parse_geom_with_constant_color() {
    let source = "MAP x=:x, y=:y\nGEOM POINT { color=\"#FF0000\" }";
    let program = parse(source).expect("Parse should succeed");
    assert_eq!(program.statements.len(), 2);
    match &program.statements[1] {
        Statement::Geom(GeometryType::Point, attrs, _, _) => {
            assert_eq!(attrs.len(), 1);
            match &attrs[0] {
                GeomAttribute::Constant(AstAesthetic::Color, LiteralValue::Str(s)) => {
                    assert_eq!(s, "#FF0000");
                }
                _ => panic!("Expected constant color attribute"),
            }
        }
        _ => panic!("Expected Geom Point"),
    }
}

#[test]
fn test_parse_geom_with_per_layer_mapping() {
    let source = "MAP x=:year, y=:a\nGEOM POINT { y=:b }";
    let program = parse(source).expect("Parse should succeed");
    assert_eq!(program.statements.len(), 2);
    match &program.statements[1] {
        Statement::Geom(GeometryType::Point, attrs, _, _) => {
            assert_eq!(attrs.len(), 1);
            match &attrs[0] {
                GeomAttribute::Mapped(AstAesthetic::Y, col) => {
                    assert_eq!(col, "b");
                }
                _ => panic!("Expected mapped y attribute"),
            }
        }
        _ => panic!("Expected Geom Point"),
    }
}

#[test]
fn test_parse_geom_mixed_attributes() {
    let source = "GEOM LINE { y=:revenue, color=\"#0000FF\" }";
    let program = parse(source).expect("Parse should succeed");
    match &program.statements[0] {
        Statement::Geom(GeometryType::Line, attrs, _, _) => {
            assert_eq!(attrs.len(), 2);
        }
        _ => panic!("Expected Geom Line"),
    }
}

#[test]
fn test_parse_facet_wrap() {
    let source = "MAP x=:x, y=:y\nGEOM POINT\nFACET WRAP :region";
    let program = parse(source).expect("Parse should succeed");
    assert_eq!(program.statements.len(), 3);
    match &program.statements[2] {
        Statement::Facet(FacetSpec::Wrap {
            variable,
            columns,
            scales,
        }) => {
            assert_eq!(variable, "region");
            assert!(columns.is_none());
            assert_eq!(*scales, ScaleFreedom::Fixed);
        }
        _ => panic!("Expected Facet Wrap statement"),
    }
}

#[test]
fn test_parse_facet_wrap_with_columns() {
    let source = "FACET WRAP :group COLUMNS 3";
    let program = parse(source).expect("Parse should succeed");
    match &program.statements[0] {
        Statement::Facet(FacetSpec::Wrap {
            variable,
            columns,
            scales,
        }) => {
            assert_eq!(variable, "group");
            assert_eq!(*columns, Some(3));
            assert_eq!(*scales, ScaleFreedom::Fixed);
        }
        _ => panic!("Expected Facet Wrap statement"),
    }
}

#[test]
fn test_parse_facet_wrap_scales_free() {
    let source = "FACET WRAP :store SCALES FREE";
    let program = parse(source).expect("Parse should succeed");
    match &program.statements[0] {
        Statement::Facet(FacetSpec::Wrap { variable, scales, .. }) => {
            assert_eq!(variable, "store");
            assert_eq!(*scales, ScaleFreedom::Free);
        }
        _ => panic!("Expected Facet Wrap with FREE scales"),
    }
}

#[test]
fn test_parse_facet_wrap_scales_free_x() {
    let source = "FACET WRAP :store SCALES FREE X";
    let program = parse(source).expect("Parse should succeed");
    match &program.statements[0] {
        Statement::Facet(FacetSpec::Wrap { scales, .. }) => {
            assert_eq!(*scales, ScaleFreedom::FreeX);
        }
        _ => panic!("Expected Facet Wrap with FREE X scales"),
    }
}

#[test]
fn test_parse_facet_wrap_scales_free_y() {
    let source = "FACET WRAP :store SCALES FREE Y";
    let program = parse(source).expect("Parse should succeed");
    match &program.statements[0] {
        Statement::Facet(FacetSpec::Wrap { scales, .. }) => {
            assert_eq!(*scales, ScaleFreedom::FreeY);
        }
        _ => panic!("Expected Facet Wrap with FREE Y scales"),
    }
}

#[test]
fn test_parse_facet_wrap_scales_fixed() {
    let source = "FACET WRAP :store SCALES FIXED";
    let program = parse(source).expect("Parse should succeed");
    match &program.statements[0] {
        Statement::Facet(FacetSpec::Wrap { scales, .. }) => {
            assert_eq!(*scales, ScaleFreedom::Fixed);
        }
        _ => panic!("Expected Facet Wrap with FIXED scales"),
    }
}

#[test]
fn test_parse_facet_wrap_columns_and_scales() {
    let source = "FACET WRAP :store COLUMNS 3 SCALES FREE";
    let program = parse(source).expect("Parse should succeed");
    match &program.statements[0] {
        Statement::Facet(FacetSpec::Wrap {
            variable,
            columns,
            scales,
        }) => {
            assert_eq!(variable, "store");
            assert_eq!(*columns, Some(3));
            assert_eq!(*scales, ScaleFreedom::Free);
        }
        _ => panic!("Expected Facet Wrap with columns and scales"),
    }
}

#[test]
fn test_parse_facet_grid_rows_only() {
    let source = "FACET GRID ROWS :store";
    let program = parse(source).expect("Parse should succeed");
    match &program.statements[0] {
        Statement::Facet(FacetSpec::Grid {
            row_var,
            col_var,
            scales,
        }) => {
            assert_eq!(row_var.as_deref(), Some("store"));
            assert!(col_var.is_none());
            assert_eq!(*scales, ScaleFreedom::Fixed);
        }
        _ => panic!("Expected Facet Grid with rows only"),
    }
}

#[test]
fn test_parse_facet_grid_cols_only() {
    let source = "FACET GRID COLS :town";
    let program = parse(source).expect("Parse should succeed");
    match &program.statements[0] {
        Statement::Facet(FacetSpec::Grid {
            row_var,
            col_var,
            scales,
        }) => {
            assert!(row_var.is_none());
            assert_eq!(col_var.as_deref(), Some("town"));
            assert_eq!(*scales, ScaleFreedom::Fixed);
        }
        _ => panic!("Expected Facet Grid with cols only"),
    }
}

#[test]
fn test_parse_facet_grid_rows_cols() {
    let source = "FACET GRID ROWS :store COLS :town";
    let program = parse(source).expect("Parse should succeed");
    match &program.statements[0] {
        Statement::Facet(FacetSpec::Grid {
            row_var,
            col_var,
            scales,
        }) => {
            assert_eq!(row_var.as_deref(), Some("store"));
            assert_eq!(col_var.as_deref(), Some("town"));
            assert_eq!(*scales, ScaleFreedom::Fixed);
        }
        _ => panic!("Expected Facet Grid with rows and cols"),
    }
}

#[test]
fn test_parse_facet_grid_with_scales() {
    let source = "FACET GRID ROWS :store COLS :town SCALES FREE X";
    let program = parse(source).expect("Parse should succeed");
    match &program.statements[0] {
        Statement::Facet(FacetSpec::Grid {
            row_var,
            col_var,
            scales,
        }) => {
            assert_eq!(row_var.as_deref(), Some("store"));
            assert_eq!(col_var.as_deref(), Some("town"));
            assert_eq!(*scales, ScaleFreedom::FreeX);
        }
        _ => panic!("Expected Facet Grid with scales"),
    }
}

#[test]
fn test_parse_geom_no_attributes_backward_compat() {
    let source = "GEOM POINT";
    let program = parse(source).expect("Parse should succeed");
    match &program.statements[0] {
        Statement::Geom(GeometryType::Point, attrs, _, _) => assert!(attrs.is_empty()),
        _ => panic!("Expected Geom Point with no attrs"),
    }
}

#[test]
fn test_parse_scale_x_discrete() {
    let source = "SCALE X DISCRETE";
    let program = parse(source).expect("Parse should succeed");
    assert_eq!(program.statements.len(), 1);
    match &program.statements[0] {
        Statement::Scale(AstAesthetic::X, ScaleType::Discrete) => {}
        _ => panic!("Expected Scale(X, Discrete)"),
    }
}

#[test]
fn test_parse_scale_y_continuous() {
    let source = "SCALE Y CONTINUOUS";
    let program = parse(source).expect("Parse should succeed");
    assert_eq!(program.statements.len(), 1);
    match &program.statements[0] {
        Statement::Scale(AstAesthetic::Y, ScaleType::Continuous) => {}
        _ => panic!("Expected Scale(Y, Continuous)"),
    }
}

#[test]
fn test_parse_scale_y_log() {
    let source = "SCALE Y LOG";
    let program = parse(source).expect("Parse should succeed");
    assert_eq!(program.statements.len(), 1);
    match &program.statements[0] {
        Statement::Scale(AstAesthetic::Y, ScaleType::Log) => {}
        _ => panic!("Expected Scale(Y, Log)"),
    }
}

#[test]
fn test_parse_scale_x_log() {
    let source = "SCALE X LOG";
    let program = parse(source).expect("Parse should succeed");
    assert_eq!(program.statements.len(), 1);
    match &program.statements[0] {
        Statement::Scale(AstAesthetic::X, ScaleType::Log) => {}
        _ => panic!("Expected Scale(X, Log)"),
    }
}

#[test]
fn test_parse_scale_with_other_statements() {
    let source = "MAP x=:category, y=:value\nGEOM POINT\nSCALE X DISCRETE";
    let program = parse(source).expect("Parse should succeed");
    assert_eq!(program.statements.len(), 3);
    match &program.statements[2] {
        Statement::Scale(AstAesthetic::X, ScaleType::Discrete) => {}
        _ => panic!("Expected Scale statement"),
    }
}

#[test]
fn test_parse_geom_bar() {
    let source = "MAP x=:category\nGEOM BAR";
    let program = parse(source).expect("Parse should succeed");
    assert_eq!(program.statements.len(), 2);
    match &program.statements[1] {
        Statement::Geom(GeometryType::Bar, attrs, _, pos) => {
            assert!(attrs.is_empty());
            assert!(pos.is_none());
        }
        _ => panic!("Expected Geom Bar statement"),
    }
}

#[test]
fn test_parse_geom_bar_dodge() {
    let source = "GEOM BAR DODGE";
    let program = parse(source).expect("Parse should succeed");
    match &program.statements[0] {
        Statement::Geom(GeometryType::Bar, _, _, pos) => {
            assert!(matches!(pos, Some(PositionAdjustment::Dodge)));
        }
        _ => panic!("Expected Geom Bar with Dodge"),
    }
}

#[test]
fn test_parse_geom_bar_stack() {
    let source = "GEOM BAR STACK";
    let program = parse(source).expect("Parse should succeed");
    match &program.statements[0] {
        Statement::Geom(GeometryType::Bar, _, _, pos) => {
            assert!(matches!(pos, Some(PositionAdjustment::Stack)));
        }
        _ => panic!("Expected Geom Bar with Stack"),
    }
}

#[test]
fn test_parse_geom_bar_with_attributes_and_dodge() {
    let source = "GEOM BAR { fill=:region } DODGE";
    let program = parse(source).expect("Parse should succeed");
    match &program.statements[0] {
        Statement::Geom(GeometryType::Bar, attrs, _, pos) => {
            assert_eq!(attrs.len(), 1);
            assert!(matches!(&attrs[0], GeomAttribute::Mapped(AstAesthetic::Fill, _)));
            assert!(matches!(pos, Some(PositionAdjustment::Dodge)));
        }
        _ => panic!("Expected Geom Bar with attrs and Dodge"),
    }
}

#[test]
fn test_parse_fill_aesthetic() {
    let source = "MAP x=:year, y=:sales, fill=:region\nGEOM BAR";
    let program = parse(source).expect("Parse should succeed");
    match &program.statements[0] {
        Statement::Mappings(mappings) => {
            assert_eq!(mappings.len(), 3);
            assert!(matches!(mappings[2].aesthetic, AstAesthetic::Fill));
            assert_eq!(mappings[2].column, "region");
        }
        _ => panic!("Expected Map statement"),
    }
}

#[test]
fn test_parse_point_no_position_adjustment() {
    let source = "GEOM POINT";
    let program = parse(source).expect("Parse should succeed");
    match &program.statements[0] {
        Statement::Geom(GeometryType::Point, _, _, pos) => {
            assert!(pos.is_none());
        }
        _ => panic!("Expected Geom Point"),
    }
}

#[test]
fn test_parse_alpha_mapped() {
    let source = "MAP x=:x, y=:y, alpha=:density\nGEOM POINT";
    let program = parse(source).expect("Parse should succeed");
    match &program.statements[0] {
        Statement::Mappings(mappings) => {
            assert_eq!(mappings.len(), 3);
            assert!(matches!(mappings[2].aesthetic, AstAesthetic::Alpha));
            assert_eq!(mappings[2].column, "density");
        }
        _ => panic!("Expected Map statement"),
    }
}

#[test]
fn test_parse_alpha_constant() {
    let source = "MAP x=:x, y=:y\nGEOM POINT { alpha=0.3 }";
    let program = parse(source).expect("Parse should succeed");
    match &program.statements[1] {
        Statement::Geom(GeometryType::Point, attrs, _, _) => {
            assert_eq!(attrs.len(), 1);
            match &attrs[0] {
                GeomAttribute::Constant(AstAesthetic::Alpha, LiteralValue::Number(n)) => {
                    assert!((n.parse::<f64>().unwrap() - 0.3).abs() < 1e-9);
                }
                _ => panic!("Expected constant alpha attribute"),
            }
        }
        _ => panic!("Expected Geom Point"),
    }
}

#[test]
fn test_parse_coord_polar() {
    let source = "MAP x=:x, y=:y\nGEOM POINT\nCOORD POLAR";
    let program = parse(source).expect("Parse should succeed");
    assert_eq!(program.statements.len(), 3);
    match &program.statements[2] {
        Statement::Coord(CoordType::Polar { start }) => {
            assert!((start.parse::<f64>().unwrap() - 0.0).abs() < 1e-9);
        }
        _ => panic!("Expected Coord Polar statement"),
    }
}

#[test]
fn test_parse_coord_polar_start() {
    let source = "COORD POLAR START 1.57";
    let program = parse(source).expect("Parse should succeed");
    match &program.statements[0] {
        Statement::Coord(CoordType::Polar { start }) => {
            assert!((start.parse::<f64>().unwrap() - 1.57).abs() < 1e-9);
        }
        _ => panic!("Expected Coord Polar with start angle"),
    }
}

#[test]
fn test_parse_coord_cartesian() {
    let source = "COORD CARTESIAN";
    let program = parse(source).expect("Parse should succeed");
    match &program.statements[0] {
        Statement::Coord(CoordType::Cartesian) => {}
        _ => panic!("Expected Coord Cartesian statement"),
    }
}
