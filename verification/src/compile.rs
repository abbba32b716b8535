//! Compiling a parsed GQL program into a blueprint.
use vstd::prelude::*;
use crate::aesthetic::{
    hex_pairs_readable, lemma_hex_rgb_ascii, parse_hex_color, spec_aes_index, spec_hex_refusal, spec_hex_rgb, Aesthetic, ConstantValue, Mapping,
    AestheticFamily, SConstantValue, SMapping,
};
use crate::ast::{
    AstAesthetic, CoordType, DataMapping, GeomAttribute, GeometryType,
    LiteralValue, PositionAdjustment, Program, ScaleType, Statement, ThemeOverride,
    ThemeStatement,
};
use crate::error::{compile_failure, error_message, GglangError};
use crate::geom::{BarPosition, GeomBar, GeomLine, GeomPoint, LayerGeometry};
use crate::grammar::{SDataMapping, SGeomAttribute, SLiteral, SStatement, SThemeOverride, SThemeStatement};
use crate::plot::{
    empty_blueprint, no_constants, Blueprint, CoordinateSystem, Layer, LayerConstants,
    LayerStat, SBlueprint, SLayer, SThemeStep, ThemeStep,
};
use crate::scale::{spec_scale_family, Axis, ScaleKind};
use crate::theme::{spec_theme_refusal, spec_theme_setting, SThemeSetting, ThemeSetting};

verus! {

// ---------------------------------------------------------------------------
// What a program compiles to

/// The aesthetic that a GQL aesthetic name stands for; `label` and `shape`
/// have none yet.
pub open spec fn spec_ast_aesthetic(a: AstAesthetic) -> Option<Aesthetic> {
    match a {
        AstAesthetic::X => Some(Aesthetic::X),
        AstAesthetic::Y => Some(Aesthetic::Y),
        AstAesthetic::Color => Some(Aesthetic::Color),
        AstAesthetic::Fill => Some(Aesthetic::Fill),
        AstAesthetic::Group => Some(Aesthetic::Group),
        AstAesthetic::Alpha => Some(Aesthetic::Alpha),
        AstAesthetic::Label => None,
        AstAesthetic::Shape => None,
    }
}

/// The name of a GQL aesthetic, as written.
pub open spec fn spec_ast_name(a: AstAesthetic) -> Seq<char> {
    match a {
        AstAesthetic::X => "x"@,
        AstAesthetic::Y => "y"@,
        AstAesthetic::Color => "color"@,
        AstAesthetic::Fill => "fill"@,
        AstAesthetic::Group => "group"@,
        AstAesthetic::Alpha => "alpha"@,
        AstAesthetic::Label => "label"@,
        AstAesthetic::Shape => "shape"@,
    }
}

/// Why an aesthetic without a counterpart is refused.
pub open spec fn aesthetic_refusal(a: AstAesthetic) -> Seq<char> {
    match a {
        AstAesthetic::Label => "Aesthetic 'label' is not supported"@,
        _ => "Aesthetic 'shape' is not supported"@,
    }
}

/// The mappings that a `MAP` statement gives, in order, or why the first
/// refused one is refused.
pub open spec fn spec_data_mappings(dms: Seq<SDataMapping>) -> Result<Seq<SMapping>, Seq<char>>
    decreases dms.len(),
{
    if dms.len() == 0 {
        Ok(seq![])
    } else {
        match spec_data_mappings(dms.drop_last()) {
            Err(m) => Err(m),
            Ok(ms) => match spec_ast_aesthetic(dms.last().aesthetic) {
                Some(a) => Ok(ms.push(SMapping { aesthetic: a, variable: dms.last().column })),
                None => Err(aesthetic_refusal(dms.last().aesthetic)),
            },
        }
    }
}

/// The constant that a literal gives: a string must be a `#RRGGBB` color, a
/// number is kept as written. (A six-byte string whose characters straddle
/// the byte pairs that hex digits are read in is refused as an invalid digit.)
pub open spec fn spec_constant(v: SLiteral) -> Result<SConstantValue, Seq<char>> {
    match v {
        SLiteral::Str(s) => match spec_hex_rgb(s) {
            Some(c) => Ok(SConstantValue::Color(c)),
            None => Err(spec_hex_refusal(s)),
        },
        SLiteral::Number(n) => Ok(SConstantValue::Float(n)),
    }
}

/// The mappings and constants that a layer's attribute block gives: mappings
/// in order, and for each aesthetic the last constant given to it; or why the
/// first refused attribute is refused.
pub open spec fn spec_layer_parts(attrs: Seq<SGeomAttribute>) -> Result<(Seq<SMapping>, Seq<Option<SConstantValue>>), Seq<char>>
    decreases attrs.len(),
{
    if attrs.len() == 0 {
        Ok((seq![], no_constants()))
    } else {
        match spec_layer_parts(attrs.drop_last()) {
            Err(m) => Err(m),
            Ok((ms, cs)) => match attrs.last() {
                SGeomAttribute::Mapped(a, col) => match spec_ast_aesthetic(a) {
                    Some(aes) => Ok((ms.push(SMapping { aesthetic: aes, variable: col }), cs)),
                    None => Err(aesthetic_refusal(a)),
                },
                SGeomAttribute::Constant(a, v) => match spec_ast_aesthetic(a) {
                    None => Err(aesthetic_refusal(a)),
                    Some(aes) => match spec_constant(v) {
                        Ok(c) => Ok((ms, cs.update(spec_aes_index(aes), Some(c)))),
                        Err(m) => Err(m),
                    },
                },
            },
        }
    }
}

/// The aesthetics of a sequence of mappings.
pub open spec fn aesthetics_of(ms: Seq<SMapping>) -> Seq<Aesthetic> {
    ms.map_values(|m: SMapping| m.aesthetic)
}

/// The geometry and stat of a layer. A position adjustment is only for bars;
/// a bar dodges when asked to and stacks otherwise, and counts its rows when
/// `y` has not been mapped anywhere so far. `TEXT` and `HISTOGRAM` layers
/// are not supported.
pub open spec fn spec_layer_kind(kind: GeometryType, pos: Option<PositionAdjustment>, y_mapped: bool) -> Result<(LayerGeometry, LayerStat), Seq<char>> {
    if pos is Some && !(kind is Bar) {
        Err("Position adjustment (STACK/DODGE) is only supported on GEOM BAR"@)
    } else {
        match kind {
            GeometryType::Point => Ok((LayerGeometry::Point(GeomPoint), LayerStat::Identity)),
            GeometryType::Line => Ok((LayerGeometry::Line(GeomLine), LayerStat::Identity)),
            GeometryType::Bar => Ok((
                LayerGeometry::Bar(GeomBar {
                    position: if pos == Some(PositionAdjustment::Dodge) { BarPosition::Dodge } else { BarPosition::Stack },
                }),
                if y_mapped { LayerStat::Identity } else { LayerStat::Count },
            )),
            GeometryType::Text => Err("GEOM TEXT is not supported"@),
            GeometryType::Histogram => Err("GEOM HISTOGRAM is not supported"@),
        }
    }
}

/// The scale that a `SCALE` statement asks for: continuous or discrete
/// positions on `x` or `y`; nothing else is supported.
pub open spec fn spec_scale_kind(a: AstAesthetic, t: ScaleType) -> Option<ScaleKind> {
    match (a, t) {
        (AstAesthetic::X, ScaleType::Continuous) => Some(ScaleKind::PositionContinuous(Axis::X)),
        (AstAesthetic::X, ScaleType::Discrete) => Some(ScaleKind::PositionDiscrete(Axis::X)),
        (AstAesthetic::Y, ScaleType::Continuous) => Some(ScaleKind::PositionContinuous(Axis::Y)),
        (AstAesthetic::Y, ScaleType::Discrete) => Some(ScaleKind::PositionDiscrete(Axis::Y)),
        _ => None,
    }
}

/// Why a `SCALE` statement is refused.
pub open spec fn scale_refusal(a: AstAesthetic) -> Seq<char> {
    "Unsupported SCALE combination for aesthetic '"@ + spec_ast_name(a) + "'"@
}

/// The settings of an inline `THEME { ... }`, in order, or why the first
/// refused one is refused.
pub open spec fn spec_theme_settings(os: Seq<SThemeOverride>) -> Result<Seq<SThemeSetting>, Seq<char>>
    decreases os.len(),
{
    if os.len() == 0 {
        Ok(seq![])
    } else {
        match spec_theme_settings(os.drop_last()) {
            Err(m) => Err(m),
            Ok(ss) => match spec_theme_setting(os.last().key, os.last().value) {
                Some(s) => Ok(ss.push(s)),
                None => Err(spec_theme_refusal(os.last().key, os.last().value)),
            },
        }
    }
}

/// Compilation state: the blueprint so far, and every aesthetic mapped so
/// far (by `MAP` statements and by layers).
pub struct CompileState {
    pub blueprint: SBlueprint,
    pub mapped: Seq<Aesthetic>,
}

/// What one statement does to the state, or why it is refused.
pub open spec fn compile_step(st: CompileState, s: SStatement) -> Result<CompileState, Seq<char>> {
    let bp = st.blueprint;
    match s {
        SStatement::Mappings(dms) => match spec_data_mappings(dms) {
            Ok(ms) => Ok(CompileState {
                blueprint: SBlueprint { mappings: bp.mappings + ms, ..bp },
                mapped: st.mapped + aesthetics_of(ms),
            }),
            Err(m) => Err(m),
        },
        SStatement::Geom(kind, attrs, _bins, pos) => match spec_layer_parts(attrs) {
            Err(m) => Err(m),
            Ok((lm, lc)) => {
                let mapped = st.mapped + aesthetics_of(lm);
                match spec_layer_kind(kind, pos, mapped.contains(Aesthetic::Y)) {
                    Err(m) => Err(m),
                    Ok((g, stat)) => Ok(CompileState {
                        blueprint: SBlueprint {
                            layers: bp.layers.push(SLayer { geometry: g, mappings: lm, constants: lc, stat }),
                            ..bp
                        },
                        mapped,
                    }),
                }
            },
        },
        SStatement::Scale(a, t) => match spec_scale_kind(a, t) {
            Some(k) => Ok(CompileState { blueprint: SBlueprint { scales: bp.scales.push(k), ..bp }, ..st }),
            None => Err(scale_refusal(a)),
        },
        SStatement::Facet(f) => Ok(CompileState { blueprint: SBlueprint { facet: Some(f), ..bp }, ..st }),
        SStatement::Title(t) => Ok(CompileState { blueprint: SBlueprint { title: Some(t), ..bp }, ..st }),
        SStatement::Caption(t) => Ok(CompileState { blueprint: SBlueprint { caption: Some(t), ..bp }, ..st }),
        SStatement::XLabel(t) => Ok(CompileState { blueprint: SBlueprint { x_label: Some(t), ..bp }, ..st }),
        SStatement::YLabel(t) => Ok(CompileState { blueprint: SBlueprint { y_label: Some(t), ..bp }, ..st }),
        SStatement::Coord(c) => Ok(CompileState { blueprint: SBlueprint { coordinates: c, ..bp }, ..st }),
        SStatement::Theme(SThemeStatement::Inline(os)) => match spec_theme_settings(os) {
            Ok(ss) => Ok(CompileState {
                blueprint: SBlueprint { theme_steps: bp.theme_steps.push(SThemeStep::Settings(ss)), ..bp },
                ..st
            }),
            Err(m) => Err(m),
        },
        SStatement::Theme(SThemeStatement::File(p)) => Ok(CompileState {
            blueprint: SBlueprint { theme_steps: bp.theme_steps.push(SThemeStep::File(p)), ..bp },
            ..st
        }),
    }
}

/// The state after the statements, in order, from an empty blueprint; or
/// why the first refused statement is refused.
pub open spec fn compile_prefix(stmts: Seq<SStatement>) -> Result<CompileState, Seq<char>>
    decreases stmts.len(),
{
    if stmts.len() == 0 {
        Ok(CompileState { blueprint: empty_blueprint(), mapped: seq![] })
    } else {
        match compile_prefix(stmts.drop_last()) {
            Ok(st) => compile_step(st, stmts.last()),
            Err(m) => Err(m),
        }
    }
}

/// The blueprint that a program compiles to, or why it is refused.
pub open spec fn spec_compile(stmts: Seq<SStatement>) -> Result<SBlueprint, Seq<char>> {
    match compile_prefix(stmts) {
        Ok(st) => Ok(st.blueprint),
        Err(m) => Err(m),
    }
}

} // verus!

verus! {

// ---------------------------------------------------------------------------
// Failures of a prefix are failures of the whole

proof fn lemma_data_mappings_fail(s: Seq<SDataMapping>, i: int)
    requires
        0 <= i <= s.len(),
        spec_data_mappings(s.take(i)) is Err,
    ensures
        spec_data_mappings(s) == spec_data_mappings(s.take(i)),
    decreases s.len() - i,
{
    if i < s.len() {
        assert(s.take(i + 1).drop_last() =~= s.take(i));
        lemma_data_mappings_fail(s, i + 1);
    } else {
        assert(s.take(i) =~= s);
    }
}

proof fn lemma_layer_parts_fail(s: Seq<SGeomAttribute>, i: int)
    requires
        0 <= i <= s.len(),
        spec_layer_parts(s.take(i)) is Err,
    ensures
        spec_layer_parts(s) == spec_layer_parts(s.take(i)),
    decreases s.len() - i,
{
    if i < s.len() {
        assert(s.take(i + 1).drop_last() =~= s.take(i));
        lemma_layer_parts_fail(s, i + 1);
    } else {
        assert(s.take(i) =~= s);
    }
}

proof fn lemma_theme_settings_fail(s: Seq<SThemeOverride>, i: int)
    requires
        0 <= i <= s.len(),
        spec_theme_settings(s.take(i)) is Err,
    ensures
        spec_theme_settings(s) == spec_theme_settings(s.take(i)),
    decreases s.len() - i,
{
    if i < s.len() {
        assert(s.take(i + 1).drop_last() =~= s.take(i));
        lemma_theme_settings_fail(s, i + 1);
    } else {
        assert(s.take(i) =~= s);
    }
}

proof fn lemma_compile_prefix_fail(s: Seq<SStatement>, i: int)
    requires
        0 <= i <= s.len(),
        compile_prefix(s.take(i)) is Err,
    ensures
        compile_prefix(s) == compile_prefix(s.take(i)),
    decreases s.len() - i,
{
    if i < s.len() {
        assert(s.take(i + 1).drop_last() =~= s.take(i));
        lemma_compile_prefix_fail(s, i + 1);
    } else {
        assert(s.take(i) =~= s);
    }
}

// ---------------------------------------------------------------------------
// The compiler

fn ast_aesthetic_name(aes: AstAesthetic) -> (r: &'static str)
    ensures
        r@ == spec_ast_name(aes),
{
    match aes {
        AstAesthetic::X => "x",
        AstAesthetic::Y => "y",
        AstAesthetic::Color => "color",
        AstAesthetic::Fill => "fill",
        AstAesthetic::Group => "group",
        AstAesthetic::Alpha => "alpha",
        AstAesthetic::Label => "label",
        AstAesthetic::Shape => "shape",
    }
}

/// The aesthetic that a GQL aesthetic name stands for (see
/// `spec_ast_aesthetic`); one without a counterpart is a compile error.
pub fn ast_aesthetic_to_aesthetic(aes: &AstAesthetic) -> (r: Result<Aesthetic, GglangError>)
    ensures
        match r {
            Ok(a) => spec_ast_aesthetic(*aes) == Some(a),
            Err(e) => spec_ast_aesthetic(*aes) is None && e is Compile && error_message(e) == aesthetic_refusal(*aes),
        },
{
    match aes {
        AstAesthetic::X => Ok(Aesthetic::X),
        AstAesthetic::Y => Ok(Aesthetic::Y),
        AstAesthetic::Color => Ok(Aesthetic::Color),
        AstAesthetic::Fill => Ok(Aesthetic::Fill),
        AstAesthetic::Group => Ok(Aesthetic::Group),
        AstAesthetic::Alpha => Ok(Aesthetic::Alpha),
        AstAesthetic::Label => Err(compile_failure("Aesthetic 'label' is not supported")),
        AstAesthetic::Shape => Err(compile_failure("Aesthetic 'shape' is not supported")),
    }
}

fn data_mappings(dms: &Vec<DataMapping>) -> (r: Result<Vec<Mapping>, GglangError>)
    ensures
        match r {
            Ok(ms) => spec_data_mappings(dms.deep_view()) == Ok::<_, Seq<char>>(ms.deep_view()),
            Err(e) => e is Compile && (spec_data_mappings(dms.deep_view()) matches Err(m) && m == error_message(e)),
        },
{
    let ghost d = dms.deep_view();
    let mut ms: Vec<Mapping> = Vec::new();
    let mut k: usize = 0;
    assert(d.take(0) =~= Seq::<SDataMapping>::empty());
    assert(ms.deep_view() =~= Seq::<SMapping>::empty());
    while k < dms.len()
        invariant
            k <= dms.len(),
            d == dms.deep_view(),
            spec_data_mappings(d.take(k as int)) == Ok::<_, Seq<char>>(ms.deep_view()),
        decreases dms.len() - k,
    {
        assert(d.take(k as int + 1).drop_last() =~= d.take(k as int));
        assert(d.take(k as int + 1).last() == dms[k as int].deep_view());
        let a = match ast_aesthetic_to_aesthetic(&dms[k].aesthetic) {
            Ok(a) => a,
            Err(e) => {
                proof { lemma_data_mappings_fail(d, k as int + 1); }
                return Err(e);
            },
        };
        let ghost before = ms.deep_view();
        let m = Mapping { aesthetic: a, variable: dms[k].column.clone() };
        ms.push(m);
        assert(ms.deep_view() =~= before.push(m.deep_view()));
        k = k + 1;
    }
    assert(d.take(k as int) =~= d);
    Ok(ms)
}

fn literal_constant(v: &LiteralValue) -> (r: Result<ConstantValue, GglangError>)
    ensures
        match r {
            Ok(c) => spec_constant(v.deep_view()) == Ok::<_, Seq<char>>(c.deep_view()),
            Err(e) => e is Compile && (spec_constant(v.deep_view()) matches Err(m) && m == error_message(e)),
        },
{
    match v {
        LiteralValue::Str(s) => {
            if !hex_pairs_readable(s.as_str(), 6) {
                proof {
                    if spec_hex_rgb(s@) is Some {
                        lemma_hex_rgb_ascii(s@);
                    }
                }
                return Err(compile_failure("invalid digit found in string"));
            }
            match parse_hex_color(s.as_str()) {
                Ok(c) => Ok(ConstantValue::Color(c)),
                Err(m) => Err(GglangError::Compile { message: m }),
            }
        },
        LiteralValue::Number(n) => Ok(ConstantValue::Float(n.clone())),
    }
}

fn layer_parts(attrs: &Vec<GeomAttribute>) -> (r: Result<(Vec<Mapping>, LayerConstants), GglangError>)
    ensures
        match r {
            Ok((ms, cs)) => spec_layer_parts(attrs.deep_view()) == Ok::<_, Seq<char>>((ms.deep_view(), cs.deep_view())),
            Err(e) => e is Compile && (spec_layer_parts(attrs.deep_view()) matches Err(m) && m == error_message(e)),
        },
{
    let ghost d = attrs.deep_view();
    let mut ms: Vec<Mapping> = Vec::new();
    let mut cs = LayerConstants::new();
    let mut k: usize = 0;
    assert(d.take(0) =~= Seq::<SGeomAttribute>::empty());
    assert(ms.deep_view() =~= Seq::<SMapping>::empty());
    while k < attrs.len()
        invariant
            k <= attrs.len(),
            d == attrs.deep_view(),
            spec_layer_parts(d.take(k as int)) == Ok::<_, Seq<char>>((ms.deep_view(), cs.deep_view())),
        decreases attrs.len() - k,
    {
        assert(d.take(k as int + 1).drop_last() =~= d.take(k as int));
        assert(d.take(k as int + 1).last() == attrs[k as int].deep_view());
        match &attrs[k] {
            GeomAttribute::Mapped(a, col) => {
                let aes = match ast_aesthetic_to_aesthetic(a) {
                    Ok(aes) => aes,
                    Err(e) => {
                        proof { lemma_layer_parts_fail(d, k as int + 1); }
                        return Err(e);
                    },
                };
                let ghost before = ms.deep_view();
                let m = Mapping { aesthetic: aes, variable: col.clone() };
                ms.push(m);
                assert(ms.deep_view() =~= before.push(m.deep_view()));
            },
            GeomAttribute::Constant(a, v) => {
                let aes = match ast_aesthetic_to_aesthetic(a) {
                    Ok(aes) => aes,
                    Err(e) => {
                        proof { lemma_layer_parts_fail(d, k as int + 1); }
                        return Err(e);
                    },
                };
                let c = match literal_constant(v) {
                    Ok(c) => c,
                    Err(e) => {
                        proof { lemma_layer_parts_fail(d, k as int + 1); }
                        return Err(e);
                    },
                };
                cs.insert(aes, c);
            },
        }
        k = k + 1;
    }
    assert(d.take(k as int) =~= d);
    Ok((ms, cs))
}

fn layer_kind(kind: GeometryType, pos: Option<PositionAdjustment>, y_mapped: bool) -> (r: Result<(LayerGeometry, LayerStat), GglangError>)
    ensures
        match r {
            Ok(p) => spec_layer_kind(kind, pos, y_mapped) == Ok::<_, Seq<char>>(p),
            Err(e) => e is Compile && (spec_layer_kind(kind, pos, y_mapped) matches Err(m) && m == error_message(e)),
        },
{
    let on_bar = match kind {
        GeometryType::Bar => true,
        _ => false,
    };
    if pos.is_some() && !on_bar {
        return Err(compile_failure("Position adjustment (STACK/DODGE) is only supported on GEOM BAR"));
    }
    match kind {
        GeometryType::Point => Ok((LayerGeometry::Point(GeomPoint), LayerStat::Identity)),
        GeometryType::Line => Ok((LayerGeometry::Line(GeomLine), LayerStat::Identity)),
        GeometryType::Bar => {
            let position = match pos {
                Some(PositionAdjustment::Dodge) => BarPosition::Dodge,
                _ => BarPosition::Stack,
            };
            let stat = if y_mapped { LayerStat::Identity } else { LayerStat::Count };
            Ok((LayerGeometry::Bar(GeomBar { position }), stat))
        },
        GeometryType::Text => Err(compile_failure("GEOM TEXT is not supported")),
        GeometryType::Histogram => Err(compile_failure("GEOM HISTOGRAM is not supported")),
    }
}

fn scale_kind(a: AstAesthetic, t: ScaleType) -> (r: Result<ScaleKind, GglangError>)
    ensures
        match r {
            Ok(k) => spec_scale_kind(a, t) == Some(k),
            Err(e) => spec_scale_kind(a, t) is None && e is Compile && error_message(e) == scale_refusal(a),
        },
{
    match (a, t) {
        (AstAesthetic::X, ScaleType::Continuous) => Ok(ScaleKind::PositionContinuous(Axis::X)),
        (AstAesthetic::X, ScaleType::Discrete) => Ok(ScaleKind::PositionDiscrete(Axis::X)),
        (AstAesthetic::Y, ScaleType::Continuous) => Ok(ScaleKind::PositionContinuous(Axis::Y)),
        (AstAesthetic::Y, ScaleType::Discrete) => Ok(ScaleKind::PositionDiscrete(Axis::Y)),
        _ => {
            let mut m = "Unsupported SCALE combination for aesthetic '".to_owned();
            m.append(ast_aesthetic_name(a));
            m.append("'");
            Err(GglangError::Compile { message: m })
        },
    }
}

fn theme_settings(os: &Vec<ThemeOverride>) -> (r: Result<Vec<ThemeSetting>, GglangError>)
    ensures
        match r {
            Ok(ss) => spec_theme_settings(os.deep_view()) == Ok::<_, Seq<char>>(ss.deep_view()),
            Err(e) => e is Compile && (spec_theme_settings(os.deep_view()) matches Err(m) && m == error_message(e)),
        },
{
    let ghost d = os.deep_view();
    let mut ss: Vec<ThemeSetting> = Vec::new();
    let mut k: usize = 0;
    assert(d.take(0) =~= Seq::<SThemeOverride>::empty());
    assert(ss.deep_view() =~= Seq::<SThemeSetting>::empty());
    while k < os.len()
        invariant
            k <= os.len(),
            d == os.deep_view(),
            spec_theme_settings(d.take(k as int)) == Ok::<_, Seq<char>>(ss.deep_view()),
        decreases os.len() - k,
    {
        assert(d.take(k as int + 1).drop_last() =~= d.take(k as int));
        assert(d.take(k as int + 1).last() == os[k as int].deep_view());
        let s = match ThemeSetting::from_override(os[k].key.as_str(), &os[k].value) {
            Ok(s) => s,
            Err(e) => {
                proof { lemma_theme_settings_fail(d, k as int + 1); }
                return Err(e);
            },
        };
        let ghost before = ss.deep_view();
        ss.push(s);
        assert(ss.deep_view() =~= before.push(s.deep_view()));
        k = k + 1;
    }
    assert(d.take(k as int) =~= d);
    Ok(ss)
}

fn coordinate_system(c: &CoordType) -> (r: CoordinateSystem)
    ensures
        r.deep_view() == c.deep_view(),
{
    match c {
        CoordType::Cartesian => CoordinateSystem::Cartesian,
        CoordType::Polar { start } => CoordinateSystem::Polar { start: start.clone() },
    }
}

fn contains_aesthetic(v: &Vec<Aesthetic>, a: Aesthetic) -> (r: bool)
    ensures
        r == v@.contains(a),
{
    let mut k: usize = 0;
    while k < v.len()
        invariant
            k <= v.len(),
            forall|i: int| 0 <= i < k ==> v@[i] != a,
        decreases v.len() - k,
    {
        if v[k] == a {
            return true;
        }
        k = k + 1;
    }
    false
}

fn push_aesthetics(mapped: &mut Vec<Aesthetic>, ms: &Vec<Mapping>)
    ensures
        final(mapped)@ == old(mapped)@ + aesthetics_of(ms.deep_view()),
{
    let ghost start = mapped@;
    let mut k: usize = 0;
    while k < ms.len()
        invariant
            k <= ms.len(),
            mapped@ == start + aesthetics_of(ms.deep_view().take(k as int)),
        decreases ms.len() - k,
    {
        assert(aesthetics_of(ms.deep_view().take(k as int + 1)) =~= aesthetics_of(ms.deep_view().take(k as int)).push(ms[k as int].aesthetic));
        mapped.push(ms[k].aesthetic);
        k = k + 1;
    }
    assert(ms.deep_view().take(k as int) =~= ms.deep_view());
}

fn with_mappings(bp: Blueprint, ms: &Vec<Mapping>) -> (r: Blueprint)
    ensures
        r.deep_view() == (SBlueprint { mappings: bp.deep_view().mappings + ms.deep_view(), ..bp.deep_view() }),
{
    let ghost start = bp.deep_view();
    let mut bp = bp;
    let mut k: usize = 0;
    while k < ms.len()
        invariant
            k <= ms.len(),
            bp.deep_view() == (SBlueprint { mappings: start.mappings + ms.deep_view().take(k as int), ..start }),
        decreases ms.len() - k,
    {
        assert(start.mappings + ms.deep_view().take(k as int + 1) =~= (start.mappings + ms.deep_view().take(k as int)).push(ms[k as int].deep_view()));
        bp = bp.with_mapping(ms[k].clone());
        k = k + 1;
    }
    assert(ms.deep_view().take(k as int) =~= ms.deep_view());
    bp
}

/// Applies one statement to the blueprint and the aesthetics mapped so far
/// (see `compile_step`).
fn apply_statement(bp: Blueprint, mapped: &mut Vec<Aesthetic>, s: &Statement) -> (r: Result<Blueprint, GglangError>)
    ensures
        match r {
            Ok(b) => compile_step(CompileState { blueprint: bp.deep_view(), mapped: old(mapped)@ }, s.deep_view())
                == Ok::<_, Seq<char>>(CompileState { blueprint: b.deep_view(), mapped: final(mapped)@ }),
            Err(e) => e is Compile && compile_step(CompileState { blueprint: bp.deep_view(), mapped: old(mapped)@ }, s.deep_view())
                == Err::<CompileState, _>(error_message(e)),
        },
{
    match s {
        Statement::Mappings(dms) => {
            let ms = match data_mappings(dms) {
                Ok(ms) => ms,
                Err(e) => return Err(e),
            };
            push_aesthetics(mapped, &ms);
            Ok(with_mappings(bp, &ms))
        },
        Statement::Geom(kind, attrs, _bins, pos) => {
            let (lm, lc) = match layer_parts(attrs) {
                Ok(parts) => parts,
                Err(e) => return Err(e),
            };
            push_aesthetics(mapped, &lm);
            let y_mapped = contains_aesthetic(mapped, Aesthetic::Y);
            let (g, stat) = match layer_kind(*kind, *pos, y_mapped) {
                Ok(k) => k,
                Err(e) => return Err(e),
            };
            Ok(bp.with_layer(Layer::new(g, lm, lc, stat)))
        },
        Statement::Scale(a, t) => {
            let k = match scale_kind(*a, *t) {
                Ok(k) => k,
                Err(e) => return Err(e),
            };
            Ok(bp.with_scale(k))
        },
        Statement::Facet(f) => Ok(bp.with_facet_spec(f.clone())),
        Statement::Title(t) => Ok(bp.with_title(t.clone())),
        Statement::Caption(t) => Ok(bp.with_caption(t.clone())),
        Statement::XLabel(t) => Ok(bp.with_x_label(t.clone())),
        Statement::YLabel(t) => Ok(bp.with_y_label(t.clone())),
        Statement::Coord(c) => Ok(bp.with_coordinates(coordinate_system(c))),
        Statement::Theme(ThemeStatement::Inline(os)) => {
            let ss = match theme_settings(os) {
                Ok(ss) => ss,
                Err(e) => return Err(e),
            };
            Ok(bp.with_theme_step(ThemeStep::Settings(ss)))
        },
        Statement::Theme(ThemeStatement::File(p)) => Ok(bp.with_theme_step(ThemeStep::File(p.clone()))),
    }
}

/// Compiles a parsed program into a blueprint (see `spec_compile`): statements
/// are applied in order, and the first one refused is a compile error.
/// Default scales are chosen later, when the data is known; the theme steps
/// are applied by whoever reads theme files.
pub fn compile(program: &Program) -> (r: Result<Blueprint, GglangError>)
    ensures
        match r {
            Ok(b) => spec_compile(program.deep_view()) == Ok::<_, Seq<char>>(b.deep_view()),
            Err(e) => e is Compile && spec_compile(program.deep_view()) == Err::<SBlueprint, _>(error_message(e)),
        },
{
    let stmts = &program.statements;
    let ghost d = program.deep_view();
    let mut bp = Blueprint::new();
    let mut mapped: Vec<Aesthetic> = Vec::new();
    let mut k: usize = 0;
    assert(d.take(0) =~= Seq::<SStatement>::empty());
    assert(mapped@ =~= Seq::<Aesthetic>::empty());
    while k < stmts.len()
        invariant
            k <= stmts.len(),
            d == stmts.deep_view(),
            d == program.deep_view(),
            compile_prefix(d.take(k as int)) == Ok::<_, Seq<char>>(CompileState { blueprint: bp.deep_view(), mapped: mapped@ }),
        decreases stmts.len() - k,
    {
        assert(d.take(k as int + 1).drop_last() =~= d.take(k as int));
        assert(d.take(k as int + 1).last() == stmts[k as int].deep_view());
        let step = apply_statement(bp, &mut mapped, &stmts[k]);
        match step {
            Ok(b) => {
                bp = b;
            },
            Err(e) => {
                proof { lemma_compile_prefix_fail(d, k as int + 1); }
                return Err(e);
            },
        }
        k = k + 1;
    }
    assert(d.take(k as int) =~= d);
    Ok(bp)
}

} // verus!

verus! {

// ---------------------------------------------------------------------------
// Laws of compilation

/// The number of `GEOM` statements.
pub open spec fn geom_count(stmts: Seq<SStatement>) -> nat
    decreases stmts.len(),
{
    if stmts.len() == 0 {
        0
    } else {
        geom_count(stmts.drop_last()) + if stmts.last() is Geom { 1nat } else { 0nat }
    }
}

proof fn lemma_prefix_layers(stmts: Seq<SStatement>)
    requires
        compile_prefix(stmts) is Ok,
    ensures
        compile_prefix(stmts)->Ok_0.blueprint.layers.len() == geom_count(stmts),
        forall|i: int| 0 <= i < stmts.len() ==> (#[trigger] stmts[i] matches SStatement::Geom(kind, _, _, Some(_)) ==> kind is Bar),
    decreases stmts.len(),
{
    if stmts.len() > 0 {
        let init = stmts.drop_last();
        lemma_prefix_layers(init);
        assert forall|i: int| 0 <= i < stmts.len() implies (#[trigger] stmts[i] matches SStatement::Geom(kind, _, _, Some(_)) ==> kind is Bar) by {
            if i < stmts.len() - 1 {
                assert(stmts[i] == init[i]);
            }
        }
    }
}

/// A compiled program has one layer for each `GEOM` statement.
pub proof fn law_one_layer_per_geom(stmts: Seq<SStatement>)
    requires
        spec_compile(stmts) is Ok,
    ensures
        spec_compile(stmts)->Ok_0.layers.len() == geom_count(stmts),
{
    lemma_prefix_layers(stmts);
}

/// A program compiles only if every position adjustment (`STACK`, `DODGE`)
/// in it stands on a `GEOM BAR`.
pub proof fn law_position_only_on_bars(stmts: Seq<SStatement>)
    requires
        spec_compile(stmts) is Ok,
    ensures
        forall|i: int| 0 <= i < stmts.len() ==> (#[trigger] stmts[i] matches SStatement::Geom(kind, _, _, Some(_)) ==> kind is Bar),
{
    lemma_prefix_layers(stmts);
}

/// Once a statement is refused, the whole program is refused for that
/// reason, whatever follows it.
pub proof fn law_refusal_is_final(stmts: Seq<SStatement>, i: int)
    requires
        0 <= i <= stmts.len(),
        compile_prefix(stmts.take(i)) is Err,
    ensures
        spec_compile(stmts) == Err::<SBlueprint, Seq<char>>(compile_prefix(stmts.take(i))->Err_0),
{
    lemma_compile_prefix_fail(stmts, i);
}

/// A `SCALE` statement on a compiled prefix: `SCALE X|Y DISCRETE` adds a
/// discrete position scale and `SCALE X|Y CONTINUOUS` a continuous one, on
/// the axis that the target names (x horizontal, y vertical), after the
/// scales already there; nothing else changes. Any other combination refuses
/// the program.
pub proof fn law_scale_statement_adds_named_scale(stmts: Seq<SStatement>, a: AstAesthetic, t: ScaleType)
    requires
        compile_prefix(stmts) is Ok,
    ensures
        ({
            let before = compile_prefix(stmts)->Ok_0;
            let after = compile_prefix(stmts.push(SStatement::Scale(a, t)));
            if (a is X || a is Y) && (t is Discrete || t is Continuous) {
                &&& after is Ok
                &&& after->Ok_0.mapped == before.mapped
                &&& after->Ok_0.blueprint.layers == before.blueprint.layers
                &&& after->Ok_0.blueprint.mappings == before.blueprint.mappings
                &&& after->Ok_0.blueprint.scales.len() == before.blueprint.scales.len() + 1
                &&& after->Ok_0.blueprint.scales.drop_last() == before.blueprint.scales
                &&& {
                    let k = after->Ok_0.blueprint.scales.last();
                    &&& (k is PositionDiscrete <==> t is Discrete)
                    &&& (k is PositionContinuous <==> t is Continuous)
                    &&& spec_scale_family(k) == (if a is X {
                        AestheticFamily::HorizontalPosition
                    } else {
                        AestheticFamily::VerticalPosition
                    })
                }
            } else {
                after == Err::<CompileState, Seq<char>>(scale_refusal(a))
            }
        }),
{
    let s2 = stmts.push(SStatement::Scale(a, t));
    assert(s2.drop_last() =~= stmts);
    assert(s2.last() == SStatement::Scale(a, t));
    let before = compile_prefix(stmts)->Ok_0;
    if (a is X || a is Y) && (t is Discrete || t is Continuous) {
        let k = spec_scale_kind(a, t)->Some_0;
        assert(before.blueprint.scales.push(k).drop_last() =~= before.blueprint.scales);
    }
}

} // verus!
