//! Abstract syntax of GQL programs, and their parser.
use vstd::prelude::*;
use crate::error::{error_message, error_with_detail, parse_failure, GglangError};
use crate::grammar::{
    aesthetic_named, all_digits, bounded_natural, digits_value, geometry_named, is_colon,
    is_comma, is_eq, is_kw, is_lbrace, is_rbrace, num_at, p_attribute, p_attribute_block,
    p_attributes, p_bins, p_columns, p_coord, p_data_ref, p_facet, p_freedom, p_geom,
    p_grid_vars, p_mapping, p_mappings, p_position, p_program, p_scale, p_statement,
    p_string_arg, p_theme, p_theme_attribute, p_theme_attributes, p_theme_file,
    scale_target_named, scale_type_named, spec_parse, spec_parse_theme_file, str_at, word_at,
    lemma_statement_progress, SCoordType, SDataMapping, SFacetSpec, SGeomAttribute, SLiteral,
    SStatement, SThemeOverride, SThemeStatement,
};
use crate::lexer::{is_digit, lex, spec_lex, Token};
use crate::text::{chars_equal, chars_of, string_of};

verus! {

/// A parsed program: its statements in source order.
pub struct Program {
    pub statements: Vec<Statement>,
}

#[derive(Debug, Clone, Copy, PartialEq, Eq, Structural)]
pub enum ScaleFreedom {
    Fixed,
    FreeX,
    FreeY,
    Free,
}

pub enum FacetSpec {
    Wrap { variable: String, columns: Option<u32>, scales: ScaleFreedom },
    Grid { row_var: Option<String>, col_var: Option<String>, scales: ScaleFreedom },
}

#[derive(Debug, Clone, Copy, PartialEq, Eq, Structural)]
pub enum ScaleType {
    Continuous,
    Discrete,
    Log,
}

pub enum Statement {
    Mappings(Vec<DataMapping>),
    Geom(GeometryType, Vec<GeomAttribute>, Option<usize>, Option<PositionAdjustment>),
    Scale(AstAesthetic, ScaleType),
    Facet(FacetSpec),
    Title(String),
    Caption(String),
    XLabel(String),
    YLabel(String),
    Coord(CoordType),
    Theme(ThemeStatement),
}

pub enum ThemeStatement {
    Inline(Vec<ThemeOverride>),
    File(String),
}

pub struct ThemeOverride {
    pub key: String,
    pub value: LiteralValue,
}

/// A literal value. A number is kept as it is written (an optional `-`,
/// digits, optionally `.` and digits); its readers convert it.
pub enum LiteralValue {
    Str(String),
    Number(String),
}

pub enum GeomAttribute {
    Mapped(AstAesthetic, String),
    Constant(AstAesthetic, LiteralValue),
}

pub struct DataMapping {
    pub column: String,
    pub aesthetic: AstAesthetic,
}

#[derive(Debug, Clone, Copy, PartialEq, Eq, Structural)]
pub enum AstAesthetic {
    X,
    Y,
    Color,
    Fill,
    Group,
    Alpha,
    Label,
    Shape,
}

#[derive(Debug, Clone, Copy, PartialEq, Eq, Structural)]
pub enum GeometryType {
    Point,
    Line,
    Bar,
    Text,
    Histogram,
}

#[derive(Debug, Clone, Copy, PartialEq, Eq, Structural)]
pub enum PositionAdjustment {
    Stack,
    Dodge,
}

/// A coordinate system; the polar start angle is kept as written.
pub enum CoordType {
    Cartesian,
    Polar { start: String },
}

pub open spec fn opt_string_view(o: Option<String>) -> Option<Seq<char>> {
    match o {
        Some(s) => Some(s@),
        None => None,
    }
}

impl DeepView for LiteralValue {
    type V = SLiteral;

    open spec fn deep_view(&self) -> SLiteral {
        match self {
            LiteralValue::Str(s) => SLiteral::Str(s@),
            LiteralValue::Number(s) => SLiteral::Number(s@),
        }
    }
}

impl DeepView for DataMapping {
    type V = SDataMapping;

    open spec fn deep_view(&self) -> SDataMapping {
        SDataMapping { column: self.column@, aesthetic: self.aesthetic }
    }
}

impl DeepView for GeomAttribute {
    type V = SGeomAttribute;

    open spec fn deep_view(&self) -> SGeomAttribute {
        match self {
            GeomAttribute::Mapped(a, c) => SGeomAttribute::Mapped(*a, c@),
            GeomAttribute::Constant(a, v) => SGeomAttribute::Constant(*a, v.deep_view()),
        }
    }
}

impl DeepView for FacetSpec {
    type V = SFacetSpec;

    open spec fn deep_view(&self) -> SFacetSpec {
        match self {
            FacetSpec::Wrap { variable, columns, scales } => SFacetSpec::Wrap {
                variable: variable@,
                columns: *columns,
                scales: *scales,
            },
            FacetSpec::Grid { row_var, col_var, scales } => SFacetSpec::Grid {
                row_var: opt_string_view(*row_var),
                col_var: opt_string_view(*col_var),
                scales: *scales,
            },
        }
    }
}

fn clone_opt_string(o: &Option<String>) -> (r: Option<String>)
    ensures
        opt_string_view(r) == opt_string_view(*o),
{
    match o {
        Some(s) => Some(s.clone()),
        None => None,
    }
}

impl Clone for FacetSpec {
    fn clone(&self) -> (r: Self)
        ensures
            r.deep_view() == self.deep_view(),
    {
        match self {
            FacetSpec::Wrap { variable, columns, scales } => FacetSpec::Wrap {
                variable: variable.clone(),
                columns: *columns,
                scales: *scales,
            },
            FacetSpec::Grid { row_var, col_var, scales } => FacetSpec::Grid {
                row_var: clone_opt_string(row_var),
                col_var: clone_opt_string(col_var),
                scales: *scales,
            },
        }
    }
}

impl DeepView for CoordType {
    type V = SCoordType;

    open spec fn deep_view(&self) -> SCoordType {
        match self {
            CoordType::Cartesian => SCoordType::Cartesian,
            CoordType::Polar { start } => SCoordType::Polar { start: start@ },
        }
    }
}

impl DeepView for ThemeOverride {
    type V = SThemeOverride;

    open spec fn deep_view(&self) -> SThemeOverride {
        SThemeOverride { key: self.key@, value: self.value.deep_view() }
    }
}

impl DeepView for ThemeStatement {
    type V = SThemeStatement;

    open spec fn deep_view(&self) -> SThemeStatement {
        match self {
            ThemeStatement::Inline(os) => SThemeStatement::Inline(os.deep_view()),
            ThemeStatement::File(p) => SThemeStatement::File(p@),
        }
    }
}

impl DeepView for Statement {
    type V = SStatement;

    open spec fn deep_view(&self) -> SStatement {
        match self {
            Statement::Mappings(ms) => SStatement::Mappings(ms.deep_view()),
            Statement::Geom(g, attrs, bins, pos) => SStatement::Geom(*g, attrs.deep_view(), *bins, *pos),
            Statement::Scale(a, t) => SStatement::Scale(*a, *t),
            Statement::Facet(f) => SStatement::Facet(f.deep_view()),
            Statement::Title(s) => SStatement::Title(s@),
            Statement::Caption(s) => SStatement::Caption(s@),
            Statement::XLabel(s) => SStatement::XLabel(s@),
            Statement::YLabel(s) => SStatement::YLabel(s@),
            Statement::Coord(c) => SStatement::Coord(c.deep_view()),
            Statement::Theme(t) => SStatement::Theme(t.deep_view()),
        }
    }
}

impl DeepView for Program {
    type V = Seq<SStatement>;

    open spec fn deep_view(&self) -> Seq<SStatement> {
        self.statements.deep_view()
    }
}

} // verus!

verus! {

// ---------------------------------------------------------------------------
// Token access

fn word_at_x(toks: &Vec<Token>, i: usize) -> (r: Option<&Vec<char>>)
    ensures
        match r {
            Some(w) => word_at(toks.deep_view(), i as int) == Some(w@),
            None => word_at(toks.deep_view(), i as int) is None,
        },
        r is Some ==> i < toks.len(),
{
    if i < toks.len() {
        match &toks[i] {
            Token::Word(w) => Some(w),
            _ => None,
        }
    } else {
        None
    }
}

fn num_at_x(toks: &Vec<Token>, i: usize) -> (r: Option<&Vec<char>>)
    ensures
        match r {
            Some(w) => num_at(toks.deep_view(), i as int) == Some(w@),
            None => num_at(toks.deep_view(), i as int) is None,
        },
        r is Some ==> i < toks.len(),
{
    if i < toks.len() {
        match &toks[i] {
            Token::Num(w) => Some(w),
            _ => None,
        }
    } else {
        None
    }
}

fn str_at_x(toks: &Vec<Token>, i: usize) -> (r: Option<&Vec<char>>)
    ensures
        match r {
            Some(w) => str_at(toks.deep_view(), i as int) == Some(w@),
            None => str_at(toks.deep_view(), i as int) is None,
        },
        r is Some ==> i < toks.len(),
{
    if i < toks.len() {
        match &toks[i] {
            Token::Str(w) => Some(w),
            _ => None,
        }
    } else {
        None
    }
}

fn kw_at(toks: &Vec<Token>, i: usize, kw: &str) -> (r: bool)
    ensures
        r == is_kw(toks.deep_view(), i as int, kw@),
        r ==> i < toks.len(),
{
    match word_at_x(toks, i) {
        Some(w) => chars_equal(w, kw),
        None => false,
    }
}

fn eq_at(toks: &Vec<Token>, i: usize) -> (r: bool)
    ensures
        r == is_eq(toks.deep_view(), i as int),
        r ==> i < toks.len(),
{
    i < toks.len() && matches!(toks[i], Token::Eq)
}

fn colon_at(toks: &Vec<Token>, i: usize) -> (r: bool)
    ensures
        r == is_colon(toks.deep_view(), i as int),
        r ==> i < toks.len(),
{
    i < toks.len() && matches!(toks[i], Token::Colon)
}

fn comma_at(toks: &Vec<Token>, i: usize) -> (r: bool)
    ensures
        r == is_comma(toks.deep_view(), i as int),
        r ==> i < toks.len(),
{
    i < toks.len() && matches!(toks[i], Token::Comma)
}

fn lbrace_at(toks: &Vec<Token>, i: usize) -> (r: bool)
    ensures
        r == is_lbrace(toks.deep_view(), i as int),
        r ==> i < toks.len(),
{
    i < toks.len() && matches!(toks[i], Token::LBrace)
}

fn rbrace_at(toks: &Vec<Token>, i: usize) -> (r: bool)
    ensures
        r == is_rbrace(toks.deep_view(), i as int),
        r ==> i < toks.len(),
{
    i < toks.len() && matches!(toks[i], Token::RBrace)
}

// ---------------------------------------------------------------------------
// Numbers

proof fn lemma_digits_value_prefix(d: Seq<char>, k: int)
    requires
        0 <= k <= d.len(),
    ensures
        digits_value(d.take(k)) <= digits_value(d),
    decreases d.len() - k,
{
    if k < d.len() {
        lemma_digits_value_prefix(d, k + 1);
        assert(d.take(k + 1).drop_last() =~= d.take(k));
    } else {
        assert(d.take(k) =~= d);
    }
}

/// The value of an unsigned literal made of digits, if it does not exceed `max`.
fn natural_value(d: &Vec<char>, max: usize) -> (r: Option<usize>)
    ensures
        match r {
            Some(v) => bounded_natural(d@, max as nat) == Some(v as nat),
            None => bounded_natural(d@, max as nat) is None,
        },
{
    if d.len() == 0 {
        return None;
    }
    let mut acc: usize = 0;
    let mut over = false;
    let mut k: usize = 0;
    while k < d.len()
        invariant
            k <= d.len(),
            forall|m: int| 0 <= m < k ==> is_digit(#[trigger] d@[m]),
            !over ==> acc as nat == digits_value(d@.take(k as int)) && acc <= max,
            over ==> digits_value(d@.take(k as int)) > max,
        decreases d.len() - k,
    {
        let c = d[k];
        if !('0' <= c && c <= '9') {
            assert(!all_digits(d@));
            return None;
        }
        let dv = (c as u32 - '0' as u32) as usize;
        proof {
            assert(d@.take(k as int + 1).drop_last() =~= d@.take(k as int));
            assert(d@.take(k as int + 1).last() == c);
        }
        if !over {
            if dv > max || acc > (max - dv) / 10 {
                over = true;
                assert(acc * 10 + dv > max) by (nonlinear_arith)
                    requires
                        dv > max || acc > (max - dv) / 10,
                        dv <= 9,
                ;
            } else {
                assert(acc * 10 + dv <= max) by (nonlinear_arith)
                    requires
                        acc <= (max - dv) / 10,
                        dv <= max,
                ;
                acc = acc * 10 + dv;
            }
        } else {
            assert(digits_value(d@.take(k as int + 1)) >= digits_value(d@.take(k as int))) by (nonlinear_arith)
                requires
                    digits_value(d@.take(k as int + 1)) == digits_value(d@.take(k as int)) * 10 + dv,
            ;
        }
        k = k + 1;
    }
    proof {
        assert(d@.take(d@.len() as int) =~= d@);
    }
    if over {
        None
    } else {
        Some(acc)
    }
}

} // verus!

verus! {

// ---------------------------------------------------------------------------
// Names

fn aesthetic_from_word(w: &Vec<char>) -> (r: Option<AstAesthetic>)
    ensures
        r == aesthetic_named(w@),
{
    if chars_equal(w, "x") {
        Some(AstAesthetic::X)
    } else if chars_equal(w, "y") {
        Some(AstAesthetic::Y)
    } else if chars_equal(w, "color") {
        Some(AstAesthetic::Color)
    } else if chars_equal(w, "fill") {
        Some(AstAesthetic::Fill)
    } else if chars_equal(w, "group") {
        Some(AstAesthetic::Group)
    } else if chars_equal(w, "alpha") {
        Some(AstAesthetic::Alpha)
    } else if chars_equal(w, "label") {
        Some(AstAesthetic::Label)
    } else if chars_equal(w, "shape") {
        Some(AstAesthetic::Shape)
    } else {
        None
    }
}

fn geometry_from_word(w: &Vec<char>) -> (r: Option<GeometryType>)
    ensures
        r == geometry_named(w@),
{
    if chars_equal(w, "POINT") {
        Some(GeometryType::Point)
    } else if chars_equal(w, "LINE") {
        Some(GeometryType::Line)
    } else if chars_equal(w, "BAR") {
        Some(GeometryType::Bar)
    } else if chars_equal(w, "TEXT") {
        Some(GeometryType::Text)
    } else if chars_equal(w, "HISTOGRAM") {
        Some(GeometryType::Histogram)
    } else {
        None
    }
}

fn scale_target_from_word(w: &Vec<char>) -> (r: Option<AstAesthetic>)
    ensures
        r == scale_target_named(w@),
{
    if chars_equal(w, "X") {
        Some(AstAesthetic::X)
    } else if chars_equal(w, "Y") {
        Some(AstAesthetic::Y)
    } else if chars_equal(w, "COLOR") {
        Some(AstAesthetic::Color)
    } else if chars_equal(w, "FILL") {
        Some(AstAesthetic::Fill)
    } else {
        None
    }
}

fn scale_type_from_word(w: &Vec<char>) -> (r: Option<ScaleType>)
    ensures
        r == scale_type_named(w@),
{
    if chars_equal(w, "CONTINUOUS") {
        Some(ScaleType::Continuous)
    } else if chars_equal(w, "DISCRETE") {
        Some(ScaleType::Discrete)
    } else if chars_equal(w, "LOG") {
        Some(ScaleType::Log)
    } else {
        None
    }
}

/// A parse error naming what is unsupported: the message, then the word.
fn unsupported(what: &str, w: &Vec<char>) -> (e: GglangError)
    ensures
        e is Parse,
        error_message(e) == what@ + w@,
{
    let name = string_of(w);
    error_with_detail(true, what, name.as_str())
}

// ---------------------------------------------------------------------------
// MAP

fn parse_mapping(toks: &Vec<Token>, i: usize) -> (r: Result<(DataMapping, usize), GglangError>)
    ensures
        match r {
            Ok((m, j)) => p_mapping(toks.deep_view(), i as int) == Some((m.deep_view(), j as int)),
            Err(e) => p_mapping(toks.deep_view(), i as int) is None && e is Parse,
        },
{
    let a = match word_at_x(toks, i) {
        Some(a) => a,
        None => return Err(parse_failure("Expected aesthetic name in data mapping")),
    };
    if !eq_at(toks, i + 1) {
        return Err(parse_failure("Expected '=' in data mapping"));
    }
    if !colon_at(toks, i + 2) {
        return Err(parse_failure("Expected data reference ':column' in data mapping"));
    }
    let col = match word_at_x(toks, i + 3) {
        Some(c) => c,
        None => return Err(parse_failure("Expected identifier in data reference")),
    };
    match aesthetic_from_word(a) {
        Some(aes) => Ok((DataMapping { column: string_of(col), aesthetic: aes }, i + 4)),
        None => Err(unsupported("Unsupported aesthetic: ", a)),
    }
}

fn parse_mappings(toks: &Vec<Token>, i: usize) -> (r: Result<(Vec<DataMapping>, usize), GglangError>)
    ensures
        match r {
            Ok((ms, j)) => p_mappings(toks.deep_view(), i as int) == Some((ms.deep_view(), j as int)),
            Err(e) => p_mappings(toks.deep_view(), i as int) is None && e is Parse,
        },
    decreases toks.len() - i,
{
    let (m, j) = parse_mapping(toks, i)?;
    if comma_at(toks, j) {
        let (mut rest, k) = parse_mappings(toks, j + 1)?;
        let ghost mv = m.deep_view();
        let ghost rv = rest.deep_view();
        rest.insert(0, m);
        assert(rest.deep_view() =~= seq![mv] + rv);
        Ok((rest, k))
    } else {
        let mut v: Vec<DataMapping> = Vec::new();
        let ghost mv = m.deep_view();
        v.push(m);
        assert(v.deep_view() =~= seq![mv]);
        Ok((v, j))
    }
}

// ---------------------------------------------------------------------------
// GEOM

fn parse_attribute(toks: &Vec<Token>, i: usize) -> (r: Result<(GeomAttribute, usize), GglangError>)
    ensures
        match r {
            Ok((a, j)) => p_attribute(toks.deep_view(), i as int) == Some((a.deep_view(), j as int)),
            Err(e) => p_attribute(toks.deep_view(), i as int) is None && e is Parse,
        },
{
    let a = match word_at_x(toks, i) {
        Some(a) => a,
        None => return Err(parse_failure("Expected aesthetic name in geom attribute")),
    };
    if !eq_at(toks, i + 1) {
        return Err(parse_failure("Expected '=' in geom attribute"));
    }
    let aes = match aesthetic_from_word(a) {
        Some(aes) => aes,
        None => return Err(unsupported("Unsupported aesthetic: ", a)),
    };
    if colon_at(toks, i + 2) {
        match word_at_x(toks, i + 3) {
            Some(col) => Ok((GeomAttribute::Mapped(aes, string_of(col)), i + 4)),
            None => Err(parse_failure("Expected identifier in data reference")),
        }
    } else if let Some(s) = str_at_x(toks, i + 2) {
        Ok((GeomAttribute::Constant(aes, LiteralValue::Str(string_of(s))), i + 3))
    } else if let Some(n) = num_at_x(toks, i + 2) {
        Ok((GeomAttribute::Constant(aes, LiteralValue::Number(string_of(n))), i + 3))
    } else {
        Err(parse_failure("Expected a data reference, string or number in geom attribute"))
    }
}

fn parse_attributes(toks: &Vec<Token>, i: usize) -> (r: Result<(Vec<GeomAttribute>, usize), GglangError>)
    ensures
        match r {
            Ok((as_, j)) => p_attributes(toks.deep_view(), i as int) == Some((as_.deep_view(), j as int)),
            Err(e) => p_attributes(toks.deep_view(), i as int) is None && e is Parse,
        },
    decreases toks.len() - i,
{
    let (a, j) = parse_attribute(toks, i)?;
    if comma_at(toks, j) {
        let (mut rest, k) = parse_attributes(toks, j + 1)?;
        let ghost av = a.deep_view();
        let ghost rv = rest.deep_view();
        rest.insert(0, a);
        assert(rest.deep_view() =~= seq![av] + rv);
        Ok((rest, k))
    } else {
        let mut v: Vec<GeomAttribute> = Vec::new();
        let ghost av = a.deep_view();
        v.push(a);
        assert(v.deep_view() =~= seq![av]);
        Ok((v, j))
    }
}

fn parse_attribute_block(toks: &Vec<Token>, i: usize) -> (r: Result<(Vec<GeomAttribute>, usize), GglangError>)
    requires
        i <= toks.len(),
    ensures
        match r {
            Ok((as_, j)) => p_attribute_block(toks.deep_view(), i as int) == Some((as_.deep_view(), j as int)),
            Err(e) => p_attribute_block(toks.deep_view(), i as int) is None && e is Parse,
        },
{
    if lbrace_at(toks, i) {
        if rbrace_at(toks, i + 1) {
            let v: Vec<GeomAttribute> = Vec::new();
            assert(v.deep_view() =~= Seq::<SGeomAttribute>::empty());
            Ok((v, i + 2))
        } else {
            let (attrs, j) = parse_attributes(toks, i + 1)?;
            if rbrace_at(toks, j) {
                Ok((attrs, j + 1))
            } else {
                Err(parse_failure("Expected '}' after geom attributes"))
            }
        }
    } else {
        let v: Vec<GeomAttribute> = Vec::new();
        assert(v.deep_view() =~= Seq::<SGeomAttribute>::empty());
        Ok((v, i))
    }
}

fn parse_bins(toks: &Vec<Token>, i: usize) -> (r: Result<(Option<usize>, usize), GglangError>)
    requires
        i <= toks.len(),
    ensures
        match r {
            Ok((b, j)) => p_bins(toks.deep_view(), i as int) == Some((b, j as int)),
            Err(e) => p_bins(toks.deep_view(), i as int) is None && e is Parse,
        },
{
    if kw_at(toks, i, "BINS") {
        match num_at_x(toks, i + 1) {
            Some(n) => match natural_value(n, usize::MAX) {
                Some(v) => Ok((Some(v), i + 2)),
                None => Err(parse_failure("Invalid integer in BINS modifier")),
            },
            None => Err(parse_failure("Expected integer in BINS modifier")),
        }
    } else {
        Ok((None, i))
    }
}

fn parse_position(toks: &Vec<Token>, i: usize) -> (r: (Option<PositionAdjustment>, usize))
    requires
        i <= toks.len(),
    ensures
        p_position(toks.deep_view(), i as int) == (r.0, r.1 as int),
{
    if kw_at(toks, i, "STACK") {
        (Some(PositionAdjustment::Stack), i + 1)
    } else if kw_at(toks, i, "DODGE") {
        (Some(PositionAdjustment::Dodge), i + 1)
    } else {
        (None, i)
    }
}

fn parse_geom(toks: &Vec<Token>, i: usize) -> (r: Result<(Statement, usize), GglangError>)
    requires
        i <= toks.len(),
    ensures
        match r {
            Ok((st, j)) => p_geom(toks.deep_view(), i as int) == Some((st.deep_view(), j as int)),
            Err(e) => p_geom(toks.deep_view(), i as int) is None && e is Parse,
        },
{
    let g = match word_at_x(toks, i) {
        Some(g) => g,
        None => return Err(parse_failure("Expected geometry type in GEOM statement")),
    };
    let geom = match geometry_from_word(g) {
        Some(geom) => geom,
        None => return Err(unsupported("Unsupported geometry: ", g)),
    };
    let (attrs, j) = parse_attribute_block(toks, i + 1)?;
    let (bins, k) = parse_bins(toks, j)?;
    let (pos, l) = parse_position(toks, k);
    Ok((Statement::Geom(geom, attrs, bins, pos), l))
}

// ---------------------------------------------------------------------------
// SCALE

fn parse_scale(toks: &Vec<Token>, i: usize) -> (r: Result<(Statement, usize), GglangError>)
    requires
        i <= toks.len(),
    ensures
        match r {
            Ok((st, j)) => p_scale(toks.deep_view(), i as int) == Some((st.deep_view(), j as int)),
            Err(e) => p_scale(toks.deep_view(), i as int) is None && e is Parse,
        },
{
    let a = match word_at_x(toks, i) {
        Some(a) => a,
        None => return Err(parse_failure("Expected scale target in SCALE statement")),
    };
    let ty = match word_at_x(toks, i + 1) {
        Some(ty) => ty,
        None => return Err(parse_failure("Expected scale type in SCALE statement")),
    };
    let aes = match scale_target_from_word(a) {
        Some(aes) => aes,
        None => return Err(unsupported("Unsupported scale target: ", a)),
    };
    match scale_type_from_word(ty) {
        Some(st) => Ok((Statement::Scale(aes, st), i + 2)),
        None => Err(unsupported("Unsupported scale type: ", ty)),
    }
}

} // verus!

verus! {

// ---------------------------------------------------------------------------
// FACET

fn parse_data_ref(toks: &Vec<Token>, i: usize) -> (r: Result<(String, usize), GglangError>)
    ensures
        match r {
            Ok((w, j)) => p_data_ref(toks.deep_view(), i as int) == Some((w@, j as int)),
            Err(e) => p_data_ref(toks.deep_view(), i as int) is None && e is Parse,
        },
{
    if !colon_at(toks, i) {
        return Err(parse_failure("Expected data reference ':column'"));
    }
    match word_at_x(toks, i + 1) {
        Some(w) => Ok((string_of(w), i + 2)),
        None => Err(parse_failure("Expected identifier token in data_reference")),
    }
}

fn parse_freedom(toks: &Vec<Token>, i: usize) -> (r: Result<(ScaleFreedom, usize), GglangError>)
    requires
        i <= toks.len(),
    ensures
        match r {
            Ok((f, j)) => p_freedom(toks.deep_view(), i as int) == Some((f, j as int)),
            Err(e) => p_freedom(toks.deep_view(), i as int) is None && e is Parse,
        },
{
    if kw_at(toks, i, "SCALES") {
        if kw_at(toks, i + 1, "FREE") {
            if kw_at(toks, i + 2, "X") {
                Ok((ScaleFreedom::FreeX, i + 3))
            } else if kw_at(toks, i + 2, "Y") {
                Ok((ScaleFreedom::FreeY, i + 3))
            } else {
                Ok((ScaleFreedom::Free, i + 2))
            }
        } else if kw_at(toks, i + 1, "FIXED") {
            Ok((ScaleFreedom::Fixed, i + 2))
        } else {
            Err(parse_failure("Expected FREE or FIXED after SCALES"))
        }
    } else {
        Ok((ScaleFreedom::Fixed, i))
    }
}

fn parse_columns(toks: &Vec<Token>, i: usize) -> (r: Result<(Option<u32>, usize), GglangError>)
    requires
        i <= toks.len(),
    ensures
        match r {
            Ok((c, j)) => p_columns(toks.deep_view(), i as int) == Some((c, j as int)),
            Err(e) => p_columns(toks.deep_view(), i as int) is None && e is Parse,
        },
{
    if kw_at(toks, i, "COLUMNS") {
        match num_at_x(toks, i + 1) {
            Some(n) => match natural_value(n, 0xffff_ffffusize) {
                Some(v) => Ok((Some(v as u32), i + 2)),
                None => Err(parse_failure("Invalid column count in FACET WRAP COLUMNS")),
            },
            None => Err(parse_failure("Expected column count in facet_columns")),
        }
    } else {
        Ok((None, i))
    }
}

fn parse_grid_vars(toks: &Vec<Token>, i: usize) -> (r: Result<
    (Option<String>, Option<String>, usize),
    GglangError,
>)
    requires
        i <= toks.len(),
    ensures
        match r {
            Ok((rv, cv, j)) => p_grid_vars(toks.deep_view(), i as int) == Some(
                (opt_string_view(rv), opt_string_view(cv), j as int),
            ),
            Err(e) => p_grid_vars(toks.deep_view(), i as int) is None && e is Parse,
        },
{
    if kw_at(toks, i, "ROWS") {
        let (row, j) = parse_data_ref(toks, i + 1)?;
        if kw_at(toks, j, "COLS") {
            let (col, k) = parse_data_ref(toks, j + 1)?;
            Ok((Some(row), Some(col), k))
        } else {
            Ok((Some(row), None, j))
        }
    } else if kw_at(toks, i, "COLS") {
        let (col, k) = parse_data_ref(toks, i + 1)?;
        Ok((None, Some(col), k))
    } else {
        Err(parse_failure("Expected ROWS or COLS in FACET GRID"))
    }
}

fn parse_facet(toks: &Vec<Token>, i: usize) -> (r: Result<(Statement, usize), GglangError>)
    requires
        i <= toks.len(),
    ensures
        match r {
            Ok((st, j)) => p_facet(toks.deep_view(), i as int) == Some((st.deep_view(), j as int)),
            Err(e) => p_facet(toks.deep_view(), i as int) is None && e is Parse,
        },
{
    if kw_at(toks, i, "WRAP") {
        let (variable, j) = parse_data_ref(toks, i + 1)?;
        let (columns, k) = parse_columns(toks, j)?;
        let (scales, l) = parse_freedom(toks, k)?;
        Ok((Statement::Facet(FacetSpec::Wrap { variable, columns, scales }), l))
    } else if kw_at(toks, i, "GRID") {
        let (row_var, col_var, k) = parse_grid_vars(toks, i + 1)?;
        let (scales, l) = parse_freedom(toks, k)?;
        Ok((Statement::Facet(FacetSpec::Grid { row_var, col_var, scales }), l))
    } else {
        Err(parse_failure("Expected WRAP or GRID in FACET statement"))
    }
}

// ---------------------------------------------------------------------------
// COORD

fn parse_coord(toks: &Vec<Token>, i: usize) -> (r: Result<(Statement, usize), GglangError>)
    requires
        i <= toks.len(),
    ensures
        match r {
            Ok((st, j)) => p_coord(toks.deep_view(), i as int) == Some((st.deep_view(), j as int)),
            Err(e) => p_coord(toks.deep_view(), i as int) is None && e is Parse,
        },
{
    let k = match word_at_x(toks, i) {
        Some(k) => k,
        None => return Err(parse_failure("Expected coord type in coord_statement")),
    };
    let (start, j) = if kw_at(toks, i + 1, "START") {
        match num_at_x(toks, i + 2) {
            Some(n) => (string_of(n), i + 3),
            None => return Err(parse_failure("Expected number in COORD POLAR START")),
        }
    } else {
        ("0".to_owned(), i + 1)
    };
    if chars_equal(k, "CARTESIAN") {
        Ok((Statement::Coord(CoordType::Cartesian), j))
    } else if chars_equal(k, "POLAR") {
        Ok((Statement::Coord(CoordType::Polar { start }), j))
    } else {
        Err(unsupported("Unsupported coord type: ", k))
    }
}

// ---------------------------------------------------------------------------
// THEME

fn parse_theme_attribute(toks: &Vec<Token>, i: usize) -> (r: Result<(ThemeOverride, usize), GglangError>)
    ensures
        match r {
            Ok((o, j)) => p_theme_attribute(toks.deep_view(), i as int) == Some((o.deep_view(), j as int)),
            Err(e) => p_theme_attribute(toks.deep_view(), i as int) is None && e is Parse,
        },
{
    let key = match word_at_x(toks, i) {
        Some(k) => k,
        None => return Err(parse_failure("Expected key in theme_attribute")),
    };
    if !eq_at(toks, i + 1) {
        return Err(parse_failure("Expected '=' in theme_attribute"));
    }
    if let Some(s) = str_at_x(toks, i + 2) {
        Ok((ThemeOverride { key: string_of(key), value: LiteralValue::Str(string_of(s)) }, i + 3))
    } else if let Some(n) = num_at_x(toks, i + 2) {
        Ok((ThemeOverride { key: string_of(key), value: LiteralValue::Number(string_of(n)) }, i + 3))
    } else {
        Err(parse_failure("Expected value in theme_attribute"))
    }
}

fn parse_theme_attributes(toks: &Vec<Token>, i: usize) -> (r: Result<(Vec<ThemeOverride>, usize), GglangError>)
    ensures
        match r {
            Ok((os, j)) => p_theme_attributes(toks.deep_view(), i as int) == Some((os.deep_view(), j as int)),
            Err(e) => p_theme_attributes(toks.deep_view(), i as int) is None && e is Parse,
        },
    decreases toks.len() - i,
{
    let (o, j) = parse_theme_attribute(toks, i)?;
    if comma_at(toks, j) {
        let (mut rest, k) = parse_theme_attributes(toks, j + 1)?;
        let ghost ov = o.deep_view();
        let ghost rv = rest.deep_view();
        rest.insert(0, o);
        assert(rest.deep_view() =~= seq![ov] + rv);
        Ok((rest, k))
    } else {
        let mut v: Vec<ThemeOverride> = Vec::new();
        let ghost ov = o.deep_view();
        v.push(o);
        assert(v.deep_view() =~= seq![ov]);
        Ok((v, j))
    }
}

fn parse_theme(toks: &Vec<Token>, i: usize) -> (r: Result<(Statement, usize), GglangError>)
    requires
        i <= toks.len(),
    ensures
        match r {
            Ok((st, j)) => p_theme(toks.deep_view(), i as int) == Some((st.deep_view(), j as int)),
            Err(e) => p_theme(toks.deep_view(), i as int) is None && e is Parse,
        },
{
    if kw_at(toks, i, "FILE") {
        match str_at_x(toks, i + 1) {
            Some(p) => Ok((Statement::Theme(ThemeStatement::File(string_of(p))), i + 2)),
            None => Err(parse_failure("Expected path in THEME FILE")),
        }
    } else if lbrace_at(toks, i) {
        if rbrace_at(toks, i + 1) {
            let v: Vec<ThemeOverride> = Vec::new();
            assert(v.deep_view() =~= Seq::<SThemeOverride>::empty());
            Ok((Statement::Theme(ThemeStatement::Inline(v)), i + 2))
        } else {
            let (os, j) = parse_theme_attributes(toks, i + 1)?;
            if rbrace_at(toks, j) {
                Ok((Statement::Theme(ThemeStatement::Inline(os)), j + 1))
            } else {
                Err(parse_failure("Expected '}' after theme attributes"))
            }
        }
    } else {
        Err(parse_failure("Expected FILE or '{' in THEME statement"))
    }
}

// ---------------------------------------------------------------------------
// Statements

fn parse_string_arg(toks: &Vec<Token>, i: usize) -> (r: Result<(String, usize), GglangError>)
    ensures
        match r {
            Ok((s, j)) => p_string_arg(toks.deep_view(), i as int) == Some((s@, j as int)),
            Err(e) => p_string_arg(toks.deep_view(), i as int) is None && e is Parse,
        },
{
    match str_at_x(toks, i) {
        Some(s) => Ok((string_of(s), i + 1)),
        None => Err(parse_failure("Expected string literal")),
    }
}

fn parse_statement(toks: &Vec<Token>, i: usize) -> (r: Result<(Statement, usize), GglangError>)
    requires
        i <= toks.len(),
    ensures
        match r {
            Ok((st, j)) => p_statement(toks.deep_view(), i as int) == Some((st.deep_view(), j as int)),
            Err(e) => p_statement(toks.deep_view(), i as int) is None && e is Parse,
        },
{
    reveal(p_statement);
    if kw_at(toks, i, "MAP") {
        let (ms, j) = parse_mappings(toks, i + 1)?;
        Ok((Statement::Mappings(ms), j))
    } else if kw_at(toks, i, "GEOM") {
        parse_geom(toks, i + 1)
    } else if kw_at(toks, i, "SCALE") {
        parse_scale(toks, i + 1)
    } else if kw_at(toks, i, "FACET") {
        parse_facet(toks, i + 1)
    } else if kw_at(toks, i, "TITLE") {
        let (s, j) = parse_string_arg(toks, i + 1)?;
        Ok((Statement::Title(s), j))
    } else if kw_at(toks, i, "CAPTION") {
        let (s, j) = parse_string_arg(toks, i + 1)?;
        Ok((Statement::Caption(s), j))
    } else if kw_at(toks, i, "XLABEL") {
        let (s, j) = parse_string_arg(toks, i + 1)?;
        Ok((Statement::XLabel(s), j))
    } else if kw_at(toks, i, "YLABEL") {
        let (s, j) = parse_string_arg(toks, i + 1)?;
        Ok((Statement::YLabel(s), j))
    } else if kw_at(toks, i, "COORD") {
        parse_coord(toks, i + 1)
    } else if kw_at(toks, i, "THEME") {
        parse_theme(toks, i + 1)
    } else {
        Err(parse_failure("Expected a statement (MAP, GEOM, SCALE, FACET, TITLE, CAPTION, XLABEL, YLABEL, COORD or THEME)"))
    }
}

pub open spec fn prepend_statements(a: Seq<SStatement>, rest: Option<Seq<SStatement>>) -> Option<Seq<SStatement>> {
    match rest {
        Some(r) => Some(a + r),
        None => None,
    }
}

pub open spec fn prepend_overrides(a: Seq<SThemeOverride>, rest: Option<Seq<SThemeOverride>>) -> Option<Seq<SThemeOverride>> {
    match rest {
        Some(r) => Some(a + r),
        None => None,
    }
}

/// Parses a GQL program.
///
/// Succeeds exactly on the texts that the grammar (see the `grammar` module)
/// accepts, with the statements that it reads from them; fails with a parse
/// error on every other text.
pub fn parse(source: &str) -> (r: Result<Program, GglangError>)
    ensures
        match r {
            Ok(p) => spec_parse(source@) == Some(p.deep_view()),
            Err(e) => spec_parse(source@) is None && e is Parse,
        },
{
    let chars = chars_of(source);
    let toks = match lex(&chars) {
        Some(t) => t,
        None => return Err(parse_failure("Invalid token in source")),
    };
    let ghost t = toks.deep_view();
    let mut statements: Vec<Statement> = Vec::new();
    let mut i: usize = 0;
    assert(statements.deep_view() + p_program(t, 0).unwrap() =~= p_program(t, 0).unwrap());
    while i < toks.len()
        invariant
            i <= toks.len(),
            t == toks.deep_view(),
            spec_lex(source@) == Some(t),
            p_program(t, 0) == prepend_statements(statements.deep_view(), p_program(t, i as int)),
        decreases toks.len() - i,
    {
        let (st, j) = match parse_statement(&toks, i) {
            Ok(x) => x,
            Err(e) => {
                assert(p_program(t, i as int) is None);
                return Err(e);
            },
        };
        proof {
            lemma_statement_progress(t, i as int);
        }
        let ghost before = statements.deep_view();
        let ghost sv = st.deep_view();
        statements.push(st);
        assert(statements.deep_view() =~= before + seq![sv]);
        assert(before + (seq![sv] + p_program(t, j as int).unwrap()) =~= before + seq![sv] + p_program(t, j as int).unwrap());
        i = j;
    }
    assert(statements.deep_view() + seq![] =~= statements.deep_view());
    Ok(Program { statements })
}

/// Parses the text of a theme file: overrides `key = "text"` or
/// `key = number`, each optionally followed by a comma.
pub fn parse_theme_file(source: &str) -> (r: Result<Vec<ThemeOverride>, GglangError>)
    ensures
        match r {
            Ok(os) => spec_parse_theme_file(source@) == Some(os.deep_view()),
            Err(e) => spec_parse_theme_file(source@) is None && e is Parse,
        },
{
    let chars = chars_of(source);
    let toks = match lex(&chars) {
        Some(t) => t,
        None => return Err(parse_failure("Invalid token in theme file")),
    };
    let ghost t = toks.deep_view();
    let mut overrides: Vec<ThemeOverride> = Vec::new();
    let mut i: usize = 0;
    assert(overrides.deep_view() + p_theme_file(t, 0).unwrap() =~= p_theme_file(t, 0).unwrap());
    while i < toks.len()
        invariant
            i <= toks.len(),
            t == toks.deep_view(),
            spec_lex(source@) == Some(t),
            p_theme_file(t, 0) == prepend_overrides(overrides.deep_view(), p_theme_file(t, i as int)),
        decreases toks.len() - i,
    {
        let (o, j) = match parse_theme_attribute(&toks, i) {
            Ok(x) => x,
            Err(e) => return Err(e),
        };
        let k = if comma_at(&toks, j) { j + 1 } else { j };
        let ghost before = overrides.deep_view();
        let ghost ov = o.deep_view();
        overrides.push(o);
        assert(overrides.deep_view() =~= before + seq![ov]);
        assert(before + (seq![ov] + p_theme_file(t, k as int).unwrap()) =~= before + seq![ov] + p_theme_file(t, k as int).unwrap());
        i = k;
    }
    assert(overrides.deep_view() + seq![] =~= overrides.deep_view());
    Ok(overrides)
}

} // verus!
