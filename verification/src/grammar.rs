//! The GQL grammar, stated over token sequences.
//!
//! A program is a sequence of statements:
//! - `MAP m, m, ...` with `m` = `aes = :column`;
//! - `GEOM kind [{ a, a, ... }] [BINS n] [STACK | DODGE]` with
//!   `a` = `aes = :column`, `aes = "text"` or `aes = number`;
//! - `SCALE target type`;
//! - `FACET WRAP :v [COLUMNS n] [scales]`,
//!   `FACET GRID ROWS :v [COLS :v] [scales]` or `FACET GRID COLS :v [scales]`,
//!   with `scales` = `SCALES FREE [X | Y]` or `SCALES FIXED`;
//! - `TITLE "s"`, `CAPTION "s"`, `XLABEL "s"`, `YLABEL "s"`;
//! - `COORD kind [START number]`;
//! - `THEME FILE "path"` or `THEME { key = value, ... }`.
//! Each parser below takes the tokens and a position and gives the value it
//! reads there with the position after it, or `None` where the tokens there
//! are not of its form or name something unsupported.
use vstd::prelude::*;
use crate::lexer::{is_digit, spec_lex, SToken};
use crate::ast::{AstAesthetic, GeometryType, PositionAdjustment, ScaleType, ScaleFreedom};

verus! {

pub enum SLiteral {
    Str(Seq<char>),
    Number(Seq<char>),
}

pub struct SDataMapping {
    pub column: Seq<char>,
    pub aesthetic: AstAesthetic,
}

pub enum SGeomAttribute {
    Mapped(AstAesthetic, Seq<char>),
    Constant(AstAesthetic, SLiteral),
}

pub enum SFacetSpec {
    Wrap { variable: Seq<char>, columns: Option<u32>, scales: ScaleFreedom },
    Grid { row_var: Option<Seq<char>>, col_var: Option<Seq<char>>, scales: ScaleFreedom },
}

pub enum SCoordType {
    Cartesian,
    Polar { start: Seq<char> },
}

pub struct SThemeOverride {
    pub key: Seq<char>,
    pub value: SLiteral,
}

pub enum SThemeStatement {
    Inline(Seq<SThemeOverride>),
    File(Seq<char>),
}

pub enum SStatement {
    Mappings(Seq<SDataMapping>),
    Geom(GeometryType, Seq<SGeomAttribute>, Option<usize>, Option<PositionAdjustment>),
    Scale(AstAesthetic, ScaleType),
    Facet(SFacetSpec),
    Title(Seq<char>),
    Caption(Seq<char>),
    XLabel(Seq<char>),
    YLabel(Seq<char>),
    Coord(SCoordType),
    Theme(SThemeStatement),
}

// ---------------------------------------------------------------------------
// Token access

pub open spec fn word_at(t: Seq<SToken>, i: int) -> Option<Seq<char>> {
    if 0 <= i < t.len() {
        match t[i] {
            SToken::Word(w) => Some(w),
            _ => None,
        }
    } else {
        None
    }
}

pub open spec fn num_at(t: Seq<SToken>, i: int) -> Option<Seq<char>> {
    if 0 <= i < t.len() {
        match t[i] {
            SToken::Num(w) => Some(w),
            _ => None,
        }
    } else {
        None
    }
}

pub open spec fn str_at(t: Seq<SToken>, i: int) -> Option<Seq<char>> {
    if 0 <= i < t.len() {
        match t[i] {
            SToken::Str(w) => Some(w),
            _ => None,
        }
    } else {
        None
    }
}

pub open spec fn is_kw(t: Seq<SToken>, i: int, kw: Seq<char>) -> bool {
    word_at(t, i) == Some(kw)
}

pub open spec fn is_eq(t: Seq<SToken>, i: int) -> bool {
    0 <= i < t.len() && t[i] is Eq
}

pub open spec fn is_colon(t: Seq<SToken>, i: int) -> bool {
    0 <= i < t.len() && t[i] is Colon
}

pub open spec fn is_comma(t: Seq<SToken>, i: int) -> bool {
    0 <= i < t.len() && t[i] is Comma
}

pub open spec fn is_lbrace(t: Seq<SToken>, i: int) -> bool {
    0 <= i < t.len() && t[i] is LBrace
}

pub open spec fn is_rbrace(t: Seq<SToken>, i: int) -> bool {
    0 <= i < t.len() && t[i] is RBrace
}

// ---------------------------------------------------------------------------
// Numbers

/// The value of a string of decimal digits.
pub open spec fn digits_value(d: Seq<char>) -> nat
    decreases d.len(),
{
    if d.len() == 0 {
        0
    } else {
        digits_value(d.drop_last()) * 10 + ((d.last() as int - '0' as int) as nat)
    }
}

pub open spec fn all_digits(d: Seq<char>) -> bool {
    forall|k: int| 0 <= k < d.len() ==> is_digit(#[trigger] d[k])
}

/// The value of an unsigned integer literal that does not exceed `max`.
pub open spec fn bounded_natural(d: Seq<char>, max: nat) -> Option<nat> {
    if d.len() > 0 && all_digits(d) && digits_value(d) <= max {
        Some(digits_value(d))
    } else {
        None
    }
}

// ---------------------------------------------------------------------------
// Names

pub open spec fn aesthetic_named(w: Seq<char>) -> Option<AstAesthetic> {
    if w == "x"@ {
        Some(AstAesthetic::X)
    } else if w == "y"@ {
        Some(AstAesthetic::Y)
    } else if w == "color"@ {
        Some(AstAesthetic::Color)
    } else if w == "fill"@ {
        Some(AstAesthetic::Fill)
    } else if w == "group"@ {
        Some(AstAesthetic::Group)
    } else if w == "alpha"@ {
        Some(AstAesthetic::Alpha)
    } else if w == "label"@ {
        Some(AstAesthetic::Label)
    } else if w == "shape"@ {
        Some(AstAesthetic::Shape)
    } else {
        None
    }
}

pub open spec fn geometry_named(w: Seq<char>) -> Option<GeometryType> {
    if w == "POINT"@ {
        Some(GeometryType::Point)
    } else if w == "LINE"@ {
        Some(GeometryType::Line)
    } else if w == "BAR"@ {
        Some(GeometryType::Bar)
    } else if w == "TEXT"@ {
        Some(GeometryType::Text)
    } else if w == "HISTOGRAM"@ {
        Some(GeometryType::Histogram)
    } else {
        None
    }
}

pub open spec fn scale_target_named(w: Seq<char>) -> Option<AstAesthetic> {
    if w == "X"@ {
        Some(AstAesthetic::X)
    } else if w == "Y"@ {
        Some(AstAesthetic::Y)
    } else if w == "COLOR"@ {
        Some(AstAesthetic::Color)
    } else if w == "FILL"@ {
        Some(AstAesthetic::Fill)
    } else {
        None
    }
}

pub open spec fn scale_type_named(w: Seq<char>) -> Option<ScaleType> {
    if w == "CONTINUOUS"@ {
        Some(ScaleType::Continuous)
    } else if w == "DISCRETE"@ {
        Some(ScaleType::Discrete)
    } else if w == "LOG"@ {
        Some(ScaleType::Log)
    } else {
        None
    }
}

// ---------------------------------------------------------------------------
// MAP

/// `aes = :column`
pub open spec fn p_mapping(t: Seq<SToken>, i: int) -> Option<(SDataMapping, int)> {
    match (word_at(t, i), word_at(t, i + 3)) {
        (Some(a), Some(col)) => {
            if is_eq(t, i + 1) && is_colon(t, i + 2) {
                match aesthetic_named(a) {
                    Some(aes) => Some((SDataMapping { column: col, aesthetic: aes }, i + 4)),
                    None => None,
                }
            } else {
                None
            }
        },
        _ => None,
    }
}

/// `m, m, ...` (at least one)
pub open spec fn p_mappings(t: Seq<SToken>, i: int) -> Option<(Seq<SDataMapping>, int)>
    decreases t.len() - i,
{
    match p_mapping(t, i) {
        Some((m, j)) => {
            if is_comma(t, j) {
                match p_mappings(t, j + 1) {
                    Some((ms, k)) => Some((seq![m] + ms, k)),
                    None => None,
                }
            } else {
                Some((seq![m], j))
            }
        },
        None => None,
    }
}

// ---------------------------------------------------------------------------
// GEOM

/// `aes = :column`, `aes = "text"` or `aes = number`
pub open spec fn p_attribute(t: Seq<SToken>, i: int) -> Option<(SGeomAttribute, int)> {
    match word_at(t, i) {
        Some(a) => {
            if is_eq(t, i + 1) {
                match aesthetic_named(a) {
                    Some(aes) => {
                        if is_colon(t, i + 2) {
                            match word_at(t, i + 3) {
                                Some(col) => Some((SGeomAttribute::Mapped(aes, col), i + 4)),
                                None => None,
                            }
                        } else {
                            match (str_at(t, i + 2), num_at(t, i + 2)) {
                                (Some(s), _) => Some(
                                    (SGeomAttribute::Constant(aes, SLiteral::Str(s)), i + 3),
                                ),
                                (_, Some(n)) => Some(
                                    (SGeomAttribute::Constant(aes, SLiteral::Number(n)), i + 3),
                                ),
                                _ => None,
                            }
                        }
                    },
                    None => None,
                }
            } else {
                None
            }
        },
        None => None,
    }
}

/// `a, a, ...` (at least one)
pub open spec fn p_attributes(t: Seq<SToken>, i: int) -> Option<(Seq<SGeomAttribute>, int)>
    decreases t.len() - i,
{
    match p_attribute(t, i) {
        Some((a, j)) => {
            if is_comma(t, j) {
                match p_attributes(t, j + 1) {
                    Some((as_, k)) => Some((seq![a] + as_, k)),
                    None => None,
                }
            } else {
                Some((seq![a], j))
            }
        },
        None => None,
    }
}

/// `[{ a, ... }]`; no block, or an empty one, gives no attributes.
pub open spec fn p_attribute_block(t: Seq<SToken>, i: int) -> Option<(Seq<SGeomAttribute>, int)> {
    if is_lbrace(t, i) {
        if is_rbrace(t, i + 1) {
            Some((seq![], i + 2))
        } else {
            match p_attributes(t, i + 1) {
                Some((as_, j)) => if is_rbrace(t, j) {
                    Some((as_, j + 1))
                } else {
                    None
                },
                None => None,
            }
        }
    } else {
        Some((seq![], i))
    }
}

/// `[BINS n]`
pub open spec fn p_bins(t: Seq<SToken>, i: int) -> Option<(Option<usize>, int)> {
    if is_kw(t, i, "BINS"@) {
        match num_at(t, i + 1) {
            Some(n) => match bounded_natural(n, usize::MAX as nat) {
                Some(v) => Some((Some(v as usize), i + 2)),
                None => None,
            },
            None => None,
        }
    } else {
        Some((None, i))
    }
}

/// `[STACK | DODGE]`
pub open spec fn p_position(t: Seq<SToken>, i: int) -> (Option<PositionAdjustment>, int) {
    if is_kw(t, i, "STACK"@) {
        (Some(PositionAdjustment::Stack), i + 1)
    } else if is_kw(t, i, "DODGE"@) {
        (Some(PositionAdjustment::Dodge), i + 1)
    } else {
        (None, i)
    }
}

/// The part of `GEOM ...` after the keyword.
pub open spec fn p_geom(t: Seq<SToken>, i: int) -> Option<(SStatement, int)> {
    match word_at(t, i) {
        Some(g) => match geometry_named(g) {
            Some(geom) => match p_attribute_block(t, i + 1) {
                Some((attrs, j)) => match p_bins(t, j) {
                    Some((bins, k)) => {
                        let (pos, l) = p_position(t, k);
                        Some((SStatement::Geom(geom, attrs, bins, pos), l))
                    },
                    None => None,
                },
                None => None,
            },
            None => None,
        },
        None => None,
    }
}

// ---------------------------------------------------------------------------
// SCALE

/// The part of `SCALE target type` after the keyword.
pub open spec fn p_scale(t: Seq<SToken>, i: int) -> Option<(SStatement, int)> {
    match (word_at(t, i), word_at(t, i + 1)) {
        (Some(a), Some(ty)) => match (scale_target_named(a), scale_type_named(ty)) {
            (Some(aes), Some(st)) => Some((SStatement::Scale(aes, st), i + 2)),
            _ => None,
        },
        _ => None,
    }
}

// ---------------------------------------------------------------------------
// FACET

/// `:column`
pub open spec fn p_data_ref(t: Seq<SToken>, i: int) -> Option<(Seq<char>, int)> {
    if is_colon(t, i) {
        match word_at(t, i + 1) {
            Some(w) => Some((w, i + 2)),
            None => None,
        }
    } else {
        None
    }
}

/// `[SCALES FREE [X | Y] | SCALES FIXED]`; fixed where absent.
pub open spec fn p_freedom(t: Seq<SToken>, i: int) -> Option<(ScaleFreedom, int)> {
    if is_kw(t, i, "SCALES"@) {
        if is_kw(t, i + 1, "FREE"@) {
            if is_kw(t, i + 2, "X"@) {
                Some((ScaleFreedom::FreeX, i + 3))
            } else if is_kw(t, i + 2, "Y"@) {
                Some((ScaleFreedom::FreeY, i + 3))
            } else {
                Some((ScaleFreedom::Free, i + 2))
            }
        } else if is_kw(t, i + 1, "FIXED"@) {
            Some((ScaleFreedom::Fixed, i + 2))
        } else {
            None
        }
    } else {
        Some((ScaleFreedom::Fixed, i))
    }
}

/// `[COLUMNS n]`
pub open spec fn p_columns(t: Seq<SToken>, i: int) -> Option<(Option<u32>, int)> {
    if is_kw(t, i, "COLUMNS"@) {
        match num_at(t, i + 1) {
            Some(n) => match bounded_natural(n, u32::MAX as nat) {
                Some(v) => Some((Some(v as u32), i + 2)),
                None => None,
            },
            None => None,
        }
    } else {
        Some((None, i))
    }
}

/// `ROWS :v [COLS :v]` or `COLS :v`
pub open spec fn p_grid_vars(t: Seq<SToken>, i: int) -> Option<(Option<Seq<char>>, Option<Seq<char>>, int)> {
    if is_kw(t, i, "ROWS"@) {
        match p_data_ref(t, i + 1) {
            Some((r, j)) => if is_kw(t, j, "COLS"@) {
                match p_data_ref(t, j + 1) {
                    Some((c, k)) => Some((Some(r), Some(c), k)),
                    None => None,
                }
            } else {
                Some((Some(r), None, j))
            },
            None => None,
        }
    } else if is_kw(t, i, "COLS"@) {
        match p_data_ref(t, i + 1) {
            Some((c, k)) => Some((None, Some(c), k)),
            None => None,
        }
    } else {
        None
    }
}

/// The part of `FACET ...` after the keyword.
pub open spec fn p_facet(t: Seq<SToken>, i: int) -> Option<(SStatement, int)> {
    if is_kw(t, i, "WRAP"@) {
        match p_data_ref(t, i + 1) {
            Some((v, j)) => match p_columns(t, j) {
                Some((cols, k)) => match p_freedom(t, k) {
                    Some((fr, l)) => Some(
                        (SStatement::Facet(SFacetSpec::Wrap { variable: v, columns: cols, scales: fr }), l),
                    ),
                    None => None,
                },
                None => None,
            },
            None => None,
        }
    } else if is_kw(t, i, "GRID"@) {
        match p_grid_vars(t, i + 1) {
            Some((r, c, k)) => match p_freedom(t, k) {
                Some((fr, l)) => Some(
                    (SStatement::Facet(SFacetSpec::Grid { row_var: r, col_var: c, scales: fr }), l),
                ),
                None => None,
            },
            None => None,
        }
    } else {
        None
    }
}

// ---------------------------------------------------------------------------
// COORD

/// The part of `COORD kind [START number]` after the keyword; a polar
/// system without a start angle starts at `0`.
pub open spec fn p_coord(t: Seq<SToken>, i: int) -> Option<(SStatement, int)> {
    match word_at(t, i) {
        Some(k) => {
            let (start, j) = if is_kw(t, i + 1, "START"@) {
                match num_at(t, i + 2) {
                    Some(n) => (Some(n), i + 3),
                    None => (None, i + 3),
                }
            } else {
                (Some("0"@), i + 1)
            };
            match start {
                Some(s) => if k == "CARTESIAN"@ {
                    Some((SStatement::Coord(SCoordType::Cartesian), j))
                } else if k == "POLAR"@ {
                    Some((SStatement::Coord(SCoordType::Polar { start: s }), j))
                } else {
                    None
                },
                None => None,
            }
        },
        None => None,
    }
}

// ---------------------------------------------------------------------------
// THEME

/// `key = "text"` or `key = number`
pub open spec fn p_theme_attribute(t: Seq<SToken>, i: int) -> Option<(SThemeOverride, int)> {
    match word_at(t, i) {
        Some(key) => if is_eq(t, i + 1) {
            match (str_at(t, i + 2), num_at(t, i + 2)) {
                (Some(s), _) => Some((SThemeOverride { key, value: SLiteral::Str(s) }, i + 3)),
                (_, Some(n)) => Some((SThemeOverride { key, value: SLiteral::Number(n) }, i + 3)),
                _ => None,
            }
        } else {
            None
        },
        None => None,
    }
}

/// `o, o, ...` (at least one)
pub open spec fn p_theme_attributes(t: Seq<SToken>, i: int) -> Option<(Seq<SThemeOverride>, int)>
    decreases t.len() - i,
{
    match p_theme_attribute(t, i) {
        Some((o, j)) => {
            if is_comma(t, j) {
                match p_theme_attributes(t, j + 1) {
                    Some((os, k)) => Some((seq![o] + os, k)),
                    None => None,
                }
            } else {
                Some((seq![o], j))
            }
        },
        None => None,
    }
}

/// The part of `THEME FILE "path"` or `THEME { ... }` after the keyword.
pub open spec fn p_theme(t: Seq<SToken>, i: int) -> Option<(SStatement, int)> {
    if is_kw(t, i, "FILE"@) {
        match str_at(t, i + 1) {
            Some(p) => Some((SStatement::Theme(SThemeStatement::File(p)), i + 2)),
            None => None,
        }
    } else if is_lbrace(t, i) {
        if is_rbrace(t, i + 1) {
            Some((SStatement::Theme(SThemeStatement::Inline(seq![])), i + 2))
        } else {
            match p_theme_attributes(t, i + 1) {
                Some((os, j)) => if is_rbrace(t, j) {
                    Some((SStatement::Theme(SThemeStatement::Inline(os)), j + 1))
                } else {
                    None
                },
                None => None,
            }
        }
    } else {
        None
    }
}

/// A theme file: overrides, each optionally followed by a comma, to the end.
pub open spec fn p_theme_file(t: Seq<SToken>, i: int) -> Option<Seq<SThemeOverride>>
    decreases t.len() - i,
{
    if i >= t.len() || i < 0 {
        Some(seq![])
    } else {
        match p_theme_attribute(t, i) {
            Some((o, j)) => {
                let k = if is_comma(t, j) { j + 1 } else { j };
                match p_theme_file(t, k) {
                    Some(os) => Some(seq![o] + os),
                    None => None,
                }
            },
            None => None,
        }
    }
}

// ---------------------------------------------------------------------------
// Statements and programs

/// `TITLE "s"` and the like, after the keyword.
pub open spec fn p_string_arg(t: Seq<SToken>, i: int) -> Option<(Seq<char>, int)> {
    match str_at(t, i) {
        Some(s) => Some((s, i + 1)),
        None => None,
    }
}

#[verifier::opaque]
pub open spec fn p_statement(t: Seq<SToken>, i: int) -> Option<(SStatement, int)> {
    if is_kw(t, i, "MAP"@) {
        match p_mappings(t, i + 1) {
            Some((ms, j)) => Some((SStatement::Mappings(ms), j)),
            None => None,
        }
    } else if is_kw(t, i, "GEOM"@) {
        p_geom(t, i + 1)
    } else if is_kw(t, i, "SCALE"@) {
        p_scale(t, i + 1)
    } else if is_kw(t, i, "FACET"@) {
        p_facet(t, i + 1)
    } else if is_kw(t, i, "TITLE"@) {
        match p_string_arg(t, i + 1) {
            Some((s, j)) => Some((SStatement::Title(s), j)),
            None => None,
        }
    } else if is_kw(t, i, "CAPTION"@) {
        match p_string_arg(t, i + 1) {
            Some((s, j)) => Some((SStatement::Caption(s), j)),
            None => None,
        }
    } else if is_kw(t, i, "XLABEL"@) {
        match p_string_arg(t, i + 1) {
            Some((s, j)) => Some((SStatement::XLabel(s), j)),
            None => None,
        }
    } else if is_kw(t, i, "YLABEL"@) {
        match p_string_arg(t, i + 1) {
            Some((s, j)) => Some((SStatement::YLabel(s), j)),
            None => None,
        }
    } else if is_kw(t, i, "COORD"@) {
        p_coord(t, i + 1)
    } else if is_kw(t, i, "THEME"@) {
        p_theme(t, i + 1)
    } else {
        None
    }
}

// ---------------------------------------------------------------------------
// Every statement reads at least one token, so a program is read in finitely many steps.

pub proof fn lemma_mappings_progress(t: Seq<SToken>, i: int)
    requires
        0 <= i,
    ensures
        p_mappings(t, i) matches Some((_, j)) ==> i < j <= t.len(),
    decreases t.len() - i,
{
    if let Some((m, j)) = p_mapping(t, i) {
        if is_comma(t, j) {
            lemma_mappings_progress(t, j + 1);
        }
    }
}

pub proof fn lemma_attributes_progress(t: Seq<SToken>, i: int)
    requires
        0 <= i,
    ensures
        p_attributes(t, i) matches Some((_, j)) ==> i < j <= t.len(),
    decreases t.len() - i,
{
    if let Some((a, j)) = p_attribute(t, i) {
        if is_comma(t, j) {
            lemma_attributes_progress(t, j + 1);
        }
    }
}

pub proof fn lemma_theme_attributes_progress(t: Seq<SToken>, i: int)
    requires
        0 <= i,
    ensures
        p_theme_attributes(t, i) matches Some((_, j)) ==> i < j <= t.len(),
    decreases t.len() - i,
{
    if let Some((o, j)) = p_theme_attribute(t, i) {
        if is_comma(t, j) {
            lemma_theme_attributes_progress(t, j + 1);
        }
    }
}

pub proof fn lemma_statement_progress(t: Seq<SToken>, i: int)
    requires
        0 <= i < t.len(),
    ensures
        p_statement(t, i) matches Some((_, j)) ==> i < j <= t.len(),
{
    reveal(p_statement);
    lemma_mappings_progress(t, i + 1);
    lemma_attributes_progress(t, i + 3);
    lemma_theme_attributes_progress(t, i + 2);
}

/// The statements of a whole token sequence from position `i` on.
pub open spec fn p_program(t: Seq<SToken>, i: int) -> Option<Seq<SStatement>>
    decreases t.len() - i,
{
    if i < 0 || i >= t.len() {
        Some(seq![])
    } else {
        match p_statement(t, i) {
            Some((st, j)) => {
                proof {
                    lemma_statement_progress(t, i);
                }
                match p_program(t, j) {
                    Some(rest) => Some(seq![st] + rest),
                    None => None,
                }
            },
            None => None,
        }
    }
}

/// The statements of a GQL source text, or `None` where it is not a program.
pub open spec fn spec_parse(src: Seq<char>) -> Option<Seq<SStatement>> {
    match spec_lex(src) {
        Some(t) => p_program(t, 0),
        None => None,
    }
}

/// The overrides of a theme file's text, or `None` where it is not one.
pub open spec fn spec_parse_theme_file(src: Seq<char>) -> Option<Seq<SThemeOverride>> {
    match spec_lex(src) {
        Some(t) => p_theme_file(t, 0),
        None => None,
    }
}

/// The token a literal value is written as.
pub open spec fn literal_token(v: SLiteral) -> SToken {
    match v {
        SLiteral::Str(s) => SToken::Str(s),
        SLiteral::Number(n) => SToken::Num(n),
    }
}

/// The tokens from `i` on write the overrides `os`, in order, each as
/// `key = value`, with a comma between two of them and none after the last.
pub open spec fn writes_overrides(t: Seq<SToken>, i: int, os: Seq<SThemeOverride>) -> bool {
    &&& os.len() >= 1
    &&& 0 <= i
    &&& i + 4 * os.len() - 1 <= t.len()
    &&& forall|m: int| 0 <= m < os.len() ==> {
        &&& t[i + 4 * m] == SToken::Word((#[trigger] os[m]).key)
        &&& t[i + 4 * m + 1] == SToken::Eq
        &&& t[i + 4 * m + 2] == literal_token(os[m].value)
    }
    &&& forall|m: int| 0 <= m < os.len() - 1 ==> #[trigger] t[i + 4 * m + 3] == SToken::Comma
    &&& !is_comma(t, i + 4 * os.len() - 1)
}

/// A list of overrides written `key = value, key = value, ...` reads back
/// as exactly those overrides, in the order written, and ends after the
/// last value.
pub proof fn law_theme_attributes_read_as_written(t: Seq<SToken>, i: int, os: Seq<SThemeOverride>)
    requires
        writes_overrides(t, i, os),
    ensures
        p_theme_attributes(t, i) == Some((os, i + 4 * os.len() - 1)),
    decreases os.len(),
{
    let o = os[0];
    assert(t[i + 4 * 0] == SToken::Word(o.key));
    assert(t[i + 4 * 0 + 1] == SToken::Eq);
    assert(t[i + 4 * 0 + 2] == literal_token(o.value));
    assert(word_at(t, i) == Some(o.key));
    assert(is_eq(t, i + 1));
    match o.value {
        SLiteral::Str(s) => assert(str_at(t, i + 2) == Some(s)),
        SLiteral::Number(n) => {
            assert(str_at(t, i + 2) is None);
            assert(num_at(t, i + 2) == Some(n));
        },
    }
    assert(p_theme_attribute(t, i) == Some((o, i + 3)));
    if os.len() == 1 {
        assert(!is_comma(t, i + 3));
        assert(seq![o] =~= os);
    } else {
        assert(t[i + 4 * 0 + 3] == SToken::Comma);
        assert(is_comma(t, i + 3));
        let rest = os.drop_first();
        assert forall|m: int| 0 <= m < rest.len() implies {
            &&& t[(i + 4) + 4 * m] == SToken::Word((#[trigger] rest[m]).key)
            &&& t[(i + 4) + 4 * m + 1] == SToken::Eq
            &&& t[(i + 4) + 4 * m + 2] == literal_token(rest[m].value)
        } by {
            assert(rest[m] == os[m + 1]);
            assert((i + 4) + 4 * m == i + 4 * (m + 1));
        }
        assert forall|m: int| 0 <= m < rest.len() - 1 implies #[trigger] t[(i + 4) + 4 * m + 3] == SToken::Comma by {
            assert((i + 4) + 4 * m + 3 == i + 4 * (m + 1) + 3);
            assert(t[i + 4 * (m + 1) + 3] == SToken::Comma);
        }
        assert((i + 4) + 4 * rest.len() - 1 == i + 4 * os.len() - 1);
        law_theme_attributes_read_as_written(t, i + 4, rest);
        assert(seq![o] + rest =~= os);
    }
}

/// `THEME { key = value, ... }` reads as an inline theme of exactly the
/// overrides written, in order.
pub proof fn law_inline_theme_reads_as_written(t: Seq<SToken>, i: int, os: Seq<SThemeOverride>)
    requires
        0 <= i < t.len(),
        t[i] == SToken::LBrace,
        writes_overrides(t, i + 1, os),
        i + 1 + 4 * os.len() - 1 < t.len(),
        t[i + 1 + 4 * os.len() - 1] == SToken::RBrace,
    ensures
        p_theme(t, i) == Some((SStatement::Theme(SThemeStatement::Inline(os)), i + 4 * os.len() + 1)),
{
    law_theme_attributes_read_as_written(t, i + 1, os);
    assert(t[(i + 1) + 4 * 0] == SToken::Word(os[0].key));
    assert(!is_rbrace(t, i + 1));
    assert(!is_kw(t, i, "FILE"@));
}

} // verus!
