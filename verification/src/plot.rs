//! The blueprint of a plot: what the compiler builds and the renderer draws.
use vstd::prelude::*;
use crate::aesthetic::{spec_aes_index, Aesthetic, AestheticFamily, ConstantValue, Mapping, SConstantValue, SMapping};
use crate::ast::{opt_string_view, FacetSpec};
use crate::geom::LayerGeometry;
use crate::grammar::{SCoordType, SFacetSpec};
use crate::scale::{spec_scale_family, ScaleKind};
use crate::theme::{SThemeSetting, ThemeSetting};

verus! {

/// The statistical transform a layer applies before drawing.
#[derive(Debug, Clone, Copy, PartialEq, Eq, Structural)]
pub enum LayerStat {
    /// Data is drawn as given.
    Identity,
    /// Rows are counted by `x` (and `fill`); the counts become `y`.
    Count,
}

/// Constant (hardcoded) values of a layer, at most one per aesthetic.
pub struct LayerConstants {
    x: Option<ConstantValue>,
    y: Option<ConstantValue>,
    color: Option<ConstantValue>,
    fill: Option<ConstantValue>,
    group: Option<ConstantValue>,
    alpha: Option<ConstantValue>,
}

pub open spec fn opt_constant_view(o: Option<ConstantValue>) -> Option<SConstantValue> {
    match o {
        Some(c) => Some(c.deep_view()),
        None => None,
    }
}

impl DeepView for LayerConstants {
    /// The constant of each aesthetic, indexed as in `Aesthetic::all()`.
    type V = Seq<Option<SConstantValue>>;

    closed spec fn deep_view(&self) -> Seq<Option<SConstantValue>> {
        seq![
            opt_constant_view(self.x),
            opt_constant_view(self.y),
            opt_constant_view(self.color),
            opt_constant_view(self.fill),
            opt_constant_view(self.group),
            opt_constant_view(self.alpha),
        ]
    }
}

/// No constants at all.
pub open spec fn no_constants() -> Seq<Option<SConstantValue>> {
    seq![None, None, None, None, None, None]
}

impl LayerConstants {
    /// A table with no constants.
    pub fn new() -> (r: Self)
        ensures
            r.deep_view() == no_constants(),
    {
        LayerConstants { x: None, y: None, color: None, fill: None, group: None, alpha: None }
    }

    /// The constant for an aesthetic, if any.
    pub fn get(&self, aes: Aesthetic) -> (r: Option<&ConstantValue>)
        ensures
            opt_constant_view(match r { Some(c) => Some(*c), None => None }) == self.deep_view()[spec_aes_index(aes)],
    {
        let slot = match aes {
            Aesthetic::X => &self.x,
            Aesthetic::Y => &self.y,
            Aesthetic::Color => &self.color,
            Aesthetic::Fill => &self.fill,
            Aesthetic::Group => &self.group,
            Aesthetic::Alpha => &self.alpha,
        };
        match slot {
            Some(c) => Some(c),
            None => None,
        }
    }

    /// Whether an aesthetic has a constant.
    pub fn contains(&self, aes: Aesthetic) -> (r: bool)
        ensures
            r == (self.deep_view()[spec_aes_index(aes)] is Some),
    {
        self.get(aes).is_some()
    }

    /// Sets (or replaces) the constant of an aesthetic.
    pub fn insert(&mut self, aes: Aesthetic, value: ConstantValue)
        ensures
            final(self).deep_view() == old(self).deep_view().update(spec_aes_index(aes), Some(value.deep_view())),
    {
        match aes {
            Aesthetic::X => self.x = Some(value),
            Aesthetic::Y => self.y = Some(value),
            Aesthetic::Color => self.color = Some(value),
            Aesthetic::Fill => self.fill = Some(value),
            Aesthetic::Group => self.group = Some(value),
            Aesthetic::Alpha => self.alpha = Some(value),
        }
        assert(self.deep_view() =~= old(self).deep_view().update(spec_aes_index(aes), Some(value.deep_view())));
    }
}

/// A layer: a geometry with its own mappings, constants and stat.
pub struct Layer {
    pub geometry: LayerGeometry,
    /// Per-layer mapping overrides (not blueprint defaults).
    pub mappings: Vec<Mapping>,
    /// Hardcoded constant values for aesthetics (bypass scale mapping).
    pub constants: LayerConstants,
    pub stat: LayerStat,
}

pub struct SLayer {
    pub geometry: LayerGeometry,
    pub mappings: Seq<SMapping>,
    pub constants: Seq<Option<SConstantValue>>,
    pub stat: LayerStat,
}

impl DeepView for Layer {
    type V = SLayer;

    open spec fn deep_view(&self) -> SLayer {
        SLayer {
            geometry: self.geometry,
            mappings: self.mappings.deep_view(),
            constants: self.constants.deep_view(),
            stat: self.stat,
        }
    }
}

impl Layer {
    pub fn new(geometry: LayerGeometry, mappings: Vec<Mapping>, constants: LayerConstants, stat: LayerStat) -> (r: Self)
        ensures
            r.deep_view() == (SLayer {
                geometry,
                mappings: mappings.deep_view(),
                constants: constants.deep_view(),
                stat,
            }),
    {
        Layer { geometry, mappings, constants, stat }
    }
}

/// The coordinate system of a plot; a polar start angle is kept as written.
pub enum CoordinateSystem {
    Cartesian,
    Polar { start: String },
}

impl DeepView for CoordinateSystem {
    type V = SCoordType;

    open spec fn deep_view(&self) -> SCoordType {
        match self {
            CoordinateSystem::Cartesian => SCoordType::Cartesian,
            CoordinateSystem::Polar { start } => SCoordType::Polar { start: start@ },
        }
    }
}

/// A step in building the plot's theme from the default one: settings from
/// an inline `THEME { ... }`, or a theme file to read (its path as written).
pub enum ThemeStep {
    Settings(Vec<ThemeSetting>),
    File(String),
}

pub enum SThemeStep {
    Settings(Seq<SThemeSetting>),
    File(Seq<char>),
}

impl DeepView for ThemeStep {
    type V = SThemeStep;

    open spec fn deep_view(&self) -> SThemeStep {
        match self {
            ThemeStep::Settings(s) => SThemeStep::Settings(s.deep_view()),
            ThemeStep::File(p) => SThemeStep::File(p@),
        }
    }
}

/// A model of a plot: default mappings, layers, scales, facets,
/// coordinates, theme steps and labels.
pub struct Blueprint {
    /// Default mappings of data to visual channels.
    pub mappings: Vec<Mapping>,
    pub layers: Vec<Layer>,
    /// Scales given explicitly (more are chosen from the data when rendering).
    pub scales: Vec<ScaleKind>,
    pub facet: Option<FacetSpec>,
    pub coordinates: CoordinateSystem,
    pub theme_steps: Vec<ThemeStep>,
    pub title: Option<String>,
    pub caption: Option<String>,
    /// Optional x-axis label (defaults to the mapped column name).
    pub x_label: Option<String>,
    /// Optional y-axis label (defaults to the mapped column name).
    pub y_label: Option<String>,
}

pub struct SBlueprint {
    pub mappings: Seq<SMapping>,
    pub layers: Seq<SLayer>,
    pub scales: Seq<ScaleKind>,
    pub facet: Option<SFacetSpec>,
    pub coordinates: SCoordType,
    pub theme_steps: Seq<SThemeStep>,
    pub title: Option<Seq<char>>,
    pub caption: Option<Seq<char>>,
    pub x_label: Option<Seq<char>>,
    pub y_label: Option<Seq<char>>,
}

pub open spec fn opt_facet_view(f: Option<FacetSpec>) -> Option<SFacetSpec> {
    match f {
        Some(f) => Some(f.deep_view()),
        None => None,
    }
}

impl DeepView for Blueprint {
    type V = SBlueprint;

    open spec fn deep_view(&self) -> SBlueprint {
        SBlueprint {
            mappings: self.mappings.deep_view(),
            layers: self.layers.deep_view(),
            scales: self.scales@,
            facet: opt_facet_view(self.facet),
            coordinates: self.coordinates.deep_view(),
            theme_steps: self.theme_steps.deep_view(),
            title: opt_string_view(self.title),
            caption: opt_string_view(self.caption),
            x_label: opt_string_view(self.x_label),
            y_label: opt_string_view(self.y_label),
        }
    }
}

/// The empty blueprint.
pub open spec fn empty_blueprint() -> SBlueprint {
    SBlueprint {
        mappings: seq![],
        layers: seq![],
        scales: seq![],
        facet: None,
        coordinates: SCoordType::Cartesian,
        theme_steps: seq![],
        title: None,
        caption: None,
        x_label: None,
        y_label: None,
    }
}

impl Blueprint {
    /// Create a new, empty blueprint.
    pub fn new() -> (r: Self)
        ensures
            r.deep_view() == empty_blueprint(),
    {
        let r = Blueprint {
            mappings: Vec::new(),
            layers: Vec::new(),
            scales: Vec::new(),
            facet: None,
            coordinates: CoordinateSystem::Cartesian,
            theme_steps: Vec::new(),
            title: None,
            caption: None,
            x_label: None,
            y_label: None,
        };
        assert(r.deep_view().mappings =~= Seq::<SMapping>::empty());
        assert(r.deep_view().layers =~= Seq::<SLayer>::empty());
        assert(r.deep_view().theme_steps =~= Seq::<SThemeStep>::empty());
        assert(r.scales@ =~= Seq::<ScaleKind>::empty());
        r
    }

    pub fn with_layer(self, layer: Layer) -> (r: Self)
        ensures
            r.deep_view() == (SBlueprint { layers: self.deep_view().layers.push(layer.deep_view()), ..self.deep_view() }),
    {
        let mut this = self;
        let ghost before = this.layers.deep_view();
        let ghost lv = layer.deep_view();
        this.layers.push(layer);
        assert(this.layers.deep_view() =~= before.push(lv));
        this
    }

    pub fn with_scale(self, scale: ScaleKind) -> (r: Self)
        ensures
            r.deep_view() == (SBlueprint { scales: self.deep_view().scales.push(scale), ..self.deep_view() }),
    {
        let mut this = self;
        this.scales.push(scale);
        this
    }

    /// Whether some scale of the blueprint serves the family.
    pub fn has_scale_for_family(&self, family: AestheticFamily) -> (r: bool)
        ensures
            r == exists|i: int| 0 <= i < self.scales@.len() && spec_scale_family(#[trigger] self.scales@[i]) == family,
    {
        let mut k: usize = 0;
        while k < self.scales.len()
            invariant
                k <= self.scales.len(),
                forall|i: int| 0 <= i < k ==> spec_scale_family(#[trigger] self.scales@[i]) != family,
            decreases self.scales.len() - k,
        {
            if self.scales[k].aesthetic_family() == family {
                return true;
            }
            k = k + 1;
        }
        false
    }

    pub fn with_facet_spec(self, spec: FacetSpec) -> (r: Self)
        ensures
            r.deep_view() == (SBlueprint { facet: Some(spec.deep_view()), ..self.deep_view() }),
    {
        let mut this = self;
        this.facet = Some(spec);
        this
    }

    pub fn with_mapping(self, mapping: Mapping) -> (r: Self)
        ensures
            r.deep_view() == (SBlueprint { mappings: self.deep_view().mappings.push(mapping.deep_view()), ..self.deep_view() }),
    {
        let mut this = self;
        let ghost before = this.mappings.deep_view();
        let ghost mv = mapping.deep_view();
        this.mappings.push(mapping);
        assert(this.mappings.deep_view() =~= before.push(mv));
        this
    }

    pub fn with_coordinates(self, coordinates: CoordinateSystem) -> (r: Self)
        ensures
            r.deep_view() == (SBlueprint { coordinates: coordinates.deep_view(), ..self.deep_view() }),
    {
        let mut this = self;
        this.coordinates = coordinates;
        this
    }

    pub fn with_theme_step(self, step: ThemeStep) -> (r: Self)
        ensures
            r.deep_view() == (SBlueprint { theme_steps: self.deep_view().theme_steps.push(step.deep_view()), ..self.deep_view() }),
    {
        let mut this = self;
        let ghost before = this.theme_steps.deep_view();
        let ghost sv = step.deep_view();
        this.theme_steps.push(step);
        assert(this.theme_steps.deep_view() =~= before.push(sv));
        this
    }

    pub fn with_title(self, title: String) -> (r: Self)
        ensures
            r.deep_view() == (SBlueprint { title: Some(title@), ..self.deep_view() }),
    {
        let mut this = self;
        this.title = Some(title);
        this
    }

    pub fn with_caption(self, caption: String) -> (r: Self)
        ensures
            r.deep_view() == (SBlueprint { caption: Some(caption@), ..self.deep_view() }),
    {
        let mut this = self;
        this.caption = Some(caption);
        this
    }

    pub fn with_x_label(self, label: String) -> (r: Self)
        ensures
            r.deep_view() == (SBlueprint { x_label: Some(label@), ..self.deep_view() }),
    {
        let mut this = self;
        this.x_label = Some(label);
        this
    }

    pub fn with_y_label(self, label: String) -> (r: Self)
        ensures
            r.deep_view() == (SBlueprint { y_label: Some(label@), ..self.deep_view() }),
    {
        let mut this = self;
        this.y_label = Some(label);
        this
    }
}

} // verus!
