//! Geometries: what each kind of layer draws and which aesthetics it uses.
use vstd::prelude::*;
use crate::aesthetic::{spec_family, Aesthetic, AestheticFamily};

verus! {

/// Renders a marker for every data point (the scatterplot).
///
/// Required aesthetics: `x`, `y`. Extra aesthetics: `color`.
#[derive(Clone, Copy, Debug, PartialEq, Eq, Structural)]
pub struct GeomPoint;

/// Renders connected line segments through data points; when `group` is
/// mapped, each group is its own line.
///
/// Required aesthetics: `x`, `y`. Extra aesthetics: `group`, `color`.
#[derive(Clone, Copy, Debug, PartialEq, Eq, Structural)]
pub struct GeomLine;

/// Position adjustment strategy for bar charts.
#[derive(Clone, Copy, Debug, PartialEq, Eq, Structural)]
pub enum BarPosition {
    Stack,
    Dodge,
}

/// Renders rectangular bars, from counts or from `y` values.
///
/// Required aesthetics: `x`. Extra aesthetics: `y`, `fill`, `color`.
#[derive(Clone, Copy, Debug, PartialEq, Eq, Structural)]
pub struct GeomBar {
    pub position: BarPosition,
}

/// The kind of geometry a layer draws.
#[derive(Clone, Copy, Debug, PartialEq, Eq, Structural)]
pub enum LayerGeometry {
    Point(GeomPoint),
    Line(GeomLine),
    Bar(GeomBar),
}

pub open spec fn spec_required_aesthetics(g: LayerGeometry) -> Seq<Aesthetic> {
    match g {
        LayerGeometry::Point(_) => seq![Aesthetic::X, Aesthetic::Y],
        LayerGeometry::Line(_) => seq![Aesthetic::X, Aesthetic::Y],
        LayerGeometry::Bar(_) => seq![Aesthetic::X],
    }
}

pub open spec fn spec_extra_aesthetics(g: LayerGeometry) -> Seq<Aesthetic> {
    match g {
        LayerGeometry::Point(_) => seq![Aesthetic::Color],
        LayerGeometry::Line(_) => seq![Aesthetic::Group, Aesthetic::Color],
        LayerGeometry::Bar(_) => seq![Aesthetic::Y, Aesthetic::Fill, Aesthetic::Color],
    }
}

/// The families of a geometry's aesthetics, required ones first.
pub open spec fn spec_aesthetic_families(g: LayerGeometry) -> Seq<AestheticFamily> {
    (spec_required_aesthetics(g) + spec_extra_aesthetics(g)).map_values(|a: Aesthetic| spec_family(a))
}

impl LayerGeometry {
    /// These aesthetics must be given to use the geometry.
    pub fn required_aesthetics(&self) -> (r: Vec<Aesthetic>)
        ensures
            r@ == spec_required_aesthetics(*self),
    {
        match self {
            LayerGeometry::Point(_) => vec![Aesthetic::X, Aesthetic::Y],
            LayerGeometry::Line(_) => vec![Aesthetic::X, Aesthetic::Y],
            LayerGeometry::Bar(_) => vec![Aesthetic::X],
        }
    }

    /// These aesthetics are supported but not required.
    pub fn extra_aesthetics(&self) -> (r: Vec<Aesthetic>)
        ensures
            r@ == spec_extra_aesthetics(*self),
    {
        match self {
            LayerGeometry::Point(_) => vec![Aesthetic::Color],
            LayerGeometry::Line(_) => vec![Aesthetic::Group, Aesthetic::Color],
            LayerGeometry::Bar(_) => vec![Aesthetic::Y, Aesthetic::Fill, Aesthetic::Color],
        }
    }

    /// The families of the aesthetics this geometry uses, required ones first.
    pub fn aesthetic_families(&self) -> (r: Vec<AestheticFamily>)
        ensures
            r@ == spec_aesthetic_families(*self),
    {
        let mut all = self.required_aesthetics();
        let mut extra = self.extra_aesthetics();
        all.append(&mut extra);
        let ghost aes = all@;
        let mut r: Vec<AestheticFamily> = Vec::new();
        let mut k: usize = 0;
        while k < all.len()
            invariant
                k <= all.len(),
                all@ == aes,
                aes == spec_required_aesthetics(*self) + spec_extra_aesthetics(*self),
                r@ == aes.take(k as int).map_values(|a: Aesthetic| spec_family(a)),
            decreases all.len() - k,
        {
            r.push(all[k].family());
            assert(aes.take(k as int + 1) =~= aes.take(k as int).push(aes[k as int]));
            k = k + 1;
        }
        assert(aes.take(aes.len() as int) =~= aes);
        r
    }
}

} // verus!
