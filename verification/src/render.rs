//! What rendering decides before it draws: which columns feed which
//! aesthetics of each layer, which scales the plot gets, and whether every
//! layer has what its geometry needs.
use vstd::prelude::*;
use crate::aesthetic::{spec_aes_index, spec_family, spec_name, Aesthetic, AestheticFamily, Mapping, SMapping};
use crate::error::{error_message, GglangError};
use crate::geom::spec_required_aesthetics;
use crate::geom::LayerGeometry;
use crate::plot::{Blueprint, LayerStat, SBlueprint, SLayer};
use crate::scale::{default_scale_for, spec_default_scale_for, spec_scale_family, Axis, ColumnKind, ScaleKind};

verus! {

/// A data column as rendering sees it before drawing: its name and the kind
/// of values it holds.
pub struct ColumnInfo {
    pub name: String,
    pub kind: ColumnKind,
}

impl DeepView for ColumnInfo {
    type V = (Seq<char>, ColumnKind);

    open spec fn deep_view(&self) -> (Seq<char>, ColumnKind) {
        (self.name@, self.kind)
    }
}

/// An aesthetic of a layer fed by a data column (its position among the columns).
#[derive(Debug, Clone, Copy, PartialEq, Eq, Structural)]
pub struct Binding {
    pub aesthetic: Aesthetic,
    pub column: usize,
}

impl DeepView for Binding {
    type V = Binding;

    open spec fn deep_view(&self) -> Binding {
        *self
    }
}

/// The aesthetics in the order in which rendering visits them.
pub open spec fn all_aesthetics() -> Seq<Aesthetic> {
    seq![Aesthetic::X, Aesthetic::Y, Aesthetic::Color, Aesthetic::Fill, Aesthetic::Group, Aesthetic::Alpha]
}

/// The column that a name refers to: the last one of that name, as a later
/// column of the same name replaces an earlier one.
pub open spec fn column_named(cols: Seq<(Seq<char>, ColumnKind)>, name: Seq<char>) -> Option<int>
    decreases cols.len(),
{
    if cols.len() == 0 {
        None
    } else if cols.last().0 == name {
        Some(cols.len() - 1)
    } else {
        column_named(cols.drop_last(), name)
    }
}

/// Whether some mapping is for the aesthetic.
pub open spec fn maps(ms: Seq<SMapping>, a: Aesthetic) -> bool {
    exists|i: int| 0 <= i < ms.len() && (#[trigger] ms[i]).aesthetic == a
}

/// Whether some scale serves the family.
pub open spec fn has_scale(scales: Seq<ScaleKind>, f: AestheticFamily) -> bool {
    exists|i: int| 0 <= i < scales.len() && spec_scale_family(#[trigger] scales[i]) == f
}

// ---------------------------------------------------------------------------
// Auto-mapping

/// An aesthetic that is not mapped yet, and has a column of its own name,
/// is mapped to that column; if no scale serves its family yet, it gets the
/// default scale for the column's kind.
pub open spec fn auto_map_one(bp: SBlueprint, cols: Seq<(Seq<char>, ColumnKind)>, a: Aesthetic) -> SBlueprint {
    if maps(bp.mappings, a) {
        bp
    } else {
        match column_named(cols, spec_name(a)) {
            None => bp,
            Some(i) => {
                let mapped = SBlueprint {
                    mappings: bp.mappings.push(SMapping { aesthetic: a, variable: spec_name(a) }),
                    ..bp
                };
                if has_scale(bp.scales, spec_family(a)) {
                    mapped
                } else {
                    match spec_default_scale_for(a, Some(cols[i].1)) {
                        Some(k) => SBlueprint { scales: bp.scales.push(k), ..mapped },
                        None => mapped,
                    }
                }
            },
        }
    }
}

/// Auto-mapping of the first `n` aesthetics, in order.
pub open spec fn auto_map_upto(bp: SBlueprint, cols: Seq<(Seq<char>, ColumnKind)>, n: nat) -> SBlueprint
    decreases n,
{
    if n == 0 {
        bp
    } else {
        auto_map_one(auto_map_upto(bp, cols, (n - 1) as nat), cols, all_aesthetics()[n - 1])
    }
}

/// The blueprint after auto-mapping every aesthetic.
pub open spec fn spec_auto_map(bp: SBlueprint, cols: Seq<(Seq<char>, ColumnKind)>) -> SBlueprint {
    auto_map_upto(bp, cols, 6)
}

// ---------------------------------------------------------------------------
// Effective mappings and bindings

/// The variable of the last mapping for the aesthetic.
pub open spec fn last_variable(ms: Seq<SMapping>, a: Aesthetic) -> Option<Seq<char>>
    decreases ms.len(),
{
    if ms.len() == 0 {
        None
    } else if ms.last().aesthetic == a {
        Some(ms.last().variable)
    } else {
        last_variable(ms.drop_last(), a)
    }
}

/// The variable that feeds an aesthetic in a layer: none where the layer
/// gives it a constant; else the layer's own mapping, else the blueprint's.
pub open spec fn effective_variable(globals: Seq<SMapping>, layer: SLayer, a: Aesthetic) -> Option<Seq<char>> {
    if layer.constants[spec_aes_index(a)] is Some {
        None
    } else {
        match last_variable(layer.mappings, a) {
            Some(v) => Some(v),
            None => last_variable(globals, a),
        }
    }
}

/// The bindings of a layer's first `n` aesthetics, or the first variable
/// that names no column.
pub open spec fn bind_upto(globals: Seq<SMapping>, layer: SLayer, cols: Seq<(Seq<char>, ColumnKind)>, n: nat) -> Result<Seq<Binding>, Seq<char>>
    decreases n,
{
    if n == 0 {
        Ok(seq![])
    } else {
        match bind_upto(globals, layer, cols, (n - 1) as nat) {
            Err(v) => Err(v),
            Ok(bs) => {
                let a = all_aesthetics()[n - 1];
                match effective_variable(globals, layer, a) {
                    None => Ok(bs),
                    Some(v) => match column_named(cols, v) {
                        None => Err(v),
                        Some(i) => Ok(bs.push(Binding { aesthetic: a, column: i as usize })),
                    },
                }
            },
        }
    }
}

/// The bindings of a layer, aesthetics in order, or the first variable that
/// names no column.
pub open spec fn spec_layer_bindings(globals: Seq<SMapping>, layer: SLayer, cols: Seq<(Seq<char>, ColumnKind)>) -> Result<Seq<Binding>, Seq<char>> {
    bind_upto(globals, layer, cols, 6)
}

/// The bindings of the first `n` layers, or the first variable that names no
/// column.
pub open spec fn bind_layers_upto(bp: SBlueprint, cols: Seq<(Seq<char>, ColumnKind)>, n: nat) -> Result<Seq<Seq<Binding>>, Seq<char>>
    decreases n,
{
    if n == 0 {
        Ok(seq![])
    } else {
        match bind_layers_upto(bp, cols, (n - 1) as nat) {
            Err(v) => Err(v),
            Ok(all) => match spec_layer_bindings(bp.mappings, bp.layers[n - 1], cols) {
                Ok(bs) => Ok(all.push(bs)),
                Err(v) => Err(v),
            },
        }
    }
}

/// The bindings of every layer, or the first variable (layers and aesthetics
/// in order) that names no column.
pub open spec fn spec_bindings(bp: SBlueprint, cols: Seq<(Seq<char>, ColumnKind)>) -> Result<Seq<Seq<Binding>>, Seq<char>> {
    bind_layers_upto(bp, cols, bp.layers.len())
}

/// The message for a variable that names no column.
pub open spec fn missing_column_message(v: Seq<char>) -> Seq<char> {
    "Column '"@ + v + "' not found in data"@
}

// ---------------------------------------------------------------------------
// Default scales

/// The column that feeds the aesthetic among a layer's bindings.
pub open spec fn bound_column(bs: Seq<Binding>, a: Aesthetic) -> Option<usize>
    decreases bs.len(),
{
    if bs.len() == 0 {
        None
    } else if bs.last().aesthetic == a {
        Some(bs.last().column)
    } else {
        bound_column(bs.drop_last(), a)
    }
}

/// The kind of the column that feeds the aesthetic in the first layer that
/// has one for it.
pub open spec fn first_bound_kind(bindings: Seq<Seq<Binding>>, cols: Seq<(Seq<char>, ColumnKind)>, a: Aesthetic) -> Option<ColumnKind>
    decreases bindings.len(),
{
    if bindings.len() == 0 {
        None
    } else {
        match first_bound_kind(bindings.drop_last(), cols, a) {
            Some(k) => Some(k),
            None => match bound_column(bindings.last(), a) {
                Some(c) => Some(cols[c as int].1),
                None => None,
            },
        }
    }
}

/// An aesthetic whose family has no scale yet gets the default scale for
/// the kind of the first column that feeds it in some layer.
pub open spec fn default_scale_one(scales: Seq<ScaleKind>, bindings: Seq<Seq<Binding>>, cols: Seq<(Seq<char>, ColumnKind)>, a: Aesthetic) -> Seq<ScaleKind> {
    if has_scale(scales, spec_family(a)) {
        scales
    } else {
        match first_bound_kind(bindings, cols, a) {
            None => scales,
            Some(k) => match spec_default_scale_for(a, Some(k)) {
                Some(s) => scales.push(s),
                None => scales,
            },
        }
    }
}

pub open spec fn default_scales_upto(scales: Seq<ScaleKind>, bindings: Seq<Seq<Binding>>, cols: Seq<(Seq<char>, ColumnKind)>, n: nat) -> Seq<ScaleKind>
    decreases n,
{
    if n == 0 {
        scales
    } else {
        default_scale_one(default_scales_upto(scales, bindings, cols, (n - 1) as nat), bindings, cols, all_aesthetics()[n - 1])
    }
}

/// The scales after adding the defaults, aesthetics in order.
pub open spec fn spec_default_scales(scales: Seq<ScaleKind>, bindings: Seq<Seq<Binding>>, cols: Seq<(Seq<char>, ColumnKind)>) -> Seq<ScaleKind> {
    default_scales_upto(scales, bindings, cols, 6)
}

// ---------------------------------------------------------------------------
// Required aesthetics

/// Whether each aesthetic that a layer's geometry requires is fed by a
/// column or given a constant.
pub open spec fn layer_complete(layer: SLayer, bs: Seq<Binding>) -> bool {
    forall|r: int| 0 <= r < spec_required_aesthetics(layer.geometry).len() ==> {
        let a = #[trigger] spec_required_aesthetics(layer.geometry)[r];
        bound_column(bs, a) is Some || layer.constants[spec_aes_index(a)] is Some
    }
}

pub open spec fn all_complete(layers: Seq<SLayer>, bindings: Seq<Seq<Binding>>) -> bool {
    forall|i: int| 0 <= i < layers.len() ==> layer_complete(#[trigger] layers[i], bindings[i])
}

/// The first of the first `n` aesthetics that a layer's geometry requires
/// that is neither fed by a column nor given a constant.
pub open spec fn gap_upto(layer: SLayer, bs: Seq<Binding>, n: nat) -> Option<Aesthetic>
    decreases n,
{
    if n == 0 {
        None
    } else {
        match gap_upto(layer, bs, (n - 1) as nat) {
            Some(a) => Some(a),
            None => {
                let a = spec_required_aesthetics(layer.geometry)[n - 1];
                if bound_column(bs, a) is Some || layer.constants[spec_aes_index(a)] is Some {
                    None
                } else {
                    Some(a)
                }
            },
        }
    }
}

/// The first required aesthetic that a layer lacks.
pub open spec fn layer_gap(layer: SLayer, bs: Seq<Binding>) -> Option<Aesthetic> {
    gap_upto(layer, bs, spec_required_aesthetics(layer.geometry).len())
}

/// The first aesthetic lacking in the first `n` layers (layers in order).
pub open spec fn gaps_upto(layers: Seq<SLayer>, bindings: Seq<Seq<Binding>>, n: nat) -> Option<Aesthetic>
    decreases n,
{
    if n == 0 {
        None
    } else {
        match gaps_upto(layers, bindings, (n - 1) as nat) {
            Some(a) => Some(a),
            None => layer_gap(layers[n - 1], bindings[n - 1]),
        }
    }
}

/// The first required aesthetic lacking in some layer, layers in order.
pub open spec fn first_gap(layers: Seq<SLayer>, bindings: Seq<Seq<Binding>>) -> Option<Aesthetic> {
    gaps_upto(layers, bindings, layers.len())
}

/// The message for a lacking required aesthetic.
pub open spec fn missing_aesthetic_message(a: Aesthetic) -> Seq<char> {
    "Missing required aesthetic '"@ + spec_name(a) + "'"@
}

} // verus!

verus! {

// ---------------------------------------------------------------------------
// Lookups

proof fn lemma_column_named_take(s: Seq<(Seq<char>, ColumnKind)>, name: Seq<char>, k: int)
    requires
        0 <= k <= s.len(),
        forall|j: int| k <= j < s.len() ==> (#[trigger] s[j]).0 != name,
    ensures
        column_named(s, name) == column_named(s.take(k), name),
    decreases s.len() - k,
{
    if k < s.len() {
        assert(s.drop_last().take(k) =~= s.take(k));
        lemma_column_named_take(s.drop_last(), name, k);
    } else {
        assert(s.take(k) =~= s);
    }
}

proof fn lemma_column_named_range(s: Seq<(Seq<char>, ColumnKind)>, name: Seq<char>)
    ensures
        column_named(s, name) matches Some(i) ==> 0 <= i < s.len() && s[i].0 == name,
    decreases s.len(),
{
    if s.len() > 0 {
        lemma_column_named_range(s.drop_last(), name);
    }
}

/// The position of the column that a name refers to (see `column_named`).
pub fn find_column(cols: &Vec<ColumnInfo>, name: &String) -> (r: Option<usize>)
    ensures
        match r {
            Some(i) => column_named(cols.deep_view(), name@) == Some(i as int) && i < cols.len(),
            None => column_named(cols.deep_view(), name@) is None,
        },
{
    let ghost d = cols.deep_view();
    let mut k: usize = cols.len();
    while k > 0
        invariant
            k <= cols.len(),
            d == cols.deep_view(),
            forall|j: int| k <= j < d.len() ==> (#[trigger] d[j]).0 != name@,
        decreases k,
    {
        assert(d[k as int - 1] == cols[k as int - 1].deep_view());
        if cols[k - 1].name == *name {
            proof {
                lemma_column_named_take(d, name@, k as int);
                assert(d.take(k as int).last() == d[k as int - 1]);
            }
            return Some(k - 1);
        }
        k = k - 1;
    }
    proof {
        lemma_column_named_take(d, name@, 0);
    }
    None
}

fn maps_aesthetic(ms: &Vec<Mapping>, a: Aesthetic) -> (r: bool)
    ensures
        r == maps(ms.deep_view(), a),
{
    let mut k: usize = 0;
    while k < ms.len()
        invariant
            k <= ms.len(),
            forall|j: int| 0 <= j < k ==> (#[trigger] ms.deep_view()[j]).aesthetic != a,
        decreases ms.len() - k,
    {
        assert(ms.deep_view()[k as int] == ms[k as int].deep_view());
        if ms[k].aesthetic == a {
            return true;
        }
        k = k + 1;
    }
    false
}

proof fn lemma_last_variable_take(s: Seq<SMapping>, a: Aesthetic, k: int)
    requires
        0 <= k <= s.len(),
        forall|j: int| k <= j < s.len() ==> (#[trigger] s[j]).aesthetic != a,
    ensures
        last_variable(s, a) == last_variable(s.take(k), a),
    decreases s.len() - k,
{
    if k < s.len() {
        assert(s.drop_last().take(k) =~= s.take(k));
        lemma_last_variable_take(s.drop_last(), a, k);
    } else {
        assert(s.take(k) =~= s);
    }
}

fn last_variable_of(ms: &Vec<Mapping>, a: Aesthetic) -> (r: Option<&String>)
    ensures
        match r {
            Some(v) => last_variable(ms.deep_view(), a) == Some(v@),
            None => last_variable(ms.deep_view(), a) is None,
        },
{
    let ghost d = ms.deep_view();
    let mut k: usize = ms.len();
    while k > 0
        invariant
            k <= ms.len(),
            d == ms.deep_view(),
            forall|j: int| k <= j < d.len() ==> (#[trigger] d[j]).aesthetic != a,
        decreases k,
    {
        assert(d[k as int - 1] == ms[k as int - 1].deep_view());
        if ms[k - 1].aesthetic == a {
            proof {
                lemma_last_variable_take(d, a, k as int);
                assert(d.take(k as int).last() == d[k as int - 1]);
            }
            return Some(&ms[k - 1].variable);
        }
        k = k - 1;
    }
    proof {
        lemma_last_variable_take(d, a, 0);
    }
    None
}

// ---------------------------------------------------------------------------
// Auto-mapping

impl Blueprint {
    fn auto_map_aesthetic(&mut self, a: Aesthetic, columns: &Vec<ColumnInfo>)
        ensures
            final(self).deep_view() == auto_map_one(old(self).deep_view(), columns.deep_view(), a),
    {
        if maps_aesthetic(&self.mappings, a) {
            return;
        }
        let name = a.name().to_owned();
        match find_column(columns, &name) {
            None => {},
            Some(i) => {
                let served = self.has_scale_for_family(a.family());
                let ghost before = self.mappings.deep_view();
                let m = Mapping { aesthetic: a, variable: name };
                let ghost mv = m.deep_view();
                self.mappings.push(m);
                assert(self.mappings.deep_view() =~= before.push(mv));
                if !served {
                    assert(columns.deep_view()[i as int] == columns[i as int].deep_view());
                    match default_scale_for(&a, Some(columns[i].kind)) {
                        Some(k) => self.scales.push(k),
                        None => {},
                    }
                }
            },
        }
    }

    /// Maps each aesthetic that is not mapped yet to the column of its own
    /// name, where there is one, and gives it a default scale where its
    /// family has none (see `spec_auto_map`).
    pub fn auto_map(&mut self, columns: &Vec<ColumnInfo>)
        ensures
            final(self).deep_view() == spec_auto_map(old(self).deep_view(), columns.deep_view()),
    {
        let ghost start = self.deep_view();
        let all = Aesthetic::all();
        let mut n: usize = 0;
        while n < 6
            invariant
                n <= 6,
                all@ == all_aesthetics(),
                self.deep_view() == auto_map_upto(start, columns.deep_view(), n as nat),
            decreases 6 - n,
        {
            self.auto_map_aesthetic(all[n], columns);
            n = n + 1;
        }
    }
}

} // verus!

verus! {

// ---------------------------------------------------------------------------
// Bindings

/// Whether every binding refers to one of `n` columns.
pub open spec fn bindings_in_range(bs: Seq<Binding>, n: nat) -> bool {
    forall|j: int| 0 <= j < bs.len() ==> (#[trigger] bs[j]).column < n
}

proof fn lemma_bind_upto_fail(globals: Seq<SMapping>, layer: SLayer, cols: Seq<(Seq<char>, ColumnKind)>, m: nat, n: nat)
    requires
        m <= n,
        bind_upto(globals, layer, cols, m) is Err,
    ensures
        bind_upto(globals, layer, cols, n) == bind_upto(globals, layer, cols, m),
    decreases n - m,
{
    if m < n {
        lemma_bind_upto_fail(globals, layer, cols, m, (n - 1) as nat);
    }
}

proof fn lemma_bind_layers_fail(bp: SBlueprint, cols: Seq<(Seq<char>, ColumnKind)>, m: nat, n: nat)
    requires
        m <= n,
        bind_layers_upto(bp, cols, m) is Err,
    ensures
        bind_layers_upto(bp, cols, n) == bind_layers_upto(bp, cols, m),
    decreases n - m,
{
    if m < n {
        lemma_bind_layers_fail(bp, cols, m, (n - 1) as nat);
    }
}

proof fn lemma_gap_stays(layer: SLayer, bs: Seq<Binding>, m: nat, n: nat)
    requires
        m <= n,
        gap_upto(layer, bs, m) is Some,
    ensures
        gap_upto(layer, bs, n) == gap_upto(layer, bs, m),
    decreases n - m,
{
    if m < n {
        lemma_gap_stays(layer, bs, m, (n - 1) as nat);
    }
}

proof fn lemma_gaps_stay(layers: Seq<SLayer>, bindings: Seq<Seq<Binding>>, m: nat, n: nat)
    requires
        m <= n,
        gaps_upto(layers, bindings, m) is Some,
    ensures
        gaps_upto(layers, bindings, n) == gaps_upto(layers, bindings, m),
    decreases n - m,
{
    if m < n {
        lemma_gaps_stay(layers, bindings, m, (n - 1) as nat);
    }
}

fn column_missing(variable: &String) -> (e: GglangError)
    ensures
        e is Render,
        error_message(e) == missing_column_message(variable@),
{
    let mut m = "Column '".to_owned();
    m.append(variable.as_str());
    m.append("' not found in data");
    GglangError::Render { message: m }
}

impl Blueprint {
    /// The variable that feeds an aesthetic in a layer (see `effective_variable`).
    pub fn effective_variable(&self, layer: usize, a: Aesthetic) -> (r: Option<&String>)
        requires
            layer < self.layers.len(),
        ensures
            match r {
                Some(v) => effective_variable(self.deep_view().mappings, self.deep_view().layers[layer as int], a) == Some(v@),
                None => effective_variable(self.deep_view().mappings, self.deep_view().layers[layer as int], a) is None,
            },
    {
        let l = &self.layers[layer];
        assert(self.deep_view().layers[layer as int] == l.deep_view());
        if l.constants.contains(a) {
            None
        } else {
            match last_variable_of(&l.mappings, a) {
                Some(v) => Some(v),
                None => last_variable_of(&self.mappings, a),
            }
        }
    }

    /// The columns that feed a layer's aesthetics, aesthetics in order (see
    /// `spec_layer_bindings`); a variable that names no column is a render error.
    pub fn bind_layer(&self, layer: usize, columns: &Vec<ColumnInfo>) -> (r: Result<Vec<Binding>, GglangError>)
        requires
            layer < self.layers.len(),
        ensures
            match r {
                Ok(bs) => spec_layer_bindings(self.deep_view().mappings, self.deep_view().layers[layer as int], columns.deep_view())
                    == Ok::<_, Seq<char>>(bs@) && bindings_in_range(bs@, columns.len() as nat),
                Err(e) => e is Render
                    && (spec_layer_bindings(self.deep_view().mappings, self.deep_view().layers[layer as int], columns.deep_view())
                        matches Err(v) && error_message(e) == missing_column_message(v)),
            },
    {
        let ghost globals = self.deep_view().mappings;
        let ghost lv = self.deep_view().layers[layer as int];
        let ghost cols = columns.deep_view();
        let all = Aesthetic::all();
        let mut bs: Vec<Binding> = Vec::new();
        let mut n: usize = 0;
        while n < 6
            invariant
                n <= 6,
                layer < self.layers.len(),
                all@ == all_aesthetics(),
                globals == self.deep_view().mappings,
                lv == self.deep_view().layers[layer as int],
                cols == columns.deep_view(),
                bind_upto(globals, lv, cols, n as nat) == Ok::<_, Seq<char>>(bs@),
                bindings_in_range(bs@, columns.len() as nat),
            decreases 6 - n,
        {
            let a = all[n];
            match self.effective_variable(layer, a) {
                None => {},
                Some(v) => match find_column(columns, v) {
                    None => {
                        proof {
                            lemma_bind_upto_fail(globals, lv, cols, (n + 1) as nat, 6);
                        }
                        return Err(column_missing(v));
                    },
                    Some(i) => {
                        bs.push(Binding { aesthetic: a, column: i });
                    },
                },
            }
            n = n + 1;
        }
        Ok(bs)
    }

    /// The bindings of every layer, in layer order (see `spec_bindings`).
    pub fn bind_layers(&self, columns: &Vec<ColumnInfo>) -> (r: Result<Vec<Vec<Binding>>, GglangError>)
        ensures
            match r {
                Ok(all) => spec_bindings(self.deep_view(), columns.deep_view()) == Ok::<_, Seq<char>>(all.deep_view())
                    && all.len() == self.layers.len()
                    && forall|i: int| 0 <= i < all.len() ==> bindings_in_range(#[trigger] all.deep_view()[i], columns.len() as nat),
                Err(e) => e is Render
                    && (spec_bindings(self.deep_view(), columns.deep_view()) matches Err(v) && error_message(e) == missing_column_message(v)),
            },
    {
        let ghost bp = self.deep_view();
        let ghost cols = columns.deep_view();
        let mut all: Vec<Vec<Binding>> = Vec::new();
        let mut n: usize = 0;
        assert(all.deep_view() =~= Seq::<Seq<Binding>>::empty());
        while n < self.layers.len()
            invariant
                n <= self.layers.len(),
                all.len() == n,
                bp == self.deep_view(),
                cols == columns.deep_view(),
                bind_layers_upto(bp, cols, n as nat) == Ok::<_, Seq<char>>(all.deep_view()),
                forall|i: int| 0 <= i < all.len() ==> bindings_in_range(#[trigger] all.deep_view()[i], columns.len() as nat),
            decreases self.layers.len() - n,
        {
            match self.bind_layer(n, columns) {
                Ok(bs) => {
                    let ghost before = all.deep_view();
                    let ghost bv = bs@;
                    assert(bs.deep_view() =~= bv);
                    all.push(bs);
                    assert(all.deep_view() =~= before.push(bv));
                },
                Err(e) => {
                    proof {
                        lemma_bind_layers_fail(bp, cols, (n + 1) as nat, bp.layers.len());
                    }
                    return Err(e);
                },
            }
            n = n + 1;
        }
        Ok(all)
    }
}

} // verus!

verus! {

// ---------------------------------------------------------------------------
// Default scales and required aesthetics

proof fn lemma_bound_column_take(s: Seq<Binding>, a: Aesthetic, k: int)
    requires
        0 <= k <= s.len(),
        forall|j: int| k <= j < s.len() ==> (#[trigger] s[j]).aesthetic != a,
    ensures
        bound_column(s, a) == bound_column(s.take(k), a),
    decreases s.len() - k,
{
    if k < s.len() {
        assert(s.drop_last().take(k) =~= s.take(k));
        lemma_bound_column_take(s.drop_last(), a, k);
    } else {
        assert(s.take(k) =~= s);
    }
}

proof fn lemma_bound_column_range(s: Seq<Binding>, a: Aesthetic, n: nat)
    requires
        bindings_in_range(s, n),
    ensures
        bound_column(s, a) matches Some(c) ==> c < n,
    decreases s.len(),
{
    if s.len() > 0 {
        assert(s.last() == s[s.len() - 1]);
        lemma_bound_column_range(s.drop_last(), a, n);
    }
}

/// The column that feeds the aesthetic among a layer's bindings.
pub fn find_binding(bs: &Vec<Binding>, a: Aesthetic) -> (r: Option<usize>)
    ensures
        r == bound_column(bs@, a),
{
    let mut k: usize = bs.len();
    while k > 0
        invariant
            k <= bs.len(),
            forall|j: int| k <= j < bs.len() ==> (#[trigger] bs@[j]).aesthetic != a,
        decreases k,
    {
        if bs[k - 1].aesthetic == a {
            proof {
                lemma_bound_column_take(bs@, a, k as int);
                assert(bs@.take(k as int).last() == bs@[k as int - 1]);
            }
            return Some(bs[k - 1].column);
        }
        k = k - 1;
    }
    proof {
        lemma_bound_column_take(bs@, a, 0);
    }
    None
}

fn first_kind(bindings: &Vec<Vec<Binding>>, columns: &Vec<ColumnInfo>, a: Aesthetic) -> (r: Option<ColumnKind>)
    requires
        forall|i: int| 0 <= i < bindings.len() ==> bindings_in_range(#[trigger] bindings.deep_view()[i], columns.len() as nat),
    ensures
        r == first_bound_kind(bindings.deep_view(), columns.deep_view(), a),
{
    let ghost d = bindings.deep_view();
    let mut res: Option<ColumnKind> = None;
    let mut i: usize = 0;
    assert(d.take(0) =~= Seq::<Seq<Binding>>::empty());
    while i < bindings.len()
        invariant
            i <= bindings.len(),
            d == bindings.deep_view(),
            forall|i: int| 0 <= i < bindings.len() ==> bindings_in_range(#[trigger] bindings.deep_view()[i], columns.len() as nat),
            res == first_bound_kind(d.take(i as int), columns.deep_view(), a),
        decreases bindings.len() - i,
    {
        assert(d.take(i as int + 1).drop_last() =~= d.take(i as int));
        assert(d[i as int] =~= bindings[i as int]@);
        assert(d.take(i as int + 1).last() == d[i as int]);
        if res.is_none() {
            match find_binding(&bindings[i], a) {
                Some(c) => {
                    proof { lemma_bound_column_range(d[i as int], a, columns.len() as nat); }
                    assert(columns.deep_view()[c as int] == columns[c as int].deep_view());
                    res = Some(columns[c].kind);
                },
                None => {},
            }
        }
        i = i + 1;
    }
    assert(d.take(i as int) =~= d);
    res
}

impl Blueprint {
    /// Gives each aesthetic whose family has no scale yet the default scale
    /// for the first column that feeds it (see `spec_default_scales`).
    pub fn add_default_scales(&mut self, bindings: &Vec<Vec<Binding>>, columns: &Vec<ColumnInfo>)
        requires
            forall|i: int| 0 <= i < bindings.len() ==> bindings_in_range(#[trigger] bindings.deep_view()[i], columns.len() as nat),
        ensures
            final(self).deep_view() == (SBlueprint {
                scales: spec_default_scales(old(self).deep_view().scales, bindings.deep_view(), columns.deep_view()),
                ..old(self).deep_view()
            }),
    {
        let ghost start = self.deep_view();
        let all = Aesthetic::all();
        let mut n: usize = 0;
        while n < 6
            invariant
                n <= 6,
                all@ == all_aesthetics(),
                forall|i: int| 0 <= i < bindings.len() ==> bindings_in_range(#[trigger] bindings.deep_view()[i], columns.len() as nat),
                self.deep_view() == (SBlueprint {
                    scales: default_scales_upto(start.scales, bindings.deep_view(), columns.deep_view(), n as nat),
                    ..start
                }),
            decreases 6 - n,
        {
            let a = all[n];
            if !self.has_scale_for_family(a.family()) {
                match first_kind(bindings, columns, a) {
                    None => {},
                    Some(k) => match default_scale_for(&a, Some(k)) {
                        Some(s) => self.scales.push(s),
                        None => {},
                    },
                }
            }
            n = n + 1;
        }
    }

    /// Checks that each aesthetic a layer's geometry requires is fed by a
    /// column or given a constant; the first that is not is a render error.
    pub fn check_required(&self, bindings: &Vec<Vec<Binding>>) -> (r: Result<(), GglangError>)
        requires
            bindings.len() == self.layers.len(),
        ensures
            match r {
                Ok(_) => all_complete(self.deep_view().layers, bindings.deep_view())
                    && first_gap(self.deep_view().layers, bindings.deep_view()) is None,
                Err(e) => !all_complete(self.deep_view().layers, bindings.deep_view()) && e is Render
                    && (first_gap(self.deep_view().layers, bindings.deep_view()) matches Some(a)
                        && error_message(e) == missing_aesthetic_message(a)),
            },
    {
        let ghost layers = self.deep_view().layers;
        let ghost bs = bindings.deep_view();
        let mut i: usize = 0;
        while i < self.layers.len()
            invariant
                i <= self.layers.len(),
                bindings.len() == self.layers.len(),
                layers == self.deep_view().layers,
                bs == bindings.deep_view(),
                forall|j: int| 0 <= j < i ==> layer_complete(#[trigger] layers[j], bs[j]),
                gaps_upto(layers, bs, i as nat) is None,
            decreases self.layers.len() - i,
        {
            let layer = &self.layers[i];
            assert(layers[i as int] == layer.deep_view());
            assert(bs[i as int] =~= bindings[i as int]@);
            let required = layer.geometry.required_aesthetics();
            let mut r: usize = 0;
            while r < required.len()
                invariant
                    r <= required.len(),
                    i < self.layers.len(),
                    bindings.len() == self.layers.len(),
                    layers == self.deep_view().layers,
                    bs == bindings.deep_view(),
                    required@ == spec_required_aesthetics(layers[i as int].geometry),
                    layers[i as int] == layer.deep_view(),
                    bs[i as int] == bindings[i as int]@,
                    forall|q: int| 0 <= q < r ==> {
                        let a = #[trigger] spec_required_aesthetics(layers[i as int].geometry)[q];
                        bound_column(bs[i as int], a) is Some || layers[i as int].constants[spec_aes_index(a)] is Some
                    },
                    gaps_upto(layers, bs, i as nat) is None,
                    gap_upto(layers[i as int], bs[i as int], r as nat) is None,
                decreases required.len() - r,
            {
                let a = required[r];
                if find_binding(&bindings[i], a).is_none() && !layer.constants.contains(a) {
                    let mut m = "Missing required aesthetic '".to_owned();
                    m.append(a.name());
                    m.append("'");
                    assert(spec_required_aesthetics(layers[i as int].geometry)[r as int] == a);
                    assert(!layer_complete(layers[i as int], bs[i as int]));
                    proof {
                        assert(gap_upto(layers[i as int], bs[i as int], (r + 1) as nat) == Some(a));
                        lemma_gap_stays(layers[i as int], bs[i as int], (r + 1) as nat, required.len() as nat);
                        assert(gaps_upto(layers, bs, (i + 1) as nat) == Some(a));
                        lemma_gaps_stay(layers, bs, (i + 1) as nat, layers.len());
                    }
                    return Err(GglangError::Render { message: m });
                }
                r = r + 1;
            }
            assert(gaps_upto(layers, bs, (i + 1) as nat) is None);
            i = i + 1;
        }
        Ok(())
    }
}

} // verus!

verus! {

// ---------------------------------------------------------------------------
// The plan, labels and legend

/// The variable of the first mapping for the aesthetic.
pub open spec fn first_variable(ms: Seq<SMapping>, a: Aesthetic) -> Option<Seq<char>>
    decreases ms.len(),
{
    if ms.len() == 0 {
        None
    } else if ms[0].aesthetic == a {
        Some(ms[0].variable)
    } else {
        first_variable(ms.drop_first(), a)
    }
}

/// An axis label: the one given, else the variable first mapped to the axis.
pub open spec fn spec_axis_label(given: Option<Seq<char>>, ms: Seq<SMapping>, a: Aesthetic) -> Option<Seq<char>> {
    match given {
        Some(l) => Some(l),
        None => first_variable(ms, a),
    }
}

/// Whether a plot with these scales shows a legend: some scale serves
/// color or fill.
pub open spec fn spec_has_legend(scales: Seq<ScaleKind>) -> bool {
    exists|i: int| 0 <= i < scales.len()
        && (spec_scale_family(#[trigger] scales[i]) == AestheticFamily::Color || spec_scale_family(scales[i]) == AestheticFamily::Fill)
}

proof fn lemma_first_variable_take(s: Seq<SMapping>, a: Aesthetic, k: int)
    requires
        0 <= k <= s.len(),
        forall|j: int| 0 <= j < k ==> (#[trigger] s[j]).aesthetic != a,
    ensures
        first_variable(s, a) == first_variable(s.skip(k), a),
    decreases k,
{
    if k > 0 {
        assert(s.drop_first().skip(k - 1) =~= s.skip(k));
        lemma_first_variable_take(s.drop_first(), a, k - 1);
    } else {
        assert(s.skip(0) =~= s);
    }
}

fn first_variable_of(ms: &Vec<Mapping>, a: Aesthetic) -> (r: Option<String>)
    ensures
        match r {
            Some(v) => first_variable(ms.deep_view(), a) == Some(v@),
            None => first_variable(ms.deep_view(), a) is None,
        },
{
    let ghost d = ms.deep_view();
    let mut k: usize = 0;
    while k < ms.len()
        invariant
            k <= ms.len(),
            d == ms.deep_view(),
            forall|j: int| 0 <= j < k ==> (#[trigger] d[j]).aesthetic != a,
        decreases ms.len() - k,
    {
        assert(d[k as int] == ms[k as int].deep_view());
        if ms[k].aesthetic == a {
            proof {
                lemma_first_variable_take(d, a, k as int);
                assert(d.skip(k as int)[0] == d[k as int]);
            }
            return Some(ms[k].variable.clone());
        }
        k = k + 1;
    }
    proof {
        lemma_first_variable_take(d, a, k as int);
    }
    None
}

fn clone_label(l: &Option<String>) -> (r: Option<String>)
    ensures
        r matches Some(v) ==> l matches Some(w) && v@ == w@,
        r is None ==> l is None,
{
    match l {
        Some(s) => Some(s.clone()),
        None => None,
    }
}

impl Blueprint {
    /// Whether a counting bar layer needs a y scale for its counts: some bar
    /// layer counts its rows, and no scale serves the vertical position.
    pub fn needs_count_scale(&self) -> (r: bool)
        ensures
            r == spec_needs_count_scale(self.deep_view()),
    {
        let mut found = false;
        let mut i: usize = 0;
        while i < self.layers.len()
            invariant
                i <= self.layers.len(),
                found == exists|j: int| 0 <= j < i && #[trigger] counting_bar(self.deep_view().layers[j]),
            decreases self.layers.len() - i,
        {
            assert(self.deep_view().layers[i as int] == self.layers[i as int].deep_view());
            let is_bar = match self.layers[i].geometry {
                LayerGeometry::Bar(_) => true,
                _ => false,
            };
            let counts = is_bar && self.layers[i].stat == LayerStat::Count;
            assert(counts == counting_bar(self.deep_view().layers[i as int]));
            if counts {
                found = true;
            }
            proof {
                if !counts {
                    assert forall|j: int| 0 <= j < i + 1 && #[trigger] counting_bar(self.deep_view().layers[j]) implies j < i by {}
                }
            }
            i = i + 1;
        }
        found && !self.has_scale_for_family(AestheticFamily::VerticalPosition)
    }

    /// Decides what rendering does with the data's columns before drawing:
    /// aesthetics are auto-mapped to columns of their names, every layer's
    /// aesthetics are bound to columns (a missing column is a render error),
    /// default scales are added, and each layer must have the aesthetics its
    /// geometry requires (else a render error); a counting bar layer then
    /// gets a y scale for its counts where there is none. Returns each
    /// layer's bindings.
    pub fn plan_render(&mut self, columns: &Vec<ColumnInfo>) -> (r: Result<Vec<Vec<Binding>>, GglangError>)
        ensures
            ({
                let mapped = spec_auto_map(old(self).deep_view(), columns.deep_view());
                match spec_bindings(mapped, columns.deep_view()) {
                    Err(v) => final(self).deep_view() == mapped
                        && (r matches Err(e) && e is Render && error_message(e) == missing_column_message(v)),
                    Ok(bs) => {
                        let planned = SBlueprint { scales: spec_default_scales(mapped.scales, bs, columns.deep_view()), ..mapped };
                        match r {
                            Ok(got) => got.deep_view() == bs && all_complete(planned.layers, bs)
                                && final(self).deep_view() == with_count_scale(planned),
                            Err(e) => !all_complete(planned.layers, bs) && e is Render
                                && (first_gap(planned.layers, bs) matches Some(a) && error_message(e) == missing_aesthetic_message(a))
                                && final(self).deep_view() == planned,
                        }
                    },
                }
            }),
    {
        self.auto_map(columns);
        let bindings = match self.bind_layers(columns) {
            Ok(b) => b,
            Err(e) => return Err(e),
        };
        self.add_default_scales(&bindings, columns);
        match self.check_required(&bindings) {
            Ok(_) => {},
            Err(e) => return Err(e),
        }
        if self.needs_count_scale() {
            self.scales.push(ScaleKind::PositionContinuous(Axis::Y));
        }
        Ok(bindings)
    }

    /// The x and y axis labels: each the one given, else the variable first
    /// mapped to that axis.
    pub fn axis_labels(&self) -> (r: (Option<String>, Option<String>))
        ensures
            opt_view(r.0) == spec_axis_label(self.deep_view().x_label, self.deep_view().mappings, Aesthetic::X),
            opt_view(r.1) == spec_axis_label(self.deep_view().y_label, self.deep_view().mappings, Aesthetic::Y),
    {
        let x = match &self.x_label {
            Some(l) => Some(l.clone()),
            None => first_variable_of(&self.mappings, Aesthetic::X),
        };
        let y = match &self.y_label {
            Some(l) => Some(l.clone()),
            None => first_variable_of(&self.mappings, Aesthetic::Y),
        };
        (x, y)
    }

    /// Whether the plot shows a legend (see `spec_has_legend`).
    pub fn has_legend(&self) -> (r: bool)
        ensures
            r == spec_has_legend(self.scales@),
    {
        self.has_scale_for_family(AestheticFamily::Color) || self.has_scale_for_family(AestheticFamily::Fill)
    }
}

/// Whether a layer is a bar layer that counts its rows.
pub open spec fn counting_bar(l: SLayer) -> bool {
    l.geometry is Bar && l.stat == LayerStat::Count
}

/// Whether some bar layer counts its rows while no scale serves the
/// vertical position.
pub open spec fn spec_needs_count_scale(bp: SBlueprint) -> bool {
    (exists|j: int| 0 <= j < bp.layers.len() && #[trigger] counting_bar(bp.layers[j]))
        && !has_scale(bp.scales, AestheticFamily::VerticalPosition)
}

/// The blueprint with a continuous y scale added for counting bar layers,
/// where they need one.
pub open spec fn with_count_scale(bp: SBlueprint) -> SBlueprint {
    if spec_needs_count_scale(bp) {
        SBlueprint { scales: bp.scales.push(ScaleKind::PositionContinuous(Axis::Y)), ..bp }
    } else {
        bp
    }
}

/// The characters of an optional string.
pub open spec fn opt_view(o: Option<String>) -> Option<Seq<char>> {
    match o {
        Some(s) => Some(s@),
        None => None,
    }
}

} // verus!

verus! {

// ---------------------------------------------------------------------------
// Laws of auto-mapping

proof fn lemma_maps_push(ms: Seq<SMapping>, m: SMapping, a: Aesthetic)
    ensures
        maps(ms, a) ==> maps(ms.push(m), a),
        m.aesthetic == a ==> maps(ms.push(m), a),
{
    if maps(ms, a) {
        let i = choose|i: int| 0 <= i < ms.len() && (#[trigger] ms[i]).aesthetic == a;
        assert(ms.push(m)[i] == ms[i]);
    }
    if m.aesthetic == a {
        assert(ms.push(m)[ms.len() as int] == m);
    }
}

proof fn lemma_auto_map_one(b: SBlueprint, cols: Seq<(Seq<char>, ColumnKind)>, a: Aesthetic, x: Aesthetic)
    ensures
        maps(b.mappings, x) ==> maps(auto_map_one(b, cols, a).mappings, x),
        maps(auto_map_one(b, cols, a).mappings, a) || column_named(cols, spec_name(a)) is None,
        auto_map_one(b, cols, a).mappings.len() >= b.mappings.len(),
        auto_map_one(b, cols, a).mappings.take(b.mappings.len() as int) == b.mappings,
{
    let m = SMapping { aesthetic: a, variable: spec_name(a) };
    lemma_maps_push(b.mappings, m, x);
    lemma_maps_push(b.mappings, m, a);
    assert(b.mappings.push(m).take(b.mappings.len() as int) =~= b.mappings);
    assert(b.mappings.take(b.mappings.len() as int) =~= b.mappings);
}

proof fn lemma_auto_map_grows(bp: SBlueprint, cols: Seq<(Seq<char>, ColumnKind)>, m: nat, n: nat, x: Aesthetic)
    requires
        m <= n <= 6,
        maps(auto_map_upto(bp, cols, m).mappings, x),
    ensures
        maps(auto_map_upto(bp, cols, n).mappings, x),
    decreases n - m,
{
    if m < n {
        lemma_auto_map_grows(bp, cols, m, (n - 1) as nat, x);
        lemma_auto_map_one(auto_map_upto(bp, cols, (n - 1) as nat), cols, all_aesthetics()[n - 1], x);
    }
}

proof fn lemma_auto_map_prefix(bp: SBlueprint, cols: Seq<(Seq<char>, ColumnKind)>, n: nat)
    requires
        n <= 6,
    ensures
        auto_map_upto(bp, cols, n).mappings.len() >= bp.mappings.len(),
        auto_map_upto(bp, cols, n).mappings.take(bp.mappings.len() as int) == bp.mappings,
    decreases n,
{
    if n > 0 {
        let prev = auto_map_upto(bp, cols, (n - 1) as nat);
        lemma_auto_map_prefix(bp, cols, (n - 1) as nat);
        lemma_auto_map_one(prev, cols, all_aesthetics()[n - 1], Aesthetic::X);
        let cur = auto_map_upto(bp, cols, n);
        assert(cur.mappings.take(bp.mappings.len() as int) =~= cur.mappings.take(prev.mappings.len() as int).take(bp.mappings.len() as int));
    } else {
        assert(bp.mappings.take(bp.mappings.len() as int) =~= bp.mappings);
    }
}

/// Auto-mapping keeps every mapping that was there, in its place: an
/// explicit mapping is never replaced by one found from the data.
pub proof fn law_auto_map_keeps_mappings(bp: SBlueprint, cols: Seq<(Seq<char>, ColumnKind)>)
    ensures
        spec_auto_map(bp, cols).mappings.len() >= bp.mappings.len(),
        spec_auto_map(bp, cols).mappings.take(bp.mappings.len() as int) == bp.mappings,
        spec_auto_map(bp, cols).layers == bp.layers,
{
    lemma_auto_map_prefix(bp, cols, 6);
    lemma_auto_map_layers(bp, cols, 6);
}

proof fn lemma_auto_map_layers(bp: SBlueprint, cols: Seq<(Seq<char>, ColumnKind)>, n: nat)
    requires
        n <= 6,
    ensures
        auto_map_upto(bp, cols, n).layers == bp.layers,
    decreases n,
{
    if n > 0 {
        lemma_auto_map_layers(bp, cols, (n - 1) as nat);
    }
}

/// After auto-mapping, every aesthetic that has a column of its own name is mapped.
pub proof fn law_auto_map_covers(bp: SBlueprint, cols: Seq<(Seq<char>, ColumnKind)>, a: Aesthetic)
    requires
        column_named(cols, spec_name(a)) is Some,
    ensures
        maps(spec_auto_map(bp, cols).mappings, a),
{
    let j: nat = match a {
        Aesthetic::X => 0,
        Aesthetic::Y => 1,
        Aesthetic::Color => 2,
        Aesthetic::Fill => 3,
        Aesthetic::Group => 4,
        Aesthetic::Alpha => 5,
    };
    assert(all_aesthetics()[j as int] == a);
    lemma_auto_map_one(auto_map_upto(bp, cols, j), cols, a, a);
    lemma_auto_map_grows(bp, cols, j + 1, 6, a);
}

proof fn lemma_auto_map_fixed(b: SBlueprint, cols: Seq<(Seq<char>, ColumnKind)>, k: nat)
    requires
        k <= 6,
        forall|a: Aesthetic| column_named(cols, #[trigger] spec_name(a)) is Some ==> maps(b.mappings, a),
    ensures
        auto_map_upto(b, cols, k) == b,
    decreases k,
{
    if k > 0 {
        lemma_auto_map_fixed(b, cols, (k - 1) as nat);
    }
}

/// Auto-mapping twice does no more than auto-mapping once.
pub proof fn law_auto_map_idempotent(bp: SBlueprint, cols: Seq<(Seq<char>, ColumnKind)>)
    ensures
        spec_auto_map(spec_auto_map(bp, cols), cols) == spec_auto_map(bp, cols),
{
    let b1 = spec_auto_map(bp, cols);
    assert forall|a: Aesthetic| column_named(cols, #[trigger] spec_name(a)) is Some implies maps(b1.mappings, a) by {
        law_auto_map_covers(bp, cols, a);
    }
    lemma_auto_map_fixed(b1, cols, 6);
}

} // verus!

verus! {

// ---------------------------------------------------------------------------
// Laws of default scales

proof fn lemma_default_family(a: Aesthetic, k: Option<ColumnKind>)
    ensures
        spec_default_scale_for(a, k) matches Some(s) ==> spec_scale_family(s) == spec_family(a),
{
}

proof fn lemma_default_scales_upto(scales: Seq<ScaleKind>, bindings: Seq<Seq<Binding>>, cols: Seq<(Seq<char>, ColumnKind)>, n: nat)
    requires
        n <= 6,
    ensures
        ({
            let r = default_scales_upto(scales, bindings, cols, n);
            &&& r.len() >= scales.len()
            &&& r.take(scales.len() as int) == scales
            &&& forall|i: int| scales.len() <= i < r.len() ==> !has_scale(#[trigger] r.take(i), spec_scale_family(r[i]))
        }),
    decreases n,
{
    if n == 0 {
        assert(scales.take(scales.len() as int) =~= scales);
    } else {
        let prev = default_scales_upto(scales, bindings, cols, (n - 1) as nat);
        lemma_default_scales_upto(scales, bindings, cols, (n - 1) as nat);
        let a = all_aesthetics()[n - 1];
        let r = default_scale_one(prev, bindings, cols, a);
        if r != prev {
            let k = first_bound_kind(bindings, cols, a).unwrap();
            lemma_default_family(a, Some(k));
            let s = spec_default_scale_for(a, Some(k)).unwrap();
            assert(r == prev.push(s));
            assert(r.take(scales.len() as int) =~= prev.take(scales.len() as int));
            assert forall|i: int| scales.len() <= i < r.len() implies !has_scale(#[trigger] r.take(i), spec_scale_family(r[i])) by {
                if i < prev.len() {
                    assert(r.take(i) =~= prev.take(i));
                    assert(r[i] == prev[i]);
                } else {
                    assert(r.take(i) =~= prev);
                }
            }
        }
    }
}

/// Default scales never displace a scale that is there: the scales that
/// were there stay first, in order, and each added scale serves a family
/// that no scale before it serves.
pub proof fn law_default_scales_respect_existing(scales: Seq<ScaleKind>, bindings: Seq<Seq<Binding>>, cols: Seq<(Seq<char>, ColumnKind)>)
    ensures
        ({
            let r = spec_default_scales(scales, bindings, cols);
            &&& r.len() >= scales.len()
            &&& r.take(scales.len() as int) == scales
            &&& forall|i: int| scales.len() <= i < r.len() ==> !has_scale(#[trigger] r.take(i), spec_scale_family(r[i]))
        }),
{
    lemma_default_scales_upto(scales, bindings, cols, 6);
}

} // verus!
