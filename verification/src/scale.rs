//! Scales (which kind an aesthetic gets, and discrete categories) and stat transforms.
use vstd::prelude::*;
use crate::aesthetic::{spec_family, Aesthetic, AestheticFamily};
use crate::distinct::{
    distinct_in_order, insert_new_from, lemma_insert_new_from, lemma_occurrences_bound,
    lemma_sum_update, occurrences, sum_nat,
};
use crate::error::{error_message, GglangError};

verus! {

/// Which axis a positional scale operates on.
#[derive(Debug, Clone, Copy, PartialEq, Eq, Structural)]
pub enum Axis {
    X,
    Y,
}

/// The kind of data a column holds.
#[derive(Debug, Clone, Copy, PartialEq, Eq, Structural)]
pub enum ColumnKind {
    Float,
    Int,
    Text,
}

/// The kinds of scale a plot can have.
#[derive(Debug, Clone, Copy, PartialEq, Eq, Structural)]
pub enum ScaleKind {
    /// Numbers to positions along an axis.
    PositionContinuous(Axis),
    /// Categories to evenly spaced positions along an axis.
    PositionDiscrete(Axis),
    /// Categories to colors, for the color or the fill family.
    ColorDiscrete(AestheticFamily),
    /// Numbers to a color gradient.
    ColorContinuous,
    /// Numbers to transparency.
    AlphaContinuous,
}

pub open spec fn spec_scale_family(k: ScaleKind) -> AestheticFamily {
    match k {
        ScaleKind::PositionContinuous(Axis::X) => AestheticFamily::HorizontalPosition,
        ScaleKind::PositionContinuous(Axis::Y) => AestheticFamily::VerticalPosition,
        ScaleKind::PositionDiscrete(Axis::X) => AestheticFamily::HorizontalPosition,
        ScaleKind::PositionDiscrete(Axis::Y) => AestheticFamily::VerticalPosition,
        ScaleKind::ColorDiscrete(f) => f,
        ScaleKind::ColorContinuous => AestheticFamily::Color,
        ScaleKind::AlphaContinuous => AestheticFamily::Alpha,
    }
}

impl ScaleKind {
    /// The family of aesthetics this scale serves.
    pub fn aesthetic_family(&self) -> (r: AestheticFamily)
        ensures
            r == spec_scale_family(*self),
    {
        match self {
            ScaleKind::PositionContinuous(Axis::X) => AestheticFamily::HorizontalPosition,
            ScaleKind::PositionContinuous(Axis::Y) => AestheticFamily::VerticalPosition,
            ScaleKind::PositionDiscrete(Axis::X) => AestheticFamily::HorizontalPosition,
            ScaleKind::PositionDiscrete(Axis::Y) => AestheticFamily::VerticalPosition,
            ScaleKind::ColorDiscrete(f) => *f,
            ScaleKind::ColorContinuous => AestheticFamily::Color,
            ScaleKind::AlphaContinuous => AestheticFamily::Alpha,
        }
    }
}

/// The scale an aesthetic gets when none is given: positions and colors are
/// discrete for text columns and continuous otherwise, fill is always
/// discrete, alpha always continuous, and group has none.
pub open spec fn spec_default_scale_for(a: Aesthetic, hint: Option<ColumnKind>) -> Option<ScaleKind> {
    let is_text = hint == Some(ColumnKind::Text);
    match a {
        Aesthetic::X => Some(if is_text { ScaleKind::PositionDiscrete(Axis::X) } else { ScaleKind::PositionContinuous(Axis::X) }),
        Aesthetic::Y => Some(if is_text { ScaleKind::PositionDiscrete(Axis::Y) } else { ScaleKind::PositionContinuous(Axis::Y) }),
        Aesthetic::Color => Some(if is_text { ScaleKind::ColorDiscrete(AestheticFamily::Color) } else { ScaleKind::ColorContinuous }),
        Aesthetic::Fill => Some(ScaleKind::ColorDiscrete(AestheticFamily::Fill)),
        Aesthetic::Group => None,
        Aesthetic::Alpha => Some(ScaleKind::AlphaContinuous),
    }
}

/// The default scale for an aesthetic whose column is of kind `data_hint`
/// (see `spec_default_scale_for`).
pub fn default_scale_for(aesthetic: &Aesthetic, data_hint: Option<ColumnKind>) -> (r: Option<ScaleKind>)
    ensures
        r == spec_default_scale_for(*aesthetic, data_hint),
        r matches Some(k) ==> spec_scale_family(k) == spec_family(*aesthetic),
{
    let is_text = match data_hint {
        Some(ColumnKind::Text) => true,
        _ => false,
    };
    match aesthetic {
        Aesthetic::X => Some(if is_text { ScaleKind::PositionDiscrete(Axis::X) } else { ScaleKind::PositionContinuous(Axis::X) }),
        Aesthetic::Y => Some(if is_text { ScaleKind::PositionDiscrete(Axis::Y) } else { ScaleKind::PositionContinuous(Axis::Y) }),
        Aesthetic::Color => Some(if is_text { ScaleKind::ColorDiscrete(AestheticFamily::Color) } else { ScaleKind::ColorContinuous }),
        Aesthetic::Fill => Some(ScaleKind::ColorDiscrete(AestheticFamily::Fill)),
        Aesthetic::Group => None,
        Aesthetic::Alpha => Some(ScaleKind::AlphaContinuous),
    }
}

/// A positional aesthetic (x or y) always gets a default scale, on its own
/// axis: discrete exactly when its column is text, continuous otherwise.
pub proof fn law_default_position_scale(a: Aesthetic, hint: Option<ColumnKind>)
    requires
        a is X || a is Y,
    ensures
        spec_default_scale_for(a, hint) is Some,
        ({
            let k = spec_default_scale_for(a, hint)->Some_0;
            &&& spec_scale_family(k) == spec_family(a)
            &&& (k is PositionDiscrete <==> hint == Some(ColumnKind::Text))
            &&& (k is PositionContinuous <==> hint != Some(ColumnKind::Text))
        }),
{
}

/// The other aesthetics' default scales: color is discrete for text and a
/// gradient otherwise, fill is always discrete, alpha always continuous, and
/// group gets none; each serves its aesthetic's family.
pub proof fn law_default_other_scales(a: Aesthetic, hint: Option<ColumnKind>)
    requires
        !(a is X || a is Y),
    ensures
        a is Group <==> spec_default_scale_for(a, hint) is None,
        spec_default_scale_for(a, hint) matches Some(k) ==> spec_scale_family(k) == spec_family(a),
        a is Color ==> (spec_default_scale_for(a, hint) matches Some(k)
            && (k is ColorDiscrete <==> hint == Some(ColumnKind::Text))
            && (k is ColorContinuous <==> hint != Some(ColumnKind::Text))),
        a is Fill ==> (spec_default_scale_for(a, hint) matches Some(k) && k is ColorDiscrete),
        a is Alpha ==> (spec_default_scale_for(a, hint) matches Some(k) && k is AlphaContinuous),
{
}

/// The position of `s` in `v`, if it is there (the first one).
pub fn position_of(v: &Vec<String>, s: &String) -> (r: Option<usize>)
    ensures
        match r {
            Some(i) => i < v.len() && v@[i as int]@ == s@ && forall|j: int| 0 <= j < i ==> v@[j]@ != s@,
            None => !v.deep_view().contains(s@),
        },
{
    let mut k: usize = 0;
    while k < v.len()
        invariant
            k <= v.len(),
            forall|j: int| 0 <= j < k ==> v@[j]@ != s@,
        decreases v.len() - k,
    {
        if v[k] == *s {
            return Some(k);
        }
        k = k + 1;
    }
    assert forall|j: int| 0 <= j < v.deep_view().len() implies v.deep_view()[j] != s@ by {
        assert(v.deep_view()[j] == v@[j]@);
    }
    None
}

/// A discrete positional scale: categorical values, in order of first
/// appearance, at evenly spaced positions.
pub struct ScalePositionDiscrete {
    axis: Axis,
    categories: Vec<String>,
}

impl ScalePositionDiscrete {
    /// The categories never repeat.
    #[verifier::type_invariant]
    pub closed spec fn well_formed(&self) -> bool {
        self.categories.deep_view().no_duplicates()
    }

    pub closed spec fn spec_categories(&self) -> Seq<Seq<char>> {
        self.categories.deep_view()
    }

    pub closed spec fn spec_axis(&self) -> Axis {
        self.axis
    }

    /// An empty scale on the given axis.
    pub fn new(axis: Axis) -> (r: Self)
        ensures
            r.spec_axis() == axis,
            r.spec_categories() == Seq::<Seq<char>>::empty(),
            r.well_formed(),
    {
        let r = ScalePositionDiscrete { axis, categories: Vec::new() };
        assert(r.categories.deep_view() =~= Seq::<Seq<char>>::empty());
        r
    }

    pub fn axis(&self) -> (r: Axis)
        ensures
            r == self.spec_axis(),
    {
        self.axis
    }

    /// The categories, in order of first appearance.
    pub fn categories(&self) -> (r: &Vec<String>)
        ensures
            r.deep_view() == self.spec_categories(),
    {
        &self.categories
    }

    /// Adds the values not seen before, in order; an empty input is refused.
    pub fn append(&mut self, values: &Vec<String>) -> (r: Result<(), GglangError>)
        ensures
            final(self).well_formed(),
            final(self).spec_axis() == old(self).spec_axis(),
            values.len() == 0 ==> r is Err && final(self).spec_categories() == old(self).spec_categories(),
            r matches Err(e) ==> e is Render && error_message(e) == "ScalePositionDiscrete requires non-empty input"@,
            values.len() > 0 ==> r is Ok && final(self).spec_categories() == insert_new_from(old(self).spec_categories(), values.deep_view()),
    {
        proof {
            use_type_invariant(&*self);
        }
        if values.len() == 0 {
            return Err(GglangError::Render { message: "ScalePositionDiscrete requires non-empty input".to_owned() });
        }
        let ghost start = self.categories.deep_view();
        let ghost vals = values.deep_view();
        let mut cats: Vec<String> = Vec::new();
        std::mem::swap(&mut cats, &mut self.categories);
        let mut k: usize = 0;
        while k < values.len()
            invariant
                k <= values.len(),
                vals == values.deep_view(),
                start.no_duplicates(),
                cats.deep_view() == insert_new_from(start, vals.take(k as int)),
            decreases values.len() - k,
        {
            let ghost before = cats.deep_view();
            proof {
                assert(vals.take(k as int + 1).drop_last() =~= vals.take(k as int));
                assert(vals.take(k as int + 1).last() == values@[k as int]@);
            }
            match position_of(&cats, &values[k]) {
                Some(i) => {
                    assert(before[i as int] == values@[k as int]@);
                },
                None => {
                    cats.push(values[k].clone());
                    assert(cats.deep_view() =~= before.push(values@[k as int]@));
                },
            }
            k = k + 1;
        }
        proof {
            assert(vals.take(vals.len() as int) =~= vals);
            lemma_insert_new_from(start, vals);
        }
        self.categories = cats;
        Ok(())
    }

    /// The index of each value's category; fails if a value has none.
    pub fn map(&self, values: &Vec<String>) -> (r: Result<Vec<usize>, GglangError>)
        ensures
            match r {
                Ok(idx) => idx.len() == values.len() && forall|i: int| 0 <= i < values.len() ==> {
                    &&& #[trigger] idx@[i] < self.spec_categories().len()
                    &&& self.spec_categories()[idx@[i] as int] == values@[i]@
                },
                Err(e) => e is Render && exists|i: int| {
                    &&& 0 <= i < values.len()
                    &&& !self.spec_categories().contains(#[trigger] values@[i]@)
                    &&& forall|j: int| 0 <= j < i ==> self.spec_categories().contains(values@[j]@)
                    &&& error_message(e) == "Category '"@ + values@[i]@ + "' not found in discrete scale"@
                },
            },
    {
        let mut idx: Vec<usize> = Vec::new();
        let mut k: usize = 0;
        while k < values.len()
            invariant
                k <= values.len(),
                idx.len() == k,
                forall|i: int| 0 <= i < k ==> {
                    &&& #[trigger] idx@[i] < self.categories.deep_view().len()
                    &&& self.categories.deep_view()[idx@[i] as int] == values@[i]@
                },
                forall|i: int| 0 <= i < k ==> self.categories.deep_view().contains(#[trigger] values@[i]@),
            decreases values.len() - k,
        {
            match position_of(&self.categories, &values[k]) {
                Some(i) => {
                    idx.push(i);
                    assert(self.categories.deep_view()[i as int] == values@[k as int]@);
                },
                None => {
                    let mut m = "Category '".to_owned();
                    m.append(values[k].as_str());
                    m.append("' not found in discrete scale");
                    return Err(GglangError::Render { message: m });
                },
            }
            k = k + 1;
        }
        Ok(idx)
    }

    /// The number of categories.
    pub fn len(&self) -> (r: usize)
        ensures
            r == self.spec_categories().len(),
    {
        self.categories.len()
    }
}

/// Counting by category, in order of first appearance.
pub struct StatCount;

/// The result of a count: each distinct `x` (with its `fill` when filled),
/// and how many rows have it.
pub struct CountTable {
    pub x: Vec<String>,
    pub fill: Option<Vec<String>>,
    pub count: Vec<usize>,
}

/// The grouping key of row `i`: its `x`, and its `fill` when there is one.
pub open spec fn count_key(x: Seq<Seq<char>>, fill: Option<Seq<Seq<char>>>, i: int) -> (Seq<char>, Option<Seq<char>>) {
    match fill {
        Some(f) => (x[i], Some(f[i])),
        None => (x[i], None),
    }
}

/// The number of rows: with a fill column, that of the shorter column.
pub open spec fn count_rows(x: Seq<Seq<char>>, fill: Option<Seq<Seq<char>>>) -> nat {
    match fill {
        Some(f) => if f.len() < x.len() { f.len() } else { x.len() },
        None => x.len(),
    }
}

pub open spec fn count_keys(x: Seq<Seq<char>>, fill: Option<Seq<Seq<char>>>) -> Seq<(Seq<char>, Option<Seq<char>>)> {
    Seq::new(count_rows(x, fill), |i: int| count_key(x, fill, i))
}

pub open spec fn opt_deep(f: Option<&Vec<String>>) -> Option<Seq<Seq<char>>> {
    match f {
        Some(v) => Some(v.deep_view()),
        None => None,
    }
}

/// The keys of the groups found so far.
pub open spec fn group_keys(gx: Seq<Seq<char>>, gf: Seq<Seq<char>>, has_fill: bool) -> Seq<(Seq<char>, Option<Seq<char>>)> {
    Seq::new(gx.len(), |m: int| (gx[m], if has_fill { Some(gf[m]) } else { None }))
}

fn find_group(gx: &Vec<String>, gf: &Vec<String>, xv: &String, fv: Option<&String>) -> (r: Option<usize>)
    requires
        fv is Some ==> gf.len() == gx.len(),
    ensures
        ({
            let keys = group_keys(gx.deep_view(), gf.deep_view(), fv is Some);
            let key = (xv@, match fv { Some(f) => Some(f@), None => None });
            match r {
                Some(j) => j < gx.len() && keys[j as int] == key,
                None => !keys.contains(key),
            }
        }),
{
    let ghost keys = group_keys(gx.deep_view(), gf.deep_view(), fv is Some);
    let ghost key = (xv@, match fv { Some(f) => Some(f@), None => None });
    let mut j: usize = 0;
    while j < gx.len()
        invariant
            j <= gx.len(),
            fv is Some ==> gf.len() == gx.len(),
            keys == group_keys(gx.deep_view(), gf.deep_view(), fv is Some),
            key == (xv@, match fv { Some(f) => Some(f@), None => None }),
            forall|m: int| 0 <= m < j ==> #[trigger] keys[m] != key,
        decreases gx.len() - j,
    {
        let same = match fv {
            Some(f) => gx[j] == *xv && gf[j] == *f,
            None => gx[j] == *xv,
        };
        proof {
            assert(gx.deep_view()[j as int] == gx@[j as int]@);
            if fv is Some {
                assert(gf.deep_view()[j as int] == gf@[j as int]@);
            }
        }
        if same {
            return Some(j);
        }
        j = j + 1;
    }
    None
}

/// Whether `r` is the count of the rows of `x` (with `fill` where given):
/// one entry per distinct key in order of first appearance, with how many
/// rows have it.
pub open spec fn is_count_of(r: CountTable, x: Seq<Seq<char>>, fill: Option<Seq<Seq<char>>>) -> bool {
    let keys = count_keys(x, fill);
    let groups = distinct_in_order(keys);
    &&& r.x.len() == groups.len()
    &&& r.count.len() == groups.len()
    &&& (fill is Some <==> r.fill is Some)
    &&& forall|j: int| 0 <= j < groups.len() ==> {
        &&& #[trigger] r.x@[j]@ == groups[j].0
        &&& r.count@[j] as nat == occurrences(keys, groups[j])
        &&& r.count@[j] > 0
        &&& (r.fill matches Some(f) ==> f.len() == groups.len() && Some(f@[j]@) == groups[j].1)
    }
    &&& sum_nat(r.count@.map_values(|c: usize| c as nat)) == keys.len()
}

impl StatCount {
    /// What the count does to a layer: without an `x` column the layer's
    /// data passes unchanged (`None`); otherwise its rows are counted.
    pub fn transform(&self, x: Option<&Vec<String>>, fill: Option<&Vec<String>>) -> (r: Option<CountTable>)
        ensures
            match r {
                None => x is None,
                Some(t) => x matches Some(xs) && is_count_of(t, xs.deep_view(), opt_deep(fill)),
            },
    {
        match x {
            Some(xs) => Some(self.count(xs, fill)),
            None => None,
        }
    }

    /// Counts rows by `x`, or by (`x`, `fill`) where a fill column is given;
    /// groups come in order of first appearance.
    pub fn count(&self, x: &Vec<String>, fill: Option<&Vec<String>>) -> (r: CountTable)
        ensures
            is_count_of(r, x.deep_view(), opt_deep(fill)),
    {
        let n: usize = match fill {
            Some(f) => if f.len() < x.len() { f.len() } else { x.len() },
            None => x.len(),
        };
        let ghost keys = count_keys(x.deep_view(), opt_deep(fill));
        let ghost has_fill = fill is Some;
        let mut gx: Vec<String> = Vec::new();
        let mut gf: Vec<String> = Vec::new();
        let mut gc: Vec<usize> = Vec::new();
        let mut i: usize = 0;
        proof {
            assert(keys.take(0) =~= Seq::<(Seq<char>, Option<Seq<char>>)>::empty());
            assert(group_keys(gx.deep_view(), gf.deep_view(), has_fill) =~= Seq::<(Seq<char>, Option<Seq<char>>)>::empty());
            assert(gc@.map_values(|c: usize| c as nat) =~= Seq::<nat>::empty());
        }
        while i < n
            invariant
                i <= n,
                n == keys.len(),
                has_fill == fill is Some,
                keys == count_keys(x.deep_view(), opt_deep(fill)),
                gx.len() == gc.len(),
                has_fill ==> gf.len() == gc.len(),
                group_keys(gx.deep_view(), gf.deep_view(), has_fill) == distinct_in_order(keys.take(i as int)),
                forall|j: int| 0 <= j < gc.len() ==> {
                    &&& #[trigger] gc@[j] as nat == occurrences(keys.take(i as int), distinct_in_order(keys.take(i as int))[j])
                    &&& gc@[j] > 0
                },
                sum_nat(gc@.map_values(|c: usize| c as nat)) == i,
            decreases n - i,
        {
            let ghost ki = keys[i as int];
            let ghost prev = distinct_in_order(keys.take(i as int));
            let ghost prev_counts = gc@.map_values(|c: usize| c as nat);
            let fv: Option<&String> = match fill {
                Some(f) => Some(&f[i]),
                None => None,
            };
            let ghost old_gc = gc@;
            proof {
                lemma_insert_new_from(Seq::<(Seq<char>, Option<Seq<char>>)>::empty(), keys.take(i as int));
                assert(keys.take(i as int + 1).drop_last() =~= keys.take(i as int));
                assert(keys.take(i as int + 1).last() == ki);
                assert(x.deep_view()[i as int] == x@[i as int]@);
                if let Some(f) = fill {
                    assert(f.deep_view()[i as int] == f@[i as int]@);
                }
                assert(ki == (x[i as int]@, match fv { Some(f) => Some(f@), None => None }));
            }
            match find_group(&gx, &gf, &x[i], fv) {
                Some(j) => {
                    proof {
                        lemma_occurrences_bound(keys.take(i as int), prev[j as int]);
                        lemma_sum_update(prev_counts, j as int, prev_counts[j as int] + 1);
                    }
                    let c = gc[j];
                    gc.set(j, c + 1);
                    assert(gc@.map_values(|c: usize| c as nat) =~= prev_counts.update(j as int, prev_counts[j as int] + 1));
                    proof {
                        let cur = distinct_in_order(keys.take(i as int + 1));
                        assert(prev.contains(ki));
                        assert(cur == prev);
                        assert forall|m: int| 0 <= m < gc.len() implies {
                            &&& #[trigger] gc@[m] as nat == occurrences(keys.take(i as int + 1), cur[m])
                            &&& gc@[m] > 0
                        } by {
                            assert(occurrences(keys.take(i as int + 1), cur[m]) == occurrences(keys.take(i as int), cur[m]) + if ki == cur[m] { 1nat } else { 0nat });
                            if m == j {
                                assert(cur[m] == ki);
                            } else {
                                assert(gc@[m] == old_gc[m]);
                                assert(prev[m] != prev[j as int]);
                            }
                        }
                    }
                },
                None => {
                    let ghost gk = group_keys(gx.deep_view(), gf.deep_view(), has_fill);
                    gx.push(x[i].clone());
                    if let Some(f) = fill {
                        gf.push(f[i].clone());
                    }
                    gc.push(1);
                    assert(group_keys(gx.deep_view(), gf.deep_view(), has_fill) =~= gk.push(ki));
                    assert(gc@.map_values(|c: usize| c as nat).drop_last() =~= prev_counts);
                    proof {
                        lemma_occurrences_bound(keys.take(i as int), ki);
                        let cur = distinct_in_order(keys.take(i as int + 1));
                        assert(cur == prev.push(ki));
                        assert forall|m: int| 0 <= m < gc.len() implies {
                            &&& #[trigger] gc@[m] as nat == occurrences(keys.take(i as int + 1), cur[m])
                            &&& gc@[m] > 0
                        } by {
                            assert(occurrences(keys.take(i as int + 1), cur[m]) == occurrences(keys.take(i as int), cur[m]) + if ki == cur[m] { 1nat } else { 0nat });
                            if m < prev.len() {
                                assert(cur[m] == prev[m]);
                                assert(gc@[m] == old_gc[m]);
                                assert(prev[m] != ki);
                            }
                        }
                    }
                },
            }
            i = i + 1;
        }
        proof {
            assert(keys.take(n as int) =~= keys);
            let groups = distinct_in_order(keys);
            assert forall|j: int| 0 <= j < groups.len() implies #[trigger] gx@[j]@ == groups[j].0
                && (has_fill ==> Some(gf@[j]@) == groups[j].1) by {
                assert(group_keys(gx.deep_view(), gf.deep_view(), has_fill)[j] == groups[j]);
                assert(gx.deep_view()[j] == gx@[j]@);
                if has_fill {
                    assert(gf.deep_view()[j] == gf@[j]@);
                }
            }
        }
        CountTable { x: gx, fill: match fill { Some(_) => Some(gf), None => None }, count: gc }
    }
}

/// The identity stat: data passes unchanged.
pub struct IdentityTransform;

/// A position adjustment applied after stat transforms.
pub trait PositionAdjustment {}

impl PositionAdjustment for IdentityTransform {}

} // verus!

verus! {

/// A discrete scale is faithful: where `map` gives each value the index of
/// its category, two values get the same index exactly when they are equal.
pub proof fn law_discrete_positions_faithful(scale: ScalePositionDiscrete, values: Seq<Seq<char>>, idx: Seq<usize>, i: int, j: int)
    requires
        scale.well_formed(),
        idx.len() == values.len(),
        forall|k: int| 0 <= k < values.len() ==> {
            &&& #[trigger] idx[k] < scale.spec_categories().len()
            &&& scale.spec_categories()[idx[k] as int] == values[k]
        },
        0 <= i < values.len(),
        0 <= j < values.len(),
    ensures
        (idx[i] == idx[j]) <==> (values[i] == values[j]),
{
    let c = scale.spec_categories();
    assert(c[idx[i] as int] == values[i]);
    assert(c[idx[j] as int] == values[j]);
    assert(c.no_duplicates());
}

} // verus!
