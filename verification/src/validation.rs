//! What is checked of splats, and of their gradients, where validation is on.
//! Reading values back from a device and looking at each of them is left to
//! the caller; which values are looked at, in what order and within what
//! bounds, and whether the shapes agree, is settled here.

use crate::gaussian_splats::{lemma_real_sizes_are_one, real_opacities, real_scales, Splats};
use crate::matrix::{Matrix, Table};
use crate::splat_math::{has_one_result, keeps_shapes, SplatMath};
use vstd::prelude::*;

verus! {

/// The number `mantissa * 10^exponent`.
#[derive(Clone, Copy, Debug, PartialEq, Eq, Structural)]
pub struct Decimal {
    pub mantissa: i32,
    pub exponent: i32,
}

/// What is looked at.
#[derive(Clone, Copy, Debug, PartialEq, Eq, Structural)]
pub enum Quantity {
    Means,
    Rotations,
    LogScales,
    Scales,
    ShCoeffs,
    RawOpacity,
    Opacities,
}

impl Quantity {
    /// What it is called in a report.
    pub open spec fn called(self) -> Seq<char> {
        match self {
            Quantity::Means => "means"@,
            Quantity::Rotations => "rotations"@,
            Quantity::LogScales => "log_scales"@,
            Quantity::Scales => "scales"@,
            Quantity::ShCoeffs => "sh_coeffs"@,
            Quantity::RawOpacity => "raw_opacity"@,
            Quantity::Opacities => "opacities"@,
        }
    }

    /// What it is called in a report.
    pub fn name(self) -> (name: &'static str)
        ensures
            name@ == self.called(),
    {
        match self {
            Quantity::Means => "means",
            Quantity::Rotations => "rotations",
            Quantity::LogScales => "log_scales",
            Quantity::Scales => "scales",
            Quantity::ShCoeffs => "sh_coeffs",
            Quantity::RawOpacity => "raw_opacity",
            Quantity::Opacities => "opacities",
        }
    }
}

/// Values that are looked at.
pub enum Values {
    Rows(Matrix),
    Each(Vec<u32>),
}

/// Values to be looked at, and the bounds that each of them is to keep.
pub struct ValueCheck {
    pub what: Quantity,
    pub values: Values,
    pub bounds: Option<(Decimal, Decimal)>,
}

impl ValueCheck {
    /// Whether this looks at the rows of a table within these bounds.
    pub open spec fn looks_at_rows(&self, what: Quantity, table: Table, bounds: Option<(Decimal, Decimal)>) -> bool {
        &&& self.what == what
        &&& self.values matches Values::Rows(rows) && rows.wf() && rows@ == table
        &&& self.bounds == bounds
    }

    /// Whether this looks at the numbers of a list within these bounds.
    pub open spec fn looks_at_each(&self, what: Quantity, list: Seq<u32>, bounds: Option<(Decimal, Decimal)>) -> bool {
        &&& self.what == what
        &&& self.values matches Values::Each(each) && each@ == list
        &&& self.bounds == bounds
    }
}

/// Bounds `min..=max`, each a mantissa and a decimal exponent.
pub open spec fn bounds(min: (int, int), max: (int, int)) -> Option<(Decimal, Decimal)> {
    Some(
        (
            Decimal { mantissa: min.0 as i32, exponent: min.1 as i32 },
            Decimal { mantissa: max.0 as i32, exponent: max.1 as i32 },
        ),
    )
}

/// Bounds `min..=max`, each a mantissa and a decimal exponent.
fn within(min: (i32, i32), max: (i32, i32)) -> (result: Option<(Decimal, Decimal)>)
    ensures
        result == bounds((min.0 as int, min.1 as int), (max.0 as int, max.1 as int)),
{
    Some(
        (
            Decimal { mantissa: min.0, exponent: min.1 },
            Decimal { mantissa: max.0, exponent: max.1 },
        ),
    )
}

/// A shape that splats ought not to have.
#[derive(Clone, Copy, Debug, PartialEq, Eq, Structural)]
pub enum ShapeFault {
    TransformsWidth,
    TransformsCount,
    OpacityCount,
    ShChannels,
    ShCount,
}

impl ShapeFault {
    /// What is said of the fault.
    pub open spec fn says(self) -> Seq<char> {
        match self {
            ShapeFault::TransformsWidth => "Transforms must be 10D (means(3) + quats(4) + log_scales(3))"@,
            ShapeFault::TransformsCount => "Inconsistent number of splats in transforms"@,
            ShapeFault::OpacityCount => "Inconsistent number of splats in opacity"@,
            ShapeFault::ShChannels => "SH coeffs must have 3 color channels"@,
            ShapeFault::ShCount => "Inconsistent number of splats in SH coeffs"@,
        }
    }

    /// What is said of the fault.
    pub fn message(self) -> (message: &'static str)
        ensures
            message@ == self.says(),
    {
        match self {
            ShapeFault::TransformsWidth => "Transforms must be 10D (means(3) + quats(4) + log_scales(3))",
            ShapeFault::TransformsCount => "Inconsistent number of splats in transforms",
            ShapeFault::OpacityCount => "Inconsistent number of splats in opacity",
            ShapeFault::ShChannels => "SH coeffs must have 3 color channels",
            ShapeFault::ShCount => "Inconsistent number of splats in SH coeffs",
        }
    }
}

/// All that is checked of splats: the values first, one after the other, and
/// then the shapes.
pub struct Validation {
    pub checks: Vec<ValueCheck>,
    pub shapes: Result<(), ShapeFault>,
}

/// A gradient of one of the parameters of splats.
pub enum GradientCheck<T, S, O> {
    Transforms(T),
    ShCoeffs(S),
    RawOpacities(O),
}

impl<T, S, O> GradientCheck<T, S, O> {
    /// What the parameter is called in a report.
    pub open spec fn called(&self) -> Seq<char> {
        match self {
            GradientCheck::Transforms(_) => "transforms"@,
            GradientCheck::ShCoeffs(_) => "sh_coeffs"@,
            GradientCheck::RawOpacities(_) => "raw_opacities"@,
        }
    }

    /// What the parameter is called in a report.
    pub fn name(&self) -> (name: &'static str)
        ensures
            name@ == self.called(),
    {
        match self {
            GradientCheck::Transforms(_) => "transforms",
            GradientCheck::ShCoeffs(_) => "sh_coeffs",
            GradientCheck::RawOpacities(_) => "raw_opacities",
        }
    }
}

/// The first fault of the shapes of splats, if they have one.
pub open spec fn first_fault(splats: &Splats) -> Result<(), ShapeFault> {
    let n = (splats.transforms.value.rows as u32) as usize;
    if splats.transforms.value.cols != 10 {
        Err(ShapeFault::TransformsWidth)
    } else if splats.transforms.value.rows != n {
        Err(ShapeFault::TransformsCount)
    } else if splats.raw_opacities.value@.len() != n {
        Err(ShapeFault::OpacityCount)
    } else if splats.sh_coeffs.value.channels != 3 {
        Err(ShapeFault::ShChannels)
    } else if splats.sh_coeffs.value.cells.rows != n {
        Err(ShapeFault::ShCount)
    } else {
        Ok(())
    }
}

/// Whether these are the values to look at of splats with these scales and
/// opacities, in order.
pub open spec fn looks_at_all(splats: &Splats, scales: Table, opacities: Seq<u32>, checks: Seq<ValueCheck>) -> bool {
    let transforms = splats.transforms.value@;
    &&& checks.len() == 8
    &&& checks[0].looks_at_rows(Quantity::Means, transforms.columns(0, 3), None)
    &&& checks[1].looks_at_rows(Quantity::Rotations, transforms.columns(3, 7), None)
    &&& checks[2].looks_at_rows(Quantity::LogScales, transforms.columns(7, 10), bounds((-10, 0), (10, 0)))
    &&& checks[3].looks_at_rows(Quantity::Scales, scales, bounds((1, -20), (10000, 0)))
    &&& checks[4].looks_at_rows(Quantity::ShCoeffs, splats.sh_coeffs.value.cells@, bounds((-5, 0), (5, 0)))
    &&& checks[5].looks_at_each(Quantity::RawOpacity, splats.raw_opacities.value@, bounds((-20, 0), (20, 0)))
    &&& checks[6].looks_at_each(Quantity::Opacities, opacities, bounds((0, 0), (1, 0)))
    &&& checks[7].looks_at_rows(Quantity::Scales, scales, bounds((1, -6), (100, 0)))
}

/// The gradients that are there, in the order of the parameters.
pub open spec fn present<T, S, O>(transforms: Option<T>, sh_coeffs: Option<S>, raw_opacities: Option<O>) -> Seq<
    GradientCheck<T, S, O>,
> {
    (match transforms {
        Some(g) => seq![GradientCheck::Transforms(g)],
        None => seq![],
    }) + (match sh_coeffs {
        Some(g) => seq![GradientCheck::ShCoeffs(g)],
        None => seq![],
    }) + (match raw_opacities {
        Some(g) => seq![GradientCheck::RawOpacities(g)],
        None => seq![],
    })
}

impl Splats {
    /// What is checked of these splats: nothing where validation is off.
    pub fn validate_values<M: SplatMath>(self, enabled: bool, math: &M) -> (validation: Option<Validation>)
        requires
            enabled ==> {
                &&& self.wf()
                &&& self.floor_fits()
                &&& keeps_shapes(math)
            },
        ensures
            validation is Some == enabled,
            validation matches Some(validation) ==> {
                &&& validation.shapes == first_fault(&self)
                &&& exists|scales: Table, opacities: Seq<u32>|
                    #[trigger] real_scales(&self, math, scales) && #[trigger] real_opacities(&self, math, opacities)
                        && looks_at_all(&self, scales, opacities, validation.checks@)
            },
    {
        if !enabled {
            return None;
        }
        let n: usize = self.num_splats() as usize;
        let means = self.means();
        let rotations = self.rotations();
        let log_scales = self.log_scales();
        let scales = self.scales(math);
        let scales_again = scales.duplicate();
        let opacities = self.opacities(math);
        let shapes = if self.transforms.value.cols != 10 {
            Err(ShapeFault::TransformsWidth)
        } else if self.transforms.value.rows != n {
            Err(ShapeFault::TransformsCount)
        } else if self.raw_opacities.value.len() != n {
            Err(ShapeFault::OpacityCount)
        } else if self.sh_coeffs.value.channels != 3 {
            Err(ShapeFault::ShChannels)
        } else if self.sh_coeffs.value.cells.rows != n {
            Err(ShapeFault::ShCount)
        } else {
            Ok(())
        };
        let ghost splats = self;
        let ghost (sizes, alphas) = (scales@, opacities@);
        let mut checks: Vec<ValueCheck> = Vec::new();
        checks.push(ValueCheck { what: Quantity::Means, values: Values::Rows(means), bounds: None });
        checks.push(ValueCheck { what: Quantity::Rotations, values: Values::Rows(rotations), bounds: None });
        checks.push(
            ValueCheck {
                what: Quantity::LogScales,
                values: Values::Rows(log_scales),
                bounds: within((-10, 0), (10, 0)),
            },
        );
        checks.push(
            ValueCheck {
                what: Quantity::Scales,
                values: Values::Rows(scales),
                bounds: within((1, -20), (10000, 0)),
            },
        );
        checks.push(
            ValueCheck {
                what: Quantity::ShCoeffs,
                values: Values::Rows(self.sh_coeffs.value.cells),
                bounds: within((-5, 0), (5, 0)),
            },
        );
        checks.push(
            ValueCheck {
                what: Quantity::RawOpacity,
                values: Values::Each(self.raw_opacities.value),
                bounds: within((-20, 0), (20, 0)),
            },
        );
        checks.push(
            ValueCheck {
                what: Quantity::Opacities,
                values: Values::Each(opacities),
                bounds: within((0, 0), (1, 0)),
            },
        );
        checks.push(
            ValueCheck {
                what: Quantity::Scales,
                values: Values::Rows(scales_again),
                bounds: within((1, -6), (100, 0)),
            },
        );
        proof {
            assert(looks_at_all(&splats, sizes, alphas, checks@));
        }
        Some(Validation { checks, shapes })
    }

    /// Which gradients are checked after a backward pass: none where
    /// validation is off.
    pub fn bwd_validate<T, S, O>(
        enabled: bool,
        transforms: Option<T>,
        sh_coeffs: Option<S>,
        raw_opacities: Option<O>,
    ) -> (checks: Vec<GradientCheck<T, S, O>>)
        ensures
            checks@ == (if enabled {
                present(transforms, sh_coeffs, raw_opacities)
            } else {
                Seq::empty()
            }),
    {
        let mut checks: Vec<GradientCheck<T, S, O>> = Vec::new();
        if !enabled {
            return checks;
        }
        if let Some(g) = transforms {
            checks.push(GradientCheck::Transforms(g));
        }
        if let Some(g) = sh_coeffs {
            checks.push(GradientCheck::ShCoeffs(g));
        }
        if let Some(g) = raw_opacities {
            checks.push(GradientCheck::RawOpacities(g));
        }
        checks
    }
}


/// What is looked at is what can be read of the splats: their means, rotations
/// and log scales as they are, and the scales and opacities that they really
/// have, each within its own bounds, the scales once widely and once, last of
/// all, narrowly. Nothing is looked at where validation is off.
pub proof fn law_checks_look_at_what_is_read<M: SplatMath>(
    splats: Splats,
    math: &M,
    enabled: bool,
    validation: Option<Validation>,
    means: Matrix,
    rotations: Matrix,
    log_scales: Matrix,
    scales: Matrix,
    opacities: Vec<u32>,
)
    requires
        keeps_shapes(math),
        has_one_result(math),
        splats.wf(),
        splats.floor_fits(),
        call_ensures(Splats::validate_values::<M>, (splats, enabled, math), validation),
        call_ensures(Splats::means, (&splats,), means),
        call_ensures(Splats::rotations, (&splats,), rotations),
        call_ensures(Splats::log_scales, (&splats,), log_scales),
        call_ensures(Splats::scales::<M>, (&splats, math), scales),
        call_ensures(Splats::opacities::<M>, (&splats, math), opacities),
    ensures
        validation is Some <==> enabled,
        validation matches Some(validation) ==> {
            let checks = validation.checks@;
            &&& checks.len() == 8
            &&& checks[0].what is Means
            &&& checks[0].values matches Values::Rows(values) && values@ == means@
            &&& checks[0].bounds is None
            &&& checks[1].what is Rotations
            &&& checks[1].values matches Values::Rows(values) && values@ == rotations@
            &&& checks[1].bounds is None
            &&& checks[2].what is LogScales
            &&& checks[2].values matches Values::Rows(values) && values@ == log_scales@
            &&& checks[2].bounds matches Some((min, max)) && min.mantissa == -10 && min.exponent == 0 && max.mantissa
                == 10 && max.exponent == 0
            &&& checks[3].what is Scales
            &&& checks[3].values matches Values::Rows(values) && values@ == scales@
            &&& checks[3].bounds matches Some((min, max)) && min.mantissa == 1 && min.exponent == -20 && max.mantissa
                == 10000 && max.exponent == 0
            &&& checks[4].what is ShCoeffs
            &&& checks[4].values matches Values::Rows(values) && values@ == splats.sh_coeffs.value.cells@
            &&& checks[4].bounds matches Some((min, max)) && min.mantissa == -5 && min.exponent == 0 && max.mantissa
                == 5 && max.exponent == 0
            &&& checks[5].what is RawOpacity
            &&& checks[5].values matches Values::Each(values) && values@ == splats.raw_opacities.value@
            &&& checks[5].bounds matches Some((min, max)) && min.mantissa == -20 && min.exponent == 0 && max.mantissa
                == 20 && max.exponent == 0
            &&& checks[6].what is Opacities
            &&& checks[6].values matches Values::Each(values) && values@ == opacities@
            &&& checks[6].bounds matches Some((min, max)) && min.mantissa == 0 && min.exponent == 0 && max.mantissa
                == 1 && max.exponent == 0
            &&& checks[7].what is Scales
            &&& checks[7].values matches Values::Rows(values) && values@ == scales@
            &&& checks[7].bounds matches Some((min, max)) && min.mantissa == 1 && min.exponent == -6 && max.mantissa
                == 100 && max.exponent == 0
        },
{
    if let Some(found) = validation {
        let (s, o) = choose|s: Table, o: Seq<u32>|
            #[trigger] real_scales(&splats, math, s) && #[trigger] real_opacities(&splats, math, o) && looks_at_all(
                &splats,
                s,
                o,
                found.checks@,
            );
        lemma_real_sizes_are_one(&splats, math, (s, scales@), (o, opacities@));
    }
}

/// The shapes of splats are in order exactly where there are ten numbers per
/// transform and three channels per coefficient, and as many opacities and rows
/// of coefficients as transforms, which 32 bits can count; else the first of
/// these that fails is told.
pub proof fn law_first_wrong_shape_is_told<M: SplatMath>(splats: Splats, math: &M, validation: Validation)
    requires
        keeps_shapes(math),
        splats.wf(),
        splats.floor_fits(),
        call_ensures(Splats::validate_values::<M>, (splats, true, math), Some(validation)),
    ensures
        ({
            let n = splats.transforms.value.rows as nat;
            let width_fits = splats.transforms.value.cols == 10;
            let count_fits = n < 0x1_0000_0000;
            let opacities_fit = splats.raw_opacities.value@.len() == n;
            let channels_fit = splats.sh_coeffs.value.channels == 3;
            let coeffs_fit = splats.sh_coeffs.value.cells.rows == n;
            &&& validation.shapes is Ok <==> width_fits && count_fits && opacities_fit && channels_fit && coeffs_fit
            &&& validation.shapes == Err::<(), ShapeFault>(ShapeFault::TransformsWidth) <==> !width_fits
            &&& validation.shapes == Err::<(), ShapeFault>(ShapeFault::TransformsCount) <==> width_fits && !count_fits
            &&& width_fits && count_fits ==> {
                &&& validation.shapes == Err::<(), ShapeFault>(ShapeFault::OpacityCount) <==> !opacities_fit
                &&& validation.shapes == Err::<(), ShapeFault>(ShapeFault::ShChannels) <==> opacities_fit
                    && !channels_fit
                &&& validation.shapes == Err::<(), ShapeFault>(ShapeFault::ShCount) <==> opacities_fit && channels_fit
                    && !coeffs_fit
            }
        }),
{
    let rows = splats.transforms.value.rows;
    assert((rows as u32) as usize == rows <==> rows < 0x1_0000_0000);
}

/// The gradients that are there are checked, each as it is, in the order of the
/// parameters and each at most once; none are where validation is off.
pub proof fn law_gradients_that_are_there_are_checked<T, S, O>(
    enabled: bool,
    transforms: Option<T>,
    sh_coeffs: Option<S>,
    raw_opacities: Option<O>,
    checks: Vec<GradientCheck<T, S, O>>,
)
    requires
        call_ensures(Splats::bwd_validate::<T, S, O>, (enabled, transforms, sh_coeffs, raw_opacities), checks),
    ensures
        !enabled ==> checks@.len() == 0,
        enabled ==> {
            let before_coeffs: int = if transforms is Some { 1 } else { 0 };
            let before_opacities: int = before_coeffs + if sh_coeffs is Some { 1int } else { 0 };
            &&& checks@.len() == before_opacities + if raw_opacities is Some { 1int } else { 0 }
            &&& transforms matches Some(g) ==> checks@[0] == GradientCheck::<T, S, O>::Transforms(g)
            &&& sh_coeffs matches Some(g) ==> checks@[before_coeffs] == GradientCheck::<T, S, O>::ShCoeffs(g)
            &&& raw_opacities matches Some(g) ==> checks@[before_opacities] == GradientCheck::<T, S, O>::RawOpacities(g)
        },
{
}

/// What is looked at has the name of the field or the reading that it is.
pub proof fn law_quantities_are_called_by_their_names(what: Quantity, name: &'static str)
    requires
        call_ensures(Quantity::name, (what,), name),
    ensures
        what is Means ==> name@ == "means"@,
        what is Rotations ==> name@ == "rotations"@,
        what is LogScales ==> name@ == "log_scales"@,
        what is Scales ==> name@ == "scales"@,
        what is ShCoeffs ==> name@ == "sh_coeffs"@,
        what is RawOpacity ==> name@ == "raw_opacity"@,
        what is Opacities ==> name@ == "opacities"@,
{
}

/// A gradient has the name of the parameter that it is of.
pub proof fn law_gradients_are_called_by_their_parameters<T, S, O>(check: GradientCheck<T, S, O>, name: &'static str)
    requires
        call_ensures(GradientCheck::<T, S, O>::name, (&check,), name),
    ensures
        check is Transforms ==> name@ == "transforms"@,
        check is ShCoeffs ==> name@ == "sh_coeffs"@,
        check is RawOpacities ==> name@ == "raw_opacities"@,
{
}

/// Each wrong shape is told in words of its own.
pub proof fn law_each_wrong_shape_has_its_words(fault: ShapeFault, message: &'static str)
    requires
        call_ensures(ShapeFault::message, (fault,), message),
    ensures
        fault is TransformsWidth ==> message@ == "Transforms must be 10D (means(3) + quats(4) + log_scales(3))"@,
        fault is TransformsCount ==> message@ == "Inconsistent number of splats in transforms"@,
        fault is OpacityCount ==> message@ == "Inconsistent number of splats in opacity"@,
        fault is ShChannels ==> message@ == "SH coeffs must have 3 color channels"@,
        fault is ShCount ==> message@ == "Inconsistent number of splats in SH coeffs"@,
{
}

} // verus!
