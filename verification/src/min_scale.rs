//! The floor under the scales of splats: a smoothing filter that keeps a splat
//! from becoming smaller than a given size in world space. Folded in, scales
//! become `sqrt(s^2 + f^2)`, and opacities are lowered by the ratio of the old
//! size to the new one over the three axes, so that the energy stays.

use crate::matrix::{lemma_rows_are_full, Matrix, Table};
use crate::splat_math::{has_one_result, joint_len, keeps_shapes, repeatable, SplatMath};
use vstd::prelude::*;

verus! {

/// The number one half.
pub const HALF: u32 = 0x3f00_0000;

/// The number one.
pub const ONE: u32 = 0x3f80_0000;

/// The number two.
pub const TWO: u32 = 0x4000_0000;

/// The least opacity that a folded splat is given: a millionth.
pub const LEAST_OPACITY: u32 = 0x3586_37bd;

/// The greatest opacity that a folded splat is given: one less a millionth.
pub const GREATEST_OPACITY: u32 = 0x3f7f_ffef;

/// Whether a floor can be folded into transforms and opacities: the floor has
/// a number per splat, and the opacities have as many or can be repeated to as
/// many.
pub open spec fn foldable(transforms: &Matrix, raw_opac: &Vec<u32>, f: &Vec<u32>) -> bool {
    &&& transforms.wf()
    &&& f@.len() == transforms.rows
    &&& repeatable(raw_opac@.len(), transforms.rows as nat)
}

/// Whether `new_log` may be the log scales under the floor `f`: half the
/// logarithm of `exp(2 * log) + f * f`.
pub open spec fn widened<M: SplatMath>(math: &M, log_scales: Matrix, f: Vec<u32>, new_log: Matrix) -> bool {
    exists|doubled: Matrix, s2: Matrix, f2: Vec<u32>, s2f: Matrix, log: Matrix|
        {
            &&& #[trigger] call_ensures(M::times, (math, &log_scales, TWO), doubled)
            &&& #[trigger] call_ensures(M::exp, (math, &doubled), s2)
            &&& #[trigger] call_ensures(M::product, (math, &f, &f), f2)
            &&& #[trigger] call_ensures(M::plus_per_row, (math, &s2, &f2), s2f)
            &&& #[trigger] call_ensures(M::log, (math, &s2f), log)
            &&& call_ensures(M::times, (math, &log, HALF), new_log)
        }
}

/// Whether `coef` may be the ratio of the old size of each splat to the new:
/// the exponential of the sum of `log - new_log` over the axes.
pub open spec fn shrinkage<M: SplatMath>(math: &M, log_scales: Matrix, new_log: Matrix, coef: Vec<u32>) -> bool {
    exists|less: Matrix, sums: Vec<u32>|
        {
            &&& #[trigger] call_ensures(M::minus, (math, &log_scales, &new_log), less)
            &&& #[trigger] call_ensures(M::row_sums, (math, &less), sums)
            &&& call_ensures(M::exp_each, (math, &sums), coef)
        }
}

/// Whether `opac` may be the activated opacities multiplied by `coef` and
/// brought within what a splat may have.
pub open spec fn dimmed<M: SplatMath>(math: &M, raw_opac: Vec<u32>, coef: Vec<u32>, opac: Vec<u32>) -> bool {
    exists|plain: Vec<u32>, product: Vec<u32>|
        {
            &&& #[trigger] call_ensures(M::sigmoid, (math, &raw_opac), plain)
            &&& #[trigger] call_ensures(M::product, (math, &plain, &coef), product)
            &&& call_ensures(M::clamped, (math, &product, LEAST_OPACITY, GREATEST_OPACITY), opac)
        }
}

/// Whether `raw` may be the raw form of the opacities `opac`: the logarithm
/// of `opac / (-opac + 1)`.
pub open spec fn deactivated<M: SplatMath>(math: &M, opac: Vec<u32>, raw: Vec<u32>) -> bool {
    exists|less: Vec<u32>, rest: Vec<u32>, odds: Vec<u32>|
        {
            &&& #[trigger] call_ensures(M::negated, (math, &opac), less)
            &&& #[trigger] call_ensures(M::plus_each, (math, &less, ONE), rest)
            &&& #[trigger] call_ensures(M::quotient, (math, &opac, &rest), odds)
            &&& call_ensures(M::log_each, (math, &odds), raw)
        }
}

/// The values that come up while a floor is folded in.
pub struct Folding {
    pub log_scales: Matrix,
    pub floor: Vec<u32>,
    pub new_log: Matrix,
    pub coef: Vec<u32>,
    pub raw: Vec<u32>,
    pub opac: Vec<u32>,
    pub new_raw: Vec<u32>,
}

impl Folding {
    /// Whether the floor `f` may be folded into transforms and raw opacities
    /// by way of these values.
    pub open spec fn folds<M: SplatMath>(self, math: &M, transforms: Table, raw_opac: Seq<u32>, f: Seq<u32>) -> bool {
        &&& self.log_scales.wf() && self.log_scales@ == transforms.columns(7, 10)
        &&& self.floor@ == f
        &&& self.raw@ == raw_opac
        &&& widened(math, self.log_scales, self.floor, self.new_log)
        &&& shrinkage(math, self.log_scales, self.new_log, self.coef)
        &&& dimmed(math, self.raw, self.coef, self.opac)
        &&& deactivated(math, self.opac, self.new_raw)
    }
}

/// Whether folding the floor `f` into transforms and raw opacities may give
/// these new ones.
pub open spec fn folded<M: SplatMath>(
    math: &M,
    transforms: Table,
    raw_opac: Seq<u32>,
    f: Seq<u32>,
    new_transforms: Table,
    new_raw_opac: Seq<u32>,
) -> bool {
    exists|by: Folding|
        {
            &&& #[trigger] by.folds(math, transforms, raw_opac, f)
            &&& new_transforms == transforms.with_columns(7, by.new_log@)
            &&& new_raw_opac == by.new_raw@
        }
}

/// The floor `f` folded into transforms and raw opacities.
pub fn fold_min_scale<M: SplatMath>(
    transforms: &Matrix,
    raw_opac: &Vec<u32>,
    f: &Vec<u32>,
    math: &M,
) -> (result: (Matrix, Vec<u32>))
    requires
        foldable(transforms, raw_opac, f),
        keeps_shapes(math),
    ensures
        result.0.wf(),
        result.0.rows == transforms.rows,
        result.0.cols == transforms.cols,
        result.1@.len() == joint_len(raw_opac@.len(), transforms.rows as nat),
        folded(math, transforms@, raw_opac@, f@, result.0@, result.1@),
{
    let log_scales = transforms.columns(7, 10);
    let doubled = math.times(&log_scales, TWO);
    let s2 = math.exp(&doubled);
    let f2 = math.product(f, f);
    let s2f = math.plus_per_row(&s2, &f2);
    let log = math.log(&s2f);
    let new_log = math.times(&log, HALF);
    proof {
        assert(widened(math, log_scales, *f, new_log));
    }
    let new_transforms = transforms.with_columns(7, &new_log);

    let less = math.minus(&log_scales, &new_log);
    let sums = math.row_sums(&less);
    let coef = math.exp_each(&sums);
    proof {
        assert(shrinkage(math, log_scales, new_log, coef));
    }

    let plain = math.sigmoid(raw_opac);
    let product = math.product(&plain, &coef);
    let opac = math.clamped(&product, LEAST_OPACITY, GREATEST_OPACITY);
    proof {
        assert(dimmed(math, *raw_opac, coef, opac));
    }

    let negative = math.negated(&opac);
    let rest = math.plus_each(&negative, ONE);
    let odds = math.quotient(&opac, &rest);
    let new_raw = math.log_each(&odds);
    proof {
        assert(deactivated(math, opac, new_raw));
        let by = Folding { log_scales, floor: *f, new_log, coef, raw: *raw_opac, opac, new_raw };
        assert(by.folds(math, transforms@, raw_opac@, f@));
    }
    (new_transforms, new_raw)
}

/// Folding in a floor changes the scales alone of the transforms: their shape,
/// the means, the rotations and whatever follows the scales stay.
pub proof fn law_folding_changes_scales_alone<M: SplatMath>(
    math: &M,
    transforms: Table,
    raw_opac: Seq<u32>,
    f: Seq<u32>,
    new_transforms: Table,
    new_raw_opac: Seq<u32>,
)
    requires
        transforms.wf(),
        keeps_shapes(math),
        folded(math, transforms, raw_opac, f, new_transforms, new_raw_opac),
    ensures
        new_transforms.wf(),
        transforms.same_shape(new_transforms),
        new_transforms.columns(0, 7) == transforms.columns(0, 7),
        new_transforms.columns(10, transforms.width as int) == transforms.columns(10, transforms.width as int),
{
    let by = choose|by: Folding|
        {
            &&& #[trigger] by.folds(math, transforms, raw_opac, f)
            &&& new_transforms == transforms.with_columns(7, by.new_log@)
            &&& new_raw_opac == by.new_raw@
        };
    let (log_scales, new_log) = (by.log_scales, by.new_log);
    assert(new_log.wf() && new_log.rows == log_scales.rows && new_log.cols == log_scales.cols);
    lemma_rows_are_full(&new_log);
    assert(log_scales@.same_shape(new_log@));
    let width = transforms.width as int;
    let (start, end) = (transforms.clip(7), transforms.clip(10));
    assert forall|i: int| 0 <= i < transforms.rows.len() implies {
        &&& (#[trigger] new_transforms.rows[i]).len() == width
        &&& new_transforms.rows[i].subrange(0, start) == transforms.rows[i].subrange(0, start)
        &&& new_transforms.rows[i].subrange(end, width) == transforms.rows[i].subrange(end, width)
    } by {
        assert(transforms.rows[i].len() == width && new_log@.rows[i].len() == end - start);
        assert(new_transforms.rows[i].subrange(0, start) == transforms.rows[i].subrange(0, start));
        assert(new_transforms.rows[i].subrange(end, width) == transforms.rows[i].subrange(end, width));
    }
    assert(new_transforms.columns(0, 7) == transforms.columns(0, 7));
    assert(new_transforms.columns(10, width) == transforms.columns(10, width));
}

/// Where each computation has one result alone, so have the new log scales.
proof fn lemma_widened_once<M: SplatMath>(math: &M, one: Folding, other: Folding)
    requires
        keeps_shapes(math),
        has_one_result(math),
        one.log_scales.wf(),
        other.log_scales.wf(),
        one.log_scales@ == other.log_scales@,
        one.floor@ == other.floor@,
        widened(math, one.log_scales, one.floor, one.new_log),
        widened(math, other.log_scales, other.floor, other.new_log),
    ensures
        one.new_log.wf(),
        other.new_log.wf(),
        one.new_log@ == other.new_log@,
{
}

/// Where each computation has one result alone, so have the ratios of sizes.
proof fn lemma_shrinkage_once<M: SplatMath>(math: &M, one: Folding, other: Folding)
    requires
        keeps_shapes(math),
        has_one_result(math),
        one.log_scales.wf(),
        other.log_scales.wf(),
        one.log_scales@ == other.log_scales@,
        one.new_log.wf(),
        other.new_log.wf(),
        one.new_log@ == other.new_log@,
        shrinkage(math, one.log_scales, one.new_log, one.coef),
        shrinkage(math, other.log_scales, other.new_log, other.coef),
    ensures
        one.coef@ == other.coef@,
{
}

/// Where each computation has one result alone, so have the raw opacities.
proof fn lemma_dimmed_once<M: SplatMath>(math: &M, one: Folding, other: Folding)
    requires
        has_one_result(math),
        one.raw@ == other.raw@,
        one.coef@ == other.coef@,
        dimmed(math, one.raw, one.coef, one.opac),
        dimmed(math, other.raw, other.coef, other.opac),
        deactivated(math, one.opac, one.new_raw),
        deactivated(math, other.opac, other.new_raw),
    ensures
        one.new_raw@ == other.new_raw@,
{
    assert(one.opac@ == other.opac@);
}

/// Where each computation has one result alone, so has folding in a floor.
pub proof fn law_folding_has_one_result<M: SplatMath>(
    math: &M,
    transforms: Table,
    raw_opac: Seq<u32>,
    f: Seq<u32>,
    one: (Table, Seq<u32>),
    other: (Table, Seq<u32>),
)
    requires
        keeps_shapes(math),
        has_one_result(math),
        folded(math, transforms, raw_opac, f, one.0, one.1),
        folded(math, transforms, raw_opac, f, other.0, other.1),
    ensures
        one == other,
{
    let a = choose|by: Folding|
        {
            &&& #[trigger] by.folds(math, transforms, raw_opac, f)
            &&& one.0 == transforms.with_columns(7, by.new_log@)
            &&& one.1 == by.new_raw@
        };
    let b = choose|by: Folding|
        {
            &&& #[trigger] by.folds(math, transforms, raw_opac, f)
            &&& other.0 == transforms.with_columns(7, by.new_log@)
            &&& other.1 == by.new_raw@
        };
    lemma_widened_once(math, a, b);
    lemma_shrinkage_once(math, a, b);
    lemma_dimmed_once(math, a, b);
}

} // verus!
