//! What the optimizer does, number by number: what comes out of a step in
//! terms of what goes in, for any arithmetic on numbers, and how several steps
//! relate where the arithmetic has the usual properties.

use crate::adam_scaled::{
    at_rate, averaged, first_of, keeps_dims, mean_trailing_dims, moved, sample_dims, sampled, second_of, takes,
    unbiased, AdamMath, AdamScaled, AdamState, MomentumState,
};
use crate::matrix::Matrix;
use crate::tensor::{
    compatible, countable, joint, law_one_per_row_counts_the_rows, law_one_per_row_spreads_back,
    law_same_shapes_combine, lemma_ones_hold_one, per_row, volume, Tensor,
};
use vstd::arithmetic::div_mod::*;
use vstd::arithmetic::mul::*;
use vstd::prelude::*;

verus! {

/// Arithmetic on single numbers.
pub struct StepNumbers {
    pub plus: spec_fn(u32, u32) -> u32,
    pub minus: spec_fn(u32, u32) -> u32,
    pub times: spec_fn(u32, u32) -> u32,
    pub over: spec_fn(u32, u32) -> u32,
    pub square: spec_fn(u32) -> u32,
    pub root: spec_fn(u32) -> u32,
    pub one_minus: spec_fn(u32) -> u32,
    pub power: spec_fn(u32, i32) -> u32,
    /// A number at a learning rate.
    pub at: spec_fn(u32, u64) -> u32,
    pub sum: spec_fn(Seq<u32>) -> u32,
    /// A number shared out among so many.
    pub share: spec_fn(u32, usize) -> u32,
}

/// Where the `j`-th number of an array of dimensions `dims` comes from in an
/// array of dimensions `src` that is repeated along those that are one long.
pub open spec fn spread_index(src: Seq<usize>, dims: Seq<usize>, j: int) -> int
    decreases dims.len(),
{
    if dims.len() == 0 {
        0
    } else {
        let v = volume(dims.skip(1)) as int;
        (if src[0] == 1 {
            0
        } else {
            j / v
        }) * volume(src.skip(1)) + spread_index(src.skip(1), dims.skip(1), j % v)
    }
}

/// Whether `y` is two arrays combined number by number.
pub open spec fn combined(x: Tensor, o: Tensor, f: spec_fn(u32, u32) -> u32, y: Tensor) -> bool {
    let dims = joint(x.dims@, o.dims@);
    &&& y.wf()
    &&& y.dims@ == dims
    &&& forall|j: int|
        0 <= j < volume(dims) ==> #[trigger] y.cells@[j] == f(
            x.cells@[spread_index(x.dims@, dims, j)],
            o.cells@[spread_index(o.dims@, dims, j)],
        )
}

/// Whether `y` is an array with each number replaced.
pub open spec fn replaced(x: Tensor, f: spec_fn(u32) -> u32, y: Tensor) -> bool {
    y.wf() && y.dims@ == x.dims@ && y.cells@ == x.cells@.map_values(f)
}

/// Whether arithmetic on arrays is this arithmetic on each of their numbers.
pub open spec fn computes<M: AdamMath>(math: &M, n: StepNumbers) -> bool {
    &&& forall|x: Tensor, y: Tensor|
        x.wf() && #[trigger] call_ensures(M::square, (math, &x), y) ==> replaced(x, n.square, y)
    &&& forall|x: Tensor, y: Tensor|
        x.wf() && #[trigger] call_ensures(M::root, (math, &x), y) ==> replaced(x, n.root, y)
    &&& forall|x: Tensor, c: u32, y: Tensor|
        x.wf() && #[trigger] call_ensures(M::times, (math, &x, c), y) ==> replaced(x, |a: u32| (n.times)(a, c), y)
    &&& forall|x: Tensor, c: u32, y: Tensor|
        x.wf() && #[trigger] call_ensures(M::divided, (math, &x, c), y) ==> replaced(x, |a: u32| (n.over)(a, c), y)
    &&& forall|x: Tensor, c: u32, y: Tensor|
        x.wf() && #[trigger] call_ensures(M::plus_scalar, (math, &x, c), y) ==> replaced(
            x,
            |a: u32| (n.plus)(a, c),
            y,
        )
    &&& forall|x: Tensor, lr: u64, y: Tensor|
        x.wf() && #[trigger] call_ensures(M::times_rate, (math, &x, lr), y) ==> replaced(
            x,
            |a: u32| (n.at)(a, lr),
            y,
        )
    &&& forall|x: Tensor, o: Tensor, y: Tensor|
        x.wf() && o.wf() && compatible(x.dims@, o.dims@) && #[trigger] call_ensures(M::plus, (math, &x, &o), y)
            ==> combined(x, o, n.plus, y)
    &&& forall|x: Tensor, o: Tensor, y: Tensor|
        x.wf() && o.wf() && compatible(x.dims@, o.dims@) && #[trigger] call_ensures(M::minus, (math, &x, &o), y)
            ==> combined(x, o, n.minus, y)
    &&& forall|x: Tensor, o: Tensor, y: Tensor|
        x.wf() && o.wf() && compatible(x.dims@, o.dims@) && #[trigger] call_ensures(M::product, (math, &x, &o), y)
            ==> combined(x, o, n.times, y)
    &&& forall|x: Tensor, o: Tensor, y: Tensor|
        x.wf() && o.wf() && compatible(x.dims@, o.dims@) && #[trigger] call_ensures(M::quotient, (math, &x, &o), y)
            ==> combined(x, o, n.over, y)
    &&& forall|x: Matrix, y: Vec<u32>|
        x.wf() && #[trigger] call_ensures(M::row_sums, (math, &x), y) ==> y@ == Seq::new(
            x@.rows.len(),
            |i: int| (n.sum)(x@.rows[i]),
        )
    &&& forall|x: Vec<u32>, count: usize, y: Vec<u32>|
        #[trigger] call_ensures(M::shared_out, (math, &x, count), y) ==> y@ == x@.map_values(
            |a: u32| (n.share)(a, count),
        )
    &&& forall|c: u32, y: u32| #[trigger] call_ensures(M::one_minus, (math, c), y) ==> y == (n.one_minus)(c)
    &&& forall|c: u32, e: i32, y: u32| #[trigger] call_ensures(M::power, (math, c, e), y) ==> y == (n.power)(c, e)
}

/// Arithmetic on each number keeps shapes.
proof fn lemma_computes_keeps_dims<M: AdamMath>(math: &M, n: StepNumbers)
    requires
        computes(math, n),
    ensures
        keeps_dims(math),
{
}

/// A number of an array is spread to its own place in the same shape.
proof fn lemma_spread_same(dims: Seq<usize>, j: int)
    requires
        0 <= j < volume(dims),
    ensures
        spread_index(dims, dims, j) == j,
    decreases dims.len(),
{
    if dims.len() > 0 {
        let v = volume(dims.skip(1)) as int;
        lemma_places(dims, j);
        lemma_spread_same(dims.skip(1), j % v);
        lemma_fundamental_div_mod(j, v);
        lemma_mul_is_commutative(v, j / v);
        if dims[0] == 1 {
            assert(j / v == 0);
        }
    }
}

/// The place of a number along the first dimension, and within its row.
proof fn lemma_places(dims: Seq<usize>, j: int)
    requires
        dims.len() > 0,
        0 <= j < volume(dims),
    ensures
        volume(dims.skip(1)) > 0,
        0 <= j / (volume(dims.skip(1)) as int) < dims[0],
        0 <= j % (volume(dims.skip(1)) as int) < volume(dims.skip(1)),
        j == j / (volume(dims.skip(1)) as int) * volume(dims.skip(1)) + j % (volume(dims.skip(1)) as int),
{
    let v = volume(dims.skip(1)) as int;
    let d = dims[0] as int;
    assert(v > 0) by (nonlinear_arith)
        requires
            0 <= j < d * v,
            v >= 0,
    ;
    lemma_fundamental_div_mod(j, v);
    lemma_mul_is_commutative(v, j / v);
    lemma_div_pos_is_pos(j, v);
    lemma_mod_bound(j, v);
    let i = j / v;
    assert(i < d) by (nonlinear_arith)
        requires
            j == i * v + j % v,
            0 <= j % v,
            j < d * v,
            v > 0,
    ;
}

/// A single number is spread to all places.
proof fn lemma_spread_ones(src: Seq<usize>, dims: Seq<usize>, j: int)
    requires
        src.len() == dims.len(),
        forall|i: int| 0 <= i < src.len() ==> src[i] == 1,
    ensures
        spread_index(src, dims, j) == 0,
    decreases dims.len(),
{
    if dims.len() > 0 {
        let v = volume(dims.skip(1)) as int;
        lemma_spread_ones(src.skip(1), dims.skip(1), j % v);
    }
}

/// One number per row is spread to all places of its row.
proof fn lemma_spread_rows(dims: Seq<usize>, j: int)
    requires
        dims.len() > 0,
        0 <= j < volume(dims),
    ensures
        spread_index(per_row(dims), dims, j) == j / (volume(dims.skip(1)) as int),
{
    let v = volume(dims.skip(1)) as int;
    let rest = per_row(dims).skip(1);
    lemma_places(dims, j);
    lemma_spread_ones(rest, dims.skip(1), j % v);
    lemma_ones_hold_one(rest);
    if dims[0] == 1 {
        assert(j / v == 0);
    }
}

/// The number of the second moment that the `j`-th number of a parameter goes
/// with: its own, or that of its row.
pub open spec fn second_place<const D: usize>(dims: Seq<usize>, reduced: bool, j: int) -> int {
    if reduced && D > 1 {
        j / (volume(dims.skip(1)) as int)
    } else {
        j
    }
}

/// What a gradient adds to the second moment at `q`: the square of the number
/// there, or the mean of the squares over the row.
pub open spec fn squared<const D: usize>(n: StepNumbers, grad: Tensor, reduced: bool, q: int) -> u32 {
    if reduced && D > 1 {
        let v = volume(grad.dims@.skip(1));
        (n.share)((n.sum)(Seq::new(v, |c: int| (n.square)(grad.cells@[q * v + c]))), v as usize)
    } else {
        (n.square)(grad.cells@[q])
    }
}

/// A moment with a sample blended in.
pub open spec fn blended(n: StepNumbers, beta: u32, before: Option<u32>, sample: u32) -> u32 {
    match before {
        Some(moment) => (n.plus)((n.times)(moment, beta), (n.times)(sample, (n.one_minus)(beta))),
        None => (n.times)(sample, (n.one_minus)(beta)),
    }
}

proof fn lemma_moved<M: AdamMath>(math: &M, n: StepNumbers, beta: u32, before: Option<Tensor>, sample: Tensor, after: Tensor, j: int)
    requires
        computes(math, n),
        moved(math, beta, before, sample, after),
        sample.wf(),
        before matches Some(m) ==> m.wf() && m.dims@ == sample.dims@,
        0 <= j < volume(sample.dims@),
    ensures
        after.wf(),
        after.dims@ == sample.dims@,
        after.cells@[j] == blended(
            n,
            beta,
            match before {
                Some(m) => Some(m.cells@[j]),
                None => None,
            },
            sample.cells@[j],
        ),
{
    law_same_shapes_combine(sample.dims@);
    lemma_spread_same(sample.dims@, j);
    let factor = choose|factor: u32|
        #[trigger] call_ensures(M::one_minus, (math, beta), factor) && match before {
            Some(moment) => exists|kept: Tensor, added: Tensor|
                {
                    &&& #[trigger] call_ensures(M::times, (math, &moment, beta), kept)
                    &&& #[trigger] call_ensures(M::times, (math, &sample, factor), added)
                    &&& call_ensures(M::plus, (math, &kept, &added), after)
                },
            None => call_ensures(M::times, (math, &sample, factor), after),
        };
    if let Some(moment) = before {
        let (kept, added) = choose|kept: Tensor, added: Tensor|
            {
                &&& #[trigger] call_ensures(M::times, (math, &moment, beta), kept)
                &&& #[trigger] call_ensures(M::times, (math, &sample, factor), added)
                &&& call_ensures(M::plus, (math, &kept, &added), after)
            };
        assert(combined(kept, added, n.plus, after));
        assert(kept.cells@[j] == (n.times)(moment.cells@[j], beta));
        assert(added.cells@[j] == (n.times)(sample.cells@[j], factor));
    }
}

proof fn lemma_sampled<M: AdamMath, const D: usize>(math: &M, n: StepNumbers, grad: Tensor, reduced: bool, sample: Tensor, q: int)
    requires
        computes(math, n),
        grad.wf(),
        grad.dims@.len() == D,
        reduced && D > 1 ==> countable(grad.dims@),
        sampled::<M, D>(math, grad, reduced, sample),
        0 <= q < volume(sample_dims::<D>(grad.dims@, reduced)),
    ensures
        sample.dims@ == sample_dims::<D>(grad.dims@, reduced),
        sample.wf(),
        sample.cells@[q] == squared::<D>(n, grad, reduced, q),
{
    let square = choose|square: Tensor|
        #[trigger] call_ensures(M::square, (math, &grad), square) && (if reduced && D > 1 {
            averaged(math, square, sample)
        } else {
            sample == square
        });
    assert(replaced(grad, n.square, square));
    if reduced && D > 1 {
        let dims = grad.dims@;
        let v = volume(dims.skip(1));
        law_one_per_row_counts_the_rows(dims);
        let (flat, sums) = choose|flat: Matrix, sums: Vec<u32>|
            {
                &&& flat.rows == square.dims@[0]
                &&& flat.cols == volume(square.dims@.skip(1))
                &&& flat.cells == square.cells
                &&& #[trigger] call_ensures(M::row_sums, (math, &flat), sums)
                &&& call_ensures(M::shared_out, (math, &sums, flat.cols), sample.cells)
                &&& sample.dims@ == per_row(square.dims@)
            };
        assert(flat.wf());
        let row = Seq::new(v, |c: int| (n.square)(grad.cells@[q * v + c]));
        crate::matrix::lemma_rows_are_full(&flat);
        assert forall|c: int| 0 <= c < v implies flat@.rows[q][c] == row[c] by {
            crate::matrix::law_rows_stand_one_after_the_other(&flat, q, c);
        }
        assert(flat@.rows[q] == row);
        assert(sums@[q] == (n.sum)(row));
    }
}

/// One step of the optimizer on a gradient, number by number. The first moment
/// blends in the gradient, and the second its square, or the mean of the
/// squares over the row. Each is divided by one less the power of its decay to
/// the number of steps, which frees it of its start at zero. The direction is
/// the first over the root of the second with epsilon added to it.
pub proof fn law_direction_number_by_number<M: AdamMath, const D: usize>(
    math: &M,
    n: StepNumbers,
    adam: AdamScaled,
    grad: Tensor,
    momentum: Option<MomentumState<D>>,
    reduced: bool,
    result: (Tensor, MomentumState<D>),
    j: int,
)
    requires
        computes(math, n),
        takes(&grad, momentum, reduced),
        momentum matches Some(m) ==> m.fits(grad.dims@, reduced),
        call_ensures(AdamScaled::transform::<M, D>, (&adam, &grad, momentum, reduced, math), result),
        0 <= j < volume(grad.dims@),
    ensures
        result.0.wf() && result.0.dims@ == grad.dims@,
        result.1.fits(grad.dims@, reduced),
        result.1.time == (match momentum {
            Some(m) => m.time + 1,
            None => 1,
        }),
        ({
            let q = second_place::<D>(grad.dims@, reduced, j);
            let (first, second) = (result.1.moment_1.cells@[j], result.1.moment_2.cells@[q]);
            let steps = result.1.time as i32;
            &&& 0 <= q < result.1.moment_2.cells@.len()
            &&& first == blended(
                n,
                adam.beta_1,
                match momentum {
                    Some(m) => Some(m.moment_1.cells@[j]),
                    None => None,
                },
                grad.cells@[j],
            )
            &&& second == blended(
                n,
                adam.beta_2,
                match momentum {
                    Some(m) => Some(m.moment_2.cells@[q]),
                    None => None,
                },
                squared::<D>(n, grad, reduced, q),
            )
            &&& result.0.cells@[j] == (n.over)(
                (n.over)(first, (n.one_minus)((n.power)(adam.beta_1, steps))),
                (n.plus)(
                    (n.root)((n.over)(second, (n.one_minus)((n.power)(adam.beta_2, steps)))),
                    adam.epsilon,
                ),
            )
        }),
{
    lemma_computes_keeps_dims(math, n);
    lemma_leads(math, n, adam, grad, momentum, reduced, result.0, result.1, j);
}

/// What a step does to a parameter and its state: the state gets the moments
/// of the direction for the gradient, and each number of the parameter loses
/// the direction at the learning rate, or at its own multiple of it. A scaling
/// that is one long along a dimension goes for all of it.
pub proof fn law_step_follows_the_direction<M: AdamMath, const D: usize>(
    math: &M,
    n: StepNumbers,
    adam: AdamScaled,
    lr: u64,
    tensor: Tensor,
    grad: Tensor,
    state: &mut AdamState<D>,
    result: Tensor,
    direction: (Tensor, MomentumState<D>),
    j: int,
)
    requires
        computes(math, n),
        takes(&grad, old(state).momentum, old(state).reduce_moment_2),
        old(state).momentum_fits(grad.dims@),
        tensor.wf(),
        tensor.dims@ == grad.dims@,
        old(state).scaling matches Some(scale) ==> scale.wf() && compatible(grad.dims@, scale.dims@) && joint(
            grad.dims@,
            scale.dims@,
        ) == grad.dims@,
        call_ensures(AdamScaled::step::<M, D>, (&adam, lr, tensor, &grad, state, math), result),
        call_ensures(
            AdamScaled::transform::<M, D>,
            (&adam, &grad, old(state).momentum, old(state).reduce_moment_2, math),
            direction,
        ),
        0 <= j < volume(grad.dims@),
    ensures
        result.wf() && result.dims@ == tensor.dims@,
        final(state).momentum matches Some(after) && {
            &&& after.time == direction.1.time
            &&& after.moment_1.cells@[j] == direction.1.moment_1.cells@[j]
            &&& after.moment_2.cells@[second_place::<D>(grad.dims@, old(state).reduce_moment_2, j)]
                == direction.1.moment_2.cells@[second_place::<D>(grad.dims@, old(state).reduce_moment_2, j)]
            &&& after.fits(grad.dims@, old(state).reduce_moment_2)
        },
        final(state).scaling == old(state).scaling,
        final(state).reduce_moment_2 == old(state).reduce_moment_2,
        result.cells@[j] == (n.minus)(
            tensor.cells@[j],
            match old(state).scaling {
                Some(scale) => (n.times)(
                    direction.0.cells@[j],
                    (n.at)(scale.cells@[spread_index(scale.dims@, grad.dims@, j)], lr),
                ),
                None => (n.at)(direction.0.cells@[j], lr),
            },
        ),
{
    let before = *old(state);
    let dims = grad.dims@;
    lemma_computes_keeps_dims(math, n);
    law_same_shapes_combine(dims);
    crate::adam_scaled::law_steps_keep_the_shape(&grad, before);
    let after = final(state).momentum->Some_0;
    let (taken, delta) = choose|taken: Tensor, delta: Tensor|
        {
            &&& #[trigger] adam.leads(math, after, taken)
            &&& #[trigger] at_rate(math, lr, before.scaling, taken, delta)
            &&& call_ensures(M::minus, (math, &tensor, &delta), result)
        };
    lemma_leads(math, n, adam, grad, before.momentum, before.reduce_moment_2, taken, after, j);
    law_direction_number_by_number(math, n, adam, grad, before.momentum, before.reduce_moment_2, direction, j);
    lemma_spread_same(dims, j);
    if let Some(scale) = before.scaling {
        let rates = choose|rates: Tensor|
            #[trigger] call_ensures(M::times_rate, (math, &scale, lr), rates) && call_ensures(
                M::product,
                (math, &taken, &rates),
                delta,
            );
        assert(replaced(scale, |a: u32| (n.at)(a, lr), rates));
        assert(combined(taken, rates, n.times, delta));
        let place = spread_index(scale.dims@, dims, j);
        lemma_spread_within(scale.dims@, dims, j);
        assert(rates.cells@[place] == (n.at)(scale.cells@[place], lr));
    } else {
        assert(replaced(taken, |a: u32| (n.at)(a, lr), delta));
    }
    assert(delta.dims@ == dims);
    assert(combined(tensor, delta, n.minus, result));
}

/// What is spread comes from within its array.
proof fn lemma_spread_within(src: Seq<usize>, dims: Seq<usize>, j: int)
    requires
        compatible(dims, src),
        joint(dims, src) == dims,
        0 <= j < volume(dims),
    ensures
        0 <= spread_index(src, dims, j) < volume(src),
    decreases dims.len(),
{
    if dims.len() > 0 {
        let v = volume(dims.skip(1)) as int;
        let w = volume(src.skip(1)) as int;
        lemma_places(dims, j);
        assert(dims[0] == src[0] || dims[0] == 1 || src[0] == 1);
        assert(joint(dims, src)[0] == dims[0]);
        assert forall|i: int| 0 <= i < dims.skip(1).len() implies #[trigger] dims.skip(1)[i] == #[trigger] src.skip(1)[i]
            || dims.skip(1)[i] == 1 || src.skip(1)[i] == 1 by {
            assert(dims[i + 1] == src[i + 1] || dims[i + 1] == 1 || src[i + 1] == 1);
        }
        assert forall|i: int| 0 <= i < dims.skip(1).len() implies joint(dims.skip(1), src.skip(1))[i] == dims.skip(1)[i] by {
            assert(joint(dims, src)[i + 1] == dims[i + 1]);
        }
        assert(joint(dims.skip(1), src.skip(1)) == dims.skip(1));
        lemma_spread_within(src.skip(1), dims.skip(1), j % v);
        let i = if src[0] == 1 {
            0
        } else {
            j / v
        };
        assert(0 <= i < src[0]);
        let (r, d) = (spread_index(src.skip(1), dims.skip(1), j % v), src[0] as int);
        assert(0 <= i * w + r < d * w) by (nonlinear_arith)
            requires
                0 <= i < d,
                0 <= r < w,
        ;
    }
}

/// What moments after a gradient lead to, number by number.
proof fn lemma_leads<M: AdamMath, const D: usize>(
    math: &M,
    n: StepNumbers,
    adam: AdamScaled,
    grad: Tensor,
    momentum: Option<MomentumState<D>>,
    reduced: bool,
    direction: Tensor,
    after: MomentumState<D>,
    j: int,
)
    requires
        computes(math, n),
        takes(&grad, momentum, reduced),
        momentum matches Some(m) ==> m.fits(grad.dims@, reduced),
        adam.updates(math, grad, momentum, reduced, after),
        adam.leads(math, after, direction),
        0 <= j < volume(grad.dims@),
    ensures
        direction.wf() && direction.dims@ == grad.dims@,
        after.fits(grad.dims@, reduced),
        ({
            let q = second_place::<D>(grad.dims@, reduced, j);
            let (first, second) = (after.moment_1.cells@[j], after.moment_2.cells@[q]);
            let steps = after.time as i32;
            &&& 0 <= q < after.moment_2.cells@.len()
            &&& first == blended(
                n,
                adam.beta_1,
                match momentum {
                    Some(m) => Some(m.moment_1.cells@[j]),
                    None => None,
                },
                grad.cells@[j],
            )
            &&& second == blended(
                n,
                adam.beta_2,
                match momentum {
                    Some(m) => Some(m.moment_2.cells@[q]),
                    None => None,
                },
                squared::<D>(n, grad, reduced, q),
            )
            &&& direction.cells@[j] == (n.over)(
                (n.over)(first, (n.one_minus)((n.power)(adam.beta_1, steps))),
                (n.plus)(
                    (n.root)((n.over)(second, (n.one_minus)((n.power)(adam.beta_2, steps)))),
                    adam.epsilon,
                ),
            )
        }),
{
    lemma_computes_keeps_dims(math, n);
    let dims = grad.dims@;
    let q = second_place::<D>(dims, reduced, j);
    law_one_per_row_spreads_back(dims);
    law_same_shapes_combine(dims);
    law_same_shapes_combine(per_row(dims));
    lemma_spread_same(dims, j);
    if reduced && D > 1 {
        lemma_places(dims, j);
        lemma_spread_rows(dims, j);
        law_one_per_row_counts_the_rows(dims);
    }
    lemma_moved(math, n, adam.beta_1, first_of(momentum), grad, after.moment_1, j);
    let sample = choose|sample: Tensor|
        #[trigger] sampled::<M, D>(math, grad, reduced, sample) && moved(
            math,
            adam.beta_2,
            second_of(momentum),
            sample,
            after.moment_2,
        );
    lemma_sampled::<M, D>(math, n, grad, reduced, sample, q);
    lemma_moved(math, n, adam.beta_2, second_of(momentum), sample, after.moment_2, q);
    let (corrected_1, corrected_2, root, guarded) = choose|
        corrected_1: Tensor,
        corrected_2: Tensor,
        root: Tensor,
        guarded: Tensor,
    |
        {
            &&& #[trigger] unbiased(math, adam.beta_1, after.moment_1, after.time, corrected_1)
            &&& #[trigger] unbiased(math, adam.beta_2, after.moment_2, after.time, corrected_2)
            &&& #[trigger] call_ensures(M::root, (math, &corrected_2), root)
            &&& #[trigger] call_ensures(M::plus_scalar, (math, &root, adam.epsilon), guarded)
            &&& call_ensures(M::quotient, (math, &corrected_1, &guarded), direction)
        };
    let steps = after.time as i32;
    assert(corrected_1.cells@[j] == (n.over)(
        after.moment_1.cells@[j],
        (n.one_minus)((n.power)(adam.beta_1, steps)),
    ));
    assert(corrected_2.cells@[q] == (n.over)(
        after.moment_2.cells@[q],
        (n.one_minus)((n.power)(adam.beta_2, steps)),
    ));
    assert(guarded.cells@[q] == (n.plus)((n.root)(corrected_2.cells@[q]), adam.epsilon));
    assert(combined(corrected_1, guarded, n.over, direction));
}

/// A gradient of zeros on the first step leaves the parameter as it is, where
/// zero is what it is in arithmetic: zero times and over anything but zero,
/// shared out and at any rate it is zero, and adding or taking it off changes
/// nothing. Epsilon is what keeps the divisor from being zero.
pub proof fn law_no_gradient_leaves_the_parameter<M: AdamMath, const D: usize>(
    math: &M,
    n: StepNumbers,
    adam: AdamScaled,
    lr: u64,
    tensor: Tensor,
    grad: Tensor,
    state: &mut AdamState<D>,
    result: Tensor,
    direction: (Tensor, MomentumState<D>),
    j: int,
)
    requires
        computes(math, n),
        zero_is_zero(n),
        adam.epsilon != 0,
        (n.one_minus)((n.power)(adam.beta_1, 1)) != 0,
        (n.one_minus)((n.power)(adam.beta_2, 1)) != 0,
        old(state).momentum is None,
        takes(&grad, old(state).momentum, old(state).reduce_moment_2),
        tensor.wf(),
        tensor.dims@ == grad.dims@,
        old(state).scaling matches Some(scale) ==> scale.wf() && compatible(grad.dims@, scale.dims@) && joint(
            grad.dims@,
            scale.dims@,
        ) == grad.dims@,
        call_ensures(AdamScaled::step::<M, D>, (&adam, lr, tensor, &grad, state, math), result),
        call_ensures(
            AdamScaled::transform::<M, D>,
            (&adam, &grad, old(state).momentum, old(state).reduce_moment_2, math),
            direction,
        ),
        forall|c: int| 0 <= c < grad.cells@.len() ==> grad.cells@[c] == 0,
        0 <= j < volume(grad.dims@),
    ensures
        result.cells@[j] == tensor.cells@[j],
        direction.0.cells@[j] == 0,
{
    let reduced = old(state).reduce_moment_2;
    law_step_follows_the_direction(math, n, adam, lr, tensor, grad, state, result, direction, j);
    law_direction_number_by_number(math, n, adam, grad, None::<MomentumState<D>>, reduced, direction, j);
    let dims = grad.dims@;
    let q = second_place::<D>(dims, reduced, j);
    if reduced && D > 1 {
        lemma_places(dims, j);
        let v = volume(dims.skip(1));
        let squares = Seq::new(v, |c: int| (n.square)(grad.cells@[q * v + c]));
        assert forall|c: int| 0 <= c < squares.len() implies squares[c] == 0 by {
            assert(0 <= q * v + c < dims[0] * v) by (nonlinear_arith)
                requires
                    0 <= q < dims[0],
                    0 <= c < v,
            ;
        }
        assert((n.sum)(squares) == 0);
    }
    assert(squared::<D>(n, grad, reduced, q) == 0);
    assert(direction.1.moment_1.cells@[j] == 0);
    assert(direction.1.moment_2.cells@[q] == 0);
}

/// Whether zero is what it is in arithmetic.
pub open spec fn zero_is_zero(n: StepNumbers) -> bool {
    &&& (n.square)(0) == 0
    &&& (n.root)(0) == 0
    &&& forall|x: u32| #[trigger] (n.times)(0, x) == 0
    &&& forall|x: u32| x != 0 ==> #[trigger] (n.over)(0, x) == 0
    &&& forall|x: u32| #[trigger] (n.plus)(0, x) == x
    &&& forall|x: u32| #[trigger] (n.minus)(x, 0) == x
    &&& forall|lr: u64| #[trigger] (n.at)(0, lr) == 0
    &&& forall|count: usize| #[trigger] (n.share)(0, count) == 0
    &&& forall|numbers: Seq<u32>|
        (forall|c: int| 0 <= c < numbers.len() ==> numbers[c] == 0) ==> #[trigger] (n.sum)(numbers) == 0
}

/// Optimizers that differ in epsilon alone get the same moments from a
/// gradient, and go by the same number over the same root with their own
/// epsilon added to it.
pub proof fn law_epsilon_is_added_to_the_root<M: AdamMath, const D: usize>(
    math: &M,
    n: StepNumbers,
    one: AdamScaled,
    other: AdamScaled,
    grad: Tensor,
    momentum: Option<MomentumState<D>>,
    reduced: bool,
    result: (Tensor, MomentumState<D>),
    other_result: (Tensor, MomentumState<D>),
    j: int,
) -> (parts: (u32, u32))
    requires
        computes(math, n),
        one.beta_1 == other.beta_1,
        one.beta_2 == other.beta_2,
        takes(&grad, momentum, reduced),
        momentum matches Some(m) ==> m.fits(grad.dims@, reduced),
        call_ensures(AdamScaled::transform::<M, D>, (&one, &grad, momentum, reduced, math), result),
        call_ensures(AdamScaled::transform::<M, D>, (&other, &grad, momentum, reduced, math), other_result),
        0 <= j < volume(grad.dims@),
    ensures
        result.0.cells@[j] == (n.over)(parts.0, (n.plus)(parts.1, one.epsilon)),
        other_result.0.cells@[j] == (n.over)(parts.0, (n.plus)(parts.1, other.epsilon)),
        result.1.moment_1.cells@[j] == other_result.1.moment_1.cells@[j],
        result.1.time == other_result.1.time,
{
    law_direction_number_by_number(math, n, one, grad, momentum, reduced, result, j);
    law_direction_number_by_number(math, n, other, grad, momentum, reduced, other_result, j);
    let q = second_place::<D>(grad.dims@, reduced, j);
    let steps = result.1.time as i32;
    (
        (n.over)(result.1.moment_1.cells@[j], (n.one_minus)((n.power)(one.beta_1, steps))),
        (n.root)((n.over)(result.1.moment_2.cells@[q], (n.one_minus)((n.power)(one.beta_2, steps)))),
    )
}

/// On the first step the direction is the gradient over its own size: where
/// taking out a factor undoes putting it in, it is the gradient over the root
/// of its square with epsilon added, whatever the decays are.
pub proof fn law_first_direction_is_free_of_decay<M: AdamMath, const D: usize>(
    math: &M,
    n: StepNumbers,
    adam: AdamScaled,
    grad: Tensor,
    result: (Tensor, MomentumState<D>),
    j: int,
)
    requires
        computes(math, n),
        forall|x: u32, c: u32| #[trigger] (n.over)((n.times)(x, c), c) == x,
        forall|x: u32| #[trigger] (n.power)(x, 1) == x,
        takes(&grad, None::<MomentumState<D>>, false),
        call_ensures(AdamScaled::transform::<M, D>, (&adam, &grad, None::<MomentumState<D>>, false, math), result),
        0 <= j < volume(grad.dims@),
    ensures
        result.0.cells@[j] == (n.over)(
            grad.cells@[j],
            (n.plus)((n.root)((n.square)(grad.cells@[j])), adam.epsilon),
        ),
{
    law_direction_number_by_number(math, n, adam, grad, None::<MomentumState<D>>, false, result, j);
}

/// The optimizer keeps nine tenths of the first moment and all but a
/// thousandth of the second, and guards its divisions by what it is told.
pub proof fn law_optimizer_is_the_usual_one(epsilon: u32, adam: AdamScaled)
    requires
        call_ensures(AdamScaled::new, (epsilon,), adam),
    ensures
        adam.beta_1 == 0x3f66_6666,
        adam.beta_2 == 0x3f7f_be77,
        adam.epsilon == epsilon,
{
}

/// Mapping the moments maps both of them. By what changes nothing it changes
/// nothing, and it never changes the number of steps, the scaling or the
/// reduction, nor makes moments where there are none.
pub proof fn law_mapping_moments<F: Fn(Tensor) -> Tensor, const D: usize>(state: &mut AdamState<D>, map_fn: F)
    requires
        call_ensures(AdamState::<D>::map_momentum::<F>, (state, map_fn), ()),
    ensures
        final(state).scaling == old(state).scaling,
        final(state).reduce_moment_2 == old(state).reduce_moment_2,
        final(state).steps() == old(state).steps(),
        final(state).momentum is Some <==> old(state).momentum is Some,
        (forall|x: Tensor, y: Tensor| #[trigger] map_fn.ensures((x,), y) ==> y == x) ==> *final(state) == *old(state),
        old(state).momentum matches Some(before) ==> {
            &&& map_fn.ensures((before.moment_1,), final(state).momentum->Some_0.moment_1)
            &&& map_fn.ensures((before.moment_2,), final(state).momentum->Some_0.moment_2)
        },
{
}

/// A state before its first step has no moments, and what it was given.
pub proof fn law_new_state_has_no_moments<const D: usize>(scaling: Option<Tensor>, reduced: bool, state: AdamState<D>)
    requires
        call_ensures(AdamState::<D>::new, (scaling, reduced), state),
    ensures
        state.momentum is None,
        state.scaling == scaling,
        state.reduce_moment_2 == reduced,
{
}

/// The mean over all trailing dimensions, number by number.
pub proof fn law_mean_number_by_number<M: AdamMath>(math: &M, n: StepNumbers, values: Tensor, mean: Tensor, i: int)
    requires
        computes(math, n),
        values.wf(),
        values.dims@.len() > 1,
        countable(values.dims@),
        call_ensures(mean_trailing_dims::<M>, (values, math), mean),
        0 <= i < values.dims@[0],
    ensures
        mean.dims@.len() == values.dims@.len(),
        mean.dims@[0] == values.dims@[0],
        forall|d: int| 1 <= d < mean.dims@.len() ==> mean.dims@[d] == 1,
        mean.cells@[i] == (n.share)(
            (n.sum)(
                values.cells@.subrange(
                    i * volume(values.dims@.skip(1)),
                    i * volume(values.dims@.skip(1)) + volume(values.dims@.skip(1)),
                ),
            ),
            volume(values.dims@.skip(1)) as usize,
        ),
{
    lemma_computes_keeps_dims(math, n);
    let (flat, sums) = choose|flat: Matrix, sums: Vec<u32>|
        {
            &&& flat.rows == values.dims@[0]
            &&& flat.cols == volume(values.dims@.skip(1))
            &&& flat.cells == values.cells
            &&& #[trigger] call_ensures(M::row_sums, (math, &flat), sums)
            &&& call_ensures(M::shared_out, (math, &sums, flat.cols), mean.cells)
            &&& mean.dims@ == per_row(values.dims@)
        };
    assert(flat.wf());
    assert(sums@[i] == (n.sum)(flat@.rows[i]));
}

} // verus!
