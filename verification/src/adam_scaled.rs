//! Adam with a learning rate per component and, for parameters that need no
//! variance per element, a second moment that is one number per row.
//!
//! The arithmetic on whole arrays is handed in by the caller. Which array goes
//! into which computation, and what becomes of the state, is settled here.

use crate::matrix::Matrix;
use crate::tensor::{
    compatible, countable, joint, law_one_per_row_spreads_back, law_same_shapes_combine, per_row, volume, Tensor,
};
use vstd::prelude::*;

verus! {

/// How much of the first moment stays at a step: 0.9.
pub const BETA_1: u32 = 0x3f66_6666;

/// How much of the second moment stays at a step: 0.999.
pub const BETA_2: u32 = 0x3f7f_be77;

/// Arithmetic on arrays and numbers, each a bit pattern of a float.
pub trait AdamMath {
    /// Each number squared.
    fn square(&self, values: &Tensor) -> (result: Tensor)
        requires
            values.wf(),
    ;

    /// The sum of each row.
    fn row_sums(&self, values: &Matrix) -> (result: Vec<u32>)
        requires
            values.wf(),
    ;

    /// Each number divided by the count.
    fn shared_out(&self, values: &Vec<u32>, count: usize) -> (result: Vec<u32>);

    /// Each number multiplied by the factor.
    fn times(&self, values: &Tensor, factor: u32) -> (result: Tensor)
        requires
            values.wf(),
    ;

    /// Each number multiplied by the learning rate, a double-precision one.
    fn times_rate(&self, values: &Tensor, lr: u64) -> (result: Tensor)
        requires
            values.wf(),
    ;

    /// Each number divided by the divisor.
    fn divided(&self, values: &Tensor, divisor: u32) -> (result: Tensor)
        requires
            values.wf(),
    ;

    /// The offset added to each number.
    fn plus_scalar(&self, values: &Tensor, offset: u32) -> (result: Tensor)
        requires
            values.wf(),
    ;

    /// The square root of each number.
    fn root(&self, values: &Tensor) -> (result: Tensor)
        requires
            values.wf(),
    ;

    /// Two arrays added, number by number.
    fn plus(&self, values: &Tensor, others: &Tensor) -> (result: Tensor)
        requires
            values.wf(),
            others.wf(),
            compatible(values.dims@, others.dims@),
    ;

    /// One array less another, number by number.
    fn minus(&self, values: &Tensor, others: &Tensor) -> (result: Tensor)
        requires
            values.wf(),
            others.wf(),
            compatible(values.dims@, others.dims@),
    ;

    /// Two arrays multiplied, number by number.
    fn product(&self, values: &Tensor, others: &Tensor) -> (result: Tensor)
        requires
            values.wf(),
            others.wf(),
            compatible(values.dims@, others.dims@),
    ;

    /// One array divided by another, number by number.
    fn quotient(&self, values: &Tensor, others: &Tensor) -> (result: Tensor)
        requires
            values.wf(),
            others.wf(),
            compatible(values.dims@, others.dims@),
    ;

    /// One less the number.
    fn one_minus(&self, value: u32) -> (result: u32);

    /// The number to the given power.
    fn power(&self, value: u32, exponent: i32) -> (result: u32);
}

/// Whether the second array is full and has the shape of the first.
pub open spec fn same_dims(x: &Tensor, y: &Tensor) -> bool {
    y.wf() && y.dims@ == x.dims@
}

/// Whether the array is full and has the joint shape of the two others.
pub open spec fn joint_dims(x: &Tensor, o: &Tensor, y: &Tensor) -> bool {
    y.wf() && y.dims@ == joint(x.dims@, o.dims@)
}

/// Whether each computation on one array keeps its shape, those on two give
/// the joint shape, and rows have as many sums, each shared out by itself.
pub open spec fn keeps_dims<M: AdamMath>(math: &M) -> bool {
    &&& forall|x: Tensor, y: Tensor|
        x.wf() && #[trigger] call_ensures(M::square, (math, &x), y) ==> same_dims(&x, &y)
    &&& forall|x: Matrix, y: Vec<u32>|
        x.wf() && #[trigger] call_ensures(M::row_sums, (math, &x), y) ==> y@.len() == x.rows
    &&& forall|x: Vec<u32>, count: usize, y: Vec<u32>|
        #[trigger] call_ensures(M::shared_out, (math, &x, count), y) ==> y@.len() == x@.len()
    &&& forall|x: Tensor, factor: u32, y: Tensor|
        x.wf() && #[trigger] call_ensures(M::times, (math, &x, factor), y) ==> same_dims(&x, &y)
    &&& forall|x: Tensor, lr: u64, y: Tensor|
        x.wf() && #[trigger] call_ensures(M::times_rate, (math, &x, lr), y) ==> same_dims(&x, &y)
    &&& forall|x: Tensor, divisor: u32, y: Tensor|
        x.wf() && #[trigger] call_ensures(M::divided, (math, &x, divisor), y) ==> same_dims(&x, &y)
    &&& forall|x: Tensor, offset: u32, y: Tensor|
        x.wf() && #[trigger] call_ensures(M::plus_scalar, (math, &x, offset), y) ==> same_dims(&x, &y)
    &&& forall|x: Tensor, y: Tensor|
        x.wf() && #[trigger] call_ensures(M::root, (math, &x), y) ==> same_dims(&x, &y)
    &&& forall|x: Tensor, o: Tensor, y: Tensor|
        x.wf() && o.wf() && compatible(x.dims@, o.dims@) && #[trigger] call_ensures(M::plus, (math, &x, &o), y)
            ==> joint_dims(&x, &o, &y)
    &&& forall|x: Tensor, o: Tensor, y: Tensor|
        x.wf() && o.wf() && compatible(x.dims@, o.dims@) && #[trigger] call_ensures(M::minus, (math, &x, &o), y)
            ==> joint_dims(&x, &o, &y)
    &&& forall|x: Tensor, o: Tensor, y: Tensor|
        x.wf() && o.wf() && compatible(x.dims@, o.dims@) && #[trigger] call_ensures(M::product, (math, &x, &o), y)
            ==> joint_dims(&x, &o, &y)
    &&& forall|x: Tensor, o: Tensor, y: Tensor|
        x.wf() && o.wf() && compatible(x.dims@, o.dims@) && #[trigger] call_ensures(M::quotient, (math, &x, &o), y)
            ==> joint_dims(&x, &o, &y)
}

/// The moments of one parameter, an array of `D` dimensions.
#[derive(Clone)]
pub struct MomentumState<const D: usize> {
    pub moment_1: Tensor,
    pub moment_2: Tensor,
    /// How many steps have been taken.
    pub time: usize,
}

impl<const D: usize> MomentumState<D> {
    /// Both moments are full arrays of `D` dimensions.
    pub open spec fn wf(&self) -> bool {
        &&& self.moment_1.wf() && self.moment_1.dims@.len() == D
        &&& self.moment_2.wf() && self.moment_2.dims@.len() == D
    }

    /// The moments belong to a parameter of this shape.
    pub open spec fn fits(&self, dims: Seq<usize>, reduced: bool) -> bool {
        self.wf() && self.moment_1.dims@ == dims && self.moment_2.dims@ == sample_dims::<D>(dims, reduced)
    }
}

/// What the optimizer keeps of one parameter, an array of `D` dimensions.
#[derive(Clone)]
pub struct AdamState<const D: usize> {
    pub momentum: Option<MomentumState<D>>,
    /// What the learning rate of each component is multiplied by.
    pub scaling: Option<Tensor>,
    /// Whether the second moment is one number per row.
    pub reduce_moment_2: bool,
}

impl<const D: usize> AdamState<D> {
    /// The state before the first step.
    pub fn new(scaling: Option<Tensor>, reduce_moment_2: bool) -> (state: Self)
        ensures
            state == (AdamState::<D> { momentum: None, scaling, reduce_moment_2 }),
    {
        AdamState { momentum: None, scaling, reduce_moment_2 }
    }

    /// Applies `map_fn` to both moments, if there are any yet.
    pub fn map_momentum<F: Fn(Tensor) -> Tensor>(&mut self, map_fn: F)
        requires
            old(self).momentum matches Some(m) ==> map_fn.requires((m.moment_1,)) && map_fn.requires((m.moment_2,)),
        ensures
            final(self).scaling == old(self).scaling,
            final(self).reduce_moment_2 == old(self).reduce_moment_2,
            match (old(self).momentum, final(self).momentum) {
                (None, None) => true,
                (Some(before), Some(after)) => {
                    &&& map_fn.ensures((before.moment_1,), after.moment_1)
                    &&& map_fn.ensures((before.moment_2,), after.moment_2)
                    &&& after.time == before.time
                },
                _ => false,
            },
    {
        let momentum = self.momentum.take();
        self.momentum = match momentum {
            Some(moment) => {
                let moment_1 = map_fn(moment.moment_1);
                let moment_2 = map_fn(moment.moment_2);
                Some(MomentumState { moment_1, moment_2, time: moment.time })
            },
            None => None,
        };
    }

    /// The moments, if there are any yet, belong to a parameter of this shape.
    pub open spec fn momentum_fits(&self, dims: Seq<usize>) -> bool {
        self.momentum matches Some(m) ==> m.fits(dims, self.reduce_moment_2)
    }

    /// How many steps have been taken.
    pub open spec fn steps(&self) -> nat {
        match self.momentum {
            Some(m) => m.time as nat,
            None => 0,
        }
    }
}

/// The shape of what the second moment is made of, for a gradient of this
/// shape.
pub open spec fn sample_dims<const D: usize>(dims: Seq<usize>, reduced: bool) -> Seq<usize> {
    if reduced && D > 1 {
        per_row(dims)
    } else {
        dims
    }
}

/// The shape of a moment after a sample of this shape.
pub open spec fn moment_dims(before: Option<Tensor>, sample: Seq<usize>) -> Seq<usize> {
    match before {
        Some(moment) => joint(moment.dims@, sample),
        None => sample,
    }
}

/// The first moment, if there is one yet.
pub open spec fn first_of<const D: usize>(momentum: Option<MomentumState<D>>) -> Option<Tensor> {
    match momentum {
        Some(m) => Some(m.moment_1),
        None => None,
    }
}

/// The second moment, if there is one yet.
pub open spec fn second_of<const D: usize>(momentum: Option<MomentumState<D>>) -> Option<Tensor> {
    match momentum {
        Some(m) => Some(m.moment_2),
        None => None,
    }
}

/// The shape of the direction that a gradient of this shape leads to.
pub open spec fn direction_dims<const D: usize>(
    dims: Seq<usize>,
    momentum: Option<MomentumState<D>>,
    reduced: bool,
) -> Seq<usize> {
    joint(
        moment_dims(first_of(momentum), dims),
        moment_dims(second_of(momentum), sample_dims::<D>(dims, reduced)),
    )
}

/// The shape of what a gradient of this shape takes off the parameter.
pub open spec fn delta_dims<const D: usize>(dims: Seq<usize>, state: AdamState<D>) -> Seq<usize> {
    let direction = direction_dims(dims, state.momentum, state.reduce_moment_2);
    match state.scaling {
        Some(scale) => joint(direction, scale.dims@),
        None => direction,
    }
}

/// A parameter keeps its shape over any number of steps: moments that belong
/// to it take in its gradients, and what is taken off has its shape, whether
/// or not the second moment is reduced, and with a learning rate for each
/// number or for the components of each row alike.
pub proof fn law_steps_keep_the_shape<const D: usize>(grad: &Tensor, state: AdamState<D>)
    requires
        grad.wf(),
        grad.dims@.len() == D,
        state.reduce_moment_2 && D > 1 ==> countable(grad.dims@),
        state.momentum_fits(grad.dims@),
        state.steps() < usize::MAX,
        state.scaling matches Some(scale) ==> compatible(grad.dims@, scale.dims@) && joint(grad.dims@, scale.dims@)
            == grad.dims@,
    ensures
        takes(grad, state.momentum, state.reduce_moment_2),
        direction_dims(grad.dims@, state.momentum, state.reduce_moment_2) == grad.dims@,
        delta_dims(grad.dims@, state) == grad.dims@,
        compatible(grad.dims@, delta_dims(grad.dims@, state)),
        joint(grad.dims@, delta_dims(grad.dims@, state)) == grad.dims@,
{
    law_one_per_row_spreads_back(grad.dims@);
    law_same_shapes_combine(grad.dims@);
    law_same_shapes_combine(per_row(grad.dims@));
}

/// Whether a gradient can be taken in: its rows can be counted where that is
/// called for, and it can be combined with the moments, if there are any yet.
pub open spec fn takes<const D: usize>(
    grad: &Tensor,
    momentum: Option<MomentumState<D>>,
    reduced: bool,
) -> bool {
    let dims = grad.dims@;
    &&& grad.wf() && dims.len() == D
    &&& reduced && D > 1 ==> countable(dims)
    &&& momentum matches Some(m) ==> {
        &&& m.wf()
        &&& m.time < usize::MAX
        &&& compatible(m.moment_1.dims@, dims)
        &&& compatible(m.moment_2.dims@, sample_dims::<D>(dims, reduced))
        &&& compatible(joint(m.moment_1.dims@, dims), joint(m.moment_2.dims@, sample_dims::<D>(dims, reduced)))
    }
}

/// Whether `mean` may be the mean of each row of `values`, one long along each
/// trailing dimension.
pub open spec fn averaged<M: AdamMath>(math: &M, values: Tensor, mean: Tensor) -> bool {
    exists|flat: Matrix, sums: Vec<u32>|
        {
            &&& flat.rows == values.dims@[0]
            &&& flat.cols == volume(values.dims@.skip(1))
            &&& flat.cells == values.cells
            &&& #[trigger] call_ensures(M::row_sums, (math, &flat), sums)
            &&& call_ensures(M::shared_out, (math, &sums, flat.cols), mean.cells)
            &&& mean.dims@ == per_row(values.dims@)
        }
}

/// Whether `sample` may be what a gradient adds to the second moment: its
/// square, or the mean of the square over each row.
pub open spec fn sampled<M: AdamMath, const D: usize>(math: &M, grad: Tensor, reduced: bool, sample: Tensor) -> bool {
    exists|square: Tensor|
        #[trigger] call_ensures(M::square, (math, &grad), square) && (if reduced && D > 1 {
            averaged(math, square, sample)
        } else {
            sample == square
        })
}

/// Whether `after` may be what a sample makes of a moment: `beta` times the
/// moment plus `1 - beta` times the sample, or, for the first sample, the
/// second term alone.
pub open spec fn moved<M: AdamMath>(math: &M, beta: u32, before: Option<Tensor>, sample: Tensor, after: Tensor) -> bool {
    exists|factor: u32|
        #[trigger] call_ensures(M::one_minus, (math, beta), factor) && match before {
            Some(moment) => exists|kept: Tensor, added: Tensor|
                {
                    &&& #[trigger] call_ensures(M::times, (math, &moment, beta), kept)
                    &&& #[trigger] call_ensures(M::times, (math, &sample, factor), added)
                    &&& call_ensures(M::plus, (math, &kept, &added), after)
                },
            None => call_ensures(M::times, (math, &sample, factor), after),
        }
}

/// Whether `corrected` may be a moment freed of its start at zero: divided by
/// `1 - beta^time`.
pub open spec fn unbiased<M: AdamMath>(math: &M, beta: u32, moment: Tensor, time: usize, corrected: Tensor) -> bool {
    exists|power: u32, rest: u32|
        {
            &&& #[trigger] call_ensures(M::power, (math, beta, time as i32), power)
            &&& #[trigger] call_ensures(M::one_minus, (math, power), rest)
            &&& call_ensures(M::divided, (math, &moment, rest), corrected)
        }
}

/// Whether `delta` may be the direction at the learning rate: each component
/// at its own multiple of it, where there are such.
pub open spec fn at_rate<M: AdamMath>(
    math: &M,
    lr: u64,
    scaling: Option<Tensor>,
    direction: Tensor,
    delta: Tensor,
) -> bool {
    match scaling {
        Some(scale) => exists|rates: Tensor|
            #[trigger] call_ensures(M::times_rate, (math, &scale, lr), rates) && call_ensures(
                M::product,
                (math, &direction, &rates),
                delta,
            ),
        None => call_ensures(M::times_rate, (math, &direction, lr), delta),
    }
}

/// The optimizer.
#[derive(Clone)]
pub struct AdamScaled {
    pub beta_1: u32,
    pub beta_2: u32,
    pub epsilon: u32,
}

impl AdamScaled {
    /// The optimizer with the given guard against division by zero.
    pub fn new(epsilon: u32) -> (adam: Self)
        ensures
            adam == (AdamScaled { beta_1: BETA_1, beta_2: BETA_2, epsilon }),
    {
        AdamScaled { beta_1: BETA_1, beta_2: BETA_2, epsilon }
    }

    /// Whether `direction` may be where these moments lead: the first,
    /// unbiased, over the root of the second, unbiased, plus epsilon.
    pub open spec fn leads<M: AdamMath, const D: usize>(
        &self,
        math: &M,
        moments: MomentumState<D>,
        direction: Tensor,
    ) -> bool {
        exists|corrected_1: Tensor, corrected_2: Tensor, root: Tensor, guarded: Tensor|
            {
                &&& #[trigger] unbiased(math, self.beta_1, moments.moment_1, moments.time, corrected_1)
                &&& #[trigger] unbiased(math, self.beta_2, moments.moment_2, moments.time, corrected_2)
                &&& #[trigger] call_ensures(M::root, (math, &corrected_2), root)
                &&& #[trigger] call_ensures(M::plus_scalar, (math, &root, self.epsilon), guarded)
                &&& call_ensures(M::quotient, (math, &corrected_1, &guarded), direction)
            }
    }

    /// Whether a gradient may make the moments `after` of those `before`.
    pub open spec fn updates<M: AdamMath, const D: usize>(
        &self,
        math: &M,
        grad: Tensor,
        before: Option<MomentumState<D>>,
        reduced: bool,
        after: MomentumState<D>,
    ) -> bool {
        &&& after.time == (match before {
            Some(m) => m.time + 1,
            None => 1,
        })
        &&& moved(math, self.beta_1, first_of(before), grad, after.moment_1)
        &&& exists|sample: Tensor|
            #[trigger] sampled::<M, D>(math, grad, reduced, sample) && moved(
                math,
                self.beta_2,
                second_of(before),
                sample,
                after.moment_2,
            )
    }

    /// One step for a single parameter: the parameter less the direction at
    /// the learning rate. The state is updated in place.
    pub fn step<M: AdamMath, const D: usize>(
        &self,
        lr: u64,
        tensor: Tensor,
        grad: &Tensor,
        state: &mut AdamState<D>,
        math: &M,
    ) -> (result: Tensor)
        requires
            keeps_dims(math),
            takes(grad, old(state).momentum, old(state).reduce_moment_2),
            tensor.wf(),
            old(state).scaling matches Some(scale) ==> scale.wf() && compatible(
                direction_dims(grad.dims@, old(state).momentum, old(state).reduce_moment_2),
                scale.dims@,
            ),
            compatible(tensor.dims@, delta_dims(grad.dims@, *old(state))),
        ensures
            result.wf(),
            result.dims@ == joint(tensor.dims@, delta_dims(grad.dims@, *old(state))),
            final(state).scaling == old(state).scaling,
            final(state).reduce_moment_2 == old(state).reduce_moment_2,
            final(state).steps() == old(state).steps() + 1,
            final(state).momentum matches Some(after) && {
                &&& after.wf()
                &&& self.updates(math, *grad, old(state).momentum, old(state).reduce_moment_2, after)
                &&& exists|direction: Tensor, delta: Tensor|
                    {
                        &&& #[trigger] self.leads(math, after, direction)
                        &&& #[trigger] at_rate(math, lr, old(state).scaling, direction, delta)
                        &&& call_ensures(M::minus, (math, &tensor, &delta), result)
                    }
            },
            old(state).momentum_fits(grad.dims@) ==> final(state).momentum_fits(grad.dims@),
    {
        let momentum = state.momentum.take();
        let (direction, after) = self.transform(grad, momentum, state.reduce_moment_2, math);
        state.momentum = Some(after);
        let delta = match &state.scaling {
            Some(scale) => {
                let rates = math.times_rate(scale, lr);
                math.product(&direction, &rates)
            },
            None => math.times_rate(&direction, lr),
        };
        proof {
            assert(at_rate(math, lr, old(state).scaling, direction, delta));
            assert(self.leads(math, state.momentum->Some_0, direction));
        }
        math.minus(&tensor, &delta)
    }

    /// The direction that a gradient leads to, and the moments after it.
    pub fn transform<M: AdamMath, const D: usize>(
        &self,
        grad: &Tensor,
        momentum_state: Option<MomentumState<D>>,
        reduce_moment_2: bool,
        math: &M,
    ) -> (result: (Tensor, MomentumState<D>))
        requires
            keeps_dims(math),
            takes(grad, momentum_state, reduce_moment_2),
        ensures
            result.0.wf(),
            result.0.dims@ == direction_dims(grad.dims@, momentum_state, reduce_moment_2),
            result.1.wf(),
            self.updates(math, *grad, momentum_state, reduce_moment_2, result.1),
            self.leads(math, result.1, result.0),
            momentum_state matches Some(m) && m.fits(grad.dims@, reduce_moment_2) || momentum_state is None
                ==> result.1.fits(grad.dims@, reduce_moment_2),
    {
        proof {
            law_one_per_row_spreads_back(grad.dims@);
            law_same_shapes_combine(grad.dims@);
            law_same_shapes_combine(per_row(grad.dims@));
        }
        let grad_sq = math.square(grad);
        let sample = if reduce_moment_2 && D > 1 {
            mean_trailing_dims(grad_sq, math)
        } else {
            grad_sq
        };
        proof {
            assert(sampled::<M, D>(math, *grad, reduce_moment_2, sample));
        }
        let factor_1: u32 = math.one_minus(self.beta_1);
        let factor_2: u32 = math.one_minus(self.beta_2);
        let state = match momentum_state {
            Some(state) => {
                let kept = math.times(&state.moment_1, self.beta_1);
                let added = math.times(grad, factor_1);
                let moment_1 = math.plus(&kept, &added);
                let kept = math.times(&state.moment_2, self.beta_2);
                let added = math.times(&sample, factor_2);
                let moment_2 = math.plus(&kept, &added);
                MomentumState { moment_1, moment_2, time: state.time + 1 }
            },
            None => MomentumState {
                moment_1: math.times(grad, factor_1),
                moment_2: math.times(&sample, factor_2),
                time: 1,
            },
        };
        proof {
            assert(moved(math, self.beta_1, first_of(momentum_state), *grad, state.moment_1));
            assert(moved(math, self.beta_2, second_of(momentum_state), sample, state.moment_2));
        }

        let time: i32 = state.time as i32;
        let power_1: u32 = math.power(self.beta_1, time);
        let rest_1: u32 = math.one_minus(power_1);
        let corrected_1 = math.divided(&state.moment_1, rest_1);
        let power_2: u32 = math.power(self.beta_2, time);
        let rest_2: u32 = math.one_minus(power_2);
        let corrected_2 = math.divided(&state.moment_2, rest_2);
        proof {
            assert(unbiased(math, self.beta_1, state.moment_1, state.time, corrected_1));
            assert(unbiased(math, self.beta_2, state.moment_2, state.time, corrected_2));
        }
        let root = math.root(&corrected_2);
        let guarded = math.plus_scalar(&root, self.epsilon);
        let direction = math.quotient(&corrected_1, &guarded);
        (direction, state)
    }
}

/// The mean of each row over all trailing dimensions, one long along each of
/// them so that it can be combined with the full shape.
pub fn mean_trailing_dims<M: AdamMath>(t: Tensor, math: &M) -> (mean: Tensor)
    requires
        keeps_dims(math),
        t.wf(),
        t.dims@.len() > 1,
        countable(t.dims@),
    ensures
        mean.wf(),
        mean.dims@ == per_row(t.dims@),
        averaged(math, t, mean),
{
    let dims = t.dims.clone();
    assert(dims@ == t.dims@);
    let flat = t.flattened();
    let sums = math.row_sums(&flat);
    let means = math.shared_out(&sums, flat.cols);
    Tensor::one_per_row(means, &dims)
}

} // verus!
