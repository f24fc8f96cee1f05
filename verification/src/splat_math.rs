//! Arithmetic on the numbers of splats, a table or a list at a time. The
//! numbers are held as bit patterns of single-precision floats, and what
//! computes on them is handed in by the caller. Nothing is taken for granted
//! about what it gives; the contracts say which computations a result comes
//! from, of what, and in which order.

use crate::matrix::{Matrix, Table};
use vstd::prelude::*;

verus! {

/// Whether lists of these lengths can be combined number by number: they are
/// as long, or one of them is a single number that is repeated.
pub open spec fn repeatable(a: nat, b: nat) -> bool {
    a == b || a == 1 || b == 1
}

/// How many numbers two lists make when they are combined.
pub open spec fn joint_len(a: nat, b: nat) -> nat {
    if a == 1 {
        b
    } else {
        a
    }
}

/// Arithmetic on tables and lists of numbers.
pub trait SplatMath {
    /// Each number multiplied by the factor.
    fn times(&self, values: &Matrix, factor: u32) -> (result: Matrix)
        requires
            values.wf(),
    ;

    /// The offset added to each number.
    fn plus(&self, values: &Matrix, offset: u32) -> (result: Matrix)
        requires
            values.wf(),
    ;

    /// The exponential of each number.
    fn exp(&self, values: &Matrix) -> (result: Matrix)
        requires
            values.wf(),
    ;

    /// The natural logarithm of each number.
    fn log(&self, values: &Matrix) -> (result: Matrix)
        requires
            values.wf(),
    ;

    /// The number of its row added to each number.
    fn plus_per_row(&self, values: &Matrix, offsets: &Vec<u32>) -> (result: Matrix)
        requires
            values.wf(),
            offsets@.len() == values.rows,
    ;

    /// One table less another, number by number.
    fn minus(&self, values: &Matrix, others: &Matrix) -> (result: Matrix)
        requires
            values.wf(),
            others.wf(),
            others.rows == values.rows,
            others.cols == values.cols,
    ;

    /// The sum of each row.
    fn row_sums(&self, values: &Matrix) -> (result: Vec<u32>)
        requires
            values.wf(),
    ;

    /// Each number of a list multiplied by the factor.
    fn times_each(&self, values: &Vec<u32>, factor: u32) -> (result: Vec<u32>);

    /// The offset added to each number of a list.
    fn plus_each(&self, values: &Vec<u32>, offset: u32) -> (result: Vec<u32>);

    /// The exponential of each number of a list.
    fn exp_each(&self, values: &Vec<u32>) -> (result: Vec<u32>);

    /// The natural logarithm of each number of a list.
    fn log_each(&self, values: &Vec<u32>) -> (result: Vec<u32>);

    /// Each number of a list, negated.
    fn negated(&self, values: &Vec<u32>) -> (result: Vec<u32>);

    /// The logistic function of each number of a list.
    fn sigmoid(&self, values: &Vec<u32>) -> (result: Vec<u32>);

    /// Each number of a list, brought within the bounds.
    fn clamped(&self, values: &Vec<u32>, min: u32, max: u32) -> (result: Vec<u32>);

    /// Two lists multiplied, number by number.
    fn product(&self, values: &Vec<u32>, others: &Vec<u32>) -> (result: Vec<u32>)
        requires
            repeatable(values@.len(), others@.len()),
    ;

    /// One list divided by another, number by number.
    fn quotient(&self, values: &Vec<u32>, others: &Vec<u32>) -> (result: Vec<u32>)
        requires
            repeatable(values@.len(), others@.len()),
    ;

    /// The natural logarithm of one number.
    fn ln(&self, value: u32) -> (result: u32);
}

/// Whether the second table is full and has the shape of the first.
pub open spec fn same_shape(x: &Matrix, y: &Matrix) -> bool {
    y.wf() && y.rows == x.rows && y.cols == x.cols
}

/// Whether each computation on a table keeps its shape, the sums of rows are
/// as many as the rows, each computation on one list keeps its length, and
/// those on two give their joint length.
pub open spec fn keeps_shapes<M: SplatMath>(math: &M) -> bool {
    &&& forall|x: Matrix, factor: u32, y: Matrix|
        x.wf() && #[trigger] call_ensures(M::times, (math, &x, factor), y) ==> same_shape(&x, &y)
    &&& forall|x: Matrix, offset: u32, y: Matrix|
        x.wf() && #[trigger] call_ensures(M::plus, (math, &x, offset), y) ==> same_shape(&x, &y)
    &&& forall|x: Matrix, y: Matrix|
        x.wf() && #[trigger] call_ensures(M::exp, (math, &x), y) ==> same_shape(&x, &y)
    &&& forall|x: Matrix, y: Matrix|
        x.wf() && #[trigger] call_ensures(M::log, (math, &x), y) ==> same_shape(&x, &y)
    &&& forall|x: Matrix, o: Vec<u32>, y: Matrix|
        x.wf() && #[trigger] call_ensures(M::plus_per_row, (math, &x, &o), y) ==> same_shape(&x, &y)
    &&& forall|x: Matrix, o: Matrix, y: Matrix|
        x.wf() && #[trigger] call_ensures(M::minus, (math, &x, &o), y) ==> same_shape(&x, &y)
    &&& forall|x: Matrix, y: Vec<u32>|
        x.wf() && #[trigger] call_ensures(M::row_sums, (math, &x), y) ==> y@.len() == x.rows
    &&& forall|x: Vec<u32>, factor: u32, y: Vec<u32>|
        #[trigger] call_ensures(M::times_each, (math, &x, factor), y) ==> y@.len() == x@.len()
    &&& forall|x: Vec<u32>, offset: u32, y: Vec<u32>|
        #[trigger] call_ensures(M::plus_each, (math, &x, offset), y) ==> y@.len() == x@.len()
    &&& forall|x: Vec<u32>, y: Vec<u32>|
        #[trigger] call_ensures(M::exp_each, (math, &x), y) ==> y@.len() == x@.len()
    &&& forall|x: Vec<u32>, y: Vec<u32>|
        #[trigger] call_ensures(M::log_each, (math, &x), y) ==> y@.len() == x@.len()
    &&& forall|x: Vec<u32>, y: Vec<u32>|
        #[trigger] call_ensures(M::negated, (math, &x), y) ==> y@.len() == x@.len()
    &&& forall|x: Vec<u32>, y: Vec<u32>|
        #[trigger] call_ensures(M::sigmoid, (math, &x), y) ==> y@.len() == x@.len()
    &&& forall|x: Vec<u32>, min: u32, max: u32, y: Vec<u32>|
        #[trigger] call_ensures(M::clamped, (math, &x, min, max), y) ==> y@.len() == x@.len()
    &&& forall|x: Vec<u32>, o: Vec<u32>, y: Vec<u32>|
        repeatable(x@.len(), o@.len()) && #[trigger] call_ensures(M::product, (math, &x, &o), y) ==> y@.len()
            == joint_len(x@.len(), o@.len())
    &&& forall|x: Vec<u32>, o: Vec<u32>, y: Vec<u32>|
        repeatable(x@.len(), o@.len()) && #[trigger] call_ensures(M::quotient, (math, &x, &o), y) ==> y@.len()
            == joint_len(x@.len(), o@.len())
}

/// Whether each computation has one result alone: the same numbers give the
/// same numbers.
pub open spec fn has_one_result<M: SplatMath>(math: &M) -> bool {
    &&& forall|x: Matrix, x2: Matrix, factor: u32, y: Matrix, y2: Matrix|
        x.wf() && x2.wf() && x@ == x2@ && #[trigger] call_ensures(M::times, (math, &x, factor), y) && #[trigger] call_ensures(
            M::times,
            (math, &x2, factor),
            y2,
        ) ==> y@ == y2@
    &&& forall|x: Matrix, x2: Matrix, offset: u32, y: Matrix, y2: Matrix|
        x.wf() && x2.wf() && x@ == x2@ && #[trigger] call_ensures(M::plus, (math, &x, offset), y) && #[trigger] call_ensures(
            M::plus,
            (math, &x2, offset),
            y2,
        ) ==> y@ == y2@
    &&& forall|x: Matrix, x2: Matrix, y: Matrix, y2: Matrix|
        x.wf() && x2.wf() && x@ == x2@ && #[trigger] call_ensures(M::exp, (math, &x), y) && #[trigger] call_ensures(
            M::exp,
            (math, &x2),
            y2,
        ) ==> y@ == y2@
    &&& forall|x: Matrix, x2: Matrix, y: Matrix, y2: Matrix|
        x.wf() && x2.wf() && x@ == x2@ && #[trigger] call_ensures(M::log, (math, &x), y) && #[trigger] call_ensures(
            M::log,
            (math, &x2),
            y2,
        ) ==> y@ == y2@
    &&& forall|x: Matrix, x2: Matrix, o: Vec<u32>, o2: Vec<u32>, y: Matrix, y2: Matrix|
        x.wf() && x2.wf() && x@ == x2@ && o@ == o2@ && #[trigger] call_ensures(M::plus_per_row, (math, &x, &o), y)
            && #[trigger] call_ensures(M::plus_per_row, (math, &x2, &o2), y2) ==> y@ == y2@
    &&& forall|x: Matrix, x2: Matrix, o: Matrix, o2: Matrix, y: Matrix, y2: Matrix|
        x.wf() && x2.wf() && x@ == x2@ && o.wf() && o2.wf() && o@ == o2@ && #[trigger] call_ensures(
            M::minus,
            (math, &x, &o),
            y,
        ) && #[trigger] call_ensures(M::minus, (math, &x2, &o2), y2) ==> y@ == y2@
    &&& forall|x: Matrix, x2: Matrix, y: Vec<u32>, y2: Vec<u32>|
        x.wf() && x2.wf() && x@ == x2@ && #[trigger] call_ensures(M::row_sums, (math, &x), y) && #[trigger] call_ensures(
            M::row_sums,
            (math, &x2),
            y2,
        ) ==> y@ == y2@
    &&& forall|x: Vec<u32>, x2: Vec<u32>, factor: u32, y: Vec<u32>, y2: Vec<u32>|
        x@ == x2@ && #[trigger] call_ensures(M::times_each, (math, &x, factor), y) && #[trigger] call_ensures(
            M::times_each,
            (math, &x2, factor),
            y2,
        ) ==> y@ == y2@
    &&& forall|x: Vec<u32>, x2: Vec<u32>, offset: u32, y: Vec<u32>, y2: Vec<u32>|
        x@ == x2@ && #[trigger] call_ensures(M::plus_each, (math, &x, offset), y) && #[trigger] call_ensures(
            M::plus_each,
            (math, &x2, offset),
            y2,
        ) ==> y@ == y2@
    &&& forall|x: Vec<u32>, x2: Vec<u32>, y: Vec<u32>, y2: Vec<u32>|
        x@ == x2@ && #[trigger] call_ensures(M::exp_each, (math, &x), y) && #[trigger] call_ensures(
            M::exp_each,
            (math, &x2),
            y2,
        ) ==> y@ == y2@
    &&& forall|x: Vec<u32>, x2: Vec<u32>, y: Vec<u32>, y2: Vec<u32>|
        x@ == x2@ && #[trigger] call_ensures(M::log_each, (math, &x), y) && #[trigger] call_ensures(
            M::log_each,
            (math, &x2),
            y2,
        ) ==> y@ == y2@
    &&& forall|x: Vec<u32>, x2: Vec<u32>, y: Vec<u32>, y2: Vec<u32>|
        x@ == x2@ && #[trigger] call_ensures(M::negated, (math, &x), y) && #[trigger] call_ensures(
            M::negated,
            (math, &x2),
            y2,
        ) ==> y@ == y2@
    &&& forall|x: Vec<u32>, x2: Vec<u32>, y: Vec<u32>, y2: Vec<u32>|
        x@ == x2@ && #[trigger] call_ensures(M::sigmoid, (math, &x), y) && #[trigger] call_ensures(
            M::sigmoid,
            (math, &x2),
            y2,
        ) ==> y@ == y2@
    &&& forall|x: Vec<u32>, x2: Vec<u32>, min: u32, max: u32, y: Vec<u32>, y2: Vec<u32>|
        x@ == x2@ && #[trigger] call_ensures(M::clamped, (math, &x, min, max), y) && #[trigger] call_ensures(
            M::clamped,
            (math, &x2, min, max),
            y2,
        ) ==> y@ == y2@
    &&& forall|x: Vec<u32>, x2: Vec<u32>, o: Vec<u32>, o2: Vec<u32>, y: Vec<u32>, y2: Vec<u32>|
        x@ == x2@ && o@ == o2@ && #[trigger] call_ensures(M::product, (math, &x, &o), y) && #[trigger] call_ensures(
            M::product,
            (math, &x2, &o2),
            y2,
        ) ==> y@ == y2@
    &&& forall|x: Vec<u32>, x2: Vec<u32>, o: Vec<u32>, o2: Vec<u32>, y: Vec<u32>, y2: Vec<u32>|
        x@ == x2@ && o@ == o2@ && #[trigger] call_ensures(M::quotient, (math, &x, &o), y) && #[trigger] call_ensures(
            M::quotient,
            (math, &x2, &o2),
            y2,
        ) ==> y@ == y2@
    &&& forall|value: u32, y: u32, y2: u32|
        #[trigger] call_ensures(M::ln, (math, value), y) && #[trigger] call_ensures(M::ln, (math, value), y2) ==> y == y2
}

/// Whether multiplication by the factor may make `output` of `input`.
pub open spec fn multiplied<M: SplatMath>(math: &M, input: Table, factor: u32, output: Table) -> bool {
    exists|x: Matrix, y: Matrix|
        x.wf() && x@ == input && y@ == output && #[trigger] call_ensures(M::times, (math, &x, factor), y)
}

/// Whether adding the offset may make `output` of `input`.
pub open spec fn shifted<M: SplatMath>(math: &M, input: Table, offset: u32, output: Table) -> bool {
    exists|x: Matrix, y: Matrix|
        x.wf() && x@ == input && y@ == output && #[trigger] call_ensures(M::plus, (math, &x, offset), y)
}

/// Whether the exponential may make `output` of `input`.
pub open spec fn exponentiated<M: SplatMath>(math: &M, input: Table, output: Table) -> bool {
    exists|x: Matrix, y: Matrix|
        x.wf() && x@ == input && y@ == output && #[trigger] call_ensures(M::exp, (math, &x), y)
}

/// Whether multiplication by the factor may make the list `output` of `input`.
pub open spec fn multiplied_each<M: SplatMath>(math: &M, input: Seq<u32>, factor: u32, output: Seq<u32>) -> bool {
    exists|x: Vec<u32>, y: Vec<u32>|
        x@ == input && y@ == output && #[trigger] call_ensures(M::times_each, (math, &x, factor), y)
}

/// Whether the logistic function may make `output` of `input`.
pub open spec fn activated<M: SplatMath>(math: &M, input: Seq<u32>, output: Seq<u32>) -> bool {
    exists|x: Vec<u32>, y: Vec<u32>|
        x@ == input && y@ == output && #[trigger] call_ensures(M::sigmoid, (math, &x), y)
}

} // verus!
