//! Arrays of numbers with any number of dimensions. A number is held as the
//! bit pattern of its single-precision float; nothing here computes with it.

use crate::matrix::Matrix;
use vstd::arithmetic::mul::*;
use vstd::prelude::*;

verus! {

/// How many numbers an array of these dimensions holds.
pub open spec fn volume(dims: Seq<usize>) -> nat
    decreases dims.len(),
{
    if dims.len() == 0 {
        1
    } else {
        dims[0] as nat * volume(dims.skip(1))
    }
}

/// Whether the numbers of a row can be counted, one trailing dimension after
/// the other.
pub open spec fn countable(dims: Seq<usize>) -> bool {
    forall|i: int| 1 <= i <= dims.len() ==> #[trigger] volume(dims.subrange(1, i)) <= usize::MAX
}

/// One more dimension multiplies the volume by its length.
proof fn lemma_volume_of_longer(dims: Seq<usize>, last: usize)
    ensures
        volume(dims.push(last)) == volume(dims) * last,
    decreases dims.len(),
{
    if dims.len() == 0 {
        assert(volume(dims.push(last).skip(1)) == 1 && volume(dims) == 1);
        assert(volume(dims.push(last)) == last * 1);
        assert(1 * last == last);
    } else {
        lemma_volume_of_longer(dims.skip(1), last);
        assert(dims.push(last).skip(1) == dims.skip(1).push(last));
        assert(volume(dims.push(last)) == dims[0] * volume(dims.skip(1).push(last)));
        assert(volume(dims) == dims[0] * volume(dims.skip(1)));
        lemma_mul_is_associative(dims[0] as int, volume(dims.skip(1)) as int, last as int);
    }
}

/// Whether two arrays can be combined number by number: along each dimension
/// they are as long, or one is repeated.
pub open spec fn compatible(a: Seq<usize>, b: Seq<usize>) -> bool {
    &&& a.len() == b.len()
    &&& forall|i: int| 0 <= i < a.len() ==> #[trigger] a[i] == #[trigger] b[i] || a[i] == 1 || b[i] == 1
}

/// The dimensions of two arrays combined number by number.
pub open spec fn joint(a: Seq<usize>, b: Seq<usize>) -> Seq<usize> {
    Seq::new(
        a.len(),
        |i: int|
            if a[i] == 1 {
                b[i]
            } else {
                a[i]
            },
    )
}

/// The dimensions of an array that holds one number per row.
pub open spec fn per_row(dims: Seq<usize>) -> Seq<usize> {
    Seq::new(
        dims.len(),
        |i: int|
            if i == 0 {
                dims[0]
            } else {
                1
            },
    )
}

/// One number per row can be combined with every number of the row: repeated
/// along the trailing dimensions, it gives back the full shape.
pub proof fn law_one_per_row_spreads_back(dims: Seq<usize>)
    ensures
        compatible(dims, per_row(dims)),
        joint(dims, per_row(dims)) == dims,
{
}

/// An array combined with another of its shape keeps the shape.
pub proof fn law_same_shapes_combine(dims: Seq<usize>)
    ensures
        compatible(dims, dims),
        joint(dims, dims) == dims,
{
}

/// An array with one number per row holds as many numbers as there are rows.
pub proof fn law_one_per_row_counts_the_rows(dims: Seq<usize>)
    requires
        dims.len() > 0,
    ensures
        volume(per_row(dims)) == dims[0],
{
    lemma_ones_hold_one(per_row(dims).skip(1));
}

/// An array that is one long along each dimension holds one number.
pub proof fn lemma_ones_hold_one(dims: Seq<usize>)
    requires
        forall|i: int| 0 <= i < dims.len() ==> dims[i] == 1,
    ensures
        volume(dims) == 1,
    decreases dims.len(),
{
    if dims.len() > 0 {
        lemma_ones_hold_one(dims.skip(1));
    }
}

/// An array, its last dimension running fastest.
#[derive(Clone, Debug)]
pub struct Tensor {
    pub dims: Vec<usize>,
    pub cells: Vec<u32>,
}

impl Tensor {
    /// The cells fill the dimensions.
    pub open spec fn wf(&self) -> bool {
        self.cells@.len() == volume(self.dims@)
    }

    /// How many numbers stand in a row.
    pub fn trailing_count(&self) -> (count: usize)
        requires
            self.dims@.len() > 0,
            countable(self.dims@),
        ensures
            count == volume(self.dims@.skip(1)),
    {
        let mut count: usize = 1;
        let mut i: usize = 1;
        while i < self.dims.len()
            invariant
                1 <= i <= self.dims@.len(),
                countable(self.dims@),
                count == volume(self.dims@.subrange(1, i as int)),
            decreases self.dims@.len() - i,
        {
            proof {
                let before = self.dims@.subrange(1, i as int);
                assert(self.dims@.subrange(1, i + 1) == before.push(self.dims@[i as int]));
                lemma_volume_of_longer(before, self.dims@[i as int]);
            }
            count = count * self.dims[i];
            i += 1;
        }
        proof {
            assert(self.dims@.subrange(1, i as int) == self.dims@.skip(1));
        }
        count
    }

    /// The array as a table with a row for each step along the first
    /// dimension.
    pub fn flattened(self) -> (table: Matrix)
        requires
            self.wf(),
            self.dims@.len() > 0,
            countable(self.dims@),
        ensures
            table.wf(),
            table.rows == self.dims@[0],
            table.cols == volume(self.dims@.skip(1)),
            table.cells == self.cells,
    {
        let cols: usize = self.trailing_count();
        Matrix { rows: self.dims[0], cols, cells: self.cells }
    }

    /// An array with one number per row, as many dimensions as `dims` has.
    pub fn one_per_row(cells: Vec<u32>, dims: &Vec<usize>) -> (tensor: Self)
        requires
            dims@.len() > 0,
            cells@.len() == dims@[0],
        ensures
            tensor.wf(),
            tensor.dims@ == per_row(dims@),
            tensor.cells == cells,
    {
        let mut target: Vec<usize> = Vec::new();
        target.push(dims[0]);
        let mut i: usize = 1;
        while i < dims.len()
            invariant
                1 <= i <= dims@.len(),
                target@ == per_row(dims@).take(i as int),
            decreases dims@.len() - i,
        {
            target.push(1);
            proof {
                assert(target@ == per_row(dims@).take(i + 1));
            }
            i += 1;
        }
        proof {
            assert(target@ == per_row(dims@));
            law_one_per_row_counts_the_rows(dims@);
        }
        Tensor { dims: target, cells }
    }
}

/// A row of one dimension more holds as many times the numbers as that
/// dimension is long, and a row of no dimension holds one; a full array holds
/// a row for each step along its first dimension.
pub proof fn law_each_dimension_multiplies_the_row(
    tensor: Tensor,
    count: usize,
    longer: Tensor,
    longer_count: usize,
    last: usize,
)
    requires
        tensor.dims@.len() > 0,
        countable(tensor.dims@),
        countable(longer.dims@),
        longer.dims@ == tensor.dims@.push(last),
        call_ensures(Tensor::trailing_count, (&tensor,), count),
        call_ensures(Tensor::trailing_count, (&longer,), longer_count),
    ensures
        tensor.dims@.len() == 1 ==> count == 1,
        longer_count == count * last,
        tensor.wf() ==> tensor.cells@.len() == tensor.dims@[0] * count,
{
    lemma_volume_of_longer(tensor.dims@.skip(1), last);
    assert(longer.dims@.skip(1) == tensor.dims@.skip(1).push(last));
}

/// Flattening an array keeps its cells in their order, and what has one number
/// per row has them along the first dimension and is one long along the others.
pub proof fn law_flattening_keeps_the_cells(tensor: Tensor, table: Matrix, means: Vec<u32>, dims: Vec<usize>, rows: Tensor)
    requires
        tensor.wf(),
        tensor.dims@.len() > 0,
        countable(tensor.dims@),
        call_ensures(Tensor::flattened, (tensor,), table),
        dims@.len() > 0,
        means@.len() == dims@[0],
        call_ensures(Tensor::one_per_row, (means, &dims), rows),
    ensures
        table.cells == tensor.cells,
        table.rows == tensor.dims@[0],
        table.rows * table.cols == tensor.cells@.len(),
        rows.cells == means,
        rows.dims@.len() == dims@.len(),
        rows.dims@[0] == dims@[0],
        forall|i: int| 1 <= i < dims@.len() ==> rows.dims@[i] == 1,
{
}

} // verus!
