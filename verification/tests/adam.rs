use brush::adam_scaled::{mean_trailing_dims, AdamMath, AdamScaled, AdamState};
use brush::matrix::Matrix;
use brush::tensor::Tensor;

fn bits(values: &[f32]) -> Vec<u32> {
    values.iter().map(|x| x.to_bits()).collect()
}

fn floats(cells: &[u32]) -> Vec<f32> {
    cells.iter().map(|x| f32::from_bits(*x)).collect()
}

fn array(dims: &[usize], values: &[f32]) -> Tensor {
    Tensor {
        dims: dims.to_vec(),
        cells: bits(values),
    }
}

/// Computes on the numbers one by one.
struct OneByOne;

fn each(values: &Tensor, f: impl Fn(f32) -> f32) -> Tensor {
    Tensor {
        dims: values.dims.clone(),
        cells: values
            .cells
            .iter()
            .map(|x| f(f32::from_bits(*x)).to_bits())
            .collect(),
    }
}

/// The cell of an array at a place of a larger one, where it is repeated.
fn cell(t: &Tensor, place: &[usize]) -> f32 {
    let mut at = 0;
    for (i, n) in t.dims.iter().enumerate() {
        at = at * n + if *n == 1 { 0 } else { place[i] };
    }
    f32::from_bits(t.cells[at])
}

fn both(a: &Tensor, b: &Tensor, f: impl Fn(f32, f32) -> f32) -> Tensor {
    assert_eq!(a.dims.len(), b.dims.len());
    let dims: Vec<usize> = (0..a.dims.len())
        .map(|i| {
            assert!(a.dims[i] == b.dims[i] || a.dims[i] == 1 || b.dims[i] == 1);
            if a.dims[i] == 1 {
                b.dims[i]
            } else {
                a.dims[i]
            }
        })
        .collect();
    let count: usize = dims.iter().product();
    let cells = (0..count)
        .map(|flat| {
            let mut rest = flat;
            let mut place = vec![0; dims.len()];
            for i in (0..dims.len()).rev() {
                place[i] = rest % dims[i];
                rest /= dims[i];
            }
            f(cell(a, &place), cell(b, &place)).to_bits()
        })
        .collect();
    Tensor { dims, cells }
}

impl AdamMath for OneByOne {
    fn square(&self, values: &Tensor) -> Tensor {
        each(values, |x| x * x)
    }
    fn row_sums(&self, values: &Matrix) -> Vec<u32> {
        (0..values.rows)
            .map(|i| {
                let row = &values.cells[i * values.cols..(i + 1) * values.cols];
                floats(row).iter().sum::<f32>().to_bits()
            })
            .collect()
    }
    fn shared_out(&self, values: &Vec<u32>, count: usize) -> Vec<u32> {
        bits(
            &floats(values)
                .iter()
                .map(|x| x / count as f32)
                .collect::<Vec<f32>>(),
        )
    }
    fn times(&self, values: &Tensor, factor: u32) -> Tensor {
        each(values, |x| x * f32::from_bits(factor))
    }
    fn times_rate(&self, values: &Tensor, lr: u64) -> Tensor {
        each(values, |x| x * f64::from_bits(lr) as f32)
    }
    fn divided(&self, values: &Tensor, divisor: u32) -> Tensor {
        each(values, |x| x / f32::from_bits(divisor))
    }
    fn plus_scalar(&self, values: &Tensor, offset: u32) -> Tensor {
        each(values, |x| x + f32::from_bits(offset))
    }
    fn root(&self, values: &Tensor) -> Tensor {
        each(values, |x| x.sqrt())
    }
    fn plus(&self, values: &Tensor, others: &Tensor) -> Tensor {
        both(values, others, |x, y| x + y)
    }
    fn minus(&self, values: &Tensor, others: &Tensor) -> Tensor {
        both(values, others, |x, y| x - y)
    }
    fn product(&self, values: &Tensor, others: &Tensor) -> Tensor {
        both(values, others, |x, y| x * y)
    }
    fn quotient(&self, values: &Tensor, others: &Tensor) -> Tensor {
        both(values, others, |x, y| x / y)
    }
    fn one_minus(&self, value: u32) -> u32 {
        (1.0 - f32::from_bits(value)).to_bits()
    }
    fn power(&self, value: u32, exponent: i32) -> u32 {
        f32::from_bits(value).powi(exponent).to_bits()
    }
}

fn close(actual: &[u32], expected: &[f32]) {
    let actual = floats(actual);
    assert_eq!(actual.len(), expected.len());
    for (a, e) in actual.iter().zip(expected) {
        assert!((a - e).abs() <= 1e-4 * e.abs().max(1e-3), "{a} for {e}");
    }
}

const EPSILON: f32 = 1e-15;

#[test]
fn decay_rates_are_the_usual_ones() {
    let adam = AdamScaled::new(EPSILON.to_bits());
    assert_eq!(adam.beta_1, 0.9_f32.to_bits());
    assert_eq!(adam.beta_2, 0.999_f32.to_bits());
    assert_eq!(adam.epsilon, EPSILON.to_bits());
}

#[test]
fn the_first_step_goes_by_the_learning_rate() {
    let adam = AdamScaled::new(EPSILON.to_bits());
    let mut state: AdamState<1> = AdamState::new(None, false);
    assert!(state.momentum.is_none());
    let param = array(&[3], &[1.0, 2.0, 3.0]);
    let grad = array(&[3], &[0.5, -4.0, 100.0]);
    let moved = adam.step(0.1_f64.to_bits(), param, &grad, &mut state, &OneByOne);
    close(&moved.cells, &[0.9, 2.1, 2.9]);
    let momentum = state.momentum.unwrap();
    assert_eq!(momentum.time, 1);
    close(&momentum.moment_1.cells, &[0.05, -0.4, 10.0]);
    close(&momentum.moment_2.cells, &[0.00025, 0.016, 10.0]);
}

#[test]
fn steps_are_counted_and_moments_blended() {
    let adam = AdamScaled::new(EPSILON.to_bits());
    let mut state: AdamState<1> = AdamState::new(None, false);
    let lr = 1.0_f64.to_bits();
    let first = adam.step(lr, array(&[1], &[0.0]), &array(&[1], &[1.0]), &mut state, &OneByOne);
    let second = adam.step(lr, first, &array(&[1], &[3.0]), &mut state, &OneByOne);
    let momentum = state.momentum.clone().unwrap();
    assert_eq!(momentum.time, 2);
    close(&momentum.moment_1.cells, &[0.9 * 0.1 + 0.1 * 3.0]);
    close(&momentum.moment_2.cells, &[0.999 * 0.001 + 0.001 * 9.0]);
    let m = (0.9 * 0.1 + 0.1 * 3.0) / (1.0 - 0.81);
    let v: f32 = (0.999 * 0.001 + 0.001 * 9.0) / (1.0 - 0.998001);
    close(&second.cells, &[-1.0 - m / v.sqrt()]);
}

#[test]
fn components_have_rates_of_their_own() {
    let adam = AdamScaled::new(EPSILON.to_bits());
    let scaling = Some(array(&[1, 2], &[1.0, 10.0]));
    let mut state: AdamState<2> = AdamState::new(scaling, false);
    let param = array(&[2, 2], &[0.0; 4]);
    let grad = array(&[2, 2], &[1.0, 1.0, -1.0, -1.0]);
    let moved = adam.step(0.01_f64.to_bits(), param, &grad, &mut state, &OneByOne);
    assert_eq!(moved.dims, [2, 2]);
    close(&moved.cells, &[-0.01, -0.1, 0.01, 0.1]);
    assert!(state.scaling.is_some());
}

#[test]
fn a_reduced_second_moment_is_one_number_per_row() {
    let adam = AdamScaled::new(EPSILON.to_bits());
    let mut state: AdamState<3> = AdamState::new(None, true);
    let param = array(&[2, 2, 2], &[0.0; 8]);
    let grad = array(&[2, 2, 2], &[1.0, 1.0, 1.0, 1.0, 2.0, 0.0, 0.0, 0.0]);
    let moved = adam.step(1.0_f64.to_bits(), param, &grad, &mut state, &OneByOne);
    assert_eq!(moved.dims, [2, 2, 2]);
    close(&moved.cells, &[-1.0, -1.0, -1.0, -1.0, -2.0, 0.0, 0.0, 0.0]);
    let momentum = state.momentum.clone().unwrap();
    assert_eq!(momentum.moment_1.dims, [2, 2, 2]);
    assert_eq!(momentum.moment_2.dims, [2, 1, 1]);
    close(&momentum.moment_2.cells, &[0.001, 0.001]);
    let again = adam.step(1.0_f64.to_bits(), moved, &grad, &mut state, &OneByOne);
    assert_eq!(again.dims, [2, 2, 2]);
    assert_eq!(state.momentum.unwrap().moment_2.dims, [2, 1, 1]);
}

#[test]
fn a_single_dimension_is_not_reduced() {
    let adam = AdamScaled::new(EPSILON.to_bits());
    let mut state: AdamState<1> = AdamState::new(None, true);
    let grad = array(&[2], &[1.0, 2.0]);
    adam.step(1.0_f64.to_bits(), array(&[2], &[0.0; 2]), &grad, &mut state, &OneByOne);
    close(&state.momentum.unwrap().moment_2.cells, &[0.001, 0.004]);
}

#[test]
fn means_are_taken_over_all_trailing_dimensions() {
    let values = array(&[2, 1, 3], &[1.0, 2.0, 3.0, 4.0, 5.0, 9.0]);
    assert_eq!(values.trailing_count(), 3);
    let mean = mean_trailing_dims(values, &OneByOne);
    assert_eq!(mean.dims, [2, 1, 1]);
    close(&mean.cells, &[2.0, 6.0]);
}

#[test]
fn both_moments_are_mapped() {
    let mut state: AdamState<1> = AdamState::new(None, false);
    state.map_momentum(|_| panic!("there is nothing to map yet"));
    assert!(state.momentum.is_none());

    let adam = AdamScaled::new(EPSILON.to_bits());
    let grad = array(&[2], &[1.0, 2.0]);
    adam.step(1.0_f64.to_bits(), array(&[2], &[0.0; 2]), &grad, &mut state, &OneByOne);
    state.map_momentum(|t| each(&t, |x| x * 2.0));
    let momentum = state.momentum.unwrap();
    assert_eq!(momentum.time, 1);
    close(&momentum.moment_1.cells, &[0.2, 0.4]);
    close(&momentum.moment_2.cells, &[0.002, 0.008]);
}
