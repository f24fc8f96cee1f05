use brush::gaussian_splats::{
    Coefficients, Param, RasterPass, SplatRenderMode, Splats, TextureMode,
};
use brush::matrix::Matrix;
use brush::min_scale::fold_min_scale;
use brush::splat_math::SplatMath;
use brush::validation::{Decimal, GradientCheck, Quantity, ShapeFault, Values};
use burn::module::{Module, ParamId};
use burn::tensor::activation::sigmoid;
use burn::tensor::{Device, TensorData};

type Tensor<const D: usize> = burn::Tensor<D>;

fn bits(values: &[f32]) -> Vec<u32> {
    values.iter().map(|x| x.to_bits()).collect()
}

fn floats(cells: &[u32]) -> Vec<f32> {
    cells.iter().map(|x| f32::from_bits(*x)).collect()
}

fn table(values: &[f32], rows: usize, cols: usize) -> Matrix {
    Matrix::from_cells(bits(values), rows, cols)
}

fn filled(value: f32, rows: usize, cols: usize) -> Matrix {
    table(&vec![value; rows * cols], rows, cols)
}

fn no_colour(rows: usize) -> Coefficients {
    Coefficients {
        per_splat: 1,
        channels: 3,
        cells: filled(0.0, rows, 3),
    }
}

/// Computes on a plain device.
struct OnDevice {
    device: Device,
}

impl OnDevice {
    fn new() -> Self {
        OnDevice {
            device: Device::flex(),
        }
    }

    fn two(&self, m: &Matrix) -> Tensor<2> {
        Tensor::from_data(
            TensorData::new(floats(&m.cells), [m.rows, m.cols]),
            &self.device,
        )
    }

    fn one(&self, v: &Vec<u32>) -> Tensor<1> {
        Tensor::from_data(TensorData::new(floats(v), [v.len()]), &self.device)
    }
}

fn back<const D: usize>(t: Tensor<D>) -> Vec<u32> {
    bits(&t.into_data().try_to_vec::<f32>().unwrap())
}

fn back_table(t: Tensor<2>) -> Matrix {
    let [rows, cols] = t.dims();
    Matrix::from_cells(back(t), rows, cols)
}

impl SplatMath for OnDevice {
    fn times(&self, values: &Matrix, factor: u32) -> Matrix {
        back_table(self.two(values).mul_scalar(f32::from_bits(factor)))
    }
    fn plus(&self, values: &Matrix, offset: u32) -> Matrix {
        back_table(self.two(values).add_scalar(f32::from_bits(offset)))
    }
    fn exp(&self, values: &Matrix) -> Matrix {
        back_table(self.two(values).exp())
    }
    fn log(&self, values: &Matrix) -> Matrix {
        back_table(self.two(values).log())
    }
    fn plus_per_row(&self, values: &Matrix, offsets: &Vec<u32>) -> Matrix {
        let offsets: Tensor<2> = self.one(offsets).reshape([values.rows, 1]);
        back_table(self.two(values).add(offsets))
    }
    fn minus(&self, values: &Matrix, others: &Matrix) -> Matrix {
        back_table(self.two(values).sub(self.two(others)))
    }
    fn row_sums(&self, values: &Matrix) -> Vec<u32> {
        back(self.two(values).sum_dim(1))
    }
    fn times_each(&self, values: &Vec<u32>, factor: u32) -> Vec<u32> {
        back(self.one(values).mul_scalar(f32::from_bits(factor)))
    }
    fn plus_each(&self, values: &Vec<u32>, offset: u32) -> Vec<u32> {
        back(self.one(values).add_scalar(f32::from_bits(offset)))
    }
    fn exp_each(&self, values: &Vec<u32>) -> Vec<u32> {
        back(self.one(values).exp())
    }
    fn log_each(&self, values: &Vec<u32>) -> Vec<u32> {
        back(self.one(values).log())
    }
    fn negated(&self, values: &Vec<u32>) -> Vec<u32> {
        back(self.one(values).neg())
    }
    fn sigmoid(&self, values: &Vec<u32>) -> Vec<u32> {
        back(sigmoid(self.one(values)))
    }
    fn clamped(&self, values: &Vec<u32>, min: u32, max: u32) -> Vec<u32> {
        back(
            self.one(values)
                .clamp(f32::from_bits(min), f32::from_bits(max)),
        )
    }
    fn product(&self, values: &Vec<u32>, others: &Vec<u32>) -> Vec<u32> {
        back(self.one(values).mul(self.one(others)))
    }
    fn quotient(&self, values: &Vec<u32>, others: &Vec<u32>) -> Vec<u32> {
        back(self.one(values).div(self.one(others)))
    }
    fn ln(&self, value: u32) -> u32 {
        f32::from_bits(value).ln().to_bits()
    }
}

/// Two splats whose every number tells where it belongs.
fn numbered() -> Splats {
    Splats::from_raw(
        bits(&[1.0, 2.0, 3.0, 11.0, 12.0, 13.0]),
        bits(&[4.0, 5.0, 6.0, 7.0, 14.0, 15.0, 16.0, 17.0]),
        bits(&[8.0, 9.0, 10.0, 18.0, 19.0, 20.0]),
        bits(&[0.1, 0.2, 0.3, 0.4, 0.5, 0.6]),
        bits(&[-1.0, 1.0]),
        SplatRenderMode::Mip,
    )
}

#[test]
fn tables_are_taken_apart_and_put_together() {
    let m = table(&[1.0, 2.0, 3.0, 4.0, 5.0, 6.0], 2, 3);
    assert_eq!(floats(&m.columns(1, 3).cells), [2.0, 3.0, 5.0, 6.0]);
    // Columns that are not there are left out.
    assert_eq!(floats(&m.columns(2, 9).cells), [3.0, 6.0]);
    assert_eq!(m.columns(5, 9).cols, 0);
    let zeros = Matrix::zeros(2, 1);
    assert_eq!(
        floats(&zeros.beside(&m).cells),
        [0.0, 1.0, 2.0, 3.0, 0.0, 4.0, 5.0, 6.0]
    );
    assert_eq!(
        floats(&m.with_columns(1, &zeros).cells),
        [1.0, 0.0, 3.0, 4.0, 0.0, 6.0]
    );
    assert_eq!(m.duplicate().cells, m.cells);
}

#[test]
fn only_the_forward_pass_keeps_nothing() {
    assert!(!RasterPass::Forward.bwd_info());
    assert!(RasterPass::Backward.bwd_info());
    assert!(RasterPass::BackwardSmoothCutoff.bwd_info());
    assert!(!RasterPass::Forward.smooth_cutoff());
    assert!(!RasterPass::Backward.smooth_cutoff());
    assert!(RasterPass::BackwardSmoothCutoff.smooth_cutoff());
    assert_eq!(RasterPass::default(), RasterPass::Forward);
    assert_eq!(TextureMode::default(), TextureMode::Float);
}

#[test]
fn splats_built_on_plain_device_train_with_gradients() {
    let math = OnDevice::new();
    let n = 4;
    let splats = Splats::from_tensor_data(
        filled(0.0, n, 3),
        filled(1.0, n, 4),
        filled(0.0, n, 3),
        no_colour(n),
        bits(&vec![0.0; n]),
        SplatRenderMode::Default,
    );

    fn lifted<T, const D: usize>(
        param: &Param<T>,
        value: Tensor<D>,
    ) -> burn::module::Param<Tensor<D>> {
        burn::module::Param::initialized(ParamId::from(param.id), value)
            .set_require_grad(param.trainable)
            .train()
    }
    fn assert_tracked<const D: usize>(param: &burn::module::Param<Tensor<D>>, what: &str) {
        assert!(param.val().device().is_autodiff(), "{what}: not lifted");
        assert!(param.val().is_require_grad(), "{what}: not tracked");
    }
    let assert_all = |splats: &Splats, what: &str| {
        let sh = &splats.sh_coeffs;
        let sh_value: Tensor<3> = math.two(&sh.value.cells).reshape([
            sh.value.cells.rows,
            sh.value.per_splat,
            sh.value.channels,
        ]);
        let transforms = lifted(&splats.transforms, math.two(&splats.transforms.value));
        let sh_coeffs = lifted(sh, sh_value);
        let raw_opacities = lifted(&splats.raw_opacities, math.one(&splats.raw_opacities.value));
        assert_tracked(&transforms, &format!("{what}: transforms"));
        assert_tracked(&sh_coeffs, &format!("{what}: sh_coeffs"));
        assert_tracked(&raw_opacities, &format!("{what}: raw_opacities"));
        assert_tracked(&transforms.valid().train(), "valid/train round trip");
        assert_tracked(&sh_coeffs.valid().train(), "valid/train round trip");
        assert_tracked(&raw_opacities.valid().train(), "valid/train round trip");
    };

    assert_all(&splats, "first lift");

    let baked = splats
        .with_min_scale(bits(&vec![1.0; n]))
        .bake_min_scale(&math);
    assert_all(&baked, "after bake_min_scale");
}

#[test]
fn scaled_moves_means_scales_and_floor() {
    let math = OnDevice::new();
    let n = 2;
    let splats = Splats::from_tensor_data(
        table(&[1.0, -2.0, 3.0, 0.5, 0.0, -1.0], n, 3),
        filled(1.0, n, 4),
        table(&[0.0, 1.0, -1.0, 2.0, 2.0, 2.0], n, 3),
        no_colour(n),
        bits(&vec![0.0; n]),
        SplatRenderMode::Default,
    )
    .with_min_scale(bits(&[0.1, 0.2]));

    let scaled = splats.clone().scaled(4.0_f32.to_bits(), &math);
    let means = floats(&splats.means().cells);
    let scaled_means = floats(&scaled.means().cells);
    let scales = floats(&math.exp(&splats.log_scales()).cells);
    let scaled_scales = floats(&math.exp(&scaled.log_scales()).cells);
    for i in 0..n * 3 {
        assert!((scaled_means[i] - means[i] * 4.0).abs() < 1e-6);
        assert!((scaled_scales[i] - scales[i] * 4.0).abs() < 1e-5 * scales[i]);
    }
    let floor = floats(&scaled.min_scale.clone().expect("floor kept"));
    assert!((floor[0] - 0.4).abs() < 1e-6 && (floor[1] - 0.8).abs() < 1e-6);
    // Rotations and opacities are untouched.
    assert_eq!(scaled.rotations().cells, splats.rotations().cells);
    assert_eq!(scaled.raw_opacities.value, splats.raw_opacities.value);
    assert_eq!(scaled.transforms.id, splats.transforms.id);

    // Scaling back is the identity (up to rounding).
    let back = floats(&scaled.scaled(0.25_f32.to_bits(), &math).means().cells);
    for i in 0..n * 3 {
        assert!((back[i] - means[i]).abs() < 1e-6);
    }
}

#[test]
fn folded_opacity_is_stable_for_tiny_scales() {
    let math = OnDevice::new();
    let log_scale = -20.0_f32;
    let mut data = vec![0.0; 10];
    data[7..10].fill(log_scale);
    let (transforms, raw_opacity) = fold_min_scale(
        &table(&data, 1, 10),
        &bits(&[0.0]),
        &bits(&[log_scale.exp()]),
        &math,
    );
    let opacity = floats(&math.sigmoid(&raw_opacity))[0];
    let expected_opacity = 0.5 * 0.5_f32.sqrt().powi(3);
    assert!((opacity - expected_opacity).abs() < 1e-6);
    let folded = floats(&transforms.cells);
    assert_eq!(folded[..7], data[..7]);
    for actual in &folded[7..10] {
        assert!((actual - (log_scale + 0.5 * 2.0_f32.ln())).abs() < 1e-4);
    }
}

#[test]
fn folding_a_floor_widens_scales_and_lowers_opacity() {
    let math = OnDevice::new();
    let splats = Splats::from_tensor_data(
        table(&[1.0, 2.0, 3.0], 1, 3),
        table(&[4.0, 5.0, 6.0, 7.0], 1, 4),
        table(&[3.0_f32.ln(), 0.0, 0.0], 1, 3),
        no_colour(1),
        bits(&[0.0]),
        SplatRenderMode::Default,
    )
    .with_min_scale(bits(&[4.0]));
    let scales = floats(&splats.scales(&math).cells);
    assert!((scales[0] - 5.0).abs() < 1e-4);
    assert!((scales[1] - 17.0_f32.sqrt()).abs() < 1e-4);
    assert!((scales[2] - 17.0_f32.sqrt()).abs() < 1e-4);
    let opacity = floats(&splats.opacities(&math))[0];
    assert!((opacity - 0.5 * (3.0 / 5.0) / 17.0).abs() < 1e-5);
    // What lies before the scales stays.
    let baked = splats.bake_min_scale(&math);
    assert_eq!(
        floats(&baked.transforms.value.cells)[..7],
        [1.0, 2.0, 3.0, 4.0, 5.0, 6.0, 7.0]
    );
}

#[test]
fn folded_opacity_is_kept_off_its_ends() {
    let math = OnDevice::new();
    let transforms = filled(0.0, 2, 10);
    let (_, raw) = fold_min_scale(
        &transforms,
        &bits(&[-40.0, 40.0]),
        &bits(&[0.0, 0.0]),
        &math,
    );
    let opacities = floats(&math.sigmoid(&raw));
    assert!((opacities[0] - 1e-6).abs() < 1e-9);
    assert!((opacities[1] - (1.0 - 1e-6)).abs() < 1e-6);
    assert!(opacities[1] < 1.0);
}

#[test]
fn baked_splats_come_to_the_same() {
    let math = OnDevice::new();
    let splats = numbered().with_min_scale(bits(&[0.5, 2.0]));
    let baked = splats.clone().bake_min_scale(&math);
    assert!(baked.min_scale.is_none());
    assert_eq!(baked.transforms.id, splats.transforms.id);
    assert_eq!(baked.raw_opacities.id, splats.raw_opacities.id);
    assert!(baked.transforms.trainable && baked.raw_opacities.trainable);
    assert_eq!(baked.scales(&math).cells, splats.scales(&math).cells);
    assert_eq!(baked.opacities(&math), splats.opacities(&math));
    let splats_means = splats.means().cells;
    let unbaked = splats.clone();
    let before = splats.render_inputs(None, TextureMode::Packed, &math);
    let after = baked.clone().render_inputs(None, TextureMode::Packed, &math);
    assert_eq!(before.transforms.cells, after.transforms.cells);
    assert_eq!(before.raw_opacities, after.raw_opacities);

    assert_eq!(baked.means().cells, splats_means);
    let scaled_render = |s: Splats| {
        let inputs = s.render_inputs(Some(3.0_f32.to_bits()), TextureMode::Float, &math);
        (inputs.transforms.cells, inputs.raw_opacities)
    };
    assert_eq!(scaled_render(unbaked), scaled_render(baked.clone()));

    // Without a floor there is nothing to fold in.
    let cells = baked.transforms.value.cells.clone();
    assert_eq!(baked.bake_min_scale(&math).transforms.value.cells, cells);
}

#[test]
fn a_floor_still_fits_after_rescaling() {
    let math = OnDevice::new();
    let scaled = numbered()
        .with_min_scale(bits(&[0.5, 2.0]))
        .scaled(2.0_f32.to_bits(), &math);
    assert_eq!(scaled.min_scale.as_ref().unwrap().len(), 2);
    assert_eq!(scaled.opacities(&math).len(), 2);
    assert_eq!(scaled.scales(&math).rows, 2);

    // One opacity for all splats comes to one for each.
    let mut one = numbered().with_min_scale(bits(&[0.5, 2.0]));
    one.raw_opacities.value = bits(&[0.0]);
    assert_eq!(one.opacities(&math).len(), 2);
    assert_eq!(one.bake_min_scale(&math).raw_opacities.value.len(), 2);
}

#[test]
fn parts_are_read_back() {
    let splats = numbered();
    assert_eq!(
        floats(&splats.transforms.value.cells),
        [
            1.0, 2.0, 3.0, 4.0, 5.0, 6.0, 7.0, 8.0, 9.0, 10.0, 11.0, 12.0, 13.0, 14.0, 15.0, 16.0,
            17.0, 18.0, 19.0, 20.0
        ]
    );
    assert_eq!(floats(&splats.means().cells), [1.0, 2.0, 3.0, 11.0, 12.0, 13.0]);
    assert_eq!(
        floats(&splats.rotations().cells),
        [4.0, 5.0, 6.0, 7.0, 14.0, 15.0, 16.0, 17.0]
    );
    assert_eq!(
        floats(&splats.log_scales().cells),
        [8.0, 9.0, 10.0, 18.0, 19.0, 20.0]
    );
    assert_eq!(floats(&splats.raw_opacities.value), [-1.0, 1.0]);
    assert_eq!(splats.num_splats(), 2);
    assert_eq!(splats.sh_degree(), 0);
    assert!(splats.render_mip);
    assert!(splats.min_scale.is_none());
    assert!(splats.transforms.trainable);
    assert!(splats.sh_coeffs.trainable);
    assert!(splats.raw_opacities.trainable);
}

#[test]
fn parameters_have_identities_of_their_own() {
    let a = numbered();
    let b = numbered();
    let mut ids = vec![
        a.transforms.id,
        a.sh_coeffs.id,
        a.raw_opacities.id,
        b.transforms.id,
        b.sh_coeffs.id,
        b.raw_opacities.id,
    ];
    ids.sort();
    ids.dedup();
    assert_eq!(ids.len(), 6);
}

#[test]
fn degree_is_raised_with_zeros_and_lowered_again() {
    let splats = numbered();
    let id = splats.sh_coeffs.id;
    let raised = splats.clone().with_sh_degree(1);
    assert_eq!(raised.sh_degree(), 1);
    assert_eq!(raised.sh_coeffs.value.per_splat, 4);
    assert_eq!(raised.sh_coeffs.value.channels, 3);
    assert_eq!(
        floats(&raised.sh_coeffs.value.cells.cells),
        [
            0.1, 0.2, 0.3, 0.0, 0.0, 0.0, 0.0, 0.0, 0.0, 0.0, 0.0, 0.0, 0.4, 0.5, 0.6, 0.0, 0.0,
            0.0, 0.0, 0.0, 0.0, 0.0, 0.0, 0.0
        ]
    );
    assert_eq!(raised.sh_coeffs.id, id);
    assert!(raised.sh_coeffs.trainable);
    let lowered = raised.with_sh_degree(0);
    assert_eq!(lowered.sh_degree(), 0);
    assert_eq!(
        lowered.sh_coeffs.value.cells.cells,
        splats.sh_coeffs.value.cells.cells
    );
    let same = lowered.with_sh_degree(0);
    assert_eq!(
        same.sh_coeffs.value.cells.cells,
        splats.sh_coeffs.value.cells.cells
    );
}

#[test]
fn rendering_shifts_log_scales_by_the_splat_scale() {
    let math = OnDevice::new();
    let plain = numbered().render_inputs(None, TextureMode::Float, &math);
    assert_eq!(plain.pass, RasterPass::Backward);
    assert_eq!(plain.render_mode, SplatRenderMode::Mip);
    let shifted = numbered().render_inputs(Some(2.0_f32.to_bits()), TextureMode::Packed, &math);
    assert_eq!(shifted.pass, RasterPass::Forward);
    let plain = floats(&plain.transforms.cells);
    let shifted = floats(&shifted.transforms.cells);
    for i in 0..20 {
        let offset = if i % 10 >= 7 { 2.0_f32.ln() } else { 0.0 };
        assert!((shifted[i] - plain[i] - offset).abs() < 1e-5);
    }
    let mut default_mode = numbered();
    default_mode.render_mip = false;
    let inputs = default_mode.render_inputs(None, TextureMode::Packed, &math);
    assert_eq!(inputs.render_mode, SplatRenderMode::Default);
    assert_eq!(floats(&inputs.raw_opacities), [-1.0, 1.0]);
}

#[test]
fn values_are_checked_in_order_and_within_bounds() {
    let math = OnDevice::new();
    assert!(numbered().validate_values(false, &math).is_none());
    let validation = numbered().validate_values(true, &math).unwrap();
    assert_eq!(validation.shapes, Ok(()));
    let decimal = |mantissa: i32, exponent: i32| Decimal { mantissa, exponent };
    let expected = [
        (Quantity::Means, None),
        (Quantity::Rotations, None),
        (Quantity::LogScales, Some((decimal(-10, 0), decimal(10, 0)))),
        (Quantity::Scales, Some((decimal(1, -20), decimal(10000, 0)))),
        (Quantity::ShCoeffs, Some((decimal(-5, 0), decimal(5, 0)))),
        (Quantity::RawOpacity, Some((decimal(-20, 0), decimal(20, 0)))),
        (Quantity::Opacities, Some((decimal(0, 0), decimal(1, 0)))),
        (Quantity::Scales, Some((decimal(1, -6), decimal(100, 0)))),
    ];
    assert_eq!(validation.checks.len(), expected.len());
    for (check, (what, bounds)) in validation.checks.iter().zip(expected) {
        assert_eq!(check.what, what);
        assert_eq!(check.bounds, bounds);
    }
    let names: Vec<&str> = validation.checks.iter().map(|c| c.what.name()).collect();
    assert_eq!(
        names,
        [
            "means",
            "rotations",
            "log_scales",
            "scales",
            "sh_coeffs",
            "raw_opacity",
            "opacities",
            "scales"
        ]
    );
    match &validation.checks[5].values {
        Values::Each(each) => assert_eq!(floats(each), [-1.0, 1.0]),
        Values::Rows(_) => panic!("opacities are no table"),
    }
    match &validation.checks[6].values {
        Values::Each(each) => assert_eq!(*each, numbered().opacities(&math)),
        Values::Rows(_) => panic!("opacities are no table"),
    }
    match &validation.checks[7].values {
        Values::Rows(rows) => assert_eq!(rows.cells, numbered().scales(&math).cells),
        Values::Each(_) => panic!("scales are a table"),
    }
}

#[test]
fn the_first_wrong_shape_is_named() {
    let math = OnDevice::new();
    let fault = |splats: Splats| splats.validate_values(true, &math).unwrap().shapes;

    let mut wide = numbered();
    wide.transforms.value = filled(0.0, 2, 11);
    assert_eq!(fault(wide), Err(ShapeFault::TransformsWidth));

    let mut narrow = numbered();
    narrow.transforms.value = filled(0.0, 2, 8);
    assert_eq!(narrow.rotations().cols, 4);
    assert_eq!(narrow.log_scales().cols, 1);
    assert_eq!(fault(narrow), Err(ShapeFault::TransformsWidth));

    let mut opacities = numbered();
    opacities.raw_opacities.value = bits(&[0.0; 3]);
    assert_eq!(fault(opacities), Err(ShapeFault::OpacityCount));

    let mut channels = numbered();
    channels.sh_coeffs.value = Coefficients {
        per_splat: 1,
        channels: 4,
        cells: filled(0.0, 3, 4),
    };
    assert_eq!(fault(channels), Err(ShapeFault::ShChannels));

    let mut colours = numbered();
    colours.sh_coeffs.value = no_colour(3);
    assert_eq!(fault(colours), Err(ShapeFault::ShCount));

    assert_eq!(
        ShapeFault::TransformsWidth.message(),
        "Transforms must be 10D (means(3) + quats(4) + log_scales(3))"
    );
    assert_eq!(
        ShapeFault::TransformsCount.message(),
        "Inconsistent number of splats in transforms"
    );
    assert_eq!(
        ShapeFault::OpacityCount.message(),
        "Inconsistent number of splats in opacity"
    );
    assert_eq!(
        ShapeFault::ShChannels.message(),
        "SH coeffs must have 3 color channels"
    );
    assert_eq!(
        ShapeFault::ShCount.message(),
        "Inconsistent number of splats in SH coeffs"
    );
}

#[test]
fn gradients_that_are_there_are_checked() {
    assert!(Splats::bwd_validate(false, Some(1), Some('a'), Some("b")).is_empty());
    let checks = Splats::bwd_validate(true, Some(1), None::<char>, Some("b"));
    assert_eq!(checks.len(), 2);
    assert!(matches!(checks[0], GradientCheck::Transforms(1)));
    assert!(matches!(checks[1], GradientCheck::RawOpacities("b")));
    assert_eq!(checks[0].name(), "transforms");
    assert_eq!(checks[1].name(), "raw_opacities");
    let all = Splats::bwd_validate(true, Some(1), Some('a'), Some("b"));
    assert!(matches!(all[1], GradientCheck::ShCoeffs('a')));
    assert_eq!(all[1].name(), "sh_coeffs");
}
