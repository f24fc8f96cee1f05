//! Gaussian splats: how their parameters are laid out, and what is read and
//! changed of them. What computes on the numbers themselves (exponentials,
//! activations, the fold of a scale floor) is handed in by the caller; which
//! numbers it gets, and where its results go, is settled here.

use crate::matrix::{lemma_rows_are_full, table_of, Matrix, Table};
use crate::min_scale::{
    fold_min_scale, foldable, folded, law_folding_changes_scales_alone, law_folding_has_one_result,
};
use crate::outside::fresh_param_id;
use crate::sh::{coeffs_of_degree, law_degree_is_read_back, sh_coeffs_for_degree, sh_degree_from_coeffs};
use crate::splat_math::{
    activated, exponentiated, has_one_result, joint_len, keeps_shapes, multiplied, multiplied_each, shifted, SplatMath,
};
use vstd::arithmetic::mul::*;
use vstd::prelude::*;

verus! {

/// How opacity is corrected for the size of a pixel.
#[derive(Clone, Copy, Debug, PartialEq, Eq, Structural)]
pub enum SplatRenderMode {
    Default,
    Mip,
}

/// Forward or backward rasterizer mode.
#[derive(Clone, Copy, Debug, PartialEq, Eq, Structural, Hash)]
pub enum RasterPass {
    /// Forward only, for inference and evaluation: no backward bookkeeping,
    /// and a hard `alpha >= 1/255` cutoff.
    Forward,
    /// Forward with backward bookkeeping, for training. Hard cutoff.
    Backward,
    /// Backward with a smooth step around the cutoff, which lets the
    /// analytical gradient agree with finite differences there, at the cost
    /// of a shift below 1/255 on edge pixels.
    BackwardSmoothCutoff,
}

impl Default for RasterPass {
    fn default() -> (pass: Self)
        ensures
            pass == RasterPass::Forward,
    {
        RasterPass::Forward
    }
}

impl RasterPass {
    /// Whether the pass keeps what a backward pass needs.
    pub fn bwd_info(self) -> (kept: bool)
        ensures
            kept == (self != RasterPass::Forward),
    {
        !matches!(self, RasterPass::Forward)
    }

    /// Whether the cutoff is smooth.
    pub fn smooth_cutoff(self) -> (smooth: bool)
        ensures
            smooth == (self == RasterPass::BackwardSmoothCutoff),
    {
        matches!(self, RasterPass::BackwardSmoothCutoff)
    }
}

/// How a rendered image is stored.
#[derive(Clone, Copy, Debug, PartialEq, Eq, Structural)]
pub enum TextureMode {
    Packed,
    Float,
}

impl Default for TextureMode {
    fn default() -> (mode: Self)
        ensures
            mode == TextureMode::Float,
    {
        TextureMode::Float
    }
}

/// A value that training changes, under an identity that it keeps.
#[derive(Clone, Debug)]
pub struct Param<T> {
    pub id: u64,
    pub value: T,
    /// Whether training is to track gradients of the value. This is recorded
    /// here, and so holds wherever the value lives.
    pub trainable: bool,
}

/// A value as a trainable parameter.
fn trainable_param<T>(id: u64, value: T) -> (param: Param<T>)
    ensures
        param == (Param { id, value, trainable: true }),
{
    Param { id, value, trainable: true }
}

/// Spherical-harmonics coefficients: for each splat `per_splat` of them, each
/// with a value per colour channel.
#[derive(Clone, Debug)]
pub struct Coefficients {
    pub per_splat: usize,
    pub channels: usize,
    /// One row per splat, its coefficients one after the other.
    pub cells: Matrix,
}

impl Coefficients {
    /// A row holds all channels of all coefficients.
    pub open spec fn wf(&self) -> bool {
        &&& self.cells.wf()
        &&& self.cells.cols == self.per_splat * self.channels
    }
}

/// What is left of a table of coefficients when each splat is to have `count`
/// of them in place of `per_splat`: the first ones stay, and zeros follow
/// where there were fewer.
pub open spec fn resized(cells: Table, per_splat: nat, channels: nat, count: nat) -> Table {
    if per_splat < count {
        cells.beside(Table::zeros(cells.rows.len(), ((count - per_splat) * channels) as nat))
    } else {
        cells.columns(0, (count * channels) as int)
    }
}

/// Gaussian splat parameters.
#[derive(Clone, Debug)]
pub struct Splats {
    /// Per splat, in one row: mean (3), rotation (4) and log scale (3).
    pub transforms: Param<Matrix>,
    pub sh_coeffs: Param<Coefficients>,
    pub raw_opacities: Param<Vec<u32>>,
    pub render_mip: bool,
    /// A floor under the scale of each splat in world space. It is never
    /// optimised and never exported: it presses on training alone. While it
    /// is set, the real size and opacity of a splat have it folded in.
    pub min_scale: Option<Vec<u32>>,
}

impl Splats {
    /// The transforms and the coefficients are tables.
    pub open spec fn wf(&self) -> bool {
        &&& self.transforms.value.wf()
        &&& self.sh_coeffs.value.wf()
    }

    /// Whether every parameter is to be trained.
    pub open spec fn all_trainable(&self) -> bool {
        self.transforms.trainable && self.sh_coeffs.trainable && self.raw_opacities.trainable
    }

    /// What the splats come to, as transforms and raw opacities: what they
    /// hold, or, under a scale floor, what folding it into them may give.
    pub open spec fn comes_to<M: SplatMath>(&self, math: &M, transforms: Table, raw_opacities: Seq<u32>) -> bool {
        match self.min_scale {
            None => transforms == self.transforms.value@ && raw_opacities == self.raw_opacities.value@,
            Some(floor) => folded(
                math,
                self.transforms.value@,
                self.raw_opacities.value@,
                floor@,
                transforms,
                raw_opacities,
            ),
        }
    }

    /// A floor, where there is one, can be folded in.
    pub open spec fn floor_fits(&self) -> bool {
        self.min_scale matches Some(floor) ==> foldable(
            &self.transforms.value,
            &self.raw_opacities.value,
            &floor,
        )
    }

    /// How many opacities the splats come to.
    pub open spec fn opacity_count(&self) -> nat {
        match self.min_scale {
            None => self.raw_opacities.value@.len(),
            Some(_) => joint_len(self.raw_opacities.value@.len(), self.transforms.value.rows as nat),
        }
    }

    /// Whether `after` is these splats with a scale floor folded in for good
    /// and taken off; without one, they stay as they are.
    pub open spec fn bakes_to<M: SplatMath>(&self, math: &M, after: Splats) -> bool {
        &&& after.transforms.id == self.transforms.id
        &&& after.raw_opacities.id == self.raw_opacities.id
        &&& after.sh_coeffs == self.sh_coeffs
        &&& after.render_mip == self.render_mip
        &&& after.min_scale is None
        &&& self.comes_to(math, after.transforms.value@, after.raw_opacities.value@)
        &&& self.min_scale is Some ==> after.transforms.trainable && after.raw_opacities.trainable
        &&& self.min_scale is None ==> after == *self
    }

    /// Splats out of their parts, each one run of numbers.
    pub fn from_raw(
        pos_data: Vec<u32>,
        rot_data: Vec<u32>,
        scale_data: Vec<u32>,
        coeffs_data: Vec<u32>,
        opac_data: Vec<u32>,
        mode: SplatRenderMode,
    ) -> (splats: Self)
        requires
            opac_data@.len() > 0,
            pos_data@.len() == opac_data@.len() * 3,
            rot_data@.len() == opac_data@.len() * 4,
            scale_data@.len() == opac_data@.len() * 3,
            coeffs_data@.len() % (opac_data@.len() * 3) == 0,
        ensures
            splats.wf(),
            splats.transforms.value@ == table_of(opac_data@.len(), 3, pos_data@).beside(
                table_of(opac_data@.len(), 4, rot_data@),
            ).beside(table_of(opac_data@.len(), 3, scale_data@)),
            splats.sh_coeffs.value.channels == 3,
            splats.sh_coeffs.value.per_splat == coeffs_data@.len() / (opac_data@.len() * 3),
            splats.sh_coeffs.value.cells@ == table_of(
                opac_data@.len(),
                splats.sh_coeffs.value.per_splat as nat * 3,
                coeffs_data@,
            ),
            splats.raw_opacities.value@ == opac_data@,
            splats.all_trainable(),
            splats.render_mip == (mode == SplatRenderMode::Mip),
            splats.min_scale is None,
    {
        let n_splats: usize = pos_data.len() / 3;
        let n_coeffs: usize = coeffs_data.len() / n_splats;
        let per_splat: usize = n_coeffs / 3;
        proof {
            lemma_coeffs_fill(coeffs_data@.len(), n_splats as nat);
        }
        let log_scales = Matrix::from_cells(scale_data, n_splats, 3);
        let means = Matrix::from_cells(pos_data, n_splats, 3);
        let rotations = Matrix::from_cells(rot_data, n_splats, 4);
        let sh_coeffs = Coefficients {
            per_splat,
            channels: 3,
            cells: Matrix::from_cells(coeffs_data, n_splats, per_splat * 3),
        };
        Self::from_tensor_data(means, rotations, log_scales, sh_coeffs, opac_data, mode)
    }

    /// Splats out of their parts.
    pub fn from_tensor_data(
        means: Matrix,
        rotation: Matrix,
        log_scales: Matrix,
        sh_coeffs: Coefficients,
        raw_opacity: Vec<u32>,
        mode: SplatRenderMode,
    ) -> (splats: Self)
        requires
            means.wf(),
            rotation.wf(),
            log_scales.wf(),
            sh_coeffs.wf(),
            means.cols == 3,
            rotation.cols == 4,
            log_scales.cols == 3,
            means.rows == rotation.rows == log_scales.rows,
        ensures
            splats.wf(),
            splats.transforms.value@ == means@.beside(rotation@).beside(log_scales@),
            splats.sh_coeffs.value == sh_coeffs,
            splats.raw_opacities.value == raw_opacity,
            splats.all_trainable(),
            splats.render_mip == (mode == SplatRenderMode::Mip),
            splats.min_scale is None,
    {
        let transforms = means.beside(&rotation).beside(&log_scales);
        Splats {
            transforms: trainable_param(fresh_param_id(), transforms),
            sh_coeffs: trainable_param(fresh_param_id(), sh_coeffs),
            raw_opacities: trainable_param(fresh_param_id(), raw_opacity),
            render_mip: matches!(mode, SplatRenderMode::Mip),
            min_scale: None,
        }
    }

    /// These splats with coefficients up to the given degree.
    pub fn with_sh_degree(self, sh_degree: u32) -> (splats: Self)
        requires
            self.wf(),
            coeffs_of_degree(sh_degree as nat) <= u32::MAX,
            self.sh_coeffs.value.per_splat < coeffs_of_degree(sh_degree as nat) ==> {
                &&& self.sh_coeffs.value.cells.rows == self.transforms.value.rows as u32
                &&& self.sh_coeffs.value.channels == 3
                &&& coeffs_of_degree(sh_degree as nat) * 3 <= usize::MAX
                &&& self.sh_coeffs.value.cells.rows * (coeffs_of_degree(sh_degree as nat) * 3) <= usize::MAX
            },
        ensures
            splats.wf(),
            splats.transforms == self.transforms,
            splats.sh_coeffs.id == self.sh_coeffs.id,
            splats.sh_coeffs.trainable == self.sh_coeffs.trainable,
            splats.sh_coeffs.value.per_splat == coeffs_of_degree(sh_degree as nat),
            splats.sh_coeffs.value.channels == self.sh_coeffs.value.channels,
            splats.sh_coeffs.value.cells@ == resized(
                self.sh_coeffs.value.cells@,
                self.sh_coeffs.value.per_splat as nat,
                self.sh_coeffs.value.channels as nat,
                coeffs_of_degree(sh_degree as nat),
            ),
            splats.raw_opacities == self.raw_opacities,
            splats.render_mip == self.render_mip,
            splats.min_scale == self.min_scale,
            self.all_trainable() ==> splats.all_trainable(),
    {
        let n_coeffs: usize = sh_coeffs_for_degree(sh_degree) as usize;
        let n: usize = self.num_splats() as usize;
        let coeffs = self.sh_coeffs.value;
        let cur: usize = coeffs.per_splat;
        let channels: usize = coeffs.channels;
        let cells = if cur < n_coeffs {
            let ghost missing = (n_coeffs - cur) * 3;
            proof {
                lemma_mul_inequality(missing, n_coeffs * 3, coeffs.cells.rows as int);
                lemma_mul_is_commutative(missing, coeffs.cells.rows as int);
                lemma_mul_is_commutative(n_coeffs * 3, coeffs.cells.rows as int);
                lemma_mul_is_distributive_add_other_way(3, cur as int, n_coeffs - cur);
            }
            coeffs.cells.beside(&Matrix::zeros(n, (n_coeffs - cur) * 3))
        } else {
            proof {
                lemma_mul_inequality(n_coeffs as int, cur as int, channels as int);
            }
            coeffs.cells.columns(0, n_coeffs * channels)
        };
        Splats {
            transforms: self.transforms,
            sh_coeffs: Param {
                id: self.sh_coeffs.id,
                value: Coefficients { per_splat: n_coeffs, channels, cells },
                trainable: self.sh_coeffs.trainable,
            },
            raw_opacities: self.raw_opacities,
            render_mip: self.render_mip,
            min_scale: self.min_scale,
        }
    }

    /// These splats rescaled about the origin: the means are multiplied by the
    /// factor, its logarithm is added to the log scales, and a scale floor is
    /// multiplied along. Rotations, colours and opacities stay as they are.
    pub fn scaled<M: SplatMath>(self, factor: u32, math: &M) -> (splats: Self)
        requires
            self.wf(),
            keeps_shapes(math),
        ensures
            splats.wf(),
            splats.transforms.id == self.transforms.id,
            splats.transforms.trainable,
            splats.transforms.value.rows == self.transforms.value.rows,
            splats.transforms.value.cols == self.transforms.value.cols,
            rescaled(math, self.transforms.value@, factor, splats.transforms.value@),
            splats.sh_coeffs == self.sh_coeffs,
            splats.raw_opacities == self.raw_opacities,
            splats.render_mip == self.render_mip,
            match (self.min_scale, splats.min_scale) {
                (None, None) => true,
                (Some(floor), Some(moved)) => multiplied_each(math, floor@, factor, moved@) && moved@.len() == floor@.len(),
                _ => false,
            },
            self.floor_fits() ==> splats.floor_fits(),
            splats.opacity_count() == self.opacity_count(),
            self.all_trainable() ==> splats.all_trainable(),
    {
        let transforms = self.transforms.value;
        let ln: u32 = math.ln(factor);
        let means = math.times(&transforms.columns(0, 3), factor);
        let log_scales = math.plus(&transforms.columns(7, 10), ln);
        proof {
            assert(multiplied(math, transforms@.columns(0, 3), factor, means@));
            assert(shifted(math, transforms@.columns(7, 10), ln, log_scales@));
        }
        let moved = transforms.with_columns(0, &means).with_columns(7, &log_scales);
        let min_scale = match self.min_scale {
            Some(floor) => Some(math.times_each(&floor, factor)),
            None => None,
        };
        Splats {
            transforms: trainable_param(self.transforms.id, moved),
            sh_coeffs: self.sh_coeffs,
            raw_opacities: self.raw_opacities,
            render_mip: self.render_mip,
            min_scale,
        }
    }

    /// These splats with a scale floor, one number per splat.
    pub fn with_min_scale(self, f: Vec<u32>) -> (splats: Self)
        ensures
            splats == (Splats { min_scale: Some(f), ..self }),
    {
        Splats {
            transforms: self.transforms,
            sh_coeffs: self.sh_coeffs,
            raw_opacities: self.raw_opacities,
            render_mip: self.render_mip,
            min_scale: Some(f),
        }
    }

    /// The means (positions).
    pub fn means(&self) -> (means: Matrix)
        requires
            self.wf(),
        ensures
            means.wf(),
            means.rows == self.transforms.value.rows,
            means@ == self.transforms.value@.columns(0, 3),
    {
        self.transforms.value.columns(0, 3)
    }

    /// The rotations, as quaternions.
    pub fn rotations(&self) -> (rotations: Matrix)
        requires
            self.wf(),
        ensures
            rotations.wf(),
            rotations.rows == self.transforms.value.rows,
            rotations@ == self.transforms.value@.columns(3, 7),
    {
        self.transforms.value.columns(3, 7)
    }

    /// The logarithms of the scales.
    pub fn log_scales(&self) -> (log_scales: Matrix)
        requires
            self.wf(),
        ensures
            log_scales.wf(),
            log_scales.rows == self.transforms.value.rows,
            log_scales.cols == self.transforms.value@.clip(10) - self.transforms.value@.clip(7),
            log_scales@ == self.transforms.value@.columns(7, 10),
    {
        self.transforms.value.columns(7, 10)
    }

    /// The opacities that the splats really have: activated, and with a scale
    /// floor folded in where there is one.
    pub fn opacities<M: SplatMath>(&self, math: &M) -> (opacities: Vec<u32>)
        requires
            self.wf(),
            self.floor_fits(),
            keeps_shapes(math),
        ensures
            real_opacities(self, math, opacities@),
            opacities@.len() == self.opacity_count(),
    {
        match &self.min_scale {
            Some(f) => {
                let (transforms, raw_opac) = fold_min_scale(&self.transforms.value, &self.raw_opacities.value, f, math);
                let opacities = math.sigmoid(&raw_opac);
                proof {
                    assert(self.comes_to(math, transforms@, raw_opac@));
                }
                opacities
            },
            None => {
                proof {
                    assert(self.comes_to(math, self.transforms.value@, self.raw_opacities.value@));
                }
                math.sigmoid(&self.raw_opacities.value)
            },
        }
    }

    /// The scales that the splats really have: in world space, and with a
    /// scale floor folded in where there is one.
    pub fn scales<M: SplatMath>(&self, math: &M) -> (scales: Matrix)
        requires
            self.wf(),
            self.floor_fits(),
            keeps_shapes(math),
        ensures
            scales.wf(),
            real_scales(self, math, scales@),
            scales.rows == self.transforms.value.rows,
            scales.cols == self.transforms.value@.clip(10) - self.transforms.value@.clip(7),
    {
        match &self.min_scale {
            Some(f) => {
                let (transforms, raw_opac) = fold_min_scale(&self.transforms.value, &self.raw_opacities.value, f, math);
                proof {
                    assert(self.comes_to(math, transforms@, raw_opac@));
                }
                math.exp(&transforms.columns(7, 10))
            },
            None => {
                proof {
                    assert(self.comes_to(math, self.transforms.value@, self.raw_opacities.value@));
                }
                math.exp(&self.log_scales())
            },
        }
    }

    /// These splats with a scale floor folded in for good and taken off, which
    /// leaves plain splats that come to the same.
    pub fn bake_min_scale<M: SplatMath>(self, math: &M) -> (splats: Self)
        requires
            self.wf(),
            self.floor_fits(),
            keeps_shapes(math),
        ensures
            splats.wf(),
            self.bakes_to(math, splats),
            splats.transforms.value.rows == self.transforms.value.rows,
            splats.transforms.value.cols == self.transforms.value.cols,
            splats.raw_opacities.value@.len() == self.opacity_count(),
            self.all_trainable() ==> splats.all_trainable(),
    {
        match self.min_scale {
            Some(f) => {
                let (transforms, raw_opac) = fold_min_scale(&self.transforms.value, &self.raw_opacities.value, &f, math);
                Splats {
                    transforms: trainable_param(self.transforms.id, transforms),
                    sh_coeffs: self.sh_coeffs,
                    raw_opacities: trainable_param(self.raw_opacities.id, raw_opac),
                    render_mip: self.render_mip,
                    min_scale: None,
                }
            },
            None => self,
        }
    }

    /// How many splats there are.
    pub fn num_splats(&self) -> (n: u32)
        ensures
            n == self.transforms.value.rows as u32,
    {
        self.transforms.value.rows as u32
    }

    /// The degree of the spherical harmonics.
    pub fn sh_degree(&self) -> (degree: u32)
        requires
            exists|d: nat| self.sh_coeffs.value.per_splat as u32 == #[trigger] coeffs_of_degree(d),
        ensures
            self.sh_coeffs.value.per_splat as u32 == coeffs_of_degree(degree as nat),
    {
        sh_degree_from_coeffs(self.sh_coeffs.value.per_splat as u32)
    }

    /// What the rasterizer is given to render these splats, without gradients.
    pub fn render_inputs<M: SplatMath>(
        self,
        splat_scale: Option<u32>,
        texture_mode: TextureMode,
        math: &M,
    ) -> (inputs: RenderInputs)
        requires
            self.wf(),
            self.floor_fits(),
            keeps_shapes(math),
        ensures
            inputs.transforms.wf(),
            drawn_from(&self, math, splat_scale, inputs.transforms@, inputs.raw_opacities@),
            inputs.transforms.rows == self.transforms.value.rows,
            inputs.transforms.cols == self.transforms.value.cols,
            inputs.raw_opacities@.len() == self.opacity_count(),
            inputs.sh_coeffs == self.sh_coeffs.value,
            inputs.render_mode == (if self.render_mip {
                SplatRenderMode::Mip
            } else {
                SplatRenderMode::Default
            }),
            inputs.pass == (match texture_mode {
                TextureMode::Float => RasterPass::Backward,
                TextureMode::Packed => RasterPass::Forward,
            }),
    {
        let render_mode = if self.render_mip {
            SplatRenderMode::Mip
        } else {
            SplatRenderMode::Default
        };
        let pass = match texture_mode {
            TextureMode::Float => RasterPass::Backward,
            TextureMode::Packed => RasterPass::Forward,
        };
        let sh_coeffs = self.sh_coeffs.value;
        let (transforms, raw_opacities) = match self.min_scale {
            Some(f) => fold_min_scale(&self.transforms.value, &self.raw_opacities.value, &f, math),
            None => (self.transforms.value, self.raw_opacities.value),
        };
        let ghost effective = transforms@;
        let transforms = match splat_scale {
            Some(scale) => {
                let ln: u32 = math.ln(scale);
                let adjusted = math.plus(&transforms.columns(7, 10), ln);
                proof {
                    assert(shifted(math, transforms@.columns(7, 10), ln, adjusted@));
                }
                transforms.with_columns(7, &adjusted)
            },
            None => transforms,
        };
        let inputs = RenderInputs { transforms, sh_coeffs, raw_opacities, render_mode, pass };
        proof {
            assert(self.comes_to(math, effective, inputs.raw_opacities@));
            assert(drawn_as(math, effective, splat_scale, inputs.transforms@));
        }
        inputs
    }
}

/// What the rasterizer is given.
pub struct RenderInputs {
    pub transforms: Matrix,
    pub sh_coeffs: Coefficients,
    pub raw_opacities: Vec<u32>,
    pub render_mode: SplatRenderMode,
    pub pass: RasterPass,
}

/// Whether these are the scales that the splats really have.
pub open spec fn real_scales<M: SplatMath>(splats: &Splats, math: &M, scales: Table) -> bool {
    exists|transforms: Table, raw_opacities: Seq<u32>|
        #[trigger] splats.comes_to(math, transforms, raw_opacities) && exponentiated(
            math,
            transforms.columns(7, 10),
            scales,
        )
}

/// Whether these are the opacities that the splats really have.
pub open spec fn real_opacities<M: SplatMath>(splats: &Splats, math: &M, opacities: Seq<u32>) -> bool {
    exists|transforms: Table, raw_opacities: Seq<u32>|
        #[trigger] splats.comes_to(math, transforms, raw_opacities) && activated(
            math,
            raw_opacities,
            opacities,
        )
}

/// Whether the splats are drawn from these transforms and raw opacities.
pub open spec fn drawn_from<M: SplatMath>(
    splats: &Splats,
    math: &M,
    splat_scale: Option<u32>,
    transforms: Table,
    raw_opacities: Seq<u32>,
) -> bool {
    exists|effective: Table|
        #[trigger] splats.comes_to(math, effective, raw_opacities) && drawn_as(
            math,
            effective,
            splat_scale,
            transforms,
        )
}

/// Whether rescaling by the factor may make the transforms `output` of `input`.
pub open spec fn rescaled<M: SplatMath>(math: &M, input: Table, factor: u32, output: Table) -> bool {
    exists|ln: u32, means: Table, log_scales: Table|
        call_ensures(M::ln, (math, factor), ln) && #[trigger] multiplied(math, input.columns(0, 3), factor, means)
            && #[trigger] shifted(math, input.columns(7, 10), ln, log_scales) && output == input.with_columns(
            0,
            means,
        ).with_columns(7, log_scales)
}

/// Whether the transforms `input` may be drawn as `output`: as they are, or
/// with the logarithm of a scale added to the log scales.
pub open spec fn drawn_as<M: SplatMath>(math: &M, input: Table, splat_scale: Option<u32>, output: Table) -> bool {
    match splat_scale {
        Some(scale) => exists|ln: u32, log_scales: Table|
            call_ensures(M::ln, (math, scale), ln) && #[trigger] shifted(math, input.columns(7, 10), ln, log_scales)
                && output == input.with_columns(7, log_scales),
        None => output == input,
    }
}

/// What splats are made of is what is read of them: the three parts of the
/// transforms come back as they went in.
pub proof fn law_parts_are_read_back(means: Table, rotation: Table, log_scales: Table)
    requires
        means.wf(),
        rotation.wf(),
        log_scales.wf(),
        means.width == 3,
        rotation.width == 4,
        log_scales.width == 3,
        means.rows.len() == rotation.rows.len() == log_scales.rows.len(),
    ensures
        means.beside(rotation).beside(log_scales).columns(0, 3) == means,
        means.beside(rotation).beside(log_scales).columns(3, 7) == rotation,
        means.beside(rotation).beside(log_scales).columns(7, 10) == log_scales,
{
    let transforms = means.beside(rotation).beside(log_scales);
    assert forall|i: int| 0 <= i < means.rows.len() implies {
        &&& #[trigger] transforms.columns(0, 3).rows[i] == means.rows[i]
        &&& transforms.columns(3, 7).rows[i] == rotation.rows[i]
        &&& transforms.columns(7, 10).rows[i] == log_scales.rows[i]
    } by {
        assert(transforms.rows[i].subrange(0, 3) == means.rows[i]);
        assert(transforms.rows[i].subrange(3, 7) == rotation.rows[i]);
        assert(transforms.rows[i].subrange(7, 10) == log_scales.rows[i]);
    }
    assert(transforms.columns(0, 3) == means);
    assert(transforms.columns(3, 7) == rotation);
    assert(transforms.columns(7, 10) == log_scales);
}

/// Rescaling multiplies the means, shifts the log scales, and leaves the
/// rotations and all else as they are.
pub proof fn law_rescaling_leaves_rotations<M: SplatMath>(math: &M, input: Table, factor: u32, output: Table)
    requires
        input.wf(),
        keeps_shapes(math),
        rescaled(math, input, factor, output),
    ensures
        input.same_shape(output),
        multiplied(math, input.columns(0, 3), factor, output.columns(0, 3)),
        exists|ln: u32|
            #[trigger] call_ensures(M::ln, (math, factor), ln) && shifted(
                math,
                input.columns(7, 10),
                ln,
                output.columns(7, 10),
            ),
        output.columns(3, 7) == input.columns(3, 7),
        output.columns(10, input.width as int) == input.columns(10, input.width as int),
{
    let (ln, means, log_scales) = choose|ln: u32, means: Table, log_scales: Table|
        call_ensures(M::ln, (math, factor), ln) && #[trigger] multiplied(math, input.columns(0, 3), factor, means)
            && #[trigger] shifted(math, input.columns(7, 10), ln, log_scales) && output == input.with_columns(
            0,
            means,
        ).with_columns(7, log_scales);
    let (x, y) = choose|x: Matrix, y: Matrix|
        x.wf() && x@ == input.columns(0, 3) && y@ == means && #[trigger] call_ensures(M::times, (math, &x, factor), y);
    lemma_rows_are_full(&y);
    let (u, v) = choose|u: Matrix, v: Matrix|
        u.wf() && u@ == input.columns(7, 10) && v@ == log_scales && #[trigger] call_ensures(M::plus, (math, &u, ln), v);
    lemma_rows_are_full(&v);
    assert(x@.same_shape(y@) && u@.same_shape(v@));
    let width = input.width as int;
    assert forall|i: int| 0 <= i < input.rows.len() implies {
        &&& #[trigger] output.columns(0, 3).rows[i] == means.rows[i]
        &&& output.columns(3, 7).rows[i] == input.columns(3, 7).rows[i]
        &&& output.columns(7, 10).rows[i] == log_scales.rows[i]
        &&& output.columns(10, width).rows[i] == input.columns(10, width).rows[i]
    } by {
        let (a, b, c) = (input.clip(3), input.clip(7), input.clip(10));
        assert(input.rows[i].len() == width && means.rows[i].len() == a && log_scales.rows[i].len() == c - b);
        assert(output.rows[i].subrange(0, a) == means.rows[i]);
        assert(output.rows[i].subrange(a, b) == input.rows[i].subrange(a, b));
        assert(output.rows[i].subrange(b, c) == log_scales.rows[i]);
        assert(output.rows[i].subrange(c, width) == input.rows[i].subrange(c, width));
    }
    assert(output.columns(0, 3) == means);
    assert(output.columns(7, 10) == log_scales);
}

/// Raising the degree keeps every coefficient: lowering it again gives back
/// what was there.
pub proof fn law_raised_degree_can_be_lowered(cells: Table, per_splat: nat, channels: nat, count: nat)
    requires
        cells.wf(),
        cells.width == per_splat * channels,
        per_splat <= count,
    ensures
        resized(resized(cells, per_splat, channels, count), count, channels, per_splat) == cells,
{
    let raised = resized(cells, per_splat, channels, count);
    let back = resized(raised, count, channels, per_splat);
    assert forall|i: int| 0 <= i < cells.rows.len() implies #[trigger] back.rows[i] == cells.rows[i] by {
        assert(raised.rows[i].subrange(0, cells.width as int) == cells.rows[i]);
    }
    assert(back == cells);
}

/// Setting a degree that is already set changes nothing.
pub proof fn law_degree_is_set_once(cells: Table, channels: nat, count: nat)
    requires
        cells.wf(),
        cells.width == count * channels,
    ensures
        resized(cells, count, channels, count) == cells,
{
    let same = resized(cells, count, channels, count);
    assert forall|i: int| 0 <= i < cells.rows.len() implies #[trigger] same.rows[i] == cells.rows[i] by {
        assert(cells.rows[i].subrange(0, cells.width as int) == cells.rows[i]);
    }
    assert(same == cells);
}

/// The degree that was set is the degree that is read.
pub proof fn law_set_degree_is_read(splats: Splats, set: u32, read: u32)
    requires
        coeffs_of_degree(set as nat) <= u32::MAX,
        splats.sh_coeffs.value.per_splat == coeffs_of_degree(set as nat),
        splats.sh_coeffs.value.per_splat as u32 == coeffs_of_degree(read as nat),
    ensures
        read == set,
{
    law_degree_is_read_back(set as nat, read as nat);
}

/// Where each computation has one result alone, splats come to one thing.
proof fn lemma_comes_to_one<M: SplatMath>(
    splats: &Splats,
    math: &M,
    one: (Table, Seq<u32>),
    other: (Table, Seq<u32>),
)
    requires
        keeps_shapes(math),
        has_one_result(math),
        splats.comes_to(math, one.0, one.1),
        splats.comes_to(math, other.0, other.1),
    ensures
        one == other,
{
    if let Some(floor) = splats.min_scale {
        law_folding_has_one_result(
            math,
            splats.transforms.value@,
            splats.raw_opacities.value@,
            floor@,
            one,
            other,
        );
    }
}

/// Where each computation has one result alone, splats have one set of scales
/// and one of opacities.
pub proof fn lemma_real_sizes_are_one<M: SplatMath>(
    splats: &Splats,
    math: &M,
    scales: (Table, Table),
    opacities: (Seq<u32>, Seq<u32>),
)
    requires
        keeps_shapes(math),
        has_one_result(math),
        real_scales(splats, math, scales.0),
        real_scales(splats, math, scales.1),
        real_opacities(splats, math, opacities.0),
        real_opacities(splats, math, opacities.1),
    ensures
        scales.0 == scales.1,
        opacities.0 == opacities.1,
{
    let one = choose|t: Table, o: Seq<u32>|
        #[trigger] splats.comes_to(math, t, o) && exponentiated(math, t.columns(7, 10), scales.0);
    let other = choose|t: Table, o: Seq<u32>|
        #[trigger] splats.comes_to(math, t, o) && exponentiated(math, t.columns(7, 10), scales.1);
    lemma_comes_to_one(splats, math, one, other);
    let one = choose|t: Table, o: Seq<u32>|
        #[trigger] splats.comes_to(math, t, o) && activated(math, o, opacities.0);
    let other = choose|t: Table, o: Seq<u32>|
        #[trigger] splats.comes_to(math, t, o) && activated(math, o, opacities.1);
    lemma_comes_to_one(splats, math, one, other);
}

/// Baked splats have no scales, no opacities and nothing to be drawn from that
/// the splats might not have had before.
pub proof fn law_baking_adds_nothing<M: SplatMath>(
    splats: Splats,
    baked: Splats,
    math: &M,
    scales: Table,
    opacities: Seq<u32>,
    splat_scale: Option<u32>,
    drawn: (Table, Seq<u32>),
)
    requires
        splats.bakes_to(math, baked),
    ensures
        real_scales(&baked, math, scales) ==> real_scales(&splats, math, scales),
        real_opacities(&baked, math, opacities) ==> real_opacities(&splats, math, opacities),
        drawn_from(&baked, math, splat_scale, drawn.0, drawn.1) ==> drawn_from(
            &splats,
            math,
            splat_scale,
            drawn.0,
            drawn.1,
        ),
{
}

/// Splats render as before after their scale floor has been folded in for
/// good: they have the same scales and the same opacities, and they are drawn
/// from the same transforms and raw opacities at any splat scale. Arithmetic
/// that may answer differently each time could tell any two renders apart, so
/// each computation is to have one result.
pub proof fn law_baked_splats_render_as_before<M: SplatMath>(
    splats: Splats,
    baked: Splats,
    math: &M,
    scales: (Table, Table),
    opacities: (Seq<u32>, Seq<u32>),
    splat_scale: Option<u32>,
    drawn: ((Table, Seq<u32>), (Table, Seq<u32>)),
)
    requires
        keeps_shapes(math),
        has_one_result(math),
        splats.bakes_to(math, baked),
    ensures
        real_scales(&splats, math, scales.0) && real_scales(&baked, math, scales.1) ==> scales.0 == scales.1,
        real_opacities(&splats, math, opacities.0) && real_opacities(&baked, math, opacities.1) ==> opacities.0
            == opacities.1,
        drawn_from(&splats, math, splat_scale, drawn.0.0, drawn.0.1) && drawn_from(
            &baked,
            math,
            splat_scale,
            drawn.1.0,
            drawn.1.1,
        ) ==> drawn.0 == drawn.1,
{
    let held = (baked.transforms.value@, baked.raw_opacities.value@);
    if real_scales(&splats, math, scales.0) && real_scales(&baked, math, scales.1) {
        let (t, o) = choose|t: Table, o: Seq<u32>|
            #[trigger] splats.comes_to(math, t, o) && exponentiated(math, t.columns(7, 10), scales.0);
        lemma_comes_to_one(&splats, math, (t, o), held);
        assert(exponentiated(math, held.0.columns(7, 10), scales.1));
        assert(scales.0 == scales.1);
    }
    if real_opacities(&splats, math, opacities.0) && real_opacities(&baked, math, opacities.1) {
        let (t, o) = choose|t: Table, o: Seq<u32>|
            #[trigger] splats.comes_to(math, t, o) && activated(math, o, opacities.0);
        lemma_comes_to_one(&splats, math, (t, o), held);
        assert(activated(math, held.1, opacities.1));
    }
    if drawn_from(&splats, math, splat_scale, drawn.0.0, drawn.0.1) && drawn_from(
        &baked,
        math,
        splat_scale,
        drawn.1.0,
        drawn.1.1,
    ) {
        let t = choose|t: Table|
            #[trigger] splats.comes_to(math, t, drawn.0.1) && drawn_as(math, t, splat_scale, drawn.0.0);
        lemma_comes_to_one(&splats, math, (t, drawn.0.1), held);
        assert(drawn_as(math, held.0, splat_scale, drawn.1.0));
        assert(drawn.0.0 == drawn.1.0);
    }
}

/// Baking leaves the means and the rotations as they are, and baking again
/// changes nothing: a floor is never folded in twice.
pub proof fn law_baking_is_done_once<M: SplatMath>(splats: Splats, baked: Splats, again: Splats, math: &M)
    requires
        keeps_shapes(math),
        splats.wf(),
        splats.bakes_to(math, baked),
        baked.bakes_to(math, again),
    ensures
        again == baked,
        baked.transforms.value@.columns(0, 7) == splats.transforms.value@.columns(0, 7),
{
    lemma_rows_are_full(&splats.transforms.value);
    if let Some(floor) = splats.min_scale {
        law_folding_changes_scales_alone(
            math,
            splats.transforms.value@,
            splats.raw_opacities.value@,
            floor@,
            baked.transforms.value@,
            baked.raw_opacities.value@,
        );
    }
}

/// A splat scale changes the scales alone: whatever splats are drawn from at
/// some scale, they may be drawn from without one, with the same opacities,
/// means and rotations; and the logarithm of the scale is added to the log
/// scales that have a floor folded in already.
pub proof fn law_splat_scale_changes_scales_alone<M: SplatMath>(
    splats: Splats,
    math: &M,
    scale: u32,
    transforms: Table,
    raw_opacities: Seq<u32>,
) -> (plain: Table)
    requires
        keeps_shapes(math),
        splats.wf(),
        drawn_from(&splats, math, Some(scale), transforms, raw_opacities),
    ensures
        drawn_from(&splats, math, None, plain, raw_opacities),
        transforms.same_shape(plain),
        transforms.columns(0, 7) == plain.columns(0, 7),
        transforms.columns(10, plain.width as int) == plain.columns(10, plain.width as int),
        exists|ln: u32|
            #[trigger] call_ensures(M::ln, (math, scale), ln) && shifted(
                math,
                plain.columns(7, 10),
                ln,
                transforms.columns(7, 10),
            ),
{
    let plain = choose|t: Table|
        #[trigger] splats.comes_to(math, t, raw_opacities) && drawn_as(math, t, Some(scale), transforms);
    lemma_rows_are_full(&splats.transforms.value);
    if let Some(floor) = splats.min_scale {
        law_folding_changes_scales_alone(
            math,
            splats.transforms.value@,
            splats.raw_opacities.value@,
            floor@,
            plain,
            raw_opacities,
        );
    }
    let (ln, log_scales) = choose|ln: u32, log_scales: Table|
        call_ensures(M::ln, (math, scale), ln) && #[trigger] shifted(math, plain.columns(7, 10), ln, log_scales)
            && transforms == plain.with_columns(7, log_scales);
    let (x, y) = choose|x: Matrix, y: Matrix|
        x.wf() && x@ == plain.columns(7, 10) && y@ == log_scales && #[trigger] call_ensures(M::plus, (math, &x, ln), y);
    lemma_rows_are_full(&y);
    assert(x@.same_shape(y@));
    let (start, end, width) = (plain.clip(7), plain.clip(10), plain.width as int);
    assert forall|i: int| 0 <= i < plain.rows.len() implies {
        &&& (#[trigger] transforms.rows[i]).subrange(0, start) == plain.rows[i].subrange(0, start)
        &&& transforms.rows[i].subrange(start, end) == log_scales.rows[i]
        &&& transforms.rows[i].subrange(end, width) == plain.rows[i].subrange(end, width)
    } by {
        assert(plain.rows[i].len() == width && log_scales.rows[i].len() == end - start);
        assert(transforms.rows[i].subrange(0, start) == plain.rows[i].subrange(0, start));
        assert(transforms.rows[i].subrange(start, end) == log_scales.rows[i]);
        assert(transforms.rows[i].subrange(end, width) == plain.rows[i].subrange(end, width));
    }
    assert(transforms.columns(0, 7) == plain.columns(0, 7));
    assert(transforms.columns(7, 10) == log_scales);
    assert(transforms.columns(10, width) == plain.columns(10, width));
    assert(drawn_as(math, plain, None, plain));
    plain
}

/// As many coefficients as a multiple of three per splat fill a table.
proof fn lemma_coeffs_fill(len: nat, n: nat)
    requires
        n > 0,
        len % (n * 3) == 0,
    ensures
        len / n / 3 == len / (n * 3),
        len == n * ((len / n / 3) * 3),
{
    vstd::arithmetic::div_mod::lemma_div_denominator(len as int, n as int, 3);
    vstd::arithmetic::div_mod::lemma_fundamental_div_mod(len as int, (n * 3) as int);
    let k = len / (n * 3);
    assert((n * 3) * k == n * (k * 3)) by (nonlinear_arith);
}

} // verus!
