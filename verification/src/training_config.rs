//! The configuration of a training run: what a front end asks for, and the
//! stream configuration that it becomes.

use crate::outside::{parse_size, parsed_size};
use crate::size_text::size_is_countable;
use vstd::prelude::*;
use vstd::string::*;

verus! {

/// What a front end asks of a training run. Rates, weights and thresholds are
/// handed on unread, so their types are open: `S` where single precision is
/// enough, `D` where it is not, and `A` for how alpha channels are read.
pub struct TrainingConfig<S, D, A> {
    // Training
    pub total_train_iters: u32,
    pub lr_mean: D,
    pub lr_mean_end: D,
    pub mean_noise_weight: S,
    pub lr_coeffs_dc: D,
    pub lr_coeffs_sh_scale: S,
    pub lr_opac: D,
    pub lr_scale: D,
    pub lr_rotation: D,
    pub ssim_weight: S,
    pub opac_decay: S,
    pub background_color: Vec<S>,
    pub background_noise_strength: S,
    pub random_init_scene_scale: Option<S>,
    // Refinement
    pub max_splats: u32,
    pub refine_every: u32,
    pub growth_grad_threshold: S,
    pub growth_select_fraction: S,
    pub growth_stop_iter: u32,
    pub split_at_screen_size: S,
    pub match_alpha_weight: S,
    pub lpips_loss_weight: S,
    // Levels of detail
    pub lod_levels: u32,
    pub lod_refine_steps: u32,
    pub lod_decimation_keep: u32,
    pub lod_image_scale: u32,
    // Model
    pub sh_degree: u32,
    // Dataset
    pub max_frames: Option<usize>,
    pub max_resolution: u32,
    pub eval_split_every: Option<usize>,
    pub subsample_frames: Option<u32>,
    pub subsample_points: Option<u32>,
    pub alpha_mode: Option<A>,
    /// A size such as `"4 GB"`.
    pub max_scene_batch_cache_size: String,
    // Process
    pub seed: u64,
    pub start_iter: u32,
    pub eval_every: u32,
    pub eval_save_to_disk: bool,
    pub export_every: u32,
    /// A directory, or nothing for the default one.
    pub export_path: String,
    pub export_name: String,
}

/// How splats are trained, refined and thinned out.
pub struct TrainConfig<S, D> {
    pub total_train_iters: u32,
    pub lr_mean: D,
    pub lr_mean_end: D,
    pub mean_noise_weight: S,
    pub lr_coeffs_dc: D,
    pub lr_coeffs_sh_scale: S,
    pub lr_opac: D,
    pub lr_scale: D,
    pub lr_rotation: D,
    pub ssim_weight: S,
    pub opac_decay: S,
    pub background_color: Vec<S>,
    pub background_noise_strength: S,
    pub random_init_scene_scale: Option<S>,
    pub max_splats: u32,
    pub refine_every: u32,
    pub growth_grad_threshold: S,
    pub growth_select_fraction: S,
    pub growth_stop_iter: u32,
    pub split_at_screen_size: S,
    pub match_alpha_weight: S,
    pub lpips_loss_weight: S,
    pub lod_levels: u32,
    pub lod_refine_steps: u32,
    pub lod_decimation_keep: u32,
    pub lod_image_scale: u32,
}

/// The model that is trained.
pub struct ModelConfig {
    pub sh_degree: u32,
}

/// How the dataset is read.
pub struct LoadConfig<A> {
    pub max_frames: Option<usize>,
    pub max_resolution: u32,
    pub eval_split_every: Option<usize>,
    pub subsample_frames: Option<u32>,
    pub subsample_points: Option<u32>,
    pub alpha_mode: Option<A>,
    pub max_scene_batch_cache_size: u64,
}

/// What the process around the training does.
pub struct ProcessConfig {
    pub seed: u64,
    pub start_iter: u32,
    pub eval_every: u32,
    pub eval_save_to_disk: bool,
    pub export_every: u32,
    pub export_path: String,
    pub export_name: String,
}

/// The configuration that drives a training stream.
pub struct TrainStreamConfig<S, D, A> {
    pub train_config: TrainConfig<S, D>,
    pub model_config: ModelConfig,
    pub load_config: LoadConfig<A>,
    pub process_config: ProcessConfig,
}

/// A directory as it is written in front of a file name: it ends in a
/// separator.
pub open spec fn directory_prefix(path: Seq<char>) -> Seq<char> {
    if path.len() > 0 && (path.last() == '/' || path.last() == '\\') {
        path
    } else {
        path.push('/')
    }
}

/// Where exports go: the default where no directory is asked for.
pub open spec fn export_directory(asked: Seq<char>, default_path: Seq<char>) -> Seq<char> {
    if asked.len() == 0 {
        default_path
    } else {
        directory_prefix(asked)
    }
}

/// The directory that exports go to.
pub fn export_path(asked: String, default_path: String) -> (path: String)
    ensures
        path@ == export_directory(asked@, default_path@),
{
    let len: usize = asked.as_str().unicode_len();
    if len == 0 {
        return default_path;
    }
    let last: char = asked.as_str().get_char(len - 1);
    let mut path = asked;
    if last != '/' && last != '\\' {
        path.append("/");
        proof {
            reveal_strlit("/");
            assert(path@ == asked@.push('/'));
        }
    }
    path
}

/// The cache budget: the default where the size that was asked for does not
/// read as one.
pub fn cache_budget(parsed: Option<u64>, default_budget: u64) -> (budget: u64)
    ensures
        budget == match parsed {
            Some(bytes) => bytes,
            None => default_budget,
        },
{
    match parsed {
        Some(bytes) => bytes,
        None => default_budget,
    }
}

impl<S, D, A> TrainingConfig<S, D, A> {
    /// Whether `stream` has the training, refinement and detail options asked
    /// for here.
    pub open spec fn sets_training(&self, stream: TrainConfig<S, D>) -> bool {
        &&& stream.total_train_iters == self.total_train_iters
        &&& stream.lr_mean == self.lr_mean
        &&& stream.lr_mean_end == self.lr_mean_end
        &&& stream.mean_noise_weight == self.mean_noise_weight
        &&& stream.lr_coeffs_dc == self.lr_coeffs_dc
        &&& stream.lr_coeffs_sh_scale == self.lr_coeffs_sh_scale
        &&& stream.lr_opac == self.lr_opac
        &&& stream.lr_scale == self.lr_scale
        &&& stream.lr_rotation == self.lr_rotation
        &&& stream.ssim_weight == self.ssim_weight
        &&& stream.opac_decay == self.opac_decay
        &&& stream.background_color == self.background_color
        &&& stream.background_noise_strength == self.background_noise_strength
        &&& stream.random_init_scene_scale == self.random_init_scene_scale
        &&& stream.max_splats == self.max_splats
        &&& stream.refine_every == self.refine_every
        &&& stream.growth_grad_threshold == self.growth_grad_threshold
        &&& stream.growth_select_fraction == self.growth_select_fraction
        &&& stream.growth_stop_iter == self.growth_stop_iter
        &&& stream.split_at_screen_size == self.split_at_screen_size
        &&& stream.match_alpha_weight == self.match_alpha_weight
        &&& stream.lpips_loss_weight == self.lpips_loss_weight
        &&& stream.lod_levels == self.lod_levels
        &&& stream.lod_refine_steps == self.lod_refine_steps
        &&& stream.lod_decimation_keep == self.lod_decimation_keep
        &&& stream.lod_image_scale == self.lod_image_scale
    }

    /// Whether `stream` has the dataset options asked for here, but for the
    /// cache budget.
    pub open spec fn sets_loading(&self, stream: LoadConfig<A>) -> bool {
        &&& stream.max_frames == self.max_frames
        &&& stream.max_resolution == self.max_resolution
        &&& stream.eval_split_every == self.eval_split_every
        &&& stream.subsample_frames == self.subsample_frames
        &&& stream.subsample_points == self.subsample_points
        &&& stream.alpha_mode == self.alpha_mode
    }

    /// Whether `stream` has the process options asked for here, but for the
    /// export directory.
    pub open spec fn sets_process(&self, stream: ProcessConfig) -> bool {
        &&& stream.seed == self.seed
        &&& stream.start_iter == self.start_iter
        &&& stream.eval_every == self.eval_every
        &&& stream.eval_save_to_disk == self.eval_save_to_disk
        &&& stream.export_every == self.export_every
        &&& stream.export_name == self.export_name
    }

    /// Whether `stream` is this configuration over the given defaults, where
    /// the cache size that was asked for reads as `parsed`. The defaults show
    /// in two places alone: the cache budget where the size does not read as
    /// one, and the export directory where none is asked for.
    pub open spec fn becomes(
        &self,
        defaults: TrainStreamConfig<S, D, A>,
        parsed: Option<u64>,
        stream: TrainStreamConfig<S, D, A>,
    ) -> bool {
        &&& self.sets_training(stream.train_config)
        &&& stream.model_config.sh_degree == self.sh_degree
        &&& self.sets_loading(stream.load_config)
        &&& stream.load_config.max_scene_batch_cache_size == match parsed {
            Some(bytes) => bytes,
            None => defaults.load_config.max_scene_batch_cache_size,
        }
        &&& self.sets_process(stream.process_config)
        &&& stream.process_config.export_path@ == export_directory(
            self.export_path@,
            defaults.process_config.export_path@,
        )
    }

    /// The stream configuration, where the cache size has been read already.
    pub fn stream_config(self, defaults: TrainStreamConfig<S, D, A>, parsed: Option<u64>) -> (stream: TrainStreamConfig<S, D, A>)
        ensures
            self.becomes(defaults, parsed, stream),
            stream.train_config.total_train_iters == self.total_train_iters,
            stream.train_config.lr_mean == self.lr_mean,
            stream.train_config.lr_mean_end == self.lr_mean_end,
            stream.train_config.mean_noise_weight == self.mean_noise_weight,
            stream.train_config.lr_coeffs_dc == self.lr_coeffs_dc,
            stream.train_config.lr_coeffs_sh_scale == self.lr_coeffs_sh_scale,
            stream.train_config.lr_opac == self.lr_opac,
            stream.train_config.lr_scale == self.lr_scale,
            stream.train_config.lr_rotation == self.lr_rotation,
            stream.train_config.ssim_weight == self.ssim_weight,
            stream.train_config.opac_decay == self.opac_decay,
            stream.train_config.background_color == self.background_color,
            stream.train_config.background_noise_strength == self.background_noise_strength,
            stream.train_config.random_init_scene_scale == self.random_init_scene_scale,
            stream.train_config.max_splats == self.max_splats,
            stream.train_config.refine_every == self.refine_every,
            stream.train_config.growth_grad_threshold == self.growth_grad_threshold,
            stream.train_config.growth_select_fraction == self.growth_select_fraction,
            stream.train_config.growth_stop_iter == self.growth_stop_iter,
            stream.train_config.split_at_screen_size == self.split_at_screen_size,
            stream.train_config.match_alpha_weight == self.match_alpha_weight,
            stream.train_config.lpips_loss_weight == self.lpips_loss_weight,
            stream.train_config.lod_levels == self.lod_levels,
            stream.train_config.lod_refine_steps == self.lod_refine_steps,
            stream.train_config.lod_decimation_keep == self.lod_decimation_keep,
            stream.train_config.lod_image_scale == self.lod_image_scale,
            stream.model_config.sh_degree == self.sh_degree,
            stream.load_config.max_frames == self.max_frames,
            stream.load_config.max_resolution == self.max_resolution,
            stream.load_config.eval_split_every == self.eval_split_every,
            stream.load_config.subsample_frames == self.subsample_frames,
            stream.load_config.subsample_points == self.subsample_points,
            stream.load_config.alpha_mode == self.alpha_mode,
            stream.process_config.seed == self.seed,
            stream.process_config.start_iter == self.start_iter,
            stream.process_config.eval_every == self.eval_every,
            stream.process_config.eval_save_to_disk == self.eval_save_to_disk,
            stream.process_config.export_every == self.export_every,
            stream.process_config.export_name == self.export_name,
    {
        TrainStreamConfig {
            train_config: TrainConfig {
                total_train_iters: self.total_train_iters,
                lr_mean: self.lr_mean,
                lr_mean_end: self.lr_mean_end,
                mean_noise_weight: self.mean_noise_weight,
                lr_coeffs_dc: self.lr_coeffs_dc,
                lr_coeffs_sh_scale: self.lr_coeffs_sh_scale,
                lr_opac: self.lr_opac,
                lr_scale: self.lr_scale,
                lr_rotation: self.lr_rotation,
                ssim_weight: self.ssim_weight,
                opac_decay: self.opac_decay,
                background_color: self.background_color,
                background_noise_strength: self.background_noise_strength,
                random_init_scene_scale: self.random_init_scene_scale,
                max_splats: self.max_splats,
                refine_every: self.refine_every,
                growth_grad_threshold: self.growth_grad_threshold,
                growth_select_fraction: self.growth_select_fraction,
                growth_stop_iter: self.growth_stop_iter,
                split_at_screen_size: self.split_at_screen_size,
                match_alpha_weight: self.match_alpha_weight,
                lpips_loss_weight: self.lpips_loss_weight,
                lod_levels: self.lod_levels,
                lod_refine_steps: self.lod_refine_steps,
                lod_decimation_keep: self.lod_decimation_keep,
                lod_image_scale: self.lod_image_scale,
            },
            model_config: ModelConfig { sh_degree: self.sh_degree },
            load_config: LoadConfig {
                max_frames: self.max_frames,
                max_resolution: self.max_resolution,
                eval_split_every: self.eval_split_every,
                subsample_frames: self.subsample_frames,
                subsample_points: self.subsample_points,
                alpha_mode: self.alpha_mode,
                max_scene_batch_cache_size: cache_budget(
                    parsed,
                    defaults.load_config.max_scene_batch_cache_size,
                ),
            },
            process_config: ProcessConfig {
                seed: self.seed,
                start_iter: self.start_iter,
                eval_every: self.eval_every,
                eval_save_to_disk: self.eval_save_to_disk,
                export_every: self.export_every,
                export_path: export_path(self.export_path, defaults.process_config.export_path),
                export_name: self.export_name,
            },
        }
    }

    /// The stream configuration that this becomes over the given defaults,
    /// and whether the cache size that was asked for was read.
    pub fn into_stream_config(self, defaults: TrainStreamConfig<S, D, A>) -> (stream: (TrainStreamConfig<S, D, A>, bool))
        requires
            size_is_countable(self.max_scene_batch_cache_size@),
        ensures
            self.becomes(defaults, parsed_size(self.max_scene_batch_cache_size@), stream.0),
            stream.1 == (parsed_size(self.max_scene_batch_cache_size@) is Some),
            stream.0.train_config.total_train_iters == self.total_train_iters,
            stream.0.train_config.lr_mean == self.lr_mean,
            stream.0.train_config.lr_mean_end == self.lr_mean_end,
            stream.0.train_config.mean_noise_weight == self.mean_noise_weight,
            stream.0.train_config.lr_coeffs_dc == self.lr_coeffs_dc,
            stream.0.train_config.lr_coeffs_sh_scale == self.lr_coeffs_sh_scale,
            stream.0.train_config.lr_opac == self.lr_opac,
            stream.0.train_config.lr_scale == self.lr_scale,
            stream.0.train_config.lr_rotation == self.lr_rotation,
            stream.0.train_config.ssim_weight == self.ssim_weight,
            stream.0.train_config.opac_decay == self.opac_decay,
            stream.0.train_config.background_color == self.background_color,
            stream.0.train_config.background_noise_strength == self.background_noise_strength,
            stream.0.train_config.random_init_scene_scale == self.random_init_scene_scale,
            stream.0.train_config.max_splats == self.max_splats,
            stream.0.train_config.refine_every == self.refine_every,
            stream.0.train_config.growth_grad_threshold == self.growth_grad_threshold,
            stream.0.train_config.growth_select_fraction == self.growth_select_fraction,
            stream.0.train_config.growth_stop_iter == self.growth_stop_iter,
            stream.0.train_config.split_at_screen_size == self.split_at_screen_size,
            stream.0.train_config.match_alpha_weight == self.match_alpha_weight,
            stream.0.train_config.lpips_loss_weight == self.lpips_loss_weight,
            stream.0.train_config.lod_levels == self.lod_levels,
            stream.0.train_config.lod_refine_steps == self.lod_refine_steps,
            stream.0.train_config.lod_decimation_keep == self.lod_decimation_keep,
            stream.0.train_config.lod_image_scale == self.lod_image_scale,
            stream.0.model_config.sh_degree == self.sh_degree,
            stream.0.load_config.max_frames == self.max_frames,
            stream.0.load_config.max_resolution == self.max_resolution,
            stream.0.load_config.eval_split_every == self.eval_split_every,
            stream.0.load_config.subsample_frames == self.subsample_frames,
            stream.0.load_config.subsample_points == self.subsample_points,
            stream.0.load_config.alpha_mode == self.alpha_mode,
            stream.0.process_config.seed == self.seed,
            stream.0.process_config.start_iter == self.start_iter,
            stream.0.process_config.eval_every == self.eval_every,
            stream.0.process_config.eval_save_to_disk == self.eval_save_to_disk,
            stream.0.process_config.export_every == self.export_every,
            stream.0.process_config.export_name == self.export_name,
    {
        let parsed = parse_size(self.max_scene_batch_cache_size.as_str());
        let read: bool = parsed.is_some();
        (self.stream_config(defaults, parsed), read)
    }
}

/// An export directory can be written in front of a file name as it is, and
/// asking for it again changes nothing.
pub proof fn law_export_directory_is_settled(asked: Seq<char>, default_path: Seq<char>)
    requires
        asked.len() > 0,
    ensures
        export_directory(asked, default_path).last() == '/' || export_directory(asked, default_path).last() == '\\',
        export_directory(export_directory(asked, default_path), default_path) == export_directory(asked, default_path),
        asked.is_prefix_of(export_directory(asked, default_path)),
{
}

/// Every option is carried over as it was asked for, given or not, whatever
/// the defaults are. The cache budget is the size that was read, and the
/// default where none was.
pub proof fn law_options_are_carried_over<S, D, A>(
    asked: TrainingConfig<S, D, A>,
    defaults: TrainStreamConfig<S, D, A>,
    parsed: Option<u64>,
    stream: TrainStreamConfig<S, D, A>,
    path: String,
    budget: u64,
)
    requires
        call_ensures(TrainingConfig::<S, D, A>::stream_config, (asked, defaults, parsed), stream),
        call_ensures(export_path, (asked.export_path, defaults.process_config.export_path), path),
        call_ensures(cache_budget, (parsed, defaults.load_config.max_scene_batch_cache_size), budget),
    ensures
        stream.train_config.total_train_iters == asked.total_train_iters,
        stream.train_config.lr_mean == asked.lr_mean,
        stream.train_config.lr_mean_end == asked.lr_mean_end,
        stream.train_config.mean_noise_weight == asked.mean_noise_weight,
        stream.train_config.lr_coeffs_dc == asked.lr_coeffs_dc,
        stream.train_config.lr_coeffs_sh_scale == asked.lr_coeffs_sh_scale,
        stream.train_config.lr_opac == asked.lr_opac,
        stream.train_config.lr_scale == asked.lr_scale,
        stream.train_config.lr_rotation == asked.lr_rotation,
        stream.train_config.ssim_weight == asked.ssim_weight,
        stream.train_config.opac_decay == asked.opac_decay,
        stream.train_config.background_color == asked.background_color,
        stream.train_config.background_noise_strength == asked.background_noise_strength,
        stream.train_config.random_init_scene_scale == asked.random_init_scene_scale,
        stream.train_config.max_splats == asked.max_splats,
        stream.train_config.refine_every == asked.refine_every,
        stream.train_config.growth_grad_threshold == asked.growth_grad_threshold,
        stream.train_config.growth_select_fraction == asked.growth_select_fraction,
        stream.train_config.growth_stop_iter == asked.growth_stop_iter,
        stream.train_config.split_at_screen_size == asked.split_at_screen_size,
        stream.train_config.match_alpha_weight == asked.match_alpha_weight,
        stream.train_config.lpips_loss_weight == asked.lpips_loss_weight,
        stream.train_config.lod_levels == asked.lod_levels,
        stream.train_config.lod_refine_steps == asked.lod_refine_steps,
        stream.train_config.lod_decimation_keep == asked.lod_decimation_keep,
        stream.train_config.lod_image_scale == asked.lod_image_scale,
        stream.model_config.sh_degree == asked.sh_degree,
        stream.load_config.max_frames == asked.max_frames,
        stream.load_config.max_resolution == asked.max_resolution,
        stream.load_config.eval_split_every == asked.eval_split_every,
        stream.load_config.subsample_frames == asked.subsample_frames,
        stream.load_config.subsample_points == asked.subsample_points,
        stream.load_config.alpha_mode == asked.alpha_mode,
        stream.process_config.seed == asked.seed,
        stream.process_config.start_iter == asked.start_iter,
        stream.process_config.eval_every == asked.eval_every,
        stream.process_config.eval_save_to_disk == asked.eval_save_to_disk,
        stream.process_config.export_every == asked.export_every,
        stream.process_config.export_name == asked.export_name,
        stream.process_config.export_path@ == path@,
        stream.load_config.max_scene_batch_cache_size == budget,
        parsed matches Some(bytes) ==> stream.load_config.max_scene_batch_cache_size == bytes,
        parsed is None ==> stream.load_config.max_scene_batch_cache_size
            == defaults.load_config.max_scene_batch_cache_size,
        asked.export_path@.len() == 0 ==> stream.process_config.export_path@ == defaults.process_config.export_path@,
        asked.export_path@.len() > 0 ==> asked.export_path@.is_prefix_of(stream.process_config.export_path@),
{
}

/// Configurations that differ in an option become different streams: from a
/// stream that two of them become, each option of the one is that of the other.
pub proof fn law_different_options_make_different_streams<S, D, A>(
    one: TrainingConfig<S, D, A>,
    other: TrainingConfig<S, D, A>,
    defaults: TrainStreamConfig<S, D, A>,
    parsed: Option<u64>,
    other_parsed: Option<u64>,
    stream: TrainStreamConfig<S, D, A>,
)
    requires
        call_ensures(TrainingConfig::<S, D, A>::stream_config, (one, defaults, parsed), stream),
        call_ensures(TrainingConfig::<S, D, A>::stream_config, (other, defaults, other_parsed), stream),
    ensures
        one.total_train_iters == other.total_train_iters,
        one.lr_mean == other.lr_mean,
        one.lr_mean_end == other.lr_mean_end,
        one.mean_noise_weight == other.mean_noise_weight,
        one.lr_coeffs_dc == other.lr_coeffs_dc,
        one.lr_coeffs_sh_scale == other.lr_coeffs_sh_scale,
        one.lr_opac == other.lr_opac,
        one.lr_scale == other.lr_scale,
        one.lr_rotation == other.lr_rotation,
        one.ssim_weight == other.ssim_weight,
        one.opac_decay == other.opac_decay,
        one.background_color == other.background_color,
        one.background_noise_strength == other.background_noise_strength,
        one.random_init_scene_scale == other.random_init_scene_scale,
        one.max_splats == other.max_splats,
        one.refine_every == other.refine_every,
        one.growth_grad_threshold == other.growth_grad_threshold,
        one.growth_select_fraction == other.growth_select_fraction,
        one.growth_stop_iter == other.growth_stop_iter,
        one.split_at_screen_size == other.split_at_screen_size,
        one.match_alpha_weight == other.match_alpha_weight,
        one.lpips_loss_weight == other.lpips_loss_weight,
        one.lod_levels == other.lod_levels,
        one.lod_refine_steps == other.lod_refine_steps,
        one.lod_decimation_keep == other.lod_decimation_keep,
        one.lod_image_scale == other.lod_image_scale,
        one.sh_degree == other.sh_degree,
        one.max_frames == other.max_frames,
        one.max_resolution == other.max_resolution,
        one.eval_split_every == other.eval_split_every,
        one.subsample_frames == other.subsample_frames,
        one.subsample_points == other.subsample_points,
        one.alpha_mode == other.alpha_mode,
        one.seed == other.seed,
        one.start_iter == other.start_iter,
        one.eval_every == other.eval_every,
        one.eval_save_to_disk == other.eval_save_to_disk,
        one.export_every == other.export_every,
        one.export_name == other.export_name,
        parsed is Some && other_parsed is Some ==> parsed == other_parsed,
{
}

/// A configuration becomes the same stream with its cache size read from its
/// text as with the size that the text reads as, and it is told whether it
/// read as one.
pub proof fn law_cache_size_is_read_from_its_text<S, D, A>(
    asked: TrainingConfig<S, D, A>,
    defaults: TrainStreamConfig<S, D, A>,
    read: (TrainStreamConfig<S, D, A>, bool),
    stream: TrainStreamConfig<S, D, A>,
)
    requires
        size_is_countable(asked.max_scene_batch_cache_size@),
        call_ensures(TrainingConfig::<S, D, A>::into_stream_config, (asked, defaults), read),
        call_ensures(
            TrainingConfig::<S, D, A>::stream_config,
            (asked, defaults, parsed_size(asked.max_scene_batch_cache_size@)),
            stream,
        ),
    ensures
        read.0.train_config == stream.train_config,
        read.0.model_config == stream.model_config,
        read.0.load_config == stream.load_config,
        read.0.process_config.export_path@ == stream.process_config.export_path@,
        read.0.process_config.seed == stream.process_config.seed,
        read.0.process_config.start_iter == stream.process_config.start_iter,
        read.0.process_config.eval_every == stream.process_config.eval_every,
        read.0.process_config.eval_save_to_disk == stream.process_config.eval_save_to_disk,
        read.0.process_config.export_every == stream.process_config.export_every,
        read.0.process_config.export_name == stream.process_config.export_name,
        read.1 <==> parsed_size(asked.max_scene_batch_cache_size@) is Some,
        read.1 ==> Some(read.0.load_config.max_scene_batch_cache_size) == parsed_size(
            asked.max_scene_batch_cache_size@,
        ),
        !read.1 ==> read.0.load_config.max_scene_batch_cache_size == defaults.load_config.max_scene_batch_cache_size,
{
}

/// The export directory that is asked for is what is used, with a separator
/// behind it where it has none, and nothing else; the default is used as it is
/// where none is asked for.
pub proof fn law_export_path_is_what_is_asked_for(asked: String, default_path: String, path: String)
    requires
        call_ensures(export_path, (asked, default_path), path),
    ensures
        asked@.len() == 0 ==> path@ == default_path@,
        asked@.len() > 0 ==> {
            &&& asked@.is_prefix_of(path@)
            &&& path@.last() == '/' || path@.last() == '\\'
            &&& path@.len() <= asked@.len() + 1
            &&& asked@.last() == '/' || asked@.last() == '\\' ==> path@ == asked@
            &&& path@.len() > asked@.len() ==> path@.last() == '/'
        },
{
}

/// A size that was read is the budget, whatever the default; and the default is
/// the budget where none was read.
pub proof fn law_read_size_is_the_budget(parsed: Option<u64>, default_budget: u64, budget: u64)
    requires
        call_ensures(cache_budget, (parsed, default_budget), budget),
    ensures
        parsed is Some ==> parsed == Some(budget),
        parsed is None ==> budget == default_budget,
{
}

} // verus!
