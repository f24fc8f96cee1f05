use brush::engine::{
    step_is_reported, EngineMessage, MemoryUse, Report, StartAction, StartError, StartEvent,
    StartRequest,
};
use brush::file_picker::{
    picked_file, picker_answer, pick_step, PickAction, PickError, PickErrorKind, PickEvent,
};
use brush::sh::{sh_coeffs_for_degree, sh_degree_from_coeffs};
use brush::size_text::can_count_size;
use brush::training_config::{
    cache_budget, export_path, LoadConfig, ModelConfig, ProcessConfig, TrainConfig,
    TrainStreamConfig, TrainingConfig,
};

fn text(text: &str) -> StartEvent {
    StartEvent::ConfigText {
        text: text.to_owned(),
    }
}

#[test]
fn a_run_starts_from_a_descriptor() {
    let mut request = StartRequest::from_descriptor();
    assert!(matches!(
        request.advance(StartEvent::Descriptor { fd: 3 }),
        StartAction::AdoptDescriptor { fd: 3 }
    ));
    match request.advance(text("{}")) {
        StartAction::ParseConfig { text } => assert_eq!(text, "{}"),
        _ => panic!("the configuration is parsed"),
    }
    assert!(matches!(
        request.advance(StartEvent::Config { well_formed: true }),
        StartAction::FetchData
    ));
    match request.advance(StartEvent::Data {
        bytes: Some(vec![1, 2]),
    }) {
        StartAction::Run { bytes } => assert_eq!(bytes, [1, 2]),
        _ => panic!("the run starts"),
    }
}

#[test]
fn each_failed_check_refuses_the_run() {
    let mut request = StartRequest::from_descriptor();
    assert!(matches!(
        request.advance(StartEvent::Descriptor { fd: -1 }),
        StartAction::Refuse {
            error: StartError::InvalidDescriptor { fd: -1 }
        }
    ));

    let mut request = StartRequest::from_buffer();
    assert!(matches!(
        request.advance(text("")),
        StartAction::Refuse {
            error: StartError::EmptyConfig
        }
    ));

    let mut request = StartRequest::from_buffer();
    request.advance(text("{"));
    assert!(matches!(
        request.advance(StartEvent::Config { well_formed: false }),
        StartAction::Refuse {
            error: StartError::MalformedConfig
        }
    ));

    let mut request = StartRequest::from_descriptor();
    request.advance(StartEvent::Descriptor { fd: 0 });
    request.advance(text("{}"));
    request.advance(StartEvent::Config { well_formed: true });
    assert!(matches!(
        request.advance(StartEvent::Data { bytes: None }),
        StartAction::Refuse {
            error: StartError::UnreadableData
        }
    ));
}

#[test]
fn an_empty_dataset_is_refused_from_a_buffer_alone() {
    let mut request = StartRequest::from_buffer();
    request.advance(text("{}"));
    request.advance(StartEvent::Config { well_formed: true });
    assert!(matches!(
        request.advance(StartEvent::Data {
            bytes: Some(Vec::new())
        }),
        StartAction::Refuse {
            error: StartError::EmptyData
        }
    ));

    let mut request = StartRequest::from_descriptor();
    request.advance(StartEvent::Descriptor { fd: 0 });
    request.advance(text("{}"));
    request.advance(StartEvent::Config { well_formed: true });
    assert!(matches!(
        request.advance(StartEvent::Data {
            bytes: Some(Vec::new())
        }),
        StartAction::Run { .. }
    ));
}

type Message = EngineMessage<u64, f32>;

fn step(iter: u32) -> Message {
    EngineMessage::TrainStep {
        iter,
        total_elapsed: 5,
    }
}

#[test]
fn the_first_step_and_every_hundredth_are_reported() {
    let reported: Vec<u32> = (0..=250).filter(|i| step_is_reported(*i)).collect();
    assert_eq!(reported, [0, 1, 100, 200]);
    let (report, goes_on) = step(2).handle(900, None);
    assert!(report.is_none() && goes_on);
    let memory = Some(MemoryUse {
        physical: 3 * 1024 * 1024 - 1,
        virtual_: 5 * 1024 * 1024,
    });
    match step(100).handle(900, memory) {
        (
            Some(Report::Step {
                iter: 100,
                total_iters: 900,
                elapsed: 5,
                memory_mib,
            }),
            true,
        ) => assert_eq!(memory_mib, Some((2, 5))),
        _ => panic!("the step is reported"),
    }
    assert!(matches!(
        step(1).handle(900, None).0,
        Some(Report::Step {
            memory_mib: None,
            ..
        })
    ));
}

#[test]
fn only_a_broken_stream_ends_the_run() {
    let messages: Vec<Message> = vec![
        EngineMessage::NewProcess,
        EngineMessage::StartLoading {
            name: "scene".to_owned(),
            training: true,
        },
        EngineMessage::SplatsUpdated {
            num_splats: 1,
            frame: 2,
            total_frames: 3,
        },
        EngineMessage::RefineStep {
            cur_splat_count: 4,
            iter: 5,
        },
        EngineMessage::EvalResult {
            iter: 6,
            avg_psnr: 7.0,
            avg_ssim: 8.0,
        },
        EngineMessage::Dataset {
            train_views: 9,
            eval_views: None,
        },
        EngineMessage::DoneTraining,
        EngineMessage::OtherTraining,
        EngineMessage::DoneLoading,
        EngineMessage::Warning {
            error: "odd".to_owned(),
        },
    ];
    let mut reports = Vec::new();
    for message in messages {
        let (report, goes_on) = message.handle(0, None);
        assert!(goes_on);
        reports.push(report);
    }
    assert!(matches!(reports[0], Some(Report::Started)));
    assert!(
        matches!(&reports[1], Some(Report::Loading { name, training: true }) if name == "scene")
    );
    assert!(matches!(
        reports[2],
        Some(Report::Splats {
            num_splats: 1,
            frame: 2,
            total_frames: 3
        })
    ));
    assert!(matches!(
        reports[3],
        Some(Report::Refined { iter: 5, splats: 4 })
    ));
    match reports[4] {
        Some(Report::Evaluated { iter, psnr, ssim }) => {
            assert_eq!((iter, psnr, ssim), (6, 7.0, 8.0))
        }
        _ => panic!("the evaluation is reported"),
    }
    assert!(matches!(
        reports[5],
        Some(Report::DatasetLoaded {
            train_views: 9,
            eval_views: 0
        })
    ));
    assert!(matches!(reports[6], Some(Report::TrainingDone)));
    assert!(reports[7].is_none());
    assert!(matches!(reports[8], Some(Report::LoadingDone)));
    assert!(matches!(&reports[9], Some(Report::Warned { error }) if error == "odd"));

    let broken: Message = EngineMessage::Broken {
        error: "gone".to_owned(),
    };
    match broken.handle(0, None) {
        (Some(Report::Failed { error }), false) => assert_eq!(error, "gone"),
        _ => panic!("a broken stream ends the run"),
    }
}

#[test]
fn a_picked_file_reaches_the_caller() {
    let answer = picker_answer(4, Some("scene.zip".to_owned()));
    assert_eq!(answer, Some((4, "scene.zip".to_owned())));
    assert_eq!(picker_answer(0, None), Some((0, "file".to_owned())));
    assert_eq!(picker_answer(-1, Some("scene.zip".to_owned())), None);
    match picked_file(Some(answer)) {
        Ok((fd, name)) => assert_eq!((fd, name.as_str()), (4, "scene.zip")),
        Err(_) => panic!("a file was picked"),
    }
}

#[test]
fn each_way_of_picking_nothing_has_its_error() {
    let dismissed = picked_file::<i32>(Some(None)).err().unwrap();
    assert!(matches!(dismissed, PickError::NothingSelected));
    assert_eq!(dismissed.kind(), PickErrorKind::NotFound);
    assert_eq!(dismissed.message(), "No file selected");

    let closed = picked_file::<i32>(None).err().unwrap();
    assert!(matches!(closed, PickError::NoAnswer));
    assert_eq!(closed.kind(), PickErrorKind::Other);
    assert_eq!(closed.message(), "Failed to receive file picker result");

    let not_shown = match pick_step::<i32>(PickEvent::Shown {
        failure: Some("no class".to_owned()),
    }) {
        PickAction::Finish { picked } => picked.err().unwrap(),
        PickAction::AwaitAnswer => panic!("there is nothing to wait for"),
    };
    assert_eq!(not_shown.kind(), PickErrorKind::Other);
    assert_eq!(not_shown.message(), "JNI error: no class");

    assert!(matches!(
        pick_step::<i32>(PickEvent::Shown { failure: None }),
        PickAction::AwaitAnswer
    ));
    assert!(matches!(
        pick_step(PickEvent::Received {
            received: Some(Some((9, "a".to_owned())))
        }),
        PickAction::Finish {
            picked: Ok((9, _))
        }
    ));
}

#[test]
fn export_directories_end_in_a_separator() {
    let path = |asked: &str| export_path(asked.to_owned(), "./default".to_owned());
    assert_eq!(path(""), "./default");
    assert_eq!(path("/sdcard"), "/sdcard/");
    assert_eq!(path("/sdcard/"), "/sdcard/");
    assert_eq!(path("C:\\out\\"), "C:\\out\\");
    assert_eq!(path("/"), "/");
    assert_eq!(path(&path("/sdcard/größe")), "/sdcard/größe/");
}

fn defaults() -> TrainStreamConfig<f32, f64, char> {
    TrainStreamConfig {
        train_config: TrainConfig {
            total_train_iters: 0,
            lr_mean: 0.0,
            lr_mean_end: 0.0,
            mean_noise_weight: 0.0,
            lr_coeffs_dc: 0.0,
            lr_coeffs_sh_scale: 0.0,
            lr_opac: 0.0,
            lr_scale: 0.0,
            lr_rotation: 0.0,
            ssim_weight: 0.0,
            opac_decay: 0.0,
            background_color: Vec::new(),
            background_noise_strength: 0.0,
            random_init_scene_scale: None,
            max_splats: 0,
            refine_every: 0,
            growth_grad_threshold: 0.0,
            growth_select_fraction: 0.0,
            growth_stop_iter: 0,
            split_at_screen_size: 0.0,
            match_alpha_weight: 0.0,
            lpips_loss_weight: 0.0,
            lod_levels: 0,
            lod_refine_steps: 0,
            lod_decimation_keep: 0,
            lod_image_scale: 0,
        },
        model_config: ModelConfig { sh_degree: 0 },
        load_config: LoadConfig {
            max_frames: None,
            max_resolution: 0,
            eval_split_every: None,
            subsample_frames: None,
            subsample_points: None,
            alpha_mode: None,
            max_scene_batch_cache_size: 77,
        },
        process_config: ProcessConfig {
            seed: 0,
            start_iter: 0,
            eval_every: 0,
            eval_save_to_disk: false,
            export_every: 0,
            export_path: "./default".to_owned(),
            export_name: String::new(),
        },
    }
}

fn asked(cache_size: &str, export_path: &str) -> TrainingConfig<f32, f64, char> {
    TrainingConfig {
        total_train_iters: 1,
        lr_mean: 2.0,
        lr_mean_end: 3.0,
        mean_noise_weight: 4.0,
        lr_coeffs_dc: 5.0,
        lr_coeffs_sh_scale: 6.0,
        lr_opac: 7.0,
        lr_scale: 8.0,
        lr_rotation: 9.0,
        ssim_weight: 10.0,
        opac_decay: 11.0,
        background_color: vec![12.0],
        background_noise_strength: 13.0,
        random_init_scene_scale: Some(14.0),
        max_splats: 15,
        refine_every: 16,
        growth_grad_threshold: 17.0,
        growth_select_fraction: 18.0,
        growth_stop_iter: 19,
        split_at_screen_size: 20.0,
        match_alpha_weight: 21.0,
        lpips_loss_weight: 22.0,
        lod_levels: 23,
        lod_refine_steps: 24,
        lod_decimation_keep: 25,
        lod_image_scale: 26,
        sh_degree: 27,
        max_frames: Some(28),
        max_resolution: 29,
        eval_split_every: Some(30),
        subsample_frames: Some(31),
        subsample_points: Some(32),
        alpha_mode: Some('a'),
        max_scene_batch_cache_size: cache_size.to_owned(),
        seed: 33,
        start_iter: 34,
        eval_every: 35,
        eval_save_to_disk: true,
        export_every: 36,
        export_path: export_path.to_owned(),
        export_name: "name".to_owned(),
    }
}

#[test]
fn a_configuration_is_carried_over_field_by_field() {
    let (stream, read) = asked("4 GiB", "/out").into_stream_config(defaults());
    assert!(read);
    let train = stream.train_config;
    assert_eq!(
        [
            train.total_train_iters,
            train.max_splats,
            train.refine_every,
            train.growth_stop_iter,
            train.lod_levels,
            train.lod_refine_steps,
            train.lod_decimation_keep,
            train.lod_image_scale,
            stream.model_config.sh_degree
        ],
        [1, 15, 16, 19, 23, 24, 25, 26, 27]
    );
    assert_eq!(
        [
            train.lr_mean,
            train.lr_mean_end,
            train.lr_coeffs_dc,
            train.lr_opac,
            train.lr_scale,
            train.lr_rotation
        ],
        [2.0, 3.0, 5.0, 7.0, 8.0, 9.0]
    );
    assert_eq!(
        [
            train.mean_noise_weight,
            train.lr_coeffs_sh_scale,
            train.ssim_weight,
            train.opac_decay,
            train.background_noise_strength,
            train.growth_grad_threshold,
            train.growth_select_fraction,
            train.split_at_screen_size,
            train.match_alpha_weight,
            train.lpips_loss_weight
        ],
        [4.0, 6.0, 10.0, 11.0, 13.0, 17.0, 18.0, 20.0, 21.0, 22.0]
    );
    assert_eq!(train.background_color, [12.0]);
    assert_eq!(train.random_init_scene_scale, Some(14.0));
    let load = stream.load_config;
    assert_eq!((load.max_frames, load.eval_split_every), (Some(28), Some(30)));
    assert_eq!(load.max_resolution, 29);
    assert_eq!(
        (load.subsample_frames, load.subsample_points),
        (Some(31), Some(32))
    );
    assert_eq!(load.alpha_mode, Some('a'));
    assert_eq!(load.max_scene_batch_cache_size, 4 * 1024 * 1024 * 1024);
    let process = stream.process_config;
    assert_eq!(process.seed, 33);
    assert_eq!(
        [process.start_iter, process.eval_every, process.export_every],
        [34, 35, 36]
    );
    assert!(process.eval_save_to_disk);
    assert_eq!(process.export_path, "/out/");
    assert_eq!(process.export_name, "name");
}

#[test]
fn defaults_show_where_nothing_is_asked_for() {
    let (stream, read) = asked("plenty", "").into_stream_config(defaults());
    assert!(!read);
    assert_eq!(stream.load_config.max_scene_batch_cache_size, 77);
    assert_eq!(stream.process_config.export_path, "./default");
    assert_eq!(cache_budget(None, 77), 77);
    assert_eq!(cache_budget(Some(5), 77), 5);
    let stream = asked("plenty", "").stream_config(defaults(), Some(5));
    assert_eq!(stream.load_config.max_scene_batch_cache_size, 5);
}

#[test]
fn sizes_are_read_with_their_units() {
    let bytes = |size: &str| {
        assert!(can_count_size(size));
        let (stream, read) = asked(size, "").into_stream_config(defaults());
        (stream.load_config.max_scene_batch_cache_size, read)
    };
    assert_eq!(bytes("0.2 MiB"), (209715, true));
    assert_eq!(bytes("6 GB"), (6_000_000_000, true));
    assert_eq!(bytes("1 k"), (1000, true));
    assert_eq!(bytes("512"), (512, true));
    assert_eq!(bytes(""), (77, false));
    assert_eq!(bytes("12 parsecs"), (77, false));
}

#[test]
fn sizes_beyond_count_are_told_apart() {
    assert!(can_count_size("18446744073709551615"));
    assert!(can_count_size("184467440737095516154"));
    assert!(!can_count_size("184467440737095516155"));
    assert!(!can_count_size("1844674407370955161.55"));
    assert!(can_count_size("99999999999999999999999"));
    assert!(!can_count_size("1_8446744073709551615 5 B"));
    // A text that is refused before the digits can be read does no harm.
    for refused in [
        "x184467440737095516155",
        "184467440737095516.1.55",
        ".184467440737095516155",
        "ä184467440737095516155",
    ] {
        assert!(can_count_size(refused));
        let (stream, read) = asked(refused, "").into_stream_config(defaults());
        assert!(!read);
        assert_eq!(stream.load_config.max_scene_batch_cache_size, 77);
    }
    assert!(can_count_size("18446744073709551615e9"));
}

#[test]
fn degrees_and_counts_of_coefficients_belong_together() {
    for degree in 0..5 {
        assert_eq!(sh_coeffs_for_degree(degree), (degree + 1) * (degree + 1));
        assert_eq!(sh_degree_from_coeffs(sh_coeffs_for_degree(degree)), degree);
    }
    assert_eq!(sh_coeffs_for_degree(65534), 4294836225);
    assert_eq!(sh_degree_from_coeffs(4294836225), 65534);
}
