//! The training engine as a front end drives it: the checks before a run
//! starts, and what is reported while it goes on.

use vstd::prelude::*;
use vstd::string::*;

verus! {

/// Where the dataset of a run comes from.
pub enum DataOrigin {
    /// A file descriptor that the front end hands over.
    Descriptor,
    /// Bytes that the front end hands over.
    Buffer,
}

/// Why a run was not started.
pub enum StartError {
    InvalidDescriptor { fd: i32 },
    EmptyConfig,
    MalformedConfig,
    UnreadableData,
    EmptyData,
}

/// How far a request to start a run has come.
pub enum StartStage {
    /// The descriptor is looked at first, so that it is owned, and closed
    /// again, whatever fails later.
    AwaitDescriptor,
    AwaitConfigText,
    AwaitConfig,
    AwaitData,
    /// The run was started or refused.
    Settled,
}

/// What a request to start a run is told.
pub enum StartEvent {
    Descriptor { fd: i32 },
    ConfigText { text: String },
    /// Whether the text read as a configuration.
    Config { well_formed: bool },
    /// The dataset, or nothing where reading it failed.
    Data { bytes: Option<Vec<u8>> },
}

/// What a request to start a run wants done.
pub enum StartAction {
    /// Take over the descriptor, then get the configuration text.
    AdoptDescriptor { fd: i32 },
    ParseConfig { text: String },
    FetchData,
    Run { bytes: Vec<u8> },
    Refuse { error: StartError },
}

/// A request to start a run.
pub struct StartRequest {
    pub origin: DataOrigin,
    pub stage: StartStage,
}

impl StartRequest {
    /// Whether the request can be told this now.
    pub open spec fn expects(&self, event: StartEvent) -> bool {
        match self.stage {
            StartStage::AwaitDescriptor => event is Descriptor,
            StartStage::AwaitConfigText => event is ConfigText,
            StartStage::AwaitConfig => event is Config,
            StartStage::AwaitData => event is Data,
            StartStage::Settled => false,
        }
    }

    /// What the request does on being told this, and how far it has come
    /// then.
    pub open spec fn response(&self, event: StartEvent) -> (StartStage, StartAction) {
        match event {
            StartEvent::Descriptor { fd } => if fd < 0 {
                (StartStage::Settled, StartAction::Refuse { error: StartError::InvalidDescriptor { fd } })
            } else {
                (StartStage::AwaitConfigText, StartAction::AdoptDescriptor { fd })
            },
            StartEvent::ConfigText { text } => if text@.len() == 0 {
                (StartStage::Settled, StartAction::Refuse { error: StartError::EmptyConfig })
            } else {
                (StartStage::AwaitConfig, StartAction::ParseConfig { text })
            },
            StartEvent::Config { well_formed } => if !well_formed {
                (StartStage::Settled, StartAction::Refuse { error: StartError::MalformedConfig })
            } else {
                (StartStage::AwaitData, StartAction::FetchData)
            },
            StartEvent::Data { bytes } => match bytes {
                None => (StartStage::Settled, StartAction::Refuse { error: StartError::UnreadableData }),
                Some(bytes) => if self.origin is Buffer && bytes@.len() == 0 {
                    (StartStage::Settled, StartAction::Refuse { error: StartError::EmptyData })
                } else {
                    (StartStage::Settled, StartAction::Run { bytes })
                },
            },
        }
    }

    /// A request whose dataset is read from a descriptor.
    pub fn from_descriptor() -> (request: Self)
        ensures
            request.origin is Descriptor,
            request.stage is AwaitDescriptor,
    {
        StartRequest { origin: DataOrigin::Descriptor, stage: StartStage::AwaitDescriptor }
    }

    /// A request whose dataset is handed over as bytes.
    pub fn from_buffer() -> (request: Self)
        ensures
            request.origin is Buffer,
            request.stage is AwaitConfigText,
    {
        StartRequest { origin: DataOrigin::Buffer, stage: StartStage::AwaitConfigText }
    }

    /// Takes the next event.
    pub fn advance(&mut self, event: StartEvent) -> (action: StartAction)
        requires
            old(self).expects(event),
        ensures
            (final(self).stage, action) == old(self).response(event),
            final(self).origin == old(self).origin,
    {
        match event {
            StartEvent::Descriptor { fd } => {
                if fd < 0 {
                    self.refuse(StartError::InvalidDescriptor { fd })
                } else {
                    self.stage = StartStage::AwaitConfigText;
                    StartAction::AdoptDescriptor { fd }
                }
            },
            StartEvent::ConfigText { text } => {
                if text.as_str().is_empty() {
                    self.refuse(StartError::EmptyConfig)
                } else {
                    self.stage = StartStage::AwaitConfig;
                    StartAction::ParseConfig { text }
                }
            },
            StartEvent::Config { well_formed } => {
                if !well_formed {
                    self.refuse(StartError::MalformedConfig)
                } else {
                    self.stage = StartStage::AwaitData;
                    StartAction::FetchData
                }
            },
            StartEvent::Data { bytes } => match bytes {
                None => self.refuse(StartError::UnreadableData),
                Some(bytes) => {
                    if bytes.is_empty() && matches!(self.origin, DataOrigin::Buffer) {
                        self.refuse(StartError::EmptyData)
                    } else {
                        self.stage = StartStage::Settled;
                        StartAction::Run { bytes }
                    }
                },
            },
        }
    }

    fn refuse(&mut self, error: StartError) -> (action: StartAction)
        ensures
            final(self).stage is Settled,
            final(self).origin == old(self).origin,
            action == (StartAction::Refuse { error }),
    {
        self.stage = StartStage::Settled;
        StartAction::Refuse { error }
    }
}

/// What a request ends in, where the front end has these answers for it.
pub open spec fn outcome(
    request: StartRequest,
    fd: i32,
    text: String,
    well_formed: bool,
    bytes: Option<Vec<u8>>,
) -> StartAction
    decreases
        match request.stage {
            StartStage::AwaitDescriptor => 4int,
            StartStage::AwaitConfigText => 3,
            StartStage::AwaitConfig => 2,
            StartStage::AwaitData => 1,
            StartStage::Settled => 0,
        },
{
    let event = match request.stage {
        StartStage::AwaitDescriptor => StartEvent::Descriptor { fd },
        StartStage::AwaitConfigText => StartEvent::ConfigText { text },
        StartStage::AwaitConfig => StartEvent::Config { well_formed },
        _ => StartEvent::Data { bytes },
    };
    let (stage, action) = request.response(event);
    if stage is Settled || request.stage is Settled {
        action
    } else {
        outcome(StartRequest { stage, ..request }, fd, text, well_formed, bytes)
    }
}

/// A run is started on the dataset that was handed over where every check
/// passes; else it is refused for the first one that does not. An empty
/// dataset is refused from a buffer alone.
pub proof fn law_run_starts_where_every_check_passes(
    request: StartRequest,
    fd: i32,
    text: String,
    well_formed: bool,
    bytes: Option<Vec<u8>>,
)
    requires
        request.origin is Descriptor ==> request.stage is AwaitDescriptor,
        request.origin is Buffer ==> request.stage is AwaitConfigText,
    ensures
        outcome(request, fd, text, well_formed, bytes) == if request.origin is Descriptor && fd < 0 {
            StartAction::Refuse { error: StartError::InvalidDescriptor { fd } }
        } else if text@.len() == 0 {
            StartAction::Refuse { error: StartError::EmptyConfig }
        } else if !well_formed {
            StartAction::Refuse { error: StartError::MalformedConfig }
        } else if bytes is None {
            StartAction::Refuse { error: StartError::UnreadableData }
        } else if request.origin is Buffer && bytes->Some_0@.len() == 0 {
            StartAction::Refuse { error: StartError::EmptyData }
        } else {
            StartAction::Run { bytes: bytes->Some_0 }
        },
{
    reveal_with_fuel(outcome, 4);
}

/// A message of the training stream. Times (`T`) and scores (`F`) are handed
/// on unread.
pub enum EngineMessage<T, F> {
    NewProcess,
    StartLoading { name: String, training: bool },
    SplatsUpdated { num_splats: u32, frame: u32, total_frames: u32 },
    TrainStep { iter: u32, total_elapsed: T },
    RefineStep { cur_splat_count: u32, iter: u32 },
    EvalResult { iter: u32, avg_psnr: F, avg_ssim: F },
    Dataset { train_views: usize, eval_views: Option<usize> },
    DoneTraining,
    /// A message of the trainer that nothing is made of.
    OtherTraining,
    DoneLoading,
    Warning { error: String },
    /// The stream itself broke.
    Broken { error: String },
}

/// The memory in use, in bytes.
pub struct MemoryUse {
    pub physical: usize,
    pub virtual_: usize,
}

/// What there is to say of a message.
pub enum Report<T, F> {
    Started,
    Loading { name: String, training: bool },
    Splats { num_splats: u32, frame: u32, total_frames: u32 },
    /// A step, with the physical and virtual memory in whole MiB where it is
    /// known.
    Step { iter: u32, total_iters: u32, elapsed: T, memory_mib: Option<(usize, usize)> },
    Refined { iter: u32, splats: u32 },
    Evaluated { iter: u32, psnr: F, ssim: F },
    DatasetLoaded { train_views: usize, eval_views: usize },
    TrainingDone,
    LoadingDone,
    Warned { error: String },
    Failed { error: String },
}

/// Of the training steps the first one is reported, and then every hundredth.
pub open spec fn reports_step(iter: u32) -> bool {
    iter % 100 == 0 || iter == 1
}

/// Whether this training step is reported.
pub fn step_is_reported(iter: u32) -> (reported: bool)
    ensures
        reported == reports_step(iter),
{
    iter % 100 == 0 || iter == 1
}

/// The bytes of one MiB.
pub const MIB: usize = 1_048_576;

impl MemoryUse {
    /// Both figures in whole MiB.
    pub fn in_mib(&self) -> (mib: (usize, usize))
        ensures
            mib.0 == self.physical / MIB,
            mib.1 == self.virtual_ / MIB,
    {
        (self.physical / MIB, self.virtual_ / MIB)
    }
}

impl<T, F> EngineMessage<T, F> {
    /// What there is to say of this message, if anything.
    pub open spec fn said(self, total_iters: u32, memory: Option<MemoryUse>) -> Option<Report<T, F>> {
        match self {
            EngineMessage::NewProcess => Some(Report::Started),
            EngineMessage::StartLoading { name, training } => Some(Report::Loading { name, training }),
            EngineMessage::SplatsUpdated { num_splats, frame, total_frames } => Some(
                Report::Splats { num_splats, frame, total_frames },
            ),
            EngineMessage::TrainStep { iter, total_elapsed } => if reports_step(iter) {
                Some(
                    Report::Step {
                        iter,
                        total_iters,
                        elapsed: total_elapsed,
                        memory_mib: match memory {
                            Some(used) => Some((used.physical / MIB, used.virtual_ / MIB)),
                            None => None,
                        },
                    },
                )
            } else {
                None
            },
            EngineMessage::RefineStep { cur_splat_count, iter } => Some(
                Report::Refined { iter, splats: cur_splat_count },
            ),
            EngineMessage::EvalResult { iter, avg_psnr, avg_ssim } => Some(
                Report::Evaluated { iter, psnr: avg_psnr, ssim: avg_ssim },
            ),
            EngineMessage::Dataset { train_views, eval_views } => Some(
                Report::DatasetLoaded {
                    train_views,
                    eval_views: match eval_views {
                        Some(views) => views,
                        None => 0,
                    },
                },
            ),
            EngineMessage::DoneTraining => Some(Report::TrainingDone),
            EngineMessage::OtherTraining => None,
            EngineMessage::DoneLoading => Some(Report::LoadingDone),
            EngineMessage::Warning { error } => Some(Report::Warned { error }),
            EngineMessage::Broken { error } => Some(Report::Failed { error }),
        }
    }

    /// What there is to say of this message, and whether the stream is pumped
    /// further: it is, unless it broke.
    pub fn handle(self, total_iters: u32, memory: Option<MemoryUse>) -> (handled: (Option<Report<T, F>>, bool))
        ensures
            handled.0 == self.said(total_iters, memory),
            handled.1 == !(self is Broken),
    {
        match self {
            EngineMessage::NewProcess => (Some(Report::Started), true),
            EngineMessage::StartLoading { name, training } => (
                Some(Report::Loading { name, training }),
                true,
            ),
            EngineMessage::SplatsUpdated { num_splats, frame, total_frames } => (
                Some(Report::Splats { num_splats, frame, total_frames }),
                true,
            ),
            EngineMessage::TrainStep { iter, total_elapsed } => {
                if step_is_reported(iter) {
                    let memory_mib = match memory {
                        Some(used) => Some(used.in_mib()),
                        None => None,
                    };
                    (Some(Report::Step { iter, total_iters, elapsed: total_elapsed, memory_mib }), true)
                } else {
                    (None, true)
                }
            },
            EngineMessage::RefineStep { cur_splat_count, iter } => (
                Some(Report::Refined { iter, splats: cur_splat_count }),
                true,
            ),
            EngineMessage::EvalResult { iter, avg_psnr, avg_ssim } => (
                Some(Report::Evaluated { iter, psnr: avg_psnr, ssim: avg_ssim }),
                true,
            ),
            EngineMessage::Dataset { train_views, eval_views } => {
                let eval_views: usize = match eval_views {
                    Some(views) => views,
                    None => 0,
                };
                (Some(Report::DatasetLoaded { train_views, eval_views }), true)
            },
            EngineMessage::DoneTraining => (Some(Report::TrainingDone), true),
            EngineMessage::OtherTraining => (None, true),
            EngineMessage::DoneLoading => (Some(Report::LoadingDone), true),
            EngineMessage::Warning { error } => (Some(Report::Warned { error }), true),
            EngineMessage::Broken { error } => (Some(Report::Failed { error }), false),
        }
    }
}

/// A report says what its message said: from what is reported of a message
/// the message can be told, but that a dataset without an evaluation split is
/// reported as one without views in it.
pub proof fn law_reports_say_what_messages_said<T, F>(
    one: EngineMessage<T, F>,
    other: EngineMessage<T, F>,
    total_iters: u32,
    memory: Option<MemoryUse>,
    handled: (Option<Report<T, F>>, bool),
)
    requires
        call_ensures(EngineMessage::<T, F>::handle, (one, total_iters, memory), handled),
        call_ensures(EngineMessage::<T, F>::handle, (other, total_iters, memory), handled),
        handled.0 is Some,
    ensures
        one == other || (one is Dataset && other is Dataset && one->train_views == other->train_views && (
        one->eval_views == Some(0usize) || one->eval_views is None) && (other->eval_views == Some(0usize)
            || other->eval_views is None)),
{
}

/// What each message is reported as. Numbers, names, times and scores are
/// those of the message, and a message that has nothing to say is passed over.
pub proof fn law_each_message_has_its_report<T, F>(
    message: EngineMessage<T, F>,
    total_iters: u32,
    memory: Option<MemoryUse>,
    handled: (Option<Report<T, F>>, bool),
)
    requires
        call_ensures(EngineMessage::<T, F>::handle, (message, total_iters, memory), handled),
    ensures
        handled.1 <==> !(message is Broken),
        message is NewProcess ==> handled.0 == Some(Report::<T, F>::Started),
        message matches EngineMessage::StartLoading { name, training } ==> handled.0 == Some(
            Report::<T, F>::Loading { name, training },
        ),
        message matches EngineMessage::SplatsUpdated { num_splats, frame, total_frames } ==> handled.0 == Some(
            Report::<T, F>::Splats { num_splats, frame, total_frames },
        ),
        message matches EngineMessage::RefineStep { cur_splat_count, iter } ==> handled.0 == Some(
            Report::<T, F>::Refined { iter, splats: cur_splat_count },
        ),
        message matches EngineMessage::EvalResult { iter, avg_psnr, avg_ssim } ==> handled.0 == Some(
            Report::<T, F>::Evaluated { iter, psnr: avg_psnr, ssim: avg_ssim },
        ),
        message matches EngineMessage::Dataset { train_views, eval_views } ==> {
            &&& eval_views matches Some(n) ==> handled.0 == Some(
                Report::<T, F>::DatasetLoaded { train_views, eval_views: n },
            )
            &&& eval_views is None ==> handled.0 == Some(Report::<T, F>::DatasetLoaded { train_views, eval_views: 0 })
        },
        message is DoneTraining ==> handled.0 == Some(Report::<T, F>::TrainingDone),
        message is OtherTraining ==> handled.0 is None,
        message is DoneLoading ==> handled.0 == Some(Report::<T, F>::LoadingDone),
        message matches EngineMessage::Warning { error } ==> handled.0 == Some(Report::<T, F>::Warned { error }),
        message matches EngineMessage::Broken { error } ==> handled.0 == Some(Report::<T, F>::Failed { error }),
        message matches EngineMessage::TrainStep { iter, total_elapsed } ==> {
            &&& handled.0 is Some <==> iter == 1 || exists|hundreds: int| iter == #[trigger] (hundreds * 100)
            &&& handled.0 matches Some(report) ==> report matches Report::Step {
                iter: reported,
                total_iters: total,
                elapsed,
                memory_mib,
            } && {
                &&& reported == iter
                &&& total == total_iters
                &&& elapsed == total_elapsed
                &&& memory_mib is Some <==> memory is Some
                &&& memory matches Some(used) ==> {
                    &&& memory_mib->Some_0.0 * 1048576 <= used.physical < (memory_mib->Some_0.0 + 1) * 1048576
                    &&& memory_mib->Some_0.1 * 1048576 <= used.virtual_ < (memory_mib->Some_0.1 + 1) * 1048576
                }
            }
        },
{
    if let EngineMessage::TrainStep { iter, total_elapsed } = message {
        if iter % 100 == 0 {
            assert(iter == (iter / 100) * 100);
        }
    }
}

/// The first step and every hundredth are reported and no other: from the
/// second step on, steps a hundred apart are reported alike, and of fewer than
/// a hundred in a row no two are.
pub proof fn law_one_step_in_a_hundred_is_reported(iter: u32, later: u32, reported: bool, reported_later: bool)
    requires
        iter < later <= iter + 100,
        call_ensures(step_is_reported, (iter,), reported),
        call_ensures(step_is_reported, (later,), reported_later),
    ensures
        reported <==> iter == 1 || exists|hundreds: int| iter == #[trigger] (hundreds * 100),
        2 <= iter && later == iter + 100 ==> reported == reported_later,
        2 <= iter && later < iter + 100 ==> !(reported && reported_later),
{
    if iter % 100 == 0 {
        assert(iter == (iter / 100) * 100);
    }
}

/// Memory is told in whole MiB, each 2^20 bytes, with what is over dropped.
pub proof fn law_memory_is_told_in_whole_mib(memory: MemoryUse, mib: (usize, usize))
    requires
        call_ensures(MemoryUse::in_mib, (&memory,), mib),
    ensures
        mib.0 * 1024 * 1024 <= memory.physical < (mib.0 + 1) * 1024 * 1024,
        mib.1 * 1024 * 1024 <= memory.virtual_ < (mib.1 + 1) * 1024 * 1024,
{
}

/// What a request to start a run does on each thing that it is told. A
/// descriptor below zero, an empty text, a text that does not read as a
/// configuration, data that could not be read and, from a buffer, empty data
/// end it with their own error; anything else leads on, with what was told.
pub proof fn law_each_check_has_its_error(request: &mut StartRequest, event: StartEvent, action: StartAction)
    requires
        old(request).expects(event),
        call_ensures(StartRequest::advance, (request, event), action),
    ensures
        final(request).origin == old(request).origin,
        event matches StartEvent::Descriptor { fd } ==> {
            &&& fd < 0 ==> action == (StartAction::Refuse { error: StartError::InvalidDescriptor { fd } })
            &&& fd >= 0 ==> action == (StartAction::AdoptDescriptor { fd }) && final(request).stage is AwaitConfigText
        },
        event matches StartEvent::ConfigText { text } ==> {
            &&& text@.len() == 0 ==> action == (StartAction::Refuse { error: StartError::EmptyConfig })
            &&& text@.len() > 0 ==> action == (StartAction::ParseConfig { text }) && final(request).stage is AwaitConfig
        },
        event matches StartEvent::Config { well_formed } ==> {
            &&& !well_formed ==> action == (StartAction::Refuse { error: StartError::MalformedConfig })
            &&& well_formed ==> action is FetchData && final(request).stage is AwaitData
        },
        event matches StartEvent::Data { bytes } ==> {
            &&& bytes is None ==> action == (StartAction::Refuse { error: StartError::UnreadableData })
            &&& bytes matches Some(data) ==> {
                &&& data@.len() == 0 && old(request).origin is Buffer ==> action == (StartAction::Refuse {
                    error: StartError::EmptyData,
                })
                &&& data@.len() > 0 || old(request).origin is Descriptor ==> action == (StartAction::Run { bytes: data })
            }
        },
        action is Refuse || action is Run <==> final(request).stage is Settled,
{
}

/// A request begins with the descriptor where there is one, and else with the
/// configuration.
pub proof fn law_requests_begin_with_what_they_have(descriptor: StartRequest, buffer: StartRequest)
    requires
        call_ensures(StartRequest::from_descriptor, (), descriptor),
        call_ensures(StartRequest::from_buffer, (), buffer),
    ensures
        descriptor.origin is Descriptor && descriptor.stage is AwaitDescriptor,
        buffer.origin is Buffer && buffer.stage is AwaitConfigText,
{
}

} // verus!
