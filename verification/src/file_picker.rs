//! What becomes of a file that the user picked.

use vstd::prelude::*;
use vstd::string::*;

verus! {

/// Why no file was picked.
pub enum PickError {
    /// The picker could not be shown.
    NotShown { reason: String },
    /// The picker went away without an answer.
    NoAnswer,
    /// The user dismissed the picker.
    NothingSelected,
}

/// The kinds of error that callers tell apart.
#[derive(PartialEq, Eq, Structural, Clone, Copy, Debug)]
pub enum PickErrorKind {
    NotFound,
    Other,
}

impl PickError {
    /// A dismissed picker counts as a file that was not found.
    pub fn kind(&self) -> (kind: PickErrorKind)
        ensures
            kind == if self is NothingSelected {
                PickErrorKind::NotFound
            } else {
                PickErrorKind::Other
            },
    {
        match self {
            PickError::NothingSelected => PickErrorKind::NotFound,
            _ => PickErrorKind::Other,
        }
    }

    /// The error in words.
    pub fn message(&self) -> (message: String)
        ensures
            message@ == match *self {
                PickError::NotShown { reason } => "JNI error: "@ + reason@,
                PickError::NoAnswer => "Failed to receive file picker result"@,
                PickError::NothingSelected => "No file selected"@,
            },
    {
        match self {
            PickError::NotShown { reason } => {
                let mut message = "JNI error: ".to_owned();
                message.append(reason.as_str());
                message
            },
            PickError::NoAnswer => "Failed to receive file picker result".to_owned(),
            PickError::NothingSelected => "No file selected".to_owned(),
        }
    }
}

/// The name of a picked file: `file` where it could not be read.
pub open spec fn file_name(name: Option<String>) -> Seq<char> {
    match name {
        Some(name) => name@,
        None => "file"@,
    }
}

/// Whether `answer` is what a descriptor and a name stand for.
pub open spec fn answers(fd: i32, name: Option<String>, answer: Option<(i32, String)>) -> bool {
    &&& answer is Some <==> fd >= 0
    &&& answer matches Some((file, filename)) ==> file == fd && filename@ == file_name(name)
}

/// What the picker hands over: a descriptor with the name of the file, which
/// is `file` where the name could not be read. A negative descriptor stands
/// for a dismissed picker.
pub fn picker_answer(fd: i32, name: Option<String>) -> (answer: Option<(i32, String)>)
    ensures
        answers(fd, name, answer),
{
    if fd < 0 {
        return None;
    }
    let filename = match name {
        Some(name) => name,
        None => "file".to_owned(),
    };
    Some((fd, filename))
}

/// The file that was picked, from what came out of the channel to the picker:
/// nothing where the channel closed, and else the picker's answer.
pub fn picked_file<F>(received: Option<Option<(F, String)>>) -> (picked: Result<(F, String), PickError>)
    ensures
        picked == match received {
            None => Err(PickError::NoAnswer),
            Some(None) => Err(PickError::NothingSelected),
            Some(Some(file)) => Ok(file),
        },
{
    match received {
        None => Err(PickError::NoAnswer),
        Some(None) => Err(PickError::NothingSelected),
        Some(Some(file)) => Ok(file),
    }
}

/// What one who waits for a picked file is told.
pub enum PickEvent<F> {
    /// The picker was asked to show itself, and failed for this reason if it
    /// did.
    Shown { failure: Option<String> },
    /// This came out of the channel to the picker.
    Received { received: Option<Option<(F, String)>> },
}

/// What one who waits for a picked file does.
pub enum PickAction<F> {
    /// Wait for what comes out of the channel.
    AwaitAnswer,
    /// Return this.
    Finish { picked: Result<(F, String), PickError> },
}

/// What is done on being told this.
pub open spec fn pick_response<F>(event: PickEvent<F>) -> PickAction<F> {
    match event {
        PickEvent::Shown { failure: None } => PickAction::AwaitAnswer,
        PickEvent::Shown { failure: Some(reason) } => PickAction::Finish {
            picked: Err(PickError::NotShown { reason }),
        },
        PickEvent::Received { received: None } => PickAction::Finish { picked: Err(PickError::NoAnswer) },
        PickEvent::Received { received: Some(None) } => PickAction::Finish {
            picked: Err(PickError::NothingSelected),
        },
        PickEvent::Received { received: Some(Some(file)) } => PickAction::Finish { picked: Ok(file) },
    }
}

/// One step of picking a file: where the picker cannot be shown that is the
/// end of it, and else its answer is waited for and returned.
pub fn pick_step<F>(event: PickEvent<F>) -> (action: PickAction<F>)
    ensures
        action == pick_response(event),
{
    match event {
        PickEvent::Shown { failure } => match failure {
            Some(reason) => PickAction::Finish { picked: Err(PickError::NotShown { reason }) },
            None => PickAction::AwaitAnswer,
        },
        PickEvent::Received { received } => PickAction::Finish { picked: picked_file(received) },
    }
}

/// What the user does in the picker is what the caller gets: a chosen file
/// with its name, and for a dismissed picker an error that counts as a file
/// that was not found.
pub proof fn law_answer_reaches_the_caller(fd: i32, name: Option<String>, answer: Option<(i32, String)>)
    requires
        answers(fd, name, answer),
    ensures
        pick_response(PickEvent::Received { received: Some(answer) }) matches PickAction::Finish { picked } && {
            &&& fd >= 0 ==> (picked matches Ok((file, filename)) && file == fd && filename@ == file_name(name))
            &&& fd < 0 ==> picked == Err::<(i32, String), PickError>(PickError::NothingSelected)
        },
{
}

/// What is picked is what came out of the channel. A picker that could not be
/// shown, one that went away and one that was dismissed each end in an error of
/// their own, of which the last alone counts as a file that was not found; and
/// each is told in words of its own, the first with the reason at the end.
pub proof fn law_each_way_of_picking_nothing_has_its_error<F>(
    event: PickEvent<F>,
    action: PickAction<F>,
    error: PickError,
    kind: PickErrorKind,
    message: String,
)
    requires
        call_ensures(pick_step::<F>, (event,), action),
        call_ensures(PickError::kind, (&error,), kind),
        call_ensures(PickError::message, (&error,), message),
        action matches PickAction::Finish { picked: Err(raised) } ==> raised == error,
    ensures
        action is AwaitAnswer <==> (event matches PickEvent::Shown { failure } && failure is None),
        event matches PickEvent::Received { received: Some(Some(file)) } ==> action == (PickAction::Finish {
            picked: Ok::<(F, String), PickError>(file),
        }),
        event matches PickEvent::Shown { failure: Some(reason) } ==> {
            &&& error == (PickError::NotShown { reason })
            &&& kind is Other
            &&& reason@.is_suffix_of(message@)
            &&& "JNI error: "@.is_prefix_of(message@)
            &&& message@.len() == "JNI error: "@.len() + reason@.len()
        },
        (event matches PickEvent::Received { received } && received is None) ==> error is NoAnswer && kind is Other
            && message@ == "Failed to receive file picker result"@,
        (event matches PickEvent::Received { received } && received == Some(None::<(F, String)>)) ==> error is NothingSelected
            && kind is NotFound && message@ == "No file selected"@,
{
    if let PickEvent::Shown { failure: Some(reason) } = event {
        let start = "JNI error: "@;
        assert(message@ == start + reason@);
        assert(message@.subrange(0, start.len() as int) == start);
        assert(message@.subrange(start.len() as int, message@.len() as int) == reason@);
    }
}

/// A step on what came out of the channel returns what the channel's content
/// stands for: the file in it, and nothing where it holds none.
pub proof fn law_step_returns_what_was_picked<F>(
    received: Option<Option<(F, String)>>,
    picked: Result<(F, String), PickError>,
    action: PickAction<F>,
)
    requires
        call_ensures(picked_file::<F>, (received,), picked),
        call_ensures(pick_step::<F>, (PickEvent::Received { received },), action),
    ensures
        action == (PickAction::Finish { picked }),
        picked is Ok <==> received is Some && received->Some_0 is Some,
        picked is Ok ==> received == Some(Some(picked->Ok_0)),
        picked is Err && received is Some ==> picked->Err_0 is NothingSelected,
        received is None ==> picked is Err && picked->Err_0 is NoAnswer,
{
}

/// A descriptor that is not negative is handed over as it is, under the name
/// that came with it, or as `file` where none could be read; a negative one
/// stands for no file.
pub proof fn law_descriptors_are_handed_over(fd: i32, name: Option<String>, answer: Option<(i32, String)>)
    requires
        call_ensures(picker_answer, (fd, name), answer),
    ensures
        fd < 0 ==> answer is None,
        fd >= 0 ==> answer is Some && answer->Some_0.0 == fd,
        fd >= 0 && name is Some ==> answer->Some_0.1@ == name->Some_0@,
        fd >= 0 && name is None ==> answer->Some_0.1@ == "file"@,
{
}

} // verus!
