//! The ways in which a pipe or a pipeline fails, and their wording.
use crate::text;
use vstd::prelude::*;
use vstd::string::*;

verus! {

/// `std::io::Error`, which the thread builder hands back; it is only carried.
#[verifier::external_type_specification]
#[verifier::external_body]
pub struct ExIoError(std::io::Error);

/// Why a pipe or a pipeline could not start, or how it ended. `E` is the error
/// of the user's own stage code.
#[derive(Debug)]
#[non_exhaustive]
pub enum PiperError<E = String> {
    ZeroWorkers,
    NoStages,
    InvalidGraph { message: String },
    InvalidAnchorThreads,
    SpawnFailed { worker: String, source: std::io::Error },
    WorkerPanicked { worker: String, message: String },
    UserInit { worker: String, error: E },
    UserProcess { worker: String, error: E },
    UserCleanup { worker: String, error: E },
    UserFinalize { worker: String, error: E },
    Internal { worker: String, message: String },
    Telemetry { message: String },
}

/// The wording of an error; `error` is that of the user's own error, where the
/// variant holds one.
pub open spec fn error_text<E>(failure: PiperError<E>, error: Seq<char>) -> Seq<char> {
    match failure {
        PiperError::ZeroWorkers => "worker count must be greater than 0"@,
        PiperError::NoStages => "Piper requires at least one stage"@,
        PiperError::InvalidGraph { message } => "Piper graph is invalid: "@ + message@,
        PiperError::InvalidAnchorThreads => "anchor thread count must be greater than 0"@,
        PiperError::SpawnFailed { worker, source: _ } => "failed to spawn worker thread `"@
            + worker@ + "`"@,
        PiperError::WorkerPanicked { worker, message } => "worker thread `"@ + worker@
            + "` panicked: "@ + message@,
        PiperError::UserInit { worker, error: _ } => "init closure failed in worker `"@ + worker@
            + "`: "@ + error,
        PiperError::UserProcess { worker, error: _ } => "process closure failed in worker `"@
            + worker@ + "`: "@ + error,
        PiperError::UserCleanup { worker, error: _ } => "cleanup closure failed in worker `"@
            + worker@ + "`: "@ + error,
        PiperError::UserFinalize { worker, error: _ } => "finalize closure failed in worker `"@
            + worker@ + "`: "@ + error,
        PiperError::Internal { worker, message } => "internal Piper failure in worker `"@ + worker@
            + "`: "@ + message@,
        PiperError::Telemetry { message } => "Piper telemetry failure: "@ + message@,
    }
}

impl<E> PiperError<E> {
    /// The error's wording. `error` is the wording of the user's own error; it
    /// appears for the variants that hold one.
    pub fn describe(&self, error: &str) -> (text: String)
        ensures
            text@ == error_text(*self, error@),
    {
        match self {
            PiperError::ZeroWorkers => "worker count must be greater than 0".to_string(),
            PiperError::NoStages => "Piper requires at least one stage".to_string(),
            PiperError::InvalidGraph { message } => {
                "Piper graph is invalid: ".to_string().concat(message.as_str())
            },
            PiperError::InvalidAnchorThreads => {
                "anchor thread count must be greater than 0".to_string()
            },
            PiperError::SpawnFailed { worker, source: _ } => {
                text::enclose("failed to spawn worker thread `", worker.as_str(), "`")
            },
            PiperError::WorkerPanicked { worker, message } => {
                text::enclose("worker thread `", worker.as_str(), "` panicked: ").concat(
                    message.as_str(),
                )
            },
            PiperError::UserInit { worker, error: _ } => {
                text::enclose("init closure failed in worker `", worker.as_str(), "`: ").concat(
                    error,
                )
            },
            PiperError::UserProcess { worker, error: _ } => {
                text::enclose("process closure failed in worker `", worker.as_str(), "`: ").concat(
                    error,
                )
            },
            PiperError::UserCleanup { worker, error: _ } => {
                text::enclose("cleanup closure failed in worker `", worker.as_str(), "`: ").concat(
                    error,
                )
            },
            PiperError::UserFinalize { worker, error: _ } => {
                text::enclose("finalize closure failed in worker `", worker.as_str(), "`: ").concat(
                    error,
                )
            },
            PiperError::Internal { worker, message } => {
                text::enclose("internal Piper failure in worker `", worker.as_str(), "`: ").concat(
                    message.as_str(),
                )
            },
            PiperError::Telemetry { message } => {
                "Piper telemetry failure: ".to_string().concat(message.as_str())
            },
        }
    }
}

/// The input side of a pipeline no longer takes items.
#[derive(Clone, Copy, Debug, PartialEq, Eq, Structural)]
pub struct SendInputError;

/// Why no output was received.
#[derive(Clone, Copy, Debug, PartialEq, Eq, Structural)]
pub enum RecvOutputError {
    Closed,
    Timeout,
    TypeMismatch,
}

/// Why no output was there at once.
#[derive(Clone, Copy, Debug, PartialEq, Eq, Structural)]
pub enum TryRecvOutputError {
    Closed,
    Empty,
    TypeMismatch,
}

impl SendInputError {
    pub fn describe(self) -> (text: String)
        ensures
            text@ == "Piper input channel is closed"@,
    {
        "Piper input channel is closed".to_string()
    }
}

impl RecvOutputError {
    pub fn describe(self) -> (text: String)
        ensures
            text@ == match self {
                RecvOutputError::Closed => "Piper output channel is closed"@,
                RecvOutputError::Timeout => "Piper output channel timed out"@,
                RecvOutputError::TypeMismatch => "Piper output type mismatch"@,
            },
    {
        match self {
            RecvOutputError::Closed => "Piper output channel is closed".to_string(),
            RecvOutputError::Timeout => "Piper output channel timed out".to_string(),
            RecvOutputError::TypeMismatch => "Piper output type mismatch".to_string(),
        }
    }
}

impl TryRecvOutputError {
    pub fn describe(self) -> (text: String)
        ensures
            text@ == match self {
                TryRecvOutputError::Closed => "Piper output channel is closed"@,
                TryRecvOutputError::Empty => "Piper output channel is empty"@,
                TryRecvOutputError::TypeMismatch => "Piper output type mismatch"@,
            },
    {
        match self {
            TryRecvOutputError::Closed => "Piper output channel is closed".to_string(),
            TryRecvOutputError::Empty => "Piper output channel is empty".to_string(),
            TryRecvOutputError::TypeMismatch => "Piper output type mismatch".to_string(),
        }
    }
}

/// How one stage's code failed in a worker.
#[derive(Debug)]
pub enum StageFailure<E> {
    Init(E),
    Process(E),
    Cleanup(E),
    Internal(String),
}

/// The pipeline's error for a stage failure in a worker.
pub open spec fn stage_error<E>(worker: String, failure: StageFailure<E>) -> PiperError<E> {
    match failure {
        StageFailure::Init(error) => PiperError::UserInit { worker, error },
        StageFailure::Process(error) => PiperError::UserProcess { worker, error },
        StageFailure::Cleanup(error) => PiperError::UserCleanup { worker, error },
        StageFailure::Internal(message) => PiperError::Internal { worker, message },
    }
}

impl<E> StageFailure<E> {
    pub fn into_error(self, worker: String) -> (error: PiperError<E>)
        ensures
            error == stage_error(worker, self),
    {
        match self {
            StageFailure::Init(error) => PiperError::UserInit { worker, error },
            StageFailure::Process(error) => PiperError::UserProcess { worker, error },
            StageFailure::Cleanup(error) => PiperError::UserCleanup { worker, error },
            StageFailure::Internal(message) => PiperError::Internal { worker, message },
        }
    }
}

/// A failure of the pipeline's own machinery.
#[derive(Clone, Debug)]
pub enum InternalFailure {
    Internal { message: String },
    Telemetry { message: String },
}

impl InternalFailure {
    pub fn internal(message: String) -> (failure: Self)
        ensures
            failure == (InternalFailure::Internal { message }),
    {
        InternalFailure::Internal { message }
    }

    pub fn telemetry(message: String) -> (failure: Self)
        ensures
            failure == (InternalFailure::Telemetry { message }),
    {
        InternalFailure::Telemetry { message }
    }

    /// The error under which the supervisor reports the failure.
    pub fn into_error<E>(self) -> (error: PiperError<E>)
        ensures
            match self {
                InternalFailure::Internal { message } => {
                    &&& error is Internal
                    &&& error->Internal_worker@ == "piper-supervisor"@
                    &&& error->Internal_message == message
                },
                InternalFailure::Telemetry { message } => error == (PiperError::<E>::Telemetry {
                    message,
                }),
            },
    {
        match self {
            InternalFailure::Internal { message } => PiperError::Internal {
                worker: "piper-supervisor".to_string(),
                message,
            },
            InternalFailure::Telemetry { message } => PiperError::Telemetry { message },
        }
    }
}

/// What a thread left behind when it panicked.
#[derive(Debug)]
pub enum PanicPayload {
    Owned(String),
    Literal(String),
    Other,
}

/// The text that stands for a panic's payload.
pub open spec fn payload_text(payload: PanicPayload) -> Seq<char> {
    match payload {
        PanicPayload::Owned(text) => text@,
        PanicPayload::Literal(text) => text@,
        PanicPayload::Other => "<non-string panic payload>"@,
    }
}

/// The text of a panic's payload, where it has one.
pub fn panic_payload_to_string(payload: PanicPayload) -> (text: String)
    ensures
        text@ == payload_text(payload),
{
    match payload {
        PanicPayload::Owned(text) => text,
        PanicPayload::Literal(text) => text,
        PanicPayload::Other => "<non-string panic payload>".to_string(),
    }
}

/// A stage's failure is told as what it is: under the worker's name, with the user's
/// own error or the machinery's message, and as a failure of the step that failed.
pub proof fn law_stage_failure_is_told<E>(
    worker: String,
    failure: StageFailure<E>,
    error: PiperError<E>,
)
    requires
        call_ensures(StageFailure::<E>::into_error, (failure, worker), error),
    ensures
        error is UserInit <==> failure is Init,
        error is UserProcess <==> failure is Process,
        error is UserCleanup <==> failure is Cleanup,
        error is Internal <==> failure is Internal,
        failure is Init ==> error->UserInit_worker == worker && error->UserInit_error
            == failure->Init_0,
        failure is Process ==> error->UserProcess_worker == worker && error->UserProcess_error
            == failure->Process_0,
        failure is Cleanup ==> error->UserCleanup_worker == worker && error->UserCleanup_error
            == failure->Cleanup_0,
        failure is Internal ==> error->Internal_worker == worker && error->Internal_message
            == failure->Internal_0,
{
}

/// A failure of the machinery keeps its message; the supervisor reports the internal
/// ones under its own name.
pub proof fn law_machinery_failure_is_told<E>(failure: InternalFailure, error: PiperError<E>)
    requires
        call_ensures(InternalFailure::into_error::<E>, (failure,), error),
    ensures
        error is Internal <==> failure is Internal,
        error is Telemetry <==> failure is Telemetry,
        failure is Internal ==> error->Internal_message == failure->Internal_message
            && error->Internal_worker@ == "piper-supervisor"@,
        failure is Telemetry ==> error->Telemetry_message == failure->Telemetry_message,
{
}

/// A failure that is made with a message holds that message.
pub proof fn law_machinery_failure_holds_its_message(
    message: String,
    internal: InternalFailure,
    telemetry: InternalFailure,
)
    requires
        call_ensures(InternalFailure::internal, (message,), internal),
        call_ensures(InternalFailure::telemetry, (message,), telemetry),
    ensures
        internal is Internal && internal->Internal_message == message,
        telemetry is Telemetry && telemetry->Telemetry_message == message,
{
}

/// A panic is told in its own words, whichever way they were held, and one without
/// words as such.
pub proof fn law_panic_is_told_in_its_words(payload: PanicPayload, text: String)
    requires
        call_ensures(panic_payload_to_string, (payload,), text),
    ensures
        payload matches PanicPayload::Owned(words) ==> text@ == words@,
        payload matches PanicPayload::Literal(words) ==> text@ == words@,
        payload is Other ==> text@ == "<non-string panic payload>"@,
{
}

/// An error that holds a user's own error is worded with it at the end, behind the
/// worker's name between backquotes; what comes first says which step failed.
pub proof fn law_user_error_is_worded<E>(failure: PiperError<E>, error: &str, text: String)
    requires
        call_ensures(PiperError::<E>::describe, (&failure, error), text),
    ensures
        failure is UserInit ==> text@ == "init closure failed in worker `"@
            + failure->UserInit_worker@ + "`: "@ + error@,
        failure is UserProcess ==> text@ == "process closure failed in worker `"@
            + failure->UserProcess_worker@ + "`: "@ + error@,
        failure is UserCleanup ==> text@ == "cleanup closure failed in worker `"@
            + failure->UserCleanup_worker@ + "`: "@ + error@,
        failure is UserFinalize ==> text@ == "finalize closure failed in worker `"@
            + failure->UserFinalize_worker@ + "`: "@ + error@,
{
}

/// Every other error is worded without the user's words: with the worker and the
/// message that it holds.
pub proof fn law_own_error_is_worded<E>(
    failure: PiperError<E>,
    error: &str,
    other: &str,
    text: String,
    other_text: String,
)
    requires
        call_ensures(PiperError::<E>::describe, (&failure, error), text),
        call_ensures(PiperError::<E>::describe, (&failure, other), other_text),
    ensures
        failure is ZeroWorkers ==> text@ == "worker count must be greater than 0"@,
        failure is NoStages ==> text@ == "Piper requires at least one stage"@,
        failure is InvalidGraph ==> text@ == "Piper graph is invalid: "@
            + failure->InvalidGraph_message@,
        failure is InvalidAnchorThreads ==> text@ == "anchor thread count must be greater than 0"@,
        failure is SpawnFailed ==> text@ == "failed to spawn worker thread `"@
            + failure->SpawnFailed_worker@ + "`"@,
        failure is WorkerPanicked ==> text@ == "worker thread `"@ + failure->WorkerPanicked_worker@
            + "` panicked: "@ + failure->WorkerPanicked_message@,
        failure is Internal ==> text@ == "internal Piper failure in worker `"@
            + failure->Internal_worker@ + "`: "@ + failure->Internal_message@,
        failure is Telemetry ==> text@ == "Piper telemetry failure: "@
            + failure->Telemetry_message@,
        !(failure is UserInit || failure is UserProcess || failure is UserCleanup || failure
            is UserFinalize) ==> text@ == other_text@,
{
}

/// The answers of the pipeline's ends are worded each in its own way, and a closed
/// output is worded alike whether one waits for it or not.
pub proof fn law_end_errors_are_worded(
    received: RecvOutputError,
    polled: TryRecvOutputError,
    received_text: String,
    polled_text: String,
    sent_text: String,
)
    requires
        call_ensures(RecvOutputError::describe, (received,), received_text),
        call_ensures(TryRecvOutputError::describe, (polled,), polled_text),
        call_ensures(SendInputError::describe, (SendInputError,), sent_text),
    ensures
        received is Closed ==> received_text@ == "Piper output channel is closed"@,
        received is Timeout ==> received_text@ == "Piper output channel timed out"@,
        received is TypeMismatch ==> received_text@ == "Piper output type mismatch"@,
        polled is Empty ==> polled_text@ == "Piper output channel is empty"@,
        received is Closed && polled is Closed ==> received_text@ == polled_text@,
        received is TypeMismatch && polled is TypeMismatch ==> received_text@ == polled_text@,
        sent_text@ == "Piper input channel is closed"@,
{
}

} // verus!
