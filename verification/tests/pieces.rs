use piper::accumulation::{
    channel_batch_count, configured_buffer_pool_size, configured_max_batch_size, consumers_label,
    count_range, key_place, worker_message_count, CountRange, ExampleError, NUM_KEYS,
};
use piper::channel::Waited;
use piper::config::default_stage_name;
use piper::control::{ScaleDirection, ScaleReason, StageScalingState};
use piper::crew::{Cause, Crew, PendingScale, WorkerEvent};
use piper::csv::csv_escape;
use piper::cycles::find_cycle;
use piper::error::{InternalFailure, PanicPayload, StageFailure};
use piper::graph::{
    available_threads, plan_start, resolve_anchor_hints, resolve_global_worker_cap, AnchorHints,
    PipelineGraph, PipelineGraphBuilder, ResolvedAnchor, RuntimeStage,
};
use piper::pipe::{
    arrival, check_worker_count, collect_outputs, joined_result, next_pipe_command, pipe_ends,
    pipe_worker_name, Arrival, PipeCommand, PipeFailure, PipeSeen, ThreadEnd,
};
use piper::supervisor::{initial_worker_count, parked_worker_target, worker_name};
use piper::text::{bool_text, decimal_text, join_with_commas};
use piper::time::{can_wait, duration_nanos_u64, waitable_part};
use piper::worker::{Assignment, Command, Flags, Observation, Phase, Reception, WorkerStats};
use piper::{
    anchor, panic_payload_to_string, stage, CsvTelemetryConfig, PiperConfig, PiperError,
    RecvOutputError, SendInputError, StageSpec, TryRecvOutputError,
};
use std::path::PathBuf;
use std::sync::atomic::{AtomicBool, Ordering};
use std::sync::Arc;
use std::time::Duration;

fn spec(name: &str) -> StageSpec<u8, u8, u32> {
    stage(name.to_string(), 7)
}

fn started(graph: PipelineGraph<u8, u8, u32>, cap: Option<usize>) -> String {
    match plan_start::<_, _, _, String>(graph, cap, 4) {
        Ok(_) => panic!("a fault"),
        Err(error) => error.describe(""),
    }
}

fn one_stage(spec: StageSpec<u8, u8, u32>) -> PipelineGraph<u8, u8, u32> {
    let mut builder = PipelineGraphBuilder::new();
    let input = builder.input();
    let output = builder.add_stage(input, spec);
    builder.finish(output)
}

#[test]
fn a_graph_is_checked_before_it_starts() {
    let builder = PipelineGraphBuilder::<u8, u32>::default();
    let input = builder.input();
    assert_eq!(started(builder.finish(input), None), "Piper requires at least one stage");

    let mut outside = one_stage(spec("s"));
    outside.output_link = 9;
    assert_eq!(
        started(outside, None),
        "Piper graph is invalid: input or output link is outside the graph"
    );

    let mut missing = one_stage(spec("s"));
    missing.stages[0].input_link = 5;
    assert_eq!(
        started(missing, None),
        "Piper graph is invalid: stage `s` references a missing link"
    );

    let mut cyclic = one_stage(spec("s"));
    cyclic.stages[0].input_link = 1;
    assert_eq!(started(cyclic, None), "Piper graph is invalid: graph cycles are not supported");

    assert_eq!(
        started(one_stage(spec("s")), Some(0)),
        "Piper graph is invalid: unanchored graphs require a finite non-zero worker cap"
    );
    for hints in [
        anchor(spec("s")).max_threads(0),
        anchor(spec("s")).initial_threads(0),
        anchor(spec("s")).fixed_threads(0),
    ] {
        assert_eq!(started(one_stage(hints), None), "anchor thread count must be greater than 0");
    }
    assert!(plan_start::<_, _, _, String>(one_stage(anchor(spec("s"))), Some(0), 4).is_ok());
}

#[test]
fn a_plan_keeps_stages_payloads_and_links() {
    let mut builder = PipelineGraphBuilder::<u8, u32>::new();
    let input = builder.input();
    let middle = builder.add_stage::<u8, u8>(input, spec("first"));
    let output = builder.link::<u8>();
    builder.add_stage_to::<u8, u8>(middle, anchor(spec("second")), output);
    assert_eq!((input.index(), middle.index(), output.index()), (0, 1, 2));
    let plan = plan_start::<_, _, _, String>(builder.finish(output), None, 4).unwrap();
    assert_eq!(plan.payloads, vec![7, 7]);
    assert_eq!((plan.input_link, plan.output_link, plan.link_count), (0, 2, 3));
    assert_eq!(plan.global_worker_cap, 8);
    assert_eq!(plan.stages[1].name, "second");
    let anchor = plan.stages[1].anchor.unwrap();
    assert_eq!((anchor.max_threads, anchor.initial_threads), (4, 2));
    assert!(plan.stages[0].anchor.is_none());
}

#[test]
fn anchors_and_caps_are_resolved() {
    let hints = |max_threads, initial_threads| AnchorHints { max_threads, initial_threads, fixed_threads: None };
    let resolved = |hints| resolve_anchor_hints::<String>(hints, 6).unwrap();
    assert_eq!(resolved(hints(None, None)).max_threads, 6);
    assert_eq!(resolved(hints(Some(5), None)).initial_threads, 3);
    assert_eq!(resolved(hints(Some(2), Some(9))).initial_threads, 2);
    assert_eq!(resolve_global_worker_cap(None, 3, 2), 4);
    assert_eq!(resolve_global_worker_cap(None, 9, 2), 9);
    assert_eq!(resolve_global_worker_cap(Some(1), 3, 2), 3);
    assert_eq!(resolve_global_worker_cap(None, 1, usize::MAX), usize::MAX);
    assert_eq!((available_threads(None), available_threads(Some(0)), available_threads(Some(3))), (1, 1, 3));
}

#[test]
fn cycles_are_found_at_their_first_way_in() {
    assert_eq!(find_cycle(&vec![vec![1], vec![2], vec![]]), None);
    assert_eq!(find_cycle(&vec![vec![], vec![2], vec![1]]), Some(1));
    assert_eq!(find_cycle(&vec![vec![2], vec![], vec![2]]), Some(0));
    assert_eq!(find_cycle(&vec![vec![0]]), Some(0));
    assert_eq!(find_cycle(&vec![vec![1, 2], vec![3], vec![3], vec![]]), None);
}

#[test]
fn errors_have_words() {
    let worker = || "w".to_string();
    let message = || "m".to_string();
    let error = 0u8;
    for (failure, words) in [
        (PiperError::ZeroWorkers, "worker count must be greater than 0"),
        (PiperError::NoStages, "Piper requires at least one stage"),
        (PiperError::InvalidGraph { message: message() }, "Piper graph is invalid: m"),
        (PiperError::InvalidAnchorThreads, "anchor thread count must be greater than 0"),
        (
            PiperError::SpawnFailed {
                worker: worker(),
                source: std::io::Error::from(std::io::ErrorKind::OutOfMemory),
            },
            "failed to spawn worker thread `w`",
        ),
        (
            PiperError::WorkerPanicked { worker: worker(), message: message() },
            "worker thread `w` panicked: m",
        ),
        (PiperError::UserInit { worker: worker(), error }, "init closure failed in worker `w`: e"),
        (
            PiperError::UserProcess { worker: worker(), error },
            "process closure failed in worker `w`: e",
        ),
        (
            PiperError::UserCleanup { worker: worker(), error },
            "cleanup closure failed in worker `w`: e",
        ),
        (
            PiperError::UserFinalize { worker: worker(), error },
            "finalize closure failed in worker `w`: e",
        ),
        (
            PiperError::Internal { worker: worker(), message: message() },
            "internal Piper failure in worker `w`: m",
        ),
        (PiperError::Telemetry { message: message() }, "Piper telemetry failure: m"),
    ] {
        assert_eq!(failure.describe("e"), words);
    }
    assert_eq!(SendInputError.describe(), "Piper input channel is closed");
    assert_eq!(RecvOutputError::Closed.describe(), "Piper output channel is closed");
    assert_eq!(RecvOutputError::Timeout.describe(), "Piper output channel timed out");
    assert_eq!(RecvOutputError::TypeMismatch.describe(), "Piper output type mismatch");
    assert_eq!(TryRecvOutputError::Closed.describe(), "Piper output channel is closed");
    assert_eq!(TryRecvOutputError::Empty.describe(), "Piper output channel is empty");
    assert_eq!(TryRecvOutputError::TypeMismatch.describe(), "Piper output type mismatch");
}

#[test]
fn failures_become_errors() {
    let worker = || "w".to_string();
    assert!(matches!(StageFailure::Init(1).into_error(worker()), PiperError::UserInit { error: 1, .. }));
    assert!(matches!(StageFailure::Process(1).into_error(worker()), PiperError::UserProcess { .. }));
    assert!(matches!(StageFailure::Cleanup(1).into_error(worker()), PiperError::UserCleanup { .. }));
    assert!(matches!(
        StageFailure::<u8>::Internal("m".to_string()).into_error(worker()),
        PiperError::Internal { .. }
    ));
    let internal = InternalFailure::internal("lost".to_string()).into_error::<u8>();
    assert_eq!(
        internal.describe(""),
        "internal Piper failure in worker `piper-supervisor`: lost"
    );
    assert_eq!(panic_payload_to_string(PanicPayload::Owned("a".to_string())), "a");
    assert_eq!(panic_payload_to_string(PanicPayload::Literal("b".to_string())), "b");
    assert_eq!(panic_payload_to_string(PanicPayload::Other), "<non-string panic payload>");
}

#[test]
fn settings_have_defaults() {
    let config = PiperConfig::default();
    assert_eq!(config.sample_interval, Duration::from_millis(10));
    assert_eq!(config.poll_interval, Duration::from_millis(10));
    assert_eq!(config.global_worker_cap, None);
    assert!(config.csv_telemetry.is_none());
    let csv = CsvTelemetryConfig::new(PathBuf::from("rows.csv"));
    assert_eq!(csv.interval, Duration::from_millis(250));
    assert_eq!(csv.clone().interval(Duration::from_secs(1)).interval, Duration::from_secs(1));
    assert_eq!(csv.path, PathBuf::from("rows.csv"));
    let full = PiperConfig { csv_telemetry: Some(csv), ..config };
    assert_eq!(full.clone().csv_telemetry.unwrap().path, PathBuf::from("rows.csv"));
}

#[test]
fn stages_are_named_after_their_types() {
    assert_eq!(default_stage_name("crate::stages::Widen"), "Widen");
    assert_eq!(default_stage_name("Widen"), "Widen");
    assert_eq!(default_stage_name("a::b::"), "");
    assert_eq!(default_stage_name("a:::b"), "b");
    assert_eq!(default_stage_name("a::Wrap<b::C>"), "C>");
    assert_eq!(default_stage_name(""), "");
}

#[test]
fn durations_are_counted_in_nanoseconds() {
    assert_eq!(duration_nanos_u64(Duration::from_micros(3)), 3_000);
    assert_eq!(duration_nanos_u64(Duration::MAX), u64::MAX);
    assert!(can_wait(Duration::from_secs(60)));
    assert!(!can_wait(Duration::MAX));
    assert_eq!(waitable_part(Duration::from_secs(60)), Duration::from_secs(60));
    assert_eq!(waitable_part(Duration::MAX), Duration::from_secs(u32::MAX as u64));
}

#[test]
fn texts_and_fields() {
    assert_eq!(decimal_text(0), "0");
    assert_eq!(decimal_text(u64::MAX), u64::MAX.to_string());
    assert_eq!((bool_text(true), bool_text(false)), ("true".to_string(), "false".to_string()));
    assert_eq!(join_with_commas(&Vec::new()), "");
    assert_eq!(join_with_commas(&vec!["a".to_string()]), "a");
    assert_eq!(join_with_commas(&vec!["a".to_string(), String::new(), "b".to_string()]), "a,,b");
    assert_eq!(csv_escape("plain"), "plain");
    assert_eq!(csv_escape("a,b"), "\"a,b\"");
    assert_eq!(csv_escape("say \"hi\""), "\"say \"\"hi\"\"\"");
    assert_eq!(csv_escape("two\nlines"), "\"two\nlines\"");
    assert_eq!(csv_escape("cr\r"), "\"cr\r\"");
    assert_eq!(csv_escape(""), "");
}

#[test]
fn pipe_workers_follow_their_messages() {
    type Seen = PipeSeen<u8, u8, u8>;
    let next = |seen: Seen| next_pipe_command(seen);
    assert!(matches!(next(PipeSeen::Initialised(Ok(()))), PipeCommand::Look));
    assert!(matches!(next(PipeSeen::Arrived(Arrival::Message(6))), PipeCommand::Process(6)));
    assert!(matches!(next(PipeSeen::Arrived(Arrival::Timeout)), PipeCommand::Look));
    assert!(matches!(next(PipeSeen::Arrived(Arrival::Closed)), PipeCommand::Finalise));
    assert!(matches!(next(PipeSeen::Arrived(Arrival::Cancelled)), PipeCommand::Finalise));
    assert!(matches!(next(PipeSeen::Processed(Ok(()))), PipeCommand::Look));
    assert!(matches!(next(PipeSeen::Finalised(Ok(3))), PipeCommand::Finish(3)));
    for (seen, words) in [
        (PipeSeen::Initialised(Err(9)), "init"),
        (PipeSeen::Processed(Err(9)), "process"),
        (PipeSeen::Finalised(Err(9)), "finalize"),
    ] {
        let PipeCommand::Fail(failure) = next(seen) else { panic!("a failure") };
        let error = failure.into_error("pipe-worker-1".to_string());
        assert_eq!(error.describe("9"), format!("{words} closure failed in worker `pipe-worker-1`: 9"));
    }
    assert!(matches!(PipeFailure::Init(1).into_error(String::new()), PiperError::UserInit { .. }));
    assert_eq!(pipe_worker_name(10), "pipe-worker-10");
    assert!(check_worker_count::<u8>(1).is_ok());
    assert!(matches!(check_worker_count::<u8>(0), Err(PiperError::ZeroWorkers)));
}

#[test]
fn a_pipe_inbox_tells_what_came() {
    let cancel = Arc::new(AtomicBool::new(false));
    let (sender, inbox) = pipe_ends::<u8>(Arc::clone(&cancel));
    let other = inbox.another();
    sender.send(5).unwrap();
    assert_eq!(other.look(Duration::from_millis(1)), Arrival::Message(5));
    assert_eq!(inbox.look(Duration::from_millis(1)), Arrival::Timeout);
    drop(sender);
    assert_eq!(inbox.look(Duration::from_millis(1)), Arrival::Closed);
    cancel.store(true, Ordering::Release);
    assert_eq!(inbox.look(Duration::from_millis(1)), Arrival::Cancelled);
    assert_eq!(arrival(Waited::Item(2)), Arrival::Message(2));
}

#[test]
fn outputs_come_in_order_or_not_at_all() {
    assert_eq!(collect_outputs::<u8, u8>(vec![Ok(1), Ok(2)]).unwrap(), vec![1, 2]);
    let mixed: Vec<Result<u8, PiperError<u8>>> =
        vec![Ok(1), Err(PiperError::NoStages), Err(PiperError::ZeroWorkers)];
    assert!(matches!(collect_outputs(mixed), Err(PiperError::NoStages)));
    let panicked: ThreadEnd<Result<u8, PiperError<u8>>> =
        ThreadEnd::Panicked(PanicPayload::Literal("oh".to_string()));
    assert_eq!(
        joined_result("w".to_string(), panicked).unwrap_err().describe(""),
        "worker thread `w` panicked: oh"
    );
    assert_eq!(joined_result::<u8, u8>("w".to_string(), ThreadEnd::Returned(Ok(3))).unwrap(), 3);
}

fn flags(abort: bool, retire: bool, shutdown: bool, input_empty: bool) -> Observation<u8, u8> {
    Observation::Checked(Flags { abort, retire, shutdown, input_empty })
}

#[test]
fn an_assignment_goes_through_its_phases() {
    let mut job = Assignment::new(3, "piper-worker-3".to_string(), 1, true);
    assert!(matches!(job.step::<u8, u8>(Observation::Initialised(Ok(()))), Command::Announce));
    assert!(matches!(job.started::<u8>(), WorkerEvent::Started { worker_id: 3 }));
    assert!(matches!(job.step::<u8, u8>(Observation::Announced), Command::Check));
    assert!(matches!(job.step(flags(false, false, true, false)), Command::Receive));
    assert!(matches!(job.step::<u8, u8>(Observation::Received(Reception::Item(8))), Command::Process(8)));
    assert!(matches!(job.step::<u8, u8>(Observation::Processed(Ok(()))), Command::Check));
    assert!(matches!(job.step(flags(false, false, false, true)), Command::Receive));
    let waiting = Observation::<u8, u8>::Received(Reception::Timeout { terminated: false });
    assert!(matches!(job.step(waiting), Command::Check));
    assert!(matches!(job.step(flags(false, false, true, true)), Command::CleanUp));
    assert!(matches!(job.step::<u8, u8>(Observation::CleanedUp(Ok(()))), Command::Park));
    assert_eq!(job.phase, Phase::Done);
    assert!(matches!(
        job.report::<u8>(None),
        WorkerEvent::Parked { worker_id: 3, stage_index: 1 }
    ));
}

#[test]
fn an_assignment_ends_early() {
    let serving = || {
        let mut job = Assignment::new(0, "w".to_string(), 0, false);
        job.step::<u8, u8>(Observation::Initialised(Ok(())));
        job.step::<u8, u8>(Observation::Announced);
        job
    };
    assert!(matches!(serving().step(flags(true, true, true, true)), Command::Park));
    assert!(matches!(serving().step(flags(false, true, false, false)), Command::CleanUp));
    // A stage inside the pipeline waits for its input to end.
    assert!(matches!(serving().step(flags(false, false, true, true)), Command::Receive));
    for reception in [Reception::Closed, Reception::Timeout { terminated: true }] {
        let mut job = serving();
        job.step(flags(false, false, false, true));
        assert!(matches!(job.step::<u8, u8>(Observation::Received(reception)), Command::CleanUp));
    }
    let mut failing = Assignment::new(0, "w".to_string(), 2, false);
    let Command::Fail(failure) = failing.step::<u8, _>(Observation::Initialised(Err(StageFailure::Init(5u8)))) else {
        panic!("a failure");
    };
    assert!(matches!(
        failing.report(Some(failure)),
        WorkerEvent::Failed { worker_id: 0, stage_index: 2, failure: StageFailure::Init(5), .. }
    ));
}

#[test]
fn worker_stats_are_taken_once() {
    let stats = WorkerStats::new();
    stats.note_wait(Duration::from_nanos(7));
    stats.note_process(Duration::from_nanos(5));
    stats.note_item();
    let sample = stats.take();
    assert_eq!((sample.process_nanos, sample.wait_nanos, sample.processed_items), (5, 7, 1));
    assert!(!stats.take().has_time());
    stats.note_item();
    stats.reset();
    assert_eq!(stats.take().processed_items, 0);
}

fn crew() -> Crew<u8> {
    let stages: Vec<RuntimeStage> = (0..2)
        .map(|index| RuntimeStage {
            name: format!("s{index}"),
            anchor: if index == 0 {
                None
            } else {
                Some(ResolvedAnchor { max_threads: 4, initial_threads: 2, fixed_threads: None })
            },
            input_link: index,
            output_link: index + 1,
        })
        .collect();
    let mut crew = Crew::new(2, piper::control::build_stage_controls(&stages));
    for stage in [0, 1, 1, 1] {
        let worker_id = crew.spawn_worker();
        crew.assign_worker(worker_id, stage);
    }
    crew
}

#[test]
fn a_worker_leaves_its_stage_for_the_last_one() {
    let mut crew = crew();
    assert_eq!(crew.active_by_stage, vec![vec![0], vec![1, 2, 3]]);
    assert!(!crew.drain_worker_events(vec![WorkerEvent::Parked { worker_id: 1, stage_index: 1 }]));
    assert_eq!(crew.active_by_stage, vec![vec![0], vec![3, 2]]);
    assert_eq!(crew.parked, vec![1]);
    assert!(crew.workers[1].active_stage.is_none());
    assert!(!crew.retire_worker(1));
    assert!(crew.retire_worker(2));
    assert_eq!(crew.workers[2].retire, Some(true));
}

#[test]
fn a_failure_is_kept_and_aborts() {
    let mut crew = crew();
    crew.pending_scale = Some(PendingScale {
        worker_id: 2,
        stage_index: 1,
        direction: ScaleDirection::Remove,
        reason: ScaleReason::Idle,
    });
    let failed = WorkerEvent::Failed {
        worker_id: 2,
        stage_index: 1,
        worker: "piper-worker-2".to_string(),
        failure: StageFailure::Process(8),
    };
    assert!(crew.drain_worker_events(vec![WorkerEvent::Stopped, failed]));
    assert!(crew.pending_scale.is_none());
    assert_eq!(crew.parked, vec![2]);
    let Some(cause) = crew.stored_failure.take() else { panic!("a failure") };
    assert!(matches!(cause.into_error(), PiperError::UserProcess { error: 8, .. }));
    assert!(!crew.drain_internal_failures(Vec::new()));
    assert!(crew.drain_internal_failures(vec![
        InternalFailure::internal("first".to_string()),
        InternalFailure::telemetry("last".to_string()),
    ]));
    assert!(matches!(crew.stored_failure, Some(Cause::Machinery(InternalFailure::Telemetry { .. }))));
}

#[test]
fn confirmations_change_what_is_remembered() {
    let pending = |direction, reason| {
        Some(PendingScale { worker_id: 3, stage_index: 1, direction, reason })
    };
    let mut probing = crew();
    probing.pending_scale = pending(ScaleDirection::Add, ScaleReason::AnchorProbe);
    probing.drain_worker_events(vec![
        WorkerEvent::Started { worker_id: 0 },
        WorkerEvent::Started { worker_id: 3 },
    ]);
    assert_eq!(probing.controls[1].scaling_state, StageScalingState::Probing);
    assert_eq!(probing.controls[1].anchor.unwrap().probe.unwrap().worker_id, 3);
    assert_eq!(probing.controls[1].last_operation, Some(ScaleDirection::Add));

    let mut reverting = crew();
    reverting.pending_scale = pending(ScaleDirection::Remove, ScaleReason::BudgetPressure);
    reverting.drain_worker_events(vec![WorkerEvent::Parked { worker_id: 3, stage_index: 1 }]);
    let anchor = reverting.controls[1].anchor.unwrap();
    assert_eq!(anchor.cooldown_samples, 4);
    assert_eq!(reverting.controls[1].scaling_state, StageScalingState::BackingOff);

    let mut resting = crew();
    resting.pending_scale = pending(ScaleDirection::Remove, ScaleReason::Support);
    resting.drain_worker_events(vec![WorkerEvent::Parked { worker_id: 3, stage_index: 1 }]);
    assert!(resting.controls[1].settling);
    assert_eq!(resting.controls[1].scaling_state, StageScalingState::Settling);
}

#[test]
fn stages_start_with_their_workers() {
    let stage = |anchor| RuntimeStage { name: String::new(), anchor, input_link: 0, output_link: 1 };
    let anchored = |max_threads, initial_threads, fixed_threads| {
        stage(Some(ResolvedAnchor { max_threads, initial_threads, fixed_threads }))
    };
    assert_eq!(initial_worker_count(&stage(None), 3, 8), 1);
    assert_eq!(initial_worker_count(&anchored(9, 5, Some(7)), 3, 4), 7);
    assert_eq!(initial_worker_count(&anchored(9, 5, None), 3, 8), 5);
    assert_eq!(initial_worker_count(&anchored(9, 5, None), 3, 4), 2);
    assert_eq!(initial_worker_count(&anchored(9, 5, None), 5, 2), 1);
    assert_eq!(
        parked_worker_target(&vec![stage(None), anchored(2, 1, None), anchored(2, 2, Some(2))]),
        2
    );
    assert_eq!(worker_name(41), "piper-worker-41");
}

#[test]
fn the_benchmark_counts_batches_and_keys() {
    assert_eq!(channel_batch_count(0, 10), 0);
    assert_eq!(channel_batch_count(10, 10), 1);
    assert_eq!(channel_batch_count(11, 10), 2);
    assert_eq!(channel_batch_count(u64::MAX, 1), u64::MAX);
    assert_eq!(configured_max_batch_size(None), 65_536);
    assert_eq!(configured_max_batch_size(Some(0)), 65_536);
    assert_eq!(configured_max_batch_size(Some(12)), 12);
    assert_eq!(configured_buffer_pool_size(None, 4), 8);
    assert_eq!(configured_buffer_pool_size(Some(0), 0), 1);
    assert_eq!(configured_buffer_pool_size(Some(3), 4), 3);
    assert_eq!(key_place(191), Ok(191));
    let error = key_place(192).unwrap_err();
    assert_eq!(error, ExampleError::KeyOutOfRange { key: 192, max: NUM_KEYS });
    assert_eq!(error.describe(), "key 192 is out of range (max is 192)");
    assert_eq!(worker_message_count(&vec![1, 2, 3]), 6);
    assert_eq!(count_range(&vec![4, 9, 2]), CountRange { min: 2, max: 9, spread: 7 });
    assert_eq!(count_range(&Vec::new()), CountRange { min: 0, max: 0, spread: 0 });
    assert_eq!((consumers_label(1), consumers_label(4)), ("1 consumer".to_string(), "4 consumers".to_string()));
}
