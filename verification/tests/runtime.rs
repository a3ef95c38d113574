//! Whole pipelines, with every worker taking its turn on one thread.
use piper::channel::Waited;
use piper::config::CsvTelemetryConfig;
use piper::control::{fitting_total, BusyBand};
use piper::crew::WorkerEvent;
use piper::csv::{csv_header, csv_row, recorder_failure, recorder_goes_on, RecorderAction};
use piper::error::{InternalFailure, StageFailure};
use piper::graph::{anchor, plan_start, stage, PipelineGraph, PipelineGraphBuilder};
use piper::link::{signals, FailureInbox, Link, LinkInput, PiperReceiver, PiperSender, Signals, StageContext};
use piper::supervisor::{Hire, ScaleAction, Supervisor};
use piper::telemetry::{update_snapshot, LinkGauges, LinkSnapshot, PiperSnapshot, StageGauges, StageSnapshot};
use piper::trend::{LinkRates, LinkReading, RateBand};
use piper::worker::{reception, Assignment, Command, Flags, Observation, WorkerStats};
use piper::{PiperError, RecvOutputError, SendInputError, TryRecvOutputError};
use std::cell::Cell;
use std::path::PathBuf;
use std::rc::Rc;
use std::sync::atomic::{AtomicBool, Ordering};
use std::sync::Arc;
use std::time::Duration;

#[derive(Debug, PartialEq)]
enum TestError {
    Test,
    Boom,
}

#[derive(Debug, PartialEq)]
enum Item {
    Number(u32),
    Words(String),
}

type Process = Box<dyn Fn(Item, &mut StageContext<Item>) -> Result<(), TestError>>;

/// What runs a stage.
struct Body {
    init: Box<dyn Fn() -> Result<(), TestError>>,
    process: Process,
    cleanup: Box<dyn Fn() -> Result<(), TestError>>,
}

fn body(process: impl Fn(Item, &mut StageContext<Item>) -> Result<(), TestError> + 'static) -> Body {
    Body { init: Box::new(|| Ok(())), process: Box::new(process), cleanup: Box::new(|| Ok(())) }
}

fn number(item: Item) -> u32 {
    match item {
        Item::Number(value) => value,
        Item::Words(_) => panic!("a number"),
    }
}

fn pass() -> Body {
    body(|item, ctx| {
        ctx.emit(item);
        Ok(())
    })
}

fn count_pass(count: &Rc<Cell<u32>>) -> Body {
    let count = Rc::clone(count);
    body(move |item, ctx| {
        count.set(count.get() + 1);
        ctx.emit(item);
        Ok(())
    })
}

fn fail() -> Body {
    body(|_item, _ctx| Err(TestError::Test))
}

struct Job {
    assignment: Assignment,
    input: LinkInput<Item>,
    ctx: StageContext<Item>,
    next: Option<Command<Item, TestError>>,
}

struct Line {
    supervisor: Supervisor<TestError>,
    bodies: Vec<Body>,
    links: Vec<Link<Item>>,
    jobs: Vec<Option<Job>>,
    stats: Vec<Arc<WorkerStats>>,
    shutdown: Arc<AtomicBool>,
    abort: Arc<AtomicBool>,
    signals: Signals,
    inbox: FailureInbox,
    sender: PiperSender<Item>,
    receiver: PiperReceiver<Item>,
}

impl Line {
    fn start(graph: PipelineGraph<u32, u32, Body>, cap: Option<usize>) -> Result<Line, PiperError<TestError>> {
        let plan = plan_start(graph, cap, 4)?;
        let shutdown = Arc::new(AtomicBool::new(false));
        let abort = Arc::new(AtomicBool::new(false));
        let (signals, inbox) = signals(Arc::clone(&shutdown), Arc::clone(&abort));
        let links: Vec<Link<Item>> = (0..plan.link_count).map(|_| Link::new()).collect();
        let sender = PiperSender::new(links[plan.input_link].output().unwrap(), Arc::clone(&shutdown));
        let receiver = PiperReceiver::new(links[plan.output_link].input());
        let supervisor = Supervisor::new(
            plan.stages,
            plan.input_link,
            plan.output_link,
            plan.link_count,
            plan.global_worker_cap,
        );
        let mut line = Line {
            supervisor,
            bodies: plan.payloads,
            links,
            jobs: Vec::new(),
            stats: Vec::new(),
            shutdown,
            abort,
            signals,
            inbox,
            sender,
            receiver,
        };
        while let Some(Hire { worker_id, stage_index }) = line.supervisor.hire_next()? {
            line.spawn(worker_id);
            if let Some(stage_index) = stage_index {
                line.assign(worker_id, stage_index);
            }
        }
        Ok(line)
    }

    fn spawn(&mut self, worker_id: usize) {
        assert_eq!(worker_id, self.jobs.len());
        self.jobs.push(None);
        self.stats.push(Arc::new(WorkerStats::new()));
    }

    fn assign(&mut self, worker_id: usize, stage_index: usize) {
        let stage = &self.supervisor.layout.stages[stage_index];
        self.stats[worker_id].reset();
        self.jobs[worker_id] = Some(Job {
            assignment: Assignment::new(
                worker_id,
                piper::supervisor::worker_name(worker_id),
                stage_index,
                self.supervisor.is_input_stage(stage_index),
            ),
            input: self.links[stage.input_link].input(),
            ctx: StageContext::new(
                self.links[stage.output_link].output().unwrap(),
                self.signals.another(),
            ),
            next: Some(Command::Initialise),
        });
    }

    /// Lets a worker go on until it waits in vain or is done.
    fn work(&mut self, worker_id: usize, events: &mut Vec<WorkerEvent<TestError>>) {
        let Some(mut job) = self.jobs[worker_id].take() else { return };
        let body = &self.bodies[job.assignment.stage_index];
        loop {
            let seen = match job.next.take().unwrap() {
                Command::Initialise => {
                    Observation::Initialised((body.init)().map_err(StageFailure::Init))
                }
                Command::Announce => {
                    events.push(job.assignment.started());
                    Observation::Announced
                }
                Command::Check => Observation::Checked(Flags {
                    abort: self.abort.load(Ordering::Acquire),
                    retire: self.supervisor.crew.workers[worker_id].retire == Some(true),
                    shutdown: self.shutdown.load(Ordering::Acquire),
                    input_empty: job.input.is_empty(),
                }),
                Command::Receive => {
                    let waited = job.input.recv_timeout(Duration::from_millis(0));
                    let terminated = matches!(waited, Waited::Timeout) && job.input.is_terminated();
                    self.stats[worker_id].note_wait(Duration::from_nanos(10));
                    let idle = matches!(waited, Waited::Timeout) && !terminated;
                    let seen = reception(waited, terminated);
                    job.next = Some(job.assignment.step(Observation::Received(seen)));
                    if idle {
                        self.jobs[worker_id] = Some(job);
                        return;
                    }
                    continue;
                }
                Command::Process(item) => {
                    let result = (body.process)(item, &mut job.ctx);
                    self.stats[worker_id].note_process(Duration::from_nanos(30));
                    if result.is_ok() {
                        self.stats[worker_id].note_item();
                    }
                    Observation::Processed(result.map_err(StageFailure::Process))
                }
                Command::CleanUp => {
                    Observation::CleanedUp((body.cleanup)().map_err(StageFailure::Cleanup))
                }
                Command::Park => {
                    events.push(job.assignment.report(None));
                    return;
                }
                Command::Fail(failure) => {
                    events.push(job.assignment.report(Some(failure)));
                    return;
                }
            };
            job.next = Some(job.assignment.step(seen));
        }
    }

    /// One round of the supervisor; the answer says whether it is done.
    fn round(&mut self) -> bool {
        let mut events = Vec::new();
        for worker_id in 0..self.jobs.len() {
            self.work(worker_id, &mut events);
        }
        if self.supervisor.drain_worker_events(events) {
            self.abort.store(true, Ordering::Release);
        }
        let mut failures = Vec::new();
        while let Some(failure) = self.inbox.next() {
            failures.push(failure);
        }
        if self.supervisor.drain_internal_failures(failures) {
            self.abort.store(true, Ordering::Release);
        }
        let shutdown = self.shutdown.load(Ordering::Acquire);
        let abort = self.abort.load(Ordering::Acquire);
        if self.supervisor.release_links(shutdown, abort) {
            for link in &mut self.links {
                link.let_go();
            }
        }
        let readings: Vec<LinkReading> = self.links.iter().map(Link::read).collect();
        let deltas = self.supervisor.read_links(&readings);
        let rates = deltas
            .iter()
            .map(|delta| LinkRates {
                quiet: delta.arrivals + delta.drains == 0,
                band: RateBand::Steady,
            })
            .collect();
        self.supervisor.judge_links(&rates);
        let samples = self
            .supervisor
            .collect_parts(&self.stats)
            .iter()
            .map(|parts| fitting_total(parts).unwrap())
            .collect();
        self.supervisor.take_samples(&samples, &vec![BusyBand::Moderate; self.bodies.len()]);
        self.supervisor.rate_stages(&vec![None; self.bodies.len()]);
        if let Some(operation) = self.supervisor.plan_scaling(shutdown, abort) {
            match self.supervisor.begin_scaling(operation).unwrap() {
                ScaleAction::Nothing => {}
                ScaleAction::Assign { worker_id, stage_index, spawn, first_spare, spares } => {
                    if spawn {
                        self.spawn(worker_id);
                    }
                    self.assign(worker_id, stage_index);
                    for spare in first_spare..first_spare + spares {
                        self.spawn(spare);
                    }
                }
                ScaleAction::Retire { worker_id } => {
                    assert!(self.jobs[worker_id].is_some());
                }
            }
        }
        self.supervisor.should_stop(shutdown, abort)
    }

    fn shutdown(&self) {
        self.shutdown.store(true, Ordering::Release);
    }

    fn abort(&self) {
        self.abort.store(true, Ordering::Release);
    }

    fn telemetry(&self) -> PiperSnapshot<u8, u8> {
        let gauge = LinkGauges { arrival_rate: 0, drain_rate: 0, net_rate: 0, smoothed_len: 0 };
        let stage = StageGauges { busy_ratio: 0, service_time: 0, per_worker_throughput: 0 };
        let supervisor = &self.supervisor;
        update_snapshot(
            &self.links.iter().map(Link::len).collect(),
            &vec![gauge; self.links.len()],
            &vec![stage; self.bodies.len()],
            &supervisor.layout.stages,
            &supervisor.crew.active_by_stage,
            supervisor.crew.parked.len(),
            &supervisor.link_controls,
            &supervisor.crew.controls,
            supervisor.layout.output_link,
            supervisor.layout.global_worker_cap,
            self.shutdown.load(Ordering::Acquire),
            self.abort.load(Ordering::Acquire),
            supervisor.crew.pending_scale.is_some(),
        )
    }

    fn join(mut self) -> Result<(), PiperError<TestError>> {
        self.shutdown();
        for _ in 0..1000 {
            if self.round() {
                let parked = self.supervisor.dismiss_parked();
                assert_eq!(parked.len(), self.jobs.len());
                return self.supervisor.outcome();
            }
        }
        panic!("the line does not end");
    }
}

fn one_stage_graph(spec: piper::StageSpec<u32, u32, Body>) -> PipelineGraph<u32, u32, Body> {
    let mut builder = PipelineGraphBuilder::<u32, Body>::new();
    let input = builder.input();
    let output = builder.add_stage(input, spec);
    builder.finish(output)
}

fn named<In, Out>(name: &str, body: Body) -> piper::StageSpec<In, Out, Body> {
    stage(name.to_string(), body)
}

#[test]
fn associated_type_stages_stream_outputs_and_default_cleanup_is_optional() {
    let mut builder = PipelineGraphBuilder::<u32, Body>::new();
    let input = builder.input();
    let double = body(|item, ctx| {
        ctx.emit(Item::Number(number(item) * 2));
        Ok(())
    });
    let format = body(|item, ctx| {
        ctx.emit(Item::Words(format!("value={}", number(item))));
        Ok(())
    });
    let doubled = builder.add_stage::<u32, u32>(input, anchor(named("double", double)).max_threads(1));
    let output = builder.add_stage::<u32, u32>(doubled, named("format", format));
    let mut line = Line::start(builder.finish(output), Some(8)).unwrap();

    let sender = line.sender.clone();
    let receiver = line.receiver.clone();
    for value in 1..=3 {
        sender.send(Item::Number(value)).unwrap();
    }
    line.shutdown();
    let mut outputs = Vec::new();
    for _ in 0..20 {
        line.round();
    }
    for _ in 0..3 {
        let Item::Words(words) = receiver.recv_timeout(Duration::from_secs(1)).unwrap() else {
            panic!("words");
        };
        outputs.push(words);
    }
    line.join().unwrap();
    outputs.sort();
    assert_eq!(outputs, ["value=2", "value=4", "value=6"]);
}

#[test]
fn get_telemetry_reports_operational_state() {
    let mut builder = PipelineGraphBuilder::<u32, Body>::new();
    let input = builder.input();
    let left = builder.add_stage::<u32, u32>(input, named("left", pass()));
    let output = builder.add_stage::<u32, u32>(left, anchor(named("right", pass())).max_threads(1));
    let mut line = Line::start(builder.finish(output), Some(8)).unwrap();

    for _ in 0..5 {
        line.round();
    }
    let telemetry = line.telemetry();

    assert_eq!(telemetry.links.len(), 3);
    assert_eq!(telemetry.stages.len(), 2);
    assert_eq!(telemetry.stages[0].active_threads, 1);
    assert_eq!(telemetry.stages[1].active_threads, 1);
    assert_eq!(telemetry.anchors.len(), 1);
    assert_eq!(telemetry.anchors[0].stage_index, 1);
    assert_eq!(telemetry.anchors[0].max_threads, 1);
    assert_eq!(telemetry.global_worker_cap, 8);
    assert_eq!(telemetry.total_active_workers, 2);
    assert!(telemetry.stages.iter().any(|stage| stage.is_anchor));
    assert!(telemetry.parked_threads >= 2);

    line.abort();
    line.join().unwrap();
}

#[test]
fn fixed_anchor_does_not_reserve_parked_worker() {
    let mut line =
        Line::start(one_stage_graph(anchor(named("fixed", pass())).fixed_threads(1)), Some(8)).unwrap();
    for _ in 0..5 {
        line.round();
    }
    let telemetry = line.telemetry();

    assert_eq!(telemetry.stages.len(), 1);
    assert_eq!(telemetry.stages[0].active_threads, 1);
    assert!(telemetry.stages[0].is_fixed_anchor);
    assert_eq!(telemetry.parked_threads, 0);

    line.abort();
    line.join().unwrap();
}

#[test]
fn abort_skips_inline_builder_cleanup() {
    let cleaned = Rc::new(Cell::new(false));
    let cleaned_for_stage = Rc::clone(&cleaned);
    let cleaning = Body {
        cleanup: Box::new(move || {
            cleaned_for_stage.set(true);
            Ok(())
        }),
        ..pass()
    };
    let line =
        Line::start(one_stage_graph(anchor(named("cleanup", cleaning)).max_threads(1)), Some(8)).unwrap();

    line.abort();
    line.join().unwrap();

    assert!(!cleaned.get());
}

#[test]
fn shutdown_cleans_up() {
    let cleaned = Rc::new(Cell::new(false));
    let cleaned_for_stage = Rc::clone(&cleaned);
    let cleaning = Body {
        cleanup: Box::new(move || {
            cleaned_for_stage.set(true);
            Ok(())
        }),
        ..pass()
    };
    Line::start(one_stage_graph(named("cleanup", cleaning)), None).unwrap().join().unwrap();
    assert!(cleaned.get());
}

#[test]
fn user_process_failure_fails_pipeline() {
    let line =
        Line::start(one_stage_graph(anchor(named("fail", fail())).max_threads(1)), Some(8)).unwrap();

    line.sender.send(Item::Number(1)).unwrap();
    let error = line.join().expect_err("process error should fail join");
    assert!(matches!(error, PiperError::UserProcess { .. }));
}

#[test]
fn cleanup_failure_is_reported_from_join() {
    let cleaning = Body { cleanup: Box::new(|| Err(TestError::Boom)), ..pass() };
    let line =
        Line::start(one_stage_graph(anchor(named("cleanup", cleaning)).max_threads(1)), Some(8)).unwrap();

    line.shutdown();
    let error = line.join().expect_err("cleanup failure should fail join");
    assert!(matches!(error, PiperError::UserCleanup { .. }));
}

#[test]
fn init_failure_is_reported_from_join() {
    let starting = Body { init: Box::new(|| Err(TestError::Boom)), ..pass() };
    let line = Line::start(one_stage_graph(named("init", starting)), None).unwrap();
    let error = line.join().expect_err("init failure should fail join");
    assert!(matches!(
        error,
        PiperError::UserInit { ref worker, error: TestError::Boom } if worker == "piper-worker-0"
    ));
}

#[test]
fn machinery_failure_is_reported_from_join() {
    let line = Line::start(one_stage_graph(named("pass", pass())), None).unwrap();
    line.signals.fail(InternalFailure::telemetry("disk full".to_string()));
    assert!(line.signals.is_aborting());
    let error = line.join().expect_err("a machinery failure should fail join");
    assert!(matches!(error, PiperError::Telemetry { ref message } if message == "disk full"));
}

#[test]
fn fork_join_graph_work_shares_and_merges_outputs() {
    let left = Rc::new(Cell::new(0));
    let right = Rc::new(Cell::new(0));
    let mut builder = PipelineGraphBuilder::<u32, Body>::new();
    let input = builder.input();
    let fork = builder.add_stage::<u32, u32>(input, named("prepare", pass()));
    let merged = builder.link::<u32>();
    builder.add_stage_to::<u32, u32>(fork, named("left", count_pass(&left)), merged);
    builder.add_stage_to::<u32, u32>(
        fork,
        anchor(named("right", count_pass(&right))).fixed_threads(1),
        merged,
    );
    let mut line = Line::start(builder.finish(merged), Some(8)).unwrap();

    for value in 0..100 {
        line.sender.send(Item::Number(value)).unwrap();
    }
    line.shutdown();
    for _ in 0..20 {
        line.round();
    }
    let mut seen = Vec::new();
    for _ in 0..100 {
        seen.push(number(line.receiver.recv_timeout(Duration::from_secs(1)).unwrap()));
    }
    seen.sort();
    assert_eq!(seen, (0..100).collect::<Vec<u32>>());

    assert_eq!(left.get() + right.get(), 100);
    assert_eq!(line.telemetry().anchors.len(), 1);
    assert_eq!(line.telemetry().anchors[0].fixed_threads, Some(1));
    line.join().unwrap();
}

#[test]
fn piper_allows_zero_or_multiple_anchors() {
    let no_anchor = Line::start(one_stage_graph(named("pass", pass())), Some(8)).unwrap();
    no_anchor.abort();
    no_anchor.join().unwrap();

    let mut builder = PipelineGraphBuilder::<u32, Body>::new();
    let input = builder.input();
    let left = builder.add_stage::<u32, u32>(input, anchor(named("left", pass())).max_threads(1));
    let output = builder.add_stage::<u32, u32>(left, anchor(named("right", pass())).max_threads(1));
    let two_anchors = Line::start(builder.finish(output), Some(8)).unwrap();
    assert_eq!(two_anchors.telemetry().anchors.len(), 2);
    two_anchors.abort();
    two_anchors.join().unwrap();
}

/// A snapshot with its gauges written out.
fn written(snapshot: &PiperSnapshot<u8, u8>) -> PiperSnapshot<String, String> {
    PiperSnapshot {
        links: snapshot
            .links
            .iter()
            .map(|link| LinkSnapshot {
                index: link.index,
                len: link.len,
                trend: link.trend,
                arrival_rate: format!("{:.6}", 0.0),
                drain_rate: format!("{:.6}", 0.0),
                net_rate: format!("{:.6}", 0.0),
                smoothed_len: format!("{:.6}", 0.0),
            })
            .collect(),
        stages: snapshot
            .stages
            .iter()
            .map(|stage| StageSnapshot {
                index: stage.index,
                name: stage.name.clone(),
                input_link: stage.input_link,
                output_link: stage.output_link,
                active_threads: stage.active_threads,
                processed_count: stage.processed_count,
                busy_ratio: format!("{:.6}", 0.0),
                service_time: format!("{:.3}", 0.0),
                per_worker_throughput: format!("{:.6}", 0.0),
                desired_workers: stage.desired_workers,
                scaling_state: stage.scaling_state,
                is_anchor: stage.is_anchor,
                is_fixed_anchor: stage.is_fixed_anchor,
            })
            .collect(),
        anchors: snapshot.anchors.clone(),
        parked_threads: snapshot.parked_threads,
        total_active_workers: snapshot.total_active_workers,
        global_worker_cap: snapshot.global_worker_cap,
        budget_pressure: snapshot.budget_pressure,
        output_backpressure: snapshot.output_backpressure,
        shutdown_requested: snapshot.shutdown_requested,
        abort_requested: snapshot.abort_requested,
        pending_scale_operation: snapshot.pending_scale_operation,
    }
}

#[test]
fn csv_telemetry_writes_wide_rows_and_existing_path_fails() {
    let config = CsvTelemetryConfig::new(PathBuf::from("piper.csv")).interval(Duration::from_millis(5));
    assert_eq!(config.interval, Duration::from_millis(5));
    let mut line =
        Line::start(one_stage_graph(anchor(named("pass", pass())).max_threads(1)), Some(8)).unwrap();
    let mut csv = csv_header(&line.telemetry());
    line.sender.send(Item::Number(1)).unwrap();
    line.round();
    assert_eq!(line.receiver.recv_timeout(Duration::from_secs(1)).unwrap(), Item::Number(1));
    csv.push('\n');
    csv.push_str(&csv_row("5.000", &written(&line.telemetry())));
    line.shutdown();
    line.join().unwrap();

    assert!(csv.starts_with("elapsed_ms,shutdown_requested"));
    assert!(csv.contains("link0_trend"));
    assert!(csv.contains("stage0_service_time_ms"));
    assert!(csv.contains("output_backpressure"));
    assert!(csv.contains("anchor_count"));
    assert!(csv.lines().count() >= 2);
    let columns: Vec<usize> = csv.lines().map(|line| line.split(',').count()).collect();
    assert_eq!(columns, vec![10 + 8 + 2 * 6 + 12; 2]);
    assert!(csv.lines().nth(1).unwrap().starts_with("5.000,false,false,false,1,1,8,false,false,1,0,pass,1,1,,"));

    let existing = PiperError::<TestError>::Telemetry {
        message: recorder_failure(RecorderAction::Create, "piper.csv", "File exists"),
    };
    assert_eq!(
        existing.describe(""),
        "Piper telemetry failure: failed to create CSV telemetry file `piper.csv`: File exists"
    );
    assert!(recorder_goes_on(true, false));
    assert!(!recorder_goes_on(true, true));
    assert!(!recorder_goes_on(false, false));
}

#[test]
fn a_growing_input_adds_a_parked_worker_and_refills_the_reserve() {
    let mut line = Line::start(one_stage_graph(named("pass", pass())), Some(3)).unwrap();
    line.round();
    for value in 0..10 {
        line.sender.send(Item::Number(value)).unwrap();
    }
    let readings: Vec<LinkReading> = line.links.iter().map(Link::read).collect();
    line.supervisor.read_links(&readings);
    line.supervisor.judge_links(&vec![
        LinkRates { quiet: false, band: RateBand::Runaway },
        LinkRates { quiet: true, band: RateBand::Steady },
    ]);
    line.supervisor.rate_stages(&vec![None]);
    assert!(line.supervisor.plan_scaling(true, false).is_none());
    let operation = line.supervisor.plan_scaling(false, false).unwrap();
    assert_eq!(
        line.supervisor.begin_scaling(operation).unwrap(),
        ScaleAction::Assign { worker_id: 1, stage_index: 0, spawn: false, first_spare: 2, spares: 1 }
    );
    assert_eq!(line.supervisor.crew.active_by_stage, vec![vec![0, 1]]);
    assert_eq!(line.supervisor.crew.parked, vec![2]);
    // One resizing at a time.
    assert!(line.supervisor.plan_scaling(false, false).is_none());
    line.supervisor.drain_worker_events(vec![WorkerEvent::Started { worker_id: 1 }]);
    assert!(line.supervisor.crew.pending_scale.is_none());
    assert!(line.supervisor.crew.controls[0].settling);
    // After the links were let go, nobody can be assigned.
    assert!(line.supervisor.release_links(true, false));
    assert!(!line.supervisor.release_links(true, false));
    let error = line.supervisor.assign_worker(2, 0).unwrap_err();
    assert_eq!(
        error.describe(""),
        "internal Piper failure in worker `piper-worker-2`: cannot assign worker after output sender was dropped"
    );
}

#[test]
fn the_ends_of_a_pipeline_answer_their_user() {
    let mut line = Line::start(one_stage_graph(named("pass", pass())), None).unwrap();
    assert_eq!(line.receiver.try_recv(), Err(TryRecvOutputError::Empty));
    assert_eq!(line.receiver.recv_timeout(Duration::ZERO), Err(RecvOutputError::Timeout));
    line.sender.send(Item::Number(4)).unwrap();
    line.round();
    assert_eq!(line.receiver.recv(), Ok(Item::Number(4)));
    line.sender.send(Item::Number(5)).unwrap();
    line.round();
    assert_eq!(line.receiver.try_recv(), Ok(Item::Number(5)));
    assert!(!line.sender.is_closed());
    line.shutdown();
    assert!(line.sender.is_closed());
    assert_eq!(line.sender.send(Item::Number(6)), Err(SendInputError));
    let receiver = line.receiver.clone();
    line.join().unwrap();
    assert_eq!(receiver.try_recv(), Err(TryRecvOutputError::Closed));
    assert_eq!(receiver.recv(), Err(RecvOutputError::Closed));
}

#[test]
fn an_output_that_is_lost_fails_the_pipeline() {
    let shutdown = Arc::new(AtomicBool::new(false));
    let abort = Arc::new(AtomicBool::new(false));
    let (runtime, inbox) = signals(Arc::clone(&shutdown), Arc::clone(&abort));
    let link = Link::<u8>::new();
    let mut ctx = StageContext::new(link.output().unwrap(), runtime);
    ctx.emit(1);
    assert_eq!(link.len(), 1);
    drop(link);
    ctx.emit(2);
    assert!(ctx.is_aborting());
    assert!(!ctx.is_shutting_down());
    let Some(InternalFailure::Internal { message }) = inbox.next() else { panic!("a failure") };
    assert_eq!(message, "stage output channel closed unexpectedly");
    ctx.emit(3);
    assert!(inbox.next().is_none());
}
