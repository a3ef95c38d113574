use piper::accumulation::channel_batch_count;
use piper::channel::{Polled, Waited};
use piper::control::{apply_stage_sample, build_stage_controls, fitting_total, BusyBand, StageSample};
use piper::crew::WorkerEvent;
use piper::csv::{csv_escape, csv_header, csv_row};
use piper::graph::{plan_start, validate_graph_is_acyclic, RuntimeStage, StartPlan};
use piper::link::{
    input_outcome, output_outcome, polled_output_outcome, timed_output_outcome,
};
use piper::pipe::{collect_outputs, next_pipe_command, pipe_ends, PipeCommand, PipeSeen};
use piper::supervisor::{ScaleAction, Supervisor};
use piper::telemetry::{update_snapshot, LinkGauges, StageGauges};
use piper::trend::{LinkRates, LinkReading, QueueTrend, RateBand};
use piper::worker::{Assignment, Command, Flags, Observation, Phase, Reception, WorkerStats};
use piper::{
    anchor, stage, PipelineGraphBuilder, RecvOutputError, SendInputError, StageSpec,
    TryRecvOutputError,
};
use std::sync::atomic::AtomicBool;
use std::sync::Arc;
use std::time::Duration;

fn spec(name: &str) -> StageSpec<u8, u8, ()> {
    stage(name.to_string(), ())
}

fn chain(specs: Vec<StageSpec<u8, u8, ()>>, cap: usize) -> StartPlan<()> {
    let mut builder = PipelineGraphBuilder::<u8, ()>::new();
    let mut last = builder.input();
    for spec in specs {
        last = builder.add_stage(last, spec);
    }
    plan_start::<_, _, _, String>(builder.finish(last), Some(cap), 8).unwrap()
}

fn supervisor(plan: StartPlan<()>) -> Supervisor<String> {
    let mut supervisor = Supervisor::new(
        plan.stages,
        plan.input_link,
        plan.output_link,
        plan.link_count,
        plan.global_worker_cap,
    );
    while supervisor.hire_next().unwrap().is_some() {}
    supervisor
}

fn counts(supervisor: &Supervisor<String>) -> Vec<usize> {
    supervisor.crew.active_by_stage.iter().map(Vec::len).collect()
}

/// Every worker is at one stage, or in reserve, and its slot says so.
fn assert_everyone_is_placed(supervisor: &Supervisor<String>) {
    let crew = &supervisor.crew;
    for (worker, slot) in crew.workers.iter().enumerate() {
        let stages: Vec<usize> = (0..crew.active_by_stage.len())
            .filter(|stage| crew.active_by_stage[*stage].contains(&worker))
            .collect();
        let parked = crew.parked.iter().filter(|id| **id == worker).count();
        match slot.active_stage {
            Some(stage) => assert_eq!((stages, parked), (vec![stage], 0)),
            None => assert_eq!((stages, parked), (Vec::new(), 1)),
        }
    }
}

/// One round with the given rates on every link; the workers confirm at once.
fn round(supervisor: &mut Supervisor<String>, len: usize, band: RateBand, busy: BusyBand) {
    let links = supervisor.link_controls.len();
    let stages = supervisor.layout.stages.len();
    // The last link is the output: nothing piles up there.
    let readings = (0..links)
        .map(|link| LinkReading {
            arrivals: 0,
            drains: 0,
            len: if link + 1 == links { 0 } else { len },
        })
        .collect();
    supervisor.read_links(&readings);
    let rates = (0..links)
        .map(|link| LinkRates {
            quiet: false,
            band: if link + 1 == links { RateBand::Steady } else { band },
        })
        .collect();
    supervisor.judge_links(&rates);
    let sample = StageSample { process_nanos: 10, wait_nanos: 10, processed_items: 1 };
    supervisor.take_samples(&vec![sample; stages], &vec![busy; stages]);
    supervisor.rate_stages(&vec![None; stages]);
    let Some(operation) = supervisor.plan_scaling(false, false) else {
        return;
    };
    let workers_before = supervisor.crew.workers.len();
    match supervisor.begin_scaling(operation).unwrap() {
        ScaleAction::Nothing => {}
        ScaleAction::Assign { worker_id, spawn, first_spare, spares, .. } => {
            assert!(supervisor.crew.pending_scale.is_some());
            assert_eq!(spawn, worker_id == workers_before);
            assert_eq!(first_spare + spares, supervisor.crew.workers.len());
            supervisor.drain_worker_events(vec![WorkerEvent::Started { worker_id }]);
        }
        ScaleAction::Retire { worker_id } => {
            assert!(supervisor.crew.pending_scale.is_some());
            let stage_index = supervisor.crew.workers[worker_id].active_stage.unwrap();
            let parked = WorkerEvent::Parked { worker_id, stage_index };
            supervisor.drain_worker_events(vec![parked]);
        }
    }
    assert!(supervisor.crew.pending_scale.is_none());
}

#[test]
fn a_start_staffs_each_stage_exactly() {
    let plan = chain(
        vec![spec("a"), anchor(spec("b")).max_threads(6).initial_threads(5), spec("c")],
        6,
    );
    let supervisor = supervisor(plan);
    // Two others leave room for four of the anchor's five.
    assert_eq!(counts(&supervisor), vec![1, 4, 1]);
    assert_eq!(supervisor.crew.parked.len(), 3);
    assert_eq!(supervisor.crew.workers.len(), 9);
    assert_everyone_is_placed(&supervisor);
}

#[test]
fn growth_ends_at_the_cap_and_spares_a_fixed_anchor() {
    let plan = chain(vec![spec("a"), anchor(spec("b")).fixed_threads(2), spec("c")], 7);
    let mut supervisor = supervisor(plan);
    assert_eq!(counts(&supervisor), vec![1, 2, 1]);
    for len in 0..200 {
        round(&mut supervisor, 10 + 10 * len, RateBand::FastGrowing, BusyBand::Saturated);
        let counts = counts(&supervisor);
        assert!(counts.iter().sum::<usize>() <= 7);
        assert_eq!(counts[1], 2);
        assert_everyone_is_placed(&supervisor);
    }
    assert_eq!(counts(&supervisor).iter().sum::<usize>(), 7);
}

#[test]
fn shrinking_leaves_every_stage_a_worker() {
    let plan = chain(vec![spec("a"), spec("b")], 8);
    let mut supervisor = supervisor(plan);
    for len in 0..60 {
        round(&mut supervisor, 10 + 10 * len, RateBand::FastGrowing, BusyBand::Saturated);
    }
    assert_eq!(counts(&supervisor).iter().sum::<usize>(), 8);
    for _ in 0..400 {
        let links = supervisor.link_controls.len();
        supervisor.read_links(&vec![LinkReading { arrivals: 0, drains: 0, len: 0 }; links]);
        supervisor.judge_links(&vec![LinkRates { quiet: true, band: RateBand::Steady }; links]);
        let idle = StageSample { process_nanos: 0, wait_nanos: 10, processed_items: 0 };
        supervisor.take_samples(&vec![idle; 2], &vec![BusyBand::Idle; 2]);
        supervisor.rate_stages(&vec![Some(1); 2]);
        if let Some(operation) = supervisor.plan_scaling(false, false) {
            if let ScaleAction::Retire { worker_id } = supervisor.begin_scaling(operation).unwrap() {
                let stage_index = supervisor.crew.workers[worker_id].active_stage.unwrap();
                supervisor
                    .drain_worker_events(vec![WorkerEvent::Parked { worker_id, stage_index }]);
            }
        }
        assert!(counts(&supervisor).iter().all(|count| *count >= 1));
        assert_everyone_is_placed(&supervisor);
    }
    assert_eq!(counts(&supervisor), vec![1, 1]);
}

/// The fields of a line, with the quotes taken off again.
fn fields(line: &str) -> Vec<String> {
    let mut fields = vec![String::new()];
    let mut quoted = false;
    let mut chars = line.chars().peekable();
    while let Some(ch) = chars.next() {
        match ch {
            '"' if quoted && chars.peek() == Some(&'"') => {
                chars.next();
                fields.last_mut().unwrap().push('"');
            }
            '"' => quoted = !quoted,
            ',' if !quoted => fields.push(String::new()),
            other => fields.last_mut().unwrap().push(other),
        }
    }
    fields
}

#[test]
fn a_field_gives_its_value_back() {
    for value in ["plain", "a,b", "\"", "\"\"", "x\"y,z", "line\nbreak", "", "\r", "a b"] {
        assert_eq!(fields(&csv_escape(value)), vec![value.to_string()]);
    }
}

#[test]
fn a_row_fits_its_header() {
    let plan = chain(vec![spec("one,\"two\""), anchor(spec("last")).max_threads(3)], 4);
    let supervisor = supervisor(plan);
    let link = LinkGauges { arrival_rate: "r", drain_rate: "d", net_rate: "n", smoothed_len: "s" };
    let gauges = StageGauges { busy_ratio: "b", service_time: "t", per_worker_throughput: "p" };
    let shown = update_snapshot(
        &vec![0; 3],
        &vec![link; 3],
        &vec![gauges; 2],
        &supervisor.layout.stages,
        &supervisor.crew.active_by_stage,
        supervisor.crew.parked.len(),
        &supervisor.link_controls,
        &supervisor.crew.controls,
        supervisor.layout.output_link,
        supervisor.layout.global_worker_cap,
        false,
        false,
        false,
    );
    let header = fields(&csv_header(&shown));
    assert_eq!(header.len(), 10 + 8 + 3 * 6 + 2 * 12);
    assert_eq!(header[10], "anchor0_index");
    assert_eq!(header[18], "link0_len");
    assert_eq!(header[36], "stage0_name");
    assert_eq!(shown.stages[0].name, "one,\"two\"");
    let words = piper::PiperSnapshot {
        links: shown
            .links
            .iter()
            .map(|link| piper::LinkSnapshot {
                index: link.index,
                len: link.len,
                trend: link.trend,
                arrival_rate: link.arrival_rate.to_string(),
                drain_rate: link.drain_rate.to_string(),
                net_rate: link.net_rate.to_string(),
                smoothed_len: link.smoothed_len.to_string(),
            })
            .collect(),
        stages: shown
            .stages
            .iter()
            .map(|stage| piper::StageSnapshot {
                index: stage.index,
                name: stage.name.clone(),
                input_link: stage.input_link,
                output_link: stage.output_link,
                active_threads: stage.active_threads,
                processed_count: stage.processed_count,
                busy_ratio: stage.busy_ratio.to_string(),
                service_time: stage.service_time.to_string(),
                per_worker_throughput: stage.per_worker_throughput.to_string(),
                desired_workers: stage.desired_workers,
                scaling_state: stage.scaling_state,
                is_anchor: stage.is_anchor,
                is_fixed_anchor: stage.is_fixed_anchor,
            })
            .collect(),
        anchors: shown.anchors.clone(),
        parked_threads: shown.parked_threads,
        total_active_workers: shown.total_active_workers,
        global_worker_cap: shown.global_worker_cap,
        budget_pressure: shown.budget_pressure,
        output_backpressure: shown.output_backpressure,
        shutdown_requested: shown.shutdown_requested,
        abort_requested: shown.abort_requested,
        pending_scale_operation: shown.pending_scale_operation,
    };
    let line = csv_row("1.500", &words);
    let row = fields(&line);
    assert_eq!(row.len(), header.len());
    assert_eq!(row[..10], fields("1.500,false,false,false,2,3,4,false,false,1"));
    assert_eq!(row[10..18], fields("1,last,2,3,,WarmingUp,None,None"));
    assert_eq!(row[18..24], fields("0,0,r,d,n,s"));
    assert_eq!(
        row[36..48],
        fields("\"one,\"\"two\"\"\",0,1,1,0,b,t,p,1,Eligible,false,false")
    );
    assert!(line.contains("\"one,\"\"two\"\"\""));
    assert_eq!((header[11].as_str(), row[11].as_str()), ("anchor0_name", "last"));
    assert_eq!((header[36].as_str(), row[36].as_str()), ("stage0_name", "one,\"two\""));
    assert_eq!((header[48].as_str(), row[48].as_str()), ("stage1_name", "last"));
}

#[test]
fn batches_hold_every_value_once() {
    for (values, size) in [(0u64, 1usize), (1, 1), (10, 3), (12, 3), (65_537, 65_536)] {
        let batches = channel_batch_count(values, size);
        assert!(batches * size as u64 >= values);
        assert!(batches == 0 || (batches - 1) * (size as u64) < values);
    }
}

#[test]
fn chains_have_no_cycle_and_a_stage_that_feeds_itself_is_one() {
    let mut builder = PipelineGraphBuilder::<u8, ()>::new();
    let mut last = builder.input();
    for name in ["a", "b", "c"] {
        last = builder.add_stage(last, spec(name));
    }
    assert!(validate_graph_is_acyclic::<_, String>(&builder.stages).is_ok());
    builder.add_stage_to(last, spec("loop"), last);
    let error = validate_graph_is_acyclic::<_, String>(&builder.stages).unwrap_err();
    assert_eq!(error.describe(""), "Piper graph is invalid: graph cycles are not supported");
    let plan = chain(vec![spec("a")], 1);
    let stages: &Vec<RuntimeStage> = &plan.stages;
    assert_eq!((stages[0].input_link, stages[0].output_link), (0, 1));
}

#[test]
fn outcomes_of_the_pipelines_ends() {
    assert_eq!(input_outcome(false, true), Ok(()));
    assert_eq!(input_outcome(false, false), Err(SendInputError));
    assert_eq!(input_outcome(true, true), Err(SendInputError));
    assert_eq!(output_outcome(Some(1)), Ok(1));
    assert_eq!(output_outcome::<u8>(None), Err(RecvOutputError::Closed));
    assert_eq!(timed_output_outcome(Waited::Item(2)), Ok(2));
    assert_eq!(timed_output_outcome::<u8>(Waited::Timeout), Err(RecvOutputError::Timeout));
    assert_eq!(timed_output_outcome::<u8>(Waited::Closed), Err(RecvOutputError::Closed));
    assert_eq!(polled_output_outcome(Polled::Item(3)), Ok(3));
    assert_eq!(polled_output_outcome::<u8>(Polled::Nothing), Err(TryRecvOutputError::Empty));
    assert_eq!(polled_output_outcome::<u8>(Polled::Closed), Err(TryRecvOutputError::Closed));
}

#[test]
fn links_are_numbered_as_they_are_handed_out() {
    let mut builder = PipelineGraphBuilder::<u8, ()>::new();
    let input = builder.input();
    let first = builder.link::<u8>();
    let second = builder.add_stage(input, spec("a"));
    builder.add_stage_to(second, spec("b"), first);
    let third = builder.link::<u8>();
    let numbers = [input.index(), first.index(), second.index(), third.index()];
    assert_eq!(numbers, [0, 1, 2, 3]);
    assert_eq!(third.clone().index(), 3);
    assert_eq!(builder.link_count, 4);
}

#[test]
fn a_second_sampling_counts_nothing() {
    let stats = WorkerStats::new();
    stats.note_item();
    stats.note_process(Duration::from_nanos(7));
    stats.note_wait(Duration::from_nanos(5));
    let mut controls = build_stage_controls(&chain(vec![spec("a")], 1).stages);
    for (count, last) in [(1, 1), (1, 0), (1, 0)] {
        let total = fitting_total(&vec![stats.take()]).unwrap();
        apply_stage_sample(
            &mut controls[0],
            total,
            BusyBand::Light,
            QueueTrend::Stable,
            QueueTrend::Stable,
        );
        assert_eq!((controls[0].processed_count, controls[0].last_sample_processed), (count, last));
        assert_eq!(controls[0].busy, BusyBand::Light);
    }
}

#[test]
fn each_message_is_processed_once() {
    let cancel = Arc::new(AtomicBool::new(false));
    let (sender, inbox) = pipe_ends::<u8>(cancel);
    for message in 0..5 {
        sender.send(message).unwrap();
    }
    drop(sender);
    let mut processed = Vec::new();
    let mut seen: PipeSeen<u8, u8, u8> = PipeSeen::Initialised(Ok(()));
    let output = loop {
        seen = match next_pipe_command(seen) {
            PipeCommand::Look => PipeSeen::Arrived(inbox.look(Duration::from_millis(1))),
            PipeCommand::Process(message) => {
                processed.push(message);
                PipeSeen::Processed(Ok(()))
            }
            PipeCommand::Finalise => PipeSeen::Finalised(Ok(9)),
            PipeCommand::Finish(output) => break output,
            PipeCommand::Fail(_) => panic!("no failure"),
        };
    };
    assert_eq!((processed, output), (vec![0, 1, 2, 3, 4], 9));
}

#[test]
fn events_move_only_whom_they_name() {
    let plan = chain(vec![anchor(spec("a")).max_threads(3).initial_threads(3), spec("b")], 6);
    let mut supervisor = supervisor(plan);
    let crew = &supervisor.crew;
    let others: Vec<usize> = crew.active_by_stage[0][1..].to_vec();
    let stage_of = |supervisor: &Supervisor<String>, worker: usize| {
        let crew = &supervisor.crew;
        let stage = crew.active_by_stage.iter().position(|list| list.contains(&worker));
        (crew.workers[worker].active_stage, stage, crew.parked.contains(&worker))
    };
    let leaver = crew.active_by_stage[0][0];
    supervisor.drain_worker_events(vec![
        WorkerEvent::Started { worker_id: others[0] },
        WorkerEvent::Parked { worker_id: leaver, stage_index: 0 },
        WorkerEvent::Stopped,
    ]);
    assert_eq!(stage_of(&supervisor, leaver), (None, None, true));
    for worker in others {
        assert_eq!(stage_of(&supervisor, worker), (Some(0), Some(0), false));
    }
    assert_everyone_is_placed(&supervisor);
}

#[test]
fn workers_of_a_link_share_its_items() {
    let (sender, receiver) = piper::channel::kanal_queue::unbounded::<u8>();
    for item in 0..7 {
        sender.send(item).unwrap();
    }
    drop(sender);
    let serving = |worker| {
        let mut job = Assignment::new(worker, "w".to_string(), 0, false);
        job.step::<u8, u8>(Observation::Initialised(Ok(())));
        job.step::<u8, u8>(Observation::Announced);
        (job, None::<Command<u8, u8>>)
    };
    let mut jobs = [serving(0), serving(1)];
    let mut processed = vec![Vec::new(), Vec::new()];
    while jobs.iter().any(|(job, _)| job.phase != Phase::Done) {
        for (worker, (job, command)) in jobs.iter_mut().enumerate() {
            let flags = Flags { abort: false, retire: false, shutdown: false, input_empty: false };
            let seen = match command.take() {
                None => Observation::Checked(flags),
                Some(Command::Check) => Observation::Checked(flags),
                Some(Command::Receive) => {
                    Observation::Received(match receiver.recv_timeout(Duration::from_millis(0)) {
                        Ok(item) => Reception::Item(item),
                        Err(_) => Reception::Closed,
                    })
                }
                Some(Command::Process(item)) => {
                    processed[worker].push(item);
                    Observation::Processed(Ok(()))
                }
                Some(Command::CleanUp) => Observation::CleanedUp(Ok(())),
                Some(ended) => {
                    *command = Some(ended);
                    continue;
                }
            };
            *command = Some(job.step(seen));
        }
    }
    assert!(processed.iter().all(|items| !items.is_empty()));
    let mut all = processed.concat();
    all.sort_unstable();
    assert_eq!(all, vec![0, 1, 2, 3, 4, 5, 6]);
}

#[test]
fn workers_of_a_pipe_share_its_messages() {
    let (sender, inbox) = pipe_ends::<u8>(Arc::new(AtomicBool::new(false)));
    let inboxes = [inbox.another(), inbox];
    for message in 0..7 {
        sender.send(message).unwrap();
    }
    drop(sender);
    let mut processed = vec![Vec::new(), Vec::new()];
    let mut seen: Vec<Option<PipeSeen<u8, usize, u8>>> =
        vec![Some(PipeSeen::Initialised(Ok(()))), Some(PipeSeen::Initialised(Ok(())))];
    let mut results: Vec<Result<usize, piper::PiperError<u8>>> = Vec::new();
    while results.len() < 2 {
        for worker in 0..2 {
            let Some(last) = seen[worker].take() else { continue };
            seen[worker] = match next_pipe_command(last) {
                PipeCommand::Look => {
                    Some(PipeSeen::Arrived(inboxes[worker].look(Duration::from_millis(1))))
                }
                PipeCommand::Process(message) => {
                    processed[worker].push(message);
                    Some(PipeSeen::Processed(Ok(())))
                }
                PipeCommand::Finalise => Some(PipeSeen::Finalised(Ok(processed[worker].len()))),
                PipeCommand::Finish(output) => {
                    results.push(Ok(output));
                    None
                }
                PipeCommand::Fail(_) => panic!("no failure"),
            };
        }
    }
    let outputs = collect_outputs(results).unwrap();
    assert_eq!((outputs.len(), outputs.iter().sum::<usize>()), (2, 7));
    let mut all = processed.concat();
    all.sort_unstable();
    assert_eq!(all, vec![0, 1, 2, 3, 4, 5, 6]);
}
