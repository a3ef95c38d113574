use piper::control::{
    anchor_probe_state, apply_stage_sample, build_stage_controls, collect_stage_samples,
    fitting_total, grow_sample_count, update_desired_workers, AnchorControl, AnchorProbe,
    AnchorProbeOutcome, AnchorProbeReason, AnchorProbeState, BusyBand, ScaleDirection, ScaleReason,
    StageControl, StageSample, StageScalingState, IDLE_SHRINK_SAMPLES, PROBE_SETTLE_SAMPLES,
};
use piper::graph::{ResolvedAnchor, RuntimeStage};
use piper::link::Link;
use piper::scaling::{
    active_worker_count, choose_anchor_operation, choose_anchor_probe_operation,
    choose_idle_operation, choose_scale_operation, choose_support_operation, link_underfeeds_stage,
    stage_can_scale, ScaleOperation,
};
use piper::trend::{
    classify_links, classify_queue_trend, sample_links, LinkControl, LinkRates, LinkReading,
    QueueTrend, RateBand,
};

fn support_control() -> StageControl {
    StageControl {
        processed_count: 0,
        busy: BusyBand::Idle,
        desired_workers: 1,
        last_sample_processed: 0,
        scaling_state: StageScalingState::Eligible,
        settling: false,
        settle_samples: 0,
        settle_observed_work: false,
        idle_samples: 0,
        last_operation: None,
        anchor: None,
    }
}

fn anchor_control(max_threads: usize) -> StageControl {
    StageControl {
        anchor: Some(AnchorControl {
            max_threads,
            fixed_threads: None,
            warmup_complete: true,
            probe: None,
            cooldown_samples: 0,
            last_probe_outcome: AnchorProbeOutcome::Unset,
            last_probe_reason: AnchorProbeReason::Unset,
        }),
        // 0.8 of the time.
        busy: BusyBand::Saturated,
        desired_workers: max_threads,
        ..support_control()
    }
}

fn link(trend: QueueTrend) -> LinkControl {
    LinkControl {
        trend,
        len: if trend.is_growing() { 8 } else { 0 },
        previous_len: 4,
        ..LinkControl::default()
    }
}

fn linear_runtime_stages(count: usize) -> Vec<RuntimeStage> {
    (0..count)
        .map(|index| RuntimeStage {
            name: format!("stage{index}"),
            anchor: None,
            input_link: index,
            output_link: index + 1,
        })
        .collect()
}

/// The judgement of smoothed rates that the classifier takes.
fn judged(arrival: f64, drain: f64, net: f64) -> (bool, RateBand) {
    let ratio = net / arrival.max(drain).max(1.0);
    let band = if ratio <= -0.45 {
        RateBand::FastDraining
    } else if ratio <= -0.12 {
        RateBand::Draining
    } else if ratio >= 0.85 {
        RateBand::Runaway
    } else if ratio >= 0.45 {
        RateBand::FastGrowing
    } else if ratio >= 0.12 {
        RateBand::Growing
    } else {
        RateBand::Steady
    };
    (arrival + drain < 0.01, band)
}

fn classify(len: usize, previous: usize, arrival: f64, drain: f64, net: f64) -> QueueTrend {
    let (quiet, band) = judged(arrival, drain, net);
    classify_queue_trend(len, previous, quiet, band)
}

#[test]
fn queue_trend_classification_distinguishes_stable_empty_from_starved() {
    assert_eq!(classify(0, 0, 0.0, 0.0, 0.0), QueueTrend::Starved);
    assert_eq!(classify(0, 0, 100.0, 100.0, 0.0), QueueTrend::Stable);
    assert_eq!(classify(20, 10, 100.0, 10.0, 90.0), QueueTrend::Runaway);
    assert_eq!(classify(2, 20, 10.0, 100.0, -90.0), QueueTrend::FastDraining);
}

#[test]
fn queue_trend_uses_lengths_where_rates_are_steady() {
    assert_eq!(classify(13, 10, 50.0, 50.0, 0.0), QueueTrend::Growing);
    assert_eq!(classify(12, 10, 50.0, 50.0, 0.0), QueueTrend::Stable);
    assert_eq!(classify(10, 10, 100.0, 5.0, 95.0), QueueTrend::FastGrowing);
    assert_eq!(classify(5, 5, 100.0, 50.0, 50.0), QueueTrend::FastGrowing);
    assert_eq!(classify(5, 5, 100.0, 80.0, 20.0), QueueTrend::Growing);
    assert_eq!(classify(5, 9, 80.0, 100.0, -20.0), QueueTrend::Draining);
}

#[test]
fn link_sampling_tracks_rates_and_numeric_trends() {
    let link = Link::<u8>::new();
    let output = link.output().unwrap();
    let mut controls = vec![LinkControl::default()];

    for _ in 0..10 {
        assert!(output.send(1_u8));
    }
    let deltas = sample_links(&vec![link.read()], &mut controls);
    // One second has passed.
    let arrival_rate = deltas[0].arrivals as f64 / 1.0;
    let drain_rate = deltas[0].drains as f64 / 1.0;
    let (quiet, band) = judged(arrival_rate, drain_rate, arrival_rate - drain_rate);
    classify_links(&vec![LinkRates { quiet, band }], &mut controls);

    assert_eq!(arrival_rate, 10.0);
    assert_eq!(drain_rate, 0.0);
    assert!(controls[0].trend.is_growing());
    assert_eq!(QueueTrend::Runaway.code(), 6);
}

#[test]
fn a_counter_that_was_reset_gives_no_rate() {
    let mut controls = vec![LinkControl { last_arrivals: 9, last_drains: 4, len: 5, ..link(QueueTrend::Stable) }];
    let deltas = sample_links(&vec![LinkReading { arrivals: 3, drains: 6, len: 2 }], &mut controls);
    assert_eq!((deltas[0].arrivals, deltas[0].drains), (0, 2));
    assert_eq!((controls[0].previous_len, controls[0].len), (5, 2));
}

#[test]
fn growing_internal_link_adds_consumer() {
    let active = vec![vec![0], vec![1]];
    let links = vec![link(QueueTrend::Stable), link(QueueTrend::Growing), link(QueueTrend::Stable)];
    let mut controls = vec![anchor_control(1), support_control()];
    controls[1].desired_workers = 2;
    let stages = linear_runtime_stages(active.len());

    assert!(matches!(
        choose_scale_operation(&links, &active, &mut controls, &stages, 2, 4),
        Some(ScaleOperation::Add { stage_index: 1, reason: ScaleReason::Support })
    ));
}

#[test]
fn draining_anchor_input_adds_nearest_upstream_producer() {
    let active = vec![vec![0], vec![1], vec![2, 3]];
    let links = vec![
        link(QueueTrend::Stable),
        link(QueueTrend::Stable),
        link(QueueTrend::Draining),
        link(QueueTrend::Stable),
    ];
    let mut controls = vec![support_control(), support_control(), anchor_control(4)];
    controls[1].desired_workers = 2;
    let stages = linear_runtime_stages(active.len());

    assert!(matches!(
        choose_scale_operation(&links, &active, &mut controls, &stages, 3, 6),
        Some(ScaleOperation::Add { stage_index: 1, reason: ScaleReason::Support })
    ));
}

#[test]
fn unsuppliable_anchor_input_reduces_anchor() {
    let active = vec![vec![0], vec![1], vec![2, 3]];
    let links = vec![
        link(QueueTrend::Starved),
        link(QueueTrend::Starved),
        link(QueueTrend::Draining),
        link(QueueTrend::Stable),
    ];
    let mut controls = vec![support_control(), support_control(), anchor_control(4)];
    let stages = linear_runtime_stages(active.len());

    assert!(matches!(
        choose_scale_operation(&links, &active, &mut controls, &stages, 3, 6),
        Some(ScaleOperation::Remove { stage_index: 2, reason: ScaleReason::AnchorRevert, .. })
    ));
    assert_eq!(
        controls[2].anchor.as_ref().unwrap().last_probe_reason,
        AnchorProbeReason::InputUnderfed
    );
}

#[test]
fn global_cap_full_reduces_anchor_before_support_growth() {
    let active = vec![vec![0, 1], vec![2]];
    let links = vec![link(QueueTrend::Stable), link(QueueTrend::Growing), link(QueueTrend::Stable)];
    let mut controls = vec![anchor_control(4), support_control()];
    controls[1].desired_workers = 2;
    let stages = linear_runtime_stages(active.len());

    assert!(matches!(
        choose_scale_operation(&links, &active, &mut controls, &stages, 2, 3),
        Some(ScaleOperation::Remove { stage_index: 0, reason: ScaleReason::BudgetPressure, .. })
    ));
}

#[test]
fn output_growth_sets_backpressure_and_blocks_anchor_scaling() {
    let active = vec![vec![0, 1], vec![2]];
    let links = vec![link(QueueTrend::Stable), link(QueueTrend::Stable), link(QueueTrend::Growing)];
    let mut controls = vec![anchor_control(4), support_control()];
    let stages = linear_runtime_stages(active.len());

    assert!(matches!(
        choose_scale_operation(&links, &active, &mut controls, &stages, 2, 4),
        Some(ScaleOperation::Remove { stage_index: 0, reason: ScaleReason::AnchorRevert, .. })
    ));
    assert_eq!(
        controls[0].anchor.as_ref().unwrap().last_probe_reason,
        AnchorProbeReason::OutputBackpressure
    );
}

#[test]
fn support_shrink_settling_does_not_block_anchor_probe_decision() {
    let active = vec![vec![0], vec![1, 2, 3]];
    let links = vec![link(QueueTrend::Stable), link(QueueTrend::Stable), link(QueueTrend::Stable)];
    let mut controls = vec![support_control(), anchor_control(4)];
    controls[0].settling = true;
    controls[0].last_operation = Some(ScaleDirection::Remove);
    controls[1].scaling_state = StageScalingState::Probing;
    controls[1].anchor.as_mut().unwrap().probe =
        Some(AnchorProbe { worker_id: 3, samples: PROBE_SETTLE_SAMPLES, observed_work: true });
    let stages = linear_runtime_stages(active.len());

    assert!(
        choose_anchor_probe_operation(&links, &active, &mut controls, &stages, 1, 2, 8).is_none()
    );
    let anchor = controls[1].anchor.as_ref().unwrap();
    assert!(anchor.probe.is_none());
    assert_eq!(anchor.last_probe_outcome, AnchorProbeOutcome::Kept);
    assert_eq!(anchor.last_probe_reason, AnchorProbeReason::Unset);
    assert_eq!(anchor.cooldown_samples, 2);
    assert_eq!(controls[1].scaling_state, StageScalingState::Eligible);
}

#[test]
fn support_growth_settling_still_blocks_anchor_probe_decision() {
    let active = vec![vec![0], vec![1, 2, 3]];
    let links = vec![link(QueueTrend::Stable), link(QueueTrend::Stable), link(QueueTrend::Stable)];
    let mut controls = vec![support_control(), anchor_control(4)];
    controls[0].settling = true;
    controls[0].last_operation = Some(ScaleDirection::Add);
    controls[1].scaling_state = StageScalingState::Probing;
    controls[1].anchor.as_mut().unwrap().probe =
        Some(AnchorProbe { worker_id: 3, samples: PROBE_SETTLE_SAMPLES, observed_work: true });
    let stages = linear_runtime_stages(active.len());

    assert!(
        choose_anchor_probe_operation(&links, &active, &mut controls, &stages, 1, 2, 8).is_none()
    );
    let anchor = controls[1].anchor.as_ref().unwrap();
    assert!(anchor.probe.is_some());
    assert_eq!(anchor.last_probe_outcome, AnchorProbeOutcome::Unset);
    assert_eq!(anchor.cooldown_samples, 0);
    assert_eq!(controls[1].scaling_state, StageScalingState::Probing);
}

#[test]
fn delayed_idle_shrink_preserves_short_gaps_then_removes_one() {
    let active = vec![vec![0], vec![1, 2]];
    let links = vec![link(QueueTrend::Stable), link(QueueTrend::Starved), link(QueueTrend::Stable)];
    let mut controls = vec![anchor_control(1), support_control()];
    controls[1].desired_workers = 2;
    controls[1].idle_samples = IDLE_SHRINK_SAMPLES - 1;
    let stages = linear_runtime_stages(active.len());

    assert!(choose_idle_operation(&links, &active, &mut controls, &stages).is_none());

    controls[1].idle_samples = IDLE_SHRINK_SAMPLES;
    assert!(matches!(
        choose_idle_operation(&links, &active, &mut controls, &stages),
        Some(ScaleOperation::Remove { stage_index: 1, reason: ScaleReason::Idle, .. })
    ));
}

#[test]
fn a_ripe_probe_is_taken_back_by_name_for_each_reason() {
    let stages = linear_runtime_stages(2);
    let ripe = Some(AnchorProbe { worker_id: 3, samples: 2, observed_work: true });
    let stable = QueueTrend::Stable;
    let growing = QueueTrend::Growing;
    for (trends, busy, cap, why) in [
        ([stable, stable, growing], BusyBand::Saturated, 8, AnchorProbeReason::OutputBackpressure),
        ([stable, stable, stable], BusyBand::Saturated, 4, AnchorProbeReason::BudgetPressure),
        ([QueueTrend::Starved, stable, stable], BusyBand::Busy, 8, AnchorProbeReason::InputUnderfed),
        ([stable, growing, stable], BusyBand::Busy, 8, AnchorProbeReason::SupportUnstable),
        ([stable, stable, stable], BusyBand::Light, 8, AnchorProbeReason::Idle),
    ] {
        let links: Vec<LinkControl> = trends.iter().map(|trend| link(*trend)).collect();
        let active = vec![vec![1, 2, 3], vec![0]];
        let mut controls = vec![anchor_control(4), support_control()];
        controls[0].busy = busy;
        controls[0].anchor.as_mut().unwrap().probe = ripe;
        assert!(matches!(
            choose_anchor_probe_operation(&links, &active, &mut controls, &stages, 0, 2, cap),
            Some(ScaleOperation::Remove {
                stage_index: 0,
                worker_id: Some(3),
                reason: ScaleReason::AnchorRevert,
            })
        ));
        assert_eq!(controls[0].anchor.as_ref().unwrap().last_probe_reason, why);
        assert!(controls[0].anchor.as_ref().unwrap().probe.is_some());
    }
}

#[test]
fn an_unripe_probe_is_left_to_run() {
    let stages = linear_runtime_stages(1);
    let links = vec![link(QueueTrend::Starved), link(QueueTrend::Growing)];
    let active = vec![vec![0, 1]];
    for (samples, observed_work) in [(1, true), (2, false)] {
        let mut controls = vec![anchor_control(4)];
        controls[0].anchor.as_mut().unwrap().probe =
            Some(AnchorProbe { worker_id: 1, samples, observed_work });
        assert!(choose_anchor_probe_operation(&links, &active, &mut controls, &stages, 0, 1, 2)
            .is_none());
        assert!(controls[0].anchor.as_ref().unwrap().probe.is_some());
    }
}

#[test]
fn a_busy_anchor_is_probed_when_it_is_fed_and_drained() {
    let stages = linear_runtime_stages(1);
    let links = vec![link(QueueTrend::Stable), link(QueueTrend::Stable)];
    let active = vec![vec![0]];
    let mut controls = vec![anchor_control(4)];
    assert!(matches!(
        choose_anchor_operation(&links, &active, &mut controls, &stages, 0, 1, 4),
        Some(ScaleOperation::Add { stage_index: 0, reason: ScaleReason::AnchorProbe })
    ));
    // The cap is reached.
    assert!(choose_anchor_operation(&links, &active, &mut controls, &stages, 0, 1, 1).is_none());
    // It cools down.
    controls[0].anchor.as_mut().unwrap().cooldown_samples = 1;
    assert!(choose_anchor_operation(&links, &active, &mut controls, &stages, 0, 1, 4).is_none());
    assert_eq!(controls[0].scaling_state, StageScalingState::BackingOff);
    // It is not warm.
    let mut cold = vec![anchor_control(4)];
    cold[0].anchor.as_mut().unwrap().warmup_complete = false;
    assert!(choose_anchor_operation(&links, &active, &mut cold, &stages, 0, 1, 4).is_none());
    // It has its maximum.
    let mut full = vec![anchor_control(1)];
    assert!(choose_anchor_operation(&links, &active, &mut full, &stages, 0, 1, 4).is_none());
}

#[test]
fn a_fixed_anchor_is_never_resized() {
    let stages = linear_runtime_stages(2);
    for trend in [QueueTrend::Growing, QueueTrend::Starved, QueueTrend::Draining] {
        for busy in [BusyBand::Idle, BusyBand::Saturated] {
            let links = vec![link(trend), link(trend), link(QueueTrend::Growing)];
            let mut controls = vec![anchor_control(4), anchor_control(4)];
            for control in controls.iter_mut() {
                control.busy = busy;
                control.idle_samples = 99;
                control.anchor.as_mut().unwrap().fixed_threads = Some(2);
            }
            let active = vec![vec![0, 1], vec![2, 3]];
            assert!(choose_scale_operation(&links, &active, &mut controls, &stages, 2, 9).is_none());
        }
    }
}

#[test]
fn an_anchor_that_feeds_another_is_not_grown_past_its_maximum() {
    let stages = linear_runtime_stages(2);
    let links = vec![link(QueueTrend::Stable), link(QueueTrend::Draining), link(QueueTrend::Stable)];
    let active = vec![vec![0], vec![1]];
    let mut controls = vec![anchor_control(1), anchor_control(1)];
    assert!(choose_support_operation(&links, &active, &mut controls, &stages, 2, 9).is_none());
    let mut roomier = vec![anchor_control(2), anchor_control(1)];
    assert!(matches!(
        choose_support_operation(&links, &active, &mut roomier, &stages, 2, 9),
        Some(ScaleOperation::Add { stage_index: 0, reason: ScaleReason::Support })
    ));
}

#[test]
fn an_oversized_support_stage_gives_a_worker_back() {
    let stages = linear_runtime_stages(1);
    let active = vec![vec![4, 5]];
    let mut controls = vec![support_control()];
    let steady = vec![link(QueueTrend::Stable), link(QueueTrend::Stable)];
    assert!(matches!(
        choose_idle_operation(&steady, &active, &mut controls, &stages),
        Some(ScaleOperation::Remove { stage_index: 0, worker_id: None, reason: ScaleReason::Support })
    ));
    let growing = vec![link(QueueTrend::Growing), link(QueueTrend::Stable)];
    assert!(choose_idle_operation(&growing, &active, &mut controls, &stages).is_none());
    let mut idle = vec![anchor_control(4)];
    idle[0].idle_samples = IDLE_SHRINK_SAMPLES;
    assert!(matches!(
        choose_idle_operation(&steady, &active, &mut idle, &stages),
        Some(ScaleOperation::Remove { stage_index: 0, reason: ScaleReason::Idle, .. })
    ));
    assert_eq!(idle[0].anchor.as_ref().unwrap().last_probe_reason, AnchorProbeReason::Idle);
}

#[test]
fn underfeeding_counts_two_items_per_worker() {
    let mut draining = link(QueueTrend::Draining);
    draining.len = 6;
    assert!(link_underfeeds_stage(&draining, 3));
    assert!(!link_underfeeds_stage(&draining, 2));
    draining.len = 1;
    assert!(link_underfeeds_stage(&draining, 0));
    assert!(link_underfeeds_stage(&link(QueueTrend::Starved), 0));
    assert!(!link_underfeeds_stage(&link(QueueTrend::Stable), 9));
}

#[test]
fn resting_stages_cannot_scale() {
    let mut control = support_control();
    assert!(stage_can_scale(&control));
    control.settling = true;
    assert!(!stage_can_scale(&control));
    control.settling = false;
    control.scaling_state = StageScalingState::Probing;
    assert!(!stage_can_scale(&control));
    control.scaling_state = StageScalingState::BackingOff;
    assert!(stage_can_scale(&control));
}

#[test]
fn workers_are_counted_over_all_stages() {
    assert_eq!(active_worker_count(&vec![vec![0, 4], vec![], vec![7]]), 3);
    assert_eq!(active_worker_count(&vec![]), 0);
}

#[test]
fn cooldowns_double_between_their_bounds() {
    assert_eq!(grow_sample_count(0), 4);
    assert_eq!(grow_sample_count(2), 4);
    assert_eq!(grow_sample_count(5), 10);
    assert_eq!(grow_sample_count(32), 64);
    assert_eq!(grow_sample_count(33), 64);
    assert_eq!(grow_sample_count(u32::MAX), 64);
}

#[test]
fn probe_states_follow_the_anchor() {
    let mut anchor = anchor_control(2).anchor.unwrap();
    assert_eq!(anchor_probe_state(&anchor, 1), AnchorProbeState::Eligible);
    assert_eq!(anchor_probe_state(&anchor, 2), AnchorProbeState::AtMax);
    anchor.cooldown_samples = 3;
    assert_eq!(anchor_probe_state(&anchor, 1), AnchorProbeState::BackingOff);
    anchor.probe = Some(AnchorProbe { worker_id: 0, samples: 0, observed_work: false });
    assert_eq!(anchor_probe_state(&anchor, 1), AnchorProbeState::Probing);
    anchor.warmup_complete = false;
    assert_eq!(anchor_probe_state(&anchor, 1), AnchorProbeState::WarmingUp);
}

#[test]
fn a_sample_settles_probes_and_warms_up() {
    let work = StageSample { process_nanos: 60, wait_nanos: 40, processed_items: 3 };
    let mut control = anchor_control(4);
    control.settling = true;
    control.settle_samples = 1;
    control.scaling_state = StageScalingState::Settling;
    control.anchor.as_mut().unwrap().warmup_complete = false;
    control.anchor.as_mut().unwrap().cooldown_samples = 1;
    apply_stage_sample(&mut control, work, BusyBand::Busy, QueueTrend::Stable, QueueTrend::Stable);
    assert_eq!(control.processed_count, 3);
    assert_eq!(control.busy, BusyBand::Busy);
    assert!(!control.settling);
    assert_eq!(control.scaling_state, StageScalingState::Eligible);
    let anchor = control.anchor.unwrap();
    assert!(anchor.warmup_complete);
    assert_eq!(anchor.cooldown_samples, 0);
}

#[test]
fn idle_samples_rise_only_while_starved_and_idle() {
    let nothing = StageSample { process_nanos: 0, wait_nanos: 0, processed_items: 0 };
    let mut control = support_control();
    apply_stage_sample(&mut control, nothing, BusyBand::Saturated, QueueTrend::Starved, QueueTrend::Stable);
    assert_eq!((control.idle_samples, control.busy), (1, BusyBand::Idle));
    apply_stage_sample(&mut control, nothing, BusyBand::Idle, QueueTrend::Stable, QueueTrend::Stable);
    assert_eq!(control.idle_samples, 0);
    control.busy = BusyBand::Light;
    apply_stage_sample(&mut control, nothing, BusyBand::Idle, QueueTrend::Starved, QueueTrend::Stable);
    assert_eq!(control.idle_samples, 0);
}

#[test]
fn samples_of_workers_add_up_and_reach_their_stage() {
    let total = fitting_total(&vec![
        StageSample { process_nanos: 1, wait_nanos: 2, processed_items: 3 },
        StageSample { process_nanos: 10, wait_nanos: 20, processed_items: 30 },
    ])
    .unwrap();
    let full = StageSample { process_nanos: 1, wait_nanos: 1, processed_items: u64::MAX };
    assert!(fitting_total(&vec![full]).is_some());
    assert!(fitting_total(&vec![full, full]).is_none());
    assert_eq!((total.process_nanos, total.wait_nanos, total.processed_items), (11, 22, 33));
    assert!(total.has_time());
    assert!(total.has_service_time());
    let mut controls = vec![support_control(), support_control()];
    let quiet = StageSample { process_nanos: 0, wait_nanos: 0, processed_items: 0 };
    collect_stage_samples(
        &vec![quiet, total],
        &vec![BusyBand::Idle, BusyBand::Light],
        &vec![link(QueueTrend::Starved), link(QueueTrend::Stable), link(QueueTrend::Stable)],
        &linear_runtime_stages(2),
        &mut controls,
    );
    assert_eq!((controls[0].processed_count, controls[0].idle_samples), (0, 1));
    assert_eq!((controls[1].processed_count, controls[1].busy), (33, BusyBand::Light));
}

#[test]
fn wanted_workers_follow_rates_or_growth() {
    let stages = linear_runtime_stages(3);
    let links = vec![
        link(QueueTrend::Growing),
        link(QueueTrend::Stable),
        link(QueueTrend::Growing),
        link(QueueTrend::Stable),
    ];
    let mut controls = vec![support_control(), support_control(), support_control()];
    update_desired_workers(
        &vec![None, None, Some(5)],
        &links,
        &vec![vec![0, 1], vec![], vec![2]],
        &stages,
        &mut controls,
    );
    let wanted: Vec<usize> = controls.iter().map(|control| control.desired_workers).collect();
    assert_eq!(wanted, vec![3, 1, 5]);
}

#[test]
fn fresh_memories_know_their_anchor() {
    let mut stages = linear_runtime_stages(2);
    stages[1].anchor =
        Some(ResolvedAnchor { max_threads: 3, initial_threads: 2, fixed_threads: None });
    let controls = build_stage_controls(&stages);
    assert!(controls[0].anchor.is_none());
    let anchor = controls[1].anchor.unwrap();
    assert_eq!((anchor.max_threads, anchor.warmup_complete, anchor.cooldown_samples), (3, false, 0));
    assert_eq!(controls[1].desired_workers, 1);
}

#[test]
fn trends_have_codes_and_sides() {
    let all = [
        QueueTrend::Starved,
        QueueTrend::FastDraining,
        QueueTrend::Draining,
        QueueTrend::Stable,
        QueueTrend::Growing,
        QueueTrend::FastGrowing,
        QueueTrend::Runaway,
    ];
    for (index, trend) in all.iter().enumerate() {
        assert_eq!(trend.code() as usize, index);
        assert_eq!(trend.is_draining(), index < 3);
        assert_eq!(trend.is_growing(), index > 3);
    }
}
