use dive_reporter::common::Gas;
use dive_reporter::dive::{
    plan_steps, Dive, DiveConfig, DiveError, ModelReading, ModelRejection, ModelStep,
};
use dive_reporter::samples::{gas_by_ref, Mix, SampleElem, SwitchMix, WaypointElem};
use dive_reporter::stats::{gf_whole_percent, seconds_to_readable, AggregationError, StatsData};
use dive_reporter::{run, Config, FailurePolicy, RunError};
use rayon::iter::{IntoParallelIterator, ParallelIterator};
use std::sync::Mutex;

fn wp(dive_time: u64, depth: u64) -> WaypointElem {
    WaypointElem { dive_time, depth, switchmix: None, decostops: None }
}

fn wp_switch(dive_time: u64, depth: u64, gas_ref: &str) -> WaypointElem {
    WaypointElem {
        dive_time,
        depth,
        switchmix: Some(SwitchMix { gas_ref: gas_ref.to_string() }),
        decostops: None,
    }
}

fn mix(id: &str, o2: u32, he: Option<u32>) -> Mix {
    Mix { id: id.to_string(), name: id.to_string(), o2, n2: None, he }
}

fn reading(ceiling: u64, gf_99: u64, gf_surf: u64) -> ModelReading {
    ModelReading { ceiling, gf_99, gf_surf }
}

fn config(thresholds: Vec<u64>) -> DiveConfig {
    DiveConfig { gradient_factors: (30, 70), treshold_depths: thresholds }
}

#[test]
fn square_profile_scenario() {
    let samples = SampleElem {
        waypoints: vec![wp(0, 0), wp(60, 30_000), wp(120, 30_000), wp(180, 0)],
    };
    let steps = plan_steps(&samples, &vec![]).unwrap();
    let air = Gas { o2: 2100, he: 0 };
    assert_eq!(
        steps,
        vec![
            ModelStep { depth: 0, time: 0, gas: air },
            ModelStep { depth: 30_000, time: 60, gas: air },
            ModelStep { depth: 30_000, time: 60, gas: air },
            ModelStep { depth: 0, time: 60, gas: air },
        ]
    );
    let readings = vec![
        reading(0, 0, 0),
        reading(0, 4000, 8000),
        reading(3000, 7000, 9000),
        reading(0, 6500, 6500),
    ];
    let dive = Dive::calc_dive_stats(&config(vec![20_000]), &steps, &readings);
    assert_eq!(dive.total_time, 180);
    assert_eq!(dive.depth_max, 30_000);
    assert_eq!(dive.time_below, vec![(20_000, 120)]);
    assert_eq!(dive.gf_end, 6500);
    assert_eq!(dive.time_in_deco, 60);
    assert_eq!(dive.gf_99_max, 7000);
    assert_eq!(dive.gf_surf_max, 9000);
}

#[test]
fn unknown_gas_fails_and_leaves_stats_untouched() {
    let samples = SampleElem { waypoints: vec![wp(0, 0), wp_switch(60, 20_000, "ean50")] };
    let table = vec![mix("air", 2100, None)];
    let r = plan_steps(&samples, &table);
    assert_eq!(r, Err(DiveError::GasResolution { gas_ref: "ean50".to_string() }));
    let stats = StatsData::new();
    let before = stats.clone();
    // the failed dive is never merged
    assert_eq!(stats, before);
    let report =
        run(vec![Err(r.unwrap_err())], FailurePolicy::SkipDive)
            .unwrap();
    assert_eq!(report.stats, StatsData::new());
    assert_eq!(report.failed.len(), 1);
}

fn summary(total_time: u64, depth_max: u64, time_in_deco: u64, gfs: (u64, u64, u64), below: Vec<(u64, u64)>) -> Dive {
    Dive {
        total_time,
        depth_max,
        time_in_deco,
        gf_surf_max: gfs.0,
        gf_99_max: gfs.1,
        gf_end: gfs.2,
        time_below: below,
    }
}

#[test]
fn concurrent_dives_count_deco_dives() {
    let dives = vec![
        summary(600, 12_000, 0, (5000, 4000, 3000), vec![(10_000, 300), (20_000, 0)]),
        summary(900, 25_000, 45, (9000, 8000, 7000), vec![(10_000, 500), (20_000, 200)]),
    ];
    let stats = Mutex::new(StatsData::new());
    dives.into_par_iter().for_each(|d| {
        stats.lock().unwrap().update_with_dive_data(d).unwrap();
    });
    let stats = stats.into_inner().unwrap();
    assert_eq!(stats.deco_dives_no, 1);
    assert_eq!(stats.time_in_deco, 45);
    assert_eq!(stats.dives_no, 2);
    assert_eq!(stats.total_time, 1500);
    assert_eq!(stats.time_below, vec![(10_000, 800), (20_000, 200)]);
}

fn merged(dives: &[Dive]) -> StatsData {
    let mut stats = StatsData::new();
    for d in dives {
        stats.update_with_dive_data(d.clone()).unwrap();
    }
    stats
}

#[test]
fn merge_order_and_batches_do_not_matter() {
    let a = summary(600, 12_000, 0, (5000, 4000, 3000), vec![(10_000, 300), (20_000, 0)]);
    let b = summary(900, 25_000, 45, (9000, 8000, 7000), vec![(10_000, 500), (20_000, 200)]);
    let c = summary(300, 8_000, 10, (7000, 9500, 2000), vec![(10_000, 0), (20_000, 0)]);
    let abc = merged(&[a.clone(), b.clone(), c.clone()]);
    assert_eq!(abc, merged(&[c.clone(), b.clone(), a.clone()]));
    assert_eq!(abc, merged(&[b.clone(), c.clone(), a.clone()]));
    let mut batched = merged(&[b.clone()]);
    for d in [c.clone(), a.clone()] {
        batched.update_with_dive_data(d).unwrap();
    }
    assert_eq!(abc, batched);
    assert_eq!(abc.dives_no, 3);
    assert_eq!(abc.deco_dives_no, 2);
    assert_eq!(abc.time_in_deco, 55);
    assert_eq!(abc.gf_99_max, 9500);
    assert_eq!(abc.time_below, vec![(10_000, 800), (20_000, 200)]);
}

#[test]
fn single_dive_gives_its_own_statistics() {
    let d = summary(900, 25_000, 45, (9000, 8000, 7000), vec![(10_000, 500)]);
    let s = merged(&[d.clone()]);
    assert_eq!(s.dives_no, 1);
    assert_eq!(s.total_time, 900);
    assert_eq!(s.depth_max, 25_000);
    assert_eq!(s.time_in_deco, 45);
    assert_eq!(s.deco_dives_no, 1);
    assert_eq!(s.gf_surf_max, 9000);
    assert_eq!(s.gf_99_max, 8000);
    assert_eq!(s.gf_end_max, 7000);
    assert_eq!(s.time_below, vec![(10_000, 500)]);

    let no_deco = summary(900, 25_000, 0, (9000, 8000, 7000), vec![]);
    assert_eq!(merged(&[no_deco]).deco_dives_no, 0);
}

#[test]
fn maxima_dominate_every_dive() {
    let dives = vec![
        summary(100, 30_000, 0, (1000, 2000, 8000), vec![]),
        summary(100, 10_000, 0, (9000, 1000, 1000), vec![]),
        summary(100, 20_000, 0, (2000, 9900, 500), vec![]),
    ];
    let s = merged(&dives);
    for d in &dives {
        assert!(s.depth_max >= d.depth_max);
        assert!(s.gf_surf_max >= d.gf_surf_max);
        assert!(s.gf_99_max >= d.gf_99_max);
        assert!(s.gf_end_max >= d.gf_end);
    }
    assert_eq!((s.depth_max, s.gf_surf_max, s.gf_99_max, s.gf_end_max), (30_000, 9000, 9900, 8000));
}

#[test]
fn depth_equal_to_threshold_counts_as_below() {
    let samples = SampleElem { waypoints: vec![wp(0, 0), wp(30, 20_000), wp(90, 19_999)] };
    let steps = plan_steps(&samples, &vec![]).unwrap();
    let readings = vec![reading(0, 0, 0); 3];
    let dive = Dive::calc_dive_stats(&config(vec![20_000, 19_999]), &steps, &readings);
    assert_eq!(dive.time_below, vec![(20_000, 30), (19_999, 90)]);
}

#[test]
fn empty_dive_is_all_zero_and_counts_once() {
    let samples = SampleElem { waypoints: vec![] };
    let steps = plan_steps(&samples, &vec![]).unwrap();
    assert!(steps.is_empty());
    let dive = Dive::calc_dive_stats(&config(vec![10_000, 20_000]), &steps, &vec![]);
    assert_eq!(dive, summary(0, 0, 0, (0, 0, 0), vec![(10_000, 0), (20_000, 0)]));
    let other = summary(600, 12_000, 30, (5000, 4000, 3000), vec![(10_000, 300), (20_000, 0)]);
    let with = merged(&[other.clone(), dive]);
    let without = merged(&[other]);
    assert_eq!(with.dives_no, 2);
    assert_eq!(with.total_time, without.total_time);
    assert_eq!(with.deco_dives_no, without.deco_dives_no);
    assert_eq!(with.time_below, without.time_below);
}

#[test]
fn earlier_waypoint_is_rejected() {
    let samples = SampleElem { waypoints: vec![wp(0, 0), wp(120, 10_000), wp(60, 5_000)] };
    assert_eq!(
        plan_steps(&samples, &vec![]),
        Err(DiveError::Model(ModelRejection::TimeReversed { previous: 120, current: 60 }))
    );
}

#[test]
fn impossible_mix_is_rejected() {
    let samples = SampleElem { waypoints: vec![wp_switch(0, 0, "bad")] };
    let table = vec![mix("bad", 6000, Some(5000))];
    assert_eq!(
        plan_steps(&samples, &table),
        Err(DiveError::Model(ModelRejection::InvalidGas { o2: 6000, he: 5000 }))
    );
}

#[test]
fn gas_switches_apply_from_their_waypoint() {
    let samples = SampleElem {
        waypoints: vec![
            wp(0, 0),
            wp_switch(60, 40_000, "tx"),
            wp_switch(600, 21_000, "ean50"),
            wp_switch(600, 21_000, "tx"),
            wp(700, 0),
        ],
    };
    let table = vec![mix("tx", 1800, Some(4500)), mix("ean50", 5000, None)];
    let steps = plan_steps(&samples, &table).unwrap();
    let gases: Vec<Gas> = steps.iter().map(|s| s.gas).collect();
    let air = Gas { o2: 2100, he: 0 };
    let tx = Gas { o2: 1800, he: 4500 };
    let ean50 = Gas { o2: 5000, he: 0 };
    assert_eq!(gases, vec![air, tx, ean50, tx, tx]);
    let times: Vec<u64> = steps.iter().map(|s| s.time).collect();
    assert_eq!(times, vec![0, 60, 540, 0, 100]);
}

#[test]
fn first_waypoint_gets_no_step_time() {
    let samples = SampleElem { waypoints: vec![wp(30, 6_000), wp(90, 6_000)] };
    let steps = plan_steps(&samples, &vec![]).unwrap();
    assert_eq!(steps[0].time, 0);
    assert_eq!(steps[1].time, 60);
}

#[test]
fn gas_lookup_takes_last_entry_with_the_id() {
    let table = vec![mix("a", 3200, None), mix("b", 1000, Some(7000)), mix("a", 3600, None)];
    assert_eq!(gas_by_ref(&"a".to_string(), &table), Some(Gas { o2: 3600, he: 0 }));
    assert_eq!(gas_by_ref(&"b".to_string(), &table), Some(Gas { o2: 1000, he: 7000 }));
    assert_eq!(gas_by_ref(&"c".to_string(), &table), None);
    assert_eq!(Gas { o2: 1000, he: 7000 }.n2(), 2000);
    assert_eq!(Gas::air().n2(), 7900);
}

#[test]
fn end_gradient_factor_is_taken_at_the_last_surfacing() {
    let samples = SampleElem {
        waypoints: vec![wp(0, 0), wp(60, 10_000), wp(120, 0), wp(180, 0), wp(240, 5_000), wp(300, 0)],
    };
    let steps = plan_steps(&samples, &vec![]).unwrap();
    let readings = vec![
        reading(0, 100, 100),
        reading(0, 200, 300),
        reading(0, 4000, 4000),
        reading(0, 3000, 3000),
        reading(0, 2500, 2600),
        reading(0, 5500, 5500),
    ];
    let dive = Dive::calc_dive_stats(&config(vec![]), &steps, &readings);
    assert_eq!(dive.gf_end, 5500);
    let short = Dive::calc_dive_stats(&config(vec![]), &steps[..4].to_vec(), &readings[..4].to_vec());
    assert_eq!(short.gf_end, 4000);
    let surface_only = Dive::calc_dive_stats(&config(vec![]), &steps[..1].to_vec(), &readings[..1].to_vec());
    assert_eq!(surface_only.gf_end, 0);
}

#[test]
fn new_threshold_is_inserted_after_known_ones() {
    let mut s = merged(&[summary(10, 0, 0, (0, 0, 0), vec![(10_000, 5)])]);
    s.update_with_dive_data(summary(10, 0, 0, (0, 0, 0), vec![(20_000, 7), (10_000, 1)])).unwrap();
    assert_eq!(s.time_below, vec![(10_000, 6), (20_000, 7)]);
}

#[test]
fn overflowing_merge_fails_and_changes_nothing() {
    let mut s = merged(&[summary(u64::MAX - 10, 0, 0, (0, 0, 0), vec![])]);
    let before = s.clone();
    let r = s.update_with_dive_data(summary(11, 0, 0, (0, 0, 0), vec![]));
    assert_eq!(r, Err(AggregationError::Overflow));
    assert_eq!(s, before);

    let mut t = merged(&[summary(1, 0, 0, (0, 0, 0), vec![(10_000, u64::MAX)])]);
    let before = t.clone();
    assert!(t.update_with_dive_data(summary(1, 0, 0, (0, 0, 0), vec![(10_000, 1)])).is_err());
    assert_eq!(t, before);
}

#[test]
fn run_aborts_on_first_failed_dive() {
    let ok = summary(600, 12_000, 0, (5000, 4000, 3000), vec![]);
    let e1 = DiveError::GasResolution { gas_ref: "x".to_string() };
    let e2 = DiveError::Model(ModelRejection::TimeReversed { previous: 5, current: 1 });
    let outcomes = vec![Ok(ok.clone()), Err(e1.clone()), Err(e2.clone())];
    assert_eq!(
        run(outcomes.clone(), FailurePolicy::AbortBatch),
        Err(RunError::Dive { index: 1, error: e1.clone() })
    );
    let report = run(outcomes, FailurePolicy::SkipDive).unwrap();
    assert_eq!(report.stats, merged(&[ok.clone()]));
    assert_eq!(report.failed, vec![(1, e1), (2, e2)]);
    let clean = run(vec![Ok(ok.clone()), Ok(ok.clone())], FailurePolicy::AbortBatch).unwrap();
    assert_eq!(clean.stats.dives_no, 2);
    assert!(clean.failed.is_empty());
}

#[test]
fn run_reports_overflow() {
    let big = summary(u64::MAX, 0, 0, (0, 0, 0), vec![]);
    let r = run(vec![Ok(big.clone()), Ok(big)], FailurePolicy::SkipDive);
    assert_eq!(r, Err(RunError::Aggregation(AggregationError::Overflow)));
}

#[test]
fn config_takes_the_first_argument_after_the_program() {
    let c = Config::build(vec!["prog".to_string(), "/logs".to_string()]).unwrap();
    assert_eq!(c.path, "/logs");
    let c = Config::build(vec!["prog".to_string()]).unwrap();
    assert_eq!(c.path, "");
}

#[test]
fn readable_durations_and_percentages() {
    assert_eq!(seconds_to_readable(3725), (1, 2, 5));
    assert_eq!(seconds_to_readable(59), (0, 0, 59));
    assert_eq!(seconds_to_readable(90_061), (25, 1, 1));
    assert_eq!(gf_whole_percent(7050), 71);
    assert_eq!(gf_whole_percent(7049), 70);
    assert_eq!(gf_whole_percent(0), 0);
}
