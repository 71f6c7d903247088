use f1_data::BoundingBox;
use f1_data::DrsStatus;
use f1_data::Lap;
use f1_data::Position;
use f1_data::TelemetrySample;
use f1_data::analysis::SegmentBests;
use f1_data::analysis::TurnAnalysis;
use f1_data::analysis::TurnComparison;
use f1_data::analysis::compute_segment_time;
use f1_data::turn::Turn;

fn sample(x: i64, time: u64, speed: u16) -> TelemetrySample {
    TelemetrySample {
        position: Position { x, y: 0, z: 50 },
        time,
        throttle: 100,
        brake: 0,
        gear: 5,
        speed,
        drs: DrsStatus::Off,
    }
}

fn lap(number: u32, samples: Vec<TelemetrySample>) -> Lap {
    Lap { number, lap_time: None, sector_times: [None, None, None], samples, is_valid: true }
}

/// Overall bounds x in [0, 300]; approach x in [0, 99], apex x in
/// [100, 199], exit x in [200, 300]; z in [0, 100] everywhere.
fn test_turn() -> Turn {
    Turn {
        name: String::from("T1"),
        bounds: BoundingBox::new(0, 300, 0, 100),
        approach: BoundingBox::new(0, 99, 0, 100),
        apex: BoundingBox::new(100, 199, 0, 100),
        exit: BoundingBox::new(200, 300, 0, 100),
    }
}

/// A lap crossing the whole turn: two samples in each segment, at the given
/// times (milliseconds).
fn crossing_lap(number: u32, times: [u64; 6]) -> Lap {
    let xs = [10, 50, 110, 150, 210, 290];
    let speeds = [250, 200, 150, 140, 180, 260];
    let mut samples = Vec::new();
    for i in 0..6 {
        samples.push(sample(xs[i], times[i], speeds[i]));
    }
    lap(number, samples)
}

#[test]
fn segment_time_absent_below_two_samples() {
    assert!(compute_segment_time(&vec![]).is_none());
    assert!(compute_segment_time(&vec![sample(10, 0, 100)]).is_none());
}

#[test]
fn segment_time_two_samples_exact() {
    let st = compute_segment_time(&vec![sample(10, 1500, 120), sample(20, 4000, 90)]).unwrap();
    assert_eq!(st.time, 2500);
    assert_eq!(st.entry_speed, 120);
    assert_eq!(st.min_speed, 90);
    assert_eq!(st.exit_speed, 90);
}

#[test]
fn segment_time_entry_exit_and_min() {
    let run = vec![
        sample(10, 0, 200),
        sample(20, 100, 150),
        sample(30, 200, 170),
        sample(40, 300, 180),
    ];
    let st = compute_segment_time(&run).unwrap();
    assert_eq!(st.time, 300);
    assert_eq!(st.entry_speed, 200);
    assert_eq!(st.min_speed, 150);
    assert_eq!(st.exit_speed, 180);
}

#[test]
fn analyze_outside_all_regions_all_absent() {
    let t = test_turn();
    let l = lap(1, vec![sample(1000, 0, 100), sample(1100, 500, 110), sample(1200, 900, 120)]);
    let a = TurnAnalysis::analyze(&l, &t);
    assert_eq!(a.lap_number, 1);
    assert!(a.total_time.is_none());
    assert!(a.approach.is_none());
    assert!(a.apex.is_none());
    assert!(a.exit.is_none());
}

#[test]
fn analyze_fields_are_independent() {
    let t = test_turn();
    // Two samples in the approach, one in the apex, none in the exit:
    // total and approach present, apex and exit absent.
    let l = lap(3, vec![sample(10, 0, 100), sample(50, 500, 110), sample(150, 1200, 90)]);
    let a = TurnAnalysis::analyze(&l, &t);
    let total = a.total_time.unwrap();
    assert_eq!(total.time, 1200);
    assert_eq!(total.min_speed, 90);
    let approach = a.approach.unwrap();
    assert_eq!(approach.time, 500);
    assert!(a.apex.is_none());
    assert!(a.exit.is_none());
}

#[test]
fn scenario_uniform_fastest_lap() {
    let t = test_turn();
    // Lap 1: total 5.0 s, each segment 1.0 s.  Lap 2: total 6.0 s, each
    // segment 1.2 s.  Lap 1 is best everywhere.
    let l1 = crossing_lap(1, [0, 1000, 2000, 3000, 4000, 5000]);
    let l2 = crossing_lap(2, [0, 1200, 2400, 3600, 4800, 6000]);
    let c = TurnComparison::compare(&vec![l1, l2], &t);
    assert_eq!(c.turn_name, "T1");
    assert_eq!(c.analyses.len(), 2);
    assert_eq!(c.analyses[0].lap_number, 1);
    assert_eq!(c.analyses[1].lap_number, 2);
    assert_eq!(c.analyses[0].total_time.unwrap().time, 5000);
    assert_eq!(c.analyses[1].total_time.unwrap().time, 6000);
    assert!(c.uniform_fastest);
    assert_eq!(c.segment_bests.approach, Some(1));
    assert_eq!(c.segment_bests.apex, Some(1));
    assert_eq!(c.segment_bests.exit, Some(1));
}

#[test]
fn scenario_apex_best_belongs_to_slower_lap() {
    let t = test_turn();
    // Lap 1: total 5.0 s, approach/apex/exit 1.0 s each.  Lap 2: total
    // 6.0 s, but its apex takes only 0.5 s.
    let l1 = crossing_lap(1, [0, 1000, 2000, 3000, 4000, 5000]);
    let l2 = crossing_lap(2, [0, 1500, 3000, 3500, 5000, 6000]);
    let c = TurnComparison::compare(&vec![l1, l2], &t);
    assert_eq!(c.analyses[0].lap_number, 1);
    assert!(!c.uniform_fastest);
    assert_eq!(c.segment_bests.approach, Some(1));
    assert_eq!(c.segment_bests.apex, Some(2));
}

#[test]
fn scenario_lap_outside_turn_is_excluded() {
    let t = test_turn();
    let l1 = crossing_lap(1, [0, 1000, 2000, 3000, 4000, 5000]);
    let l2 = crossing_lap(2, [0, 1200, 2400, 3600, 4800, 6000]);
    // Lap 3 never enters the turn's overall bounding box.
    let l3 = lap(3, vec![sample(500, 0, 300), sample(600, 1000, 310), sample(700, 2000, 320)]);
    let with_outside = TurnComparison::compare(&vec![l1.clone(), l2.clone(), l3], &t);
    let without = TurnComparison::compare(&vec![l1, l2], &t);
    assert_eq!(with_outside.analyses.len(), 2);
    assert!(with_outside.analyses.iter().all(|a| a.lap_number != 3));
    assert_eq!(with_outside.segment_bests, without.segment_bests);
    assert_eq!(with_outside.uniform_fastest, without.uniform_fastest);
}

#[test]
fn scenario_empty_laps() {
    let t = test_turn();
    let c = TurnComparison::compare(&vec![], &t);
    assert!(c.analyses.is_empty());
    assert_eq!(c.segment_bests.approach, None);
    assert_eq!(c.segment_bests.apex, None);
    assert_eq!(c.segment_bests.exit, None);
    // With no qualifying lap there is no fastest lap to be uniform about.
    assert!(!c.uniform_fastest);
}

#[test]
fn compare_is_deterministic() {
    let t = test_turn();
    let laps = vec![
        crossing_lap(4, [0, 1500, 3000, 3500, 5000, 6000]),
        crossing_lap(2, [0, 1000, 2000, 3000, 4000, 5000]),
        crossing_lap(9, [0, 1000, 2000, 3000, 4000, 5000]),
    ];
    let c1 = TurnComparison::compare(&laps, &t);
    let c2 = TurnComparison::compare(&laps, &t);
    assert_eq!(c1, c2);
}

#[test]
fn compare_ties_keep_original_lap_order() {
    let t = test_turn();
    // Both laps have total 5.0 s; the order they were handed over in is
    // kept.
    let l7 = crossing_lap(7, [100, 1100, 2100, 3100, 4100, 5100]);
    let l4 = crossing_lap(4, [0, 1000, 2000, 3000, 4000, 5000]);
    let c = TurnComparison::compare(&vec![l7, l4], &t);
    assert_eq!(c.analyses.len(), 2);
    assert_eq!(c.analyses[0].lap_number, 7);
    assert_eq!(c.analyses[1].lap_number, 4);
}

#[test]
fn segment_bests_default_is_all_absent() {
    let b = SegmentBests::default();
    assert_eq!(b.approach, None);
    assert_eq!(b.apex, None);
    assert_eq!(b.exit, None);
}
