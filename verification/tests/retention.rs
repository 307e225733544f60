use batsim::retention::{
    align_by_start,
    fold_minutes, live_minutes, minute_step, plan_home_buckets, samples_in_window, BucketGroup,
    BucketPlan, MinuteStep, Ring,
};

fn ring_items(r: &Ring<u64>) -> Vec<u64> {
    let mut v = Vec::new();
    for i in 0..r.len() {
        v.push(*r.get(i));
    }
    v
}

#[test]
fn ring_keeps_only_the_newest_items() {
    let mut r: Ring<u64> = Ring::new(3);
    assert!(r.last().is_none());
    for x in 1..=5u64 {
        r.push(x);
    }
    assert_eq!(ring_items(&r), vec![3, 4, 5]);
    assert_eq!(r.last(), Some(&5));
    r.clear();
    assert_eq!(r.len(), 0);
    r.push(9);
    assert_eq!(ring_items(&r), vec![9]);
}

#[test]
fn ring_of_capacity_zero_holds_nothing() {
    let mut r: Ring<u64> = Ring::new(0);
    r.push(1);
    r.push(2);
    assert_eq!(r.len(), 0);
    assert!(r.last().is_none());
}

#[test]
fn minute_step_opens_extends_and_rolls() {
    assert_eq!(minute_step(None, 125), MinuteStep::Open(120));
    assert_eq!(minute_step(Some(120), 179), MinuteStep::Extend);
    assert_eq!(minute_step(Some(120), 180), MinuteStep::Roll(180));
    assert_eq!(minute_step(Some(0), 59), MinuteStep::Extend);
}

#[test]
fn raw_samples_are_selected_by_half_open_window() {
    let times = vec![99, 100, 150, 199, 200];
    assert_eq!(samples_in_window(&times, 100, 200), vec![1, 2, 3]);
    assert_eq!(samples_in_window(&times, 200, 200), Vec::<usize>::new());
}

#[test]
fn empty_minutes_and_minutes_outside_the_window_are_skipped() {
    let starts = vec![0, 60, 120, 180];
    let counts = vec![3, 0, 2, 1];
    assert_eq!(live_minutes(&starts, &counts, 0, 180), vec![0, 2]);
}

#[test]
fn five_minute_buckets_align_to_settlement_intervals() {
    // Minutes from 00:03 to 00:12, all with samples.
    let starts: Vec<u64> = (3..=12).map(|m| m * 60).collect();
    let counts = vec![60u32; starts.len()];
    let groups = fold_minutes(&starts, &counts, 0, 10_000, 300);
    assert_eq!(
        groups,
        vec![
            BucketGroup { start_unix: 0, members: vec![0, 1] },
            BucketGroup { start_unix: 300, members: vec![2, 3, 4, 5, 6] },
            BucketGroup { start_unix: 600, members: vec![7, 8, 9] },
        ]
    );
    for g in &groups {
        assert_eq!(g.start_unix % 300, 0);
    }
}

#[test]
fn plan_picks_the_source_by_resolution() {
    let times = vec![10, 20, 70];
    let starts = vec![0, 60];
    let counts = vec![2, 1];
    assert_eq!(
        plan_home_buckets(&times, &starts, &counts, 0, 100, 1),
        BucketPlan::RawSamples(vec![0, 1, 2])
    );
    assert_eq!(
        plan_home_buckets(&times, &starts, &counts, 0, 100, 60),
        BucketPlan::Minutes(vec![0, 1])
    );
    assert_eq!(
        plan_home_buckets(&times, &starts, &counts, 0, 100, 0),
        BucketPlan::Minutes(vec![0, 1])
    );
    assert_eq!(
        plan_home_buckets(&times, &starts, &counts, 0, 100, 3600),
        BucketPlan::Folded(vec![BucketGroup { start_unix: 0, members: vec![0, 1] }])
    );
}

#[test]
fn fleet_rows_align_home_buckets_by_start() {
    // Two homes' buckets, concatenated: home 1 at 300, 600; home 2 at 0, 300.
    let rows = align_by_start(&vec![300, 600, 0, 300]);
    assert_eq!(rows, vec![(0, vec![2]), (300, vec![0, 3]), (600, vec![1])]);
    assert!(align_by_start(&vec![]).is_empty());
}

#[test]
fn folded_buckets_stay_inside_the_aligned_window() {
    let starts: Vec<u64> = (0..20).map(|m| m * 60).collect();
    let counts = vec![1u32; 20];
    for g in fold_minutes(&starts, &counts, 400, 1000, 300) {
        assert!(g.start_unix >= 300 && g.start_unix < 1000);
        assert_eq!(g.start_unix % 300, 0);
        assert!(!g.members.is_empty());
    }
}

#[test]
fn fine_buckets_come_out_oldest_first() {
    let times: Vec<u64> = vec![1749945600, 1749945601, 1749945605, 1749945660, 1749945720, 1749945779];
    let starts: Vec<u64> = vec![1749945600, 1749945660, 1749945720, 1749945780];
    let counts: Vec<u32> = vec![3, 0, 2, 1];
    let picked = samples_in_window(&times, 1749945601, 1749945780);
    assert_eq!(picked, vec![1, 2, 3, 4, 5]);
    assert!(picked.windows(2).all(|w| times[w[0]] < times[w[1]]));
    let minutes = live_minutes(&starts, &counts, 1749945600, 1749945781);
    assert_eq!(minutes, vec![0, 2, 3]);
    assert!(minutes.windows(2).all(|w| starts[w[0]] < starts[w[1]]));
}
