use smartplan::optimizer::compute;
use smartplan::rule::MinHoursCheapestParams;
use smartplan::rule::RuleParams;
use smartplan::rule::TimeWindow;
use smartplan::rule::XHoursWithinWindowsParams;
use smartplan::schedule::SlotAction;
use smartplan::schedule::TimeSlot;

fn day_24(head: &[i64]) -> Vec<i64> {
    let mut p: Vec<i64> = head.to_vec();
    let mut filler: i64 = 100;
    while p.len() < 24 {
        p.push(filler);
        filler += 1;
    }
    p
}

fn min_hours(n: u8) -> RuleParams {
    RuleParams::MinHoursCheapest(MinHoursCheapestParams {
        min_hours_per_day: n,
        max_switches_per_day: None,
        min_run_block: None,
    })
}

fn slot(start: u16, end: u16) -> TimeSlot {
    TimeSlot { start, end, action: SlotAction::On }
}

#[test]
fn three_cheapest_hours_of_a_day() {
    // The day starts 1, 5, 2, 8, 3, ...; the three lowest prices sit at
    // hours 0, 2 and 4.
    let prices = day_24(&[1, 5, 2, 8, 3]);
    let out = compute(&prices, &min_hours(3)).unwrap();
    assert_eq!(out.total_cost, 1 + 2 + 3);
    assert_eq!(out.on_hours, 3);
    assert_eq!(out.shortfall_hours, 0);
    assert_eq!(out.slots, vec![slot(0, 60), slot(120, 180), slot(240, 300)]);
}

#[test]
fn cost_is_sum_of_n_lowest_prices() {
    let prices = day_24(&[7, 3, 9, 1, 4, 6]);
    let out = compute(&prices, &min_hours(4)).unwrap();
    // lowest four: 1, 3, 4, 6
    assert_eq!(out.total_cost, 1 + 3 + 4 + 6);
    assert_eq!(out.on_hours, 4);
}

#[test]
fn ties_resolve_to_earliest_hour() {
    let mut prices: Vec<i64> = vec![5; 24];
    prices[10] = 5; // all equal: earliest hours win
    let out = compute(&prices, &min_hours(2)).unwrap();
    assert_eq!(out.slots, vec![slot(0, 120)]);
    assert_eq!(out.total_cost, 10);
}

#[test]
fn identical_inputs_give_identical_output() {
    let prices = day_24(&[4, 4, 1, 9, 2, 2, 8]);
    let rule = min_hours(5);
    let a = compute(&prices, &rule).unwrap();
    let b = compute(&prices, &rule).unwrap();
    assert_eq!(a.slots, b.slots);
    assert_eq!(a.total_cost, b.total_cost);
    assert_eq!(a.on_hours, b.on_hours);
    assert_eq!(a.shortfall_hours, b.shortfall_hours);
}

#[test]
fn slots_are_sorted_and_disjoint() {
    let prices = day_24(&[9, 1, 9, 1, 9, 1, 9, 1, 9, 1]);
    let out = compute(&prices, &min_hours(5)).unwrap();
    let mut on_minutes: u32 = 0;
    for k in 0..out.slots.len() {
        let s = out.slots[k];
        assert!(s.start < s.end);
        assert!(s.end <= 1500);
        on_minutes += (s.end - s.start) as u32;
        if k + 1 < out.slots.len() {
            assert!(s.end < out.slots[k + 1].start);
        }
    }
    assert_eq!(on_minutes, 60 * out.on_hours as u32);
    assert!(out.on_hours <= prices.len());
}

#[test]
fn wrong_day_length_is_rejected() {
    let prices: Vec<i64> = vec![1; 22];
    assert!(compute(&prices, &min_hours(3)).is_err());
    let prices26: Vec<i64> = vec![1; 26];
    assert!(compute(&prices26, &min_hours(3)).is_err());
    let prices23: Vec<i64> = vec![1; 23];
    assert!(compute(&prices23, &min_hours(3)).is_ok());
    let prices25: Vec<i64> = vec![1; 25];
    assert!(compute(&prices25, &min_hours(3)).is_ok());
}

#[test]
fn out_of_range_price_is_rejected() {
    let mut prices = day_24(&[]);
    prices[5] = 2_000_000_000_000;
    let r = compute(&prices, &min_hours(3));
    assert_eq!(r.unwrap_err(), smartplan::CoreError::InvalidRuleParameters);
}

#[test]
fn hours_beyond_day_are_rejected() {
    let prices = day_24(&[]);
    assert!(compute(&prices, &min_hours(25)).is_err());
    assert!(compute(&prices, &min_hours(24)).is_ok());
}

#[test]
fn selection_confined_to_windows() {
    // Only 00:00-04:00 allowed; the global minimum at hour 10 is ignored.
    let mut prices = day_24(&[8, 3, 7, 5]);
    prices[10] = 1;
    let rule = RuleParams::XHoursWithinWindows(XHoursWithinWindowsParams {
        target_hours_per_day: 2,
        allowed_windows: vec![TimeWindow { start: 0, end: 240 }],
        max_switches_per_day: None,
        min_run_block: None,
    });
    let out = compute(&prices, &rule).unwrap();
    // cheapest inside the window: hours 1 (3) and 3 (5)
    assert_eq!(out.total_cost, 8);
    assert_eq!(out.slots, vec![slot(60, 120), slot(180, 240)]);
    assert_eq!(out.shortfall_hours, 0);
}

#[test]
fn window_shortfall_is_clamped_and_reported() {
    let prices = day_24(&[]);
    let rule = RuleParams::XHoursWithinWindows(XHoursWithinWindowsParams {
        target_hours_per_day: 4,
        allowed_windows: vec![TimeWindow { start: 0, end: 120 }],
        max_switches_per_day: None,
        min_run_block: None,
    });
    let out = compute(&prices, &rule).unwrap();
    assert_eq!(out.on_hours, 2);
    assert_eq!(out.shortfall_hours, 2);
    assert_eq!(out.slots, vec![slot(0, 120)]);
}

#[test]
fn min_run_block_selects_whole_blocks() {
    // Cheap pairs at hours 0-1 and 4-5, expensive in between.
    let prices = day_24(&[1, 1, 50, 50, 2, 2, 60, 60]);
    let rule = RuleParams::MinHoursCheapest(MinHoursCheapestParams {
        min_hours_per_day: 4,
        max_switches_per_day: None,
        min_run_block: Some(2),
    });
    let out = compute(&prices, &rule).unwrap();
    assert_eq!(out.slots, vec![slot(0, 120), slot(240, 360)]);
    assert_eq!(out.total_cost, 6);
    // every run is at least two hours long
    for s in &out.slots {
        assert!(s.end - s.start >= 120);
    }
}

#[test]
fn switch_cap_merges_islands() {
    // Three cheap single hours separated by moderate gaps; a cap of two
    // transitions forces one contiguous run.
    let prices = day_24(&[1, 9, 1, 9, 1]);
    let rule = RuleParams::MinHoursCheapest(MinHoursCheapestParams {
        min_hours_per_day: 3,
        max_switches_per_day: Some(2),
        min_run_block: None,
    });
    let out = compute(&prices, &rule).unwrap();
    assert_eq!(out.slots, vec![slot(0, 300)]);
    assert_eq!(out.total_cost, 1 + 9 + 1 + 9 + 1);
    assert_eq!(out.on_hours, 5);
}

#[test]
fn invalid_constraints_are_rejected() {
    let prices = day_24(&[]);
    let cap_too_small = RuleParams::MinHoursCheapest(MinHoursCheapestParams {
        min_hours_per_day: 3,
        max_switches_per_day: Some(1),
        min_run_block: None,
    });
    assert!(compute(&prices, &cap_too_small).is_err());
    let zero_run = RuleParams::MinHoursCheapest(MinHoursCheapestParams {
        min_hours_per_day: 3,
        max_switches_per_day: None,
        min_run_block: Some(0),
    });
    assert!(compute(&prices, &zero_run).is_err());
    let overlapping = RuleParams::XHoursWithinWindows(XHoursWithinWindowsParams {
        target_hours_per_day: 2,
        allowed_windows: vec![
            TimeWindow { start: 0, end: 120 },
            TimeWindow { start: 60, end: 180 },
        ],
        max_switches_per_day: None,
        min_run_block: None,
    });
    assert!(compute(&prices, &overlapping).is_err());
}

#[test]
fn zero_hours_is_an_empty_schedule() {
    let prices = day_24(&[]);
    let out = compute(&prices, &min_hours(0)).unwrap();
    assert_eq!(out.slots.len(), 0);
    assert_eq!(out.total_cost, 0);
    assert_eq!(out.on_hours, 0);
}

#[test]
fn negative_prices_are_allowed() {
    let prices = day_24(&[-5, 3, -2]);
    let out = compute(&prices, &min_hours(2)).unwrap();
    assert_eq!(out.total_cost, -7);
    assert_eq!(out.slots, vec![slot(0, 60), slot(120, 180)]);
}
