use hcorner::config::{parse_config, HCornerConfig};
use hcorner::corner::{Corner, TOLERANCE};
use hcorner::detector::{
    find_firing_corner, tick, DetectorState, Phase, PointerSample, COOLDOWN_MS, DWELL_MS, POLL_MS,
    RETRY_MS,
};

fn table(flags: [bool; 4]) -> HCornerConfig {
    let f = |b: bool| if b { "1" } else { "0" };
    let text = format!(
        "TOP_LEFT=\"notify-send hi\",{}\nTOP_RIGHT=tr,{}\nBOTTOM_LEFT=bl,{}\nBOTTOM_RIGHT=br,{}\n",
        f(flags[0]),
        f(flags[1]),
        f(flags[2]),
        f(flags[3])
    );
    parse_config(&text).expect("a complete table")
}

fn at(x: i32, y: i32, t: u64) -> PointerSample {
    PointerSample { x, y, screen_width: 1920, screen_height: 1080, observed_at: t }
}

fn on(x: i32, y: i32, w: i32, h: i32, t: u64) -> PointerSample {
    PointerSample { x, y, screen_width: w, screen_height: h, observed_at: t }
}

/// A state that has seen the pointer rest at `(x, y)` since time 0.
fn rested(x: i32, y: i32) -> DetectorState {
    DetectorState { last_x: x, last_y: y, last_move_time: 0, suppressed_until: None }
}

#[test]
fn constants() {
    assert_eq!(DWELL_MS, 200);
    assert_eq!(COOLDOWN_MS, 1000);
    assert_eq!(POLL_MS, 50);
    assert_eq!(RETRY_MS, 10);
    assert_eq!(TOLERANCE, 1);
}

#[test]
fn initial_state() {
    let s = DetectorState::new(42);
    assert_eq!(
        s,
        DetectorState { last_x: -1, last_y: -1, last_move_time: 42, suppressed_until: None }
    );
}

#[test]
fn first_sample_counts_as_movement() {
    let t = table([true; 4]);
    let mut s = DetectorState::new(0);
    assert_eq!(s.phase(&at(0, 0, 500)), Phase::Moving);
    assert_eq!(s.step(&t, &at(0, 0, 500)), None);
    assert_eq!(
        s,
        DetectorState { last_x: 0, last_y: 0, last_move_time: 500, suppressed_until: None }
    );
}

#[test]
fn stationary_corner_fires_once_per_cycle() {
    let t = table([true, false, false, false]);
    let mut s = DetectorState::new(0);
    let mut fired_at: Vec<u64> = Vec::new();
    let mut now: u64 = 0;
    while now <= 5000 {
        if let Some(c) = s.step(&t, &at(0, 0, now)) {
            assert_eq!(c, Corner::TopLeft);
            fired_at.push(now);
        }
        now += POLL_MS;
    }
    assert_eq!(fired_at, vec![200, 1400, 2600, 3800, 5000]);
}

#[test]
fn loop_with_pauses_fires_once_per_cycle() {
    let t = table([true, false, false, false]);
    let mut s = DetectorState::new(0);
    let mut launches: Vec<u64> = Vec::new();
    let mut polls: u32 = 0;
    let mut now: u64 = 0;
    while now <= 5000 {
        let out = tick(&mut s, &t, Some(at(0, 0, now)));
        polls += 1;
        if out.fired.is_some() {
            assert_eq!(out.fired, Some(Corner::TopLeft));
            assert_eq!(out.launch, Some("notify-send hi"));
            assert_eq!(out.pause_ms, 1050);
            launches.push(now);
        } else {
            assert_eq!(out.pause_ms, 50);
        }
        now += out.pause_ms;
    }
    assert_eq!(launches, vec![200, 1400, 2600, 3800, 5000]);
    assert!(polls > launches.len() as u32);
}

#[test]
fn trigger_sets_the_cooldown() {
    let t = table([true; 4]);
    let mut s = rested(0, 0);
    assert_eq!(s.step(&t, &at(0, 0, 200)), Some(Corner::TopLeft));
    assert_eq!(
        s,
        DetectorState { last_x: 0, last_y: 0, last_move_time: 1200, suppressed_until: Some(1200) }
    );
}

#[test]
fn samples_during_cooldown_are_ignored() {
    let t = table([true; 4]);
    let mut s = rested(0, 0);
    assert_eq!(s.step(&t, &at(0, 0, 200)), Some(Corner::TopLeft));
    let frozen = s;
    assert_eq!(s.phase(&at(5, 5, 700)), Phase::Suppressed);
    assert_eq!(s.step(&t, &at(5, 5, 700)), None);
    assert_eq!(s, frozen);
    assert_eq!(s.step(&t, &at(0, 0, 1199)), None);
    assert_eq!(s, frozen);
}

#[test]
fn dwell_restarts_after_cooldown() {
    let t = table([true; 4]);
    let mut s = rested(0, 0);
    assert_eq!(s.step(&t, &at(0, 0, 200)), Some(Corner::TopLeft));
    assert_eq!(s.step(&t, &at(0, 0, 1200)), None);
    assert_eq!(s.suppressed_until, None);
    assert_eq!(s.last_move_time, 1200);
    assert_eq!(s.step(&t, &at(0, 0, 1399)), None);
    assert_eq!(s.step(&t, &at(0, 0, 1400)), Some(Corner::TopLeft));
}

#[test]
fn dwell_threshold_is_inclusive() {
    let t = table([true; 4]);
    let mut s = rested(0, 0);
    assert_eq!(s.step(&t, &at(0, 0, 199)), None);
    assert_eq!(s.step(&t, &at(0, 0, 200)), Some(Corner::TopLeft));
}

#[test]
fn clock_running_backwards_counts_as_no_dwell() {
    let t = table([true; 4]);
    let mut s = DetectorState { last_x: 0, last_y: 0, last_move_time: 1000, suppressed_until: None };
    assert_eq!(s.step(&t, &at(0, 0, 10)), None);
    assert_eq!(s.last_move_time, 1000);
}

#[test]
fn disabled_corner_never_fires() {
    let t = table([false, true, true, true]);
    let mut s = DetectorState::new(0);
    let mut now: u64 = 0;
    while now <= 10_000 {
        assert_eq!(s.step(&t, &at(0, 0, now)), None);
        now += POLL_MS;
    }
    assert_eq!(
        s,
        DetectorState { last_x: 0, last_y: 0, last_move_time: 0, suppressed_until: None }
    );
}

#[test]
fn oscillating_pointer_never_fires() {
    let t = table([true; 4]);
    let mut s = DetectorState::new(0);
    let mut now: u64 = 0;
    let mut k: u32 = 0;
    while now <= 10_000 {
        let p = if k % 2 == 0 { at(0, 0, now) } else { at(1, 1, now) };
        assert_eq!(s.phase(&p), Phase::Moving);
        assert_eq!(s.step(&t, &p), None);
        assert_eq!(s.last_move_time, now);
        now += POLL_MS;
        k += 1;
    }
}

#[test]
fn movement_resets_the_dwell_timer() {
    let t = table([true; 4]);
    let mut s = rested(0, 0);
    assert_eq!(s.step(&t, &at(1, 0, 150)), None);
    assert_eq!(s.step(&t, &at(1, 0, 300)), None);
    assert_eq!(s.step(&t, &at(1, 0, 349)), None);
    assert_eq!(s.step(&t, &at(1, 0, 350)), Some(Corner::TopLeft));
}

#[test]
fn pointer_resting_outside_every_corner_fires_nothing() {
    let t = table([true; 4]);
    let mut s = rested(960, 540);
    assert_eq!(s.phase(&at(960, 540, 1000)), Phase::DwellPending);
    assert_eq!(s.step(&t, &at(960, 540, 1000)), None);
    assert_eq!(s, rested(960, 540));
}

#[test]
fn top_right_edge_pixel_fires() {
    let t = table([false, true, false, false]);
    assert_eq!(rested(1919, 0).step(&t, &at(1919, 0, 200)), Some(Corner::TopRight));
    assert_eq!(rested(1918, 0).step(&t, &at(1918, 0, 200)), Some(Corner::TopRight));
    assert_eq!(rested(1918, 1).step(&t, &at(1918, 1, 200)), Some(Corner::TopRight));
}

#[test]
fn three_pixels_from_the_right_edge_does_not_fire() {
    let t = table([false, true, false, false]);
    assert_eq!(rested(1917, 0).step(&t, &at(1917, 0, 200)), None);
    assert_eq!(rested(1919, 2).step(&t, &at(1919, 2, 200)), None);
}

#[test]
fn regions_have_a_one_pixel_band() {
    let (w, h) = (1920, 1080);
    assert!(Corner::TopLeft.contains(0, 0, w, h));
    assert!(Corner::TopLeft.contains(1, 1, w, h));
    assert!(!Corner::TopLeft.contains(2, 0, w, h));
    assert!(!Corner::TopLeft.contains(0, 2, w, h));
    assert!(Corner::TopRight.contains(1918, 1, w, h));
    assert!(!Corner::TopRight.contains(1917, 1, w, h));
    assert!(Corner::BottomLeft.contains(1, 1078, w, h));
    assert!(!Corner::BottomLeft.contains(1, 1077, w, h));
    assert!(!Corner::BottomLeft.contains(2, 1079, w, h));
    assert!(Corner::BottomRight.contains(1918, 1078, w, h));
    assert!(Corner::BottomRight.contains(1919, 1079, w, h));
    assert!(!Corner::BottomRight.contains(1917, 1079, w, h));
    assert!(!Corner::BottomRight.contains(1919, 1077, w, h));
}

#[test]
fn regions_do_not_overflow_on_extreme_screens() {
    assert!(Corner::TopRight.contains(0, 0, i32::MIN, i32::MIN));
    assert!(Corner::BottomRight.contains(i32::MIN, i32::MIN, i32::MIN, i32::MIN));
    assert!(!Corner::BottomRight.contains(i32::MAX - 2, 0, i32::MAX, i32::MAX));
    assert!(Corner::BottomRight.contains(i32::MAX, i32::MAX, i32::MAX, i32::MAX));
    assert!(Corner::TopLeft.contains(i32::MIN, i32::MIN, 10, 10));
}

#[test]
fn each_corner_fires_its_own_slot() {
    let t = table([true; 4]);
    assert_eq!(find_firing_corner(&t, &at(0, 0, 0)), Some(Corner::TopLeft));
    assert_eq!(find_firing_corner(&t, &at(1919, 0, 0)), Some(Corner::TopRight));
    assert_eq!(find_firing_corner(&t, &at(0, 1079, 0)), Some(Corner::BottomLeft));
    assert_eq!(find_firing_corner(&t, &at(1919, 1079, 0)), Some(Corner::BottomRight));
    assert_eq!(find_firing_corner(&t, &at(960, 0, 0)), None);
}

#[test]
fn overlapping_regions_follow_the_priority_order() {
    let p = on(0, 0, 2, 2, 0);
    assert_eq!(find_firing_corner(&table([true, true, true, true]), &p), Some(Corner::TopLeft));
    assert_eq!(find_firing_corner(&table([false, true, true, true]), &p), Some(Corner::TopRight));
    assert_eq!(find_firing_corner(&table([false, false, true, true]), &p), Some(Corner::BottomLeft));
    assert_eq!(
        find_firing_corner(&table([false, false, false, true]), &p),
        Some(Corner::BottomRight)
    );
    assert_eq!(find_firing_corner(&table([false, false, false, false]), &p), None);
}

#[test]
fn failed_poll_changes_nothing_and_retries_soon() {
    let t = table([true; 4]);
    let mut s = rested(0, 0);
    let out = tick(&mut s, &t, None);
    assert_eq!(out.fired, None);
    assert_eq!(out.launch, None);
    assert_eq!(out.pause_ms, 10);
    assert_eq!(s, rested(0, 0));
}

#[test]
fn poll_pauses() {
    let t = table([true; 4]);
    let mut s = rested(0, 0);
    let quiet = tick(&mut s, &t, Some(at(0, 0, 100)));
    assert_eq!(quiet.fired, None);
    assert_eq!(quiet.launch, None);
    assert_eq!(quiet.pause_ms, 50);
    let fired = tick(&mut s, &t, Some(at(0, 0, 200)));
    assert_eq!(fired.fired, Some(Corner::TopLeft));
    assert_eq!(fired.launch, Some("notify-send hi"));
    assert_eq!(fired.pause_ms, 1050);
}

#[test]
fn fired_corner_selects_the_command() {
    let t = table([true; 4]);
    let corners = [(0, 0, "notify-send hi"), (1919, 0, "tr"), (0, 1079, "bl"), (1919, 1079, "br")];
    for (x, y, command) in corners {
        let mut s = rested(x, y);
        let out = tick(&mut s, &t, Some(at(x, y, 200)));
        assert_eq!(out.launch, Some(command));
    }
}

#[test]
fn largest_admissible_timestamp() {
    let t = table([true; 4]);
    let now = u64::MAX - COOLDOWN_MS;
    let mut s = rested(0, 0);
    assert_eq!(s.step(&t, &at(0, 0, now)), Some(Corner::TopLeft));
    assert_eq!(s.suppressed_until, Some(u64::MAX));
    assert_eq!(s.last_move_time, u64::MAX);
}
