use audio_visualizer::frame_timer::{FrameStats, FrameTimer};

#[test]
fn new_timer_has_no_frames() {
    let timer = FrameTimer::new();
    assert!(timer.frame_times().is_empty());
}

#[test]
fn recorded_frames_are_kept_in_order() {
    let mut timer = FrameTimer::new();
    timer.record_frame(16_000_000);
    timer.record_frame(17_000_000);
    timer.record_frame(15_000_000);
    assert_eq!(timer.frame_times(), &vec![16_000_000, 17_000_000, 15_000_000]);
}

#[test]
fn results_give_count_sum_and_extremes() {
    let mut timer = FrameTimer::new();
    for nanos in [16u128, 20, 12, 40, 12] {
        timer.record_frame(nanos);
    }
    assert_eq!(
        timer.results(),
        FrameStats { frames: 5, total: 100, shortest: 12, longest: 40 }
    );
}

#[test]
fn results_of_a_single_frame() {
    let mut timer = FrameTimer::new();
    timer.record_frame(33_333_333);
    let stats = timer.results();
    assert_eq!(stats.frames, 1);
    assert_eq!(stats.total, 33_333_333);
    assert_eq!(stats.shortest, 33_333_333);
    assert_eq!(stats.longest, 33_333_333);
}

#[test]
fn results_handle_large_durations() {
    let mut timer = FrameTimer::new();
    let big = u128::MAX / 2;
    timer.record_frame(big);
    timer.record_frame(big);
    timer.record_frame(1);
    let stats = timer.results();
    assert_eq!(stats.total, u128::MAX);
    assert_eq!(stats.shortest, 1);
    assert_eq!(stats.longest, big);
}

#[test]
fn end_frame_records_one_frame() {
    let mut timer = FrameTimer::new();
    timer.record_frame(5);
    timer.start_frame();
    assert_eq!(timer.frame_times().len(), 1);
    timer.end_frame();
    assert_eq!(timer.frame_times().len(), 2);
    assert_eq!(timer.frame_times()[0], 5);
    timer.end_frame();
    assert_eq!(timer.frame_times().len(), 3);
    assert_eq!(timer.results().frames, 3);
}

#[test]
fn measured_frame_covers_the_work_done_in_it() {
    let mut timer = FrameTimer::new();
    timer.start_frame();
    let begun = std::time::Instant::now();
    let mut spin = 0u64;
    while begun.elapsed().as_nanos() < 2_000_000 {
        spin = spin.wrapping_add(1);
    }
    timer.end_frame();
    assert!(spin > 0);
    assert!(timer.frame_times()[0] >= 2_000_000);
    assert!(timer.frame_times()[0] < 10_000_000_000);
}

#[test]
fn clear_forgets_every_frame() {
    let mut timer = FrameTimer::new();
    timer.record_frame(1);
    timer.end_frame();
    timer.clear_frame_times();
    assert!(timer.frame_times().is_empty());
    timer.record_frame(8);
    assert_eq!(timer.results().frames, 1);
}

fn spin_for(nanos: u128) {
    let begun = std::time::Instant::now();
    let mut spin = 0u64;
    while begun.elapsed().as_nanos() < nanos {
        spin = spin.wrapping_add(1);
    }
    assert!(spin > 0);
}

#[test]
fn frame_started_at_an_earlier_instant_is_measured_from_there() {
    let earlier = std::time::Instant::now();
    spin_for(3_000_000);
    let mut timer = FrameTimer::new();
    timer.start_frame_at(earlier);
    timer.end_frame();
    assert!(timer.frame_times()[0] >= 3_000_000);
}

#[test]
fn timer_made_from_instants_measures_from_the_given_frame_start() {
    let earlier = std::time::Instant::now();
    spin_for(3_000_000);
    let mut timer = FrameTimer::from_instants(std::time::Instant::now(), earlier);
    assert!(timer.frame_times().is_empty());
    timer.end_frame();
    assert!(timer.frame_times()[0] >= 3_000_000);
}

#[test]
fn frame_start_after_the_end_gives_a_zero_duration() {
    let later = std::time::Instant::now() + std::time::Duration::from_secs(3600);
    let mut timer = FrameTimer::from_instants(std::time::Instant::now(), later);
    timer.end_frame();
    assert_eq!(timer.frame_times(), &vec![0]);
}

#[test]
fn start_frame_restarts_the_measurement() {
    let earlier = std::time::Instant::now();
    spin_for(50_000_000);
    let mut timer = FrameTimer::from_instants(earlier, earlier);
    timer.start_frame();
    timer.end_frame();
    assert!(timer.frame_times()[0] < 50_000_000);
}

#[test]
fn new_timer_measures_its_first_frame_from_its_making() {
    spin_for(50_000_000);
    let mut timer = FrameTimer::new();
    timer.end_frame();
    assert!(timer.frame_times()[0] < 50_000_000);
}

#[test]
fn ending_a_frame_does_not_restart_it() {
    let earlier = std::time::Instant::now();
    let mut timer = FrameTimer::from_instants(earlier, earlier);
    spin_for(2_000_000);
    timer.end_frame();
    spin_for(2_000_000);
    timer.end_frame();
    assert!(timer.frame_times()[0] >= 2_000_000);
    assert!(timer.frame_times()[1] >= 4_000_000);
}
