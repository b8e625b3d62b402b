use wave_sim::simulation::{Simulation, DEFAULT_STEP_SKIP};
use wave_sim::wave::PropagationMode;

type Sim = Simulation<u32, [f64; 2]>;

#[test]
fn new_simulation_is_empty_with_default_skip() {
    let sim = Sim::new();
    assert!(sim.sources.is_empty());
    assert!(sim.sampled_points.is_empty());
    assert_eq!(sim.step_skip, 24);
    assert_eq!(sim.step_skip, DEFAULT_STEP_SKIP);
    assert_eq!(sim.step_counter, 0);
}

#[test]
fn add_source_appends_in_order() {
    let mut sim = Sim::new();
    sim.add_source(7);
    sim.add_source(3);
    assert_eq!(sim.sources, vec![7, 3]);
    assert_eq!(sim.step_counter, 0);
    assert_eq!(sim.step_skip, 24);
}

#[test]
fn update_before_skip_counts_and_keeps_samples() {
    let mut sim = Sim::new();
    let frame = vec![[0.0, 1.0], [0.5, -2.0]];
    let sampled = sim.update(&frame);
    assert!(!sampled);
    assert_eq!(sim.step_counter, 1);
    assert!(sim.sampled_points.is_empty());
}

#[test]
fn update_at_skip_samples_and_resets() {
    let mut sim = Sim::new();
    sim.step_counter = 24;
    let frame = vec![[0.0, 1.0], [0.5, -2.0], [1.0, 3.5]];
    let sampled = sim.update(&frame);
    assert!(sampled);
    assert_eq!(sim.step_counter, 0);
    assert_eq!(sim.sampled_points, frame);
}

#[test]
fn first_sample_comes_on_frame_twenty_five() {
    let mut sim = Sim::new();
    for frame_no in 1..=24u32 {
        let frame = vec![[frame_no as f64, 0.0]];
        assert!(!sim.update(&frame));
        assert_eq!(sim.step_counter, frame_no as usize);
    }
    let frame = vec![[25.0, 9.0]];
    assert!(sim.update(&frame));
    assert_eq!(sim.sampled_points, vec![[25.0, 9.0]]);
    assert_eq!(sim.step_counter, 0);
}

#[test]
fn one_sample_every_skip_plus_one_frames() {
    let mut sim = Sim::new();
    let mut samples = 0;
    for i in 0..100 {
        if sim.update(&[[i as f64, 0.0]]) {
            samples += 1;
        }
    }
    assert_eq!(samples, 4);
    assert_eq!(sim.step_counter, 0);
    assert_eq!(sim.sampled_points, vec![[99.0, 0.0]]);

    let mut sim = Sim::new();
    sim.step_skip = 3;
    let mut sampled_frames = Vec::new();
    for i in 1..=10 {
        if sim.update(&[[i as f64, 0.0]]) {
            sampled_frames.push(i);
        }
    }
    assert_eq!(sampled_frames, vec![4, 8]);
    assert_eq!(sim.step_counter, 2);
}

#[test]
fn skip_zero_samples_every_frame() {
    let mut sim = Sim::new();
    sim.step_skip = 0;
    for i in 0..5 {
        let frame = vec![[i as f64, 2.0 * i as f64]];
        assert!(sim.update(&frame));
        assert_eq!(sim.sampled_points, frame);
        assert_eq!(sim.step_counter, 0);
    }
}

#[test]
fn lowering_skip_below_counter_samples_at_once() {
    let mut sim = Sim::new();
    for _ in 0..10 {
        sim.update(&[[0.0, 0.0]]);
    }
    assert_eq!(sim.step_counter, 10);
    sim.step_skip = 5;
    assert!(sim.update(&[[1.0, 1.0]]));
    assert_eq!(sim.step_counter, 0);
}

#[test]
fn empty_frame_is_sampled_as_empty() {
    let mut sim = Sim::new();
    sim.step_counter = 24;
    sim.sampled_points = vec![[1.0, 1.0]];
    assert!(sim.update(&[]));
    assert!(sim.sampled_points.is_empty());
}

#[test]
fn update_keeps_sources_and_skip() {
    let mut sim = Sim::new();
    sim.add_source(1);
    sim.step_counter = 24;
    sim.update(&[[0.0, 0.0]]);
    assert_eq!(sim.sources, vec![1]);
    assert_eq!(sim.step_skip, 24);
}

#[test]
fn propagation_modes_are_distinct_copies() {
    let mode = PropagationMode::Traveling;
    let copy = mode;
    assert_eq!(mode, copy);
    assert_ne!(PropagationMode::Traveling, PropagationMode::Standing);
    assert!(matches!(PropagationMode::Standing, PropagationMode::Standing));
}
