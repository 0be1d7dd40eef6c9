use pod_audio::engine::{
    silence, AudioEngine, AudioOverrun, Frame, Mode, Oscillator, Output, PITCH_BASE, PITCH_TOP, SWEEP_SAMPLES,
};

fn run(engine: &mut AudioEngine, input: &[Frame]) -> Vec<Output> {
    let mut out = vec![Output::Tone(7); input.len()];
    engine.process_block(input, &mut out);
    out
}

fn frames(n: u32) -> Vec<Frame> {
    (0..n)
        .map(|i| Frame { left: (i as f32 * 0.1).to_bits(), right: (-(i as f32)).to_bits() })
        .collect()
}

#[test]
fn passthrough_copies_every_frame() {
    let mut engine = AudioEngine::new(Mode::Passthrough);
    let input = frames(48);
    let out = run(&mut engine, &input);
    assert_eq!(out.len(), 48);
    for (o, i) in out.iter().zip(input.iter()) {
        assert_eq!(*o, Output::Frame(*i));
    }
    assert_eq!(engine.osc, Oscillator::new());
}

#[test]
fn synthesis_advances_phase_by_pitch() {
    let mut engine = AudioEngine::new(Mode::Synthesis);
    let out = run(&mut engine, &frames(3));
    assert_eq!(out, vec![Output::Tone(4400), Output::Tone(8801), Output::Tone(13203)]);
    assert_eq!(engine.osc.pitch, PITCH_BASE + 3);
}

#[test]
fn undelivered_block_mutes_the_engine() {
    let mut engine = AudioEngine::new(Mode::Synthesis);
    run(&mut engine, &frames(4));
    let osc = engine.osc;
    assert_eq!(engine.report_delivery(true), Ok(()));
    assert!(!engine.muted);
    assert_eq!(engine.report_delivery(false), Err(AudioOverrun));
    assert!(engine.muted);
    let out = run(&mut engine, &frames(4));
    assert!(out.iter().all(|o| *o == Output::Frame(silence())));
    assert_eq!(engine.osc, osc);
    assert_eq!(engine.report_delivery(true), Ok(()));
    assert!(engine.muted);
}

#[test]
fn sweep_restarts_at_the_transition_sample() {
    let mut osc = Oscillator::new();
    for _ in 0..SWEEP_SAMPLES - 1 {
        osc.step();
    }
    assert_eq!(osc.pitch, PITCH_TOP - 1);
    osc.step();
    assert_eq!(osc.pitch, PITCH_TOP);
    osc.step();
    assert_eq!(osc.pitch, PITCH_TOP + 1);
    osc.step();
    assert_eq!(osc.pitch, PITCH_BASE);
    osc.step();
    assert_eq!(osc.pitch, PITCH_BASE + 1);
}

#[test]
fn sweep_restart_inside_a_block() {
    let mut engine = AudioEngine::new(Mode::Synthesis);
    engine.osc = Oscillator { phase: 0, pitch: PITCH_TOP };
    let out = run(&mut engine, &frames(3));
    let top = PITCH_TOP as u64;
    assert_eq!(
        out,
        vec![
            Output::Tone(top),
            Output::Tone(2 * top + 1),
            Output::Tone(2 * top + 1 + PITCH_BASE as u64),
        ]
    );
    assert_eq!(engine.osc.pitch, PITCH_BASE + 1);
}

#[test]
fn phase_never_falls_across_blocks() {
    let mut engine = AudioEngine::new(Mode::Synthesis);
    let mut last = 0u64;
    for _ in 0..2100 {
        for o in run(&mut engine, &frames(48)) {
            match o {
                Output::Tone(p) => {
                    assert!(p >= last);
                    last = p;
                }
                Output::Frame(_) => panic!("tone expected"),
            }
        }
    }
}

#[test]
fn phase_saturates_at_the_top() {
    let mut osc = Oscillator { phase: u64::MAX - 10, pitch: PITCH_BASE };
    assert_eq!(osc.step(), u64::MAX);
    assert_eq!(osc.step(), u64::MAX);
}
