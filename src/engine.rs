//! The audio block engine: passes input through, or sweeps a test tone.
//!
//! Pitch is held in tenths of a hertz and phase in units of one radian
//! divided by `PHASE_UNITS_PER_RADIAN`, so that the phase grows by exactly the
//! pitch on every sample. The phase is never wrapped; it stops growing only at
//! `u64::MAX`, after more than a century of output. Turning a phase into a
//! sample value (`sin`) is left to the caller, which also converts the phase to
//! floating point and so meets the precision loss of a long-running phase.
use vstd::prelude::*;

verus! {

/// Audio samples per second on each channel.
pub const SAMPLE_RATE: u32 = 48000;

/// Phase units in one radian: tenths of a hertz times samples per second.
pub const PHASE_UNITS_PER_RADIAN: u64 = 480000;

/// Pitch at which a sweep starts and restarts, in tenths of a hertz.
pub const PITCH_BASE: u32 = 4400;

/// Upper bound of a sweep, in tenths of a hertz: a pitch above it snaps
/// back to the base.
pub const PITCH_TOP: u32 = 100000;

/// Pitch added after each sample, in tenths of a hertz.
pub const PITCH_STEP: u32 = 1;

/// Samples from the start of a sweep until the pitch reaches `PITCH_TOP`:
/// (10000.0 - 440.0) / 0.1 steps. The pitch first exceeds the bound one sample
/// later, and is back at the base on the sample after that.
pub const SWEEP_SAMPLES: u32 = 95600;

/// One stereo instant: the raw IEEE-754 bit patterns of both samples.
#[derive(Clone, Copy, Debug, PartialEq, Eq, Structural)]
pub struct Frame {
    pub left: u32,
    pub right: u32,
}

/// The frame of silence (both samples `0.0`).
pub open spec fn silence_spec() -> Frame {
    Frame { left: 0, right: 0 }
}

/// The frame of silence (both samples `0.0`).
pub fn silence() -> (r: Frame)
    ensures
        r == silence_spec(),
{
    Frame { left: 0, right: 0 }
}

/// How the engine fills its output.
#[derive(Clone, Copy, Debug, PartialEq, Eq, Structural)]
pub enum Mode {
    /// Each input frame is copied to the output.
    Passthrough,
    /// A sweeping tone is written to both channels.
    Synthesis,
}

/// An output block did not reach the audio hardware in time.
#[derive(Clone, Copy, Debug, PartialEq, Eq, Structural)]
pub struct AudioOverrun;

/// One output instant.
#[derive(Clone, Copy, Debug, PartialEq, Eq, Structural)]
pub enum Output {
    /// This frame, as it stands.
    Frame(Frame),
    /// The sine of this phase on both channels.
    Tone(u64),
}

/// State of the sweeping oscillator.
#[derive(Clone, Copy, Debug, PartialEq, Eq, Structural)]
pub struct Oscillator {
    pub phase: u64,
    pub pitch: u32,
}

/// The pitch that follows `p`: back to the base once `p` exceeds the top of
/// the sweep, else one step up.
pub open spec fn next_pitch(p: u32) -> u32 {
    if p > PITCH_TOP {
        PITCH_BASE
    } else {
        (p + PITCH_STEP) as u32
    }
}

/// The oscillator after one sample.
pub open spec fn osc_step(o: Oscillator) -> Oscillator {
    Oscillator {
        phase: if o.phase + o.pitch > u64::MAX {
            u64::MAX
        } else {
            (o.phase + o.pitch) as u64
        },
        pitch: next_pitch(o.pitch),
    }
}

/// The oscillator after `n` samples.
pub open spec fn osc_after(o: Oscillator, n: nat) -> Oscillator
    decreases n,
{
    if n == 0 {
        o
    } else {
        osc_step(osc_after(o, (n - 1) as nat))
    }
}

impl Oscillator {
    pub open spec fn wf(&self) -> bool {
        PITCH_BASE <= self.pitch <= PITCH_TOP + PITCH_STEP
    }

    /// An oscillator at phase zero and the base pitch.
    pub fn new() -> (r: Oscillator)
        ensures
            r.wf(),
            r.phase == 0,
            r.pitch == PITCH_BASE,
    {
        Oscillator { phase: 0, pitch: PITCH_BASE }
    }

    /// Advances the phase by the pitch, then the pitch by one step of the
    /// sweep; returns the new phase.
    pub fn step(&mut self) -> (r: u64)
        requires
            old(self).wf(),
        ensures
            final(self).wf(),
            *final(self) == osc_step(*old(self)),
            r == final(self).phase,
    {
        self.phase = self.phase.saturating_add(self.pitch as u64);
        if self.pitch > PITCH_TOP {
            self.pitch = PITCH_BASE;
        } else {
            self.pitch = self.pitch + PITCH_STEP;
        }
        self.phase
    }
}

/// The audio engine: its mode, its oscillator, and whether it has gone
/// silent after an output block could not be delivered.
pub struct AudioEngine {
    pub mode: Mode,
    pub osc: Oscillator,
    pub muted: bool,
}

impl AudioEngine {
    pub open spec fn wf(&self) -> bool {
        self.osc.wf()
    }

    /// An engine in `mode`, not muted, with a fresh oscillator.
    pub fn new(mode: Mode) -> (r: AudioEngine)
        ensures
            r.wf(),
            r.mode == mode,
            !r.muted,
            r.osc.phase == 0,
            r.osc.pitch == PITCH_BASE,
    {
        AudioEngine { mode, osc: Oscillator::new(), muted: false }
    }

    /// Writes one output instant into `out` for each input frame. A muted
    /// engine outputs silence and leaves its oscillator alone. Nothing is
    /// allocated.
    pub fn process_block(&mut self, input: &[Frame], out: &mut [Output])
        requires
            old(self).wf(),
            old(out)@.len() == input@.len(),
        ensures
            final(self).wf(),
            final(self).mode == old(self).mode,
            final(self).muted == old(self).muted,
            final(out)@.len() == input@.len(),
            old(self).muted ==> final(self).osc == old(self).osc && forall|i: int|
                0 <= i < final(out)@.len() ==> #[trigger] final(out)@[i] == Output::Frame(silence_spec()),
            !old(self).muted && old(self).mode == Mode::Passthrough ==> final(self).osc == old(
                self,
            ).osc && forall|i: int|
                0 <= i < final(out)@.len() ==> #[trigger] final(out)@[i] == Output::Frame(input@[i]),
            !old(self).muted && old(self).mode == Mode::Synthesis ==> final(self).osc == osc_after(
                old(self).osc,
                input@.len(),
            ) && forall|i: int|
                0 <= i < final(out)@.len() ==> #[trigger] final(out)@[i] == Output::Tone(
                    osc_after(old(self).osc, (i + 1) as nat).phase,
                ),
    {
        let n: usize = input.len();
        let mut i: usize = 0;
        while i < n
            invariant
                n == input@.len(),
                i <= n,
                out@.len() == n,
                self.wf(),
                self.mode == old(self).mode,
                self.muted == old(self).muted,
                (self.muted || self.mode == Mode::Passthrough) ==> self.osc == old(self).osc,
                !self.muted && self.mode == Mode::Synthesis ==> self.osc == osc_after(
                    old(self).osc,
                    i as nat,
                ),
                self.muted ==> forall|k: int|
                    0 <= k < i ==> #[trigger] out@[k] == Output::Frame(silence_spec()),
                !self.muted && self.mode == Mode::Passthrough ==> forall|k: int|
                    0 <= k < i ==> #[trigger] out@[k] == Output::Frame(input@[k]),
                !self.muted && self.mode == Mode::Synthesis ==> forall|k: int|
                    0 <= k < i ==> #[trigger] out@[k] == Output::Tone(
                        osc_after(old(self).osc, (k + 1) as nat).phase,
                    ),
            decreases n - i,
        {
            if self.muted {
                out[i] = Output::Frame(silence());
            } else {
                match self.mode {
                    Mode::Passthrough => {
                        out[i] = Output::Frame(input[i]);
                    },
                    Mode::Synthesis => {
                        let phase = self.osc.step();
                        out[i] = Output::Tone(phase);
                    },
                }
            }
            i = i + 1;
        }
    }

    /// Records whether the last output block reached the audio hardware; a
    /// block that did not is an overrun, and mutes the engine for good.
    pub fn report_delivery(&mut self, delivered: bool) -> (r: Result<(), AudioOverrun>)
        ensures
            r is Err <==> !delivered,
            final(self).muted == (old(self).muted || !delivered),
            final(self).mode == old(self).mode,
            final(self).osc == old(self).osc,
    {
        if !delivered {
            self.muted = true;
            Err(AudioOverrun)
        } else {
            Ok(())
        }
    }
}

/// The phase never falls: after more samples it is at least as large, so
/// across any sequence of blocks the phase is non-decreasing.
pub proof fn lemma_phase_monotone(o: Oscillator, m: nat, n: nat)
    requires
        m <= n,
    ensures
        osc_after(o, m).phase <= osc_after(o, n).phase,
    decreases n - m,
{
    if m < n {
        lemma_phase_monotone(o, m, (n - 1) as nat);
    }
}

/// Within a sweep that starts at the base pitch, the pitch after `k` samples
/// is the base plus `k` steps, up to the first pitch above the top.
pub proof fn lemma_sweep_ramp(o: Oscillator, k: nat)
    requires
        o.pitch == PITCH_BASE,
        k <= SWEEP_SAMPLES + 1,
    ensures
        osc_after(o, k).pitch == PITCH_BASE + k * PITCH_STEP,
    decreases k,
{
    if k > 0 {
        lemma_sweep_ramp(o, (k - 1) as nat);
    }
}

/// A sweep that starts at the base pitch reaches the top after
/// `SWEEP_SAMPLES` samples, exceeds it one sample later, and is back at the
/// base on the sample after that.
pub proof fn lemma_sweep_restart(o: Oscillator)
    requires
        o.pitch == PITCH_BASE,
    ensures
        osc_after(o, SWEEP_SAMPLES as nat).pitch == PITCH_TOP,
        osc_after(o, (SWEEP_SAMPLES + 1) as nat).pitch == PITCH_TOP + PITCH_STEP,
        osc_after(o, (SWEEP_SAMPLES + 2) as nat).pitch == PITCH_BASE,
{
    lemma_sweep_ramp(o, (SWEEP_SAMPLES + 1) as nat);
}

} // verus!
