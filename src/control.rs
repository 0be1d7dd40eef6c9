//! The control-rate poller.
//!
//! On each timer tick the caller first clears the timer's interrupt flag,
//! then reads every potentiometer channel, and hands the readings to
//! [`ControlPoller::poll`]. That decides the device updates of the cycle:
//! a channel whose read failed keeps its last value and gets no update,
//! while the LEDs, the switches and the encoder are refreshed on every cycle.
use crate::engine::Mode;
use vstd::prelude::*;

verus! {

/// Potentiometer channels.
pub const POT_COUNT: usize = 2;

/// Milliseconds between polls with the tone sweep.
pub const SWEEP_CONTROL_PERIOD_MS: u32 = 100;

/// Milliseconds between polls with passthrough audio.
pub const PASSTHROUGH_CONTROL_PERIOD_MS: u32 = 10;

/// One device update of a control cycle.
#[derive(Clone, Copy, Debug, PartialEq, Eq, Structural)]
pub enum ControlAction {
    /// Feed this reading to this potentiometer.
    SetPot(usize, u32),
    /// Refresh this LED.
    UpdateLed(usize),
    /// Refresh this switch.
    UpdateSwitch(usize),
    /// Refresh the encoder.
    UpdateEncoder,
}

/// The pot updates for the first `n` readings, in channel order.
pub open spec fn pot_actions(readings: Seq<Option<u32>>, n: nat) -> Seq<ControlAction>
    decreases n,
{
    if n == 0 {
        Seq::empty()
    } else {
        let rest = pot_actions(readings, (n - 1) as nat);
        match readings[n - 1] {
            Some(v) => rest.push(ControlAction::SetPot((n - 1) as usize, v)),
            None => rest,
        }
    }
}

/// The updates that every cycle makes, whatever the readings.
pub open spec fn device_actions() -> Seq<ControlAction> {
    seq![
        ControlAction::UpdateLed(0),
        ControlAction::UpdateLed(1),
        ControlAction::UpdateSwitch(0),
        ControlAction::UpdateSwitch(1),
        ControlAction::UpdateEncoder,
    ]
}

/// The updates of a cycle with these readings.
pub open spec fn cycle_actions(readings: Seq<Option<u32>>) -> Seq<ControlAction> {
    pot_actions(readings, readings.len()) + device_actions()
}

/// The pot values after a cycle: each successful reading replaces the
/// channel's value; a failed one keeps it.
pub open spec fn next_pots(pots: Seq<u32>, readings: Seq<Option<u32>>) -> Seq<u32> {
    Seq::new(
        pots.len(),
        |i: int|
            match readings[i] {
                Some(v) => v,
                None => pots[i],
            },
    )
}

/// Room for the updates of one cycle: one per channel and the five device
/// refreshes.
pub const MAX_ACTIONS: usize = 7;

/// Latest known value of each potentiometer channel.
pub struct ControlPoller {
    pub pots: [u32; POT_COUNT],
}

impl ControlPoller {
    /// A poller whose channels all read zero.
    pub fn new() -> (r: ControlPoller)
        ensures
            forall|i: int| 0 <= i < POT_COUNT ==> #[trigger] r.pots@[i] == 0,
    {
        ControlPoller { pots: [0, 0] }
    }

    /// Takes this cycle's readings, one per channel (`None` where the read
    /// failed), writes the device updates to make, in order, at the start of
    /// `actions`, and returns how many there are. Nothing is allocated.
    pub fn poll(
        &mut self,
        readings: &[Option<u32>; POT_COUNT],
        actions: &mut [ControlAction; MAX_ACTIONS],
    ) -> (n: usize)
        ensures
            final(self).pots@ == next_pots(old(self).pots@, readings@),
            n == cycle_actions(readings@).len(),
            final(actions)@.len() == MAX_ACTIONS,
            final(actions)@.subrange(0, n as int) == cycle_actions(readings@),
    {
        broadcast use vstd::array::group_array_axioms;

        let mut n: usize = 0;
        let mut i: usize = 0;
        while i < POT_COUNT
            invariant
                i <= POT_COUNT,
                readings@.len() == POT_COUNT,
                self.pots@.len() == POT_COUNT,
                old(self).pots@.len() == POT_COUNT,
                actions@.len() == MAX_ACTIONS,
                n <= i,
                pot_actions(readings@, i as nat).len() == n,
                actions@.subrange(0, n as int) == pot_actions(readings@, i as nat),
                forall|k: int|
                    0 <= k < POT_COUNT ==> #[trigger] self.pots@[k] == if k < i {
                        next_pots(old(self).pots@, readings@)[k]
                    } else {
                        old(self).pots@[k]
                    },
            decreases POT_COUNT - i,
        {
            let ghost before = actions@;
            match readings[i] {
                Some(v) => {
                    self.pots[i] = v;
                    actions[n] = ControlAction::SetPot(i, v);
                    assert(actions@.subrange(0, n + 1) =~= before.subrange(0, n as int).push(
                        ControlAction::SetPot(i, v),
                    ));
                    n = n + 1;
                },
                None => {},
            }
            i = i + 1;
        }
        assert(self.pots@ =~= next_pots(old(self).pots@, readings@));
        let ghost pots_part = actions@.subrange(0, n as int);
        actions[n] = ControlAction::UpdateLed(0);
        actions[n + 1] = ControlAction::UpdateLed(1);
        actions[n + 2] = ControlAction::UpdateSwitch(0);
        actions[n + 3] = ControlAction::UpdateSwitch(1);
        actions[n + 4] = ControlAction::UpdateEncoder;
        assert(actions@.subrange(0, n + 5) =~= pots_part + device_actions());
        n + 5
    }
}

/// A failed read on a channel leaves that channel's value as it was, and the
/// LEDs, switches and encoder are still refreshed, last, in the same cycle.
pub proof fn lemma_failed_read_isolated(pots: Seq<u32>, readings: Seq<Option<u32>>, c: int)
    requires
        pots.len() == POT_COUNT,
        readings.len() == POT_COUNT,
        0 <= c < POT_COUNT,
        readings[c] is None,
    ensures
        next_pots(pots, readings)[c] == pots[c],
        forall|i: int|
            0 <= i < POT_COUNT && i != c && readings[i] is Some ==> #[trigger] next_pots(
                pots,
                readings,
            )[i] == readings[i]->Some_0,
        cycle_actions(readings).len() >= device_actions().len(),
        cycle_actions(readings).subrange(
            cycle_actions(readings).len() - device_actions().len(),
            cycle_actions(readings).len() as int,
        ) == device_actions(),
{
    let p = pot_actions(readings, readings.len());
    assert(cycle_actions(readings).subrange(p.len() as int, cycle_actions(readings).len() as int)
        =~= device_actions());
}

/// A build of the firmware: what the audio engine does and how often the
/// controls are polled.
#[derive(Clone, Copy, Debug, PartialEq, Eq, Structural)]
pub struct Profile {
    pub mode: Mode,
    pub control_period_ms: u32,
}

impl Profile {
    /// The diagnostic build: a sweeping test tone, controls every 100 ms.
    pub fn sweep() -> (r: Profile)
        ensures
            r.mode == Mode::Synthesis,
            r.control_period_ms == SWEEP_CONTROL_PERIOD_MS,
    {
        Profile { mode: Mode::Synthesis, control_period_ms: SWEEP_CONTROL_PERIOD_MS }
    }

    /// The production build: input passed through, controls every 10 ms.
    pub fn passthrough() -> (r: Profile)
        ensures
            r.mode == Mode::Passthrough,
            r.control_period_ms == PASSTHROUGH_CONTROL_PERIOD_MS,
    {
        Profile { mode: Mode::Passthrough, control_period_ms: PASSTHROUGH_CONTROL_PERIOD_MS }
    }
}

} // verus!
