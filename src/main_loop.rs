//! The main loop's decisions, from its state and an event to the next state and an action. The
//! caller keeps the time, sleeps and performs the actions.
use vstd::prelude::*;

use crate::setting::CoolerControlSettings;

verus! {

/// The length of a tick, in milliseconds.
pub const LOOP_TICK_DURATION_MS: u64 = 1000;

/// How long the snapshot waits for outstanding preloads, in milliseconds.
pub const SNAPSHOT_WAIT_MS: u64 = 400;

/// The shortest pause after waking, in seconds.
pub const WAKE_PAUSE_MINIMUM_S: u64 = 1;

/// How long an LCD update may take, in seconds.
pub const LCD_TIMEOUT_S: u64 = 2;

const FULL_SECOND_MS: u64 = 1000;

/// What the loop does on a tick.
#[derive(Debug, Clone, Copy, PartialEq, Eq, Structural)]
pub enum TickAction {
    /// Preload, snapshot, apply the scheduled speeds, run the LCD update if `lcd`, process the
    /// Alerts, and broadcast the status.
    RunCycle { lcd: bool },
    /// Wait `delay_s` seconds; if `reapply`, reinitialize the devices and apply all saved
    /// settings; then reinitialize the status histories and report [`LoopState::woke`].
    Wake { delay_s: u64, reapply: bool },
    /// Nothing: the system is going to sleep.
    Idle,
}

/// The state the main loop carries from tick to tick.
#[derive(Debug, Clone, Copy, PartialEq, Eq, Structural)]
pub struct LoopState {
    pub preparing_to_sleep: bool,
    pub resuming: bool,
    /// LCD updates run every other cycle.
    pub run_lcd_update: bool,
}

/// The action and next state on a tick in `s`, where `has_lcd` tells whether an LCD setting
/// is scheduled and `settings` are the general settings.
pub open spec fn tick_spec(s: LoopState, has_lcd: bool, settings: CoolerControlSettings) -> (LoopState, TickAction) {
    if !s.preparing_to_sleep {
        (
            LoopState { run_lcd_update: !s.run_lcd_update, ..s },
            TickAction::RunCycle { lcd: s.run_lcd_update && has_lcd },
        )
    } else if s.resuming {
        (
            s,
            TickAction::Wake {
                delay_s: if settings.startup_delay > WAKE_PAUSE_MINIMUM_S {
                    settings.startup_delay
                } else {
                    WAKE_PAUSE_MINIMUM_S
                },
                reapply: settings.apply_on_boot,
            },
        )
    } else {
        (s, TickAction::Idle)
    }
}

impl LoopState {
    /// The state at start: awake, with the first LCD update on the second cycle.
    pub fn new() -> (r: LoopState)
        ensures
            !r.preparing_to_sleep && !r.resuming && !r.run_lcd_update,
    {
        LoopState { preparing_to_sleep: false, resuming: false, run_lcd_update: false }
    }

    /// Decides what a tick does, as [`tick_spec`] states.
    pub fn on_tick(&mut self, has_lcd: bool, settings: &CoolerControlSettings) -> (r: TickAction)
        ensures
            (*final(self), r) == tick_spec(*old(self), has_lcd, *settings),
    {
        if !self.preparing_to_sleep {
            let lcd = self.run_lcd_update && has_lcd;
            self.run_lcd_update = !self.run_lcd_update;
            TickAction::RunCycle { lcd }
        } else if self.resuming {
            let delay_s = if settings.startup_delay > WAKE_PAUSE_MINIMUM_S {
                settings.startup_delay
            } else {
                WAKE_PAUSE_MINIMUM_S
            };
            TickAction::Wake { delay_s, reapply: settings.apply_on_boot }
        } else {
            TickAction::Idle
        }
    }

    /// The system is about to sleep.
    pub fn suspending(&mut self)
        ensures
            final(self).preparing_to_sleep,
            final(self).resuming == old(self).resuming,
            final(self).run_lcd_update == old(self).run_lcd_update,
    {
        self.preparing_to_sleep = true;
    }

    /// The system woke up.
    pub fn resumed(&mut self)
        ensures
            final(self).resuming,
            final(self).preparing_to_sleep == old(self).preparing_to_sleep,
            final(self).run_lcd_update == old(self).run_lcd_update,
    {
        self.resuming = true;
    }

    /// The wake-up actions are done: the loop runs again.
    pub fn woke(&mut self)
        ensures
            !final(self).preparing_to_sleep && !final(self).resuming,
            final(self).run_lcd_update == old(self).run_lcd_update,
    {
        self.resuming = false;
        self.preparing_to_sleep = false;
    }
}

/// While the system prepares to sleep and has not resumed, a tick runs no cycle and changes
/// nothing; once it resumed, a tick wakes it after at least the minimum pause.
pub proof fn lemma_suspended_ticks_idle(s: LoopState, has_lcd: bool, settings: CoolerControlSettings)
    requires
        s.preparing_to_sleep,
    ensures
        !s.resuming ==> tick_spec(s, has_lcd, settings) == (s, TickAction::Idle),
        s.resuming ==> tick_spec(s, has_lcd, settings).1 is Wake && tick_spec(s, has_lcd, settings).0 == s,
        s.resuming ==> tick_spec(s, has_lcd, settings).1->delay_s >= WAKE_PAUSE_MINIMUM_S
            && tick_spec(s, has_lcd, settings).1->delay_s >= settings.startup_delay,
{
}

/// How long to wait, in milliseconds, for the next full second, `subsec_millis` into the
/// current one.
pub fn align_wait_ms(subsec_millis: u32) -> (r: u64)
    requires
        subsec_millis < 1000,
    ensures
        r == 1000 - subsec_millis,
        1 <= r <= 1000,
{
    FULL_SECOND_MS - subsec_millis as u64
}

} // verus!
