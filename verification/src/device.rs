use vstd::prelude::*;
use crate::utils::word_modulus;

verus! {

/// Request a filesystem-and-write-cache sync before the spin-down command.
pub const SYNC_SPIN_DOWN: u8 = 1;

/// Request a filesystem-and-write-cache sync when a spin-up is detected.
pub const SYNC_SPIN_UP: u8 = 2;

/// The per-device machine state.
#[derive(Clone, Copy, PartialEq, Eq, Structural, Debug)]
pub enum DeviceState {
    /// Active, or unmonitored (the default).
    Spinning,
    /// The disk was just synced and spun down: the next tick ignores activity
    /// (the sync itself causes I/O) and moves on to `Idle`.
    Synced,
    /// Parked.
    Idle,
}

/// Per-device configuration.
#[derive(Clone, Copy, PartialEq, Eq, Structural, Debug)]
pub struct DeviceConfig {
    /// Seconds without activity before the device is spun down; zero disables
    /// monitoring of the device altogether.
    pub idle_time: u64,
    /// Bitset of `SYNC_SPIN_DOWN` and `SYNC_SPIN_UP`.
    pub sync_flags: u8,
    /// Log verbosity for messages about this device.
    pub verbosity: u8,
}

impl Default for DeviceConfig {
    /// Zero idle time (unmonitored), no sync flags, quiet.
    fn default() -> (r: Self)
        ensures
            r == (DeviceConfig { idle_time: 0, sync_flags: 0, verbosity: 0 }),
    {
        DeviceConfig { idle_time: 0, sync_flags: 0, verbosity: 0 }
    }
}

/// Retained per-device statistics and state.
#[derive(Clone, Copy, PartialEq, Eq, Structural, Debug)]
pub struct DeviceData {
    /// Last-known combined sector counter; moves only by wrapping arithmetic.
    pub sectors: usize,
    pub state: DeviceState,
    /// Timestamp (seconds) of the last detected busy tick.
    pub last_io: u64,
    pub config: DeviceConfig,
}

/// A fresh record for a newly registered device: spinning, zero counter,
/// epoch last-activity time.
pub open spec fn spec_fresh_data(config: DeviceConfig) -> DeviceData {
    DeviceData { config, state: DeviceState::Spinning, sectors: 0, last_io: 0 }
}

impl From<DeviceConfig> for DeviceData {
    /// A fresh record: spinning, zero counter, epoch last-activity time.
    fn from(config: DeviceConfig) -> Self {
        DeviceData { config, state: DeviceState::Spinning, sectors: 0, last_io: 0 }
    }
}

impl vstd::std_specs::convert::FromSpecImpl<DeviceConfig> for DeviceData {
    open spec fn obeys_from_spec() -> bool {
        true
    }

    open spec fn from_spec(config: DeviceConfig) -> DeviceData {
        spec_fresh_data(config)
    }
}

/// The side effects one tick asks of the orchestrator. Execution failures of
/// either request never alter the already-computed next state, and when both
/// are requested the sync comes first.
#[derive(Clone, Copy, PartialEq, Eq, Structural, Debug)]
pub struct TickActions {
    /// Flush the filesystems mounted from the device, then its write cache.
    pub sync: bool,
    /// Issue the spin-down command to the device.
    pub spindown: bool,
}

/// No side effects.
pub open spec fn no_actions() -> TickActions {
    TickActions { sync: false, spindown: false }
}

/// The per-tick delta of the combined sector counter: a nonzero value means
/// the device was busy since the previous tick. Computed by wrapping
/// subtraction so that counter overflow does not fake idleness.
pub open spec fn spec_delta(prev: usize, cur: usize) -> usize {
    cur.wrapping_sub(prev)
}

/// Whether the tick sees activity: the counter moved.
pub open spec fn spec_busy(d: DeviceData, current: usize) -> bool {
    spec_delta(d.sectors, current) != 0
}

/// Seconds of idleness seen by the tick: zero when busy, otherwise the time
/// since the last detected activity. A clock that moved backwards counts as
/// zero idleness rather than a failure.
pub open spec fn spec_idle_secs(d: DeviceData, current: usize, now: u64) -> u64 {
    if spec_busy(d, current) {
        0
    } else if now >= d.last_io {
        (now - d.last_io) as u64
    } else {
        0
    }
}

/// The state machine's full transition: from the retained record, the tick's
/// combined sector counter and the current time, to the updated record, the
/// state it reports and the side effects it requests.
pub open spec fn spec_tick(d: DeviceData, current: usize, now: u64) -> (
    DeviceData,
    DeviceState,
    TickActions,
) {
    let busy = spec_busy(d, current);
    let idle = spec_idle_secs(d, current, now);
    let upd = if busy {
        DeviceData { sectors: current, last_io: now, ..d }
    } else {
        d
    };
    if d.config.idle_time == 0 {
        (upd, DeviceState::Spinning, no_actions())
    } else {
        match d.state {
            DeviceState::Spinning => {
                if idle >= d.config.idle_time {
                    if d.config.sync_flags & SYNC_SPIN_DOWN == 0 {
                        (
                            DeviceData { state: DeviceState::Idle, ..upd },
                            DeviceState::Idle,
                            TickActions { sync: false, spindown: true },
                        )
                    } else {
                        (
                            DeviceData { state: DeviceState::Synced, ..upd },
                            DeviceState::Synced,
                            TickActions { sync: true, spindown: true },
                        )
                    }
                } else {
                    (DeviceData { state: DeviceState::Spinning, ..upd }, DeviceState::Spinning, no_actions())
                }
            },
            DeviceState::Synced => (
                DeviceData { state: DeviceState::Idle, ..upd },
                DeviceState::Idle,
                no_actions(),
            ),
            DeviceState::Idle => {
                if busy {
                    (
                        DeviceData { state: DeviceState::Spinning, ..upd },
                        DeviceState::Spinning,
                        TickActions { sync: d.config.sync_flags & SYNC_SPIN_UP != 0, spindown: false },
                    )
                } else {
                    (DeviceData { state: DeviceState::Idle, ..upd }, DeviceState::Idle, no_actions())
                }
            },
        }
    }
}

impl DeviceData {
    /// Run one tick of the state machine against the tick's combined sector
    /// counter and the current time (seconds). Returns the state the device
    /// is now in and the side effects the caller must carry out.
    pub fn tick(&mut self, current: usize, now: u64) -> (r: (DeviceState, TickActions))
        ensures
            *final(self) == spec_tick(*old(self), current, now).0,
            r.0 == spec_tick(*old(self), current, now).1,
            r.1 == spec_tick(*old(self), current, now).2,
    {
        let busy = current.wrapping_sub(self.sectors) != 0;
        let idle_secs: u64 = if busy {
            self.sectors = current;
            self.last_io = now;
            0
        } else if now >= self.last_io {
            now - self.last_io
        } else {
            0
        };
        if self.config.idle_time == 0 {
            return (DeviceState::Spinning, TickActions { sync: false, spindown: false });
        }
        match self.state {
            DeviceState::Spinning => {
                if idle_secs >= self.config.idle_time {
                    if self.config.sync_flags & SYNC_SPIN_DOWN == 0 {
                        self.state = DeviceState::Idle;
                        (DeviceState::Idle, TickActions { sync: false, spindown: true })
                    } else {
                        self.state = DeviceState::Synced;
                        (DeviceState::Synced, TickActions { sync: true, spindown: true })
                    }
                } else {
                    (DeviceState::Spinning, TickActions { sync: false, spindown: false })
                }
            },
            DeviceState::Synced => {
                self.state = DeviceState::Idle;
                (DeviceState::Idle, TickActions { sync: false, spindown: false })
            },
            DeviceState::Idle => {
                if busy {
                    self.state = DeviceState::Spinning;
                    (
                        DeviceState::Spinning,
                        TickActions {
                            sync: self.config.sync_flags & SYNC_SPIN_UP != 0,
                            spindown: false,
                        },
                    )
                } else {
                    (DeviceState::Idle, TickActions { sync: false, spindown: false })
                }
            },
        }
    }
}

/// The per-tick delta is the wrapping difference of the two counter values:
/// it equals the mathematical difference reduced modulo the word size, so a
/// counter that overflowed between two snapshots still yields the true
/// amount of activity.
pub proof fn lemma_delta_is_wrapping_difference(prev: usize, cur: usize)
    ensures
        spec_delta(prev, cur) as int == (cur as int - prev as int) % word_modulus(),
{
    let m = word_modulus();
    let d = cur as int - prev as int;
    if d >= 0 {
        vstd::arithmetic::div_mod::lemma_small_mod(d as nat, m as nat);
    } else {
        vstd::arithmetic::div_mod::lemma_small_mod((d + m) as nat, m as nat);
        vstd::arithmetic::div_mod::lemma_mod_add_multiples_vanish(d, m);
    }
}

/// A device in `Synced` state moves to `Idle` on the very next tick,
/// whatever the busy signal says: the sync performed on the previous tick
/// produces I/O of its own, which must not be misread as a wake-up. The tick
/// requests no side effects.
pub proof fn lemma_synced_always_advances_to_idle(d: DeviceData, current: usize, now: u64)
    requires
        d.state is Synced,
        d.config.idle_time > 0,
    ensures
        spec_tick(d, current, now).0.state is Idle,
        spec_tick(d, current, now).1 is Idle,
        spec_tick(d, current, now).2 == no_actions(),
{
}

/// The tick that first crosses the idle threshold requests exactly one
/// spin-down, with a preceding sync exactly when `SYNC_SPIN_DOWN` is set,
/// and moves to `Synced` when syncing, else straight to `Idle`.
pub proof fn lemma_idle_threshold_spins_down(d: DeviceData, current: usize, now: u64)
    requires
        d.state is Spinning,
        d.config.idle_time > 0,
        !spec_busy(d, current),
        spec_idle_secs(d, current, now) >= d.config.idle_time,
    ensures
        spec_tick(d, current, now).2.spindown,
        spec_tick(d, current, now).2.sync == (d.config.sync_flags & SYNC_SPIN_DOWN != 0),
        (d.config.sync_flags & SYNC_SPIN_DOWN != 0) ==> spec_tick(d, current, now).0.state is Synced,
        (d.config.sync_flags & SYNC_SPIN_DOWN == 0) ==> spec_tick(d, current, now).0.state is Idle,
{
}

/// A parked device that stays idle requests nothing and stays parked; one
/// that sees activity spins up, with a sync request exactly when
/// `SYNC_SPIN_UP` is set and never a spin-down request.
pub proof fn lemma_parked_device(d: DeviceData, current: usize, now: u64)
    requires
        d.state is Idle,
        d.config.idle_time > 0,
    ensures
        !spec_tick(d, current, now).2.spindown,
        !spec_busy(d, current) ==> spec_tick(d, current, now).0.state is Idle && spec_tick(
            d,
            current,
            now,
        ).2 == no_actions(),
        spec_busy(d, current) ==> spec_tick(d, current, now).0.state is Spinning && spec_tick(
            d,
            current,
            now,
        ).2.sync == (d.config.sync_flags & SYNC_SPIN_UP != 0),
{
}

/// After any tick, the retained counter equals the tick's combined counter
/// whenever the tick was busy, and is otherwise unchanged — so a second tick
/// against the same counter value always reads a zero delta.
pub proof fn lemma_tick_settles_counter(d: DeviceData, current: usize, now: u64)
    ensures
        spec_tick(d, current, now).0.sectors == if spec_busy(d, current) {
            current
        } else {
            d.sectors
        },
        !spec_busy(spec_tick(d, current, now).0, current),
{
    let upd = spec_tick(d, current, now).0;
    if spec_busy(d, current) {
        assert(upd.sectors == current);
    } else {
        assert(spec_delta(d.sectors, current) == 0);
    }
}

} // verus!
