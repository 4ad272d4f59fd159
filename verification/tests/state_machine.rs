use spindownd::device::{
    DeviceConfig, DeviceData, DeviceState, SYNC_SPIN_DOWN, SYNC_SPIN_UP,
};

fn config(idle_time: u64, sync_flags: u8) -> DeviceConfig {
    DeviceConfig { idle_time, sync_flags, verbosity: 0 }
}

#[test]
fn delta_is_wrapping_so_overflow_still_counts_as_activity() {
    // The cumulative counter sits at the representable maximum; the next
    // snapshot has wrapped around to 4. The wrapping difference is 5, so the
    // device must count as busy and retain the new counter value.
    let mut d = DeviceData::from(config(60, 0));
    d.sectors = usize::MAX;
    d.last_io = 0;
    let (state, actions) = d.tick(4, 100);
    assert_eq!(state, DeviceState::Spinning);
    assert!(!actions.sync && !actions.spindown);
    assert_eq!(d.sectors, 4);
    assert_eq!(d.last_io, 100);
}

#[test]
fn idle_device_spins_down_once_then_stays_idle() {
    // idle_time = 60 s, sync_flags = 0. One busy tick, then inactivity:
    // crossing the threshold gives exactly one Spinning -> Idle transition
    // and exactly one spin-down request; further inactivity requests
    // nothing; renewed activity spins up with zero sync requests.
    let mut d = DeviceData::from(config(60, 0));
    let (s, a) = d.tick(100, 0);
    assert_eq!(s, DeviceState::Spinning);
    assert!(!a.sync && !a.spindown);

    let (s, a) = d.tick(100, 59);
    assert_eq!(s, DeviceState::Spinning);
    assert!(!a.sync && !a.spindown);

    let (s, a) = d.tick(100, 60);
    assert_eq!(s, DeviceState::Idle);
    assert!(!a.sync);
    assert!(a.spindown);

    let (s, a) = d.tick(100, 120);
    assert_eq!(s, DeviceState::Idle);
    assert!(!a.sync && !a.spindown);

    let (s, a) = d.tick(150, 130);
    assert_eq!(s, DeviceState::Spinning);
    assert!(!a.sync && !a.spindown);
    assert_eq!(d.last_io, 130);
}

#[test]
fn sync_on_spindown_goes_through_synced_and_ignores_one_busy_tick() {
    // sync_flags = SPIN_DOWN: the idle-triggering tick produces exactly one
    // sync request and one spin-down request and moves to Synced; the next
    // tick moves unconditionally to Idle even though it is busy.
    let mut d = DeviceData::from(config(60, SYNC_SPIN_DOWN));
    let (_, _) = d.tick(100, 0);

    let (s, a) = d.tick(100, 60);
    assert_eq!(s, DeviceState::Synced);
    assert!(a.sync);
    assert!(a.spindown);

    // The sync itself produced I/O: the counter moved, but the Synced state
    // still advances to Idle with no further requests.
    let (s, a) = d.tick(140, 61);
    assert_eq!(s, DeviceState::Idle);
    assert!(!a.sync && !a.spindown);
}

#[test]
fn spin_up_sync_flag_requests_sync_on_wakeup() {
    let mut d = DeviceData::from(config(60, SYNC_SPIN_UP));
    d.tick(100, 0);
    let (s, a) = d.tick(100, 60);
    assert_eq!(s, DeviceState::Idle);
    assert!(!a.sync);
    assert!(a.spindown);

    let (s, a) = d.tick(160, 90);
    assert_eq!(s, DeviceState::Spinning);
    assert!(a.sync);
    assert!(!a.spindown);
}

#[test]
fn zero_idle_time_disables_the_state_machine() {
    let mut d = DeviceData::from(config(0, SYNC_SPIN_DOWN));
    let (s, a) = d.tick(100, 0);
    assert_eq!(s, DeviceState::Spinning);
    assert!(!a.sync && !a.spindown);
    // Even a huge idle duration never parks the device.
    let (s, a) = d.tick(100, 1_000_000);
    assert_eq!(s, DeviceState::Spinning);
    assert!(!a.sync && !a.spindown);
    assert_eq!(d.state, DeviceState::Spinning);
}

#[test]
fn clock_going_backwards_counts_as_zero_idleness() {
    let mut d = DeviceData::from(config(60, 0));
    d.tick(100, 1000);
    // now < last_io: treated as zero idle time, not a panic.
    let (s, a) = d.tick(100, 500);
    assert_eq!(s, DeviceState::Spinning);
    assert!(!a.sync && !a.spindown);
}
