use spindownd::app::App;
use spindownd::config::{parse_flags, split_device_arg};
use spindownd::device::{DeviceConfig, DeviceState, SYNC_SPIN_DOWN, SYNC_SPIN_UP};
use spindownd::iomonitor::IOMonitor;
use spindownd::make_inplace_cstr;
use spindownd::mounts::for_dev;

fn config(idle_time: u64, sync_flags: u8) -> DeviceConfig {
    DeviceConfig { idle_time, sync_flags, verbosity: 0 }
}

fn lines(text: &str) -> Vec<Vec<u8>> {
    text.lines()
        .filter(|l| !l.is_empty())
        .map(|l| l.as_bytes().to_vec())
        .collect()
}

fn snapshot(sda_sectors: usize, sdb_sectors: usize) -> Vec<Vec<u8>> {
    lines(&format!(
        "8 0 sda 1 1 9999 1 1 1 9999 1 1 1 1 1 1 9999\n\
         8 1 sda1 1 1 {} 1 1 1 0 1 1 1 1 1 1 0\n\
         8 17 sdb1 1 1 {} 1 1 1 0 1 1 1 1 1 1 0",
        sda_sectors, sdb_sectors
    ))
}

#[test]
fn unseen_device_is_auto_registered_with_the_default_config() {
    // Only sda is configured at startup; sdb appears in a snapshot mid-run
    // and must join the ledger under the live default configuration and
    // take part in later ticks without a restart.
    let default = config(30, 0);
    let mut app = App::new(default, vec![(b"sda".to_vec(), config(60, 0))])
        .unwrap()
        .unwrap();
    assert_eq!(app.monitor().len(), 1);

    let (_, _) = app.tick(&snapshot(100, 100), 0).unwrap();
    assert_eq!(app.monitor().len(), 2);
    let names: Vec<Vec<u8>> = (0..app.monitor().len())
        .map(|i| app.monitor().get(i).name().clone())
        .collect();
    assert!(names.contains(&b"sda".to_vec()));
    assert!(names.contains(&b"sdb".to_vec()));

    // The discovered device runs under the default idle time of 30 s: after
    // 30 idle seconds it is parked, with one spin-down request for it.
    let (_, effects) = app.tick(&snapshot(100, 100), 30).unwrap();
    let spun: Vec<&Vec<u8>> = effects
        .iter()
        .filter(|e| e.actions.spindown)
        .map(|e| &e.name)
        .collect();
    assert_eq!(spun, vec![&b"sdb".to_vec()]);
}

#[test]
fn malformed_line_fails_the_refresh_and_names_the_line() {
    let mut app = App::new(config(0, 0), vec![(b"sda".to_vec(), config(60, 0))])
        .unwrap()
        .unwrap();
    let bad = lines("8 1 sda1 1 1 3x4 1 1 1 0 1 1 1 1 1 1 0");
    let e = app.tick(&bad, 0).err().unwrap();
    let msg = e.message();
    assert!(msg.contains("Parsing line '8 1 sda1 1 1 3x4"), "got: {}", msg);
    assert!(msg.contains("Invalid integer: '3x4'"), "got: {}", msg);
}

#[test]
fn foreign_class_and_aggregate_lines_create_no_records_and_no_delta() {
    // A major outside the recognized class, and a whole-disk line without
    // trailing digits, contribute nothing: no record, no delta.
    let mut monitor = IOMonitor::new();
    let snap = lines(
        "3 1 hda1 1 1 500 1 1 1 500 1 1 1 1 1 1 500\n\
         8 0 sda 1 1 500 1 1 1 500 1 1 1 1 1 1 500",
    );
    monitor.check_activity(&snap, config(60, 0)).unwrap();
    assert_eq!(monitor.len(), 0);
}

#[test]
fn unchanged_snapshot_gives_zero_delta_and_stable_states() {
    // Re-running refresh on an identical snapshot at the same instant: the
    // second pass sees a zero delta everywhere and changes no state, except
    // that Synced still advances to Idle.
    let mut app = App::new(
        config(0, 0),
        vec![
            (b"sda".to_vec(), config(60, SYNC_SPIN_DOWN)),
            (b"sdb".to_vec(), config(0, 0)),
        ],
    )
    .unwrap()
    .unwrap();

    let snap = snapshot(100, 200);
    app.tick(&snap, 0).unwrap();
    let states1: Vec<DeviceState> = (0..app.monitor().len())
        .map(|i| app.monitor().get(i).data.state)
        .collect();
    let (_, _) = app.tick(&snap, 0).unwrap();
    let states2: Vec<DeviceState> = (0..app.monitor().len())
        .map(|i| app.monitor().get(i).data.state)
        .collect();
    assert_eq!(states1, states2);

    // Now drive sda into Synced and re-tick on the unchanged snapshot: it
    // must still advance to Idle.
    let (will_sleep, _) = app.tick(&snap, 60).unwrap();
    assert!(!will_sleep);
    let sda = (0..app.monitor().len())
        .find(|&i| app.monitor().get(i).name().as_slice() == b"sda")
        .unwrap();
    assert_eq!(app.monitor().get(sda).data.state, DeviceState::Synced);

    let (will_sleep, effects) = app.tick(&snap, 60).unwrap();
    assert!(will_sleep);
    assert_eq!(app.monitor().get(sda).data.state, DeviceState::Idle);
    assert!(effects.iter().all(|e| !e.actions.sync && !e.actions.spindown));
}

#[test]
fn duplicate_configured_devices_are_fatal() {
    let e = App::new(
        config(0, 0),
        vec![
            (b"sda".to_vec(), config(60, 0)),
            (b"sda".to_vec(), config(30, 0)),
        ],
    )
    .err()
    .unwrap();
    assert!(e.message().contains("Duplicated device: sda"));
}

#[test]
fn no_monitored_device_means_no_app() {
    let r = App::new(config(0, 0), vec![(b"sda".to_vec(), config(0, 0))]).unwrap();
    assert!(r.is_none());
}

#[test]
fn poll_interval_is_a_tenth_of_the_shortest_idle_window() {
    let app = App::new(config(0, 0), vec![(b"sda".to_vec(), config(60, 0))])
        .unwrap()
        .unwrap();
    assert_eq!(app.interval_ms(), 6000);

    // Floored at one second.
    let app = App::new(config(0, 0), vec![(b"sda".to_vec(), config(5, 0))])
        .unwrap()
        .unwrap();
    assert_eq!(app.interval_ms(), 1000);

    // The default configuration's idle time takes part in the minimum.
    let app = App::new(config(20, 0), vec![(b"sda".to_vec(), config(60, 0))])
        .unwrap()
        .unwrap();
    assert_eq!(app.interval_ms(), 2000);
}

#[test]
fn parse_flags_builds_the_configuration() {
    let d = DeviceConfig { idle_time: 0, sync_flags: 0, verbosity: 0 };
    let c = parse_flags(b"300svv", &d).unwrap();
    assert_eq!(c.idle_time, 300);
    assert_eq!(c.sync_flags, SYNC_SPIN_DOWN);
    assert_eq!(c.verbosity, 2);

    let base = DeviceConfig { idle_time: 300, sync_flags: SYNC_SPIN_DOWN, verbosity: 2 };
    let c = parse_flags(b"6000-sS-vv", &base).unwrap();
    assert_eq!(c.idle_time, 6000);
    assert_eq!(c.sync_flags, SYNC_SPIN_UP);
    assert_eq!(c.verbosity, 0);

    // '-vv' decreases twice: the '-' prefix survives a repeated flag byte.
    let c = parse_flags(b"-vv", &base).unwrap();
    assert_eq!(c.verbosity, 0);

    // A lone zero never seals nor sets the idle time: the inherited default
    // stays in force.
    let c = parse_flags(b"0", &base).unwrap();
    assert_eq!(c.idle_time, 300);
    // Followed by a flag it seals at zero, and still sets nothing.
    let c = parse_flags(b"0s", &base).unwrap();
    assert_eq!(c.idle_time, 300);
}

#[test]
fn empty_flag_string_keeps_the_default() {
    let base = DeviceConfig { idle_time: 300, sync_flags: SYNC_SPIN_DOWN, verbosity: 1 };
    let c = parse_flags(b"", &base).unwrap();
    assert_eq!(c, base);

    // "sda:" carries an empty flag part, distinct from carrying none.
    let (disk, flags) = split_device_arg(b"sda:");
    assert_eq!(disk, b"sda".to_vec());
    assert_eq!(flags.unwrap(), Vec::<u8>::new());
}

#[test]
fn parse_flags_rejects_bad_input() {
    let d = DeviceConfig { idle_time: 0, sync_flags: 0, verbosity: 0 };
    let e = parse_flags(b"12x", &d).err().unwrap();
    assert!(e.message().contains("invalid flag 'x'"));
    // The idle time can be given only once per flag string.
    let e = parse_flags(b"30s5", &d).err().unwrap();
    assert!(e.message().contains("idle time already set"));
}

#[test]
fn split_device_arg_separates_disk_and_flags() {
    let (disk, flags) = split_device_arg(b"/dev/sda:600s");
    assert_eq!(disk, b"/dev/sda".to_vec());
    assert_eq!(flags.unwrap(), b"600s".to_vec());

    let (disk, flags) = split_device_arg(b":-v600");
    assert_eq!(disk, b"".to_vec());
    assert_eq!(flags.unwrap(), b"-v600".to_vec());

    let (disk, flags) = split_device_arg(b"/dev/sda");
    assert_eq!(disk, b"/dev/sda".to_vec());
    assert!(flags.is_none());
}

#[test]
fn mount_scan_collects_only_the_devices_mounts() {
    let table = lines(
        "/dev/sda1 /mnt/a ext4 rw 0 0\n\
         /dev/sdb1 /mnt/b ext4 rw 0 0\n\
         proc /proc proc rw 0 0\n\
         /dev/sda2 /mnt/c ext4 rw 0 0",
    );
    let points = for_dev(&table, b"sda").unwrap();
    assert_eq!(points, vec![b"/mnt/a\0".to_vec(), b"/mnt/c\0".to_vec()]);

    let none = for_dev(&table, b"sdc").unwrap();
    assert!(none.is_empty());
}

#[test]
fn malformed_mount_lines_abort_the_scan() {
    // A source token alone: the mount point is missing.
    let table = lines("/dev/sda1");
    assert!(for_dev(&table, b"sda").is_err());

    // A mount point that ends the line without a separator cannot be
    // terminated in place.
    let table = lines("/dev/sda1 /mnt/a");
    assert!(for_dev(&table, b"sda").is_err());

    // Lines of other devices are not even inspected that far.
    let table = lines("/dev/sdb1 /mnt/b");
    assert!(for_dev(&table, b"sda").unwrap().is_empty());
}

#[test]
fn make_inplace_cstr_overwrites_the_trailing_separator() {
    let mut v = b"/mnt/a ".to_vec();
    make_inplace_cstr(&mut v).unwrap();
    assert_eq!(v, b"/mnt/a\0".to_vec());

    let mut v = b"/mnt/a\0".to_vec();
    make_inplace_cstr(&mut v).unwrap();
    assert_eq!(v, b"/mnt/a\0".to_vec());

    let mut v = b"/mnt/a".to_vec();
    assert!(make_inplace_cstr(&mut v).is_err());
    assert_eq!(v, b"/mnt/a".to_vec());

    let mut v = Vec::new();
    assert!(make_inplace_cstr(&mut v).is_err());
}
