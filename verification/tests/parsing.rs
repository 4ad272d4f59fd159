use spindownd::is_scsi;
use spindownd::iomonitor::parse_line;
use spindownd::utils::parse_integer;
use spindownd::{classify_scsi_root, DeviceKindError};

#[test]
fn parse_integer_exact_values() {
    assert_eq!(parse_integer(b"0").unwrap(), 0);
    assert_eq!(parse_integer(b"123").unwrap(), 123);
    assert_eq!(parse_integer(b"0042").unwrap(), 42);
    assert_eq!(parse_integer(b"").unwrap(), 0);
}

#[test]
fn parse_integer_wraps_at_word_size() {
    // 2^64 wraps to 0, 2^64 + 5 wraps to 5: the kernel counters overflow the
    // same way, and the diff stage tolerates it.
    assert_eq!(parse_integer(b"18446744073709551616").unwrap(), 0);
    assert_eq!(parse_integer(b"18446744073709551621").unwrap(), 5);
    assert_eq!(parse_integer(b"18446744073709551615").unwrap(), usize::MAX);
}

#[test]
fn parse_integer_rejects_non_digits() {
    let e = parse_integer(b"12a3").err().unwrap();
    assert!(e.message().contains("Invalid integer: '12a3'"));
    assert!(parse_integer(b"-1").is_err());
    assert!(parse_integer(b" 1").is_err());
}

#[test]
fn is_scsi_recognizes_the_device_class() {
    assert!(is_scsi(8));
    assert!(is_scsi(65));
    assert!(is_scsi(71));
    assert!(!is_scsi(7));
    assert!(!is_scsi(9));
    assert!(!is_scsi(64));
    assert!(!is_scsi(72));
    assert!(!is_scsi(3));
}

#[test]
fn classify_scsi_root_checks_mode_and_device_numbers() {
    // sda: a block device, major 8, minor 0.
    assert!(classify_scsi_root(0o060644, 8 << 8).is_ok());
    // sdb: minor 16, still a root device.
    assert!(classify_scsi_root(0o060644, (8 << 8) | 16).is_ok());
    // A regular file.
    assert_eq!(
        classify_scsi_root(0o100644, 8 << 8),
        Err(DeviceKindError::NotABlockDevice)
    );
    // A block device outside the SCSI class (major 3).
    assert_eq!(
        classify_scsi_root(0o060644, 3 << 8),
        Err(DeviceKindError::NotScsi)
    );
    // sda1: minor 1, a partition rather than a root device.
    assert_eq!(
        classify_scsi_root(0o060644, (8 << 8) | 1),
        Err(DeviceKindError::NotARootDevice)
    );
}

fn sample_line() -> &'static [u8] {
    //            major minor name  rd rdm sect-rd msr wr wrm sect-wr msw io msio wms dc dcm sect-dc
    b"   8       1 sda1 10 20 300 40 50 60 700 80 90 100 110 120 130 9000"
}

#[test]
fn parse_line_sums_the_three_sector_fields() {
    let (name, sectors) = parse_line(sample_line()).unwrap().unwrap();
    assert_eq!(name, b"sda".to_vec());
    assert_eq!(sectors, 300 + 700 + 9000);
}

#[test]
fn parse_line_skips_foreign_device_classes() {
    // Major 3 is not a SCSI disk: skipped, not an error.
    let line = b"   3       1 hda1 10 20 300 40 50 60 700 80 90 100 110 120 130 9000";
    assert_eq!(parse_line(line).unwrap(), None);
}

#[test]
fn parse_line_skips_whole_disk_aggregate_entries() {
    // No trailing digits on the identifier: a whole-disk line, skipped.
    let line = b"   8       0 sda 10 20 300 40 50 60 700 80 90 100 110 120 130 9000";
    assert_eq!(parse_line(line).unwrap(), None);
}

#[test]
fn parse_line_rejects_non_numeric_fields() {
    let line = b"   8       1 sda1 10 20 3x0 40 50 60 700 80 90 100 110 120 130 9000";
    assert!(parse_line(line).is_err());
    let bad_major = b"eight 1 sda1 10 20 300 40 50 60 700 80 90 100 110 120 130 9000";
    assert!(parse_line(bad_major).is_err());
}

#[test]
fn parse_line_rejects_missing_tokens() {
    assert!(parse_line(b"").is_err());
    assert!(parse_line(b"8 1 sda1 10 20 300").is_err());
    // A non-SCSI major is decided before later fields are even required.
    assert!(parse_line(b"3").unwrap().is_none());
    assert!(parse_line(b"8").is_err());
}

#[test]
fn parse_line_strips_all_trailing_digits() {
    let line = b"  65  17 sdq12 1 1 5 1 1 1 6 1 1 1 1 1 1 7";
    let (name, sectors) = parse_line(line).unwrap().unwrap();
    assert_eq!(name, b"sdq".to_vec());
    assert_eq!(sectors, 18);
}
