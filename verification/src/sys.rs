use vstd::prelude::*;
use crate::errors::Error;

verus! {

/// The file-type bits of a mode word.
pub const S_IFMT: u32 = 0o170000;

/// The file-type bits that mark a block device.
pub const S_IFBLK: u32 = 0o060000;

/// Why a path cannot be monitored: not a block device at all, not of the
/// SCSI device class, or a partition rather than a whole-disk root device.
#[derive(Clone, Copy, PartialEq, Eq, Structural, Debug)]
pub enum DeviceKindError {
    NotABlockDevice,
    NotScsi,
    NotARootDevice,
}

/// Decide from a file's mode word and raw device number whether it names a
/// SCSI root device that this daemon can park: a block device, whose major
/// number (the high byte of the device number) is in the SCSI class, and
/// whose minor number is a multiple of 16 (a whole disk, not a partition).
pub fn classify_scsi_root(st_mode: u32, st_rdev: usize) -> (r: Result<(), DeviceKindError>)
    ensures
        r is Ok <==> (st_mode & S_IFMT == S_IFBLK && (st_rdev >> 8 == 8 || (65 <= st_rdev >> 8
            && st_rdev >> 8 <= 71)) && (st_rdev & 0xff) % 16 == 0),
        st_mode & S_IFMT != S_IFBLK <==> r == Err::<(), DeviceKindError>(
            DeviceKindError::NotABlockDevice,
        ),
        r == Err::<(), DeviceKindError>(DeviceKindError::NotScsi) <==> (st_mode & S_IFMT
            == S_IFBLK && !(st_rdev >> 8 == 8 || (65 <= st_rdev >> 8 && st_rdev >> 8 <= 71))),
        r == Err::<(), DeviceKindError>(DeviceKindError::NotARootDevice) <==> (st_mode & S_IFMT
            == S_IFBLK && (st_rdev >> 8 == 8 || (65 <= st_rdev >> 8 && st_rdev >> 8 <= 71)) && (
        st_rdev & 0xff) % 16 != 0),
{
    if st_mode & S_IFMT != S_IFBLK {
        return Err(DeviceKindError::NotABlockDevice);
    }
    let major = st_rdev >> 8;
    let minor = st_rdev & 0xff;
    if !is_scsi(major) {
        return Err(DeviceKindError::NotScsi);
    }
    if minor % 16 != 0 {
        return Err(DeviceKindError::NotARootDevice);
    }
    Ok(())
}

/// Whether a byte window may be terminated in place: it is nonempty and its
/// last byte is a space, a tab or already a terminator.
pub open spec fn spec_cstr_ok(s: Seq<u8>) -> bool {
    s.len() > 0 && (s.last() == 32 || s.last() == 9 || s.last() == 0)
}

/// Turn an owned byte window into a terminated string for an OS call by
/// overwriting its trailing separator byte with the terminator, in place.
/// The last byte must be a space, a tab or a terminator already; anything
/// else is an error and leaves the window unchanged.
pub fn make_inplace_cstr(s: &mut Vec<u8>) -> (r: Result<(), Error>)
    ensures
        r is Ok <==> spec_cstr_ok(old(s)@),
        spec_cstr_ok(old(s)@) ==> final(s)@ == old(s)@.update(old(s)@.len() - 1, 0u8),
        !spec_cstr_ok(old(s)@) ==> final(s)@ == old(s)@,
{
    let n = s.len();
    if n == 0 {
        return Err(Error::from_msg("Empty string"));
    }
    let last = s[n - 1];
    if last == 32 || last == 9 || last == 0 {
        s[n - 1] = 0;
        Ok(())
    } else {
        Err(Error::from_msg("Expected null or whitespace at the end of mount point"))
    }
}

/// Whether a device major number belongs to the SCSI disk device class
/// (major 8 and the extended range 65 through 71).
pub fn is_scsi(major: usize) -> (r: bool)
    ensures
        r == (major == 8 || (65 <= major && major <= 71)),
{
    major == 8 || (65 <= major && major <= 71)
}

} // verus!
