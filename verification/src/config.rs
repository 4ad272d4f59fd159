use vstd::prelude::*;
use vstd::string::StringExecFns;
use crate::device::{DeviceConfig, SYNC_SPIN_DOWN, SYNC_SPIN_UP};
use crate::errors::Error;
use crate::utils::{copy_bytes, lossy_string};

verus! {

/// The running state of the flag scanner: the configuration built so far,
/// the idle-time digits accumulated so far, whether the idle time is sealed
/// (a digit after a non-digit flag is an error), the active `+`/`-` prefix,
/// and the previous byte.
pub struct FlagsState {
    pub config: DeviceConfig,
    pub idle: u64,
    pub sealed: bool,
    pub prefix: u8,
    pub prev: u8,
}

/// One byte of a flag string applied to the scanner state. Digits extend
/// the idle time (wrapping at the word size); `s`/`S` toggle the two sync
/// flags and `v` moves the verbosity, each according to the active prefix;
/// `+` and `-` set the prefix, which resets to `+` after any other byte
/// except when repeating a byte right after `-`; anything else is an error.
pub open spec fn spec_flags_step(st: FlagsState, c: u8) -> Result<FlagsState, ()> {
    let prefix = if st.prev != 45 && c != st.prev {
        43u8
    } else {
        st.prefix
    };
    if c.wrapping_sub(48) < 10 {
        if st.sealed {
            Err(())
        } else {
            Ok(
                FlagsState {
                    idle: st.idle.wrapping_mul(10).wrapping_add((c - 48) as u64),
                    prefix,
                    prev: c,
                    ..st
                },
            )
        }
    } else {
        let sealed = st.idle > 0;
        if c == 115 {  // 's'
            let f = if prefix == 43 {
                st.config.sync_flags | SYNC_SPIN_DOWN
            } else {
                st.config.sync_flags & !SYNC_SPIN_DOWN
            };
            Ok(
                FlagsState {
                    config: DeviceConfig { sync_flags: f, ..st.config },
                    sealed,
                    prefix,
                    prev: c,
                    ..st
                },
            )
        } else if c == 83 {  // 'S'
            let f = if prefix == 43 {
                st.config.sync_flags | SYNC_SPIN_UP
            } else {
                st.config.sync_flags & !SYNC_SPIN_UP
            };
            Ok(
                FlagsState {
                    config: DeviceConfig { sync_flags: f, ..st.config },
                    sealed,
                    prefix,
                    prev: c,
                    ..st
                },
            )
        } else if c == 118 {  // 'v'
            let v = if prefix == 43 {
                if st.config.verbosity == 255 {
                    255u8
                } else {
                    (st.config.verbosity + 1) as u8
                }
            } else {
                if st.config.verbosity == 0 {
                    0u8
                } else {
                    (st.config.verbosity - 1) as u8
                }
            };
            Ok(
                FlagsState {
                    config: DeviceConfig { verbosity: v, ..st.config },
                    sealed,
                    prefix,
                    prev: c,
                    ..st
                },
            )
        } else if c == 43 || c == 45 {  // '+' or '-'
            Ok(FlagsState { sealed, prefix: c, prev: c, ..st })
        } else {
            Err(())
        }
    }
}

/// The scanner state after the first `n` bytes of the flag string.
pub open spec fn spec_flags_fold(st: FlagsState, s: Seq<u8>, n: int) -> Result<FlagsState, ()>
    decreases n,
{
    if n <= 0 {
        Ok(st)
    } else {
        match spec_flags_fold(st, s, n - 1) {
            Err(()) => Err(()),
            Ok(cur) => spec_flags_step(cur, s[n - 1]),
        }
    }
}

/// Once a bad byte has stopped the scanner, every longer prefix stops too.
proof fn lemma_flags_err_sticks(st: FlagsState, s: Seq<u8>, k: int, n: int)
    requires
        0 <= k <= n,
        spec_flags_fold(st, s, k) is Err,
    ensures
        spec_flags_fold(st, s, n) is Err,
    decreases n - k,
{
    if n > k {
        lemma_flags_err_sticks(st, s, k, n - 1);
    }
}

/// The scanner's starting state on top of a default configuration.
pub open spec fn spec_flags_init(default: DeviceConfig) -> FlagsState {
    FlagsState { config: default, idle: 0, sealed: false, prefix: 43, prev: 32 }
}

/// The configuration a whole flag string makes on top of a default: the
/// scanned configuration, with the idle time overridden whenever the string
/// set one.
pub open spec fn spec_parse_flags(default: DeviceConfig, s: Seq<u8>) -> Result<DeviceConfig, ()> {
    match spec_flags_fold(spec_flags_init(default), s, s.len() as int) {
        Err(()) => Err(()),
        Ok(st) => Ok(
            if st.idle > 0 || st.sealed {
                DeviceConfig { idle_time: st.idle, ..st.config }
            } else {
                st.config
            },
        ),
    }
}

/// Parse one device flag string (`"600s-vv"`, …) on top of a default
/// configuration: digits give the idle time in seconds (settable once per
/// string), `s`/`S` toggle sync on spin-down/spin-up, `v` moves verbosity,
/// and a `-` prefix turns the following flags off instead of on.
pub fn parse_flags(flags: &[u8], default: &DeviceConfig) -> (r: Result<DeviceConfig, Error>)
    ensures
        r is Err <==> spec_parse_flags(*default, flags@) is Err,
        r matches Ok(c) ==> spec_parse_flags(*default, flags@) == Ok::<DeviceConfig, ()>(c),
{
    let mut config = *default;
    let mut idle_time: u64 = 0;
    let mut idle_time_sealed = false;
    let mut prefix: u8 = 43;
    let mut prev_flag: u8 = 32;
    let n = flags.len();
    let mut i: usize = 0;
    while i < n
        invariant
            0 <= i <= n,
            n == flags@.len(),
            spec_flags_fold(spec_flags_init(*default), flags@, i as int) == Ok::<FlagsState, ()>(
                FlagsState {
                    config,
                    idle: idle_time,
                    sealed: idle_time_sealed,
                    prefix,
                    prev: prev_flag,
                },
            ),
        decreases n - i,
    {
        let c = flags[i];
        let ghost st_pre = FlagsState {
            config,
            idle: idle_time,
            sealed: idle_time_sealed,
            prefix,
            prev: prev_flag,
        };
        proof {
            assert(spec_flags_fold(spec_flags_init(*default), flags@, i + 1)
                == spec_flags_step(st_pre, flags@[i as int]));
        }
        if prev_flag != 45 && c != prev_flag {
            prefix = 43;
        }
        let digit = c.wrapping_sub(48);
        if digit < 10 {
            if idle_time_sealed {
                proof {
                    assert(spec_flags_step(st_pre, c) is Err);
                    lemma_flags_err_sticks(
                        spec_flags_init(*default),
                        flags@,
                        i + 1,
                        flags@.len() as int,
                    );
                }
                return Err(Error::from_msg("idle time already set"));
            }
            idle_time = idle_time.wrapping_mul(10).wrapping_add(digit as u64);
        } else {
            idle_time_sealed = idle_time > 0;
            if c == 115 {
                if prefix == 43 {
                    config.sync_flags = config.sync_flags | SYNC_SPIN_DOWN;
                } else {
                    config.sync_flags = config.sync_flags & !SYNC_SPIN_DOWN;
                }
            } else if c == 83 {
                if prefix == 43 {
                    config.sync_flags = config.sync_flags | SYNC_SPIN_UP;
                } else {
                    config.sync_flags = config.sync_flags & !SYNC_SPIN_UP;
                }
            } else if c == 118 {
                if prefix == 43 {
                    config.verbosity = if config.verbosity == 255 {
                        255
                    } else {
                        config.verbosity + 1
                    };
                } else {
                    config.verbosity = if config.verbosity == 0 {
                        0
                    } else {
                        config.verbosity - 1
                    };
                }
            } else if c == 43 || c == 45 {
                prefix = c;
            } else {
                proof {
                    assert(spec_flags_step(st_pre, c) is Err);
                    lemma_flags_err_sticks(
                        spec_flags_init(*default),
                        flags@,
                        i + 1,
                        flags@.len() as int,
                    );
                }
                let mut cv: Vec<u8> = Vec::new();
                cv.push(c);
                let mut msg = String::new();
                msg.append("invalid flag '");
                msg.append(lossy_string(cv.as_slice()).as_str());
                msg.append("'");
                return Err(Error::from_msg(msg));
            }
        }
        prev_flag = c;
        proof {
            assert(spec_flags_step(st_pre, c) == Ok::<FlagsState, ()>(
                FlagsState {
                    config,
                    idle: idle_time,
                    sealed: idle_time_sealed,
                    prefix,
                    prev: prev_flag,
                },
            ));
        }
        i = i + 1;
    }
    if idle_time > 0 || idle_time_sealed {
        config.idle_time = idle_time;
    }
    Ok(config)
}

/// Split one command-line device argument at its first `:` into the device
/// part and the optional flag part.
pub fn split_device_arg(arg: &[u8]) -> (r: (Vec<u8>, Option<Vec<u8>>))
    ensures
        r.1 is None ==> (r.0@ == arg@ && forall|k: int| 0 <= k < arg@.len() ==> arg@[k] != 58),
        r.1 matches Some(f) ==> exists|k: int|
            0 <= k < arg@.len() && arg@[k] == 58 && (forall|j: int| 0 <= j < k ==> arg@[j] != 58)
                && r.0@ == arg@.take(k) && f@ == arg@.skip(k + 1),
{
    let n = arg.len();
    let mut i: usize = 0;
    while i < n
        invariant
            0 <= i <= n,
            n == arg@.len(),
            forall|j: int| 0 <= j < i ==> arg@[j] != 58,
        decreases n - i,
    {
        if arg[i] == 58 {
            let disk = copy_bytes_range(arg, 0, i);
            let flags = copy_bytes_range(arg, i + 1, n);
            proof {
                assert(disk@ =~= arg@.take(i as int));
                assert(flags@ =~= arg@.skip(i + 1));
            }
            return (disk, Some(flags));
        }
        i = i + 1;
    }
    (copy_bytes(arg), None)
}

/// An owned copy of `src[from..to]`.
fn copy_bytes_range(src: &[u8], from: usize, to: usize) -> (r: Vec<u8>)
    requires
        from <= to <= src@.len(),
    ensures
        r@ == src@.subrange(from as int, to as int),
{
    let mut r: Vec<u8> = Vec::new();
    let mut i: usize = from;
    while i < to
        invariant
            from <= i <= to,
            to <= src@.len(),
            r@ == src@.subrange(from as int, i as int),
        decreases to - i,
    {
        r.push(src[i]);
        proof {
            assert(r@ =~= src@.subrange(from as int, i + 1));
        }
        i = i + 1;
    }
    r
}

} // verus!
