use vstd::prelude::*;
use vstd::string::StringExecFns;
use crate::device::{spec_fresh_data, spec_tick, DeviceConfig, DeviceData, DeviceState, TickActions};
use crate::errors::Error;
use crate::iomonitor::{
    spec_has_name, spec_name_sum, spec_parse_line, spec_refresh, spec_refresh_upto, spec_reset,
    views_of, wf_ledger, DeviceView, IOMonitor, LineOutcome,
};
use crate::utils::{copy_bytes, lossy_string};

verus! {

/// Ghost image of one queued side-effect request.
pub struct SideEffectView {
    pub name: Seq<u8>,
    pub actions: TickActions,
}

/// The side effects one device asked for this tick, queued for the caller
/// to execute after all state-machine evaluation is done: the sync (when
/// requested) comes before the spin-down command (when requested), and a
/// failure of either is advisory — it never feeds back into the machine.
pub struct SideEffect {
    pub name: Vec<u8>,
    pub actions: TickActions,
}

impl View for SideEffect {
    type V = SideEffectView;

    open spec fn view(&self) -> SideEffectView {
        SideEffectView { name: self.name@, actions: self.actions }
    }
}

/// The views of a queue of side-effect requests.
pub open spec fn effect_views(v: Seq<SideEffect>) -> Seq<SideEffectView> {
    Seq::new(v.len(), |i: int| v[i]@)
}

/// The ledger after every device took one state-machine step at time `now`.
pub open spec fn spec_tick_all(devs: Seq<DeviceView>, now: u64) -> Seq<DeviceView> {
    Seq::new(
        devs.len(),
        |i: int| DeviceView { data: spec_tick(devs[i].data, devs[i].current, now).0, ..devs[i] },
    )
}

/// The side-effect queue of one full tick: one entry per device, in ledger
/// order, holding what that device's step requested.
pub open spec fn spec_tick_effects(devs: Seq<DeviceView>, now: u64) -> Seq<SideEffectView> {
    Seq::new(
        devs.len(),
        |i: int| SideEffectView {
            name: devs[i].name,
            actions: spec_tick(devs[i].data, devs[i].current, now).2,
        },
    )
}

/// Whether the loop may sleep after this tick: no device just moved into
/// `Synced`. A device in `Synced` needs an immediate re-tick so its forced
/// step to `Idle` happens promptly, against a fresh baseline snapshot.
pub open spec fn spec_will_sleep(devs: Seq<DeviceView>, now: u64) -> bool {
    forall|i: int|
        0 <= i < devs.len() ==> !(#[trigger] spec_tick(devs[i].data, devs[i].current, now).1
            is Synced)
}

/// The smallest positive configured idle time among the default and the
/// first `n` per-device configurations; `u64::MAX` when none is positive.
pub open spec fn spec_min_idle(dflt: DeviceConfig, cfgs: Seq<DeviceConfig>, n: int) -> u64
    decreases n,
{
    if n <= 0 {
        if dflt.idle_time > 0 {
            dflt.idle_time
        } else {
            u64::MAX
        }
    } else {
        let m = spec_min_idle(dflt, cfgs, n - 1);
        let t = cfgs[n - 1].idle_time;
        if t > 0 && t < m {
            t
        } else {
            m
        }
    }
}

/// The poll interval in milliseconds: a tenth of the smallest configured
/// idle window, so that window is sampled roughly ten times, but no shorter
/// than one second.
pub open spec fn spec_interval_ms(min_idle: u64) -> u64 {
    let scaled: int = if min_idle * 100 > u64::MAX {
        u64::MAX as int
    } else {
        min_idle * 100
    };
    if scaled < 1000 {
        1000
    } else {
        scaled as u64
    }
}

/// The ledger the configured devices make, in argument order, each with a
/// fresh record under its configuration.
pub open spec fn spec_configured_ledger(cfgs: Seq<(Vec<u8>, DeviceConfig)>) -> Seq<DeviceView> {
    Seq::new(
        cfgs.len(),
        |i: int| DeviceView { name: cfgs[i].0@, current: 0, data: spec_fresh_data(cfgs[i].1) },
    )
}

/// Whether two configured devices share a key.
pub open spec fn spec_has_dup(cfgs: Seq<(Vec<u8>, DeviceConfig)>) -> bool {
    exists|i: int, j: int| 0 <= i < j < cfgs.len() && cfgs[i].0@ == cfgs[j].0@
}

/// The configuration halves of the (key, configuration) pairs.
pub open spec fn config_parts(cfgs: Seq<(Vec<u8>, DeviceConfig)>) -> Seq<DeviceConfig> {
    Seq::new(cfgs.len(), |i: int| cfgs[i].1)
}

/// A record in `Synced` always carries a positive idle time: the state is
/// only ever entered through a transition that demands one. `App::new`
/// establishes this invariant and `App::tick` preserves it.
pub open spec fn spec_synced_is_monitored(devs: Seq<DeviceView>) -> bool {
    forall|i: int|
        0 <= i < devs.len() ==> ((#[trigger] devs[i]).data.state is Synced
            ==> devs[i].data.config.idle_time > 0)
}

/// A successful refresh, full or aborted partway, keeps the invariant: it
/// only ever keeps a record it had or registers a fresh spinning one.
proof fn lemma_refresh_keeps_synced_monitored(
    init: Seq<DeviceView>,
    lines: Seq<Seq<u8>>,
    n: int,
    dflt: DeviceConfig,
)
    requires
        wf_ledger(init),
        spec_synced_is_monitored(init),
        0 <= n,
        spec_refresh_upto(init, lines, n, dflt) is Some,
    ensures
        spec_synced_is_monitored(spec_refresh_upto(init, lines, n, dflt)->Some_0.0),
{
    crate::iomonitor::lemma_refresh_preserves_names(init, lines, n, dflt);
    let cur = spec_refresh_upto(init, lines, n, dflt)->Some_0.0;
    assert forall|i: int|
        0 <= i < cur.len() && (#[trigger] cur[i]).data.state is Synced implies cur[i]
        .data.config.idle_time > 0 by {
        if cur[i].data != spec_fresh_data(dflt) {
            let j = choose|j: int|
                0 <= j < init.len() && cur[i].name == init[j].name && cur[i].data == init[j].data;
            assert(init[j].data.state is Synced);
        }
    }
}

/// One state-machine step per device keeps the invariant: a step enters
/// `Synced` only through the idle-threshold transition, which demands a
/// positive idle time, and never changes a device's configuration.
proof fn lemma_tick_all_keeps_synced_monitored(devs: Seq<DeviceView>, now: u64)
    requires
        spec_synced_is_monitored(devs),
    ensures
        spec_synced_is_monitored(spec_tick_all(devs, now)),
{
    let t = spec_tick_all(devs, now);
    assert forall|i: int|
        0 <= i < t.len() && (#[trigger] t[i]).data.state is Synced implies t[i]
        .data.config.idle_time > 0 by {
        assert(t[i].data == spec_tick(devs[i].data, devs[i].current, now).0);
    }
}

/// Re-running a refresh-and-tick against an unchanged snapshot, at the same
/// instant, reads a zero per-tick delta for every device and leaves every
/// device's state unchanged — except a device in `Synced`, which still
/// advances to `Idle`. The precondition that a `Synced` record carries a
/// positive idle time holds of every ledger this library builds: a record
/// only enters `Synced` through a transition that requires it.
pub proof fn lemma_unchanged_snapshot_retick(
    devs: Seq<DeviceView>,
    lines: Seq<Seq<u8>>,
    dflt: DeviceConfig,
    now: u64,
    rf1: Seq<DeviceView>,
)
    requires
        wf_ledger(devs),
        spec_synced_is_monitored(devs),
        spec_refresh(spec_reset(devs), lines, dflt) == Some(rf1),
    ensures
        spec_refresh(spec_reset(spec_tick_all(rf1, now)), lines, dflt) is Some,
        forall|i: int|
            0 <= i < spec_refresh(spec_reset(spec_tick_all(rf1, now)), lines, dflt)->Some_0.len()
                ==> crate::device::spec_delta(
                (#[trigger] spec_refresh(
                    spec_reset(spec_tick_all(rf1, now)),
                    lines,
                    dflt,
                )->Some_0[i]).data.sectors,
                spec_refresh(spec_reset(spec_tick_all(rf1, now)), lines, dflt)->Some_0[i].current,
            ) == 0,
        spec_refresh(spec_reset(spec_tick_all(rf1, now)), lines, dflt)->Some_0.len() == rf1.len(),
        forall|i: int|
            0 <= i < rf1.len() ==> (#[trigger] spec_tick_all(
                spec_refresh(spec_reset(spec_tick_all(rf1, now)), lines, dflt)->Some_0,
                now,
            )[i]).data.state == (if spec_tick_all(rf1, now)[i].data.state is Synced {
                DeviceState::Idle
            } else {
                spec_tick_all(rf1, now)[i].data.state
            }),
{
    let n = lines.len() as int;
    let init1 = spec_reset(devs);
    assert(wf_ledger(init1)) by {
        assert forall|a: int, b: int|
            0 <= a < b < init1.len() implies init1[a].name != init1[b].name by {
            assert(init1[a].name == devs[a].name);
            assert(init1[b].name == devs[b].name);
        }
    }
    assert(forall|i: int| 0 <= i < init1.len() ==> (#[trigger] init1[i]).current == 0);
    assert(spec_refresh_upto(init1, lines, n, dflt) is Some);
    assert(spec_refresh_upto(init1, lines, n, dflt)->Some_0.0 == rf1);
    crate::iomonitor::lemma_refresh_preserves_names(init1, lines, n, dflt);
    crate::iomonitor::lemma_refresh_counts_by_name(init1, lines, n, dflt);
    let t1 = spec_tick_all(rf1, now);
    assert(t1.len() == rf1.len());
    assert forall|i: int| 0 <= i < t1.len() implies (#[trigger] t1[i]).name == rf1[i].name
        && t1[i].data.sectors == rf1[i].current && t1[i].data.config == rf1[i].data.config by {
        crate::device::lemma_tick_settles_counter(rf1[i].data, rf1[i].current, now);
    }
    let init2 = spec_reset(t1);
    assert(init2.len() == rf1.len());
    assert(forall|i: int|
        0 <= i < init2.len() ==> (#[trigger] init2[i]).name == rf1[i].name && init2[i].current == 0
            && init2[i].data == t1[i].data);
    assert(wf_ledger(init2)) by {
        assert forall|a: int, b: int|
            0 <= a < b < init2.len() implies init2[a].name != init2[b].name by {
            assert(init2[a].name == rf1[a].name);
            assert(init2[b].name == rf1[b].name);
        }
    }
    assert forall|k: int| 0 <= k < n implies !(#[trigger] spec_parse_line(lines[k]) is Bad) by {
        crate::iomonitor::lemma_refresh_some_prefix(init1, lines, k, n, dflt);
    }
    assert forall|k: int|
        0 <= k < n implies (#[trigger] spec_parse_line(lines[k]) matches LineOutcome::Entry {
        name,
        sectors,
    } ==> spec_has_name(init2, name)) by {
        match spec_parse_line(lines[k]) {
            LineOutcome::Entry { name: kn, sectors: ks } => {
                assert(spec_has_name(rf1, kn));
                let w = choose|i: int| 0 <= i < rf1.len() && rf1[i].name == kn;
                assert(init2[w].name == kn);
            },
            _ => {},
        }
    }
    crate::iomonitor::lemma_refresh_with_known_names(init2, lines, n, dflt);
    let rf2 = spec_refresh_upto(init2, lines, n, dflt)->Some_0.0;
    assert(spec_refresh(init2, lines, dflt) == Some(rf2));
    assert(rf2.len() == rf1.len());
    assert forall|i: int| 0 <= i < rf2.len() implies crate::device::spec_delta(
        (#[trigger] rf2[i]).data.sectors,
        rf2[i].current,
    ) == 0 by {
        assert(rf2[i].current == (0u64 as usize).wrapping_add(
            spec_name_sum(lines, n, rf1[i].name),
        ));
        assert(rf2[i].current == spec_name_sum(lines, n, rf1[i].name));
        assert(rf1[i].current == spec_name_sum(lines, n, rf1[i].name));
        assert(rf2[i].data == t1[i].data);
        assert(rf2[i].data.sectors == rf1[i].current);
        assert(rf2[i].current == rf2[i].data.sectors);
    }
    assert forall|i: int| 0 <= i < rf1.len() implies (#[trigger] spec_tick_all(
        rf2,
        now,
    )[i]).data.state == (if t1[i].data.state is Synced {
        DeviceState::Idle
    } else {
        t1[i].data.state
    }) by {
        let d2 = rf2[i].data;
        let c2 = rf2[i].current;
        assert(d2 == t1[i].data);
        assert(!crate::device::spec_busy(d2, c2));
        let stepped = spec_tick(d2, c2, now).0;
        assert(spec_tick_all(rf2, now)[i].data == stepped);
        if d2.state is Synced {
            assert(d2.config.idle_time > 0) by {
                let d1 = rf1[i].data;
                let c1 = rf1[i].current;
                if d1.config.idle_time == 0 {
                    assert(spec_tick(d1, c1, now).0.state == d1.state);
                    assert(d1.state is Synced);
                    assert(spec_has_name(init1, rf1[i].name) || rf1[i].data
                        == spec_fresh_data(dflt) || (exists|j: int|
                        0 <= j < init1.len() && rf1[i].name == init1[j].name && rf1[i].data
                            == init1[j].data));
                    if rf1[i].data == spec_fresh_data(dflt) {
                        assert(!(d1.state is Synced));
                    } else {
                        let j = choose|j: int|
                            0 <= j < init1.len() && rf1[i].name == init1[j].name && rf1[i].data
                                == init1[j].data;
                        assert(init1[j].data == devs[j].data);
                        assert(devs[j].data.state is Synced);
                        assert(devs[j].data.config.idle_time > 0);
                        assert(false);
                    }
                }
            }
            assert(stepped.state is Idle);
        } else if d2.config.idle_time == 0 {
            assert(stepped.state == d2.state);
        } else if d2.state is Spinning {
            let d1 = rf1[i].data;
            let c1 = rf1[i].current;
            assert(spec_tick(d1, c1, now).0 == d2);
            assert(d1.config == d2.config);
            if crate::device::spec_busy(d1, c1) {
                assert(d2.last_io == now);
                assert(crate::device::spec_idle_secs(d2, c2, now) == 0);
                assert(stepped.state is Spinning);
            } else {
                match d1.state {
                    DeviceState::Spinning => {
                        assert(crate::device::spec_idle_secs(d1, c1, now) < d1.config.idle_time);
                        assert(d2.last_io == d1.last_io);
                        assert(crate::device::spec_idle_secs(d2, c2, now)
                            == crate::device::spec_idle_secs(d1, c1, now));
                        assert(stepped.state is Spinning);
                    },
                    DeviceState::Synced => {
                        assert(!(d2.state is Spinning));
                    },
                    DeviceState::Idle => {
                        assert(!(d2.state is Spinning));
                    },
                }
            }
        } else {
            assert(d2.state is Idle);
            assert(stepped.state is Idle);
        }
    }
}

/// The monitoring daemon's core: the activity ledger, the default
/// configuration applied to devices discovered at runtime, and the poll
/// interval.
pub struct App {
    devices_monitor: IOMonitor,
    default_config: DeviceConfig,
    interval_ms: u64,
}

impl App {
    /// The tracked devices, in ledger order.
    pub closed spec fn devices(&self) -> Seq<DeviceView> {
        self.devices_monitor@
    }

    /// The configuration that runtime-discovered devices inherit.
    pub closed spec fn spec_default_config(&self) -> DeviceConfig {
        self.default_config
    }

    /// The poll interval in milliseconds.
    pub closed spec fn spec_interval_ms(&self) -> u64 {
        self.interval_ms
    }

    /// The configuration that devices discovered at runtime inherit.
    pub fn default_config(&self) -> (r: DeviceConfig)
        ensures
            r == self.spec_default_config(),
    {
        self.default_config
    }

    /// The poll interval in milliseconds.
    pub fn interval_ms(&self) -> (r: u64)
        ensures
            r == self.spec_interval_ms(),
    {
        self.interval_ms
    }

    /// The ledger, for inspection.
    pub fn monitor(&self) -> (r: &IOMonitor)
        ensures
            r@ == self.devices(),
    {
        &self.devices_monitor
    }

    /// Build the daemon from the default configuration and the explicitly
    /// configured devices, checking for duplicate keys (a fatal error) and
    /// deriving the poll interval. Yields `None` when no device — default
    /// included — has a positive idle time: the daemon would never act.
    pub fn new(default_config: DeviceConfig, device_configs: Vec<(Vec<u8>, DeviceConfig)>) -> (r:
        Result<Option<App>, Error>)
        ensures
            r is Err <==> spec_has_dup(device_configs@),
            r matches Err(e) ==> exists|i: int, j: int|
                0 <= i < j < device_configs@.len() && (#[trigger] device_configs@[i].0)@ == (
                #[trigger] device_configs@[j].0)@ && e@.chain == seq![
                    "Duplicated device: "@ + crate::utils::lossy_of(device_configs@[j].0@),
                ] && e@.source is None,
            (r matches Ok(o) && o is None) <==> (!spec_has_dup(device_configs@) && spec_min_idle(
                default_config,
                config_parts(device_configs@),
                device_configs@.len() as int,
            ) == u64::MAX),
            r matches Ok(Some(app)) ==> (app.devices() == spec_configured_ledger(device_configs@)
                && wf_ledger(app.devices()) && spec_synced_is_monitored(app.devices())
                && app.spec_default_config() == default_config
                && app.spec_interval_ms() == spec_interval_ms(
                spec_min_idle(
                    default_config,
                    config_parts(device_configs@),
                    device_configs@.len() as int,
                ),
            )),
    {
        let mut devices_monitor = IOMonitor::new();
        let mut min_idle: u64 = if default_config.idle_time > 0 {
            default_config.idle_time
        } else {
            u64::MAX
        };
        let n = device_configs.len();
        let mut k: usize = 0;
        while k < n
            invariant
                0 <= k <= n,
                n == device_configs@.len(),
                devices_monitor@ =~= spec_configured_ledger(device_configs@.take(k as int)),
                wf_ledger(devices_monitor@),
                !spec_has_dup(device_configs@.take(k as int)),
                min_idle == spec_min_idle(
                    default_config,
                    config_parts(device_configs@),
                    k as int,
                ),
            decreases n - k,
        {
            let dev = copy_bytes(device_configs[k].0.as_slice());
            let config = device_configs[k].1;
            proof {
                assert(dev@ =~= device_configs@[k as int].0@);
            }
            if devices_monitor.contains_name(dev.as_slice()) {
                let mut msg = String::new();
                msg.append("Duplicated device: ");
                msg.append(lossy_string(dev.as_slice()).as_str());
                proof {
                    let i = choose|i: int|
                        0 <= i < devices_monitor@.len() && devices_monitor@[i].name == dev@;
                    assert(devices_monitor@[i].name == device_configs@[i].0@);
                    assert(0 <= i < k && device_configs@[i].0@ == (
                    #[trigger] device_configs@[k as int].0)@);
                    assert(msg@ == "Duplicated device: "@ + crate::utils::lossy_of(
                        device_configs@[k as int].0@,
                    ));
                }
                return Err(Error::from_msg(msg));
            }
            if config.idle_time > 0 && config.idle_time < min_idle {
                min_idle = config.idle_time;
            }
            let ghost pre = devices_monitor@;
            devices_monitor.push(dev, DeviceData::from(config));
            proof {
                assert(devices_monitor@ =~= spec_configured_ledger(
                    device_configs@.take(k + 1),
                ));
                assert(config_parts(device_configs@)[k as int] == config);
                let t = device_configs@.take(k + 1);
                if spec_has_dup(t) {
                    let (i, j) = choose|i: int, j: int| 0 <= i < j < t.len() && t[i].0@ == t[j].0@;
                    assert(pre[i].name == device_configs@[i].0@);
                    assert(false);
                }
            }
            k = k + 1;
        }
        proof {
            assert(device_configs@.take(n as int) =~= device_configs@);
        }
        let interval_ms: u64 = {
            let scaled = match min_idle.checked_mul(100) {
                Some(v) => v,
                None => u64::MAX,
            };
            if scaled < 1000 {
                1000
            } else {
                scaled
            }
        };
        proof {
            assert forall|i: int|
                0 <= i < devices_monitor@.len() && (#[trigger] devices_monitor@[i]).data.state
                is Synced implies devices_monitor@[i].data.config.idle_time > 0 by {
                assert(devices_monitor@[i].data == spec_fresh_data(device_configs@[i].1));
            }
        }
        if min_idle == u64::MAX {
            Ok(None)
        } else {
            Ok(Some(App { devices_monitor, default_config, interval_ms }))
        }
    }

    /// One full tick against one snapshot: refresh the ledger from the
    /// lines, step every device's state machine, and queue the requested
    /// side effects — one entry per device, in ledger order. Returns whether
    /// the loop may sleep before the next tick. A malformed line aborts the
    /// refresh with an error before any state machine runs.
    pub fn tick(&mut self, lines: &Vec<Vec<u8>>, now: u64) -> (r: Result<
        (bool, Vec<SideEffect>),
        Error,
    >)
        requires
            wf_ledger(old(self).devices()),
        ensures
            wf_ledger(final(self).devices()),
            spec_synced_is_monitored(old(self).devices()) ==> spec_synced_is_monitored(
                final(self).devices(),
            ),
            final(self).spec_default_config() == old(self).spec_default_config(),
            final(self).spec_interval_ms() == old(self).spec_interval_ms(),
            r is Ok <==> spec_refresh(
                spec_reset(old(self).devices()),
                views_of(lines@),
                old(self).spec_default_config(),
            ) is Some,
            r matches Ok(p) ==> (spec_refresh(
                spec_reset(old(self).devices()),
                views_of(lines@),
                old(self).spec_default_config(),
            ) matches Some(rf) && final(self).devices() == spec_tick_all(rf, now) && effect_views(
                p.1@,
            ) == spec_tick_effects(rf, now) && p.0 == spec_will_sleep(rf, now)),
            r is Err ==> exists|k: int|
                0 <= k < lines@.len()
                && spec_parse_line(#[trigger] views_of(lines@)[k]) is Bad
                && (spec_refresh_upto(
                    spec_reset(old(self).devices()),
                    views_of(lines@),
                    k,
                    old(self).spec_default_config(),
                ) matches Some(st) && final(self).devices() == st.0)
                && (r matches Err(e) && e@.chain.len() > 0 && e@.chain.last() == "Parsing line '"@
                    + crate::utils::lossy_of(views_of(lines@)[k]) + "'"@),
    {
        let ghost pre_devs = self.devices_monitor@;
        match self.devices_monitor.check_activity(lines, self.default_config) {
            Err(e) => {
                proof {
                    if spec_synced_is_monitored(pre_devs) {
                        let k = choose|k: int|
                            0 <= k < lines@.len() && spec_parse_line(
                                #[trigger] views_of(lines@)[k],
                            ) is Bad && (spec_refresh_upto(
                                spec_reset(pre_devs),
                                views_of(lines@),
                                k,
                                self.default_config,
                            ) matches Some(st) && self.devices_monitor@ == st.0);
                        assert(wf_ledger(spec_reset(pre_devs))) by {
                            assert forall|a: int, b: int|
                                0 <= a < b < spec_reset(pre_devs).len() implies spec_reset(
                                pre_devs,
                            )[a].name != spec_reset(pre_devs)[b].name by {
                                assert(spec_reset(pre_devs)[a].name == pre_devs[a].name);
                                assert(spec_reset(pre_devs)[b].name == pre_devs[b].name);
                            }
                        }
                        assert(spec_synced_is_monitored(spec_reset(pre_devs))) by {
                            assert forall|i: int|
                                0 <= i < pre_devs.len() && (#[trigger] spec_reset(
                                pre_devs,
                            )[i]).data.state is Synced implies spec_reset(
                                pre_devs,
                            )[i].data.config.idle_time > 0 by {
                                assert(spec_reset(pre_devs)[i].data == pre_devs[i].data);
                            }
                        }
                        lemma_refresh_keeps_synced_monitored(
                            spec_reset(pre_devs),
                            views_of(lines@),
                            k,
                            self.default_config,
                        );
                    }
                }
                return Err(e);
            },
            Ok(()) => {},
        }
        let ghost rf = self.devices_monitor@;
        let mut will_sleep = true;
        let mut effects: Vec<SideEffect> = Vec::new();
        let n = self.devices_monitor.len();
        let mut i: usize = 0;
        while i < n
            invariant
                0 <= i <= n,
                n == rf.len(),
                self.devices_monitor@.len() == rf.len(),
                wf_ledger(self.devices_monitor@),
                self.default_config == old(self).default_config,
                self.interval_ms == old(self).interval_ms,
                forall|j: int| i <= j < n ==> self.devices_monitor@[j] == rf[j],
                forall|j: int| 0 <= j < i ==> self.devices_monitor@[j] == spec_tick_all(rf, now)[j],
                effect_views(effects@) =~= spec_tick_effects(rf, now).take(i as int),
                will_sleep == forall|j: int|
                    0 <= j < i ==> !(#[trigger] spec_tick(rf[j].data, rf[j].current, now).1
                        is Synced),
            decreases n - i,
        {
            let name = copy_bytes(self.devices_monitor.get(i).name().as_slice());
            proof {
                assert(name@ =~= rf[i as int].name);
            }
            let (state, actions) = self.devices_monitor.tick_device(i, now);
            let ghost eff_snap = effects@;
            let se = SideEffect { name, actions };
            let ghost sev = se@;
            effects.push(se);
            let is_synced = match state {
                DeviceState::Synced => true,
                _ => false,
            };
            will_sleep = will_sleep && !is_synced;
            proof {
                assert(self.devices_monitor@[i as int] == spec_tick_all(rf, now)[i as int]);
                let ev = spec_tick_effects(rf, now);
                assert(ev.len() == rf.len());
                assert(effect_views(eff_snap).len() == eff_snap.len());
                assert(ev.take(i as int).len() == i);
                assert(effect_views(eff_snap) =~= ev.take(i as int));
                assert(eff_snap.len() == i);
                assert(effects@ =~= eff_snap.push(se));
                assert(effects@.len() == i + 1);
                assert(sev == (SideEffectView {
                    name: rf[i as int].name,
                    actions: spec_tick(rf[i as int].data, rf[i as int].current, now).2,
                }));
                assert forall|q: int| 0 <= q < i + 1 implies effect_views(effects@)[q] == ev.take(
                    i + 1,
                )[q] by {
                    if q < i {
                        assert(effect_views(effects@)[q] == effects@[q]@);
                        assert(effects@[q] == eff_snap[q]);
                        assert(effect_views(eff_snap)[q] == ev.take(i as int)[q]);
                    } else {
                        assert(effects@[q] == se);
                    }
                }
                assert(effect_views(effects@) =~= ev.take(i + 1));
            }
            i = i + 1;
        }
        proof {
            assert(self.devices_monitor@ =~= spec_tick_all(rf, now));
            assert(effect_views(effects@) =~= spec_tick_effects(rf, now));
            if spec_synced_is_monitored(pre_devs) {
                let init = spec_reset(pre_devs);
                assert(wf_ledger(init)) by {
                    assert forall|a: int, b: int|
                        0 <= a < b < init.len() implies init[a].name != init[b].name by {
                        assert(init[a].name == pre_devs[a].name);
                        assert(init[b].name == pre_devs[b].name);
                    }
                }
                assert(spec_synced_is_monitored(init)) by {
                    assert forall|i2: int|
                        0 <= i2 < init.len() && (#[trigger] init[i2]).data.state
                        is Synced implies init[i2].data.config.idle_time > 0 by {
                        assert(init[i2].data == pre_devs[i2].data);
                    }
                }
                lemma_refresh_keeps_synced_monitored(
                    init,
                    views_of(lines@),
                    lines@.len() as int,
                    self.default_config,
                );
                lemma_tick_all_keeps_synced_monitored(rf, now);
            }
        }
        Ok((will_sleep, effects))
    }
}

} // verus!
