use vstd::prelude::*;
use vstd::string::StringExecFns;
use crate::device::{DeviceConfig, DeviceData, DeviceState, TickActions};
use crate::errors::Error;
use crate::utils::{all_digits, digits_val, is_digit, lossy_of, lossy_string, parse_integer, word_modulus};

verus! {

/// The one separator byte of the kernel's counter lines.
pub open spec fn is_space(c: u8) -> bool {
    c == 32
}

/// The space-separated tokens of a line, in order, with empty tokens
/// dropped. Defined by peeling the last byte: a space closes the current
/// token; a non-space byte extends the last token when the byte before it
/// was also a non-space, and otherwise opens a new token.
pub open spec fn spec_tokens(s: Seq<u8>) -> Seq<Seq<u8>>
    decreases s.len(),
{
    if s.len() == 0 {
        Seq::empty()
    } else {
        let t = spec_tokens(s.drop_last());
        let c = s.last();
        if is_space(c) {
            t
        } else if s.len() >= 2 && !is_space(s[s.len() - 2]) {
            t.update(t.len() - 1, t.last().push(c))
        } else {
            t.push(seq![c])
        }
    }
}

/// The views of a sequence of owned byte vectors.
pub open spec fn views_of(v: Seq<Vec<u8>>) -> Seq<Seq<u8>> {
    Seq::new(v.len(), |i: int| v[i]@)
}

/// Split a line into its space-separated tokens, dropping empty tokens.
fn tokenize(line: &[u8]) -> (r: Vec<Vec<u8>>)
    ensures
        views_of(r@) == spec_tokens(line@),
{
    let n = line.len();
    let mut toks: Vec<Vec<u8>> = Vec::new();
    let mut i: usize = 0;
    while i < n
        invariant
            0 <= i <= n,
            n == line@.len(),
            views_of(toks@) == spec_tokens(line@.take(i as int)),
            (i > 0 && !is_space(line@[i as int - 1])) ==> toks@.len() > 0,
        decreases n - i,
    {
        let c = line[i];
        let ghost pre = line@.take(i as int);
        let ghost cur = line@.take(i as int + 1);
        proof {
            assert(cur.drop_last() =~= pre);
            assert(cur.last() == line@[i as int]);
        }
        if c != 32 {
            if i > 0 && line[i - 1] != 32 {
                let mut last = toks.pop().unwrap();
                last.push(c);
                toks.push(last);
                proof {
                    assert(cur.len() >= 2 && !is_space(cur[cur.len() - 2]));
                    assert(views_of(toks@) =~= spec_tokens(pre).update(
                        spec_tokens(pre).len() - 1,
                        spec_tokens(pre).last().push(c),
                    ));
                }
            } else {
                let mut t: Vec<u8> = Vec::new();
                t.push(c);
                toks.push(t);
                proof {
                    assert(t@ =~= seq![c]);
                    assert(views_of(toks@) =~= spec_tokens(pre).push(seq![c]));
                }
            }
        } else {
            proof {
                assert(views_of(toks@) =~= spec_tokens(cur));
            }
        }
        i = i + 1;
    }
    proof {
        assert(line@.take(n as int) =~= line@);
    }
    toks
}

/// How many decimal digit bytes end the sequence.
pub open spec fn trailing_digits(s: Seq<u8>) -> int
    decreases s.len(),
{
    if s.len() == 0 {
        0
    } else if !is_digit(s.last()) {
        0
    } else {
        1 + trailing_digits(s.drop_last())
    }
}

proof fn lemma_trailing_digits_bounds(s: Seq<u8>)
    ensures
        0 <= trailing_digits(s) <= s.len(),
    decreases s.len(),
{
    if s.len() > 0 && is_digit(s.last()) {
        lemma_trailing_digits_bounds(s.drop_last());
    }
}

/// The trailing digit count is the unique `k` such that the last `k` bytes
/// are digits and the byte before them, if any, is not.
proof fn lemma_trailing_digits_eq(s: Seq<u8>, k: int)
    requires
        0 <= k <= s.len(),
        forall|i: int| s.len() - k <= i < s.len() ==> is_digit(s[i]),
        k < s.len() ==> !is_digit(s[s.len() - k - 1]),
    ensures
        trailing_digits(s) == k,
    decreases s.len(),
{
    if k == 0 {
        if s.len() > 0 {
            assert(!is_digit(s.last()));
        }
    } else {
        assert(is_digit(s.last()));
        lemma_trailing_digits_eq(s.drop_last(), k - 1);
    }
}

/// Count the decimal digit bytes that end the slice.
fn count_trailing_digits(s: &[u8]) -> (r: usize)
    ensures
        r == trailing_digits(s@),
{
    let n = s.len();
    let mut k: usize = 0;
    while k < n && s[n - 1 - k] >= 48 && s[n - 1 - k] <= 57
        invariant
            0 <= k <= n,
            n == s@.len(),
            forall|i: int| n - k <= i < n ==> is_digit(s@[i]),
        decreases n - k,
    {
        k = k + 1;
    }
    proof {
        lemma_trailing_digits_eq(s@, k as int);
    }
    k
}

/// What one snapshot line means: a malformed line, a line to skip, or an
/// accepted partition entry carrying the base device identifier and the
/// wrapping sum of its three sector counters.
pub enum LineOutcome {
    /// A token is missing, or a field that must be numeric is not.
    Bad,
    /// The device class is not recognized, or the identifier has no trailing
    /// digits (a whole-disk aggregate entry, not a partition).
    Skip,
    /// A partition entry of a recognized device.
    Entry { name: Seq<u8>, sectors: usize },
}

/// Whether a major device number (reduced to the machine word) belongs to
/// the SCSI device class.
pub open spec fn spec_scsi_major(major: int) -> bool {
    major == 8 || (65 <= major <= 71)
}

/// The wrapping sum of the three sector counters of an accepted line: the
/// sectors read, written and discarded, each reduced to the machine word.
pub open spec fn spec_line_sectors(toks: Seq<Seq<u8>>) -> usize {
    (((digits_val(toks[5]) % word_modulus()) as usize).wrapping_add(
        (digits_val(toks[9]) % word_modulus()) as usize,
    )).wrapping_add((digits_val(toks[16]) % word_modulus()) as usize)
}

/// The meaning of one snapshot line, following the kernel's field layout:
/// major, minor, identifier, then fourteen counter fields of which the
/// sixth, tenth and seventeenth token overall are the sector counts.
pub open spec fn spec_parse_line(line: Seq<u8>) -> LineOutcome {
    let toks = spec_tokens(line);
    if toks.len() < 1 || !all_digits(toks[0]) {
        LineOutcome::Bad
    } else if !spec_scsi_major(digits_val(toks[0]) % word_modulus()) {
        LineOutcome::Skip
    } else if toks.len() < 3 {
        LineOutcome::Bad
    } else if trailing_digits(toks[2]) == 0 {
        LineOutcome::Skip
    } else if toks.len() < 6 || !all_digits(toks[5]) {
        LineOutcome::Bad
    } else if toks.len() < 10 || !all_digits(toks[9]) {
        LineOutcome::Bad
    } else if toks.len() < 17 || !all_digits(toks[16]) {
        LineOutcome::Bad
    } else {
        LineOutcome::Entry {
            name: toks[2].take(toks[2].len() - trailing_digits(toks[2])),
            sectors: spec_line_sectors(toks),
        }
    }
}

/// Parse one line of the kernel's per-device counters. Lines of devices
/// outside the recognized class, and whole-disk aggregate lines (identifier
/// without trailing digits), yield `None`; an accepted partition line yields
/// the base identifier (trailing digits stripped) and the wrapping sum of
/// its sectors read, written and discarded.
pub fn parse_line(line: &[u8]) -> (r: Result<Option<(Vec<u8>, usize)>, Error>)
    ensures
        r is Err <==> spec_parse_line(line@) is Bad,
        (r matches Ok(o) && o is None) <==> spec_parse_line(line@) is Skip,
        spec_parse_line(line@) matches LineOutcome::Entry { name, sectors } ==> (r matches Ok(
            Some(p),
        ) && p.0@ == name && p.1 == sectors),
{
    let toks = tokenize(line);
    let ghost stoks = spec_tokens(line@);
    proof {
        assert(stoks.len() == toks@.len());
        assert(forall|j: int| 0 <= j < toks@.len() ==> views_of(toks@)[j] == stoks[j]);
    }
    if toks.len() < 1 {
        return Err(expected_token(line));
    }
    let major = match parse_integer(toks[0].as_slice()) {
        Ok(v) => v,
        Err(e) => {
            return Err(e);
        },
    };
    if !crate::sys::is_scsi(major) {
        return Ok(None);
    }
    if toks.len() < 3 {
        return Err(expected_token(line));
    }
    let name_tok = &toks[2];
    let nd = count_trailing_digits(name_tok.as_slice());
    if nd == 0 {
        return Ok(None);
    }
    if toks.len() < 6 {
        return Err(expected_token(line));
    }
    let mut sectors = match parse_integer(toks[5].as_slice()) {
        Ok(v) => v,
        Err(e) => {
            return Err(e);
        },
    };
    if toks.len() < 10 {
        return Err(expected_token(line));
    }
    sectors = match parse_integer(toks[9].as_slice()) {
        Ok(v) => sectors.wrapping_add(v),
        Err(e) => {
            return Err(e);
        },
    };
    if toks.len() < 17 {
        return Err(expected_token(line));
    }
    sectors = match parse_integer(toks[16].as_slice()) {
        Ok(v) => sectors.wrapping_add(v),
        Err(e) => {
            return Err(e);
        },
    };
    proof {
        lemma_trailing_digits_bounds(name_tok@);
    }
    let keep = name_tok.len() - nd;
    let mut name: Vec<u8> = Vec::new();
    proof {
        assert(name@ =~= name_tok@.take(0));
    }
    let mut j: usize = 0;
    while j < keep
        invariant
            0 <= j <= keep,
            keep <= name_tok@.len(),
            name@ == name_tok@.take(j as int),
        decreases keep - j,
    {
        name.push(name_tok[j]);
        proof {
            assert(name@ =~= name_tok@.take(j + 1));
        }
        j = j + 1;
    }
    Ok(Some((name, sectors)))
}

/// Ghost image of a tracked device: its key, its per-tick accumulator and
/// its retained record.
pub struct DeviceView {
    pub name: Seq<u8>,
    pub current: usize,
    pub data: DeviceData,
}

/// One tracked device: its key (canonical device name, byte-exact), the
/// combined sector count accumulated from the current snapshot, and the
/// retained per-device record.
pub struct Device {
    name: Vec<u8>,
    current_sectors: usize,
    pub data: DeviceData,
}

impl View for Device {
    type V = DeviceView;

    closed spec fn view(&self) -> DeviceView {
        DeviceView { name: self.name@, current: self.current_sectors, data: self.data }
    }
}

impl Device {
    /// The device's key.
    pub fn name(&self) -> (r: &Vec<u8>)
        ensures
            r@ == self@.name,
    {
        &self.name
    }

    /// Run one tick of the state machine on this device: diff the snapshot
    /// accumulator against the retained record and step the machine.
    pub fn tick(&mut self, now: u64) -> (r: (DeviceState, TickActions))
        ensures
            final(self)@.name == old(self)@.name,
            final(self)@.current == old(self)@.current,
            final(self)@.data == crate::device::spec_tick(
                old(self)@.data,
                old(self)@.current,
                now,
            ).0,
            r.0 == crate::device::spec_tick(old(self)@.data, old(self)@.current, now).1,
            r.1 == crate::device::spec_tick(old(self)@.data, old(self)@.current, now).2,
    {
        self.data.tick(self.current_sectors, now)
    }
}

/// The activity ledger: the ordered set of tracked devices, diffed against
/// each fresh snapshot of the kernel's per-device counters.
pub struct IOMonitor {
    state: Vec<Device>,
}

impl View for IOMonitor {
    type V = Seq<DeviceView>;

    closed spec fn view(&self) -> Seq<DeviceView> {
        Seq::new(self.state@.len(), |i: int| self.state@[i]@)
    }
}

/// Device keys are unique within the ledger.
pub open spec fn wf_ledger(devs: Seq<DeviceView>) -> bool {
    forall|i: int, j: int| 0 <= i < j < devs.len() ==> devs[i].name != devs[j].name
}

/// Linear search for a device key, starting at a hint index and wrapping
/// around: amortized cheap when the snapshot's order is stable.
fn get_entry_idx(slice: &Vec<Device>, name: &[u8], hint: usize) -> (r: Option<usize>)
    requires
        hint <= slice@.len(),
    ensures
        r matches Some(i) ==> i < slice@.len() && slice@[i as int]@.name == name@,
        r is None ==> forall|i: int| 0 <= i < slice@.len() ==> slice@[i]@.name != name@,
{
    let n = slice.len();
    let mut i: usize = hint;
    while i < n
        invariant
            hint <= i <= n,
            n == slice@.len(),
            forall|j: int| hint <= j < i ==> slice@[j]@.name != name@,
        decreases n - i,
    {
        if bytes_eq(slice[i].name.as_slice(), name) {
            return Some(i);
        }
        i = i + 1;
    }
    let mut i: usize = 0;
    while i < hint
        invariant
            0 <= i <= hint,
            hint <= n,
            n == slice@.len(),
            forall|j: int| hint <= j < n ==> slice@[j]@.name != name@,
            forall|j: int| 0 <= j < i ==> slice@[j]@.name != name@,
        decreases hint - i,
    {
        if bytes_eq(slice[i].name.as_slice(), name) {
            return Some(i);
        }
        i = i + 1;
    }
    None
}

/// Byte-exact equality of two slices.
fn bytes_eq(a: &[u8], b: &[u8]) -> (r: bool)
    ensures
        r == (a@ == b@),
{
    if a.len() != b.len() {
        proof {
            assert(a@.len() != b@.len());
        }
        return false;
    }
    let n = a.len();
    let mut i: usize = 0;
    while i < n
        invariant
            0 <= i <= n,
            n == a@.len(),
            n == b@.len(),
            forall|j: int| 0 <= j < i ==> a@[j] == b@[j],
        decreases n - i,
    {
        if a[i] != b[i] {
            return false;
        }
        i = i + 1;
    }
    proof {
        assert(a@ =~= b@);
    }
    true
}

impl IOMonitor {
    /// An empty ledger. Devices named on the command line are pushed at
    /// startup; devices first seen in a snapshot are registered during
    /// refresh.
    pub fn new() -> (r: Self)
        ensures
            r@ == Seq::<DeviceView>::empty(),
            wf_ledger(r@),
    {
        let r = IOMonitor { state: Vec::new() };
        proof {
            assert(r@ =~= Seq::<DeviceView>::empty());
        }
        r
    }

    /// How many devices the ledger tracks.
    pub fn len(&self) -> (r: usize)
        ensures
            r == self@.len(),
    {
        self.state.len()
    }

    /// The device at an index, in ledger order.
    pub fn get(&self, i: usize) -> (r: &Device)
        requires
            i < self@.len(),
        ensures
            r@ == self@[i as int],
    {
        &self.state[i]
    }

    /// Whether some tracked device carries the key.
    pub fn contains_name(&self, name: &[u8]) -> (r: bool)
        ensures
            r == spec_has_name(self@, name@),
    {
        match get_entry_idx(&self.state, name, 0) {
            Some(i) => {
                proof {
                    assert(0 <= i < self@.len() && self@[i as int].name == name@);
                }
                true
            },
            None => false,
        }
    }

    /// Run one tick of the state machine on the device at an index.
    pub fn tick_device(&mut self, i: usize, now: u64) -> (r: (DeviceState, TickActions))
        requires
            i < old(self)@.len(),
        ensures
            final(self)@.len() == old(self)@.len(),
            forall|j: int| 0 <= j < old(self)@.len() && j != i ==> final(self)@[j] == old(self)@[j],
            final(self)@[i as int].name == old(self)@[i as int].name,
            final(self)@[i as int].current == old(self)@[i as int].current,
            final(self)@[i as int].data == crate::device::spec_tick(
                old(self)@[i as int].data,
                old(self)@[i as int].current,
                now,
            ).0,
            r.0 == crate::device::spec_tick(
                old(self)@[i as int].data,
                old(self)@[i as int].current,
                now,
            ).1,
            r.1 == crate::device::spec_tick(
                old(self)@[i as int].data,
                old(self)@[i as int].current,
                now,
            ).2,
            wf_ledger(old(self)@) ==> wf_ledger(final(self)@),
    {
        let ghost snap = self@;
        let r = self.state[i].tick(now);
        proof {
            assert forall|j: int| 0 <= j < snap.len() && j != i implies self@[j] == snap[j] by {
                assert(self@[j] == self.state@[j]@);
            }
            if wf_ledger(snap) {
                assert forall|a: int, b: int|
                    0 <= a < b < self@.len() implies self@[a].name != self@[b].name by {
                    assert(self@[a].name == snap[a].name);
                    assert(self@[b].name == snap[b].name);
                }
            }
        }
        r
    }

    /// Register a device under a key, or replace the retained record of the
    /// device already registered under it. Returns the device's index.
    pub fn push(&mut self, name: Vec<u8>, data: DeviceData) -> (r: usize)
        ensures
            r < final(self)@.len(),
            (exists|i: int| 0 <= i < old(self)@.len() && old(self)@[i].name == name@)
                ==> (exists|i: int|
                    0 <= i < old(self)@.len()
                    && old(self)@[i].name == name@
                    && r == i
                    && final(self)@ == old(self)@.update(i, DeviceView { name: name@, current: old(self)@[i].current, data })),
            (forall|i: int| 0 <= i < old(self)@.len() ==> old(self)@[i].name != name@)
                ==> (final(self)@ == old(self)@.push(DeviceView { name: name@, current: 0, data })
                    && r == old(self)@.len()),
            wf_ledger(old(self)@) ==> wf_ledger(final(self)@),
    {
        let idx = get_entry_idx(&self.state, name.as_slice(), 0);
        match idx {
            Some(i) => {
                self.state[i].data = data;
                proof {
                    assert(self@ =~= old(self)@.update(
                        i as int,
                        DeviceView { name: name@, current: old(self)@[i as int].current, data },
                    ));
                    if wf_ledger(old(self)@) {
                        assert forall|a: int, b: int| 0 <= a < b < self@.len() implies self@[a].name
                            != self@[b].name by {
                            assert(self@[a].name == old(self)@[a].name);
                            assert(self@[b].name == old(self)@[b].name);
                        }
                    }
                }
                i
            },
            None => {
                let r = self.state.len();
                self.state.push(Device { name, current_sectors: 0, data });
                proof {
                    assert(self@ =~= old(self)@.push(
                        DeviceView { name: name@, current: 0, data },
                    ));
                    if wf_ledger(old(self)@) {
                        assert forall|a: int, b: int| 0 <= a < b < self@.len() implies self@[a].name
                            != self@[b].name by {
                            if b == old(self)@.len() {
                                assert(self@[a].name == old(self)@[a].name);
                                assert(self@[b].name == name@);
                            } else {
                                assert(self@[a].name == old(self)@[a].name);
                                assert(self@[b].name == old(self)@[b].name);
                            }
                        }
                    }
                }
                r
            },
        }
    }
}

/// The ledger with every per-tick accumulator reset to zero.
pub open spec fn spec_reset(devs: Seq<DeviceView>) -> Seq<DeviceView> {
    Seq::new(devs.len(), |i: int| DeviceView { current: 0, ..devs[i] })
}

/// Whether some tracked device carries the key.
pub open spec fn spec_has_name(devs: Seq<DeviceView>, name: Seq<u8>) -> bool {
    exists|i: int| 0 <= i < devs.len() && devs[i].name == name
}

/// The index of the device carrying the key; unique in a well-formed ledger.
pub open spec fn spec_index_of(devs: Seq<DeviceView>, name: Seq<u8>) -> int {
    choose|i: int| 0 <= i < devs.len() && devs[i].name == name
}

/// One accepted snapshot entry applied to the ledger: the sector count is
/// wrapping-added into the accumulator of the matching device, whose index
/// becomes the new hint; an unseen key is registered with a fresh record
/// just after the hint (clamped to the length), which keeps hinted search
/// valid without a re-sort.
pub open spec fn spec_apply_entry(
    devs: Seq<DeviceView>,
    hint: int,
    name: Seq<u8>,
    sectors: usize,
    dflt: DeviceConfig,
) -> (Seq<DeviceView>, int) {
    if spec_has_name(devs, name) {
        let i = spec_index_of(devs, name);
        (
            devs.update(
                i,
                DeviceView { current: devs[i].current.wrapping_add(sectors), ..devs[i] },
            ),
            i,
        )
    } else {
        let pos = if hint + 1 <= devs.len() {
            hint + 1
        } else {
            devs.len() as int
        };
        (
            devs.insert(
                pos,
                DeviceView {
                    name,
                    current: sectors,
                    data: crate::device::spec_fresh_data(dflt),
                },
            ),
            pos,
        )
    }
}

/// The ledger and hint after the first `n` snapshot lines, or `None` when
/// one of them is malformed. Skipped lines leave both unchanged.
pub open spec fn spec_refresh_upto(
    init: Seq<DeviceView>,
    lines: Seq<Seq<u8>>,
    n: int,
    dflt: DeviceConfig,
) -> Option<(Seq<DeviceView>, int)>
    decreases n,
{
    if n <= 0 {
        Some((init, 0))
    } else {
        match spec_refresh_upto(init, lines, n - 1, dflt) {
            None => None,
            Some(st) => match spec_parse_line(lines[n - 1]) {
                LineOutcome::Bad => None,
                LineOutcome::Skip => Some(st),
                LineOutcome::Entry { name, sectors } => Some(
                    spec_apply_entry(st.0, st.1, name, sectors, dflt),
                ),
            },
        }
    }
}

/// The ledger after a full refresh over the snapshot's lines, starting from
/// reset accumulators and hint zero; `None` when some line is malformed.
pub open spec fn spec_refresh(
    init: Seq<DeviceView>,
    lines: Seq<Seq<u8>>,
    dflt: DeviceConfig,
) -> Option<Seq<DeviceView>> {
    match spec_refresh_upto(init, lines, lines.len() as int, dflt) {
        None => None,
        Some(st) => Some(st.0),
    }
}

/// Once a malformed line has aborted the fold, every longer prefix aborts
/// too.
proof fn lemma_refresh_none_sticks(
    init: Seq<DeviceView>,
    lines: Seq<Seq<u8>>,
    k: int,
    n: int,
    dflt: DeviceConfig,
)
    requires
        0 <= k <= n,
        spec_refresh_upto(init, lines, k, dflt) is None,
    ensures
        spec_refresh_upto(init, lines, n, dflt) is None,
    decreases n - k,
{
    if n > k {
        lemma_refresh_none_sticks(init, lines, k, n - 1, dflt);
    }
}

proof fn lemma_wf_insert(devs: Seq<DeviceView>, pos: int, d: DeviceView)
    requires
        wf_ledger(devs),
        0 <= pos <= devs.len(),
        forall|i: int| 0 <= i < devs.len() ==> devs[i].name != d.name,
    ensures
        wf_ledger(devs.insert(pos, d)),
{
    devs.insert_ensures(pos, d);
    let s = devs.insert(pos, d);
    assert forall|a: int, b: int| 0 <= a < b < s.len() implies s[a].name != s[b].name by {
        if a < pos {
            assert(s[a] == devs[a]);
        } else if a == pos {
            assert(s[a] == d);
        } else {
            assert(s[a] == devs[a - 1]);
        }
        if b < pos {
            assert(s[b] == devs[b]);
        } else if b == pos {
            assert(s[b] == d);
        } else {
            assert(s[b] == devs[b - 1]);
        }
    }
}

impl IOMonitor {
    /// One refresh cycle: reset every accumulator, then fold the snapshot's
    /// lines into the ledger — wrapping-add each accepted entry into the
    /// matching device, auto-registering unseen devices with the default
    /// configuration. A malformed line aborts the refresh with an error that
    /// names the line; entries before it stay applied.
    pub fn check_activity(&mut self, lines: &Vec<Vec<u8>>, default_config: DeviceConfig) -> (r:
        Result<(), Error>)
        requires
            wf_ledger(old(self)@),
        ensures
            wf_ledger(final(self)@),
            r is Ok <==> spec_refresh(spec_reset(old(self)@), views_of(lines@), default_config)
                is Some,
            r is Ok ==> Some(final(self)@) == spec_refresh(
                spec_reset(old(self)@),
                views_of(lines@),
                default_config,
            ),
            r is Err ==> exists|k: int|
                0 <= k < lines@.len()
                && spec_parse_line(#[trigger] views_of(lines@)[k]) is Bad
                && (spec_refresh_upto(spec_reset(old(self)@), views_of(lines@), k, default_config)
                    matches Some(st) && final(self)@ == st.0)
                && (r matches Err(e) && e@.chain.len() > 0 && e@.chain.last() == "Parsing line '"@
                    + lossy_of(views_of(lines@)[k]) + "'"@),
    {
        let ghost init = spec_reset(old(self)@);
        let ghost lviews = views_of(lines@);
        let n0 = self.state.len();
        let mut i: usize = 0;
        while i < n0
            invariant
                0 <= i <= n0,
                n0 == self.state@.len(),
                self@.len() == old(self)@.len(),
                forall|j: int| 0 <= j < i ==> self@[j] == spec_reset(old(self)@)[j],
                forall|j: int| i <= j < n0 ==> self@[j] == old(self)@[j],
            decreases n0 - i,
        {
            let ghost snap = self@;
            self.state[i].current_sectors = 0;
            proof {
                assert(self@[i as int] == (DeviceView { current: 0, ..old(self)@[i as int] }));
                assert forall|j: int| 0 <= j < n0 && j != i implies self@[j] == snap[j] by {
                    assert(self@[j] == self.state@[j]@);
                }
                assert forall|j: int| 0 <= j < i + 1 implies self@[j] == spec_reset(old(self)@)[j] by {
                    assert(spec_reset(old(self)@)[j] == (DeviceView {
                        current: 0,
                        ..old(self)@[j]
                    }));
                    if j != i {
                        assert(self@[j] == snap[j]);
                    }
                }
            }
            i = i + 1;
        }
        proof {
            assert(self@ =~= init);
            assert(wf_ledger(init)) by {
                assert forall|a: int, b: int|
                    0 <= a < b < init.len() implies init[a].name != init[b].name by {
                    assert(init[a].name == old(self)@[a].name);
                    assert(init[b].name == old(self)@[b].name);
                }
            }
        }
        let mut hint: usize = 0;
        let nl = lines.len();
        let mut li: usize = 0;
        while li < nl
            invariant
                0 <= li <= nl,
                nl == lines@.len(),
                lviews == views_of(lines@),
                init == spec_reset(old(self)@),
                spec_refresh_upto(init, lviews, li as int, default_config) == Some(
                    (self@, hint as int),
                ),
                hint <= self@.len(),
                wf_ledger(self@),
            decreases nl - li,
        {
            let ghost pre = self@;
            let ghost prehint = hint as int;
            proof {
                assert(lviews[li as int] == lines@[li as int]@);
            }
            match parse_line(lines[li].as_slice()) {
                Err(e) => {
                    let mut msg = String::new();
                    msg.append("Parsing line '");
                    msg.append(lossy_string(lines[li].as_slice()).as_str());
                    msg.append("'");
                    proof {
                        assert(msg@ == "Parsing line '"@ + lossy_of(lviews[li as int]) + "'"@);
                        assert(spec_parse_line(lviews[li as int]) is Bad);
                        assert(spec_refresh_upto(init, lviews, li + 1, default_config) is None);
                        lemma_refresh_none_sticks(
                            init,
                            lviews,
                            li + 1,
                            lviews.len() as int,
                            default_config,
                        );
                        assert(0 <= li < lines@.len() && spec_parse_line(
                            #[trigger] views_of(lines@)[li as int],
                        ) is Bad && (spec_refresh_upto(
                            spec_reset(old(self)@),
                            views_of(lines@),
                            li as int,
                            default_config,
                        ) matches Some(st) && self@ == st.0));
                    }
                    return Err(crate::errors::add_context(e, msg));
                },
                Ok(None) => {
                    proof {
                        assert(spec_refresh_upto(init, lviews, li + 1, default_config) == Some(
                            (self@, hint as int),
                        ));
                    }
                },
                Ok(Some(entry)) => {
                    let (name, sectors) = entry;
                    let ghost sname = name@;
                    match get_entry_idx(&self.state, name.as_slice(), hint) {
                        Some(idx) => {
                            hint = idx;
                            let cs = self.state[idx].current_sectors;
                            self.state[idx].current_sectors = cs.wrapping_add(sectors);
                            proof {
                                assert(spec_has_name(pre, sname)) by {
                                    assert(0 <= idx < pre.len() && pre[idx as int].name == sname);
                                }
                                let ci = spec_index_of(pre, sname);
                                assert(0 <= ci < pre.len() && pre[ci].name == sname);
                                assert(ci == idx) by {
                                    if ci != idx {
                                        assert(pre[ci].name == pre[idx as int].name);
                                    }
                                }
                                assert(self@ =~= pre.update(
                                    idx as int,
                                    DeviceView {
                                        current: pre[idx as int].current.wrapping_add(sectors),
                                        ..pre[idx as int]
                                    },
                                ));
                                assert(spec_apply_entry(pre, prehint, sname, sectors, default_config)
                                    == (self@, idx as int));
                                assert(wf_ledger(self@)) by {
                                    assert forall|a: int, b: int|
                                        0 <= a < b < self@.len() implies self@[a].name
                                        != self@[b].name by {
                                        assert(self@[a].name == pre[a].name);
                                        assert(self@[b].name == pre[b].name);
                                    }
                                }
                            }
                        },
                        None => {
                            let pos: usize = if hint >= self.state.len() {
                                self.state.len()
                            } else {
                                hint + 1
                            };
                            let fresh = Device {
                                name,
                                current_sectors: sectors,
                                data: DeviceData::from(default_config),
                            };
                            let ghost freshv = fresh@;
                            self.state.insert(pos, fresh);
                            hint = pos;
                            proof {
                                assert(!spec_has_name(pre, sname));
                                assert(self@ =~= pre.insert(pos as int, freshv));
                                assert(freshv == (DeviceView {
                                    name: sname,
                                    current: sectors,
                                    data: crate::device::spec_fresh_data(default_config),
                                }));
                                assert(spec_apply_entry(pre, prehint, sname, sectors, default_config)
                                    == (self@, pos as int));
                                lemma_wf_insert(pre, pos as int, freshv);
                            }
                        },
                    }
                    proof {
                        assert(spec_refresh_upto(init, lviews, li + 1, default_config) == Some(
                            (self@, hint as int),
                        ));
                    }
                },
            }
            li = li + 1;
        }
        proof {
            assert(lviews.len() == lines@.len());
            assert(spec_refresh(init, lviews, default_config) == Some(self@));
        }
        Ok(())
    }
}

/// A line whose major number is outside the recognized device class, or
/// whose identifier carries no trailing digits (a whole-disk aggregate
/// line), is skipped — even when all its counter fields are well-formed.
pub proof fn lemma_unrecognized_line_is_skipped(line: Seq<u8>)
    requires
        spec_tokens(line).len() >= 17,
        all_digits(spec_tokens(line)[0]),
        all_digits(spec_tokens(line)[5]),
        all_digits(spec_tokens(line)[9]),
        all_digits(spec_tokens(line)[16]),
        !spec_scsi_major(digits_val(spec_tokens(line)[0]) % word_modulus()) || trailing_digits(
            spec_tokens(line)[2],
        ) == 0,
    ensures
        spec_parse_line(line) is Skip,
{
}

/// A skipped line contributes no delta and creates no device record: the
/// fold over it leaves the ledger and the hint exactly as they were.
pub proof fn lemma_skipped_line_changes_nothing(
    init: Seq<DeviceView>,
    lines: Seq<Seq<u8>>,
    n: int,
    dflt: DeviceConfig,
)
    requires
        0 <= n < lines.len(),
        spec_parse_line(lines[n]) is Skip,
    ensures
        spec_refresh_upto(init, lines, n + 1, dflt) == spec_refresh_upto(init, lines, n, dflt),
{
}

/// The wrapping sum of the sector counts of those entries among the first
/// `n` lines that carry the key.
pub open spec fn spec_name_sum(lines: Seq<Seq<u8>>, n: int, name: Seq<u8>) -> usize
    decreases n,
{
    if n <= 0 {
        0
    } else {
        let rest = spec_name_sum(lines, n - 1, name);
        match spec_parse_line(lines[n - 1]) {
            LineOutcome::Entry { name: en, sectors } => if en == name {
                rest.wrapping_add(sectors)
            } else {
                rest
            },
            _ => rest,
        }
    }
}

proof fn lemma_no_entry_sum_zero(lines: Seq<Seq<u8>>, n: int, name: Seq<u8>)
    requires
        forall|k: int|
            0 <= k < n ==> (#[trigger] spec_parse_line(lines[k]) matches LineOutcome::Entry {
                name: en,
                sectors,
            } ==> en != name),
    ensures
        spec_name_sum(lines, n, name) == 0,
    decreases n,
{
    if n > 0 {
        lemma_no_entry_sum_zero(lines, n - 1, name);
    }
}

/// A fold that reached line `n` successfully also reached every earlier
/// line, and none of those lines was malformed.
pub proof fn lemma_refresh_some_prefix(
    init: Seq<DeviceView>,
    lines: Seq<Seq<u8>>,
    k: int,
    n: int,
    dflt: DeviceConfig,
)
    requires
        0 <= k <= n,
        spec_refresh_upto(init, lines, n, dflt) is Some,
    ensures
        spec_refresh_upto(init, lines, k, dflt) is Some,
        k < n ==> !(spec_parse_line(lines[k]) is Bad),
    decreases n - k,
{
    if k < n {
        if spec_refresh_upto(init, lines, k, dflt) is None {
            lemma_refresh_none_sticks(init, lines, k, n, dflt);
        }
        if k < n - 1 {
            lemma_refresh_some_prefix(init, lines, k, n - 1, dflt);
        } else {
            if spec_parse_line(lines[k]) is Bad {
                assert(spec_refresh_upto(init, lines, k + 1, dflt) is None);
            }
        }
    }
}

/// A successful fold keeps the ledger well-formed, keeps every key it
/// already had, holds a key for every entry it consumed, and each of its
/// records either keeps a record the starting ledger had (same key, same
/// retained data) or is a fresh record under the default configuration.
pub proof fn lemma_refresh_preserves_names(
    init: Seq<DeviceView>,
    lines: Seq<Seq<u8>>,
    n: int,
    dflt: DeviceConfig,
)
    requires
        wf_ledger(init),
        0 <= n,
        spec_refresh_upto(init, lines, n, dflt) is Some,
    ensures
        wf_ledger(spec_refresh_upto(init, lines, n, dflt)->Some_0.0),
        0 <= spec_refresh_upto(init, lines, n, dflt)->Some_0.1 <= spec_refresh_upto(
            init,
            lines,
            n,
            dflt,
        )->Some_0.0.len(),
        forall|nm: Seq<u8>|
            #[trigger] spec_has_name(init, nm) ==> spec_has_name(
                spec_refresh_upto(init, lines, n, dflt)->Some_0.0,
                nm,
            ),
        forall|k: int|
            0 <= k < n ==> (#[trigger] spec_parse_line(lines[k]) matches LineOutcome::Entry {
                name,
                sectors,
            } ==> spec_has_name(spec_refresh_upto(init, lines, n, dflt)->Some_0.0, name)),
        forall|i: int|
            0 <= i < spec_refresh_upto(init, lines, n, dflt)->Some_0.0.len()
                ==> ((exists|j: int|
                0 <= j < init.len() && (#[trigger] spec_refresh_upto(
                    init,
                    lines,
                    n,
                    dflt,
                )->Some_0.0[i]).name == init[j].name && spec_refresh_upto(
                    init,
                    lines,
                    n,
                    dflt,
                )->Some_0.0[i].data == init[j].data) || spec_refresh_upto(
                init,
                lines,
                n,
                dflt,
            )->Some_0.0[i].data == crate::device::spec_fresh_data(dflt)),
    decreases n,
{
    if n > 0 {
        lemma_refresh_some_prefix(init, lines, n - 1, n, dflt);
        lemma_refresh_preserves_names(init, lines, n - 1, dflt);
        let prev = spec_refresh_upto(init, lines, n - 1, dflt)->Some_0;
        let devs = prev.0;
        let cur = spec_refresh_upto(init, lines, n, dflt)->Some_0.0;
        match spec_parse_line(lines[n - 1]) {
            LineOutcome::Bad => {
                assert(false);
            },
            LineOutcome::Skip => {
                assert(cur == devs);
            },
            LineOutcome::Entry { name: en, sectors } => {
                if spec_has_name(devs, en) {
                    let ci = spec_index_of(devs, en);
                    assert(0 <= ci < devs.len() && devs[ci].name == en);
                    assert(cur.len() == devs.len());
                    assert(forall|i: int|
                        0 <= i < cur.len() ==> cur[i].name == devs[i].name && cur[i].data
                            == devs[i].data);
                    assert(wf_ledger(cur));
                    assert forall|nm: Seq<u8>| spec_has_name(devs, nm) implies spec_has_name(
                        cur,
                        nm,
                    ) by {
                        let w = choose|i: int| 0 <= i < devs.len() && devs[i].name == nm;
                        assert(cur[w].name == nm);
                    }
                } else {
                    let pos = if prev.1 + 1 <= devs.len() {
                        prev.1 + 1
                    } else {
                        devs.len() as int
                    };
                    let fresh = DeviceView {
                        name: en,
                        current: sectors,
                        data: crate::device::spec_fresh_data(dflt),
                    };
                    devs.insert_ensures(pos, fresh);
                    lemma_wf_insert(devs, pos, fresh);
                    assert(cur == devs.insert(pos, fresh));
                    assert(cur[pos] == fresh);
                    assert forall|nm: Seq<u8>| spec_has_name(devs, nm) implies spec_has_name(
                        cur,
                        nm,
                    ) by {
                        let w = choose|i: int| 0 <= i < devs.len() && devs[i].name == nm;
                        if w < pos {
                            assert(cur[w].name == nm);
                        } else {
                            assert(cur[w + 1].name == nm);
                        }
                    }
                    assert(spec_has_name(cur, en));
                    assert forall|i: int| 0 <= i < cur.len() implies ((exists|j: int|
                        0 <= j < devs.len() && cur[i].name == devs[j].name && cur[i].data
                            == devs[j].data) || cur[i].data == crate::device::spec_fresh_data(
                        dflt,
                    )) by {
                        if i < pos {
                            assert(cur[i] == devs[i]);
                        } else if i == pos {
                            assert(cur[i].data == crate::device::spec_fresh_data(dflt));
                        } else {
                            assert(cur[i] == devs[i - 1]);
                        }
                    }
                }
            },
        }
    }
}

proof fn lemma_wrapping_add_mod(a: usize, b: usize)
    ensures
        a.wrapping_add(b) as int == (a + b) % word_modulus(),
{
    let m = word_modulus();
    if a + b <= usize::MAX {
        vstd::arithmetic::div_mod::lemma_small_mod((a + b) as nat, m as nat);
    } else {
        vstd::arithmetic::div_mod::lemma_small_mod((a + b - m) as nat, m as nat);
        vstd::arithmetic::div_mod::lemma_mod_add_multiples_vanish(a + b - m, m);
    }
}

proof fn lemma_wrapping_add_assoc(a: usize, b: usize, c: usize)
    ensures
        a.wrapping_add(b).wrapping_add(c) == a.wrapping_add(b.wrapping_add(c)),
{
    let m = word_modulus();
    lemma_wrapping_add_mod(a, b);
    lemma_wrapping_add_mod(a.wrapping_add(b), c);
    lemma_wrapping_add_mod(b, c);
    lemma_wrapping_add_mod(a, b.wrapping_add(c));
    vstd::arithmetic::div_mod::lemma_add_mod_noop(a + b, c as int, m);
    vstd::arithmetic::div_mod::lemma_add_mod_noop(a as int, b + c, m);
    vstd::arithmetic::div_mod::lemma_small_mod(c as nat, m as nat);
    vstd::arithmetic::div_mod::lemma_small_mod(a as nat, m as nat);
}

/// After a successful fold from a ledger whose accumulators are all zero,
/// each device's accumulator is exactly the wrapping sum of the consumed
/// entries that carry its key — whatever hints were used, and wherever
/// newly seen devices were inserted.
pub proof fn lemma_refresh_counts_by_name(
    init: Seq<DeviceView>,
    lines: Seq<Seq<u8>>,
    n: int,
    dflt: DeviceConfig,
)
    requires
        wf_ledger(init),
        forall|i: int| 0 <= i < init.len() ==> init[i].current == 0,
        0 <= n,
        spec_refresh_upto(init, lines, n, dflt) is Some,
    ensures
        forall|i: int|
            0 <= i < spec_refresh_upto(init, lines, n, dflt)->Some_0.0.len()
                ==> (#[trigger] spec_refresh_upto(init, lines, n, dflt)->Some_0.0[i]).current
                == spec_name_sum(
                lines,
                n,
                spec_refresh_upto(init, lines, n, dflt)->Some_0.0[i].name,
            ),
    decreases n,
{
    if n > 0 {
        lemma_refresh_some_prefix(init, lines, n - 1, n, dflt);
        lemma_refresh_counts_by_name(init, lines, n - 1, dflt);
        lemma_refresh_preserves_names(init, lines, n - 1, dflt);
        let prev = spec_refresh_upto(init, lines, n - 1, dflt)->Some_0;
        let devs = prev.0;
        let cur = spec_refresh_upto(init, lines, n, dflt)->Some_0.0;
        match spec_parse_line(lines[n - 1]) {
            LineOutcome::Bad => {
                assert(false);
            },
            LineOutcome::Skip => {
                assert(cur == devs);
                assert forall|i: int| 0 <= i < cur.len() implies cur[i].current == spec_name_sum(
                    lines,
                    n,
                    cur[i].name,
                ) by {
                    assert(spec_name_sum(lines, n, cur[i].name) == spec_name_sum(
                        lines,
                        n - 1,
                        cur[i].name,
                    ));
                }
            },
            LineOutcome::Entry { name: en, sectors } => {
                if spec_has_name(devs, en) {
                    let ci = spec_index_of(devs, en);
                    assert(0 <= ci < devs.len() && devs[ci].name == en);
                    assert forall|i: int| 0 <= i < cur.len() implies cur[i].current
                        == spec_name_sum(lines, n, cur[i].name) by {
                        if i == ci {
                            assert(cur[i].current == devs[ci].current.wrapping_add(sectors));
                            assert(cur[i].name == en);
                        } else {
                            assert(cur[i] == devs[i]);
                            assert(devs[i].name != en);
                        }
                    }
                } else {
                    let pos = if prev.1 + 1 <= devs.len() {
                        prev.1 + 1
                    } else {
                        devs.len() as int
                    };
                    let fresh = DeviceView {
                        name: en,
                        current: sectors,
                        data: crate::device::spec_fresh_data(dflt),
                    };
                    devs.insert_ensures(pos, fresh);
                    assert(cur == devs.insert(pos, fresh));
                    assert forall|k: int|
                        0 <= k < n - 1 implies (#[trigger] spec_parse_line(
                        lines[k],
                    ) matches LineOutcome::Entry { name: kn, sectors: ks } ==> kn != en) by {
                        match spec_parse_line(lines[k]) {
                            LineOutcome::Entry { name: kn, sectors: ks } => {
                                assert(spec_has_name(devs, kn));
                            },
                            _ => {},
                        }
                    }
                    lemma_no_entry_sum_zero(lines, n - 1, en);
                    assert forall|i: int| 0 <= i < cur.len() implies cur[i].current
                        == spec_name_sum(lines, n, cur[i].name) by {
                        if i == pos {
                            assert(cur[i] == fresh);
                            assert(spec_name_sum(lines, n - 1, en) == 0);
                            assert(cur[i].current == (0u64 as usize).wrapping_add(sectors));
                        } else {
                            let j = if i < pos {
                                i
                            } else {
                                i - 1
                            };
                            assert(cur[i] == devs[j]);
                            assert(devs[j].name != en);
                        }
                    }
                }
            },
        }
    }
}

/// When no line is malformed and every entry's key is already tracked, the
/// fold succeeds without inserting anything: the ledger keeps its length,
/// order, keys and retained records, and each accumulator grows by the
/// wrapping sum of the entries that carry its key.
pub proof fn lemma_refresh_with_known_names(
    init: Seq<DeviceView>,
    lines: Seq<Seq<u8>>,
    n: int,
    dflt: DeviceConfig,
)
    requires
        wf_ledger(init),
        0 <= n,
        forall|k: int| 0 <= k < n ==> !(#[trigger] spec_parse_line(lines[k]) is Bad),
        forall|k: int|
            0 <= k < n ==> (#[trigger] spec_parse_line(lines[k]) matches LineOutcome::Entry {
                name,
                sectors,
            } ==> spec_has_name(init, name)),
    ensures
        spec_refresh_upto(init, lines, n, dflt) is Some,
        spec_refresh_upto(init, lines, n, dflt)->Some_0.0.len() == init.len(),
        forall|i: int|
            0 <= i < init.len() ==> (#[trigger] spec_refresh_upto(
                init,
                lines,
                n,
                dflt,
            )->Some_0.0[i]).name == init[i].name && spec_refresh_upto(
                init,
                lines,
                n,
                dflt,
            )->Some_0.0[i].data == init[i].data && spec_refresh_upto(
                init,
                lines,
                n,
                dflt,
            )->Some_0.0[i].current == init[i].current.wrapping_add(
                spec_name_sum(lines, n, init[i].name),
            ),
    decreases n,
{
    if n > 0 {
        lemma_refresh_with_known_names(init, lines, n - 1, dflt);
        let devs = spec_refresh_upto(init, lines, n - 1, dflt)->Some_0.0;
        let cur_opt = spec_refresh_upto(init, lines, n, dflt);
        match spec_parse_line(lines[n - 1]) {
            LineOutcome::Bad => {
                assert(false);
            },
            LineOutcome::Skip => {
                assert(cur_opt->Some_0.0 == devs);
                assert forall|i: int| 0 <= i < init.len() implies cur_opt->Some_0.0[i].current
                    == init[i].current.wrapping_add(spec_name_sum(lines, n, init[i].name)) by {
                    assert(spec_name_sum(lines, n, init[i].name) == spec_name_sum(
                        lines,
                        n - 1,
                        init[i].name,
                    ));
                }
            },
            LineOutcome::Entry { name: en, sectors } => {
                assert(spec_has_name(init, en));
                let w = choose|i: int| 0 <= i < init.len() && init[i].name == en;
                assert(devs[w].name == en);
                assert(spec_has_name(devs, en));
                let ci = spec_index_of(devs, en);
                assert(0 <= ci < devs.len() && devs[ci].name == en);
                assert(wf_ledger(devs)) by {
                    assert forall|a: int, b: int|
                        0 <= a < b < devs.len() implies devs[a].name != devs[b].name by {
                        assert(devs[a].name == init[a].name);
                        assert(devs[b].name == init[b].name);
                    }
                }
                assert(ci == w) by {
                    if ci != w {
                        assert(devs[ci].name == devs[w].name);
                    }
                }
                let cur = cur_opt->Some_0.0;
                assert(cur == devs.update(
                    ci,
                    DeviceView { current: devs[ci].current.wrapping_add(sectors), ..devs[ci] },
                ));
                assert forall|i: int| 0 <= i < init.len() implies cur[i].name == init[i].name
                    && cur[i].data == init[i].data && cur[i].current == init[i].current
                    .wrapping_add(spec_name_sum(lines, n, init[i].name)) by {
                    if i == ci {
                        assert(cur[i].current == devs[ci].current.wrapping_add(sectors));
                        lemma_wrapping_add_assoc(
                            init[i].current,
                            spec_name_sum(lines, n - 1, en),
                            sectors,
                        );
                        assert(spec_name_sum(lines, n, en) == spec_name_sum(
                            lines,
                            n - 1,
                            en,
                        ).wrapping_add(sectors));
                    } else {
                        assert(cur[i] == devs[i]);
                        assert(init[i].name != en) by {
                            if init[i].name == en {
                                assert(init[i].name == init[w].name);
                            }
                        }
                        assert(spec_name_sum(lines, n, init[i].name) == spec_name_sum(
                            lines,
                            n - 1,
                            init[i].name,
                        ));
                    }
                }
            },
        }
    }
}

/// The error for a line with too few tokens.
fn expected_token(line: &[u8]) -> (r: Error)
    ensures
        r@.source is None,
{
    let mut msg = String::new();
    msg.append("Expected token in line '");
    msg.append(lossy_string(line).as_str());
    msg.append("'");
    Error::from_msg(msg)
}

} // verus!
