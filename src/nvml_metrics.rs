//! One collection cycle: the readings of the devices and of the processes
//! on them, turned into a snapshot whose GPU memory is attributed to users.
use vstd::prelude::*;
use crate::decimal::{decimal, format_u32};
use crate::directory::{lookup, UserDirectory};

verus! {

/// The readings of one device for one cycle.
pub struct NvmlDevice {
    pub index: u32,
    pub minor_number: u32,
    pub name: String,
    pub uuid: String,
    pub temperature: u32,
    pub power_usage: u32,
    pub fan_speed: u32,
    pub memory_total: u64,
    pub memory_used: u64,
    pub utilization_memory: u32,
    pub utilization_gpu: u32,
}

/// The GPU memory that one user holds on one device.
pub struct NvmlUserUtilization {
    pub index: u32,
    pub uid: u32,
    pub user_name: String,
    pub used_gpu_memory: u64,
}

/// The snapshot of one successful cycle.
pub struct NvmlMetrics {
    pub version: String,
    pub devices: Vec<NvmlDevice>,
    pub users_utilization: Vec<NvmlUserUtilization>,
}

/// The GPU memory of one process on a device, with the uid that owns it;
/// after summing, the memory of all processes of that uid on the device.
#[derive(Clone, Copy, Debug, PartialEq, Eq)]
pub struct ProcessUsage {
    pub uid: u32,
    pub used_memory: u64,
}

/// A device together with the processes that use it.
pub struct DeviceReading {
    pub device: NvmlDevice,
    pub processes: Vec<ProcessUsage>,
}

/// Everything the telemetry source gave for one cycle.
pub struct TelemetryReading {
    pub version: String,
    pub devices: Vec<DeviceReading>,
}

/// The outcome of attributing a reading: either the directory must be
/// reloaded first, or the snapshot is ready.
pub enum Attribution {
    NeedsRefresh,
    Ready(NvmlMetrics),
}

/// The attribution state kept across cycles: the visibility policy and the
/// user directory.
pub struct NvmlMetricsCollector {
    pub show_all_users: bool,
    pub directory: UserDirectory,
}

pub open spec fn usage_view(p: ProcessUsage) -> (u32, u64) {
    (p.uid, p.used_memory)
}

pub open spec fn util_view(u: NvmlUserUtilization) -> (u32, Seq<char>, u64, u32) {
    (u.index, u.user_name@, u.used_gpu_memory, u.uid)
}

pub open spec fn utils_view(s: Seq<NvmlUserUtilization>) -> Seq<(u32, Seq<char>, u64, u32)> {
    s.map_values(|u: NvmlUserUtilization| util_view(u))
}

/// The memory that processes of `uid` hold in `s`.
pub open spec fn uid_total(s: Seq<ProcessUsage>, uid: u32) -> int
    decreases s.len(),
{
    if s.len() == 0 {
        0
    } else {
        uid_total(s.drop_last(), uid) + if s.last().uid == uid {
            s.last().used_memory as int
        } else {
            0
        }
    }
}

/// The uids of `s`, each once, in the order of their first process.
pub open spec fn first_uids(s: Seq<ProcessUsage>) -> Seq<u32>
    decreases s.len(),
{
    if s.len() == 0 {
        Seq::empty()
    } else {
        let rest = first_uids(s.drop_last());
        if rest.contains(s.last().uid) {
            rest
        } else {
            rest.push(s.last().uid)
        }
    }
}

/// `x`, or the largest `u64` where `x` exceeds it.
pub open spec fn capped(x: int) -> u64 {
    if x > u64::MAX {
        u64::MAX
    } else {
        x as u64
    }
}

/// The memory of each uid of `s` summed over its processes.
pub open spec fn usage_by_uid(s: Seq<ProcessUsage>) -> Seq<(u32, u64)> {
    first_uids(s).map_values(|u: u32| (u, capped(uid_total(s, u))))
}

proof fn lemma_absent_uid_total(s: Seq<ProcessUsage>, uid: u32)
    requires
        !first_uids(s).contains(uid),
    ensures
        uid_total(s, uid) == 0,
    decreases s.len(),
{
    if s.len() > 0 {
        let rest = first_uids(s.drop_last());
        if rest.contains(uid) {
            let k = choose|k: int| 0 <= k < rest.len() && rest[k] == uid;
            assert(first_uids(s)[k] == uid);
        }
        if s.last().uid == uid && !rest.contains(uid) {
            assert(first_uids(s)[rest.len() as int] == uid);
        }
        lemma_absent_uid_total(s.drop_last(), uid);
    }
}

proof fn lemma_uid_total_nonneg(s: Seq<ProcessUsage>, uid: u32)
    ensures
        uid_total(s, uid) >= 0,
    decreases s.len(),
{
    if s.len() > 0 {
        lemma_uid_total_nonneg(s.drop_last(), uid);
    }
}

fn position_of(v: &Vec<ProcessUsage>, uid: u32) -> (r: Option<usize>)
    ensures
        r matches Some(j) ==> j < v.len() && v@[j as int].uid == uid,
        r is None ==> forall|k: int| 0 <= k < v.len() ==> v@[k].uid != uid,
{
    let mut j: usize = 0;
    while j < v.len()
        invariant
            j <= v.len(),
            forall|k: int| 0 <= k < j ==> v@[k].uid != uid,
        decreases v.len() - j,
    {
        if v[j].uid == uid {
            return Some(j);
        }
        j = j + 1;
    }
    None
}

/// Sums the memory of the processes of each uid, keeping the uids in the
/// order of their first process. A sum past the largest `u64` stays there.
pub fn sum_usage_by_uid(processes: &Vec<ProcessUsage>) -> (r: Vec<ProcessUsage>)
    ensures
        r@.map_values(|p: ProcessUsage| usage_view(p)) == usage_by_uid(processes@),
{
    let mut r: Vec<ProcessUsage> = Vec::new();
    let mut i: usize = 0;
    while i < processes.len()
        invariant
            i <= processes.len(),
            r@.len() == first_uids(processes@.take(i as int)).len(),
            forall|k: int| 0 <= k < r@.len() ==> #[trigger] r@[k].uid == first_uids(processes@.take(i as int))[k]
                && r@[k].used_memory == capped(uid_total(processes@.take(i as int), r@[k].uid)),
            forall|k: int, l: int| 0 <= k < r@.len() && 0 <= l < r@.len() && k != l ==> r@[k].uid != r@[l].uid,
        decreases processes.len() - i,
    {
        let p = processes[i];
        let ghost before = processes@.take(i as int);
        let ghost after = processes@.take(i + 1);
        assert(after.drop_last() =~= before);
        assert(after.last() == p);
        match position_of(&r, p.uid) {
            Some(j) => {
                assert(first_uids(before)[j as int] == p.uid);
                assert(first_uids(before).contains(p.uid));
                assert(first_uids(after) == first_uids(before));
                let cur = r[j].used_memory;
                let ghost old_r = r@;
                assert(old_r[j as int].uid == first_uids(before)[j as int]);
                r.set(j, ProcessUsage { uid: p.uid, used_memory: cur.saturating_add(p.used_memory) });
                assert forall|k: int| 0 <= k < r@.len() implies #[trigger] r@[k].uid == first_uids(after)[k]
                    && r@[k].used_memory == capped(uid_total(after, r@[k].uid)) by {
                    assert(old_r[k].uid == first_uids(before)[k]);
                    if k != j {
                        assert(old_r[k].uid != p.uid);
                        assert(r@[k] == old_r[k]);
                    } else {
                        lemma_uid_total_nonneg(before, p.uid);
                        assert(uid_total(after, p.uid) == uid_total(before, p.uid) + p.used_memory);
                    }
                }
            },
            None => {
                proof {
                    if first_uids(before).contains(p.uid) {
                        let k = choose|k: int| 0 <= k < first_uids(before).len() && first_uids(before)[k] == p.uid;
                        assert(r@[k].uid == p.uid);
                    }
                    lemma_absent_uid_total(before, p.uid);
                }
                r.push(ProcessUsage { uid: p.uid, used_memory: p.used_memory });
                assert forall|k: int| 0 <= k < r@.len() implies #[trigger] r@[k].uid == first_uids(after)[k]
                    && r@[k].used_memory == capped(uid_total(after, r@[k].uid)) by {
                    if k < r@.len() - 1 {
                        assert(r@[k].uid != p.uid);
                    }
                }
            },
        }
        i = i + 1;
    }
    assert(processes@.take(processes.len() as int) =~= processes@);
    assert(r@.map_values(|p: ProcessUsage| usage_view(p)) =~= usage_by_uid(processes@));
    r
}

/// The name shown for `uid`: its known name; else, where all users are
/// shown, its blocked name or failing that its number; else none, and the
/// uid is left out.
pub open spec fn resolve(known: Seq<(u32, Seq<char>)>, blocked: Seq<(u32, Seq<char>)>, uid: u32, show_all: bool) -> Option<Seq<char>> {
    match lookup(known, uid) {
        Some(n) => Some(n),
        None => if show_all {
            match lookup(blocked, uid) {
                Some(n) => Some(n),
                None => Some(decimal(uid as nat)),
            }
        } else {
            None
        },
    }
}

/// The rows of one device: one per summed uid with nonzero memory and a name.
pub open spec fn user_rows(index: u32, sums: Seq<(u32, u64)>, known: Seq<(u32, Seq<char>)>, blocked: Seq<(u32, Seq<char>)>, show_all: bool) -> Seq<(u32, Seq<char>, u64, u32)>
    decreases sums.len(),
{
    if sums.len() == 0 {
        Seq::empty()
    } else {
        let rest = user_rows(index, sums.drop_last(), known, blocked, show_all);
        let (uid, used) = sums.last();
        if used > 0 {
            match resolve(known, blocked, uid, show_all) {
                Some(n) => rest.push((index, n, used, uid)),
                None => rest,
            }
        } else {
            rest
        }
    }
}

/// The rows of all devices, device by device.
pub open spec fn cycle_rows(devices: Seq<DeviceReading>, known: Seq<(u32, Seq<char>)>, blocked: Seq<(u32, Seq<char>)>, show_all: bool) -> Seq<(u32, Seq<char>, u64, u32)>
    decreases devices.len(),
{
    if devices.len() == 0 {
        Seq::empty()
    } else {
        cycle_rows(devices.drop_last(), known, blocked, show_all) + user_rows(
            devices.last().device.index,
            usage_by_uid(devices.last().processes@),
            known,
            blocked,
            show_all,
        )
    }
}

/// Whether a process with nonzero memory belongs to a uid that is in
/// neither partition.
pub open spec fn has_unresolved(devices: Seq<DeviceReading>, known: Seq<(u32, Seq<char>)>, blocked: Seq<(u32, Seq<char>)>) -> bool {
    exists|d: int, k: int|
        0 <= d < devices.len() && 0 <= k < devices[d].processes@.len()
            && (#[trigger] devices[d].processes@[k]).used_memory > 0
            && lookup(known, devices[d].processes@[k].uid) is None
            && lookup(blocked, devices[d].processes@[k].uid) is None
}

/// Whether a cycle must reload the directory before it attributes: only
/// once per cycle, only where unresolved users are hidden, and only for a
/// uid in neither partition.
pub open spec fn must_refresh(devices: Seq<DeviceReading>, dir: UserDirectory, show_all: bool, refreshed: bool) -> bool {
    !refreshed && !show_all && has_unresolved(devices, dir.known_view(), dir.blocked_view())
}

/// Resolves the name shown for `uid`, as `resolve` describes.
pub fn resolve_name(dir: &UserDirectory, uid: u32, show_all: bool) -> (r: Option<String>)
    ensures
        r matches Some(n) ==> resolve(dir.known_view(), dir.blocked_view(), uid, show_all) == Some(n@),
        r is None ==> resolve(dir.known_view(), dir.blocked_view(), uid, show_all) is None,
{
    match dir.known_name(uid) {
        Some(n) => Some(n),
        None => if show_all {
            match dir.blocked_name(uid) {
                Some(n) => Some(n),
                None => Some(format_u32(uid)),
            }
        } else {
            None
        },
    }
}

/// Appends the rows of one device to `out`.
pub fn push_user_rows(index: u32, sums: &Vec<ProcessUsage>, dir: &UserDirectory, show_all: bool, out: &mut Vec<NvmlUserUtilization>)
    ensures
        utils_view(final(out)@) == utils_view(old(out)@) + user_rows(
            index,
            sums@.map_values(|p: ProcessUsage| usage_view(p)),
            dir.known_view(),
            dir.blocked_view(),
            show_all,
        ),
{
    let ghost sv = sums@.map_values(|p: ProcessUsage| usage_view(p));
    let ghost start = utils_view(out@);
    let mut i: usize = 0;
    while i < sums.len()
        invariant
            i <= sums.len(),
            sv == sums@.map_values(|p: ProcessUsage| usage_view(p)),
            utils_view(out@) == start + user_rows(index, sv.take(i as int), dir.known_view(), dir.blocked_view(), show_all),
        decreases sums.len() - i,
    {
        let p = sums[i];
        assert(sv.take(i + 1).drop_last() =~= sv.take(i as int));
        assert(sv.take(i + 1).last() == (p.uid, p.used_memory));
        if p.used_memory > 0 {
            match resolve_name(dir, p.uid, show_all) {
                Some(n) => {
                    let ghost prev = out@;
                    let row = NvmlUserUtilization { index, uid: p.uid, user_name: n, used_gpu_memory: p.used_memory };
                    out.push(row);
                    assert(utils_view(out@) =~= utils_view(prev).push(util_view(row)));
                    assert(utils_view(out@) =~= start + user_rows(index, sv.take(i + 1), dir.known_view(), dir.blocked_view(), show_all));
                },
                None => {},
            }
        }
        i = i + 1;
    }
    assert(sv.take(sums.len() as int) =~= sv);
}

/// Attributes the memory of every device to users.
pub fn collect_users(devices: &Vec<DeviceReading>, dir: &UserDirectory, show_all: bool) -> (r: Vec<NvmlUserUtilization>)
    ensures
        utils_view(r@) == cycle_rows(devices@, dir.known_view(), dir.blocked_view(), show_all),
{
    let mut out: Vec<NvmlUserUtilization> = Vec::new();
    let mut i: usize = 0;
    assert(utils_view(out@) =~= Seq::<(u32, Seq<char>, u64, u32)>::empty());
    while i < devices.len()
        invariant
            i <= devices.len(),
            utils_view(out@) == cycle_rows(devices@.take(i as int), dir.known_view(), dir.blocked_view(), show_all),
        decreases devices.len() - i,
    {
        let d = &devices[i];
        assert(devices@.take(i + 1).drop_last() =~= devices@.take(i as int));
        let sums = sum_usage_by_uid(&d.processes);
        push_user_rows(d.device.index, &sums, dir, show_all, &mut out);
        i = i + 1;
    }
    assert(devices@.take(devices.len() as int) =~= devices@);
    out
}

/// Whether some device holds a process with nonzero memory whose uid is in
/// neither partition.
pub fn find_unresolved(devices: &Vec<DeviceReading>, dir: &UserDirectory) -> (r: bool)
    ensures
        r == has_unresolved(devices@, dir.known_view(), dir.blocked_view()),
{
    let mut d: usize = 0;
    while d < devices.len()
        invariant
            d <= devices.len(),
            forall|e: int, k: int|
                0 <= e < d && 0 <= k < devices@[e].processes@.len()
                    ==> !((#[trigger] devices@[e].processes@[k]).used_memory > 0
                    && lookup(dir.known_view(), devices@[e].processes@[k].uid) is None
                    && lookup(dir.blocked_view(), devices@[e].processes@[k].uid) is None),
        decreases devices.len() - d,
    {
        let procs = &devices[d].processes;
        let mut k: usize = 0;
        while k < procs.len()
            invariant
                d < devices.len(),
                procs == devices@[d as int].processes,
                k <= procs.len(),
                forall|e: int, j: int|
                    0 <= e < d && 0 <= j < devices@[e].processes@.len()
                        ==> !((#[trigger] devices@[e].processes@[j]).used_memory > 0
                        && lookup(dir.known_view(), devices@[e].processes@[j].uid) is None
                        && lookup(dir.blocked_view(), devices@[e].processes@[j].uid) is None),
                forall|j: int|
                    0 <= j < k ==> !((#[trigger] procs@[j]).used_memory > 0
                    && lookup(dir.known_view(), procs@[j].uid) is None
                    && lookup(dir.blocked_view(), procs@[j].uid) is None),
            decreases procs.len() - k,
        {
            let p = procs[k];
            if p.used_memory > 0 && dir.known_name(p.uid).is_none() && dir.blocked_name(p.uid).is_none() {
                assert(devices@[d as int].processes@[k as int] == p);
                return true;
            }
            k = k + 1;
        }
        d = d + 1;
    }
    false
}

impl NvmlDevice {
    /// A field-by-field copy.
    pub fn duplicate(&self) -> (r: NvmlDevice)
        ensures
            r == *self,
    {
        NvmlDevice {
            index: self.index,
            minor_number: self.minor_number,
            name: self.name.clone(),
            uuid: self.uuid.clone(),
            temperature: self.temperature,
            power_usage: self.power_usage,
            fan_speed: self.fan_speed,
            memory_total: self.memory_total,
            memory_used: self.memory_used,
            utilization_memory: self.utilization_memory,
            utilization_gpu: self.utilization_gpu,
        }
    }
}

/// The devices of a reading, in order.
pub open spec fn devices_of(devices: Seq<DeviceReading>) -> Seq<NvmlDevice> {
    devices.map_values(|d: DeviceReading| d.device)
}

impl NvmlMetricsCollector {
    /// A collector with the given policy and directory.
    pub fn new(show_all_users: bool, directory: UserDirectory) -> (r: NvmlMetricsCollector)
        ensures
            r.show_all_users == show_all_users,
            r.directory == directory,
    {
        NvmlMetricsCollector { show_all_users, directory }
    }

    /// Replaces the directory by a freshly loaded one.
    pub fn refresh(&mut self, directory: UserDirectory)
        ensures
            final(self).show_all_users == old(self).show_all_users,
            final(self).directory == directory,
    {
        self.directory = directory;
    }

    /// Attributes one reading. `refreshed` tells whether the directory was
    /// already reloaded in this cycle. The reload is asked for only where
    /// `must_refresh` holds; otherwise the snapshot holds the driver
    /// version, the devices in order, and the rows of `cycle_rows`.
    pub fn now(&self, reading: &TelemetryReading, refreshed: bool) -> (r: Attribution)
        ensures
            r is NeedsRefresh <==> must_refresh(reading.devices@, self.directory, self.show_all_users, refreshed),
            r matches Attribution::Ready(m) ==> {
                &&& m.version@ == reading.version@
                &&& m.devices@ == devices_of(reading.devices@)
                &&& utils_view(m.users_utilization@) == cycle_rows(
                    reading.devices@,
                    self.directory.known_view(),
                    self.directory.blocked_view(),
                    self.show_all_users,
                )
            },
    {
        if !refreshed && !self.show_all_users && find_unresolved(&reading.devices, &self.directory) {
            return Attribution::NeedsRefresh;
        }
        let mut devices: Vec<NvmlDevice> = Vec::new();
        let mut i: usize = 0;
        while i < reading.devices.len()
            invariant
                i <= reading.devices.len(),
                devices@ == devices_of(reading.devices@.take(i as int)),
            decreases reading.devices.len() - i,
        {
            devices.push(reading.devices[i].device.duplicate());
            assert(devices@ =~= devices_of(reading.devices@.take(i + 1)));
            i = i + 1;
        }
        assert(reading.devices@.take(reading.devices.len() as int) =~= reading.devices@);
        let users_utilization = collect_users(&reading.devices, &self.directory, self.show_all_users);
        let version = reading.version.clone();
        Attribution::Ready(NvmlMetrics { version, devices, users_utilization })
    }
}

/// A cycle reloads the directory at most once: after one reload, whatever
/// the new directory holds, attribution never asks for another.
pub proof fn lemma_refresh_at_most_once(devices: Seq<DeviceReading>, reloaded: UserDirectory, show_all: bool)
    ensures
        !must_refresh(devices, reloaded, show_all, true),
{
}

/// `row` is the row that `sum` gives on the device of index `index`: same
/// device, same nonzero memory, and the name `resolve` gives; where unresolved
/// users are hidden, that name is the uid's known name.
pub open spec fn row_from(row: (u32, Seq<char>, u64, u32), index: u32, sum: (u32, u64), known: Seq<(u32, Seq<char>)>, blocked: Seq<(u32, Seq<char>)>, show_all: bool) -> bool {
    &&& row.0 == index
    &&& row.2 == sum.1
    &&& row.3 == sum.0
    &&& row.2 > 0
    &&& resolve(known, blocked, sum.0, show_all) == Some(row.1)
    &&& !show_all ==> lookup(known, sum.0) == Some(row.1)
}

proof fn lemma_user_rows_shape(index: u32, sums: Seq<(u32, u64)>, known: Seq<(u32, Seq<char>)>, blocked: Seq<(u32, Seq<char>)>, show_all: bool)
    ensures
        forall|i: int| 0 <= i < user_rows(index, sums, known, blocked, show_all).len() ==> exists|k: int|
            0 <= k < sums.len() && row_from(#[trigger] user_rows(index, sums, known, blocked, show_all)[i], index, #[trigger] sums[k], known, blocked, show_all),
    decreases sums.len(),
{
    if sums.len() > 0 {
        lemma_user_rows_shape(index, sums.drop_last(), known, blocked, show_all);
        let rest = user_rows(index, sums.drop_last(), known, blocked, show_all);
        let rows = user_rows(index, sums, known, blocked, show_all);
        assert forall|i: int| 0 <= i < rows.len() implies exists|k: int|
            0 <= k < sums.len() && row_from(#[trigger] rows[i], index, #[trigger] sums[k], known, blocked, show_all) by {
            if i < rest.len() {
                assert(rows[i] == rest[i]);
                let k = choose|k: int| 0 <= k < sums.drop_last().len() && row_from(rest[i], index, #[trigger] sums.drop_last()[k], known, blocked, show_all);
                assert(sums.drop_last()[k] == sums[k]);
            } else {
                assert(sums[sums.len() - 1] == sums.last());
                assert(row_from(rows[i], index, sums[sums.len() - 1], known, blocked, show_all));
            }
        }
    }
}

proof fn lemma_user_rows_include(index: u32, sums: Seq<(u32, u64)>, known: Seq<(u32, Seq<char>)>, blocked: Seq<(u32, Seq<char>)>, show_all: bool, k: int)
    requires
        0 <= k < sums.len(),
        sums[k].1 > 0,
        resolve(known, blocked, sums[k].0, show_all) is Some,
    ensures
        user_rows(index, sums, known, blocked, show_all).contains(
            (index, resolve(known, blocked, sums[k].0, show_all).unwrap(), sums[k].1, sums[k].0),
        ),
    decreases sums.len(),
{
    let rows = user_rows(index, sums, known, blocked, show_all);
    let rest = user_rows(index, sums.drop_last(), known, blocked, show_all);
    if k < sums.len() - 1 {
        lemma_user_rows_include(index, sums.drop_last(), known, blocked, show_all, k);
        assert(sums.drop_last()[k] == sums[k]);
        let j = choose|j: int| 0 <= j < rest.len() && rest[j] == (index, resolve(known, blocked, sums[k].0, show_all).unwrap(), sums[k].1, sums[k].0);
        assert(rows[j] == rest[j]);
    } else {
        assert(rows[rows.len() - 1] == (index, resolve(known, blocked, sums[k].0, show_all).unwrap(), sums[k].1, sums[k].0));
    }
}

/// Every row of a cycle comes from a uid summed on that row's device, with
/// nonzero memory, and is named as `resolve` names that uid. Hence a
/// zero-memory pair never yields a row, and where unresolved users are
/// hidden, each row carries the known name of a uid of its device.
pub proof fn lemma_cycle_rows_shape(devices: Seq<DeviceReading>, known: Seq<(u32, Seq<char>)>, blocked: Seq<(u32, Seq<char>)>, show_all: bool)
    ensures
        forall|i: int| 0 <= i < cycle_rows(devices, known, blocked, show_all).len() ==> exists|d: int, k: int|
            0 <= d < devices.len() && 0 <= k < usage_by_uid(devices[d].processes@).len()
                && row_from(#[trigger] cycle_rows(devices, known, blocked, show_all)[i], devices[d].device.index, #[trigger] usage_by_uid(devices[d].processes@)[k], known, blocked, show_all),
    decreases devices.len(),
{
    if devices.len() > 0 {
        let init = devices.drop_last();
        lemma_cycle_rows_shape(init, known, blocked, show_all);
        let last = devices.last();
        let sums = usage_by_uid(last.processes@);
        lemma_user_rows_shape(last.device.index, sums, known, blocked, show_all);
        let a = cycle_rows(init, known, blocked, show_all);
        let b = user_rows(last.device.index, sums, known, blocked, show_all);
        let rows = cycle_rows(devices, known, blocked, show_all);
        assert(rows == a + b);
        assert forall|i: int| 0 <= i < rows.len() implies exists|d: int, k: int|
            0 <= d < devices.len() && 0 <= k < usage_by_uid(devices[d].processes@).len()
                && row_from(#[trigger] rows[i], devices[d].device.index, #[trigger] usage_by_uid(devices[d].processes@)[k], known, blocked, show_all) by {
            if i < a.len() {
                assert(rows[i] == a[i]);
                let (d, k) = choose|d: int, k: int|
                    0 <= d < init.len() && 0 <= k < usage_by_uid(init[d].processes@).len()
                        && row_from(a[i], init[d].device.index, #[trigger] usage_by_uid(init[d].processes@)[k], known, blocked, show_all);
                assert(init[d] == devices[d]);
                assert(row_from(rows[i], devices[d].device.index, usage_by_uid(devices[d].processes@)[k], known, blocked, show_all));
            } else {
                assert(rows[i] == b[i - a.len()]);
                let k = choose|k: int| 0 <= k < sums.len() && row_from(b[i - a.len()], last.device.index, #[trigger] sums[k], known, blocked, show_all);
                assert(devices[devices.len() - 1] == last);
                assert(row_from(rows[i], devices[devices.len() - 1].device.index, usage_by_uid(devices[devices.len() - 1].processes@)[k], known, blocked, show_all));
            }
        }
    }
}

/// Where all users are shown, a uid in neither partition with nonzero
/// summed memory on a device yields a row named by its number.
pub proof fn lemma_unknown_uid_shown_by_number(devices: Seq<DeviceReading>, known: Seq<(u32, Seq<char>)>, blocked: Seq<(u32, Seq<char>)>, d: int, k: int)
    requires
        0 <= d < devices.len(),
        0 <= k < usage_by_uid(devices[d].processes@).len(),
        usage_by_uid(devices[d].processes@)[k].1 > 0,
        lookup(known, usage_by_uid(devices[d].processes@)[k].0) is None,
        lookup(blocked, usage_by_uid(devices[d].processes@)[k].0) is None,
    ensures
        cycle_rows(devices, known, blocked, true).contains((
            devices[d].device.index,
            decimal(usage_by_uid(devices[d].processes@)[k].0 as nat),
            usage_by_uid(devices[d].processes@)[k].1,
            usage_by_uid(devices[d].processes@)[k].0,
        )),
    decreases devices.len(),
{
    let init = devices.drop_last();
    let a = cycle_rows(init, known, blocked, true);
    let last = devices.last();
    let b = user_rows(last.device.index, usage_by_uid(last.processes@), known, blocked, true);
    let target = (
        devices[d].device.index,
        decimal(usage_by_uid(devices[d].processes@)[k].0 as nat),
        usage_by_uid(devices[d].processes@)[k].1,
        usage_by_uid(devices[d].processes@)[k].0,
    );
    assert(cycle_rows(devices, known, blocked, true) == a + b);
    if d < devices.len() - 1 {
        assert(init[d] == devices[d]);
        lemma_unknown_uid_shown_by_number(init, known, blocked, d, k);
        let j = choose|j: int| 0 <= j < a.len() && a[j] == target;
        assert((a + b)[j] == target);
    } else {
        lemma_user_rows_include(last.device.index, usage_by_uid(last.processes@), known, blocked, true, k);
        let j = choose|j: int| 0 <= j < b.len() && b[j] == target;
        assert((a + b)[a.len() + j] == target);
    }
}

/// The processes of `ps` not owned by `u`, in order.
pub open spec fn without_uid(ps: Seq<ProcessUsage>, u: u32) -> Seq<ProcessUsage>
    decreases ps.len(),
{
    if ps.len() == 0 {
        ps
    } else if ps.last().uid == u {
        without_uid(ps.drop_last(), u)
    } else {
        without_uid(ps.drop_last(), u).push(ps.last())
    }
}

/// The entries of `s` other than `u`, in order.
pub open spec fn drop_uid(s: Seq<u32>, u: u32) -> Seq<u32>
    decreases s.len(),
{
    if s.len() == 0 {
        s
    } else if s.last() == u {
        drop_uid(s.drop_last(), u)
    } else {
        drop_uid(s.drop_last(), u).push(s.last())
    }
}

/// The sums of `s` for uids other than `u`, in order.
pub open spec fn drop_sum(s: Seq<(u32, u64)>, u: u32) -> Seq<(u32, u64)>
    decreases s.len(),
{
    if s.len() == 0 {
        s
    } else if s.last().0 == u {
        drop_sum(s.drop_last(), u)
    } else {
        drop_sum(s.drop_last(), u).push(s.last())
    }
}

proof fn lemma_total_without(ps: Seq<ProcessUsage>, u: u32, w: u32)
    requires
        w != u,
    ensures
        uid_total(without_uid(ps, u), w) == uid_total(ps, w),
    decreases ps.len(),
{
    if ps.len() > 0 {
        lemma_total_without(ps.drop_last(), u, w);
        if ps.last().uid != u {
            assert(without_uid(ps, u).drop_last() == without_uid(ps.drop_last(), u));
        }
    }
}

proof fn lemma_push_contains(t: Seq<u32>, y: u32, x: u32)
    ensures
        t.push(y).contains(x) <==> (t.contains(x) || x == y),
{
    let p = t.push(y);
    if t.contains(x) {
        let i = choose|i: int| 0 <= i < t.len() && t[i] == x;
        assert(p[i] == x);
    }
    if x == y {
        assert(p[t.len() as int] == x);
    }
    if p.contains(x) {
        let i = choose|i: int| 0 <= i < p.len() && p[i] == x;
        if i < t.len() {
            assert(t[i] == x);
        }
    }
}

proof fn lemma_drop_uid_contains(s: Seq<u32>, u: u32, x: u32)
    ensures
        drop_uid(s, u).contains(x) <==> (x != u && s.contains(x)),
    decreases s.len(),
{
    if s.len() > 0 {
        lemma_drop_uid_contains(s.drop_last(), u, x);
        assert(s =~= s.drop_last().push(s.last()));
        lemma_push_contains(s.drop_last(), s.last(), x);
        if s.last() != u {
            lemma_push_contains(drop_uid(s.drop_last(), u), s.last(), x);
        }
    }
}

proof fn lemma_first_uids_without(ps: Seq<ProcessUsage>, u: u32)
    ensures
        first_uids(without_uid(ps, u)) == drop_uid(first_uids(ps), u),
    decreases ps.len(),
{
    if ps.len() > 0 {
        lemma_first_uids_without(ps.drop_last(), u);
        let rest = first_uids(ps.drop_last());
        let last = ps.last();
        if last.uid == u {
            if !rest.contains(u) {
                assert(rest.push(u).drop_last() == rest);
            }
        } else {
            let w = without_uid(ps, u);
            assert(w.drop_last() == without_uid(ps.drop_last(), u));
            assert(w.last() == last);
            lemma_drop_uid_contains(rest, u, last.uid);
            if !rest.contains(last.uid) {
                assert(rest.push(last.uid).drop_last() == rest);
            }
        }
    }
}

proof fn lemma_drop_sum_map(f: Seq<u32>, u: u32, g: spec_fn(u32) -> u64)
    ensures
        drop_sum(f.map_values(|w: u32| (w, g(w))), u) == drop_uid(f, u).map_values(|w: u32| (w, g(w))),
    decreases f.len(),
{
    let m = f.map_values(|w: u32| (w, g(w)));
    if f.len() > 0 {
        lemma_drop_sum_map(f.drop_last(), u, g);
        assert(m.drop_last() =~= f.drop_last().map_values(|w: u32| (w, g(w))));
        if f.last() != u {
            assert(drop_uid(f, u).map_values(|w: u32| (w, g(w))) =~= drop_uid(f.drop_last(), u).map_values(
                |w: u32| (w, g(w)),
            ).push((f.last(), g(f.last()))));
        }
    } else {
        assert(drop_uid(f, u).map_values(|w: u32| (w, g(w))) =~= m);
    }
}

proof fn lemma_usage_without(ps: Seq<ProcessUsage>, u: u32)
    ensures
        usage_by_uid(without_uid(ps, u)) == drop_sum(usage_by_uid(ps), u),
{
    lemma_first_uids_without(ps, u);
    let f = first_uids(ps);
    let d = drop_uid(f, u);
    let g = |w: u32| capped(uid_total(ps, w));
    lemma_drop_sum_map(f, u, g);
    assert(usage_by_uid(ps) =~= f.map_values(|w: u32| (w, g(w))));
    let wp = without_uid(ps, u);
    assert forall|i: int| 0 <= i < d.len() implies #[trigger] uid_total(wp, d[i]) == uid_total(ps, d[i]) by {
        assert(d.contains(d[i]));
        lemma_drop_uid_contains(f, u, d[i]);
        lemma_total_without(ps, u, d[i]);
    }
    assert(usage_by_uid(wp) =~= d.map_values(|w: u32| (w, g(w))));
}

proof fn lemma_user_rows_drop(index: u32, sums: Seq<(u32, u64)>, known: Seq<(u32, Seq<char>)>, blocked: Seq<(u32, Seq<char>)>, show_all: bool, u: u32)
    requires
        resolve(known, blocked, u, show_all) is None,
    ensures
        user_rows(index, drop_sum(sums, u), known, blocked, show_all) == user_rows(index, sums, known, blocked, show_all),
    decreases sums.len(),
{
    if sums.len() > 0 {
        lemma_user_rows_drop(index, sums.drop_last(), known, blocked, show_all, u);
        if sums.last().0 != u {
            let d = drop_sum(sums, u);
            assert(d.drop_last() == drop_sum(sums.drop_last(), u));
            assert(d.last() == sums.last());
        }
    }
}

/// The rows of all devices computed as if `u` owned no process.
pub open spec fn cycle_rows_without(devices: Seq<DeviceReading>, known: Seq<(u32, Seq<char>)>, blocked: Seq<(u32, Seq<char>)>, show_all: bool, u: u32) -> Seq<(u32, Seq<char>, u64, u32)>
    decreases devices.len(),
{
    if devices.len() == 0 {
        Seq::empty()
    } else {
        cycle_rows_without(devices.drop_last(), known, blocked, show_all, u) + user_rows(
            devices.last().device.index,
            usage_by_uid(without_uid(devices.last().processes@, u)),
            known,
            blocked,
            show_all,
        )
    }
}

/// Where unresolved users are hidden, a uid in neither partition changes
/// nothing: the rows of a cycle are those it would give if that uid owned
/// no process at all.
pub proof fn lemma_hidden_uid_changes_nothing(devices: Seq<DeviceReading>, known: Seq<(u32, Seq<char>)>, blocked: Seq<(u32, Seq<char>)>, u: u32)
    requires
        lookup(known, u) is None,
        lookup(blocked, u) is None,
    ensures
        cycle_rows(devices, known, blocked, false) == cycle_rows_without(devices, known, blocked, false, u),
    decreases devices.len(),
{
    if devices.len() > 0 {
        lemma_hidden_uid_changes_nothing(devices.drop_last(), known, blocked, u);
        let last = devices.last();
        lemma_usage_without(last.processes@, u);
        lemma_user_rows_drop(last.device.index, usage_by_uid(last.processes@), known, blocked, false, u);
    }
}

proof fn lemma_first_uids_distinct(ps: Seq<ProcessUsage>)
    ensures
        first_uids(ps).no_duplicates(),
    decreases ps.len(),
{
    if ps.len() > 0 {
        lemma_first_uids_distinct(ps.drop_last());
        let rest = first_uids(ps.drop_last());
        if !rest.contains(ps.last().uid) {
            let t = rest.push(ps.last().uid);
            assert forall|i: int, j: int| 0 <= i < t.len() && 0 <= j < t.len() && i != j implies t[i] != t[j] by {
                if i < rest.len() && j < rest.len() {
                    assert(t[i] == rest[i] && t[j] == rest[j]);
                } else if i < rest.len() {
                    assert(t[i] == rest[i]);
                } else {
                    assert(t[j] == rest[j]);
                }
            }
        }
    }
}

proof fn lemma_user_rows_distinct(index: u32, sums: Seq<(u32, u64)>, known: Seq<(u32, Seq<char>)>, blocked: Seq<(u32, Seq<char>)>, show_all: bool)
    requires
        forall|k: int, l: int| 0 <= k < sums.len() && 0 <= l < sums.len() && k != l ==> sums[k].0 != sums[l].0,
    ensures
        forall|i: int, j: int|
            0 <= i < user_rows(index, sums, known, blocked, show_all).len() && 0 <= j < user_rows(
                index,
                sums,
                known,
                blocked,
                show_all,
            ).len() && i != j ==> user_rows(index, sums, known, blocked, show_all)[i].3 != user_rows(
                index,
                sums,
                known,
                blocked,
                show_all,
            )[j].3,
    decreases sums.len(),
{
    if sums.len() > 0 {
        let init = sums.drop_last();
        lemma_user_rows_distinct(index, init, known, blocked, show_all);
        lemma_user_rows_shape(index, init, known, blocked, show_all);
        let rest = user_rows(index, init, known, blocked, show_all);
        let rows = user_rows(index, sums, known, blocked, show_all);
        if rows.len() > rest.len() {
            assert forall|i: int| 0 <= i < rest.len() implies rest[i].3 != sums.last().0 by {
                let k = choose|k: int| 0 <= k < init.len() && row_from(rest[i], index, #[trigger] init[k], known, blocked, show_all);
                assert(init[k] == sums[k]);
            }
            assert forall|i: int, j: int| 0 <= i < rows.len() && 0 <= j < rows.len() && i != j implies rows[i].3 != rows[j].3 by {
                if i < rest.len() && j < rest.len() {
                    assert(rows[i] == rest[i] && rows[j] == rest[j]);
                } else if i < rest.len() {
                    assert(rows[i] == rest[i]);
                } else {
                    assert(rows[j] == rest[j]);
                }
            }
        }
    }
}

/// Where the devices' indices are distinct, a cycle has at most one row
/// per device and uid: with all users shown, a uid in neither partition
/// has exactly the one row named by its number on each device where it
/// holds memory.
pub proof fn lemma_one_row_per_device_and_uid(devices: Seq<DeviceReading>, known: Seq<(u32, Seq<char>)>, blocked: Seq<(u32, Seq<char>)>, show_all: bool)
    requires
        forall|d: int, e: int| 0 <= d < devices.len() && 0 <= e < devices.len() && d != e
            ==> devices[d].device.index != devices[e].device.index,
    ensures
        forall|i: int, j: int|
            0 <= i < cycle_rows(devices, known, blocked, show_all).len() && 0 <= j < cycle_rows(
                devices,
                known,
                blocked,
                show_all,
            ).len() && i != j && cycle_rows(devices, known, blocked, show_all)[i].0 == cycle_rows(
                devices,
                known,
                blocked,
                show_all,
            )[j].0 ==> cycle_rows(devices, known, blocked, show_all)[i].3 != cycle_rows(
                devices,
                known,
                blocked,
                show_all,
            )[j].3,
    decreases devices.len(),
{
    if devices.len() > 0 {
        let init = devices.drop_last();
        let last = devices.last();
        let sums = usage_by_uid(last.processes@);
        lemma_one_row_per_device_and_uid(init, known, blocked, show_all);
        lemma_cycle_rows_shape(init, known, blocked, show_all);
        lemma_user_rows_shape(last.device.index, sums, known, blocked, show_all);
        lemma_first_uids_distinct(last.processes@);
        lemma_user_rows_distinct(last.device.index, sums, known, blocked, show_all);
        let a = cycle_rows(init, known, blocked, show_all);
        let b = user_rows(last.device.index, sums, known, blocked, show_all);
        let rows = cycle_rows(devices, known, blocked, show_all);
        assert(rows == a + b);
        assert forall|i: int| 0 <= i < a.len() implies a[i].0 != last.device.index by {
            let (d, k) = choose|d: int, k: int|
                0 <= d < init.len() && 0 <= k < usage_by_uid(init[d].processes@).len()
                    && row_from(a[i], init[d].device.index, #[trigger] usage_by_uid(init[d].processes@)[k], known, blocked, show_all);
            assert(init[d] == devices[d]);
            assert(devices[devices.len() - 1] == last);
        }
        assert forall|i: int| 0 <= i < b.len() implies b[i].0 == last.device.index by {
            let k = choose|k: int| 0 <= k < sums.len() && row_from(b[i], last.device.index, #[trigger] sums[k], known, blocked, show_all);
        }
        assert forall|i: int, j: int|
            0 <= i < rows.len() && 0 <= j < rows.len() && i != j && rows[i].0 == rows[j].0 implies rows[i].3 != rows[j].3 by {
            if i < a.len() && j < a.len() {
                assert(rows[i] == a[i] && rows[j] == a[j]);
            } else if i >= a.len() && j >= a.len() {
                assert(rows[i] == b[i - a.len()] && rows[j] == b[j - a.len()]);
            } else if i < a.len() {
                assert(rows[i] == a[i] && rows[j] == b[j - a.len()]);
            } else {
                assert(rows[j] == a[j] && rows[i] == b[i - a.len()]);
            }
        }
    }
}

} // verus!
