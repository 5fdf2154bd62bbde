//! The metric state that a scrape renders: one family of series per
//! measured quantity, replaced as a whole by each cycle, and the watchdog's
//! reachability family.
use vstd::prelude::*;
use crate::nvml_metrics::{NvmlDevice, NvmlMetrics, NvmlUserUtilization, utils_view};

verus! {

/// Labels of the device information series.
#[derive(Clone, Debug, Hash, PartialEq, Eq)]
pub struct DeviceLabel {
    pub index: u32,
    pub minor_number: u32,
    pub name: String,
    pub uuid: String,
}

/// Labels of a user's memory on one device: the device, the uid, and the
/// name shown for it.
#[derive(Clone, Debug, Hash, PartialEq, Eq)]
pub struct UserLabel {
    pub index: u32,
    pub uid: u32,
    pub user_name: String,
}

/// Label of the driver version series.
#[derive(Clone, Debug, Hash, PartialEq, Eq)]
pub struct VersionLabel {
    pub version: String,
}

/// Label of the series keyed by a device's minor number.
#[derive(Clone, Copy, Debug, Hash, PartialEq, Eq, Structural)]
pub struct DeviceMinorLabel {
    pub minor_number: u32,
}

/// Label of a user's card count.
#[derive(Clone, Debug, Hash, PartialEq, Eq)]
pub struct UserNameLabel {
    pub user_name: String,
}

/// Labels of a watchdog target's reachability.
#[derive(Clone, Debug, Hash, PartialEq, Eq)]
pub struct WatchdogLabel {
    pub hostname: String,
    pub url: String,
}

/// The reachability watchdog's configuration.
#[derive(Debug)]
pub struct KeepAliveConfig {
    pub interval: u64,
    pub item: Vec<KeepAliveItem>,
}

/// One watchdog target.
#[derive(Debug)]
pub struct KeepAliveItem {
    pub hostname: String,
    pub url: String,
}

/// Why a cycle's telemetry could not be read.
#[derive(Debug)]
pub struct TelemetryError {
    pub message: String,
}

/// The metric state. `nvml_status` is the health gauge (1 when the last
/// cycle succeeded, 0 otherwise); every other family holds the series of
/// the last successful cycle, or none after a failure, one series per
/// label. Utilizations are kept as the raw percentage and exposed as a
/// fraction of one.
pub struct Metrics {
    pub nvml_status: i64,
    pub version: Vec<VersionLabel>,
    pub device_info: Vec<DeviceLabel>,
    pub fan_speed: Vec<(DeviceMinorLabel, u64)>,
    pub memory_total: Vec<(DeviceMinorLabel, u64)>,
    pub memory_used: Vec<(DeviceMinorLabel, u64)>,
    pub power_usage: Vec<(DeviceMinorLabel, u64)>,
    pub temperature: Vec<(DeviceMinorLabel, u64)>,
    pub utilization_gpu: Vec<(DeviceMinorLabel, u64)>,
    pub utilization_memory: Vec<(DeviceMinorLabel, u64)>,
    pub users_used_memory: Vec<(UserLabel, u64)>,
    pub users_used_cards: Vec<(UserNameLabel, usize)>,
}

/// The reachability of each watchdog target: 1 alive, 0 dead.
pub struct AliveStatus {
    pub alive_status: Vec<(WatchdogLabel, i64)>,
}

/// One series per label.
pub open spec fn unique_keys<K, V>(s: Seq<(K, V)>) -> bool {
    forall|k: int, l: int| 0 <= k < s.len() && 0 <= l < s.len() && k != l ==> s[k].0 != s[l].0
}

/// A position of `key`'s series in `s`, where it has one.
pub open spec fn key_position<K, V>(s: Seq<(K, V)>, key: K) -> int {
    choose|i: int| 0 <= i < s.len() && s[i].0 == key
}

/// `s` with the series of `key` set to `v`: in place where `key` has a
/// series, else appended.
pub open spec fn set_series<K, V>(s: Seq<(K, V)>, key: K, v: V) -> Seq<(K, V)> {
    if exists|i: int| 0 <= i < s.len() && s[i].0 == key {
        s.update(key_position(s, key), (key, v))
    } else {
        s.push((key, v))
    }
}

/// `s` with the label `k` added where it is not there yet.
pub open spec fn add_label<K>(s: Seq<K>, k: K) -> Seq<K> {
    if s.contains(k) {
        s
    } else {
        s.push(k)
    }
}

proof fn lemma_set_series_at<K, V>(s: Seq<(K, V)>, key: K, v: V, i: int)
    requires
        unique_keys(s),
        0 <= i < s.len(),
        s[i].0 == key,
    ensures
        set_series(s, key, v) == s.update(i, (key, v)),
        unique_keys(set_series(s, key, v)),
{
    let c = key_position(s, key);
    assert(c == i);
    let t = s.update(i, (key, v));
    assert forall|k: int, l: int| 0 <= k < t.len() && 0 <= l < t.len() && k != l implies t[k].0 != t[l].0 by {
        assert(t[k].0 == s[k].0);
        assert(t[l].0 == s[l].0);
    }
}

proof fn lemma_set_series_new<K, V>(s: Seq<(K, V)>, key: K, v: V)
    requires
        unique_keys(s),
        forall|i: int| 0 <= i < s.len() ==> s[i].0 != key,
    ensures
        set_series(s, key, v) == s.push((key, v)),
        unique_keys(set_series(s, key, v)),
{
    let t = s.push((key, v));
    assert forall|k: int, l: int| 0 <= k < t.len() && 0 <= l < t.len() && k != l implies t[k].0 != t[l].0 by {
        if k < s.len() && l < s.len() {
            assert(t[k] == s[k] && t[l] == s[l]);
        } else if k < s.len() {
            assert(t[k] == s[k]);
        } else {
            assert(t[l] == s[l]);
        }
    }
}

proof fn lemma_add_label<K>(s: Seq<K>, k: K)
    requires
        s.no_duplicates(),
    ensures
        add_label(s, k).no_duplicates(),
{
    if !s.contains(k) {
        let t = s.push(k);
        assert forall|i: int, j: int| 0 <= i < t.len() && 0 <= j < t.len() && i != j implies t[i] != t[j] by {
            if i < s.len() && j < s.len() {
                assert(t[i] == s[i] && t[j] == s[j]);
            } else if i < s.len() {
                assert(t[i] == s[i]);
            } else {
                assert(t[j] == s[j]);
            }
        }
    }
}

pub open spec fn minor_label(d: NvmlDevice) -> DeviceMinorLabel {
    DeviceMinorLabel { minor_number: d.minor_number }
}

pub open spec fn device_key(d: NvmlDevice) -> (u32, u32, Seq<char>, Seq<char>) {
    (d.index, d.minor_number, d.name@, d.uuid@)
}

/// The device information labels of `ds`, each once.
pub open spec fn device_info_of(ds: Seq<NvmlDevice>) -> Seq<(u32, u32, Seq<char>, Seq<char>)>
    decreases ds.len(),
{
    if ds.len() == 0 {
        Seq::empty()
    } else {
        add_label(device_info_of(ds.drop_last()), device_key(ds.last()))
    }
}

/// The family keyed by minor number whose value for a device is `f`: a
/// later device with the same minor number overwrites an earlier one.
pub open spec fn minor_family(ds: Seq<NvmlDevice>, f: spec_fn(NvmlDevice) -> u64) -> Seq<(DeviceMinorLabel, u64)>
    decreases ds.len(),
{
    if ds.len() == 0 {
        Seq::empty()
    } else {
        set_series(minor_family(ds.drop_last(), f), minor_label(ds.last()), f(ds.last()))
    }
}

pub open spec fn fan_speed_of(ds: Seq<NvmlDevice>) -> Seq<(DeviceMinorLabel, u64)> {
    minor_family(ds, |d: NvmlDevice| d.fan_speed as u64)
}

pub open spec fn memory_total_of(ds: Seq<NvmlDevice>) -> Seq<(DeviceMinorLabel, u64)> {
    minor_family(ds, |d: NvmlDevice| d.memory_total)
}

pub open spec fn memory_used_of(ds: Seq<NvmlDevice>) -> Seq<(DeviceMinorLabel, u64)> {
    minor_family(ds, |d: NvmlDevice| d.memory_used)
}

pub open spec fn power_usage_of(ds: Seq<NvmlDevice>) -> Seq<(DeviceMinorLabel, u64)> {
    minor_family(ds, |d: NvmlDevice| d.power_usage as u64)
}

pub open spec fn temperature_of(ds: Seq<NvmlDevice>) -> Seq<(DeviceMinorLabel, u64)> {
    minor_family(ds, |d: NvmlDevice| d.temperature as u64)
}

pub open spec fn utilization_gpu_of(ds: Seq<NvmlDevice>) -> Seq<(DeviceMinorLabel, u64)> {
    minor_family(ds, |d: NvmlDevice| d.utilization_gpu as u64)
}

pub open spec fn utilization_memory_of(ds: Seq<NvmlDevice>) -> Seq<(DeviceMinorLabel, u64)> {
    minor_family(ds, |d: NvmlDevice| d.utilization_memory as u64)
}

/// The label of a user row: device index, uid, shown name.
pub open spec fn user_key(row: (u32, Seq<char>, u64, u32)) -> (u32, u32, Seq<char>) {
    (row.0, row.3, row.1)
}

/// The user-memory family of `rows`: rows with zero memory are left out,
/// and a later row with the same label overwrites an earlier one.
pub open spec fn user_family(rows: Seq<(u32, Seq<char>, u64, u32)>) -> Seq<((u32, u32, Seq<char>), u64)>
    decreases rows.len(),
{
    if rows.len() == 0 {
        Seq::empty()
    } else {
        let rest = user_family(rows.drop_last());
        if rows.last().2 != 0 {
            set_series(rest, user_key(rows.last()), rows.last().2)
        } else {
            rest
        }
    }
}

/// The series of a user-memory family as rows.
pub open spec fn family_rows(f: Seq<((u32, u32, Seq<char>), u64)>) -> Seq<(u32, Seq<char>, u64, u32)> {
    f.map_values(|e: ((u32, u32, Seq<char>), u64)| (e.0.0, e.0.2, e.1, e.0.1))
}

/// The user names of `rows`, each once, in order of first appearance.
pub open spec fn card_names(rows: Seq<(u32, Seq<char>, u64, u32)>) -> Seq<Seq<char>>
    decreases rows.len(),
{
    if rows.len() == 0 {
        Seq::empty()
    } else {
        let rest = card_names(rows.drop_last());
        if rest.contains(rows.last().1) {
            rest
        } else {
            rest.push(rows.last().1)
        }
    }
}

/// The distinct device indices on which `name` has a row, in order of
/// first appearance.
pub open spec fn card_devices(rows: Seq<(u32, Seq<char>, u64, u32)>, name: Seq<char>) -> Seq<u32>
    decreases rows.len(),
{
    if rows.len() == 0 {
        Seq::empty()
    } else {
        let rest = card_devices(rows.drop_last(), name);
        if rows.last().1 == name && !rest.contains(rows.last().0) {
            rest.push(rows.last().0)
        } else {
            rest
        }
    }
}

/// For each user name, the number of distinct devices it uses.
pub open spec fn card_counts(rows: Seq<(u32, Seq<char>, u64, u32)>) -> Seq<(Seq<char>, int)> {
    card_names(rows).map_values(|n: Seq<char>| (n, card_devices(rows, n).len() as int))
}

impl Metrics {
    pub open spec fn version_view(&self) -> Seq<Seq<char>> {
        self.version@.map_values(|v: VersionLabel| v.version@)
    }

    pub open spec fn device_info_view(&self) -> Seq<(u32, u32, Seq<char>, Seq<char>)> {
        self.device_info@.map_values(|l: DeviceLabel| (l.index, l.minor_number, l.name@, l.uuid@))
    }

    pub open spec fn users_used_memory_view(&self) -> Seq<((u32, u32, Seq<char>), u64)> {
        self.users_used_memory@.map_values(|e: (UserLabel, u64)| ((e.0.index, e.0.uid, e.0.user_name@), e.1))
    }

    pub open spec fn users_used_cards_view(&self) -> Seq<(Seq<char>, int)> {
        self.users_used_cards@.map_values(|e: (UserNameLabel, usize)| (e.0.user_name@, e.1 as int))
    }

    /// Every family holds at most one series per label.
    pub open spec fn wf(&self) -> bool {
        &&& self.version_view().no_duplicates()
        &&& self.device_info_view().no_duplicates()
        &&& unique_keys(self.fan_speed@)
        &&& unique_keys(self.memory_total@)
        &&& unique_keys(self.memory_used@)
        &&& unique_keys(self.power_usage@)
        &&& unique_keys(self.temperature@)
        &&& unique_keys(self.utilization_gpu@)
        &&& unique_keys(self.utilization_memory@)
        &&& unique_keys(self.users_used_memory_view())
        &&& unique_keys(self.users_used_cards_view())
    }

    /// No device- or user-keyed series, and no version.
    pub open spec fn is_cleared(&self) -> bool {
        &&& self.version@.len() == 0
        &&& self.device_info@.len() == 0
        &&& self.fan_speed@.len() == 0
        &&& self.memory_total@.len() == 0
        &&& self.memory_used@.len() == 0
        &&& self.power_usage@.len() == 0
        &&& self.temperature@.len() == 0
        &&& self.utilization_gpu@.len() == 0
        &&& self.utilization_memory@.len() == 0
        &&& self.users_used_memory@.len() == 0
        &&& self.users_used_cards@.len() == 0
    }

    /// Every series is that of snapshot `s`, and health is 1.
    pub open spec fn holds_snapshot(&self, s: NvmlMetrics) -> bool {
        let ds = s.devices@;
        let users = user_family(utils_view(s.users_utilization@));
        &&& self.nvml_status == 1
        &&& self.version_view() == seq![s.version@]
        &&& self.device_info_view() == device_info_of(ds)
        &&& self.fan_speed@ == fan_speed_of(ds)
        &&& self.memory_total@ == memory_total_of(ds)
        &&& self.memory_used@ == memory_used_of(ds)
        &&& self.power_usage@ == power_usage_of(ds)
        &&& self.temperature@ == temperature_of(ds)
        &&& self.utilization_gpu@ == utilization_gpu_of(ds)
        &&& self.utilization_memory@ == utilization_memory_of(ds)
        &&& self.users_used_memory_view() == users
        &&& self.users_used_cards_view() == card_counts(family_rows(users))
    }

    /// Two states expose the same series with the same values.
    pub open spec fn same_series(&self, other: &Metrics) -> bool {
        &&& self.nvml_status == other.nvml_status
        &&& self.version_view() == other.version_view()
        &&& self.device_info_view() == other.device_info_view()
        &&& self.fan_speed@ == other.fan_speed@
        &&& self.memory_total@ == other.memory_total@
        &&& self.memory_used@ == other.memory_used@
        &&& self.power_usage@ == other.power_usage@
        &&& self.temperature@ == other.temperature@
        &&& self.utilization_gpu@ == other.utilization_gpu@
        &&& self.utilization_memory@ == other.utilization_memory@
        &&& self.users_used_memory_view() == other.users_used_memory_view()
        &&& self.users_used_cards_view() == other.users_used_cards_view()
    }

    /// A state with no series and health 0.
    pub fn new() -> (r: Metrics)
        ensures
            r.is_cleared(),
            r.wf(),
            r.nvml_status == 0,
    {
        let r = Metrics {
            nvml_status: 0,
            version: Vec::new(),
            device_info: Vec::new(),
            fan_speed: Vec::new(),
            memory_total: Vec::new(),
            memory_used: Vec::new(),
            power_usage: Vec::new(),
            temperature: Vec::new(),
            utilization_gpu: Vec::new(),
            utilization_memory: Vec::new(),
            users_used_memory: Vec::new(),
            users_used_cards: Vec::new(),
        };
        proof {
            lemma_cleared_wf(&r);
        }
        r
    }

    /// Removes every device- and user-keyed series and the version; health
    /// is left as it was.
    pub fn clear(&mut self)
        ensures
            final(self).is_cleared(),
            final(self).wf(),
            final(self).nvml_status == old(self).nvml_status,
    {
        self.version.clear();
        self.device_info.clear();
        self.fan_speed.clear();
        self.memory_total.clear();
        self.memory_used.clear();
        self.power_usage.clear();
        self.temperature.clear();
        self.utilization_gpu.clear();
        self.utilization_memory.clear();
        self.users_used_memory.clear();
        self.users_used_cards.clear();
        proof {
            lemma_cleared_wf(self);
        }
    }
}

proof fn lemma_cleared_wf(m: &Metrics)
    requires
        m.is_cleared(),
    ensures
        m.wf(),
{
    assert(m.version_view().len() == 0);
    assert(m.device_info_view().len() == 0);
    assert(m.users_used_memory_view().len() == 0);
    assert(m.users_used_cards_view().len() == 0);
}

proof fn lemma_absent_name_devices(rows: Seq<(u32, Seq<char>, u64, u32)>, name: Seq<char>)
    requires
        !card_names(rows).contains(name),
    ensures
        card_devices(rows, name).len() == 0,
    decreases rows.len(),
{
    if rows.len() > 0 {
        let rest = card_names(rows.drop_last());
        if rest.contains(name) {
            let k = choose|k: int| 0 <= k < rest.len() && rest[k] == name;
            assert(card_names(rows)[k] == name);
        }
        if rows.last().1 == name && !rest.contains(name) {
            assert(card_names(rows)[rest.len() as int] == name);
        }
        lemma_absent_name_devices(rows.drop_last(), name);
    }
}

fn contains_u32(v: &Vec<u32>, x: u32) -> (r: bool)
    ensures
        r == v@.contains(x),
{
    let mut i: usize = 0;
    while i < v.len()
        invariant
            i <= v.len(),
            forall|k: int| 0 <= k < i ==> v@[k] != x,
        decreases v.len() - i,
    {
        if v[i] == x {
            assert(v@[i as int] == x);
            return true;
        }
        i = i + 1;
    }
    false
}

fn position_of_name(cards: &Vec<(UserNameLabel, usize)>, name: &String) -> (r: Option<usize>)
    ensures
        r matches Some(k) ==> k < cards.len() && cards@[k as int].0.user_name@ == name@,
        r is None ==> forall|k: int| 0 <= k < cards.len() ==> cards@[k].0.user_name@ != name@,
{
    let mut i: usize = 0;
    while i < cards.len()
        invariant
            i <= cards.len(),
            forall|k: int| 0 <= k < i ==> cards@[k].0.user_name@ != name@,
        decreases cards.len() - i,
    {
        if cards[i].0.user_name == *name {
            return Some(i);
        }
        i = i + 1;
    }
    None
}

pub open spec fn user_memory_view(rows: Seq<(UserLabel, u64)>) -> Seq<(u32, Seq<char>, u64, u32)> {
    rows.map_values(|e: (UserLabel, u64)| (e.0.index, e.0.user_name@, e.1, e.0.uid))
}

pub open spec fn cards_view(cards: Seq<(UserNameLabel, usize)>) -> Seq<(Seq<char>, int)> {
    cards.map_values(|e: (UserNameLabel, usize)| (e.0.user_name@, e.1 as int))
}

/// Counts, for each user name, the distinct devices on which it has a row.
pub fn count_cards(rows: &Vec<(UserLabel, u64)>) -> (r: Vec<(UserNameLabel, usize)>)
    ensures
        cards_view(r@) == card_counts(user_memory_view(rows@)),
        unique_keys(cards_view(r@)),
{
    let ghost all = user_memory_view(rows@);
    let mut cards: Vec<(UserNameLabel, usize)> = Vec::new();
    let mut seen: Vec<Vec<u32>> = Vec::new();
    let mut i: usize = 0;
    while i < rows.len()
        invariant
            i <= rows.len(),
            all == user_memory_view(rows@),
            cards@.len() == seen@.len(),
            cards@.len() == card_names(all.take(i as int)).len(),
            forall|k: int| 0 <= k < cards@.len() ==> {
                &&& (#[trigger] cards@[k]).0.user_name@ == card_names(all.take(i as int))[k]
                &&& seen@[k]@ == card_devices(all.take(i as int), card_names(all.take(i as int))[k])
                &&& cards@[k].1 == seen@[k]@.len()
            },
            forall|k: int, l: int| 0 <= k < cards@.len() && 0 <= l < cards@.len() && k != l
                ==> cards@[k].0.user_name@ != cards@[l].0.user_name@,
        decreases rows.len() - i,
    {
        let ghost before = all.take(i as int);
        let ghost after = all.take(i + 1);
        assert(after.drop_last() =~= before);
        let index = rows[i].0.index;
        let name = &rows[i].0.user_name;
        assert(after.last() == (index, name@, rows@[i as int].1, rows@[i as int].0.uid));
        let ghost old_cards = cards@;
        let ghost old_seen = seen@;
        match position_of_name(&cards, name) {
            Some(k) => {
                assert(card_names(before)[k as int] == name@);
                assert(card_names(after) == card_names(before));
                if !contains_u32(&seen[k], index) {
                    let mut devs = seen[k].clone();
                    assert(devs@ =~= old_seen[k as int]@);
                    devs.push(index);
                    let n = devs.len();
                    seen.set(k, devs);
                    cards.set(k, (UserNameLabel { user_name: name.clone() }, n));
                }
                assert forall|j: int| 0 <= j < cards@.len() implies {
                    &&& (#[trigger] cards@[j]).0.user_name@ == card_names(after)[j]
                    &&& seen@[j]@ == card_devices(after, card_names(after)[j])
                    &&& cards@[j].1 == seen@[j]@.len()
                } by {
                    assert(old_cards[j].0.user_name@ == card_names(before)[j]);
                    if j != k {
                        assert(old_cards[j].0.user_name@ != name@);
                    }
                }
            },
            None => {
                proof {
                    if card_names(before).contains(name@) {
                        let j = choose|j: int| 0 <= j < card_names(before).len() && card_names(before)[j] == name@;
                        assert(cards@[j].0.user_name@ == name@);
                    }
                    lemma_absent_name_devices(before, name@);
                }
                let mut devs: Vec<u32> = Vec::new();
                devs.push(index);
                seen.push(devs);
                cards.push((UserNameLabel { user_name: name.clone() }, 1));
                assert forall|j: int| 0 <= j < cards@.len() implies {
                    &&& (#[trigger] cards@[j]).0.user_name@ == card_names(after)[j]
                    &&& seen@[j]@ == card_devices(after, card_names(after)[j])
                    &&& cards@[j].1 == seen@[j]@.len()
                } by {
                    if j < cards@.len() - 1 {
                        assert(old_cards[j].0.user_name@ == card_names(before)[j]);
                        assert(old_cards[j].0.user_name@ != name@);
                    } else {
                        assert(seen@[j]@ =~= seq![index]);
                    }
                }
            },
        }
        i = i + 1;
    }
    assert(all.take(rows.len() as int) =~= all);
    assert(cards_view(cards@) =~= card_counts(all));
    assert forall|k: int, l: int| 0 <= k < cards@.len() && 0 <= l < cards@.len() && k != l implies
        cards_view(cards@)[k].0 != cards_view(cards@)[l].0 by {
        assert(cards@[k].0.user_name@ != cards@[l].0.user_name@);
    }
    cards
}

pub open spec fn user_series_view(s: Seq<(UserLabel, u64)>) -> Seq<((u32, u32, Seq<char>), u64)> {
    s.map_values(|e: (UserLabel, u64)| ((e.0.index, e.0.uid, e.0.user_name@), e.1))
}

pub open spec fn device_labels_view(s: Seq<DeviceLabel>) -> Seq<(u32, u32, Seq<char>, Seq<char>)> {
    s.map_values(|l: DeviceLabel| (l.index, l.minor_number, l.name@, l.uuid@))
}

pub open spec fn version_labels_view(s: Seq<VersionLabel>) -> Seq<Seq<char>> {
    s.map_values(|v: VersionLabel| v.version@)
}

fn minor_position(family: &Vec<(DeviceMinorLabel, u64)>, label: DeviceMinorLabel) -> (r: Option<usize>)
    ensures
        r matches Some(i) ==> i < family@.len() && family@[i as int].0 == label,
        r is None ==> forall|k: int| 0 <= k < family@.len() ==> family@[k].0 != label,
{
    let mut i: usize = 0;
    while i < family.len()
        invariant
            i <= family@.len(),
            forall|k: int| 0 <= k < i ==> family@[k].0 != label,
        decreases family.len() - i,
    {
        if family[i].0.minor_number == label.minor_number {
            return Some(i);
        }
        i = i + 1;
    }
    None
}

/// Sets the series of `label` in a family keyed by minor number.
fn set_minor(family: &mut Vec<(DeviceMinorLabel, u64)>, label: DeviceMinorLabel, value: u64)
    requires
        unique_keys(old(family)@),
    ensures
        final(family)@ == set_series(old(family)@, label, value),
        unique_keys(final(family)@),
{
    match minor_position(family, label) {
        Some(i) => {
            proof {
                lemma_set_series_at(family@, label, value, i as int);
            }
            family.set(i, (label, value));
        },
        None => {
            proof {
                lemma_set_series_new(family@, label, value);
            }
            family.push((label, value));
        },
    }
}

fn user_position(family: &Vec<(UserLabel, u64)>, label: &UserLabel) -> (r: Option<usize>)
    ensures
        r matches Some(i) ==> i < family@.len() && user_series_view(family@)[i as int].0 == (
            label.index,
            label.uid,
            label.user_name@,
        ),
        r is None ==> forall|k: int|
            0 <= k < family@.len() ==> user_series_view(family@)[k].0 != (label.index, label.uid, label.user_name@),
{
    let mut i: usize = 0;
    while i < family.len()
        invariant
            i <= family@.len(),
            forall|k: int|
                0 <= k < i ==> user_series_view(family@)[k].0 != (label.index, label.uid, label.user_name@),
        decreases family.len() - i,
    {
        let e = &family[i].0;
        if e.index == label.index && e.uid == label.uid && e.user_name == label.user_name {
            return Some(i);
        }
        i = i + 1;
    }
    None
}

/// Sets the series of `label` in the user-memory family.
fn set_user_memory(family: &mut Vec<(UserLabel, u64)>, label: UserLabel, value: u64)
    requires
        unique_keys(user_series_view(old(family)@)),
    ensures
        user_series_view(final(family)@) == set_series(
            user_series_view(old(family)@),
            (label.index, label.uid, label.user_name@),
            value,
        ),
        unique_keys(user_series_view(final(family)@)),
{
    let ghost before = user_series_view(family@);
    let ghost key = (label.index, label.uid, label.user_name@);
    match user_position(family, &label) {
        Some(i) => {
            proof {
                lemma_set_series_at(before, key, value, i as int);
            }
            family.set(i, (label, value));
            assert(user_series_view(family@) =~= before.update(i as int, (key, value)));
        },
        None => {
            proof {
                lemma_set_series_new(before, key, value);
            }
            family.push((label, value));
            assert(user_series_view(family@) =~= before.push((key, value)));
        },
    }
}

fn has_device_label(family: &Vec<DeviceLabel>, d: &NvmlDevice) -> (r: bool)
    ensures
        r == device_labels_view(family@).contains(device_key(*d)),
{
    let mut i: usize = 0;
    while i < family.len()
        invariant
            i <= family@.len(),
            forall|k: int| 0 <= k < i ==> device_labels_view(family@)[k] != device_key(*d),
        decreases family.len() - i,
    {
        let l = &family[i];
        if l.index == d.index && l.minor_number == d.minor_number && l.name == d.name && l.uuid == d.uuid {
            assert(device_labels_view(family@)[i as int] == device_key(*d));
            return true;
        }
        i = i + 1;
    }
    false
}

fn has_version_label(family: &Vec<VersionLabel>, version: &String) -> (r: bool)
    ensures
        r == version_labels_view(family@).contains(version@),
{
    let mut i: usize = 0;
    while i < family.len()
        invariant
            i <= family@.len(),
            forall|k: int| 0 <= k < i ==> version_labels_view(family@)[k] != version@,
        decreases family.len() - i,
    {
        if family[i].version == *version {
            assert(version_labels_view(family@)[i as int] == version@);
            return true;
        }
        i = i + 1;
    }
    false
}

proof fn lemma_user_family_nonzero(rows: Seq<(u32, Seq<char>, u64, u32)>)
    ensures
        forall|i: int| 0 <= i < user_family(rows).len() ==> (#[trigger] user_family(rows)[i]).1 != 0,
    decreases rows.len(),
{
    if rows.len() > 0 {
        lemma_user_family_nonzero(rows.drop_last());
        let rest = user_family(rows.drop_last());
        let key = user_key(rows.last());
        if rows.last().2 != 0 {
            let f = set_series(rest, key, rows.last().2);
            if exists|i: int| 0 <= i < rest.len() && rest[i].0 == key {
                let c = key_position(rest, key);
                assert forall|i: int| 0 <= i < f.len() implies (#[trigger] f[i]).1 != 0 by {
                    if i != c {
                        assert(f[i] == rest[i]);
                    }
                }
            } else {
                assert forall|i: int| 0 <= i < f.len() implies (#[trigger] f[i]).1 != 0 by {
                    if i < rest.len() {
                        assert(f[i] == rest[i]);
                    }
                }
            }
        }
    }
}

impl Metrics {
    /// Adds the driver version's label; a label already there stays once.
    fn update_nvml_version(&mut self, version: String)
        ensures
            final(self).version_view() == add_label(old(self).version_view(), version@),
            old(self).version_view().no_duplicates() ==> final(self).version_view().no_duplicates(),
            final(self).nvml_status == old(self).nvml_status,
            final(self).device_info == old(self).device_info,
            final(self).fan_speed == old(self).fan_speed,
            final(self).memory_total == old(self).memory_total,
            final(self).memory_used == old(self).memory_used,
            final(self).power_usage == old(self).power_usage,
            final(self).temperature == old(self).temperature,
            final(self).utilization_gpu == old(self).utilization_gpu,
            final(self).utilization_memory == old(self).utilization_memory,
            final(self).users_used_memory == old(self).users_used_memory,
            final(self).users_used_cards == old(self).users_used_cards,
    {
        let ghost before = self.version_view();
        proof {
            if before.no_duplicates() {
                lemma_add_label(before, version@);
            }
        }
        assert(self.version_view() == version_labels_view(self.version@));
        if !has_version_label(&self.version, &version) {
            self.version.push(VersionLabel { version });
            assert(self.version_view() =~= before.push(version@));
        }
    }

    /// Sets every series of one device: its information label, and the
    /// series of its minor number, which a device read earlier in the same
    /// cycle with that minor number had set.
    fn update_nvml_device(&mut self, device: &NvmlDevice)
        requires
            old(self).wf(),
        ensures
            final(self).wf(),
            final(self).device_info_view() == add_label(old(self).device_info_view(), device_key(*device)),
            final(self).fan_speed@ == set_series(old(self).fan_speed@, minor_label(*device), device.fan_speed as u64),
            final(self).memory_total@ == set_series(old(self).memory_total@, minor_label(*device), device.memory_total),
            final(self).memory_used@ == set_series(old(self).memory_used@, minor_label(*device), device.memory_used),
            final(self).power_usage@ == set_series(old(self).power_usage@, minor_label(*device), device.power_usage as u64),
            final(self).temperature@ == set_series(old(self).temperature@, minor_label(*device), device.temperature as u64),
            final(self).utilization_gpu@ == set_series(
                old(self).utilization_gpu@,
                minor_label(*device),
                device.utilization_gpu as u64,
            ),
            final(self).utilization_memory@ == set_series(
                old(self).utilization_memory@,
                minor_label(*device),
                device.utilization_memory as u64,
            ),
            final(self).nvml_status == old(self).nvml_status,
            final(self).version == old(self).version,
            final(self).users_used_memory == old(self).users_used_memory,
            final(self).users_used_cards == old(self).users_used_cards,
    {
        let ghost before = self.device_info_view();
        proof {
            lemma_add_label(before, device_key(*device));
        }
        assert(self.device_info_view() == device_labels_view(self.device_info@));
        if !has_device_label(&self.device_info, device) {
            self.device_info.push(DeviceLabel {
                index: device.index,
                minor_number: device.minor_number,
                name: device.name.clone(),
                uuid: device.uuid.clone(),
            });
            assert(self.device_info_view() =~= before.push(device_key(*device)));
        }
        let label = DeviceMinorLabel { minor_number: device.minor_number };
        set_minor(&mut self.fan_speed, label, device.fan_speed as u64);
        set_minor(&mut self.memory_total, label, device.memory_total);
        set_minor(&mut self.memory_used, label, device.memory_used);
        set_minor(&mut self.power_usage, label, device.power_usage as u64);
        set_minor(&mut self.temperature, label, device.temperature as u64);
        set_minor(&mut self.utilization_gpu, label, device.utilization_gpu as u64);
        set_minor(&mut self.utilization_memory, label, device.utilization_memory as u64);
    }

    /// Sets the memory series of one user row.
    fn update_nvml_user_utilization(&mut self, user: &NvmlUserUtilization)
        requires
            old(self).wf(),
        ensures
            final(self).wf(),
            final(self).users_used_memory_view() == set_series(
                old(self).users_used_memory_view(),
                (user.index, user.uid, user.user_name@),
                user.used_gpu_memory,
            ),
            final(self).nvml_status == old(self).nvml_status,
            final(self).version == old(self).version,
            final(self).device_info == old(self).device_info,
            final(self).fan_speed == old(self).fan_speed,
            final(self).memory_total == old(self).memory_total,
            final(self).memory_used == old(self).memory_used,
            final(self).power_usage == old(self).power_usage,
            final(self).temperature == old(self).temperature,
            final(self).utilization_gpu == old(self).utilization_gpu,
            final(self).utilization_memory == old(self).utilization_memory,
            final(self).users_used_cards == old(self).users_used_cards,
    {
        assert(self.users_used_memory_view() == user_series_view(self.users_used_memory@));
        let label = UserLabel { index: user.index, uid: user.uid, user_name: user.user_name.clone() };
        set_user_memory(&mut self.users_used_memory, label, user.used_gpu_memory);
        assert(self.users_used_memory_view() == user_series_view(self.users_used_memory@));
    }

    /// Ingests the outcome of one cycle. On a snapshot, every series is
    /// replaced by the snapshot's (series of devices or users absent from it
    /// are gone) and health becomes 1. On a failure, every device- and
    /// user-keyed series is removed, health becomes 0, and the error is
    /// handed back for logging. Either way each family keeps one series per
    /// label.
    pub fn update(&mut self, outcome: Result<NvmlMetrics, TelemetryError>) -> (r: Result<(), TelemetryError>)
        ensures
            final(self).wf(),
            match outcome {
                Ok(s) => final(self).holds_snapshot(s) && r is Ok,
                Err(e) => final(self).is_cleared() && final(self).nvml_status == 0 && r == Err::<(), TelemetryError>(e),
            },
    {
        self.clear();
        match outcome {
            Err(e) => {
                self.nvml_status = 0;
                Err(e)
            },
            Ok(state) => {
                let ghost ds = state.devices@;
                let ghost rows = utils_view(state.users_utilization@);
                assert(self.version_view() =~= Seq::<Seq<char>>::empty());
                self.update_nvml_version(state.version);
                assert(self.version_view() =~= seq![state.version@]);
                let mut i: usize = 0;
                assert(ds.take(0) =~= Seq::<NvmlDevice>::empty());
                assert(self.device_info_view() =~= device_info_of(ds.take(0)));
                assert(self.fan_speed@ =~= fan_speed_of(ds.take(0)));
                assert(self.memory_total@ =~= memory_total_of(ds.take(0)));
                assert(self.memory_used@ =~= memory_used_of(ds.take(0)));
                assert(self.power_usage@ =~= power_usage_of(ds.take(0)));
                assert(self.temperature@ =~= temperature_of(ds.take(0)));
                assert(self.utilization_gpu@ =~= utilization_gpu_of(ds.take(0)));
                assert(self.utilization_memory@ =~= utilization_memory_of(ds.take(0)));
                while i < state.devices.len()
                    invariant
                        i <= state.devices.len(),
                        ds == state.devices@,
                        self.wf(),
                        self.version_view() == seq![state.version@],
                        self.device_info_view() == device_info_of(ds.take(i as int)),
                        self.fan_speed@ == fan_speed_of(ds.take(i as int)),
                        self.memory_total@ == memory_total_of(ds.take(i as int)),
                        self.memory_used@ == memory_used_of(ds.take(i as int)),
                        self.power_usage@ == power_usage_of(ds.take(i as int)),
                        self.temperature@ == temperature_of(ds.take(i as int)),
                        self.utilization_gpu@ == utilization_gpu_of(ds.take(i as int)),
                        self.utilization_memory@ == utilization_memory_of(ds.take(i as int)),
                        self.users_used_memory@.len() == 0,
                        self.users_used_cards@.len() == 0,
                    decreases state.devices.len() - i,
                {
                    self.update_nvml_device(&state.devices[i]);
                    let ghost t = ds.take(i + 1);
                    assert(t.drop_last() =~= ds.take(i as int));
                    assert(t.last() == ds[i as int]);
                    i = i + 1;
                }
                assert(ds.take(ds.len() as int) =~= ds);
                let mut j: usize = 0;
                assert(self.users_used_memory_view() =~= user_family(rows.take(0)));
                while j < state.users_utilization.len()
                    invariant
                        j <= state.users_utilization.len(),
                        ds == state.devices@,
                        rows == utils_view(state.users_utilization@),
                        self.wf(),
                        self.version_view() == seq![state.version@],
                        self.device_info_view() == device_info_of(ds),
                        self.fan_speed@ == fan_speed_of(ds),
                        self.memory_total@ == memory_total_of(ds),
                        self.memory_used@ == memory_used_of(ds),
                        self.power_usage@ == power_usage_of(ds),
                        self.temperature@ == temperature_of(ds),
                        self.utilization_gpu@ == utilization_gpu_of(ds),
                        self.utilization_memory@ == utilization_memory_of(ds),
                        self.users_used_memory_view() == user_family(rows.take(j as int)),
                    decreases state.users_utilization.len() - j,
                {
                    let user = &state.users_utilization[j];
                    assert(rows.take(j + 1).drop_last() =~= rows.take(j as int));
                    assert(rows.take(j + 1).last() == rows[j as int]);
                    if user.used_gpu_memory != 0 {
                        self.update_nvml_user_utilization(user);
                    }
                    j = j + 1;
                }
                assert(rows.take(rows.len() as int) =~= rows);
                let cards = count_cards(&self.users_used_memory);
                assert(user_memory_view(self.users_used_memory@) =~= family_rows(self.users_used_memory_view()));
                self.users_used_cards = cards;
                assert(self.users_used_cards_view() =~= cards_view(self.users_used_cards@));
                self.nvml_status = 1;
                Ok(())
            },
        }
    }
}

/// Ingesting the same snapshot twice leaves the same series: the state
/// after an ingest depends on the snapshot alone, whatever came before.
pub proof fn lemma_ingest_idempotent(first: Metrics, second: Metrics, s: NvmlMetrics)
    requires
        first.holds_snapshot(s),
        second.holds_snapshot(s),
    ensures
        first.same_series(&second),
{
}

/// After an ingest, no user-memory series carries zero bytes, whatever the
/// snapshot held.
pub proof fn lemma_no_zero_usage(m: Metrics, s: NvmlMetrics)
    requires
        m.holds_snapshot(s),
    ensures
        forall|i: int| 0 <= i < m.users_used_memory@.len() ==> (#[trigger] m.users_used_memory@[i]).1 != 0,
{
    lemma_user_family_nonzero(utils_view(s.users_utilization@));
    assert forall|i: int| 0 <= i < m.users_used_memory@.len() implies (#[trigger] m.users_used_memory@[i]).1 != 0 by {
        assert(m.users_used_memory_view()[i].1 == m.users_used_memory@[i].1);
    }
}

pub open spec fn alive_view(s: Seq<(WatchdogLabel, i64)>) -> Seq<((Seq<char>, Seq<char>), i64)> {
    s.map_values(|e: (WatchdogLabel, i64)| ((e.0.hostname@, e.0.url@), e.1))
}

pub open spec fn alive_key(item: KeepAliveItem) -> (Seq<char>, Seq<char>) {
    (item.hostname@, item.url@)
}

/// `after` is `before` with the series of `key` set to `v`: in place where
/// `key` has a series, else appended.
pub open spec fn recorded(before: Seq<((Seq<char>, Seq<char>), i64)>, key: (Seq<char>, Seq<char>), v: i64, after: Seq<((Seq<char>, Seq<char>), i64)>) -> bool {
    &&& forall|k: int| 0 <= k < before.len() && (#[trigger] before[k]).0 == key ==> after == before.update(k, (key, v))
    &&& (forall|k: int| 0 <= k < before.len() ==> before[k].0 != key) ==> after == before.push((key, v))
}

impl AliveStatus {
    /// Each target has at most one series.
    pub open spec fn wf(&self) -> bool {
        forall|k: int, l: int| 0 <= k < self.alive_status@.len() && 0 <= l < self.alive_status@.len() && k != l
            ==> alive_view(self.alive_status@)[k].0 != alive_view(self.alive_status@)[l].0
    }

    /// No target probed yet.
    pub fn new() -> (r: AliveStatus)
        ensures
            r.wf(),
            r.alive_status@.len() == 0,
    {
        AliveStatus { alive_status: Vec::new() }
    }

    /// Records the latest probe outcome of `item`: its series becomes 1
    /// when alive, 0 when dead; a target seen for the first time gets a
    /// series at the end.
    pub fn update(&mut self, item: &KeepAliveItem, status: bool)
        requires
            old(self).wf(),
        ensures
            final(self).wf(),
            recorded(
                alive_view(old(self).alive_status@),
                alive_key(*item),
                if status { 1 } else { 0 },
                alive_view(final(self).alive_status@),
            ),
    {
        let ghost before = alive_view(self.alive_status@);
        let v: i64 = if status { 1 } else { 0 };
        let label = WatchdogLabel { hostname: item.hostname.clone(), url: item.url.clone() };
        match self.position_of(item) {
            Some(i) => {
                assert forall|k: int| 0 <= k < before.len() && (#[trigger] before[k]).0 == alive_key(*item) implies k == i by {
                    if k != i {
                        assert(before[k].0 != before[i as int].0);
                    }
                }
                self.alive_status.set(i, (label, v));
                assert(alive_view(self.alive_status@) =~= before.update(i as int, (alive_key(*item), v)));
                assert(forall|k: int| 0 <= k < before.len() ==> alive_view(self.alive_status@)[k].0 == before[k].0);
            },
            None => {
                self.alive_status.push((label, v));
                assert(alive_view(self.alive_status@) =~= before.push((alive_key(*item), v)));
            },
        }
    }

    fn position_of(&self, item: &KeepAliveItem) -> (r: Option<usize>)
        ensures
            r matches Some(i) ==> i < self.alive_status@.len() && alive_view(self.alive_status@)[i as int].0 == alive_key(*item),
            r is None ==> forall|k: int| 0 <= k < self.alive_status@.len() ==> alive_view(self.alive_status@)[k].0 != alive_key(*item),
    {
        let mut i: usize = 0;
        while i < self.alive_status.len()
            invariant
                i <= self.alive_status.len(),
                forall|k: int| 0 <= k < i ==> alive_view(self.alive_status@)[k].0 != alive_key(*item),
            decreases self.alive_status.len() - i,
        {
            if self.alive_status[i].0.hostname == item.hostname && self.alive_status[i].0.url == item.url {
                return Some(i);
            }
            i = i + 1;
        }
        None
    }
}

} // verus!
