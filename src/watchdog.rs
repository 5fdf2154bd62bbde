//! The reachability watchdog's decisions: which configurations are
//! accepted, how long each probe may take, and what a probe outcome means.
use vstd::prelude::*;
use crate::metrics::{AliveStatus, KeepAliveConfig, KeepAliveItem, alive_key, alive_view, recorded};

verus! {

/// Why a watchdog configuration was refused.
#[derive(Clone, Copy, Debug, PartialEq, Eq)]
pub enum ConfigError {
    /// The interval is zero.
    ZeroInterval,
    /// No target is listed.
    NoItems,
    /// The target at this position has a URL that is not a valid URI.
    InvalidUrl(usize),
}

/// Whether `actix_web::http::Uri::from_str` accepts `s`.
pub uninterp spec fn uri_parses(s: Seq<char>) -> bool;

/// Relies on `actix_web::http::Uri::from_str` (the `http` crate's URI
/// parser): whether it accepts the text; it refuses the empty string.
#[verifier::external_body]
fn uri_is_valid(s: &str) -> (r: bool)
    ensures
        r == uri_parses(s@),
        s@.len() == 0 ==> !r,
{
    <actix_web::http::Uri as std::str::FromStr>::from_str(s).is_ok()
}

/// A configuration is accepted iff its interval is positive, it lists at
/// least one target, and every target's URL is a valid URI; the first of
/// these that fails is reported.
pub fn check_keep_alive_config(config: &KeepAliveConfig) -> (r: Result<(), ConfigError>)
    ensures
        config.interval == 0 ==> r == Err::<(), ConfigError>(ConfigError::ZeroInterval),
        config.interval > 0 && config.item@.len() == 0 ==> r == Err::<(), ConfigError>(ConfigError::NoItems),
        config.interval > 0 && config.item@.len() > 0 ==> match r {
            Ok(()) => forall|i: int| 0 <= i < config.item@.len() ==> uri_parses(#[trigger] config.item@[i].url@),
            Err(ConfigError::InvalidUrl(i)) => {
                &&& i < config.item@.len()
                &&& !uri_parses(config.item@[i as int].url@)
                &&& forall|j: int| 0 <= j < i ==> uri_parses(#[trigger] config.item@[j].url@)
            },
            Err(_) => false,
        },
{
    if config.interval == 0 {
        return Err(ConfigError::ZeroInterval);
    }
    if config.item.len() == 0 {
        return Err(ConfigError::NoItems);
    }
    let mut i: usize = 0;
    while i < config.item.len()
        invariant
            i <= config.item@.len(),
            config.interval > 0,
            forall|j: int| 0 <= j < i ==> uri_parses(#[trigger] config.item@[j].url@),
        decreases config.item.len() - i,
    {
        if !uri_is_valid(config.item[i].url.as_str()) {
            return Err(ConfigError::InvalidUrl(i));
        }
        i = i + 1;
    }
    Ok(())
}

/// The time budget of one probe: the interval shared evenly among the
/// targets, in milliseconds.
pub open spec fn probe_budget(interval: u64, count: usize) -> int {
    (interval * 1000) as int / count as int
}

/// The timeout of each probe, in milliseconds: the interval divided by
/// the number of targets, so that a tick whose probes all time out still
/// ends within one interval. An interval too long for milliseconds in
/// 64 bits is cut to the largest one.
pub fn probe_timeout_millis(interval: u64, count: usize) -> (r: u64)
    requires
        count > 0,
    ensures
        interval <= u64::MAX / 1000 ==> r == probe_budget(interval, count),
        interval > u64::MAX / 1000 ==> r == u64::MAX / count as u64,
{
    let total: u64 = if interval > u64::MAX / 1000 { u64::MAX } else { interval * 1000 };
    total / count as u64
}

/// However many targets there are, their timeouts together fit in one
/// interval: no tick waits longer than that on unresponsive targets, and
/// each target's outcome is known within its own timeout.
pub proof fn lemma_tick_within_interval(interval: u64, count: usize)
    requires
        count > 0,
        interval <= u64::MAX / 1000,
    ensures
        probe_budget(interval, count) * count <= interval * 1000,
        probe_budget(interval, count) >= 0,
{
    let t = (interval * 1000) as int;
    let n = count as int;
    assert(t / n * n <= t) by (nonlinear_arith)
        requires
            t >= 0,
            n > 0,
    ;
    assert(t / n >= 0) by (nonlinear_arith)
        requires
            t >= 0,
            n > 0,
    ;
}

/// Whether an HTTP status is of the success class.
pub open spec fn is_success(status: u16) -> bool {
    200 <= status < 300
}

/// A probe's outcome: the status of the response, or none where the
/// request failed or timed out. Alive iff a success status came back.
pub fn probe_alive(outcome: Option<u16>) -> (r: bool)
    ensures
        r == (outcome matches Some(s) && is_success(s)),
{
    match outcome {
        Some(s) => 200 <= s && s < 300,
        None => false,
    }
}

/// The series value of a probe outcome: 1 alive, 0 dead.
pub open spec fn alive_value(outcome: Option<u16>) -> i64 {
    if probe_alive_spec(outcome) {
        1
    } else {
        0
    }
}

/// Whether the series view holds `key` with value `v`.
pub open spec fn shows(view: Seq<((Seq<char>, Seq<char>), i64)>, key: (Seq<char>, Seq<char>), v: i64) -> bool {
    exists|k: int| 0 <= k < view.len() && view[k] == (key, v)
}

/// Whether no target after position `m`, and before `upto`, shares its key.
pub open spec fn last_for_key(items: Seq<KeepAliveItem>, m: int, upto: int) -> bool {
    forall|j: int| m < j < upto ==> alive_key(items[j]) != alive_key(items[m])
}

/// Whether `key` is the key of one of `items`.
pub open spec fn is_item_key(items: Seq<KeepAliveItem>, upto: int, key: (Seq<char>, Seq<char>)) -> bool {
    exists|i: int| 0 <= i < upto && alive_key(#[trigger] items[i]) == key
}

/// Records one tick: each target's series follows its own outcome alone
/// (where a target is listed twice, its later outcome counts). Series of
/// targets not listed stay where and as they were, and the only series
/// added are those of listed targets.
pub fn record_tick(status: &mut AliveStatus, items: &Vec<KeepAliveItem>, outcomes: &Vec<Option<u16>>)
    requires
        old(status).wf(),
        items@.len() == outcomes@.len(),
    ensures
        final(status).wf(),
        forall|m: int| 0 <= m < items@.len() && #[trigger] last_for_key(items@, m, items@.len() as int) ==> shows(
            alive_view(final(status).alive_status@),
            alive_key(items@[m]),
            alive_value(outcomes@[m]),
        ),
        alive_view(final(status).alive_status@).len() >= alive_view(old(status).alive_status@).len(),
        forall|k: int| 0 <= k < old(status).alive_status@.len() ==> {
            &&& (#[trigger] alive_view(final(status).alive_status@)[k]).0 == alive_view(old(status).alive_status@)[k].0
            &&& !is_item_key(items@, items@.len() as int, alive_view(old(status).alive_status@)[k].0)
                ==> alive_view(final(status).alive_status@)[k] == alive_view(old(status).alive_status@)[k]
        },
        forall|k: int| old(status).alive_status@.len() <= k < final(status).alive_status@.len() ==> is_item_key(
            items@,
            items@.len() as int,
            (#[trigger] alive_view(final(status).alive_status@)[k]).0,
        ),
{
    let ghost init = alive_view(status.alive_status@);
    let mut i: usize = 0;
    while i < items.len()
        invariant
            i <= items@.len(),
            items@.len() == outcomes@.len(),
            status.wf(),
            forall|m: int| 0 <= m < i && #[trigger] last_for_key(items@, m, i as int) ==> shows(
                alive_view(status.alive_status@),
                alive_key(items@[m]),
                alive_value(outcomes@[m]),
            ),
            init == alive_view(old(status).alive_status@),
            alive_view(status.alive_status@).len() >= init.len(),
            forall|k: int| 0 <= k < init.len() ==> {
                &&& (#[trigger] alive_view(status.alive_status@)[k]).0 == init[k].0
                &&& !is_item_key(items@, i as int, init[k].0) ==> alive_view(status.alive_status@)[k] == init[k]
            },
            forall|k: int| init.len() <= k < status.alive_status@.len() ==> is_item_key(
                items@,
                i as int,
                (#[trigger] alive_view(status.alive_status@)[k]).0,
            ),
        decreases items.len() - i,
    {
        let alive = probe_alive(outcomes[i]);
        let ghost before = alive_view(status.alive_status@);
        status.update(&items[i], alive);
        let ghost after = alive_view(status.alive_status@);
        let ghost key = alive_key(items@[i as int]);
        let ghost v: i64 = if alive { 1 } else { 0 };
        proof {
            assert(recorded(before, key, v, after));
            assert(alive_key(items@[i as int]) == key);
            if exists|k: int| 0 <= k < before.len() && before[k].0 == key {
                let k = choose|k: int| 0 <= k < before.len() && before[k].0 == key;
                assert(after == before.update(k, (key, v)));
            } else {
                assert(after == before.push((key, v)));
            }
            assert forall|k: int| 0 <= k < init.len() implies {
                &&& (#[trigger] after[k]).0 == init[k].0
                &&& !is_item_key(items@, i + 1, init[k].0) ==> after[k] == init[k]
            } by {
                if !is_item_key(items@, i + 1, init[k].0) {
                    assert(init[k].0 != key);
                    assert forall|j: int| 0 <= j < i implies alive_key(#[trigger] items@[j]) != init[k].0 by {
                        assert(alive_key(items@[j]) != init[k].0);
                    }
                    assert(!is_item_key(items@, i as int, init[k].0));
                }
            }
            assert forall|k: int| init.len() <= k < after.len() implies is_item_key(items@, i + 1, (#[trigger] after[k]).0) by {
                if k < before.len() {
                    assert(is_item_key(items@, i as int, before[k].0));
                    let j = choose|j: int| 0 <= j < i && alive_key(#[trigger] items@[j]) == before[k].0;
                    assert(after[k].0 == before[k].0);
                    assert(alive_key(items@[j]) == after[k].0);
                } else {
                    assert(alive_key(items@[i as int]) == after[k].0);
                }
            }
            assert forall|m: int| 0 <= m < i + 1 && #[trigger] last_for_key(items@, m, i + 1) implies shows(
                after,
                alive_key(items@[m]),
                alive_value(outcomes@[m]),
            ) by {
                let key_m = alive_key(items@[m]);
                if m == i {
                    if exists|k: int| 0 <= k < before.len() && before[k].0 == key {
                        let k = choose|k: int| 0 <= k < before.len() && before[k].0 == key;
                        assert(after[k] == (key, v));
                    } else {
                        assert(after[before.len() as int] == (key, v));
                    }
                } else {
                    assert(alive_key(items@[i as int]) != key_m);
                    assert(last_for_key(items@, m, i as int));
                    let k = choose|k: int| 0 <= k < before.len() && before[k] == (key_m, alive_value(outcomes@[m]));
                    if exists|k2: int| 0 <= k2 < before.len() && before[k2].0 == key {
                        let k2 = choose|k2: int| 0 <= k2 < before.len() && before[k2].0 == key;
                        assert(after == before.update(k2, (key, v)));
                        assert(after[k] == before[k]);
                    } else {
                        assert(after[k] == before[k]);
                    }
                }
            }
        }
        i = i + 1;
    }
}

/// What `probe_alive` returns.
pub open spec fn probe_alive_spec(outcome: Option<u16>) -> bool {
    outcome matches Some(s) && is_success(s)
}

} // verus!
