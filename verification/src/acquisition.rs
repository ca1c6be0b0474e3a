//! Starting and stopping a wave acquisition: whether a start is allowed
//! and what it warns about, which variables are bound to the scope
//! channels, and the scope configurations that start, re-arm and stop it.
//! Also when the other commands the application sends are refused.

use vstd::prelude::*;
use crate::capture::{AcquisitionSettings, WaveState};
use crate::codec::ScopeConfig;
use crate::inspector::{index_named, index_of_name};
use crate::source::{
    ValueRead, VarDescriptor, ScopeMode, TriggerEdge, CAL_READ_MAX, CAP_CAPTURE_FORCE, CAP_NATIVE_BLOCK, CAP_PRE_TRIGGER,
    CAP_SCOPE_CAPTURE, CAP_SCOPE_STREAM, DAQ_FLAG_TRIGGER_DISABLED, KIND_SCOPE, NO_CAPTURE_ACK,
};
use crate::text::{decimal, push_decimal, push_str, str_eq};

verus! {

/// What stands in the way of a wave start, checked in order.
pub open spec fn start_refusal(wave_start: bool, connected: bool, capabilities: u32, mode: ScopeMode, triggered: bool)
    -> Option<&'static str>
{
    if !wave_start {
        Some("Wave start blocked by project safety state")
    } else if !connected {
        Some("Not connected")
    } else if capabilities & CAP_NATIVE_BLOCK == 0 {
        Some("NATIVE_BLOCK capability is not available")
    } else if mode == ScopeMode::Stream && capabilities & CAP_SCOPE_STREAM == 0 {
        Some("SCOPE_STREAM capability is not available")
    } else if mode == ScopeMode::CaptureArmed && capabilities & CAP_SCOPE_CAPTURE == 0 {
        Some("SCOPE_CAPTURE capability is not available")
    } else if mode == ScopeMode::CaptureArmed && !triggered && capabilities & CAP_CAPTURE_FORCE == 0 {
        Some("CAPTURE_FORCE capability is not available")
    } else {
        None
    }
}

/// The warning a start gives once the capture capability was found: a
/// capture without a declared pre-trigger.
pub open spec fn start_warning(wave_start: bool, connected: bool, capabilities: u32, mode: ScopeMode) -> Option<&'static str> {
    if wave_start && connected && capabilities & CAP_NATIVE_BLOCK != 0 && mode == ScopeMode::CaptureArmed
        && capabilities & CAP_SCOPE_CAPTURE != 0 && capabilities & CAP_PRE_TRIGGER == 0 {
        Some("Device does not declare PRE_TRIGGER capability")
    } else {
        None
    }
}

/// The outcome of the checks before a wave start.
#[derive(Debug, Clone, Copy, PartialEq, Eq)]
pub struct StartCheck {
    /// A warning to log; the start goes on unless it is refused too.
    pub warning: Option<&'static str>,
    /// Why the start is refused.
    pub refusal: Option<&'static str>,
}

/// The checks before a wave start: project policy, connection, and the
/// capabilities the mode needs; an explicit trigger makes CAPTURE_FORCE
/// unnecessary.
pub fn check_acquisition_start(wave_start: bool, connected: bool, capabilities: u32, mode: ScopeMode, has_trigger_source: bool)
    -> (r: StartCheck)
    ensures
        r.refusal == start_refusal(wave_start, connected, capabilities, mode, has_trigger_source),
        r.warning == start_warning(wave_start, connected, capabilities, mode),
{
    if !wave_start {
        return StartCheck { warning: None, refusal: Some("Wave start blocked by project safety state") };
    }
    if !connected {
        return StartCheck { warning: None, refusal: Some("Not connected") };
    }
    if capabilities & CAP_NATIVE_BLOCK == 0 {
        return StartCheck { warning: None, refusal: Some("NATIVE_BLOCK capability is not available") };
    }
    let armed = mode == ScopeMode::CaptureArmed;
    if mode == ScopeMode::Stream && capabilities & CAP_SCOPE_STREAM == 0 {
        return StartCheck { warning: None, refusal: Some("SCOPE_STREAM capability is not available") };
    }
    if armed && capabilities & CAP_SCOPE_CAPTURE == 0 {
        return StartCheck { warning: None, refusal: Some("SCOPE_CAPTURE capability is not available") };
    }
    let warning = if armed && capabilities & CAP_PRE_TRIGGER == 0 {
        Some("Device does not declare PRE_TRIGGER capability")
    } else {
        None
    };
    if armed && !has_trigger_source && capabilities & CAP_CAPTURE_FORCE == 0 {
        return StartCheck { warning, refusal: Some("CAPTURE_FORCE capability is not available") };
    }
    StartCheck { warning, refusal: None }
}

/// The descriptors the named variables can bind, in order: for each name,
/// the first descriptor of that name when it is scope-capable.
pub open spec fn scope_candidates(names: Seq<Seq<char>>, ds: Seq<VarDescriptor>) -> Seq<int>
    decreases names.len(),
{
    if names.len() == 0 {
        Seq::empty()
    } else {
        let prev = scope_candidates(names.drop_last(), ds);
        let found = index_named(ds, names.last());
        if found is Some && ds[found->0].kind & KIND_SCOPE != 0 { prev.push(found->0) } else { prev }
    }
}

/// At most `limit` of a sequence, from its start.
pub open spec fn at_most<A>(s: Seq<A>, limit: int) -> Seq<A> {
    if s.len() <= limit { s } else { s.take(limit) }
}

/// The scope binding of the variables a wave shows: the scope-capable
/// descriptors of the names, in order, at most `limit` channels.
pub fn resolve_scope_binding(names: &[String], descriptors: &[VarDescriptor], limit: usize) -> (r: Vec<VarDescriptor>)
    ensures
        r@ == at_most(scope_candidates(names@.map_values(|s: String| s@), descriptors@), limit as int)
            .map_values(|i: int| descriptors@[i]),
{
    let ghost views = names@.map_values(|s: String| s@);
    let mut out: Vec<VarDescriptor> = Vec::new();
    let mut i: usize = 0;
    while i < names.len()
        invariant
            i <= names@.len(),
            views == names@.map_values(|s: String| s@),
            out@ == at_most(scope_candidates(views.take(i as int), descriptors@), limit as int)
                .map_values(|k: int| descriptors@[k]),
            forall|k: int| 0 <= k < scope_candidates(views.take(i as int), descriptors@).len()
                ==> 0 <= #[trigger] scope_candidates(views.take(i as int), descriptors@)[k] < descriptors@.len(),
        decreases names.len() - i,
    {
        let ghost prev = scope_candidates(views.take(i as int), descriptors@);
        proof {
            assert(views.take(i as int + 1).drop_last() =~= views.take(i as int));
            assert(views.take(i as int + 1).last() == names@[i as int]@);
        }
        let found = index_of_name(descriptors, names[i].as_str());
        let ghost cur = scope_candidates(views.take(i as int + 1), descriptors@);
        match found {
            Some(k) => {
                if descriptors[k].kind & KIND_SCOPE != 0 {
                    assert(cur == prev.push(k as int));
                    if out.len() < limit {
                        let d = descriptors[k].clone();
                        let ghost before = out@;
                        out.push(d);
                        proof {
                            assert(prev.len() < limit);
                            assert(at_most(cur, limit as int) =~= cur);
                            assert(at_most(prev, limit as int) =~= prev);
                            assert(out@ =~= at_most(cur, limit as int).map_values(|j: int| descriptors@[j]));
                        }
                    } else {
                        proof {
                            assert(at_most(cur, limit as int) =~= at_most(prev, limit as int));
                        }
                    }
                    proof {
                        assert forall|j: int| 0 <= j < cur.len() implies 0 <= #[trigger] cur[j] < descriptors@.len() by {
                            if j < prev.len() {
                                assert(cur[j] == prev[j]);
                            }
                        }
                    }
                } else {
                    assert(cur == prev);
                }
            },
            None => {
                assert(cur == prev);
            },
        }
        i = i + 1;
    }
    assert(views.take(names@.len() as int) =~= views);
    out
}

/// The channel of the binding that triggers: that of the trigger source,
/// else the first.
pub open spec fn spec_trigger_slot(binding: Seq<VarDescriptor>, trigger_source: Option<String>) -> u16 {
    match trigger_source {
        Some(t) => match index_named(binding, t@) {
            Some(i) => i as u16,
            None => 0,
        },
        None => 0,
    }
}

/// The binding channel of the trigger source, else 0.
pub fn trigger_slot(binding: &[VarDescriptor], trigger_source: &Option<String>) -> (r: u16)
    ensures
        r == spec_trigger_slot(binding@, *trigger_source),
{
    match trigger_source {
        Some(t) => match index_of_name(binding, t.as_str()) {
            Some(i) => i as u16,
            None => 0,
        },
        None => 0,
    }
}

/// Whether the trigger source, if any, is among the bound variables.
pub fn trigger_source_bound(binding: &[VarDescriptor], trigger_source: &Option<String>) -> (r: bool)
    ensures
        r == match trigger_source {
            Some(t) => index_named(binding@, t@) is Some,
            None => true,
        },
{
    match trigger_source {
        Some(t) => index_of_name(binding, t.as_str()).is_some(),
        None => true,
    }
}

/// The configuration that starts (or re-arms) the scope in `mode`.
pub open spec fn spec_scope_config(mode: ScopeMode, binding: Seq<VarDescriptor>, settings: AcquisitionSettings) -> ScopeConfig {
    let armed = mode == ScopeMode::CaptureArmed;
    ScopeConfig {
        mode,
        trigger_slot: spec_trigger_slot(binding, settings.trigger_source),
        trigger_level_bits: settings.trigger_level_bits,
        trigger_hysteresis_bits: settings.trigger_hysteresis_bits,
        trigger_edge: settings.trigger_edge,
        pre_trigger_percent: settings.pre_trigger_percent,
        prescaler: settings.prescaler,
        record_points: if armed { settings.record_points } else { 0 },
        ack_capture_id: NO_CAPTURE_ACK,
        flags: if armed && settings.trigger_source is None { DAQ_FLAG_TRIGGER_DISABLED } else { 0 },
    }
}

/// The scope configuration for `mode` with the effective settings: record
/// points only for a capture, and a capture without trigger source runs
/// with the trigger disabled.
pub fn scope_config(mode: ScopeMode, binding: &[VarDescriptor], settings: &AcquisitionSettings) -> (r: ScopeConfig)
    ensures
        r == spec_scope_config(mode, binding@, *settings),
{
    let armed = mode == ScopeMode::CaptureArmed;
    ScopeConfig {
        mode,
        trigger_slot: trigger_slot(binding, &settings.trigger_source),
        trigger_level_bits: settings.trigger_level_bits,
        trigger_hysteresis_bits: settings.trigger_hysteresis_bits,
        trigger_edge: settings.trigger_edge,
        pre_trigger_percent: settings.pre_trigger_percent,
        prescaler: settings.prescaler,
        record_points: if armed { settings.record_points } else { 0 },
        ack_capture_id: NO_CAPTURE_ACK,
        flags: if armed && settings.trigger_source.is_none() { DAQ_FLAG_TRIGGER_DISABLED } else { 0 },
    }
}

/// A start configuration carries the mode asked for and the trigger
/// settings as the user set them (edge, level, hysteresis, pre-trigger
/// share, prescaler); it triggers on the channel of the trigger source
/// where that is bound, on the first channel otherwise; only a capture
/// records points, and only a capture without trigger source runs with the
/// trigger disabled; it acknowledges no capture.
pub proof fn law_scope_config_follows_settings(mode: ScopeMode, binding: Seq<VarDescriptor>,
    settings: AcquisitionSettings, i: int)
    ensures
        spec_scope_config(mode, binding, settings).mode == mode,
        spec_scope_config(mode, binding, settings).trigger_edge == settings.trigger_edge,
        spec_scope_config(mode, binding, settings).trigger_level_bits == settings.trigger_level_bits,
        spec_scope_config(mode, binding, settings).trigger_hysteresis_bits == settings.trigger_hysteresis_bits,
        spec_scope_config(mode, binding, settings).pre_trigger_percent == settings.pre_trigger_percent,
        spec_scope_config(mode, binding, settings).prescaler == settings.prescaler,
        spec_scope_config(mode, binding, settings).ack_capture_id == NO_CAPTURE_ACK,
        mode == ScopeMode::CaptureArmed ==> spec_scope_config(mode, binding, settings).record_points == settings.record_points,
        mode != ScopeMode::CaptureArmed ==> spec_scope_config(mode, binding, settings).record_points == 0,
        (spec_scope_config(mode, binding, settings).flags == DAQ_FLAG_TRIGGER_DISABLED)
            <==> (mode == ScopeMode::CaptureArmed && settings.trigger_source is None),
        spec_scope_config(mode, binding, settings).flags == 0
            || spec_scope_config(mode, binding, settings).flags == DAQ_FLAG_TRIGGER_DISABLED,
        settings.trigger_source is None ==> spec_scope_config(mode, binding, settings).trigger_slot == 0,
        (settings.trigger_source matches Some(t) && i < 0x10000 && crate::inspector::first_named(binding, t@, i))
            ==> spec_scope_config(mode, binding, settings).trigger_slot == i,
        (settings.trigger_source matches Some(t) && forall|j: int| 0 <= j < binding.len() ==> (#[trigger] binding[j]).name@ != t@)
            ==> spec_scope_config(mode, binding, settings).trigger_slot == 0,
{
    if let Some(t) = settings.trigger_source {
        if exists|k: int| crate::inspector::first_named(binding, t@, k) {
            let k = choose|k: int| crate::inspector::first_named(binding, t@, k);
            assert(binding[k].name@ == t@);
        }
    }
    if settings.trigger_source matches Some(t) && i < 0x10000 && crate::inspector::first_named(binding, t@, i) {
        crate::inspector::lemma_index_named(binding, settings.trigger_source->0@, i);
    }
}

/// The configuration that re-arms a capture and acknowledges the one just
/// received.
pub fn rearm_config(binding: &[VarDescriptor], settings: &AcquisitionSettings, capture_id: u16) -> (r: ScopeConfig)
    ensures
        r == (ScopeConfig { ack_capture_id: capture_id, ..spec_scope_config(ScopeMode::CaptureArmed, binding@, *settings) }),
{
    let mut config = scope_config(ScopeMode::CaptureArmed, binding, settings);
    config.ack_capture_id = capture_id;
    config
}

/// The configuration that stops the scope: mode off, everything zero but
/// the prescaler, no capture acknowledged.
pub open spec fn spec_stop_config(prescaler: u16) -> ScopeConfig {
    ScopeConfig {
        mode: ScopeMode::Off,
        trigger_slot: 0,
        trigger_level_bits: 0,
        trigger_hysteresis_bits: 0,
        trigger_edge: TriggerEdge::Rise,
        pre_trigger_percent: 0,
        prescaler,
        record_points: 0,
        ack_capture_id: NO_CAPTURE_ACK,
        flags: 0,
    }
}

pub fn stop_config(prescaler: u16) -> (r: ScopeConfig)
    ensures
        r == spec_stop_config(prescaler),
        r == (ScopeConfig {
            mode: ScopeMode::Off,
            trigger_slot: 0,
            trigger_level_bits: 0,
            trigger_hysteresis_bits: 0,
            trigger_edge: TriggerEdge::Rise,
            pre_trigger_percent: 0,
            prescaler,
            record_points: 0,
            ack_capture_id: NO_CAPTURE_ACK,
            flags: 0,
        }),
{
    ScopeConfig {
        mode: ScopeMode::Off,
        trigger_slot: 0,
        trigger_level_bits: 0,
        trigger_hysteresis_bits: 0,
        trigger_edge: TriggerEdge::Rise,
        pre_trigger_percent: 0,
        prescaler,
        record_points: 0,
        ack_capture_id: NO_CAPTURE_ACK,
        flags: 0,
    }
}

/// The names of all series of the time-series panes, each once, in order
/// of first appearance.
pub open spec fn first_appearances(names: Seq<Seq<char>>) -> Seq<Seq<char>>
    decreases names.len(),
{
    if names.len() == 0 {
        Seq::empty()
    } else {
        let prev = first_appearances(names.drop_last());
        if prev.contains(names.last()) { prev } else { prev.push(names.last()) }
    }
}

/// The collected names hold every name once: no two are equal, and a name
/// is among them exactly when some pane shows it.
pub proof fn law_first_appearances_unique(names: Seq<Seq<char>>)
    ensures
        forall|i: int, j: int| 0 <= i < j < first_appearances(names).len()
            ==> (#[trigger] first_appearances(names)[i]) != #[trigger] first_appearances(names)[j],
        forall|n: Seq<char>| first_appearances(names).contains(n) <==> names.contains(n),
    decreases names.len(),
{
    if names.len() > 0 {
        let init = names.drop_last();
        law_first_appearances_unique(init);
        let prev = first_appearances(init);
        let cur = first_appearances(names);
        if prev.contains(names.last()) {
            assert(cur == prev);
        } else {
            assert(cur == prev.push(names.last()));
        }
        assert forall|n: Seq<char>| cur.contains(n) <==> names.contains(n) by {
            if names.contains(n) {
                let k = choose|k: int| 0 <= k < names.len() && names[k] == n;
                if k < names.len() - 1 {
                    assert(init[k] == n);
                    assert(init.contains(n));
                    if !prev.contains(names.last()) {
                        let m = choose|m: int| 0 <= m < prev.len() && prev[m] == n;
                        assert(cur[m] == n);
                    }
                } else if prev.contains(names.last()) {
                } else {
                    assert(cur[prev.len() as int] == n);
                }
            }
            if cur.contains(n) {
                let m = choose|m: int| 0 <= m < cur.len() && cur[m] == n;
                if m < prev.len() {
                    assert(cur[m] == prev[m]);
                    assert(prev.contains(n));
                    assert(init.contains(n));
                    let k = choose|k: int| 0 <= k < init.len() && init[k] == n;
                    assert(names[k] == n);
                } else {
                    assert(names[names.len() - 1] == n);
                }
            }
        }
        if !prev.contains(names.last()) {
            assert forall|i: int, j: int| 0 <= i < j < cur.len() implies (#[trigger] cur[i]) != #[trigger] cur[j] by {
                if j == prev.len() {
                    assert(cur[i] == prev[i]);
                    assert(cur[j] == names.last());
                } else {
                    assert(cur[i] == prev[i] && cur[j] == prev[j]);
                }
            }
        }
    }
}

/// All the names of a list of panes, pane after pane.
pub open spec fn all_series(panes: Seq<Seq<Seq<char>>>) -> Seq<Seq<char>>
    decreases panes.len(),
{
    if panes.len() == 0 { Seq::empty() } else { all_series(panes.drop_last()) + panes.last() }
}

fn contains_name(names: &Vec<String>, name: &String) -> (r: bool)
    ensures
        r == names@.map_values(|s: String| s@).contains(name@),
{
    let ghost views = names@.map_values(|s: String| s@);
    let mut i: usize = 0;
    while i < names.len()
        invariant
            i <= names@.len(),
            views == names@.map_values(|s: String| s@),
            forall|j: int| 0 <= j < i ==> views[j] != name@,
        decreases names.len() - i,
    {
        if str_eq(names[i].as_str(), name.as_str()) {
            assert(views[i as int] == name@);
            return true;
        }
        i = i + 1;
    }
    false
}

/// The variables the time-series panes show, each once, in order of first
/// appearance.
pub fn collect_time_series_vars(panes: &[Vec<String>]) -> (r: Vec<String>)
    ensures
        r@.map_values(|s: String| s@) == first_appearances(all_series(panes@.map_values(|p: Vec<String>| p@.map_values(|s: String| s@)))),
{
    let ghost pv = panes@.map_values(|p: Vec<String>| p@.map_values(|s: String| s@));
    let mut names: Vec<String> = Vec::new();
    let mut p: usize = 0;
    while p < panes.len()
        invariant
            p <= panes@.len(),
            pv == panes@.map_values(|q: Vec<String>| q@.map_values(|s: String| s@)),
            names@.map_values(|s: String| s@) == first_appearances(all_series(pv.take(p as int))),
        decreases panes.len() - p,
    {
        let pane = &panes[p];
        let ghost base = all_series(pv.take(p as int));
        let mut k: usize = 0;
        assert(base + pv[p as int].take(0) =~= base);
        while k < pane.len()
            invariant
                k <= pane@.len(),
                p < panes@.len(),
                pane == &panes@[p as int],
                pv == panes@.map_values(|q: Vec<String>| q@.map_values(|s: String| s@)),
                base == all_series(pv.take(p as int)),
                names@.map_values(|s: String| s@) == first_appearances(base + pv[p as int].take(k as int)),
            decreases pane.len() - k,
        {
            let ghost seq_k = base + pv[p as int].take(k as int);
            let ghost seq_k1 = base + pv[p as int].take(k as int + 1);
            proof {
                assert(seq_k1.drop_last() =~= seq_k);
                assert(seq_k1.last() == pane@[k as int]@);
            }
            let ghost before = names@;
            if !contains_name(&names, &pane[k]) {
                names.push(pane[k].clone());
                assert(names@.map_values(|s: String| s@) =~= before.map_values(|s: String| s@).push(pane@[k as int]@));
            }
            k = k + 1;
        }
        proof {
            assert(pv[p as int].take(pane@.len() as int) =~= pv[p as int]);
            assert(pv.take(p as int + 1).drop_last() =~= pv.take(p as int));
        }
        p = p + 1;
    }
    assert(pv.take(panes@.len() as int) =~= pv);
    names
}

/// Why a parameter write is not sent: project policy first, then the
/// connection and its CAL capability.
pub open spec fn write_refusal(calibration_write: bool, connected: bool, has_cal: bool) -> Option<&'static str> {
    if !calibration_write {
        Some("Variable write blocked by project safety state")
    } else if !connected || !has_cal {
        Some("CAL capability is not available")
    } else {
        None
    }
}

/// The largest parameter write batch the firmware stages at once.
pub const PARAM_WRITE_BATCH_MAX: usize = 16;

/// Whether a variable write may be sent, and why not.
pub fn check_variable_write(calibration_write: bool, connected: bool, has_cal: bool) -> (r: Option<&'static str>)
    ensures
        r == write_refusal(calibration_write, connected, has_cal),
{
    if !calibration_write {
        Some("Variable write blocked by project safety state")
    } else if !connected || !has_cal {
        Some("CAL capability is not available")
    } else {
        None
    }
}

/// The error logged when a write batch is larger than the firmware stages.
pub fn write_batch_error(count: usize) -> (r: Option<String>)
    ensures
        count <= PARAM_WRITE_BATCH_MAX ==> r is None,
        count > PARAM_WRITE_BATCH_MAX ==> (r matches Some(m) && m@ == "Parameter commit rejected: "@ + decimal(count as nat)
            + " writes exceed the native batch limit of 16"@),
{
    if count <= PARAM_WRITE_BATCH_MAX {
        return None;
    }
    let mut s = String::new();
    push_str(&mut s, "Parameter commit rejected: ");
    push_decimal(&mut s, count as u64);
    push_str(&mut s, " writes exceed the native batch limit of 16");
    Some(s)
}

/// Consecutive runs of at most `CAL_READ_MAX` reads, covering all of them in order.
pub open spec fn read_chunks(reads: Seq<ValueRead>) -> Seq<Seq<ValueRead>>
    decreases reads.len(),
{
    if reads.len() == 0 {
        Seq::empty()
    } else if reads.len() <= CAL_READ_MAX {
        seq![reads]
    } else {
        seq![reads.take(CAL_READ_MAX as int)] + read_chunks(reads.skip(CAL_READ_MAX as int))
    }
}

/// The runs of a read-back, one after another, are the reads themselves,
/// and none is longer than `CAL_READ_MAX` or empty.
pub proof fn law_read_chunks_cover(reads: Seq<ValueRead>)
    ensures
        read_chunks(reads).flatten() == reads,
        forall|k: int| 0 <= k < read_chunks(reads).len() ==> 0 < (#[trigger] read_chunks(reads)[k]).len() <= CAL_READ_MAX,
    decreases reads.len(),
{
    if reads.len() == 0 {
        assert(read_chunks(reads).flatten() =~= reads);
    } else if reads.len() <= CAL_READ_MAX {
        seq![reads].lemma_flatten_one_element();
    } else {
        let head = reads.take(CAL_READ_MAX as int);
        let tail = reads.skip(CAL_READ_MAX as int);
        law_read_chunks_cover(tail);
        vstd::seq_lib::lemma_flatten_concat(seq![head], read_chunks(tail));
        seq![head].lemma_flatten_one_element();
        assert(head + tail =~= reads);
        let c = read_chunks(reads);
        assert(c == seq![head] + read_chunks(tail));
        assert forall|k: int| 0 <= k < c.len() implies 0 < (#[trigger] c[k]).len() <= CAL_READ_MAX by {
            if k > 0 {
                assert(c[k] == read_chunks(tail)[k - 1]);
            }
        }
    }
}

/// The read-back after a write: the reads in runs of `CAL_READ_MAX`.
pub fn chunk_reads(reads: &[ValueRead]) -> (r: Vec<Vec<ValueRead>>)
    ensures
        r@.map_values(|b: Vec<ValueRead>| b@) == read_chunks(reads@),
{
    let mut out: Vec<Vec<ValueRead>> = Vec::new();
    let mut start: usize = 0;
    assert(reads@.skip(0) =~= reads@);
    while start < reads.len()
        invariant
            start <= reads@.len(),
            out@.map_values(|b: Vec<ValueRead>| b@) + read_chunks(reads@.skip(start as int)) == read_chunks(reads@),
        decreases reads.len() - start,
    {
        let end = if reads.len() - start <= CAL_READ_MAX { reads.len() } else { start + CAL_READ_MAX };
        let mut chunk: Vec<ValueRead> = Vec::new();
        let mut k: usize = start;
        while k < end
            invariant
                start <= k <= end,
                end <= reads@.len(),
                chunk@ == reads@.subrange(start as int, k as int),
            decreases end - k,
        {
            chunk.push(reads[k]);
            assert(chunk@ =~= reads@.subrange(start as int, k as int + 1));
            k = k + 1;
        }
        let ghost s = reads@.skip(start as int);
        proof {
            if s.len() <= CAL_READ_MAX {
                assert(chunk@ =~= s);
                assert(reads@.skip(end as int) =~= Seq::<ValueRead>::empty());
                assert(read_chunks(reads@.skip(end as int)) =~= Seq::<Seq<ValueRead>>::empty());
            } else {
                assert(chunk@ =~= s.take(CAL_READ_MAX as int));
                assert(s.skip(CAL_READ_MAX as int) =~= reads@.skip(end as int));
            }
        }
        let ghost before = out@;
        out.push(chunk);
        assert(out@.map_values(|b: Vec<ValueRead>| b@) =~= before.map_values(|b: Vec<ValueRead>| b@).push(out@.last()@));
        assert(out@.map_values(|b: Vec<ValueRead>| b@) + read_chunks(reads@.skip(end as int))
            =~= before.map_values(|b: Vec<ValueRead>| b@) + read_chunks(s));
        start = end;
    }
    assert(reads@.skip(start as int) =~= Seq::<ValueRead>::empty());
    assert(out@.map_values(|b: Vec<ValueRead>| b@) + read_chunks(Seq::<ValueRead>::empty())
        =~= out@.map_values(|b: Vec<ValueRead>| b@));
    out
}

/// Why a system command is not sent.
pub fn check_system_command(pending: bool, connected: bool, has_system_cmd: bool) -> (r: Option<&'static str>)
    ensures
        r == if pending {
            Some("A system command is already pending")
        } else if !connected {
            Some("Not connected")
        } else if !has_system_cmd {
            Some("SYSTEM_CMD capability is not available")
        } else {
            None::<&'static str>
        },
{
    if pending {
        Some("A system command is already pending")
    } else if !connected {
        Some("Not connected")
    } else if !has_system_cmd {
        Some("SYSTEM_CMD capability is not available")
    } else {
        None
    }
}

/// Why the user system may not start yet: which zeroing is not ready.
pub fn zeroing_start_block_reason(current_ready: bool, abz_ready: bool) -> (r: Option<&'static str>)
    ensures
        r == if !current_ready && !abz_ready {
            Some("Start requires Current Zeroing and ABZ Zeroing ready")
        } else if !current_ready {
            Some("Start requires Current Zeroing ready")
        } else if !abz_ready {
            Some("Start requires ABZ Zeroing ready")
        } else {
            None::<&'static str>
        },
{
    match (current_ready, abz_ready) {
        (false, false) => Some("Start requires Current Zeroing and ABZ Zeroing ready"),
        (false, true) => Some("Start requires Current Zeroing ready"),
        (true, false) => Some("Start requires ABZ Zeroing ready"),
        (true, true) => None,
    }
}

/// The descriptor indexes of the two DC-link voltages to read, each once.
pub fn dc_voltage_read_indexes(dc1: Option<usize>, dc2: Option<usize>) -> (r: Vec<usize>)
    ensures
        r@ == match (dc1, dc2) {
            (Some(a), Some(b)) => if a == b { seq![a] } else { seq![a, b] },
            (Some(a), None) => seq![a],
            (None, Some(b)) => seq![b],
            (None, None) => Seq::<usize>::empty(),
        },
{
    let mut indexes: Vec<usize> = Vec::new();
    if let Some(a) = dc1 {
        indexes.push(a);
    }
    if let Some(b) = dc2 {
        let dup = match dc1 {
            Some(a) => a == b,
            None => false,
        };
        if !dup {
            indexes.push(b);
        }
    }
    assert(indexes@ =~= match (dc1, dc2) {
        (Some(a), Some(b)) => if a == b { seq![a] } else { seq![a, b] },
        (Some(a), None) => seq![a],
        (None, Some(b)) => seq![b],
        (None, None) => Seq::<usize>::empty(),
    });
    indexes
}

/// The names of the bound variables, in channel order.
pub open spec fn bound_names(binding: Seq<VarDescriptor>) -> Seq<Seq<char>> {
    binding.map_values(|d: VarDescriptor| d.name@)
}

/// Why a resolved scope binding cannot start: nothing is bound, or the
/// trigger source is not among the bound variables.
pub fn check_scope_binding(binding: &[VarDescriptor], trigger_source: &Option<String>) -> (r: Option<String>)
    ensures
        binding@.len() == 0 ==> (r matches Some(m) && m@ == "Add scope-capable variables to a Time Series pane first"@),
        binding@.len() > 0 ==> match trigger_source {
            Some(t) => if bound_names(binding@).contains(t@) {
                r is None
            } else {
                r matches Some(m) && m@ == "Trigger source is not in the active scope binding: "@ + t@
            },
            None => r is None,
        },
{
    if binding.len() == 0 {
        let mut m = String::new();
        push_str(&mut m, "Add scope-capable variables to a Time Series pane first");
        return Some(m);
    }
    match trigger_source {
        None => None,
        Some(t) => {
            let mut i: usize = 0;
            while i < binding.len()
                invariant
                    i <= binding@.len(),
                    trigger_source matches Some(x) && x@ == t@,
                    binding@.len() > 0,
                    forall|j: int| 0 <= j < i ==> (#[trigger] binding@[j]).name@ != t@,
                decreases binding.len() - i,
            {
                if str_eq(binding[i].name.as_str(), t.as_str()) {
                    assert(bound_names(binding@).len() == binding@.len());
                    assert(bound_names(binding@)[i as int] == t@);
                    assert(bound_names(binding@).contains(t@));
                    return None;
                }
                i = i + 1;
            }
            assert(!bound_names(binding@).contains(t@)) by {
                if bound_names(binding@).contains(t@) {
                    let k = choose|k: int| 0 <= k < bound_names(binding@).len() && bound_names(binding@)[k] == t@;
                    assert(binding@[k].name@ == t@);
                }
            }
            let mut m = String::new();
            push_str(&mut m, "Trigger source is not in the active scope binding: ");
            push_str(&mut m, t.as_str());
            Some(m)
        },
    }
}

/// "Wave start: <mode>, <n> channel(s)".
pub fn wave_start_text(mode: ScopeMode, channels: usize) -> (r: String)
    ensures
        r@ == "Wave start: "@ + crate::display::spec_mode_name(mode) + ", "@ + decimal(channels as nat) + " channel(s)"@,
{
    let mut s = String::new();
    push_str(&mut s, "Wave start: ");
    push_str(&mut s, crate::display::mode_name(mode));
    push_str(&mut s, ", ");
    push_decimal(&mut s, channels as u64);
    push_str(&mut s, " channel(s)");
    s
}

/// A received capture is re-armed while Wave runs as the project allows on
/// a connected device, with channels bound and no restart pending.
pub fn should_rearm(wave_start_allowed: bool, connected: bool, wave_active: bool, restart_pending: bool, bound_channels: usize)
    -> (r: bool)
    ensures
        r == (wave_start_allowed && connected && wave_active && !restart_pending && bound_channels > 0),
{
    wave_start_allowed && connected && wave_active && !restart_pending && bound_channels > 0
}

/// Why a Wave restart is refused: the project's safety state.
pub fn restart_refusal(wave_start_allowed: bool) -> (r: Option<&'static str>)
    ensures
        r == if wave_start_allowed { None::<&'static str> } else { Some("Wave restart blocked by project safety state") },
{
    if wave_start_allowed { None } else { Some("Wave restart blocked by project safety state") }
}

/// The commands that start a wave acquisition, in order: the scope is
/// switched off, the binding's variables are bound to the channels, and the
/// scope is configured for `mode`.
pub fn wave_start_commands(mode: ScopeMode, binding: &[VarDescriptor], settings: &AcquisitionSettings)
    -> (r: Vec<crate::source::CatalogCommand>)
    ensures
        r@.len() == 3,
        r@[0] == crate::source::CatalogCommand::ConfigureScope(spec_stop_config(settings.prescaler)),
        r@[1] matches crate::source::CatalogCommand::BindChannels { channels }
            && channels@ == binding@.map_values(|d: VarDescriptor| d.var),
        r@[2] == crate::source::CatalogCommand::ConfigureScope(spec_scope_config(mode, binding@, *settings)),
{
    let mut channels: Vec<crate::source::VarRef> = Vec::new();
    let mut i: usize = 0;
    while i < binding.len()
        invariant
            i <= binding@.len(),
            channels@ == binding@.take(i as int).map_values(|d: VarDescriptor| d.var),
        decreases binding.len() - i,
    {
        channels.push(binding[i].var);
        assert(binding@.take(i as int + 1) =~= binding@.take(i as int).push(binding@[i as int]));
        assert(channels@ =~= binding@.take(i as int + 1).map_values(|d: VarDescriptor| d.var));
        i = i + 1;
    }
    assert(binding@.take(binding@.len() as int) =~= binding@);
    let mut commands: Vec<crate::source::CatalogCommand> = Vec::new();
    commands.push(crate::source::CatalogCommand::ConfigureScope(stop_config(settings.prescaler)));
    commands.push(crate::source::CatalogCommand::BindChannels { channels });
    commands.push(crate::source::CatalogCommand::ConfigureScope(scope_config(mode, binding, settings)));
    commands
}


/// The scope binding of the named variables (see `resolve_scope_binding`).
pub open spec fn spec_scope_binding(names: Seq<String>, ds: Seq<VarDescriptor>, limit: usize) -> Seq<VarDescriptor> {
    at_most(scope_candidates(names.map_values(|s: String| s@), ds), limit as int).map_values(|i: int| ds[i])
}

/// Why a resolved binding cannot start, as `check_scope_binding` says.
pub open spec fn binding_refusal(binding: Seq<VarDescriptor>, trigger_source: Option<String>) -> Option<Seq<char>> {
    if binding.len() == 0 {
        Some("Add scope-capable variables to a Time Series pane first"@)
    } else {
        match trigger_source {
            Some(t) => if bound_names(binding).contains(t@) { None } else {
                Some("Trigger source is not in the active scope binding: "@ + t@)
            },
            None => None,
        }
    }
}

/// What a wave start request came to.
#[derive(Debug)]
pub enum WaveStart {
    /// Nothing is sent; `warning` is logged before `reason`.
    Refused { warning: Option<&'static str>, reason: String },
    /// The commands to send, in order, and the line to log after them.
    Started { warning: Option<&'static str>, commands: Vec<crate::source::CatalogCommand>, text: String },
}

/// A wave start in `mode` for the variables of the time-series panes
/// (`names`): the start checks, then the scope binding of the names (at
/// most `limit` channels) and its checks. A refused start sends nothing
/// and leaves the wave as it was; a start keeps the binding as the wave's
/// pending binding and sends the scope off, the channel binding and the
/// start configuration.
pub fn start_wave(
    wave: &mut WaveState,
    mode: ScopeMode,
    wave_start_allowed: bool,
    connected: bool,
    capabilities: u32,
    names: &[String],
    descriptors: &[VarDescriptor],
    limit: usize,
    settings: &AcquisitionSettings,
) -> (r: WaveStart)
    ensures
        ({
            let refusal = start_refusal(wave_start_allowed, connected, capabilities, mode, settings.trigger_source is Some);
            let warning = start_warning(wave_start_allowed, connected, capabilities, mode);
            let binding = spec_scope_binding(names@, descriptors@, limit);
            if refusal is Some {
                r matches WaveStart::Refused { warning: w, reason } && w == warning && reason@ == refusal->0@
            } else if binding_refusal(binding, settings.trigger_source) is Some {
                r matches WaveStart::Refused { warning: w, reason } && w == warning
                    && reason@ == binding_refusal(binding, settings.trigger_source)->0
            } else {
                &&& r matches WaveStart::Started { warning: w, commands, text } && w == warning
                    && commands@.len() == 3
                    && commands@[0] == crate::source::CatalogCommand::ConfigureScope(spec_stop_config(settings.prescaler))
                    && (commands@[1] matches crate::source::CatalogCommand::BindChannels { channels }
                        && channels@ == binding.map_values(|d: VarDescriptor| d.var))
                    && commands@[2] == crate::source::CatalogCommand::ConfigureScope(spec_scope_config(mode, binding, *settings))
                    && text@ == "Wave start: "@ + crate::display::spec_mode_name(mode) + ", "@
                        + decimal(binding.len() as nat) + " channel(s)"@
                &&& final(wave).pending_binding@ == binding
                &&& final(wave).active == old(wave).active
                &&& final(wave).restart_pending == old(wave).restart_pending
            }
        }),
        r is Refused ==> *final(wave) == *old(wave),
{
    let check = check_acquisition_start(wave_start_allowed, connected, capabilities, mode, settings.trigger_source.is_some());
    if let Some(reason) = check.refusal {
        return WaveStart::Refused { warning: check.warning, reason: reason.to_owned() };
    }
    let binding = resolve_scope_binding(names, descriptors, limit);
    if let Some(reason) = check_scope_binding(binding.as_slice(), &settings.trigger_source) {
        return WaveStart::Refused { warning: check.warning, reason };
    }
    let commands = wave_start_commands(mode, binding.as_slice(), settings);
    let text = wave_start_text(mode, binding.len());
    wave.pending_binding = binding;
    WaveStart::Started { warning: check.warning, commands, text }
}

} // verus!
