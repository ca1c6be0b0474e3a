//! Decisions the event loop makes about capture: which blocks belong to the
//! active binding, when a system start or stop drives the wave capture,
//! how captured blocks are ordered on the wrapping tick counter and how a
//! capture window splits around its trigger.

use vstd::prelude::*;
use vstd::multiset::*;
use std::cmp::Ordering;
use crate::source::{DeviceStatus, ScopeBlock, ScopeMode, SystemState, VarDescriptor};
use crate::text::{decimal, push_decimal, push_str};

verus! {

broadcast use vstd::seq_lib::group_to_multiset_ensures;

/// How system start and stop drive the wave capture.
#[derive(Debug, Clone, Copy, PartialEq, Eq)]
pub struct WaveControlSettings {
    /// Arm a capture when a requested system start is seen.
    pub capture_on_system_start: bool,
    /// Stop the capture when the system leaves Running.
    pub stop_on_system_stop: bool,
}

impl Default for WaveControlSettings {
    /// Both follow rules are on.
    fn default() -> (r: Self)
        ensures
            r.capture_on_system_start,
            r.stop_on_system_stop,
    {
        WaveControlSettings { capture_on_system_start: true, stop_on_system_stop: true }
    }
}

/// The acquisition settings the capture decisions read.
#[derive(Debug, Clone, Default, PartialEq, Eq)]
pub struct AcquisitionSettings {
    /// The variable whose crossing triggers a capture; none forces each capture.
    pub trigger_source: Option<String>,
    pub prescaler: u16,
    pub record_points: u16,
    pub pre_trigger_percent: u8,
    /// The bit pattern of the `f32` trigger level.
    pub trigger_level_bits: u32,
    /// The bit pattern of the `f32` trigger hysteresis.
    pub trigger_hysteresis_bits: u32,
    pub trigger_edge: crate::source::TriggerEdge,
}

/// The wave capture as far as the follow rules see it.
#[derive(Debug, Clone, Default)]
pub struct WaveState {
    pub active: bool,
    /// A mode to re-enter once the current binding settles.
    pub restart_pending: Option<ScopeMode>,
    /// Variables waiting to be bound for a capture that is about to start.
    pub pending_binding: Vec<VarDescriptor>,
}

/// A block belongs to the active binding only when its bind sequence is that binding's.
pub fn block_matches_binding(bind_sequence: Option<u16>, block_bind_sequence: u16) -> (r: bool)
    ensures
        r == (bind_sequence == Some(block_bind_sequence)),
{
    match bind_sequence {
        Some(s) => s == block_bind_sequence,
        None => false,
    }
}

pub open spec fn spec_stopped(previous: Option<SystemState>, current: SystemState) -> bool {
    previous == Some(SystemState::Running) && current != SystemState::Running
}

pub open spec fn spec_started(previous: Option<SystemState>, current: SystemState) -> bool {
    current == SystemState::Running && previous != Some(SystemState::Running)
}

/// The system has left Running.
pub fn system_stopped_transition(previous_state: Option<SystemState>, current_state: SystemState) -> (r: bool)
    ensures
        r == spec_stopped(previous_state, current_state),
{
    let was_running = match previous_state {
        Some(p) => p.is_running(),
        None => false,
    };
    was_running && !current_state.is_running()
}

/// The system has entered Running (also when no earlier state is known).
pub fn system_started_transition(previous_state: Option<SystemState>, current_state: SystemState) -> (r: bool)
    ensures
        r == spec_started(previous_state, current_state),
{
    let was_running = match previous_state {
        Some(p) => p.is_running(),
        None => false,
    };
    current_state.is_running() && !was_running
}

/// The wave has something a stop would end: an active capture, a pending
/// restart or a binding about to start.
pub open spec fn spec_has_stop_target(wave: WaveState) -> bool {
    wave.active || wave.restart_pending is Some || wave.pending_binding@.len() > 0
}

/// Whether stopping the wave would end anything.
pub fn wave_has_active_or_pending_stop_target(wave: &WaveState) -> (r: bool)
    ensures
        r == spec_has_stop_target(*wave),
{
    wave.active || wave.restart_pending.is_some() || wave.pending_binding.len() > 0
}

/// A capture follows a requested system start when the setting is on, the
/// system has just started and the wave has nothing running or pending.
pub fn should_capture_on_system_start(
    control: &WaveControlSettings,
    previous_state: Option<SystemState>,
    current_state: SystemState,
    pending_system_start: bool,
    wave: &WaveState,
) -> (r: bool)
    ensures
        r == (control.capture_on_system_start && pending_system_start
            && spec_started(previous_state, current_state) && !spec_has_stop_target(*wave)),
{
    control.capture_on_system_start && pending_system_start
        && system_started_transition(previous_state, current_state)
        && !wave_has_active_or_pending_stop_target(wave)
}

/// The wave stops with the system when the setting is on, the system has
/// just left Running and the wave has something to stop.
pub fn should_stop_on_system_stop(
    control: &WaveControlSettings,
    previous_state: Option<SystemState>,
    current_state: SystemState,
    wave: &WaveState,
) -> (r: bool)
    ensures
        r == (control.stop_on_system_stop && spec_stopped(previous_state, current_state)
            && spec_has_stop_target(*wave)),
{
    control.stop_on_system_stop && system_stopped_transition(previous_state, current_state)
        && wave_has_active_or_pending_stop_target(wave)
}

/// CPU1 restarted between two STATUS reports: both its heartbeat and the tick went back.
pub fn cpu1_status_restarted(previous: &DeviceStatus, current: &DeviceStatus) -> (r: bool)
    ensures
        r == (current.cpu1_heartbeat < previous.cpu1_heartbeat && current.tick < previous.tick),
{
    current.cpu1_heartbeat < previous.cpu1_heartbeat && current.tick < previous.tick
}

/// An armed capture without a trigger source is forced.
pub fn should_force_capture(mode: ScopeMode, settings: &AcquisitionSettings) -> (r: bool)
    ensures
        r == (mode == ScopeMode::CaptureArmed && settings.trigger_source is None),
{
    mode == ScopeMode::CaptureArmed && settings.trigger_source.is_none()
}

/// The share of `record_points` taken before the trigger: the percentage
/// (at most 100) rounded down, but always leaving at least one sample after
/// the trigger when there are samples at all.
pub open spec fn spec_pre_samples(record_points: int, pre_trigger_percent: int) -> int {
    let pct = if pre_trigger_percent > 100 { 100 } else { pre_trigger_percent };
    let pre = record_points * pct / 100;
    if record_points - pre <= 0 {
        if record_points > 0 { record_points - 1 } else { 0 }
    } else {
        pre
    }
}

/// Splits a capture window around its trigger.
pub fn capture_pre_samples(record_points: usize, pre_trigger_percent: u8) -> (r: usize)
    requires
        record_points * 100 <= usize::MAX,
    ensures
        r == spec_pre_samples(record_points as int, pre_trigger_percent as int),
{
    let pct: usize = if pre_trigger_percent > 100 { 100 } else { pre_trigger_percent as usize };
    assert(record_points * pct <= record_points * 100) by (nonlinear_arith)
        requires pct <= 100;
    let pre = record_points * pct / 100;
    assert(pre <= record_points) by (nonlinear_arith)
        requires pre == record_points * pct / 100, pct <= 100;
    let post = record_points.saturating_sub(pre);
    if post == 0 {
        record_points.saturating_sub(1)
    } else {
        pre
    }
}

/// A capture window of `record_points` samples keeps a sample after its
/// trigger: fewer than all of them come before it.
pub proof fn law_pre_samples_leave_post_trigger_sample(record_points: int, pre_trigger_percent: int)
    requires
        record_points > 0,
        0 <= pre_trigger_percent,
    ensures
        0 <= spec_pre_samples(record_points, pre_trigger_percent) < record_points,
{
    let pct = if pre_trigger_percent > 100 { 100 } else { pre_trigger_percent };
    assert(record_points * pct / 100 <= record_points) by (nonlinear_arith)
        requires 0 <= pct <= 100, record_points > 0;
    assert(record_points * pct / 100 >= 0) by (nonlinear_arith)
        requires 0 <= pct <= 100, record_points > 0;
}

/// A system start and a system stop are never seen on the same report, so
/// a capture that follows a start is never stopped by the same report:
/// the two follow rules never fire together.
pub proof fn law_follow_rules_exclusive(control: WaveControlSettings, previous: Option<SystemState>,
    current: SystemState, pending_start: bool, wave: WaveState)
    ensures
        !(spec_started(previous, current) && spec_stopped(previous, current)),
        !((control.capture_on_system_start && pending_start && spec_started(previous, current)
            && !spec_has_stop_target(wave))
          && (control.stop_on_system_stop && spec_stopped(previous, current) && spec_has_stop_target(wave))),
{
}

/// `left - right` on the wrapping 32-bit tick counter.
pub open spec fn tick_diff(left: u32, right: u32) -> int {
    if left >= right { left - right } else { left - right + 0x1_0000_0000 }
}

/// `left` comes before `right` on the wrapping tick counter: the wrapped
/// difference is negative as a 32-bit signed number.
pub open spec fn tick_before(left: u32, right: u32) -> bool {
    tick_diff(left, right) >= 0x8000_0000
}

/// `left` comes strictly before `right`: ahead by less than half the counter.
pub open spec fn tick_strictly_before(left: u32, right: u32) -> bool {
    tick_diff(left, right) > 0x8000_0000
}

/// Orders two ticks on the wrapping counter by the sign of their wrapped difference.
pub fn compare_wrapped_tick(left: u32, right: u32) -> (r: Ordering)
    ensures
        (r == Ordering::Less) == tick_before(left, right),
        (r == Ordering::Equal) == (left == right),
        (r == Ordering::Greater) == (!tick_before(left, right) && left != right),
{
    let d = left.wrapping_sub(right);
    if d == 0 {
        Ordering::Equal
    } else if d >= 0x8000_0000 {
        Ordering::Less
    } else {
        Ordering::Greater
    }
}

fn strictly_before(left: u32, right: u32) -> (r: bool)
    ensures
        r == tick_strictly_before(left, right),
{
    left.wrapping_sub(right) > 0x8000_0000
}

/// Blocks in tick order: no block starts strictly before the one ahead of it.
pub open spec fn blocks_in_tick_order(s: Seq<ScopeBlock>) -> bool {
    forall|i: int| 0 < i < s.len() ==> !tick_strictly_before(#[trigger] s[i].start_tick, s[i - 1].start_tick)
}

/// Sorts blocks by start tick on the wrapping counter, keeping the order of
/// blocks with equal ticks. The result holds the same blocks.
pub fn sort_blocks_by_start_tick(blocks: &mut Vec<ScopeBlock>)
    ensures
        final(blocks)@.to_multiset() == old(blocks)@.to_multiset(),
        blocks_in_tick_order(final(blocks)@),
{
    let mut rest: Vec<ScopeBlock> = Vec::new();
    std::mem::swap(&mut rest, blocks);
    let ghost original = rest@;
    let mut sorted: Vec<ScopeBlock> = Vec::new();
    while rest.len() > 0
        invariant
            sorted@.to_multiset().add(rest@.to_multiset()) == original.to_multiset(),
            blocks_in_tick_order(sorted@),
        decreases rest.len(),
    {
        let ghost before_rest = rest@;
        let block = rest.remove(0);
        proof {
            assert(before_rest.remove(0).to_multiset() == before_rest.to_multiset().remove(block));
            assert(before_rest.to_multiset().count(block) > 0) by {
                assert(before_rest[0] == block);
                assert(before_rest.contains(block));
            }
        }
        let tick = block.start_tick;
        let mut j = sorted.len();
        while j > 0 && strictly_before(tick, sorted[j - 1].start_tick)
            invariant
                j <= sorted.len(),
                forall|k: int| j <= k < sorted.len() ==> tick_strictly_before(tick, #[trigger] sorted@[k].start_tick),
            decreases j,
        {
            j = j - 1;
        }
        let ghost prev = sorted@;
        assert(forall|k: int| j <= k < prev.len() ==> tick_strictly_before(tick, #[trigger] prev[k].start_tick));
        assert(j == 0 || !tick_strictly_before(tick, prev[j - 1].start_tick));
        sorted.insert(j, block);
        proof {
            assert(sorted@ == prev.insert(j as int, block));
            assert(prev.insert(j as int, block).to_multiset() == prev.to_multiset().insert(block));
            assert forall|i: int| 0 < i < sorted@.len() implies
                !tick_strictly_before(#[trigger] sorted@[i].start_tick, sorted@[i - 1].start_tick) by {
                if i < j {
                    assert(sorted@[i] == prev[i] && sorted@[i - 1] == prev[i - 1]);
                } else if i == j {
                    assert(sorted@[i] == block && sorted@[i - 1] == prev[i - 1]);
                } else if i == j + 1 {
                    assert(sorted@[i] == prev[j as int] && sorted@[i - 1] == block);
                    assert(tick_strictly_before(tick, prev[j as int].start_tick));
                } else {
                    assert(sorted@[i] == prev[i - 1] && sorted@[i - 1] == prev[i - 2]);
                }
            }
        }
    }
    *blocks = sorted;
}

/// The octets of one sample row of a binding: the widths of its variables.
pub open spec fn binding_stride(binding: Seq<VarDescriptor>) -> int
    decreases binding.len(),
{
    if binding.len() == 0 { 0 } else { binding_stride(binding.drop_last()) + binding.last().var.ty.spec_width() }
}

proof fn lemma_binding_stride_bound(binding: Seq<VarDescriptor>)
    ensures
        0 <= binding_stride(binding) <= 4 * binding.len(),
    decreases binding.len(),
{
    if binding.len() > 0 {
        lemma_binding_stride_bound(binding.drop_last());
    }
}

/// The row width a binding's blocks must have.
pub fn capture_row_stride(binding: &[VarDescriptor]) -> (r: usize)
    requires
        4 * binding@.len() <= usize::MAX,
    ensures
        r == binding_stride(binding@),
{
    let mut total: usize = 0;
    let mut i: usize = 0;
    while i < binding.len()
        invariant
            i <= binding@.len(),
            4 * binding@.len() <= usize::MAX,
            total == binding_stride(binding@.take(i as int)),
        decreases binding.len() - i,
    {
        proof {
            assert(binding@.take(i as int + 1).drop_last() =~= binding@.take(i as int));
            lemma_binding_stride_bound(binding@.take(i as int));
        }
        total = total + binding[i].var.ty.wire_width();
        i = i + 1;
    }
    assert(binding@.take(binding@.len() as int) =~= binding@);
    total
}

/// The tick of sample `k` of a block: `k` prescaled steps after its start
/// on the wrapping 32-bit counter.
pub open spec fn sample_tick(start: u32, step: u32, k: int) -> u32 {
    ((start as int + k * step) % 0x1_0000_0000) as u32
}

/// The ticks of a block's samples.
pub open spec fn block_ticks(b: ScopeBlock, step: u32) -> Seq<u32> {
    Seq::new(b.sample_count as nat, |k: int| sample_tick(b.start_tick, step, k))
}

/// The sample ticks of captured blocks checked against the binding: each
/// block must carry one channel per bound variable, the binding's row width
/// and exactly that many octets per sample; the first block that does not
/// gives the error.
pub open spec fn spec_row_ticks(blocks: Seq<ScopeBlock>, channels: int, stride: int, step: u32) -> Result<Seq<u32>, &'static str>
    decreases blocks.len(),
{
    if blocks.len() == 0 {
        Ok(Seq::empty())
    } else {
        match spec_row_ticks(blocks.drop_last(), channels, stride, step) {
            Err(e) => Err(e),
            Ok(prev) => {
                let b = blocks.last();
                if channels != b.channel_count as int {
                    Err("block channel count does not match active binding")
                } else if stride != b.stride_octets as int {
                    Err("block stride does not match active binding")
                } else if b.samples@.len() != stride * b.sample_count {
                    Err("block payload length is invalid")
                } else {
                    Ok(prev + block_ticks(b, step))
                }
            },
        }
    }
}

/// The tick of every sample row of a capture, block after block, with the
/// blocks checked against the binding (`channels` variables of row width
/// `stride`); the prescaler is the tick step (at least 1).
pub fn capture_row_ticks(blocks: &[ScopeBlock], channels: usize, stride: usize, prescaler: u16) -> (r: Result<Vec<u32>, &'static str>)
    ensures
        match spec_row_ticks(blocks@, channels as int, stride as int, if prescaler == 0 { 1u32 } else { prescaler as u32 }) {
            Ok(t) => r matches Ok(v) && v@ == t,
            Err(e) => r == Err::<Vec<u32>, &'static str>(e),
        },
{
    let step: u32 = if prescaler == 0 { 1 } else { prescaler as u32 };
    let mut ticks: Vec<u32> = Vec::new();
    let mut i: usize = 0;
    while i < blocks.len()
        invariant
            i <= blocks@.len(),
            step == if prescaler == 0 { 1u32 } else { prescaler as u32 },
            spec_row_ticks(blocks@.take(i as int), channels as int, stride as int, step) == Ok::<Seq<u32>, &'static str>(ticks@),
        decreases blocks.len() - i,
    {
        let block = &blocks[i];
        proof {
            assert(blocks@.take(i as int + 1).drop_last() =~= blocks@.take(i as int));
            assert(blocks@.take(i as int + 1).last() == blocks@[i as int]);
        }
        if channels != block.channel_count as usize {
            proof { lemma_row_ticks_err(blocks@, i as int, channels as int, stride as int, step); }
            return Err("block channel count does not match active binding");
        }
        if stride != block.stride_octets as usize {
            proof { lemma_row_ticks_err(blocks@, i as int, channels as int, stride as int, step); }
            return Err("block stride does not match active binding");
        }
        let count = block.sample_count as usize;
        assert(stride * count <= 0xFFFF * 0xFFFF) by (nonlinear_arith)
            requires stride <= 0xFFFF, count <= 0xFFFF;
        if block.samples.len() != stride * count {
            proof { lemma_row_ticks_err(blocks@, i as int, channels as int, stride as int, step); }
            return Err("block payload length is invalid");
        }
        let ghost before = ticks@;
        let mut k: usize = 0;
        while k < count
            invariant
                k <= count,
                count == block.sample_count,
                ticks@ == before + Seq::new(k as nat, |j: int| sample_tick(block.start_tick, step, j)),
            decreases count - k,
        {
            let offset = (k as u32).wrapping_mul(step);
            let tick = block.start_tick.wrapping_add(offset);
            proof {
                assert(offset as int == (k as int * step) % 0x1_0000_0000);
                vstd::arithmetic::div_mod::lemma_add_mod_noop_right(block.start_tick as int, k as int * step, 0x1_0000_0000);
                assert(tick == sample_tick(block.start_tick, step, k as int));
            }
            ticks.push(tick);
            assert(ticks@ =~= before + Seq::new(k as nat + 1, |j: int| sample_tick(block.start_tick, step, j)));
            k = k + 1;
        }
        assert(Seq::new(count as nat, |j: int| sample_tick(block.start_tick, step, j)) =~= block_ticks(*block, step));
        i = i + 1;
    }
    assert(blocks@.take(blocks@.len() as int) =~= blocks@);
    Ok(ticks)
}

proof fn lemma_row_ticks_err(blocks: Seq<ScopeBlock>, i: int, channels: int, stride: int, step: u32)
    requires
        0 <= i < blocks.len(),
        spec_row_ticks(blocks.take(i), channels, stride, step) is Ok,
        spec_row_ticks(blocks.take(i + 1), channels, stride, step) is Err,
    ensures
        spec_row_ticks(blocks, channels, stride, step) == spec_row_ticks(blocks.take(i + 1), channels, stride, step),
    decreases blocks.len() - i,
{
    if i + 1 < blocks.len() {
        lemma_row_ticks_err_prefix(blocks, i + 1, blocks.len() as int, channels, stride, step);
        assert(blocks.take(blocks.len() as int) =~= blocks);
    } else {
        assert(blocks.take(i + 1) =~= blocks);
    }
}

proof fn lemma_row_ticks_err_prefix(blocks: Seq<ScopeBlock>, a: int, b: int, channels: int, stride: int, step: u32)
    requires
        0 < a <= b <= blocks.len(),
        spec_row_ticks(blocks.take(a), channels, stride, step) is Err,
    ensures
        spec_row_ticks(blocks.take(b), channels, stride, step) == spec_row_ticks(blocks.take(a), channels, stride, step),
    decreases b - a,
{
    if a < b {
        lemma_row_ticks_err_prefix(blocks, a, b - 1, channels, stride, step);
        assert(blocks.take(b).drop_last() =~= blocks.take(b - 1));
    }
}

/// `i` is the first row whose tick is the trigger tick.
pub open spec fn first_trigger_row(ticks: Seq<u32>, trigger_tick: u32, i: int) -> bool {
    &&& 0 <= i < ticks.len()
    &&& ticks[i] == trigger_tick
    &&& forall|j: int| 0 <= j < i ==> ticks[j] != trigger_tick
}

/// The rows of a capture frame to show: the requested number of points
/// with the configured share before the first row at the trigger tick,
/// or why the frame cannot give them.
pub open spec fn spec_capture_window(ticks: Seq<u32>, trigger_tick: u32, record_points: u16, pre_trigger_percent: u8)
    -> Result<(int, int), Seq<char>>
{
    if !exists|i: int| first_trigger_row(ticks, trigger_tick, i) {
        Err("capture trigger tick was not present in drained blocks"@)
    } else if record_points == 0 {
        Err("capture record point count is zero"@)
    } else {
        let t = choose|i: int| first_trigger_row(ticks, trigger_tick, i);
        let pre = spec_pre_samples(record_points as int, pre_trigger_percent as int);
        if t < pre {
            Err("capture frame has only "@ + decimal(t as nat) + " pre-trigger sample(s), expected "@ + decimal(pre as nat))
        } else if t - pre + record_points > ticks.len() {
            Err("capture frame has "@ + decimal((ticks.len() - (t - pre)) as nat) + " sample(s) after trimming start, expected "@
                + decimal(record_points as nat))
        } else {
            Ok((t - pre, t - pre + record_points))
        }
    }
}

/// The window of rows (start, end) a capture frame shows around its trigger.
pub fn capture_window(ticks: &[u32], trigger_tick: u32, record_points: u16, pre_trigger_percent: u8)
    -> (r: Result<(usize, usize), String>)
    ensures
        match spec_capture_window(ticks@, trigger_tick, record_points, pre_trigger_percent) {
            Ok((a, b)) => r matches Ok((x, y)) && x == a && y == b,
            Err(m) => r matches Err(e) && e@ == m,
        },
{
    let mut t: usize = 0;
    while t < ticks.len() && ticks[t] != trigger_tick
        invariant
            t <= ticks@.len(),
            forall|j: int| 0 <= j < t ==> ticks@[j] != trigger_tick,
        decreases ticks.len() - t,
    {
        t = t + 1;
    }
    if t == ticks.len() {
        assert(!exists|i: int| first_trigger_row(ticks@, trigger_tick, i)) by {
            if exists|i: int| first_trigger_row(ticks@, trigger_tick, i) {
                let i = choose|i: int| first_trigger_row(ticks@, trigger_tick, i);
                assert(ticks@[i] != trigger_tick);
            }
        }
        return Err("capture trigger tick was not present in drained blocks".to_owned());
    }
    proof {
        assert(first_trigger_row(ticks@, trigger_tick, t as int));
        let c = choose|i: int| first_trigger_row(ticks@, trigger_tick, i);
        assert(first_trigger_row(ticks@, trigger_tick, c));
        if c < t {
            assert(ticks@[c] != trigger_tick);
        } else if t < c {
            assert(ticks@[t as int] != trigger_tick);
        }
    }
    if record_points == 0 {
        return Err("capture record point count is zero".to_owned());
    }
    let requested = record_points as usize;
    let pre = capture_pre_samples(requested, pre_trigger_percent);
    if t < pre {
        let mut m = String::new();
        push_str(&mut m, "capture frame has only ");
        push_decimal(&mut m, t as u64);
        push_str(&mut m, " pre-trigger sample(s), expected ");
        push_decimal(&mut m, pre as u64);
        return Err(m);
    }
    let start = t - pre;
    if requested > ticks.len() - start {
        let mut m = String::new();
        push_str(&mut m, "capture frame has ");
        push_decimal(&mut m, (ticks.len() - start) as u64);
        push_str(&mut m, " sample(s) after trimming start, expected ");
        push_decimal(&mut m, requested as u64);
        return Err(m);
    }
    Ok((start, start + requested))
}

/// The rows a drained capture frame shows.
#[derive(Debug, Clone, PartialEq, Eq)]
pub struct CaptureFrameRows {
    /// The tick of every sample row, blocks in tick order.
    pub ticks: Vec<u32>,
    /// The first row shown.
    pub start: usize,
    /// The row after the last one shown.
    pub end: usize,
    /// Why the whole frame is shown instead of the requested window.
    pub warning: Option<String>,
}

/// How a drained capture frame is shown.
#[derive(Debug, Clone, PartialEq, Eq)]
pub enum CaptureFrame {
    /// As rows of the binding, in tick order.
    Rows(CaptureFrameRows),
    /// The blocks do not decode as rows of the binding: the warning is
    /// logged and the blocks are shown one by one, in tick order, each as
    /// far as it decodes on its own.
    BlockByBlock { warning: String },
}

/// The rows a drained capture frame shows: its blocks are put in tick
/// order, the tick of every sample row is worked out against the binding,
/// and the window of the requested record points around the trigger is
/// chosen; where no such window exists, the whole frame is shown with the
/// reason as a warning. The sample values of the rows are decoded by the
/// caller. Where the blocks do not all match the binding, the frame is
/// shown block by block after a warning that says why.
pub fn capture_frame_rows(blocks: &mut Vec<ScopeBlock>, binding: &[VarDescriptor], settings: &AcquisitionSettings,
    trigger_tick: u32) -> (r: CaptureFrame)
    requires
        4 * binding@.len() <= usize::MAX,
    ensures
        final(blocks)@.to_multiset() == old(blocks)@.to_multiset(),
        blocks_in_tick_order(final(blocks)@),
        match spec_row_ticks(final(blocks)@, binding@.len() as int, binding_stride(binding@),
            if settings.prescaler == 0 { 1u32 } else { settings.prescaler as u32 }) {
            Err(e) => r matches CaptureFrame::BlockByBlock { warning } && warning@ == e@,
            Ok(t) => r matches CaptureFrame::Rows(rows) && rows.ticks@ == t
                && match spec_capture_window(t, trigger_tick, settings.record_points, settings.pre_trigger_percent) {
                    Ok((a, b)) => rows.start == a && rows.end == b && rows.warning is None,
                    Err(m) => rows.start == 0 && rows.end == t.len() && (rows.warning matches Some(w) && w@ == m),
                },
        },
{
    sort_blocks_by_start_tick(blocks);
    let stride = capture_row_stride(binding);
    let ticks = match capture_row_ticks(blocks.as_slice(), binding.len(), stride, settings.prescaler) {
        Ok(t) => t,
        Err(e) => {
            let mut warning = String::new();
            crate::text::push_str(&mut warning, e);
            return CaptureFrame::BlockByBlock { warning };
        },
    };
    match capture_window(ticks.as_slice(), trigger_tick, settings.record_points, settings.pre_trigger_percent) {
        Ok((a, b)) => CaptureFrame::Rows(CaptureFrameRows { ticks, start: a, end: b, warning: None }),
        Err(e) => {
            let n = ticks.len();
            CaptureFrame::Rows(CaptureFrameRows { ticks, start: 0, end: n, warning: Some(e) })
        },
    }
}

} // verus!
