//! The decisions of a device session: what each pushed frame changes and
//! reports, how captures are gathered, when an enumeration or a refreshed
//! identity is consistent, and how a request that got no answer fails.
//! The transport itself is driven by the caller.

use vstd::prelude::*;
use vstd::string::*;
use crate::codec::{
    cal_read_request, cal_write_request, get_u16, hello_fields_match, daq_bind_request, daq_control_request, descriptor_view, enum_request, get_u32,
    parse_ack, parse_block_batch, parse_cal_values, parse_capture_batch, parse_descriptors, parse_hello, parse_status,
    spec_daq_control, spec_parse_descriptors, spec_scope_blocks, var_records, write_records, Ack, BlockBatch, CaptureBatch, CodecError, Frame,
    MSG_CAL_COMMIT, MSG_CAL_READ, MSG_CAL_WRITE, MSG_CAPTURE_BATCH_PUSH, MSG_DAQ_BIND, MSG_DAQ_CONTROL,
    MSG_SCOPE_BLOCK_PUSH, MSG_STATUS_PUSH, MSG_SYSTEM_COMMAND, VERSION_MAGIC, le16,
};
use crate::codec::block_view;
use crate::session::{
    filed_slots, require_ack, spec_ack_error_message, spec_capture_error_message, spec_device_info_error_message, spec_validate_device_info, validate_device_info, AckError, CaptureAssembly, CaptureError, MAX_RETRIES, first_empty_from, empty_run, CAPTURE_REPLAY_IDLE_DELAY_MS, CAPTURE_REPLAY_MAX_BLOCKS,
    DeviceInfoError,
};
use crate::source::{
    CatalogCommand, DeviceInfo, DeviceStatus, ParamWrite, ScopeBlock, ScopeMode, SourceEvent, SystemCommand, ValueRead,
    VarDescriptor, VarRef,
};
use crate::text::{decimal, hex_fixed, push_decimal, push_hex, push_str};

verus! {

/// What a session remembers between frames.
pub struct LinkState {
    pub next_sequence: u16,
    pub info: DeviceInfo,
    pub scope_active: bool,
    pub expected_block_sequence: Option<u16>,
    pub expected_push_sequence: Option<u16>,
    pub active_bind_sequence: Option<u16>,
    pub capture: Option<CaptureAssembly>,
    pub completed_capture_id: Option<u16>,
    pub pending_build_hash: Option<u32>,
}

/// The device identity before HELLO has been answered.
pub fn unknown_device() -> (r: DeviceInfo)
    ensures
        r.protocol_version == 0,
        r.build_hash == 0,
        r.descriptor_count == 0,
        r.capabilities == 0,
{
    DeviceInfo {
        protocol_version: 0,
        contract_version: 0,
        build_hash: 0,
        descriptor_count: 0,
        firmware_name: String::new(),
        tick_hz: 0,
        capabilities: 0,
        project_name: String::new(),
        build_time_utc: 0,
        mcu_model: 0,
        scope_max_ch: 0,
        scope_block_ticks: 0,
        scope_ring_words: 0,
    }
}

/// The sequence number after `s`, wrapping.
pub open spec fn next_seq(s: u16) -> u16 {
    if s == 0xFFFF { 0 } else { (s + 1) as u16 }
}

impl LinkState {
    /// Any capture being gathered is well formed.
    pub open spec fn wf(&self) -> bool {
        self.capture matches Some(c) ==> c.wf()
    }

    /// A fresh session: sequence 1, identity unknown, nothing expected.
    pub fn new() -> (r: Self)
        ensures
            r.wf(),
            r.next_sequence == 1,
            r.info.protocol_version == 0,
            !r.scope_active,
            r.expected_block_sequence is None,
            r.expected_push_sequence is None,
            r.active_bind_sequence is None,
            r.capture is None,
            r.completed_capture_id is None,
            r.pending_build_hash is None,
    {
        LinkState {
            next_sequence: 1,
            info: unknown_device(),
            scope_active: false,
            expected_block_sequence: None,
            expected_push_sequence: None,
            active_bind_sequence: None,
            capture: None,
            completed_capture_id: None,
            pending_build_hash: None,
        }
    }

    /// The sequence number for the next request; the counter advances, wrapping.
    pub fn take_sequence(&mut self) -> (r: u16)
        ensures
            r == old(self).next_sequence,
            final(self).next_sequence == next_seq(old(self).next_sequence),
            final(self).scope_active == old(self).scope_active,
            final(self).capture == old(self).capture,
            final(self).pending_build_hash == old(self).pending_build_hash,
    {
        let r = self.next_sequence;
        self.next_sequence = self.next_sequence.wrapping_add(1);
        r
    }

    /// A frozen capture reported by STATUS starts (or refreshes) the
    /// assembly of that capture, unless the scope is off, the capture is
    /// empty or it was already completed.
    pub fn update_capture_from_status(&mut self, status: &DeviceStatus, now_ms: u64)
        requires
            old(self).wf(),
        ensures
            final(self).wf(),
            final(self).scope_active == old(self).scope_active,
            final(self).completed_capture_id == old(self).completed_capture_id,
            final(self).pending_build_hash == old(self).pending_build_hash,
            final(self).next_sequence == old(self).next_sequence,
            final(self).expected_block_sequence == old(self).expected_block_sequence,
            final(self).expected_push_sequence == old(self).expected_push_sequence,
            final(self).active_bind_sequence == old(self).active_bind_sequence,
            ({
                let ignored = !old(self).scope_active || status.scope_mode != ScopeMode::CaptureFrozen
                    || status.scope_frozen_count == 0
                    || old(self).completed_capture_id == Some(status.scope_state_seq);
                if ignored {
                    final(self).capture == old(self).capture
                } else if old(self).capture is Some && old(self).capture->0.capture_id == status.scope_state_seq {
                    final(self).capture matches Some(n) && n.capture_id == old(self).capture->0.capture_id
                        && n.trigger_tick == status.scope_trigger_tick
                        && n.bind_sequence == Some(status.scope_bind_seq)
                        && n.slots() == old(self).capture->0.slots()
                        && n.total_blocks == old(self).capture->0.total_blocks
                        && n.last_progress_ms == old(self).capture->0.last_progress_ms
                } else {
                    final(self).capture matches Some(n) && n.capture_id == status.scope_state_seq
                        && n.total_blocks == status.scope_frozen_count
                        && n.trigger_tick == status.scope_trigger_tick
                        && n.bind_sequence == Some(status.scope_bind_seq)
                        && n.last_progress_ms == now_ms
                        && (forall|j: int| 0 <= j < n.slots().len() ==> (#[trigger] n.slots()[j]) is None)
                        && n.slots().len() == status.scope_frozen_count
                }
            }),
    {
        if !self.scope_active {
            return;
        }
        if status.scope_mode != ScopeMode::CaptureFrozen || status.scope_frozen_count == 0 {
            return;
        }
        if let Some(done) = self.completed_capture_id {
            if done == status.scope_state_seq {
                return;
            }
        }
        let bind_sequence = Some(status.scope_bind_seq);
        let reuse = match &self.capture {
            Some(c) => c.capture_id == status.scope_state_seq,
            None => false,
        };
        if reuse {
            let mut c = self.capture.take().unwrap();
            c.update_metadata(status.scope_trigger_tick, bind_sequence);
            self.capture = Some(c);
        } else {
            self.capture = Some(CaptureAssembly::new(
                status.scope_state_seq,
                status.scope_frozen_count,
                status.scope_trigger_tick,
                bind_sequence,
                now_ms,
            ));
        }
    }

    /// A STATUS report: a build hash that differs from the connected
    /// firmware's (with no refresh pending yet) stops the scope state and
    /// asks for a refresh of the identity; then a frozen capture may be
    /// picked up. The report is passed on.
    pub fn handle_status(&mut self, status: DeviceStatus, now_ms: u64) -> (r: SourceEvent)
        requires
            old(self).wf(),
        ensures
            final(self).wf(),
            r == SourceEvent::Status(status),
            final(self).next_sequence == old(self).next_sequence,
            final(self).active_bind_sequence == old(self).active_bind_sequence,
            (status.build_hash != old(self).info.build_hash && old(self).pending_build_hash is None) ==> {
                &&& final(self).pending_build_hash == Some(status.build_hash)
                &&& !final(self).scope_active
                &&& final(self).expected_block_sequence is None
                &&& final(self).expected_push_sequence is None
                &&& final(self).capture is None
                &&& final(self).completed_capture_id is None
            },
            !(status.build_hash != old(self).info.build_hash && old(self).pending_build_hash is None) ==> {
                &&& final(self).pending_build_hash == old(self).pending_build_hash
                &&& final(self).scope_active == old(self).scope_active
                &&& final(self).expected_block_sequence == old(self).expected_block_sequence
                &&& final(self).expected_push_sequence == old(self).expected_push_sequence
                &&& final(self).completed_capture_id == old(self).completed_capture_id
            },
    {
        let refresh = status.build_hash != self.info.build_hash && self.pending_build_hash.is_none();
        if refresh {
            self.scope_active = false;
            self.expected_block_sequence = None;
            self.expected_push_sequence = None;
            self.capture = None;
            self.completed_capture_id = None;
            self.pending_build_hash = Some(status.build_hash);
        }
        self.update_capture_from_status(&status, now_ms);
        SourceEvent::Status(status)
    }
}

/// The gaps in a run of block sequence numbers: each block whose number is
/// not the one expected after the previous block (or after `expected`),
/// as (expected, received).
pub open spec fn gaps_from(expected: Option<u16>, seqs: Seq<u16>) -> Seq<(u16, u16)>
    decreases seqs.len(),
{
    if seqs.len() == 0 {
        Seq::empty()
    } else {
        let here = if expected is Some && expected->0 != seqs[0] { seq![(expected->0, seqs[0])] } else { Seq::empty() };
        here + gaps_from(Some(next_seq(seqs[0])), seqs.drop_first())
    }
}

/// The block number expected after a run.
pub open spec fn expected_after(expected: Option<u16>, seqs: Seq<u16>) -> Option<u16> {
    if seqs.len() == 0 { expected } else { Some(next_seq(seqs.last())) }
}

pub open spec fn block_numbers(blocks: Seq<ScopeBlock>) -> Seq<u16> {
    blocks.map_values(|b: ScopeBlock| b.block_seq)
}

/// The events of a streamed batch: its gaps, the producer overruns when
/// there were any, then the blocks when there are any.
pub open spec fn stream_events_ok(r: Seq<SourceEvent>, gaps: Seq<(u16, u16)>, overruns: u16, blocks: Seq<ScopeBlock>) -> bool {
    let g = gaps.len() as int;
    let o = if overruns != 0 { 1int } else { 0int };
    let b = if blocks.len() > 0 { 1int } else { 0int };
    &&& r.len() == g + o + b
    &&& forall|k: int| 0 <= k < g ==> (#[trigger] r[k]) == (SourceEvent::StreamGap { expected: gaps[k].0, received: gaps[k].1 })
    &&& overruns != 0 ==> (r[g] matches SourceEvent::Log(m) && m@ == "scope producer overruns: "@ + decimal(overruns as nat))
    &&& blocks.len() > 0 ==> (r[g + o] matches SourceEvent::Blocks { mode, blocks: v } && mode == ScopeMode::Stream && v@ == blocks)
}

impl LinkState {
    /// A streamed batch: reports each break in the block numbering, the
    /// producer overruns and the blocks, and expects the number after the
    /// last block next.
    pub fn handle_block_batch(&mut self, batch: BlockBatch) -> (r: Vec<SourceEvent>)
        ensures
            stream_events_ok(r@, gaps_from(old(self).expected_block_sequence, block_numbers(batch.blocks@)),
                batch.overrun_count, batch.blocks@),
            final(self).expected_block_sequence == expected_after(old(self).expected_block_sequence, block_numbers(batch.blocks@)),
            final(self).scope_active == old(self).scope_active,
            final(self).capture == old(self).capture,
            final(self).completed_capture_id == old(self).completed_capture_id,
            final(self).pending_build_hash == old(self).pending_build_hash,
            final(self).expected_push_sequence == old(self).expected_push_sequence,
            final(self).active_bind_sequence == old(self).active_bind_sequence,
            final(self).next_sequence == old(self).next_sequence,
            final(self).info == old(self).info,
    {
        let ghost seqs = block_numbers(batch.blocks@);
        let ghost exp0 = self.expected_block_sequence;
        let mut events: Vec<SourceEvent> = Vec::new();
        let mut i: usize = 0;
        let ghost mut done: Seq<(u16, u16)> = Seq::empty();
        assert(seqs.skip(0) =~= seqs);
        assert(done + gaps_from(exp0, seqs) =~= gaps_from(exp0, seqs));
        while i < batch.blocks.len()
            invariant
                i <= batch.blocks@.len(),
                seqs == block_numbers(batch.blocks@),
                seqs.len() == batch.blocks@.len(),
                exp0 == old(self).expected_block_sequence,
                done + gaps_from(self.expected_block_sequence, seqs.skip(i as int)) == gaps_from(exp0, seqs),
                events@.len() == done.len(),
                forall|k: int| 0 <= k < done.len() ==> (#[trigger] events@[k]) == (SourceEvent::StreamGap {
                    expected: done[k].0, received: done[k].1 }),
                expected_after(self.expected_block_sequence, seqs.skip(i as int)) == expected_after(exp0, seqs),
                self.scope_active == old(self).scope_active,
                self.capture == old(self).capture,
                self.completed_capture_id == old(self).completed_capture_id,
                self.pending_build_hash == old(self).pending_build_hash,
                self.expected_push_sequence == old(self).expected_push_sequence,
                self.active_bind_sequence == old(self).active_bind_sequence,
                self.next_sequence == old(self).next_sequence,
                self.info == old(self).info,
            decreases batch.blocks.len() - i,
        {
            let number = batch.blocks[i].block_seq;
            let ghost rest = seqs.skip(i as int);
            let ghost exp = self.expected_block_sequence;
            assert(rest[0] == number);
            assert(rest.drop_first() =~= seqs.skip(i as int + 1));
            let ghost here = if exp is Some && exp->0 != number { seq![(exp->0, number)] } else { Seq::<(u16, u16)>::empty() };
            assert(gaps_from(exp, rest) == here + gaps_from(Some(next_seq(number)), rest.drop_first()));
            let ghost before = events@;
            if let Some(expected) = self.expected_block_sequence {
                if number != expected {
                    events.push(SourceEvent::StreamGap { expected, received: number });
                }
            }
            self.expected_block_sequence = Some(number.wrapping_add(1));
            proof {
                assert((done + here) + gaps_from(Some(next_seq(number)), rest.drop_first())
                    =~= done + (here + gaps_from(Some(next_seq(number)), rest.drop_first())));
                done = done + here;
                if rest.drop_first().len() > 0 {
                    assert(rest.drop_first().last() == rest.last());
                }
            }
            i = i + 1;
        }
        assert(seqs.skip(i as int).len() == 0);
        if batch.overrun_count != 0 {
            let mut text = String::new();
            push_str(&mut text, "scope producer overruns: ");
            push_decimal(&mut text, batch.overrun_count as u64);
            events.push(SourceEvent::Log(text));
        }
        if batch.blocks.len() > 0 {
            events.push(SourceEvent::Blocks { mode: ScopeMode::Stream, blocks: batch.blocks });
        }
        events
    }
}

/// The bind sequence a capture batch is checked against: the active
/// binding's, else that of the batch's first block.
pub open spec fn batch_bind(active: Option<u16>, blocks: Seq<ScopeBlock>) -> Option<u16> {
    if active is Some { active } else if blocks.len() > 0 { Some(blocks[0].bind_seq) } else { None }
}

/// The slots a capture batch is filed into: those of the capture being
/// gathered when it is the same capture, else all empty.
pub open spec fn base_slots(capture: Option<CaptureAssembly>, capture_id: u16, total_blocks: u16)
    -> Seq<Option<(u32, u16, u16, u16, u16, u16, u16, Seq<u8>)>>
{
    if capture is Some && capture->0.capture_id == capture_id {
        capture->0.slots()
    } else {
        Seq::new(total_blocks as nat, |j: int| None::<(u32, u16, u16, u16, u16, u16, u16, Seq<u8>)>)
    }
}

impl LinkState {
    /// The assembly for a batch's capture: the one being gathered when the
    /// ids agree (with the batch's trigger tick and bind sequence), else a
    /// new empty one.
    fn assembly_for(&mut self, capture_id: u16, total_blocks: u16, trigger_tick: u32, bind_sequence: Option<u16>, now_ms: u64)
        -> (c: CaptureAssembly)
        requires
            old(self).wf(),
        ensures
            final(self).capture is None,
            c.wf(),
            c.capture_id == capture_id,
            c.trigger_tick == trigger_tick,
            old(self).capture is Some && old(self).capture->0.capture_id == capture_id ==> {
                &&& c.slots() == old(self).capture->0.slots()
                &&& c.total_blocks == old(self).capture->0.total_blocks
                &&& c.bind_sequence == if bind_sequence is Some { bind_sequence } else { old(self).capture->0.bind_sequence }
            },
            !(old(self).capture is Some && old(self).capture->0.capture_id == capture_id) ==> {
                &&& c.slots() == Seq::new(total_blocks as nat, |j: int| None::<(u32, u16, u16, u16, u16, u16, u16, Seq<u8>)>)
                &&& c.total_blocks == total_blocks
                &&& c.bind_sequence == bind_sequence
            },
            final(self).scope_active == old(self).scope_active,
            final(self).completed_capture_id == old(self).completed_capture_id,
            final(self).pending_build_hash == old(self).pending_build_hash,
            final(self).next_sequence == old(self).next_sequence,
            final(self).expected_block_sequence == old(self).expected_block_sequence,
            final(self).expected_push_sequence == old(self).expected_push_sequence,
            final(self).active_bind_sequence == old(self).active_bind_sequence,
            final(self).info == old(self).info,
    {
        match self.capture.take() {
            Some(mut c) => {
                if c.capture_id == capture_id {
                    c.update_metadata(trigger_tick, bind_sequence);
                    c
                } else {
                    CaptureAssembly::new(capture_id, total_blocks, trigger_tick, bind_sequence, now_ms)
                }
            },
            None => CaptureAssembly::new(capture_id, total_blocks, trigger_tick, bind_sequence, now_ms),
        }
    }

    /// A pushed or replayed capture batch, while the scope runs: files its
    /// blocks into the capture's assembly; once every block is there the
    /// capture is reported whole and remembered as completed. Batches of
    /// completed captures and empty captures are ignored.
    pub fn handle_capture_batch(&mut self, batch: CaptureBatch, now_ms: u64) -> (r: (Vec<SourceEvent>, Result<(), CaptureError>))
        requires
            old(self).wf(),
        ensures
            final(self).wf(),
            final(self).scope_active == old(self).scope_active,
            final(self).pending_build_hash == old(self).pending_build_hash,
            final(self).next_sequence == old(self).next_sequence,
            final(self).expected_block_sequence == old(self).expected_block_sequence,
            final(self).expected_push_sequence == old(self).expected_push_sequence,
            final(self).active_bind_sequence == old(self).active_bind_sequence,
            final(self).info == old(self).info,
            forall|k: int| 0 <= k < r.0@.len() ==> (#[trigger] r.0@[k]) is Log || r.0@[k] is CaptureFrame,
            (!old(self).scope_active || batch.total_blocks == 0 || old(self).completed_capture_id == Some(batch.capture_id))
                ==> r.0@.len() == 0 && r.1 is Ok && final(self).capture == old(self).capture
                    && final(self).completed_capture_id == old(self).completed_capture_id,
            r.1 is Ok && r.0@.len() > 0 && r.0@.last() is CaptureFrame ==> {
                &&& final(self).capture is None
                &&& final(self).completed_capture_id == Some(batch.capture_id)
                &&& r.0@.last() matches SourceEvent::CaptureFrame { capture_id, blocks, .. }
                &&& capture_id == batch.capture_id
                &&& blocks@.map_values(|b: ScopeBlock| Some(block_view(b)))
                    == filed_slots(base_slots(old(self).capture, batch.capture_id, batch.total_blocks),
                        batch.first_block_index as int, batch.blocks@.map_values(|b: ScopeBlock| block_view(b)))
            },
            (old(self).scope_active && batch.total_blocks != 0 && old(self).completed_capture_id != Some(batch.capture_id)) ==> {
                let reused = old(self).capture is Some && old(self).capture->0.capture_id == batch.capture_id;
                let total = if reused { old(self).capture->0.total_blocks } else { batch.total_blocks };
                let bind = if batch_bind(old(self).active_bind_sequence, batch.blocks@) is Some {
                    batch_bind(old(self).active_bind_sequence, batch.blocks@)
                } else if reused {
                    old(self).capture->0.bind_sequence
                } else {
                    None::<u16>
                };
                &&& total != batch.total_blocks ==> r.1 == Err::<(), CaptureError>(CaptureError::MetadataMismatch)
                &&& total == batch.total_blocks && batch.first_block_index + batch.blocks@.len() > total
                    ==> r.1 == Err::<(), CaptureError>(CaptureError::PastTotal)
                &&& total == batch.total_blocks && batch.first_block_index + batch.blocks@.len() <= total && bind is Some
                    && (exists|j: int| 0 <= j < batch.blocks@.len() && (#[trigger] batch.blocks@[j]).bind_seq != bind->0)
                    ==> (r.1 matches Err(CaptureError::BindMismatch { expected, received }) && expected == bind->0)
                &&& !(total != batch.total_blocks) && !(batch.first_block_index + batch.blocks@.len() > total)
                    && !(bind is Some && (exists|j: int| 0 <= j < batch.blocks@.len() && (#[trigger] batch.blocks@[j]).bind_seq != bind->0))
                    ==> r.1 is Ok
                &&& r.1 is Err ==> r.0@.len() == 0 && final(self).capture is Some
                    && final(self).completed_capture_id == old(self).completed_capture_id
            },
            (old(self).scope_active && batch.total_blocks != 0 && old(self).completed_capture_id != Some(batch.capture_id))
                && r.1 is Ok && !(r.0@.len() > 0 && r.0@.last() is CaptureFrame) ==> {
                &&& final(self).capture matches Some(c)
                &&& c.capture_id == batch.capture_id
                &&& c.slots() == filed_slots(base_slots(old(self).capture, batch.capture_id, batch.total_blocks),
                        batch.first_block_index as int, batch.blocks@.map_values(|b: ScopeBlock| block_view(b)))
                &&& final(self).completed_capture_id == old(self).completed_capture_id
            },
    {
        let mut events: Vec<SourceEvent> = Vec::new();
        if !self.scope_active || batch.total_blocks == 0 {
            return (events, Ok(()));
        }
        if let Some(done) = self.completed_capture_id {
            if done == batch.capture_id {
                return (events, Ok(()));
            }
        }
        let bind_sequence = match self.active_bind_sequence {
            Some(b) => Some(b),
            None => if batch.blocks.len() > 0 { Some(batch.blocks[0].bind_seq) } else { None },
        };
        let capture_id = batch.capture_id;
        let is_replay = batch.is_replay;
        let ghost views = batch.blocks@.map_values(|b: ScopeBlock| block_view(b));
        let ghost first = batch.first_block_index as int;
        let ghost base = base_slots(self.capture, batch.capture_id, batch.total_blocks);
        let mut capture = self.assembly_for(capture_id, batch.total_blocks, batch.trigger_tick, bind_sequence, now_ms);
        assert(capture.slots() == base);
        let progressed = match capture.insert_batch(batch, now_ms) {
            Ok(p) => p,
            Err(e) => {
                self.capture = Some(capture);
                return (events, Err(e));
            },
        };
        if is_replay && progressed {
            events.push(SourceEvent::Log("capture replay filled missing block(s)".to_owned()));
        }
        if capture.is_complete() {
            self.completed_capture_id = Some(capture.capture_id);
            let trigger_tick = capture.trigger_tick;
            let ghost slots = capture.slots();
            let blocks = capture.finish();
            assert(blocks@.map_values(|b: ScopeBlock| Some(block_view(b))) =~= slots);
            events.push(SourceEvent::CaptureFrame { capture_id, trigger_tick, blocks });
        } else {
            self.capture = Some(capture);
        }
        (events, Ok(()))
    }

    /// When the capture being gathered has stalled, the replay to request
    /// (capture id, first missing block, count).
    pub fn capture_replay_request(&mut self, now_ms: u64) -> (r: Option<(u16, u16, u8)>)
        requires
            old(self).wf(),
        ensures
            final(self).wf(),
            old(self).capture is None ==> r is None,
            old(self).capture matches Some(c) ==> ({
                let slots = c.slots();
                let start = first_empty_from(slots, 0);
                if c.spec_complete() || now_ms < c.last_progress_ms + CAPTURE_REPLAY_IDLE_DELAY_MS || start >= slots.len() {
                    r is None
                } else {
                    r == Some((c.capture_id, start as u16, empty_run(slots, start, CAPTURE_REPLAY_MAX_BLOCKS as nat) as u8))
                }
            }),
            final(self).scope_active == old(self).scope_active,
            final(self).completed_capture_id == old(self).completed_capture_id,
            final(self).capture is Some == old(self).capture is Some,
    {
        match self.capture.take() {
            Some(mut c) => {
                let r = c.take_replay_request(now_ms);
                self.capture = Some(c);
                r
            },
            None => None,
        }
    }

    /// The device no longer holds a capture it was asked to replay: the
    /// partial assembly is dropped and the capture counts as done, so that
    /// stale reports cannot start it again.
    pub fn abandon_capture(&mut self, capture_id: u16)
        ensures
            final(self).wf(),
            final(self).capture is None,
            final(self).completed_capture_id == Some(capture_id),
            final(self).scope_active == old(self).scope_active,
            final(self).pending_build_hash == old(self).pending_build_hash,
            final(self).active_bind_sequence == old(self).active_bind_sequence,
    {
        self.capture = None;
        self.completed_capture_id = Some(capture_id);
    }

    /// The device bound the scope channels: block numbering restarts and
    /// the acknowledged bind sequence (the low half of the ACK data) is active.
    pub fn channels_bound(&mut self, ack_data: u32) -> (r: u16)
        ensures
            r == (ack_data % 0x10000) as u16,
            final(self).active_bind_sequence == Some(r),
            final(self).expected_block_sequence is None,
            final(self).scope_active == old(self).scope_active,
            final(self).capture == old(self).capture,
            final(self).completed_capture_id == old(self).completed_capture_id,
            final(self).expected_push_sequence == old(self).expected_push_sequence,
            final(self).info == old(self).info,
            final(self).pending_build_hash == old(self).pending_build_hash,
            final(self).next_sequence == old(self).next_sequence,
    {
        let r = (ack_data & 0xFFFF) as u16;
        assert(ack_data & 0xFFFF == ack_data % 0x10000) by (bit_vector);
        self.expected_block_sequence = None;
        self.active_bind_sequence = Some(r);
        r
    }

    /// The device applied a scope mode: block numbering restarts, the scope
    /// runs unless the mode is off, and any mode but an armed capture
    /// forgets the capture being gathered and the last completed one.
    pub fn scope_configured(&mut self, mode: ScopeMode)
        requires
            old(self).wf(),
        ensures
            final(self).wf(),
            final(self).expected_block_sequence is None,
            final(self).scope_active == (mode != ScopeMode::Off),
            mode != ScopeMode::CaptureArmed ==> final(self).capture is None && final(self).completed_capture_id is None,
            mode == ScopeMode::CaptureArmed ==> final(self).capture == old(self).capture
                && final(self).completed_capture_id == old(self).completed_capture_id,
            final(self).active_bind_sequence == old(self).active_bind_sequence,
            final(self).expected_push_sequence == old(self).expected_push_sequence,
            final(self).info == old(self).info,
            final(self).pending_build_hash == old(self).pending_build_hash,
            final(self).next_sequence == old(self).next_sequence,
    {
        self.expected_block_sequence = None;
        self.scope_active = mode != ScopeMode::Off;
        if mode != ScopeMode::CaptureArmed {
            self.capture = None;
            self.completed_capture_id = None;
        }
    }

    /// Whether a catalog command was issued for the connected firmware build.
    pub fn catalog_is_current(&self, build_hash: u32) -> (r: bool)
        ensures
            r == (build_hash == self.info.build_hash),
    {
        build_hash == self.info.build_hash
    }
}

/// Why a pushed frame ended the session.
#[derive(Debug, Clone, Copy, PartialEq, Eq)]
pub enum LinkError {
    Codec(CodecError),
    Capture(CaptureError),
}

impl LinkError {
    /// The text of the error.
    pub fn message(&self) -> (r: String)
        ensures
            r@ == match *self {
                LinkError::Codec(c) => c.spec_message(),
                LinkError::Capture(e) => spec_capture_error_message(e),
            },
    {
        match self {
            LinkError::Codec(c) => c.message(),
            LinkError::Capture(c) => c.message(),
        }
    }
}

/// The log line for a frame nobody asked for.
pub open spec fn unmatched_frame_text(message_type: u8, sequence: u16) -> Seq<char> {
    "discarded unmatched frame type=0x"@ + hex_fixed(message_type as nat, 2, true) + " seq="@ + decimal(sequence as nat)
}

impl LinkState {
    /// Checks the numbering of pushed frames: reports a gap when the frame
    /// is not the one expected, and expects the next number after it.
    fn check_push_sequence(&mut self, sequence: u16, events: &mut Vec<SourceEvent>)
        ensures
            final(self).expected_push_sequence == Some(next_seq(sequence)),
            (old(self).expected_push_sequence is Some && old(self).expected_push_sequence->0 != sequence)
                ==> final(events)@ == old(events)@.push(SourceEvent::PushFrameGap {
                    expected: old(self).expected_push_sequence->0, received: sequence }),
            !(old(self).expected_push_sequence is Some && old(self).expected_push_sequence->0 != sequence)
                ==> final(events)@ == old(events)@,
            final(self).scope_active == old(self).scope_active,
            final(self).capture == old(self).capture,
            final(self).completed_capture_id == old(self).completed_capture_id,
            final(self).pending_build_hash == old(self).pending_build_hash,
            final(self).expected_block_sequence == old(self).expected_block_sequence,
            final(self).active_bind_sequence == old(self).active_bind_sequence,
            final(self).next_sequence == old(self).next_sequence,
            final(self).info == old(self).info,
    {
        if let Some(expected) = self.expected_push_sequence {
            if sequence != expected {
                events.push(SourceEvent::PushFrameGap { expected, received: sequence });
            }
        }
        self.expected_push_sequence = Some(sequence.wrapping_add(1));
    }

    /// A frame the device pushed without being asked: STATUS reports,
    /// streamed blocks and capture batches are handled, anything else is
    /// logged and dropped. Nothing is handled before the identity is known.
    /// The events are those produced before any error.
    pub fn handle_frame(&mut self, frame: Frame, now_ms: u64) -> (r: (Vec<SourceEvent>, Result<(), LinkError>))
        requires
            old(self).wf(),
        ensures
            final(self).wf(),
            old(self).info.protocol_version == 0 ==> r.0@.len() == 0 && r.1 is Ok
                && final(self).expected_push_sequence == old(self).expected_push_sequence
                && final(self).capture == old(self).capture
                && final(self).scope_active == old(self).scope_active,
            old(self).info.protocol_version != 0 && frame.message_type == MSG_STATUS_PUSH ==> {
                &&& frame.payload@.len() < 96 ==> r.0@.len() == 0
                    && r.1 == Err::<(), LinkError>(LinkError::Codec(CodecError::MalformedPayload("STATUS is shorter than current layout")))
                &&& frame.payload@.len() >= 96 ==> r.1 is Ok && r.0@.len() == 1 && r.0@[0] is Status
            },
            old(self).info.protocol_version != 0
                && (frame.message_type == MSG_SCOPE_BLOCK_PUSH || frame.message_type == MSG_CAPTURE_BATCH_PUSH) ==> {
                &&& final(self).expected_push_sequence == Some(next_seq(frame.sequence))
                &&& (old(self).expected_push_sequence is Some && old(self).expected_push_sequence->0 != frame.sequence)
                    <==> (r.0@.len() > 0 && r.0@[0] == (SourceEvent::PushFrameGap {
                        expected: old(self).expected_push_sequence->0, received: frame.sequence }))
            },
            old(self).info.protocol_version != 0 && frame.message_type == MSG_SCOPE_BLOCK_PUSH ==> {
                let p = frame.payload@;
                &&& r.1 is Ok <==> (p.len() >= 8 && p[1] == 0 && get_u16(p, 6) == 0 && spec_scope_blocks(p, 8, p[0] as nat) is Ok)
                &&& r.1 matches Err(e) ==> e is Codec
            },
            old(self).info.protocol_version != 0 && frame.message_type == MSG_CAPTURE_BATCH_PUSH ==> {
                let p = frame.payload@;
                &&& !(p.len() >= 16 && p[7] & 0xFE == 0 && get_u16(p, 10) == 0 && spec_scope_blocks(p, 16, p[6] as nat) is Ok)
                    ==> (r.1 matches Err(e) && e is Codec)
            },
            old(self).info.protocol_version != 0 && frame.message_type != MSG_STATUS_PUSH
                && frame.message_type != MSG_SCOPE_BLOCK_PUSH && frame.message_type != MSG_CAPTURE_BATCH_PUSH ==> {
                &&& r.1 is Ok
                &&& r.0@.len() == 1
                &&& r.0@[0] matches SourceEvent::Log(m) && m@ == unmatched_frame_text(frame.message_type, frame.sequence)
                &&& final(self).expected_push_sequence == old(self).expected_push_sequence
                &&& final(self).capture == old(self).capture
            },
    {
        let mut events: Vec<SourceEvent> = Vec::new();
        if self.info.protocol_version == 0 {
            return (events, Ok(()));
        }
        if frame.message_type == MSG_STATUS_PUSH {
            match parse_status(frame.payload.as_slice()) {
                Ok(status) => {
                    let event = self.handle_status(status, now_ms);
                    events.push(event);
                    (events, Ok(()))
                },
                Err(e) => (events, Err(LinkError::Codec(e))),
            }
        } else if frame.message_type == MSG_SCOPE_BLOCK_PUSH {
            self.check_push_sequence(frame.sequence, &mut events);
            assert(events@.len() > 0 ==> events@[0] is PushFrameGap);
            match parse_block_batch(frame.payload.as_slice()) {
                Ok(batch) => {
                    let mut more = self.handle_block_batch(batch);
                    let ghost before = events@;
                    events.append(&mut more);
                    assert(before.len() > 0 ==> events@[0] == before[0]);
                    assert(before.len() == 0 ==> (events@.len() > 0 ==> !(events@[0] is PushFrameGap)));
                    (events, Ok(()))
                },
                Err(e) => (events, Err(LinkError::Codec(e))),
            }
        } else if frame.message_type == MSG_CAPTURE_BATCH_PUSH {
            self.check_push_sequence(frame.sequence, &mut events);
            match parse_capture_batch(frame.payload.as_slice()) {
                Ok(batch) => {
                    let (mut more, result) = self.handle_capture_batch(batch, now_ms);
                    let ghost before = events@;
                    let ghost added = more@;
                    events.append(&mut more);
                    assert(before.len() > 0 ==> events@[0] == before[0]);
                    assert(before.len() == 0 && events@.len() > 0 ==> events@[0] == added[0]);
                    match result {
                        Ok(()) => (events, Ok(())),
                        Err(e) => (events, Err(LinkError::Capture(e))),
                    }
                },
                Err(e) => (events, Err(LinkError::Codec(e))),
            }
        } else {
            let mut text = String::new();
            push_str(&mut text, "discarded unmatched frame type=0x");
            push_hex(&mut text, frame.message_type as u64, 2, true);
            push_str(&mut text, " seq=");
            push_decimal(&mut text, frame.sequence as u64);
            events.push(SourceEvent::Log(text));
            (events, Ok(()))
        }
    }
}

/// Why a descriptor enumeration was refused.
#[derive(Debug, Clone, Copy, PartialEq, Eq)]
pub enum EnumerationError {
    TotalChanged { hello: u16, reported: u16 },
    PageIndexMismatch { requested: u16, returned: u16 },
    PageTooLarge,
    EndedEarly,
    IndexOverflow,
    BeyondTotal,
    CountMismatch,
    FirmwareChanged { before_hash: u32, before_count: u16, after_hash: u32, after_count: u16 },
}

/// The descriptors a page may hold.
pub const ENUM_PAGE_SIZE: u16 = 8;

/// The checks of one ENUMERATE page, in order: the advertised total, the
/// page start, the page size, progress before the total, and the total
/// again; the start of the next page otherwise.
pub open spec fn spec_check_page(expected_total: u16, start: u16, total: u16, returned_start: u16, count: int)
    -> Result<u16, EnumerationError>
{
    if total != expected_total {
        Err(EnumerationError::TotalChanged { hello: expected_total, reported: total })
    } else if returned_start != start {
        Err(EnumerationError::PageIndexMismatch { requested: start, returned: returned_start })
    } else if count > ENUM_PAGE_SIZE {
        Err(EnumerationError::PageTooLarge)
    } else if count == 0 && start < expected_total {
        Err(EnumerationError::EndedEarly)
    } else if start + count > 0xFFFF {
        Err(EnumerationError::IndexOverflow)
    } else if start + count > expected_total {
        Err(EnumerationError::BeyondTotal)
    } else {
        Ok((start + count) as u16)
    }
}

/// Checks one ENUMERATE page against the HELLO total and the requested start.
pub fn check_descriptor_page(expected_total: u16, start: u16, total: u16, returned_start: u16, count: usize)
    -> (r: Result<u16, EnumerationError>)
    ensures
        r == spec_check_page(expected_total, start, total, returned_start, count as int),
{
    if total != expected_total {
        return Err(EnumerationError::TotalChanged { hello: expected_total, reported: total });
    }
    if returned_start != start {
        return Err(EnumerationError::PageIndexMismatch { requested: start, returned: returned_start });
    }
    if count > ENUM_PAGE_SIZE as usize {
        return Err(EnumerationError::PageTooLarge);
    }
    if count == 0 && start < expected_total {
        return Err(EnumerationError::EndedEarly);
    }
    let count16 = count as u16;
    let next = match start.checked_add(count16) {
        Some(n) => n,
        None => return Err(EnumerationError::IndexOverflow),
    };
    if next > expected_total {
        return Err(EnumerationError::BeyondTotal);
    }
    Ok(next)
}

/// The whole catalog arrived: as many descriptors as HELLO advertised.
pub fn check_enumerated_count(expected_total: u16, count: usize) -> (r: Result<(), EnumerationError>)
    ensures
        r is Ok <==> count == expected_total,
        r is Err ==> r == Err::<(), EnumerationError>(EnumerationError::CountMismatch),
{
    if count != expected_total as usize {
        return Err(EnumerationError::CountMismatch);
    }
    Ok(())
}

/// The firmware is unchanged after the enumeration: a fresh HELLO reports
/// the same build and the same total.
pub fn check_confirmed_identity(before_hash: u32, expected_total: u16, confirmed: &DeviceInfo) -> (r: Result<(), EnumerationError>)
    ensures
        r is Ok <==> (confirmed.build_hash == before_hash && confirmed.descriptor_count == expected_total),
        r is Err ==> r == Err::<(), EnumerationError>(EnumerationError::FirmwareChanged {
            before_hash, before_count: expected_total, after_hash: confirmed.build_hash, after_count: confirmed.descriptor_count }),
{
    if confirmed.build_hash != before_hash || confirmed.descriptor_count != expected_total {
        return Err(EnumerationError::FirmwareChanged {
            before_hash,
            before_count: expected_total,
            after_hash: confirmed.build_hash,
            after_count: confirmed.descriptor_count,
        });
    }
    Ok(())
}

/// Pages of an enumeration chain: each accepted page starts where the
/// previous one ended, so a finished enumeration has read every index from
/// zero to the advertised total exactly once, in order, and each page moves
/// forward unless the catalog is already complete.
pub proof fn law_enumeration_pages_advance(expected_total: u16, start: u16, total: u16, returned_start: u16, count: int)
    requires
        spec_check_page(expected_total, start, total, returned_start, count) is Ok,
        count >= 0,
    ensures
        spec_check_page(expected_total, start, total, returned_start, count)->Ok_0 == start + count,
        start + count <= expected_total,
        start < expected_total ==> spec_check_page(expected_total, start, total, returned_start, count)->Ok_0 > start,
{
}

/// The text of a refused enumeration.
pub open spec fn spec_enumeration_error_message(e: EnumerationError) -> Seq<char> {
    match e {
        EnumerationError::TotalChanged { hello, reported } =>
            "descriptor total changed during enumeration: HELLO="@ + decimal(hello as nat) + ", ENUM="@ + decimal(reported as nat),
        EnumerationError::PageIndexMismatch { requested, returned } =>
            "descriptor page index mismatch: requested="@ + decimal(requested as nat) + ", returned="@ + decimal(returned as nat),
        EnumerationError::PageTooLarge => "descriptor page exceeds requested size"@,
        EnumerationError::EndedEarly => "descriptor enumeration ended before the advertised total"@,
        EnumerationError::IndexOverflow => "descriptor index overflow"@,
        EnumerationError::BeyondTotal => "descriptor page extends beyond the advertised total"@,
        EnumerationError::CountMismatch => "descriptor enumeration count mismatch"@,
        EnumerationError::FirmwareChanged { before_hash, before_count, after_hash, after_count } =>
            "firmware changed during descriptor enumeration: before=0x"@ + hex_fixed(before_hash as nat, 8, true) + "/"@
                + decimal(before_count as nat) + ", after=0x"@ + hex_fixed(after_hash as nat, 8, true) + "/"@
                + decimal(after_count as nat),
    }
}

impl EnumerationError {
    /// The text of the error.
    pub fn message(&self) -> (r: String)
        ensures
            r@ == spec_enumeration_error_message(*self),
    {
        match self {
            EnumerationError::TotalChanged { hello, reported } => {
                let mut s = String::new();
                push_str(&mut s, "descriptor total changed during enumeration: HELLO=");
                push_decimal(&mut s, *hello as u64);
                push_str(&mut s, ", ENUM=");
                push_decimal(&mut s, *reported as u64);
                s
            },
            EnumerationError::PageIndexMismatch { requested, returned } => {
                let mut s = String::new();
                push_str(&mut s, "descriptor page index mismatch: requested=");
                push_decimal(&mut s, *requested as u64);
                push_str(&mut s, ", returned=");
                push_decimal(&mut s, *returned as u64);
                s
            },
            EnumerationError::PageTooLarge => "descriptor page exceeds requested size".to_owned(),
            EnumerationError::EndedEarly => "descriptor enumeration ended before the advertised total".to_owned(),
            EnumerationError::IndexOverflow => "descriptor index overflow".to_owned(),
            EnumerationError::BeyondTotal => "descriptor page extends beyond the advertised total".to_owned(),
            EnumerationError::CountMismatch => "descriptor enumeration count mismatch".to_owned(),
            EnumerationError::FirmwareChanged { before_hash, before_count, after_hash, after_count } => {
                let mut s = String::new();
                push_str(&mut s, "firmware changed during descriptor enumeration: before=0x");
                push_hex(&mut s, *before_hash as u64, 8, true);
                push_str(&mut s, "/");
                push_decimal(&mut s, *before_count as u64);
                push_str(&mut s, ", after=0x");
                push_hex(&mut s, *after_hash as u64, 8, true);
                push_str(&mut s, "/");
                push_decimal(&mut s, *after_count as u64);
                s
            },
        }
    }
}

/// How a request that got no matching answer failed.
#[derive(Debug, Clone, Copy, PartialEq, Eq)]
pub enum RequestFailure {
    /// A frame of another wire version was seen meanwhile.
    WireVersion { device_magic: u8 },
    Timeout { message_type: u8, attempts: usize },
}

/// Attempts per request: the first and `MAX_RETRIES` more.
pub const REQUEST_ATTEMPTS: usize = MAX_RETRIES + 1;

/// A frame answers the request with `sequence` of `message_type`.
pub fn is_response(frame: &Frame, sequence: u16, message_type: u8) -> (r: bool)
    ensures
        r == (frame.sequence == sequence && frame.message_type == (message_type | 0x80)),
{
    frame.sequence == sequence && frame.message_type == (message_type | 0x80)
}

/// The failure of an unanswered request: a wire version mismatch when a
/// frame of another version arrived, else a timeout after all attempts.
pub fn request_failure(message_type: u8, version_mismatch: Option<u8>) -> (r: RequestFailure)
    ensures
        match version_mismatch {
            Some(m) => r == (RequestFailure::WireVersion { device_magic: m }),
            None => r == (RequestFailure::Timeout { message_type, attempts: REQUEST_ATTEMPTS }),
        },
{
    match version_mismatch {
        Some(m) => RequestFailure::WireVersion { device_magic: m },
        None => RequestFailure::Timeout { message_type, attempts: REQUEST_ATTEMPTS },
    }
}

impl RequestFailure {
    /// The text of the failure.
    pub fn message(&self) -> (r: String)
        ensures
            self matches RequestFailure::Timeout { message_type, attempts } ==> r@ == "message 0x"@
                + hex_fixed(message_type as nat, 2, true) + " timed out after "@ + decimal(attempts as nat) + " attempts"@,
            self matches RequestFailure::WireVersion { device_magic } ==> r@ ==
                "firmware/Scope2000 wire version mismatch; reflash v10 firmware or use a matching Scope2000 build (device magic=0x"@
                + hex_fixed(device_magic as nat, 2, true) + ", host magic=0x"@ + hex_fixed(VERSION_MAGIC as nat, 2, true) + ")"@,
    {
        match self {
            RequestFailure::WireVersion { device_magic } => {
                let mut s = String::new();
                push_str(&mut s, "firmware/Scope2000 wire version mismatch; reflash v10 firmware or use a matching Scope2000 build (device magic=0x");
                push_hex(&mut s, *device_magic as u64, 2, true);
                push_str(&mut s, ", host magic=0x");
                push_hex(&mut s, VERSION_MAGIC as u64, 2, true);
                push_str(&mut s, ")");
                s
            },
            RequestFailure::Timeout { message_type, attempts } => {
                let mut s = String::new();
                push_str(&mut s, "message 0x");
                push_hex(&mut s, *message_type as u64, 2, true);
                push_str(&mut s, " timed out after ");
                push_decimal(&mut s, *attempts as u64);
                push_str(&mut s, " attempts");
                s
            },
        }
    }
}

/// A rejected CAL_READ answers with an 8-octet ACK of CAL_READ carrying a
/// nonzero status; that status, if so.
pub fn cal_read_rejection(payload: &[u8]) -> (r: Option<u8>)
    ensures
        r is Some <==> (payload@.len() == 8 && payload@[1] == MSG_CAL_READ && payload@[0] != 0),
        r is Some ==> r->0 == payload@[0],
{
    if payload.len() != 8 {
        return None;
    }
    match parse_ack(payload) {
        Ok(ack) => if ack.echoed_type == MSG_CAL_READ && ack.status != 0 { Some(ack.status) } else { None },
        Err(_) => None,
    }
}

impl LinkState {
    /// The build hash of a firmware change seen in STATUS, once: the
    /// identity is to be refreshed.
    pub fn take_pending_refresh(&mut self) -> (r: Option<u32>)
        ensures
            r == old(self).pending_build_hash,
            final(self).pending_build_hash is None,
            final(self).capture == old(self).capture,
            final(self).scope_active == old(self).scope_active,
            final(self).info == old(self).info,
    {
        self.pending_build_hash.take()
    }

    /// Takes a refreshed identity, which must carry the build hash STATUS
    /// reported; the change is reported with the previous build hash.
    pub fn apply_refreshed_identity(&mut self, status_hash: u32, info: DeviceInfo) -> (r: Result<SourceEvent, (u32, u32)>)
        ensures
            info.build_hash != status_hash ==> r == Err::<SourceEvent, (u32, u32)>((status_hash, info.build_hash))
                && final(self).info == old(self).info,
            info.build_hash == status_hash ==> final(self).info == info
                && final(self).pending_build_hash is None
                && r == Ok::<SourceEvent, (u32, u32)>(SourceEvent::DeviceChanged { old_hash: old(self).info.build_hash, info }),
            final(self).capture == old(self).capture,
            final(self).scope_active == old(self).scope_active,
    {
        if info.build_hash != status_hash {
            return Err((status_hash, info.build_hash));
        }
        let old_hash = self.info.build_hash;
        self.info = info.clone();
        self.pending_build_hash = None;
        Ok(SourceEvent::DeviceChanged { old_hash, info })
    }
}

/// What an ACK response to `request_type` gives: its data when it
/// acknowledges that request with status zero.
pub open spec fn spec_require_ack(p: Seq<u8>, request_type: u8) -> Result<Ack, AckError> {
    if p.len() < 8 {
        Err(AckError::Codec(CodecError::MalformedPayload("ACK")))
    } else if p[1] != request_type {
        Err(AckError::TypeMismatch)
    } else if p[0] != 0 {
        Err(AckError::DeviceNak { request_type, status: p[0] })
    } else {
        Ok(Ack { status: 0, echoed_type: request_type, data: get_u32(p, 4) })
    }
}

/// The (variable, bits) pairs of parameter writes.
pub open spec fn write_pairs(ws: Seq<ParamWrite>) -> Seq<(VarRef, u32)> {
    ws.map_values(|w: ParamWrite| (w.var, w.value_bits))
}

/// The variables of value reads.
pub open spec fn read_vars(rs: Seq<ValueRead>) -> Seq<VarRef> {
    rs.map_values(|r: ValueRead| r.var)
}

/// The message type and payload a catalog command sends.
pub open spec fn spec_catalog_request(c: CatalogCommand) -> (u8, Seq<u8>) {
    match c {
        CatalogCommand::WriteParams(ws) => (MSG_CAL_WRITE, seq![(ws@.len() % 256) as u8, 0u8] + write_records(write_pairs(ws@))),
        CatalogCommand::CommitParams => (MSG_CAL_COMMIT, Seq::empty()),
        CatalogCommand::ReadValues(rs) => (MSG_CAL_READ, seq![(rs@.len() % 256) as u8, 0u8] + var_records(read_vars(rs@))),
        CatalogCommand::BindChannels { channels } => (MSG_DAQ_BIND, seq![(channels@.len() % 256) as u8, 0u8] + var_records(channels@)),
        CatalogCommand::ConfigureScope(config) => (MSG_DAQ_CONTROL, spec_daq_control(config)),
    }
}

/// The request a catalog command sends: its message type and payload.
pub fn catalog_request(command: &CatalogCommand) -> (r: (u8, Vec<u8>))
    ensures
        (r.0, r.1@) == spec_catalog_request(*command),
{
    match command {
        CatalogCommand::WriteParams(writes) => {
            let mut pairs: Vec<(VarRef, u32)> = Vec::new();
            let mut i: usize = 0;
            while i < writes.len()
                invariant
                    i <= writes@.len(),
                    pairs@ == write_pairs(writes@.take(i as int)),
                decreases writes.len() - i,
            {
                pairs.push((writes[i].var, writes[i].value_bits));
                assert(pairs@ =~= write_pairs(writes@.take(i as int + 1)));
                i = i + 1;
            }
            assert(writes@.take(writes@.len() as int) =~= writes@);
            (MSG_CAL_WRITE, cal_write_request(pairs.as_slice()))
        },
        CatalogCommand::CommitParams => (MSG_CAL_COMMIT, Vec::new()),
        CatalogCommand::ReadValues(reads) => {
            let mut vars: Vec<VarRef> = Vec::new();
            let mut i: usize = 0;
            while i < reads.len()
                invariant
                    i <= reads@.len(),
                    vars@ == read_vars(reads@.take(i as int)),
                decreases reads.len() - i,
            {
                vars.push(reads[i].var);
                assert(vars@ =~= read_vars(reads@.take(i as int + 1)));
                i = i + 1;
            }
            assert(reads@.take(reads@.len() as int) =~= reads@);
            (MSG_CAL_READ, cal_read_request(vars.as_slice()))
        },
        CatalogCommand::BindChannels { channels } => (MSG_DAQ_BIND, daq_bind_request(channels.as_slice())),
        CatalogCommand::ConfigureScope(config) => (MSG_DAQ_CONTROL, daq_control_request(config)),
    }
}

/// Why a catalog command's answer was refused.
#[derive(Debug, Clone, Copy, PartialEq, Eq)]
pub enum CatalogError {
    Ack(AckError),
    Codec(CodecError),
    /// CAL_READ answered a different number of values than were asked.
    ReadCountMismatch,
}

impl CatalogError {
    /// The text of the error.
    pub fn message(&self) -> (r: String)
        ensures
            *self == CatalogError::ReadCountMismatch ==> r@ == "CAL_READ response count mismatch"@,
            self matches CatalogError::Codec(c) ==> r@ == c.spec_message(),
            match *self {
                CatalogError::Ack(AckError::Codec(c)) => r@ == c.spec_message(),
                CatalogError::Ack(a) => r@ == spec_ack_error_message(a),
                _ => true,
            },
    {
        match self {
            CatalogError::Ack(AckError::Codec(c)) => c.message(),
            CatalogError::Ack(a) => a.message(),
            CatalogError::Codec(c) => c.message(),
            CatalogError::ReadCountMismatch => "CAL_READ response count mismatch".to_owned(),
        }
    }
}

/// The log line for a catalog command made for another firmware build.
pub fn stale_catalog_text(build_hash: u32, current_hash: u32) -> (r: String)
    ensures
        r@ == "discarded stale catalog command for build 0x"@ + hex_fixed(build_hash as nat, 8, true)
            + "; current build is 0x"@ + hex_fixed(current_hash as nat, 8, true),
{
    let mut s = String::new();
    push_str(&mut s, "discarded stale catalog command for build 0x");
    push_hex(&mut s, build_hash as u64, 8, true);
    push_str(&mut s, "; current build is 0x");
    push_hex(&mut s, current_hash as u64, 8, true);
    s
}

/// The log line for a request retried after a timeout.
pub fn retry_text(message_type: u8, retry: usize) -> (r: String)
    ensures
        r@ == "timeout for message 0x"@ + hex_fixed(message_type as nat, 2, true) + "; retry "@ + decimal(retry as nat),
{
    let mut s = String::new();
    push_str(&mut s, "timeout for message 0x");
    push_hex(&mut s, message_type as u64, 2, true);
    push_str(&mut s, "; retry ");
    push_decimal(&mut s, retry as u64);
    s
}

/// The log line for a frame the decoder refused.
pub fn malformed_frame_text(error: CodecError) -> (r: String)
    ensures
        r@ == "discarded malformed frame: "@ + error.spec_message(),
{
    let mut s = String::new();
    push_str(&mut s, "discarded malformed frame: ");
    let m = error.message();
    push_str(&mut s, m.as_str());
    s
}

/// The acceptance of a system command: the ACK's data is the sequence
/// that STATUS reports once the command is done.
pub fn system_command_accepted(command: SystemCommand, response: &Frame) -> (r: Result<SourceEvent, AckError>)
    ensures
        match spec_require_ack(response.payload@, MSG_SYSTEM_COMMAND) {
            Ok(a) => r == Ok::<SourceEvent, AckError>(SourceEvent::SystemCommandAccepted { command, sequence: a.data }),
            Err(e) => r == Err::<SourceEvent, AckError>(e),
        },
{
    match require_ack(response, MSG_SYSTEM_COMMAND) {
        Ok(ack) => Ok(SourceEvent::SystemCommandAccepted { command, sequence: ack.data }),
        Err(e) => Err(e),
    }
}

impl LinkState {
    /// The answer to a catalog command: an ACK for writes, commits,
    /// bindings and scope configurations (a binding and a configuration
    /// also update the session), CAL_VALUES for reads, one value per read.
    pub fn complete_catalog_command(&mut self, command: &CatalogCommand, response: &Frame) -> (r: Result<SourceEvent, CatalogError>)
        requires
            old(self).wf(),
        ensures
            final(self).wf(),
            final(self).info == old(self).info,
            final(self).pending_build_hash == old(self).pending_build_hash,
            final(self).next_sequence == old(self).next_sequence,
            ({
                let p = response.payload@;
                match *command {
                    CatalogCommand::WriteParams(_) => match spec_require_ack(p, MSG_CAL_WRITE) {
                        Ok(_) => r matches Ok(SourceEvent::ParamsStaged),
                        Err(e) => r == Err::<SourceEvent, CatalogError>(CatalogError::Ack(e)),
                    },
                    CatalogCommand::CommitParams => match spec_require_ack(p, MSG_CAL_COMMIT) {
                        Ok(a) => r matches Ok(SourceEvent::ParamsCommitted { sequence }) && sequence == a.data,
                        Err(e) => r == Err::<SourceEvent, CatalogError>(CatalogError::Ack(e)),
                    },
                    CatalogCommand::BindChannels { .. } => match spec_require_ack(p, MSG_DAQ_BIND) {
                        Ok(a) => r matches Ok(SourceEvent::ChannelsBound { bind_sequence }) && bind_sequence == (a.data % 0x10000) as u16
                            && final(self).active_bind_sequence == Some(bind_sequence)
                            && final(self).expected_block_sequence is None
                            && final(self).scope_active == old(self).scope_active
                            && final(self).capture == old(self).capture
                            && final(self).completed_capture_id == old(self).completed_capture_id
                            && final(self).expected_push_sequence == old(self).expected_push_sequence,
                        Err(e) => r == Err::<SourceEvent, CatalogError>(CatalogError::Ack(e)),
                    },
                    CatalogCommand::ConfigureScope(config) => match spec_require_ack(p, MSG_DAQ_CONTROL) {
                        Ok(_) => r matches Ok(SourceEvent::ScopeConfigured { mode }) && mode == config.mode
                            && final(self).scope_active == (config.mode != ScopeMode::Off)
                            && final(self).expected_block_sequence is None
                            && final(self).active_bind_sequence == old(self).active_bind_sequence
                            && final(self).expected_push_sequence == old(self).expected_push_sequence
                            && (config.mode != ScopeMode::CaptureArmed ==> final(self).capture is None
                                && final(self).completed_capture_id is None)
                            && (config.mode == ScopeMode::CaptureArmed ==> final(self).capture == old(self).capture
                                && final(self).completed_capture_id == old(self).completed_capture_id),
                        Err(e) => r == Err::<SourceEvent, CatalogError>(CatalogError::Ack(e)),
                    },
                    CatalogCommand::ReadValues(rs) => {
                        if p.len() == 8 && p[1] == MSG_CAL_READ && p[0] != 0 {
                            r == Err::<SourceEvent, CatalogError>(CatalogError::Ack(AckError::DeviceNak { request_type: MSG_CAL_READ, status: p[0] }))
                        } else if p.len() < 8 {
                            r == Err::<SourceEvent, CatalogError>(CatalogError::Codec(CodecError::MalformedPayload("CAL_READ header")))
                        } else if p.len() != 8 + 4 * p[4] {
                            r == Err::<SourceEvent, CatalogError>(CatalogError::Codec(CodecError::MalformedPayload("CAL_READ values")))
                        } else if p[4] != rs@.len() {
                            r == Err::<SourceEvent, CatalogError>(CatalogError::ReadCountMismatch)
                        } else {
                            r matches Ok(SourceEvent::Values { read_sequence, indexes, values })
                                && read_sequence == get_u32(p, 0)
                                && indexes@ == rs@.map_values(|q: ValueRead| q.descriptor_index)
                                && values@.len() == rs@.len()
                                && forall|j: int| 0 <= j < values@.len() ==> #[trigger] values@[j] == get_u32(p, 8 + 4 * j)
                        }
                    },
                }
            }),
            (r is Err || command is WriteParams || command is CommitParams || command is ReadValues)
                ==> *final(self) == *old(self),
    {
        match command {
            CatalogCommand::WriteParams(_) => match require_ack(response, MSG_CAL_WRITE) {
                Ok(_) => Ok(SourceEvent::ParamsStaged),
                Err(e) => Err(CatalogError::Ack(e)),
            },
            CatalogCommand::CommitParams => match require_ack(response, MSG_CAL_COMMIT) {
                Ok(ack) => Ok(SourceEvent::ParamsCommitted { sequence: ack.data }),
                Err(e) => Err(CatalogError::Ack(e)),
            },
            CatalogCommand::BindChannels { .. } => match require_ack(response, MSG_DAQ_BIND) {
                Ok(ack) => {
                    let bind_sequence = self.channels_bound(ack.data);
                    Ok(SourceEvent::ChannelsBound { bind_sequence })
                },
                Err(e) => Err(CatalogError::Ack(e)),
            },
            CatalogCommand::ConfigureScope(config) => match require_ack(response, MSG_DAQ_CONTROL) {
                Ok(_) => {
                    self.scope_configured(config.mode);
                    Ok(SourceEvent::ScopeConfigured { mode: config.mode })
                },
                Err(e) => Err(CatalogError::Ack(e)),
            },
            CatalogCommand::ReadValues(reads) => {
                if let Some(status) = cal_read_rejection(response.payload.as_slice()) {
                    return Err(CatalogError::Ack(AckError::DeviceNak { request_type: MSG_CAL_READ, status }));
                }
                let (read_sequence, values) = match parse_cal_values(response.payload.as_slice()) {
                    Ok(v) => v,
                    Err(e) => return Err(CatalogError::Codec(e)),
                };
                if values.len() != reads.len() {
                    return Err(CatalogError::ReadCountMismatch);
                }
                let mut indexes: Vec<usize> = Vec::new();
                let mut i: usize = 0;
                while i < reads.len()
                    invariant
                        i <= reads@.len(),
                        indexes@ == reads@.take(i as int).map_values(|q: ValueRead| q.descriptor_index),
                    decreases reads.len() - i,
                {
                    indexes.push(reads[i].descriptor_index);
                    assert(indexes@ =~= reads@.take(i as int + 1).map_values(|q: ValueRead| q.descriptor_index));
                    i = i + 1;
                }
                assert(reads@.take(reads@.len() as int) =~= reads@);
                Ok(SourceEvent::Values { read_sequence, indexes, values })
            },
        }
    }
}

/// Why a descriptor enumeration failed.
#[derive(Debug, Clone, Copy, PartialEq, Eq)]
pub enum EnumerationFailure {
    Codec(CodecError),
    Page(EnumerationError),
    Identity(DeviceInfoError),
}

/// A descriptor enumeration in progress: the pages read so far and the
/// start of the next one.
pub struct Enumeration {
    pub expected_total: u16,
    pub start: u16,
    pub descriptors: Vec<VarDescriptor>,
    /// The page that reached the advertised total has been read.
    pub complete: bool,
}

/// What a list of descriptors holds.
pub open spec fn descriptor_views(v: Seq<VarDescriptor>) -> Seq<(Seq<char>, VarRef, u16, u16)> {
    v.map_values(|d: VarDescriptor| descriptor_view(d))
}

impl Enumeration {
    /// An enumeration of `expected_total` descriptors (the HELLO count).
    pub fn new(expected_total: u16) -> (r: Self)
        ensures
            r.expected_total == expected_total,
            r.start == 0,
            r.descriptors@.len() == 0,
            !r.complete,
    {
        Enumeration { expected_total, start: 0, descriptors: Vec::new(), complete: false }
    }

    /// The ENUMERATE payload for the next page.
    pub fn request(&self) -> (r: Vec<u8>)
        ensures
            r@ == le16(self.start) + seq![ENUM_PAGE_SIZE as u8, 0u8],
    {
        enum_request(self.start, ENUM_PAGE_SIZE as u8)
    }

    /// Takes an ENUMERATE answer: the page is checked against the HELLO
    /// total and the requested start, and appended.
    pub fn accept_page(&mut self, payload: &[u8]) -> (r: Result<(), EnumerationFailure>)
        ensures
            final(self).expected_total == old(self).expected_total,
            match spec_parse_descriptors(payload@) {
                Err(e) => r == Err::<(), EnumerationFailure>(EnumerationFailure::Codec(e))
                    && final(self).start == old(self).start,
                Ok((total, returned_start, ds)) => match spec_check_page(old(self).expected_total, old(self).start, total,
                    returned_start, ds.len() as int) {
                    Err(e) => r == Err::<(), EnumerationFailure>(EnumerationFailure::Page(e))
                        && final(self).start == old(self).start,
                    Ok(next) => r is Ok && final(self).start == next
                        && descriptor_views(final(self).descriptors@) == descriptor_views(old(self).descriptors@) + ds
                        && final(self).complete == (next == old(self).expected_total),
                },
            },
    {
        let (total, returned_start, mut page) = match parse_descriptors(payload) {
            Ok(v) => v,
            Err(e) => return Err(EnumerationFailure::Codec(e)),
        };
        let ghost ds = match spec_parse_descriptors(payload@) {
            Ok((_, _, d)) => d,
            Err(_) => Seq::empty(),
        };
        assert(descriptor_views(page@) =~= ds);
        let next = match check_descriptor_page(self.expected_total, self.start, total, returned_start, page.len()) {
            Ok(n) => n,
            Err(e) => return Err(EnumerationFailure::Page(e)),
        };
        let ghost before = self.descriptors@;
        self.descriptors.append(&mut page);
        assert(descriptor_views(self.descriptors@) =~= descriptor_views(before) + ds);
        self.start = next;
        self.complete = next == self.expected_total;
        Ok(())
    }

    /// Finishes a complete enumeration with the confirming HELLO: the
    /// catalog has the advertised size, the identity is valid, and the
    /// firmware build and total are unchanged.
    pub fn confirm(self, before_hash: u32, hello_payload: &[u8]) -> (r: Result<Vec<VarDescriptor>, EnumerationFailure>)
        ensures
            self.descriptors@.len() != self.expected_total ==> r == Err::<Vec<VarDescriptor>, EnumerationFailure>(
                EnumerationFailure::Page(EnumerationError::CountMismatch)),
            self.descriptors@.len() == self.expected_total && hello_payload@.len() < 84 ==> r == Err::<Vec<VarDescriptor>, EnumerationFailure>(
                EnumerationFailure::Codec(CodecError::MalformedPayload("HELLO is shorter than current layout"))),
            r matches Ok(v) ==> v@ == self.descriptors@,
            r is Ok <==> (self.descriptors@.len() == self.expected_total && hello_payload@.len() >= 84
                && get_u32(hello_payload@, 4) == before_hash && get_u16(hello_payload@, 8) == self.expected_total
                && exists|info: DeviceInfo| hello_fields_match(hello_payload@, info) && spec_validate_device_info(info) is None),
    {
        if let Err(e) = check_enumerated_count(self.expected_total, self.descriptors.len()) {
            return Err(EnumerationFailure::Page(e));
        }
        let confirmed = match parse_hello(hello_payload) {
            Ok(info) => info,
            Err(e) => return Err(EnumerationFailure::Codec(e)),
        };
        if let Err(e) = validate_device_info(&confirmed) {
            proof {
                assert forall|info: DeviceInfo| hello_fields_match(hello_payload@, info)
                    implies spec_validate_device_info(info) == spec_validate_device_info(confirmed) by {
                    assert(info.project_name@ == confirmed.project_name@);
                }
            }
            return Err(EnumerationFailure::Identity(e));
        }
        if let Err(e) = check_confirmed_identity(before_hash, self.expected_total, &confirmed) {
            return Err(EnumerationFailure::Page(e));
        }
        Ok(self.descriptors)
    }
}

impl EnumerationFailure {
    /// The text of the failure.
    pub fn message(&self) -> (r: String)
        ensures
            r@ == match *self {
                EnumerationFailure::Codec(c) => c.spec_message(),
                EnumerationFailure::Page(e) => spec_enumeration_error_message(e),
                EnumerationFailure::Identity(e) => spec_device_info_error_message(e),
            },
    {
        match self {
            EnumerationFailure::Codec(c) => c.message(),
            EnumerationFailure::Page(e) => e.message(),
            EnumerationFailure::Identity(e) => e.message(),
        }
    }
}

/// The error of a connection whose device never answered HELLO.
pub const HELLO_UNANSWERED: &'static str =
    "Viewer2000 device did not answer HELLO; check device power, SCI cable, serial port, and baud rate";

/// The log line of an established connection.
pub fn connected_text(label: &str) -> (r: String)
    ensures
        r@ == "connected through "@ + label@,
{
    let mut s = String::new();
    push_str(&mut s, "connected through ");
    push_str(&mut s, label);
    s
}

/// The log line of a capture replay the device acknowledged.
pub fn replay_requested_text(capture_id: u16, first_block_index: u16, max_blocks: u8) -> (r: String)
    ensures
        r@ == "requested capture replay: id="@ + decimal(capture_id as nat) + " first="@ + decimal(first_block_index as nat)
            + " max="@ + decimal(max_blocks as nat),
{
    let mut s = String::new();
    push_str(&mut s, "requested capture replay: id=");
    push_decimal(&mut s, capture_id as u64);
    push_str(&mut s, " first=");
    push_decimal(&mut s, first_block_index as u64);
    push_str(&mut s, " max=");
    push_decimal(&mut s, max_blocks as u64);
    s
}

/// The log line of a capture dropped because the device refused its replay.
pub fn abandoned_capture_text(capture_id: u16, request_type: u8, status: u8) -> (r: String)
    ensures
        r@ == "abandoned incomplete capture "@ + decimal(capture_id as nat) + ": "@
            + spec_ack_error_message(AckError::DeviceNak { request_type, status }),
{
    let mut s = String::new();
    push_str(&mut s, "abandoned incomplete capture ");
    push_decimal(&mut s, capture_id as u64);
    push_str(&mut s, ": ");
    let m = AckError::DeviceNak { request_type, status }.message();
    push_str(&mut s, m.as_str());
    s
}

/// The error of a refresh whose HELLO reports another build than STATUS.
pub fn refresh_mismatch_text(status_hash: u32, hello_hash: u32) -> (r: String)
    ensures
        r@ == "firmware changed while refreshing device information: STATUS=0x"@ + hex_fixed(status_hash as nat, 8, true)
            + ", HELLO=0x"@ + hex_fixed(hello_hash as nat, 8, true),
{
    let mut s = String::new();
    push_str(&mut s, "firmware changed while refreshing device information: STATUS=0x");
    push_hex(&mut s, status_hash as u64, 8, true);
    push_str(&mut s, ", HELLO=0x");
    push_hex(&mut s, hello_hash as u64, 8, true);
    s
}

} // verus!
