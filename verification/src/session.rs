//! Decisions of a Viewer2000 session that do not touch the transport:
//! acknowledgement checks, device identity validation and the assembly of
//! triggered captures from out-of-order batches.

use vstd::prelude::*;
use vstd::string::*;
use crate::codec::{Ack, CaptureBatch, CodecError, Frame, block_view, parse_ack, WIRE_VERSION, get_u32};
use crate::source::{DeviceInfo, ScopeBlock};
use crate::text::{decimal, hex_fixed, push_decimal, push_hex, push_str, chars_of};

verus! {

pub const EXPECTED_CONTRACT_VERSION: u16 = 14;
pub const MAX_RETRIES: usize = 2;
pub const CAPTURE_REPLAY_MAX_BLOCKS: u8 = 8;
/// Milliseconds without progress before missing capture blocks are requested again.
pub const CAPTURE_REPLAY_IDLE_DELAY_MS: u64 = 20;

/// The meaning of a nonzero ACK status.
pub open spec fn spec_ack_status_label(status: u8) -> Seq<char> {
    if status == 1 { "bad parameter"@ }
    else if status == 2 { "busy"@ }
    else if status == 3 { "bad state"@ }
    else if status == 4 { "unsupported"@ }
    else if status == 5 { "internal error"@ }
    else { "unknown"@ }
}

/// Names an ACK status; unknown values read "unknown".
pub fn ack_status_label(status: u8) -> (r: &'static str)
    ensures
        r@ == spec_ack_status_label(status),
{
    match status {
        1 => "bad parameter",
        2 => "busy",
        3 => "bad state",
        4 => "unsupported",
        5 => "internal error",
        _ => "unknown",
    }
}

/// Why an acknowledged request failed.
#[derive(Debug, Clone, Copy, PartialEq, Eq)]
pub enum AckError {
    /// The ACK payload itself was malformed.
    Codec(CodecError),
    /// The ACK echoes another request type.
    TypeMismatch,
    /// The device answered with a nonzero status; the link is healthy.
    DeviceNak { request_type: u8, status: u8 },
}

/// The text of an acknowledgement failure.
pub open spec fn spec_ack_error_message(e: AckError) -> Seq<char> {
    match e {
        AckError::Codec(c) => c.spec_message(),
        AckError::TypeMismatch => "ACK type mismatch"@,
        AckError::DeviceNak { request_type, status } => "device rejected message 0x"@
            + hex_fixed(request_type as nat, 2, true) + ": status="@ + decimal(status as nat) + " ("@
            + spec_ack_status_label(status) + ")"@,
    }
}

impl AckError {
    /// The message of this failure.
    pub fn message(&self) -> (r: String)
        ensures
            r@ == spec_ack_error_message(*self),
    {
        match self {
            AckError::Codec(c) => c.message(),
            AckError::TypeMismatch => "ACK type mismatch".to_owned(),
            AckError::DeviceNak { request_type, status } => {
                let mut s = String::new();
                push_str(&mut s, "device rejected message 0x");
                push_hex(&mut s, *request_type as u64, 2, true);
                push_str(&mut s, ": status=");
                push_decimal(&mut s, *status as u64);
                push_str(&mut s, " (");
                push_str(&mut s, ack_status_label(*status));
                push_str(&mut s, ")");
                s
            },
        }
    }
}

/// Checks that a response acknowledges `request_type` with status zero.
pub fn require_ack(frame: &Frame, request_type: u8) -> (r: Result<Ack, AckError>)
    ensures
        frame.payload@.len() < 8 ==> r == Err::<Ack, AckError>(AckError::Codec(CodecError::MalformedPayload("ACK"))),
        frame.payload@.len() >= 8 ==> ({
            let p = frame.payload@;
            if p[1] != request_type {
                r == Err::<Ack, AckError>(AckError::TypeMismatch)
            } else if p[0] != 0 {
                r == Err::<Ack, AckError>(AckError::DeviceNak { request_type, status: p[0] })
            } else {
                r == Ok::<Ack, AckError>(Ack { status: 0, echoed_type: request_type, data: get_u32(p, 4) })
            }
        }),
{
    let ack = match parse_ack(frame.payload.as_slice()) {
        Ok(a) => a,
        Err(e) => return Err(AckError::Codec(e)),
    };
    if ack.echoed_type != request_type {
        return Err(AckError::TypeMismatch);
    }
    if ack.status != 0 {
        return Err(AckError::DeviceNak { request_type, status: ack.status });
    }
    Ok(ack)
}

/// Whether a character has the Unicode White_Space property, which is
/// what `char::is_whitespace` tests: the 25 code points U+0009..=U+000D,
/// U+0020, U+0085, U+00A0, U+1680, U+2000..=U+200A, U+2028, U+2029,
/// U+202F, U+205F and U+3000.
pub open spec fn unicode_whitespace(c: char) -> bool {
    let n = c as u32;
    ||| 0x09 <= n <= 0x0D
    ||| n == 0x20
    ||| n == 0x85
    ||| n == 0xA0
    ||| n == 0x1680
    ||| 0x2000 <= n <= 0x200A
    ||| n == 0x2028
    ||| n == 0x2029
    ||| n == 0x202F
    ||| n == 0x205F
    ||| n == 0x3000
}

/// Whether a character is Unicode white space (as `char::is_whitespace`).
pub fn is_whitespace(c: char) -> (r: bool)
    ensures
        r == unicode_whitespace(c),
{
    let n = c as u32;
    (0x09 <= n && n <= 0x0D) || n == 0x20 || n == 0x85 || n == 0xA0 || n == 0x1680
        || (0x2000 <= n && n <= 0x200A) || n == 0x2028 || n == 0x2029 || n == 0x202F || n == 0x205F || n == 0x3000
}

/// Why a HELLO identity is refused.
#[derive(Debug, Clone, Copy, PartialEq, Eq)]
pub enum DeviceInfoError {
    WireVersion { device: u16 },
    ContractVersion { device: u16 },
    EmptyProjectName,
    ProjectNameWhitespace,
    ProjectNameTooLong,
    ProjectNameNotPrintable,
    ZeroScopeChannels,
    ZeroScopeBlockTicks,
    ZeroScopeRing,
}

/// Whether a name starts or ends with whitespace (so that trimming changes it).
pub open spec fn has_edge_whitespace(name: Seq<char>) -> bool {
    name.len() > 0 && (unicode_whitespace(name[0]) || unicode_whitespace(name.last()))
}

/// Whether every octet of a text is printable ASCII.
pub open spec fn bytes_printable(b: Seq<u8>) -> bool {
    forall|j: int| 0 <= j < b.len() ==> 0x20 <= #[trigger] b[j] <= 0x7e
}

/// The first rule of the current contract that a HELLO identity breaks.
pub open spec fn spec_validate_device_info(info: DeviceInfo) -> Option<DeviceInfoError> {
    if info.protocol_version != WIRE_VERSION as u16 {
        Some(DeviceInfoError::WireVersion { device: info.protocol_version })
    } else if info.contract_version != EXPECTED_CONTRACT_VERSION {
        Some(DeviceInfoError::ContractVersion { device: info.contract_version })
    } else if info.project_name@.len() == 0 {
        Some(DeviceInfoError::EmptyProjectName)
    } else if has_edge_whitespace(info.project_name@) {
        Some(DeviceInfoError::ProjectNameWhitespace)
    } else if vstd::utf8::encode_utf8(info.project_name@).len() > 32 {
        Some(DeviceInfoError::ProjectNameTooLong)
    } else if !bytes_printable(vstd::utf8::encode_utf8(info.project_name@)) {
        Some(DeviceInfoError::ProjectNameNotPrintable)
    } else if info.scope_max_ch == 0 {
        Some(DeviceInfoError::ZeroScopeChannels)
    } else if info.scope_block_ticks == 0 {
        Some(DeviceInfoError::ZeroScopeBlockTicks)
    } else if info.scope_ring_words == 0 {
        Some(DeviceInfoError::ZeroScopeRing)
    } else {
        None
    }
}

/// Checks a HELLO identity against the current contract: wire version,
/// contract version, a project name of 1 to 32 printable ASCII octets
/// without surrounding whitespace, and nonzero scope resources.
#[verifier::loop_isolation(false)]
pub fn validate_device_info(info: &DeviceInfo) -> (r: Result<(), DeviceInfoError>)
    ensures
        match spec_validate_device_info(*info) {
            None => r is Ok,
            Some(e) => r == Err::<(), DeviceInfoError>(e),
        },
{
    if info.protocol_version != WIRE_VERSION as u16 {
        return Err(DeviceInfoError::WireVersion { device: info.protocol_version });
    }
    if info.contract_version != EXPECTED_CONTRACT_VERSION {
        return Err(DeviceInfoError::ContractVersion { device: info.contract_version });
    }
    let name = info.project_name.as_str();
    if name.is_empty() {
        return Err(DeviceInfoError::EmptyProjectName);
    }
    let chars = chars_of(name);
    if is_whitespace(chars[0]) || is_whitespace(chars[chars.len() - 1]) {
        return Err(DeviceInfoError::ProjectNameWhitespace);
    }
    let bytes = name.as_bytes();
    if bytes.len() > 32 {
        return Err(DeviceInfoError::ProjectNameTooLong);
    }
    let mut i: usize = 0;
    while i < bytes.len()
        invariant
            i <= bytes@.len(),
            bytes@ == name.spec_bytes(),
            forall|j: int| 0 <= j < i ==> 0x20 <= #[trigger] bytes@[j] <= 0x7e,
        decreases bytes.len() - i,
    {
        if bytes[i] < 0x20 || bytes[i] > 0x7e {
            assert(!bytes_printable(bytes@));
            return Err(DeviceInfoError::ProjectNameNotPrintable);
        }
        i = i + 1;
    }
    if info.scope_max_ch == 0 {
        return Err(DeviceInfoError::ZeroScopeChannels);
    }
    if info.scope_block_ticks == 0 {
        return Err(DeviceInfoError::ZeroScopeBlockTicks);
    }
    if info.scope_ring_words == 0 {
        return Err(DeviceInfoError::ZeroScopeRing);
    }
    Ok(())
}

/// The text of a refused identity.
pub open spec fn spec_device_info_error_message(e: DeviceInfoError) -> Seq<char> {
    match e {
        DeviceInfoError::WireVersion { device } =>
            "firmware/Scope2000 wire version mismatch; reflash v10 firmware or use a matching Scope2000 build (device="@
            + decimal(device as nat) + ", host=10)"@,
        DeviceInfoError::ContractVersion { device } =>
            "contract version mismatch: device="@ + decimal(device as nat) + ", host=14"@,
        DeviceInfoError::EmptyProjectName =>
            "HELLO project_name is empty; rebuild with the current Viewer2000 baker (use \"untitled\" for an unnamed demo)"@,
        DeviceInfoError::ProjectNameWhitespace => "HELLO project_name contains leading or trailing whitespace"@,
        DeviceInfoError::ProjectNameTooLong => "HELLO project_name exceeds the 32-byte contract limit"@,
        DeviceInfoError::ProjectNameNotPrintable => "HELLO project_name must contain printable ASCII only"@,
        DeviceInfoError::ZeroScopeChannels => "HELLO scope_max_ch must be nonzero"@,
        DeviceInfoError::ZeroScopeBlockTicks => "HELLO scope_block_ticks must be nonzero"@,
        DeviceInfoError::ZeroScopeRing => "HELLO scope_ring_words must be nonzero"@,
    }
}

impl DeviceInfoError {
    /// The message of this refusal.
    pub fn message(&self) -> (r: String)
        ensures
            r@ == spec_device_info_error_message(*self),
    {
        match self {
            DeviceInfoError::WireVersion { device } => {
                let mut s = String::new();
                push_str(&mut s, "firmware/Scope2000 wire version mismatch; reflash v10 firmware or use a matching Scope2000 build (device=");
                push_decimal(&mut s, *device as u64);
                push_str(&mut s, ", host=10)");
                s
            },
            DeviceInfoError::ContractVersion { device } => {
                let mut s = String::new();
                push_str(&mut s, "contract version mismatch: device=");
                push_decimal(&mut s, *device as u64);
                push_str(&mut s, ", host=14");
                s
            },
            DeviceInfoError::EmptyProjectName =>
                "HELLO project_name is empty; rebuild with the current Viewer2000 baker (use \"untitled\" for an unnamed demo)".to_owned(),
            DeviceInfoError::ProjectNameWhitespace => "HELLO project_name contains leading or trailing whitespace".to_owned(),
            DeviceInfoError::ProjectNameTooLong => "HELLO project_name exceeds the 32-byte contract limit".to_owned(),
            DeviceInfoError::ProjectNameNotPrintable => "HELLO project_name must contain printable ASCII only".to_owned(),
            DeviceInfoError::ZeroScopeChannels => "HELLO scope_max_ch must be nonzero".to_owned(),
            DeviceInfoError::ZeroScopeBlockTicks => "HELLO scope_block_ticks must be nonzero".to_owned(),
            DeviceInfoError::ZeroScopeRing => "HELLO scope_ring_words must be nonzero".to_owned(),
        }
    }
}

} // verus!

verus! {

/// The view of an optional block slot.
pub open spec fn slot_view(s: Option<ScopeBlock>) -> Option<(u32, u16, u16, u16, u16, u16, u16, Seq<u8>)> {
    match s {
        Some(b) => Some(block_view(b)),
        None => None,
    }
}

/// How many slots are filled.
pub open spec fn filled(s: Seq<Option<(u32, u16, u16, u16, u16, u16, u16, Seq<u8>)>>) -> nat
    decreases s.len(),
{
    if s.len() == 0 { 0 } else { filled(s.drop_last()) + if s.last() is Some { 1nat } else { 0nat } }
}

proof fn lemma_filled_bound(s: Seq<Option<(u32, u16, u16, u16, u16, u16, u16, Seq<u8>)>>)
    ensures
        filled(s) <= s.len(),
        filled(s) == s.len() <==> forall|j: int| 0 <= j < s.len() ==> (#[trigger] s[j]) is Some,
    decreases s.len(),
{
    if s.len() > 0 {
        lemma_filled_bound(s.drop_last());
        if filled(s) == s.len() {
            assert forall|j: int| 0 <= j < s.len() implies (#[trigger] s[j]) is Some by {
                if j < s.len() - 1 {
                    assert(s[j] == s.drop_last()[j]);
                }
            }
        } else {
            if forall|j: int| 0 <= j < s.len() ==> (#[trigger] s[j]) is Some {
                assert forall|j: int| 0 <= j < s.drop_last().len() implies (#[trigger] s.drop_last()[j]) is Some by {
                    assert(s.drop_last()[j] == s[j]);
                }
            }
        }
    }
}

proof fn lemma_filled_update(s: Seq<Option<(u32, u16, u16, u16, u16, u16, u16, Seq<u8>)>>, i: int, v: (u32, u16, u16, u16, u16, u16, u16, Seq<u8>))
    requires
        0 <= i < s.len(),
        s[i] is None,
    ensures
        filled(s.update(i, Some(v))) == filled(s) + 1,
    decreases s.len(),
{
    let t = s.update(i, Some(v));
    if i == s.len() - 1 {
        assert(t.drop_last() =~= s.drop_last());
    } else {
        lemma_filled_update(s.drop_last(), i, v);
        assert(t.drop_last() =~= s.drop_last().update(i, Some(v)));
    }
}

/// Why a capture batch was refused.
#[derive(Debug, Clone, Copy, PartialEq, Eq)]
pub enum CaptureError {
    MetadataMismatch,
    PastTotal,
    BindMismatch { expected: u16, received: u16 },
}

/// The text of a refused capture batch.
pub open spec fn spec_capture_error_message(e: CaptureError) -> Seq<char> {
    match e {
        CaptureError::MetadataMismatch => "capture batch metadata mismatch"@,
        CaptureError::PastTotal => "capture batch extends past total_blocks"@,
        CaptureError::BindMismatch { expected, received } => "capture batch bind sequence mismatch: expected "@
            + decimal(expected as nat) + ", received "@ + decimal(received as nat),
    }
}

impl CaptureError {
    /// The message of this refusal.
    pub fn message(&self) -> (r: String)
        ensures
            r@ == spec_capture_error_message(*self),
    {
        match self {
            CaptureError::MetadataMismatch => "capture batch metadata mismatch".to_owned(),
            CaptureError::PastTotal => "capture batch extends past total_blocks".to_owned(),
            CaptureError::BindMismatch { expected, received } => {
                let mut s = String::new();
                push_str(&mut s, "capture batch bind sequence mismatch: expected ");
                push_decimal(&mut s, *expected as u64);
                push_str(&mut s, ", received ");
                push_decimal(&mut s, *received as u64);
                s
            },
        }
    }
}

/// A triggered capture being gathered block by block, possibly out of
/// order and with replays.
pub struct CaptureAssembly {
    pub capture_id: u16,
    pub total_blocks: u16,
    pub trigger_tick: u32,
    pub bind_sequence: Option<u16>,
    pub blocks: Vec<Option<ScopeBlock>>,
    pub received: usize,
    /// Monotonic milliseconds of the last progress.
    pub last_progress_ms: u64,
}

/// The index of the first empty slot at or after `from`, or the length.
pub open spec fn first_empty_from(s: Seq<Option<(u32, u16, u16, u16, u16, u16, u16, Seq<u8>)>>, from: int) -> int
    decreases s.len() - from,
{
    if from >= s.len() || s[from] is None { from } else { first_empty_from(s, from + 1) }
}

/// The number of consecutive empty slots from `from`, at most `cap`.
pub open spec fn empty_run(s: Seq<Option<(u32, u16, u16, u16, u16, u16, u16, Seq<u8>)>>, from: int, cap: nat) -> nat
    decreases cap,
{
    if cap == 0 || from >= s.len() || s[from] is Some { 0 } else { 1 + empty_run(s, from + 1, (cap - 1) as nat) }
}

impl CaptureAssembly {
    /// The slots, each empty or holding a block.
    pub closed spec fn slots(&self) -> Seq<Option<(u32, u16, u16, u16, u16, u16, u16, Seq<u8>)>> {
        self.blocks@.map_values(|s: Option<ScopeBlock>| slot_view(s))
    }

    /// One slot per block of the capture, and a count of the filled ones.
    pub closed spec fn wf(&self) -> bool {
        &&& self.blocks@.len() == self.total_blocks
        &&& self.received == filled(self.slots())
    }

    /// What well-formedness gives a caller: one slot per block of the
    /// capture, and a received count that is the number of filled slots,
    /// so never more than the total.
    pub proof fn lemma_wf_shape(&self)
        requires
            self.wf(),
        ensures
            self.slots().len() == self.total_blocks,
            self.received == filled(self.slots()),
            self.received <= self.total_blocks,
    {
        lemma_filled_bound(self.slots());
    }

    /// Whether every slot is filled.
    pub open spec fn spec_complete(&self) -> bool {
        forall|j: int| 0 <= j < self.slots().len() ==> (#[trigger] self.slots()[j]) is Some
    }

    /// An empty assembly of `total_blocks` slots.
    pub fn new(capture_id: u16, total_blocks: u16, trigger_tick: u32, bind_sequence: Option<u16>, now_ms: u64) -> (r: Self)
        ensures
            r.wf(),
            r.capture_id == capture_id,
            r.total_blocks == total_blocks,
            r.trigger_tick == trigger_tick,
            r.bind_sequence == bind_sequence,
            r.last_progress_ms == now_ms,
            r.slots() == Seq::new(total_blocks as nat, |j: int| None::<(u32, u16, u16, u16, u16, u16, u16, Seq<u8>)>),
    {
        let mut blocks: Vec<Option<ScopeBlock>> = Vec::new();
        let mut i: usize = 0;
        while i < total_blocks as usize
            invariant
                i <= total_blocks,
                blocks@.len() == i,
                forall|j: int| 0 <= j < i ==> (#[trigger] blocks@[j]) is None,
            decreases total_blocks as usize - i,
        {
            blocks.push(None);
            i = i + 1;
        }
        let r = CaptureAssembly { capture_id, total_blocks, trigger_tick, bind_sequence, blocks, received: 0, last_progress_ms: now_ms };
        proof {
            assert(r.slots() =~= Seq::new(total_blocks as nat, |j: int| None::<(u32, u16, u16, u16, u16, u16, u16, Seq<u8>)>));
            lemma_filled_zero(r.slots());
        }
        r
    }

    /// Takes the trigger tick of a newer report, and its bind sequence when it has one.
    pub fn update_metadata(&mut self, trigger_tick: u32, bind_sequence: Option<u16>)
        ensures
            final(self).trigger_tick == trigger_tick,
            final(self).bind_sequence == if bind_sequence is Some { bind_sequence } else { old(self).bind_sequence },
            final(self).capture_id == old(self).capture_id,
            final(self).total_blocks == old(self).total_blocks,
            final(self).last_progress_ms == old(self).last_progress_ms,
            final(self).slots() == old(self).slots(),
            final(self).wf() == old(self).wf(),
    {
        self.trigger_tick = trigger_tick;
        if bind_sequence.is_some() {
            self.bind_sequence = bind_sequence;
        }
    }

    /// Files a batch: its id and total must match, it must fit, and under a
    /// known bind sequence every block must carry it. Empty slots take the
    /// batch's blocks, filled slots keep theirs; the result tells whether
    /// any slot was filled.
    #[verifier::loop_isolation(false)]
    pub fn insert_batch(&mut self, batch: CaptureBatch, now_ms: u64) -> (r: Result<bool, CaptureError>)
        requires
            old(self).wf(),
        ensures
            final(self).wf(),
            final(self).capture_id == old(self).capture_id,
            final(self).total_blocks == old(self).total_blocks,
            final(self).bind_sequence == old(self).bind_sequence,
            batch.capture_id != old(self).capture_id || batch.total_blocks != old(self).total_blocks
                ==> r == Err::<bool, CaptureError>(CaptureError::MetadataMismatch) && *final(self) == *old(self),
            batch.capture_id == old(self).capture_id && batch.total_blocks == old(self).total_blocks
                && batch.first_block_index + batch.blocks@.len() > old(self).total_blocks
                ==> r == Err::<bool, CaptureError>(CaptureError::PastTotal) && *final(self) == *old(self),
            batch.capture_id == old(self).capture_id && batch.total_blocks == old(self).total_blocks
                && batch.first_block_index + batch.blocks@.len() <= old(self).total_blocks
                && old(self).bind_sequence is Some
                && (exists|j: int| 0 <= j < batch.blocks@.len() && (#[trigger] batch.blocks@[j]).bind_seq != old(self).bind_sequence->0)
                ==> (r matches Err(CaptureError::BindMismatch { expected, received })
                    && expected == old(self).bind_sequence->0
                    && (exists|j: int| 0 <= j < batch.blocks@.len() && (#[trigger] batch.blocks@[j]).bind_seq == received
                        && received != expected
                        && forall|k: int| 0 <= k < j ==> batch.blocks@[k].bind_seq == expected)
                    && *final(self) == *old(self)),
            r is Err ==> batch.capture_id != old(self).capture_id || batch.total_blocks != old(self).total_blocks
                || batch.first_block_index + batch.blocks@.len() > old(self).total_blocks
                || (old(self).bind_sequence is Some
                    && exists|j: int| 0 <= j < batch.blocks@.len() && (#[trigger] batch.blocks@[j]).bind_seq != old(self).bind_sequence->0),
            r is Ok ==> ({
                let first = batch.first_block_index as int;
                let n = batch.blocks@.len() as int;
                &&& final(self).trigger_tick == batch.trigger_tick
                &&& final(self).slots() == filed_slots(old(self).slots(), first, batch.blocks@.map_values(|b: ScopeBlock| block_view(b)))
                &&& final(self).slots().len() == old(self).slots().len()
                &&& forall|i: int| 0 <= i < final(self).slots().len() ==> #[trigger] final(self).slots()[i] ==
                    if first <= i < first + n && old(self).slots()[i] is None {
                        Some(block_view(batch.blocks@[i - first]))
                    } else {
                        old(self).slots()[i]
                    }
                &&& r == Ok::<bool, CaptureError>(exists|i: int| first <= i < first + n && (#[trigger] old(self).slots()[i]) is None)
                &&& final(self).last_progress_ms == if r == Ok::<bool, CaptureError>(true) || batch.remaining_hint == 0 { now_ms } else { old(self).last_progress_ms }
            }),
    {
        if batch.capture_id != self.capture_id || batch.total_blocks != self.total_blocks {
            return Err(CaptureError::MetadataMismatch);
        }
        if batch.first_block_index as usize > self.blocks.len() || batch.blocks.len() > self.blocks.len() - batch.first_block_index as usize {
            return Err(CaptureError::PastTotal);
        }
        if let Some(bind_sequence) = self.bind_sequence {
            let mut j: usize = 0;
            while j < batch.blocks.len()
                invariant
                    j <= batch.blocks@.len(),
                    forall|k: int| 0 <= k < j ==> (#[trigger] batch.blocks@[k]).bind_seq == bind_sequence,
                decreases batch.blocks.len() - j,
            {
                if batch.blocks[j].bind_seq != bind_sequence {
                    return Err(CaptureError::BindMismatch { expected: bind_sequence, received: batch.blocks[j].bind_seq });
                }
                j = j + 1;
            }
        }
        let ghost old_slots = self.slots();
        let ghost all = batch.blocks@;
        let first = batch.first_block_index as usize;
        let n = batch.blocks.len();
        self.trigger_tick = batch.trigger_tick;
        let mut progressed = false;
        let mut remaining = batch.blocks;
        let mut offset: usize = 0;
        while offset < n
            invariant
                offset <= n,
                first + n <= self.blocks@.len(),
                first + n <= self.blocks.len(),
                self.capture_id == old(self).capture_id,
                self.total_blocks == old(self).total_blocks,
                self.bind_sequence == old(self).bind_sequence,
                self.trigger_tick == batch.trigger_tick,
                self.last_progress_ms == old(self).last_progress_ms,
                old_slots == old(self).slots(),
                old_slots.len() == old(self).total_blocks,
                self.blocks@.len() == old_slots.len(),
                remaining@ == all.skip(offset as int),
                all.len() == n,
                self.received == filled(self.slots()),
                forall|i: int| 0 <= i < self.slots().len() ==> #[trigger] self.slots()[i] ==
                    if first <= i < first + offset && old_slots[i] is None {
                        Some(block_view(all[i - first]))
                    } else {
                        old_slots[i]
                    },
                progressed == exists|i: int| first <= i < first + offset && (#[trigger] old_slots[i]) is None,
            decreases n - offset,
        {
            let block = remaining.remove(0);
            assert(block == all[offset as int]);
            let index = first + offset;
            let ghost before = self.slots();
            assert(before[index as int] == old_slots[index as int]);
            proof {
                lemma_filled_bound(before);
            }
            if self.blocks[index].is_none() {
                let ghost bv = block_view(block);
                self.blocks.set(index, Some(block));
                proof {
                    assert(self.slots() =~= before.update(index as int, Some(bv)));
                    lemma_filled_update(before, index as int, bv);
                }
                assert(self.received < self.blocks.len());
                self.received = self.received + 1;
                progressed = true;
            } else {
                proof { assert(self.slots() =~= before); }
            }
            assert(remaining@ =~= all.skip(offset as int + 1));
            offset = offset + 1;
        }
        if progressed || batch.remaining_hint == 0 {
            self.last_progress_ms = now_ms;
        }
        Ok(progressed)
    }

    /// Whether every block has arrived.
    pub fn is_complete(&self) -> (r: bool)
        requires
            self.wf(),
        ensures
            r == self.spec_complete(),
    {
        proof { lemma_filled_bound(self.slots()); }
        self.received == self.blocks.len()
    }

    /// The first empty slot and how many empty slots follow it (counting
    /// it), at most `CAPTURE_REPLAY_MAX_BLOCKS`; `None` when all are filled.
    pub fn first_missing_range(&self) -> (r: Option<(u16, u8)>)
        requires
            self.wf(),
        ensures
            ({
                let s = self.slots();
                let start = first_empty_from(s, 0);
                if start >= s.len() {
                    r is None
                } else {
                    r == Some((start as u16, empty_run(s, start, CAPTURE_REPLAY_MAX_BLOCKS as nat) as u8))
                }
            }),
    {
        let ghost s = self.slots();
        let mut start: usize = 0;
        while start < self.blocks.len() && self.blocks[start].is_some()
            invariant
                start <= self.blocks@.len(),
                s == self.slots(),
                first_empty_from(s, start as int) == first_empty_from(s, 0),
            decreases self.blocks.len() - start,
        {
            assert(s[start as int] is Some);
            start = start + 1;
        }
        if start >= self.blocks.len() {
            return None;
        }
        let mut count: usize = 0;
        while start + count < self.blocks.len() && count < CAPTURE_REPLAY_MAX_BLOCKS as usize && self.blocks[start + count].is_none()
            invariant
                start < self.blocks@.len(),
                start + count <= self.blocks@.len(),
                start + count <= self.blocks.len(),
                count <= CAPTURE_REPLAY_MAX_BLOCKS,
                s == self.slots(),
                empty_run(s, start as int, CAPTURE_REPLAY_MAX_BLOCKS as nat)
                    == count + empty_run(s, (start + count) as int, (CAPTURE_REPLAY_MAX_BLOCKS - count) as nat),
            decreases CAPTURE_REPLAY_MAX_BLOCKS as usize - count,
        {
            assert(s[(start + count) as int] is None);
            count = count + 1;
        }
        Some((start as u16, count as u8))
    }

    /// When no progress has been made for `CAPTURE_REPLAY_IDLE_DELAY_MS`
    /// and blocks are missing, the replay request to send (capture id,
    /// first missing block, count), and the progress clock restarts.
    pub fn take_replay_request(&mut self, now_ms: u64) -> (r: Option<(u16, u16, u8)>)
        requires
            old(self).wf(),
        ensures
            final(self).wf(),
            final(self).slots() == old(self).slots(),
            final(self).capture_id == old(self).capture_id,
            final(self).total_blocks == old(self).total_blocks,
            final(self).trigger_tick == old(self).trigger_tick,
            final(self).bind_sequence == old(self).bind_sequence,
            ({
                let s = old(self).slots();
                let start = first_empty_from(s, 0);
                if old(self).spec_complete() || now_ms < old(self).last_progress_ms + CAPTURE_REPLAY_IDLE_DELAY_MS
                    || start >= s.len() {
                    r is None && final(self).last_progress_ms == old(self).last_progress_ms
                } else {
                    r == Some((old(self).capture_id, start as u16, empty_run(s, start, CAPTURE_REPLAY_MAX_BLOCKS as nat) as u8))
                        && final(self).last_progress_ms == now_ms
                }
            }),
    {
        if self.is_complete() || now_ms.saturating_sub(self.last_progress_ms) < CAPTURE_REPLAY_IDLE_DELAY_MS {
            return None;
        }
        match self.first_missing_range() {
            None => None,
            Some((first, max_blocks)) => {
                self.last_progress_ms = now_ms;
                Some((self.capture_id, first, max_blocks))
            },
        }
    }

    /// The blocks of a complete capture, in order.
    pub fn finish(self) -> (r: Vec<ScopeBlock>)
        requires
            self.wf(),
            self.spec_complete(),
        ensures
            r@.len() == self.slots().len(),
            forall|j: int| 0 <= j < r@.len() ==> self.slots()[j] == Some(block_view(#[trigger] r@[j])),
    {
        let ghost s = self.slots();
        let mut slots = self.blocks;
        let mut out: Vec<ScopeBlock> = Vec::new();
        let n = slots.len();
        while slots.len() > 0
            invariant
                n == s.len(),
                slots@.len() + out@.len() == n,
                forall|j: int| 0 <= j < slots@.len() ==> #[trigger] slot_view(slots@[j]) == s[j],
                forall|j: int| 0 <= j < slots@.len() ==> (#[trigger] s[j]) is Some,
                forall|j: int| 0 <= j < out@.len() ==> s[n - 1 - j] == Some(block_view(#[trigger] out@[j])),
            decreases slots.len(),
        {
            let last = slots.pop().unwrap();
            assert(slot_view(last) == s[slots@.len() as int]);
            match last {
                Some(b) => out.push(b),
                None => { assert(false); },
            }
        }
        let mut result: Vec<ScopeBlock> = Vec::new();
        while out.len() > 0
            invariant
                out@.len() + result@.len() == n,
                forall|j: int| 0 <= j < out@.len() ==> s[n - 1 - j] == Some(block_view(#[trigger] out@[j])),
                forall|j: int| 0 <= j < result@.len() ==> s[j] == Some(block_view(#[trigger] result@[j])),
            decreases out.len(),
        {
            let b = out.pop().unwrap();
            result.push(b);
        }
        result
    }
}

proof fn lemma_filled_zero(s: Seq<Option<(u32, u16, u16, u16, u16, u16, u16, Seq<u8>)>>)
    requires
        forall|j: int| 0 <= j < s.len() ==> (#[trigger] s[j]) is None,
    ensures
        filled(s) == 0,
    decreases s.len(),
{
    if s.len() > 0 {
        assert forall|j: int| 0 <= j < s.drop_last().len() implies (#[trigger] s.drop_last()[j]) is None by {
            assert(s.drop_last()[j] == s[j]);
        }
        lemma_filled_zero(s.drop_last());
    }
}


/// One filing of a batch's blocks into the capture slots (the effect that
/// `CaptureAssembly::insert_batch` states): empty slots in the batch's
/// range take its blocks, every other slot keeps what it holds.
pub open spec fn filed_slots(
    slots: Seq<Option<(u32, u16, u16, u16, u16, u16, u16, Seq<u8>)>>,
    first: int,
    views: Seq<(u32, u16, u16, u16, u16, u16, u16, Seq<u8>)>,
) -> Seq<Option<(u32, u16, u16, u16, u16, u16, u16, Seq<u8>)>> {
    Seq::new(slots.len(), |i: int|
        if first <= i < first + views.len() && slots[i] is None { Some(views[i - first]) } else { slots[i] })
}

/// Filing is idempotent and never overwrites: a batch filed twice (a
/// replay of blocks already received) changes nothing the second time and
/// reports that no slot was filled, and a slot once filled keeps its block.
pub proof fn law_capture_filing_idempotent(
    slots: Seq<Option<(u32, u16, u16, u16, u16, u16, u16, Seq<u8>)>>,
    first: int,
    views: Seq<(u32, u16, u16, u16, u16, u16, u16, Seq<u8>)>,
)
    requires
        0 <= first,
        first + views.len() <= slots.len(),
    ensures
        filed_slots(filed_slots(slots, first, views), first, views) == filed_slots(slots, first, views),
        !(exists|i: int| first <= i < first + views.len() && (#[trigger] filed_slots(slots, first, views)[i]) is None),
        forall|i: int| 0 <= i < slots.len() && (#[trigger] slots[i]) is Some ==> filed_slots(slots, first, views)[i] == slots[i],
{
    assert(filed_slots(filed_slots(slots, first, views), first, views) =~= filed_slots(slots, first, views));
}

} // verus!
