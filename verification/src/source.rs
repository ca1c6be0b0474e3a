//! The shared service model: variable types and descriptors, device
//! identity and status, scope blocks, commands, fault codes and the events
//! a data source reports.

use vstd::prelude::*;
use vstd::string::*;
use crate::clock::local_minute_text;
use crate::text::{decimal, push_decimal, push_str};

verus! {

/// Wire width class of a firmware variable.
#[derive(Debug, Clone, Copy, PartialEq, Eq, Structural, Hash)]
pub enum VarType {
    I16,
    U16,
    I32,
    U32,
    F32,
}

impl VarType {
    /// The wire code of each type.
    pub open spec fn spec_wire(self) -> u16 {
        match self {
            VarType::I16 => 0,
            VarType::U16 => 1,
            VarType::I32 => 2,
            VarType::U32 => 3,
            VarType::F32 => 4,
        }
    }

    /// Decodes a wire type code; codes above 4 are not types.
    pub fn from_wire(value: u16) -> (r: Option<Self>)
        ensures
            value <= 4 <==> r is Some,
            r matches Some(t) ==> t.spec_wire() == value,
    {
        match value {
            0 => Some(VarType::I16),
            1 => Some(VarType::U16),
            2 => Some(VarType::I32),
            3 => Some(VarType::U32),
            4 => Some(VarType::F32),
            _ => None,
        }
    }

    /// The wire code of this type.
    pub fn wire_value(self) -> (r: u16)
        ensures
            r == self.spec_wire(),
    {
        match self {
            VarType::I16 => 0,
            VarType::U16 => 1,
            VarType::I32 => 2,
            VarType::U32 => 3,
            VarType::F32 => 4,
        }
    }

    /// Octets per sample of this type.
    pub open spec fn spec_width(self) -> usize {
        match self {
            VarType::I16 | VarType::U16 => 2,
            _ => 4,
        }
    }

    /// Octets per sample: two for 16-bit types, four otherwise.
    pub fn wire_width(self) -> (r: usize)
        ensures
            r == self.spec_width(),
    {
        match self {
            VarType::I16 | VarType::U16 => 2,
            VarType::I32 | VarType::U32 | VarType::F32 => 4,
        }
    }
}

/// A firmware variable: its address and type.
#[derive(Debug, Clone, Copy, PartialEq, Eq, Structural, Hash)]
pub struct VarRef {
    pub addr: u32,
    pub ty: VarType,
}

pub const KIND_PARAMETER: u16 = 0x0001;
pub const KIND_SCOPE: u16 = 0x0002;
pub const KIND_USER: u16 = 0x0004;

/// A published variable descriptor.
#[derive(Debug)]
pub struct VarDescriptor {
    pub name: String,
    pub var: VarRef,
    pub kind: u16,
    pub prescaler: u16,
}

impl Clone for VarDescriptor {
    fn clone(&self) -> (r: Self)
        ensures
            r == *self,
    {
        VarDescriptor { name: self.name.clone(), var: self.var, kind: self.kind, prescaler: self.prescaler }
    }
}

impl VarDescriptor {
    /// Parameters carry kind bit 0.
    pub fn is_parameter(&self) -> (r: bool)
        ensures
            r == (self.kind & KIND_PARAMETER != 0),
    {
        self.kind & KIND_PARAMETER != 0
    }

    /// Scope-bindable variables carry kind bit 1.
    pub fn is_scope(&self) -> (r: bool)
        ensures
            r == (self.kind & KIND_SCOPE != 0),
    {
        self.kind & KIND_SCOPE != 0
    }

    /// User variables carry kind bit 2; the rest are system variables.
    pub fn is_user(&self) -> (r: bool)
        ensures
            r == (self.kind & KIND_USER != 0),
    {
        self.kind & KIND_USER != 0
    }
}

pub const MCU_MODEL_UNKNOWN: u16 = 0;
pub const MCU_MODEL_F28P65X: u16 = 1;
pub const MCU_MODEL_F28379D: u16 = 2;

pub const CAP_ENUM: u32 = 1;
pub const CAP_CAL: u32 = 2;
pub const CAP_SCOPE_STREAM: u32 = 4;
pub const CAP_SCOPE_CAPTURE: u32 = 8;
pub const CAP_PRE_TRIGGER: u32 = 16;
pub const CAP_SYSTEM_CMD: u32 = 32;
pub const CAP_NATIVE_BLOCK: u32 = 64;
pub const CAP_CT_ZERO_CAL: u32 = 128;
pub const CAP_ABZ_ZEROING: u32 = 256;
pub const CAP_CAPTURE_FORCE: u32 = 512;
pub const DAQ_FLAG_TRIGGER_DISABLED: u16 = 1;
pub const CAL_READ_MAX: usize = 32;
pub const NO_CAPTURE_ACK: u16 = 0xFFFF;
pub const FAULT_USER_BASE: u16 = 256;
pub const FAULT_USER_OVER_SPEED: u16 = 257;

/// Identity and resources that a device reports in HELLO.
#[derive(Debug)]
pub struct DeviceInfo {
    pub protocol_version: u16,
    pub contract_version: u16,
    pub build_hash: u32,
    pub descriptor_count: u16,
    pub firmware_name: String,
    pub tick_hz: u32,
    pub capabilities: u32,
    pub project_name: String,
    pub build_time_utc: u32,
    pub mcu_model: u16,
    pub scope_max_ch: u16,
    pub scope_block_ticks: u16,
    pub scope_ring_words: u32,
}

impl Clone for DeviceInfo {
    fn clone(&self) -> (r: Self)
        ensures
            r == *self,
    {
        DeviceInfo {
            protocol_version: self.protocol_version,
            contract_version: self.contract_version,
            build_hash: self.build_hash,
            descriptor_count: self.descriptor_count,
            firmware_name: self.firmware_name.clone(),
            tick_hz: self.tick_hz,
            capabilities: self.capabilities,
            project_name: self.project_name.clone(),
            build_time_utc: self.build_time_utc,
            mcu_model: self.mcu_model,
            scope_max_ch: self.scope_max_ch,
            scope_block_ticks: self.scope_block_ticks,
            scope_ring_words: self.scope_ring_words,
        }
    }
}

impl DeviceInfo {
    /// Whether any bit of `capability` is advertised.
    pub fn has(&self, capability: u32) -> (r: bool)
        ensures
            r == (self.capabilities & capability != 0),
    {
        self.capabilities & capability != 0
    }

    /// The project name, or the firmware name where the project name is empty.
    pub fn project_display_name(&self) -> (r: &str)
        ensures
            r@ == if self.project_name@.len() == 0 { self.firmware_name@ } else { self.project_name@ },
    {
        if self.project_name.as_str().is_empty() {
            self.firmware_name.as_str()
        } else {
            self.project_name.as_str()
        }
    }

    /// The firmware build time in local time; none when the firmware reports zero.
    pub fn build_time_local_text(&self) -> (r: Option<String>)
        ensures
            r is None <==> self.build_time_utc == 0,
            r matches Some(t) ==> crate::clock::minute_shaped(t@),
    {
        if self.build_time_utc == 0 {
            return None;
        }
        local_minute_text(self.build_time_utc, crate::clock::BUILD_TIME_PATTERN)
    }

    /// "Built Time " and the local build time, or "Built Time unknown".
    pub fn build_time_display_text(&self) -> (r: String)
        ensures
            self.build_time_utc == 0 ==> r@ == "Built Time unknown"@,
            self.build_time_utc != 0 ==> r@.len() == 27 && r@.subrange(0, 11) == "Built Time "@
                && crate::clock::minute_shaped(r@.subrange(11, 27)),
    {
        proof {
            reveal_strlit("Built Time ");
            reveal_strlit("unknown");
            reveal_strlit("Built Time unknown");
        }
        let built = match self.build_time_local_text() {
            Some(text) => text,
            None => "unknown".to_owned(),
        };
        let mut s = String::new();
        push_str(&mut s, "Built Time ");
        push_str(&mut s, built.as_str());
        assert(s@.subrange(0, 11) =~= "Built Time "@);
        if self.build_time_utc != 0 {
            assert(s@.subrange(11, s@.len() as int) =~= built@);
        }
        s
    }

    /// The MCU model name; unknown codes read "unknown".
    pub fn mcu_model_label(&self) -> (r: &'static str)
        ensures
            r@ == (if self.mcu_model == MCU_MODEL_F28P65X { "F28P65x"@ }
                else if self.mcu_model == MCU_MODEL_F28379D { "F28379D"@ }
                else { "unknown"@ }),
    {
        if self.mcu_model == MCU_MODEL_F28P65X {
            "F28P65x"
        } else if self.mcu_model == MCU_MODEL_F28379D {
            "F28379D"
        } else {
            "unknown"
        }
    }
}

/// Scope acquisition mode, with unknown wire values kept.
#[derive(Debug, Clone, Copy, PartialEq, Eq, Structural)]
pub enum ScopeMode {
    Off,
    Stream,
    CaptureArmed,
    CapturePost,
    CaptureFrozen,
    Unknown(u8),
}

impl ScopeMode {
    /// The wire value of a mode.
    pub open spec fn spec_wire(self) -> u8 {
        match self {
            ScopeMode::Off => 0,
            ScopeMode::Stream => 1,
            ScopeMode::CaptureArmed => 2,
            ScopeMode::CapturePost => 3,
            ScopeMode::CaptureFrozen => 4,
            ScopeMode::Unknown(v) => v,
        }
    }

    /// The mode a wire value names; other values are kept as unknown.
    pub open spec fn spec_from_wire(value: u8) -> Self {
        if value == 0 { ScopeMode::Off }
        else if value == 1 { ScopeMode::Stream }
        else if value == 2 { ScopeMode::CaptureArmed }
        else if value == 3 { ScopeMode::CapturePost }
        else if value == 4 { ScopeMode::CaptureFrozen }
        else { ScopeMode::Unknown(value) }
    }

    /// Decodes a wire value: 0..=4 name modes, other values are kept as unknown.
    pub fn from_wire(value: u8) -> (r: Self)
        ensures
            r == Self::spec_from_wire(value),
            r.spec_wire() == value,
            value <= 4 <==> !(r is Unknown),
    {
        match value {
            0 => ScopeMode::Off,
            1 => ScopeMode::Stream,
            2 => ScopeMode::CaptureArmed,
            3 => ScopeMode::CapturePost,
            4 => ScopeMode::CaptureFrozen,
            other => ScopeMode::Unknown(other),
        }
    }

    /// The wire value of this mode.
    pub fn wire_value(self) -> (r: u8)
        ensures
            r == self.spec_wire(),
    {
        match self {
            ScopeMode::Off => 0,
            ScopeMode::Stream => 1,
            ScopeMode::CaptureArmed => 2,
            ScopeMode::CapturePost => 3,
            ScopeMode::CaptureFrozen => 4,
            ScopeMode::Unknown(value) => value,
        }
    }
}

impl Default for ScopeMode {
    fn default() -> (r: Self)
        ensures
            r == ScopeMode::Off,
    {
        ScopeMode::Off
    }
}

/// Firmware system state, with unknown wire values kept.
#[derive(Debug, Clone, Copy, PartialEq, Eq, Structural)]
pub enum SystemState {
    Init,
    Idle,
    Running,
    Fault,
    Unknown(u16),
}

impl SystemState {
    /// The wire value of a state.
    pub open spec fn spec_wire(self) -> u16 {
        match self {
            SystemState::Init => 0,
            SystemState::Idle => 1,
            SystemState::Running => 2,
            SystemState::Fault => 3,
            SystemState::Unknown(v) => v,
        }
    }

    /// The state a wire value names; other values are kept as unknown.
    pub open spec fn spec_from_wire(value: u16) -> Self {
        if value == 0 { SystemState::Init }
        else if value == 1 { SystemState::Idle }
        else if value == 2 { SystemState::Running }
        else if value == 3 { SystemState::Fault }
        else { SystemState::Unknown(value) }
    }

    /// Decodes a wire value: 0..=3 name states, other values are kept as unknown.
    pub fn from_wire(value: u16) -> (r: Self)
        ensures
            r == Self::spec_from_wire(value),
            r.spec_wire() == value,
            value <= 3 <==> !(r is Unknown),
    {
        match value {
            0 => SystemState::Init,
            1 => SystemState::Idle,
            2 => SystemState::Running,
            3 => SystemState::Fault,
            other => SystemState::Unknown(other),
        }
    }

    /// The wire value of this state.
    pub fn wire_value(self) -> (r: u16)
        ensures
            r == self.spec_wire(),
    {
        match self {
            SystemState::Init => 0,
            SystemState::Idle => 1,
            SystemState::Running => 2,
            SystemState::Fault => 3,
            SystemState::Unknown(value) => value,
        }
    }

    /// Whether the state is `Running`.
    pub fn is_running(self) -> (r: bool)
        ensures
            r == (self == SystemState::Running),
    {
        self == SystemState::Running
    }

    /// The display name of a state.
    pub open spec fn spec_label(self) -> Seq<char> {
        match self {
            SystemState::Init => "Init"@,
            SystemState::Idle => "Idle"@,
            SystemState::Running => "Running"@,
            SystemState::Fault => "Fault"@,
            SystemState::Unknown(v) => "State "@ + decimal(v as nat),
        }
    }

    /// The display name: the variant's name, or "State <n>" for unknown values.
    pub fn label(self) -> (r: String)
        ensures
            r@ == self.spec_label(),
    {
        match self {
            SystemState::Init => "Init".to_owned(),
            SystemState::Idle => "Idle".to_owned(),
            SystemState::Running => "Running".to_owned(),
            SystemState::Fault => "Fault".to_owned(),
            SystemState::Unknown(value) => {
                let mut s = String::new();
                push_str(&mut s, "State ");
                push_decimal(&mut s, value as u64);
                s
            },
        }
    }
}

/// One control-loop performance sample reported in STATUS.
#[derive(Debug, Clone, Copy, PartialEq, Eq, Structural)]
pub struct PerformanceSample {
    pub sequence: u32,
    pub cycle_budget: u32,
    pub load_average: u32,
    pub load_peak: u32,
    pub control_at_peak: u32,
    pub scope_at_peak: u32,
    pub latency_at_peak: u16,
    pub peak_tick: u32,
    pub violations: u32,
    pub overflows: u32,
}

/// Subtraction floored at zero.
pub open spec fn sat_sub(a: int, b: int) -> int {
    if a > b { a - b } else { 0 }
}

impl PerformanceSample {
    /// The ADC latency at the peak, widened.
    pub fn adc_at_peak(&self) -> (r: u32)
        ensures
            r == self.latency_at_peak,
    {
        self.latency_at_peak as u32
    }

    /// The part of the peak load left after ADC, control and scope work,
    /// each subtraction floored at zero.
    pub fn runtime_at_peak(&self) -> (r: u32)
        ensures
            r == sat_sub(sat_sub(sat_sub(self.load_peak as int, self.latency_at_peak as int),
                self.control_at_peak as int), self.scope_at_peak as int),
    {
        self.load_peak
            .saturating_sub(self.adc_at_peak())
            .saturating_sub(self.control_at_peak)
            .saturating_sub(self.scope_at_peak)
    }

    /// The cycle budget left at the peak, floored at zero.
    pub fn headroom_at_peak(&self) -> (r: u32)
        ensures
            r == sat_sub(self.cycle_budget as int, self.load_peak as int),
    {
        self.cycle_budget.saturating_sub(self.load_peak)
    }

    /// Whether the sample reports a deadline violation, an overflow, or a
    /// peak load at or above the budget.
    pub fn has_violation(&self) -> (r: bool)
        ensures
            r == (self.violations != 0 || self.overflows != 0 || self.load_peak >= self.cycle_budget),
    {
        self.violations != 0 || self.overflows != 0 || self.load_peak >= self.cycle_budget
    }
}

/// The periodic STATUS report of a device.
#[derive(Debug, Clone)]
pub struct DeviceStatus {
    pub system_state: SystemState,
    pub fault_code: u16,
    pub status_flags: u16,
    pub tick: u32,
    pub cpu1_heartbeat: u32,
    pub cpu2_heartbeat: u32,
    pub applied_seq: u32,
    pub calibration_result: u16,
    pub calibration_fail_index: u16,
    pub build_hash: u32,
    pub scope_mode: ScopeMode,
    pub scope_flags: u8,
    pub command_ack_seq: Option<u32>,
    pub command_result: Option<u16>,
    pub performance: Option<PerformanceSample>,
    pub scope_state_seq: u16,
    pub scope_frozen_count: u16,
    pub scope_trigger_tick: u32,
    pub scope_bind_seq: u16,
}

/// A block of native-width scope samples.
#[derive(Debug, Clone)]
pub struct ScopeBlock {
    pub start_tick: u32,
    pub block_seq: u16,
    pub flags: u16,
    pub sample_count: u16,
    pub channel_count: u16,
    pub bind_seq: u16,
    pub stride_octets: u16,
    pub samples: Vec<u8>,
}

/// Trigger edge direction.
#[derive(Debug, Clone, Copy, PartialEq, Eq, Structural)]
pub enum TriggerEdge {
    Rise,
    Fall,
}

impl Default for TriggerEdge {
    /// Rising edges trigger unless told otherwise.
    fn default() -> (r: Self)
        ensures
            r == TriggerEdge::Rise,
    {
        TriggerEdge::Rise
    }
}

/// System commands that the firmware accepts.
#[derive(Debug, Clone, Copy, PartialEq, Eq, Structural)]
pub enum SystemCommand {
    Start,
    Stop,
    ClearFault,
}

impl SystemCommand {
    /// The display name of a command.
    pub open spec fn spec_label(self) -> Seq<char> {
        match self {
            SystemCommand::Start => "Start"@,
            SystemCommand::Stop => "Stop"@,
            SystemCommand::ClearFault => "Clear Fault"@,
        }
    }

    /// The display name of this command.
    pub fn label(self) -> (r: &'static str)
        ensures
            r@ == self.spec_label(),
    {
        match self {
            SystemCommand::Start => "Start",
            SystemCommand::Stop => "Stop",
            SystemCommand::ClearFault => "Clear Fault",
        }
    }
}

/// Current-sensor calibration commands.
#[derive(Debug, Clone, Copy, PartialEq, Eq, Structural)]
pub enum CalibrationCommand {
    MeasureZero,
    CommitToFlash,
}

impl CalibrationCommand {
    /// The display name of a calibration command.
    pub open spec fn spec_label(self) -> Seq<char> {
        match self {
            CalibrationCommand::MeasureZero => "Measure Zero"@,
            CalibrationCommand::CommitToFlash => "Commit to Flash"@,
        }
    }

    /// The display name of this calibration command.
    pub fn label(self) -> (r: &'static str)
        ensures
            r@ == self.spec_label(),
    {
        match self {
            CalibrationCommand::MeasureZero => "Measure Zero",
            CalibrationCommand::CommitToFlash => "Commit to Flash",
        }
    }
}

/// Which range a fault code falls in.
#[derive(Debug, Clone, Copy, PartialEq, Eq, Structural)]
pub enum FaultSource {
    NoFault,
    System,
    User,
}

impl FaultSource {
    /// The display name of a fault source.
    pub open spec fn spec_label(self) -> Seq<char> {
        match self {
            FaultSource::NoFault => "None"@,
            FaultSource::System => "System"@,
            FaultSource::User => "User"@,
        }
    }

    /// The display name of this fault source.
    pub fn label(self) -> (r: &'static str)
        ensures
            r@ == self.spec_label(),
    {
        match self {
            FaultSource::NoFault => "None",
            FaultSource::System => "System",
            FaultSource::User => "User",
        }
    }
}

/// The source of a fault code: 0 is none, 1..=255 system, the rest user.
pub open spec fn spec_fault_source(code: u16) -> FaultSource {
    if code == 0 {
        FaultSource::NoFault
    } else if code <= 255 {
        FaultSource::System
    } else {
        FaultSource::User
    }
}

/// Classifies a fault code by range.
pub fn fault_source(code: u16) -> (r: FaultSource)
    ensures
        r == spec_fault_source(code),
{
    if code == 0 {
        FaultSource::NoFault
    } else if code <= 255 {
        FaultSource::System
    } else {
        FaultSource::User
    }
}

/// The user fault number of a user-range code.
pub fn fault_user_code(code: u16) -> (r: Option<u16>)
    ensures
        r == (if code >= FAULT_USER_BASE { Some((code - FAULT_USER_BASE) as u16) } else { None::<u16> }),
{
    if fault_source(code) == FaultSource::User {
        Some(code - FAULT_USER_BASE)
    } else {
        None
    }
}

/// The name of a fault code.
pub open spec fn spec_fault_code_text(code: u16) -> Seq<char> {
    if code == 0 { "NONE"@ }
    else if code == 1 { "TZ1_EXT"@ }
    else if code == 2 { "OVERCURRENT"@ }
    else if code == 3 { "OVERVOLTAGE"@ }
    else if code == 4 { "OVERTEMP"@ }
    else if code == 5 { "STACK_GUARD"@ }
    else if code == 6 { "WD_RESET"@ }
    else if code == 7 { "ITRAP"@ }
    else if code == FAULT_USER_OVER_SPEED { "Over Speed"@ }
    else if code >= FAULT_USER_BASE { "USER_"@ + decimal((code - FAULT_USER_BASE) as nat) }
    else { "FAULT_"@ + decimal(code as nat) }
}

/// Names a fault code: known system codes and the over-speed user fault by
/// name, other user codes as `USER_<n>`, other system codes as `FAULT_<n>`.
pub fn fault_code_text(code: u16) -> (r: String)
    ensures
        r@ == spec_fault_code_text(code),
{
    match code {
        0 => "NONE".to_owned(),
        1 => "TZ1_EXT".to_owned(),
        2 => "OVERCURRENT".to_owned(),
        3 => "OVERVOLTAGE".to_owned(),
        4 => "OVERTEMP".to_owned(),
        5 => "STACK_GUARD".to_owned(),
        6 => "WD_RESET".to_owned(),
        7 => "ITRAP".to_owned(),
        FAULT_USER_OVER_SPEED => "Over Speed".to_owned(),
        other => {
            let mut s = String::new();
            match fault_user_code(other) {
                Some(user_code) => {
                    push_str(&mut s, "USER_");
                    push_decimal(&mut s, user_code as u64);
                },
                None => {
                    push_str(&mut s, "FAULT_");
                    push_decimal(&mut s, other as u64);
                },
            }
            s
        },
    }
}

/// The status line of a fault code.
pub open spec fn spec_fault_status_text(code: u16) -> Seq<char> {
    if code == 0 {
        "No fault (0)"@
    } else {
        spec_fault_source(code).spec_label() + " fault: "@ + spec_fault_code_text(code) + " ("@
            + decimal(code as nat) + ")"@
    }
}

/// "No fault (0)", or "<source> fault: <name> (<code>)".
pub fn fault_status_text(code: u16) -> (r: String)
    ensures
        r@ == spec_fault_status_text(code),
{
    let source = fault_source(code);
    match source {
        FaultSource::NoFault => "No fault (0)".to_owned(),
        _ => {
            let mut s = String::new();
            push_str(&mut s, source.label());
            push_str(&mut s, " fault: ");
            let name = fault_code_text(code);
            push_str(&mut s, name.as_str());
            push_str(&mut s, " (");
            push_decimal(&mut s, code as u64);
            push_str(&mut s, ")");
            s
        },
    }
}

/// The name of a command result code.
pub open spec fn spec_command_result_text(result: u16) -> Seq<char> {
    if result == 0 { "OK"@ }
    else if result == 1 { "BAD_CMD"@ }
    else if result == 2 { "BAD_STATE"@ }
    else if result == 3 { "NOT_READY"@ }
    else if result == 4 { "START_FAILED"@ }
    else if result == 5 { "CAL_FAILED"@ }
    else { "CMDR_"@ + decimal(result as nat) }
}

/// Names a command result; unknown codes read `CMDR_<n>`.
pub fn command_result_text(result: u16) -> (r: String)
    ensures
        r@ == spec_command_result_text(result),
{
    match result {
        0 => "OK".to_owned(),
        1 => "BAD_CMD".to_owned(),
        2 => "BAD_STATE".to_owned(),
        3 => "NOT_READY".to_owned(),
        4 => "START_FAILED".to_owned(),
        5 => "CAL_FAILED".to_owned(),
        other => {
            let mut s = String::new();
            push_str(&mut s, "CMDR_");
            push_decimal(&mut s, other as u64);
            s
        },
    }
}

} // verus!

verus! {

/// Where a transport connects.
#[derive(Debug, Clone)]
pub enum TransportEndpoint {
    Serial { port: String, baud: u32 },
    /// A local byte-stream endpoint, by path.
    LocalByteStream(String),
}

/// One parameter write: the variable and the bits of its new value.
#[derive(Debug, Clone, Copy, PartialEq, Eq, Structural)]
pub struct ParamWrite {
    pub var: VarRef,
    pub value_bits: u32,
}

/// One value to read: the descriptor it belongs to and its variable.
#[derive(Debug, Clone, Copy, PartialEq, Eq, Structural)]
pub struct ValueRead {
    pub descriptor_index: usize,
    pub var: VarRef,
}


/// A command that acts on the connected firmware's catalog, valid only for
/// the build it was made for.
#[derive(Debug, Clone)]
pub enum CatalogCommand {
    WriteParams(Vec<ParamWrite>),
    CommitParams,
    ReadValues(Vec<ValueRead>),
    BindChannels { channels: Vec<VarRef> },
    ConfigureScope(crate::codec::ScopeConfig),
}

/// What the application asks of the device worker.
#[derive(Debug, Clone)]
pub enum SourceCommand {
    Connect(TransportEndpoint),
    Disconnect,
    Shutdown,
    /// A catalog command for the firmware build with this hash.
    Catalog { build_hash: u32, command: CatalogCommand },
    SystemCommand(SystemCommand),
    CalibrationCommand(CalibrationCommand),
    SrmOpenLoopAbz,
}

/// What the device worker reports to the application.
#[derive(Debug, Clone)]
pub enum SourceEvent {
    Connected(DeviceInfo),
    Disconnected,
    /// A complete catalog replacement for the current firmware build.
    Descriptors(Vec<VarDescriptor>),
    Status(DeviceStatus),
    ParamsStaged,
    ParamsCommitted { sequence: u32 },
    Values { read_sequence: u32, indexes: Vec<usize>, values: Vec<u32> },
    ChannelsBound { bind_sequence: u16 },
    SystemCommandAccepted { command: SystemCommand, sequence: u32 },
    CalibrationMeasureAccepted { sequence: u32 },
    CalibrationCommitCompleted { commit_sequence: u32 },
    CalibrationCommandFailed { command: CalibrationCommand, message: String },
    SrmOpenLoopAbzAccepted { sequence: u32 },
    SrmOpenLoopAbzCommandFailed { message: String },
    ScopeConfigured { mode: ScopeMode },
    CaptureForceAccepted { capture_state_sequence: u16 },
    CaptureForceFailed { message: String },
    CaptureFrame { capture_id: u16, trigger_tick: u32, blocks: Vec<ScopeBlock> },
    Blocks { mode: ScopeMode, blocks: Vec<ScopeBlock> },
    StreamGap { expected: u16, received: u16 },
    PushFrameGap { expected: u16, received: u16 },
    ValueReadFailed { message: String },
    DeviceChanged { old_hash: u32, info: DeviceInfo },
    Error(String),
    Log(String),
}

} // verus!
