//! The connection and device state: endpoint, identity summary,
//! performance samples and the pending system command.

use vstd::prelude::*;
use vstd::string::*;
use crate::source::{
    DeviceInfo, DeviceStatus, PerformanceSample, ScopeMode, SystemCommand, SystemState, TransportEndpoint,
    command_result_text, spec_command_result_text,
};
use crate::text::{decimal, hex_fixed, push_decimal, push_hex, push_str};

verus! {

pub const DEFAULT_SERIAL_BAUD: u32 = 3_125_000;
/// Milliseconds after which an unconfirmed system command expires.
pub const SYSTEM_COMMAND_TIMEOUT_MS: u64 = 3000;

/// Whether performance reports are available, and the last valid sample.
pub struct PerformanceState {
    available: bool,
    sample: Option<PerformanceSample>,
}

impl View for PerformanceState {
    type V = (bool, Option<PerformanceSample>);

    closed spec fn view(&self) -> (bool, Option<PerformanceSample>) {
        (self.available, self.sample)
    }
}

impl Default for PerformanceState {
    fn default() -> (r: Self)
        ensures
            r@ == (false, None::<PerformanceSample>),
    {
        PerformanceState { available: false, sample: None }
    }
}

impl PerformanceState {
    /// Sets availability; becoming unavailable drops the sample.
    pub fn set_available(&mut self, available: bool)
        ensures
            final(self)@ == (available, if available { old(self)@.1 } else { None::<PerformanceSample> }),
    {
        self.available = available;
        if !available {
            self.sample = None;
        }
    }

    /// Unavailable, with no sample.
    pub fn clear(&mut self)
        ensures
            final(self)@ == (false, None::<PerformanceSample>),
    {
        self.available = false;
        self.sample = None;
    }

    /// Whether performance reports are available.
    pub fn is_available(&self) -> (r: bool)
        ensures
            r == self@.0,
    {
        self.available
    }

    /// The last valid sample.
    pub fn sample(&self) -> (r: Option<PerformanceSample>)
        ensures
            r == self@.1,
    {
        self.sample
    }

    /// A STATUS report makes reports available; a valid sample replaces
    /// the kept one, an invalid one keeps it.
    pub fn ingest_status(&mut self, sample: Option<PerformanceSample>)
        ensures
            final(self)@ == (true, if sample is Some { sample } else { old(self)@.1 }),
    {
        self.available = true;
        if let Some(s) = sample {
            self.sample = Some(s);
        }
    }
}

/// A system command sent to the device (monotonic milliseconds).
#[derive(Debug, Clone, Copy, PartialEq, Eq, Structural)]
pub struct PendingSystemCommand {
    pub command: SystemCommand,
    pub sequence: Option<u32>,
    pub sent_at_ms: u64,
    pub accepted_at_ms: Option<u64>,
}

/// A system command that STATUS confirmed.
#[derive(Debug, Clone, Copy, PartialEq, Eq, Structural)]
pub struct CompletedSystemCommand {
    pub command: SystemCommand,
    pub sequence: u32,
    pub result: u16,
}

/// A system command that was never confirmed in time.
#[derive(Debug, Clone, Copy, PartialEq, Eq, Structural)]
pub struct ExpiredSystemCommand {
    pub command: SystemCommand,
    pub sequence: Option<u32>,
}

/// The connection and device state of the application.
pub struct HardwareState {
    pub port: String,
    pub baud: u32,
    pub serial_ports: Vec<String>,
    pub connected: bool,
    pub connecting: bool,
    pub info: Option<DeviceInfo>,
    pub status: Option<DeviceStatus>,
    pub device_summary: Option<String>,
    pub performance: PerformanceState,
    pub pending_system_command: Option<PendingSystemCommand>,
    pub last_system_command: Option<CompletedSystemCommand>,
}

impl Default for HardwareState {
    fn default() -> (r: Self)
        ensures
            r.port@ == Seq::<char>::empty(),
            r.baud == DEFAULT_SERIAL_BAUD,
            r.serial_ports@.len() == 0,
            !r.connected,
            !r.connecting,
            r.info is None,
            r.status is None,
            r.device_summary is None,
            r.performance@ == (false, None::<PerformanceSample>),
            r.pending_system_command is None,
            r.last_system_command is None,
    {
        HardwareState {
            port: String::new(),
            baud: DEFAULT_SERIAL_BAUD,
            serial_ports: Vec::new(),
            connected: false,
            connecting: false,
            info: None,
            status: None,
            device_summary: None,
            performance: PerformanceState::default(),
            pending_system_command: None,
            last_system_command: None,
        }
    }
}

/// The tick rate: whole kilohertz as `<n>kHz`, otherwise `<n>Hz`.
pub open spec fn spec_tick_rate_text(tick_hz: u32) -> Seq<char> {
    if tick_hz != 0 && tick_hz % 1000 == 0 {
        decimal((tick_hz / 1000) as nat) + "kHz"@
    } else {
        decimal(tick_hz as nat) + "Hz"@
    }
}

/// Renders a tick rate.
pub fn tick_rate_text(tick_hz: u32) -> (r: String)
    ensures
        r@ == spec_tick_rate_text(tick_hz),
{
    let mut s = String::new();
    if tick_hz != 0 && tick_hz % 1000 == 0 {
        push_decimal(&mut s, (tick_hz / 1000) as u64);
        push_str(&mut s, "kHz");
    } else {
        push_decimal(&mut s, tick_hz as u64);
        push_str(&mut s, "Hz");
    }
    s
}

/// The display name of a scope mode.
pub open spec fn spec_scope_mode_label(mode: ScopeMode) -> Seq<char> {
    match mode {
        ScopeMode::Off => "off"@,
        ScopeMode::Stream => "stream"@,
        ScopeMode::CaptureArmed => "capture armed"@,
        ScopeMode::CapturePost => "capture post"@,
        ScopeMode::CaptureFrozen => "capture frozen"@,
        ScopeMode::Unknown(_) => "unknown"@,
    }
}

/// Names a scope mode.
pub fn mode_label(mode: ScopeMode) -> (r: &'static str)
    ensures
        r@ == spec_scope_mode_label(mode),
{
    match mode {
        ScopeMode::Off => "off",
        ScopeMode::Stream => "stream",
        ScopeMode::CaptureArmed => "capture armed",
        ScopeMode::CapturePost => "capture post",
        ScopeMode::CaptureFrozen => "capture frozen",
        ScopeMode::Unknown(_) => "unknown",
    }
}

/// The user system's state as the header shows it: the reported state,
/// `STATE <n>` for an unknown code, and UNKNOWN or DISCONNECTED when no
/// state was reported.
pub open spec fn spec_user_system_state_label(state: Option<SystemState>, connected: bool) -> Seq<char> {
    match state {
        Some(SystemState::Idle) => "IDLE"@,
        Some(SystemState::Running) => "RUNNING"@,
        Some(SystemState::Fault) => "FAULT"@,
        Some(SystemState::Init) => "INIT"@,
        Some(SystemState::Unknown(value)) => "STATE "@ + decimal(value as nat),
        None => if connected { "UNKNOWN"@ } else { "DISCONNECTED"@ },
    }
}

/// The text of the user system's state in the header.
pub fn user_system_state_label(state: Option<SystemState>, connected: bool) -> (r: String)
    ensures
        r@ == spec_user_system_state_label(state, connected),
{
    let mut s = String::new();
    match state {
        Some(SystemState::Idle) => push_str(&mut s, "IDLE"),
        Some(SystemState::Running) => push_str(&mut s, "RUNNING"),
        Some(SystemState::Fault) => push_str(&mut s, "FAULT"),
        Some(SystemState::Init) => push_str(&mut s, "INIT"),
        Some(SystemState::Unknown(value)) => {
            push_str(&mut s, "STATE ");
            push_decimal(&mut s, value as u64);
        },
        None => if connected { push_str(&mut s, "UNKNOWN") } else { push_str(&mut s, "DISCONNECTED") },
    }
    s
}

/// "<MCU model> · <tick rate>" of a device.
pub open spec fn spec_device_summary(info: DeviceInfo) -> Seq<char> {
    (if info.mcu_model == crate::source::MCU_MODEL_F28P65X { "F28P65x"@ }
    else if info.mcu_model == crate::source::MCU_MODEL_F28379D { "F28379D"@ }
    else { "unknown"@ }) + " · "@ + spec_tick_rate_text(info.tick_hz)
}

impl HardwareState {
    /// Connection settings are editable only while neither connected nor connecting.
    pub fn can_configure_connection(&self) -> (r: bool)
        ensures
            r == (!self.connected && !self.connecting),
    {
        !self.connected && !self.connecting
    }

    /// The serial endpoint of the chosen port, when one is chosen.
    pub fn endpoint(&self) -> (r: Option<TransportEndpoint>)
        ensures
            self.port@.len() == 0 ==> r is None,
            self.port@.len() > 0 ==> (r matches Some(TransportEndpoint::Serial { port, baud })
                && port@ == self.port@ && baud == self.baud),
    {
        if self.port.as_str().is_empty() {
            None
        } else {
            Some(TransportEndpoint::Serial { port: self.port.clone(), baud: self.baud })
        }
    }

    /// "No serial port", or "<port> @ <baud>".
    pub fn endpoint_label(&self) -> (r: String)
        ensures
            r@ == if self.port@.len() == 0 { "No serial port"@ } else { self.port@ + " @ "@ + decimal(self.baud as nat) },
    {
        if self.port.as_str().is_empty() {
            "No serial port".to_owned()
        } else {
            let mut s = String::new();
            push_str(&mut s, self.port.as_str());
            push_str(&mut s, " @ ");
            push_decimal(&mut s, self.baud as u64);
            s
        }
    }

    /// Whether the connected device advertises any bit of `capability`;
    /// false while no device is known.
    pub open spec fn spec_has_capability(&self, capability: u32) -> bool {
        self.info matches Some(info) && info.capabilities & capability != 0
    }

    /// Whether the connected device advertises any bit of `capability`.
    pub fn has_capability(&self, capability: u32) -> (r: bool)
        ensures
            r == self.spec_has_capability(capability),
    {
        match &self.info {
            Some(info) => info.has(capability),
            None => false,
        }
    }

    /// Whether the last STATUS reports the user system running.
    pub fn is_running(&self) -> (r: bool)
        ensures
            r == (self.status matches Some(s) && s.system_state == crate::source::SystemState::Running),
    {
        match &self.status {
            Some(status) => status.system_state.is_running(),
            None => false,
        }
    }

    /// "<MCU model> · <tick rate>" for a known device.
    pub fn device_summary_text(&self) -> (r: Option<String>)
        ensures
            self.info is None ==> r is None,
            self.info matches Some(info) ==> (r matches Some(s) && s@ == spec_device_summary(info)),
    {
        match &self.info {
            None => None,
            Some(info) => {
                let mut s = String::new();
                push_str(&mut s, info.mcu_model_label());
                push_str(&mut s, " · ");
                let rate = tick_rate_text(info.tick_hz);
                push_str(&mut s, rate.as_str());
                Some(s)
            },
        }
    }

    /// The multi-line identity of a known device: firmware, wire and
    /// contract versions, build hash and tick rate.
    pub fn device_info_hover_text(&self) -> (r: Option<String>)
        ensures
            self.info is None ==> r is None,
            self.info matches Some(info) ==> (r matches Some(s) && s@ == "Viewer2000 Device\nfirmware "@ + info.firmware_name@
                + "\nwire="@ + decimal(info.protocol_version as nat) + " contract="@ + decimal(info.contract_version as nat)
                + "\nbuild=0x"@ + hex_fixed(info.build_hash as nat, 8, true) + "\ntick="@ + decimal(info.tick_hz as nat) + "Hz"@),
    {
        match &self.info {
            None => None,
            Some(info) => {
                let mut s = String::new();
                push_str(&mut s, "Viewer2000 Device\nfirmware ");
                push_str(&mut s, info.firmware_name.as_str());
                push_str(&mut s, "\nwire=");
                push_decimal(&mut s, info.protocol_version as u64);
                push_str(&mut s, " contract=");
                push_decimal(&mut s, info.contract_version as u64);
                push_str(&mut s, "\nbuild=0x");
                push_hex(&mut s, info.build_hash as u64, 8, true);
                push_str(&mut s, "\ntick=");
                push_decimal(&mut s, info.tick_hz as u64);
                push_str(&mut s, "Hz");
                Some(s)
            },
        }
    }

    /// The scope mode of the last STATUS, or "unknown" without one.
    pub fn scope_mode_label(&self) -> (r: &'static str)
        ensures
            r@ == match self.status {
                Some(s) => spec_scope_mode_label(s.scope_mode),
                None => "unknown"@,
            },
    {
        match &self.status {
            None => "unknown",
            Some(status) => mode_label(status.scope_mode),
        }
    }

    /// Marks `command` as sent at `now_ms`, replacing any pending command.
    pub fn begin_system_command(&mut self, command: SystemCommand, now_ms: u64)
        ensures
            final(self).pending_system_command == Some(PendingSystemCommand {
                command, sequence: None, sent_at_ms: now_ms, accepted_at_ms: None }),
            final(self).last_system_command == old(self).last_system_command,
    {
        self.pending_system_command = Some(PendingSystemCommand { command, sequence: None, sent_at_ms: now_ms, accepted_at_ms: None });
    }

    /// Records the acknowledgement of the pending command when it is `command`.
    pub fn accept_system_command(&mut self, command: SystemCommand, sequence: u32, now_ms: u64) -> (r: bool)
        ensures
            r == (old(self).pending_system_command matches Some(p) && p.command == command),
            final(self).pending_system_command == if r {
                Some(PendingSystemCommand { command, sequence: Some(sequence),
                    sent_at_ms: old(self).pending_system_command->0.sent_at_ms, accepted_at_ms: Some(now_ms) })
            } else {
                old(self).pending_system_command
            },
            final(self).last_system_command == old(self).last_system_command,
            final(self).status == old(self).status,
            final(self).info == old(self).info,
            final(self).connected == old(self).connected,
    {
        match &mut self.pending_system_command {
            Some(pending) => {
                if pending.command != command {
                    return false;
                }
                pending.sequence = Some(sequence);
                pending.accepted_at_ms = Some(now_ms);
                true
            },
            None => false,
        }
    }

    /// Completes the acknowledged pending command when STATUS reports its
    /// sequence; the result is the reported command result (zero when absent).
    pub fn complete_pending_system_command(&mut self, status: &DeviceStatus) -> (r: Option<CompletedSystemCommand>)
        ensures
            ({
                let done = old(self).pending_system_command matches Some(p) && p.sequence is Some
                    && status.command_ack_seq == p.sequence;
                if done {
                    let c = CompletedSystemCommand {
                        command: old(self).pending_system_command->0.command,
                        sequence: old(self).pending_system_command->0.sequence->0,
                        result: match status.command_result { Some(x) => x, None => 0 },
                    };
                    &&& r == Some(c)
                    &&& final(self).pending_system_command is None
                    &&& final(self).last_system_command == Some(c)
                } else {
                    &&& r is None
                    &&& final(self).pending_system_command == old(self).pending_system_command
                    &&& final(self).last_system_command == old(self).last_system_command
                }
            }),
            final(self).status == old(self).status,
            final(self).performance == old(self).performance,
    {
        let pending = match self.pending_system_command {
            Some(p) => p,
            None => return None,
        };
        let sequence = match pending.sequence {
            Some(s) => s,
            None => return None,
        };
        match status.command_ack_seq {
            Some(ack) => if ack != sequence { return None; },
            None => return None,
        }
        let completed = CompletedSystemCommand {
            command: pending.command,
            sequence,
            result: match status.command_result { Some(x) => x, None => 0 },
        };
        self.pending_system_command = None;
        self.last_system_command = Some(completed);
        Some(completed)
    }

    /// Drops the pending command once `SYSTEM_COMMAND_TIMEOUT_MS` have
    /// passed since its acknowledgement (or, unacknowledged, since it was sent).
    pub fn expire_pending_system_command(&mut self, now_ms: u64) -> (r: Option<ExpiredSystemCommand>)
        ensures
            ({
                match old(self).pending_system_command {
                    None => r is None && final(self).pending_system_command is None,
                    Some(p) => {
                        let reference = match p.accepted_at_ms { Some(t) => t, None => p.sent_at_ms };
                        if now_ms < reference + SYSTEM_COMMAND_TIMEOUT_MS {
                            r is None && final(self).pending_system_command == old(self).pending_system_command
                        } else {
                            r == Some(ExpiredSystemCommand { command: p.command, sequence: p.sequence })
                                && final(self).pending_system_command is None
                        }
                    },
                }
            }),
            final(self).last_system_command == old(self).last_system_command,
            final(self).status == old(self).status,
            final(self).performance == old(self).performance,
    {
        let pending = match self.pending_system_command {
            Some(p) => p,
            None => return None,
        };
        let reference = match pending.accepted_at_ms {
            Some(t) => t,
            None => pending.sent_at_ms,
        };
        if now_ms.saturating_sub(reference) < SYSTEM_COMMAND_TIMEOUT_MS {
            return None;
        }
        self.pending_system_command = None;
        Some(ExpiredSystemCommand { command: pending.command, sequence: pending.sequence })
    }

    /// Forgets the pending and the last command.
    pub fn clear_system_command_state(&mut self)
        ensures
            final(self).pending_system_command is None,
            final(self).last_system_command is None,
            final(self).status == old(self).status,
            final(self).connected == old(self).connected,
            final(self).connecting == old(self).connecting,
            final(self).info == old(self).info,
            final(self).performance == old(self).performance,
    {
        self.pending_system_command = None;
        self.last_system_command = None;
    }

    /// "Command: <name> pending seq <n>" once acknowledged, "Command: <name> sending..." before.
    pub fn pending_system_command_text(&self) -> (r: Option<String>)
        ensures
            match self.pending_system_command {
                None => r is None,
                Some(p) => r matches Some(s) && s@ == match p.sequence {
                    Some(n) => "Command: "@ + p.command.spec_label() + " pending seq "@ + decimal(n as nat),
                    None => "Command: "@ + p.command.spec_label() + " sending..."@,
                },
            },
    {
        let pending = match self.pending_system_command {
            Some(p) => p,
            None => return None,
        };
        let mut s = String::new();
        push_str(&mut s, "Command: ");
        push_str(&mut s, pending.command.label());
        match pending.sequence {
            Some(sequence) => {
                push_str(&mut s, " pending seq ");
                push_decimal(&mut s, sequence as u64);
            },
            None => push_str(&mut s, " sending..."),
        }
        Some(s)
    }

    /// "Last command: <name> <result> (seq <n>)".
    pub fn last_system_command_text(&self) -> (r: Option<String>)
        ensures
            match self.last_system_command {
                None => r is None,
                Some(c) => r matches Some(s) && s@ == "Last command: "@ + c.command.spec_label() + " "@
                    + spec_command_result_text(c.result) + " (seq "@ + decimal(c.sequence as nat) + ")"@,
            },
    {
        let completed = match self.last_system_command {
            Some(c) => c,
            None => return None,
        };
        let mut s = String::new();
        push_str(&mut s, "Last command: ");
        push_str(&mut s, completed.command.label());
        push_str(&mut s, " ");
        let result = command_result_text(completed.result);
        push_str(&mut s, result.as_str());
        push_str(&mut s, " (seq ");
        push_decimal(&mut s, completed.sequence as u64);
        push_str(&mut s, ")");
        Some(s)
    }
}

/// What a click on the connection (plug) button asks for.
#[derive(Debug, Clone, Copy, PartialEq, Eq, Structural)]
pub enum PlugAction {
    /// Connected while the user system runs: warn before disconnecting.
    WarnBeforeDisconnect,
    Disconnect,
    CancelConnect,
    Connect,
}

impl HardwareState {
    /// The action of a click on the plug button.
    pub fn plug_action(&self) -> (r: PlugAction)
        ensures
            r == if self.connected {
                if self.status matches Some(s) && s.system_state == SystemState::Running {
                    PlugAction::WarnBeforeDisconnect
                } else {
                    PlugAction::Disconnect
                }
            } else if self.connecting {
                PlugAction::CancelConnect
            } else {
                PlugAction::Connect
            },
    {
        if self.connected {
            if self.is_running() { PlugAction::WarnBeforeDisconnect } else { PlugAction::Disconnect }
        } else if self.connecting {
            PlugAction::CancelConnect
        } else {
            PlugAction::Connect
        }
    }

    /// The hover text of the plug button.
    pub fn plug_hover_text(&self) -> (r: &'static str)
        ensures
            r@ == if self.connected { "Disconnect"@ } else if self.connecting { "Cancel"@ } else { "Connect"@ },
    {
        if self.connected { "Disconnect" } else if self.connecting { "Cancel" } else { "Connect" }
    }
}

} // verus!
