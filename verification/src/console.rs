//! The console log: entries with a severity, the newest notice or problem
//! promoted to the status bar, and Info entries capped at the newest 500.

use vstd::prelude::*;
use std::collections::VecDeque;
use crate::clock::{local_now_text, log_time_shaped, monotonic_now};
use crate::source::{command_result_text, spec_command_result_text};
use crate::state::abz_zeroing::AbzZeroingCommandResult;
use crate::state::calibration::CalibrationCommandResult;
use crate::text::{decimal, push_decimal, push_str};

verus! {

/// At most this many Info entries are kept; other levels are never dropped.
pub const MAX_INFO_ENTRIES: usize = 500;

/// Severity level for console log entries, from least to most severe.
#[derive(Debug, Clone, Copy, PartialEq, Eq, Structural)]
pub enum LogLevel {
    Debug,
    Info,
    Notice,
    Warn,
    Error,
}

/// The position of a level in the severity order.
pub open spec fn rank(level: LogLevel) -> int {
    match level {
        LogLevel::Debug => 0,
        LogLevel::Info => 1,
        LogLevel::Notice => 2,
        LogLevel::Warn => 3,
        LogLevel::Error => 4,
    }
}

impl LogLevel {
    pub open spec fn spec_label(self) -> Seq<char> {
        match self {
            LogLevel::Debug => "DBG"@,
            LogLevel::Info => "INF"@,
            LogLevel::Notice => "NTC"@,
            LogLevel::Warn => "WRN"@,
            LogLevel::Error => "ERR"@,
        }
    }

    /// The three-letter tag of a level.
    pub fn label(self) -> (r: &'static str)
        ensures
            r@ == self.spec_label(),
    {
        match self {
            LogLevel::Debug => "DBG",
            LogLevel::Info => "INF",
            LogLevel::Notice => "NTC",
            LogLevel::Warn => "WRN",
            LogLevel::Error => "ERR",
        }
    }

    /// The severity position of this level (Debug lowest, Error highest).
    pub fn severity(self) -> (r: u8)
        ensures
            r == rank(self),
    {
        match self {
            LogLevel::Debug => 0,
            LogLevel::Info => 1,
            LogLevel::Notice => 2,
            LogLevel::Warn => 3,
            LogLevel::Error => 4,
        }
    }

    /// At least as severe as `other`.
    pub fn at_least(self, other: LogLevel) -> (r: bool)
        ensures
            r == (rank(self) >= rank(other)),
    {
        self.severity() >= other.severity()
    }
}

/// A single console log entry.
#[derive(Debug, Clone)]
pub struct LogEntry {
    /// Wall-clock timestamp formatted as "YYYY-MM-DD, HH:MM:SS".
    pub time: String,
    pub level: LogLevel,
    pub message: String,
}

/// A status-bar message promoted from the console log (Notice/Warn/Error).
pub struct StatusMessage {
    pub level: LogLevel,
    pub text: String,
    pub timestamp: std::time::Instant,
}

pub open spec fn is_info(e: LogEntry) -> bool {
    e.level == LogLevel::Info
}

/// The number of Info entries.
pub open spec fn info_count(s: Seq<LogEntry>) -> nat
    decreases s.len(),
{
    if s.len() == 0 {
        0
    } else {
        (if is_info(s[0]) { 1nat } else { 0nat }) + info_count(s.drop_first())
    }
}

/// The index of the oldest Info entry (the length when there is none).
pub open spec fn first_info(s: Seq<LogEntry>) -> int
    decreases s.len(),
{
    if s.len() == 0 {
        0
    } else if is_info(s[0]) {
        0
    } else {
        1 + first_info(s.drop_first())
    }
}

proof fn lemma_info_count_push(s: Seq<LogEntry>, e: LogEntry)
    ensures
        info_count(s.push(e)) == info_count(s) + if is_info(e) { 1nat } else { 0nat },
    decreases s.len(),
{
    if s.len() == 0 {
        assert(s.push(e).drop_first() =~= Seq::<LogEntry>::empty());
        assert(info_count(s.push(e).drop_first()) == 0);
        assert(s.push(e)[0] == e);
    } else {
        assert(s.push(e).drop_first() =~= s.drop_first().push(e));
        assert(s.push(e)[0] == s[0]);
        lemma_info_count_push(s.drop_first(), e);
    }
}

proof fn lemma_info_count_remove(s: Seq<LogEntry>, i: int)
    requires
        0 <= i < s.len(),
    ensures
        info_count(s.remove(i)) + (if is_info(s[i]) { 1nat } else { 0nat }) == info_count(s),
    decreases s.len(),
{
    if i == 0 {
        assert(s.remove(0) =~= s.drop_first());
    } else {
        assert(s.remove(i).drop_first() =~= s.drop_first().remove(i - 1));
        lemma_info_count_remove(s.drop_first(), i - 1);
    }
}

pub proof fn lemma_first_info(s: Seq<LogEntry>)
    requires
        info_count(s) > 0,
    ensures
        0 <= first_info(s) < s.len(),
        is_info(s[first_info(s)]),
        forall|k: int| 0 <= k < first_info(s) ==> !is_info(#[trigger] s[k]),
    decreases s.len(),
{
    if !is_info(s[0]) {
        lemma_first_info(s.drop_first());
        assert forall|k: int| 0 <= k < first_info(s) implies !is_info(#[trigger] s[k]) by {
            if k > 0 {
                assert(s[k] == s.drop_first()[k - 1]);
            }
        }
    }
}

proof fn lemma_first_info_at(s: Seq<LogEntry>, i: int)
    requires
        0 <= i < s.len(),
        is_info(s[i]),
        forall|k: int| 0 <= k < i ==> !is_info(#[trigger] s[k]),
    ensures
        first_info(s) == i,
    decreases i,
{
    if i > 0 {
        assert forall|k: int| 0 <= k < i - 1 implies !is_info(#[trigger] s.drop_first()[k]) by {
            assert(s.drop_first()[k] == s[k + 1]);
        }
        lemma_first_info_at(s.drop_first(), i - 1);
    }
}

/// Drops the oldest Info entries until at most `MAX_INFO_ENTRIES` remain.
pub open spec fn trim_info(s: Seq<LogEntry>) -> Seq<LogEntry>
    decreases s.len(),
{
    if info_count(s) > MAX_INFO_ENTRIES {
        proof { lemma_first_info(s); }
        trim_info(s.remove(first_info(s)))
    } else {
        s
    }
}

/// The entries shown at or above `min_level`.
pub open spec fn shown_at(min_level: LogLevel) -> spec_fn(LogEntry) -> bool {
    |e: LogEntry| rank(e.level) >= rank(min_level)
}

/// Central log buffer: console entries and the promoted status-bar message.
pub struct LogBuffer {
    pub logs: VecDeque<LogEntry>,
    /// Minimum severity shown in the console panel.
    pub log_min_level: LogLevel,
    /// Latest Notice/Warn/Error message, displayed in the status bar.
    pub status_message: Option<StatusMessage>,
    info_entries: usize,
}

impl LogBuffer {
    /// The entries, oldest first.
    pub closed spec fn entries(&self) -> Seq<LogEntry> {
        self.logs@
    }

    pub closed spec fn min_level(&self) -> LogLevel {
        self.log_min_level
    }

    pub closed spec fn status(&self) -> Option<StatusMessage> {
        self.status_message
    }

    /// The Info counter matches the entries and is within the cap.
    pub closed spec fn wf(&self) -> bool {
        &&& self.info_entries == info_count(self.logs@)
        &&& self.info_entries <= MAX_INFO_ENTRIES
    }

    /// Appends an entry with the current wall-clock time. Notice and more
    /// severe messages become the status message; the oldest Info entries
    /// are dropped beyond `MAX_INFO_ENTRIES`.
    pub fn push(&mut self, level: LogLevel, message: String)
        requires
            old(self).wf(),
        ensures
            final(self).wf(),
            exists|time: String| log_time_shaped(time@) && final(self).entries()
                == trim_info(old(self).entries().push(LogEntry { time, level, message })),
            rank(level) >= rank(LogLevel::Notice) ==> (final(self).status() matches Some(m)
                && m.level == level && m.text == message),
            rank(level) < rank(LogLevel::Notice) ==> final(self).status() == old(self).status(),
            final(self).min_level() == old(self).min_level(),
    {
        let time = local_now_text(crate::clock::LOG_TIME_PATTERN);

        if level.at_least(LogLevel::Notice) {
            self.status_message = Some(StatusMessage {
                level,
                text: message.clone(),
                timestamp: monotonic_now(),
            });
        }
        let ghost old_logs = self.logs@;
        let ghost entry = LogEntry { time, level, message };
        assert(entry.message == message);
        assert(old_logs == old(self).logs@);
        proof {
            lemma_info_count_push(old_logs, entry);
        }
        if level == LogLevel::Info {
            self.info_entries = self.info_entries + 1;
        }
        self.logs.push_back(LogEntry { time, level, message });
        assert(self.logs@ == old_logs.push(entry));
        self.trim_info_entries();
        assert(self.logs@ == trim_info(old_logs.push(entry)));
        assert(entry == LogEntry { time: entry.time, level, message: entry.message });
        assert(self.entries() == trim_info(old(self).entries().push(LogEntry { time: entry.time, level, message: entry.message })));
    }

    /// Removes every entry.
    pub fn clear(&mut self)
        requires
            old(self).wf(),
        ensures
            final(self).wf(),
            final(self).entries() == Seq::<LogEntry>::empty(),
            final(self).status() == old(self).status(),
            final(self).min_level() == old(self).min_level(),
    {
        self.logs.clear();
        self.info_entries = 0;
        assert(info_count(self.logs@) == 0);
    }

    /// How many entries are shown at or above `min_level`.
    pub fn visible_entry_count(&self, min_level: LogLevel) -> (r: usize)
        ensures
            r == self.entries().filter(shown_at(min_level)).len(),
    {
        self.visible_entries(min_level).len()
    }

    /// The entries shown at or above `min_level`, oldest first.
    pub fn visible_entries(&self, min_level: LogLevel) -> (r: Vec<&LogEntry>)
        ensures
            r@.map_values(|e: &LogEntry| *e) == self.entries().filter(shown_at(min_level)),
    {
        let mut out: Vec<&LogEntry> = Vec::new();
        let n = self.logs.len();
        let mut i: usize = 0;
        while i < n
            invariant
                n == self.logs@.len(),
                i <= n,
                out@.map_values(|e: &LogEntry| *e) == self.logs@.take(i as int).filter(shown_at(min_level)),
            decreases n - i,
        {
            let entry = &self.logs[i];
            proof {
                assert(self.logs@.take(i as int + 1) == self.logs@.take(i as int).push(self.logs@[i as int]));
                self.logs@.take(i as int).lemma_filter_push(self.logs@[i as int], shown_at(min_level));
            }
            if entry.level.at_least(min_level) {
                out.push(entry);
            }
            assert(out@.map_values(|e: &LogEntry| *e) == self.logs@.take(i as int + 1).filter(shown_at(min_level)));
            i = i + 1;
        }
        assert(self.logs@.take(n as int) == self.logs@);
        out
    }

    /// Drops the oldest Info entries while more than `MAX_INFO_ENTRIES` are counted.
    fn trim_info_entries(&mut self)
        requires
            old(self).info_entries == info_count(old(self).logs@),
        ensures
            final(self).info_entries == info_count(final(self).logs@),
            final(self).info_entries <= MAX_INFO_ENTRIES,
            final(self).logs@ == trim_info(old(self).logs@),
            final(self).status_message == old(self).status_message,
            final(self).log_min_level == old(self).log_min_level,
    {
        while self.info_entries > MAX_INFO_ENTRIES
            invariant
                self.info_entries == info_count(self.logs@),
                trim_info(self.logs@) == trim_info(old(self).logs@),
                self.status_message == old(self).status_message,
                self.log_min_level == old(self).log_min_level,
            decreases self.logs@.len(),
        {
            let n = self.logs.len();
            let mut index: usize = 0;
            while index < n && self.logs[index].level != LogLevel::Info
                invariant
                    n == self.logs@.len(),
                    index <= n,
                    forall|k: int| 0 <= k < index ==> !is_info(#[trigger] self.logs@[k]),
                decreases n - index,
            {
                index = index + 1;
            }
            proof { lemma_first_info(self.logs@); }
            if index == n {
                // No Info entry although the counter says otherwise; cannot
                // happen while the counter matches the entries.
                assert(!is_info(self.logs@[first_info(self.logs@)]));
                self.info_entries = 0;
                return;
            }
            proof {
                lemma_first_info_at(self.logs@, index as int);
                lemma_info_count_remove(self.logs@, index as int);
            }
            let ghost before = self.logs@;
            self.logs.remove(index);
            self.info_entries = self.info_entries - 1;
            assert(trim_info(before) == trim_info(before.remove(index as int)));
        }
    }
}

impl Default for LogBuffer {
    /// Empty, showing Info and above, no status message.
    fn default() -> (r: Self)
        ensures
            r.wf(),
            r.entries() == Seq::<LogEntry>::empty(),
            r.min_level() == LogLevel::Info,
            r.status() is None,
    {
        let r = LogBuffer { logs: VecDeque::new(), log_min_level: LogLevel::Info, status_message: None, info_entries: 0 };
        assert(info_count(r.logs@) == 0);
        r
    }
}

/// `new` is `old` with one entry of `level` and text `text` appended at
/// some wall-clock time, then trimmed.
pub open spec fn logged(old: Seq<LogEntry>, new: Seq<LogEntry>, level: LogLevel, text: Seq<char>) -> bool {
    exists|time: String, message: String| message@ == text
        && new == trim_info(old.push(LogEntry { time, level, message }))
}

/// Notice for a zero command result, Warn otherwise.
pub open spec fn result_level(result: u16) -> LogLevel {
    if result == 0 { LogLevel::Notice } else { LogLevel::Warn }
}

/// The console line for a finished calibration command.
pub open spec fn calibration_report(result: CalibrationCommandResult) -> (LogLevel, Seq<char>) {
    match result {
        CalibrationCommandResult::Measure { sequence, result } => (result_level(result),
            "Calibration Measure Zero completed "@ + spec_command_result_text(result) + " as sequence "@
                + decimal(sequence as nat)),
        CalibrationCommandResult::Commit { commit_sequence } => (LogLevel::Notice,
            "Calibration Commit to Flash stored commit sequence "@ + decimal(commit_sequence as nat)),
        CalibrationCommandResult::Failed { command, message } => (LogLevel::Warn,
            "Calibration "@ + command.spec_label() + " failed: "@ + message@),
    }
}

/// The console line for a finished ABZ zeroing request.
pub open spec fn abz_zeroing_report(result: AbzZeroingCommandResult) -> (LogLevel, Seq<char>) {
    match result {
        AbzZeroingCommandResult::Completed { sequence, result } => (result_level(result),
            "ABZ Zeroing request completed "@ + spec_command_result_text(result) + " as sequence "@
                + decimal(sequence as nat)),
        AbzZeroingCommandResult::Failed { message } => (LogLevel::Warn,
            "ABZ Zeroing request failed: "@ + message@),
    }
}

fn level_for_result(result: u16) -> (r: LogLevel)
    ensures
        r == result_level(result),
{
    if result == 0 { LogLevel::Notice } else { LogLevel::Warn }
}

/// Logs a finished calibration command.
pub fn log_calibration_result(result: &CalibrationCommandResult, log: &mut LogBuffer)
    requires
        old(log).wf(),
    ensures
        final(log).wf(),
        logged(old(log).entries(), final(log).entries(), calibration_report(*result).0, calibration_report(*result).1),
        final(log).min_level() == old(log).min_level(),
{
    let mut text = String::new();
    let level = match result {
        CalibrationCommandResult::Measure { sequence, result } => {
            push_str(&mut text, "Calibration Measure Zero completed ");
            let label = command_result_text(*result);
            push_str(&mut text, label.as_str());
            push_str(&mut text, " as sequence ");
            push_decimal(&mut text, *sequence as u64);
            level_for_result(*result)
        },
        CalibrationCommandResult::Commit { commit_sequence } => {
            push_str(&mut text, "Calibration Commit to Flash stored commit sequence ");
            push_decimal(&mut text, *commit_sequence as u64);
            LogLevel::Notice
        },
        CalibrationCommandResult::Failed { command, message } => {
            push_str(&mut text, "Calibration ");
            push_str(&mut text, command.label());
            push_str(&mut text, " failed: ");
            push_str(&mut text, message.as_str());
            LogLevel::Warn
        },
    };
    log.push(level, text);
}

/// Logs a finished ABZ zeroing request.
pub fn log_abz_zeroing_result(result: &AbzZeroingCommandResult, log: &mut LogBuffer)
    requires
        old(log).wf(),
    ensures
        final(log).wf(),
        logged(old(log).entries(), final(log).entries(), abz_zeroing_report(*result).0, abz_zeroing_report(*result).1),
        final(log).min_level() == old(log).min_level(),
{
    let mut text = String::new();
    let level = match result {
        AbzZeroingCommandResult::Completed { sequence, result } => {
            push_str(&mut text, "ABZ Zeroing request completed ");
            let label = command_result_text(*result);
            push_str(&mut text, label.as_str());
            push_str(&mut text, " as sequence ");
            push_decimal(&mut text, *sequence as u64);
            level_for_result(*result)
        },
        AbzZeroingCommandResult::Failed { message } => {
            push_str(&mut text, "ABZ Zeroing request failed: ");
            push_str(&mut text, message.as_str());
            LogLevel::Warn
        },
    };
    log.push(level, text);
}


/// The number of entries of other levels than Info.
pub open spec fn other_count(s: Seq<LogEntry>) -> nat
    decreases s.len(),
{
    if s.len() == 0 {
        0
    } else {
        (if is_info(s[0]) { 0nat } else { 1nat }) + other_count(s.drop_first())
    }
}

proof fn lemma_other_count_remove(s: Seq<LogEntry>, i: int)
    requires
        0 <= i < s.len(),
    ensures
        other_count(s.remove(i)) + (if is_info(s[i]) { 0nat } else { 1nat }) == other_count(s),
    decreases s.len(),
{
    if i == 0 {
        assert(s.remove(0) =~= s.drop_first());
    } else {
        assert(s.remove(i).drop_first() =~= s.drop_first().remove(i - 1));
        lemma_other_count_remove(s.drop_first(), i - 1);
    }
}

/// Trimming keeps at most `MAX_INFO_ENTRIES` Info entries, drops Info
/// entries only beyond that, and never drops an entry of another level.
pub proof fn law_trim_keeps_other_levels(s: Seq<LogEntry>)
    ensures
        info_count(trim_info(s)) == if info_count(s) > MAX_INFO_ENTRIES { MAX_INFO_ENTRIES as nat } else { info_count(s) },
        other_count(trim_info(s)) == other_count(s),
    decreases s.len(),
{
    if info_count(s) > MAX_INFO_ENTRIES {
        lemma_first_info(s);
        let i = first_info(s);
        lemma_info_count_remove(s, i);
        lemma_other_count_remove(s, i);
        law_trim_keeps_other_levels(s.remove(i));
    }
}

/// How long a promoted status message stays, in milliseconds.
pub const STATUS_MESSAGE_MS: u64 = 5000;

/// Whether the promoted status message goes away: notices, warnings and
/// errors are dismissed once they are older than `STATUS_MESSAGE_MS`.
pub fn status_message_expired(level: LogLevel, age_ms: u64) -> (r: bool)
    ensures
        r == (rank(level) >= rank(LogLevel::Notice) && age_ms > STATUS_MESSAGE_MS),
{
    level.at_least(LogLevel::Notice) && age_ms > STATUS_MESSAGE_MS
}

} // verus!
