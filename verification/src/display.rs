//! Texts shown by the panels: optional counters, hexadecimal registers,
//! workflow progress and command outcomes; and small naming rules of the
//! command and export paths.

use vstd::prelude::*;
use vstd::string::*;
use crate::source::{command_result_text, spec_command_result_text, ScopeMode};
use crate::state::calibration::{CalibrationCommandResult, CalibrationState};
use crate::state::srm_open_loop::{SrmOpenLoopPhase, SrmOpenLoopState};
use crate::text::{chars_of, decimal, hex_fixed, push_char, push_decimal, push_hex, push_str, string_from_chars};

verus! {

/// NO, YES, `READY <n>` or UNKNOWN.
pub open spec fn spec_ready_label(value: Option<u16>) -> Seq<char> {
    match value {
        Some(v) => if v == 0 { "NO"@ } else if v == 1 { "YES"@ } else { "READY "@ + decimal(v as nat) },
        None => "UNKNOWN"@,
    }
}

/// Names a ready flag.
pub fn ready_label(value: Option<u16>) -> (r: String)
    ensures
        r@ == spec_ready_label(value),
{
    match value {
        Some(0) => "NO".to_owned(),
        Some(1) => "YES".to_owned(),
        Some(v) => {
            let mut s = String::new();
            push_str(&mut s, "READY ");
            push_decimal(&mut s, v as u64);
            s
        },
        None => "UNKNOWN".to_owned(),
    }
}

/// A counter in decimal, or `-` when unread.
pub fn u16_text(value: Option<u16>) -> (r: String)
    ensures
        r@ == match value { Some(v) => decimal(v as nat), None => "-"@ },
{
    match value {
        Some(v) => {
            let mut s = String::new();
            push_decimal(&mut s, v as u64);
            s
        },
        None => "-".to_owned(),
    }
}

/// A counter in decimal, or `-` when unread.
pub fn u32_text(value: Option<u32>) -> (r: String)
    ensures
        r@ == match value { Some(v) => decimal(v as nat), None => "-"@ },
{
    match value {
        Some(v) => {
            let mut s = String::new();
            push_decimal(&mut s, v as u64);
            s
        },
        None => "-".to_owned(),
    }
}

/// A register as `0x` and four upper-case hexadecimal digits, or `-`.
pub fn hex_u16_text(value: Option<u16>) -> (r: String)
    ensures
        r@ == match value { Some(v) => "0x"@ + hex_fixed(v as nat, 4, true), None => "-"@ },
{
    match value {
        Some(v) => {
            let mut s = String::new();
            push_str(&mut s, "0x");
            push_hex(&mut s, v as u64, 4, true);
            s
        },
        None => "-".to_owned(),
    }
}

/// A register as `0x` and eight upper-case hexadecimal digits, or `-`.
pub fn hex_u32_text(value: Option<u32>) -> (r: String)
    ensures
        r@ == match value { Some(v) => "0x"@ + hex_fixed(v as nat, 8, true), None => "-"@ },
{
    match value {
        Some(v) => {
            let mut s = String::new();
            push_str(&mut s, "0x");
            push_hex(&mut s, v as u64, 8, true);
            s
        },
        None => "-".to_owned(),
    }
}

/// The progress line of the SRM open-loop workflow.
pub open spec fn spec_srm_workflow_text(phase: SrmOpenLoopPhase) -> Option<Seq<char>> {
    match phase {
        SrmOpenLoopPhase::Idle => None,
        SrmOpenLoopPhase::StartingSystem => Some("SRM Open-loop ABZ: starting Viewer2000..."@),
        SrmOpenLoopPhase::RequestingOpenLoop => Some("SRM Open-loop ABZ: requesting powered run..."@),
        SrmOpenLoopPhase::Running => Some("SRM Open-loop ABZ: powered run active"@),
        SrmOpenLoopPhase::StoppingSystem => Some("SRM Open-loop ABZ: stopping Viewer2000..."@),
    }
}

/// Describes where the SRM open-loop workflow stands, if it is under way.
pub fn srm_workflow_text(srm_open_loop: &SrmOpenLoopState) -> (r: Option<String>)
    ensures
        match spec_srm_workflow_text(srm_open_loop.phase) {
            Some(t) => r matches Some(s) && s@ == t,
            None => r is None,
        },
{
    match srm_open_loop.phase {
        SrmOpenLoopPhase::Idle => None,
        SrmOpenLoopPhase::StartingSystem => Some("SRM Open-loop ABZ: starting Viewer2000...".to_owned()),
        SrmOpenLoopPhase::RequestingOpenLoop => Some("SRM Open-loop ABZ: requesting powered run...".to_owned()),
        SrmOpenLoopPhase::Running => Some("SRM Open-loop ABZ: powered run active".to_owned()),
        SrmOpenLoopPhase::StoppingSystem => Some("SRM Open-loop ABZ: stopping Viewer2000...".to_owned()),
    }
}

/// The line describing a calibration outcome.
pub open spec fn spec_last_result_text(result: CalibrationCommandResult) -> Seq<char> {
    match result {
        CalibrationCommandResult::Measure { sequence, result } =>
            "Measure Zero "@ + spec_command_result_text(result) + " (seq "@ + decimal(sequence as nat) + ")"@,
        CalibrationCommandResult::Commit { commit_sequence } =>
            "Commit to Flash OK (seq "@ + decimal(commit_sequence as nat) + ")"@,
        CalibrationCommandResult::Failed { command, message } =>
            command.spec_label() + " failed: "@ + message@,
    }
}

/// Describes the last calibration outcome, if there is one.
pub fn last_result_text(calibration: &CalibrationState) -> (r: Option<String>)
    ensures
        match calibration.last_result {
            Some(res) => r matches Some(s) && s@ == spec_last_result_text(res),
            None => r is None,
        },
{
    match &calibration.last_result {
        None => None,
        Some(CalibrationCommandResult::Measure { sequence, result }) => {
            let mut s = String::new();
            push_str(&mut s, "Measure Zero ");
            let t = command_result_text(*result);
            push_str(&mut s, t.as_str());
            push_str(&mut s, " (seq ");
            push_decimal(&mut s, *sequence as u64);
            push_str(&mut s, ")");
            Some(s)
        },
        Some(CalibrationCommandResult::Commit { commit_sequence }) => {
            let mut s = String::new();
            push_str(&mut s, "Commit to Flash OK (seq ");
            push_decimal(&mut s, *commit_sequence as u64);
            push_str(&mut s, ")");
            Some(s)
        },
        Some(CalibrationCommandResult::Failed { command, message }) => {
            let mut s = String::new();
            push_str(&mut s, command.label());
            push_str(&mut s, " failed: ");
            push_str(&mut s, message.as_str());
            Some(s)
        },
    }
}

/// The name of a scope mode in command messages ("capture" for an armed capture).
pub open spec fn spec_mode_name(mode: ScopeMode) -> Seq<char> {
    match mode {
        ScopeMode::Off => "off"@,
        ScopeMode::Stream => "stream"@,
        ScopeMode::CaptureArmed => "capture"@,
        ScopeMode::CapturePost => "capture post"@,
        ScopeMode::CaptureFrozen => "capture frozen"@,
        ScopeMode::Unknown(_) => "unknown"@,
    }
}

/// Names a scope mode in command messages.
pub fn mode_name(mode: ScopeMode) -> (r: &'static str)
    ensures
        r@ == spec_mode_name(mode),
{
    match mode {
        ScopeMode::Off => "off",
        ScopeMode::Stream => "stream",
        ScopeMode::CaptureArmed => "capture",
        ScopeMode::CapturePost => "capture post",
        ScopeMode::CaptureFrozen => "capture frozen",
        ScopeMode::Unknown(_) => "unknown",
    }
}

/// The variables that may carry the DC-link voltage of a channel.
pub open spec fn spec_dc_voltage_names(channel: u8) -> Seq<Seq<char>> {
    if channel == 1 {
        seq!["v2k_adc.voltage.vt1"@]
    } else if channel == 2 {
        seq!["v2k_adc.voltage.vt2"@]
    } else {
        Seq::empty()
    }
}

/// The candidate variable names for the DC-link voltage of channel 1 or 2.
pub fn dc_voltage_candidate_names(channel: u8) -> (r: Vec<&'static str>)
    ensures
        r@.map_values(|s: &'static str| s@) == spec_dc_voltage_names(channel),
{
    let mut names: Vec<&'static str> = Vec::new();
    if channel == 1 {
        names.push("v2k_adc.voltage.vt1");
    } else if channel == 2 {
        names.push("v2k_adc.voltage.vt2");
    }
    assert(names@.map_values(|s: &'static str| s@) =~= spec_dc_voltage_names(channel));
    names
}

/// Name for what `Path::with_extension` gives for a path and an extension;
/// it depends on the two alone.
pub uninterp spec fn path_with_ext(path: std::path::PathBuf, extension: Seq<char>) -> std::path::PathBuf;

/// Calls `std::path::Path::with_extension`, which panics when the extension
/// holds a path separator (`/`, or `\\` on Windows); such extensions are
/// not admitted. The contract names the result.
#[verifier::external_body]
fn path_with_extension(path: &std::path::PathBuf, extension: &str) -> (r: std::path::PathBuf)
    requires
        !extension@.contains('/'),
        !extension@.contains('\\'),
    ensures
        r == path_with_ext(*path, extension@),
{
    path.with_extension(extension)
}

/// The screenshot saved beside a CSV export: the same path with the
/// extension `png`, when screenshots are enabled.
pub fn screenshot_path_for_csv(csv_path: &std::path::PathBuf, enabled: bool) -> (r: Option<std::path::PathBuf>)
    ensures
        enabled ==> r == Some(path_with_ext(*csv_path, "png"@)),
        !enabled ==> r is None,
{
    if enabled {
        proof {
            reveal_strlit("png");
        }
        Some(path_with_extension(csv_path, "png"))
    } else {
        None
    }
}

pub open spec fn is_decimal_digit(c: char) -> bool {
    '0' <= c <= '9'
}

/// The value of a run of decimal digits.
pub open spec fn digits_value(s: Seq<char>) -> nat
    decreases s.len(),
{
    if s.len() == 0 {
        0
    } else {
        digits_value(s.drop_last()) * 10 + ((s.last() as u32) - 0x30) as nat
    }
}

/// The text after an optional leading `+`.
pub open spec fn unsigned_part(s: Seq<char>) -> Seq<char> {
    if s.len() > 0 && s[0] == '+' { s.drop_first() } else { s }
}

pub open spec fn all_decimal_digits(d: Seq<char>) -> bool {
    forall|k: int| 0 <= k < d.len() ==> is_decimal_digit(#[trigger] d[k])
}

/// How `usize`'s `FromStr` reads a text: an optional `+`, then one or more
/// decimal digits whose value fits.
pub open spec fn spec_parse_usize(s: Seq<char>) -> Option<nat> {
    let d = unsigned_part(s);
    if d.len() == 0 || !all_decimal_digits(d) || digits_value(d) > usize::MAX {
        None
    } else {
        Some(digits_value(d))
    }
}

proof fn lemma_digits_value_push(s: Seq<char>, c: char)
    ensures
        digits_value(s.push(c)) == digits_value(s) * 10 + ((c as u32) - 0x30) as nat,
{
    assert(s.push(c).drop_last() =~= s);
}

proof fn lemma_digits_value_grows(s: Seq<char>, i: int)
    requires
        0 <= i <= s.len(),
        forall|k: int| 0 <= k < s.len() ==> is_decimal_digit(#[trigger] s[k]),
    ensures
        digits_value(s.take(i)) <= digits_value(s),
    decreases s.len() - i,
{
    if i < s.len() {
        lemma_digits_value_grows(s, i + 1);
        assert(s.take(i + 1) =~= s.take(i).push(s[i]));
        lemma_digits_value_push(s.take(i), s[i]);
    } else {
        assert(s.take(i) =~= s);
    }
}

/// Parses a text as `usize` the way `str::parse::<usize>` does.
#[verifier::loop_isolation(false)]
pub fn parse_usize(text: &[char]) -> (r: Option<usize>)
    ensures
        match spec_parse_usize(text@) {
            Some(v) => r == Some(v as usize),
            None => r is None,
        },
{
    let start: usize = if text.len() > 0 && text[0] == '+' { 1 } else { 0 };
    let ghost d = unsigned_part(text@);
    assert(d =~= text@.subrange(start as int, text@.len() as int));
    if start >= text.len() {
        return None;
    }
    let mut value: usize = 0;
    let mut i: usize = start;
    while i < text.len()
        invariant
            start <= i <= text@.len(),
            d =~= text@.subrange(start as int, text@.len() as int),
            forall|k: int| start <= k < i ==> is_decimal_digit(#[trigger] text@[k]),
            value == digits_value(d.take(i - start)),
        decreases text.len() - i,
    {
        let c = text[i];
        assert(d[i - start] == c);
        if c < '0' || c > '9' {
            assert(!is_decimal_digit(d[i - start]));
            assert(!all_decimal_digits(d));
            return None;
        }
        let digit = (c as u32 - 0x30) as usize;
        assert(d.take(i - start + 1) =~= d.take(i - start).push(d[i - start]));
        proof { lemma_digits_value_push(d.take(i - start), d[i - start]); }
        let grown = match value.checked_mul(10) {
            Some(m) => m.checked_add(digit),
            None => None,
        };
        match grown {
            Some(v) => { value = v; },
            None => {
                proof {
                    assert(digits_value(d.take(i - start + 1)) == value * 10 + digit);
                    assert(value * 10 + digit > usize::MAX);
                    if all_decimal_digits(d) {
                        lemma_digits_value_grows(d, i - start + 1);
                    }
                }
                return None;
            },
        }
        i = i + 1;
    }
    assert(d.take(i - start) =~= d);
    Some(value)
}

/// A precision spec without one leading `.` and one trailing `f`.
pub open spec fn precision_digits(fmt: Seq<char>) -> Seq<char> {
    let a = if fmt.len() > 0 && fmt[0] == '.' { fmt.drop_first() } else { fmt };
    if a.len() > 0 && a.last() == 'f' { a.drop_last() } else { a }
}

/// Reads a precision spec such as `.3f`, `3f`, `.3` or `3`.
pub fn parse_precision(fmt: &str) -> (r: Result<usize, String>)
    ensures
        match spec_parse_usize(precision_digits(fmt@)) {
            Some(v) => r == Ok::<usize, String>(v as usize),
            None => r matches Err(e) && e@ == "Invalid format spec: "@ + precision_digits(fmt@),
        },
{
    let chars = chars_of(fmt);
    let mut start: usize = 0;
    let mut end: usize = chars.len();
    if end > 0 && chars[0] == '.' {
        start = 1;
    }
    if end > start && chars[end - 1] == 'f' {
        end = end - 1;
    }
    let digits = vstd::slice::slice_subrange(chars.as_slice(), start, end);
    assert(digits@ =~= precision_digits(fmt@));
    match parse_usize(digits) {
        Some(v) => Ok(v),
        None => {
            let mut message = String::new();
            push_str(&mut message, "Invalid format spec: ");
            let text = string_from_chars(digits);
            push_str(&mut message, text.as_str());
            Err(message)
        },
    }
}


pub const DISPLAY_NAME_MAX_CHARS: usize = 24;
pub const SYSTEM_DISPLAY_NAME_MAX_CHARS: usize = 20;

/// A name cut to at most `max` characters from its end: longer names keep
/// their last characters behind "...", or, where `max` leaves no room for
/// the marker, only their last `max` characters.
pub open spec fn truncated_from_start(name: Seq<char>, max: nat) -> Seq<char> {
    if name.len() <= max {
        name
    } else if max <= 3 {
        name.skip(name.len() - max)
    } else {
        "..."@ + name.skip(name.len() - (max - 3))
    }
}

/// Cuts `name` to at most `max_chars` characters, keeping its end.
pub fn truncate_from_start(name: &str, max_chars: usize) -> (r: String)
    ensures
        r@ == truncated_from_start(name@, max_chars as nat),
{
    let chars = chars_of(name);
    let n = chars.len();
    if n <= max_chars {
        return string_from_chars(chars.as_slice());
    }
    let keep = if max_chars <= 3 { max_chars } else { max_chars - 3 };
    let mut s = String::new();
    if max_chars > 3 {
        push_str(&mut s, "...");
    }
    let ghost prefix = s@;
    let mut i: usize = n - keep;
    while i < n
        invariant
            n == chars@.len(),
            keep <= n,
            n - keep <= i <= n,
            s@ == prefix + chars@.subrange(n - keep, i as int),
        decreases n - i,
    {
        push_char(&mut s, chars[i]);
        assert(chars@.subrange(n - keep, i as int + 1) =~= chars@.subrange(n - keep, i as int).push(chars@[i as int]));
        i = i + 1;
    }
    assert(chars@.subrange(n - keep, n as int) =~= chars@.skip(n - keep));
    s
}

/// The name of a variable as the variable map shows it: at most
/// `SYSTEM_DISPLAY_NAME_MAX_CHARS` characters for a system variable,
/// `DISPLAY_NAME_MAX_CHARS` for others, cut from the start.
pub fn display_name(name: &str, is_system_variable: bool) -> (r: String)
    ensures
        r@ == truncated_from_start(name@,
            if is_system_variable { SYSTEM_DISPLAY_NAME_MAX_CHARS as nat } else { DISPLAY_NAME_MAX_CHARS as nat }),
{
    let max_chars = if is_system_variable { SYSTEM_DISPLAY_NAME_MAX_CHARS } else { DISPLAY_NAME_MAX_CHARS };
    truncate_from_start(name, max_chars)
}

/// `t` without its trailing zeros.
pub open spec fn without_trailing_zeros(t: Seq<char>) -> Seq<char>
    decreases t.len(),
{
    if t.len() > 0 && t.last() == '0' {
        without_trailing_zeros(t.drop_last())
    } else {
        t
    }
}

/// A decimal number's text without trailing fractional zeros (and without
/// a bare trailing point); "-0" becomes "0".
pub open spec fn decimal_trimmed(t: Seq<char>) -> Seq<char> {
    let u = if t.contains('.') {
        let z = without_trailing_zeros(t);
        if z.len() > 0 && z.last() == '.' { z.drop_last() } else { z }
    } else {
        t
    };
    if u == seq!['-', '0'] { seq!['0'] } else { u }
}

/// Trims the fractional zeros of a decimal number's text.
pub fn trim_decimal_zeros(text: String) -> (r: String)
    ensures
        r@ == decimal_trimmed(text@),
{
    let mut chars = chars_of(text.as_str());
    let ghost t = chars@;
    let mut has_point = false;
    let mut k: usize = 0;
    while k < chars.len()
        invariant
            chars@ == t,
            k <= t.len(),
            has_point == (exists|j: int| 0 <= j < k && t[j] == '.'),
        decreases chars.len() - k,
    {
        if chars[k] == '.' {
            has_point = true;
        }
        k = k + 1;
    }
    assert(has_point == t.contains('.'));
    if has_point {
        while chars.len() > 0 && chars[chars.len() - 1] == '0'
            invariant
                without_trailing_zeros(chars@) == without_trailing_zeros(t),
            decreases chars.len(),
        {
            chars.pop();
        }
        if chars.len() > 0 && chars[chars.len() - 1] == '.' {
            chars.pop();
        }
    }
    if chars.len() == 2 && chars[0] == '-' && chars[1] == '0' {
        assert(chars@ =~= seq!['-', '0']);
        let mut zero = String::new();
        push_char(&mut zero, '0');
        assert(zero@ =~= seq!['0']);
        return zero;
    }
    assert(chars@ != seq!['-', '0']) by {
        if chars@ == seq!['-', '0'] {
            assert(chars@.len() == 2 && chars@[0] == '-' && chars@[1] == '0');
        }
    }
    string_from_chars(chars.as_slice())
}

/// The index of the first `c` in `t`.
pub open spec fn first_index_of(t: Seq<char>, c: char) -> Option<int>
    decreases t.len(),
{
    if t.len() == 0 {
        None
    } else if t[0] == c {
        Some(0)
    } else {
        match first_index_of(t.drop_first(), c) {
            Some(i) => Some(i + 1),
            None => None,
        }
    }
}

proof fn lemma_first_index_of(t: Seq<char>, c: char, i: int)
    requires
        0 <= i <= t.len(),
        forall|j: int| 0 <= j < i ==> t[j] != c,
    ensures
        first_index_of(t, c) == match first_index_of(t.skip(i), c) {
            Some(k) => Some(k + i),
            None => None::<int>,
        },
    decreases i,
{
    if i > 0 {
        assert forall|j: int| 0 <= j < i - 1 implies t.drop_first()[j] != c by {
            assert(t.drop_first()[j] == t[j + 1]);
        }
        lemma_first_index_of(t.drop_first(), c, i - 1);
        assert(t.drop_first().skip(i - 1) =~= t.skip(i));
    } else {
        assert(t.skip(0) =~= t);
    }
}

/// The first index of `c` in `chars`.
fn find_char(chars: &[char], c: char) -> (r: Option<usize>)
    ensures
        match first_index_of(chars@, c) {
            Some(i) => r == Some(i as usize),
            None => r is None,
        },
{
    let mut i: usize = 0;
    while i < chars.len()
        invariant
            i <= chars@.len(),
            forall|j: int| 0 <= j < i ==> chars@[j] != c,
        decreases chars.len() - i,
    {
        if chars[i] == c {
            proof {
                lemma_first_index_of(chars@, c, i as int);
            }
            return Some(i);
        }
        i = i + 1;
    }
    proof {
        lemma_first_index_of(chars@, c, i as int);
        assert(chars@.skip(i as int).len() == 0);
    }
    None
}

/// `t` without its leading `e` characters.
pub open spec fn without_leading_es(t: Seq<char>) -> Seq<char>
    decreases t.len(),
{
    if t.len() > 0 && t[0] == 'e' {
        without_leading_es(t.drop_first())
    } else {
        t
    }
}

/// A number's text with the fractional zeros of its mantissa trimmed; an
/// exponent (at the first `e`, else the first `E`) is kept behind a
/// lowercase `e`.
pub open spec fn float_text_trimmed(t: Seq<char>) -> Seq<char> {
    let pos = match first_index_of(t, 'e') {
        Some(p) => Some(p),
        None => first_index_of(t, 'E'),
    };
    match pos {
        None => decimal_trimmed(t),
        Some(p) => decimal_trimmed(t.take(p)) + seq!['e'] + without_leading_es(t.skip(p)),
    }
}

/// Trims the fractional zeros of a number's text, in plain or exponent form.
pub fn trim_float_text(text: String) -> (r: String)
    ensures
        r@ == float_text_trimmed(text@),
{
    let chars = chars_of(text.as_str());
    let pos = match find_char(chars.as_slice(), 'e') {
        Some(p) => Some(p),
        None => find_char(chars.as_slice(), 'E'),
    };
    let p = match pos {
        None => return trim_decimal_zeros(text),
        Some(p) => p,
    };
    proof {
        match first_index_of(chars@, 'e') {
            Some(i) => lemma_first_index_bounds(chars@, 'e'),
            None => lemma_first_index_bounds(chars@, 'E'),
        }
    }
    let mantissa_chars = vstd::slice::slice_subrange(chars.as_slice(), 0, p);
    let mantissa = trim_decimal_zeros(string_from_chars(mantissa_chars));
    let mut k: usize = p;
    assert(chars@.skip(p as int) =~= chars@.subrange(p as int, chars@.len() as int));
    while k < chars.len() && chars[k] == 'e'
        invariant
            p <= k <= chars@.len(),
            without_leading_es(chars@.skip(p as int)) == without_leading_es(chars@.skip(k as int)),
        decreases chars.len() - k,
    {
        assert(chars@.skip(k as int).drop_first() =~= chars@.skip(k as int + 1));
        k = k + 1;
    }
    let mut out = mantissa;
    push_char(&mut out, 'e');
    let ghost head = out@;
    let mut i: usize = k;
    while i < chars.len()
        invariant
            k <= i <= chars@.len(),
            out@ == head + chars@.subrange(k as int, i as int),
        decreases chars.len() - i,
    {
        push_char(&mut out, chars[i]);
        assert(chars@.subrange(k as int, i as int + 1) =~= chars@.subrange(k as int, i as int).push(chars@[i as int]));
        i = i + 1;
    }
    assert(chars@.subrange(k as int, chars@.len() as int) =~= chars@.skip(k as int));
    if k < chars.len() {
        assert(chars@.skip(k as int)[0] != 'e');
    } else {
        assert(chars@.skip(k as int).len() == 0);
    }
    assert(mantissa_chars@ =~= chars@.take(p as int));
    out
}

proof fn lemma_first_index_bounds(t: Seq<char>, c: char)
    ensures
        first_index_of(t, c) matches Some(i) ==> 0 <= i < t.len() && t[i] == c,
    decreases t.len(),
{
    if t.len() > 0 && t[0] != c {
        lemma_first_index_bounds(t.drop_first(), c);
    }
}

} // verus!
