//! Projects: the name rules a CCS project must follow, where a project's
//! workspace is kept, and how the local project and the connected
//! firmware's project decide what the user may change.

use vstd::prelude::*;
use vstd::string::*;
use crate::clock::local_minute_text;
use crate::session::{is_whitespace, unicode_whitespace};
use crate::source::DeviceInfo;
use crate::text::{chars_of, hex_fixed, push_hex, push_str, str_eq, string_from_chars};

verus! {

#[verifier::external_type_specification]
#[verifier::external_body]
pub struct ExPathBuf(std::path::PathBuf);

/// `Clone` for `PathBuf` copies the path: the clone equals the original.
pub assume_specification [<std::path::PathBuf as Clone>::clone](p: &std::path::PathBuf) -> (r: std::path::PathBuf)
    ensures
        r == *p,
;

/// The name of the project that is not persisted.
pub const UNTITLED_PROJECT: &'static str = "untitled";

/// The longest project name the firmware baker accepts.
pub const MAX_PROJECT_NAME_CHARS: usize = 32;

/// A CCS project found on disk, with the build identity of its newest
/// matching baker report when one was found.
#[derive(Debug, Clone)]
pub struct LocalProject {
    pub name: String,
    pub project_file: std::path::PathBuf,
    pub build_time_utc: Option<u32>,
    pub build_hash: Option<u32>,
}

/// Renders a build time in local time, or "Not available" for none or zero.
pub fn display_build_time(build_time_utc: Option<u32>) -> (r: String)
    ensures
        (build_time_utc is None || build_time_utc == Some(0u32)) ==> r@ == "Not available"@,
        (build_time_utc matches Some(t) && t != 0) ==> crate::clock::minute_shaped(r@),
{
    match build_time_utc {
        Some(t) if t != 0 => match local_minute_text(t, crate::clock::BUILD_TIME_PATTERN) {
            Some(text) => text,
            None => "Not available".to_owned(),
        },
        _ => "Not available".to_owned(),
    }
}

impl LocalProject {
    /// The build time of the local build, in local time, or "Not available".
    pub fn build_time_display_text(&self) -> (r: String)
        ensures
            (self.build_time_utc is None || self.build_time_utc == Some(0u32)) ==> r@ == "Not available"@,
            (self.build_time_utc matches Some(t) && t != 0) ==> crate::clock::minute_shaped(r@),
    {
        display_build_time(self.build_time_utc)
    }
}

/// The number of leading whitespace characters.
pub open spec fn lead_ws(s: Seq<char>) -> nat
    decreases s.len(),
{
    if s.len() > 0 && unicode_whitespace(s[0]) { 1 + lead_ws(s.drop_first()) } else { 0 }
}

/// The number of trailing whitespace characters.
pub open spec fn trail_ws(s: Seq<char>) -> nat
    decreases s.len(),
{
    if s.len() > 0 && unicode_whitespace(s.last()) { 1 + trail_ws(s.drop_last()) } else { 0 }
}

/// The text without leading and trailing whitespace.
pub open spec fn trimmed(s: Seq<char>) -> Seq<char> {
    if lead_ws(s) >= s.len() {
        Seq::empty()
    } else {
        s.subrange(lead_ws(s) as int, s.len() - trail_ws(s))
    }
}

proof fn lemma_lead_ws(s: Seq<char>, i: int)
    requires
        0 <= i <= s.len(),
        forall|k: int| 0 <= k < i ==> unicode_whitespace(#[trigger] s[k]),
        i == s.len() || !unicode_whitespace(s[i]),
    ensures
        lead_ws(s) == i,
    decreases i,
{
    if i > 0 {
        assert forall|k: int| 0 <= k < i - 1 implies unicode_whitespace(#[trigger] s.drop_first()[k]) by {
            assert(s.drop_first()[k] == s[k + 1]);
        }
        if i - 1 < s.drop_first().len() {
            assert(s.drop_first()[i - 1] == s[i]);
        }
        lemma_lead_ws(s.drop_first(), i - 1);
    }
}

proof fn lemma_trail_ws(s: Seq<char>, j: int)
    requires
        0 <= j <= s.len(),
        forall|k: int| j <= k < s.len() ==> unicode_whitespace(#[trigger] s[k]),
        j == 0 || !unicode_whitespace(s[j - 1]),
    ensures
        trail_ws(s) == s.len() - j,
    decreases s.len() - j,
{
    if j < s.len() {
        assert forall|k: int| j <= k < s.len() - 1 implies unicode_whitespace(#[trigger] s.drop_last()[k]) by {
            assert(s.drop_last()[k] == s[k]);
        }
        if j > 0 {
            assert(s.drop_last()[j - 1] == s[j - 1]);
        }
        lemma_trail_ws(s.drop_last(), j);
    }
}

/// Removes leading and trailing whitespace (as `str::trim` does).
pub fn trim_text(s: &str) -> (r: String)
    ensures
        r@ == trimmed(s@),
{
    let chars = chars_of(s);
    let n = chars.len();
    let mut i: usize = 0;
    while i < n && is_whitespace(chars[i])
        invariant
            n == chars@.len(),
            chars@ == s@,
            i <= n,
            forall|k: int| 0 <= k < i ==> unicode_whitespace(#[trigger] chars@[k]),
        decreases n - i,
    {
        i = i + 1;
    }
    proof { lemma_lead_ws(s@, i as int); }
    if i == n {
        return String::new();
    }
    let mut j: usize = n;
    while j > i && is_whitespace(chars[j - 1])
        invariant
            n == chars@.len(),
            chars@ == s@,
            i < j <= n,
            !unicode_whitespace(chars@[i as int]),
            forall|k: int| j <= k < n ==> unicode_whitespace(#[trigger] chars@[k]),
        decreases j,
    {
        j = j - 1;
    }
    proof { lemma_trail_ws(s@, j as int); }
    let part = vstd::slice::slice_subrange(chars.as_slice(), i, j);
    string_from_chars(part)
}

/// Printable ASCII: space through tilde.
pub open spec fn printable_char(c: char) -> bool {
    0x20 <= (c as u32) <= 0x7e
}

/// Why a project name is refused.
#[derive(Debug, Clone, Copy, PartialEq, Eq, Structural)]
pub enum ProjectNameError {
    /// Longer than 32 characters or not printable ASCII.
    Invalid,
}

impl ProjectNameError {
    /// The text shown for the error.
    pub fn message(&self) -> (r: String)
        ensures
            r@ == "CCS project name must be 1-32 printable ASCII characters"@,
    {
        "CCS project name must be 1-32 printable ASCII characters".to_owned()
    }
}

/// The baker's rule for a project name, after trimming: empty means the
/// untitled project; otherwise 1 to 32 printable ASCII characters.
pub open spec fn spec_normalize_project_name(name: Seq<char>) -> Result<Seq<char>, ProjectNameError> {
    let t = trimmed(name);
    if t.len() == 0 {
        Ok("untitled"@)
    } else if t.len() > MAX_PROJECT_NAME_CHARS || !(forall|k: int| 0 <= k < t.len() ==> printable_char(#[trigger] t[k])) {
        Err(ProjectNameError::Invalid)
    } else {
        Ok(t)
    }
}

/// Trims a project name and checks it against the baker's rule.
pub fn normalize_project_name(name: &str) -> (r: Result<String, ProjectNameError>)
    ensures
        match spec_normalize_project_name(name@) {
            Ok(t) => r matches Ok(s) && s@ == t,
            Err(e) => r == Err::<String, ProjectNameError>(e),
        },
{
    let t = trim_text(name);
    let chars = chars_of(t.as_str());
    if chars.len() == 0 {
        assert(trimmed(name@).len() == 0);
        return Ok("untitled".to_owned());
    }
    if chars.len() > MAX_PROJECT_NAME_CHARS {
        assert(trimmed(name@).len() > MAX_PROJECT_NAME_CHARS);
        return Err(ProjectNameError::Invalid);
    }
    let mut k: usize = 0;
    while k < chars.len()
        invariant
            chars@ == t@,
            t@ == trimmed(name@),
            k <= chars@.len(),
            forall|m: int| 0 <= m < k ==> printable_char(#[trigger] chars@[m]),
        decreases chars.len() - k,
    {
        let c = chars[k] as u32;
        if c < 0x20 || c > 0x7e {
            assert(!printable_char(trimmed(name@)[k as int]));
            return Err(ProjectNameError::Invalid);
        }
        k = k + 1;
    }
    Ok(t)
}

/// Two lower-case hexadecimal digits per octet.
pub open spec fn hex_key(bytes: Seq<u8>) -> Seq<char>
    decreases bytes.len(),
{
    if bytes.len() == 0 {
        Seq::empty()
    } else {
        hex_key(bytes.drop_last()) + hex_fixed(bytes.last() as nat, 2, false)
    }
}

/// The directory key of a project: its name's UTF-8 octets in hexadecimal.
pub fn project_key(name: &str) -> (r: String)
    ensures
        r@ == hex_key(name.spec_bytes()),
{
    let bytes = name.as_bytes();
    let mut key = String::new();
    let mut i: usize = 0;
    while i < bytes.len()
        invariant
            i <= bytes@.len(),
            bytes@ == name.spec_bytes(),
            key@ == hex_key(bytes@.take(i as int)),
        decreases bytes.len() - i,
    {
        push_hex(&mut key, bytes[i] as u64, 2, false);
        assert(bytes@.take(i as int + 1).drop_last() == bytes@.take(i as int));
        i = i + 1;
    }
    assert(bytes@.take(i as int) == bytes@);
    key
}

/// Calls `dirs::config_dir`, the platform's per-user configuration
/// directory. It depends on the environment; nothing is claimed of it.
#[verifier::external_body]
fn user_config_dir() -> Option<std::path::PathBuf> {
    dirs::config_dir()
}

/// Name for what `Path::join` gives for a base path and a part; it depends
/// on the two alone.
pub uninterp spec fn joined(base: std::path::PathBuf, part: Seq<char>) -> std::path::PathBuf;

/// Calls `std::path::Path::join`. The contract names the result.
#[verifier::external_body]
fn path_join(base: &std::path::PathBuf, part: &str) -> (r: std::path::PathBuf)
    ensures
        r == joined(*base, part@),
{
    base.join(part)
}

/// The application's configuration directory below the user's
/// configuration directory `user_dir`: `user_dir/scope2000`.
pub fn config_dir_in(user_dir: &std::path::PathBuf) -> (r: std::path::PathBuf)
    ensures
        r == joined(*user_dir, "scope2000"@),
{
    path_join(user_dir, "scope2000")
}

/// The application's configuration directory: `scope2000` under the
/// user's configuration directory, when the platform has one (which rests
/// on the environment).
pub fn config_dir() -> (r: Option<std::path::PathBuf>)
    ensures
        r matches Some(p) ==> exists|d: std::path::PathBuf| p == #[trigger] joined(d, "scope2000"@),
{
    match user_config_dir() {
        Some(dir) => Some(config_dir_in(&dir)),
        None => None,
    }
}

/// The directory of a project's files below the configuration directory
/// `config`: `config/projects/<key>`, the key being two lowercase hex digits
/// per byte of the name (not the firmware's build hash).
pub open spec fn spec_project_dir_in(config: std::path::PathBuf, name: Seq<u8>) -> std::path::PathBuf {
    joined(joined(config, "projects"@), hex_key(name))
}

/// The workspace file of a project below the configuration directory:
/// `workspace.toml` in the project's directory.
pub open spec fn spec_workspace_path_in(config: std::path::PathBuf, name: Seq<u8>) -> std::path::PathBuf {
    joined(spec_project_dir_in(config, name), "workspace.toml"@)
}

/// Where project workspaces are stored.
pub struct WorkspaceStore;

/// The workspace file format written by this version.
pub const WORKSPACE_FORMAT_VERSION: u32 = 1;

impl WorkspaceStore {
    /// Whether a workspace file read for the project `name`, of format
    /// `format_version` and naming the project `file_project_name`, is
    /// used: it must be of the current format and name that same project;
    /// otherwise the default workspace is used.
    pub fn accepts_file(format_version: u32, file_project_name: &str, name: &str) -> (r: bool)
        ensures
            r == (format_version == WORKSPACE_FORMAT_VERSION && file_project_name@ == name@),
    {
        format_version == WORKSPACE_FORMAT_VERSION && str_eq(file_project_name, name)
    }

    /// The directory of a project's files below the configuration directory
    /// `config`.
    pub fn project_dir_in(config: &std::path::PathBuf, name: &str) -> (r: std::path::PathBuf)
        ensures
            r == spec_project_dir_in(*config, name.spec_bytes()),
    {
        let key = project_key(name);
        let projects = path_join(config, "projects");
        path_join(&projects, key.as_str())
    }

    /// The workspace file of a project below the configuration directory
    /// `config`.
    pub fn workspace_path_in(config: &std::path::PathBuf, name: &str) -> (r: std::path::PathBuf)
        ensures
            r == spec_workspace_path_in(*config, name.spec_bytes()),
    {
        let dir = Self::project_dir_in(config, name);
        path_join(&dir, "workspace.toml")
    }

    /// The directory of a project's files under the configuration directory,
    /// when the platform has one.
    pub fn project_dir(name: &str) -> (r: Option<std::path::PathBuf>)
        ensures
            r matches Some(p) ==> exists|d: std::path::PathBuf|
                p == spec_project_dir_in(#[trigger] joined(d, "scope2000"@), name.spec_bytes()),
    {
        match config_dir() {
            Some(dir) => Some(Self::project_dir_in(&dir, name)),
            None => None,
        }
    }

    /// The workspace file of a project under the configuration directory,
    /// when the platform has one.
    pub fn workspace_path(name: &str) -> (r: Option<std::path::PathBuf>)
        ensures
            r matches Some(p) ==> exists|d: std::path::PathBuf|
                p == spec_workspace_path_in(#[trigger] joined(d, "scope2000"@), name.spec_bytes()),
    {
        match config_dir() {
            Some(dir) => Some(Self::workspace_path_in(&dir, name)),
            None => None,
        }
    }
}


/// How the local project and the connected firmware relate.
#[derive(Debug, Clone, Copy, PartialEq, Eq, Structural)]
pub enum ProjectStatus {
    NoProject,
    LocalUnverified,
    CachedDisconnected,
    FirmwareOnly,
    Matched,
    Conflict,
    UntitledDemo,
}

/// What the user may change in a project status.
#[derive(Debug, Clone, Copy, PartialEq, Eq, Structural)]
pub struct MutationPolicy {
    pub system_start: bool,
    pub wave_start: bool,
    pub calibration_write: bool,
    pub edit_variable_refs: bool,
}

/// The policy table: a matched or firmware-only project may do everything;
/// the untitled demo everything but calibration writes; a conflict nothing;
/// without firmware only the variable references may be edited.
pub open spec fn spec_policy(status: ProjectStatus) -> MutationPolicy {
    match status {
        ProjectStatus::Matched | ProjectStatus::FirmwareOnly =>
            MutationPolicy { system_start: true, wave_start: true, calibration_write: true, edit_variable_refs: true },
        ProjectStatus::UntitledDemo =>
            MutationPolicy { system_start: true, wave_start: true, calibration_write: false, edit_variable_refs: true },
        ProjectStatus::Conflict =>
            MutationPolicy { system_start: false, wave_start: false, calibration_write: false, edit_variable_refs: false },
        _ =>
            MutationPolicy { system_start: false, wave_start: false, calibration_write: false, edit_variable_refs: true },
    }
}

impl MutationPolicy {
    /// The policy of a project status.
    pub fn for_status(status: ProjectStatus) -> (r: Self)
        ensures
            r == spec_policy(status),
    {
        match status {
            ProjectStatus::Matched | ProjectStatus::FirmwareOnly =>
                MutationPolicy { system_start: true, wave_start: true, calibration_write: true, edit_variable_refs: true },
            ProjectStatus::UntitledDemo =>
                MutationPolicy { system_start: true, wave_start: true, calibration_write: false, edit_variable_refs: true },
            ProjectStatus::Conflict =>
                MutationPolicy { system_start: false, wave_start: false, calibration_write: false, edit_variable_refs: false },
            ProjectStatus::NoProject | ProjectStatus::LocalUnverified | ProjectStatus::CachedDisconnected =>
                MutationPolicy { system_start: false, wave_start: false, calibration_write: false, edit_variable_refs: true },
        }
    }
}

/// Nothing may start the system, start a capture or write calibration
/// unless the firmware is connected and does not conflict with the local
/// project; calibration writes further need a named project. Where the
/// firmware is connected without conflict (matched, firmware only, the
/// untitled demo), the system and a capture may each be started.
pub proof fn law_policy_needs_firmware(status: ProjectStatus)
    ensures
        (spec_policy(status).system_start || spec_policy(status).wave_start)
            <==> (status == ProjectStatus::Matched || status == ProjectStatus::FirmwareOnly
                || status == ProjectStatus::UntitledDemo),
        spec_policy(status).wave_start
            <==> (status == ProjectStatus::Matched || status == ProjectStatus::FirmwareOnly
                || status == ProjectStatus::UntitledDemo),
        spec_policy(status).system_start
            <==> (status == ProjectStatus::Matched || status == ProjectStatus::FirmwareOnly
                || status == ProjectStatus::UntitledDemo),
        spec_policy(status).calibration_write
            <==> (status == ProjectStatus::Matched || status == ProjectStatus::FirmwareOnly),
        !spec_policy(status).edit_variable_refs <==> status == ProjectStatus::Conflict,
{
}

/// Workspace variable references that the device's catalog does not have.
#[derive(Debug, Clone, Default)]
pub struct UnresolvedRefs {
    pub pinned: Vec<String>,
    pub watch: Vec<String>,
    pub wave: Vec<String>,
    pub trigger: Vec<String>,
}

/// The kinds of workspace references.
#[derive(Debug, Clone, Copy, PartialEq, Eq, Structural)]
pub enum RefKind {
    Pinned,
    Watch,
    Wave,
    Trigger,
}

/// The names of a list other than `name`, in order.
pub open spec fn without_text(s: Seq<String>, name: Seq<char>) -> Seq<Seq<char>> {
    name_views(s).filter(other_name(name))
}

impl UnresolvedRefs {
    /// Forgets the unresolved reference `name` of `kind`; the other kinds
    /// stay.
    pub fn remove(&mut self, kind: RefKind, name: &str)
        ensures
            name_views(final(self).pinned@) == if kind == RefKind::Pinned { without_text(old(self).pinned@, name@) }
                else { name_views(old(self).pinned@) },
            name_views(final(self).watch@) == if kind == RefKind::Watch { without_text(old(self).watch@, name@) }
                else { name_views(old(self).watch@) },
            name_views(final(self).wave@) == if kind == RefKind::Wave { without_text(old(self).wave@, name@) }
                else { name_views(old(self).wave@) },
            name_views(final(self).trigger@) == if kind == RefKind::Trigger { without_text(old(self).trigger@, name@) }
                else { name_views(old(self).trigger@) },
    {
        let mut list: Vec<String> = Vec::new();
        match kind {
            RefKind::Pinned => {
                std::mem::swap(&mut list, &mut self.pinned);
                self.pinned = without_name(list, name);
            },
            RefKind::Watch => {
                std::mem::swap(&mut list, &mut self.watch);
                self.watch = without_name(list, name);
            },
            RefKind::Wave => {
                std::mem::swap(&mut list, &mut self.wave);
                self.wave = without_name(list, name);
            },
            RefKind::Trigger => {
                std::mem::swap(&mut list, &mut self.trigger);
                self.trigger = without_name(list, name);
            },
        }
    }

    /// The number of unresolved references of all kinds.
    pub fn count(&self) -> (r: usize)
        requires
            self.pinned@.len() + self.watch@.len() + self.wave@.len() + self.trigger@.len() <= usize::MAX,
        ensures
            r == self.pinned@.len() + self.watch@.len() + self.wave@.len() + self.trigger@.len(),
    {
        self.pinned.len() + self.watch.len() + self.wave.len() + self.trigger.len()
    }
}

/// Where a project's firmware binding points and what build it saw.
#[derive(Debug)]
pub struct ProjectBinding {
    pub project_file: Option<std::path::PathBuf>,
    pub verified: bool,
    pub build_time_utc: Option<u32>,
    pub build_hash: Option<u32>,
}

impl Clone for ProjectBinding {
    fn clone(&self) -> (r: Self)
        ensures
            r == *self,
    {
        let project_file = match &self.project_file {
            Some(p) => Some(p.clone()),
            None => None,
        };
        ProjectBinding { project_file, verified: self.verified, build_time_utc: self.build_time_utc, build_hash: self.build_hash }
    }
}

impl Default for ProjectBinding {
    /// Unbound and unverified.
    fn default() -> (r: Self)
        ensures
            r.project_file is None,
            !r.verified,
            r.build_time_utc is None,
            r.build_hash is None,
    {
        ProjectBinding { project_file: None, verified: false, build_time_utc: None, build_hash: None }
    }
}

/// The projects the user has opened, most recent first. Each name is
/// bound at most once (`wf`): the constructors establish it and every
/// change keeps it.
pub struct ProjectRegistry {
    pub format_version: u32,
    /// Bindings by project name.
    pub projects: Vec<(String, ProjectBinding)>,
    /// Project names, most recently used first.
    pub recent_projects: Vec<String>,
}

/// The registry file format written by this version.
pub const REGISTRY_FORMAT_VERSION: u32 = 1;

/// The bindings of a map built by entering `entries` in order: a name
/// already bound gets the new binding in its place, a new name goes last.
pub open spec fn inserted_entries(entries: Seq<(Seq<char>, ProjectBinding)>) -> Seq<(Seq<char>, ProjectBinding)>
    decreases entries.len(),
{
    if entries.len() == 0 {
        Seq::empty()
    } else {
        let before = inserted_entries(entries.drop_last());
        let e = entries.last();
        if entry_names(before).contains(e.0) { before.map_values(bound_as(e.0, e.1)) } else { before.push(e) }
    }
}

impl ProjectRegistry {
    /// A registry binds each project name at most once, as a map by name.
    pub open spec fn wf(&self) -> bool {
        names_unique(entry_views(self.projects@))
    }

    /// An empty registry of the current format.
    pub fn default_with_version() -> (r: Self)
        ensures
            r.wf(),
            r.format_version == REGISTRY_FORMAT_VERSION,
            r.projects@.len() == 0,
            r.recent_projects@.len() == 0,
    {
        ProjectRegistry { format_version: REGISTRY_FORMAT_VERSION, projects: Vec::new(), recent_projects: Vec::new() }
    }
}

impl ProjectRegistry {
    /// Whether a registry file of format `format_version` is read: only the
    /// current format is; any other is ignored and an empty registry used.
    pub fn accepts_format(format_version: u32) -> (r: bool)
        ensures
            r == (format_version == REGISTRY_FORMAT_VERSION),
    {
        format_version == REGISTRY_FORMAT_VERSION
    }
}

impl Default for ProjectRegistry {
    fn default() -> (r: Self)
        ensures
            r.wf(),
            r.format_version == REGISTRY_FORMAT_VERSION,
            r.projects@.len() == 0,
            r.recent_projects@.len() == 0,
    {
        ProjectRegistry::default_with_version()
    }
}

/// The project session: registry, the active and local project and the
/// state of the project dialogs.
pub struct ProjectContext {
    pub registry: ProjectRegistry,
    pub active_name: Option<String>,
    pub local: Option<LocalProject>,
    pub unresolved: UnresolvedRefs,
    pub show_missing: bool,
    pub show_migration: bool,
    pub show_project_manager: bool,
    pub project_search: String,
}

/// The status table over the device's project name, the local project's
/// name and whether a project is active.
pub open spec fn spec_status(device: Option<Seq<char>>, local: Option<Seq<char>>, active: bool) -> ProjectStatus {
    match (device, local) {
        (Some(d), None) => if d == "untitled"@ { ProjectStatus::UntitledDemo } else { ProjectStatus::FirmwareOnly },
        (Some(d), Some(l)) => if d == l {
            if d == "untitled"@ { ProjectStatus::UntitledDemo } else { ProjectStatus::Matched }
        } else {
            ProjectStatus::Conflict
        },
        (None, Some(_)) => ProjectStatus::LocalUnverified,
        (None, None) => if active { ProjectStatus::CachedDisconnected } else { ProjectStatus::NoProject },
    }
}

/// The device's project name, if a device is connected.
pub open spec fn device_project(info: Option<&DeviceInfo>) -> Option<Seq<char>> {
    match info {
        Some(i) => Some(i.project_name@),
        None => None,
    }
}

impl ProjectContext {
    /// The local project's name, if one is open.
    pub open spec fn local_name(&self) -> Option<Seq<char>> {
        match self.local {
            Some(l) => Some(l.name@),
            None => None,
        }
    }

    /// The status of this context against the connected device.
    pub open spec fn spec_status_with(&self, info: Option<&DeviceInfo>) -> ProjectStatus {
        spec_status(device_project(info), self.local_name(), self.active_name is Some)
    }

    /// The project name the connected firmware reports.
    pub fn device_name<'a>(&self, info: Option<&'a DeviceInfo>) -> (r: Option<&'a str>)
        ensures
            match info {
                Some(i) => r matches Some(n) && n@ == i.project_name@,
                None => r is None,
            },
    {
        match info {
            Some(i) => Some(i.project_name.as_str()),
            None => None,
        }
    }

    /// How the local project and the device's project relate.
    pub fn status(&self, info: Option<&DeviceInfo>) -> (r: ProjectStatus)
        ensures
            r == self.spec_status_with(info),
    {
        proof { reveal_strlit("untitled"); }
        match (self.device_name(info), &self.local) {
            (Some(device), None) => if str_eq(device, UNTITLED_PROJECT) {
                ProjectStatus::UntitledDemo
            } else {
                ProjectStatus::FirmwareOnly
            },
            (Some(device), Some(local)) => if str_eq(device, local.name.as_str()) {
                if str_eq(device, UNTITLED_PROJECT) { ProjectStatus::UntitledDemo } else { ProjectStatus::Matched }
            } else {
                ProjectStatus::Conflict
            },
            (None, Some(_)) => ProjectStatus::LocalUnverified,
            (None, None) => if self.active_name.is_some() {
                ProjectStatus::CachedDisconnected
            } else {
                ProjectStatus::NoProject
            },
        }
    }

    /// What the user may change against the connected device.
    pub fn policy(&self, info: Option<&DeviceInfo>) -> (r: MutationPolicy)
        ensures
            r == spec_policy(self.spec_status_with(info)),
    {
        MutationPolicy::for_status(self.status(info))
    }

    /// Whether the workspace may be reconciled with the device's catalog.
    pub fn can_reconcile(&self, info: Option<&DeviceInfo>) -> (r: bool)
        ensures
            r == (self.spec_status_with(info) == ProjectStatus::Matched
                || self.spec_status_with(info) == ProjectStatus::FirmwareOnly
                || self.spec_status_with(info) == ProjectStatus::UntitledDemo),
    {
        let status = self.status(info);
        status == ProjectStatus::Matched || status == ProjectStatus::FirmwareOnly || status == ProjectStatus::UntitledDemo
    }

    /// A matched project whose local build differs from the firmware's:
    /// a different nonzero contract hash, or a different build time where
    /// both are known and nonzero.
    pub open spec fn spec_build_mismatch(&self, info: Option<&DeviceInfo>) -> bool {
        &&& self.spec_status_with(info) == ProjectStatus::Matched
        &&& self.local matches Some(local)
        &&& info matches Some(device)
        &&& {
            ||| (local.build_hash matches Some(h) && device.build_hash != 0 && device.build_hash != h)
            ||| (local.build_time_utc matches Some(t) && t != 0 && device.build_time_utc != 0
                && t != device.build_time_utc)
        }
    }

    /// Whether the matched firmware was built from another build of the project.
    pub fn build_mismatch(&self, info: Option<&DeviceInfo>) -> (r: bool)
        ensures
            r == self.spec_build_mismatch(info),
    {
        if self.status(info) != ProjectStatus::Matched {
            return false;
        }
        let (local, device) = match (&self.local, info) {
            (Some(l), Some(d)) => (l, d),
            _ => return false,
        };
        let hash_differs = match local.build_hash {
            Some(h) => device.build_hash != 0 && device.build_hash != h,
            None => false,
        };
        let time_differs = match local.build_time_utc {
            Some(t) => t != 0 && device.build_time_utc != 0 && t != device.build_time_utc,
            None => false,
        };
        hash_differs || time_differs
    }

    /// The project title for the status: the name with its standing.
    pub open spec fn spec_title(&self, info: Option<&DeviceInfo>) -> Seq<char> {
        match self.spec_status_with(info) {
            ProjectStatus::NoProject => "No Project"@,
            ProjectStatus::LocalUnverified => match self.local {
                Some(l) => l.name@ + " · Unverified"@,
                None => "No Project · Unverified"@,
            },
            ProjectStatus::CachedDisconnected => match self.active_name {
                Some(a) => a@ + " · Disconnected"@,
                None => "No Project · Disconnected"@,
            },
            ProjectStatus::UntitledDemo => "untitled · Non-persistent Demo"@,
            ProjectStatus::Conflict | ProjectStatus::Matched => match self.local {
                Some(l) => l.name@,
                None => "No Project"@,
            },
            ProjectStatus::FirmwareOnly => match info {
                Some(i) => i.project_name@,
                None => "No Project"@,
            },
        }
    }

    /// The title shown for the project.
    pub fn title(&self, info: Option<&DeviceInfo>) -> (r: String)
        ensures
            r@ == self.spec_title(info),
    {
        match self.status(info) {
            ProjectStatus::NoProject => "No Project".to_owned(),
            ProjectStatus::LocalUnverified => {
                let mut s = String::new();
                match &self.local {
                    Some(l) => push_str(&mut s, l.name.as_str()),
                    None => push_str(&mut s, "No Project"),
                }
                push_str(&mut s, " · Unverified");
                s
            },
            ProjectStatus::CachedDisconnected => {
                let mut s = String::new();
                match &self.active_name {
                    Some(a) => push_str(&mut s, a.as_str()),
                    None => push_str(&mut s, "No Project"),
                }
                push_str(&mut s, " · Disconnected");
                s
            },
            ProjectStatus::UntitledDemo => "untitled · Non-persistent Demo".to_owned(),
            ProjectStatus::Conflict | ProjectStatus::Matched => match &self.local {
                Some(l) => l.name.clone(),
                None => "No Project".to_owned(),
            },
            ProjectStatus::FirmwareOnly => match self.device_name(info) {
                Some(n) => n.to_owned(),
                None => "No Project".to_owned(),
            },
        }
    }
}


/// A registry entry by its name's text.
pub open spec fn entry_views(s: Seq<(String, ProjectBinding)>) -> Seq<(Seq<char>, ProjectBinding)> {
    s.map_values(|p: (String, ProjectBinding)| (p.0@, p.1))
}

/// The names of the registered projects.
pub open spec fn project_names(s: Seq<(String, ProjectBinding)>) -> Set<Seq<char>> {
    s.map_values(|p: (String, ProjectBinding)| p.0@).to_set()
}

/// The texts of a list of names.
pub open spec fn name_views(s: Seq<String>) -> Seq<Seq<char>> {
    s.map_values(|x: String| x@)
}

pub open spec fn other_name(name: Seq<char>) -> spec_fn(Seq<char>) -> bool {
    |x: Seq<char>| x != name
}

pub open spec fn other_entry(name: Seq<char>) -> spec_fn((Seq<char>, ProjectBinding)) -> bool {
    |e: (Seq<char>, ProjectBinding)| e.0 != name
}

/// An unbound, unverified binding.
/// Clears the binding of the entry named `name`.
pub open spec fn unbound_as(name: Seq<char>) -> spec_fn((Seq<char>, ProjectBinding)) -> (Seq<char>, ProjectBinding) {
    |e: (Seq<char>, ProjectBinding)| if e.0 == name { (e.0, cleared_binding()) } else { e }
}

/// Replaces the binding of the entry named `name` with `binding`.
pub open spec fn bound_as(name: Seq<char>, binding: ProjectBinding) -> spec_fn((Seq<char>, ProjectBinding)) -> (Seq<char>, ProjectBinding) {
    |e: (Seq<char>, ProjectBinding)| if e.0 == name { (e.0, binding) } else { e }
}

/// Whether a name is registered.
pub open spec fn registered_in(projects: Seq<(String, ProjectBinding)>) -> spec_fn(Seq<char>) -> bool {
    |x: Seq<char>| project_names(projects).contains(x)
}

pub open spec fn cleared_binding() -> ProjectBinding {
    ProjectBinding { project_file: None, verified: false, build_time_utc: None, build_hash: None }
}

/// The registry entries other than `name`, in order.
fn without_entry(projects: Vec<(String, ProjectBinding)>, name: &str) -> (r: Vec<(String, ProjectBinding)>)
    ensures
        entry_views(r@) == entry_views(projects@).filter(other_entry(name@)),
        project_names(r@) == project_names(projects@).remove(name@),
{
    let ghost orig = projects@;
    let mut rest = projects;
    let mut kept: Vec<(String, ProjectBinding)> = Vec::new();
    let ghost mut k: int = 0;
    assert(orig.take(0) =~= Seq::<(String, ProjectBinding)>::empty());
    assert(entry_views(orig.take(0)).filter(other_entry(name@)) =~= Seq::empty()) by {
        reveal(Seq::filter);
    }
    assert(project_names(kept@) =~= project_names(orig.take(0)).remove(name@));
    while rest.len() > 0
        invariant
            0 <= k <= orig.len(),
            rest@ == orig.subrange(k, orig.len() as int),
            entry_views(kept@) == entry_views(orig.take(k)).filter(other_entry(name@)),
            project_names(kept@) == project_names(orig.take(k)).remove(name@),
        decreases rest.len(),
    {
        let entry = rest.remove(0);
        assert(entry == orig[k]);
        let ghost before = kept@;
        assert(orig.take(k + 1) =~= orig.take(k).push(orig[k]));
        assert(entry_views(orig.take(k + 1)) =~= entry_views(orig.take(k)).push((entry.0@, entry.1)));
        assert(orig.take(k + 1).map_values(|p: (String, ProjectBinding)| p.0@)
            =~= orig.take(k).map_values(|p: (String, ProjectBinding)| p.0@).push(entry.0@));
        proof {
            entry_views(orig.take(k)).lemma_filter_push((entry.0@, entry.1), other_entry(name@));
        }
        proof {
            orig.take(k).map_values(|p: (String, ProjectBinding)| p.0@).lemma_push_to_set_commute(entry.0@);
        }
        if !str_eq(entry.0.as_str(), name) {
            kept.push(entry);
            assert(entry_views(kept@) =~= entry_views(before).push((kept@.last().0@, kept@.last().1)));
            assert(kept@.map_values(|p: (String, ProjectBinding)| p.0@)
                =~= before.map_values(|p: (String, ProjectBinding)| p.0@).push(kept@.last().0@));
            proof {
                before.map_values(|p: (String, ProjectBinding)| p.0@).lemma_push_to_set_commute(kept@.last().0@);
            }
            assert(project_names(kept@) =~= project_names(orig.take(k + 1)).remove(name@));
        } else {
            assert(project_names(kept@) =~= project_names(orig.take(k + 1)).remove(name@));
        }
        proof { k = k + 1; }
    }
    assert(orig.take(k) =~= orig);
    kept
}

/// The names other than `name`, in order.
fn without_name(names: Vec<String>, name: &str) -> (r: Vec<String>)
    ensures
        name_views(r@) == name_views(names@).filter(other_name(name@)),
{
    let ghost orig = names@;
    let mut rest = names;
    let mut kept: Vec<String> = Vec::new();
    let ghost mut k: int = 0;
    assert(name_views(orig.take(0)).filter(other_name(name@)) =~= Seq::empty()) by {
        assert(name_views(orig.take(0)) =~= Seq::empty());
        reveal(Seq::filter);
    }
    while rest.len() > 0
        invariant
            0 <= k <= orig.len(),
            rest@ == orig.subrange(k, orig.len() as int),
            name_views(kept@) == name_views(orig.take(k)).filter(other_name(name@)),
        decreases rest.len(),
    {
        let n = rest.remove(0);
        assert(n == orig[k]);
        let ghost before = kept@;
        assert(orig.take(k + 1) =~= orig.take(k).push(orig[k]));
        assert(name_views(orig.take(k + 1)) =~= name_views(orig.take(k)).push(n@));
        proof {
            name_views(orig.take(k)).lemma_filter_push(n@, other_name(name@));
        }
        if !str_eq(n.as_str(), name) {
            kept.push(n);
            assert(name_views(kept@) =~= name_views(before).push(kept@.last()@));
        }
        proof { k = k + 1; }
    }
    assert(orig.take(k) =~= orig);
    kept
}

fn has_project(projects: &Vec<(String, ProjectBinding)>, name: &str) -> (r: bool)
    ensures
        r == project_names(projects@).contains(name@),
{
    let mut i: usize = 0;
    while i < projects.len()
        invariant
            i <= projects@.len(),
            forall|k: int| 0 <= k < i ==> (#[trigger] projects@[k]).0@ != name@,
        decreases projects.len() - i,
    {
        if str_eq(projects[i].0.as_str(), name) {
            assert(projects@.map_values(|p: (String, ProjectBinding)| p.0@)[i as int] == name@);
            return true;
        }
        i = i + 1;
    }
    assert(!projects@.map_values(|p: (String, ProjectBinding)| p.0@).contains(name@));
    false
}

/// The most-recently-used list after using `name`: it first, then the
/// earlier list without it.
pub open spec fn mru_order(recent: Seq<Seq<char>>, name: Seq<char>) -> Seq<Seq<char>> {
    seq![name] + recent.filter(other_name(name))
}

/// At most this many projects are remembered.
pub const MAX_RECENT_PROJECTS: usize = 100;

impl ProjectRegistry {
    /// Forgets a project: its binding and its place in the recent list.
    pub fn remove(&mut self, name: &str)
        requires
            old(self).wf(),
        ensures
            entry_views(final(self).projects@) == entry_views(old(self).projects@).filter(other_entry(name@)),
            name_views(final(self).recent_projects@) == name_views(old(self).recent_projects@).filter(other_name(name@)),
            final(self).format_version == old(self).format_version,
            final(self).wf(),
    {
        proof {
            lemma_unique_filter(entry_views(self.projects@), other_entry(name@));
        }
        let mut projects: Vec<(String, ProjectBinding)> = Vec::new();
        std::mem::swap(&mut projects, &mut self.projects);
        self.projects = without_entry(projects, name);
        let mut recent: Vec<String> = Vec::new();
        std::mem::swap(&mut recent, &mut self.recent_projects);
        self.recent_projects = without_name(recent, name);
    }

    /// Clears the binding of a project, keeping it registered.
    pub fn unbind(&mut self, name: &str)
        requires
            old(self).wf(),
        ensures
            entry_views(final(self).projects@) == entry_views(old(self).projects@).map_values(unbound_as(name@)),
            final(self).recent_projects@ == old(self).recent_projects@,
            final(self).format_version == old(self).format_version,
            final(self).wf(),
    {
        proof {
            lemma_unique_map_same_names(entry_views(self.projects@), unbound_as(name@));
        }
        let mut rest: Vec<(String, ProjectBinding)> = Vec::new();
        std::mem::swap(&mut rest, &mut self.projects);
        let ghost orig = rest@;
        let ghost f = unbound_as(name@);
        let mut out: Vec<(String, ProjectBinding)> = Vec::new();
        let ghost mut k: int = 0;
        while rest.len() > 0
            invariant
                0 <= k <= orig.len(),
                rest@ == orig.subrange(k, orig.len() as int),
                f == unbound_as(name@),
                entry_views(out@) == entry_views(orig.take(k)).map_values(f),
            decreases rest.len(),
        {
            let entry = rest.remove(0);
            assert(entry == orig[k]);
            let ghost before = out@;
            let (n, binding) = entry;
            if str_eq(n.as_str(), name) {
                out.push((n, ProjectBinding { project_file: None, verified: false, build_time_utc: None, build_hash: None }));
            } else {
                out.push((n, binding));
            }
            assert(orig.take(k + 1) =~= orig.take(k).push(orig[k]));
            assert(entry_views(orig.take(k + 1)) =~= entry_views(orig.take(k)).push((orig[k].0@, orig[k].1)));
            assert(entry_views(out@) =~= entry_views(before).push((out@.last().0@, out@.last().1)));
            assert(out@.last().0@ == orig[k].0@);
            assert(f((orig[k].0@, orig[k].1)) == (out@.last().0@, out@.last().1));
            assert(entry_views(out@) =~= entry_views(orig.take(k + 1)).map_values(f));
            proof { k = k + 1; }
        }
        assert(orig.take(k) =~= orig);
        self.projects = out;
    }

    /// A registry read from its stored form: the bindings are entered in
    /// order as into a map by name, a later binding of a name replacing an
    /// earlier one in its place, so that each name is bound once.
    pub fn from_entries(format_version: u32, entries: Vec<(String, ProjectBinding)>, recent_projects: Vec<String>)
        -> (r: Self)
        ensures
            r.wf(),
            r.format_version == format_version,
            r.recent_projects@ == recent_projects@,
            entry_views(r.projects@) == inserted_entries(entry_views(entries@)),
    {
        let mut r = ProjectRegistry::default_with_version();
        let ghost orig = entries@;
        let mut rest = entries;
        let ghost mut k: int = 0;
        assert(entry_views(orig.take(0)) =~= Seq::<(Seq<char>, ProjectBinding)>::empty());
        assert(entry_views(r.projects@) =~= Seq::<(Seq<char>, ProjectBinding)>::empty());
        while rest.len() > 0
            invariant
                0 <= k <= orig.len(),
                rest@ == orig.subrange(k, orig.len() as int),
                r.wf(),
                entry_views(r.projects@) == inserted_entries(entry_views(orig.take(k))),
            decreases rest.len(),
        {
            let entry = rest.remove(0);
            assert(entry == orig[k]);
            let ghost before = entry_views(r.projects@);
            let (name, binding) = entry;
            proof {
                assert(entry_names(before) =~= r.projects@.map_values(|p: (String, ProjectBinding)| p.0@));
                assert(entry_views(orig.take(k + 1)) =~= entry_views(orig.take(k)).push((orig[k].0@, orig[k].1)));
                assert(entry_views(orig.take(k + 1)).drop_last() =~= entry_views(orig.take(k)));
            }
            r.bind(name.as_str(), binding);
            proof { k = k + 1; }
        }
        assert(orig.take(k) =~= orig);
        r.format_version = format_version;
        r.recent_projects = recent_projects;
        r
    }

    /// Binds a project to `binding`: replaces the binding of a registered
    /// project, or registers the project at the end.
    pub fn bind(&mut self, name: &str, binding: ProjectBinding)
        requires
            old(self).wf(),
        ensures
            project_names(old(self).projects@).contains(name@) ==> entry_views(final(self).projects@)
                == entry_views(old(self).projects@).map_values(bound_as(name@, binding)),
            !project_names(old(self).projects@).contains(name@) ==> entry_views(final(self).projects@)
                == entry_views(old(self).projects@).push((name@, binding)),
            final(self).recent_projects@ == old(self).recent_projects@,
            final(self).format_version == old(self).format_version,
            final(self).wf(),
    {
        let registered = has_project(&self.projects, name);
        proof {
            let ev = entry_views(self.projects@);
            assert(entry_names(ev) =~= self.projects@.map_values(|p: (String, ProjectBinding)| p.0@));
            lemma_unique_map_same_names(ev, bound_as(name@, binding));
            if !registered && names_unique(ev) {
                lemma_unique_push(ev, (name@, binding));
            }
        }
        if !registered {
            let ghost before = self.projects@;
            self.projects.push((string_from_chars(chars_of(name).as_slice()), binding));
            assert(entry_views(self.projects@) =~= entry_views(before).push((name@, binding)));
            return;
        }
        let mut rest: Vec<(String, ProjectBinding)> = Vec::new();
        std::mem::swap(&mut rest, &mut self.projects);
        let ghost orig = rest@;
        let ghost f = bound_as(name@, binding);
        let mut out: Vec<(String, ProjectBinding)> = Vec::new();
        let ghost mut k: int = 0;
        while rest.len() > 0
            invariant
                0 <= k <= orig.len(),
                rest@ == orig.subrange(k, orig.len() as int),
                f == bound_as(name@, binding),
                entry_views(out@) == entry_views(orig.take(k)).map_values(f),
            decreases rest.len(),
        {
            let entry = rest.remove(0);
            assert(entry == orig[k]);
            let ghost before = out@;
            let (n, current) = entry;
            if str_eq(n.as_str(), name) {
                out.push((n, binding.clone()));
            } else {
                out.push((n, current));
            }
            assert(orig.take(k + 1) =~= orig.take(k).push(orig[k]));
            assert(entry_views(orig.take(k + 1)) =~= entry_views(orig.take(k)).push((orig[k].0@, orig[k].1)));
            assert(entry_views(out@) =~= entry_views(before).push((out@.last().0@, out@.last().1)));
            assert(out@.last().0@ == orig[k].0@);
            assert(f((orig[k].0@, orig[k].1)) == (out@.last().0@, out@.last().1));
            assert(entry_views(out@) =~= entry_views(orig.take(k + 1)).map_values(f));
            proof { k = k + 1; }
        }
        assert(orig.take(k) =~= orig);
        self.projects = out;
    }

    /// The recent project names that are still registered, most recent first.
    pub fn recent_names(&self) -> (r: Vec<String>)
        ensures
            name_views(r@) == name_views(self.recent_projects@).filter(registered_in(self.projects@)),
    {
        let ghost p = registered_in(self.projects@);
        let mut out: Vec<String> = Vec::new();
        let mut i: usize = 0;
        assert(name_views(self.recent_projects@.take(0)).filter(p) =~= Seq::empty()) by {
            assert(name_views(self.recent_projects@.take(0)) =~= Seq::empty());
            reveal(Seq::filter);
        }
        while i < self.recent_projects.len()
            invariant
                i <= self.recent_projects@.len(),
                p == registered_in(self.projects@),
                name_views(out@) == name_views(self.recent_projects@.take(i as int)).filter(p),
            decreases self.recent_projects.len() - i,
        {
            let n = &self.recent_projects[i];
            let ghost before = out@;
            assert(self.recent_projects@.take(i as int + 1) =~= self.recent_projects@.take(i as int).push(*n));
            assert(name_views(self.recent_projects@.take(i as int + 1)) =~= name_views(self.recent_projects@.take(i as int)).push(n@));
            proof {
                name_views(self.recent_projects@.take(i as int)).lemma_filter_push(n@, p);
            }
            if has_project(&self.projects, n.as_str()) {
                out.push(n.clone());
                assert(name_views(out@) =~= name_views(before).push(n@));
            }
            i = i + 1;
        }
        assert(self.recent_projects@.take(i as int) =~= self.recent_projects@);
        out
    }

    /// Marks a project as just used: registers it if new and moves it to
    /// the front of the recent list. Beyond `MAX_RECENT_PROJECTS` the
    /// oldest are forgotten and returned, oldest first. The untitled
    /// project is never registered.
    pub fn touch(&mut self, name: &str) -> (evicted: Vec<String>)
        requires
            old(self).wf(),
        ensures
            name@ == "untitled"@ ==> evicted@.len() == 0
                && entry_views(final(self).projects@) == entry_views(old(self).projects@)
                && final(self).recent_projects@ == old(self).recent_projects@,
            name@ != "untitled"@ ==> {
                let order = mru_order(name_views(old(self).recent_projects@), name@);
                &&& name_views(final(self).recent_projects@)
                    == if order.len() > MAX_RECENT_PROJECTS { order.take(MAX_RECENT_PROJECTS as int) } else { order }
                &&& name_views(evicted@)
                    == if order.len() > MAX_RECENT_PROJECTS { order.skip(MAX_RECENT_PROJECTS as int).reverse() } else { Seq::empty() }
                &&& project_names(final(self).projects@)
                    == project_names(old(self).projects@).insert(name@).difference(name_views(evicted@).to_set())
                &&& entry_views(final(self).projects@)
                    == touched_entries(entry_views(old(self).projects@), name@).filter(kept_entry(name_views(evicted@)))
                &&& !name_views(evicted@).contains(name@)
            },
            final(self).format_version == old(self).format_version,
            final(self).wf(),
    {
        proof { reveal_strlit("untitled"); }
        if str_eq(name, "untitled") {
            return Vec::new();
        }
        let ghost old_names = project_names(self.projects@);
        let ghost base = touched_entries(entry_views(self.projects@), name@);
        let registered = has_project(&self.projects, name);
        proof {
            let keys = entry_views(self.projects@).map_values(|e: (Seq<char>, ProjectBinding)| e.0);
            let names = self.projects@.map_values(|p: (String, ProjectBinding)| p.0@);
            assert(keys =~= names);
        }
        if !registered {
            let ghost before = self.projects@;
            self.projects.push((name.to_owned(), ProjectBinding::default()));
            assert(entry_views(self.projects@) =~= entry_views(before).push((name@, cleared_binding())));
            assert(self.projects@.map_values(|p: (String, ProjectBinding)| p.0@)
                =~= before.map_values(|p: (String, ProjectBinding)| p.0@).push(name@));
            proof {
                before.map_values(|p: (String, ProjectBinding)| p.0@).lemma_push_to_set_commute(name@);
            }
        }
        assert(project_names(self.projects@) =~= old_names.insert(name@));
        assert(entry_views(self.projects@) == base);
        proof {
            lemma_filter_all(base, kept_entry(Seq::<Seq<char>>::empty()));
        }
        let mut recent: Vec<String> = Vec::new();
        std::mem::swap(&mut recent, &mut self.recent_projects);
        let mut recent = without_name(recent, name);
        let ghost filtered = name_views(recent@);
        recent.insert(0, name.to_owned());
        let ghost order = mru_order(name_views(old(self).recent_projects@), name@);
        assert(name_views(recent@) =~= order);
        let mut evicted: Vec<String> = Vec::new();
        assert(name_views(evicted@) =~= order.subrange(recent@.len() as int, order.len() as int).reverse());
        while recent.len() > MAX_RECENT_PROJECTS
            invariant
                recent@.len() <= order.len(),
                name_views(recent@) == order.take(recent@.len() as int),
                name_views(evicted@) == order.subrange(recent@.len() as int, order.len() as int).reverse(),
                order.len() > MAX_RECENT_PROJECTS ==> recent@.len() >= MAX_RECENT_PROJECTS,
                order.len() <= MAX_RECENT_PROJECTS ==> recent@.len() == order.len(),
                project_names(self.projects@) == old_names.insert(name@).difference(name_views(evicted@).to_set()),
                entry_views(self.projects@) == base.filter(kept_entry(name_views(evicted@))),
                self.format_version == old(self).format_version,
            decreases recent.len(),
        {
            let ghost before_recent = recent@;
            let ghost before_evicted = evicted@;
            let last = match recent.pop() {
                Some(l) => l,
                None => { assert(false); String::new() },
            };
            assert(name_views(before_recent)[before_recent.len() - 1] == before_recent.last()@);
            assert(last@ == order[recent@.len() as int]);
            assert(name_views(recent@) =~= order.take(recent@.len() as int));
            let mut projects: Vec<(String, ProjectBinding)> = Vec::new();
            std::mem::swap(&mut projects, &mut self.projects);
            self.projects = without_entry(projects, last.as_str());
            let ghost last_view = last@;
            evicted.push(last);
            proof {
                let ev0 = name_views(before_evicted);
                let ev1 = name_views(evicted@);
                assert(ev1 =~= ev0.push(last_view));
                assert forall|e: (Seq<char>, ProjectBinding)| #[trigger] kept_entry(ev1)(e)
                    == (kept_entry(ev0)(e) && other_entry(last_view)(e)) by {
                    if ev0.contains(e.0) {
                        let k = choose|k: int| 0 <= k < ev0.len() && ev0[k] == e.0;
                        assert(ev1[k] == e.0);
                    }
                    if ev1.contains(e.0) && e.0 != last_view {
                        let k = choose|k: int| 0 <= k < ev1.len() && ev1[k] == e.0;
                        assert(k < ev0.len());
                        assert(ev0[k] == e.0);
                    }
                    if e.0 == last_view {
                        assert(ev1[ev0.len() as int] == last_view);
                    }
                }
                lemma_filter_twice(base, kept_entry(ev0), other_entry(last_view), kept_entry(ev1));
            }
            assert(name_views(evicted@) =~= name_views(before_evicted).push(evicted@.last()@));
            assert(name_views(evicted@) =~= order.subrange(recent@.len() as int, order.len() as int).reverse());
            proof {
                name_views(before_evicted).lemma_push_to_set_commute(evicted@.last()@);
            }
            assert(name_views(evicted@).to_set() =~= name_views(before_evicted).to_set().insert(evicted@.last()@));
            assert(project_names(self.projects@) =~= old_names.insert(name@).difference(name_views(evicted@).to_set()));
        }
        self.recent_projects = recent;
        proof {
            lemma_touched_unique(entry_views(old(self).projects@), name@, name_views(evicted@));
            let rest = name_views(old(self).recent_projects@).filter(other_name(name@));
            assert forall|k: int| 0 <= k < name_views(evicted@).len() implies name_views(evicted@)[k] != name@ by {
                let j = order.len() - 1 - k;
                assert(order.len() == rest.len() + 1);
                assert(name_views(evicted@)[k] == order[j]);
                assert(j >= 1);
                assert(order[j] == rest[j - 1]);
                name_views(old(self).recent_projects@).lemma_filter_pred(other_name(name@), j - 1);
            }
            if order.len() > MAX_RECENT_PROJECTS {
                assert(order.subrange(MAX_RECENT_PROJECTS as int, order.len() as int) =~= order.skip(MAX_RECENT_PROJECTS as int));
            } else {
                assert(order.take(order.len() as int) =~= order);
                assert(order.subrange(order.len() as int, order.len() as int).reverse() =~= Seq::<Seq<char>>::empty());
            }
        }
        evicted
    }
}


/// The registry entries after using `name`: a new name is registered
/// with an unbound binding at the end; all entries stay as they were.
pub open spec fn touched_entries(entries: Seq<(Seq<char>, ProjectBinding)>, name: Seq<char>) -> Seq<(Seq<char>, ProjectBinding)> {
    if entries.map_values(|e: (Seq<char>, ProjectBinding)| e.0).contains(name) {
        entries
    } else {
        entries.push((name, cleared_binding()))
    }
}

/// The entries whose names were not evicted.
pub open spec fn kept_entry(evicted: Seq<Seq<char>>) -> spec_fn((Seq<char>, ProjectBinding)) -> bool {
    |e: (Seq<char>, ProjectBinding)| !evicted.contains(e.0)
}

proof fn lemma_filter_all<A>(s: Seq<A>, p: spec_fn(A) -> bool)
    requires
        forall|e: A| #[trigger] p(e),
    ensures
        s.filter(p) == s,
    decreases s.len(),
{
    if s.len() == 0 {
        assert(s.filter(p) =~= s) by {
            reveal(Seq::filter);
        }
    } else {
        let t = s.drop_last();
        lemma_filter_all(t, p);
        assert(s =~= t.push(s.last()));
        t.lemma_filter_push(s.last(), p);
    }
}

proof fn lemma_filter_twice<A>(s: Seq<A>, p1: spec_fn(A) -> bool, p2: spec_fn(A) -> bool, q: spec_fn(A) -> bool)
    requires
        forall|e: A| #[trigger] q(e) == (p1(e) && p2(e)),
    ensures
        s.filter(p1).filter(p2) == s.filter(q),
    decreases s.len(),
{
    if s.len() == 0 {
        assert(s.filter(p1) =~= s) by {
            reveal(Seq::filter);
        }
        assert(s.filter(p1).filter(p2) =~= s.filter(q)) by {
            reveal(Seq::filter);
        }
    } else {
        let t = s.drop_last();
        let x = s.last();
        lemma_filter_twice(t, p1, p2, q);
        assert(s =~= t.push(x));
        t.lemma_filter_push(x, p1);
        t.lemma_filter_push(x, q);
        t.filter(p1).lemma_filter_push(x, p2);
        assert(q(x) == (p1(x) && p2(x)));
    }
}

/// The binding of the first registry entry named `name`.
pub open spec fn first_binding(s: Seq<(String, ProjectBinding)>, name: Seq<char>) -> Option<ProjectBinding>
    decreases s.len(),
{
    if s.len() == 0 {
        None
    } else if s[0].0@ == name {
        Some(s[0].1)
    } else {
        first_binding(s.drop_first(), name)
    }
}

fn find_binding(projects: &Vec<(String, ProjectBinding)>, name: &str) -> (r: Option<usize>)
    ensures
        match r {
            Some(i) => i < projects@.len() && first_binding(projects@, name@) == Some(projects@[i as int].1),
            None => first_binding(projects@, name@) is None,
        },
{
    let mut i: usize = 0;
    assert(projects@.skip(0) =~= projects@);
    while i < projects.len()
        invariant
            i <= projects@.len(),
            first_binding(projects@, name@) == first_binding(projects@.skip(i as int), name@),
        decreases projects.len() - i,
    {
        assert(projects@.skip(i as int)[0] == projects@[i as int]);
        assert(projects@.skip(i as int).drop_first() =~= projects@.skip(i as int + 1));
        if str_eq(projects[i].0.as_str(), name) {
            return Some(i);
        }
        i = i + 1;
    }
    assert(projects@.skip(i as int).len() == 0);
    None
}

impl ProjectRegistry {
    /// The registry file below the configuration directory `config`:
    /// `config/projects.toml`.
    pub fn path_in(config: &std::path::PathBuf) -> (r: std::path::PathBuf)
        ensures
            r == joined(*config, "projects.toml"@),
    {
        path_join(config, "projects.toml")
    }

    /// The registry file: `projects.toml` in the configuration directory,
    /// when the platform has one.
    pub fn path() -> (r: Option<std::path::PathBuf>)
        ensures
            r matches Some(p) ==> exists|d: std::path::PathBuf| p == joined(#[trigger] joined(d, "scope2000"@), "projects.toml"@),
    {
        match config_dir() {
            Some(dir) => Some(Self::path_in(&dir)),
            None => None,
        }
    }

    /// The local project bound to `name`, loaded with `load` from the bound
    /// project file, when the binding exists (and is verified, if
    /// `verified_only`) and the file still names the same project. The
    /// result carries the build identity recorded in the binding and the
    /// name `load` gave; where every result `load` may give for the bound
    /// file is a project of that name, the project is found.
    pub fn valid_local<F: Fn(&std::path::PathBuf) -> Option<LocalProject>>(&self, name: &str, verified_only: bool, load: F)
        -> (r: Option<LocalProject>)
        requires
            forall|p: &std::path::PathBuf| load.requires((p,)),
        ensures
            match first_binding(self.projects@, name@) {
                None => r is None,
                Some(b) => if (verified_only && !b.verified) || b.project_file is None {
                    r is None
                } else {
                    &&& r matches Some(l) ==> l.name@ == name@ && l.build_time_utc == b.build_time_utc
                        && l.build_hash == b.build_hash && l.project_file == b.project_file->0
                        && exists|p: LocalProject| #[trigger] call_ensures(load, (&b.project_file->0,), Some(p))
                            && p.name == l.name
                    &&& (forall|res: Option<LocalProject>| #[trigger] call_ensures(load, (&b.project_file->0,), res)
                        ==> (res matches Some(p) && p.name@ == name@)) ==> r is Some
                },
            },
    {
        let i = match find_binding(&self.projects, name) {
            Some(i) => i,
            None => return None,
        };
        let binding = &self.projects[i].1;
        if verified_only && !binding.verified {
            return None;
        }
        let file = match &binding.project_file {
            Some(f) => f,
            None => return None,
        };
        let loaded = load(file);
        let project = match loaded {
            Some(p) => p,
            None => return None,
        };
        assert(call_ensures(load, (file,), Some(project)));
        if !str_eq(project.name.as_str(), name) {
            return None;
        }
        Some(LocalProject {
            name: project.name,
            project_file: file.clone(),
            build_time_utc: binding.build_time_utc,
            build_hash: binding.build_hash,
        })
    }
}


/// The recent list that `touch` leaves: the used name first, each name
/// once among the others, at most `MAX_RECENT_PROJECTS` long.
pub open spec fn touched_recent(recent: Seq<Seq<char>>, name: Seq<char>) -> Seq<Seq<char>> {
    let order = mru_order(recent, name);
    if order.len() > MAX_RECENT_PROJECTS { order.take(MAX_RECENT_PROJECTS as int) } else { order }
}

/// Using a project puts it first in the recent list, exactly once, and the
/// list never grows beyond `MAX_RECENT_PROJECTS`; the projects returned as
/// evicted are exactly the ones that fell off its end.
pub proof fn law_touch_most_recent_first(recent: Seq<Seq<char>>, name: Seq<char>)
    ensures
        touched_recent(recent, name).len() >= 1,
        touched_recent(recent, name).len() <= MAX_RECENT_PROJECTS,
        touched_recent(recent, name)[0] == name,
        forall|i: int| 1 <= i < touched_recent(recent, name).len() ==> touched_recent(recent, name)[i] != name,
        touched_recent(recent, name) + (if mru_order(recent, name).len() > MAX_RECENT_PROJECTS {
            mru_order(recent, name).skip(MAX_RECENT_PROJECTS as int)
        } else {
            Seq::empty()
        }) == mru_order(recent, name),
{
    let order = mru_order(recent, name);
    let rest = recent.filter(other_name(name));
    assert forall|i: int| 1 <= i < touched_recent(recent, name).len() implies touched_recent(recent, name)[i] != name by {
        assert(touched_recent(recent, name)[i] == order[i]);
        assert(order[i] == rest[i - 1]);
        recent.lemma_filter_pred(other_name(name), i - 1);
    }
    if order.len() > MAX_RECENT_PROJECTS {
        assert(order.take(MAX_RECENT_PROJECTS as int) + order.skip(MAX_RECENT_PROJECTS as int) =~= order);
    } else {
        assert(order + Seq::<Seq<char>>::empty() =~= order);
    }
}


proof fn lemma_lead_ws_stops(s: Seq<char>)
    ensures
        lead_ws(s) <= s.len(),
        lead_ws(s) < s.len() ==> !unicode_whitespace(s[lead_ws(s) as int]),
    decreases s.len(),
{
    if s.len() > 0 && unicode_whitespace(s[0]) {
        lemma_lead_ws_stops(s.drop_first());
        if lead_ws(s) < s.len() {
            assert(s[lead_ws(s) as int] == s.drop_first()[lead_ws(s.drop_first()) as int]);
        }
    }
}

proof fn lemma_trail_ws_bound(s: Seq<char>, k: int)
    requires
        0 <= k < s.len(),
        !unicode_whitespace(s[k]),
    ensures
        trail_ws(s) <= s.len() - 1 - k,
        !unicode_whitespace(s[s.len() - 1 - trail_ws(s)]),
    decreases s.len(),
{
    if unicode_whitespace(s.last()) {
        assert(k < s.len() - 1);
        assert(s.drop_last()[k] == s[k]);
        lemma_trail_ws_bound(s.drop_last(), k);
        assert(s[s.len() - 1 - trail_ws(s)] == s.drop_last()[s.drop_last().len() - 1 - trail_ws(s.drop_last())]);
    }
}

/// Normalizing a project name that is not blank is idempotent: the
/// normalized name normalizes to itself.
pub proof fn law_normalize_project_name_idempotent(name: Seq<char>)
    requires
        spec_normalize_project_name(name) is Ok,
        trimmed(name).len() > 0,
    ensures
        spec_normalize_project_name(spec_normalize_project_name(name)->Ok_0) == spec_normalize_project_name(name),
{
    let t = trimmed(name);
    lemma_lead_ws_stops(name);
    let a = lead_ws(name) as int;
    assert(a < name.len());
    lemma_trail_ws_bound(name, a);
    let b = name.len() - trail_ws(name);
    assert(t == name.subrange(a, b));
    assert(t[0] == name[a]);
    assert(t[t.len() - 1] == name[b - 1]);
    assert(lead_ws(t) == 0);
    assert(trail_ws(t) == 0);
    assert(trimmed(t) =~= t);
}


proof fn lemma_hex_fixed_len(n: nat, width: nat, upper: bool)
    ensures
        hex_fixed(n, width, upper).len() == width,
    decreases width,
{
    if width > 0 {
        lemma_hex_fixed_len(n / 16, (width - 1) as nat, upper);
    }
}

proof fn lemma_hex_key_len(bytes: Seq<u8>)
    ensures
        hex_key(bytes).len() == 2 * bytes.len(),
    decreases bytes.len(),
{
    if bytes.len() > 0 {
        lemma_hex_key_len(bytes.drop_last());
        lemma_hex_fixed_len(bytes.last() as nat, 2, false);
    }
}

proof fn lemma_hex_digit_lower_injective(a: int, b: int)
    requires
        0 <= a < 16,
        0 <= b < 16,
        crate::text::hex_digit_lower(a) == crate::text::hex_digit_lower(b),
    ensures
        a == b,
{
}

proof fn lemma_hex_pair_injective(x: u8, y: u8)
    requires
        hex_fixed(x as nat, 2, false) == hex_fixed(y as nat, 2, false),
    ensures
        x == y,
{
    let nx = x as nat;
    let ny = y as nat;
    let hx = hex_fixed(nx, 2, false);
    let hy = hex_fixed(ny, 2, false);
    assert(hex_fixed(nx / 16 / 16, 0, false) == Seq::<char>::empty());
    assert(hex_fixed(ny / 16 / 16, 0, false) == Seq::<char>::empty());
    assert(hex_fixed(nx / 16, 1, false) == seq![crate::text::hex_digit_lower(((nx / 16) % 16) as int)]);
    assert(hex_fixed(ny / 16, 1, false) == seq![crate::text::hex_digit_lower(((ny / 16) % 16) as int)]);
    assert(hx == seq![crate::text::hex_digit_lower(((nx / 16) % 16) as int), crate::text::hex_digit_lower((nx % 16) as int)]);
    assert(hy == seq![crate::text::hex_digit_lower(((ny / 16) % 16) as int), crate::text::hex_digit_lower((ny % 16) as int)]);
    assert(hx[1] == hy[1]);
    assert(hx[0] == hy[0]);
    lemma_hex_digit_lower_injective((nx % 16) as int, (ny % 16) as int);
    lemma_hex_digit_lower_injective(((nx / 16) % 16) as int, ((ny / 16) % 16) as int);
    assert(nx == (nx / 16) * 16 + nx % 16);
    assert(ny == (ny / 16) * 16 + ny % 16);
}

/// Different project names get different workspace directories: the key
/// of a name determines the name's octets.
pub proof fn law_project_key_injective(a: Seq<u8>, b: Seq<u8>)
    requires
        hex_key(a) == hex_key(b),
    ensures
        a == b,
    decreases a.len(),
{
    lemma_hex_key_len(a);
    lemma_hex_key_len(b);
    if a.len() > 0 {
        let ka = hex_key(a.drop_last());
        let kb = hex_key(b.drop_last());
        lemma_hex_key_len(a.drop_last());
        lemma_hex_key_len(b.drop_last());
        let ha = hex_fixed(a.last() as nat, 2, false);
        let hb = hex_fixed(b.last() as nat, 2, false);
        assert(ha.len() == 2 && hb.len() == 2) by {
            assert(ha == hex_fixed((a.last() / 16) as nat, 1, false).push(crate::text::hex_digit_lower((a.last() % 16) as int)));
            assert(hb == hex_fixed((b.last() / 16) as nat, 1, false).push(crate::text::hex_digit_lower((b.last() % 16) as int)));
        }
        assert(ka =~= hex_key(a).subrange(0, ka.len() as int));
        assert(kb =~= hex_key(b).subrange(0, kb.len() as int));
        assert(ha =~= hex_key(a).subrange(ka.len() as int, hex_key(a).len() as int));
        assert(hb =~= hex_key(b).subrange(kb.len() as int, hex_key(b).len() as int));
        lemma_hex_pair_injective(a.last(), b.last());
        law_project_key_injective(a.drop_last(), b.drop_last());
        assert(a =~= a.drop_last().push(a.last()));
        assert(b =~= b.drop_last().push(b.last()));
    }
}

/// One node of a parsed XML document, in document order: whether it is an
/// element, its local tag name (empty for other nodes), its text (for an
/// element, that of a leading text child), its node id and its parent's.
#[derive(Debug, Clone, PartialEq, Eq)]
pub struct XmlNode {
    pub element: bool,
    pub tag: String,
    pub text: Option<String>,
    pub id: usize,
    pub parent: Option<usize>,
}

/// A node as plain values.
pub open spec fn xml_node_view(n: XmlNode) -> (bool, Seq<char>, Option<Seq<char>>, usize, Option<usize>) {
    (n.element, n.tag@, match n.text { Some(t) => Some(t@), None => None }, n.id, n.parent)
}

/// The nodes of a document as plain values.
pub open spec fn xml_nodes_view(s: Seq<XmlNode>) -> Seq<(bool, Seq<char>, Option<Seq<char>>, usize, Option<usize>)> {
    s.map_values(|n: XmlNode| xml_node_view(n))
}

/// Name for what `roxmltree::Document::parse` reads from a text: `None`
/// when it is not well-formed XML, else every node of the document from
/// the root on, in document order, as plain values.
pub uninterp spec fn xml_document_nodes(text: Seq<char>)
    -> Option<Seq<(bool, Seq<char>, Option<Seq<char>>, usize, Option<usize>)>>;

/// Calls `roxmltree::Document::parse` and converts each node of the
/// document, in `descendants` order, to an `XmlNode` (the node's
/// `is_element`, `tag_name().name()`, `text`, `id` and `parent`'s id). The
/// contract names the result.
#[verifier::external_body]
fn parse_xml(text: &str) -> (r: Option<Vec<XmlNode>>)
    ensures
        match r {
            Some(nodes) => xml_document_nodes(text@) == Some(xml_nodes_view(nodes@)),
            None => xml_document_nodes(text@) is None,
        },
{
    let doc = roxmltree::Document::parse(text).ok()?;
    Some(doc.descendants().map(|n| XmlNode {
        element: n.is_element(),
        tag: n.tag_name().name().to_owned(),
        text: n.text().map(str::to_owned),
        id: n.id().get_usize(),
        parent: n.parent().map(|p| p.id().get_usize()),
    }).collect())
}

type NodeView = (bool, Seq<char>, Option<Seq<char>>, usize, Option<usize>);

/// The first element with local tag `tag` at or after index `from`.
pub open spec fn first_element_from(ns: Seq<NodeView>, tag: Seq<char>, parent: Option<usize>, from: int) -> Option<int>
    decreases ns.len() - from,
{
    if from < 0 || from >= ns.len() {
        None
    } else if ns[from].0 && ns[from].1 == tag && (parent is None || ns[from].4 == parent) {
        Some(from)
    } else {
        first_element_from(ns, tag, parent, from + 1)
    }
}

proof fn lemma_first_element_from(ns: Seq<NodeView>, tag: Seq<char>, parent: Option<usize>, from: int)
    ensures
        first_element_from(ns, tag, parent, from) matches Some(k) ==> from <= k < ns.len() && ns[k].0 && ns[k].1 == tag
            && (parent is None || ns[k].4 == parent),
    decreases ns.len() - from,
{
    if 0 <= from < ns.len() {
        lemma_first_element_from(ns, tag, parent, from + 1);
    }
}

/// The name a CCS `.project` document gives: the text of the first `name`
/// element child of the first `projectDescription` element, empty when
/// either is missing or the name has no text.
pub open spec fn spec_project_name(ns: Seq<NodeView>) -> Seq<char> {
    match first_element_from(ns, "projectDescription"@, None, 0) {
        None => Seq::empty(),
        Some(d) => match first_element_from(ns, "name"@, Some(ns[d].3), 0) {
            None => Seq::empty(),
            Some(k) => match ns[k].2 {
                Some(t) => t,
                None => Seq::empty(),
            },
        },
    }
}

/// The first element tagged `tag` (and, when `parent` is given, with that
/// parent), searching from the start.
fn find_element(nodes: &Vec<XmlNode>, tag: &str, parent: Option<usize>) -> (r: Option<usize>)
    ensures
        match first_element_from(xml_nodes_view(nodes@), tag@, parent, 0) {
            Some(k) => 0 <= k < nodes@.len() && (r matches Some(i) && i as int == k),
            None => r is None,
        },
{
    proof {
        lemma_first_element_from(xml_nodes_view(nodes@), tag@, parent, 0);
    }
    let ghost ns = xml_nodes_view(nodes@);
    let mut i: usize = 0;
    while i < nodes.len()
        invariant
            i <= nodes@.len(),
            ns == xml_nodes_view(nodes@),
            first_element_from(ns, tag@, parent, 0) == first_element_from(ns, tag@, parent, i as int),
        decreases nodes.len() - i,
    {
        let n = &nodes[i];
        assert(ns[i as int] == xml_node_view(*n));
        let parent_ok = match parent {
            None => true,
            Some(p) => n.parent == Some(p),
        };
        if n.element && str_eq(n.tag.as_str(), tag) && parent_ok {
            return Some(i);
        }
        i = i + 1;
    }
    None
}

/// The project name a parsed `.project` document gives.
pub fn project_name_of(nodes: &Vec<XmlNode>) -> (r: String)
    ensures
        r@ == spec_project_name(xml_nodes_view(nodes@)),
{
    let ghost ns = xml_nodes_view(nodes@);
    let d = match find_element(nodes, "projectDescription", None) {
        Some(d) => d,
        None => return String::new(),
    };
    assert(ns[d as int] == xml_node_view(nodes@[d as int]));
    let parent_id = nodes[d].id;
    assert(ns[d as int].3 == parent_id);
    let k = match find_element(nodes, "name", Some(parent_id)) {
        Some(k) => k,
        None => return String::new(),
    };
    assert(ns[k as int] == xml_node_view(nodes@[k as int]));
    match &nodes[k].text {
        Some(t) => t.clone(),
        None => String::new(),
    }
}

/// Why a `.project` file gives no project.
#[derive(Debug, Clone, Copy, PartialEq, Eq)]
pub enum ProjectFileError {
    InvalidXml,
    Name(ProjectNameError),
}

/// The project name of a `.project` file: the name the XML holds, checked
/// by the baker's rule (a missing name is the untitled project).
pub fn project_name_from_xml(text: &str) -> (r: Result<String, ProjectFileError>)
    ensures
        match xml_document_nodes(text@) {
            None => r == Err::<String, ProjectFileError>(ProjectFileError::InvalidXml),
            Some(ns) => match spec_normalize_project_name(spec_project_name(ns)) {
                Ok(t) => r matches Ok(s) && s@ == t,
                Err(e) => r == Err::<String, ProjectFileError>(ProjectFileError::Name(e)),
            },
        },
{
    match parse_xml(text) {
        None => Err(ProjectFileError::InvalidXml),
        Some(nodes) => match normalize_project_name(project_name_of(&nodes).as_str()) {
            Ok(n) => Ok(n),
            Err(e) => Err(ProjectFileError::Name(e)),
        },
    }
}

/// What a baker report says of a build.
#[derive(Debug, Clone, PartialEq, Eq)]
pub struct BuildReport {
    pub project_name: String,
    pub build_time_utc: u32,
    pub build_hash: Option<u32>,
}

/// The build identity a report gives a project: its build time and hash,
/// when the report belongs to that project and carries a build time.
pub fn report_identity(report: &BuildReport, project_name: &str) -> (r: Option<(u32, Option<u32>)>)
    ensures
        r == if report.project_name@ == project_name@ && report.build_time_utc != 0 {
            Some((report.build_time_utc, report.build_hash))
        } else {
            None::<(u32, Option<u32>)>
        },
{
    if str_eq(report.project_name.as_str(), project_name) && report.build_time_utc != 0 {
        Some((report.build_time_utc, report.build_hash))
    } else {
        None
    }
}

/// `i` holds the newest build time, and no later entry is as new.
pub open spec fn is_latest(times: Seq<u32>, i: int) -> bool {
    &&& 0 <= i < times.len()
    &&& forall|j: int| 0 <= j < times.len() ==> times[j] <= times[i]
    &&& forall|j: int| i < j < times.len() ==> times[j] < times[i]
}

/// Of the matching reports found in walk order, the one with the newest
/// build time (the last of equally new ones).
pub fn latest_build(times: &[u32]) -> (r: Option<usize>)
    ensures
        times@.len() == 0 <==> r is None,
        r matches Some(i) ==> is_latest(times@, i as int),
{
    if times.len() == 0 {
        return None;
    }
    let mut best: usize = 0;
    let mut i: usize = 1;
    while i < times.len()
        invariant
            1 <= i <= times@.len(),
            best < i,
            forall|j: int| 0 <= j < i ==> times@[j] <= times@[best as int],
            forall|j: int| best < j < i ==> times@[j] < times@[best as int],
        decreases times.len() - i,
    {
        if times[i] >= times[best] {
            best = i;
        }
        i = i + 1;
    }
    Some(best)
}

/// A project with a build identity found for it.
pub fn with_build(project: LocalProject, identity: Option<(u32, Option<u32>)>) -> (r: LocalProject)
    ensures
        r.name == project.name,
        r.project_file == project.project_file,
        identity matches Some((t, h)) ==> r.build_time_utc == Some(t) && r.build_hash == h,
        identity is None ==> r.build_time_utc == project.build_time_utc && r.build_hash == project.build_hash,
{
    match identity {
        Some((t, h)) => LocalProject { build_time_utc: Some(t), build_hash: h, ..project },
        None => project,
    }
}

/// A registry entry whose name is a valid project name as written and not
/// the untitled project.
pub open spec fn canonical_entry(e: (Seq<char>, ProjectBinding)) -> bool {
    spec_normalize_project_name(e.0) == Ok::<Seq<char>, ProjectNameError>(e.0) && e.0 != "untitled"@
}

/// The entries kept by a filter, in order.
pub open spec fn kept_entries(s: Seq<(Seq<char>, ProjectBinding)>, keep: spec_fn((Seq<char>, ProjectBinding)) -> bool)
    -> Seq<(Seq<char>, ProjectBinding)>
    decreases s.len(),
{
    if s.len() == 0 {
        Seq::empty()
    } else {
        let prev = kept_entries(s.drop_last(), keep);
        if keep(s.last()) { prev.push(s.last()) } else { prev }
    }
}

/// The names of entries.
pub open spec fn entry_names(s: Seq<(Seq<char>, ProjectBinding)>) -> Seq<Seq<char>> {
    s.map_values(|e: (Seq<char>, ProjectBinding)| e.0)
}

/// The recent names that are registered, each once (first occurrence kept).
pub open spec fn kept_recent(recent: Seq<Seq<char>>, names: Seq<Seq<char>>) -> Seq<Seq<char>>
    decreases recent.len(),
{
    if recent.len() == 0 {
        Seq::empty()
    } else {
        let prev = kept_recent(recent.drop_last(), names);
        if names.contains(recent.last()) && !prev.contains(recent.last()) { prev.push(recent.last()) } else { prev }
    }
}

/// `base` followed by each name of `extra` it does not hold yet.
pub open spec fn appended_names(base: Seq<Seq<char>>, extra: Seq<Seq<char>>) -> Seq<Seq<char>>
    decreases extra.len(),
{
    if extra.len() == 0 {
        base
    } else {
        let prev = appended_names(base, extra.drop_last());
        if prev.contains(extra.last()) { prev } else { prev.push(extra.last()) }
    }
}

/// The names of `names` that `kept` lacks, each once.
pub open spec fn dropped_names(names: Seq<Seq<char>>, kept: Seq<Seq<char>>) -> Seq<Seq<char>>
    decreases names.len(),
{
    if names.len() == 0 {
        Seq::empty()
    } else {
        let prev = dropped_names(names.drop_last(), kept);
        if !kept.contains(names.last()) && !prev.contains(names.last()) { prev.push(names.last()) } else { prev }
    }
}

/// The recent list a loaded registry ends with: the registered recent
/// names once each, then the other registered names, the protected
/// project (when registered) moved to the front, at most
/// `MAX_RECENT_PROJECTS` of them.
pub open spec fn sanitized_recent(entries: Seq<(Seq<char>, ProjectBinding)>, recent: Seq<Seq<char>>, protected: Option<Seq<char>>)
    -> Seq<Seq<char>>
{
    let names = entry_names(kept_entries(entries, |e: (Seq<char>, ProjectBinding)| canonical_entry(e)));
    let listed = appended_names(kept_recent(recent, names), names);
    let ordered = match protected {
        Some(n) => if names.contains(n) { mru_order(listed, n) } else { listed },
        None => listed,
    };
    if ordered.len() > MAX_RECENT_PROJECTS { ordered.take(MAX_RECENT_PROJECTS as int) } else { ordered }
}

fn names_have(v: &Vec<String>, name: &str) -> (r: bool)
    ensures
        r == name_views(v@).contains(name@),
{
    let mut i: usize = 0;
    while i < v.len()
        invariant
            i <= v@.len(),
            forall|j: int| 0 <= j < i ==> name_views(v@)[j] != name@,
        decreases v.len() - i,
    {
        if str_eq(v[i].as_str(), name) {
            assert(name_views(v@)[i as int] == name@);
            return true;
        }
        i = i + 1;
    }
    false
}

fn entry_name_list(v: &Vec<(String, ProjectBinding)>) -> (r: Vec<String>)
    ensures
        name_views(r@) == entry_names(entry_views(v@)),
{
    let mut out: Vec<String> = Vec::new();
    let mut i: usize = 0;
    while i < v.len()
        invariant
            i <= v@.len(),
            name_views(out@) == entry_names(entry_views(v@.take(i as int))),
        decreases v.len() - i,
    {
        let ghost before = out@;
        out.push(v[i].0.clone());
        assert(name_views(out@) =~= name_views(before).push(v@[i as int].0@));
        assert(entry_names(entry_views(v@.take(i as int + 1))) =~= entry_names(entry_views(v@.take(i as int))).push(v@[i as int].0@));
        i = i + 1;
    }
    assert(v@.take(v@.len() as int) =~= v@);
    out
}

impl ProjectRegistry {
    /// Cleans a registry as read from disk: entries whose name is not a
    /// valid project name as written (or is the untitled project) are
    /// dropped, the recent list is made to hold each registered project
    /// once (`sanitized_recent`), and projects beyond the recent list are
    /// forgotten. Returns the names forgotten, whose workspaces are to be
    /// deleted.
    #[verifier::rlimit(40)]
    pub fn sanitize(&mut self, protected_name: Option<&str>) -> (evicted: Vec<String>)
        requires
            old(self).wf(),
        ensures
            ({
                let entries = entry_views(old(self).projects@);
                let canonical = kept_entries(entries, |e: (Seq<char>, ProjectBinding)| canonical_entry(e));
                let protected = match protected_name { Some(n) => Some(n@), None => None::<Seq<char>> };
                let recent = sanitized_recent(entries, name_views(old(self).recent_projects@), protected);
                &&& name_views(final(self).recent_projects@) == recent
                &&& entry_views(final(self).projects@)
                    == kept_entries(canonical, |e: (Seq<char>, ProjectBinding)| recent.contains(e.0))
                &&& name_views(evicted@) == dropped_names(entry_names(entries), recent)
            }),
            final(self).format_version == old(self).format_version,
            final(self).wf(),
    {
        proof {
            let entries = entry_views(self.projects@);
            let canonical = kept_entries(entries, |e: (Seq<char>, ProjectBinding)| canonical_entry(e));
            lemma_unique_kept(entries, |e: (Seq<char>, ProjectBinding)| canonical_entry(e));
            let recent = sanitized_recent(entries, name_views(self.recent_projects@),
                match protected_name { Some(n) => Some(n@), None => None::<Seq<char>> });
            lemma_unique_kept(canonical, |e: (Seq<char>, ProjectBinding)| recent.contains(e.0));
        }
        proof { reveal_strlit("untitled"); }
        let ghost entries = entry_views(self.projects@);
        let ghost canon_fn = |e: (Seq<char>, ProjectBinding)| canonical_entry(e);
        // Keep the canonical entries.
        let mut canonical: Vec<(String, ProjectBinding)> = Vec::new();
        let mut i: usize = 0;
        while i < self.projects.len()
            invariant
                i <= self.projects@.len(),
                entries == entry_views(self.projects@),
                canon_fn == (|e: (Seq<char>, ProjectBinding)| canonical_entry(e)),
                entry_views(canonical@) == kept_entries(entries.take(i as int), canon_fn),
            decreases self.projects.len() - i,
        {
            let (name, binding) = &self.projects[i];
            proof {
                assert(entries.take(i as int + 1).drop_last() =~= entries.take(i as int));
                assert(entries.take(i as int + 1).last() == (name@, *binding));
            }
            let keep = match normalize_project_name(name.as_str()) {
                Ok(n) => str_eq(n.as_str(), name.as_str()) && !str_eq(name.as_str(), "untitled"),
                Err(_) => false,
            };
            let ghost before = canonical@;
            if keep {
                canonical.push((name.clone(), binding.clone()));
                assert(entry_views(canonical@) =~= entry_views(before).push((name@, *binding)));
            }
            i = i + 1;
        }
        assert(entries.take(entries.len() as int) =~= entries);
        let names = entry_name_list(&canonical);
        let ghost nv = name_views(names@);
        // The registered recent names, once each.
        let mut recent: Vec<String> = Vec::new();
        let ghost old_recent = name_views(self.recent_projects@);
        let mut j: usize = 0;
        while j < self.recent_projects.len()
            invariant
                j <= self.recent_projects@.len(),
                old_recent == name_views(self.recent_projects@),
                nv == name_views(names@),
                name_views(recent@) == kept_recent(old_recent.take(j as int), nv),
            decreases self.recent_projects.len() - j,
        {
            let n = &self.recent_projects[j];
            proof {
                assert(old_recent.take(j as int + 1).drop_last() =~= old_recent.take(j as int));
                assert(old_recent.take(j as int + 1).last() == n@);
            }
            let ghost before = recent@;
            if names_have(&names, n.as_str()) && !names_have(&recent, n.as_str()) {
                recent.push(n.clone());
                assert(name_views(recent@) =~= name_views(before).push(n@));
            }
            j = j + 1;
        }
        assert(old_recent.take(old_recent.len() as int) =~= old_recent);
        // Then the other registered names.
        let ghost listed0 = name_views(recent@);
        let mut k: usize = 0;
        while k < names.len()
            invariant
                k <= names@.len(),
                nv == name_views(names@),
                name_views(recent@) == appended_names(listed0, nv.take(k as int)),
            decreases names.len() - k,
        {
            proof {
                assert(nv.take(k as int + 1).drop_last() =~= nv.take(k as int));
                assert(nv.take(k as int + 1).last() == names@[k as int]@);
            }
            let ghost before = recent@;
            if !names_have(&recent, names[k].as_str()) {
                recent.push(names[k].clone());
                assert(name_views(recent@) =~= name_views(before).push(names@[k as int]@));
            }
            k = k + 1;
        }
        assert(nv.take(nv.len() as int) =~= nv);
        // The protected project first.
        let ghost listed = name_views(recent@);
        match protected_name {
            Some(p) => {
                if names_have(&names, p) {
                    let mut rest = without_name(recent, p);
                    rest.insert(0, p.to_owned());
                    assert(name_views(rest@) =~= mru_order(listed, p@));
                    recent = rest;
                }
            },
            None => {},
        }
        let ghost ordered = name_views(recent@);
        recent.truncate(MAX_RECENT_PROJECTS);
        assert(name_views(recent@) =~= if ordered.len() > MAX_RECENT_PROJECTS { ordered.take(MAX_RECENT_PROJECTS as int) } else { ordered });
        let ghost rv = name_views(recent@);
        // Forget the projects beyond the recent list.
        let ghost cv = entry_views(canonical@);
        let ghost keep_fn = |e: (Seq<char>, ProjectBinding)| rv.contains(e.0);
        let mut kept: Vec<(String, ProjectBinding)> = Vec::new();
        let mut m: usize = 0;
        while m < canonical.len()
            invariant
                m <= canonical@.len(),
                cv == entry_views(canonical@),
                rv == name_views(recent@),
                keep_fn == (|e: (Seq<char>, ProjectBinding)| rv.contains(e.0)),
                entry_views(kept@) == kept_entries(cv.take(m as int), keep_fn),
            decreases canonical.len() - m,
        {
            let (name, binding) = &canonical[m];
            proof {
                assert(cv.take(m as int + 1).drop_last() =~= cv.take(m as int));
                assert(cv.take(m as int + 1).last() == (name@, *binding));
            }
            let ghost before = kept@;
            if names_have(&recent, name.as_str()) {
                kept.push((name.clone(), binding.clone()));
                assert(entry_views(kept@) =~= entry_views(before).push((name@, *binding)));
            }
            m = m + 1;
        }
        assert(cv.take(cv.len() as int) =~= cv);
        // The names forgotten.
        let all_names = entry_name_list(&self.projects);
        let ghost av = name_views(all_names@);
        let mut evicted: Vec<String> = Vec::new();
        let mut q: usize = 0;
        while q < all_names.len()
            invariant
                q <= all_names@.len(),
                av == name_views(all_names@),
                rv == name_views(recent@),
                name_views(evicted@) == dropped_names(av.take(q as int), rv),
            decreases all_names.len() - q,
        {
            proof {
                assert(av.take(q as int + 1).drop_last() =~= av.take(q as int));
                assert(av.take(q as int + 1).last() == all_names@[q as int]@);
            }
            let ghost before = evicted@;
            if !names_have(&recent, all_names[q].as_str()) && !names_have(&evicted, all_names[q].as_str()) {
                evicted.push(all_names[q].clone());
                assert(name_views(evicted@) =~= name_views(before).push(all_names@[q as int]@));
            }
            q = q + 1;
        }
        assert(av.take(av.len() as int) =~= av);
        self.projects = kept;
        self.recent_projects = recent;
        evicted
    }
}

/// The project a saved configuration reopens: its last project when that
/// name is valid and not the untitled project.
pub fn active_project_name(last_project_name: Option<&str>) -> (r: Option<String>)
    ensures
        match last_project_name {
            None => r is None,
            Some(n) => match spec_normalize_project_name(n@) {
                Ok(t) => if t == "untitled"@ { r is None } else { r matches Some(s) && s@ == t },
                Err(_) => r is None,
            },
        },
{
    proof { reveal_strlit("untitled"); }
    match last_project_name {
        None => None,
        Some(n) => match normalize_project_name(n) {
            Ok(t) => if str_eq(t.as_str(), "untitled") { None } else { Some(t) },
            Err(_) => None,
        },
    }
}

proof fn lemma_push_no_dup(s: Seq<Seq<char>>, x: Seq<char>)
    requires
        s.no_duplicates(),
        !s.contains(x),
    ensures
        s.push(x).no_duplicates(),
{
    let t = s.push(x);
    assert forall|i: int, j: int| 0 <= i < t.len() && 0 <= j < t.len() && i != j implies t[i] != t[j] by {
        if i < s.len() && j < s.len() {
            assert(t[i] == s[i] && t[j] == s[j]);
        } else if i < s.len() {
            assert(t[i] == s[i] && t[j] == x);
        } else {
            assert(t[j] == s[j] && t[i] == x);
        }
    }
}

proof fn lemma_kept_recent(recent: Seq<Seq<char>>, names: Seq<Seq<char>>)
    ensures
        kept_recent(recent, names).no_duplicates(),
        forall|n: Seq<char>| kept_recent(recent, names).contains(n) ==> names.contains(n),
    decreases recent.len(),
{
    if recent.len() > 0 {
        lemma_kept_recent(recent.drop_last(), names);
        let prev = kept_recent(recent.drop_last(), names);
        let x = recent.last();
        if names.contains(x) && !prev.contains(x) {
            lemma_push_no_dup(prev, x);
            assert forall|n: Seq<char>| prev.push(x).contains(n) implies names.contains(n) by {
                let k = choose|k: int| 0 <= k < prev.push(x).len() && prev.push(x)[k] == n;
                if k < prev.len() {
                    assert(prev[k] == n);
                    assert(prev.contains(n));
                }
            }
        }
    }
}

proof fn lemma_appended_names(base: Seq<Seq<char>>, extra: Seq<Seq<char>>)
    requires
        base.no_duplicates(),
    ensures
        appended_names(base, extra).no_duplicates(),
        forall|n: Seq<char>| appended_names(base, extra).contains(n) <==> (base.contains(n) || extra.contains(n)),
    decreases extra.len(),
{
    if extra.len() > 0 {
        let init = extra.drop_last();
        lemma_appended_names(base, init);
        let prev = appended_names(base, init);
        let x = extra.last();
        assert forall|n: Seq<char>| extra.contains(n) <==> (init.contains(n) || n == x) by {
            if extra.contains(n) {
                let k = choose|k: int| 0 <= k < extra.len() && extra[k] == n;
                if k < init.len() {
                    assert(init[k] == n);
                }
            }
            if init.contains(n) {
                let k = choose|k: int| 0 <= k < init.len() && init[k] == n;
                assert(extra[k] == n);
            }
            if n == x {
                assert(extra[extra.len() - 1] == n);
            }
        }
        if !prev.contains(x) {
            lemma_push_no_dup(prev, x);
            assert forall|n: Seq<char>| prev.push(x).contains(n) <==> (prev.contains(n) || n == x) by {
                if prev.push(x).contains(n) {
                    let k = choose|k: int| 0 <= k < prev.push(x).len() && prev.push(x)[k] == n;
                    if k < prev.len() {
                        assert(prev[k] == n);
                    }
                }
                if prev.contains(n) {
                    let k = choose|k: int| 0 <= k < prev.len() && prev[k] == n;
                    assert(prev.push(x)[k] == n);
                }
                if n == x {
                    assert(prev.push(x)[prev.len() as int] == n);
                }
            }
        }
    }
}

proof fn lemma_filter_other(s: Seq<Seq<char>>, p: Seq<char>)
    requires
        s.no_duplicates(),
    ensures
        s.filter(other_name(p)).no_duplicates(),
        forall|n: Seq<char>| s.filter(other_name(p)).contains(n) <==> (s.contains(n) && n != p),
    decreases s.len(),
{
    let f = other_name(p);
    if s.len() == 0 {
        assert(s.filter(f) =~= Seq::<Seq<char>>::empty()) by {
            reveal(Seq::filter);
        }
    } else {
        let init = s.drop_last();
        let x = s.last();
        assert(init.no_duplicates()) by {
            assert forall|i: int, j: int| 0 <= i < init.len() && 0 <= j < init.len() && i != j implies init[i] != init[j] by {
                assert(init[i] == s[i] && init[j] == s[j]);
            }
        }
        lemma_filter_other(init, p);
        assert(s =~= init.push(x));
        init.lemma_filter_push(x, f);
        let prev = init.filter(f);
        assert(!init.contains(x)) by {
            if init.contains(x) {
                let k = choose|k: int| 0 <= k < init.len() && init[k] == x;
                assert(s[k] == s[s.len() - 1]);
            }
        }
        assert forall|n: Seq<char>| s.contains(n) <==> (init.contains(n) || n == x) by {
            if s.contains(n) {
                let k = choose|k: int| 0 <= k < s.len() && s[k] == n;
                if k < init.len() {
                    assert(init[k] == n);
                }
            }
            if init.contains(n) {
                let k = choose|k: int| 0 <= k < init.len() && init[k] == n;
                assert(s[k] == n);
            }
            if n == x {
                assert(s[s.len() - 1] == n);
            }
        }
        if f(x) {
            assert(!prev.contains(x));
            lemma_push_no_dup(prev, x);
            assert forall|n: Seq<char>| prev.push(x).contains(n) <==> (prev.contains(n) || n == x) by {
                if prev.push(x).contains(n) {
                    let k = choose|k: int| 0 <= k < prev.push(x).len() && prev.push(x)[k] == n;
                    if k < prev.len() {
                        assert(prev[k] == n);
                    }
                }
                if prev.contains(n) {
                    let k = choose|k: int| 0 <= k < prev.len() && prev[k] == n;
                    assert(prev.push(x)[k] == n);
                }
                if n == x {
                    assert(prev.push(x)[prev.len() as int] == n);
                }
            }
        }
    }
}

/// A loaded registry is consistent: its recent list names each project
/// at most once, holds at most `MAX_RECENT_PROJECTS` names, names only
/// registered projects with valid names, and starts with the protected
/// project when that one is registered.
pub proof fn law_sanitized_registry_consistent(entries: Seq<(Seq<char>, ProjectBinding)>, recent: Seq<Seq<char>>,
    protected: Option<Seq<char>>)
    ensures
        ({
            let names = entry_names(kept_entries(entries, |e: (Seq<char>, ProjectBinding)| canonical_entry(e)));
            let r = sanitized_recent(entries, recent, protected);
            &&& r.len() <= MAX_RECENT_PROJECTS
            &&& r.no_duplicates()
            &&& forall|n: Seq<char>| r.contains(n) ==> names.contains(n)
            &&& protected matches Some(p) ==> (names.contains(p) ==> r.len() > 0 && r[0] == p)
        }),
{
    let names = entry_names(kept_entries(entries, |e: (Seq<char>, ProjectBinding)| canonical_entry(e)));
    let kept = kept_recent(recent, names);
    lemma_kept_recent(recent, names);
    lemma_appended_names(kept, names);
    let listed = appended_names(kept, names);
    let ordered = match protected {
        Some(n) => if names.contains(n) { mru_order(listed, n) } else { listed },
        None => listed,
    };
    assert(ordered.no_duplicates() && forall|n: Seq<char>| ordered.contains(n) ==> names.contains(n)) by {
        match protected {
            Some(p) => if names.contains(p) {
                lemma_filter_other(listed, p);
                let rest = listed.filter(other_name(p));
                assert(ordered =~= seq![p] + rest);
                assert forall|i: int, j: int| 0 <= i < ordered.len() && 0 <= j < ordered.len() && i != j
                    implies ordered[i] != ordered[j] by {
                    if i > 0 && j > 0 {
                        assert(ordered[i] == rest[i - 1] && ordered[j] == rest[j - 1]);
                    } else if i == 0 {
                        assert(ordered[j] == rest[j - 1]);
                        assert(rest.contains(rest[j - 1]));
                    } else {
                        assert(ordered[i] == rest[i - 1]);
                        assert(rest.contains(rest[i - 1]));
                    }
                }
                assert forall|n: Seq<char>| ordered.contains(n) implies names.contains(n) by {
                    let k = choose|k: int| 0 <= k < ordered.len() && ordered[k] == n;
                    if k > 0 {
                        assert(ordered[k] == rest[k - 1]);
                        assert(rest.contains(n));
                    }
                }
            },
            None => {},
        }
    }
    let r = sanitized_recent(entries, recent, protected);
    if ordered.len() > MAX_RECENT_PROJECTS {
        let t = ordered.take(MAX_RECENT_PROJECTS as int);
        assert(r == t);
        assert forall|i: int, j: int| 0 <= i < t.len() && 0 <= j < t.len() && i != j implies t[i] != t[j] by {
            assert(t[i] == ordered[i] && t[j] == ordered[j]);
        }
        assert forall|n: Seq<char>| t.contains(n) implies names.contains(n) by {
            let k = choose|k: int| 0 <= k < t.len() && t[k] == n;
            assert(ordered[k] == n);
            assert(ordered.contains(n));
        }
    }
}


/// What the host does when the connected firmware names its project.
#[derive(Debug, Clone, PartialEq, Eq)]
pub struct FirmwareProjectPlan {
    /// Bind the open local project to the firmware's project, verified.
    pub bind_local: bool,
    /// The project whose workspace becomes active.
    pub activate: Option<String>,
    /// Look for a verified local project bound to the firmware's project.
    pub find_bound_local: bool,
    /// Offer to migrate the legacy workspace.
    pub offer_migration: bool,
    /// Refresh the build metadata of the open local project.
    pub refresh_local: bool,
}

/// The plan for firmware reporting `device_name`: with a local project
/// open, bind it when it names the same (titled) project and refresh its
/// metadata; otherwise switch to the firmware's project when another one
/// is active and, for a titled project, look for a verified binding. A
/// pending legacy migration is offered for a titled project that is bound
/// or looked up.
pub fn firmware_project_plan(
    device_name: &str,
    local_name: Option<&str>,
    active_name: Option<&str>,
    migration_pending: bool,
) -> (r: FirmwareProjectPlan)
    ensures
        ({
            let titled = device_name@ != UNTITLED_PROJECT@;
            match local_name {
                Some(l) => {
                    let matches = l@ == device_name@ && titled;
                    &&& r.bind_local == matches
                    &&& r.activate is None
                    &&& !r.find_bound_local
                    &&& r.offer_migration == (matches && migration_pending)
                    &&& r.refresh_local
                },
                None => {
                    &&& !r.bind_local
                    &&& (match active_name {
                        Some(a) => if a@ == device_name@ { r.activate is None } else { r.activate matches Some(n) && n@ == device_name@ },
                        None => r.activate matches Some(n) && n@ == device_name@,
                    })
                    &&& r.find_bound_local == titled
                    &&& r.offer_migration == (titled && migration_pending)
                    &&& !r.refresh_local
                },
            }
        }),
{
    let titled = !str_eq(device_name, UNTITLED_PROJECT);
    match local_name {
        Some(l) => {
            let matches = str_eq(l, device_name) && titled;
            FirmwareProjectPlan {
                bind_local: matches,
                activate: None,
                find_bound_local: false,
                offer_migration: matches && migration_pending,
                refresh_local: true,
            }
        },
        None => {
            let same = match active_name {
                Some(a) => str_eq(a, device_name),
                None => false,
            };
            let activate = if same { None } else { Some(string_from_chars(chars_of(device_name).as_slice())) };
            FirmwareProjectPlan {
                bind_local: false,
                activate,
                find_bound_local: titled,
                offer_migration: titled && migration_pending,
                refresh_local: false,
            }
        },
    }
}

/// The binding that ties a project to the open local project, verified.
pub fn local_binding(local: &LocalProject) -> (r: ProjectBinding)
    ensures
        r.project_file == Some(local.project_file),
        r.verified,
        r.build_time_utc == local.build_time_utc,
        r.build_hash == local.build_hash,
{
    ProjectBinding {
        project_file: Some(local.project_file.clone()),
        verified: true,
        build_time_utc: local.build_time_utc,
        build_hash: local.build_hash,
    }
}


/// Name for what `PartialEq::eq` of `PathBuf` answers for two paths (it
/// compares them component by component, and depends on the two alone).
pub uninterp spec fn path_eq(a: std::path::PathBuf, b: std::path::PathBuf) -> bool;

/// Calls `PartialEq::eq` of `PathBuf`. The contract names the result, and
/// claims that a path compares equal to itself.
#[verifier::external_body]
fn paths_equal(a: &std::path::PathBuf, b: &std::path::PathBuf) -> (r: bool)
    ensures
        r == path_eq(*a, *b),
        *a == *b ==> r,
{
    a == b
}

/// How a local project picked by the user is taken in.
#[derive(Debug, Clone, Copy, PartialEq, Eq, Structural)]
pub enum LocalProjectChoice {
    /// The project is registered with another project file: the user
    /// confirms the new binding first.
    ConfirmRebind,
    /// The project is bound as it is.
    Accept,
}

/// A local project picked for the cached project `target` (when one is
/// being indexed): refused when it names another project; a titled project
/// registered with no project file, or with one that does not compare
/// equal to the picked one, needs confirmation; anything else is accepted.
pub fn choose_local_project(registry: &ProjectRegistry, project: &LocalProject, target: Option<&str>)
    -> (r: Result<LocalProjectChoice, String>)
    ensures
        (target matches Some(t) && t@ != project.name@) ==> (r matches Err(m)
            && m@ == "Cannot bind CCS project "@ + project.name@ + " to cached project "@ + target->0@),
        !(target matches Some(t) && t@ != project.name@) ==> r == Ok::<LocalProjectChoice, String>(
            if project.name@ == UNTITLED_PROJECT@ {
                LocalProjectChoice::Accept
            } else {
                match first_binding(registry.projects@, project.name@) {
                    None => LocalProjectChoice::Accept,
                    Some(b) => match b.project_file {
                        None => LocalProjectChoice::ConfirmRebind,
                        Some(f) => if path_eq(f, project.project_file) {
                            LocalProjectChoice::Accept
                        } else {
                            LocalProjectChoice::ConfirmRebind
                        },
                    },
                }
            }),
{
    if let Some(t) = target {
        if !str_eq(t, project.name.as_str()) {
            let mut message = String::new();
            push_str(&mut message, "Cannot bind CCS project ");
            push_str(&mut message, project.name.as_str());
            push_str(&mut message, " to cached project ");
            push_str(&mut message, t);
            return Err(message);
        }
    }
    if str_eq(project.name.as_str(), UNTITLED_PROJECT) {
        return Ok(LocalProjectChoice::Accept);
    }
    match find_binding(&registry.projects, project.name.as_str()) {
        None => Ok(LocalProjectChoice::Accept),
        Some(i) => match &registry.projects[i].1.project_file {
            None => Ok(LocalProjectChoice::ConfirmRebind),
            Some(file) => if paths_equal(file, &project.project_file) {
                Ok(LocalProjectChoice::Accept)
            } else {
                Ok(LocalProjectChoice::ConfirmRebind)
            },
        },
    }
}

impl ProjectRegistry {
    /// Binds an accepted local project (the untitled project is never
    /// bound): to its project file, with its build identity, verified when
    /// the connected firmware names it or when its existing verified
    /// binding holds a file that compares equal. Returns whether it was
    /// verified.
    pub fn accept_local(&mut self, project: &LocalProject, device_project: Option<&str>) -> (verified: bool)
        requires
            old(self).wf(),
        ensures
            project.name@ == UNTITLED_PROJECT@ ==> !verified
                && entry_views(final(self).projects@) == entry_views(old(self).projects@),
            project.name@ != UNTITLED_PROJECT@ ==> {
                let binding = ProjectBinding {
                    project_file: Some(project.project_file),
                    verified,
                    build_time_utc: project.build_time_utc,
                    build_hash: project.build_hash,
                };
                let device_match = device_project matches Some(d) && d@ == project.name@;
                let existing = first_binding(old(self).projects@, project.name@);
                &&& verified == (device_match || (existing matches Some(b) && b.verified
                    && (b.project_file matches Some(f) && path_eq(f, project.project_file))))
                &&& project_names(old(self).projects@).contains(project.name@) ==> entry_views(final(self).projects@)
                    == entry_views(old(self).projects@).map_values(bound_as(project.name@, binding))
                &&& !project_names(old(self).projects@).contains(project.name@) ==> entry_views(final(self).projects@)
                    == entry_views(old(self).projects@).push((project.name@, binding))
            },
            final(self).recent_projects@ == old(self).recent_projects@,
            final(self).format_version == old(self).format_version,
            final(self).wf(),
    {
        if str_eq(project.name.as_str(), UNTITLED_PROJECT) {
            return false;
        }
        let by_device = match device_project {
            Some(d) => str_eq(d, project.name.as_str()),
            None => false,
        };
        let by_binding = match find_binding(&self.projects, project.name.as_str()) {
            None => false,
            Some(i) => {
                let existing = &self.projects[i].1;
                existing.verified && match &existing.project_file {
                    Some(file) => paths_equal(file, &project.project_file),
                    None => false,
                }
            },
        };
        let verified = by_device || by_binding;
        let binding = ProjectBinding {
            project_file: Some(project.project_file.clone()),
            verified,
            build_time_utc: project.build_time_utc,
            build_hash: project.build_hash,
        };
        self.bind(project.name.as_str(), binding);
        verified
    }
}


/// Whether a recent project can be opened.
#[derive(Debug, Clone, PartialEq, Eq)]
pub enum RecentOpen {
    /// The project is not registered: nothing happens.
    NotRegistered,
    /// The firmware of another project is connected and the project has no
    /// local files: the message says why it is not opened.
    Refused(String),
    /// The project is opened.
    Open,
}

/// Opening the registered project `name`, given the project the connected
/// firmware names and whether a local project bound to `name` was found.
pub fn check_open_recent(registry: &ProjectRegistry, name: &str, device_project: Option<&str>, local_found: bool)
    -> (r: RecentOpen)
    ensures
        !project_names(registry.projects@).contains(name@) ==> r == RecentOpen::NotRegistered,
        project_names(registry.projects@).contains(name@) ==> match device_project {
            Some(d) => if d@ != name@ && !local_found {
                r matches RecentOpen::Refused(m) && m@ == "Cannot open firmware-only cache "@ + name@
                    + " while connected to "@ + d@
            } else {
                r == RecentOpen::Open
            },
            None => r == RecentOpen::Open,
        },
{
    if !has_project(&registry.projects, name) {
        return RecentOpen::NotRegistered;
    }
    match device_project {
        Some(d) => {
            if !str_eq(d, name) && !local_found {
                let mut m = String::new();
                push_str(&mut m, "Cannot open firmware-only cache ");
                push_str(&mut m, name);
                push_str(&mut m, " while connected to ");
                push_str(&mut m, d);
                RecentOpen::Refused(m)
            } else {
                RecentOpen::Open
            }
        },
        None => RecentOpen::Open,
    }
}

/// The project that stays active after the active project's cache is
/// deleted: the connected firmware's project, unless it is untitled.
pub fn active_after_delete(device_project: Option<&str>) -> (r: Option<String>)
    ensures
        match device_project {
            Some(d) => if d@ == UNTITLED_PROJECT@ { r is None } else { r matches Some(n) && n@ == d@ },
            None => r is None,
        },
{
    match device_project {
        Some(d) => if str_eq(d, UNTITLED_PROJECT) { None } else { Some(string_from_chars(chars_of(d).as_slice())) },
        None => None,
    }
}

/// Whether the firmware's disconnection leaves nothing to show: the
/// untitled project was active without local files.
pub fn leaves_untitled_project(active_name: Option<&str>, local_open: bool) -> (r: bool)
    ensures
        r == (active_name matches Some(a) && a@ == UNTITLED_PROJECT@ && !local_open),
{
    match active_name {
        Some(a) => str_eq(a, UNTITLED_PROJECT) && !local_open,
        None => false,
    }
}


/// Every project is registered once: no two entries share a name.
pub open spec fn names_unique(entries: Seq<(Seq<char>, ProjectBinding)>) -> bool {
    entry_names(entries).no_duplicates()
}

proof fn lemma_unique_push(s: Seq<(Seq<char>, ProjectBinding)>, x: (Seq<char>, ProjectBinding))
    requires
        names_unique(s),
        !entry_names(s).contains(x.0),
    ensures
        names_unique(s.push(x)),
{
    let n = entry_names(s.push(x));
    assert(n =~= entry_names(s).push(x.0));
    assert forall|i: int, j: int| 0 <= i < n.len() && 0 <= j < n.len() && i != j implies n[i] != n[j] by {
        if i < s.len() && j < s.len() {
            assert(n[i] == entry_names(s)[i] && n[j] == entry_names(s)[j]);
        } else if i < s.len() {
            assert(n[i] == entry_names(s)[i]);
        } else if j < s.len() {
            assert(n[j] == entry_names(s)[j]);
        }
    }
}

proof fn lemma_unique_filter(s: Seq<(Seq<char>, ProjectBinding)>, p: spec_fn((Seq<char>, ProjectBinding)) -> bool)
    ensures
        forall|n: Seq<char>| entry_names(s.filter(p)).contains(n) ==> entry_names(s).contains(n),
        names_unique(s) ==> names_unique(s.filter(p)),
    decreases s.len(),
{
    if s.len() == 0 {
        assert(s.filter(p) =~= s) by {
            reveal(Seq::filter);
        }
    } else {
        let t = s.drop_last();
        let x = s.last();
        lemma_unique_filter(t, p);
        assert(s =~= t.push(x));
        t.lemma_filter_push(x, p);
        assert(entry_names(s) =~= entry_names(t).push(x.0));
        if p(x) {
            assert(entry_names(s.filter(p)) =~= entry_names(t.filter(p)).push(x.0));
        } else {
            assert(entry_names(s.filter(p)) =~= entry_names(t.filter(p)));
        }
        assert forall|n: Seq<char>| entry_names(s.filter(p)).contains(n) implies entry_names(s).contains(n) by {
            if entry_names(t.filter(p)).contains(n) {
                assert(entry_names(t).contains(n));
                let i = choose|i: int| 0 <= i < entry_names(t).len() && entry_names(t)[i] == n;
                assert(entry_names(s)[i] == n);
            } else {
                assert(entry_names(s)[t.len() as int] == n);
            }
        }
        if names_unique(s) {
            assert(names_unique(t)) by {
                let nt = entry_names(t);
                assert forall|i: int, j: int| 0 <= i < nt.len() && 0 <= j < nt.len() && i != j implies nt[i] != nt[j] by {
                    assert(nt[i] == entry_names(s)[i] && nt[j] == entry_names(s)[j]);
                }
            }
            if p(x) {
                assert(!entry_names(t.filter(p)).contains(x.0)) by {
                    if entry_names(t.filter(p)).contains(x.0) {
                        assert(entry_names(t).contains(x.0));
                        let i = choose|i: int| 0 <= i < entry_names(t).len() && entry_names(t)[i] == x.0;
                        assert(entry_names(s)[i] == entry_names(s)[t.len() as int]);
                    }
                }
                lemma_unique_push(t.filter(p), x);
            }
        }
    }
}

proof fn lemma_unique_map_same_names(s: Seq<(Seq<char>, ProjectBinding)>,
    f: spec_fn((Seq<char>, ProjectBinding)) -> (Seq<char>, ProjectBinding))
    requires
        forall|e: (Seq<char>, ProjectBinding)| (#[trigger] f(e)).0 == e.0,
    ensures
        entry_names(s.map_values(f)) == entry_names(s),
{
    assert(entry_names(s.map_values(f)) =~= entry_names(s));
}

proof fn lemma_touched_unique(entries: Seq<(Seq<char>, ProjectBinding)>, name: Seq<char>, evicted: Seq<Seq<char>>)
    ensures
        names_unique(entries) ==> names_unique(touched_entries(entries, name).filter(kept_entry(evicted))),
{
    if names_unique(entries) {
        let t = touched_entries(entries, name);
        if !entries.map_values(|e: (Seq<char>, ProjectBinding)| e.0).contains(name) {
            assert(entry_names(entries) =~= entries.map_values(|e: (Seq<char>, ProjectBinding)| e.0));
            lemma_unique_push(entries, (name, cleared_binding()));
        }
        lemma_unique_filter(t, kept_entry(evicted));
    }
}

proof fn lemma_unique_kept(s: Seq<(Seq<char>, ProjectBinding)>, keep: spec_fn((Seq<char>, ProjectBinding)) -> bool)
    ensures
        forall|n: Seq<char>| entry_names(kept_entries(s, keep)).contains(n) ==> entry_names(s).contains(n),
        names_unique(s) ==> names_unique(kept_entries(s, keep)),
    decreases s.len(),
{
    if s.len() > 0 {
        let t = s.drop_last();
        let x = s.last();
        lemma_unique_kept(t, keep);
        let k = kept_entries(t, keep);
        assert(entry_names(s) =~= entry_names(t).push(x.0));
        if keep(x) {
            assert(entry_names(kept_entries(s, keep)) =~= entry_names(k).push(x.0));
        } else {
            assert(entry_names(kept_entries(s, keep)) =~= entry_names(k));
        }
        assert forall|n: Seq<char>| entry_names(kept_entries(s, keep)).contains(n) implies entry_names(s).contains(n) by {
            if entry_names(k).contains(n) {
                assert(entry_names(t).contains(n));
                let i = choose|i: int| 0 <= i < entry_names(t).len() && entry_names(t)[i] == n;
                assert(entry_names(s)[i] == n);
            } else {
                assert(entry_names(s)[t.len() as int] == n);
            }
        }
        if names_unique(s) {
            assert(names_unique(t)) by {
                let nt = entry_names(t);
                assert forall|i: int, j: int| 0 <= i < nt.len() && 0 <= j < nt.len() && i != j implies nt[i] != nt[j] by {
                    assert(nt[i] == entry_names(s)[i] && nt[j] == entry_names(s)[j]);
                }
            }
            if keep(x) {
                assert(!entry_names(k).contains(x.0)) by {
                    if entry_names(k).contains(x.0) {
                        assert(entry_names(t).contains(x.0));
                        let i = choose|i: int| 0 <= i < entry_names(t).len() && entry_names(t)[i] == x.0;
                        assert(entry_names(s)[i] == entry_names(s)[t.len() as int]);
                    }
                }
                lemma_unique_push(k, x);
            }
        }
    }
}

/// Name for `str::to_lowercase`: the Unicode lowercase mapping of a text,
/// which depends on the text alone.
pub uninterp spec fn unicode_lowercase(text: Seq<char>) -> Seq<char>;

/// Calls `str::to_lowercase`. The contract names the result.
#[verifier::external_body]
fn lowercase(text: &str) -> (r: String)
    ensures
        r@ == unicode_lowercase(text@),
{
    text.to_lowercase()
}

/// Whether `needle` occurs in `hay`.
pub open spec fn occurs_in(hay: Seq<char>, needle: Seq<char>) -> bool {
    exists|i: int| 0 <= i && i + needle.len() <= hay.len() && #[trigger] hay.subrange(i, i + needle.len()) == needle
}

/// Whether `needle` occurs in `hay` (as `str::contains`).
pub fn contains_text(hay: &str, needle: &str) -> (r: bool)
    ensures
        r == occurs_in(hay@, needle@),
{
    let h = chars_of(hay);
    let n = chars_of(needle);
    if n.len() > h.len() {
        assert(!occurs_in(hay@, needle@));
        return false;
    }
    let mut i: usize = 0;
    let last = h.len() - n.len();
    while i <= last
        invariant
            h@ == hay@,
            n@ == needle@,
            n.len() <= h.len(),
            last == h.len() - n.len(),
            i <= last + 1,
            forall|k: int| 0 <= k < i ==> #[trigger] h@.subrange(k, k + n@.len()) != n@,
        decreases h.len() - i,
    {
        let mut j: usize = 0;
        while j < n.len() && h[i + j] == n[j]
            invariant
                i + n.len() <= h.len(),
                j <= n@.len(),
                forall|m: int| 0 <= m < j ==> h@[i + m] == n@[m],
            decreases n.len() - j,
        {
            j = j + 1;
        }
        if j == n.len() {
            assert(h@.subrange(i as int, i + n@.len()) =~= n@);
            return true;
        }
        assert(h@.subrange(i as int, i + n@.len())[j as int] != n@[j as int]);
        i = i + 1;
    }
    assert(!occurs_in(hay@, needle@));
    false
}

/// Whether a registered project shows in the project manager under the
/// search text: always for an empty search, else when the lowercase
/// search occurs in the lowercase name or project-file text.
pub fn project_matches_search(search: &str, name: &str, path_text: &str) -> (r: bool)
    ensures
        ({
            let f = unicode_lowercase(search@);
            r == (f.len() == 0 || occurs_in(unicode_lowercase(name@), f) || occurs_in(unicode_lowercase(path_text@), f))
        }),
{
    let filter = lowercase(search);
    if filter.as_str().is_empty() {
        return true;
    }
    let n = lowercase(name);
    if contains_text(n.as_str(), filter.as_str()) {
        return true;
    }
    let p = lowercase(path_text);
    contains_text(p.as_str(), filter.as_str())
}

} // verus!
