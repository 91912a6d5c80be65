//! Data model of the validated workspace specification: named remotes,
//! encryption settings, sync paths, environment-scoped volumes and the
//! workspace-level defaults that the planner cascades from.

use vstd::prelude::*;

verus! {

/// Filename encryption mode of a crypt remote.
#[derive(Debug, Clone, Copy, PartialEq, Eq, Structural)]
pub enum FilenameEncryption {
    /// Full filename encryption.
    Standard,
    /// Lightweight rotation-based obfuscation.
    Obfuscate,
    /// Names stay visible.
    Off,
}

impl FilenameEncryption {
    /// The lowercase name of the mode, as the external tool expects it.
    pub open spec fn spec_str(self) -> Seq<char> {
        match self {
            FilenameEncryption::Standard => "standard"@,
            FilenameEncryption::Obfuscate => "obfuscate"@,
            FilenameEncryption::Off => "off"@,
        }
    }

    /// Render the mode as its lowercase option value.
    pub fn as_str(&self) -> (r: &'static str)
        ensures
            r@ == self.spec_str(),
    {
        match self {
            FilenameEncryption::Standard => "standard",
            FilenameEncryption::Obfuscate => "obfuscate",
            FilenameEncryption::Off => "off",
        }
    }
}

impl Default for FilenameEncryption {
    fn default() -> (r: Self)
        ensures
            r == FilenameEncryption::Standard,
    {
        FilenameEncryption::Standard
    }
}

/// Encryption configuration of a crypt remote. Passwords are named by the
/// environment variables holding them, never stored.
#[derive(Debug)]
pub struct CryptConfig {
    /// Environment variable containing the encryption password.
    pub password_env: String,
    /// Environment variable containing the salt, if any.
    pub password2_env: Option<String>,
    /// Filename encryption mode.
    pub filename_encryption: FilenameEncryption,
    /// Whether directory names are encrypted as well.
    pub directory_name_encryption: bool,
}

/// Clone an optional string, keeping its view.
pub fn clone_opt_string(o: &Option<String>) -> (r: Option<String>)
    ensures
        r == *o,
{
    match o {
        Option::None => Option::None,
        Option::Some(s) => Option::Some(s.clone()),
    }
}

/// Clone a vector of strings, keeping its view.
pub fn clone_strings(v: &Vec<String>) -> (r: Vec<String>)
    ensures
        r@ == v@,
{
    let n: usize = v.len();
    let mut r: Vec<String> = Vec::new();
    let mut i: usize = 0;
    while i < n
        invariant
            n == v@.len(),
            i <= n,
            r@ == v@.subrange(0, i as int),
        decreases n - i,
    {
        r.push(v[i].clone());
        i = i + 1;
        proof {
            assert(r@ =~= v@.subrange(0, i as int));
        }
    }
    proof {
        assert(r@ =~= v@);
    }
    r
}

impl Clone for CryptConfig {
    fn clone(&self) -> (r: Self)
        ensures
            r == *self,
    {
        CryptConfig {
            password_env: self.password_env.clone(),
            password2_env: clone_opt_string(&self.password2_env),
            filename_encryption: self.filename_encryption,
            directory_name_encryption: self.directory_name_encryption,
        }
    }
}

/// One backend-specific option of a remote: a key/value pair.
#[derive(Debug)]
pub struct RemoteOption {
    /// Option key, emitted verbatim.
    pub key: String,
    /// Option value, subject to expansion and quoting.
    pub value: String,
}

impl Clone for RemoteOption {
    fn clone(&self) -> (r: Self)
        ensures
            r == *self,
    {
        RemoteOption { key: self.key.clone(), value: self.value.clone() }
    }
}

/// Clone a vector of remote options, keeping its view.
pub fn clone_options(v: &Vec<RemoteOption>) -> (r: Vec<RemoteOption>)
    ensures
        r@ == v@,
{
    let n: usize = v.len();
    let mut r: Vec<RemoteOption> = Vec::new();
    let mut i: usize = 0;
    while i < n
        invariant
            n == v@.len(),
            i <= n,
            r@ == v@.subrange(0, i as int),
        decreases n - i,
    {
        r.push(v[i].clone());
        i = i + 1;
        proof {
            assert(r@ =~= v@.subrange(0, i as int));
        }
    }
    proof {
        assert(r@ =~= v@);
    }
    r
}

/// A named remote configuration: either a direct backend (`s3`, `gcs`,
/// ...) or a `crypt` wrapper around another named remote.
#[derive(Debug)]
pub struct RemoteConfig {
    /// Backend type tag: "s3", "gcs", "crypt", ...
    pub remote_type: String,
    /// Bucket name, for bucket-based backends.
    pub bucket: Option<String>,
    /// Path prefix prepended to every remote path using this remote.
    pub path_prefix: Option<String>,
    /// Backend-specific options, in ascending key order when taken from a
    /// named-remote mapping.
    pub options: Vec<RemoteOption>,
    /// Name of the wrapped remote, for crypt remotes.
    pub wrap_remote: Option<String>,
    /// Path within the wrapped remote, for crypt remotes.
    pub wrap_path: Option<String>,
    /// Encryption configuration, for crypt remotes.
    pub crypt: Option<CryptConfig>,
}

/// Clone an optional crypt configuration, keeping its value.
pub fn clone_opt_crypt(o: &Option<CryptConfig>) -> (r: Option<CryptConfig>)
    ensures
        r == *o,
{
    match o {
        Option::None => Option::None,
        Option::Some(c) => Option::Some(c.clone()),
    }
}

/// Two remote configurations agree on every field; the option list is
/// compared element by element.
pub open spec fn remote_config_eqv(a: RemoteConfig, b: RemoteConfig) -> bool {
    &&& a.remote_type == b.remote_type
    &&& a.bucket == b.bucket
    &&& a.path_prefix == b.path_prefix
    &&& a.options@ == b.options@
    &&& a.wrap_remote == b.wrap_remote
    &&& a.wrap_path == b.wrap_path
    &&& a.crypt == b.crypt
}

impl Clone for RemoteConfig {
    fn clone(&self) -> (r: Self)
        ensures
            remote_config_eqv(r, *self),
    {
        RemoteConfig {
            remote_type: self.remote_type.clone(),
            bucket: clone_opt_string(&self.bucket),
            path_prefix: clone_opt_string(&self.path_prefix),
            options: clone_options(&self.options),
            wrap_remote: clone_opt_string(&self.wrap_remote),
            wrap_path: clone_opt_string(&self.wrap_path),
            crypt: clone_opt_crypt(&self.crypt),
        }
    }
}

/// One entry of the named-remote mapping: a unique name and its
/// configuration. Lookup takes the first entry with a matching name.
#[derive(Debug)]
pub struct RemoteEntry {
    /// Remote name, referenced by sync paths and crypt wrappers.
    pub name: String,
    /// The remote's configuration.
    pub config: RemoteConfig,
}

impl Clone for RemoteEntry {
    fn clone(&self) -> (r: Self)
        ensures
            r.name == self.name,
            remote_config_eqv(r.config, self.config),
    {
        RemoteEntry { name: self.name.clone(), config: self.config.clone() }
    }
}

/// Workspace-level default operation settings, inherited by sync paths.
#[derive(Debug)]
pub struct SyncDefaults {
    /// Default number of parallel file transfers.
    pub transfers: Option<u32>,
    /// Default number of parallel checkers.
    pub checkers: Option<u32>,
    /// Default bandwidth limit, e.g. "10M".
    pub bwlimit: Option<String>,
}

impl Clone for SyncDefaults {
    fn clone(&self) -> (r: Self)
        ensures
            r == *self,
    {
        SyncDefaults {
            transfers: self.transfers,
            checkers: self.checkers,
            bwlimit: clone_opt_string(&self.bwlimit),
        }
    }
}

/// Direction of one sync action.
#[derive(Debug, Clone, Copy, PartialEq, Eq, Structural)]
pub enum SyncDirection {
    /// Two-way synchronization requiring a local baseline.
    Bidirectional,
    /// Remote-to-local only.
    PullOnly,
    /// Local-to-remote only.
    PushOnly,
}

impl Default for SyncDirection {
    fn default() -> (r: Self)
        ensures
            r == SyncDirection::Bidirectional,
    {
        SyncDirection::Bidirectional
    }
}

/// One declared sync path of the workspace.
#[derive(Debug)]
pub struct SyncPath {
    /// Unique name of the sync path.
    pub name: String,
    /// Local filesystem path to sync.
    pub path: String,
    /// Remote path template; may hold `{org}`, `{project}`, `{env}`.
    pub remote_path: String,
    /// Per-path override of the default remote.
    pub remote: Option<String>,
    /// Sync direction.
    pub direction: SyncDirection,
    /// Sync interval in seconds.
    pub interval: u64,
    /// Priority; lower sorts first.
    pub priority: u8,
    /// Glob patterns excluded from sync.
    pub exclude: Vec<String>,
    /// Per-path override of parallel transfers.
    pub transfers: Option<u32>,
    /// Per-path override of parallel checkers.
    pub checkers: Option<u32>,
    /// Per-path override of the bandwidth limit.
    pub bwlimit: Option<String>,
}

/// One environment-scoped volume entry.
#[derive(Debug)]
pub struct RcloneVolumeConfig {
    /// Unique name of the volume.
    pub name: String,
    /// Remote path template; may hold `{org}`, `{project}`, `{env}`.
    pub remote_path: String,
    /// Local mount path.
    pub mount_path: String,
    /// Sync direction.
    pub sync: SyncDirection,
    /// Sync interval in seconds.
    pub interval: u64,
    /// Priority; lower sorts first.
    pub priority: u8,
    /// Glob patterns excluded from sync.
    pub exclude: Vec<String>,
    /// Whether the volume is mounted read-only.
    pub read_only: bool,
}

/// Volumes grouped by scope; only the environment scope feeds the plan.
#[derive(Debug)]
pub struct MultiScopeVolumes {
    /// References to globally-scoped volumes.
    pub global_refs: Vec<String>,
    /// References to project-scoped volumes.
    pub project_refs: Vec<String>,
    /// Environment-scoped volume entries.
    pub environment: Vec<RcloneVolumeConfig>,
}

/// Persistence mode of the workspace.
#[derive(Debug, Clone, Copy, PartialEq, Eq, Structural)]
pub enum PersistenceMode {
    /// State lives on mounted volumes.
    Mounted,
    /// State is replicated through sync actions.
    Replicated,
}

/// Scope of persisted state.
#[derive(Debug, Clone, Copy, PartialEq, Eq, Structural)]
pub enum PersistenceScope {
    /// Shared across environments of a project.
    Project,
    /// Tied to one environment.
    Environment,
}

/// A mounted persistence location.
#[derive(Debug)]
pub struct PersistenceMount {
    /// Mount name.
    pub name: String,
    /// Target path inside the workspace.
    pub target: String,
    /// Source path.
    pub source: String,
    /// Mount kind, e.g. "symlink".
    pub mount_type: String,
}

/// Persistence section of the workspace specification.
#[derive(Debug)]
pub struct PersistenceSpec {
    /// Whether persistence is enabled at all.
    pub enabled: bool,
    /// Persistence mode.
    pub mode: PersistenceMode,
    /// Persistence scope.
    pub scope: PersistenceScope,
    /// Mounted persistence locations.
    pub mounts: Vec<PersistenceMount>,
    /// Named remote configurations, keyed by unique names.
    pub remotes: Vec<RemoteEntry>,
    /// Default remote name used when sync paths name none.
    pub default_remote: Option<String>,
    /// Default operation settings inherited by sync paths.
    pub defaults: Option<SyncDefaults>,
    /// Declared sync paths.
    pub sync: Vec<SyncPath>,
    /// Scoped volume entries.
    pub multi_scope_volumes: Option<MultiScopeVolumes>,
}

/// Workspace identity used for placeholder substitution.
#[derive(Debug)]
pub struct WorkspaceMetadata {
    /// Organization slug.
    pub org: String,
    /// Project slug.
    pub project: String,
    /// Environment, e.g. "dev" or "staging".
    pub environment: String,
    /// Free-form description.
    pub description: Option<String>,
    /// Free-form tags.
    pub tags: Vec<String>,
}

/// The validated workspace specification, reduced to the fields the
/// planning and execution engine reads.
#[derive(Debug)]
pub struct WorkspaceSpec {
    /// Workspace name; also names the state directory.
    pub name: String,
    /// Specification format version.
    pub version: String,
    /// Workspace identity.
    pub metadata: WorkspaceMetadata,
    /// Persistence section.
    pub persistence: PersistenceSpec,
}

/// Default mount kind of a persistence mount.
pub fn default_persistence_mount_type() -> (r: String)
    ensures
        r@ == "symlink"@,
{
    String::from_str("symlink")
}

/// Default backend type of a remote.
pub fn default_remote_type() -> (r: String)
    ensures
        r@ == "s3"@,
{
    String::from_str("s3")
}

/// Default of flags that are on unless disabled.
pub fn default_true() -> (r: bool)
    ensures
        r,
{
    true
}

/// Default sync interval in seconds.
pub fn default_sync_interval() -> (r: u64)
    ensures
        r == 300,
{
    300
}

/// Default priority of a sync path.
pub fn default_sync_priority() -> (r: u8)
    ensures
        r == 2,
{
    2
}

/// Default read-only flag of a secret mount.
pub fn default_read_only() -> (r: bool)
    ensures
        r,
{
    true
}

/// Default environment name.
pub fn default_environment() -> (r: String)
    ensures
        r@ == "dev"@,
{
    String::from_str("dev")
}

/// Default specification format version.
pub fn default_version() -> (r: String)
    ensures
        r@ == "1.0.0"@,
{
    String::from_str("1.0.0")
}

} // verus!
