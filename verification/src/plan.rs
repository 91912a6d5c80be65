//! Sync planning: a pure, deterministic transform from a validated
//! workspace specification into an ordered list of sync actions, with
//! placeholder substitution, recursive remote resolution (guarded against
//! cyclic wrap chains), operation-setting cascade and a stable priority
//! sort.

use vstd::prelude::*;

use crate::config::{
    RemoteConfig, RemoteEntry, RemoteOption, SyncDefaults, SyncDirection, SyncPath,
    WorkspaceSpec, clone_opt_string, clone_options, RcloneVolumeConfig,
};
use crate::text::{
    replace_seq, str_eq, str_to_chars, replace_chars, chars_to_string, occ_at,
    lemma_replace_append, lemma_replace_head, lemma_replace_unchanged,
};

verus! {

/// Resolved operation settings of one sync action.
#[derive(Debug)]
pub struct OperationSettings {
    /// Number of parallel file transfers, if set anywhere.
    pub transfers: Option<u32>,
    /// Number of parallel checkers, if set anywhere.
    pub checkers: Option<u32>,
    /// Bandwidth limit, if set anywhere.
    pub bwlimit: Option<String>,
}

impl Clone for OperationSettings {
    fn clone(&self) -> (r: Self)
        ensures
            r == *self,
    {
        OperationSettings {
            transfers: self.transfers,
            checkers: self.checkers,
            bwlimit: clone_opt_string(&self.bwlimit),
        }
    }
}

impl Default for OperationSettings {
    fn default() -> (r: Self)
        ensures
            r.transfers is None,
            r.checkers is None,
            r.bwlimit is None,
    {
        OperationSettings { transfers: Option::None, checkers: Option::None, bwlimit: Option::None }
    }
}

/// A fully materialized remote descriptor: a named remote with every
/// wrapped remote resolved in place, ready for connection-string
/// rendering.
#[derive(Debug)]
pub struct ResolvedRemote {
    /// Name of the remote, for state tracking.
    pub name: String,
    /// Backend type: "s3", "gcs", "crypt", ...
    pub remote_type: String,
    /// Bucket name, for bucket-based backends.
    pub bucket: Option<String>,
    /// Path prefix prepended to remote paths.
    pub path_prefix: Option<String>,
    /// Backend-specific options.
    pub options: Vec<RemoteOption>,
    /// The resolved wrapped remote, for crypt remotes.
    pub wrap_remote: Option<Box<ResolvedRemote>>,
    /// Path within the wrapped remote, for crypt remotes.
    pub wrap_path: Option<String>,
    /// Password environment variable name, for crypt remotes.
    pub password_env: Option<String>,
    /// Salt environment variable name, for crypt remotes.
    pub password2_env: Option<String>,
    /// Filename encryption mode, rendered lowercase, for crypt remotes.
    pub filename_encryption: Option<String>,
    /// Directory name encryption flag, for crypt remotes.
    pub directory_name_encryption: Option<bool>,
}

/// Two resolved remotes agree on every field; option lists are compared
/// element by element and wrapped remotes recursively.
pub open spec fn resolved_eqv(a: ResolvedRemote, b: ResolvedRemote) -> bool
    decreases a,
{
    &&& a.name == b.name
    &&& a.remote_type == b.remote_type
    &&& a.bucket == b.bucket
    &&& a.path_prefix == b.path_prefix
    &&& a.options@ == b.options@
    &&& match (a.wrap_remote, b.wrap_remote) {
        (Option::None, Option::None) => true,
        (Option::Some(x), Option::Some(y)) => resolved_eqv(*x, *y),
        _ => false,
    }
    &&& a.wrap_path == b.wrap_path
    &&& a.password_env == b.password_env
    &&& a.password2_env == b.password2_env
    &&& a.filename_encryption == b.filename_encryption
    &&& a.directory_name_encryption == b.directory_name_encryption
}

impl Clone for ResolvedRemote {
    fn clone(&self) -> (r: Self)
        ensures
            resolved_eqv(r, *self),
        decreases *self,
    {
        let wrap_remote: Option<Box<ResolvedRemote>> = match &self.wrap_remote {
            Option::None => Option::None,
            Option::Some(b) => Option::Some(Box::new((**b).clone())),
        };
        ResolvedRemote {
            name: self.name.clone(),
            remote_type: self.remote_type.clone(),
            bucket: clone_opt_string(&self.bucket),
            path_prefix: clone_opt_string(&self.path_prefix),
            options: clone_options(&self.options),
            wrap_remote,
            wrap_path: clone_opt_string(&self.wrap_path),
            password_env: clone_opt_string(&self.password_env),
            password2_env: clone_opt_string(&self.password2_env),
            filename_encryption: clone_opt_string(&self.filename_encryption),
            directory_name_encryption: self.directory_name_encryption,
        }
    }
}

/// First entry of `entries` whose name reads `name`, if any.
pub open spec fn spec_lookup(entries: Seq<RemoteEntry>, name: Seq<char>) -> Option<RemoteConfig>
    decreases entries.len(),
{
    if entries.len() == 0 {
        Option::None
    } else if entries[0].name@ == name {
        Option::Some(entries[0].config)
    } else {
        spec_lookup(entries.skip(1), name)
    }
}

/// Index of the first entry of `remotes` whose name reads `name`.
pub fn find_remote(remotes: &Vec<RemoteEntry>, name: &str) -> (r: Option<usize>)
    ensures
        match r {
            Option::Some(i) => i < remotes@.len() && remotes@[i as int].name@ == name@
                && spec_lookup(remotes@, name@) == Option::Some(remotes@[i as int].config),
            Option::None => spec_lookup(remotes@, name@) is None,
        },
{
    let n: usize = remotes.len();
    let mut i: usize = 0;
    proof {
        assert(remotes@.skip(0) =~= remotes@);
    }
    while i < n
        invariant
            n == remotes@.len(),
            i <= n,
            spec_lookup(remotes@, name@) == spec_lookup(remotes@.skip(i as int), name@),
            forall|j: int| 0 <= j < i ==> remotes@[j].name@ != name@,
        decreases n - i,
    {
        proof {
            assert(remotes@.skip(i as int)[0] == remotes@[i as int]);
        }
        if str_eq(remotes[i].name.as_str(), name) {
            return Option::Some(i);
        }
        i = i + 1;
        proof {
            assert(remotes@.skip(i - 1).skip(1) =~= remotes@.skip(i as int));
        }
    }
    proof {
        assert(remotes@.skip(n as int) =~= Seq::<RemoteEntry>::empty());
    }
    Option::None
}

/// The non-recursive fields of a resolved remote mirror `cfg`, entry
/// `name`, with the crypt sub-fields copied onto the node.
pub open spec fn resolved_fields_match(rr: ResolvedRemote, name: Seq<char>, cfg: RemoteConfig) -> bool {
    &&& rr.name@ == name
    &&& rr.remote_type@ == cfg.remote_type@
    &&& rr.bucket == cfg.bucket
    &&& rr.path_prefix == cfg.path_prefix
    &&& rr.options@ == cfg.options@
    &&& rr.wrap_path == cfg.wrap_path
    &&& match cfg.crypt {
        Option::Some(cc) => {
            &&& rr.password_env == Option::Some(cc.password_env)
            &&& rr.password2_env == cc.password2_env
            &&& match rr.filename_encryption {
                Option::Some(fe) => fe@ == cc.filename_encryption.spec_str(),
                Option::None => false,
            }
            &&& rr.directory_name_encryption == Option::Some(cc.directory_name_encryption)
        },
        Option::None => {
            &&& rr.password_env is None
            &&& rr.password2_env is None
            &&& rr.filename_encryption is None
            &&& rr.directory_name_encryption is None
        },
    }
}

/// `rr` is the resolution of remote `name` in `entries` when carried out
/// with `fuel` lookups: the named configuration materialized, its wrap
/// target resolved recursively while fuel lasts. A resolution exists
/// exactly when fuel is positive and the name is present; a wrap target
/// is embedded exactly when the configuration is a crypt wrapper whose
/// target name exists and deeper fuel remains, so cyclic wrap chains end
/// in an absent wrap rather than looping.
pub open spec fn resolves_to(
    entries: Seq<RemoteEntry>,
    name: Seq<char>,
    fuel: nat,
    rr: ResolvedRemote,
) -> bool
    decreases fuel,
{
    &&& fuel > 0
    &&& match spec_lookup(entries, name) {
        Option::None => false,
        Option::Some(cfg) => {
            let wants_wrap = cfg.remote_type@ == "crypt"@ && cfg.wrap_remote is Some;
            &&& resolved_fields_match(rr, name, cfg)
            &&& match rr.wrap_remote {
                Option::Some(inner) => {
                    &&& wants_wrap
                    &&& match cfg.wrap_remote {
                        Option::Some(wn) => resolves_to(entries, wn@, (fuel - 1) as nat, *inner),
                        Option::None => false,
                    }
                },
                Option::None => !(wants_wrap && fuel > 1 && match cfg.wrap_remote {
                    Option::Some(wn) => spec_lookup(entries, wn@) is Some,
                    Option::None => false,
                }),
            }
        },
    }
}

/// Context for building a plan: placeholder values, the named-remote
/// mapping, and workspace-level defaults.
#[derive(Debug)]
pub struct PlanContext<'a> {
    /// Organization slug.
    pub org: String,
    /// Project slug.
    pub project: String,
    /// Environment, e.g. "dev".
    pub env: String,
    /// The named-remote mapping of the specification.
    pub remotes: &'a Vec<RemoteEntry>,
    /// Default remote name.
    pub default_remote: Option<&'a String>,
    /// Default operation settings.
    pub defaults: Option<&'a SyncDefaults>,
}

/// An optional borrowed string, as an optional value.
pub open spec fn opt_deref<T>(o: Option<&T>) -> Option<T> {
    match o {
        Option::Some(x) => Option::Some(*x),
        Option::None => Option::None,
    }
}

impl<'a> PlanContext<'a> {
    /// Create the planning context of a workspace specification.
    pub fn from_spec(spec: &'a WorkspaceSpec) -> (r: Self)
        ensures
            r.org == spec.metadata.org,
            r.project == spec.metadata.project,
            r.env == spec.metadata.environment,
            *r.remotes == spec.persistence.remotes,
            opt_deref(r.default_remote) == spec.persistence.default_remote,
            opt_deref(r.defaults) == spec.persistence.defaults,
    {
        PlanContext {
            org: spec.metadata.org.clone(),
            project: spec.metadata.project.clone(),
            env: spec.metadata.environment.clone(),
            remotes: &spec.persistence.remotes,
            default_remote: spec.persistence.default_remote.as_ref(),
            defaults: spec.persistence.defaults.as_ref(),
        }
    }

    /// `{org}`, `{project}` and `{env}` placeholders substituted, in that
    /// order, as literal substring replacement.
    pub open spec fn spec_resolve(&self, template: Seq<char>) -> Seq<char> {
        spec_subst(template, self.org@, self.project@, self.env@)
    }

    /// Substitute `{org}`, `{project}`, `{env}` placeholders in a
    /// template string.
    pub fn resolve(&self, template: &str) -> (r: String)
        ensures
            r@ == self.spec_resolve(template@),
    {
        proof {
            reveal_strlit("{org}");
            reveal_strlit("{project}");
            reveal_strlit("{env}");
        }
        let t = str_to_chars(template);
        let p_org = str_to_chars("{org}");
        let p_project = str_to_chars("{project}");
        let p_env = str_to_chars("{env}");
        let v_org = str_to_chars(self.org.as_str());
        let v_project = str_to_chars(self.project.as_str());
        let v_env = str_to_chars(self.env.as_str());
        let s1 = replace_chars(&t, &p_org, &v_org);
        let s2 = replace_chars(&s1, &p_project, &v_project);
        let s3 = replace_chars(&s2, &p_env, &v_env);
        chars_to_string(&s3)
    }

    /// Resolve a remote by name, recursively materializing crypt wrap
    /// targets; cyclic wrap chains are cut off once every entry of the
    /// mapping has been used on the chain.
    pub fn resolve_remote(&self, name: &str) -> (r: Option<ResolvedRemote>)
        ensures
            match r {
                Option::Some(rr) => resolves_to(self.remotes@, name@, self.remotes@.len() as nat, rr),
                Option::None => spec_lookup(self.remotes@, name@) is None || self.remotes@.len() == 0,
            },
            r is Some <==> spec_lookup(self.remotes@, name@) is Some,
    {
        proof {
            if spec_lookup(self.remotes@, name@) is Some {
                lemma_lookup_nonempty(self.remotes@, name@);
            }
        }
        self.resolve_with_fuel(name, self.remotes.len())
    }

    /// Resolve a remote by name with an explicit lookup budget.
    fn resolve_with_fuel(&self, name: &str, fuel: usize) -> (r: Option<ResolvedRemote>)
        ensures
            match r {
                Option::Some(rr) => resolves_to(self.remotes@, name@, fuel as nat, rr),
                Option::None => fuel == 0 || spec_lookup(self.remotes@, name@) is None,
            },
            r is Some <==> (fuel > 0 && spec_lookup(self.remotes@, name@) is Some),
        decreases fuel,
    {
        if fuel == 0 {
            return Option::None;
        }
        let idx = match find_remote(self.remotes, name) {
            Option::Some(i) => i,
            Option::None => {
                return Option::None;
            },
        };
        let cfg = &self.remotes[idx].config;
        let is_crypt = str_eq(cfg.remote_type.as_str(), "crypt");
        let wrap_remote: Option<Box<ResolvedRemote>> = if is_crypt {
            match &cfg.wrap_remote {
                Option::Some(wn) => {
                    match self.resolve_with_fuel(wn.as_str(), fuel - 1) {
                        Option::Some(inner) => Option::Some(Box::new(inner)),
                        Option::None => Option::None,
                    }
                },
                Option::None => Option::None,
            }
        } else {
            Option::None
        };
        let (password_env, password2_env, filename_encryption, directory_name_encryption):
            (Option<String>, Option<String>, Option<String>, Option<bool>) = match &cfg.crypt {
            Option::Some(cc) => (
                Option::Some(cc.password_env.clone()),
                clone_opt_string(&cc.password2_env),
                Option::Some(String::from_str(cc.filename_encryption.as_str())),
                Option::Some(cc.directory_name_encryption),
            ),
            Option::None => (Option::None, Option::None, Option::None, Option::None),
        };
        Option::Some(ResolvedRemote {
            name: name.to_owned(),
            remote_type: cfg.remote_type.clone(),
            bucket: clone_opt_string(&cfg.bucket),
            path_prefix: clone_opt_string(&cfg.path_prefix),
            options: clone_options(&cfg.options),
            wrap_remote,
            wrap_path: clone_opt_string(&cfg.wrap_path),
            password_env,
            password2_env,
            filename_encryption,
            directory_name_encryption,
        })
    }

    /// Cascade operation settings: the action's explicit value, else the
    /// workspace default, else absent, independently per field.
    pub fn resolve_operation(
        &self,
        sp_transfers: Option<u32>,
        sp_checkers: Option<u32>,
        sp_bwlimit: Option<&String>,
    ) -> (r: OperationSettings)
        ensures
            r.transfers == spec_cascade_transfers(sp_transfers, opt_deref(self.defaults)),
            r.checkers == spec_cascade_checkers(sp_checkers, opt_deref(self.defaults)),
            r.bwlimit == spec_cascade_bwlimit(opt_deref(sp_bwlimit), opt_deref(self.defaults)),
    {
        let transfers: Option<u32> = match sp_transfers {
            Option::Some(v) => Option::Some(v),
            Option::None => match self.defaults {
                Option::Some(d) => d.transfers,
                Option::None => Option::None,
            },
        };
        let checkers: Option<u32> = match sp_checkers {
            Option::Some(v) => Option::Some(v),
            Option::None => match self.defaults {
                Option::Some(d) => d.checkers,
                Option::None => Option::None,
            },
        };
        let bwlimit: Option<String> = match sp_bwlimit {
            Option::Some(v) => Option::Some(v.clone()),
            Option::None => match self.defaults {
                Option::Some(d) => clone_opt_string(&d.bwlimit),
                Option::None => Option::None,
            },
        };
        OperationSettings { transfers, checkers, bwlimit }
    }

    /// The remote name in effect for a sync path: its own override if
    /// present, else the workspace default.
    pub fn effective_remote_name<'b>(&'b self, sp_remote: Option<&'b String>) -> (r: Option<
        &'b String,
    >)
        ensures
            opt_deref(r) == match sp_remote {
                Option::Some(s) => Option::Some(*s),
                Option::None => opt_deref(self.default_remote),
            },
    {
        match sp_remote {
            Option::Some(s) => Option::Some(s),
            Option::None => self.default_remote,
        }
    }
}

/// `{org}`, `{project}` and `{env}` substituted into `t`, in that order.
pub open spec fn spec_subst(t: Seq<char>, org: Seq<char>, project: Seq<char>, env: Seq<char>) -> Seq<
    char,
> {
    replace_seq(replace_seq(replace_seq(t, "{org}"@, org), "{project}"@, project), "{env}"@, env)
}

/// Transfers cascade: explicit value, else workspace default.
pub open spec fn spec_cascade_transfers(sp: Option<u32>, d: Option<SyncDefaults>) -> Option<u32> {
    match sp {
        Option::Some(v) => Option::Some(v),
        Option::None => match d {
            Option::Some(ds) => ds.transfers,
            Option::None => Option::None,
        },
    }
}

/// Checkers cascade: explicit value, else workspace default.
pub open spec fn spec_cascade_checkers(sp: Option<u32>, d: Option<SyncDefaults>) -> Option<u32> {
    match sp {
        Option::Some(v) => Option::Some(v),
        Option::None => match d {
            Option::Some(ds) => ds.checkers,
            Option::None => Option::None,
        },
    }
}

/// Bandwidth-limit cascade: explicit value, else workspace default.
pub open spec fn spec_cascade_bwlimit(sp: Option<String>, d: Option<SyncDefaults>) -> Option<String> {
    match sp {
        Option::Some(v) => Option::Some(v),
        Option::None => match d {
            Option::Some(ds) => ds.bwlimit,
            Option::None => Option::None,
        },
    }
}

/// A present lookup needs a nonempty mapping.
proof fn lemma_lookup_nonempty(entries: Seq<RemoteEntry>, name: Seq<char>)
    requires
        spec_lookup(entries, name) is Some,
    ensures
        entries.len() > 0,
{
}



/// A planned sync action: one unit of sync work, pure data.
#[derive(Debug)]
pub struct SyncAction {
    /// Unique name of the action within its plan.
    pub name: String,
    /// Local filesystem path to sync.
    pub local_path: String,
    /// Remote path, after placeholder substitution and path-prefix
    /// application.
    pub remote_path: String,
    /// Sync direction.
    pub direction: SyncDirection,
    /// Sync interval in seconds.
    pub interval_secs: u64,
    /// Priority; lower sorts first.
    pub priority: u8,
    /// Glob patterns excluded from sync.
    pub excludes: Vec<String>,
    /// Resolved remote; absent is a valid, inert state surfaced only at
    /// execution time.
    pub remote: Option<ResolvedRemote>,
    /// Resolved operation settings.
    pub operation: OperationSettings,
}

/// Two sync actions agree on every field.
pub open spec fn action_eqv(a: SyncAction, b: SyncAction) -> bool {
    &&& a.name == b.name
    &&& a.local_path == b.local_path
    &&& a.remote_path == b.remote_path
    &&& a.direction == b.direction
    &&& a.interval_secs == b.interval_secs
    &&& a.priority == b.priority
    &&& a.excludes@ == b.excludes@
    &&& match (a.remote, b.remote) {
        (Option::None, Option::None) => true,
        (Option::Some(x), Option::Some(y)) => resolved_eqv(x, y),
        _ => false,
    }
    &&& a.operation == b.operation
}

impl Clone for SyncAction {
    fn clone(&self) -> (r: Self)
        ensures
            action_eqv(r, *self),
    {
        let remote: Option<ResolvedRemote> = match &self.remote {
            Option::None => Option::None,
            Option::Some(rr) => Option::Some(rr.clone()),
        };
        SyncAction {
            name: self.name.clone(),
            local_path: self.local_path.clone(),
            remote_path: self.remote_path.clone(),
            direction: self.direction,
            interval_secs: self.interval_secs,
            priority: self.priority,
            excludes: crate::config::clone_strings(&self.excludes),
            remote,
            operation: self.operation.clone(),
        }
    }
}

/// The full sync plan: a snapshot, immutable once built, consumed in
/// full by one execution pass.
#[derive(Debug)]
pub struct SyncPlan {
    /// Workspace name, also naming the state directory.
    pub workspace_name: String,
    /// Sync actions in execution order: ascending priority, declaration
    /// order within equal priorities.
    pub actions: Vec<SyncAction>,
}

/// The actions of `s` whose priority is exactly `q`, in order.
pub open spec fn filter_pri(s: Seq<SyncAction>, q: int) -> Seq<SyncAction> {
    s.filter(|a: SyncAction| a.priority as int == q)
}

/// The actions of `s` whose priority is not `q`, in order.
pub open spec fn filter_not_pri(s: Seq<SyncAction>, q: int) -> Seq<SyncAction> {
    s.filter(|a: SyncAction| a.priority as int != q)
}

/// The stable priority sort of `raw`: all actions of priority `p`, in
/// their original order, then those of priority `p + 1`, and so on.
pub open spec fn sorted_by_priority(raw: Seq<SyncAction>, p: int) -> Seq<SyncAction>
    decreases 256 - p,
{
    if p < 0 || p >= 256 {
        Seq::empty()
    } else {
        filter_pri(raw, p) + sorted_by_priority(raw, p + 1)
    }
}

/// Name membership: some element of `names` reads `n`.
pub open spec fn name_in(names: Seq<String>, n: Seq<char>) -> bool {
    exists|i: int| 0 <= i < names.len() && #[trigger] names[i]@ == n
}

/// The actions of `s` whose name occurs in `names`, in order.
pub open spec fn kept_actions(s: Seq<SyncAction>, names: Seq<String>) -> Seq<SyncAction> {
    s.filter(|a: SyncAction| name_in(names, a.name@))
}

/// Whether some element of `names` equals `n`.
pub fn contains_name(names: &Vec<String>, n: &String) -> (r: bool)
    ensures
        r == name_in(names@, n@),
{
    let len: usize = names.len();
    let mut i: usize = 0;
    while i < len
        invariant
            len == names@.len(),
            i <= len,
            forall|j: int| 0 <= j < i ==> #[trigger] names@[j]@ != n@,
        decreases len - i,
    {
        if names[i] == *n {
            return true;
        }
        i = i + 1;
    }
    false
}

/// Growing a prefix by one action extends its name filter by that action
/// exactly when its name is in `names`.
proof fn lemma_kept_one_more(s: Seq<SyncAction>, names: Seq<String>, k: int)
    requires
        0 <= k < s.len(),
    ensures
        kept_actions(s.subrange(0, k + 1), names) == if name_in(names, s[k].name@) {
            kept_actions(s.subrange(0, k), names).push(s[k])
        } else {
            kept_actions(s.subrange(0, k), names)
        },
{
    reveal(Seq::filter);
    assert(s.subrange(0, k + 1).drop_last() =~= s.subrange(0, k));
    assert(s.subrange(0, k + 1).last() == s[k]);
}

/// Growing a prefix by one action extends its priority filters by that
/// action on the matching side.
proof fn lemma_pri_one_more(s: Seq<SyncAction>, q: int, k: int)
    requires
        0 <= k < s.len(),
    ensures
        filter_pri(s.subrange(0, k + 1), q) == if s[k].priority as int == q {
            filter_pri(s.subrange(0, k), q).push(s[k])
        } else {
            filter_pri(s.subrange(0, k), q)
        },
        filter_not_pri(s.subrange(0, k + 1), q) == if s[k].priority as int != q {
            filter_not_pri(s.subrange(0, k), q).push(s[k])
        } else {
            filter_not_pri(s.subrange(0, k), q)
        },
{
    reveal(Seq::filter);
    assert(s.subrange(0, k + 1).drop_last() =~= s.subrange(0, k));
    assert(s.subrange(0, k + 1).last() == s[k]);
}

/// Taking the actions of one priority out of a pool leaves every other
/// priority class unchanged.
proof fn lemma_partition_keeps_filters(s: Seq<SyncAction>, p: int, q: int)
    requires
        p != q,
    ensures
        filter_pri(filter_not_pri(s, p), q) == filter_pri(s, q),
    decreases s.len(),
{
    reveal(Seq::filter);
    if s.len() > 0 {
        let d = s.drop_last();
        let l = s.last();
        lemma_partition_keeps_filters(d, p, q);
        if l.priority as int != p {
            assert(filter_not_pri(s, p) == filter_not_pri(d, p).push(l));
            assert(filter_not_pri(d, p).push(l).drop_last() =~= filter_not_pri(d, p));
            assert(filter_not_pri(d, p).push(l).last() == l);
        }
    }
}

/// Every action kept by `filter_not_pri(s, p)` keeps the lower bound of
/// the pool and avoids priority `p`.
proof fn lemma_not_pri_bound(s: Seq<SyncAction>, p: int)
    requires
        forall|i: int| 0 <= i < s.len() ==> (#[trigger] s[i].priority) as int >= p,
    ensures
        forall|i: int|
            0 <= i < filter_not_pri(s, p).len() ==> (#[trigger] filter_not_pri(s, p)[i].priority)
                as int >= p + 1,
    decreases s.len(),
{
    reveal(Seq::filter);
    if s.len() > 0 {
        let d = s.drop_last();
        let l = s.last();
        assert(forall|i: int| 0 <= i < d.len() ==> (#[trigger] d[i].priority) as int >= p);
        lemma_not_pri_bound(d, p);
    }
}

/// Two pools with the same per-priority classes from `p` upward sort to
/// the same sequence from `p` upward.
proof fn lemma_sorted_same_filters(a: Seq<SyncAction>, b: Seq<SyncAction>, p: int)
    requires
        forall|q: int| p <= q < 256 ==> #[trigger] filter_pri(a, q) == filter_pri(b, q),
    ensures
        sorted_by_priority(a, p) == sorted_by_priority(b, p),
    decreases 256 - p,
{
    if 0 <= p < 256 {
        lemma_sorted_same_filters(a, b, p + 1);
    }
}

impl SyncPlan {
    /// True when the plan has no actions.
    pub fn is_empty(&self) -> (r: bool)
        ensures
            r == (self.actions@.len() == 0),
    {
        self.actions.len() == 0
    }

    /// The smallest interval across all actions; 300 when the plan is
    /// empty.
    pub fn min_interval(&self) -> (r: u64)
        ensures
            self.actions@.len() == 0 ==> r == 300,
            self.actions@.len() > 0 ==> {
                &&& exists|i: int|
                    0 <= i < self.actions@.len() && r == #[trigger] self.actions@[i].interval_secs
                &&& forall|i: int|
                    0 <= i < self.actions@.len() ==> r <= #[trigger] self.actions@[i].interval_secs
            },
    {
        let n: usize = self.actions.len();
        if n == 0 {
            return 300;
        }
        let mut best: u64 = self.actions[0].interval_secs;
        let mut i: usize = 1;
        while i < n
            invariant
                n == self.actions@.len(),
                1 <= i <= n,
                exists|k: int| 0 <= k < i && best == #[trigger] self.actions@[k].interval_secs,
                forall|k: int| 0 <= k < i ==> best <= #[trigger] self.actions@[k].interval_secs,
            decreases n - i,
        {
            if self.actions[i].interval_secs < best {
                best = self.actions[i].interval_secs;
            }
            i = i + 1;
        }
        best
    }

    /// The sub-plan of actions whose name occurs in `names`, keeping
    /// relative order; an empty filter keeps every action.
    pub fn filter_by_names(&self, names: &Vec<String>) -> (r: SyncPlan)
        ensures
            r.workspace_name == self.workspace_name,
            names@.len() == 0 ==> r.actions@.len() == self.actions@.len() && forall|i: int|
                0 <= i < self.actions@.len() ==> action_eqv(
                    #[trigger] r.actions@[i],
                    self.actions@[i],
                ),
            names@.len() > 0 ==> {
                let kept = kept_actions(self.actions@, names@);
                r.actions@.len() == kept.len() && forall|i: int|
                    0 <= i < kept.len() ==> action_eqv(#[trigger] r.actions@[i], kept[i])
            },
    {
        let n: usize = self.actions.len();
        let mut picked: Vec<SyncAction> = Vec::new();
        if names.len() == 0 {
            let mut i: usize = 0;
            while i < n
                invariant
                    n == self.actions@.len(),
                    i <= n,
                    picked@.len() == i,
                    forall|k: int|
                        0 <= k < i ==> action_eqv(#[trigger] picked@[k], self.actions@[k]),
                decreases n - i,
            {
                picked.push(self.actions[i].clone());
                i = i + 1;
            }
            return SyncPlan { workspace_name: self.workspace_name.clone(), actions: picked };
        }
        let mut i: usize = 0;
        proof {
            assert(self.actions@.subrange(0, 0) =~= Seq::<SyncAction>::empty());
            reveal(Seq::filter);
        }
        while i < n
            invariant
                n == self.actions@.len(),
                i <= n,
                ({
                    let f = kept_actions(self.actions@.subrange(0, i as int), names@);
                    picked@.len() == f.len() && forall|k: int|
                        0 <= k < f.len() ==> action_eqv(#[trigger] picked@[k], f[k])
                }),
            decreases n - i,
        {
            proof {
                lemma_kept_one_more(self.actions@, names@, i as int);
            }
            if contains_name(names, &self.actions[i].name) {
                picked.push(self.actions[i].clone());
            }
            i = i + 1;
        }
        proof {
            assert(self.actions@.subrange(0, n as int) =~= self.actions@);
        }
        SyncPlan { workspace_name: self.workspace_name.clone(), actions: picked }
    }
}

/// Stable sort of actions by ascending priority: the result is the
/// concatenation of the priority classes of `src`, each in declaration
/// order.
pub fn sort_actions(src: Vec<SyncAction>) -> (r: Vec<SyncAction>)
    ensures
        r@ == sorted_by_priority(src@, 0),
{
    let ghost orig = src@;
    let mut rest = src;
    let mut out: Vec<SyncAction> = Vec::new();
    let mut p: u16 = 0;
    proof {
        assert(out@ + sorted_by_priority(rest@, 0) =~= sorted_by_priority(orig, 0));
    }
    while p < 256
        invariant
            p <= 256,
            sorted_by_priority(orig, 0) == out@ + sorted_by_priority(rest@, p as int),
            forall|i: int| 0 <= i < rest@.len() ==> (#[trigger] rest@[i].priority) as int >= p,
        decreases 256 - p,
    {
        let pr: u8 = p as u8;
        let ghost rest0 = rest@;
        let ghost out0 = out@;
        let mut keep: Vec<SyncAction> = Vec::new();
        proof {
            assert(rest0.subrange(0, 0) =~= Seq::<SyncAction>::empty());
            reveal(Seq::filter);
        }
        while rest.len() > 0
            invariant
                pr == p as u8,
                p < 256,
                rest@.len() <= rest0.len(),
                rest@ == rest0.skip(rest0.len() - rest@.len()),
                out@ == out0 + filter_pri(
                    rest0.subrange(0, rest0.len() - rest@.len()),
                    pr as int,
                ),
                keep@ == filter_not_pri(
                    rest0.subrange(0, rest0.len() - rest@.len()),
                    pr as int,
                ),
            decreases rest@.len(),
        {
            let ghost k = rest0.len() - rest@.len();
            proof {
                assert(rest@[0] == rest0[k]);
                lemma_pri_one_more(rest0, pr as int, k);
            }
            let a = rest.remove(0);
            if a.priority == pr {
                out.push(a);
            } else {
                keep.push(a);
            }
            proof {
                assert(rest@ =~= rest0.skip(rest0.len() - rest@.len()));
            }
        }
        proof {
            assert(rest0.subrange(0, rest0.len() as int) =~= rest0);
            assert(out@ == out0 + filter_pri(rest0, pr as int));
            assert(keep@ == filter_not_pri(rest0, pr as int));
            assert forall|q: int| p + 1 <= q < 256 implies #[trigger] filter_pri(keep@, q)
                == filter_pri(rest0, q) by {
                lemma_partition_keeps_filters(rest0, pr as int, q);
            }
            lemma_sorted_same_filters(keep@, rest0, p as int + 1);
            lemma_not_pri_bound(rest0, p as int);
            assert(sorted_by_priority(orig, 0) == out@ + sorted_by_priority(keep@, p as int + 1));
        }
        rest = keep;
        p = p + 1;
    }
    proof {
        assert(out@ + sorted_by_priority(rest@, 256) =~= out@);
    }
    out
}

/// `prefix` with one trailing slash removed, if it ends in one.
pub open spec fn spec_trim_one_slash(s: Seq<char>) -> Seq<char> {
    if s.len() > 0 && s[s.len() - 1] == '/' {
        s.drop_last()
    } else {
        s
    }
}

/// The remote path of an action: the substituted template, behind the
/// remote's path prefix when it carries one.
pub open spec fn spec_prefixed(prefix: Option<String>, t: Seq<char>) -> Seq<char> {
    match prefix {
        Option::Some(p) => spec_trim_one_slash(p@) + seq!['/'] + t,
        Option::None => t,
    }
}

/// Join a path prefix (one trailing slash trimmed) and a path with a
/// single slash.
pub fn join_prefixed(prefix: &str, rest: &str) -> (r: String)
    ensures
        r@ == spec_trim_one_slash(prefix@) + seq!['/'] + rest@,
{
    let mut p = str_to_chars(prefix);
    let plen: usize = p.len();
    if plen > 0 {
        if p[plen - 1] == '/' {
            p.pop();
        }
    }
    p.push('/');
    let t = str_to_chars(rest);
    crate::text::push_all(&mut p, &t);
    proof {
        assert(p@ =~= spec_trim_one_slash(prefix@) + seq!['/'] + rest@);
    }
    chars_to_string(&p)
}

/// The remote name in effect for an action: its own override when
/// present, else the workspace default.
pub open spec fn spec_effective_name(
    own: Option<String>,
    default_remote: Option<String>,
) -> Option<Seq<char>> {
    match own {
        Option::Some(n) => Option::Some(n@),
        Option::None => match default_remote {
            Option::Some(d) => Option::Some(d@),
            Option::None => Option::None,
        },
    }
}

/// How an action's resolved remote and remote path relate to the remote
/// name in effect: no name gives no remote; a name absent from the
/// mapping gives no remote; a present name gives its resolution, whose
/// path prefix is applied to the substituted template.
pub open spec fn action_remote_matches(
    a: SyncAction,
    eff: Option<Seq<char>>,
    entries: Seq<RemoteEntry>,
    t: Seq<char>,
) -> bool {
    match eff {
        Option::None => a.remote is None && a.remote_path@ == t,
        Option::Some(en) => match a.remote {
            Option::None => spec_lookup(entries, en) is None && a.remote_path@ == t,
            Option::Some(rr) => resolves_to(entries, en, entries.len() as nat, rr)
                && a.remote_path@ == spec_prefixed(rr.path_prefix, t),
        },
    }
}

/// The action built from sync path `sp`: placeholders substituted, the
/// effective remote resolved, operation settings cascaded, the interval
/// override applied.
pub open spec fn action_matches_sync_path(
    a: SyncAction,
    sp: SyncPath,
    entries: Seq<RemoteEntry>,
    org: Seq<char>,
    project: Seq<char>,
    env: Seq<char>,
    default_remote: Option<String>,
    defaults: Option<SyncDefaults>,
    io: Option<u64>,
) -> bool {
    let t = spec_subst(sp.remote_path@, org, project, env);
    &&& a.name == sp.name
    &&& a.local_path == sp.path
    &&& a.direction == sp.direction
    &&& a.interval_secs == match io {
        Option::Some(v) => v,
        Option::None => sp.interval,
    }
    &&& a.priority == sp.priority
    &&& a.excludes@ == sp.exclude@
    &&& a.operation.transfers == spec_cascade_transfers(sp.transfers, defaults)
    &&& a.operation.checkers == spec_cascade_checkers(sp.checkers, defaults)
    &&& a.operation.bwlimit == spec_cascade_bwlimit(sp.bwlimit, defaults)
    &&& action_remote_matches(a, spec_effective_name(sp.remote, default_remote), entries, t)
}

/// The action built from environment volume `vol`: volumes always use
/// the workspace default remote and the workspace default operation
/// settings.
pub open spec fn action_matches_volume(
    a: SyncAction,
    vol: RcloneVolumeConfig,
    entries: Seq<RemoteEntry>,
    org: Seq<char>,
    project: Seq<char>,
    env: Seq<char>,
    default_remote: Option<String>,
    defaults: Option<SyncDefaults>,
    io: Option<u64>,
) -> bool {
    let t = spec_subst(vol.remote_path@, org, project, env);
    &&& a.name == vol.name
    &&& a.local_path == vol.mount_path
    &&& a.direction == vol.sync
    &&& a.interval_secs == match io {
        Option::Some(v) => v,
        Option::None => vol.interval,
    }
    &&& a.priority == vol.priority
    &&& a.excludes@ == vol.exclude@
    &&& a.operation.transfers == spec_cascade_transfers(Option::None, defaults)
    &&& a.operation.checkers == spec_cascade_checkers(Option::None, defaults)
    &&& a.operation.bwlimit == spec_cascade_bwlimit(Option::None, defaults)
    &&& action_remote_matches(
        a,
        match default_remote {
            Option::Some(d) => Option::Some(d@),
            Option::None => Option::None,
        },
        entries,
        t,
    )
}

/// Build one sync action from a declared sync path.
fn sync_path_to_action(sp: &SyncPath, ctx: &PlanContext, interval_override: Option<u64>) -> (a:
    SyncAction)
    ensures
        action_matches_sync_path(
            a,
            *sp,
            ctx.remotes@,
            ctx.org@,
            ctx.project@,
            ctx.env@,
            opt_deref(ctx.default_remote),
            opt_deref(ctx.defaults),
            interval_override,
        ),
{
    let remote: Option<ResolvedRemote> = match ctx.effective_remote_name(sp.remote.as_ref()) {
        Option::Some(name) => ctx.resolve_remote(name.as_str()),
        Option::None => Option::None,
    };
    let operation = ctx.resolve_operation(sp.transfers, sp.checkers, sp.bwlimit.as_ref());
    let resolved = ctx.resolve(sp.remote_path.as_str());
    let remote_path: String = match &remote {
        Option::Some(rr) => match &rr.path_prefix {
            Option::Some(prefix) => join_prefixed(prefix.as_str(), resolved.as_str()),
            Option::None => resolved,
        },
        Option::None => resolved,
    };
    let interval_secs: u64 = match interval_override {
        Option::Some(v) => v,
        Option::None => sp.interval,
    };
    SyncAction {
        name: sp.name.clone(),
        local_path: sp.path.clone(),
        remote_path,
        direction: sp.direction,
        interval_secs,
        priority: sp.priority,
        excludes: crate::config::clone_strings(&sp.exclude),
        remote,
        operation,
    }
}

/// Build one sync action from an environment-scoped volume entry.
fn volume_to_action(vol: &RcloneVolumeConfig, ctx: &PlanContext, interval_override: Option<u64>) -> (a:
    SyncAction)
    ensures
        action_matches_volume(
            a,
            *vol,
            ctx.remotes@,
            ctx.org@,
            ctx.project@,
            ctx.env@,
            opt_deref(ctx.default_remote),
            opt_deref(ctx.defaults),
            interval_override,
        ),
{
    let remote: Option<ResolvedRemote> = match ctx.default_remote {
        Option::Some(name) => ctx.resolve_remote(name.as_str()),
        Option::None => Option::None,
    };
    let operation = ctx.resolve_operation(Option::None, Option::None, Option::None);
    let resolved = ctx.resolve(vol.remote_path.as_str());
    let remote_path: String = match &remote {
        Option::Some(rr) => match &rr.path_prefix {
            Option::Some(prefix) => join_prefixed(prefix.as_str(), resolved.as_str()),
            Option::None => resolved,
        },
        Option::None => resolved,
    };
    let interval_secs: u64 = match interval_override {
        Option::Some(v) => v,
        Option::None => vol.interval,
    };
    SyncAction {
        name: vol.name.clone(),
        local_path: vol.mount_path.clone(),
        remote_path,
        direction: vol.sync,
        interval_secs,
        priority: vol.priority,
        excludes: crate::config::clone_strings(&vol.exclude),
        remote,
        operation,
    }
}

/// The environment-scoped volume entries of a specification.
pub open spec fn spec_env_volumes(spec: WorkspaceSpec) -> Seq<RcloneVolumeConfig> {
    match spec.persistence.multi_scope_volumes {
        Option::Some(m) => m.environment@,
        Option::None => Seq::empty(),
    }
}

/// `raw` holds one action per sync path, then one per environment
/// volume, each built as the specification prescribes.
pub open spec fn plan_raw_matches(raw: Seq<SyncAction>, spec: WorkspaceSpec, io: Option<u64>) -> bool {
    let syncs = spec.persistence.sync@;
    let vols = spec_env_volumes(spec);
    &&& raw.len() == syncs.len() + vols.len()
    &&& forall|i: int|
        0 <= i < syncs.len() ==> action_matches_sync_path(
            #[trigger] raw[i],
            syncs[i],
            spec.persistence.remotes@,
            spec.metadata.org@,
            spec.metadata.project@,
            spec.metadata.environment@,
            spec.persistence.default_remote,
            spec.persistence.defaults,
            io,
        )
    &&& forall|j: int|
        0 <= j < vols.len() ==> action_matches_volume(
            #[trigger] raw[syncs.len() + j],
            vols[j],
            spec.persistence.remotes@,
            spec.metadata.org@,
            spec.metadata.project@,
            spec.metadata.environment@,
            spec.persistence.default_remote,
            spec.persistence.defaults,
            io,
        )
}

/// The actions of a built plan: a raw pool as `plan_raw_matches`
/// prescribes, stably sorted by ascending priority.
pub open spec fn plan_matches(actions: Seq<SyncAction>, spec: WorkspaceSpec, io: Option<u64>) -> bool {
    exists|raw: Seq<SyncAction>|
        #[trigger] plan_raw_matches(raw, spec, io) && actions == sorted_by_priority(raw, 0)
}

/// Build the sync plan of a workspace specification: one action per
/// sync path and per environment volume, stably sorted by ascending
/// priority, with an optional interval override applied to every
/// action.
pub fn build_plan(spec: &WorkspaceSpec, interval_override: Option<u64>) -> (r: SyncPlan)
    ensures
        r.workspace_name == spec.name,
        plan_matches(r.actions@, *spec, interval_override),
{
    let ctx = PlanContext::from_spec(spec);
    let mut actions: Vec<SyncAction> = Vec::new();
    let n: usize = spec.persistence.sync.len();
    let mut i: usize = 0;
    while i < n
        invariant
            n == spec.persistence.sync@.len(),
            i <= n,
            actions@.len() == i,
            ctx.org == spec.metadata.org,
            ctx.project == spec.metadata.project,
            ctx.env == spec.metadata.environment,
            *ctx.remotes == spec.persistence.remotes,
            opt_deref(ctx.default_remote) == spec.persistence.default_remote,
            opt_deref(ctx.defaults) == spec.persistence.defaults,
            forall|k: int|
                0 <= k < i ==> action_matches_sync_path(
                    #[trigger] actions@[k],
                    spec.persistence.sync@[k],
                    spec.persistence.remotes@,
                    spec.metadata.org@,
                    spec.metadata.project@,
                    spec.metadata.environment@,
                    spec.persistence.default_remote,
                    spec.persistence.defaults,
                    interval_override,
                ),
        decreases n - i,
    {
        actions.push(sync_path_to_action(&spec.persistence.sync[i], &ctx, interval_override));
        i = i + 1;
    }
    match &spec.persistence.multi_scope_volumes {
        Option::Some(msv) => {
            let m: usize = msv.environment.len();
            let mut j: usize = 0;
            while j < m
                invariant
                    n == spec.persistence.sync@.len(),
                    m == spec_env_volumes(*spec).len(),
                    msv.environment@ == spec_env_volumes(*spec),
                    j <= m,
                    actions@.len() == n + j,
                    ctx.org == spec.metadata.org,
                    ctx.project == spec.metadata.project,
                    ctx.env == spec.metadata.environment,
                    *ctx.remotes == spec.persistence.remotes,
                    opt_deref(ctx.default_remote) == spec.persistence.default_remote,
                    opt_deref(ctx.defaults) == spec.persistence.defaults,
                    forall|k: int|
                        0 <= k < n ==> action_matches_sync_path(
                            #[trigger] actions@[k],
                            spec.persistence.sync@[k],
                            spec.persistence.remotes@,
                            spec.metadata.org@,
                            spec.metadata.project@,
                            spec.metadata.environment@,
                            spec.persistence.default_remote,
                            spec.persistence.defaults,
                            interval_override,
                        ),
                    forall|k: int|
                        0 <= k < j ==> action_matches_volume(
                            #[trigger] actions@[n + k],
                            spec_env_volumes(*spec)[k],
                            spec.persistence.remotes@,
                            spec.metadata.org@,
                            spec.metadata.project@,
                            spec.metadata.environment@,
                            spec.persistence.default_remote,
                            spec.persistence.defaults,
                            interval_override,
                        ),
                decreases m - j,
            {
                actions.push(volume_to_action(&msv.environment[j], &ctx, interval_override));
                j = j + 1;
            }
        },
        Option::None => {},
    }
    let ghost raw = actions@;
    proof {
        assert(plan_raw_matches(raw, *spec, interval_override));
    }
    let sorted = sort_actions(actions);
    SyncPlan { workspace_name: spec.name.clone(), actions: sorted }
}

/// Crypt resolution populates the wrap: whenever a resolution of a
/// crypt entry was carried out with lookups to spare and the wrapped
/// name exists in the mapping, the resolved node embeds the wrapped
/// remote's resolution, carried out with one lookup fewer — so the
/// same holds again of every deeper link of an acyclic wrap chain.
pub proof fn lemma_crypt_wrap_populated(
    entries: Seq<RemoteEntry>,
    name: Seq<char>,
    fuel: nat,
    rr: ResolvedRemote,
)
    requires
        resolves_to(entries, name, fuel, rr),
        fuel >= 2,
        match spec_lookup(entries, name) {
            Option::Some(cfg) => cfg.remote_type@ == "crypt"@ && match cfg.wrap_remote {
                Option::Some(wn) => spec_lookup(entries, wn@) is Some,
                Option::None => false,
            },
            Option::None => false,
        },
    ensures
        match (rr.wrap_remote, spec_lookup(entries, name)) {
            (Option::Some(inner), Option::Some(cfg)) => match cfg.wrap_remote {
                Option::Some(wn) => resolves_to(entries, wn@, (fuel - 1) as nat, *inner),
                Option::None => false,
            },
            _ => false,
        },
{
}

/// A resolution carried out with as many lookups as the mapping has
/// entries: what `resolve_remote` performs. With at least two entries,
/// the wrap of a crypt entry whose target exists is always populated.
pub proof fn lemma_resolve_remote_wrap(
    entries: Seq<RemoteEntry>,
    name: Seq<char>,
    rr: ResolvedRemote,
)
    requires
        resolves_to(entries, name, entries.len() as nat, rr),
        entries.len() >= 2,
        match spec_lookup(entries, name) {
            Option::Some(cfg) => cfg.remote_type@ == "crypt"@ && match cfg.wrap_remote {
                Option::Some(wn) => spec_lookup(entries, wn@) is Some,
                Option::None => false,
            },
            Option::None => false,
        },
    ensures
        rr.wrap_remote is Some,
{
    lemma_crypt_wrap_populated(entries, name, entries.len() as nat, rr);
}

/// Every action of a priority class carries that priority.
proof fn lemma_pri_class_members(s: Seq<SyncAction>, q: int)
    ensures
        forall|i: int|
            0 <= i < filter_pri(s, q).len() ==> (#[trigger] filter_pri(s, q)[i]).priority as int
                == q,
    decreases s.len(),
{
    reveal(Seq::filter);
    if s.len() > 0 {
        lemma_pri_class_members(s.drop_last(), q);
    }
}

/// A pool with no action of priority `q` has an empty class for it.
proof fn lemma_pri_class_empty(s: Seq<SyncAction>, q: int)
    requires
        forall|i: int| 0 <= i < s.len() ==> (#[trigger] s[i].priority) as int != q,
    ensures
        filter_pri(s, q) == Seq::<SyncAction>::empty(),
    decreases s.len(),
{
    reveal(Seq::filter);
    if s.len() > 0 {
        lemma_pri_class_empty(s.drop_last(), q);
    }
}

/// A pool whose actions all carry priority `q` is its own class.
proof fn lemma_pri_class_full(s: Seq<SyncAction>, q: int)
    requires
        forall|i: int| 0 <= i < s.len() ==> (#[trigger] s[i].priority) as int == q,
    ensures
        filter_pri(s, q) == s,
    decreases s.len(),
{
    reveal(Seq::filter);
    if s.len() > 0 {
        lemma_pri_class_full(s.drop_last(), q);
        assert(filter_pri(s, q) =~= s);
    }
}

/// Priority classes distribute over concatenation.
proof fn lemma_pri_class_add(a: Seq<SyncAction>, b: Seq<SyncAction>, q: int)
    ensures
        filter_pri(a + b, q) == filter_pri(a, q) + filter_pri(b, q),
    decreases b.len(),
{
    reveal(Seq::filter);
    if b.len() == 0 {
        assert(a + b =~= a);
        assert(filter_pri(a, q) + filter_pri(b, q) =~= filter_pri(a, q));
    } else {
        lemma_pri_class_add(a, b.drop_last(), q);
        assert((a + b).drop_last() =~= a + b.drop_last());
        assert((a + b).last() == b.last());
        if b.last().priority as int == q {
            assert(filter_pri(a, q) + filter_pri(b, q) =~= filter_pri(a, q) + filter_pri(
                b.drop_last(),
                q,
            ) + seq![b.last()]);
        }
    }
}

/// Every action of a sorted pool suffix carries a priority at or above
/// the suffix's first class.
proof fn lemma_sorted_lower_bound(raw: Seq<SyncAction>, p: int)
    requires
        0 <= p,
    ensures
        forall|i: int|
            0 <= i < sorted_by_priority(raw, p).len() ==> (#[trigger] sorted_by_priority(
                raw,
                p,
            )[i]).priority as int >= p,
    decreases 256 - p,
{
    if p < 256 {
        lemma_pri_class_members(raw, p);
        lemma_sorted_lower_bound(raw, p + 1);
        let s = sorted_by_priority(raw, p);
        let h = filter_pri(raw, p);
        let t = sorted_by_priority(raw, p + 1);
        assert forall|i: int| 0 <= i < s.len() implies (#[trigger] s[i]).priority as int >= p by {
            if i < h.len() {
                assert(s[i] == h[i]);
            } else {
                assert(s[i] == t[i - h.len()]);
            }
        }
    }
}

/// The stable sort is sorted: priorities never decrease along it.
pub proof fn lemma_sorted_is_sorted(raw: Seq<SyncAction>, p: int)
    requires
        0 <= p,
    ensures
        forall|i: int, j: int|
            0 <= i <= j < sorted_by_priority(raw, p).len() ==> (#[trigger] sorted_by_priority(
                raw,
                p,
            )[i]).priority <= (#[trigger] sorted_by_priority(raw, p)[j]).priority,
    decreases 256 - p,
{
    if p < 256 {
        lemma_pri_class_members(raw, p);
        lemma_sorted_is_sorted(raw, p + 1);
        lemma_sorted_lower_bound(raw, p + 1);
        let s = sorted_by_priority(raw, p);
        let h = filter_pri(raw, p);
        let t = sorted_by_priority(raw, p + 1);
        assert forall|i: int, j: int|
            0 <= i <= j < s.len() implies (#[trigger] s[i]).priority <= (#[trigger] s[j]).priority
        by {
            if i < h.len() {
                assert(s[i] == h[i]);
            } else {
                assert(s[i] == t[i - h.len()]);
            }
            if j < h.len() {
                assert(s[j] == h[j]);
            } else {
                assert(s[j] == t[j - h.len()]);
            }
        }
    }
}

/// The stable sort keeps every priority class of the pool unchanged:
/// equal-priority actions stay in declaration order.
pub proof fn lemma_sorted_is_stable(raw: Seq<SyncAction>, p: int, q: int)
    requires
        0 <= p <= q < 256,
    ensures
        filter_pri(sorted_by_priority(raw, p), q) == filter_pri(raw, q),
    decreases 256 - p,
{
    let h = filter_pri(raw, p);
    let t = sorted_by_priority(raw, p + 1);
    lemma_pri_class_add(h, t, q);
    if p == q {
        lemma_pri_class_members(raw, p);
        lemma_pri_class_full(h, q);
        lemma_sorted_lower_bound(raw, p + 1);
        lemma_pri_class_empty(t, q);
        assert(filter_pri(sorted_by_priority(raw, p), q) =~= filter_pri(raw, q));
    } else {
        lemma_pri_class_members(raw, p);
        lemma_pri_class_empty(h, q);
        lemma_sorted_is_stable(raw, p + 1, q);
        assert(filter_pri(sorted_by_priority(raw, p), q) =~= filter_pri(raw, q));
    }
}

/// A pool splits into the actions of one priority and the rest.
proof fn lemma_pri_partition_len(s: Seq<SyncAction>, p: int)
    ensures
        filter_pri(s, p).len() + filter_not_pri(s, p).len() == s.len(),
    decreases s.len(),
{
    reveal(Seq::filter);
    if s.len() > 0 {
        lemma_pri_partition_len(s.drop_last(), p);
    }
}

/// Sorting a pool whose actions all lie at or above `p` loses nothing.
proof fn lemma_sorted_len(raw: Seq<SyncAction>, p: int)
    requires
        0 <= p <= 256,
        forall|i: int| 0 <= i < raw.len() ==> (#[trigger] raw[i].priority) as int >= p,
    ensures
        sorted_by_priority(raw, p).len() == raw.len(),
    decreases 256 - p,
{
    if p >= 256 {
        if raw.len() > 0 {
            assert(raw[0].priority as int >= 256);
            assert(false);
        }
    } else {
        let keep = filter_not_pri(raw, p);
        lemma_pri_partition_len(raw, p);
        lemma_not_pri_bound(raw, p);
        assert forall|q: int| p + 1 <= q < 256 implies #[trigger] filter_pri(keep, q)
            == filter_pri(raw, q) by {
            lemma_partition_keeps_filters(raw, p, q);
        }
        lemma_sorted_same_filters(keep, raw, p + 1);
        lemma_sorted_len(keep, p + 1);
    }
}

/// The plan order law: a built plan's actions are sorted by
/// non-decreasing priority, and within one priority they keep the
/// declaration order of the raw pool (sync-path entries before volume
/// entries, each group in source order).
pub proof fn lemma_plan_order(actions: Seq<SyncAction>, spec: WorkspaceSpec, io: Option<u64>)
    requires
        plan_matches(actions, spec, io),
    ensures
        actions.len() == spec.persistence.sync@.len() + spec_env_volumes(spec).len(),
        forall|i: int, j: int|
            0 <= i <= j < actions.len() ==> (#[trigger] actions[i]).priority <= (
            #[trigger] actions[j]).priority,
        exists|raw: Seq<SyncAction>|
            #[trigger] plan_raw_matches(raw, spec, io) && forall|q: int|
                0 <= q < 256 ==> filter_pri(actions, q) == filter_pri(raw, q),
{
    let raw = choose|raw: Seq<SyncAction>|
        #[trigger] plan_raw_matches(raw, spec, io) && actions == sorted_by_priority(raw, 0);
    lemma_sorted_is_sorted(raw, 0);
    lemma_sorted_len(raw, 0);
    assert forall|q: int| 0 <= q < 256 implies filter_pri(actions, q) == filter_pri(raw, q) by {
        lemma_sorted_is_stable(raw, 0, q);
    }
}

/// One of the three placeholder tokens.
pub open spec fn is_placeholder(pat: Seq<char>) -> bool {
    pat == "{org}"@ || pat == "{project}"@ || pat == "{env}"@
}

/// The substitution value belonging to a placeholder token.
pub open spec fn placeholder_value(pat: Seq<char>, o: Seq<char>, p: Seq<char>, e: Seq<char>) -> Seq<
    char,
> {
    if pat == "{org}"@ {
        o
    } else if pat == "{project}"@ {
        p
    } else {
        e
    }
}

/// A template in which every opening brace begins one of the three
/// placeholder tokens.
pub open spec fn wf_template(t: Seq<char>) -> bool {
    forall|i: int|
        0 <= i < t.len() && (#[trigger] t[i]) == '{' ==> occ_at(t, i, "{org}"@) || occ_at(
            t,
            i,
            "{project}"@,
        ) || occ_at(t, i, "{env}"@)
}

/// A string without an opening brace.
pub open spec fn no_open_brace(s: Seq<char>) -> bool {
    forall|i: int| 0 <= i < s.len() ==> (#[trigger] s[i]) != '{'
}

/// Simultaneous single-pass substitution of the three placeholders:
/// the canonical meaning that every substitution order reaches on
/// well-formed templates.
pub open spec fn subst_simultaneous(t: Seq<char>, o: Seq<char>, p: Seq<char>, e: Seq<char>) -> Seq<
    char,
>
    decreases t.len(),
{
    if t.len() == 0 {
        t
    } else if t.len() >= 5 && occ_at(t, 0, "{org}"@) {
        o + subst_simultaneous(t.skip(5), o, p, e)
    } else if t.len() >= 9 && occ_at(t, 0, "{project}"@) {
        p + subst_simultaneous(t.skip(9), o, p, e)
    } else if t.len() >= 5 && occ_at(t, 0, "{env}"@) {
        e + subst_simultaneous(t.skip(5), o, p, e)
    } else {
        seq![t[0]] + subst_simultaneous(t.skip(1), o, p, e)
    }
}

/// The character-level shape of the three placeholder tokens.
proof fn lemma_placeholder_facts()
    ensures
        "{org}"@.len() == 5,
        "{project}"@.len() == 9,
        "{env}"@.len() == 5,
        "{org}"@[0] == '{' && "{project}"@[0] == '{' && "{env}"@[0] == '{',
        "{org}"@[1] == 'o' && "{project}"@[1] == 'p' && "{env}"@[1] == 'e',
        "{org}"@[1] != '{' && "{org}"@[2] != '{' && "{org}"@[3] != '{' && "{org}"@[4] != '{',
        "{project}"@[1] != '{' && "{project}"@[2] != '{' && "{project}"@[3] != '{'
            && "{project}"@[4] != '{' && "{project}"@[5] != '{' && "{project}"@[6] != '{'
            && "{project}"@[7] != '{' && "{project}"@[8] != '{',
        "{env}"@[1] != '{' && "{env}"@[2] != '{' && "{env}"@[3] != '{' && "{env}"@[4] != '{',
{
    reveal_strlit("{org}");
    reveal_strlit("{project}");
    reveal_strlit("{env}");
}

/// No occurrence of a placeholder `bb` starts inside a different
/// placeholder `pp` standing at the head of a string.
proof fn lemma_no_occ_in_head_pattern(pp: Seq<char>, bb: Seq<char>, x: Seq<char>)
    requires
        is_placeholder(pp),
        is_placeholder(bb),
        pp != bb,
    ensures
        forall|i: int|
            0 <= i < pp.len() ==> !occ_at(pp + x, i, #[trigger] bb.subrange(0, bb.len() as int)),
{
    lemma_placeholder_facts();
    assert(bb.subrange(0, bb.len() as int) =~= bb);
    assert forall|i: int|
        0 <= i < pp.len() implies !occ_at(pp + x, i, #[trigger] bb.subrange(0, bb.len() as int))
    by {
        if occ_at(pp + x, i, bb) {
            let s = pp + x;
            assert(s.subrange(i, i + bb.len() as int)[0] == s[i]);
            if i == 0 {
                assert(s.subrange(0, bb.len() as int)[1] == s[1]);
                assert(s[1] == pp[1]);
                assert(pp[1] == bb[1]);
                assert(false);
            } else {
                assert(s[i] == pp[i]);
                assert(pp[i] != '{');
                assert(bb[0] == '{');
                assert(false);
            }
        }
    }
}

/// No occurrence of a placeholder starts inside a brace-free prefix.
proof fn lemma_no_occ_in_braceless(v: Seq<char>, bb: Seq<char>, x: Seq<char>)
    requires
        no_open_brace(v),
        is_placeholder(bb),
    ensures
        forall|i: int|
            0 <= i < v.len() ==> !occ_at(v + x, i, #[trigger] bb.subrange(0, bb.len() as int)),
{
    lemma_placeholder_facts();
    assert(bb.subrange(0, bb.len() as int) =~= bb);
    assert forall|i: int|
        0 <= i < v.len() implies !occ_at(v + x, i, #[trigger] bb.subrange(0, bb.len() as int)) by {
        if occ_at(v + x, i, bb) {
            let s = v + x;
            assert(s.subrange(i, i + bb.len() as int)[0] == s[i]);
            assert(s[i] == v[i]);
            assert(bb[0] == '{');
            assert(false);
        }
    }
}

/// No occurrence of a placeholder starts at a character that is not an
/// opening brace.
proof fn lemma_no_occ_at_nonbrace(c: char, x: Seq<char>, bb: Seq<char>)
    requires
        c != '{',
        is_placeholder(bb),
    ensures
        forall|i: int|
            0 <= i < 1 ==> !occ_at(seq![c] + x, i, #[trigger] bb.subrange(0, bb.len() as int)),
{
    lemma_placeholder_facts();
    assert(bb.subrange(0, bb.len() as int) =~= bb);
    assert forall|i: int|
        0 <= i < 1 implies !occ_at(seq![c] + x, i, #[trigger] bb.subrange(0, bb.len() as int)) by {
        if occ_at(seq![c] + x, 0, bb) {
            let s = seq![c] + x;
            assert(s.subrange(0, bb.len() as int)[0] == s[0]);
            assert(bb[0] == '{');
            assert(false);
        }
    }
}

/// Well-formedness survives dropping a prefix: the occurrence that an
/// opening brace begins lies wholly to its right.
proof fn lemma_wf_skip(t: Seq<char>, k: int)
    requires
        wf_template(t),
        0 <= k <= t.len(),
    ensures
        wf_template(t.skip(k)),
{
    let r = t.skip(k);
    assert forall|i: int|
        0 <= i < r.len() && (#[trigger] r[i]) == '{' implies occ_at(r, i, "{org}"@) || occ_at(
            r,
            i,
            "{project}"@,
        ) || occ_at(r, i, "{env}"@) by {
        assert(t[k + i] == '{');
        if occ_at(t, k + i, "{org}"@) {
            assert(r.subrange(i, i + "{org}"@.len() as int) =~= t.subrange(
                k + i,
                k + i + "{org}"@.len() as int,
            ));
        } else if occ_at(t, k + i, "{project}"@) {
            assert(r.subrange(i, i + "{project}"@.len() as int) =~= t.subrange(
                k + i,
                k + i + "{project}"@.len() as int,
            ));
        } else {
            assert(occ_at(t, k + i, "{env}"@));
            assert(r.subrange(i, i + "{env}"@.len() as int) =~= t.subrange(
                k + i,
                k + i + "{env}"@.len() as int,
            ));
        }
    }
}

/// Substituting the three placeholders one after the other, in any
/// order, equals the simultaneous single-pass substitution, provided
/// every opening brace of the template begins a placeholder and the
/// values carry no opening brace.
pub proof fn lemma_chain_is_simultaneous(
    t: Seq<char>,
    o: Seq<char>,
    p: Seq<char>,
    e: Seq<char>,
    a1: Seq<char>,
    a2: Seq<char>,
    a3: Seq<char>,
)
    requires
        wf_template(t),
        no_open_brace(o),
        no_open_brace(p),
        no_open_brace(e),
        is_placeholder(a1),
        is_placeholder(a2),
        is_placeholder(a3),
        a1 != a2,
        a1 != a3,
        a2 != a3,
    ensures
        replace_seq(
            replace_seq(replace_seq(t, a1, placeholder_value(a1, o, p, e)), a2, placeholder_value(a2, o, p, e)),
            a3,
            placeholder_value(a3, o, p, e),
        ) == subst_simultaneous(t, o, p, e),
    decreases t.len(),
{
    lemma_placeholder_facts();
    let v1 = placeholder_value(a1, o, p, e);
    let v2 = placeholder_value(a2, o, p, e);
    let v3 = placeholder_value(a3, o, p, e);
    if t.len() == 0 {
        assert(replace_seq(t, a1, v1) == t);
        assert(replace_seq(replace_seq(t, a1, v1), a2, v2) == t);
        assert(replace_seq(replace_seq(replace_seq(t, a1, v1), a2, v2), a3, v3) == t);
    } else if occ_at(t, 0, "{org}"@) || occ_at(t, 0, "{project}"@) || occ_at(t, 0, "{env}"@) {
        let pp = if occ_at(t, 0, "{org}"@) {
            "{org}"@
        } else if occ_at(t, 0, "{project}"@) {
            "{project}"@
        } else {
            "{env}"@
        };
        let vp = placeholder_value(pp, o, p, e);
        let rest = t.skip(pp.len() as int);
        assert(t.subrange(0, pp.len() as int) == pp);
        assert(t =~= pp + rest);
        lemma_wf_skip(t, pp.len() as int);
        lemma_chain_is_simultaneous(rest, o, p, e, a1, a2, a3);
        let r1 = replace_seq(rest, a1, v1);
        let r2 = replace_seq(r1, a2, v2);
        let r3 = replace_seq(r2, a3, v3);
        if a1 == pp {
            lemma_replace_head(rest, a1, v1);
            assert(replace_seq(t, a1, v1) == vp + r1);
            lemma_no_occ_in_braceless(vp, a2, r1);
            lemma_replace_append(vp, r1, a2, v2);
            lemma_no_occ_in_braceless(vp, a3, r2);
            lemma_replace_append(vp, r2, a3, v3);
            assert(replace_seq(replace_seq(replace_seq(t, a1, v1), a2, v2), a3, v3) == vp + r3);
        } else if a2 == pp {
            lemma_no_occ_in_head_pattern(pp, a1, rest);
            lemma_replace_append(pp, rest, a1, v1);
            assert(replace_seq(t, a1, v1) == pp + r1);
            lemma_replace_head(r1, a2, v2);
            assert(replace_seq(replace_seq(t, a1, v1), a2, v2) == vp + r2);
            lemma_no_occ_in_braceless(vp, a3, r2);
            lemma_replace_append(vp, r2, a3, v3);
            assert(replace_seq(replace_seq(replace_seq(t, a1, v1), a2, v2), a3, v3) == vp + r3);
        } else {
            assert(a3 == pp);
            lemma_no_occ_in_head_pattern(pp, a1, rest);
            lemma_replace_append(pp, rest, a1, v1);
            assert(replace_seq(t, a1, v1) == pp + r1);
            lemma_no_occ_in_head_pattern(pp, a2, r1);
            lemma_replace_append(pp, r1, a2, v2);
            assert(replace_seq(replace_seq(t, a1, v1), a2, v2) == pp + r2);
            lemma_replace_head(r2, a3, v3);
            assert(replace_seq(replace_seq(replace_seq(t, a1, v1), a2, v2), a3, v3) == vp + r3);
        }
        assert(subst_simultaneous(t, o, p, e) == vp + subst_simultaneous(rest, o, p, e));
    } else {
        assert(t[0] != '{');
        let rest = t.skip(1);
        assert(t =~= seq![t[0]] + rest);
        lemma_wf_skip(t, 1);
        lemma_chain_is_simultaneous(rest, o, p, e, a1, a2, a3);
        let r1 = replace_seq(rest, a1, v1);
        let r2 = replace_seq(r1, a2, v2);
        let r3 = replace_seq(r2, a3, v3);
        lemma_no_occ_at_nonbrace(t[0], rest, a1);
        lemma_replace_append(seq![t[0]], rest, a1, v1);
        assert(replace_seq(t, a1, v1) == seq![t[0]] + r1);
        lemma_no_occ_at_nonbrace(t[0], r1, a2);
        lemma_replace_append(seq![t[0]], r1, a2, v2);
        assert(replace_seq(replace_seq(t, a1, v1), a2, v2) == seq![t[0]] + r2);
        lemma_no_occ_at_nonbrace(t[0], r2, a3);
        lemma_replace_append(seq![t[0]], r2, a3, v3);
        assert(replace_seq(replace_seq(replace_seq(t, a1, v1), a2, v2), a3, v3) == seq![t[0]]
            + r3);
        assert(subst_simultaneous(t, o, p, e) == seq![t[0]] + subst_simultaneous(rest, o, p, e));
    }
}

/// Placeholder substitution is order-independent: on a template whose
/// opening braces all begin placeholders, and with substitution values
/// free of opening braces, substituting the three placeholders in any
/// order yields the string that `spec_subst` names.
pub proof fn lemma_subst_order_independent(
    t: Seq<char>,
    o: Seq<char>,
    p: Seq<char>,
    e: Seq<char>,
    a1: Seq<char>,
    a2: Seq<char>,
    a3: Seq<char>,
)
    requires
        wf_template(t),
        no_open_brace(o),
        no_open_brace(p),
        no_open_brace(e),
        is_placeholder(a1),
        is_placeholder(a2),
        is_placeholder(a3),
        a1 != a2,
        a1 != a3,
        a2 != a3,
    ensures
        replace_seq(
            replace_seq(replace_seq(t, a1, placeholder_value(a1, o, p, e)), a2, placeholder_value(a2, o, p, e)),
            a3,
            placeholder_value(a3, o, p, e),
        ) == spec_subst(t, o, p, e),
{
    lemma_placeholder_facts();
    lemma_chain_is_simultaneous(t, o, p, e, a1, a2, a3);
    lemma_chain_is_simultaneous(t, o, p, e, "{org}"@, "{project}"@, "{env}"@);
}

/// A template in which no placeholder occurs is returned unchanged by
/// substitution.
pub proof fn lemma_subst_unchanged(t: Seq<char>, o: Seq<char>, p: Seq<char>, e: Seq<char>)
    requires
        !crate::text::contains_seq(t, "{org}"@),
        !crate::text::contains_seq(t, "{project}"@),
        !crate::text::contains_seq(t, "{env}"@),
    ensures
        spec_subst(t, o, p, e) == t,
{
    lemma_placeholder_facts();
    assert("{org}"@.subrange(0, "{org}"@.len() as int) =~= "{org}"@);
    assert("{project}"@.subrange(0, "{project}"@.len() as int) =~= "{project}"@);
    assert("{env}"@.subrange(0, "{env}"@.len() as int) =~= "{env}"@);
    assert forall|i: int| !occ_at(t, i, #[trigger] "{org}"@.subrange(0, "{org}"@.len() as int))
    by {
        if occ_at(t, i, "{org}"@) {
            assert(crate::text::contains_seq(t, "{org}"@));
        }
    }
    lemma_replace_unchanged(t, "{org}"@, o);
    assert forall|i: int|
        !occ_at(t, i, #[trigger] "{project}"@.subrange(0, "{project}"@.len() as int)) by {
        if occ_at(t, i, "{project}"@) {
            assert(crate::text::contains_seq(t, "{project}"@));
        }
    }
    lemma_replace_unchanged(t, "{project}"@, p);
    assert forall|i: int| !occ_at(t, i, #[trigger] "{env}"@.subrange(0, "{env}"@.len() as int))
    by {
        if occ_at(t, i, "{env}"@) {
            assert(crate::text::contains_seq(t, "{env}"@));
        }
    }
    lemma_replace_unchanged(t, "{env}"@, e);
}

/// Simultaneous substitution of brace-free values into a well-formed
/// template leaves no opening brace behind.
proof fn lemma_subst_no_brace(t: Seq<char>, o: Seq<char>, p: Seq<char>, e: Seq<char>)
    requires
        wf_template(t),
        no_open_brace(o),
        no_open_brace(p),
        no_open_brace(e),
    ensures
        no_open_brace(subst_simultaneous(t, o, p, e)),
    decreases t.len(),
{
    lemma_placeholder_facts();
    if t.len() == 0 {
    } else if occ_at(t, 0, "{org}"@) || occ_at(t, 0, "{project}"@) || occ_at(t, 0, "{env}"@) {
        let pp = if occ_at(t, 0, "{org}"@) {
            "{org}"@
        } else if occ_at(t, 0, "{project}"@) {
            "{project}"@
        } else {
            "{env}"@
        };
        let vp = placeholder_value(pp, o, p, e);
        let rest = t.skip(pp.len() as int);
        lemma_wf_skip(t, pp.len() as int);
        lemma_subst_no_brace(rest, o, p, e);
        let out = vp + subst_simultaneous(rest, o, p, e);
        assert(subst_simultaneous(t, o, p, e) == out);
        assert forall|i: int| 0 <= i < out.len() implies (#[trigger] out[i]) != '{' by {
            if i < vp.len() {
                assert(out[i] == vp[i]);
            } else {
                assert(out[i] == subst_simultaneous(rest, o, p, e)[i - vp.len()]);
            }
        }
    } else {
        assert(t[0] != '{');
        let rest = t.skip(1);
        lemma_wf_skip(t, 1);
        lemma_subst_no_brace(rest, o, p, e);
        let out = seq![t[0]] + subst_simultaneous(rest, o, p, e);
        assert(subst_simultaneous(t, o, p, e) == out);
        assert forall|i: int| 0 <= i < out.len() implies (#[trigger] out[i]) != '{' by {
            if i >= 1 {
                assert(out[i] == subst_simultaneous(rest, o, p, e)[i - 1]);
            }
        }
    }
}

/// A string without opening braces holds no placeholder occurrence.
proof fn lemma_no_brace_no_placeholder(s: Seq<char>, pat: Seq<char>)
    requires
        no_open_brace(s),
        is_placeholder(pat),
    ensures
        !crate::text::contains_seq(s, pat),
{
    lemma_placeholder_facts();
    if crate::text::contains_seq(s, pat) {
        let i = choose|i: int|
            0 <= i && i + pat.len() <= s.len() && #[trigger] s.subrange(i, i + pat.len() as int)
                == pat;
        assert(s.subrange(i, i + pat.len() as int)[0] == s[i]);
        assert(pat[0] == '{');
        assert(false);
    }
}

/// Placeholder substitution is idempotent: on a well-formed template
/// with brace-free values, substituting a second time changes nothing.
pub proof fn lemma_subst_idempotent(t: Seq<char>, o: Seq<char>, p: Seq<char>, e: Seq<char>)
    requires
        wf_template(t),
        no_open_brace(o),
        no_open_brace(p),
        no_open_brace(e),
    ensures
        spec_subst(spec_subst(t, o, p, e), o, p, e) == spec_subst(t, o, p, e),
{
    lemma_placeholder_facts();
    lemma_chain_is_simultaneous(t, o, p, e, "{org}"@, "{project}"@, "{env}"@);
    lemma_subst_no_brace(t, o, p, e);
    let out = spec_subst(t, o, p, e);
    lemma_no_brace_no_placeholder(out, "{org}"@);
    lemma_no_brace_no_placeholder(out, "{project}"@);
    lemma_no_brace_no_placeholder(out, "{env}"@);
    lemma_subst_unchanged(out, o, p, e);
}

} // verus!
