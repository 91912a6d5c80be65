//! Durable-state decisions: bisync initialization markers, the rolling
//! health record, and the layout of the per-workspace state directory.
//! Reading and writing the files themselves happens outside the
//! library; the marker set and the health transition are pure values.

use vstd::prelude::*;

use crate::sync::PlanResult;
use crate::text::{str_to_chars, chars_to_string, push_all, str_eq};

verus! {

/// Relies on `directories::BaseDirs`: `new` finds the home directory
/// and `data_local_dir` names the platform-local data directory under
/// it; the result depends on the machine and environment, so nothing is
/// promised of it.
#[verifier::external_body]
fn platform_data_dir() -> Option<String> {
    directories::BaseDirs::new().map(|d| d.data_local_dir().to_string_lossy().into_owned())
}

/// `base` and `rest` joined by one path separator.
pub open spec fn spec_path_join(base: Seq<char>, rest: Seq<char>) -> Seq<char> {
    base + seq!['/'] + rest
}

/// Join two path fragments with one separator.
pub fn path_join(base: &str, rest: &str) -> (r: String)
    ensures
        r@ == spec_path_join(base@, rest@),
{
    let mut out = str_to_chars(base);
    out.push('/');
    let rc = str_to_chars(rest);
    push_all(&mut out, &rc);
    proof {
        assert(out@ =~= spec_path_join(base@, rest@));
    }
    chars_to_string(&out)
}

/// The state directory of `workspace` under a given root:
/// `root/coltec-daemon/workspace`.
pub open spec fn spec_state_dir(root: Seq<char>, workspace: Seq<char>) -> Seq<char> {
    spec_path_join(spec_path_join(root, "coltec-daemon"@), workspace)
}

/// The state directory of a workspace under an explicit root.
pub fn state_dir_under(root: &str, workspace: &str) -> (r: String)
    ensures
        r@ == spec_state_dir(root@, workspace@),
{
    let base = path_join(root, "coltec-daemon");
    path_join(base.as_str(), workspace)
}

/// The state directory of a workspace: under the platform-local data
/// directory, or under `/tmp` when none is known.
pub fn state_dir(workspace: &str) -> (r: String)
    ensures
        exists|root: Seq<char>| r@ == spec_state_dir(root, workspace@),
{
    let root: String = match platform_data_dir() {
        Option::Some(d) => d,
        Option::None => String::from_str("/tmp"),
    };
    let r = state_dir_under(root.as_str(), workspace);
    proof {
        assert(r@ == spec_state_dir(root@, workspace@));
    }
    r
}

/// The health-record path of a workspace: `health.json` in its state
/// directory.
pub fn health_file_path(workspace: &str) -> (r: String)
    ensures
        exists|root: Seq<char>|
            r@ == spec_path_join(spec_state_dir(root, workspace@), "health.json"@),
{
    let dir = state_dir(workspace);
    let ghost root = choose|root: Seq<char>| dir@ == spec_state_dir(root, workspace@);
    let r = path_join(dir.as_str(), "health.json");
    proof {
        assert(r@ == spec_path_join(spec_state_dir(root, workspace@), "health.json"@));
    }
    r
}

/// The marker file name of an action: `name.bisync`.
pub fn marker_file_name(action_name: &str) -> (r: String)
    ensures
        r@ == action_name@ + ".bisync"@,
{
    let mut out = str_to_chars(action_name);
    let suffix = str_to_chars(".bisync");
    push_all(&mut out, &suffix);
    chars_to_string(&out)
}

/// One initialized (workspace, action) pair.
#[derive(Debug)]
pub struct MarkerKey {
    /// Workspace name.
    pub workspace: String,
    /// Action name.
    pub action: String,
}

/// Whether the pair (`workspace`, `action`) occurs among the keys.
pub open spec fn spec_marked(keys: Seq<MarkerKey>, workspace: Seq<char>, action: Seq<char>) -> bool {
    exists|i: int|
        0 <= i < keys.len() && (#[trigger] keys[i]).workspace@ == workspace && keys[i].action@
            == action
}

/// The set of actions whose bidirectional baseline has been
/// established, one entry per (workspace, action) pair. The caller
/// loads it from the marker files and persists each new entry as one
/// empty marker file.
#[derive(Debug)]
pub struct MarkerSet {
    /// The initialized pairs.
    pub entries: Vec<MarkerKey>,
}

impl MarkerSet {
    /// An empty marker set: nothing is initialized.
    pub fn new() -> (r: Self)
        ensures
            r.entries@.len() == 0,
    {
        MarkerSet { entries: Vec::new() }
    }

    /// Whether this pair still needs a first-pass full
    /// resynchronization: exactly while its marker is absent.
    pub fn needs_resync(&self, workspace: &str, action_name: &str) -> (r: bool)
        ensures
            r == !spec_marked(self.entries@, workspace@, action_name@),
    {
        let n: usize = self.entries.len();
        let mut i: usize = 0;
        while i < n
            invariant
                n == self.entries@.len(),
                i <= n,
                forall|j: int|
                    0 <= j < i ==> !((#[trigger] self.entries@[j]).workspace@ == workspace@
                        && self.entries@[j].action@ == action_name@),
            decreases n - i,
        {
            if str_eq(self.entries[i].workspace.as_str(), workspace) && str_eq(
                self.entries[i].action.as_str(),
                action_name,
            ) {
                return false;
            }
            i = i + 1;
        }
        true
    }

    /// Record that the pair's baseline is established. Every pair
    /// marked before stays marked, and nothing else becomes marked.
    pub fn mark_initialized(&mut self, workspace: &str, action_name: &str)
        ensures
            spec_marked(final(self).entries@, workspace@, action_name@),
            forall|w: Seq<char>, a: Seq<char>|
                #[trigger] spec_marked(final(self).entries@, w, a) <==> (spec_marked(
                    old(self).entries@,
                    w,
                    a,
                ) || (w == workspace@ && a == action_name@)),
    {
        let ghost before = self.entries@;
        self.entries.push(
            MarkerKey { workspace: workspace.to_owned(), action: action_name.to_owned() },
        );
        proof {
            assert(self.entries@ == before.push(self.entries@[before.len() as int]));
            assert forall|w: Seq<char>, a: Seq<char>|
                #[trigger] spec_marked(self.entries@, w, a) <==> (spec_marked(before, w, a) || (w
                == workspace@ && a == action_name@)) by {
                if spec_marked(before, w, a) {
                    let i = choose|i: int|
                        0 <= i < before.len() && (#[trigger] before[i]).workspace@ == w
                            && before[i].action@ == a;
                    assert(self.entries@[i].workspace@ == w && self.entries@[i].action@ == a);
                }
                if w == workspace@ && a == action_name@ {
                    assert(self.entries@[before.len() as int].workspace@ == w
                        && self.entries@[before.len() as int].action@ == a);
                }
                if spec_marked(self.entries@, w, a) {
                    let i = choose|i: int|
                        0 <= i < self.entries@.len() && (#[trigger] self.entries@[i]).workspace@
                            == w && self.entries@[i].action@ == a;
                    if i < before.len() {
                        assert(before[i].workspace@ == w && before[i].action@ == a);
                    }
                }
            }
        }
    }
}

/// The persisted health record of a workspace.
#[derive(Debug)]
pub struct HealthStatus {
    /// Whether the workspace counts as healthy.
    pub healthy: bool,
    /// Epoch seconds of the last successful pass, if any.
    pub last_success: Option<u64>,
    /// Epoch seconds of the last attempted pass.
    pub last_attempt: u64,
    /// Number of consecutive failing passes.
    pub consecutive_failures: u32,
    /// First error text of the last failing pass, if any.
    pub last_error: Option<String>,
}

impl Clone for HealthStatus {
    fn clone(&self) -> (r: Self)
        ensures
            r == *self,
    {
        HealthStatus {
            healthy: self.healthy,
            last_success: self.last_success,
            last_attempt: self.last_attempt,
            consecutive_failures: self.consecutive_failures,
            last_error: crate::config::clone_opt_string(&self.last_error),
        }
    }
}

impl HealthStatus {
    /// The record assumed when none exists or none can be read: healthy,
    /// with no history.
    pub fn fresh() -> (r: Self)
        ensures
            r.healthy,
            r.last_success is None,
            r.last_attempt == 0,
            r.consecutive_failures == 0,
            r.last_error is None,
    {
        HealthStatus {
            healthy: true,
            last_success: Option::None,
            last_attempt: 0,
            consecutive_failures: 0,
            last_error: Option::None,
        }
    }
}

/// Advance a health record by one execution pass at time `now`: the
/// attempt time always moves; a fully successful pass resets the
/// failure streak, clears the error and marks healthy; a failing pass
/// lengthens the streak, records `pass_error`, and flips to unhealthy
/// once the streak reaches 3.
pub fn advance_health(
    status: &HealthStatus,
    all_success: bool,
    now: u64,
    pass_error: Option<String>,
) -> (r: HealthStatus)
    requires
        status.consecutive_failures < u32::MAX,
    ensures
        r.last_attempt == now,
        all_success ==> r.healthy && r.last_success == Option::Some(now)
            && r.consecutive_failures == 0 && r.last_error is None,
        !all_success ==> {
            &&& r.consecutive_failures == status.consecutive_failures + 1
            &&& r.healthy == (status.healthy && status.consecutive_failures + 1 < 3)
            &&& r.last_error == pass_error
            &&& r.last_success == status.last_success
        },
{
    if all_success {
        HealthStatus {
            healthy: true,
            last_success: Option::Some(now),
            last_attempt: now,
            consecutive_failures: 0,
            last_error: Option::None,
        }
    } else {
        let streak = status.consecutive_failures + 1;
        HealthStatus {
            healthy: status.healthy && streak < 3,
            last_success: status.last_success,
            last_attempt: now,
            consecutive_failures: streak,
            last_error: pass_error,
        }
    }
}

/// Advance a health record by a whole plan result: success when every
/// action of the pass succeeded, the pass error being the first error
/// among the results.
pub fn update_health_record(status: &HealthStatus, result: &PlanResult, now: u64) -> (r:
    HealthStatus)
    requires
        status.consecutive_failures < u32::MAX,
    ensures
        r.last_attempt == now,
        result.failure_count == 0 ==> r.healthy && r.last_success == Option::Some(now)
            && r.consecutive_failures == 0 && r.last_error is None,
        result.failure_count != 0 ==> {
            &&& r.consecutive_failures == status.consecutive_failures + 1
            &&& r.healthy == (status.healthy && status.consecutive_failures + 1 < 3)
            &&& crate::sync::opt_view(r.last_error) == crate::sync::spec_first_error(
                result.results@,
            )
            &&& r.last_success == status.last_success
        },
{
    let all_success = result.all_success();
    let pass_error: Option<String> = if all_success {
        Option::None
    } else {
        crate::sync::first_error(&result.results)
    };
    advance_health(status, all_success, now, pass_error)
}

/// Health transitions over whole passes: starting from a healthy record
/// with no failure streak, three consecutive failing passes flip the
/// record to unhealthy, and the next fully successful pass resets the
/// streak to zero and the record to healthy.
pub proof fn lemma_health_transitions(
    s0: HealthStatus,
    s1: HealthStatus,
    s2: HealthStatus,
    s3: HealthStatus,
    s4: HealthStatus,
    t1: u64,
    t2: u64,
    t3: u64,
    t4: u64,
    e1: Option<String>,
    e2: Option<String>,
    e3: Option<String>,
)
    requires
        s0.healthy,
        s0.consecutive_failures == 0,
        call_ensures(advance_health, (&s0, false, t1, e1), s1),
        call_ensures(advance_health, (&s1, false, t2, e2), s2),
        call_ensures(advance_health, (&s2, false, t3, e3), s3),
        call_ensures(advance_health, (&s3, true, t4, Option::<String>::None), s4),
    ensures
        s1.healthy,
        s2.healthy,
        !s3.healthy,
        s4.healthy,
        s4.consecutive_failures == 0,
{
}

/// The bisync-marker law: in a store holding no marker for a pair, a
/// resynchronization is owed for it; a store grown by exactly one
/// marking, as `mark_initialized` produces, owes none for the marked
/// pair, keeps every earlier marker, and changes no other pair.
pub proof fn lemma_marker_lifecycle(
    before: Seq<MarkerKey>,
    after: Seq<MarkerKey>,
    workspace: Seq<char>,
    action: Seq<char>,
)
    requires
        forall|w: Seq<char>, a: Seq<char>|
            #[trigger] spec_marked(after, w, a) <==> (spec_marked(before, w, a) || (w == workspace
                && a == action)),
    ensures
        spec_marked(after, workspace, action),
        forall|w: Seq<char>, a: Seq<char>|
            spec_marked(before, w, a) ==> #[trigger] spec_marked(after, w, a),
        forall|w: Seq<char>, a: Seq<char>|
            !(w == workspace && a == action) ==> (#[trigger] spec_marked(after, w, a)
                <==> spec_marked(before, w, a)),
        forall|w: Seq<char>, a: Seq<char>| !spec_marked(Seq::<MarkerKey>::empty(), w, a),
{
}

} // verus!
