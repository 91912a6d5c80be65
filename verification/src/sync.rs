//! Execution decisions: pre-execution checks, the external-tool argument
//! list, outcome classification, retry scheduling with exponential
//! backoff, and per-plan aggregation. The subprocess itself runs outside
//! the library and reports back as a plain outcome value.

use vstd::prelude::*;
use vstd::arithmetic::power2::{pow2, lemma2_to64};

use crate::backend::{spec_backend, EnvVar};
use crate::config::SyncDirection;
use crate::plan::{OperationSettings, SyncAction};
use crate::text::{
    contains_seq, spec_dec_digits, str_contains, str_to_chars, chars_to_string, push_all,
    u64_to_string,
};

verus! {

/// Number of attempts for transient failures.
pub const DEFAULT_MAX_RETRIES: u32 = 3;

/// Base delay of the exponential backoff, in milliseconds; it doubles
/// with each retry.
pub const RETRY_BASE_DELAY_MS: u64 = 1000;

/// Outcome of one subprocess invocation, as the caller observed it.
#[derive(Debug)]
pub enum AttemptOutcome {
    /// The executable was not found.
    ExecutableMissing,
    /// Spawning failed for another reason, with the error's text.
    SpawnFailed(String),
    /// The process ran to completion.
    Finished {
        /// Whether it exited with status zero.
        exit_ok: bool,
        /// Its standard-error text.
        stderr: String,
    },
}

/// Classification of one attempt's outcome.
#[derive(Debug)]
pub enum AttemptClass {
    /// The attempt succeeded.
    Success,
    /// The attempt is treated as a successful skip.
    Skipped,
    /// A transient failure, worth retrying.
    Retryable(String),
    /// A permanent failure.
    NotRetryable(String),
}

/// Classification with message text as a character sequence.
pub ghost enum ClassView {
    /// The attempt succeeded.
    Success,
    /// The attempt is treated as a successful skip.
    Skipped,
    /// A transient failure, worth retrying.
    Retryable(Seq<char>),
    /// A permanent failure.
    NotRetryable(Seq<char>),
}

/// The view of a classification value.
pub open spec fn class_view(c: AttemptClass) -> ClassView {
    match c {
        AttemptClass::Success => ClassView::Success,
        AttemptClass::Skipped => ClassView::Skipped,
        AttemptClass::Retryable(m) => ClassView::Retryable(m@),
        AttemptClass::NotRetryable(m) => ClassView::NotRetryable(m@),
    }
}

/// Whether stderr text shows a failure worth retrying: network and
/// connection trouble, provider throttling and server errors, or lock
/// contention of the bidirectional mode.
pub open spec fn spec_is_retryable(s: Seq<char>) -> bool {
    ||| contains_seq(s, "connection reset"@)
    ||| contains_seq(s, "connection refused"@)
    ||| contains_seq(s, "timeout"@)
    ||| contains_seq(s, "temporary failure"@)
    ||| contains_seq(s, "network is unreachable"@)
    ||| contains_seq(s, "no such host"@)
    ||| contains_seq(s, "TLS handshake"@)
    ||| contains_seq(s, "EOF"@)
    ||| contains_seq(s, "503"@)
    ||| contains_seq(s, "500"@)
    ||| contains_seq(s, "429"@)
    ||| contains_seq(s, "SlowDown"@)
    ||| contains_seq(s, "ServiceUnavailable"@)
    ||| contains_seq(s, "InternalError"@)
    ||| contains_seq(s, "lock file"@)
    ||| contains_seq(s, "locked"@)
}

/// Whether an error text shows a transient failure worth retrying.
pub fn is_retryable_error(stderr: &str) -> (r: bool)
    ensures
        r == spec_is_retryable(stderr@),
{
    str_contains(stderr, "connection reset") || str_contains(stderr, "connection refused")
        || str_contains(stderr, "timeout") || str_contains(stderr, "temporary failure")
        || str_contains(stderr, "network is unreachable") || str_contains(stderr, "no such host")
        || str_contains(stderr, "TLS handshake") || str_contains(stderr, "EOF") || str_contains(
        stderr,
        "503",
    ) || str_contains(stderr, "500") || str_contains(stderr, "429") || str_contains(
        stderr,
        "SlowDown",
    ) || str_contains(stderr, "ServiceUnavailable") || str_contains(stderr, "InternalError")
        || str_contains(stderr, "lock file") || str_contains(stderr, "locked")
}

/// The classification of one outcome: a zero exit succeeds; a missing
/// remote directory, or an empty source on a bidirectional run, is a
/// successful skip; recognizably transient stderr is retryable; a
/// missing executable and everything else is not.
pub open spec fn spec_classify(direction: SyncDirection, o: AttemptOutcome) -> ClassView {
    match o {
        AttemptOutcome::ExecutableMissing => ClassView::NotRetryable(
            "rclone not found - please install rclone"@,
        ),
        AttemptOutcome::SpawnFailed(m) => ClassView::Retryable(
            "failed to execute rclone: "@ + m@,
        ),
        AttemptOutcome::Finished { exit_ok, stderr } => {
            if exit_ok {
                ClassView::Success
            } else if contains_seq(stderr@, "directory not found"@) || contains_seq(
                stderr@,
                "does not exist"@,
            ) {
                ClassView::Skipped
            } else if contains_seq(stderr@, "empty"@) && direction
                == SyncDirection::Bidirectional {
                ClassView::Skipped
            } else if spec_is_retryable(stderr@) {
                ClassView::Retryable(stderr@)
            } else {
                ClassView::NotRetryable(stderr@)
            }
        },
    }
}

/// Classify the outcome of one attempt.
pub fn classify_attempt(direction: &SyncDirection, outcome: &AttemptOutcome) -> (r: AttemptClass)
    ensures
        class_view(r) == spec_classify(*direction, *outcome),
{
    match outcome {
        AttemptOutcome::ExecutableMissing => AttemptClass::NotRetryable(
            String::from_str("rclone not found - please install rclone"),
        ),
        AttemptOutcome::SpawnFailed(m) => {
            let mut msg = str_to_chars("failed to execute rclone: ");
            let mc = str_to_chars(m.as_str());
            push_all(&mut msg, &mc);
            AttemptClass::Retryable(chars_to_string(&msg))
        },
        AttemptOutcome::Finished { exit_ok, stderr } => {
            if *exit_ok {
                AttemptClass::Success
            } else if str_contains(stderr.as_str(), "directory not found") || str_contains(
                stderr.as_str(),
                "does not exist",
            ) {
                AttemptClass::Skipped
            } else if str_contains(stderr.as_str(), "empty") && *direction
                == SyncDirection::Bidirectional {
                AttemptClass::Skipped
            } else if is_retryable_error(stderr.as_str()) {
                AttemptClass::Retryable(stderr.clone())
            } else {
                AttemptClass::NotRetryable(stderr.clone())
            }
        },
    }
}

/// Result of executing one sync action.
#[derive(Debug)]
pub struct SyncResult {
    /// Name of the sync action.
    pub name: String,
    /// Whether the action succeeded.
    pub success: bool,
    /// Error text of a failed action.
    pub error: Option<String>,
    /// Whether this pass established the bidirectional baseline.
    pub was_resync: bool,
    /// Number of attempts made.
    pub attempts: u32,
}

impl Clone for SyncResult {
    fn clone(&self) -> (r: Self)
        ensures
            r == *self,
    {
        SyncResult {
            name: self.name.clone(),
            success: self.success,
            error: crate::config::clone_opt_string(&self.error),
            was_resync: self.was_resync,
            attempts: self.attempts,
        }
    }
}

/// What to do after one attempt: finish with a result, or back off and
/// try again.
#[derive(Debug)]
pub enum SyncStep {
    /// The action is finished.
    Done(SyncResult),
    /// Sleep, then run the next attempt.
    Backoff {
        /// How long to sleep before the next attempt, in milliseconds.
        delay_ms: u64,
    },
}

/// The backoff delay before the attempt after `attempt`: the base
/// delay, doubled for every completed retry.
pub open spec fn spec_backoff_delay(attempt: int) -> int {
    RETRY_BASE_DELAY_MS * pow2((attempt - 1) as nat)
}

/// The backoff delay after the failed attempt `attempt`.
pub fn backoff_delay_ms(attempt: u32) -> (r: u64)
    requires
        1 <= attempt < DEFAULT_MAX_RETRIES,
    ensures
        r == spec_backoff_delay(attempt as int),
{
    proof {
        lemma2_to64();
    }
    if attempt == 1 {
        1000
    } else {
        2000
    }
}

/// Decide what follows one classified attempt: success and skips finish
/// successfully; permanent failures finish at once; transient failures
/// back off and retry until the attempt ceiling, whose exhaustion
/// finishes with the last error and the full attempt count.
pub fn on_attempt(name: &str, resync: bool, attempt: u32, class: AttemptClass) -> (r: SyncStep)
    requires
        1 <= attempt <= DEFAULT_MAX_RETRIES,
    ensures
        match class_view(class) {
            ClassView::Success => r matches SyncStep::Done(res) && res.name@ == name@
                && res.success && res.error is None && res.was_resync == resync && res.attempts
                == attempt,
            ClassView::Skipped => r matches SyncStep::Done(res) && res.name@ == name@
                && res.success && res.error is None && res.was_resync == resync && res.attempts
                == attempt,
            ClassView::NotRetryable(m) => r matches SyncStep::Done(res) && res.name@ == name@
                && !res.success && (res.error matches Option::Some(e) && e@ == m)
                && res.was_resync == resync && res.attempts == attempt,
            ClassView::Retryable(m) => {
                if attempt < DEFAULT_MAX_RETRIES {
                    r matches SyncStep::Backoff { delay_ms } && delay_ms == spec_backoff_delay(
                        attempt as int,
                    )
                } else {
                    r matches SyncStep::Done(res) && res.name@ == name@ && !res.success && (
                    res.error matches Option::Some(e) && e@ == m) && res.was_resync == resync
                        && res.attempts == DEFAULT_MAX_RETRIES
                }
            },
        },
{
    match class {
        AttemptClass::Success => SyncStep::Done(
            SyncResult {
                name: name.to_owned(),
                success: true,
                error: Option::None,
                was_resync: resync,
                attempts: attempt,
            },
        ),
        AttemptClass::Skipped => SyncStep::Done(
            SyncResult {
                name: name.to_owned(),
                success: true,
                error: Option::None,
                was_resync: resync,
                attempts: attempt,
            },
        ),
        AttemptClass::NotRetryable(m) => SyncStep::Done(
            SyncResult {
                name: name.to_owned(),
                success: false,
                error: Option::Some(m),
                was_resync: resync,
                attempts: attempt,
            },
        ),
        AttemptClass::Retryable(m) => {
            if attempt < DEFAULT_MAX_RETRIES {
                SyncStep::Backoff { delay_ms: backoff_delay_ms(attempt) }
            } else {
                SyncStep::Done(
                    SyncResult {
                        name: name.to_owned(),
                        success: false,
                        error: Option::Some(m),
                        was_resync: resync,
                        attempts: DEFAULT_MAX_RETRIES,
                    },
                )
            }
        },
    }
}

/// What to do before any attempt runs.
#[derive(Debug)]
pub enum PreCheck {
    /// The local path is missing: succeed without work; sync is deferred
    /// until the path appears.
    MissingLocal(SyncResult),
    /// No remote is configured: fail without retrying.
    NoRemote(SyncResult),
    /// Run the attempts against this connection string.
    Run(String),
}

/// Check an action before its first attempt: a missing local directory
/// is a successful no-op, a missing resolved remote a permanent
/// failure, and otherwise the connection string is built for execution.
pub fn prepare_execution(action: &SyncAction, local_exists: bool, env: &Vec<EnvVar>) -> (r:
    PreCheck)
    ensures
        !local_exists ==> (r matches PreCheck::MissingLocal(res) && res.name@ == action.name@
            && res.success && res.error is None && !res.was_resync && res.attempts == 0),
        local_exists ==> match action.remote {
            Option::None => r matches PreCheck::NoRemote(res) && res.name@ == action.name@
                && !res.success && (res.error matches Option::Some(e) && e@
                == "no remote configured for sync action"@) && !res.was_resync && res.attempts
                == 0,
            Option::Some(rr) => r matches PreCheck::Run(t) && t@ == spec_backend(
                rr,
                action.remote_path@,
                env@,
            ),
        },
{
    if !local_exists {
        return PreCheck::MissingLocal(
            SyncResult {
                name: action.name.clone(),
                success: true,
                error: Option::None,
                was_resync: false,
                attempts: 0,
            },
        );
    }
    match &action.remote {
        Option::None => PreCheck::NoRemote(
            SyncResult {
                name: action.name.clone(),
                success: false,
                error: Option::Some(String::from_str("no remote configured for sync action")),
                was_resync: false,
                attempts: 0,
            },
        ),
        Option::Some(rr) => PreCheck::Run(
            crate::backend::build_rclone_backend(rr, action.remote_path.as_str(), env),
        ),
    }
}

/// An optional string as an optional character sequence.
pub open spec fn opt_view(o: Option<String>) -> Option<Seq<char>> {
    match o {
        Option::Some(s) => Option::Some(s@),
        Option::None => Option::None,
    }
}

/// The environment variable names that hold the crypt passwords of an
/// action's remote, when it is a crypt remote.
pub fn crypt_env_sources(action: &SyncAction) -> (r: (Option<String>, Option<String>))
    ensures
        match action.remote {
            Option::Some(rr) => {
                if rr.remote_type@ == "crypt"@ {
                    opt_view(r.0) == opt_view(rr.password_env) && opt_view(r.1) == opt_view(
                        rr.password2_env,
                    )
                } else {
                    r.0 is None && r.1 is None
                }
            },
            Option::None => r.0 is None && r.1 is None,
        },
{
    match &action.remote {
        Option::Some(rr) => {
            if crate::text::str_eq(rr.remote_type.as_str(), "crypt") {
                (
                    crate::config::clone_opt_string(&rr.password_env),
                    crate::config::clone_opt_string(&rr.password2_env),
                )
            } else {
                (Option::None, Option::None)
            }
        },
        Option::None => (Option::None, Option::None),
    }
}

/// The subcommand and endpoint order of one direction, with the
/// resilience flags and the first-pass baseline flag of the
/// bidirectional mode.
pub open spec fn spec_direction_args(
    direction: SyncDirection,
    local: Seq<char>,
    target: Seq<char>,
    resync: bool,
) -> Seq<Seq<char>> {
    match direction {
        SyncDirection::Bidirectional => seq![
            "bisync"@,
            local,
            target,
            "--resilient"@,
            "--recover"@,
            "--max-lock"@,
            "2m"@,
        ] + if resync {
            seq!["--resync"@]
        } else {
            Seq::empty()
        },
        SyncDirection::PushOnly => seq!["sync"@, local, target],
        SyncDirection::PullOnly => seq!["sync"@, target, local],
    }
}

/// One `--exclude` flag per pattern, in order.
pub open spec fn spec_exclude_args(excludes: Seq<String>) -> Seq<Seq<char>>
    decreases excludes.len(),
{
    if excludes.len() == 0 {
        Seq::empty()
    } else {
        spec_exclude_args(excludes.drop_last()) + seq!["--exclude"@, excludes.last()@]
    }
}

/// The operation-setting flags: transfers and checkers always, with the
/// defaults 8 and 16 when unset; the bandwidth limit only when set.
pub open spec fn spec_operation_args(op: OperationSettings) -> Seq<Seq<char>> {
    seq!["--transfers"@, match op.transfers {
        Option::Some(t) => spec_dec_digits(t as int),
        Option::None => "8"@,
    }] + seq!["--checkers"@, match op.checkers {
        Option::Some(c) => spec_dec_digits(c as int),
        Option::None => "16"@,
    }] + match op.bwlimit {
        Option::Some(b) => seq!["--bwlimit"@, b@],
        Option::None => Seq::empty(),
    }
}

/// The flags every invocation carries: fast listing, verbosity, and the
/// dry-run flag when requested.
pub open spec fn spec_common_args(dry_run: bool) -> Seq<Seq<char>> {
    seq!["--fast-list"@, "-v"@] + if dry_run {
        seq!["--dry-run"@]
    } else {
        Seq::empty()
    }
}

/// The full argument list of one invocation.
pub open spec fn spec_rclone_args(
    action: SyncAction,
    target: Seq<char>,
    dry_run: bool,
    resync: bool,
) -> Seq<Seq<char>> {
    spec_direction_args(action.direction, action.local_path@, target, resync)
        + spec_exclude_args(action.excludes@) + spec_operation_args(action.operation)
        + spec_common_args(dry_run)
}

/// Append the operation-setting flags to an argument list.
pub fn apply_operation_settings(args: &mut Vec<String>, settings: &OperationSettings)
    ensures
        final(args).deep_view() == old(args).deep_view() + spec_operation_args(*settings),
{
    args.push(String::from_str("--transfers"));
    match settings.transfers {
        Option::Some(t) => args.push(u64_to_string(t as u64)),
        Option::None => args.push(String::from_str("8")),
    }
    args.push(String::from_str("--checkers"));
    match settings.checkers {
        Option::Some(c) => args.push(u64_to_string(c as u64)),
        Option::None => args.push(String::from_str("16")),
    }
    match &settings.bwlimit {
        Option::Some(b) => {
            args.push(String::from_str("--bwlimit"));
            args.push(b.clone());
        },
        Option::None => {},
    }
    proof {
        assert(args.deep_view() =~~= old(args).deep_view() + spec_operation_args(*settings));
    }
}

/// Build the full external-tool argument list of one attempt.
pub fn rclone_args(action: &SyncAction, remote_target: &str, dry_run: bool, resync: bool) -> (r:
    Vec<String>)
    ensures
        r.deep_view() == spec_rclone_args(*action, remote_target@, dry_run, resync),
{
    let mut args: Vec<String> = Vec::new();
    match action.direction {
        SyncDirection::Bidirectional => {
            args.push(String::from_str("bisync"));
            args.push(action.local_path.clone());
            args.push(remote_target.to_owned());
            args.push(String::from_str("--resilient"));
            args.push(String::from_str("--recover"));
            args.push(String::from_str("--max-lock"));
            args.push(String::from_str("2m"));
            if resync {
                args.push(String::from_str("--resync"));
            }
        },
        SyncDirection::PushOnly => {
            args.push(String::from_str("sync"));
            args.push(action.local_path.clone());
            args.push(remote_target.to_owned());
        },
        SyncDirection::PullOnly => {
            args.push(String::from_str("sync"));
            args.push(remote_target.to_owned());
            args.push(action.local_path.clone());
        },
    }
    proof {
        assert(args.deep_view() =~~= spec_direction_args(
            action.direction,
            action.local_path@,
            remote_target@,
            resync,
        ));
    }
    let ghost part1 = args.deep_view();
    let m: usize = action.excludes.len();
    let mut i: usize = 0;
    proof {
        assert(action.excludes@.subrange(0, 0) =~= Seq::<String>::empty());
        assert(args.deep_view() =~~= part1 + spec_exclude_args(action.excludes@.subrange(0, 0)));
    }
    while i < m
        invariant
            m == action.excludes@.len(),
            i <= m,
            args.deep_view() == part1 + spec_exclude_args(action.excludes@.subrange(0, i as int)),
        decreases m - i,
    {
        let ghost pre = args.deep_view();
        let ghost prelen = args@.len();
        args.push(String::from_str("--exclude"));
        args.push(action.excludes[i].clone());
        i = i + 1;
        proof {
            assert(action.excludes@.subrange(0, i as int).drop_last() =~= action.excludes@
                .subrange(0, i - 1));
            assert(action.excludes@.subrange(0, i as int).last() == action.excludes@[i - 1]);
            assert(args@.len() == prelen + 2);
            assert(args@[prelen as int]@ == "--exclude"@);
            assert(args@[prelen as int + 1]@ == action.excludes@[i - 1]@);
            assert(args.deep_view() =~~= pre + seq!["--exclude"@, action.excludes@[i - 1]@]);
            assert(args.deep_view() =~~= part1 + spec_exclude_args(
                action.excludes@.subrange(0, i as int),
            ));
        }
    }
    proof {
        assert(action.excludes@.subrange(0, m as int) =~= action.excludes@);
    }
    let ghost part2 = args.deep_view();
    apply_operation_settings(&mut args, &action.operation);
    args.push(String::from_str("--fast-list"));
    args.push(String::from_str("-v"));
    if dry_run {
        args.push(String::from_str("--dry-run"));
    }
    proof {
        assert(args.deep_view() =~~= part2 + spec_operation_args(action.operation)
            + spec_common_args(dry_run));
        assert(args.deep_view() =~~= spec_rclone_args(*action, remote_target@, dry_run, resync));
    }
    args
}

/// Result of executing an entire plan.
#[derive(Debug)]
pub struct PlanResult {
    /// Per-action results, in plan order.
    pub results: Vec<SyncResult>,
    /// How many actions succeeded.
    pub success_count: usize,
    /// How many actions failed.
    pub failure_count: usize,
}

/// How many of the results report success.
pub open spec fn spec_success_count(rs: Seq<SyncResult>) -> int
    decreases rs.len(),
{
    if rs.len() == 0 {
        0
    } else {
        spec_success_count(rs.drop_last()) + if rs.last().success {
            1int
        } else {
            0int
        }
    }
}

impl PlanResult {
    /// True when every action of the pass succeeded.
    pub fn all_success(&self) -> (r: bool)
        ensures
            r == (self.failure_count == 0),
    {
        self.failure_count == 0
    }
}

/// Aggregate per-action results into a plan result: the results in
/// order, with the number of successes and failures.
pub fn summarize_results(results: Vec<SyncResult>) -> (r: PlanResult)
    ensures
        r.results@ == results@,
        r.success_count == spec_success_count(results@),
        r.failure_count == results@.len() - spec_success_count(results@),
{
    let n: usize = results.len();
    let mut success_count: usize = 0;
    let mut i: usize = 0;
    proof {
        assert(results@.subrange(0, 0) =~= Seq::<SyncResult>::empty());
    }
    while i < n
        invariant
            n == results@.len(),
            i <= n,
            success_count == spec_success_count(results@.subrange(0, i as int)),
            success_count <= i,
        decreases n - i,
    {
        proof {
            assert(results@.subrange(0, i + 1).drop_last() =~= results@.subrange(0, i as int));
            assert(results@.subrange(0, i + 1).last() == results@[i as int]);
        }
        if results[i].success {
            success_count = success_count + 1;
        }
        i = i + 1;
    }
    proof {
        assert(results@.subrange(0, n as int) =~= results@);
    }
    let failure_count: usize = n - success_count;
    PlanResult { results, success_count, failure_count }
}

/// The first error text among the results, in plan order, whatever the
/// success flags say.
pub open spec fn spec_first_error(rs: Seq<SyncResult>) -> Option<Seq<char>>
    decreases rs.len(),
{
    if rs.len() == 0 {
        Option::None
    } else {
        match rs[0].error {
            Option::Some(e) => Option::Some(e@),
            Option::None => spec_first_error(rs.skip(1)),
        }
    }
}

/// The first error text of a pass.
pub fn first_error(results: &Vec<SyncResult>) -> (r: Option<String>)
    ensures
        opt_view(r) == spec_first_error(results@),
{
    let n: usize = results.len();
    let mut i: usize = 0;
    proof {
        assert(results@.skip(0) =~= results@);
    }
    while i < n
        invariant
            n == results@.len(),
            i <= n,
            spec_first_error(results@) == spec_first_error(results@.skip(i as int)),
        decreases n - i,
    {
        proof {
            assert(results@.skip(i as int)[0] == results@[i as int]);
        }
        match &results[i].error {
            Option::Some(e) => {
                return Option::Some(e.clone());
            },
            Option::None => {},
        }
        i = i + 1;
        proof {
            assert(results@.skip(i - 1).skip(1) =~= results@.skip(i as int));
        }
    }
    proof {
        assert(results@.skip(n as int) =~= Seq::<SyncResult>::empty());
    }
    Option::None
}

/// Whether a pass must establish the bidirectional baseline first: only
/// bidirectional actions need it, and only while their marker is
/// absent.
pub fn resync_needed(direction: &SyncDirection, marker_present: bool) -> (r: bool)
    ensures
        r == (*direction == SyncDirection::Bidirectional && !marker_present),
{
    match direction {
        SyncDirection::Bidirectional => !marker_present,
        _ => false,
    }
}

/// An always-retryable failure backs off exactly twice before the
/// attempt ceiling, and the second delay is twice the first.
pub proof fn lemma_backoff_doubles()
    ensures
        spec_backoff_delay(1) == RETRY_BASE_DELAY_MS,
        spec_backoff_delay(2) == 2 * spec_backoff_delay(1),
{
    lemma2_to64();
}

} // verus!
