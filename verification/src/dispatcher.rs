//! The delivery stage: how a downstream answer is classified, and what the
//! retry policy makes of it.

use crate::metric::AggregatedMetric;
use crate::text::join_lines;
use vstd::prelude::*;
use vstd::string::StringExecFns;

verus! {

/// What an attempt to deliver a batch came to.
#[derive(Clone, Copy, Debug, PartialEq, Eq, Structural)]
pub enum Outcome {
    /// The downstream store took the batch.
    Accepted,
    /// The downstream store refused the payload itself.
    Rejected,
    /// Anything else: no answer at all, or an answer that does not blame
    /// the payload.
    Transient,
}

/// How long a batch is retried.
#[derive(Clone, Copy, Debug, PartialEq, Eq, Structural)]
pub enum RetryPolicy {
    /// Every failure is retried, without end.
    Unbounded,
    /// A batch is given up once the downstream store has refused it
    /// `max_client_errors` times in a row; other failures are retried
    /// without end.
    Strict { max_client_errors: usize },
}

/// What to do with the batch in hand after an attempt.
#[derive(Clone, Copy, Debug, PartialEq, Eq, Structural)]
pub enum Action {
    /// Delivered: go on to the next batch.
    Done,
    /// Wait for the backoff interval, then send the same batch again.
    Retry,
    /// Given up: discard the batch and go on to the next.
    Drop,
}

/// The outcome that a downstream answer stands for. `status` is the HTTP
/// status code, or `None` where the transport failed before any answer.
pub open spec fn outcome_of(status: Option<u16>) -> Outcome {
    match status {
        Some(code) => if code == 204 {
            Outcome::Accepted
        } else if 400 <= code < 500 {
            Outcome::Rejected
        } else {
            Outcome::Transient
        },
        None => Outcome::Transient,
    }
}

/// Classifies a downstream answer.
pub fn classify(status: Option<u16>) -> (out: Outcome)
    ensures
        out == outcome_of(status),
{
    match status {
        Some(code) => if code == 204 {
            Outcome::Accepted
        } else if 400 <= code && code < 500 {
            Outcome::Rejected
        } else {
            Outcome::Transient
        },
        None => Outcome::Transient,
    }
}

/// The action after an attempt, given how often in a row the batch had been
/// refused before it.
pub open spec fn action_on(policy: RetryPolicy, rejections: nat, outcome: Outcome) -> Action {
    match outcome {
        Outcome::Accepted => Action::Done,
        Outcome::Transient => Action::Retry,
        Outcome::Rejected => match policy {
            RetryPolicy::Unbounded => Action::Retry,
            RetryPolicy::Strict { max_client_errors } => if rejections + 1 >= max_client_errors {
                Action::Drop
            } else {
                Action::Retry
            },
        },
    }
}

/// The number of refusals in a row that stands after an attempt. Only a
/// refusal that is retried under the strict policy counts; any other
/// outcome starts the count afresh.
pub open spec fn rejections_after(policy: RetryPolicy, rejections: nat, outcome: Outcome) -> nat {
    match (outcome, policy) {
        (Outcome::Rejected, RetryPolicy::Strict { max_client_errors }) => if rejections + 1
            >= max_client_errors {
            0
        } else {
            rejections + 1
        },
        _ => 0,
    }
}

/// Whether a count of refusals can stand under `policy`.
pub open spec fn rejections_valid(policy: RetryPolicy, rejections: nat) -> bool {
    match policy {
        RetryPolicy::Unbounded => rejections == 0,
        RetryPolicy::Strict { max_client_errors } => rejections == 0 || rejections
            < max_client_errors,
    }
}

/// Number of attempts made on one batch, where the downstream answers with
/// `outcomes` in order: attempts go on while the action is to retry, and as
/// long as there are answers.
pub open spec fn attempts(policy: RetryPolicy, rejections: nat, outcomes: Seq<Outcome>) -> nat
    decreases outcomes.len(),
{
    if outcomes.len() == 0 {
        0
    } else if action_on(policy, rejections, outcomes.first()) == Action::Retry {
        1 + attempts(
            policy,
            rejections_after(policy, rejections, outcomes.first()),
            outcomes.drop_first(),
        )
    } else {
        1
    }
}

/// How the attempts on one batch end, where the downstream answers with
/// `outcomes` in order: the first action that is not to retry.
pub open spec fn verdict(policy: RetryPolicy, rejections: nat, outcomes: Seq<Outcome>) -> Action
    decreases outcomes.len(),
{
    if outcomes.len() == 0 {
        Action::Retry
    } else if action_on(policy, rejections, outcomes.first()) == Action::Retry {
        verdict(
            policy,
            rejections_after(policy, rejections, outcomes.first()),
            outcomes.drop_first(),
        )
    } else {
        action_on(policy, rejections, outcomes.first())
    }
}

/// Under the strict policy a batch that is refused every time is attempted
/// until the refusals in a row make the bound, and is then dropped: from a
/// fresh start, after exactly `max_client_errors` attempts.
pub proof fn lemma_refused_batch_is_dropped(
    max_client_errors: usize,
    rejections: nat,
    outcomes: Seq<Outcome>,
)
    requires
        0 < max_client_errors,
        rejections < max_client_errors,
        outcomes.len() >= max_client_errors - rejections,
        forall|i: int|
            0 <= i < max_client_errors - rejections ==> outcomes[i] == Outcome::Rejected,
    ensures
        attempts(RetryPolicy::Strict { max_client_errors }, rejections, outcomes)
            == max_client_errors - rejections,
        verdict(RetryPolicy::Strict { max_client_errors }, rejections, outcomes) == Action::Drop,
    decreases max_client_errors - rejections,
{
    if rejections + 1 < max_client_errors {
        let rest = outcomes.drop_first();
        assert forall|i: int| 0 <= i < max_client_errors - (rejections + 1) implies rest[i]
            == Outcome::Rejected by {
            assert(rest[i] == outcomes[i + 1]);
        }
        lemma_refused_batch_is_dropped(max_client_errors, rejections + 1, rest);
    }
}

/// Whatever the policy and however many refusals stand, a batch that meets
/// `failures` transient failures and is then accepted is attempted
/// `failures + 1` times and ends delivered.
pub proof fn lemma_transient_failures_recover(
    policy: RetryPolicy,
    rejections: nat,
    outcomes: Seq<Outcome>,
    failures: nat,
)
    requires
        outcomes.len() > failures,
        forall|i: int| 0 <= i < failures ==> outcomes[i] == Outcome::Transient,
        outcomes[failures as int] == Outcome::Accepted,
    ensures
        attempts(policy, rejections, outcomes) == failures + 1,
        verdict(policy, rejections, outcomes) == Action::Done,
    decreases failures,
{
    if failures > 0 {
        let rest = outcomes.drop_first();
        assert forall|i: int| 0 <= i < failures - 1 implies rest[i] == Outcome::Transient by {
            assert(rest[i] == outcomes[i + 1]);
        }
        assert(rest[failures - 1] == outcomes[failures as int]);
        lemma_transient_failures_recover(policy, 0, rest, (failures - 1) as nat);
    }
}

/// The retry state of the batch in hand.
#[derive(Debug)]
pub struct Delivery {
    policy: RetryPolicy,
    rejections: usize,
}

impl Delivery {
    /// The policy the state was made with.
    pub closed spec fn retry_policy(&self) -> RetryPolicy {
        self.policy
    }

    /// How often in a row the batch in hand has been refused.
    pub closed spec fn refusals(&self) -> nat {
        self.rejections as nat
    }

    /// The count of refusals can stand under the policy.
    pub open spec fn wf(&self) -> bool {
        rejections_valid(self.retry_policy(), self.refusals())
    }

    /// The state before the first attempt on a batch.
    pub fn new(policy: RetryPolicy) -> (out: Delivery)
        ensures
            out.wf(),
            out.retry_policy() == policy,
            out.refusals() == 0,
    {
        Delivery { policy, rejections: 0 }
    }

    pub fn policy(&self) -> (out: RetryPolicy)
        ensures
            out == self.retry_policy(),
    {
        self.policy
    }

    pub fn rejections(&self) -> (out: usize)
        ensures
            out == self.refusals(),
    {
        self.rejections
    }

    /// Takes in the outcome of one attempt and says what to do next. After
    /// `Done` or `Drop` the state is that before a first attempt, ready for
    /// the next batch.
    pub fn observe(&mut self, outcome: Outcome) -> (out: Action)
        requires
            old(self).wf(),
        ensures
            final(self).wf(),
            final(self).retry_policy() == old(self).retry_policy(),
            out == action_on(old(self).retry_policy(), old(self).refusals(), outcome),
            final(self).refusals() == rejections_after(
                old(self).retry_policy(),
                old(self).refusals(),
                outcome,
            ),
            out != Action::Retry ==> final(self).refusals() == 0,
    {
        match outcome {
            Outcome::Accepted => {
                self.rejections = 0;
                Action::Done
            },
            Outcome::Transient => {
                self.rejections = 0;
                Action::Retry
            },
            Outcome::Rejected => match self.policy {
                RetryPolicy::Unbounded => {
                    self.rejections = 0;
                    Action::Retry
                },
                RetryPolicy::Strict { max_client_errors } => {
                    if self.rejections + 1 >= max_client_errors {
                        self.rejections = 0;
                        Action::Drop
                    } else {
                        self.rejections += 1;
                        Action::Retry
                    }
                },
            },
        }
    }
}

/// The address that a batch for `(bucket, org)` is posted to.
pub open spec fn write_url_of(endpoint: Seq<char>, bucket: Seq<char>, org: Seq<char>) -> Seq<char> {
    endpoint + "/api/v2/write?bucket="@ + bucket + "&org="@ + org + "&precision=s"@
}

/// Builds the address that a batch for `(bucket, org)` is posted to. The
/// parts are put in as they are.
pub fn write_url(endpoint: &str, bucket: &str, org: &str) -> (out: String)
    ensures
        out@ == write_url_of(endpoint@, bucket@, org@),
{
    let mut out = String::from_str(endpoint);
    out.append("/api/v2/write?bucket=");
    out.append(bucket);
    out.append("&org=");
    out.append(org);
    out.append("&precision=s");
    out
}

/// The value of the authorization header for `token`.
pub open spec fn authorization_of(token: Seq<char>) -> Seq<char> {
    "Token "@ + token
}

/// Builds the value of the authorization header.
pub fn authorization(token: &str) -> (out: String)
    ensures
        out@ == authorization_of(token@),
{
    let mut out = String::from_str("Token ");
    out.append(token);
    out
}

/// One delivery attempt, ready to be sent.
#[derive(Debug)]
pub struct Request {
    pub url: String,
    pub authorization: String,
    pub body: String,
}

/// The delivery attempt for `batch`: posted to the write address of the
/// batch's destination, authorized by `token`, with the batch's payloads
/// joined by newlines as its body.
pub fn request_for(endpoint: &str, token: &str, batch: &AggregatedMetric) -> (out: Request)
    ensures
        out.url@ == write_url_of(endpoint@, batch@.bucket, batch@.org),
        out.authorization@ == authorization_of(token@),
        out.body@ == join_lines(batch@.data),
{
    Request {
        url: write_url(endpoint, batch.bucket().as_str(), batch.org().as_str()),
        authorization: authorization(token),
        body: batch.body(),
    }
}

} // verus!
