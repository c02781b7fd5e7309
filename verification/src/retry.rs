use crate::entry::{first_normalized, normalize_first, CatalogEntry, CatalogEntryView, LookupError, UpstreamRecord, UpstreamRecordView};
use crate::model::MediaKind;
use vstd::arithmetic::power2::{lemma2_to64, lemma_pow2_strictly_increases, lemma_pow2_unfold, pow2};
use vstd::prelude::*;

verus! {

/// How often a failed call to the catalog is made again.
pub const MAX_RETRIES: u32 = 3;

/// The wait before the first retry, in milliseconds.
pub const BASE_DELAY_MS: u64 = 200;

/// The longest wait before a retry, in milliseconds.
pub const MAX_DELAY_MS: u64 = 2000;

/// How long one call to the catalog may take, in milliseconds.
pub const ATTEMPT_DEADLINE_MS: u64 = 5000;

/// How long a cached entry stays fresh, in milliseconds: one day.
pub const DEFAULT_TTL_MS: u64 = 86_400_000;

/// The full wait before retry number `retry` (counted from 0): the base
/// wait doubled `retry` times, but no more than the longest wait.
pub open spec fn backoff(retry: nat) -> nat {
    let doubled = BASE_DELAY_MS as nat * pow2(retry);
    if doubled > MAX_DELAY_MS as nat {
        MAX_DELAY_MS as nat
    } else {
        doubled
    }
}

/// The wait before retry number `retry` with jitter: at least half the full
/// wait, and the rest of it as far as `entropy` says.
pub open spec fn jittered(retry: nat, entropy: nat) -> nat {
    let half = backoff(retry) / 2;
    half + entropy % (half + 1)
}

/// Computes the full wait before retry number `retry`.
pub fn backoff_ms(retry: u32) -> (delay: u64)
    ensures
        delay == backoff(retry as nat),
        BASE_DELAY_MS <= delay <= MAX_DELAY_MS,
{
    let mut delay: u64 = BASE_DELAY_MS;
    let mut done: u32 = 0;
    proof {
        lemma2_to64();
    }
    while done < retry && delay < MAX_DELAY_MS
        invariant
            done <= retry,
            delay == BASE_DELAY_MS as nat * pow2(done as nat),
            BASE_DELAY_MS <= delay < 2 * MAX_DELAY_MS,
        decreases retry - done,
    {
        proof {
            lemma_pow2_unfold((done + 1) as nat);
        }
        delay = delay * 2;
        done = done + 1;
    }
    proof {
        if done < retry {
            lemma_pow2_strictly_increases(done as nat, retry as nat);
        }
    }
    if delay > MAX_DELAY_MS {
        MAX_DELAY_MS
    } else {
        delay
    }
}

/// Computes the wait before retry number `retry` with jitter drawn from
/// `entropy`. The wait lies between half the full wait and the full wait.
pub fn jittered_delay_ms(retry: u32, entropy: u64) -> (delay: u64)
    ensures
        delay == jittered(retry as nat, entropy as nat),
        backoff(retry as nat) / 2 <= delay <= backoff(retry as nat),
{
    let half = backoff_ms(retry) / 2;
    half + entropy % (half + 1)
}

/// How one call to the catalog ended.
#[derive(Debug)]
pub enum Attempt {
    /// The catalog answered with a page of results.
    Page(Vec<UpstreamRecord>),
    /// The catalog answered with this status and no page.
    Status(u16),
    /// The deadline passed without an answer.
    TimedOut,
    /// The catalog answered with something that could not be read.
    Malformed,
}

/// The end of a call as a mathematical value.
pub enum AttemptView {
    Page(Seq<UpstreamRecordView>),
    Status(u16),
    TimedOut,
    Malformed,
}

impl View for Attempt {
    type V = AttemptView;

    open spec fn view(&self) -> AttemptView {
        match self {
            Attempt::Page(page) => AttemptView::Page(page@.map_values(|r: UpstreamRecord| r@)),
            Attempt::Status(status) => AttemptView::Status(*status),
            Attempt::TimedOut => AttemptView::TimedOut,
            Attempt::Malformed => AttemptView::Malformed,
        }
    }
}

impl AttemptView {
    /// Failures that may pass: a missed deadline and a status from 500 to 599.
    pub open spec fn transient(self) -> bool {
        match self {
            AttemptView::TimedOut => true,
            AttemptView::Status(status) => 500 <= status <= 599,
            _ => false,
        }
    }
}

/// What follows a call to the catalog.
#[derive(Debug)]
pub enum Decision {
    /// Call again after a wait.
    Retry,
    /// The lookup is over, with this result.
    Settled(Result<CatalogEntry, LookupError>),
}

/// A decision as a mathematical value.
pub enum DecisionView {
    Retry,
    Settled(Result<CatalogEntryView, LookupError>),
}

impl View for Decision {
    type V = DecisionView;

    open spec fn view(&self) -> DecisionView {
        match self {
            Decision::Retry => DecisionView::Retry,
            Decision::Settled(Ok(entry)) => DecisionView::Settled(Ok(entry@)),
            Decision::Settled(Err(e)) => DecisionView::Settled(Err(*e)),
        }
    }
}

/// What follows a call that ended in `attempt`, after `retries` retries, in
/// a lookup of a title of kind `kind`. A page settles the lookup with the
/// entry of its first result, or with `Invalid` if that is none. A failure
/// that may pass is retried until `MAX_RETRIES` retries are spent, and then
/// settles the lookup with `Unavailable`. Any other failure settles it with
/// `Invalid` at once.
pub open spec fn decided(retries: nat, attempt: AttemptView, kind: MediaKind) -> DecisionView {
    match attempt {
        AttemptView::Page(page) => DecisionView::Settled(first_normalized(page, kind)),
        _ => if !attempt.transient() {
            DecisionView::Settled(Err(LookupError::Invalid))
        } else if retries < MAX_RETRIES {
            DecisionView::Retry
        } else {
            DecisionView::Settled(Err(LookupError::Unavailable))
        },
    }
}

/// Decides what follows a call that ended in `attempt`, after `retries`
/// retries.
pub fn decide(retries: u32, attempt: &Attempt, kind: MediaKind) -> (decision: Decision)
    ensures
        decision@ == decided(retries as nat, attempt@, kind),
{
    match attempt {
        Attempt::Page(page) => {
            let entry = normalize_first(page, kind);
            Decision::Settled(entry)
        },
        Attempt::Status(status) => {
            if *status < 500 || *status > 599 {
                Decision::Settled(Err(LookupError::Invalid))
            } else if retries < MAX_RETRIES {
                Decision::Retry
            } else {
                Decision::Settled(Err(LookupError::Unavailable))
            }
        },
        Attempt::TimedOut => {
            if retries < MAX_RETRIES {
                Decision::Retry
            } else {
                Decision::Settled(Err(LookupError::Unavailable))
            }
        },
        Attempt::Malformed => Decision::Settled(Err(LookupError::Invalid)),
    }
}

/// How a lookup goes when the catalog ends the successive calls as `answers`
/// say, from a point at which `retries` retries were made: the number of
/// retries made in all and the result, or nothing if the answers run out
/// before the lookup is settled.
pub open spec fn lookup_run(answers: Seq<AttemptView>, kind: MediaKind, retries: nat) -> Option<
    (nat, Result<CatalogEntryView, LookupError>),
>
    decreases answers.len(),
{
    if answers.len() == 0 {
        None
    } else {
        match decided(retries, answers[0], kind) {
            DecisionView::Retry => lookup_run(answers.drop_first(), kind, retries + 1),
            DecisionView::Settled(result) => Some((retries, result)),
        }
    }
}

/// No lookup makes more than `MAX_RETRIES` retries.
pub proof fn lemma_retries_are_bounded(answers: Seq<AttemptView>, kind: MediaKind, retries: nat)
    requires
        retries <= MAX_RETRIES,
    ensures
        match lookup_run(answers, kind, retries) {
            Some((made, _)) => made <= MAX_RETRIES,
            None => true,
        },
    decreases answers.len(),
{
    if answers.len() > 0 && decided(retries, answers[0], kind) is Retry {
        lemma_retries_are_bounded(answers.drop_first(), kind, retries + 1);
    }
}

/// Against a catalog whose every call fails in a way that may pass, a lookup
/// makes exactly `MAX_RETRIES` retries and then ends with `Unavailable`.
pub proof fn lemma_failing_catalog_exhausts_retries(
    answers: Seq<AttemptView>,
    kind: MediaKind,
    retries: nat,
)
    requires
        retries <= MAX_RETRIES,
        answers.len() > MAX_RETRIES - retries,
        forall|k: int| 0 <= k < answers.len() ==> (#[trigger] answers[k]).transient(),
    ensures
        lookup_run(answers, kind, retries) == Some(
            (MAX_RETRIES as nat, Err::<CatalogEntryView, LookupError>(LookupError::Unavailable)),
        ),
    decreases answers.len(),
{
    assert(answers[0].transient());
    if retries < MAX_RETRIES {
        let rest = answers.drop_first();
        assert forall|k: int| 0 <= k < rest.len() implies (#[trigger] rest[k]).transient() by {
            assert(rest[k] == answers[k + 1]);
        }
        lemma_failing_catalog_exhausts_retries(rest, kind, retries + 1);
    }
}

} // verus!
