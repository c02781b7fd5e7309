use crate::catalog::{lookup_key_of, CatalogClient, ClientView, LookupKey, LookupKeyView, LookupStart, LookupStartView, Verdict, VerdictView};
use crate::entry::{CatalogEntry, CatalogEntryView, LookupError};
use crate::intake::{validate, validated, RawRequest, RawRequestView, ValidationError};
use crate::key::DedupKey;
use crate::library::{LibraryIndex, LibraryView, RefreshError};
use crate::model::RequestState;
use crate::request::{history, MediaRequest, MediaRequestView, RequestEvent};
use crate::retry::{Attempt, AttemptView};
use crate::catalog::{lemma_client_steps_valid, lemma_evicted_valid, lemma_eviction_is_unseen};
use crate::store::{lemma_index_of, lemma_purged_valid, lemma_resolved_valid, lemma_stepped_valid, lemma_with_new_valid, PurgeError, RequestStore, StoreView};
use vstd::prelude::*;

verus! {

/// Why a submission was not taken in.
#[derive(Clone, Copy, Debug, PartialEq, Eq, Structural)]
pub enum SubmissionError {
    /// The submission is not well formed.
    Validation(ValidationError),
    /// The store has no id left to give.
    Full,
}

/// The kind of a failed submission, for a machine to read.
pub open spec fn error_kind_of(error: SubmissionError) -> Seq<char> {
    match error {
        SubmissionError::Validation(ValidationError::EmptyQuery) => "empty_query"@,
        SubmissionError::Validation(ValidationError::UnknownKind) => "unknown_media_kind"@,
        SubmissionError::Validation(ValidationError::MissingSeasons) => "missing_seasons"@,
        SubmissionError::Validation(ValidationError::UnknownQuality) => "unknown_quality"@,
        SubmissionError::Full => "store_full"@,
    }
}

impl SubmissionError {
    /// The kind of the failure, for a machine to read.
    pub fn kind(&self) -> (kind: &'static str)
        ensures
            kind@ == error_kind_of(*self),
    {
        match self {
            SubmissionError::Validation(ValidationError::EmptyQuery) => "empty_query",
            SubmissionError::Validation(ValidationError::UnknownKind) => "unknown_media_kind",
            SubmissionError::Validation(ValidationError::MissingSeasons) => "missing_seasons",
            SubmissionError::Validation(ValidationError::UnknownQuality) => "unknown_quality",
            SubmissionError::Full => "store_full",
        }
    }

    /// Whether the submitter can mend the submission: true of every failure
    /// of validation, false where the store is full.
    pub fn is_client_fault(&self) -> (fault: bool)
        ensures
            fault == (*self is Validation),
    {
        match self {
            SubmissionError::Validation(_) => true,
            SubmissionError::Full => false,
        }
    }
}

/// No request has the id that was asked for.
#[derive(Clone, Copy, Debug, PartialEq, Eq, Structural)]
pub struct NotFoundError {
    pub id: u64,
}

/// What a submitter gets back: the request as it now stands, and the lookup
/// that the caller is to make on the catalog, where one is needed.
#[derive(Debug)]
pub struct Receipt {
    pub request: MediaRequest,
    pub fetch: Option<LookupKey>,
}

/// A receipt as a mathematical value.
pub struct ReceiptView {
    pub request: MediaRequestView,
    pub fetch: Option<LookupKeyView>,
}

impl View for Receipt {
    type V = ReceiptView;

    open spec fn view(&self) -> ReceiptView {
        ReceiptView {
            request: self.request@,
            fetch: match self.fetch {
                Some(key) => Some(key@),
                None => None,
            },
        }
    }
}

/// The text that goes with a step into `state`.
pub open spec fn detail_of(state: RequestState) -> Seq<char> {
    match state {
        RequestState::Submitted => "submitted"@,
        RequestState::Enriching => "looking up the catalog"@,
        RequestState::Deduplicated => "merged into an equivalent pending request"@,
        RequestState::AlreadyAvailable => "already in the library"@,
        RequestState::Pending => "waiting for fulfilment"@,
        RequestState::Failed => "enrichment failed"@,
    }
}

/// The text that goes with a failed lookup.
pub open spec fn summary_of(error: LookupError) -> Seq<char> {
    match error {
        LookupError::Invalid => "the catalog gave no valid entry"@,
        LookupError::Unavailable => "the catalog was unavailable after all retries"@,
    }
}

/// The text that goes with a step into `state`.
pub fn detail_text(state: RequestState) -> (text: String)
    ensures
        text@ == detail_of(state),
{
    match state {
        RequestState::Submitted => String::from_str("submitted"),
        RequestState::Enriching => String::from_str("looking up the catalog"),
        RequestState::Deduplicated => String::from_str("merged into an equivalent pending request"),
        RequestState::AlreadyAvailable => String::from_str("already in the library"),
        RequestState::Pending => String::from_str("waiting for fulfilment"),
        RequestState::Failed => String::from_str("enrichment failed"),
    }
}

/// The text that goes with a failed lookup.
pub fn summary_text(error: LookupError) -> (text: String)
    ensures
        text@ == summary_of(error),
{
    match error {
        LookupError::Invalid => String::from_str("the catalog gave no valid entry"),
        LookupError::Unavailable => String::from_str("the catalog was unavailable after all retries"),
    }
}

/// Where enrichment ends for a request whose entry was found: merged, if a
/// pending request already asks for the entry; available, if the library
/// holds the title; pending otherwise.
pub open spec fn outcome_of(merged: bool, present: bool) -> RequestState {
    if merged {
        RequestState::Deduplicated
    } else if present {
        RequestState::AlreadyAvailable
    } else {
        RequestState::Pending
    }
}

/// The store after the request at `i`, which is being enriched, got the
/// entry with id `external_id`.
pub open spec fn enriched(store: StoreView, i: int, external_id: u64, present: bool, now: u64) -> StoreView {
    let to = outcome_of(store.has_pending(external_id, store.requests[i].kind), present);
    store.resolved(i, external_id).stepped(i, to, detail_of(to), now)
}

/// The store after the lookup for the request at `i` failed.
pub open spec fn failed(store: StoreView, i: int, error: LookupError, now: u64) -> StoreView {
    store.stepped(i, RequestState::Failed, summary_of(error), now)
}

/// Whether the request waits for the lookup of `key`.
pub open spec fn waits_for(request: MediaRequestView, key: LookupKeyView) -> bool {
    request.state == RequestState::Enriching && lookup_key_of(
        request.query,
        request.external_id,
        request.kind,
    ) == key
}

/// The store after the result of the lookup of `key` was delivered to the
/// first `upto` requests, in the order of their ids: each of them that
/// waits for the lookup is enriched or fails.
pub open spec fn delivered(
    store: StoreView,
    library: LibraryView,
    key: LookupKeyView,
    result: Result<CatalogEntryView, LookupError>,
    now: u64,
    upto: nat,
) -> StoreView
    decreases upto,
{
    if upto == 0 {
        store
    } else {
        let before = delivered(store, library, key, result, now, (upto - 1) as nat);
        let i = upto - 1;
        if waits_for(before.requests[i], key) {
            match result {
                Ok(entry) => enriched(
                    before,
                    i,
                    entry.external_id,
                    library.present.contains(entry.external_id),
                    now,
                ),
                Err(error) => failed(before, i, error, now),
            }
        } else {
            before
        }
    }
}

/// The orchestrator as a mathematical value.
pub struct OrchestratorView {
    pub store: StoreView,
    pub catalog: ClientView,
    pub library: LibraryView,
}

impl OrchestratorView {
    /// The orchestrator after a submission at `now`, and what the submitter
    /// gets back. A submission that is not well formed changes nothing. One
    /// whose key an active request has gets that request back, unchanged.
    /// Any other is stored and begins its enrichment: with an entry from
    /// the cache it ends it at once; else it waits for the lookup, which the
    /// caller is to make unless one is under way.
    pub open spec fn submitted(self, raw: RawRequestView, now: u64) -> (
        OrchestratorView,
        Result<ReceiptView, SubmissionError>,
    ) {
        match validated(raw) {
            Err(e) => (self, Err(SubmissionError::Validation(e))),
            Ok(draft) => {
                let key = draft.stored(0, 0).key();
                if self.store.has_active(key) {
                    (
                        self,
                        Ok(
                            ReceiptView {
                                request: self.store.requests[self.store.active_index(key)],
                                fetch: None,
                            },
                        ),
                    )
                } else if self.store.next_id == u64::MAX {
                    (self, Err(SubmissionError::Full))
                } else {
                    let i = self.store.requests.len() as int;
                    let begun = self.store.with_new(draft, now).stepped(
                        i,
                        RequestState::Enriching,
                        detail_of(RequestState::Enriching),
                        now,
                    );
                    let lookup = lookup_key_of(draft.query, draft.external_id, draft.kind);
                    let (catalog, start) = self.catalog.begun(lookup, now);
                    let store = match start {
                        LookupStartView::Hit(entry) => enriched(
                            begun,
                            i,
                            entry.external_id,
                            self.library.present.contains(entry.external_id),
                            now,
                        ),
                        _ => begun,
                    };
                    (
                        OrchestratorView { store, catalog, library: self.library },
                        Ok(
                            ReceiptView {
                                request: store.requests[i],
                                fetch: if start is Fetch {
                                    Some(lookup)
                                } else {
                                    None
                                },
                            },
                        ),
                    )
                }
            },
        }
    }

    /// The orchestrator after a call to the catalog for `key` ended in
    /// `attempt` at `now`, and what follows the call. Once the lookup is
    /// settled, its result is delivered to every request that waits for it.
    pub open spec fn settled(self, key: LookupKeyView, attempt: AttemptView, entropy: u64, now: u64) -> (
        OrchestratorView,
        VerdictView,
    ) {
        let (catalog, verdict) = self.catalog.finished(key, attempt, entropy, now);
        match verdict {
            VerdictView::Settled(result) => (
                OrchestratorView {
                    store: delivered(
                        self.store,
                        self.library,
                        key,
                        result,
                        now,
                        self.store.requests.len(),
                    ),
                    catalog,
                    library: self.library,
                },
                verdict,
            ),
            _ => (OrchestratorView { catalog, ..self }, verdict),
        }
    }

    /// The orchestrator after the presence of request `id` was looked at
    /// again at `now`, and the state in which the request then is. Only a
    /// pending request whose title the library now holds changes: it
    /// becomes available.
    pub open spec fn presence_refreshed(self, id: u64, now: u64) -> (
        OrchestratorView,
        Result<RequestState, NotFoundError>,
    ) {
        if !self.store.holds(id) {
            (self, Err(NotFoundError { id }))
        } else {
            let request = self.store.request(id);
            if request.state == RequestState::Pending && request.external_id is Some
                && self.library.present.contains(request.external_id->0) {
                (
                    OrchestratorView {
                        store: self.store.stepped(
                            self.store.index_of(id),
                            RequestState::AlreadyAvailable,
                            detail_of(RequestState::AlreadyAvailable),
                            now,
                        ),
                        ..self
                    },
                    Ok(RequestState::AlreadyAvailable),
                )
            } else {
                (self, Ok(request.state))
            }
        }
    }
}

/// What holds of the requests whenever the orchestrator is at rest: the
/// store is valid; no request is left in `Submitted`; a request that is
/// pending or available has its catalog id; and no two pending requests of
/// one kind ask for the same catalog entry.
pub open spec fn settled_form(store: StoreView) -> bool {
    &&& store.valid()
    &&& forall|i: int|
        0 <= i < store.requests.len() ==> (#[trigger] store.requests[i]).state
            != RequestState::Submitted
    &&& forall|i: int|
        0 <= i < store.requests.len() && ((#[trigger] store.requests[i]).state
            == RequestState::Pending || store.requests[i].state == RequestState::AlreadyAvailable)
            ==> store.requests[i].external_id is Some
    &&& forall|i: int, j: int|
        0 <= i < store.requests.len() && 0 <= j < store.requests.len() && i != j && (
        #[trigger] store.requests[i]).state == RequestState::Pending && (
        #[trigger] store.requests[j]).state == RequestState::Pending && store.requests[i].kind
            == store.requests[j].kind ==> store.requests[i].external_id
            != store.requests[j].external_id
}

/// Ending the enrichment of a request with an entry keeps the requests in
/// their form, takes the request out of `Enriching`, and touches no other.
pub proof fn lemma_enriched_keeps(store: StoreView, i: int, external_id: u64, present: bool, now: u64)
    requires
        settled_form(store),
        0 <= i < store.requests.len(),
        store.requests[i].state == RequestState::Enriching,
    ensures
        settled_form(enriched(store, i, external_id, present, now)),
        enriched(store, i, external_id, present, now).requests.len() == store.requests.len(),
        enriched(store, i, external_id, present, now).requests[i].state != RequestState::Enriching,
        forall|j: int|
            0 <= j < store.requests.len() && j != i ==> (#[trigger] enriched(
                store,
                i,
                external_id,
                present,
                now,
            ).requests[j]) == store.requests[j],
{
    let to = outcome_of(store.has_pending(external_id, store.requests[i].kind), present);
    let mid = store.resolved(i, external_id);
    let end = enriched(store, i, external_id, present, now);
    lemma_resolved_valid(store, i, external_id);
    lemma_stepped_valid(mid, i, to, detail_of(to), now);
    assert forall|a: int, b: int|
        0 <= a < end.requests.len() && 0 <= b < end.requests.len() && a != b && (
        #[trigger] end.requests[a]).state == RequestState::Pending && (
        #[trigger] end.requests[b]).state == RequestState::Pending && end.requests[a].kind
            == end.requests[b].kind implies end.requests[a].external_id
        != end.requests[b].external_id by {
        if a == i {
            assert(end.requests[b] == store.requests[b]);
        } else if b == i {
            assert(end.requests[a] == store.requests[a]);
        } else {
            assert(end.requests[a] == store.requests[a]);
            assert(end.requests[b] == store.requests[b]);
        }
    }
    assert forall|a: int| 0 <= a < end.requests.len() implies (#[trigger] end.requests[a]).state
        != RequestState::Submitted && ((end.requests[a].state == RequestState::Pending
        || end.requests[a].state == RequestState::AlreadyAvailable)
        ==> end.requests[a].external_id is Some) by {
        if a != i {
            assert(end.requests[a] == store.requests[a]);
        }
    }
}

/// Ending the enrichment of a request with a failure keeps the requests in
/// their form, takes the request out of `Enriching`, and touches no other.
pub proof fn lemma_failed_keeps(store: StoreView, i: int, error: LookupError, now: u64)
    requires
        settled_form(store),
        0 <= i < store.requests.len(),
        store.requests[i].state == RequestState::Enriching,
    ensures
        settled_form(failed(store, i, error, now)),
        failed(store, i, error, now).requests.len() == store.requests.len(),
        failed(store, i, error, now).requests[i].state == RequestState::Failed,
        forall|j: int|
            0 <= j < store.requests.len() && j != i ==> (#[trigger] failed(
                store,
                i,
                error,
                now,
            ).requests[j]) == store.requests[j],
{
    let end = failed(store, i, error, now);
    lemma_stepped_valid(store, i, RequestState::Failed, summary_of(error), now);
    assert forall|a: int, b: int|
        0 <= a < end.requests.len() && 0 <= b < end.requests.len() && a != b && (
        #[trigger] end.requests[a]).state == RequestState::Pending && (
        #[trigger] end.requests[b]).state == RequestState::Pending && end.requests[a].kind
            == end.requests[b].kind implies end.requests[a].external_id
        != end.requests[b].external_id by {
        assert(end.requests[a] == store.requests[a]);
        assert(end.requests[b] == store.requests[b]);
    }
    assert forall|a: int| 0 <= a < end.requests.len() implies (#[trigger] end.requests[a]).state
        != RequestState::Submitted && ((end.requests[a].state == RequestState::Pending
        || end.requests[a].state == RequestState::AlreadyAvailable)
        ==> end.requests[a].external_id is Some) by {
        if a != i {
            assert(end.requests[a] == store.requests[a]);
        }
    }
}

/// Delivering a result keeps the requests in their form. Of the first
/// `upto` requests none waits for the lookup any more, each of them that did
/// not wait is as it was, and so is every later request.
pub proof fn lemma_delivered_keeps(
    store: StoreView,
    library: LibraryView,
    key: LookupKeyView,
    result: Result<CatalogEntryView, LookupError>,
    now: u64,
    upto: nat,
)
    requires
        settled_form(store),
        upto <= store.requests.len(),
    ensures
        settled_form(delivered(store, library, key, result, now, upto)),
        delivered(store, library, key, result, now, upto).requests.len() == store.requests.len(),
        forall|j: int|
            0 <= j < upto ==> !waits_for(
                #[trigger] delivered(store, library, key, result, now, upto).requests[j],
                key,
            ),
        forall|j: int|
            0 <= j < store.requests.len() && (j >= upto || !waits_for(store.requests[j], key))
                ==> (#[trigger] delivered(store, library, key, result, now, upto).requests[j])
                == store.requests[j],
    decreases upto,
{
    if upto > 0 {
        let before = delivered(store, library, key, result, now, (upto - 1) as nat);
        let after = delivered(store, library, key, result, now, upto);
        let i = upto - 1;
        lemma_delivered_keeps(store, library, key, result, now, (upto - 1) as nat);
        assert(before.requests[i] == store.requests[i]);
        if waits_for(before.requests[i], key) {
            match result {
                Ok(entry) => {
                    lemma_enriched_keeps(
                        before,
                        i,
                        entry.external_id,
                        library.present.contains(entry.external_id),
                        now,
                    );
                },
                Err(error) => {
                    lemma_failed_keeps(before, i, error, now);
                },
            }
            assert forall|j: int| 0 <= j < upto implies !waits_for(
                #[trigger] after.requests[j],
                key,
            ) by {
                if j != i {
                    assert(after.requests[j] == before.requests[j]);
                }
            }
            assert forall|j: int|
                0 <= j < store.requests.len() && (j >= upto || !waits_for(store.requests[j], key))
                    implies (#[trigger] after.requests[j]) == store.requests[j] by {
                assert(after.requests[j] == before.requests[j]);
            }
        }
    }
}

/// Delivering a result neither adds nor removes a request.
pub proof fn lemma_delivered_len(
    store: StoreView,
    library: LibraryView,
    key: LookupKeyView,
    result: Result<CatalogEntryView, LookupError>,
    now: u64,
    upto: nat,
)
    requires
        upto <= store.requests.len(),
    ensures
        delivered(store, library, key, result, now, upto).requests.len() == store.requests.len(),
    decreases upto,
{
    if upto > 0 {
        lemma_delivered_len(store, library, key, result, now, (upto - 1) as nat);
    }
}

impl OrchestratorView {
    /// What holds of the orchestrator whenever it is at rest: the requests
    /// are in their form, the client's value is valid, and every request
    /// that is being enriched has its lookup under way, so that none is left
    /// without an end.
    pub open spec fn valid(self) -> bool {
        &&& settled_form(self.store)
        &&& self.catalog.valid()
        &&& forall|i: int|
            0 <= i < self.store.requests.len() && (#[trigger] self.store.requests[i]).state
                == RequestState::Enriching ==> self.catalog.in_flight(
                lookup_key_of(
                    self.store.requests[i].query,
                    self.store.requests[i].external_id,
                    self.store.requests[i].kind,
                ),
            )
    }
}

/// A submission leaves a valid orchestrator valid.
pub proof fn lemma_submitted_valid(o: OrchestratorView, raw: RawRequestView, now: u64)
    requires
        o.valid(),
    ensures
        o.submitted(raw, now).0.valid(),
{
    let (after, out) = o.submitted(raw, now);
    if after != o {
        let draft = validated(raw)->Ok_0;
        let i = o.store.requests.len() as int;
        let made = o.store.with_new(draft, now);
        let begun = made.stepped(
            i,
            RequestState::Enriching,
            detail_of(RequestState::Enriching),
            now,
        );
        let lookup = lookup_key_of(draft.query, draft.external_id, draft.kind);
        let (catalog, start) = o.catalog.begun(lookup, now);
        lemma_with_new_valid(o.store, draft, now);
        lemma_stepped_valid(
            made,
            i,
            RequestState::Enriching,
            detail_of(RequestState::Enriching),
            now,
        );
        lemma_client_steps_valid(o.catalog, lookup, AttemptView::TimedOut, 0, now);
        assert forall|j: int| 0 <= j < i implies (#[trigger] begun.requests[j])
            == o.store.requests[j] by {}
        assert(settled_form(begun));
        match start {
            LookupStartView::Hit(entry) => {
                lemma_enriched_keeps(
                    begun,
                    i,
                    entry.external_id,
                    o.library.present.contains(entry.external_id),
                    now,
                );
                assert forall|j: int|
                    0 <= j < after.store.requests.len() && (#[trigger] after.store.requests[j]).state
                        == RequestState::Enriching implies after.catalog.in_flight(
                    lookup_key_of(
                        after.store.requests[j].query,
                        after.store.requests[j].external_id,
                        after.store.requests[j].kind,
                    ),
                ) by {
                    assert(after.store.requests[j] == begun.requests[j]);
                    assert(begun.requests[j] == o.store.requests[j]);
                }
            },
            _ => {
                assert forall|j: int|
                    0 <= j < after.store.requests.len() && (#[trigger] after.store.requests[j]).state
                        == RequestState::Enriching implies after.catalog.in_flight(
                    lookup_key_of(
                        after.store.requests[j].query,
                        after.store.requests[j].external_id,
                        after.store.requests[j].kind,
                    ),
                ) by {
                    if j < i {
                        assert(begun.requests[j] == o.store.requests[j]);
                    }
                }
            },
        }
    }
}

/// The end of a call to the catalog leaves a valid orchestrator valid.
pub proof fn lemma_settled_valid(
    o: OrchestratorView,
    key: LookupKeyView,
    attempt: AttemptView,
    entropy: u64,
    now: u64,
)
    requires
        o.valid(),
    ensures
        o.settled(key, attempt, entropy, now).0.valid(),
{
    let (after, verdict) = o.settled(key, attempt, entropy, now);
    lemma_client_steps_valid(o.catalog, key, attempt, entropy, now);
    match verdict {
        VerdictView::Settled(result) => {
            lemma_delivered_keeps(
                o.store,
                o.library,
                key,
                result,
                now,
                o.store.requests.len(),
            );
            assert forall|j: int|
                0 <= j < after.store.requests.len() && (#[trigger] after.store.requests[j]).state
                    == RequestState::Enriching implies after.catalog.in_flight(
                lookup_key_of(
                    after.store.requests[j].query,
                    after.store.requests[j].external_id,
                    after.store.requests[j].kind,
                ),
            ) by {
                assert(!waits_for(after.store.requests[j], key));
                if waits_for(o.store.requests[j], key) {
                    // Such a request was taken out of `Enriching`.
                    let upto = o.store.requests.len();
                    lemma_waiter_left(o.store, o.library, key, result, now, upto, j);
                } else {
                    assert(after.store.requests[j] == o.store.requests[j]);
                }
            }
        },
        _ => {
            assert forall|j: int|
                0 <= j < after.store.requests.len() && (#[trigger] after.store.requests[j]).state
                    == RequestState::Enriching implies after.catalog.in_flight(
                lookup_key_of(
                    after.store.requests[j].query,
                    after.store.requests[j].external_id,
                    after.store.requests[j].kind,
                ),
            ) by {
                assert(after.store.requests[j] == o.store.requests[j]);
            }
        },
    }
}

/// A request that waited for a lookup is no longer being enriched once the
/// result was delivered to it.
pub proof fn lemma_waiter_left(
    store: StoreView,
    library: LibraryView,
    key: LookupKeyView,
    result: Result<CatalogEntryView, LookupError>,
    now: u64,
    upto: nat,
    j: int,
)
    requires
        settled_form(store),
        upto <= store.requests.len(),
        0 <= j < upto,
        waits_for(store.requests[j], key),
    ensures
        delivered(store, library, key, result, now, upto).requests[j].state
            != RequestState::Enriching,
    decreases upto,
{
    let before = delivered(store, library, key, result, now, (upto - 1) as nat);
    let after = delivered(store, library, key, result, now, upto);
    let i = upto - 1;
    lemma_delivered_keeps(store, library, key, result, now, (upto - 1) as nat);
    if j < i {
        lemma_waiter_left(store, library, key, result, now, (upto - 1) as nat, j);
    } else {
        assert(before.requests[i] == store.requests[i]);
    }
    if waits_for(before.requests[i], key) {
        match result {
            Ok(entry) => {
                lemma_enriched_keeps(
                    before,
                    i,
                    entry.external_id,
                    library.present.contains(entry.external_id),
                    now,
                );
            },
            Err(error) => {
                lemma_failed_keeps(before, i, error, now);
            },
        }
        if j < i {
            assert(after.requests[j] == before.requests[j]);
        }
    }
}

/// Looking at a request's presence again leaves a valid orchestrator valid.
pub proof fn lemma_presence_refreshed_valid(o: OrchestratorView, id: u64, now: u64)
    requires
        o.valid(),
    ensures
        o.presence_refreshed(id, now).0.valid(),
{
    let (after, out) = o.presence_refreshed(id, now);
    if after != o {
        let i = o.store.index_of(id);
        lemma_stepped_valid(
            o.store,
            i,
            RequestState::AlreadyAvailable,
            detail_of(RequestState::AlreadyAvailable),
            now,
        );
        assert forall|a: int| 0 <= a < after.store.requests.len() && a != i implies (
        #[trigger] after.store.requests[a]) == o.store.requests[a] by {}
        assert forall|a: int, b: int|
            0 <= a < after.store.requests.len() && 0 <= b < after.store.requests.len() && a != b && (
            #[trigger] after.store.requests[a]).state == RequestState::Pending && (
            #[trigger] after.store.requests[b]).state == RequestState::Pending
                && after.store.requests[a].kind == after.store.requests[b].kind
                implies after.store.requests[a].external_id
            != after.store.requests[b].external_id by {
            assert(after.store.requests[a] == o.store.requests[a]);
            assert(after.store.requests[b] == o.store.requests[b]);
        }
        assert forall|a: int| 0 <= a < after.store.requests.len() implies (
        #[trigger] after.store.requests[a]).state != RequestState::Submitted && ((
        after.store.requests[a].state == RequestState::Pending || after.store.requests[a].state
            == RequestState::AlreadyAvailable) ==> after.store.requests[a].external_id is Some) by {
            if a != i {
                assert(after.store.requests[a] == o.store.requests[a]);
            }
        }
        assert forall|j: int|
            0 <= j < after.store.requests.len() && (#[trigger] after.store.requests[j]).state
                == RequestState::Enriching implies after.catalog.in_flight(
            lookup_key_of(
                after.store.requests[j].query,
                after.store.requests[j].external_id,
                after.store.requests[j].kind,
            ),
        ) by {
            assert(after.store.requests[j] == o.store.requests[j]);
        }
    }
}

/// Purging a request leaves a valid orchestrator valid.
pub proof fn lemma_purge_keeps_valid(o: OrchestratorView, i: int)
    requires
        o.valid(),
        0 <= i < o.store.requests.len(),
    ensures
        (OrchestratorView { store: o.store.purged(i), ..o }).valid(),
{
    let w = o.store.purged(i);
    lemma_purged_valid(o.store, i);
    assert forall|a: int| 0 <= a < w.requests.len() implies (#[trigger] w.requests[a])
        == o.store.requests[if a < i {
        a
    } else {
        a + 1
    }] by {}
    assert forall|a: int, b: int|
        0 <= a < w.requests.len() && 0 <= b < w.requests.len() && a != b && (
        #[trigger] w.requests[a]).state == RequestState::Pending && (
        #[trigger] w.requests[b]).state == RequestState::Pending && w.requests[a].kind
            == w.requests[b].kind implies w.requests[a].external_id != w.requests[b].external_id by {
        let x = if a < i {
            a
        } else {
            a + 1
        };
        let y = if b < i {
            b
        } else {
            b + 1
        };
        assert(o.store.requests[x].state == RequestState::Pending && o.store.requests[y].state
            == RequestState::Pending);
    }
    assert forall|a: int| 0 <= a < w.requests.len() implies (#[trigger] w.requests[a]).state
        != RequestState::Submitted && ((w.requests[a].state == RequestState::Pending
        || w.requests[a].state == RequestState::AlreadyAvailable)
        ==> w.requests[a].external_id is Some) && (w.requests[a].state == RequestState::Enriching
        ==> o.catalog.in_flight(
        lookup_key_of(w.requests[a].query, w.requests[a].external_id, w.requests[a].kind),
    )) by {
        let x = if a < i {
            a
        } else {
            a + 1
        };
        assert(o.store.requests[x].state != RequestState::Submitted);
    }
}

/// A submitter gets either an error, and then nothing has changed, or a
/// request that the store holds as the receipt shows it: one with the key of
/// the submission, past `Submitted`, and with a lookup under way as long as
/// it is being enriched.
pub proof fn lemma_receipt_shows_stored_request(o: OrchestratorView, raw: RawRequestView, now: u64)
    requires
        o.valid(),
    ensures
        ({
            let (after, out) = o.submitted(raw, now);
            &&& out is Err ==> after == o
            &&& out is Ok ==> {
                let request = out->Ok_0.request;
                &&& after.store.holds(request.id)
                &&& after.store.request(request.id) == request
                &&& request.key() == validated(raw)->Ok_0.stored(0, 0).key()
                &&& request.state != RequestState::Submitted
                &&& request.state == RequestState::Enriching ==> after.catalog.in_flight(
                    lookup_key_of(request.query, request.external_id, request.kind),
                )
                &&& after.store.requests.len() <= o.store.requests.len() + 1
            }
        }),
{
    let (after, out) = o.submitted(raw, now);
    lemma_submitted_valid(o, raw, now);
    if out is Ok {
        let draft = validated(raw)->Ok_0;
        let key = draft.stored(0, 0).key();
        if o.store.has_active(key) {
            lemma_index_of(o.store, o.store.active_index(key));
        } else {
            let i = o.store.requests.len() as int;
            let begun = o.store.with_new(draft, now).stepped(
                i,
                RequestState::Enriching,
                detail_of(RequestState::Enriching),
                now,
            );
            assert(begun.requests[i].key() == key);
            assert(after.store.requests[i].key() == key);
            lemma_index_of(after.store, i);
        }
    }
}

/// Submitting is idempotent. If a submission is answered with a request
/// that is still active, a second submission with the same key, at any later
/// moment before the first is settled, is answered with that very request:
/// nothing is stored, nothing changes, no call to the catalog is asked for,
/// and the store holds exactly one active request with the key.
pub proof fn lemma_submission_is_idempotent(
    o: OrchestratorView,
    first: RawRequestView,
    again: RawRequestView,
    first_at: u64,
    again_at: u64,
)
    requires
        o.valid(),
        validated(first) is Ok,
        validated(again) is Ok,
        validated(again)->Ok_0.stored(0, 0).key() == validated(first)->Ok_0.stored(0, 0).key(),
        o.submitted(first, first_at).1 is Ok,
        o.submitted(first, first_at).1->Ok_0.request.active(),
    ensures
        ({
            let (once, receipt) = o.submitted(first, first_at);
            let (twice, second) = once.submitted(again, again_at);
            let key = validated(first)->Ok_0.stored(0, 0).key();
            &&& twice == once
            &&& second is Ok
            &&& second->Ok_0.request == receipt->Ok_0.request
            &&& second->Ok_0.fetch is None
            &&& forall|i: int, j: int|
                0 <= i < twice.store.requests.len() && 0 <= j < twice.store.requests.len() && (
                #[trigger] twice.store.requests[i]).active() && twice.store.requests[i].key() == key
                    && (#[trigger] twice.store.requests[j]).active() && twice.store.requests[j].key()
                    == key ==> i == j
        }),
{
    let (once, receipt) = o.submitted(first, first_at);
    let draft = validated(first)->Ok_0;
    let key = draft.stored(0, 0).key();
    lemma_submitted_valid(o, first, first_at);
    if !o.store.has_active(key) {
        let i = o.store.requests.len() as int;
        let begun = o.store.with_new(draft, first_at).stepped(
            i,
            RequestState::Enriching,
            detail_of(RequestState::Enriching),
            first_at,
        );
        assert(begun.requests[i].key() == key);
        assert(once.store.requests[i].key() == key);
        assert(once.store.requests[i] == receipt->Ok_0.request);
        let found = once.store.active_index(key);
        assert(once.store.requests[found].active() && once.store.requests[found].key() == key);
    }
}

/// Ends the enrichment of the request at `i` with the entry that was found.
fn enrich(store: &mut RequestStore, library: &LibraryIndex, i: usize, entry: &CatalogEntry, now: u64)
    requires
        old(store).wf(),
        i < old(store)@.requests.len(),
        old(store)@.requests[i as int].state == RequestState::Enriching,
    ensures
        final(store).wf(),
        final(store)@ == enriched(
            old(store)@,
            i as int,
            entry@.external_id,
            library@.present.contains(entry@.external_id),
            now,
        ),
{
    let request = store.request_at(i);
    let id = request.id;
    let merged = store.has_pending_for(entry.external_id, request.kind);
    let to = if merged {
        RequestState::Deduplicated
    } else if library.is_present(entry.external_id) {
        RequestState::AlreadyAvailable
    } else {
        RequestState::Pending
    };
    proof {
        store.lemma_wf_valid();
        lemma_index_of(store@, i as int);
    }
    let resolved = store.record_external_id(id, entry.external_id);
    proof {
        store.lemma_wf_valid();
        lemma_index_of(store@, i as int);
    }
    let stepped = store.transition(id, RequestState::Enriching, to, detail_text(to), now);
    assert(resolved is Ok && stepped is Ok);
}

/// Ends the enrichment of the request at `i` with the failure of its lookup.
fn fail(store: &mut RequestStore, i: usize, error: LookupError, now: u64)
    requires
        old(store).wf(),
        i < old(store)@.requests.len(),
        old(store)@.requests[i as int].state == RequestState::Enriching,
    ensures
        final(store).wf(),
        final(store)@ == failed(old(store)@, i as int, error, now),
{
    let id = store.request_at(i).id;
    proof {
        store.lemma_wf_valid();
        lemma_index_of(store@, i as int);
    }
    let stepped = store.transition(
        id,
        RequestState::Enriching,
        RequestState::Failed,
        summary_text(error),
        now,
    );
    assert(stepped is Ok);
}

/// The core of the service: takes submissions in, merges duplicates, has
/// each request enriched from the catalog and checked against the library,
/// and moves it through its lifecycle.
pub struct Orchestrator {
    store: RequestStore,
    catalog: CatalogClient,
    library: LibraryIndex,
}

impl View for Orchestrator {
    type V = OrchestratorView;

    closed spec fn view(&self) -> OrchestratorView {
        OrchestratorView { store: self.store@, catalog: self.catalog@, library: self.library@ }
    }
}

impl Orchestrator {
    /// Whether the orchestrator is in order.
    pub closed spec fn wf(&self) -> bool {
        &&& self.store.wf()
        &&& self.catalog.wf()
        &&& self@.valid()
    }

    /// An orchestrator in order has a valid value.
    pub proof fn lemma_wf_valid(&self)
        requires
            self.wf(),
        ensures
            self@.valid(),
    {
    }

    /// An orchestrator with no request, an empty cache whose entries will
    /// stay fresh for `ttl_ms` milliseconds, and an empty library.
    pub fn new(ttl_ms: u64) -> (made: Orchestrator)
        ensures
            made.wf(),
            made@.store == StoreView::empty(),
            made@.catalog == (ClientView { slots: Map::empty(), ttl_ms }),
            made@.library == LibraryView::empty(),
    {
        let made = Orchestrator {
            store: RequestStore::new(),
            catalog: CatalogClient::new(ttl_ms),
            library: LibraryIndex::new(),
        };
        proof {
            made.store.lemma_wf_valid();
        }
        made
    }

    /// An orchestrator like a new one, but whose first request will get the
    /// id `first_id`.
    pub fn starting_at(ttl_ms: u64, first_id: u64) -> (made: Orchestrator)
        ensures
            made.wf(),
            made@.store == (StoreView { next_id: first_id, ..StoreView::empty() }),
            made@.catalog == (ClientView { slots: Map::empty(), ttl_ms }),
            made@.library == LibraryView::empty(),
    {
        let made = Orchestrator {
            store: RequestStore::starting_at(first_id),
            catalog: CatalogClient::new(ttl_ms),
            library: LibraryIndex::new(),
        };
        proof {
            made.store.lemma_wf_valid();
        }
        made
    }

    /// Takes a submission in at `now`.
    pub fn submit(&mut self, raw: &RawRequest, now: u64) -> (out: Result<Receipt, SubmissionError>)
        requires
            old(self).wf(),
        ensures
            final(self).wf(),
            final(self)@ == old(self)@.submitted(raw@, now).0,
            match out {
                Ok(receipt) => old(self)@.submitted(raw@, now).1 == Ok::<
                    ReceiptView,
                    SubmissionError,
                >(receipt@),
                Err(e) => old(self)@.submitted(raw@, now).1 == Err::<ReceiptView, SubmissionError>(e),
            },
            out is Err ==> final(self)@ == old(self)@,
            out is Ok ==> final(self)@.store.holds(out->Ok_0.request.id),
            out is Ok ==> final(self)@.store.request(out->Ok_0.request.id) == out->Ok_0.request@,
    {
        proof {
            lemma_submitted_valid(self@, raw@, now);
            lemma_receipt_shows_stored_request(self@, raw@, now);
        }
        let draft = match validate(raw) {
            Ok(draft) => draft,
            Err(e) => {
                return Err(SubmissionError::Validation(e));
            },
        };
        let key = DedupKey::of(draft.query.as_str(), draft.kind, &draft.seasons);
        if let Some(existing) = self.store.find_active_by_key(&key) {
            return Ok(Receipt { request: existing.duplicate(), fetch: None });
        }
        let lookup = LookupKey::of(draft.query.as_str(), draft.external_id, draft.kind);
        let ghost draft_view = draft@;
        let i = self.store.len();
        let id = match self.store.create(draft, now) {
            Ok(id) => id,
            Err(_) => {
                return Err(SubmissionError::Full);
            },
        };
        proof {
            self.store.lemma_wf_valid();
            lemma_index_of(self.store@, i as int);
        }
        let started = self.store.transition(
            id,
            RequestState::Submitted,
            RequestState::Enriching,
            detail_text(RequestState::Enriching),
            now,
        );
        assert(started is Ok);
        let start = self.catalog.begin(&lookup, now);
        let fetch = match start {
            LookupStart::Hit(entry) => {
                enrich(&mut self.store, &self.library, i, &entry, now);
                None
            },
            LookupStart::Fetch => Some(lookup),
            LookupStart::Join => None,
        };
        let request = self.store.request_at(i).duplicate();
        Ok(Receipt { request, fetch })
    }

    /// Takes in the end of a call to the catalog for `key` at `now`.
    pub fn settle(&mut self, key: &LookupKey, attempt: &Attempt, entropy: u64, now: u64) -> (verdict:
        Verdict)
        requires
            old(self).wf(),
        ensures
            final(self).wf(),
            final(self)@ == old(self)@.settled(key@, attempt@, entropy, now).0,
            verdict@ == old(self)@.settled(key@, attempt@, entropy, now).1,
            final(self)@.store.requests.len() == old(self)@.store.requests.len(),
            verdict is Settled ==> forall|i: int|
                0 <= i < final(self)@.store.requests.len() ==> !waits_for(
                    #[trigger] final(self)@.store.requests[i],
                    key@,
                ),
            !(verdict is Settled) ==> final(self)@.store == old(self)@.store,
    {
        proof {
            lemma_settled_valid(self@, key@, attempt@, entropy, now);
            let after = self@.catalog.finished(key@, attempt@, entropy, now);
            if let VerdictView::Settled(result) = after.1 {
                lemma_delivered_keeps(
                    self@.store,
                    self@.library,
                    key@,
                    result,
                    now,
                    self@.store.requests.len(),
                );
            }
        }
        let verdict = self.catalog.finish(key, attempt, entropy, now);
        if let Verdict::Settled(result) = &verdict {
            let ghost result_view: Result<CatalogEntryView, LookupError> = match result {
                Ok(entry) => Ok(entry@),
                Err(e) => Err(*e),
            };
            let n = self.store.len();
            let mut i: usize = 0;
            while i < n
                invariant
                    i <= n,
                    n == old(self).store@.requests.len(),
                    self.store.wf(),
                    self.catalog.wf(),
                    self.catalog@ == old(self).catalog@.finished(key@, attempt@, entropy, now).0,
                    self.library == old(self).library,
                    result_view == match result {
                        Ok(entry) => Ok::<CatalogEntryView, LookupError>(entry@),
                        Err(e) => Err::<CatalogEntryView, LookupError>(*e),
                    },
                    self.store@ == delivered(
                        old(self).store@,
                        old(self).library@,
                        key@,
                        result_view,
                        now,
                        i as nat,
                    ),
                decreases n - i,
            {
                proof {
                    lemma_delivered_len(
                        old(self).store@,
                        old(self).library@,
                        key@,
                        result_view,
                        now,
                        i as nat,
                    );
                }
                let request = self.store.request_at(i);
                let waits = request.state == RequestState::Enriching && LookupKey::of(
                    request.query.as_str(),
                    request.external_id,
                    request.kind,
                ).matches(key);
                if waits {
                    match result {
                        Ok(entry) => enrich(&mut self.store, &self.library, i, entry, now),
                        Err(e) => fail(&mut self.store, i, *e, now),
                    }
                }
                i += 1;
            }
        }
        verdict
    }

    /// Looks at the presence of request `id` again at `now`.
    pub fn refresh_presence(&mut self, id: u64, now: u64) -> (out: Result<RequestState, NotFoundError>)
        requires
            old(self).wf(),
        ensures
            final(self).wf(),
            final(self)@ == old(self)@.presence_refreshed(id, now).0,
            out == old(self)@.presence_refreshed(id, now).1,
    {
        proof {
            lemma_presence_refreshed_valid(self@, id, now);
        }
        let (state, external_id) = match self.store.get(id) {
            Some(request) => (request.state, request.external_id),
            None => {
                return Err(NotFoundError { id });
            },
        };
        let arrived = match external_id {
            Some(e) => state == RequestState::Pending && self.library.is_present(e),
            None => false,
        };
        if arrived {
            let stepped = self.store.transition(
                id,
                RequestState::Pending,
                RequestState::AlreadyAvailable,
                detail_text(RequestState::AlreadyAvailable),
                now,
            );
            assert(stepped is Ok);
            Ok(RequestState::AlreadyAvailable)
        } else {
            Ok(state)
        }
    }

    /// Takes in the outcome of a scan of the library at `now`.
    pub fn refresh_library(&mut self, scan: Result<Vec<u64>, RefreshError>, now: u64) -> (done: Result<
        (),
        RefreshError,
    >)
        requires
            old(self).wf(),
        ensures
            final(self).wf(),
            final(self)@.store == old(self)@.store,
            final(self)@.catalog == old(self)@.catalog,
            match scan {
                Ok(ids) => done is Ok && final(self)@.library == (LibraryView {
                    present: ids@.to_set(),
                    checked_at: now,
                    stale: false,
                }),
                Err(e) => done == Err::<(), RefreshError>(e) && final(self)@.library == (LibraryView {
                    stale: true,
                    ..old(self)@.library
                }),
            },
    {
        self.library.refresh(scan, now)
    }

    /// Drops from the catalog's cache whatever is of no use at `now`. The
    /// requests stay as they are, and so does every lookup under way.
    pub fn evict_cache(&mut self, now: u64)
        requires
            old(self).wf(),
        ensures
            final(self).wf(),
            final(self)@ == (OrchestratorView {
                catalog: old(self)@.catalog.evicted(now),
                ..old(self)@
            }),
    {
        proof {
            let after = OrchestratorView { catalog: self@.catalog.evicted(now), ..self@ };
            assert forall|i: int|
                0 <= i < after.store.requests.len() && (#[trigger] after.store.requests[i]).state
                    == RequestState::Enriching implies after.catalog.in_flight(
                lookup_key_of(
                    after.store.requests[i].query,
                    after.store.requests[i].external_id,
                    after.store.requests[i].kind,
                ),
            ) by {
                lemma_eviction_is_unseen(
                    self@.catalog,
                    now,
                    lookup_key_of(
                        after.store.requests[i].query,
                        after.store.requests[i].external_id,
                        after.store.requests[i].kind,
                    ),
                    now,
                );
            }
            lemma_evicted_valid(self@.catalog, now);
        }
        self.catalog.evict(now);
    }

    /// Takes request `id` out of the store and hands it over, once it has
    /// reached a terminal state. The core never does this of itself.
    pub fn purge(&mut self, id: u64) -> (gone: Result<MediaRequest, PurgeError>)
        requires
            old(self).wf(),
        ensures
            final(self).wf(),
            match gone {
                Ok(request) => old(self)@.store.purge_outcome(id) == Ok::<
                    MediaRequestView,
                    PurgeError,
                >(request@),
                Err(e) => old(self)@.store.purge_outcome(id) == Err::<MediaRequestView, PurgeError>(
                    e,
                ),
            },
            final(self)@ == match gone {
                Ok(_) => OrchestratorView {
                    store: old(self)@.store.purged(old(self)@.store.index_of(id)),
                    ..old(self)@
                },
                Err(_) => old(self)@,
            },
    {
        proof {
            if self@.store.holds(id) {
                let i = self@.store.index_of(id);
                lemma_purge_keeps_valid(self@, i);
            }
        }
        self.store.purge(id)
    }

    /// The request with this id, if one is stored.
    pub fn get(&self, id: u64) -> (found: Option<&MediaRequest>)
        requires
            self.wf(),
        ensures
            found is Some <==> self@.store.holds(id),
            found is Some ==> found->0@ == self@.store.request(id) && found->0.id == id,
    {
        self.store.get(id)
    }

    /// The events recorded so far, oldest first.
    pub fn events(&self) -> (log: &Vec<RequestEvent>)
        ensures
            log@.len() == self@.store.events.len(),
            forall|k: int| 0 <= k < log@.len() ==> (#[trigger] log@[k])@ == self@.store.events[k],
    {
        self.store.events()
    }

    /// The events of request `id`, oldest first.
    pub fn history_of(&self, id: u64) -> (steps: Vec<RequestEvent>)
        ensures
            steps@.len() == history(self@.store.events, id).len(),
            forall|k: int| 0 <= k < steps@.len() ==> (#[trigger] steps@[k])@ == history(
                self@.store.events,
                id,
            )[k],
    {
        self.store.history_of(id)
    }

    /// Whether the library held the title at the last good scan.
    pub fn is_present(&self, external_id: u64) -> (present: bool)
        ensures
            present == self@.library.present.contains(external_id),
    {
        self.library.is_present(external_id)
    }

    /// The number of stored requests.
    pub fn request_count(&self) -> (n: usize)
        ensures
            n == self@.store.requests.len(),
    {
        self.store.len()
    }
}

} // verus!
