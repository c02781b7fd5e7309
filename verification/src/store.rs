use crate::key::{DedupKey, DedupKeyView};
use crate::model::{MediaKind, Quality, RequestState};
use crate::request::lemma_path_is_short;
use crate::request::{history, is_path_to, MediaRequest, MediaRequestView, RequestEvent, RequestEventView};
use vstd::prelude::*;

verus! {

/// A submission that has passed validation and waits to be stored.
#[derive(Debug)]
pub struct Draft {
    pub query: String,
    pub kind: MediaKind,
    pub external_id: Option<u64>,
    pub seasons: Vec<u32>,
    pub quality: Quality,
}

/// A draft as a mathematical value.
pub struct DraftView {
    pub query: Seq<char>,
    pub kind: MediaKind,
    pub external_id: Option<u64>,
    pub seasons: Seq<u32>,
    pub quality: Quality,
}

impl View for Draft {
    type V = DraftView;

    open spec fn view(&self) -> DraftView {
        DraftView {
            query: self.query@,
            kind: self.kind,
            external_id: self.external_id,
            seasons: self.seasons@,
            quality: self.quality,
        }
    }
}

impl DraftView {
    /// The request that the draft becomes when it is stored under `id` at time `at`.
    pub open spec fn stored(self, id: u64, at: u64) -> MediaRequestView {
        MediaRequestView {
            id,
            kind: self.kind,
            query: self.query,
            external_id: self.external_id,
            seasons: self.seasons,
            quality: self.quality,
            state: RequestState::Submitted,
            created_at: at,
            updated_at: at,
        }
    }
}

/// Why a request could not be stored.
#[derive(Clone, Copy, Debug, PartialEq, Eq, Structural)]
pub enum CreateError {
    /// An active request with the same key exists; it has this id.
    Duplicate(u64),
    /// An episodic kind without seasons, or seasons on another kind.
    SeasonsMismatch,
    /// No id is left to give.
    Full,
}

/// Why a request's state was not changed.
#[derive(Clone, Copy, Debug, PartialEq, Eq, Structural)]
pub enum TransitionError {
    /// No request has the id.
    NotFound,
    /// The request is not in the state that the caller expected.
    Conflict,
    /// The lifecycle has no such step.
    Illegal,
}

/// Why a request was not purged.
#[derive(Clone, Copy, Debug, PartialEq, Eq, Structural)]
pub enum PurgeError {
    /// No request has the id.
    NotFound,
    /// The request can still change state.
    StillActive,
}

/// The later of the store's clock and the caller's.
pub open spec fn later(clock: u64, now: u64) -> u64 {
    if now > clock {
        now
    } else {
        clock
    }
}

/// The store as a mathematical value: the requests in the order of their
/// ids, the events in the order of their recording, the next id to give, and
/// the time of the latest recording.
pub struct StoreView {
    pub requests: Seq<MediaRequestView>,
    pub events: Seq<RequestEventView>,
    pub next_id: u64,
    pub clock: u64,
}

impl StoreView {
    /// The store that holds nothing and has recorded nothing.
    pub open spec fn empty() -> StoreView {
        StoreView { requests: Seq::empty(), events: Seq::empty(), next_id: 0, clock: 0 }
    }

    /// Whether a request with this id is stored.
    pub open spec fn holds(self, id: u64) -> bool {
        exists|i: int| 0 <= i < self.requests.len() && (#[trigger] self.requests[i]).id == id
    }

    /// Where the request with this id is stored.
    pub open spec fn index_of(self, id: u64) -> int {
        choose|i: int| 0 <= i < self.requests.len() && (#[trigger] self.requests[i]).id == id
    }

    /// The request with this id.
    pub open spec fn request(self, id: u64) -> MediaRequestView {
        self.requests[self.index_of(id)]
    }

    /// Whether an active request with this key is stored.
    pub open spec fn has_active(self, key: DedupKeyView) -> bool {
        exists|i: int|
            0 <= i < self.requests.len() && (#[trigger] self.requests[i]).active()
                && self.requests[i].key() == key
    }

    /// Where the active request with this key is stored.
    pub open spec fn active_index(self, key: DedupKeyView) -> int {
        choose|i: int|
            0 <= i < self.requests.len() && (#[trigger] self.requests[i]).active()
                && self.requests[i].key() == key
    }

    /// What holds of every store: ids ascend and lie below the next id; no
    /// two active requests share a key; each request's events lead from
    /// `Submitted` to its state; seasons fit the kind; and time never runs
    /// backwards, in the requests or in the events.
    pub open spec fn valid(self) -> bool {
        &&& forall|i: int, j: int|
            0 <= i < j < self.requests.len() ==> (#[trigger] self.requests[i]).id < (
            #[trigger] self.requests[j]).id
        &&& forall|i: int|
            0 <= i < self.requests.len() ==> (#[trigger] self.requests[i]).id < self.next_id
        &&& forall|i: int, j: int|
            0 <= i < self.requests.len() && 0 <= j < self.requests.len() && i != j && (
            #[trigger] self.requests[i]).active() && (#[trigger] self.requests[j]).active()
                ==> self.requests[i].key() != self.requests[j].key()
        &&& forall|i: int|
            0 <= i < self.requests.len() ==> is_path_to(
                history(self.events, (#[trigger] self.requests[i]).id),
                self.requests[i].state,
            )
        &&& forall|i: int|
            0 <= i < self.requests.len() ==> (#[trigger] self.requests[i]).seasons_fit_kind()
        &&& forall|i: int|
            0 <= i < self.requests.len() ==> (#[trigger] self.requests[i]).created_at
                <= self.requests[i].updated_at <= self.clock
        &&& forall|k: int|
            0 <= k < self.events.len() ==> (#[trigger] self.events[k]).request_id < self.next_id
        &&& forall|k: int, l: int|
            0 <= k < l < self.events.len() ==> (#[trigger] self.events[k]).timestamp <= (
            #[trigger] self.events[l]).timestamp
        &&& forall|k: int|
            0 <= k < self.events.len() ==> (#[trigger] self.events[k]).timestamp <= self.clock
    }

    /// What storing `draft` comes to: the id it gets, or why it gets none.
    pub open spec fn create_outcome(self, draft: DraftView) -> Result<u64, CreateError> {
        let key = draft.stored(0, 0).key();
        if !draft.stored(0, 0).seasons_fit_kind() {
            Err(CreateError::SeasonsMismatch)
        } else if self.has_active(key) {
            Err(CreateError::Duplicate(self.requests[self.active_index(key)].id))
        } else if self.next_id == u64::MAX {
            Err(CreateError::Full)
        } else {
            Ok(self.next_id)
        }
    }

    /// What moving request `id` from `from` to `to` comes to.
    pub open spec fn transition_outcome(
        self,
        id: u64,
        from: RequestState,
        to: RequestState,
    ) -> Result<(), TransitionError> {
        if !self.holds(id) {
            Err(TransitionError::NotFound)
        } else if self.request(id).state != from {
            Err(TransitionError::Conflict)
        } else if !from.may_become(to) {
            Err(TransitionError::Illegal)
        } else {
            Ok(())
        }
    }

    /// What giving request `id` its catalog id comes to: only a request that
    /// is being enriched takes one.
    pub open spec fn resolve_outcome(self, id: u64) -> Result<(), TransitionError> {
        if !self.holds(id) {
            Err(TransitionError::NotFound)
        } else if self.request(id).state != RequestState::Enriching {
            Err(TransitionError::Conflict)
        } else {
            Ok(())
        }
    }

    /// What purging request `id` comes to: only a request that has reached
    /// a terminal state can go.
    pub open spec fn purge_outcome(self, id: u64) -> Result<MediaRequestView, PurgeError> {
        if !self.holds(id) {
            Err(PurgeError::NotFound)
        } else if self.request(id).active() {
            Err(PurgeError::StillActive)
        } else {
            Ok(self.request(id))
        }
    }

    /// The store without the request at `i`. Its events stay in the log.
    pub open spec fn purged(self, i: int) -> StoreView {
        StoreView { requests: self.requests.remove(i), ..self }
    }

    /// Whether a pending request asks for this catalog entry.
    pub open spec fn has_pending(self, external_id: u64, kind: MediaKind) -> bool {
        exists|i: int|
            0 <= i < self.requests.len() && (#[trigger] self.requests[i]).state
                == RequestState::Pending && self.requests[i].kind == kind
                && self.requests[i].external_id == Some(external_id)
    }

    /// The store after `draft` was stored at time `now`.
    pub open spec fn with_new(self, draft: DraftView, now: u64) -> StoreView {
        StoreView {
            requests: self.requests.push(draft.stored(self.next_id, later(self.clock, now))),
            events: self.events,
            next_id: (self.next_id + 1) as u64,
            clock: later(self.clock, now),
        }
    }

    /// The store after the request at `i` went to state `to` at time `now`.
    pub open spec fn stepped(self, i: int, to: RequestState, detail: Seq<char>, now: u64) -> StoreView {
        let at = later(self.clock, now);
        let r = self.requests[i];
        StoreView {
            requests: self.requests.update(
                i,
                MediaRequestView { state: to, updated_at: at, ..r },
            ),
            events: self.events.push(
                RequestEventView {
                    request_id: r.id,
                    from_state: r.state,
                    to_state: to,
                    timestamp: at,
                    detail,
                },
            ),
            next_id: self.next_id,
            clock: at,
        }
    }

    /// The store after the request at `i` was given its catalog id.
    pub open spec fn resolved(self, i: int, external_id: u64) -> StoreView {
        let r = self.requests[i];
        StoreView {
            requests: self.requests.update(
                i,
                MediaRequestView { external_id: Some(external_id), ..r },
            ),
            ..self
        }
    }
}

/// A request without events of its own has an empty history.
pub proof fn lemma_history_of_stranger(events: Seq<RequestEventView>, id: u64)
    requires
        forall|k: int| 0 <= k < events.len() ==> (#[trigger] events[k]).request_id != id,
    ensures
        history(events, id) == Seq::<RequestEventView>::empty(),
    decreases events.len(),
{
    if events.len() > 0 {
        lemma_history_of_stranger(events.drop_last(), id);
    }
}

/// A new event joins the history of its own request and of no other.
pub proof fn lemma_history_push(events: Seq<RequestEventView>, e: RequestEventView, id: u64)
    ensures
        history(events.push(e), id) == if e.request_id == id {
            history(events, id).push(e)
        } else {
            history(events, id)
        },
{
    assert(events.push(e).drop_last() =~= events);
}

/// One more step of the lifecycle, from where a path ends, extends the path.
pub proof fn lemma_path_extends(steps: Seq<RequestEventView>, e: RequestEventView)
    requires
        is_path_to(steps, e.from_state),
        e.from_state.may_become(e.to_state),
    ensures
        is_path_to(steps.push(e), e.to_state),
{
    let longer = steps.push(e);
    assert forall|k: int| 0 <= k < longer.len() implies (#[trigger] longer[k]).from_state.may_become(
        longer[k].to_state,
    ) by {
        if k < steps.len() {
            assert(longer[k] == steps[k]);
        }
    }
    assert forall|k: int, l: int| 0 <= k && l == k + 1 && l < longer.len() implies (
    #[trigger] longer[k]).to_state == (#[trigger] longer[l]).from_state by {
        assert(longer[k] == steps[k]);
        if l < steps.len() {
            assert(longer[l] == steps[l]);
        }
    }
    if steps.len() > 0 {
        assert(longer.first() == steps.first());
    }
}

/// Storing a draft that fits, under a key that no active request has, keeps
/// the store valid.
pub proof fn lemma_with_new_valid(v: StoreView, draft: DraftView, now: u64)
    requires
        v.valid(),
        v.create_outcome(draft) is Ok,
    ensures
        v.with_new(draft, now).valid(),
{
    let w = v.with_new(draft, now);
    let n = v.requests.len() as int;
    let fresh = draft.stored(v.next_id, later(v.clock, now));
    assert(fresh.key() == draft.stored(0, 0).key());
    assert(fresh.seasons_fit_kind() == draft.stored(0, 0).seasons_fit_kind());
    assert forall|i: int| 0 <= i < w.requests.len() implies is_path_to(
        history(w.events, (#[trigger] w.requests[i]).id),
        w.requests[i].state,
    ) by {
        if i == n {
            lemma_history_of_stranger(v.events, v.next_id);
        } else {
            assert(w.requests[i] == v.requests[i]);
        }
    }
    assert forall|i: int, j: int|
        0 <= i < w.requests.len() && 0 <= j < w.requests.len() && i != j && (
        #[trigger] w.requests[i]).active() && (#[trigger] w.requests[j]).active()
            implies w.requests[i].key() != w.requests[j].key() by {
        if i < n {
            assert(w.requests[i] == v.requests[i]);
        }
        if j < n {
            assert(w.requests[j] == v.requests[j]);
        }
    }
    assert forall|i: int, j: int| 0 <= i < j < w.requests.len() implies (
    #[trigger] w.requests[i]).id < (#[trigger] w.requests[j]).id by {
        assert(w.requests[i] == v.requests[i]);
        if j < n {
            assert(w.requests[j] == v.requests[j]);
        }
    }
    assert forall|i: int| 0 <= i < w.requests.len() implies (#[trigger] w.requests[i]).created_at
        <= w.requests[i].updated_at <= w.clock && w.requests[i].seasons_fit_kind()
        && w.requests[i].id < w.next_id by {
        if i < n {
            assert(w.requests[i] == v.requests[i]);
        }
    }
}

/// A step that the lifecycle has, taken by a stored request, keeps the store
/// valid.
pub proof fn lemma_stepped_valid(
    v: StoreView,
    i: int,
    to: RequestState,
    detail: Seq<char>,
    now: u64,
)
    requires
        v.valid(),
        0 <= i < v.requests.len(),
        v.requests[i].state.may_become(to),
    ensures
        v.stepped(i, to, detail, now).valid(),
{
    let w = v.stepped(i, to, detail, now);
    let e = w.events.last();
    assert forall|j: int| 0 <= j < w.requests.len() implies is_path_to(
        history(w.events, (#[trigger] w.requests[j]).id),
        w.requests[j].state,
    ) by {
        lemma_history_push(v.events, e, w.requests[j].id);
        if j == i {
            lemma_path_extends(history(v.events, v.requests[i].id), e);
        } else {
            assert(w.requests[j] == v.requests[j]);
            if j < i {
                assert(v.requests[j].id < v.requests[i].id);
            } else {
                assert(v.requests[i].id < v.requests[j].id);
            }
        }
    }
    assert forall|a: int, b: int|
        0 <= a < w.requests.len() && 0 <= b < w.requests.len() && a != b && (
        #[trigger] w.requests[a]).active() && (#[trigger] w.requests[b]).active()
            implies w.requests[a].key() != w.requests[b].key() by {
        assert(v.requests[a].active() && v.requests[b].active());
        assert(w.requests[a].key() == v.requests[a].key());
        assert(w.requests[b].key() == v.requests[b].key());
    }
    assert forall|a: int, b: int| 0 <= a < b < w.requests.len() implies (
    #[trigger] w.requests[a]).id < (#[trigger] w.requests[b]).id by {
        assert(w.requests[a].id == v.requests[a].id);
        assert(w.requests[b].id == v.requests[b].id);
    }
    assert forall|a: int| 0 <= a < w.requests.len() implies (#[trigger] w.requests[a]).created_at
        <= w.requests[a].updated_at <= w.clock && w.requests[a].seasons_fit_kind()
        && w.requests[a].id < w.next_id by {
        assert(v.requests[a].created_at <= v.requests[a].updated_at <= v.clock);
        assert(v.requests[a].seasons_fit_kind());
        assert(v.requests[a].id < v.next_id);
    }
    assert forall|k: int, l: int| 0 <= k < l < w.events.len() implies (
    #[trigger] w.events[k]).timestamp <= (#[trigger] w.events[l]).timestamp by {
        assert(w.events[k] == v.events[k]);
        if l < v.events.len() {
            assert(w.events[l] == v.events[l]);
        }
    }
    assert forall|k: int| 0 <= k < w.events.len() implies (#[trigger] w.events[k]).timestamp
        <= w.clock && w.events[k].request_id < w.next_id by {
        if k < v.events.len() {
            assert(w.events[k] == v.events[k]);
        } else {
            assert(v.requests[i].id < v.next_id);
        }
    }
}

/// Giving a stored request its catalog id keeps the store valid.
pub proof fn lemma_resolved_valid(v: StoreView, i: int, external_id: u64)
    requires
        v.valid(),
        0 <= i < v.requests.len(),
    ensures
        v.resolved(i, external_id).valid(),
{
    let w = v.resolved(i, external_id);
    assert forall|a: int| 0 <= a < w.requests.len() implies (#[trigger] w.requests[a]).id
        == v.requests[a].id && w.requests[a].state == v.requests[a].state && w.requests[a].key()
        == v.requests[a].key() && w.requests[a].created_at == v.requests[a].created_at
        && w.requests[a].updated_at == v.requests[a].updated_at && w.requests[a].seasons_fit_kind()
        == v.requests[a].seasons_fit_kind() by {}
    assert forall|a: int| 0 <= a < w.requests.len() implies is_path_to(
        history(w.events, (#[trigger] w.requests[a]).id),
        w.requests[a].state,
    ) by {
        assert(is_path_to(history(v.events, v.requests[a].id), v.requests[a].state));
    }
    assert forall|a: int, b: int|
        0 <= a < w.requests.len() && 0 <= b < w.requests.len() && a != b && (
        #[trigger] w.requests[a]).active() && (#[trigger] w.requests[b]).active()
            implies w.requests[a].key() != w.requests[b].key() by {
        assert(v.requests[a].active() && v.requests[b].active());
    }
    assert forall|a: int, b: int| 0 <= a < b < w.requests.len() implies (
    #[trigger] w.requests[a]).id < (#[trigger] w.requests[b]).id by {
        assert(v.requests[a].id < v.requests[b].id);
    }
    assert forall|a: int| 0 <= a < w.requests.len() implies (#[trigger] w.requests[a]).created_at
        <= w.requests[a].updated_at <= w.clock && w.requests[a].seasons_fit_kind()
        && w.requests[a].id < w.next_id by {
        assert(v.requests[a].created_at <= v.requests[a].updated_at <= v.clock);
        assert(v.requests[a].seasons_fit_kind());
        assert(v.requests[a].id < v.next_id);
    }
}

/// Taking a request out keeps the store valid.
pub proof fn lemma_purged_valid(v: StoreView, i: int)
    requires
        v.valid(),
        0 <= i < v.requests.len(),
    ensures
        v.purged(i).valid(),
{
    let w = v.purged(i);
    assert forall|a: int| 0 <= a < w.requests.len() implies (#[trigger] w.requests[a])
        == v.requests[if a < i {
        a
    } else {
        a + 1
    }] by {}
    assert forall|a: int, b: int| 0 <= a < b < w.requests.len() implies (
    #[trigger] w.requests[a]).id < (#[trigger] w.requests[b]).id by {
        let x = if a < i {
            a
        } else {
            a + 1
        };
        let y = if b < i {
            b
        } else {
            b + 1
        };
        assert(v.requests[x].id < v.requests[y].id);
    }
    assert forall|a: int, b: int|
        0 <= a < w.requests.len() && 0 <= b < w.requests.len() && a != b && (
        #[trigger] w.requests[a]).active() && (#[trigger] w.requests[b]).active()
            implies w.requests[a].key() != w.requests[b].key() by {
        let x = if a < i {
            a
        } else {
            a + 1
        };
        let y = if b < i {
            b
        } else {
            b + 1
        };
        assert(v.requests[x].active() && v.requests[y].active());
    }
    assert forall|a: int| 0 <= a < w.requests.len() implies is_path_to(
        history(w.events, (#[trigger] w.requests[a]).id),
        w.requests[a].state,
    ) && w.requests[a].id < w.next_id && w.requests[a].seasons_fit_kind() && w.requests[a].created_at
        <= w.requests[a].updated_at <= w.clock by {
        let x = if a < i {
            a
        } else {
            a + 1
        };
        assert(is_path_to(history(v.events, v.requests[x].id), v.requests[x].state));
        assert(v.requests[x].id < v.next_id);
        assert(v.requests[x].seasons_fit_kind());
        assert(v.requests[x].created_at <= v.requests[x].updated_at <= v.clock);
    }
}

/// In a valid store a request is found under its id where it stands.
pub proof fn lemma_index_of(v: StoreView, i: int)
    requires
        v.valid(),
        0 <= i < v.requests.len(),
    ensures
        v.holds(v.requests[i].id),
        v.index_of(v.requests[i].id) == i,
        v.request(v.requests[i].id) == v.requests[i],
{
    let j = v.index_of(v.requests[i].id);
    assert(v.requests[j].id == v.requests[i].id);
    if j < i {
        assert(v.requests[j].id < v.requests[i].id);
    } else if i < j {
        assert(v.requests[i].id < v.requests[j].id);
    }
}

/// The events of every stored request form a path through the lifecycle
/// that begins in `Submitted` and ends in the state in which the request is.
/// Each step is one the lifecycle has and begins where the step before
/// ended, so that none is skipped; no state is entered twice; and the events
/// of the store are in the order of their times.
pub proof fn lemma_events_form_a_path(v: StoreView, id: u64)
    requires
        v.valid(),
        v.holds(id),
    ensures
        is_path_to(history(v.events, id), v.request(id).state),
        history(v.events, id).len() <= 3,
        forall|j: int, k: int|
            0 <= j < k < history(v.events, id).len() ==> (#[trigger] history(
                v.events,
                id,
            )[j]).to_state != (#[trigger] history(v.events, id)[k]).to_state,
        forall|k: int, l: int|
            0 <= k < l < v.events.len() ==> (#[trigger] v.events[k]).timestamp <= (
            #[trigger] v.events[l]).timestamp,
{
    let i = v.index_of(id);
    assert(v.requests[i].id == id);
    lemma_path_is_short(history(v.events, id), v.request(id).state);
}

struct Record {
    request: MediaRequest,
    key: DedupKey,
}

/// All requests ever submitted and not purged, with the log of their steps.
pub struct RequestStore {
    records: Vec<Record>,
    events: Vec<RequestEvent>,
    next_id: u64,
    clock: u64,
}

impl View for RequestStore {
    type V = StoreView;

    closed spec fn view(&self) -> StoreView {
        StoreView {
            requests: Seq::new(self.records@.len(), |i: int| self.records@[i].request@),
            events: Seq::new(self.events@.len(), |k: int| self.events@[k]@),
            next_id: self.next_id,
            clock: self.clock,
        }
    }
}

impl RequestStore {
    /// Whether the store is in order: its value is valid and each record
    /// carries the key of its request.
    pub closed spec fn wf(&self) -> bool {
        &&& self@.valid()
        &&& forall|i: int|
            0 <= i < self.records@.len() ==> (#[trigger] self.records@[i]).key@
                == self.records@[i].request@.key()
    }

    /// A store in order has a valid value.
    pub proof fn lemma_wf_valid(&self)
        requires
            self.wf(),
        ensures
            self@.valid(),
    {
    }

    /// An empty store, whose first request will get id 0.
    pub fn new() -> (store: RequestStore)
        ensures
            store.wf(),
            store@ == StoreView::empty(),
    {
        let store = RequestStore { records: Vec::new(), events: Vec::new(), next_id: 0, clock: 0 };
        assert(store@.requests =~= Seq::empty());
        assert(store@.events =~= Seq::empty());
        store
    }

    /// An empty store whose first request will get the id `first_id`, for a
    /// service that takes up where an earlier run left off.
    pub fn starting_at(first_id: u64) -> (store: RequestStore)
        ensures
            store.wf(),
            store@ == (StoreView { next_id: first_id, ..StoreView::empty() }),
    {
        let store = RequestStore {
            records: Vec::new(),
            events: Vec::new(),
            next_id: first_id,
            clock: 0,
        };
        assert(store@.requests =~= Seq::empty());
        assert(store@.events =~= Seq::empty());
        store
    }

    /// The number of stored requests.
    pub fn len(&self) -> (n: usize)
        ensures
            n == self@.requests.len(),
    {
        self.records.len()
    }

    /// The time of the latest recording.
    pub fn clock(&self) -> (t: u64)
        ensures
            t == self@.clock,
    {
        self.clock
    }

    /// Where the request with this id is stored, found by bisection.
    fn locate(&self, id: u64) -> (found: Option<usize>)
        requires
            self.wf(),
        ensures
            match found {
                Some(i) => i < self@.requests.len() && self@.requests[i as int].id == id
                    && self@.holds(id) && self@.index_of(id) == i,
                None => !self@.holds(id),
            },
    {
        let mut lo: usize = 0;
        let mut hi: usize = self.records.len();
        while lo < hi
            invariant
                self.wf(),
                lo <= hi <= self.records@.len(),
                forall|i: int| 0 <= i < lo ==> (#[trigger] self@.requests[i]).id < id,
                forall|i: int|
                    hi <= i < self.records@.len() ==> (#[trigger] self@.requests[i]).id > id,
            decreases hi - lo,
        {
            let mid = lo + (hi - lo) / 2;
            let here = self.records[mid].request.id;
            assert(here == self@.requests[mid as int].id);
            if here == id {
                proof {
                    let j = self@.index_of(id);
                    assert(self@.requests[j].id == id);
                    if j < mid {
                        assert(self@.requests[j].id < self@.requests[mid as int].id);
                    } else if j > mid {
                        assert(self@.requests[mid as int].id < self@.requests[j].id);
                    }
                }
                return Some(mid);
            } else if here < id {
                assert forall|i: int| 0 <= i < mid + 1 implies (#[trigger] self@.requests[i]).id
                    < id by {
                    if i < mid {
                        assert(self@.requests[i].id < self@.requests[mid as int].id);
                    }
                }
                lo = mid + 1;
            } else {
                assert forall|i: int| mid <= i < self.records@.len() implies (
                #[trigger] self@.requests[i]).id > id by {
                    if i > mid {
                        assert(self@.requests[mid as int].id < self@.requests[i].id);
                    }
                }
                hi = mid;
            }
        }
        None
    }

    /// Where the active request with this key is stored.
    fn locate_active(&self, key: &DedupKey) -> (found: Option<usize>)
        requires
            self.wf(),
        ensures
            match found {
                Some(i) => i < self@.requests.len() && self@.requests[i as int].active()
                    && self@.requests[i as int].key() == key@ && self@.has_active(key@)
                    && self@.active_index(key@) == i,
                None => !self@.has_active(key@),
            },
    {
        let mut i: usize = 0;
        while i < self.records.len()
            invariant
                self.wf(),
                i <= self.records@.len(),
                forall|j: int|
                    0 <= j < i ==> !((#[trigger] self@.requests[j]).active()
                        && self@.requests[j].key() == key@),
            decreases self.records.len() - i,
        {
            let record = &self.records[i];
            assert(record.request@ == self@.requests[i as int]);
            if !record.request.state.is_terminal() && record.key.matches(key) {
                proof {
                    let j = self@.active_index(key@);
                    assert(self@.requests[j].active() && self@.requests[j].key() == key@);
                }
                return Some(i);
            }
            i += 1;
        }
        None
    }

    /// Stores `draft` as a new request in state `Submitted`, unless its
    /// seasons do not fit its kind, an active request has its key, or the ids
    /// have run out. The request is stamped with the later of `now` and the
    /// store's clock.
    pub fn create(&mut self, draft: Draft, now: u64) -> (made: Result<u64, CreateError>)
        requires
            old(self).wf(),
        ensures
            final(self).wf(),
            made == old(self)@.create_outcome(draft@),
            final(self)@ == match made {
                Ok(_) => old(self)@.with_new(draft@, now),
                Err(_) => old(self)@,
            },
    {
        let fits = if draft.kind.is_episodic() {
            draft.seasons.len() > 0
        } else {
            draft.seasons.len() == 0
        };
        if !fits {
            return Err(CreateError::SeasonsMismatch);
        }
        let key = DedupKey::of(draft.query.as_str(), draft.kind, &draft.seasons);
        if let Some(i) = self.locate_active(&key) {
            return Err(CreateError::Duplicate(self.records[i].request.id));
        }
        if self.next_id == u64::MAX {
            return Err(CreateError::Full);
        }
        let at = if now > self.clock {
            now
        } else {
            self.clock
        };
        let id = self.next_id;
        let ghost draft_view = draft@;
        let request = MediaRequest {
            id,
            kind: draft.kind,
            query: draft.query,
            external_id: draft.external_id,
            seasons: draft.seasons,
            quality: draft.quality,
            state: RequestState::Submitted,
            created_at: at,
            updated_at: at,
        };
        assert(request@ == draft_view.stored(id, at));
        self.records.push(Record { request, key });
        self.next_id = id + 1;
        self.clock = at;
        proof {
            assert(self@.requests =~= old(self)@.with_new(draft_view, now).requests);
            assert(self@.events =~= old(self)@.events);
            lemma_with_new_valid(old(self)@, draft_view, now);
        }
        Ok(id)
    }

    /// Moves request `id` from state `from` to state `to` and records the
    /// step as an event, stamped with the later of `now` and the store's
    /// clock. Nothing changes if no request has the id, if the request is not
    /// in state `from`, or if the lifecycle has no step from `from` to `to`.
    pub fn transition(
        &mut self,
        id: u64,
        from: RequestState,
        to: RequestState,
        detail: String,
        now: u64,
    ) -> (made: Result<(), TransitionError>)
        requires
            old(self).wf(),
        ensures
            final(self).wf(),
            made == old(self)@.transition_outcome(id, from, to),
            final(self)@ == match made {
                Ok(_) => old(self)@.stepped(old(self)@.index_of(id), to, detail@, now),
                Err(_) => old(self)@,
            },
    {
        let i = match self.locate(id) {
            Some(i) => i,
            None => {
                return Err(TransitionError::NotFound);
            },
        };
        if self.records[i].request.state != from {
            return Err(TransitionError::Conflict);
        }
        if !from.can_become(to) {
            return Err(TransitionError::Illegal);
        }
        let at = if now > self.clock {
            now
        } else {
            self.clock
        };
        let ghost detail_view = detail@;
        self.records[i].request.state = to;
        self.records[i].request.updated_at = at;
        self.events.push(
            RequestEvent { request_id: id, from_state: from, to_state: to, timestamp: at, detail },
        );
        self.clock = at;
        proof {
            let w = old(self)@.stepped(i as int, to, detail_view, now);
            assert(self@.requests =~= w.requests);
            assert(self@.events =~= w.events);
            lemma_stepped_valid(old(self)@, i as int, to, detail_view, now);
        }
        Ok(())
    }

    /// Gives request `id` its catalog id while it is being enriched. Nothing
    /// changes if no request has the id or if the request is in another state.
    pub fn record_external_id(&mut self, id: u64, external_id: u64) -> (made: Result<
        (),
        TransitionError,
    >)
        requires
            old(self).wf(),
        ensures
            final(self).wf(),
            made == old(self)@.resolve_outcome(id),
            final(self)@ == match made {
                Ok(_) => old(self)@.resolved(old(self)@.index_of(id), external_id),
                Err(_) => old(self)@,
            },
    {
        let i = match self.locate(id) {
            Some(i) => i,
            None => {
                return Err(TransitionError::NotFound);
            },
        };
        if self.records[i].request.state != RequestState::Enriching {
            return Err(TransitionError::Conflict);
        }
        self.records[i].request.external_id = Some(external_id);
        proof {
            let w = old(self)@.resolved(i as int, external_id);
            assert(self@.requests =~= w.requests);
            assert(self@.events =~= old(self)@.events);
            lemma_resolved_valid(old(self)@, i as int, external_id);
        }
        Ok(())
    }

    /// Takes request `id` out of the store and hands it over, once it has
    /// reached a terminal state. Its events stay in the log. Nothing changes
    /// if no request has the id or if the request is still active.
    pub fn purge(&mut self, id: u64) -> (gone: Result<MediaRequest, PurgeError>)
        requires
            old(self).wf(),
        ensures
            final(self).wf(),
            match gone {
                Ok(request) => old(self)@.purge_outcome(id) == Ok::<MediaRequestView, PurgeError>(
                    request@,
                ),
                Err(e) => old(self)@.purge_outcome(id) == Err::<MediaRequestView, PurgeError>(e),
            },
            final(self)@ == match gone {
                Ok(_) => old(self)@.purged(old(self)@.index_of(id)),
                Err(_) => old(self)@,
            },
    {
        let i = match self.locate(id) {
            Some(i) => i,
            None => {
                return Err(PurgeError::NotFound);
            },
        };
        if !self.records[i].request.state.is_terminal() {
            return Err(PurgeError::StillActive);
        }
        let record = self.records.remove(i);
        proof {
            let w = old(self)@.purged(i as int);
            assert(self@.requests =~= w.requests);
            assert(self@.events =~= w.events);
            lemma_purged_valid(old(self)@, i as int);
        }
        Ok(record.request)
    }

    /// The request at position `i`, counted in the order of the ids.
    pub fn request_at(&self, i: usize) -> (request: &MediaRequest)
        requires
            i < self@.requests.len(),
        ensures
            request@ == self@.requests[i as int],
    {
        &self.records[i].request
    }

    /// Whether a pending request asks for this catalog entry.
    pub fn has_pending_for(&self, external_id: u64, kind: MediaKind) -> (found: bool)
        ensures
            found == self@.has_pending(external_id, kind),
    {
        let mut i: usize = 0;
        while i < self.records.len()
            invariant
                i <= self.records@.len(),
                forall|j: int|
                    0 <= j < i ==> !((#[trigger] self@.requests[j]).state == RequestState::Pending
                        && self@.requests[j].kind == kind && self@.requests[j].external_id == Some(
                        external_id,
                    )),
            decreases self.records.len() - i,
        {
            let request = &self.records[i].request;
            assert(request@ == self@.requests[i as int]);
            let same_entry = match request.external_id {
                Some(e) => e == external_id,
                None => false,
            };
            if request.state == RequestState::Pending && request.kind == kind && same_entry {
                return true;
            }
            i += 1;
        }
        false
    }

    /// The events recorded so far, oldest first.
    pub fn events(&self) -> (log: &Vec<RequestEvent>)
        ensures
            log@.len() == self@.events.len(),
            forall|k: int| 0 <= k < log@.len() ==> (#[trigger] log@[k])@ == self@.events[k],
    {
        &self.events
    }

    /// The events of request `id`, oldest first.
    pub fn history_of(&self, id: u64) -> (steps: Vec<RequestEvent>)
        ensures
            steps@.len() == history(self@.events, id).len(),
            forall|k: int| 0 <= k < steps@.len() ==> (#[trigger] steps@[k])@ == history(
                self@.events,
                id,
            )[k],
    {
        let mut steps: Vec<RequestEvent> = Vec::new();
        let mut k: usize = 0;
        while k < self.events.len()
            invariant
                k <= self.events@.len(),
                steps@.len() == history(self@.events.take(k as int), id).len(),
                forall|j: int| 0 <= j < steps@.len() ==> (#[trigger] steps@[j])@ == history(
                    self@.events.take(k as int),
                    id,
                )[j],
            decreases self.events.len() - k,
        {
            proof {
                assert(self@.events.take(k + 1).drop_last() =~= self@.events.take(k as int));
                assert(self@.events.take(k + 1).last() == self.events@[k as int]@);
            }
            if self.events[k].request_id == id {
                steps.push(self.events[k].duplicate());
            }
            k += 1;
        }
        proof {
            assert(self@.events.take(self.events@.len() as int) =~= self@.events);
        }
        steps
    }

    /// The request with this id, if one is stored.
    pub fn get(&self, id: u64) -> (found: Option<&MediaRequest>)
        requires
            self.wf(),
        ensures
            found is Some <==> self@.holds(id),
            found is Some ==> found->0@ == self@.request(id) && found->0.id == id,
    {
        match self.locate(id) {
            Some(i) => Some(&self.records[i].request),
            None => None,
        }
    }

    /// The active request with this key, if one is stored.
    pub fn find_active_by_key(&self, key: &DedupKey) -> (found: Option<&MediaRequest>)
        requires
            self.wf(),
        ensures
            found is Some <==> self@.has_active(key@),
            found is Some ==> found->0@ == self@.requests[self@.active_index(key@)]
                && found->0@.active() && found->0@.key() == key@,
    {
        match self.locate_active(key) {
            Some(i) => Some(&self.records[i].request),
            None => None,
        }
    }
}

} // verus!
