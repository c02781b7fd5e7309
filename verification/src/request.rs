use crate::key::{key_of, DedupKeyView};
use crate::model::{MediaKind, Quality, RequestState};
use vstd::prelude::*;

verus! {

/// A request for one title, as the store keeps it.
#[derive(Debug)]
pub struct MediaRequest {
    pub id: u64,
    pub kind: MediaKind,
    pub query: String,
    pub external_id: Option<u64>,
    pub seasons: Vec<u32>,
    pub quality: Quality,
    pub state: RequestState,
    pub created_at: u64,
    pub updated_at: u64,
}

/// A request as a mathematical value.
pub struct MediaRequestView {
    pub id: u64,
    pub kind: MediaKind,
    pub query: Seq<char>,
    pub external_id: Option<u64>,
    pub seasons: Seq<u32>,
    pub quality: Quality,
    pub state: RequestState,
    pub created_at: u64,
    pub updated_at: u64,
}

impl MediaRequestView {
    /// The key under which submissions of this request are merged.
    pub open spec fn key(self) -> DedupKeyView {
        key_of(self.query, self.kind, self.seasons)
    }

    /// Whether the request can still change state.
    pub open spec fn active(self) -> bool {
        !self.state.terminal()
    }

    /// Episodic kinds name at least one season; other kinds name none.
    pub open spec fn seasons_fit_kind(self) -> bool {
        if self.kind.episodic() {
            self.seasons.len() > 0
        } else {
            self.seasons.len() == 0
        }
    }
}

impl View for MediaRequest {
    type V = MediaRequestView;

    open spec fn view(&self) -> MediaRequestView {
        MediaRequestView {
            id: self.id,
            kind: self.kind,
            query: self.query@,
            external_id: self.external_id,
            seasons: self.seasons@,
            quality: self.quality,
            state: self.state,
            created_at: self.created_at,
            updated_at: self.updated_at,
        }
    }
}

impl MediaRequest {
    /// A copy of the request.
    pub fn duplicate(&self) -> (copy: MediaRequest)
        ensures
            copy@ == self@,
    {
        let seasons = self.seasons.clone();
        assert(seasons@ =~= self.seasons@);
        MediaRequest {
            id: self.id,
            kind: self.kind,
            query: self.query.clone(),
            external_id: self.external_id,
            seasons,
            quality: self.quality,
            state: self.state,
            created_at: self.created_at,
            updated_at: self.updated_at,
        }
    }
}

/// The record of one step in a request's lifecycle.
#[derive(Debug)]
pub struct RequestEvent {
    pub request_id: u64,
    pub from_state: RequestState,
    pub to_state: RequestState,
    pub timestamp: u64,
    pub detail: String,
}

/// An event as a mathematical value.
pub struct RequestEventView {
    pub request_id: u64,
    pub from_state: RequestState,
    pub to_state: RequestState,
    pub timestamp: u64,
    pub detail: Seq<char>,
}

impl View for RequestEvent {
    type V = RequestEventView;

    open spec fn view(&self) -> RequestEventView {
        RequestEventView {
            request_id: self.request_id,
            from_state: self.from_state,
            to_state: self.to_state,
            timestamp: self.timestamp,
            detail: self.detail@,
        }
    }
}

impl RequestEvent {
    /// A copy of the event.
    pub fn duplicate(&self) -> (copy: RequestEvent)
        ensures
            copy@ == self@,
    {
        RequestEvent {
            request_id: self.request_id,
            from_state: self.from_state,
            to_state: self.to_state,
            timestamp: self.timestamp,
            detail: self.detail.clone(),
        }
    }
}

/// The events of one request, in the order in which they were recorded.
pub open spec fn history(events: Seq<RequestEventView>, id: u64) -> Seq<RequestEventView>
    decreases events.len(),
{
    if events.len() == 0 {
        Seq::empty()
    } else {
        let before = history(events.drop_last(), id);
        if events.last().request_id == id {
            before.push(events.last())
        } else {
            before
        }
    }
}

/// Whether `steps` lead from `Submitted` to `state` along the lifecycle: the
/// first step leaves `Submitted`, each step is one the lifecycle has, each
/// begins where the one before ended, and the last ends in `state`.
pub open spec fn is_path_to(steps: Seq<RequestEventView>, state: RequestState) -> bool {
    &&& steps.len() == 0 ==> state == RequestState::Submitted
    &&& steps.len() > 0 ==> steps.first().from_state == RequestState::Submitted
        && steps.last().to_state == state
    &&& forall|k: int|
        0 <= k < steps.len() ==> (#[trigger] steps[k]).from_state.may_become(steps[k].to_state)
    &&& forall|k: int, l: int|
        0 <= k && l == k + 1 && l < steps.len() ==> (#[trigger] steps[k]).to_state == (
        #[trigger] steps[l]).from_state
}

/// How far along the lifecycle a state lies.
pub open spec fn rank(state: RequestState) -> nat {
    match state {
        RequestState::Submitted => 0,
        RequestState::Enriching => 1,
        RequestState::Pending => 2,
        _ => 3,
    }
}

/// Along a path every step leads further: the state that step `k` enters
/// lies at least `k - j` beyond the state that step `j` enters.
pub proof fn lemma_path_advances(steps: Seq<RequestEventView>, state: RequestState, j: int, k: int)
    requires
        is_path_to(steps, state),
        0 <= j <= k < steps.len(),
    ensures
        rank(steps[j].to_state) + (k - j) <= rank(steps[k].to_state),
        rank(steps[j].from_state) < rank(steps[j].to_state),
    decreases k - j,
{
    assert(steps[j].from_state.may_become(steps[j].to_state));
    if j < k {
        lemma_path_advances(steps, state, j, k - 1);
        assert(steps[k - 1].to_state == steps[k].from_state);
        assert(steps[k].from_state.may_become(steps[k].to_state));
    }
}

/// A path has at most three steps and enters no state twice.
pub proof fn lemma_path_is_short(steps: Seq<RequestEventView>, state: RequestState)
    requires
        is_path_to(steps, state),
    ensures
        steps.len() <= 3,
        forall|j: int, k: int|
            0 <= j < k < steps.len() ==> (#[trigger] steps[j]).to_state != (
            #[trigger] steps[k]).to_state,
{
    if steps.len() > 0 {
        lemma_path_advances(steps, state, 0, steps.len() - 1);
    }
    assert forall|j: int, k: int| 0 <= j < k < steps.len() implies (#[trigger] steps[j]).to_state
        != (#[trigger] steps[k]).to_state by {
        lemma_path_advances(steps, state, j, k);
    }
}

} // verus!
