use crate::entry::{CatalogEntry, CatalogEntryView, LookupError};
use crate::model::MediaKind;
use crate::retry::{decide, decided, jittered, jittered_delay_ms, Attempt, AttemptView, Decision, DecisionView, MAX_RETRIES};
use crate::text::{canonical_title, normalize_title, same_chars};
use vstd::prelude::*;

verus! {

/// What a lookup asks the catalog for: a title in canonical form, or a
/// catalog id, and the kind in either case.
#[derive(Debug)]
pub enum LookupKey {
    Title(Vec<char>, MediaKind),
    Id(u64, MediaKind),
}

/// A lookup key as a mathematical value.
pub enum LookupKeyView {
    Title(Seq<char>, MediaKind),
    Id(u64, MediaKind),
}

impl LookupKeyView {
    /// The kind of title that the key asks for.
    pub open spec fn kind(self) -> MediaKind {
        match self {
            LookupKeyView::Title(_, kind) => kind,
            LookupKeyView::Id(_, kind) => kind,
        }
    }
}

impl View for LookupKey {
    type V = LookupKeyView;

    open spec fn view(&self) -> LookupKeyView {
        match self {
            LookupKey::Title(title, kind) => LookupKeyView::Title(title@, *kind),
            LookupKey::Id(id, kind) => LookupKeyView::Id(*id, *kind),
        }
    }
}

/// The key of a lookup for a request: by the catalog id where the request
/// names one, else by the canonical form of its title.
pub open spec fn lookup_key_of(query: Seq<char>, external_id: Option<u64>, kind: MediaKind) -> LookupKeyView {
    match external_id {
        Some(id) => LookupKeyView::Id(id, kind),
        None => LookupKeyView::Title(canonical_title(query), kind),
    }
}

impl LookupKey {
    /// The key of a lookup for a request.
    pub fn of(query: &str, external_id: Option<u64>, kind: MediaKind) -> (key: LookupKey)
        ensures
            key@ == lookup_key_of(query@, external_id, kind),
    {
        match external_id {
            Some(id) => LookupKey::Id(id, kind),
            None => LookupKey::Title(normalize_title(query), kind),
        }
    }

    /// The kind of title that the key asks for.
    pub fn kind(&self) -> (kind: MediaKind)
        ensures
            kind == self@.kind(),
    {
        match self {
            LookupKey::Title(_, kind) => *kind,
            LookupKey::Id(_, kind) => *kind,
        }
    }

    /// Whether two keys are the same.
    pub fn matches(&self, other: &LookupKey) -> (same: bool)
        ensures
            same == (self@ == other@),
    {
        match (self, other) {
            (LookupKey::Title(a, j), LookupKey::Title(b, k)) => *j == *k && same_chars(a, b),
            (LookupKey::Id(a, j), LookupKey::Id(b, k)) => *a == *b && *j == *k,
            _ => false,
        }
    }

    /// A copy of the key.
    pub fn duplicate(&self) -> (copy: LookupKey)
        ensures
            copy@ == self@,
    {
        match self {
            LookupKey::Title(title, kind) => {
                let copy = title.clone();
                assert(copy@ =~= title@);
                LookupKey::Title(copy, *kind)
            },
            LookupKey::Id(id, kind) => LookupKey::Id(*id, *kind),
        }
    }
}

/// An entry in the cache, with the time at which it was stored.
pub struct CachedView {
    pub entry: CatalogEntryView,
    pub stored_at: u64,
}

/// What the client holds for one key.
pub struct SlotView {
    /// The entry of the last lookup that found one.
    pub cached: Option<CachedView>,
    /// The number of retries made so far, while a lookup is under way.
    pub flight: Option<u32>,
}

/// The client as a mathematical value.
pub struct ClientView {
    pub slots: Map<LookupKeyView, SlotView>,
    pub ttl_ms: u64,
}

/// How a lookup begins.
#[derive(Debug)]
pub enum LookupStart {
    /// The cache holds a fresh entry: no call is needed.
    Hit(CatalogEntry),
    /// No lookup for the key is under way: the caller makes the call.
    Fetch,
    /// A lookup for the key is under way: its result will serve this one too.
    Join,
}

/// The beginning of a lookup as a mathematical value.
pub enum LookupStartView {
    Hit(CatalogEntryView),
    Fetch,
    Join,
}

impl View for LookupStart {
    type V = LookupStartView;

    open spec fn view(&self) -> LookupStartView {
        match self {
            LookupStart::Hit(entry) => LookupStartView::Hit(entry@),
            LookupStart::Fetch => LookupStartView::Fetch,
            LookupStart::Join => LookupStartView::Join,
        }
    }
}

/// What follows a call to the catalog.
#[derive(Debug)]
pub enum Verdict {
    /// No lookup for the key is under way: the call's end is dropped.
    Stray,
    /// Make the call again after so many milliseconds.
    Retry(u64),
    /// The lookup is over, with this result.
    Settled(Result<CatalogEntry, LookupError>),
}

/// A verdict as a mathematical value.
pub enum VerdictView {
    Stray,
    Retry(u64),
    Settled(Result<CatalogEntryView, LookupError>),
}

impl View for Verdict {
    type V = VerdictView;

    open spec fn view(&self) -> VerdictView {
        match self {
            Verdict::Stray => VerdictView::Stray,
            Verdict::Retry(delay) => VerdictView::Retry(*delay),
            Verdict::Settled(Ok(entry)) => VerdictView::Settled(Ok(entry@)),
            Verdict::Settled(Err(e)) => VerdictView::Settled(Err(*e)),
        }
    }
}

/// Whether what was stored at `stored_at` is younger than `ttl_ms` at `now`.
pub open spec fn is_fresh(stored_at: u64, now: u64, ttl_ms: u64) -> bool {
    now <= stored_at || now - stored_at < ttl_ms
}

impl ClientView {
    /// The entry that the cache holds for `key` and that is fresh at `now`.
    pub open spec fn fresh_entry(self, key: LookupKeyView, now: u64) -> Option<CatalogEntryView> {
        if self.slots.contains_key(key) && self.slots[key].cached is Some && is_fresh(
            self.slots[key].cached->0.stored_at,
            now,
            self.ttl_ms,
        ) {
            Some(self.slots[key].cached->0.entry)
        } else {
            None
        }
    }

    /// Whether a lookup for `key` is under way.
    pub open spec fn in_flight(self, key: LookupKeyView) -> bool {
        self.slots.contains_key(key) && self.slots[key].flight is Some
    }

    /// What the cache holds for `key`, fresh or not.
    pub open spec fn cached(self, key: LookupKeyView) -> Option<CachedView> {
        if self.slots.contains_key(key) {
            self.slots[key].cached
        } else {
            None
        }
    }

    /// The client with the slot of `key` set.
    pub open spec fn with_slot(self, key: LookupKeyView, slot: SlotView) -> ClientView {
        ClientView { slots: self.slots.insert(key, slot), ..self }
    }

    /// How a lookup for `key` begins at `now`, and the client after it. A
    /// fresh entry is served from the cache. Else the lookup joins the one
    /// under way, if there is one. Else it is put under way itself.
    pub open spec fn begun(self, key: LookupKeyView, now: u64) -> (ClientView, LookupStartView) {
        if self.fresh_entry(key, now) is Some {
            (self, LookupStartView::Hit(self.fresh_entry(key, now)->0))
        } else if self.in_flight(key) {
            (self, LookupStartView::Join)
        } else {
            (
                self.with_slot(key, SlotView { cached: self.cached(key), flight: Some(0) }),
                LookupStartView::Fetch,
            )
        }
    }

    /// What follows a call for `key` that ended in `attempt` at `now`, and
    /// the client after it. A retry is counted. A result ends the lookup, and
    /// an entry is stored in the cache.
    pub open spec fn finished(
        self,
        key: LookupKeyView,
        attempt: AttemptView,
        entropy: u64,
        now: u64,
    ) -> (ClientView, VerdictView) {
        if !self.in_flight(key) {
            (self, VerdictView::Stray)
        } else {
            let retries = self.slots[key].flight->0;
            match decided(retries as nat, attempt, key.kind()) {
                DecisionView::Retry => (
                    self.with_slot(
                        key,
                        SlotView {
                            cached: self.slots[key].cached,
                            flight: Some((retries + 1) as u32),
                        },
                    ),
                    VerdictView::Retry(jittered(retries as nat, entropy as nat) as u64),
                ),
                DecisionView::Settled(Ok(entry)) => (
                    self.with_slot(
                        key,
                        SlotView {
                            cached: Some(CachedView { entry, stored_at: now }),
                            flight: None,
                        },
                    ),
                    VerdictView::Settled(Ok(entry)),
                ),
                DecisionView::Settled(Err(e)) => (
                    self.with_slot(
                        key,
                        SlotView { cached: self.slots[key].cached, flight: None },
                    ),
                    VerdictView::Settled(Err(e)),
                ),
            }
        }
    }

    /// Whether the slot of `key` is of no use at `now`: no lookup for the key
    /// is under way, and the cache holds no fresh entry for it.
    pub open spec fn spent(self, key: LookupKeyView, now: u64) -> bool {
        self.slots.contains_key(key) && !self.in_flight(key) && self.fresh_entry(key, now) is None
    }

    /// The client without the slots that are of no use at `now`.
    pub open spec fn evicted(self, now: u64) -> ClientView {
        ClientView {
            slots: self.slots.remove_keys(Set::new(|key: LookupKeyView| self.spent(key, now))),
            ..self
        }
    }

    /// No lookup under way has made more retries than are allowed.
    pub open spec fn valid(self) -> bool {
        forall|key: LookupKeyView|
            self.slots.contains_key(key) && (#[trigger] self.slots[key]).flight is Some
                ==> self.slots[key].flight->0 <= MAX_RETRIES
    }
}

/// The number of lookups, out of those that begin for `key` one after
/// another at `times`, that are told to call the catalog.
pub open spec fn calls_begun(client: ClientView, key: LookupKeyView, times: Seq<u64>) -> nat
    decreases times.len(),
{
    if times.len() == 0 {
        0
    } else {
        let (next, start) = client.begun(key, times[0]);
        let call: nat = if start is Fetch {
            1
        } else {
            0
        };
        call + calls_begun(next, key, times.drop_first())
    }
}

/// While a lookup for a key is under way, no lookup that begins for the key
/// is told to call the catalog.
pub proof fn lemma_no_call_while_in_flight(client: ClientView, key: LookupKeyView, times: Seq<u64>)
    requires
        client.in_flight(key),
    ensures
        calls_begun(client, key, times) == 0,
    decreases times.len(),
{
    if times.len() > 0 {
        let (next, start) = client.begun(key, times[0]);
        assert(next == client);
        lemma_no_call_while_in_flight(next, key, times.drop_first());
    }
}

/// However many lookups begin for one key before any of them is settled,
/// at most one of them is told to call the catalog.
pub proof fn lemma_lookups_coalesce(client: ClientView, key: LookupKeyView, times: Seq<u64>)
    ensures
        calls_begun(client, key, times) <= 1,
    decreases times.len(),
{
    if times.len() > 0 {
        let (next, start) = client.begun(key, times[0]);
        if start is Fetch {
            assert(next.in_flight(key));
            lemma_no_call_while_in_flight(next, key, times.drop_first());
        } else {
            lemma_lookups_coalesce(next, key, times.drop_first());
        }
    }
}

/// Once a lookup has settled with an entry, every lookup for the key that
/// begins while the entry is fresh is served that entry from the cache, and
/// the client stays as it is.
pub proof fn lemma_settled_entry_is_served(
    client: ClientView,
    key: LookupKeyView,
    attempt: AttemptView,
    entropy: u64,
    settled_at: u64,
    asked_at: u64,
)
    requires
        client.finished(key, attempt, entropy, settled_at).1 is Settled,
        client.finished(key, attempt, entropy, settled_at).1->Settled_0 is Ok,
        is_fresh(settled_at, asked_at, client.ttl_ms),
    ensures
        ({
            let (after, verdict) = client.finished(key, attempt, entropy, settled_at);
            after.begun(key, asked_at) == (
                after,
                LookupStartView::Hit(verdict->Settled_0->Ok_0),
            )
        }),
{
}

/// Eviction keeps the client's value valid.
pub proof fn lemma_evicted_valid(client: ClientView, now: u64)
    requires
        client.valid(),
    ensures
        client.evicted(now).valid(),
{
    let after = client.evicted(now);
    assert forall|k: LookupKeyView|
        after.slots.contains_key(k) && (#[trigger] after.slots[k]).flight is Some
            implies after.slots[k].flight->0 <= MAX_RETRIES by {
        assert(client.slots.contains_key(k) && client.slots[k] == after.slots[k]);
    }
}

/// Eviction is not seen from outside: every lookup under way stays under
/// way, and any lookup that begins at the time of the eviction or later
/// begins as it would have without it.
pub proof fn lemma_eviction_is_unseen(client: ClientView, now: u64, key: LookupKeyView, asked_at: u64)
    requires
        asked_at >= now,
    ensures
        client.evicted(now).in_flight(key) == client.in_flight(key),
        client.evicted(now).fresh_entry(key, asked_at) == client.fresh_entry(key, asked_at),
        client.evicted(now).begun(key, asked_at).1 == client.begun(key, asked_at).1,
{
}

/// Beginning and finishing lookups keeps the client's value valid.
pub proof fn lemma_client_steps_valid(
    client: ClientView,
    key: LookupKeyView,
    attempt: AttemptView,
    entropy: u64,
    now: u64,
)
    requires
        client.valid(),
    ensures
        client.begun(key, now).0.valid(),
        client.finished(key, attempt, entropy, now).0.valid(),
{
    let begun = client.begun(key, now).0;
    assert forall|k: LookupKeyView|
        begun.slots.contains_key(k) && (#[trigger] begun.slots[k]).flight is Some
            implies begun.slots[k].flight->0 <= MAX_RETRIES by {
        if k != key {
            assert(client.slots.contains_key(k) && client.slots[k] == begun.slots[k]);
        } else if begun == client {
            assert(client.slots[k].flight is Some);
        }
    }
    let finished = client.finished(key, attempt, entropy, now).0;
    assert forall|k: LookupKeyView|
        finished.slots.contains_key(k) && (#[trigger] finished.slots[k]).flight is Some
            implies finished.slots[k].flight->0 <= MAX_RETRIES by {
        if k != key {
            assert(client.slots.contains_key(k) && client.slots[k] == finished.slots[k]);
        } else {
            assert(client.slots.contains_key(k) && client.slots[k].flight is Some);
        }
    }
}

struct Slot {
    key: LookupKey,
    entry: Option<CatalogEntry>,
    stored_at: u64,
    flight: Option<u32>,
}

impl Slot {
    /// Whether the slot is of use at `now`: a lookup is under way, or the
    /// entry is fresh.
    spec fn useful(self, now: u64, ttl_ms: u64) -> bool {
        self.flight is Some || (self.entry is Some && is_fresh(self.stored_at, now, ttl_ms))
    }

    /// What the slot holds, as a mathematical value.
    spec fn state(self) -> SlotView {
        SlotView {
            cached: match self.entry {
                Some(entry) => Some(CachedView { entry: entry@, stored_at: self.stored_at }),
                None => None,
            },
            flight: self.flight,
        }
    }
}

/// The client's side of the catalog: the cache of entries, and the register
/// of the lookups that are under way.
pub struct CatalogClient {
    slots: Vec<Slot>,
    ttl_ms: u64,
}

impl View for CatalogClient {
    type V = ClientView;

    closed spec fn view(&self) -> ClientView {
        ClientView {
            slots: Map::new(
                |key: LookupKeyView| self.has_slot(key),
                |key: LookupKeyView| self.slots@[self.slot_index(key)].state(),
            ),
            ttl_ms: self.ttl_ms,
        }
    }
}

impl CatalogClient {
    /// Whether a slot is kept for `key`.
    spec fn has_slot(&self, key: LookupKeyView) -> bool {
        exists|i: int| 0 <= i < self.slots@.len() && (#[trigger] self.slots@[i]).key@ == key
    }

    /// Where the slot of `key` is kept.
    spec fn slot_index(&self, key: LookupKeyView) -> int {
        choose|i: int| 0 <= i < self.slots@.len() && (#[trigger] self.slots@[i]).key@ == key
    }

    /// Whether the client is in order: no key has two slots, and its value
    /// is valid.
    pub closed spec fn wf(&self) -> bool {
        &&& forall|i: int, j: int|
            0 <= i < j < self.slots@.len() ==> (#[trigger] self.slots@[i]).key@ != (
            #[trigger] self.slots@[j]).key@
        &&& forall|i: int|
            0 <= i < self.slots@.len() && (#[trigger] self.slots@[i]).flight is Some
                ==> self.slots@[i].flight->0 <= MAX_RETRIES
    }

    /// A client in order has a valid value.
    pub proof fn lemma_wf_valid(&self)
        requires
            self.wf(),
        ensures
            self@.valid(),
    {
        assert forall|key: LookupKeyView|
            self@.slots.contains_key(key) && (#[trigger] self@.slots[key]).flight is Some
                implies self@.slots[key].flight->0 <= MAX_RETRIES by {
            let i = self.slot_index(key);
            assert(self.slots@[i].flight is Some);
        }
    }

    /// The client's value holds, under the key of slot `i`, what that slot
    /// holds.
    proof fn lemma_slot_at(&self, i: int)
        requires
            self.wf(),
            0 <= i < self.slots@.len(),
        ensures
            self@.slots.contains_key(self.slots@[i].key@),
            self@.slots[self.slots@[i].key@] == self.slots@[i].state(),
            self.slot_index(self.slots@[i].key@) == i,
    {
        let key = self.slots@[i].key@;
        let j = self.slot_index(key);
        assert(self.slots@[j].key@ == key);
        if j < i {
            assert(self.slots@[j].key@ != self.slots@[i].key@);
        } else if i < j {
            assert(self.slots@[i].key@ != self.slots@[j].key@);
        }
    }

    /// A client with an empty cache and no lookup under way, whose entries
    /// will stay fresh for `ttl_ms` milliseconds.
    pub fn new(ttl_ms: u64) -> (client: CatalogClient)
        ensures
            client.wf(),
            client@ == (ClientView { slots: Map::empty(), ttl_ms }),
    {
        let client = CatalogClient { slots: Vec::new(), ttl_ms };
        assert(client@.slots =~= Map::empty());
        client
    }

    /// How long an entry stays fresh, in milliseconds.
    pub fn ttl_ms(&self) -> (ttl: u64)
        ensures
            ttl == self@.ttl_ms,
    {
        self.ttl_ms
    }

    /// Where the slot of `key` is kept, if there is one.
    fn locate(&self, key: &LookupKey) -> (found: Option<usize>)
        requires
            self.wf(),
        ensures
            match found {
                Some(i) => i < self.slots@.len() && self.slots@[i as int].key@ == key@,
                None => !self.has_slot(key@),
            },
    {
        let mut i: usize = 0;
        while i < self.slots.len()
            invariant
                i <= self.slots@.len(),
                forall|j: int| 0 <= j < i ==> (#[trigger] self.slots@[j]).key@ != key@,
            decreases self.slots.len() - i,
        {
            if self.slots[i].key.matches(key) {
                return Some(i);
            }
            i += 1;
        }
        None
    }

    /// The entry in slot `i`, if it is fresh at `now`.
    fn fresh_at(&self, i: usize, now: u64) -> (hit: Option<&CatalogEntry>)
        requires
            i < self.slots@.len(),
        ensures
            match hit {
                Some(entry) => self.slots@[i as int].entry is Some && entry@
                    == self.slots@[i as int].entry->0@ && is_fresh(
                    self.slots@[i as int].stored_at,
                    now,
                    self.ttl_ms,
                ),
                None => self.slots@[i as int].entry is None || !is_fresh(
                    self.slots@[i as int].stored_at,
                    now,
                    self.ttl_ms,
                ),
            },
    {
        let slot = &self.slots[i];
        if now <= slot.stored_at || now - slot.stored_at < self.ttl_ms {
            match &slot.entry {
                Some(entry) => Some(entry),
                None => None,
            }
        } else {
            None
        }
    }

    /// The entry that the cache holds for `key`, if it is fresh at `now`.
    pub fn cached(&self, key: &LookupKey, now: u64) -> (hit: Option<&CatalogEntry>)
        requires
            self.wf(),
        ensures
            match hit {
                Some(entry) => self@.fresh_entry(key@, now) == Some(entry@),
                None => self@.fresh_entry(key@, now) is None,
            },
    {
        match self.locate(key) {
            Some(i) => {
                proof {
                    self.lemma_slot_at(i as int);
                }
                self.fresh_at(i, now)
            },
            None => None,
        }
    }

    /// Whether a lookup for `key` is under way.
    pub fn is_in_flight(&self, key: &LookupKey) -> (under_way: bool)
        requires
            self.wf(),
        ensures
            under_way == self@.in_flight(key@),
    {
        match self.locate(key) {
            Some(i) => {
                proof {
                    self.lemma_slot_at(i as int);
                }
                self.slots[i].flight.is_some()
            },
            None => false,
        }
    }

    /// Begins a lookup for `key` at `now`. A fresh entry comes from the
    /// cache. Else, while a lookup for the key is under way, this one joins
    /// it and no second call is made. Else the key is registered as under
    /// way, and the caller is to make the call.
    pub fn begin(&mut self, key: &LookupKey, now: u64) -> (start: LookupStart)
        requires
            old(self).wf(),
        ensures
            final(self).wf(),
            (final(self)@, start@) == old(self)@.begun(key@, now),
    {
        match self.locate(key) {
            Some(i) => {
                proof {
                    self.lemma_slot_at(i as int);
                }
                if let Some(entry) = self.fresh_at(i, now) {
                    LookupStart::Hit(entry.duplicate())
                } else if self.slots[i].flight.is_some() {
                    LookupStart::Join
                } else {
                    self.slots[i].flight = Some(0);
                    proof {
                        self.lemma_updated(*old(self), i as int);
                    }
                    LookupStart::Fetch
                }
            },
            None => {
                self.slots.push(Slot { key: key.duplicate(), entry: None, stored_at: 0, flight: Some(0) });
                proof {
                    let n = old(self).slots@.len() as int;
                    let after = old(self)@.slots.insert(key@, self.slots@[n].state());
                    assert forall|k: LookupKeyView| self@.slots.contains_key(k) <==> after.contains_key(
                        k,
                    ) by {
                        if old(self).has_slot(k) {
                            let j = old(self).slot_index(k);
                            assert(self.slots@[j].key@ == k);
                        }
                        if k == key@ {
                            assert(self.slots@[n].key@ == k);
                        }
                    }
                    assert forall|k: LookupKeyView| self@.slots.contains_key(k) implies self@.slots[k]
                        == after[k] by {
                        let j = self.slot_index(k);
                        if j < n {
                            assert(old(self).slots@[j].key@ == k);
                            old(self).lemma_slot_at(j);
                        }
                    }
                    assert(self@.slots =~= after);
                }
                LookupStart::Fetch
            },
        }
    }

    /// A client that differs from `before` in the state of slot `i` alone
    /// has the value of `before` with that slot set.
    proof fn lemma_updated(&self, before: CatalogClient, i: int)
        requires
            before.wf(),
            0 <= i < before.slots@.len(),
            self.slots@.len() == before.slots@.len(),
            self.ttl_ms == before.ttl_ms,
            forall|j: int|
                0 <= j < before.slots@.len() ==> (#[trigger] self.slots@[j]).key@
                    == before.slots@[j].key@,
            forall|j: int|
                0 <= j < before.slots@.len() && j != i ==> (#[trigger] self.slots@[j]).state()
                    == before.slots@[j].state(),
            self.slots@[i].flight is Some ==> self.slots@[i].flight->0 <= MAX_RETRIES,
        ensures
            self.wf(),
            self@ == before@.with_slot(before.slots@[i].key@, self.slots@[i].state()),
    {
        assert forall|a: int, b: int| 0 <= a < b < self.slots@.len() implies (
        #[trigger] self.slots@[a]).key@ != (#[trigger] self.slots@[b]).key@ by {
            assert(before.slots@[a].key@ != before.slots@[b].key@);
        }
        assert forall|a: int|
            0 <= a < self.slots@.len() && (#[trigger] self.slots@[a]).flight is Some
                implies self.slots@[a].flight->0 <= MAX_RETRIES by {
            if a != i {
                assert(self.slots@[a].state() == before.slots@[a].state());
                assert(before.slots@[a].flight is Some);
            }
        }
        let key = before.slots@[i].key@;
        let after = before@.slots.insert(key, self.slots@[i].state());
        assert forall|k: LookupKeyView| self@.slots.contains_key(k) <==> after.contains_key(k) by {
            if self.has_slot(k) {
                let j = self.slot_index(k);
                assert(before.slots@[j].key@ == k);
            }
            if before.has_slot(k) {
                let j = before.slot_index(k);
                assert(self.slots@[j].key@ == k);
            }
            if k == key {
                assert(self.slots@[i].key@ == k);
            }
        }
        assert forall|k: LookupKeyView| self@.slots.contains_key(k) implies self@.slots[k]
            == after[k] by {
            let j = self.slot_index(k);
            self.lemma_slot_at(j);
            before.lemma_slot_at(j);
        }
        assert(self@.slots =~= after);
    }

    /// A client whose slots are, one for one, the useful slots of `before`
    /// has the value of `before` after eviction.
    proof fn lemma_evicted(&self, before: CatalogClient, origin: Seq<int>, now: u64)
        requires
            before.wf(),
            self.ttl_ms == before.ttl_ms,
            origin.len() == self.slots@.len(),
            forall|a: int|
                0 <= a < self.slots@.len() ==> 0 <= #[trigger] origin[a] < before.slots@.len()
                    && before.slots@[origin[a]] == self.slots@[a],
            forall|a: int, b: int|
                0 <= a < b < self.slots@.len() ==> (#[trigger] self.slots@[a]).key@ != (
                #[trigger] self.slots@[b]).key@,
            forall|a: int|
                0 <= a < self.slots@.len() ==> (#[trigger] self.slots@[a]).useful(now, self.ttl_ms),
            forall|j: int|
                0 <= j < before.slots@.len() && (#[trigger] before.slots@[j]).useful(
                    now,
                    before.ttl_ms,
                ) ==> self.slots@.contains(before.slots@[j]),
        ensures
            self.wf(),
            self@ == before@.evicted(now),
    {
        assert forall|a: int|
            0 <= a < self.slots@.len() && (#[trigger] self.slots@[a]).flight is Some
                implies self.slots@[a].flight->0 <= MAX_RETRIES by {
            assert(before.slots@[origin[a]].flight is Some);
        }
        assert(self.wf());
        let after = before@.evicted(now);
        assert forall|k: LookupKeyView| #[trigger]
            self@.slots.contains_key(k) implies after.slots.contains_key(k) && self@.slots[k]
            == after.slots[k] by {
            let a = self.slot_index(k);
            self.lemma_slot_at(a);
            assert(self.slots@[a].useful(now, self.ttl_ms));
            before.lemma_slot_at(origin[a]);
        }
        assert forall|k: LookupKeyView| #[trigger]
            after.slots.contains_key(k) implies self@.slots.contains_key(k) by {
            let j = before.slot_index(k);
            assert(before.slots@[j].key@ == k);
            before.lemma_slot_at(j);
            assert(before.slots@[j].useful(now, before.ttl_ms));
            let a = choose|a: int| 0 <= a < self.slots@.len() && self.slots@[a] == before.slots@[j];
            assert(self.slots@[a].key@ == k);
        }
        assert(self@.slots =~= after.slots);
    }

    /// Drops every slot that is of no use at `now`. Lookups that are under
    /// way and entries that are fresh stay, so that no lookup begins
    /// otherwise than it would have.
    pub fn evict(&mut self, now: u64)
        requires
            old(self).wf(),
        ensures
            final(self).wf(),
            final(self)@ == old(self)@.evicted(now),
    {
        let ghost before = self.slots@;
        let ghost mut origin: Seq<int> = Seq::empty();
        let mut kept: Vec<Slot> = Vec::new();
        while self.slots.len() > 0
            invariant
                old(self).wf(),
                before == old(self).slots@,
                self.ttl_ms == old(self).ttl_ms,
                self.slots@.len() <= before.len(),
                self.slots@ == before.take(self.slots@.len() as int),
                origin.len() == kept@.len(),
                forall|a: int|
                    0 <= a < kept@.len() ==> self.slots@.len() <= #[trigger] origin[a] < before.len()
                        && before[origin[a]] == kept@[a],
                forall|a: int, b: int|
                    0 <= a < b < kept@.len() ==> (#[trigger] kept@[a]).key@ != (
                    #[trigger] kept@[b]).key@,
                forall|a: int|
                    0 <= a < kept@.len() ==> (#[trigger] kept@[a]).useful(now, self.ttl_ms),
                forall|j: int|
                    self.slots@.len() <= j < before.len() && (#[trigger] before[j]).useful(
                        now,
                        self.ttl_ms,
                    ) ==> kept@.contains(before[j]),
            decreases self.slots@.len(),
        {
            let ghost j = self.slots@.len() - 1;
            let ghost kept_before = kept@;
            let fresh = self.fresh_at(self.slots.len() - 1, now).is_some();
            let slot = self.slots.pop().unwrap();
            assert(slot == before[j]);
            if slot.flight.is_some() || fresh {
                proof {
                    assert forall|a: int| 0 <= a < kept_before.len() implies (
                    #[trigger] kept_before[a]).key@ != slot.key@ by {
                        assert(before[j].key@ != before[origin[a]].key@);
                    }
                    origin = origin.push(j);
                }
                kept.push(slot);
                proof {
                    assert forall|i: int|
                        self.slots@.len() <= i < before.len() && (#[trigger] before[i]).useful(
                            now,
                            self.ttl_ms,
                        ) implies kept@.contains(before[i]) by {
                        if i == j {
                            assert(kept@[kept@.len() - 1] == before[i]);
                        } else {
                            assert(kept_before.contains(before[i]));
                            let a = choose|a: int|
                                0 <= a < kept_before.len() && kept_before[a] == before[i];
                            assert(kept@[a] == before[i]);
                        }
                    }
                }
            }
        }
        self.slots = kept;
        proof {
            self.lemma_evicted(*old(self), origin, now);
        }
    }

    /// Begins the lookup of a title by its name.
    pub fn lookup(&mut self, query: &str, kind: MediaKind, now: u64) -> (start: LookupStart)
        requires
            old(self).wf(),
        ensures
            final(self).wf(),
            (final(self)@, start@) == old(self)@.begun(lookup_key_of(query@, None, kind), now),
    {
        let key = LookupKey::of(query, None, kind);
        self.begin(&key, now)
    }

    /// Begins the lookup of a title by its catalog id.
    pub fn lookup_by_id(&mut self, external_id: u64, kind: MediaKind, now: u64) -> (start: LookupStart)
        requires
            old(self).wf(),
        ensures
            final(self).wf(),
            (final(self)@, start@) == old(self)@.begun(LookupKeyView::Id(external_id, kind), now),
    {
        let key = LookupKey::Id(external_id, kind);
        self.begin(&key, now)
    }

    /// Takes in the end of a call for `key`. Where no lookup for the key is
    /// under way, nothing changes. A failure that may pass is answered with
    /// the wait before the next call, until the retries are spent. Any other
    /// end settles the lookup: an entry is stored in the cache as of `now`
    /// and handed out, a failure is handed out.
    pub fn finish(&mut self, key: &LookupKey, attempt: &Attempt, entropy: u64, now: u64) -> (verdict:
        Verdict)
        requires
            old(self).wf(),
        ensures
            final(self).wf(),
            (final(self)@, verdict@) == old(self)@.finished(key@, attempt@, entropy, now),
    {
        let i = match self.locate(key) {
            Some(i) => i,
            None => {
                return Verdict::Stray;
            },
        };
        proof {
            self.lemma_slot_at(i as int);
        }
        let retries = match self.slots[i].flight {
            Some(retries) => retries,
            None => {
                return Verdict::Stray;
            },
        };
        match decide(retries, attempt, key.kind()) {
            Decision::Retry => {
                let delay = jittered_delay_ms(retries, entropy);
                self.slots[i].flight = Some(retries + 1);
                proof {
                    self.lemma_updated(*old(self), i as int);
                }
                Verdict::Retry(delay)
            },
            Decision::Settled(Ok(entry)) => {
                let copy = entry.duplicate();
                self.slots[i].entry = Some(entry);
                self.slots[i].stored_at = now;
                self.slots[i].flight = None;
                proof {
                    self.lemma_updated(*old(self), i as int);
                }
                Verdict::Settled(Ok(copy))
            },
            Decision::Settled(Err(e)) => {
                self.slots[i].flight = None;
                proof {
                    self.lemma_updated(*old(self), i as int);
                }
                Verdict::Settled(Err(e))
            },
        }
    }
}

} // verus!
