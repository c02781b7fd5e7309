use crate::model::MediaKind;
use crate::text::{canonical_title, normalize_title, same_chars};
use vstd::prelude::*;

verus! {

/// `s` with `x` put in so that, where `s` ascends, the result ascends too:
/// `x` goes behind the last item that is not greater than it.
pub open spec fn placed(s: Seq<u32>, x: u32) -> Seq<u32>
    decreases s.len(),
{
    if s.len() == 0 {
        seq![x]
    } else if s.last() <= x {
        s.push(x)
    } else {
        placed(s.drop_last(), x).push(s.last())
    }
}

/// The items of `s` in ascending order.
pub open spec fn ascending(s: Seq<u32>) -> Seq<u32>
    decreases s.len(),
{
    if s.len() == 0 {
        Seq::empty()
    } else {
        placed(ascending(s.drop_last()), s.last())
    }
}

/// Whether no item of `s` is greater than a later one.
pub open spec fn ascends(s: Seq<u32>) -> bool {
    forall|i: int, j: int| 0 <= i < j < s.len() ==> s[i] <= s[j]
}

/// Placing `x` is inserting it at any position that has only greater items
/// from there on and an item not greater than `x` just before.
pub proof fn lemma_placed_at(s: Seq<u32>, x: u32, p: int)
    requires
        0 <= p <= s.len(),
        forall|j: int| p <= j < s.len() ==> s[j] > x,
        p == 0 || s[p - 1] <= x,
    ensures
        placed(s, x) == s.insert(p, x),
    decreases s.len(),
{
    if s.len() == 0 {
        assert(s.insert(p, x) =~= seq![x]);
    } else if p == s.len() {
        assert(s.insert(p, x) =~= s.push(x));
    } else {
        lemma_placed_at(s.drop_last(), x, p);
        assert(s.insert(p, x) =~= s.drop_last().insert(p, x).push(s.last()));
    }
}

/// Placing keeps every item and adds the new one; it keeps an ascending
/// sequence ascending.
pub proof fn lemma_placed_keeps(s: Seq<u32>, x: u32)
    ensures
        placed(s, x).to_multiset() == s.to_multiset().insert(x),
        placed(s, x).len() == s.len() + 1,
        ascends(s) ==> ascends(placed(s, x)),
    decreases s.len(),
{
    broadcast use vstd::seq_lib::group_to_multiset_ensures;

    if s.len() == 0 {
        assert(placed(s, x) =~= s.push(x));
    } else if s.last() <= x {
    } else {
        let front = s.drop_last();
        lemma_placed_keeps(front, x);
        assert(s =~= front.push(s.last()));
        assert(placed(s, x).to_multiset() =~= s.to_multiset().insert(x));
        if ascends(s) {
            assert(ascends(front));
            let inner = placed(front, x);
            assert forall|i: int| 0 <= i < inner.len() implies inner[i] <= s.last() by {
                assert(inner.to_multiset().count(inner[i]) > 0);
                if inner[i] != x {
                    assert(front.to_multiset().count(inner[i]) > 0);
                    assert(front.contains(inner[i]));
                    let k = choose|k: int| 0 <= k < front.len() && front[k] == inner[i];
                    assert(s[k] <= s[s.len() - 1]);
                }
            }
        }
    }
}

/// The ascending order of `s` ascends and holds each item as often as `s`.
pub proof fn lemma_ascending_sorts(s: Seq<u32>)
    ensures
        ascends(ascending(s)),
        ascending(s).to_multiset() == s.to_multiset(),
        ascending(s).len() == s.len(),
    decreases s.len(),
{
    broadcast use vstd::seq_lib::group_to_multiset_ensures;

    if s.len() == 0 {
    } else {
        lemma_ascending_sorts(s.drop_last());
        lemma_placed_keeps(ascending(s.drop_last()), s.last());
        assert(s =~= s.drop_last().push(s.last()));
        assert(ascending(s).to_multiset() =~= s.to_multiset());
    }
}

/// Two lists that hold the same seasons equally often have the same
/// ascending order, however each of them is arranged.
pub proof fn lemma_ascending_ignores_order(a: Seq<u32>, b: Seq<u32>)
    requires
        a.to_multiset() == b.to_multiset(),
    ensures
        ascending(a) == ascending(b),
{
    let leq = |x: u32, y: u32| x <= y;
    lemma_ascending_sorts(a);
    lemma_ascending_sorts(b);
    assert(vstd::relations::sorted_by(ascending(a), leq)) by {
        assert forall|i: int, j: int| 0 <= i < j < ascending(a).len() implies #[trigger] leq(
            ascending(a)[i],
            ascending(a)[j],
        ) by {}
    }
    assert(vstd::relations::sorted_by(ascending(b), leq)) by {
        assert forall|i: int, j: int| 0 <= i < j < ascending(b).len() implies #[trigger] leq(
            ascending(b)[i],
            ascending(b)[j],
        ) by {}
    }
    assert(vstd::relations::total_ordering(leq));
    vstd::seq_lib::lemma_sorted_unique(ascending(a), ascending(b), leq);
}

/// Sorts season numbers into ascending order.
pub fn sort_seasons(seasons: &Vec<u32>) -> (out: Vec<u32>)
    ensures
        out@ == ascending(seasons@),
        ascends(out@),
        out@.to_multiset() == seasons@.to_multiset(),
{
    let mut out: Vec<u32> = Vec::new();
    let mut i: usize = 0;
    while i < seasons.len()
        invariant
            i <= seasons.len(),
            out@ == ascending(seasons@.take(i as int)),
            out.len() == i,
        decreases seasons.len() - i,
    {
        let x = seasons[i];
        let mut p: usize = out.len();
        while p > 0 && out[p - 1] > x
            invariant
                p <= out.len(),
                forall|j: int| p <= j < out.len() ==> out[j] > x,
            decreases p,
        {
            p -= 1;
        }
        proof {
            lemma_placed_at(out@, x, p as int);
            assert(seasons@.take(i + 1).drop_last() =~= seasons@.take(i as int));
        }
        out.insert(p, x);
        i += 1;
    }
    proof {
        assert(seasons@.take(seasons.len() as int) =~= seasons@);
        lemma_ascending_sorts(seasons@);
    }
    out
}

/// Whether two lists of season numbers are the same.
pub fn same_seasons(x: &Vec<u32>, y: &Vec<u32>) -> (same: bool)
    ensures
        same == (x@ == y@),
{
    if x.len() != y.len() {
        return false;
    }
    let mut i: usize = 0;
    while i < x.len()
        invariant
            i <= x.len(),
            x.len() == y.len(),
            x@.take(i as int) == y@.take(i as int),
        decreases x.len() - i,
    {
        if x[i] != y[i] {
            return false;
        }
        proof {
            assert(x@.take(i + 1) =~= x@.take(i as int).push(x@[i as int]));
            assert(y@.take(i + 1) =~= y@.take(i as int).push(y@[i as int]));
        }
        i += 1;
    }
    proof {
        assert(x@.take(x.len() as int) =~= x@);
        assert(y@.take(y.len() as int) =~= y@);
    }
    true
}

/// What makes two submissions the same request: the canonical title, the
/// kind, and for episodic kinds the seasons asked for, in ascending order.
#[derive(Debug)]
pub struct DedupKey {
    pub title: Vec<char>,
    pub kind: MediaKind,
    pub seasons: Vec<u32>,
}

/// A key as a mathematical value.
pub struct DedupKeyView {
    pub title: Seq<char>,
    pub kind: MediaKind,
    pub seasons: Seq<u32>,
}

impl View for DedupKey {
    type V = DedupKeyView;

    open spec fn view(&self) -> DedupKeyView {
        DedupKeyView { title: self.title@, kind: self.kind, seasons: self.seasons@ }
    }
}

/// The key of a submission. Seasons count only for episodic kinds, and
/// neither their order nor the spelling of the title's case and spacing does.
pub open spec fn key_of(query: Seq<char>, kind: MediaKind, seasons: Seq<u32>) -> DedupKeyView {
    DedupKeyView {
        title: canonical_title(query),
        kind,
        seasons: if kind.episodic() {
            ascending(seasons)
        } else {
            Seq::empty()
        },
    }
}

/// The key of a submission does not change when its title is written with
/// other capitals or other gaps between the same words, nor, for an episodic
/// kind, when its seasons are listed in another order.
pub proof fn lemma_key_ignores_spelling_and_order(
    query: Seq<char>,
    other_query: Seq<char>,
    kind: MediaKind,
    seasons: Seq<u32>,
    other_seasons: Seq<u32>,
)
    requires
        canonical_title(query) == canonical_title(other_query),
        seasons.to_multiset() == other_seasons.to_multiset(),
    ensures
        key_of(query, kind, seasons) == key_of(other_query, kind, other_seasons),
{
    lemma_ascending_ignores_order(seasons, other_seasons);
}

impl DedupKey {
    /// Computes the key of a submission.
    pub fn of(query: &str, kind: MediaKind, seasons: &Vec<u32>) -> (key: DedupKey)
        ensures
            key@ == key_of(query@, kind, seasons@),
    {
        let title = normalize_title(query);
        let seasons = if kind.is_episodic() {
            sort_seasons(seasons)
        } else {
            Vec::new()
        };
        DedupKey { title, kind, seasons }
    }

    /// Whether two keys are the same.
    pub fn matches(&self, other: &DedupKey) -> (same: bool)
        ensures
            same == (self@ == other@),
    {
        self.kind == other.kind && same_chars(&self.title, &other.title) && same_seasons(
            &self.seasons,
            &other.seasons,
        )
    }
}

} // verus!
