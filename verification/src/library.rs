use std::collections::HashSet;
use vstd::prelude::*;

verus! {

broadcast use vstd::std_specs::hash::group_hash_axioms;

/// Why the library could not be scanned.
#[derive(Clone, Copy, Debug, PartialEq, Eq, Structural)]
pub enum RefreshError {
    /// The library's source did not answer.
    Unreachable,
}

/// What the index knows of one title.
#[derive(Clone, Copy, Debug, PartialEq, Eq, Structural)]
pub struct LibraryPresence {
    pub external_id: u64,
    pub available: bool,
    pub checked_at: u64,
}

/// The index as a mathematical value.
pub struct LibraryView {
    /// The catalog ids of the titles that the last good scan found.
    pub present: Set<u64>,
    /// When the last good scan was taken in.
    pub checked_at: u64,
    /// Whether a scan has failed since then.
    pub stale: bool,
}

impl LibraryView {
    /// The index before any scan: it holds no title.
    pub open spec fn empty() -> LibraryView {
        LibraryView { present: Set::empty(), checked_at: 0, stale: false }
    }
}

/// The titles that the local library holds, as of the last good scan.
pub struct LibraryIndex {
    present: HashSet<u64>,
    checked_at: u64,
    stale: bool,
}

impl View for LibraryIndex {
    type V = LibraryView;

    closed spec fn view(&self) -> LibraryView {
        LibraryView { present: self.present@, checked_at: self.checked_at, stale: self.stale }
    }
}

/// The ids of a scan as a set.
pub fn collect_ids(ids: &Vec<u64>) -> (set: HashSet<u64>)
    ensures
        set@ == ids@.to_set(),
{
    let mut set: HashSet<u64> = HashSet::new();
    let mut i: usize = 0;
    while i < ids.len()
        invariant
            i <= ids.len(),
            set@ == ids@.take(i as int).to_set(),
        decreases ids.len() - i,
    {
        set.insert(ids[i]);
        proof {
            let before = ids@.take(i as int);
            let after = ids@.take(i + 1);
            assert(after =~= before.push(ids@[i as int]));
            assert forall|x: u64| after.to_set().contains(x) <==> before.to_set().insert(
                ids@[i as int],
            ).contains(x) by {
                if before.contains(x) {
                    let k = choose|k: int| 0 <= k < before.len() && before[k] == x;
                    assert(after[k] == x);
                }
                if x == ids@[i as int] {
                    assert(after[i as int] == x);
                }
            }
            assert(after.to_set() =~= before.to_set().insert(ids@[i as int]));
        }
        i += 1;
    }
    proof {
        assert(ids@.take(ids.len() as int) =~= ids@);
    }
    set
}

impl LibraryIndex {
    /// An index that has seen no scan yet: it holds no title.
    pub fn new() -> (index: LibraryIndex)
        ensures
            index@ == LibraryView::empty(),
    {
        LibraryIndex { present: HashSet::new(), checked_at: 0, stale: false }
    }

    /// Whether the library held the title at the last good scan.
    pub fn is_present(&self, external_id: u64) -> (present: bool)
        ensures
            present == self@.present.contains(external_id),
    {
        self.present.contains(&external_id)
    }

    /// What the index knows of the title.
    pub fn presence(&self, external_id: u64) -> (known: LibraryPresence)
        ensures
            known == (LibraryPresence {
                external_id,
                available: self@.present.contains(external_id),
                checked_at: self@.checked_at,
            }),
    {
        LibraryPresence {
            external_id,
            available: self.present.contains(&external_id),
            checked_at: self.checked_at,
        }
    }

    /// When the last good scan was taken in.
    pub fn checked_at(&self) -> (at: u64)
        ensures
            at == self@.checked_at,
    {
        self.checked_at
    }

    /// Whether a scan has failed since the last good one.
    pub fn is_stale(&self) -> (stale: bool)
        ensures
            stale == self@.stale,
    {
        self.stale
    }

    /// Takes in the outcome of a scan of the library. A good scan replaces
    /// what the index holds, all at once: afterwards exactly the scanned ids
    /// are present. A failed scan leaves the titles as they were and marks
    /// the index as stale.
    pub fn refresh(&mut self, scan: Result<Vec<u64>, RefreshError>, now: u64) -> (done: Result<
        (),
        RefreshError,
    >)
        ensures
            match scan {
                Ok(ids) => done is Ok && final(self)@ == (LibraryView {
                    present: ids@.to_set(),
                    checked_at: now,
                    stale: false,
                }) && forall|id: u64| final(self)@.present.contains(id) <==> ids@.contains(id),
                Err(e) => done == Err::<(), RefreshError>(e) && final(self)@ == (LibraryView {
                    stale: true,
                    ..old(self)@
                }),
            },
    {
        match scan {
            Ok(ids) => {
                let set = collect_ids(&ids);
                self.present = set;
                self.checked_at = now;
                self.stale = false;
                Ok(())
            },
            Err(e) => {
                self.stale = true;
                Err(e)
            },
        }
    }
}

} // verus!
