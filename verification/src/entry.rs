use crate::model::MediaKind;
use vstd::prelude::*;

verus! {

/// Why a lookup in the catalog gave no entry.
#[derive(Clone, Copy, Debug, PartialEq, Eq, Structural)]
pub enum LookupError {
    /// The catalog refused the request or answered with something that is no
    /// entry. Asking again would not help.
    Invalid,
    /// The catalog kept failing for as long as the retries lasted.
    Unavailable,
}

/// What the catalog says of one title, in the one shape that the rest of the
/// library reads. Ratings are in thousandths.
#[derive(Debug)]
pub struct CatalogEntry {
    pub external_id: u64,
    pub kind: MediaKind,
    pub title: String,
    pub overview: String,
    pub release_date: String,
    pub popularity_milli: u64,
    pub vote_average_milli: u32,
    pub vote_count: u64,
    pub genres: Vec<u32>,
    pub poster_path: String,
}

/// An entry as a mathematical value.
pub struct CatalogEntryView {
    pub external_id: u64,
    pub kind: MediaKind,
    pub title: Seq<char>,
    pub overview: Seq<char>,
    pub release_date: Seq<char>,
    pub popularity_milli: u64,
    pub vote_average_milli: u32,
    pub vote_count: u64,
    pub genres: Seq<u32>,
    pub poster_path: Seq<char>,
}

impl View for CatalogEntry {
    type V = CatalogEntryView;

    open spec fn view(&self) -> CatalogEntryView {
        CatalogEntryView {
            external_id: self.external_id,
            kind: self.kind,
            title: self.title@,
            overview: self.overview@,
            release_date: self.release_date@,
            popularity_milli: self.popularity_milli,
            vote_average_milli: self.vote_average_milli,
            vote_count: self.vote_count,
            genres: self.genres@,
            poster_path: self.poster_path@,
        }
    }
}

impl CatalogEntry {
    /// A copy of the entry.
    pub fn duplicate(&self) -> (copy: CatalogEntry)
        ensures
            copy@ == self@,
    {
        let genres = self.genres.clone();
        assert(genres@ =~= self.genres@);
        CatalogEntry {
            external_id: self.external_id,
            kind: self.kind,
            title: self.title.clone(),
            overview: self.overview.clone(),
            release_date: self.release_date.clone(),
            popularity_milli: self.popularity_milli,
            vote_average_milli: self.vote_average_milli,
            vote_count: self.vote_count,
            genres,
            poster_path: self.poster_path.clone(),
        }
    }
}

/// One result as the catalog sends it. Films carry `title` and
/// `release_date`, series carry `name` and `first_air_date`; any field may be
/// missing.
#[derive(Debug)]
pub struct UpstreamRecord {
    pub id: Option<u64>,
    pub title: Option<String>,
    pub name: Option<String>,
    pub overview: Option<String>,
    pub release_date: Option<String>,
    pub first_air_date: Option<String>,
    pub popularity_milli: Option<u64>,
    pub vote_average_milli: Option<u32>,
    pub vote_count: Option<u64>,
    pub genre_ids: Option<Vec<u32>>,
    pub poster_path: Option<String>,
}

/// A result as a mathematical value.
pub struct UpstreamRecordView {
    pub id: Option<u64>,
    pub title: Option<Seq<char>>,
    pub name: Option<Seq<char>>,
    pub overview: Option<Seq<char>>,
    pub release_date: Option<Seq<char>>,
    pub first_air_date: Option<Seq<char>>,
    pub popularity_milli: Option<u64>,
    pub vote_average_milli: Option<u32>,
    pub vote_count: Option<u64>,
    pub genre_ids: Option<Seq<u32>>,
    pub poster_path: Option<Seq<char>>,
}

/// The characters of a text that may be missing.
pub open spec fn text_view(text: Option<String>) -> Option<Seq<char>> {
    match text {
        Some(s) => Some(s@),
        None => None,
    }
}

impl View for UpstreamRecord {
    type V = UpstreamRecordView;

    open spec fn view(&self) -> UpstreamRecordView {
        UpstreamRecordView {
            id: self.id,
            title: text_view(self.title),
            name: text_view(self.name),
            overview: text_view(self.overview),
            release_date: text_view(self.release_date),
            first_air_date: text_view(self.first_air_date),
            popularity_milli: self.popularity_milli,
            vote_average_milli: self.vote_average_milli,
            vote_count: self.vote_count,
            genre_ids: match self.genre_ids {
                Some(g) => Some(g@),
                None => None,
            },
            poster_path: text_view(self.poster_path),
        }
    }
}

/// The first of two optional values that is there.
pub open spec fn first_of(a: Option<Seq<char>>, b: Option<Seq<char>>) -> Option<Seq<char>> {
    if a is Some {
        a
    } else {
        b
    }
}

/// The items of `s` without repetitions, each where it first occurs.
pub open spec fn distinct(s: Seq<u32>) -> Seq<u32>
    decreases s.len(),
{
    if s.len() == 0 {
        Seq::empty()
    } else {
        let before = distinct(s.drop_last());
        if before.contains(s.last()) {
            before
        } else {
            before.push(s.last())
        }
    }
}

/// `distinct(s)` holds the items of `s`, each of them once.
pub proof fn lemma_distinct(s: Seq<u32>)
    ensures
        distinct(s).no_duplicates(),
        forall|x: u32| distinct(s).contains(x) <==> s.contains(x),
    decreases s.len(),
{
    if s.len() > 0 {
        let front = s.drop_last();
        lemma_distinct(front);
        let before = distinct(front);
        assert forall|x: u32| distinct(s).contains(x) <==> s.contains(x) by {
            if s.contains(x) {
                let k = choose|k: int| 0 <= k < s.len() && s[k] == x;
                if k < front.len() {
                    assert(front[k] == x);
                    assert(front.contains(x));
                    assert(before.contains(x));
                    let m = choose|m: int| 0 <= m < before.len() && before[m] == x;
                    assert(distinct(s)[m] == x);
                } else if !before.contains(x) {
                    assert(distinct(s)[before.len() as int] == x);
                }
            }
            if distinct(s).contains(x) {
                let m = choose|m: int| 0 <= m < distinct(s).len() && distinct(s)[m] == x;
                if m < before.len() {
                    assert(before[m] == x);
                    assert(front.contains(x));
                    let k = choose|k: int| 0 <= k < front.len() && front[k] == x;
                    assert(s[k] == x);
                } else {
                    assert(s[s.len() - 1] == x);
                }
            }
        }
    }
}

/// The entry that a result stands for, read as a title of kind `kind`. The
/// id and a title are required. Films take `title` and `release_date` first,
/// series `name` and `first_air_date`, and either falls back on the other.
/// Whatever else is missing becomes empty or zero.
pub open spec fn normalized(record: UpstreamRecordView, kind: MediaKind) -> Result<
    CatalogEntryView,
    LookupError,
> {
    let title = if kind.episodic() {
        first_of(record.name, record.title)
    } else {
        first_of(record.title, record.name)
    };
    let date = if kind.episodic() {
        first_of(record.first_air_date, record.release_date)
    } else {
        first_of(record.release_date, record.first_air_date)
    };
    if record.id is None || title is None {
        Err(LookupError::Invalid)
    } else {
        Ok(
            CatalogEntryView {
                external_id: record.id->0,
                kind,
                title: title->0,
                overview: record.overview.unwrap_or(Seq::empty()),
                release_date: date.unwrap_or(Seq::empty()),
                popularity_milli: record.popularity_milli.unwrap_or(0),
                vote_average_milli: record.vote_average_milli.unwrap_or(0),
                vote_count: record.vote_count.unwrap_or(0),
                genres: distinct(record.genre_ids.unwrap_or(Seq::empty())),
                poster_path: record.poster_path.unwrap_or(Seq::empty()),
            },
        )
    }
}

/// The entry that the first result of a page stands for. A page without
/// results gives no entry.
pub open spec fn first_normalized(page: Seq<UpstreamRecordView>, kind: MediaKind) -> Result<
    CatalogEntryView,
    LookupError,
> {
    if page.len() == 0 {
        Err(LookupError::Invalid)
    } else {
        normalized(page[0], kind)
    }
}

/// Whether `items` holds `x`.
pub fn holds_item(items: &Vec<u32>, x: u32) -> (found: bool)
    ensures
        found == items@.contains(x),
{
    let mut i: usize = 0;
    while i < items.len()
        invariant
            i <= items.len(),
            forall|j: int| 0 <= j < i ==> items@[j] != x,
        decreases items.len() - i,
    {
        if items[i] == x {
            return true;
        }
        i += 1;
    }
    false
}

/// Drops repeated genre ids, keeping each where it first occurs.
pub fn dedup_genres(ids: &Vec<u32>) -> (out: Vec<u32>)
    ensures
        out@ == distinct(ids@),
        out@.no_duplicates(),
        forall|x: u32| out@.contains(x) <==> ids@.contains(x),
{
    let mut out: Vec<u32> = Vec::new();
    let mut i: usize = 0;
    while i < ids.len()
        invariant
            i <= ids.len(),
            out@ == distinct(ids@.take(i as int)),
        decreases ids.len() - i,
    {
        proof {
            assert(ids@.take(i + 1).drop_last() =~= ids@.take(i as int));
        }
        if !holds_item(&out, ids[i]) {
            out.push(ids[i]);
        }
        i += 1;
    }
    proof {
        assert(ids@.take(ids.len() as int) =~= ids@);
        lemma_distinct(ids@);
    }
    out
}

/// A copy of a text, or the empty text where there is none.
fn text_or_empty(text: &Option<String>) -> (out: String)
    ensures
        out@ == text_view(*text).unwrap_or(Seq::empty()),
{
    match text {
        Some(s) => s.clone(),
        None => String::new(),
    }
}

/// A copy of the first of two texts that is there.
fn first_text(a: &Option<String>, b: &Option<String>) -> (out: Option<String>)
    ensures
        text_view(out) == first_of(text_view(*a), text_view(*b)),
{
    match a {
        Some(s) => Some(s.clone()),
        None => match b {
            Some(s) => Some(s.clone()),
            None => None,
        },
    }
}

impl UpstreamRecord {
    /// Reads the result as an entry of kind `kind`. Fails with `Invalid`
    /// exactly when the id or both `title` and `name` are missing.
    pub fn normalize(&self, kind: MediaKind) -> (entry: Result<CatalogEntry, LookupError>)
        ensures
            match entry {
                Ok(e) => normalized(self@, kind) == Ok::<CatalogEntryView, LookupError>(e@),
                Err(e) => normalized(self@, kind) == Err::<CatalogEntryView, LookupError>(e),
            },
    {
        let episodic = kind.is_episodic();
        let title = if episodic {
            first_text(&self.name, &self.title)
        } else {
            first_text(&self.title, &self.name)
        };
        let date = if episodic {
            first_text(&self.first_air_date, &self.release_date)
        } else {
            first_text(&self.release_date, &self.first_air_date)
        };
        let external_id = match self.id {
            Some(id) => id,
            None => {
                return Err(LookupError::Invalid);
            },
        };
        let title = match title {
            Some(t) => t,
            None => {
                return Err(LookupError::Invalid);
            },
        };
        let genres = match &self.genre_ids {
            Some(g) => dedup_genres(g),
            None => Vec::new(),
        };
        Ok(
            CatalogEntry {
                external_id,
                kind,
                title,
                overview: text_or_empty(&self.overview),
                release_date: text_or_empty(&date),
                popularity_milli: match self.popularity_milli {
                    Some(p) => p,
                    None => 0,
                },
                vote_average_milli: match self.vote_average_milli {
                    Some(v) => v,
                    None => 0,
                },
                vote_count: match self.vote_count {
                    Some(c) => c,
                    None => 0,
                },
                genres,
                poster_path: text_or_empty(&self.poster_path),
            },
        )
    }
}

/// Reads the first result of a page as an entry of kind `kind`.
pub fn normalize_first(page: &Vec<UpstreamRecord>, kind: MediaKind) -> (entry: Result<
    CatalogEntry,
    LookupError,
>)
    ensures
        match entry {
            Ok(e) => first_normalized(page@.map_values(|r: UpstreamRecord| r@), kind) == Ok::<
                CatalogEntryView,
                LookupError,
            >(e@),
            Err(e) => first_normalized(page@.map_values(|r: UpstreamRecord| r@), kind) == Err::<
                CatalogEntryView,
                LookupError,
            >(e),
        },
{
    if page.len() == 0 {
        Err(LookupError::Invalid)
    } else {
        page[0].normalize(kind)
    }
}

} // verus!
