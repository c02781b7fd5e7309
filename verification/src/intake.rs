use crate::model::{kind_named, quality_named, MediaKind, Quality};
use crate::store::{Draft, DraftView};
use crate::text::{canonical_title, normalize_title};
use vstd::prelude::*;

verus! {

/// A submission as it arrives, before anything is known to be right.
#[derive(Debug)]
pub struct RawRequest {
    pub query: String,
    pub media_kind: String,
    pub seasons: Option<Vec<u32>>,
    pub quality: String,
    pub external_id: Option<u64>,
}

/// A raw submission as a mathematical value.
pub struct RawRequestView {
    pub query: Seq<char>,
    pub media_kind: Seq<char>,
    pub seasons: Option<Seq<u32>>,
    pub quality: Seq<char>,
    pub external_id: Option<u64>,
}

impl View for RawRequest {
    type V = RawRequestView;

    open spec fn view(&self) -> RawRequestView {
        RawRequestView {
            query: self.query@,
            media_kind: self.media_kind@,
            seasons: match self.seasons {
                Some(s) => Some(s@),
                None => None,
            },
            quality: self.quality@,
            external_id: self.external_id,
        }
    }
}

/// What is wrong with a submission.
#[derive(Clone, Copy, Debug, PartialEq, Eq, Structural)]
pub enum ValidationError {
    /// The query holds no word.
    EmptyQuery,
    /// The media kind is none of the four.
    UnknownKind,
    /// An episodic kind without a season.
    MissingSeasons,
    /// The quality is no known profile.
    UnknownQuality,
}

/// The draft that a raw submission stands for, or the first thing wrong with
/// it, looked for in this order: the query, the kind, the seasons, the
/// quality. Seasons given for a kind that has none are dropped.
pub open spec fn validated(raw: RawRequestView) -> Result<DraftView, ValidationError> {
    let seasons = raw.seasons.unwrap_or(Seq::empty());
    if canonical_title(raw.query).len() == 0 {
        Err(ValidationError::EmptyQuery)
    } else if kind_named(raw.media_kind) is None {
        Err(ValidationError::UnknownKind)
    } else if kind_named(raw.media_kind)->0.episodic() && seasons.len() == 0 {
        Err(ValidationError::MissingSeasons)
    } else if quality_named(raw.quality) is None {
        Err(ValidationError::UnknownQuality)
    } else {
        Ok(
            DraftView {
                query: raw.query,
                kind: kind_named(raw.media_kind)->0,
                external_id: raw.external_id,
                seasons: if kind_named(raw.media_kind)->0.episodic() {
                    seasons
                } else {
                    Seq::empty()
                },
                quality: quality_named(raw.quality)->0,
            },
        )
    }
}

/// Checks a raw submission and turns it into a draft.
pub fn validate(raw: &RawRequest) -> (checked: Result<Draft, ValidationError>)
    ensures
        match checked {
            Ok(draft) => validated(raw@) == Ok::<DraftView, ValidationError>(draft@),
            Err(e) => validated(raw@) == Err::<DraftView, ValidationError>(e),
        },
{
    let title = normalize_title(raw.query.as_str());
    if title.len() == 0 {
        return Err(ValidationError::EmptyQuery);
    }
    let kind = match MediaKind::parse(raw.media_kind.as_str()) {
        Some(kind) => kind,
        None => {
            return Err(ValidationError::UnknownKind);
        },
    };
    let seasons: Vec<u32> = if kind.is_episodic() {
        match &raw.seasons {
            Some(s) => {
                let copy = s.clone();
                assert(copy@ =~= s@);
                copy
            },
            None => Vec::new(),
        }
    } else {
        Vec::new()
    };
    if kind.is_episodic() && seasons.len() == 0 {
        return Err(ValidationError::MissingSeasons);
    }
    let quality = match Quality::parse(raw.quality.as_str()) {
        Some(quality) => quality,
        None => {
            return Err(ValidationError::UnknownQuality);
        },
    };
    Ok(Draft { query: raw.query.clone(), kind, external_id: raw.external_id, seasons, quality })
}

/// A draft that passed validation has a title, and its seasons fit its kind.
pub proof fn lemma_validated_fits(raw: RawRequestView)
    requires
        validated(raw) is Ok,
    ensures
        canonical_title(validated(raw)->Ok_0.query).len() > 0,
        validated(raw)->Ok_0.stored(0, 0).seasons_fit_kind(),
{
}

} // verus!
