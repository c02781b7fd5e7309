use crate::text::same_text;
use vstd::prelude::*;

verus! {

/// What kind of title a request asks for.
#[derive(Clone, Copy, Debug, PartialEq, Eq, Hash, Structural)]
pub enum MediaKind {
    Movie,
    TvShow,
    AnimeMovie,
    AnimeTv,
}

/// The kind that a name stands for, if it names one.
pub open spec fn kind_named(name: Seq<char>) -> Option<MediaKind> {
    if name == "Movie"@ {
        Some(MediaKind::Movie)
    } else if name == "TvShow"@ {
        Some(MediaKind::TvShow)
    } else if name == "AnimeMovie"@ {
        Some(MediaKind::AnimeMovie)
    } else if name == "AnimeTv"@ {
        Some(MediaKind::AnimeTv)
    } else {
        None
    }
}

/// The name of a kind: that of its variant.
pub open spec fn kind_name(kind: MediaKind) -> Seq<char> {
    match kind {
        MediaKind::Movie => "Movie"@,
        MediaKind::TvShow => "TvShow"@,
        MediaKind::AnimeMovie => "AnimeMovie"@,
        MediaKind::AnimeTv => "AnimeTv"@,
    }
}

/// The part of the catalog under which titles of a kind are found: films
/// under `movie`, series under `tv`.
pub open spec fn catalog_section(kind: MediaKind) -> Seq<char> {
    if kind.episodic() {
        "tv"@
    } else {
        "movie"@
    }
}

/// Every kind is read back from its name.
pub proof fn lemma_kind_names_round_trip(kind: MediaKind)
    ensures
        kind_named(kind_name(kind)) == Some(kind),
{
    reveal_strlit("Movie");
    reveal_strlit("TvShow");
    reveal_strlit("AnimeMovie");
    reveal_strlit("AnimeTv");
    assert("Movie"@.len() == 5 && "TvShow"@.len() == 6 && "AnimeMovie"@.len() == 10 && "AnimeTv"@.len()
        == 7);
}

impl MediaKind {
    /// The name of the kind.
    pub fn name(&self) -> (name: &'static str)
        ensures
            name@ == kind_name(*self),
    {
        match self {
            MediaKind::Movie => "Movie",
            MediaKind::TvShow => "TvShow",
            MediaKind::AnimeMovie => "AnimeMovie",
            MediaKind::AnimeTv => "AnimeTv",
        }
    }

    /// The part of the catalog under which titles of this kind are found.
    pub fn section(&self) -> (section: &'static str)
        ensures
            section@ == catalog_section(*self),
    {
        match self {
            MediaKind::TvShow | MediaKind::AnimeTv => "tv",
            MediaKind::Movie | MediaKind::AnimeMovie => "movie",
        }
    }

    /// Kinds that come in seasons.
    pub open spec fn episodic(self) -> bool {
        self == MediaKind::TvShow || self == MediaKind::AnimeTv
    }

    /// Whether titles of this kind come in seasons.
    pub fn is_episodic(&self) -> (b: bool)
        ensures
            b == self.episodic(),
    {
        match self {
            MediaKind::TvShow | MediaKind::AnimeTv => true,
            MediaKind::Movie | MediaKind::AnimeMovie => false,
        }
    }

    /// Reads a kind from its name; the names are those of the variants.
    pub fn parse(name: &str) -> (kind: Option<MediaKind>)
        ensures
            kind == kind_named(name@),
    {
        if same_text(name, "Movie") {
            Some(MediaKind::Movie)
        } else if same_text(name, "TvShow") {
            Some(MediaKind::TvShow)
        } else if same_text(name, "AnimeMovie") {
            Some(MediaKind::AnimeMovie)
        } else if same_text(name, "AnimeTv") {
            Some(MediaKind::AnimeTv)
        } else {
            None
        }
    }
}

/// The quality profile that a request asks for.
#[derive(Clone, Copy, Debug, PartialEq, Eq, Hash, Structural)]
pub enum Quality {
    Sd480,
    Hd720,
    Hd1080,
    Uhd2160,
}

/// The profile that a label stands for, if it names one.
pub open spec fn quality_named(label: Seq<char>) -> Option<Quality> {
    if label == "480p"@ {
        Some(Quality::Sd480)
    } else if label == "720p"@ {
        Some(Quality::Hd720)
    } else if label == "1080p"@ {
        Some(Quality::Hd1080)
    } else if label == "2160p"@ {
        Some(Quality::Uhd2160)
    } else {
        None
    }
}

/// The label of a profile.
pub open spec fn quality_label(quality: Quality) -> Seq<char> {
    match quality {
        Quality::Sd480 => "480p"@,
        Quality::Hd720 => "720p"@,
        Quality::Hd1080 => "1080p"@,
        Quality::Uhd2160 => "2160p"@,
    }
}

/// Every profile is read back from its label.
pub proof fn lemma_quality_labels_round_trip(quality: Quality)
    ensures
        quality_named(quality_label(quality)) == Some(quality),
{
    reveal_strlit("480p");
    reveal_strlit("720p");
    reveal_strlit("1080p");
    reveal_strlit("2160p");
    assert("480p"@[0] == '4' && "720p"@[0] == '7' && "1080p"@[0] == '1' && "2160p"@[0] == '2');
}

impl Quality {
    /// The label of the profile.
    pub fn label(&self) -> (label: &'static str)
        ensures
            label@ == quality_label(*self),
    {
        match self {
            Quality::Sd480 => "480p",
            Quality::Hd720 => "720p",
            Quality::Hd1080 => "1080p",
            Quality::Uhd2160 => "2160p",
        }
    }

    /// Reads a profile from its label: `480p`, `720p`, `1080p` or `2160p`.
    pub fn parse(label: &str) -> (quality: Option<Quality>)
        ensures
            quality == quality_named(label@),
    {
        if same_text(label, "480p") {
            Some(Quality::Sd480)
        } else if same_text(label, "720p") {
            Some(Quality::Hd720)
        } else if same_text(label, "1080p") {
            Some(Quality::Hd1080)
        } else if same_text(label, "2160p") {
            Some(Quality::Uhd2160)
        } else {
            None
        }
    }
}

/// Where a request stands in its lifecycle.
#[derive(Clone, Copy, Debug, PartialEq, Eq, Hash, Structural)]
pub enum RequestState {
    Submitted,
    Enriching,
    Deduplicated,
    AlreadyAvailable,
    Pending,
    Failed,
}

/// The name of a state: that of its variant.
pub open spec fn state_name(state: RequestState) -> Seq<char> {
    match state {
        RequestState::Submitted => "Submitted"@,
        RequestState::Enriching => "Enriching"@,
        RequestState::Deduplicated => "Deduplicated"@,
        RequestState::AlreadyAvailable => "AlreadyAvailable"@,
        RequestState::Pending => "Pending"@,
        RequestState::Failed => "Failed"@,
    }
}

impl RequestState {
    /// The name of the state.
    pub fn name(&self) -> (name: &'static str)
        ensures
            name@ == state_name(*self),
    {
        match self {
            RequestState::Submitted => "Submitted",
            RequestState::Enriching => "Enriching",
            RequestState::Deduplicated => "Deduplicated",
            RequestState::AlreadyAvailable => "AlreadyAvailable",
            RequestState::Pending => "Pending",
            RequestState::Failed => "Failed",
        }
    }

    /// States that a request never leaves.
    pub open spec fn terminal(self) -> bool {
        self == RequestState::Deduplicated || self == RequestState::AlreadyAvailable || self
            == RequestState::Failed
    }

    /// The steps of the lifecycle: a new request starts enriching; enrichment
    /// ends in one of the four outcomes; a pending request becomes available
    /// once the library holds its title.
    pub open spec fn may_become(self, next: RequestState) -> bool {
        match self {
            RequestState::Submitted => next == RequestState::Enriching,
            RequestState::Enriching => next == RequestState::Deduplicated || next
                == RequestState::AlreadyAvailable || next == RequestState::Pending || next
                == RequestState::Failed,
            RequestState::Pending => next == RequestState::AlreadyAvailable,
            _ => false,
        }
    }

    /// Whether a request in this state never leaves it.
    pub fn is_terminal(&self) -> (b: bool)
        ensures
            b == self.terminal(),
    {
        match self {
            RequestState::Deduplicated | RequestState::AlreadyAvailable | RequestState::Failed => true,
            _ => false,
        }
    }

    /// Whether the lifecycle has a step from this state to `next`.
    pub fn can_become(&self, next: RequestState) -> (b: bool)
        ensures
            b == self.may_become(next),
    {
        match self {
            RequestState::Submitted => next == RequestState::Enriching,
            RequestState::Enriching => next == RequestState::Deduplicated || next
                == RequestState::AlreadyAvailable || next == RequestState::Pending || next
                == RequestState::Failed,
            RequestState::Pending => next == RequestState::AlreadyAvailable,
            _ => false,
        }
    }
}

/// No step leaves a terminal state, and no step leads back to where it began.
pub proof fn lemma_lifecycle_is_acyclic(a: RequestState, b: RequestState)
    requires
        a.may_become(b),
    ensures
        !a.terminal(),
        a != b,
        !b.may_become(a),
        b != RequestState::Submitted,
{
}

} // verus!
