use vstd::prelude::*;

verus! {

/// Why a feed document could not be turned into podcast data.
#[derive(Debug, Clone, PartialEq, Eq)]
pub enum FeedError {
    /// An `item` element closed without an enclosure `url` attribute.
    MissingEnclosureUrl,
    /// An `item` element closed without any title text.
    MissingTitle,
    /// An `item` element closed without any `pubDate` text.
    MissingPubDate,
    /// The accumulated `pubDate` text is not a recognized date; carries that text.
    BadPubDate(String),
    /// The feed endpoint answered with a non-success status; carries the feed
    /// URL and the status code. Produced by the fetching layer, never by the
    /// parser itself.
    Transport { url: String, status: u16 },
}

/// Spec-level image of a [`FeedError`].
pub ghost enum FeedErrorView {
    MissingEnclosureUrl,
    MissingTitle,
    MissingPubDate,
    BadPubDate(Seq<char>),
    Transport { url: Seq<char>, status: u16 },
}

impl View for FeedError {
    type V = FeedErrorView;

    open spec fn view(&self) -> FeedErrorView {
        match self {
            FeedError::MissingEnclosureUrl => FeedErrorView::MissingEnclosureUrl,
            FeedError::MissingTitle => FeedErrorView::MissingTitle,
            FeedError::MissingPubDate => FeedErrorView::MissingPubDate,
            FeedError::BadPubDate(s) => FeedErrorView::BadPubDate(s@),
            FeedError::Transport { url, status } => FeedErrorView::Transport {
                url: url@,
                status: *status,
            },
        }
    }
}

/// Why an episode could not be downloaded.
#[derive(Debug, Clone, PartialEq, Eq)]
pub enum DownloadError {
    /// The episode's media URL holds no path separator, so no file name can
    /// be derived from it; carries that URL.
    MalformedUrl(String),
}

/// Spec-level image of a [`DownloadError`].
pub ghost enum DownloadErrorView {
    MalformedUrl(Seq<char>),
}

impl View for DownloadError {
    type V = DownloadErrorView;

    open spec fn view(&self) -> DownloadErrorView {
        match self {
            DownloadError::MalformedUrl(s) => DownloadErrorView::MalformedUrl(s@),
        }
    }
}

/// Why a persisted store document could not be decoded.
#[derive(Debug, Clone, Copy, PartialEq, Eq, Structural)]
pub enum DecodeError {
    /// The bytes do not begin with a well-formed store document.
    Malformed,
}

} // verus!
