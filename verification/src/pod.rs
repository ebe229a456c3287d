//! Podcasts and their episodes: the data model, the download-planning and
//! dedup policy, the file-name rule, and the plain-text listings.

use vstd::prelude::*;
use vstd::string::{StringExecFns, StrSliceExecFns};
use crate::date::{Date, spec_format_minute, format_minute};
use crate::errors::{DownloadError, DownloadErrorView};
use crate::text::spec_basename;

verus! {

/// Whether an episode's media has been fetched. A fetch timestamp and a
/// stored file name exist only together: there is no partially-downloaded
/// state.
#[derive(Debug, Clone, PartialEq, Eq)]
pub enum DownloadState {
    NotDownloaded,
    Downloaded { at: Date, local_file_name: String },
}

/// Spec-level image of a [`DownloadState`].
pub ghost enum DownloadStateView {
    NotDownloaded,
    Downloaded { at: Date, local_file_name: Seq<char> },
}

impl View for DownloadState {
    type V = DownloadStateView;

    open spec fn view(&self) -> DownloadStateView {
        match self {
            DownloadState::NotDownloaded => DownloadStateView::NotDownloaded,
            DownloadState::Downloaded { at, local_file_name } => DownloadStateView::Downloaded {
                at: *at,
                local_file_name: local_file_name@,
            },
        }
    }
}

/// One entry of a feed: a named piece of media at a URL, published at a
/// known time, together with this archive's download record for it.
#[derive(Debug, Clone, PartialEq, Eq)]
pub struct Episode {
    title: String,
    url: String,
    pub_date: Date,
    state: DownloadState,
    listened: Option<Date>,
}

/// Spec-level image of an [`Episode`].
pub ghost struct EpisodeView {
    pub title: Seq<char>,
    pub url: Seq<char>,
    pub pub_date: Date,
    pub state: DownloadStateView,
    pub listened: Option<Date>,
}

impl View for Episode {
    type V = EpisodeView;

    closed spec fn view(&self) -> EpisodeView {
        EpisodeView {
            title: self.title@,
            url: self.url@,
            pub_date: self.pub_date,
            state: self.state@,
            listened: self.listened,
        }
    }
}

/// The fetch completion time of an episode, absent until it was downloaded.
pub open spec fn spec_downloaded_at(e: EpisodeView) -> Option<Date> {
    match e.state {
        DownloadStateView::Downloaded { at, .. } => Some(at),
        DownloadStateView::NotDownloaded => None,
    }
}

/// The stored file name of an episode, absent until it was downloaded.
pub open spec fn spec_local_file_name(e: EpisodeView) -> Option<Seq<char>> {
    match e.state {
        DownloadStateView::Downloaded { local_file_name, .. } => Some(local_file_name),
        DownloadStateView::NotDownloaded => None,
    }
}

/// Law: an episode's download timestamp and its stored file name are present
/// together or absent together, whatever the episode holds.
pub proof fn lemma_download_pairing(e: EpisodeView)
    ensures
        spec_downloaded_at(e) is Some <==> spec_local_file_name(e) is Some,
{
}

/// The on-disk file name for an episode of the named podcast:
/// `{podcast title}_{publish date to the minute}_{final URL segment}`, or
/// `None` where the URL holds no `/`.
pub open spec fn spec_file_name(podcast_title: Seq<char>, d: Date, url: Seq<char>) -> Option<
    Seq<char>,
> {
    match spec_basename(url) {
        Some(b) => Some(podcast_title + seq!['_'] + spec_format_minute(d) + seq!['_'] + b),
        None => None,
    }
}

/// What one download attempt should do to an episode: nothing where it is
/// already downloaded, otherwise fetch to the computed file name, failing on
/// a URL with no `/`.
pub open spec fn spec_download_plan(e: EpisodeView, podcast_title: Seq<char>) -> Result<
    Option<Seq<char>>,
    DownloadErrorView,
> {
    if e.state is Downloaded {
        Ok(None)
    } else {
        match spec_file_name(podcast_title, e.pub_date, e.url) {
            Some(f) => Ok(Some(f)),
            None => Err(DownloadErrorView::MalformedUrl(e.url)),
        }
    }
}

/// Law: downloads deduplicate — on an episode whose download is recorded, a
/// further download plan asks for no transfer and succeeds.
pub proof fn lemma_download_dedup(e: EpisodeView, podcast_title: Seq<char>)
    requires
        e.state is Downloaded,
    ensures
        spec_download_plan(e, podcast_title) == Ok::<Option<Seq<char>>, DownloadErrorView>(None),
{
}

/// One line of an episode listing.
pub open spec fn spec_episode_line(e: EpisodeView) -> Seq<char> {
    "    "@ + e.title + "\n"@ + spec_format_minute(e.pub_date) + "\t"@ + spec_option_minute(
        spec_downloaded_at(e),
    ) + "\t"@ + spec_option_minute(e.listened) + "\n"@
}

/// An optional date to the minute; absent dates render as nothing.
pub open spec fn spec_option_minute(o: Option<Date>) -> Seq<char> {
    match o {
        Some(d) => spec_format_minute(d),
        None => Seq::<char>::empty(),
    }
}

impl Episode {
    /// A fresh, never-downloaded episode.
    pub fn new(title: &str, url: &str, pub_date: Date) -> (e: Episode)
        ensures
            e@ == (EpisodeView {
                title: title@,
                url: url@,
                pub_date: pub_date,
                state: DownloadStateView::NotDownloaded,
                listened: None,
            }),
    {
        Episode {
            title: title.to_owned(),
            url: url.to_owned(),
            pub_date,
            state: DownloadState::NotDownloaded,
            listened: None,
        }
    }

    /// An episode rebuilt from stored fields, exactly as given.
    pub fn from_parts(
        title: String,
        url: String,
        pub_date: Date,
        state: DownloadState,
        listened: Option<Date>,
    ) -> (e: Episode)
        ensures
            e@ == (EpisodeView {
                title: title@,
                url: url@,
                pub_date: pub_date,
                state: state@,
                listened: listened,
            }),
    {
        Episode { title, url, pub_date, state, listened }
    }

    pub fn title(&self) -> (r: &String)
        ensures
            r@ == self@.title,
    {
        &self.title
    }

    pub fn state(&self) -> (r: &DownloadState)
        ensures
            r@ == self@.state,
    {
        &self.state
    }

    pub fn url(&self) -> (r: &String)
        ensures
            r@ == self@.url,
    {
        &self.url
    }

    pub fn pub_date(&self) -> (r: Date)
        ensures
            r == self@.pub_date,
    {
        self.pub_date
    }

    pub fn listened(&self) -> (r: Option<Date>)
        ensures
            r == self@.listened,
    {
        self.listened
    }

    /// When this episode's media was fetched, if it was.
    pub fn downloaded(&self) -> (r: Option<Date>)
        ensures
            r == spec_downloaded_at(self@),
    {
        match &self.state {
            DownloadState::Downloaded { at, .. } => Some(*at),
            DownloadState::NotDownloaded => None,
        }
    }

    /// The file this episode was stored under, if it was downloaded.
    pub fn local_file_name(&self) -> (r: Option<String>)
        ensures
            match r {
                Some(f) => spec_local_file_name(self@) == Some(f@),
                None => spec_local_file_name(self@) is None,
            },
    {
        match &self.state {
            DownloadState::Downloaded { local_file_name, .. } => Some(local_file_name.clone()),
            DownloadState::NotDownloaded => None,
        }
    }

    /// The on-disk file name this episode takes under the named podcast, or
    /// the error for a URL with no `/`.
    pub fn file_name(&self, podcast_title: &str) -> (r: Result<String, DownloadError>)
        ensures
            match r {
                Ok(f) => spec_file_name(podcast_title@, self@.pub_date, self@.url) == Some(f@),
                Err(e) => spec_file_name(podcast_title@, self@.pub_date, self@.url) is None && e@
                    == DownloadErrorView::MalformedUrl(self@.url),
            },
    {
        match crate::text::basename(self.url.as_str()) {
            Some(b) => {
                let mut s = podcast_title.to_owned();
                s.push('_');
                let dm = format_minute(&self.pub_date);
                s.append(dm.as_str());
                s.push('_');
                s.append(b.as_str());
                proof {
                    assert(s@ =~= podcast_title@ + seq!['_'] + spec_format_minute(self@.pub_date)
                        + seq!['_'] + b@);
                }
                Ok(s)
            },
            None => Err(DownloadError::MalformedUrl(self.url.clone())),
        }
    }

    /// Decides one download attempt: `Ok(None)` where the episode is already
    /// downloaded (nothing to transfer), `Ok(Some(file_name))` where its
    /// media must be fetched and stored under `file_name`, and an error where
    /// no file name can be derived from its URL. The transfer itself is the
    /// caller's; a successful one is recorded with [`Episode::record_download`].
    pub fn download_plan(&self, podcast_title: &str) -> (r: Result<Option<String>, DownloadError>)
        ensures
            match r {
                Ok(None) => spec_download_plan(self@, podcast_title@) == Ok::<
                    Option<Seq<char>>,
                    DownloadErrorView,
                >(None),
                Ok(Some(f)) => spec_download_plan(self@, podcast_title@) == Ok::<
                    Option<Seq<char>>,
                    DownloadErrorView,
                >(Some(f@)),
                Err(e) => spec_download_plan(self@, podcast_title@) == Err::<
                    Option<Seq<char>>,
                    DownloadErrorView,
                >(e@),
            },
    {
        match &self.state {
            DownloadState::Downloaded { .. } => Ok(None),
            DownloadState::NotDownloaded => match self.file_name(podcast_title) {
                Ok(f) => Ok(Some(f)),
                Err(e) => Err(e),
            },
        }
    }

    /// Records a completed transfer: marks the episode downloaded now, stored
    /// under `local_file_name`. Everything else is kept.
    pub fn record_download(&mut self, local_file_name: String)
        ensures
            final(self)@.title == old(self)@.title,
            final(self)@.url == old(self)@.url,
            final(self)@.pub_date == old(self)@.pub_date,
            final(self)@.listened == old(self)@.listened,
            spec_local_file_name(final(self)@) == Some(local_file_name@),
            spec_downloaded_at(final(self)@) is Some,
    {
        let at = crate::date::now_utc();
        self.state = DownloadState::Downloaded { at, local_file_name };
    }

    /// The listing line for this episode: four spaces, the title, then the
    /// publish, download and listen times separated by tabs.
    pub fn display_line(&self) -> (s: String)
        ensures
            s@ == spec_episode_line(self@),
    {
        let mut s = String::from_str("    ");
        s.append(self.title.as_str());
        s.append("\n");
        let pd = format_minute(&self.pub_date);
        s.append(pd.as_str());
        s.append("\t");
        match &self.state {
            DownloadState::Downloaded { at, .. } => {
                let dd = format_minute(at);
                s.append(dd.as_str());
            },
            DownloadState::NotDownloaded => {},
        }
        s.append("\t");
        match &self.listened {
            Some(d) => {
                let ld = format_minute(d);
                s.append(ld.as_str());
            },
            None => {},
        }
        s.append("\n");
        proof {
            assert(s@ =~= spec_episode_line(self@));
        }
        s
    }
}

/// What one feed document describes: the channel title and its episodes in
/// document order.
#[derive(Debug, Clone, PartialEq, Eq)]
pub struct ParsedFeed {
    pub title: String,
    pub episodes: Vec<Episode>,
}

/// Spec-level image of a [`ParsedFeed`].
pub ghost struct ParsedFeedView {
    pub title: Seq<char>,
    pub episodes: Seq<EpisodeView>,
}

impl View for ParsedFeed {
    type V = ParsedFeedView;

    open spec fn view(&self) -> ParsedFeedView {
        ParsedFeedView { title: self.title@, episodes: spec_episode_views(self.episodes@) }
    }
}

/// The views of a sequence of episodes.
pub open spec fn spec_episode_views(eps: Seq<Episode>) -> Seq<EpisodeView> {
    eps.map_values(|e: Episode| e@)
}

/// One podcast: a feed endpoint, the channel title it last reported, and the
/// episodes collected from it, in feed-document order and append-only across
/// refreshes.
#[derive(Debug, Clone, PartialEq, Eq)]
pub struct Podcast {
    pub title: String,
    url: String,
    episodes: Vec<Episode>,
    last_checked: Date,
}

/// Spec-level image of a [`Podcast`].
pub ghost struct PodcastView {
    pub title: Seq<char>,
    pub url: Seq<char>,
    pub episodes: Seq<EpisodeView>,
    pub last_checked: Date,
}

impl View for Podcast {
    type V = PodcastView;

    closed spec fn view(&self) -> PodcastView {
        PodcastView {
            title: self.title@,
            url: self.url@,
            episodes: spec_episode_views(self.episodes@),
            last_checked: self.last_checked,
        }
    }
}

/// The stored file names of the already-downloaded episodes among `eps`, in
/// order.
pub open spec fn spec_stored_files(eps: Seq<EpisodeView>) -> Seq<Seq<char>>
    decreases eps.len(),
{
    if eps.len() == 0 {
        Seq::empty()
    } else {
        spec_stored_files(eps.drop_last()) + match spec_local_file_name(eps.last()) {
            Some(f) => seq![f],
            None => Seq::empty(),
        }
    }
}

impl Podcast {
    /// A podcast known only by its feed URL: the title is whatever
    /// placeholder the caller supplies, there are no episodes yet, and the
    /// feed counts as never checked.
    pub fn new(title: &str, url: &str) -> (p: Podcast)
        ensures
            p@ == (PodcastView {
                title: title@,
                url: url@,
                episodes: Seq::empty(),
                last_checked: Date::spec_epoch(),
            }),
    {
        let p = Podcast {
            title: title.to_owned(),
            url: url.to_owned(),
            episodes: Vec::new(),
            last_checked: Date::epoch(),
        };
        proof {
            assert(spec_episode_views(p.episodes@) =~= Seq::<EpisodeView>::empty());
        }
        p
    }

    /// A podcast rebuilt from stored fields, exactly as given.
    pub fn from_parts(title: String, url: String, episodes: Vec<Episode>, last_checked: Date) -> (p:
        Podcast)
        ensures
            p@ == (PodcastView {
                title: title@,
                url: url@,
                episodes: spec_episode_views(episodes@),
                last_checked: last_checked,
            }),
    {
        Podcast { title, url, episodes, last_checked }
    }

    pub fn title(&self) -> (r: &String)
        ensures
            r@ == self@.title,
    {
        &self.title
    }

    pub fn url(&self) -> (r: &String)
        ensures
            r@ == self@.url,
    {
        &self.url
    }

    pub fn last_checked(&self) -> (r: Date)
        ensures
            r == self@.last_checked,
    {
        self.last_checked
    }

    pub fn episodes(&self) -> (r: &Vec<Episode>)
        ensures
            spec_episode_views(r@) == self@.episodes,
    {
        &self.episodes
    }

    /// Exclusive access to one episode, for recording a download.
    pub fn episode_mut(&mut self, i: usize) -> (r: &mut Episode)
        requires
            i < old(self)@.episodes.len(),
        ensures
            (*r)@ == old(self)@.episodes[i as int],
            final(self)@ == (PodcastView {
                episodes: old(self)@.episodes.update(i as int, (*final(r))@),
                ..old(self)@
            }),
    {
        let r = &mut self.episodes[i];
        proof {
            assert(spec_episode_views(old(self).episodes@.update(i as int, *final(r)))
                =~= spec_episode_views(old(self).episodes@).update(i as int, (*final(r))@));
        }
        r
    }

    /// Takes one successfully parsed feed document into this podcast: the
    /// channel title replaces the stored one, the parsed episodes are
    /// appended after the existing ones, and the podcast counts as checked
    /// now. The URL is kept.
    pub fn apply_feed(&mut self, feed: ParsedFeed)
        ensures
            final(self)@.title == feed@.title,
            final(self)@.url == old(self)@.url,
            final(self)@.episodes == old(self)@.episodes + feed@.episodes,
    {
        self.title = feed.title;
        let mut eps = feed.episodes;
        proof {
            assert(spec_episode_views(self.episodes@ + eps@) =~= spec_episode_views(
                self.episodes@,
            ) + spec_episode_views(eps@));
        }
        self.episodes.append(&mut eps);
        self.last_checked = crate::date::now_utc();
    }

    /// Forgets every episode of this podcast and returns, in order, the
    /// stored file names of the ones that had been downloaded, so the caller
    /// can delete those files. Title, URL and check time are kept.
    pub fn clear_episodes(&mut self) -> (files: Vec<String>)
        ensures
            final(self)@ == (PodcastView { episodes: Seq::empty(), ..old(self)@ }),
            files@.map_values(|f: String| f@) == spec_stored_files(old(self)@.episodes),
    {
        let mut files: Vec<String> = Vec::new();
        let n = self.episodes.len();
        proof {
            assert(spec_stored_files(spec_episode_views(self.episodes@).take(0))
                =~= Seq::<Seq<char>>::empty());
            assert(files@.map_values(|f: String| f@) =~= Seq::<Seq<char>>::empty());
        }
        let mut i: usize = 0;
        while i < n
            invariant
                i <= n,
                n == self.episodes.len(),
                self == old(self),
                files@.map_values(|f: String| f@) == spec_stored_files(
                    spec_episode_views(self.episodes@).take(i as int),
                ),
            decreases n - i,
        {
            let ghost pre = files@.map_values(|f: String| f@);
            match self.episodes[i].local_file_name() {
                Some(f) => {
                    files.push(f);
                    proof {
                        assert(files@.map_values(|f: String| f@) =~= pre + seq![
                            spec_local_file_name(self@.episodes[i as int])->0,
                        ]);
                    }
                },
                None => {},
            }
            proof {
                assert(spec_episode_views(self.episodes@).take(i + 1).drop_last()
                    =~= spec_episode_views(self.episodes@).take(i as int));
                assert(spec_episode_views(self.episodes@).take(i + 1).last()
                    == self@.episodes[i as int]);
            }
            i = i + 1;
        }
        self.episodes = Vec::new();
        proof {
            assert(spec_episode_views(old(self).episodes@).take(n as int) =~= spec_episode_views(
                old(self).episodes@,
            ));
            assert(spec_episode_views(self.episodes@) =~= Seq::<EpisodeView>::empty());
        }
        files
    }

    /// The listing block for this podcast: its title, then its URL and last
    /// check time, then one line per episode.
    pub fn display_string(&self) -> (s: String)
        ensures
            s@ == spec_podcast_display(self@),
    {
        let mut s = String::new();
        s.append(self.title.as_str());
        s.append("\n");
        s.append(self.url.as_str());
        s.append(" ");
        let lc = format_minute(&self.last_checked);
        s.append(lc.as_str());
        s.append("\n");
        let n = self.episodes.len();
        proof {
            assert(spec_episode_lines(spec_episode_views(self.episodes@).take(0))
                =~= Seq::<char>::empty());
            assert(s@ =~= self@.title + "\n"@ + self@.url + " "@ + spec_format_minute(
                self@.last_checked,
            ) + "\n"@ + spec_episode_lines(spec_episode_views(self.episodes@).take(0)));
        }
        let mut i: usize = 0;
        while i < n
            invariant
                i <= n,
                n == self.episodes.len(),
                s@ == self@.title + "\n"@ + self@.url + " "@ + spec_format_minute(
                    self@.last_checked,
                ) + "\n"@ + spec_episode_lines(spec_episode_views(self.episodes@).take(i as int)),
            decreases n - i,
        {
            let line = self.episodes[i].display_line();
            s.append(line.as_str());
            proof {
                assert(spec_episode_views(self.episodes@).take(i + 1).drop_last()
                    =~= spec_episode_views(self.episodes@).take(i as int));
                assert(spec_episode_views(self.episodes@).take(i + 1).last()
                    == self@.episodes[i as int]);
                assert(s@ =~= self@.title + "\n"@ + self@.url + " "@ + spec_format_minute(
                    self@.last_checked,
                ) + "\n"@ + spec_episode_lines(
                    spec_episode_views(self.episodes@).take(i + 1),
                ));
            }
            i = i + 1;
        }
        proof {
            assert(spec_episode_views(self.episodes@).take(n as int) =~= spec_episode_views(
                self.episodes@,
            ));
        }
        s
    }
}

/// The listing lines of a sequence of episodes, concatenated in order.
pub open spec fn spec_episode_lines(eps: Seq<EpisodeView>) -> Seq<char>
    decreases eps.len(),
{
    if eps.len() == 0 {
        Seq::empty()
    } else {
        spec_episode_lines(eps.drop_last()) + spec_episode_line(eps.last())
    }
}

/// The listing block of a podcast.
pub open spec fn spec_podcast_display(p: PodcastView) -> Seq<char> {
    p.title + "\n"@ + p.url + " "@ + spec_format_minute(p.last_checked) + "\n"@
        + spec_episode_lines(p.episodes)
}

} // verus!
