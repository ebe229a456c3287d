//! The persistent collection of podcasts: an ordered sequence keyed only by
//! position, with in-memory mutation operations. Its byte-level load/save
//! codec lives in [`crate::codec`].

use vstd::prelude::*;
use crate::pod::{Podcast, PodcastView, spec_stored_files};
use crate::date::Date;

verus! {

/// The views of a sequence of podcasts.
pub open spec fn spec_podcast_views(ps: Seq<Podcast>) -> Seq<PodcastView> {
    ps.map_values(|p: Podcast| p@)
}

/// The stored file names of every downloaded episode of every podcast of
/// `ps`, podcast by podcast, in order.
pub open spec fn spec_all_stored_files(ps: Seq<PodcastView>) -> Seq<Seq<char>>
    decreases ps.len(),
{
    if ps.len() == 0 {
        Seq::empty()
    } else {
        spec_all_stored_files(ps.drop_last()) + spec_stored_files(ps.last().episodes)
    }
}

/// The whole archive: every known podcast, in insertion order. Two entries
/// may share a URL; nothing dedups at this level.
#[derive(Debug, Clone, PartialEq, Eq)]
pub struct Database(Vec<Podcast>);

impl View for Database {
    type V = Seq<PodcastView>;

    closed spec fn view(&self) -> Seq<PodcastView> {
        spec_podcast_views(self.0@)
    }
}

impl Database {
    /// A new, empty database.
    pub fn new() -> (d: Database)
        ensures
            d@ == Seq::<PodcastView>::empty(),
    {
        let d = Database(Vec::new());
        proof {
            assert(d@ =~= Seq::<PodcastView>::empty());
        }
        d
    }

    /// Appends a new podcast known only by `url`, with the placeholder title
    /// `" "` and no episodes; no feed is fetched. Adding a URL that is
    /// already present appends a second, independent entry.
    pub fn add(&mut self, url: &str)
        ensures
            final(self)@ == old(self)@.push(
                PodcastView {
                    title: " "@,
                    url: url@,
                    episodes: Seq::empty(),
                    last_checked: Date::spec_epoch(),
                },
            ),
    {
        let p = Podcast::new(" ", url);
        self.0.push(p);
        proof {
            assert(final(self)@ =~= old(self)@.push(
                PodcastView {
                    title: " "@,
                    url: url@,
                    episodes: Seq::empty(),
                    last_checked: Date::spec_epoch(),
                },
            ));
        }
    }

    /// A database rebuilt from stored podcasts, exactly as given.
    pub fn from_podcasts(ps: Vec<Podcast>) -> (d: Database)
        ensures
            d@ == spec_podcast_views(ps@),
    {
        Database(ps)
    }

    /// How many podcasts the database holds.
    pub fn len(&self) -> (n: usize)
        ensures
            n == self@.len(),
    {
        self.0.len()
    }

    pub fn podcasts(&self) -> (r: &Vec<Podcast>)
        ensures
            spec_podcast_views(r@) == self@,
    {
        &self.0
    }

    pub fn podcast(&self, i: usize) -> (r: &Podcast)
        requires
            i < self@.len(),
        ensures
            r@ == self@[i as int],
    {
        &self.0[i]
    }

    /// Exclusive access to one podcast, for refreshing it or recording an
    /// episode download.
    pub fn podcast_mut(&mut self, i: usize) -> (r: &mut Podcast)
        requires
            i < old(self)@.len(),
        ensures
            (*r)@ == old(self)@[i as int],
            final(self)@ == old(self)@.update(i as int, (*final(r))@),
    {
        let r = &mut self.0[i];
        proof {
            assert(spec_podcast_views(old(self).0@.update(i as int, *final(r)))
                =~= spec_podcast_views(old(self).0@).update(i as int, (*final(r))@));
        }
        r
    }

    /// Forgets every episode of every podcast and returns, in order, the
    /// stored file names of all the episodes that had been downloaded, so
    /// the caller can delete those files. The podcasts themselves stay, with
    /// their titles, URLs and check times.
    pub fn clear_all_episodes(&mut self) -> (files: Vec<String>)
        ensures
            final(self)@.len() == old(self)@.len(),
            forall|i: int|
                0 <= i < old(self)@.len() ==> final(self)@[i] == (PodcastView {
                    episodes: Seq::empty(),
                    ..old(self)@[i]
                }),
            files@.map_values(|f: String| f@) == spec_all_stored_files(old(self)@),
    {
        let mut files: Vec<String> = Vec::new();
        let n = self.0.len();
        proof {
            assert(spec_all_stored_files(old(self)@.take(0)) =~= Seq::<Seq<char>>::empty());
            assert(files@.map_values(|f: String| f@) =~= Seq::<Seq<char>>::empty());
        }
        let mut i: usize = 0;
        while i < n
            invariant
                i <= n,
                n == self.0.len(),
                self@.len() == old(self)@.len(),
                forall|j: int|
                    0 <= j < i ==> self@[j] == (PodcastView {
                        episodes: Seq::empty(),
                        ..old(self)@[j]
                    }),
                forall|j: int| i <= j < n ==> self@[j] == old(self)@[j],
                files@.map_values(|f: String| f@) == spec_all_stored_files(
                    old(self)@.take(i as int),
                ),
            decreases n - i,
        {
            let ghost pre = files@.map_values(|f: String| f@);
            let ghost prevs = self@;
            let ghost pv = self.0@;
            let mut fs = self.0[i].clear_episodes();
            let ghost fsv = fs@.map_values(|f: String| f@);
            proof {
                assert forall|j: int| 0 <= j < n && j != i implies self@[j] == prevs[j] by {
                    assert(self.0@[j] == pv[j]);
                }
                assert(prevs[i as int] == old(self)@[i as int]);
                assert(self@[i as int] == (PodcastView {
                    episodes: Seq::empty(),
                    ..old(self)@[i as int]
                }));
                assert forall|j: int|
                    0 <= j < i + 1 implies self@[j] == (PodcastView {
                        episodes: Seq::empty(),
                        ..old(self)@[j]
                    }) by {
                    if j < i {
                        assert(self@[j] == prevs[j]);
                        assert(prevs[j] == (PodcastView {
                            episodes: Seq::empty(),
                            ..old(self)@[j]
                        }));
                    }
                }
            }
            files.append(&mut fs);
            proof {
                assert(old(self)@.take(i + 1).drop_last() =~= old(self)@.take(i as int));
                assert(old(self)@.take(i + 1).last() == old(self)@[i as int]);
                assert(files@.map_values(|f: String| f@) =~= pre + fsv);
            }
            i = i + 1;
        }
        proof {
            assert(old(self)@.take(n as int) =~= old(self)@);
        }
        files
    }
}

} // verus!
