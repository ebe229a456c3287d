//! The store's byte codec: one compact binary document holding the ordered
//! sequence of podcasts, with no header and no version field. Saving is a
//! single encoding pass; loading decodes the same layout and is proved to
//! reproduce the saved store exactly.
//!
//! Layout: counts and string lengths are 8 little-endian bytes; characters
//! and date fields are 4 little-endian bytes; an optional value opens with a
//! `0` (absent) or `1` (present) byte, as does an episode's download record.

use vstd::prelude::*;
use crate::database::{Database, spec_podcast_views};
use crate::date::Date;
use crate::errors::DecodeError;
use crate::pod::{Episode, EpisodeView, Podcast, PodcastView, DownloadState, DownloadStateView,
    spec_episode_views};

verus! {

/// One more than the largest count or length the layout can carry.
pub open spec fn spec_len_limit() -> int {
    0x1_0000_0000_0000_0000
}

/// The four little-endian bytes of `n`.
pub open spec fn spec_enc_u32(n: u32) -> Seq<u8> {
    seq![
        (n & 0xFF) as u8,
        ((n >> 8) & 0xFF) as u8,
        ((n >> 16) & 0xFF) as u8,
        ((n >> 24) & 0xFF) as u8,
    ]
}

/// The value of four little-endian bytes.
pub open spec fn spec_u32_of(b0: u8, b1: u8, b2: u8, b3: u8) -> u32 {
    (b0 as u32) | ((b1 as u32) << 8) | ((b2 as u32) << 16) | ((b3 as u32) << 24)
}

/// The eight little-endian bytes of `n`.
pub open spec fn spec_enc_u64(n: u64) -> Seq<u8> {
    seq![
        (n & 0xFF) as u8,
        ((n >> 8) & 0xFF) as u8,
        ((n >> 16) & 0xFF) as u8,
        ((n >> 24) & 0xFF) as u8,
        ((n >> 32) & 0xFF) as u8,
        ((n >> 40) & 0xFF) as u8,
        ((n >> 48) & 0xFF) as u8,
        ((n >> 56) & 0xFF) as u8,
    ]
}

/// The value of eight little-endian bytes.
pub open spec fn spec_u64_of(
    b0: u8,
    b1: u8,
    b2: u8,
    b3: u8,
    b4: u8,
    b5: u8,
    b6: u8,
    b7: u8,
) -> u64 {
    (b0 as u64) | ((b1 as u64) << 8) | ((b2 as u64) << 16) | ((b3 as u64) << 24) | ((b4 as u64)
        << 32) | ((b5 as u64) << 40) | ((b6 as u64) << 48) | ((b7 as u64) << 56)
}

/// A character as its code point.
pub open spec fn spec_enc_char(c: char) -> Seq<u8> {
    spec_enc_u32(c as u32)
}

/// The characters of a string, one after the other.
pub open spec fn spec_enc_chars(s: Seq<char>) -> Seq<u8>
    decreases s.len(),
{
    if s.len() == 0 {
        Seq::empty()
    } else {
        spec_enc_char(s[0]) + spec_enc_chars(s.drop_first())
    }
}

/// A string: its length, then its characters.
pub open spec fn spec_enc_string(s: Seq<char>) -> Seq<u8> {
    spec_enc_u64(s.len() as u64) + spec_enc_chars(s)
}

/// A date: its six fields in order.
pub open spec fn spec_enc_date(d: Date) -> Seq<u8> {
    spec_enc_u32(d.year) + (spec_enc_u32(d.month) + (spec_enc_u32(d.day) + (spec_enc_u32(d.hour)
        + (spec_enc_u32(d.minute) + spec_enc_u32(d.second)))))
}

/// An optional date: a presence byte, then the date if present.
pub open spec fn spec_enc_opt_date(o: Option<Date>) -> Seq<u8> {
    match o {
        None => seq![0u8],
        Some(d) => seq![1u8] + spec_enc_date(d),
    }
}

/// A download record: a presence byte, then the fetch time and stored file
/// name if the episode was downloaded.
pub open spec fn spec_enc_state(st: DownloadStateView) -> Seq<u8> {
    match st {
        DownloadStateView::NotDownloaded => seq![0u8],
        DownloadStateView::Downloaded { at, local_file_name } => seq![1u8] + (spec_enc_date(at)
            + spec_enc_string(local_file_name)),
    }
}

/// An episode: title, URL, publish date, download record, listen time.
pub open spec fn spec_enc_episode(e: EpisodeView) -> Seq<u8> {
    spec_enc_string(e.title) + (spec_enc_string(e.url) + (spec_enc_date(e.pub_date)
        + (spec_enc_state(e.state) + spec_enc_opt_date(e.listened))))
}

/// Episodes, one after the other.
pub open spec fn spec_enc_episodes(eps: Seq<EpisodeView>) -> Seq<u8>
    decreases eps.len(),
{
    if eps.len() == 0 {
        Seq::empty()
    } else {
        spec_enc_episode(eps[0]) + spec_enc_episodes(eps.drop_first())
    }
}

/// A podcast: title, URL, episode count, episodes, last check time.
pub open spec fn spec_enc_podcast(p: PodcastView) -> Seq<u8> {
    spec_enc_string(p.title) + (spec_enc_string(p.url) + (spec_enc_u64(p.episodes.len() as u64)
        + (spec_enc_episodes(p.episodes) + spec_enc_date(p.last_checked))))
}

/// Podcasts, one after the other.
pub open spec fn spec_enc_podcasts(ps: Seq<PodcastView>) -> Seq<u8>
    decreases ps.len(),
{
    if ps.len() == 0 {
        Seq::empty()
    } else {
        spec_enc_podcast(ps[0]) + spec_enc_podcasts(ps.drop_first())
    }
}

/// The whole store document: the podcast count, then the podcasts.
pub open spec fn spec_enc_db(ps: Seq<PodcastView>) -> Seq<u8> {
    spec_enc_u64(ps.len() as u64) + spec_enc_podcasts(ps)
}

/// Reads four little-endian bytes at `pos`.
pub open spec fn spec_dec_u32_at(s: Seq<u8>, pos: int) -> Option<(u32, int)> {
    if 0 <= pos && pos + 4 <= s.len() {
        Some((spec_u32_of(s[pos], s[pos + 1], s[pos + 2], s[pos + 3]), pos + 4))
    } else {
        None
    }
}

/// Reads eight little-endian bytes at `pos`.
pub open spec fn spec_dec_u64_at(s: Seq<u8>, pos: int) -> Option<(u64, int)> {
    if 0 <= pos && pos + 8 <= s.len() {
        Some(
            (
                spec_u64_of(
                    s[pos],
                    s[pos + 1],
                    s[pos + 2],
                    s[pos + 3],
                    s[pos + 4],
                    s[pos + 5],
                    s[pos + 6],
                    s[pos + 7],
                ),
                pos + 8,
            ),
        )
    } else {
        None
    }
}

/// Reads one character at `pos`: its code point must be a scalar value.
pub open spec fn spec_dec_char_at(s: Seq<u8>, pos: int) -> Option<(char, int)> {
    match spec_dec_u32_at(s, pos) {
        Some((v, p)) => if v < 0xD800 || (0xE000 <= v && v <= 0x10FFFF) {
            Some((v as char, p))
        } else {
            None
        },
        None => None,
    }
}

/// Reads `n` characters at `pos`.
pub open spec fn spec_dec_chars_at(s: Seq<u8>, pos: int, n: nat) -> Option<(Seq<char>, int)>
    decreases n,
{
    if n == 0 {
        Some((Seq::empty(), pos))
    } else {
        match spec_dec_char_at(s, pos) {
            Some((c, p)) => match spec_dec_chars_at(s, p, (n - 1) as nat) {
                Some((cs, p2)) => Some((seq![c] + cs, p2)),
                None => None,
            },
            None => None,
        }
    }
}

/// Reads a string at `pos`: its length, then its characters.
pub open spec fn spec_dec_string_at(s: Seq<u8>, pos: int) -> Option<(Seq<char>, int)> {
    match spec_dec_u64_at(s, pos) {
        Some((n, p)) => spec_dec_chars_at(s, p, n as nat),
        None => None,
    }
}

/// Reads a date at `pos`: six fields in order.
pub open spec fn spec_dec_date_at(s: Seq<u8>, pos: int) -> Option<(Date, int)> {
    match spec_dec_u32_at(s, pos) {
        Some((year, p1)) => match spec_dec_u32_at(s, p1) {
            Some((month, p2)) => match spec_dec_u32_at(s, p2) {
                Some((day, p3)) => match spec_dec_u32_at(s, p3) {
                    Some((hour, p4)) => match spec_dec_u32_at(s, p4) {
                        Some((minute, p5)) => match spec_dec_u32_at(s, p5) {
                            Some((second, p6)) => Some(
                                (Date { year, month, day, hour, minute, second }, p6),
                            ),
                            None => None,
                        },
                        None => None,
                    },
                    None => None,
                },
                None => None,
            },
            None => None,
        },
        None => None,
    }
}

/// Reads an optional date at `pos`: a presence byte, then the date if `1`.
pub open spec fn spec_dec_opt_date_at(s: Seq<u8>, pos: int) -> Option<(Option<Date>, int)> {
    if 0 <= pos && pos + 1 <= s.len() {
        if s[pos] == 0u8 {
            Some((None, pos + 1))
        } else if s[pos] == 1u8 {
            match spec_dec_date_at(s, pos + 1) {
                Some((d, p)) => Some((Some(d), p)),
                None => None,
            }
        } else {
            None
        }
    } else {
        None
    }
}

/// Reads a download record at `pos`.
pub open spec fn spec_dec_state_at(s: Seq<u8>, pos: int) -> Option<(DownloadStateView, int)> {
    if 0 <= pos && pos + 1 <= s.len() {
        if s[pos] == 0u8 {
            Some((DownloadStateView::NotDownloaded, pos + 1))
        } else if s[pos] == 1u8 {
            match spec_dec_date_at(s, pos + 1) {
                Some((at, p)) => match spec_dec_string_at(s, p) {
                    Some((f, p2)) => Some(
                        (DownloadStateView::Downloaded { at, local_file_name: f }, p2),
                    ),
                    None => None,
                },
                None => None,
            }
        } else {
            None
        }
    } else {
        None
    }
}

/// Reads an episode at `pos`.
pub open spec fn spec_dec_episode_at(s: Seq<u8>, pos: int) -> Option<(EpisodeView, int)> {
    match spec_dec_string_at(s, pos) {
        Some((title, p1)) => match spec_dec_string_at(s, p1) {
            Some((url, p2)) => match spec_dec_date_at(s, p2) {
                Some((pub_date, p3)) => match spec_dec_state_at(s, p3) {
                    Some((state, p4)) => match spec_dec_opt_date_at(s, p4) {
                        Some((listened, p5)) => Some(
                            (EpisodeView { title, url, pub_date, state, listened }, p5),
                        ),
                        None => None,
                    },
                    None => None,
                },
                None => None,
            },
            None => None,
        },
        None => None,
    }
}

/// Reads `n` episodes at `pos`.
pub open spec fn spec_dec_episodes_at(s: Seq<u8>, pos: int, n: nat) -> Option<
    (Seq<EpisodeView>, int),
>
    decreases n,
{
    if n == 0 {
        Some((Seq::empty(), pos))
    } else {
        match spec_dec_episode_at(s, pos) {
            Some((e, p)) => match spec_dec_episodes_at(s, p, (n - 1) as nat) {
                Some((es, p2)) => Some((seq![e] + es, p2)),
                None => None,
            },
            None => None,
        }
    }
}

/// Reads a podcast at `pos`.
pub open spec fn spec_dec_podcast_at(s: Seq<u8>, pos: int) -> Option<(PodcastView, int)> {
    match spec_dec_string_at(s, pos) {
        Some((title, p1)) => match spec_dec_string_at(s, p1) {
            Some((url, p2)) => match spec_dec_u64_at(s, p2) {
                Some((n, p3)) => match spec_dec_episodes_at(s, p3, n as nat) {
                    Some((episodes, p4)) => match spec_dec_date_at(s, p4) {
                        Some((last_checked, p5)) => Some(
                            (PodcastView { title, url, episodes, last_checked }, p5),
                        ),
                        None => None,
                    },
                    None => None,
                },
                None => None,
            },
            None => None,
        },
        None => None,
    }
}

/// Reads `n` podcasts at `pos`.
pub open spec fn spec_dec_podcasts_at(s: Seq<u8>, pos: int, n: nat) -> Option<
    (Seq<PodcastView>, int),
>
    decreases n,
{
    if n == 0 {
        Some((Seq::empty(), pos))
    } else {
        match spec_dec_podcast_at(s, pos) {
            Some((p, q)) => match spec_dec_podcasts_at(s, q, (n - 1) as nat) {
                Some((ps, q2)) => Some((seq![p] + ps, q2)),
                None => None,
            },
            None => None,
        }
    }
}

/// What a whole store document holds: the podcast count, then that many
/// podcasts; trailing bytes are ignored.
pub open spec fn spec_dec_db(s: Seq<u8>) -> Option<Seq<PodcastView>> {
    match spec_dec_u64_at(s, 0) {
        Some((n, p)) => match spec_dec_podcasts_at(s, p, n as nat) {
            Some((ps, _)) => Some(ps),
            None => None,
        },
        None => None,
    }
}

/// Whether a string fits the layout's length field.
pub open spec fn spec_string_fits(s: Seq<char>) -> bool {
    s.len() < spec_len_limit()
}

/// Whether an episode's strings fit the layout.
pub open spec fn spec_episode_fits(e: EpisodeView) -> bool {
    &&& spec_string_fits(e.title)
    &&& spec_string_fits(e.url)
    &&& match e.state {
        DownloadStateView::Downloaded { local_file_name, .. } => spec_string_fits(local_file_name),
        DownloadStateView::NotDownloaded => true,
    }
}

/// Whether a podcast and everything in it fits the layout.
pub open spec fn spec_podcast_fits(p: PodcastView) -> bool {
    &&& spec_string_fits(p.title)
    &&& spec_string_fits(p.url)
    &&& p.episodes.len() < spec_len_limit()
    &&& forall|i: int| 0 <= i < p.episodes.len() ==> spec_episode_fits(#[trigger] p.episodes[i])
}

/// Whether a store and everything in it fits the layout. Every store a
/// machine can hold fits: each count here is bounded by an in-memory
/// collection's length.
pub open spec fn spec_db_fits(ps: Seq<PodcastView>) -> bool {
    &&& ps.len() < spec_len_limit()
    &&& forall|i: int| 0 <= i < ps.len() ==> spec_podcast_fits(#[trigger] ps[i])
}

/// A stretch of `s` equal to `a + b` splits into a stretch equal to `a` and
/// one equal to `b`.
proof fn lemma_split(s: Seq<u8>, pos: int, a: Seq<u8>, b: Seq<u8>)
    requires
        0 <= pos,
        pos + a.len() + b.len() <= s.len(),
        s.subrange(pos, pos + a.len() + b.len()) == a + b,
    ensures
        s.subrange(pos, pos + a.len() as int) == a,
        s.subrange(pos + a.len(), pos + a.len() + b.len()) == b,
{
    assert forall|k: int| 0 <= k < a.len() implies s[pos + k] == a[k] by {
        assert(s.subrange(pos, pos + a.len() + b.len())[k] == s[pos + k]);
        assert((a + b)[k] == a[k]);
    }
    assert forall|k: int| 0 <= k < b.len() implies s[pos + a.len() + k] == b[k] by {
        assert(s.subrange(pos, pos + a.len() + b.len())[a.len() + k] == s[pos + a.len() + k]);
        assert((a + b)[a.len() + k] == b[k]);
    }
    assert(s.subrange(pos, pos + a.len() as int) =~= a);
    assert(s.subrange(pos + a.len(), pos + a.len() + b.len()) =~= b);
}

/// Reading four bytes back from where `n` was written yields `n`.
proof fn lemma_rt_u32(n: u32, s: Seq<u8>, pos: int)
    requires
        0 <= pos,
        pos + 4 <= s.len(),
        s.subrange(pos, pos + 4) == spec_enc_u32(n),
    ensures
        spec_dec_u32_at(s, pos) == Some((n, pos + 4)),
{
    let b0 = (n & 0xFF) as u8;
    let b1 = ((n >> 8) & 0xFF) as u8;
    let b2 = ((n >> 16) & 0xFF) as u8;
    let b3 = ((n >> 24) & 0xFF) as u8;
    assert(s[pos] == s.subrange(pos, pos + 4)[0]);
    assert(s[pos + 1] == s.subrange(pos, pos + 4)[1]);
    assert(s[pos + 2] == s.subrange(pos, pos + 4)[2]);
    assert(s[pos + 3] == s.subrange(pos, pos + 4)[3]);
    assert((b0 as u32) | ((b1 as u32) << 8) | ((b2 as u32) << 16) | ((b3 as u32) << 24) == n)
        by (bit_vector)
        requires
            b0 == (n & 0xFF) as u8,
            b1 == ((n >> 8) & 0xFF) as u8,
            b2 == ((n >> 16) & 0xFF) as u8,
            b3 == ((n >> 24) & 0xFF) as u8,
    ;
}

/// Reading eight bytes back from where `n` was written yields `n`.
proof fn lemma_rt_u64(n: u64, s: Seq<u8>, pos: int)
    requires
        0 <= pos,
        pos + 8 <= s.len(),
        s.subrange(pos, pos + 8) == spec_enc_u64(n),
    ensures
        spec_dec_u64_at(s, pos) == Some((n, pos + 8)),
{
    let b0 = (n & 0xFF) as u8;
    let b1 = ((n >> 8) & 0xFF) as u8;
    let b2 = ((n >> 16) & 0xFF) as u8;
    let b3 = ((n >> 24) & 0xFF) as u8;
    let b4 = ((n >> 32) & 0xFF) as u8;
    let b5 = ((n >> 40) & 0xFF) as u8;
    let b6 = ((n >> 48) & 0xFF) as u8;
    let b7 = ((n >> 56) & 0xFF) as u8;
    assert forall|k: int| 0 <= k < 8 implies s[pos + k] == #[trigger] s.subrange(pos, pos + 8)[k]
        by {}
    assert((b0 as u64) | ((b1 as u64) << 8) | ((b2 as u64) << 16) | ((b3 as u64) << 24) | ((
    b4 as u64) << 32) | ((b5 as u64) << 40) | ((b6 as u64) << 48) | ((b7 as u64) << 56) == n)
        by (bit_vector)
        requires
            b0 == (n & 0xFF) as u8,
            b1 == ((n >> 8) & 0xFF) as u8,
            b2 == ((n >> 16) & 0xFF) as u8,
            b3 == ((n >> 24) & 0xFF) as u8,
            b4 == ((n >> 32) & 0xFF) as u8,
            b5 == ((n >> 40) & 0xFF) as u8,
            b6 == ((n >> 48) & 0xFF) as u8,
            b7 == ((n >> 56) & 0xFF) as u8,
    ;
}

/// Reading a character back from where it was written yields it.
proof fn lemma_rt_char(c: char, s: Seq<u8>, pos: int)
    requires
        0 <= pos,
        pos + 4 <= s.len(),
        s.subrange(pos, pos + 4) == spec_enc_char(c),
    ensures
        spec_dec_char_at(s, pos) == Some((c, pos + 4)),
{
    lemma_rt_u32(c as u32, s, pos);
    vstd::utf8::char_is_scalar(c);
    vstd::utf8::char_u32_cast(c, c as u32);
}

/// Reading characters back from where a string's characters were written
/// yields them.
proof fn lemma_rt_chars(cs: Seq<char>, s: Seq<u8>, pos: int)
    requires
        0 <= pos,
        pos + spec_enc_chars(cs).len() <= s.len(),
        s.subrange(pos, pos + spec_enc_chars(cs).len()) == spec_enc_chars(cs),
    ensures
        spec_dec_chars_at(s, pos, cs.len()) == Some((cs, pos + spec_enc_chars(cs).len())),
    decreases cs.len(),
{
    if cs.len() == 0 {
        assert(cs =~= Seq::<char>::empty());
    } else {
        let a = spec_enc_char(cs[0]);
        let b = spec_enc_chars(cs.drop_first());
        lemma_split(s, pos, a, b);
        lemma_rt_char(cs[0], s, pos);
        lemma_rt_chars(cs.drop_first(), s, pos + 4);
        assert(seq![cs[0]] + cs.drop_first() =~= cs);
    }
}

/// Reading a string back from where it was written yields it.
proof fn lemma_rt_string(cs: Seq<char>, s: Seq<u8>, pos: int)
    requires
        spec_string_fits(cs),
        0 <= pos,
        pos + spec_enc_string(cs).len() <= s.len(),
        s.subrange(pos, pos + spec_enc_string(cs).len()) == spec_enc_string(cs),
    ensures
        spec_dec_string_at(s, pos) == Some((cs, pos + spec_enc_string(cs).len())),
{
    let a = spec_enc_u64(cs.len() as u64);
    let b = spec_enc_chars(cs);
    lemma_split(s, pos, a, b);
    lemma_rt_u64(cs.len() as u64, s, pos);
    lemma_rt_chars(cs, s, pos + 8);
}

/// Reading a date back from where it was written yields it.
proof fn lemma_rt_date(d: Date, s: Seq<u8>, pos: int)
    requires
        0 <= pos,
        pos + 24 <= s.len(),
        s.subrange(pos, pos + 24) == spec_enc_date(d),
    ensures
        spec_dec_date_at(s, pos) == Some((d, pos + 24)),
{
    lemma_split(
        s,
        pos,
        spec_enc_u32(d.year),
        spec_enc_u32(d.month) + (spec_enc_u32(d.day) + (spec_enc_u32(d.hour) + (spec_enc_u32(
            d.minute,
        ) + spec_enc_u32(d.second)))),
    );
    lemma_rt_u32(d.year, s, pos);
    lemma_split(
        s,
        pos + 4,
        spec_enc_u32(d.month),
        spec_enc_u32(d.day) + (spec_enc_u32(d.hour) + (spec_enc_u32(d.minute) + spec_enc_u32(
            d.second,
        ))),
    );
    lemma_rt_u32(d.month, s, pos + 4);
    lemma_split(
        s,
        pos + 8,
        spec_enc_u32(d.day),
        spec_enc_u32(d.hour) + (spec_enc_u32(d.minute) + spec_enc_u32(d.second)),
    );
    lemma_rt_u32(d.day, s, pos + 8);
    lemma_split(
        s,
        pos + 12,
        spec_enc_u32(d.hour),
        spec_enc_u32(d.minute) + spec_enc_u32(d.second),
    );
    lemma_rt_u32(d.hour, s, pos + 12);
    lemma_split(s, pos + 16, spec_enc_u32(d.minute), spec_enc_u32(d.second));
    lemma_rt_u32(d.minute, s, pos + 16);
    lemma_rt_u32(d.second, s, pos + 20);
}

/// Reading an optional date back from where it was written yields it.
proof fn lemma_rt_opt_date(o: Option<Date>, s: Seq<u8>, pos: int)
    requires
        0 <= pos,
        pos + spec_enc_opt_date(o).len() <= s.len(),
        s.subrange(pos, pos + spec_enc_opt_date(o).len()) == spec_enc_opt_date(o),
    ensures
        spec_dec_opt_date_at(s, pos) == Some((o, pos + spec_enc_opt_date(o).len())),
{
    match o {
        None => {
            assert(s[pos] == s.subrange(pos, pos + 1)[0]);
        },
        Some(d) => {
            lemma_split(s, pos, seq![1u8], spec_enc_date(d));
            assert(s[pos] == s.subrange(pos, pos + 1)[0]);
            lemma_rt_date(d, s, pos + 1);
        },
    }
}

/// Reading a download record back from where it was written yields it.
proof fn lemma_rt_state(st: DownloadStateView, s: Seq<u8>, pos: int)
    requires
        (st matches DownloadStateView::Downloaded { local_file_name, .. } ==> spec_string_fits(
            local_file_name,
        )),
        0 <= pos,
        pos + spec_enc_state(st).len() <= s.len(),
        s.subrange(pos, pos + spec_enc_state(st).len()) == spec_enc_state(st),
    ensures
        spec_dec_state_at(s, pos) == Some((st, pos + spec_enc_state(st).len())),
{
    match st {
        DownloadStateView::NotDownloaded => {
            assert(s[pos] == s.subrange(pos, pos + 1)[0]);
        },
        DownloadStateView::Downloaded { at, local_file_name } => {
            lemma_split(s, pos, seq![1u8], spec_enc_date(at) + spec_enc_string(local_file_name));
            assert(s[pos] == s.subrange(pos, pos + 1)[0]);
            lemma_split(s, pos + 1, spec_enc_date(at), spec_enc_string(local_file_name));
            lemma_rt_date(at, s, pos + 1);
            lemma_rt_string(local_file_name, s, pos + 25);
        },
    }
}

/// Reading an episode back from where it was written yields it.
#[verifier::rlimit(100)]
proof fn lemma_rt_episode(e: EpisodeView, s: Seq<u8>, pos: int)
    requires
        spec_episode_fits(e),
        0 <= pos,
        pos + spec_enc_episode(e).len() <= s.len(),
        s.subrange(pos, pos + spec_enc_episode(e).len()) == spec_enc_episode(e),
    ensures
        spec_dec_episode_at(s, pos) == Some((e, pos + spec_enc_episode(e).len())),
{
    let s1 = spec_enc_string(e.title);
    let s2 = spec_enc_string(e.url);
    let s3 = spec_enc_date(e.pub_date);
    let s4 = spec_enc_state(e.state);
    let s5 = spec_enc_opt_date(e.listened);
    lemma_split(s, pos, s1, s2 + (s3 + (s4 + s5)));
    lemma_rt_string(e.title, s, pos);
    let p1 = pos + s1.len();
    lemma_split(s, p1, s2, s3 + (s4 + s5));
    lemma_rt_string(e.url, s, p1);
    let p2 = p1 + s2.len();
    lemma_split(s, p2, s3, s4 + s5);
    lemma_rt_date(e.pub_date, s, p2);
    let p3 = p2 + s3.len();
    lemma_split(s, p3, s4, s5);
    lemma_rt_state(e.state, s, p3);
    let p4 = p3 + s4.len();
    lemma_rt_opt_date(e.listened, s, p4);
}

/// Reading episodes back from where they were written yields them.
#[verifier::rlimit(100)]
proof fn lemma_rt_episodes(eps: Seq<EpisodeView>, s: Seq<u8>, pos: int)
    requires
        forall|i: int| 0 <= i < eps.len() ==> spec_episode_fits(#[trigger] eps[i]),
        0 <= pos,
        pos + spec_enc_episodes(eps).len() <= s.len(),
        s.subrange(pos, pos + spec_enc_episodes(eps).len()) == spec_enc_episodes(eps),
    ensures
        spec_dec_episodes_at(s, pos, eps.len()) == Some((eps, pos + spec_enc_episodes(eps).len())),
    decreases eps.len(),
{
    if eps.len() == 0 {
        assert(eps =~= Seq::<EpisodeView>::empty());
    } else {
        let a = spec_enc_episode(eps[0]);
        let b = spec_enc_episodes(eps.drop_first());
        lemma_split(s, pos, a, b);
        lemma_rt_episode(eps[0], s, pos);
        assert(forall|i: int|
            0 <= i < eps.drop_first().len() ==> spec_episode_fits(
                #[trigger] eps.drop_first()[i],
            ));
        lemma_rt_episodes(eps.drop_first(), s, pos + a.len());
        assert(seq![eps[0]] + eps.drop_first() =~= eps);
    }
}

/// Reading a podcast back from where it was written yields it.
#[verifier::rlimit(100)]
proof fn lemma_rt_podcast(p: PodcastView, s: Seq<u8>, pos: int)
    requires
        spec_podcast_fits(p),
        0 <= pos,
        pos + spec_enc_podcast(p).len() <= s.len(),
        s.subrange(pos, pos + spec_enc_podcast(p).len()) == spec_enc_podcast(p),
    ensures
        spec_dec_podcast_at(s, pos) == Some((p, pos + spec_enc_podcast(p).len())),
{
    let s1 = spec_enc_string(p.title);
    let s2 = spec_enc_string(p.url);
    let s3 = spec_enc_u64(p.episodes.len() as u64);
    let s4 = spec_enc_episodes(p.episodes);
    let s5 = spec_enc_date(p.last_checked);
    lemma_split(s, pos, s1, s2 + (s3 + (s4 + s5)));
    lemma_rt_string(p.title, s, pos);
    let p1 = pos + s1.len();
    lemma_split(s, p1, s2, s3 + (s4 + s5));
    lemma_rt_string(p.url, s, p1);
    let p2 = p1 + s2.len();
    lemma_split(s, p2, s3, s4 + s5);
    lemma_rt_u64(p.episodes.len() as u64, s, p2);
    let p3 = p2 + s3.len();
    lemma_split(s, p3, s4, s5);
    lemma_rt_episodes(p.episodes, s, p3);
    let p4 = p3 + s4.len();
    lemma_rt_date(p.last_checked, s, p4);
}

/// Reading podcasts back from where they were written yields them.
#[verifier::rlimit(100)]
proof fn lemma_rt_podcasts(ps: Seq<PodcastView>, s: Seq<u8>, pos: int)
    requires
        forall|i: int| 0 <= i < ps.len() ==> spec_podcast_fits(#[trigger] ps[i]),
        0 <= pos,
        pos + spec_enc_podcasts(ps).len() <= s.len(),
        s.subrange(pos, pos + spec_enc_podcasts(ps).len()) == spec_enc_podcasts(ps),
    ensures
        spec_dec_podcasts_at(s, pos, ps.len()) == Some((ps, pos + spec_enc_podcasts(ps).len())),
    decreases ps.len(),
{
    if ps.len() == 0 {
        assert(ps =~= Seq::<PodcastView>::empty());
    } else {
        let a = spec_enc_podcast(ps[0]);
        let b = spec_enc_podcasts(ps.drop_first());
        lemma_split(s, pos, a, b);
        lemma_rt_podcast(ps[0], s, pos);
        assert(forall|i: int|
            0 <= i < ps.drop_first().len() ==> spec_podcast_fits(#[trigger] ps.drop_first()[i]));
        lemma_rt_podcasts(ps.drop_first(), s, pos + a.len());
        assert(seq![ps[0]] + ps.drop_first() =~= ps);
    }
}

/// Law: loading what was saved reproduces the store — decoding the encoding
/// of any store yields an equal sequence of podcasts and episodes, field for
/// field. (Any store held in memory fits the layout's length fields.)
#[verifier::rlimit(100)]
pub proof fn lemma_store_round_trip(ps: Seq<PodcastView>)
    requires
        spec_db_fits(ps),
    ensures
        spec_dec_db(spec_enc_db(ps)) == Some(ps),
{
    let s = spec_enc_db(ps);
    let a = spec_enc_u64(ps.len() as u64);
    let b = spec_enc_podcasts(ps);
    assert(s.subrange(0, s.len() as int) =~= s);
    lemma_split(s, 0, a, b);
    lemma_rt_u64(ps.len() as u64, s, 0);
    lemma_rt_podcasts(ps, s, 8);
}

/// A nonempty string's encoding is the encoding of all but its last
/// character, then that character.
proof fn lemma_enc_chars_snoc(s: Seq<char>)
    requires
        s.len() > 0,
    ensures
        spec_enc_chars(s) == spec_enc_chars(s.drop_last()) + spec_enc_char(s.last()),
    decreases s.len(),
{
    if s.len() == 1 {
        assert(s.drop_last() =~= Seq::<char>::empty());
        assert(s.drop_first() =~= Seq::<char>::empty());
        assert(spec_enc_chars(s) =~= spec_enc_chars(s.drop_last()) + spec_enc_char(s.last()));
    } else {
        lemma_enc_chars_snoc(s.drop_first());
        assert(s.drop_first().drop_last() =~= s.drop_last().drop_first());
        assert(s.drop_first().last() == s.last());
        assert(s.drop_last()[0] == s[0]);
        assert(spec_enc_chars(s) =~= spec_enc_chars(s.drop_last()) + spec_enc_char(s.last()));
    }
}

/// A nonempty episode run's encoding is the encoding of all but its last
/// episode, then that episode.
proof fn lemma_enc_episodes_snoc(eps: Seq<EpisodeView>)
    requires
        eps.len() > 0,
    ensures
        spec_enc_episodes(eps) == spec_enc_episodes(eps.drop_last()) + spec_enc_episode(
            eps.last(),
        ),
    decreases eps.len(),
{
    if eps.len() == 1 {
        assert(eps.drop_last() =~= Seq::<EpisodeView>::empty());
        assert(eps.drop_first() =~= Seq::<EpisodeView>::empty());
        assert(spec_enc_episodes(eps) =~= spec_enc_episodes(eps.drop_last()) + spec_enc_episode(
            eps.last(),
        ));
    } else {
        lemma_enc_episodes_snoc(eps.drop_first());
        assert(eps.drop_first().drop_last() =~= eps.drop_last().drop_first());
        assert(eps.drop_first().last() == eps.last());
        assert(eps.drop_last()[0] == eps[0]);
        assert(spec_enc_episodes(eps) =~= spec_enc_episodes(eps.drop_last()) + spec_enc_episode(
            eps.last(),
        ));
    }
}

/// A nonempty podcast run's encoding is the encoding of all but its last
/// podcast, then that podcast.
proof fn lemma_enc_podcasts_snoc(ps: Seq<PodcastView>)
    requires
        ps.len() > 0,
    ensures
        spec_enc_podcasts(ps) == spec_enc_podcasts(ps.drop_last()) + spec_enc_podcast(ps.last()),
    decreases ps.len(),
{
    if ps.len() == 1 {
        assert(ps.drop_last() =~= Seq::<PodcastView>::empty());
        assert(ps.drop_first() =~= Seq::<PodcastView>::empty());
        assert(spec_enc_podcasts(ps) =~= spec_enc_podcasts(ps.drop_last()) + spec_enc_podcast(
            ps.last(),
        ));
    } else {
        lemma_enc_podcasts_snoc(ps.drop_first());
        assert(ps.drop_first().drop_last() =~= ps.drop_last().drop_first());
        assert(ps.drop_first().last() == ps.last());
        assert(ps.drop_last()[0] == ps[0]);
        assert(spec_enc_podcasts(ps) =~= spec_enc_podcasts(ps.drop_last()) + spec_enc_podcast(
            ps.last(),
        ));
    }
}

/// The low byte of a 32-bit value.
fn low_byte32(n: u32) -> (b: u8)
    ensures
        b == (n & 0xFF) as u8,
{
    proof {
        assert(n & 0xFF < 256) by (bit_vector);
    }
    (n & 0xFF) as u8
}

/// The low byte of a 64-bit value.
fn low_byte64(n: u64) -> (b: u8)
    ensures
        b == (n & 0xFF) as u8,
{
    proof {
        assert(n & 0xFF < 256) by (bit_vector);
    }
    (n & 0xFF) as u8
}

/// Appends the four little-endian bytes of `n`.
fn enc_u32(out: &mut Vec<u8>, n: u32)
    ensures
        final(out)@ == old(out)@ + spec_enc_u32(n),
{
    out.push(low_byte32(n));
    out.push(low_byte32(n >> 8));
    out.push(low_byte32(n >> 16));
    out.push(low_byte32(n >> 24));
    proof {
        assert(final(out)@ =~= old(out)@ + spec_enc_u32(n));
    }
}

/// Appends the eight little-endian bytes of `n`.
fn enc_u64(out: &mut Vec<u8>, n: u64)
    ensures
        final(out)@ == old(out)@ + spec_enc_u64(n),
{
    out.push(low_byte64(n));
    out.push(low_byte64(n >> 8));
    out.push(low_byte64(n >> 16));
    out.push(low_byte64(n >> 24));
    out.push(low_byte64(n >> 32));
    out.push(low_byte64(n >> 40));
    out.push(low_byte64(n >> 48));
    out.push(low_byte64(n >> 56));
    proof {
        assert(final(out)@ =~= old(out)@ + spec_enc_u64(n));
    }
}

/// Appends a string: its length, then its characters as code points.
fn enc_string(out: &mut Vec<u8>, s: &str)
    ensures
        final(out)@ == old(out)@ + spec_enc_string(s@),
{
    let n = s.unicode_len();
    enc_u64(out, n as u64);
    let ghost mid = out@;
    proof {
        assert(spec_enc_chars(s@.take(0)) =~= Seq::<u8>::empty());
        assert(out@ =~= mid + spec_enc_chars(s@.take(0)));
    }
    let mut i: usize = 0;
    while i < n
        invariant
            i <= n,
            n == s@.len(),
            out@ == mid + spec_enc_chars(s@.take(i as int)),
            mid == old(out)@ + spec_enc_u64(s@.len() as u64),
        decreases n - i,
    {
        let c = s.get_char(i);
        enc_u32(out, c as u32);
        proof {
            lemma_enc_chars_snoc(s@.take(i + 1));
            assert(s@.take(i + 1).drop_last() =~= s@.take(i as int));
            assert(s@.take(i + 1).last() == s@[i as int]);
            assert(out@ =~= mid + spec_enc_chars(s@.take(i + 1)));
        }
        i = i + 1;
    }
    proof {
        assert(s@.take(n as int) =~= s@);
        assert(out@ =~= old(out)@ + spec_enc_string(s@));
    }
}

/// Appends a date's six fields.
fn enc_date(out: &mut Vec<u8>, d: &Date)
    ensures
        final(out)@ == old(out)@ + spec_enc_date(*d),
{
    enc_u32(out, d.year);
    enc_u32(out, d.month);
    enc_u32(out, d.day);
    enc_u32(out, d.hour);
    enc_u32(out, d.minute);
    enc_u32(out, d.second);
    proof {
        assert(final(out)@ =~= old(out)@ + spec_enc_date(*d));
    }
}

/// Appends an optional date behind its presence byte.
fn enc_opt_date(out: &mut Vec<u8>, o: &Option<Date>)
    ensures
        final(out)@ == old(out)@ + spec_enc_opt_date(*o),
{
    match o {
        None => {
            out.push(0u8);
            proof {
                assert(final(out)@ =~= old(out)@ + spec_enc_opt_date(*o));
            }
        },
        Some(d) => {
            out.push(1u8);
            enc_date(out, d);
            proof {
                assert(final(out)@ =~= old(out)@ + spec_enc_opt_date(*o));
            }
        },
    }
}

/// Appends a download record behind its presence byte.
fn enc_state(out: &mut Vec<u8>, st: &DownloadState)
    ensures
        final(out)@ == old(out)@ + spec_enc_state(st@),
{
    match st {
        DownloadState::NotDownloaded => {
            out.push(0u8);
            proof {
                assert(final(out)@ =~= old(out)@ + spec_enc_state(st@));
            }
        },
        DownloadState::Downloaded { at, local_file_name } => {
            out.push(1u8);
            enc_date(out, at);
            enc_string(out, local_file_name.as_str());
            proof {
                assert(final(out)@ =~= old(out)@ + spec_enc_state(st@));
            }
        },
    }
}

/// Appends one episode.
fn enc_episode(out: &mut Vec<u8>, e: &Episode)
    ensures
        final(out)@ == old(out)@ + spec_enc_episode(e@),
{
    enc_string(out, e.title().as_str());
    enc_string(out, e.url().as_str());
    let d = e.pub_date();
    enc_date(out, &d);
    enc_state(out, e.state());
    let li = e.listened();
    enc_opt_date(out, &li);
    proof {
        assert(final(out)@ =~= old(out)@ + spec_enc_episode(e@));
    }
}

/// Appends episodes, one after the other.
fn enc_episodes(out: &mut Vec<u8>, eps: &Vec<Episode>)
    ensures
        final(out)@ == old(out)@ + spec_enc_episodes(spec_episode_views(eps@)),
{
    let ghost evs = spec_episode_views(eps@);
    let n = eps.len();
    proof {
        assert(spec_enc_episodes(evs.take(0)) =~= Seq::<u8>::empty());
        assert(out@ =~= old(out)@ + spec_enc_episodes(evs.take(0)));
    }
    let mut i: usize = 0;
    while i < n
        invariant
            i <= n,
            n == eps.len(),
            evs == spec_episode_views(eps@),
            out@ == old(out)@ + spec_enc_episodes(evs.take(i as int)),
        decreases n - i,
    {
        enc_episode(out, &eps[i]);
        proof {
            lemma_enc_episodes_snoc(evs.take(i + 1));
            assert(evs.take(i + 1).drop_last() =~= evs.take(i as int));
            assert(evs.take(i + 1).last() == evs[i as int]);
            assert(out@ =~= old(out)@ + spec_enc_episodes(evs.take(i + 1)));
        }
        i = i + 1;
    }
    proof {
        assert(evs.take(n as int) =~= evs);
    }
}

/// Appends one podcast.
fn enc_podcast(out: &mut Vec<u8>, p: &Podcast)
    ensures
        final(out)@ == old(out)@ + spec_enc_podcast(p@),
{
    enc_string(out, p.title().as_str());
    enc_string(out, p.url().as_str());
    let eps = p.episodes();
    enc_u64(out, eps.len() as u64);
    enc_episodes(out, eps);
    let lc = p.last_checked();
    enc_date(out, &lc);
    proof {
        assert(final(out)@ =~= old(out)@ + spec_enc_podcast(p@));
    }
}

/// Appends podcasts, one after the other.
fn enc_podcasts(out: &mut Vec<u8>, ps: &Vec<Podcast>)
    ensures
        final(out)@ == old(out)@ + spec_enc_podcasts(spec_podcast_views(ps@)),
{
    let ghost pvs = spec_podcast_views(ps@);
    let n = ps.len();
    proof {
        assert(spec_enc_podcasts(pvs.take(0)) =~= Seq::<u8>::empty());
        assert(out@ =~= old(out)@ + spec_enc_podcasts(pvs.take(0)));
    }
    let mut i: usize = 0;
    while i < n
        invariant
            i <= n,
            n == ps.len(),
            pvs == spec_podcast_views(ps@),
            out@ == old(out)@ + spec_enc_podcasts(pvs.take(i as int)),
        decreases n - i,
    {
        enc_podcast(out, &ps[i]);
        proof {
            lemma_enc_podcasts_snoc(pvs.take(i + 1));
            assert(pvs.take(i + 1).drop_last() =~= pvs.take(i as int));
            assert(pvs.take(i + 1).last() == pvs[i as int]);
            assert(out@ =~= old(out)@ + spec_enc_podcasts(pvs.take(i + 1)));
        }
        i = i + 1;
    }
    proof {
        assert(pvs.take(n as int) =~= pvs);
    }
}

impl Database {
    /// Serializes the whole store to its one-document byte encoding, in one
    /// pass. The caller owns writing the bytes to the store file, truncating
    /// whatever was there.
    pub fn to_bytes(&self) -> (out: Vec<u8>)
        ensures
            out@ == spec_enc_db(self@),
    {
        let mut out: Vec<u8> = Vec::new();
        enc_u64(&mut out, self.len() as u64);
        enc_podcasts(&mut out, self.podcasts());
        proof {
            assert(out@ =~= spec_enc_db(self@));
        }
        out
    }
}

/// Reads four little-endian bytes.
fn dec_u32(bytes: &Vec<u8>, pos: usize) -> (r: Option<(u32, usize)>)
    ensures
        match r {
            Some((v, p)) => spec_dec_u32_at(bytes@, pos as int) == Some((v, p as int)) && p
                <= bytes.len(),
            None => spec_dec_u32_at(bytes@, pos as int) is None,
        },
{
    if bytes.len() < 4 || pos > bytes.len() - 4 {
        return None;
    }
    let v = (bytes[pos] as u32) | ((bytes[pos + 1] as u32) << 8) | ((bytes[pos + 2] as u32) << 16)
        | ((bytes[pos + 3] as u32) << 24);
    Some((v, pos + 4))
}

/// Reads eight little-endian bytes.
fn dec_u64(bytes: &Vec<u8>, pos: usize) -> (r: Option<(u64, usize)>)
    ensures
        match r {
            Some((v, p)) => spec_dec_u64_at(bytes@, pos as int) == Some((v, p as int)) && p
                <= bytes.len(),
            None => spec_dec_u64_at(bytes@, pos as int) is None,
        },
{
    if bytes.len() < 8 || pos > bytes.len() - 8 {
        return None;
    }
    let v = (bytes[pos] as u64) | ((bytes[pos + 1] as u64) << 8) | ((bytes[pos + 2] as u64) << 16)
        | ((bytes[pos + 3] as u64) << 24) | ((bytes[pos + 4] as u64) << 32) | ((bytes[pos
        + 5] as u64) << 40) | ((bytes[pos + 6] as u64) << 48) | ((bytes[pos + 7] as u64) << 56);
    Some((v, pos + 8))
}

/// Reads one character.
fn dec_char(bytes: &Vec<u8>, pos: usize) -> (r: Option<(char, usize)>)
    ensures
        match r {
            Some((c, p)) => spec_dec_char_at(bytes@, pos as int) == Some((c, p as int)) && p
                <= bytes.len(),
            None => spec_dec_char_at(bytes@, pos as int) is None,
        },
{
    match dec_u32(bytes, pos) {
        Some((v, p)) => {
            if v < 0xD800 || (0xE000 <= v && v <= 0x10FFFF) {
                match char::from_u32(v) {
                    Some(c) => {
                        proof {
                            vstd::utf8::char_u32_cast(c, v);
                        }
                        Some((c, p))
                    },
                    None => {
                        proof {
                            assert(false);
                        }
                        None
                    },
                }
            } else {
                None
            }
        },
        None => None,
    }
}

/// Reads a string: its length, then that many characters.
fn dec_string(bytes: &Vec<u8>, pos: usize) -> (r: Option<(String, usize)>)
    ensures
        match r {
            Some((cs, p)) => spec_dec_string_at(bytes@, pos as int) == Some((cs@, p as int)) && p
                <= bytes.len(),
            None => spec_dec_string_at(bytes@, pos as int) is None,
        },
{
    let (n, p0) = match dec_u64(bytes, pos) {
        Some(x) => x,
        None => {
            return None;
        },
    };
    let mut acc = String::new();
    let mut cur = p0;
    let mut k: u64 = 0;
    let ghost whole = spec_dec_chars_at(bytes@, p0 as int, n as nat);
    while k < n
        invariant
            k <= n,
            cur <= bytes.len(),
            spec_dec_string_at(bytes@, pos as int) == whole,
            whole == match spec_dec_chars_at(bytes@, cur as int, (n - k) as nat) {
                Some((cs, q)) => Some((acc@ + cs, q)),
                None => None::<(Seq<char>, int)>,
            },
        decreases n - k,
    {
        match dec_char(bytes, cur) {
            Some((c, p2)) => {
                proof {
                    let rest = spec_dec_chars_at(bytes@, p2 as int, (n - k - 1) as nat);
                    if rest is Some {
                        assert(spec_dec_chars_at(bytes@, cur as int, (n - k) as nat) == Some(
                            (seq![c] + (rest->0).0, (rest->0).1),
                        ));
                        assert(acc@.push(c) + (rest->0).0 =~= acc@ + (seq![c] + (rest->0).0));
                    } else {
                        assert(spec_dec_chars_at(bytes@, cur as int, (n - k) as nat) is None);
                    }
                }
                acc.push(c);
                cur = p2;
            },
            None => {
                proof {
                    assert(spec_dec_chars_at(bytes@, cur as int, (n - k) as nat) is None);
                }
                return None;
            },
        }
        k = k + 1;
    }
    proof {
        assert(spec_dec_chars_at(bytes@, cur as int, 0) == Some((Seq::<char>::empty(), cur as int)));
        assert(acc@ + Seq::<char>::empty() =~= acc@);
    }
    Some((acc, cur))
}

/// Reads a date: six fields in order.
fn dec_date(bytes: &Vec<u8>, pos: usize) -> (r: Option<(Date, usize)>)
    ensures
        match r {
            Some((d, p)) => spec_dec_date_at(bytes@, pos as int) == Some((d, p as int)) && p
                <= bytes.len(),
            None => spec_dec_date_at(bytes@, pos as int) is None,
        },
{
    let (year, p1) = match dec_u32(bytes, pos) {
        Some(x) => x,
        None => {
            return None;
        },
    };
    let (month, p2) = match dec_u32(bytes, p1) {
        Some(x) => x,
        None => {
            return None;
        },
    };
    let (day, p3) = match dec_u32(bytes, p2) {
        Some(x) => x,
        None => {
            return None;
        },
    };
    let (hour, p4) = match dec_u32(bytes, p3) {
        Some(x) => x,
        None => {
            return None;
        },
    };
    let (minute, p5) = match dec_u32(bytes, p4) {
        Some(x) => x,
        None => {
            return None;
        },
    };
    let (second, p6) = match dec_u32(bytes, p5) {
        Some(x) => x,
        None => {
            return None;
        },
    };
    Some((Date { year, month, day, hour, minute, second }, p6))
}

/// Reads an optional date behind its presence byte.
fn dec_opt_date(bytes: &Vec<u8>, pos: usize) -> (r: Option<(Option<Date>, usize)>)
    ensures
        match r {
            Some((o, p)) => spec_dec_opt_date_at(bytes@, pos as int) == Some((o, p as int)) && p
                <= bytes.len(),
            None => spec_dec_opt_date_at(bytes@, pos as int) is None,
        },
{
    if pos >= bytes.len() {
        return None;
    }
    let tag = bytes[pos];
    if tag == 0 {
        Some((None, pos + 1))
    } else if tag == 1 {
        match dec_date(bytes, pos + 1) {
            Some((d, p)) => Some((Some(d), p)),
            None => None,
        }
    } else {
        None
    }
}

/// Reads a download record behind its presence byte.
fn dec_state(bytes: &Vec<u8>, pos: usize) -> (r: Option<(DownloadState, usize)>)
    ensures
        match r {
            Some((st, p)) => spec_dec_state_at(bytes@, pos as int) == Some((st@, p as int)) && p
                <= bytes.len(),
            None => spec_dec_state_at(bytes@, pos as int) is None,
        },
{
    if pos >= bytes.len() {
        return None;
    }
    let tag = bytes[pos];
    if tag == 0 {
        Some((DownloadState::NotDownloaded, pos + 1))
    } else if tag == 1 {
        let (at, p) = match dec_date(bytes, pos + 1) {
            Some(x) => x,
            None => {
                return None;
            },
        };
        let (f, p2) = match dec_string(bytes, p) {
            Some(x) => x,
            None => {
                return None;
            },
        };
        Some((DownloadState::Downloaded { at, local_file_name: f }, p2))
    } else {
        None
    }
}

/// Reads one episode.
fn dec_episode(bytes: &Vec<u8>, pos: usize) -> (r: Option<(Episode, usize)>)
    ensures
        match r {
            Some((e, p)) => spec_dec_episode_at(bytes@, pos as int) == Some((e@, p as int)) && p
                <= bytes.len(),
            None => spec_dec_episode_at(bytes@, pos as int) is None,
        },
{
    let (title, p1) = match dec_string(bytes, pos) {
        Some(x) => x,
        None => {
            return None;
        },
    };
    let (url, p2) = match dec_string(bytes, p1) {
        Some(x) => x,
        None => {
            return None;
        },
    };
    let (pub_date, p3) = match dec_date(bytes, p2) {
        Some(x) => x,
        None => {
            return None;
        },
    };
    let (state, p4) = match dec_state(bytes, p3) {
        Some(x) => x,
        None => {
            return None;
        },
    };
    let (listened, p5) = match dec_opt_date(bytes, p4) {
        Some(x) => x,
        None => {
            return None;
        },
    };
    Some((Episode::from_parts(title, url, pub_date, state, listened), p5))
}

/// Reads `n` episodes.
fn dec_episodes(bytes: &Vec<u8>, pos: usize, n: u64) -> (r: Option<(Vec<Episode>, usize)>)
    requires
        pos <= bytes@.len(),
    ensures
        match r {
            Some((eps, p)) => spec_dec_episodes_at(bytes@, pos as int, n as nat) == Some(
                (spec_episode_views(eps@), p as int),
            ) && p <= bytes.len(),
            None => spec_dec_episodes_at(bytes@, pos as int, n as nat) is None,
        },
{
    let mut acc: Vec<Episode> = Vec::new();
    let mut cur = pos;
    let mut k: u64 = 0;
    let ghost whole = spec_dec_episodes_at(bytes@, pos as int, n as nat);
    proof {
        assert(spec_episode_views(acc@) =~= Seq::<EpisodeView>::empty());
    }
    while k < n
        invariant
            k <= n,
            cur <= bytes.len(),
            whole == spec_dec_episodes_at(bytes@, pos as int, n as nat),
            whole == match spec_dec_episodes_at(bytes@, cur as int, (n - k) as nat) {
                Some((es, q)) => Some((spec_episode_views(acc@) + es, q)),
                None => None::<(Seq<EpisodeView>, int)>,
            },
        decreases n - k,
    {
        match dec_episode(bytes, cur) {
            Some((e, p2)) => {
                proof {
                    let rest = spec_dec_episodes_at(bytes@, p2 as int, (n - k - 1) as nat);
                    if rest is Some {
                        assert(spec_dec_episodes_at(bytes@, cur as int, (n - k) as nat) == Some(
                            (seq![e@] + (rest->0).0, (rest->0).1),
                        ));
                        assert(spec_episode_views(acc@.push(e)) =~= spec_episode_views(acc@).push(
                            e@,
                        ));
                        assert(spec_episode_views(acc@).push(e@) + (rest->0).0
                            =~= spec_episode_views(acc@) + (seq![e@] + (rest->0).0));
                    } else {
                        assert(spec_dec_episodes_at(bytes@, cur as int, (n - k) as nat) is None);
                    }
                }
                acc.push(e);
                cur = p2;
            },
            None => {
                proof {
                    assert(spec_dec_episodes_at(bytes@, cur as int, (n - k) as nat) is None);
                }
                return None;
            },
        }
        k = k + 1;
    }
    proof {
        assert(spec_episode_views(acc@) + Seq::<EpisodeView>::empty() =~= spec_episode_views(
            acc@,
        ));
    }
    Some((acc, cur))
}

/// Reads one podcast.
fn dec_podcast(bytes: &Vec<u8>, pos: usize) -> (r: Option<(Podcast, usize)>)
    ensures
        match r {
            Some((p, q)) => spec_dec_podcast_at(bytes@, pos as int) == Some((p@, q as int)) && q
                <= bytes.len(),
            None => spec_dec_podcast_at(bytes@, pos as int) is None,
        },
{
    let (title, p1) = match dec_string(bytes, pos) {
        Some(x) => x,
        None => {
            return None;
        },
    };
    let (url, p2) = match dec_string(bytes, p1) {
        Some(x) => x,
        None => {
            return None;
        },
    };
    let (n, p3) = match dec_u64(bytes, p2) {
        Some(x) => x,
        None => {
            return None;
        },
    };
    let (episodes, p4) = match dec_episodes(bytes, p3, n) {
        Some(x) => x,
        None => {
            return None;
        },
    };
    let (last_checked, p5) = match dec_date(bytes, p4) {
        Some(x) => x,
        None => {
            return None;
        },
    };
    Some((Podcast::from_parts(title, url, episodes, last_checked), p5))
}

/// Reads `n` podcasts.
fn dec_podcasts(bytes: &Vec<u8>, pos: usize, n: u64) -> (r: Option<(Vec<Podcast>, usize)>)
    requires
        pos <= bytes@.len(),
    ensures
        match r {
            Some((ps, p)) => spec_dec_podcasts_at(bytes@, pos as int, n as nat) == Some(
                (spec_podcast_views(ps@), p as int),
            ) && p <= bytes.len(),
            None => spec_dec_podcasts_at(bytes@, pos as int, n as nat) is None,
        },
{
    let mut acc: Vec<Podcast> = Vec::new();
    let mut cur = pos;
    let mut k: u64 = 0;
    let ghost whole = spec_dec_podcasts_at(bytes@, pos as int, n as nat);
    proof {
        assert(spec_podcast_views(acc@) =~= Seq::<PodcastView>::empty());
    }
    while k < n
        invariant
            k <= n,
            cur <= bytes.len(),
            whole == spec_dec_podcasts_at(bytes@, pos as int, n as nat),
            whole == match spec_dec_podcasts_at(bytes@, cur as int, (n - k) as nat) {
                Some((ps, q)) => Some((spec_podcast_views(acc@) + ps, q)),
                None => None::<(Seq<PodcastView>, int)>,
            },
        decreases n - k,
    {
        match dec_podcast(bytes, cur) {
            Some((pc, p2)) => {
                proof {
                    let rest = spec_dec_podcasts_at(bytes@, p2 as int, (n - k - 1) as nat);
                    if rest is Some {
                        assert(spec_dec_podcasts_at(bytes@, cur as int, (n - k) as nat) == Some(
                            (seq![pc@] + (rest->0).0, (rest->0).1),
                        ));
                        assert(spec_podcast_views(acc@.push(pc)) =~= spec_podcast_views(
                            acc@,
                        ).push(pc@));
                        assert(spec_podcast_views(acc@).push(pc@) + (rest->0).0
                            =~= spec_podcast_views(acc@) + (seq![pc@] + (rest->0).0));
                    } else {
                        assert(spec_dec_podcasts_at(bytes@, cur as int, (n - k) as nat) is None);
                    }
                }
                acc.push(pc);
                cur = p2;
            },
            None => {
                proof {
                    assert(spec_dec_podcasts_at(bytes@, cur as int, (n - k) as nat) is None);
                }
                return None;
            },
        }
        k = k + 1;
    }
    proof {
        assert(spec_podcast_views(acc@) + Seq::<PodcastView>::empty() =~= spec_podcast_views(
            acc@,
        ));
    }
    Some((acc, cur))
}

impl Database {
    /// Decodes a store document saved by [`Database::to_bytes`], failing on
    /// anything that does not begin with a well-formed document. The caller
    /// distinguishes an unreadable store file (start fresh) from readable
    /// bytes that fail here (a real error).
    pub fn from_bytes(bytes: &Vec<u8>) -> (r: Result<Database, DecodeError>)
        ensures
            match r {
                Ok(d) => spec_dec_db(bytes@) == Some(d@),
                Err(e) => spec_dec_db(bytes@) is None && e == DecodeError::Malformed,
            },
    {
        let (n, p) = match dec_u64(bytes, 0) {
            Some(x) => x,
            None => {
                return Err(DecodeError::Malformed);
            },
        };
        match dec_podcasts(bytes, p, n) {
            Some((ps, _)) => Ok(Database::from_podcasts(ps)),
            None => Err(DecodeError::Malformed),
        }
    }
}

} // verus!
