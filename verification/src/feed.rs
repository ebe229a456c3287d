//! The tolerant streaming feed reducer: a tag-and-text state machine that
//! turns the XML events of an RSS document into a channel title and an
//! ordered run of episodes.

use vstd::prelude::*;
use vstd::string::{StringExecFns, StrSliceExecFns};
use crate::date::{rfc2822_utc, parse_rfc2822};
use crate::errors::{FeedError, FeedErrorView};
use crate::pod::{Episode, EpisodeView, DownloadStateView, ParsedFeed, ParsedFeedView,
    spec_episode_views, Podcast};
use crate::xml::{XmlEvent, XmlEventView, XmlAttrView, spec_event_views, events_of};

verus! {

/// Where the reducer stands in the document.
#[derive(Debug, Clone, Copy, PartialEq, Eq, Structural)]
pub enum ParseState {
    /// Anywhere outside the constructs below.
    Other,
    /// Inside the channel `title` element.
    PodcastTitle,
    /// Inside an `item` element.
    Item,
    /// Inside the `title` of an item.
    ItemTitle,
    /// Inside the `pubDate` of an item.
    ItemPubDate,
}

/// ASCII lowercasing of one byte.
pub open spec fn spec_lower(b: u8) -> u8 {
    if 65 <= b && b <= 90 {
        (b + 32) as u8
    } else {
        b
    }
}

/// A tag name, its bytes lowercased and read as characters; tag names are
/// compared case-insensitively.
pub open spec fn spec_tag_chars(name: Seq<u8>) -> Seq<char> {
    name.map_values(|b: u8| spec_lower(b) as char)
}

/// An attribute key, its bytes read as characters; attribute keys are
/// compared exactly.
pub open spec fn spec_key_chars(key: Seq<u8>) -> Seq<char> {
    key.map_values(|b: u8| b as char)
}

/// Whether the tag name `name` is `t`, comparing case-insensitively; `t` is
/// a lowercase ASCII word.
fn tag_is(name: &Vec<u8>, t: &str) -> (r: bool)
    ensures
        r == (spec_tag_chars(name@) == t@),
{
    let tl = t.unicode_len();
    if name.len() != tl {
        proof {
            assert(spec_tag_chars(name@).len() == name@.len());
        }
        return false;
    }
    let mut i: usize = 0;
    while i < tl
        invariant
            i <= tl,
            tl == t@.len(),
            name@.len() == tl,
            forall|j: int| 0 <= j < i ==> spec_tag_chars(name@)[j] == t@[j],
        decreases tl - i,
    {
        let b = name[i];
        let lb: u8 = if 65 <= b && b <= 90 {
            b + 32
        } else {
            b
        };
        if (lb as char) != t.get_char(i) {
            proof {
                assert(spec_tag_chars(name@)[i as int] != t@[i as int]);
            }
            return false;
        }
        i = i + 1;
    }
    proof {
        assert(spec_tag_chars(name@) =~= t@);
    }
    true
}

/// Whether the attribute key `key` is exactly `t`, an ASCII word.
fn key_is(key: &Vec<u8>, t: &str) -> (r: bool)
    ensures
        r == (spec_key_chars(key@) == t@),
{
    let tl = t.unicode_len();
    if key.len() != tl {
        proof {
            assert(spec_key_chars(key@).len() == key@.len());
        }
        return false;
    }
    let mut i: usize = 0;
    while i < tl
        invariant
            i <= tl,
            tl == t@.len(),
            key@.len() == tl,
            forall|j: int| 0 <= j < i ==> spec_key_chars(key@)[j] == t@[j],
        decreases tl - i,
    {
        if (key[i] as char) != t.get_char(i) {
            proof {
                assert(spec_key_chars(key@)[i as int] != t@[i as int]);
            }
            return false;
        }
        i = i + 1;
    }
    proof {
        assert(spec_key_chars(key@) =~= t@);
    }
    true
}

/// Whether two strings hold the same characters.
fn str_eq(a: &str, b: &str) -> (r: bool)
    ensures
        r == (a@ == b@),
{
    let al = a.unicode_len();
    if al != b.unicode_len() {
        return false;
    }
    let mut i: usize = 0;
    while i < al
        invariant
            i <= al,
            al == a@.len(),
            b@.len() == al,
            forall|j: int| 0 <= j < i ==> a@[j] == b@[j],
        decreases al - i,
    {
        if a.get_char(i) != b.get_char(i) {
            return false;
        }
        i = i + 1;
    }
    proof {
        assert(a@ =~= b@);
    }
    true
}

/// The value of a decimal digit character.
pub open spec fn spec_dec_digit(c: char) -> Option<nat> {
    if '0' <= c && c <= '9' {
        Some((c as u32 - 48) as nat)
    } else {
        None
    }
}

/// The value of a hexadecimal digit character.
pub open spec fn spec_hex_digit(c: char) -> Option<nat> {
    if '0' <= c && c <= '9' {
        Some((c as u32 - 48) as nat)
    } else if 'a' <= c && c <= 'f' {
        Some((c as u32 - 87) as nat)
    } else if 'A' <= c && c <= 'F' {
        Some((c as u32 - 55) as nat)
    } else {
        None
    }
}

/// The value of a run of decimal digits; `None` where empty or not all
/// digits.
pub open spec fn spec_dec_value(s: Seq<char>) -> Option<nat>
    decreases s.len(),
{
    if s.len() == 0 {
        None
    } else if s.len() == 1 {
        spec_dec_digit(s[0])
    } else {
        match (spec_dec_value(s.drop_last()), spec_dec_digit(s.last())) {
            (Some(v), Some(d)) => Some(v * 10 + d),
            _ => None,
        }
    }
}

/// The value of a run of hexadecimal digits; `None` where empty or not all
/// digits.
pub open spec fn spec_hex_value(s: Seq<char>) -> Option<nat>
    decreases s.len(),
{
    if s.len() == 0 {
        None
    } else if s.len() == 1 {
        spec_hex_digit(s[0])
    } else {
        match (spec_hex_value(s.drop_last()), spec_hex_digit(s.last())) {
            (Some(v), Some(d)) => Some(v * 16 + d),
            _ => None,
        }
    }
}

/// The character with code point `v`, where `v` is a Unicode scalar value.
pub open spec fn spec_char_of_value(o: Option<nat>) -> Option<char> {
    match o {
        Some(v) => if v < 0xD800 || (0xE000 <= v && v <= 0x10FFFF) {
            Some((v as u32) as char)
        } else {
            None
        },
        None => None,
    }
}

/// What a general entity reference named `s` stands for: one of the five
/// predefined entities, or a decimal (`#n`) or hexadecimal (`#xn`) character
/// reference; anything else resolves to nothing and is ignored.
pub open spec fn spec_resolve_ref(s: Seq<char>) -> Option<char> {
    if s == "amp"@ {
        Some('&')
    } else if s == "lt"@ {
        Some('<')
    } else if s == "gt"@ {
        Some('>')
    } else if s == "apos"@ {
        Some('\'')
    } else if s == "quot"@ {
        Some('"')
    } else if s.len() >= 2 && s[0] == '#' {
        if s[1] == 'x' || s[1] == 'X' {
            spec_char_of_value(spec_hex_value(s.subrange(2, s.len() as int)))
        } else {
            spec_char_of_value(spec_dec_value(s.subrange(1, s.len() as int)))
        }
    } else {
        None
    }
}

/// Resolves a general entity reference name to its character, if it has one.
fn resolve_ref(s: &str) -> (r: Option<char>)
    ensures
        r == spec_resolve_ref(s@),
{
    if str_eq(s, "amp") {
        return Some('&');
    }
    if str_eq(s, "lt") {
        return Some('<');
    }
    if str_eq(s, "gt") {
        return Some('>');
    }
    if str_eq(s, "apos") {
        return Some('\'');
    }
    if str_eq(s, "quot") {
        return Some('"');
    }
    let n = s.unicode_len();
    if n >= 2 && s.get_char(0) == '#' {
        let c1 = s.get_char(1);
        if c1 == 'x' || c1 == 'X' {
            char_of_digits(s, 2, true)
        } else {
            char_of_digits(s, 1, false)
        }
    } else {
        None
    }
}

/// The value a digit run is capped at while scanning; anything at or above
/// it is no scalar value.
const REF_CAP: u64 = 0x110000;

/// Scans the digits of `s` from position `from` on and returns the character
/// they name, if they are all digits of the base and name a scalar value.
fn char_of_digits(s: &str, from: usize, hex: bool) -> (r: Option<char>)
    requires
        1 <= from <= s@.len(),
    ensures
        hex ==> r == spec_char_of_value(spec_hex_value(s@.subrange(from as int, s@.len() as int))),
        !hex ==> r == spec_char_of_value(spec_dec_value(s@.subrange(from as int, s@.len() as int))),
{
    let n = s.unicode_len();
    let ghost digits = s@.subrange(from as int, s@.len() as int);
    let mut v: u64 = 0;
    let mut i: usize = from;
    proof {
        assert(digits.subrange(0, 0) =~= Seq::<char>::empty());
    }
    let mut started = false;
    let ghost mut pval: nat = 0nat;
    while i < n
        invariant
            from <= i <= n,
            n == s@.len(),
            from >= 1,
            digits == s@.subrange(from as int, s@.len() as int),
            started == (i > from),
            v <= REF_CAP,
            !started ==> v == 0,
            started ==> {
                let cur = if hex {
                    spec_hex_value(digits.subrange(0, i - from))
                } else {
                    spec_dec_value(digits.subrange(0, i - from))
                };
                cur == Some(pval) && v == (if pval < REF_CAP as nat {
                    pval
                } else {
                    REF_CAP as nat
                })
            },
        decreases n - i,
    {
        let c = s.get_char(i);
        let dv: u64 = if !hex && '0' <= c && c <= '9' {
            (c as u32 - 48) as u64
        } else if hex && '0' <= c && c <= '9' {
            (c as u32 - 48) as u64
        } else if hex && 'a' <= c && c <= 'f' {
            (c as u32 - 87) as u64
        } else if hex && 'A' <= c && c <= 'F' {
            (c as u32 - 55) as u64
        } else {
            proof {
                lemma_digit_run_bad(digits, (i - from) as int, hex);
            }
            return None;
        };
        let base: u64 = if hex {
            16
        } else {
            10
        };
        let vt = v * base + dv;
        let ghost newpval: nat = if i > from {
            (pval * base + dv) as nat
        } else {
            dv as nat
        };
        let newv = if vt > REF_CAP {
            REF_CAP
        } else {
            vt
        };
        proof {
            let pre = digits.subrange(0, i - from);
            let cur = digits.subrange(0, i + 1 - from);
            assert(cur.drop_last() =~= pre);
            assert(cur.last() == digits[i - from]);
            assert(digits[i - from] == s@[i as int]);
            if i > from {
                if pval >= REF_CAP as nat {
                    assert(pval * base >= pval) by (nonlinear_arith)
                        requires
                            pval >= 0,
                            base >= 1,
                    ;
                    assert(newpval >= REF_CAP as nat);
                    assert(newv == REF_CAP);
                } else {
                    assert(pval == v as nat);
                    assert(newpval == vt as nat);
                }
            }
        }
        v = newv;
        proof {
            pval = newpval;
        }
        started = true;
        i = i + 1;
    }
    if !started {
        proof {
            assert(digits.len() == 0);
        }
        return None;
    }
    proof {
        assert(digits.subrange(0, n - from) =~= digits);
    }
    if v < 0xD800 || (0xE000 <= v && v <= 0x10FFFF) {
        proof {
            assert(pval == v as nat);
        }
        match char::from_u32(v as u32) {
            Some(c) => {
                proof {
                    vstd::utf8::char_u32_cast(c, v as u32);
                }
                Some(c)
            },
            None => {
                proof {
                    assert(false);
                }
                None
            },
        }
    } else {
        proof {
            if v == REF_CAP {
                assert(pval >= REF_CAP as nat);
            } else {
                assert(pval == v as nat);
            }
        }
        None
    }
}

/// A digit run with a bad character at position `k` has no value, whatever
/// follows it.
proof fn lemma_digit_run_bad(digits: Seq<char>, k: int, hex: bool)
    requires
        0 <= k < digits.len(),
        hex ==> spec_hex_digit(digits[k]) is None,
        !hex ==> spec_dec_digit(digits[k]) is None,
    ensures
        hex ==> spec_hex_value(digits) is None,
        !hex ==> spec_dec_value(digits) is None,
    decreases digits.len(),
{
    if digits.len() > 1 {
        if k < digits.len() - 1 {
            assert(digits.drop_last()[k] == digits[k]);
            lemma_digit_run_bad(digits.drop_last(), k, hex);
        }
    }
}

/// The reducer's whole standing between two events: its state, the channel
/// title so far, the three scratch fields of the item being read, and the
/// finished episodes.
pub ghost struct MachineView {
    pub st: ParseState,
    pub chan_title: Seq<char>,
    pub item_title: Option<Seq<char>>,
    pub item_url: Option<Seq<char>>,
    pub item_date: Option<Seq<char>>,
    pub episodes: Seq<EpisodeView>,
}

/// The reducer before any event.
pub open spec fn spec_machine_init() -> MachineView {
    MachineView {
        st: ParseState::Other,
        chan_title: Seq::empty(),
        item_title: None,
        item_url: None,
        item_date: None,
        episodes: Seq::empty(),
    }
}

/// An accumulating scratch field takes a further run of text.
pub open spec fn spec_append_opt(o: Option<Seq<char>>, s: Seq<char>) -> Option<Seq<char>> {
    match o {
        None => Some(s),
        Some(t) => Some(t + s),
    }
}

/// An opening tag moves the reducer between states; anything unrecognized is
/// ignored.
pub open spec fn spec_step_start(m: MachineView, name: Seq<u8>) -> MachineView {
    let t = spec_tag_chars(name);
    if m.st == ParseState::Other && t == "item"@ {
        MachineView { st: ParseState::Item, ..m }
    } else if m.st == ParseState::Item && t == "title"@ {
        MachineView { st: ParseState::ItemTitle, ..m }
    } else if m.st == ParseState::Other && t == "title"@ {
        MachineView { st: ParseState::PodcastTitle, ..m }
    } else if m.st == ParseState::Item && t == "pubdate"@ {
        MachineView { st: ParseState::ItemPubDate, ..m }
    } else {
        m
    }
}

/// Text accumulates into whichever value the state is collecting.
pub open spec fn spec_step_text(m: MachineView, s: Seq<char>) -> MachineView {
    match m.st {
        ParseState::ItemTitle => MachineView { item_title: spec_append_opt(m.item_title, s), ..m },
        ParseState::ItemPubDate => MachineView {
            item_date: spec_append_opt(m.item_date, s),
            ..m
        },
        ParseState::PodcastTitle => MachineView { chan_title: m.chan_title + s, ..m },
        _ => m,
    }
}

/// An entity reference accumulates as the character it resolves to; an
/// unresolvable one is ignored.
pub open spec fn spec_step_ref(m: MachineView, name: Seq<char>) -> MachineView {
    match spec_resolve_ref(name) {
        Some(c) => spec_step_text(m, seq![c]),
        None => m,
    }
}

/// The value of the first `url` attribute, if any.
pub open spec fn spec_find_url(attrs: Seq<XmlAttrView>) -> Option<Seq<char>>
    decreases attrs.len(),
{
    if attrs.len() == 0 {
        None
    } else if spec_key_chars(attrs[0].key) == "url"@ {
        Some(attrs[0].value)
    } else {
        spec_find_url(attrs.drop_first())
    }
}

/// A self-closing `enclosure` inside an item records its `url` attribute;
/// one without a `url` records nothing, and the item fails when it closes
/// with no URL recorded.
pub open spec fn spec_step_empty(m: MachineView, name: Seq<u8>, attrs: Seq<XmlAttrView>) -> MachineView {
    if m.st == ParseState::Item && spec_tag_chars(name) == "enclosure"@ {
        match spec_find_url(attrs) {
            Some(v) => MachineView { item_url: Some(v), ..m },
            None => m,
        }
    } else {
        m
    }
}

/// A closing `item` finalizes the draft into an episode — failing the whole
/// parse where the title, the enclosure URL or the `pubDate` text is
/// missing, or where the `pubDate` text is no recognized date — and the
/// other closing tags move the reducer back out of a value.
pub open spec fn spec_step_end(m: MachineView, name: Seq<u8>) -> Result<
    MachineView,
    FeedErrorView,
> {
    let t = spec_tag_chars(name);
    if m.st == ParseState::Item && t == "item"@ {
        match m.item_title {
            None => Err(FeedErrorView::MissingTitle),
            Some(ti) => match m.item_url {
                None => Err(FeedErrorView::MissingEnclosureUrl),
                Some(u) => match m.item_date {
                    None => Err(FeedErrorView::MissingPubDate),
                    Some(ds) => match rfc2822_utc(ds) {
                        None => Err(FeedErrorView::BadPubDate(ds)),
                        Some(d) => Ok(
                            MachineView {
                                st: ParseState::Other,
                                chan_title: m.chan_title,
                                item_title: None,
                                item_url: None,
                                item_date: None,
                                episodes: m.episodes.push(
                                    EpisodeView {
                                        title: ti,
                                        url: u,
                                        pub_date: d,
                                        state: DownloadStateView::NotDownloaded,
                                        listened: None,
                                    },
                                ),
                            },
                        ),
                    },
                },
            },
        }
    } else if m.st == ParseState::ItemTitle && t == "title"@ {
        Ok(MachineView { st: ParseState::Item, ..m })
    } else if m.st == ParseState::ItemPubDate && t == "pubdate"@ {
        Ok(MachineView { st: ParseState::Item, ..m })
    } else if m.st == ParseState::PodcastTitle && t == "title"@ {
        Ok(MachineView { st: ParseState::Other, ..m })
    } else {
        Ok(m)
    }
}

/// One event moves the reducer one step, or fails the parse.
pub open spec fn spec_step(m: MachineView, ev: XmlEventView) -> Result<MachineView, FeedErrorView> {
    match ev {
        XmlEventView::Start(name) => Ok(spec_step_start(m, name)),
        XmlEventView::Empty(name, attrs) => Ok(spec_step_empty(m, name, attrs)),
        XmlEventView::Text(s) => Ok(spec_step_text(m, s)),
        XmlEventView::Ref(name) => Ok(spec_step_ref(m, name)),
        XmlEventView::End(name) => spec_step_end(m, name),
        XmlEventView::Eof => Ok(m),
        XmlEventView::Skip => Ok(m),
    }
}

/// Runs the reducer from `m` over `evs`, stopping at the first
/// end-of-document event or the first failure.
pub open spec fn spec_run(m: MachineView, evs: Seq<XmlEventView>) -> Result<
    MachineView,
    FeedErrorView,
>
    decreases evs.len(),
{
    if evs.len() == 0 {
        Ok(m)
    } else if evs[0] is Eof {
        Ok(m)
    } else {
        match spec_step(m, evs[0]) {
            Ok(m2) => spec_run(m2, evs.drop_first()),
            Err(e) => Err(e),
        }
    }
}

/// What parsing a whole event sequence yields: the channel title and the
/// finished episodes, or the first failure.
pub open spec fn spec_parse(evs: Seq<XmlEventView>) -> Result<ParsedFeedView, FeedErrorView> {
    match spec_run(spec_machine_init(), evs) {
        Ok(m) => Ok(ParsedFeedView { title: m.chan_title, episodes: m.episodes }),
        Err(e) => Err(e),
    }
}

/// The reducer's working data.
struct Machine {
    st: ParseState,
    chan_title: String,
    item_title: Option<String>,
    item_url: Option<String>,
    item_date: Option<String>,
    episodes: Vec<Episode>,
}

/// The characters of an optional scratch field.
pub open spec fn spec_opt_chars(o: Option<String>) -> Option<Seq<char>> {
    match o {
        Some(s) => Some(s@),
        None => None,
    }
}

impl View for Machine {
    type V = MachineView;

    closed spec fn view(&self) -> MachineView {
        MachineView {
            st: self.st,
            chan_title: self.chan_title@,
            item_title: spec_opt_chars(self.item_title),
            item_url: spec_opt_chars(self.item_url),
            item_date: spec_opt_chars(self.item_date),
            episodes: spec_episode_views(self.episodes@),
        }
    }
}

/// Appends a run of text to a scratch field.
fn append_opt(o: &mut Option<String>, s: &str)
    ensures
        spec_opt_chars(*final(o)) == spec_append_opt(spec_opt_chars(*old(o)), s@),
{
    match o {
        Some(t) => {
            t.append(s);
        },
        None => {
            *o = Some(s.to_owned());
        },
    }
}

impl Machine {
    fn init() -> (m: Machine)
        ensures
            m@ == spec_machine_init(),
    {
        let m = Machine {
            st: ParseState::Other,
            chan_title: String::new(),
            item_title: None,
            item_url: None,
            item_date: None,
            episodes: Vec::new(),
        };
        proof {
            assert(spec_episode_views(m.episodes@) =~= Seq::<EpisodeView>::empty());
        }
        m
    }

    /// Takes one event.
    fn step(&mut self, ev: &XmlEvent) -> (r: Result<(), FeedError>)
        ensures
            match r {
                Ok(_) => spec_step(old(self)@, ev@) == Ok::<MachineView, FeedErrorView>(
                    final(self)@,
                ),
                Err(e) => spec_step(old(self)@, ev@) == Err::<MachineView, FeedErrorView>(e@),
            },
    {
        match ev {
            XmlEvent::Start(name) => {
                if matches!(self.st, ParseState::Other) && tag_is(name, "item") {
                    self.st = ParseState::Item;
                } else if matches!(self.st, ParseState::Item) && tag_is(name, "title") {
                    self.st = ParseState::ItemTitle;
                } else if matches!(self.st, ParseState::Other) && tag_is(name, "title") {
                    self.st = ParseState::PodcastTitle;
                } else if matches!(self.st, ParseState::Item) && tag_is(name, "pubdate") {
                    self.st = ParseState::ItemPubDate;
                }
                Ok(())
            },
            XmlEvent::Text(s) => {
                self.take_text(s.as_str());
                Ok(())
            },
            XmlEvent::Ref(name) => {
                match resolve_ref(name.as_str()) {
                    Some(c) => {
                        let mut one = String::new();
                        one.push(c);
                        proof {
                            assert(one@ =~= seq![c]);
                        }
                        self.take_text(one.as_str());
                    },
                    None => {},
                }
                Ok(())
            },
            XmlEvent::Empty(name, attrs) => {
                if matches!(self.st, ParseState::Item) && tag_is(name, "enclosure") {
                    let n = attrs.len();
                    let ghost avs = crate::xml::spec_attr_views(attrs@);
                    proof {
                        assert(avs.skip(0) =~= avs);
                    }
                    let mut j: usize = 0;
                    while j < n
                        invariant
                            j <= n,
                            n == attrs.len(),
                            avs == crate::xml::spec_attr_views(attrs@),
                            spec_find_url(avs) == spec_find_url(avs.skip(j as int)),
                            self == old(self),
                            ev@ == XmlEventView::Empty(name@, avs),
                            old(self)@.st == ParseState::Item,
                            spec_tag_chars(name@) == "enclosure"@,
                        decreases n - j,
                    {
                        proof {
                            assert(avs.skip(j as int)[0] == avs[j as int]);
                            assert(avs.skip(j as int).drop_first() =~= avs.skip(j + 1));
                        }
                        if key_is(&attrs[j].key, "url") {
                            proof {
                                assert(avs[j as int] == attrs@[j as int]@);
                                assert(spec_find_url(avs.skip(j as int)) == Some(
                                    avs[j as int].value,
                                ));
                            }
                            self.item_url = Some(attrs[j].value.clone());
                            proof {
                                assert(final(self)@ == (MachineView {
                                    item_url: Some(avs[j as int].value),
                                    ..old(self)@
                                }));
                                assert(spec_find_url(avs) == Some(avs[j as int].value));
                            }
                            return Ok(());
                        }
                        j = j + 1;
                    }
                    proof {
                        assert(avs.skip(n as int) =~= Seq::<XmlAttrView>::empty());
                    }
                }
                Ok(())
            },
            XmlEvent::End(name) => {
                if matches!(self.st, ParseState::Item) && tag_is(name, "item") {
                    let t = match &self.item_title {
                        Some(t) => t.clone(),
                        None => {
                            return Err(FeedError::MissingTitle);
                        },
                    };
                    let u = match &self.item_url {
                        Some(u) => u.clone(),
                        None => {
                            return Err(FeedError::MissingEnclosureUrl);
                        },
                    };
                    let ds = match &self.item_date {
                        Some(d) => d.clone(),
                        None => {
                            return Err(FeedError::MissingPubDate);
                        },
                    };
                    let d = match parse_rfc2822(ds.as_str()) {
                        Some(d) => d,
                        None => {
                            return Err(FeedError::BadPubDate(ds));
                        },
                    };
                    let ep = Episode::new(t.as_str(), u.as_str(), d);
                    let ghost pre = spec_episode_views(self.episodes@);
                    self.episodes.push(ep);
                    proof {
                        assert(spec_episode_views(self.episodes@) =~= pre.push(ep@));
                    }
                    self.item_title = None;
                    self.item_url = None;
                    self.item_date = None;
                    self.st = ParseState::Other;
                } else if matches!(self.st, ParseState::ItemTitle) && tag_is(name, "title") {
                    self.st = ParseState::Item;
                } else if matches!(self.st, ParseState::ItemPubDate) && tag_is(name, "pubdate") {
                    self.st = ParseState::Item;
                } else if matches!(self.st, ParseState::PodcastTitle) && tag_is(name, "title") {
                    self.st = ParseState::Other;
                }
                Ok(())
            },
            XmlEvent::Eof => Ok(()),
            XmlEvent::Skip => Ok(()),
        }
    }

    /// Accumulates a run of text into whatever the state is collecting.
    fn take_text(&mut self, s: &str)
        ensures
            final(self)@ == spec_step_text(old(self)@, s@),
    {
        match self.st {
            ParseState::ItemTitle => append_opt(&mut self.item_title, s),
            ParseState::ItemPubDate => append_opt(&mut self.item_date, s),
            ParseState::PodcastTitle => self.chan_title.append(s),
            _ => {},
        }
    }

    /// What the reducer has at the end of the document.
    fn into_feed(self) -> (f: ParsedFeed)
        ensures
            f@ == (ParsedFeedView { title: self@.chan_title, episodes: self@.episodes }),
    {
        ParsedFeed { title: self.chan_title, episodes: self.episodes }
    }
}

/// Parses one RSS document: its channel title and, in document order, one
/// episode per well-formed `item`. Fails on the first item that closes
/// without a title, an enclosure URL or a readable `pubDate`; tolerates and
/// skips anything else it does not recognize.
pub fn parse(doc: &str) -> (r: Result<ParsedFeed, FeedError>)
    ensures
        match r {
            Ok(f) => spec_parse(events_of(doc@)) == Ok::<ParsedFeedView, FeedErrorView>(f@),
            Err(e) => spec_parse(events_of(doc@)) == Err::<ParsedFeedView, FeedErrorView>(e@),
        },
{
    let mut reader = crate::xml::reader_from_str(doc);
    let mut m = Machine::init();
    loop
        invariant
            spec_run(spec_machine_init(), events_of(doc@)) == spec_run(
                m@,
                crate::xml::reader_pending(reader),
            ),
        decreases crate::xml::reader_pending(reader).len(),
    {
        let ghost pending = crate::xml::reader_pending(reader);
        let ev = crate::xml::read_event(&mut reader);
        if matches!(ev, XmlEvent::Eof) {
            return Ok(m.into_feed());
        }
        proof {
            assert(pending.len() > 0);
            assert(!(ev@ is Eof));
            assert(crate::xml::reader_pending(reader) =~= pending.drop_first());
        }
        match m.step(&ev) {
            Ok(_) => {},
            Err(e) => {
                return Err(e);
            },
        }
    }
}

/// Parses an already-tokenized run of XML events, exactly as [`parse`] does
/// a document.
pub fn parse_events(events: &Vec<XmlEvent>) -> (r: Result<ParsedFeed, FeedError>)
    ensures
        match r {
            Ok(f) => spec_parse(spec_event_views(events@)) == Ok::<ParsedFeedView, FeedErrorView>(
                f@,
            ),
            Err(e) => spec_parse(spec_event_views(events@)) == Err::<
                ParsedFeedView,
                FeedErrorView,
            >(e@),
        },
{
    let ghost evs = spec_event_views(events@);
    let mut m = Machine::init();
    proof {
        assert(evs.skip(0) =~= evs);
    }
    let n = events.len();
    let mut i: usize = 0;
    while i < n
        invariant
            i <= n,
            n == events.len(),
            evs == spec_event_views(events@),
            spec_run(spec_machine_init(), evs) == spec_run(m@, evs.skip(i as int)),
        decreases n - i,
    {
        proof {
            assert(evs.skip(i as int)[0] == evs[i as int]);
            assert(evs.skip(i as int).drop_first() =~= evs.skip(i + 1));
        }
        let ev = &events[i];
        if matches!(ev, XmlEvent::Eof) {
            return Ok(m.into_feed());
        }
        proof {
            assert(!(ev@ is Eof));
        }
        match m.step(ev) {
            Ok(_) => {},
            Err(e) => {
                return Err(e);
            },
        }
        i = i + 1;
    }
    proof {
        assert(evs.skip(n as int) =~= Seq::<XmlEventView>::empty());
    }
    Ok(m.into_feed())
}

/// One well-formed `item` of a feed, by its three values.
pub ghost struct ItemSpec {
    pub title: Seq<char>,
    pub url: Seq<char>,
    pub date_text: Seq<char>,
}

/// The episode a well-formed item becomes.
pub open spec fn spec_episode_of(it: ItemSpec) -> EpisodeView {
    EpisodeView {
        title: it.title,
        url: it.url,
        pub_date: rfc2822_utc(it.date_text)->0,
        state: DownloadStateView::NotDownloaded,
        listened: None,
    }
}

/// The events of one `item` element holding a title, a `pubDate` and an
/// enclosure with a `url` attribute, under the given tag spellings.
pub open spec fn spec_item_events(
    it: ItemSpec,
    t_item: Seq<u8>,
    t_title: Seq<u8>,
    t_pubdate: Seq<u8>,
    t_encl: Seq<u8>,
    k_url: Seq<u8>,
) -> Seq<XmlEventView> {
    seq![
        XmlEventView::Start(t_item),
        XmlEventView::Start(t_title),
        XmlEventView::Text(it.title),
        XmlEventView::End(t_title),
        XmlEventView::Start(t_pubdate),
        XmlEventView::Text(it.date_text),
        XmlEventView::End(t_pubdate),
        XmlEventView::Empty(t_encl, seq![XmlAttrView { key: k_url, value: it.url }]),
        XmlEventView::End(t_item),
    ]
}

/// The events of a run of items, one after the other.
pub open spec fn spec_items_events(
    items: Seq<ItemSpec>,
    t_item: Seq<u8>,
    t_title: Seq<u8>,
    t_pubdate: Seq<u8>,
    t_encl: Seq<u8>,
    k_url: Seq<u8>,
) -> Seq<XmlEventView>
    decreases items.len(),
{
    if items.len() == 0 {
        Seq::empty()
    } else {
        spec_item_events(items[0], t_item, t_title, t_pubdate, t_encl, k_url)
            + spec_items_events(items.drop_first(), t_item, t_title, t_pubdate, t_encl, k_url)
    }
}

/// The events of a whole feed: a channel title element, then the items.
pub open spec fn spec_feed_events(
    chan_title: Seq<char>,
    items: Seq<ItemSpec>,
    t_item: Seq<u8>,
    t_title: Seq<u8>,
    t_pubdate: Seq<u8>,
    t_encl: Seq<u8>,
    k_url: Seq<u8>,
) -> Seq<XmlEventView> {
    seq![
        XmlEventView::Start(t_title),
        XmlEventView::Text(chan_title),
        XmlEventView::End(t_title),
    ] + spec_items_events(items, t_item, t_title, t_pubdate, t_encl, k_url)
}

/// Whether the five spellings read as the five feed tag and key words.
pub open spec fn spec_feed_tags(
    t_item: Seq<u8>,
    t_title: Seq<u8>,
    t_pubdate: Seq<u8>,
    t_encl: Seq<u8>,
    k_url: Seq<u8>,
) -> bool {
    &&& spec_tag_chars(t_item) == "item"@
    &&& spec_tag_chars(t_title) == "title"@
    &&& spec_tag_chars(t_pubdate) == "pubdate"@
    &&& spec_tag_chars(t_encl) == "enclosure"@
    &&& spec_key_chars(k_url) == "url"@
}

/// Running the reducer from a between-items standing over one well-formed
/// item appends exactly that item's episode and returns to the same
/// standing.
#[verifier::rlimit(100)]
proof fn lemma_run_item(
    m: MachineView,
    it: ItemSpec,
    rest: Seq<XmlEventView>,
    t_item: Seq<u8>,
    t_title: Seq<u8>,
    t_pubdate: Seq<u8>,
    t_encl: Seq<u8>,
    k_url: Seq<u8>,
)
    requires
        spec_feed_tags(t_item, t_title, t_pubdate, t_encl, k_url),
        m.st == ParseState::Item || m.st == ParseState::Other,
        m.item_title is None,
        m.item_url is None,
        m.item_date is None,
        rfc2822_utc(it.date_text) is Some,
    ensures
        spec_run(m, spec_item_events(it, t_item, t_title, t_pubdate, t_encl, k_url) + rest)
            == spec_run(
            MachineView {
                st: ParseState::Other,
                episodes: m.episodes.push(spec_episode_of(it)),
                ..m
            },
            rest,
        ),
{
    let e = spec_item_events(it, t_item, t_title, t_pubdate, t_encl, k_url);
    let s = e + rest;
    assert(s[0] == XmlEventView::Start(t_item));
    assert(s[1] == XmlEventView::Start(t_title));
    assert(s[2] == XmlEventView::Text(it.title));
    assert(s[3] == XmlEventView::End(t_title));
    assert(s[4] == XmlEventView::Start(t_pubdate));
    assert(s[5] == XmlEventView::Text(it.date_text));
    assert(s[6] == XmlEventView::End(t_pubdate));
    assert(s[7] == XmlEventView::Empty(
        t_encl,
        seq![XmlAttrView { key: k_url, value: it.url }],
    ));
    assert(s[8] == XmlEventView::End(t_item));
    reveal_strlit("item");
    reveal_strlit("title");
    reveal_strlit("pubdate");
    reveal_strlit("enclosure");
    assert("item"@.len() == 4 && "title"@.len() == 5 && "pubdate"@.len() == 7 && "enclosure"@.len()
        == 9);
    let m1 = MachineView { st: ParseState::Item, ..m };
    assert(spec_step_start(m, t_item) == m1);
    assert(s.drop_first() =~= s.skip(1));
    assert(spec_run(m, s) == spec_run(m1, s.skip(1)));
    let m2 = MachineView { st: ParseState::ItemTitle, ..m1 };
    assert(spec_step_start(m1, t_title) == m2);
    assert(s.skip(1)[0] == s[1]);
    assert(s.skip(1).drop_first() =~= s.skip(2));
    assert(spec_run(m1, s.skip(1)) == spec_run(m2, s.skip(2)));
    let m3 = MachineView { item_title: Some(it.title), ..m2 };
    assert(spec_step_text(m2, it.title) == m3);
    assert(s.skip(2)[0] == s[2]);
    assert(s.skip(2).drop_first() =~= s.skip(3));
    assert(spec_run(m2, s.skip(2)) == spec_run(m3, s.skip(3)));
    let m4 = MachineView { st: ParseState::Item, ..m3 };
    assert(spec_step_end(m3, t_title) == Ok::<MachineView, FeedErrorView>(m4));
    assert(s.skip(3)[0] == s[3]);
    assert(s.skip(3).drop_first() =~= s.skip(4));
    assert(spec_run(m3, s.skip(3)) == spec_run(m4, s.skip(4)));
    let m5 = MachineView { st: ParseState::ItemPubDate, ..m4 };
    assert(spec_step_start(m4, t_pubdate) == m5);
    assert(s.skip(4)[0] == s[4]);
    assert(s.skip(4).drop_first() =~= s.skip(5));
    assert(spec_run(m4, s.skip(4)) == spec_run(m5, s.skip(5)));
    let m6 = MachineView { item_date: Some(it.date_text), ..m5 };
    assert(spec_step_text(m5, it.date_text) == m6);
    assert(s.skip(5)[0] == s[5]);
    assert(s.skip(5).drop_first() =~= s.skip(6));
    assert(spec_run(m5, s.skip(5)) == spec_run(m6, s.skip(6)));
    let m7 = MachineView { st: ParseState::Item, ..m6 };
    assert(spec_step_end(m6, t_pubdate) == Ok::<MachineView, FeedErrorView>(m7));
    assert(s.skip(6)[0] == s[6]);
    assert(s.skip(6).drop_first() =~= s.skip(7));
    assert(spec_run(m6, s.skip(6)) == spec_run(m7, s.skip(7)));
    let attrs = seq![XmlAttrView { key: k_url, value: it.url }];
    assert(spec_find_url(attrs) == Some(it.url));
    let m8 = MachineView { item_url: Some(it.url), ..m7 };
    assert(spec_step_empty(m7, t_encl, attrs) == m8);
    assert(s.skip(7)[0] == s[7]);
    assert(s.skip(7).drop_first() =~= s.skip(8));
    assert(spec_run(m7, s.skip(7)) == spec_run(m8, s.skip(8)));
    let m9 = MachineView {
        st: ParseState::Other,
        chan_title: m8.chan_title,
        item_title: None,
        item_url: None,
        item_date: None,
        episodes: m8.episodes.push(spec_episode_of(it)),
    };
    assert(spec_step_end(m8, t_item) == Ok::<MachineView, FeedErrorView>(m9));
    assert(s.skip(8)[0] == s[8]);
    assert(s.skip(8).drop_first() =~= s.skip(9));
    assert(spec_run(m8, s.skip(8)) == spec_run(m9, s.skip(9)));
    assert(s.skip(9) =~= rest);
    assert(m9 == (MachineView {
        st: ParseState::Other,
        episodes: m.episodes.push(spec_episode_of(it)),
        ..m
    }));
}

/// Running the reducer over a run of well-formed items appends exactly their
/// episodes, in order.
proof fn lemma_run_items(
    m: MachineView,
    items: Seq<ItemSpec>,
    rest: Seq<XmlEventView>,
    t_item: Seq<u8>,
    t_title: Seq<u8>,
    t_pubdate: Seq<u8>,
    t_encl: Seq<u8>,
    k_url: Seq<u8>,
)
    requires
        spec_feed_tags(t_item, t_title, t_pubdate, t_encl, k_url),
        m.st == ParseState::Other,
        m.item_title is None,
        m.item_url is None,
        m.item_date is None,
        forall|i: int| 0 <= i < items.len() ==> rfc2822_utc(#[trigger] items[i].date_text) is Some,
    ensures
        spec_run(
            m,
            spec_items_events(items, t_item, t_title, t_pubdate, t_encl, k_url) + rest,
        ) == spec_run(
            MachineView {
                episodes: m.episodes + items.map_values(|it: ItemSpec| spec_episode_of(it)),
                ..m
            },
            rest,
        ),
    decreases items.len(),
{
    let eps = items.map_values(|it: ItemSpec| spec_episode_of(it));
    if items.len() == 0 {
        assert(spec_items_events(items, t_item, t_title, t_pubdate, t_encl, k_url) + rest
            =~= rest);
        assert(m.episodes + eps =~= m.episodes);
        assert((MachineView { episodes: m.episodes + eps, ..m }) == m);
    } else {
        let e0 = spec_item_events(items[0], t_item, t_title, t_pubdate, t_encl, k_url);
        let tailev = spec_items_events(
            items.drop_first(),
            t_item,
            t_title,
            t_pubdate,
            t_encl,
            k_url,
        );
        assert(spec_items_events(items, t_item, t_title, t_pubdate, t_encl, k_url) + rest =~= e0
            + (tailev + rest));
        lemma_run_item(m, items[0], tailev + rest, t_item, t_title, t_pubdate, t_encl, k_url);
        let m1 = MachineView {
            st: ParseState::Other,
            episodes: m.episodes.push(spec_episode_of(items[0])),
            ..m
        };
        lemma_run_items(
            m1,
            items.drop_first(),
            rest,
            t_item,
            t_title,
            t_pubdate,
            t_encl,
            k_url,
        );
        let tail_eps = items.drop_first().map_values(|it: ItemSpec| spec_episode_of(it));
        assert(m1.episodes + tail_eps =~= m.episodes + eps);
        assert((MachineView { episodes: m1.episodes + tail_eps, ..m1 }) == (MachineView {
            episodes: m.episodes + eps,
            ..m
        }));
    }
}

/// Law: the parser is complete — a feed of a channel title and `N`
/// well-formed items, each holding a title, a readable `pubDate` and an
/// enclosure with a `url`, parses to exactly that title and exactly `N`
/// episodes, in document order, with those field values. The tag spellings
/// may use any letter case.
pub proof fn lemma_parse_completeness(
    chan_title: Seq<char>,
    items: Seq<ItemSpec>,
    t_item: Seq<u8>,
    t_title: Seq<u8>,
    t_pubdate: Seq<u8>,
    t_encl: Seq<u8>,
    k_url: Seq<u8>,
)
    requires
        spec_feed_tags(t_item, t_title, t_pubdate, t_encl, k_url),
        forall|i: int| 0 <= i < items.len() ==> rfc2822_utc(#[trigger] items[i].date_text) is Some,
    ensures
        spec_parse(spec_feed_events(chan_title, items, t_item, t_title, t_pubdate, t_encl, k_url))
            == Ok::<ParsedFeedView, FeedErrorView>(
            ParsedFeedView {
                title: chan_title,
                episodes: items.map_values(|it: ItemSpec| spec_episode_of(it)),
            },
        ),
        items.map_values(|it: ItemSpec| spec_episode_of(it)).len() == items.len(),
        forall|i: int|
            0 <= i < items.len() ==> items.map_values(|it: ItemSpec| spec_episode_of(it))[i]
                == spec_episode_of(#[trigger] items[i]),
{
    let s = spec_feed_events(chan_title, items, t_item, t_title, t_pubdate, t_encl, k_url);
    let itemsev = spec_items_events(items, t_item, t_title, t_pubdate, t_encl, k_url);
    reveal_strlit("item");
    reveal_strlit("title");
    assert("item"@.len() == 4 && "title"@.len() == 5);
    let m0 = spec_machine_init();
    assert(s[0] == XmlEventView::Start(t_title));
    assert(s[1] == XmlEventView::Text(chan_title));
    assert(s[2] == XmlEventView::End(t_title));
    let m1 = MachineView { st: ParseState::PodcastTitle, ..m0 };
    assert(spec_step_start(m0, t_title) == m1);
    assert(s.drop_first() =~= s.skip(1));
    assert(spec_run(m0, s) == spec_run(m1, s.skip(1)));
    let m2 = MachineView { chan_title: chan_title, ..m1 };
    assert(m1.chan_title + chan_title =~= chan_title);
    assert(spec_step_text(m1, chan_title) == m2);
    assert(s.skip(1)[0] == s[1]);
    assert(s.skip(1).drop_first() =~= s.skip(2));
    assert(spec_run(m1, s.skip(1)) == spec_run(m2, s.skip(2)));
    let m3 = MachineView { st: ParseState::Other, ..m2 };
    assert(spec_step_end(m2, t_title) == Ok::<MachineView, FeedErrorView>(m3));
    assert(s.skip(2)[0] == s[2]);
    assert(s.skip(2).drop_first() =~= s.skip(3));
    assert(spec_run(m2, s.skip(2)) == spec_run(m3, s.skip(3)));
    assert(s.skip(3) =~= itemsev + Seq::<XmlEventView>::empty());
    lemma_run_items(
        m3,
        items,
        Seq::empty(),
        t_item,
        t_title,
        t_pubdate,
        t_encl,
        k_url,
    );
    let eps = items.map_values(|it: ItemSpec| spec_episode_of(it));
    let mf = MachineView { episodes: m3.episodes + eps, ..m3 };
    assert(spec_run(m3, itemsev + Seq::<XmlEventView>::empty()) == spec_run(
        mf,
        Seq::<XmlEventView>::empty(),
    ));
    assert(mf.episodes =~= eps);
    assert(spec_run(m0, s) == Ok::<MachineView, FeedErrorView>(mf));
}

/// An attribute list with no `url` key yields no URL.
proof fn lemma_find_url_none(attrs: Seq<XmlAttrView>)
    requires
        forall|i: int| 0 <= i < attrs.len() ==> spec_key_chars(#[trigger] attrs[i].key) != "url"@,
    ensures
        spec_find_url(attrs) is None,
    decreases attrs.len(),
{
    if attrs.len() > 0 {
        assert(attrs.drop_first() =~= attrs.subrange(1, attrs.len() as int));
        assert(forall|i: int|
            0 <= i < attrs.drop_first().len() ==> spec_key_chars(
                #[trigger] attrs.drop_first()[i].key,
            ) != "url"@);
        lemma_find_url_none(attrs.drop_first());
    }
}

/// Law (first half): the parser fails rather than skipping a bad item — an
/// item whose enclosure carries no `url` attribute fails the whole parse
/// with the missing-enclosure-URL error. The item stands alone after a
/// channel title, under any tag spellings.
#[verifier::rlimit(100)]
pub proof fn lemma_parse_missing_url(
    chan_title: Seq<char>,
    it: ItemSpec,
    bad_attrs: Seq<XmlAttrView>,
    t_item: Seq<u8>,
    t_title: Seq<u8>,
    t_pubdate: Seq<u8>,
    t_encl: Seq<u8>,
    k_url: Seq<u8>,
)
    requires
        spec_feed_tags(t_item, t_title, t_pubdate, t_encl, k_url),
        forall|i: int|
            0 <= i < bad_attrs.len() ==> spec_key_chars(#[trigger] bad_attrs[i].key) != "url"@,
    ensures
        spec_parse(
            seq![
                XmlEventView::Start(t_title),
                XmlEventView::Text(chan_title),
                XmlEventView::End(t_title),
            ] + spec_item_events(it, t_item, t_title, t_pubdate, t_encl, k_url).update(
                7,
                XmlEventView::Empty(t_encl, bad_attrs),
            ),
        ) == Err::<ParsedFeedView, FeedErrorView>(FeedErrorView::MissingEnclosureUrl),
{
    reveal_strlit("item");
    reveal_strlit("title");
    reveal_strlit("pubdate");
    reveal_strlit("enclosure");
    assert("item"@.len() == 4 && "title"@.len() == 5 && "pubdate"@.len() == 7);
    let m0 = spec_machine_init();
    let m1 = MachineView { st: ParseState::PodcastTitle, ..m0 };
    let m2 = MachineView { chan_title: chan_title, ..m1 };
    let m3 = MachineView { st: ParseState::Other, ..m2 };
    assert(m1.chan_title + chan_title =~= chan_title);
    let e1 = spec_item_events(it, t_item, t_title, t_pubdate, t_encl, k_url).update(
        7,
        XmlEventView::Empty(t_encl, bad_attrs),
    );
    let s1 = seq![
        XmlEventView::Start(t_title),
        XmlEventView::Text(chan_title),
        XmlEventView::End(t_title),
    ] + e1;
    assert(s1[0] == XmlEventView::Start(t_title));
    assert(s1[1] == XmlEventView::Text(chan_title));
    assert(s1[2] == XmlEventView::End(t_title));
    assert(s1[3] == XmlEventView::Start(t_item));
    assert(s1[4] == XmlEventView::Start(t_title));
    assert(s1[5] == XmlEventView::Text(it.title));
    assert(s1[6] == XmlEventView::End(t_title));
    assert(s1[7] == XmlEventView::Start(t_pubdate));
    assert(s1[8] == XmlEventView::Text(it.date_text));
    assert(s1[9] == XmlEventView::End(t_pubdate));
    assert(s1[10] == XmlEventView::Empty(t_encl, bad_attrs));
    assert(s1[11] == XmlEventView::End(t_item));
    assert(s1.len() == 12);
    assert(spec_step_start(m0, t_title) == m1);
    assert(s1.drop_first() =~= s1.skip(1));
    assert(spec_run(m0, s1) == spec_run(m1, s1.skip(1)));
    assert(spec_step_text(m1, chan_title) == m2);
    assert(s1.skip(1)[0] == s1[1]);
    assert(s1.skip(1).drop_first() =~= s1.skip(2));
    assert(spec_run(m1, s1.skip(1)) == spec_run(m2, s1.skip(2)));
    assert(spec_step_end(m2, t_title) == Ok::<MachineView, FeedErrorView>(m3));
    assert(s1.skip(2)[0] == s1[2]);
    assert(s1.skip(2).drop_first() =~= s1.skip(3));
    assert(spec_run(m2, s1.skip(2)) == spec_run(m3, s1.skip(3)));
    let n1 = MachineView { st: ParseState::Item, ..m3 };
    assert(spec_step_start(m3, t_item) == n1);
    assert(s1.skip(3)[0] == s1[3]);
    assert(s1.skip(3).drop_first() =~= s1.skip(4));
    assert(spec_run(m3, s1.skip(3)) == spec_run(n1, s1.skip(4)));
    let n2 = MachineView { st: ParseState::ItemTitle, ..n1 };
    assert(spec_step_start(n1, t_title) == n2);
    assert(s1.skip(4)[0] == s1[4]);
    assert(s1.skip(4).drop_first() =~= s1.skip(5));
    assert(spec_run(n1, s1.skip(4)) == spec_run(n2, s1.skip(5)));
    let n3 = MachineView { item_title: Some(it.title), ..n2 };
    assert(spec_step_text(n2, it.title) == n3);
    assert(s1.skip(5)[0] == s1[5]);
    assert(s1.skip(5).drop_first() =~= s1.skip(6));
    assert(spec_run(n2, s1.skip(5)) == spec_run(n3, s1.skip(6)));
    let n4 = MachineView { st: ParseState::Item, ..n3 };
    assert(spec_step_end(n3, t_title) == Ok::<MachineView, FeedErrorView>(n4));
    assert(s1.skip(6)[0] == s1[6]);
    assert(s1.skip(6).drop_first() =~= s1.skip(7));
    assert(spec_run(n3, s1.skip(6)) == spec_run(n4, s1.skip(7)));
    let n5 = MachineView { st: ParseState::ItemPubDate, ..n4 };
    assert(spec_step_start(n4, t_pubdate) == n5);
    assert(s1.skip(7)[0] == s1[7]);
    assert(s1.skip(7).drop_first() =~= s1.skip(8));
    assert(spec_run(n4, s1.skip(7)) == spec_run(n5, s1.skip(8)));
    let n6 = MachineView { item_date: Some(it.date_text), ..n5 };
    assert(spec_step_text(n5, it.date_text) == n6);
    assert(s1.skip(8)[0] == s1[8]);
    assert(s1.skip(8).drop_first() =~= s1.skip(9));
    assert(spec_run(n5, s1.skip(8)) == spec_run(n6, s1.skip(9)));
    let n7 = MachineView { st: ParseState::Item, ..n6 };
    assert(spec_step_end(n6, t_pubdate) == Ok::<MachineView, FeedErrorView>(n7));
    assert(s1.skip(9)[0] == s1[9]);
    assert(s1.skip(9).drop_first() =~= s1.skip(10));
    assert(spec_run(n6, s1.skip(9)) == spec_run(n7, s1.skip(10)));
    lemma_find_url_none(bad_attrs);
    assert(spec_step_empty(n7, t_encl, bad_attrs) == n7);
    assert(s1.skip(10)[0] == s1[10]);
    assert(s1.skip(10).drop_first() =~= s1.skip(11));
    assert(spec_run(n7, s1.skip(10)) == spec_run(n7, s1.skip(11)));
    assert(s1.skip(11)[0] == s1[11]);
    assert(n7.item_url is None);
    assert(spec_step_end(n7, t_item) == Err::<MachineView, FeedErrorView>(
        FeedErrorView::MissingEnclosureUrl,
    ));
    assert(spec_run(m0, s1) == Err::<MachineView, FeedErrorView>(
        FeedErrorView::MissingEnclosureUrl,
    ));
}

/// Law (second half): an item whose `pubDate` text no date can be read from
/// fails the whole parse with the bad-date error carrying that text. The
/// item stands alone after a channel title, under any tag spellings.
#[verifier::rlimit(100)]
pub proof fn lemma_parse_bad_date(
    chan_title: Seq<char>,
    it: ItemSpec,
    t_item: Seq<u8>,
    t_title: Seq<u8>,
    t_pubdate: Seq<u8>,
    t_encl: Seq<u8>,
    k_url: Seq<u8>,
)
    requires
        spec_feed_tags(t_item, t_title, t_pubdate, t_encl, k_url),
        rfc2822_utc(it.date_text) is None,
    ensures
        spec_parse(
            spec_feed_events(chan_title, seq![it], t_item, t_title, t_pubdate, t_encl, k_url),
        ) == Err::<ParsedFeedView, FeedErrorView>(FeedErrorView::BadPubDate(it.date_text)),
{
    reveal_strlit("item");
    reveal_strlit("title");
    reveal_strlit("pubdate");
    reveal_strlit("enclosure");
    assert("item"@.len() == 4 && "title"@.len() == 5 && "pubdate"@.len() == 7);
    let m0 = spec_machine_init();
    let m1 = MachineView { st: ParseState::PodcastTitle, ..m0 };
    let m2 = MachineView { chan_title: chan_title, ..m1 };
    let m3 = MachineView { st: ParseState::Other, ..m2 };
    assert(m1.chan_title + chan_title =~= chan_title);
    let e2 = spec_item_events(it, t_item, t_title, t_pubdate, t_encl, k_url);
    let s2 = spec_feed_events(chan_title, seq![it], t_item, t_title, t_pubdate, t_encl, k_url);
    assert(seq![it][0] == it);
    assert(seq![it].drop_first() =~= Seq::<ItemSpec>::empty());
    assert(spec_items_events(seq![it].drop_first(), t_item, t_title, t_pubdate, t_encl, k_url)
        =~= Seq::<XmlEventView>::empty());
    assert(spec_items_events(seq![it], t_item, t_title, t_pubdate, t_encl, k_url) =~= e2
        + Seq::<XmlEventView>::empty());
    assert(s2[0] == XmlEventView::Start(t_title));
    assert(s2[1] == XmlEventView::Text(chan_title));
    assert(s2[2] == XmlEventView::End(t_title));
    assert(s2[3] == XmlEventView::Start(t_item));
    assert(s2[4] == XmlEventView::Start(t_title));
    assert(s2[5] == XmlEventView::Text(it.title));
    assert(s2[6] == XmlEventView::End(t_title));
    assert(s2[7] == XmlEventView::Start(t_pubdate));
    assert(s2[8] == XmlEventView::Text(it.date_text));
    assert(s2[9] == XmlEventView::End(t_pubdate));
    assert(s2[10] == XmlEventView::Empty(
        t_encl,
        seq![XmlAttrView { key: k_url, value: it.url }],
    ));
    assert(s2[11] == XmlEventView::End(t_item));
    assert(s2.len() == 12);
    assert(spec_step_start(m0, t_title) == m1);
    assert(s2.drop_first() =~= s2.skip(1));
    assert(spec_run(m0, s2) == spec_run(m1, s2.skip(1)));
    assert(spec_step_text(m1, chan_title) == m2);
    assert(s2.skip(1)[0] == s2[1]);
    assert(s2.skip(1).drop_first() =~= s2.skip(2));
    assert(spec_run(m1, s2.skip(1)) == spec_run(m2, s2.skip(2)));
    assert(spec_step_end(m2, t_title) == Ok::<MachineView, FeedErrorView>(m3));
    assert(s2.skip(2)[0] == s2[2]);
    assert(s2.skip(2).drop_first() =~= s2.skip(3));
    assert(spec_run(m2, s2.skip(2)) == spec_run(m3, s2.skip(3)));
    let n1 = MachineView { st: ParseState::Item, ..m3 };
    assert(spec_step_start(m3, t_item) == n1);
    assert(s2.skip(3)[0] == s2[3]);
    assert(s2.skip(3).drop_first() =~= s2.skip(4));
    assert(spec_run(m3, s2.skip(3)) == spec_run(n1, s2.skip(4)));
    let n2 = MachineView { st: ParseState::ItemTitle, ..n1 };
    assert(spec_step_start(n1, t_title) == n2);
    assert(s2.skip(4)[0] == s2[4]);
    assert(s2.skip(4).drop_first() =~= s2.skip(5));
    assert(spec_run(n1, s2.skip(4)) == spec_run(n2, s2.skip(5)));
    let n3 = MachineView { item_title: Some(it.title), ..n2 };
    assert(spec_step_text(n2, it.title) == n3);
    assert(s2.skip(5)[0] == s2[5]);
    assert(s2.skip(5).drop_first() =~= s2.skip(6));
    assert(spec_run(n2, s2.skip(5)) == spec_run(n3, s2.skip(6)));
    let n4 = MachineView { st: ParseState::Item, ..n3 };
    assert(spec_step_end(n3, t_title) == Ok::<MachineView, FeedErrorView>(n4));
    assert(s2.skip(6)[0] == s2[6]);
    assert(s2.skip(6).drop_first() =~= s2.skip(7));
    assert(spec_run(n3, s2.skip(6)) == spec_run(n4, s2.skip(7)));
    let n5 = MachineView { st: ParseState::ItemPubDate, ..n4 };
    assert(spec_step_start(n4, t_pubdate) == n5);
    assert(s2.skip(7)[0] == s2[7]);
    assert(s2.skip(7).drop_first() =~= s2.skip(8));
    assert(spec_run(n4, s2.skip(7)) == spec_run(n5, s2.skip(8)));
    let n6 = MachineView { item_date: Some(it.date_text), ..n5 };
    assert(spec_step_text(n5, it.date_text) == n6);
    assert(s2.skip(8)[0] == s2[8]);
    assert(s2.skip(8).drop_first() =~= s2.skip(9));
    assert(spec_run(n5, s2.skip(8)) == spec_run(n6, s2.skip(9)));
    let n7 = MachineView { st: ParseState::Item, ..n6 };
    assert(spec_step_end(n6, t_pubdate) == Ok::<MachineView, FeedErrorView>(n7));
    assert(s2.skip(9)[0] == s2[9]);
    assert(s2.skip(9).drop_first() =~= s2.skip(10));
    assert(spec_run(n6, s2.skip(9)) == spec_run(n7, s2.skip(10)));
    let attrs = seq![XmlAttrView { key: k_url, value: it.url }];
    let n8 = MachineView { item_url: Some(it.url), ..n7 };
    assert(spec_find_url(attrs) == Some(it.url));
    assert(spec_step_empty(n7, t_encl, attrs) == n8);
    assert(s2.skip(10)[0] == s2[10]);
    assert(s2.skip(10).drop_first() =~= s2.skip(11));
    assert(spec_run(n7, s2.skip(10)) == spec_run(n8, s2.skip(11)));
    assert(s2.skip(11)[0] == s2[11]);
    assert(spec_step_end(n8, t_item) == Err::<MachineView, FeedErrorView>(
        FeedErrorView::BadPubDate(it.date_text),
    ));
    assert(spec_run(m0, s2) == Err::<MachineView, FeedErrorView>(
        FeedErrorView::BadPubDate(it.date_text),
    ));
}

impl Podcast {
    /// The compute half of a feed refresh: parses one fetched RSS document
    /// and, on success, takes the result into this podcast — the channel
    /// title replaces the stored one, the parsed episodes are appended, the
    /// podcast counts as checked now. On failure the podcast is untouched.
    pub fn apply_rss(&mut self, doc: &str) -> (r: Result<(), FeedError>)
        ensures
            match r {
                Ok(_) => {
                    &&& spec_parse(events_of(doc@)) matches Ok(f)
                    &&& final(self)@.title == f.title
                    &&& final(self)@.url == old(self)@.url
                    &&& final(self)@.episodes == old(self)@.episodes + f.episodes
                },
                Err(e) => spec_parse(events_of(doc@)) == Err::<ParsedFeedView, FeedErrorView>(e@)
                    && final(self)@ == old(self)@,
            },
    {
        match parse(doc) {
            Ok(f) => {
                self.apply_feed(f);
                Ok(())
            },
            Err(e) => Err(e),
        }
    }
}

} // verus!
